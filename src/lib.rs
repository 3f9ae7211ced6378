//! Named git identities kept in a flat, line-oriented file, and the decisions
//! of the interactive menu that applies one of them to a repository.

pub mod identity;
pub mod profile;
pub mod selector;
pub mod store;
pub mod text;

pub use identity::{config_git_user, current_profile_queries, get_current_profile};
pub use profile::Profile;
pub use selector::{dispatch_options, is_choise_positive, MenuAction};
pub use store::{get_config_path, parse_line, parse_profiles, text_to_append};
