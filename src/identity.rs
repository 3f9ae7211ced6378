//! The identity that git records for a repository: the commands that read and
//! set it, and the profile read back from what those commands print.

use vstd::prelude::*;
use crate::profile::{Profile, ProfileView};
use crate::text::{trim, trim_str};

verus! {

/// The texts of a list of strings, in order.
pub open spec fn texts(v: Seq<String>) -> Seq<Seq<char>> {
    v.map_values(|s: String| s@)
}

/// The arguments of `git config <key>`, followed by `value` where one is given.
pub open spec fn config_command(key: Seq<char>, value: Option<Seq<char>>) -> Seq<Seq<char>> {
    let base = seq!["git"@, "config"@, key];
    match value {
        Some(v) => base.push(v),
        None => base,
    }
}

/// The text of an optional string.
pub open spec fn opt_text(o: Option<&str>) -> Option<Seq<char>> {
    match o {
        Some(v) => Some(v@),
        None => None,
    }
}

/// The git configuration key of the author name.
pub open spec fn name_key() -> Seq<char> {
    "user.name"@
}

/// The git configuration key of the author email.
pub open spec fn email_key() -> Seq<char> {
    "user.email"@
}

/// The command line of `git config <key> [value]`, program name first: with
/// no value it prints the key's value, with one it sets it.
pub fn git_config_command(key: &str, value: Option<&str>) -> (r: Vec<String>)
    ensures
        texts(r@) == config_command(key@, opt_text(value)),
{
    let mut r: Vec<String> = Vec::new();
    r.push(String::from_str("git"));
    r.push(String::from_str("config"));
    r.push(String::from_str(key));
    match value {
        Some(v) => {
            r.push(String::from_str(v));
        },
        None => {},
    }
    assert(texts(r@) =~= config_command(key@, opt_text(value)));
    r
}

/// The two commands that make `name` and `email` the repository's author
/// identity: first the name, then the email.
pub fn config_git_user(name: &str, email: &str) -> (r: Vec<Vec<String>>)
    ensures
        r@.len() == 2,
        texts(r@[0]@) == config_command(name_key(), Some(name@)),
        texts(r@[1]@) == config_command(email_key(), Some(email@)),
{
    let mut r: Vec<Vec<String>> = Vec::new();
    r.push(git_config_command("user.name", Some(name)));
    r.push(git_config_command("user.email", Some(email)));
    r
}

/// The two commands that print the repository's author identity: first the
/// name, then the email.
pub fn current_profile_queries() -> (r: Vec<Vec<String>>)
    ensures
        r@.len() == 2,
        texts(r@[0]@) == config_command(name_key(), None),
        texts(r@[1]@) == config_command(email_key(), None),
{
    let mut r: Vec<Vec<String>> = Vec::new();
    r.push(git_config_command("user.name", None));
    r.push(git_config_command("user.email", None));
    r
}

/// The active identity, from what the two queries printed: none where either
/// output is blank once trimmed (unset, or the command could not run).
pub open spec fn current_profile_spec(name_output: Seq<char>, email_output: Seq<char>) -> Option<
    ProfileView,
> {
    if trim(name_output).len() == 0 || trim(email_output).len() == 0 {
        None
    } else {
        Some(
            ProfileView {
                name: trim(name_output),
                email: trim(email_output),
                description: Seq::empty(),
            },
        )
    }
}

/// The repository's active identity, given what the queries of
/// `current_profile_queries` printed (empty text for a query that failed).
pub fn get_current_profile(name_output: &str, email_output: &str) -> (r: Option<Profile>)
    ensures
        r matches Some(p) ==> current_profile_spec(name_output@, email_output@) == Some(p@),
        r is None ==> current_profile_spec(name_output@, email_output@) is None,
{
    let name = trim_str(name_output);
    let email = trim_str(email_output);
    if name.as_str().is_empty() || email.as_str().is_empty() {
        None
    } else {
        Some(Profile { name, email, description: String::new() })
    }
}

} // verus!
