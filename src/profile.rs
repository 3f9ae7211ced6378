//! One named identity: the author name and email written to a repository,
//! with a free-text note.

use vstd::prelude::*;

verus! {

#[derive(Debug)]
pub struct Profile {
    pub name: String,
    pub email: String,
    pub description: String,
}

/// A profile as three character sequences.
pub struct ProfileView {
    pub name: Seq<char>,
    pub email: Seq<char>,
    pub description: Seq<char>,
}

impl View for Profile {
    type V = ProfileView;

    open spec fn view(&self) -> ProfileView {
        ProfileView { name: self.name@, email: self.email@, description: self.description@ }
    }
}

/// The views of a list of profiles, in order.
pub open spec fn views(ps: Seq<Profile>) -> Seq<ProfileView> {
    ps.map_values(|p: Profile| p@)
}

impl Profile {
    /// The profile as `name:email`.
    pub fn label(&self) -> (r: String)
        ensures
            r@ == self.name@ + ":"@ + self.email@,
    {
        let mut r = String::from_str(self.name.as_str());
        r.append(":");
        r.append(self.email.as_str());
        r
    }
}

impl PartialEq for Profile {
    fn eq(&self, other: &Profile) -> (r: bool)
        ensures
            r == (self@ == other@),
    {
        self.name == other.name && self.email == other.email && self.description
            == other.description
    }
}

impl vstd::std_specs::cmp::PartialEqSpecImpl for Profile {
    open spec fn obeys_eq_spec() -> bool {
        true
    }

    open spec fn eq_spec(&self, other: &Profile) -> bool {
        self@ == other@
    }
}

} // verus!
