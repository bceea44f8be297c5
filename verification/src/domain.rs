//! Shared domain models.
use vstd::prelude::*;

verus! {

/// A Codecks project as a pair of texts: its stable UUID and its current display name.
pub struct ProjectView {
    pub uuid: Seq<char>,
    pub name: Seq<char>,
}

/// A Codecks project available to the authenticated account.
///
/// The UUID is the stable project identity; the name is the current display value returned
/// by Codecks, kept without normalization.
#[derive(Clone, Debug, PartialEq, Eq)]
pub struct Project {
    uuid: String,
    name: String,
}

impl Project {
    pub closed spec fn spec_view(self) -> ProjectView {
        ProjectView { uuid: self.uuid@, name: self.name@ }
    }

    /// A project with the given UUID and display name.
    pub fn new(uuid: String, name: String) -> (project: Project)
        ensures
            project@ == (ProjectView { uuid: uuid@, name: name@ }),
    {
        Project { uuid, name }
    }

    /// Returns the stable Codecks project UUID.
    pub fn uuid(&self) -> (uuid: &str)
        ensures
            uuid@ == self@.uuid,
    {
        self.uuid.as_str()
    }

    /// Returns the current Codecks project display name.
    pub fn name(&self) -> (name: &str)
        ensures
            name@ == self@.name,
    {
        self.name.as_str()
    }

    /// A copy of the project.
    pub fn duplicate(&self) -> (copy: Project)
        ensures
            copy@ == self@,
    {
        Project { uuid: self.uuid.clone(), name: self.name.clone() }
    }
}

impl View for Project {
    type V = ProjectView;

    open spec fn view(&self) -> ProjectView {
        self.spec_view()
    }
}

} // verus!
