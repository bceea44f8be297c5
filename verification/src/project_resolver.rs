//! Deterministic Codecks project resolution, independent of transport and protocol details.
use vstd::prelude::*;
use crate::domain::{Project, ProjectView};
use crate::error::ApplicationError;
use crate::text::str_equal;

verus! {

/// `i` is the first index whose project has the UUID `selector`.
pub open spec fn first_uuid_match(projects: Seq<ProjectView>, selector: Seq<char>, i: int) -> bool {
    &&& 0 <= i < projects.len()
    &&& projects[i].uuid == selector
    &&& forall|j: int| 0 <= j < i ==> projects[j].uuid != selector
}

pub open spec fn has_uuid(projects: Seq<ProjectView>, selector: Seq<char>) -> bool {
    exists|i: int| 0 <= i < projects.len() && #[trigger] projects[i].uuid == selector
}

/// `i` is the only index whose project has the display name `selector`.
pub open spec fn only_name_match(projects: Seq<ProjectView>, selector: Seq<char>, i: int) -> bool {
    &&& 0 <= i < projects.len()
    &&& projects[i].name == selector
    &&& forall|j: int| 0 <= j < projects.len() && j != i ==> projects[j].name != selector
}

pub open spec fn has_name(projects: Seq<ProjectView>, selector: Seq<char>) -> bool {
    exists|i: int| 0 <= i < projects.len() && #[trigger] projects[i].name == selector
}

/// Which project a selection picks, by index, or why none is picked.
///
/// Without a selector the sole project is picked. A selector picks the first project with
/// that UUID; failing that, the one project with that exact display name.
pub open spec fn resolution(projects: Seq<ProjectView>, selector: Option<Seq<char>>) -> Result<
    int,
    ApplicationError,
> {
    match selector {
        None => if projects.len() == 1 {
            Ok(0)
        } else if projects.len() == 0 {
            Err(ApplicationError::ProjectNotFound)
        } else {
            Err(ApplicationError::ProjectAmbiguous)
        },
        Some(s) => if has_uuid(projects, s) {
            Ok(choose|i: int| first_uuid_match(projects, s, i))
        } else if !has_name(projects, s) {
            Err(ApplicationError::ProjectNotFound)
        } else if exists|i: int| only_name_match(projects, s, i) {
            Ok(choose|i: int| only_name_match(projects, s, i))
        } else {
            Err(ApplicationError::ProjectAmbiguous)
        },
    }
}

pub open spec fn project_views(projects: Seq<Project>) -> Seq<ProjectView> {
    projects.map_values(|p: Project| p@)
}

pub open spec fn opt_str_view(s: Option<&str>) -> Option<Seq<char>> {
    match s {
        Some(t) => Some(t@),
        None => None,
    }
}

/// Resolves a project from the available projects and an optional explicit selector.
///
/// Explicit selectors are matched against stable project UUIDs before exact display names.
/// Without a selector, the sole available project is selected automatically. Empty or
/// unmatched results return `ProjectNotFound`, non-unique selections `ProjectAmbiguous`.
pub fn resolve_project<'projects>(
    projects: &'projects [Project],
    selector: Option<&str>,
) -> (resolved: Result<&'projects Project, ApplicationError>)
    ensures
        match (resolved, resolution(project_views(projects@), opt_str_view(selector))) {
            (Ok(p), Ok(i)) => 0 <= i < projects@.len() && *p == projects@[i],
            (Err(e), Err(f)) => e == f,
            _ => false,
        },
{
    let ghost views = project_views(projects@);
    match selector {
        None => {
            if projects.len() == 1 {
                Ok(&projects[0])
            } else if projects.len() == 0 {
                Err(ApplicationError::ProjectNotFound)
            } else {
                Err(ApplicationError::ProjectAmbiguous)
            }
        },
        Some(wanted) => {
            let mut i: usize = 0;
            while i < projects.len()
                invariant
                    i <= projects@.len(),
                    views == project_views(projects@),
                    selector == Some(wanted),
                    forall|j: int| 0 <= j < i ==> views[j].uuid != wanted@,
                decreases projects.len() - i,
            {
                assert(views[i as int] == projects@[i as int]@);
                if str_equal(projects[i].uuid(), wanted) {
                    proof {
                        assert(first_uuid_match(views, wanted@, i as int));
                        assert(has_uuid(views, wanted@));
                        let k = choose|k: int| first_uuid_match(views, wanted@, k);
                        if k < i {
                        } else if k > i {
                        }
                        assert(k == i);
                        assert(resolution(views, Some(wanted@)) == Ok::<int, ApplicationError>(i as int));
                    }
                    let r = &projects[i];
                    assert(*r == projects@[i as int]);
                    return Ok(r);
                }
                i = i + 1;
            }
            assert(!has_uuid(views, wanted@));
            let mut found: Option<usize> = None;
            let mut j: usize = 0;
            while j < projects.len()
                invariant
                    j <= projects@.len(),
                    views == project_views(projects@),
                    selector == Some(wanted),
                    !has_uuid(views, wanted@),
                    match found {
                        None => forall|k: int| 0 <= k < j ==> views[k].name != wanted@,
                        Some(f) => f < j && views[f as int].name == wanted@ && forall|k: int|
                            0 <= k < j && k != f ==> views[k].name != wanted@,
                    },
                decreases projects.len() - j,
            {
                assert(views[j as int] == projects@[j as int]@);
                if str_equal(projects[j].name(), wanted) {
                    match found {
                        None => {
                            found = Some(j);
                        },
                        Some(f) => {
                            proof {
                                assert(has_name(views, wanted@));
                                assert forall|x: int| !only_name_match(views, wanted@, x) by {
                                    if only_name_match(views, wanted@, x) {
                                        if x == f {
                                            assert(views[j as int].name == wanted@);
                                        } else {
                                            assert(views[f as int].name == wanted@);
                                        }
                                    }
                                }
                            }
                            return Err(ApplicationError::ProjectAmbiguous);
                        },
                    }
                }
                j = j + 1;
            }
            match found {
                None => Err(ApplicationError::ProjectNotFound),
                Some(f) => {
                    proof {
                        assert(only_name_match(views, wanted@, f as int));
                        assert(has_name(views, wanted@));
                        let k = choose|k: int| only_name_match(views, wanted@, k);
                        assert(k == f);
                    }
                    Ok(&projects[f])
                },
            }
        },
    }
}

} // verus!
