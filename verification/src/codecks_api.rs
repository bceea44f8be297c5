//! Codecks API logic: credential headers, request and status mapping, project page queries and
//! the reading of normalized project pages.
//!
//! The HTTP exchange itself is performed by the caller; this module decides what to send, what
//! a response means, and when enumeration is complete.
use vstd::prelude::*;
use crate::domain::{Project, ProjectView};
use crate::error::ApplicationError;
use crate::json::{
    decode_document, json_of, obj, opt_json, parsed_document, serialized, Json, JsonObject, JsonValue,
};
use crate::mcp::{int_json, jstr};
use crate::project_resolver::project_views;
use crate::text::{chars_of, concat3, starts_with_chars, str_equal};
use vstd::string::StringSliceAdditionalSpecFns;

verus! {

/// The fixed public endpoint used for Codecks API requests.
pub const CODECKS_API_ENDPOINT: &'static str = "https://api.codecks.io/";

/// The number of projects asked for per page.
pub const PROJECT_PAGE_SIZE: usize = 100;

// ---------------------------------------------------------------------------------------------
// Credentials and transport outcomes
// ---------------------------------------------------------------------------------------------

/// A byte an HTTP header value may hold: visible ASCII, any byte from 0x80 up, or a tab.
pub open spec fn header_byte_allowed(b: u8) -> bool {
    (b >= 32 && b != 127) || b == 9
}

/// Text is a valid HTTP header value when every byte of its UTF-8 encoding is allowed.
pub open spec fn header_value_valid(s: &str) -> bool {
    forall|i: int| 0 <= i < s.spec_bytes().len() ==> header_byte_allowed(#[trigger] s.spec_bytes()[i])
}

/// `http::HeaderValue::from_str` (re-exported by reqwest): it succeeds exactly when every byte
/// of the text is a visible ASCII byte, a byte from 0x80 up, or a tab.
#[verifier::external_body]
fn header_value_accepts(text: &str) -> (accepted: bool)
    ensures
        accepted == header_value_valid(text),
{
    reqwest::header::HeaderValue::from_str(text).is_ok()
}

/// Checks that the account and the token can be sent as request headers.
pub fn check_request_headers(account: &str, token: &str) -> (checked: Result<(), ApplicationError>)
    ensures
        checked == (if !header_value_valid(account) {
            Err(ApplicationError::InvalidIdentifier)
        } else if !header_value_valid(token) {
            Err(ApplicationError::AuthenticationFailed)
        } else {
            Ok(())
        }),
{
    if !header_value_accepts(account) {
        return Err(ApplicationError::InvalidIdentifier);
    }
    if !header_value_accepts(token) {
        return Err(ApplicationError::AuthenticationFailed);
    }
    Ok(())
}

/// What an HTTP status means: 401 and 403 are credential failures, 408 and 504 timeouts,
/// other 2xx success, everything else an API error.
pub open spec fn status_outcome(status: u16) -> Result<(), ApplicationError> {
    if status == 401 {
        Err(ApplicationError::AuthenticationFailed)
    } else if status == 403 {
        Err(ApplicationError::AuthorizationFailed)
    } else if status == 408 || status == 504 {
        Err(ApplicationError::Timeout)
    } else if 200 <= status <= 299 {
        Ok(())
    } else {
        Err(ApplicationError::CodecksApiError)
    }
}

/// Maps an HTTP status code to success or a typed error.
pub fn map_status(status: u16) -> (outcome: Result<(), ApplicationError>)
    ensures
        outcome == status_outcome(status),
{
    if status == 401 {
        Err(ApplicationError::AuthenticationFailed)
    } else if status == 403 {
        Err(ApplicationError::AuthorizationFailed)
    } else if status == 408 || status == 504 {
        Err(ApplicationError::Timeout)
    } else if 200 <= status && status <= 299 {
        Ok(())
    } else {
        Err(ApplicationError::CodecksApiError)
    }
}

/// Maps a failure to send a request: a timeout, or any other network failure.
pub fn map_request_error(is_timeout: bool) -> (error: ApplicationError)
    ensures
        error == (if is_timeout {
            ApplicationError::Timeout
        } else {
            ApplicationError::NetworkFailure
        }),
{
    if is_timeout {
        ApplicationError::Timeout
    } else {
        ApplicationError::NetworkFailure
    }
}

/// Maps a failure to read a response: a timeout, an undecodable body, or a network failure.
pub fn map_response_error(is_timeout: bool, is_decode: bool) -> (error: ApplicationError)
    ensures
        error == (if is_timeout {
            ApplicationError::Timeout
        } else if is_decode {
            ApplicationError::InvalidCodecksResponse
        } else {
            ApplicationError::NetworkFailure
        }),
{
    if is_timeout {
        ApplicationError::Timeout
    } else if is_decode {
        ApplicationError::InvalidCodecksResponse
    } else {
        ApplicationError::NetworkFailure
    }
}

/// Reads the body of a successful response: its JSON document, or an invalid-response error
/// when the body is no JSON text.
pub fn decode_response(body: &[u8]) -> (response: Result<JsonValue, ApplicationError>)
    ensures
        match response {
            Ok(document) => parsed_document(body@) == Some(document@),
            Err(e) => parsed_document(body@) is None && e == ApplicationError::InvalidCodecksResponse,
        },
{
    match decode_document(body) {
        Some(document) => Ok(document),
        None => Err(map_response_error(false, true)),
    }
}

// ---------------------------------------------------------------------------------------------
// Project page queries
// ---------------------------------------------------------------------------------------------

/// The pagination of a project page, ordered by project ID.
pub open spec fn pagination_json(page_size: int, offset: int) -> Json {
    obj(
        seq![
            ("$order"@, jstr("id"@)),
            ("$limit"@, int_json(page_size)),
            ("$offset"@, int_json(offset)),
        ],
    )
}

/// The relation that selects one page of projects: `projects(<pagination as JSON>)`.
pub open spec fn relation_key_text(page_size: int, offset: int) -> Seq<char> {
    "projects("@ + serialized(pagination_json(page_size, offset)) + ")"@
}

/// The query for one page of the account's projects, asking for each project's ID and name.
pub open spec fn page_request_json(page_size: int, offset: int) -> Json {
    let selection = obj(
        seq![
            (
                relation_key_text(page_size, offset),
                Json::Array(seq![jstr("id"@), jstr("name"@)]),
            ),
        ],
    );
    obj(
        seq![
            (
                "query"@,
                obj(
                    seq![
                        (
                            "_root"@,
                            Json::Array(
                                seq![obj(seq![("account"@, Json::Array(seq![selection]))])],
                            ),
                        ),
                    ],
                ),
            ),
        ],
    )
}

/// The relation key of the page of `page_size` projects starting at `offset`.
pub fn project_relation_key(page_size: usize, offset: usize) -> (key: String)
    ensures
        key@ == relation_key_text(page_size as int, offset as int),
{
    let pagination = JsonValue::object3(
        "$order",
        JsonValue::string("id"),
        "$limit",
        JsonValue::from_u64(page_size as u64),
        "$offset",
        JsonValue::from_u64(offset as u64),
    );
    let text = pagination.to_text();
    concat3("projects(", text.as_str(), ")")
}

/// The request for the page of `page_size` projects starting at `offset`.
pub fn project_page_request(page_size: usize, offset: usize) -> (request: JsonValue)
    ensures
        request@ == page_request_json(page_size as int, offset as int),
{
    let key = project_relation_key(page_size, offset);
    let fields = JsonValue::array2(JsonValue::string("id"), JsonValue::string("name"));
    let selection = JsonValue::object1(key.as_str(), fields);
    let account = JsonValue::object1("account", JsonValue::array1(selection));
    JsonValue::object1("query", JsonValue::object1("_root", JsonValue::array1(account)))
}

// ---------------------------------------------------------------------------------------------
// Reading normalized project pages
// ---------------------------------------------------------------------------------------------

/// The value of the first entry whose key begins with `prefix`.
pub open spec fn first_prefixed(entries: Seq<(Seq<char>, Json)>, prefix: Seq<char>) -> Option<Json>
    decreases entries.len(),
{
    if entries.len() == 0 {
        None
    } else if prefix.len() <= entries[0].0.len() && entries[0].0.take(prefix.len() as int) == prefix {
        Some(entries[0].1)
    } else {
        first_prefixed(entries.drop_first(), prefix)
    }
}

/// A relation of an entity: the member named `relation`, or else the first member queried
/// with arguments, `relation(...)`.
pub open spec fn relation_of(entity: Json, relation: Seq<char>) -> Option<Json> {
    match entity.get(relation) {
        Some(v) => Some(v),
        None => match entity {
            Json::Object(entries) => first_prefixed(entries, relation + "("@),
            _ => None,
        },
    }
}

/// The root entity of a response: the first item of `_root` when it is a non-empty array,
/// else `_root` itself; it must be an object.
pub open spec fn page_root(response: Json) -> Option<Json> {
    match response.get("_root"@) {
        None => None,
        Some(r) => {
            let candidate = match r {
                Json::Array(items) => if items.len() > 0 {
                    items[0]
                } else {
                    r
                },
                _ => r,
            };
            if candidate.is_object() {
                Some(candidate)
            } else {
                None
            }
        },
    }
}

/// An entity reference resolved against the normalized response: an inline object, or the
/// ID of an object stored under `model`.
pub open spec fn entity_of(response: Json, model: Seq<char>, reference: Json) -> Option<Json> {
    if reference.is_object() {
        Some(reference)
    } else {
        match reference.as_str() {
            None => None,
            Some(id) => match response.get(model) {
                Some(entities) => match entities.get(id) {
                    Some(e) => if entities.is_object() && e.is_object() {
                        Some(e)
                    } else {
                        None
                    },
                    None => None,
                },
                None => None,
            },
        }
    }
}

/// A project entity: its UUID under `id` or, in older responses, `_id` (not both), and its
/// name, both strings; other members are ignored.
pub open spec fn project_of_entity(entity: Json) -> Option<ProjectView> {
    let id = entity.get("id"@);
    let legacy_id = entity.get("_id"@);
    if id is Some && legacy_id is Some {
        None
    } else {
        let uuid = if id is Some {
            id
        } else {
            legacy_id
        };
        match (uuid, entity.get("name"@)) {
            (Some(Json::Str(u)), Some(Json::Str(n))) => Some(ProjectView { uuid: u, name: n }),
            _ => None,
        }
    }
}

/// The project a reference stands for; a reference given as an ID must name the entity's UUID.
pub open spec fn project_of_reference(response: Json, reference: Json) -> Option<ProjectView> {
    match entity_of(response, "project"@, reference) {
        None => None,
        Some(entity) => match project_of_entity(entity) {
            None => None,
            Some(p) => match reference.as_str() {
                Some(id) => if p.uuid == id {
                    Some(p)
                } else {
                    None
                },
                None => Some(p),
            },
        },
    }
}

/// The projects of a list of references, in order; `None` when any reference fails.
pub open spec fn projects_of_references(response: Json, references: Seq<Json>) -> Option<
    Seq<ProjectView>,
>
    decreases references.len(),
{
    if references.len() == 0 {
        Some(Seq::empty())
    } else {
        match (
            projects_of_references(response, references.drop_last()),
            project_of_reference(response, references.last()),
        ) {
            (Some(ps), Some(p)) => Some(ps.push(p)),
            _ => None,
        }
    }
}

/// The projects of one normalized page: root, then its account, then the account's projects.
pub open spec fn page_projects(response: Json) -> Option<Seq<ProjectView>> {
    match page_root(response) {
        None => None,
        Some(root) => match relation_of(root, "account"@) {
            None => None,
            Some(account_reference) => match entity_of(response, "account"@, account_reference) {
                None => None,
                Some(account) => match relation_of(account, "projects"@) {
                    Some(Json::Array(references)) => projects_of_references(response, references),
                    _ => None,
                },
            },
        },
    }
}

/// Once a prefix of the references fails, every longer list fails.
proof fn lemma_failed_prefix_fails(response: Json, references: Seq<Json>, n: int)
    requires
        0 <= n <= references.len(),
        projects_of_references(response, references.take(n)) is None,
    ensures
        projects_of_references(response, references) is None,
    decreases references.len() - n,
{
    if n < references.len() {
        assert(references.take(n + 1).drop_last() =~= references.take(n));
        lemma_failed_prefix_fails(response, references, n + 1);
    } else {
        assert(references.take(n) =~= references);
    }
}

fn first_prefixed_exec<'a>(entries: &'a Vec<(String, JsonValue)>, prefix: &Vec<char>) -> (found:
    Option<&'a JsonValue>)
    ensures
        opt_json(found) == match json_of(JsonValue::Object(*entries)) {
            Json::Object(view) => first_prefixed(view, prefix@),
            _ => None,
        },
{
    let ghost view = match json_of(JsonValue::Object(*entries)) {
        Json::Object(v) => v,
        _ => Seq::empty(),
    };
    assert(view.skip(0) =~= view);
    let mut i: usize = 0;
    while i < entries.len()
        invariant
            i <= entries@.len(),
            view.len() == entries@.len(),
            json_of(JsonValue::Object(*entries)) == Json::Object(view),
            forall|k: int|
                0 <= k < entries@.len() ==> view[k] == (
                    #[trigger] entries@[k].0@,
                    json_of(entries@[k].1),
                ),
            first_prefixed(view, prefix@) == first_prefixed(view.skip(i as int), prefix@),
        decreases entries.len() - i,
    {
        proof {
            let rest = view.skip(i as int);
            assert(rest[0] == view[i as int]);
            assert(rest.drop_first() =~= view.skip(i as int + 1));
        }
        if starts_with_chars(entries[i].0.as_str(), prefix) {
            return Some(&entries[i].1);
        }
        i = i + 1;
    }
    None
}

/// A relation of an entity (see `relation_of`).
pub fn relation_value<'a>(entity: &'a JsonValue, relation: &str) -> (found: Option<&'a JsonValue>)
    ensures
        opt_json(found) == relation_of(entity@, relation@),
{
    match entity.get(relation) {
        Some(v) => Some(v),
        None => match entity {
            JsonValue::Object(entries) => {
                let mut prefix = chars_of(relation);
                prefix.push('(');
                assert(prefix@ =~= relation@ + "("@) by {
                    reveal_strlit("(");
                }
                first_prefixed_exec(entries, &prefix)
            },
            _ => None,
        },
    }
}

/// Resolves an entity reference (see `entity_of`).
pub fn resolve_entity<'a>(response: &'a JsonValue, model: &str, reference: &'a JsonValue) -> (found:
    Result<&'a JsonValue, ApplicationError>)
    ensures
        match (found, entity_of(response@, model@, reference@)) {
            (Ok(e), Some(f)) => e@ == f,
            (Err(err), None) => err == ApplicationError::InvalidCodecksResponse,
            _ => false,
        },
{
    if reference.is_object() {
        return Ok(reference);
    }
    let entity_id = match reference.as_str() {
        Some(id) => id,
        None => {
            return Err(ApplicationError::InvalidCodecksResponse);
        },
    };
    match response.get(model) {
        Some(entities) => {
            if !entities.is_object() {
                return Err(ApplicationError::InvalidCodecksResponse);
            }
            match entities.get(entity_id) {
                Some(e) => {
                    if e.is_object() {
                        Ok(e)
                    } else {
                        Err(ApplicationError::InvalidCodecksResponse)
                    }
                },
                None => Err(ApplicationError::InvalidCodecksResponse),
            }
        },
        None => Err(ApplicationError::InvalidCodecksResponse),
    }
}

/// Reads a project entity (see `project_of_entity`).
pub fn project_from_entity(entity: &JsonValue) -> (project: Option<Project>)
    ensures
        match (project, project_of_entity(entity@)) {
            (Some(p), Some(v)) => p@ == v,
            (None, None) => true,
            _ => false,
        },
{
    let id = entity.get("id");
    let legacy_id = entity.get("_id");
    if id.is_some() && legacy_id.is_some() {
        return None;
    }
    let uuid = if id.is_some() {
        id
    } else {
        legacy_id
    };
    let uuid = match uuid {
        Some(JsonValue::Str(u)) => u,
        _ => {
            return None;
        },
    };
    match entity.get("name") {
        Some(JsonValue::Str(n)) => Some(Project::new(uuid.clone(), n.clone())),
        _ => None,
    }
}

/// Reads one normalized project page (see `page_projects`); any malformed part makes the
/// whole page invalid.
pub fn parse_project_page(response: &JsonValue) -> (page: Result<Vec<Project>, ApplicationError>)
    ensures
        match (page, page_projects(response@)) {
            (Ok(ps), Some(v)) => project_views(ps@) == v,
            (Err(e), None) => e == ApplicationError::InvalidCodecksResponse,
            _ => false,
        },
{
    let root_value = match response.get("_root") {
        Some(r) => r,
        None => {
            return Err(ApplicationError::InvalidCodecksResponse);
        },
    };
    let root = match root_value {
        JsonValue::Array(items) => {
            if items.len() > 0 {
                &items[0]
            } else {
                root_value
            }
        },
        _ => root_value,
    };
    proof {
        match root_value {
            JsonValue::Array(items) => {
                if items@.len() > 0 {
                    assert(json_of(*root_value) is Array);
                }
            },
            _ => {},
        }
    }
    if !root.is_object() {
        return Err(ApplicationError::InvalidCodecksResponse);
    }
    assert(page_root(response@) == Some(root@));
    let account_reference = match relation_value(root, "account") {
        Some(a) => a,
        None => {
            return Err(ApplicationError::InvalidCodecksResponse);
        },
    };
    let account = resolve_entity(response, "account", account_reference)?;
    let references = match relation_value(account, "projects") {
        Some(JsonValue::Array(references)) => references,
        _ => {
            return Err(ApplicationError::InvalidCodecksResponse);
        },
    };
    let ghost reference_views = match relation_of(account@, "projects"@) {
        Some(Json::Array(r)) => r,
        _ => Seq::empty(),
    };
    let mut projects: Vec<Project> = Vec::new();
    assert(reference_views.take(0) =~= Seq::<Json>::empty());
    assert(project_views(projects@) =~= Seq::<ProjectView>::empty());
    let mut i: usize = 0;
    while i < references.len()
        invariant
            i <= references@.len(),
            reference_views.len() == references@.len(),
            forall|k: int| 0 <= k < references@.len() ==> reference_views[k] == json_of(
                #[trigger] references@[k],
            ),
            projects_of_references(response@, reference_views.take(i as int)) == Some(
                project_views(projects@),
            ),
            page_projects(response@) == projects_of_references(response@, reference_views),
        decreases references.len() - i,
    {
        let reference = &references[i];
        proof {
            assert(reference_views.take(i as int + 1).drop_last() =~= reference_views.take(i as int));
        }
        let entity = match resolve_entity(response, "project", reference) {
            Ok(e) => e,
            Err(e) => {
                proof {
                    lemma_failed_prefix_fails(response@, reference_views, i as int + 1);
                }
                return Err(e);
            },
        };
        let project = match project_from_entity(entity) {
            Some(p) => p,
            None => {
                proof {
                    lemma_failed_prefix_fails(response@, reference_views, i as int + 1);
                }
                return Err(ApplicationError::InvalidCodecksResponse);
            },
        };
        match reference.as_str() {
            Some(project_uuid) => {
                if !str_equal(project.uuid(), project_uuid) {
                    proof {
                        lemma_failed_prefix_fails(response@, reference_views, i as int + 1);
                    }
                    return Err(ApplicationError::InvalidCodecksResponse);
                }
            },
            None => {},
        }
        let ghost before = projects@;
        projects.push(project);
        proof {
            assert(reference_views.take(i as int + 1).drop_last() =~= reference_views.take(i as int));
            assert(project_views(projects@) =~= project_views(before).push(project@));
        }
        i = i + 1;
    }
    proof {
        assert(reference_views.take(references@.len() as int) =~= reference_views);
    }
    Ok(projects)
}

// ---------------------------------------------------------------------------------------------
// Enumerating every project
// ---------------------------------------------------------------------------------------------

/// No two projects share a UUID.
pub open spec fn uuids_distinct(projects: Seq<ProjectView>) -> bool {
    forall|i: int, j: int| 0 <= i < j < projects.len() ==> projects[i].uuid != projects[j].uuid
}

/// The enumeration of the account's projects, page by page: the next page to ask for and
/// the projects gathered so far.
pub struct ProjectPager {
    page_size: usize,
    offset: usize,
    projects: Vec<Project>,
}

/// What follows a page.
pub enum PageStep {
    /// Ask for the next page.
    Next(ProjectPager),
    /// Every project, in page order.
    Done(Vec<Project>),
    /// The enumeration failed.
    Failed(ApplicationError),
}

impl ProjectPager {
    #[verifier::type_invariant]
    spec fn well_formed(self) -> bool {
        &&& self.page_size > 0
        &&& uuids_distinct(project_views(self.projects@))
    }

    pub closed spec fn page_size(self) -> nat {
        self.page_size as nat
    }

    pub closed spec fn offset(self) -> nat {
        self.offset as nat
    }

    pub closed spec fn collected(self) -> Seq<ProjectView> {
        project_views(self.projects@)
    }

    /// An enumeration that starts at the first page.
    pub fn new(page_size: usize) -> (pager: ProjectPager)
        requires
            page_size > 0,
        ensures
            pager.page_size() == page_size,
            pager.offset() == 0,
            pager.collected() == Seq::<ProjectView>::empty(),
    {
        let projects: Vec<Project> = Vec::new();
        assert(project_views(projects@) =~= Seq::<ProjectView>::empty());
        ProjectPager { page_size, offset: 0, projects }
    }

    /// The request for the next page.
    pub fn request(&self) -> (request: JsonValue)
        ensures
            request@ == page_request_json(self.page_size() as int, self.offset() as int),
    {
        project_page_request(self.page_size, self.offset)
    }

    /// Takes in the response to the request for the next page.
    ///
    /// A page that cannot be read, or that repeats a UUID, fails the enumeration. A page with
    /// fewer projects than asked for ends it; a full page asks for the next one.
    #[verifier::loop_isolation(false)]
    pub fn accept_page(self, response: &JsonValue) -> (step: PageStep)
        ensures
            match page_projects(response@) {
                None => step == PageStep::Failed(ApplicationError::InvalidCodecksResponse),
                Some(page) => {
                    let all = self.collected() + page;
                    if !uuids_distinct(all) {
                        step == PageStep::Failed(ApplicationError::InvalidCodecksResponse)
                    } else if page.len() < self.page_size() {
                        step matches PageStep::Done(ps) && project_views(ps@) == all
                    } else if self.offset() + self.page_size() > usize::MAX {
                        step == PageStep::Failed(ApplicationError::InvalidCodecksResponse)
                    } else {
                        step matches PageStep::Next(next) && next.collected() == all
                            && next.offset() == self.offset() + self.page_size()
                            && next.page_size() == self.page_size()
                    }
                },
            },
    {
        proof {
            use_type_invariant(&self);
        }
        let page = match parse_project_page(response) {
            Ok(page) => page,
            Err(e) => {
                return PageStep::Failed(e);
            },
        };
        let ghost page_view = project_views(page@);
        let ghost before = project_views(self.projects@);
        let ProjectPager { page_size, offset, mut projects } = self;
        let page_length = page.len();
        let mut i: usize = 0;
        while i < page.len()
            invariant
                i <= page@.len(),
                page_view == project_views(page@),
                project_views(projects@) == before + page_view.take(i as int),
                uuids_distinct(project_views(projects@)),
            decreases page.len() - i,
        {
            let candidate = &page[i];
            let mut j: usize = 0;
            while j < projects.len()
                invariant
                    j <= projects@.len(),
                    forall|k: int| 0 <= k < j ==> projects@[k]@.uuid != candidate@.uuid,
                decreases projects.len() - j,
            {
                if str_equal(projects[j].uuid(), candidate.uuid()) {
                    proof {
                        let all = before + page_view;
                        let a = j as int;
                        let b = before.len() + i;
                        assert(project_views(projects@)[a] == all[a]);
                        assert(all[b] == page_view[i as int]);
                        assert(page_view[i as int] == candidate@);
                        assert(projects@[a]@ == project_views(projects@)[a]);
                        assert(!uuids_distinct(all));
                    }
                    return PageStep::Failed(ApplicationError::InvalidCodecksResponse);
                }
                j = j + 1;
            }
            let ghost prior = project_views(projects@);
            projects.push(candidate.duplicate());
            proof {
                assert(page_view.take(i as int + 1) =~= page_view.take(i as int).push(page_view[i as int]));
                assert(project_views(projects@) =~= prior.push(candidate@));
                assert forall|x: int, y: int|
                    0 <= x < y < project_views(projects@).len() implies project_views(
                    projects@,
                )[x].uuid != project_views(projects@)[y].uuid by {
                    if y == prior.len() {
                        assert(projects@[x]@ == project_views(projects@)[x]);
                    }
                }
            }
            i = i + 1;
        }
        assert(page_view.take(page_view.len() as int) =~= page_view);
        if page_length < page_size {
            return PageStep::Done(projects);
        }
        if offset > usize::MAX - page_size {
            return PageStep::Failed(ApplicationError::InvalidCodecksResponse);
        }
        PageStep::Next(ProjectPager { page_size, offset: offset + page_size, projects })
    }
}

} // verus!
