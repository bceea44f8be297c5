//! Public contract tests for Codecks project models, project page queries and the
//! page-by-page enumeration of every project.

use codecks_mcp::codecks_api::{
    parse_project_page, project_from_entity, project_page_request, project_relation_key,
    PageStep, ProjectPager,
};
use codecks_mcp::domain::Project;
use codecks_mcp::error::ApplicationError;
use codecks_mcp::json::JsonValue;
use serde_json::Value;

fn to_json(value: &Value) -> JsonValue {
    match value {
        Value::Null => JsonValue::Null,
        Value::Bool(b) => JsonValue::Bool(*b),
        Value::Number(n) => JsonValue::Number(n.to_string()),
        Value::String(s) => JsonValue::Str(s.clone()),
        Value::Array(items) => JsonValue::Array(items.iter().map(to_json).collect()),
        Value::Object(map) => JsonValue::Object(
            map.iter()
                .map(|(key, value)| (key.clone(), to_json(value)))
                .collect(),
        ),
    }
}

fn parse(text: &str) -> JsonValue {
    let value: Value = serde_json::from_str(text).expect("the test document should be JSON");
    to_json(&value)
}

fn from_json(value: &JsonValue) -> Value {
    serde_json::from_str(&value.to_text()).expect("the library should write valid JSON")
}

fn project_page_response(page_size: usize, offset: usize, projects: &[(&str, &str)]) -> JsonValue {
    let mut account = serde_json::Map::new();
    account.insert(
        project_relation_key(page_size, offset),
        Value::Array(
            projects
                .iter()
                .map(|(uuid, _)| Value::String((*uuid).to_owned()))
                .collect(),
        ),
    );
    let mut entities = serde_json::Map::new();
    for (uuid, name) in projects {
        let mut entity = serde_json::Map::new();
        entity.insert("id".to_owned(), Value::String((*uuid).to_owned()));
        entity.insert("name".to_owned(), Value::String((*name).to_owned()));
        entities.insert((*uuid).to_owned(), Value::Object(entity));
    }
    let mut accounts = serde_json::Map::new();
    accounts.insert("account-id".to_owned(), Value::Object(account));
    let mut root_entry = serde_json::Map::new();
    root_entry.insert("account".to_owned(), Value::String("account-id".to_owned()));
    let mut response = serde_json::Map::new();
    response.insert(
        "_root".to_owned(),
        Value::Array(vec![Value::Object(root_entry)]),
    );
    response.insert("account".to_owned(), Value::Object(accounts));
    response.insert("project".to_owned(), Value::Object(entities));
    to_json(&Value::Object(response))
}

fn pairs(projects: &[Project]) -> Vec<(&str, &str)> {
    projects
        .iter()
        .map(|project| (project.uuid(), project.name()))
        .collect()
}

/// Runs a whole enumeration against canned pages, returning the outcome and the relation keys
/// of the pages that were asked for.
fn enumerate(page_size: usize, pages: &[JsonValue]) -> (Result<Vec<Project>, ApplicationError>, Vec<String>) {
    let mut pager = ProjectPager::new(page_size);
    let mut asked = Vec::new();
    for page in pages {
        let request = from_json(&pager.request());
        let relation = request["query"]["_root"][0]["account"][0]
            .as_object()
            .and_then(|selection| selection.keys().next())
            .cloned()
            .expect("the request should select the projects relation");
        asked.push(relation);
        match pager.accept_page(page) {
            PageStep::Next(next) => pager = next,
            PageStep::Done(projects) => return (Ok(projects), asked),
            PageStep::Failed(error) => return (Err(error), asked),
        }
    }
    panic!("the enumeration asked for more pages than were given");
}

#[test]
fn project_model_preserves_codecks_uuid_and_display_name() {
    let project = project_from_entity(&parse(
        r#"{"id": "4228032c-9c42-11f1-b100-7327c739f59b", "name": "Current Project Display Name"}"#,
    ))
    .expect("a Codecks project entity should deserialize");

    assert_eq!(project.uuid(), "4228032c-9c42-11f1-b100-7327c739f59b");
    assert_eq!(project.name(), "Current Project Display Name");
}

#[test]
fn project_model_accepts_legacy_underscore_id_responses() {
    let project = project_from_entity(&parse(
        r#"{"_id": "legacy-project-uuid", "name": "Legacy Project Name"}"#,
    ))
    .expect("a legacy Codecks project entity should deserialize");

    assert_eq!(project.uuid(), "legacy-project-uuid");
    assert_eq!(project.name(), "Legacy Project Name");
}

#[test]
fn project_model_rejects_malformed_entities() {
    for entity in [
        r#"{"id": "a", "_id": "b", "name": "Both IDs"}"#,
        r#"{"name": "No ID"}"#,
        r#"{"id": "no-name"}"#,
        r#"{"id": 7, "name": "Numeric ID"}"#,
        r#"{"id": "a", "name": null}"#,
        r#"["id", "name"]"#,
    ] {
        assert!(project_from_entity(&parse(entity)).is_none(), "{entity}");
    }
    let project = project_from_entity(&parse(
        r#"{"id": "extra", "name": "Extra Fields", "archived": false}"#,
    ))
    .expect("unknown members should be ignored");
    assert_eq!(project.uuid(), "extra");
}

#[test]
fn the_page_query_selects_ordered_project_ids_and_names() {
    assert_eq!(
        project_relation_key(2, 4),
        r#"projects({"$limit":2,"$offset":4,"$order":"id"})"#
    );
    let expected: Value = serde_json::from_str(
        r#"{"query": {"_root": [{"account": [{"projects({\"$limit\":100,\"$offset\":0,\"$order\":\"id\"})": ["id", "name"]}]}]}}"#,
    )
    .unwrap();
    assert_eq!(from_json(&project_page_request(100, 0)), expected);
}

#[test]
fn lists_zero_projects_from_a_mocked_api_page() {
    let (projects, asked) = enumerate(2, &[project_page_response(2, 0, &[])]);
    let projects = projects.expect("an empty project page should succeed");

    assert!(projects.is_empty());
    assert_eq!(asked.len(), 1);
    assert_eq!(asked[0], project_relation_key(2, 0));
}

#[test]
fn lists_one_project_from_a_mocked_api_page() {
    let (projects, _) = enumerate(
        2,
        &[project_page_response(
            2,
            0,
            &[("project-uuid", "Project Display Name")],
        )],
    );
    let projects = projects.expect("a single project page should succeed");

    assert_eq!(projects.len(), 1);
    assert_eq!(projects[0].uuid(), "project-uuid");
    assert_eq!(projects[0].name(), "Project Display Name");
}

#[test]
fn retrieves_multiple_project_pages_from_a_mocked_api() {
    let (projects, asked) = enumerate(
        2,
        &[
            project_page_response(2, 0, &[("project-a", "Project A"), ("project-b", "Project B")]),
            project_page_response(2, 2, &[("project-c", "Project C")]),
        ],
    );
    let projects = projects.expect("all project pages should succeed");

    assert_eq!(
        pairs(&projects),
        vec![
            ("project-a", "Project A"),
            ("project-b", "Project B"),
            ("project-c", "Project C"),
        ]
    );
    assert_eq!(asked.len(), 2);
    assert_eq!(asked[0], project_relation_key(2, 0));
    assert_eq!(asked[1], project_relation_key(2, 2));
}

#[test]
fn a_full_last_page_is_followed_by_an_empty_one() {
    let (projects, asked) = enumerate(
        1,
        &[
            project_page_response(1, 0, &[("project-a", "Project A")]),
            project_page_response(1, 1, &[]),
        ],
    );

    assert_eq!(pairs(&projects.unwrap()), vec![("project-a", "Project A")]);
    assert_eq!(asked, vec![project_relation_key(1, 0), project_relation_key(1, 1)]);
}

#[test]
fn a_repeated_uuid_fails_the_enumeration() {
    let (projects, _) = enumerate(
        1,
        &[
            project_page_response(1, 0, &[("project-a", "Project A")]),
            project_page_response(1, 1, &[("project-a", "Project A")]),
        ],
    );

    assert_eq!(projects, Err(ApplicationError::InvalidCodecksResponse));
}

#[test]
fn pages_with_inline_entities_and_plain_relation_names_are_read() {
    let page = parse(
        r#"{"_root": {"account": {"projects": [{"id": "inline", "name": "Inline"}, "stored"]}},
            "project": {"stored": {"_id": "stored", "name": "Stored"}}}"#,
    );

    let projects = parse_project_page(&page).expect("the page should be read");

    assert_eq!(pairs(&projects), vec![("inline", "Inline"), ("stored", "Stored")]);
}

#[test]
fn malformed_pages_are_invalid_responses() {
    for page in [
        r#"{}"#,
        r#"{"_root": []}"#,
        r#"{"_root": [{"account": "missing"}], "account": {}}"#,
        r#"{"_root": [{"account": "a"}], "account": {"a": {"projects": "none"}}}"#,
        r#"{"_root": [{"account": "a"}], "account": {"a": {"projects": ["p"]}}, "project": {}}"#,
        r#"{"_root": [{"account": "a"}], "account": {"a": {"projects": ["p"]}},
            "project": {"p": {"id": "other", "name": "Mismatched"}}}"#,
        r#"{"_root": [{"account": "a"}], "account": {"a": {"projects": [7]}}}"#,
    ] {
        assert_eq!(
            parse_project_page(&parse(page)),
            Err(ApplicationError::InvalidCodecksResponse),
            "{page}"
        );
    }
}
