use command_catalog::catalog::tags_of;
use command_catalog::errors::{ApiError, DbError};
use command_catalog::health::health;
use command_catalog::learned::{
    bump, learn_at, learn_command, list_learned, list_learned_for, promote_learned,
};
use command_catalog::models::{ApiToken, CommandQuery, LearnRequest, PromotePayload};
use command_catalog::store::Store;

const ALICE: &[u8] = b"Bearer alice-secret";
const BOB: &[u8] = b"Bearer bob-secret";

fn store_with_two_owners() -> Store {
    let mut store = Store::new();
    for (id, value) in [(1u128, "alice-secret"), (2u128, "bob-secret")] {
        let token = ApiToken {
            id,
            label: "t".to_string(),
            token: value.to_string(),
            user_id: None,
            created_at: 0,
        };
        assert!(store.insert_token(token).is_ok());
    }
    store
}

fn ran(command: &str) -> LearnRequest {
    LearnRequest { executed_command: command.to_string(), os: None, pwd: None, ls_output: None }
}

fn window(limit: Option<i64>, offset: Option<i64>) -> CommandQuery {
    CommandQuery { q: None, tag: None, limit, offset }
}

fn promotion(visibility: Option<&str>, tags: &[&str]) -> PromotePayload {
    PromotePayload {
        title: Some("promoted".to_string()),
        description: None,
        platform: "linux".to_string(),
        visibility: visibility.map(|v| v.to_string()),
        tags: if tags.is_empty() { None } else { Some(tags.iter().map(|t| t.to_string()).collect()) },
    }
}

#[test]
fn the_probe_answers_ok() {
    let answer = health("1.2.3");
    assert_eq!(answer.status, "ok");
    assert_eq!(answer.version, "1.2.3");
}

#[test]
fn a_count_goes_up_by_one_and_stops_at_the_top() {
    assert_eq!(bump(0), 1);
    assert_eq!(bump(41), 42);
    assert_eq!(bump(-1), 0);
    assert_eq!(bump(i32::MAX - 1), i32::MAX);
    assert_eq!(bump(i32::MAX), i32::MAX);
}

#[test]
fn learning_needs_an_identity() {
    let mut store = store_with_two_owners();
    assert_eq!(learn_command(&mut store, None, &ran("ls")), Err(ApiError::Unauthorized));
    assert!(store.learned().is_empty());
}

#[test]
fn an_empty_command_is_not_learned() {
    let mut store = store_with_two_owners();
    let required = ApiError::BadRequest("executed_command is required".to_string());
    assert_eq!(learn_command(&mut store, Some(ALICE), &ran("")), Err(required.clone()));
    assert_eq!(learn_command(&mut store, Some(ALICE), &ran("  \t\n")), Err(required));
    assert!(store.learned().is_empty());
}

#[test]
fn a_command_is_learned_without_the_white_space_around_it() {
    let mut store = store_with_two_owners();
    let mut request = ran("  ls -la \n");
    request.os = Some("linux".to_string());
    request.pwd = Some("/tmp".to_string());
    request.ls_output = Some("a b".to_string());
    assert_eq!(learn_command(&mut store, Some(ALICE), &request), Ok(()));
    let row = &store.learned()[0];
    assert_eq!(row.content, "ls -la");
    assert_eq!(row.os, Some("linux".to_string()));
    assert_eq!(row.pwd, Some("/tmp".to_string()));
    assert_eq!(row.ls_output, Some("a b".to_string()));
    assert_eq!(row.owner_token, 1);
    assert_eq!(row.usage_count, 1);
    assert_eq!(row.last_used_at, None);
    assert!(row.created_at >= 0);
}

#[test]
fn a_command_run_again_is_counted_not_stored_again() {
    let mut store = store_with_two_owners();
    assert_eq!(learn_at(&mut store, 1, &ran("ls"), 50, 7), Ok(()));
    let mut again = ran(" ls ");
    again.os = Some("mac".to_string());
    assert_eq!(learn_at(&mut store, 1, &again, 51, 8), Ok(()));
    assert_eq!(learn_at(&mut store, 1, &ran("ls"), 52, 9), Ok(()));
    assert_eq!(store.learned().len(), 1);
    let row = &store.learned()[0];
    assert_eq!(row.id, 50);
    assert_eq!(row.usage_count, 3);
    assert_eq!(row.created_at, 7);
    assert_eq!(row.os, None);
    assert_eq!(learn_at(&mut store, 2, &ran("ls"), 53, 9), Ok(()));
    assert_eq!(learn_at(&mut store, 1, &ran("LS"), 54, 9), Ok(()));
    assert_eq!(store.learned().len(), 3);
    assert_eq!(store.learned()[1].usage_count, 1);
}

#[test]
fn a_taken_id_is_a_storage_failure() {
    let mut store = store_with_two_owners();
    assert_eq!(learn_at(&mut store, 1, &ran("ls"), 50, 7), Ok(()));
    assert_eq!(
        learn_at(&mut store, 1, &ran("pwd"), 50, 7),
        Err(ApiError::Db(DbError::UniqueViolation))
    );
    assert_eq!(store.learned().len(), 1);
}

fn learned_three() -> Store {
    let mut store = store_with_two_owners();
    assert!(learn_at(&mut store, 1, &ran("ls"), 50, 10).is_ok());
    assert!(learn_at(&mut store, 1, &ran("pwd"), 51, 30).is_ok());
    assert!(learn_at(&mut store, 1, &ran("cd"), 52, 20).is_ok());
    assert!(learn_at(&mut store, 2, &ran("top"), 53, 40).is_ok());
    assert!(learn_at(&mut store, 1, &ran("cd"), 0, 0).is_ok());
    store
}

#[test]
fn learned_commands_are_listed_by_usage_then_recency() {
    let store = learned_three();
    let page = list_learned_for(&store, 1, &window(None, None));
    let contents: Vec<&str> = page.items.iter().map(|l| l.content.as_str()).collect();
    assert_eq!(contents, vec!["cd", "pwd", "ls"]);
    assert_eq!(page.total, 3);
    assert_eq!(page.limit, 20);
    assert_eq!(page.offset, 0);
    assert_eq!(page.items[0].usage_count, 2);
}

#[test]
fn a_caller_lists_its_own_learned_commands_only() {
    let store = learned_three();
    let bobs = list_learned(&store, Some(BOB), &window(None, None)).unwrap();
    assert_eq!(bobs.total, 1);
    assert_eq!(bobs.items[0].content, "top");
    assert_eq!(list_learned(&store, None, &window(None, None)), Err(ApiError::Unauthorized));
    assert_eq!(list_learned_for(&store, 3, &window(None, None)).total, 0);
}

#[test]
fn the_learned_listing_is_windowed_too() {
    let store = learned_three();
    let page = list_learned_for(&store, 1, &window(Some(1), Some(1)));
    assert_eq!(page.items.len(), 1);
    assert_eq!(page.items[0].content, "pwd");
    assert_eq!(page.total, 3);
    let beyond = list_learned_for(&store, 1, &window(Some(5), Some(3)));
    assert!(beyond.items.is_empty());
    assert_eq!(beyond.total, 3);
}

#[test]
fn promoting_makes_a_command_of_what_was_learned() {
    let mut store = learned_three();
    assert_eq!(promote_learned(&mut store, Some(ALICE), 52, &promotion(Some("PUBLIC"), &["nav", "nav"])), Ok(()));
    assert_eq!(store.commands().len(), 1);
    let made = &store.commands()[0];
    assert_eq!(made.text, "cd");
    assert_eq!(made.title, Some("promoted".to_string()));
    assert_eq!(made.visibility, "PUBLIC");
    assert_eq!(made.usage_count, 2);
    assert!(!made.favorite);
    assert_eq!(made.owner_token, 1);
    assert_eq!(made.updated_at, made.created_at);
    assert_eq!(tags_of(&store, made.id), vec!["nav".to_string()]);
    assert_eq!(store.learned().len(), 4);
}

#[test]
fn promoting_is_private_by_default() {
    let mut store = learned_three();
    assert_eq!(promote_learned(&mut store, Some(ALICE), 50, &promotion(None, &[])), Ok(()));
    assert_eq!(store.commands()[0].visibility, "PRIVATE");
    assert_eq!(store.commands()[0].usage_count, 1);
}

#[test]
fn promoting_needs_the_owner_of_what_was_learned() {
    let mut store = learned_three();
    assert_eq!(
        promote_learned(&mut store, None, 52, &promotion(None, &[])),
        Err(ApiError::Unauthorized)
    );
    assert_eq!(
        promote_learned(&mut store, Some(BOB), 52, &promotion(None, &[])),
        Err(ApiError::NotFound)
    );
    assert_eq!(
        promote_learned(&mut store, Some(ALICE), 999, &promotion(None, &[])),
        Err(ApiError::NotFound)
    );
    assert!(store.commands().is_empty());
}

#[test]
fn promoting_checks_the_visibility_after_the_owner() {
    let mut store = learned_three();
    assert_eq!(
        promote_learned(&mut store, Some(ALICE), 52, &promotion(Some("SECRET"), &["x"])),
        Err(ApiError::BadRequest("visibility must be PUBLIC or PRIVATE".to_string()))
    );
    assert_eq!(
        promote_learned(&mut store, Some(BOB), 52, &promotion(Some("SECRET"), &[])),
        Err(ApiError::NotFound)
    );
    assert!(store.commands().is_empty());
    assert!(store.tags().is_empty());
}
