use command_catalog::errors::DbError;
use command_catalog::models::{ApiToken, Command, DeviceCode, LearnedCommand, User};
use command_catalog::store::Store;

fn token(id: u128, value: &str) -> ApiToken {
    ApiToken { id, label: "t".to_string(), token: value.to_string(), user_id: None, created_at: 0 }
}

fn user(id: u128, email: &str) -> User {
    User { id, email: email.to_string(), password_digest: "d".to_string(), created_at: 0 }
}

fn command(id: u128, owner: u128) -> Command {
    Command {
        id,
        title: None,
        text: "ls".to_string(),
        description: None,
        platform: "linux".to_string(),
        visibility: "PRIVATE".to_string(),
        favorite: false,
        usage_count: 0,
        owner_token: owner,
        created_at: 0,
        updated_at: 0,
        last_used_at: None,
    }
}

fn learned(id: u128, owner: u128, content: &str) -> LearnedCommand {
    LearnedCommand {
        id,
        content: content.to_string(),
        os: None,
        pwd: None,
        ls_output: None,
        owner_token: owner,
        usage_count: 1,
        created_at: 0,
        last_used_at: None,
    }
}

#[test]
fn a_new_store_is_empty() {
    let store = Store::new();
    assert!(store.users().is_empty());
    assert!(store.tokens().is_empty());
    assert!(store.device_codes().is_empty());
    assert!(store.commands().is_empty());
    assert!(store.tags().is_empty());
    assert!(store.command_tags().is_empty());
    assert!(store.learned().is_empty());
}

#[test]
fn a_second_token_with_the_same_secret_is_refused() {
    let mut store = Store::new();
    assert_eq!(store.insert_token(token(1, "abc")), Ok(()));
    assert_eq!(store.insert_token(token(2, "abc")), Err(DbError::UniqueViolation));
    assert_eq!(store.insert_token(token(1, "xyz")), Err(DbError::UniqueViolation));
    assert_eq!(store.insert_token(token(2, "xyz")), Ok(()));
    assert_eq!(store.tokens().len(), 2);
    assert_eq!(store.find_token_by_value("xyz").map(|t| t.id), Some(2));
    assert_eq!(store.find_token_by_id(1).map(|t| t.token), Some("abc".to_string()));
    assert!(store.find_token_by_value("nope").is_none());
    assert!(store.find_token_by_id(3).is_none());
}

#[test]
fn a_second_user_with_the_same_email_is_refused() {
    let mut store = Store::new();
    assert_eq!(store.insert_user(user(1, "a@b.c")), Ok(()));
    assert_eq!(store.insert_user(user(2, "a@b.c")), Err(DbError::UniqueViolation));
    assert_eq!(store.insert_user(user(1, "d@e.f")), Err(DbError::UniqueViolation));
    assert_eq!(store.users().len(), 1);
    assert_eq!(store.find_user_by_email("a@b.c").map(|u| u.id), Some(1));
    assert!(store.find_user_by_email("A@b.c").is_none());
}

#[test]
fn an_account_is_stored_whole_or_not_at_all() {
    let mut store = Store::new();
    assert_eq!(store.insert_token(token(7, "taken")), Ok(()));
    assert_eq!(
        store.insert_account(user(1, "a@b.c"), token(8, "taken")),
        Err(DbError::UniqueViolation)
    );
    assert!(store.users().is_empty());
    assert_eq!(store.tokens().len(), 1);
    assert_eq!(store.insert_account(user(1, "a@b.c"), token(8, "free")), Ok(()));
    assert_eq!(store.users().len(), 1);
    assert_eq!(store.tokens().len(), 2);
}

#[test]
fn device_codes_are_unique_and_consumed_in_place() {
    let mut store = Store::new();
    let code = DeviceCode { code: "123456".to_string(), token_id: 1, expires_at: 10, consumed: false };
    assert_eq!(store.insert_device_code(code.clone()), Ok(()));
    assert_eq!(store.insert_device_code(code.clone()), Err(DbError::UniqueViolation));
    assert_eq!(store.find_device_code("123456"), Some(code));
    store.consume_device_code("654321");
    assert_eq!(store.find_device_code("123456").map(|d| d.consumed), Some(false));
    store.consume_device_code("123456");
    let marked = store.find_device_code("123456").unwrap();
    assert!(marked.consumed);
    assert_eq!(marked.token_id, 1);
    assert_eq!(marked.expires_at, 10);
    assert_eq!(store.device_codes().len(), 1);
}

#[test]
fn deleting_a_command_takes_its_associations_along() {
    let mut store = Store::new();
    assert_eq!(store.insert_command(command(1, 10)), Ok(()));
    assert_eq!(store.insert_command(command(2, 10)), Ok(()));
    assert_eq!(store.insert_command(command(1, 11)), Err(DbError::UniqueViolation));
    let tag = store.upsert_tag(10, "net", 100).unwrap();
    assert_eq!(store.link_tag(1, tag), Ok(()));
    assert_eq!(store.link_tag(2, tag), Ok(()));
    assert_eq!(store.link_tag(1, tag), Ok(()));
    assert_eq!(store.link_tag(3, tag), Err(DbError::ForeignKeyViolation));
    assert_eq!(store.command_tags().len(), 2);
    assert!(store.has_command(1));
    assert!(!store.has_command(3));
    assert_eq!(store.delete_command(1, 11), 0);
    assert_eq!(store.commands().len(), 2);
    assert_eq!(store.delete_command(1, 10), 1);
    assert_eq!(store.commands().len(), 1);
    assert_eq!(store.commands()[0].id, 2);
    assert_eq!(store.command_tags().len(), 1);
    assert_eq!(store.command_tags()[0].command_id, 2);
    assert_eq!(store.tags().len(), 1);
    assert_eq!(store.delete_command(1, 10), 0);
}

#[test]
fn a_tag_is_found_before_it_is_added() {
    let mut store = Store::new();
    assert_eq!(store.upsert_tag(10, "net", 100), Ok(100));
    assert_eq!(store.upsert_tag(10, "net", 101), Ok(100));
    assert_eq!(store.upsert_tag(11, "net", 100), Err(DbError::UniqueViolation));
    assert_eq!(store.upsert_tag(11, "net", 102), Ok(102));
    assert_eq!(store.tags().len(), 2);
    assert_eq!(store.find_tag_by_id(102).map(|t| t.owner_token), Some(11));
    assert!(store.find_tag_by_id(101).is_none());
}

#[test]
fn learned_commands_are_unique_per_owner_and_content() {
    let mut store = Store::new();
    assert_eq!(store.insert_learned(learned(1, 10, "ls")), Ok(()));
    assert_eq!(store.insert_learned(learned(2, 10, "ls")), Err(DbError::UniqueViolation));
    assert_eq!(store.insert_learned(learned(1, 11, "pwd")), Err(DbError::UniqueViolation));
    assert_eq!(store.insert_learned(learned(2, 11, "ls")), Ok(()));
    assert_eq!(store.find_learned(11, "ls").map(|l| l.id), Some(2));
    assert!(store.find_learned(11, "pwd").is_none());
    assert_eq!(store.find_owned_learned(2, 11).map(|l| l.id), Some(2));
    assert!(store.find_owned_learned(2, 10).is_none());
    store.set_usage(2, 5);
    store.set_usage(3, 9);
    assert_eq!(store.find_learned(11, "ls").map(|l| l.usage_count), Some(5));
    assert_eq!(store.find_learned(10, "ls").map(|l| l.usage_count), Some(1));
}
