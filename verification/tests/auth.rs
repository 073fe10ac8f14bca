use ping_service::extractors::{parse_number, split_machine_token};
use ping_service::forms::MachineCreateAdmin;
use ping_service::text::to_chars;
use ping_service::{AdminUser, ApiClient, ApiError, ApiUser, AppState, AuthReason, Mutation, Store};

fn state() -> AppState {
    AppState {
        admin_password: "admin-pw".to_string(),
        api_token: "shared-token".to_string(),
        static_root: "./static".to_string(),
    }
}

fn store_with_machine(key: &str) -> (Store, i32) {
    let mut db = Store::new();
    let form = MachineCreateAdmin {
        name: "edge-1".to_string(),
        ip: "198.51.100.7".to_string(),
        key: key.to_string(),
    };
    let machine = Mutation::create_machine_at(&mut db, &form, 1_000).unwrap();
    (db, machine.id)
}

fn number(text: &str) -> Option<i32> {
    parse_number(&to_chars(text))
}

#[test]
fn admin_needs_the_admin_secret() {
    let s = state();
    assert_eq!(AdminUser::from_request_parts(Some("admin-pw"), &s), Ok(AdminUser {}));
    let refused = Err(ApiError::Unauthorized(AuthReason::LoginRequired));
    assert_eq!(AdminUser::from_request_parts(Some("admin-pw "), &s), refused);
    assert_eq!(AdminUser::from_request_parts(Some("shared-token"), &s), refused);
    assert_eq!(AdminUser::from_request_parts(Some(""), &s), refused);
    assert_eq!(AdminUser::from_request_parts(None, &s), refused);
}

#[test]
fn shared_capability_needs_the_api_secret() {
    let s = state();
    assert_eq!(ApiUser::from_request_parts(Some("shared-token"), &s), Ok(ApiUser {}));
    let refused = Err(ApiError::Unauthorized(AuthReason::TokenRequired));
    assert_eq!(ApiUser::from_request_parts(Some("admin-pw"), &s), refused);
    assert_eq!(ApiUser::from_request_parts(None, &s), refused);
}

#[test]
fn machine_token_yields_its_machine() {
    let (db, id) = store_with_machine("k3y");
    let token = format!("{}:k3y", id);
    let client = ApiClient::from_request_parts(Some(&token), &db).unwrap();
    assert_eq!(client.0.id, id);
    assert_eq!(client.0.name, "edge-1");
    assert_eq!(client.0.key, "k3y");
}

#[test]
fn machine_token_secret_may_hold_colons() {
    let (db, id) = store_with_machine("a:b:c");
    let token = format!("{}:a:b:c", id);
    assert!(ApiClient::from_request_parts(Some(&token), &db).is_ok());
    let short = format!("{}:a", id);
    assert_eq!(
        ApiClient::from_request_parts(Some(&short), &db),
        Err(ApiError::Unauthorized(AuthReason::TokenRequired))
    );
}

#[test]
fn machine_token_with_wrong_secret_is_refused() {
    let (db, id) = store_with_machine("k3y");
    let refused = Err(ApiError::Unauthorized(AuthReason::TokenRequired));
    assert_eq!(ApiClient::from_request_parts(Some(&format!("{}:k3Y", id)), &db), refused);
    assert_eq!(ApiClient::from_request_parts(Some(&format!("{}:", id)), &db), refused);
    assert_eq!(ApiClient::from_request_parts(Some(&format!("{}:k3y ", id)), &db), refused);
}

#[test]
fn machine_token_for_unknown_machine_is_refused() {
    let (db, id) = store_with_machine("k3y");
    let refused = Err(ApiError::Unauthorized(AuthReason::TokenRequired));
    assert_eq!(ApiClient::from_request_parts(Some(&format!("{}:k3y", id + 1)), &db), refused);
    assert_eq!(ApiClient::from_request_parts(Some("0:k3y"), &db), refused);
}

#[test]
fn missing_machine_token_is_refused() {
    let (db, _) = store_with_machine("k3y");
    assert_eq!(
        ApiClient::from_request_parts(None, &db),
        Err(ApiError::Unauthorized(AuthReason::TokenRequired))
    );
}

#[test]
fn malformed_machine_token_has_its_own_reason() {
    let (db, _) = store_with_machine("k3y");
    let malformed = Err(ApiError::Unauthorized(AuthReason::InvalidTokenFormat));
    assert_eq!(ApiClient::from_request_parts(Some("k3y"), &db), malformed);
    assert_eq!(ApiClient::from_request_parts(Some(""), &db), malformed);
    assert_eq!(ApiClient::from_request_parts(Some("one:k3y"), &db), malformed);
    assert_eq!(ApiClient::from_request_parts(Some(":k3y"), &db), malformed);
    assert_eq!(ApiClient::from_request_parts(Some(" 1:k3y"), &db), malformed);
    assert_eq!(ApiClient::from_request_parts(Some("99999999999:k3y"), &db), malformed);
}

#[test]
fn machine_id_may_be_written_with_sign_or_zeros() {
    let (db, id) = store_with_machine("k3y");
    assert_eq!(id, 1);
    assert!(ApiClient::from_request_parts(Some("+1:k3y"), &db).is_ok());
    assert!(ApiClient::from_request_parts(Some("001:k3y"), &db).is_ok());
}

#[test]
fn token_is_split_at_the_first_colon() {
    let (id, secret) = split_machine_token("12:ab:cd").unwrap();
    assert_eq!(id, 12);
    assert_eq!(secret, to_chars("ab:cd"));
    let (id, secret) = split_machine_token("-3:").unwrap();
    assert_eq!(id, -3);
    assert!(secret.is_empty());
    assert!(split_machine_token("12").is_none());
    assert!(split_machine_token("x:y").is_none());
}

#[test]
fn numbers_parse_as_the_standard_library_parses_them() {
    let samples = [
        "", "0", "7", "42", "-42", "+42", "-0", "+0", "007", "-007", "2147483647", "2147483648",
        "-2147483648", "-2147483649", "4294967296", "99999999999999999999", "-", "+", "+-1", "--1",
        "1-", "12a", "a12", " 12", "12 ", "1_000", "0x10", "١٢", "1.0", "00000000000000000000001",
        "-00000000000000000000001",
    ];
    for text in samples {
        assert_eq!(number(text), text.parse::<i32>().ok(), "parsing {:?}", text);
    }
}

#[test]
fn numbers_at_the_edges() {
    assert_eq!(number("2147483647"), Some(i32::MAX));
    assert_eq!(number("-2147483648"), Some(i32::MIN));
    assert_eq!(number("2147483648"), None);
    assert_eq!(number("-2147483649"), None);
}
