use structure::error::AppError;
use structure::event::{Event, Identity};
use structure::models::{bearer_token, may_enter, Claims, UserRole};

#[test]
fn identity_json_quotes_and_formats_uuid() {
    let u = Identity { id: 1, username: "a\"b".to_string() };
    assert_eq!(
        u.to_json(),
        r#"{"id":"00000000-0000-0000-0000-000000000001","username":"a\"b"}"#
    );
}

#[test]
fn event_json_shapes() {
    let a = Identity { id: 0, username: "ann".to_string() };
    let b = Identity { id: 0xab, username: "bob".to_string() };
    let a_json = r#"{"id":"00000000-0000-0000-0000-000000000000","username":"ann"}"#;
    let b_json = r#"{"id":"00000000-0000-0000-0000-0000000000ab","username":"bob"}"#;
    let state = Event::RoomState(vec![a.duplicate(), b.duplicate()]);
    assert_eq!(state.to_json(), format!(r#"{{"type":"room_state","users":[{},{}]}}"#, a_json, b_json));
    assert_eq!(Event::UserJoined(a.duplicate()).to_json(), format!(r#"{{"type":"user_joined","user":{}}}"#, a_json));
    assert_eq!(Event::UserLeft(b).to_json(), format!(r#"{{"type":"user_left","user":{}}}"#, b_json));
    assert_eq!(Event::RoomState(vec![]).to_json(), r#"{"type":"room_state","users":[]}"#);
}

#[test]
fn bearer_header() {
    assert_eq!(bearer_token("Bearer abc.def"), Some("abc.def".to_string()));
    assert_eq!(bearer_token("Bearer "), Some(String::new()));
    assert_eq!(bearer_token("Bearer"), None);
    assert_eq!(bearer_token("Basic abc"), None);
    assert_eq!(bearer_token("bearer abc"), None);
}

#[test]
fn access_rule() {
    assert!(may_enter(3, 3));
    assert!(may_enter(4, 3));
    assert!(!may_enter(2, 3));
    assert!(may_enter(i32::MIN, i32::MIN));
}

#[test]
fn error_answers() {
    let all = [
        (AppError::SqlxError, 500, "Database Error"),
        (AppError::PasswordHashError, 500, "Hashing Error"),
        (AppError::JwtError, 401, "Invalid token"),
        (AppError::NotFound, 404, "Resource not found"),
        (AppError::Unauthorized, 401, "Authentication required"),
        (AppError::InvalidCredentials, 401, "Invalid email or password"),
        (AppError::InternalServerError, 500, "An internal error occurred"),
    ];
    for (e, status, message) in all {
        assert_eq!(e.status(), status);
        assert_eq!(e.message(), message);
    }
    assert_eq!(AppError::from_database(true), AppError::NotFound);
    assert_eq!(AppError::from_database(false), AppError::SqlxError);
}

#[test]
fn claims_identity() {
    let c = Claims { sub: 5, username: "zed".to_string(), pk: String::new(), role: UserRole::Admin, exp: 0 };
    let i = c.identity();
    assert_eq!(i.id, 5);
    assert_eq!(i.username, "zed");
}

#[test]
fn identity_json_escapes_control_characters() {
    let u = Identity { id: 0x0123456789abcdef0123456789abcdef, username: "t\tn\nq\\\u{1}é".to_string() };
    assert_eq!(
        u.to_json(),
        "{\"id\":\"01234567-89ab-cdef-0123-456789abcdef\",\"username\":\"t\\tn\\nq\\\\\\u0001é\"}"
    );
}
