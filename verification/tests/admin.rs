use nostr_sdk::{EventBuilder, JsonUtil, Keys, Kind, Tag};
use relay_admin::admin::{
    extract_bearer_token, init_admin_state, random_hex, AdminState, AuthError, CHALLENGE_TTL_NANOS,
    SESSION_TTL_NANOS,
};
use relay_admin::pubkey::Pubkey;

const T0: u64 = 1_000_000_000_000;

fn pubkey_of(keys: &Keys) -> Pubkey {
    Pubkey { bytes: keys.public_key().to_bytes() }
}

fn signed_event(keys: &Keys, kind: u16, tags: Vec<Vec<&str>>) -> String {
    let mut builder = EventBuilder::new(Kind::from(kind), "");
    for t in tags {
        builder = builder.tag(Tag::parse(t).unwrap());
    }
    builder.sign_with_keys(keys).unwrap().as_json()
}

fn admin_with(keys: &Keys) -> AdminState {
    init_admin_state(vec![pubkey_of(keys)], "wss://relay.example".to_string())
}

fn bearer(token: &str) -> String {
    format!("Bearer {}", token)
}

#[test]
fn random_hex_is_lowercase_hex_of_twice_the_length() {
    let a = random_hex(32);
    assert_eq!(a.len(), 64);
    assert!(a.chars().all(|c| c.is_ascii_digit() || ('a'..='f').contains(&c)));
    assert_eq!(random_hex(0), "");
    assert_ne!(random_hex(32), a);
}

#[test]
fn bearer_token_is_stripped() {
    assert_eq!(extract_bearer_token(Some("Bearer abc")), Some("abc".to_string()));
    assert_eq!(extract_bearer_token(Some("Bearer ")), Some(String::new()));
    assert_eq!(extract_bearer_token(Some("bearer abc")), None);
    assert_eq!(extract_bearer_token(Some("Basic abc")), None);
    assert_eq!(extract_bearer_token(None), None);
}

#[test]
fn issued_challenge_is_hex() {
    let keys = Keys::generate();
    let mut admin = admin_with(&keys);
    let c = admin.issue_challenge(T0);
    assert_eq!(c.len(), 64);
    assert!(c.chars().all(|ch| ch.is_ascii_hexdigit() && !ch.is_ascii_uppercase()));
}

#[test]
fn login_opens_a_session_until_it_expires() {
    let keys = Keys::generate();
    let mut admin = admin_with(&keys);
    let c = admin.issue_challenge(T0);
    let json = signed_event(&keys, 22242, vec![vec!["relay", "wss://relay.example"], vec!["challenge", &c]]);
    let token = admin.authenticate(&json, T0 + 10).unwrap();
    assert_eq!(token.len(), 64);
    let header = bearer(&token);
    assert_eq!(admin.validate_session(Some(&header), T0 + 10), Some(pubkey_of(&keys)));
    assert_eq!(admin.validate_session(Some(&header), T0 + 10 + SESSION_TTL_NANOS - 1), Some(pubkey_of(&keys)));
    assert_eq!(admin.validate_session(Some(&header), T0 + 10 + SESSION_TTL_NANOS), None);
    assert_eq!(admin.validate_session(Some(&token), T0 + 10), None);
    assert_eq!(admin.validate_session(Some("Bearer nope"), T0 + 10), None);
    assert_eq!(admin.validate_session(None, T0 + 10), None);
}

#[test]
fn challenge_cannot_be_replayed() {
    let keys = Keys::generate();
    let mut admin = admin_with(&keys);
    let c = admin.issue_challenge(T0);
    let json = signed_event(&keys, 22242, vec![vec!["challenge", &c]]);
    assert!(admin.authenticate(&json, T0).is_ok());
    assert_eq!(admin.authenticate(&json, T0 + 1), Err(AuthError::UnknownChallenge));
}

#[test]
fn refusals_come_in_order() {
    let keys = Keys::generate();
    let other = Keys::generate();
    let mut admin = admin_with(&keys);
    let c = admin.issue_challenge(T0);
    assert_eq!(admin.authenticate("not json", T0), Err(AuthError::InvalidEvent));
    let wrong_kind = signed_event(&keys, 1, vec![vec!["challenge", &c]]);
    assert_eq!(admin.authenticate(&wrong_kind, T0), Err(AuthError::WrongKind));
    let good = signed_event(&keys, 22242, vec![vec!["challenge", &c]]);
    let tampered = good.replace("\"content\":\"\"", "\"content\":\"x\"");
    assert_ne!(tampered, good);
    assert_eq!(admin.authenticate(&tampered, T0), Err(AuthError::InvalidSignature));
    let stranger = signed_event(&other, 22242, vec![vec!["challenge", &c]]);
    assert_eq!(admin.authenticate(&stranger, T0), Err(AuthError::NotAdmin));
    let no_tag = signed_event(&keys, 22242, vec![vec!["relay", "wss://relay.example"]]);
    assert_eq!(admin.authenticate(&no_tag, T0), Err(AuthError::MissingChallengeTag));
    let no_value = signed_event(&keys, 22242, vec![vec!["challenge"]]);
    assert_eq!(admin.authenticate(&no_value, T0), Err(AuthError::MissingChallengeValue));
    let unknown = signed_event(&keys, 22242, vec![vec!["challenge", "abc"]]);
    assert_eq!(admin.authenticate(&unknown, T0), Err(AuthError::UnknownChallenge));
    // None of these used the challenge up.
    assert!(admin.authenticate(&good, T0).is_ok());
}

#[test]
fn expired_challenge_is_used_up() {
    let keys = Keys::generate();
    let mut admin = admin_with(&keys);
    let c = admin.issue_challenge(T0);
    let json = signed_event(&keys, 22242, vec![vec!["challenge", &c]]);
    assert_eq!(admin.authenticate(&json, T0 + CHALLENGE_TTL_NANOS + 1), Err(AuthError::ChallengeExpired));
    assert_eq!(admin.authenticate(&json, T0 + 1), Err(AuthError::UnknownChallenge));
}

#[test]
fn challenge_answered_at_the_lifetime_is_accepted() {
    let keys = Keys::generate();
    let mut admin = admin_with(&keys);
    let c = admin.issue_challenge(T0);
    let json = signed_event(&keys, 22242, vec![vec!["challenge", &c]]);
    assert!(admin.authenticate(&json, T0 + CHALLENGE_TTL_NANOS).is_ok());
}

#[test]
fn old_challenges_are_dropped_when_new_ones_are_issued() {
    let keys = Keys::generate();
    let mut admin = admin_with(&keys);
    admin.record_challenge("old".to_string(), T0);
    admin.record_challenge("new".to_string(), T0 + CHALLENGE_TTL_NANOS);
    let k = pubkey_of(&keys);
    let tags = vec![vec!["challenge".to_string(), "old".to_string()]];
    assert_eq!(
        admin.admit_auth_event(&k, 22242, &tags, true, "t1".to_string(), T0 + CHALLENGE_TTL_NANOS),
        Err(AuthError::UnknownChallenge)
    );
    let tags = vec![vec!["challenge".to_string(), "new".to_string()]];
    assert_eq!(
        admin.admit_auth_event(&k, 22242, &tags, true, "t2".to_string(), T0 + CHALLENGE_TTL_NANOS),
        Ok("t2".to_string())
    );
}

#[test]
fn admit_uses_the_first_challenge_tag() {
    let keys = Keys::generate();
    let mut admin = admin_with(&keys);
    admin.record_challenge("b".to_string(), T0);
    let k = pubkey_of(&keys);
    let tags = vec![
        vec!["challenge".to_string(), "a".to_string()],
        vec!["challenge".to_string(), "b".to_string()],
    ];
    assert_eq!(admin.admit_auth_event(&k, 22242, &tags, true, "t".to_string(), T0), Err(AuthError::UnknownChallenge));
}

#[test]
fn admit_checks_signature_flag_and_kind() {
    let keys = Keys::generate();
    let mut admin = admin_with(&keys);
    admin.record_challenge("c".to_string(), T0);
    let k = pubkey_of(&keys);
    let tags = vec![vec!["challenge".to_string(), "c".to_string()]];
    assert_eq!(admin.admit_auth_event(&k, 22242, &tags, false, "t".to_string(), T0), Err(AuthError::InvalidSignature));
    assert_eq!(admin.admit_auth_event(&k, 22243, &tags, false, "t".to_string(), T0), Err(AuthError::WrongKind));
    assert_eq!(admin.admit_auth_event(&k, 22242, &tags, true, "tok".to_string(), T0), Ok("tok".to_string()));
    assert_eq!(admin.validate_session(Some("Bearer tok"), T0), Some(k));
}

#[test]
fn second_login_with_same_token_replaces_session() {
    let keys = Keys::generate();
    let other = Keys::generate();
    let mut admin = init_admin_state(vec![pubkey_of(&keys), pubkey_of(&other)], String::new());
    admin.record_challenge("c1".to_string(), T0);
    admin.record_challenge("c2".to_string(), T0);
    let t1 = vec![vec!["challenge".to_string(), "c1".to_string()]];
    let t2 = vec![vec!["challenge".to_string(), "c2".to_string()]];
    assert!(admin.admit_auth_event(&pubkey_of(&keys), 22242, &t1, true, "same".to_string(), T0).is_ok());
    assert!(admin.admit_auth_event(&pubkey_of(&other), 22242, &t2, true, "same".to_string(), T0 + 5).is_ok());
    assert_eq!(admin.validate_session(Some("Bearer same"), T0 + 5), Some(pubkey_of(&other)));
}

#[test]
fn expired_sessions_are_dropped_on_login() {
    let keys = Keys::generate();
    let mut admin = admin_with(&keys);
    let k = pubkey_of(&keys);
    admin.record_challenge("c1".to_string(), T0);
    let t1 = vec![vec!["challenge".to_string(), "c1".to_string()]];
    assert!(admin.admit_auth_event(&k, 22242, &t1, true, "first".to_string(), T0).is_ok());
    let later = T0 + SESSION_TTL_NANOS;
    admin.record_challenge("c2".to_string(), later);
    let t2 = vec![vec!["challenge".to_string(), "c2".to_string()]];
    assert!(admin.admit_auth_event(&k, 22242, &t2, true, "second".to_string(), later).is_ok());
    assert_eq!(admin.validate_session(Some("Bearer first"), T0), None);
    assert_eq!(admin.validate_session(Some("Bearer second"), later), Some(k));
}

#[test]
fn error_status_and_messages() {
    assert_eq!(AuthError::NotAdmin.status(), 403);
    assert_eq!(AuthError::InvalidEvent.status(), 400);
    assert_eq!(AuthError::WrongKind.message(), "Event must be kind 22242");
    assert_eq!(AuthError::UnknownChallenge.message(), "Unknown or already used challenge");
    assert_eq!(AuthError::ChallengeExpired.message(), "Challenge expired");
    assert_eq!(AuthError::MissingChallengeTag.message(), "Missing challenge tag");
    assert_eq!(AuthError::MissingChallengeValue.message(), "Missing challenge value in tag");
    assert_eq!(AuthError::InvalidSignature.message(), "Invalid signature");
    assert_eq!(AuthError::InvalidEvent.message(), "Invalid event");
    assert_eq!(AuthError::NotAdmin.message(), "Not an admin pubkey");
}

#[test]
fn login_keeps_other_live_sessions() {
    let a = Keys::generate();
    let b = Keys::generate();
    let mut admin = init_admin_state(vec![pubkey_of(&a), pubkey_of(&b)], String::new());
    admin.record_challenge("c1".to_string(), T0);
    admin.record_challenge("c2".to_string(), T0);
    let t1 = vec![vec!["challenge".to_string(), "c1".to_string()]];
    let t2 = vec![vec!["challenge".to_string(), "c2".to_string()]];
    assert!(admin.admit_auth_event(&pubkey_of(&a), 22242, &t1, true, "ta".to_string(), T0).is_ok());
    assert!(admin.admit_auth_event(&pubkey_of(&b), 22242, &t2, true, "tb".to_string(), T0 + 9).is_ok());
    assert_eq!(admin.validate_session(Some("Bearer ta"), T0 + 9), Some(pubkey_of(&a)));
    assert_eq!(admin.validate_session(Some("Bearer tb"), T0 + 9), Some(pubkey_of(&b)));
}

#[test]
fn sessions_belong_to_admins_only() {
    let keys = Keys::generate();
    let stranger = Keys::generate();
    let mut admin = admin_with(&keys);
    admin.record_challenge("c".to_string(), T0);
    let tags = vec![vec!["challenge".to_string(), "c".to_string()]];
    assert_eq!(
        admin.admit_auth_event(&pubkey_of(&stranger), 22242, &tags, true, "t".to_string(), T0),
        Err(AuthError::NotAdmin)
    );
    assert_eq!(admin.validate_session(Some("Bearer t"), T0), None);
}
