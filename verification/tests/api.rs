use relay_admin::admin::{init_admin_state, AdminState};
use relay_admin::api::{
    apply_follow_sync, event_infos, group_events_limit, key_entry, member_infos, parse_path_pubkey,
    parse_pubkey_input, reference_accounts_add, reference_accounts_list, reference_accounts_remove,
    reference_accounts_sync_plan, relay_info, retention_status, session_check, stats, whitelist_add,
    whitelist_list, whitelist_remove, ApiError, EventRow, MemberRow,
};
use relay_admin::pruner::{PrunerConfig, PrunerStats, Span};
use relay_admin::pubkey::Pubkey;
use relay_admin::reference_accounts::ReferenceAccounts;
use relay_admin::whitelist::Whitelist;

const NOW: u64 = 5_000_000_000;

fn key(b: u8) -> Pubkey {
    Pubkey { bytes: [b; 32] }
}

fn logged_in() -> AdminState {
    let mut admin = init_admin_state(vec![key(1)], String::new());
    admin.record_challenge("c".to_string(), NOW);
    let tags = vec![vec!["challenge".to_string(), "c".to_string()]];
    admin.admit_auth_event(&key(1), 22242, &tags, true, "tok".to_string(), NOW).unwrap();
    admin
}

const AUTH: Option<&str> = Some("Bearer tok");

#[test]
fn typed_keys_parse_as_npub_or_hex() {
    let k = key(0x42);
    assert_eq!(parse_pubkey_input(&k.to_hex()), Ok(k));
    assert_eq!(parse_pubkey_input(&k.to_hex().to_uppercase()), Ok(k));
    assert_eq!(parse_pubkey_input(&k.to_bech32()), Ok(k));
    assert_eq!(parse_pubkey_input("npub1notreally"), Err(ApiError::InvalidNpub));
    assert_eq!(parse_pubkey_input("abcd"), Err(ApiError::InvalidHexPubkey));
    assert_eq!(parse_pubkey_input(""), Err(ApiError::InvalidHexPubkey));
    assert_eq!(parse_path_pubkey(&k.to_bech32()), Err(ApiError::InvalidHexPubkey));
    assert_eq!(parse_path_pubkey(&k.to_hex()), Ok(k));
}

#[test]
fn known_npub_decodes_to_its_key() {
    let hex = "3bf0c63fcb93463407af97a5e5ee64fa883d107ef9e558472c4eb9aaaefa459d";
    let npub = "npub180cvv07tjdrrgpa0j7j7tmnyl2yr6yr7l8j4s3evf6u64th6gkwsyjh6w6";
    let k = parse_pubkey_input(hex).unwrap();
    assert_eq!(parse_pubkey_input(npub), Ok(k));
    assert_eq!(k.to_bech32(), npub);
    let e = key_entry(&k);
    assert_eq!(e.hex, hex);
    assert_eq!(e.npub, npub);
}

#[test]
fn requests_without_session_are_refused() {
    let admin = logged_in();
    let mut w = Whitelist::new(vec![], None);
    assert_eq!(whitelist_list(&admin, &w, None, NOW), Err(ApiError::Unauthorized));
    assert_eq!(whitelist_add(&admin, &mut w, Some("Bearer other"), &key(2).to_hex(), NOW), Err(ApiError::Unauthorized));
    assert!(w.list_manual().is_empty());
    assert_eq!(ApiError::Unauthorized.status(), 401);
    assert_eq!(ApiError::Unauthorized.message(), "Unauthorized");
    assert_eq!(ApiError::InvalidNpub.message(), "Invalid npub");
    assert_eq!(ApiError::InvalidHexPubkey.message(), "Invalid hex pubkey");
    assert_eq!(ApiError::InvalidHexPubkey.status(), 400);
}

#[test]
fn whitelist_requests_change_the_manual_keys() {
    let admin = logged_in();
    let mut w = Whitelist::new(vec![], None);
    let (entry, added) = whitelist_add(&admin, &mut w, AUTH, &key(2).to_hex(), NOW).unwrap();
    assert!(added);
    assert_eq!(entry.hex, key(2).to_hex());
    let (_, again) = whitelist_add(&admin, &mut w, AUTH, &key(2).to_bech32(), NOW).unwrap();
    assert!(!again);
    assert_eq!(whitelist_add(&admin, &mut w, AUTH, "npub1xyz", NOW), Err(ApiError::InvalidNpub));
    let listed = whitelist_list(&admin, &w, AUTH, NOW).unwrap();
    assert_eq!(listed.len(), 1);
    assert_eq!(listed[0].npub, key(2).to_bech32());
    assert_eq!(whitelist_remove(&admin, &mut w, AUTH, "xyz", NOW), Err(ApiError::InvalidHexPubkey));
    assert_eq!(whitelist_remove(&admin, &mut w, AUTH, &key(2).to_hex(), NOW), Ok(true));
    assert_eq!(whitelist_remove(&admin, &mut w, AUTH, &key(2).to_hex(), NOW), Ok(false));
    assert!(w.list_manual().is_empty());
}

#[test]
fn expired_session_is_refused() {
    let admin = logged_in();
    let w = Whitelist::new(vec![], None);
    let later = NOW + relay_admin::admin::SESSION_TTL_NANOS;
    assert_eq!(whitelist_list(&admin, &w, AUTH, later), Err(ApiError::Unauthorized));
}

#[test]
fn session_check_reports_the_key() {
    let admin = logged_in();
    let c = session_check(&admin, AUTH, NOW);
    assert!(c.valid);
    assert_eq!(c.pubkey, Some(key(1).to_hex()));
    let c = session_check(&admin, Some("Bearer x"), NOW);
    assert!(!c.valid);
    assert_eq!(c.pubkey, None);
}

#[test]
fn reference_account_requests() {
    let admin = logged_in();
    let mut r = ReferenceAccounts::new(None);
    assert_eq!(reference_accounts_sync_plan(&admin, &r, AUTH, NOW), Ok(None));
    assert_eq!(reference_accounts_sync_plan(&admin, &r, None, NOW), Err(ApiError::Unauthorized));
    let (_, added) = reference_accounts_add(&admin, &mut r, AUTH, &key(3).to_hex(), NOW).unwrap();
    assert!(added);
    assert_eq!(reference_accounts_sync_plan(&admin, &r, AUTH, NOW), Ok(Some(vec![key(3)])));
    assert_eq!(reference_accounts_list(&admin, &r, AUTH, NOW).unwrap()[0].hex, key(3).to_hex());
    assert_eq!(reference_accounts_remove(&admin, &mut r, AUTH, &key(3).to_hex(), NOW), Ok(true));
    assert_eq!(r.len(), 0);
}

#[test]
fn follow_sync_replaces_derived_keys() {
    let mut w = Whitelist::new(vec![key(1)], None);
    w.set_follow_derived(vec![key(9)]);
    assert_eq!(apply_follow_sync(&mut w, vec![key(2), key(3)]), 2);
    assert_eq!(w.list(), vec![key(1), key(2), key(3)]);
}

#[test]
fn stats_sum_groups_and_members() {
    let admin = logged_in();
    let mut w = Whitelist::new(vec![key(1), key(2)], None);
    w.set_follow_derived(vec![key(2), key(3)]);
    let s = stats(&admin, &w, AUTH, NOW, &vec![3, 0, 4], 7, 99).unwrap();
    assert_eq!(s.total_groups, 3);
    assert_eq!(s.total_members, 7);
    assert_eq!(s.whitelisted_count, 3);
    assert_eq!(s.active_connections, 7);
    assert_eq!(s.uptime_seconds, 99);
    assert_eq!(stats(&admin, &w, None, NOW, &vec![], 0, 0), Err(ApiError::Unauthorized));
}

#[test]
fn relay_info_lists_supported_nips() {
    let info = relay_info("n".to_string(), "d".to_string(), 4);
    assert_eq!(info.supported_nips, vec![1, 9, 11, 29, 40, 42, 70]);
    assert_eq!(info.group_count, 4);
    assert_eq!(info.name, "n");
}

#[test]
fn retention_status_reports_settings_and_totals() {
    let cfg = PrunerConfig::from_settings(Span { secs: 86400, nanos: 0 }, None, None);
    let mut st = PrunerStats::new();
    st.record_run(5, Some(1700));
    let r = retention_status(Some(&cfg), Some(&st));
    assert!(r.enabled);
    assert_eq!(r.retention_secs, Some(86400));
    assert_eq!(r.interval_secs, Some(1800));
    assert_eq!(r.prune_kinds, Some(vec![9, 11, 12]));
    assert_eq!((r.total_pruned, r.runs, r.last_run_unix), (5, 1, 1700));
    let r = retention_status(None, None);
    assert!(!r.enabled);
    assert_eq!(r.prune_kinds, None);
    assert_eq!((r.total_pruned, r.runs, r.last_run_unix), (0, 0, 0));
}

#[test]
fn group_event_limit_defaults_and_caps() {
    assert_eq!(group_events_limit(None), 100);
    assert_eq!(group_events_limit(Some(7)), 7);
    assert_eq!(group_events_limit(Some(500)), 500);
    assert_eq!(group_events_limit(Some(501)), 500);
}

#[test]
fn incomplete_event_rows_are_skipped() {
    let full = EventRow {
        id: Some("i".to_string()),
        pubkey: Some("p".to_string()),
        kind: Some(9),
        content: Some("hi".to_string()),
        created_at: Some(12),
    };
    let missing = EventRow { kind: None, ..full.clone() };
    let infos = event_infos(vec![missing, full]);
    assert_eq!(infos.len(), 1);
    assert_eq!(infos[0].content, "hi");
    assert_eq!(infos[0].kind, 9);
}

#[test]
fn member_rows_keep_string_roles() {
    let rows = vec![
        MemberRow { pubkey: Some("a".to_string()), roles: Some(vec![Some("admin".to_string()), None, Some("mod".to_string())]) },
        MemberRow { pubkey: None, roles: Some(vec![]) },
        MemberRow { pubkey: Some("b".to_string()), roles: None },
    ];
    let infos = member_infos(rows);
    assert_eq!(infos.len(), 1);
    assert_eq!(infos[0].pubkey, "a");
    assert_eq!(infos[0].roles, vec!["admin".to_string(), "mod".to_string()]);
}
