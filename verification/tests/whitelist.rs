use relay_admin::follow_sync::{load_follow_derived, persist_follow_derived};
use relay_admin::pubkey::Pubkey;
use relay_admin::reference_accounts::ReferenceAccounts;
use relay_admin::whitelist::Whitelist;

fn key(b: u8) -> Pubkey {
    Pubkey { bytes: [b; 32] }
}

#[test]
fn new_whitelist_holds_initial_keys_only() {
    let w = Whitelist::new(vec![key(1), key(2)], None);
    assert_eq!(w.list_manual(), vec![key(1), key(2)]);
    assert!(w.list_follow_derived().is_empty());
    assert_eq!(w.len(), 2);
    assert!(!w.is_empty());
}

#[test]
fn empty_whitelist_is_empty() {
    let w = Whitelist::new(vec![], None);
    assert!(w.is_empty());
    assert_eq!(w.len(), 0);
    assert!(!w.contains(&key(1)));
}

#[test]
fn runtime_overrides_are_merged_without_repeats() {
    let hex1 = key(1).to_hex();
    let hex3 = key(3).to_hex();
    let stored = format!("[\"{}\", \"not a key\", \"{}\", \"{}\"]", hex1, hex3, hex3);
    let w = Whitelist::new(vec![key(1), key(2)], Some(&stored));
    assert_eq!(w.list_manual(), vec![key(1), key(2), key(3)]);
}

#[test]
fn unreadable_runtime_overrides_are_ignored() {
    let w = Whitelist::new(vec![key(1)], Some("{ not json"));
    assert_eq!(w.list_manual(), vec![key(1)]);
}

#[test]
fn uppercase_hex_overrides_are_accepted() {
    let upper = key(0xab).to_hex().to_uppercase();
    let stored = format!("[\"{}\"]", upper);
    let w = Whitelist::new(vec![], Some(&stored));
    assert_eq!(w.list_manual(), vec![key(0xab)]);
}

#[test]
fn add_reports_whether_new() {
    let mut w = Whitelist::new(vec![key(1)], None);
    assert!(w.add(key(2)));
    assert!(!w.add(key(2)));
    assert!(!w.add(key(1)));
    assert_eq!(w.list_manual(), vec![key(1), key(2)]);
    assert!(w.contains(&key(2)));
}

#[test]
fn remove_reports_whether_present() {
    let mut w = Whitelist::new(vec![key(1), key(2), key(1)], None);
    assert!(w.remove(&key(1)));
    assert_eq!(w.list_manual(), vec![key(2)]);
    assert!(!w.remove(&key(1)));
    assert!(!w.contains(&key(1)));
}

#[test]
fn add_then_remove_restores_manual_keys() {
    let mut w = Whitelist::new(vec![key(1), key(2)], None);
    let before = w.list_manual();
    assert!(w.add(key(9)));
    assert!(w.remove(&key(9)));
    assert_eq!(w.list_manual(), before);
}

#[test]
fn list_is_manual_then_new_follows() {
    let mut w = Whitelist::new(vec![key(1), key(2)], None);
    w.set_follow_derived(vec![key(2), key(3), key(3), key(4)]);
    assert_eq!(w.list(), vec![key(1), key(2), key(3), key(4)]);
    assert_eq!(w.len(), 4);
    assert!(w.contains(&key(4)));
    assert!(!w.contains(&key(5)));
    assert_eq!(w.list_follow_derived(), vec![key(2), key(3), key(3), key(4)]);
}

#[test]
fn removing_manual_key_keeps_follow_derived_one() {
    let mut w = Whitelist::new(vec![key(1)], None);
    w.set_follow_derived(vec![key(1)]);
    assert!(w.remove(&key(1)));
    assert!(w.contains(&key(1)));
    assert!(w.list_manual().is_empty());
}

#[test]
fn follow_derived_only_whitelist_is_not_empty() {
    let mut w = Whitelist::new(vec![], None);
    w.set_follow_derived(vec![key(7)]);
    assert!(!w.is_empty());
    assert_eq!(w.len(), 1);
}

#[test]
fn persisted_whitelist_reloads() {
    let mut w = Whitelist::new(vec![key(1)], None);
    w.add(key(2));
    w.set_follow_derived(vec![key(5)]);
    let text = w.persist().unwrap();
    assert!(text.contains(&key(2).to_hex()));
    assert!(!text.contains(&key(5).to_hex()));
    let reloaded = Whitelist::new(vec![], Some(&text));
    assert_eq!(reloaded.list_manual(), vec![key(1), key(2)]);
}

#[test]
fn persisted_text_is_pretty_json_of_hex_keys() {
    let w = Whitelist::new(vec![key(0x0f)], None);
    let text = w.persist().unwrap();
    let expected = format!("[\n  \"{}\"\n]", "0f".repeat(32));
    assert_eq!(text, expected);
}

#[test]
fn reference_accounts_keep_stored_order_and_repeats() {
    let hex1 = key(1).to_hex();
    let stored = format!("[\"{}\", \"{}\", \"zz\"]", hex1, hex1);
    let r = ReferenceAccounts::new(Some(&stored));
    assert_eq!(r.list(), vec![key(1), key(1)]);
    assert_eq!(r.len(), 2);
}

#[test]
fn reference_accounts_add_remove_persist() {
    let mut r = ReferenceAccounts::new(None);
    assert_eq!(r.len(), 0);
    assert!(r.add(key(3)));
    assert!(!r.add(key(3)));
    assert!(r.add(key(4)));
    let text = r.persist().unwrap();
    let back = ReferenceAccounts::new(Some(&text));
    assert_eq!(back.list(), vec![key(3), key(4)]);
    assert!(r.remove(&key(3)));
    assert!(!r.remove(&key(3)));
    assert_eq!(r.list(), vec![key(4)]);
}

#[test]
fn follow_derived_round_trip() {
    let keys = vec![key(8), key(9)];
    let text = persist_follow_derived(&keys).unwrap();
    assert_eq!(load_follow_derived(Some(&text)), keys);
    assert!(load_follow_derived(None).is_empty());
    assert!(load_follow_derived(Some("[1, 2]")).is_empty());
}

#[test]
fn len_counts_each_key_once() {
    let mut w = Whitelist::new(vec![key(1), key(1), key(2)], None);
    assert_eq!(w.len(), 2);
    w.set_follow_derived(vec![key(2), key(3), key(3)]);
    assert_eq!(w.len(), 3);
}
