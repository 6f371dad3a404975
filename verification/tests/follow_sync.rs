use relay_admin::follow_sync::{follows_from_contact_lists, ContactList};
use relay_admin::pubkey::Pubkey;

fn key(b: u8) -> Pubkey {
    Pubkey { bytes: [b; 32] }
}

fn p(k: &Pubkey) -> Vec<String> {
    vec!["p".to_string(), k.to_hex()]
}

fn list(author: u8, at: u64, tags: Vec<Vec<String>>) -> ContactList {
    ContactList { author: key(author), created_at: at, tags }
}

fn sorted(mut v: Vec<Pubkey>) -> Vec<Pubkey> {
    v.sort_by(|a, b| a.bytes.cmp(&b.bytes));
    v
}

#[test]
fn no_lists_no_follows() {
    assert!(follows_from_contact_lists(&vec![]).is_empty());
}

#[test]
fn only_the_latest_list_of_each_author_counts() {
    let lists = vec![
        list(1, 10, vec![p(&key(10))]),
        list(1, 20, vec![p(&key(11))]),
        list(2, 5, vec![p(&key(12)), p(&key(11))]),
    ];
    assert_eq!(sorted(follows_from_contact_lists(&lists)), vec![key(11), key(12)]);
}

#[test]
fn first_of_equally_recent_lists_counts() {
    let lists = vec![list(1, 20, vec![p(&key(10))]), list(1, 20, vec![p(&key(11))])];
    assert_eq!(follows_from_contact_lists(&lists), vec![key(10)]);
}

#[test]
fn only_valid_p_tags_are_follows() {
    let tags = vec![
        vec!["e".to_string(), key(20).to_hex()],
        vec!["p".to_string()],
        vec!["p".to_string(), "zz".to_string()],
        vec!["P".to_string(), key(21).to_hex()],
        vec!["p".to_string(), key(22).to_hex(), "wss://relay".to_string()],
        vec![],
    ];
    assert_eq!(follows_from_contact_lists(&vec![list(1, 1, tags)]), vec![key(22)]);
}

#[test]
fn follows_are_not_repeated() {
    let lists = vec![
        list(1, 1, vec![p(&key(30)), p(&key(30))]),
        list(2, 1, vec![p(&key(30)), p(&key(31))]),
    ];
    assert_eq!(sorted(follows_from_contact_lists(&lists)), vec![key(30), key(31)]);
}

#[test]
fn older_list_adds_no_follow() {
    let lists = vec![list(1, 20, vec![p(&key(10))]), list(2, 5, vec![p(&key(12))])];
    let mut more = vec![list(1, 10, vec![p(&key(40))])];
    more.extend(vec![list(1, 20, vec![p(&key(10))]), list(2, 5, vec![p(&key(12))])]);
    assert_eq!(sorted(follows_from_contact_lists(&more)), sorted(follows_from_contact_lists(&lists)));
}
