use vstd::prelude::*;
use crate::admin::{bearer_token, session_key, AdminState};
use crate::keys::{key_views, without_key};
use crate::pubkey::{hex_value, is_key_hex, key_from_hex_text, npub_key, npub_text, nostr_key_from_bech32, nostr_key_from_hex, Pubkey};
use crate::pruner::{PrunerConfig, PrunerStats};
use crate::reference_accounts::ReferenceAccounts;
use crate::storage::opt_text;
use crate::text::{has_prefix, hex_digit, hex_text, starts_with};
use crate::whitelist::Whitelist;

verus! {

broadcast use vstd::seq_lib::group_seq_properties;

/// Why an admin request was refused.
#[derive(Debug, Clone, Copy, PartialEq, Eq)]
pub enum ApiError {
    Unauthorized,
    InvalidNpub,
    InvalidHexPubkey,
}

/// The message of each refusal.
pub open spec fn api_error_text(e: ApiError) -> Seq<char> {
    match e {
        ApiError::Unauthorized => "Unauthorized"@,
        ApiError::InvalidNpub => "Invalid npub"@,
        ApiError::InvalidHexPubkey => "Invalid hex pubkey"@,
    }
}

impl ApiError {
    /// The HTTP status of the refusal.
    pub fn status(&self) -> (r: u16)
        ensures
            r == (if *self == ApiError::Unauthorized { 401u16 } else { 400u16 }),
    {
        match self {
            ApiError::Unauthorized => 401,
            _ => 400,
        }
    }

    /// The message of the refusal.
    pub fn message(&self) -> (r: String)
        ensures
            r@ == api_error_text(*self),
    {
        let text: &str = match self {
            ApiError::Unauthorized => "Unauthorized",
            ApiError::InvalidNpub => "Invalid npub",
            ApiError::InvalidHexPubkey => "Invalid hex pubkey",
        };
        String::from_str(text)
    }
}

/// A key as shown to admins.
#[derive(Debug, Clone, PartialEq, Eq)]
pub struct KeyEntry {
    pub hex: String,
    pub npub: String,
}

/// A key as shown to admins: its lowercase hexadecimal and `npub` texts.
pub fn key_entry(pk: &Pubkey) -> (r: KeyEntry)
    ensures
        r.hex@ == hex_text(pk@),
        r.npub@ == npub_text(pk@),
{
    KeyEntry { hex: pk.to_hex(), npub: pk.to_bech32() }
}

/// The entries of a list of keys, in order.
pub fn key_entries(keys: &Vec<Pubkey>) -> (r: Vec<KeyEntry>)
    ensures
        r@.len() == keys@.len(),
        forall|i: int| 0 <= i < keys@.len() ==> (#[trigger] r@[i]).hex@ == hex_text(keys@[i]@) && r@[i].npub@
            == npub_text(keys@[i]@),
{
    let mut out: Vec<KeyEntry> = Vec::new();
    let n = keys.len();
    for i in 0..n
        invariant
            n == keys@.len(),
            out@.len() == i,
            forall|j: int| 0 <= j < i ==> (#[trigger] out@[j]).hex@ == hex_text(keys@[j]@) && out@[j].npub@
                == npub_text(keys@[j]@),
    {
        out.push(key_entry(&keys[i]));
    }
    out
}

/// The key that an admin typed: nip19 `npub` text where it begins with `npub`,
/// 64 hexadecimal digits otherwise.
pub open spec fn typed_key(text: Seq<char>) -> Result<Seq<u8>, ApiError> {
    if has_prefix(text, "npub"@) {
        match npub_key(text) {
            Some(k) => Ok(k),
            None => Err(ApiError::InvalidNpub),
        }
    } else if is_key_hex(text) {
        Ok(key_from_hex_text(text))
    } else {
        Err(ApiError::InvalidHexPubkey)
    }
}

/// The key that 64 hexadecimal digits in a request path stand for.
pub open spec fn path_key(text: Seq<char>) -> Result<Seq<u8>, ApiError> {
    if is_key_hex(text) {
        Ok(key_from_hex_text(text))
    } else {
        Err(ApiError::InvalidHexPubkey)
    }
}

/// The text with its ASCII lowercase letters made capitals.
pub open spec fn ascii_upper(text: Seq<char>) -> Seq<char> {
    text.map_values(|c: char| if 'a' <= c && c <= 'z' { ((c as int) - 32) as char } else { c })
}

/// The text with its ASCII capitals made lowercase.
pub open spec fn ascii_lower(text: Seq<char>) -> Seq<char> {
    text.map_values(|c: char| if 'A' <= c && c <= 'Z' { ((c as int) + 32) as char } else { c })
}

/// The case of the letters in a path key does not matter: the text in capitals, in
/// lowercase or as typed parses to the same key, or is refused alike.
pub proof fn lemma_path_key_ignores_case(text: Seq<char>)
    ensures
        path_key(ascii_upper(text)) == path_key(text),
        path_key(ascii_lower(text)) == path_key(text),
{
    let up = ascii_upper(text);
    let low = ascii_lower(text);
    assert forall|i: int| 0 <= i < text.len() implies hex_value(#[trigger] up[i]) == hex_value(text[i])
        && hex_value(low[i]) == hex_value(text[i]) by {}
    if is_key_hex(text) {
        assert(key_from_hex_text(up) =~= key_from_hex_text(text));
        assert(key_from_hex_text(low) =~= key_from_hex_text(text));
    } else {
        if is_key_hex(up) {
            assert forall|i: int| 0 <= i < 64 implies hex_value(#[trigger] text[i]) >= 0 by {
                assert(hex_value(up[i]) >= 0);
            }
        }
        if is_key_hex(low) {
            assert forall|i: int| 0 <= i < 64 implies hex_value(#[trigger] text[i]) >= 0 by {
                assert(hex_value(low[i]) >= 0);
            }
        }
    }
}

/// Every key's lowercase hexadecimal text (`Pubkey::to_hex`) parses back to it as a
/// path key, and so does that text in capitals.
pub proof fn lemma_path_key_reads_hex_back(key: Seq<u8>)
    requires
        key.len() == 32,
    ensures
        path_key(hex_text(key)) == Ok::<Seq<u8>, ApiError>(key),
        path_key(ascii_upper(hex_text(key))) == Ok::<Seq<u8>, ApiError>(key),
{
    let t = hex_text(key);
    assert forall|i: int| 0 <= i < 64 implies hex_value(#[trigger] t[i]) >= 0 by {
        lemma_hex_digit_value(key[i / 2] as int / 16);
        lemma_hex_digit_value(key[i / 2] as int % 16);
    }
    assert forall|j: int| 0 <= j < 32 implies #[trigger] key_from_hex_text(t)[j] == key[j] by {
        lemma_hex_digit_value(key[j] as int / 16);
        lemma_hex_digit_value(key[j] as int % 16);
        assert(t[2 * j] == hex_digit(key[j] as int / 16));
        assert(t[2 * j + 1] == hex_digit(key[j] as int % 16));
    }
    assert(key_from_hex_text(t) =~= key);
    lemma_path_key_ignores_case(t);
}

/// A hexadecimal digit is read back as the value it was written for.
proof fn lemma_hex_digit_value(n: int)
    requires
        0 <= n < 16,
    ensures
        hex_value(hex_digit(n)) == n,
{
}

/// Whether a parse result is the given key result.
pub open spec fn parsed_as(r: Result<Pubkey, ApiError>, expected: Result<Seq<u8>, ApiError>) -> bool {
    match r {
        Ok(k) => expected == Ok::<Seq<u8>, ApiError>(k@),
        Err(e) => expected == Err::<Seq<u8>, ApiError>(e),
    }
}

/// Parses the key an admin typed (`npub` text or hexadecimal).
pub fn parse_pubkey_input(text: &str) -> (r: Result<Pubkey, ApiError>)
    ensures
        parsed_as(r, typed_key(text@)),
{
    let prefix: &str = "npub";
    if starts_with(text, prefix) {
        match nostr_key_from_bech32(text) {
            Some(k) => Ok(k),
            None => Err(ApiError::InvalidNpub),
        }
    } else {
        match nostr_key_from_hex(text) {
            Some(k) => Ok(k),
            None => Err(ApiError::InvalidHexPubkey),
        }
    }
}

/// Parses a hexadecimal key from a request path.
pub fn parse_path_pubkey(text: &str) -> (r: Result<Pubkey, ApiError>)
    ensures
        parsed_as(r, path_key(text@)),
{
    match nostr_key_from_hex(text) {
        Some(k) => Ok(k),
        None => Err(ApiError::InvalidHexPubkey),
    }
}

/// Whether the `Authorization` header opens an admin session at `now`.
pub open spec fn authorized(admin: &AdminState, authorization: Option<&str>, now: u64) -> bool {
    session_key(admin.sessions(), bearer_token(opt_text(authorization)), now) is Some
}

/// Refuses a request whose `Authorization` header opens no admin session at `now`.
pub fn require_session(admin: &AdminState, authorization: Option<&str>, now: u64) -> (r: Result<Pubkey, ApiError>)
    ensures
        r is Ok <==> authorized(admin, authorization, now),
        r matches Ok(k) ==> session_key(admin.sessions(), bearer_token(opt_text(authorization)), now) == Some(k@),
        r matches Err(e) ==> e == ApiError::Unauthorized,
{
    match admin.validate_session(authorization, now) {
        Some(k) => Ok(k),
        None => Err(ApiError::Unauthorized),
    }
}

/// What a session check answers.
#[derive(Debug, Clone, PartialEq, Eq)]
pub struct SessionCheck {
    pub valid: bool,
    pub pubkey: Option<String>,
}

/// Whether the `Authorization` header opens a session at `now`, and for which key.
pub fn session_check(admin: &AdminState, authorization: Option<&str>, now: u64) -> (r: SessionCheck)
    ensures
        r.valid == authorized(admin, authorization, now),
        match session_key(admin.sessions(), bearer_token(opt_text(authorization)), now) {
            Some(k) => r.pubkey matches Some(p) && p@ == hex_text(k),
            None => r.pubkey is None,
        },
{
    match admin.validate_session(authorization, now) {
        Some(k) => SessionCheck { valid: true, pubkey: Some(k.to_hex()) },
        None => SessionCheck { valid: false, pubkey: None },
    }
}

/// Lists the whitelist for an admin.
pub fn whitelist_list(admin: &AdminState, whitelist: &Whitelist, authorization: Option<&str>, now: u64) -> (r: Result<
    Vec<KeyEntry>,
    ApiError,
>)
    ensures
        r is Err <==> !authorized(admin, authorization, now),
        r matches Err(e) ==> e == ApiError::Unauthorized,
        r matches Ok(entries) ==> entries@.len() == whitelist.listed_keys().len() && forall|i: int|
            0 <= i < entries@.len() ==> (#[trigger] entries@[i]).hex@ == hex_text(whitelist.listed_keys()[i])
                && entries@[i].npub@ == npub_text(whitelist.listed_keys()[i]),
{
    require_session(admin, authorization, now)?;
    let keys = whitelist.list();
    let entries = key_entries(&keys);
    assert forall|i: int| 0 <= i < keys@.len() implies key_views(keys@)[i] == keys@[i]@ by {}
    Ok(entries)
}

/// Adds a typed key to the whitelist by hand for an admin. Returns the key's entry and
/// whether it was new, which is when the whitelist is to be stored again.
pub fn whitelist_add(admin: &AdminState, whitelist: &mut Whitelist, authorization: Option<&str>, input: &str, now: u64) -> (r: Result<
    (KeyEntry, bool),
    ApiError,
>)
    ensures
        !authorized(admin, authorization, now) ==> r == Err::<(KeyEntry, bool), ApiError>(ApiError::Unauthorized),
        authorized(admin, authorization, now) ==> match typed_key(input@) {
            Err(e) => r == Err::<(KeyEntry, bool), ApiError>(e),
            Ok(k) => r matches Ok((entry, added)) && entry.hex@ == hex_text(k) && entry.npub@ == npub_text(k)
                && added == !old(whitelist).manual_keys().contains(k),
        },
        final(whitelist).manual_keys() == (match r {
            Ok((_, added)) => if added {
                old(whitelist).manual_keys().push(typed_key(input@)->Ok_0)
            } else {
                old(whitelist).manual_keys()
            },
            Err(_) => old(whitelist).manual_keys(),
        }),
        final(whitelist).follow_keys() == old(whitelist).follow_keys(),
{
    require_session(admin, authorization, now)?;
    let pk = parse_pubkey_input(input)?;
    let added = whitelist.add(pk);
    Ok((key_entry(&pk), added))
}

/// Removes a key given in the request path from the manual whitelist for an admin.
/// Returns whether it was there, which is when the whitelist is to be stored again.
pub fn whitelist_remove(admin: &AdminState, whitelist: &mut Whitelist, authorization: Option<&str>, hex: &str, now: u64) -> (r: Result<
    bool,
    ApiError,
>)
    ensures
        !authorized(admin, authorization, now) ==> r == Err::<bool, ApiError>(ApiError::Unauthorized),
        authorized(admin, authorization, now) ==> match path_key(hex@) {
            Err(e) => r == Err::<bool, ApiError>(e),
            Ok(k) => r == Ok::<bool, ApiError>(old(whitelist).manual_keys().contains(k)),
        },
        final(whitelist).manual_keys() == (match r {
            Ok(_) => without_key(old(whitelist).manual_keys(), path_key(hex@)->Ok_0),
            Err(_) => old(whitelist).manual_keys(),
        }),
        final(whitelist).follow_keys() == old(whitelist).follow_keys(),
{
    require_session(admin, authorization, now)?;
    let pk = parse_path_pubkey(hex)?;
    Ok(whitelist.remove(&pk))
}

/// Lists the reference accounts for an admin.
pub fn reference_accounts_list(admin: &AdminState, accounts: &ReferenceAccounts, authorization: Option<&str>, now: u64) -> (r: Result<
    Vec<KeyEntry>,
    ApiError,
>)
    ensures
        r is Err <==> !authorized(admin, authorization, now),
        r matches Err(e) ==> e == ApiError::Unauthorized,
        r matches Ok(entries) ==> entries@.len() == accounts.keys().len() && forall|i: int|
            0 <= i < entries@.len() ==> (#[trigger] entries@[i]).hex@ == hex_text(accounts.keys()[i])
                && entries@[i].npub@ == npub_text(accounts.keys()[i]),
{
    require_session(admin, authorization, now)?;
    let keys = accounts.list();
    let entries = key_entries(&keys);
    assert forall|i: int| 0 <= i < keys@.len() implies key_views(keys@)[i] == keys@[i]@ by {}
    Ok(entries)
}

/// Adds a typed key as a reference account for an admin. Returns its entry and
/// whether it was new, which is when the accounts are to be stored again and the
/// follows synced.
pub fn reference_accounts_add(admin: &AdminState, accounts: &mut ReferenceAccounts, authorization: Option<&str>, input: &str, now: u64) -> (r: Result<
    (KeyEntry, bool),
    ApiError,
>)
    ensures
        !authorized(admin, authorization, now) ==> r == Err::<(KeyEntry, bool), ApiError>(ApiError::Unauthorized),
        authorized(admin, authorization, now) ==> match typed_key(input@) {
            Err(e) => r == Err::<(KeyEntry, bool), ApiError>(e),
            Ok(k) => r matches Ok((entry, added)) && entry.hex@ == hex_text(k) && entry.npub@ == npub_text(k)
                && added == !old(accounts).keys().contains(k),
        },
        final(accounts).keys() == (match r {
            Ok((_, added)) => if added {
                old(accounts).keys().push(typed_key(input@)->Ok_0)
            } else {
                old(accounts).keys()
            },
            Err(_) => old(accounts).keys(),
        }),
{
    require_session(admin, authorization, now)?;
    let pk = parse_pubkey_input(input)?;
    let added = accounts.add(pk);
    Ok((key_entry(&pk), added))
}

/// Removes a reference account given in the request path for an admin. Returns
/// whether it was there, which is when the accounts are to be stored again.
pub fn reference_accounts_remove(admin: &AdminState, accounts: &mut ReferenceAccounts, authorization: Option<&str>, hex: &str, now: u64) -> (r: Result<
    bool,
    ApiError,
>)
    ensures
        !authorized(admin, authorization, now) ==> r == Err::<bool, ApiError>(ApiError::Unauthorized),
        authorized(admin, authorization, now) ==> match path_key(hex@) {
            Err(e) => r == Err::<bool, ApiError>(e),
            Ok(k) => r == Ok::<bool, ApiError>(old(accounts).keys().contains(k)),
        },
        final(accounts).keys() == (match r {
            Ok(_) => without_key(old(accounts).keys(), path_key(hex@)->Ok_0),
            Err(_) => old(accounts).keys(),
        }),
{
    require_session(admin, authorization, now)?;
    let pk = parse_path_pubkey(hex)?;
    Ok(accounts.remove(&pk))
}

/// What a follow sync request leads to: nothing to do without reference accounts,
/// otherwise a sync of the follows of these accounts.
pub fn reference_accounts_sync_plan(admin: &AdminState, accounts: &ReferenceAccounts, authorization: Option<&str>, now: u64) -> (r: Result<
    Option<Vec<Pubkey>>,
    ApiError,
>)
    ensures
        r is Err <==> !authorized(admin, authorization, now),
        r matches Err(e) ==> e == ApiError::Unauthorized,
        r matches Ok(plan) ==> match plan {
            None => accounts.keys().len() == 0,
            Some(refs) => accounts.keys().len() > 0 && key_views(refs@) == accounts.keys(),
        },
{
    require_session(admin, authorization, now)?;
    let refs = accounts.list();
    if refs.len() == 0 {
        return Ok(None);
    }
    Ok(Some(refs))
}

/// Makes the synced follows the whitelist's follow-derived keys; returns how many
/// there are.
pub fn apply_follow_sync(whitelist: &mut Whitelist, follows: Vec<Pubkey>) -> (r: usize)
    ensures
        r == follows@.len(),
        final(whitelist).follow_keys() == key_views(follows@),
        final(whitelist).manual_keys() == old(whitelist).manual_keys(),
{
    let count = follows.len();
    whitelist.set_follow_derived(follows);
    count
}

/// The sum of a list of counts.
pub open spec fn count_sum(s: Seq<usize>) -> int
    decreases s.len(),
{
    if s.len() == 0 {
        0
    } else {
        count_sum(s.drop_last()) + s.last()
    }
}

/// The relay's figures for admins.
#[derive(Debug, Clone, PartialEq, Eq)]
pub struct StatsResponse {
    pub active_connections: usize,
    pub total_groups: usize,
    pub total_members: usize,
    pub whitelisted_count: usize,
    pub uptime_seconds: u64,
}

/// The relay's figures for an admin: the groups (one member count per group), their
/// members in all, the whitelisted keys, and the figures given.
pub fn stats(
    admin: &AdminState,
    whitelist: &Whitelist,
    authorization: Option<&str>,
    now: u64,
    member_counts: &Vec<usize>,
    active_connections: usize,
    uptime_seconds: u64,
) -> (r: Result<StatsResponse, ApiError>)
    requires
        count_sum(member_counts@) <= usize::MAX,
    ensures
        r is Err <==> !authorized(admin, authorization, now),
        r matches Err(e) ==> e == ApiError::Unauthorized,
        r matches Ok(s) ==> s.active_connections == active_connections && s.total_groups == member_counts@.len()
            && s.total_members == count_sum(member_counts@) && s.whitelisted_count == whitelist.distinct_count()
            && s.uptime_seconds == uptime_seconds,
{
    require_session(admin, authorization, now)?;
    let mut total_members: usize = 0;
    let mut total_groups: usize = 0;
    let n = member_counts.len();
    for i in 0..n
        invariant
            n == member_counts@.len(),
            count_sum(member_counts@) <= usize::MAX,
            total_groups == i,
            total_members == count_sum(member_counts@.subrange(0, i as int)),
    {
        proof {
            let sub = member_counts@.subrange(0, i + 1);
            assert(sub.drop_last() =~= member_counts@.subrange(0, i as int));
            lemma_count_sum_prefix(member_counts@, i + 1);
        }
        total_groups = total_groups + 1;
        total_members = total_members + member_counts[i];
    }
    assert(member_counts@.subrange(0, n as int) =~= member_counts@);
    Ok(StatsResponse {
        active_connections,
        total_groups,
        total_members,
        whitelisted_count: whitelist.len(),
        uptime_seconds,
    })
}

/// A prefix of a list of counts sums to no more than the whole.
pub proof fn lemma_count_sum_prefix(s: Seq<usize>, i: int)
    requires
        0 <= i <= s.len(),
    ensures
        count_sum(s.subrange(0, i)) <= count_sum(s),
    decreases s.len() - i,
{
    if i < s.len() {
        lemma_count_sum_prefix(s, i + 1);
        let sub = s.subrange(0, i + 1);
        assert(sub.drop_last() =~= s.subrange(0, i));
    } else {
        assert(s.subrange(0, i) =~= s);
    }
}

/// The nips the relay supports.
pub open spec fn supported_nips() -> Seq<u16> {
    seq![1u16, 9u16, 11u16, 29u16, 40u16, 42u16, 70u16]
}

/// What the relay tells the public about itself.
#[derive(Debug, Clone, PartialEq, Eq)]
pub struct RelayInfoResponse {
    pub name: String,
    pub description: String,
    pub group_count: usize,
    pub supported_nips: Vec<u16>,
}

/// The relay's public description, with the nips it supports.
pub fn relay_info(name: String, description: String, group_count: usize) -> (r: RelayInfoResponse)
    ensures
        r.name == name,
        r.description == description,
        r.group_count == group_count,
        r.supported_nips@ == supported_nips(),
{
    let nips = vec![1u16, 9u16, 11u16, 29u16, 40u16, 42u16, 70u16];
    assert(nips@ =~= supported_nips());
    RelayInfoResponse { name, description, group_count, supported_nips: nips }
}

/// The pruner's settings and totals as shown to the public.
#[derive(Debug, Clone, PartialEq, Eq)]
pub struct RetentionStatus {
    pub enabled: bool,
    pub retention_secs: Option<u64>,
    pub interval_secs: Option<u64>,
    pub prune_kinds: Option<Vec<u16>>,
    pub total_pruned: u64,
    pub runs: u64,
    pub last_run_unix: i64,
}

/// The pruner's status: its settings where it is enabled, and its totals where it has
/// any (zero otherwise).
pub fn retention_status(config: Option<&PrunerConfig>, stats: Option<&PrunerStats>) -> (r: RetentionStatus)
    ensures
        r.enabled == (config is Some),
        match config {
            Some(c) => {
                &&& r.retention_secs == Some(c.retention.secs)
                &&& r.interval_secs == Some(c.interval.secs)
                &&& r.prune_kinds matches Some(k) && k@ == c.kinds@
            },
            None => r.retention_secs is None && r.interval_secs is None && r.prune_kinds is None,
        },
        match stats {
            Some(s) => r.total_pruned == s.total_pruned && r.runs == s.runs && r.last_run_unix == s.last_run_unix,
            None => r.total_pruned == 0 && r.runs == 0 && r.last_run_unix == 0,
        },
{
    let (enabled, retention_secs, interval_secs, prune_kinds) = match config {
        Some(c) => (true, Some(c.retention.secs), Some(c.interval.secs), Some(c.kinds_as_u16())),
        None => (false, None, None, None),
    };
    let (total_pruned, runs, last_run_unix) = match stats {
        Some(s) => (s.total_pruned, s.runs, s.last_run_unix),
        None => (0, 0, 0),
    };
    RetentionStatus { enabled, retention_secs, interval_secs, prune_kinds, total_pruned, runs, last_run_unix }
}

/// How many events to show of a group: 100 by default, at most 500.
pub fn group_events_limit(limit: Option<usize>) -> (r: usize)
    ensures
        r == (match limit {
            Some(l) => if l < 500 { l } else { 500 },
            None => 100,
        }),
{
    let l = match limit {
        Some(l) => l,
        None => 100,
    };
    if l < 500 {
        l
    } else {
        500
    }
}

/// The fields of a stored event as read from its JSON, each where present with the
/// right JSON type.
#[derive(Debug, Clone)]
pub struct EventRow {
    pub id: Option<String>,
    pub pubkey: Option<String>,
    pub kind: Option<u64>,
    pub content: Option<String>,
    pub created_at: Option<u64>,
}

/// An event as shown to admins.
#[derive(Debug, Clone, PartialEq, Eq)]
pub struct EventInfo {
    pub id: String,
    pub pubkey: String,
    pub kind: u64,
    pub content: String,
    pub created_at: u64,
}

/// Whether a row has all its fields.
pub open spec fn row_complete(row: EventRow) -> bool {
    row.id is Some && row.pubkey is Some && row.kind is Some && row.content is Some && row.created_at is Some
}

/// Whether an event shows a row.
pub open spec fn shows_row(info: EventInfo, row: EventRow) -> bool {
    &&& row.id matches Some(id) && id@ == info.id@
    &&& row.pubkey matches Some(pk) && pk@ == info.pubkey@
    &&& row.kind == Some(info.kind)
    &&& row.content matches Some(c) && c@ == info.content@
    &&& row.created_at == Some(info.created_at)
}

/// The complete rows as events, in order; rows missing a field are skipped.
pub fn event_infos(rows: Vec<EventRow>) -> (r: Vec<EventInfo>)
    ensures
        r@.len() == rows@.filter(|row: EventRow| row_complete(row)).len(),
        forall|i: int| 0 <= i < r@.len() ==> shows_row(#[trigger] r@[i], rows@.filter(|row: EventRow| row_complete(row))[i]),
{
    let ghost p = |row: EventRow| row_complete(row);
    let mut out: Vec<EventInfo> = Vec::new();
    let n = rows.len();
    for i in 0..n
        invariant
            n == rows@.len(),
            p == (|row: EventRow| row_complete(row)),
            out@.len() == rows@.subrange(0, i as int).filter(p).len(),
            forall|j: int| 0 <= j < out@.len() ==> shows_row(#[trigger] out@[j], rows@.subrange(0, i as int).filter(p)[j]),
    {
        let row = &rows[i];
        let ghost before = out@;
        proof {
            assert(rows@.subrange(0, i + 1) =~= rows@.subrange(0, i as int).push(rows@[i as int]));
            rows@.subrange(0, i as int).lemma_filter_push(rows@[i as int], p);
        }
        match (&row.id, &row.pubkey, row.kind, &row.content, row.created_at) {
            (Some(id), Some(pubkey), Some(kind), Some(content), Some(created_at)) => {
                out.push(EventInfo { id: id.clone(), pubkey: pubkey.clone(), kind, content: content.clone(), created_at });
                assert forall|j: int| 0 <= j < out@.len() implies shows_row(#[trigger] out@[j], rows@.subrange(0, i + 1).filter(p)[j]) by {
                    if j < before.len() {
                        assert(out@[j] == before[j]);
                    }
                }
            },
            _ => {},
        }
    }
    assert(rows@.subrange(0, n as int) =~= rows@);
    out
}

/// The fields of a group member as read from JSON, each where present with the right
/// JSON type; a role that is not a string is `None`.
#[derive(Debug, Clone)]
pub struct MemberRow {
    pub pubkey: Option<String>,
    pub roles: Option<Vec<Option<String>>>,
}

/// A group member as shown to admins.
#[derive(Debug, Clone, PartialEq, Eq)]
pub struct MemberInfo {
    pub pubkey: String,
    pub roles: Vec<String>,
}

/// The string roles, in order.
pub open spec fn string_roles(roles: Seq<Option<String>>) -> Seq<Seq<char>>
    decreases roles.len(),
{
    if roles.len() == 0 {
        seq![]
    } else {
        let prev = string_roles(roles.drop_last());
        match roles.last() {
            Some(r) => prev.push(r@),
            None => prev,
        }
    }
}

/// The roles that are strings, in order.
fn keep_string_roles(roles: &Vec<Option<String>>) -> (r: Vec<String>)
    ensures
        crate::json::string_views(r@) == string_roles(roles@),
{
    let mut out: Vec<String> = Vec::new();
    let n = roles.len();
    for i in 0..n
        invariant
            n == roles@.len(),
            crate::json::string_views(out@) == string_roles(roles@.subrange(0, i as int)),
    {
        let ghost before = out@;
        let sub = Ghost(roles@.subrange(0, i + 1));
        assert(sub@.drop_last() =~= roles@.subrange(0, i as int));
        match &roles[i] {
            Some(role) => {
                out.push(role.clone());
                assert(crate::json::string_views(out@) =~= crate::json::string_views(before).push(role@));
            },
            None => {},
        }
    }
    assert(roles@.subrange(0, n as int) =~= roles@);
    out
}

/// Whether a member row has a key and a role list.
pub open spec fn member_complete(row: MemberRow) -> bool {
    row.pubkey is Some && row.roles is Some
}

/// The members with a key and a role list, in order, each with its string roles.
pub fn member_infos(rows: Vec<MemberRow>) -> (r: Vec<MemberInfo>)
    ensures
        r@.len() == rows@.filter(|row: MemberRow| member_complete(row)).len(),
        forall|i: int| 0 <= i < r@.len() ==> {
            let row = rows@.filter(|row: MemberRow| member_complete(row))[i];
            &&& row.pubkey matches Some(pk) && pk@ == (#[trigger] r@[i]).pubkey@
            &&& row.roles matches Some(roles) && crate::json::string_views(r@[i].roles@) == string_roles(roles@)
        },
{
    let ghost p = |row: MemberRow| member_complete(row);
    let mut out: Vec<MemberInfo> = Vec::new();
    let n = rows.len();
    for i in 0..n
        invariant
            n == rows@.len(),
            p == (|row: MemberRow| member_complete(row)),
            out@.len() == rows@.subrange(0, i as int).filter(p).len(),
            forall|j: int| 0 <= j < out@.len() ==> {
                let row = rows@.subrange(0, i as int).filter(p)[j];
                &&& row.pubkey matches Some(pk) && pk@ == (#[trigger] out@[j]).pubkey@
                &&& row.roles matches Some(roles) && crate::json::string_views(out@[j].roles@) == string_roles(roles@)
            },
    {
        let row = &rows[i];
        let ghost before = out@;
        proof {
            assert(rows@.subrange(0, i + 1) =~= rows@.subrange(0, i as int).push(rows@[i as int]));
            rows@.subrange(0, i as int).lemma_filter_push(rows@[i as int], p);
        }
        match (&row.pubkey, &row.roles) {
            (Some(pubkey), Some(roles)) => {
                let kept = keep_string_roles(roles);
                out.push(MemberInfo { pubkey: pubkey.clone(), roles: kept });
                assert forall|j: int| 0 <= j < out@.len() implies {
                    let row = rows@.subrange(0, i + 1).filter(p)[j];
                    &&& row.pubkey matches Some(pk) && pk@ == (#[trigger] out@[j]).pubkey@
                    &&& row.roles matches Some(roles) && crate::json::string_views(out@[j].roles@) == string_roles(roles@)
                } by {
                    if j < before.len() {
                        assert(out@[j] == before[j]);
                    }
                }
            },
            _ => {},
        }
    }
    assert(rows@.subrange(0, n as int) =~= rows@);
    out
}

} // verus!
