use vstd::prelude::*;
use nostr_sdk::JsonUtil;
use crate::pubkey::Pubkey;

verus! {

#[verifier::external_type_specification]
#[verifier::external_body]
pub struct ExNostrEvent(nostr_sdk::Event);

/// The fields of a signed nostr event.
pub struct EventFields {
    pub id: Seq<u8>,
    pub pubkey: Seq<u8>,
    pub created_at: u64,
    pub kind: u16,
    pub tags: Seq<Seq<Seq<char>>>,
    pub content: Seq<char>,
    pub sig: Seq<u8>,
}

/// The characters of each string of each tag.
pub open spec fn tag_views(tags: Seq<Vec<String>>) -> Seq<Seq<Seq<char>>> {
    tags.map_values(|t: Vec<String>| t@.map_values(|s: String| s@))
}

/// A nostr event as parsed from JSON, with its signature not yet checked.
pub struct SignedEvent {
    raw: nostr_sdk::Event,
    id: [u8; 32],
    pubkey: Pubkey,
    created_at: u64,
    kind: u16,
    tags: Vec<Vec<String>>,
    content: String,
    sig: [u8; 64],
}

impl View for SignedEvent {
    type V = EventFields;

    closed spec fn view(&self) -> EventFields {
        EventFields {
            id: self.id@,
            pubkey: self.pubkey@,
            created_at: self.created_at,
            kind: self.kind,
            tags: tag_views(self.tags@),
            content: self.content@,
            sig: self.sig@,
        }
    }
}

/// The event that a JSON text describes, if it describes one.
pub uninterp spec fn event_from_json(json: Seq<char>) -> Option<EventFields>;

/// Whether an event's id is the hash of its fields and its signature is the author's
/// schnorr signature of that id.
pub uninterp spec fn event_verifies(event: EventFields) -> bool;

/// `nostr::Event::from_json`: parses an event from JSON without checking its id or
/// signature; the result is named, not stated.
#[verifier::external_body]
pub(crate) fn parse_event_json(json: &str) -> (r: Option<SignedEvent>)
    ensures
        r is Some <==> event_from_json(json@) is Some,
        r matches Some(e) ==> event_from_json(json@) == Some(e@),
{
    match nostr_sdk::Event::from_json(json) {
        Ok(e) => Some(SignedEvent {
            id: e.id.to_bytes(),
            pubkey: Pubkey { bytes: e.pubkey.to_bytes() },
            created_at: e.created_at.as_secs(),
            kind: e.kind.as_u16(),
            tags: e.tags.iter().map(|t| t.as_slice().to_vec()).collect(),
            content: e.content.clone(),
            sig: e.sig.serialize(),
            raw: e,
        }),
        Err(_) => None,
    }
}

/// `nostr::Event::verify`: checks the event id and the schnorr signature; the
/// outcome is named, not stated.
#[verifier::external_body]
pub(crate) fn verify_event(event: &SignedEvent) -> (r: bool)
    ensures
        r == event_verifies(event@),
{
    event.raw.verify().is_ok()
}

impl SignedEvent {
    /// The author.
    pub fn pubkey(&self) -> (r: Pubkey)
        ensures
            r@ == self@.pubkey,
    {
        self.pubkey
    }

    /// The kind.
    pub fn kind(&self) -> (r: u16)
        ensures
            r == self@.kind,
    {
        self.kind
    }

    /// The tags.
    pub fn tags(&self) -> (r: &Vec<Vec<String>>)
        ensures
            tag_views(r@) == self@.tags,
    {
        &self.tags
    }
}

} // verus!
