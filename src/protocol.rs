//! What travels over the tunnel: frames, the command frame that carries a
//! correlation id to an agent, and the checks on identifiers and answers.

use vstd::prelude::*;

verus! {

/// One inbound frame of a tunnel connection.
pub enum Frame {
    Text(String),
    Binary(Vec<u8>),
    Ping(Vec<u8>),
    Pong(Vec<u8>),
    Close,
}

pub open spec fn is_token_char(c: char) -> bool {
    ('0' <= c && c <= '9') || ('a' <= c && c <= 'z') || ('A' <= c && c <= 'Z') || c == '-'
}

/// A correlation id as it may stand in a command frame: letters, digits and
/// hyphens, at least one of them.
pub open spec fn is_token(s: Seq<char>) -> bool {
    s.len() > 0 && forall|i: int| 0 <= i < s.len() ==> is_token_char(#[trigger] s[i])
}

pub open spec fn is_lower_hex(c: char) -> bool {
    ('0' <= c && c <= '9') || ('a' <= c && c <= 'f')
}

/// The hyphenated text form of a UUID.
pub open spec fn is_uuid_text(s: Seq<char>) -> bool {
    &&& s.len() == 36
    &&& forall|i: int|
        0 <= i < 36 ==> if i == 8 || i == 13 || i == 18 || i == 23 {
            #[trigger] s[i] == '-'
        } else {
            is_lower_hex(s[i])
        }
}

pub proof fn lemma_uuid_text_is_token(s: Seq<char>)
    requires
        is_uuid_text(s),
    ensures
        is_token(s),
{
    assert forall|i: int| 0 <= i < s.len() implies is_token_char(#[trigger] s[i]) by {
        if i == 8 || i == 13 || i == 18 || i == 23 {
        } else {
            assert(is_lower_hex(s[i]));
        }
    }
}

/// Relies on uuid::Uuid::new_v4 and the Display impl of uuid::Uuid, which
/// writes the lowercase hyphenated form. The value itself is random.
#[verifier::external_body]
pub(crate) fn fresh_uuid() -> (r: String)
    ensures
        is_uuid_text(r@),
{
    uuid::Uuid::new_v4().to_string()
}

/// Whether serde_json::from_slice accepts the bytes as a serde_json::Value.
pub uninterp spec fn json_well_formed(b: Seq<u8>) -> bool;

/// Relies on serde_json::from_slice into serde_json::Value: whether it accepts
/// the bytes as a `Value` depends on the bytes alone.
#[verifier::external_body]
pub(crate) fn is_json(b: &[u8]) -> (r: bool)
    ensures
        r == json_well_formed(b@),
{
    serde_json::from_slice::<serde_json::Value>(b).is_ok()
}

pub open spec fn command_prefix() -> Seq<char> {
    seq!['{', '"', 'r', 'e', 'q', 'u', 'e', 's', 't', '_', 'i', 'd', '"', ':', '"']
}

pub open spec fn command_suffix() -> Seq<char> {
    seq!['"', '}']
}

/// The command frame that asks an agent to answer correlation id `id`:
/// `{"request_id":"<id>"}`.
pub open spec fn command_frame(id: Seq<char>) -> Seq<char> {
    command_prefix() + id + command_suffix()
}

/// The id that a command frame carries.
pub open spec fn command_id(t: Seq<char>) -> Seq<char> {
    t.subrange(15, t.len() - 2)
}

/// A command frame around a well-formed id.
pub open spec fn is_command(t: Seq<char>) -> bool {
    &&& t.len() >= 17
    &&& t.subrange(0, 15) == command_prefix()
    &&& t.subrange(t.len() - 2, t.len() as int) == command_suffix()
    &&& is_token(command_id(t))
}

fn prefix_text() -> (r: &'static str)
    ensures
        r@ == command_prefix(),
{
    proof {
        reveal_strlit("{\"request_id\":\"");
    }
    let r = "{\"request_id\":\"";
    assert(r@ =~= command_prefix());
    r
}

fn suffix_text() -> (r: &'static str)
    ensures
        r@ == command_suffix(),
{
    proof {
        reveal_strlit("\"}");
    }
    let r = "\"}";
    assert(r@ =~= command_suffix());
    r
}

/// The command frame for correlation id `id`. The id is written as it is,
/// which is sound JSON because a token needs no escaping.
pub fn encode_command(id: &str) -> (r: String)
    requires
        is_token(id@),
    ensures
        r@ == command_frame(id@),
{
    let mut r = String::from_str(prefix_text());
    r.append(id);
    r.append(suffix_text());
    r
}

fn is_token_char_exec(c: char) -> (r: bool)
    ensures
        r == is_token_char(c),
{
    ('0' <= c && c <= '9') || ('a' <= c && c <= 'z') || ('A' <= c && c <= 'Z') || c == '-'
}

/// Reads the correlation id out of a command frame; `None` on any other text.
/// Only the compact form that `encode_command` writes is accepted, with an id
/// made of letters, digits and hyphens: no whitespace, no escapes, no other
/// fields.
pub fn decode_command(text: &str) -> (r: Option<String>)
    ensures
        r.is_some() == is_command(text@),
        r matches Some(id) ==> id@ == command_id(text@),
{
    let n = text.unicode_len();
    if n < 17 {
        return None;
    }
    let prefix = prefix_text();
    let suffix = suffix_text();
    let mut i: usize = 0;
    while i < 15
        invariant
            i <= 15,
            n == text@.len(),
            n >= 17,
            prefix@ == command_prefix(),
            text@.subrange(0, i as int) == command_prefix().subrange(0, i as int),
        decreases 15 - i,
    {
        if text.get_char(i) != prefix.get_char(i) {
            assert(text@.subrange(0, 15)[i as int] != command_prefix()[i as int]);
            return None;
        }
        assert(text@.subrange(0, i + 1) =~= command_prefix().subrange(0, i + 1));
        i = i + 1;
    }
    assert(command_prefix().subrange(0, 15) =~= command_prefix());
    if text.get_char(n - 2) != suffix.get_char(0) || text.get_char(n - 1) != suffix.get_char(1) {
        assert(text@.subrange(n - 2, n as int)[0] == text@[n - 2]);
        assert(text@.subrange(n - 2, n as int)[1] == text@[n - 1]);
        return None;
    }
    assert(text@.subrange(n - 2, n as int) =~= command_suffix());
    let ghost id = command_id(text@);
    let mut j: usize = 15;
    while j < n - 2
        invariant
            15 <= j <= n - 2,
            n == text@.len(),
            n >= 17,
            id == command_id(text@),
            forall|k: int| 0 <= k < j - 15 ==> is_token_char(#[trigger] id[k]),
        decreases n - 2 - j,
    {
        let c = text.get_char(j);
        assert(id[j - 15] == c);
        if !is_token_char_exec(c) {
            return None;
        }
        j = j + 1;
    }
    if n == 17 {
        return None;
    }
    let found = text.substring_char(15, n - 2);
    Some(found.to_owned())
}

/// Reading back a command frame gives the id it was written for.
pub proof fn lemma_command_round_trip(id: Seq<char>)
    requires
        is_token(id),
    ensures
        is_command(command_frame(id)),
        command_id(command_frame(id)) == id,
{
    let t = command_frame(id);
    assert(t.subrange(0, 15) =~= command_prefix());
    assert(t.subrange(t.len() - 2, t.len() as int) =~= command_suffix());
    assert(command_id(t) =~= id);
}

} // verus!
