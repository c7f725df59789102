//! What the command line computes: holders and expiries of tokens, attributes, and printed lines.
use vstd::prelude::*;
use vstd::utf8::*;

use crate::error;
use crate::error::PubSubError;
use crate::filter;
use crate::message::Cursor;
use crate::node_id;
use crate::node_id::{IdFault, NodeId};
use crate::text;

verus! {

/// Why the holder of a token is refused: it is no hex, or not of 32 bytes.
pub open spec fn audience_fault(audience: Option<Seq<char>>) -> Option<Seq<char>> {
    match audience {
        None => None,
        Some(a) => match node_id::id_problem(a) {
            None => None,
            Some(IdFault::NotHex) => Some("audience is not valid hex"@),
            Some(IdFault::WrongLength) => Some("audience must be 32 bytes (64 hex chars)"@),
        },
    }
}

/// The holder that a token is issued to: the owner, unless another one is given.
pub fn parse_audience(audience: &Option<String>, owner: NodeId) -> (r: Result<NodeId, PubSubError>)
    ensures
        error::fails_with(r, audience_fault(crate::message::opt_text(*audience))),
        r is Ok ==> match *audience {
            None => r->Ok_0 == owner,
            Some(a) => r->Ok_0@ == node_id::id_bytes(a@),
        },
{
    let hex_id: &String = match audience {
        None => {
            return Ok(owner);
        },
        Some(a) => a,
    };
    match node_id::read_node_id(hex_id.as_str()) {
        Ok(id) => Ok(id),
        Err(IdFault::NotHex) => Err(PubSubError::new("audience is not valid hex".to_owned())),
        Err(IdFault::WrongLength) => Err(
            PubSubError::new("audience must be 32 bytes (64 hex chars)".to_owned()),
        ),
    }
}

/// Until when a token is valid that expires `expires_in` seconds from now: 0, for ever, where that is
/// 0. `None` where that time cannot be told.
pub fn grant_expiry(now: u64, expires_in: u64) -> (r: Option<u64>)
    ensures
        r == if expires_in == 0 {
            Some(0u64)
        } else if now + expires_in <= u64::MAX {
            Some((now + expires_in) as u64)
        } else {
            None
        },
{
    if expires_in == 0 {
        Some(0)
    } else {
        now.checked_add(expires_in)
    }
}

/// Reads an attribute from `key=value`; the value may hold further `=`.
pub fn parse_attribute(s: &str) -> (r: Result<(String, String), PubSubError>)
    ensures
        ({
            let eq = filter::find_char(s@, 0, '=');
            match r {
                Ok((k, v)) => eq < s@.len() && k@ == s@.take(eq) && v@ == s@.skip(eq + 1),
                Err(e) => eq >= s@.len() && e@ == "attribute must be key=value, got '"@ + s@
                    + "'"@,
            }
        }),
{
    let chars: Vec<char> = text::chars_of(s);
    let eq: usize = filter::find(&chars, 0, '=');
    if eq >= chars.len() {
        let mut t: String = "attribute must be key=value, got '".to_owned();
        t.append(s);
        t.append("'");
        return Err(PubSubError::new(t));
    }
    let k: &str = s.substring_char(0, eq);
    let v: &str = s.substring_char(eq + 1, chars.len());
    assert(k@ =~= s@.take(eq as int));
    assert(v@ =~= s@.skip(eq + 1));
    Ok((k.to_owned(), v.to_owned()))
}

/// How many bytes of a publisher's id are shown.
pub const SHOWN_ID_BYTES: usize = 12;

/// The part of a publisher's id that is shown: its first bytes.
pub open spec fn shown_id(publisher: Seq<char>) -> Seq<char> {
    if text::byte_len(publisher) <= SHOWN_ID_BYTES {
        publisher
    } else {
        decode_utf8(encode_utf8(publisher).take(SHOWN_ID_BYTES as int))
    }
}

/// The line that shows a message. The publisher's id is cut between characters.
pub fn tail_line(cursor: Cursor, publisher: &str, body: &str) -> (s: String)
    requires
        text::byte_len(publisher@) <= SHOWN_ID_BYTES || is_char_boundary(
            encode_utf8(publisher@),
            SHOWN_ID_BYTES as int,
        ),
    ensures
        s@ == "["@ + text::decimal_text(cursor as nat) + "] "@ + shown_id(publisher@) + " :: "@
            + body@,
{
    let shown: &str = if text::len_bytes(publisher) <= SHOWN_ID_BYTES {
        publisher
    } else {
        let (head, _): (&str, &str) = publisher.split_at(SHOWN_ID_BYTES);
        proof {
            encode_utf8_decode_utf8(head@);
            assert(encode_utf8(publisher@).take(SHOWN_ID_BYTES as int) =~= encode_utf8(
                publisher@,
            ).subrange(0, SHOWN_ID_BYTES as int));
        }
        head
    };
    let mut s: String = "[".to_owned();
    s.append(text::decimal(cursor).as_str());
    s.append("] ");
    s.append(shown);
    s.append(" :: ");
    s.append(body);
    s
}

/// The holder of a token is refused exactly where one is given that is no node id.
pub proof fn holders_are_node_ids(audience: Option<Seq<char>>)
    ensures
        audience_fault(audience) is None <==> (audience matches Some(a) ==> node_id::id_fault(
            a,
        ) is None),
{
}

/// An attribute is read up to its first `=`: whatever key without `=` and whatever value are written
/// with `=` between them are read back, and a text without `=` has no such place.
pub proof fn attributes_are_read_back(k: Seq<char>, v: Seq<char>)
    requires
        !k.contains('='),
    ensures
        ({
            let s = k + seq!['='] + v;
            let eq = filter::find_char(s, 0, '=');
            eq < s.len() && s.take(eq) == k && s.skip(eq + 1) == v
        }),
        filter::find_char(k, 0, '=') >= k.len(),
{
    let s = k + seq!['='] + v;
    let n = k.len() as int;
    assert forall|j: int| 0 <= j < n implies #[trigger] k[j] != '=' by {
        assert(k.contains(k[j]));
    }
    assert forall|j: int| 0 <= j < n implies #[trigger] s[j] != '=' by {
        assert(s[j] == k[j]);
    }
    filter::characters_are_found_at_their_first_place(s, 0, '=', n);
    filter::characters_are_found_at_their_first_place(k, 0, '=', n);
    assert(s.take(n) =~= k);
    assert(s.skip(n + 1) =~= v);
}

/// Of a publisher's id in ASCII the first 12 characters are shown, or all where there are fewer.
pub proof fn first_characters_of_an_id_are_shown(publisher: Seq<char>)
    requires
        forall|i: int| 0 <= i < publisher.len() ==> '\0' <= #[trigger] publisher[i] <= '\u{7f}',
    ensures
        publisher.len() <= 12 ==> shown_id(publisher) == publisher,
        publisher.len() > 12 ==> shown_id(publisher) == publisher.take(12),
{
    is_ascii_chars_encode_utf8(publisher);
    if publisher.len() > 12 {
        let head = publisher.take(12);
        assert forall|i: int| 0 <= i < head.len() implies '\0' <= #[trigger] head[i]
            <= '\u{7f}' by {
            assert(head[i] == publisher[i]);
        }
        is_ascii_chars_encode_utf8(head);
        assert forall|i: int| 0 <= i < 12 implies encode_utf8(head)[i] == encode_utf8(
            publisher,
        )[i] by {
            assert(head[i] == publisher[i]);
        }
        assert(encode_utf8(publisher).take(12) =~= encode_utf8(head));
        encode_utf8_decode_utf8(head);
    }
}

} // verus!
