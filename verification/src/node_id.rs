//! Node ids.
use vstd::prelude::*;
use vstd::utf8::*;

use crate::error;
use crate::error::PubSubError;
use crate::hexcodec;
use crate::text;

verus! {

/// The id of a node: its public key.
pub type NodeId = [u8; 32];

/// The bytes that a node id in hex stands for, white space around it aside.
pub open spec fn id_bytes(hex_id: Seq<char>) -> Seq<u8> {
    hexcodec::hex_bytes(encode_utf8(text::trimmed(hex_id)))
}

/// Why a text is no node id.
#[derive(Debug, Clone, Copy, PartialEq, Eq, Structural)]
pub enum IdFault {
    /// It is no hex.
    NotHex,
    /// It is not of 32 bytes.
    WrongLength,
}

/// Why a text is no node id: it is no hex, or not of 32 bytes.
pub open spec fn id_problem(hex_id: Seq<char>) -> Option<IdFault> {
    if hexcodec::hex_fault(encode_utf8(text::trimmed(hex_id))) is Some {
        Some(IdFault::NotHex)
    } else if id_bytes(hex_id).len() != 32 {
        Some(IdFault::WrongLength)
    } else {
        None
    }
}

/// What is said of a text that is no node id.
pub open spec fn id_fault(hex_id: Seq<char>) -> Option<Seq<char>> {
    match id_problem(hex_id) {
        Some(IdFault::NotHex) => Some("node id is not valid hex"@),
        Some(IdFault::WrongLength) => Some("node id must be 32 bytes (64 hex chars)"@),
        None => None,
    }
}

/// Reads a node id of 64 hex characters.
pub fn read_node_id(hex_id: &str) -> (r: Result<NodeId, IdFault>)
    ensures
        match r {
            Ok(id) => id_problem(hex_id@) is None && id@ == id_bytes(hex_id@),
            Err(e) => id_problem(hex_id@) == Some(e),
        },
{
    let chars: Vec<char> = text::chars_of(hex_id);
    let (a, b): (usize, usize) = text::trim_range(&chars, 0, chars.len());
    assert(hex_id@.subrange(0, hex_id@.len() as int) =~= hex_id@);
    let bytes: Vec<u8> = match hexcodec::decode(hex_id.substring_char(a, b)) {
        Ok(bytes) => bytes,
        Err(_) => {
            return Err(IdFault::NotHex);
        },
    };
    if bytes.len() != 32 {
        return Err(IdFault::WrongLength);
    }
    let mut id: NodeId = [0;32];
    let mut i: usize = 0;
    while i < 32
        invariant
            i <= 32,
            bytes@.len() == 32,
            id@.len() == 32,
            forall|j: int| 0 <= j < i ==> id@[j] == bytes@[j],
        decreases 32 - i,
    {
        id[i] = bytes[i];
        i = i + 1;
    }
    assert(id@ =~= bytes@);
    Ok(id)
}

/// Parses a node id of 64 hex characters.
pub fn parse_node_id(hex_id: &str) -> (r: Result<NodeId, PubSubError>)
    ensures
        error::fails_with(r, id_fault(hex_id@)),
        r is Ok ==> r->Ok_0@ == id_bytes(hex_id@),
{
    match read_node_id(hex_id) {
        Ok(id) => Ok(id),
        Err(IdFault::NotHex) => Err(PubSubError::new("node id is not valid hex".to_owned())),
        Err(IdFault::WrongLength) => Err(
            PubSubError::new("node id must be 32 bytes (64 hex chars)".to_owned()),
        ),
    }
}

/// Whether two node ids are the same.
pub fn same_id(a: &NodeId, b: &NodeId) -> (r: bool)
    ensures
        r == (a@ == b@),
{
    let mut i: usize = 0;
    while i < 32
        invariant
            i <= 32,
            forall|j: int| 0 <= j < i ==> a@[j] == b@[j],
        decreases 32 - i,
    {
        if a[i] != b[i] {
            assert(a@[i as int] != b@[i as int]);
            return false;
        }
        i = i + 1;
    }
    assert(a@ =~= b@);
    true
}

/// A node id reads back from the hex that it is written in.
pub proof fn node_id_round_trips(id: Seq<u8>)
    requires
        id.len() == 32,
    ensures
        id_fault(hexcodec::hex_text(id)) is None,
        id_bytes(hexcodec::hex_text(id)) == id,
{
    let t = hexcodec::hex_text(id);
    assert(t[0] == hexcodec::hex_digit(id[0] as int / 16));
    assert(t.last() == hexcodec::hex_digit(id[31] as int % 16));
    assert(text::trimmed(t) == t);
    hexcodec::hex_round_trips(id);
}

/// A text is a node id exactly where, white space around it aside, it is 64 hexadecimal digits, of
/// either case; it then stands for 32 bytes.
pub proof fn node_ids_are_recognized(hex_id: Seq<char>)
    ensures
        ({
            let d = encode_utf8(text::trimmed(hex_id));
            id_fault(hex_id) is None <==> d.len() == 64 && forall|i: int|
                0 <= i < d.len() ==> '0' as int <= (#[trigger] d[i]) <= '9' as int || 'a' as int
                    <= d[i] <= 'f' as int || 'A' as int <= d[i] <= 'F' as int
        }),
        id_fault(hex_id) is None ==> id_bytes(hex_id).len() == 32,
{
    hexcodec::hexadecimal_text_is_recognized(encode_utf8(text::trimmed(hex_id)));
}

/// White space around a node id does not matter.
pub proof fn white_space_around_a_node_id_is_dropped(
    pre: Seq<char>,
    id: Seq<u8>,
    post: Seq<char>,
)
    requires
        id.len() == 32,
        text::all_spaces(pre),
        text::all_spaces(post),
    ensures
        id_fault(pre + hexcodec::hex_text(id) + post) is None,
        id_bytes(pre + hexcodec::hex_text(id) + post) == id,
{
    let t = hexcodec::hex_text(id);
    assert(t[0] == hexcodec::hex_digit(id[0] as int / 16));
    assert(t.last() == hexcodec::hex_digit(id[31] as int % 16));
    text::trimming_takes_the_ends(pre, t, post);
    hexcodec::hex_round_trips(id);
}

} // verus!
