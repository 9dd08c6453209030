use vstd::bytes::*;
use vstd::prelude::*;
use vstd::slice::slice_subrange;

use crate::protocol::{ClientMessage, ClientMessageModel, ServerMessage};
use crate::roster::{has_id, ids_unique, lemma_map_of_dom, Roster};

verus! {

// The wire format. Every message starts with one tag byte naming its variant;
// the fields follow in order. Integers are little-endian; an `i32` travels as
// its two's-complement bits. A text is its number of chars as a `u64`, then
// each char's code as a `u32`.

pub open spec fn u32_le(v: u32) -> Seq<u8> {
    spec_u32_to_le_bytes(v)
}

pub open spec fn u64_le(v: u64) -> Seq<u8> {
    spec_u64_to_le_bytes(v)
}

/// The two's-complement bits of `x`.
pub open spec fn bits_of(x: i32) -> u32 {
    if x >= 0 {
        x as u32
    } else {
        (x + 0x1_0000_0000) as u32
    }
}

/// The `i32` whose two's-complement bits are `v`.
pub open spec fn from_bits(v: u32) -> i32 {
    if v < 0x8000_0000 {
        v as i32
    } else {
        (v - 0x1_0000_0000) as i32
    }
}

pub open spec fn i32_le(x: i32) -> Seq<u8> {
    u32_le(bits_of(x))
}

pub open spec fn chars_le(s: Seq<char>) -> Seq<u8>
    decreases s.len(),
{
    if s.len() == 0 {
        seq![]
    } else {
        chars_le(s.drop_last()) + u32_le(s.last() as u32)
    }
}

pub open spec fn text_le(s: Seq<char>) -> Seq<u8> {
    u64_le(s.len() as u64) + chars_le(s)
}

/// Whether `x` stands in `b` from position `pos` on.
pub open spec fn at(b: Seq<u8>, pos: int, x: Seq<u8>) -> bool {
    0 <= pos && pos + x.len() <= b.len() && b.subrange(pos, pos + x.len()) == x
}

/// The bytes of a client message.
pub open spec fn client_le(m: ClientMessageModel) -> Seq<u8> {
    match m {
        ClientMessageModel::Join { name } => seq![0u8] + text_le(name),
        ClientMessageModel::Disconnect => seq![1u8],
        ClientMessageModel::ChatMessage { message } => seq![2u8] + text_le(message),
        ClientMessageModel::PlayerUpdate { x, y, horizontal, vertical } => seq![3u8] + i32_le(x)
            + i32_le(y) + i32_le(horizontal) + i32_le(vertical),
    }
}

/// An encoded `u32` takes four bytes, an encoded `u64` eight.
pub proof fn lemma_le_lens(a: u32, b: u64)
    ensures
        u32_le(a).len() == 4,
        u64_le(b).len() == 8,
{
    lemma_auto_spec_u32_to_from_le_bytes();
    lemma_auto_spec_u64_to_from_le_bytes();
}

/// Each char takes four bytes.
pub proof fn lemma_chars_le_len(s: Seq<char>)
    ensures
        chars_le(s).len() == 4 * s.len(),
    decreases s.len(),
{
    lemma_auto_spec_u32_to_from_le_bytes();
    if s.len() > 0 {
        lemma_chars_le_len(s.drop_last());
    }
}

/// The bytes of the char at `i` stand at `4 * i`.
pub proof fn lemma_chars_le_index(s: Seq<char>, i: int)
    requires
        0 <= i < s.len(),
    ensures
        chars_le(s).subrange(4 * i, 4 * i + 4) == u32_le(s[i] as u32),
    decreases s.len(),
{
    lemma_auto_spec_u32_to_from_le_bytes();
    lemma_chars_le_len(s.drop_last());
    if i < s.len() - 1 {
        lemma_chars_le_index(s.drop_last(), i);
        assert(chars_le(s).subrange(4 * i, 4 * i + 4) =~= chars_le(s.drop_last()).subrange(
            4 * i,
            4 * i + 4,
        ));
    } else {
        assert(chars_le(s).subrange(4 * i, 4 * i + 4) =~= u32_le(s[i] as u32));
    }
}

/// A char's code is a Unicode scalar value, and names that char alone.
pub proof fn lemma_char_code(c: char, d: char)
    ensures
        (c as u32) < 0xD800 || (0xE000 <= (c as u32) && (c as u32) <= 0x10FFFF),
        (c as u32) == (d as u32) ==> c == d,
{
}

/// Relies on `char::from_u32`: `Some` exactly for a Unicode scalar value, and
/// then the char with that code.
#[verifier::external_body]
fn char_from_code(v: u32) -> (r: Option<char>)
    ensures
        match r {
            Some(c) => c as u32 == v,
            None => !(v < 0xD800 || (0xE000 <= v && v <= 0x10FFFF)),
        },
{
    char::from_u32(v)
}

/// Relies on `String::push`: appends one char.
#[verifier::external_body]
fn push_char(s: &mut String, c: char)
    ensures
        final(s)@ == old(s)@.push(c),
{
    s.push(c)
}

fn push_bytes(out: &mut Vec<u8>, bytes: Vec<u8>)
    ensures
        final(out)@ == old(out)@ + bytes@,
{
    let mut i: usize = 0;
    while i < bytes.len()
        invariant
            i <= bytes@.len(),
            out@ == old(out)@ + bytes@.take(i as int),
        decreases bytes@.len() - i,
    {
        out.push(bytes[i]);
        i = i + 1;
        assert(out@ =~= old(out)@ + bytes@.take(i as int));
    }
    assert(bytes@.take(i as int) =~= bytes@);
}

fn to_bits(x: i32) -> (r: u32)
    ensures
        r == bits_of(x),
{
    if x >= 0 {
        x as u32
    } else {
        (x as i64 + 0x1_0000_0000i64) as u32
    }
}

fn of_bits(v: u32) -> (r: i32)
    ensures
        r == from_bits(v),
{
    if v < 0x8000_0000 {
        v as i32
    } else {
        (v as i64 - 0x1_0000_0000i64) as i32
    }
}

fn push_text(out: &mut Vec<u8>, s: &String)
    ensures
        final(out)@ == old(out)@ + text_le(s@),
{
    let n = s.as_str().unicode_len();
    push_bytes(out, u64_to_le_bytes(n as u64));
    let ghost head = out@;
    let mut i: usize = 0;
    while i < n
        invariant
            n == s@.len(),
            i <= n,
            out@ == head + chars_le(s@.take(i as int)),
        decreases n - i,
    {
        let c = s.as_str().get_char(i);
        push_bytes(out, u32_to_le_bytes(c as u32));
        proof {
            assert(s@.take(i + 1).drop_last() =~= s@.take(i as int));
        }
        i = i + 1;
    }
    assert(s@.take(i as int) =~= s@);
    assert(out@ =~= old(out)@ + text_le(s@));
}

fn read_u32(b: &[u8], pos: usize) -> (r: Option<u32>)
    ensures
        r is Some <==> pos + 4 <= b@.len(),
        r matches Some(v) ==> u32_le(v) == b@.subrange(pos as int, pos + 4),
        forall|v: u32| #[trigger] at(b@, pos as int, u32_le(v)) ==> r == Some(v),
{
    proof {
        lemma_auto_spec_u32_to_from_le_bytes();
    }
    if b.len() < 4 || pos > b.len() - 4 {
        return None;
    }
    let v = u32_from_le_bytes(slice_subrange(b, pos, pos + 4));
    Some(v)
}

fn read_u64(b: &[u8], pos: usize) -> (r: Option<u64>)
    ensures
        r is Some <==> pos + 8 <= b@.len(),
        r matches Some(v) ==> u64_le(v) == b@.subrange(pos as int, pos + 8),
        forall|v: u64| #[trigger] at(b@, pos as int, u64_le(v)) ==> r == Some(v),
{
    proof {
        lemma_auto_spec_u64_to_from_le_bytes();
    }
    if b.len() < 8 || pos > b.len() - 8 {
        return None;
    }
    let v = u64_from_le_bytes(slice_subrange(b, pos, pos + 8));
    Some(v)
}

fn read_i32(b: &[u8], pos: usize) -> (r: Option<i32>)
    ensures
        r matches Some(x) ==> at(b@, pos as int, i32_le(x)),
        forall|x: i32| #[trigger] at(b@, pos as int, i32_le(x)) ==> r == Some(x),
{
    proof {
        lemma_auto_spec_u32_to_from_le_bytes();
    }
    match read_u32(b, pos) {
        Some(v) => {
            let x = of_bits(v);
            proof {
                assert(bits_of(from_bits(v)) == v);
            }
            Some(x)
        },
        None => None,
    }
}

/// Reads a text from `pos` on: the text and the position after it.
fn read_text(b: &[u8], pos: usize) -> (r: Option<(String, usize)>)
    ensures
        r matches Some((s, p)) ==> p == pos + text_le(s@).len() && at(b@, pos as int, text_le(s@)),
        forall|t: Seq<char>| #[trigger] at(b@, pos as int, text_le(t)) ==> (r matches Some((s, p)) && s@ == t),
{
    proof {
        lemma_auto_spec_u32_to_from_le_bytes();
        lemma_auto_spec_u64_to_from_le_bytes();
    }
    let n = match read_u64(b, pos) {
        Some(n) => n,
        None => {
            assert forall|t: Seq<char>| !at(b@, pos as int, #[trigger] text_le(t)) by {
                lemma_le_lens(0, t.len() as u64);
            }
            return None;
        },
    };
    let len = b.len();
    assert(pos + 8 <= len);
    let start = pos + 8;
    proof {
        assert forall|t: Seq<char>| #[trigger] at(b@, pos as int, text_le(t)) implies t.len() == n
            && at(b@, start as int, chars_le(t)) by {
            let tl = text_le(t);
            lemma_le_lens(0, t.len() as u64);
            lemma_chars_le_len(t);
            assert(tl.len() == 8 + 4 * t.len());
            assert(b@.subrange(pos as int, pos + 8) =~= tl.subrange(0, 8));
            assert(tl.subrange(0, 8) =~= u64_le(t.len() as u64));
            assert(at(b@, pos as int, u64_le(t.len() as u64)));
            assert(t.len() < 0x1_0000_0000_0000_0000);
            assert(b@.subrange(start as int, start + chars_le(t).len()) =~= tl.subrange(
                8,
                tl.len() as int,
            ));
            assert(tl.subrange(8, tl.len() as int) =~= chars_le(t));
        }
    }
    if n > ((b.len() - start) / 4) as u64 {
        proof {
            assert forall|t: Seq<char>| !at(b@, pos as int, #[trigger] text_le(t)) by {
                if at(b@, pos as int, text_le(t)) {
                    lemma_chars_le_len(t);
                }
            }
        }
        return None;
    }
    let n = n as usize;
    let mut s = String::new();
    let mut i: usize = 0;
    while i < n
        invariant
            len == b@.len(),
            start == pos + 8,
            start + 4 * n <= b@.len(),
            i <= n,
            s@.len() == i,
            chars_le(s@) == b@.subrange(start as int, start + 4 * i),
            forall|t: Seq<char>| #[trigger] at(b@, pos as int, text_le(t)) ==> t.len() == n && at(
                b@,
                start as int,
                chars_le(t),
            ) && s@ == t.take(i as int),
        decreases n - i,
    {
        let v = match read_u32(b, start + 4 * i) {
            Some(v) => v,
            None => {
                return None;
            },
        };
        proof {
            assert forall|t: Seq<char>| #[trigger] at(b@, pos as int, text_le(t)) implies t[i as int]
                as u32 == v by {
                lemma_chars_le_len(t);
                lemma_chars_le_index(t, i as int);
                assert(b@.subrange(start + 4 * i, start + 4 * i + 4) =~= chars_le(t).subrange(
                    4 * i,
                    4 * i + 4,
                ));
                assert(at(b@, start + 4 * i, u32_le(t[i as int] as u32)));
            }
        }
        match char_from_code(v) {
            Some(c) => {
                let ghost before = s@;
                push_char(&mut s, c);
                proof {
                    assert(s@.drop_last() =~= before);
                    assert(b@.subrange(start as int, start + 4 * (i + 1)) =~= b@.subrange(
                        start as int,
                        start + 4 * i,
                    ) + b@.subrange(start + 4 * i, start + 4 * i + 4));
                    assert forall|t: Seq<char>| #[trigger] at(b@, pos as int, text_le(t)) implies s@
                        == t.take(i + 1) by {
                        assert(t[i as int] as u32 == v);
                        assert(c as u32 == v);
                        let d = t[i as int];
                        lemma_char_code(c, d);
                        assert(before == t.take(i as int));
                        assert(t.take(i + 1) =~= t.take(i as int).push(t[i as int]));
                    }
                }
            },
            None => {
                proof {
                    assert forall|t: Seq<char>| !at(b@, pos as int, #[trigger] text_le(t)) by {
                        if at(b@, pos as int, text_le(t)) {
                            let c = t[i as int];
                            assert(c as u32 == v);
                            lemma_char_code(c, c);
                        }
                    }
                }
                return None;
            },
        }
        i = i + 1;
    }
    proof {
        assert(s@.len() as u64 == n as u64);
        assert(b@.subrange(pos as int, start + 4 * n) =~= b@.subrange(pos as int, pos + 8)
            + b@.subrange(start as int, start + 4 * n));
        lemma_chars_le_len(s@);
        assert forall|t: Seq<char>| #[trigger] at(b@, pos as int, text_le(t)) implies s@ == t by {
            assert(t.take(n as int) =~= t);
        }
    }
    Some((s, start + 4 * n))
}

} // verus!

verus! {

/// The bytes of `m`.
pub fn encode_client(m: &ClientMessage) -> (r: Vec<u8>)
    ensures
        r@ == client_le(m@),
{
    let mut out: Vec<u8> = Vec::new();
    match m {
        ClientMessage::Join { name } => {
            out.push(0u8);
            push_text(&mut out, name);
        },
        ClientMessage::Disconnect {  } => {
            out.push(1u8);
        },
        ClientMessage::ChatMessage { message } => {
            out.push(2u8);
            push_text(&mut out, message);
        },
        ClientMessage::PlayerUpdate { x, y, horizontal, vertical } => {
            out.push(3u8);
            push_bytes(&mut out, u32_to_le_bytes(to_bits(*x)));
            push_bytes(&mut out, u32_to_le_bytes(to_bits(*y)));
            push_bytes(&mut out, u32_to_le_bytes(to_bits(*horizontal)));
            push_bytes(&mut out, u32_to_le_bytes(to_bits(*vertical)));
        },
    }
    assert(out@ =~= client_le(m@));
    out
}

/// The text that fills `b` from position 1 to its end, behind a tag byte.
fn read_tagged_text(b: &[u8]) -> (r: Option<String>)
    requires
        b@.len() >= 1,
    ensures
        r matches Some(s) ==> b@ == seq![b@[0]] + text_le(s@),
        forall|t: Seq<char>| b@ == #[trigger] (seq![b@[0]] + text_le(t)) ==> (r matches Some(s) && s@ == t),
{
    proof {
        assert forall|t: Seq<char>| b@ == #[trigger] (seq![b@[0]] + text_le(t)) implies at(
            b@,
            1,
            text_le(t),
        ) by {
            assert(b@.subrange(1, 1 + text_le(t).len() as int) =~= text_le(t));
        }
    }
    match read_text(b, 1) {
        Some((s, p)) => {
            if p == b.len() {
                assert(b@ =~= seq![b@[0]] + text_le(s@));
                Some(s)
            } else {
                None
            }
        },
        None => None,
    }
}

/// The client message that `b` holds, or `None` where `b` holds none.
pub fn decode_client(b: &[u8]) -> (r: Option<ClientMessage>)
    ensures
        r matches Some(m) ==> client_le(m@) == b@,
        forall|mm: ClientMessageModel| #[trigger] client_le(mm) == b@ ==> (r matches Some(m) && m@ == mm),
{
    proof {
        lemma_auto_spec_u32_to_from_le_bytes();
    }
    if b.len() == 0 {
        return None;
    }
    let tag = b[0];
    if tag == 0 || tag == 2 {
        match read_tagged_text(b) {
            Some(s) => {
                if tag == 0 {
                    Some(ClientMessage::Join { name: s })
                } else {
                    Some(ClientMessage::ChatMessage { message: s })
                }
            },
            None => None,
        }
    } else if tag == 1 {
        if b.len() == 1 {
            assert(b@ =~= seq![1u8]);
            Some(ClientMessage::Disconnect {  })
        } else {
            None
        }
    } else if tag == 3 {
        if b.len() != 17 {
            return None;
        }
        let x = read_i32(b, 1);
        let y = read_i32(b, 5);
        let h = read_i32(b, 9);
        let v = read_i32(b, 13);
        proof {
            assert forall|mm: ClientMessageModel| #[trigger] client_le(mm) == b@ implies (mm matches ClientMessageModel::PlayerUpdate { x: mx, y: my, horizontal: mh, vertical: mv }
                && x == Some(mx) && y == Some(my) && h == Some(mh) && v == Some(mv)) by {
                match mm {
                    ClientMessageModel::PlayerUpdate { x: mx, y: my, horizontal: mh, vertical: mv } => {
                        assert(b@.subrange(1, 5) =~= i32_le(mx));
                        assert(b@.subrange(5, 9) =~= i32_le(my));
                        assert(b@.subrange(9, 13) =~= i32_le(mh));
                        assert(b@.subrange(13, 17) =~= i32_le(mv));
                        assert(at(b@, 1, i32_le(mx)));
                        assert(at(b@, 5, i32_le(my)));
                        assert(at(b@, 9, i32_le(mh)));
                        assert(at(b@, 13, i32_le(mv)));
                    },
                    ClientMessageModel::Disconnect => {
                        assert(client_le(mm).len() == 1);
                    },
                    ClientMessageModel::Join { name } => {
                        assert(client_le(mm)[0] == 0);
                    },
                    ClientMessageModel::ChatMessage { message } => {
                        assert(client_le(mm)[0] == 2);
                    },
                }
            }
        }
        match (x, y, h, v) {
            (Some(x), Some(y), Some(h), Some(v)) => {
                assert(b@ =~= client_le(ClientMessageModel::PlayerUpdate { x, y, horizontal: h, vertical: v }));
                Some(ClientMessage::PlayerUpdate { x, y, horizontal: h, vertical: v })
            },
            _ => None,
        }
    } else {
        None
    }
}

} // verus!

verus! {

/// The bytes of roster pairs, one after the other: each id, then its name.
pub open spec fn pairs_le(q: Seq<(u64, Seq<char>)>) -> Seq<u8>
    decreases q.len(),
{
    if q.len() == 0 {
        seq![]
    } else {
        pairs_le(q.drop_last()) + u64_le(q.last().0) + text_le(q.last().1)
    }
}

/// The bytes of a server message; a roster travels as its number of pairs,
/// then the pairs in order of arrival.
pub open spec fn server_le(m: ServerMessage) -> Seq<u8> {
    match m {
        ServerMessage::ClientConnected { client_id, username } => seq![0u8] + u64_le(client_id)
            + text_le(username@),
        ServerMessage::ClientDisconnected { client_id } => seq![1u8] + u64_le(client_id),
        ServerMessage::ChatMessage { client_id, message } => seq![2u8] + u64_le(client_id)
            + text_le(message@),
        ServerMessage::InitClient { client_id, usernames } => seq![3u8] + u64_le(client_id)
            + u64_le(usernames.pairs().len() as u64) + pairs_le(usernames.pairs()),
        ServerMessage::PlayerUpdate { client_id, x, y, horizontal, vertical } => seq![4u8]
            + u64_le(client_id) + i32_le(x) + i32_le(y) + i32_le(horizontal) + i32_le(vertical),
    }
}

/// Whether the roster that `m` may carry names each id once, as every roster
/// does.
pub open spec fn server_wf(m: ServerMessage) -> bool {
    m matches ServerMessage::InitClient { usernames, .. } ==> ids_unique(usernames.pairs())
}

/// Each pair takes at least four bytes.
pub proof fn lemma_pairs_le_min_len(q: Seq<(u64, Seq<char>)>)
    ensures
        4 * q.len() <= pairs_le(q).len(),
    decreases q.len(),
{
    if q.len() > 0 {
        lemma_pairs_le_min_len(q.drop_last());
        lemma_le_lens(0, q.last().0);
    }
}

/// The bytes of the first `i` pairs open the bytes of all of them.
pub proof fn lemma_pairs_le_prefix(q: Seq<(u64, Seq<char>)>, i: int)
    requires
        0 <= i <= q.len(),
    ensures
        pairs_le(q.take(i)).len() <= pairs_le(q).len(),
        pairs_le(q).subrange(0, pairs_le(q.take(i)).len() as int) == pairs_le(q.take(i)),
    decreases q.len() - i,
{
    if i == q.len() {
        assert(q.take(i) =~= q);
    } else {
        lemma_pairs_le_prefix(q, i + 1);
        let a = q.take(i + 1);
        assert(a.drop_last() =~= q.take(i));
        let pa = pairs_le(a);
        let pi = pairs_le(q.take(i));
        assert(pa.subrange(0, pi.len() as int) =~= pi);
        assert(pairs_le(q).subrange(0, pi.len() as int) =~= pa.subrange(0, pi.len() as int));
    }
}

fn push_pairs(out: &mut Vec<u8>, roster: &Roster)
    ensures
        final(out)@ == old(out)@ + u64_le(roster.pairs().len() as u64) + pairs_le(roster.pairs()),
{
    let n = roster.len();
    push_bytes(out, u64_to_le_bytes(n as u64));
    let ghost head = out@;
    let mut i: usize = 0;
    while i < n
        invariant
            n == roster.pairs().len(),
            i <= n,
            out@ == head + pairs_le(roster.pairs().take(i as int)),
        decreases n - i,
    {
        let (id, name) = roster.pair_at(i);
        push_bytes(out, u64_to_le_bytes(id));
        push_text(out, name);
        proof {
            assert(roster.pairs().take(i + 1).drop_last() =~= roster.pairs().take(i as int));
        }
        i = i + 1;
    }
    assert(roster.pairs().take(i as int) =~= roster.pairs());
    assert(out@ =~= old(out)@ + u64_le(roster.pairs().len() as u64) + pairs_le(roster.pairs()));
}

/// The bytes of `m`.
pub fn encode_server(m: &ServerMessage) -> (r: Vec<u8>)
    ensures
        r@ == server_le(*m),
{
    let mut out: Vec<u8> = Vec::new();
    match m {
        ServerMessage::ClientConnected { client_id, username } => {
            out.push(0u8);
            push_bytes(&mut out, u64_to_le_bytes(*client_id));
            push_text(&mut out, username);
        },
        ServerMessage::ClientDisconnected { client_id } => {
            out.push(1u8);
            push_bytes(&mut out, u64_to_le_bytes(*client_id));
        },
        ServerMessage::ChatMessage { client_id, message } => {
            out.push(2u8);
            push_bytes(&mut out, u64_to_le_bytes(*client_id));
            push_text(&mut out, message);
        },
        ServerMessage::InitClient { client_id, usernames } => {
            out.push(3u8);
            push_bytes(&mut out, u64_to_le_bytes(*client_id));
            push_pairs(&mut out, usernames);
        },
        ServerMessage::PlayerUpdate { client_id, x, y, horizontal, vertical } => {
            out.push(4u8);
            push_bytes(&mut out, u64_to_le_bytes(*client_id));
            push_bytes(&mut out, u32_to_le_bytes(to_bits(*x)));
            push_bytes(&mut out, u32_to_le_bytes(to_bits(*y)));
            push_bytes(&mut out, u32_to_le_bytes(to_bits(*horizontal)));
            push_bytes(&mut out, u32_to_le_bytes(to_bits(*vertical)));
        },
    }
    assert(out@ =~= server_le(*m));
    out
}

} // verus!

verus! {

/// Where the pairs `q` stand in `b` from `pos` on, the pair at `i` stands right
/// after the first `i` of them.
pub proof fn lemma_pair_at(b: Seq<u8>, pos: int, q: Seq<(u64, Seq<char>)>, i: int)
    requires
        0 <= i < q.len(),
        at(b, pos, pairs_le(q)),
    ensures
        ({
            let start = pos + pairs_le(q.take(i)).len();
            &&& at(b, start, u64_le(q[i].0))
            &&& at(b, start + 8, text_le(q[i].1))
            &&& pairs_le(q.take(i + 1)).len() == pairs_le(q.take(i)).len() + 8 + text_le(q[i].1).len()
        }),
{
    lemma_le_lens(0, q[i].0);
    lemma_pairs_le_prefix(q, i + 1);
    let a = q.take(i + 1);
    assert(a.drop_last() =~= q.take(i));
    let li = pairs_le(q.take(i)).len() as int;
    let la = pairs_le(a).len() as int;
    let t = text_le(q[i].1);
    assert(b.subrange(pos, pos + la) =~= pairs_le(q).subrange(0, la));
    assert(b.subrange(pos + li, pos + li + 8) =~= pairs_le(a).subrange(li, li + 8));
    assert(pairs_le(a).subrange(li, li + 8) =~= u64_le(q[i].0));
    assert(b.subrange(pos + li + 8, pos + li + 8 + t.len()) =~= pairs_le(a).subrange(li + 8, la));
    assert(pairs_le(a).subrange(li + 8, la) =~= t);
}

/// Reads `count` roster pairs from `pos` on: the roster and the position after
/// them. A repeated id makes it fail.
fn read_pairs(b: &[u8], pos: usize, count: u64) -> (r: Option<(Roster, usize)>)
    requires
        pos <= b@.len(),
    ensures
        r matches Some((ro, p)) ==> ro.pairs().len() == count && p == pos + pairs_le(
            ro.pairs(),
        ).len() && at(b@, pos as int, pairs_le(ro.pairs())),
        forall|q: Seq<(u64, Seq<char>)>|
            ids_unique(q) && q.len() == count && #[trigger] at(b@, pos as int, pairs_le(q)) ==> (r matches Some((ro, p)) && ro.pairs() == q),
{
    let len = b.len();
    let mut ro = Roster::new();
    let mut cur = pos;
    let mut i: u64 = 0;
    assert(b@.subrange(pos as int, pos as int) =~= pairs_le(ro.pairs()));
    while i < count
        invariant
            len == b@.len(),
            i <= count,
            ro.pairs().len() == i,
            cur == pos + pairs_le(ro.pairs()).len(),
            at(b@, pos as int, pairs_le(ro.pairs())),
            forall|q: Seq<(u64, Seq<char>)>|
                ids_unique(q) && q.len() == count && #[trigger] at(b@, pos as int, pairs_le(q))
                    ==> ro.pairs() == q.take(i as int),
        decreases count - i,
    {
        proof {
            assert forall|q: Seq<(u64, Seq<char>)>|
                ids_unique(q) && q.len() == count && #[trigger] at(b@, pos as int, pairs_le(q))
                    implies at(b@, cur as int, u64_le(q[i as int].0)) && at(
                b@,
                cur + 8,
                text_le(q[i as int].1),
            ) by {
                lemma_pair_at(b@, pos as int, q, i as int);
            }
        }
        let id = match read_u64(b, cur) {
            Some(id) => id,
            None => {
                return None;
            },
        };
        let (name, next) = match read_text(b, cur + 8) {
            Some(x) => x,
            None => {
                return None;
            },
        };
        let ghost before = ro.pairs();
        proof {
            assert forall|q: Seq<(u64, Seq<char>)>|
                ids_unique(q) && q.len() == count && #[trigger] at(b@, pos as int, pairs_le(q))
                    implies !ro@.contains_key(id) && q[i as int] == (id, name@) by {
                lemma_map_of_dom(before, id);
                assert(q[i as int].0 == id);
                if has_id(before, id) {
                    let k = choose|k: int| 0 <= k < before.len() && before[k].0 == id;
                    assert(q[k].0 == q[i as int].0);
                }
            }
        }
        if !ro.insert(id, name) {
            return None;
        }
        proof {
            lemma_le_lens(0, id);
            let after = ro.pairs();
            assert(after.drop_last() =~= before);
            assert(b@.subrange(pos as int, next as int) =~= b@.subrange(pos as int, cur as int)
                + b@.subrange(cur as int, cur + 8) + b@.subrange(cur + 8, next as int));
            assert forall|q: Seq<(u64, Seq<char>)>|
                ids_unique(q) && q.len() == count && #[trigger] at(b@, pos as int, pairs_le(q))
                    implies after == q.take(i + 1) by {
                assert(q.take(i + 1) =~= q.take(i as int).push(q[i as int]));
            }
        }
        cur = next;
        i = i + 1;
    }
    proof {
        assert forall|q: Seq<(u64, Seq<char>)>|
            ids_unique(q) && q.len() == count && #[trigger] at(b@, pos as int, pairs_le(q))
                implies ro.pairs() == q by {
            assert(q.take(count as int) =~= q);
        }
    }
    Some((ro, cur))
}

} // verus!

verus! {

/// The text that fills `b` from position 9 to its end, behind a tag byte and
/// a `u64`.
fn read_id_and_text(b: &[u8]) -> (r: Option<(u64, String)>)
    requires
        b@.len() >= 1,
    ensures
        r matches Some((id, s)) ==> b@ == seq![b@[0]] + u64_le(id) + text_le(s@),
        forall|id: u64, t: Seq<char>|
            b@ == #[trigger] (seq![b@[0]] + u64_le(id) + text_le(t)) ==> (r matches Some((i, s))
                && i == id && s@ == t),
{
    proof {
        lemma_auto_spec_u64_to_from_le_bytes();
        assert forall|id: u64, t: Seq<char>|
            b@ == #[trigger] (seq![b@[0]] + u64_le(id) + text_le(t)) implies at(b@, 1, u64_le(id))
            && at(b@, 9, text_le(t)) by {
            assert(b@.subrange(1, 9) =~= u64_le(id));
            assert(b@.subrange(9, 9 + text_le(t).len() as int) =~= text_le(t));
        }
    }
    let id = match read_u64(b, 1) {
        Some(id) => id,
        None => {
            return None;
        },
    };
    match read_text(b, 9) {
        Some((s, p)) => {
            if p == b.len() {
                assert(b@ =~= seq![b@[0]] + u64_le(id) + text_le(s@));
                Some((id, s))
            } else {
                None
            }
        },
        None => None,
    }
}

/// The server message that `b` holds, or `None` where `b` holds none.
pub fn decode_server(b: &[u8]) -> (r: Option<ServerMessage>)
    ensures
        r matches Some(m) ==> server_le(m) == b@,
        forall|mm: ServerMessage|
            server_wf(mm) && #[trigger] server_le(mm) == b@ ==> (r matches Some(m) && m@ == mm@),
{
    proof {
        lemma_auto_spec_u32_to_from_le_bytes();
        lemma_auto_spec_u64_to_from_le_bytes();
    }
    let len = b.len();
    if len == 0 {
        return None;
    }
    let tag = b[0];
    proof {
        assert forall|mm: ServerMessage| server_wf(mm) && #[trigger] server_le(mm) == b@ implies (
        tag as int == match mm {
            ServerMessage::ClientConnected { .. } => 0int,
            ServerMessage::ClientDisconnected { .. } => 1int,
            ServerMessage::ChatMessage { .. } => 2int,
            ServerMessage::InitClient { .. } => 3int,
            ServerMessage::PlayerUpdate { .. } => 4int,
        }) by {
            assert(b@[0] == server_le(mm)[0]);
        }
    }
    if tag == 0 || tag == 2 {
        proof {
            assert forall|mm: ServerMessage| server_wf(mm) && #[trigger] server_le(mm) == b@ implies (
            match mm {
                ServerMessage::ClientConnected { client_id, username } => b@ == seq![b@[0]]
                    + u64_le(client_id) + text_le(username@),
                ServerMessage::ChatMessage { client_id, message } => b@ == seq![b@[0]] + u64_le(
                    client_id,
                ) + text_le(message@),
                _ => false,
            }) by {
                match mm {
                    ServerMessage::ClientConnected { client_id, username } => {
                        assert(b@ =~= seq![b@[0]] + u64_le(client_id) + text_le(username@));
                    },
                    ServerMessage::ChatMessage { client_id, message } => {
                        assert(b@ =~= seq![b@[0]] + u64_le(client_id) + text_le(message@));
                    },
                    _ => {},
                }
            }
        }
        match read_id_and_text(b) {
            Some((client_id, s)) => {
                if tag == 0 {
                    Some(ServerMessage::ClientConnected { client_id, username: s })
                } else {
                    Some(ServerMessage::ChatMessage { client_id, message: s })
                }
            },
            None => None,
        }
    } else if tag == 1 {
        proof {
            assert forall|mm: ServerMessage| server_wf(mm) && #[trigger] server_le(mm) == b@ implies (
            mm matches ServerMessage::ClientDisconnected { client_id } && at(
                b@,
                1,
                u64_le(client_id),
            )) by {
                match mm {
                    ServerMessage::ClientDisconnected { client_id } => {
                        assert(b@.subrange(1, 9) =~= u64_le(client_id));
                    },
                    _ => {},
                }
            }
        }
        if len != 9 {
            return None;
        }
        match read_u64(b, 1) {
            Some(client_id) => {
                assert(b@ =~= seq![1u8] + u64_le(client_id));
                Some(ServerMessage::ClientDisconnected { client_id })
            },
            None => None,
        }
    } else if tag == 3 {
        proof {
            assert forall|mm: ServerMessage| server_wf(mm) && #[trigger] server_le(mm) == b@ implies (
            mm matches ServerMessage::InitClient { client_id, usernames } && at(
                b@,
                1,
                u64_le(client_id),
            ) && at(b@, 9, u64_le(usernames.pairs().len() as u64)) && at(
                b@,
                17,
                pairs_le(usernames.pairs()),
            ) && 17 + pairs_le(usernames.pairs()).len() == b@.len()) by {
                match mm {
                    ServerMessage::InitClient { client_id, usernames } => {
                        let q = usernames.pairs();
                        assert(b@.subrange(1, 9) =~= u64_le(client_id));
                        assert(b@.subrange(9, 17) =~= u64_le(q.len() as u64));
                        assert(b@.subrange(17, 17 + pairs_le(q).len() as int) =~= pairs_le(q));
                    },
                    _ => {
                        assert(server_le(mm)[0] != 3);
                    },
                }
            }
        }
        let client_id = match read_u64(b, 1) {
            Some(id) => id,
            None => {
                return None;
            },
        };
        let count = match read_u64(b, 9) {
            Some(n) => n,
            None => {
                return None;
            },
        };
        proof {
            assert forall|mm: ServerMessage| server_wf(mm) && #[trigger] server_le(mm) == b@ implies (
            mm matches ServerMessage::InitClient { usernames, .. } && usernames.pairs().len()
                == count) by {
                match mm {
                    ServerMessage::InitClient { client_id, usernames } => {
                        let n = usernames.pairs().len();
                        assert(at(b@, 9, u64_le(n as u64)));
                        assert(4 * n <= pairs_le(usernames.pairs()).len()) by {
                            lemma_pairs_le_min_len(usernames.pairs());
                        }
                    },
                    _ => {},
                }
            }
        }
        match read_pairs(b, 17, count) {
            Some((usernames, p)) => {
                if p == len {
                    assert(b@ =~= seq![3u8] + u64_le(client_id) + u64_le(
                        usernames.pairs().len() as u64,
                    ) + pairs_le(usernames.pairs()));
                    Some(ServerMessage::InitClient { client_id, usernames })
                } else {
                    None
                }
            },
            None => None,
        }
    } else if tag == 4 {
        if len != 25 {
            return None;
        }
        let id = read_u64(b, 1);
        let x = read_i32(b, 9);
        let y = read_i32(b, 13);
        let h = read_i32(b, 17);
        let v = read_i32(b, 21);
        proof {
            assert forall|mm: ServerMessage| server_wf(mm) && #[trigger] server_le(mm) == b@ implies (
            mm matches ServerMessage::PlayerUpdate {
                client_id: mi,
                x: mx,
                y: my,
                horizontal: mh,
                vertical: mv,
            } && id == Some(mi) && x == Some(mx) && y == Some(my) && h == Some(mh) && v == Some(
                mv,
            )) by {
                match mm {
                    ServerMessage::PlayerUpdate {
                        client_id: mi,
                        x: mx,
                        y: my,
                        horizontal: mh,
                        vertical: mv,
                    } => {
                        assert(b@.subrange(1, 9) =~= u64_le(mi));
                        assert(b@.subrange(9, 13) =~= i32_le(mx));
                        assert(b@.subrange(13, 17) =~= i32_le(my));
                        assert(b@.subrange(17, 21) =~= i32_le(mh));
                        assert(b@.subrange(21, 25) =~= i32_le(mv));
                        assert(at(b@, 1, u64_le(mi)));
                        assert(at(b@, 9, i32_le(mx)));
                        assert(at(b@, 13, i32_le(my)));
                        assert(at(b@, 17, i32_le(mh)));
                        assert(at(b@, 21, i32_le(mv)));
                    },
                    _ => {
                        assert(server_le(mm)[0] != 4);
                    },
                }
            }
        }
        match (id, x, y, h, v) {
            (Some(client_id), Some(x), Some(y), Some(horizontal), Some(vertical)) => {
                let m = ServerMessage::PlayerUpdate { client_id, x, y, horizontal, vertical };
                assert(b@ =~= server_le(m));
                Some(m)
            },
            _ => None,
        }
    } else {
        None
    }
}

} // verus!
