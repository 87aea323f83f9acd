//! The subset of CBOR (RFC 8949) in which message envelopes travel: item
//! heads, unsigned integers, text strings and arrays of bytes, and the
//! passing over of any other well-formed item.

use vstd::prelude::*;
use vstd::slice::slice_subrange;
use vstd::utf8::valid_utf8;

verus! {

/// Major type of an unsigned integer.
pub const MAJOR_UNSIGNED: u8 = 0;

/// Major type of a negative integer.
pub const MAJOR_NEGATIVE: u8 = 1;

/// Major type of a byte string.
pub const MAJOR_BYTES: u8 = 2;

/// Major type of a text string.
pub const MAJOR_TEXT: u8 = 3;

/// Major type of an array.
pub const MAJOR_ARRAY: u8 = 4;

/// Major type of a map.
pub const MAJOR_MAP: u8 = 5;

/// Major type of a tag.
pub const MAJOR_TAG: u8 = 6;

/// Major type of simple values and floating-point numbers.
pub const MAJOR_SIMPLE: u8 = 7;

/// The initial byte of an item: the major type in the high three bits, the
/// additional information in the low five.
pub open spec fn initial_byte(major: u8, info: int) -> u8 {
    (major * 32 + info) as u8
}

/// The shortest head that carries `arg` under `major`: the initial byte, and
/// after it the argument in big-endian order where it does not fit into the
/// additional information.
pub open spec fn head_bytes(major: u8, arg: u64) -> Seq<u8> {
    let b0 = (arg % 256) as u8;
    let r1 = arg / 256;
    let b1 = (r1 % 256) as u8;
    let r2 = r1 / 256;
    let b2 = (r2 % 256) as u8;
    let r3 = r2 / 256;
    let b3 = (r3 % 256) as u8;
    let r4 = r3 / 256;
    let b4 = (r4 % 256) as u8;
    let r5 = r4 / 256;
    let b5 = (r5 % 256) as u8;
    let r6 = r5 / 256;
    let b6 = (r6 % 256) as u8;
    let b7 = (r6 / 256) as u8;
    if arg < 24 {
        seq![initial_byte(major, arg as int)]
    } else if arg < 0x100 {
        seq![initial_byte(major, 24), b0]
    } else if arg < 0x1_0000 {
        seq![initial_byte(major, 25), b1, b0]
    } else if arg < 0x1_0000_0000 {
        seq![initial_byte(major, 26), b3, b2, b1, b0]
    } else {
        seq![initial_byte(major, 27), b7, b6, b5, b4, b3, b2, b1, b0]
    }
}

/// A decoded item head: major type, argument, and the offset of the byte
/// after the head.
pub struct Head {
    pub major: u8,
    pub arg: u64,
    pub next: int,
}

/// The value of two bytes in big-endian order.
pub open spec fn be2(a: u8, b: u8) -> int {
    a * 256 + b
}

/// The value of four bytes in big-endian order.
pub open spec fn be4(a: u8, b: u8, c: u8, d: u8) -> int {
    be2(a, b) * 0x1_0000 + be2(c, d)
}

/// The value of eight bytes in big-endian order.
pub open spec fn be8(a: u8, b: u8, c: u8, d: u8, e: u8, f: u8, g: u8, h: u8) -> int {
    be4(a, b, c, d) * 0x1_0000_0000 + be4(e, f, g, h)
}

/// The head that starts at `pos`, if a whole head with an argument lies
/// there; the opening of an item of indefinite length and the break are no
/// such heads. The argument may be written wider than it needs to be.
pub open spec fn head_at(s: Seq<u8>, pos: int) -> Option<Head> {
    if !(0 <= pos < s.len()) {
        None
    } else {
        let major = s[pos] / 32;
        let info = s[pos] % 32;
        if info < 24 {
            Some(Head { major, arg: info as u64, next: pos + 1 })
        } else if info == 24 && pos + 2 <= s.len() {
            Some(Head { major, arg: s[pos + 1] as u64, next: pos + 2 })
        } else if info == 25 && pos + 3 <= s.len() {
            Some(Head { major, arg: be2(s[pos + 1], s[pos + 2]) as u64, next: pos + 3 })
        } else if info == 26 && pos + 5 <= s.len() {
            Some(
                Head {
                    major,
                    arg: be4(s[pos + 1], s[pos + 2], s[pos + 3], s[pos + 4]) as u64,
                    next: pos + 5,
                },
            )
        } else if info == 27 && pos + 9 <= s.len() {
            Some(
                Head {
                    major,
                    arg: be8(
                        s[pos + 1],
                        s[pos + 2],
                        s[pos + 3],
                        s[pos + 4],
                        s[pos + 5],
                        s[pos + 6],
                        s[pos + 7],
                        s[pos + 8],
                    ) as u64,
                    next: pos + 9,
                },
            )
        } else {
            None
        }
    }
}

/// `part` lies in `s` at offset `pos`.
pub open spec fn has_at(s: Seq<u8>, pos: int, part: Seq<u8>) -> bool {
    0 <= pos && pos + part.len() <= s.len() && s.subrange(pos, pos + part.len()) == part
}

/// Where two parts lie one after the other, each of them lies at its place.
pub proof fn lemma_has_at_split(s: Seq<u8>, pos: int, a: Seq<u8>, b: Seq<u8>)
    requires
        has_at(s, pos, a + b),
    ensures
        has_at(s, pos, a),
        has_at(s, pos + a.len(), b),
{
    let whole = s.subrange(pos, pos + (a + b).len());
    assert(s.subrange(pos, pos + a.len()) =~= whole.subrange(0, a.len() as int));
    assert((a + b).subrange(0, a.len() as int) =~= a);
    assert(s.subrange(pos + a.len(), pos + a.len() + b.len()) =~= whole.subrange(
        a.len() as int,
        (a + b).len() as int,
    ));
    assert((a + b).subrange(a.len() as int, (a + b).len() as int) =~= b);
}

/// Reading a shortest head back gives the major type and argument it was
/// made from.
pub proof fn lemma_head_round_trip(s: Seq<u8>, pos: int, major: u8, arg: u64)
    requires
        major < 8,
        has_at(s, pos, head_bytes(major, arg)),
    ensures
        head_at(s, pos) == Some(
            Head { major, arg, next: pos + head_bytes(major, arg).len() },
        ),
{
    let h = head_bytes(major, arg);
    let part = s.subrange(pos, pos + h.len());
    assert(forall|i: int| 0 <= i < h.len() ==> s[pos + i] == #[trigger] part[i]);
    assert(s[pos] == part[0]);
    if arg < 24 {
    } else if arg < 0x100 {
        assert(s[pos + 1] == part[1]);
    } else if arg < 0x1_0000 {
        assert(s[pos + 1] == part[1]);
        assert(s[pos + 2] == part[2]);
    } else if arg < 0x1_0000_0000 {
        assert(s[pos + 1] == part[1]);
        assert(s[pos + 2] == part[2]);
        assert(s[pos + 3] == part[3]);
        assert(s[pos + 4] == part[4]);
    } else {
        assert(s[pos + 1] == part[1]);
        assert(s[pos + 2] == part[2]);
        assert(s[pos + 3] == part[3]);
        assert(s[pos + 4] == part[4]);
        assert(s[pos + 5] == part[5]);
        assert(s[pos + 6] == part[6]);
        assert(s[pos + 7] == part[7]);
        assert(s[pos + 8] == part[8]);
    }
}

/// Appends the shortest head for `arg` under `major`.
pub fn push_head(out: &mut Vec<u8>, major: u8, arg: u64)
    requires
        major < 8,
    ensures
        final(out)@ == old(out)@ + head_bytes(major, arg),
{
    let base: u8 = major * 32;
    let b0: u8 = (arg % 256) as u8;
    let r1: u64 = arg / 256;
    let b1: u8 = (r1 % 256) as u8;
    let r2: u64 = r1 / 256;
    let b2: u8 = (r2 % 256) as u8;
    let r3: u64 = r2 / 256;
    let b3: u8 = (r3 % 256) as u8;
    let r4: u64 = r3 / 256;
    let b4: u8 = (r4 % 256) as u8;
    let r5: u64 = r4 / 256;
    let b5: u8 = (r5 % 256) as u8;
    let r6: u64 = r5 / 256;
    let b6: u8 = (r6 % 256) as u8;
    let b7: u8 = (r6 / 256) as u8;
    if arg < 24 {
        out.push(base + (arg as u8));
    } else if arg < 0x100 {
        out.push(base + 24);
        out.push(b0);
    } else if arg < 0x1_0000 {
        out.push(base + 25);
        out.push(b1);
        out.push(b0);
    } else if arg < 0x1_0000_0000 {
        out.push(base + 26);
        out.push(b3);
        out.push(b2);
        out.push(b1);
        out.push(b0);
    } else {
        out.push(base + 27);
        out.push(b7);
        out.push(b6);
        out.push(b5);
        out.push(b4);
        out.push(b3);
        out.push(b2);
        out.push(b1);
        out.push(b0);
    }
    assert(final(out)@ =~= old(out)@ + head_bytes(major, arg));
}

/// Reads the head at `pos`.
pub fn read_head(data: &[u8], pos: usize) -> (r: Option<(u8, u64, usize)>)
    ensures
        match r {
            Some((major, arg, next)) => head_at(data@, pos as int) == Some(
                Head { major, arg, next: next as int },
            ),
            None => head_at(data@, pos as int) is None,
        },
{
    let len = data.len();
    if pos >= len {
        return None;
    }
    let first: u8 = data[pos];
    let major: u8 = first / 32;
    let info: u8 = first % 32;
    let rest: usize = len - pos;
    if info < 24 {
        Some((major, info as u64, pos + 1))
    } else if info == 24 && rest >= 2 {
        Some((major, data[pos + 1] as u64, pos + 2))
    } else if info == 25 && rest >= 3 {
        let arg: u64 = (data[pos + 1] as u64) * 256 + (data[pos + 2] as u64);
        Some((major, arg, pos + 3))
    } else if info == 26 && rest >= 5 {
        let hi: u64 = (data[pos + 1] as u64) * 256 + (data[pos + 2] as u64);
        let lo: u64 = (data[pos + 3] as u64) * 256 + (data[pos + 4] as u64);
        Some((major, hi * 0x1_0000 + lo, pos + 5))
    } else if info == 27 && rest >= 9 {
        let a: u64 = (data[pos + 1] as u64) * 256 + (data[pos + 2] as u64);
        let b: u64 = (data[pos + 3] as u64) * 256 + (data[pos + 4] as u64);
        let c: u64 = (data[pos + 5] as u64) * 256 + (data[pos + 6] as u64);
        let d: u64 = (data[pos + 7] as u64) * 256 + (data[pos + 8] as u64);
        let hi: u64 = a * 0x1_0000 + b;
        let lo: u64 = c * 0x1_0000 + d;
        Some((major, hi * 0x1_0000_0000 + lo, pos + 9))
    } else {
        None
    }
}


/// The byte that ends an item of indefinite length.
pub const BREAK: u8 = 0xff;

/// The additional information that announces an indefinite length.
pub const INFO_INDEFINITE: u8 = 31;

/// Whether an item of indefinite length under `major` starts at `pos`.
pub open spec fn opens_indefinite(s: Seq<u8>, pos: int, major: u8) -> bool {
    0 <= pos < s.len() && s[pos] / 32 == major && s[pos] % 32 == INFO_INDEFINITE
}

/// Whether the byte at `pos` ends an item of indefinite length.
pub open spec fn is_break(s: Seq<u8>, pos: int) -> bool {
    0 <= pos < s.len() && s[pos] == BREAK
}

/// An unsigned integer, written in the shortest form.
pub open spec fn uint_bytes(v: u64) -> Seq<u8> {
    head_bytes(MAJOR_UNSIGNED, v)
}

/// A text string of definite length over the bytes `text`.
pub open spec fn text_bytes(text: Seq<u8>) -> Seq<u8> {
    head_bytes(MAJOR_TEXT, text.len() as u64) + text
}

/// The bytes of `bytes`, each written as an unsigned integer, one after
/// the other.
pub open spec fn byte_items(bytes: Seq<u8>) -> Seq<u8>
    decreases bytes.len(),
{
    if bytes.len() == 0 {
        Seq::empty()
    } else {
        uint_bytes(bytes[0] as u64) + byte_items(bytes.drop_first())
    }
}

/// An array of definite length whose items are the bytes of `bytes`.
pub open spec fn byte_array_bytes(bytes: Seq<u8>) -> Seq<u8> {
    head_bytes(MAJOR_ARRAY, bytes.len() as u64) + byte_items(bytes)
}

/// The unsigned integer at `pos` and the offset after it, if one lies there
/// and is at most `max`.
pub open spec fn uint_at(s: Seq<u8>, pos: int, max: u64) -> Option<(u64, int)> {
    match head_at(s, pos) {
        Some(h) => if h.major == MAJOR_UNSIGNED && h.arg <= max {
            Some((h.arg, h.next))
        } else {
            None
        },
        None => None,
    }
}

/// The content of the definite-length text string at `pos` and the offset
/// after it, if a whole one lies there.
pub open spec fn text_at(s: Seq<u8>, pos: int) -> Option<(Seq<u8>, int)> {
    match head_at(s, pos) {
        Some(h) => if h.major == MAJOR_TEXT && h.next + h.arg <= s.len() {
            Some((s.subrange(h.next, h.next + h.arg), h.next + h.arg))
        } else {
            None
        },
        None => None,
    }
}

/// `count` unsigned integers of at most 255 from `pos` on, appended to
/// `acc`, and the offset after the last of them.
pub open spec fn byte_items_at(s: Seq<u8>, pos: int, count: nat, acc: Seq<u8>) -> Option<
    (Seq<u8>, int),
>
    decreases count,
{
    if count == 0 {
        Some((acc, pos))
    } else {
        match uint_at(s, pos, 255) {
            Some((v, next)) => byte_items_at(s, next, (count - 1) as nat, acc.push(v as u8)),
            None => None,
        }
    }
}

/// Unsigned integers of at most 255 from `pos` on up to the break,
/// appended to `acc`, and the offset after the break.
pub open spec fn byte_items_to_break(s: Seq<u8>, pos: int, acc: Seq<u8>) -> Option<(Seq<u8>, int)>
    decreases s.len() - pos,
{
    if is_break(s, pos) {
        Some((acc, pos + 1))
    } else {
        match uint_at(s, pos, 255) {
            Some((v, next)) => byte_items_to_break(s, next, acc.push(v as u8)),
            None => None,
        }
    }
}

/// The bytes held by the array at `pos` and the offset after it, if an
/// array of unsigned integers of at most 255 lies there, of definite or of
/// indefinite length.
pub open spec fn byte_array_at(s: Seq<u8>, pos: int) -> Option<(Seq<u8>, int)> {
    match head_at(s, pos) {
        Some(h) => if h.major == MAJOR_ARRAY {
            byte_items_at(s, h.next, h.arg as nat, Seq::empty())
        } else {
            None
        },
        None => if opens_indefinite(s, pos, MAJOR_ARRAY) {
            byte_items_to_break(s, pos + 1, Seq::empty())
        } else {
            None
        },
    }
}

/// How deep arrays, maps and tags may nest inside an item that is passed
/// over unread.
pub const MAX_NESTING: u8 = 126;

/// Whether the additional information `info` of a major-7 item denotes a
/// value that this driver passes over: false, true, null, undefined, or a
/// binary floating-point number of 16, 32 or 64 bits.
pub open spec fn simple_info_known(info: u8) -> bool {
    20 <= info <= 23 || 25 <= info <= 27
}

/// Whether `chunk` may stand in a string under `major`: any bytes in a byte
/// string, valid UTF-8 in a text string.
pub open spec fn chunk_fits(major: u8, chunk: Seq<u8>) -> bool {
    major == MAJOR_TEXT ==> valid_utf8(chunk)
}

/// The offset after the break that ends a string of indefinite length
/// under `major`, whose chunks, strings of definite length under the same
/// major type, follow one another from `pos` on.
pub open spec fn chunks_to_break(s: Seq<u8>, pos: int, major: u8) -> Option<int>
    decreases s.len() - pos,
{
    if is_break(s, pos) {
        Some(pos + 1)
    } else {
        match head_at(s, pos) {
            Some(h) => if h.major == major && h.next + h.arg <= s.len() && chunk_fits(
                major,
                s.subrange(h.next, h.next + h.arg),
            ) {
                chunks_to_break(s, h.next + h.arg, major)
            } else {
                None
            },
            None => None,
        }
    }
}

/// The offset after the well-formed item that starts at `pos`, where that
/// item, with all that it holds, holds valid UTF-8 in its text strings and
/// nests at most `depth` levels deep. Strings, arrays and maps may have a
/// definite or an indefinite length.
pub open spec fn item_end(s: Seq<u8>, pos: int, depth: nat) -> Option<int>
    decreases depth, 0nat, 0nat,
{
    match head_at(s, pos) {
        None => if opens_indefinite(s, pos, MAJOR_BYTES) {
            chunks_to_break(s, pos + 1, MAJOR_BYTES)
        } else if opens_indefinite(s, pos, MAJOR_TEXT) {
            chunks_to_break(s, pos + 1, MAJOR_TEXT)
        } else if opens_indefinite(s, pos, MAJOR_ARRAY) && depth > 0 {
            items_to_break(s, pos + 1, (depth - 1) as nat, false)
        } else if opens_indefinite(s, pos, MAJOR_MAP) && depth > 0 {
            items_to_break(s, pos + 1, (depth - 1) as nat, true)
        } else {
            None
        },
        Some(h) => if h.major == MAJOR_UNSIGNED || h.major == MAJOR_NEGATIVE {
            Some(h.next)
        } else if h.major == MAJOR_BYTES || h.major == MAJOR_TEXT {
            if h.next + h.arg <= s.len() && chunk_fits(
                h.major,
                s.subrange(h.next, h.next + h.arg),
            ) {
                Some(h.next + h.arg)
            } else {
                None
            }
        } else if h.major == MAJOR_ARRAY {
            if depth == 0 {
                None
            } else {
                items_end(s, h.next, h.arg as nat, (depth - 1) as nat)
            }
        } else if h.major == MAJOR_MAP {
            if depth == 0 {
                None
            } else {
                items_end(s, h.next, 2 * (h.arg as nat), (depth - 1) as nat)
            }
        } else if h.major == MAJOR_TAG {
            if depth == 0 {
                None
            } else {
                item_end(s, h.next, (depth - 1) as nat)
            }
        } else if simple_info_known(s[pos] % 32) {
            Some(h.next)
        } else {
            None
        },
    }
}

/// The offset after `count` well-formed items that follow one another from
/// `pos` on, each nesting at most `depth` levels deep.
pub open spec fn items_end(s: Seq<u8>, pos: int, count: nat, depth: nat) -> Option<int>
    decreases depth, 1nat, count,
{
    if count == 0 {
        Some(pos)
    } else {
        match item_end(s, pos, depth) {
            Some(next) => items_end(s, next, (count - 1) as nat, depth),
            None => None,
        }
    }
}

/// The offset after the break that ends an array or a map of indefinite
/// length, whose well-formed items follow one another from `pos` on, each
/// nesting at most `depth` levels deep. With `pairs` the items come two by
/// two, a key and its value, and the break stands in the place of a key.
pub open spec fn items_to_break(s: Seq<u8>, pos: int, depth: nat, pairs: bool) -> Option<int>
    decreases depth, 1nat, s.len() - pos,
{
    if is_break(s, pos) {
        Some(pos + 1)
    } else {
        match item_end(s, pos, depth) {
            Some(mid) => {
                let end = if pairs {
                    item_end(s, mid, depth)
                } else {
                    Some(mid)
                };
                match end {
                    Some(next) => if pos < next <= s.len() {
                        items_to_break(s, next, depth, pairs)
                    } else {
                        None
                    },
                    None => None,
                }
            },
            None => None,
        }
    }
}

/// Reading back an array of bytes gives the bytes it was made from.
pub proof fn lemma_byte_items_round_trip(s: Seq<u8>, pos: int, bytes: Seq<u8>, acc: Seq<u8>)
    requires
        has_at(s, pos, byte_items(bytes)),
    ensures
        byte_items_at(s, pos, bytes.len(), acc) == Some(
            (acc + bytes, pos + byte_items(bytes).len()),
        ),
    decreases bytes.len(),
{
    if bytes.len() == 0 {
        assert(acc + bytes =~= acc);
    } else {
        let first = uint_bytes(bytes[0] as u64);
        lemma_has_at_split(s, pos, first, byte_items(bytes.drop_first()));
        lemma_head_round_trip(s, pos, MAJOR_UNSIGNED, bytes[0] as u64);
        lemma_byte_items_round_trip(s, pos + first.len(), bytes.drop_first(), acc.push(bytes[0]));
        assert(acc.push(bytes[0]) + bytes.drop_first() =~= acc + bytes);
    }
}

/// Reading back a text string gives the bytes it was made from.
pub proof fn lemma_text_round_trip(s: Seq<u8>, pos: int, text: Seq<u8>)
    requires
        text.len() <= u64::MAX,
        has_at(s, pos, text_bytes(text)),
    ensures
        text_at(s, pos) == Some((text, pos + text_bytes(text).len())),
{
    let head = head_bytes(MAJOR_TEXT, text.len() as u64);
    lemma_has_at_split(s, pos, head, text);
    lemma_head_round_trip(s, pos, MAJOR_TEXT, text.len() as u64);
}

/// Appends `text` as a text string of definite length.
pub fn push_text(out: &mut Vec<u8>, text: &[u8])
    ensures
        final(out)@ == old(out)@ + text_bytes(text@),
{
    push_head(out, MAJOR_TEXT, text.len() as u64);
    out.extend_from_slice(text);
    assert(final(out)@ =~= old(out)@ + text_bytes(text@));
}

/// Appends `bytes` as an array of unsigned integers.
pub fn push_byte_array(out: &mut Vec<u8>, bytes: &[u8])
    ensures
        final(out)@ == old(out)@ + byte_array_bytes(bytes@),
{
    push_head(out, MAJOR_ARRAY, bytes.len() as u64);
    let ghost base = out@;
    let mut i: usize = 0;
    assert(bytes@.skip(0) =~= bytes@);
    while i < bytes.len()
        invariant
            i <= bytes.len(),
            base + byte_items(bytes@) == out@ + byte_items(bytes@.skip(i as int)),
        decreases bytes.len() - i,
    {
        let ghost rest = bytes@.skip(i as int);
        let ghost before = out@;
        assert(rest.drop_first() =~= bytes@.skip(i + 1));
        assert(rest[0] == bytes@[i as int]);
        push_head(out, MAJOR_UNSIGNED, bytes[i] as u64);
        assert(before + byte_items(rest) =~= out@ + byte_items(rest.drop_first()));
        i += 1;
    }
    assert(byte_items(bytes@.skip(i as int)) =~= Seq::<u8>::empty());
    assert(out@ =~= base + byte_items(bytes@));
    assert(final(out)@ =~= old(out)@ + byte_array_bytes(bytes@));
}

/// `std::str::from_utf8` of the standard library, asked only whether it
/// succeeds: it does exactly on valid UTF-8.
#[verifier::external_body]
pub(crate) fn is_utf8(bytes: &[u8]) -> (valid: bool)
    ensures
        valid == valid_utf8(bytes@),
{
    std::str::from_utf8(bytes).is_ok()
}

/// Reads an unsigned integer of at most `max` at `pos`.
pub fn read_uint(data: &[u8], pos: usize, max: u64) -> (r: Option<(u64, usize)>)
    ensures
        match r {
            Some((v, next)) => uint_at(data@, pos as int, max) == Some((v, next as int)),
            None => uint_at(data@, pos as int, max) is None,
        },
{
    match read_head(data, pos) {
        Some((major, arg, next)) => if major == MAJOR_UNSIGNED && arg <= max {
            Some((arg, next))
        } else {
            None
        },
        None => None,
    }
}

/// Reads the text string at `pos`; the result holds the offsets at which
/// its content starts and ends.
pub fn read_text(data: &[u8], pos: usize) -> (r: Option<(usize, usize)>)
    ensures
        match r {
            Some((start, end)) => start <= end <= data.len() && text_at(data@, pos as int)
                == Some((data@.subrange(start as int, end as int), end as int)),
            None => text_at(data@, pos as int) is None,
        },
{
    match read_head(data, pos) {
        Some((major, arg, next)) => if major == MAJOR_TEXT && arg <= (data.len() - next) as u64 {
            Some((next, next + (arg as usize)))
        } else {
            None
        },
        None => None,
    }
}

/// Reads the array of bytes at `pos`.
pub fn read_byte_array(data: &[u8], pos: usize) -> (r: Option<(Vec<u8>, usize)>)
    ensures
        match r {
            Some((bytes, next)) => next <= data.len() && byte_array_at(data@, pos as int) == Some(
                (bytes@, next as int),
            ),
            None => byte_array_at(data@, pos as int) is None,
        },
{
    let mut bytes: Vec<u8> = Vec::new();
    match read_head(data, pos) {
        None => {
            if !(pos < data.len() && data[pos] == MAJOR_ARRAY * 32 + INFO_INDEFINITE) {
                return None;
            }
            let mut at: usize = pos + 1;
            loop
                invariant
                    at <= data.len(),
                    head_at(data@, pos as int) is None,
                    opens_indefinite(data@, pos as int, MAJOR_ARRAY),
                    byte_items_to_break(data@, pos + 1, Seq::empty()) == byte_items_to_break(
                        data@,
                        at as int,
                        bytes@,
                    ),
                decreases data.len() - at,
            {
                if at < data.len() && data[at] == BREAK {
                    return Some((bytes, at + 1));
                }
                match read_uint(data, at, 255) {
                    None => {
                        return None;
                    },
                    Some((v, next)) => {
                        bytes.push(v as u8);
                        at = next;
                    },
                }
            }
        },
        Some((major, count, start)) => {
            if major != MAJOR_ARRAY {
                return None;
            }
            let mut at: usize = start;
            let mut i: u64 = 0;
            while i < count
                invariant
                    i <= count,
                    at <= data.len(),
                    major == MAJOR_ARRAY,
                    head_at(data@, pos as int) == Some(
                        Head { major, arg: count, next: start as int },
                    ),
                    byte_items_at(data@, start as int, count as nat, Seq::empty())
                        == byte_items_at(data@, at as int, (count - i) as nat, bytes@),
                decreases count - i,
            {
                match read_uint(data, at, 255) {
                    None => {
                        return None;
                    },
                    Some((v, next)) => {
                        bytes.push(v as u8);
                        at = next;
                    },
                }
                i += 1;
            }
            Some((bytes, at))
        },
    }
}

/// Passes over the chunks of a string of indefinite length under `major`,
/// from `pos` on, and returns the offset after the break.
fn skip_chunks(data: &[u8], pos: usize, major: u8) -> (r: Option<usize>)
    ensures
        match r {
            Some(next) => next <= data.len() && chunks_to_break(data@, pos as int, major) == Some(
                next as int,
            ),
            None => chunks_to_break(data@, pos as int, major) is None,
        },
{
    let mut at: usize = pos;
    loop
        invariant
            chunks_to_break(data@, pos as int, major) == chunks_to_break(data@, at as int, major),
        decreases data.len() - at,
    {
        if at < data.len() && data[at] == BREAK {
            return Some(at + 1);
        }
        match read_head(data, at) {
            None => {
                return None;
            },
            Some((found, len, start)) => {
                if found != major || len > (data.len() - start) as u64 {
                    return None;
                }
                let end: usize = start + (len as usize);
                if major == MAJOR_TEXT && !is_utf8(slice_subrange(data, start, end)) {
                    return None;
                }
                at = end;
            },
        }
    }
}

/// Passes over the item at `pos` without reading it, and returns the
/// offset after it.
pub fn skip_item(data: &[u8], pos: usize, depth: u8) -> (r: Option<usize>)
    ensures
        match r {
            Some(next) => next <= data.len() && item_end(data@, pos as int, depth as nat) == Some(
                next as int,
            ),
            None => item_end(data@, pos as int, depth as nat) is None,
        },
    decreases depth,
{
    match read_head(data, pos) {
        None => {
            if !(pos < data.len() && data[pos] % 32 == INFO_INDEFINITE) {
                return None;
            }
            let major: u8 = data[pos] / 32;
            if major == MAJOR_BYTES || major == MAJOR_TEXT {
                skip_chunks(data, pos + 1, major)
            } else if (major == MAJOR_ARRAY || major == MAJOR_MAP) && depth > 0 {
                let pairs: bool = major == MAJOR_MAP;
                let mut at: usize = pos + 1;
                loop
                    invariant
                        depth > 0,
                        at <= data.len(),
                        major == MAJOR_ARRAY || major == MAJOR_MAP,
                        pairs == (major == MAJOR_MAP),
                        head_at(data@, pos as int) is None,
                        opens_indefinite(data@, pos as int, major),
                        items_to_break(data@, pos + 1, (depth - 1) as nat, pairs)
                            == items_to_break(data@, at as int, (depth - 1) as nat, pairs),
                    decreases data.len() - at,
                {
                    if at < data.len() && data[at] == BREAK {
                        return Some(at + 1);
                    }
                    let mid: usize = match skip_item(data, at, depth - 1) {
                        None => {
                            return None;
                        },
                        Some(mid) => mid,
                    };
                    let next: usize = if pairs {
                        match skip_item(data, mid, depth - 1) {
                            None => {
                                return None;
                            },
                            Some(next) => next,
                        }
                    } else {
                        mid
                    };
                    if next <= at {
                        return None;
                    }
                    at = next;
                }
            } else {
                None
            }
        },
        Some((major, arg, next)) => {
            if major == MAJOR_UNSIGNED || major == MAJOR_NEGATIVE {
                Some(next)
            } else if major == MAJOR_BYTES || major == MAJOR_TEXT {
                if arg > (data.len() - next) as u64 {
                    return None;
                }
                let end: usize = next + (arg as usize);
                if major == MAJOR_TEXT && !is_utf8(slice_subrange(data, next, end)) {
                    return None;
                }
                Some(end)
            } else if major == MAJOR_ARRAY || major == MAJOR_MAP {
                if depth == 0 {
                    return None;
                }
                let count: u128 = if major == MAJOR_ARRAY {
                    arg as u128
                } else {
                    2 * (arg as u128)
                };
                let mut at: usize = next;
                let mut i: u128 = 0;
                while i < count
                    invariant
                        i <= count,
                        depth > 0,
                        at <= data.len(),
                        major == MAJOR_ARRAY || major == MAJOR_MAP,
                        count == if major == MAJOR_ARRAY {
                            arg as nat
                        } else {
                            2 * (arg as nat)
                        },
                        head_at(data@, pos as int) == Some(Head { major, arg, next: next as int }),
                        items_end(data@, next as int, count as nat, (depth - 1) as nat)
                            == items_end(data@, at as int, (count - i) as nat, (depth - 1) as nat),
                    decreases count - i,
                {
                    match skip_item(data, at, depth - 1) {
                        None => {
                            return None;
                        },
                        Some(after) => {
                            at = after;
                        },
                    }
                    i += 1;
                }
                Some(at)
            } else if major == MAJOR_TAG {
                if depth == 0 {
                    None
                } else {
                    skip_item(data, next, depth - 1)
                }
            } else {
                let info: u8 = data[pos] % 32;
                if (20 <= info && info <= 23) || (25 <= info && info <= 27) {
                    Some(next)
                } else {
                    None
                }
            }
        },
    }
}

/// Whether the bytes of `data` from `start` up to `end` are those of `key`.
pub fn range_equals(data: &[u8], start: usize, end: usize, key: &[u8]) -> (same: bool)
    requires
        start <= end <= data.len(),
    ensures
        same == (data@.subrange(start as int, end as int) == key@),
{
    let ghost range = data@.subrange(start as int, end as int);
    if end - start != key.len() {
        return false;
    }
    let mut i: usize = 0;
    while i < key.len()
        invariant
            i <= key.len(),
            start <= end <= data.len(),
            end - start == key.len(),
            range == data@.subrange(start as int, end as int),
            forall|j: int| 0 <= j < i ==> range[j] == key@[j],
        decreases key.len() - i,
    {
        if data[start + i] != key[i] {
            assert(range[i as int] != key@[i as int]);
            return false;
        }
        i += 1;
    }
    assert(range =~= key@);
    true
}

} // verus!
