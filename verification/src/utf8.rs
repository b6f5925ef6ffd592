//! UTF-8 text as files and pipes hold it: bytes that may be cut or damaged, and their lines.
use crate::text::{
    lemma_char_code, lemma_split_once_char_none, lemma_split_once_char_parts, lines, split_once,
    strip_return,
};
use vstd::prelude::*;
use vstd::slice::slice_subrange;
use vstd::utf8::{
    decode_utf8, encode_scalar, encode_utf8, encode_utf8_decode_utf8, encode_utf8_valid_utf8,
    last_continuation_byte, leading_byte_width_1, leading_byte_width_2, leading_byte_width_3,
    leading_byte_width_4, second_last_continuation_byte, third_last_continuation_byte, valid_utf8,
};

verus! {

/// The text that `String::from_utf8_lossy` makes of bytes.
pub uninterp spec fn utf8_lossy(bytes: Seq<u8>) -> Seq<char>;

/// `String::from_utf8_lossy` decodes bytes as UTF-8 and puts replacement characters where they are
/// invalid. Its result depends on the bytes alone; of valid UTF-8 it is the text that the bytes
/// encode. Which bytes one replacement character stands for is left unsaid.
#[verifier::external_body]
pub(crate) fn from_utf8_lossy(bytes: &[u8]) -> (r: String)
    ensures
        r@ == utf8_lossy(bytes@),
        valid_utf8(bytes@) ==> r@ == decode_utf8(bytes@),
{
    String::from_utf8_lossy(bytes).into_owned()
}

/// The line feed.
pub const FEED: u8 = 10;

/// The carriage return.
pub const RETURN: u8 = 13;

/// How many bytes stand before the first line feed, or in all if there is none.
pub open spec fn first_feed(b: Seq<u8>) -> nat
    decreases b.len(),
{
    if b.len() == 0 || b[0] == FEED {
        0
    } else {
        1 + first_feed(b.skip(1))
    }
}

/// The bytes of a line without the carriage return that closes it.
pub open spec fn strip_return_byte(b: Seq<u8>) -> Seq<u8> {
    if b.len() > 0 && b.last() == RETURN {
        b.drop_last()
    } else {
        b
    }
}

/// The lines of bytes: each ends with a line feed, or a carriage return and a line feed, neither of
/// which belongs to the line. What follows the last line feed is a line if it is not empty.
pub open spec fn byte_lines(b: Seq<u8>) -> Seq<Seq<u8>>
    decreases b.len(),
{
    let n: int = first_feed(b) as int;
    if n < b.len() {
        seq![strip_return_byte(b.take(n))] + byte_lines(b.skip(n + 1))
    } else if b.len() == 0 {
        seq![]
    } else {
        seq![b]
    }
}

/// The bytes of a list of byte vectors.
pub open spec fn byte_rows(v: Seq<Vec<u8>>) -> Seq<Seq<u8>> {
    v.map_values(|x: Vec<u8>| x@)
}

/// Bytes with no line feed among them stand before the first one.
proof fn lemma_first_feed(a: Seq<u8>, t: Seq<u8>)
    requires
        !a.contains(FEED),
        t.len() == 0 || t[0] == FEED,
    ensures
        first_feed(a + t) == a.len(),
    decreases a.len(),
{
    if a.len() == 0 {
        assert(a + t =~= t);
    } else {
        assert(a.contains(a[0]));
        assert((a + t)[0] == a[0]);
        assert((a + t).skip(1) =~= a.skip(1) + t);
        assert forall|i: int| 0 <= i < a.skip(1).len() implies a.skip(1)[i] != FEED by {
            assert(a.contains(a[i + 1]));
        }
        lemma_first_feed(a.skip(1), t);
    }
}

/// The bytes before the first line feed hold none.
proof fn lemma_first_feed_parts(b: Seq<u8>)
    ensures
        first_feed(b) <= b.len(),
        !b.take(first_feed(b) as int).contains(FEED),
        first_feed(b) < b.len() ==> b[first_feed(b) as int] == FEED,
    decreases b.len(),
{
    if b.len() > 0 && b[0] != FEED {
        lemma_first_feed_parts(b.skip(1));
        let n: int = first_feed(b) as int;
        assert forall|i: int| 0 <= i < b.take(n).len() implies b.take(n)[i] != FEED by {
            if i > 0 {
                let tail: Seq<u8> = b.skip(1).take(n - 1);
                assert(tail[i - 1] == b[i]);
                assert(tail.contains(tail[i - 1]));
            }
        }
    }
}

/// Copies bytes.
fn copy_bytes(b: &[u8]) -> (r: Vec<u8>)
    ensures
        r@ == b@,
{
    let mut out: Vec<u8> = Vec::new();
    let mut i: usize = 0;
    while i < b.len()
        invariant
            i <= b@.len(),
            out@ == b@.take(i as int),
        decreases b@.len() - i,
    {
        out.push(b[i]);
        assert(b@.take(i + 1) == b@.take(i as int).push(b@[i as int]));
        i = i + 1;
    }
    assert(b@.take(b@.len() as int) == b@);
    out
}

/// Finds the first line feed, or the end.
fn find_feed(b: &[u8]) -> (r: usize)
    ensures
        r == first_feed(b@),
        r <= b@.len(),
{
    let n: usize = b.len();
    let mut i: usize = 0;
    assert(b@.skip(0) =~= b@);
    while i < n && b[i] != FEED
        invariant
            i <= n,
            n == b@.len(),
            first_feed(b@) == i + first_feed(b@.skip(i as int)),
        decreases n - i,
    {
        assert(b@.skip(i as int).skip(1) =~= b@.skip(i + 1));
        i = i + 1;
    }
    i
}

/// Splits bytes into their lines.
pub fn split_lines(b: &[u8]) -> (r: Vec<Vec<u8>>)
    ensures
        byte_rows(r@) == byte_lines(b@),
{
    let mut out: Vec<Vec<u8>> = Vec::new();
    let mut rest: &[u8] = b;
    assert(byte_rows(out@) + byte_lines(b@) =~= byte_lines(b@));
    loop
        invariant
            byte_lines(b@) == byte_rows(out@) + byte_lines(rest@),
        ensures
            byte_lines(b@) == byte_rows(out@) + byte_lines(rest@),
            first_feed(rest@) >= rest@.len(),
        decreases rest@.len(),
    {
        let len: usize = rest.len();
        let n: usize = find_feed(rest);
        if n >= len {
            break;
        }
        let ghost before: Seq<Seq<u8>> = byte_rows(out@);
        let a: &[u8] = slice_subrange(rest, 0, n);
        assert(a@ =~= rest@.take(n as int));
        let line: Vec<u8> = if n > 0 && a[n - 1] == RETURN {
            copy_bytes(slice_subrange(a, 0, n - 1))
        } else {
            copy_bytes(a)
        };
        assert(line@ =~= strip_return_byte(rest@.take(n as int)));
        out.push(line);
        assert(byte_rows(out@) =~= before.push(line@));
        let next: &[u8] = slice_subrange(rest, n + 1, len);
        assert(next@ =~= rest@.skip(n + 1));
        assert(before + (seq![line@] + byte_lines(next@)) =~= byte_rows(out@) + byte_lines(next@));
        rest = next;
    }
    if rest.len() > 0 {
        let ghost before: Seq<Seq<u8>> = byte_rows(out@);
        out.push(copy_bytes(rest));
        assert(byte_rows(out@) =~= before + seq![rest@]);
    } else {
        assert(byte_rows(out@) + byte_lines(rest@) =~= byte_rows(out@));
    }
    out
}

/// The bytes of a character above 127 are all above 127.
proof fn lemma_high_bytes(u: u32)
    requires
        u >= 128,
    ensures
        leading_byte_width_2(u) >= 128,
        leading_byte_width_3(u) >= 128,
        leading_byte_width_4(u) >= 128,
        last_continuation_byte(u) >= 128,
        second_last_continuation_byte(u) >= 128,
        third_last_continuation_byte(u) >= 128,
{
    assert(leading_byte_width_2(u) >= 128) by (bit_vector);
    assert(leading_byte_width_3(u) >= 128) by (bit_vector);
    assert(leading_byte_width_4(u) >= 128) by (bit_vector);
    assert(last_continuation_byte(u) >= 128) by (bit_vector);
    assert(second_last_continuation_byte(u) >= 128) by (bit_vector);
    assert(third_last_continuation_byte(u) >= 128) by (bit_vector);
}

/// A character below 128 is one byte; of another, every byte is above 127.
proof fn lemma_scalar_bytes(c: char)
    ensures
        0x80 > c as int ==> encode_scalar(c as u32) == seq![c as int as u8],
        0x80 <= c as int ==> forall|i: int|
            0 <= i < encode_scalar(c as u32).len() ==> (#[trigger] encode_scalar(c as u32)[i])
                >= 128,
        encode_scalar(c as u32).len() > 0,
{
    let u: u32 = c as u32;
    if u < 128 {
        assert(leading_byte_width_1(u) == u) by (bit_vector)
            requires
                u < 128,
        ;
    } else {
        lemma_high_bytes(u);
    }
}

/// The bytes of two texts, one behind the other.
pub proof fn lemma_encode_concat(a: Seq<char>, b: Seq<char>)
    ensures
        encode_utf8(a + b) == encode_utf8(a) + encode_utf8(b),
    decreases a.len(),
{
    if a.len() == 0 {
        assert(a + b =~= b);
        assert(encode_utf8(a) + encode_utf8(b) =~= encode_utf8(b));
    } else {
        assert((a + b).drop_first() =~= a.drop_first() + b);
        lemma_encode_concat(a.drop_first(), b);
        assert(encode_utf8(a + b) =~= encode_utf8(a) + encode_utf8(b));
    }
}

/// The bytes of one character below 128.
pub proof fn lemma_encode_one(c: char)
    requires
        0x80 > c as int,
    ensures
        encode_utf8(seq![c]) == seq![c as int as u8],
{
    lemma_scalar_bytes(c);
    assert(seq![c].drop_first() =~= seq![]);
    assert(encode_utf8(seq![]) =~= seq![]);
    assert(encode_utf8(seq![c]) =~= seq![c as int as u8]);
}

/// A text without a character below 128 has bytes without that byte.
proof fn lemma_encode_lacks(s: Seq<char>, c: char)
    requires
        0x80 > c as int,
        !s.contains(c),
    ensures
        !encode_utf8(s).contains(c as int as u8),
    decreases s.len(),
{
    if s.len() > 0 {
        let tail: Seq<char> = s.drop_first();
        assert(s.contains(s[0]));
        assert forall|i: int| 0 <= i < tail.len() implies tail[i] != c by {
            assert(s.contains(s[i + 1]));
        }
        lemma_encode_lacks(tail, c);
        lemma_scalar_bytes(s[0]);
        lemma_char_code(s[0]);
        lemma_char_code(c);
        let first: Seq<u8> = encode_scalar(s[0] as u32);
        let rest: Seq<u8> = encode_utf8(tail);
        let all: Seq<u8> = encode_utf8(s);
        assert forall|i: int| 0 <= i < all.len() implies all[i] != c as int as u8 by {
            if i < first.len() {
                assert(all[i] == first[i]);
            } else {
                assert(all[i] == rest[i - first.len()]);
                assert(rest.contains(rest[i - first.len()]));
            }
        }
    }
}

/// Taking the carriage return off a line and encoding it can be done in either order.
proof fn lemma_strip_encode(s: Seq<char>)
    ensures
        strip_return_byte(encode_utf8(s)) == encode_utf8(strip_return(s)),
{
    if s.len() > 0 {
        let init: Seq<char> = s.drop_last();
        let c: char = s.last();
        assert(s =~= init + seq![c]);
        lemma_encode_concat(init, seq![c]);
        lemma_scalar_bytes(c);
        lemma_char_code(c);
        assert(seq![c].drop_first() =~= seq![]);
        assert(encode_utf8(seq![]) =~= seq![]);
        assert(encode_utf8(seq![c]) =~= encode_scalar(c as u32));
        let last: Seq<u8> = encode_scalar(c as u32);
        let all: Seq<u8> = encode_utf8(s);
        assert(all.last() == last[last.len() - 1]);
        if c == '\r' {
            assert(all.drop_last() =~= encode_utf8(init));
        }
    }
}

/// The lines of an encoded text are its lines, each encoded.
pub proof fn law_lines_of_encoded_text(s: Seq<char>)
    ensures
        byte_lines(encode_utf8(s)) == lines(s).map_values(|l: Seq<char>| encode_utf8(l)),
    decreases s.len(),
{
    let all: Seq<u8> = encode_utf8(s);
    let f = |l: Seq<char>| encode_utf8(l);
    lemma_split_once_char_none(s, '\n');
    lemma_split_once_char_parts(s, '\n');
    match split_once(s, seq!['\n']) {
        Some((a, b)) => {
            lemma_encode_concat(a + seq!['\n'], b);
            lemma_encode_concat(a, seq!['\n']);
            lemma_encode_one('\n');
            lemma_encode_lacks(a, '\n');
            let ea: Seq<u8> = encode_utf8(a);
            let t: Seq<u8> = seq![FEED] + encode_utf8(b);
            assert(all =~= ea + t);
            lemma_first_feed(ea, t);
            assert(all.take(ea.len() as int) =~= ea);
            assert(all.skip(ea.len() as int + 1) =~= encode_utf8(b));
            lemma_strip_encode(a);
            law_lines_of_encoded_text(b);
            assert(lines(s).map_values(f) =~= seq![encode_utf8(strip_return(a))] + lines(
                b,
            ).map_values(f));
        },
        None => {
            lemma_encode_lacks(s, '\n');
            lemma_first_feed(all, seq![]);
            assert(all + seq![] =~= all);
            if s.len() == 0 {
                assert(lines(s).map_values(f) =~= seq![]);
            } else {
                lemma_scalar_bytes(s[0]);
                assert(lines(s).map_values(f) =~= seq![all]);
            }
        },
    }
}

/// The lines of valid UTF-8 are the lines of its text, each encoded.
pub proof fn law_lines_of_valid_utf8(b: Seq<u8>)
    requires
        valid_utf8(b),
    ensures
        byte_lines(b).len() == lines(decode_utf8(b)).len(),
        forall|i: int|
            0 <= i < byte_lines(b).len() ==> valid_utf8(#[trigger] byte_lines(b)[i]) && decode_utf8(
                byte_lines(b)[i],
            ) == lines(decode_utf8(b))[i],
{
    let s: Seq<char> = decode_utf8(b);
    vstd::utf8::decode_utf8_encode_utf8(b);
    law_lines_of_encoded_text(s);
    assert forall|i: int| 0 <= i < byte_lines(b).len() implies valid_utf8(
        #[trigger] byte_lines(b)[i],
    ) && decode_utf8(byte_lines(b)[i]) == lines(s)[i] by {
        encode_utf8_valid_utf8(lines(s)[i]);
        encode_utf8_decode_utf8(lines(s)[i]);
    }
}

/// Cutting bytes behind a line feed cuts their lines.
pub proof fn lemma_byte_lines_concat(a: Seq<u8>, b: Seq<u8>)
    requires
        a.len() == 0 || a.last() == FEED,
    ensures
        byte_lines(a + b) == byte_lines(a) + byte_lines(b),
    decreases a.len(),
{
    if a.len() == 0 {
        assert(a + b =~= b);
        assert(byte_lines(a) + byte_lines(b) =~= byte_lines(b));
    } else {
        lemma_first_feed_parts(a);
        let n: int = first_feed(a) as int;
        if n == a.len() {
            assert(a.take(n) =~= a);
            assert(a.contains(a[a.len() - 1]));
        }
        let x: Seq<u8> = a.take(n);
        let y: Seq<u8> = a.skip(n + 1);
        let t: Seq<u8> = seq![FEED] + (y + b);
        assert(a + b =~= x + t);
        lemma_first_feed(x, t);
        assert((a + b).take(n) =~= x);
        assert((a + b).skip(n + 1) =~= y + b);
        if y.len() > 0 {
            assert(y.last() == a.last());
        }
        lemma_byte_lines_concat(y, b);
        assert(seq![strip_return_byte(x)] + (byte_lines(y) + byte_lines(b)) =~= (
        seq![strip_return_byte(x)] + byte_lines(y)) + byte_lines(b));
    }
}

/// Bytes are their lines: what stands before the first line feed, without one carriage return at its
/// end, is the first; the rest has the others. Bytes without a line feed are one line as they stand,
/// unless there are none.
pub proof fn law_byte_lines_end_at_feeds(a: Seq<u8>, b: Seq<u8>)
    requires
        !a.contains(10u8),
    ensures
        byte_lines(a + seq![10u8] + b) == seq![
            if a.len() > 0 && a.last() == 13 {
                a.drop_last()
            } else {
                a
            },
        ] + byte_lines(b),
        a.len() > 0 ==> byte_lines(a) == seq![a],
        a.len() == 0 ==> byte_lines(a) == Seq::<Seq<u8>>::empty(),
{
    let t: Seq<u8> = seq![10u8] + b;
    let all: Seq<u8> = a + seq![10u8] + b;
    assert(all =~= a + t);
    lemma_first_feed(a, t);
    assert(all.take(a.len() as int) =~= a);
    assert(all.skip(a.len() as int + 1) =~= b);
    lemma_first_feed(a, seq![]);
    assert(a + seq![] =~= a);
}

} // verus!
