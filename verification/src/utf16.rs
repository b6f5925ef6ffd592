//! UTF-16 text as Windows interfaces hold it: null-terminated strings, string lists and the raw
//! bytes of registry values.
use crate::text::{code_point, lemma_char_code, texts, to_chars};
use vstd::prelude::*;

verus! {

/// `char::from_u32` gives the character with the code point `i` where `i` is a Unicode scalar
/// value, and nothing elsewhere.
pub assume_specification[ char::from_u32 ](i: u32) -> (r: Option<char>)
    ensures
        r == (if i <= 0x10ffff && !(0xd800 <= i <= 0xdfff) {
            Some(i as char)
        } else {
            None
        }),
;

/// The code units of one character: the code point itself below 65536, a surrogate pair above.
pub open spec fn char_units(c: char) -> Seq<u16> {
    let u: int = c as int;
    if u < 0x10000 {
        seq![u as u16]
    } else {
        seq![(0xd800 + (u - 0x10000) / 0x400) as u16, (0xdc00 + (u - 0x10000) % 0x400) as u16]
    }
}

/// The UTF-16 code units of a text.
pub open spec fn utf16(s: Seq<char>) -> Seq<u16>
    decreases s.len(),
{
    if s.len() == 0 {
        seq![]
    } else {
        utf16(s.drop_last()) + char_units(s.last())
    }
}

/// A text in UTF-16 with the null unit that ends it.
pub open spec fn wide(s: Seq<char>) -> Seq<u16> {
    utf16(s).push(0)
}

/// The first unit of a surrogate pair.
pub open spec fn is_high(u: u16) -> bool {
    0xd800 <= u <= 0xdbff
}

/// The second unit of a surrogate pair.
pub open spec fn is_low(u: u16) -> bool {
    0xdc00 <= u <= 0xdfff
}

/// The character of a surrogate pair.
pub open spec fn pair_char(high: u16, low: u16) -> char {
    (0x10000 + (high - 0xd800) * 0x400 + (low - 0xdc00)) as char
}

/// The text that code units stand for, with U+FFFD for each surrogate that is not part of a pair.
pub open spec fn decode_utf16(u: Seq<u16>) -> Seq<char>
    decreases u.len(),
{
    if u.len() == 0 {
        seq![]
    } else if !is_high(u[0]) && !is_low(u[0]) {
        seq![u[0] as char] + decode_utf16(u.skip(1))
    } else if is_high(u[0]) && u.len() > 1 && is_low(u[1]) {
        seq![pair_char(u[0], u[1])] + decode_utf16(u.skip(2))
    } else {
        seq!['\u{fffd}'] + decode_utf16(u.skip(1))
    }
}

/// Writes the code units of `c` behind `out`.
fn push_char(out: &mut Vec<u16>, c: char)
    ensures
        final(out)@ == old(out)@ + char_units(c),
{
    let u: u32 = code_point(c);
    if u < 0x10000 {
        out.push(u as u16);
    } else {
        let v: u32 = u - 0x10000;
        out.push((0xd800 + v / 0x400) as u16);
        out.push((0xdc00 + v % 0x400) as u16);
    }
    assert(out@ =~= old(out)@ + char_units(c));
}

/// Writes the code units of `s` behind `out`.
fn push_text(out: &mut Vec<u16>, s: &str)
    ensures
        final(out)@ == old(out)@ + utf16(s@),
{
    let chars: Vec<char> = to_chars(s);
    let mut i: usize = 0;
    assert(out@ + utf16(chars@.take(0)) =~= out@);
    while i < chars.len()
        invariant
            i <= chars@.len(),
            out@ == old(out)@ + utf16(chars@.take(i as int)),
        decreases chars@.len() - i,
    {
        push_char(out, chars[i]);
        assert(chars@.take(i + 1).drop_last() =~= chars@.take(i as int));
        assert(out@ =~= old(out)@ + utf16(chars@.take(i + 1)));
        i = i + 1;
    }
    assert(chars@.take(chars@.len() as int) =~= s@);
}

/// The null-terminated UTF-16 form of `s`.
pub fn to_wide(s: &str) -> (r: Vec<u16>)
    ensures
        r@ == wide(s@),
{
    let mut out: Vec<u16> = Vec::new();
    push_text(&mut out, s);
    assert(out@ =~= utf16(s@));
    out.push(0);
    out
}

/// The code units of a list of unit vectors.
pub open spec fn unit_rows(v: Seq<Vec<u16>>) -> Seq<Seq<u16>> {
    v.map_values(|x: Vec<u16>| x@)
}

/// Copies code units and puts a null unit behind them.
pub fn null_terminated(u: &[u16]) -> (r: Vec<u16>)
    ensures
        r@ == u@.push(0),
{
    let mut out: Vec<u16> = Vec::new();
    let mut i: usize = 0;
    while i < u.len()
        invariant
            i <= u@.len(),
            out@ == u@.take(i as int),
        decreases u@.len() - i,
    {
        out.push(u[i]);
        assert(u@.take(i + 1) == u@.take(i as int).push(u@[i as int]));
        i = i + 1;
    }
    assert(u@.take(u@.len() as int) == u@);
    out.push(0);
    out
}

/// Reads UTF-16 code units, with U+FFFD for each unpaired surrogate.
pub fn from_utf16_lossy(u: &[u16]) -> (r: Vec<char>)
    ensures
        r@ == decode_utf16(u@),
{
    let n: usize = u.len();
    let mut out: Vec<char> = Vec::new();
    let mut i: usize = 0;
    assert(u@.skip(0) =~= u@);
    assert(out@ + decode_utf16(u@) =~= decode_utf16(u@));
    while i < n
        invariant
            i <= n,
            n == u@.len(),
            decode_utf16(u@) == out@ + decode_utf16(u@.skip(i as int)),
        decreases n - i,
    {
        let ghost before: Seq<char> = out@;
        let ghost rest: Seq<u16> = u@.skip(i as int);
        assert(rest.skip(1) =~= u@.skip(i + 1));
        let x: u16 = u[i];
        let mut c: char = '\u{fffd}';
        let mut step: usize = 1;
        if x < 0xd800 || 0xdfff < x {
            if let Some(d) = char::from_u32(x as u32) {
                c = d;
            }
        } else if x <= 0xdbff && i + 1 < n && 0xdc00 <= u[i + 1] && u[i + 1] <= 0xdfff {
            let y: u16 = u[i + 1];
            if let Some(d) = char::from_u32(
                0x10000 + (x as u32 - 0xd800) * 0x400 + (y as u32 - 0xdc00),
            ) {
                c = d;
            }
            step = 2;
            assert(rest.skip(2) =~= u@.skip(i + 2));
        }
        out.push(c);
        i = i + step;
        assert(decode_utf16(rest) == seq![c] + decode_utf16(u@.skip(i as int)));
        assert(before + (seq![c] + decode_utf16(u@.skip(i as int))) =~= out@ + decode_utf16(
            u@.skip(i as int),
        ));
    }
    assert(u@.skip(n as int) =~= seq![]);
    assert(out@ + decode_utf16(u@.skip(n as int)) =~= out@);
    out
}

/// What follows the code units of a character does not change how that character is read.
proof fn lemma_decode_char(c: char, t: Seq<u16>)
    ensures
        decode_utf16(char_units(c) + t) == seq![c] + decode_utf16(t),
{
    lemma_char_code(c);
    let u: int = c as int;
    let units: Seq<u16> = char_units(c) + t;
    if u < 0x10000 {
        assert(units.skip(1) =~= t);
    } else {
        assert(units.skip(2) =~= t);
        assert(pair_char(units[0], units[1]) == c);
    }
}

/// A text written in UTF-16 is read back in front of whatever follows it.
pub proof fn law_utf16_prefix_round_trip(s: Seq<char>, t: Seq<u16>)
    ensures
        decode_utf16(utf16(s) + t) == s + decode_utf16(t),
    decreases s.len(),
{
    if s.len() == 0 {
        assert(utf16(s) + t =~= t);
        assert(s + decode_utf16(t) =~= decode_utf16(t));
    } else {
        let init: Seq<char> = s.drop_last();
        let c: char = s.last();
        assert(utf16(s) + t =~= utf16(init) + (char_units(c) + t));
        law_utf16_prefix_round_trip(init, char_units(c) + t);
        lemma_decode_char(c, t);
        assert(init + (seq![c] + decode_utf16(t)) =~= s + decode_utf16(t));
    }
}

/// Every text written in UTF-16 is read back unchanged.
pub proof fn law_utf16_round_trip(s: Seq<char>)
    ensures
        decode_utf16(utf16(s)) == s,
{
    law_utf16_prefix_round_trip(s, seq![]);
    assert(utf16(s) + seq![] =~= utf16(s));
    assert(s + decode_utf16(seq![]) =~= s);
}

/// A null-terminated text is read back with a null character behind it.
pub proof fn law_wide_round_trip(s: Seq<char>)
    ensures
        decode_utf16(wide(s)) == s.push('\0'),
{
    let end: Seq<u16> = seq![0];
    law_utf16_prefix_round_trip(s, end);
    assert(wide(s) =~= utf16(s) + end);
    assert(end.skip(1) =~= seq![]);
    assert(decode_utf16(end.skip(1)) =~= seq![]);
    assert(decode_utf16(end) =~= seq!['\0']);
    assert(s + seq!['\0'] =~= s.push('\0'));
}

/// The null-terminated texts of a list, one behind the other.
pub open spec fn wide_all(list: Seq<Seq<char>>) -> Seq<u16>
    decreases list.len(),
{
    if list.len() == 0 {
        seq![]
    } else {
        wide(list[0]) + wide_all(list.skip(1))
    }
}

/// A list of texts as one value: each text null-terminated, and one more null unit at the end.
pub open spec fn multi_sz(list: Seq<Seq<char>>) -> Seq<u16> {
    wide_all(list).push(0)
}

/// Encodes a list of strings as one value.
pub fn encode_multi_sz(strings: &[String]) -> (r: Vec<u16>)
    ensures
        r@ == multi_sz(texts(strings@)),
{
    let ghost list: Seq<Seq<char>> = texts(strings@);
    let mut out: Vec<u16> = Vec::new();
    let mut i: usize = 0;
    assert(list.skip(0) =~= list);
    assert(out@ + wide_all(list) =~= wide_all(list));
    while i < strings.len()
        invariant
            i <= strings@.len(),
            list == texts(strings@),
            wide_all(list) == out@ + wide_all(list.skip(i as int)),
        decreases strings@.len() - i,
    {
        let ghost before: Seq<u16> = out@;
        push_text(&mut out, strings[i].as_str());
        out.push(0);
        proof {
            let rest: Seq<Seq<char>> = list.skip(i as int);
            assert(rest[0] == strings@[i as int]@);
            assert(rest.skip(1) =~= list.skip(i + 1));
            assert(out@ =~= before + wide(strings@[i as int]@));
            assert(before + (wide(rest[0]) + wide_all(list.skip(i + 1))) =~= out@ + wide_all(
                list.skip(i + 1),
            ));
        }
        i = i + 1;
    }
    assert(list.skip(strings@.len() as int) =~= seq![]);
    assert(out@ =~= wide_all(list));
    out.push(0);
    out
}

/// The units in front of the first null unit.
pub open spec fn until_null(u: Seq<u16>) -> Seq<u16>
    decreases u.len(),
{
    if u.len() == 0 || u[0] == 0 {
        seq![]
    } else {
        seq![u[0]] + until_null(u.skip(1))
    }
}

/// The entries of an encoded list, up to the first empty one.
pub open spec fn multi_sz_entries(u: Seq<u16>) -> Seq<Seq<u16>>
    decreases u.len(),
{
    let e: Seq<u16> = until_null(u);
    if e.len() == 0 || e.len() >= u.len() {
        seq![]
    } else {
        seq![e] + multi_sz_entries(u.skip(e.len() as int + 1))
    }
}

/// Units with no null among them, then a null unit, then anything: the first entry is the units.
proof fn lemma_until_null(u: Seq<u16>, t: Seq<u16>)
    requires
        !u.contains(0),
    ensures
        until_null(u.push(0) + t) == u,
    decreases u.len(),
{
    let whole: Seq<u16> = u.push(0) + t;
    if u.len() > 0 {
        assert(u[0] != 0) by {
            assert(u.contains(u[0]));
        }
        assert forall|i: int| 0 <= i < u.skip(1).len() implies u.skip(1)[i] != 0 by {
            assert(u.contains(u[i + 1]));
        }
        lemma_until_null(u.skip(1), t);
        assert(whole.skip(1) =~= u.skip(1).push(0) + t);
        assert(seq![u[0]] + u.skip(1) =~= u);
    }
}

/// A text that holds no null character and at least one other has the same of code units.
proof fn lemma_utf16_no_null(s: Seq<char>)
    requires
        !s.contains('\0'),
    ensures
        !utf16(s).contains(0),
        s.len() > 0 ==> utf16(s).len() > 0,
    decreases s.len(),
{
    if s.len() > 0 {
        let c: char = s.last();
        assert(s.contains(c)) by {
            assert(s[s.len() - 1] == c);
        }
        assert forall|i: int| 0 <= i < s.drop_last().len() implies s.drop_last()[i] != '\0' by {
            assert(s.contains(s[i]));
        }
        lemma_utf16_no_null(s.drop_last());
        lemma_char_code(c);
        let left: Seq<u16> = utf16(s.drop_last());
        assert forall|i: int| 0 <= i < utf16(s).len() implies utf16(s)[i] != 0 by {
            if i < left.len() {
                assert(left.contains(left[i]));
            } else {
                assert(utf16(s)[i] == char_units(c)[i - left.len()]);
            }
        }
    }
}

/// The entries of an encoded list are the texts of the list, in order, where none of them is empty
/// or holds a null character.
pub proof fn law_multi_sz_round_trip(list: Seq<Seq<char>>)
    requires
        forall|i: int| 0 <= i < list.len() ==> (#[trigger] list[i]).len() > 0 && !list[i].contains('\0'),
    ensures
        multi_sz_entries(multi_sz(list)) == list.map_values(|s: Seq<char>| utf16(s)),
    decreases list.len(),
{
    if list.len() == 0 {
        assert(multi_sz(list) =~= seq![0u16]);
        assert(multi_sz_entries(multi_sz(list)) =~= seq![]);
        assert(list.map_values(|s: Seq<char>| utf16(s)) =~= seq![]);
    } else {
        let tail: Seq<Seq<char>> = list.skip(1);
        let first: Seq<u16> = utf16(list[0]);
        assert forall|i: int| 0 <= i < tail.len() implies (#[trigger] tail[i]).len() > 0
            && !tail[i].contains('\0') by {
            assert(tail[i] == list[i + 1]);
        }
        law_multi_sz_round_trip(tail);
        lemma_utf16_no_null(list[0]);
        assert(multi_sz(list) =~= first.push(0) + multi_sz(tail));
        lemma_until_null(first, multi_sz(tail));
        assert(multi_sz(list).skip(first.len() as int + 1) =~= multi_sz(tail));
        assert(list.map_values(|s: Seq<char>| utf16(s)) =~= seq![first] + tail.map_values(
            |s: Seq<char>| utf16(s),
        ));
    }
}

/// Code units as bytes, the low byte of each first.
pub open spec fn unit_bytes(u: Seq<u16>) -> Seq<u8> {
    Seq::new(
        2 * u.len(),
        |i: int|
            if i % 2 == 0 {
                (u[i / 2] as int % 256) as u8
            } else {
                (u[i / 2] as int / 256) as u8
            },
    )
}

/// Bytes as code units, the low byte of each first; an odd byte at the end is dropped.
pub open spec fn bytes_units(b: Seq<u8>) -> Seq<u16> {
    Seq::new(b.len() / 2, |i: int| (b[2 * i] + 256 * b[2 * i + 1]) as u16)
}

/// Code units written as bytes are read back unchanged.
pub proof fn law_unit_bytes_round_trip(u: Seq<u16>)
    ensures
        bytes_units(unit_bytes(u)) == u,
{
    assert forall|i: int| 0 <= i < u.len() implies bytes_units(unit_bytes(u))[i] == u[i] by {
        assert((2 * i) / 2 == i && (2 * i) % 2 == 0);
        assert((2 * i + 1) / 2 == i && (2 * i + 1) % 2 == 1);
        let x: int = u[i] as int;
        assert(x % 256 + 256 * (x / 256) == x);
    }
    assert(bytes_units(unit_bytes(u)) =~= u);
}

/// Writes code units as bytes, the low byte of each first.
pub fn units_to_bytes(u: &[u16]) -> (r: Vec<u8>)
    ensures
        r@ == unit_bytes(u@),
{
    let mut out: Vec<u8> = Vec::new();
    let mut i: usize = 0;
    while i < u.len()
        invariant
            i <= u@.len(),
            out@.len() == 2 * i,
            forall|k: int| 0 <= k < 2 * i ==> out@[k] == unit_bytes(u@)[k],
        decreases u@.len() - i,
    {
        out.push((u[i] % 256) as u8);
        out.push((u[i] / 256) as u8);
        assert((2 * i) / 2 == i && (2 * i) % 2 == 0);
        assert((2 * i + 1) / 2 == i && (2 * i + 1) % 2 == 1);
        i = i + 1;
    }
    assert(out@ =~= unit_bytes(u@));
    out
}

/// Reads bytes as code units, the low byte of each first.
pub fn bytes_to_units(b: &[u8]) -> (r: Vec<u16>)
    ensures
        r@ == bytes_units(b@),
{
    let len: usize = b.len();
    let n: usize = len / 2;
    let mut out: Vec<u16> = Vec::new();
    let mut i: usize = 0;
    while i < n
        invariant
            i <= n,
            len == b@.len(),
            n == len / 2,
            out@.len() == i,
            forall|k: int| 0 <= k < i ==> out@[k] == bytes_units(b@)[k],
        decreases n - i,
    {
        let low: u16 = b[2 * i] as u16;
        let high: u16 = b[2 * i + 1] as u16;
        out.push(low + 256 * high);
        i = i + 1;
    }
    assert(out@ =~= bytes_units(b@));
    out
}

/// Whether the two rows of units are the same.
pub fn same_units(a: &[u16], b: &[u16]) -> (r: bool)
    ensures
        r == (a@ == b@),
{
    if a.len() != b.len() {
        return false;
    }
    let mut i: usize = 0;
    while i < a.len()
        invariant
            i <= a@.len(),
            a@.len() == b@.len(),
            forall|k: int| 0 <= k < i ==> a@[k] == b@[k],
        decreases a@.len() - i,
    {
        if a[i] != b[i] {
            return false;
        }
        i = i + 1;
    }
    assert(a@ =~= b@);
    true
}

/// Whether the two rows of bytes are the same.
pub fn same_bytes(a: &[u8], b: &[u8]) -> (r: bool)
    ensures
        r == (a@ == b@),
{
    if a.len() != b.len() {
        return false;
    }
    let mut i: usize = 0;
    while i < a.len()
        invariant
            i <= a@.len(),
            a@.len() == b@.len(),
            forall|k: int| 0 <= k < i ==> a@[k] == b@[k],
        decreases a@.len() - i,
    {
        if a[i] != b[i] {
            return false;
        }
        i = i + 1;
    }
    assert(a@ =~= b@);
    true
}

/// A 32-bit number as bytes, the lowest first.
pub open spec fn dword_bytes(n: u32) -> Seq<u8> {
    seq![
        (n as int % 256) as u8,
        (n as int / 256 % 256) as u8,
        (n as int / 65536 % 256) as u8,
        (n as int / 16777216) as u8,
    ]
}

/// Writes a 32-bit number as bytes, the lowest first.
pub fn dword_to_bytes(n: u32) -> (r: Vec<u8>)
    ensures
        r@ == dword_bytes(n),
{
    let out: Vec<u8> = vec![
        (n % 256) as u8,
        (n / 256 % 256) as u8,
        (n / 65536 % 256) as u8,
        (n / 16777216) as u8,
    ];
    assert(out@ =~= dword_bytes(n));
    out
}

/// A text is encoded character by character, and each character either as its code point or as two
/// units from which the code point is computed back.
pub proof fn law_utf16_by_characters(s: Seq<char>, t: Seq<char>, c: char)
    ensures
        utf16(s + t) == utf16(s) + utf16(t),
        utf16(Seq::<char>::empty()) == Seq::<u16>::empty(),
        ({
            let u: Seq<u16> = utf16(seq![c]);
            if 0x10000 > c as int {
                u.len() == 1 && u[0] as int == c as int
            } else {
                &&& u.len() == 2
                &&& 0xd800 <= u[0] < 0xdc00
                &&& 0xdc00 <= u[1] < 0xe000
                &&& c as int == 0x10000 + 0x400 * (u[0] - 0xd800) + (u[1] - 0xdc00)
            }
        }),
    decreases t.len(),
{
    lemma_char_code(c);
    let one: Seq<char> = seq![c];
    assert(one.drop_last() =~= seq![]);
    assert(utf16(one.drop_last()) =~= seq![]);
    assert(utf16(one) =~= char_units(c));
    if t.len() == 0 {
        assert(s + t =~= s);
        assert(utf16(s) + utf16(t) =~= utf16(s));
    } else {
        law_utf16_by_characters(s, t.drop_last(), c);
        assert((s + t).drop_last() =~= s + t.drop_last());
        assert(utf16(s + t) =~= utf16(s) + utf16(t));
    }
}

/// A surrogate that is no part of a pair is read as U+FFFD, and what stands before and behind it is
/// read as if it were not there: a second half by itself, and a first half with no second behind it.
pub proof fn law_unpaired_surrogate_is_replaced(s: Seq<char>, u: u16, t: Seq<u16>)
    requires
        0xdc00 <= u <= 0xdfff || (0xd800 <= u <= 0xdbff && (t.len() == 0 || !(0xdc00 <= t[0]
            <= 0xdfff))),
    ensures
        decode_utf16(utf16(s) + (seq![u] + t)) == s + (seq!['\u{fffd}'] + decode_utf16(t)),
{
    let rest: Seq<u16> = seq![u] + t;
    law_utf16_prefix_round_trip(s, rest);
    assert(rest.skip(1) =~= t);
}

/// A null-terminated text is its units and one null unit; a list is its null-terminated texts, one
/// behind the other, and one null unit more.
pub proof fn law_list_is_texts_and_nulls(s: Seq<char>, list: Seq<Seq<char>>)
    ensures
        wide(s) == utf16(s) + seq![0u16],
        multi_sz(seq![s] + list) == utf16(s) + seq![0u16] + multi_sz(list),
        multi_sz(Seq::<Seq<char>>::empty()) == seq![0u16],
{
    let all: Seq<Seq<char>> = seq![s] + list;
    assert(all.skip(1) =~= list);
    assert(wide(s) =~= utf16(s) + seq![0u16]);
    assert(multi_sz(all) =~= utf16(s) + seq![0u16] + multi_sz(list));
    assert(multi_sz(Seq::<Seq<char>>::empty()) =~= seq![0u16]);
}

/// A unit is two bytes, the lower first, and bytes are units two by two.
pub proof fn law_bytes_are_low_first(u: Seq<u16>, b: Seq<u8>, i: int)
    ensures
        unit_bytes(u).len() == 2 * u.len(),
        0 <= i < u.len() ==> unit_bytes(u)[2 * i] + 256 * unit_bytes(u)[2 * i + 1] == u[i],
        bytes_units(b).len() == b.len() / 2,
        0 <= i < b.len() / 2 ==> bytes_units(b)[i] == b[2 * i] + 256 * b[2 * i + 1],
{
    if 0 <= i < u.len() {
        assert((2 * i) / 2 == i && (2 * i) % 2 == 0);
        assert((2 * i + 1) / 2 == i && (2 * i + 1) % 2 == 1);
        let x: int = u[i] as int;
        assert(x % 256 + 256 * (x / 256) == x);
    }
}

/// A 32-bit number is four bytes, the lowest first.
pub proof fn law_dword_is_four_bytes(n: u32)
    ensures
        dword_bytes(n).len() == 4,
        dword_bytes(n)[0] + 256 * dword_bytes(n)[1] + 65536 * dword_bytes(n)[2] + 16777216
            * dword_bytes(n)[3] == n,
{
    let x: int = n as int;
    assert(x / 65536 == x / 256 / 256);
    assert(x / 16777216 == x / 65536 / 256);
}

} // verus!
