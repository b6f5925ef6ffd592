//! The database of domestic subnets: one CIDR block a line, with comments and blank lines between.
use crate::decimal::{
    decimal, is_digit, law_u8_read_iff_numeral, law_u8_round_trip, lemma_decimal, parse_u8,
    parse_u8_chars, zeros,
};
use crate::ipv4::{
    ipv4_text, is_address_char, law_ipv4_read_iff_dotted, law_ipv4_round_trip, lemma_address_chars,
    parse_ipv4, parse_ipv4_chars, Ipv4,
};
use crate::text::{
    all_of_class, law_trim_leaves_core, lemma_lines_concat, lemma_lines_first,
    lemma_split_once_char, lemma_split_once_char_none, lemma_split_once_char_parts,
    lemma_trim_end_keeps_first, lemma_trim_padded, lemma_trim_start_prefix, lines, lines_chars,
    rows, split_once, split_once_chars, strip_return, to_chars, trim, trim_chars, CharClass,
};
use vstd::prelude::*;

verus! {

/// A block of addresses: the network address and the length of the prefix that its members share.
#[derive(Clone, Copy, Debug, PartialEq, Eq, Structural)]
pub struct Cidr {
    pub ip: Ipv4,
    pub prefix_len: u8,
}

/// The block that a line of the database holds. Blank lines, lines that start with `#`, and lines
/// that are not an address, a slash and a number below 256 hold none.
pub open spec fn cidr_of_line(line: Seq<char>) -> Option<Cidr> {
    let t: Seq<char> = trim(line, CharClass::WhiteSpace);
    if t.len() == 0 || t[0] == '#' {
        None
    } else {
        match split_once(t, seq!['/']) {
            Some((net, prefix)) => match (parse_ipv4(net), parse_u8(prefix)) {
                (Some(ip), Some(prefix_len)) => Some(Cidr { ip, prefix_len }),
                _ => None,
            },
            None => None,
        }
    }
}

/// The blocks that a list of lines holds, in order.
pub open spec fn cidrs_of_lines(ls: Seq<Seq<char>>) -> Seq<Cidr>
    decreases ls.len(),
{
    if ls.len() == 0 {
        seq![]
    } else {
        let init: Seq<Cidr> = cidrs_of_lines(ls.drop_last());
        match cidr_of_line(ls.last()) {
            Some(c) => init.push(c),
            None => init,
        }
    }
}

/// The blocks that a database holds, in order.
pub open spec fn database(text: Seq<char>) -> Seq<Cidr> {
    cidrs_of_lines(lines(text))
}

/// Reads the block of one line, if it holds one.
pub fn parse_cidr_line(line: &[char]) -> (r: Option<Cidr>)
    ensures
        r == cidr_of_line(line@),
{
    let t: &[char] = trim_chars(line, CharClass::WhiteSpace);
    if t.len() == 0 || t[0] == '#' {
        return None;
    }
    let slash: Vec<char> = vec!['/'];
    assert(slash@ =~= seq!['/']);
    match split_once_chars(t, slash.as_slice()) {
        Some((net, prefix)) => {
            let ip: Option<Ipv4> = parse_ipv4_chars(net);
            let len: Option<u8> = parse_u8_chars(prefix);
            match (ip, len) {
                (Some(ip), Some(prefix_len)) => Some(Cidr { ip, prefix_len }),
                _ => None,
            }
        },
        None => None,
    }
}

/// Reads all blocks of a database.
pub fn load_cidrs(raw: &str) -> (r: Vec<Cidr>)
    ensures
        r@ == database(raw@),
{
    let chars: Vec<char> = to_chars(raw);
    let ls: Vec<Vec<char>> = lines_chars(chars.as_slice());
    let ghost all: Seq<Seq<char>> = lines(raw@);
    let mut list: Vec<Cidr> = Vec::new();
    let mut i: usize = 0;
    while i < ls.len()
        invariant
            i <= ls@.len(),
            all == rows(ls@),
            list@ == cidrs_of_lines(all.take(i as int)),
        decreases ls@.len() - i,
    {
        assert(all.take(i + 1).drop_last() =~= all.take(i as int));
        assert(all.take(i + 1).last() == ls@[i as int]@);
        if let Some(c) = parse_cidr_line(ls[i].as_slice()) {
            list.push(c);
        }
        i = i + 1;
    }
    assert(all.take(all.len() as int) =~= all);
    list
}

/// The text of one block.
pub open spec fn cidr_text(c: Cidr) -> Seq<char> {
    ipv4_text(c.ip) + seq!['/'] + decimal(c.prefix_len as nat)
}

/// A database that holds the given blocks, one a line.
pub open spec fn database_text(list: Seq<Cidr>) -> Seq<char>
    decreases list.len(),
{
    if list.len() == 0 {
        seq![]
    } else {
        cidr_text(list[0]) + seq!['\n'] + database_text(list.skip(1))
    }
}

/// The text of a block is one line, and that line holds the block.
pub proof fn lemma_cidr_line(c: Cidr)
    ensures
        cidr_of_line(cidr_text(c)) == Some(c),
        !cidr_text(c).contains('\n'),
        strip_return(cidr_text(c)) == cidr_text(c),
{
    let s: Seq<char> = cidr_text(c);
    let net: Seq<char> = ipv4_text(c.ip);
    let p: Seq<char> = decimal(c.prefix_len as nat);
    lemma_address_chars(c.ip);
    lemma_decimal(c.prefix_len as nat);
    assert(s[0] == net[0]);
    assert(s.last() == p.last());
    assert(is_digit(p[p.len() - 1]));
    assert(trim(s, CharClass::WhiteSpace) == s);
    assert forall|i: int| 0 <= i < net.len() implies net[i] != '/' by {
        assert(is_address_char(net[i]));
    }
    lemma_split_once_char(net, '/', p);
    law_ipv4_round_trip(c.ip);
    law_u8_round_trip(c.prefix_len);
    assert forall|i: int| 0 <= i < s.len() implies s[i] != '\n' by {
        if i < net.len() {
            assert(is_address_char(net[i]));
        } else if i > net.len() {
            assert(is_digit(p[i - net.len() - 1]));
        }
    }
}

proof fn lemma_cidrs_concat(a: Seq<Seq<char>>, b: Seq<Seq<char>>)
    ensures
        cidrs_of_lines(a + b) == cidrs_of_lines(a) + cidrs_of_lines(b),
    decreases b.len(),
{
    if b.len() == 0 {
        assert(a + b =~= a);
        assert(cidrs_of_lines(a) + cidrs_of_lines(b) =~= cidrs_of_lines(a));
    } else {
        assert((a + b).drop_last() =~= a + b.drop_last());
        lemma_cidrs_concat(a, b.drop_last());
        assert(cidrs_of_lines(a + b) =~= cidrs_of_lines(a) + cidrs_of_lines(b));
    }
}

/// Every list of blocks, written one a line, is loaded back unchanged.
pub proof fn law_database_round_trip(list: Seq<Cidr>)
    ensures
        database(database_text(list)) == list,
    decreases list.len(),
{
    if list.len() == 0 {
        assert(database_text(list) =~= seq![]);
        assert(!seq![].contains('\n'));
        lemma_split_once_char_none(seq![], '\n');
        assert(lines(database_text(list)) =~= seq![]);
        assert(database(database_text(list)) =~= list);
    } else {
        let c: Cidr = list[0];
        let tail: Seq<Cidr> = list.skip(1);
        law_database_round_trip(tail);
        lemma_cidr_line(c);
        lemma_lines_first(cidr_text(c), database_text(tail));
        let first: Seq<Seq<char>> = seq![cidr_text(c)];
        lemma_cidrs_concat(first, lines(database_text(tail)));
        assert(first.drop_last() =~= seq![]);
        assert(cidrs_of_lines(first.drop_last()) =~= seq![]);
        assert(cidrs_of_lines(first) =~= seq![c]);
        assert(seq![c] + tail =~= list);
    }
}

/// Loading a database that was cut behind a line feed gives the blocks of its two parts.
pub proof fn law_database_concat(a: Seq<char>, b: Seq<char>)
    requires
        a.len() == 0 || a.last() == '\n',
    ensures
        database(a + b) == database(a) + database(b),
{
    lemma_lines_concat(a, b);
    lemma_cidrs_concat(lines(a), lines(b));
}

/// A line that holds no block can stand anywhere between the lines of a database without changing
/// what is loaded.
pub proof fn law_database_ignores_line(a: Seq<char>, line: Seq<char>, b: Seq<char>)
    requires
        a.len() == 0 || a.last() == '\n',
        !line.contains('\n'),
        cidr_of_line(strip_return(line)) is None,
    ensures
        database(a + (line + seq!['\n'] + b)) == database(a + b),
{
    law_database_concat(a, line + seq!['\n'] + b);
    law_database_concat(a, b);
    lemma_lines_first(line, b);
    let only: Seq<Seq<char>> = seq![strip_return(line)];
    lemma_cidrs_concat(only, lines(b));
    assert(only.drop_last() =~= seq![]);
    assert(cidrs_of_lines(only.drop_last()) =~= seq![]);
    assert(cidrs_of_lines(only) =~= seq![]);
    assert(seq![] + database(b) =~= database(b));
}

/// White space around a block does not change what its line holds.
pub proof fn law_blanks_around_block(before: Seq<char>, c: Cidr, after: Seq<char>)
    requires
        all_of_class(before, CharClass::WhiteSpace),
        all_of_class(after, CharClass::WhiteSpace),
    ensures
        cidr_of_line(before + cidr_text(c) + after) == Some(c),
{
    let s: Seq<char> = cidr_text(c);
    let p: Seq<char> = decimal(c.prefix_len as nat);
    lemma_cidr_line(c);
    lemma_address_chars(c.ip);
    lemma_decimal(c.prefix_len as nat);
    assert(s[0] == ipv4_text(c.ip)[0]);
    assert(s.last() == p.last());
    assert(is_digit(p[p.len() - 1]));
    assert(trim(s, CharClass::WhiteSpace) == s);
    lemma_trim_padded(before, s, after, CharClass::WhiteSpace);
}

/// A line of white space alone holds no block, and neither does one whose first other character is
/// `#`, whatever follows it.
pub proof fn law_comments_and_blanks_hold_no_block(blanks: Seq<char>, rest: Seq<char>)
    requires
        all_of_class(blanks, CharClass::WhiteSpace),
    ensures
        cidr_of_line(blanks) is None,
        cidr_of_line(blanks + (seq!['#'] + rest)) is None,
{
    let k: CharClass = CharClass::WhiteSpace;
    let none: Seq<char> = seq![];
    lemma_trim_start_prefix(blanks, none, k);
    assert(blanks + none =~= blanks);
    assert(trim(blanks, k) == none);
    let comment: Seq<char> = seq!['#'] + rest;
    lemma_trim_start_prefix(blanks, comment, k);
    assert(comment[0] == '#');
    assert(!k.has('#'));
    lemma_trim_end_keeps_first(comment, k);
}

/// A line holds a block if and only if it is, with white space around it or without, the dotted
/// address, a slash and a numeral of the prefix length: the decimal of it, with zeros in front or a
/// plus sign before them, or neither.
pub proof fn law_line_holds_block_iff(line: Seq<char>, c: Cidr)
    ensures
        cidr_of_line(line) == Some(c) <==> exists|x: Seq<char>, p: Seq<char>, y: Seq<char>|
            {
                &&& line == #[trigger] (x + (ipv4_text(c.ip) + seq!['/'] + p) + y)
                &&& forall|i: int| 0 <= i < x.len() ==> CharClass::WhiteSpace.has(#[trigger] x[i])
                &&& forall|i: int| 0 <= i < y.len() ==> CharClass::WhiteSpace.has(#[trigger] y[i])
                &&& exists|k: nat|
                    p == #[trigger] zeros(k) + decimal(c.prefix_len as nat) || p == seq!['+'] + (
                    zeros(k) + decimal(c.prefix_len as nat))
            },
{
    let w: CharClass = CharClass::WhiteSpace;
    let t: Seq<char> = trim(line, w);
    let net: Seq<char> = ipv4_text(c.ip);
    lemma_address_chars(c.ip);
    assert forall|i: int| 0 <= i < net.len() implies net[i] != '/' by {
        assert(is_address_char(net[i]));
    }
    if cidr_of_line(line) == Some(c) {
        lemma_split_once_char_parts(t, '/');
        let (a, p) = split_once(t, seq!['/'])->0;
        law_ipv4_read_iff_dotted(a, c.ip);
        law_u8_read_iff_numeral(p, c.prefix_len);
        law_trim_leaves_core(line, w);
        let (x, y) = choose|x: Seq<char>, y: Seq<char>|
            {
                &&& #[trigger] (x + t + y) == line
                &&& forall|i: int| 0 <= i < x.len() ==> w.has(#[trigger] x[i])
                &&& forall|i: int| 0 <= i < y.len() ==> w.has(#[trigger] y[i])
            };
        assert(line == x + (net + seq!['/'] + p) + y);
    }
    if exists|x: Seq<char>, p: Seq<char>, y: Seq<char>|
        {
            &&& line == #[trigger] (x + (net + seq!['/'] + p) + y)
            &&& forall|i: int| 0 <= i < x.len() ==> w.has(#[trigger] x[i])
            &&& forall|i: int| 0 <= i < y.len() ==> w.has(#[trigger] y[i])
            &&& exists|k: nat|
                p == #[trigger] zeros(k) + decimal(c.prefix_len as nat) || p == seq!['+'] + (zeros(k)
                    + decimal(c.prefix_len as nat))
        } {
        let (x, p, y) = choose|x: Seq<char>, p: Seq<char>, y: Seq<char>|
            {
                &&& line == #[trigger] (x + (net + seq!['/'] + p) + y)
                &&& forall|i: int| 0 <= i < x.len() ==> w.has(#[trigger] x[i])
                &&& forall|i: int| 0 <= i < y.len() ==> w.has(#[trigger] y[i])
                &&& exists|k: nat|
                    p == #[trigger] zeros(k) + decimal(c.prefix_len as nat) || p == seq!['+'] + (
                    zeros(k) + decimal(c.prefix_len as nat))
            };
        law_u8_read_iff_numeral(p, c.prefix_len);
        let s: Seq<char> = net + seq!['/'] + p;
        lemma_decimal(c.prefix_len as nat);
        let k: nat = choose|k: nat|
            p == #[trigger] zeros(k) + decimal(c.prefix_len as nat) || p == seq!['+'] + (zeros(k)
                + decimal(c.prefix_len as nat));
        let d: Seq<char> = decimal(c.prefix_len as nat);
        assert(is_digit(d[d.len() - 1]));
        assert(p.last() == d.last());
        assert(s.last() == p.last());
        assert(s[0] == net[0]);
        lemma_trim_padded(x, s, y, w);
        lemma_split_once_char(net, '/', p);
        law_ipv4_round_trip(c.ip);
    }
}

/// Blocks are loaded line by line and in order: a line that holds a block adds it behind those of
/// the lines before it, and no other line adds any.
pub proof fn law_blocks_are_loaded_line_by_line(ls: Seq<Seq<char>>, line: Seq<char>)
    ensures
        cidrs_of_lines(Seq::<Seq<char>>::empty()) == Seq::<Cidr>::empty(),
        cidrs_of_lines(ls.push(line)) == cidrs_of_lines(ls) + (match cidr_of_line(line) {
            Some(c) => seq![c],
            None => seq![],
        }),
        database(line) == cidrs_of_lines(lines(line)),
{
    assert(ls.push(line).drop_last() =~= ls);
    let list: Seq<Cidr> = cidrs_of_lines(ls);
    assert(list + seq![] =~= list);
    if let Some(c) = cidr_of_line(line) {
        assert(list.push(c) =~= list + seq![c]);
    }
}

} // verus!
