//! IPv4 addresses and their dotted text.
use crate::decimal::{decimal, decimal_text, is_digit, lemma_decimal, lemma_decimal_injective};
use crate::text::{
    code_point, lemma_split_once_char, lemma_split_once_char_parts, split_once, split_once_chars,
};
use vstd::prelude::*;

verus! {

/// An IPv4 address, as its four octets in network order.
#[derive(Clone, Copy, Debug, PartialEq, Eq, Structural)]
pub struct Ipv4 {
    pub a: u8,
    pub b: u8,
    pub c: u8,
    pub d: u8,
}

/// The dotted text of an address: its octets in decimal, with a dot between each two.
pub open spec fn ipv4_text(ip: Ipv4) -> Seq<char> {
    decimal(ip.a as nat) + seq!['.'] + (decimal(ip.b as nat) + seq!['.'] + (decimal(ip.c as nat)
        + seq!['.'] + decimal(ip.d as nat)))
}

/// The address whose dotted text is `s`, if there is one. Octets with leading zeros, signs or
/// blanks are no part of such a text.
pub open spec fn parse_ipv4(s: Seq<char>) -> Option<Ipv4> {
    if exists|ip: Ipv4| s == ipv4_text(ip) {
        Some(choose|ip: Ipv4| s == ipv4_text(ip))
    } else {
        None
    }
}

/// `s` is the decimal of the octet `v`.
spec fn is_octet(s: Seq<char>, v: u8) -> bool {
    s == decimal(v as nat)
}

proof fn lemma_decimal_has_no_dot(n: nat)
    ensures
        !decimal(n).contains('.'),
{
    lemma_decimal(n);
    if decimal(n).contains('.') {
        let i: int = choose|i: int| 0 <= i < decimal(n).len() && decimal(n)[i] == '.';
        assert(is_digit(decimal(n)[i]));
    }
}

/// Two addresses with the same dotted text are the same address.
pub proof fn law_ipv4_text_injective(x: Ipv4, y: Ipv4)
    requires
        ipv4_text(x) == ipv4_text(y),
    ensures
        x == y,
{
    lemma_split_text(x);
    lemma_split_text(y);
    lemma_decimal_injective(x.a as nat, y.a as nat);
    lemma_decimal_injective(x.b as nat, y.b as nat);
    lemma_decimal_injective(x.c as nat, y.c as nat);
    lemma_decimal_injective(x.d as nat, y.d as nat);
}

/// The dotted text of every address is read back as that address.
pub proof fn law_ipv4_round_trip(ip: Ipv4)
    ensures
        parse_ipv4(ipv4_text(ip)) == Some(ip),
{
    let s: Seq<char> = ipv4_text(ip);
    let found: Ipv4 = choose|x: Ipv4| s == ipv4_text(x);
    assert(s == ipv4_text(ip));
    law_ipv4_text_injective(found, ip);
}

/// How the dotted text of an address comes apart at its dots.
proof fn lemma_split_text(ip: Ipv4)
    ensures
        ({
            let dot: Seq<char> = seq!['.'];
            let cd: Seq<char> = decimal(ip.c as nat) + dot + decimal(ip.d as nat);
            let bcd: Seq<char> = decimal(ip.b as nat) + dot + cd;
            &&& split_once(ipv4_text(ip), dot) == Some((decimal(ip.a as nat), bcd))
            &&& split_once(bcd, dot) == Some((decimal(ip.b as nat), cd))
            &&& split_once(cd, dot) == Some((decimal(ip.c as nat), decimal(ip.d as nat)))
        }),
{
    let dot: Seq<char> = seq!['.'];
    let cd: Seq<char> = decimal(ip.c as nat) + dot + decimal(ip.d as nat);
    let bcd: Seq<char> = decimal(ip.b as nat) + dot + cd;
    lemma_decimal_has_no_dot(ip.a as nat);
    lemma_decimal_has_no_dot(ip.b as nat);
    lemma_decimal_has_no_dot(ip.c as nat);
    lemma_split_once_char(decimal(ip.a as nat), '.', bcd);
    lemma_split_once_char(decimal(ip.b as nat), '.', cd);
    lemma_split_once_char(decimal(ip.c as nat), '.', decimal(ip.d as nat));
}

/// The decimals of one, two and three digits.
proof fn lemma_short_decimal(v: nat)
    requires
        v < 1000,
    ensures
        v < 10 ==> decimal(v) == seq![(48 + v) as char],
        10 <= v < 100 ==> decimal(v) == seq![(48 + v / 10) as char, (48 + v % 10) as char],
        100 <= v ==> decimal(v) == seq![
            (48 + v / 100) as char,
            (48 + v / 10 % 10) as char,
            (48 + v % 10) as char,
        ],
{
    reveal_with_fuel(decimal, 4);
    assert(v / 10 / 10 == v / 100);
    if 10 <= v < 100 {
        assert(decimal(v) =~= seq![(48 + v / 10) as char, (48 + v % 10) as char]);
    }
    if 100 <= v {
        assert(decimal(v) =~= seq![
            (48 + v / 100) as char,
            (48 + v / 10 % 10) as char,
            (48 + v % 10) as char,
        ]);
    }
}

/// Reads one octet: one to three digits, no leading zero, below 256.
fn parse_octet(s: &[char]) -> (r: Option<u8>)
    ensures
        match r {
            Some(v) => is_octet(s@, v),
            None => forall|v: u8| !is_octet(s@, v),
        },
{
    let n: usize = s.len();
    if n == 0 || 3 < n {
        proof {
            assert forall|v: u8| !is_octet(s@, v) by {
                lemma_short_decimal(v as nat);
            }
        }
        return None;
    }
    let mut v: u32 = 0;
    let mut i: usize = 0;
    while i < n
        invariant
            i <= n <= 3,
            n == s@.len(),
            forall|k: int| 0 <= k < i ==> is_digit(#[trigger] s@[k]),
            i == 0 ==> v == 0,
            i == 1 ==> v == s@[0] as int - 48,
            i == 2 ==> v == (s@[0] as int - 48) * 10 + (s@[1] as int - 48),
            i == 3 ==> v == (s@[0] as int - 48) * 100 + (s@[1] as int - 48) * 10 + (s@[2] as int
                - 48),
            v < 1000,
        decreases n - i,
    {
        let u: u32 = code_point(s[i]);
        if u < 48 || 57 < u {
            proof {
                assert forall|w: u8| !is_octet(s@, w) by {
                    lemma_decimal(w as nat);
                    if is_octet(s@, w) {
                        assert(is_digit(s@[i as int]));
                    }
                }
            }
            return None;
        }
        assert(is_digit(s@[i as int]));
        if i < 3 {
            assert(i == 0 ==> v == 0);
            assert(i == 1 ==> v < 10);
            assert(i == 2 ==> v < 100);
        }
        v = v * 10 + (u - 48);
        i = i + 1;
    }
    assert(forall|k: int| 0 <= k < n ==> is_digit(#[trigger] s@[k]));
    if (n > 1 && s[0] == '0') || v > 255 {
        proof {
            assert forall|w: u8| !is_octet(s@, w) by {
                lemma_decimal(w as nat);
                lemma_short_decimal(w as nat);
            }
        }
        return None;
    }
    proof {
        lemma_short_decimal(v as nat);
        assert(is_digit(s@[0]));
        let x: int = s@[0] as int - 48;
        if n == 1 {
            assert(s@ =~= decimal(v as nat));
        } else if n == 2 {
            assert(is_digit(s@[1]));
            let y: int = s@[1] as int - 48;
            assert(v == 10 * x + y && 1 <= x <= 9 && 0 <= y <= 9);
            assert(v as nat / 10 == x && v as nat % 10 == y);
            assert(s@ =~= decimal(v as nat));
        } else {
            assert(is_digit(s@[1]));
            assert(is_digit(s@[2]));
            let y: int = s@[1] as int - 48;
            let z: int = s@[2] as int - 48;
            assert(v == 100 * x + 10 * y + z && 1 <= x <= 9 && 0 <= y <= 9 && 0 <= z <= 9);
            assert(v as nat / 100 == x && v as nat / 10 % 10 == y && v as nat % 10 == z);
            assert(s@ =~= decimal(v as nat));
        }
    }
    Some(v as u8)
}

/// Reads the dotted text of an address.
pub fn parse_ipv4_chars(s: &[char]) -> (r: Option<Ipv4>)
    ensures
        r == parse_ipv4(s@),
        match r {
            Some(ip) => s@ == ipv4_text(ip),
            None => forall|ip: Ipv4| s@ != ipv4_text(ip),
        },
{
    let dot: Vec<char> = vec!['.'];
    assert(dot@ =~= seq!['.']);
    proof {
        lemma_split_once_char_parts(s@, '.');
    }
    let (a, rest) = match split_once_chars(s, dot.as_slice()) {
        Some(p) => p,
        None => {
            assert forall|ip: Ipv4| s@ != ipv4_text(ip) by {
                lemma_split_text(ip);
            }
            return None;
        },
    };
    proof {
        lemma_split_once_char_parts(rest@, '.');
    }
    let (b, rest2) = match split_once_chars(rest, dot.as_slice()) {
        Some(p) => p,
        None => {
            assert forall|ip: Ipv4| s@ != ipv4_text(ip) by {
                lemma_split_text(ip);
            }
            return None;
        },
    };
    proof {
        lemma_split_once_char_parts(rest2@, '.');
    }
    let (c, d) = match split_once_chars(rest2, dot.as_slice()) {
        Some(p) => p,
        None => {
            assert forall|ip: Ipv4| s@ != ipv4_text(ip) by {
                lemma_split_text(ip);
            }
            return None;
        },
    };
    let va: Option<u8> = parse_octet(a);
    let vb: Option<u8> = parse_octet(b);
    let vc: Option<u8> = parse_octet(c);
    let vd: Option<u8> = parse_octet(d);
    match (va, vb, vc, vd) {
        (Some(x), Some(y), Some(z), Some(w)) => {
            let ip: Ipv4 = Ipv4 { a: x, b: y, c: z, d: w };
            assert(s@ == ipv4_text(ip));
            proof {
                law_ipv4_round_trip(ip);
            }
            Some(ip)
        },
        _ => {
            assert forall|ip: Ipv4| s@ != ipv4_text(ip) by {
                if s@ == ipv4_text(ip) {
                    lemma_split_text(ip);
                    assert(is_octet(a@, ip.a) && is_octet(b@, ip.b) && is_octet(c@, ip.c)
                        && is_octet(d@, ip.d));
                }
            }
            None
        },
    }
}

/// A digit or a dot.
pub open spec fn is_address_char(c: char) -> bool {
    is_digit(c) || c == '.'
}

/// The dotted text of an address starts with a digit and holds digits and dots alone.
pub proof fn lemma_address_chars(ip: Ipv4)
    ensures
        ipv4_text(ip).len() > 0,
        is_digit(ipv4_text(ip)[0]),
        forall|i: int| 0 <= i < ipv4_text(ip).len() ==> is_address_char(#[trigger] ipv4_text(ip)[i]),
{
    let s: Seq<char> = ipv4_text(ip);
    let a: Seq<char> = decimal(ip.a as nat);
    let b: Seq<char> = decimal(ip.b as nat);
    let c: Seq<char> = decimal(ip.c as nat);
    let d: Seq<char> = decimal(ip.d as nat);
    lemma_decimal(ip.a as nat);
    lemma_decimal(ip.b as nat);
    lemma_decimal(ip.c as nat);
    lemma_decimal(ip.d as nat);
    assert(s[0] == a[0]);
    assert forall|i: int| 0 <= i < s.len() implies is_address_char(#[trigger] s[i]) by {
        let i1: int = i - a.len() - 1;
        let i2: int = i1 - b.len() - 1;
        let i3: int = i2 - c.len() - 1;
        if i < a.len() {
            assert(s[i] == a[i]);
        } else if i1 < 0 {
        } else if i1 < b.len() {
            assert(s[i] == b[i1]);
        } else if i2 < 0 {
        } else if i2 < c.len() {
            assert(s[i] == c[i2]);
        } else if i3 < 0 {
        } else {
            assert(s[i] == d[i3]);
        }
    }
}

/// Writes the dotted text of an address.
pub fn format_ipv4(ip: Ipv4) -> (r: String)
    ensures
        r@ == ipv4_text(ip),
{
    let mut out: String = decimal_text(ip.a as u128);
    out.push('.');
    out.append(decimal_text(ip.b as u128).as_str());
    out.push('.');
    out.append(decimal_text(ip.c as u128).as_str());
    out.push('.');
    out.append(decimal_text(ip.d as u128).as_str());
    assert(out@ =~= ipv4_text(ip));
    out
}

/// A text is read as an address if and only if it is the four octets in decimal, first to last, with
/// a dot between each two.
pub proof fn law_ipv4_read_iff_dotted(s: Seq<char>, ip: Ipv4)
    ensures
        parse_ipv4(s) == Some(ip) <==> s == decimal(ip.a as nat) + seq!['.'] + decimal(ip.b as nat)
            + seq!['.'] + decimal(ip.c as nat) + seq!['.'] + decimal(ip.d as nat),
        ipv4_text(ip) == decimal(ip.a as nat) + seq!['.'] + decimal(ip.b as nat) + seq!['.']
            + decimal(ip.c as nat) + seq!['.'] + decimal(ip.d as nat),
{
    let flat: Seq<char> = decimal(ip.a as nat) + seq!['.'] + decimal(ip.b as nat) + seq!['.']
        + decimal(ip.c as nat) + seq!['.'] + decimal(ip.d as nat);
    assert(ipv4_text(ip) =~= flat);
    law_ipv4_round_trip(ip);
    if parse_ipv4(s) == Some(ip) {
        assert(s == ipv4_text(ip));
    }
}

} // verus!
