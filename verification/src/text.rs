//! Text as sequences of characters: searching, trimming, splitting into lines.
use vstd::prelude::*;
use vstd::slice::slice_subrange;

verus! {

/// `String::push` appends one character at the end of the string.
pub assume_specification[ String::push ](s: &mut String, ch: char)
    ensures
        final(s)@ == old(s)@.push(ch),
;

/// The characters of a list of character vectors.
pub open spec fn rows(v: Seq<Vec<char>>) -> Seq<Seq<char>> {
    v.map_values(|x: Vec<char>| x@)
}

/// The characters of a list of strings.
pub open spec fn texts(v: Seq<String>) -> Seq<Seq<char>> {
    v.map_values(|x: String| x@)
}

/// Every character is a Unicode scalar value.
pub proof fn lemma_char_code(c: char)
    ensures
        0 <= c as int <= 0x10ffff,
        !(0xd800 <= c as int <= 0xdfff),
{
}

/// The code point of a character.
pub fn code_point(c: char) -> (r: u32)
    ensures
        r == c as int,
        r <= 0x10ffff,
        !(0xd800 <= r <= 0xdfff),
{
    c as u32
}

/// The characters of `s`.
pub fn to_chars(s: &str) -> (r: Vec<char>)
    ensures
        r@ == s@,
{
    let mut out: Vec<char> = Vec::new();
    for c in it: s.chars()
        invariant
            it.seq() == s@,
            out@ == s@.take(it.index()),
    {
        out.push(c);
    }
    assert(s@.take(s@.len() as int) == s@);
    out
}

/// The string made of the characters `s`.
pub fn to_text(s: &[char]) -> (r: String)
    ensures
        r@ == s@,
{
    let mut out: String = String::new();
    let mut i: usize = 0;
    while i < s.len()
        invariant
            i <= s@.len(),
            out@ == s@.take(i as int),
        decreases s@.len() - i,
    {
        out.push(s[i]);
        assert(s@.take(i + 1) == s@.take(i as int).push(s@[i as int]));
        i = i + 1;
    }
    assert(s@.take(s@.len() as int) == s@);
    out
}

/// Whether the two strings hold the same characters.
pub fn same_text(a: &str, b: &str) -> (r: bool)
    ensures
        r == (a@ == b@),
{
    let x: Vec<char> = to_chars(a);
    let y: Vec<char> = to_chars(b);
    assert(x@.subrange(0, x@.len() as int) == x@);
    x.len() == y.len() && matches_at(x.as_slice(), y.as_slice(), 0)
}

/// `pat` stands in `s` at position `i`.
pub open spec fn occurs_at(s: Seq<char>, pat: Seq<char>, i: int) -> bool {
    0 <= i && i + pat.len() <= s.len() && s.subrange(i, i + pat.len()) == pat
}

/// `pat` stands somewhere in `s`.
pub open spec fn contains(s: Seq<char>, pat: Seq<char>) -> bool {
    exists|i: int| occurs_at(s, pat, i)
}

/// The leftmost occurrence of `pat` in `s` is at `i`.
pub open spec fn first_at(s: Seq<char>, pat: Seq<char>, i: int) -> bool {
    occurs_at(s, pat, i) && forall|k: int| 0 <= k < i ==> !occurs_at(s, pat, k)
}

/// Where `pat` first stands in `s`, if it does.
pub open spec fn find(s: Seq<char>, pat: Seq<char>) -> Option<int> {
    if exists|i: int| first_at(s, pat, i) {
        Some(choose|i: int| first_at(s, pat, i))
    } else {
        None
    }
}

/// What stands before and after the leftmost occurrence of `pat` in `s`.
pub open spec fn split_once(s: Seq<char>, pat: Seq<char>) -> Option<(Seq<char>, Seq<char>)> {
    match find(s, pat) {
        Some(i) => Some((s.take(i), s.skip(i + pat.len()))),
        None => None,
    }
}

/// There is at most one leftmost occurrence.
pub proof fn lemma_find_at(s: Seq<char>, pat: Seq<char>, i: int)
    requires
        first_at(s, pat, i),
    ensures
        find(s, pat) == Some(i),
{
    let j: int = find(s, pat)->0;
    assert(first_at(s, pat, j));
    if i < j {
        assert(!occurs_at(s, pat, i));
    } else if j < i {
        assert(!occurs_at(s, pat, j));
    }
}

/// Where `pat` occurs in `s` at all, it has a leftmost occurrence there, at or before the given one.
pub proof fn lemma_find_exists(s: Seq<char>, pat: Seq<char>, i: int)
    requires
        occurs_at(s, pat, i),
    ensures
        find(s, pat) is Some,
        find(s, pat)->0 <= i,
        first_at(s, pat, find(s, pat)->0),
    decreases i,
{
    if exists|k: int| 0 <= k < i && occurs_at(s, pat, k) {
        let k: int = choose|k: int| 0 <= k < i && occurs_at(s, pat, k);
        lemma_find_exists(s, pat, k);
    } else {
        assert(first_at(s, pat, i));
        lemma_find_at(s, pat, i);
    }
}

/// A text is found exactly where it is contained.
pub proof fn lemma_find_iff_contains(s: Seq<char>, pat: Seq<char>)
    ensures
        find(s, pat) is Some <==> contains(s, pat),
{
    if contains(s, pat) {
        let i: int = choose|i: int| occurs_at(s, pat, i);
        lemma_find_exists(s, pat, i);
    }
    if find(s, pat) is Some {
        let i: int = choose|i: int| first_at(s, pat, i);
        assert(occurs_at(s, pat, i));
    }
}

/// Whether `pat` stands in `s` at `i`.
pub fn matches_at(s: &[char], pat: &[char], i: usize) -> (r: bool)
    requires
        i + pat@.len() <= s@.len(),
    ensures
        r == occurs_at(s@, pat@, i as int),
{
    let n: usize = s.len();
    let mut k: usize = 0;
    while k < pat.len()
        invariant
            k <= pat@.len(),
            n == s@.len(),
            i + pat@.len() <= n,
            forall|j: int| 0 <= j < k ==> s@[i + j] == pat@[j],
        decreases pat@.len() - k,
    {
        if s[i + k] != pat[k] {
            assert(s@.subrange(i as int, i + pat@.len())[k as int] != pat@[k as int]);
            return false;
        }
        k = k + 1;
    }
    assert(s@.subrange(i as int, i + pat@.len()) =~= pat@);
    true
}

/// Finds the leftmost occurrence of `pat` in `s`.
pub fn find_chars(s: &[char], pat: &[char]) -> (r: Option<usize>)
    ensures
        match r {
            Some(i) => find(s@, pat@) == Some(i as int) && first_at(s@, pat@, i as int),
            None => find(s@, pat@) is None,
        },
        r is Some <==> contains(s@, pat@),
{
    if pat.len() > s.len() {
        return None;
    }
    let last: usize = s.len() - pat.len();
    let mut i: usize = 0;
    while i <= last
        invariant
            i <= last + 1,
            last + pat@.len() == s@.len(),
            forall|k: int| 0 <= k < i ==> !occurs_at(s@, pat@, k),
        decreases last + 1 - i,
    {
        if matches_at(s, pat, i) {
            proof {
                lemma_find_at(s@, pat@, i as int);
            }
            return Some(i);
        }
        if i == last {
            assert(forall|k: int| !occurs_at(s@, pat@, k));
            return None;
        }
        i = i + 1;
    }
    None
}

/// Whether `pat` stands somewhere in `s`.
pub fn contains_chars(s: &[char], pat: &[char]) -> (r: bool)
    ensures
        r == contains(s@, pat@),
{
    find_chars(s, pat).is_some()
}

/// Whether the string `pat` stands somewhere in `s`.
pub fn contains_text(s: &[char], pat: &str) -> (r: bool)
    ensures
        r == contains(s@, pat@),
{
    contains_chars(s, to_chars(pat).as_slice())
}

/// Splits `s` around the leftmost occurrence of `pat`.
pub fn split_once_chars<'a>(s: &'a [char], pat: &[char]) -> (r: Option<(&'a [char], &'a [char])>)
    ensures
        match r {
            Some((a, b)) => split_once(s@, pat@) == Some((a@, b@)),
            None => split_once(s@, pat@) is None,
        },
{
    match find_chars(s, pat) {
        Some(i) => {
            let n: usize = s.len();
            let a: &[char] = slice_subrange(s, 0, i);
            let b: &[char] = slice_subrange(s, i + pat.len(), n);
            assert(a@ == s@.take(i as int));
            assert(b@ == s@.skip(i + pat@.len()));
            Some((a, b))
        },
        None => None,
    }
}

/// A text that holds no `c`, then `c`, then anything, splits at that `c`.
pub proof fn lemma_split_once_char(a: Seq<char>, c: char, b: Seq<char>)
    requires
        !a.contains(c),
    ensures
        split_once(a + seq![c] + b, seq![c]) == Some((a, b)),
{
    let s: Seq<char> = a + seq![c] + b;
    let pat: Seq<char> = seq![c];
    assert(s.subrange(a.len() as int, a.len() as int + 1) =~= pat);
    assert forall|k: int| 0 <= k < a.len() implies !occurs_at(s, pat, k) by {
        if occurs_at(s, pat, k) {
            assert(s.subrange(k, k + 1)[0] == c);
            assert(a[k] == c);
        }
    }
    lemma_find_at(s, pat, a.len() as int);
    assert(s.take(a.len() as int) =~= a);
    assert(s.skip(a.len() as int + 1) =~= b);
}

/// A text that holds no `c` has nothing to split at `c`.
pub proof fn lemma_split_once_char_none(s: Seq<char>, c: char)
    ensures
        split_once(s, seq![c]) is None <==> !s.contains(c),
{
    lemma_find_iff_contains(s, seq![c]);
    if s.contains(c) {
        let i: int = choose|i: int| 0 <= i < s.len() && s[i] == c;
        assert(s.subrange(i, i + 1) =~= seq![c]);
        assert(occurs_at(s, seq![c], i));
    }
    if contains(s, seq![c]) {
        let i: int = choose|i: int| occurs_at(s, seq![c], i);
        assert(s.subrange(i, i + 1)[0] == c);
        assert(s[i] == c);
    }
}

/// The parts around a split make the text again, and the left one holds no `c`.
pub proof fn lemma_split_once_char_parts(s: Seq<char>, c: char)
    ensures
        split_once(s, seq![c]) matches Some((a, b)) ==> s == a + seq![c] + b && !a.contains(c),
{
    if let Some((a, b)) = split_once(s, seq![c]) {
        let i: int = find(s, seq![c])->0;
        assert(first_at(s, seq![c], i));
        assert(s.subrange(i, i + 1)[0] == c);
        assert(s =~= a + seq![c] + b);
        if a.contains(c) {
            let k: int = choose|k: int| 0 <= k < a.len() && a[k] == c;
            assert(s.subrange(k, k + 1) =~= seq![c]);
            assert(occurs_at(s, seq![c], k));
        }
    }
}

/// A set of characters that a text can be trimmed of.
#[derive(Clone, Copy, PartialEq, Eq, Structural)]
pub enum CharClass {
    /// The characters with the Unicode property `White_Space`.
    WhiteSpace,
    /// The null character alone.
    Nul,
}

/// The characters with the Unicode property `White_Space`.
pub open spec fn is_white_space(c: char) -> bool {
    let u: int = c as int;
    ||| 0x09 <= u <= 0x0d
    ||| u == 0x20
    ||| u == 0x85
    ||| u == 0xa0
    ||| u == 0x1680
    ||| 0x2000 <= u <= 0x200a
    ||| u == 0x2028
    ||| u == 0x2029
    ||| u == 0x202f
    ||| u == 0x205f
    ||| u == 0x3000
}

impl CharClass {
    /// The characters of this class.
    pub open spec fn has(self, c: char) -> bool {
        match self {
            CharClass::WhiteSpace => is_white_space(c),
            CharClass::Nul => c as int == 0,
        }
    }

    /// Whether `c` belongs to this class.
    pub fn holds(&self, c: char) -> (r: bool)
        ensures
            r == self.has(c),
    {
        let u: u32 = code_point(c);
        match self {
            CharClass::WhiteSpace => {
                (0x09 <= u && u <= 0x0d) || u == 0x20 || u == 0x85 || u == 0xa0 || u == 0x1680 || (
                0x2000 <= u && u <= 0x200a) || u == 0x2028 || u == 0x2029 || u == 0x202f || u
                    == 0x205f || u == 0x3000
            },
            CharClass::Nul => u == 0,
        }
    }
}

/// `s` without the characters of class `k` that it starts with.
pub open spec fn trim_start(s: Seq<char>, k: CharClass) -> Seq<char>
    decreases s.len(),
{
    if s.len() > 0 && k.has(s[0]) {
        trim_start(s.skip(1), k)
    } else {
        s
    }
}

/// `s` without the characters of class `k` that it ends with.
pub open spec fn trim_end(s: Seq<char>, k: CharClass) -> Seq<char>
    decreases s.len(),
{
    if s.len() > 0 && k.has(s.last()) {
        trim_end(s.drop_last(), k)
    } else {
        s
    }
}

/// `s` without the characters of class `k` at its two ends.
pub open spec fn trim(s: Seq<char>, k: CharClass) -> Seq<char> {
    trim_end(trim_start(s, k), k)
}

/// Trims the characters of class `k` off both ends of `s`.
pub fn trim_chars(s: &[char], k: CharClass) -> (r: &[char])
    ensures
        r@ == trim(s@, k),
{
    let n: usize = s.len();
    let mut i: usize = 0;
    assert(s@.skip(0) == s@);
    while i < n && k.holds(s[i])
        invariant
            i <= n,
            n == s@.len(),
            trim_start(s@, k) == trim_start(s@.skip(i as int), k),
        decreases n - i,
    {
        assert(s@.skip(i as int).skip(1) =~= s@.skip(i + 1));
        i = i + 1;
    }
    let mut j: usize = n;
    assert(s@.subrange(i as int, n as int) =~= s@.skip(i as int));
    while i < j && k.holds(s[j - 1])
        invariant
            i <= j <= n,
            n == s@.len(),
            trim(s@, k) == trim_end(s@.subrange(i as int, j as int), k),
        decreases j - i,
    {
        assert(s@.subrange(i as int, j as int).drop_last() =~= s@.subrange(i as int, j - 1));
        j = j - 1;
    }
    slice_subrange(s, i, j)
}

/// Every character is of class `k`.
pub open spec fn all_of_class(s: Seq<char>, k: CharClass) -> bool {
    forall|i: int| 0 <= i < s.len() ==> k.has(#[trigger] s[i])
}

/// Characters of class `k` in front are trimmed.
pub proof fn lemma_trim_start_prefix(w: Seq<char>, s: Seq<char>, k: CharClass)
    requires
        all_of_class(w, k),
    ensures
        trim_start(w + s, k) == trim_start(s, k),
    decreases w.len(),
{
    if w.len() == 0 {
        assert(w + s =~= s);
    } else {
        assert(k.has(w[0]));
        assert((w + s)[0] == w[0]);
        assert((w + s).skip(1) =~= w.skip(1) + s);
        assert forall|i: int| 0 <= i < w.skip(1).len() implies k.has(#[trigger] w.skip(1)[i]) by {
            assert(k.has(w[i + 1]));
        }
        lemma_trim_start_prefix(w.skip(1), s, k);
    }
}

/// Characters of class `k` behind are trimmed.
pub proof fn lemma_trim_end_suffix(s: Seq<char>, w: Seq<char>, k: CharClass)
    requires
        all_of_class(w, k),
    ensures
        trim_end(s + w, k) == trim_end(s, k),
    decreases w.len(),
{
    if w.len() == 0 {
        assert(s + w =~= s);
    } else {
        assert(k.has(w[w.len() - 1]));
        assert((s + w).last() == w.last());
        assert((s + w).drop_last() =~= s + w.drop_last());
        assert forall|i: int| 0 <= i < w.drop_last().len() implies k.has(
            #[trigger] w.drop_last()[i],
        ) by {
            assert(k.has(w[i]));
        }
        lemma_trim_end_suffix(s, w.drop_last(), k);
    }
}

/// A text that neither starts nor ends with a character of class `k` is what is left of it with
/// such characters around it.
pub proof fn lemma_trim_padded(w1: Seq<char>, s: Seq<char>, w2: Seq<char>, k: CharClass)
    requires
        all_of_class(w1, k),
        all_of_class(w2, k),
        s.len() > 0,
        !k.has(s[0]),
        !k.has(s.last()),
    ensures
        trim(w1 + s + w2, k) == s,
{
    assert(w1 + s + w2 =~= w1 + (s + w2));
    lemma_trim_start_prefix(w1, s + w2, k);
    assert((s + w2)[0] == s[0]);
    lemma_trim_end_suffix(s, w2, k);
}

/// What is trimmed at the end of a text leaves its first character, unless that is trimmed too.
pub proof fn lemma_trim_end_keeps_first(s: Seq<char>, k: CharClass)
    requires
        s.len() > 0,
        !k.has(s[0]),
    ensures
        trim_end(s, k).len() > 0,
        trim_end(s, k)[0] == s[0],
    decreases s.len(),
{
    if k.has(s.last()) {
        assert(s.len() > 1);
        lemma_trim_end_keeps_first(s.drop_last(), k);
    }
}

/// A line without the carriage return that closes it.
pub open spec fn strip_return(s: Seq<char>) -> Seq<char> {
    if s.len() > 0 && s.last() == '\r' {
        s.drop_last()
    } else {
        s
    }
}

/// The lines of `s`: each ends with a line feed, or a carriage return and a line feed, neither of
/// which belongs to the line. What follows the last line feed is a line if it is not empty.
pub open spec fn lines(s: Seq<char>) -> Seq<Seq<char>>
    decreases s.len(),
{
    match split_once(s, seq!['\n']) {
        Some((a, b)) => {
            proof {
                lemma_split_once_char_parts(s, '\n');
            }
            seq![strip_return(a)] + lines(b)
        },
        None => if s.len() == 0 {
            seq![]
        } else {
            seq![s]
        },
    }
}

/// Splits `s` into its lines.
pub fn lines_chars(s: &[char]) -> (r: Vec<Vec<char>>)
    ensures
        rows(r@) == lines(s@),
{
    let feed: Vec<char> = vec!['\n'];
    assert(feed@ =~= seq!['\n']);
    let mut out: Vec<Vec<char>> = Vec::new();
    let mut rest: &[char] = s;
    assert(rows(out@) + lines(s@) =~= lines(s@));
    loop
        invariant
            feed@ == seq!['\n'],
            lines(s@) == rows(out@) + lines(rest@),
        ensures
            lines(s@) == rows(out@) + lines(rest@),
            split_once(rest@, seq!['\n']) is None,
        decreases rest@.len(),
    {
        match split_once_chars(rest, feed.as_slice()) {
            Some((a, b)) => {
                proof {
                    lemma_split_once_char_parts(rest@, '\n');
                }
                let ghost before: Seq<Seq<char>> = rows(out@);
                let n: usize = a.len();
                let line: Vec<char> = if n > 0 && a[n - 1] == '\r' {
                    copy_chars(slice_subrange(a, 0, n - 1))
                } else {
                    copy_chars(a)
                };
                assert(line@ =~= strip_return(a@));
                out.push(line);
                assert(rows(out@) =~= before.push(line@));
                assert(before + (seq![strip_return(a@)] + lines(b@)) =~= rows(out@) + lines(b@));
                rest = b;
            },
            None => {
                break;
            },
        }
    }
    if rest.len() > 0 {
        let ghost before: Seq<Seq<char>> = rows(out@);
        let line: Vec<char> = copy_chars(rest);
        out.push(line);
        assert(rows(out@) =~= before + seq![rest@]);
    } else {
        assert(rows(out@) + lines(rest@) =~= rows(out@));
    }
    out
}

/// The characters of `s` in a vector of their own.
pub fn copy_chars(s: &[char]) -> (r: Vec<char>)
    ensures
        r@ == s@,
{
    let mut out: Vec<char> = Vec::new();
    let mut i: usize = 0;
    while i < s.len()
        invariant
            i <= s@.len(),
            out@ == s@.take(i as int),
        decreases s@.len() - i,
    {
        out.push(s[i]);
        assert(s@.take(i + 1) == s@.take(i as int).push(s@[i as int]));
        i = i + 1;
    }
    assert(s@.take(s@.len() as int) == s@);
    out
}

/// A text with no line feed, then a line feed, then anything, is one line and what follows.
pub proof fn lemma_lines_first(a: Seq<char>, b: Seq<char>)
    requires
        !a.contains('\n'),
    ensures
        lines(a + seq!['\n'] + b) == seq![strip_return(a)] + lines(b),
{
    lemma_split_once_char(a, '\n', b);
}

/// Cutting a text behind a line feed cuts its lines.
pub proof fn lemma_lines_concat(a: Seq<char>, b: Seq<char>)
    requires
        a.len() == 0 || a.last() == '\n',
    ensures
        lines(a + b) == lines(a) + lines(b),
    decreases a.len(),
{
    if a.len() == 0 {
        assert(a + b =~= b);
        lemma_split_once_char_none(a, '\n');
        assert(lines(a) + lines(b) =~= lines(b));
    } else {
        assert(a[a.len() - 1] == '\n');
        lemma_split_once_char_none(a, '\n');
        lemma_split_once_char_parts(a, '\n');
        let (x, y) = split_once(a, seq!['\n'])->0;
        assert(a == x + seq!['\n'] + y);
        if y.len() > 0 {
            assert(y.last() == a.last());
        }
        lemma_lines_concat(y, b);
        assert(a + b =~= x + seq!['\n'] + (y + b));
        lemma_lines_first(x, y + b);
        assert(seq![strip_return(x)] + (lines(y) + lines(b)) =~= (seq![strip_return(x)] + lines(y))
            + lines(b));
    }
}

/// The characters other than `c`.
pub open spec fn other_than(c: char) -> spec_fn(char) -> bool {
    |x: char| x != c
}

/// `s` without any `c`.
pub open spec fn without(s: Seq<char>, c: char) -> Seq<char> {
    s.filter(other_than(c))
}

/// Copies `s` and leaves out every `c`.
pub fn without_char(s: &[char], c: char) -> (r: Vec<char>)
    ensures
        r@ == without(s@, c),
{
    let mut out: Vec<char> = Vec::new();
    let mut i: usize = 0;
    assert(s@.take(0).filter(other_than(c)) =~= seq![]) by {
        reveal(Seq::filter);
    }
    while i < s.len()
        invariant
            i <= s@.len(),
            out@ == s@.take(i as int).filter(other_than(c)),
        decreases s@.len() - i,
    {
        proof {
            assert(s@.take(i + 1).drop_last() =~= s@.take(i as int));
            reveal(Seq::filter);
        }
        if s[i] != c {
            out.push(s[i]);
        }
        i = i + 1;
    }
    assert(s@.take(s@.len() as int) =~= s@);
    out
}

/// `a` comes before `b` in the order of texts: the first characters that differ decide, and a text
/// comes before every longer one that it starts.
pub open spec fn precedes(a: Seq<char>, b: Seq<char>) -> bool
    decreases a.len(),
{
    if a.len() == 0 || b.len() == 0 {
        a.len() < b.len()
    } else {
        (b[0] as int > a[0] as int) || (a[0] == b[0] && precedes(a.skip(1), b.skip(1)))
    }
}

/// Of two texts in two parts each, with first parts of the same length, the first parts decide
/// unless they are the same.
pub proof fn lemma_precedes_parts(a: Seq<char>, x: Seq<char>, b: Seq<char>, y: Seq<char>)
    requires
        a.len() == b.len(),
    ensures
        precedes(a + x, b + y) <==> precedes(a, b) || (a == b && precedes(x, y)),
    decreases a.len(),
{
    if a.len() == 0 {
        assert(a + x =~= x);
        assert(b + y =~= y);
        assert(a =~= b);
    } else {
        let a1: Seq<char> = a.skip(1);
        let b1: Seq<char> = b.skip(1);
        assert((a + x).skip(1) =~= a1 + x);
        assert((b + y).skip(1) =~= b1 + y);
        assert((a + x)[0] == a[0] && (b + y)[0] == b[0]);
        lemma_precedes_parts(a1, x, b1, y);
        if a[0] == b[0] && a1 == b1 {
            assert(a =~= seq![a[0]] + a1);
            assert(b =~= seq![b[0]] + b1);
        }
    }
}

/// A text is contained in another exactly where the other is something, the text, and something.
pub proof fn law_contains_iff_inside(s: Seq<char>, pat: Seq<char>)
    ensures
        contains(s, pat) <==> exists|a: Seq<char>, b: Seq<char>| #[trigger] (a + pat + b) == s,
{
    if contains(s, pat) {
        let i: int = choose|i: int| occurs_at(s, pat, i);
        let (a, b) = (s.take(i), s.skip(i + pat.len()));
        assert(s.subrange(i, i + pat.len()) == pat);
        assert(a + pat + b =~= s);
    }
    if exists|a: Seq<char>, b: Seq<char>| #[trigger] (a + pat + b) == s {
        let (a, b) = choose|a: Seq<char>, b: Seq<char>| #[trigger] (a + pat + b) == s;
        assert(s.subrange(a.len() as int, a.len() as int + pat.len()) =~= pat);
        assert(occurs_at(s, pat, a.len() as int));
    }
}

/// Splitting gives parts that make the text again with the separator between them, and no split has
/// a shorter first part; there is none exactly where the separator is nowhere in the text.
pub proof fn law_split_once_is_leftmost(s: Seq<char>, pat: Seq<char>)
    ensures
        match split_once(s, pat) {
            Some((a, b)) => a + pat + b == s && forall|x: Seq<char>, y: Seq<char>| #[trigger]
                (x + pat + y) == s ==> a.len() <= x.len(),
            None => forall|x: Seq<char>, y: Seq<char>| #[trigger] (x + pat + y) != s,
        },
{
    assert forall|x: Seq<char>, y: Seq<char>| #[trigger] (x + pat + y) == s implies occurs_at(
        s,
        pat,
        x.len() as int,
    ) by {
        assert(s.subrange(x.len() as int, x.len() as int + pat.len()) =~= pat);
    }
    match split_once(s, pat) {
        Some((a, b)) => {
            let i: int = find(s, pat)->0;
            assert(first_at(s, pat, i));
            assert(s.subrange(i, i + pat.len()) == pat);
            assert(a + pat + b =~= s);
            assert forall|x: Seq<char>, y: Seq<char>| #[trigger]
                (x + pat + y) == s implies a.len() <= x.len() by {
                assert(occurs_at(s, pat, x.len() as int));
            }
        },
        None => {
            assert forall|x: Seq<char>, y: Seq<char>| #[trigger] (x + pat + y) != s by {
                if x + pat + y == s {
                    lemma_find_exists(s, pat, x.len() as int);
                }
            }
        },
    }
}

proof fn lemma_trim_start_parts(s: Seq<char>, k: CharClass) -> (w: Seq<char>)
    ensures
        s == w + trim_start(s, k),
        forall|i: int| 0 <= i < w.len() ==> k.has(#[trigger] w[i]),
        trim_start(s, k).len() == 0 || !k.has(trim_start(s, k)[0]),
    decreases s.len(),
{
    if s.len() > 0 && k.has(s[0]) {
        let tail: Seq<char> = lemma_trim_start_parts(s.skip(1), k);
        let w: Seq<char> = seq![s[0]] + tail;
        assert(s =~= seq![s[0]] + s.skip(1));
        assert(seq![s[0]] + (tail + trim_start(s, k)) =~= w + trim_start(s, k));
        w
    } else {
        assert(s =~= seq![] + s);
        seq![]
    }
}

proof fn lemma_trim_end_parts(s: Seq<char>, k: CharClass) -> (w: Seq<char>)
    ensures
        s == trim_end(s, k) + w,
        forall|i: int| 0 <= i < w.len() ==> k.has(#[trigger] w[i]),
        trim_end(s, k).len() == 0 || !k.has(trim_end(s, k).last()),
        trim_end(s, k).len() > 0 ==> trim_end(s, k)[0] == s[0],
    decreases s.len(),
{
    if s.len() > 0 && k.has(s.last()) {
        let init: Seq<char> = lemma_trim_end_parts(s.drop_last(), k);
        let w: Seq<char> = init.push(s.last());
        assert(s =~= s.drop_last().push(s.last()));
        assert((trim_end(s, k) + init).push(s.last()) =~= trim_end(s, k) + w);
        w
    } else {
        assert(s =~= s + seq![]);
        seq![]
    }
}

/// What is trimmed off the two ends are characters of the class alone, and what is left neither
/// starts nor ends with one.
pub proof fn law_trim_leaves_core(s: Seq<char>, k: CharClass)
    ensures
        ({
            let t: Seq<char> = trim(s, k);
            &&& t.len() == 0 || (!k.has(t[0]) && !k.has(t.last()))
            &&& exists|x: Seq<char>, y: Seq<char>|
                {
                    &&& #[trigger] (x + t + y) == s
                    &&& forall|i: int| 0 <= i < x.len() ==> k.has(#[trigger] x[i])
                    &&& forall|i: int| 0 <= i < y.len() ==> k.has(#[trigger] y[i])
                }
        }),
{
    let x: Seq<char> = lemma_trim_start_parts(s, k);
    let m: Seq<char> = trim_start(s, k);
    let y: Seq<char> = lemma_trim_end_parts(m, k);
    let t: Seq<char> = trim(s, k);
    assert(x + t + y =~= s);
}

/// A text is its lines: what stands before the first line feed, without one carriage return at its
/// end, is the first; the rest has the others. A text without a line feed is one line as it stands,
/// unless it is empty.
pub proof fn law_lines_end_at_feeds(a: Seq<char>, b: Seq<char>)
    requires
        !a.contains('\n'),
    ensures
        lines(a + seq!['\n'] + b) == seq![
            if a.len() > 0 && a.last() == '\r' {
                a.drop_last()
            } else {
                a
            },
        ] + lines(b),
        a.len() > 0 ==> lines(a) == seq![a],
        a.len() == 0 ==> lines(a) == Seq::<Seq<char>>::empty(),
{
    lemma_lines_first(a, b);
    lemma_split_once_char_none(a, '\n');
}

/// Leaving a character out leaves none of it and nothing else out: it acts on the parts of a text
/// one by one, takes the character itself away, and changes no text that lacks it.
pub proof fn law_without_takes_only_that(s: Seq<char>, t: Seq<char>, c: char)
    ensures
        !without(s, c).contains(c),
        without(s + t, c) == without(s, c) + without(t, c),
        !s.contains(c) ==> without(s, c) == s,
        without(seq![c], c) == Seq::<char>::empty(),
    decreases s.len(),
{
    reveal(Seq::filter);
    Seq::filter_distributes_over_add(s, t, other_than(c));
    let one: Seq<char> = seq![c];
    assert(one.drop_last() =~= seq![]);
    assert(one.drop_last().filter(other_than(c)) =~= seq![]);
    if s.len() > 0 {
        let init: Seq<char> = s.drop_last();
        law_without_takes_only_that(init, t, c);
        if without(s, c).contains(c) {
            let i: int = choose|i: int| 0 <= i < without(s, c).len() && without(s, c)[i] == c;
            if i < without(init, c).len() {
                assert(without(init, c)[i] == c);
            }
        }
        if !s.contains(c) {
            assert(s.last() == s[s.len() - 1]);
            assert forall|i: int| 0 <= i < init.len() implies init[i] != c by {
                assert(s[i] == init[i]);
            }
            assert(init.push(s.last()) =~= s);
        }
    } else {
        assert(without(s, c) =~= s);
    }
}

} // verus!
