//! The log of the background task: its lines, its size, and what is shown of it.
use crate::decimal::{decimal, zero_padded, zero_padded_text};
use crate::text::{
    lemma_lines_first, lemma_precedes_parts, lemma_split_once_char_none, lines, precedes, texts,
};
use crate::utf8::{
    byte_lines, byte_rows, from_utf8_lossy, law_lines_of_encoded_text, law_lines_of_valid_utf8,
    lemma_byte_lines_concat, lemma_encode_concat, lemma_encode_one, split_lines, utf8_lossy, FEED,
};
use vstd::prelude::*;
use vstd::utf8::{
    decode_utf8, encode_utf8, encode_utf8_decode_utf8, encode_utf8_valid_utf8, valid_utf8,
};

verus! {

/// The size above which the log is cut.
pub const LOG_MAX_BYTES: u64 = 65536;

/// The number of bytes that are kept of a log that is cut.
pub const LOG_KEEP_BYTES: usize = 32768;

/// The most lines of the log that are shown.
pub const RECENT_LINES: usize = 25;

/// Whether a log of that size is to be cut before the next line.
pub fn needs_rotation(len: u64) -> (r: bool)
    ensures
        r == (len > LOG_MAX_BYTES),
        r == (len > 65536),
{
    len > LOG_MAX_BYTES
}

/// The last bytes of a log.
pub open spec fn kept_bytes(buf: Seq<u8>) -> Seq<u8> {
    buf.skip(buf.len() - LOG_KEEP_BYTES)
}

/// What a log of size `len` that holds `buf` is cut to, if it is to be cut and has more bytes than
/// are kept.
pub open spec fn rotation(len: int, buf: Seq<u8>) -> Option<Seq<u8>> {
    if len > LOG_MAX_BYTES && buf.len() > LOG_KEEP_BYTES {
        Some(kept_bytes(buf))
    } else {
        None
    }
}

/// What a log of size `len` that holds `buf` is to be replaced by, if by anything.
pub fn rotated_log(len: u64, buf: &[u8]) -> (r: Option<Vec<u8>>)
    ensures
        match r {
            Some(kept) => rotation(len as int, buf@) == Some(kept@),
            None => rotation(len as int, buf@) is None,
        },
{
    let n: usize = buf.len();
    if !needs_rotation(len) || n <= LOG_KEEP_BYTES {
        return None;
    }
    let start: usize = n - LOG_KEEP_BYTES;
    let mut out: Vec<u8> = Vec::new();
    let mut i: usize = start;
    while i < n
        invariant
            start <= i <= n,
            n == buf@.len(),
            start == n - LOG_KEEP_BYTES,
            out@ == buf@.subrange(start as int, i as int),
        decreases n - i,
    {
        out.push(buf[i]);
        assert(buf@.subrange(start as int, i + 1) =~= buf@.subrange(start as int, i as int).push(
            buf@[i as int],
        ));
        i = i + 1;
    }
    assert(out@ =~= kept_bytes(buf@));
    Some(out)
}

/// A line of the log: the time in square brackets, a blank and the message.
pub open spec fn log_text(timestamp: Seq<char>, msg: Seq<char>) -> Seq<char> {
    "["@ + timestamp + "] "@ + msg + "\n"@
}

/// Writes a line of the log.
pub fn log_line(timestamp: &str, msg: &str) -> (r: String)
    ensures
        r@ == log_text(timestamp@, msg@),
{
    let mut out: String = String::new();
    out.append("[");
    out.append(timestamp);
    out.append("] ");
    out.append(msg);
    out.append("\n");
    assert(out@ =~= log_text(timestamp@, msg@));
    out
}

/// The bytes of the log after one more line, where it is cut as its size demands.
pub open spec fn log_after(before: Seq<u8>, line: Seq<u8>) -> Seq<u8> {
    match rotation(before.len() as int, before) {
        Some(kept) => kept + line,
        None => before + line,
    }
}

/// The log ends with its newest line, what precedes that line is the end of the log as it was, and
/// the log never exceeds its largest size by more than that line. A log that had exceeded it comes
/// down to half of it and the line.
pub proof fn law_log_bounded(before: Seq<u8>, line: Seq<u8>)
    ensures
        ({
            let after: Seq<u8> = log_after(before, line);
            let base: Seq<u8> = after.take(after.len() - line.len());
            &&& after == base + line
            &&& base.len() <= before.len()
            &&& base == before.skip(before.len() - base.len())
            &&& after.len() <= LOG_MAX_BYTES + line.len()
            &&& before.len() > LOG_MAX_BYTES ==> 2 * base.len() == LOG_MAX_BYTES
        }),
{
    let after: Seq<u8> = log_after(before, line);
    let base: Seq<u8> = after.take(after.len() - line.len());
    if before.len() > LOG_MAX_BYTES {
        assert(base =~= kept_bytes(before));
    } else {
        assert(base =~= before);
        assert(before.skip(0) =~= before);
    }
}

/// A local time as the log shows it: year, month and day with dashes between, a blank, hour, minute
/// and second with colons between, each with leading zeros up to its width.
pub open spec fn timestamp_text(
    year: u16,
    month: u16,
    day: u16,
    hour: u16,
    minute: u16,
    second: u16,
) -> Seq<char> {
    zero_padded(year as nat, 4) + "-"@ + zero_padded(month as nat, 2) + "-"@ + zero_padded(
        day as nat,
        2,
    ) + " "@ + zero_padded(hour as nat, 2) + ":"@ + zero_padded(minute as nat, 2) + ":"@
        + zero_padded(second as nat, 2)
}

/// Writes a local time.
pub fn chrono_timestamp(
    year: u16,
    month: u16,
    day: u16,
    hour: u16,
    minute: u16,
    second: u16,
) -> (r: String)
    ensures
        r@ == timestamp_text(year, month, day, hour, minute, second),
{
    let mut out: String = zero_padded_text(year as u128, 4);
    out.append("-");
    out.append(zero_padded_text(month as u128, 2).as_str());
    out.append("-");
    out.append(zero_padded_text(day as u128, 2).as_str());
    out.append(" ");
    out.append(zero_padded_text(hour as u128, 2).as_str());
    out.append(":");
    out.append(zero_padded_text(minute as u128, 2).as_str());
    out.append(":");
    out.append(zero_padded_text(second as u128, 2).as_str());
    assert(out@ =~= timestamp_text(year, month, day, hour, minute, second));
    out
}

proof fn lemma_zero_padded_len(n: nat, width: nat)
    requires
        (width == 2 && n < 100) || (width == 4 && n < 10000),
    ensures
        zero_padded(n, width).len() == width,
{
    reveal_with_fuel(decimal, 5);
}

/// The text of a date and time within the calendar has 19 characters.
pub proof fn law_timestamp_width(
    year: u16,
    month: u16,
    day: u16,
    hour: u16,
    minute: u16,
    second: u16,
)
    requires
        year < 10000,
        month < 100,
        day < 100,
        hour < 100,
        minute < 100,
        second < 100,
    ensures
        timestamp_text(year, month, day, hour, minute, second).len() == 19,
{
    lemma_zero_padded_len(year as nat, 4);
    lemma_zero_padded_len(month as nat, 2);
    lemma_zero_padded_len(day as nat, 2);
    lemma_zero_padded_len(hour as nat, 2);
    lemma_zero_padded_len(minute as nat, 2);
    lemma_zero_padded_len(second as nat, 2);
    reveal_strlit("-");
    reveal_strlit(" ");
    reveal_strlit(":");
}

/// A local time.
pub struct LocalTime {
    pub year: u16,
    pub month: u16,
    pub day: u16,
    pub hour: u16,
    pub minute: u16,
    pub second: u16,
}

impl LocalTime {
    /// Every part has a numeral no wider than its column; all times up to the year 9999 do.
    pub open spec fn fits(self) -> bool {
        &&& self.year < 10000
        &&& self.month < 100
        &&& self.day < 100
        &&& self.hour < 100
        &&& self.minute < 100
        &&& self.second < 100
    }

    /// The time as the log shows it.
    pub open spec fn text(self) -> Seq<char> {
        timestamp_text(self.year, self.month, self.day, self.hour, self.minute, self.second)
    }

    /// This time comes before `other`: the largest part that differs decides.
    pub open spec fn is_earlier(self, other: LocalTime) -> bool {
        ||| self.year < other.year
        ||| self.year == other.year && self.month < other.month
        ||| self.year == other.year && self.month == other.month && self.day < other.day
        ||| self.year == other.year && self.month == other.month && self.day == other.day
            && self.hour < other.hour
        ||| self.year == other.year && self.month == other.month && self.day == other.day
            && self.hour == other.hour && self.minute < other.minute
        ||| self.year == other.year && self.month == other.month && self.day == other.day
            && self.hour == other.hour && self.minute == other.minute && self.second
            < other.second
    }
}

/// The digits of a number in a column of two.
proof fn lemma_two_digits(n: nat)
    requires
        n < 100,
    ensures
        zero_padded(n, 2) == seq![(48 + n / 10) as char, (48 + n % 10) as char],
{
    reveal_with_fuel(decimal, 3);
    assert(zero_padded(n, 2) =~= seq![(48 + n / 10) as char, (48 + n % 10) as char]);
}

/// The digits of a number in a column of four.
proof fn lemma_four_digits(n: nat)
    requires
        n < 10000,
    ensures
        zero_padded(n, 4) == zero_padded(n / 100, 2) + zero_padded(n % 100, 2),
{
    reveal_with_fuel(decimal, 5);
    lemma_two_digits(n / 100);
    lemma_two_digits(n % 100);
    assert(n / 10 / 10 == n / 100);
    assert(n / 10 / 10 / 10 == n / 1000);
    assert(n / 100 / 10 == n / 1000);
    assert(n % 100 / 10 == n / 10 % 10);
    assert(n % 100 % 10 == n % 10);
    assert(n / 100 % 10 == n / 10 / 10 % 10);
    assert(zero_padded(n, 4) =~= zero_padded(n / 100, 2) + zero_padded(n % 100, 2));
}

/// Numbers in a column of two are ordered as their texts are.
proof fn lemma_two_ordered(m: nat, n: nat)
    requires
        m < 100,
        n < 100,
    ensures
        precedes(zero_padded(m, 2), zero_padded(n, 2)) <==> m < n,
        zero_padded(m, 2) == zero_padded(n, 2) <==> m == n,
{
    lemma_two_digits(m);
    lemma_two_digits(n);
    let a: Seq<char> = zero_padded(m, 2);
    let b: Seq<char> = zero_padded(n, 2);
    reveal_with_fuel(precedes, 3);
    assert(a[0] as int == 48 + m / 10 && a[1] as int == 48 + m % 10);
    assert(b[0] as int == 48 + n / 10 && b[1] as int == 48 + n % 10);
    assert(a.skip(1)[0] == a[1] && b.skip(1)[0] == b[1]);
    assert(a.skip(1).skip(1).len() == 0 && b.skip(1).skip(1).len() == 0);
}

/// Numbers in a column of four are ordered as their texts are.
proof fn lemma_four_ordered(m: nat, n: nat)
    requires
        m < 10000,
        n < 10000,
    ensures
        precedes(zero_padded(m, 4), zero_padded(n, 4)) <==> m < n,
        zero_padded(m, 4) == zero_padded(n, 4) <==> m == n,
{
    lemma_four_digits(m);
    lemma_four_digits(n);
    lemma_zero_padded_len(m / 100, 2);
    lemma_zero_padded_len(n / 100, 2);
    lemma_two_ordered(m / 100, n / 100);
    lemma_two_ordered(m % 100, n % 100);
    lemma_precedes_parts(
        zero_padded(m / 100, 2),
        zero_padded(m % 100, 2),
        zero_padded(n / 100, 2),
        zero_padded(n % 100, 2),
    );
    if zero_padded(m, 4) == zero_padded(n, 4) {
        lemma_parts_equal(
            zero_padded(m / 100, 2),
            zero_padded(m % 100, 2),
            zero_padded(n / 100, 2),
            zero_padded(n % 100, 2),
        );
    }
}

/// Texts in two parts each, with first parts of the same length, are the same if and only if their
/// parts are.
proof fn lemma_parts_equal(a: Seq<char>, x: Seq<char>, b: Seq<char>, y: Seq<char>)
    requires
        a.len() == b.len(),
    ensures
        a + x == b + y <==> a == b && x == y,
{
    if a + x == b + y {
        assert((a + x).take(a.len() as int) =~= a);
        assert((b + y).take(a.len() as int) =~= b);
        assert((a + x).skip(a.len() as int) =~= x);
        assert((b + y).skip(a.len() as int) =~= y);
    }
}

/// One column, a separator and what follows, held against another such text.
proof fn lemma_column(
    a: Seq<char>,
    x: Seq<char>,
    b: Seq<char>,
    y: Seq<char>,
    sep: Seq<char>,
)
    requires
        a.len() == b.len(),
        sep.len() == 1,
    ensures
        precedes(a + (sep + x), b + (sep + y)) <==> precedes(a, b) || (a == b && precedes(x, y)),
        a + (sep + x) == b + (sep + y) <==> a == b && x == y,
{
    lemma_precedes_parts(a, sep + x, b, sep + y);
    lemma_precedes_parts(sep, x, sep, y);
    assert(!precedes(sep, sep)) by {
        reveal_with_fuel(precedes, 2);
    }
    lemma_parts_equal(a, sep + x, b, sep + y);
    lemma_parts_equal(sep, x, sep, y);
}

/// Times are ordered as their texts are, and times with the same text are the same; each text has 19
/// characters.
pub proof fn law_timestamps_are_ordered(s: LocalTime, t: LocalTime)
    requires
        s.fits(),
        t.fits(),
    ensures
        s.text().len() == 19,
        t.text().len() == 19,
        precedes(s.text(), t.text()) <==> s.is_earlier(t),
        s.text() == t.text() <==> s == t,
{
    law_timestamp_width(s.year, s.month, s.day, s.hour, s.minute, s.second);
    law_timestamp_width(t.year, t.month, t.day, t.hour, t.minute, t.second);
    reveal_strlit("-");
    reveal_strlit(" ");
    reveal_strlit(":");
    lemma_zero_padded_len(s.year as nat, 4);
    lemma_zero_padded_len(t.year as nat, 4);
    lemma_four_ordered(s.year as nat, t.year as nat);
    lemma_columns(s);
    lemma_columns(t);
    let (s5, t5) = (zero_padded(s.second as nat, 2), zero_padded(t.second as nat, 2));
    let (s4, t4) = (zero_padded(s.minute as nat, 2), zero_padded(t.minute as nat, 2));
    let (s3, t3) = (zero_padded(s.hour as nat, 2), zero_padded(t.hour as nat, 2));
    let (s2, t2) = (zero_padded(s.day as nat, 2), zero_padded(t.day as nat, 2));
    let (s1, t1) = (zero_padded(s.month as nat, 2), zero_padded(t.month as nat, 2));
    let (s0, t0) = (zero_padded(s.year as nat, 4), zero_padded(t.year as nat, 4));
    lemma_two_ordered(s.month as nat, t.month as nat);
    lemma_two_ordered(s.day as nat, t.day as nat);
    lemma_two_ordered(s.hour as nat, t.hour as nat);
    lemma_two_ordered(s.minute as nat, t.minute as nat);
    lemma_two_ordered(s.second as nat, t.second as nat);
    lemma_zero_padded_len(s.month as nat, 2);
    lemma_zero_padded_len(t.month as nat, 2);
    lemma_zero_padded_len(s.day as nat, 2);
    lemma_zero_padded_len(t.day as nat, 2);
    lemma_zero_padded_len(s.hour as nat, 2);
    lemma_zero_padded_len(t.hour as nat, 2);
    lemma_zero_padded_len(s.minute as nat, 2);
    lemma_zero_padded_len(t.minute as nat, 2);
    let (xs4, xt4) = (s4 + (":"@ + s5), t4 + (":"@ + t5));
    let (xs3, xt3) = (s3 + (":"@ + xs4), t3 + (":"@ + xt4));
    let (xs2, xt2) = (s2 + (" "@ + xs3), t2 + (" "@ + xt3));
    let (xs1, xt1) = (s1 + ("-"@ + xs2), t1 + ("-"@ + xt2));
    lemma_column(s4, s5, t4, t5, ":"@);
    lemma_column(s3, xs4, t3, xt4, ":"@);
    lemma_column(s2, xs3, t2, xt3, " "@);
    lemma_column(s1, xs2, t1, xt2, "-"@);
    lemma_column(s0, xs1, t0, xt1, "-"@);
}

/// The text of a time, column by column.
proof fn lemma_columns(t: LocalTime)
    ensures
        t.text() == zero_padded(t.year as nat, 4) + ("-"@ + (zero_padded(t.month as nat, 2) + ("-"@
            + (zero_padded(t.day as nat, 2) + (" "@ + (zero_padded(t.hour as nat, 2) + (":"@ + (
        zero_padded(t.minute as nat, 2) + (":"@ + zero_padded(t.second as nat, 2)))))))))),
{
    let (y, m, d) = (
        zero_padded(t.year as nat, 4),
        zero_padded(t.month as nat, 2),
        zero_padded(t.day as nat, 2),
    );
    let (h, n, s) = (
        zero_padded(t.hour as nat, 2),
        zero_padded(t.minute as nat, 2),
        zero_padded(t.second as nat, 2),
    );
    let l1: Seq<char> = y + "-"@;
    let l2: Seq<char> = l1 + m;
    let l3: Seq<char> = l2 + "-"@;
    let l4: Seq<char> = l3 + d;
    let l5: Seq<char> = l4 + " "@;
    let l6: Seq<char> = l5 + h;
    let l7: Seq<char> = l6 + ":"@;
    let l8: Seq<char> = l7 + n;
    let r8: Seq<char> = ":"@ + s;
    let r7: Seq<char> = n + r8;
    let r6: Seq<char> = ":"@ + r7;
    let r5: Seq<char> = h + r6;
    let r4: Seq<char> = " "@ + r5;
    let r3: Seq<char> = d + r4;
    let r2: Seq<char> = "-"@ + r3;
    let r1: Seq<char> = m + r2;
    assert(l8 + ":"@ + s =~= l8 + r8);
    assert(l7 + n + r8 =~= l7 + r7);
    assert(l6 + ":"@ + r7 =~= l6 + r6);
    assert(l5 + h + r6 =~= l5 + r5);
    assert(l4 + " "@ + r5 =~= l4 + r4);
    assert(l3 + d + r4 =~= l3 + r3);
    assert(l2 + "-"@ + r3 =~= l2 + r2);
    assert(l1 + m + r2 =~= l1 + r1);
    assert(y + "-"@ + r1 =~= y + ("-"@ + r1));
}

/// The last of a list of lines, each set in by two blanks.
pub open spec fn recent(ls: Seq<Seq<char>>) -> Seq<Seq<char>> {
    let start: int = if ls.len() > RECENT_LINES {
        ls.len() - RECENT_LINES
    } else {
        0
    };
    ls.skip(start).map_values(|l: Seq<char>| "  "@ + l)
}

/// The lines of bytes as text: each is decoded by itself, so damage to one line leaves the others.
pub open spec fn decoded_lines(b: Seq<u8>) -> Seq<Seq<char>> {
    byte_lines(b).map_values(|l: Seq<u8>| utf8_lossy(l))
}

/// The last of a list of lines, set in by two blanks.
pub fn recent_lines(ls: &[String]) -> (r: Vec<String>)
    ensures
        texts(r@) == recent(texts(ls@)),
{
    let ghost all: Seq<Seq<char>> = texts(ls@);
    let n: usize = ls.len();
    let start: usize = if n > RECENT_LINES {
        n - RECENT_LINES
    } else {
        0
    };
    let mut out: Vec<String> = Vec::new();
    let mut i: usize = start;
    while i < n
        invariant
            start <= i <= n,
            n == ls@.len(),
            all == texts(ls@),
            out@.len() == i - start,
            forall|k: int| 0 <= k < i - start ==> (#[trigger] out@[k])@ == "  "@ + all[start + k],
        decreases n - i,
    {
        let mut line: String = String::new();
        line.append("  ");
        line.append(ls[i].as_str());
        assert(line@ =~= "  "@ + all[i as int]);
        out.push(line);
        i = i + 1;
    }
    assert(texts(out@) =~= recent(all));
    out
}

/// The lines of the log to show, from the bytes that it holds. Valid UTF-8 is shown as the text that
/// it is; of other bytes every line that is valid by itself still is.
pub fn show_recent_logs(content: &[u8]) -> (r: Vec<String>)
    ensures
        texts(r@) == recent(decoded_lines(content@)),
        valid_utf8(content@) ==> texts(r@) == recent(lines(decode_utf8(content@))),
        r@.len() <= byte_lines(content@).len(),
        forall|i: int|
            0 <= i < r@.len() ==> {
                let line: Seq<u8> = byte_lines(content@)[byte_lines(content@).len() - r@.len() + i];
                valid_utf8(line) ==> (#[trigger] r@[i])@ == "  "@ + decode_utf8(line)
            },
{
    let rows: Vec<Vec<u8>> = split_lines(content);
    let ghost all: Seq<Seq<u8>> = byte_lines(content@);
    let mut decoded: Vec<String> = Vec::new();
    let mut i: usize = 0;
    while i < rows.len()
        invariant
            i <= rows@.len(),
            all == byte_rows(rows@),
            decoded@.len() == i,
            forall|k: int|
                0 <= k < i ==> (#[trigger] decoded@[k])@ == utf8_lossy(all[k]) && (valid_utf8(
                    all[k],
                ) ==> decoded@[k]@ == decode_utf8(all[k])),
        decreases rows@.len() - i,
    {
        decoded.push(from_utf8_lossy(rows[i].as_slice()));
        i = i + 1;
    }
    assert(texts(decoded@) =~= decoded_lines(content@));
    let shown: Vec<String> = recent_lines(decoded.as_slice());
    proof {
        if valid_utf8(content@) {
            law_lines_of_valid_utf8(content@);
            assert(texts(decoded@) =~= lines(decode_utf8(content@)));
        }
        law_last_lines_are_shown(texts(decoded@));
        assert(shown@.len() == texts(shown@).len());
        assert(decoded@.len() == texts(decoded@).len());
        let start: int = all.len() - shown@.len();
        assert forall|k: int| 0 <= k < shown@.len() implies {
            let line: Seq<u8> = all[start + k];
            valid_utf8(line) ==> (#[trigger] shown@[k])@ == "  "@ + decode_utf8(line)
        } by {
            assert(texts(shown@)[k] == "  "@ + texts(decoded@)[start + k]);
            assert(texts(decoded@)[start + k] == decoded@[start + k]@);
        }
    }
    shown
}

/// As many lines are shown as there are, but 25 at most, and the last one shown is the last there is.
pub proof fn law_last_lines_are_shown(ls: Seq<Seq<char>>)
    ensures
        ls.len() <= 25 ==> recent(ls).len() == ls.len(),
        ls.len() > 25 ==> recent(ls).len() == 25,
        forall|i: int|
            0 <= i < recent(ls).len() ==> #[trigger] recent(ls)[i] == "  "@ + ls[ls.len() - recent(
                ls,
            ).len() + i],
{
}

/// The newest event is the last line of the log, whatever stands before it and wherever the log was
/// cut: where the log was empty or ended with a line feed, it does so again, and its last line is
/// valid UTF-8 that decodes to the event.
pub proof fn law_newest_event_is_last_line(
    before: Seq<u8>,
    timestamp: Seq<char>,
    msg: Seq<char>,
)
    requires
        before.len() == 0 || before.last() == FEED,
        !timestamp.contains('\n'),
        !msg.contains('\n'),
        msg.len() == 0 || msg.last() != '\r',
    ensures
        ({
            let after: Seq<u8> = log_after(before, encode_utf8(log_text(timestamp, msg)));
            let event: Seq<char> = "["@ + timestamp + "] "@ + msg;
            &&& after.len() > 0 && after.last() == FEED
            &&& byte_lines(after).len() > 0
            &&& valid_utf8(byte_lines(after).last())
            &&& decode_utf8(byte_lines(after).last()) == event
        }),
{
    reveal_strlit("[");
    reveal_strlit("] ");
    reveal_strlit("\n");
    let event: Seq<char> = "["@ + timestamp + "] "@ + msg;
    let line: Seq<char> = log_text(timestamp, msg);
    let bytes: Seq<u8> = encode_utf8(line);
    let after: Seq<u8> = log_after(before, bytes);
    let base: Seq<u8> = after.take(after.len() - bytes.len());
    law_log_bounded(before, bytes);
    if base.len() > 0 {
        assert(base.last() == before.last());
    }
    assert forall|i: int| 0 <= i < event.len() implies event[i] != '\n' by {
        let j: int = i - 1 - timestamp.len();
        if 1 <= i < 1 + timestamp.len() {
            assert(event[i] == timestamp[i - 1]);
        } else if j >= 2 {
            assert(event[i] == msg[j - 2]);
        }
    }
    assert(event.last() != '\r') by {
        if msg.len() > 0 {
            assert(event.last() == msg.last());
        } else {
            assert(event.last() == "] "@[1]);
        }
    }
    let none: Seq<char> = seq![];
    assert(line =~= event + seq!['\n'] + none);
    lemma_lines_first(event, none);
    lemma_split_once_char_none(none, '\n');
    assert(lines(none) =~= seq![]);
    assert(lines(line) =~= seq![event]);
    law_lines_of_encoded_text(line);
    lemma_byte_lines_concat(base, bytes);
    assert(byte_lines(after).last() == encode_utf8(event));
    encode_utf8_valid_utf8(event);
    encode_utf8_decode_utf8(event);
    assert(line =~= event + seq!['\n']);
    lemma_encode_concat(event, seq!['\n']);
    lemma_encode_one('\n');
}

/// A log is cut if and only if it is larger than 65536 bytes and more than 32768 of them were read,
/// and then to the last 32768 of those.
pub proof fn law_cut_keeps_the_end(len: int, buf: Seq<u8>, kept: Seq<u8>)
    ensures
        rotation(len, buf) == Some(kept) <==> {
            &&& len > 65536
            &&& buf.len() > 32768
            &&& kept.len() == 32768
            &&& exists|head: Seq<u8>| #[trigger] (head + kept) == buf
        },
        rotation(len, buf) is None <==> len <= 65536 || buf.len() <= 32768,
{
    if buf.len() > 32768 {
        let n: int = buf.len() - 32768;
        assert(buf.take(n) + buf.skip(n) =~= buf);
        if kept.len() == 32768 && exists|head: Seq<u8>| #[trigger] (head + kept) == buf {
            let head: Seq<u8> = choose|head: Seq<u8>| #[trigger] (head + kept) == buf;
            assert(buf.skip(n) =~= kept);
        }
    }
}

/// A line of the log is the time in brackets, a blank, the message and a line feed.
pub proof fn law_log_line_is_time_and_message(timestamp: Seq<char>, msg: Seq<char>)
    ensures
        log_text(timestamp, msg) == seq!['['] + timestamp + seq![']', ' '] + msg + seq!['\n'],
{
    reveal_strlit("[");
    reveal_strlit("] ");
    reveal_strlit("\n");
    assert(log_text(timestamp, msg) =~= seq!['['] + timestamp + seq![']', ' '] + msg + seq!['\n']);
}

/// The number that the two digits from `i` on stand for.
pub open spec fn two_digits_at(s: Seq<char>, i: int) -> int {
    10 * (s[i] as int - '0' as int) + (s[i + 1] as int - '0' as int)
}

/// Every part of a time can be read back from its place in the text, and dashes, a blank and colons
/// stand between the parts.
pub proof fn law_timestamp_parts_stand_in_place(t: LocalTime)
    requires
        t.fits(),
    ensures
        ({
            let s: Seq<char> = t.text();
            &&& s.len() == 19
            &&& t.year == 100 * two_digits_at(s, 0) + two_digits_at(s, 2)
            &&& s[4] == '-'
            &&& t.month == two_digits_at(s, 5)
            &&& s[7] == '-'
            &&& t.day == two_digits_at(s, 8)
            &&& s[10] == ' '
            &&& t.hour == two_digits_at(s, 11)
            &&& s[13] == ':'
            &&& t.minute == two_digits_at(s, 14)
            &&& s[16] == ':'
            &&& t.second == two_digits_at(s, 17)
        }),
{
    law_timestamp_width(t.year, t.month, t.day, t.hour, t.minute, t.second);
    reveal_strlit("-");
    reveal_strlit(" ");
    reveal_strlit(":");
    lemma_columns(t);
    let (y, m, d) = (
        zero_padded(t.year as nat, 4),
        zero_padded(t.month as nat, 2),
        zero_padded(t.day as nat, 2),
    );
    let (h, n, s) = (
        zero_padded(t.hour as nat, 2),
        zero_padded(t.minute as nat, 2),
        zero_padded(t.second as nat, 2),
    );
    let x4: Seq<char> = n + (":"@ + s);
    let x3: Seq<char> = h + (":"@ + x4);
    let x2: Seq<char> = d + (" "@ + x3);
    let x1: Seq<char> = m + ("-"@ + x2);
    let text: Seq<char> = t.text();
    lemma_four_digits(t.year as nat);
    lemma_two_digits(t.year as nat / 100);
    lemma_two_digits(t.year as nat % 100);
    lemma_two_digits(t.month as nat);
    lemma_two_digits(t.day as nat);
    lemma_two_digits(t.hour as nat);
    lemma_two_digits(t.minute as nat);
    lemma_two_digits(t.second as nat);
    lemma_peel(y, "-"@, x1, text);
    lemma_peel(m, "-"@, x2, x1);
    lemma_peel(d, " "@, x3, x2);
    lemma_peel(h, ":"@, x4, x3);
    lemma_peel(n, ":"@, s, x4);
    assert(text.skip(5) == x1 && text.skip(5)[0] == text[5] && text.skip(5)[1] == text[6]);
    assert(x1.skip(3) == x2 && x2.skip(3) == x3 && x3.skip(3) == x4 && x4.skip(3) == s);
    assert(text[7] == x1[2]);
    assert(text[8] == x1[3] && x1[3] == x2[0] && text[9] == x1[4] && x1[4] == x2[1]);
    assert(text[10] == x1[5] && x1[5] == x2[2]);
    assert(text[11] == x1[6] && x1[6] == x2[3] && x2[3] == x3[0]);
    assert(text[12] == x1[7] && x1[7] == x2[4] && x2[4] == x3[1]);
    assert(text[13] == x1[8] && x1[8] == x2[5] && x2[5] == x3[2]);
    assert(text[14] == x1[9] && x1[9] == x2[6] && x2[6] == x3[3] && x3[3] == x4[0]);
    assert(text[15] == x1[10] && x1[10] == x2[7] && x2[7] == x3[4] && x3[4] == x4[1]);
    assert(text[16] == x1[11] && x1[11] == x2[8] && x2[8] == x3[5] && x3[5] == x4[2]);
    assert(text[17] == x1[12] && x1[12] == x2[9] && x2[9] == x3[6] && x3[6] == x4[3] && x4[3]
        == s[0]);
    assert(text[18] == x1[13] && x1[13] == x2[10] && x2[10] == x3[7] && x3[7] == x4[4] && x4[4]
        == s[1]);
}

/// A column and a separator come off the front of a text.
proof fn lemma_peel(p: Seq<char>, sep: Seq<char>, rest: Seq<char>, whole: Seq<char>)
    requires
        whole == p + (sep + rest),
        sep.len() == 1,
    ensures
        whole.take(p.len() as int) == p,
        whole[p.len() as int] == sep[0],
        whole.skip(p.len() as int + 1) == rest,
        forall|i: int| 0 <= i < p.len() ==> #[trigger] whole[i] == p[i],
        forall|i: int| p.len() < i < whole.len() ==> #[trigger] whole[i] == rest[i - p.len() - 1],
{
    assert(whole.take(p.len() as int) =~= p);
    assert(whole.skip(p.len() as int + 1) =~= rest);
}

/// The lines that are shown are those of the bytes, each decoded by itself.
pub proof fn law_lines_are_decoded_one_by_one(b: Seq<u8>, i: int)
    ensures
        decoded_lines(b).len() == byte_lines(b).len(),
        0 <= i < byte_lines(b).len() ==> decoded_lines(b)[i] == utf8_lossy(byte_lines(b)[i]),
{
}

/// The text of any time, also of one whose parts are wider than their columns, is its parts from the
/// largest to the smallest, each with zeros up to its width, and the separators between them.
pub proof fn law_timestamp_is_columns(t: LocalTime)
    ensures
        t.text() == zero_padded(t.year as nat, 4) + ("-"@ + (zero_padded(t.month as nat, 2) + ("-"@
            + (zero_padded(t.day as nat, 2) + (" "@ + (zero_padded(t.hour as nat, 2) + (":"@ + (
        zero_padded(t.minute as nat, 2) + (":"@ + zero_padded(t.second as nat, 2)))))))))),
{
    lemma_columns(t);
}

} // verus!
