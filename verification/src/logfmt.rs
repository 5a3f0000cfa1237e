//! The request log's line format.
//!
//! One line is appended per successfully served file, holding five
//! tab-separated fields: a bracketed local timestamp, the served file's
//! base name, its size in bytes, and two time values formatted to four
//! decimal places.  The time values are wall-clock seconds divided by
//! 10_000_000_000 — an odd divisor, kept deliberately as the served
//! behaviour — computed exactly over nanosecond counts.

use vstd::prelude::*;

verus! {

/// Decimal digit bytes of `n`, most significant first, with no leading
/// zeros (a single `0` for zero).
pub open spec fn dec_digits(n: nat) -> Seq<u8>
    decreases n,
{
    if n < 10 {
        seq![(48 + n) as u8]
    } else {
        dec_digits(n / 10).push((48 + n % 10) as u8)
    }
}

/// The scaled time value printed in the log, in ten-thousandths: the
/// nanosecond count divided by 10^19 (seconds divided by 10^10),
/// rounded to four decimal places.
pub open spec fn scaled_value(nanos: nat) -> nat {
    (nanos + 500_000_000_000_000) / 1_000_000_000_000_000
}

/// Elapsed nanoseconds between two clock readings; a clock that moved
/// backwards counts as no elapsed time.
pub open spec fn elapsed_nanos(end_nanos: nat, start_nanos: nat) -> nat {
    if start_nanos <= end_nanos {
        (end_nanos - start_nanos) as nat
    } else {
        0
    }
}

/// A value in ten-thousandths rendered with four decimal places:
/// the integer part, a dot, and exactly four digits.
pub open spec fn fixed4(t: nat) -> Seq<u8> {
    dec_digits(t / 10000) + seq![46u8] + seq![
        (48 + t / 1000 % 10) as u8,
        (48 + t / 100 % 10) as u8,
        (48 + t / 10 % 10) as u8,
        (48 + t % 10) as u8,
    ]
}

/// One log line: `[timestamp]`, base name, size, scaled end time and
/// scaled elapsed time, tab-separated, ending in a line feed.
pub open spec fn log_line(
    ts: Seq<u8>,
    name: Seq<u8>,
    size: nat,
    end_nanos: nat,
    start_nanos: nat,
) -> Seq<u8> {
    seq![91u8] + ts + seq![93u8] + seq![9u8] + name + seq![9u8] + dec_digits(size) + seq![9u8]
        + fixed4(scaled_value(end_nanos)) + seq![9u8] + fixed4(
        scaled_value(elapsed_nanos(end_nanos, start_nanos)),
    ) + seq![10u8]
}

/// A field fit for the log: free of the tab separator and of line
/// terminators, so the line it stands in keeps its shape.
pub open spec fn clean_field(s: Seq<u8>) -> bool {
    forall|i: int| 0 <= i < s.len() ==> s[i] != 9 && s[i] != 10
}

/// The five fields of a log line, in order: the bracketed timestamp,
/// the served file's base name, its size in decimal digits, the scaled
/// end time and the scaled elapsed time.
pub open spec fn log_fields(
    ts: Seq<u8>,
    name: Seq<u8>,
    size: nat,
    end_nanos: nat,
    start_nanos: nat,
) -> Seq<Seq<u8>> {
    seq![
        seq![91u8] + ts + seq![93u8],
        name,
        dec_digits(size),
        fixed4(scaled_value(end_nanos)),
        fixed4(scaled_value(elapsed_nanos(end_nanos, start_nanos))),
    ]
}

/// Number of bytes from `i` up to the first tab at or after it, or up
/// to the end of `s` if no tab follows.
pub open spec fn tab_offset(s: Seq<u8>, i: int) -> nat
    decreases s.len() - i,
{
    if i < 0 || i >= s.len() || s[i] == 9 {
        0
    } else {
        1 + tab_offset(s, i + 1)
    }
}

/// The tab-separated fields of `s` from index `i` on.
pub open spec fn tab_split_from(s: Seq<u8>, i: int) -> Seq<Seq<u8>>
    decreases s.len() - i,
{
    if i < 0 || i > s.len() {
        seq![]
    } else if i + tab_offset(s, i) >= s.len() {
        seq![s.subrange(i, s.len() as int)]
    } else {
        seq![s.subrange(i, i + tab_offset(s, i))] + tab_split_from(s, i + tab_offset(s, i) + 1)
    }
}

/// The tab-separated fields of `s`: what a reader of the log recovers
/// from one line with its terminator removed.
pub open spec fn tab_split(s: Seq<u8>) -> Seq<Seq<u8>> {
    tab_split_from(s, 0)
}

/// A line of the expected shape: some bytes ending in a line feed,
/// with no other line terminator among them.
pub open spec fn terminated_line(s: Seq<u8>) -> bool {
    &&& s.len() >= 1
    &&& s[s.len() - 1] == 10
    &&& (forall|i: int| 0 <= i < s.len() - 1 ==> s[i] != 10)
}

/// A line of the expected shape holding exactly the given fields
/// between the tabs.
pub open spec fn line_has_fields(s: Seq<u8>, fields: Seq<Seq<u8>>) -> bool {
    &&& terminated_line(s)
    &&& tab_split(s.subrange(0, s.len() - 1)) == fields
}

/// The content of the log after its lines were appended in some order:
/// the lines, joined.
pub open spec fn joined(lines: Seq<Seq<u8>>) -> Seq<u8>
    decreases lines.len(),
{
    if lines.len() == 0 {
        Seq::empty()
    } else {
        lines[0] + joined(lines.skip(1))
    }
}

/// Number of bytes from `i` up to the first line feed at or after it,
/// or up to the end of `s` if no line feed follows.
pub open spec fn nl_offset(s: Seq<u8>, i: int) -> nat
    decreases s.len() - i,
{
    if i < 0 || i >= s.len() || s[i] == 10 {
        0
    } else {
        1 + nl_offset(s, i + 1)
    }
}

/// The lines of `s` from index `i` on, each piece carrying its
/// terminating line feed (an unterminated tail counts as one piece).
pub open spec fn nl_split_from(s: Seq<u8>, i: int) -> Seq<Seq<u8>>
    decreases s.len() - i,
{
    if i < 0 || i >= s.len() {
        seq![]
    } else if i + nl_offset(s, i) >= s.len() {
        seq![s.subrange(i, s.len() as int)]
    } else {
        seq![s.subrange(i, i + nl_offset(s, i) + 1)] + nl_split_from(s, i + nl_offset(s, i) + 1)
    }
}

/// The lines of `s`: what a reader of the log file recovers.
pub open spec fn nl_split(s: Seq<u8>) -> Seq<Seq<u8>> {
    nl_split_from(s, 0)
}

proof fn lemma_tab_offset_at(s: Seq<u8>, i: int, k: int)
    requires
        0 <= i <= k < s.len(),
        s[k] == 9,
        forall|j: int| i <= j < k ==> s[j] != 9,
    ensures
        tab_offset(s, i) == k - i,
    decreases k - i,
{
    if i < k {
        lemma_tab_offset_at(s, i + 1, k);
    }
}

proof fn lemma_tab_offset_none(s: Seq<u8>, i: int)
    requires
        0 <= i <= s.len(),
        forall|j: int| i <= j < s.len() ==> s[j] != 9,
    ensures
        tab_offset(s, i) == s.len() - i,
    decreases s.len() - i,
{
    if i < s.len() {
        lemma_tab_offset_none(s, i + 1);
    }
}

proof fn lemma_nl_offset_at(s: Seq<u8>, i: int, k: int)
    requires
        0 <= i <= k < s.len(),
        s[k] == 10,
        forall|j: int| i <= j < k ==> s[j] != 10,
    ensures
        nl_offset(s, i) == k - i,
    decreases k - i,
{
    if i < k {
        lemma_nl_offset_at(s, i + 1, k);
    }
}

proof fn lemma_joined_splits_back(lines: Seq<Seq<u8>>, s: Seq<u8>, i: int)
    requires
        0 <= i <= s.len(),
        s.skip(i) == joined(lines),
        forall|k: int| 0 <= k < lines.len() ==> terminated_line(#[trigger] lines[k]),
    ensures
        nl_split_from(s, i) == lines,
    decreases lines.len(),
{
    if lines.len() == 0 {
        assert(s.skip(i).len() == 0);
        assert(i >= s.len());
        assert(nl_split_from(s, i) =~= lines);
    } else {
        let l0 = lines[0];
        assert(terminated_line(l0));
        let rest = joined(lines.skip(1));
        assert(s.skip(i) == l0 + rest);
        assert(s.len() - i == l0.len() + rest.len());
        assert forall|j: int| i <= j < i + l0.len() implies s[j] == l0[j - i] by {
            assert(s.skip(i)[j - i] == (l0 + rest)[j - i]);
        }
        let k = i + l0.len() - 1;
        assert(s[k] == l0[l0.len() - 1]);
        assert(s[k] == 10);
        assert forall|j: int| i <= j < k implies s[j] != 10 by {
            assert(s[j] == l0[j - i]);
            assert(l0[j - i] != 10);
        }
        lemma_nl_offset_at(s, i, k);
        assert(i + nl_offset(s, i) + 1 == i + l0.len());
        assert(s.subrange(i, i + l0.len() as int) =~= l0);
        let i2 = i + l0.len() as int;
        assert(s.skip(i2) =~= rest) by {
            assert forall|j: int| 0 <= j < s.len() - i2 implies s.skip(i2)[j] == rest[j] by {
                assert(s.skip(i)[l0.len() + j] == (l0 + rest)[l0.len() + j]);
            }
        }
        assert forall|k2: int| 0 <= k2 < lines.skip(1).len() implies terminated_line(
            #[trigger] lines.skip(1)[k2],
        ) by {
            assert(lines.skip(1)[k2] == lines[k2 + 1]);
        }
        lemma_joined_splits_back(lines.skip(1), s, i2);
        if i2 >= s.len() {
            assert(lines.skip(1).len() == 0);
            assert(nl_split_from(s, i) =~= seq![s.subrange(i, s.len() as int)]);
            assert(s.subrange(i, s.len() as int) =~= l0);
            assert(nl_split_from(s, i) =~= lines);
        } else {
            assert(nl_split_from(s, i) == seq![s.subrange(i, i2)] + nl_split_from(s, i2));
            assert(nl_split_from(s, i) =~= lines);
        }
    }
}

/// Law: a log assembled by appending any number of well-shaped lines
/// whole reads back as exactly those lines, none merged and none
/// split — the shape behind serialized, append-only logging.
pub proof fn lemma_log_lines_recoverable(lines: Seq<Seq<u8>>)
    requires
        forall|k: int| 0 <= k < lines.len() ==> terminated_line(#[trigger] lines[k]),
    ensures
        nl_split(joined(lines)) == lines,
{
    let s = joined(lines);
    assert(s.skip(0) =~= s);
    lemma_joined_splits_back(lines, s, 0);
}

/// The digit string of a number is non-empty and holds digit bytes
/// only.
pub proof fn lemma_dec_digits_range(n: nat)
    ensures
        dec_digits(n).len() >= 1,
        forall|i: int| 0 <= i < dec_digits(n).len() ==> 48 <= #[trigger] dec_digits(n)[i] <= 57,
        clean_field(dec_digits(n)),
    decreases n,
{
    if n >= 10 {
        lemma_dec_digits_range(n / 10);
    }
}

/// A fixed-point value holds digit bytes and one dot only.
pub proof fn lemma_fixed4_clean(t: nat)
    ensures
        fixed4(t).len() == dec_digits(t / 10000).len() + 5,
        fixed4(t).len() >= 6,
        clean_field(fixed4(t)),
{
    lemma_dec_digits_range(t / 10000);
    assert forall|i: int| 0 <= i < fixed4(t).len() implies fixed4(t)[i] != 9 && fixed4(t)[i]
        != 10 by {
        if i < dec_digits(t / 10000).len() {
            assert(fixed4(t)[i] == dec_digits(t / 10000)[i]);
        }
    }
}

/// Law: a log line keeps its shape.  It ends in a single line feed,
/// holds no other line terminator, and splitting it on tabs recovers
/// exactly the five fields — in particular the served file's base name
/// as the second field and its decimal size as the third.
pub proof fn lemma_log_line_fields(
    ts: Seq<u8>,
    name: Seq<u8>,
    size: nat,
    end_nanos: nat,
    start_nanos: nat,
)
    requires
        clean_field(ts),
        clean_field(name),
    ensures
        line_has_fields(
            log_line(ts, name, size, end_nanos, start_nanos),
            log_fields(ts, name, size, end_nanos, start_nanos),
        ),
        log_fields(ts, name, size, end_nanos, start_nanos)[1] == name,
        log_fields(ts, name, size, end_nanos, start_nanos)[2] == dec_digits(size),
{
    let f0 = seq![91u8] + ts + seq![93u8];
    let f1 = name;
    let f2 = dec_digits(size);
    let f3 = fixed4(scaled_value(end_nanos));
    let f4 = fixed4(scaled_value(elapsed_nanos(end_nanos, start_nanos)));
    let ll = log_line(ts, name, size, end_nanos, start_nanos);
    lemma_dec_digits_range(size);
    lemma_fixed4_clean(scaled_value(end_nanos));
    lemma_fixed4_clean(scaled_value(elapsed_nanos(end_nanos, start_nanos)));
    assert(clean_field(f0)) by {
        assert forall|i: int| 0 <= i < f0.len() implies f0[i] != 9 && f0[i] != 10 by {
            if 1 <= i < 1 + ts.len() {
                assert(f0[i] == ts[i - 1]);
            }
        }
    }
    let b = ll.subrange(0, ll.len() - 1);
    assert(b =~= f0 + seq![9u8] + f1 + seq![9u8] + f2 + seq![9u8] + f3 + seq![9u8] + f4);
    let t0 = f0.len() as int;
    let t1 = t0 + 1 + f1.len();
    let t2 = t1 + 1 + f2.len();
    let t3 = t2 + 1 + f3.len();
    assert(b.len() == t3 + 1 + f4.len());
    assert(b[t0] == 9 && b[t1] == 9 && b[t2] == 9 && b[t3] == 9);
    assert forall|j: int| 0 <= j < t0 implies b[j] != 9 && b[j] != 10 by {
        assert(b[j] == f0[j]);
    }
    assert forall|j: int| t0 < j < t1 implies b[j] != 9 && b[j] != 10 by {
        assert(b[j] == f1[j - (t0 + 1)]);
    }
    assert forall|j: int| t1 < j < t2 implies b[j] != 9 && b[j] != 10 by {
        assert(b[j] == f2[j - (t1 + 1)]);
    }
    assert forall|j: int| t2 < j < t3 implies b[j] != 9 && b[j] != 10 by {
        assert(b[j] == f3[j - (t2 + 1)]);
    }
    assert forall|j: int| t3 < j < b.len() implies b[j] != 9 && b[j] != 10 by {
        assert(b[j] == f4[j - (t3 + 1)]);
    }
    lemma_tab_offset_at(b, 0, t0);
    lemma_tab_offset_at(b, t0 + 1, t1);
    lemma_tab_offset_at(b, t1 + 1, t2);
    lemma_tab_offset_at(b, t2 + 1, t3);
    lemma_tab_offset_none(b, t3 + 1);
    assert(tab_split_from(b, 0) == seq![b.subrange(0, t0)] + tab_split_from(b, t0 + 1));
    assert(tab_split_from(b, t0 + 1) == seq![b.subrange(t0 + 1, t1)] + tab_split_from(b, t1 + 1));
    assert(tab_split_from(b, t1 + 1) == seq![b.subrange(t1 + 1, t2)] + tab_split_from(b, t2 + 1));
    assert(tab_split_from(b, t2 + 1) == seq![b.subrange(t2 + 1, t3)] + tab_split_from(b, t3 + 1));
    assert(tab_split_from(b, t3 + 1) == seq![b.subrange(t3 + 1, b.len() as int)]);
    assert(b.subrange(0, t0) =~= f0);
    assert(b.subrange(t0 + 1, t1) =~= f1);
    assert(b.subrange(t1 + 1, t2) =~= f2);
    assert(b.subrange(t2 + 1, t3) =~= f3);
    assert(b.subrange(t3 + 1, b.len() as int) =~= f4);
    assert(tab_split(b) =~= log_fields(ts, name, size, end_nanos, start_nanos));
    assert forall|i: int| 0 <= i < ll.len() - 1 implies ll[i] != 10 by {
        assert(ll[i] == b[i]);
    }
    assert(ll[ll.len() - 1] == 10);
}

/// One served request's log inputs: the timestamp the clock gave, the
/// file's base name and size, and the two clock readings.
pub struct LogInputs {
    /// Timestamp bytes for the completion moment.
    pub ts: Seq<u8>,
    /// The served file's base name.
    pub name: Seq<u8>,
    /// The served file's size in bytes.
    pub size: nat,
    /// The clock reading at completion, in nanoseconds.
    pub end_nanos: nat,
    /// The clock reading at the start of handling, in nanoseconds.
    pub start_nanos: nat,
}

/// The log lines written for a sequence of served requests, in the
/// order their appends were serialized.
pub open spec fn lines_for(entries: Seq<LogInputs>) -> Seq<Seq<u8>> {
    Seq::new(
        entries.len(),
        |k: int|
            log_line(
                entries[k].ts,
                entries[k].name,
                entries[k].size,
                entries[k].end_nanos,
                entries[k].start_nanos,
            ),
    )
}

/// Law: any number of served requests — in whatever order their
/// appends were serialized — contribute one well-shaped line each, and
/// the log assembled from those lines whole reads back as exactly those
/// lines: as many lines as requests, none merged and none torn.
pub proof fn lemma_log_of_served_requests(entries: Seq<LogInputs>)
    requires
        forall|k: int|
            0 <= k < entries.len() ==> clean_field(#[trigger] entries[k].ts) && clean_field(
                entries[k].name,
            ),
    ensures
        lines_for(entries).len() == entries.len(),
        forall|k: int|
            0 <= k < entries.len() ==> line_has_fields(
                #[trigger] lines_for(entries)[k],
                log_fields(
                    entries[k].ts,
                    entries[k].name,
                    entries[k].size,
                    entries[k].end_nanos,
                    entries[k].start_nanos,
                ),
            ),
        nl_split(joined(lines_for(entries))) == lines_for(entries),
{
    assert forall|k: int| 0 <= k < entries.len() implies line_has_fields(
        #[trigger] lines_for(entries)[k],
        log_fields(
            entries[k].ts,
            entries[k].name,
            entries[k].size,
            entries[k].end_nanos,
            entries[k].start_nanos,
        ),
    ) by {
        lemma_log_line_fields(
            entries[k].ts,
            entries[k].name,
            entries[k].size,
            entries[k].end_nanos,
            entries[k].start_nanos,
        );
    }
    assert forall|k: int| 0 <= k < lines_for(entries).len() implies terminated_line(
        #[trigger] lines_for(entries)[k],
    ) by {
        assert(line_has_fields(
            lines_for(entries)[k],
            log_fields(
                entries[k].ts,
                entries[k].name,
                entries[k].size,
                entries[k].end_nanos,
                entries[k].start_nanos,
            ),
        ));
    }
    lemma_log_lines_recoverable(lines_for(entries));
}

fn push_all(dst: &mut Vec<u8>, src: &Vec<u8>)
    ensures
        final(dst)@ == old(dst)@ + src@,
{
    let n = src.len();
    let mut j: usize = 0;
    while j < n
        invariant
            0 <= j <= n,
            n == src@.len(),
            dst@ == old(dst)@ + src@.subrange(0, j as int),
        decreases n - j,
    {
        let b = src[j];
        dst.push(b);
        assert(src@.subrange(0, j + 1 as int) =~= src@.subrange(0, j as int).push(b));
        assert(old(dst)@ + src@.subrange(0, j as int).push(b) =~= (old(dst)@ + src@.subrange(
            0,
            j as int,
        )).push(b));
        j = j + 1;
    }
    assert(src@.subrange(0, n as int) =~= src@);
}

fn push_digits(n: u64, out: &mut Vec<u8>)
    ensures
        final(out)@ == old(out)@ + dec_digits(n as nat),
    decreases n,
{
    if n < 10 {
        out.push(48 + n as u8);
        assert(old(out)@.push((48 + n as nat) as u8) =~= old(out)@ + dec_digits(n as nat));
    } else {
        push_digits(n / 10, out);
        let d = 48 + (n % 10) as u8;
        out.push(d);
        assert((old(out)@ + dec_digits((n / 10) as nat)).push(d) =~= old(out)@ + dec_digits(
            n as nat,
        ));
    }
}

/// The decimal digit string of `n`.
pub fn u64_digits(n: u64) -> (r: Vec<u8>)
    ensures
        r@ == dec_digits(n as nat),
{
    let mut out: Vec<u8> = Vec::new();
    push_digits(n, &mut out);
    assert(Seq::<u8>::empty() + dec_digits(n as nat) =~= dec_digits(n as nat));
    out
}

fn push_fixed4(t: u64, out: &mut Vec<u8>)
    ensures
        final(out)@ == old(out)@ + fixed4(t as nat),
{
    push_digits(t / 10000, out);
    out.push(46);
    out.push(48 + (t / 1000 % 10) as u8);
    out.push(48 + (t / 100 % 10) as u8);
    out.push(48 + (t / 10 % 10) as u8);
    out.push(48 + (t % 10) as u8);
    assert(out@ =~= old(out)@ + fixed4(t as nat));
}

fn scaled(nanos: u64) -> (r: u64)
    ensures
        r as nat == scaled_value(nanos as nat),
{
    let wide: u128 = (nanos as u128) + 500_000_000_000_000;
    let t: u128 = wide / 1_000_000_000_000_000;
    assert(t <= u64::MAX as u128) by {
        assert(wide <= 0xffff_ffff_ffff_ffffu128 + 500_000_000_000_000);
    }
    t as u64
}

/// Relies on chrono::Local::now and DelayedFormat's rendering of
/// `%Y-%m-%d %H:%M:%S`: digits, dashes, colons and spaces only, so the
/// produced timestamp holds no tab and no line terminator.  Nothing
/// more is assumed of a clock reading.
#[verifier::external_body]
fn local_timestamp() -> (r: Vec<u8>)
    ensures
        clean_field(r@),
{
    chrono::Local::now().format("%Y-%m-%d %H:%M:%S").to_string().into_bytes()
}

/// Format one log line for the moment of completion: the timestamp is
/// taken from the local clock, of which nothing is known beyond its
/// shape, so the line is pinned for every timestamp the clock may give.
pub fn log_line_now(name: &Vec<u8>, size: u64, end_nanos: u64, start_nanos: u64) -> (r: Vec<u8>)
    ensures
        exists|ts: Seq<u8>|
            clean_field(ts) && r@ == log_line(
                ts,
                name@,
                size as nat,
                end_nanos as nat,
                start_nanos as nat,
            ),
{
    let ts = local_timestamp();
    let r = format_log_line(&ts, name, size, end_nanos, start_nanos);
    assert(clean_field(ts@) && r@ == log_line(
        ts@,
        name@,
        size as nat,
        end_nanos as nat,
        start_nanos as nat,
    ));
    r
}

/// Format one log line from plain values: timestamp bytes, base name,
/// size, and the two clock readings in nanoseconds since the epoch.
pub fn format_log_line(
    ts: &Vec<u8>,
    name: &Vec<u8>,
    size: u64,
    end_nanos: u64,
    start_nanos: u64,
) -> (r: Vec<u8>)
    ensures
        r@ == log_line(ts@, name@, size as nat, end_nanos as nat, start_nanos as nat),
{
    let mut out: Vec<u8> = Vec::new();
    out.push(91);
    assert(out@ =~= seq![91u8]);
    push_all(&mut out, ts);
    out.push(93);
    out.push(9);
    assert(out@ =~= seq![91u8] + ts@ + seq![93u8] + seq![9u8]);
    push_all(&mut out, name);
    out.push(9);
    let digits = u64_digits(size);
    push_all(&mut out, &digits);
    out.push(9);
    assert(out@ =~= seq![91u8] + ts@ + seq![93u8] + seq![9u8] + name@ + seq![9u8] + dec_digits(
        size as nat,
    ) + seq![9u8]);
    let end_scaled = scaled(end_nanos);
    push_fixed4(end_scaled, &mut out);
    out.push(9);
    let elapsed: u64 = if start_nanos <= end_nanos {
        end_nanos - start_nanos
    } else {
        0
    };
    assert(elapsed as nat == elapsed_nanos(end_nanos as nat, start_nanos as nat));
    let elapsed_scaled = scaled(elapsed);
    push_fixed4(elapsed_scaled, &mut out);
    out.push(10);
    assert(out@ =~= log_line(ts@, name@, size as nat, end_nanos as nat, start_nanos as nat));
    out
}

} // verus!
