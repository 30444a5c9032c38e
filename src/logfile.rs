//! Choosing the log file to append to, and resuming record numbering from
//! what earlier runs wrote.
use vstd::prelude::*;

verus! {

/// Log files are named after this, with `.log.<n>` appended.
pub const LOG_BASE_NAME: &'static str = "i3tracker";

/// How many log files are kept before one is rotated.
pub const LOG_LIMIT: usize = 10;

pub open spec fn is_digit(c: char) -> bool {
    '0' <= c && c <= '9'
}

pub open spec fn all_digits(s: Seq<char>) -> bool {
    forall|i: int| 0 <= i < s.len() ==> is_digit(#[trigger] s[i])
}

/// The number that a string of decimal digits denotes.
pub open spec fn digits_value(s: Seq<char>) -> nat
    decreases s.len(),
{
    if s.len() == 0 {
        0
    } else {
        digits_value(s.drop_last()) * 10 + (s.last() as nat - '0' as nat) as nat
    }
}

/// `s` without one leading `+`, if it has one.
pub open spec fn unsigned_body(s: Seq<char>) -> Seq<char> {
    if s.len() > 0 && s[0] == '+' {
        s.drop_first()
    } else {
        s
    }
}

/// The value of `s` read as an unsigned decimal number fitting in 64 bits:
/// an optional `+`, then one or more digits.
pub open spec fn decimal_u64(s: Seq<char>) -> Option<u64> {
    let b = unsigned_body(s);
    if b.len() > 0 && all_digits(b) && digits_value(b) <= u64::MAX {
        Some(digits_value(b) as u64)
    } else {
        None
    }
}

proof fn lemma_digits_value_grows(s: Seq<char>, k: int)
    requires
        0 <= k <= s.len(),
        all_digits(s),
    ensures
        digits_value(s.subrange(0, k)) <= digits_value(s),
    decreases s.len() - k,
{
    if k < s.len() {
        lemma_digits_value_grows(s, k + 1);
        assert(s.subrange(0, k + 1).drop_last() =~= s.subrange(0, k));
        assert(is_digit(s[k]));
    } else {
        assert(s.subrange(0, k) =~= s);
    }
}

/// Reads the first `end` characters of `s` as an unsigned decimal number.
fn parse_prefix_u64(s: &str, end: usize) -> (r: Option<u64>)
    requires
        end <= s@.len(),
    ensures
        r == decimal_u64(s@.subrange(0, end as int)),
{
    let mut i: usize = 0;
    if end > 0 && s.get_char(0) == '+' {
        i = 1;
    }
    let ghost off = i as int;
    assert(unsigned_body(s@.subrange(0, end as int)) =~= s@.subrange(off, end as int));
    if i == end {
        return None;
    }
    let mut acc: u64 = 0;
    while i < end
        invariant
            0 <= off <= i <= end <= s@.len(),
            unsigned_body(s@.subrange(0, end as int)) == s@.subrange(off, end as int),
            all_digits(s@.subrange(off, i as int)),
            acc == digits_value(s@.subrange(off, i as int)),
        decreases end - i,
    {
        let c = s.get_char(i);
        let ghost before = s@.subrange(off, i as int);
        let ghost after = s@.subrange(off, i + 1);
        let ghost body = s@.subrange(off, end as int);
        assert(after.drop_last() =~= before);
        assert(after.last() == c);
        assert(body[i - off] == c);
        if !('0' <= c && c <= '9') {
            assert(!is_digit(body[i - off]));
            return None;
        }
        let d: u64 = (c as u64) - ('0' as u64);
        assert forall|j: int| 0 <= j < after.len() implies is_digit(#[trigger] after[j]) by {
            if j < before.len() {
                assert(before[j] == after[j]);
            }
        }
        if acc > (u64::MAX - d) / 10 {
            assert(digits_value(after) > u64::MAX) by (nonlinear_arith)
                requires
                    acc > (u64::MAX - d) / 10,
                    digits_value(after) == acc * 10 + d,
                    d <= 9,
            ;
            proof {
                if all_digits(body) {
                    assert(body.subrange(0, i + 1 - off) =~= after);
                    lemma_digits_value_grows(body, i + 1 - off);
                }
            }
            return None;
        }
        assert(acc * 10 + d <= u64::MAX) by (nonlinear_arith)
            requires
                acc <= (u64::MAX - d) / 10,
                d <= 9,
        ;
        acc = acc * 10 + d;
        i = i + 1;
    }
    Some(acc)
}

/// Reads `s` as an unsigned decimal number: an optional `+`, then digits.
pub fn parse_u64(s: &str) -> (r: Option<u64>)
    ensures
        r == decimal_u64(s@),
{
    let n = s.unicode_len();
    assert(s@.subrange(0, n as int) =~= s@);
    parse_prefix_u64(s, n)
}

/// Whether `s` begins with `prefix`.
pub fn starts_with(s: &str, prefix: &str) -> (r: bool)
    ensures
        r == prefix@.is_prefix_of(s@),
{
    let n = s.unicode_len();
    let m = prefix.unicode_len();
    if m > n {
        return false;
    }
    let mut i: usize = 0;
    while i < m
        invariant
            m <= n,
            n == s@.len(),
            m == prefix@.len(),
            i <= m,
            forall|j: int| 0 <= j < i ==> prefix@[j] == s@[j],
        decreases m - i,
    {
        if prefix.get_char(i) != s.get_char(i) {
            assert(s@.subrange(0, m as int)[i as int] != prefix@[i as int]);
            return false;
        }
        i = i + 1;
    }
    assert(prefix@ =~= s@.subrange(0, m as int));
    true
}

/// The position of the first tab in `s`, or its length if it has none.
pub open spec fn first_tab(s: Seq<char>) -> nat
    decreases s.len(),
{
    if s.len() == 0 || s[0] == '\t' {
        0
    } else {
        1 + first_tab(s.drop_first())
    }
}

pub(crate) proof fn lemma_first_tab(s: Seq<char>, i: int)
    requires
        0 <= i <= s.len(),
        forall|j: int| 0 <= j < i ==> s[j] != '\t',
        i == s.len() || s[i] == '\t',
    ensures
        first_tab(s) == i,
    decreases i,
{
    if i > 0 {
        assert forall|j: int| 0 <= j < i - 1 implies s.drop_first()[j] != '\t' by {
            assert(s[j + 1] != '\t');
        }
        lemma_first_tab(s.drop_first(), i - 1);
        assert(s[0] != '\t');
    }
}

/// The record ID at the head of a log line: the field before the first tab.
pub open spec fn line_record_id(line: Seq<char>) -> Option<u64> {
    decimal_u64(line.subrange(0, first_tab(line) as int))
}

/// Reads the record ID that a log line begins with.
pub fn record_id_of_line(line: &str) -> (r: Option<u64>)
    ensures
        r == line_record_id(line@),
{
    let n = line.unicode_len();
    let mut i: usize = 0;
    while i < n && line.get_char(i) != '\t'
        invariant
            n == line@.len(),
            i <= n,
            forall|j: int| 0 <= j < i ==> line@[j] != '\t',
        decreases n - i,
    {
        i = i + 1;
    }
    proof {
        lemma_first_tab(line@, i as int);
    }
    parse_prefix_u64(line, i)
}

/// A file found in the log directory, as the rotation rule sees it: its
/// name split into stem and extension (the extension is what follows the
/// last dot), and how many seconds ago it was last modified.
pub struct LogFileEntry {
    pub stem: Option<String>,
    pub extension: Option<String>,
    pub age_secs: u64,
}

/// A file whose stem begins with the base name is one of our logs.
pub open spec fn is_log_file(e: LogFileEntry) -> bool {
    match e.stem {
        Some(st) => LOG_BASE_NAME@.is_prefix_of(st@),
        None => false,
    }
}

/// The log files among `es`, in their order.
pub open spec fn log_files(es: Seq<LogFileEntry>) -> Seq<LogFileEntry>
    decreases es.len(),
{
    if es.len() == 0 {
        Seq::empty()
    } else if is_log_file(es.last()) {
        log_files(es.drop_last()).push(es.last())
    } else {
        log_files(es.drop_last())
    }
}

/// The entry modified longest ago; of several equally old, the first.
pub open spec fn oldest(es: Seq<LogFileEntry>) -> LogFileEntry
    recommends
        es.len() > 0,
    decreases es.len(),
{
    if es.len() <= 1 {
        es[0]
    } else {
        let o = oldest(es.drop_last());
        if es.last().age_secs > o.age_secs {
            es.last()
        } else {
            o
        }
    }
}

/// The suffix that follows a log file's numeric extension: one more,
/// wrapping to 0 past the largest; 0 where there is no number.
pub open spec fn suffix_after(ext: Option<String>) -> nat {
    match ext {
        Some(x) => match decimal_u64(x@) {
            Some(n) => if n == u64::MAX {
                0
            } else {
                (n + 1) as nat
            },
            None => 0,
        },
        None => 0,
    }
}

/// The numeric suffix of the log file to write: with fewer than `limit`
/// log files, a fresh one numbered by their count; otherwise the one after
/// the oldest log file's suffix.
pub open spec fn log_suffix(es: Seq<LogFileEntry>, limit: nat) -> nat {
    let logs = log_files(es);
    if logs.len() < limit {
        logs.len()
    } else if logs.len() == 0 {
        0
    } else {
        suffix_after(oldest(logs).extension)
    }
}

/// Chooses the numeric suffix of the log file to append to this run.
pub fn next_log_suffix(entries: &Vec<LogFileEntry>, limit: usize) -> (r: u64)
    ensures
        r == log_suffix(entries@, limit as nat),
{
    let mut count: usize = 0;
    let mut best: usize = 0;
    let mut i: usize = 0;
    while i < entries.len()
        invariant
            i <= entries@.len(),
            count <= i,
            count == log_files(entries@.subrange(0, i as int)).len(),
            count > 0 ==> best < i && entries@[best as int] == oldest(log_files(entries@.subrange(0, i as int))),
        decreases entries.len() - i,
    {
        let e = &entries[i];
        let is_log = match &e.stem {
            Some(st) => starts_with(st.as_str(), LOG_BASE_NAME),
            None => false,
        };
        let ghost prefix = entries@.subrange(0, i as int);
        assert(entries@.subrange(0, i + 1).drop_last() =~= prefix);
        if is_log {
            let ghost logs = log_files(prefix);
            assert(logs.push(entries@[i as int]).drop_last() =~= logs);
            if count == 0 || e.age_secs > entries[best].age_secs {
                best = i;
            }
            count = count + 1;
        }
        i = i + 1;
    }
    assert(entries@.subrange(0, entries@.len() as int) =~= entries@);
    if count < limit {
        count as u64
    } else if count == 0 {
        0
    } else {
        match &entries[best].extension {
            Some(x) => match parse_u64(x.as_str()) {
                Some(n) => n.wrapping_add(1),
                None => 0,
            },
            None => 0,
        }
    }
}

/// The largest of `ids`, or 0 where there is none.
pub open spec fn max_id(ids: Seq<u64>) -> nat
    decreases ids.len(),
{
    if ids.len() == 0 {
        0
    } else if ids.last() > max_id(ids.drop_last()) {
        ids.last() as nat
    } else {
        max_id(ids.drop_last())
    }
}

/// The ID to number this run's records from, given the last ID of each
/// earlier log: one past the largest (1 when there is none), or `None`
/// when the largest leaves no ID to give.
pub open spec fn resumed_id(ids: Seq<u64>) -> Option<u64> {
    if max_id(ids) < u64::MAX {
        Some((max_id(ids) + 1) as u64)
    } else {
        None
    }
}

/// The first record ID of this run, from the last ID found in each log.
pub fn resume_id(last_ids: &Vec<u64>) -> (r: Option<u64>)
    ensures
        r == resumed_id(last_ids@),
{
    let mut m: u64 = 0;
    let mut i: usize = 0;
    while i < last_ids.len()
        invariant
            i <= last_ids@.len(),
            m == max_id(last_ids@.subrange(0, i as int)),
        decreases last_ids.len() - i,
    {
        assert(last_ids@.subrange(0, i + 1).drop_last() =~= last_ids@.subrange(0, i as int));
        if last_ids[i] > m {
            m = last_ids[i];
        }
        i = i + 1;
    }
    assert(last_ids@.subrange(0, last_ids@.len() as int) =~= last_ids@);
    if m < u64::MAX {
        Some(m + 1)
    } else {
        None
    }
}

} // verus!
