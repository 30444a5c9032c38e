//! The log line of a record: tab-separated fields, one record per line.
use vstd::prelude::*;
use crate::engine::LogRecord;
use crate::logfile::{all_digits, digits_value, is_digit, lemma_first_tab, line_record_id, unsigned_body};

verus! {

pub open spec fn digit_char(d: nat) -> char {
    ((d + 48) as u8) as char
}

/// The decimal digits of `n`, most significant first, without leading zeros.
pub open spec fn decimal_digits(n: nat) -> Seq<char>
    decreases n,
{
    if n < 10 {
        seq![digit_char(n)]
    } else {
        decimal_digits(n / 10).push(digit_char(n % 10))
    }
}

/// How one character of a text field is written: the backslash, tab,
/// newline and carriage return are escaped so that a field never holds a
/// separator.
pub open spec fn escape_char(c: char) -> Seq<char> {
    if c == '\\' {
        seq!['\\', '\\']
    } else if c == '\t' {
        seq!['\\', 't']
    } else if c == '\n' {
        seq!['\\', 'n']
    } else if c == '\r' {
        seq!['\\', 'r']
    } else {
        seq![c]
    }
}

pub open spec fn escaped(s: Seq<char>) -> Seq<char>
    decreases s.len(),
{
    if s.len() == 0 {
        Seq::empty()
    } else {
        escaped(s.drop_last()) + escape_char(s.last())
    }
}

/// The line of a record: ID, start, end, window ID, workspace and title,
/// separated by tabs.
pub open spec fn record_line(r: LogRecord) -> Seq<char> {
    decimal_digits(r.id as nat) + seq!['\t'] + decimal_digits(r.start as nat) + seq!['\t']
        + decimal_digits(r.end as nat) + seq!['\t'] + decimal_digits(r.snapshot.window_id as nat)
        + seq!['\t'] + escaped(r.snapshot.workspace@) + seq!['\t'] + escaped(r.snapshot.title@)
}

fn push_decimal(out: &mut Vec<char>, n: u64)
    ensures
        final(out)@ == old(out)@ + decimal_digits(n as nat),
    decreases n,
{
    if n >= 10 {
        push_decimal(out, n / 10);
    }
    let d: u8 = (n % 10) as u8;
    out.push((d + 48) as char);
    proof {
        assert(old(out)@ + decimal_digits(n as nat) =~= if n < 10 {
            old(out)@.push(digit_char(n as nat))
        } else {
            (old(out)@ + decimal_digits((n / 10) as nat)).push(digit_char((n % 10) as nat))
        });
    }
}

fn push_escaped(out: &mut Vec<char>, s: &str)
    ensures
        final(out)@ == old(out)@ + escaped(s@),
{
    let n = s.unicode_len();
    let mut i: usize = 0;
    assert(old(out)@ + escaped(s@.subrange(0, 0)) =~= old(out)@);
    while i < n
        invariant
            n == s@.len(),
            i <= n,
            out@ == old(out)@ + escaped(s@.subrange(0, i as int)),
        decreases n - i,
    {
        let c = s.get_char(i);
        assert(s@.subrange(0, i + 1).drop_last() =~= s@.subrange(0, i as int));
        let ghost before = out@;
        if c == '\\' {
            out.push('\\');
            out.push('\\');
        } else if c == '\t' {
            out.push('\\');
            out.push('t');
        } else if c == '\n' {
            out.push('\\');
            out.push('n');
        } else if c == '\r' {
            out.push('\\');
            out.push('r');
        } else {
            out.push(c);
        }
        assert(out@ =~= before + escape_char(c));
        assert(old(out)@ + escaped(s@.subrange(0, i + 1)) =~= old(out)@ + escaped(s@.subrange(0, i as int))
            + escape_char(c));
        i = i + 1;
    }
    assert(s@.subrange(0, n as int) =~= s@);
}

/// Writes a record as one log line, without the line break.
pub fn encode_record(r: &LogRecord) -> (line: Vec<char>)
    ensures
        line@ == record_line(*r),
{
    let mut out: Vec<char> = Vec::new();
    push_decimal(&mut out, r.id);
    out.push('\t');
    push_decimal(&mut out, r.start);
    out.push('\t');
    push_decimal(&mut out, r.end);
    out.push('\t');
    push_decimal(&mut out, r.snapshot.window_id);
    out.push('\t');
    push_escaped(&mut out, r.snapshot.workspace.as_str());
    out.push('\t');
    push_escaped(&mut out, r.snapshot.title.as_str());
    assert(out@ =~= record_line(*r));
    out
}

proof fn lemma_decimal_digits(n: nat)
    ensures
        decimal_digits(n).len() > 0,
        all_digits(decimal_digits(n)),
        digits_value(decimal_digits(n)) == n,
    decreases n,
{
    if n >= 10 {
        lemma_decimal_digits(n / 10);
        let p = decimal_digits(n / 10);
        assert forall|i: int| 0 <= i < p.push(digit_char(n % 10)).len() implies is_digit(
            #[trigger] p.push(digit_char(n % 10))[i],
        ) by {
            if i < p.len() {
                assert(p.push(digit_char(n % 10))[i] == p[i]);
            }
        }
        assert(p.push(digit_char(n % 10)).drop_last() =~= p);
        assert(digit_char(n % 10) as nat == n % 10 + 48);
        assert('0' as nat == 48);
        assert(n == (n / 10) * 10 + n % 10);
        let q = p.push(digit_char(n % 10));
        assert(decimal_digits(n) == q);
        assert(digits_value(q) == digits_value(p) * 10 + (q.last() as nat - '0' as nat) as nat);
        assert(digits_value(q) == (n / 10) * 10 + n % 10);
    } else {
        assert(seq![digit_char(n)].drop_last() =~= Seq::<char>::empty());
        assert(digit_char(n) as nat == n + 48);
        assert('0' as nat == 48);
        let q = seq![digit_char(n)];
        assert(decimal_digits(n) == q);
        assert(q.last() == digit_char(n));
        assert(digits_value(q.drop_last()) == 0);
        assert(digits_value(q) == (q.last() as nat - '0' as nat) as nat);
    }
}

/// The ID read back from a record's line is the record's ID.
pub proof fn lemma_line_record_id(r: LogRecord)
    ensures
        line_record_id(record_line(r)) == Some(r.id),
{
    let line = record_line(r);
    let ds = decimal_digits(r.id as nat);
    lemma_decimal_digits(r.id as nat);
    assert(line.subrange(0, ds.len() as int) =~= ds);
    assert forall|j: int| 0 <= j < ds.len() implies line[j] != '\t' by {
        assert(line[j] == ds[j]);
        assert(is_digit(ds[j]));
    }
    assert(line[ds.len() as int] == '\t');
    lemma_first_tab(line, ds.len() as int);
    assert(is_digit(ds[0]));
    assert(unsigned_body(ds) == ds);
}

} // verus!
