//! Input parsing: newline-separated unsigned 16-bit integers, one per line,
//! with the exact line-splitting and number-grammar rules of the solver's
//! external interface.  A line may carry an optional leading `+`, must then
//! consist of decimal digits only, and must denote a value at most 65535; a
//! line terminated by a newline sheds one trailing carriage return first,
//! while a final unterminated line keeps every byte.
use vstd::prelude::*;
use crate::SolveError;

verus! {

/// An ASCII decimal digit.
pub open spec fn spec_digit(b: u8) -> bool {
    48 <= b <= 57
}

/// The value of a digit string read in base 10 (of the empty string: 0).
pub open spec fn spec_digits_val(s: Seq<u8>) -> int
    decreases s.len(),
{
    if s.len() == 0 {
        0
    } else {
        spec_digits_val(s.drop_last()) * 10 + (s.last() - 48)
    }
}

pub open spec fn spec_all_digits(s: Seq<u8>) -> bool {
    forall|t: int| 0 <= t < s.len() ==> spec_digit(#[trigger] s[t])
}

/// The number a single line denotes: an optional leading `+`, then at least
/// one digit, and a value that fits in 16 bits; anything else is absence.
pub open spec fn spec_parse_u16(line: Seq<u8>) -> Option<u16> {
    let ds = if line.len() > 0 && line[0] == 43 {
        line.skip(1)
    } else {
        line
    };
    if ds.len() >= 1 && spec_all_digits(ds) && spec_digits_val(ds) <= 65535 {
        Option::Some(spec_digits_val(ds) as u16)
    } else {
        Option::None
    }
}

proof fn lemma_digits_val_nonneg(s: Seq<u8>)
    requires
        spec_all_digits(s),
    ensures
        spec_digits_val(s) >= 0,
    decreases s.len(),
{
    if s.len() > 0 {
        assert(spec_all_digits(s.drop_last()));
        lemma_digits_val_nonneg(s.drop_last());
    }
}

proof fn lemma_digits_val_monotone(s: Seq<u8>, i: int, j: int)
    requires
        0 <= i <= j <= s.len(),
        spec_all_digits(s),
    ensures
        spec_digits_val(s.take(i)) <= spec_digits_val(s.take(j)),
    decreases j - i,
{
    if i < j {
        lemma_digits_val_monotone(s, i, j - 1);
        assert(s.take(j).drop_last() =~= s.take(j - 1));
        assert(spec_all_digits(s.take(j - 1)));
        lemma_digits_val_nonneg(s.take(j - 1));
    }
}

/// Reads one line as an unsigned 16-bit integer, with exactly the grammar of
/// `spec_parse_u16`.
#[verifier::loop_isolation(false)]
pub fn parse_u16(line: &[u8]) -> (res: Option<u16>)
    ensures
        res == spec_parse_u16(line@),
{
    let start: usize = if line.len() > 0 && line[0] == 43u8 {
        1
    } else {
        0
    };
    let ghost ds = if line@.len() > 0 && line@[0] == 43 {
        line@.skip(1)
    } else {
        line@
    };
    assert(ds =~= line@.skip(start as int));
    if start >= line.len() {
        return None;
    }
    let mut acc: u32 = 0;
    let mut j: usize = start;
    assert(ds.take(0) =~= Seq::<u8>::empty());
    while j < line.len()
        invariant
            start <= j <= line@.len(),
            ds =~= line@.skip(start as int),
            start <= 1,
            forall|t: int| 0 <= t < j - start ==> spec_digit(#[trigger] ds[t]),
            acc == spec_digits_val(ds.take(j - start)),
            acc <= 65535,
        decreases line@.len() - j,
    {
        let b = line[j];
        assert(ds[j - start] == line@[j as int]);
        if b < 48 || b > 57 {
            assert(!spec_all_digits(ds));
            return None;
        }
        let d: u32 = (b - 48) as u32;
        assert(ds.take(j - start + 1).drop_last() =~= ds.take(j - start));
        assert(ds.take(j - start + 1).last() == ds[j - start]);
        let val2: u32 = acc * 10 + d;
        assert(val2 == spec_digits_val(ds.take(j - start + 1)));
        if val2 > 65535 {
            proof {
                if spec_all_digits(ds) {
                    lemma_digits_val_monotone(ds, j - start + 1, ds.len() as int);
                    assert(ds.take(ds.len() as int) =~= ds);
                }
            }
            return None;
        }
        acc = val2;
        j = j + 1;
    }
    assert(ds.take(j - start) =~= ds);
    Some(acc as u16)
}

/// One trailing carriage return is shed from a newline-terminated line.
pub open spec fn spec_strip_cr(line: Seq<u8>) -> Seq<u8> {
    if line.len() > 0 && line.last() == 13 {
        line.drop_last()
    } else {
        line
    }
}

/// The lines of `s` from position `i` on, given the bytes `cur` of the line
/// being read and the lines `acc` already complete: each newline closes the
/// current line (shedding one carriage return), and a nonempty final line is
/// kept as it stands.
pub open spec fn spec_split_acc(s: Seq<u8>, i: int, cur: Seq<u8>, acc: Seq<Seq<u8>>) -> Seq<
    Seq<u8>,
>
    decreases s.len() - i,
{
    if i < 0 || i >= s.len() {
        if cur.len() == 0 {
            acc
        } else {
            acc.push(cur)
        }
    } else if s[i] == 10 {
        spec_split_acc(s, i + 1, Seq::empty(), acc.push(spec_strip_cr(cur)))
    } else {
        spec_split_acc(s, i + 1, cur.push(s[i]), acc)
    }
}

/// The lines of the whole input.
pub open spec fn spec_lines(s: Seq<u8>) -> Seq<Seq<u8>> {
    spec_split_acc(s, 0, Seq::empty(), Seq::empty())
}

#[verifier::loop_isolation(false)]
fn split_lines(input: &[u8]) -> (res: Vec<Vec<u8>>)
    ensures
        res@.len() == spec_lines(input@).len(),
        forall|k: int| 0 <= k < res@.len() ==> (#[trigger] res@[k])@ == spec_lines(input@)[k],
{
    let mut out: Vec<Vec<u8>> = Vec::new();
    let mut cur: Vec<u8> = Vec::new();
    let ghost mut gout: Seq<Seq<u8>> = Seq::empty();
    let mut i: usize = 0;
    while i < input.len()
        invariant
            0 <= i <= input@.len(),
            gout.len() == out@.len(),
            forall|k: int| 0 <= k < out@.len() ==> (#[trigger] out@[k])@ == gout[k],
            spec_lines(input@) == spec_split_acc(input@, i as int, cur@, gout),
        decreases input@.len() - i,
    {
        let b = input[i];
        if b == 10u8 {
            let ghost cur0 = cur@;
            if cur.len() > 0 && cur[cur.len() - 1] == 13u8 {
                cur.pop();
                assert(cur@ =~= spec_strip_cr(cur0));
            } else {
                assert(cur@ == spec_strip_cr(cur0));
            }
            out.push(cur);
            proof {
                gout = gout.push(spec_strip_cr(cur0));
            }
            cur = Vec::new();
        } else {
            cur.push(b);
        }
        i = i + 1;
    }
    if cur.len() > 0 {
        out.push(cur);
        proof {
            gout = gout.push(cur@);
        }
    }
    out
}

/// The sizes the whole input denotes: one number per line, or absence as
/// soon as any line fails to parse.
pub open spec fn spec_parse_sizes(s: Seq<u8>) -> Option<Seq<u16>> {
    let ls = spec_lines(s);
    if forall|k: int| 0 <= k < ls.len() ==> (#[trigger] spec_parse_u16(ls[k])) is Some {
        Option::Some(Seq::new(ls.len(), |k: int| spec_parse_u16(ls[k]).unwrap()))
    } else {
        Option::None
    }
}

/// Reads the newline-separated sizes, or reports the input-parse error the
/// moment any line is not a valid unsigned 16-bit integer.
#[verifier::loop_isolation(false)]
pub fn parse_sizes(input: &[u8]) -> (res: Result<Vec<u16>, SolveError>)
    ensures
        res matches Ok(v) ==> spec_parse_sizes(input@) == Option::Some(v@),
        res matches Err(e) ==> e == SolveError::InputParseError && spec_parse_sizes(input@)
            is None,
{
    let ghost ls = spec_lines(input@);
    let lines = split_lines(input);
    let mut out: Vec<u16> = Vec::new();
    let mut k: usize = 0;
    while k < lines.len()
        invariant
            0 <= k <= lines@.len(),
            lines@.len() == ls.len(),
            forall|t: int| 0 <= t < lines@.len() ==> (#[trigger] lines@[t])@ == ls[t],
            out@.len() == k,
            forall|t: int|
                0 <= t < k ==> (#[trigger] spec_parse_u16(ls[t])) is Some && out@[t]
                    == spec_parse_u16(ls[t]).unwrap(),
        decreases lines@.len() - k,
    {
        let line = &lines[k];
        match parse_u16(line.as_slice()) {
            Some(v) => {
                out.push(v);
            },
            None => {
                assert(spec_parse_u16(ls[k as int]) is None);
                return Err(SolveError::InputParseError);
            },
        }
        k = k + 1;
    }
    assert(out@ =~= Seq::new(ls.len(), |t: int| spec_parse_u16(ls[t]).unwrap()));
    Ok(out)
}

} // verus!
