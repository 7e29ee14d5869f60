//! Parsing of single lines of a dump: header tokens, elapsed seconds and the
//! hex column of a data row.
use vstd::prelude::*;

use crate::packet::Direction;

verus! {

/// Why a dump could not be parsed.
#[derive(Debug, Clone, Copy, PartialEq, Eq, Structural)]
pub enum FormatError {
    /// A header line without exactly four tokens.
    TokenCount,
    /// A direction marker other than `<-` or `->`.
    Direction,
    /// An elapsed time that is not a decimal number of seconds ending in `s`.
    Elapsed,
    /// A data row whose hex column holds something other than hex digit pairs.
    HexDigit,
}

/// Separators between the tokens of a header line.
pub open spec fn is_ws(b: u8) -> bool {
    b == 32 || b == 9 || b == 10 || b == 12 || b == 13
}

/// The tokens completed so far, and the token still being read.
pub open spec fn split_ws(line: Seq<u8>) -> (Seq<Seq<u8>>, Seq<u8>)
    decreases line.len(),
{
    if line.len() == 0 {
        (seq![], seq![])
    } else {
        let prev = split_ws(line.drop_last());
        let c = line.last();
        if is_ws(c) {
            if prev.1.len() > 0 {
                (prev.0.push(prev.1), seq![])
            } else {
                (prev.0, seq![])
            }
        } else {
            (prev.0, prev.1.push(c))
        }
    }
}

/// The non-empty whitespace-separated tokens of a line, in order.
pub open spec fn tokens(line: Seq<u8>) -> Seq<Seq<u8>> {
    let s = split_ws(line);
    if s.1.len() > 0 {
        s.0.push(s.1)
    } else {
        s.0
    }
}

/// Splits a line into its whitespace-separated tokens.
pub fn tokens_of(line: &[u8]) -> (r: Vec<Vec<u8>>)
    ensures
        r@.len() == tokens(line@).len(),
        forall|j: int| 0 <= j < r@.len() ==> (#[trigger] r@[j])@ == tokens(line@)[j],
{
    let mut done: Vec<Vec<u8>> = Vec::new();
    let mut cur: Vec<u8> = Vec::new();
    let mut i: usize = 0;
    while i < line.len()
        invariant
            i <= line@.len(),
            done@.len() == split_ws(line@.take(i as int)).0.len(),
            forall|j: int| 0 <= j < done@.len() ==> (#[trigger] done@[j])@ == split_ws(line@.take(i as int)).0[j],
            cur@ == split_ws(line@.take(i as int)).1,
        decreases line@.len() - i,
    {
        let c = line[i];
        assert(line@.take(i + 1).drop_last() =~= line@.take(i as int));
        if c == 32 || c == 9 || c == 10 || c == 12 || c == 13 {
            if cur.len() > 0 {
                done.push(cur);
                cur = Vec::new();
            }
        } else {
            cur.push(c);
        }
        i = i + 1;
    }
    assert(line@.take(i as int) =~= line@);
    if cur.len() > 0 {
        done.push(cur);
    }
    done
}

/// Whether a byte is an ASCII decimal digit.
pub open spec fn is_digit(b: u8) -> bool {
    48 <= b <= 57
}

/// Whether every byte is a decimal digit.
pub open spec fn all_digits(s: Seq<u8>) -> bool {
    forall|i: int| 0 <= i < s.len() ==> is_digit(#[trigger] s[i])
}

/// The number written by a sequence of decimal digits (0 when empty).
pub open spec fn digits_value(s: Seq<u8>) -> nat
    decreases s.len(),
{
    if s.len() == 0 {
        0
    } else {
        digits_value(s.drop_last()) * 10 + (s.last() - 48) as nat
    }
}

/// A number, saturated at `u64::MAX`.
pub open spec fn saturate(v: nat) -> u64 {
    if v > u64::MAX {
        u64::MAX
    } else {
        v as u64
    }
}

/// Position of the first `.` at or after `i`, or the length when there is none.
pub open spec fn find_dot(s: Seq<u8>, i: int) -> int
    decreases s.len() - i,
{
    if i >= s.len() {
        s.len() as int
    } else if s[i] == 46 {
        i
    } else {
        find_dot(s, i + 1)
    }
}

/// The whole-second digits of a number of seconds.
pub open spec fn whole_part(num: Seq<u8>) -> Seq<u8> {
    num.take(find_dot(num, 0))
}

/// The digits after the decimal point of a number of seconds.
pub open spec fn fraction_part(num: Seq<u8>) -> Seq<u8> {
    let k = find_dot(num, 0);
    if k < num.len() {
        num.skip(k + 1)
    } else {
        seq![]
    }
}

/// The first three fraction digits, padded with zeros.
pub open spec fn millis_digits(frac: Seq<u8>) -> Seq<u8> {
    (frac + seq![48u8, 48u8, 48u8]).take(3)
}

/// An elapsed-time token (`<seconds>s`) as whole milliseconds, truncated and
/// saturated; `None` when it is not a decimal number followed by `s`.
pub open spec fn seconds_millis(tok: Seq<u8>) -> Option<u64> {
    if tok.len() == 0 || tok.last() != 115 {
        None
    } else {
        let num = tok.drop_last();
        let w = whole_part(num);
        let f = fraction_part(num);
        if all_digits(w) && all_digits(f) && w.len() + f.len() > 0 {
            Some(saturate(digits_value(w) * 1000 + digits_value(millis_digits(f))))
        } else {
            None
        }
    }
}

proof fn lemma_saturate_step(v: nat, a: u64, d: nat)
    requires
        d < 10,
        a == saturate(v),
    ensures
        (a == u64::MAX || a > (u64::MAX - d) / 10) ==> saturate(v * 10 + d) == u64::MAX,
        !(a == u64::MAX || a > (u64::MAX - d) / 10) ==> saturate(v * 10 + d) == a * 10 + d,
{
    assert(v >= a);
    assert(v * 10 + d >= a * 10 + d) by (nonlinear_arith)
        requires
            v >= a,
    ;
    let m = u64::MAX as nat;
    if a > (m - d) / 10 {
        assert(a * 10 + d > m) by (nonlinear_arith)
            requires
                a > (m - d) / 10,
                d < 10,
                m >= 10,
        ;
    }
    if a == u64::MAX {
        assert(a * 10 + d > m) by (nonlinear_arith)
            requires
                a == m,
                m >= 10,
        ;
    }
    if !(a == u64::MAX || a > (u64::MAX - d) / 10) {
        assert(a * 10 + d <= m) by (nonlinear_arith)
            requires
                a <= (m - d) / 10,
                d < 10,
        ;
    }
}

/// The value of a run of decimal digits, saturated at `u64::MAX`.
fn digits_saturating(s: &[u8]) -> (r: u64)
    requires
        all_digits(s@),
    ensures
        r == saturate(digits_value(s@)),
{
    let mut acc: u64 = 0;
    let mut i: usize = 0;
    while i < s.len()
        invariant
            i <= s@.len(),
            all_digits(s@),
            acc == saturate(digits_value(s@.take(i as int))),
        decreases s@.len() - i,
    {
        let d: u64 = (s[i] - 48) as u64;
        assert(s@.take(i + 1).drop_last() =~= s@.take(i as int));
        proof {
            lemma_saturate_step(digits_value(s@.take(i as int)), acc, d as nat);
        }
        if acc == u64::MAX || acc > (u64::MAX - d) / 10 {
            acc = u64::MAX;
        } else {
            acc = acc * 10 + d;
        }
        i = i + 1;
    }
    assert(s@.take(i as int) =~= s@);
    acc
}

fn all_digits_exec(s: &[u8]) -> (r: bool)
    ensures
        r == all_digits(s@),
{
    let mut i: usize = 0;
    while i < s.len()
        invariant
            i <= s@.len(),
            forall|j: int| 0 <= j < i ==> is_digit(#[trigger] s@[j]),
        decreases s@.len() - i,
    {
        if s[i] < 48 || s[i] > 57 {
            return false;
        }
        i = i + 1;
    }
    true
}

/// Parses an elapsed-time token such as `1.250s` into milliseconds.
pub fn parse_seconds(tok: &[u8]) -> (r: Option<u64>)
    ensures
        r == seconds_millis(tok@),
{
    if tok.len() == 0 || tok[tok.len() - 1] != 115 {
        return None;
    }
    let num = &tok[0..tok.len() - 1];
    assert(num@ =~= tok@.drop_last());
    let mut k: usize = 0;
    while k < num.len() && num[k] != 46
        invariant
            k <= num@.len(),
            find_dot(num@, 0) == find_dot(num@, k as int),
        decreases num@.len() - k,
    {
        k = k + 1;
    }
    let whole = &num[0..k];
    let frac: &[u8] = if k < num.len() {
        &num[k + 1..num.len()]
    } else {
        &num[0..0]
    };
    assert(whole@ =~= whole_part(num@));
    assert(frac@ =~= fraction_part(num@));
    if !all_digits_exec(whole) || !all_digits_exec(frac) || whole.len() + frac.len() == 0 {
        return None;
    }
    let w = digits_saturating(whole);
    let ghost padded = millis_digits(frac@);
    let mut f: u64 = 0;
    let mut i: usize = 0;
    while i < 3
        invariant
            i <= 3,
            all_digits(frac@),
            padded == millis_digits(frac@),
            f == digits_value(padded.take(i as int)),
            f < 1000,
            i == 1 ==> f < 10,
            i == 2 ==> f < 100,
            i == 0 ==> f == 0,
        decreases 3 - i,
    {
        let d: u64 = if i < frac.len() {
            (frac[i] - 48) as u64
        } else {
            0
        };
        assert(padded.take(i + 1).drop_last() =~= padded.take(i as int));
        assert(padded[i as int] == if i < frac@.len() { frac@[i as int] } else { 48u8 });
        f = f * 10 + d;
        i = i + 1;
    }
    assert(padded.take(3) =~= padded);
    let m: u64 = u64::MAX;
    proof {
        let v = digits_value(whole@);
        assert(v >= w);
        if w > (m - f) / 1000 {
            assert(w * 1000 + f > m) by (nonlinear_arith)
                requires
                    w > (m - f) / 1000,
                    f < 1000,
            ;
            assert(v * 1000 + f >= w * 1000 + f) by (nonlinear_arith)
                requires
                    v >= w,
            ;
        } else {
            assert(w * 1000 + f <= m) by (nonlinear_arith)
                requires
                    w <= (m - f) / 1000,
                    f < 1000,
            ;
        }
    }
    if w > (m - f) / 1000 {
        Some(m)
    } else {
        Some(w * 1000 + f)
    }
}

/// The value of a hex digit, either case.
pub open spec fn hex_value(b: u8) -> Option<u8> {
    if 48 <= b <= 57 {
        Some((b - 48) as u8)
    } else if 65 <= b <= 70 {
        Some((b - 55) as u8)
    } else if 97 <= b <= 102 {
        Some((b - 87) as u8)
    } else {
        None
    }
}

fn hex_value_of(b: u8) -> (r: Option<u8>)
    ensures
        r == hex_value(b),
{
    if 48 <= b && b <= 57 {
        Some(b - 48)
    } else if 65 <= b && b <= 70 {
        Some(b - 55)
    } else if 97 <= b && b <= 102 {
        Some(b - 87)
    } else {
        None
    }
}

/// The bytes of a data row's hex column read from position `pos` on, in
/// three-character groups up to the first group that starts with two spaces;
/// `None` when a group is not a hex pair or the line ends before that group.
pub open spec fn scan_row(line: Seq<u8>, pos: nat) -> Option<Seq<u8>>
    decreases line.len() - pos,
{
    if pos + 2 > line.len() {
        None
    } else if line[pos as int] == 32 && line[(pos + 1) as int] == 32 {
        Some(seq![])
    } else if pos + 3 > line.len() {
        None
    } else {
        match (hex_value(line[pos as int]), hex_value(line[(pos + 1) as int])) {
            (Some(h), Some(l)) => match scan_row(line, pos + 3) {
                Some(rest) => Some(seq![(h * 16 + l) as u8] + rest),
                None => None,
            },
            _ => None,
        }
    }
}

/// Appends the bytes of a data row's hex column to `data`; returns false,
/// leaving `data` unspecified, when the row is malformed.
pub fn decode_row(line: &[u8], data: &mut Vec<u8>) -> (r: bool)
    ensures
        r == scan_row(line@, 0).is_some(),
        r ==> final(data)@ == old(data)@ + scan_row(line@, 0).unwrap(),
{
    let ghost start = data@;
    let mut pos: usize = 0;
    loop
        invariant
            pos <= line@.len() + 3,
            start == old(data)@,
            data@.len() >= start.len(),
            scan_row(line@, 0) == (match scan_row(line@, pos as nat) {
                Some(rest) => Some(data@.skip(start.len() as int) + rest),
                None => None::<Seq<u8>>,
            }),
            data@.take(start.len() as int) == start,
        decreases line@.len() + 3 - pos,
    {
        if pos > line.len() || line.len() - pos < 2 {
            return false;
        }
        if line[pos] == 32 && line[pos + 1] == 32 {
            assert(scan_row(line@, pos as nat) == Some(Seq::<u8>::empty()));
            assert(data@ =~= start + data@.skip(start.len() as int));
            assert(data@.skip(start.len() as int) + Seq::<u8>::empty() =~= data@.skip(start.len() as int));
            return true;
        }
        if line.len() - pos < 3 {
            return false;
        }
        let h = hex_value_of(line[pos]);
        let l = hex_value_of(line[pos + 1]);
        match (h, l) {
            (Some(h), Some(l)) => {
                let ghost before = data@;
                data.push(h * 16 + l);
                proof {
                    let b = (h * 16 + l) as u8;
                    assert(data@.skip(start.len() as int) =~= before.skip(start.len() as int).push(b));
                    assert(data@.take(start.len() as int) =~= before.take(start.len() as int));
                    match scan_row(line@, (pos + 3) as nat) {
                        Some(rest) => {
                            assert(before.skip(start.len() as int) + (seq![b] + rest) =~= data@.skip(
                                start.len() as int,
                            ) + rest);
                        },
                        None => {},
                    }
                }
                pos = pos + 3;
            },
            _ => {
                return false;
            },
        }
    }
}

} // verus!
