//! The text form of one packet record: a header line, data rows of up to
//! `ROW_WIDTH` bytes in hex and escaped ASCII, and a blank terminator line.
use vstd::prelude::*;

use crate::packet::{Direction, PacketModel};

verus! {

/// Number of payload bytes on one data row.
pub const ROW_WIDTH: usize = 25;

/// ASCII space.
pub const SPACE: u8 = 32;

/// ASCII line feed.
pub const NEWLINE: u8 = 10;

/// The uppercase hex digit for a value below 16.
pub open spec fn hex_digit(d: u8) -> u8 {
    if d < 10 {
        (48 + d) as u8
    } else {
        (55 + d) as u8
    }
}

/// A byte as two hex digits and a separating space.
pub open spec fn hex_cell(b: u8) -> Seq<u8> {
    seq![hex_digit(b / 16), hex_digit(b % 16), SPACE]
}

/// Slot `i` of the hex column: the byte's cell, or three spaces past the row's end.
pub open spec fn hex_slot(row: Seq<u8>, i: int) -> Seq<u8> {
    if i < row.len() {
        hex_cell(row[i])
    } else {
        seq![SPACE, SPACE, SPACE]
    }
}

/// The first `k` slots of the hex column.
pub open spec fn hex_column(row: Seq<u8>, k: nat) -> Seq<u8>
    decreases k,
{
    if k == 0 {
        seq![]
    } else {
        hex_column(row, (k - 1) as nat) + hex_slot(row, k - 1)
    }
}

/// The two characters that stand for a byte in the ASCII column.
pub open spec fn ascii_cell(b: u8) -> Seq<u8> {
    if b == 0 {
        seq![92u8, 48u8]
    } else if b == 9 {
        seq![92u8, 116u8]
    } else if b == 10 {
        seq![92u8, 110u8]
    } else if b == 13 {
        seq![92u8, 114u8]
    } else if 32 <= b <= 126 {
        seq![SPACE, b]
    } else {
        seq![92u8, 63u8]
    }
}

/// The ASCII column of a row: one cell per byte, unpadded.
pub open spec fn ascii_column(row: Seq<u8>) -> Seq<u8>
    decreases row.len(),
{
    if row.len() == 0 {
        seq![]
    } else {
        ascii_column(row.drop_last()) + ascii_cell(row.last())
    }
}

/// One data row, without its line feed.
pub open spec fn row_line(row: Seq<u8>) -> Seq<u8> {
    hex_column(row, ROW_WIDTH as nat) + seq![SPACE, SPACE, SPACE, SPACE] + ascii_column(row)
}

/// Number of data rows for a payload of `n` bytes.
pub open spec fn row_count(n: nat) -> nat {
    (n + 24) / 25
}

/// The bytes of data row `i`.
pub open spec fn row_chunk(data: Seq<u8>, i: int) -> Seq<u8> {
    let start = ROW_WIDTH * i;
    let end = if start + ROW_WIDTH <= data.len() {
        start + ROW_WIDTH
    } else {
        data.len() as int
    };
    data.subrange(start, end)
}

/// All data rows of a payload.
pub open spec fn data_rows(data: Seq<u8>) -> Seq<Seq<u8>> {
    Seq::new(row_count(data.len()), |i: int| row_line(row_chunk(data, i)))
}

/// The ASCII decimal digit for a value below 10.
pub open spec fn digit(d: nat) -> u8 {
    (48 + d) as u8
}

/// A number in decimal, without leading zeros.
pub open spec fn decimal(n: nat) -> Seq<u8>
    decreases n,
{
    if n < 10 {
        seq![digit(n)]
    } else {
        decimal(n / 10).push(digit(n % 10))
    }
}

/// The direction marker: `<-` for a write, `->` for a read.
pub open spec fn marker(d: Direction) -> Seq<u8> {
    match d {
        Direction::Write => seq![60u8, 45u8],
        Direction::Read => seq![45u8, 62u8],
    }
}

/// Milliseconds as seconds with three decimals and the unit `s`.
pub open spec fn seconds_text(ms: nat) -> Seq<u8> {
    decimal(ms / 1000) + seq![46u8, digit((ms % 1000) / 100), digit((ms % 100) / 10), digit(ms % 10), 115u8]
}

/// The word `bytes`.
pub open spec fn bytes_word() -> Seq<u8> {
    seq![98u8, 121u8, 116u8, 101u8, 115u8]
}

/// The header line of a record, without its line feed.
pub open spec fn header_line(d: Direction, ms: nat, len: nat) -> Seq<u8> {
    marker(d) + seq![SPACE, SPACE] + seconds_text(ms) + seq![SPACE, SPACE] + decimal(len) + seq![SPACE]
        + bytes_word()
}

/// The lines of one record: header, data rows and the blank terminator.
pub open spec fn record_lines(d: Direction, ms: nat, data: Seq<u8>) -> Seq<Seq<u8>> {
    seq![header_line(d, ms, data.len())] + data_rows(data) + seq![Seq::<u8>::empty()]
}

/// Lines joined into text, each followed by a line feed.
pub open spec fn text_of_lines(lines: Seq<Seq<u8>>) -> Seq<u8>
    decreases lines.len(),
{
    if lines.len() == 0 {
        seq![]
    } else {
        text_of_lines(lines.drop_last()) + lines.last() + seq![NEWLINE]
    }
}

/// The full text of one record.
pub open spec fn record_text(d: Direction, ms: nat, data: Seq<u8>) -> Seq<u8> {
    text_of_lines(record_lines(d, ms, data))
}

/// The lines of a sequence of packets encoded one after another.
pub open spec fn records_lines(ps: Seq<PacketModel>) -> Seq<Seq<u8>>
    decreases ps.len(),
{
    if ps.len() == 0 {
        seq![]
    } else {
        record_lines(ps[0].direction, ps[0].elapsed, ps[0].data) + records_lines(ps.drop_first())
    }
}

/// The text of a sequence of packets encoded one after another.
pub open spec fn records_text(ps: Seq<PacketModel>) -> Seq<u8>
    decreases ps.len(),
{
    if ps.len() == 0 {
        seq![]
    } else {
        record_text(ps[0].direction, ps[0].elapsed, ps[0].data) + records_text(ps.drop_first())
    }
}

/// Whether every packet's elapsed time fits the millisecond counter.
pub open spec fn elapsed_fits(ps: Seq<PacketModel>) -> bool {
    forall|i: int| 0 <= i < ps.len() ==> #[trigger] ps[i].elapsed <= u64::MAX
}

proof fn lemma_text_push(lines: Seq<Seq<u8>>, line: Seq<u8>)
    ensures
        text_of_lines(lines.push(line)) == text_of_lines(lines) + line + seq![NEWLINE],
{
    assert(lines.push(line).drop_last() =~= lines);
}

fn hex_digit_of(d: u8) -> (r: u8)
    requires
        d < 16,
    ensures
        r == hex_digit(d),
{
    if d < 10 {
        48 + d
    } else {
        55 + d
    }
}

fn push_hex_cell(out: &mut Vec<u8>, b: u8)
    ensures
        final(out)@ == old(out)@ + hex_cell(b),
{
    out.push(hex_digit_of(b / 16));
    out.push(hex_digit_of(b % 16));
    out.push(SPACE);
    assert(final(out)@ =~= old(out)@ + hex_cell(b));
}

fn push_ascii_cell(out: &mut Vec<u8>, b: u8)
    ensures
        final(out)@ == old(out)@ + ascii_cell(b),
{
    if b == 0 {
        out.push(92);
        out.push(48);
    } else if b == 9 {
        out.push(92);
        out.push(116);
    } else if b == 10 {
        out.push(92);
        out.push(110);
    } else if b == 13 {
        out.push(92);
        out.push(114);
    } else if 32 <= b && b <= 126 {
        out.push(SPACE);
        out.push(b);
    } else {
        out.push(92);
        out.push(63);
    }
    assert(final(out)@ =~= old(out)@ + ascii_cell(b));
}

/// Appends one data row and its line feed.
pub fn write_data_line(out: &mut Vec<u8>, row: &[u8])
    requires
        row@.len() <= ROW_WIDTH,
    ensures
        final(out)@ == old(out)@ + row_line(row@) + seq![NEWLINE],
{
    let ghost start = out@;
    let mut i: usize = 0;
    while i < ROW_WIDTH
        invariant
            i <= ROW_WIDTH,
            row@.len() <= ROW_WIDTH,
            out@ == start + hex_column(row@, i as nat),
        decreases ROW_WIDTH - i,
    {
        if i < row.len() {
            push_hex_cell(out, row[i]);
        } else {
            out.push(SPACE);
            out.push(SPACE);
            out.push(SPACE);
        }
        assert(out@ =~= start + hex_column(row@, (i + 1) as nat));
        i = i + 1;
    }
    out.push(SPACE);
    out.push(SPACE);
    out.push(SPACE);
    out.push(SPACE);
    let ghost mid = out@;
    assert(mid =~= start + hex_column(row@, ROW_WIDTH as nat) + seq![SPACE, SPACE, SPACE, SPACE]);
    let mut j: usize = 0;
    while j < row.len()
        invariant
            j <= row@.len(),
            out@ == mid + ascii_column(row@.take(j as int)),
        decreases row@.len() - j,
    {
        push_ascii_cell(out, row[j]);
        assert(row@.take(j + 1).drop_last() =~= row@.take(j as int));
        assert(out@ =~= mid + ascii_column(row@.take(j + 1)));
        j = j + 1;
    }
    assert(row@.take(row@.len() as int) =~= row@);
    out.push(NEWLINE);
    assert(final(out)@ =~= old(out)@ + row_line(row@) + seq![NEWLINE]);
}

/// Appends a number in decimal.
pub fn push_decimal(out: &mut Vec<u8>, n: u64)
    ensures
        final(out)@ == old(out)@ + decimal(n as nat),
    decreases n,
{
    if n >= 10 {
        push_decimal(out, n / 10);
    }
    out.push(48 + (n % 10) as u8);
    assert(final(out)@ =~= old(out)@ + decimal(n as nat));
}

/// Saturating millisecond count of a duration of `secs` seconds and
/// `subsec_nanos` nanoseconds, rounding the sub-second part up.
pub open spec fn millis_spec(secs: nat, subsec_nanos: nat) -> nat {
    let total = secs * 1000 + (subsec_nanos + 999_999) / 1_000_000;
    if total > u64::MAX {
        u64::MAX as nat
    } else {
        total
    }
}

/// Converts a duration to milliseconds, rounding up and saturating at `u64::MAX`.
pub fn millis(secs: u64, subsec_nanos: u32) -> (r: u64)
    requires
        subsec_nanos < 1_000_000_000,
    ensures
        r == millis_spec(secs as nat, subsec_nanos as nat),
{
    let sub: u32 = (subsec_nanos + 999_999) / 1_000_000;
    if secs > u64::MAX / 1000 {
        return u64::MAX;
    }
    let whole: u64 = secs * 1000;
    if whole > u64::MAX - sub as u64 {
        u64::MAX
    } else {
        whole + sub as u64
    }
}

pub(crate) proof fn lemma_row_count(n: nat, i: nat)
    ensures
        (25 * i < n) == (i < row_count(n)),
        (25 * i >= n && i <= row_count(n)) ==> i == row_count(n),
{
    assert((25 * i < n) == (i < (n + 24) / 25)) by (nonlinear_arith);
    assert((25 * i >= n && i <= (n + 24) / 25) ==> i == (n + 24) / 25) by (nonlinear_arith);
}

/// Encodes one packet as a record: header line, data rows and blank line.
pub fn encode_packet(direction: Direction, elapsed: u64, data: &[u8]) -> (r: Vec<u8>)
    ensures
        r@ == record_text(direction, elapsed as nat, data@),
{
    let mut out: Vec<u8> = Vec::new();
    match direction {
        Direction::Write => {
            out.push(60);
            out.push(45);
        },
        Direction::Read => {
            out.push(45);
            out.push(62);
        },
    }
    out.push(SPACE);
    out.push(SPACE);
    push_decimal(&mut out, elapsed / 1000);
    out.push(46);
    out.push(48 + ((elapsed % 1000) / 100) as u8);
    out.push(48 + ((elapsed % 100) / 10) as u8);
    out.push(48 + (elapsed % 10) as u8);
    out.push(115);
    out.push(SPACE);
    out.push(SPACE);
    push_decimal(&mut out, data.len() as u64);
    out.push(SPACE);
    out.push(98);
    out.push(121);
    out.push(116);
    out.push(101);
    out.push(115);
    let ghost header = header_line(direction, elapsed as nat, data@.len());
    assert(out@ =~= header);
    out.push(NEWLINE);
    let ghost rows = data_rows(data@);
    proof {
        lemma_text_push(seq![], header);
        assert(seq![header] =~= seq![].push(header));
        assert(seq![header] + rows.take(0) =~= seq![header]);
    }
    let mut pos: usize = 0;
    let ghost mut i: nat = 0;
    while pos < data.len()
        invariant
            pos == (if 25 * i <= data@.len() { 25 * i } else { data@.len() }),
            i <= row_count(data@.len()),
            rows == data_rows(data@),
            out@ == text_of_lines(seq![header] + rows.take(i as int)),
        decreases data@.len() - pos,
    {
        proof {
            lemma_row_count(data@.len(), i);
        }
        let end: usize = if data.len() - pos >= ROW_WIDTH {
            pos + ROW_WIDTH
        } else {
            data.len()
        };
        let row = &data[pos..end];
        write_data_line(&mut out, row);
        proof {
            assert(row@ == row_chunk(data@, i as int));
            lemma_text_push(seq![header] + rows.take(i as int), rows[i as int]);
            assert(seq![header] + rows.take((i + 1) as int) =~= (seq![header] + rows.take(i as int)).push(rows[i as int]));
            i = i + 1;
        }
        pos = end;
    }
    proof {
        lemma_row_count(data@.len(), i);
        assert(rows.take(i as int) =~= rows);
    }
    out.push(NEWLINE);
    proof {
        lemma_text_push(seq![header] + rows, Seq::<u8>::empty());
        assert(record_lines(direction, elapsed as nat, data@) =~= (seq![header] + rows).push(Seq::<u8>::empty()));
        assert(out@ =~= text_of_lines(seq![header] + rows) + Seq::<u8>::empty() + seq![NEWLINE]);
    }
    out
}

} // verus!
