//! What holds between the encoder and the reader.
use vstd::prelude::*;

use vstd::arithmetic::div_mod::{lemma_fundamental_div_mod, lemma_mod_mod};

use crate::format::{
    bytes_word, data_rows, elapsed_fits, hex_cell, records_lines, records_text, decimal, digit, header_line, lemma_row_count, record_lines, record_text, row_chunk,
    row_count, text_of_lines, hex_column, hex_digit, hex_slot, marker, row_line, seconds_text,
    ROW_WIDTH, SPACE,
};
use crate::dump::{logged_one, CaptureLog};
use crate::packet::{Direction, PacketModel};
use crate::parse::{
    all_digits, digits_value, find_dot, fraction_part, hex_value, is_ws, millis_digits, scan_row, seconds_millis,
    split_ws, tokens, whole_part,
};
use crate::reader::{body_packet, comment_token, decode_from, decode_lines, header_of, ReadState};

verus! {

proof fn lemma_hex_round_trip(b: u8)
    ensures
        hex_value(hex_digit(b / 16)) == Some((b / 16) as u8),
        hex_value(hex_digit(b % 16)) == Some((b % 16) as u8),
        ((b / 16) as u8 * 16 + (b % 16) as u8) as u8 == b,
{
}

proof fn lemma_hex_column_index(row: Seq<u8>, k: nat)
    ensures
        hex_column(row, k).len() == 3 * k,
        forall|i: int, t: int|
            0 <= i < k && 0 <= t < 3 ==> #[trigger] hex_column(row, k)[3 * i + t] == hex_slot(row, i)[t],
    decreases k,
{
    if k > 0 {
        lemma_hex_column_index(row, (k - 1) as nat);
        let prev = hex_column(row, (k - 1) as nat);
        let last = hex_slot(row, k - 1);
        assert forall|i: int, t: int| 0 <= i < k && 0 <= t < 3 implies #[trigger] hex_column(row, k)[3 * i + t]
            == hex_slot(row, i)[t] by {
            if i < k - 1 {
                assert(hex_column(row, k)[3 * i + t] == prev[3 * i + t]);
            } else {
                assert(hex_column(row, k)[3 * i + t] == last[t]);
            }
        }
    }
}

proof fn lemma_row_line_index(row: Seq<u8>)
    requires
        row.len() <= ROW_WIDTH,
    ensures
        row_line(row).len() >= 79,
        forall|i: int| 0 <= i < row.len() ==> #[trigger] row_line(row)[3 * i] == hex_digit(row[i] / 16),
        forall|i: int| 0 <= i < row.len() ==> #[trigger] row_line(row)[3 * i + 1] == hex_digit(row[i] % 16),
        row_line(row)[3 * (row.len() as int)] == SPACE,
        row_line(row)[3 * (row.len() as int) + 1] == SPACE,
{
    lemma_hex_column_index(row, 25);
    let l = row_line(row);
    let h = hex_column(row, 25);
    assert forall|i: int| 0 <= i < row.len() implies #[trigger] l[3 * i] == hex_digit(row[i] / 16) by {
        assert(h[3 * i + 0] == hex_slot(row, i)[0]);
    }
    assert forall|i: int| 0 <= i < row.len() implies #[trigger] l[3 * i + 1] == hex_digit(row[i] % 16) by {
        assert(h[3 * i + 1] == hex_slot(row, i)[1]);
    }
    let n = row.len() as int;
    if n < 25 {
        assert(h[3 * n + 0] == hex_slot(row, n)[0]);
        assert(h[3 * n + 1] == hex_slot(row, n)[1]);
    }
}

proof fn lemma_scan_row_from(row: Seq<u8>, j: int)
    requires
        row.len() <= ROW_WIDTH,
        0 <= j <= row.len(),
    ensures
        scan_row(row_line(row), (3 * j) as nat) == Some(row.skip(j)),
    decreases row.len() - j,
{
    lemma_row_line_index(row);
    let l = row_line(row);
    if j == row.len() {
        assert(row.skip(j) =~= Seq::<u8>::empty());
    } else {
        let b = row[j];
        lemma_hex_round_trip(b);
        assert(l[3 * j] == hex_digit(b / 16));
        assert(l[3 * j + 1] == hex_digit(b % 16));
        assert(hex_digit(b / 16) != SPACE);
        lemma_scan_row_from(row, j + 1);
        assert(3 * j + 3 == 3 * (j + 1));
        assert(row.skip(j) =~= seq![b] + row.skip(j + 1));
    }
}

/// A data row reads back as the bytes it was written from.
proof fn lemma_scan_row_line(row: Seq<u8>)
    requires
        row.len() <= ROW_WIDTH,
    ensures
        scan_row(row_line(row), 0) == Some(row),
        row_line(row).len() > 0,
{
    lemma_scan_row_from(row, 0);
    lemma_row_line_index(row);
    assert(row.skip(0) =~= row);
}

/// Whether a sequence holds no token separator.
spec fn no_ws(w: Seq<u8>) -> bool {
    forall|i: int| 0 <= i < w.len() ==> !is_ws(#[trigger] w[i])
}

/// Whether a sequence holds separators only.
spec fn all_ws(w: Seq<u8>) -> bool {
    forall|i: int| 0 <= i < w.len() ==> is_ws(#[trigger] w[i])
}

proof fn lemma_split_word(prefix: Seq<u8>, w: Seq<u8>)
    requires
        no_ws(w),
    ensures
        split_ws(prefix + w) == (split_ws(prefix).0, split_ws(prefix).1 + w),
    decreases w.len(),
{
    if w.len() == 0 {
        assert(prefix + w =~= prefix);
        assert(split_ws(prefix).1 + w =~= split_ws(prefix).1);
    } else {
        lemma_split_word(prefix, w.drop_last());
        assert((prefix + w).drop_last() =~= prefix + w.drop_last());
        assert((prefix + w).last() == w.last());
        assert(!is_ws(w[w.len() - 1]));
        assert((split_ws(prefix).1 + w.drop_last()).push(w.last()) =~= split_ws(prefix).1 + w);
    }
}

proof fn lemma_split_sep(prefix: Seq<u8>, s: Seq<u8>)
    requires
        s.len() > 0,
        all_ws(s),
    ensures
        split_ws(prefix + s) == (
            if split_ws(prefix).1.len() > 0 {
                split_ws(prefix).0.push(split_ws(prefix).1)
            } else {
                split_ws(prefix).0
            },
            Seq::<u8>::empty(),
        ),
    decreases s.len(),
{
    assert(is_ws(s[s.len() - 1]));
    assert((prefix + s).last() == s.last());
    if s.len() == 1 {
        assert((prefix + s).drop_last() =~= prefix);
    } else {
        lemma_split_sep(prefix, s.drop_last());
        assert((prefix + s).drop_last() =~= prefix + s.drop_last());
    }
}

proof fn lemma_decimal(n: nat)
    ensures
        decimal(n).len() > 0,
        all_digits(decimal(n)),
        digits_value(decimal(n)) == n,
    decreases n,
{
    let d = decimal(n);
    if n >= 10 {
        lemma_decimal(n / 10);
        assert(d.drop_last() =~= decimal(n / 10));
        assert(d.last() == digit(n % 10));
        assert(n % 10 < 10);
        assert(digit(n % 10) - 48 == n % 10);
        assert(digits_value(d) == digits_value(d.drop_last()) * 10 + (d.last() - 48) as nat);
        assert(n == 10 * (n / 10) + n % 10) by {
            lemma_fundamental_div_mod(n as int, 10);
        }
    } else {
        assert(d.drop_last() =~= Seq::<u8>::empty());
        assert(digit(n) - 48 == n);
        assert(d.last() == digit(n));
        assert(digits_value(d.drop_last()) == 0);
        assert(digits_value(d) == digits_value(d.drop_last()) * 10 + (d.last() - 48) as nat);
    }
}

proof fn lemma_digits_no_ws(s: Seq<u8>)
    requires
        all_digits(s),
    ensures
        no_ws(s),
{
    assert forall|i: int| 0 <= i < s.len() implies !is_ws(#[trigger] s[i]) by {
        assert(48 <= s[i] <= 57);
    }
}

proof fn lemma_find_dot(s: Seq<u8>, i: int, k: int)
    requires
        0 <= i <= k < s.len(),
        s[k] == 46,
        forall|j: int| i <= j < k ==> s[j] != 46,
    ensures
        find_dot(s, i) == k,
    decreases k - i,
{
    if i < k {
        lemma_find_dot(s, i + 1, k);
    }
}

/// The elapsed token of a header reads back as the milliseconds it was written from.
proof fn lemma_seconds_round_trip(ms: nat)
    requires
        ms <= u64::MAX,
    ensures
        seconds_millis(seconds_text(ms)) == Some(ms as u64),
{
    let q = ms / 1000;
    let d1 = digit((ms % 1000) / 100);
    let d2 = digit((ms % 100) / 10);
    let d3 = digit(ms % 10);
    let dec = decimal(q);
    lemma_decimal(q);
    let tok = seconds_text(ms);
    let num = tok.drop_last();
    assert(num =~= dec + seq![46u8, d1, d2, d3]);
    let k = dec.len() as int;
    assert forall|j: int| 0 <= j < k implies num[j] != 46 by {
        assert(num[j] == dec[j]);
        assert(48 <= dec[j] <= 57);
    }
    lemma_find_dot(num, 0, k);
    assert(whole_part(num) =~= dec);
    let f = seq![d1, d2, d3];
    assert(fraction_part(num) =~= f);
    assert(millis_digits(f) =~= f);
    assert(f.drop_last() =~= seq![d1, d2]);
    assert(f.drop_last().drop_last() =~= seq![d1]);
    assert(f.drop_last().drop_last().drop_last() =~= Seq::<u8>::empty());
    let r = ms % 1000;
    assert(r < 1000);
    assert(r / 100 < 10);
    assert(d1 - 48 == r / 100);
    assert((ms % 100) / 10 < 10);
    assert(d2 - 48 == (ms % 100) / 10);
    assert(d3 - 48 == ms % 10);
    let s1 = seq![d1];
    assert(s1.drop_last() =~= Seq::<u8>::empty());
    assert(s1.last() == d1);
    assert(digits_value(s1.drop_last()) == 0);
    assert(digits_value(s1) == digits_value(s1.drop_last()) * 10 + (s1.last() - 48) as nat);
    assert(digits_value(s1) == r / 100);
    assert(digits_value(seq![d1, d2]) == (r / 100) * 10 + (ms % 100) / 10) by {
        assert(seq![d1, d2].drop_last() =~= seq![d1]);
    }
    assert(digits_value(f) == ((r / 100) * 10 + (ms % 100) / 10) * 10 + ms % 10);
    assert(ms == 1000 * q + r) by {
        lemma_fundamental_div_mod(ms as int, 1000);
    }
    assert(r == 100 * (r / 100) + r % 100) by {
        lemma_fundamental_div_mod(r as int, 100);
    }
    assert(r % 100 == ms % 100) by {
        lemma_mod_mod(ms as int, 100, 10);
    }
    assert(ms % 100 == 10 * ((ms % 100) / 10) + (ms % 100) % 10) by {
        lemma_fundamental_div_mod((ms % 100) as int, 10);
    }
    assert((ms % 100) % 10 == ms % 10) by {
        lemma_mod_mod(ms as int, 10, 10);
    }
}

/// A header line reads back as its direction and elapsed milliseconds.
pub proof fn lemma_header_round_trip(d: Direction, ms: nat, len: nat)
    requires
        ms <= u64::MAX,
    ensures
        header_of(header_line(d, ms, len)) == Ok::<Option<(Direction, u64)>, crate::parse::FormatError>(
            Some((d, ms as u64)),
        ),
{
    let m = marker(d);
    let two_spaces = seq![SPACE, SPACE];
    let one_space = seq![SPACE];
    let st = seconds_text(ms);
    let dec = decimal(len);
    let bw = bytes_word();
    lemma_decimal(len);
    lemma_decimal(ms / 1000);
    lemma_digits_no_ws(dec);
    assert(no_ws(m));
    assert(no_ws(bw));
    assert(all_ws(two_spaces));
    assert(all_ws(one_space));
    assert forall|i: int| 0 <= i < st.len() implies !is_ws(#[trigger] st[i]) by {
        if i < decimal(ms / 1000).len() {
            assert(st[i] == decimal(ms / 1000)[i]);
            assert(48 <= decimal(ms / 1000)[i] <= 57);
        }
    }
    let e = Seq::<u8>::empty();
    assert(e + m =~= m);
    lemma_split_word(e, m);
    assert(split_ws(e) == (Seq::<Seq<u8>>::empty(), e));
    let a1 = m + two_spaces;
    lemma_split_sep(m, two_spaces);
    let a2 = a1 + st;
    lemma_split_word(a1, st);
    assert(e + st =~= st);
    let a3 = a2 + two_spaces;
    lemma_split_sep(a2, two_spaces);
    let a4 = a3 + dec;
    lemma_split_word(a3, dec);
    assert(e + dec =~= dec);
    let a5 = a4 + one_space;
    lemma_split_sep(a4, one_space);
    let a6 = a5 + bw;
    lemma_split_word(a5, bw);
    assert(e + bw =~= bw);
    assert(a6 == header_line(d, ms, len));
    let t = tokens(a6);
    assert(t =~= seq![m, st, dec, bw]);
    assert(t[0] != comment_token()) by {
        assert(t[0][0] != comment_token()[0]);
    }
    assert(marker(Direction::Write) != marker(Direction::Read)) by {
        assert(marker(Direction::Write)[0] != marker(Direction::Read)[0]);
    }
    lemma_seconds_round_trip(ms);
}

/// The packet `p` followed by what the rest of a dump decodes to.
spec fn prepend(
    p: PacketModel,
    r: Result<Seq<PacketModel>, crate::parse::FormatError>,
) -> Result<Seq<PacketModel>, crate::parse::FormatError> {
    match r {
        Ok(ps) => Ok(seq![p] + ps),
        Err(e) => Err(e),
    }
}

proof fn lemma_rows_decode(d: Direction, ms: u64, data: Seq<u8>, k: int, rest: Seq<Seq<u8>>)
    requires
        0 <= k <= row_count(data.len()),
    ensures
        decode_from(
            ReadState::ReadingBody {
                direction: d,
                elapsed: ms,
                data: data.take(if 25 * k <= data.len() { 25 * k } else { data.len() as int }),
            },
            data_rows(data).skip(k) + seq![Seq::<u8>::empty()] + rest,
        ) == prepend(body_packet(d, ms, data), decode_from(ReadState::AwaitingHeader, rest)),
    decreases row_count(data.len()) - k,
{
    let lines = data_rows(data).skip(k) + seq![Seq::<u8>::empty()] + rest;
    lemma_row_count(data.len(), k as nat);
    if k == row_count(data.len()) {
        assert(data.take(data.len() as int) =~= data);
        assert(lines[0] =~= Seq::<u8>::empty());
        assert(lines.drop_first() =~= rest);
    } else {
        let chunk = row_chunk(data, k);
        lemma_scan_row_line(chunk);
        assert(lines[0] == row_line(chunk));
        let k1 = k + 1;
        lemma_rows_decode(d, ms, data, k1, rest);
        assert(data.take(25 * k) + chunk =~= data.take(
            if 25 * k1 <= data.len() { 25 * k1 } else { data.len() as int },
        ));
        assert(lines.drop_first() =~= data_rows(data).skip(k1) + seq![Seq::<u8>::empty()] + rest);
    }
}

/// One record, followed by more lines, reads back as its packet followed by
/// what those lines read as.
proof fn lemma_record_decodes(d: Direction, ms: u64, data: Seq<u8>, rest: Seq<Seq<u8>>)
    ensures
        decode_from(ReadState::AwaitingHeader, record_lines(d, ms as nat, data) + rest) == prepend(
            body_packet(d, ms, data),
            decode_from(ReadState::AwaitingHeader, rest),
        ),
{
    let lines = record_lines(d, ms as nat, data) + rest;
    lemma_header_round_trip(d, ms as nat, data.len());
    assert(lines[0] == header_line(d, ms as nat, data.len()));
    lemma_rows_decode(d, ms, data, 0, rest);
    assert(data.take(0) =~= Seq::<u8>::empty());
    assert(data_rows(data).skip(0) =~= data_rows(data));
    assert(lines.drop_first() =~= data_rows(data).skip(0) + seq![Seq::<u8>::empty()] + rest);
}

proof fn lemma_text_concat(a: Seq<Seq<u8>>, b: Seq<Seq<u8>>)
    ensures
        text_of_lines(a + b) == text_of_lines(a) + text_of_lines(b),
    decreases b.len(),
{
    if b.len() == 0 {
        assert(a + b =~= a);
        assert(text_of_lines(a) + text_of_lines(b) =~= text_of_lines(a));
    } else {
        lemma_text_concat(a, b.drop_last());
        assert((a + b).drop_last() =~= a + b.drop_last());
        assert(text_of_lines(a) + text_of_lines(b) =~= text_of_lines(a) + text_of_lines(b.drop_last()) + b.last()
            + seq![10u8]);
    }
}

/// Round trip: the text of packets recorded one after another is made of
/// their records' lines, and the reader fed those lines yields the same
/// packets, in order, with the same directions, elapsed milliseconds and
/// payloads.
pub proof fn lemma_round_trip(ps: Seq<PacketModel>)
    requires
        elapsed_fits(ps),
    ensures
        text_of_lines(records_lines(ps)) == records_text(ps),
        decode_lines(records_lines(ps)) == Ok::<Seq<PacketModel>, crate::parse::FormatError>(ps),
    decreases ps.len(),
{
    if ps.len() == 0 {
        assert(text_of_lines(records_lines(ps)) =~= records_text(ps));
        assert(records_lines(ps) =~= Seq::<Seq<u8>>::empty());
        assert(ps =~= Seq::<PacketModel>::empty());
    } else {
        let p = ps[0];
        let rest = ps.drop_first();
        assert(elapsed_fits(rest)) by {
            assert forall|i: int| 0 <= i < rest.len() implies #[trigger] rest[i].elapsed <= u64::MAX by {
                assert(rest[i] == ps[i + 1]);
            }
        }
        lemma_round_trip(rest);
        assert(p.elapsed <= u64::MAX);
        lemma_record_decodes(p.direction, p.elapsed as u64, p.data, records_lines(rest));
        lemma_text_concat(record_lines(p.direction, p.elapsed, p.data), records_lines(rest));
        assert(body_packet(p.direction, p.elapsed as u64, p.data) == p);
        assert(seq![p] + rest =~= ps);
        assert(records_lines(ps) == record_lines(p.direction, p.elapsed, p.data) + records_lines(rest));
        assert(decode_lines(records_lines(ps)) == prepend(p, decode_lines(records_lines(rest))));
    }
}

proof fn lemma_add_assoc(a: Seq<u8>, b: Seq<u8>, c: Seq<u8>)
    ensures
        a + (b + c) == (a + b) + c,
        a + Seq::<u8>::empty() == a,
        Seq::<u8>::empty() + a == a,
{
    assert(a + (b + c) =~= (a + b) + c);
    assert(a + Seq::<u8>::empty() =~= a);
    assert(Seq::<u8>::empty() + a =~= a);
}

proof fn lemma_records_text_push(ps: Seq<PacketModel>, p: PacketModel)
    ensures
        records_text(ps.push(p)) == records_text(ps) + record_text(p.direction, p.elapsed, p.data),
    decreases ps.len(),
{
    let q = ps.push(p);
    let rp = record_text(p.direction, p.elapsed, p.data);
    if ps.len() == 0 {
        assert(q.drop_first() =~= Seq::<PacketModel>::empty());
        assert(q[0] == p);
        lemma_add_assoc(rp, Seq::<u8>::empty(), Seq::<u8>::empty());
        assert(records_text(q.drop_first()) == Seq::<u8>::empty());
        assert(records_text(q) == rp + records_text(q.drop_first()));
        assert(records_text(ps) == Seq::<u8>::empty());
    } else {
        let r0 = record_text(ps[0].direction, ps[0].elapsed, ps[0].data);
        lemma_records_text_push(ps.drop_first(), p);
        assert(q.drop_first() =~= ps.drop_first().push(p));
        assert(q[0] == ps[0]);
        lemma_add_assoc(r0, records_text(ps.drop_first()), rp);
        assert(records_text(q) == r0 + records_text(q.drop_first()));
        assert(records_text(ps) == r0 + records_text(ps.drop_first()));
    }
}

/// Round trip through the decorator: when the text that reached a
/// decorator's sink is the records of the packets it recorded, one more
/// read or write keeps it so, whether or not its record reached the sink;
/// and the lines of that text, fed to the reader, yield exactly those
/// packets, in order.
pub proof fn lemma_recording_round_trip(before: CaptureLog, after: CaptureLog, dir: Direction, data: Seq<u8>)
    requires
        elapsed_fits(before.packets),
        before.text == records_text(before.packets),
        logged_one(before, after, dir, data),
    ensures
        elapsed_fits(after.packets),
        after.text == records_text(after.packets),
        after.text == text_of_lines(records_lines(after.packets)),
        decode_lines(records_lines(after.packets)) == Ok::<Seq<PacketModel>, crate::parse::FormatError>(
            after.packets,
        ),
{
    if after.writes.last().1 {
        let p = after.packets.last();
        assert(after.packets =~= before.packets.push(p));
        assert(p.elapsed <= u64::MAX);
        assert forall|i: int| 0 <= i < after.packets.len() implies #[trigger] after.packets[i].elapsed
            <= u64::MAX by {
            if i < before.packets.len() {
                assert(after.packets[i] == before.packets[i]);
            }
        }
        lemma_records_text_push(before.packets, p);
    }
    lemma_round_trip(after.packets);
}

/// Whether a line is blank or a comment, which the reader skips between records.
pub open spec fn is_filler(line: Seq<u8>) -> bool {
    tokens(line).len() == 0 || tokens(line)[0] == comment_token()
}

/// Whether every line of `gaps` is blank or a comment.
pub open spec fn all_filler(gaps: Seq<Seq<Seq<u8>>>) -> bool {
    forall|i: int, j: int| 0 <= i < gaps.len() && 0 <= j < gaps[i].len() ==> is_filler(#[trigger] gaps[i][j])
}

/// The lines of packets encoded one after another, with the lines of
/// `gaps[i]` before record `i` and those of the last gap after all of them.
pub open spec fn spaced_records_lines(ps: Seq<PacketModel>, gaps: Seq<Seq<Seq<u8>>>) -> Seq<Seq<u8>>
    decreases ps.len(),
{
    if ps.len() == 0 || gaps.len() == 0 {
        if gaps.len() > 0 {
            gaps[0]
        } else {
            seq![]
        }
    } else {
        gaps[0] + record_lines(ps[0].direction, ps[0].elapsed, ps[0].data) + spaced_records_lines(
            ps.drop_first(),
            gaps.drop_first(),
        )
    }
}

proof fn lemma_skip_filler(gap: Seq<Seq<u8>>, rest: Seq<Seq<u8>>)
    requires
        forall|j: int| 0 <= j < gap.len() ==> is_filler(#[trigger] gap[j]),
    ensures
        decode_from(ReadState::AwaitingHeader, gap + rest) == decode_from(ReadState::AwaitingHeader, rest),
    decreases gap.len(),
{
    if gap.len() == 0 {
        assert(gap + rest =~= rest);
    } else {
        assert((gap + rest)[0] == gap[0]);
        assert(is_filler(gap[0]));
        assert((gap + rest).drop_first() =~= gap.drop_first() + rest);
        lemma_skip_filler(gap.drop_first(), rest);
    }
}

/// Round trip with blank and comment lines anywhere between records: the
/// reader fed records interleaved with such lines yields exactly the packets,
/// in order.
pub proof fn lemma_spaced_round_trip(ps: Seq<PacketModel>, gaps: Seq<Seq<Seq<u8>>>)
    requires
        elapsed_fits(ps),
        gaps.len() == ps.len() + 1,
        all_filler(gaps),
    ensures
        decode_lines(spaced_records_lines(ps, gaps)) == Ok::<Seq<PacketModel>, crate::parse::FormatError>(ps),
    decreases ps.len(),
{
    if ps.len() == 0 {
        assert forall|j: int| 0 <= j < gaps[0].len() implies is_filler(#[trigger] gaps[0][j]) by {
            assert(is_filler(gaps[0][j]));
        }
        lemma_skip_filler(gaps[0], Seq::<Seq<u8>>::empty());
        assert(gaps[0] + Seq::<Seq<u8>>::empty() =~= gaps[0]);
        assert(ps =~= Seq::<PacketModel>::empty());
    } else {
        let p = ps[0];
        let rest = ps.drop_first();
        let grest = gaps.drop_first();
        assert(elapsed_fits(rest)) by {
            assert forall|i: int| 0 <= i < rest.len() implies #[trigger] rest[i].elapsed <= u64::MAX by {
                assert(rest[i] == ps[i + 1]);
            }
        }
        assert(all_filler(grest)) by {
            assert forall|i: int, j: int| 0 <= i < grest.len() && 0 <= j < grest[i].len() implies is_filler(
                #[trigger] grest[i][j],
            ) by {
                assert(grest[i] == gaps[i + 1]);
            }
        }
        lemma_spaced_round_trip(rest, grest);
        assert forall|j: int| 0 <= j < gaps[0].len() implies is_filler(#[trigger] gaps[0][j]) by {
            assert(is_filler(gaps[0][j]));
        }
        let tail = spaced_records_lines(rest, grest);
        let rec = record_lines(p.direction, p.elapsed, p.data);
        assert(spaced_records_lines(ps, gaps) == gaps[0] + rec + tail);
        assert(gaps[0] + rec + tail =~= gaps[0] + (rec + tail));
        lemma_skip_filler(gaps[0], rec + tail);
        assert(p.elapsed <= u64::MAX);
        lemma_record_decodes(p.direction, p.elapsed as u64, p.data, tail);
        assert(body_packet(p.direction, p.elapsed as u64, p.data) == p);
        assert(seq![p] + rest =~= ps);
    }
}

/// Encoding is a function of the direction, the elapsed milliseconds and the
/// payload alone: the same inputs give byte-identical records every time.
pub proof fn lemma_encoding_deterministic(
    d1: Direction,
    d2: Direction,
    ms1: nat,
    ms2: nat,
    data1: Seq<u8>,
    data2: Seq<u8>,
)
    requires
        d1 == d2,
        ms1 == ms2,
        data1 == data2,
    ensures
        record_text(d1, ms1, data1) == record_text(d2, ms2, data2),
{
}

/// A transfer of no bytes is recorded as a header saying `0 bytes` and no
/// data rows before the blank terminator, and reads back as a packet with
/// empty data.
pub proof fn lemma_empty_payload(d: Direction, ms: nat)
    requires
        ms <= u64::MAX,
    ensures
        data_rows(Seq::<u8>::empty()).len() == 0,
        record_lines(d, ms, Seq::<u8>::empty()) == seq![header_line(d, ms, 0), Seq::<u8>::empty()],
        header_line(d, ms, 0) == marker(d) + seq![SPACE, SPACE] + seconds_text(ms) + seq![SPACE, SPACE]
            + seq![48u8, SPACE] + bytes_word(),
        decode_lines(record_lines(d, ms, Seq::<u8>::empty())) == Ok::<
            Seq<PacketModel>,
            crate::parse::FormatError,
        >(seq![PacketModel { direction: d, elapsed: ms, data: Seq::<u8>::empty() }]),
{
    let e = Seq::<u8>::empty();
    assert(record_lines(d, ms, e) =~= seq![header_line(d, ms, 0), e]);
    assert(decimal(0) =~= seq![48u8]);
    assert(header_line(d, ms, 0) =~= marker(d) + seq![SPACE, SPACE] + seconds_text(ms) + seq![SPACE, SPACE]
        + seq![48u8, SPACE] + bytes_word());
    let p = PacketModel { direction: d, elapsed: ms, data: e };
    lemma_round_trip(seq![p]);
    assert(seq![p].drop_first() =~= Seq::<PacketModel>::empty());
    assert(records_lines(Seq::<PacketModel>::empty()) == Seq::<Seq<u8>>::empty());
    assert(seq![p][0] == p);
    assert(records_lines(seq![p]) =~= record_lines(d, ms, e) + Seq::<Seq<u8>>::empty());
    assert(record_lines(d, ms, e) + Seq::<Seq<u8>>::empty() =~= record_lines(d, ms, e));
}

/// A payload of exactly one row's width is one data row whose hex column has
/// a byte in every slot.
pub proof fn lemma_full_row(data: Seq<u8>)
    requires
        data.len() == ROW_WIDTH,
    ensures
        data_rows(data) == seq![row_line(data)],
        forall|i: int| 0 <= i < ROW_WIDTH ==> #[trigger] hex_slot(data, i) == hex_cell(data[i]),
{
    assert(row_chunk(data, 0) =~= data);
    assert(data_rows(data) =~= seq![row_line(data)]);
}

/// A payload one byte longer than a row is two data rows; the second holds
/// the last byte and blank slots for the rest of its hex column.
pub proof fn lemma_wrapped_row(data: Seq<u8>)
    requires
        data.len() == ROW_WIDTH + 1,
    ensures
        data_rows(data) == seq![row_line(data.take(25)), row_line(seq![data[25]])],
        forall|i: int| 1 <= i < ROW_WIDTH ==> #[trigger] hex_slot(seq![data[25]], i) == seq![SPACE, SPACE, SPACE],
{
    assert(row_chunk(data, 0) =~= data.take(25));
    assert(row_chunk(data, 1) =~= seq![data[25]]);
    assert(data_rows(data) =~= seq![row_line(data.take(25)), row_line(seq![data[25]])]);
}

} // verus!
