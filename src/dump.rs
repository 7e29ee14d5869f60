//! The capturing decorator: reads and writes pass through to the wrapped
//! handle, and each completed transfer is recorded to a sink.
use vstd::prelude::*;

use std::io::{Read, Write};
use std::time::{Duration, Instant};

use crate::format::{encode_packet, millis, millis_spec, record_text};
use crate::packet::{Direction, PacketModel};

verus! {

/// std::time::Instant, carried opaquely as the start of a capture.
#[verifier::external_type_specification]
#[verifier::external_body]
pub struct ExInstant(std::time::Instant);

/// std::io::Error, carried opaquely from the wrapped handle or the sink to the caller.
#[verifier::external_type_specification]
#[verifier::external_body]
pub struct ExIoError(std::io::Error);

/// std::io::Stdout, carried opaquely as a sink.
#[verifier::external_type_specification]
#[verifier::external_body]
pub struct ExStdout(std::io::Stdout);

/// Relies on std::io::stdout: a handle to the standard output; nothing is known of it.
pub assume_specification[ std::io::stdout ]() -> std::io::Stdout;

/// Relies on std::time::Instant::now: the current instant; nothing is known of it.
pub assume_specification[ std::time::Instant::now ]() -> std::time::Instant;

/// Relies on std::time::Instant::elapsed: the time since an instant; nothing is known of it.
pub assume_specification[ std::time::Instant::elapsed ](i: &std::time::Instant) -> std::time::Duration;

/// Relies on std::time::Duration::as_secs: the whole seconds of a duration.
pub assume_specification[ std::time::Duration::as_secs ](d: &std::time::Duration) -> u64;

/// Relies on std::time::Duration::subsec_nanos: the fractional part in
/// nanoseconds, documented to be below one billion.
pub assume_specification[ std::time::Duration::subsec_nanos ](d: &std::time::Duration) -> (r: u32)
    ensures
        r < 1_000_000_000,
;

/// Relies on std::io::Read::read of the wrapped handle: on success it reports
/// how many bytes it placed in `buf`, documented to be at most `buf.len()`.
#[verifier::external_body]
fn read_upstream<T: Read>(upstream: &mut T, buf: &mut [u8]) -> (r: std::io::Result<usize>)
    ensures
        final(buf)@.len() == old(buf)@.len(),
        r matches Ok(n) ==> n <= old(buf)@.len(),
{
    upstream.read(buf)
}

/// Relies on std::io::Write::write of the wrapped handle: on success it reports
/// how many bytes of `buf` it accepted, documented to be at most `buf.len()`.
#[verifier::external_body]
fn write_upstream<T: Write>(upstream: &mut T, buf: &[u8]) -> (r: std::io::Result<usize>)
    ensures
        r matches Ok(n) ==> n <= buf@.len(),
{
    upstream.write(buf)
}

/// Relies on std::io::Write::flush of the wrapped handle.
#[verifier::external_body]
fn flush_handle<T: Write>(upstream: &mut T) -> (r: std::io::Result<()>) {
    upstream.flush()
}

/// Relies on std::io::Write::write_all of the sink: all of `bytes`, or an error.
#[verifier::external_body]
fn write_sink<U: Write>(sink: &mut U, bytes: &[u8]) -> (r: std::io::Result<()>) {
    sink.write_all(bytes)
}

/// What a capture has done so far.
pub struct CaptureLog {
    /// The packets whose record reached the sink, in order.
    pub packets: Seq<PacketModel>,
    /// The text of the records that reached the sink, in order.
    pub text: Seq<u8>,
    /// Each write of a record to the sink: its bytes, and whether it succeeded.
    pub writes: Seq<(Seq<u8>, bool)>,
    /// Each clock reading that timed a record: whole seconds and nanoseconds
    /// since the capture started.
    pub readings: Seq<(nat, nat)>,
}

/// The log of a capture that has recorded nothing.
pub open spec fn empty_log() -> CaptureLog {
    CaptureLog { packets: seq![], text: seq![], writes: seq![], readings: seq![] }
}

/// `after` is `before` with one more record of direction `dir` and payload
/// `data`: one clock reading, which times the record at its `millis_spec`;
/// one write of the record's text to the sink; and, where that write
/// succeeded, one more packet and its text.
pub open spec fn logged_one(before: CaptureLog, after: CaptureLog, dir: Direction, data: Seq<u8>) -> bool {
    let reading = after.readings.last();
    let ms = millis_spec(reading.0, reading.1);
    let ok = after.writes.last().1;
    &&& after.readings == before.readings.push(reading)
    &&& reading.1 < 1_000_000_000
    &&& after.writes == before.writes.push((record_text(dir, ms, data), ok))
    &&& if ok {
        &&& after.packets == before.packets.push(PacketModel { direction: dir, elapsed: ms, data })
        &&& after.text == before.text + record_text(dir, ms, data)
    } else {
        &&& after.packets == before.packets
        &&& after.text == before.text
    }
}

/// The live capture state: the sink and the instant the capture started.
struct Inner<U> {
    dump: U,
    now: Instant,
    log: Ghost<CaptureLog>,
}

impl<U: Write> Inner<U> {
    /// Encodes one packet timed at `secs` seconds and `nanos` nanoseconds
    /// since the start of the capture, and hands its record to the sink once.
    fn write_packet_at(&mut self, dir: Direction, data: &[u8], secs: u64, nanos: u32) -> (r: std::io::Result<()>)
        requires
            nanos < 1_000_000_000,
        ensures
            final(self).now == old(self).now,
            logged_one(old(self).log@, final(self).log@, dir, data@),
            final(self).log@.readings.last() == (secs as nat, nanos as nat),
            r is Ok <==> final(self).log@.writes.last().1,
    {
        let ms = millis(secs, nanos);
        let text = encode_packet(dir, ms, data);
        let r = write_sink(&mut self.dump, text.as_slice());
        let ghost ok: bool = r is Ok;
        let ghost before = self.log@;
        let ghost packet = PacketModel { direction: dir, elapsed: ms as nat, data: data@ };
        let ghost after = CaptureLog {
            packets: if ok { before.packets.push(packet) } else { before.packets },
            text: if ok { before.text + text@ } else { before.text },
            writes: before.writes.push((text@, ok)),
            readings: before.readings.push((secs as nat, nanos as nat)),
        };
        self.log = Ghost(after);
        r
    }

    /// Encodes one packet, timed by the clock from the start of the capture,
    /// and hands its record to the sink once.
    fn write_packet(&mut self, dir: Direction, data: &[u8]) -> (r: std::io::Result<()>)
        ensures
            final(self).now == old(self).now,
            logged_one(old(self).log@, final(self).log@, dir, data@),
            r is Ok <==> final(self).log@.writes.last().1,
    {
        let elapsed: Duration = self.now.elapsed();
        self.write_packet_at(dir, data, elapsed.as_secs(), elapsed.subsec_nanos())
    }
}

/// A call made to the wrapped handle.
pub enum UpstreamCall {
    /// A read into a buffer of `len` bytes; `count` is the count it
    /// reported, `None` for an error.
    Read { len: nat, count: Option<nat> },
    /// A write of `data`; `count` is how many bytes it accepted, `None` for
    /// an error.
    Write { data: Seq<u8>, count: Option<nat> },
    /// A flush, and whether it succeeded.
    Flush { ok: bool },
}

/// Wraps an I/O handle, recording all activity in a readable format to a sink.
pub struct Dump<T, U> {
    upstream: T,
    inner: Option<Inner<U>>,
    calls: Ghost<Seq<UpstreamCall>>,
}

impl<T, U> Dump<T, U> {
    /// Whether the activity is recorded.
    pub closed spec fn capturing(&self) -> bool {
        self.inner is Some
    }

    /// What the capture has done so far; empty when not capturing.
    pub closed spec fn log(&self) -> CaptureLog {
        match self.inner {
            Some(inner) => inner.log@,
            None => empty_log(),
        }
    }

    /// The instant the capture started, when capturing.
    pub closed spec fn start(&self) -> Option<Instant> {
        match self.inner {
            Some(inner) => Some(inner.now),
            None => None,
        }
    }

    /// The calls made to the wrapped handle so far, in order.
    pub closed spec fn upstream_calls(&self) -> Seq<UpstreamCall> {
        self.calls@
    }

    /// The wrapped handle.
    pub closed spec fn upstream(&self) -> T {
        self.upstream
    }

    /// What a read or write did once the wrapped handle answered it with
    /// `count`, over the bytes `data` it read or was handed. An error of the
    /// handle is returned and nothing is recorded. A count `n` is returned as
    /// it is when not capturing; when capturing, the first `n` bytes are
    /// recorded once, and `n` is returned exactly when the record reached the sink.
    pub open spec fn transfer_outcome(
        self,
        after: Self,
        r: std::io::Result<usize>,
        count: Option<nat>,
        dir: Direction,
        data: Seq<u8>,
    ) -> bool {
        &&& after.capturing() == self.capturing()
        &&& after.start() == self.start()
        &&& match count {
            None => r is Err && after.log() == self.log(),
            Some(n) => n <= data.len() && if self.capturing() {
                &&& logged_one(self.log(), after.log(), dir, data.take(n as int))
                &&& r is Ok <==> after.log().writes.last().1
                &&& r matches Ok(m) ==> m == n
            } else {
                &&& after.log() == self.log()
                &&& r matches Ok(m) && m == n
            },
        }
    }
}

impl<T, U: Write> Dump<T, U> {
    /// Creates a `Dump` wrapping `upstream` and recording activity to `dump`.
    /// Neither is called.
    pub fn new(upstream: T, dump: U) -> (r: Dump<T, U>)
        ensures
            r.capturing(),
            r.log() == empty_log(),
            r.upstream_calls() == Seq::<UpstreamCall>::empty(),
            r.upstream() == upstream,
    {
        let log: Ghost<CaptureLog> = Ghost(empty_log());
        let calls: Ghost<Seq<UpstreamCall>> = Ghost(Seq::empty());
        Dump { upstream, inner: Some(Inner { dump, now: Instant::now(), log }), calls }
    }

    /// Creates a `Dump` that passes data through without recording it.
    pub fn noop(upstream: T) -> (r: Dump<T, U>)
        ensures
            !r.capturing(),
            r.log() == empty_log(),
            r.upstream_calls() == Seq::<UpstreamCall>::empty(),
            r.upstream() == upstream,
    {
        let calls: Ghost<Seq<UpstreamCall>> = Ghost(Seq::empty());
        Dump { upstream, inner: None, calls }
    }

    /// Records the first `n` bytes of `data` as a packet when capturing.
    fn record(&mut self, dir: Direction, data: &[u8], n: usize) -> (r: std::io::Result<()>)
        requires
            n <= data@.len(),
        ensures
            final(self).capturing() == old(self).capturing(),
            final(self).start() == old(self).start(),
            final(self).upstream_calls() == old(self).upstream_calls(),
            old(self).capturing() ==> logged_one(old(self).log(), final(self).log(), dir, data@.take(n as int))
                && (r is Ok <==> final(self).log().writes.last().1),
            !old(self).capturing() ==> r is Ok && final(self).log() == old(self).log(),
    {
        match &mut self.inner {
            Some(inner) => {
                let part = &data[0..n];
                assert(part@ =~= data@.take(n as int));
                inner.write_packet(dir, part)
            },
            None => Ok(()),
        }
    }

    /// Reads from the wrapped handle into `dst`, once; when capturing,
    /// records the bytes read as a `Read` packet. Returns the count the
    /// wrapped handle returned, or the first error of the read or of the
    /// recording.
    pub fn read_from(&mut self, dst: &mut [u8]) -> (r: std::io::Result<usize>) where T: Read
        ensures
            final(self).upstream_calls().len() == old(self).upstream_calls().len() + 1,
            final(self).upstream_calls().drop_last() == old(self).upstream_calls(),
            final(self).upstream_calls().last() matches UpstreamCall::Read { len, count } && len == old(dst)@.len()
                && old(self).transfer_outcome(*final(self), r, count, Direction::Read, final(dst)@),
    {
        let ghost len = dst@.len();
        let res = read_upstream(&mut self.upstream, dst);
        let ghost count: Option<nat> = match res {
            Ok(n) => Some(n as nat),
            Err(_) => None,
        };
        let ghost before = self.calls@;
        self.calls = Ghost(self.calls@.push(UpstreamCall::Read { len, count }));
        assert(self.calls@.drop_last() =~= before);
        let n = match res {
            Ok(n) => n,
            Err(e) => return Err(e),
        };
        match self.record(Direction::Read, dst, n) {
            Ok(()) => Ok(n),
            Err(e) => Err(e),
        }
    }

    /// Writes `src` to the wrapped handle, once; when capturing, records the
    /// bytes it accepted as a `Write` packet. Returns the count the wrapped
    /// handle returned, or the first error of the write or of the recording.
    pub fn write_to(&mut self, src: &[u8]) -> (r: std::io::Result<usize>) where T: Write
        ensures
            final(self).upstream_calls() == old(self).upstream_calls().push(
                UpstreamCall::Write { data: src@, count: final(self).upstream_calls().last()->Write_count },
            ),
            old(self).transfer_outcome(
                *final(self),
                r,
                final(self).upstream_calls().last()->Write_count,
                Direction::Write,
                src@,
            ),
    {
        let res = write_upstream(&mut self.upstream, src);
        let ghost count: Option<nat> = match res {
            Ok(n) => Some(n as nat),
            Err(_) => None,
        };
        self.calls = Ghost(self.calls@.push(UpstreamCall::Write { data: src@, count }));
        let n = match res {
            Ok(n) => n,
            Err(e) => return Err(e),
        };
        match self.record(Direction::Write, src, n) {
            Ok(()) => Ok(n),
            Err(e) => Err(e),
        }
    }

    /// Flushes the wrapped handle only, once; the sink is left as it is.
    /// Returns what the wrapped handle's flush returned.
    pub fn flush_upstream(&mut self) -> (r: std::io::Result<()>) where T: Write
        ensures
            final(self).upstream_calls() == old(self).upstream_calls().push(UpstreamCall::Flush { ok: r is Ok }),
            final(self).log() == old(self).log(),
            final(self).capturing() == old(self).capturing(),
            final(self).start() == old(self).start(),
    {
        let r = flush_handle(&mut self.upstream);
        self.calls = Ghost(self.calls@.push(UpstreamCall::Flush { ok: r is Ok }));
        r
    }
}

impl<T> Dump<T, std::io::Stdout> {
    /// Creates a `Dump` wrapping `upstream` and recording activity to the
    /// standard output.
    pub fn to_stdout(upstream: T) -> (r: Dump<T, std::io::Stdout>)
        ensures
            r.capturing(),
            r.log() == empty_log(),
            r.upstream_calls() == Seq::<UpstreamCall>::empty(),
            r.upstream() == upstream,
    {
        Dump::new(upstream, std::io::stdout())
    }
}

impl<T: Read, U: Write> Read for Dump<T, U> {
    fn read(&mut self, dst: &mut [u8]) -> std::io::Result<usize> {
        self.read_from(dst)
    }
}

impl<T: Write, U: Write> Write for Dump<T, U> {
    fn write(&mut self, src: &[u8]) -> std::io::Result<usize> {
        self.write_to(src)
    }

    fn flush(&mut self) -> std::io::Result<()> {
        self.flush_upstream()
    }
}

} // verus!
