//! The line-driven reader: header lines, data rows and terminators turned
//! back into packets, one line at a time.
use vstd::prelude::*;

use crate::format::marker;
use crate::packet::{Direction, Packet, PacketModel};
use crate::parse::{decode_row, parse_seconds, scan_row, seconds_millis, tokens, tokens_of, FormatError};

verus! {

/// The token that starts a comment line.
pub open spec fn comment_token() -> Seq<u8> {
    seq![47u8, 47u8]
}

/// What a line read while waiting for a header stands for: `Ok(None)` for a
/// blank or comment line, the direction and elapsed milliseconds of a header,
/// or the reason it is malformed.
pub open spec fn header_of(line: Seq<u8>) -> Result<Option<(Direction, u64)>, FormatError> {
    let t = tokens(line);
    if t.len() == 0 || t[0] == comment_token() {
        Ok(None)
    } else if t.len() != 4 {
        Err(FormatError::TokenCount)
    } else if t[0] != marker(Direction::Write) && t[0] != marker(Direction::Read) {
        Err(FormatError::Direction)
    } else {
        match seconds_millis(t[1]) {
            None => Err(FormatError::Elapsed),
            Some(ms) => Ok(
                Some(
                    (
                        if t[0] == marker(Direction::Write) {
                            Direction::Write
                        } else {
                            Direction::Read
                        },
                        ms,
                    ),
                ),
            ),
        }
    }
}

fn is_pair(t: &Vec<u8>, a: u8, b: u8) -> (r: bool)
    ensures
        r == (t@ == seq![a, b]),
{
    if t.len() == 2 && t[0] == a && t[1] == b {
        assert(t@ =~= seq![a, b]);
        true
    } else {
        false
    }
}

/// Parses a line met while waiting for a header.
pub fn parse_header(line: &[u8]) -> (r: Result<Option<(Direction, u64)>, FormatError>)
    ensures
        r == header_of(line@),
{
    let t = tokens_of(line);
    if t.len() == 0 || is_pair(&t[0], 47, 47) {
        return Ok(None);
    }
    if t.len() != 4 {
        return Err(FormatError::TokenCount);
    }
    assert(t@[0]@ == tokens(line@)[0]);
    assert(t@[1]@ == tokens(line@)[1]);
    let dir = if is_pair(&t[0], 60, 45) {
        Direction::Write
    } else if is_pair(&t[0], 45, 62) {
        Direction::Read
    } else {
        return Err(FormatError::Direction);
    };
    match parse_seconds(t[1].as_slice()) {
        None => Err(FormatError::Elapsed),
        Some(ms) => Ok(Some((dir, ms))),
    }
}

/// Where the reader stands between lines.
pub enum ReadState {
    /// Looking for the next header line.
    AwaitingHeader,
    /// Inside the body of a record whose header has been read.
    ReadingBody { direction: Direction, elapsed: u64, data: Seq<u8> },
    /// Stopped by a malformed line; no further packets come.
    Failed { error: FormatError },
}

/// What feeding one line produced.
pub enum Step {
    /// Nothing yet.
    Nothing,
    /// A completed packet.
    Emit(PacketModel),
    /// A format error.
    Fail(FormatError),
}

/// The packet a record body stands for.
pub open spec fn body_packet(direction: Direction, elapsed: u64, data: Seq<u8>) -> PacketModel {
    PacketModel { direction, elapsed: elapsed as nat, data }
}

/// The reader's next state and output after one more line.
pub open spec fn step(st: ReadState, line: Seq<u8>) -> (ReadState, Step) {
    match st {
        ReadState::Failed { error } => (st, Step::Fail(error)),
        ReadState::AwaitingHeader => match header_of(line) {
            Err(e) => (ReadState::Failed { error: e }, Step::Fail(e)),
            Ok(None) => (ReadState::AwaitingHeader, Step::Nothing),
            Ok(Some((d, ms))) => (
                ReadState::ReadingBody { direction: d, elapsed: ms, data: seq![] },
                Step::Nothing,
            ),
        },
        ReadState::ReadingBody { direction, elapsed, data } => {
            if line.len() == 0 {
                (ReadState::AwaitingHeader, Step::Emit(body_packet(direction, elapsed, data)))
            } else {
                match scan_row(line, 0) {
                    Some(row) => (
                        ReadState::ReadingBody { direction, elapsed, data: data + row },
                        Step::Nothing,
                    ),
                    None => (
                        ReadState::Failed { error: FormatError::HexDigit },
                        Step::Fail(FormatError::HexDigit),
                    ),
                }
            }
        },
    }
}

/// The reader's state and output when the input ends: a record still open
/// is completed as if a blank line followed.
pub open spec fn end_of_input(st: ReadState) -> (ReadState, Option<PacketModel>) {
    match st {
        ReadState::ReadingBody { direction, elapsed, data } => (
            ReadState::AwaitingHeader,
            Some(body_packet(direction, elapsed, data)),
        ),
        _ => (st, None),
    }
}

/// The packets of a whole sequence of lines read from state `st`, or the first
/// format error met.
pub open spec fn decode_from(st: ReadState, lines: Seq<Seq<u8>>) -> Result<Seq<PacketModel>, FormatError>
    decreases lines.len(),
{
    if lines.len() == 0 {
        match end_of_input(st).1 {
            Some(p) => Ok(seq![p]),
            None => Ok(seq![]),
        }
    } else {
        let (next, out) = step(st, lines[0]);
        match out {
            Step::Fail(e) => Err(e),
            Step::Emit(p) => match decode_from(next, lines.drop_first()) {
                Ok(ps) => Ok(seq![p] + ps),
                Err(e) => Err(e),
            },
            Step::Nothing => decode_from(next, lines.drop_first()),
        }
    }
}

/// The packets of a whole dump given as lines.
pub open spec fn decode_lines(lines: Seq<Seq<u8>>) -> Result<Seq<PacketModel>, FormatError> {
    decode_from(ReadState::AwaitingHeader, lines)
}

/// The step that an exec result stands for.
pub open spec fn step_of(r: Result<Option<Packet>, FormatError>) -> Step {
    match r {
        Ok(None) => Step::Nothing,
        Ok(Some(p)) => Step::Emit(p@),
        Err(e) => Step::Fail(e),
    }
}

/// Reads the contents of a dump, fed one line at a time.
#[derive(Debug)]
pub struct DumpRead {
    in_body: bool,
    error: Option<FormatError>,
    direction: Direction,
    elapsed: u64,
    data: Vec<u8>,
}

impl View for DumpRead {
    type V = ReadState;

    closed spec fn view(&self) -> ReadState {
        match self.error {
            Some(e) => ReadState::Failed { error: e },
            None => if self.in_body {
                ReadState::ReadingBody {
                    direction: self.direction,
                    elapsed: self.elapsed,
                    data: self.data@,
                }
            } else {
                ReadState::AwaitingHeader
            },
        }
    }
}

impl DumpRead {
    /// A reader waiting for its first header line.
    pub fn new() -> (r: DumpRead)
        ensures
            r@ == ReadState::AwaitingHeader,
    {
        DumpRead {
            in_body: false,
            error: None,
            direction: Direction::Read,
            elapsed: 0,
            data: Vec::new(),
        }
    }

    fn take_packet(&mut self) -> (r: Packet)
        requires
            old(self).error.is_none(),
            old(self).in_body,
        ensures
            final(self)@ == ReadState::AwaitingHeader,
            r@ == body_packet(old(self).direction, old(self).elapsed, old(self).data@),
    {
        let mut data: Vec<u8> = Vec::new();
        std::mem::swap(&mut data, &mut self.data);
        self.in_body = false;
        Packet::new(self.direction, self.elapsed, data)
    }

    /// Feeds the next line of the dump, without its line terminator. Returns
    /// the packet that the line completes, if any.
    pub fn feed_line(&mut self, line: &[u8]) -> (r: Result<Option<Packet>, FormatError>)
        ensures
            step(old(self)@, line@) == (final(self)@, step_of(r)),
    {
        if let Some(e) = self.error {
            return Err(e);
        }
        if !self.in_body {
            match parse_header(line) {
                Err(e) => {
                    self.error = Some(e);
                    Err(e)
                },
                Ok(None) => Ok(None),
                Ok(Some((d, ms))) => {
                    self.in_body = true;
                    self.direction = d;
                    self.elapsed = ms;
                    self.data = Vec::new();
                    assert(self.data@ =~= Seq::<u8>::empty());
                    Ok(None)
                },
            }
        } else if line.len() == 0 {
            Ok(Some(self.take_packet()))
        } else {
            if decode_row(line, &mut self.data) {
                Ok(None)
            } else {
                self.error = Some(FormatError::HexDigit);
                Err(FormatError::HexDigit)
            }
        }
    }

    /// Signals the end of the input. Returns the packet of a record still
    /// open, which ends there as if a blank line followed.
    pub fn finish(&mut self) -> (r: Option<Packet>)
        ensures
            end_of_input(old(self)@) == (final(self)@, match r {
                Some(p) => Some(p@),
                None => None::<PacketModel>,
            }),
    {
        if self.error.is_none() && self.in_body {
            Some(self.take_packet())
        } else {
            None
        }
    }
}

} // verus!
