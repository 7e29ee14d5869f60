use io_dump::format::write_data_line;
use io_dump::parse::parse_seconds;
use io_dump::reader::parse_header;
use io_dump::{encode_packet, millis, Direction, Dump, DumpRead, FormatError, Packet};

use std::io::{BufRead, Read, Write};

fn decode_all(text: &[u8]) -> Result<Vec<Packet>, FormatError> {
    let mut reader = DumpRead::new();
    let mut out = Vec::new();
    for line in text.lines() {
        let line = line.unwrap();
        if let Some(p) = reader.feed_line(line.as_bytes())? {
            out.push(p);
        }
    }
    if let Some(p) = reader.finish() {
        out.push(p);
    }
    Ok(out)
}

fn text(bytes: &[u8]) -> String {
    String::from_utf8(bytes.to_vec()).unwrap()
}

#[test]
fn end_to_end_two_records() {
    let mut log = encode_packet(Direction::Write, 1, &[0x50, 0x52, 0x49]);
    log.extend(encode_packet(Direction::Read, 2, &[]));
    let expected = format!(
        "<-  0.001s  3 bytes\n50 52 49 {}     P R I\n\n->  0.002s  0 bytes\n\n",
        "   ".repeat(22)
    );
    assert_eq!(text(&log), expected);

    let packets = decode_all(&log).unwrap();
    assert_eq!(packets.len(), 2);
    assert_eq!(packets[0].direction(), Direction::Write);
    assert_eq!(packets[0].data(), &[0x50, 0x52, 0x49]);
    assert_eq!(packets[0].elapsed(), 1);
    assert_eq!(packets[1].direction(), Direction::Read);
    assert_eq!(packets[1].data(), &[] as &[u8]);
    assert_eq!(packets[1].elapsed(), 2);
}

#[test]
fn encoding_twice_is_identical() {
    let data: Vec<u8> = (0..=255u8).collect();
    let a = encode_packet(Direction::Read, 12_345, &data);
    let b = encode_packet(Direction::Read, 12_345, &data);
    assert_eq!(a, b);
}

#[test]
fn zero_length_payload() {
    let log = encode_packet(Direction::Read, 0, &[]);
    assert_eq!(text(&log), "->  0.000s  0 bytes\n\n");
    let packets = decode_all(&log).unwrap();
    assert_eq!(packets.len(), 1);
    assert!(packets[0].data().is_empty());
}

#[test]
fn full_row_has_no_padding() {
    let data: Vec<u8> = (0x41..0x41 + 25).collect();
    let log = text(&encode_packet(Direction::Write, 0, &data));
    let lines: Vec<&str> = log.split('\n').collect();
    assert_eq!(lines.len(), 4);
    assert_eq!(lines[2], "");
    let hex: String = data.iter().map(|b| format!("{:02X} ", b)).collect();
    let ascii: String = data.iter().map(|b| format!(" {}", *b as char)).collect();
    assert_eq!(lines[1], format!("{}    {}", hex, ascii));
}

#[test]
fn row_of_twenty_six_wraps() {
    let data: Vec<u8> = vec![7u8; 26];
    let log = text(&encode_packet(Direction::Write, 0, &data));
    let lines: Vec<&str> = log.split('\n').collect();
    assert_eq!(lines.len(), 5);
    assert_eq!(lines[2], format!("07 {}    \\?", "   ".repeat(24)));
    assert_eq!(lines[1].len(), 75 + 4 + 50);
    let packets = decode_all(log.as_bytes()).unwrap();
    assert_eq!(packets[0].data(), &data[..]);
}

#[test]
fn byte_classes_render_as_two_characters() {
    let mut out = Vec::new();
    write_data_line(&mut out, &[0, 9, 10, 13, 65, 200]);
    let line = text(&out);
    assert_eq!(&line[75..], "    \\0\\t\\n\\r A\\?\n");
    assert_eq!(&line[..18], "00 09 0A 0D 41 C8 ");
}

#[test]
fn header_with_three_tokens_is_rejected() {
    assert_eq!(parse_header(b"<-  0.001s  3"), Err(FormatError::TokenCount));
    let mut reader = DumpRead::new();
    assert_eq!(reader.feed_line(b"<-  0.001s  3").unwrap_err(), FormatError::TokenCount);
}

#[test]
fn unknown_direction_is_rejected() {
    assert_eq!(parse_header(b"=>  0.001s  3 bytes"), Err(FormatError::Direction));
}

#[test]
fn bad_elapsed_is_rejected() {
    assert_eq!(parse_header(b"<-  abc  3 bytes"), Err(FormatError::Elapsed));
    assert_eq!(parse_header(b"<-  0.001  3 bytes"), Err(FormatError::Elapsed));
}

#[test]
fn header_parses_direction_and_millis() {
    assert_eq!(parse_header(b"<-  1.250s  3 bytes"), Ok(Some((Direction::Write, 1250))));
    assert_eq!(parse_header(b"->\t0.013s 9 bytes"), Ok(Some((Direction::Read, 13))));
    assert_eq!(parse_header(b"   "), Ok(None));
    assert_eq!(parse_header(b"// a comment"), Ok(None));
}

#[test]
fn bad_hex_digit_stops_the_reader() {
    let mut reader = DumpRead::new();
    assert!(reader.feed_line(b"<-  0.001s  1 bytes").unwrap().is_none());
    assert_eq!(reader.feed_line(b"ZZ     ").unwrap_err(), FormatError::HexDigit);
    assert_eq!(reader.feed_line(b"").unwrap_err(), FormatError::HexDigit);
    assert!(reader.finish().is_none());
}

#[test]
fn comments_and_blank_lines_are_skipped() {
    let log = "// preface\n\n<-  0.001s  2 bytes\n0d 0A     \\r\\n\n\n// next\n->  0.013s  0 bytes\n";
    let packets = decode_all(log.as_bytes()).unwrap();
    assert_eq!(packets.len(), 2);
    assert_eq!(packets[0].data(), &[13, 10]);
    assert_eq!(packets[1].direction(), Direction::Read);
    assert_eq!(packets[1].elapsed(), 13);
}

#[test]
fn truncated_record_ends_at_end_of_input() {
    let log = "->  0.002s  1 bytes\nFF     \\?";
    let packets = decode_all(log.as_bytes()).unwrap();
    assert_eq!(packets.len(), 1);
    assert_eq!(packets[0].data(), &[255]);
}

#[test]
fn elapsed_seconds_parse() {
    assert_eq!(parse_seconds(b"1.250s"), Some(1250));
    assert_eq!(parse_seconds(b"0.0015s"), Some(1));
    assert_eq!(parse_seconds(b"2s"), Some(2000));
    assert_eq!(parse_seconds(b".5s"), Some(500));
    assert_eq!(parse_seconds(b"3.s"), Some(3000));
    assert_eq!(parse_seconds(b"1.5"), None);
    assert_eq!(parse_seconds(b"s"), None);
    assert_eq!(parse_seconds(b".s"), None);
    assert_eq!(parse_seconds(b"1e3s"), None);
    assert_eq!(parse_seconds(b"99999999999999999999s"), Some(u64::MAX));
}

#[test]
fn millis_rounds_up_and_saturates() {
    assert_eq!(millis(0, 0), 0);
    assert_eq!(millis(0, 1), 1);
    assert_eq!(millis(1, 1_000_000), 1001);
    assert_eq!(millis(1, 1_000_001), 1002);
    assert_eq!(millis(2, 999_999_999), 3000);
    assert_eq!(millis(u64::MAX, 0), u64::MAX);
    assert_eq!(millis(u64::MAX / 1000, 999_999_999), u64::MAX);
}

#[test]
fn large_elapsed_is_written_exactly() {
    let log = encode_packet(Direction::Write, 123_456_789, &[]);
    assert_eq!(text(&log), "<-  123456.789s  0 bytes\n\n");
    let packets = decode_all(&log).unwrap();
    assert_eq!(packets[0].elapsed(), 123_456_789);
}

#[test]
fn decorator_records_reads_and_writes() {
    let mut sink: Vec<u8> = Vec::new();
    {
        let upstream = std::io::Cursor::new(vec![1u8, 2, 3, 4]);
        let mut dump = Dump::new(upstream, &mut sink);
        let mut buf = [0u8; 3];
        assert_eq!(dump.read(&mut buf).unwrap(), 3);
        assert_eq!(buf, [1, 2, 3]);
        assert_eq!(dump.read(&mut buf).unwrap(), 1);
        assert_eq!(dump.read(&mut buf).unwrap(), 0);
    }
    let packets = decode_all(&sink).unwrap();
    assert_eq!(packets.len(), 3);
    assert!(packets.iter().all(|p| p.direction() == Direction::Read));
    assert_eq!(packets[0].data(), &[1, 2, 3]);
    assert_eq!(packets[1].data(), &[4]);
    assert!(packets[2].data().is_empty());
    assert!(packets[0].elapsed() <= packets[1].elapsed());
}

#[test]
fn decorator_write_passes_through() {
    let mut sink: Vec<u8> = Vec::new();
    let mut upstream: Vec<u8> = Vec::new();
    {
        let mut dump = Dump::new(&mut upstream, &mut sink);
        assert_eq!(dump.write(b"hi").unwrap(), 2);
        dump.flush().unwrap();
    }
    assert_eq!(upstream, b"hi");
    let packets = decode_all(&sink).unwrap();
    assert_eq!(packets.len(), 1);
    assert_eq!(packets[0].direction(), Direction::Write);
    assert_eq!(packets[0].data(), b"hi");
}

#[test]
fn noop_decorator_records_nothing() {
    let mut upstream: Vec<u8> = Vec::new();
    {
        let mut dump: Dump<&mut Vec<u8>, Vec<u8>> = Dump::noop(&mut upstream);
        assert_eq!(dump.write(b"abc").unwrap(), 3);
    }
    assert_eq!(upstream, b"abc");
}

#[test]
fn packet_accessors() {
    let p = Packet::new(Direction::Read, 42, vec![1, 2]);
    assert_eq!(p.direction(), Direction::Read);
    assert_eq!(p.elapsed(), 42);
    assert_eq!(p.data(), &[1, 2]);
}

#[test]
fn stdout_decorator_passes_through() {
    let mut upstream: Vec<u8> = Vec::new();
    {
        let mut dump = Dump::to_stdout(&mut upstream);
        assert_eq!(dump.write(&[0x50, 0x52, 0x49]).unwrap(), 3);
    }
    assert_eq!(upstream, vec![0x50, 0x52, 0x49]);
}

#[test]
fn noop_decorator_read_passes_through() {
    let upstream = std::io::Cursor::new(vec![9u8, 8]);
    let mut dump: Dump<std::io::Cursor<Vec<u8>>, Vec<u8>> = Dump::noop(upstream);
    let mut buf = [0u8; 4];
    assert_eq!(dump.read(&mut buf).unwrap(), 2);
    assert_eq!(&buf[..2], &[9, 8]);
}

struct Failing;

impl Write for Failing {
    fn write(&mut self, _buf: &[u8]) -> std::io::Result<usize> {
        Err(std::io::Error::new(std::io::ErrorKind::Other, "refused"))
    }

    fn flush(&mut self) -> std::io::Result<()> {
        Err(std::io::Error::new(std::io::ErrorKind::Other, "refused"))
    }
}

impl Read for Failing {
    fn read(&mut self, _buf: &mut [u8]) -> std::io::Result<usize> {
        Err(std::io::Error::new(std::io::ErrorKind::Other, "refused"))
    }
}

#[test]
fn upstream_error_is_returned_and_nothing_recorded() {
    let mut sink: Vec<u8> = Vec::new();
    {
        let mut dump = Dump::new(Failing, &mut sink);
        let err = dump.write(b"abc").unwrap_err();
        assert_eq!(err.to_string(), "refused");
        let mut buf = [0u8; 2];
        assert!(dump.read(&mut buf).is_err());
        assert!(dump.flush().is_err());
    }
    assert!(sink.is_empty());
}

#[test]
fn sink_error_fails_the_call() {
    let mut upstream: Vec<u8> = Vec::new();
    {
        let mut dump = Dump::new(&mut upstream, Failing);
        let err = dump.write(b"abc").unwrap_err();
        assert_eq!(err.to_string(), "refused");
    }
    assert_eq!(upstream, b"abc");
}
