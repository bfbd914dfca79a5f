use flico::pico::{gear_ohms, status_text, take_batch, PicoSource, ReadEvent, Reading};
use flico::samples::SharedSamples;

fn frame(range: u8, adc: u16) -> Vec<u8> {
    vec![0xA0 | range, (adc & 0xFF) as u8, (adc >> 8) as u8]
}

#[test]
fn frames_become_readings() {
    let mut buf = frame(2, 0xF34);
    buf.extend(frame(0, 1));
    let batch = take_batch(&mut buf);
    assert_eq!(
        batch.readings,
        vec![Reading { range: 2, adc: 0xF34 }, Reading { range: 0, adc: 1 }]
    );
    assert!(batch.lines.is_empty());
    assert!(buf.is_empty());
}

#[test]
fn items_come_out_as_they_went_in() {
    let mut buf = b"# boot\n".to_vec();
    buf.extend(frame(3, 4095));
    buf.extend(b"# gear 1\r\n");
    buf.extend(frame(1, 0x0A23));
    let batch = take_batch(&mut buf);
    assert_eq!(batch.lines, vec!["# boot".to_string(), "# gear 1".to_string()]);
    assert_eq!(
        batch.readings,
        vec![Reading { range: 3, adc: 4095 }, Reading { range: 1, adc: 0x0A23 }]
    );
    assert!(buf.is_empty());
}

#[test]
fn low_byte_may_look_like_anything() {
    // The low bytes are `#`, a line feed and a sync byte.
    let mut buf = frame(0, 0x123);
    buf.extend(frame(0, 0x20A));
    buf.extend(frame(0, 0x3A1));
    let batch = take_batch(&mut buf);
    let counts: Vec<u16> = batch.readings.iter().map(|r| r.adc).collect();
    assert_eq!(counts, vec![0x123, 0x20A, 0x3A1]);
    assert!(batch.lines.is_empty());
}

#[test]
fn stray_bytes_are_skipped() {
    let mut buf = vec![0x0D, 0x0A, 0x00, 0x7F];
    buf.extend(frame(1, 7));
    buf.push(0xFF);
    let batch = take_batch(&mut buf);
    assert_eq!(batch.readings, vec![Reading { range: 1, adc: 7 }]);
    assert!(buf.is_empty());
}

#[test]
fn frame_with_a_bad_high_nibble_is_no_frame() {
    // The third byte has bits in its high nibble, so the sync byte is dropped and reading goes
    // on with the next byte.
    let mut buf = vec![0xA1, 0xA2, 0x10, 0x03];
    let batch = take_batch(&mut buf);
    assert_eq!(batch.readings, vec![Reading { range: 2, adc: 0x310 }]);
}

#[test]
fn open_line_waits_for_its_end() {
    let mut src = PicoSource::new();
    let first = src.on_read(ReadEvent::Bytes(b"\xA0\x05\x00# ra".to_vec())).unwrap();
    assert_eq!(first.readings, vec![Reading { range: 0, adc: 5 }]);
    assert!(first.lines.is_empty());
    let idle = src.on_read(ReadEvent::TimedOut).unwrap();
    assert!(idle.readings.is_empty() && idle.lines.is_empty());
    let second = src.on_read(ReadEvent::Bytes(b"nge 2 \n\xA2\x01\x00".to_vec())).unwrap();
    assert_eq!(second.lines, vec!["# range 2".to_string()]);
    assert_eq!(second.readings, vec![Reading { range: 2, adc: 1 }]);
}

#[test]
fn cuts_between_pieces_lose_nothing() {
    let mut whole = frame(0, 100);
    whole.extend(b"# x\n");
    whole.extend(frame(1, 200));
    // After the first frame, inside the line, after the line.
    for cut in [3, 5, 7] {
        let mut src = PicoSource::new();
        let a = src.on_read(ReadEvent::Bytes(whole[..cut].to_vec())).unwrap();
        let b = src.on_read(ReadEvent::Bytes(whole[cut..].to_vec())).unwrap();
        let mut counts: Vec<u16> = a.readings.iter().map(|r| r.adc).collect();
        counts.extend(b.readings.iter().map(|r| r.adc));
        assert_eq!(counts, vec![100, 200]);
        assert_eq!(a.lines.len() + b.lines.len(), 1);
    }
}

#[test]
fn broken_frame_is_dropped() {
    let mut src = PicoSource::new();
    let a = src.on_read(ReadEvent::Bytes(vec![0xA0])).unwrap();
    assert!(a.readings.is_empty());
    let b = src.on_read(ReadEvent::Bytes(vec![0x10, 0x00])).unwrap();
    assert!(b.readings.is_empty());
}

#[test]
fn failed_read_ends_the_source() {
    let mut src = PicoSource::new();
    assert!(src.on_read(ReadEvent::Failed).is_none());
}

#[test]
fn status_text_is_trimmed_and_must_be_utf8() {
    assert_eq!(status_text(b"#  ready \t\r"), "#  ready");
    assert_eq!(status_text("# 10 \u{03BC}A\u{2003}".as_bytes()), "# 10 \u{03BC}A");
    assert_eq!(status_text(b"# \xFF\xFE"), "");
}

#[test]
fn resistances_of_the_ranges() {
    assert_eq!(gear_ohms(0), 1_100);
    assert_eq!(gear_ohms(1), 10_100);
    assert_eq!(gear_ohms(2), 100_100);
    assert_eq!(gear_ohms(3), 1_000_100);
    assert_eq!(gear_ohms(4), 1_000_100);
    assert_eq!(gear_ohms(15), 1_000_100);
}

#[test]
fn samples_of_a_pause_are_counted_and_not_kept() {
    let mut src = PicoSource::new();
    let mut buffer: SharedSamples<f32> = SharedSamples::new();
    src.accept(&mut buffer, &vec![1.0, 2.0], true);
    src.accept(&mut buffer, &vec![3.0], false);
    src.accept(&mut buffer, &vec![4.0], true);
    assert_eq!(buffer.take_snapshot(), vec![1.0, 2.0, 4.0]);
    assert_eq!(src.samples_emitted_count(), 4);
}
