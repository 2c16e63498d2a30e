use rtcm_parser::rtcm_parser::{build_frame, RtcmParser};

const FOUR_BYTE_FRAME: [u8; 10] = [0xD3, 0x00, 0x04, 0x3E, 0xD0, 0x00, 0x03, 0x09, 0x23, 0xD9];

// A station-coordinate message as published with the RTCM 3 standard.
const STATION_FRAME: [u8; 25] = [
    0xD3, 0x00, 0x13, 0x3E, 0xD7, 0xD3, 0x02, 0x02, 0x98, 0x0E, 0xDE, 0xEF, 0x34, 0xB4, 0xBD, 0x62,
    0xAC, 0x09, 0x41, 0x98, 0x6F, 0x33, 0x36, 0x0B, 0x98,
];

fn checksum(data: &[u8]) -> u64 {
    let mut crc = crc_any::CRC::create_crc(0x1864CFB, 24, 0, 0, false);
    crc.digest(data);
    crc.get_crc()
}

#[test]
fn four_byte_frame_is_extracted_whole() {
    let mut parser = RtcmParser::new();
    let frames = parser.parse(&FOUR_BYTE_FRAME);
    assert_eq!(frames, vec![FOUR_BYTE_FRAME.to_vec()]);
    assert_eq!(frames[0].len(), 10);
    assert!(parser.buffered().is_empty());
}

#[test]
fn flipped_checksum_byte_yields_nothing_then_preamble_is_skipped() {
    let mut bad = FOUR_BYTE_FRAME;
    bad[9] ^= 0x01;
    let mut parser = RtcmParser::new();
    assert!(parser.parse(&bad).is_empty());
    assert_eq!(parser.buffered(), &bad[..]);
    let frames = parser.parse(&FOUR_BYTE_FRAME);
    assert_eq!(frames, vec![FOUR_BYTE_FRAME.to_vec()]);
    assert!(parser.buffered().is_empty());
}

#[test]
fn published_station_frame_checks_out() {
    let mut parser = RtcmParser::new();
    let frames = parser.parse(&STATION_FRAME);
    assert_eq!(frames, vec![STATION_FRAME.to_vec()]);
}

#[test]
fn build_frame_appends_the_checksum() {
    let frame = build_frame(&FOUR_BYTE_FRAME[3..7]).unwrap();
    assert_eq!(frame, FOUR_BYTE_FRAME.to_vec());
    let station = build_frame(&STATION_FRAME[3..22]).unwrap();
    assert_eq!(station, STATION_FRAME.to_vec());
    assert_eq!(checksum(&[0xD3, 0x00, 0x00]), 0x47EA4B);
    assert_eq!(build_frame(&[]).unwrap(), vec![0xD3, 0x00, 0x00, 0x47, 0xEA, 0x4B]);
}

#[test]
fn build_frame_refuses_oversized_payload() {
    assert!(build_frame(&vec![0u8; 1024]).is_none());
    let frame = build_frame(&vec![0x55u8; 1023]).unwrap();
    assert_eq!(frame.len(), 1029);
    assert_eq!(frame[1], 0x03);
    assert_eq!(frame[2], 0xFF);
    let mut parser = RtcmParser::new();
    assert_eq!(parser.parse(&frame), vec![frame.clone()]);
}

#[test]
fn frame_split_across_calls_waits_for_the_rest() {
    let mut parser = RtcmParser::new();
    assert!(parser.parse(&STATION_FRAME[..12]).is_empty());
    assert_eq!(parser.buffered(), &STATION_FRAME[..12]);
    let frames = parser.parse(&STATION_FRAME[12..]);
    assert_eq!(frames, vec![STATION_FRAME.to_vec()]);
}

#[test]
fn back_to_back_frames_and_noise() {
    let mut stream = vec![0x00, 0x11, 0xD3];
    stream.extend_from_slice(&[0x00, 0x00, 0x01, 0x02, 0x03, 0x04]);
    stream.extend_from_slice(&STATION_FRAME);
    stream.extend_from_slice(&FOUR_BYTE_FRAME);
    stream.extend_from_slice(&[0x42, 0x43]);
    let mut parser = RtcmParser::new();
    let frames = parser.parse(&stream);
    assert_eq!(frames, vec![STATION_FRAME.to_vec(), FOUR_BYTE_FRAME.to_vec()]);
    assert_eq!(parser.buffered(), &[0x42, 0x43]);
}

#[test]
fn chunking_does_not_change_the_frames() {
    let mut stream = vec![0x07, 0xD3, 0x00, 0x01, 0x00, 0x00, 0x00, 0x00];
    stream.extend_from_slice(&STATION_FRAME);
    stream.extend_from_slice(&[0xD3, 0x00, 0x00, 0x11, 0x22, 0x33]);
    stream.extend_from_slice(&FOUR_BYTE_FRAME);
    stream.extend_from_slice(&FOUR_BYTE_FRAME);
    stream.extend_from_slice(&[0xD3, 0x00]);

    let mut whole = RtcmParser::new();
    let all_at_once = whole.parse(&stream);

    let mut bytewise = RtcmParser::new();
    let mut one_at_a_time = Vec::new();
    for b in &stream {
        one_at_a_time.extend(bytewise.parse(&[*b]));
    }
    assert_eq!(all_at_once, one_at_a_time);
    assert_eq!(whole.buffered(), bytewise.buffered());
    assert_eq!(
        all_at_once,
        vec![STATION_FRAME.to_vec(), FOUR_BYTE_FRAME.to_vec(), FOUR_BYTE_FRAME.to_vec()]
    );
}

fn corrupted_station_frame() -> Vec<u8> {
    let mut corrupted = STATION_FRAME;
    corrupted[8] = 0xD3;
    corrupted[9] = 0x00;
    corrupted[10] = 0x00;
    corrupted.to_vec()
}

#[test]
fn preamble_injected_in_a_payload_does_not_hide_the_next_frame() {
    let mut stream = corrupted_station_frame();
    stream.extend_from_slice(&FOUR_BYTE_FRAME);
    stream.extend_from_slice(&vec![0u8; 520]);
    let mut parser = RtcmParser::new();
    let frames = parser.parse(&stream);
    assert_eq!(frames, vec![FOUR_BYTE_FRAME.to_vec()]);
    assert_eq!(parser.buffered().len(), 520);
}

#[test]
fn incomplete_candidate_holds_the_scan_until_more_bytes_arrive() {
    // The payload byte 0xD3 at offset 5 announces 514 bytes: the scan waits.
    let mut stream = corrupted_station_frame();
    stream.extend_from_slice(&FOUR_BYTE_FRAME);
    let mut parser = RtcmParser::new();
    assert!(parser.parse(&stream).is_empty());
    assert_eq!(parser.buffered(), &stream[..]);
    let frames = parser.parse(&vec![0u8; 520]);
    assert_eq!(frames, vec![FOUR_BYTE_FRAME.to_vec()]);
}

#[test]
fn retained_bytes_never_exceed_the_bound() {
    let mut parser = RtcmParser::with_max_size(16);
    assert_eq!(parser.max_size(), 16);
    for k in 0..50u8 {
        let noise = [k, 0xD3, 0x03, 0xFF, k.wrapping_mul(7), 0x00, 0x01];
        assert!(parser.parse(&noise).is_empty());
        assert!(parser.buffered().len() <= 16);
    }
    assert_eq!(parser.buffered().len(), 16);
    let mut default = RtcmParser::new();
    assert_eq!(default.max_size(), 10000);
    let noise = vec![0xD3u8; 25000];
    assert!(default.parse(&noise).is_empty());
    assert_eq!(default.buffered().len(), 10000);
}

#[test]
fn short_input_is_kept() {
    let mut parser = RtcmParser::new();
    assert!(parser.parse(&[0xD3, 0x00]).is_empty());
    assert_eq!(parser.buffered(), &[0xD3, 0x00]);
    assert!(parser.parse(&[]).is_empty());
    assert_eq!(parser.buffered(), &[0xD3, 0x00]);
}

#[test]
fn a_bound_smaller_than_a_frame_loses_it_when_fed_bytewise() {
    let mut whole = RtcmParser::with_max_size(4);
    assert_eq!(whole.parse(&FOUR_BYTE_FRAME), vec![FOUR_BYTE_FRAME.to_vec()]);
    let mut bytewise = RtcmParser::with_max_size(4);
    let mut found = Vec::new();
    for b in &FOUR_BYTE_FRAME {
        found.extend(bytewise.parse(&[*b]));
        assert!(bytewise.buffered().len() <= 4);
    }
    assert!(found.is_empty());
}
