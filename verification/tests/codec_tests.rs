use piper_speechd::codec::{decode_payload, encode_payload};
use piper_speechd::frame::encode_frame;

#[test]
fn encode_leaves_plain_bytes_alone() {
    let audio: Vec<u8> = vec![0x01, 0x02, 0x41, 0xff, 0x00];
    let wire = encode_payload(&audio);
    assert_eq!(wire, audio);
}

#[test]
fn encode_escapes_newline_and_marker() {
    let audio: Vec<u8> = vec![0x0a, 0x7d, 0x41];
    let wire = encode_payload(&audio);
    assert_eq!(wire, vec![0x7d, 0x2a, 0x7d, 0x5d, 0x41]);
}

#[test]
fn encode_empty_buffer() {
    let audio: Vec<u8> = Vec::new();
    let wire = encode_payload(&audio);
    assert!(wire.is_empty());
}

#[test]
fn decode_undoes_encode() {
    let audio: Vec<u8> = vec![0x00, 0x0a, 0x7d, 0x2a, 0x5d, 0x0a, 0x0a, 0x7d, 0x7d, 0xfe];
    let wire = encode_payload(&audio);
    let back = decode_payload(&wire);
    assert_eq!(back, audio);
}

#[test]
fn decode_undoes_encode_on_all_single_bytes() {
    for b in 0..=255u8 {
        let audio: Vec<u8> = vec![b];
        let wire = encode_payload(&audio);
        let back = decode_payload(&wire);
        assert_eq!(back, audio);
        for w in &wire[..wire.len() - 1] {
            // no raw newline anywhere, and a marker only as a pair opener
            assert_ne!(*w, 0x0a);
        }
        assert_ne!(*wire.last().unwrap(), 0x0a);
        assert_ne!(*wire.last().unwrap(), 0x7d);
    }
}

#[test]
fn frame_block_carries_header_payload_and_terminator() {
    let audio: Vec<u8> = vec![0x01, 0x02, 0x03, 0x04];
    let block = encode_frame(&audio, 2, 1, 22050);
    let expected: Vec<u8> = [
        &b"705-bits=16\n"[..],
        &b"705-num_channels=1\n"[..],
        &b"705-sample_rate=22050\n"[..],
        &b"705-num_samples=2\n"[..],
        &b"705-AUDIO\x00"[..],
        &[0x01, 0x02, 0x03, 0x04][..],
        &b"\n705 AUDIO\n"[..],
    ]
    .concat();
    assert_eq!(block, expected);
}

#[test]
fn frame_block_escapes_its_payload() {
    let audio: Vec<u8> = vec![0x0a];
    let block = encode_frame(&audio, 1, 2, 8000);
    let expected: Vec<u8> = [
        &b"705-bits=8\n"[..],
        &b"705-num_channels=2\n"[..],
        &b"705-sample_rate=8000\n"[..],
        &b"705-num_samples=1\n"[..],
        &b"705-AUDIO\x00"[..],
        &[0x7d, 0x2a][..],
        &b"\n705 AUDIO\n"[..],
    ]
    .concat();
    assert_eq!(block, expected);
}

#[test]
fn sample_count_divides_bytes_by_width() {
    let audio: Vec<u8> = vec![0; 7];
    let block = encode_frame(&audio, 2, 1, 16000);
    let text = String::from_utf8_lossy(&block).to_string();
    assert!(text.contains("705-num_samples=3\n"));
}
