use morpheus_serial::codec::ChecksumMismatch;
use morpheus_serial::codec::Decoder;
use morpheus_serial::codec::DecoderState;
use morpheus_serial::codec::decoder_step;
use morpheus_serial::codec::encode;

#[test]
fn encodes_get_version_payload() {
    let payload: Vec<u8> = vec![0x01, 0x02];
    let frame = encode(&payload);
    assert_eq!(frame, vec![0x55, 0xAA, 0x06, 0x01, 0x02, 0x09]);
}

#[test]
fn encodes_empty_payload() {
    let payload: Vec<u8> = Vec::new();
    let frame = encode(&payload);
    assert_eq!(frame, vec![0x55, 0xAA, 0x04, 0x04]);
}

#[test]
fn encodes_with_wrapping_checksum() {
    let payload: Vec<u8> = vec![0xFF, 0xFF];
    let frame = encode(&payload);
    // 6 + 255 + 255 = 516, and 516 mod 256 = 4
    assert_eq!(frame, vec![0x55, 0xAA, 0x06, 0xFF, 0xFF, 0x04]);
}

#[test]
fn decodes_get_version_frame() {
    let mut dec = Decoder::new();
    let (payloads, diags) = dec.feed(&[0x55, 0xAA, 0x06, 0x01, 0x02, 0x09]);
    assert_eq!(payloads, vec![vec![0x01, 0x02]]);
    assert!(diags.is_empty());
}

#[test]
fn round_trip_empty_payload() {
    let payload: Vec<u8> = Vec::new();
    let frame = encode(&payload);
    let mut dec = Decoder::new();
    let (payloads, diags) = dec.feed(&frame);
    assert_eq!(payloads, vec![Vec::<u8>::new()]);
    assert!(diags.is_empty());
}

#[test]
fn round_trip_max_payload() {
    let mut payload: Vec<u8> = Vec::new();
    for i in 0..251u32 {
        payload.push((i % 256) as u8);
    }
    let frame = encode(&payload);
    assert_eq!(frame.len(), 255);
    assert_eq!(frame[2], 0xFF);
    let mut dec = Decoder::new();
    let (payloads, diags) = dec.feed(&frame);
    assert_eq!(payloads, vec![payload]);
    assert!(diags.is_empty());
}

#[test]
fn round_trip_byte_by_byte() {
    let payload: Vec<u8> = vec![0x10, 0x20, 0x30];
    let frame = encode(&payload);
    let mut dec = Decoder::new();
    let mut seen: Vec<Vec<u8>> = Vec::new();
    for b in &frame {
        let (payloads, diags) = dec.feed(&[*b]);
        assert!(diags.is_empty());
        seen.extend(payloads);
    }
    assert_eq!(seen, vec![payload]);
}

#[test]
fn round_trip_every_two_chunk_split() {
    let payload: Vec<u8> = vec![0x01, 0x02, 0x03];
    let frame = encode(&payload);
    for cut in 1..frame.len() {
        let mut dec = Decoder::new();
        let (first, d1) = dec.feed(&frame[..cut]);
        let (second, d2) = dec.feed(&frame[cut..]);
        assert!(first.is_empty());
        assert!(d1.is_empty());
        assert!(d2.is_empty());
        assert_eq!(second, vec![payload.clone()]);
    }
}

#[test]
fn every_checksum_bit_flip_is_rejected() {
    let payload: Vec<u8> = vec![0x01, 0x02];
    let frame = encode(&payload);
    for k in 0..8 {
        let mut bad = frame.clone();
        let last = bad.len() - 1;
        bad[last] ^= 1u8 << k;
        let mut dec = Decoder::new();
        let (payloads, diags) = dec.feed(&bad);
        assert!(payloads.is_empty());
        assert_eq!(diags.len(), 1);
        assert_eq!(diags[0].expected, 0x09);
        assert_eq!(diags[0].got, 0x09 ^ (1u8 << k));
    }
}

#[test]
fn resynchronizes_after_rejected_frame() {
    let payload: Vec<u8> = vec![0x01, 0x02];
    let mut bad = encode(&payload);
    let last = bad.len() - 1;
    bad[last] ^= 0x01;
    let good = encode(&payload);
    let mut dec = Decoder::new();
    let (p1, d1) = dec.feed(&bad);
    assert!(p1.is_empty());
    assert_eq!(d1.len(), 1);
    let (p2, d2) = dec.feed(&good);
    assert_eq!(p2, vec![payload]);
    assert!(d2.is_empty());
}

#[test]
fn spurious_header_inside_payload_is_not_reinterpreted() {
    let payload: Vec<u8> = vec![0x55, 0xAA, 0x55];
    let frame = encode(&payload);
    let mut dec = Decoder::new();
    let (payloads, diags) = dec.feed(&frame);
    assert_eq!(payloads, vec![payload]);
    assert!(diags.is_empty());
}

#[test]
fn garbage_before_frame_is_ignored() {
    let payload: Vec<u8> = vec![0x07];
    let frame = encode(&payload);
    let mut stream: Vec<u8> = vec![0x00, 0x55, 0x13, 0xAA, 0x01];
    stream.extend(frame);
    let mut dec = Decoder::new();
    let (payloads, diags) = dec.feed(&stream);
    assert_eq!(payloads, vec![payload]);
    assert!(diags.is_empty());
}

#[test]
fn two_frames_in_one_read() {
    let a: Vec<u8> = vec![0x01];
    let b: Vec<u8> = vec![0x02, 0x03];
    let mut stream = encode(&a);
    stream.extend(encode(&b));
    let mut dec = Decoder::new();
    let (payloads, diags) = dec.feed(&stream);
    assert_eq!(payloads, vec![a, b]);
    assert!(diags.is_empty());
}

#[test]
fn step_walks_the_state_machine() {
    let (s, p, d) = decoder_step(DecoderState::Idle, 0x55);
    assert!(matches!(s, DecoderState::Header2));
    assert!(p.is_none() && d.is_none());
    let (s, p, d) = decoder_step(s, 0xAA);
    assert!(matches!(s, DecoderState::HeaderOk));
    assert!(p.is_none() && d.is_none());
    let (s, p, d) = decoder_step(s, 0x05);
    assert!(matches!(s, DecoderState::Receiving { .. }));
    assert!(p.is_none() && d.is_none());
    let (s, p, d) = decoder_step(s, 0x20);
    assert!(matches!(s, DecoderState::WaitCSum { .. }));
    assert!(p.is_none() && d.is_none());
    let (s, p, d) = decoder_step(s, 0x25);
    assert!(matches!(s, DecoderState::Idle));
    assert_eq!(p, Some(vec![0x20]));
    assert!(d.is_none());
}

#[test]
fn step_stays_idle_on_noise() {
    let (s, p, d) = decoder_step(DecoderState::Idle, 0x42);
    assert!(matches!(s, DecoderState::Idle));
    assert!(p.is_none() && d.is_none());
}

#[test]
fn step_resets_on_broken_header() {
    let (s, _, _) = decoder_step(DecoderState::Idle, 0x55);
    let (s, p, d) = decoder_step(s, 0x55);
    assert!(matches!(s, DecoderState::Idle));
    assert!(p.is_none() && d.is_none());
}

#[test]
fn step_reports_checksum_mismatch() {
    let mut state = DecoderState::Idle;
    for b in [0x55u8, 0xAA, 0x05, 0x20] {
        let (s, _, _) = decoder_step(state, b);
        state = s;
    }
    let (s, p, d) = decoder_step(state, 0x99);
    assert!(matches!(s, DecoderState::Idle));
    assert!(p.is_none());
    assert_eq!(d, Some(ChecksumMismatch { expected: 0x25, got: 0x99 }));
}

#[test]
fn zero_length_byte_expects_itself_as_checksum() {
    // A length byte of 0 promises no payload, so the next byte must equal
    // the accumulator, which was seeded with 0.
    let mut dec = Decoder::new();
    let (payloads, diags) = dec.feed(&[0x55, 0xAA, 0x00, 0x00]);
    assert_eq!(payloads, vec![Vec::<u8>::new()]);
    assert!(diags.is_empty());
}
