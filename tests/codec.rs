use base64::Engine;
use connections::codec::TranscodingError;
use connections::ConnectionPuzzle;
use std::io::Write;

fn fields(p: &ConnectionPuzzle) -> Vec<String> {
    (0..20).map(|i| p.field(i).clone()).collect()
}

fn gzip(bytes: &[u8]) -> Vec<u8> {
    let mut e = flate2::write::GzEncoder::new(Vec::new(), flate2::Compression::best());
    e.write_all(bytes).unwrap();
    e.finish().unwrap()
}

fn sample() -> ConnectionPuzzle {
    let long = "x".repeat(200);
    ConnectionPuzzle::new(
        ("Früchte", ["Äpfel", "Birnen", "日本", "🍒"]),
        ("", ["a", "", "c", "d"]),
        (long.as_str(), ["p", "q", "r", "s"]),
        ("green", ["w", "x", "y", "z"]),
    )
}

#[test]
fn default_round_trip() {
    let p = ConnectionPuzzle::default();
    let q = ConnectionPuzzle::decode(&p.encode()).expect("decodes");
    assert_eq!(fields(&p), fields(&q));
}

#[test]
fn unicode_and_long_round_trip() {
    let p = sample();
    let code = p.encode();
    let q = ConnectionPuzzle::decode(&code).expect("decodes");
    assert_eq!(fields(&p), fields(&q));
    assert_eq!(q.field(10).len(), 200);
    assert_eq!(q.yellow().word(3), "🍒");
}

#[test]
fn code_is_url_safe_and_deterministic() {
    let p = sample();
    let code = p.encode();
    assert!(code
        .chars()
        .all(|c| c.is_ascii_alphanumeric() || c == '-' || c == '_' || c == '='));
    assert_eq!(code, sample().encode());
    assert_ne!(code, ConnectionPuzzle::default().encode());
}

#[test]
fn code_is_base64_of_gzip_of_record() {
    let p = ConnectionPuzzle::default();
    let code = p.encode();
    let bytes = base64::engine::general_purpose::URL_SAFE.decode(&code).unwrap();
    // a gzip stream, not the record itself
    assert_eq!(&bytes[0..2], &[0x1f, 0x8b]);
    assert_eq!(code, base64::engine::general_purpose::URL_SAFE.encode(gzip(&p.record_bytes())));
}

#[test]
fn record_layout() {
    let p = ConnectionPuzzle::default();
    let r = p.record_bytes();
    assert_eq!(r[0], 21);
    assert_eq!(&r[1..22], "Minecraft Cake Recipe".as_bytes());
    assert_eq!(r[22], 5);
    assert_eq!(&r[23..28], b"wheat");
    let s = sample().record_bytes();
    // a 200-byte string takes a two-byte length
    let long_at = s.windows(3).position(|w| w == [0xC8, 0x01, b'x']).expect("varint");
    assert!(long_at > 0);
}

#[test]
fn record_matches_postcard() {
    let p = ConnectionPuzzle::default();
    let group = |i: usize| {
        let f = fields(&p);
        (
            f[5 * i].clone(),
            [f[5 * i + 1].clone(), f[5 * i + 2].clone(), f[5 * i + 3].clone(), f[5 * i + 4].clone()],
        )
    };
    let value = (group(0), group(1), group(2), group(3));
    assert_eq!(postcard::to_allocvec(&value).unwrap(), p.record_bytes());
    let q = sample();
    let f = fields(&q);
    let g = |i: usize| {
        (
            f[5 * i].clone(),
            [f[5 * i + 1].clone(), f[5 * i + 2].clone(), f[5 * i + 3].clone(), f[5 * i + 4].clone()],
        )
    };
    assert_eq!(postcard::to_allocvec(&(g(0), g(1), g(2), g(3))).unwrap(), q.record_bytes());
}

#[test]
fn not_base64_is_rejected() {
    assert!(matches!(ConnectionPuzzle::decode("not base64!"), Err(TranscodingError::Base64)));
    assert!(matches!(ConnectionPuzzle::decode("debug"), Err(TranscodingError::Base64)));
}

#[test]
fn not_gzip_is_rejected() {
    let code = base64::engine::general_purpose::URL_SAFE.encode([1u8, 2, 3, 4, 5, 6]);
    assert!(matches!(ConnectionPuzzle::decode(&code), Err(TranscodingError::Decompress)));
}

#[test]
fn short_record_is_rejected() {
    let code = base64::engine::general_purpose::URL_SAFE.encode(gzip(&[1, b'a', 1, b'b']));
    assert!(matches!(ConnectionPuzzle::decode(&code), Err(TranscodingError::Deserialize)));
    // invalid UTF-8 inside a frame
    let mut raw = vec![1u8, 0xff];
    for _ in 0..19 {
        raw.push(0);
    }
    let code = base64::engine::general_purpose::URL_SAFE.encode(gzip(&raw));
    assert!(matches!(ConnectionPuzzle::decode(&code), Err(TranscodingError::Deserialize)));
}

#[test]
fn trailing_bytes_are_ignored() {
    let p = ConnectionPuzzle::default();
    let mut raw = p.record_bytes();
    raw.extend_from_slice(&[9, 9, 9]);
    let code = base64::engine::general_purpose::URL_SAFE.encode(gzip(&raw));
    let q = ConnectionPuzzle::decode(&code).expect("decodes");
    assert_eq!(fields(&p), fields(&q));
}

#[test]
fn empty_puzzle_round_trip() {
    let p = ConnectionPuzzle::empty();
    assert_eq!(p.record_bytes(), vec![0u8; 20]);
    let q = ConnectionPuzzle::decode(&p.encode()).expect("decodes");
    assert!(fields(&q).iter().all(|s| s.is_empty()));
}
