use v6header::header::V6Header;

const MIXED: &str =
    "6abcdef01234114020010db885a3000000008a2e03707334fe800000000000000202b3fffe1e8329";

const SAMPLE: &str =
    "6000000008013affdb8200000000000000000000000000000120200000000000000000000000000000000001";

fn bytes(text: &str) -> Vec<u8> {
    let digits: Vec<u32> = text.chars().map(|c| c.to_digit(16).unwrap()).collect();
    digits.chunks(2).map(|pair| (pair[0] * 16 + pair[1]) as u8).collect()
}

#[test]
fn encoding_gives_back_the_digits() {
    assert_eq!(V6Header::new(MIXED).unwrap().to_hex(), MIXED);
    assert_eq!(V6Header::new(SAMPLE).unwrap().to_hex(), &SAMPLE[..80]);
    assert_eq!(V6Header::new(&"0".repeat(80)).unwrap().to_hex(), "0".repeat(80));
    assert_eq!(V6Header::new(&"f".repeat(80)).unwrap().to_hex(), "f".repeat(80));
}

#[test]
fn encoding_is_in_lower_case() {
    let upper = MIXED.to_uppercase();
    assert_ne!(upper, MIXED);
    assert_eq!(V6Header::new(&upper).unwrap().to_hex(), MIXED);
    assert_eq!(V6Header::new(&"F".repeat(80)).unwrap().to_hex(), "f".repeat(80));
}

#[test]
fn encoding_keeps_the_forty_bytes() {
    for text in [MIXED.to_string(), MIXED.to_uppercase(), "aB".repeat(40), "09".repeat(40)] {
        let again = V6Header::new(&text).unwrap().to_hex();
        assert_eq!(bytes(&again).len(), 40);
        assert_eq!(bytes(&again), bytes(&text));
    }
}

#[test]
fn decoding_the_encoding_gives_back_the_header() {
    for text in [MIXED.to_string(), "0".repeat(80), "f".repeat(80), "5a".repeat(40)] {
        let header = V6Header::new(&text).unwrap();
        assert_eq!(V6Header::new(&header.to_hex()), Ok(header));
    }
}

#[test]
fn each_digit_is_kept_at_each_place() {
    let digits = "0123456789abcdef";
    for shift in 0..16 {
        let text: String = (0..80)
            .map(|i| digits.as_bytes()[(i * 7 + shift) % 16] as char)
            .collect();
        assert_eq!(V6Header::new(&text).unwrap().to_hex(), text);
    }
}
