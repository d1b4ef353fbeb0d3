use role_ledger::colour::{choose_colour, parse_colour};

fn bytes(s: &str) -> Vec<u8> {
    s.as_bytes().to_vec()
}

#[test]
fn parse_accepts_hash_prefixed_hex() {
    assert_eq!(parse_colour(&bytes("#FF8000")), Some(0xFF8000));
    assert_eq!(parse_colour(&bytes("#ff8000")), Some(0xFF8000));
}

#[test]
fn parse_accepts_bare_hex() {
    assert_eq!(parse_colour(&bytes("FF8000")), Some(0xFF8000));
    assert_eq!(parse_colour(&bytes("0")), Some(0));
    assert_eq!(parse_colour(&bytes("a")), Some(10));
}

#[test]
fn parse_rejects_what_is_not_short_hex() {
    assert_eq!(parse_colour(&bytes("")), None);
    assert_eq!(parse_colour(&bytes("#")), None);
    assert_eq!(parse_colour(&bytes("zz")), None);
    assert_eq!(parse_colour(&bytes("#FF80G0")), None);
    // Nine digits overflow what a colour word can hold.
    assert_eq!(parse_colour(&bytes("#123456789")), None);
    assert_eq!(parse_colour(&bytes("12 34")), None);
}

#[test]
fn parse_takes_up_to_eight_digits() {
    assert_eq!(parse_colour(&bytes("FFFFFFFF")), Some(0xFFFF_FFFF));
    assert_eq!(parse_colour(&bytes("#00000001")), Some(1));
}

#[test]
fn chosen_colours_are_masked_to_24_bits() {
    // A requested colour wider than 24 bits keeps only the low bits.
    assert_eq!(choose_colour(&Some(bytes("FFFFFFFF"))), Some(0xFFFFFF));
    assert_eq!(choose_colour(&Some(bytes("#FF8000"))), Some(0xFF8000));
    assert_eq!(choose_colour(&Some(bytes("nope"))), None);
    // Without a request a colour is drawn at random, still within 24 bits.
    for _ in 0..32 {
        let c = choose_colour(&None).unwrap();
        assert!(c <= 0xFFFFFF);
    }
}
