use irremocon::infrared_codes::InfraredCodes;
use irremocon::replay::replay_pairs;

#[test]
fn replay_pairs_drop_trailing_mark() {
    let codes = InfraredCodes::from_hexdump("0A0014000500").unwrap();
    assert_eq!(replay_pairs(&codes), vec![(260u32, 520u32)]);
}

#[test]
fn replay_pairs_even_train() {
    let codes = InfraredCodes::from_hexdump("01000200FFFF0000").unwrap();
    assert_eq!(replay_pairs(&codes), vec![(26u32, 52u32), (1_703_910, 0)]);
}

#[test]
fn replay_pairs_single_mark() {
    let codes = InfraredCodes::from_hexdump("0A00").unwrap();
    assert!(replay_pairs(&codes).is_empty());
}
