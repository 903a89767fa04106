use voicecode::create_crc_lut;
use voicecode::voicecode::{
    format_voice_code, hash_fold, hash_fold_with_table, validate_date_component, HashVoiceCode,
    PackDate,
    ValidationError, VOICE_POLYNOMIAL,
};

#[test]
fn reference_vector_lot123() {
    let rec = HashVoiceCode::new("12345678901244", "LOT123", "03", "01", "02").unwrap();
    assert_eq!(rec.voice_code, "6991");
    assert_eq!(rec.voice_code_minor, "69");
    assert_eq!(rec.voice_code_major, "91");
    assert_eq!(rec.hash_text, "12345678901244LOT123030102");
    assert_eq!(rec.gtin, "12345678901244");
    assert_eq!(rec.lot, "LOT123");
    assert_eq!(rec.pack_date, "030102");
}

#[test]
fn reference_vector_32abcd() {
    let rec = HashVoiceCode::new("61414100734933", "32ABCD", "01", "01", "01").unwrap();
    assert_eq!(rec.voice_code, "1085");
}

#[test]
fn repeated_calls_agree() {
    let a = HashVoiceCode::new("61414100734933", "32ABCD", "03", "01", "02").unwrap();
    let b = HashVoiceCode::new("61414100734933", "32ABCD", "03", "01", "02").unwrap();
    assert_eq!(a.voice_code, b.voice_code);
    assert_eq!(a.hash_text, b.hash_text);
}

#[test]
fn lot_case_changes_the_code() {
    let lower = HashVoiceCode::new("61414100734933", "32abcd", "01", "01", "01").unwrap();
    let upper = HashVoiceCode::new("61414100734933", "32ABCD", "01", "01", "01").unwrap();
    assert_ne!(lower.voice_code, upper.voice_code);
    assert_eq!(lower.lot, "32abcd");
}

#[test]
fn voice_code_is_four_digits() {
    for (gtin, lot) in [("61414100734933", "32ABCD"), ("12345678", "A"), ("123456789012", "x_y-z")] {
        let rec = HashVoiceCode::new(gtin, lot, "9", "12", "31").unwrap();
        assert_eq!(rec.voice_code.len(), 4);
        assert!(rec.voice_code.chars().all(|c| c.is_ascii_digit()));
        assert!(rec.voice_code.parse::<u32>().unwrap() <= 9999);
    }
}

#[test]
fn halves_rebuild_the_code() {
    let rec = HashVoiceCode::new("61414100734933", "32abcd", "03", "01", "02").unwrap();
    assert_eq!(format!("{}{}", rec.voice_code_minor, rec.voice_code_major), rec.voice_code);
}

#[test]
fn one_digit_dates_are_padded() {
    let short = HashVoiceCode::new("61414100734933", "32ABCD", "1", "2", "3").unwrap();
    let long = HashVoiceCode::new("61414100734933", "32ABCD", "01", "02", "03").unwrap();
    assert_eq!(short.voice_code, long.voice_code);
    assert_eq!(short.hash_text, "6141410073493332ABCD010203");
    assert_eq!(short.hash_text, long.hash_text);
    assert_eq!(short.pack_date, "010203");
}

#[test]
fn each_field_gives_its_error() {
    let g = "61414100734933";
    assert_eq!(HashVoiceCode::new(g, "L", "ab", "01", "01").unwrap_err(), ValidationError::InvalidYear);
    assert_eq!(HashVoiceCode::new(g, "L", "", "01", "01").unwrap_err(), ValidationError::InvalidYear);
    assert_eq!(HashVoiceCode::new(g, "L", "123", "01", "01").unwrap_err(), ValidationError::InvalidYear);
    assert_eq!(HashVoiceCode::new(g, "L", "01", "1a", "01").unwrap_err(), ValidationError::InvalidMonth);
    assert_eq!(HashVoiceCode::new(g, "L", "01", "01", "x").unwrap_err(), ValidationError::InvalidDay);
    assert_eq!(HashVoiceCode::new(g, "L#1", "01", "01", "01").unwrap_err(), ValidationError::InvalidLot);
    assert_eq!(HashVoiceCode::new(g, "a@b", "01", "01", "01").unwrap_err(), ValidationError::InvalidLot);
    assert_eq!(HashVoiceCode::new(g, "", "01", "01", "01").unwrap_err(), ValidationError::InvalidLot);
    let lot21 = "A".repeat(21);
    assert_eq!(HashVoiceCode::new(g, &lot21, "01", "01", "01").unwrap_err(), ValidationError::InvalidLot);
    assert_eq!(HashVoiceCode::new("6141410073493A", "L", "01", "01", "01").unwrap_err(), ValidationError::InvalidGtin);
    assert_eq!(HashVoiceCode::new("1234567890", "L", "01", "01", "01").unwrap_err(), ValidationError::InvalidGtin);
    // the year is checked before the GTIN
    assert_eq!(HashVoiceCode::new("bad", "L", "ab", "01", "01").unwrap_err(), ValidationError::InvalidYear);
}

#[test]
fn gtin_lengths() {
    assert!(HashVoiceCode::validate_gtin("12345678"));
    assert!(HashVoiceCode::validate_gtin("123456789012"));
    assert!(HashVoiceCode::validate_gtin("1234567890123"));
    assert!(HashVoiceCode::validate_gtin("12345678901244"));
    assert!(!HashVoiceCode::validate_gtin("123456789012345"));
    assert!(!HashVoiceCode::validate_gtin("1234567"));
    assert!(!HashVoiceCode::validate_gtin(""));
    assert!(!HashVoiceCode::validate_gtin("1234567\u{0663}"));
}

#[test]
fn lot_characters() {
    assert!(HashVoiceCode::validate_lot("55ABFC"));
    assert!(HashVoiceCode::validate_lot("!\"%&'()*+,-./:;<=>?_"));
    assert!(HashVoiceCode::validate_lot(&"z".repeat(20)));
    assert!(!HashVoiceCode::validate_lot(&"z".repeat(21)));
    assert!(!HashVoiceCode::validate_lot(""));
    assert!(!HashVoiceCode::validate_lot("a b"));
    assert!(!HashVoiceCode::validate_lot("ab\n"));
    assert!(!HashVoiceCode::validate_lot("\u{e9}"));
}

#[test]
fn date_components() {
    assert!(validate_date_component("1"));
    assert!(validate_date_component("99"));
    assert!(!validate_date_component(""));
    assert!(!validate_date_component("100"));
    assert!(!validate_date_component("a"));
}

#[test]
fn table_first_entries() {
    let table = create_crc_lut(VOICE_POLYNOMIAL);
    assert_eq!(table[0], 0);
    assert_eq!(table[1], 0xC0C1);
    assert_eq!(table[2], 0xC181);
    assert_eq!(table[3], 0x0140);
    assert_eq!(table[255], 0x4040);
}

#[test]
fn table_zero_entry_for_any_polynomial() {
    for p in [0u16, 1, 0x1021, 0x8408, 0xFFFF] {
        assert_eq!(create_crc_lut(p)[0], 0);
    }
    assert_eq!(create_crc_lut(0)[1], 0);
    assert_eq!(create_crc_lut(0xFFFF)[1], 0x0200);
}

#[test]
fn fold_of_text() {
    assert_eq!(hash_fold(""), 0);
    assert_eq!(hash_fold("12345678901244LOT123030102") % 10000, 6991);
    assert_eq!(HashVoiceCode::generate_voice_code_hash(""), "0000");
}

#[test]
fn formatting() {
    assert_eq!(format_voice_code(91), "0091");
    assert_eq!(format_voice_code(0), "0000");
    assert_eq!(format_voice_code(9999), "9999");
    assert_eq!(format_voice_code(10000), "0000");
    assert_eq!(format_voice_code(65535), "5535");
}

#[test]
fn text_of_fields() {
    assert_eq!(HashVoiceCode::generate_voice_code_text("a", "b", "yy", "m", "dd"), "abyy0mdd");
    assert_eq!(HashVoiceCode::generate_voice_code_text("1", "2", "", "3", "456"), "120003456");
}

#[test]
fn calendar_dates() {
    let date = PackDate::from_ymd(2001, 1, 1).unwrap();
    let rec = HashVoiceCode::new_naive("61414100734933", "32ABCD", date).unwrap();
    assert_eq!(rec.voice_code, "1085");
    assert_eq!(rec.pack_date, "010101");
    let old = PackDate::from_ymd(-1, 12, 31).unwrap();
    let rec = HashVoiceCode::new_naive("61414100734933", "32ABCD", old).unwrap();
    assert_eq!(rec.pack_date, "991231");
    assert_eq!(PackDate::from_ymd(2001, 13, 1), None);
    assert_eq!(PackDate::from_ymd(2001, 1, 0), None);
    assert_eq!(
        HashVoiceCode::new_naive("61414100734933", "bad lot", date).unwrap_err(),
        ValidationError::InvalidLot
    );
}

#[test]
fn fold_with_a_table_built_once() {
    let table = create_crc_lut(VOICE_POLYNOMIAL);
    let text = "6141410073493332ABCD010101";
    assert_eq!(hash_fold_with_table(&table, text), hash_fold(text));
    assert_eq!(hash_fold_with_table(&table, text), 21085);
    assert_eq!(hash_fold_with_table(&table, "6141410073493332abcd010101"), 9190);
}

#[test]
fn error_messages() {
    assert_eq!(ValidationError::InvalidYear.message(), "Date component YY must be numeric and 1 or 2 digits");
    assert_eq!(ValidationError::InvalidGtin.message(), "GTIN must be 8, 12, 13 or 14 digits");
    assert!(ValidationError::InvalidLot.message().starts_with("LOT must be"));
}
