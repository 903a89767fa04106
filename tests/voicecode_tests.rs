use chrono::{Datelike, NaiveDate};
use voicecode::voicecode::PackDate;
use voicecode::HashVoiceCode;

fn parse_date(input: &str) -> Result<NaiveDate, chrono::format::ParseError> {
    let formats = vec!["%m/%d/%Y", "%m%d%Y", "%Y-%m-%d", "%+"];
    for format in formats {
        if let Ok(date) = NaiveDate::parse_from_str(input, format) {
            return Ok(date);
        }
    }
    NaiveDate::parse_from_str(input, "")
}

fn pack_date_of(date: NaiveDate) -> PackDate {
    PackDate::from_ymd(date.year(), date.month(), date.day()).unwrap()
}

#[test]
fn test_chrono() {
    if let Some(date) = NaiveDate::from_ymd_opt(2003, 1, 2) {
        let voice_code = HashVoiceCode::new_naive("12345678901234", "LOT123", pack_date_of(date));
        match voice_code {
            Ok(voice_code) => {
                println!("Voice Code: {}", voice_code.voice_code);
                println!("Minor: {}", voice_code.voice_code_minor);
                println!("Major: {}", voice_code.voice_code_major);
            }
            Err(e) => {
                println!("Error: {:?}", e);
                assert!(false);
            }
        }
    }
}

#[test]
fn test_hash_voice_code_string() {
    let voice_code = HashVoiceCode::generate_voice_code_hash("12345678901244LOT123030102");
    assert_eq!(voice_code, "6991");
}

#[test]
fn test_naive_date() {
    let gtin = "61414100734933";
    let lot = "32ABCD";
    let pack_date = parse_date("01/01/2001").unwrap();

    let hash_voice_code = HashVoiceCode::new_naive(gtin, lot, pack_date_of(pack_date)).unwrap();

    assert_eq!(hash_voice_code.voice_code, "1085");
    assert_eq!(hash_voice_code.voice_code_minor, "10");
    assert_eq!(hash_voice_code.voice_code_major, "85");
}

#[test]
fn test1() {
    let gtin = "61414100734933";
    let lot = "32ABCD";
    let pack_date_yy = "01";
    let pack_date_mm = "01";
    let pack_date_dd = "01";

    let hash_voice_code =
        HashVoiceCode::new(gtin, lot, pack_date_yy, pack_date_mm, pack_date_dd).unwrap();

    assert_eq!(hash_voice_code.voice_code, "1085");
    assert_eq!(hash_voice_code.voice_code_minor, "10");
    assert_eq!(hash_voice_code.voice_code_major, "85");
}

#[test]
fn test2() {
    let gtin = "61414100734933";
    let lot = "32abcd";
    let pack_date_yy = "03";
    let pack_date_mm = "01";
    let pack_date_dd = "02";

    let hash_voice_code =
        HashVoiceCode::new(gtin, lot, pack_date_yy, pack_date_mm, pack_date_dd).unwrap();

    assert_eq!(hash_voice_code.voice_code, "8079");
    assert_eq!(hash_voice_code.voice_code_minor, "80");
    assert_eq!(hash_voice_code.voice_code_major, "79");
}

#[test]
fn test2_1() {
    let gtin = "61414100734933";
    let lot = "32ABCD";
    let pack_date_yy = "03";
    let pack_date_mm = "01";
    let pack_date_dd = "02";

    let hash_voice_code =
        HashVoiceCode::new(gtin, lot, pack_date_yy, pack_date_mm, pack_date_dd).unwrap();

    assert_ne!(hash_voice_code.voice_code, "8079");
    assert_ne!(hash_voice_code.voice_code_minor, "80");
    assert_ne!(hash_voice_code.voice_code_major, "79");
}

#[test]
fn test3() {
    let gtin = "61414100734933";
    let lot = "32abcd";
    let pack_date_yy = "03";
    let pack_date_mm = "01";
    let pack_date_dd = "02";

    let hash_voice_code =
        HashVoiceCode::new(gtin, lot, pack_date_yy, pack_date_mm, pack_date_dd).unwrap();

    assert_ne!(hash_voice_code.voice_code, "9190");
    assert_ne!(hash_voice_code.voice_code_minor, "91");
    assert_ne!(hash_voice_code.voice_code_major, "90");
}

#[test]
fn test_invalid_month() {
    let result = HashVoiceCode::new("61414100734933", "32abcd", "03", "mm", "03");
    assert!(result.is_err());
}

#[test]
fn test_invalid_day() {
    let result = HashVoiceCode::new("61414100734933", "32abcd", "03", "02", "dd");
    assert!(result.is_err());
}

#[test]
fn test_invalid_year() {
    let result = HashVoiceCode::new("61414100734933", "32abcd", "yy", "01", "02");
    assert!(result.is_err());
}
