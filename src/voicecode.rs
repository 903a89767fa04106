//! Validation, canonical text and the voice-code hash.
use vstd::prelude::*;
use vstd::string::*;
use vstd::utf8::is_ascii_chars;

use crate::crc_table::{create_crc_lut, lut_spec};

verus! {

/// The polynomial of the voice-code table (0xA001, the reflected form of 0x8005).
pub const VOICE_POLYNOMIAL: u16 = 40961;

/// The regular expression that a lot code matches in full.
pub const LOT_PATTERN: &'static str = r##"^[\!"%&'()\*\+,\-\./0-9:;<=>\?A-Z_a-z]{1,20}$"##;

// ---------------------------------------------------------------------------
// The model
// ---------------------------------------------------------------------------

pub open spec fn is_digit_char(c: char) -> bool {
    '0' <= c && c <= '9'
}

pub open spec fn all_digits(s: Seq<char>) -> bool {
    forall|i: int| 0 <= i < s.len() ==> is_digit_char(#[trigger] s[i])
}

/// A GTIN-8, GTIN-12, GTIN-13 or GTIN-14: digits only.
pub open spec fn gtin_ok(s: Seq<char>) -> bool {
    &&& all_digits(s)
    &&& (s.len() == 8 || s.len() == 12 || s.len() == 13 || s.len() == 14)
}

/// Letters, digits and the punctuation `! " % & ' ( ) * + , - . / : ; < = > ? _`.
pub open spec fn is_lot_char(c: char) -> bool {
    ||| ('A' <= c && c <= 'Z')
    ||| ('a' <= c && c <= 'z')
    ||| is_digit_char(c)
    ||| c == '!' || c == '"' || c == '%' || c == '&' || c == '\'' || c == '('
    ||| c == ')' || c == '*' || c == '+' || c == ',' || c == '-' || c == '.'
    ||| c == '/' || c == ':' || c == ';' || c == '<' || c == '=' || c == '>'
    ||| c == '?' || c == '_'
}

/// A lot code: 1 to 20 characters, each a lot character.
pub open spec fn lot_ok(s: Seq<char>) -> bool {
    &&& 1 <= s.len() <= 20
    &&& forall|i: int| 0 <= i < s.len() ==> is_lot_char(#[trigger] s[i])
}

/// A year, month or day: one or two digits.
pub open spec fn date_component_ok(s: Seq<char>) -> bool {
    &&& 1 <= s.len() <= 2
    &&& all_digits(s)
}

/// `s` left-padded with `'0'` to at least two characters.
pub open spec fn pad2(s: Seq<char>) -> Seq<char> {
    if s.len() == 0 {
        seq!['0', '0']
    } else if s.len() == 1 {
        seq!['0'] + s
    } else {
        s
    }
}

/// The text that is hashed: GTIN, lot, then year, month and day padded to two places.
pub open spec fn voice_code_text(
    gtin: Seq<char>,
    lot: Seq<char>,
    yy: Seq<char>,
    mm: Seq<char>,
    dd: Seq<char>,
) -> Seq<char> {
    gtin + lot + pad2(yy) + pad2(mm) + pad2(dd)
}

/// The bytes of a text whose characters are all ASCII.
pub open spec fn ascii_bytes(s: Seq<char>) -> Seq<u8> {
    Seq::new(s.len(), |i: int| s[i] as u8)
}

/// The voice-code lookup table.
pub open spec fn voice_table() -> Seq<u16> {
    lut_spec(VOICE_POLYNOMIAL)
}

/// One step of the hash fold: the accumulator after consuming byte `b`.
pub open spec fn hash_step(acc: u16, b: u8) -> u16 {
    (acc >> 8u16) ^ voice_table()[((acc ^ (b as u16)) % 256) as int]
}

/// The 16-bit digest of `bytes`, folded from an accumulator of zero.
pub open spec fn voice_digest(bytes: Seq<u8>) -> u16
    decreases bytes.len(),
{
    if bytes.len() == 0 {
        0
    } else {
        hash_step(voice_digest(bytes.drop_last()), bytes.last())
    }
}


/// The ten decimal digits, in order.
pub open spec fn decimal_digits() -> Seq<char> {
    seq!['0', '1', '2', '3', '4', '5', '6', '7', '8', '9']
}

/// The last four decimal places of `n`, most significant first.
pub open spec fn four_digits(n: int) -> Seq<char> {
    seq![
        decimal_digits()[(n / 1000) % 10],
        decimal_digits()[(n / 100) % 10],
        decimal_digits()[(n / 10) % 10],
        decimal_digits()[n % 10],
    ]
}

/// The four-digit voice code of `bytes`: the digest modulo 10000.
pub open spec fn bytes_voice_code(bytes: Seq<u8>) -> Seq<char> {
    four_digits((voice_digest(bytes) % 10000) as int)
}

/// The voice code of a set of fields.
pub open spec fn voice_code_of(
    gtin: Seq<char>,
    lot: Seq<char>,
    yy: Seq<char>,
    mm: Seq<char>,
    dd: Seq<char>,
) -> Seq<char> {
    bytes_voice_code(ascii_bytes(voice_code_text(gtin, lot, yy, mm, dd)))
}

/// `n` as two decimal digits, zero-padded on the left.
pub open spec fn two_digits(n: int) -> Seq<char> {
    seq![decimal_digits()[(n / 10) % 10], decimal_digits()[n % 10]]
}

/// The first field that fails validation, checked in the order year, month,
/// day, lot, GTIN; `None` when all pass.
pub open spec fn first_error(
    gtin: Seq<char>,
    lot: Seq<char>,
    yy: Seq<char>,
    mm: Seq<char>,
    dd: Seq<char>,
) -> Option<ValidationError> {
    if !date_component_ok(yy) {
        Some(ValidationError::InvalidYear)
    } else if !date_component_ok(mm) {
        Some(ValidationError::InvalidMonth)
    } else if !date_component_ok(dd) {
        Some(ValidationError::InvalidDay)
    } else if !lot_ok(lot) {
        Some(ValidationError::InvalidLot)
    } else if !gtin_ok(gtin) {
        Some(ValidationError::InvalidGtin)
    } else {
        None
    }
}

// ---------------------------------------------------------------------------
// Validation
// ---------------------------------------------------------------------------

/// Whether every character of `s` is an ASCII digit.
fn all_ascii_digits(s: &str) -> (r: bool)
    ensures
        r == all_digits(s@),
{
    if !s.is_ascii() {
        return false;
    }
    let n = s.unicode_len();
    let mut i: usize = 0;
    while i < n
        invariant
            n == s@.len(),
            i <= n,
            s.is_ascii(),
            forall|k: int| 0 <= k < i ==> is_digit_char(#[trigger] s@[k]),
        decreases n - i,
    {
        let b = s.get_ascii(i);
        if b < 48 || b > 57 {
            return false;
        }
        i = i + 1;
    }
    true
}

/// Whether `s` is a valid year, month or day: one or two ASCII digits.
/// The calendar is not consulted: `"99"` is a valid month.
pub fn validate_date_component(s: &str) -> (r: bool)
    ensures
        r == date_component_ok(s@),
{
    let n = s.unicode_len();
    n >= 1 && n <= 2 && all_ascii_digits(s)
}

impl HashVoiceCode {
    /// Whether `gtin` has 8, 12, 13 or 14 characters, all ASCII digits.
    pub fn validate_gtin(gtin: &str) -> (r: bool)
        ensures
            r == gtin_ok(gtin@),
    {
        let n = gtin.unicode_len();
        all_ascii_digits(gtin) && (n == 8 || n == 12 || n == 13 || n == 14)
    }

    /// Whether `lot` is a lot code: 1 to 20 letters, digits or characters of
    /// `! " % & ' ( ) * + , - . / : ; < = > ? _`.
    pub fn validate_lot(lot: &str) -> (r: bool)
        ensures
            r == lot_ok(lot@),
    {
        lot_pattern_is_match(LOT_PATTERN, lot)
    }
}

/// Relies on `regex::Regex::new` and `regex::Regex::is_match` (regex 1.x).
/// In the crate's syntax the lot pattern compiles; `^` and `$`, without the
/// multi-line flag, anchor it at the start and the end of the haystack; the
/// bracketed class holds exactly the characters of `is_lot_char`; and `{1,20}`
/// repeats it one to twenty times. So it matches exactly the lot codes.
#[verifier::external_body]
fn lot_pattern_is_match(pattern: &str, text: &str) -> (r: bool)
    requires
        pattern@ == LOT_PATTERN@,
    ensures
        r == lot_ok(text@),
{
    match regex::Regex::new(pattern) {
        Ok(re) => re.is_match(text),
        Err(_) => false,
    }
}

// ---------------------------------------------------------------------------
// Hashing
// ---------------------------------------------------------------------------

/// The 16-bit digest of the bytes of `input`, through the voice-code table.
/// The table is built for the call; `hash_fold_with_table` takes one that
/// the caller built once with `create_crc_lut(VOICE_POLYNOMIAL)`.
pub fn hash_fold(input: &str) -> (r: u16)
    ensures
        r == voice_digest(input.spec_bytes()),
{
    let table = create_crc_lut(VOICE_POLYNOMIAL);
    hash_fold_with_table(&table, input)
}

/// The 16-bit digest of the bytes of `input`, through `table`, the
/// voice-code table.
pub fn hash_fold_with_table(table: &[u16; 256], input: &str) -> (r: u16)
    requires
        table@ == voice_table(),
    ensures
        r == voice_digest(input.spec_bytes()),
{
    let bytes = input.as_bytes();
    let mut acc: u16 = 0;
    let mut i: usize = 0;
    assert(bytes@.subrange(0, 0) =~= Seq::<u8>::empty());
    while i < bytes.len()
        invariant
            bytes@ == input.spec_bytes(),
            table@ == voice_table(),
            i <= bytes@.len(),
            acc == voice_digest(bytes@.subrange(0, i as int)),
        decreases bytes@.len() - i,
    {
        let b = bytes[i];
        let index = ((acc ^ (b as u16)) % 256) as usize;
        acc = (acc >> 8u16) ^ table[index];
        assert(bytes@.subrange(0, i + 1).drop_last() =~= bytes@.subrange(0, i as int));
        i = i + 1;
    }
    assert(bytes@.subrange(0, i as int) =~= bytes@);
    acc
}

// ---------------------------------------------------------------------------
// The record
// ---------------------------------------------------------------------------

/// Why a set of fields cannot give a voice code.
#[derive(Clone, Copy, Debug, PartialEq, Eq, Structural)]
pub enum ValidationError {
    InvalidYear,
    InvalidMonth,
    InvalidDay,
    InvalidLot,
    InvalidGtin,
}

impl ValidationError {
    /// A sentence that says what the field has to be.
    pub fn message(&self) -> (r: &'static str)
        ensures
            *self == ValidationError::InvalidYear ==> r@
                == "Date component YY must be numeric and 1 or 2 digits"@,
            *self == ValidationError::InvalidMonth ==> r@
                == "Date component MM must be numeric and 1 or 2 digits"@,
            *self == ValidationError::InvalidDay ==> r@
                == "Date component DD must be numeric and 1 or 2 digits"@,
            *self == ValidationError::InvalidLot ==> r@
                == "LOT must be 1 to 20 letters, digits or ! \" % & ' ( ) * + , - . / : ; < = > ? _"@,
            *self == ValidationError::InvalidGtin ==> r@ == "GTIN must be 8, 12, 13 or 14 digits"@,
    {
        match self {
            ValidationError::InvalidYear => "Date component YY must be numeric and 1 or 2 digits",
            ValidationError::InvalidMonth => "Date component MM must be numeric and 1 or 2 digits",
            ValidationError::InvalidDay => "Date component DD must be numeric and 1 or 2 digits",
            ValidationError::InvalidLot =>
                "LOT must be 1 to 20 letters, digits or ! \" % & ' ( ) * + , - . / : ; < = > ? _",
            ValidationError::InvalidGtin => "GTIN must be 8, 12, 13 or 14 digits",
        }
    }
}

/// The voice code of a GTIN, a lot code and a pack date, with the fields it came from.
///
/// The minor half of the code is its first two digits and the major half its
/// last two, so minor followed by major spells the whole code.
#[derive(Clone, Debug)]
pub struct HashVoiceCode {
    /// The exact text that was hashed.
    pub hash_text: String,
    pub gtin: String,
    pub lot: String,
    /// Year, month and day, two digits each.
    pub pack_date: String,
    /// Four decimal digits.
    pub voice_code: String,
    /// The last two digits of the voice code.
    pub voice_code_major: String,
    /// The first two digits of the voice code.
    pub voice_code_minor: String,
}

impl HashVoiceCode {
    /// This record is the one made from the given fields.
    pub open spec fn describes(
        self,
        gtin: Seq<char>,
        lot: Seq<char>,
        yy: Seq<char>,
        mm: Seq<char>,
        dd: Seq<char>,
    ) -> bool {
        &&& self.hash_text@ == voice_code_text(gtin, lot, yy, mm, dd)
        &&& self.gtin@ == gtin
        &&& self.lot@ == lot
        &&& self.pack_date@ == pad2(yy) + pad2(mm) + pad2(dd)
        &&& self.voice_code@ == voice_code_of(gtin, lot, yy, mm, dd)
        &&& self.voice_code_minor@ == self.voice_code@.subrange(0, 2)
        &&& self.voice_code_major@ == self.voice_code@.subrange(2, 4)
    }

    /// Validates the fields and computes their voice code.
    ///
    /// The fields are checked in the order year, month, day, lot, GTIN, and
    /// the first that fails gives the error. The hashed text holds the date
    /// components padded to two digits, so `"1"` and `"01"` give one code.
    pub fn new(
        gtin: &str,
        lot: &str,
        pack_date_yy: &str,
        pack_date_mm: &str,
        pack_date_dd: &str,
    ) -> (result: Result<HashVoiceCode, ValidationError>)
        ensures
            match result {
                Ok(rec) => first_error(gtin@, lot@, pack_date_yy@, pack_date_mm@, pack_date_dd@)
                    is None && rec.describes(
                    gtin@,
                    lot@,
                    pack_date_yy@,
                    pack_date_mm@,
                    pack_date_dd@,
                ),
                Err(e) => first_error(gtin@, lot@, pack_date_yy@, pack_date_mm@, pack_date_dd@)
                    == Some(e),
            },
    {
        if !validate_date_component(pack_date_yy) {
            return Err(ValidationError::InvalidYear);
        }
        if !validate_date_component(pack_date_mm) {
            return Err(ValidationError::InvalidMonth);
        }
        if !validate_date_component(pack_date_dd) {
            return Err(ValidationError::InvalidDay);
        }
        if !Self::validate_lot(lot) {
            return Err(ValidationError::InvalidLot);
        }
        if !Self::validate_gtin(gtin) {
            return Err(ValidationError::InvalidGtin);
        }
        let hash_text = Self::generate_voice_code_text(
            gtin,
            lot,
            pack_date_yy,
            pack_date_mm,
            pack_date_dd,
        );
        let text: &str = hash_text.as_str();
        proof {
            lemma_valid_text_ascii(gtin@, lot@, pack_date_yy@, pack_date_mm@, pack_date_dd@);
            is_ascii_spec_bytes(text);
            assert(text.spec_bytes() =~= ascii_bytes(text@));
        }
        let voice_code = Self::generate_voice_code_hash(text);
        proof {
            lemma_four_digits_ascii((voice_digest(text.spec_bytes()) % 10000) as int);
        }
        let code: &str = voice_code.as_str();
        let voice_code_minor = String::from_str(code.substring_ascii(0, 2));
        let voice_code_major = String::from_str(code.substring_ascii(2, 4));
        let mut pack_date = padded2(pack_date_yy);
        let mm = padded2(pack_date_mm);
        let dd = padded2(pack_date_dd);
        pack_date.append(mm.as_str());
        pack_date.append(dd.as_str());
        Ok(
            HashVoiceCode {
                hash_text,
                gtin: String::from_str(gtin),
                lot: String::from_str(lot),
                pack_date,
                voice_code,
                voice_code_major,
                voice_code_minor,
            },
        )
    }

    /// The text that is hashed for the given fields, with no validation:
    /// GTIN, lot, then each date component left-padded with `'0'` to two
    /// characters.
    pub fn generate_voice_code_text(
        gtin: &str,
        lot: &str,
        pack_date_yy: &str,
        pack_date_mm: &str,
        pack_date_dd: &str,
    ) -> (r: String)
        ensures
            r@ == voice_code_text(gtin@, lot@, pack_date_yy@, pack_date_mm@, pack_date_dd@),
    {
        let mut text = String::from_str(gtin);
        text.append(lot);
        let yy = padded2(pack_date_yy);
        let mm = padded2(pack_date_mm);
        let dd = padded2(pack_date_dd);
        text.append(yy.as_str());
        text.append(mm.as_str());
        text.append(dd.as_str());
        text
    }

    /// The four-digit voice code of the bytes of `input`, a text made as
    /// `generate_voice_code_text` makes it.
    pub fn generate_voice_code_hash(input: &str) -> (r: String)
        ensures
            r@ == bytes_voice_code(input.spec_bytes()),
    {
        format_voice_code(hash_fold(input))
    }
}

/// `s` left-padded with `'0'` to at least two characters.
fn padded2(s: &str) -> (r: String)
    ensures
        r@ == pad2(s@),
{
    let n = s.unicode_len();
    if n == 0 {
        let r = String::from_str("00");
        proof {
            reveal_strlit("00");
        }
        assert(r@ =~= pad2(s@));
        r
    } else if n == 1 {
        let mut r = String::from_str("0");
        proof {
            reveal_strlit("0");
        }
        r.append(s);
        assert(r@ =~= pad2(s@));
        r
    } else {
        String::from_str(s)
    }
}

/// Appends the decimal digit `d` to `out`.
fn append_digit(out: &mut String, d: u16)
    requires
        d < 10,
    ensures
        final(out)@ == old(out)@.push(decimal_digits()[d as int]),
{
    let digits: &str = "0123456789";
    proof {
        reveal_strlit("0123456789");
    }
    assert(digits@ =~= decimal_digits());
    assert(digits.is_ascii());
    let one = digits.substring_ascii(d as usize, d as usize + 1);
    assert(one@ =~= seq![decimal_digits()[d as int]]);
    out.append(one);
}

/// `digest` modulo 10000 as four decimal digits, zero-padded on the left.
pub fn format_voice_code(digest: u16) -> (r: String)
    ensures
        r@ == four_digits((digest % 10000) as int),
{
    let n: u16 = digest % 10000;
    let mut out = String::new();
    append_digit(&mut out, (n / 1000) % 10);
    append_digit(&mut out, (n / 100) % 10);
    append_digit(&mut out, (n / 10) % 10);
    append_digit(&mut out, n % 10);
    assert(out@ =~= four_digits(n as int));
    out
}

proof fn lemma_digits_ascii()
    ensures
        forall|k: int| 0 <= k < 10 ==> is_digit_char(#[trigger] decimal_digits()[k]),
{
    assert forall|k: int| 0 <= k < 10 implies is_digit_char(#[trigger] decimal_digits()[k]) by {
        if k == 0 {
        } else if k == 1 {
        } else if k == 2 {
        } else if k == 3 {
        } else if k == 4 {
        } else if k == 5 {
        } else if k == 6 {
        } else if k == 7 {
        } else if k == 8 {
        } else {
        }
    }
}

proof fn lemma_four_digits_ascii(n: int)
    ensures
        four_digits(n).len() == 4,
        all_digits(four_digits(n)),
        is_ascii_chars(four_digits(n)),
{
    lemma_digits_ascii();
}

proof fn lemma_pad2_digits(s: Seq<char>)
    requires
        date_component_ok(s),
    ensures
        pad2(s).len() == 2,
        all_digits(pad2(s)),
{
    assert(all_digits(pad2(s)));
}

proof fn lemma_valid_text_ascii(
    gtin: Seq<char>,
    lot: Seq<char>,
    yy: Seq<char>,
    mm: Seq<char>,
    dd: Seq<char>,
)
    requires
        first_error(gtin, lot, yy, mm, dd) is None,
    ensures
        is_ascii_chars(voice_code_text(gtin, lot, yy, mm, dd)),
{
    lemma_pad2_digits(yy);
    lemma_pad2_digits(mm);
    lemma_pad2_digits(dd);
    let dates = pad2(yy) + pad2(mm) + pad2(dd);
    assert(all_digits(dates));
    let t = voice_code_text(gtin, lot, yy, mm, dd);
    assert(t =~= gtin + lot + dates);
    assert forall|i: int| 0 <= i < t.len() implies '\0' <= #[trigger] t[i] <= '\u{7f}' by {
        if i < gtin.len() {
            assert(is_digit_char(gtin[i]));
        } else if i < gtin.len() + lot.len() {
            assert(is_lot_char(lot[i - gtin.len()]));
        } else {
            assert(is_digit_char(dates[i - gtin.len() - lot.len()]));
        }
    }
}

/// A calendar date, as year, month and day.
#[derive(Clone, Copy, Debug, PartialEq, Eq, Structural)]
pub struct PackDate {
    pub year: i32,
    /// From 1 to 12.
    pub month: u32,
    /// From 1 to 31.
    pub day: u32,
}

impl PackDate {
    /// The month and the day are in their ranges.
    pub open spec fn wf(self) -> bool {
        &&& 1 <= self.month <= 12
        &&& 1 <= self.day <= 31
    }

    /// Two-digit year: the year modulo 100, never negative.
    pub open spec fn yy(self) -> Seq<char> {
        two_digits(self.year as int % 100)
    }

    pub open spec fn mm(self) -> Seq<char> {
        two_digits(self.month as int)
    }

    pub open spec fn dd(self) -> Seq<char> {
        two_digits(self.day as int)
    }

    /// The date with these fields, when the month is from 1 to 12 and the day
    /// from 1 to 31.
    pub fn from_ymd(year: i32, month: u32, day: u32) -> (r: Option<PackDate>)
        ensures
            match r {
                Some(d) => d.wf() && d.year == year && d.month == month && d.day == day,
                None => !(1 <= month <= 12 && 1 <= day <= 31),
            },
    {
        if 1 <= month && month <= 12 && 1 <= day && day <= 31 {
            Some(PackDate { year, month, day })
        } else {
            None
        }
    }
}

/// `n` as two decimal digits.
fn two_digit_string(n: u32) -> (r: String)
    requires
        n < 100,
    ensures
        r@ == two_digits(n as int),
{
    let mut out = String::new();
    append_digit(&mut out, ((n / 10) % 10) as u16);
    append_digit(&mut out, (n % 10) as u16);
    assert(out@ =~= two_digits(n as int));
    out
}

impl HashVoiceCode {
    /// The record for a pack date given as a calendar date: its year modulo
    /// 100, its month and its day, each as two digits.
    pub fn new_naive(gtin: &str, lot: &str, pack_date: PackDate) -> (result: Result<
        HashVoiceCode,
        ValidationError,
    >)
        requires
            pack_date.wf(),
        ensures
            match result {
                Ok(rec) => first_error(gtin@, lot@, pack_date.yy(), pack_date.mm(), pack_date.dd())
                    is None && rec.describes(
                    gtin@,
                    lot@,
                    pack_date.yy(),
                    pack_date.mm(),
                    pack_date.dd(),
                ),
                Err(e) => first_error(gtin@, lot@, pack_date.yy(), pack_date.mm(), pack_date.dd())
                    == Some(e),
            },
    {
        let rem: i32 = pack_date.year % 100;
        let year_mod: u32 = if rem < 0 {
            (rem + 100) as u32
        } else {
            rem as u32
        };
        assert(year_mod as int == pack_date.year as int % 100);
        let yy = two_digit_string(year_mod);
        let mm = two_digit_string(pack_date.month);
        let dd = two_digit_string(pack_date.day);
        Self::new(gtin, lot, yy.as_str(), mm.as_str(), dd.as_str())
    }
}

} // verus!
