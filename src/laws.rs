//! Facts that relate the results of several calls.
use vstd::prelude::*;

use crate::crc_table::{crc_shift, crc_shifts, lut_entry, lut_entry_zero};
use crate::voicecode::{
    hash_step, voice_table, VOICE_POLYNOMIAL,
    all_digits, ascii_bytes, pad2, bytes_voice_code, date_component_ok, decimal_digits, first_error,
    is_digit_char, is_lot_char, lot_ok, voice_code_of, voice_code_text, voice_digest, HashVoiceCode,
    ValidationError,
};

verus! {

/// The numeric value of a decimal digit character.
pub open spec fn digit_value(c: char) -> int {
    c as int - '0' as int
}

/// The numeric value of a string of decimal digits.
pub open spec fn decimal_value(s: Seq<char>) -> int
    decreases s.len(),
{
    if s.len() == 0 {
        0
    } else {
        decimal_value(s.drop_last()) * 10 + digit_value(s.last())
    }
}

/// Two records made from the same fields are equal, field by field: in
/// particular they carry the same voice code.
pub proof fn voice_code_deterministic(
    gtin: Seq<char>,
    lot: Seq<char>,
    yy: Seq<char>,
    mm: Seq<char>,
    dd: Seq<char>,
    a: HashVoiceCode,
    b: HashVoiceCode,
)
    requires
        a.describes(gtin, lot, yy, mm, dd),
        b.describes(gtin, lot, yy, mm, dd),
    ensures
        a.voice_code@ == b.voice_code@,
        a.voice_code_major@ == b.voice_code_major@,
        a.voice_code_minor@ == b.voice_code_minor@,
        a.hash_text@ == b.hash_text@,
        a.pack_date@ == b.pack_date@,
{
}

proof fn lemma_digit_values()
    ensures
        forall|k: int|
            0 <= k < 10 ==> {
                &&& is_digit_char(#[trigger] decimal_digits()[k])
                &&& digit_value(decimal_digits()[k]) == k
            },
{
    assert forall|k: int| 0 <= k < 10 implies {
        &&& is_digit_char(#[trigger] decimal_digits()[k])
        &&& digit_value(decimal_digits()[k]) == k
    } by {
        if k == 0 {
        } else if k == 1 {
        } else if k == 2 {
        } else if k == 3 {
        } else if k == 4 {
        } else if k == 5 {
        } else if k == 6 {
        } else if k == 7 {
        } else if k == 8 {
        } else {
        }
    }
}

/// A voice code is four decimal digits whose value is the digest modulo
/// 10000, so a number from 0 to 9999.
pub proof fn voice_code_shape(bytes: Seq<u8>)
    ensures
        bytes_voice_code(bytes).len() == 4,
        all_digits(bytes_voice_code(bytes)),
        decimal_value(bytes_voice_code(bytes)) == voice_digest(bytes) % 10000,
        0 <= decimal_value(bytes_voice_code(bytes)) <= 9999,
{
    lemma_digit_values();
    let n = (voice_digest(bytes) % 10000) as int;
    let s = bytes_voice_code(bytes);
    let d3 = (n / 1000) % 10;
    let d2 = (n / 100) % 10;
    let d1 = (n / 10) % 10;
    let d0 = n % 10;
    assert(digit_value(decimal_digits()[d3]) == d3);
    assert(digit_value(decimal_digits()[d2]) == d2);
    assert(digit_value(decimal_digits()[d1]) == d1);
    assert(digit_value(decimal_digits()[d0]) == d0);
    let s1 = s.drop_last().drop_last().drop_last();
    assert(s1.drop_last() =~= Seq::<char>::empty());
    assert(decimal_value(s1.drop_last()) == 0);
    assert(s1.last() == decimal_digits()[d3]);
    assert(decimal_value(s1) == d3);
    assert(decimal_value(s.drop_last().drop_last()) == d3 * 10 + d2);
    assert(decimal_value(s.drop_last()) == (d3 * 10 + d2) * 10 + d1);
    assert(decimal_value(s) == (((n / 1000) % 10 * 10 + (n / 100) % 10) * 10 + (n / 10) % 10)
        * 10 + n % 10);
    assert((((n / 1000) % 10 * 10 + (n / 100) % 10) * 10 + (n / 10) % 10) * 10 + n % 10 == n)
        by (nonlinear_arith)
        requires
            0 <= n < 10000,
    ;
}

/// The minor half followed by the major half is the whole voice code.
pub proof fn voice_code_split(
    rec: HashVoiceCode,
    gtin: Seq<char>,
    lot: Seq<char>,
    yy: Seq<char>,
    mm: Seq<char>,
    dd: Seq<char>,
)
    requires
        rec.describes(gtin, lot, yy, mm, dd),
    ensures
        rec.voice_code_minor@ + rec.voice_code_major@ == rec.voice_code@,
{
    voice_code_shape(ascii_bytes(voice_code_text(gtin, lot, yy, mm, dd)));
    assert(rec.voice_code_minor@ + rec.voice_code_major@ =~= rec.voice_code@);
}

/// One-digit date components and the same components with a leading zero
/// pass or fail validation alike and give the same hashed text and voice code.
pub proof fn padding_idempotent(
    gtin: Seq<char>,
    lot: Seq<char>,
    yy: Seq<char>,
    mm: Seq<char>,
    dd: Seq<char>,
)
    requires
        yy.len() == 1,
        mm.len() == 1,
        dd.len() == 1,
    ensures
        first_error(gtin, lot, seq!['0'] + yy, seq!['0'] + mm, seq!['0'] + dd) == first_error(
            gtin,
            lot,
            yy,
            mm,
            dd,
        ),
        voice_code_text(gtin, lot, seq!['0'] + yy, seq!['0'] + mm, seq!['0'] + dd)
            == voice_code_text(gtin, lot, yy, mm, dd),
        voice_code_of(gtin, lot, seq!['0'] + yy, seq!['0'] + mm, seq!['0'] + dd) == voice_code_of(
            gtin,
            lot,
            yy,
            mm,
            dd,
        ),
{
    let y0 = seq!['0'] + yy;
    let m0 = seq!['0'] + mm;
    let d0 = seq!['0'] + dd;
    assert(y0[1] == yy[0] && m0[1] == mm[0] && d0[1] == dd[0]);
    assert(all_digits(y0) == all_digits(yy));
    assert(all_digits(m0) == all_digits(mm));
    assert(all_digits(d0) == all_digits(dd));
}

/// A year that is not all digits is refused first of all. With a valid date,
/// a lot holding `#` or `@`, or 21 characters long, is refused as a lot. With
/// a valid date and lot, a GTIN holding a non-digit, or of a length other
/// than 8, 12, 13 or 14, is refused as a GTIN.
pub proof fn rejected_fields(
    gtin: Seq<char>,
    lot: Seq<char>,
    yy: Seq<char>,
    mm: Seq<char>,
    dd: Seq<char>,
)
    ensures
        !all_digits(yy) ==> first_error(gtin, lot, yy, mm, dd) == Some(
            ValidationError::InvalidYear,
        ),
        date_component_ok(yy) && date_component_ok(mm) && date_component_ok(dd) && (lot.contains(
            '#',
        ) || lot.contains('@') || lot.len() == 21) ==> first_error(gtin, lot, yy, mm, dd) == Some(
            ValidationError::InvalidLot,
        ),
        date_component_ok(yy) && date_component_ok(mm) && date_component_ok(dd) && lot_ok(lot)
            && ((exists|i: int| 0 <= i < gtin.len() && !is_digit_char(gtin[i])) || !(gtin.len()
            == 8 || gtin.len() == 12 || gtin.len() == 13 || gtin.len() == 14)) ==> first_error(
            gtin,
            lot,
            yy,
            mm,
            dd,
        ) == Some(ValidationError::InvalidGtin),
{
    if lot.contains('#') {
        let i = choose|i: int| 0 <= i < lot.len() && lot[i] == '#';
        assert(!is_lot_char(lot[i]));
    }
    if lot.contains('@') {
        let i = choose|i: int| 0 <= i < lot.len() && lot[i] == '@';
        assert(!is_lot_char(lot[i]));
    }
}

/// The digest folded on from the accumulator `acc`.
pub open spec fn digest_from(acc: u16, bytes: Seq<u8>) -> u16
    decreases bytes.len(),
{
    if bytes.len() == 0 {
        acc
    } else {
        hash_step(digest_from(acc, bytes.drop_last()), bytes.last())
    }
}

/// `n` zero bytes.
pub open spec fn zero_bytes(n: nat) -> Seq<u8> {
    Seq::new(n, |i: int| 0u8)
}

/// The byte-wise exclusive or of two sequences of one length.
pub open spec fn xor_bytes(x: Seq<u8>, y: Seq<u8>) -> Seq<u8> {
    Seq::new(x.len(), |i: int| x[i] ^ y[i])
}

/// Eight steps of the bitwise CRC, written out.
spec fn eight_shifts(p: u16, v: u16) -> u16 {
    crc_shift(p, crc_shift(p, crc_shift(p, crc_shift(p, crc_shift(p, crc_shift(p, crc_shift(p, crc_shift(p, v))))))))
}

proof fn lemma_eight_shifts(p: u16, v: u16)
    ensures
        crc_shifts(p, v, 8) == eight_shifts(p, v),
{
    reveal_with_fuel(crc_shifts, 9);
}

proof fn lemma_digest_from_zero(bytes: Seq<u8>)
    ensures
        digest_from(0, bytes) == voice_digest(bytes),
    decreases bytes.len(),
{
    if bytes.len() > 0 {
        lemma_digest_from_zero(bytes.drop_last());
    }
}

proof fn lemma_digest_concat(a: Seq<u8>, b: Seq<u8>)
    ensures
        voice_digest(a + b) == digest_from(voice_digest(a), b),
    decreases b.len(),
{
    if b.len() == 0 {
        assert(a + b =~= a);
    } else {
        assert((a + b).drop_last() =~= a + b.drop_last());
        assert((a + b).last() == b.last());
        lemma_digest_concat(a, b.drop_last());
    }
}

proof fn lemma_digest_zero_bytes(n: nat)
    ensures
        voice_digest(zero_bytes(n)) == 0,
    decreases n,
{
    if n > 0 {
        assert(zero_bytes(n).drop_last() =~= zero_bytes((n - 1) as nat));
        lemma_digest_zero_bytes((n - 1) as nat);
        lut_entry_zero(VOICE_POLYNOMIAL);
        assert((0u16 >> 8u16) ^ 0u16 == 0u16 && (0u16 ^ (0u8 as u16)) % 256 == 0) by (bit_vector);
    }
}

proof fn lemma_shifts_linear(p: u16, a: u16, b: u16, n: nat)
    ensures
        crc_shifts(p, a ^ b, n) == crc_shifts(p, a, n) ^ crc_shifts(p, b, n),
    decreases n,
{
    if n > 0 {
        assert(crc_shift(p, a ^ b) == crc_shift(p, a) ^ crc_shift(p, b)) by (bit_vector);
        lemma_shifts_linear(p, crc_shift(p, a), crc_shift(p, b), (n - 1) as nat);
    }
}

proof fn lemma_step_linear(a1: u16, b1: u8, a2: u16, b2: u8)
    ensures
        hash_step(a1, b1) ^ hash_step(a2, b2) == hash_step(a1 ^ a2, b1 ^ b2),
{
    let i1: u16 = (a1 ^ (b1 as u16)) % 256;
    let i2: u16 = (a2 ^ (b2 as u16)) % 256;
    let i: u16 = ((a1 ^ a2) ^ ((b1 ^ b2) as u16)) % 256;
    assert(i == i1 ^ i2 && i1 < 256 && i2 < 256 && (a1 ^ a2) >> 8u16 == (a1 >> 8u16) ^ (a2
        >> 8u16)) by (bit_vector)
        requires
            i1 == (a1 ^ (b1 as u16)) % 256,
            i2 == (a2 ^ (b2 as u16)) % 256,
            i == ((a1 ^ a2) ^ ((b1 ^ b2) as u16)) % 256,
    ;
    lemma_shifts_linear(VOICE_POLYNOMIAL, i1, i2, 8);
    assert(voice_table()[i as int] == lut_entry(VOICE_POLYNOMIAL, i as int));
    assert(voice_table()[i1 as int] == lut_entry(VOICE_POLYNOMIAL, i1 as int));
    assert(voice_table()[i2 as int] == lut_entry(VOICE_POLYNOMIAL, i2 as int));
    let x = (a1 >> 8u16) ^ voice_table()[i1 as int];
    let y = (a2 >> 8u16) ^ voice_table()[i2 as int];
    let s1 = a1 >> 8u16;
    let s2 = a2 >> 8u16;
    let t1 = voice_table()[i1 as int];
    let t2 = voice_table()[i2 as int];
    assert((s1 ^ t1) ^ (s2 ^ t2) == (s1 ^ s2) ^ (t1 ^ t2)) by (bit_vector);
}

proof fn lemma_digest_linear(x: Seq<u8>, y: Seq<u8>)
    requires
        x.len() == y.len(),
    ensures
        voice_digest(x) ^ voice_digest(y) == voice_digest(xor_bytes(x, y)),
    decreases x.len(),
{
    if x.len() == 0 {
        assert(0u16 ^ 0u16 == 0u16) by (bit_vector);
    } else {
        assert(xor_bytes(x, y).drop_last() =~= xor_bytes(x.drop_last(), y.drop_last()));
        assert(xor_bytes(x, y).last() == x.last() ^ y.last());
        lemma_digest_linear(x.drop_last(), y.drop_last());
        lemma_step_linear(voice_digest(x.drop_last()), x.last(), voice_digest(y.drop_last()), y.last());
    }
}

/// One concrete step of the fold, checked bit by bit.
proof fn lemma_step_value(acc: u16, b: u8, index: u16, entry: u16, next: u16)
    requires
        eight_shifts(VOICE_POLYNOMIAL, index) == entry,
        (acc ^ (b as u16)) % 256 == index,
        (acc >> 8u16) ^ entry == next,
    ensures
        hash_step(acc, b) == next,
{
    lemma_eight_shifts(VOICE_POLYNOMIAL, index);
    assert(voice_table()[index as int] == lut_entry(VOICE_POLYNOMIAL, index as int));
}

proof fn lemma_case_difference()
    ensures
        voice_digest(seq![32u8, 32u8, 32u8, 32u8, 0u8, 0u8, 0u8, 0u8, 0u8, 0u8]) == 29115,
{
    let s = seq![32u8, 32u8, 32u8, 32u8, 0u8, 0u8, 0u8, 0u8, 0u8, 0u8];
    assert(s.subrange(0, 0) =~= Seq::<u8>::empty());
    assert(voice_digest(s.subrange(0, 0)) == 0);
    assert(eight_shifts(40961u16, 32u16) == 55297u16 && (0u16 ^ (32u8 as u16)) % 256 == 32u16
        && (0u16 >> 8u16) ^ 55297u16 == 55297u16) by (bit_vector);
    lemma_step_value(0, 32, 32, 55297, 55297);
    assert(s.subrange(0, 1).drop_last() =~= s.subrange(0, 0));
    assert(s.subrange(0, 1).last() == s[0]);
    assert(voice_digest(s.subrange(0, 1)) == 55297);
    assert(eight_shifts(40961u16, 33u16) == 6336u16 && (55297u16 ^ (32u8 as u16)) % 256 == 33u16
        && (55297u16 >> 8u16) ^ 6336u16 == 6168u16) by (bit_vector);
    lemma_step_value(55297, 32, 33, 6336, 6168);
    assert(s.subrange(0, 2).drop_last() =~= s.subrange(0, 1));
    assert(s.subrange(0, 2).last() == s[1]);
    assert(voice_digest(s.subrange(0, 2)) == 6168);
    assert(eight_shifts(40961u16, 56u16) == 53761u16 && (6168u16 ^ (32u8 as u16)) % 256 == 56u16
        && (6168u16 >> 8u16) ^ 53761u16 == 53785u16) by (bit_vector);
    lemma_step_value(6168, 32, 56, 53761, 53785);
    assert(s.subrange(0, 3).drop_last() =~= s.subrange(0, 2));
    assert(s.subrange(0, 3).last() == s[2]);
    assert(voice_digest(s.subrange(0, 3)) == 53785);
    assert(eight_shifts(40961u16, 57u16) == 4800u16 && (53785u16 ^ (32u8 as u16)) % 256 == 57u16
        && (53785u16 >> 8u16) ^ 4800u16 == 4626u16) by (bit_vector);
    lemma_step_value(53785, 32, 57, 4800, 4626);
    assert(s.subrange(0, 4).drop_last() =~= s.subrange(0, 3));
    assert(s.subrange(0, 4).last() == s[3]);
    assert(voice_digest(s.subrange(0, 4)) == 4626);
    assert(eight_shifts(40961u16, 18u16) == 3456u16 && (4626u16 ^ (0u8 as u16)) % 256 == 18u16
        && (4626u16 >> 8u16) ^ 3456u16 == 3474u16) by (bit_vector);
    lemma_step_value(4626, 0, 18, 3456, 3474);
    assert(s.subrange(0, 5).drop_last() =~= s.subrange(0, 4));
    assert(s.subrange(0, 5).last() == s[4]);
    assert(voice_digest(s.subrange(0, 5)) == 3474);
    assert(eight_shifts(40961u16, 146u16) == 44417u16 && (3474u16 ^ (0u8 as u16)) % 256 == 146u16
        && (3474u16 >> 8u16) ^ 44417u16 == 44428u16) by (bit_vector);
    lemma_step_value(3474, 0, 146, 44417, 44428);
    assert(s.subrange(0, 6).drop_last() =~= s.subrange(0, 5));
    assert(s.subrange(0, 6).last() == s[5]);
    assert(voice_digest(s.subrange(0, 6)) == 44428);
    assert(eight_shifts(40961u16, 140u16) == 42241u16 && (44428u16 ^ (0u8 as u16)) % 256 == 140u16
        && (44428u16 >> 8u16) ^ 42241u16 == 42412u16) by (bit_vector);
    lemma_step_value(44428, 0, 140, 42241, 42412);
    assert(s.subrange(0, 7).drop_last() =~= s.subrange(0, 6));
    assert(s.subrange(0, 7).last() == s[6]);
    assert(voice_digest(s.subrange(0, 7)) == 42412);
    assert(eight_shifts(40961u16, 172u16) == 32000u16 && (42412u16 ^ (0u8 as u16)) % 256 == 172u16
        && (42412u16 >> 8u16) ^ 32000u16 == 32165u16) by (bit_vector);
    lemma_step_value(42412, 0, 172, 32000, 32165);
    assert(s.subrange(0, 8).drop_last() =~= s.subrange(0, 7));
    assert(s.subrange(0, 8).last() == s[7]);
    assert(voice_digest(s.subrange(0, 8)) == 32165);
    assert(eight_shifts(40961u16, 165u16) == 31680u16 && (32165u16 ^ (0u8 as u16)) % 256 == 165u16
        && (32165u16 >> 8u16) ^ 31680u16 == 31677u16) by (bit_vector);
    lemma_step_value(32165, 0, 165, 31680, 31677);
    assert(s.subrange(0, 9).drop_last() =~= s.subrange(0, 8));
    assert(s.subrange(0, 9).last() == s[8]);
    assert(voice_digest(s.subrange(0, 9)) == 31677);
    assert(eight_shifts(40961u16, 189u16) == 29120u16 && (31677u16 ^ (0u8 as u16)) % 256 == 189u16
        && (31677u16 >> 8u16) ^ 29120u16 == 29115u16) by (bit_vector);
    lemma_step_value(31677, 0, 189, 29120, 29115);
    assert(s.subrange(0, 10).drop_last() =~= s.subrange(0, 9));
    assert(s.subrange(0, 10).last() == s[9]);
    assert(voice_digest(s.subrange(0, 10)) == 29115);
    assert(s.subrange(0, 10) =~= s);
}

/// Lot codes `32abcd` and `32ABCD` give different voice codes for every GTIN
/// and every valid year, month and day. The CRC is linear and leading zero
/// bytes leave it at zero, so the two digests always differ by the exclusive
/// or 29115; no 16-bit value agrees modulo 10000 with its exclusive or by 29115.
pub proof fn lot_case_matters(gtin: Seq<char>, yy: Seq<char>, mm: Seq<char>, dd: Seq<char>)
    requires
        date_component_ok(yy),
        date_component_ok(mm),
        date_component_ok(dd),
    ensures
        voice_code_of(gtin, seq!['3', '2', 'a', 'b', 'c', 'd'], yy, mm, dd) != voice_code_of(
            gtin,
            seq!['3', '2', 'A', 'B', 'C', 'D'],
            yy,
            mm,
            dd,
        ),
{
    let lower = seq!['3', '2', 'a', 'b', 'c', 'd'];
    let upper = seq!['3', '2', 'A', 'B', 'C', 'D'];
    let dates = pad2(yy) + pad2(mm) + pad2(dd);
    let tx = voice_code_text(gtin, lower, yy, mm, dd);
    let ty = voice_code_text(gtin, upper, yy, mm, dd);
    assert(tx =~= gtin + lower + dates);
    assert(ty =~= gtin + upper + dates);
    assert(dates.len() == 6);
    let x = ascii_bytes(tx);
    let y = ascii_bytes(ty);
    let diff = seq![32u8, 32u8, 32u8, 32u8, 0u8, 0u8, 0u8, 0u8, 0u8, 0u8];
    let zeros = zero_bytes((gtin.len() + 2) as nat);
    let g = gtin.len();
    assert('a' as u8 == 97u8 && 'b' as u8 == 98u8 && 'c' as u8 == 99u8 && 'd' as u8 == 100u8);
    assert('A' as u8 == 65u8 && 'B' as u8 == 66u8 && 'C' as u8 == 67u8 && 'D' as u8 == 68u8);
    assert(97u8 ^ 65u8 == 32u8 && 98u8 ^ 66u8 == 32u8 && 99u8 ^ 67u8 == 32u8 && 100u8 ^ 68u8
        == 32u8) by (bit_vector);
    assert forall|i: int| 0 <= i < x.len() implies #[trigger] xor_bytes(x, y)[i] == (zeros
        + diff)[i] by {
        let v = x[i];
        assert(v ^ v == 0u8) by (bit_vector);
        if i < g + 2 {
            if i >= g {
                assert(lower[i - g] == upper[i - g]);
            }
            assert(x[i] == y[i]);
        } else if i >= g + 6 {
            assert(x[i] == y[i]);
        } else {
            let j = i - g;
            assert(x[i] == lower[j] as u8 && y[i] == upper[j] as u8);
            if j == 2 {
            } else if j == 3 {
            } else if j == 4 {
            } else {
            }
        }
    }
    assert(xor_bytes(x, y) =~= zeros + diff);
    lemma_digest_linear(x, y);
    lemma_digest_concat(zeros, diff);
    lemma_digest_zero_bytes((gtin.len() + 2) as nat);
    lemma_digest_from_zero(diff);
    lemma_case_difference();
    let vx = voice_digest(x);
    let vy = voice_digest(y);
    assert(vx ^ vy == 29115u16);
    assert(vx % 10000 != vy % 10000) by (bit_vector)
        requires
            vx ^ vy == 29115u16,
    ;
    voice_code_shape(x);
    voice_code_shape(y);
}

} // verus!
