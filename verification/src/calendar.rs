//! Year-number conversion between the Gregorian calendar and the Thai solar,
//! Dangi (Korean/Vietnamese) and Taiwanese Minguo year-numbering systems.
//!
//! Each mapping is a constant shift of the year label: Thai = Gregorian + 543,
//! Dangi = Gregorian + 2333 (counting from the traditional Dangun epoch,
//! 2333 BCE), Minguo = Gregorian - 1911. The functions are total on `i32`:
//! a shift that leaves the 32-bit range wraps around, which keeps every
//! conversion a bijection on the whole type.
use vstd::prelude::*;

verus! {

/// Adding `k` to a 32-bit year with wrap-around at the type's bounds.
pub open spec fn shift_year(y: int, k: int) -> int {
    if y + k > i32::MAX {
        y + k - 0x1_0000_0000
    } else if y + k < i32::MIN {
        y + k + 0x1_0000_0000
    } else {
        y + k
    }
}

/// Shifting forward and back by the same amount returns every year
/// unchanged: each offset calendar is a total bijection on `i32`.
pub proof fn lemma_shift_year_bijective(y: int, k: int)
    requires
        i32::MIN <= y <= i32::MAX,
        0 <= k < 0x8000_0000,
    ensures
        shift_year(shift_year(y, k), -k) == y,
        shift_year(shift_year(y, -k), k) == y,
{
}

fn shift_i32(y: i32, k: i32) -> (r: i32)
    ensures
        r as int == shift_year(y as int, k as int),
{
    let wide: i64 = y as i64 + k as i64;
    if wide > i32::MAX as i64 {
        (wide - 0x1_0000_0000i64) as i32
    } else if wide < i32::MIN as i64 {
        (wide + 0x1_0000_0000i64) as i32
    } else {
        wide as i32
    }
}

/// The Thai solar (Buddhist era) year of a Gregorian year: Gregorian + 543.
pub fn gregorian_to_thai(year: i32) -> (r: i32)
    ensures
        r as int == shift_year(year as int, 543),
        year + 543 <= i32::MAX ==> r == year + 543,
{
    shift_i32(year, 543)
}

/// The Gregorian year of a Thai solar year: Thai - 543.
pub fn thai_to_gregorian(year: i32) -> (r: i32)
    ensures
        r as int == shift_year(year as int, -543),
        year - 543 >= i32::MIN ==> r == year - 543,
{
    shift_i32(year, -543)
}

/// The Dangi year of a Gregorian year: Gregorian + 2333. The Dangi year
/// label is mapped as an epoch-offset counting convention; no lunisolar
/// month or day arithmetic is involved.
pub fn gregorian_to_dangi(year: i32) -> (r: i32)
    ensures
        r as int == shift_year(year as int, 2333),
        year + 2333 <= i32::MAX ==> r == year + 2333,
{
    shift_i32(year, 2333)
}

/// The Gregorian year of a Dangi year: Dangi - 2333.
pub fn dangi_to_gregorian(year: i32) -> (r: i32)
    ensures
        r as int == shift_year(year as int, -2333),
        year - 2333 >= i32::MIN ==> r == year - 2333,
{
    shift_i32(year, -2333)
}

/// The Minguo (Republic of China) year of a Gregorian year:
/// Gregorian - 1911, so 1912 is Minguo 1.
pub fn gregorian_to_minguo(year: i32) -> (r: i32)
    ensures
        r as int == shift_year(year as int, -1911),
        year - 1911 >= i32::MIN ==> r == year - 1911,
{
    shift_i32(year, -1911)
}

/// The Gregorian year of a Minguo year: Minguo + 1911.
pub fn minguo_to_gregorian(year: i32) -> (r: i32)
    ensures
        r as int == shift_year(year as int, 1911),
        year + 1911 <= i32::MAX ==> r == year + 1911,
{
    shift_i32(year, 1911)
}

/// Converting a Gregorian year to the Thai calendar and back recovers the
/// year, and likewise starting from a Thai year.
pub proof fn lemma_thai_round_trip(y: int)
    requires
        i32::MIN <= y <= i32::MAX,
    ensures
        shift_year(shift_year(y, 543), -543) == y,
        shift_year(shift_year(y, -543), 543) == y,
{
    lemma_shift_year_bijective(y, 543);
}

/// Converting a Gregorian year to the Dangi calendar and back recovers the
/// year, and likewise starting from a Dangi year.
pub proof fn lemma_dangi_round_trip(y: int)
    requires
        i32::MIN <= y <= i32::MAX,
    ensures
        shift_year(shift_year(y, 2333), -2333) == y,
        shift_year(shift_year(y, -2333), 2333) == y,
{
    lemma_shift_year_bijective(y, 2333);
}

/// Converting a Gregorian year to the Minguo calendar and back recovers the
/// year, and likewise starting from a Minguo year.
pub proof fn lemma_minguo_round_trip(y: int)
    requires
        i32::MIN <= y <= i32::MAX,
    ensures
        shift_year(shift_year(y, -1911), 1911) == y,
        shift_year(shift_year(y, 1911), -1911) == y,
{
    lemma_shift_year_bijective(y, 1911);
}

} // verus!
