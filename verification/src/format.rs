use vstd::prelude::*;
use crate::qr::ErrorKind;
use crate::qr::QRData;
use crate::qr::QRError;

verus! {

/// The error-correction level encoded in a symbol's format information.
#[derive(Clone, Copy, PartialEq, Eq, Structural, Debug)]
pub enum ECLevel {
    LOW,
    MEDIUM,
    QUARTILE,
    HIGH,
}

/// The two level bits of the format data, as the standard assigns them.
pub open spec fn spec_level_bits(level: ECLevel) -> u16 {
    match level {
        ECLevel::LOW => 1,
        ECLevel::MEDIUM => 0,
        ECLevel::QUARTILE => 3,
        ECLevel::HIGH => 2,
    }
}

/// The level named by two format-data bits.
pub open spec fn spec_level_of_bits(b: u16) -> ECLevel {
    if b == 1 {
        ECLevel::LOW
    } else if b == 0 {
        ECLevel::MEDIUM
    } else if b == 3 {
        ECLevel::QUARTILE
    } else {
        ECLevel::HIGH
    }
}

fn level_of_bits(b: u16) -> (r: ECLevel)
    ensures
        r == spec_level_of_bits(b),
{
    if b == 1 {
        ECLevel::LOW
    } else if b == 0 {
        ECLevel::MEDIUM
    } else if b == 3 {
        ECLevel::QUARTILE
    } else {
        ECLevel::HIGH
    }
}

/// Remainder step of dividing a 15-bit word by the format generator
/// polynomial 0x537, clearing bits 14 down to 10.
pub open spec fn spec_bch_div(r: u16, i: u16) -> u16
    decreases i,
{
    if i < 10 {
        r
    } else {
        let r2 = if r & (1u16 << i) != 0 {
            r ^ (0x537u16 << (i - 10))
        } else {
            r
        };
        spec_bch_div(r2, (i - 1) as u16)
    }
}

fn bch_div(r: u16, i: u16) -> (res: u16)
    requires
        i <= 14,
    ensures
        res == spec_bch_div(r, i),
    decreases i,
{
    if i < 10 {
        r
    } else {
        let r2 = if r & (1u16 << i) != 0 {
            r ^ (0x537u16 << (i - 10))
        } else {
            r
        };
        bch_div(r2, i - 1)
    }
}

/// The 15-bit BCH codeword carrying the 5 format-data bits `d`.
pub open spec fn spec_format_code(d: u16) -> u16 {
    (d << 10) ^ spec_bch_div(d << 10, 14)
}

fn format_code(d: u16) -> (r: u16)
    requires
        d < 32,
    ensures
        r == spec_format_code(d),
{
    (d << 10) ^ bch_div(d << 10, 14)
}

/// Count of set bits among the low `i` bits of `x`.
pub open spec fn spec_ones(x: u16, i: u16) -> int
    decreases i,
{
    if i == 0 {
        0
    } else {
        (if x & 1 != 0 {
            1int
        } else {
            0int
        }) + spec_ones(x >> 1, (i - 1) as u16)
    }
}

proof fn lemma_ones_bound(x: u16, i: u16)
    ensures
        0 <= spec_ones(x, i) <= i,
    decreases i,
{
    if i > 0 {
        lemma_ones_bound(x >> 1, (i - 1) as u16);
    }
}

fn ones(x: u16, i: u16) -> (r: u16)
    requires
        i <= 16,
    ensures
        r == spec_ones(x, i),
    decreases i,
{
    if i == 0 {
        0
    } else {
        proof {
            lemma_ones_bound(x >> 1, (i - 1) as u16);
        }
        let low: u16 = if x & 1 != 0 {
            1
        } else {
            0
        };
        low + ones(x >> 1, i - 1)
    }
}

/// Hamming distance between two 15-bit words.
pub open spec fn spec_dist15(a: u16, b: u16) -> int {
    spec_ones((a ^ b) & 0x7FFF, 15)
}

fn dist15(a: u16, b: u16) -> (r: u16)
    ensures
        r == spec_dist15(a, b),
{
    ones((a ^ b) & 0x7FFF, 15)
}

/// Exhaustive search for the first 5-bit data value whose codeword lies
/// within Hamming distance 3 of the read word `f`.
pub open spec fn spec_format_search(f: u16, d: u16) -> Option<u16>
    decreases 32 - d,
{
    if d >= 32 {
        None
    } else if spec_dist15(spec_format_code(d), f) <= 3 {
        Some(d)
    } else {
        spec_format_search(f, (d + 1) as u16)
    }
}

fn format_search(f: u16, d: u16) -> (r: Option<u16>)
    requires
        d <= 32,
    ensures
        r == spec_format_search(f, d),
    decreases 32 - d,
{
    if d >= 32 {
        None
    } else if dist15(format_code(d), f) <= 3 {
        Some(d)
    } else {
        format_search(f, d + 1)
    }
}

/// Decode one raw 15-bit format word: undo the fixed format mask, then
/// correct it against the BCH code; `None` when no codeword lies within
/// distance 3.
pub open spec fn spec_format_decode(raw: u16) -> Option<(ECLevel, u8)> {
    match spec_format_search(raw ^ 0x5412, 0) {
        Some(d) => Some((spec_level_of_bits(d >> 3), (d & 7) as u8)),
        None => None,
    }
}

pub fn format_decode(raw: u16) -> (r: Option<(ECLevel, u8)>)
    ensures
        r == spec_format_decode(raw),
{
    match format_search(raw ^ 0x5412, 0) {
        Some(d) => Some((level_of_bits(d >> 3), (d & 7) as u8)),
        None => None,
    }
}

/// The canonical bit at `(x, y)` widened to a format-word bit.
pub open spec fn spec_b(m: &QRData, x: int, y: int) -> u16 {
    m.bit_at(x, y) as u16
}

/// The 15-bit word read from the format copy beside the top-left finder
/// pattern, most significant bit first.
pub open spec fn spec_format_raw1(m: &QRData) -> u16 {
    (spec_b(m, 0, 8) * 0x4000 + spec_b(m, 1, 8) * 0x2000 + spec_b(m, 2, 8) * 0x1000
        + spec_b(m, 3, 8) * 0x800 + spec_b(m, 4, 8) * 0x400 + spec_b(m, 5, 8) * 0x200
        + spec_b(m, 7, 8) * 0x100 + spec_b(m, 8, 8) * 0x80 + spec_b(m, 8, 7) * 0x40
        + spec_b(m, 8, 5) * 0x20 + spec_b(m, 8, 4) * 0x10 + spec_b(m, 8, 3) * 0x8
        + spec_b(m, 8, 2) * 0x4 + spec_b(m, 8, 1) * 0x2 + spec_b(m, 8, 0) * 0x1) as u16
}

/// The 15-bit word read from the second format copy, split between the
/// bottom-left and top-right finder patterns, most significant bit first.
pub open spec fn spec_format_raw2(m: &QRData) -> u16 {
    (spec_b(m, 8, m.side - 1) * 0x4000 + spec_b(m, 8, m.side - 2) * 0x2000
        + spec_b(m, 8, m.side - 3) * 0x1000 + spec_b(m, 8, m.side - 4) * 0x800
        + spec_b(m, 8, m.side - 5) * 0x400 + spec_b(m, 8, m.side - 6) * 0x200
        + spec_b(m, 8, m.side - 7) * 0x100 + spec_b(m, m.side - 8, 8) * 0x80
        + spec_b(m, m.side - 7, 8) * 0x40 + spec_b(m, m.side - 6, 8) * 0x20
        + spec_b(m, m.side - 5, 8) * 0x10 + spec_b(m, m.side - 4, 8) * 0x8
        + spec_b(m, m.side - 3, 8) * 0x4 + spec_b(m, m.side - 2, 8) * 0x2
        + spec_b(m, m.side - 1, 8) * 0x1) as u16
}

fn bit16(m: &QRData, x: u32, y: u32) -> (r: u16)
    requires
        m.wf(),
        x < m.side,
        y < m.side,
    ensures
        r == spec_b(m, x as int, y as int),
        r <= 1,
{
    m.index([x, y]) as u16
}

pub fn read_format_raw1(m: &QRData) -> (r: u16)
    requires
        m.wf(),
    ensures
        r == spec_format_raw1(m),
{
    bit16(m, 0, 8) * 0x4000 + bit16(m, 1, 8) * 0x2000 + bit16(m, 2, 8) * 0x1000
        + bit16(m, 3, 8) * 0x800 + bit16(m, 4, 8) * 0x400 + bit16(m, 5, 8) * 0x200
        + bit16(m, 7, 8) * 0x100 + bit16(m, 8, 8) * 0x80 + bit16(m, 8, 7) * 0x40
        + bit16(m, 8, 5) * 0x20 + bit16(m, 8, 4) * 0x10 + bit16(m, 8, 3) * 0x8
        + bit16(m, 8, 2) * 0x4 + bit16(m, 8, 1) * 0x2 + bit16(m, 8, 0) * 0x1
}

pub fn read_format_raw2(m: &QRData) -> (r: u16)
    requires
        m.wf(),
    ensures
        r == spec_format_raw2(m),
{
    let s = m.side;
    bit16(m, 8, s - 1) * 0x4000 + bit16(m, 8, s - 2) * 0x2000 + bit16(m, 8, s - 3) * 0x1000
        + bit16(m, 8, s - 4) * 0x800 + bit16(m, 8, s - 5) * 0x400 + bit16(m, 8, s - 6) * 0x200
        + bit16(m, 8, s - 7) * 0x100 + bit16(m, s - 8, 8) * 0x80 + bit16(m, s - 7, 8) * 0x40
        + bit16(m, s - 6, 8) * 0x20 + bit16(m, s - 5, 8) * 0x10 + bit16(m, s - 4, 8) * 0x8
        + bit16(m, s - 3, 8) * 0x4 + bit16(m, s - 2, 8) * 0x2 + bit16(m, s - 1, 8) * 0x1
}

/// Reading the format information of a matrix: the first copy decides when
/// it is readable, else the second copy, else the matrix is unreadable.
pub open spec fn spec_format_parse(m: &QRData) -> Result<(ECLevel, u8), ()> {
    match spec_format_decode(spec_format_raw1(m)) {
        Some(p) => Ok(p),
        None => match spec_format_decode(spec_format_raw2(m)) {
            Some(p) => Ok(p),
            None => Err(()),
        },
    }
}

/// Read and error-correct the format information of a matrix, yielding the
/// error-correction level and the mask-pattern index.
pub fn format_parse(m: &QRData) -> (r: Result<(ECLevel, u8), QRError>)
    requires
        m.wf(),
    ensures
        match r {
            Ok(p) => spec_format_parse(m) == Ok::<(ECLevel, u8), ()>(p),
            Err(e) => spec_format_parse(m) is Err && e.kind == ErrorKind::UnreadableFormatInfo,
        },
{
    match format_decode(read_format_raw1(m)) {
        Some(p) => Ok(p),
        None => match format_decode(read_format_raw2(m)) {
            Some(p) => Ok(p),
            None => Err(QRError::new(ErrorKind::UnreadableFormatInfo)),
        },
    }
}

} // verus!
