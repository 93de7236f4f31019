use vstd::prelude::*;
use crate::qr::ErrorKind;
use crate::qr::QRError;

verus! {

/// The `i`-th bit of a byte stream, most significant bit of each byte first.
pub open spec fn spec_bit(bytes: Seq<u8>, i: int) -> bool {
    (bytes[i / 8] >> ((7 - (i % 8)) as u8)) & 1 == 1
}

/// The whole byte stream as a bit sequence, most significant bit first.
pub open spec fn spec_bits_of(bytes: Seq<u8>) -> Seq<bool> {
    Seq::new((8 * bytes.len()) as nat, |i: int| spec_bit(bytes, i))
}

/// Unfold a byte stream into its bit sequence.
pub fn to_bits(bytes: &Vec<u8>) -> (r: Vec<bool>)
    requires
        bytes@.len() <= 100000,
    ensures
        r@ == spec_bits_of(bytes@),
{
    let mut r: Vec<bool> = Vec::new();
    let mut i: usize = 0;
    let end: usize = 8 * bytes.len();
    while i < end
        invariant
            end == 8 * bytes@.len() <= 800000,
            i <= end,
            r@.len() == i,
            forall|k: int| 0 <= k < i ==> r@[k] == spec_bit(bytes@, k),
        decreases end - i,
    {
        proof {
            assert(i / 8 < bytes@.len() && i % 8 <= 7) by (nonlinear_arith)
                requires
                    i < 8 * bytes@.len(),
            ;
        }
        let byte = bytes[i / 8];
        let sh: u8 = (7 - (i % 8)) as u8;
        r.push((byte >> sh) & 1 == 1);
        i += 1;
    }
    proof {
        assert(r@ =~= spec_bits_of(bytes@));
    }
    r
}

/// Two to the `n`-th power.
pub open spec fn two_pow(n: int) -> int
    decreases n,
{
    if n <= 0 {
        1
    } else {
        2 * two_pow(n - 1)
    }
}

/// The value of a bit run, most significant bit first.
pub open spec fn spec_bits_val(bits: Seq<bool>) -> int
    decreases bits.len(),
{
    if bits.len() == 0 {
        0
    } else {
        2 * spec_bits_val(bits.drop_last()) + (if bits.last() {
            1int
        } else {
            0int
        })
    }
}

pub proof fn lemma_bits_val_bound(bits: Seq<bool>)
    ensures
        0 <= spec_bits_val(bits) < two_pow(bits.len() as int),
    decreases bits.len(),
{
    if bits.len() > 0 {
        lemma_bits_val_bound(bits.drop_last());
    }
}

pub proof fn lemma_two_pow_16()
    ensures
        two_pow(16) == 65536,
{
    assert(two_pow(16) == 65536) by {
        reveal_with_fuel(two_pow, 17);
    }
}

proof fn lemma_two_pow_pos(n: int)
    ensures
        two_pow(n) >= 1,
    decreases
            (if n <= 0 {
                0int
            } else {
                n
            }),
{
    if n > 0 {
        lemma_two_pow_pos(n - 1);
    }
}

pub proof fn lemma_two_pow_mono(a: int, b: int)
    requires
        a <= b,
    ensures
        1 <= two_pow(a) <= two_pow(b),
    decreases b - a,
{
    lemma_two_pow_pos(a);
    if a < b {
        lemma_two_pow_mono(a, b - 1);
        lemma_two_pow_pos(b - 1);
    }
}

/// Read `n` bits starting at `start`, most significant bit first.
pub fn bits_val(bits: &Vec<bool>, start: usize, n: usize) -> (r: u32)
    requires
        start + n <= bits@.len(),
        n <= 16,
    ensures
        r == spec_bits_val(bits@.subrange(start as int, start as int + n as int)),
        r < 65536,
{
    let mut r: u32 = 0;
    let mut k: usize = 0;
    let blen = bits.len();
    while k < n
        invariant
            blen == bits@.len(),
            start + n <= bits@.len(),
            n <= 16,
            k <= n,
            r == spec_bits_val(bits@.subrange(start as int, start as int + k as int)),
            r < two_pow(k as int),
        decreases n - k,
    {
        proof {
            lemma_two_pow_mono(k as int, 15);
            lemma_two_pow_16();
            assert(two_pow(15) * 2 == two_pow(16));
            let pre = bits@.subrange(start as int, start as int + k as int);
            let post = bits@.subrange(start as int, start as int + k + 1);
            assert(post.drop_last() =~= pre);
        }
        let b: u32 = if bits[start + k] {
            1
        } else {
            0
        };
        r = 2 * r + b;
        k += 1;
    }
    proof {
        lemma_two_pow_mono(n as int, 16);
        lemma_two_pow_16();
        lemma_bits_val_bound(bits@.subrange(start as int, start as int + n as int));
    }
    r
}

/// Width of the character-count indicator for a mode, by version range.
pub open spec fn spec_cc_width(mode: int, version: u32) -> int {
    if version <= 9 {
        if mode == 1 {
            10
        } else if mode == 2 {
            9
        } else {
            8
        }
    } else if version <= 26 {
        if mode == 1 {
            12
        } else if mode == 2 {
            11
        } else {
            16
        }
    } else {
        if mode == 1 {
            14
        } else if mode == 2 {
            13
        } else {
            16
        }
    }
}

fn cc_width(mode: u32, version: u32) -> (r: usize)
    ensures
        r == spec_cc_width(mode as int, version),
        8 <= r <= 16,
{
    if version <= 9 {
        if mode == 1 {
            10
        } else if mode == 2 {
            9
        } else {
            8
        }
    } else if version <= 26 {
        if mode == 1 {
            12
        } else if mode == 2 {
            11
        } else {
            16
        }
    } else {
        if mode == 1 {
            14
        } else if mode == 2 {
            13
        } else {
            16
        }
    }
}

/// The decimal digit character for a value below ten.
pub open spec fn spec_digit_char(d: int) -> char {
    ((48 + d) as u8) as char
}

fn digit_char(d: u32) -> (r: char)
    requires
        d < 10,
    ensures
        r == spec_digit_char(d as int),
{
    ((48 + d) as u8) as char
}

/// The character for a value of the 45-symbol alphanumeric alphabet.
pub open spec fn spec_alnum_char(v: int) -> char {
    if v < 10 {
        spec_digit_char(v)
    } else if v < 36 {
        ((55 + v) as u8) as char
    } else if v == 36 {
        ' '
    } else if v == 37 {
        '$'
    } else if v == 38 {
        '%'
    } else if v == 39 {
        '*'
    } else if v == 40 {
        '+'
    } else if v == 41 {
        '-'
    } else if v == 42 {
        '.'
    } else if v == 43 {
        '/'
    } else {
        ':'
    }
}

fn alnum_char(v: u32) -> (r: char)
    requires
        v < 45,
    ensures
        r == spec_alnum_char(v as int),
{
    if v < 10 {
        digit_char(v)
    } else if v < 36 {
        ((55 + v) as u8) as char
    } else if v == 36 {
        ' '
    } else if v == 37 {
        '$'
    } else if v == 38 {
        '%'
    } else if v == 39 {
        '*'
    } else if v == 40 {
        '+'
    } else if v == 41 {
        '-'
    } else if v == 42 {
        '.'
    } else if v == 43 {
        '/'
    } else {
        ':'
    }
}

/// Bit length of a numeric payload of `n` digits: ten bits per full group of
/// three digits, then seven or four bits for a two- or one-digit remainder.
pub open spec fn spec_numeric_plen(n: int) -> int {
    10 * (n / 3) + (if n % 3 == 0 {
        0int
    } else if n % 3 == 1 {
        4int
    } else {
        7int
    })
}

/// Bit length of an alphanumeric payload of `n` characters: eleven bits per
/// pair, six for an odd last character.
pub open spec fn spec_alnum_plen(n: int) -> int {
    11 * (n / 2) + 6 * (n % 2)
}

/// Decode a numeric payload of `n` digits from `bits[start..end]`.
pub open spec fn spec_numeric_decode(bits: Seq<bool>, start: int, end: int, n: int) -> Result<
    Seq<char>,
    (),
>
    decreases n,
{
    if n <= 0 {
        if start == end {
            Ok(Seq::<char>::empty())
        } else {
            Err(())
        }
    } else if n >= 3 {
        if end - start < 10 {
            Err(())
        } else {
            let v = spec_bits_val(bits.subrange(start, start + 10));
            if v < 1000 {
                match spec_numeric_decode(bits, start + 10, end, n - 3) {
                    Ok(s) => Ok(
                        seq![
                            spec_digit_char(v / 100),
                            spec_digit_char((v / 10) % 10),
                            spec_digit_char(v % 10),
                        ] + s,
                    ),
                    Err(e) => Err(e),
                }
            } else {
                Err(())
            }
        }
    } else if n == 2 {
        if end - start < 7 {
            Err(())
        } else {
            let v = spec_bits_val(bits.subrange(start, start + 7));
            if v < 100 {
                match spec_numeric_decode(bits, start + 7, end, 0) {
                    Ok(s) => Ok(seq![spec_digit_char(v / 10), spec_digit_char(v % 10)] + s),
                    Err(e) => Err(e),
                }
            } else {
                Err(())
            }
        }
    } else {
        if end - start < 4 {
            Err(())
        } else {
            let v = spec_bits_val(bits.subrange(start, start + 4));
            if v < 10 {
                match spec_numeric_decode(bits, start + 4, end, 0) {
                    Ok(s) => Ok(seq![spec_digit_char(v)] + s),
                    Err(e) => Err(e),
                }
            } else {
                Err(())
            }
        }
    }
}

fn numeric_decode(bits: &Vec<bool>, start: usize, end: usize, n: u32) -> (r: Result<
    Vec<char>,
    QRError,
>)
    requires
        start <= end <= bits@.len(),
    ensures
        match r {
            Ok(s) => spec_numeric_decode(bits@, start as int, end as int, n as int) == Ok::<
                Seq<char>,
                (),
            >(s@),
            Err(e) => spec_numeric_decode(bits@, start as int, end as int, n as int) is Err
                && e.kind == ErrorKind::MalformedDataSegment,
        },
    decreases n,
{
    let malformed = QRError::new(ErrorKind::MalformedDataSegment);
    if n == 0 {
        if start == end {
            Ok(Vec::new())
        } else {
            Err(malformed)
        }
    } else if n >= 3 {
        if end - start < 10 {
            Err(malformed)
        } else {
            let v = bits_val(bits, start, 10);
            if v < 1000 {
                match numeric_decode(bits, start + 10, end, n - 3) {
                    Ok(s) => {
                        let mut out: Vec<char> = Vec::new();
                        out.push(digit_char(v / 100));
                        out.push(digit_char((v / 10) % 10));
                        out.push(digit_char(v % 10));
                        let mut tail = s;
                        out.append(&mut tail);
                        proof {
                            assert(out@ =~= seq![
                                spec_digit_char(v as int / 100),
                                spec_digit_char((v as int / 10) % 10),
                                spec_digit_char(v as int % 10),
                            ] + s@);
                        }
                        Ok(out)
                    },
                    Err(e) => Err(e),
                }
            } else {
                Err(malformed)
            }
        }
    } else if n == 2 {
        if end - start < 7 {
            Err(malformed)
        } else {
            let v = bits_val(bits, start, 7);
            if v < 100 {
                match numeric_decode(bits, start + 7, end, 0) {
                    Ok(s) => {
                        let mut out: Vec<char> = Vec::new();
                        out.push(digit_char(v / 10));
                        out.push(digit_char(v % 10));
                        let mut tail = s;
                        out.append(&mut tail);
                        proof {
                            assert(out@ =~= seq![
                                spec_digit_char(v as int / 10),
                                spec_digit_char(v as int % 10),
                            ] + s@);
                        }
                        Ok(out)
                    },
                    Err(e) => Err(e),
                }
            } else {
                Err(malformed)
            }
        }
    } else {
        if end - start < 4 {
            Err(malformed)
        } else {
            let v = bits_val(bits, start, 4);
            if v < 10 {
                match numeric_decode(bits, start + 4, end, 0) {
                    Ok(s) => {
                        let mut out: Vec<char> = Vec::new();
                        out.push(digit_char(v));
                        let mut tail = s;
                        out.append(&mut tail);
                        proof {
                            assert(out@ =~= seq![spec_digit_char(v as int)] + s@);
                        }
                        Ok(out)
                    },
                    Err(e) => Err(e),
                }
            } else {
                Err(malformed)
            }
        }
    }
}

/// Decode an alphanumeric payload of `n` characters from `bits[start..end]`.
pub open spec fn spec_alnum_decode(bits: Seq<bool>, start: int, end: int, n: int) -> Result<
    Seq<char>,
    (),
>
    decreases n,
{
    if n <= 0 {
        if start == end {
            Ok(Seq::<char>::empty())
        } else {
            Err(())
        }
    } else if n >= 2 {
        if end - start < 11 {
            Err(())
        } else {
            let v = spec_bits_val(bits.subrange(start, start + 11));
            if v < 2025 {
                match spec_alnum_decode(bits, start + 11, end, n - 2) {
                    Ok(s) => Ok(seq![spec_alnum_char(v / 45), spec_alnum_char(v % 45)] + s),
                    Err(e) => Err(e),
                }
            } else {
                Err(())
            }
        }
    } else {
        if end - start < 6 {
            Err(())
        } else {
            let v = spec_bits_val(bits.subrange(start, start + 6));
            if v < 45 {
                match spec_alnum_decode(bits, start + 6, end, 0) {
                    Ok(s) => Ok(seq![spec_alnum_char(v)] + s),
                    Err(e) => Err(e),
                }
            } else {
                Err(())
            }
        }
    }
}

fn alnum_decode(bits: &Vec<bool>, start: usize, end: usize, n: u32) -> (r: Result<
    Vec<char>,
    QRError,
>)
    requires
        start <= end <= bits@.len(),
    ensures
        match r {
            Ok(s) => spec_alnum_decode(bits@, start as int, end as int, n as int) == Ok::<
                Seq<char>,
                (),
            >(s@),
            Err(e) => spec_alnum_decode(bits@, start as int, end as int, n as int) is Err && e.kind
                == ErrorKind::MalformedDataSegment,
        },
    decreases n,
{
    let malformed = QRError::new(ErrorKind::MalformedDataSegment);
    if n == 0 {
        if start == end {
            Ok(Vec::new())
        } else {
            Err(malformed)
        }
    } else if n >= 2 {
        if end - start < 11 {
            Err(malformed)
        } else {
            let v = bits_val(bits, start, 11);
            if v < 2025 {
                match alnum_decode(bits, start + 11, end, n - 2) {
                    Ok(s) => {
                        let mut out: Vec<char> = Vec::new();
                        out.push(alnum_char(v / 45));
                        out.push(alnum_char(v % 45));
                        let mut tail = s;
                        out.append(&mut tail);
                        proof {
                            assert(out@ =~= seq![
                                spec_alnum_char(v as int / 45),
                                spec_alnum_char(v as int % 45),
                            ] + s@);
                        }
                        Ok(out)
                    },
                    Err(e) => Err(e),
                }
            } else {
                Err(malformed)
            }
        }
    } else {
        if end - start < 6 {
            Err(malformed)
        } else {
            let v = bits_val(bits, start, 6);
            if v < 45 {
                match alnum_decode(bits, start + 6, end, 0) {
                    Ok(s) => {
                        let mut out: Vec<char> = Vec::new();
                        out.push(alnum_char(v));
                        let mut tail = s;
                        out.append(&mut tail);
                        proof {
                            assert(out@ =~= seq![spec_alnum_char(v as int)] + s@);
                        }
                        Ok(out)
                    },
                    Err(e) => Err(e),
                }
            } else {
                Err(malformed)
            }
        }
    }
}

/// Decode a byte payload of `n` bytes from `bits[start..end]`; each byte is
/// handed through as the character with that code point.
pub open spec fn spec_byte_decode(bits: Seq<bool>, start: int, end: int, n: int) -> Result<
    Seq<char>,
    (),
>
    decreases n,
{
    if n <= 0 {
        if start == end {
            Ok(Seq::<char>::empty())
        } else {
            Err(())
        }
    } else {
        if end - start < 8 {
            Err(())
        } else {
            let v = spec_bits_val(bits.subrange(start, start + 8));
            match spec_byte_decode(bits, start + 8, end, n - 1) {
                Ok(s) => Ok(seq![(v as u8) as char] + s),
                Err(e) => Err(e),
            }
        }
    }
}

fn byte_decode(bits: &Vec<bool>, start: usize, end: usize, n: u32) -> (r: Result<
    Vec<char>,
    QRError,
>)
    requires
        start <= end <= bits@.len(),
    ensures
        match r {
            Ok(s) => spec_byte_decode(bits@, start as int, end as int, n as int) == Ok::<
                Seq<char>,
                (),
            >(s@),
            Err(e) => spec_byte_decode(bits@, start as int, end as int, n as int) is Err && e.kind
                == ErrorKind::MalformedDataSegment,
        },
    decreases n,
{
    let malformed = QRError::new(ErrorKind::MalformedDataSegment);
    if n == 0 {
        if start == end {
            Ok(Vec::new())
        } else {
            Err(malformed)
        }
    } else {
        if end - start < 8 {
            Err(malformed)
        } else {
            let v = bits_val(bits, start, 8);
            proof {
                lemma_bits_val_bound(bits@.subrange(start as int, start as int + 8));
                assert(two_pow(8) == 256) by {
                    reveal_with_fuel(two_pow, 9);
                }
            }
            match byte_decode(bits, start + 8, end, n - 1) {
                Ok(s) => {
                    let mut out: Vec<char> = Vec::new();
                    out.push((v as u8) as char);
                    let mut tail = s;
                    out.append(&mut tail);
                    proof {
                        assert(out@ =~= seq![(v as u8) as char] + s@);
                    }
                    Ok(out)
                },
                Err(e) => Err(e),
            }
        }
    }
}

/// Valid padding after the terminator: zero bits up to the next byte
/// boundary, then the two pad codewords in alternation.
pub open spec fn spec_padding_ok(bits: Seq<bool>, pos: int, ec_next: bool) -> bool
    decreases bits.len() - pos,
{
    if pos >= bits.len() {
        true
    } else if pos % 8 != 0 {
        !bits[pos] && spec_padding_ok(bits, pos + 1, ec_next)
    } else if bits.len() - pos < 8 {
        false
    } else {
        &&& spec_bits_val(bits.subrange(pos, pos + 8)) == (if ec_next {
            236int
        } else {
            17int
        })
        &&& spec_padding_ok(bits, pos + 8, !ec_next)
    }
}

fn padding_ok(bits: &Vec<bool>, pos: usize, ec_next: bool) -> (r: bool)
    requires
        pos <= bits@.len(),
    ensures
        r == spec_padding_ok(bits@, pos as int, ec_next),
    decreases bits@.len() - pos,
{
    if pos >= bits.len() {
        true
    } else if pos % 8 != 0 {
        !bits[pos] && padding_ok(bits, pos + 1, ec_next)
    } else if bits.len() - pos < 8 {
        false
    } else {
        let v = bits_val(bits, pos, 8);
        let expect: u32 = if ec_next {
            236
        } else {
            17
        };
        v == expect && padding_ok(bits, pos + 8, !ec_next)
    }
}

/// Parse the mode segments of a data bitstream from `pos` on: a 4-bit mode
/// indicator, a character count whose width depends on mode and version,
/// then the payload; segments repeat until a terminator or until fewer than
/// four bits remain. Trailing bits must follow the padding rules.
pub open spec fn spec_parse_segments(bits: Seq<bool>, pos: int, version: u32) -> Result<
    Seq<char>,
    (),
>
    decreases bits.len() - pos,
{
    if bits.len() - pos < 4 {
        if forall|i: int| pos <= i < bits.len() ==> !bits[i] {
            Ok(Seq::<char>::empty())
        } else {
            Err(())
        }
    } else {
        let mode = spec_bits_val(bits.subrange(pos, pos + 4));
        if mode == 0 {
            if spec_padding_ok(bits, pos + 4, true) {
                Ok(Seq::<char>::empty())
            } else {
                Err(())
            }
        } else if mode == 1 || mode == 2 || mode == 4 {
            let w = spec_cc_width(mode, version);
            if bits.len() - pos < 4 + w {
                Err(())
            } else {
                let n = spec_bits_val(bits.subrange(pos + 4, pos + 4 + w));
                let plen = if mode == 1 {
                    spec_numeric_plen(n)
                } else if mode == 2 {
                    spec_alnum_plen(n)
                } else {
                    8 * n
                };
                if bits.len() - pos < 4 + w + plen {
                    Err(())
                } else {
                    let seg = if mode == 1 {
                        spec_numeric_decode(bits, pos + 4 + w, pos + 4 + w + plen, n)
                    } else if mode == 2 {
                        spec_alnum_decode(bits, pos + 4 + w, pos + 4 + w + plen, n)
                    } else {
                        spec_byte_decode(bits, pos + 4 + w, pos + 4 + w + plen, n)
                    };
                    match seg {
                        Ok(s) => match spec_parse_segments(bits, pos + 4 + w + plen, version) {
                            Ok(rest) => Ok(s + rest),
                            Err(e) => Err(e),
                        },
                        Err(e) => Err(e),
                    }
                }
            }
        } else {
            Err(())
        }
    }
}

fn all_clear(bits: &Vec<bool>, pos: usize) -> (r: bool)
    requires
        pos <= bits@.len(),
    ensures
        r == (forall|i: int| pos <= i < bits@.len() ==> !bits@[i]),
{
    let mut k: usize = pos;
    while k < bits.len()
        invariant
            pos <= k <= bits@.len(),
            forall|i: int| pos <= i < k ==> !bits@[i],
        decreases bits.len() - k,
    {
        if bits[k] {
            return false;
        }
        k += 1;
    }
    true
}

/// Parse the mode segments of a data bitstream, mirroring
/// `spec_parse_segments` exactly.
pub fn parse_segments(bits: &Vec<bool>, pos: usize, version: u32) -> (r: Result<Vec<char>, QRError>)
    requires
        pos <= bits@.len(),
    ensures
        match r {
            Ok(s) => spec_parse_segments(bits@, pos as int, version) == Ok::<Seq<char>, ()>(s@),
            Err(e) => spec_parse_segments(bits@, pos as int, version) is Err && e.kind
                == ErrorKind::MalformedDataSegment,
        },
    decreases bits@.len() - pos,
{
    let malformed = QRError::new(ErrorKind::MalformedDataSegment);
    if bits.len() - pos < 4 {
        if all_clear(bits, pos) {
            Ok(Vec::new())
        } else {
            Err(malformed)
        }
    } else {
        let mode = bits_val(bits, pos, 4);
        if mode == 0 {
            if padding_ok(bits, pos + 4, true) {
                Ok(Vec::new())
            } else {
                Err(malformed)
            }
        } else if mode == 1 || mode == 2 || mode == 4 {
            let w = cc_width(mode, version);
            if bits.len() - pos < 4 + w {
                Err(malformed)
            } else {
                let n = bits_val(bits, pos + 4, w);
                let plen: usize = if mode == 1 {
                    10 * ((n as usize) / 3) + (if n % 3 == 0 {
                        0
                    } else if n % 3 == 1 {
                        4
                    } else {
                        7
                    })
                } else if mode == 2 {
                    11 * ((n as usize) / 2) + 6 * ((n as usize) % 2)
                } else {
                    8 * (n as usize)
                };
                if bits.len() - pos < 4 + w + plen {
                    Err(malformed)
                } else {
                    let seg_start = pos + 4 + w;
                    let seg_end = pos + 4 + w + plen;
                    let seg = if mode == 1 {
                        numeric_decode(bits, seg_start, seg_end, n)
                    } else if mode == 2 {
                        alnum_decode(bits, seg_start, seg_end, n)
                    } else {
                        byte_decode(bits, seg_start, seg_end, n)
                    };
                    match seg {
                        Ok(s) => match parse_segments(bits, seg_end, version) {
                            Ok(rest) => {
                                let mut out = s;
                                let mut tail = rest;
                                out.append(&mut tail);
                                Ok(out)
                            },
                            Err(e) => Err(e),
                        },
                        Err(e) => Err(e),
                    }
                }
            }
        } else {
            Err(malformed)
        }
    }
}

/// Parsing a whole data-codeword stream for a symbol of the given version.
pub open spec fn spec_parse_data(bytes: Seq<u8>, version: u32) -> Result<Seq<char>, ()> {
    spec_parse_segments(spec_bits_of(bytes), 0, version)
}

/// Parse the final data-codeword stream into the decoded characters.
pub fn parse_data(codewords: &Vec<u8>, version: u32) -> (r: Result<Vec<char>, QRError>)
    requires
        codewords@.len() <= 100000,
    ensures
        match r {
            Ok(s) => spec_parse_data(codewords@, version) == Ok::<Seq<char>, ()>(s@),
            Err(e) => spec_parse_data(codewords@, version) is Err && e.kind
                == ErrorKind::MalformedDataSegment,
        },
{
    let bits = to_bits(codewords);
    parse_segments(&bits, 0, version)
}

} // verus!
