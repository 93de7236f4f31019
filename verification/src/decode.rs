use vstd::prelude::*;
use vstd::arithmetic::div_mod::lemma_fundamental_div_mod_converse;
use crate::binary::BinaryImage;
use crate::blocks::deinterleave;
use crate::blocks::spec_block_at;
use crate::extract::extract;
use crate::extract::lemma_extract_seq_total;
use crate::extract::spec_cross;
use crate::extract::spec_matrix_data;
use crate::locate::locate;
use crate::locate::spec_locate;
use crate::correct::correct;
use crate::data::lemma_bits_val_bound;
use crate::data::lemma_two_pow_16;
use crate::data::lemma_two_pow_mono;
use crate::data::parse_data;
use crate::data::spec_parse_data;
use crate::data::spec_bits_val;
use crate::data::two_pow;
use crate::format::format_parse;
use crate::galois::spec_syndromes_zero;
use crate::format::spec_format_parse;
use crate::format::ECLevel;
use crate::qr::block_info;
use crate::qr::spec_block_info;
use crate::qr::ErrorKind;
use crate::qr::QRData;
use crate::qr::QRError;
use crate::qr::QRLocation;

verus! {

/// The eight standard mask formulas; a module is flipped where the formula
/// holds of its column `x` and row `y`.
pub open spec fn spec_mask(mask: int, x: int, y: int) -> bool {
    if mask == 0 {
        (x + y) % 2 == 0
    } else if mask == 1 {
        y % 2 == 0
    } else if mask == 2 {
        x % 3 == 0
    } else if mask == 3 {
        (x + y) % 3 == 0
    } else if mask == 4 {
        (y / 2 + x / 3) % 2 == 0
    } else if mask == 5 {
        (x * y) % 2 + (x * y) % 3 == 0
    } else if mask == 6 {
        ((x * y) % 2 + (x * y) % 3) % 2 == 0
    } else {
        ((x + y) % 2 + (x * y) % 3) % 2 == 0
    }
}

/// Evaluate a mask formula at one module coordinate.
pub fn mask_value(mask: u8, x: u32, y: u32) -> (r: bool)
    requires
        x < 4096,
        y < 4096,
    ensures
        r == spec_mask(mask as int, x as int, y as int),
{
    proof {
        assert(x * y < 4096 * 4096) by (nonlinear_arith)
            requires
                x < 4096,
                y < 4096,
        ;
    }
    if mask == 0 {
        (x + y) % 2 == 0
    } else if mask == 1 {
        y % 2 == 0
    } else if mask == 2 {
        x % 3 == 0
    } else if mask == 3 {
        (x + y) % 3 == 0
    } else if mask == 4 {
        (y / 2 + x / 3) % 2 == 0
    } else if mask == 5 {
        (x * y) % 2 + (x * y) % 3 == 0
    } else if mask == 6 {
        ((x * y) % 2 + (x * y) % 3) % 2 == 0
    } else {
        ((x + y) % 2 + (x * y) % 3) % 2 == 0
    }
}

/// The fixed function patterns every symbol shares: the three finder
/// patterns with their separators and format areas, and the two timing
/// lines. Layouts with further reserved areas only occur in version classes
/// that stop at the block-table lookup, before any module is consumed.
pub open spec fn spec_is_function(side: int, x: int, y: int) -> bool {
    ||| x <= 8 && y <= 8
    ||| x >= side - 8 && y <= 8
    ||| x <= 8 && y >= side - 8
    ||| x == 6
    ||| y == 6
}

pub fn is_function_module(side: u32, x: u32, y: u32) -> (r: bool)
    requires
        side >= 21,
        x < 4096,
        y < 4096,
    ensures
        r == spec_is_function(side as int, x as int, y as int),
{
    (x <= 8 && y <= 8) || (x + 8 >= side && y <= 8) || (x <= 8 && y + 8 >= side) || x == 6 || y
        == 6
}

/// The version classes whose only reserved areas are the ones every symbol
/// shares (finder patterns with separators and format areas, and the timing
/// lines): the first version class alone; the larger classes add alignment
/// and version-information areas, and every populated block-table row lies
/// in this class.
pub open spec fn spec_plain_layout(version: u32) -> bool {
    version == 1
}

/// The data modules of one column pair, rows in scan direction: the right
/// cell before the left cell, function modules skipped.
pub open spec fn spec_traverse_rows(side: int, col: int, upward: bool, row: int) -> Seq<(u32, u32)>
    decreases side - row,
{
    if row < 0 || row >= side {
        Seq::empty()
    } else {
        let y = if upward {
            side - 1 - row
        } else {
            row
        };
        let first: Seq<(u32, u32)> = if !spec_is_function(side, col, y) {
            seq![(col as u32, y as u32)]
        } else {
            Seq::empty()
        };
        let second: Seq<(u32, u32)> = if !spec_is_function(side, col - 1, y) {
            seq![((col - 1) as u32, y as u32)]
        } else {
            Seq::empty()
        };
        first + second + spec_traverse_rows(side, col, upward, row + 1)
    }
}

/// The zig-zag traversal from the column pair whose right column is `col`
/// leftward: the vertical timing column is skipped, and the scan direction
/// alternates with every pair.
pub open spec fn spec_traverse_cols(side: int, col: int, upward: bool) -> Seq<(u32, u32)>
    decreases col + 1,
{
    if col < 1 {
        Seq::empty()
    } else if col == 6 {
        spec_traverse_cols(side, 5, upward)
    } else {
        spec_traverse_rows(side, col, upward, 0) + spec_traverse_cols(side, col - 2, !upward)
    }
}

/// The whole data-region traversal of a symbol, starting upward at the
/// right edge.
pub open spec fn spec_data_positions(side: int) -> Seq<(u32, u32)> {
    spec_traverse_cols(side, side - 1, true)
}

/// The fixed zig-zag traversal of the data region: column pairs from the
/// right edge leftward, skipping the vertical timing column, alternating
/// upward and downward, right cell before left cell, function modules
/// skipped. Stated for the version classes without further reserved areas,
/// the only ones any populated block-table row names.
pub fn data_positions(version: u32, side: u32) -> (r: Vec<(u32, u32)>)
    requires
        spec_plain_layout(version),
        side == crate::spec_side(version),
    ensures
        r@ == spec_data_positions(side as int),
        forall|i: int|
            0 <= i < r@.len() ==> (#[trigger] r@[i]).0 < side && r@[i].1 < side
                && !spec_is_function(side as int, r@[i].0 as int, r@[i].1 as int),
{
    let ghost full = spec_data_positions(side as int);
    let mut ps: Vec<(u32, u32)> = Vec::new();
    let mut col: i64 = side as i64 - 1;
    let mut upward: bool = true;
    proof {
        assert(ps@ + spec_traverse_cols(side as int, col as int, upward) =~= full);
    }
    while col >= 1
        invariant
            21 <= side <= 177,
            col <= side - 1,
            full == spec_data_positions(side as int),
            ps@ + spec_traverse_cols(side as int, col as int, upward) == full,
            forall|i: int|
                0 <= i < ps@.len() ==> (#[trigger] ps@[i]).0 < side && ps@[i].1 < side
                    && !spec_is_function(side as int, ps@[i].0 as int, ps@[i].1 as int),
        decreases col + 1,
    {
        if col == 6 {
            col = 5;
        } else {
            let c0 = col as u32;
            let c1 = (col - 1) as u32;
            let ghost base = ps@;
            let mut row: u32 = 0;
            proof {
                assert(base + spec_traverse_rows(side as int, col as int, upward, 0) =~= ps@
                    + spec_traverse_rows(side as int, col as int, upward, row as int));
            }
            while row < side
                invariant
                    21 <= side <= 177,
                    1 <= col <= side - 1,
                    col != 6,
                    c0 == col,
                    c1 == col - 1,
                    row <= side,
                    base + spec_traverse_rows(side as int, col as int, upward, 0) == ps@
                        + spec_traverse_rows(side as int, col as int, upward, row as int),
                    forall|i: int|
                        0 <= i < ps@.len() ==> (#[trigger] ps@[i]).0 < side && ps@[i].1 < side
                            && !spec_is_function(side as int, ps@[i].0 as int, ps@[i].1 as int),
                decreases side - row,
            {
                let ghost before = ps@;
                let y = if upward {
                    side - 1 - row
                } else {
                    row
                };
                if !is_function_module(side, c0, y) {
                    ps.push((c0, y));
                }
                if !is_function_module(side, c1, y) {
                    ps.push((c1, y));
                }
                proof {
                    let gy = y as int;
                    let first: Seq<(u32, u32)> = if !spec_is_function(side as int, col as int, gy) {
                        seq![(c0, y)]
                    } else {
                        Seq::empty()
                    };
                    let second: Seq<(u32, u32)> = if !spec_is_function(
                        side as int,
                        col as int - 1,
                        gy,
                    ) {
                        seq![(c1, y)]
                    } else {
                        Seq::empty()
                    };
                    assert(ps@ =~= before + first + second);
                    assert(spec_traverse_rows(side as int, col as int, upward, row as int) == first
                        + second + spec_traverse_rows(side as int, col as int, upward, row + 1));
                    assert(before + spec_traverse_rows(side as int, col as int, upward, row as int)
                        =~= ps@ + spec_traverse_rows(side as int, col as int, upward, row + 1));
                }
                row += 1;
            }
            proof {
                assert(spec_traverse_rows(side as int, col as int, upward, side as int)
                    =~= Seq::<(u32, u32)>::empty());
                assert(ps@ =~= base + spec_traverse_rows(side as int, col as int, upward, 0));
                assert(spec_traverse_cols(side as int, col as int, upward) == spec_traverse_rows(
                    side as int,
                    col as int,
                    upward,
                    0,
                ) + spec_traverse_cols(side as int, col as int - 2, !upward));
                assert(ps@ + spec_traverse_cols(side as int, col as int - 2, !upward) =~= full);
            }
            upward = !upward;
            col = col - 2;
        }
    }
    proof {
        assert(spec_traverse_cols(side as int, col as int, upward) =~= Seq::<(u32, u32)>::empty());
        assert(ps@ =~= full);
    }
    ps
}

/// The canonical module bit at `(x, y)` with the mask formula undone.
pub open spec fn spec_unmasked_bit(m: &QRData, mask: u8, x: int, y: int) -> bool {
    (m.bit_at(x, y) == 1) != spec_mask(mask as int, x, y)
}

/// The eight unmasked bits forming codeword `k` of a traversal `ps`.
pub open spec fn spec_codeword_bits(m: &QRData, mask: u8, ps: Seq<(u32, u32)>, k: int) -> Seq<
    bool,
> {
    Seq::new(
        8,
        |j: int| spec_unmasked_bit(m, mask, ps[8 * k + j].0 as int, ps[8 * k + j].1 as int),
    )
}

/// Read the unmasked data-region bits along the traversal into codewords,
/// eight bits each, most significant bit first; a trailing remainder of
/// fewer than eight bits is discarded.
pub fn read_codewords(m: &QRData, mask: u8, ps: &Vec<(u32, u32)>) -> (r: Vec<u8>)
    requires
        m.wf(),
        forall|i: int|
            0 <= i < ps@.len() ==> (#[trigger] ps@[i]).0 < m.side && ps@[i].1 < m.side,
    ensures
        r@.len() == ps@.len() / 8,
        forall|k: int|
            0 <= k < r@.len() ==> (#[trigger] r@[k]) as int == spec_bits_val(
                spec_codeword_bits(m, mask, ps@, k),
            ),
{
    let nbytes: usize = ps.len() / 8;
    let pslen: usize = ps.len();
    proof {
        assert(8 * (ps@.len() as int / 8) <= ps@.len());
    }
    let mut r: Vec<u8> = Vec::new();
    let mut k: usize = 0;
    while k < nbytes
        invariant
            m.wf(),
            forall|i: int|
                0 <= i < ps@.len() ==> (#[trigger] ps@[i]).0 < m.side && ps@[i].1 < m.side,
            nbytes == ps@.len() / 8,
            pslen == ps@.len(),
            8 * nbytes <= ps@.len(),
            k <= nbytes,
            r@.len() == k,
            forall|x: int|
                0 <= x < k ==> (#[trigger] r@[x]) as int == spec_bits_val(
                    spec_codeword_bits(m, mask, ps@, x),
                ),
        decreases nbytes - k,
    {
        let ghost bitsk = spec_codeword_bits(m, mask, ps@, k as int);
        let mut byte: u32 = 0;
        let mut j: usize = 0;
        while j < 8
            invariant
                m.wf(),
                forall|i: int|
                    0 <= i < ps@.len() ==> (#[trigger] ps@[i]).0 < m.side && ps@[i].1 < m.side,
                k < nbytes,
                pslen == ps@.len(),
                8 * nbytes <= ps@.len(),
                bitsk == spec_codeword_bits(m, mask, ps@, k as int),
                j <= 8,
                byte == spec_bits_val(bitsk.subrange(0, j as int)),
                byte < two_pow(j as int),
            decreases 8 - j,
        {
            proof {
                lemma_two_pow_mono(j as int, 15);
                lemma_two_pow_16();
                assert(bitsk.subrange(0, j + 1).drop_last() =~= bitsk.subrange(0, j as int));
                assert(8 * k + j < ps@.len());
            }
            let pos = ps[8 * k + j];
            let bit = m.index([pos.0, pos.1]);
            let mv = mask_value(mask, pos.0, pos.1);
            let ub: bool = (bit == 1) != mv;
            let b: u32 = if ub {
                1
            } else {
                0
            };
            byte = 2 * byte + b;
            j += 1;
        }
        proof {
            assert(bitsk.subrange(0, 8) =~= bitsk);
            lemma_bits_val_bound(bitsk);
            assert(two_pow(8) == 256) by {
                reveal_with_fuel(two_pow, 9);
            }
        }
        r.push(byte as u8);
        k += 1;
    }
    r
}

/// Relies on String::push: appends exactly one character to the string.
#[verifier::external_body]
fn push_char(s: &mut String, c: char)
    ensures
        final(s)@ == old(s)@.push(c),
{
    s.push(c);
}

fn chars_to_string(v: &Vec<char>) -> (r: String)
    ensures
        r@ == v@,
{
    let mut s = String::new();
    let mut i: usize = 0;
    while i < v.len()
        invariant
            i <= v.len(),
            s@ == v@.take(i as int),
        decreases v.len() - i,
    {
        push_char(&mut s, v[i]);
        proof {
            assert(v@.take(i + 1) =~= v@.take(i as int).push(v@[i as int]));
        }
        i += 1;
    }
    proof {
        assert(v@.take(v@.len() as int) =~= v@);
    }
    s
}

/// The codeword stream of a matrix under a mask: the unmasked bits along
/// the data-region traversal, packed eight at a time.
pub open spec fn spec_codewords(m: &QRData, mask: u8) -> Seq<u8> {
    let ps = spec_data_positions(m.side as int);
    Seq::new(
        (ps.len() / 8) as nat,
        |k: int| spec_bits_val(spec_codeword_bits(m, mask, ps, k)) as u8,
    )
}

/// The data codewords of a deinterleaved stream, blocks in order.
pub open spec fn spec_data_part(stream: Seq<u8>, bc: int, tp: int, dp: int) -> Seq<u8> {
    Seq::new((bc * dp) as nat, |i: int| spec_block_at(stream, bc, tp, dp, i / dp)[i % dp])
}

/// Success owed on an error-free symbol: when the format information reads,
/// the block table has a row, and every block of the codeword stream is
/// already a valid codeword, the result is exactly the parse of the data
/// codewords - the decoded text on a well-formed stream, the malformed-data
/// failure otherwise. Streams with up to `ec_cap` corrupted codewords per
/// block are repaired by the corrector, whose completeness rests on the
/// unmechanized bounded-distance-decoding theorem; that boundary is
/// exercised by the tests.
pub open spec fn spec_clean_success(m: &QRData, r: &Result<String, QRError>) -> bool {
    match spec_format_parse(m) {
        Err(_) => true,
        Ok((lvl, mask)) => match spec_block_info(m.version, lvl) {
            None => true,
            Some(rows) => {
                if rows.len() == 1 {
                    let info = rows[0];
                    let bc = info.block_count as int;
                    let tp = info.total_per as int;
                    let dp = info.data_per as int;
                    let npar = tp - dp;
                    let stream = spec_codewords(m, mask);
                    if stream.len() == bc * tp && (forall|b: int|
                        0 <= b < bc ==> spec_syndromes_zero(
                            #[trigger] spec_block_at(stream, bc, tp, dp, b),
                            npar,
                        )) {
                        match spec_parse_data(spec_data_part(stream, bc, tp, dp), m.version) {
                            Ok(text) => r matches Ok(s) && s@ == text,
                            Err(_) => r matches Err(e) && e.kind == ErrorKind::MalformedDataSegment,
                        }
                    } else {
                        true
                    }
                } else {
                    true
                }
            },
        },
    }
}

/// What the decode of one matrix owes its caller: unreadable format
/// information is reported as such; a (version, level) pair without a
/// block-table row is reported as an unsupported configuration; text is
/// only ever produced for a populated configuration.
pub open spec fn spec_decode_outcome(m: &QRData, r: &Result<String, QRError>) -> bool {
    match spec_format_parse(m) {
        Err(_) => r matches Err(e) && e.kind == ErrorKind::UnreadableFormatInfo,
        Ok((lvl, mask)) => {
            &&& (spec_block_info(m.version, lvl) is None ==> (r matches Err(e) && e.kind
                == ErrorKind::UnsupportedConfiguration))
            &&& (r matches Ok(_) ==> spec_block_info(m.version, lvl) is Some)
        },
    }
}

/// Decode one sampled module matrix into its text: read and correct the
/// format information, undo the mask, read the codeword stream along the
/// zig-zag traversal, deinterleave, error-correct each block, and parse the
/// concatenated data codewords into characters.
pub fn decode_matrix(m: &QRData) -> (r: Result<String, QRError>)
    requires
        m.wf(),
    ensures
        spec_decode_outcome(m, &r),
        spec_clean_success(m, &r),
{
    let (lvl, mask) = match format_parse(m) {
        Ok(p) => p,
        Err(e) => {
            return Err(e);
        },
    };
    let infos = match block_info(m.version, lvl) {
        Some(v) => v,
        None => {
            return Err(QRError::new(ErrorKind::UnsupportedConfiguration));
        },
    };
    let ghost rows = spec_block_info(m.version, lvl)->Some_0;
    proof {
        assert(rows.len() == 1);
        assert(infos@ == rows);
    }
    proof {
        // Only a plain-layout version class carries a populated table row.
        assert(m.version == 1);
    }
    let ps = data_positions(m.version, m.side);
    let stream = read_codewords(m, mask, &ps);
    let ghost gstream = spec_codewords(m, mask);
    proof {
        assert forall|k: int| 0 <= k < stream@.len() implies stream@[k] == gstream[k] by {
            lemma_bits_val_bound(
                spec_codeword_bits(m, mask, spec_data_positions(m.side as int), k),
            );
            assert(two_pow(8) == 256) by {
                reveal_with_fuel(two_pow, 9);
            }
        }
        assert(stream@ =~= gstream);
    }
    let info = infos[0];
    let ghost gbc = info.block_count as int;
    let ghost gtp = info.total_per as int;
    let ghost gdp = info.data_per as int;
    let ghost gnpar = gtp - gdp;
    let ghost clean = gstream.len() == gbc * gtp && (forall|b: int|
        0 <= b < gbc ==> spec_syndromes_zero(
            #[trigger] spec_block_at(gstream, gbc, gtp, gdp, b),
            gnpar,
        ));
    let ghost gpart = spec_data_part(gstream, gbc, gtp, gdp);
    let blocks = match deinterleave(&stream, &infos) {
        Ok(b) => b,
        Err(e) => {
            proof {
                assert(!clean);
            }
            return Err(e);
        },
    };
    proof {
        assert(rows[0].wf());
    }
    let dp = info.data_per as usize;
    let mut datastream: Vec<u8> = Vec::new();
    let mut bi: usize = 0;
    while bi < blocks.len()
        invariant
            m.wf(),
            spec_format_parse(m) == Ok::<(ECLevel, u8), ()>((lvl, mask)),
            spec_block_info(m.version, lvl) == Some(rows),
            rows.len() == 1,
            info == rows[0],
            info.wf(),
            gbc == info.block_count,
            gtp == info.total_per,
            gdp == info.data_per,
            gnpar == gtp - gdp,
            gstream == spec_codewords(m, mask),
            gpart == spec_data_part(gstream, gbc, gtp, gdp),
            clean == (gstream.len() == gbc * gtp && (forall|b: int|
                0 <= b < gbc ==> spec_syndromes_zero(
                    #[trigger] spec_block_at(gstream, gbc, gtp, gdp, b),
                    gnpar,
                ))),
            dp == info.data_per,
            blocks@.len() == gbc,
            blocks@.len() <= 255,
            forall|b: int|
                0 <= b < blocks@.len() ==> (#[trigger] blocks@[b])@ == spec_block_at(
                    gstream,
                    gbc,
                    gtp,
                    gdp,
                    b,
                ),
            forall|b: int|
                0 <= b < blocks@.len() ==> (#[trigger] blocks@[b])@.len() == info.total_per,
            bi <= blocks@.len(),
            datastream@.len() == bi * dp,
            clean ==> datastream@ == gpart.take((bi * dp) as int),
        decreases blocks.len() - bi,
    {
        proof {
            assert(bi * dp + dp <= 255 * 255 + 255) by (nonlinear_arith)
                requires
                    bi <= 255,
                    dp <= 255,
            ;
        }
        let blk = &blocks[bi];
        let corrected = match correct(blk, &info) {
            Ok(c) => c,
            Err(e) => {
                proof {
                    // A valid block never fails correction, so the stream
                    // was not clean.
                    assert(!clean);
                }
                return Err(e);
            },
        };
        let ghost gblock = spec_block_at(gstream, gbc, gtp, gdp, bi as int);
        proof {
            if clean {
                assert(spec_syndromes_zero(gblock, gnpar));
                assert(corrected@ == blk@);
            }
        }
        let mut i: usize = 0;
        while i < dp
            invariant
                corrected@.len() == info.total_per,
                dp == info.data_per,
                info.wf(),
                gdp == dp,
                i <= dp,
                datastream@.len() == bi * dp + i,
                bi * dp + dp <= 255 * 255 + 255,
                bi < blocks@.len(),
                gblock == spec_block_at(gstream, gbc, gtp, gdp, bi as int),
                gpart == spec_data_part(gstream, gbc, gtp, gdp),
                blocks@.len() == gbc,
                clean ==> corrected@ == gblock,
                clean ==> datastream@ == gpart.take((bi * dp + i) as int),
            decreases dp - i,
        {
            proof {
                if clean {
                    let j = (bi * dp + i) as int;
                    assert(j < gbc * gdp && bi * gdp + gdp <= gbc * gdp) by (nonlinear_arith)
                        requires
                            0 <= i < gdp,
                            0 <= bi < gbc,
                            j == bi * gdp + i,
                    ;
                    lemma_fundamental_div_mod_converse(j, gdp, bi as int, i as int);
                    assert(gpart[j] == gblock[i as int]);
                    assert(gpart[j] == corrected@[i as int]);
                    assert(gpart.take(j + 1) =~= gpart.take(j).push(gpart[j]));
                }
            }
            datastream.push(corrected[i]);
            i += 1;
        }
        proof {
            assert((bi + 1) * dp == bi * dp + dp) by (nonlinear_arith);
        }
        bi += 1;
    }
    proof {
        assert(blocks@.len() * dp <= 255 * 255) by (nonlinear_arith)
            requires
                blocks@.len() <= 255,
                dp <= 255,
        ;
        if clean {
            assert(gpart.len() == gbc * gdp);
            assert(datastream@ =~= gpart);
        }
    }
    let chars = match parse_data(&datastream, m.version) {
        Ok(c) => c,
        Err(e) => {
            return Err(e);
        },
    };
    Ok(chars_to_string(&chars))
}

/// Decode a batch of module matrices, one result per matrix, in order; one
/// matrix's failure never affects its siblings.
pub fn decode(matrices: Vec<QRData>) -> (r: Vec<Result<String, QRError>>)
    requires
        forall|i: int| 0 <= i < matrices@.len() ==> (#[trigger] matrices@[i]).wf(),
    ensures
        r@.len() == matrices@.len(),
        forall|i: int|
            0 <= i < r@.len() ==> spec_decode_outcome(&matrices@[i], &(#[trigger] r@[i]))
                && spec_clean_success(&matrices@[i], &r@[i]),
{
    let mut r: Vec<Result<String, QRError>> = Vec::new();
    let mut i: usize = 0;
    while i < matrices.len()
        invariant
            forall|x: int| 0 <= x < matrices@.len() ==> (#[trigger] matrices@[x]).wf(),
            i <= matrices@.len(),
            r@.len() == i,
            forall|x: int|
                0 <= x < i ==> spec_decode_outcome(&matrices@[x], &(#[trigger] r@[x]))
                    && spec_clean_success(&matrices@[x], &r@[x]),
        decreases matrices.len() - i,
    {
        let outcome = decode_matrix(&matrices[i]);
        r.push(outcome);
        i += 1;
    }
    r
}

/// What the pipeline owes for one run: some list of non-degenerate,
/// well-formed placements, whose sampled matrices carry exactly the image's
/// modules, yields one result per placement, in order, each result bound by
/// the per-matrix decode obligations.
pub open spec fn spec_pipeline_outcome(
    image: &BinaryImage,
    locs: Seq<QRLocation>,
    ms: Seq<QRData>,
    r: Seq<Result<String, QRError>>,
) -> bool {
    &&& r.len() == locs.len()
    &&& ms.len() == locs.len()
    &&& forall|i: int|
        0 <= i < locs.len() ==> (#[trigger] locs[i]).wf() && spec_cross(locs[i]) != 0
    &&& forall|i: int|
        0 <= i < ms.len() ==> (#[trigger] ms[i]).wf() && ms[i].version == locs[i].version
            && ms[i].data@ == spec_matrix_data(image, locs[i], crate::spec_side(locs[i].version))
    &&& forall|i: int|
        0 <= i < r.len() ==> spec_decode_outcome(&ms[i], &(#[trigger] r[i])) && spec_clean_success(
            &ms[i],
            &r[i],
        )
}

/// The end-to-end pipeline over a binarized image: locate the symbol
/// placements, sample one module matrix per placement (every located
/// placement is non-degenerate, so none is dropped), and decode each matrix
/// independently, one result per placement, in order. An image with no
/// finder patterns yields an empty list, not an error.
pub fn decode_image(image: &BinaryImage) -> (r: Vec<Result<String, QRError>>)
    requires
        image.wf(),
    ensures
        image.is_constant() ==> r@.len() == 0,
        exists|ms: Seq<QRData>| spec_pipeline_outcome(image, spec_locate(image), ms, r@),
{
    let locations = locate(image);
    if locations.len() == 0 {
        let empty: Vec<Result<String, QRError>> = Vec::new();
        proof {
            assert(spec_pipeline_outcome(
                image,
                spec_locate(image),
                Seq::<QRData>::empty(),
                empty@,
            ));
        }
        return empty;
    }
    let matrices = extract(image, &locations);
    let ghost gms = matrices@;
    let results = decode(matrices);
    proof {
        lemma_extract_seq_total(image, locations@);
        assert(spec_pipeline_outcome(image, spec_locate(image), gms, results@));
    }
    results
}

/// A matrix whose format information names a (version, level) pair with no
/// block-table row decodes to the unsupported-configuration failure: a
/// defined error, never a guess.
pub proof fn lemma_unsupported_decode(
    m: &QRData,
    r: Result<String, QRError>,
    lvl: ECLevel,
    mask: u8,
)
    requires
        spec_decode_outcome(m, &r),
        spec_format_parse(m) == Ok::<(ECLevel, u8), ()>((lvl, mask)),
        spec_block_info(m.version, lvl) is None,
    ensures
        r matches Err(e) && e.kind == ErrorKind::UnsupportedConfiguration,
{
}

} // verus!
