use bardecoder::decode::data_positions;
use bardecoder::decode::decode;
use bardecoder::decode::decode_matrix;
use bardecoder::decode::mask_value;
use bardecoder::format::format_decode;
use bardecoder::format::ECLevel;
use bardecoder::qr::block_info;
use bardecoder::qr::BlockInfo;
use bardecoder::qr::ErrorKind;
use bardecoder::qr::QRData;
use bardecoder::qr::QRError;


#[test]
fn module_matrix_side_invariant() {
    let m = QRData::new(vec![7u8; 441], 1);
    assert_eq!(m.version, 1);
    assert_eq!(m.side, 21);
    assert_eq!(m.side, 4 * m.version + 17);
    let m2 = QRData::new(vec![0u8; 25 * 25], 2);
    assert_eq!(m2.side, 25);
}

#[test]
fn polarity_round_trip() {
    // Raw zeros read back as set modules; every nonzero raw value reads as 0.
    let mut raw = vec![1u8; 441];
    raw[0] = 0; // (0,0)
    raw[1 * 21 + 2] = 0; // (2,1)
    raw[20 * 21 + 20] = 0; // (20,20)
    raw[5 * 21 + 5] = 17; // nonzero stays logical 0
    let m = QRData::new(raw.clone(), 1);
    for y in 0..21u32 {
        for x in 0..21u32 {
            let logical = m.index([x, y]);
            let stored = raw[(y * 21 + x) as usize];
            if stored == 0 {
                assert_eq!(logical, 1);
            } else {
                assert_eq!(logical, 0);
            }
        }
    }
}

#[test]
fn block_table_populated_row() {
    let rows = block_info(1, ECLevel::MEDIUM).expect("populated row");
    assert_eq!(rows.len(), 1);
    let b = rows[0];
    assert_eq!(
        b,
        BlockInfo { block_count: 1, total_per: 26, data_per: 16, ec_cap: 4 }
    );
    // At least two parity codewords back each correctable error.
    assert!(b.total_per - b.data_per >= 2 * b.ec_cap);
}

#[test]
fn block_table_absent_rows() {
    assert!(block_info(1, ECLevel::LOW).is_none());
    assert!(block_info(1, ECLevel::QUARTILE).is_none());
    assert!(block_info(1, ECLevel::HIGH).is_none());
    assert!(block_info(2, ECLevel::MEDIUM).is_none());
    assert!(block_info(40, ECLevel::MEDIUM).is_none());
}

#[test]
fn block_info_constructor() {
    let b = BlockInfo::new(2, 26, 16, 4);
    assert_eq!(b.block_count, 2);
    assert_eq!(b.total_per, 26);
    assert_eq!(b.data_per, 16);
    assert_eq!(b.ec_cap, 4);
}

#[test]
fn error_descriptions() {
    assert_eq!(
        QRError::new(ErrorKind::UnreadableFormatInfo).description(),
        "unreadable format information"
    );
    assert_eq!(
        QRError::new(ErrorKind::UnsupportedConfiguration).description(),
        "unsupported version/level"
    );
    assert_eq!(
        QRError::new(ErrorKind::UncorrectableBlock).description(),
        "uncorrectable block"
    );
    assert_eq!(
        QRError::new(ErrorKind::MalformedDataSegment).description(),
        "malformed data segment"
    );
    assert_eq!(
        QRError::new(ErrorKind::DegenerateGeometry).description(),
        "degenerate placement geometry"
    );
}

#[test]
fn format_decode_clean_and_corrupt() {
    // Format data 0 (MEDIUM, mask 0) encodes to the zero codeword; the
    // stored word is only the fixed format mask.
    assert_eq!(format_decode(0x5412), Some((ECLevel::MEDIUM, 0)));
    // Up to three flipped bits still decode.
    assert_eq!(format_decode(0x5412 ^ 0b101), Some((ECLevel::MEDIUM, 0)));
    assert_eq!(format_decode(0x5412 ^ 0x4001), Some((ECLevel::MEDIUM, 0)));
    // A LOW/mask-5 word round-trips through its codeword.
    let d = (1u16 << 3) | 5;
    let w = bch15(d) ^ 0x5412;
    assert_eq!(format_decode(w), Some((ECLevel::LOW, 5)));
}

#[test]
fn decode_clean_hello_matrix() {
    let data = encode_byte_mode(b"HELLO");
    let mut cw = data.clone();
    cw.extend(rs_parity(&data, 10));
    let raw = place_symbol(&cw, 0); // MEDIUM, mask 0
    let m = QRData::new(raw, 1);
    assert_eq!(decode_matrix(&m), Ok("HELLO".to_string()));
}

#[test]
fn decode_all_masks() {
    // Every mask pattern must be undone correctly.
    for mask in 0u8..8 {
        let data = encode_byte_mode(b"HELLO");
        let mut cw = data.clone();
        cw.extend(rs_parity(&data, 10));
        let raw = place_symbol(&cw, mask as u16);
        let m = QRData::new(raw, 1);
        assert_eq!(decode_matrix(&m), Ok("HELLO".to_string()), "mask {}", mask);
    }
}

#[test]
fn error_correction_boundary() {
    let data = encode_byte_mode(b"HELLO");
    let mut cw = data.clone();
    cw.extend(rs_parity(&data, 10));
    // Exactly ec_cap = 4 corrupted codewords still decode.
    let mut corrupted = cw.clone();
    for i in 0..4 {
        corrupted[i] ^= 0xA5;
    }
    let m = QRData::new(place_symbol(&corrupted, 0), 1);
    assert_eq!(decode_matrix(&m), Ok("HELLO".to_string()));
    // One more exceeds the correction capacity.
    let mut over = cw.clone();
    for i in 0..5 {
        over[i] ^= 0xA5;
    }
    let m2 = QRData::new(place_symbol(&over, 0), 1);
    match decode_matrix(&m2) {
        Err(e) => assert_eq!(e.kind, ErrorKind::UncorrectableBlock),
        Ok(s) => panic!("decoded {:?} from an overloaded block", s),
    }
}

#[test]
fn unsupported_configuration_fails_cleanly() {
    // A QUARTILE format on a version-1 grid has no block-table row.
    let data = encode_byte_mode(b"HELLO");
    let mut cw = data.clone();
    cw.extend(rs_parity(&data, 10));
    let fmt = (3u16 << 3) | 0; // QUARTILE, mask 0
    let raw = place_symbol_with_format(&cw, fmt);
    let m = QRData::new(raw, 1);
    match decode_matrix(&m) {
        Err(e) => assert_eq!(e.kind, ErrorKind::UnsupportedConfiguration),
        Ok(s) => panic!("decoded {:?} without a block-table row", s),
    }
}


#[test]
fn malformed_mode_indicator() {
    // Mode 0011 is no defined segment mode.
    let mut data = vec![0x30u8];
    while data.len() < 16 {
        data.push(if data.len() % 2 == 1 { 0xEC } else { 0x11 });
    }
    let mut cw = data.clone();
    cw.extend(rs_parity(&data, 10));
    let m = QRData::new(place_symbol(&cw, 0), 1);
    match decode_matrix(&m) {
        Err(e) => assert_eq!(e.kind, ErrorKind::MalformedDataSegment),
        Ok(s) => panic!("decoded {:?} from an invalid mode", s),
    }
}

#[test]
fn malformed_truncated_count() {
    // A byte-mode count far beyond the stream is malformed.
    let mut data = vec![0x4F, 0xF0];
    while data.len() < 16 {
        data.push(if data.len() % 2 == 0 { 0xEC } else { 0x11 });
    }
    let mut cw = data.clone();
    cw.extend(rs_parity(&data, 10));
    let m = QRData::new(place_symbol(&cw, 0), 1);
    match decode_matrix(&m) {
        Err(e) => assert_eq!(e.kind, ErrorKind::MalformedDataSegment),
        Ok(s) => panic!("decoded {:?} from a truncated segment", s),
    }
}

#[test]
fn unreadable_format_info() {
    // Search for a stored word whose unmasked form lies at distance > 3
    // from every format codeword, and write it into both format copies.
    let mut bad: Option<u16> = None;
    'outer: for w in 0u16..0x8000 {
        for d in 0u16..32 {
            let dist = ((bch15(d) ^ (w ^ 0x5412)) & 0x7FFF).count_ones();
            if dist <= 3 {
                continue 'outer;
            }
        }
        bad = Some(w);
        break;
    }
    let w = bad.expect("a word outside every decoding sphere");
    let mut raw = vec![1u8; 441];
    write_format_word(&mut raw, w);
    let m = QRData::new(raw, 1);
    match decode_matrix(&m) {
        Err(e) => assert_eq!(e.kind, ErrorKind::UnreadableFormatInfo),
        Ok(s) => panic!("decoded {:?} without format information", s),
    }
}

#[test]
fn numeric_mode_segment() {
    // mode 0001, count 4 (ten bits), "012" in ten bits, "3" in four bits.
    let mut bits: Vec<bool> = vec![];
    push_bits(&mut bits, 1, 4);
    push_bits(&mut bits, 4, 10);
    push_bits(&mut bits, 12, 10);
    push_bits(&mut bits, 3, 4);
    let data = finish_stream(bits);
    let mut cw = data.clone();
    cw.extend(rs_parity(&data, 10));
    let m = QRData::new(place_symbol(&cw, 0), 1);
    assert_eq!(decode_matrix(&m), Ok("0123".to_string()));
}

#[test]
fn alphanumeric_mode_segment() {
    // mode 0010, count 5 (nine bits), "AC", "-4", "2".
    let mut bits: Vec<bool> = vec![];
    push_bits(&mut bits, 2, 4);
    push_bits(&mut bits, 5, 9);
    push_bits(&mut bits, 10 * 45 + 12, 11);
    push_bits(&mut bits, 41 * 45 + 4, 11);
    push_bits(&mut bits, 2, 6);
    let data = finish_stream(bits);
    let mut cw = data.clone();
    cw.extend(rs_parity(&data, 10));
    let m = QRData::new(place_symbol(&cw, 0), 1);
    assert_eq!(decode_matrix(&m), Ok("AC-42".to_string()));
}

#[test]
fn batch_decode_is_independent() {
    let data = encode_byte_mode(b"HELLO");
    let mut cw = data.clone();
    cw.extend(rs_parity(&data, 10));
    let good = QRData::new(place_symbol(&cw, 0), 1);
    let mut broken_cw = cw.clone();
    for i in 0..5 {
        broken_cw[i] ^= 0xA5;
    }
    let bad = QRData::new(place_symbol(&broken_cw, 0), 1);
    let good2 = QRData::new(place_symbol(&cw, 3), 1);
    let results = decode(vec![good, bad, good2]);
    assert_eq!(results.len(), 3);
    assert_eq!(results[0], Ok("HELLO".to_string()));
    assert_eq!(results[1].as_ref().unwrap_err().kind, ErrorKind::UncorrectableBlock);
    assert_eq!(results[2], Ok("HELLO".to_string()));
}

#[test]
fn traversal_covers_the_data_region() {
    let ps = data_positions(1, 21);
    // Version 1 has exactly 208 data-region modules.
    assert_eq!(ps.len(), 208);
    // No duplicates, all in range, none on a function pattern.
    let mut seen = vec![false; 441];
    for &(x, y) in ps.iter() {
        assert!(x < 21 && y < 21);
        assert!(!seen[(y * 21 + x) as usize]);
        seen[(y * 21 + x) as usize] = true;
        assert!(!bardecoder::decode::is_function_module(21, x, y));
    }
    // The first codeword sits in the bottom-right corner column pair.
    assert_eq!(ps[0], (20, 20));
    assert_eq!(ps[1], (19, 20));
}

#[test]
fn mask_formula_values() {
    assert!(mask_value(0, 0, 0));
    assert!(!mask_value(0, 1, 0));
    assert!(mask_value(1, 5, 0));
    assert!(!mask_value(1, 5, 1));
    assert!(mask_value(2, 3, 7));
    assert!(mask_value(3, 1, 2));
    assert!(mask_value(7, 0, 0));
}

// ---- helpers: a small reference encoder driving the library's own layout ----

fn gf_mul(mut a: u8, mut b: u8) -> u8 {
    let mut r = 0u8;
    while b > 0 {
        if b & 1 == 1 {
            r ^= a;
        }
        a = if a & 0x80 != 0 { (a << 1) ^ 0x1D } else { a << 1 };
        b >>= 1;
    }
    r
}

fn generator_poly(npar: usize) -> Vec<u8> {
    // Coefficients highest power first, leading coefficient 1.
    let mut g = vec![1u8];
    let mut root = 1u8;
    for _ in 0..npar {
        let mut ng = vec![0u8; g.len() + 1];
        for k in 0..g.len() {
            ng[k] ^= g[k];
            ng[k + 1] ^= gf_mul(g[k], root);
        }
        g = ng;
        root = gf_mul(root, 2);
    }
    g
}

fn rs_parity(data: &[u8], npar: usize) -> Vec<u8> {
    let g = generator_poly(npar);
    let mut rem = vec![0u8; npar];
    for &d in data {
        let factor = d ^ rem[0];
        rem.remove(0);
        rem.push(0);
        for k in 0..npar {
            rem[k] ^= gf_mul(g[k + 1], factor);
        }
    }
    rem
}

fn bch15(d: u16) -> u16 {
    let mut r = d << 10;
    for i in (10..15).rev() {
        if r & (1 << i) != 0 {
            r ^= 0x537 << (i - 10);
        }
    }
    (d << 10) | (r & 0x3FF)
}

fn push_bits(bits: &mut Vec<bool>, value: u32, width: usize) {
    for i in (0..width).rev() {
        bits.push((value >> i) & 1 == 1);
    }
}

fn finish_stream(mut bits: Vec<bool>) -> Vec<u8> {
    push_bits(&mut bits, 0, 4); // terminator
    while bits.len() % 8 != 0 {
        bits.push(false);
    }
    let mut bytes: Vec<u8> = bits
        .chunks(8)
        .map(|c| c.iter().fold(0u8, |acc, &b| (acc << 1) | b as u8))
        .collect();
    let mut alt = true;
    while bytes.len() < 16 {
        bytes.push(if alt { 0xEC } else { 0x11 });
        alt = !alt;
    }
    bytes
}

fn encode_byte_mode(msg: &[u8]) -> Vec<u8> {
    let mut bits: Vec<bool> = vec![];
    push_bits(&mut bits, 4, 4);
    push_bits(&mut bits, msg.len() as u32, 8);
    for &b in msg {
        push_bits(&mut bits, b as u32, 8);
    }
    finish_stream(bits)
}

const FMT_COPY1: [(usize, usize); 15] = [
    (0, 8), (1, 8), (2, 8), (3, 8), (4, 8), (5, 8), (7, 8), (8, 8), (8, 7),
    (8, 5), (8, 4), (8, 3), (8, 2), (8, 1), (8, 0),
];

const FMT_COPY2: [(usize, usize); 15] = [
    (8, 20), (8, 19), (8, 18), (8, 17), (8, 16), (8, 15), (8, 14), (13, 8),
    (14, 8), (15, 8), (16, 8), (17, 8), (18, 8), (19, 8), (20, 8),
];

fn write_format_word(raw: &mut [u8], word: u16) {
    for (i, &(x, y)) in FMT_COPY1.iter().enumerate() {
        let bit = (word >> (14 - i)) & 1 == 1;
        raw[y * 21 + x] = if bit { 0 } else { 1 };
    }
    for (i, &(x, y)) in FMT_COPY2.iter().enumerate() {
        let bit = (word >> (14 - i)) & 1 == 1;
        raw[y * 21 + x] = if bit { 0 } else { 1 };
    }
}

fn place_symbol_with_format(cw: &[u8], fmt_data: u16) -> Vec<u8> {
    assert_eq!(cw.len(), 26);
    let side = 21usize;
    let mut dark = vec![false; side * side];
    for &(ox, oy) in &[(0usize, 0usize), (14, 0), (0, 14)] {
        for dy in 0..7 {
            for dx in 0..7 {
                let on = dx == 0 || dx == 6 || dy == 0 || dy == 6
                    || (2..=4).contains(&dx) && (2..=4).contains(&dy);
                dark[(oy + dy) * side + ox + dx] = on;
            }
        }
    }
    for x in 8..=12 {
        dark[6 * side + x] = x % 2 == 0;
    }
    for y in 8..=12 {
        dark[y * side + 6] = y % 2 == 0;
    }
    dark[13 * side + 8] = true; // the fixed dark module
    let mask = (fmt_data & 7) as u8;
    let ps = data_positions(1, 21);
    assert_eq!(ps.len(), 208);
    for (bi, &(x, y)) in ps.iter().enumerate() {
        let bit = (cw[bi / 8] >> (7 - bi % 8)) & 1 == 1;
        let stored = bit ^ mask_value(mask, x, y);
        dark[(y as usize) * side + x as usize] = stored;
    }
    let mut raw: Vec<u8> = dark.iter().map(|&d| if d { 0u8 } else { 1u8 }).collect();
    write_format_word(&mut raw, bch15(fmt_data) ^ 0x5412);
    raw
}

fn place_symbol(cw: &[u8], mask: u16) -> Vec<u8> {
    // MEDIUM level bits are 00, so the format data is just the mask index.
    place_symbol_with_format(cw, mask)
}
