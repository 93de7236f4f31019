use bardecoder::binary::BinaryImage;
use bardecoder::decode::data_positions;
use bardecoder::decode::decode_image;
use bardecoder::decode::mask_value;
use bardecoder::extract::extract;
use bardecoder::locate::locate;
use bardecoder::point::Point;
use bardecoder::qr::QRLocation;

#[test]
fn no_finder_all_light() {
    let img = BinaryImage::new(64, 64, vec![false; 64 * 64]);
    assert_eq!(locate(&img).len(), 0);
    assert_eq!(decode_image(&img).len(), 0);
}

#[test]
fn no_finder_all_dark() {
    let img = BinaryImage::new(64, 64, vec![true; 64 * 64]);
    assert_eq!(locate(&img).len(), 0);
    assert_eq!(decode_image(&img).len(), 0);
}

#[test]
fn locate_single_symbol() {
    let img = render(&hello_symbol(), 4, 4, 116, 116);
    let locs = locate(&img);
    assert_eq!(locs.len(), 1);
    let l = locs[0];
    assert_eq!(l.version, 1);
    // Centers of the three finder patterns, at four pixels per module with a
    // four-module quiet zone.
    assert_eq!(l.top_left, Point { x: 30, y: 30 });
    assert_eq!(l.top_right, Point { x: 86, y: 30 });
    assert_eq!(l.bottom_left, Point { x: 30, y: 86 });
}

#[test]
fn locate_is_idempotent() {
    let img = render(&hello_symbol(), 4, 4, 116, 116);
    let first = locate(&img);
    let second = locate(&img);
    assert_eq!(first, second);
    let third = locate(&img);
    assert_eq!(second, third);
}

#[test]
fn extract_samples_symbol() {
    let raw = hello_symbol();
    let img = render(&raw, 4, 4, 116, 116);
    let locs = locate(&img);
    let matrices = extract(&img, &locs);
    assert_eq!(matrices.len(), 1);
    let m = &matrices[0];
    assert_eq!(m.version, 1);
    assert_eq!(m.side, 21);
    // The sampled grid reproduces the rendered module pattern exactly.
    for i in 0..441 {
        assert_eq!(m.data[i] == 0, raw[i] == 0, "module {}", i);
    }
}

#[test]
fn single_clean_symbol_pipeline() {
    let img = render(&hello_symbol(), 4, 4, 116, 116);
    let results = decode_image(&img);
    assert_eq!(results.len(), 1);
    assert_eq!(results[0], Ok("HELLO".to_string()));
}

#[test]
fn multi_symbol_image() {
    // Two disjoint, well-separated symbols in one image.
    let raw1 = hello_symbol();
    let raw2 = symbol_for(b"HI");
    let mut img = render(&raw1, 4, 4, 232, 116);
    stamp(&mut img, &raw2, 4, 4 + 29, 0);
    let results = decode_image(&img);
    assert_eq!(results.len(), 2);
    assert!(results.contains(&Ok("HELLO".to_string())));
    assert!(results.contains(&Ok("HI".to_string())));
}

#[test]
fn wide_image_pipeline() {
    // An image wider than 4096 pixels decodes like any other.
    let mut img = render(&hello_symbol(), 4, 4, 4800, 116);
    stamp(&mut img, &symbol_for(b"HI"), 4, 1160, 0);
    let results = decode_image(&img);
    assert_eq!(results.len(), 2);
    assert!(results.contains(&Ok("HELLO".to_string())));
    assert!(results.contains(&Ok("HI".to_string())));
}

#[test]
fn degenerate_placement_is_dropped() {
    let img = BinaryImage::new(64, 64, vec![false; 64 * 64]);
    // Collinear finder centers make the transform singular.
    let loc = QRLocation {
        top_left: Point { x: 10, y: 10 },
        top_right: Point { x: 20, y: 20 },
        bottom_left: Point { x: 30, y: 30 },
        module_size: 16,
        version: 1,
    };
    let sane = QRLocation {
        top_left: Point { x: 30, y: 30 },
        top_right: Point { x: 46, y: 30 },
        bottom_left: Point { x: 30, y: 46 },
        module_size: 9,
        version: 1,
    };
    let matrices = extract(&img, &vec![loc, sane]);
    // The degenerate placement vanishes without disturbing its sibling.
    assert_eq!(matrices.len(), 1);
    assert_eq!(matrices[0].version, 1);
}

// ---- helpers: a small reference encoder driving the library's own layout ----

fn gf_mul(mut a: u8, mut b: u8) -> u8 {
    let mut r = 0u8;
    while b > 0 {
        if b & 1 == 1 {
            r ^= a;
        }
        a = if a & 0x80 != 0 { (a << 1) ^ 0x1D } else { a << 1 };
        b >>= 1;
    }
    r
}

fn rs_parity(data: &[u8], npar: usize) -> Vec<u8> {
    let mut g = vec![1u8];
    let mut root = 1u8;
    for _ in 0..npar {
        let mut ng = vec![0u8; g.len() + 1];
        for k in 0..g.len() {
            ng[k] ^= g[k];
            ng[k + 1] ^= gf_mul(g[k], root);
        }
        g = ng;
        root = gf_mul(root, 2);
    }
    let mut rem = vec![0u8; npar];
    for &d in data {
        let factor = d ^ rem[0];
        rem.remove(0);
        rem.push(0);
        for k in 0..npar {
            rem[k] ^= gf_mul(g[k + 1], factor);
        }
    }
    rem
}

fn bch15(d: u16) -> u16 {
    let mut r = d << 10;
    for i in (10..15).rev() {
        if r & (1 << i) != 0 {
            r ^= 0x537 << (i - 10);
        }
    }
    (d << 10) | (r & 0x3FF)
}

fn push_bits(bits: &mut Vec<bool>, value: u32, width: usize) {
    for i in (0..width).rev() {
        bits.push((value >> i) & 1 == 1);
    }
}

fn symbol_for(msg: &[u8]) -> Vec<u8> {
    let mut bits: Vec<bool> = vec![];
    push_bits(&mut bits, 4, 4);
    push_bits(&mut bits, msg.len() as u32, 8);
    for &b in msg {
        push_bits(&mut bits, b as u32, 8);
    }
    push_bits(&mut bits, 0, 4);
    while bits.len() % 8 != 0 {
        bits.push(false);
    }
    let mut data: Vec<u8> = bits
        .chunks(8)
        .map(|c| c.iter().fold(0u8, |acc, &b| (acc << 1) | b as u8))
        .collect();
    let mut alt = true;
    while data.len() < 16 {
        data.push(if alt { 0xEC } else { 0x11 });
        alt = !alt;
    }
    let mut cw = data.clone();
    cw.extend(rs_parity(&data, 10));
    place_symbol(&cw, 0)
}

fn hello_symbol() -> Vec<u8> {
    symbol_for(b"HELLO")
}

const FORMAT_COPY1: [(usize, usize); 15] = [
    (0, 8), (1, 8), (2, 8), (3, 8), (4, 8), (5, 8), (7, 8), (8, 8), (8, 7),
    (8, 5), (8, 4), (8, 3), (8, 2), (8, 1), (8, 0),
];

const FORMAT_COPY2: [(usize, usize); 15] = [
    (8, 20), (8, 19), (8, 18), (8, 17), (8, 16), (8, 15), (8, 14), (13, 8),
    (14, 8), (15, 8), (16, 8), (17, 8), (18, 8), (19, 8), (20, 8),
];

fn place_symbol(cw: &[u8], fmt_data: u16) -> Vec<u8> {
    assert_eq!(cw.len(), 26);
    let side = 21usize;
    let mut dark = vec![false; side * side];
    for &(ox, oy) in &[(0usize, 0usize), (14, 0), (0, 14)] {
        for dy in 0..7 {
            for dx in 0..7 {
                let on = dx == 0 || dx == 6 || dy == 0 || dy == 6
                    || (2..=4).contains(&dx) && (2..=4).contains(&dy);
                dark[(oy + dy) * side + ox + dx] = on;
            }
        }
    }
    for x in 8..=12 {
        dark[6 * side + x] = x % 2 == 0;
    }
    for y in 8..=12 {
        dark[y * side + 6] = y % 2 == 0;
    }
    dark[13 * side + 8] = true;
    let mask = (fmt_data & 7) as u8;
    let ps = data_positions(1, 21);
    for (bi, &(x, y)) in ps.iter().enumerate() {
        let bit = (cw[bi / 8] >> (7 - bi % 8)) & 1 == 1;
        dark[(y as usize) * side + x as usize] = bit ^ mask_value(mask, x, y);
    }
    let word = bch15(fmt_data) ^ 0x5412;
    let mut raw: Vec<u8> = dark.iter().map(|&d| if d { 0u8 } else { 1u8 }).collect();
    for (i, &(x, y)) in FORMAT_COPY1.iter().enumerate() {
        raw[y * side + x] = if (word >> (14 - i)) & 1 == 1 { 0 } else { 1 };
    }
    for (i, &(x, y)) in FORMAT_COPY2.iter().enumerate() {
        raw[y * side + x] = if (word >> (14 - i)) & 1 == 1 { 0 } else { 1 };
    }
    raw
}

/// Render a symbol at `scale` pixels per module with a quiet zone of
/// `quiet` modules, into a fresh image of the given size.
fn render(raw: &[u8], scale: usize, quiet: usize, w: usize, h: usize) -> BinaryImage {
    let mut img = BinaryImage::new(w, h, vec![false; w * h]);
    stamp(&mut img, raw, scale, quiet, 0);
    img
}

/// Stamp a symbol's dark modules into an existing image, offset by
/// `off_x` modules horizontally beyond the quiet zone.
fn stamp(img: &mut BinaryImage, raw: &[u8], scale: usize, off_x: usize, off_y: usize) {
    let w = img.width;
    for my in 0..21 {
        for mx in 0..21 {
            if raw[my * 21 + mx] == 0 {
                for py in 0..scale {
                    for px in 0..scale {
                        let x = (off_x + mx) * scale + px;
                        let y = (4 + off_y + my) * scale + py;
                        img.bits[y * w + x] = true;
                    }
                }
            }
        }
    }
}
