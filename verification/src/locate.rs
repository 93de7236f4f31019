use vstd::prelude::*;
use vstd::pervasive::VecAdditionalExecFns;
use crate::binary::BinaryImage;
use crate::extract::spec_cross;
use crate::point::Point;
use crate::qr::QRFinderPosition;
use crate::qr::QRLocation;

verus! {

/// A finder candidate that fits in the grouping arithmetic.
pub open spec fn spec_candidate_ok(c: QRFinderPosition) -> bool {
    &&& 0 <= c.location.x < 0x100000
    &&& 0 <= c.location.y < 0x100000
    &&& 2 <= c.module_size <= 0x600000
}

/// The runs emitted from column `x` on, given that the current run started
/// at `start` with pixel value `cur` and that `acc` holds the finished runs.
pub open spec fn spec_runs_from(
    image: &BinaryImage,
    y: int,
    x: int,
    start: int,
    cur: bool,
    acc: Seq<(bool, u32, u32)>,
) -> Seq<(bool, u32, u32)>
    decreases image.width - x,
{
    if x >= image.width {
        acc.push((cur, start as u32, (image.width - start) as u32))
    } else {
        let v = image.pixel(x, y);
        if v != cur {
            spec_runs_from(image, y, x + 1, x, v, acc.push((cur, start as u32, (x - start) as u32)))
        } else {
            spec_runs_from(image, y, x + 1, start, cur, acc)
        }
    }
}

/// The runs of equal pixels along row `y`: (value, start, length), in order,
/// covering the row.
pub open spec fn spec_row_runs(image: &BinaryImage, y: int) -> Seq<(bool, u32, u32)> {
    if image.width == 0 {
        Seq::empty()
    } else {
        spec_runs_from(image, y, 1, 0, image.pixel(0, y), Seq::empty())
    }
}

/// The runs of equal pixels along row `y`: (value, start, length), in order,
/// covering the row, exactly as `spec_row_runs` states them. A constant
/// image yields a single run per row.
fn row_runs(image: &BinaryImage, y: u32) -> (r: Vec<(bool, u32, u32)>)
    requires
        image.wf(),
        y < image.height,
    ensures
        r@ == spec_row_runs(image, y as int),
        image.is_constant() ==> r@.len() <= 1,
        r@.len() <= image.width,
        forall|i: int|
            0 <= i < r@.len() ==> (#[trigger] r@[i]).1 + r@[i].2 <= image.width && r@[i].2 >= 1,
{
    let mut r: Vec<(bool, u32, u32)> = Vec::new();
    let w = image.width;
    if w == 0 {
        return r;
    }
    proof {
        lemma_pixel_constant(image, 0, y as int);
    }
    let mut cur = image.get(0, y as usize);
    let mut start: u32 = 0;
    let mut x: u32 = 1;
    while x < w as u32
        invariant
            image.wf(),
            y < image.height,
            1 <= w == image.width <= 0x100000,
            1 <= x <= w,
            start < x,
            r@.len() < x,
            r@.len() == 0 || start >= 1,
            spec_runs_from(image, y as int, x as int, start as int, cur, r@) == spec_row_runs(
                image,
                y as int,
            ),
            image.is_constant() ==> (r@.len() == 0 && cur == image.bits@[0]),
            forall|i: int|
                0 <= i < r@.len() ==> (#[trigger] r@[i]).1 + r@[i].2 <= image.width && r@[i].2
                    >= 1,
        decreases w - x,
    {
        proof {
            lemma_pixel_constant(image, x as int, y as int);
        }
        let v = image.get(x as usize, y as usize);
        if v != cur {
            r.push((cur, start, x - start));
            cur = v;
            start = x;
        }
        x += 1;
    }
    r.push((cur, start, w as u32 - start));
    r
}

/// In a constant image every pixel reads as the first stored bit.
proof fn lemma_pixel_constant(image: &BinaryImage, x: int, y: int)
    requires
        image.wf(),
        0 <= x < image.width,
        0 <= y < image.height,
    ensures
        image.is_constant() ==> image.pixel(x, y) == image.bits@[0],
{
    assert(y * image.width + x < image.width * image.height) by (nonlinear_arith)
        requires
            0 <= x < image.width,
            0 <= y < image.height,
    ;
}

/// The finder cross-section rule of the line scan: five runs match
/// 1:1:3:1:1 when, against the pitch `ms8 = 8 * total / 7` (eighths of a
/// pixel), each outer run lies within half a module and the center run
/// within one and a half modules. The halved pitch is the documented
/// tolerance constant of the scan.
pub open spec fn spec_check_ratio(a: int, b: int, c: int, d: int, e: int) -> Option<u32> {
    let total = a + b + c + d + e;
    if total < 7 {
        None
    } else {
        let ms8 = 8 * total / 7;
        let half = ms8 / 2;
        if ms8 - half <= 8 * a <= ms8 + half && ms8 - half <= 8 * b <= ms8 + half && 3 * ms8 - 3
            * half <= 8 * c <= 3 * ms8 + 3 * half && ms8 - half <= 8 * d <= ms8 + half && ms8
            - half <= 8 * e <= ms8 + half {
            Some(ms8 as u32)
        } else {
            None
        }
    }
}

/// Does a five-run window fit the 1:1:3:1:1 finder cross-section? Returns
/// the module pitch in eighths of a pixel, exactly as `spec_check_ratio`
/// states it.
fn check_ratio(a: u32, b: u32, c: u32, d: u32, e: u32) -> (r: Option<u32>)
    requires
        a <= 0x100000,
        b <= 0x100000,
        c <= 0x100000,
        d <= 0x100000,
        e <= 0x100000,
    ensures
        r == spec_check_ratio(a as int, b as int, c as int, d as int, e as int),
        r matches Some(ms) ==> 2 <= ms <= 0x600000,
{
    let total = a + b + c + d + e;
    if total < 7 {
        return None;
    }
    let ms8 = (8 * total) / 7;
    let half = ms8 / 2;
    if !within(8 * a, ms8, half) {
        return None;
    }
    if !within(8 * b, ms8, half) {
        return None;
    }
    if !within(8 * c, 3 * ms8, 3 * half) {
        return None;
    }
    if !within(8 * d, ms8, half) {
        return None;
    }
    if !within(8 * e, ms8, half) {
        return None;
    }
    Some(ms8)
}

fn within(v: u32, target: u32, tol: u32) -> (r: bool)
    requires
        v <= 0x4000000,
        target <= 0x4000000,
        tol <= 0x4000000,
    ensures
        r == (target - tol <= v <= target + tol),
{
    target <= v + tol && v <= target + tol
}

/// Topmost row index reachable from `from` walking up through pixels of
/// value `val` in column `x`.
pub open spec fn spec_run_up(image: &BinaryImage, x: int, from: int, val: bool) -> int
    decreases from,
{
    if from <= 0 {
        0
    } else if image.pixel(x, from - 1) == val {
        spec_run_up(image, x, from - 1, val)
    } else {
        from
    }
}

fn run_up(image: &BinaryImage, x: u32, from: u32, val: bool) -> (r: u32)
    requires
        image.wf(),
        x < image.width,
        from < image.height,
    ensures
        r == spec_run_up(image, x as int, from as int, val),
        r <= from,
{
    let mut i = from;
    while i > 0 && image.get(x as usize, (i - 1) as usize) == val
        invariant
            image.wf(),
            x < image.width,
            i <= from < image.height,
            spec_run_up(image, x as int, i as int, val) == spec_run_up(
                image,
                x as int,
                from as int,
                val,
            ),
        decreases i,
    {
        i -= 1;
    }
    i
}

/// Bottommost row index reachable from `from` walking down through pixels
/// of value `val` in column `x`.
pub open spec fn spec_run_down(image: &BinaryImage, x: int, from: int, val: bool) -> int
    decreases image.height - from,
{
    if from + 1 >= image.height {
        from
    } else if image.pixel(x, from + 1) == val {
        spec_run_down(image, x, from + 1, val)
    } else {
        from
    }
}

fn run_down(image: &BinaryImage, x: u32, from: u32, val: bool) -> (r: u32)
    requires
        image.wf(),
        x < image.width,
        from < image.height,
    ensures
        r == spec_run_down(image, x as int, from as int, val),
        from <= r < image.height,
{
    let mut i = from;
    while i + 1 < image.height as u32 && image.get(x as usize, (i + 1) as usize) == val
        invariant
            image.wf(),
            x < image.width,
            from <= i < image.height,
            spec_run_down(image, x as int, i as int, val) == spec_run_down(
                image,
                x as int,
                from as int,
                val,
            ),
        decreases image.height - i,
    {
        i += 1;
    }
    i
}

/// Cross-check of a horizontal finder hit: the five vertical runs through
/// `(cx, y)` must fit the finder cross-section; the refined center row and
/// the vertical module pitch in eighths of a pixel come back.
pub open spec fn spec_vertical_check(image: &BinaryImage, cx: int, y: int) -> Option<(u32, u32)> {
    if !image.pixel(cx, y) {
        None
    } else {
        let m_top = spec_run_up(image, cx, y, true);
        let m_bot = spec_run_down(image, cx, y, true);
        let mid = m_bot - m_top + 1;
        if m_top == 0 {
            None
        } else {
            let la_top = spec_run_up(image, cx, m_top - 1, false);
            if la_top == 0 {
                None
            } else {
                let da_top = spec_run_up(image, cx, la_top - 1, true);
                if m_bot + 1 >= image.height {
                    None
                } else {
                    let lb_bot = spec_run_down(image, cx, m_bot + 1, false);
                    if lb_bot + 1 >= image.height {
                        None
                    } else {
                        let db_bot = spec_run_down(image, cx, lb_bot + 1, true);
                        match spec_check_ratio(
                            la_top - da_top,
                            m_top - la_top,
                            mid,
                            lb_bot - m_bot,
                            db_bot - lb_bot,
                        ) {
                            Some(vms8) => Some(((m_top + mid / 2) as u32, vms8)),
                            None => None,
                        }
                    }
                }
            }
        }
    }
}

fn vertical_check(image: &BinaryImage, cx: u32, y: u32) -> (r: Option<(u32, u32)>)
    requires
        image.wf(),
        cx < image.width,
        y < image.height,
    ensures
        r == spec_vertical_check(image, cx as int, y as int),
        r matches Some(p) ==> p.0 < image.height && 2 <= p.1 <= 0x600000,
{
    if !image.get(cx as usize, y as usize) {
        return None;
    }
    let m_top = run_up(image, cx, y, true);
    let m_bot = run_down(image, cx, y, true);
    let mid = m_bot - m_top + 1;
    if m_top == 0 {
        return None;
    }
    let la_top = run_up(image, cx, m_top - 1, false);
    if la_top == 0 {
        return None;
    }
    let da_top = run_up(image, cx, la_top - 1, true);
    if m_bot + 1 >= image.height as u32 {
        return None;
    }
    let lb_bot = run_down(image, cx, m_bot + 1, false);
    if lb_bot + 1 >= image.height as u32 {
        return None;
    }
    let db_bot = run_down(image, cx, lb_bot + 1, true);
    let da = la_top - da_top;
    let la = m_top - la_top;
    let lb = lb_bot - m_bot;
    let db = db_bot - lb_bot;
    match check_ratio(da, la, mid, lb, db) {
        Some(vms8) => Some((m_top + mid / 2, vms8)),
        None => None,
    }
}

fn sq_le(s: u64, v: u64) -> (r: bool)
    requires
        s <= 0x400000,
    ensures
        r == (s * s <= v),
{
    proof {
        assert(s * s <= 0x400000 * 0x400000) by (nonlinear_arith)
            requires
                s <= 0x400000,
        ;
    }
    s * s <= v
}

/// Integer square root.
fn isqrt(v: u64) -> (r: u64)
    requires
        v <= 0x20000000000,
    ensures
        r * r <= v < (r + 1) * (r + 1),
        r <= 0x200000,
{
    let mut r: u64 = 0;
    while sq_le(r + 1, v)
        invariant
            v <= 0x20000000000,
            r * r <= v,
            r <= 0x200000,
        decreases v - r * r,
    {
        proof {
            assert((r + 1) * (r + 1) > r * r && ((r + 1) * (r + 1) <= 0x20000000000 ==> r + 1
                <= 0x200000)) by (nonlinear_arith)
                requires
                    r <= 0x200000,
            ;
        }
        r += 1;
    }
    r
}

fn abs_diff(a: u32, b: u32) -> (r: u32)
    ensures
        r == (if a >= b {
            a - b
        } else {
            b - a
        }),
{
    if a >= b {
        a - b
    } else {
        b - a
    }
}

fn abs_diff64(a: u64, b: u64) -> (r: u64)
    ensures
        r == (if a >= b {
            a - b
        } else {
            b - a
        }),
{
    if a >= b {
        a - b
    } else {
        b - a
    }
}

/// Squared pixel distance between two candidate centers.
fn sq_dist(a: &QRFinderPosition, b: &QRFinderPosition) -> (r: u64)
    requires
        spec_candidate_ok(*a),
        spec_candidate_ok(*b),
    ensures
        r <= 0x20000000000,
        r == (a.location.x - b.location.x) * (a.location.x - b.location.x) + (a.location.y
            - b.location.y) * (a.location.y - b.location.y),
{
    let dx = a.location.x - b.location.x;
    let dy = a.location.y - b.location.y;
    proof {
        assert(0 <= dx * dx <= 0x100000 * 0x100000 && 0 <= dy * dy <= 0x100000
            * 0x100000) by (nonlinear_arith)
            requires
                -0x100000 <= dx <= 0x100000,
                -0x100000 <= dy <= 0x100000,
        ;
    }
    (dx * dx + dy * dy) as u64
}

pub open spec fn spec_abs_diff(a: int, b: int) -> int {
    if a >= b {
        a - b
    } else {
        b - a
    }
}

/// One window of the row scan: a dark-led five-run window that fits the
/// cross-section, whose vertical cross-check agrees within half the pitch,
/// adds one candidate unless an earlier one lies within a module of it.
pub open spec fn spec_window_step(
    image: &BinaryImage,
    y: int,
    runs: Seq<(bool, u32, u32)>,
    k: int,
    acc: Seq<QRFinderPosition>,
) -> Seq<QRFinderPosition> {
    if !runs[k].0 {
        acc
    } else {
        match spec_check_ratio(
            runs[k].2 as int,
            runs[k + 1].2 as int,
            runs[k + 2].2 as int,
            runs[k + 3].2 as int,
            runs[k + 4].2 as int,
        ) {
            Some(ms8) => {
                let cx = runs[k + 2].1 + runs[k + 2].2 as int / 2;
                match spec_vertical_check(image, cx, y) {
                    Some(p) => {
                        if 2 * spec_abs_diff(ms8 as int, p.1 as int) <= ms8 {
                            let ms = (ms8 + p.1) as int / 2;
                            if !spec_has_close(acc, cx, p.0 as int, ms) {
                                acc.push(
                                    QRFinderPosition {
                                        location: Point { x: cx as i64, y: p.0 as i64 },
                                        module_size: ms as u32,
                                    },
                                )
                            } else {
                                acc
                            }
                        } else {
                            acc
                        }
                    },
                    None => acc,
                }
            },
            None => acc,
        }
    }
}

/// The candidates accumulated by the window scan of one row from window `k`
/// on.
pub open spec fn spec_scan_window(
    image: &BinaryImage,
    y: int,
    runs: Seq<(bool, u32, u32)>,
    k: int,
    acc: Seq<QRFinderPosition>,
) -> Seq<QRFinderPosition>
    decreases runs.len() - k,
{
    if k < 0 || k + 5 > runs.len() {
        acc
    } else {
        spec_scan_window(image, y, runs, k + 1, spec_window_step(image, y, runs, k, acc))
    }
}

/// The candidates accumulated by scanning the rows from `y` down.
pub open spec fn spec_scan_rows(
    image: &BinaryImage,
    y: int,
    acc: Seq<QRFinderPosition>,
) -> Seq<QRFinderPosition>
    decreases image.height - y,
{
    if y < 0 || y >= image.height {
        acc
    } else {
        spec_scan_rows(image, y + 1, spec_scan_window(image, y, spec_row_runs(image, y), 0, acc))
    }
}

/// Every finder-pattern candidate of an image, in scan order.
pub open spec fn spec_find_candidates(image: &BinaryImage) -> Seq<QRFinderPosition> {
    spec_scan_rows(image, 0, Seq::empty())
}

/// Scan the image for finder-pattern candidates: every row window whose
/// runs fit the 1:1:3:1:1 cross-section and whose vertical cross-check
/// agrees yields one candidate, deduplicated against earlier hits - exactly
/// the candidates `spec_find_candidates` names.
fn find_candidates(image: &BinaryImage) -> (r: Vec<QRFinderPosition>)
    requires
        image.wf(),
    ensures
        r@ == spec_find_candidates(image),
        image.is_constant() ==> r@.len() == 0,
        forall|i: int| 0 <= i < r@.len() ==> spec_candidate_ok(#[trigger] r@[i]),
{
    let mut cands: Vec<QRFinderPosition> = Vec::new();
    let mut y: u32 = 0;
    while y < image.height as u32
        invariant
            image.wf(),
            y <= image.height,
            spec_scan_rows(image, y as int, cands@) == spec_find_candidates(image),
            image.is_constant() ==> cands@.len() == 0,
            forall|i: int| 0 <= i < cands@.len() ==> spec_candidate_ok(#[trigger] cands@[i]),
        decreases image.height - y,
    {
        let runs = row_runs(image, y);
        let ghost row_entry = cands@;
        let mut k: usize = 0;
        while k + 5 <= runs.len()
            invariant
                image.wf(),
                y < image.height,
                runs@ == spec_row_runs(image, y as int),
                spec_scan_window(image, y as int, runs@, k as int, cands@) == spec_scan_window(
                    image,
                    y as int,
                    runs@,
                    0,
                    row_entry,
                ),
                image.is_constant() ==> (runs@.len() <= 1 && cands@.len() == 0),
                runs@.len() <= 0x100000,
                k <= runs@.len(),
                forall|i: int|
                    0 <= i < runs@.len() ==> (#[trigger] runs@[i]).1 + runs@[i].2 <= image.width
                        && runs@[i].2 >= 1,
                forall|i: int| 0 <= i < cands@.len() ==> spec_candidate_ok(#[trigger] cands@[i]),
            decreases runs.len() - k,
        {
            let ghost step_entry = cands@;
            if runs[k].0 {
                let (_, _, a) = runs[k];
                let (_, _, b) = runs[k + 1];
                let (_, cs, c) = runs[k + 2];
                let (_, _, d) = runs[k + 3];
                let (_, _, e) = runs[k + 4];
                match check_ratio(a, b, c, d, e) {
                    Some(ms8) => {
                        let cx = cs + c / 2;
                        match vertical_check(image, cx, y) {
                            Some((cy, vms8)) => {
                                if 2 * abs_diff(ms8, vms8) <= ms8 {
                                    let ms = (ms8 + vms8) / 2;
                                    if !has_close(&cands, cx, cy, ms) {
                                        cands.push(
                                            QRFinderPosition {
                                                location: Point {
                                                    x: cx as i64,
                                                    y: cy as i64,
                                                },
                                                module_size: ms,
                                            },
                                        );
                                    }
                                }
                            },
                            None => {},
                        }
                    },
                    None => {},
                }
            }
            proof {
                assert(cands@ == spec_window_step(image, y as int, runs@, k as int, step_entry));
            }
            k += 1;
        }
        proof {
            assert(spec_scan_window(image, y as int, runs@, k as int, cands@) == cands@);
        }
        y += 1;
    }
    cands
}

/// Is some candidate from index `i` on within `m` pixels of `(cx, cy)` in
/// both coordinates?
pub open spec fn spec_has_close_from(
    cands: Seq<QRFinderPosition>,
    i: int,
    cx: int,
    cy: int,
    m: int,
) -> bool
    decreases cands.len() - i,
{
    if i < 0 || i >= cands.len() {
        false
    } else {
        let dx = cands[i].location.x - cx;
        let dy = cands[i].location.y - cy;
        (-m <= dx <= m && -m <= dy <= m) || spec_has_close_from(cands, i + 1, cx, cy, m)
    }
}

/// Is a new candidate within one module of an already recorded one?
pub open spec fn spec_has_close(cands: Seq<QRFinderPosition>, cx: int, cy: int, ms8: int) -> bool {
    spec_has_close_from(cands, 0, cx, cy, ms8 / 8 + 1)
}

fn has_close(cands: &Vec<QRFinderPosition>, cx: u32, cy: u32, ms8: u32) -> (r: bool)
    requires
        cx < 0x100000,
        cy < 0x100000,
        ms8 <= 0x600000,
        forall|i: int| 0 <= i < cands@.len() ==> spec_candidate_ok(#[trigger] cands@[i]),
    ensures
        r == spec_has_close(cands@, cx as int, cy as int, ms8 as int),
{
    let m = (ms8 / 8 + 1) as i64;
    let mut i: usize = 0;
    while i < cands.len()
        invariant
            cx < 0x100000,
            cy < 0x100000,
            1 <= m <= 0xC0001,
            m == ms8 / 8 + 1,
            i <= cands@.len(),
            forall|x: int| 0 <= x < cands@.len() ==> spec_candidate_ok(#[trigger] cands@[x]),
            spec_has_close_from(cands@, 0, cx as int, cy as int, m as int)
                == spec_has_close_from(cands@, i as int, cx as int, cy as int, m as int),
        decreases cands.len() - i,
    {
        let dx = cands[i].location.x - cx as i64;
        let dy = cands[i].location.y - cy as i64;
        if -m <= dx && dx <= m && -m <= dy && dy <= m {
            return true;
        }
        i += 1;
    }
    false
}

/// One step of the triple scan: an untried triple of unused candidates
/// that forms a placement takes its three candidates out of the pool.
pub open spec fn spec_group_step(
    cands: Seq<QRFinderPosition>,
    i: int,
    j: int,
    k: int,
    used: Seq<bool>,
    out: Seq<QRLocation>,
) -> (Seq<bool>, Seq<QRLocation>) {
    if i != j && i != k && !used[i] && !used[j] && !used[k] {
        match spec_try_triple(cands, i, j, k) {
            Some(loc) => (used.update(i, true).update(j, true).update(k, true), out.push(loc)),
            None => (used, out),
        }
    } else {
        (used, out)
    }
}

/// The triple scan over the third index from `k` on.
pub open spec fn spec_group_k(
    cands: Seq<QRFinderPosition>,
    i: int,
    j: int,
    k: int,
    used: Seq<bool>,
    out: Seq<QRLocation>,
) -> (Seq<bool>, Seq<QRLocation>)
    decreases cands.len() - k,
{
    if k < 0 || k >= cands.len() {
        (used, out)
    } else {
        let s = spec_group_step(cands, i, j, k, used, out);
        spec_group_k(cands, i, j, k + 1, s.0, s.1)
    }
}

/// The triple scan over the second index from `j` on.
pub open spec fn spec_group_j(
    cands: Seq<QRFinderPosition>,
    i: int,
    j: int,
    used: Seq<bool>,
    out: Seq<QRLocation>,
) -> (Seq<bool>, Seq<QRLocation>)
    decreases cands.len() - j,
{
    if j < 0 || j >= cands.len() {
        (used, out)
    } else {
        let s = spec_group_k(cands, i, j, j + 1, used, out);
        spec_group_j(cands, i, j + 1, s.0, s.1)
    }
}

/// The triple scan over the corner index from `i` on.
pub open spec fn spec_group_i(
    cands: Seq<QRFinderPosition>,
    i: int,
    used: Seq<bool>,
    out: Seq<QRLocation>,
) -> (Seq<bool>, Seq<QRLocation>)
    decreases cands.len() - i,
{
    if i < 0 || i >= cands.len() {
        (used, out)
    } else {
        let s = spec_group_j(cands, i, 0, used, out);
        spec_group_i(cands, i + 1, s.0, s.1)
    }
}

/// The placements of an image: the candidates of the line scan, grouped
/// greedily into triples in scan order. The locator is a function of the
/// image alone.
pub open spec fn spec_locate(image: &BinaryImage) -> Seq<QRLocation> {
    let cands = spec_find_candidates(image);
    spec_group_i(cands, 0, Seq::new(cands.len(), |x: int| false), Seq::empty()).1
}

/// Group finder candidates into symbol placements: scan the candidate pool
/// for right-angled, equal-legged triples with consistent module pitch;
/// the corner candidate becomes the top left, the cross product of the two
/// leg vectors tells the top right from the bottom left, and the version
/// follows from the leg length against the module pitch. Accepted triples
/// leave the pool before the scan goes on. The result is exactly
/// `spec_locate` of the image: every placement is well-formed and
/// non-degenerate, a constant image reports nothing, and repeated runs
/// agree.
pub fn locate(image: &BinaryImage) -> (r: Vec<QRLocation>)
    requires
        image.wf(),
    ensures
        r@ == spec_locate(image),
        image.is_constant() ==> r@.len() == 0,
        forall|i: int|
            0 <= i < r@.len() ==> (#[trigger] r@[i]).wf() && spec_cross(r@[i]) != 0,
{
    let cands = find_candidates(image);
    let n = cands.len();
    let mut used: Vec<bool> = Vec::new();
    let mut ui: usize = 0;
    while ui < n
        invariant
            ui <= n,
            used@.len() == ui,
            forall|x: int| 0 <= x < ui ==> !used@[x],
        decreases n - ui,
    {
        used.push(false);
        ui += 1;
    }
    proof {
        assert(used@ =~= Seq::new(cands@.len(), |x: int| false));
    }
    let ghost target = spec_group_i(cands@, 0, used@, Seq::<QRLocation>::empty());
    let mut out: Vec<QRLocation> = Vec::new();
    let mut i: usize = 0;
    while i < n
        invariant
            n == cands@.len(),
            used@.len() == n,
            i <= n,
            target == spec_group_i(cands@, i as int, used@, out@),
            forall|x: int| 0 <= x < cands@.len() ==> spec_candidate_ok(#[trigger] cands@[x]),
            cands@.len() == 0 ==> out@.len() == 0,
            forall|x: int|
                0 <= x < out@.len() ==> (#[trigger] out@[x]).wf() && spec_cross(out@[x]) != 0,
        decreases n - i,
    {
        let mut j: usize = 0;
        while j < n
            invariant
                n == cands@.len(),
                used@.len() == n,
                i < n,
                j <= n,
                target == spec_group_i(cands@, i + 1, spec_group_j(cands@, i as int, j as int, used@, out@).0, spec_group_j(cands@, i as int, j as int, used@, out@).1),
                forall|x: int| 0 <= x < cands@.len() ==> spec_candidate_ok(#[trigger] cands@[x]),
                cands@.len() == 0 ==> out@.len() == 0,
                forall|x: int|
                    0 <= x < out@.len() ==> (#[trigger] out@[x]).wf() && spec_cross(out@[x]) != 0,
            decreases n - j,
        {
            let mut k: usize = j + 1;
            while k < n
                invariant
                    n == cands@.len(),
                    used@.len() == n,
                    i < n,
                    j < n,
                    j + 1 <= k <= n,
                    target == spec_group_i(cands@, i + 1, spec_group_j(cands@, i as int, j + 1, spec_group_k(cands@, i as int, j as int, k as int, used@, out@).0, spec_group_k(cands@, i as int, j as int, k as int, used@, out@).1).0, spec_group_j(cands@, i as int, j + 1, spec_group_k(cands@, i as int, j as int, k as int, used@, out@).0, spec_group_k(cands@, i as int, j as int, k as int, used@, out@).1).1),
                    forall|x: int|
                        0 <= x < cands@.len() ==> spec_candidate_ok(#[trigger] cands@[x]),
                    cands@.len() == 0 ==> out@.len() == 0,
                    forall|x: int|
                        0 <= x < out@.len() ==> (#[trigger] out@[x]).wf() && spec_cross(out@[x])
                            != 0,
                decreases n - k,
            {
                let ghost used_pre = used@;
                let ghost out_pre = out@;
                if i != j && i != k && !used[i] && !used[j] && !used[k] {
                    match try_triple(&cands, i, j, k) {
                        Some(loc) => {
                            out.push(loc);
                            used.set(i, true);
                            used.set(j, true);
                            used.set(k, true);
                        },
                        None => {},
                    }
                }
                proof {
                    assert((used@, out@) == spec_group_step(
                        cands@,
                        i as int,
                        j as int,
                        k as int,
                        used_pre,
                        out_pre,
                    ));
                }
                k += 1;
            }
            j += 1;
        }
        i += 1;
    }
    out
}

pub open spec fn spec_is_sqrt(v: int, r: int) -> bool {
    0 <= r && r * r <= v && v < (r + 1) * (r + 1)
}

/// The integer square root, characterized by its bounding squares.
pub open spec fn spec_isqrt(v: int) -> int {
    choose|r: int| spec_is_sqrt(v, r)
}

proof fn lemma_isqrt_is(v: int, r: int)
    requires
        spec_is_sqrt(v, r),
    ensures
        spec_isqrt(v) == r,
{
    assert(exists|x: int| spec_is_sqrt(v, x));
    let rc = spec_isqrt(v);
    assert(spec_is_sqrt(v, rc));
    assert(rc == r) by (nonlinear_arith)
        requires
            0 <= rc,
            rc * rc <= v,
            v < (rc + 1) * (rc + 1),
            0 <= r,
            r * r <= v,
            v < (r + 1) * (r + 1),
    ;
}

/// Squared pixel distance between two candidate centers.
pub open spec fn spec_sq_dist(a: QRFinderPosition, b: QRFinderPosition) -> int {
    (a.location.x - b.location.x) * (a.location.x - b.location.x) + (a.location.y - b.location.y)
        * (a.location.y - b.location.y)
}

/// One (corner, other, other) candidate triple as a symbol placement: the
/// pitches must agree within half a module, the two legs from the corner
/// must be equal within tolerance and meet at a right angle by the
/// Pythagorean sum, the version follows from the leg length against the
/// pitch and must round to a valid class, and the cross product of the leg
/// vectors tells the top right from the bottom left.
pub open spec fn spec_try_triple(cands: Seq<QRFinderPosition>, i: int, j: int, k: int) -> Option<
    QRLocation,
> {
    let a = cands[i];
    let b = cands[j];
    let c = cands[k];
    if 2 * spec_abs_diff(a.module_size as int, b.module_size as int) > a.module_size {
        None
    } else if 2 * spec_abs_diff(a.module_size as int, c.module_size as int) > a.module_size {
        None
    } else {
        let dab2 = spec_sq_dist(a, b);
        let dac2 = spec_sq_dist(a, c);
        let dbc2 = spec_sq_dist(b, c);
        if dab2 == 0 || dac2 == 0 {
            None
        } else if 2 * spec_abs_diff(dab2, dac2) > dab2 {
            None
        } else if 4 * spec_abs_diff(dbc2, dab2 + dac2) > dab2 + dac2 {
            None
        } else {
            let msavg = (a.module_size + b.module_size + c.module_size) as int / 3;
            if msavg < 1 {
                None
            } else {
                let d = (spec_isqrt(dab2) + spec_isqrt(dac2)) / 2;
                let modules = (8 * d + msavg / 2) / msavg;
                if modules + 7 < 19 || modules + 7 > 200 {
                    None
                } else {
                    let side_est = modules + 7;
                    let version = (side_est - 15) / 4;
                    if version < 1 || version > 40 {
                        None
                    } else if spec_abs_diff(4 * version + 17, side_est) > 2 {
                        None
                    } else {
                        let cross = (b.location.x - a.location.x) * (c.location.y - a.location.y)
                            - (b.location.y - a.location.y) * (c.location.x - a.location.x);
                        if cross == 0 {
                            None
                        } else {
                            let tr = if cross > 0 {
                                b
                            } else {
                                c
                            };
                            let bl = if cross > 0 {
                                c
                            } else {
                                b
                            };
                            Some(
                                QRLocation {
                                    top_left: a.location,
                                    top_right: tr.location,
                                    bottom_left: bl.location,
                                    module_size: msavg as u32,
                                    version: version as u32,
                                },
                            )
                        }
                    }
                }
            }
        }
    }
}

/// Try one (corner, other, other) candidate triple as a symbol placement.
fn try_triple(cands: &Vec<QRFinderPosition>, i: usize, j: usize, k: usize) -> (r: Option<
    QRLocation,
>)
    requires
        i < cands@.len(),
        j < cands@.len(),
        k < cands@.len(),
        forall|x: int| 0 <= x < cands@.len() ==> spec_candidate_ok(#[trigger] cands@[x]),
    ensures
        r == spec_try_triple(cands@, i as int, j as int, k as int),
        r matches Some(loc) ==> loc.wf() && spec_cross(loc) != 0,
{
    let a = cands[i];
    let b = cands[j];
    let c = cands[k];
    // Consistent module pitch across the triple.
    if 2 * abs_diff(a.module_size, b.module_size) > a.module_size {
        return None;
    }
    if 2 * abs_diff(a.module_size, c.module_size) > a.module_size {
        return None;
    }
    let dab2 = sq_dist(&a, &b);
    let dac2 = sq_dist(&a, &c);
    let dbc2 = sq_dist(&b, &c);
    if dab2 == 0 || dac2 == 0 {
        return None;
    }
    // Equal legs, within tolerance.
    if 2 * abs_diff64(dab2, dac2) > dab2 {
        return None;
    }
    // Right angle at the corner: the far side obeys the Pythagorean sum.
    if 4 * abs_diff64(dbc2, dab2 + dac2) > dab2 + dac2 {
        return None;
    }
    let msavg = (a.module_size + b.module_size + c.module_size) / 3;
    if msavg < 1 {
        return None;
    }
    let sa = isqrt(dab2);
    let sb = isqrt(dac2);
    proof {
        lemma_isqrt_is(dab2 as int, sa as int);
        lemma_isqrt_is(dac2 as int, sb as int);
    }
    let d = (sa + sb) / 2;
    // Modules between the two leg centers, rounded against the pitch.
    let modules = (8 * d + (msavg as u64) / 2) / (msavg as u64);
    if modules + 7 < 19 || modules + 7 > 200 {
        return None;
    }
    let side_est = (modules + 7) as u32;
    let version = (side_est - 15) / 4;
    if version < 1 || version > 40 {
        return None;
    }
    if abs_diff(4 * version + 17, side_est) > 2 {
        return None;
    }
    let ux = b.location.x - a.location.x;
    let uy = b.location.y - a.location.y;
    let vx = c.location.x - a.location.x;
    let vy = c.location.y - a.location.y;
    proof {
        assert(-(0x100000 * 0x100000) <= ux * vy <= 0x100000 * 0x100000 && -(0x100000 * 0x100000)
            <= uy * vx <= 0x100000 * 0x100000) by (nonlinear_arith)
            requires
                -0x100000 <= ux <= 0x100000,
                -0x100000 <= uy <= 0x100000,
                -0x100000 <= vx <= 0x100000,
                -0x100000 <= vy <= 0x100000,
        ;
    }
    let cross = ux * vy - uy * vx;
    if cross == 0 {
        return None;
    }
    let (tr, bl) = if cross > 0 {
        (b, c)
    } else {
        (c, b)
    };
    let loc = QRLocation {
        top_left: a.location,
        top_right: tr.location,
        bottom_left: bl.location,
        module_size: msavg,
        version,
    };
    proof {
        assert(vx * uy == uy * vx && vy * ux == ux * vy) by (nonlinear_arith);
        if cross > 0 {
            assert(spec_cross(loc) == cross);
        } else {
            assert(spec_cross(loc) == -cross);
        }
    }
    Some(loc)
}

/// Idempotence of the locator: re-running it on the same image yields the
/// same placements, for its result is a function of the image alone.
pub proof fn lemma_locate_idempotent(
    image: &BinaryImage,
    r1: Seq<QRLocation>,
    r2: Seq<QRLocation>,
)
    requires
        r1 == spec_locate(image),
        r2 == spec_locate(image),
    ensures
        r1 == r2,
{
}

} // verus!
