use vstd::prelude::*;
use vstd::arithmetic::div_mod::lemma_fundamental_div_mod_converse;
use crate::binary::BinaryImage;
use crate::qr::QRData;
use crate::qr::QRLocation;

verus! {

/// Division by a positive divisor, rounded half up to the nearest integer.
pub open spec fn spec_div_round(n: int, d: int) -> int {
    if 2 * n + d >= 0 {
        (2 * n + d) / (2 * d)
    } else {
        -((-(2 * n + d) + 2 * d - 1) / (2 * d))
    }
}

fn div_round(n: i64, d: i64) -> (r: i64)
    requires
        1 <= d <= 0x10000,
        -0x1000000000 <= n <= 0x1000000000,
    ensures
        r == spec_div_round(n as int, d as int),
{
    let num = 2 * n + d;
    if num >= 0 {
        num / (2 * d)
    } else {
        -((-num + 2 * d - 1) / (2 * d))
    }
}

/// Twice the signed area spanned by the two leg vectors of a placement;
/// zero exactly when the three finder centers are collinear.
pub open spec fn spec_cross(loc: QRLocation) -> int {
    (loc.top_right.x - loc.top_left.x) * (loc.bottom_left.y - loc.top_left.y) - (loc.top_right.y
        - loc.top_left.y) * (loc.bottom_left.x - loc.top_left.x)
}

/// The image column sampled for module `(mx, my)`: the finder centers sit
/// three and a half modules inside their corners, so module centers map
/// affinely with the two leg vectors divided by `side - 7`.
pub open spec fn spec_sample_x(loc: QRLocation, den: int, mx: int, my: int) -> int {
    loc.top_left.x + spec_div_round(
        (mx - 3) * (loc.top_right.x - loc.top_left.x) + (my - 3) * (loc.bottom_left.x
            - loc.top_left.x),
        den,
    )
}

/// The image row sampled for module `(mx, my)`.
pub open spec fn spec_sample_y(loc: QRLocation, den: int, mx: int, my: int) -> int {
    loc.top_left.y + spec_div_round(
        (mx - 3) * (loc.top_right.y - loc.top_left.y) + (my - 3) * (loc.bottom_left.y
            - loc.top_left.y),
        den,
    )
}

/// The raw value stored for module `(mx, my)`: 0 where the sampled pixel is
/// dark, per the storage polarity of the module matrix.
pub open spec fn spec_raw_sample(
    image: &BinaryImage,
    loc: QRLocation,
    den: int,
    mx: int,
    my: int,
) -> u8 {
    if image.spec_sample(spec_sample_x(loc, den, mx, my), spec_sample_y(loc, den, mx, my)) {
        0u8
    } else {
        1u8
    }
}

/// The whole row-major raw array sampled for a placement.
pub open spec fn spec_matrix_data(image: &BinaryImage, loc: QRLocation, side: int) -> Seq<u8> {
    Seq::new((side * side) as nat, |i: int| spec_raw_sample(image, loc, side - 7, i % side, i / side))
}

/// Rectify and sample one placement into a module matrix; a placement whose
/// finder centers are collinear has a singular transform and yields nothing.
pub fn extract_one(image: &BinaryImage, loc: &QRLocation) -> (r: Option<QRData>)
    requires
        image.wf(),
        loc.wf(),
    ensures
        match r {
            Some(m) => {
                &&& spec_cross(*loc) != 0
                &&& m.wf()
                &&& m.version == loc.version
                &&& m.data@ == spec_matrix_data(image, *loc, crate::spec_side(loc.version))
            },
            None => spec_cross(*loc) == 0,
        },
{
    let tlx = loc.top_left.x;
    let tly = loc.top_left.y;
    let ux = loc.top_right.x - tlx;
    let uy = loc.top_right.y - tly;
    let vx = loc.bottom_left.x - tlx;
    let vy = loc.bottom_left.y - tly;
    proof {
        assert(-(0x100000 * 0x100000) <= ux * vy <= 0x100000 * 0x100000 && -(0x100000 * 0x100000)
            <= uy * vx <= 0x100000 * 0x100000) by (nonlinear_arith)
            requires
                -0x100000 <= ux <= 0x100000,
                -0x100000 <= uy <= 0x100000,
                -0x100000 <= vx <= 0x100000,
                -0x100000 <= vy <= 0x100000,
        ;
    }
    let cross = ux * vy - uy * vx;
    if cross == 0 {
        return None;
    }
    let side: u32 = 4 * loc.version + 17;
    let den: i64 = side as i64 - 7;
    let ghost gside = side as int;
    let mut data: Vec<u8> = Vec::new();
    let mut my: u32 = 0;
    while my < side
        invariant
            image.wf(),
            loc.wf(),
            side == 4 * loc.version + 17,
            21 <= side <= 177,
            den == side - 7,
            gside == side,
            ux == loc.top_right.x - loc.top_left.x,
            uy == loc.top_right.y - loc.top_left.y,
            vx == loc.bottom_left.x - loc.top_left.x,
            vy == loc.bottom_left.y - loc.top_left.y,
            tlx == loc.top_left.x,
            tly == loc.top_left.y,
            my <= side,
            data@.len() == my * side,
            forall|i: int|
                0 <= i < data@.len() ==> (#[trigger] data@[i]) == spec_raw_sample(
                    image,
                    *loc,
                    gside - 7,
                    i % gside,
                    i / gside,
                ),
        decreases side - my,
    {
        let mut mx: u32 = 0;
        while mx < side
            invariant
                image.wf(),
                loc.wf(),
                side == 4 * loc.version + 17,
                21 <= side <= 177,
                den == side - 7,
                gside == side,
                ux == loc.top_right.x - loc.top_left.x,
                uy == loc.top_right.y - loc.top_left.y,
                vx == loc.bottom_left.x - loc.top_left.x,
                vy == loc.bottom_left.y - loc.top_left.y,
                tlx == loc.top_left.x,
                tly == loc.top_left.y,
                my < side,
                mx <= side,
                data@.len() == my * side + mx,
                forall|i: int|
                    0 <= i < data@.len() ==> (#[trigger] data@[i]) == spec_raw_sample(
                        image,
                        *loc,
                        gside - 7,
                        i % gside,
                        i / gside,
                    ),
            decreases side - mx,
        {
            let fx = mx as i64 - 3;
            let fy = my as i64 - 3;
            proof {
                assert(-(174 * 0x100000) <= fx * ux <= 174 * 0x100000 && -(174 * 0x100000) <= fy
                    * vx <= 174 * 0x100000 && -(174 * 0x100000) <= fx * uy <= 174 * 0x100000 && -(
                174 * 0x100000) <= fy * vy <= 174 * 0x100000) by (nonlinear_arith)
                    requires
                        -3 <= fx <= 174,
                        -3 <= fy <= 174,
                        -0x100000 <= ux <= 0x100000,
                        -0x100000 <= uy <= 0x100000,
                        -0x100000 <= vx <= 0x100000,
                        -0x100000 <= vy <= 0x100000,
                ;
            }
            let numx = fx * ux + fy * vx;
            let numy = fx * uy + fy * vy;
            let px = tlx + div_round(numx, den);
            let py = tly + div_round(numy, den);
            let sampled = image.sample(px, py);
            let raw: u8 = if sampled {
                0
            } else {
                1
            };
            proof {
                let idx = data@.len() as int;
                lemma_fundamental_div_mod_converse(idx, gside, my as int, mx as int);
                assert(raw == spec_raw_sample(image, *loc, gside - 7, idx % gside, idx / gside));
            }
            data.push(raw);
            mx += 1;
        }
        proof {
            assert(my * gside + gside == (my + 1) * gside) by (nonlinear_arith);
        }
        my += 1;
    }
    proof {
        assert(data@ =~= spec_matrix_data(image, *loc, gside));
    }
    Some(QRData::new(data, loc.version))
}

/// The matrices sampled from a list of placements, in order; a degenerate
/// placement contributes nothing, as its data view and version.
pub open spec fn spec_extract_seq(image: &BinaryImage, locs: Seq<QRLocation>) -> Seq<
    (Seq<u8>, u32),
>
    decreases locs.len(),
{
    if locs.len() == 0 {
        Seq::empty()
    } else {
        let rest = spec_extract_seq(image, locs.drop_last());
        let l = locs.last();
        if spec_cross(l) != 0 {
            rest.push((spec_matrix_data(image, l, crate::spec_side(l.version)), l.version))
        } else {
            rest
        }
    }
}

/// With every placement non-degenerate nothing is dropped: the sampled
/// sequence holds one matrix per placement, in order.
pub proof fn lemma_extract_seq_total(image: &BinaryImage, locs: Seq<QRLocation>)
    requires
        forall|i: int| 0 <= i < locs.len() ==> spec_cross(#[trigger] locs[i]) != 0,
    ensures
        spec_extract_seq(image, locs).len() == locs.len(),
        forall|i: int|
            0 <= i < locs.len() ==> spec_extract_seq(image, locs)[i] == (
                spec_matrix_data(image, #[trigger] locs[i], crate::spec_side(locs[i].version)),
                locs[i].version,
            ),
    decreases locs.len(),
{
    if locs.len() > 0 {
        let init = locs.drop_last();
        assert forall|i: int| 0 <= i < init.len() implies spec_cross(#[trigger] init[i]) != 0 by {
            assert(init[i] == locs[i]);
        }
        lemma_extract_seq_total(image, init);
        assert forall|i: int|
            0 <= i < locs.len() implies spec_extract_seq(image, locs)[i] == (
            spec_matrix_data(image, #[trigger] locs[i], crate::spec_side(locs[i].version)),
            locs[i].version,
        ) by {
            if i < locs.len() - 1 {
                assert(init[i] == locs[i]);
                assert(spec_extract_seq(image, locs)[i] == spec_extract_seq(image, init)[i]);
            } else {
                assert(locs.last() == locs[i]);
            }
        }
    }
}

/// Sample every placement into a module matrix, keeping order; a placement
/// with a singular transform is dropped without disturbing its siblings.
pub fn extract(image: &BinaryImage, locs: &Vec<QRLocation>) -> (r: Vec<QRData>)
    requires
        image.wf(),
        forall|i: int| 0 <= i < locs@.len() ==> (#[trigger] locs@[i]).wf(),
    ensures
        r@.len() == spec_extract_seq(image, locs@).len(),
        forall|i: int|
            0 <= i < r@.len() ==> (#[trigger] r@[i]).wf() && r@[i].data@ == spec_extract_seq(
                image,
                locs@,
            )[i].0 && r@[i].version == spec_extract_seq(image, locs@)[i].1,
        r@.len() <= locs@.len(),
{
    let mut out: Vec<QRData> = Vec::new();
    let mut i: usize = 0;
    while i < locs.len()
        invariant
            image.wf(),
            forall|x: int| 0 <= x < locs@.len() ==> (#[trigger] locs@[x]).wf(),
            i <= locs@.len(),
            out@.len() == spec_extract_seq(image, locs@.take(i as int)).len(),
            out@.len() <= i,
            forall|x: int|
                0 <= x < out@.len() ==> (#[trigger] out@[x]).wf() && out@[x].data@
                    == spec_extract_seq(image, locs@.take(i as int))[x].0 && out@[x].version
                    == spec_extract_seq(image, locs@.take(i as int))[x].1,
        decreases locs.len() - i,
    {
        proof {
            assert(locs@.take(i + 1).drop_last() =~= locs@.take(i as int));
            assert(locs@.take(i + 1).last() == locs@[i as int]);
        }
        match extract_one(image, &locs[i]) {
            Some(m) => {
                out.push(m);
            },
            None => {},
        }
        i += 1;
    }
    proof {
        assert(locs@.take(locs@.len() as int) =~= locs@);
    }
    out
}

} // verus!
