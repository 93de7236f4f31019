use vstd::prelude::*;
use crate::qr::BlockInfo;
use crate::qr::ErrorKind;
use crate::qr::QRError;

verus! {

/// The `b`-th block of a deinterleaved stream laid out as one uniform group
/// of `bc` blocks with `tp` total and `dp` data codewords each: the data
/// codewords are dealt round-robin across the blocks first, then the
/// error-correction codewords round-robin.
pub open spec fn spec_block_at(stream: Seq<u8>, bc: int, tp: int, dp: int, b: int) -> Seq<u8> {
    Seq::new(
        tp as nat,
        |i: int|
            if i < dp {
                stream[i * bc + b]
            } else {
                stream[bc * dp + (i - dp) * bc + b]
            },
    )
}

/// Deinterleave a codeword stream into its error-correction blocks.
/// Every populated block-table row consists of a single uniform group, so a
/// multi-group layout is reported as an unsupported configuration; a stream
/// whose length does not cover the layout is malformed.
pub fn deinterleave(stream: &Vec<u8>, infos: &Vec<BlockInfo>) -> (r: Result<Vec<Vec<u8>>, QRError>)
    requires
        forall|i: int| 0 <= i < infos@.len() ==> (#[trigger] infos@[i]).wf(),
    ensures
        match r {
            Ok(bl) => {
                &&& infos@.len() == 1
                &&& stream@.len() == infos@[0].block_count * infos@[0].total_per
                &&& bl@.len() == infos@[0].block_count
                &&& forall|b: int|
                    0 <= b < bl@.len() ==> (#[trigger] bl@[b])@ == spec_block_at(
                        stream@,
                        infos@[0].block_count as int,
                        infos@[0].total_per as int,
                        infos@[0].data_per as int,
                        b,
                    )
            },
            Err(e) => {
                &&& (e.kind == ErrorKind::UnsupportedConfiguration || e.kind
                    == ErrorKind::MalformedDataSegment)
                &&& (infos@.len() != 1 || stream@.len() != infos@[0].block_count
                    * infos@[0].total_per)
            },
        },
{
    if infos.len() != 1 {
        return Err(QRError::new(ErrorKind::UnsupportedConfiguration));
    }
    let info = infos[0];
    let bc = info.block_count as usize;
    let tp = info.total_per as usize;
    let dp = info.data_per as usize;
    proof {
        assert(bc * tp <= 255 * 255 && bc * dp <= bc * tp) by (nonlinear_arith)
            requires
                bc <= 255,
                tp <= 255,
                dp <= tp,
        ;
    }
    if stream.len() != bc * tp {
        return Err(QRError::new(ErrorKind::MalformedDataSegment));
    }
    let ghost gbc = bc as int;
    let ghost gtp = tp as int;
    let ghost gdp = dp as int;
    let mut blocks: Vec<Vec<u8>> = Vec::new();
    let mut b: usize = 0;
    while b < bc
        invariant
            gbc == bc,
            gtp == tp,
            gdp == dp,
            bc == info.block_count,
            tp == info.total_per,
            dp == info.data_per,
            dp <= tp,
            stream@.len() == bc * tp,
            b <= bc,
            blocks@.len() == b,
            forall|x: int|
                0 <= x < b ==> (#[trigger] blocks@[x])@ == spec_block_at(
                    stream@,
                    gbc,
                    gtp,
                    gdp,
                    x,
                ),
        decreases bc - b,
    {
        let mut cur: Vec<u8> = Vec::new();
        let mut i: usize = 0;
        while i < dp
            invariant
                gbc == bc,
                gtp == tp,
                gdp == dp,
                bc >= 1,
                bc <= 255,
                tp <= 255,
                b < bc,
                dp <= tp,
                stream@.len() == bc * tp,
                i <= dp,
                cur@.len() == i,
                forall|k: int| 0 <= k < i ==> cur@[k] == stream@[k * gbc + b],
            decreases dp - i,
        {
            proof {
                assert(i * bc + b < bc * tp && bc * tp <= 255 * 255) by (nonlinear_arith)
                    requires
                        i < dp,
                        dp <= tp,
                        b < bc,
                        bc <= 255,
                        tp <= 255,
                ;
            }
            cur.push(stream[i * bc + b]);
            i += 1;
        }
        let mut j: usize = 0;
        while j < tp - dp
            invariant
                gbc == bc,
                gtp == tp,
                gdp == dp,
                bc >= 1,
                bc <= 255,
                tp <= 255,
                b < bc,
                dp <= tp,
                stream@.len() == bc * tp,
                j <= tp - dp,
                cur@.len() == dp + j,
                forall|k: int| 0 <= k < dp ==> cur@[k] == stream@[k * gbc + b],
                forall|k: int|
                    0 <= k < j ==> #[trigger] cur@[dp + k] == stream@[gbc * gdp + k * gbc + b],
            decreases tp - dp - j,
        {
            proof {
                assert(bc * dp + j * bc + b < bc * tp && bc * tp <= 255 * 255) by (nonlinear_arith)
                    requires
                        j < tp - dp,
                        dp <= tp,
                        b < bc,
                        bc <= 255,
                        tp <= 255,
                ;
            }
            cur.push(stream[bc * dp + j * bc + b]);
            j += 1;
        }
        proof {
            let sb = spec_block_at(stream@, gbc, gtp, gdp, b as int);
            assert forall|x: int| 0 <= x < gtp implies cur@[x] == sb[x] by {
                if x >= gdp {
                    assert(cur@[gdp + (x - gdp)] == stream@[gbc * gdp + (x - gdp) * gbc + b]);
                }
            }
            assert(cur@ =~= sb);
        }
        blocks.push(cur);
        b += 1;
    }
    Ok(blocks)
}

} // verus!
