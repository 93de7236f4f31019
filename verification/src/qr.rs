use vstd::prelude::*;
use crate::format::ECLevel;
use crate::point::Point;
use crate::spec_side;

verus! {

/// The reason a located symbol could not be decoded.
#[derive(Clone, Copy, PartialEq, Eq, Structural, Debug)]
pub enum ErrorKind {
    /// Both redundant copies of the format information are unreadable.
    UnreadableFormatInfo,
    /// The (version, error-correction level) pair has no block-table entry.
    UnsupportedConfiguration,
    /// A Reed-Solomon block holds more errors than its correction capacity.
    UncorrectableBlock,
    /// The data bitstream violates the segment or padding rules.
    MalformedDataSegment,
    /// The placement-to-grid transform of a located symbol is singular.
    DegenerateGeometry,
}

/// A typed failure describing why a located symbol could not be decoded.
#[derive(Clone, Copy, PartialEq, Eq, Structural, Debug)]
pub struct QRError {
    pub kind: ErrorKind,
}

/// The message text for each failure kind.
pub open spec fn spec_description(kind: ErrorKind) -> Seq<char> {
    match kind {
        ErrorKind::UnreadableFormatInfo => "unreadable format information"@,
        ErrorKind::UnsupportedConfiguration => "unsupported version/level"@,
        ErrorKind::UncorrectableBlock => "uncorrectable block"@,
        ErrorKind::MalformedDataSegment => "malformed data segment"@,
        ErrorKind::DegenerateGeometry => "degenerate placement geometry"@,
    }
}

impl QRError {
    pub fn new(kind: ErrorKind) -> (r: QRError)
        ensures
            r.kind == kind,
    {
        QRError { kind }
    }

    /// A human-readable message for this failure.
    pub fn description(&self) -> (r: &'static str)
        ensures
            r@ == spec_description(self.kind),
    {
        match self.kind {
            ErrorKind::UnreadableFormatInfo => "unreadable format information",
            ErrorKind::UnsupportedConfiguration => "unsupported version/level",
            ErrorKind::UncorrectableBlock => "uncorrectable block",
            ErrorKind::MalformedDataSegment => "malformed data segment",
            ErrorKind::DegenerateGeometry => "degenerate placement geometry",
        }
    }
}

/// The sampled module grid of one symbol. `data` is a flat row-major array of
/// raw samples; the logical module bit is read through `index`, which inverts
/// the storage polarity: a raw sample of 0 means a set (dark) module.
#[derive(Debug)]
pub struct QRData {
    pub data: Vec<u8>,
    pub version: u32,
    pub side: u32,
}

impl QRData {
    /// Well-formedness: the side length follows the version class and the raw
    /// array covers the whole grid.
    pub open spec fn wf(&self) -> bool {
        &&& 1 <= self.version <= 40
        &&& self.side == spec_side(self.version)
        &&& self.data@.len() == self.side * self.side
    }

    /// The raw stored sample at module column `x`, row `y`.
    pub open spec fn raw_at(&self, x: int, y: int) -> u8 {
        self.data@[y * self.side + x]
    }

    /// The canonical module bit: 1 exactly where the raw sample is 0.
    pub open spec fn bit_at(&self, x: int, y: int) -> u8 {
        if self.raw_at(x, y) == 0 {
            1u8
        } else {
            0u8
        }
    }

    pub fn new(data: Vec<u8>, version: u32) -> (r: QRData)
        requires
            1 <= version <= 40,
            data@.len() == spec_side(version) * spec_side(version),
        ensures
            r.wf(),
            r.version == version,
            r.side == spec_side(version),
            r.data@ == data@,
    {
        QRData { data, version, side: 4 * version + 17 }
    }

    /// Canonical module accessor for `[x, y]`: returns the logical bit, which
    /// is the inverse of the raw storage polarity.
    pub fn index(&self, idx: [u32; 2]) -> (r: u8)
        requires
            self.wf(),
            idx[0] < self.side,
            idx[1] < self.side,
        ensures
            r == self.bit_at(idx[0] as int, idx[1] as int),
    {
        let x = idx[0] as usize;
        let y = idx[1] as usize;
        let side = self.side as usize;
        proof {
            assert(y * side + x < side * side && side * side <= 177 * 177) by (nonlinear_arith)
                requires
                    x < side,
                    y < side,
                    side <= 177,
            ;
        }
        let pixel = self.data[y * side + x];
        if pixel == 0 {
            1
        } else {
            0
        }
    }
}

/// For every well-formed module matrix the grid side follows the version
/// class exactly: `side == 4 * version + 17`.
pub proof fn lemma_side_of_version(m: &QRData)
    requires
        m.wf(),
    ensures
        m.side == 4 * m.version + 17,
{
}

/// Polarity round trip: reading a matrix back through the canonical accessor
/// yields 1 exactly on the cells whose raw sample is 0, and 0 on all others.
pub proof fn lemma_polarity_round_trip(m: &QRData, x: int, y: int)
    requires
        m.wf(),
        0 <= x < m.side,
        0 <= y < m.side,
    ensures
        m.bit_at(x, y) == 1 <==> m.raw_at(x, y) == 0,
        m.bit_at(x, y) == 0 <==> m.raw_at(x, y) != 0,
{
}

/// The geometric description of one located symbol: the three finder-pattern
/// centers (the fourth corner has no finder pattern by design), the estimated
/// module pitch in eighths of a pixel, and the estimated version class.
#[derive(Clone, Copy, PartialEq, Eq, Structural, Debug)]
pub struct QRLocation {
    pub top_left: Point,
    pub top_right: Point,
    pub bottom_left: Point,
    /// Module pitch in eighths of a pixel.
    pub module_size: u32,
    pub version: u32,
}

impl QRLocation {
    /// Bounds under which all downstream geometry fits in 64-bit arithmetic.
    pub open spec fn wf(&self) -> bool {
        &&& 1 <= self.version <= 40
        &&& self.module_size >= 1
        &&& 0 <= self.top_left.x < 0x100000
        &&& 0 <= self.top_left.y < 0x100000
        &&& 0 <= self.top_right.x < 0x100000
        &&& 0 <= self.top_right.y < 0x100000
        &&& 0 <= self.bottom_left.x < 0x100000
        &&& 0 <= self.bottom_left.y < 0x100000
    }
}

/// A single detected finder-pattern blob with its estimated module pitch in
/// eighths of a pixel; produced during scanning, before grouping into symbols.
#[derive(Clone, Copy, PartialEq, Eq, Structural, Debug)]
pub struct QRFinderPosition {
    pub location: Point,
    /// Module pitch in eighths of a pixel.
    pub module_size: u32,
}

/// The Reed-Solomon block layout for one group of interleaved blocks:
/// the number of blocks and, per block, the total codewords, the data
/// codewords, and the correction capacity in codewords.
#[derive(Clone, Copy, PartialEq, Eq, Structural, Debug)]
pub struct BlockInfo {
    pub block_count: u8,
    pub total_per: u8,
    pub data_per: u8,
    pub ec_cap: u8,
}

impl BlockInfo {
    /// Each correctable error consumes two parity codewords; a layout may
    /// reserve further parity codewords for misdecode detection, so the
    /// parity count is at least twice the correction capacity.
    pub open spec fn wf(&self) -> bool {
        &&& self.block_count >= 1
        &&& 1 <= self.data_per <= self.total_per
        &&& self.total_per - self.data_per >= 2 * self.ec_cap
    }

    pub fn new(block_count: u8, total_per: u8, data_per: u8, ec_cap: u8) -> (r: BlockInfo)
        requires
            block_count >= 1,
            1 <= data_per <= total_per,
            total_per - data_per >= 2 * ec_cap,
        ensures
            r == (BlockInfo { block_count, total_per, data_per, ec_cap }),
            r.wf(),
    {
        BlockInfo { block_count, total_per, data_per, ec_cap }
    }
}

/// The populated rows of the per-(version, level) block table. Every other
/// combination is a defined unsupported configuration, never a guess.
pub open spec fn spec_block_info(version: u32, level: ECLevel) -> Option<Seq<BlockInfo>> {
    if version == 1 && level == ECLevel::MEDIUM {
        Some(seq![BlockInfo { block_count: 1, total_per: 26, data_per: 16, ec_cap: 4 }])
    } else {
        None
    }
}

/// Look up the block layout for a (version, level) pair; `None` marks an
/// unsupported configuration.
pub fn block_info(version: u32, level: ECLevel) -> (r: Option<Vec<BlockInfo>>)
    ensures
        match r {
            Some(v) => spec_block_info(version, level) == Some(v@),
            None => spec_block_info(version, level) is None,
        },
{
    if version == 1 && level == ECLevel::MEDIUM {
        let v = vec![BlockInfo::new(1, 26, 16, 4)];
        proof {
            assert(v@ =~= seq![
                BlockInfo { block_count: 1, total_per: 26, data_per: 16, ec_cap: 4 },
            ]);
        }
        Some(v)
    } else {
        None
    }
}

/// Every entry of every populated block-table row carries at least two
/// parity codewords per correctable error: `total_per - data_per >= 2 * ec_cap`.
pub proof fn lemma_block_table_parity(version: u32, level: ECLevel)
    ensures
        match spec_block_info(version, level) {
            Some(s) => forall|i: int| 0 <= i < s.len() ==> (#[trigger] s[i]).wf(),
            None => true,
        },
{
    if version == 1 && level == ECLevel::MEDIUM {
        let s = spec_block_info(version, level)->Some_0;
        assert(s[0].wf());
    }
}

/// Every (version, level) pair other than the populated ones has no block
/// table entry: the lookup defines it as an unsupported configuration.
pub proof fn lemma_unsupported_configuration(version: u32, level: ECLevel)
    ensures
        !(version == 1 && level == ECLevel::MEDIUM) ==> spec_block_info(version, level) is None,
{
}

} // verus!
