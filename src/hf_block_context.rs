//! How the coefficients of a block are assigned an entropy-coding context.
use vstd::prelude::*;

verus! {

/// Number of block contexts before the threshold splits: three channels,
/// thirteen transform orders each.
pub const BASE_CONTEXTS: u32 = 39;

/// The context map used when the stream asks for the default clustering.
pub open spec fn default_block_ctx_map() -> Seq<u8> {
    seq![
        0u8, 1, 2, 2, 3, 3, 4, 5, 6, 6, 6, 6, 6,
        7, 8, 9, 9, 10, 11, 12, 13, 14, 14, 14, 14, 14,
        7, 8, 9, 9, 10, 11, 12, 13, 14, 14, 14, 14, 14,
    ]
}

/// Thresholds that split blocks by their quantisation and LF values, and the
/// map from the resulting block contexts to clusters.
#[derive(Debug)]
pub struct HfBlockContext {
    pub qf_thresholds: Vec<u32>,
    pub lf_thresholds: [Vec<i32>; 3],
    pub block_ctx_map: Vec<u8>,
    pub num_block_clusters: u32,
}

impl Default for HfBlockContext {
    fn default() -> (r: Self)
        ensures
            r.qf_thresholds@.len() == 0,
            r.lf_thresholds[0]@.len() == 0,
            r.lf_thresholds[1]@.len() == 0,
            r.lf_thresholds[2]@.len() == 0,
            r.block_ctx_map@.len() == 0,
            r.num_block_clusters == 0,
    {
        HfBlockContext {
            qf_thresholds: Vec::new(),
            lf_thresholds: [Vec::new(), Vec::new(), Vec::new()],
            block_ctx_map: Vec::new(),
            num_block_clusters: 0,
        }
    }
}

/// Number of block contexts once each channel's LF thresholds and the
/// quantisation thresholds have split the base contexts: `n` thresholds
/// make `n + 1` classes.
pub open spec fn spec_block_ctx_count(lf_counts: [u32; 3], qf_count: u32) -> int {
    BASE_CONTEXTS * (lf_counts[0] + 1) * (lf_counts[1] + 1) * (lf_counts[2] + 1) * (qf_count + 1)
}

impl HfBlockContext {
    /// The block context setup that the stream selects with a single flag:
    /// no thresholds, fifteen clusters, and the fixed context map.
    pub fn with_default_clusters() -> (r: Self)
        ensures
            r.qf_thresholds@.len() == 0,
            r.lf_thresholds[0]@.len() == 0,
            r.lf_thresholds[1]@.len() == 0,
            r.lf_thresholds[2]@.len() == 0,
            r.block_ctx_map@ == default_block_ctx_map(),
            r.num_block_clusters == 15,
    {
        let block_ctx_map: Vec<u8> = vec![
            0, 1, 2, 2, 3, 3, 4, 5, 6, 6, 6, 6, 6,
            7, 8, 9, 9, 10, 11, 12, 13, 14, 14, 14, 14, 14,
            7, 8, 9, 9, 10, 11, 12, 13, 14, 14, 14, 14, 14,
        ];
        assert(block_ctx_map@ =~= default_block_ctx_map());
        HfBlockContext {
            qf_thresholds: Vec::new(),
            lf_thresholds: [Vec::new(), Vec::new(), Vec::new()],
            block_ctx_map,
            num_block_clusters: 15,
        }
    }

    /// Length of the context map that thresholds in these numbers call for.
    /// Each count is read from four bits.
    pub fn block_ctx_count(lf_counts: [u32; 3], qf_count: u32) -> (r: u32)
        requires
            lf_counts[0] < 16,
            lf_counts[1] < 16,
            lf_counts[2] < 16,
            qf_count < 16,
        ensures
            r == spec_block_ctx_count(lf_counts, qf_count),
    {
        let a = lf_counts[0] + 1;
        let b = lf_counts[1] + 1;
        let c = lf_counts[2] + 1;
        let d = qf_count + 1;
        proof {
            assert(a * b <= 256) by (nonlinear_arith)
                requires
                    1 <= a <= 16,
                    1 <= b <= 16,
            ;
            assert(a * b * c <= 4096) by (nonlinear_arith)
                requires
                    a * b <= 256,
                    1 <= c <= 16,
            ;
            assert(a * b * c * d <= 65536) by (nonlinear_arith)
                requires
                    a * b * c <= 4096,
                    1 <= d <= 16,
            ;
            assert(BASE_CONTEXTS * (a * b * c * d) <= 39 * 65536) by (nonlinear_arith)
                requires
                    a * b * c * d <= 65536,
            ;
            assert(BASE_CONTEXTS * (a * b * c * d) == BASE_CONTEXTS * a * b * c * d) by (nonlinear_arith);
        }
        BASE_CONTEXTS * (a * b * c * d)
    }
}

} // verus!
