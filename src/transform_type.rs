//! The closed set of block transforms that a coefficient block may select.
use vstd::prelude::*;

verus! {

/// Which inverse transform turns a coefficient block into samples.
#[derive(Debug, Clone, Copy, PartialEq, Eq, Structural)]
pub enum TransformType {
    Dct8,
    Hornuss,
    Dct2,
    Dct4,
    Dct16,
    Dct32,
    Dct16x8,
    Dct8x16,
    Dct32x8,
    Dct8x32,
    Dct32x16,
    Dct16x32,
    Dct4x8,
    Dct8x4,
    Afv0,
    Afv1,
    Afv2,
    Afv3,
    Dct64,
    Dct64x32,
    Dct32x64,
    Dct128,
    Dct128x64,
    Dct64x128,
    Dct256,
    Dct256x128,
    Dct128x256,
}

/// Footprint of a transform in 8×8 blocks, as `(width, height)`.
pub open spec fn spec_dct_select_size(t: TransformType) -> (u32, u32) {
    match t {
        TransformType::Dct16 => (2, 2),
        TransformType::Dct32 => (4, 4),
        TransformType::Dct16x8 => (1, 2),
        TransformType::Dct8x16 => (2, 1),
        TransformType::Dct32x8 => (1, 4),
        TransformType::Dct8x32 => (4, 1),
        TransformType::Dct32x16 => (2, 4),
        TransformType::Dct16x32 => (4, 2),
        TransformType::Dct64 => (8, 8),
        TransformType::Dct64x32 => (4, 8),
        TransformType::Dct32x64 => (8, 4),
        TransformType::Dct128 => (16, 16),
        TransformType::Dct128x64 => (8, 16),
        TransformType::Dct64x128 => (16, 8),
        TransformType::Dct256 => (32, 32),
        TransformType::Dct256x128 => (16, 32),
        TransformType::Dct128x256 => (32, 16),
        _ => (1, 1),
    }
}

/// The transforms that have a structure of their own rather than one
/// separable 2-D inverse DCT over their whole footprint.
pub open spec fn spec_is_special(t: TransformType) -> bool {
    match t {
        TransformType::Dct2 | TransformType::Dct4 | TransformType::Hornuss | TransformType::Dct4x8
        | TransformType::Dct8x4 | TransformType::Afv0 | TransformType::Afv1 | TransformType::Afv2
        | TransformType::Afv3 => true,
        _ => false,
    }
}

impl TransformType {
    /// Footprint of the transform in 8×8 blocks, as `(width, height)`.
    pub fn dct_select_size(self) -> (r: (u32, u32))
        ensures
            r == spec_dct_select_size(self),
            1 <= r.0 <= 32,
            1 <= r.1 <= 32,
    {
        match self {
            TransformType::Dct16 => (2, 2),
            TransformType::Dct32 => (4, 4),
            TransformType::Dct16x8 => (1, 2),
            TransformType::Dct8x16 => (2, 1),
            TransformType::Dct32x8 => (1, 4),
            TransformType::Dct8x32 => (4, 1),
            TransformType::Dct32x16 => (2, 4),
            TransformType::Dct16x32 => (4, 2),
            TransformType::Dct64 => (8, 8),
            TransformType::Dct64x32 => (4, 8),
            TransformType::Dct32x64 => (8, 4),
            TransformType::Dct128 => (16, 16),
            TransformType::Dct128x64 => (8, 16),
            TransformType::Dct64x128 => (16, 8),
            TransformType::Dct256 => (32, 32),
            TransformType::Dct256x128 => (16, 32),
            TransformType::Dct128x256 => (32, 16),
            _ => (1, 1),
        }
    }

    /// Size in samples, as `(width, height)`, of the block the transform
    /// produces.
    pub fn target_size(self) -> (r: (u32, u32))
        ensures
            r.0 == 8 * spec_dct_select_size(self).0,
            r.1 == 8 * spec_dct_select_size(self).1,
    {
        let (w8, h8) = self.dct_select_size();
        (w8 * 8, h8 * 8)
    }

    /// Whether the transform has a structure of its own (the small DCTs, the
    /// Hornuss transform, and the asymmetric AFV variants) rather than one
    /// separable inverse DCT over its whole footprint.
    pub fn is_special(self) -> (r: bool)
        ensures
            r == spec_is_special(self),
    {
        match self {
            TransformType::Dct2 | TransformType::Dct4 | TransformType::Hornuss
            | TransformType::Dct4x8 | TransformType::Dct8x4 | TransformType::Afv0
            | TransformType::Afv1 | TransformType::Afv2 | TransformType::Afv3 => true,
            _ => false,
        }
    }

    /// For the AFV variants, which quadrant the asymmetric basis fills, as
    /// `(flip_x, flip_y)`; `None` for the other transforms.
    pub fn afv_flips(self) -> (r: Option<(bool, bool)>)
        ensures
            r == match self {
                TransformType::Afv0 => Some((false, false)),
                TransformType::Afv1 => Some((true, false)),
                TransformType::Afv2 => Some((false, true)),
                TransformType::Afv3 => Some((true, true)),
                _ => None::<(bool, bool)>,
            },
    {
        match self {
            TransformType::Afv0 => Some((false, false)),
            TransformType::Afv1 => Some((true, false)),
            TransformType::Afv2 => Some((false, true)),
            TransformType::Afv3 => Some((true, true)),
            _ => None,
        }
    }
}

} // verus!
