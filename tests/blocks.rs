use jxl_transform::hf_block_context::HfBlockContext;
use jxl_transform::transform_type::TransformType;

#[test]
fn dct_select_sizes() {
    assert_eq!(TransformType::Dct8.dct_select_size(), (1, 1));
    assert_eq!(TransformType::Dct16x8.dct_select_size(), (1, 2));
    assert_eq!(TransformType::Dct8x16.dct_select_size(), (2, 1));
    assert_eq!(TransformType::Dct256x128.dct_select_size(), (16, 32));
    assert_eq!(TransformType::Afv2.dct_select_size(), (1, 1));
}

#[test]
fn target_sizes_are_in_samples() {
    assert_eq!(TransformType::Dct64x32.target_size(), (32, 64));
    assert_eq!(TransformType::Hornuss.target_size(), (8, 8));
}

#[test]
fn special_transforms() {
    assert!(TransformType::Dct2.is_special());
    assert!(TransformType::Afv3.is_special());
    assert!(TransformType::Dct8x4.is_special());
    assert!(!TransformType::Dct8.is_special());
    assert!(!TransformType::Dct128.is_special());
}

#[test]
fn afv_flips_by_variant() {
    assert_eq!(TransformType::Afv0.afv_flips(), Some((false, false)));
    assert_eq!(TransformType::Afv1.afv_flips(), Some((true, false)));
    assert_eq!(TransformType::Afv2.afv_flips(), Some((false, true)));
    assert_eq!(TransformType::Afv3.afv_flips(), Some((true, true)));
    assert_eq!(TransformType::Dct4.afv_flips(), None);
}

#[test]
fn default_clusters() {
    let ctx = HfBlockContext::with_default_clusters();
    assert_eq!(ctx.num_block_clusters, 15);
    assert_eq!(ctx.block_ctx_map.len(), 39);
    assert_eq!(ctx.block_ctx_map[13], 7);
    assert!(ctx.qf_thresholds.is_empty());
    assert!(ctx.lf_thresholds.iter().all(|t| t.is_empty()));
}

#[test]
fn default_context_is_empty() {
    let ctx = HfBlockContext::default();
    assert_eq!(ctx.num_block_clusters, 0);
    assert!(ctx.block_ctx_map.is_empty());
}

#[test]
fn block_ctx_count_multiplies_classes() {
    assert_eq!(HfBlockContext::block_ctx_count([0, 0, 0], 0), 39);
    assert_eq!(HfBlockContext::block_ctx_count([1, 2, 0], 3), 39 * 2 * 3 * 4);
    assert_eq!(HfBlockContext::block_ctx_count([15, 15, 15], 15), 39 * 65536);
}
