use flownet::coupling::{couple, split_channels, transformed_len, CouplingType};
use flownet::mask::{channel_mask, MaskMode};

#[test]
fn static_mask_marks_even_channels() {
    assert_eq!(channel_mask(3, MaskMode::Static, 0), vec![true, false, true]);
    assert_eq!(channel_mask(3, MaskMode::Static, 1), vec![true, false, true]);
    assert_eq!(channel_mask(4, MaskMode::Static, 7), vec![true, false, true, false]);
    assert_eq!(channel_mask(0, MaskMode::Static, 0), Vec::<bool>::new());
}

#[test]
fn alternating_masks_are_complementary() {
    assert_eq!(channel_mask(3, MaskMode::Alternating, 0), vec![true, false, true]);
    assert_eq!(channel_mask(3, MaskMode::Alternating, 1), vec![false, true, false]);
    assert_eq!(channel_mask(3, MaskMode::Alternating, 2), vec![true, false, true]);
}

#[test]
fn coupling_type_alternates_by_block() {
    assert_eq!(CouplingType::for_block(0), CouplingType::Additive);
    assert_eq!(CouplingType::for_block(1), CouplingType::Affine);
    assert_eq!(CouplingType::for_block(2), CouplingType::Additive);
    assert_eq!(CouplingType::for_block(3), CouplingType::Affine);
    assert!(!CouplingType::Additive.uses_scale());
    assert!(CouplingType::Affine.uses_scale());
}

#[test]
fn split_zero_fills_the_other_role() {
    let mask = vec![true, false, true];
    let x = vec![1, 2, 3, 4, 5, 6];
    let (id, tr) = split_channels(&mask, 2, &x, 0);
    assert_eq!(id, vec![0, 0, 3, 4, 0, 0]);
    assert_eq!(tr, vec![1, 2, 0, 0, 5, 6]);
}

#[test]
fn couple_changes_only_transformed_channels() {
    let mask = vec![true, false, true];
    let x = vec![1i64, 2, 3, 4, 5, 6];
    let y = couple(&mask, 2, &x, |v: i64| v * 3 + 1);
    assert_eq!(y, vec![4, 7, 3, 4, 16, 19]);
    assert_eq!(y.len(), x.len());
}

fn params(mask: &Vec<bool>, plane: usize, x: &Vec<i64>) -> i64 {
    let (id, _) = split_channels(mask, plane, x, 0);
    id.iter().sum::<i64>() + 7
}

#[test]
fn coupling_inverts_with_parameters_from_conditioning() {
    let mask = vec![true, false, true];
    let x = vec![10i64, -4, 9, 2, 0, 31];
    let t = params(&mask, 2, &x);
    let y = couple(&mask, 2, &x, |v: i64| v + t);
    assert_ne!(y, x);
    let t_again = params(&mask, 2, &y);
    assert_eq!(t, t_again);
    let back = couple(&mask, 2, &y, |v: i64| v - t_again);
    assert_eq!(back, x);
}

#[test]
fn phase_shifted_parameters_give_different_outputs() {
    let mask = vec![true, false, true];
    let x = vec![1i64, 1, 1, 1, 1, 1];
    let outs: Vec<Vec<i64>> = [0i64, 128, 255]
        .iter()
        .map(|&tag| couple(&mask, 2, &x, |v: i64| v + tag))
        .collect();
    assert_ne!(outs[0], outs[1]);
    assert_ne!(outs[0], outs[2]);
    assert_ne!(outs[1], outs[2]);
}

#[test]
fn transformed_len_counts_transformed_positions() {
    assert_eq!(transformed_len(&vec![true, false, true], 64, 192), 128);
    assert_eq!(transformed_len(&vec![false, true, false], 4, 12), 4);
    assert_eq!(transformed_len(&vec![], 9, 0), 0);
}
