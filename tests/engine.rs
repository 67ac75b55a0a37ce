use flownet::coupling::couple;
use flownet::engine::{FlowNet, ModelState, CHANNELS};
use flownet::error::{FlowNetError, STATUS_INVALID_POINTER, STATUS_OK};
use flownet::mask::MaskMode;
use flownet::shape::{flat_shape, TensorShape};
use flownet::{CouplingBlock, CouplingType};

#[test]
fn test_flownet_creation() {
    let flow = FlowNet::new(4, 4);
    assert_eq!(flow.levels(), 4);
    assert_eq!(flow.depth(), 4);
    assert!(!flow.is_loaded());
}

#[test]
fn default_is_four_by_four_over_three_channels() {
    let flow = FlowNet::default();
    assert_eq!(flow.levels(), 4);
    assert_eq!(flow.depth(), 4);
    assert_eq!(flow.channels(), 3);
    assert_eq!(CHANNELS, 3);
    assert_eq!(flow.mask_mode(), MaskMode::Static);
    assert_eq!(flow.state(), ModelState::Unloaded);
}

#[test]
fn blocks_alternate_laws_and_share_the_static_mask() {
    let flow = FlowNet::new(2, 3);
    for l in 0..2 {
        for b in 0..3 {
            let blk = flow.block(l, b);
            let expected = if b % 2 == 0 { CouplingType::Additive } else { CouplingType::Affine };
            assert_eq!(blk.coupling_type(), expected);
            assert_eq!(blk.mask(), &vec![true, false, true]);
            assert_eq!(blk.depth(), 3);
            assert_eq!(blk.channels(), 3);
        }
    }
}

#[test]
fn alternating_mode_flips_masks_by_block() {
    let flow = FlowNet::with_mask_mode(1, 2, MaskMode::Alternating);
    assert_eq!(flow.block(0, 0).mask(), &vec![true, false, true]);
    assert_eq!(flow.block(0, 1).mask(), &vec![false, true, false]);
}

#[test]
fn unloaded_engine_refuses_every_input() {
    let flow = FlowNet::new(4, 4);
    let good = TensorShape::new(3, 8, 8);
    assert_eq!(flow.check_input(&good, 192), Err(FlowNetError::ModelNotLoaded));
    let bad = TensorShape::new(5, 1, 1);
    assert_eq!(flow.check_input(&bad, 0), Err(FlowNetError::ModelNotLoaded));
}

#[test]
fn loaded_engine_accepts_matching_shapes() {
    let mut flow = FlowNet::new(4, 4);
    assert_eq!(flow.load_weights(&[]), Ok(()));
    assert!(flow.is_loaded());
    let shape = TensorShape::new(3, 8, 8);
    assert_eq!(flow.check_input(&shape, 192), Ok(64));
    assert_eq!(flow.check_input(&shape, 191), Err(FlowNetError::InvalidDimensions));
    let four = TensorShape::new(4, 8, 8);
    assert_eq!(flow.check_input(&four, 256), Err(FlowNetError::InvalidDimensions));
    let huge = TensorShape::new(3, usize::MAX, 2);
    assert_eq!(flow.check_input(&huge, 6), Err(FlowNetError::InvalidDimensions));
}

#[test]
fn load_is_idempotent() {
    let mut flow = FlowNet::new(1, 2);
    assert_eq!(flow.load_weights(&[1, 2, 3]), Ok(()));
    assert_eq!(flow.load_onnx(&[4]), Ok(()));
    assert_eq!(flow.state(), ModelState::Loaded);
    assert_eq!(flow.levels(), 1);
    assert_eq!(flow.depth(), 2);
}

#[test]
fn plans_visit_blocks_in_reverse_orders() {
    let flow = FlowNet::new(2, 2);
    assert_eq!(flow.encode_plan(), vec![(0, 0), (0, 1), (1, 0), (1, 1)]);
    assert_eq!(flow.decode_plan(), vec![(1, 1), (1, 0), (0, 1), (0, 0)]);
    let empty = FlowNet::new(0, 5);
    assert!(empty.encode_plan().is_empty());
    assert!(empty.decode_plan().is_empty());
}

// Block `b` adds a value computed from the conditioning channels; with the
// alternating masks neighbouring blocks do not commute.
fn step(flow: &FlowNet, blk: (usize, usize), x: &Vec<i64>, sign: i64) -> Vec<i64> {
    apply(flow.block(blk.0, blk.1), x, sign)
}

fn apply(block: &CouplingBlock, x: &Vec<i64>, sign: i64) -> Vec<i64> {
    let mask = block.mask();
    let plane = x.len() / 3;
    let mut cond: i64 = 0;
    for (p, v) in x.iter().enumerate() {
        if !mask[p / plane] {
            cond += *v;
        }
    }
    let t = cond * 2 + 1 + block.coupling_type().uses_scale() as i64;
    couple(mask, plane, x, |v: i64| v + sign * t)
}

#[test]
fn decoding_needs_the_reversed_order() {
    let mut flow = FlowNet::with_mask_mode(2, 2, MaskMode::Alternating);
    flow.load_weights(&[]).unwrap();
    let x = vec![3i64, 1, 4, 1, 5, 9];
    let shape = TensorShape::new(3, 1, 2);
    let z = flow.encode_with(&shape, 6, x.clone(), |b: &CouplingBlock, t: Vec<i64>| Ok(apply(b, &t, 1))).unwrap();
    assert_ne!(z, x);
    let back = flow.decode_with(&shape, 6, z.clone(), |b: &CouplingBlock, t: Vec<i64>| Ok(apply(b, &t, -1))).unwrap();
    assert_eq!(back, x);
    let mut wrong = z.clone();
    for blk in flow.encode_plan() {
        wrong = step(&flow, blk, &wrong, -1);
    }
    assert_ne!(wrong, x);
}

#[test]
fn flat_shape_splits_by_channels() {
    assert_eq!(flat_shape(12, 3), Ok(TensorShape::new(3, 1, 4)));
    assert_eq!(flat_shape(0, 3), Ok(TensorShape::new(3, 1, 0)));
    assert_eq!(flat_shape(10, 3), Err(FlowNetError::InvalidDimensions));
    assert_eq!(flat_shape(6, 0), Err(FlowNetError::InvalidDimensions));
}

#[test]
fn shape_sizes() {
    let s = TensorShape::new(3, 8, 8);
    assert_eq!(s.plane(), Some(64));
    assert_eq!(s.len(), Some(192));
    assert_eq!(TensorShape::new(2, usize::MAX, 2).len(), None);
    assert_eq!(s.plane_for(3, 192), Ok(64));
    assert_eq!(s.plane_for(2, 192), Err(FlowNetError::InvalidDimensions));
}

#[test]
fn status_codes_are_negative_and_distinct() {
    assert_eq!(STATUS_OK, 0);
    assert_eq!(STATUS_INVALID_POINTER, -1);
    assert_eq!(FlowNetError::InvalidDimensions.status_code(), -2);
    assert_eq!(FlowNetError::ModelNotLoaded.status_code(), -3);
}

#[test]
fn traversal_is_guarded() {
    let mut flow = FlowNet::new(2, 2);
    let shape = TensorShape::new(3, 1, 1);
    let id = |_: &CouplingBlock, t: Vec<i64>| -> Result<Vec<i64>, FlowNetError> { Ok(t) };
    assert_eq!(flow.encode_with(&shape, 3, vec![1, 2, 3], id), Err(FlowNetError::ModelNotLoaded));
    assert_eq!(flow.decode_with(&shape, 3, vec![1, 2, 3], id), Err(FlowNetError::ModelNotLoaded));
    flow.load_weights(&[]).unwrap();
    assert_eq!(flow.encode_with(&shape, 4, vec![1, 2, 3], id), Err(FlowNetError::InvalidDimensions));
    let wrong = TensorShape::new(2, 1, 1);
    assert_eq!(flow.decode_with(&wrong, 2, vec![1, 2], id), Err(FlowNetError::InvalidDimensions));
    assert_eq!(flow.encode_with(&shape, 3, vec![1, 2, 3], id), Ok(vec![1, 2, 3]));
}

#[test]
fn traversal_visits_blocks_in_plan_order_and_stops_at_errors() {
    let mut flow = FlowNet::new(2, 2);
    flow.load_weights(&[]).unwrap();
    let shape = TensorShape::new(3, 1, 0);
    let record = |b: &CouplingBlock, mut t: Vec<u8>| -> Result<Vec<u8>, FlowNetError> {
        t.push(if b.coupling_type() == CouplingType::Additive { b'A' } else { b'F' });
        Ok(t)
    };
    assert_eq!(flow.encode_with(&shape, 0, Vec::new(), record), Ok(b"AFAF".to_vec()));
    assert_eq!(flow.decode_with(&shape, 0, Vec::new(), record), Ok(b"FAFA".to_vec()));
    let count = |_: &CouplingBlock, n: usize| -> Result<usize, FlowNetError> {
        if n == 4 { Err(FlowNetError::InvalidDimensions) } else { Ok(n + 1) }
    };
    assert_eq!(flow.encode_with(&shape, 0, 0, count), Ok(4));
    assert_eq!(flow.encode_with(&shape, 0, 1, count), Err(FlowNetError::InvalidDimensions));
    assert_eq!(FlowNet::new(1, 3).encode_with(&shape, 0, 0, count), Err(FlowNetError::ModelNotLoaded));
}
