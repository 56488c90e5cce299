use babiniku::layers::Weights;
use babiniku::tensor::{computes_here, is_sound};
use candle_core::{DType, Device, Tensor};

fn matrix() -> Tensor {
    Tensor::from_vec(vec![1f32, 2.0, 3.0, 4.0, 5.0, 6.0], (2, 3), &Device::Cpu).unwrap()
}

fn named(t: Tensor) -> Vec<(String, Tensor)> {
    vec![("a".to_string(), matrix()), ("b".to_string(), t)]
}

#[test]
fn single_precision_in_main_memory_is_plain() {
    assert!(computes_here(&matrix()));
    assert!(computes_here(&matrix().t().unwrap()));
    assert!(!computes_here(&matrix().to_dtype(DType::F64).unwrap()));
    assert!(!computes_here(&matrix().to_dtype(DType::U32).unwrap()));
}

#[test]
fn tensors_in_main_memory_are_handed_out() {
    assert!(Weights::can_hand_out(&vec![], &Device::Cpu));
    assert!(Weights::can_hand_out(&named(matrix()), &Device::Cpu));
    assert!(Weights::can_hand_out(&named(matrix().t().unwrap()), &Device::Cpu));
    for dtype in [DType::F16, DType::BF16, DType::F64, DType::U8, DType::I64] {
        assert!(Weights::can_hand_out(&named(matrix().to_dtype(dtype).unwrap()), &Device::Cpu), "{dtype:?}");
    }
    assert!(Weights::from_tensors(named(matrix().t().unwrap()), &Device::Cpu).is_ok());
}

/// A slice without elements that begins beyond the end of its storage.
fn beyond() -> Tensor {
    let x = Tensor::zeros((3, 5), DType::F32, &Device::Cpu).unwrap();
    x.narrow(0, 3, 0).unwrap().narrow(1, 5, 0).unwrap()
}

#[test]
fn slices_can_begin_beyond_their_storage() {
    assert!(is_sound(&matrix()));
    assert!(is_sound(&matrix().narrow(0, 1, 1).unwrap()));
    assert!(is_sound(&Tensor::zeros((0, 5), DType::F32, &Device::Cpu).unwrap()));
    assert_eq!(beyond().layout().start_offset(), 20);
    assert!(!is_sound(&beyond()));
    assert!(Weights::can_hold(&vec![]));
    assert!(Weights::can_hold(&named(matrix().t().unwrap())));
    assert!(!Weights::can_hold(&named(beyond())));
}
