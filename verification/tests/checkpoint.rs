use babiniku::checkpoint::{fold_weight_norm, select, subset, CheckpointError, StateDict};
use candle_core::{DType, Device, Tensor};

fn row(v: &[f32]) -> Tensor {
    Tensor::from_vec(v.to_vec(), v.len(), &Device::Cpu).unwrap()
}

fn values(t: &Tensor) -> Vec<f32> {
    t.flatten_all().unwrap().to_vec1().unwrap()
}

fn named(entries: &[(&str, Tensor)]) -> Vec<(String, Tensor)> {
    entries.iter().map(|(k, t)| (k.to_string(), t.clone())).collect()
}

fn names(d: &StateDict) -> Vec<String> {
    let mut v: Vec<String> = d.entries().iter().map(|(k, _)| k.clone()).collect();
    v.sort();
    v
}

#[test]
fn weight_norm_fold_matches_torch_semantics() {
    // w = v * g / ||v||_2 with the norm over dims 1.. (torch
    // remove_weight_norm); checked against a hand computation.
    let dev = Device::Cpu;
    let v = Tensor::from_vec(vec![3f32, 4.0, 0.0, 5.0], (2, 2, 1), &dev).unwrap();
    let g = Tensor::from_vec(vec![10f32, 1.0], (2, 1, 1), &dev).unwrap();
    let mut sd = StateDict::new();
    sd.insert("conv.weight_v".to_string(), v);
    sd.insert("conv.weight_g".to_string(), g);
    sd.insert("conv.bias".to_string(), Tensor::zeros(2, DType::F32, &dev).unwrap());
    let out = fold_weight_norm(sd).unwrap();
    assert!(out.get("conv.weight").is_some());
    assert!(out.get("conv.bias").is_some());
    assert!(!out.get("conv.weight_v").is_some());
    let w: Vec<f32> = out.get("conv.weight").unwrap().flatten_all().unwrap().to_vec1().unwrap();
    // Row 0: ||(3,4)|| = 5, g=10 -> (6, 8). Row 1: ||(0,5)|| = 5, g=1 -> (0, 1).
    let want = [6.0f32, 8.0, 0.0, 1.0];
    for (a, b) in w.iter().zip(want) {
        assert!((a - b).abs() < 1e-6, "{a} vs {b}");
    }
}

#[test]
fn folding_twice_is_folding_once() {
    let v = Tensor::from_vec(vec![3f32, 4.0, 0.0, 5.0], (2, 2), &Device::Cpu).unwrap();
    let g = Tensor::from_vec(vec![10f32, 1.0], (2, 1), &Device::Cpu).unwrap();
    let sd = StateDict::from_entries(named(&[("a.weight_v", v), ("a.weight_g", g), ("b", row(&[1.0]))]));
    let once = fold_weight_norm(sd).unwrap();
    assert_eq!(names(&once), vec!["a.weight", "b"]);
    assert_eq!(once.get("a.weight").unwrap().dims(), &[2, 2]);
    let first = values(once.get("a.weight").unwrap());
    let twice = fold_weight_norm(once).unwrap();
    assert_eq!(names(&twice), vec!["a.weight", "b"]);
    assert_eq!(values(twice.get("a.weight").unwrap()), first);
}

#[test]
fn only_the_direction_of_directions_counts() {
    let fold = |v: Vec<f32>| {
        let v = Tensor::from_vec(v, (2, 2), &Device::Cpu).unwrap();
        let g = Tensor::from_vec(vec![-10f32, 1.0], (2, 1), &Device::Cpu).unwrap();
        let sd = StateDict::from_entries(named(&[("a.weight_v", v), ("a.weight_g", g)]));
        values(fold_weight_norm(sd).unwrap().get("a.weight").unwrap())
    };
    let w = fold(vec![3.0, 4.0, 0.0, 5.0]);
    assert_eq!(w, vec![-6.0, -8.0, 0.0, 1.0]);
    assert_eq!(fold(vec![6.0, 8.0, 0.0, 0.625]), w);
    // A row is as long as its magnitude.
    assert_eq!((w[0] * w[0] + w[1] * w[1]).sqrt(), 10.0);
}

#[test]
fn magnitudes_need_directions() {
    let sd = StateDict::from_entries(named(&[("x.bias", row(&[1.0])), ("x.weight_g", row(&[1.0]))]));
    match fold_weight_norm(sd) {
        Err(CheckpointError::MissingDirection(k)) => assert_eq!(k, "x.weight_g"),
        _ => panic!("a magnitude without a direction was folded"),
    }
}

#[test]
fn directions_alone_and_plain_weights_stay() {
    let sd = StateDict::from_entries(named(&[
        ("a.weight_v", row(&[7.0])),
        ("b.weight", row(&[8.0])),
        ("b.weight_v", row(&[2.0])),
        ("b.weight_g", row(&[3.0])),
    ]));
    let out = fold_weight_norm(sd).unwrap();
    assert_eq!(names(&out), vec!["a.weight_v", "b.weight"]);
    assert_eq!(values(out.get("a.weight_v").unwrap()), vec![7.0]);
    assert_eq!(values(out.get("b.weight").unwrap()), vec![8.0]);
}

#[test]
fn shapes_that_do_not_meet_are_rejected() {
    let v = Tensor::from_vec(vec![1f32; 6], (2, 3), &Device::Cpu).unwrap();
    let g = Tensor::from_vec(vec![1f32; 3], (3, 1), &Device::Cpu).unwrap();
    let sd = StateDict::from_entries(named(&[("a.weight_v", v), ("a.weight_g", g)]));
    assert!(matches!(fold_weight_norm(sd), Err(CheckpointError::Backend(_))));
}

#[test]
fn integers_outside_pairs_are_handed_through() {
    let count = Tensor::new(&[7u32, 8], &Device::Cpu).unwrap();
    let sd = StateDict::from_entries(named(&[
        ("num_batches", count.clone()),
        ("a.weight_v", row(&[2.0])),
        ("a.weight_g", row(&[3.0])),
        ("b.weight_v", count.clone()),
    ]));
    let out = fold_weight_norm(sd).unwrap();
    assert_eq!(names(&out), vec!["a.weight", "b.weight_v", "num_batches"]);
    assert_eq!(out.entries().len(), 4 - 1);
    assert_eq!(out.get("num_batches").unwrap().to_vec1::<u32>().unwrap(), vec![7, 8]);
    assert_eq!(out.get("b.weight_v").unwrap().dtype(), DType::U32);
}

#[test]
fn magnitudes_have_the_type_of_their_directions() {
    let g = Tensor::new(&[3u32], &Device::Cpu).unwrap();
    let sd = StateDict::from_entries(named(&[("a.weight_v", row(&[2.0])), ("a.weight_g", g)]));
    assert!(matches!(fold_weight_norm(sd), Err(CheckpointError::Backend(_))));
}

#[test]
fn maps_without_magnitudes_are_not_changed() {
    let sd = StateDict::from_entries(named(&[("a.weight_v", row(&[2.0])), ("a.weight", row(&[3.0]))]));
    let out = fold_weight_norm(sd).unwrap();
    assert_eq!(names(&out), vec!["a.weight", "a.weight_v"]);
    assert_eq!(values(out.get("a.weight").unwrap()), vec![3.0]);
}

#[test]
fn a_later_tensor_replaces_an_earlier_one() {
    let mut d = StateDict::from_entries(named(&[("a", row(&[1.0])), ("b", row(&[2.0])), ("a", row(&[3.0]))]));
    assert_eq!(names(&d), vec!["a", "b"]);
    assert_eq!(values(d.get("a").unwrap()), vec![3.0]);
    d.insert("b".to_string(), row(&[4.0]));
    assert_eq!(d.entries().len(), 2);
    assert_eq!(values(d.get("b").unwrap()), vec![4.0]);
    assert!(d.get("c").is_none());
}

#[test]
fn prefixes_select_and_are_stripped() {
    let double = row(&[1.5]).to_dtype(DType::F64).unwrap();
    let all = named(&[
        ("net.cfm.a", double),
        ("net.cfm.b", row(&[2.0])),
        ("net.other.a", row(&[3.0])),
        ("cfm.net.cfm.", row(&[4.0])),
    ]);
    let d = select(&all, Some("net.cfm.")).unwrap();
    assert_eq!(names(&d), vec!["a", "b"]);
    assert_eq!(d.get("a").unwrap().dtype(), DType::F32);
    assert_eq!(values(d.get("a").unwrap()), vec![1.5]);
    let everything = select(&all, None).unwrap();
    assert_eq!(everything.entries().len(), 4);
    assert!(everything.get("net.other.a").is_some());
    assert!(matches!(select(&all, Some("generator.")), Err(CheckpointError::NoTensors)));
    assert!(matches!(select(&vec![], None), Err(CheckpointError::NoTensors)));
}

#[test]
fn subsets_keep_their_names() {
    let half = row(&[0.5]).to_dtype(DType::F16).unwrap();
    let all = named(&[("model.encoder.x", half), ("model.decoder.x", row(&[2.0]))]);
    let d = subset(&all, "model.encoder.").unwrap();
    assert_eq!(names(&d), vec!["model.encoder.x"]);
    assert_eq!(d.get("model.encoder.x").unwrap().dtype(), DType::F32);
    assert_eq!(subset(&all, "nothing.").unwrap().entries().len(), 0);
}
