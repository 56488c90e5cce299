use std::collections::HashMap;

use babiniku::campplus::{seg_pooling, CampPlus, NUM_MEL_BINS, SR};
use babiniku::error::VcError;
use babiniku::fbank::FbankExtractor;
use babiniku::layers::Weights;
use candle_core::{Device, IndexOp, Tensor};
use rustfft::num_complex::Complex64;
use rustfft::FftPlanner;

/// Pseudo-random numbers in -0.5 .. 0.5.
fn noise(n: usize, seed: u32) -> Vec<f32> {
    let mut s = seed.wrapping_mul(2_654_435_761).wrapping_add(12_345);
    (0..n)
        .map(|_| {
            s = s.wrapping_mul(1_664_525).wrapping_add(1_013_904_223);
            (s >> 8) as f32 / 16_777_216.0 - 0.5
        })
        .collect()
}

fn tensor(dims: &[usize], seed: u32) -> Tensor {
    Tensor::from_vec(noise(dims.iter().product(), seed), dims, &Device::Cpu).unwrap()
}

type Dict = HashMap<String, Tensor>;

fn add(c: &mut Dict, name: String, dims: &[usize], gain: f64) {
    let seed = c.len() as u32 + 1;
    c.insert(name, (tensor(dims, seed) * gain).unwrap());
}

fn add_norm(c: &mut Dict, name: &str, channels: usize, affine: bool) {
    add(c, format!("{name}.running_mean"), &[channels], 0.2);
    let seed = c.len() as u32 + 1;
    let var = (tensor(&[channels], seed) + 1.0).unwrap();
    c.insert(format!("{name}.running_var"), var);
    if affine {
        let seed = c.len() as u32 + 1;
        c.insert(format!("{name}.weight"), (tensor(&[channels], seed) + 1.0).unwrap());
        add(c, format!("{name}.bias"), &[channels], 0.2);
    }
}

const BLOCKS: [(usize, usize); 3] = [(12, 1), (24, 2), (16, 2)];

fn checkpoint() -> Dict {
    let mut c = Dict::new();
    add(&mut c, "head.conv1.weight".to_string(), &[32, 1, 3, 3], 1.0);
    add_norm(&mut c, "head.bn1", 32, true);
    for l in 1..=2 {
        for b in 0..2 {
            let name = format!("head.layer{l}.{b}");
            for n in 1..=2 {
                add(&mut c, format!("{name}.conv{n}.weight"), &[32, 32, 3, 3], 0.1);
                add_norm(&mut c, &format!("{name}.bn{n}"), 32, true);
            }
            if b == 0 {
                add(&mut c, format!("{name}.shortcut.0.weight"), &[32, 32, 1, 1], 0.3);
                add_norm(&mut c, &format!("{name}.shortcut.1"), 32, true);
            }
        }
    }
    add(&mut c, "head.conv2.weight".to_string(), &[32, 32, 3, 3], 0.1);
    add_norm(&mut c, "head.bn2", 32, true);
    add(&mut c, "xvector.tdnn.linear.weight".to_string(), &[128, 320, 5], 0.05);
    add_norm(&mut c, "xvector.tdnn.nonlinear.batchnorm", 128, true);
    let mut channels = 128;
    for (i, (layers, _)) in BLOCKS.into_iter().enumerate() {
        for l in 0..layers {
            let name = format!("xvector.block{}.tdnnd{}", i + 1, l + 1);
            let ch = channels + 32 * l;
            add_norm(&mut c, &format!("{name}.nonlinear1.batchnorm"), ch, true);
            add(&mut c, format!("{name}.linear1.weight"), &[128, ch, 1], 0.1);
            add_norm(&mut c, &format!("{name}.nonlinear2.batchnorm"), 128, true);
            add(&mut c, format!("{name}.cam_layer.linear_local.weight"), &[32, 128, 3], 0.1);
            add(&mut c, format!("{name}.cam_layer.linear1.weight"), &[64, 128, 1], 0.1);
            add(&mut c, format!("{name}.cam_layer.linear1.bias"), &[64], 0.1);
            add(&mut c, format!("{name}.cam_layer.linear2.weight"), &[32, 64, 1], 0.1);
            add(&mut c, format!("{name}.cam_layer.linear2.bias"), &[32], 0.1);
        }
        channels += 32 * layers;
        let name = format!("xvector.transit{}", i + 1);
        add_norm(&mut c, &format!("{name}.nonlinear.batchnorm"), channels, true);
        add(&mut c, format!("{name}.linear.weight"), &[channels / 2, channels, 1], 0.1);
        channels /= 2;
    }
    add_norm(&mut c, "xvector.out_nonlinear.batchnorm", channels, true);
    add(&mut c, "xvector.dense.linear.weight".to_string(), &[192, 2 * channels, 1], 0.1);
    add_norm(&mut c, "xvector.dense.nonlinear.batchnorm", 192, false);
    c
}

fn entries(c: &Dict) -> Vec<(String, Tensor)> {
    c.iter().map(|(k, t)| (k.clone(), t.clone())).collect()
}

fn encoder(c: &Dict) -> Result<CampPlus, VcError> {
    CampPlus::load(&Weights::from_tensors(entries(c), &Device::Cpu).unwrap())
}

fn norm(c: &Dict, name: &str, x: &Tensor) -> Tensor {
    let mut dims = vec![1; x.dims().len()];
    dims[1] = x.dim(1).unwrap();
    let get = |n: &str| c[&format!("{name}.{n}")].reshape(dims.clone()).unwrap();
    let y = x.broadcast_sub(&get("running_mean")).unwrap();
    let y = y.broadcast_div(&(get("running_var") + 1e-5).unwrap().sqrt().unwrap()).unwrap();
    if c.contains_key(&format!("{name}.weight")) {
        y.broadcast_mul(&get("weight")).unwrap().broadcast_add(&get("bias")).unwrap()
    } else {
        y
    }
}

fn even_rows(x: &Tensor) -> Tensor {
    let rows: Vec<Tensor> = (0..x.dim(2).unwrap()).step_by(2).map(|i| x.narrow(2, i, 1).unwrap()).collect();
    Tensor::cat(&rows, 2).unwrap()
}

fn conv2d(c: &Dict, name: &str, x: &Tensor, padding: usize) -> Tensor {
    x.conv2d(&c[&format!("{name}.weight")], padding, 1, 1, 1).unwrap()
}

fn conv(c: &Dict, name: &str, x: &Tensor, padding: usize, stride: usize, dilation: usize) -> Tensor {
    let y = x.conv1d(&c[&format!("{name}.weight")], padding, stride, dilation, 1).unwrap();
    match c.get(&format!("{name}.bias")) {
        Some(b) => y.broadcast_add(&b.reshape((1, b.dim(0).unwrap(), 1)).unwrap()).unwrap(),
        None => y,
    }
}

fn res_block(c: &Dict, name: &str, x: &Tensor, halve: bool) -> Tensor {
    let mut y = conv2d(c, &format!("{name}.conv1"), x, 1);
    if halve {
        y = even_rows(&y);
    }
    let y = norm(c, &format!("{name}.bn1"), &y).relu().unwrap();
    let y = norm(c, &format!("{name}.bn2"), &conv2d(c, &format!("{name}.conv2"), &y, 1));
    let short = if halve {
        let s = even_rows(&conv2d(c, &format!("{name}.shortcut.0"), x, 0));
        norm(c, &format!("{name}.shortcut.1"), &s)
    } else {
        x.clone()
    };
    (y + short).unwrap().relu().unwrap()
}

fn segment_means(x: &Tensor) -> Tensor {
    let t = x.dim(2).unwrap();
    let frames: Vec<Tensor> = (0..t)
        .map(|f| {
            let start = f / 100 * 100;
            x.narrow(2, start, 100.min(t - start)).unwrap().mean_keepdim(2).unwrap()
        })
        .collect();
    Tensor::cat(&frames, 2).unwrap()
}

fn reference(c: &Dict, feat: &Tensor) -> Tensor {
    let x = feat.transpose(1, 2).unwrap().contiguous().unwrap().unsqueeze(1).unwrap();
    let mut x = norm(c, "head.bn1", &conv2d(c, "head.conv1", &x, 1)).relu().unwrap();
    for (name, halve) in [("layer1.0", true), ("layer1.1", false), ("layer2.0", true), ("layer2.1", false)] {
        x = res_block(c, &format!("head.{name}"), &x, halve);
    }
    let x = norm(c, "head.bn2", &even_rows(&conv2d(c, "head.conv2", &x, 1))).relu().unwrap();
    let (b, ch, f, t) = x.dims4().unwrap();
    let x = x.reshape((b, ch * f, t)).unwrap();
    let x = conv(c, "xvector.tdnn.linear", &x, 2, 2, 1);
    let mut x = norm(c, "xvector.tdnn.nonlinear.batchnorm", &x).relu().unwrap();
    for (i, (layers, dilation)) in BLOCKS.into_iter().enumerate() {
        for l in 0..layers {
            let name = format!("xvector.block{}.tdnnd{}", i + 1, l + 1);
            let z = norm(c, &format!("{name}.nonlinear1.batchnorm"), &x).relu().unwrap();
            let z = conv(c, &format!("{name}.linear1"), &z, 0, 1, 1);
            let z = norm(c, &format!("{name}.nonlinear2.batchnorm"), &z).relu().unwrap();
            let y = conv(c, &format!("{name}.cam_layer.linear_local"), &z, dilation, 1, dilation);
            let context = z.mean_keepdim(2).unwrap().broadcast_add(&segment_means(&z)).unwrap();
            let h = conv(c, &format!("{name}.cam_layer.linear1"), &context, 0, 1, 1).relu().unwrap();
            let m = conv(c, &format!("{name}.cam_layer.linear2"), &h, 0, 1, 1);
            let m = candle_nn::ops::sigmoid(&m).unwrap();
            x = Tensor::cat(&[&x, &(y * m).unwrap()], 1).unwrap();
        }
        let name = format!("xvector.transit{}", i + 1);
        let z = norm(c, &format!("{name}.nonlinear.batchnorm"), &x).relu().unwrap();
        x = conv(c, &format!("{name}.linear"), &z, 0, 1, 1);
    }
    let x = norm(c, "xvector.out_nonlinear.batchnorm", &x).relu().unwrap();
    let t = x.dim(2).unwrap();
    let mean = x.mean_keepdim(2).unwrap();
    let var = x.broadcast_sub(&mean).unwrap().sqr().unwrap().sum_keepdim(2).unwrap();
    let std = (var / (t as f64 - 1.0)).unwrap().sqrt().unwrap();
    let stats = Tensor::cat(&[&mean, &std], 1).unwrap();
    let y = conv(c, "xvector.dense.linear", &stats, 0, 1, 1).squeeze(2).unwrap();
    norm(c, "xvector.dense.nonlinear.batchnorm", &y)
}

fn max_abs_diff(a: &Tensor, b: &Tensor) -> f32 {
    assert_eq!(a.dims(), b.dims());
    (a - b).unwrap().abs().unwrap().flatten_all().unwrap().max(0).unwrap().to_scalar().unwrap()
}

#[test]
fn encoder_computes_its_architecture() {
    let c = checkpoint();
    let m = encoder(&c).unwrap();
    let feat = tensor(&[2, 9, 80], 77);
    let got = m.forward(&feat).unwrap();
    assert_eq!(got.dims(), &[2, CampPlus::EMBEDDING_SIZE]);
    let want = reference(&c, &feat);
    let scale: f32 = want.abs().unwrap().flatten_all().unwrap().max(0).unwrap().to_scalar().unwrap();
    let d = max_abs_diff(&got, &want);
    assert!(d < 1e-5 * scale, "{d} of {scale}");
    assert!(max_abs_diff(&got.i(0..1).unwrap(), &got.i(1..2).unwrap()) > 1e-4 * scale);
}

#[test]
fn embedding_subtracts_the_mean_over_time() {
    let c = checkpoint();
    let m = encoder(&c).unwrap();
    let fbank = tensor(&[12, 80], 5);
    let got = m.embed(&fbank).unwrap();
    assert_eq!(got.dims(), &[1, 192]);
    let centred = fbank.broadcast_sub(&fbank.mean_keepdim(0).unwrap()).unwrap();
    let want = m.forward(&centred.unsqueeze(0).unwrap()).unwrap();
    assert_eq!(max_abs_diff(&got, &want), 0.0);
    let not_centred = m.forward(&fbank.unsqueeze(0).unwrap()).unwrap();
    assert!(max_abs_diff(&got, &not_centred) > 0.0);
}

#[test]
fn utterances_do_not_meet_in_a_batch() {
    let m = encoder(&checkpoint()).unwrap();
    let batch = tensor(&[3, 9, 80], 31);
    let all = m.forward(&batch).unwrap();
    let scale: f32 = all.abs().unwrap().flatten_all().unwrap().max(0).unwrap().to_scalar().unwrap();
    for k in 0..3 {
        let alone = m.forward(&batch.i(k..k + 1).unwrap()).unwrap();
        let d = max_abs_diff(&all.i(k..k + 1).unwrap(), &alone);
        assert!(d < 1e-5 * scale, "{d} of {scale}");
    }
    assert!(max_abs_diff(&all.i(0..1).unwrap(), &all.i(1..2).unwrap()) > 1e-4 * scale);
}

#[test]
fn embedding_ignores_an_offset_per_bin() {
    let m = encoder(&checkpoint()).unwrap();
    let fbank = tensor(&[12, 80], 5);
    let moved = fbank.broadcast_add(&tensor(&[1, 80], 8)).unwrap();
    let (a, b) = (m.embed(&fbank).unwrap(), m.embed(&moved).unwrap());
    let scale: f32 = a.abs().unwrap().flatten_all().unwrap().max(0).unwrap().to_scalar().unwrap();
    let d = max_abs_diff(&a, &b);
    assert!(d < 1e-5 * scale, "{d} of {scale}");
    let not_centred = |x: &Tensor| m.forward(&x.unsqueeze(0).unwrap()).unwrap();
    assert!(max_abs_diff(&not_centred(&fbank), &not_centred(&moved)) > 1e-4 * scale);
}

#[test]
fn pooling_averages_segments() {
    let x = Tensor::from_vec((0..10).map(|v| v as f32).collect(), (1, 2, 5), &Device::Cpu).unwrap();
    let flat = |t: &Tensor| -> Vec<f32> { t.flatten_all().unwrap().to_vec1().unwrap() };
    let y = seg_pooling(&x, 2).unwrap();
    assert_eq!(y.dims(), x.dims());
    assert_eq!(flat(&y), vec![0.5, 0.5, 2.5, 2.5, 4.0, 5.5, 5.5, 7.5, 7.5, 9.0]);
    assert_eq!(flat(&seg_pooling(&y, 2).unwrap()), flat(&y));
    assert_eq!(flat(&y).iter().sum::<f32>(), 45.0);
    assert_eq!(flat(&seg_pooling(&x, 5).unwrap()), [vec![2.0; 5], vec![7.0; 5]].concat());
    assert_eq!(flat(&seg_pooling(&x, 7).unwrap()), flat(&seg_pooling(&x, 5).unwrap()));
    assert_eq!(flat(&seg_pooling(&x, 1).unwrap()), flat(&x));
}

#[test]
fn encoder_rejects_other_inputs() {
    let m = encoder(&checkpoint()).unwrap();
    assert!(matches!(m.forward(&tensor(&[1, 9, 72], 1)), Err(VcError::Backend(_))));
    assert!(matches!(m.forward(&tensor(&[9, 80], 1)), Err(VcError::Backend(_))));
    assert!(matches!(m.embed(&tensor(&[1, 9, 80], 1)), Err(VcError::Backend(_))));
    assert!(matches!(m.embed(&tensor(&[9, 64], 1)), Err(VcError::Backend(_))));
}

#[test]
fn encoder_accepts_what_it_can_process() {
    let m = encoder(&checkpoint()).unwrap();
    let feat = tensor(&[1, 4, 80], 6);
    let got = m.checked_forward(&feat).unwrap().unwrap();
    assert_eq!(max_abs_diff(&got, &m.forward(&feat).unwrap()), 0.0);
    let fbank = tensor(&[4, 80], 6);
    let got = m.checked_embed(&fbank).unwrap().unwrap();
    assert_eq!(max_abs_diff(&got, &m.embed(&fbank).unwrap()), 0.0);
    assert!(m.checked_forward(&tensor(&[1, 0, 80], 1)).is_none());
    assert!(m.checked_forward(&tensor(&[0, 4, 80], 1)).is_none());
    let nine = fbank.reshape(vec![4, 80, 1, 1, 1, 1, 1, 1, 1]).unwrap();
    assert!(matches!(m.checked_embed(&nine), Some(Err(VcError::Backend(_)))));
    assert!(m.checked_embed(&tensor(&[0, 80], 1)).is_none());
    let integers = Tensor::from_vec(vec![1u32; 160], (2, 80), &Device::Cpu).unwrap();
    assert!(m.checked_embed(&integers).is_none());
    let batch = integers.unsqueeze(0).unwrap();
    assert!(matches!(m.checked_forward(&batch), Some(Err(VcError::Backend(_)))));
    assert!(matches!(m.checked_forward(&fbank), Some(Err(VcError::Backend(_)))));
}

#[test]
fn encoder_takes_any_layout() {
    let m = encoder(&checkpoint()).unwrap();
    let feat = tensor(&[2, 80, 4], 6).transpose(1, 2).unwrap();
    assert!(!feat.is_contiguous());
    let got = m.forward(&feat).unwrap();
    assert_eq!(max_abs_diff(&got, &m.forward(&feat.contiguous().unwrap()).unwrap()), 0.0);
    let fbank = tensor(&[80, 3], 6).transpose(0, 1).unwrap();
    assert!(m.embed(&fbank).is_ok());
}

#[test]
fn encoder_rejects_incomplete_checkpoints() {
    for name in [
        "head.layer2.0.shortcut.1.weight",
        "xvector.block3.tdnnd16.linear1.weight",
        "xvector.transit3.linear.weight",
    ] {
        let mut c = checkpoint();
        c.remove(name);
        assert!(matches!(encoder(&c), Err(VcError::Backend(_))), "{name}");
    }
}

#[test]
fn encoder_takes_a_checkpoint_in_double_precision() {
    let c = checkpoint();
    let double = c.iter().map(|(k, t)| (k.clone(), t.to_dtype(candle_core::DType::F64).unwrap())).collect();
    let feat = tensor(&[1, 4, 80], 6);
    let got = encoder(&double).unwrap().forward(&feat).unwrap();
    assert_eq!(got.dtype(), candle_core::DType::F32);
    assert_eq!(max_abs_diff(&got, &encoder(&c).unwrap().forward(&feat).unwrap()), 0.0);
}

#[test]
fn encoder_takes_80_bins_at_16_khz() {
    assert_eq!(NUM_MEL_BINS, 80);
    assert_eq!(SR, 16_000);
}

fn ckpt(name: &str) -> Option<std::path::PathBuf> {
    let path = std::path::Path::new("ckpt").join(name);
    path.exists().then_some(path)
}

fn load(path: std::path::PathBuf) -> Dict {
    candle_core::safetensors::load(path, &Device::Cpu).unwrap()
}

fn cosine(a: &Tensor, b: &Tensor) -> f32 {
    let a: Vec<f32> = a.flatten_all().unwrap().to_vec1().unwrap();
    let b: Vec<f32> = b.flatten_all().unwrap().to_vec1().unwrap();
    let dot: f32 = a.iter().zip(&b).map(|(x, y)| x * y).sum();
    let na: f32 = a.iter().map(|x| x * x).sum::<f32>().sqrt();
    let nb: f32 = b.iter().map(|x| x * x).sum::<f32>().sqrt();
    dot / (na * nb)
}

/// Filterbanks in double precision, with the scale and the window of Kaldi.
fn fbank(samples: &[f32]) -> Vec<Vec<f32>> {
    let scale = |f: f64| 1_127.0 * (1.0 + f / 700.0).ln();
    let (low, high) = (scale(20.0), scale(8_000.0));
    let delta = (high - low) / 81.0;
    let banks: Vec<Vec<f64>> = (0..80)
        .map(|m| {
            let left = low + m as f64 * delta;
            let weight = |k: usize| {
                let mel = scale(16_000.0 / 512.0 * k as f64);
                ((mel - left) / delta).min((left + 2.0 * delta - mel) / delta).max(0.0)
            };
            (0..257).map(|k| if k < 256 { weight(k) } else { 0.0 }).collect()
        })
        .collect();
    let window: Vec<f64> = (0..400)
        .map(|i| (0.5 - 0.5 * (2.0 * std::f64::consts::PI * i as f64 / 399.0).cos()).powf(0.85))
        .collect();
    let fft = FftPlanner::new().plan_fft_forward(512);
    let power = |v: Vec<f64>| {
        let mut buf: Vec<Complex64> = v.into_iter().map(|x| Complex64::new(x, 0.0)).collect();
        fft.process(&mut buf);
        buf[..257].iter().map(|c| c.norm_sqr()).collect::<Vec<f64>>()
    };
    FbankExtractor::new(banks, window).extract(
        &|a: f64, b: f64| a + b,
        &|a: f64, b: f64| a - b,
        &|a: f64, b: f64| a * b,
        &|s: f64| s / 400.0,
        &|x: f64, before: f64| x - 0.97 * before,
        &power,
        &|e: f64| e.max(1.192_092_895_507_812_5e-7).ln() as f32,
        0.0,
        &samples.iter().map(|s| *s as f64).collect(),
    )
}

#[test]
fn utterances_have_embeddings() {
    let m = encoder(&checkpoint()).unwrap();
    let wave: Vec<f32> = (0..1_680).map(|i| (i as f32 * 0.3).sin() + 0.2 * (i as f32 * 0.011).cos()).collect();
    let rows = fbank(&wave);
    assert_eq!(rows.len(), 9);
    let flat: Vec<f32> = rows.iter().flatten().copied().collect();
    let feat = Tensor::from_vec(flat, (9, NUM_MEL_BINS), &Device::Cpu).unwrap();
    let e: Vec<f32> = m.embed(&feat).unwrap().i(0).unwrap().to_vec1().unwrap();
    assert_eq!(e.len(), 192);
    assert!(e.iter().all(|v| v.is_finite()));
}

#[test]
fn campplus_matches_official() {
    let (Some(weights), Some(fixture)) = (
        ckpt("seedvc_campplus.safetensors"),
        ckpt("seedvc_campplus_fixture.safetensors"),
    ) else {
        return;
    };
    let fx = load(fixture);
    let model = encoder(&load(weights)).unwrap();

    // Golden 1: the exact e2e `feat2` to embedding.
    if let Some(e2e) = ckpt("seedvc_e2e_fixture.safetensors") {
        let e2e = load(e2e);
        let got = model.forward(&e2e["feat2"].unsqueeze(0).unwrap()).unwrap();
        let d = max_abs_diff(&got, &fx["style"]);
        let (d2, cos) = (max_abs_diff(&got, &e2e["style2"]), cosine(&got, &e2e["style2"]));
        println!("feat2 to emb vs fp32 golden {d:.2e}; vs style2 max {d2:.2e} cos {cos:.7}");
        assert!(d < 1e-3, "embedding mismatch vs fp32 golden: {d}");
        assert!(cos > 0.9999, "cos vs style2: {cos}");
    }

    // Golden 2: wave to fbank to mean subtraction to embedding (full front-end).
    let wave: Vec<f32> = fx["wave_16k"].i(0).unwrap().to_vec1().unwrap();
    let rows = fbank(&wave);
    let flat: Vec<f32> = rows.iter().flatten().copied().collect();
    let feat = Tensor::from_vec(flat, (rows.len(), 80), &Device::Cpu).unwrap();
    let got = model.embed(&feat).unwrap();
    let d = max_abs_diff(&got, &fx["style_wave"]);
    println!("wave to emb vs fp32 golden {d:.2e}");
    assert!(d < 1e-3, "wave embedding mismatch: {d}");
}
