use std::collections::HashMap;

use babiniku::error::VcError;
use babiniku::layers::Weights;
use babiniku::regulator::InterpolateRegulator;
use candle_core::{Device, Tensor};

/// Pseudo-random numbers in -0.05 .. 0.05.
fn noise(n: usize, seed: u32) -> Vec<f32> {
    let mut s = seed.wrapping_mul(2_654_435_761).wrapping_add(12_345);
    (0..n)
        .map(|_| {
            s = s.wrapping_mul(1_664_525).wrapping_add(1_013_904_223);
            ((s >> 8) as f32 / 16_777_216.0 - 0.5) * 0.1
        })
        .collect()
}

fn tensor(dims: &[usize], seed: u32) -> Tensor {
    Tensor::from_vec(noise(dims.iter().product(), seed), dims, &Device::Cpu).unwrap()
}

fn checkpoint() -> HashMap<String, Tensor> {
    let mut c = HashMap::new();
    c.insert("module.content_in_proj.weight".to_string(), tensor(&[512, 768], 1));
    c.insert("module.content_in_proj.bias".to_string(), tensor(&[512], 2));
    for i in 0..4u32 {
        c.insert(format!("module.model.{}.weight", 3 * i), tensor(&[512, 512, 3], 10 + i));
        c.insert(format!("module.model.{}.bias", 3 * i), tensor(&[512], 20 + i));
        c.insert(format!("module.model.{}.weight", 3 * i + 1), tensor(&[512], 30 + i));
        c.insert(format!("module.model.{}.bias", 3 * i + 1), tensor(&[512], 40 + i));
    }
    c.insert("module.model.12.weight".to_string(), tensor(&[512, 512, 1], 50));
    c.insert("module.model.12.bias".to_string(), tensor(&[512], 51));
    c
}

fn regulator(c: &HashMap<String, Tensor>) -> Result<InterpolateRegulator, VcError> {
    let entries = c.iter().map(|(k, t)| (k.clone(), t.clone())).collect();
    InterpolateRegulator::load(&Weights::from_tensors(entries, &Device::Cpu).unwrap())
}

fn reference(c: &HashMap<String, Tensor>, content: &Tensor, target_len: usize) -> Tensor {
    let column = |name: String| c[&name].reshape((1, 512, 1)).unwrap();
    let t = content.dim(1).unwrap();
    let w = c["module.content_in_proj.weight"].t().unwrap();
    let x = content.squeeze(0).unwrap().matmul(&w).unwrap();
    let x = x.broadcast_add(&c["module.content_in_proj.bias"]).unwrap().unsqueeze(0).unwrap();
    let x = x.transpose(1, 2).unwrap().contiguous().unwrap();
    let scale = t as f32 / target_len as f32;
    let idx: Vec<u32> = (0..target_len)
        .map(|i| ((i as f32 * scale).floor() as usize).min(t - 1) as u32)
        .collect();
    let mut x = x.index_select(&Tensor::from_vec(idx, target_len, &Device::Cpu).unwrap(), 2).unwrap();
    for i in 0..4 {
        let y = x.conv1d(&c[&format!("module.model.{}.weight", 3 * i)], 1, 1, 1, 1).unwrap();
        let y = y.broadcast_add(&column(format!("module.model.{}.bias", 3 * i))).unwrap();
        let mean = y.mean_all().unwrap().reshape((1, 1, 1)).unwrap();
        let centred = y.broadcast_sub(&mean).unwrap();
        let var = centred.sqr().unwrap().mean_all().unwrap();
        let denom = (var + 1e-5).unwrap().sqrt().unwrap().reshape((1, 1, 1)).unwrap();
        let z = centred.broadcast_div(&denom).unwrap();
        let z = z.broadcast_mul(&column(format!("module.model.{}.weight", 3 * i + 1))).unwrap();
        let z = z.broadcast_add(&column(format!("module.model.{}.bias", 3 * i + 1))).unwrap();
        let sp = (z.exp().unwrap() + 1.0).unwrap().log().unwrap();
        x = (&z * sp.tanh().unwrap()).unwrap();
    }
    let x = x.conv1d(&c["module.model.12.weight"], 0, 1, 1, 1).unwrap();
    let x = x.broadcast_add(&column("module.model.12.bias".to_string())).unwrap();
    x.transpose(1, 2).unwrap().contiguous().unwrap()
}

fn max_abs_diff(a: &Tensor, b: &Tensor) -> f32 {
    (a - b).unwrap().abs().unwrap().flatten_all().unwrap().max(0).unwrap().to_scalar().unwrap()
}

#[test]
fn regulator_stretches_and_shrinks() {
    let c = checkpoint();
    let m = regulator(&c).unwrap();
    for (t, n) in [(5, 9), (7, 3), (4, 4)] {
        let content = tensor(&[1, t, 768], 60);
        let got = m.forward(&content, n).unwrap();
        assert_eq!(got.dims(), &[1, n, 512]);
        let d = max_abs_diff(&got, &reference(&c, &content, n));
        assert!(d < 1e-5, "{t} to {n}: {d}");
    }
}

#[test]
fn stretching_selects_frames() {
    let m = regulator(&checkpoint()).unwrap();
    let content = tensor(&[1, 301, 768], 61);
    let mut idx: Vec<u32> = (0..516).map(|i| 7 * i / 12).collect();
    for i in [108, 204, 216, 396, 408, 420, 432] {
        idx[i] -= 1;
    }
    let chosen = content.index_select(&Tensor::from_vec(idx, 516, &Device::Cpu).unwrap(), 1).unwrap();
    let (got, want) = (m.forward(&content, 516).unwrap(), m.forward(&chosen, 516).unwrap());
    assert_eq!(got.dims(), &[1, 516, 512]);
    assert!(max_abs_diff(&got, &want) < 1e-5);
}

#[test]
fn regulator_rejects_other_inputs() {
    let m = regulator(&checkpoint()).unwrap();
    let narrow = tensor(&[1, 5, 512], 1);
    assert!(matches!(m.forward(&narrow, 5), Err(VcError::Backend(_))));
    let matrix = tensor(&[5, 768], 1);
    assert!(matches!(m.forward(&matrix, 5), Err(VcError::Backend(_))));
}

#[test]
fn regulator_accepts_what_it_can_process() {
    let m = regulator(&checkpoint()).unwrap();
    let content = tensor(&[1, 5, 768], 2);
    let got = m.checked_forward(&content, 3).unwrap().unwrap();
    assert_eq!(max_abs_diff(&got, &m.forward(&content, 3).unwrap()), 0.0);
    assert!(m.checked_forward(&content, 0).is_none());
    assert!(m.checked_forward(&tensor(&[1, 0, 768], 1), 3).is_none());
    let integers = Tensor::from_vec(vec![1u32; 768], (1, 1, 768), &Device::Cpu).unwrap();
    assert!(matches!(m.checked_forward(&integers, 3), Some(Err(VcError::Backend(_)))));
    assert!(matches!(m.checked_forward(&tensor(&[5, 768], 1), 5), Some(Err(VcError::Backend(_)))));
}

#[test]
fn regulator_takes_any_layout() {
    let m = regulator(&checkpoint()).unwrap();
    let content = tensor(&[1, 768, 5], 2).transpose(1, 2).unwrap();
    assert!(!content.is_contiguous());
    let got = m.forward(&content, 7).unwrap();
    let want = m.forward(&content.contiguous().unwrap(), 7).unwrap();
    assert!(max_abs_diff(&got, &want) < 1e-5);
    // Rows of one batch that lie further apart than its own.
    let wide = tensor(&[2, 2, 2 * 768], 3).transpose(0, 1).unwrap().narrow(2, 0, 768).unwrap();
    assert!(!wide.is_contiguous());
    let got = m.forward(&wide, 3).unwrap();
    assert_eq!(got.dims(), &[2, 3, 512]);
    let want = m.forward(&wide.contiguous().unwrap(), 3).unwrap();
    assert_eq!(max_abs_diff(&got, &want), 0.0);
}

#[test]
fn regulator_rejects_incomplete_checkpoints() {
    let mut c = checkpoint();
    c.remove("module.model.10.bias");
    assert!(matches!(regulator(&c), Err(VcError::Backend(_))));
}

#[test]
fn regulator_matches_official() {
    let dir = std::path::Path::new("ckpt");
    let (w, f) = (
        dir.join("seedvc_regulator.safetensors"),
        dir.join("seedvc_e2e_fixture.safetensors"),
    );
    if !w.exists() || !f.exists() {
        return;
    }
    let dev = Device::Cpu;
    let weights = candle_core::safetensors::load(w, &dev).unwrap();
    let reg = regulator(&weights).unwrap();
    let fx = candle_core::safetensors::load(f, &dev).unwrap();
    for (src, dst) in [("s_alt", "cond"), ("s_ori", "prompt_condition")] {
        let want = &fx[dst];
        let target_len = want.dim(1).unwrap();
        let got = reg.forward(&fx[src], target_len).unwrap();
        let d = (got - want)
            .unwrap()
            .abs()
            .unwrap()
            .max_all()
            .unwrap()
            .to_scalar::<f32>()
            .unwrap();
        println!("regulator {src} -> {dst} max abs diff {d:.2e}");
        assert!(d < 2e-4, "regulator mismatch ({src}): {d}");
    }
}
