use std::collections::HashMap;

use babiniku::bigvgan::{BigVgan, BigVganConfig};
use babiniku::error::VcError;
use babiniku::layers::Weights;
use candle_core::{Device, IndexOp, Tensor};

/// Pseudo-random numbers in -0.5 .. 0.5.
fn noise(n: usize, seed: u32) -> Vec<f32> {
    let mut s = seed.wrapping_mul(2_654_435_761).wrapping_add(12_345);
    (0..n)
        .map(|_| {
            s = s.wrapping_mul(1_664_525).wrapping_add(1_013_904_223);
            (s >> 8) as f32 / 16_777_216.0 - 0.5
        })
        .collect()
}

struct Checkpoint {
    tensors: HashMap<String, Tensor>,
}

impl Checkpoint {
    fn add(&mut self, name: &str, dims: &[usize]) {
        let n = dims.iter().product();
        let seed = self.tensors.len() as u32 + 1;
        let t = Tensor::from_vec(noise(n, seed), dims, &Device::Cpu).unwrap();
        self.tensors.insert(name.to_string(), t);
    }

    fn activation(&mut self, name: &str, channels: usize) {
        self.add(&format!("{name}.act.alpha"), &[channels]);
        self.add(&format!("{name}.act.beta"), &[channels]);
        self.add(&format!("{name}.upsample.filter"), &[1, 1, 12]);
        self.add(&format!("{name}.downsample.lowpass.filter"), &[1, 1, 12]);
    }

    fn entries(&self) -> Vec<(String, Tensor)> {
        self.tensors.iter().map(|(k, t)| (k.clone(), t.clone())).collect()
    }

    fn get(&self, name: &str) -> &Tensor {
        &self.tensors[name]
    }

    fn bias(&self, name: &str, y: Tensor) -> Tensor {
        let b = self.get(name);
        y.broadcast_add(&b.reshape((1, b.dim(0).unwrap(), 1)).unwrap()).unwrap()
    }

    fn ref_activation(&self, name: &str, x: &Tensor) -> Tensor {
        let (b, c, t) = x.dims3().unwrap();
        let up = x.pad_with_same(2, 5, 5).unwrap().reshape((b * c, 1, t + 10)).unwrap();
        let up = up
            .conv_transpose1d(self.get(&format!("{name}.upsample.filter")), 0, 0, 2, 1, 1)
            .unwrap();
        let up = (up * 2.0).unwrap().narrow(2, 15, 2 * t).unwrap().reshape((b, c, 2 * t)).unwrap();
        let alpha = self.get(&format!("{name}.act.alpha")).exp().unwrap().reshape((1, c, 1)).unwrap();
        let beta = self.get(&format!("{name}.act.beta")).exp().unwrap().reshape((1, c, 1)).unwrap();
        let beta = (beta + 1e-9).unwrap().recip().unwrap();
        let s = up.broadcast_mul(&alpha).unwrap().sin().unwrap().sqr().unwrap();
        let y = (&up + s.broadcast_mul(&beta).unwrap()).unwrap();
        let y = y.pad_with_same(2, 5, 6).unwrap().reshape((b * c, 1, 2 * t + 11)).unwrap();
        let y = y
            .conv1d(self.get(&format!("{name}.downsample.lowpass.filter")), 0, 2, 1, 1)
            .unwrap();
        y.reshape((b, c, t)).unwrap()
    }
}

/// Two mel bins, two stages of rates 4 and 2, two AMP blocks each.
fn small_config() -> BigVganConfig {
    BigVganConfig {
        num_mels: 2,
        upsample_initial_channel: 8,
        upsample_rates: vec![4, 2],
        upsample_kernel_sizes: vec![8, 4],
        resblock_kernel_sizes: vec![3, 5],
        resblock_dilation_sizes: vec![vec![1, 3], vec![1, 2]],
    }
}

fn small_checkpoint() -> Checkpoint {
    let mut c = Checkpoint { tensors: HashMap::new() };
    c.add("conv_pre.weight", &[8, 2, 7]);
    c.add("conv_pre.bias", &[8]);
    for (i, (channels, kernel)) in [(8, 8), (4, 4)].into_iter().enumerate() {
        c.add(&format!("ups.{i}.0.weight"), &[channels, channels / 2, kernel]);
        c.add(&format!("ups.{i}.0.bias"), &[channels / 2]);
        for (j, k) in [3, 5].into_iter().enumerate() {
            let idx = 2 * i + j;
            let ch = channels / 2;
            for d in 0..2 {
                for convs in ["convs1", "convs2"] {
                    c.add(&format!("resblocks.{idx}.{convs}.{d}.weight"), &[ch, ch, k]);
                    c.add(&format!("resblocks.{idx}.{convs}.{d}.bias"), &[ch]);
                }
            }
            for a in 0..4 {
                c.activation(&format!("resblocks.{idx}.activations.{a}"), ch);
            }
        }
    }
    c.activation("activation_post", 2);
    c.add("conv_post.weight", &[1, 2, 7]);
    c
}

fn reference(c: &Checkpoint, mel: &Tensor) -> Tensor {
    let dilations = [[1, 3], [1, 2]];
    let x = mel.conv1d(c.get("conv_pre.weight"), 3, 1, 1, 1).unwrap();
    let mut x = c.bias("conv_pre.bias", x);
    for (i, (rate, kernel)) in [(4, 8), (2, 4)].into_iter().enumerate() {
        let up = x
            .conv_transpose1d(c.get(&format!("ups.{i}.0.weight")), (kernel - rate) / 2, 0, rate, 1, 1)
            .unwrap();
        let up = c.bias(&format!("ups.{i}.0.bias"), up);
        let mut total: Option<Tensor> = None;
        for (j, k) in [3usize, 5].into_iter().enumerate() {
            let name = format!("resblocks.{}", 2 * i + j);
            let mut y = up.clone();
            for (n, d) in dilations[j].into_iter().enumerate() {
                let t = c.ref_activation(&format!("{name}.activations.{}", 2 * n), &y);
                let w = c.get(&format!("{name}.convs1.{n}.weight"));
                let t = t.conv1d(w, (k - 1) * d / 2, 1, d, 1).unwrap();
                let t = c.bias(&format!("{name}.convs1.{n}.bias"), t);
                let t = c.ref_activation(&format!("{name}.activations.{}", 2 * n + 1), &t);
                let w = c.get(&format!("{name}.convs2.{n}.weight"));
                let t = t.conv1d(w, (k - 1) / 2, 1, 1, 1).unwrap();
                let t = c.bias(&format!("{name}.convs2.{n}.bias"), t);
                y = (t + y).unwrap();
            }
            total = Some(match total {
                Some(s) => (s + y).unwrap(),
                None => y,
            });
        }
        x = (total.unwrap() / 2.0).unwrap();
    }
    let x = c.ref_activation("activation_post", &x);
    let x = x.conv1d(c.get("conv_post.weight"), 3, 1, 1, 1).unwrap();
    x.clamp(-1.0, 1.0).unwrap()
}

fn max_abs_diff(got: &Tensor, want: &Tensor) -> f32 {
    assert_eq!(got.dims(), want.dims(), "shape mismatch");
    (got - want)
        .unwrap()
        .abs()
        .unwrap()
        .flatten_all()
        .unwrap()
        .max(0)
        .unwrap()
        .to_scalar()
        .unwrap()
}

fn small_model() -> (Checkpoint, BigVgan) {
    let c = small_checkpoint();
    let w = Weights::from_tensors(c.entries(), &Device::Cpu).unwrap();
    let m = BigVgan::new(small_config(), &w).unwrap();
    (c, m)
}

#[test]
fn generator_computes_its_architecture() {
    let (c, m) = small_model();
    let mel = Tensor::from_vec(noise(2 * 2 * 5, 99), (2, 2, 5), &Device::Cpu).unwrap();
    let got = m.forward(&mel).unwrap();
    let want = reference(&c, &mel);
    assert_eq!(got.dims(), &[2, 1, 40]);
    assert!(max_abs_diff(&got, &want) < 1e-6);
    let flat: Vec<f32> = got.flatten_all().unwrap().to_vec1().unwrap();
    assert!(flat.iter().any(|v| *v != 0.0));
}

#[test]
fn waveform_is_clamped() {
    let mut c = small_checkpoint();
    let loud = (c.get("conv_post.weight") * 1e6).unwrap();
    c.tensors.insert("conv_post.weight".to_string(), loud);
    let m = BigVgan::new(small_config(), &Weights::from_tensors(c.entries(), &Device::Cpu).unwrap()).unwrap();
    let mel = Tensor::from_vec(noise(2 * 4, 7), (1, 2, 4), &Device::Cpu).unwrap();
    let flat: Vec<f32> = m.forward(&mel).unwrap().flatten_all().unwrap().to_vec1().unwrap();
    assert!(flat.iter().all(|v| *v >= -1.0 && *v <= 1.0));
    assert!(flat.iter().any(|v| *v == 1.0));
    assert!(flat.iter().any(|v| *v == -1.0));
}

#[test]
fn silent_blocks_do_not_count() {
    let mut c = small_checkpoint();
    c.activation("activation_post", 4);
    c.add("conv_post.weight", &[1, 4, 7]);
    for (name, t) in c.tensors.iter_mut() {
        if name.contains(".convs2.") {
            *t = t.zeros_like().unwrap();
        }
    }
    let w = Weights::from_tensors(c.entries(), &Device::Cpu).unwrap();
    let mel = Tensor::from_vec(noise(2 * 5, 21), (1, 2, 5), &Device::Cpu).unwrap();
    let stage = |kernels: Vec<usize>, dilations: Vec<Vec<usize>>| {
        let cfg = BigVganConfig {
            upsample_rates: vec![4],
            upsample_kernel_sizes: vec![8],
            resblock_kernel_sizes: kernels,
            resblock_dilation_sizes: dilations,
            ..small_config()
        };
        BigVgan::new(cfg, &w).unwrap().forward(&mel).unwrap()
    };
    let one = stage(vec![3], vec![vec![1, 3]]);
    let two = stage(vec![3, 5], vec![vec![1, 3], vec![1, 2]]);
    assert_eq!(one.dims(), &[1, 1, 20]);
    assert!(max_abs_diff(&one, &two) < 1e-6);
    let flat: Vec<f32> = one.flatten_all().unwrap().to_vec1().unwrap();
    assert!(flat.iter().any(|v| *v != 0.0));
}

#[test]
fn conv_pre_is_the_first_stage() {
    let (c, m) = small_model();
    let mel = Tensor::from_vec(noise(2 * 5, 3), (1, 2, 5), &Device::Cpu).unwrap();
    let got = m.conv_pre(&mel).unwrap();
    let want = c.bias("conv_pre.bias", mel.conv1d(c.get("conv_pre.weight"), 3, 1, 1, 1).unwrap());
    assert_eq!(max_abs_diff(&got, &want), 0.0);
}

#[test]
fn generator_rejects_other_inputs() {
    let (_, m) = small_model();
    let three_bins = Tensor::from_vec(noise(15, 1), (1, 3, 5), &Device::Cpu).unwrap();
    assert!(matches!(m.forward(&three_bins), Err(VcError::Backend(_))));
    let matrix = Tensor::from_vec(noise(10, 1), (2, 5), &Device::Cpu).unwrap();
    assert!(matches!(m.forward(&matrix), Err(VcError::Backend(_))));
}

#[test]
fn generator_accepts_what_it_can_process() {
    let (_, m) = small_model();
    let mel = |t: usize| Tensor::from_vec(noise(2 * t, 11), (1, 2, t), &Device::Cpu).unwrap();
    assert!(m.accepts(&mel(2)));
    let got = m.checked_forward(&mel(2)).unwrap().unwrap();
    assert_eq!(max_abs_diff(&got, &m.forward(&mel(2)).unwrap()), 0.0);
    // The padding of the first transposed convolution eats up a single frame.
    assert!(!m.accepts(&mel(1)));
    assert!(m.checked_forward(&mel(1)).is_none());
    let integers = Tensor::from_vec(vec![1u32; 10], (1, 2, 5), &Device::Cpu).unwrap();
    assert!(matches!(m.checked_forward(&integers), Some(Err(VcError::Backend(_)))));
    assert!(matches!(m.conv_pre(&integers), Err(VcError::Backend(_))));
    let three_bins = Tensor::from_vec(noise(15, 1), (1, 3, 5), &Device::Cpu).unwrap();
    assert!(matches!(m.checked_forward(&three_bins), Some(Err(VcError::Backend(_)))));
}

#[test]
fn generator_needs_signals_within_their_storage() {
    let (_, m) = small_model();
    let empty = Tensor::from_vec(Vec::<f32>::new(), (0, 2, 4), &Device::Cpu).unwrap();
    assert!(m.accepts(&empty));
    assert!(matches!(m.checked_forward(&empty), Some(Err(VcError::Backend(_)))));
    let mel = Tensor::from_vec(noise(3 * 2 * 4, 7), (3, 2, 4), &Device::Cpu).unwrap();
    let beyond = mel.narrow(0, 3, 0).unwrap();
    assert!(!m.accepts(&beyond));
    assert!(m.checked_forward(&beyond).is_none());
    assert!(m.accepts(&beyond.squeeze(1).unwrap().narrow(1, 1, 1).unwrap().squeeze(1).unwrap()));
}

#[test]
fn generator_takes_any_layout() {
    let (_, m) = small_model();
    let turned = Tensor::from_vec(noise(2 * 5 * 2, 8), (2, 5, 2), &Device::Cpu).unwrap();
    let mel = turned.transpose(1, 2).unwrap();
    assert!(!mel.is_contiguous());
    let got = m.forward(&mel).unwrap();
    assert_eq!(max_abs_diff(&got, &m.forward(&mel.contiguous().unwrap()).unwrap()), 0.0);
}

#[test]
fn generator_rejects_incomplete_checkpoints() {
    let mut c = small_checkpoint();
    c.tensors.remove("ups.1.0.bias");
    let w = Weights::from_tensors(c.entries(), &Device::Cpu).unwrap();
    assert!(matches!(BigVgan::new(small_config(), &w), Err(VcError::Backend(_))));
    let mut c = small_checkpoint();
    c.add("conv_post.weight", &[1, 2, 5]);
    let w = Weights::from_tensors(c.entries(), &Device::Cpu).unwrap();
    assert!(matches!(BigVgan::new(small_config(), &w), Err(VcError::Backend(_))));
    assert!(matches!(BigVgan::load(c.entries(), &Device::Cpu), Err(VcError::Backend(_))));
}

#[test]
fn of_two_tensors_with_one_name_the_later_counts() {
    let c = small_checkpoint();
    let mut entries = vec![("conv_post.weight".to_string(), Tensor::new(&[1f32], &Device::Cpu).unwrap())];
    entries.extend(c.entries());
    let w = Weights::from_tensors(entries, &Device::Cpu).unwrap();
    assert!(BigVgan::new(small_config(), &w).is_ok());
}

#[test]
fn parameters_are_handed_out_in_single_precision() {
    let c = small_checkpoint();
    let entries = c
        .entries()
        .into_iter()
        .map(|(k, t)| (k, t.to_dtype(candle_core::DType::F64).unwrap()))
        .collect();
    let m = BigVgan::new(small_config(), &Weights::from_tensors(entries, &Device::Cpu).unwrap()).unwrap();
    let mel = Tensor::from_vec(noise(2 * 3, 5), (1, 2, 3), &Device::Cpu).unwrap();
    assert!(max_abs_diff(&m.forward(&mel).unwrap(), &reference(&c, &mel)) < 1e-6);
}

#[test]
fn parameters_are_taken_in_any_layout() {
    let mut c = small_checkpoint();
    // One number for every tap, which no more than one element of memory holds.
    let dims = c.get("conv_pre.weight").dims().to_vec();
    let tap = Tensor::new(&[[[0.25f32]]], &Device::Cpu).unwrap().broadcast_as(dims).unwrap();
    assert!(!tap.is_contiguous());
    c.tensors.insert("conv_pre.weight".to_string(), tap.clone());
    let turned = |t: &Tensor| t.transpose(0, 2).unwrap().contiguous().unwrap().transpose(0, 2).unwrap();
    let kernel = turned(c.get("ups.0.0.weight"));
    assert!(!kernel.is_contiguous());
    c.tensors.insert("ups.0.0.weight".to_string(), kernel);
    let w = Weights::from_tensors(c.entries(), &Device::Cpu).unwrap();
    let m = BigVgan::new(small_config(), &w).unwrap();
    for (k, t) in c.entries() {
        c.tensors.insert(k, t.contiguous().unwrap());
    }
    let mel = Tensor::from_vec(noise(2 * 4, 6), (1, 2, 4), &Device::Cpu).unwrap();
    assert!(max_abs_diff(&m.forward(&mel).unwrap(), &reference(&c, &mel)) < 1e-6);
}

#[test]
fn hop_is_the_product_of_the_rates() {
    assert_eq!(BigVganConfig::default().hop_length(), 256);
    assert_eq!(small_config().hop_length(), 8);
    let none = BigVganConfig { upsample_rates: vec![], ..small_config() };
    assert_eq!(none.hop_length(), 1);
}

#[test]
fn default_is_the_22khz_generator() {
    let cfg = BigVganConfig::default();
    assert_eq!(cfg.num_mels, 80);
    assert_eq!(cfg.upsample_initial_channel, 1536);
    assert_eq!(cfg.upsample_rates, vec![4, 4, 2, 2, 2, 2]);
    assert_eq!(cfg.upsample_kernel_sizes, vec![8, 8, 4, 4, 4, 4]);
    assert_eq!(cfg.resblock_kernel_sizes, vec![3, 7, 11]);
    assert_eq!(cfg.resblock_dilation_sizes, vec![vec![1, 3, 5]; 3]);
}

fn ckpt(name: &str) -> Option<std::path::PathBuf> {
    let path = std::path::Path::new("ckpt").join(name);
    path.exists().then_some(path)
}

fn fixture(name: &str) -> Option<HashMap<String, Tensor>> {
    Some(candle_core::safetensors::load(ckpt(name)?, &Device::Cpu).unwrap())
}

#[test]
fn bigvgan_matches_official() {
    let Some(weights) = fixture("seedvc_bigvgan.safetensors") else {
        return;
    };
    let Some(fx) = fixture("seedvc_bigvgan_fixture.safetensors") else {
        return;
    };
    let model = BigVgan::load(weights.into_iter().collect(), &Device::Cpu).unwrap();

    let pre = model.conv_pre(&fx["vc_mel"]).unwrap();
    let d = max_abs_diff(&pre, &fx["conv_pre"]);
    println!("conv_pre max abs diff {d:.2e}");
    assert!(d < 1e-4, "conv_pre mismatch: {d}");

    let wave = model.forward(&fx["vc_mel"]).unwrap();
    let d = max_abs_diff(&wave, &fx["wave"]);
    println!("bigvgan wave max abs diff {d:.2e}");
    assert!(d < 1e-3, "waveform mismatch: {d}");
}

#[test]
fn bigvgan_matches_e2e_pipeline() {
    let Some(weights) = fixture("seedvc_bigvgan.safetensors") else {
        return;
    };
    let Some(fx) = fixture("seedvc_e2e_fixture.safetensors") else {
        return;
    };
    let model = BigVgan::load(weights.into_iter().collect(), &Device::Cpu).unwrap();
    let wave = model.forward(&fx["vc_mel"]).unwrap().squeeze(1).unwrap();
    let got: Vec<f32> = wave.i(0).unwrap().to_vec1().unwrap();
    let want: Vec<f32> = fx["vc_wave"].i(0).unwrap().to_vec1().unwrap();
    assert_eq!(got.len(), want.len(), "sample count mismatch");
    let dmax = got
        .iter()
        .zip(&want)
        .map(|(g, w)| (g - w).abs())
        .fold(0f32, f32::max);
    println!("bigvgan e2e max abs diff {dmax:.2e}");
    assert!(dmax < 2.5e-2, "waveform mismatch vs CUDA fixture: {dmax}");
}
