use std::cell::RefCell;
use std::collections::HashMap;
use std::f64::consts::PI;

use babiniku::error::VcError;
use babiniku::layers::Weights;
use babiniku::vocos::{istft, Step, Vocos, VocosConfig};
use candle_core::{Device, Error, Tensor};
use rustfft::num_complex::Complex32;
use rustfft::FftPlanner;

/// Pseudo-random numbers in -0.5 .. 0.5.
fn noise(n: usize, seed: u32) -> Vec<f32> {
    let mut s = seed.wrapping_mul(2_654_435_761).wrapping_add(12_345);
    (0..n)
        .map(|_| {
            s = s.wrapping_mul(1_664_525).wrapping_add(1_013_904_223);
            (s >> 8) as f32 / 16_777_216.0 - 0.5
        })
        .collect()
}

fn tensor(dims: &[usize], seed: u32) -> Tensor {
    Tensor::from_vec(noise(dims.iter().product(), seed), dims, &Device::Cpu).unwrap()
}

fn small_config() -> VocosConfig {
    VocosConfig {
        input_channels: 3,
        dim: 8,
        intermediate_dim: 16,
        num_layers: 2,
        n_fft: 12,
        hop_size: 4,
        sample_rate: 24_000,
    }
}

type Dict = HashMap<String, Tensor>;

fn checkpoint() -> Dict {
    let mut shapes: Vec<(String, Vec<usize>)> = vec![
        ("backbone.embed.weight".to_string(), vec![8, 3, 7]),
        ("backbone.embed.bias".to_string(), vec![8]),
        ("backbone.norm.weight".to_string(), vec![8]),
        ("backbone.norm.bias".to_string(), vec![8]),
        ("backbone.final_layer_norm.weight".to_string(), vec![8]),
        ("backbone.final_layer_norm.bias".to_string(), vec![8]),
        ("head.out.weight".to_string(), vec![14, 8]),
        ("head.out.bias".to_string(), vec![14]),
    ];
    for i in 0..2 {
        let p = format!("backbone.convnext.{i}");
        shapes.push((format!("{p}.dwconv.weight"), vec![8, 1, 7]));
        shapes.push((format!("{p}.dwconv.bias"), vec![8]));
        shapes.push((format!("{p}.norm.weight"), vec![8]));
        shapes.push((format!("{p}.norm.bias"), vec![8]));
        shapes.push((format!("{p}.pwconv1.weight"), vec![16, 8]));
        shapes.push((format!("{p}.pwconv1.bias"), vec![16]));
        shapes.push((format!("{p}.pwconv2.weight"), vec![8, 16]));
        shapes.push((format!("{p}.pwconv2.bias"), vec![8]));
        shapes.push((format!("{p}.gamma"), vec![8]));
    }
    shapes
        .into_iter()
        .enumerate()
        .map(|(i, (name, dims))| (name, tensor(&dims, i as u32 + 1)))
        .collect()
}

fn entries(c: &Dict) -> Vec<(String, Tensor)> {
    c.iter().map(|(k, t)| (k.clone(), t.clone())).collect()
}

fn network(c: &Dict) -> Vocos {
    Vocos::new(small_config(), &Weights::from_tensors(entries(c), &Device::Cpu).unwrap()).unwrap()
}

fn quiet(_: Step) -> Result<(), Error> {
    Ok(())
}

fn ref_norm(c: &Dict, name: &str, x: &Tensor) -> Tensor {
    let last = x.dims().len() - 1;
    let y = x.broadcast_sub(&x.mean_keepdim(last).unwrap()).unwrap();
    let var = y.sqr().unwrap().mean_keepdim(last).unwrap();
    let y = y.broadcast_div(&(var + 1e-5).unwrap().sqrt().unwrap()).unwrap();
    let y = y.broadcast_mul(&c[&format!("{name}.weight")]).unwrap();
    y.broadcast_add(&c[&format!("{name}.bias")]).unwrap()
}

fn ref_linear(c: &Dict, name: &str, x: &Tensor) -> Tensor {
    let w = c[&format!("{name}.weight")].t().unwrap().contiguous().unwrap();
    let y = x.contiguous().unwrap().squeeze(0).unwrap().matmul(&w).unwrap();
    y.broadcast_add(&c[&format!("{name}.bias")]).unwrap().unsqueeze(0).unwrap()
}

fn turn(x: &Tensor) -> Tensor {
    x.transpose(1, 2).unwrap().contiguous().unwrap()
}

/// The log magnitude and the phase for a mel spectrogram `[1, bins, frames]`, frames last.
fn ref_head(c: &Dict, mel: &Tensor) -> Tensor {
    let bias = |name: &str| c[name].reshape((1, 8, 1)).unwrap();
    let x = mel.conv1d(&c["backbone.embed.weight"], 3, 1, 1, 1).unwrap();
    let x = x.broadcast_add(&bias("backbone.embed.bias")).unwrap();
    let mut x = turn(&ref_norm(c, "backbone.norm", &turn(&x)));
    for i in 0..2 {
        let p = format!("backbone.convnext.{i}");
        let y = x.conv1d(&c[&format!("{p}.dwconv.weight")], 3, 1, 1, 8).unwrap();
        let y = y.broadcast_add(&bias(&format!("{p}.dwconv.bias"))).unwrap();
        let y = ref_norm(c, &format!("{p}.norm"), &turn(&y));
        let y = ref_linear(c, &format!("{p}.pwconv1"), &y).gelu_erf().unwrap();
        let y = ref_linear(c, &format!("{p}.pwconv2"), &y);
        let y = y.broadcast_mul(&c[&format!("{p}.gamma")]).unwrap();
        x = (&x + turn(&y)).unwrap();
    }
    turn(&ref_linear(c, "head.out", &ref_norm(c, "backbone.final_layer_norm", &turn(&x))))
}

fn max_abs_diff(a: &Tensor, b: &Tensor) -> f32 {
    assert_eq!(a.dims(), b.dims());
    (a - b).unwrap().abs().unwrap().flatten_all().unwrap().max(0).unwrap().to_scalar().unwrap()
}

#[test]
fn spectrum_is_that_of_the_network() {
    let mut c = checkpoint();
    // Some magnitudes reach the cap.
    c.insert("head.out.bias".to_string(), (tensor(&[14], 8) * 12.0).unwrap());
    let m = network(&c);
    let mel = tensor(&[6, 3], 50);
    let (re, im) = m.spectrum(&mel, &quiet).unwrap();
    let head = ref_head(&c, &turn(&mel.unsqueeze(0).unwrap()));
    let head = turn(&head).squeeze(0).unwrap();
    let mag = head.narrow(1, 0, 7).unwrap().exp().unwrap().minimum(100f32).unwrap();
    let phase = head.narrow(1, 7, 7).unwrap();
    assert_eq!(re.dims(), &[6, 7]);
    assert!(max_abs_diff(&re, &mag.mul(&phase.cos().unwrap()).unwrap()) < 1e-3);
    assert!(max_abs_diff(&im, &mag.mul(&phase.sin().unwrap()).unwrap()) < 1e-3);
    let peak: f32 = mag.flatten_all().unwrap().max(0).unwrap().to_scalar().unwrap();
    assert_eq!(peak, 100.0);
}

#[test]
fn spectrum_takes_matrices_and_batches_of_one() {
    let c = checkpoint();
    let m = network(&c);
    let matrix = tensor(&[5, 3], 4);
    let (re, im) = m.spectrum(&matrix, &quiet).unwrap();
    assert_eq!(re.dims(), &[5, 7]);
    let (re3, im3) = m.spectrum(&matrix.unsqueeze(0).unwrap(), &quiet).unwrap();
    assert_eq!(max_abs_diff(&re, &re3), 0.0);
    assert_eq!(max_abs_diff(&im, &im3), 0.0);
    assert_eq!(synthesize(&m, &matrix).unwrap(), synthesize(&m, &matrix.unsqueeze(0).unwrap()).unwrap());
}

#[test]
fn vocoder_takes_any_layout() {
    let m = network(&checkpoint());
    let mel = tensor(&[3, 5], 4).transpose(0, 1).unwrap();
    assert!(!mel.is_contiguous());
    let (re, _) = m.spectrum(&mel, &quiet).unwrap();
    let (want, _) = m.spectrum(&mel.contiguous().unwrap(), &quiet).unwrap();
    assert!(max_abs_diff(&re, &want) < 1e-5);
}

#[test]
fn vocoder_rejects_other_inputs() {
    let m = network(&checkpoint());
    match m.spectrum(&tensor(&[5], 1), &quiet) {
        Err(VcError::Input(text)) => {
            assert_eq!(text, "mel must be [frames, num_mels] or [1, frames, num_mels]")
        }
        _ => panic!("a vector was taken"),
    }
    match m.spectrum(&tensor(&[1, 1, 5, 3], 1), &quiet) {
        Err(VcError::Input(text)) => {
            assert_eq!(text, "mel must be [frames, num_mels] or [1, frames, num_mels]")
        }
        _ => panic!("four axes were taken"),
    }
    match m.spectrum(&tensor(&[5, 80], 1), &quiet) {
        Err(VcError::Input(text)) => assert_eq!(text, "expected 3 mel bins, got 80"),
        _ => panic!("80 bins were taken"),
    }
    assert!(matches!(m.spectrum(&tensor(&[2, 5, 3], 1), &quiet), Err(VcError::Backend(_))));
}

#[test]
fn vocoder_rejects_incomplete_checkpoints() {
    let mut c = checkpoint();
    c.remove("backbone.convnext.1.gamma");
    let w = Weights::from_tensors(entries(&c), &Device::Cpu).unwrap();
    assert!(matches!(Vocos::new(small_config(), &w), Err(VcError::Backend(_))));
    assert!(matches!(Vocos::load(small_config(), entries(&c), &Device::Cpu), Err(VcError::Backend(_))));
}

#[test]
fn steps_are_observed_in_order() {
    let m = network(&checkpoint());
    let seen = RefCell::new(Vec::new());
    let observe = |s: Step| {
        seen.borrow_mut().push(s);
        Ok(())
    };
    m.spectrum(&tensor(&[4, 3], 2), &observe).unwrap();
    assert_eq!(
        seen.into_inner(),
        vec![
            Step::EmbedNorm,
            Step::Dwconv,
            Step::Transpose1,
            Step::Norm,
            Step::Pwconv1,
            Step::Gelu,
            Step::Pwconv2,
            Step::GammaMul,
            Step::Transpose2,
            Step::ResidualAdd,
            Step::Block(0),
            Step::Block(1),
            Step::FinalNorm,
            Step::Head,
        ]
    );
    let stop = |s: Step| match s {
        Step::Block(1) => Err(Error::Msg("stopped".to_string())),
        _ => Ok(()),
    };
    assert!(matches!(m.spectrum(&tensor(&[4, 3], 2), &stop), Err(VcError::Backend(_))));
}

#[test]
fn vocoder_accepts_what_it_can_process() {
    let m = network(&checkpoint());
    assert!(m.accepts(&tensor(&[1, 3], 1)));
    assert!(m.accepts(&tensor(&[1, 4, 3], 1)));
    // What is answered with an error can be handed in.
    assert!(m.accepts(&tensor(&[5], 1)));
    assert!(m.accepts(&tensor(&[5, 80], 1)));
    assert!(m.accepts(&tensor(&[2, 5, 3], 1)));
    assert!(!m.accepts(&tensor(&[0, 3], 1)));
    let integers = Tensor::from_vec(vec![1u32; 6], (2, 3), &Device::Cpu).unwrap();
    assert!(m.accepts(&integers));
    assert!(matches!(m.spectrum(&integers, &quiet), Err(VcError::Backend(_))));
    let c = checkpoint();
    let far = VocosConfig { hop_size: 13, ..small_config() };
    let m = Vocos::new(far, &Weights::from_tensors(entries(&c), &Device::Cpu).unwrap()).unwrap();
    assert!(!m.accepts(&tensor(&[1, 3], 1)));
    // A shape that is rejected is rejected whatever the settings.
    assert!(m.accepts(&tensor(&[1, 80], 1)));
}

#[test]
fn settings_are_kept() {
    let m = network(&checkpoint());
    assert_eq!(m.config().n_fft, 12);
    let d = VocosConfig::default();
    assert_eq!(
        (d.input_channels, d.dim, d.intermediate_dim, d.num_layers, d.n_fft, d.hop_size, d.sample_rate),
        (128, 1024, 4096, 30, 1920, 480, 24_000)
    );
}

#[test]
fn inverse_transform_of_integers() {
    // The "inverse transform" hands out the real parts, so that every sample can be followed.
    let negate = |x: i64| -x;
    let invert = |bins: Vec<(i64, i64)>| bins.into_iter().map(|b| b.0 + 100 * b.1).collect::<Vec<i64>>();
    let plus = |a: i64, b: i64| a + b;
    let times = |a: i64, b: i64| a * b;
    let scale = |s: i64, w: i64| 1000 * w + s;
    let window = vec![1, 1, 1, 1];
    let re = vec![vec![1, 2, 3], vec![5, 6, 7]];
    let im = vec![vec![0, 1, 0], vec![0, 2, 0]];
    let out = istft(&negate, &invert, &plus, &times, &scale, 0, &window, 2, &re, &im);
    // Frames: bins 1, 2 + 100, 3, 2 - 100 and 5, 6 + 200, 7, 6 - 200; the second starts at sample 2.
    // Sums: 1, 102, 3 + 5, -98 + 206, 7, -194, of which one sample is cut off at each end.
    assert_eq!(out, vec![1102, 2008, 2108, 1007]);
}

#[test]
fn inverse_transform_has_hop_samples_per_frame() {
    let negate = |x: i64| -x;
    let invert = |bins: Vec<(i64, i64)>| bins.into_iter().map(|b| b.0).collect::<Vec<i64>>();
    let plus = |a: i64, b: i64| a + b;
    let times = |a: i64, b: i64| a * b;
    let scale = |s: i64, _: i64| s;
    for (n_fft, hop) in [(1, 1), (4, 1), (4, 4), (5, 2), (7, 3), (8, 0)] {
        for frames in 1..4 {
            let rows = vec![vec![1; n_fft / 2 + 1]; frames];
            let window = vec![1; n_fft];
            let out = istft(&negate, &invert, &plus, &times, &scale, 0, &window, hop, &rows, &rows);
            assert_eq!(out.len(), frames * hop);
            assert!(out.iter().all(|v| *v >= 1));
        }
    }
}

#[test]
fn inverse_transform_undoes_the_analysis() {
    let (n, hop, frames) = (8usize, 2usize, 5usize);
    let signal: Vec<f64> = noise((frames - 1) * hop + n, 6).iter().map(|v| *v as f64).collect();
    let window: Vec<f64> = (0..n).map(|i| (PI * i as f64 / n as f64).sin().powi(2)).collect();
    let part = |f: usize, b: usize, wave: fn(f64) -> f64| -> f64 {
        (0..n).map(|i| signal[f * hop + i] * window[i] * wave(-2.0 * PI * (b * i) as f64 / n as f64)).sum()
    };
    let rows = |wave: fn(f64) -> f64| -> Vec<Vec<f64>> {
        (0..frames).map(|f| (0..=n / 2).map(|b| part(f, b, wave)).collect()).collect()
    };
    let invert = |bins: Vec<(f64, f64)>| -> Vec<f64> {
        let turn = |b: usize, i: usize| 2.0 * PI * (b * i) as f64 / n as f64;
        let at = |i: usize| (0..n).map(|b| bins[b].0 * turn(b, i).cos() - bins[b].1 * turn(b, i).sin()).sum::<f64>();
        (0..n).map(|i| at(i) / n as f64).collect()
    };
    let out = istft(
        &|x: f64| -x,
        &invert,
        &|a: f64, b: f64| a + b,
        &|a: f64, b: f64| a * b,
        &|s: f64, w: f64| if w > 1e-11 { s / w } else { s },
        0.0,
        &window,
        hop,
        &rows(f64::cos),
        &rows(f64::sin),
    );
    assert_eq!(out.len(), frames * hop);
    for (got, want) in out.iter().zip(&signal[(n - hop) / 2..]) {
        assert!((got - want).abs() < 1e-12, "{got} vs {want}");
    }
}

/// The waveform with the arithmetic of single precision.
fn synthesize(m: &Vocos, mel: &Tensor) -> Result<Vec<f32>, VcError> {
    let n_fft = m.config().n_fft;
    let window: Vec<f32> = (0..n_fft)
        .map(|i| (std::f32::consts::PI * i as f32 / n_fft as f32).sin().powi(2))
        .collect();
    let ifft = FftPlanner::new().plan_fft_inverse(n_fft);
    let invert = |bins: Vec<(f32, f32)>| {
        let mut buf: Vec<Complex32> = bins.into_iter().map(|(re, im)| Complex32::new(re, im)).collect();
        ifft.process(&mut buf);
        buf.into_iter().map(|c| c.re / n_fft as f32).collect::<Vec<f32>>()
    };
    m.synthesize(
        mel,
        &quiet,
        &|t: Tensor| t.to_vec2::<f32>(),
        &|x: f32| -x,
        &invert,
        &|a: f32, b: f32| a + b,
        &|a: f32, b: f32| a * b,
        &|s: f32, w: f32| if w > 1e-11 { s / w } else { s },
        0f32,
        &window,
    )
}

#[test]
fn waveform_is_the_inverse_transform_of_the_spectrum() {
    let m = network(&checkpoint());
    let mel = tensor(&[6, 3], 9);
    let got = synthesize(&m, &mel).unwrap();
    assert_eq!(got.len(), 6 * 4);
    // The same with the discrete Fourier sum written out.
    let (re, im) = m.spectrum(&mel, &quiet).unwrap();
    let (re, im) = (re.to_vec2::<f32>().unwrap(), im.to_vec2::<f32>().unwrap());
    let mut y = vec![0f64; 5 * 4 + 12];
    let mut w = vec![0f64; 5 * 4 + 12];
    for f in 0..6 {
        for i in 0..12 {
            let mut s = 0f64;
            for b in 0..12usize {
                let (r, m) = if b <= 6 {
                    (re[f][b] as f64, im[f][b] as f64)
                } else {
                    (re[f][12 - b] as f64, -im[f][12 - b] as f64)
                };
                let a = 2.0 * std::f64::consts::PI * (b * i) as f64 / 12.0;
                s += r * a.cos() - m * a.sin();
            }
            let win = (std::f64::consts::PI * i as f64 / 12.0).sin().powi(2);
            y[4 * f + i] += s / 12.0 * win;
            w[4 * f + i] += win * win;
        }
    }
    for (q, g) in got.iter().enumerate() {
        let want = y[q + 4] / w[q + 4];
        assert!((*g as f64 - want).abs() < 1e-4, "sample {q}: {g} vs {want}");
    }
}

#[test]
fn synthesis_rejects_other_inputs() {
    let m = network(&checkpoint());
    assert!(matches!(synthesize(&m, &tensor(&[5], 1)), Err(VcError::Input(_))));
    assert!(matches!(synthesize(&m, &tensor(&[5, 4], 1)), Err(VcError::Input(_))));
}

#[test]
fn synthesize_matches_official() {
    let load = |name: &str| {
        let path = std::path::Path::new("ckpt").join(name);
        path.exists().then(|| candle_core::safetensors::load(path, &Device::Cpu).unwrap())
    };
    let (Some(fx), Some(ckpt)) = (load("vevo_e2e_fixture.safetensors"), load("vevo_vocos.safetensors")) else {
        return;
    };
    let model = Vocos::load(VocosConfig::default(), entries(&ckpt), &Device::Cpu).unwrap();

    let mel = fx["fm_mel"].clone();
    let want: Vec<f32> = fx["wave_out"]
        .squeeze(0)
        .unwrap()
        .squeeze(0)
        .unwrap()
        .to_vec1()
        .unwrap();
    let got = synthesize(&model, &mel).unwrap();

    assert_eq!(got.len(), want.len(), "sample count mismatch");
    let (mut dot, mut na, mut nb) = (0f64, 0f64, 0f64);
    for (g, w) in got.iter().zip(&want) {
        dot += (*g as f64) * (*w as f64);
        na += (*g as f64).powi(2);
        nb += (*w as f64).powi(2);
    }
    let corr = dot / (na.sqrt() * nb.sqrt());
    assert!(corr > 0.999, "correlation {corr}");
}
