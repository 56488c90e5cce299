use babiniku::fbank::{FbankExtractor, FRAME_LENGTH, FRAME_SHIFT, PADDED_WINDOW_SIZE, SPECTRUM_BINS};
use babiniku::mel::{MelExtractor, HOP, N_BINS, N_FFT, N_MELS, PAD};
use babiniku::signal::{dot, frames_in, overlap_add, reflect_pad, sum, window_of, zip};
use candle_core::{Device, IndexOp};
use rustfft::num_complex::Complex64;
use rustfft::FftPlanner;

#[test]
fn sums_go_from_the_first_to_the_last() {
    let note = |a: i64, b: i64| 10 * a + b;
    assert_eq!(sum(&note, 0, &vec![1, 2, 3]), 123);
    assert_eq!(sum(&note, 7, &vec![]), 7);
    let times = |a: i64, b: i64| a * b;
    assert_eq!(zip(&times, &vec![1, 2, 3], &vec![4, 5, 6]), vec![4, 10, 18]);
    assert_eq!(dot(&|a: i64, b: i64| a + b, &times, 0, &vec![1, 2, 3], &vec![4, 5, 6]), 32);
}

#[test]
fn windows_are_cut_out() {
    assert_eq!(window_of(&vec![1, 2, 3, 4, 5], 1, 3), vec![2, 3, 4]);
    assert_eq!(window_of(&vec![1, 2], 2, 0), Vec::<i32>::new());
}

#[test]
fn frames_that_fit_are_counted() {
    assert_eq!(frames_in(399, 400, 160), 0);
    assert_eq!(frames_in(400, 400, 160), 1);
    assert_eq!(frames_in(559, 400, 160), 1);
    assert_eq!(frames_in(560, 400, 160), 2);
    assert_eq!(frames_in(16_000, 400, 160), 98);
}

#[test]
fn padding_mirrors_the_signal() {
    assert_eq!(reflect_pad(&vec![1, 2, 3, 4], 3), vec![4, 3, 2, 1, 2, 3, 4, 3, 2, 1]);
    assert_eq!(reflect_pad(&vec![1, 2, 3, 4], 0), vec![1, 2, 3, 4]);
    // A signal too short to mirror repeats its far end.
    assert_eq!(reflect_pad(&vec![1, 2], 3), vec![2, 2, 2, 1, 2, 1, 1, 1]);
    assert_eq!(reflect_pad(&vec![9], 2), vec![9, 9, 9, 9, 9]);
}

#[test]
fn overlapping_frames_are_added_in_order() {
    let note = |a: i64, b: i64| 10 * a + b;
    let frames = vec![vec![1, 2, 3], vec![4, 5, 6]];
    assert_eq!(overlap_add(&note, 0, &frames, 3, 2), vec![1, 2, 34, 5, 6]);
    assert_eq!(overlap_add(&note, 0, &frames, 3, 3), vec![1, 2, 3, 4, 5, 6]);
    let frames = vec![vec![1, 1, 1, 1]; 3];
    let plus = |a: i64, b: i64| a + b;
    let counts = overlap_add(&plus, 0, &frames, 4, 2);
    assert_eq!(counts, vec![1, 1, 2, 2, 2, 2, 1, 1]);
}

/// Filters that pick one bin each.
fn picking(n: usize, bins: usize) -> Vec<Vec<i64>> {
    (0..n).map(|k| (0..bins).map(|b| (b == k) as i64).collect()).collect()
}

#[test]
fn filterbanks_follow_the_samples() {
    let e = FbankExtractor::new(picking(80, SPECTRUM_BINS), vec![1; FRAME_LENGTH]);
    let plus = |a: i64, b: i64| a + b;
    let minus = |a: i64, b: i64| a - b;
    let times = |a: i64, b: i64| a * b;
    let average = |s: i64| s / FRAME_LENGTH as i64;
    let emphasise = |x: i64, before: i64| x - 10 * before;
    // Hands out the samples of the frame, to be followed by the filters.
    let power = |v: Vec<i64>| {
        assert_eq!(v.len(), PADDED_WINDOW_SIZE);
        assert!(v[FRAME_LENGTH..].iter().all(|x| *x == 0));
        v[..SPECTRUM_BINS].to_vec()
    };
    let log = |x: i64| x + 1;
    let extract =
        |samples: &Vec<i64>| e.extract(&plus, &minus, &times, &average, &emphasise, &power, &log, 0, samples);
    assert_eq!(extract(&vec![1; 399]).len(), 0);
    let samples: Vec<i64> = (0..720).map(|i| (i * i) % 1009).collect();
    let rows = extract(&samples);
    assert_eq!(rows.len(), 3);
    for (t, row) in rows.iter().enumerate() {
        let frame = &samples[t * FRAME_SHIFT..t * FRAME_SHIFT + FRAME_LENGTH];
        let mean = frame.iter().sum::<i64>() / 400;
        assert_eq!(row.len(), 80);
        for (k, r) in row.iter().enumerate() {
            let before = if k == 0 { frame[0] } else { frame[k - 1] };
            assert_eq!(*r, (frame[k] - mean) - 10 * (before - mean) + 1, "frame {t}, bin {k}");
        }
    }
}

#[test]
fn mel_spectrograms_follow_the_samples() {
    let window: Vec<i64> = (0..N_FFT as i64).map(|i| i + 1).collect();
    let e = MelExtractor::new(picking(N_MELS, N_BINS), window.clone());
    let plus = |a: i64, b: i64| a + b;
    let times = |a: i64, b: i64| a * b;
    let magnitude = |v: Vec<i64>| v[..N_BINS].to_vec();
    let log = |x: i64| -x;
    let extract = |samples: &Vec<i64>| e.extract(&plus, &times, &magnitude, &log, 0, samples);
    let short = extract(&vec![1; 255]);
    assert_eq!(short.len(), N_MELS);
    assert!(short.iter().all(|r| r.is_empty()));
    for len in [256, 511, 512, 1000] {
        let samples: Vec<i64> = (0..len).map(|i| (i * i) % 1009).collect();
        let padded = reflect_pad(&samples, PAD);
        let rows = extract(&samples);
        assert_eq!(rows.len(), N_MELS);
        for (m, row) in rows.iter().enumerate() {
            assert_eq!(row.len(), len as usize / HOP);
            for (t, r) in row.iter().enumerate() {
                assert_eq!(*r, -(padded[t * HOP + m] * window[m]), "bin {m}, frame {t}");
            }
        }
    }
}

/// The power spectrum in double precision.
fn spectrum(v: Vec<f64>) -> Vec<f64> {
    let n = v.len();
    let mut buf: Vec<Complex64> = v.into_iter().map(|x| Complex64::new(x, 0.0)).collect();
    FftPlanner::new().plan_fft_forward(n).process(&mut buf);
    buf[..n / 2 + 1].iter().map(|c| c.norm_sqr()).collect()
}

fn triangles(points: &[f64], at: &[f64], gain: &[f64]) -> Vec<Vec<f64>> {
    (0..80)
        .map(|m| {
            let (lo, ctr, hi) = (points[m], points[m + 1], points[m + 2]);
            at.iter()
                .map(|f| ((f - lo) / (ctr - lo)).min((hi - f) / (hi - ctr)).max(0.0) * gain[m])
                .collect()
        })
        .collect()
}

/// Filterbanks in double precision, with the scale and the window of Kaldi.
fn fbank(samples: &[f32]) -> Vec<Vec<f32>> {
    let scale = |f: f64| 1_127.0 * (1.0 + f / 700.0).ln();
    let (low, high) = (scale(20.0), scale(8_000.0));
    let points: Vec<f64> = (0..82).map(|i| low + i as f64 * (high - low) / 81.0).collect();
    let at: Vec<f64> = (0..257).map(|k| scale(16_000.0 / 512.0 * k as f64)).collect();
    let mut banks = triangles(&points, &at, &[1.0; 80]);
    for row in banks.iter_mut() {
        row[256] = 0.0;
    }
    let window: Vec<f64> = (0..400)
        .map(|i| (0.5 - 0.5 * (2.0 * std::f64::consts::PI * i as f64 / 399.0).cos()).powf(0.85))
        .collect();
    FbankExtractor::new(banks, window).extract(
        &|a: f64, b: f64| a + b,
        &|a: f64, b: f64| a - b,
        &|a: f64, b: f64| a * b,
        &|s: f64| s / 400.0,
        &|x: f64, before: f64| x - 0.97 * before,
        &spectrum,
        &|e: f64| e.max(1.192_092_895_507_812_5e-7).ln() as f32,
        0.0,
        &samples.iter().map(|s| *s as f64).collect(),
    )
}

/// Mel spectrograms in double precision, with the scale and the normalisation of Slaney.
fn mel(samples: &[f32]) -> Vec<Vec<f32>> {
    let to_hz = |m: f64| {
        if m < 15.0 {
            m * 200.0 / 3.0
        } else {
            1_000.0 * ((m - 15.0) * 6.4f64.ln() / 27.0).exp()
        }
    };
    let top = 15.0 + (11_025f64 / 1_000.0).ln() * (27.0 / 6.4f64.ln());
    let points: Vec<f64> = (0..82).map(|i| to_hz(top * i as f64 / 81.0)).collect();
    let at: Vec<f64> = (0..513).map(|k| k as f64 * 22_050.0 / 1_024.0).collect();
    let gain: Vec<f64> = (0..80).map(|m| 2.0 / (points[m + 2] - points[m])).collect();
    let window: Vec<f64> = (0..1_024)
        .map(|i| 0.5 - 0.5 * (2.0 * std::f64::consts::PI * i as f64 / 1_024.0).cos())
        .collect();
    let magnitude = |v: Vec<f64>| spectrum(v).into_iter().map(|p| (p + 1e-9).sqrt()).collect::<Vec<f64>>();
    MelExtractor::new(triangles(&points, &at, &gain), window).extract(
        &|a: f64, b: f64| a + b,
        &|a: f64, b: f64| a * b,
        &magnitude,
        &|e: f64| e.max(1e-5).ln() as f32,
        0.0,
        &samples.iter().map(|s| *s as f64).collect(),
    )
}

fn tone(hz: f64, rate: f64, n: usize) -> Vec<f32> {
    (0..n).map(|i| (2.0 * std::f64::consts::PI * hz * i as f64 / rate).sin() as f32).collect()
}

fn loudest(column: &[f32]) -> usize {
    (0..column.len()).max_by(|a, b| column[*a].partial_cmp(&column[*b]).unwrap()).unwrap()
}

#[test]
fn rows_depend_on_their_own_samples() {
    let samples: Vec<f32> = (0..1_000).map(|i| (i as f32 * 0.37).sin() + 0.1 * (i % 7) as f32).collect();
    let rows = fbank(&samples);
    assert_eq!(rows.len(), 4);
    for (t, row) in rows.iter().enumerate() {
        let alone = fbank(&samples[160 * t..160 * t + 400]);
        assert_eq!(alone.len(), 1);
        assert_eq!(&alone[0], row);
    }
    // 880 samples hold the same four frames; 1040 hold a fifth.
    assert_eq!(fbank(&samples[..880]), rows);
    let mut longer = samples.clone();
    longer.extend([0.5; 40]);
    let more = fbank(&longer);
    assert_eq!(more.len(), 5);
    assert_eq!(&more[..4], &rows[..]);
}

#[test]
fn signs_do_not_count_and_loudness_adds() {
    let samples: Vec<f32> = (0..720).map(|i| (i as f32 * 0.37).sin() + 0.1 * (i % 7) as f32).collect();
    let rows = fbank(&samples);
    assert_eq!(rows.len(), 3);
    let negated: Vec<f32> = samples.iter().map(|s| -s).collect();
    assert_eq!(fbank(&negated), rows);
    // Twice as loud is four times the energy, where it is above the floor.
    let doubled: Vec<f32> = samples.iter().map(|s| 2.0 * s).collect();
    let floor = 1.192_092_9e-7f32.ln();
    for (louder, row) in fbank(&doubled).iter().zip(&rows) {
        for (a, b) in louder.iter().zip(row) {
            assert!(*b > floor);
            assert!((a - b - 4f32.ln()).abs() < 1e-5, "{a} vs {b}");
        }
    }
}

#[test]
fn inner_mel_frames_depend_on_their_own_samples() {
    let samples: Vec<f32> = (0..2_560).map(|i| (i as f32 * 0.21).sin() + 0.1 * (i % 5) as f32).collect();
    let rows = mel(&samples);
    assert_eq!(rows[0].len(), 10);
    // Frame 4 holds samples 640 .. 1664.
    let mut other = samples.clone();
    for (i, v) in other.iter_mut().enumerate() {
        if !(640..1_664).contains(&i) {
            *v = 0.5 - *v;
        }
    }
    other.truncate(1_800);
    let changed = mel(&other);
    assert!((0..80).all(|m| changed[m][4] == rows[m][4]));
    assert!((0..80).any(|m| changed[m][3] != rows[m][3]));
    let negated: Vec<f32> = samples.iter().map(|s| -s).collect();
    assert_eq!(mel(&negated), rows);
    assert!(rows.iter().flatten().all(|v| *v >= 1e-5f32.ln()));
}

#[test]
fn tones_fall_into_their_bins() {
    let rows = fbank(&tone(1_000.0, 16_000.0, 4_000));
    assert_eq!(rows.len(), 23);
    // The filter whose triangle has its peak nearest to 1 kHz.
    let scale = |f: f64| 1_127.0 * (1.0 + f / 700.0).ln();
    let step = (scale(8_000.0) - scale(20.0)) / 81.0;
    let want = ((scale(1_000.0) - scale(20.0)) / step).round() as usize - 1;
    assert!(rows.iter().all(|r| loudest(r).abs_diff(want) <= 1));

    let m = mel(&tone(1_000.0, 22_050.0, 4_096));
    assert_eq!(m.len(), 80);
    assert_eq!(m[0].len(), 16);
    let top = 15.0 + (11_025f64 / 1_000.0).ln() * (27.0 / 6.4f64.ln());
    let want = (15.0 / top * 81.0).round() as usize - 1;
    for t in 2..14 {
        let column: Vec<f32> = m.iter().map(|r| r[t]).collect();
        assert!(loudest(&column).abs_diff(want) <= 1);
    }
}

#[test]
fn silence_is_floored() {
    let rows = fbank(&[0.0; 400]);
    assert!(rows[0].iter().all(|v| *v == 1.192_092_895_507_812_5e-7f64.ln() as f32));
    let m = mel(&[0.0; 256]);
    assert!(m.iter().all(|r| r[0].is_finite()));
}

fn fixture(name: &str) -> Option<std::collections::HashMap<String, candle_core::Tensor>> {
    let path = std::path::Path::new("ckpt").join(name);
    path.exists().then(|| candle_core::safetensors::load(path, &Device::Cpu).unwrap())
}

#[test]
fn fbank_matches_official() {
    let Some(fx) = fixture("seedvc_campplus_fixture.safetensors") else {
        return;
    };
    let wave: Vec<f32> = fx["wave_16k"].i(0).unwrap().to_vec1().unwrap();
    let want = fx["fbank"].to_vec2::<f32>().unwrap();
    let got = fbank(&wave);
    assert_eq!(got.len(), want.len(), "frame count mismatch");
    let mut dmax = 0f32;
    for (gr, wr) in got.iter().zip(&want) {
        for (g, w) in gr.iter().zip(wr) {
            dmax = dmax.max((g - w).abs());
        }
    }
    println!("fbank max abs diff {dmax:.2e}");
    assert!(dmax < 1e-3, "fbank mismatch: {dmax}");
}

#[test]
fn mel_matches_official() {
    let Some(fx) = fixture("seedvc_e2e_fixture.safetensors") else {
        return;
    };
    let src: Vec<f32> = fx["source_22k"].i(0).unwrap().to_vec1().unwrap();
    let want = fx["mel"].i(0).unwrap().to_vec2::<f32>().unwrap();
    let got = mel(&src);
    assert_eq!(got.len(), want.len());
    assert_eq!(got[0].len(), want[0].len(), "frame count mismatch");
    let mut dmax = 0f32;
    for (gr, wr) in got.iter().zip(&want) {
        for (g, w) in gr.iter().zip(wr) {
            dmax = dmax.max((g - w).abs());
        }
    }
    println!("mel max abs diff {dmax:.2e}");
    assert!(dmax < 1e-3, "mel mismatch: {dmax}");
}
