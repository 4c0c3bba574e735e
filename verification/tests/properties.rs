use embfft::cordic::{self, Cordic};
use embfft::{EmbFft, EmbIfft, Float};

#[derive(Clone, Copy)]
struct F64(f64);

#[derive(Clone, Copy)]
struct F32(f32);

fn quarter_sine_f64(i: usize, n: usize) -> f64 {
    let angle = 2.0 * std::f64::consts::PI * i as f64 / n as f64;
    cordic::sin(F64(angle)).unwrap().0
}

impl Float for F64 {
    fn zero() -> F64 {
        F64(0.0)
    }
    fn n_inv(n: usize) -> F64 {
        F64(1.0 / n as f64)
    }
    fn sine(i: usize, n: usize) -> F64 {
        F64(quarter_sine_f64(i, n))
    }
    fn add(self, other: F64) -> F64 {
        F64(self.0 + other.0)
    }
    fn sub(self, other: F64) -> F64 {
        F64(self.0 - other.0)
    }
    fn mul(self, other: F64) -> F64 {
        F64(self.0 * other.0)
    }
    fn neg(self) -> F64 {
        F64(-self.0)
    }
}

impl Cordic for F64 {
    fn one() -> F64 {
        F64(1.0)
    }
    fn half(self) -> F64 {
        F64(self.0 / 2.0)
    }
    fn lt(self, other: F64) -> bool {
        self.0 < other.0
    }
    fn half_pi() -> F64 {
        F64(std::f64::consts::PI / 2.0)
    }
    fn theta(i: usize) -> F64 {
        F64(f64::atan2(1.0, f64::powf(2.0, i as f64)))
    }
    fn gain() -> F64 {
        let mut k: f64 = 1.0;
        for i in 0..63 {
            k *= 1.0 / f64::sqrt(1.0 + f64::powf(2.0, -2.0 * i as f64));
        }
        F64(k)
    }
    fn angle(i: usize, n: usize) -> F64 {
        F64(2.0 * std::f64::consts::PI * i as f64 / n as f64)
    }
}

impl Float for F32 {
    fn zero() -> F32 {
        F32(0.0)
    }
    fn n_inv(n: usize) -> F32 {
        F32(1.0 / n as f32)
    }
    fn sine(i: usize, n: usize) -> F32 {
        F32(quarter_sine_f64(i, n) as f32)
    }
    fn add(self, other: F32) -> F32 {
        F32(self.0 + other.0)
    }
    fn sub(self, other: F32) -> F32 {
        F32(self.0 - other.0)
    }
    fn mul(self, other: F32) -> F32 {
        F32(self.0 * other.0)
    }
    fn neg(self) -> F32 {
        F32(-self.0)
    }
}

fn run_fft_f32(input: &[(f32, f32)]) -> Vec<(f32, f32)> {
    let samples: Vec<(F32, F32)> = input.iter().map(|&(re, im)| (F32(re), F32(im))).collect();
    let mut fft = EmbFft::new(samples).unwrap();
    fft.fft();
    fft.into_data().into_iter().map(|(re, im)| (re.0, im.0)).collect()
}

fn run_fft_f64(input: &[(f64, f64)]) -> Vec<(f64, f64)> {
    let samples: Vec<(F64, F64)> = input.iter().map(|&(re, im)| (F64(re), F64(im))).collect();
    let mut fft = EmbFft::new(samples).unwrap();
    fft.fft();
    fft.into_data().into_iter().map(|(re, im)| (re.0, im.0)).collect()
}

fn run_ifft_f32(input: &[(f32, f32)]) -> Vec<(f32, f32)> {
    let samples: Vec<(F32, F32)> = input.iter().map(|&(re, im)| (F32(re), F32(im))).collect();
    let mut ifft = EmbIfft::new(samples).unwrap();
    ifft.ifft();
    ifft.into_data().into_iter().map(|(re, im)| (re.0, im.0)).collect()
}

fn run_ifft_f64(input: &[(f64, f64)]) -> Vec<(f64, f64)> {
    let samples: Vec<(F64, F64)> = input.iter().map(|&(re, im)| (F64(re), F64(im))).collect();
    let mut ifft = EmbIfft::new(samples).unwrap();
    ifft.ifft();
    ifft.into_data().into_iter().map(|(re, im)| (re.0, im.0)).collect()
}


fn count_fft_steps(input: &[(f64, f64)]) -> usize {
    let samples: Vec<(F64, F64)> = input.iter().map(|&(re, im)| (F64(re), F64(im))).collect();
    let mut fft = EmbFft::new(samples).unwrap();
    let mut steps: usize = 0;
    while !fft.is_done() {
        fft.fft_iterate();
        steps += 1;
    }
    steps
}

fn count_ifft_steps(input: &[(f64, f64)]) -> usize {
    let samples: Vec<(F64, F64)> = input.iter().map(|&(re, im)| (F64(re), F64(im))).collect();
    let mut ifft = EmbIfft::new(samples).unwrap();
    let mut steps: usize = 0;
    while !ifft.is_done() {
        ifft.ifft_iterate();
        steps += 1;
    }
    steps
}

#[test]
fn test_round_trip_f64() {
    for &n in &[4usize, 8, 16, 64, 128] {
        let input: Vec<(f64, f64)> = (0..n)
            .map(|k| (0.25 + k as f64 * 0.37, 1.5 - k as f64 * 0.11))
            .collect();
        let spectrum = run_fft_f64(&input);
        let restored = run_ifft_f64(&spectrum);
        for (i, (x, y)) in restored.iter().zip(input.iter()).enumerate() {
            assert!((x.0 - y.0).abs() <= 1e-12, "n={}, re at {}: {} vs {}", n, i, x.0, y.0);
            assert!((x.1 - y.1).abs() <= 1e-12, "n={}, im at {}: {} vs {}", n, i, x.1, y.1);
        }
    }
}

#[test]
fn test_round_trip_f32() {
    let input: Vec<(f32, f32)> = (0..64)
        .map(|k| (0.25 + k as f32 * 0.37, 1.5 - k as f32 * 0.11))
        .collect();
    let spectrum = run_fft_f32(&input);
    let restored = run_ifft_f32(&spectrum);
    for (i, (x, y)) in restored.iter().zip(input.iter()).enumerate() {
        assert!((x.0 - y.0).abs() <= 1e-4, "re at {}: {} vs {}", i, x.0, y.0);
        assert!((x.1 - y.1).abs() <= 1e-4, "im at {}: {} vs {}", i, x.1, y.1);
    }
}

#[test]
fn test_reverse_bits_involution() {
    for x in 0..256usize {
        let r = embfft::Base::<256>::reverse_bits(x);
        assert!(r < 256);
        assert_eq!(embfft::Base::<256>::reverse_bits(r), x);
    }
    assert_eq!(embfft::Base::<256>::reverse_bits(0b11010010), 0b01001011);
    assert_eq!(embfft::Base::<8>::reverse_bits(0b110), 0b011);
    assert_eq!(embfft::Base::<8>::reverse_bits(1), 4);
}

#[test]
fn test_dc_property() {
    let input: Vec<(f64, f64)> = (0..16).map(|_| (3.0, 0.0)).collect();
    let out = run_fft_f64(&input);
    assert!((out[0].0 - 48.0).abs() <= 1e-9, "dc amplitude {}", out[0].0);
    assert!(out[0].1.abs() <= 1e-9);
    for (i, &(re, im)) in out.iter().enumerate().skip(1) {
        assert!(re.abs() <= 1e-9 && im.abs() <= 1e-9, "bin {} not empty: ({}, {})", i, re, im);
    }
}

#[test]
fn test_sum_property() {
    let input: Vec<(f64, f64)> = (0..64).map(|i| ((i + 1) as f64, 0.0)).collect();
    let out = run_fft_f64(&input);
    assert_eq!(out[0].0, 2080.0);
    let input2: Vec<(f64, f64)> = (0..32).map(|i| (0.5 * i as f64 - 3.0, 0.0)).collect();
    let expected: f64 = input2.iter().map(|p| p.0).sum();
    let out2 = run_fft_f64(&input2);
    assert!((out2[0].0 - expected).abs() <= 1e-9);
}

#[test]
fn test_step_count_fixed_by_size() {
    let a: Vec<(f64, f64)> = (0..16).map(|i| (i as f64, -(i as f64))).collect();
    let b: Vec<(f64, f64)> = (0..16).map(|i| (1e6 - i as f64 * 77.5, 0.125)).collect();
    assert_eq!(count_fft_steps(&a), count_fft_steps(&b));
    assert_eq!(count_ifft_steps(&a), count_ifft_steps(&b));
    let c: Vec<(f64, f64)> = (0..32).map(|i| (i as f64, 0.0)).collect();
    assert_ne!(count_fft_steps(&a), count_fft_steps(&c));
}

#[test]
fn test_step_after_done_is_noop() {
    let input: Vec<(F64, F64)> = (0..8).map(|i| (F64(i as f64), F64(0.0))).collect();
    let mut fft = EmbFft::new(input).unwrap();
    fft.fft();
    assert!(fft.is_done());
    let reference: Vec<(u64, u64)> = {
        let mut again = EmbFft::new((0..8).map(|i| (F64(i as f64), F64(0.0))).collect()).unwrap();
        again.fft();
        again.into_data().iter().map(|p| (p.0 .0.to_bits(), p.1 .0.to_bits())).collect()
    };
    for _ in 0..5 {
        fft.fft_iterate();
        assert!(fft.is_done());
    }
    let after: Vec<(u64, u64)> = fft.into_data().iter().map(|p| (p.0 .0.to_bits(), p.1 .0.to_bits())).collect();
    assert_eq!(after, reference);
}

#[test]
fn test_run_matches_step_loop() {
    let input: Vec<(f64, f64)> = (0..32).map(|i| (i as f64 * 0.3 - 4.0, (i * i) as f64 * 0.01)).collect();
    let samples: Vec<(F64, F64)> = input.iter().map(|&(re, im)| (F64(re), F64(im))).collect();
    let mut blocking = EmbFft::new(samples.clone()).unwrap();
    blocking.fft();
    let mut stepping = EmbFft::new(samples).unwrap();
    while !stepping.is_done() {
        stepping.fft_iterate();
    }
    let a: Vec<(u64, u64)> =
        blocking.into_data().iter().map(|p| (p.0 .0.to_bits(), p.1 .0.to_bits())).collect();
    let b: Vec<(u64, u64)> =
        stepping.into_data().iter().map(|p| (p.0 .0.to_bits(), p.1 .0.to_bits())).collect();
    assert_eq!(a, b);

    let isamples: Vec<(F64, F64)> = input.iter().map(|&(re, im)| (F64(re), F64(im))).collect();
    let mut iblocking = EmbIfft::new(isamples.clone()).unwrap();
    iblocking.ifft();
    let mut istepping = EmbIfft::new(isamples).unwrap();
    while !istepping.is_done() {
        istepping.ifft_iterate();
    }
    let ia: Vec<(u64, u64)> =
        iblocking.into_data().iter().map(|p| (p.0 .0.to_bits(), p.1 .0.to_bits())).collect();
    let ib: Vec<(u64, u64)> =
        istepping.into_data().iter().map(|p| (p.0 .0.to_bits(), p.1 .0.to_bits())).collect();
    assert_eq!(ia, ib);
}

#[test]
fn test_configuration_error() {
    for &n in &[0usize, 1, 2, 3, 5, 6, 12, 100] {
        let samples: Vec<(F64, F64)> = (0..n).map(|_| (F64(0.0), F64(0.0))).collect();
        assert!(matches!(EmbFft::new(samples), Err(embfft::ConfigurationError)));
        let samples: Vec<(F64, F64)> = (0..n).map(|_| (F64(0.0), F64(0.0))).collect();
        assert!(matches!(EmbIfft::new(samples), Err(embfft::ConfigurationError)));
    }
    let samples: Vec<(F64, F64)> = (0..4).map(|_| (F64(0.0), F64(0.0))).collect();
    assert!(EmbFft::new(samples).is_ok());
}

#[test]
fn test_build_sine_table() {
    let table = cordic::build_sine_table::<F64>(64).unwrap();
    assert_eq!(table.len(), 16);
    assert_eq!(table[0].0, 0.0);
    for i in 1..16usize {
        let angle = 2.0 * std::f64::consts::PI * i as f64 / 64.0;
        assert_eq!(table[i].0.to_bits(), cordic::sin(F64(angle)).unwrap().0.to_bits());
        assert!((table[i].0 - angle.sin()).abs() <= 1e-12, "entry {}: {} vs {}", i, table[i].0, angle.sin());
    }
}
