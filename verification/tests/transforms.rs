use embfft::cordic::{self, Cordic};
use embfft::{EmbFft, EmbIfft, Float};

#[derive(Clone, Copy)]
struct F64(f64);

#[derive(Clone, Copy)]
struct F32(f32);

fn quarter_sine_f64(i: usize, n: usize) -> f64 {
    let angle = 2.0 * std::f64::consts::PI * i as f64 / n as f64;
    cordic::sin(F64(angle)).unwrap().0
}

impl Float for F64 {
    fn zero() -> F64 {
        F64(0.0)
    }
    fn n_inv(n: usize) -> F64 {
        F64(1.0 / n as f64)
    }
    fn sine(i: usize, n: usize) -> F64 {
        F64(quarter_sine_f64(i, n))
    }
    fn add(self, other: F64) -> F64 {
        F64(self.0 + other.0)
    }
    fn sub(self, other: F64) -> F64 {
        F64(self.0 - other.0)
    }
    fn mul(self, other: F64) -> F64 {
        F64(self.0 * other.0)
    }
    fn neg(self) -> F64 {
        F64(-self.0)
    }
}

impl Cordic for F64 {
    fn one() -> F64 {
        F64(1.0)
    }
    fn half(self) -> F64 {
        F64(self.0 / 2.0)
    }
    fn lt(self, other: F64) -> bool {
        self.0 < other.0
    }
    fn half_pi() -> F64 {
        F64(std::f64::consts::PI / 2.0)
    }
    fn theta(i: usize) -> F64 {
        F64(f64::atan2(1.0, f64::powf(2.0, i as f64)))
    }
    fn gain() -> F64 {
        let mut k: f64 = 1.0;
        for i in 0..63 {
            k *= 1.0 / f64::sqrt(1.0 + f64::powf(2.0, -2.0 * i as f64));
        }
        F64(k)
    }
    fn angle(i: usize, n: usize) -> F64 {
        F64(2.0 * std::f64::consts::PI * i as f64 / n as f64)
    }
}

impl Float for F32 {
    fn zero() -> F32 {
        F32(0.0)
    }
    fn n_inv(n: usize) -> F32 {
        F32(1.0 / n as f32)
    }
    fn sine(i: usize, n: usize) -> F32 {
        F32(quarter_sine_f64(i, n) as f32)
    }
    fn add(self, other: F32) -> F32 {
        F32(self.0 + other.0)
    }
    fn sub(self, other: F32) -> F32 {
        F32(self.0 - other.0)
    }
    fn mul(self, other: F32) -> F32 {
        F32(self.0 * other.0)
    }
    fn neg(self) -> F32 {
        F32(-self.0)
    }
}

fn ulps_eq_f32(a: f32, b: f32, max_ulps: u32) -> bool {
    if (a - b).abs() <= f32::EPSILON {
        return true;
    }
    if a.is_sign_negative() != b.is_sign_negative() {
        return a == b;
    }
    let (ba, bb) = (a.to_bits() as i64, b.to_bits() as i64);
    (ba - bb).unsigned_abs() <= max_ulps as u64
}

fn ulps_eq_f64(a: f64, b: f64, max_ulps: u64) -> bool {
    if (a - b).abs() <= f64::EPSILON {
        return true;
    }
    if a.is_sign_negative() != b.is_sign_negative() {
        return a == b;
    }
    let (ba, bb) = (a.to_bits() as i128, b.to_bits() as i128);
    (ba - bb).unsigned_abs() <= max_ulps as u128
}

fn run_fft_f32(input: &[(f32, f32)]) -> Vec<(f32, f32)> {
    let samples: Vec<(F32, F32)> = input.iter().map(|&(re, im)| (F32(re), F32(im))).collect();
    let mut fft = EmbFft::new(samples).unwrap();
    fft.fft();
    fft.into_data().into_iter().map(|(re, im)| (re.0, im.0)).collect()
}

fn run_fft_f64(input: &[(f64, f64)]) -> Vec<(f64, f64)> {
    let samples: Vec<(F64, F64)> = input.iter().map(|&(re, im)| (F64(re), F64(im))).collect();
    let mut fft = EmbFft::new(samples).unwrap();
    fft.fft();
    fft.into_data().into_iter().map(|(re, im)| (re.0, im.0)).collect()
}

fn run_ifft_f32(input: &[(f32, f32)]) -> Vec<(f32, f32)> {
    let samples: Vec<(F32, F32)> = input.iter().map(|&(re, im)| (F32(re), F32(im))).collect();
    let mut ifft = EmbIfft::new(samples).unwrap();
    ifft.ifft();
    ifft.into_data().into_iter().map(|(re, im)| (re.0, im.0)).collect()
}

fn run_ifft_f64(input: &[(f64, f64)]) -> Vec<(f64, f64)> {
    let samples: Vec<(F64, F64)> = input.iter().map(|&(re, im)| (F64(re), F64(im))).collect();
    let mut ifft = EmbIfft::new(samples).unwrap();
    ifft.ifft();
    ifft.into_data().into_iter().map(|(re, im)| (re.0, im.0)).collect()
}

fn ramp_f32() -> Vec<(f32, f32)> {
    (0..64).map(|i| ((i + 1) as f32, 0.0f32)).collect()
}

fn ramp_f64() -> Vec<(f64, f64)> {
    (0..64).map(|i| ((i + 1) as f64, 0.0f64)).collect()
}

#[test]
fn test_fft_f32() {
    let data = ramp_f32();
    let expected_data: [(f32, f32); 64] = [
    (2080.000000000, 0.000000000), (-32.000000000, 651.374938965),
    (-32.000000000, 324.901428223), (-32.000000000, 215.726470947),
    (-32.000000000, 160.874862671), (-32.000000000, 127.751144409),
    (-32.000000000, 105.489852905), (-32.000000000, 89.433998108),
    (-32.000000000, 77.254837036), (-32.000000000, 67.658325195),
    (-32.000000000, 59.867778778), (-32.000000000, 53.388782501),
    (-32.000000000, 47.891376495), (-32.000000000, 43.147003174),
    (-32.000000000, 38.992103577), (-32.000000000, 35.306564331),
    (-32.000000000, 32.000000000), (-32.000000000, 29.003116608),
    (-32.000000000, 26.261730194), (-32.000000000, 23.732799530),
    (-32.000000000, 21.381717682), (-32.000000000, 19.180076599),
    (-32.000000000, 17.104358673), (-32.000000000, 15.134864807),
    (-32.000000000, 13.254833221), (-32.000000000, 11.449790955),
    (-32.000000000, 9.707096100), (-32.000000000, 8.015590668),
    (-32.000000000, 6.365188599), (-32.000000000, 4.746734619),
    (-32.000000000, 3.151718140), (-32.000000000, 1.572052002),
    (-32.000000000, 0.000000000), (-32.000000000, -1.572082520),
    (-32.000000000, -3.151718140), (-32.000000000, -4.746765137),
    (-32.000000000, -6.365188599), (-32.000000000, -8.015590668),
    (-32.000000000, -9.707103729), (-32.000000000, -11.449790955),
    (-32.000000000, -13.254833221), (-32.000000000, -15.134864807),
    (-32.000000000, -17.104343414), (-32.000000000, -19.180065155),
    (-32.000000000, -21.381710052), (-32.000000000, -23.732810974),
    (-32.000000000, -26.261726379), (-32.000000000, -29.003128052),
    (-32.000000000, -32.000000000), (-32.000000000, -35.306552887),
    (-32.000000000, -38.992107391), (-32.000000000, -43.147006989),
    (-32.000000000, -47.891384125), (-32.000000000, -53.388763428),
    (-32.000000000, -59.867778778), (-32.000000000, -67.658317566),
    (-32.000000000, -77.254837036), (-32.000000000, -89.434005737),
    (-32.000000000, -105.489868164), (-32.000000000, -127.751144409),
    (-32.000000000, -160.874862671), (-32.000000000, -215.726470947),
    (-32.000000000, -324.901428223), (-32.000000000, -651.374877930),
    ];
    let out = run_fft_f32(&data);
    for (i, (x, y)) in out.iter().zip(expected_data.iter()).enumerate() {
        assert!(ulps_eq_f32(x.0, y.0, 4), "re at {}: {} vs {}", i, x.0, y.0);
        assert!(ulps_eq_f32(x.1, y.1, 4), "im at {}: {} vs {}", i, x.1, y.1);
    }
}

#[test]
fn test_fft_f64() {
    let data = ramp_f64();
    let expected_data: [(f64, f64); 64] = [
    (2080.000000000000000, 0.000000000000000), (-32.000000000000000, 651.374963999590136),
    (-32.000000000000000, 324.901452403483631), (-32.000000000000000, 215.726476973279688),
    (-32.000000000000000, 160.874863748027195), (-32.000000000000000, 127.751161080642859),
    (-32.000000000000000, 105.489862686026299), (-32.000000000000000, 89.434008719695299),
    (-32.000000000000000, 77.254833995939066), (-32.000000000000000, 67.658315441556596),
    (-32.000000000000000, 59.867789177260548), (-32.000000000000000, 53.388774578672361),
    (-32.000000000000000, 47.891384405295703), (-32.000000000000000, 43.147005231575143),
    (-32.000000000000000, 38.992112818815343), (-32.000000000000000, 35.306559223471368),
    (-32.000000000000000, 32.000000000000000), (-32.000000000000000, 29.003109408612701),
    (-32.000000000000000, 26.261721306517153), (-32.000000000000000, 23.732817480705215),
    (-32.000000000000000, 21.381716413417571), (-32.000000000000000, 19.180061877821572),
    (-32.000000000000000, 17.104356350425391), (-32.000000000000000, 15.134872828522347),
    (-32.000000000000000, 13.254833995939073), (-32.000000000000000, 11.449783082064791),
    (-32.000000000000000, 9.707093875434992), (-32.000000000000000, 8.015582726121906),
    (-32.000000000000000, 6.365195756149134), (-32.000000000000000, 4.746751601227075),
    (-32.000000000000000, 3.151724907429411), (-32.000000000000000, 1.572059192623158),
    (-32.000000000000000, 0.000000000000000), (-32.000000000000000, -1.572059192622930),
    (-32.000000000000000, -3.151724907429269), (-32.000000000000000, -4.746751601227089),
    (-32.000000000000000, -6.365195756149063), (-32.000000000000000, -8.015582726121764),
    (-32.000000000000000, -9.707093875434900), (-32.000000000000000, -11.449783082064613),
    (-32.000000000000000, -13.254833995939073), (-32.000000000000000, -15.134872828522283),
    (-32.000000000000000, -17.104356350425405), (-32.000000000000000, -19.180061877821579),
    (-32.000000000000000, -21.381716413417557), (-32.000000000000000, -23.732817480705158),
    (-32.000000000000000, -26.261721306517074), (-32.000000000000000, -29.003109408612545),
    (-32.000000000000000, -32.000000000000000), (-32.000000000000000, -35.306559223471240),
    (-32.000000000000000, -38.992112818815279), (-32.000000000000000, -43.147005231575015),
    (-32.000000000000000, -47.891384405295717), (-32.000000000000000, -53.388774578672383),
    (-32.000000000000000, -59.867789177260505), (-32.000000000000000, -67.658315441556496),
    (-32.000000000000000, -77.254833995939066), (-32.000000000000000, -89.434008719695356),
    (-32.000000000000000, -105.489862686026427), (-32.000000000000000, -127.751161080642916),
    (-32.000000000000000, -160.874863748027281), (-32.000000000000000, -215.726476973279944),
    (-32.000000000000000, -324.901452403483972), (-32.000000000000000, -651.374963999591046),
    ];
    let out = run_fft_f64(&data);
    for (i, (x, y)) in out.iter().zip(expected_data.iter()).enumerate() {
        assert!(ulps_eq_f64(x.0, y.0, 4), "re at {}: {} vs {}", i, x.0, y.0);
        assert!(ulps_eq_f64(x.1, y.1, 4), "im at {}: {} vs {}", i, x.1, y.1);
    }
}

#[test]
fn lib_test_fft_f32() {
    let data = ramp_f32();
    let expected_data: [(f32, f32); 64] = [
    (2080.000000000, 0.000000000), (-32.000000000, 651.374938965),
    (-32.000000000, 324.901428223), (-32.000000000, 215.726470947),
    (-32.000000000, 160.874862671), (-32.000000000, 127.751144409),
    (-32.000000000, 105.489852905), (-32.000000000, 89.433998108),
    (-32.000000000, 77.254837036), (-32.000000000, 67.658325195),
    (-32.000000000, 59.867778778), (-32.000000000, 53.388782501),
    (-32.000000000, 47.891376495), (-32.000000000, 43.147003174),
    (-32.000000000, 38.992103577), (-32.000000000, 35.306564331),
    (-32.000000000, 32.000000000), (-32.000000000, 29.003116608),
    (-32.000000000, 26.261730194), (-32.000000000, 23.732799530),
    (-32.000000000, 21.381717682), (-32.000000000, 19.180076599),
    (-32.000000000, 17.104358673), (-32.000000000, 15.134864807),
    (-32.000000000, 13.254833221), (-32.000000000, 11.449790955),
    (-32.000000000, 9.707096100), (-32.000000000, 8.015590668),
    (-32.000000000, 6.365188599), (-32.000000000, 4.746734619),
    (-32.000000000, 3.151718140), (-32.000000000, 1.572052002),
    (-32.000000000, 0.000000000), (-32.000000000, -1.572082520),
    (-32.000000000, -3.151718140), (-32.000000000, -4.746765137),
    (-32.000000000, -6.365188599), (-32.000000000, -8.015590668),
    (-32.000000000, -9.707103729), (-32.000000000, -11.449790955),
    (-32.000000000, -13.254833221), (-32.000000000, -15.134864807),
    (-32.000000000, -17.104343414), (-32.000000000, -19.180065155),
    (-32.000000000, -21.381710052), (-32.000000000, -23.732810974),
    (-32.000000000, -26.261726379), (-32.000000000, -29.003128052),
    (-32.000000000, -32.000000000), (-32.000000000, -35.306552887),
    (-32.000000000, -38.992107391), (-32.000000000, -43.147006989),
    (-32.000000000, -47.891384125), (-32.000000000, -53.388763428),
    (-32.000000000, -59.867778778), (-32.000000000, -67.658317566),
    (-32.000000000, -77.254837036), (-32.000000000, -89.434005737),
    (-32.000000000, -105.489868164), (-32.000000000, -127.751144409),
    (-32.000000000, -160.874862671), (-32.000000000, -215.726470947),
    (-32.000000000, -324.901428223), (-32.000000000, -651.374877930),
    ];
    let out = run_fft_f32(&data);
    for (i, (x, y)) in out.iter().zip(expected_data.iter()).enumerate() {
        assert!(ulps_eq_f32(x.0, y.0, 4), "re at {}: {} vs {}", i, x.0, y.0);
        assert!(ulps_eq_f32(x.1, y.1, 4), "im at {}: {} vs {}", i, x.1, y.1);
    }
}

#[test]
fn lib_test_fft_f64() {
    let data = ramp_f64();
    let expected_data: [(f64, f64); 64] = [
    (2080.000000000000000, 0.000000000000000), (-32.000000000000000, 651.374963999590136),
    (-32.000000000000000, 324.901452403483631), (-32.000000000000000, 215.726476973279688),
    (-32.000000000000000, 160.874863748027195), (-32.000000000000000, 127.751161080642859),
    (-32.000000000000000, 105.489862686026299), (-32.000000000000000, 89.434008719695299),
    (-32.000000000000000, 77.254833995939066), (-32.000000000000000, 67.658315441556596),
    (-32.000000000000000, 59.867789177260548), (-32.000000000000000, 53.388774578672361),
    (-32.000000000000000, 47.891384405295703), (-32.000000000000000, 43.147005231575143),
    (-32.000000000000000, 38.992112818815343), (-32.000000000000000, 35.306559223471368),
    (-32.000000000000000, 32.000000000000000), (-32.000000000000000, 29.003109408612701),
    (-32.000000000000000, 26.261721306517153), (-32.000000000000000, 23.732817480705215),
    (-32.000000000000000, 21.381716413417571), (-32.000000000000000, 19.180061877821572),
    (-32.000000000000000, 17.104356350425391), (-32.000000000000000, 15.134872828522347),
    (-32.000000000000000, 13.254833995939073), (-32.000000000000000, 11.449783082064791),
    (-32.000000000000000, 9.707093875434992), (-32.000000000000000, 8.015582726121906),
    (-32.000000000000000, 6.365195756149134), (-32.000000000000000, 4.746751601227075),
    (-32.000000000000000, 3.151724907429411), (-32.000000000000000, 1.572059192623158),
    (-32.000000000000000, 0.000000000000000), (-32.000000000000000, -1.572059192622930),
    (-32.000000000000000, -3.151724907429269), (-32.000000000000000, -4.746751601227089),
    (-32.000000000000000, -6.365195756149063), (-32.000000000000000, -8.015582726121764),
    (-32.000000000000000, -9.707093875434900), (-32.000000000000000, -11.449783082064613),
    (-32.000000000000000, -13.254833995939073), (-32.000000000000000, -15.134872828522283),
    (-32.000000000000000, -17.104356350425405), (-32.000000000000000, -19.180061877821579),
    (-32.000000000000000, -21.381716413417557), (-32.000000000000000, -23.732817480705158),
    (-32.000000000000000, -26.261721306517074), (-32.000000000000000, -29.003109408612545),
    (-32.000000000000000, -32.000000000000000), (-32.000000000000000, -35.306559223471240),
    (-32.000000000000000, -38.992112818815279), (-32.000000000000000, -43.147005231575015),
    (-32.000000000000000, -47.891384405295717), (-32.000000000000000, -53.388774578672383),
    (-32.000000000000000, -59.867789177260505), (-32.000000000000000, -67.658315441556496),
    (-32.000000000000000, -77.254833995939066), (-32.000000000000000, -89.434008719695356),
    (-32.000000000000000, -105.489862686026427), (-32.000000000000000, -127.751161080642916),
    (-32.000000000000000, -160.874863748027281), (-32.000000000000000, -215.726476973279944),
    (-32.000000000000000, -324.901452403483972), (-32.000000000000000, -651.374963999591046),
    ];
    let out = run_fft_f64(&data);
    for (i, (x, y)) in out.iter().zip(expected_data.iter()).enumerate() {
        assert!(ulps_eq_f64(x.0, y.0, 4), "re at {}: {} vs {}", i, x.0, y.0);
        assert!(ulps_eq_f64(x.1, y.1, 4), "im at {}: {} vs {}", i, x.1, y.1);
    }
}

#[test]
fn test_ifft_f32() {
    let data = ramp_f32();
    let expected_data: [(f32, f32); 64] = [
    (32.500000000, 0.000000000), (-0.500000000, -10.177733812),
    (-0.500000000, -5.076585194), (-0.500000000, -3.370726203),
    (-0.500000000, -2.513669746), (-0.500000000, -1.996111892),
    (-0.500000000, -1.648279104), (-0.500000000, -1.397406386),
    (-0.500000000, -1.207106781), (-0.500000000, -1.057161179),
    (-0.500000000, -0.935434206), (-0.500000000, -0.834199603),
    (-0.500000000, -0.748302881), (-0.500000000, -0.674171957),
    (-0.500000000, -0.609251763), (-0.500000000, -0.551664988),
    (-0.500000000, -0.500000000), (-0.500000000, -0.453173585),
    (-0.500000000, -0.410339395), (-0.500000000, -0.370825273),
    (-0.500000000, -0.334089319), (-0.500000000, -0.299688467),
    (-0.500000000, -0.267255568), (-0.500000000, -0.236482388),
    (-0.500000000, -0.207106781), (-0.500000000, -0.178902861),
    (-0.500000000, -0.151673342), (-0.500000000, -0.125243480),
    (-0.500000000, -0.099456184), (-0.500000000, -0.074167994),
    (-0.500000000, -0.049245702), (-0.500000000, -0.024563425),
    (-0.500000000, 0.000000000), (-0.500000000, 0.024563425),
    (-0.500000000, 0.049245702), (-0.500000000, 0.074167994),
    (-0.500000000, 0.099456184), (-0.500000000, 0.125243480),
    (-0.500000000, 0.151673342), (-0.500000000, 0.178902861),
    (-0.500000000, 0.207106781), (-0.500000000, 0.236482388),
    (-0.500000000, 0.267255568), (-0.500000000, 0.299688467),
    (-0.500000000, 0.334089319), (-0.500000000, 0.370825273),
    (-0.500000000, 0.410339395), (-0.500000000, 0.453173585),
    (-0.500000000, 0.500000000), (-0.500000000, 0.551664988),
    (-0.500000000, 0.609251763), (-0.500000000, 0.674171957),
    (-0.500000000, 0.748302881), (-0.500000000, 0.834199603),
    (-0.500000000, 0.935434206), (-0.500000000, 1.057161179),
    (-0.500000000, 1.207106781), (-0.500000000, 1.397406386),
    (-0.500000000, 1.648279104), (-0.500000000, 1.996111892),
    (-0.500000000, 2.513669746), (-0.500000000, 3.370726203),
    (-0.500000000, 5.076585194), (-0.500000000, 10.177733812),
    ];
    let out = run_ifft_f32(&data);
    for (i, (x, y)) in out.iter().zip(expected_data.iter()).enumerate() {
        assert!(ulps_eq_f32(x.0, y.0, 10), "re at {}: {} vs {}", i, x.0, y.0);
        assert!(ulps_eq_f32(x.1, y.1, 10), "im at {}: {} vs {}", i, x.1, y.1);
    }
}

#[test]
fn test_ifft_f64() {
    let data = ramp_f64();
    let expected_data: [(f64, f64); 64] = [
    (32.500000000000000, 0.000000000000000), (-0.500000000000000, -10.177733812493605),
    (-0.500000000000000, -5.076585193804434), (-0.500000000000000, -3.370726202707498),
    (-0.500000000000000, -2.513669746062925), (-0.500000000000000, -1.996111891885044),
    (-0.500000000000000, -1.648279104469162), (-0.500000000000000, -1.397406386245239),
    (-0.500000000000000, -1.207106781186548), (-0.500000000000000, -1.057161178774320),
    (-0.500000000000000, -0.935434205894695), (-0.500000000000000, -0.834199602791755),
    (-0.500000000000000, -0.748302881332745), (-0.500000000000000, -0.674171956743360),
    (-0.500000000000000, -0.609251762793989), (-0.500000000000000, -0.551664987866739),
    (-0.500000000000000, -0.500000000000000), (-0.500000000000000, -0.453173584509572),
    (-0.500000000000000, -0.410339395414330), (-0.500000000000000, -0.370825273136018),
    (-0.500000000000000, -0.334089318959649), (-0.500000000000000, -0.299688466840962),
    (-0.500000000000000, -0.267255567975397), (-0.500000000000000, -0.236482387945661),
    (-0.500000000000000, -0.207106781186548), (-0.500000000000000, -0.178902860657261),
    (-0.500000000000000, -0.151673341803671), (-0.500000000000000, -0.125243480095653),
    (-0.500000000000000, -0.099456183689830), (-0.500000000000000, -0.074167993769174),
    (-0.500000000000000, -0.049245701678584), (-0.500000000000000, -0.024563424884736),
    (-0.500000000000000, 0.000000000000000), (-0.500000000000000, 0.024563424884736),
    (-0.500000000000000, 0.049245701678584), (-0.500000000000000, 0.074167993769174),
    (-0.500000000000000, 0.099456183689830), (-0.500000000000000, 0.125243480095653),
    (-0.500000000000000, 0.151673341803671), (-0.500000000000000, 0.178902860657261),
    (-0.500000000000000, 0.207106781186548), (-0.500000000000000, 0.236482387945661),
    (-0.500000000000000, 0.267255567975397), (-0.500000000000000, 0.299688466840962),
    (-0.500000000000000, 0.334089318959649), (-0.500000000000000, 0.370825273136018),
    (-0.500000000000000, 0.410339395414330), (-0.500000000000000, 0.453173584509572),
    (-0.500000000000000, 0.500000000000000), (-0.500000000000000, 0.551664987866739),
    (-0.500000000000000, 0.609251762793989), (-0.500000000000000, 0.674171956743360),
    (-0.500000000000000, 0.748302881332745), (-0.500000000000000, 0.834199602791755),
    (-0.500000000000000, 0.935434205894695), (-0.500000000000000, 1.057161178774320),
    (-0.500000000000000, 1.207106781186548), (-0.500000000000000, 1.397406386245239),
    (-0.500000000000000, 1.648279104469162), (-0.500000000000000, 1.996111891885044),
    (-0.500000000000000, 2.513669746062925), (-0.500000000000000, 3.370726202707498),
    (-0.500000000000000, 5.076585193804434), (-0.500000000000000, 10.177733812493605),
    ];
    let out = run_ifft_f64(&data);
    for (i, (x, y)) in out.iter().zip(expected_data.iter()).enumerate() {
        assert!(ulps_eq_f64(x.0, y.0, 75), "re at {}: {} vs {}", i, x.0, y.0);
        assert!(ulps_eq_f64(x.1, y.1, 75), "im at {}: {} vs {}", i, x.1, y.1);
    }
}
