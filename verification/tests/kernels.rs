use tpe::constants::FP_ONE;
use tpe::kernel::epanechnikov::{min_2, Epanechnikov};
use tpe::kernel::gaussian::Gaussian;
use tpe::kernel::uniform::Uniform;
use tpe::kernel::universal;
use tpe::kernel::{Density, Kernel, Sample};
use tpe::rand::Random;

fn to_f64(density: u64) -> f64 {
    density as f64 / FP_ONE as f64
}

#[test]
fn gaussian_density_ok() {
    let kernel = Gaussian {
        location: 0,
        bandwidth: 1,
    };
    assert!((to_f64(kernel.density(0)) - 0.398_942_280_401_432_7).abs() < 1e-9);
    assert!((to_f64(kernel.density(1)) - 0.241_970_724_519_143_37).abs() < 1e-9);
    assert!((to_f64(kernel.density(-1)) - 0.241_970_724_519_143_37).abs() < 1e-9);
}

#[test]
fn gaussian_density_is_symmetric() {
    // The two flanks agree exactly, not merely within a tolerance.
    let kernel = Gaussian {
        location: 17,
        bandwidth: 3,
    };
    for d in 0..20i64 {
        assert_eq!(kernel.density(17 + d), kernel.density(17 - d));
    }
}

#[test]
fn gaussian_density_scales_with_bandwidth() {
    let wide = Gaussian {
        location: 0,
        bandwidth: 100,
    };
    assert!((to_f64(wide.density(0)) - 0.003_989_422_8).abs() < 1e-6);
    assert!((to_f64(wide.density(100)) - 0.002_419_707_2).abs() < 1e-6);
}

#[test]
fn epanechnikov_density_inside_ok() {
    let kernel = Epanechnikov {
        location: 0,
        bandwidth: 1000,
    };
    // The peak carries 3 / (4 sqrt(5)) per bandwidth.
    assert!((to_f64(kernel.density(0)) * 1000.0 - 0.335_410_196_624_968_46).abs() < 1e-5);
    assert_eq!(kernel.density(500), kernel.density(-500));
    assert!(kernel.density(500) < kernel.density(0));
}

#[test]
fn epanechnikov_density_outside_ok() {
    let kernel = Epanechnikov {
        location: 0,
        bandwidth: 1,
    };
    assert_eq!(kernel.density(-10), 0);
    assert_eq!(kernel.density(10), 0);
}

#[test]
fn epanechnikov_min_2_ok() {
    assert_eq!(min_2(1, 2, 3), (1, 2));
    assert_eq!(min_2(1, 3, 2), (1, 2));
    assert_eq!(min_2(2, 1, 3), (1, 2));
    assert_eq!(min_2(2, 3, 1), (2, 1));
    assert_eq!(min_2(3, 1, 2), (1, 2));
    assert_eq!(min_2(3, 2, 1), (2, 1));
}

#[test]
fn uniform_density_integrates_to_one() {
    // Summing the constant density over every integer point of the support
    // approximates the continuous box of unit mass.
    let bandwidth = 1000i64;
    let kernel = Uniform {
        location: 0,
        bandwidth,
    };
    let mut sum: u64 = 0;
    for at in -2000..=2000i64 {
        sum += kernel.density(at);
    }
    assert!((sum as f64 / FP_ONE as f64 - 1.0).abs() < 1e-2);
}

#[test]
fn uniform_density_is_zero_outside_support() {
    let kernel = Uniform {
        location: 0,
        bandwidth: 1000,
    };
    // The support is location plus or minus sqrt(3) bandwidths.
    assert!(kernel.density(1732) > 0);
    assert_eq!(kernel.density(1733), 0);
    assert!(kernel.density(-1732) > 0);
    assert_eq!(kernel.density(-1733), 0);
}

#[test]
fn uniform_new_ok() {
    let kernel = Uniform::new(7, 250);
    assert_eq!(kernel.location, 7);
    assert_eq!(kernel.bandwidth, 250);
    assert!(kernel.density(7) > 0);
}

#[test]
fn uniform_sample_stays_in_support() {
    let kernel = Uniform {
        location: 100,
        bandwidth: 50,
    };
    let mut rng = Random::with_seed(7);
    for _ in 0..1000 {
        let s = kernel.sample(&mut rng);
        // sqrt(3) * 50 rounds down to 86, the bound the contract states.
        assert!((100 - 86..=100 + 86).contains(&s));
    }
}

#[test]
fn epanechnikov_sample_stays_in_support() {
    let kernel = Epanechnikov {
        location: 0,
        bandwidth: 100,
    };
    let mut rng = Random::with_seed(21);
    for _ in 0..1000 {
        let s = kernel.sample(&mut rng);
        // sqrt(5) * 100 rounds down to 223, the bound the contract states.
        assert!((-223..=223).contains(&s));
    }
}

#[test]
fn gaussian_sample_concentrates_near_location() {
    let kernel = Gaussian {
        location: 0,
        bandwidth: 10,
    };
    let mut rng = Random::with_seed(11);
    let n = 10_000;
    let mut sum: i64 = 0;
    let mut within_three_sigma = 0;
    for _ in 0..n {
        let s = kernel.sample(&mut rng);
        sum += s;
        if s.abs() <= 30 {
            within_three_sigma += 1;
        }
    }
    let mean = sum as f64 / n as f64;
    assert!(mean.abs() < 1.0);
    assert!(within_three_sigma as f64 / n as f64 > 0.99);
}

#[test]
fn universal_uniform_density_and_sample_ok() {
    let kernel = universal::Uniform::with_bounds(-5, 4);
    // Ten points share the unit mass.
    assert_eq!(kernel.density(0), FP_ONE / 10);
    assert_eq!(kernel.density(-5), FP_ONE / 10);
    assert_eq!(kernel.density(5), 0);
    assert_eq!(kernel.density(-6), 0);
    let mut rng = Random::with_seed(3);
    for _ in 0..100 {
        let s = kernel.sample(&mut rng);
        assert!((-5..=4).contains(&s));
    }
}
