use tpe::kde::component::Component;
use tpe::kde::KernelDensityEstimator;
use tpe::kernel::gaussian::Gaussian;
use tpe::kernel::universal::Uniform;
use tpe::kernel::{Density, Kernel};
use tpe::iter::Triple;
use tpe::rand::Random;

#[test]
fn sample_single_component_ok() {
    let kernel = Uniform::with_bounds(-1, 1);
    let kde = KernelDensityEstimator(vec![kernel]);
    let mut rng = Random::with_seed(42);

    let sample = kde.sample(&mut rng).unwrap();
    assert!((-1..=1).contains(&sample));

    // Ensure that the estimator can be reused.
    let _ = kde.sample(&mut rng).unwrap();
}

#[test]
fn empty_kde_density_is_zero() {
    let kde = KernelDensityEstimator(Vec::<Gaussian>::new());
    assert_eq!(kde.density(0), 0);
    assert_eq!(kde.density(12345), 0);
}

#[test]
fn empty_kde_sample_is_none() {
    let kde = KernelDensityEstimator(Vec::<Gaussian>::new());
    let mut rng = Random::with_seed(1);
    assert_eq!(kde.sample(&mut rng), None);
}

#[test]
fn kde_density_is_mean_of_components() {
    let a = Gaussian {
        location: 0,
        bandwidth: 1,
    };
    let b = Gaussian {
        location: 1000,
        bandwidth: 1,
    };
    let kde = KernelDensityEstimator(vec![a, b]);
    // Far from one component, the mixture halves the other's density.
    assert_eq!(kde.density(0), (a.density(0) + b.density(0)) / 2);
    assert_eq!(kde.density(0), a.density(0) / 2);
}

#[test]
fn reservoir_sampling_is_uniform_over_components() {
    // Three disjoint one-point components reveal which one was selected.
    let components = vec![
        Uniform::with_bounds(0, 0),
        Uniform::with_bounds(10, 10),
        Uniform::with_bounds(20, 20),
    ];
    let kde = KernelDensityEstimator(components);
    let mut rng = Random::with_seed(1234);
    let n = 30_000;
    let mut counts = [0i64; 3];
    for _ in 0..n {
        match kde.sample(&mut rng).unwrap() {
            0 => counts[0] += 1,
            10 => counts[1] += 1,
            20 => counts[2] += 1,
            other => panic!("unexpected sample {other}"),
        }
    }
    for c in counts {
        assert!((c - n / 3).abs() < 500, "counts {counts:?}");
    }
}

#[test]
fn component_from_triple_ok() {
    let full: Option<Component<Gaussian>> = Component::from_triple(Triple::Full(1, 4, 9));
    let full = full.unwrap();
    assert_eq!(full.location, 4);
    assert_eq!(full.bandwidth, 5);

    let lm: Option<Component<Gaussian>> = Component::from_triple(Triple::LeftMiddle(2, 7));
    let lm = lm.unwrap();
    assert_eq!(lm.location, 7);
    assert_eq!(lm.bandwidth, 5);

    let mr: Option<Component<Gaussian>> = Component::from_triple(Triple::MiddleRight(7, 8));
    let mr = mr.unwrap();
    assert_eq!(mr.location, 7);
    assert_eq!(mr.bandwidth, 1);

    assert!(Component::<Gaussian>::from_triple(Triple::Middle(7)).is_none());
    assert!(Component::<Gaussian>::from_triple(Triple::Left(7)).is_none());
    assert!(Component::<Gaussian>::from_triple(Triple::Right(7)).is_none());
}

#[test]
fn component_new_spans_range() {
    let component = Component::new(-100, 100);
    assert_eq!(component.location, 0);
    // 200 / (2 sqrt(3)) is about 57.7, rounded down.
    assert_eq!(component.bandwidth, 57);
    assert!(component.density(0) > 0);
}
