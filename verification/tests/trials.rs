use tpe::trial::{Trial, Trials};

#[test]
fn ordering_ok() {
    assert!(
        Trial {
            metric: 42,
            parameter: 1,
        } < Trial {
            metric: 43,
            parameter: 0,
        }
    );
}

#[test]
fn trials_ok() {
    let mut trials = Trials::new();

    assert!(trials.insert(Trial {
        metric: 42,
        parameter: 1,
    }));
    assert_eq!(trials.len(), 1);
    assert_eq!(trials.iter_parameters(), [1]);

    assert!(trials.insert(Trial {
        metric: 41,
        parameter: 2,
    }));
    assert_eq!(trials.len(), 2);
    assert_eq!(trials.iter_parameters(), [1, 2]);

    assert!(!trials.insert(Trial {
        metric: 41,
        parameter: 2,
    }));

    assert_eq!(
        trials.pop_worst(),
        Some(Trial {
            metric: 42,
            parameter: 1
        })
    );
    assert_eq!(trials.len(), 1);
    assert_eq!(trials.iter_parameters(), [2]);
}

#[test]
fn best_and_worst_ok() {
    let mut trials = Trials::new();
    assert!(trials.best().is_none());
    assert!(trials.worst().is_none());
    assert!(trials.pop_best().is_none());

    assert!(trials.insert(Trial {
        metric: 10,
        parameter: 5,
    }));
    assert!(trials.insert(Trial {
        metric: 7,
        parameter: 9,
    }));
    assert!(trials.insert(Trial {
        metric: 12,
        parameter: 1,
    }));

    assert_eq!(
        trials.best(),
        Some(&Trial {
            metric: 7,
            parameter: 9
        })
    );
    assert_eq!(
        trials.worst(),
        Some(&Trial {
            metric: 12,
            parameter: 1
        })
    );
    assert!(trials.contains(9));
    assert!(!trials.contains(2));

    assert_eq!(
        trials.pop_best(),
        Some(Trial {
            metric: 7,
            parameter: 9
        })
    );
    assert_eq!(trials.iter_parameters(), [1, 5]);
}

#[test]
fn equal_metrics_break_ties_by_parameter() {
    let mut trials = Trials::new();
    assert!(trials.insert(Trial {
        metric: 5,
        parameter: 30,
    }));
    assert!(trials.insert(Trial {
        metric: 5,
        parameter: 10,
    }));
    assert_eq!(
        trials.best(),
        Some(&Trial {
            metric: 5,
            parameter: 10
        })
    );
    assert_eq!(
        trials.worst(),
        Some(&Trial {
            metric: 5,
            parameter: 30
        })
    );
}
