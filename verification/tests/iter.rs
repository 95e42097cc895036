use tpe::iter::{range_inclusive, range_step_from, Triple, Triples};
use tpe::iter::Triple::{Full, Left, LeftMiddle, Middle, MiddleRight, Right};

#[test]
fn range_step_from_ok() {
    let mut it = range_step_from(1, 2);
    let mut taken: Vec<i64> = Vec::new();
    for _ in 0..5 {
        taken.push(it.next());
    }
    assert_eq!(taken, [1, 3, 5, 7, 9]);
}

#[test]
fn range_inclusive_ok() {
    assert_eq!(range_inclusive(1, 5), [1, 2, 3, 4, 5]);
}

#[test]
fn triples_from_empty_ok() {
    let mut windows = Triples::new(Vec::<i64>::new());
    assert_eq!(windows.collect(), []);
}

#[test]
fn triples_from_one_ok() {
    let mut windows = Triples::new(vec![1i64]);
    assert_eq!(windows.collect(), [Right(1), Middle(1), Left(1)]);
}

#[test]
fn triples_from_two_ok() {
    let mut windows = Triples::new(vec![1i64, 2]);
    assert_eq!(
        windows.collect(),
        [Right(1), MiddleRight(1, 2), LeftMiddle(1, 2), Left(2)]
    );
}

#[test]
fn triples_from_three_ok() {
    let mut windows = Triples::new(vec![1i64, 2, 3]);
    assert_eq!(
        windows.collect(),
        [
            Right(1),
            MiddleRight(1, 2),
            Full(1, 2, 3),
            LeftMiddle(2, 3),
            Left(3)
        ]
    );
}

#[test]
fn triples_next_is_restartable() {
    let mut windows = Triples::new(vec![4i64, 7]);
    assert_eq!(windows.next(), Some(Triple::Right(4)));
    assert_eq!(windows.next(), Some(Triple::MiddleRight(4, 7)));
    assert_eq!(windows.next(), Some(Triple::LeftMiddle(4, 7)));
    assert_eq!(windows.next(), Some(Triple::Left(7)));
    assert_eq!(windows.next(), None);
    assert_eq!(windows.next(), None);
}
