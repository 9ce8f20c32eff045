use alkahest::buffer::Sizes;
use alkahest::size::{max_size, sum_size};

#[test]
fn sum_of_bounded_sizes_adds() {
    assert_eq!(sum_size(Some(3), Some(4)), Some(7));
    assert_eq!(sum_size(Some(0), Some(0)), Some(0));
}

#[test]
fn sum_with_unbounded_is_unbounded() {
    assert_eq!(sum_size(None, Some(4)), None);
    assert_eq!(sum_size(Some(4), None), None);
    assert_eq!(sum_size(None, None), None);
}

#[test]
fn sum_that_overflows_is_unbounded() {
    assert_eq!(sum_size(Some(usize::MAX), Some(1)), None);
    assert_eq!(sum_size(Some(usize::MAX), Some(0)), Some(usize::MAX));
}

#[test]
fn max_of_bounded_sizes_is_the_larger() {
    assert_eq!(max_size(Some(3), Some(4)), Some(4));
    assert_eq!(max_size(Some(9), Some(4)), Some(9));
    assert_eq!(max_size(Some(5), Some(5)), Some(5));
}

#[test]
fn max_with_unbounded_is_unbounded() {
    assert_eq!(max_size(None, Some(4)), None);
    assert_eq!(max_size(Some(4), None), None);
}

#[test]
fn sum_and_max_are_commutative_and_associative_on_samples() {
    let samples = [None, Some(0), Some(1), Some(7), Some(usize::MAX - 1), Some(usize::MAX)];
    for a in samples {
        for b in samples {
            assert_eq!(sum_size(a, b), sum_size(b, a));
            assert_eq!(max_size(a, b), max_size(b, a));
            for c in samples {
                assert_eq!(sum_size(sum_size(a, b), c), sum_size(a, sum_size(b, c)));
                assert_eq!(max_size(max_size(a, b), c), max_size(a, max_size(b, c)));
            }
        }
    }
}

#[test]
fn sizes_move_stack_to_heap() {
    let mut sizes = Sizes { heap: 10, stack: 7 };
    let moved = sizes.to_heap(2);
    assert_eq!(moved, 5);
    assert_eq!(sizes, Sizes { heap: 15, stack: 2 });
    sizes.add_stack(16);
    assert_eq!(sizes, Sizes { heap: 15, stack: 18 });
    assert_eq!(Sizes::with_stack(3), Sizes { heap: 0, stack: 3 });
    assert_eq!(Sizes::zero(), Sizes { heap: 0, stack: 0 });
}
