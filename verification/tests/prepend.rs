use cyntax::prepend::PrependingPeekableIterator;

fn make_iter() -> PrependingPeekableIterator<i32> {
    PrependingPeekableIterator::new(vec![10, 20, 30, 40])
}

#[test]
fn test_peek_nth_within_queue_only() {
    let mut it = make_iter();
    it.prepend(2);
    it.prepend(1); // Queue now: [1, 2]

    assert_eq!(it.peek_nth(0), Some(&1));
    assert_eq!(it.peek_nth(1), Some(&2));
}

#[test]
fn test_peek_nth_across_queue_and_inner() {
    let mut it = make_iter();
    it.prepend(5); // Queue: [5]

    assert_eq!(it.peek_nth(0), Some(&5));
    assert_eq!(it.peek_nth(1), Some(&10));
    assert_eq!(it.peek_nth(2), Some(&20));
}

#[test]
fn test_peek_nth_only_inner() {
    let it = make_iter();

    assert_eq!(it.peek_nth(0), Some(&10));
    assert_eq!(it.peek_nth(1), Some(&20));
    assert_eq!(it.peek_nth(3), Some(&40));
}

#[test]
fn test_peek_nth_out_of_bounds() {
    let mut it = make_iter();
    it.prepend(1);
    it.prepend(2); // Queue: [2, 1], inner: [10, 20, 30, 40]

    assert_eq!(it.peek_nth(5), Some(&40));
    assert_eq!(it.peek_nth(6), None);
}

#[test]
fn test_peek_nth_does_not_consume() {
    let mut it = make_iter();

    assert_eq!(it.peek_nth(1), Some(&20));
    assert_eq!(it.next(), Some(10));
}

#[test]
fn test_peek_nth_after_partial_consumption() {
    let mut it = make_iter();
    it.next();

    assert_eq!(it.peek_nth(0), Some(&20));
    assert_eq!(it.peek_nth(2), Some(&40));
    assert_eq!(it.peek_nth(3), None);
}

#[test]
fn test_peek_nth_after_prepend_extend() {
    let mut it = make_iter();
    it.prepend_extend(vec![7, 8, 9]); // Queue: [7, 8, 9]

    assert_eq!(it.peek_nth(0), Some(&7));
    assert_eq!(it.peek_nth(2), Some(&9));
    assert_eq!(it.peek_nth(3), Some(&10));
}

#[test]
fn prepend_then_next_gives_prepended_first() {
    let mut it = make_iter();
    it.prepend(3);
    assert_eq!(it.next(), Some(3));
    assert_eq!(it.next(), Some(10));
    assert_eq!(it.peek(), Some(&20));
}

#[test]
fn prepend_extend_reports_count() {
    let mut it = make_iter();
    assert_eq!(it.prepend_extend(vec![1, 2]), 2);
    assert_eq!(it.next(), Some(1));
    assert_eq!(it.next(), Some(2));
    assert_eq!(it.next(), Some(10));
}

#[test]
fn exhausted_iterator_gives_none() {
    let mut it = PrependingPeekableIterator::new(vec![1]);
    assert_eq!(it.next(), Some(1));
    assert_eq!(it.next(), None);
    assert_eq!(it.peek(), None);
}
