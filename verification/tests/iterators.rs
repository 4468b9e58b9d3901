use min_max_heap::MinMaxHeap;

#[test]
fn drain_desc() {
    let mut h = MinMaxHeap::from(vec![3, 2, 4, 1]);
    let mut i = h.drain_desc();
    assert_eq!(i.len(), 4);
    assert_eq!(i.size_hint(), (4, Some(4)));
    assert_eq!(i.next(), Some(4));
    assert_eq!(i.next(), Some(3));
    assert_eq!(i.next_back(), Some(1));
    assert_eq!(i.len(), 1);
    assert_eq!(i.next(), Some(2));
    assert_eq!(i.next(), None);
    assert_eq!(i.next_back(), None);
}

#[test]
fn drain_asc_from_both_ends() {
    let mut h = MinMaxHeap::from(vec![3, 2, 4, 1, 5]);
    {
        let mut i = h.drain_asc();
        assert_eq!(i.size_hint(), (5, Some(5)));
        assert_eq!(i.next(), Some(1));
        assert_eq!(i.next_back(), Some(5));
        assert_eq!(i.next_back(), Some(4));
        assert_eq!(i.len(), 2);
        i.finish();
    }
    assert!(h.is_empty());
}

#[test]
fn iterators_go_through_the_array_in_order() {
    let mut h = MinMaxHeap::from(vec![6, 5, 4, 3, 2, 1]);
    let array = h.clone().into_vec();
    assert_eq!(array, vec![1, 5, 6, 3, 2, 4]);

    let mut seen = Vec::new();
    let mut iter = h.iter();
    assert_eq!(iter.size_hint(), (6, Some(6)));
    while let Some(x) = iter.next() {
        seen.push(*x);
    }
    assert_eq!(iter.size_hint(), (0, Some(0)));
    assert_eq!(iter.next(), None);
    assert_eq!(seen, array);

    let mut seen = Vec::new();
    let mut into_iter = h.clone().into_iter();
    assert_eq!(into_iter.size_hint(), (6, Some(6)));
    while let Some(x) = into_iter.next() {
        seen.push(x);
    }
    assert_eq!(seen, array);

    let mut seen = Vec::new();
    {
        let mut drain = h.drain();
        assert_eq!(drain.next(), Some(1));
        assert_eq!(drain.size_hint(), (5, Some(5)));
        while let Some(x) = drain.next() {
            seen.push(x);
        }
        drain.finish();
    }
    assert_eq!(seen, vec![5, 6, 3, 2, 4]);
    assert!(h.is_empty());
}

#[test]
fn a_drain_that_is_ended_early_leaves_the_heap_empty() {
    let mut h = MinMaxHeap::from(vec![1, 2, 3]);
    {
        let mut drain = h.drain();
        assert_eq!(drain.next(), Some(1));
        drain.finish();
    }
    assert!(h.is_empty());
    h.push(4);
    assert_eq!(h.peek_max(), Some(&4));
}
