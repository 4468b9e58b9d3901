use min_max_heap::MinMaxHeap;
use rand::seq::SliceRandom;

#[test]
fn example() {
    let mut h = MinMaxHeap::new();
    assert!(h.is_empty());

    h.push(5);
    assert!(!h.is_empty());
    assert_eq!(Some(&5), h.peek_min());
    assert_eq!(Some(&5), h.peek_max());

    h.push(7);
    assert_eq!(Some(&5), h.peek_min());
    assert_eq!(Some(&7), h.peek_max());

    h.push(6);
    assert_eq!(Some(&5), h.peek_min());
    assert_eq!(Some(&7), h.peek_max());

    assert_eq!(Some(5), h.pop_min());
    assert_eq!(Some(7), h.pop_max());
    assert_eq!(Some(6), h.pop_max());
    assert_eq!(None, h.pop_min());
}

#[test]
fn drain_asc() {
    let mut h = MinMaxHeap::from(vec![3, 2, 4, 1]);
    let mut i = h.drain_asc();
    assert_eq!(i.next(), Some(1));
    assert_eq!(i.next(), Some(2));
    assert_eq!(i.next(), Some(3));
    assert_eq!(i.next(), Some(4));
    assert_eq!(i.next(), None);
}

// This test catches a lot:
#[test]
fn random_vectors() {
    for i in 0..300 {
        check_heap(&random_heap(i));
    }
}

#[test]
fn from_vector() {
    for i in 0..300 {
        check_heap(&MinMaxHeap::from(random_vec(i)))
    }
}

fn check_heap(heap: &MinMaxHeap<usize>) {
    let asc = iota_asc(heap.len());
    let desc = iota_desc(heap.len());

    assert_eq!(asc, into_vec_asc(heap.clone()));
    assert_eq!(desc, into_vec_desc(heap.clone()));
    assert_eq!(asc, heap.clone().into_vec_asc());
    assert_eq!(desc, heap.clone().into_vec_desc());
}

fn random_vec(len: usize) -> Vec<usize> {
    let mut result = (0..len).collect::<Vec<_>>();
    result.shuffle(&mut rand::thread_rng());
    result
}

fn random_heap(len: usize) -> MinMaxHeap<usize> {
    let mut result = MinMaxHeap::new();
    for elem in random_vec(len) {
        result.push(elem);
    }
    result
}

fn into_vec_asc(mut heap: MinMaxHeap<usize>) -> Vec<usize> {
    let mut result = Vec::with_capacity(heap.len());
    while let Some(elem) = heap.pop_min() {
        result.push(elem)
    }
    result
}

fn into_vec_desc(mut heap: MinMaxHeap<usize>) -> Vec<usize> {
    let mut result = Vec::with_capacity(heap.len());
    while let Some(elem) = heap.pop_max() {
        result.push(elem)
    }
    result
}

fn iota_asc(len: usize) -> Vec<usize> {
    (0..len).collect()
}

fn iota_desc(len: usize) -> Vec<usize> {
    let mut result = (0..len).collect::<Vec<_>>();
    result.reverse();
    result
}

#[test]
fn replace_min() {
    let mut h = MinMaxHeap::from(vec![1, 2]);
    assert_eq!(Some(1), h.replace_min(0));
    assert_eq!(Some(&0), h.peek_min());
    assert_eq!(Some(&2), h.peek_max());

    assert_eq!(Some(0), h.replace_min(3));
    assert_eq!(Some(&2), h.peek_min());
    assert_eq!(Some(&3), h.peek_max());
}

#[test]
fn replace_min_edge_cases() {
    let mut empty_heap = MinMaxHeap::new();
    assert_eq!(None, empty_heap.replace_min(1));
    assert_eq!(Some(1), empty_heap.pop_min());
    assert_eq!(None, empty_heap.pop_min());

    let mut one_element_heap = MinMaxHeap::from(vec![2]);
    assert_eq!(Some(2), one_element_heap.replace_min(1));
    assert_eq!(Some(1), one_element_heap.pop_min());
    assert_eq!(None, one_element_heap.pop_min());
}

#[test]
fn replace_max() {
    let mut h = MinMaxHeap::from(vec![1, 2]);
    assert_eq!(Some(2), h.replace_max(3));
    assert_eq!(Some(&1), h.peek_min());
    assert_eq!(Some(&3), h.peek_max());

    assert_eq!(Some(3), h.replace_max(0));
    assert_eq!(Some(&0), h.peek_min());
    assert_eq!(Some(&1), h.peek_max());
}

#[test]
fn replace_max_edge_cases() {
    let mut empty_heap = MinMaxHeap::new();
    assert_eq!(None, empty_heap.replace_max(1));
    assert_eq!(Some(1), empty_heap.pop_max());
    assert_eq!(None, empty_heap.pop_max());

    let mut one_element_heap = MinMaxHeap::from(vec![1]);
    assert_eq!(Some(1), one_element_heap.replace_max(2));
    assert_eq!(Some(2), one_element_heap.pop_max());
    assert_eq!(None, one_element_heap.pop_max());
}

#[test]
fn peek_min_mut() {
    let mut h = MinMaxHeap::from(vec![2, 3, 4]);
    {
        let mut min = h.peek_min_mut().unwrap();
        *min.deref_mut() = 1;
        min.commit();
    }
    assert_eq!(Some(&1), h.peek_min());
    assert_eq!(Some(&4), h.peek_max());

    {
        let mut min = h.peek_min_mut().unwrap();
        *min.deref_mut() = 8;
        min.commit();
    }
    assert_eq!(Some(&3), h.peek_min());
    assert_eq!(Some(&8), h.peek_max());

    assert_eq!(3, h.peek_min_mut().unwrap().pop());
    assert_eq!(Some(&4), h.peek_min());
    assert_eq!(Some(&8), h.peek_max());
}

#[test]
fn peek_max_mut() {
    let mut h = MinMaxHeap::from(vec![1, 2]);
    {
        let mut max = h.peek_max_mut().unwrap();
        *max.deref_mut() = 3;
        max.commit();
    }
    assert_eq!(Some(&1), h.peek_min());
    assert_eq!(Some(&3), h.peek_max());

    {
        let mut max = h.peek_max_mut().unwrap();
        *max.deref_mut() = 0;
        max.commit();
    }
    assert_eq!(Some(&0), h.peek_min());
    assert_eq!(Some(&1), h.peek_max());

    assert_eq!(1, h.peek_max_mut().unwrap().pop());
    assert_eq!(Some(&0), h.peek_min());
    assert_eq!(Some(&0), h.peek_max());
}

#[test]
fn peek_max_mut_one() {
    let mut h = MinMaxHeap::from(vec![1]);
    {
        let mut max = h.peek_max_mut().unwrap();
        assert_eq!(*max.deref(), 1);
        *max.deref_mut() = 2;
        max.commit();
    }
    assert_eq!(h.peek_max(), Some(&2));
}

#[test]
fn push_pop_max() {
    let mut h = MinMaxHeap::from(vec![1, 2]);
    assert_eq!(3, h.push_pop_max(3));
    assert_eq!(2, h.push_pop_max(0));
    assert_eq!(Some(&0), h.peek_min());
    assert_eq!(Some(&1), h.peek_max());
}

#[test]
fn peek_mut_format() {
    let mut h = MinMaxHeap::from(vec![1, 2, 3]);
    assert_eq!("PeekMinMut(1)", h.peek_min_mut().unwrap().debug_string());
    assert_eq!("PeekMaxMut(3)", h.peek_max_mut().unwrap().debug_string());
}

#[test]
fn random_20211219() {
    let mut h = MinMaxHeap::<usize>::new();

    // 0
    assert_eq!(h.replace_max(0), None);
    assert_eq!(h.len(), 1);

    // 0 1
    h.push(1);
    assert_eq!(h.len(), 2);
    assert_eq!(h.peek_min(), Some(&0));
    assert_eq!(h.peek_max(), Some(&1));

    // 0 0 1
    h.push(0);
    assert_eq!(h.len(), 3);
    assert_eq!(h.peek_min(), Some(&0));
    assert_eq!(h.peek_max(), Some(&1));

    // 0 0 1 1
    h.push(1);
    assert_eq!(h.len(), 4);
    assert_eq!(h.peek_min(), Some(&0));
    assert_eq!(h.peek_max(), Some(&1));

    // 0 0 0 1
    assert_eq!(h.replace_max(0), Some(1));
    assert_eq!(h.len(), 4);
    assert_eq!(h.peek_min(), Some(&0));
    assert_eq!(h.peek_max(), Some(&1));

    assert_eq!(h.into_vec_asc(), vec![0, 0, 0, 1]);
}
