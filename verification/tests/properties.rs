use min_max_heap::index::HeapIndex;
use min_max_heap::MinMaxHeap;
use rand::Rng;
use std::cmp::Ordering;

/// A straightforward double-ended queue to compare against: a sorted vector.
struct Oracle(Vec<u32>);

impl Oracle {
    fn push(&mut self, element: u32) {
        let at = self.0.partition_point(|x| *x <= element);
        self.0.insert(at, element);
    }

    fn peek_min(&self) -> Option<&u32> {
        self.0.first()
    }

    fn peek_max(&self) -> Option<&u32> {
        self.0.last()
    }

    fn pop_min(&mut self) -> Option<u32> {
        if self.0.is_empty() {
            None
        } else {
            Some(self.0.remove(0))
        }
    }

    fn pop_max(&mut self) -> Option<u32> {
        self.0.pop()
    }
}

/// Whether the array is laid out as a min-max heap: every position respects
/// its parent and its grandparent.
fn is_min_max_heap(array: &[u32]) -> bool {
    (0..array.len()).all(|i| {
        let parent_ok = !i.has_parent() || {
            let p = i.parent();
            if p.is_min_level() {
                array[p] <= array[i]
            } else {
                array[p] >= array[i]
            }
        };
        let grandparent_ok = !i.has_grandparent() || {
            let g = i.grandparent();
            if g.is_min_level() {
                array[g] <= array[i]
            } else {
                array[g] >= array[i]
            }
        };
        parent_ok && grandparent_ok
    })
}

/// Going up by twos from every position, values on min levels only grow
/// smaller and values on max levels only grow greater.
fn ordered_by_twos(array: &[u32]) -> bool {
    (0..array.len()).all(|i| {
        let mut a = i;
        let mut ok = true;
        while a.has_grandparent() {
            a = a.grandparent();
            ok = ok
                && if i.is_min_level() {
                    array[a] <= array[i]
                } else {
                    array[a] >= array[i]
                };
        }
        ok
    })
}

#[test]
fn invariant_and_extrema_hold_through_a_random_script() {
    let mut rng = rand::thread_rng();
    let mut heap = MinMaxHeap::new();
    let mut oracle = Oracle(Vec::new());
    for _ in 0..3000 {
        let element: u32 = rng.gen_range(0..64);
        let before = heap.len();
        match rng.gen_range(0..9) {
            0 | 1 | 2 => {
                heap.push(element);
                oracle.push(element);
                assert_eq!(heap.len(), before + 1);
            }
            3 => {
                let popped = heap.pop_min();
                assert_eq!(popped, oracle.pop_min());
                assert_eq!(heap.len(), before - popped.is_some() as usize);
            }
            4 => {
                let popped = heap.pop_max();
                assert_eq!(popped, oracle.pop_max());
                assert_eq!(heap.len(), before - popped.is_some() as usize);
            }
            5 => {
                oracle.push(element);
                assert_eq!(Some(heap.push_pop_min(element)), oracle.pop_min());
                assert_eq!(heap.len(), before);
            }
            6 => {
                oracle.push(element);
                assert_eq!(Some(heap.push_pop_max(element)), oracle.pop_max());
                assert_eq!(heap.len(), before);
            }
            7 => {
                let expected = oracle.pop_min();
                oracle.push(element);
                assert_eq!(heap.replace_min(element), expected);
                assert_eq!(heap.len(), before.max(1));
            }
            _ => {
                let expected = oracle.pop_max();
                oracle.push(element);
                assert_eq!(heap.replace_max(element), expected);
                assert_eq!(heap.len(), before.max(1));
            }
        }
        assert_eq!(heap.peek_min(), oracle.peek_min());
        assert_eq!(heap.peek_max(), oracle.peek_max());
        assert_eq!(heap.len(), oracle.0.len());
        let array = heap.clone().into_vec();
        assert!(is_min_max_heap(&array));
        assert!(ordered_by_twos(&array));
    }
}

#[test]
fn rebuilt_vectors_are_heaps_of_the_same_elements() {
    let mut rng = rand::thread_rng();
    for len in 0..200 {
        let elements: Vec<u32> = (0..len).map(|_| rng.gen_range(0..50)).collect();
        let heap = MinMaxHeap::from(elements.clone());
        let array = heap.clone().into_vec();
        assert!(is_min_max_heap(&array));
        let mut expected = elements;
        expected.sort();
        let mut held = array;
        held.sort();
        assert_eq!(held, expected);
        assert_eq!(heap.clone().into_vec_asc(), expected);
        expected.reverse();
        assert_eq!(heap.into_vec_desc(), expected);
    }
}

#[test]
fn sorting_a_permutation_gives_the_counting_order() {
    let heap = MinMaxHeap::from(vec![4usize, 0, 3, 1, 5, 2]);
    assert_eq!(heap.clone().into_vec_asc(), vec![0, 1, 2, 3, 4, 5]);
    assert_eq!(heap.into_vec_desc(), vec![5, 4, 3, 2, 1, 0]);
}

#[test]
fn sizes_add_up() {
    let mut heap = MinMaxHeap::new();
    assert_eq!(heap.len(), 0);
    heap.push(3);
    heap.push(1);
    heap.push(2);
    assert_eq!(heap.len(), 3);
    assert_eq!(heap.pop_min(), Some(1));
    assert_eq!(heap.len(), 2);
    assert_eq!(heap.pop_max(), Some(3));
    assert_eq!(heap.len(), 1);
    assert_eq!(heap.push_pop_min(0), 0);
    assert_eq!(heap.push_pop_max(9), 9);
    assert_eq!(heap.push_pop_min(5), 2);
    assert_eq!(heap.len(), 1);
    assert_eq!(heap.replace_min(7), Some(5));
    assert_eq!(heap.replace_max(8), Some(7));
    assert_eq!(heap.len(), 1);
    assert_eq!(heap.pop_max(), Some(8));
    assert_eq!(heap.pop_max(), None);
    assert_eq!(heap.pop_min(), None);
    assert_eq!(heap.len(), 0);
}

#[test]
fn peeking_changes_nothing() {
    let heap = MinMaxHeap::from(vec![4, 8, 1, 9, 3]);
    let array = heap.clone().into_vec();
    for _ in 0..5 {
        assert_eq!(heap.peek_min(), Some(&1));
        assert_eq!(heap.peek_max(), Some(&9));
        assert_eq!(heap.len(), 5);
    }
    assert_eq!(heap.into_vec(), array);
}

#[test]
fn an_empty_heap_has_nothing_to_give() {
    let mut heap: MinMaxHeap<i32> = MinMaxHeap::new();
    assert!(heap.is_empty());
    assert_eq!(heap.peek_min(), None);
    assert_eq!(heap.peek_max(), None);
    assert_eq!(heap.pop_min(), None);
    assert_eq!(heap.pop_max(), None);
    assert!(heap.peek_min_mut().is_none());
    assert!(heap.peek_max_mut().is_none());
    assert_eq!(heap.find_max(), None);
    assert_eq!(heap.push_pop_min(4), 4);
    assert_eq!(heap.push_pop_max(4), 4);
    assert!(heap.is_empty());
    assert_eq!(heap.clone().into_vec_asc(), Vec::<i32>::new());
    assert_eq!(heap.into_vec_desc(), Vec::<i32>::new());
    let default: MinMaxHeap<i32> = MinMaxHeap::default();
    assert!(default.is_empty());
}

#[test]
fn push_pop_leaves_the_heap_alone_when_the_element_comes_back() {
    let mut heap = MinMaxHeap::from(vec![5, 3, 8, 4]);
    let array = heap.clone().into_vec();
    assert_eq!(heap.push_pop_min(2), 2);
    assert_eq!(heap.push_pop_min(3), 3);
    assert_eq!(heap.push_pop_max(8), 8);
    assert_eq!(heap.push_pop_max(11), 11);
    assert_eq!(heap.clone().into_vec(), array);
    assert_eq!(heap.push_pop_min(6), 3);
    assert_eq!(heap.push_pop_max(1), 8);
    assert_eq!(heap.into_vec_asc(), vec![1, 4, 5, 6]);
}

/// An element that is ordered by its key alone.
#[derive(Clone, Copy, Debug)]
struct Tagged {
    key: u8,
    tag: char,
}

impl PartialEq for Tagged {
    fn eq(&self, other: &Self) -> bool {
        self.key == other.key
    }
}

impl Eq for Tagged {}

impl PartialOrd for Tagged {
    fn partial_cmp(&self, other: &Self) -> Option<Ordering> {
        Some(self.cmp(other))
    }
}

impl Ord for Tagged {
    fn cmp(&self, other: &Self) -> Ordering {
        self.key.cmp(&other.key)
    }
}

#[test]
fn of_two_equal_maxima_the_second_child_is_peeked() {
    let heap = MinMaxHeap::from(vec![
        Tagged { key: 1, tag: 'a' },
        Tagged { key: 7, tag: 'b' },
        Tagged { key: 7, tag: 'c' },
    ]);
    assert_eq!(heap.find_max(), Some(2));
    assert_eq!(heap.peek_max().unwrap().tag, 'c');
    assert_eq!(heap.peek_min().unwrap().tag, 'a');
    let heap = MinMaxHeap::from(vec![
        Tagged { key: 1, tag: 'a' },
        Tagged { key: 8, tag: 'b' },
        Tagged { key: 7, tag: 'c' },
    ]);
    assert_eq!(heap.find_max(), Some(1));
    assert_eq!(heap.peek_max().unwrap().tag, 'b');
}

#[test]
fn the_maximum_stands_at_the_root_or_one_of_its_children() {
    assert_eq!(MinMaxHeap::<u8>::find_max_slice(&[]), None);
    assert_eq!(MinMaxHeap::find_max_slice(&[4]), Some(0));
    assert_eq!(MinMaxHeap::find_max_slice(&[4, 6]), Some(1));
    assert_eq!(MinMaxHeap::find_max_slice(&[4, 6, 5]), Some(1));
    assert_eq!(MinMaxHeap::find_max_slice(&[4, 5, 6, 5]), Some(2));
    assert_eq!(MinMaxHeap::find_max_slice(&[4, 6, 6]), Some(2));
}

#[test]
fn operations_lay_the_array_out_as_expected() {
    let mut heap = MinMaxHeap::new();
    heap.push(5);
    assert_eq!(heap.clone().into_vec(), vec![5]);
    heap.push(7);
    assert_eq!(heap.clone().into_vec(), vec![5, 7]);
    heap.push(6);
    assert_eq!(heap.clone().into_vec(), vec![5, 7, 6]);
    heap.push(1);
    assert_eq!(heap.clone().into_vec(), vec![1, 7, 6, 5]);
    heap.push(9);
    assert_eq!(heap.clone().into_vec(), vec![1, 9, 6, 5, 7]);
    assert_eq!(heap.pop_min(), Some(1));
    assert_eq!(heap.clone().into_vec(), vec![5, 9, 6, 7]);
    assert_eq!(heap.pop_max(), Some(9));
    assert_eq!(heap.clone().into_vec(), vec![5, 7, 6]);
    assert_eq!(heap.replace_max(2), Some(7));
    assert_eq!(heap.clone().into_vec(), vec![2, 5, 6]);
    assert_eq!(heap.replace_min(8), Some(2));
    assert_eq!(heap.clone().into_vec(), vec![5, 8, 6]);
    assert_eq!(MinMaxHeap::from(vec![6, 5, 4, 3, 2, 1]).into_vec(), vec![1, 5, 6, 3, 2, 4]);
}

#[test]
fn capacity_is_kept_track_of() {
    let mut heap: MinMaxHeap<u64> = MinMaxHeap::with_capacity(10);
    assert!(heap.is_empty());
    assert!(heap.capacity() >= 10);
    heap.push(1);
    heap.push(2);
    heap.reserve_exact(30);
    assert!(heap.capacity() >= 32);
    heap.reserve(100);
    assert!(heap.capacity() >= 102);
    assert_eq!(heap.len(), 2);
    heap.shrink_to_fit();
    assert!(heap.capacity() >= 2);
    assert!(heap.capacity() < 102);
    assert_eq!(heap.clone().into_vec_asc(), vec![1, 2]);
    heap.clear();
    assert!(heap.is_empty());
    assert_eq!(heap.peek_min(), None);
}

#[test]
fn a_guard_that_was_not_written_through_changes_nothing() {
    let mut heap = MinMaxHeap::from(vec![3, 9, 4, 6]);
    let array = heap.clone().into_vec();
    {
        let min = heap.peek_min_mut().unwrap();
        assert_eq!(*min.deref(), 3);
        assert!(!min.sift);
        min.commit();
    }
    {
        let max = heap.peek_max_mut().unwrap();
        assert_eq!(*max.deref(), 9);
        assert_eq!(max.max_index, 1);
        max.commit();
    }
    assert_eq!(heap.into_vec(), array);
}

#[test]
fn a_written_maximum_smaller_than_the_minimum_becomes_the_minimum() {
    let mut heap = MinMaxHeap::from(vec![5, 6, 7, 8, 9]);
    {
        let mut max = heap.peek_max_mut().unwrap();
        *max.deref_mut() = 1;
        max.commit();
    }
    assert_eq!(heap.peek_min(), Some(&1));
    assert_eq!(heap.peek_max(), Some(&8));
    assert_eq!(heap.into_vec_asc(), vec![1, 5, 6, 7, 8]);
}

#[test]
fn a_popped_minimum_that_was_written_is_what_was_written() {
    let mut heap = MinMaxHeap::from(vec![2, 3, 4]);
    let mut min = heap.peek_min_mut().unwrap();
    *min.deref_mut() = 10;
    assert_eq!(min.pop(), 10);
    assert_eq!(heap.into_vec_asc(), vec![3, 4]);
}
