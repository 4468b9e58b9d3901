use min_max_heap::hole::{Hole, HoleSwap};

#[test]
fn a_new_element_walks_up_past_its_parent_and_grandparent() {
    let mut v = vec![1, 9, 8, 2, 3, 4, 5, 0];
    Hole::new(&mut v, 7).bubble_up();
    assert_eq!(v, vec![0, 9, 8, 1, 3, 4, 5, 2]);
}

#[test]
fn a_new_element_that_is_in_place_stays() {
    let mut v = vec![1, 9, 8, 2, 3, 4, 5, 6];
    Hole::new(&mut v, 7).bubble_up();
    assert_eq!(v, vec![1, 9, 8, 2, 3, 4, 5, 6]);
}

#[test]
fn a_new_greatest_element_walks_up_the_max_levels() {
    let mut v = vec![1, 9, 8, 2, 3, 4, 5, 6, 7, 4, 4, 6, 6, 6, 6, 20];
    Hole::new(&mut v, 15).bubble_up();
    assert_eq!(v, vec![1, 20, 8, 2, 3, 4, 5, 9, 7, 4, 4, 6, 6, 6, 6, 6]);
}

#[test]
fn a_new_root_walks_down_to_a_grandchild() {
    let mut v = vec![6, 9, 8, 2, 3, 4, 5];
    Hole::new(&mut v, 0).trickle_down_min();
    assert_eq!(v, vec![2, 9, 8, 6, 3, 4, 5]);
}

#[test]
fn a_new_root_greater_than_a_parent_on_its_way_changes_places_with_it() {
    let mut v = vec![10, 9, 8, 2, 3, 4, 5];
    Hole::new(&mut v, 0).trickle_down();
    assert_eq!(v, vec![2, 10, 8, 9, 3, 4, 5]);
}

#[test]
fn the_walk_down_ends_at_a_child_that_holds_the_best() {
    let mut v = vec![7, 3, 9];
    Hole::new(&mut v, 0).trickle_down_min();
    assert_eq!(v, vec![3, 7, 9]);
    let mut v = vec![1, 4, 9, 8, 2];
    Hole::new(&mut v, 1).trickle_down_max();
    assert_eq!(v, vec![1, 8, 9, 4, 2]);
}

/// An element that is ordered by its key alone.
#[derive(Clone, Copy, Debug)]
struct Keyed(u8, char);

impl PartialEq for Keyed {
    fn eq(&self, other: &Self) -> bool {
        self.0 == other.0
    }
}

impl Eq for Keyed {}

impl PartialOrd for Keyed {
    fn partial_cmp(&self, other: &Self) -> Option<std::cmp::Ordering> {
        Some(self.cmp(other))
    }
}

impl Ord for Keyed {
    fn cmp(&self, other: &Self) -> std::cmp::Ordering {
        self.0.cmp(&other.0)
    }
}

#[test]
fn of_equal_candidates_the_first_is_taken() {
    let mut v = vec![
        Keyed(5, 'x'),
        Keyed(9, 'a'),
        Keyed(9, 'b'),
        Keyed(1, 'c'),
        Keyed(1, 'd'),
        Keyed(1, 'e'),
        Keyed(1, 'f'),
    ];
    Hole::new(&mut v, 0).trickle_down_min();
    let tags: Vec<char> = v.iter().map(|k| k.1).collect();
    assert_eq!(tags, vec!['c', 'a', 'b', 'x', 'd', 'e', 'f']);

    let mut v = vec![Keyed(5, 'x'), Keyed(2, 'a'), Keyed(2, 'b')];
    Hole::new(&mut v, 0).trickle_down_min();
    let tags: Vec<char> = v.iter().map(|k| k.1).collect();
    assert_eq!(tags, vec!['a', 'x', 'b']);
}

#[test]
fn a_walk_down_from_a_leaf_changes_nothing() {
    let mut v = vec![3, 8, 9, 4];
    Hole::new(&mut v, 3).trickle_down();
    assert_eq!(v, vec![3, 8, 9, 4]);
    let mut v = vec![3];
    Hole::new(&mut v, 0).trickle_down_max();
    assert_eq!(v, vec![3]);
    Hole::new(&mut v, 0).bubble_up();
    assert_eq!(v, vec![3]);
}

#[test]
fn a_hole_tells_its_level_and_its_neighbours() {
    let mut v = vec![0, 1, 2, 3, 4, 5];
    let mut h = Hole::new(&mut v, 4);
    assert!(h.on_min_level());
    {
        let parent = h.get_parent().unwrap();
        assert_eq!(parent.index, 1);
        assert_eq!(*parent.hole_element(), 4);
        assert_eq!(*parent.other_element(), 1);
    }
    {
        let mut grandparent = h.get_grandparent().unwrap();
        assert_eq!(grandparent.index, 0);
        grandparent.swap_with();
        assert_eq!(*grandparent.hole_element(), 0);
        assert_eq!(*grandparent.other_element(), 4);
    }
    assert_eq!(h.pos(), 4);
    HoleSwap::new(&mut h, 1).move_to();
    assert_eq!(h.pos(), 1);
    assert!(!h.on_min_level());
    assert!(h.get_grandparent().is_none());
    HoleSwap::new(&mut h, 0).move_to();
    assert!(h.get_parent().is_none());
    assert_eq!(v, vec![0, 4, 2, 3, 1, 5]);
}
