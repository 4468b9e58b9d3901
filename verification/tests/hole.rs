use min_max_heap::hole::{Hole, HoleSwap};

#[test]
fn hole() {
    let mut v = vec![0, 1, 2, 3, 4, 5];
    {
        let mut h = Hole::new(&mut v, 1);

        assert_eq!(1, h.pos());
        assert_eq!(1, *h.element());
        assert_eq!(2, h.data[2]);

        HoleSwap::new(&mut h, 4).move_to();

        assert_eq!(4, h.pos());
        assert_eq!(1, *h.element());
        assert_eq!(4, h.data[1]);
        assert_eq!(2, h.data[2]);
    }

    assert_eq!(vec![0, 4, 2, 3, 1, 5], v);
}
