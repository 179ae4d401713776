use softbody::slots::pair_mut;

#[test]
fn writes_land_in_both_slots_lower_first() {
    let mut v = vec![1, 2, 3, 4];
    {
        let (a, b) = pair_mut(&mut v, 1, 3);
        assert_eq!((*a, *b), (2, 4));
        *a = 20;
        *b = 40;
    }
    assert_eq!(v, vec![1, 20, 3, 40]);
}

#[test]
fn writes_land_in_both_slots_higher_first() {
    let mut v = vec![1, 2, 3, 4];
    {
        let (a, b) = pair_mut(&mut v, 3, 0);
        assert_eq!((*a, *b), (4, 1));
        std::mem::swap(a, b);
    }
    assert_eq!(v, vec![4, 2, 3, 1]);
}

#[test]
fn adjacent_slots() {
    let mut v = vec![5, 6];
    {
        let (a, b) = pair_mut(&mut v, 0, 1);
        *a += 1;
        *b -= 1;
    }
    assert_eq!(v, vec![6, 5]);
}
