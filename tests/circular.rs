use softbody::circular::CircularWindowsExt;

#[test]
fn three_elements_pair_around() {
    let v = [1, 2, 3];
    let mut w = v[..].circular_windows();
    assert_eq!(w.next(), Some((&1, &2)));
    assert_eq!(w.next(), Some((&2, &3)));
    assert_eq!(w.next(), Some((&3, &1)));
    assert_eq!(w.next(), None);
    assert_eq!(w.next(), None);
}

#[test]
fn empty_slice_gives_nothing() {
    let v: Vec<u32> = Vec::new();
    let mut w = v[..].circular_windows();
    assert_eq!(w.next(), None);
}

#[test]
fn single_element_pairs_with_itself() {
    let v = vec!["a"];
    let mut w = v[..].circular_windows();
    assert_eq!(w.next(), Some((&"a", &"a")));
    assert_eq!(w.next(), None);
}
