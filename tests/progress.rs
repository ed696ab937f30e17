use playground::progress::{progress, Bounded, Progress, Unbounded};

#[test]
fn unbounded_bar_counts_items() {
    let mut p = progress(vec![1, 2].into_iter());
    let (bar, item) = p.next();
    assert_eq!(bar, "");
    assert_eq!(item, Some(1));
    let (bar, item) = p.next();
    assert_eq!(bar, "*");
    assert_eq!(item, Some(2));
    let (bar, item) = p.next();
    assert_eq!(bar, "**");
    assert_eq!(item, None);
    assert_eq!(p.state, 3);
}

#[test]
fn bounded_bar_pads_and_frames() {
    let v = vec![1, 2, 3];
    let mut p = Progress::new(v.iter()).with_bound(v.len()).with_delims(('<', '>'));
    let (bar, item) = p.next();
    assert_eq!(bar, "<   >");
    assert_eq!(item, Some(&1));
    p.next();
    p.next();
    let (bar, item) = p.next();
    assert_eq!(bar, "<***>");
    assert_eq!(item, None);
}

#[test]
fn bars_draw_directly() {
    let b = Bounded { bound: 4, delims: ('[', ']') };
    assert_eq!(b.display(1), "[*   ]");
    assert_eq!(b.display(0), "[    ]");
    assert_eq!(Unbounded.display(3), "***");
    let p = Progress::new(0..5).with_bound(5);
    assert_eq!(p.bound.delims, ('[', ']'));
    assert_eq!(p.bound.bound, 5);
}
