use tuner::smoothing::RecentWindow;

#[test]
fn window_keeps_the_most_recent_values() {
    let mut window = RecentWindow::new(3);
    assert!(window.is_empty());
    for value in [110.0_f32, 110.5, 180.0] {
        window.push(value);
    }
    assert!(window.is_full());
    window.push(82.41);
    assert_eq!(window.len(), 3);
    assert_eq!(window.values().iter().copied().collect::<Vec<_>>(), vec![110.5, 180.0, 82.41]);
}

#[test]
fn window_of_zero_capacity_holds_one_value() {
    let mut window = RecentWindow::new(0);
    window.push(1u8);
    assert!(window.is_full());
    window.push(2);
    assert_eq!(window.values().iter().copied().collect::<Vec<_>>(), vec![2]);
}

#[test]
fn window_fills_before_it_is_full_and_clears() {
    let mut window = RecentWindow::new(3);
    window.push(110.0_f32);
    window.push(110.1);
    assert!(!window.is_full());
    window.clear();
    assert!(window.is_empty());
    assert!(!window.is_full());
}
