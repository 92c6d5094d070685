use editor_shell::sidebar::{
    SidebarLayout, INITIAL_SIDEBAR_WIDTH, MAX_SIDEBAR_WIDTH, MIN_SIDEBAR_WIDTH,
};

#[test]
fn sidebar_starts_at_its_initial_width() {
    let layout = SidebarLayout::new();
    assert_eq!(layout.width(), 200);
    assert_eq!(INITIAL_SIDEBAR_WIDTH, 200);
    assert!(!layout.is_dragging());
}

#[test]
fn sidebar_limits_are_fifty_and_six_hundred() {
    assert_eq!(MIN_SIDEBAR_WIDTH, 50);
    assert_eq!(MAX_SIDEBAR_WIDTH, 600);
}

#[test]
fn drag_clamps_and_stops() {
    let mut layout = SidebarLayout::new();
    layout.begin_drag();
    assert!(layout.is_dragging());
    assert_eq!(layout.width(), 200);
    assert!(layout.update_drag(30));
    assert_eq!(layout.width(), 50);
    assert!(layout.update_drag(900));
    assert_eq!(layout.width(), 600);
    assert!(layout.end_drag());
    assert!(!layout.is_dragging());
    assert!(!layout.update_drag(300));
    assert_eq!(layout.width(), 600);
}

#[test]
fn drag_follows_the_pointer_within_the_limits() {
    let mut layout = SidebarLayout::new();
    layout.begin_drag();
    layout.update_drag(50);
    assert_eq!(layout.width(), 50);
    layout.update_drag(51);
    assert_eq!(layout.width(), 51);
    layout.update_drag(333);
    assert_eq!(layout.width(), 333);
    layout.update_drag(599);
    assert_eq!(layout.width(), 599);
    layout.update_drag(600);
    assert_eq!(layout.width(), 600);
    layout.update_drag(601);
    assert_eq!(layout.width(), 600);
    layout.update_drag(49);
    assert_eq!(layout.width(), 50);
}

#[test]
fn drag_clamps_extreme_pointer_positions() {
    let mut layout = SidebarLayout::new();
    layout.begin_drag();
    layout.update_drag(-1);
    assert_eq!(layout.width(), 50);
    layout.update_drag(i32::MIN);
    assert_eq!(layout.width(), 50);
    layout.update_drag(i32::MAX);
    assert_eq!(layout.width(), 600);
    layout.update_drag(0);
    assert_eq!(layout.width(), 50);
}

#[test]
fn pointer_moves_outside_a_drag_change_nothing() {
    let mut layout = SidebarLayout::new();
    assert!(!layout.update_drag(400));
    assert_eq!(layout.width(), 200);
    assert!(!layout.end_drag());
    assert_eq!(layout.width(), 200);
    assert!(!layout.is_dragging());
}

#[test]
fn width_stays_within_limits_over_any_sequence() {
    let mut layout = SidebarLayout::new();
    let positions = [-500, 0, 49, 50, 75, 600, 601, 10_000, 123, i32::MAX, i32::MIN];
    for round in 0..4 {
        for (i, x) in positions.iter().enumerate() {
            if (i + round) % 3 == 0 {
                layout.begin_drag();
            }
            if (i + round) % 5 == 0 {
                layout.end_drag();
            }
            layout.update_drag(*x);
            assert!(layout.width() >= MIN_SIDEBAR_WIDTH);
            assert!(layout.width() <= MAX_SIDEBAR_WIDTH);
        }
    }
}
