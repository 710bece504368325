use rustile::taskbar::TaskBar;
use rustile::layout::Type as LayoutType;
use rustile::tiling::Direction;
use rustile::workspace::Workspace;
use rustile::geometry::Rectangle;

#[test]
fn flat_workspace_add_and_focus() {
    let mut w = Workspace::new(0);
    assert!(!w.add(1, 1));
    assert!(w.add(10, 1));
    assert!(w.add(11, 1));
    assert!(!w.add(10, 1));
    assert_eq!(w.size(), 2);
    assert_eq!(w.get_focus(), Some(11));
    assert!(w.set_focus(Some(10)));
    assert!(!w.set_focus(Some(99)));
    assert_eq!(w.get_focus(), Some(10));
    assert_eq!(w.contain(11), Some(1));
    assert_eq!(w.contain(99), None);
}

#[test]
fn flat_workspace_cycles() {
    let mut w = Workspace::new(0);
    for id in 10..13 {
        w.add(id, 1);
    }
    assert_eq!(w.next_window(12), 10);
    assert_eq!(w.next_window(10), 11);
    assert_eq!(w.last_window(10), 12);
    assert_eq!(w.last_window(11), 10);
    assert_eq!(w.next_window(99), 99);
}

#[test]
fn flat_workspace_remove_moves_focus() {
    let mut w = Workspace::new(0);
    for id in 10..13 {
        w.add(id, 1);
    }
    w.set_focus(Some(12));
    assert!(w.remove(12));
    assert_eq!(w.get_focus(), Some(10));
    assert!(!w.remove(12));
    assert!(w.remove(11));
    assert_eq!(w.get_focus(), Some(10));
    assert!(w.remove(10));
    assert_eq!(w.get_focus(), None);
    assert_eq!(w.size(), 0);
}

#[test]
fn flat_workspace_layout() {
    let mut w = Workspace::new(0);
    w.add(10, 1);
    w.add(11, 1);
    let cells = w.config(200, 100);
    assert_eq!(cells[1], Rectangle { x: 100, y: 0, width: 100, height: 100 });
    assert!(w.clean);
    w.change_layout(LayoutType::Tiling);
    assert_eq!(w.layout.direction, Direction::Vertical);
    w.change_layout(LayoutType::Tab);
    assert_eq!(w.layout.direction, Direction::Horizontal);
    w.set_hidden();
    assert!(!w.visible);
    assert_eq!(w.show(), Some(11));
    assert!(w.visible);
}

#[test]
fn taskbar_boxes() {
    let mut bar = TaskBar::new(20);
    bar.load(vec!['1', '2', '3']);
    bar.set_current('2');
    let cells = bar.cells();
    assert_eq!(cells.len(), 3);
    assert_eq!(cells[0].rect, Rectangle { x: 1, y: 1, width: 18, height: 18 });
    assert_eq!(cells[2].rect, Rectangle { x: 43, y: 1, width: 18, height: 18 });
    assert_eq!(cells[1].key, '2');
    assert!(cells[1].current);
    assert!(!cells[0].current);
}
