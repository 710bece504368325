use rustile::container::{Container, Mode, PORTION_SCALE};
use rustile::geometry::Rectangle;
use rustile::handler::{
    step_for_drag, LayoutHandler, Resize, WindowCloseHandler, WindowFocusHandler, WorkspaceHandler, RESIZE_STEP,
};
use rustile::layout::{LayoutDirection, MoveDirection, Placement, Type as LayoutType};
use rustile::tiling::{Direction, TilingLayout};
use rustile::workspaces::Workspaces;

fn rect(width: u32, height: u32) -> Rectangle {
    Rectangle { x: 0, y: 0, width, height }
}

fn leaf(id: u64, titlebar_height: u32) -> Container {
    let mut c = Container::from_id(id);
    c.titlebar_height = titlebar_height;
    c
}

#[test]
fn tab_layout_shows_only_focused_child() {
    let mut c = Container::new(1, rect(300, 200));
    c.layout = LayoutType::Tab;
    c.add(leaf(10, 16));
    c.add(leaf(11, 16));
    c.add(leaf(12, 16));
    let placements = c.update_layout(11);
    assert_eq!(placements.len(), 3);
    for (i, p) in placements.iter().enumerate() {
        assert_eq!(p.titlebar, Rectangle { x: i as i32 * 100, y: 0, width: 100, height: 16 });
        assert_eq!(p.body, Rectangle { x: 1, y: 17, width: 298, height: 182 });
        assert_eq!(p.raise, i == 1);
        assert_eq!(p.focused, i == 1);
    }
    assert_eq!(c.clients[2].titlebar, Some(Rectangle { x: 200, y: 0, width: 100, height: 16 }));
    assert_eq!(c.clients[2].rect, Rectangle { x: 1, y: 17, width: 298, height: 182 });
}

#[test]
fn tiling_layout_splits_along_axis() {
    let mut c = Container::new(1, rect(300, 200));
    c.add(leaf(10, 16));
    c.add(leaf(11, 16));
    assert!(c.resize_children(0, 1, 100_000));
    let placements = c.update_layout(10);
    assert_eq!(
        placements[0],
        Placement {
            id: 10,
            titlebar: Rectangle { x: 0, y: 0, width: 180, height: 16 },
            body: Rectangle { x: 1, y: 17, width: 178, height: 182 },
            focused: true,
            raise: false,
        }
    );
    assert_eq!(placements[1].titlebar, Rectangle { x: 180, y: 0, width: 120, height: 16 });
    assert_eq!(placements[1].body, Rectangle { x: 181, y: 17, width: 118, height: 182 });
    assert!(!placements[1].focused);
    c.direction = LayoutDirection::Vertical;
    let placements = c.update_layout(0);
    assert_eq!(placements[0].titlebar, Rectangle { x: 0, y: 0, width: 300, height: 16 });
    assert_eq!(placements[1].titlebar, Rectangle { x: 0, y: 120, width: 300, height: 16 });
    assert_eq!(placements[1].body, Rectangle { x: 1, y: 137, width: 298, height: 62 });
}

#[test]
fn layout_of_empty_container_does_nothing() {
    let mut c = Container::new(1, rect(300, 200));
    assert!(c.update_layout(0).is_empty());
}

#[test]
fn layout_clamps_tiny_slots() {
    let mut c = Container::new(1, rect(1, 10));
    c.add(leaf(10, 16));
    let p = c.update_layout(0);
    assert_eq!(p[0].body, Rectangle { x: 1, y: 17, width: 0, height: 0 });
}

#[test]
fn border_and_titlebar_hits() {
    let mut c = Container::new(1, rect(300, 200));
    c.add(leaf(10, 16));
    c.add(leaf(11, 16));
    c.update_layout(0);
    assert_eq!(c.query_point(200, 5).unwrap().id, 11);
    assert_eq!(c.query_point(20, 5).unwrap().id, 10);
    assert!(c.query_point(20, 100).is_none());
    assert_eq!(c.query_border(152, 50), Some(1));
    assert_eq!(c.query_border(2, 50), Some(0));
    assert_eq!(c.query_border(100, 50), None);
}

fn two_spaces() -> Workspaces {
    let mut ws = Workspaces::new();
    ws.rec = Some(rect(300, 200));
    assert!(ws.create('1', 1001));
    assert!(ws.create('2', 1002));
    assert!(!ws.create('1', 1003));
    ws
}

#[test]
fn workspace_isolation() {
    let mut ws = two_spaces();
    assert!(ws.switch_workspace('1', 0));
    assert!(ws.add_window(leaf(50, 0), Some('1')));
    assert!(ws.get('1').unwrap().tree_search(50).is_some());
    assert!(ws.get('2').unwrap().tree_search(50).is_none());
    let mut pruned = Vec::new();
    assert!(ws.move_window(50, '1', '2', 0, &mut pruned));
    assert!(ws.get('1').unwrap().tree_search(50).is_none());
    assert!(ws.get('2').unwrap().tree_search(50).is_some());
    assert_eq!(ws.get_container(50).unwrap().0, '2');
}

#[test]
fn move_window_creates_target() {
    let mut ws = two_spaces();
    assert!(ws.add_window(leaf(50, 0), Some('1')));
    let mut pruned = Vec::new();
    assert!(ws.move_window(50, '1', '7', 1007, &mut pruned));
    assert_eq!(ws.get('7').unwrap().id, 1007);
    assert_eq!(ws.get('7').unwrap().clients[0].id, 50);
    assert!(!ws.move_window(50, '7', '7', 0, &mut pruned));
    assert!(!ws.move_window(99, '7', '1', 0, &mut pruned));
}

#[test]
fn switch_workspace_creates_lazily() {
    let mut ws = Workspaces::new();
    assert_eq!(ws.current_name(), '0');
    assert!(ws.current().is_none());
    assert!(ws.switch_workspace('3', 1003));
    assert_eq!(ws.current_name(), '3');
    assert_eq!(ws.current().unwrap().id, 1003);
    assert!(!ws.switch_workspace('3', 1004));
    assert_eq!(ws.spaces.len(), 1);
    let gone = ws.delete('3').unwrap();
    assert_eq!(gone.id, 1003);
    assert!(!ws.contain('3'));
}

#[test]
fn insert_window_goes_next_to_focus() {
    let mut ws = two_spaces();
    ws.switch_workspace('1', 0);
    assert!(ws.insert_window(leaf(50, 0), 999));
    assert!(ws.insert_window(leaf(51, 0), 999));
    assert!(ws.insert_window(leaf(52, 0), 50));
    let ids: Vec<u64> = ws.current().unwrap().clients.iter().map(|c| c.id).collect();
    assert_eq!(ids, vec![50, 52, 51]);
    let sum: u64 = ws.current().unwrap().clients.iter().map(|c| c.portion).sum();
    assert_eq!(sum, PORTION_SCALE);
}

#[test]
fn remove_window_searches_every_workspace() {
    let mut ws = two_spaces();
    assert!(ws.add_window(leaf(50, 0), Some('2')));
    let mut pruned = Vec::new();
    assert_eq!(ws.remove_window(50, &mut pruned).unwrap().id, 50);
    assert!(ws.remove_window(50, &mut pruned).is_none());
    assert!(ws.get_focus(50).is_none());
}

#[test]
fn focus_moves_among_siblings() {
    let mut ws = two_spaces();
    ws.switch_workspace('1', 0);
    for id in 50..53 {
        ws.add_window(leaf(id, 0), None);
    }
    assert_eq!(ws.focus_direction(MoveDirection::Right, 52), Some(50));
    assert_eq!(ws.focus_direction(MoveDirection::Left, 50), Some(52));
    assert_eq!(ws.focus_direction(MoveDirection::Up, 50), None);
    let h = WindowFocusHandler { direction: Direction::Right };
    assert_eq!(h.handle(&ws, 50), Some(51));
    let h = WindowFocusHandler { direction: Direction::Vertical };
    assert_eq!(h.handle(&ws, 50), None);
}

#[test]
fn resize_command_grows_focused_window() {
    let mut ws = two_spaces();
    ws.switch_workspace('1', 0);
    ws.add_window(leaf(50, 0), None);
    ws.add_window(leaf(51, 0), None);
    assert_eq!(ws.resize_focused(LayoutDirection::Horizontal, Resize::Grow, 50), Some(1001));
    assert_eq!(ws.mode, Mode::Layout);
    let p: Vec<u64> = ws.current().unwrap().clients.iter().map(|c| c.portion).collect();
    assert_eq!(p, vec![500_000 + RESIZE_STEP as u64, 500_000 - RESIZE_STEP as u64]);
    assert_eq!(ws.resize_focused(LayoutDirection::Vertical, Resize::Grow, 50), None);
}

#[test]
fn layout_command_changes_parent() {
    let mut ws = two_spaces();
    ws.switch_workspace('1', 0);
    ws.add_window(leaf(50, 0), None);
    let h = LayoutHandler::new(LayoutType::Tab);
    assert_eq!(h.handle(&mut ws, 50), Some(1001));
    assert_eq!(ws.current().unwrap().layout, LayoutType::Tab);
    assert_eq!(ws.change_focused_layout(LayoutType::Tab, 1001), Some(1001));
    assert_eq!(ws.current().unwrap().direction, LayoutDirection::Vertical);
    assert_eq!(ws.change_focused_layout(LayoutType::Tab, 4242), None);
}

#[test]
fn split_and_fullscreen_commands() {
    let mut ws = two_spaces();
    ws.switch_workspace('1', 0);
    ws.add_window(leaf(50, 0), None);
    assert!(ws.split_focused(50, 77, 1));
    assert_eq!(ws.current().unwrap().clients[0].clients[0].id, 77);
    assert!(!ws.split_focused(50, 78, 1));
    assert_eq!(ws.toggle_fullscreen(50), Some(50));
    assert_eq!(ws.get_focus(50).unwrap().mode, Mode::Fullscreen);
    assert_eq!(ws.toggle_fullscreen(4242), None);
    let close = WindowCloseHandler;
    assert_eq!(close.handle(&ws, 50), Some(50));
    assert_eq!(close.handle(&ws, 4242), None);
}

#[test]
fn workspace_handler_switches() {
    let mut ws = two_spaces();
    let h = WorkspaceHandler { key: '2' };
    assert!(h.handle(&mut ws, 0));
    assert_eq!(ws.current_name(), '2');
    assert!(!h.handle(&mut ws, 0));
}

#[test]
fn drag_resizes_neighbors() {
    let mut ws = two_spaces();
    ws.switch_workspace('1', 0);
    ws.add_window(leaf(50, 0), None);
    ws.add_window(leaf(51, 0), None);
    let placements = ws.relayout(1001, 50);
    assert_eq!(placements.len(), 2);
    assert_eq!(ws.button_press(1001, 151, 40), Some(1001));
    assert_eq!(ws.current().unwrap().mode, Mode::Resize(1, 151, 40));
    assert_eq!(ws.button_release(1001, 181, 40), Some(1001));
    assert_eq!(ws.current().unwrap().mode, Mode::Normal);
    let p: Vec<u64> = ws.current().unwrap().clients.iter().map(|c| c.portion).collect();
    assert_eq!(p, vec![600_000, 400_000]);
    assert_eq!(ws.button_release(1001, 181, 40), None);
}

#[test]
fn drag_step_rounds_toward_zero() {
    assert_eq!(step_for_drag(30, 300), 100_000);
    assert_eq!(step_for_drag(-1, 3), -333_333);
    assert_eq!(step_for_drag(1, 3), 333_333);
    assert_eq!(step_for_drag(5, 0), 0);
}

#[test]
fn equal_tiling_of_screen() {
    let mut t = TilingLayout::new(Direction::Horizontal);
    let cells = t.configure(3, 300, 100);
    assert_eq!(cells, vec![
        Rectangle { x: 0, y: 0, width: 100, height: 100 },
        Rectangle { x: 100, y: 0, width: 100, height: 100 },
        Rectangle { x: 200, y: 0, width: 100, height: 100 },
    ]);
    t.toggle();
    assert_eq!(t.direction, Direction::Vertical);
    let cells = t.configure(2, 300, 100);
    assert_eq!(cells[1], Rectangle { x: 0, y: 50, width: 300, height: 50 });
    assert!(t.configure(0, 300, 100).is_empty());
    assert_eq!(t.get_type(), LayoutType::Tiling);
}

#[test]
fn nested_containers_are_listed_for_layout() {
    let mut ws = two_spaces();
    ws.switch_workspace('1', 0);
    ws.add_window(leaf(50, 0), None);
    ws.add_window(leaf(51, 0), None);
    assert!(ws.split_focused(51, 77, 1));
    let placements = ws.relayout(1001, 50);
    assert_eq!(ws.nested_containers(&placements), vec![51]);
    let inner = ws.relayout(51, 50);
    assert_eq!(inner.len(), 1);
    assert!(ws.nested_containers(&inner).is_empty());
}

#[test]
fn split_refuses_its_own_id() {
    let mut ws = two_spaces();
    ws.switch_workspace('1', 0);
    ws.add_window(leaf(50, 0), None);
    assert!(!ws.split_focused(50, 50, 1));
    assert!(ws.current().unwrap().clients[0].is_empty());
}

#[test]
fn nested_prune_reports_every_emptied_container() {
    let mut root = Container::new(1, rect(300, 100));
    let mut outer = Container::new(10, rect(300, 100));
    let mut inner = Container::new(20, rect(300, 100));
    inner.add(leaf(30, 0));
    outer.add(inner);
    root.add(outer);
    root.add(leaf(40, 0));
    let mut pruned = vec![7];
    assert_eq!(root.tree_remove(30, &mut pruned).unwrap().id, 30);
    assert_eq!(pruned, vec![7, 20, 10]);
    assert_eq!(root.clients.len(), 1);
    assert_eq!(root.clients[0].id, 40);
}
