use rustile::action::{Action, Effect};
use rustile::container::Container;
use rustile::geometry::Rectangle;
use rustile::handler::Resize;
use rustile::layout::{LayoutDirection, MoveDirection, Type as LayoutType};
use rustile::workspaces::Workspaces;

fn setup() -> Workspaces {
    let mut ws = Workspaces::new();
    ws.rec = Some(Rectangle { x: 0, y: 0, width: 400, height: 300 });
    assert!(ws.switch_workspace('1', 1001));
    ws.add_window(Container::from_id(50), None);
    ws.add_window(Container::from_id(51), None);
    ws
}

#[test]
fn exec_spawns_unchanged() {
    let mut ws = setup();
    let argv = vec!["xterm".to_string(), "-e".to_string(), "top".to_string()];
    match ws.dispatch(Action::Exec(argv.clone()), 50, 0, 1) {
        Effect::Spawn(a) => assert_eq!(a, argv),
        _ => panic!("expected a spawn"),
    }
}

#[test]
fn switch_workspace_reports_both_keys() {
    let mut ws = setup();
    match ws.dispatch(Action::SwitchWorkspace('2'), 50, 1002, 1) {
        Effect::Switched { from, to } => {
            assert_eq!(from, '1');
            assert_eq!(to, '2');
        }
        _ => panic!("expected a switch"),
    }
    assert_eq!(ws.current_name(), '2');
    assert_eq!(ws.current().unwrap().id, 1002);
    assert!(matches!(ws.dispatch(Action::SwitchWorkspace('2'), 50, 1003, 1), Effect::Nothing));
}

#[test]
fn focus_and_close_commands() {
    let mut ws = setup();
    assert!(matches!(ws.dispatch(Action::FocusDirection(MoveDirection::Right), 50, 0, 1), Effect::Focus(51)));
    assert!(matches!(ws.dispatch(Action::FocusDirection(MoveDirection::Down), 50, 0, 1), Effect::Nothing));
    assert!(matches!(ws.dispatch(Action::CloseWindow, 51, 0, 1), Effect::Kill(51)));
    assert!(matches!(ws.dispatch(Action::CloseWindow, 77, 0, 1), Effect::Nothing));
}

#[test]
fn split_layout_resize_and_move_commands() {
    let mut ws = setup();
    assert!(Action::Split.needs_frame());
    assert!(!Action::CloseWindow.needs_frame());
    assert!(matches!(ws.dispatch(Action::Split, 51, 2001, 1), Effect::Split(2001)));
    assert!(matches!(ws.dispatch(Action::SwitchLayout(LayoutType::Tab), 50, 0, 1), Effect::Relayout(1001)));
    assert_eq!(ws.current().unwrap().layout, LayoutType::Tab);
    assert!(matches!(
        ws.dispatch(Action::ResizeDirection(LayoutDirection::Horizontal, Resize::Shrink), 50, 0, 1),
        Effect::Relayout(1001)
    ));
    let p: Vec<u64> = ws.current().unwrap().clients.iter().map(|c| c.portion).collect();
    assert_eq!(p, vec![450_000, 550_000]);
    match ws.dispatch(Action::MoveToWorkspace('3'), 50, 1003, 1) {
        Effect::Moved { pruned } => assert!(pruned.is_empty()),
        _ => panic!("expected a move"),
    }
    assert_eq!(ws.get('3').unwrap().clients[0].id, 50);
    assert!(matches!(ws.dispatch(Action::ToggleFullscreen, 51, 0, 1), Effect::Fullscreen(51)));
}
