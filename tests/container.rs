use rustile::container::{Container, Mode, Type, PORTION_SCALE};
use rustile::geometry::Rectangle;
use rustile::layout::{LayoutDirection, MoveDirection, Type as LayoutType};
use rustile::tree::Node;

fn rect(width: u32, height: u32) -> Rectangle {
    Rectangle { x: 0, y: 0, width, height }
}

fn portions(c: &Container) -> Vec<u64> {
    c.clients.iter().map(|x| x.portion).collect()
}

fn total(c: &Container) -> u64 {
    portions(c).iter().sum()
}

#[test]
fn new() {
    let c = Container::new(7, rect(100, 50));
    assert_eq!(c.id, 7);
    assert!(c.is_empty());
    assert_eq!(c.category, Type::Container);
    assert_eq!(c.portion, PORTION_SCALE);
}

#[test]
fn nodes() {
    let mut node = Node::<i32>::new(1);
    let child = Node::<i32>::new(2);
    node.add(child);
    assert_eq!(node.children.len(), 1);
    assert_eq!(node.data, 1);
    assert_eq!(node.children[0].data, 2);
    node.insert(0, Node::new(3));
    assert_eq!(node.children[0].data, 3);
    assert_eq!(node.children[1].data, 2);
}

#[test]
fn rectangle_contains_its_border() {
    let r = Rectangle { x: 10, y: 20, width: 30, height: 40 };
    assert!(r.contain(10, 20));
    assert!(r.contain(40, 60));
    assert!(r.contain(25, 30));
    assert!(!r.contain(41, 30));
    assert!(!r.contain(9, 30));
    assert!(!r.contain(20, 61));
}

#[test]
fn add_splits_evenly() {
    let mut c = Container::new(1, rect(300, 100));
    c.add(Container::from_id(10));
    assert_eq!(portions(&c), vec![1_000_000]);
    c.add(Container::from_id(11));
    assert_eq!(portions(&c), vec![500_000, 500_000]);
    c.add(Container::from_id(12));
    assert_eq!(portions(&c), vec![333_333, 333_333, 333_334]);
    assert_eq!(total(&c), PORTION_SCALE);
}

#[test]
fn insert_places_child_at_index() {
    let mut c = Container::new(1, rect(300, 100));
    c.add(Container::from_id(10));
    c.add(Container::from_id(11));
    c.insert(1, Container::from_id(12));
    let ids: Vec<u64> = c.clients.iter().map(|x| x.id).collect();
    assert_eq!(ids, vec![10, 12, 11]);
    assert_eq!(portions(&c), vec![333_333, 333_334, 333_333]);
    assert_eq!(total(&c), PORTION_SCALE);
}

#[test]
fn portion_sum_stays_whole() {
    let mut c = Container::new(1, rect(300, 100));
    for id in 10..17 {
        c.add(Container::from_id(id));
        assert_eq!(total(&c), PORTION_SCALE);
    }
    assert!(c.resize_children(2, 3, 40_000));
    assert_eq!(total(&c), PORTION_SCALE);
    assert!(c.remove(12).is_some());
    assert_eq!(total(&c), PORTION_SCALE);
    assert!(c.resize_child(0, -20_000));
    assert_eq!(total(&c), PORTION_SCALE);
    assert!(c.remove_by_index(4).is_some());
    assert_eq!(total(&c), PORTION_SCALE);
    c.insert(2, Container::from_id(30));
    assert_eq!(total(&c), PORTION_SCALE);
}

#[test]
fn add_then_remove_restores_portions() {
    let mut c = Container::new(1, rect(300, 100));
    c.add(Container::from_id(10));
    c.add(Container::from_id(11));
    c.add(Container::from_id(12));
    assert!(c.resize_children(0, 2, 123_457));
    let before = portions(&c);
    c.add(Container::from_id(99));
    let removed = c.remove(99).unwrap();
    assert_eq!(removed.id, 99);
    let after = portions(&c);
    assert_eq!(after.len(), before.len());
    for (a, b) in after.iter().zip(before.iter()) {
        assert!((*a as i64 - *b as i64).abs() <= 4);
    }
}

#[test]
fn remove_renormalizes() {
    let mut c = Container::new(1, rect(300, 100));
    c.add(Container::from_id(10));
    c.add(Container::from_id(11));
    c.add(Container::from_id(12));
    c.add(Container::from_id(13));
    assert_eq!(portions(&c), vec![249_999, 250_000, 250_001, 250_000]);
    let r = c.remove(11).unwrap();
    assert_eq!(r.id, 11);
    assert_eq!(portions(&c), vec![333_332, 333_334, 333_334]);
}

#[test]
fn remove_of_whole_axis_spreads_evenly() {
    let mut c = Container::new(1, rect(300, 100));
    c.add(Container::from_id(10));
    c.add(Container::from_id(11));
    c.add(Container::from_id(12));
    assert!(c.resize_children(0, 1, 100_000));
    c.clients[0].portion = 1_000_000;
    c.clients[1].portion = 0;
    c.clients[2].portion = 0;
    c.remove(10).unwrap();
    assert_eq!(portions(&c), vec![500_000, 500_000]);
}

#[test]
fn remove_unknown_changes_nothing() {
    let mut c = Container::new(1, rect(300, 100));
    c.add(Container::from_id(10));
    c.add(Container::from_id(11));
    assert!(c.remove(42).is_none());
    assert!(c.remove_by_index(2).is_none());
    assert_eq!(portions(&c), vec![500_000, 500_000]);
}

#[test]
fn remove_last_child_empties() {
    let mut c = Container::new(1, rect(300, 100));
    c.add(Container::from_id(10));
    assert_eq!(c.remove(10).unwrap().id, 10);
    assert!(c.is_empty());
}

#[test]
fn resize_refuses_non_positive_portion() {
    let mut c = Container::new(1, rect(300, 100));
    c.add(Container::from_id(10));
    c.add(Container::from_id(11));
    c.add(Container::from_id(12));
    c.clients[0].portion = 40_000;
    c.clients[1].portion = 500_000;
    c.clients[2].portion = 460_000;
    assert!(!c.resize_children(0, 1, -50_000));
    assert_eq!(portions(&c), vec![40_000, 500_000, 460_000]);
    assert!(!c.resize_children(1, 0, 40_000));
    assert!(!c.resize_children(0, 0, 1));
    assert!(!c.resize_children(0, 3, 1));
    assert!(c.resize_children(1, 0, 39_999));
    assert_eq!(portions(&c), vec![1, 539_999, 460_000]);
}

#[test]
fn resize_child_inner_takes_half_from_each_side() {
    let mut c = Container::new(1, rect(300, 100));
    c.add(Container::from_id(10));
    c.add(Container::from_id(11));
    c.add(Container::from_id(12));
    c.add(Container::from_id(13));
    assert_eq!(portions(&c), vec![249_999, 250_000, 250_001, 250_000]);
    assert!(c.resize_child(1, 50_000));
    assert_eq!(portions(&c), vec![224_999, 300_000, 225_001, 250_000]);
    assert!(c.resize_child(0, -50_000));
    assert_eq!(portions(&c), vec![174_999, 350_000, 225_001, 250_000]);
    assert!(c.resize_child(3, 50_000));
    assert_eq!(portions(&c), vec![174_999, 350_000, 175_001, 300_000]);
    assert!(!c.resize_child(0, -175_000));
    assert!(!c.resize_child(4, 1));
    assert_eq!(total(&c), PORTION_SCALE);
}

#[test]
fn resize_child_needs_a_sibling() {
    let mut c = Container::new(1, rect(300, 100));
    c.add(Container::from_id(10));
    assert!(!c.resize_child(0, 50_000));
    assert_eq!(portions(&c), vec![1_000_000]);
}

fn sample_tree() -> Container {
    // root(1) -> [a(10) -> [b(20)], c(30)]
    let mut root = Container::new(1, rect(300, 100));
    let mut a = Container::new(10, rect(150, 100));
    a.add(Container::from_id(20));
    root.add(a);
    root.add(Container::from_id(30));
    root
}

#[test]
fn tree_search_finds_nodes_at_depth() {
    let root = sample_tree();
    assert_eq!(root.find_path(20).unwrap(), vec![0, 0]);
    assert_eq!(root.tree_search(20).unwrap().id, 20);
    assert_eq!(root.find_path(30).unwrap(), vec![1]);
    assert_eq!(root.tree_search(30).unwrap().id, 30);
    assert!(root.find_path(99).is_none());
    assert!(root.tree_search(99).is_none());
    assert_eq!(root.find_path(1).unwrap(), Vec::<usize>::new());
}

#[test]
fn tree_remove_prunes_emptied_containers() {
    let mut root = sample_tree();
    let mut pruned = Vec::new();
    let r = root.tree_remove(20, &mut pruned).unwrap();
    assert_eq!(r.id, 20);
    assert_eq!(pruned, vec![10]);
    assert_eq!(root.clients.len(), 1);
    assert_eq!(root.clients[0].id, 30);
    assert_eq!(root.clients[0].portion, PORTION_SCALE);
    assert!(root.tree_remove(20, &mut pruned).is_none());
    assert_eq!(pruned, vec![10]);
}

#[test]
fn tree_remove_keeps_containers_with_children() {
    let mut root = sample_tree();
    root.clients[0].add(Container::from_id(21));
    let mut pruned = Vec::new();
    assert_eq!(root.tree_remove(20, &mut pruned).unwrap().id, 20);
    assert!(pruned.is_empty());
    assert_eq!(root.clients[0].clients.len(), 1);
    assert_eq!(root.clients[0].clients[0].id, 21);
}

#[test]
fn split_keeps_id_and_adds_leaf() {
    let mut root = Container::new(1, rect(300, 100));
    let mut leaf = Container::from_id(50);
    leaf.titlebar_height = 16;
    root.add(leaf);
    assert!(root.clients[0].split(77, 1));
    let l = &root.clients[0];
    assert_eq!(l.id, 50);
    assert_eq!(l.clients.len(), 1);
    assert_eq!(l.clients[0].id, 77);
    assert_ne!(l.clients[0].id, 50);
    assert!(l.clients[0].is_empty());
    assert_eq!(l.clients[0].titlebar_height, 16);
    assert_eq!(l.clients[0].portion, PORTION_SCALE);
}

#[test]
fn split_refuses_non_leaf_and_root() {
    let mut root = sample_tree();
    assert!(!root.split(77, 0));
    let mut lone = Container::new(5, rect(10, 10));
    assert!(!lone.split(77, 5));
    assert!(lone.is_empty());
}

#[test]
fn circulate_moves_along_split_axis_only() {
    let mut p = Container::new(1, rect(300, 100));
    p.direction = LayoutDirection::Horizontal;
    for id in 10..13 {
        p.add(Container::from_id(id));
    }
    assert_eq!(p.circulate(1, MoveDirection::Up), Some(1));
    assert_eq!(p.circulate(1, MoveDirection::Right), Some(2));
    assert_eq!(p.circulate(2, MoveDirection::Right), Some(0));
    assert_eq!(p.circulate(0, MoveDirection::Left), Some(2));
    assert_eq!(p.circulate(3, MoveDirection::Right), None);
    p.direction = LayoutDirection::Vertical;
    assert_eq!(p.circulate(1, MoveDirection::Right), Some(1));
    assert_eq!(p.circulate(0, MoveDirection::Up), Some(2));
    assert_eq!(p.circulate(2, MoveDirection::Down), Some(0));
}

#[test]
fn next_and_last_client_wrap() {
    let mut p = Container::new(1, rect(300, 100));
    for id in 10..13 {
        p.add(Container::from_id(id));
    }
    assert_eq!(p.next_client(12).unwrap().id, 10);
    assert_eq!(p.next_client(10).unwrap().id, 11);
    assert_eq!(p.last_client(10).unwrap().id, 12);
    assert_eq!(p.last_client(11).unwrap().id, 10);
    assert!(p.next_client(99).is_none());
    assert!(p.last_client(99).is_none());
}

#[test]
fn change_layout_toggles_direction() {
    let mut c = Container::new(1, rect(300, 100));
    assert_eq!(c.layout, LayoutType::Tiling);
    c.change_layout(LayoutType::Tiling);
    assert_eq!(c.direction, LayoutDirection::Vertical);
    c.change_layout(LayoutType::Tab);
    assert_eq!(c.layout, LayoutType::Tab);
    assert_eq!(c.direction, LayoutDirection::Horizontal);
}

#[test]
fn mode_toggle_cycles_fullscreen() {
    let mut c = Container::from_id(3);
    c.mode_toggle();
    assert_eq!(c.mode, Mode::Fullscreen);
    c.mode_toggle();
    assert_eq!(c.mode, Mode::Normal);
    c.mode = Mode::Resize(1, 2, 3);
    c.mode_toggle();
    assert_eq!(c.mode, Mode::Resize(1, 2, 3));
}

#[test]
fn destroy_only_when_empty() {
    let mut c = Container::new(1, rect(10, 10));
    assert!(c.destroy());
    c.add(Container::from_id(2));
    assert!(!c.destroy());
}
