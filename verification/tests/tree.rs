use rsvim_core::coord::{IRect, U16Rect, U16Size};
use rsvim_core::ui::canvas::Canvas;
use rsvim_core::ui::tree::{InodeBase, Inodeable, Itree, TreeError};
use rsvim_core::ui::widget::root::RootContainer;
use rsvim_core::ui::widget::window::root::WindowRootContainer;
use rsvim_core::ui::widget::Widgetable;

fn node(id: usize, min: (isize, isize), max: (isize, isize)) -> RootContainer {
    RootContainer::new(IRect::new(min, max), id)
}

fn node_z(id: usize, min: (isize, isize), max: (isize, isize), zindex: usize) -> RootContainer {
    let mut n = node(id, min, max);
    n.set_zindex(zindex);
    n
}

fn actual(tree: &Itree<RootContainer>, id: usize) -> U16Rect {
    *tree.node(id).unwrap().actual_shape()
}

#[test]
fn geometry_clips_by_clamping() {
    let r = IRect::new((5, 7), (1, 2));
    assert_eq!((r.min_x(), r.min_y(), r.max_x(), r.max_y()), (1, 2, 5, 7));
    let u = U16Rect::new((9, 1), (3, 4));
    assert_eq!((u.min_x(), u.min_y(), u.max_x(), u.max_y()), (3, 1, 9, 4));
    assert_eq!((u.width(), u.height()), (6, 3));
    assert_eq!(u.size(), U16Size::new(6, 3));
    assert!(!u.is_empty());
    assert!(U16Rect::new((3, 1), (3, 4)).is_empty());
    let bounds = U16Rect::new((0, 0), (10, 10));
    assert_eq!(
        IRect::new((-5, -5), (5, 5)).clip(&bounds),
        U16Rect::new((0, 0), (5, 5))
    );
    assert_eq!(
        IRect::new((2, 3), (4, 20)).clip(&bounds),
        U16Rect::new((2, 3), (4, 10))
    );
    let outside = IRect::new((20, 20), (30, 30)).clip(&bounds);
    assert_eq!(outside, U16Rect::new((10, 10), (10, 10)));
    assert!(outside.is_empty());
    assert_eq!(
        IRect::new((-1, -1), (70000, 3)).clip_to_plane(),
        U16Rect::new((0, 0), (65535, 3))
    );
}

#[test]
fn root_container_keeps_the_identity_it_is_given() {
    let root = RootContainer::new(IRect::new((0, 0), (10, 8)), 41);
    assert_eq!(root.id(), 41);
    assert_eq!(*root.depth(), 0);
    assert_eq!(*root.zindex(), 0);
    assert_eq!(*root.shape(), IRect::new((0, 0), (10, 8)));
    assert_eq!(*root.actual_shape(), U16Rect::new((0, 0), (10, 8)));
    assert!(*root.enabled());
    assert!(*root.visible());
    let mut canvas = Canvas::new(U16Size::new(2, 1));
    assert!(canvas.set_cell(0, 1, 'x'));
    root.draw(&mut canvas);
    WindowRootContainer::new(IRect::new((0, 0), (2, 1)), 42).draw(&mut canvas);
    assert_eq!(canvas.raw_symbols(), vec![vec![' ', 'x']]);
    let base = InodeBase::new(IRect::new((-4, 2), (3, 9)), 7);
    assert_eq!(base.id, 7);
    assert_eq!(base.actual_shape, U16Rect::new((0, 2), (3, 9)));
    assert_ne!(
        RootContainer::new(IRect::new((0, 0), (1, 1)), 1).id(),
        RootContainer::new(IRect::new((0, 0), (1, 1)), 2).id()
    );
}

#[test]
fn node_setters_change_one_field() {
    let mut n = node(0, (0, 0), (4, 4));
    n.set_id(3);
    n.set_depth(2);
    n.set_zindex(5);
    n.set_shape(&IRect::new((1, 1), (2, 2)));
    n.set_actual_shape(&U16Rect::new((1, 1), (2, 2)));
    n.set_enabled(false);
    n.set_visible(false);
    assert_eq!(
        n.base,
        InodeBase {
            id: 3,
            depth: 2,
            zindex: 5,
            shape: IRect::new((1, 1), (2, 2)),
            actual_shape: U16Rect::new((1, 1), (2, 2)),
            enabled: false,
            visible: false,
        }
    );
}

#[test]
fn insert_clips_the_child_by_its_parent() {
    let mut tree = Itree::new(node(70, (0, 0), (20, 20)));
    assert_eq!(tree.root_id(), 70);
    assert_eq!(tree.len(), 1);
    let child = tree.insert(70, node(5, (5, 5), (30, 30))).unwrap();
    assert_eq!(child, 5);
    assert_eq!(actual(&tree, 5), U16Rect::new((5, 5), (20, 20)));
    assert_eq!(*tree.node(5).unwrap().shape(), IRect::new((5, 5), (30, 30)));
    assert_eq!(tree.node(5).unwrap().id(), 5);
    assert_eq!(*tree.node(5).unwrap().depth(), 1);
    let grandchild = tree.insert(5, node(900, (0, 0), (10, 10))).unwrap();
    assert_eq!(grandchild, 900);
    assert_eq!(actual(&tree, 900), U16Rect::new((5, 5), (10, 10)));
    assert_eq!(*tree.node(900).unwrap().depth(), 2);
    assert_eq!(tree.parent_id(900), Some(5));
    assert_eq!(tree.parent_id(5), Some(70));
    assert_eq!(tree.parent_id(70), None);
    assert_eq!(tree.parent_id(1), None);
    assert_eq!(tree.children_ids(70), Some(vec![5]));
    assert_eq!(tree.children_ids(900), Some(vec![]));
    assert_eq!(tree.children_ids(3), None);
    assert!(tree.contains_id(900));
    assert!(!tree.contains_id(0));
    assert!(tree.node(1).is_none());
    assert_eq!(tree.len(), 3);
}

#[test]
fn insert_outside_the_parent_is_rejected() {
    let mut tree = Itree::new(node(10, (0, 0), (20, 20)));
    tree.insert(10, node(11, (5, 5), (10, 10))).unwrap();
    let rejected = tree.insert(10, node(12, (25, 25), (30, 30)));
    assert_eq!(rejected.err(), Some(TreeError::Bounds));
    let rejected = tree.insert(11, node(12, (12, 0), (15, 20)));
    assert_eq!(rejected.err(), Some(TreeError::Bounds));
    let rejected = tree.insert(11, node(12, (6, 6), (6, 9)));
    assert_eq!(rejected.err(), Some(TreeError::Bounds));
    let rejected = tree.insert(7, node(12, (0, 0), (1, 1)));
    assert_eq!(rejected.err(), Some(TreeError::InvalidId));
    assert_eq!(tree.len(), 2);
    assert!(!tree.contains_id(12));
    assert_eq!(tree.children_ids(10), Some(vec![11]));
    assert_eq!(tree.children_ids(11), Some(vec![]));
    assert_eq!(tree.draw_order(), vec![10, 11]);
    assert_eq!(actual(&tree, 11), U16Rect::new((5, 5), (10, 10)));
}

#[test]
fn insert_of_an_identity_twice_is_rejected() {
    let mut tree = Itree::new(node(10, (0, 0), (20, 20)));
    tree.insert(10, node(11, (5, 5), (10, 10))).unwrap();
    assert_eq!(
        tree.insert(10, node(11, (1, 1), (2, 2))).err(),
        Some(TreeError::InvalidId)
    );
    assert_eq!(
        tree.insert(11, node(10, (6, 6), (7, 7))).err(),
        Some(TreeError::InvalidId)
    );
    assert_eq!(tree.len(), 2);
    assert_eq!(tree.draw_order(), vec![10, 11]);
    assert_eq!(actual(&tree, 11), U16Rect::new((5, 5), (10, 10)));
    // the identity of a node that left is free again
    tree.remove(11).unwrap();
    assert_eq!(tree.insert(10, node(11, (1, 1), (2, 2))).unwrap(), 11);
    assert_eq!(actual(&tree, 11), U16Rect::new((1, 1), (2, 2)));
}

#[test]
fn draw_order_goes_by_zindex_then_insertion() {
    let mut tree = Itree::new(node(50, (0, 0), (20, 20)));
    assert_eq!(tree.draw_order(), vec![50]);
    tree.insert(50, node(40, (0, 0), (10, 10))).unwrap();
    tree.insert(50, node(30, (0, 0), (10, 10))).unwrap();
    tree.insert(50, node_z(20, (0, 0), (10, 10), 5)).unwrap();
    tree.insert(50, node(10, (0, 0), (10, 10))).unwrap();
    tree.insert(40, node(60, (0, 0), (5, 5))).unwrap();
    assert_eq!(tree.children_ids(50), Some(vec![40, 30, 10, 20]));
    assert_eq!(tree.draw_order(), vec![50, 40, 60, 30, 10, 20]);
    assert_eq!(tree.set_zindex(40, 9), Ok(()));
    assert_eq!(*tree.node(40).unwrap().zindex(), 9);
    assert_eq!(tree.children_ids(50), Some(vec![30, 10, 20, 40]));
    assert_eq!(tree.draw_order(), vec![50, 30, 10, 20, 40, 60]);
    assert_eq!(tree.set_zindex(20, 0), Ok(()));
    assert_eq!(tree.children_ids(50), Some(vec![30, 20, 10, 40]));
    assert_eq!(tree.set_zindex(50, 4), Ok(()));
    assert_eq!(*tree.node(50).unwrap().zindex(), 4);
    assert_eq!(tree.draw_order(), vec![50, 30, 20, 10, 40, 60]);
    assert_eq!(tree.set_zindex(9, 1), Err(TreeError::InvalidId));
}

#[test]
fn set_shape_clips_the_node_and_all_below_it() {
    let mut tree = Itree::new(node(100, (0, 0), (20, 20)));
    tree.insert(100, node(101, (5, 5), (30, 30))).unwrap();
    tree.insert(101, node(102, (0, 0), (10, 10))).unwrap();
    tree.insert(102, node(103, (6, 6), (9, 9))).unwrap();
    tree.insert(100, node(104, (1, 1), (2, 2))).unwrap();
    assert_eq!(tree.set_shape(101, &IRect::new((8, 8), (12, 12))), Ok(()));
    assert_eq!(*tree.node(101).unwrap().shape(), IRect::new((8, 8), (12, 12)));
    assert_eq!(actual(&tree, 101), U16Rect::new((8, 8), (12, 12)));
    assert_eq!(actual(&tree, 102), U16Rect::new((8, 8), (10, 10)));
    assert_eq!(actual(&tree, 103), U16Rect::new((8, 8), (9, 9)));
    assert_eq!(actual(&tree, 104), U16Rect::new((1, 1), (2, 2)));
    assert_eq!(
        tree.set_shape(101, &IRect::new((50, 50), (60, 60))),
        Err(TreeError::Bounds)
    );
    assert_eq!(actual(&tree, 101), U16Rect::new((8, 8), (12, 12)));
    assert_eq!(
        tree.set_shape(8, &IRect::new((0, 0), (1, 1))),
        Err(TreeError::InvalidId)
    );
    // a node below may be left with nothing
    assert_eq!(tree.set_shape(101, &IRect::new((15, 15), (18, 18))), Ok(()));
    assert_eq!(actual(&tree, 102), U16Rect::new((15, 15), (15, 15)));
    assert_eq!(actual(&tree, 103), U16Rect::new((15, 15), (15, 15)));
    // the root is clipped by the plane
    assert_eq!(tree.set_shape(100, &IRect::new((-2, -2), (16, 16))), Ok(()));
    assert_eq!(actual(&tree, 100), U16Rect::new((0, 0), (16, 16)));
    assert_eq!(actual(&tree, 101), U16Rect::new((15, 15), (16, 16)));
    // and a shape off the plane is refused for the root too
    assert_eq!(
        tree.set_shape(100, &IRect::new((-9, -9), (-1, 5))),
        Err(TreeError::Bounds)
    );
    assert_eq!(*tree.node(100).unwrap().shape(), IRect::new((-2, -2), (16, 16)));
    assert_eq!(actual(&tree, 100), U16Rect::new((0, 0), (16, 16)));
}

#[test]
fn set_actual_shape_of_the_root_clips_all() {
    let mut tree = Itree::new(node(3, (0, 0), (20, 20)));
    tree.insert(3, node(2, (5, 5), (30, 30))).unwrap();
    tree.insert(2, node(1, (0, 0), (10, 10))).unwrap();
    tree.set_actual_shape(&U16Rect::new((6, 7), (9, 8)));
    assert_eq!(actual(&tree, 3), U16Rect::new((6, 7), (9, 8)));
    assert_eq!(actual(&tree, 2), U16Rect::new((6, 7), (9, 8)));
    assert_eq!(actual(&tree, 1), U16Rect::new((6, 7), (9, 8)));
    assert_eq!(*tree.node(3).unwrap().shape(), IRect::new((0, 0), (20, 20)));
}

#[test]
fn plain_setters_reach_one_node() {
    let mut tree = Itree::new(node(8, (0, 0), (20, 20)));
    tree.insert(8, node(9, (5, 5), (30, 30))).unwrap();
    assert_eq!(tree.set_depth(9, 4), Ok(()));
    assert_eq!(tree.set_enabled(9, false), Ok(()));
    assert_eq!(tree.set_visible(8, false), Ok(()));
    assert_eq!(*tree.node(9).unwrap().depth(), 4);
    assert!(!*tree.node(9).unwrap().enabled());
    assert!(*tree.node(9).unwrap().visible());
    assert!(*tree.node(8).unwrap().enabled());
    assert!(!*tree.node(8).unwrap().visible());
    assert_eq!(tree.node(9).unwrap().id(), 9);
    assert_eq!(tree.set_depth(2, 4), Err(TreeError::InvalidId));
    assert_eq!(tree.set_enabled(2, true), Err(TreeError::InvalidId));
    assert_eq!(tree.set_visible(2, true), Err(TreeError::InvalidId));
}

#[test]
fn remove_takes_the_node_and_all_below_it() {
    let mut tree = Itree::new(node(20, (0, 0), (20, 20)));
    tree.insert(20, node(21, (0, 0), (10, 10))).unwrap();
    tree.insert(20, node(22, (0, 0), (10, 10))).unwrap();
    tree.insert(21, node(23, (0, 0), (5, 5))).unwrap();
    tree.insert(23, node(24, (0, 0), (4, 4))).unwrap();
    tree.insert(22, node(25, (0, 0), (3, 3))).unwrap();
    assert_eq!(tree.draw_order(), vec![20, 21, 23, 24, 22, 25]);
    let removed = tree.remove(21).unwrap();
    assert_eq!(removed.id(), 21);
    assert!(!tree.contains_id(21));
    assert!(!tree.contains_id(23));
    assert!(!tree.contains_id(24));
    assert!(tree.contains_id(22));
    assert!(tree.contains_id(25));
    assert!(tree.node(23).is_none());
    assert_eq!(tree.children_ids(20), Some(vec![22]));
    assert_eq!(tree.draw_order(), vec![20, 22, 25]);
    assert_eq!(tree.remove(21).err(), Some(TreeError::InvalidId));
    assert_eq!(tree.remove(20).err(), Some(TreeError::InvalidId));
    assert_eq!(tree.remove(9).err(), Some(TreeError::InvalidId));
    assert_eq!(tree.insert(20, node(26, (0, 0), (1, 1))).unwrap(), 26);
    assert_eq!(
        tree.insert(23, node(27, (0, 0), (1, 1))).err(),
        Some(TreeError::InvalidId)
    );
    assert_eq!(tree.draw_order(), vec![20, 22, 25, 26]);
}

#[test]
fn canvas_cells_are_written_in_range_only() {
    let mut canvas = Canvas::new(U16Size::new(3, 2));
    assert_eq!(canvas.size(), U16Size::new(3, 2));
    assert_eq!(canvas.raw_symbols(), vec![vec![' '; 3], vec![' '; 3]]);
    assert!(canvas.set_cell(1, 2, 'x'));
    assert_eq!(canvas.cell(1, 2), Some('x'));
    assert_eq!(canvas.cell(0, 0), Some(' '));
    assert!(!canvas.set_cell(2, 0, 'y'));
    assert!(!canvas.set_cell(0, 3, 'y'));
    assert_eq!(canvas.cell(2, 0), None);
    assert_eq!(canvas.cell(0, 3), None);
    assert_eq!(canvas.raw_symbols(), vec![vec![' ', ' ', ' '], vec![' ', ' ', 'x']]);
}

#[test]
fn canvas_blit_covers_what_area_patch_and_canvas_share() {
    let mut canvas = Canvas::new(U16Size::new(4, 3));
    let patch = vec![vec!['a', 'b', 'c'], vec!['d'], vec!['e', 'f', 'g']];
    canvas.blit(&U16Rect::new((2, 0), (9, 9)), &patch);
    assert_eq!(
        canvas.raw_symbols(),
        vec![
            vec![' ', ' ', 'a', 'b'],
            vec![' ', ' ', 'd', ' '],
            vec![' ', ' ', 'e', 'f'],
        ]
    );
    let mut canvas = Canvas::new(U16Size::new(4, 3));
    canvas.blit(&U16Rect::new((1, 1), (3, 2)), &patch);
    assert_eq!(
        canvas.raw_symbols(),
        vec![
            vec![' ', ' ', ' ', ' '],
            vec![' ', 'a', 'b', ' '],
            vec![' ', ' ', ' ', ' '],
        ]
    );
    canvas.blit(&U16Rect::new((7, 7), (9, 9)), &patch);
    assert_eq!(canvas.cell(1, 1), Some('a'));
}

#[test]
fn clipping_stands_the_widest_coordinates() {
    let all = IRect::new((isize::MIN, isize::MIN), (isize::MAX, isize::MAX));
    assert_eq!(all.clip_to_plane(), U16Rect::new((0, 0), (65535, 65535)));
    assert_eq!(
        all.clip(&U16Rect::new((3, 4), (5, 6))),
        U16Rect::new((3, 4), (5, 6))
    );
    let mut tree = Itree::new(RootContainer::new(all, usize::MAX));
    assert_eq!(tree.insert(usize::MAX, RootContainer::new(all, 0)).unwrap(), 0);
    assert_eq!(
        *tree.node(0).unwrap().actual_shape(),
        U16Rect::new((0, 0), (65535, 65535))
    );
}
