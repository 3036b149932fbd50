use nxvim_core::buffer::Buffer;
use nxvim_core::layout::{distribute, layout_node, Node, Rect, SplitDir, WindowId};
use nxvim_core::rows::{Fold, LineRows, RowMap};
use nxvim_core::scroll::{digit_count, number_width_for, scroll_margin};
use nxvim_core::splits::{
    adjust_sizes, equalize_node, maximize_toward, min_extent, remove_leaf, resize_toward,
    split_leaf,
};
use nxvim_core::options::WindowOptions;
use nxvim_core::virt::VirtMark;
use nxvim_core::window::{
    place_float, BorderStyle, BufferId, FloatAnchor, FloatConfig, FloatRelative, WindowTree,
};

fn rect(x: usize, y: usize, width: usize, height: usize) -> Rect {
    Rect { x, y, width, height }
}

#[test]
fn cells_are_handed_out_whole() {
    assert_eq!(distribute(10, &vec![1, 1, 1]).iter().sum::<usize>(), 10);
    assert_eq!(distribute(30, &vec![10, 20]), vec![10, 20]);
    let once = distribute(11, &vec![1, 1]);
    assert_eq!(distribute(11, &once), once);
}

fn lay(root: &mut Node, total: Rect) -> Vec<(WindowId, Rect)> {
    let mut rects = Vec::new();
    let mut seps = Vec::new();
    layout_node(root, total, &mut rects, &mut seps);
    rects
}

#[test]
fn splits_share_the_area() {
    let mut root = Node::Leaf(WindowId(1));
    assert!(split_leaf(&mut root, WindowId(1), SplitDir::Horizontal, WindowId(2)));
    assert!(!split_leaf(&mut root, WindowId(9), SplitDir::Horizontal, WindowId(3)));
    let rects = lay(&mut root, rect(0, 0, 80, 24));
    assert_eq!(rects[0], (WindowId(2), rect(0, 0, 80, 12)));
    // A row between the two is the border.
    assert_eq!(rects[1], (WindowId(1), rect(0, 13, 80, 11)));
    assert!(split_leaf(&mut root, WindowId(2), SplitDir::Vertical, WindowId(3)));
    let rects = lay(&mut root, rect(0, 0, 81, 24));
    // A column between the two is the border.
    assert_eq!(rects[0].1.width + rects[1].1.width, 80);
    assert_eq!(rects[0].0, WindowId(3));
}

#[test]
fn removing_undoes_splitting() {
    let mut root = Node::Leaf(WindowId(1));
    split_leaf(&mut root, WindowId(1), SplitDir::Vertical, WindowId(2));
    assert!(remove_leaf(&mut root, WindowId(2)));
    let mut out = Vec::new();
    root.collect_leaves(&mut out);
    assert_eq!(out, vec![WindowId(1)]);
    assert!(!remove_leaf(&mut root, WindowId(1)));
}

#[test]
fn sizes_are_moved_between_neighbours() {
    let mut sizes = vec![10, 10, 10];
    adjust_sizes(&mut sizes, 0, 4, SplitDir::Vertical);
    assert_eq!(sizes.iter().sum::<usize>(), 30);
    assert_eq!(sizes[0], 14);
    let mut sizes = vec![10, 10];
    adjust_sizes(&mut sizes, 1, -100, SplitDir::Vertical);
    assert_eq!(sizes.iter().sum::<usize>(), 20);
    assert_eq!(sizes[1], min_extent(SplitDir::Vertical));
}

#[test]
fn windows_are_resized_and_made_equal() {
    let mut root = Node::Leaf(WindowId(1));
    split_leaf(&mut root, WindowId(1), SplitDir::Horizontal, WindowId(2));
    lay(&mut root, rect(0, 0, 80, 24));
    let mut done = false;
    assert!(resize_toward(&mut root, WindowId(2), SplitDir::Horizontal, 3, &mut done));
    assert!(done);
    assert_eq!(lay(&mut root, rect(0, 0, 80, 24))[0].1.height, 15);
    equalize_node(&mut root);
    assert_eq!(lay(&mut root, rect(0, 0, 80, 24))[0].1.height, 12);
    assert!(maximize_toward(&mut root, WindowId(1), SplitDir::Horizontal));
    let rects = lay(&mut root, rect(0, 0, 80, 24));
    assert!(rects[1].1.height > rects[0].1.height);
    assert_eq!(rects[0].1.height + rects[1].1.height, 23);
}

#[test]
fn floats_stay_inside() {
    let total = rect(0, 0, 80, 24);
    let mut cfg = FloatConfig::default();
    cfg.width = 10;
    cfg.height = 5;
    cfg.col = 78;
    cfg.row = -3;
    assert_eq!(place_float(total, total, &cfg), rect(70, 0, 10, 5));
    cfg.anchor = FloatAnchor::SE;
    cfg.col = 20;
    cfg.row = 9;
    assert_eq!(place_float(total, total, &cfg), rect(10, 4, 10, 5));
    cfg.width = 0;
    assert_eq!(place_float(total, total, &cfg).width, 1);
    assert_eq!(rect(2, 4, 10, 6).center(), (7, 7));
}

#[test]
fn floats_are_painted_by_stacking_order() {
    let mut t = WindowTree::with_one(BufferId(1));
    let float = |z: u32| {
        let mut c = FloatConfig::default();
        c.zindex = z;
        c.relative = FloatRelative::Editor;
        c.border = BorderStyle::Borderless;
        c
    };
    let a = t.open_float(BufferId(1), float(60));
    let b = t.open_float(BufferId(1), float(50));
    let c = t.open_float(BufferId(1), float(60));
    assert_eq!(t.floats, vec![b, a, c]);
    assert_eq!(t.window_ids(), vec![WindowId(1), b, a, c]);
    t.layout(rect(0, 0, 80, 24), (0, 0));
    assert_eq!(t.get(WindowId(1)).rect, rect(0, 0, 80, 24));
    assert!(!t.can_close(WindowId(1)));
    assert!(t.can_close(a));
    t.take_out(a);
    assert_eq!(t.floats, vec![b, c]);
}

#[test]
fn gutters_fit_the_numbers() {
    let mut o = WindowOptions::default();
    assert_eq!(number_width_for(o, 10), 0);
    o.number = true;
    assert_eq!(number_width_for(o, 10), 4);
    assert_eq!(number_width_for(o, 12345), 6);
    assert_eq!(digit_count(0), 1);
    assert_eq!(digit_count(usize::MAX), 20);
    assert_eq!(scroll_margin(5, 20), 5);
    assert_eq!(scroll_margin(50, 20), 9);
    assert_eq!(scroll_margin(3, 0), 0);
}

fn rows(heights: &[usize], folds: &[(usize, usize)]) -> RowMap {
    RowMap {
        lines: heights.iter().map(|h| LineRows { above: 0, text: *h, below: 0 }).collect(),
        folds: folds.iter().map(|(start, end)| Fold { start: *start, end: *end }).collect(),
    }
}

#[test]
fn wrapped_lines_take_their_rows() {
    let m = rows(&[1, 3, 2, 1, 1], &[]);
    assert_eq!(m.cursor_screen_row(0, 3, 0), 6);
    assert_eq!(m.cursor_screen_row(1, 2, 1), 4);
    assert_eq!(m.cursor_screen_row(3, 1, 0), 0);
    // Rows 3 + 2 + 1 fill a window of six.
    assert_eq!(m.scroll_top_for_bottom(3, 0, 6), 1);
    assert_eq!(m.scroll_top_for_bottom(3, 0, 5), 2);
    assert_eq!(m.scroll_top_for_bottom(1, 2, 2), 1);
    assert_eq!(m.scroll_top_for_row_above_seg(3, 1, 0), 2);
    assert_eq!(m.scroll_top_for_row_above_seg(3, 3, 0), 1);
    assert_eq!(m.scroll_top_for_row_above_seg(2, 1, 1), 2);
    assert_eq!(m.max_scroll_top(0, 4), 4);
    assert_eq!(m.max_scroll_top(1, 4), 3);
    assert_eq!(m.visible_top(0, 4, 0, 0, 3), 3);
    assert_eq!(m.visible_top(4, 0, 0, 0, 3), 0);
    assert_eq!(m.scroll_view_line(3, true, 1, 4), 3);
    assert_eq!(m.scroll_view_line(2, true, 1, 4), 3);
    assert_eq!(m.scroll_view_line(0, false, 0, 4), 0);
    assert_eq!(m.reveal_top(4, 1, 2, 0, 5), 1);
    assert_eq!(m.reveal_top(4, 1, 2, 1, 3), 2);
    assert_eq!(m.reveal_top(1, 1, 2, 0, 5), 1);
}

#[test]
fn folds_take_one_row() {
    let m = rows(&[1, 1, 1, 1, 1, 1], &[(1, 3)]);
    assert_eq!(m.cursor_screen_row(0, 5, 0), 3);
    assert_eq!(m.rows_of_line_above(4), (1, 1));
    assert_eq!(m.rows_of_line_above(1), (1, 0));
    assert_eq!(m.scroll_top_for_bottom(5, 0, 3), 1);
    assert_eq!(m.scroll_top_for_bottom(5, 0, 4), 0);
    let plain = rows(&[1; 50], &[]);
    assert_eq!(plain.visible_top(0, 30, 0, 5, 20), 16);
}

#[test]
fn rows_beside_lines_are_gathered() {
    let b = Buffer::from_file(
        "f".to_string(),
        Some(("ab\ncd\nef\n".to_string(), "utf-8".to_string(), false)),
        None,
    );
    let mark = |start: usize, priority: u32, id: u64, above: bool, rows: &[&str]| VirtMark {
        start,
        priority,
        id,
        above,
        rows: rows.iter().map(|s| s.to_string()).collect(),
    };
    let marks = vec![
        mark(4, 1, 1, false, &["z"]),
        mark(3, 9, 2, false, &["y"]),
        mark(3, 1, 3, false, &["x", "x2"]),
        mark(3, 1, 2, true, &["up"]),
        mark(7, 1, 4, false, &[]),
    ];
    let r = b.virt_lines_by_line(&marks);
    assert_eq!(r.len(), 1);
    let at = r.get(1).unwrap();
    assert_eq!(at.above, vec!["up"]);
    assert_eq!(at.below, vec!["x", "x2", "y", "z"]);
}
