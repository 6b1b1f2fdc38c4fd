use rsvim_core::buf::{Buffer, BufferArc, Glyph};
use rsvim_core::coord::{IRect, U16Rect, U16Size};
use rsvim_core::ui::canvas::Canvas;
use rsvim_core::ui::tree::{Inodeable, TreeError};
use rsvim_core::ui::widget::window::content::WindowContent;
use rsvim_core::ui::widget::window::opt::{
    ViewportOptions, WindowGlobalOptions, WindowGlobalOptionsBuilder, WindowLocalOptions,
    WindowOptionsBuilder,
};
use rsvim_core::ui::widget::window::viewport::Viewport;
use rsvim_core::ui::widget::window::{Window, WindowNode};
use rsvim_core::ui::widget::Widgetable;
use std::sync::{Arc, Weak};

type BufferWk = Weak<Buffer>;

fn make_buffer_from_lines(lines: Vec<&str>) -> BufferArc {
    Buffer::to_arc(Buffer::from_lines(&lines, 1))
}

fn make_window_from_size(
    size: U16Size,
    buffer: BufferArc,
    window_options: &WindowLocalOptions,
) -> Window<BufferWk> {
    let window_shape = IRect::new((0, 0), (size.width() as isize, size.height() as isize));
    Window::new(
        window_shape,
        Arc::downgrade(&buffer),
        &buffer,
        window_options,
        1,
        2,
    )
    .unwrap()
}

fn symbols(canvas: &Canvas) -> Vec<String> {
    canvas
        .raw_symbols()
        .iter()
        .map(|cs| cs.iter().collect::<String>())
        .collect::<Vec<_>>()
}

fn do_test_draw(actual: &Canvas, expect: &[&str]) {
    let actual = symbols(actual);
    assert_eq!(actual.len(), expect.len());
    for i in 0..actual.len() {
        let e = &expect[i];
        let a = &actual[i];
        assert_eq!(e.len(), a.len());
        assert_eq!(e, a);
    }
}

fn seven_lines() -> Vec<&'static str> {
    vec![
        "Hello, RSVIM!\n",
        "This is a quite simple and small test lines.\n",
        "But still it contains several things we want to test:\n",
        "  1. When the line is small enough to completely put inside a row of the window content widget, then the line-wrap and word-wrap doesn't affect the rendering.\n",
        "  2. When the line is too long to be completely put in a row of the window content widget, there're multiple cases:\n",
        "     * The extra parts are been truncated if both line-wrap and word-wrap options are not set.\n",
        "     * The extra parts are split into the next row, if either line-wrap or word-wrap options are been set. If the extra parts are still too long to put in the next row, repeat this operation again and again. This operation also eats more rows in the window, thus it may contains less lines in the buffer.\n",
    ]
}

#[test]
fn draw_after_init1() {
    let buf = make_buffer_from_lines(seven_lines());
    let expect = vec![
        "Hello, RSV",
        "This is a ",
        "But still ",
        "  1. When ",
        "  2. When ",
        "     * The",
        "     * The",
        "          ",
        "          ",
        "          ",
    ];

    let terminal_size = U16Size::new(10, 10);
    let window_local_options = WindowLocalOptions::builder().wrap(false).build();
    let window = make_window_from_size(terminal_size, buf.clone(), &window_local_options);
    let mut actual = Canvas::new(terminal_size);
    window.draw(&mut actual);
    do_test_draw(&actual, &expect);
}

#[test]
pub fn options1() {
    let mut builder = WindowOptionsBuilder::default();
    let opt1 = builder.wrap(true).line_break(true).build();
    assert!(opt1.wrap());
    assert!(opt1.line_break());

    let opt2 = WindowLocalOptions::builder().build();
    assert!(opt2.wrap());
    assert!(!opt2.line_break());
}

#[test]
fn options_defaults_and_setters() {
    let mut options = WindowLocalOptions::default();
    assert!(options.wrap());
    assert!(!options.line_break());
    options.set_wrap(false);
    options.set_line_break(true);
    assert!(!options.wrap());
    assert!(options.line_break());
    let viewport_options = ViewportOptions::from(&options);
    assert_eq!(
        viewport_options,
        ViewportOptions {
            wrap: false,
            line_break: true
        }
    );
    let global = WindowGlobalOptions::builder().build();
    assert_eq!(global, WindowGlobalOptions::default());
    assert_eq!(
        WindowGlobalOptionsBuilder::default().build(),
        WindowGlobalOptions {}
    );
}

#[test]
fn draw_with_wrap_splits_at_characters() {
    let buf = make_buffer_from_lines(seven_lines());
    let options = WindowLocalOptions::builder().wrap(true).build();
    let size = U16Size::new(10, 4);
    let window = make_window_from_size(size, buf, &options);
    let mut canvas = Canvas::new(size);
    window.draw(&mut canvas);
    do_test_draw(
        &canvas,
        &["Hello, RSV", "IM!       ", "This is a ", "quite simp"],
    );
}

#[test]
fn draw_with_line_break_keeps_words_whole() {
    let buf = make_buffer_from_lines(seven_lines());
    let options = WindowLocalOptions::builder()
        .wrap(true)
        .line_break(true)
        .build();
    let size = U16Size::new(10, 5);
    let window = make_window_from_size(size, buf, &options);
    let mut canvas = Canvas::new(size);
    window.draw(&mut canvas);
    do_test_draw(
        &canvas,
        &[
            "Hello,    ",
            "RSVIM!    ",
            "This is a ",
            "quite     ",
            "simple and",
        ],
    );
}

#[test]
fn draw_empty_buffer_is_blank() {
    let buf = Buffer::to_arc(Buffer::new());
    let options = WindowLocalOptions::default();
    let size = U16Size::new(3, 2);
    let window = make_window_from_size(size, buf, &options);
    assert_eq!(window.viewport().len_rows(), 0);
    let mut canvas = Canvas::new(size);
    window.draw(&mut canvas);
    do_test_draw(&canvas, &["   ", "   "]);
}

#[test]
fn draw_shows_wide_characters_in_their_columns() {
    let buf = Buffer::from_glyphs(
        vec![vec![
            Glyph { symbol: '界', width: 2 },
            Glyph { symbol: 'a', width: 1 },
            Glyph { symbol: '界', width: 2 },
        ]],
        1,
    );
    let window = Window::new(
        IRect::new((1, 0), (5, 2)),
        (),
        &buf,
        &WindowLocalOptions::default(),
        7,
        8,
    )
    .unwrap();
    let mut canvas = Canvas::new(U16Size::new(6, 2));
    window.draw(&mut canvas);
    assert_eq!(
        canvas.raw_symbols(),
        vec![
            vec![' ', '界', ' ', 'a', ' ', ' '],
            vec![' ', '界', ' ', ' ', ' ', ' '],
        ]
    );
}

#[test]
fn draw_writes_only_inside_the_window() {
    let buf = make_buffer_from_lines(vec!["abcdef\n", "ghijkl\n", "mnopqr\n"]);
    let options = WindowLocalOptions::builder().wrap(false).build();
    let window = Window::new(IRect::new((2, 1), (5, 3)), (), &buf, &options, 1, 2).unwrap();
    assert_eq!(*window.actual_shape(), U16Rect::new((2, 1), (5, 3)));
    let mut canvas = Canvas::new(U16Size::new(6, 4));
    for row in 0..4 {
        for col in 0..6 {
            assert!(canvas.set_cell(row, col, '.'));
        }
    }
    window.draw(&mut canvas);
    do_test_draw(&canvas, &["......", "..abc.", "..ghi.", "......"]);
}

#[test]
fn draw_on_a_smaller_canvas_is_cut_off() {
    let buf = make_buffer_from_lines(vec!["abcdef\n", "ghijkl\n", "mnopqr\n"]);
    let options = WindowLocalOptions::builder().wrap(false).build();
    let window = Window::new(IRect::new((1, 1), (7, 4)), (), &buf, &options, 1, 2).unwrap();
    let mut canvas = Canvas::new(U16Size::new(4, 2));
    window.draw(&mut canvas);
    do_test_draw(&canvas, &["    ", " abc"]);
}

#[test]
fn each_part_draws_itself() {
    let buf = make_buffer_from_lines(vec!["abc\n", "de\n"]);
    let viewport = Viewport::new(
        &ViewportOptions {
            wrap: false,
            line_break: false,
        },
        &buf,
        &U16Rect::new((0, 0), (2, 2)),
    );
    let mut content = WindowContent::new(IRect::new((1, 1), (3, 3)), 5, viewport);
    content.set_actual_shape(&U16Rect::new((1, 1), (3, 3)));
    assert_eq!(content.id(), 5);
    assert_eq!(content.viewport().len_rows(), 2);
    let mut canvas = Canvas::new(U16Size::new(4, 3));
    content.draw(&mut canvas);
    do_test_draw(&canvas, &["    ", " ab ", " de "]);
    let node = WindowNode::WindowContent(content);
    assert_eq!(node.id(), 5);
    let mut canvas = Canvas::new(U16Size::new(3, 2));
    node.draw(&mut canvas);
    do_test_draw(&canvas, &["   ", " ab"]);
}

#[test]
fn window_new_sets_up_root_and_content() {
    let buf = make_buffer_from_lines(vec!["one\n"]);
    let options = WindowLocalOptions::default();
    let window = Window::new(
        IRect::new((-3, -2), (7, 5)),
        Arc::downgrade(&buf),
        &buf,
        &options,
        31,
        32,
    )
    .unwrap();
    assert_eq!(window.id(), 31);
    assert_eq!(*window.depth(), 0);
    assert_eq!(*window.zindex(), 0);
    assert_eq!(*window.shape(), IRect::new((-3, -2), (7, 5)));
    assert_eq!(*window.actual_shape(), U16Rect::new((0, 0), (7, 5)));
    assert!(*window.enabled());
    assert!(*window.visible());
    assert!(window.wrap());
    assert!(!window.line_break());
    assert_eq!(window.viewport().size(), U16Size::new(7, 5));
    assert_eq!(window.viewport().revision(), buf.revision());
    assert_eq!(window.viewport().cursor_position(), (0, 0));
    assert!(Weak::ptr_eq(window.buffer(), &Arc::downgrade(&buf)));
    assert_eq!(window.options().wrap(), options.wrap());
}

#[test]
fn windows_have_the_identities_that_they_are_given() {
    let buf = make_buffer_from_lines(vec!["one\n"]);
    let options = WindowLocalOptions::default();
    let shape = IRect::new((0, 0), (4, 4));
    let a = Window::new(shape, (), &buf, &options, 1, 2).unwrap();
    let b = Window::new(shape, (), &buf, &options, 3, 4).unwrap();
    assert_eq!(a.id(), 1);
    assert_eq!(b.id(), 3);
    assert_ne!(a.id(), b.id());
    let same = Window::new(shape, (), &buf, &options, 5, 5);
    assert_eq!(same.err(), Some(TreeError::InvalidId));
}

#[test]
fn the_window_does_not_keep_the_buffer_alive() {
    let buf = make_buffer_from_lines(vec!["one\n"]);
    let window = make_window_from_size(U16Size::new(4, 1), buf.clone(), &WindowLocalOptions::default());
    assert_eq!(Arc::strong_count(&buf), 1);
    assert!(window.buffer().upgrade().is_some());
    drop(buf);
    assert!(window.buffer().upgrade().is_none());
    // what was laid out can still be drawn
    let mut canvas = Canvas::new(U16Size::new(4, 1));
    window.draw(&mut canvas);
    do_test_draw(&canvas, &["one "]);
}

#[test]
fn window_new_rejects_a_shape_off_the_grid() {
    let buf = make_buffer_from_lines(vec!["one\n"]);
    let options = WindowLocalOptions::default();
    let result = Window::new(IRect::new((-9, -9), (-1, -1)), (), &buf, &options, 1, 2);
    assert_eq!(result.err(), Some(TreeError::Bounds));
    let result = Window::new(IRect::new((0, 0), (0, 5)), (), &buf, &options, 1, 2);
    assert_eq!(result.err(), Some(TreeError::Bounds));
}

#[test]
fn toggling_wrap_restores_the_layout() {
    let buf = make_buffer_from_lines(seven_lines());
    let size = U16Size::new(10, 10);
    let no_wrap = WindowLocalOptions::builder().wrap(false).build();
    let direct = make_window_from_size(size, buf.clone(), &no_wrap);
    let mut window = make_window_from_size(size, buf.clone(), &no_wrap);
    window.set_wrap(true, &buf);
    assert!(window.wrap());
    assert_eq!(window.viewport().row(1).unwrap().line_idx(), 0);
    window.set_wrap(false, &buf);
    assert!(!window.wrap());
    assert_eq!(window.viewport().len_rows(), direct.viewport().len_rows());
    for i in 0..direct.viewport().len_rows() {
        assert_eq!(window.viewport().row(i), direct.viewport().row(i));
    }
    let mut a = Canvas::new(size);
    let mut b = Canvas::new(size);
    window.draw(&mut a);
    direct.draw(&mut b);
    assert_eq!(symbols(&a), symbols(&b));
}

#[test]
fn set_options_and_line_break_lay_out_again() {
    let buf = make_buffer_from_lines(seven_lines());
    let size = U16Size::new(10, 3);
    let mut window = make_window_from_size(size, buf.clone(), &WindowLocalOptions::default());
    let mut canvas = Canvas::new(size);
    window.draw(&mut canvas);
    do_test_draw(&canvas, &["Hello, RSV", "IM!       ", "This is a "]);
    window.set_line_break(true, &buf);
    assert!(window.line_break());
    let mut canvas = Canvas::new(size);
    window.draw(&mut canvas);
    do_test_draw(&canvas, &["Hello,    ", "RSVIM!    ", "This is a "]);
    let plain = WindowLocalOptions::builder().wrap(false).build();
    window.set_options(&plain, &buf);
    assert!(!window.wrap());
    assert!(!window.line_break());
    let mut canvas = Canvas::new(size);
    window.draw(&mut canvas);
    do_test_draw(&canvas, &["Hello, RSV", "This is a ", "But still "]);
    window.set_options(&plain, &buf);
    let mut again = Canvas::new(size);
    window.draw(&mut again);
    assert_eq!(symbols(&again), symbols(&canvas));
}

#[test]
fn window_set_shape_resizes_the_viewport() {
    let buf = make_buffer_from_lines(seven_lines());
    let options = WindowLocalOptions::builder().wrap(false).build();
    let mut window = make_window_from_size(U16Size::new(10, 10), buf.clone(), &options);
    assert_eq!(window.set_shape(&IRect::new((0, 0), (5, 2)), &buf), Ok(()));
    assert_eq!(*window.shape(), IRect::new((0, 0), (5, 2)));
    assert_eq!(*window.actual_shape(), U16Rect::new((0, 0), (5, 2)));
    assert_eq!(window.viewport().size(), U16Size::new(5, 2));
    assert_eq!(window.viewport().len_rows(), 2);
    let mut canvas = Canvas::new(U16Size::new(6, 3));
    window.draw(&mut canvas);
    do_test_draw(&canvas, &["Hello ", "This  ", "      "]);
    assert_eq!(
        window.set_shape(&IRect::new((-5, 0), (0, 2)), &buf),
        Err(TreeError::Bounds)
    );
    assert_eq!(*window.shape(), IRect::new((0, 0), (5, 2)));
    assert_eq!(window.viewport().size(), U16Size::new(5, 2));
    assert_eq!(window.id(), 1);
}

#[test]
fn window_set_actual_shape_clips_the_content() {
    let buf = make_buffer_from_lines(seven_lines());
    let options = WindowLocalOptions::builder().wrap(false).build();
    let mut window = make_window_from_size(U16Size::new(10, 10), buf.clone(), &options);
    window.set_actual_shape(&U16Rect::new((2, 3), (6, 5)), &buf);
    assert_eq!(*window.actual_shape(), U16Rect::new((2, 3), (6, 5)));
    assert_eq!(window.viewport().size(), U16Size::new(4, 2));
    let mut canvas = Canvas::new(U16Size::new(8, 6));
    window.draw(&mut canvas);
    do_test_draw(
        &canvas,
        &[
            "        ", "        ", "        ", "  Hell  ", "  This  ", "        ",
        ],
    );
}

#[test]
fn window_node_setters_touch_the_root_alone() {
    let buf = make_buffer_from_lines(vec!["one\n"]);
    let mut window = make_window_from_size(U16Size::new(4, 4), buf, &WindowLocalOptions::default());
    window.set_depth(3);
    window.set_zindex(7);
    window.set_enabled(false);
    window.set_visible(false);
    assert_eq!(*window.depth(), 3);
    assert_eq!(*window.zindex(), 7);
    assert!(!*window.enabled());
    assert!(!*window.visible());
    assert_eq!(window.id(), 1);
    assert_eq!(window.viewport().size(), U16Size::new(4, 4));
}

#[test]
fn sync_takes_a_new_revision_only() {
    let first = Buffer::from_lines(&vec!["old\n"], 1);
    let same = Buffer::from_lines(&vec!["ignored\n"], 1);
    let next = Buffer::from_lines(&vec!["new\n", "more\n"], 2);
    let size = U16Size::new(4, 2);
    let mut window = Window::new(
        IRect::new((0, 0), (4, 2)),
        (),
        &first,
        &WindowLocalOptions::default(),
        1,
        2,
    )
    .unwrap();
    assert!(!window.sync(&same));
    let mut canvas = Canvas::new(size);
    window.draw(&mut canvas);
    do_test_draw(&canvas, &["old ", "    "]);
    assert!(window.sync(&next));
    assert_eq!(window.viewport().revision(), 2);
    let mut canvas = Canvas::new(size);
    window.draw(&mut canvas);
    do_test_draw(&canvas, &["new ", "more"]);
}

#[test]
fn window_cursor_follows_the_layout() {
    let buf = make_buffer_from_lines(seven_lines());
    let size = U16Size::new(10, 4);
    let mut window = make_window_from_size(size, buf.clone(), &WindowLocalOptions::default());
    window.set_cursor(0, 12, &buf);
    let at = window.viewport().cursor().unwrap();
    assert_eq!((at.row, at.col), (1, 2));
    window.set_line_break(true, &buf);
    assert_eq!(window.viewport().cursor_position(), (0, 12));
    let at = window.viewport().cursor().unwrap();
    assert_eq!((at.row, at.col), (1, 5));
    assert_eq!(window.set_shape(&IRect::new((0, 0), (8, 4)), &buf), Ok(()));
    assert_eq!(window.viewport().cursor_position(), (0, 12));
    window.set_wrap(false, &buf);
    assert_eq!(window.viewport().cursor_position(), (0, 12));
    assert_eq!(window.viewport().cursor(), None);
}
