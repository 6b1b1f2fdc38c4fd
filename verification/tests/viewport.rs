use rsvim_core::buf::{char_width, chars_of, glyphs_of, is_blank, Buffer, Glyph};
use rsvim_core::coord::{U16Rect, U16Size};
use rsvim_core::ui::widget::window::opt::ViewportOptions;
use rsvim_core::ui::widget::window::viewport::{
    chunk_end_of, width_of, CursorViewport, Viewport,
};

fn buffer_of(lines: Vec<&str>) -> Buffer {
    Buffer::from_lines(&lines, 1)
}

fn rows_of(viewport: &Viewport) -> Vec<(usize, usize, usize)> {
    (0..viewport.len_rows())
        .map(|i| {
            let row = viewport.row(i).unwrap();
            (row.line_idx(), row.start_char_idx(), row.end_char_idx())
        })
        .collect()
}

fn rendered(viewport: &Viewport) -> Vec<String> {
    viewport
        .render()
        .iter()
        .map(|cells| cells.iter().collect::<String>())
        .collect()
}

fn g(symbol: char, width: u8) -> Glyph {
    Glyph { symbol, width }
}

const NO_WRAP: ViewportOptions = ViewportOptions {
    wrap: false,
    line_break: false,
};
const WRAP: ViewportOptions = ViewportOptions {
    wrap: true,
    line_break: false,
};
const WORD_WRAP: ViewportOptions = ViewportOptions {
    wrap: true,
    line_break: true,
};

#[test]
fn buffer_keeps_lines_and_revision() {
    let buffer = Buffer::from_lines(&vec!["ab\n", "", "c"], 9);
    assert_eq!(buffer.revision(), 9);
    assert_eq!(buffer.len_lines(), 3);
    assert_eq!(buffer.line(0), Some(&vec![g('a', 1), g('b', 1), g('\n', 0)]));
    assert_eq!(buffer.line(1), Some(&vec![]));
    assert_eq!(buffer.line(2), Some(&vec![g('c', 1)]));
    assert_eq!(buffer.line(3), None);
    let empty = Buffer::new();
    assert_eq!(empty.len_lines(), 0);
    assert_eq!(empty.revision(), 0);
    assert_eq!(chars_of("hé\n"), vec!['h', 'é', '\n']);
    assert_eq!(glyphs_of("é\r"), vec![g('é', 1), g('\r', 0)]);
    let given = Buffer::from_glyphs(vec![vec![g('\t', 4), g('界', 2)]], 3);
    assert_eq!(given.revision(), 3);
    assert_eq!(given.line(0), Some(&vec![g('\t', 4), g('界', 2)]));
    let shared = Buffer::to_arc(given);
    assert_eq!(shared.len_lines(), 1);
}

#[test]
fn widths_and_blanks() {
    assert_eq!(char_width('a'), 1);
    assert_eq!(char_width(' '), 1);
    assert_eq!(char_width('\n'), 0);
    assert_eq!(char_width('\r'), 0);
    assert!(is_blank(' '));
    assert!(is_blank('\t'));
    assert!(is_blank('\n'));
    assert!(!is_blank('x'));
    let line = glyphs_of("ab\r\n");
    assert_eq!(width_of(&line, 0, 4), 2);
    assert_eq!(width_of(&line, 1, 2), 1);
    assert_eq!(width_of(&line, 2, 4), 0);
    let wide = vec![g('a', 1), g('界', 2), g('\t', 8), g('\n', 0)];
    assert_eq!(width_of(&wide, 0, 4), 11);
    assert_eq!(width_of(&wide, 1, 3), 10);
}

#[test]
fn chunk_end_by_policy() {
    let line = glyphs_of("Hello, RSVIM!\n");
    assert_eq!(chunk_end_of(&line, 0, 10, NO_WRAP), 10);
    assert_eq!(chunk_end_of(&line, 0, 10, WRAP), 10);
    assert_eq!(chunk_end_of(&line, 0, 10, WORD_WRAP), 7);
    assert_eq!(chunk_end_of(&line, 7, 10, WORD_WRAP), 14);
    assert_eq!(chunk_end_of(&line, 10, 10, WRAP), 14);
    assert_eq!(chunk_end_of(&line, 0, 0, WRAP), 0);
    assert_eq!(chunk_end_of(&line, 14, 10, WRAP), 14);
    // a line that fits takes its terminator along
    assert_eq!(chunk_end_of(&glyphs_of("Hello\n"), 0, 5, WRAP), 6);
    // a wide character that does not fit whole is left for the next row
    let wide = vec![g('a', 1), g('界', 2), g('界', 2), g('b', 1)];
    assert_eq!(chunk_end_of(&wide, 0, 4, WRAP), 2);
    assert_eq!(chunk_end_of(&wide, 2, 4, WRAP), 4);
    assert_eq!(chunk_end_of(&wide, 1, 1, WRAP), 1);
}

#[test]
fn no_wrap_takes_one_row_per_line() {
    let buffer = buffer_of(vec!["Hello, RSVIM!\n", "Hi\n", "\n", "last"]);
    let viewport = Viewport::new(&NO_WRAP, &buffer, &U16Rect::new((0, 0), (5, 6)));
    assert_eq!(
        rows_of(&viewport),
        vec![(0, 0, 5), (1, 0, 3), (2, 0, 1), (3, 0, 4)]
    );
    assert_eq!(
        rendered(&viewport),
        vec!["Hello", "Hi   ", "     ", "last ", "     ", "     "]
    );
}

#[test]
fn wrap_splits_at_characters_until_rows_run_out() {
    let buffer = buffer_of(vec!["abcdefghijkl\n", "xyz\n"]);
    let viewport = Viewport::new(&WRAP, &buffer, &U16Rect::new((3, 3), (8, 7)));
    assert_eq!(viewport.size(), U16Size::new(5, 4));
    assert_eq!(
        rows_of(&viewport),
        vec![(0, 0, 5), (0, 5, 10), (0, 10, 13), (1, 0, 4)]
    );
    assert_eq!(rendered(&viewport), vec!["abcde", "fghij", "kl   ", "xyz  "]);
    let short = Viewport::new(&WRAP, &buffer, &U16Rect::new((0, 0), (5, 2)));
    assert_eq!(rows_of(&short), vec![(0, 0, 5), (0, 5, 10)]);
    assert_eq!(rendered(&short), vec!["abcde", "fghij"]);
}

#[test]
fn wide_characters_take_their_columns() {
    let buffer = Buffer::from_glyphs(
        vec![
            vec![g('a', 1), g('界', 2), g('界', 2), g('b', 1), g('\n', 0)],
            vec![g('\t', 4), g('x', 1), g('\n', 0)],
        ],
        1,
    );
    let viewport = Viewport::new(&WRAP, &buffer, &U16Rect::new((0, 0), (4, 4)));
    assert_eq!(
        rows_of(&viewport),
        vec![(0, 0, 2), (0, 2, 5), (1, 0, 1), (1, 1, 3)]
    );
    assert_eq!(
        viewport.render(),
        vec![
            vec!['a', '界', ' ', ' '],
            vec!['界', ' ', 'b', ' '],
            vec!['\t', ' ', ' ', ' '],
            vec!['x', ' ', ' ', ' '],
        ]
    );
    let cut = Viewport::new(&NO_WRAP, &buffer, &U16Rect::new((0, 0), (2, 2)));
    assert_eq!(rows_of(&cut), vec![(0, 0, 1), (1, 0, 0)]);
    assert_eq!(cut.render(), vec![vec!['a', ' '], vec![' ', ' ']]);
}

#[test]
fn line_break_pulls_back_to_a_word_boundary() {
    let buffer = buffer_of(vec!["ab cdefghij kl"]);
    let viewport = Viewport::new(&WORD_WRAP, &buffer, &U16Rect::new((0, 0), (5, 5)));
    assert_eq!(
        rows_of(&viewport),
        vec![(0, 0, 3), (0, 3, 8), (0, 8, 12), (0, 12, 14)]
    );
    assert_eq!(
        rendered(&viewport),
        vec!["ab   ", "cdefg", "hij  ", "kl   ", "     "]
    );
}

#[test]
fn a_word_longer_than_the_row_is_split_at_characters() {
    let buffer = buffer_of(vec!["abcdefghijklmnop qr"]);
    let viewport = Viewport::new(&WORD_WRAP, &buffer, &U16Rect::new((0, 0), (5, 4)));
    assert_eq!(
        rows_of(&viewport),
        vec![(0, 0, 5), (0, 5, 10), (0, 10, 15), (0, 15, 19)]
    );
    assert_eq!(rendered(&viewport), vec!["abcde", "fghij", "klmno", "p qr "]);
}

#[test]
fn no_row_ends_inside_a_word_that_could_have_been_kept() {
    let text = "The quick brown fox jumps over the lazy dog and keeps running";
    let line = chars_of(text);
    let buffer = buffer_of(vec![text]);
    for cols in 1u16..12 {
        let viewport = Viewport::new(&WORD_WRAP, &buffer, &U16Rect::new((0, 0), (cols, 40)));
        for (_, start, end) in rows_of(&viewport) {
            let ends_inside_word = end < line.len() && !is_blank(line[end - 1]) && !is_blank(line[end]);
            if ends_inside_word {
                for at in (start + 1)..end {
                    assert!(!is_blank(line[at - 1]) && !is_blank(line[at]));
                }
            }
        }
    }
}

#[test]
fn a_region_without_columns_shows_nothing() {
    let buffer = buffer_of(vec!["ab\n", "cd\n", "ef\n"]);
    let viewport = Viewport::new(&NO_WRAP, &buffer, &U16Rect::new((0, 0), (0, 2)));
    assert_eq!(rows_of(&viewport), vec![(0, 0, 0), (1, 0, 0)]);
    assert_eq!(rendered(&viewport), vec!["", ""]);
    let none = Viewport::new(&WRAP, &buffer, &U16Rect::new((0, 0), (4, 0)));
    assert_eq!(none.len_rows(), 0);
    assert_eq!(rendered(&none).len(), 0);
}

#[test]
fn every_render_has_the_size_of_the_region() {
    let buffer = Buffer::from_glyphs(
        vec![
            glyphs_of("one two three four\n"),
            vec![g('界', 2), g('\t', 8), g('z', 1)],
            glyphs_of("\n"),
            glyphs_of("five"),
        ],
        1,
    );
    for options in [NO_WRAP, WRAP, WORD_WRAP] {
        for width in 0u16..7 {
            for height in 0u16..7 {
                let viewport =
                    Viewport::new(&options, &buffer, &U16Rect::new((1, 1), (1 + width, 1 + height)));
                let grid = viewport.render();
                assert_eq!(grid.len(), height as usize);
                for row in grid.iter() {
                    assert_eq!(row.len(), width as usize);
                }
                assert!(viewport.len_rows() <= height as usize);
            }
        }
    }
}

#[test]
fn recompute_gives_the_same_rows() {
    let buffer = buffer_of(vec!["one two three four\n", "five six\n"]);
    let mut viewport = Viewport::new(&WORD_WRAP, &buffer, &U16Rect::new((0, 0), (6, 4)));
    viewport.set_cursor(1, 2, &buffer);
    let before = rows_of(&viewport);
    let shown = rendered(&viewport);
    let cursor = viewport.cursor();
    viewport.recompute(&buffer);
    assert_eq!(rows_of(&viewport), before);
    viewport.recompute(&buffer);
    assert_eq!(rows_of(&viewport), before);
    assert_eq!(rendered(&viewport), shown);
    assert_eq!(viewport.cursor(), cursor);
    assert_eq!(viewport.cursor_position(), (1, 2));
}

#[test]
fn viewport_setters_lay_out_again() {
    let buffer = buffer_of(vec!["abcdef\n", "gh\n", "ij\n"]);
    let mut viewport = Viewport::new(&NO_WRAP, &buffer, &U16Rect::new((0, 0), (4, 2)));
    assert_eq!(viewport.options(), NO_WRAP);
    assert_eq!(viewport.start_line(), 0);
    assert_eq!(viewport.revision(), 1);
    assert_eq!(rows_of(&viewport), vec![(0, 0, 4), (1, 0, 3)]);
    assert_eq!(viewport.row(2), None);
    viewport.set_options(&WRAP, &buffer);
    assert_eq!(viewport.options(), WRAP);
    assert_eq!(rows_of(&viewport), vec![(0, 0, 4), (0, 4, 7)]);
    viewport.set_size(U16Size::new(3, 3), &buffer);
    assert_eq!(viewport.size(), U16Size::new(3, 3));
    assert_eq!(rows_of(&viewport), vec![(0, 0, 3), (0, 3, 7), (1, 0, 3)]);
    viewport.set_start_line(1, &buffer);
    assert_eq!(viewport.start_line(), 1);
    assert_eq!(rows_of(&viewport), vec![(1, 0, 3), (2, 0, 3)]);
    viewport.set_start_line(7, &buffer);
    assert_eq!(viewport.len_rows(), 0);
    assert_eq!(rendered(&viewport), vec!["   ", "   ", "   "]);
    let built = Viewport::build(&WRAP, U16Size::new(3, 3), 1, (2, 1), &buffer);
    assert_eq!(rows_of(&built), vec![(1, 0, 3), (2, 0, 3)]);
    assert_eq!(built.cursor(), Some(CursorViewport { row: 1, col: 1 }));
    assert_eq!(built.cells(), &built.render());
}

#[test]
fn viewport_sync_compares_revisions() {
    let mut viewport = Viewport::new(
        &NO_WRAP,
        &Buffer::from_lines(&vec!["a\n"], 4),
        &U16Rect::new((0, 0), (2, 2)),
    );
    assert!(!viewport.sync(&Buffer::from_lines(&vec!["b\n"], 4)));
    assert_eq!(rendered(&viewport), vec!["a ", "  "]);
    assert!(viewport.sync(&Buffer::from_lines(&vec!["b\n", "c\n"], 5)));
    assert_eq!(rendered(&viewport), vec!["b ", "c "]);
    assert_eq!(viewport.revision(), 5);
}

#[test]
fn the_viewport_shows_the_state_that_it_is_handed() {
    let first = buffer_of(vec!["old\n"]);
    let second = Buffer::from_lines(&vec!["new text\n"], 2);
    let mut viewport = Viewport::new(&NO_WRAP, &first, &U16Rect::new((0, 0), (5, 1)));
    drop(first);
    assert_eq!(rendered(&viewport), vec!["old  "]);
    viewport.set_options(&WRAP, &second);
    assert_eq!(viewport.revision(), 2);
    assert_eq!(rendered(&viewport), vec!["new t"]);
}

#[test]
fn line_groups_the_rows_of_one_buffer_line() {
    let buffer = buffer_of(vec!["abcdefghijkl\n", "xyz\n", "tail\n"]);
    let viewport = Viewport::new(&WRAP, &buffer, &U16Rect::new((0, 0), (5, 4)));
    let first = viewport.line(0).unwrap();
    assert_eq!(first.line_idx(), 0);
    assert_eq!(first.first_row(), 0);
    assert_eq!(first.len_rows(), 3);
    assert_eq!(first.row(0), viewport.row(0));
    assert_eq!(first.row(2), viewport.row(2));
    assert_eq!(first.row(3), None);
    let second = viewport.line(1).unwrap();
    assert_eq!(second.line_idx(), 1);
    assert_eq!(second.first_row(), 3);
    assert_eq!(second.len_rows(), 1);
    assert_eq!(second.row(0), viewport.row(3));
    assert_eq!(viewport.line(2), None);
    assert_eq!(viewport.line(9), None);
}

#[test]
fn lines_lists_the_shown_lines_in_order() {
    let buffer = buffer_of(vec!["abcdefghijkl\n", "xyz\n", "tail\n"]);
    let viewport = Viewport::new(&WRAP, &buffer, &U16Rect::new((0, 0), (5, 5)));
    let lines = viewport.lines();
    assert_eq!(lines.len(), 3);
    assert_eq!(
        lines
            .iter()
            .map(|l| (l.line_idx(), l.first_row(), l.len_rows()))
            .collect::<Vec<_>>(),
        vec![(0, 0, 3), (1, 3, 1), (2, 4, 1)]
    );
    assert_eq!(Some(lines[0].clone()), viewport.line(0));
    assert_eq!(Some(lines[1].clone()), viewport.line(1));
    assert_eq!(lines[2].row(0), viewport.row(4));
    let none = Viewport::new(&WRAP, &Buffer::new(), &U16Rect::new((0, 0), (5, 5)));
    assert_eq!(none.lines().len(), 0);
}

#[test]
fn the_cursor_is_located_where_it_stands() {
    let buffer = buffer_of(vec!["abcdefghijkl\n", "xyz\n"]);
    let mut viewport = Viewport::new(&WRAP, &buffer, &U16Rect::new((0, 0), (5, 4)));
    assert_eq!(viewport.cursor_position(), (0, 0));
    assert_eq!(viewport.cursor(), Some(CursorViewport { row: 0, col: 0 }));
    for (at, expect) in [
        ((0, 4), Some((0, 4))),
        ((0, 5), Some((1, 0))),
        ((0, 11), Some((2, 1))),
        ((0, 12), Some((2, 2))),
        ((1, 2), Some((3, 2))),
        ((0, 13), None),
        ((2, 0), None),
    ] {
        viewport.set_cursor(at.0, at.1, &buffer);
        assert_eq!(viewport.cursor_position(), at);
        assert_eq!(
            viewport.cursor(),
            expect.map(|(row, col)| CursorViewport { row, col })
        );
    }
    viewport.set_cursor(0, 11, &buffer);
    viewport.set_options(&NO_WRAP, &buffer);
    assert_eq!(viewport.cursor(), None);
    viewport.set_cursor(1, 1, &buffer);
    assert_eq!(viewport.cursor(), Some(CursorViewport { row: 1, col: 1 }));
    viewport.set_start_line(1, &buffer);
    assert_eq!(viewport.cursor(), Some(CursorViewport { row: 0, col: 1 }));
    let wide = Buffer::from_glyphs(vec![vec![g('界', 2), g('\t', 4), g('x', 1)]], 1);
    let mut viewport = Viewport::new(&NO_WRAP, &wide, &U16Rect::new((0, 0), (9, 1)));
    viewport.set_cursor(0, 2, &wide);
    assert_eq!(viewport.cursor(), Some(CursorViewport { row: 0, col: 6 }));
}
