//! The viewport: which part of which buffer line each screen row shows.

use crate::buf::{is_blank, spec_is_blank, Buffer, Glyph};
use crate::coord::{U16Rect, U16Size};
use crate::ui::canvas::{grid_view, spec_blank};
use crate::ui::widget::window::opt::ViewportOptions;
use vstd::prelude::*;

verus! {

/// The number of screen columns that the characters `start..end` of a line
/// take.
pub open spec fn span_width(line: Seq<Glyph>, start: int, end: int) -> nat
    decreases end - start,
{
    if start >= end {
        0
    } else {
        line[start].width as nat + span_width(line, start + 1, end)
    }
}

/// Where a row that starts at character `start` ends when it takes as many
/// characters as fit into `cols` columns.
pub open spec fn fit_end(line: Seq<Glyph>, start: int, cols: int) -> int
    decreases line.len() - start,
{
    if start < 0 || start >= line.len() || line[start].width > cols {
        start
    } else {
        fit_end(line, start + 1, cols - line[start].width)
    }
}

/// A split before character `at` would cut a word in two.
pub open spec fn mid_word(line: Seq<Glyph>, at: int) -> bool {
    0 < at < line.len() && !spec_is_blank(line[at - 1].symbol) && !spec_is_blank(line[at].symbol)
}

/// The last position in `start + 1 ..= end` at which a split cuts no word, or
/// `start` where there is none.
pub open spec fn last_break(line: Seq<Glyph>, start: int, end: int) -> int
    decreases end - start,
{
    if end <= start {
        start
    } else if !mid_word(line, end) {
        end
    } else {
        last_break(line, start, end - 1)
    }
}

/// Where a row that starts at character `start` ends when words are kept
/// whole: at the last word boundary that fits, and where no boundary fits,
/// or the rest of the line fits, at the last character that fits.
pub open spec fn break_end(line: Seq<Glyph>, start: int, cols: int) -> int {
    let fit = fit_end(line, start, cols);
    if fit >= line.len() {
        fit
    } else {
        let at = last_break(line, start, fit);
        if at > start {
            at
        } else {
            fit
        }
    }
}

/// Where the row that starts at character `start` of a line ends.
pub open spec fn chunk_end(line: Seq<Glyph>, start: int, cols: int, options: ViewportOptions) -> int {
    if options.wrap && options.line_break {
        break_end(line, start, cols)
    } else {
        fit_end(line, start, cols)
    }
}

/// What one screen row shows: the characters `start..end` of line `line_idx`.
pub struct RowSpan {
    pub line_idx: int,
    pub start: int,
    pub end: int,
}

/// The screen rows, top to bottom, that show the buffer from character
/// `start` of line `line_idx` on, when `rows` rows are left. Without 'wrap'
/// every line takes one row; with it a line goes on in the next row until it
/// is exhausted.
pub open spec fn layout_rows(
    lines: Seq<Seq<Glyph>>,
    line_idx: int,
    start: int,
    rows: nat,
    cols: int,
    options: ViewportOptions,
) -> Seq<RowSpan>
    decreases rows,
{
    if rows == 0 || line_idx < 0 || line_idx >= lines.len() {
        Seq::empty()
    } else {
        let end = chunk_end(lines[line_idx], start, cols, options);
        let row = RowSpan { line_idx, start, end };
        if options.wrap && end < lines[line_idx].len() {
            seq![row] + layout_rows(lines, line_idx, end, (rows - 1) as nat, cols, options)
        } else {
            seq![row] + layout_rows(lines, line_idx + 1, 0, (rows - 1) as nat, cols, options)
        }
    }
}

/// The width of a span grows by the width of the character added at its end.
pub proof fn lemma_span_width_push(line: Seq<Glyph>, start: int, end: int)
    requires
        start <= end,
    ensures
        span_width(line, start, end + 1) == span_width(line, start, end) + line[end].width,
    decreases end - start,
{
    if start < end {
        lemma_span_width_push(line, start + 1, end);
    } else {
        assert(span_width(line, start + 1, end + 1) == 0);
    }
}

/// The width of a span is the sum of the widths of its two parts.
pub proof fn lemma_span_width_split(line: Seq<Glyph>, start: int, mid: int, end: int)
    requires
        start <= mid <= end,
    ensures
        span_width(line, start, end) == span_width(line, start, mid) + span_width(line, mid, end),
    decreases mid - start,
{
    if start < mid {
        lemma_span_width_split(line, start + 1, mid, end);
    }
}

/// `fit_end` is the longest span from `start` that fits into `cols` columns:
/// it fits, and one character more does not.
pub proof fn lemma_fit_end(line: Seq<Glyph>, start: int, cols: int)
    requires
        0 <= start <= line.len(),
        0 <= cols,
    ensures
        start <= fit_end(line, start, cols) <= line.len(),
        span_width(line, start, fit_end(line, start, cols)) <= cols,
        fit_end(line, start, cols) < line.len() ==> span_width(
            line,
            start,
            fit_end(line, start, cols) + 1,
        ) > cols,
    decreases line.len() - start,
{
    if start < line.len() && line[start].width <= cols {
        lemma_fit_end(line, start + 1, cols - line[start].width);
    } else if start < line.len() {
        assert(span_width(line, start + 1, start + 1) == 0);
    }
}

/// `last_break` stays in `start..=end`; a result after `start` cuts no word,
/// and every later position up to `end` does.
pub proof fn lemma_last_break(line: Seq<Glyph>, start: int, end: int)
    requires
        start <= end,
    ensures
        start <= last_break(line, start, end) <= end,
        last_break(line, start, end) > start ==> !mid_word(line, last_break(line, start, end)),
        forall|k: int| last_break(line, start, end) < k <= end ==> mid_word(line, k),
    decreases end - start,
{
    if end > start && mid_word(line, end) {
        lemma_last_break(line, start, end - 1);
    }
}

/// Where a row ends: inside the line, not before its start, and with no more
/// columns than there are.
pub proof fn lemma_chunk_end(line: Seq<Glyph>, start: int, cols: int, options: ViewportOptions)
    requires
        0 <= start <= line.len(),
        0 <= cols,
    ensures
        start <= chunk_end(line, start, cols, options) <= line.len(),
        span_width(line, start, chunk_end(line, start, cols, options)) <= cols,
        chunk_end(line, start, cols, options) <= fit_end(line, start, cols),
        fit_end(line, start, cols) > start ==> chunk_end(line, start, cols, options) > start,
{
    lemma_fit_end(line, start, cols);
    let fit = fit_end(line, start, cols);
    if options.wrap && options.line_break && fit < line.len() {
        lemma_last_break(line, start, fit);
        let at = last_break(line, start, fit);
        if at > start {
            lemma_span_width_split(line, start, at, fit);
        }
    }
}

/// When words are kept whole, a row that ends inside a word holds nothing
/// but a piece of that word: it has no position at which it could have been
/// split without cutting a word.
pub proof fn lemma_break_end_keeps_words(line: Seq<Glyph>, start: int, cols: int)
    requires
        0 <= start <= line.len(),
        0 <= cols,
    ensures
        mid_word(line, break_end(line, start, cols)) ==> forall|k: int|
            start < k <= fit_end(line, start, cols) ==> mid_word(line, k),
{
    lemma_fit_end(line, start, cols);
    let fit = fit_end(line, start, cols);
    if fit < line.len() {
        lemma_last_break(line, start, fit);
    }
}

/// The first character of the span that does not fit, found by walking the
/// line.
fn fit_end_of(line: &Vec<Glyph>, start: usize, cols: usize) -> (end: usize)
    requires
        start <= line@.len(),
    ensures
        end == fit_end(line@, start as int, cols as int),
{
    let mut end: usize = start;
    let mut left: usize = cols;
    loop
        invariant
            start <= end <= line@.len(),
            left <= cols,
            fit_end(line@, end as int, left as int) == fit_end(line@, start as int, cols as int),
        ensures
            end == fit_end(line@, start as int, cols as int),
        decreases line@.len() - end,
    {
        if end >= line.len() {
            break ;
        }
        let w: usize = line[end].width as usize;
        if w > left {
            break ;
        }
        left = left - w;
        end = end + 1;
    }
    end
}

/// The last word boundary in `start + 1 ..= end`, found by walking back.
fn last_break_of(line: &Vec<Glyph>, start: usize, end: usize) -> (at: usize)
    requires
        start <= end < line@.len(),
    ensures
        at == last_break(line@, start as int, end as int),
{
    let mut at: usize = end;
    loop
        invariant
            start <= at <= end < line@.len(),
            last_break(line@, start as int, at as int) == last_break(
                line@,
                start as int,
                end as int,
            ),
        ensures
            at == last_break(line@, start as int, end as int),
        decreases at - start,
    {
        if at <= start {
            break ;
        }
        if is_blank(line[at - 1].symbol) || is_blank(line[at].symbol) {
            break ;
        }
        at = at - 1;
    }
    at
}

/// Where the row that starts at character `start` of `line` ends.
pub fn chunk_end_of(line: &Vec<Glyph>, start: usize, cols: u16, options: ViewportOptions) -> (end:
    usize)
    requires
        start <= line@.len(),
    ensures
        end == chunk_end(line@, start as int, cols as int, options),
        start <= end <= line@.len(),
{
    proof {
        lemma_chunk_end(line@, start as int, cols as int, options);
        lemma_fit_end(line@, start as int, cols as int);
    }
    let fit = fit_end_of(line, start, cols as usize);
    if options.wrap && options.line_break && fit < line.len() {
        let at = last_break_of(line, start, fit);
        if at > start {
            at
        } else {
            fit
        }
    } else {
        fit
    }
}

/// A row of the layout shows a span of a line of the buffer that fits into
/// the columns and ends where the options say.
pub open spec fn row_fits(lines: Seq<Seq<Glyph>>, row: RowSpan, cols: int, options: ViewportOptions) -> bool {
    &&& 0 <= row.line_idx < lines.len()
    &&& 0 <= row.start <= row.end <= lines[row.line_idx].len()
    &&& row.end == chunk_end(lines[row.line_idx], row.start, cols, options)
    &&& span_width(lines[row.line_idx], row.start, row.end) <= cols
}

/// Row `next` shows what comes after row `row`: the rest of the same line
/// where lines wrap and the line is not exhausted, else the start of the
/// next line.
pub open spec fn row_follows(lines: Seq<Seq<Glyph>>, row: RowSpan, next: RowSpan, options: ViewportOptions) -> bool {
    if options.wrap && row.end < lines[row.line_idx].len() {
        next.line_idx == row.line_idx && next.start == row.end
    } else {
        next.line_idx == row.line_idx + 1 && next.start == 0
    }
}

/// A row that ends inside a word has no position at which it could have
/// been split without cutting a word.
pub open spec fn row_keeps_words(lines: Seq<Seq<Glyph>>, row: RowSpan) -> bool {
    mid_word(lines[row.line_idx], row.end) ==> forall|k: int|
        row.start < k <= row.end ==> mid_word(lines[row.line_idx], k)
}

/// What the layout is made of: at most `rows` rows; the first starts where
/// the layout starts; each row fits and is followed by what comes after it;
/// and rows are left over only where the buffer is exhausted.
pub proof fn lemma_layout_rows(
    lines: Seq<Seq<Glyph>>,
    line_idx: int,
    start: int,
    rows: nat,
    cols: int,
    options: ViewportOptions,
)
    requires
        0 <= line_idx,
        0 <= cols,
        line_idx < lines.len() ==> 0 <= start <= lines[line_idx].len(),
    ensures
        ({
            let out = layout_rows(lines, line_idx, start, rows, cols, options);
            &&& out.len() <= rows
            &&& (out.len() == 0 <==> rows == 0 || line_idx >= lines.len())
            &&& out.len() > 0 ==> out[0].line_idx == line_idx && out[0].start == start
            &&& forall|i: int| 0 <= i < out.len() ==> row_fits(lines, #[trigger] out[i], cols, options)
            &&& forall|i: int|
                0 <= i && i + 1 < out.len() ==> row_follows(lines, out[i], #[trigger] out[i + 1], options)
            &&& 0 < out.len() < rows ==> {
                &&& out.last().line_idx == lines.len() - 1
                &&& !options.wrap || out.last().end == lines[out.last().line_idx].len()
            }
        }),
    decreases rows,
{
    if rows > 0 && line_idx < lines.len() {
        let out = layout_rows(lines, line_idx, start, rows, cols, options);
        let line = lines[line_idx];
        lemma_chunk_end(line, start, cols, options);
        let end = chunk_end(line, start, cols, options);
        let row = RowSpan { line_idx, start, end };
        let (next_line, next_start) = if options.wrap && end < line.len() {
            (line_idx, end)
        } else {
            (line_idx + 1, 0int)
        };
        let rest = layout_rows(lines, next_line, next_start, (rows - 1) as nat, cols, options);
        lemma_layout_rows(lines, next_line, next_start, (rows - 1) as nat, cols, options);
        assert(out =~= seq![row] + rest);
        assert(out[0] == row);
        assert forall|i: int| 0 <= i < out.len() implies row_fits(
            lines,
            #[trigger] out[i],
            cols,
            options,
        ) by {
            if i > 0 {
                assert(out[i] == rest[i - 1]);
            }
        }
        assert forall|i: int| 0 <= i && i + 1 < out.len() implies row_follows(
            lines,
            out[i],
            #[trigger] out[i + 1],
            options,
        ) by {
            assert(out[i + 1] == rest[i]);
            if i > 0 {
                assert(out[i] == rest[i - 1]);
                assert(row_follows(lines, rest[i - 1], rest[i - 1 + 1], options));
            }
        }
        if rest.len() > 0 {
            assert(out.last() == rest.last());
        }
    }
}

/// When lines wrap and words are kept whole, no row of the layout ends
/// inside a word unless the row holds nothing but a piece of that word.
pub proof fn lemma_layout_keeps_words(
    lines: Seq<Seq<Glyph>>,
    line_idx: int,
    start: int,
    rows: nat,
    cols: int,
    options: ViewportOptions,
    i: int,
)
    requires
        0 <= line_idx,
        0 <= cols,
        line_idx < lines.len() ==> 0 <= start <= lines[line_idx].len(),
        options.wrap && options.line_break,
        0 <= i < layout_rows(lines, line_idx, start, rows, cols, options).len(),
    ensures
        row_keeps_words(lines, layout_rows(lines, line_idx, start, rows, cols, options)[i]),
{
    lemma_layout_rows(lines, line_idx, start, rows, cols, options);
    let row = layout_rows(lines, line_idx, start, rows, cols, options)[i];
    assert(row_fits(lines, row, cols, options));
    let line = lines[row.line_idx];
    lemma_break_end_keeps_words(line, row.start, cols);
    lemma_chunk_end(line, row.start, cols, options);
}

/// The cells that one character takes on the screen: its symbol, then a
/// blank for each further column of its width.
pub open spec fn glyph_cells(glyph: Glyph) -> Seq<char> {
    Seq::new(
        glyph.width as nat,
        |k: int|
            if k == 0 {
                glyph.symbol
            } else {
                spec_blank()
            },
    )
}

/// The cells that the characters `start..end` of a line take on the screen,
/// one for each column.
pub open spec fn cells_of(line: Seq<Glyph>, start: int, end: int) -> Seq<char>
    decreases end - start,
{
    if start >= end {
        Seq::empty()
    } else {
        cells_of(line, start, end - 1) + glyph_cells(line[end - 1])
    }
}

/// A span takes one cell for each column of its width.
pub proof fn lemma_cells_of_len(line: Seq<Glyph>, start: int, end: int)
    requires
        start <= end,
    ensures
        cells_of(line, start, end).len() == span_width(line, start, end),
    decreases end - start,
{
    if start < end {
        lemma_cells_of_len(line, start, end - 1);
        lemma_span_width_push(line, start, end - 1);
    }
}

/// One screen row of `cols` cells: the symbols of the span, then blanks.
pub open spec fn render_row(line: Seq<Glyph>, start: int, end: int, cols: nat) -> Seq<char> {
    let cells = cells_of(line, start, end);
    Seq::new(
        cols,
        |c: int|
            if c < cells.len() {
                cells[c]
            } else {
                spec_blank()
            },
    )
}

/// The grid of `rows` by `cols` cells that a layout puts on the screen: one
/// row for each row of the layout, then blank rows.
pub open spec fn render_rows(lines: Seq<Seq<Glyph>>, spans: Seq<RowSpan>, rows: nat, cols: nat) -> Seq<
    Seq<char>,
> {
    Seq::new(
        rows,
        |r: int|
            if r < spans.len() {
                render_row(lines[spans[r].line_idx], spans[r].start, spans[r].end, cols)
            } else {
                Seq::new(cols, |c: int| spec_blank())
            },
    )
}

/// The cells of one screen row.
fn render_row_of(line: &Vec<Glyph>, start: usize, end: usize, cols: u16) -> (cells: Vec<char>)
    requires
        start <= end <= line@.len(),
        span_width(line@, start as int, end as int) <= cols,
    ensures
        cells@ == render_row(line@, start as int, end as int, cols as nat),
{
    let mut cells: Vec<char> = Vec::new();
    let mut i: usize = start;
    while i < end
        invariant
            start <= i <= end <= line@.len(),
            cells@ == cells_of(line@, start as int, i as int),
        decreases end - i,
    {
        let glyph = line[i];
        let ghost before = cells@;
        let mut k: u8 = 0;
        while k < glyph.width
            invariant
                k <= glyph.width,
                cells@ == before + glyph_cells(glyph).take(k as int),
            decreases glyph.width - k,
        {
            let ghost so_far = cells@;
            if k == 0 {
                cells.push(glyph.symbol);
            } else {
                cells.push(' ');
            }
            assert(cells@ =~= before + glyph_cells(glyph).take(k + 1));
            k = k + 1;
        }
        assert(glyph_cells(glyph).take(glyph.width as int) =~= glyph_cells(glyph));
        i = i + 1;
    }
    proof {
        lemma_cells_of_len(line@, start as int, end as int);
    }
    let ghost shown = cells@;
    while cells.len() < cols as usize
        invariant
            shown == cells_of(line@, start as int, end as int),
            shown.len() <= cells@.len() <= cols,
            forall|c: int|
                0 <= c < cells@.len() ==> cells@[c] == if c < shown.len() {
                    shown[c]
                } else {
                    spec_blank()
                },
        decreases cols - cells@.len(),
    {
        cells.push(' ');
    }
    assert(cells@ =~= render_row(line@, start as int, end as int, cols as nat));
    cells
}

/// What one screen row shows.
#[derive(Clone, Copy, Debug, PartialEq, Eq, Structural)]
pub struct RowViewport {
    line_idx: usize,
    start_char_idx: usize,
    end_char_idx: usize,
}

impl View for RowViewport {
    type V = RowSpan;

    closed spec fn view(&self) -> RowSpan {
        RowSpan {
            line_idx: self.line_idx as int,
            start: self.start_char_idx as int,
            end: self.end_char_idx as int,
        }
    }
}

impl RowViewport {
    /// The buffer line that the row shows a part of.
    pub fn line_idx(&self) -> (idx: usize)
        ensures
            idx == self@.line_idx,
    {
        self.line_idx
    }

    /// The first character of the line that the row shows.
    pub fn start_char_idx(&self) -> (idx: usize)
        ensures
            idx == self@.start,
    {
        self.start_char_idx
    }

    /// The first character of the line that the row shows no more.
    pub fn end_char_idx(&self) -> (idx: usize)
        ensures
            idx == self@.end,
    {
        self.end_char_idx
    }
}

/// What each row of a sequence of rows shows.
pub open spec fn row_spans(rows: Seq<RowViewport>) -> Seq<RowSpan> {
    Seq::new(rows.len(), |i: int| rows[i]@)
}

/// Lays out the buffer from line `start_line` on in `height` rows of `width`
/// columns.
fn layout_of(buffer: &Buffer, start_line: usize, height: u16, width: u16, options: ViewportOptions) -> (rows:
    Vec<RowViewport>)
    ensures
        row_spans(rows@) == layout_rows(
            buffer@,
            start_line as int,
            0,
            height as nat,
            width as int,
            options,
        ),
{
    let ghost full = layout_rows(buffer@, start_line as int, 0, height as nat, width as int, options);
    let mut rows: Vec<RowViewport> = Vec::new();
    let mut line_idx: usize = start_line;
    let mut start: usize = 0;
    let mut left: u16 = height;
    let total: usize = buffer.len_lines();
    assert(row_spans(rows@) + full =~= full);
    loop
        invariant
            total == buffer@.len(),
            line_idx < buffer@.len() ==> start <= buffer@[line_idx as int].len(),
            row_spans(rows@) + layout_rows(
                buffer@,
                line_idx as int,
                start as int,
                left as nat,
                width as int,
                options,
            ) == full,
        ensures
            row_spans(rows@) == full,
        decreases left,
    {
        if left == 0 {
            assert(row_spans(rows@) + Seq::<RowSpan>::empty() =~= row_spans(rows@));
            break ;
        }
        match buffer.line(line_idx) {
            None => {
                assert(row_spans(rows@) + Seq::<RowSpan>::empty() =~= row_spans(rows@));
                break ;
            },
            Some(line) => {
                let end = chunk_end_of(line, start, width, options);
                let ghost before = row_spans(rows@);
                let ghost rest_before = layout_rows(
                    buffer@,
                    line_idx as int,
                    start as int,
                    left as nat,
                    width as int,
                    options,
                );
                let row = RowViewport { line_idx, start_char_idx: start, end_char_idx: end };
                rows.push(row);
                assert(row_spans(rows@) =~= before + seq![row@]);
                if options.wrap && end < line.len() {
                    start = end;
                } else {
                    line_idx = line_idx + 1;
                    start = 0;
                }
                left = left - 1;
                let ghost rest = layout_rows(
                    buffer@,
                    line_idx as int,
                    start as int,
                    left as nat,
                    width as int,
                    options,
                );
                assert(rest_before =~= seq![row@] + rest);
                assert((before + seq![row@]) + rest =~= before + (seq![row@] + rest));
            },
        }
    }
    rows
}

/// The screen position of a buffer position: the row that shows it, and the
/// column at which that row shows it.
#[derive(Clone, Copy, Debug, PartialEq, Eq, Structural)]
pub struct CursorViewport {
    pub row: usize,
    pub col: usize,
}

/// A row shows character `char_idx` of line `line_idx`.
pub open spec fn row_holds(row: RowSpan, line_idx: int, char_idx: int) -> bool {
    row.line_idx == line_idx && row.start <= char_idx < row.end
}

/// The first row from row `from` on that shows character `char_idx` of line
/// `line_idx`, with the column in that row: the width of what the row shows
/// before the character.
pub open spec fn locate_from(
    lines: Seq<Seq<Glyph>>,
    spans: Seq<RowSpan>,
    line_idx: int,
    char_idx: int,
    from: int,
) -> Option<CursorViewport>
    decreases spans.len() - from,
{
    if from < 0 || from >= spans.len() {
        None
    } else if row_holds(spans[from], line_idx, char_idx) {
        Some(
            CursorViewport {
                row: from as usize,
                col: span_width(lines[line_idx], spans[from].start, char_idx) as usize,
            },
        )
    } else {
        locate_from(lines, spans, line_idx, char_idx, from + 1)
    }
}

/// The grid of cells that rows of a layout put on the screen.
fn render_of(buffer: &Buffer, rows: &Vec<RowViewport>, height: u16, width: u16, options: ViewportOptions) -> (grid:
    Vec<Vec<char>>)
    requires
        rows@.len() <= height,
        forall|i: int|
            0 <= i < rows@.len() ==> row_fits(buffer@, #[trigger] row_spans(rows@)[i], width as int, options),
    ensures
        grid_view(grid@) == render_rows(buffer@, row_spans(rows@), height as nat, width as nat),
{
    let ghost spans = row_spans(rows@);
    let ghost image = render_rows(buffer@, spans, height as nat, width as nat);
    let mut grid: Vec<Vec<char>> = Vec::new();
    let mut r: usize = 0;
    while r < height as usize
        invariant
            spans == row_spans(rows@),
            image == render_rows(buffer@, spans, height as nat, width as nat),
            rows@.len() <= height,
            forall|i: int| 0 <= i < rows@.len() ==> row_fits(buffer@, #[trigger] spans[i], width as int, options),
            r <= height,
            grid@.len() == r,
            forall|i: int| 0 <= i < r ==> (#[trigger] grid@[i])@ == image[i],
        decreases height - r,
    {
        if r < rows.len() {
            let row = rows[r];
            assert(row@ == spans[r as int]);
            assert(row_fits(buffer@, spans[r as int], width as int, options));
            match buffer.line(row.line_idx) {
                Some(line) => {
                    let cells = render_row_of(line, row.start_char_idx, row.end_char_idx, width);
                    grid.push(cells);
                },
                None => {
                    assert(false);
                },
            }
        } else {
            let mut cells: Vec<char> = Vec::new();
            while cells.len() < width as usize
                invariant
                    cells@.len() <= width,
                    forall|c: int| 0 <= c < cells@.len() ==> cells@[c] == spec_blank(),
                decreases width - cells@.len(),
            {
                cells.push(' ');
            }
            assert(cells@ =~= Seq::new(width as nat, |c: int| spec_blank()));
            grid.push(cells);
        }
        r = r + 1;
    }
    assert(grid_view(grid@) =~= image);
    grid
}

/// The screen position of character `char_idx` of line `line_idx` in the rows
/// of a layout.
fn locate_in(
    buffer: &Buffer,
    rows: &Vec<RowViewport>,
    width: u16,
    options: ViewportOptions,
    line_idx: usize,
    char_idx: usize,
) -> (cursor: Option<CursorViewport>)
    requires
        forall|i: int|
            0 <= i < rows@.len() ==> row_fits(buffer@, #[trigger] row_spans(rows@)[i], width as int, options),
    ensures
        cursor == locate_from(buffer@, row_spans(rows@), line_idx as int, char_idx as int, 0),
{
    let ghost spans = row_spans(rows@);
    let mut r: usize = 0;
    while r < rows.len()
        invariant
            spans == row_spans(rows@),
            r <= rows@.len(),
            forall|i: int| 0 <= i < rows@.len() ==> row_fits(buffer@, #[trigger] spans[i], width as int, options),
            locate_from(buffer@, spans, line_idx as int, char_idx as int, r as int) == locate_from(
                buffer@,
                spans,
                line_idx as int,
                char_idx as int,
                0,
            ),
        decreases rows@.len() - r,
    {
        let row = rows[r];
        assert(row@ == spans[r as int]);
        assert(row_fits(buffer@, spans[r as int], width as int, options));
        if row.line_idx == line_idx && row.start_char_idx <= char_idx && char_idx < row.end_char_idx {
            match buffer.line(line_idx) {
                Some(line) => {
                    proof {
                        lemma_span_width_split(
                            line@,
                            row.start_char_idx as int,
                            char_idx as int,
                            row.end_char_idx as int,
                        );
                    }
                    let col = width_of(line, row.start_char_idx, char_idx);
                    return Some(CursorViewport { row: r, col });
                },
                None => {
                    assert(false);
                },
            }
        }
        r = r + 1;
    }
    None
}

/// The computed mapping from buffer lines to the rows of a region of the
/// screen, for one state of a buffer, one size and one set of options. The
/// viewport keeps what it computed and the revision of the buffer that it
/// computed it for, and no hold on the buffer itself.
#[derive(Clone)]
pub struct Viewport {
    lines: Ghost<Seq<Seq<Glyph>>>,
    revision: u64,
    options: ViewportOptions,
    size: U16Size,
    start_line: usize,
    cursor_line_idx: usize,
    cursor_char_idx: usize,
    rows: Vec<RowViewport>,
    cells: Vec<Vec<char>>,
    cursor: Option<CursorViewport>,
}

impl View for Viewport {
    type V = Seq<RowSpan>;

    /// What each screen row shows, top to bottom.
    closed spec fn view(&self) -> Seq<RowSpan> {
        row_spans(self.rows@)
    }
}

impl Viewport {
    /// The lines of the buffer in the state that the rows were computed for.
    pub closed spec fn spec_lines(&self) -> Seq<Seq<Glyph>> {
        self.lines@
    }

    /// The revision of the buffer that the rows were computed for.
    pub closed spec fn spec_revision(&self) -> u64 {
        self.revision
    }

    pub closed spec fn spec_options(&self) -> ViewportOptions {
        self.options
    }

    /// The size of the region: its rows are the height, its columns the
    /// width.
    pub closed spec fn spec_size(&self) -> U16Size {
        self.size
    }

    /// The buffer line that the first row shows.
    pub closed spec fn spec_start_line(&self) -> usize {
        self.start_line
    }

    /// The buffer position of the edit cursor: the line, and the character
    /// of the line.
    pub closed spec fn spec_cursor(&self) -> (usize, usize) {
        (self.cursor_line_idx, self.cursor_char_idx)
    }

    /// The cells that the viewport keeps to be drawn.
    pub closed spec fn spec_cells(&self) -> Seq<Seq<char>> {
        grid_view(self.cells@)
    }

    /// The screen position that the viewport keeps for the edit cursor.
    pub closed spec fn spec_located(&self) -> Option<CursorViewport> {
        self.cursor
    }

    /// The rows are the layout of the lines for the size and the options,
    /// the cells are what the rows put on the screen, and the screen position
    /// of the cursor is where the rows show it.
    pub open spec fn wf(&self) -> bool {
        &&& self@ == layout_rows(
            self.spec_lines(),
            self.spec_start_line() as int,
            0,
            self.spec_size().spec_height() as nat,
            self.spec_size().spec_width(),
            self.spec_options(),
        )
        &&& self.spec_cells() == self.spec_render()
        &&& self.spec_located() == locate_from(
            self.spec_lines(),
            self@,
            self.spec_cursor().0 as int,
            self.spec_cursor().1 as int,
            0,
        )
    }

    /// The grid of cells that the viewport puts on the screen.
    pub open spec fn spec_render(&self) -> Seq<Seq<char>> {
        render_rows(
            self.spec_lines(),
            self@,
            self.spec_size().spec_height() as nat,
            self.spec_size().spec_width() as nat,
        )
    }

    /// `post` differs from `pre` in nothing but what is computed from the
    /// buffer: it has the options, the size, the first line and the cursor
    /// of `pre`.
    pub open spec fn same_settings(pre: Viewport, post: Viewport) -> bool {
        &&& post.spec_options() == pre.spec_options()
        &&& post.spec_size() == pre.spec_size()
        &&& post.spec_start_line() == pre.spec_start_line()
        &&& post.spec_cursor() == pre.spec_cursor()
    }

    /// `self` was computed for the state that `buffer` is in.
    pub open spec fn shows(&self, buffer: &Buffer) -> bool {
        &&& self.wf()
        &&& self.spec_lines() == buffer@
        &&& self.spec_revision() == buffer.spec_revision()
    }

    /// The layout of `buffer` from its first line on, in a region of the size
    /// of `actual_shape`, with the edit cursor on the first character.
    pub fn new(options: &ViewportOptions, buffer: &Buffer, actual_shape: &U16Rect) -> (viewport: Self)
        ensures
            viewport.shows(buffer),
            viewport.spec_options() == *options,
            viewport.spec_size().spec_width() == actual_shape@.width(),
            viewport.spec_size().spec_height() == actual_shape@.height(),
            viewport.spec_start_line() == 0,
            viewport.spec_cursor() == (0usize, 0usize),
    {
        let mut viewport = Viewport {
            lines: Ghost(Seq::empty()),
            revision: 0,
            options: *options,
            size: actual_shape.size(),
            start_line: 0,
            cursor_line_idx: 0,
            cursor_char_idx: 0,
            rows: Vec::new(),
            cells: Vec::new(),
            cursor: None,
        };
        viewport.relayout(buffer);
        viewport
    }

    /// The layout of `buffer` from line `start_line` on, in a region of size
    /// `size`, with the edit cursor on character `cursor.1` of line
    /// `cursor.0`.
    pub fn build(
        options: &ViewportOptions,
        size: U16Size,
        start_line: usize,
        cursor: (usize, usize),
        buffer: &Buffer,
    ) -> (viewport: Self)
        ensures
            viewport.shows(buffer),
            viewport.spec_options() == *options,
            viewport.spec_size() == size,
            viewport.spec_start_line() == start_line,
            viewport.spec_cursor() == cursor,
    {
        let mut viewport = Viewport {
            lines: Ghost(Seq::empty()),
            revision: 0,
            options: *options,
            size,
            start_line,
            cursor_line_idx: cursor.0,
            cursor_char_idx: cursor.1,
            rows: Vec::new(),
            cells: Vec::new(),
            cursor: None,
        };
        viewport.relayout(buffer);
        viewport
    }

    /// The buffer position of the edit cursor: the line, and the character
    /// of the line.
    pub fn cursor_position(&self) -> (cursor: (usize, usize))
        ensures
            cursor == self.spec_cursor(),
    {
        (self.cursor_line_idx, self.cursor_char_idx)
    }

    /// The cells that the viewport keeps to be drawn.
    pub fn cells(&self) -> (cells: &Vec<Vec<char>>)
        ensures
            grid_view(cells@) == self.spec_cells(),
    {
        &self.cells
    }

    pub fn options(&self) -> (options: ViewportOptions)
        ensures
            options == self.spec_options(),
    {
        self.options
    }

    pub fn size(&self) -> (size: U16Size)
        ensures
            size == self.spec_size(),
    {
        self.size
    }

    pub fn start_line(&self) -> (line_idx: usize)
        ensures
            line_idx == self.spec_start_line(),
    {
        self.start_line
    }

    /// The revision of the buffer that the rows were computed for.
    pub fn revision(&self) -> (revision: u64)
        ensures
            revision == self.spec_revision(),
    {
        self.revision
    }

    /// The number of rows that show a part of the buffer.
    pub fn len_rows(&self) -> (n: usize)
        ensures
            n == self@.len(),
    {
        self.rows.len()
    }

    /// What screen row `idx` shows, if it shows a part of the buffer.
    pub fn row(&self, idx: usize) -> (row: Option<RowViewport>)
        ensures
            match row {
                Some(r) => idx < self@.len() && r@ == self@[idx as int],
                None => idx >= self@.len(),
            },
    {
        if idx < self.rows.len() {
            Some(self.rows[idx])
        } else {
            None
        }
    }

    /// Computes all that rests on the buffer for the state that `buffer` is
    /// in.
    fn relayout(&mut self, buffer: &Buffer)
        ensures
            final(self).shows(buffer),
            Self::same_settings(*old(self), *final(self)),
    {
        let height = self.size.height();
        let width = self.size.width();
        let rows = layout_of(buffer, self.start_line, height, width, self.options);
        proof {
            lemma_layout_rows(
                buffer@,
                self.start_line as int,
                0,
                height as nat,
                width as int,
                self.options,
            );
        }
        let cells = render_of(buffer, &rows, height, width, self.options);
        let cursor = locate_in(
            buffer,
            &rows,
            width,
            self.options,
            self.cursor_line_idx,
            self.cursor_char_idx,
        );
        self.rows = rows;
        self.cells = cells;
        self.cursor = cursor;
        self.lines = Ghost(buffer@);
        self.revision = buffer.revision();
    }

    /// Computes the rows again for the state that `buffer` is in. For the
    /// state that they were computed for they come out as they were.
    pub fn recompute(&mut self, buffer: &Buffer)
        ensures
            final(self).shows(buffer),
            Self::same_settings(*old(self), *final(self)),
            old(self).wf() && old(self).spec_lines() == buffer@ ==> {
                &&& final(self)@ == old(self)@
                &&& final(self).spec_cells() == old(self).spec_cells()
                &&& final(self).spec_located() == old(self).spec_located()
            },
    {
        self.relayout(buffer);
    }

    /// Takes new options and lays `buffer` out for them.
    pub fn set_options(&mut self, options: &ViewportOptions, buffer: &Buffer)
        ensures
            final(self).shows(buffer),
            final(self).spec_options() == *options,
            final(self).spec_size() == old(self).spec_size(),
            final(self).spec_start_line() == old(self).spec_start_line(),
            final(self).spec_cursor() == old(self).spec_cursor(),
    {
        self.options = *options;
        self.relayout(buffer);
    }

    /// Takes a new region size and lays `buffer` out for it.
    pub fn set_size(&mut self, size: U16Size, buffer: &Buffer)
        ensures
            final(self).shows(buffer),
            final(self).spec_size() == size,
            final(self).spec_options() == old(self).spec_options(),
            final(self).spec_start_line() == old(self).spec_start_line(),
            final(self).spec_cursor() == old(self).spec_cursor(),
    {
        self.size = size;
        self.relayout(buffer);
    }

    /// Shows `buffer` from line `line_idx` on.
    pub fn set_start_line(&mut self, line_idx: usize, buffer: &Buffer)
        ensures
            final(self).shows(buffer),
            final(self).spec_start_line() == line_idx,
            final(self).spec_options() == old(self).spec_options(),
            final(self).spec_size() == old(self).spec_size(),
            final(self).spec_cursor() == old(self).spec_cursor(),
    {
        self.start_line = line_idx;
        self.relayout(buffer);
    }

    /// Moves the edit cursor to character `char_idx` of line `line_idx` of
    /// `buffer`, and shows the buffer in the state that it is in.
    pub fn set_cursor(&mut self, line_idx: usize, char_idx: usize, buffer: &Buffer)
        ensures
            final(self).shows(buffer),
            final(self).spec_cursor() == (line_idx, char_idx),
            final(self).spec_options() == old(self).spec_options(),
            final(self).spec_size() == old(self).spec_size(),
            final(self).spec_start_line() == old(self).spec_start_line(),
    {
        self.cursor_line_idx = line_idx;
        self.cursor_char_idx = char_idx;
        self.relayout(buffer);
    }

    /// Takes the buffer in the state that its owner hands over. Where its
    /// revision is the one that the rows were computed for, nothing changes
    /// and the result is `false`; else the viewport shows the new state.
    pub fn sync(&mut self, buffer: &Buffer) -> (changed: bool)
        requires
            old(self).wf(),
        ensures
            final(self).wf(),
            changed == (buffer.spec_revision() != old(self).spec_revision()),
            changed ==> final(self).shows(buffer),
            !changed ==> *final(self) == *old(self),
            Self::same_settings(*old(self), *final(self)),
    {
        if buffer.revision() == self.revision {
            false
        } else {
            self.relayout(buffer);
            true
        }
    }

    /// The screen position of the edit cursor, or `None` where no row shows
    /// the character that it stands on.
    pub fn cursor(&self) -> (cursor: Option<CursorViewport>)
        requires
            self.wf(),
        ensures
            cursor == locate_from(
                self.spec_lines(),
                self@,
                self.spec_cursor().0 as int,
                self.spec_cursor().1 as int,
                0,
            ),
    {
        self.cursor
    }

    /// The grid of cells that the viewport puts on the screen: as many rows
    /// as the region is high, each as many cells as the region is wide.
    pub fn render(&self) -> (grid: Vec<Vec<char>>)
        requires
            self.wf(),
        ensures
            grid_view(grid@) == self.spec_render(),
            grid@.len() == self.spec_size().spec_height(),
            forall|r: int|
                0 <= r < grid@.len() ==> (#[trigger] grid@[r])@.len() == self.spec_size().spec_width(),
    {
        let mut grid: Vec<Vec<char>> = Vec::new();
        let mut r: usize = 0;
        while r < self.cells.len()
            invariant
                r <= self.cells@.len(),
                grid@.len() == r,
                forall|i: int| 0 <= i < r ==> (#[trigger] grid@[i])@ == self.cells@[i]@,
            decreases self.cells@.len() - r,
        {
            let row = self.cells[r].clone();
            grid.push(row);
            r = r + 1;
        }
        assert(grid_view(grid@) =~= self.spec_cells());
        assert forall|r: int| 0 <= r < grid@.len() implies (#[trigger] grid@[r])@.len()
            == self.spec_size().spec_width() by {
            assert(grid@[r]@ == self.spec_render()[r]);
        }
        grid
    }
}

/// The number of screen columns that the characters `start..end` of a line
/// take.
pub fn width_of(line: &Vec<Glyph>, start: usize, end: usize) -> (width: usize)
    requires
        start <= end <= line@.len(),
        span_width(line@, start as int, end as int) <= usize::MAX,
    ensures
        width == span_width(line@, start as int, end as int),
{
    let mut width: usize = 0;
    let mut i: usize = start;
    while i < end
        invariant
            start <= i <= end <= line@.len(),
            width == span_width(line@, start as int, i as int),
            span_width(line@, start as int, end as int) <= usize::MAX,
        decreases end - i,
    {
        proof {
            lemma_span_width_push(line@, start as int, i as int);
            lemma_span_width_split(line@, start as int, i + 1, end as int);
        }
        width = width + line[i].width as usize;
        i = i + 1;
    }
    width
}

/// The rows among the first `upto` rows that show a part of line `line_idx`.
pub open spec fn rows_of_line(spans: Seq<RowSpan>, line_idx: int, upto: int) -> Seq<RowSpan>
    decreases upto,
{
    if upto <= 0 {
        Seq::empty()
    } else if spans[upto - 1].line_idx == line_idx {
        rows_of_line(spans, line_idx, upto - 1).push(spans[upto - 1])
    } else {
        rows_of_line(spans, line_idx, upto - 1)
    }
}

/// The first row from row `from` on that shows a part of line `line_idx`, or
/// the number of rows where there is none.
pub open spec fn first_row_of(spans: Seq<RowSpan>, line_idx: int, from: int) -> int
    decreases spans.len() - from,
{
    if from < 0 || from >= spans.len() || spans[from].line_idx == line_idx {
        from
    } else {
        first_row_of(spans, line_idx, from + 1)
    }
}

/// The rows that show one buffer line, as a value of the specification.
pub struct LineSpan {
    pub line_idx: int,
    pub first_row: int,
    pub rows: Seq<RowSpan>,
}

/// The rows that show one buffer line: the screen row of the first of them,
/// and what each of them shows, top to bottom.
#[derive(Clone, Debug, PartialEq, Eq)]
pub struct LineViewport {
    line_idx: usize,
    first_row: usize,
    rows: Vec<RowViewport>,
}

impl View for LineViewport {
    type V = LineSpan;

    closed spec fn view(&self) -> LineSpan {
        LineSpan {
            line_idx: self.line_idx as int,
            first_row: self.first_row as int,
            rows: row_spans(self.rows@),
        }
    }
}

impl LineViewport {
    pub fn line_idx(&self) -> (idx: usize)
        ensures
            idx == self@.line_idx,
    {
        self.line_idx
    }

    /// The screen row of the first row of the line.
    pub fn first_row(&self) -> (row: usize)
        ensures
            row == self@.first_row,
    {
        self.first_row
    }

    /// The number of rows that show the line.
    pub fn len_rows(&self) -> (n: usize)
        ensures
            n == self@.rows.len(),
    {
        self.rows.len()
    }

    /// What row `idx` of the line shows, if the line has such a row.
    pub fn row(&self, idx: usize) -> (row: Option<RowViewport>)
        ensures
            match row {
                Some(r) => idx < self@.rows.len() && r@ == self@.rows[idx as int],
                None => idx >= self@.rows.len(),
            },
    {
        if idx < self.rows.len() {
            Some(self.rows[idx])
        } else {
            None
        }
    }
}

impl Viewport {
    /// The rows that show a part of line `line_idx`, or `None` where no row
    /// does.
    pub fn line(&self, line_idx: usize) -> (line: Option<LineViewport>)
        ensures
            match line {
                Some(l) => {
                    &&& l@.line_idx == line_idx
                    &&& l@.rows.len() > 0
                    &&& l@.rows == rows_of_line(self@, line_idx as int, self@.len() as int)
                    &&& l@.first_row == first_row_of(self@, line_idx as int, 0)
                },
                None => rows_of_line(self@, line_idx as int, self@.len() as int).len() == 0,
            },
    {
        let mut rows: Vec<RowViewport> = Vec::new();
        let mut first_row: usize = 0;
        let mut r: usize = 0;
        while r < self.rows.len()
            invariant
                r <= self@.len(),
                self@.len() == self.rows@.len(),
                row_spans(rows@) == rows_of_line(self@, line_idx as int, r as int),
                rows@.len() == 0 ==> first_row_of(self@, line_idx as int, r as int) == first_row_of(
                    self@,
                    line_idx as int,
                    0,
                ),
                rows@.len() > 0 ==> first_row == first_row_of(self@, line_idx as int, 0),
            decreases self@.len() - r,
        {
            let row = self.rows[r];
            assert(row@ == self@[r as int]);
            if row.line_idx == line_idx {
                if rows.len() == 0 {
                    first_row = r;
                }
                let ghost before = row_spans(rows@);
                rows.push(row);
                assert(row_spans(rows@) =~= before.push(row@));
            }
            r = r + 1;
        }
        if rows.len() == 0 {
            None
        } else {
            Some(LineViewport { line_idx, first_row, rows })
        }
    }

    /// What the rows of a viewport are: at most as many as the region is
    /// high; the first starts the line that the viewport starts at; each
    /// shows a span of a line that fits into the width and ends where the
    /// options say; each is followed by what comes after it; and rows are
    /// left over only where the buffer is exhausted.
    pub proof fn lemma_rows(self)
        requires
            self.wf(),
        ensures
            self@.len() <= self.spec_size().spec_height(),
            self@.len() == 0 <==> self.spec_size().spec_height() == 0 || self.spec_start_line()
                >= self.spec_lines().len(),
            self@.len() > 0 ==> self@[0].line_idx == self.spec_start_line() && self@[0].start == 0,
            forall|i: int|
                0 <= i < self@.len() ==> row_fits(
                    self.spec_lines(),
                    #[trigger] self@[i],
                    self.spec_size().spec_width(),
                    self.spec_options(),
                ),
            forall|i: int|
                0 <= i && i + 1 < self@.len() ==> row_follows(
                    self.spec_lines(),
                    self@[i],
                    #[trigger] self@[i + 1],
                    self.spec_options(),
                ),
            0 < self@.len() < self.spec_size().spec_height() ==> {
                &&& self@.last().line_idx == self.spec_lines().len() - 1
                &&& !self.spec_options().wrap || self@.last().end
                    == self.spec_lines()[self@.last().line_idx].len()
            },
    {
        lemma_layout_rows(
            self.spec_lines(),
            self.spec_start_line() as int,
            0,
            self.spec_size().spec_height() as nat,
            self.spec_size().spec_width(),
            self.spec_options(),
        );
    }

    /// Whatever the buffer and the options, the viewport puts as many rows
    /// on the screen as the region is high, each as many cells as the region
    /// is wide.
    pub proof fn lemma_render_size(self, r: int)
        requires
            0 <= r < self.spec_size().spec_height(),
        ensures
            self.spec_render().len() == self.spec_size().spec_height(),
            self.spec_render()[r].len() == self.spec_size().spec_width(),
    {
    }

    /// Two viewports that were computed for the same lines, the same size,
    /// the same first line and the same options have the same rows and put
    /// the same cells on the screen.
    pub proof fn lemma_same_rows(self, other: Viewport)
        requires
            self.wf(),
            other.wf(),
            self.spec_lines() == other.spec_lines(),
            self.spec_size() == other.spec_size(),
            self.spec_start_line() == other.spec_start_line(),
            self.spec_options() == other.spec_options(),
        ensures
            self@ == other@,
            self.spec_render() == other.spec_render(),
    {
    }

    /// Where lines wrap and words are kept whole, no row ends inside a word
    /// unless the row holds nothing but a piece of that word.
    pub proof fn lemma_keeps_words(self, i: int)
        requires
            self.wf(),
            self.spec_options().wrap,
            self.spec_options().line_break,
            0 <= i < self@.len(),
        ensures
            row_keeps_words(self.spec_lines(), self@[i]),
    {
        lemma_layout_keeps_words(
            self.spec_lines(),
            self.spec_start_line() as int,
            0,
            self.spec_size().spec_height() as nat,
            self.spec_size().spec_width(),
            self.spec_options(),
            i,
        );
    }
}

/// The rows `0..upto` by the buffer lines that they show: one entry for each
/// run of rows that show one line, in the order of the rows.
pub open spec fn line_spans(spans: Seq<RowSpan>, upto: int) -> Seq<LineSpan>
    decreases upto,
{
    if upto <= 0 {
        Seq::empty()
    } else {
        let before = line_spans(spans, upto - 1);
        let row = spans[upto - 1];
        if before.len() > 0 && before.last().line_idx == row.line_idx {
            before.update(
                before.len() - 1,
                LineSpan { rows: before.last().rows.push(row), ..before.last() },
            )
        } else {
            before.push(LineSpan { line_idx: row.line_idx, first_row: upto - 1, rows: seq![row] })
        }
    }
}

/// What each entry of a sequence of lines shows.
pub open spec fn line_views(lines: Seq<LineViewport>) -> Seq<LineSpan> {
    Seq::new(lines.len(), |i: int| lines[i]@)
}

/// The entries of `line_spans` are not empty and follow one another: each
/// starts at the screen row at which the one before it ends, the first at
/// row 0 and the last ending at row `upto`; and an entry holds the rows from
/// its first row on, all of its own line.
pub proof fn lemma_line_spans(spans: Seq<RowSpan>, upto: int)
    requires
        0 <= upto <= spans.len(),
    ensures
        ({
            let groups = line_spans(spans, upto);
            &&& groups.len() == 0 <==> upto == 0
            &&& groups.len() > 0 ==> groups[0].first_row == 0 && groups.last().first_row
                + groups.last().rows.len() == upto && groups.last().line_idx == spans[upto
                - 1].line_idx
            &&& forall|i: int|
                0 <= i < groups.len() ==> (#[trigger] groups[i]).rows.len() > 0 && groups[i].first_row
                    >= 0
            &&& forall|i: int|
                0 <= i && i + 1 < groups.len() ==> (#[trigger] groups[i + 1]).first_row
                    == groups[i].first_row + groups[i].rows.len()
            &&& forall|i: int, k: int|
                0 <= i < groups.len() && 0 <= k < groups[i].rows.len() ==> {
                    &&& #[trigger] groups[i].rows[k] == spans[groups[i].first_row + k]
                    &&& groups[i].rows[k].line_idx == groups[i].line_idx
                }
        }),
    decreases upto,
{
    if upto > 0 {
        lemma_line_spans(spans, upto - 1);
        let before = line_spans(spans, upto - 1);
        let groups = line_spans(spans, upto);
        let row = spans[upto - 1];
        if before.len() > 0 && before.last().line_idx == row.line_idx {
            let last = before.len() - 1;
            assert forall|i: int| 0 <= i && i + 1 < groups.len() implies (#[trigger] groups[i
                + 1]).first_row == groups[i].first_row + groups[i].rows.len() by {
                assert(before[i + 1].first_row == before[i].first_row + before[i].rows.len());
            }
            assert forall|i: int, k: int|
                0 <= i < groups.len() && 0 <= k < groups[i].rows.len() implies {
                &&& #[trigger] groups[i].rows[k] == spans[groups[i].first_row + k]
                &&& groups[i].rows[k].line_idx == groups[i].line_idx
            } by {
                if i < last || k < before[last].rows.len() {
                    assert(groups[i].rows[k] == before[i].rows[k]);
                }
            }
        } else {
            assert forall|i: int| 0 <= i && i + 1 < groups.len() implies (#[trigger] groups[i
                + 1]).first_row == groups[i].first_row + groups[i].rows.len() by {
                if i + 1 < before.len() {
                    assert(before[i + 1].first_row == before[i].first_row + before[i].rows.len());
                }
            }
            assert forall|i: int, k: int|
                0 <= i < groups.len() && 0 <= k < groups[i].rows.len() implies {
                &&& #[trigger] groups[i].rows[k] == spans[groups[i].first_row + k]
                &&& groups[i].rows[k].line_idx == groups[i].line_idx
            } by {
                if i < before.len() {
                    assert(groups[i].rows[k] == before[i].rows[k]);
                }
            }
        }
    }
}

impl Viewport {
    /// The rows by the buffer lines that they show: one entry for each line
    /// of which a part is shown, top to bottom.
    pub fn lines(&self) -> (lines: Vec<LineViewport>)
        ensures
            line_views(lines@) == line_spans(self@, self@.len() as int),
    {
        let mut lines: Vec<LineViewport> = Vec::new();
        let mut r: usize = 0;
        assert(line_views(lines@) =~= line_spans(self@, 0));
        while r < self.rows.len()
            invariant
                r <= self@.len(),
                self@.len() == self.rows@.len(),
                line_views(lines@) == line_spans(self@, r as int),
            decreases self@.len() - r,
        {
            let row = self.rows[r];
            assert(row@ == self@[r as int]);
            let n: usize = lines.len();
            let ghost before = line_views(lines@);
            if n > 0 && lines[n - 1].line_idx == row.line_idx {
                assert(before[n - 1] == lines@[n - 1]@);
                let ghost shown = row_spans(lines@[n - 1].rows@);
                lines[n - 1].rows.push(row);
                assert(row_spans(lines@[n - 1].rows@) =~= shown.push(row@));
                assert(line_views(lines@) =~= before.update(
                    n - 1,
                    LineSpan { rows: before[n - 1].rows.push(row@), ..before[n - 1] },
                ));
            } else {
                if n > 0 {
                    assert(before[n - 1] == lines@[n - 1]@);
                }
                let mut rows: Vec<RowViewport> = Vec::new();
                rows.push(row);
                assert(row_spans(rows@) =~= seq![row@]);
                lines.push(LineViewport { line_idx: row.line_idx, first_row: r, rows });
                assert(line_views(lines@) =~= before.push(
                    LineSpan { line_idx: row@.line_idx, first_row: r as int, rows: seq![row@] },
                ));
            }
            r = r + 1;
        }
        lines
    }
}

} // verus!
