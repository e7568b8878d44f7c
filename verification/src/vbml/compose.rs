//! Composition: drawing laid-out components onto one board.
//!
//! Components are placed in the flow, left to right and then in rows, or
//! at a position of their own. Those in the flow are drawn first, in their
//! order in the document; those with a position follow, in theirs, and so
//! lie on top. Whatever falls outside the board is dropped.

use vstd::prelude::*;
use crate::board::character::CharacterCode;
use crate::board::{filled_grid, BoardData};
use crate::pattern::string_views;
use crate::text::views;
use crate::vbml::format::{
    rect_height, rect_width, rectangle_height, rectangle_width, Align, ComponentStyle, Justify,
    VbmlComponent,
};
use crate::vbml::wrap::{wrap, wrap_text};

verus! {

/// The room that is left when `used` of `size` is taken: none if more is
/// taken than there is.
pub open spec fn room(size: nat, used: nat) -> nat {
    if size >= used {
        (size - used) as nat
    } else {
        0
    }
}

/// The row of a rectangle in which its content begins. Content aligned to
/// the centre has the odd row of room below it; justified content has it
/// above.
pub open spec fn start_row(align: Option<Align>, rect_height: nat, content_height: nat) -> nat {
    match align {
        Some(Align::Center) => room(rect_height, content_height) / 2,
        Some(Align::Bottom) => room(rect_height, content_height),
        Some(Align::Justified) => (room(rect_height, content_height) + 1) / 2,
        _ => 0,
    }
}

/// The column of a rectangle in which a row of content begins. A centred
/// row is centred by its own length; justified rows are all set where the
/// longest of them would be centred.
pub open spec fn start_col(justify: Option<Justify>, rect_width: nat, row_len: nat, widest: nat) -> nat {
    match justify {
        Some(Justify::Center) => room(rect_width, row_len) / 2,
        Some(Justify::Right) => room(rect_width, row_len),
        Some(Justify::Justified) => room(rect_width, widest) / 2,
        _ => 0,
    }
}

/// A row that is justified to the right and no longer than its rectangle
/// ends in the rectangle's last column.
pub proof fn lemma_right_justified_ends_at_edge(rect_width: nat, row_len: nat, widest: nat)
    requires
        row_len <= rect_width,
    ensures
        start_col(Some(Justify::Right), rect_width, row_len, widest) + row_len - 1 == rect_width - 1,
{
}

/// The board with one row of content written on it: the codes of `line`
/// in row `row`, from column `col` on. Cells that the board lacks are not
/// written.
pub open spec fn draw_line(board: Seq<Seq<u8>>, line: Seq<CharacterCode>, row: int, col: int) -> Seq<
    Seq<u8>,
> {
    Seq::new(
        board.len(),
        |r: int|
            Seq::new(
                board[r].len(),
                |c: int|
                    if r == row && col <= c < col + line.len() {
                        line[c - col].code()
                    } else {
                        board[r][c]
                    },
            ),
    )
}

/// The number of rows among the first `n` that hold content.
pub open spec fn lines_in(rows: Seq<Seq<CharacterCode>>, n: int) -> nat
    decreases n,
{
    if n <= 0 {
        0
    } else if rows[n - 1].len() > 0 {
        lines_in(rows, n - 1) + 1
    } else {
        lines_in(rows, n - 1)
    }
}

/// Where the content of a component goes on the board, and how its rows
/// are justified.
pub struct Frame {
    /// The row of the board in which the content begins.
    pub top: nat,
    /// The column of the board in which the rectangle begins.
    pub left: nat,
    /// The justification of the rows.
    pub justify: Option<Justify>,
    /// The width of the rectangle.
    pub width: nat,
    /// The length of the longest row.
    pub widest: nat,
}

/// The board with the first `n` rows of a component's content written on
/// it. Rows without content are passed over and take no row of the board:
/// the rows with content stand one below the other.
pub open spec fn draw_rows(board: Seq<Seq<u8>>, rows: Seq<Seq<CharacterCode>>, n: int, frame: Frame) -> Seq<
    Seq<u8>,
>
    decreases n,
{
    if n <= 0 {
        board
    } else {
        let before = draw_rows(board, rows, n - 1, frame);
        let line = rows[n - 1];
        if line.len() == 0 {
            before
        } else {
            draw_line(
                before,
                line,
                (frame.top + lines_in(rows, n - 1)) as int,
                (frame.left + start_col(frame.justify, frame.width, line.len(), frame.widest)) as int,
            )
        }
    }
}

/// The place in the flow where the next component goes, and the row below
/// everything placed so far.
pub struct Flow {
    pub cur_row: nat,
    pub cur_col: nat,
    pub max_row: nat,
}

/// What a component brings to the board.
pub enum Content {
    /// A ready board.
    Cells(Seq<Seq<u8>>),
    /// A text to lay out, its escapes replaced.
    Text(Seq<char>),
}

/// A component as the composition sees it.
pub struct Item {
    pub style: ComponentStyle,
    pub content: Content,
}

/// The board as far as it is drawn, and the state of the flow.
pub struct Canvas {
    pub flow: Flow,
    pub board: Seq<Seq<u8>>,
}

/// The place of a component. One that does not fit in what is left of the
/// flow's row goes to the start of the row below everything placed so far.
/// One with a position of its own goes there.
pub open spec fn anchored(flow: Flow, style: ComponentStyle, width: nat, cols: nat) -> Flow {
    let wrapped = if flow.cur_col + width > cols {
        Flow { cur_row: flow.max_row, cur_col: 0, max_row: flow.max_row }
    } else {
        flow
    };
    match style.absolute_position {
        Some(position) => Flow {
            cur_row: position.y as nat,
            cur_col: position.x as nat,
            max_row: wrapped.max_row,
        },
        None => wrapped,
    }
}

/// The canvas with one more component on it, on a board of `rows` by
/// `cols` cells.
///
/// A ready board takes the place of the whole board as drawn so far and
/// leaves the flow where its place is. A text is wrapped in its rectangle,
/// aligned, and drawn at its place; the flow moves on by the width of the
/// rectangle.
pub open spec fn draw_item(canvas: Canvas, item: Item, rows: nat, cols: nat) -> Canvas {
    let height = rect_height(item.style, rows);
    let width = rect_width(item.style, cols);
    let flow = anchored(canvas.flow, item.style, width, cols);
    match item.content {
        Content::Cells(cells) => Canvas { flow, board: cells },
        Content::Text(text) => {
            let wrapped = wrap(text, height, width);
            let frame = Frame {
                top: flow.cur_row + start_row(item.style.align, height, wrapped.height),
                left: flow.cur_col,
                justify: item.style.justify,
                width,
                widest: wrapped.widest,
            };
            Canvas {
                flow: Flow {
                    cur_row: flow.cur_row,
                    cur_col: flow.cur_col + width,
                    max_row: if flow.max_row >= flow.cur_row + height {
                        flow.max_row
                    } else {
                        flow.cur_row + height
                    },
                },
                board: draw_rows(canvas.board, wrapped.rows, wrapped.rows.len() as int, frame),
            }
        },
    }
}

/// The canvas with the items drawn on a blank board, one after the other.
pub open spec fn draw_items(items: Seq<Item>, rows: nat, cols: nat) -> Canvas
    decreases items.len(),
{
    if items.len() == 0 {
        Canvas {
            flow: Flow { cur_row: 0, cur_col: 0, max_row: 0 },
            board: filled_grid(rows, cols, 0u8),
        }
    } else {
        draw_item(draw_items(items.drop_last(), rows, cols), items.last(), rows, cols)
    }
}

/// The item is placed in the flow: it has no position of its own.
pub open spec fn in_flow(item: Item) -> bool {
    item.style.absolute_position is None
}

/// The items that are placed in the flow, in their order.
pub open spec fn flowing(items: Seq<Item>) -> Seq<Item> {
    items.filter(|item: Item| in_flow(item))
}

/// The items that have a position of their own, in their order.
pub open spec fn positioned(items: Seq<Item>) -> Seq<Item> {
    items.filter(|item: Item| !in_flow(item))
}

/// The order in which items are drawn: those in the flow, in their order,
/// and then those with a position of their own, in theirs.
pub open spec fn drawing_order(items: Seq<Item>) -> Seq<Item> {
    flowing(items) + positioned(items)
}

/// The item that a component and its text make. A raw component brings
/// its cells, and its text is not read.
pub open spec fn item_of<const ROWS: usize, const COLS: usize>(
    component: VbmlComponent<ROWS, COLS>,
    text: Seq<char>,
) -> Item {
    match component {
        VbmlComponent::Raw(raw) => Item {
            style: raw.style,
            content: Content::Cells(raw.raw_characters@),
        },
        VbmlComponent::Template(template) => Item {
            style: template.style,
            content: Content::Text(text),
        },
    }
}

/// The text of the component at index `i`: empty where the list of texts
/// ends before it.
pub open spec fn text_at(texts: Seq<Seq<char>>, i: int) -> Seq<char> {
    if 0 <= i < texts.len() {
        texts[i]
    } else {
        Seq::empty()
    }
}

/// The items that components make with their texts, index by index.
pub open spec fn items_of<const ROWS: usize, const COLS: usize>(
    components: Seq<VbmlComponent<ROWS, COLS>>,
    texts: Seq<Seq<char>>,
) -> Seq<Item> {
    Seq::new(components.len(), |i: int| item_of(components[i], text_at(texts, i)))
}

/// The board that components make with their texts.
pub open spec fn composed<const ROWS: usize, const COLS: usize>(
    components: Seq<VbmlComponent<ROWS, COLS>>,
    texts: Seq<Seq<char>>,
) -> Seq<Seq<u8>> {
    draw_items(drawing_order(items_of(components, texts)), ROWS as nat, COLS as nat).board
}

/// One more item joins those in the flow if it is placed there, and those
/// with a position of their own if it has one.
pub proof fn lemma_order_push(items: Seq<Item>, item: Item)
    ensures
        flowing(items.push(item)) == if in_flow(item) {
            flowing(items).push(item)
        } else {
            flowing(items)
        },
        positioned(items.push(item)) == if in_flow(item) {
            positioned(items)
        } else {
            positioned(items).push(item)
        },
{
    items.lemma_filter_push(item, |item: Item| in_flow(item));
    items.lemma_filter_push(item, |item: Item| !in_flow(item));
}

/// A row of the board that the board lacks is not drawn.
pub proof fn lemma_draw_line_outside(board: Seq<Seq<u8>>, line: Seq<CharacterCode>, row: int, col: int)
    requires
        row >= board.len(),
    ensures
        draw_line(board, line, row, col) == board,
{
    assert forall|r: int| 0 <= r < board.len() implies #[trigger] draw_line(board, line, row, col)[r]
        =~= board[r] by {}
    assert(draw_line(board, line, row, col) =~= board);
}

/// Content that begins below the board leaves the board as it is.
pub proof fn lemma_draw_rows_outside(
    board: Seq<Seq<u8>>,
    rows: Seq<Seq<CharacterCode>>,
    n: int,
    frame: Frame,
)
    requires
        frame.top >= board.len(),
    ensures
        draw_rows(board, rows, n, frame) == board,
    decreases n,
{
    if n > 0 {
        lemma_draw_rows_outside(board, rows, n - 1, frame);
        let line = rows[n - 1];
        lemma_draw_line_outside(
            board,
            line,
            (frame.top + lines_in(rows, n - 1)) as int,
            (frame.left + start_col(frame.justify, frame.width, line.len(), frame.widest)) as int,
        );
    }
}

/// Drawing keeps the size of the board.
pub proof fn lemma_draw_rows_size(board: Seq<Seq<u8>>, rows: Seq<Seq<CharacterCode>>, n: int, frame: Frame)
    ensures
        draw_rows(board, rows, n, frame).len() == board.len(),
        forall|r: int|
            0 <= r < board.len() ==> (#[trigger] draw_rows(board, rows, n, frame)[r]).len()
                == board[r].len(),
    decreases n,
{
    if n > 0 {
        lemma_draw_rows_size(board, rows, n - 1, frame);
    }
}

/// More rows hold no fewer rows with content.
pub proof fn lemma_lines_in_grows(rows: Seq<Seq<CharacterCode>>, m: int, n: int)
    requires
        m <= n,
    ensures
        lines_in(rows, m) <= lines_in(rows, n),
    decreases n - m,
{
    if m < n {
        lemma_lines_in_grows(rows, m, n - 1);
    }
}

/// The first `n` rows of content are drawn above the board row in which
/// the next row with content would stand: that row and those below it
/// are as they were.
pub proof fn lemma_draw_rows_above(
    board: Seq<Seq<u8>>,
    rows: Seq<Seq<CharacterCode>>,
    n: int,
    frame: Frame,
    r: int,
)
    requires
        frame.top + lines_in(rows, n) <= r < board.len(),
    ensures
        draw_rows(board, rows, n, frame)[r] == board[r],
    decreases n,
{
    if n > 0 {
        lemma_lines_in_grows(rows, n - 1, n);
        lemma_draw_rows_above(board, rows, n - 1, frame, r);
        lemma_draw_rows_size(board, rows, n - 1, frame);
        assert(draw_rows(board, rows, n, frame)[r] =~= board[r]);
    }
}

/// The column of the board in which a row of content begins.
pub open spec fn line_left(frame: Frame, line: Seq<CharacterCode>) -> nat {
    frame.left + start_col(frame.justify, frame.width, line.len(), frame.widest)
}

/// Each row of content has a row of the board to itself: once the content
/// is drawn, the board row in which the row at index `i` stands holds that
/// row of content, and is otherwise as it was.
pub proof fn lemma_draw_rows_row(
    board: Seq<Seq<u8>>,
    rows: Seq<Seq<CharacterCode>>,
    n: int,
    frame: Frame,
    i: int,
    r: int,
)
    requires
        0 <= i < n <= rows.len(),
        rows[i].len() > 0,
        r == frame.top + lines_in(rows, i),
        r < board.len(),
    ensures
        draw_rows(board, rows, n, frame)[r] == draw_line(
            board,
            rows[i],
            r,
            line_left(frame, rows[i]) as int,
        )[r],
    decreases n,
{
    let before = draw_rows(board, rows, n - 1, frame);
    lemma_draw_rows_size(board, rows, n - 1, frame);
    if n - 1 == i {
        lemma_draw_rows_above(board, rows, i, frame, r);
        assert(draw_rows(board, rows, n, frame)[r] =~= draw_line(
            board,
            rows[i],
            r,
            line_left(frame, rows[i]) as int,
        )[r]);
    } else {
        lemma_draw_rows_row(board, rows, n - 1, frame, i, r);
        lemma_lines_in_grows(rows, i + 1, n - 1);
        assert(draw_rows(board, rows, n, frame)[r] =~= before[r]);
    }
}

/// A row of content that is justified to the right and no longer than its
/// rectangle takes the last columns of the rectangle, in its order, and
/// ends in the last: its first cell stands as many columns before the
/// rectangle's right edge as the row is long. The cells of its board row
/// beside these columns are as they were.
pub proof fn lemma_right_justified_row(
    board: Seq<Seq<u8>>,
    rows: Seq<Seq<CharacterCode>>,
    frame: Frame,
    i: int,
    r: int,
)
    requires
        frame.justify == Some(Justify::Right),
        0 <= i < rows.len(),
        1 <= rows[i].len() <= frame.width,
        r == frame.top + lines_in(rows, i),
        r < board.len(),
    ensures
        ({
            let drawn = draw_rows(board, rows, rows.len() as int, frame);
            let first = frame.left + frame.width - rows[i].len();
            &&& drawn[r].len() == board[r].len()
            &&& forall|c: int|
                0 <= c < board[r].len() ==> #[trigger] drawn[r][c] == (if first <= c < frame.left
                    + frame.width {
                    rows[i][c - first].code()
                } else {
                    board[r][c]
                })
        }),
{
    lemma_draw_rows_row(board, rows, rows.len() as int, frame, i, r);
    lemma_draw_rows_size(board, rows, rows.len() as int, frame);
}

/// The canvas of a single component that is a text placed in the flow, in
/// a rectangle no wider than the board: its wrapped content, drawn on a
/// blank board from the left edge.
pub open spec fn single_text_frame(style: ComponentStyle, text: Seq<char>, rows: nat, cols: nat) -> Frame {
    let height = rect_height(style, rows);
    let width = rect_width(style, cols);
    let wrapped = wrap(text, height, width);
    Frame {
        top: start_row(style.align, height, wrapped.height),
        left: 0,
        justify: style.justify,
        width,
        widest: wrapped.widest,
    }
}

/// A single text placed in the flow, in a rectangle no wider than the
/// board, is drawn on a blank board from the top left corner.
pub proof fn lemma_single_text(item: Item, rows: nat, cols: nat)
    requires
        in_flow(item),
        item.content is Text,
        rect_width(item.style, cols) <= cols,
    ensures
        draw_items(drawing_order(seq![item]), rows, cols).board == ({
            let text = item.content->Text_0;
            let wrapped = wrap(text, rect_height(item.style, rows), rect_width(item.style, cols));
            draw_rows(
                filled_grid(rows, cols, 0u8),
                wrapped.rows,
                wrapped.rows.len() as int,
                single_text_frame(item.style, text, rows, cols),
            )
        }),
{
    let none = Seq::<Item>::empty();
    reveal(Seq::filter);
    assert(flowing(none) =~= none);
    assert(positioned(none) =~= none);
    lemma_order_push(none, item);
    assert(none.push(item) =~= seq![item]);
    assert(drawing_order(seq![item]) =~= seq![item]);
    assert(seq![item].drop_last() =~= none);
    assert(seq![item].last() == item);
    let blank = draw_items(none, rows, cols);
    assert(blank.board == filled_grid(rows, cols, 0u8));
    assert(draw_items(seq![item], rows, cols) == draw_item(blank, item, rows, cols));
    let width = rect_width(item.style, cols);
    assert(anchored(blank.flow, item.style, width, cols) == blank.flow);
}

/// The row of a rectangle in which its content begins.
pub fn starting_row(align: Option<Align>, rect_height: usize, content_height: usize) -> (row: usize)
    ensures
        row == start_row(align, rect_height as nat, content_height as nat),
        row <= rect_height,
{
    let room = if rect_height >= content_height {
        rect_height - content_height
    } else {
        0
    };
    match align {
        Some(Align::Center) => room / 2,
        Some(Align::Bottom) => room,
        Some(Align::Justified) => room / 2 + room % 2,
        _ => 0,
    }
}

/// The column of a rectangle in which a row of content begins.
pub fn starting_col(justify: Option<Justify>, rect_width: usize, row_len: usize, widest: usize) -> (col:
    usize)
    ensures
        col == start_col(justify, rect_width as nat, row_len as nat, widest as nat),
        col <= rect_width,
{
    match justify {
        Some(Justify::Center) => if rect_width >= row_len {
            (rect_width - row_len) / 2
        } else {
            0
        },
        Some(Justify::Right) => if rect_width >= row_len {
            rect_width - row_len
        } else {
            0
        },
        Some(Justify::Justified) => if rect_width >= widest {
            (rect_width - widest) / 2
        } else {
            0
        },
        _ => 0,
    }
}

/// The greatest row or column that the composition reckons with: twice
/// what a `usize` holds, and more.
pub open spec fn far() -> nat {
    0x8_0000_0000_0000_0000
}

/// Writes one row of content onto the board.
fn draw_line_at<const ROWS: usize, const COLS: usize>(
    board: &mut BoardData<ROWS, COLS>,
    line: &Vec<CharacterCode>,
    row: usize,
    col: u128,
)
    requires
        row < ROWS,
        col <= far(),
    ensures
        final(board)@ == draw_line(old(board)@, line@, row as int, col as int),
{
    let mut j: usize = 0;
    assert(board@ =~= draw_line(old(board)@, line@.take(0), row as int, col as int)) by {
        assert forall|r: int| 0 <= r < ROWS implies #[trigger] board@[r] =~= draw_line(
            old(board)@,
            line@.take(0),
            row as int,
            col as int,
        )[r] by {}
    }
    while j < line.len()
        invariant
            j <= line.len(),
            row < ROWS,
            col <= far(),
            board@ == draw_line(old(board)@, line@.take(j as int), row as int, col as int),
        decreases line.len() - j,
    {
        let c: u128 = col + j as u128;
        let ghost before = board@;
        if c < COLS as u128 {
            board.set(row, c as usize, line[j].to_u8());
        }
        proof {
            let after = draw_line(old(board)@, line@.take(j + 1), row as int, col as int);
            assert forall|r: int| 0 <= r < ROWS implies #[trigger] board@[r] =~= after[r] by {
                assert(before[r] == draw_line(
                    old(board)@,
                    line@.take(j as int),
                    row as int,
                    col as int,
                )[r]);
            }
            assert(board@ =~= after);
        }
        j += 1;
    }
    assert(line@.take(j as int) =~= line@);
}

/// Writes the rows of a component's content onto the board.
fn draw_rows_at<const ROWS: usize, const COLS: usize>(
    board: &mut BoardData<ROWS, COLS>,
    rows: &Vec<Vec<CharacterCode>>,
    top: u128,
    left: u128,
    justify: Option<Justify>,
    width: usize,
    widest: usize,
)
    requires
        top <= 2 * usize::MAX,
        left <= 2 * usize::MAX,
    ensures
        final(board)@ == draw_rows(
            old(board)@,
            views(rows@),
            rows.len() as int,
            Frame { top: top as nat, left: left as nat, justify, width: width as nat, widest: widest as nat },
        ),
{
    let ghost frame = Frame {
        top: top as nat,
        left: left as nat,
        justify,
        width: width as nat,
        widest: widest as nat,
    };
    let mut i: usize = 0;
    let mut lines: usize = 0;
    while i < rows.len()
        invariant
            i <= rows.len(),
            lines <= i,
            lines == lines_in(views(rows@), i as int),
            top <= 2 * usize::MAX,
            left <= 2 * usize::MAX,
            frame == (Frame {
                top: top as nat,
                left: left as nat,
                justify,
                width: width as nat,
                widest: widest as nat,
            }),
            board@ == draw_rows(old(board)@, views(rows@), i as int, frame),
        decreases rows.len() - i,
    {
        let line = &rows[i];
        assert(views(rows@)[i as int] == line@);
        if line.len() > 0 {
            let row: u128 = top + lines as u128;
            let col: u128 = left + starting_col(justify, width, line.len(), widest) as u128;
            if row < ROWS as u128 {
                draw_line_at(board, line, row as usize, col);
            } else {
                proof {
                    lemma_draw_line_outside(board@, line@, row as int, col as int);
                }
            }
            lines += 1;
        }
        i += 1;
    }
}

/// The state of the flow while the composition runs. Rows below the board
/// are all one to it: it keeps a row no further than the board's height.
struct Pen {
    cur_row: usize,
    cur_col: u128,
    max_row: usize,
}

impl Pen {
    /// The pen stands where the flow is, as far as the board reaches.
    closed spec fn tracks(self, flow: Flow, rows: nat) -> bool {
        &&& self.cur_row == if flow.cur_row < rows {
            flow.cur_row
        } else {
            rows
        }
        &&& self.max_row == if flow.max_row < rows {
            flow.max_row
        } else {
            rows
        }
        &&& self.cur_col == flow.cur_col
        &&& flow.cur_col <= 2 * usize::MAX
    }
}

/// Draws one component onto the board and moves the pen on.
fn draw_component<const ROWS: usize, const COLS: usize>(
    board: &mut BoardData<ROWS, COLS>,
    pen: &mut Pen,
    component: &VbmlComponent<ROWS, COLS>,
    text: &str,
    Ghost(canvas): Ghost<Canvas>,
)
    requires
        old(board)@ == canvas.board,
        old(pen).tracks(canvas.flow, ROWS as nat),
    ensures
        final(board)@ == draw_item(canvas, item_of(*component, text@), ROWS as nat, COLS as nat).board,
        final(pen).tracks(
            draw_item(canvas, item_of(*component, text@), ROWS as nat, COLS as nat).flow,
            ROWS as nat,
        ),
{
    let style = component.get_style();
    let height = rectangle_height(style, ROWS);
    let width = rectangle_width(style, COLS);
    let ghost flow = anchored(canvas.flow, *style, width as nat, COLS as nat);
    if pen.cur_col + width as u128 > COLS as u128 {
        pen.cur_col = 0;
        pen.cur_row = pen.max_row;
    }
    match style.absolute_position {
        Some(position) => {
            pen.cur_row = if (position.y as usize) < ROWS {
                position.y as usize
            } else {
                ROWS
            };
            pen.cur_col = position.x as u128;
        },
        None => {},
    }
    assert(pen.tracks(flow, ROWS as nat));
    assert(flow.cur_col <= usize::MAX);
    match component {
        VbmlComponent::Raw(raw) => {
            *board = raw.raw_characters;
        },
        VbmlComponent::Template(_) => {
            let (content_height, widest, rows) = wrap_text(text, height, width);
            let start = starting_row(style.align, height, content_height);
            let ghost frame = Frame {
                top: flow.cur_row + start as nat,
                left: flow.cur_col,
                justify: style.justify,
                width: width as nat,
                widest: widest as nat,
            };
            if pen.cur_row < ROWS {
                draw_rows_at(
                    board,
                    &rows,
                    pen.cur_row as u128 + start as u128,
                    pen.cur_col,
                    style.justify,
                    width,
                    widest,
                );
            } else {
                proof {
                    lemma_draw_rows_outside(board@, views(rows@), rows.len() as int, frame);
                }
            }
            pen.cur_col = pen.cur_col + width as u128;
            let below: u128 = pen.cur_row as u128 + height as u128;
            let below_on_board: usize = if below > ROWS as u128 {
                ROWS
            } else {
                below as usize
            };
            if below_on_board > pen.max_row {
                pen.max_row = below_on_board;
            }
        },
    }
}

/// Draws components onto a blank board, each with its text: the text of
/// the component at index `i` is the one at index `i`, and the empty text
/// where `texts` ends before it. The text of a raw component is not read.
///
/// The components in the flow are drawn first, in their order; those with
/// a position of their own follow, in theirs.
pub fn compose<const ROWS: usize, const COLS: usize>(
    components: &Vec<VbmlComponent<ROWS, COLS>>,
    texts: &Vec<String>,
) -> (board: BoardData<ROWS, COLS>)
    ensures
        board@ == composed(components@, string_views(texts@)),
{
    let mut board: BoardData<ROWS, COLS> = BoardData::default();
    let mut pen = Pen { cur_row: 0, cur_col: 0, max_row: 0 };
    let empty = String::new();
    let ghost items = items_of(components@, string_views(texts@));
    let ghost mut drawn: Seq<Item> = Seq::empty();
    let ghost mut canvas = draw_items(drawn, ROWS as nat, COLS as nat);
    proof {
        reveal(Seq::filter);
        assert(items.take(0) =~= Seq::empty());
        assert(flowing(items.take(0)) =~= drawn);
    }
    let mut i: usize = 0;
    while i < components.len()
        invariant
            i <= components.len(),
            empty@ == Seq::<char>::empty(),
            items == items_of(components@, string_views(texts@)),
            drawn == flowing(items.take(i as int)),
            canvas == draw_items(drawn, ROWS as nat, COLS as nat),
            board@ == canvas.board,
            pen.tracks(canvas.flow, ROWS as nat),
        decreases components.len() - i,
    {
        let component = &components[i];
        let text = if i < texts.len() {
            texts[i].as_str()
        } else {
            empty.as_str()
        };
        proof {
            assert(items.take(i + 1) =~= items.take(i as int).push(items[i as int]));
            lemma_order_push(items.take(i as int), items[i as int]);
            assert(items[i as int] == item_of(*component, text@));
        }
        if component.get_style().absolute_position.is_none() {
            draw_component(&mut board, &mut pen, component, text, Ghost(canvas));
            proof {
                assert(drawn.push(items[i as int]).drop_last() =~= drawn);
                drawn = drawn.push(items[i as int]);
                canvas = draw_items(drawn, ROWS as nat, COLS as nat);
            }
        }
        i += 1;
    }
    let ghost flowed = drawn;
    proof {
        reveal(Seq::filter);
        assert(items.take(i as int) =~= items);
        assert(items.take(0) =~= Seq::empty());
        assert(flowed + positioned(items.take(0)) =~= drawn);
    }
    let mut k: usize = 0;
    while k < components.len()
        invariant
            k <= components.len(),
            empty@ == Seq::<char>::empty(),
            items == items_of(components@, string_views(texts@)),
            flowed == flowing(items),
            drawn == flowed + positioned(items.take(k as int)),
            canvas == draw_items(drawn, ROWS as nat, COLS as nat),
            board@ == canvas.board,
            pen.tracks(canvas.flow, ROWS as nat),
        decreases components.len() - k,
    {
        let component = &components[k];
        let text = if k < texts.len() {
            texts[k].as_str()
        } else {
            empty.as_str()
        };
        proof {
            assert(items.take(k + 1) =~= items.take(k as int).push(items[k as int]));
            lemma_order_push(items.take(k as int), items[k as int]);
            assert(items[k as int] == item_of(*component, text@));
        }
        if component.get_style().absolute_position.is_some() {
            draw_component(&mut board, &mut pen, component, text, Ghost(canvas));
            proof {
                let next = drawn.push(items[k as int]);
                assert(next.drop_last() =~= drawn);
                assert(next =~= flowed + positioned(items.take(k as int)).push(items[k as int]));
                drawn = next;
                canvas = draw_items(drawn, ROWS as nat, COLS as nat);
            }
        }
        k += 1;
    }
    proof {
        assert(items.take(k as int) =~= items);
    }
    board
}

} // verus!
