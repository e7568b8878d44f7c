//! Boards: fixed-size grids of character codes.
//!
//! A [`BoardData`] holds `ROWS` rows of `COLS` cells, one byte per cell. It
//! is read from and written to a comma-separated text of numbers, laid out
//! row by row, and can be printed as a bordered grid of characters.

use vstd::prelude::*;
use vstd::std_specs::cmp::PartialEqSpecImpl;
use vstd::std_specs::convert::FromSpecImpl;

pub mod character;
pub mod layout;

pub use character::CharacterCode;

use crate::text::{chars_of, string_from_chars, views};
use layout::{
    cell_value, in_grid, invalid_at, lemma_cell_before, lemma_cell_index, overflow_at, parse_cells,
    parse_text, parse_token, rejected_at, split_at_commas, strip_to_cells, token_value, Parsed,
};

verus! {

/// The number of rows of the flagship board.
pub const FLAGSHIP_ROWS: usize = 6;

/// The number of columns of the flagship board.
pub const FLAGSHIP_COLS: usize = 22;

/// A board written with characters.
pub type TextBoard<const ROWS: usize, const COLS: usize> = [[char; COLS]; ROWS];

/// A board written with character codes.
pub type Board<const ROWS: usize, const COLS: usize> = [[u8; COLS]; ROWS];

/// A board of `ROWS` by `COLS` character codes.
#[derive(Debug, Clone, Copy)]
pub struct BoardData<const ROWS: usize, const COLS: usize>(pub Board<ROWS, COLS>);

/// The cells of a raw board, row by row.
pub open spec fn board_cells<const ROWS: usize, const COLS: usize>(cells: Board<ROWS, COLS>) -> Seq<Seq<u8>> {
    Seq::new(ROWS as nat, |r: int| cells[r]@)
}

/// The grid of `rows` by `cols` cells that holds `value` everywhere.
pub open spec fn filled_grid<T>(rows: nat, cols: nat, value: T) -> Seq<Seq<T>> {
    Seq::new(rows, |r: int| Seq::new(cols, |c: int| value))
}

impl<const ROWS: usize, const COLS: usize> View for BoardData<ROWS, COLS> {
    type V = Seq<Seq<u8>>;

    open spec fn view(&self) -> Seq<Seq<u8>> {
        board_cells(self.0)
    }
}

impl<const ROWS: usize, const COLS: usize> BoardData<ROWS, COLS> {
    /// The views of two boards agree only if the boards do.
    pub proof fn lemma_view_injective(self, other: Self)
        requires
            self@ == other@,
        ensures
            self == other,
    {
        assert forall|r: int| 0 <= r < ROWS implies self.0[r] == other.0[r] by {
            assert(self@[r] == other@[r]);
            assert(self.0[r] =~= other.0[r]);
        }
        assert(self.0 =~= other.0);
    }

    /// Reading the text of a board gives the board back.
    pub proof fn lemma_read_back(self)
        ensures
            parse_text(layout::layout_text(self@), ROWS as nat, COLS as nat) == Parsed::Board(self@),
    {
        layout::lemma_layout_round_trip(self@, ROWS as nat, COLS as nat);
    }

    /// The code in one cell.
    pub fn get(&self, row: usize, col: usize) -> (code: u8)
        requires
            row < ROWS,
            col < COLS,
        ensures
            code == self@[row as int][col as int],
    {
        self.0[row][col]
    }

    /// Puts a code into one cell and leaves the others as they are.
    pub fn set(&mut self, row: usize, col: usize, code: u8)
        requires
            row < ROWS,
            col < COLS,
        ensures
            final(self)@ == old(self)@.update(row as int, old(self)@[row as int].update(col as int, code)),
    {
        self.0[row][col] = code;
        assert(self@ =~= old(self)@.update(row as int, old(self)@[row as int].update(col as int, code)));
    }
}

impl<const ROWS: usize, const COLS: usize> BoardData<ROWS, COLS> {
    /// Reads a board from its text: the codes of its cells as decimal
    /// numbers, row by row, separated by commas. Characters that are neither
    /// digits nor commas are dropped first, so the numbers may stand in
    /// brackets or on several lines. Cells that the text does not reach stay
    /// blank.
    ///
    /// # Errors
    /// - [`BoardError::InvalidChar`] if the text between two commas should
    ///   fill a cell and is not the number of a code; the error holds that
    ///   text.
    /// - [`BoardError::TooManyRows`] if a number stands past the last cell.
    ///   An empty piece there, as a trailing comma leaves, is passed over.
    pub fn from_str(s: &str) -> (r: Result<Self, BoardError>)
        ensures
            match r {
                Ok(board) => parse_text(s@, ROWS as nat, COLS as nat) == Parsed::Board(board@),
                Err(BoardError::InvalidChar(token)) => parse_text(s@, ROWS as nat, COLS as nat)
                    == Parsed::InvalidChar(token@),
                Err(BoardError::TooManyRows) => parse_text(s@, ROWS as nat, COLS as nat)
                    == Parsed::TooManyRows,
                Err(_) => false,
            },
    {
        let chars = chars_of(s);
        let text = strip_to_cells(&chars);
        let tokens = split_at_commas(&text);
        let ghost pieces = views(tokens@);
        let ghost rows = ROWS as nat;
        let ghost cols = COLS as nat;
        let mut board: Self = Self::default();
        let mut i: usize = 0;
        while i < tokens.len()
            invariant
                i <= tokens.len(),
                pieces == views(tokens@),
                pieces == layout::split_commas(layout::cell_text(s@)),
                rows == ROWS,
                cols == COLS,
                forall|j: int| 0 <= j < i ==> !rejected_at(pieces, rows, cols, j),
                forall|r: int, c: int|
                    0 <= r < ROWS && 0 <= c < COLS ==> #[trigger] board@[r][c] == (if r * COLS + c < i {
                        cell_value(pieces, r * COLS + c)
                    } else {
                        0
                    }),
            decreases tokens.len() - i,
        {
            let token = &tokens[i];
            assert(pieces[i as int] == token@);
            if COLS > 0 && i / COLS < ROWS {
                match parse_token(token) {
                    Some(code) => {
                        let ghost before = board@;
                        board.set(i / COLS, i % COLS, code);
                        assert forall|r: int, c: int| 0 <= r < ROWS && 0 <= c < COLS implies #[trigger] board@[r][c]
                            == (if r * COLS + c < i + 1 {
                            cell_value(pieces, r * COLS + c)
                        } else {
                            0
                        }) by {
                            lemma_cell_index(i as int, r, c, COLS as int);
                            assert(before[r][c] == (if r * COLS + c < i {
                                cell_value(pieces, r * COLS + c)
                            } else {
                                0
                            }));
                        }
                    },
                    None => {
                        proof {
                            assert(invalid_at(pieces, rows, cols, i as int));
                            lemma_first_rejected(pieces, rows, cols, i as int);
                        }
                        return Err(BoardError::InvalidChar(string_from_chars(token)));
                    },
                }
            } else {
                if token.len() > 0 {
                    proof {
                        assert(overflow_at(pieces, rows, cols, i as int));
                        lemma_first_rejected(pieces, rows, cols, i as int);
                    }
                    return Err(BoardError::TooManyRows);
                }
                assert forall|r: int, c: int| 0 <= r < ROWS && 0 <= c < COLS implies #[trigger] board@[r][c]
                    == (if r * COLS + c < i + 1 {
                    cell_value(pieces, r * COLS + c)
                } else {
                    0
                }) by {
                    lemma_cell_before(i as int, r, c, ROWS as int, COLS as int);
                }
            }
            i += 1;
        }
        proof {
            assert(!exists|j: int| rejected_at(pieces, rows, cols, j));
            let cells = Seq::new(rows, |r: int| Seq::new(cols, |c: int| cell_value(pieces, r * cols + c)));
            assert forall|r: int| 0 <= r < ROWS implies #[trigger] board@[r] =~= cells[r] by {
                assert forall|c: int| 0 <= c < COLS implies board@[r][c] == cells[r][c] by {
                    assert(board@[r][c] == (if r * COLS + c < i {
                        cell_value(pieces, r * COLS + c)
                    } else {
                        0
                    }));
                }
            }
            assert(board@ =~= cells);
        }
        Ok(board)
    }
}

/// The line above and below a bordered board of `cols` columns: a space
/// and two dashes for every column.
pub open spec fn border(cols: nat) -> Seq<char> {
    seq![' '] + Seq::new(2 * cols, |i: int| '-') + seq!['\n']
}

/// The first `n` cells of a row as they are printed, one after the other.
pub open spec fn cells_display(row: Seq<u8>, n: int) -> Seq<char>
    decreases n,
{
    if n <= 0 {
        Seq::empty()
    } else {
        cells_display(row, n - 1) + CharacterCode::of_byte(row[n - 1]).display()
    }
}

/// A row as it is printed: its cells between two bars, on a line of its
/// own. A row without cells is printed without bars.
pub open spec fn row_display(row: Seq<u8>) -> Seq<char> {
    let bar = if row.len() > 0 {
        seq!['|']
    } else {
        Seq::empty()
    };
    bar + cells_display(row, row.len() as int) + bar + seq!['\n']
}

/// The first `n` rows of a board as they are printed.
pub open spec fn rows_display(cells: Seq<Seq<u8>>, n: int) -> Seq<char>
    decreases n,
{
    if n <= 0 {
        Seq::empty()
    } else {
        rows_display(cells, n - 1) + row_display(cells[n - 1])
    }
}

/// A board of `cols` columns as it is printed: its rows between two
/// borders.
pub open spec fn board_display(cells: Seq<Seq<u8>>, cols: nat) -> Seq<char> {
    border(cols) + rows_display(cells, cells.len() as int) + border(cols)
}

/// Appends the line above and below a bordered board of `cols` columns.
fn write_border(out: &mut Vec<char>, cols: usize)
    ensures
        final(out)@ == old(out)@ + border(cols as nat),
{
    out.push(' ');
    let mut i: usize = 0;
    while i < cols
        invariant
            i <= cols,
            out@ == old(out)@ + seq![' '] + Seq::new(2 * (i as nat), |k: int| '-'),
        decreases cols - i,
    {
        out.push('-');
        out.push('-');
        i += 1;
        assert(out@ =~= old(out)@ + seq![' '] + Seq::new(2 * (i as nat), |k: int| '-'));
    }
    out.push('\n');
    assert(out@ =~= old(out)@ + border(cols as nat));
}

impl<const ROWS: usize, const COLS: usize> BoardData<ROWS, COLS> {
    /// Writes the board as text: its codes as decimal numbers, each row
    /// in brackets and the rows in brackets, as in `[[1,2],[3,4]]`. Reading
    /// the text with [`BoardData::from_str`] gives the board back.
    pub fn to_layout_string(&self) -> (s: String)
        ensures
            s@ == layout::layout_text(self@),
    {
        let mut out: Vec<char> = Vec::new();
        out.push('[');
        let mut row: usize = 0;
        assert(out@ =~= seq!['['] + layout::row_list(self@, 0));
        while row < ROWS
            invariant
                row <= ROWS,
                out@ == seq!['['] + layout::row_list(self@, row as int),
            decreases ROWS - row,
        {
            if row > 0 {
                out.push(',');
            }
            out.push('[');
            let ghost cells = self@[row as int];
            assert(self.0[row as int]@ == cells);
            layout::write_numbers(&mut out, &self.0[row]);
            out.push(']');
            row += 1;
            assert(out@ =~= seq!['['] + layout::row_list(self@, row as int));
        }
        out.push(']');
        string_from_chars(&out)
    }

    /// Prints the board as a grid of characters with a border. Every cell
    /// is two columns wide: a character is followed by a space, and a
    /// colour swatch, which a terminal draws two columns wide, is not.
    pub fn to_display_string(&self) -> (s: String)
        ensures
            s@ == board_display(self@, COLS as nat),
    {
        let mut out: Vec<char> = Vec::new();
        write_border(&mut out, COLS);
        let mut row: usize = 0;
        while row < ROWS
            invariant
                row <= ROWS,
                out@ == border(COLS as nat) + rows_display(self@, row as int),
            decreases ROWS - row,
        {
            let ghost before = out@;
            let ghost cells = self@[row as int];
            let mut col: usize = 0;
            while col < COLS
                invariant
                    row < ROWS,
                    col <= COLS,
                    cells == self@[row as int],
                    out@ == before + (if col > 0 {
                        seq!['|']
                    } else {
                        Seq::empty()
                    }) + cells_display(cells, col as int),
                decreases COLS - col,
            {
                if col == 0 {
                    out.push('|');
                }
                let code = CharacterCode::from(self.0[row][col]);
                code.write_display(&mut out);
                col += 1;
                assert(out@ =~= before + seq!['|'] + cells_display(cells, col as int));
            }
            if COLS > 0 {
                out.push('|');
            }
            out.push('\n');
            assert(out@ =~= before + row_display(cells));
            row += 1;
            assert(out@ =~= border(COLS as nat) + rows_display(self@, row as int));
        }
        write_border(&mut out, COLS);
        string_from_chars(&out)
    }
}

/// The first piece that cannot be read is the one that decides: where no
/// piece before `i` is rejected and the one at `i` is, reading fails on it.
pub proof fn lemma_first_rejected(tokens: Seq<Seq<char>>, rows: nat, cols: nat, i: int)
    requires
        rejected_at(tokens, rows, cols, i),
        forall|j: int| 0 <= j < i ==> !rejected_at(tokens, rows, cols, j),
    ensures
        invalid_at(tokens, rows, cols, i) ==> parse_cells(tokens, rows, cols) == Parsed::InvalidChar(
            tokens[i],
        ),
        !invalid_at(tokens, rows, cols, i) ==> parse_cells(tokens, rows, cols) == Parsed::TooManyRows,
{
    let first = choose|k: int|
        rejected_at(tokens, rows, cols, k) && forall|j: int|
            j < k ==> !rejected_at(tokens, rows, cols, j);
    assert(rejected_at(tokens, rows, cols, i) && forall|j: int|
        j < i ==> !rejected_at(tokens, rows, cols, j));
    assert(!(first < i));
    assert(!(i < first));
}

impl<const ROWS: usize, const COLS: usize> Default for BoardData<ROWS, COLS> {
    /// Creates a board with every cell blank.
    fn default() -> (board: Self)
        ensures
            board@ == filled_grid(ROWS as nat, COLS as nat, 0u8),
    {
        let row: [u8; COLS] = [0u8; COLS];
        let board = BoardData([row; ROWS]);
        assert forall|r: int| 0 <= r < ROWS implies #[trigger] board@[r] =~= Seq::new(
            COLS as nat,
            |c: int| 0u8,
        ) by {
            assert(board.0[r] == row);
        }
        assert(board@ =~= filled_grid(ROWS as nat, COLS as nat, 0u8));
        board
    }
}

impl<const ROWS: usize, const COLS: usize> From<Board<ROWS, COLS>> for BoardData<ROWS, COLS> {
    /// Wraps a raw board.
    fn from(raw: Board<ROWS, COLS>) -> (board: Self) {
        BoardData(raw)
    }
}

impl<const ROWS: usize, const COLS: usize> FromSpecImpl<Board<ROWS, COLS>> for BoardData<ROWS, COLS> {
    open spec fn obeys_from_spec() -> bool {
        true
    }

    open spec fn from_spec(raw: Board<ROWS, COLS>) -> Self {
        BoardData(raw)
    }
}

impl<const ROWS: usize, const COLS: usize> From<BoardData<ROWS, COLS>> for Board<ROWS, COLS> {
    /// Unwraps the raw board.
    fn from(val: BoardData<ROWS, COLS>) -> (raw: Self) {
        val.0
    }
}

impl<const ROWS: usize, const COLS: usize> FromSpecImpl<BoardData<ROWS, COLS>> for Board<ROWS, COLS> {
    open spec fn obeys_from_spec() -> bool {
        true
    }

    open spec fn from_spec(val: BoardData<ROWS, COLS>) -> Self {
        val.0
    }
}

/// The codes that the characters of a board are read as, row by row.
pub open spec fn text_cells<const ROWS: usize, const COLS: usize>(text: TextBoard<ROWS, COLS>) -> Seq<
    Seq<u8>,
> {
    Seq::new(ROWS as nat, |r: int| Seq::new(COLS as nat, |c: int| CharacterCode::of_char(text[r][c]).code()))
}

impl<const ROWS: usize, const COLS: usize> From<TextBoard<ROWS, COLS>> for BoardData<ROWS, COLS> {
    /// Reads a board of characters: every cell holds the code that its
    /// character is read as, letters in either case.
    fn from(value: TextBoard<ROWS, COLS>) -> (board: Self) {
        let mut board: Self = Self::default();
        let mut row: usize = 0;
        while row < ROWS
            invariant
                row <= ROWS,
                forall|r: int, c: int|
                    0 <= r < row && 0 <= c < COLS ==> #[trigger] board@[r][c] == text_cells(value)[r][c],
            decreases ROWS - row,
        {
            let mut col: usize = 0;
            while col < COLS
                invariant
                    row < ROWS,
                    col <= COLS,
                    forall|r: int, c: int|
                        0 <= r < row && 0 <= c < COLS ==> #[trigger] board@[r][c] == text_cells(
                            value,
                        )[r][c],
                    forall|c: int|
                        0 <= c < col ==> #[trigger] board@[row as int][c] == text_cells(
                            value,
                        )[row as int][c],
                decreases COLS - col,
            {
                let code = CharacterCode::from(value[row][col]);
                board.set(row, col, code.to_u8());
                col += 1;
            }
            row += 1;
        }
        proof {
            assert forall|r: int| 0 <= r < ROWS implies #[trigger] board@[r] =~= text_cells(value)[r] by {
                assert forall|c: int| 0 <= c < COLS implies board@[r][c] == text_cells(value)[r][c] by {}
            }
            assert(board@ =~= text_cells(value));
            let chosen = choose|b: Self| b@ == text_cells(value);
            board.lemma_view_injective(chosen);
        }
        board
    }
}

impl<const ROWS: usize, const COLS: usize> FromSpecImpl<TextBoard<ROWS, COLS>> for BoardData<ROWS, COLS> {
    open spec fn obeys_from_spec() -> bool {
        true
    }

    open spec fn from_spec(value: TextBoard<ROWS, COLS>) -> Self {
        choose|board: Self| board@ == text_cells(value)
    }
}

impl<const ROWS: usize, const COLS: usize> std::ops::Deref for BoardData<ROWS, COLS> {
    type Target = Board<ROWS, COLS>;

    /// The raw board.
    fn deref(&self) -> (raw: &Board<ROWS, COLS>)
        ensures
            *raw == self.0,
    {
        &self.0
    }
}

impl<const ROWS: usize, const COLS: usize> std::str::FromStr for BoardData<ROWS, COLS> {
    type Err = BoardError;

    /// Reads a board from its text, as [`BoardData::from_str`] does: the
    /// same boards from the same texts, and the same errors.
    fn from_str(s: &str) -> (r: Result<Self, BoardError>)
        ensures
            match r {
                Ok(board) => parse_text(s@, ROWS as nat, COLS as nat) == Parsed::Board(board@),
                Err(BoardError::InvalidChar(token)) => parse_text(s@, ROWS as nat, COLS as nat)
                    == Parsed::InvalidChar(token@),
                Err(BoardError::TooManyRows) => parse_text(s@, ROWS as nat, COLS as nat)
                    == Parsed::TooManyRows,
                Err(_) => false,
            },
    {
        BoardData::from_str(s)
    }
}

impl<const ROWS: usize, const COLS: usize> PartialEq<Board<ROWS, COLS>> for BoardData<ROWS, COLS> {
    /// A board equals a raw board when it wraps an equal one.
    fn eq(&self, other: &Board<ROWS, COLS>) -> (r: bool) {
        *self == BoardData(*other)
    }
}

impl<const ROWS: usize, const COLS: usize> PartialEqSpecImpl<Board<ROWS, COLS>> for BoardData<ROWS, COLS> {
    open spec fn obeys_eq_spec() -> bool {
        true
    }

    open spec fn eq_spec(&self, other: &Board<ROWS, COLS>) -> bool {
        self@ == board_cells(*other)
    }
}

impl<const ROWS: usize, const COLS: usize> PartialEq<BoardData<ROWS, COLS>> for Board<ROWS, COLS> {
    /// A raw board equals a board that wraps an equal one.
    fn eq(&self, other: &BoardData<ROWS, COLS>) -> (r: bool) {
        BoardData(*self) == *other
    }
}

impl<const ROWS: usize, const COLS: usize> PartialEqSpecImpl<BoardData<ROWS, COLS>> for Board<ROWS, COLS> {
    open spec fn obeys_eq_spec() -> bool {
        true
    }

    open spec fn eq_spec(&self, other: &BoardData<ROWS, COLS>) -> bool {
        board_cells(*self) == other@
    }
}

impl<const ROWS: usize, const COLS: usize> PartialEq for BoardData<ROWS, COLS> {
    /// Two boards are equal when every cell is.
    fn eq(&self, other: &Self) -> (r: bool) {
        let mut row: usize = 0;
        while row < ROWS
            invariant
                row <= ROWS,
                forall|i: int| 0 <= i < row ==> self@[i] == other@[i],
            decreases ROWS - row,
        {
            let mut col: usize = 0;
            while col < COLS
                invariant
                    row < ROWS,
                    col <= COLS,
                    forall|j: int| 0 <= j < col ==> self@[row as int][j] == other@[row as int][j],
                decreases COLS - col,
            {
                if self.0[row][col] != other.0[row][col] {
                    assert(self@[row as int][col as int] != other@[row as int][col as int]);
                    return false;
                }
                col += 1;
            }
            assert(self@[row as int] =~= other@[row as int]);
            row += 1;
        }
        assert(self@ =~= other@);
        true
    }
}

impl<const ROWS: usize, const COLS: usize> PartialEqSpecImpl for BoardData<ROWS, COLS> {
    open spec fn obeys_eq_spec() -> bool {
        true
    }

    open spec fn eq_spec(&self, other: &Self) -> bool {
        self@ == other@
    }
}

impl<const ROWS: usize, const COLS: usize> Eq for BoardData<ROWS, COLS> {
}

/// What can go wrong when a board is read from text.
#[derive(Debug)]
pub enum BoardError {
    /// Too many rows in the input.
    TooManyRows,
    /// Too many columns in the input.
    TooManyCols,
    /// A piece of the input is not the number of a code: the piece.
    InvalidChar(String),
    /// A pattern could not be compiled.
    Regex(regex::Error),
    /// The input has the wrong length.
    InvalidLength,
}

} // verus!
