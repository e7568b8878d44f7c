//! The text form of a board: its cells as decimal numbers, row by row,
//! separated by commas.
//!
//! Reading is lenient about everything but the numbers: any character that
//! is neither a digit nor a comma is dropped before the text is split, so
//! brackets, spaces and line breaks may stand anywhere.

use vstd::prelude::*;
use vstd::arithmetic::div_mod::{lemma_fundamental_div_mod, lemma_fundamental_div_mod_converse};
use vstd::arithmetic::mul::{lemma_mul_inequality, lemma_mul_is_commutative};
use crate::text::views;

verus! {

/// The character is a decimal digit.
pub open spec fn is_digit(c: char) -> bool {
    '0' <= c && c <= '9'
}

/// The character is part of a board's text: a digit or a comma.
pub open spec fn is_cell_char(c: char) -> bool {
    is_digit(c) || c == ','
}

/// What is left of a text once every character that is neither a digit nor
/// a comma is dropped.
pub open spec fn cell_text(s: Seq<char>) -> Seq<char> {
    s.filter(|c: char| is_cell_char(c))
}

/// The pieces of a text between its commas. A text with `n` commas has
/// `n + 1` pieces, some of which may be empty.
pub open spec fn split_commas(s: Seq<char>) -> Seq<Seq<char>>
    decreases s.len(),
{
    if s.len() == 0 {
        seq![Seq::empty()]
    } else {
        let before = split_commas(s.drop_last());
        if s.last() == ',' {
            before.push(Seq::empty())
        } else {
            before.drop_last().push(before.last().push(s.last()))
        }
    }
}

/// The number that a digit stands for.
pub open spec fn digit_value(c: char) -> nat {
    (c as u32 - '0' as u32) as nat
}

/// The number that a sequence of digits is the decimal notation of.
pub open spec fn decimal(s: Seq<char>) -> nat
    decreases s.len(),
{
    if s.len() == 0 {
        0
    } else {
        decimal(s.drop_last()) * 10 + digit_value(s.last())
    }
}

/// Every character of the text is a digit.
pub open spec fn all_digits(s: Seq<char>) -> bool {
    forall|i: int| 0 <= i < s.len() ==> is_digit(#[trigger] s[i])
}

/// The code that a piece of text denotes: its decimal value, where the
/// piece is a non-empty run of digits whose value fits in a byte.
pub open spec fn token_value(s: Seq<char>) -> Option<u8> {
    if s.len() > 0 && all_digits(s) && decimal(s) <= 255 {
        Some(decimal(s) as u8)
    } else {
        None
    }
}

/// The `i`-th number of a text belongs to a cell of a grid of `rows` by
/// `cols` cells, counted row by row.
pub open spec fn in_grid(i: int, rows: nat, cols: nat) -> bool {
    cols > 0 && 0 <= i && i / (cols as int) < rows
}

/// The piece at index `i` belongs to a cell and denotes no code.
pub open spec fn invalid_at(tokens: Seq<Seq<char>>, rows: nat, cols: nat, i: int) -> bool {
    0 <= i < tokens.len() && in_grid(i, rows, cols) && token_value(tokens[i]) is None
}

/// The piece at index `i` lies past the last cell and is not empty.
pub open spec fn overflow_at(tokens: Seq<Seq<char>>, rows: nat, cols: nat, i: int) -> bool {
    0 <= i < tokens.len() && !in_grid(i, rows, cols) && tokens[i].len() > 0
}

/// The piece at index `i` cannot be read.
pub open spec fn rejected_at(tokens: Seq<Seq<char>>, rows: nat, cols: nat, i: int) -> bool {
    invalid_at(tokens, rows, cols, i) || overflow_at(tokens, rows, cols, i)
}

/// The code that the pieces give to the cell with index `i`: blank where
/// the pieces end before it.
pub open spec fn cell_value(tokens: Seq<Seq<char>>, i: int) -> u8 {
    if 0 <= i < tokens.len() {
        match token_value(tokens[i]) {
            Some(code) => code,
            None => 0,
        }
    } else {
        0
    }
}

/// What reading a board's text comes to.
pub enum Parsed {
    /// Every piece could be read: the cells of the board.
    Board(Seq<Seq<u8>>),
    /// A number stands past the last cell.
    TooManyRows,
    /// A piece that belongs to a cell denotes no code: the piece.
    InvalidChar(Seq<char>),
}

/// Reads the pieces of a text into a grid of `rows` by `cols` cells. The
/// pieces fill the cells row by row; cells that no piece reaches stay
/// blank, and empty pieces past the last cell are passed over. The first
/// piece that cannot be read decides the error.
pub open spec fn parse_cells(tokens: Seq<Seq<char>>, rows: nat, cols: nat) -> Parsed {
    if exists|i: int| rejected_at(tokens, rows, cols, i) {
        let first = choose|i: int|
            rejected_at(tokens, rows, cols, i) && forall|j: int|
                j < i ==> !rejected_at(tokens, rows, cols, j);
        if invalid_at(tokens, rows, cols, first) {
            Parsed::InvalidChar(tokens[first])
        } else {
            Parsed::TooManyRows
        }
    } else {
        Parsed::Board(
            Seq::new(rows, |r: int| Seq::new(cols, |c: int| cell_value(tokens, r * cols + c))),
        )
    }
}

/// What reading a text as a board of `rows` by `cols` cells comes to.
pub open spec fn parse_text(s: Seq<char>, rows: nat, cols: nat) -> Parsed {
    parse_cells(split_commas(cell_text(s)), rows, cols)
}

/// Tells whether a character is a decimal digit.
pub fn is_ascii_digit(c: char) -> (r: bool)
    ensures
        r == is_digit(c),
{
    c >= '0' && c <= '9'
}

/// Drops every character that is neither a digit nor a comma.
pub fn strip_to_cells(chars: &Vec<char>) -> (text: Vec<char>)
    ensures
        text@ == cell_text(chars@),
{
    let mut text: Vec<char> = Vec::new();
    let mut i: usize = 0;
    proof {
        reveal(Seq::filter);
    }
    while i < chars.len()
        invariant
            i <= chars.len(),
            text@ == cell_text(chars@.take(i as int)),
        decreases chars.len() - i,
    {
        let c = chars[i];
        proof {
            assert(chars@.take(i + 1) =~= chars@.take(i as int).push(c));
            chars@.take(i as int).lemma_filter_push(c, |c: char| is_cell_char(c));
        }
        if is_ascii_digit(c) || c == ',' {
            text.push(c);
        }
        i += 1;
    }
    assert(chars@.take(i as int) =~= chars@);
    text
}

/// Splits a text at its commas.
pub fn split_at_commas(text: &Vec<char>) -> (tokens: Vec<Vec<char>>)
    ensures
        views(tokens@) == split_commas(text@),
        tokens.len() >= 1,
{
    let mut tokens: Vec<Vec<char>> = Vec::new();
    let mut current: Vec<char> = Vec::new();
    let mut i: usize = 0;
    while i < text.len()
        invariant
            i <= text.len(),
            split_commas(text@.take(i as int)) == views(tokens@).push(current@),
        decreases text.len() - i,
    {
        let c = text[i];
        proof {
            let prefix = text@.take(i + 1);
            assert(prefix.drop_last() =~= text@.take(i as int));
            assert(prefix.last() == c);
            let before = views(tokens@).push(current@);
            assert(before.drop_last() =~= views(tokens@));
            assert(before.last() == current@);
        }
        if c == ',' {
            let ghost done = tokens@;
            tokens.push(current);
            current = Vec::new();
            assert(views(tokens@) =~= views(done).push(tokens@.last()@));
        } else {
            current.push(c);
        }
        i += 1;
    }
    assert(text@.take(i as int) =~= text@);
    let ghost done = tokens@;
    tokens.push(current);
    assert(views(tokens@) =~= views(done).push(current@));
    tokens
}

/// A longer run of digits denotes no smaller a number.
pub proof fn lemma_decimal_grows(s: Seq<char>, n: int)
    requires
        0 <= n <= s.len(),
    ensures
        decimal(s.take(n)) <= decimal(s),
    decreases s.len() - n,
{
    if n < s.len() {
        assert(s.take(n + 1).drop_last() =~= s.take(n));
        lemma_decimal_grows(s, n + 1);
    } else {
        assert(s.take(n) =~= s);
    }
}

/// Reads a piece of text as a code.
pub fn parse_token(token: &Vec<char>) -> (code: Option<u8>)
    ensures
        code == token_value(token@),
{
    if token.len() == 0 {
        return None;
    }
    let mut value: u32 = 0;
    let mut i: usize = 0;
    while i < token.len()
        invariant
            i <= token.len(),
            all_digits(token@.take(i as int)),
            value == decimal(token@.take(i as int)),
            value <= 255,
        decreases token.len() - i,
    {
        let c = token[i];
        proof {
            assert(token@.take(i + 1).drop_last() =~= token@.take(i as int));
            assert(token@.take(i + 1).last() == c);
        }
        if !is_ascii_digit(c) {
            assert(!all_digits(token@));
            return None;
        }
        let digit: u32 = c as u32 - '0' as u32;
        value = value * 10 + digit;
        if value > 255 {
            proof {
                lemma_decimal_grows(token@, i + 1);
            }
            return None;
        }
        assert forall|j: int| 0 <= j < i + 1 implies is_digit(#[trigger] token@.take(i + 1)[j]) by {
            if j < i {
                assert(token@.take(i as int)[j] == token@[j]);
            }
        }
        i += 1;
    }
    assert(token@.take(i as int) =~= token@);
    Some(value as u8)
}

/// The cell that the number with index `i` belongs to, in a grid whose
/// rows have `cols` cells.
pub proof fn lemma_cell_index(i: int, r: int, c: int, cols: int)
    requires
        cols > 0,
        0 <= c < cols,
        0 <= r,
    ensures
        i == r * cols + c <==> (i / cols == r && i % cols == c),
{
    lemma_fundamental_div_mod(i, cols);
    lemma_mul_is_commutative(cols, i / cols);
    if i == r * cols + c {
        lemma_fundamental_div_mod_converse(i, cols, r, c);
    }
}

/// A cell's index is less than that of any number past the last row.
pub proof fn lemma_cell_before(i: int, r: int, c: int, rows: int, cols: int)
    requires
        cols > 0,
        0 <= c < cols,
        0 <= r < rows,
        0 <= i,
        i / cols >= rows,
    ensures
        r * cols + c < i,
{
    lemma_fundamental_div_mod(i, cols);
    lemma_mul_is_commutative(cols, i / cols);
    lemma_mul_inequality(r + 1, i / cols, cols);
    assert((r + 1) * cols == r * cols + cols) by (nonlinear_arith);
}

/// The digit that stands for a number below ten.
pub open spec fn digit_char(d: int) -> char {
    ('0' as u32 + d) as char
}

/// The decimal notation of a code, without leading zeros.
pub open spec fn decimal_digits(code: u8) -> Seq<char> {
    if code < 10 {
        seq![digit_char(code as int)]
    } else if code < 100 {
        seq![digit_char(code as int / 10), digit_char(code as int % 10)]
    } else {
        seq![
            digit_char(code as int / 100),
            digit_char(code as int / 10 % 10),
            digit_char(code as int % 10),
        ]
    }
}

/// The first `n` codes of a row in decimal notation, with commas between
/// them.
pub open spec fn number_list(codes: Seq<u8>, n: int) -> Seq<char>
    decreases n,
{
    if n <= 0 {
        Seq::empty()
    } else if n == 1 {
        decimal_digits(codes[0])
    } else {
        number_list(codes, n - 1) + seq![','] + decimal_digits(codes[n - 1])
    }
}

/// The text of a row: its codes in brackets.
pub open spec fn row_text(row: Seq<u8>) -> Seq<char> {
    seq!['['] + number_list(row, row.len() as int) + seq![']']
}

/// The texts of the first `n` rows of a board, with commas between them.
pub open spec fn row_list(cells: Seq<Seq<u8>>, n: int) -> Seq<char>
    decreases n,
{
    if n <= 0 {
        Seq::empty()
    } else if n == 1 {
        row_text(cells[0])
    } else {
        row_list(cells, n - 1) + seq![','] + row_text(cells[n - 1])
    }
}

/// The text of a board: its rows in brackets, as in `[[1,2],[3,4]]`.
pub open spec fn layout_text(cells: Seq<Seq<u8>>) -> Seq<char> {
    seq!['['] + row_list(cells, cells.len() as int) + seq![']']
}

/// Appends the decimal notation of a code.
pub fn write_decimal(out: &mut Vec<char>, code: u8)
    ensures
        final(out)@ == old(out)@ + decimal_digits(code),
{
    if code >= 100 {
        out.push((48u8 + code / 100) as char);
    }
    if code >= 10 {
        out.push((48u8 + code / 10 % 10) as char);
    }
    out.push((48u8 + code % 10) as char);
    assert(out@ =~= old(out)@ + decimal_digits(code));
}

/// Appends the codes of a row in decimal notation, with commas between
/// them.
pub fn write_numbers(out: &mut Vec<char>, codes: &[u8])
    ensures
        final(out)@ == old(out)@ + number_list(codes@, codes@.len() as int),
{
    let mut i: usize = 0;
    assert(out@ =~= old(out)@ + number_list(codes@, 0));
    while i < codes.len()
        invariant
            i <= codes.len(),
            out@ == old(out)@ + number_list(codes@, i as int),
        decreases codes.len() - i,
    {
        let ghost before = out@;
        if i > 0 {
            out.push(',');
        }
        write_decimal(out, codes[i]);
        i += 1;
        assert(out@ =~= old(out)@ + number_list(codes@, i as int));
    }
}

/// A text always has a piece, if only an empty one.
pub proof fn lemma_split_nonempty(s: Seq<char>)
    ensures
        split_commas(s).len() >= 1,
    decreases s.len(),
{
    if s.len() > 0 {
        lemma_split_nonempty(s.drop_last());
    }
}

/// A text without a comma is a single piece.
pub proof fn lemma_split_single(s: Seq<char>)
    requires
        forall|i: int| 0 <= i < s.len() ==> s[i] != ',',
    ensures
        split_commas(s) == seq![s],
    decreases s.len(),
{
    if s.len() > 0 {
        let front = s.drop_last();
        lemma_split_single(front);
        assert(front.push(s.last()) =~= s);
        assert(seq![front].drop_last() =~= Seq::<Seq<char>>::empty());
        assert(seq![front].last() == front);
        assert(Seq::<Seq<char>>::empty().push(s) =~= seq![s]);
    } else {
        assert(s =~= Seq::<char>::empty());
    }
}

/// The pieces of two texts joined by a comma are the pieces of the one
/// followed by the pieces of the other.
pub proof fn lemma_split_joined(a: Seq<char>, b: Seq<char>)
    ensures
        split_commas(a + seq![','] + b) == split_commas(a) + split_commas(b),
    decreases b.len(),
{
    let joined = a + seq![','] + b;
    if b.len() == 0 {
        assert(joined.drop_last() =~= a);
        assert(split_commas(a).push(Seq::empty()) =~= split_commas(a) + split_commas(b));
    } else {
        lemma_split_joined(a, b.drop_last());
        lemma_split_nonempty(b.drop_last());
        assert(joined.drop_last() =~= a + seq![','] + b.drop_last());
        assert(joined.last() == b.last());
        let before = split_commas(a) + split_commas(b.drop_last());
        if b.last() == ',' {
            assert(before.push(Seq::empty()) =~= split_commas(a) + split_commas(b));
        } else {
            assert(before.drop_last().push(before.last().push(b.last())) =~= split_commas(a)
                + split_commas(b));
        }
    }
}

/// The decimal notation of a code is made of digits, and reads as the
/// code.
pub proof fn lemma_decimal_digits(code: u8)
    ensures
        all_digits(decimal_digits(code)),
        decimal_digits(code).len() > 0,
        decimal(decimal_digits(code)) == code,
        token_value(decimal_digits(code)) == Some(code),
        cell_text(decimal_digits(code)) == decimal_digits(code),
        split_commas(decimal_digits(code)) == seq![decimal_digits(code)],
{
    let digits = decimal_digits(code);
    assert(all_digits(digits));
    reveal_with_fuel(decimal, 4);
    if code < 10 {
        assert(digits.drop_last() =~= Seq::<char>::empty());
    } else if code < 100 {
        assert(digits.drop_last() =~= seq![digits[0]]);
        assert(digits.drop_last().drop_last() =~= Seq::<char>::empty());
    } else {
        assert(digits.drop_last() =~= seq![digits[0], digits[1]]);
        assert(digits.drop_last().drop_last() =~= seq![digits[0]]);
        assert(digits.drop_last().drop_last().drop_last() =~= Seq::<char>::empty());
    }
    assert(decimal(digits) == code);
    lemma_cell_text_keeps(digits);
    lemma_split_single(digits);
}

/// A text of digits and commas loses nothing when it is stripped.
pub proof fn lemma_cell_text_keeps(s: Seq<char>)
    requires
        forall|i: int| 0 <= i < s.len() ==> is_cell_char(#[trigger] s[i]),
    ensures
        cell_text(s) == s,
    decreases s.len(),
{
    reveal(Seq::filter);
    if s.len() > 0 {
        lemma_cell_text_keeps(s.drop_last());
        assert(s.drop_last().push(s.last()) =~= s);
    }
}

/// Stripping a text made of parts strips the parts.
pub proof fn lemma_cell_text_add(a: Seq<char>, b: Seq<char>)
    ensures
        cell_text(a + b) == cell_text(a) + cell_text(b),
{
    Seq::filter_distributes_over_add(a, b, |c: char| is_cell_char(c));
}

/// A bracket is stripped away, a comma stays.
pub proof fn lemma_cell_text_signs()
    ensures
        cell_text(seq!['[']) == Seq::<char>::empty(),
        cell_text(seq![']']) == Seq::<char>::empty(),
        cell_text(seq![',']) == seq![','],
{
    reveal_with_fuel(Seq::filter, 2);
    assert(seq!['['].drop_last() =~= Seq::<char>::empty());
    assert(seq![']'].drop_last() =~= Seq::<char>::empty());
    assert(seq![','].drop_last() =~= Seq::<char>::empty());
    assert(cell_text(seq![',']) =~= seq![',']);
}

/// A list of numbers loses nothing when it is stripped.
pub proof fn lemma_number_list_kept(codes: Seq<u8>, n: int)
    requires
        1 <= n <= codes.len(),
    ensures
        cell_text(number_list(codes, n)) == number_list(codes, n),
    decreases n,
{
    let last = decimal_digits(codes[n - 1]);
    assert(cell_text(last) == last) by {
        lemma_decimal_digits(codes[n - 1]);
    }
    if n > 1 {
        lemma_number_list_kept(codes, n - 1);
        let before = number_list(codes, n - 1);
        assert(cell_text(seq![',']) == seq![',']) by {
            lemma_cell_text_signs();
        }
        lemma_cell_text_add(before, seq![',']);
        lemma_cell_text_add(before + seq![','], last);
    }
}

/// The numbers of the first `n` codes of a row.
pub open spec fn numbers_of(codes: Seq<u8>, n: int) -> Seq<Seq<char>> {
    Seq::new(n as nat, |i: int| decimal_digits(codes[i]))
}

/// The pieces of a list of numbers are the numbers.
pub proof fn lemma_number_list_pieces(codes: Seq<u8>, n: int)
    requires
        1 <= n <= codes.len(),
    ensures
        split_commas(number_list(codes, n)) == numbers_of(codes, n),
    decreases n,
{
    let last = decimal_digits(codes[n - 1]);
    assert(split_commas(last) == seq![last]) by {
        lemma_decimal_digits(codes[n - 1]);
    }
    if n == 1 {
        assert(seq![last] =~= numbers_of(codes, 1));
    } else {
        lemma_number_list_pieces(codes, n - 1);
        let before = number_list(codes, n - 1);
        lemma_split_joined(before, last);
        assert(numbers_of(codes, n - 1) + seq![last] =~= numbers_of(codes, n));
    }
}

/// The numbers of the first `n` rows of a board, with commas between them.
pub open spec fn numbers_of_rows(cells: Seq<Seq<u8>>, n: int) -> Seq<char>
    decreases n,
{
    if n <= 0 {
        Seq::empty()
    } else if n == 1 {
        number_list(cells[0], cells[0].len() as int)
    } else {
        numbers_of_rows(cells, n - 1) + seq![','] + number_list(cells[n - 1], cells[n - 1].len() as int)
    }
}

/// The numbers of a grid of `cols` columns, row by row.
pub open spec fn numbers_of_grid(cells: Seq<Seq<u8>>, n: int, cols: nat) -> Seq<Seq<char>> {
    Seq::new((n * cols) as nat, |i: int| decimal_digits(cells[i / (cols as int)][i % (cols as int)]))
}

/// Stripped of its brackets, the text of a row is its list of numbers.
pub proof fn lemma_row_text(row: Seq<u8>)
    requires
        row.len() >= 1,
    ensures
        cell_text(row_text(row)) == number_list(row, row.len() as int),
{
    let numbers = number_list(row, row.len() as int);
    lemma_number_list_kept(row, row.len() as int);
    lemma_cell_text_signs();
    lemma_cell_text_add(seq!['['], numbers);
    lemma_cell_text_add(seq!['['] + numbers, seq![']']);
    assert(Seq::<char>::empty() + numbers + Seq::<char>::empty() =~= numbers);
}

/// Stripped of its brackets, the text of the first `n` rows is the list
/// of their numbers.
pub proof fn lemma_row_list_kept(cells: Seq<Seq<u8>>, n: int)
    requires
        1 <= n <= cells.len(),
        forall|r: int| 0 <= r < cells.len() ==> (#[trigger] cells[r]).len() >= 1,
    ensures
        cell_text(row_list(cells, n)) == numbers_of_rows(cells, n),
    decreases n,
{
    let row = cells[n - 1];
    lemma_row_text(row);
    if n > 1 {
        lemma_row_list_kept(cells, n - 1);
        let before = row_list(cells, n - 1);
        assert(cell_text(seq![',']) == seq![',']) by {
            lemma_cell_text_signs();
        }
        lemma_cell_text_add(before, seq![',']);
        lemma_cell_text_add(before + seq![','], row_text(row));
    }
}

/// The numbers of one more row follow those of the rows before it.
pub proof fn lemma_numbers_of_grid_push(cells: Seq<Seq<u8>>, n: int, cols: nat)
    requires
        1 <= n <= cells.len(),
        cols >= 1,
        forall|r: int| 0 <= r < cells.len() ==> (#[trigger] cells[r]).len() == cols,
    ensures
        numbers_of_grid(cells, n - 1, cols) + numbers_of(cells[n - 1], cols as int) == numbers_of_grid(
            cells,
            n,
            cols,
        ),
{
    let joined = numbers_of_grid(cells, n - 1, cols) + numbers_of(cells[n - 1], cols as int);
    let whole = numbers_of_grid(cells, n, cols);
    assert(n * cols == (n - 1) * cols + cols) by (nonlinear_arith);
    assert((n - 1) * cols >= 0) by (nonlinear_arith)
        requires
            n >= 1,
            cols >= 1,
    ;
    assert(joined.len() == whole.len());
    assert forall|i: int| 0 <= i < whole.len() implies joined[i] == whole[i] by {
        if i >= (n - 1) * cols {
            lemma_cell_index(i, n - 1, i - (n - 1) * cols, cols as int);
        }
    }
    assert(joined =~= whole);
}

/// The pieces of the list of the numbers of the first `n` rows are the
/// numbers of the grid.
pub proof fn lemma_row_list_pieces(cells: Seq<Seq<u8>>, n: int, cols: nat)
    requires
        1 <= n <= cells.len(),
        cols >= 1,
        forall|r: int| 0 <= r < cells.len() ==> (#[trigger] cells[r]).len() == cols,
    ensures
        split_commas(numbers_of_rows(cells, n)) == numbers_of_grid(cells, n, cols),
    decreases n,
{
    let row = cells[n - 1];
    lemma_number_list_pieces(row, cols as int);
    lemma_numbers_of_grid_push(cells, n, cols);
    if n == 1 {
        assert(numbers_of_grid(cells, 0, cols) =~= Seq::<Seq<char>>::empty());
        assert(Seq::<Seq<char>>::empty() + numbers_of(row, cols as int) =~= numbers_of(row, cols as int));
    } else {
        lemma_row_list_pieces(cells, n - 1, cols);
        lemma_split_joined(numbers_of_rows(cells, n - 1), number_list(row, cols as int));
    }
}

/// A run of `n` commas.
pub open spec fn commas(n: nat) -> Seq<char> {
    Seq::new(n, |i: int| ',')
}

/// The pieces of a run of commas are all empty, and one more than the
/// commas.
pub proof fn lemma_split_commas_only(n: nat)
    ensures
        split_commas(commas(n)) == Seq::new(n + 1, |i: int| Seq::<char>::empty()),
    decreases n,
{
    if n == 0 {
        assert(split_commas(commas(0)) =~= Seq::new(1, |i: int| Seq::<char>::empty()));
    } else {
        lemma_split_commas_only((n - 1) as nat);
        assert(commas(n).drop_last() =~= commas((n - 1) as nat));
        assert(split_commas(commas((n - 1) as nat)).push(Seq::<char>::empty()) =~= Seq::new(
            n + 1,
            |i: int| Seq::<char>::empty(),
        ));
    }
}

/// Stripped of its brackets, the text of rows without cells is the commas
/// between them.
pub proof fn lemma_row_list_empty(cells: Seq<Seq<u8>>, n: int)
    requires
        1 <= n <= cells.len(),
        forall|r: int| 0 <= r < cells.len() ==> (#[trigger] cells[r]).len() == 0,
    ensures
        cell_text(row_list(cells, n)) == commas((n - 1) as nat),
    decreases n,
{
    let row = cells[n - 1];
    lemma_cell_text_signs();
    assert(cell_text(row_text(row)) == Seq::<char>::empty()) by {
        lemma_cell_text_add(seq!['['], number_list(row, 0));
        lemma_cell_text_add(seq!['['] + number_list(row, 0), seq![']']);
        assert(seq!['['] + number_list(row, 0) =~= seq!['[']);
    }
    if n == 1 {
        assert(commas(0) =~= Seq::<char>::empty());
    } else {
        lemma_row_list_empty(cells, n - 1);
        let before = row_list(cells, n - 1);
        lemma_cell_text_add(before, seq![',']);
        lemma_cell_text_add(before + seq![','], row_text(row));
        assert(commas((n - 2) as nat) + seq![','] + Seq::<char>::empty() =~= commas((n - 1) as nat));
    }
}

/// Reading the text of a board gives the board back: written with
/// `layout_text` and read with `parse_text`, a grid is the grid it was.
pub proof fn lemma_layout_round_trip(cells: Seq<Seq<u8>>, rows: nat, cols: nat)
    requires
        cells.len() == rows,
        forall|r: int| 0 <= r < rows ==> (#[trigger] cells[r]).len() == cols,
    ensures
        parse_text(layout_text(cells), rows, cols) == Parsed::Board(cells),
{
    let inner = row_list(cells, rows as int);
    lemma_cell_text_signs();
    lemma_cell_text_add(seq!['['], inner);
    lemma_cell_text_add(seq!['['] + inner, seq![']']);
    let tokens = split_commas(cell_text(layout_text(cells)));
    let read = Seq::new(rows, |r: int| Seq::new(cols, |c: int| cell_value(tokens, r * cols + c)));
    if rows == 0 || cols == 0 {
        let stripped = cell_text(inner);
        if rows == 0 {
            assert(inner =~= Seq::<char>::empty());
            lemma_cell_text_keeps(inner);
            lemma_split_commas_only(0);
            assert(commas(0) =~= Seq::<char>::empty());
            assert(Seq::<char>::empty() + stripped + Seq::<char>::empty() =~= commas(0));
        } else {
            lemma_row_list_empty(cells, rows as int);
            lemma_split_commas_only((rows - 1) as nat);
            assert(Seq::<char>::empty() + stripped + Seq::<char>::empty() =~= commas(
                (rows - 1) as nat,
            ));
        }
        assert forall|i: int| 0 <= i < tokens.len() implies !rejected_at(tokens, rows, cols, i) by {
            if cols > 0 {
                lemma_fundamental_div_mod(i, cols as int);
            }
        }
        assert forall|r: int| 0 <= r < rows implies #[trigger] read[r] =~= cells[r] by {}
    } else {
        lemma_row_list_kept(cells, rows as int);
        lemma_row_list_pieces(cells, rows as int, cols);
        assert(Seq::<char>::empty() + numbers_of_rows(cells, rows as int) + Seq::<char>::empty()
            =~= numbers_of_rows(cells, rows as int));
        assert(tokens == numbers_of_grid(cells, rows as int, cols));
        assert forall|i: int| 0 <= i < tokens.len() implies !rejected_at(tokens, rows, cols, i) by {
            lemma_decimal_digits(cells[i / (cols as int)][i % (cols as int)]);
            lemma_fundamental_div_mod(i, cols as int);
            lemma_mul_is_commutative(cols as int, i / (cols as int));
            if i / (cols as int) >= rows {
                lemma_mul_inequality(rows as int, i / (cols as int), cols as int);
            }
        }
        assert forall|r: int| 0 <= r < rows implies #[trigger] read[r] =~= cells[r] by {
            assert forall|c: int| 0 <= c < cols implies read[r][c] == cells[r][c] by {
                lemma_cell_index(r * cols + c, r, c, cols as int);
                lemma_decimal_digits(cells[r][c]);
                lemma_mul_inequality(r + 1, rows as int, cols as int);
                assert((r + 1) * cols == r * cols + cols) by (nonlinear_arith);
                assert(r * cols >= 0) by (nonlinear_arith)
                    requires
                        r >= 0,
                        cols >= 1,
                ;
            }
        }
    }
    assert(read =~= cells);
}

} // verus!
