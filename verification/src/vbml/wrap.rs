//! Word wrap: laying a text out in the rows of a rectangle.
//!
//! The text is cut into words at its spaces and line breaks, and the words
//! are placed left to right, top to bottom. A word that would run over the
//! end of a row moves to the next row if it fits there whole; a longer word
//! is broken where the row ends. Whatever does not fit in the rectangle's
//! height is dropped.

use vstd::prelude::*;
use crate::board::character::CharacterCode;
use crate::board::filled_grid;
use crate::text::{chars_of, views};

verus! {

/// The position `i` of a text is where a line ends: at a line break or at
/// the end of the text.
pub open spec fn at_line_end(s: Seq<char>, i: int) -> bool {
    i == s.len() || (0 <= i < s.len() && s[i] == '\n')
}

/// The character at `i` is a space in a run of spaces that reaches the end
/// of its line.
pub open spec fn is_line_end_space(s: Seq<char>, i: int) -> bool
    decreases s.len() - i,
{
    &&& 0 <= i < s.len()
    &&& s[i] == ' '
    &&& (at_line_end(s, i + 1) || is_line_end_space(s, i + 1))
}

/// The first `n` characters of a text without the spaces at its line ends.
pub open spec fn trimmed_prefix(s: Seq<char>, n: int) -> Seq<char>
    decreases n,
{
    if n <= 0 {
        Seq::empty()
    } else if is_line_end_space(s, n - 1) {
        trimmed_prefix(s, n - 1)
    } else {
        trimmed_prefix(s, n - 1).push(s[n - 1])
    }
}

/// A text without the spaces that stand at the end of a line.
pub open spec fn trim_line_ends(s: Seq<char>) -> Seq<char> {
    trimmed_prefix(s, s.len() as int)
}

/// The words of a text as they stand while the text is read from the left:
/// those that are complete, the one being read, and whether one is being
/// read at all.
pub struct Words {
    pub done: Seq<Seq<char>>,
    pub current: Seq<char>,
    pub open: bool,
}

/// Reads the words of a text. A space ends a word and begins the next; a
/// line break ends a word, stays with it as its last character, and begins
/// no other.
pub open spec fn read_words(s: Seq<char>) -> Words
    decreases s.len(),
{
    if s.len() == 0 {
        Words { done: Seq::empty(), current: Seq::empty(), open: false }
    } else {
        let before = read_words(s.drop_last());
        let c = s.last();
        if c == '\n' {
            Words { done: before.done.push(before.current.push(c)), current: Seq::empty(), open: false }
        } else if c == ' ' {
            Words { done: before.done.push(before.current), current: Seq::empty(), open: true }
        } else {
            Words { done: before.done, current: before.current.push(c), open: true }
        }
    }
}

/// The words of a text: its lines, each with its line break, cut at every
/// space. Two spaces in a row have an empty word between them.
pub open spec fn words_of(s: Seq<char>) -> Seq<Seq<char>> {
    let words = read_words(s);
    if words.open {
        words.done.push(words.current)
    } else {
        words.done
    }
}

/// The number of bytes that a character takes in UTF-8.
pub open spec fn utf8_width(c: char) -> nat {
    if (c as u32) < 0x80 {
        1
    } else if (c as u32) < 0x800 {
        2
    } else if (c as u32) < 0x10000 {
        3
    } else {
        4
    }
}

/// The length of a word as the wrap measures it: in bytes of UTF-8. A
/// letter, digit or sign counts one, a colour swatch four.
pub open spec fn utf8_len(s: Seq<char>) -> nat
    decreases s.len(),
{
    if s.len() == 0 {
        0
    } else {
        utf8_len(s.drop_last()) + utf8_width(s.last())
    }
}

/// The rows written so far and the cell that comes next.
pub struct Cursor {
    pub rows: Seq<Seq<CharacterCode>>,
    pub row: nat,
    pub col: nat,
}

impl Cursor {
    /// The cursor at the start of the row below.
    pub open spec fn next_row(self) -> Cursor {
        Cursor { rows: self.rows, row: self.row + 1, col: 0 }
    }

    /// The cursor after `code` is written into its cell.
    pub open spec fn put(self, code: CharacterCode) -> Cursor {
        Cursor {
            rows: self.rows.update(self.row as int, self.rows[self.row as int].push(code)),
            row: self.row,
            col: self.col + 1,
        }
    }
}

/// Places one character. A line break moves to the next row and is not
/// written. Any other character is written into the next cell, on the row
/// below if the row is full. Once the cursor has left the rectangle nothing
/// is placed any more.
pub open spec fn place_char(at: Cursor, c: char, height: nat, width: nat) -> Cursor {
    if at.row >= height {
        at
    } else if c == '\n' {
        at.next_row()
    } else {
        let start = if at.col >= width {
            at.next_row()
        } else {
            at
        };
        if start.row >= height {
            start
        } else {
            start.put(CharacterCode::of_char(c))
        }
    }
}

/// Places the characters of a word, one after the other.
pub open spec fn place_chars(at: Cursor, word: Seq<char>, height: nat, width: nat) -> Cursor
    decreases word.len(),
{
    if word.len() == 0 {
        at
    } else {
        place_char(place_chars(at, word.drop_last(), height, width), word.last(), height, width)
    }
}

/// The word ends its line.
pub open spec fn ends_line(word: Seq<char>) -> bool {
    word.len() > 0 && word.last() == '\n'
}

/// The word moves to the next row before it is placed: it does not fit in
/// what is left of the row, it would fit in an empty row with room to
/// spare, and it is not a line break.
pub open spec fn moves_down(at: Cursor, word: Seq<char>, width: nat) -> bool {
    &&& at.col + utf8_len(word) > width
    &&& utf8_len(word) < width
    &&& word[0] != '\n'
}

/// A blank follows the word: another word comes, the line goes on, and
/// that word fits in the row together with the blank.
pub open spec fn blank_follows(
    at: Cursor,
    word: Seq<char>,
    next: Option<Seq<char>>,
    height: nat,
    width: nat,
) -> bool {
    &&& next is Some
    &&& at.row < height
    &&& at.col < width
    &&& at.col + utf8_len(next->0) < width
    &&& !ends_line(word)
}

/// Places one word, and the blank that parts it from the next.
pub open spec fn place_word(
    at: Cursor,
    word: Seq<char>,
    next: Option<Seq<char>>,
    height: nat,
    width: nat,
) -> Cursor {
    if at.row >= height {
        at
    } else {
        let start = if moves_down(at, word, width) {
            at.next_row()
        } else {
            at
        };
        let end = place_chars(start, word, height, width);
        if blank_follows(end, word, next, height, width) {
            end.put(CharacterCode::Blank)
        } else {
            end
        }
    }
}

/// The word that follows the one at index `i`, if there is one.
pub open spec fn word_after(words: Seq<Seq<char>>, i: int) -> Option<Seq<char>> {
    if 0 <= i + 1 < words.len() {
        Some(words[i + 1])
    } else {
        None
    }
}

/// The cursor after the first `n` of the words are placed in a rectangle
/// of `height` empty rows.
pub open spec fn place_words(words: Seq<Seq<char>>, n: int, height: nat, width: nat) -> Cursor
    decreases n,
{
    if n <= 0 {
        Cursor { rows: Seq::new(height, |r: int| Seq::empty()), row: 0, col: 0 }
    } else {
        place_word(
            place_words(words, n - 1, height, width),
            words[n - 1],
            word_after(words, n - 1),
            height,
            width,
        )
    }
}

/// The length of the longest row.
pub open spec fn widest<T>(rows: Seq<Seq<T>>) -> nat
    decreases rows.len(),
{
    if rows.len() == 0 {
        0
    } else if widest(rows.drop_last()) >= rows.last().len() {
        widest(rows.drop_last())
    } else {
        rows.last().len()
    }
}

/// A text laid out in a rectangle.
pub struct Wrapped {
    /// The number of rows that the content takes.
    pub height: nat,
    /// The length of the longest row.
    pub widest: nat,
    /// The rows of the rectangle, as many as it is high.
    pub rows: Seq<Seq<CharacterCode>>,
}

/// Lays a text out in a rectangle of `height` rows by `width` columns.
///
/// The empty text fills the rectangle with blanks. Any other text loses
/// the spaces at its line ends, is cut into words, and has the words placed
/// in turn. Its content is as high as the row in which the cursor ends,
/// counted from one, and never higher than the rectangle.
pub open spec fn wrap(text: Seq<char>, height: nat, width: nat) -> Wrapped {
    if text.len() == 0 {
        Wrapped { height, widest: width, rows: filled_grid(height, width, CharacterCode::Blank) }
    } else {
        let words = words_of(trim_line_ends(text));
        let end = place_words(words, words.len() as int, height, width);
        Wrapped {
            height: if end.row < height {
                end.row + 1
            } else {
                height
            },
            widest: widest(end.rows),
            rows: end.rows,
        }
    }
}

/// What holds of every cursor that the wrap reaches: the rectangle keeps
/// its height, the cursor's column is the length of its row, the rows
/// below it are empty, and no row is longer than the rectangle is wide (a
/// rectangle without width still takes one character per row).
pub open spec fn is_tidy(at: Cursor, height: nat, width: nat) -> bool {
    let limit = if width == 0 {
        1
    } else {
        width
    };
    &&& at.rows.len() == height
    &&& at.col <= limit
    &&& at.row < height ==> at.rows[at.row as int].len() == at.col
    &&& forall|r: int| at.row < r < height ==> (#[trigger] at.rows[r]).len() == 0
    &&& forall|r: int| 0 <= r < height ==> (#[trigger] at.rows[r]).len() <= limit
}

/// Placing a character keeps the cursor tidy.
pub proof fn lemma_place_char_tidy(at: Cursor, c: char, height: nat, width: nat)
    requires
        is_tidy(at, height, width),
    ensures
        is_tidy(place_char(at, c, height, width), height, width),
{
}

/// Placing the characters of a word keeps the cursor tidy.
pub proof fn lemma_place_chars_tidy(at: Cursor, word: Seq<char>, height: nat, width: nat)
    requires
        is_tidy(at, height, width),
    ensures
        is_tidy(place_chars(at, word, height, width), height, width),
    decreases word.len(),
{
    if word.len() > 0 {
        lemma_place_chars_tidy(at, word.drop_last(), height, width);
        lemma_place_char_tidy(
            place_chars(at, word.drop_last(), height, width),
            word.last(),
            height,
            width,
        );
    }
}

/// Placing a word keeps the cursor tidy.
pub proof fn lemma_place_word_tidy(
    at: Cursor,
    word: Seq<char>,
    next: Option<Seq<char>>,
    height: nat,
    width: nat,
)
    requires
        is_tidy(at, height, width),
    ensures
        is_tidy(place_word(at, word, next, height, width), height, width),
{
    if at.row < height {
        let start = if moves_down(at, word, width) {
            at.next_row()
        } else {
            at
        };
        lemma_place_chars_tidy(start, word, height, width);
    }
}

/// The cursor is tidy after any number of words.
pub proof fn lemma_place_words_tidy(words: Seq<Seq<char>>, n: int, height: nat, width: nat)
    ensures
        is_tidy(place_words(words, n, height, width), height, width),
    decreases n,
{
    if n > 0 {
        lemma_place_words_tidy(words, n - 1, height, width);
        lemma_place_word_tidy(
            place_words(words, n - 1, height, width),
            words[n - 1],
            word_after(words, n - 1),
            height,
            width,
        );
    }
}

/// No row is longer than the longest.
pub proof fn lemma_widest_bounds<T>(rows: Seq<Seq<T>>, limit: nat)
    ensures
        forall|r: int| 0 <= r < rows.len() ==> (#[trigger] rows[r]).len() <= widest(rows),
        (forall|r: int| 0 <= r < rows.len() ==> (#[trigger] rows[r]).len() <= limit) ==> widest(rows)
            <= limit,
    decreases rows.len(),
{
    if rows.len() > 0 {
        lemma_widest_bounds(rows.drop_last(), limit);
        assert forall|r: int| 0 <= r < rows.len() implies (#[trigger] rows[r]).len() <= widest(rows) by {
            if r < rows.len() - 1 {
                assert(rows.drop_last()[r] == rows[r]);
            }
        }
        if forall|r: int| 0 <= r < rows.len() ==> (#[trigger] rows[r]).len() <= limit {
            assert forall|r: int| 0 <= r < rows.drop_last().len() implies (#[trigger] rows.drop_last()[r]).len()
                <= limit by {
                assert(rows.drop_last()[r] == rows[r]);
            }
        }
    }
}

/// Wrapped text stays inside its rectangle: there are as many rows as the
/// rectangle is high, the content is no higher, and in a rectangle that is
/// at least one column wide no row is longer than the rectangle is wide.
pub proof fn lemma_wrap_within(text: Seq<char>, height: nat, width: nat)
    ensures
        wrap(text, height, width).rows.len() == height,
        wrap(text, height, width).height <= height,
        width >= 1 ==> wrap(text, height, width).widest <= width,
        width >= 1 ==> forall|r: int|
            0 <= r < height ==> (#[trigger] wrap(text, height, width).rows[r]).len() <= width,
        forall|r: int|
            0 <= r < height ==> (#[trigger] wrap(text, height, width).rows[r]).len() <= wrap(
                text,
                height,
                width,
            ).widest,
{
    let rows = wrap(text, height, width).rows;
    if text.len() > 0 {
        let words = words_of(trim_line_ends(text));
        lemma_place_words_tidy(words, words.len() as int, height, width);
        lemma_widest_bounds(rows, width);
    }
}

/// An empty text fills its rectangle with blanks.
pub proof fn lemma_wrap_empty(height: nat, width: nat)
    ensures
        wrap(Seq::empty(), height, width).rows == filled_grid(height, width, CharacterCode::Blank),
        wrap(Seq::empty(), height, width).height == height,
        wrap(Seq::empty(), height, width).widest == width,
{
}

/// The state of the wrap while it runs.
struct Layout {
    rows: Vec<Vec<CharacterCode>>,
    row: usize,
    col: usize,
}

impl View for Layout {
    type V = Cursor;

    closed spec fn view(&self) -> Cursor {
        Cursor { rows: views(self.rows@), row: self.row as nat, col: self.col as nat }
    }
}

impl Layout {
    /// A rectangle of `height` empty rows, with the cursor in its first cell.
    fn new(height: usize) -> (layout: Layout)
        ensures
            layout@ == place_words(Seq::empty(), 0, height as nat, 0),
    {
        let mut rows: Vec<Vec<CharacterCode>> = Vec::new();
        let mut r: usize = 0;
        while r < height
            invariant
                r <= height,
                rows.len() == r,
                forall|i: int| 0 <= i < r ==> (#[trigger] rows@[i])@ == Seq::<CharacterCode>::empty(),
            decreases height - r,
        {
            rows.push(Vec::new());
            r += 1;
        }
        let layout = Layout { rows, row: 0, col: 0 };
        assert(layout@.rows =~= Seq::new(height as nat, |r: int| Seq::<CharacterCode>::empty()));
        layout
    }

    /// Moves the cursor to the start of the row below.
    fn next_row(&mut self, Ghost(height): Ghost<nat>)
        requires
            old(self).row < height,
            height <= usize::MAX,
        ensures
            final(self)@ == old(self)@.next_row(),
    {
        self.row = self.row + 1;
        self.col = 0;
    }

    /// Writes a code into the cursor's cell.
    fn put(&mut self, code: CharacterCode)
        requires
            old(self).row < old(self).rows.len(),
            old(self).col < usize::MAX,
        ensures
            final(self)@ == old(self)@.put(code),
    {
        let row = self.row;
        self.rows[row].push(code);
        self.col = self.col + 1;
        assert(self@.rows =~= old(self)@.rows.update(
            row as int,
            old(self)@.rows[row as int].push(code),
        ));
    }

    /// Places one character.
    fn place_char(&mut self, c: char, height: usize, width: usize)
        requires
            is_tidy(old(self)@, height as nat, width as nat),
        ensures
            final(self)@ == place_char(old(self)@, c, height as nat, width as nat),
            is_tidy(final(self)@, height as nat, width as nat),
    {
        proof {
            lemma_place_char_tidy(self@, c, height as nat, width as nat);
        }
        if self.row >= height {
            return ;
        }
        if c == '\n' {
            self.next_row(Ghost(height as nat));
            return ;
        }
        if self.col >= width {
            self.next_row(Ghost(height as nat));
        }
        if self.row >= height {
            return ;
        }
        self.put(CharacterCode::from(c));
    }

    /// Places one word, and the blank that parts it from the next.
    fn place_word(&mut self, word: &Vec<char>, next: Option<&Vec<char>>, height: usize, width: usize)
        requires
            is_tidy(old(self)@, height as nat, width as nat),
        ensures
            final(self)@ == place_word(
                old(self)@,
                word@,
                match next {
                    Some(n) => Some(n@),
                    None => None,
                },
                height as nat,
                width as nat,
            ),
            is_tidy(final(self)@, height as nat, width as nat),
    {
        let ghost following = match next {
            Some(n) => Some(n@),
            None => None,
        };
        proof {
            lemma_place_word_tidy(self@, word@, following, height as nat, width as nat);
        }
        if self.row >= height {
            return ;
        }
        let len = utf8_len_capped(word, width);
        if len < width && self.col <= width && len > width - self.col && word[0] != '\n' {
            self.next_row(Ghost(height as nat));
        }
        let ghost start = self@;
        let mut i: usize = 0;
        while i < word.len()
            invariant
                i <= word.len(),
                is_tidy(self@, height as nat, width as nat),
                self@ == place_chars(start, word@.take(i as int), height as nat, width as nat),
            decreases word.len() - i,
        {
            proof {
                assert(word@.take(i + 1).drop_last() =~= word@.take(i as int));
            }
            self.place_char(word[i], height, width);
            i += 1;
        }
        assert(word@.take(i as int) =~= word@);
        match next {
            Some(n) => {
                if self.row < height && self.col < width {
                    let ends_line = word.len() > 0 && word[word.len() - 1] == '\n';
                    let room = width - self.col;
                    if !ends_line && utf8_len_capped(n, room) < room {
                        self.put(CharacterCode::Blank);
                    }
                }
            },
            None => {},
        }
    }
}

/// The number of bytes that a character takes in UTF-8.
pub fn utf8_width_of(c: char) -> (n: usize)
    ensures
        n == utf8_width(c),
        1 <= n <= 4,
{
    let code = c as u32;
    if code < 0x80 {
        1
    } else if code < 0x800 {
        2
    } else if code < 0x10000 {
        3
    } else {
        4
    }
}

/// A part of a word is no longer than the word.
pub proof fn lemma_utf8_len_grows(s: Seq<char>, n: int)
    requires
        0 <= n <= s.len(),
    ensures
        utf8_len(s.take(n)) <= utf8_len(s),
    decreases s.len() - n,
{
    if n < s.len() {
        assert(s.take(n + 1).drop_last() =~= s.take(n));
        lemma_utf8_len_grows(s, n + 1);
    } else {
        assert(s.take(n) =~= s);
    }
}

/// The length of a word in bytes of UTF-8, counted no further than `cap`.
pub fn utf8_len_capped(word: &Vec<char>, cap: usize) -> (len: usize)
    ensures
        len == if utf8_len(word@) < cap {
            utf8_len(word@)
        } else {
            cap as nat
        },
{
    let mut len: usize = 0;
    let mut i: usize = 0;
    while i < word.len()
        invariant
            i <= word.len(),
            len == utf8_len(word@.take(i as int)),
            len <= cap,
        decreases word.len() - i,
    {
        let width = utf8_width_of(word[i]);
        proof {
            assert(word@.take(i + 1).drop_last() =~= word@.take(i as int));
        }
        if cap - len <= width {
            proof {
                lemma_utf8_len_grows(word@, i + 1);
            }
            return cap;
        }
        len = len + width;
        i += 1;
    }
    assert(word@.take(i as int) =~= word@);
    len
}

/// Drops the spaces that stand at the end of a line.
pub fn trim_line_end_spaces(chars: &Vec<char>) -> (text: Vec<char>)
    ensures
        text@ == trim_line_ends(chars@),
{
    let n = chars.len();
    let mut dropped: Vec<bool> = Vec::new();
    let mut k: usize = 0;
    while k < n
        invariant
            k <= n,
            dropped.len() == k,
        decreases n - k,
    {
        dropped.push(false);
        k += 1;
    }
    let mut i: usize = n;
    let mut line_end = true;
    while i > 0
        invariant
            i <= n,
            n == chars.len(),
            dropped.len() == n,
            forall|j: int| i <= j < n ==> dropped@[j] == is_line_end_space(chars@, j),
            line_end == (at_line_end(chars@, i as int) || is_line_end_space(chars@, i as int)),
        decreases i,
    {
        i -= 1;
        let c = chars[i];
        let space = line_end && c == ' ';
        dropped[i] = space;
        line_end = space || c == '\n';
    }
    let mut text: Vec<char> = Vec::new();
    let mut j: usize = 0;
    while j < n
        invariant
            j <= n,
            n == chars.len(),
            dropped.len() == n,
            forall|j: int| 0 <= j < n ==> dropped@[j] == is_line_end_space(chars@, j),
            text@ == trimmed_prefix(chars@, j as int),
        decreases n - j,
    {
        if !dropped[j] {
            text.push(chars[j]);
        }
        j += 1;
    }
    text
}

/// Cuts a text into its words.
pub fn split_words(chars: &Vec<char>) -> (words: Vec<Vec<char>>)
    ensures
        views(words@) == words_of(chars@),
{
    let mut words: Vec<Vec<char>> = Vec::new();
    let mut current: Vec<char> = Vec::new();
    let mut open = false;
    let mut i: usize = 0;
    assert(views(words@) =~= Seq::<Seq<char>>::empty());
    while i < chars.len()
        invariant
            i <= chars.len(),
            read_words(chars@.take(i as int)) == (Words {
                done: views(words@),
                current: current@,
                open,
            }),
        decreases chars.len() - i,
    {
        let c = chars[i];
        proof {
            assert(chars@.take(i + 1).drop_last() =~= chars@.take(i as int));
        }
        if c == '\n' || c == ' ' {
            if c == '\n' {
                current.push(c);
            }
            let ghost done = words@;
            words.push(current);
            current = Vec::new();
            open = c == ' ';
            assert(views(words@) =~= views(done).push(words@.last()@));
        } else {
            current.push(c);
            open = true;
        }
        i += 1;
    }
    assert(chars@.take(i as int) =~= chars@);
    if open {
        let ghost done = words@;
        words.push(current);
        assert(views(words@) =~= views(done).push(words@.last()@));
    }
    words
}

/// The length of the longest row.
pub fn widest_row(rows: &Vec<Vec<CharacterCode>>) -> (len: usize)
    ensures
        len == widest(views(rows@)),
{
    let mut len: usize = 0;
    let mut r: usize = 0;
    while r < rows.len()
        invariant
            r <= rows.len(),
            len == widest(views(rows@).take(r as int)),
        decreases rows.len() - r,
    {
        proof {
            assert(views(rows@).take(r + 1).drop_last() =~= views(rows@).take(r as int));
        }
        if rows[r].len() > len {
            len = rows[r].len();
        }
        r += 1;
    }
    assert(views(rows@).take(r as int) =~= views(rows@));
    len
}

/// A rectangle of `height` rows of `width` blanks.
pub fn blank_rows(height: usize, width: usize) -> (rows: Vec<Vec<CharacterCode>>)
    ensures
        views(rows@) == filled_grid(height as nat, width as nat, CharacterCode::Blank),
{
    let mut rows: Vec<Vec<CharacterCode>> = Vec::new();
    let mut r: usize = 0;
    while r < height
        invariant
            r <= height,
            rows.len() == r,
            forall|i: int|
                0 <= i < r ==> (#[trigger] rows@[i])@ == Seq::new(
                    width as nat,
                    |c: int| CharacterCode::Blank,
                ),
        decreases height - r,
    {
        let mut row: Vec<CharacterCode> = Vec::new();
        let mut c: usize = 0;
        while c < width
            invariant
                c <= width,
                row.len() == c,
                forall|j: int| 0 <= j < c ==> row@[j] == CharacterCode::Blank,
            decreases width - c,
        {
            row.push(CharacterCode::Blank);
            c += 1;
        }
        assert(row@ =~= Seq::new(width as nat, |c: int| CharacterCode::Blank));
        rows.push(row);
        r += 1;
    }
    assert(views(rows@) =~= filled_grid(height as nat, width as nat, CharacterCode::Blank));
    rows
}

/// Lays a text out in a rectangle of `height` rows by `width` columns and
/// returns the height of its content, the length of its longest row, and
/// the rows, one for each row of the rectangle.
///
/// Nothing is placed outside the rectangle: what does not fit in its height
/// is dropped, and where the rectangle is at least one column wide no row
/// is longer than the rectangle is wide.
pub fn wrap_text(text: &str, height: usize, width: usize) -> (r: (usize, usize, Vec<Vec<CharacterCode>>))
    ensures
        (Wrapped { height: r.0 as nat, widest: r.1 as nat, rows: views(r.2@) }) == wrap(
            text@,
            height as nat,
            width as nat,
        ),
        r.2.len() == height,
        r.0 <= height,
        width >= 1 ==> r.1 <= width,
        forall|i: int| 0 <= i < height ==> (#[trigger] r.2@[i]).len() <= r.1,
{
    proof {
        lemma_wrap_within(text@, height as nat, width as nat);
    }
    let chars = chars_of(text);
    if chars.len() == 0 {
        let rows = blank_rows(height, width);
        assert forall|i: int| 0 <= i < height implies (#[trigger] rows@[i]).len() <= width by {
            assert(views(rows@)[i].len() == width);
        }
        return (height, width, rows);
    }
    let trimmed = trim_line_end_spaces(&chars);
    let words = split_words(&trimmed);
    let mut layout = Layout::new(height);
    let mut i: usize = 0;
    proof {
        lemma_place_words_tidy(views(words@), 0, height as nat, width as nat);
    }
    while i < words.len()
        invariant
            i <= words.len(),
            is_tidy(layout@, height as nat, width as nat),
            layout@ == place_words(views(words@), i as int, height as nat, width as nat),
        decreases words.len() - i,
    {
        let next = if i + 1 < words.len() {
            Some(&words[i + 1])
        } else {
            None
        };
        layout.place_word(&words[i], next, height, width);
        i += 1;
    }
    let content_height = if layout.row < height {
        layout.row + 1
    } else {
        height
    };
    let widest = widest_row(&layout.rows);
    assert forall|i: int| 0 <= i < height implies (#[trigger] layout.rows@[i]).len() <= widest by {
        assert(views(layout.rows@)[i].len() <= widest);
    }
    (content_height, widest, layout.rows)
}

} // verus!
