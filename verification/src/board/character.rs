//! The characters a board can show and the codes that stand for them.
//!
//! Every cell of a board holds one byte. [`CharacterCode`] names the bytes
//! that the display has a flap for; [`code_to_char`] and [`char_to_code`]
//! relate those bytes to the characters used when a board is written as
//! text.

use vstd::prelude::*;
use vstd::std_specs::convert::FromSpecImpl;
use crate::text::string_from_chars;

verus! {

/// The character codes that can be displayed on the board.
#[derive(Debug, PartialEq, Eq, Clone, Copy, Structural)]
pub enum CharacterCode {
    Blank,
    A,
    B,
    C,
    D,
    E,
    F,
    G,
    H,
    I,
    J,
    K,
    L,
    M,
    N,
    O,
    P,
    Q,
    R,
    S,
    T,
    U,
    V,
    W,
    X,
    Y,
    Z,
    One,
    Two,
    Three,
    Four,
    Five,
    Six,
    Seven,
    Eight,
    Nine,
    Zero,
    ExclamationMark,
    AtSign,
    PoundSign,
    DollarSign,
    LeftParen,
    RightParen,
    Hyphen,
    PlusSign,
    Ampersand,
    EqualsSign,
    Semicolon,
    Colon,
    SingleQuote,
    DoubleQuote,
    PercentSign,
    Comma,
    Period,
    Slash,
    QuestionMark,
    DegreeSign,
    Red,
    Orange,
    Yellow,
    Green,
    Blue,
    Violet,
    White,
    Black,
    Filled,
    Newline,
}

/// The byte is one of the codes that [`CharacterCode`] names.
pub open spec fn is_character_code(code: u8) -> bool {
    ||| code <= 42
    ||| code == 44
    ||| 46 <= code <= 50
    ||| 52 <= code <= 56
    ||| code == 59
    ||| code == 60
    ||| 62 <= code <= 71
    ||| code == 100
}

/// The character that a code is written as: the table of the display's
/// flaps. A byte outside the table is written as a space.
pub open spec fn char_of_code(code: u8) -> char {
    match code {
        0u8 => ' ',
        1u8 => 'A',
        2u8 => 'B',
        3u8 => 'C',
        4u8 => 'D',
        5u8 => 'E',
        6u8 => 'F',
        7u8 => 'G',
        8u8 => 'H',
        9u8 => 'I',
        10u8 => 'J',
        11u8 => 'K',
        12u8 => 'L',
        13u8 => 'M',
        14u8 => 'N',
        15u8 => 'O',
        16u8 => 'P',
        17u8 => 'Q',
        18u8 => 'R',
        19u8 => 'S',
        20u8 => 'T',
        21u8 => 'U',
        22u8 => 'V',
        23u8 => 'W',
        24u8 => 'X',
        25u8 => 'Y',
        26u8 => 'Z',
        27u8 => '1',
        28u8 => '2',
        29u8 => '3',
        30u8 => '4',
        31u8 => '5',
        32u8 => '6',
        33u8 => '7',
        34u8 => '8',
        35u8 => '9',
        36u8 => '0',
        37u8 => '!',
        38u8 => '@',
        39u8 => '#',
        40u8 => '$',
        41u8 => '(',
        42u8 => ')',
        44u8 => '-',
        46u8 => '+',
        47u8 => '&',
        48u8 => '=',
        49u8 => ';',
        50u8 => ':',
        52u8 => '\'',
        53u8 => '"',
        54u8 => '%',
        55u8 => ',',
        56u8 => '.',
        59u8 => '/',
        60u8 => '?',
        62u8 => '°',
        63u8 => '🟥',
        64u8 => '🟧',
        65u8 => '🟨',
        66u8 => '🟩',
        67u8 => '🟦',
        68u8 => '🟪',
        69u8 => '⬜',
        70u8 => '⬛',
        71u8 => '⬜',
        100u8 => '\n',
        _ => ' ',
    }
}

/// The code that a character is read as: the least code that is written as
/// this character, and 0 where no code is.
pub open spec fn code_of_char(c: char) -> u8 {
    if exists|code: u8| char_of_code(code) == c {
        choose|code: u8| char_of_code(code) == c && forall|less: u8| less < code ==> char_of_code(less) != c
    } else {
        0
    }
}

/// The upper-case form of an ASCII letter; any other character is itself.
pub open spec fn ascii_upper(c: char) -> char {
    if 'a' <= c && c <= 'z' {
        ((c as u32) - 32) as char
    } else {
        c
    }
}

/// The glyph is one of the colour swatches, which a terminal draws two
/// columns wide.
pub open spec fn is_wide_glyph(c: char) -> bool {
    c == '🟥' || c == '🟧' || c == '🟨' || c == '🟩' || c == '🟦' || c == '🟪' || c == '⬜' || c == '⬛'
}

impl CharacterCode {
    /// The byte that stands for this code in a board's cells.
    pub open spec fn code(self) -> u8 {
        match self {
            CharacterCode::Blank => 0,
            CharacterCode::A => 1,
            CharacterCode::B => 2,
            CharacterCode::C => 3,
            CharacterCode::D => 4,
            CharacterCode::E => 5,
            CharacterCode::F => 6,
            CharacterCode::G => 7,
            CharacterCode::H => 8,
            CharacterCode::I => 9,
            CharacterCode::J => 10,
            CharacterCode::K => 11,
            CharacterCode::L => 12,
            CharacterCode::M => 13,
            CharacterCode::N => 14,
            CharacterCode::O => 15,
            CharacterCode::P => 16,
            CharacterCode::Q => 17,
            CharacterCode::R => 18,
            CharacterCode::S => 19,
            CharacterCode::T => 20,
            CharacterCode::U => 21,
            CharacterCode::V => 22,
            CharacterCode::W => 23,
            CharacterCode::X => 24,
            CharacterCode::Y => 25,
            CharacterCode::Z => 26,
            CharacterCode::One => 27,
            CharacterCode::Two => 28,
            CharacterCode::Three => 29,
            CharacterCode::Four => 30,
            CharacterCode::Five => 31,
            CharacterCode::Six => 32,
            CharacterCode::Seven => 33,
            CharacterCode::Eight => 34,
            CharacterCode::Nine => 35,
            CharacterCode::Zero => 36,
            CharacterCode::ExclamationMark => 37,
            CharacterCode::AtSign => 38,
            CharacterCode::PoundSign => 39,
            CharacterCode::DollarSign => 40,
            CharacterCode::LeftParen => 41,
            CharacterCode::RightParen => 42,
            CharacterCode::Hyphen => 44,
            CharacterCode::PlusSign => 46,
            CharacterCode::Ampersand => 47,
            CharacterCode::EqualsSign => 48,
            CharacterCode::Semicolon => 49,
            CharacterCode::Colon => 50,
            CharacterCode::SingleQuote => 52,
            CharacterCode::DoubleQuote => 53,
            CharacterCode::PercentSign => 54,
            CharacterCode::Comma => 55,
            CharacterCode::Period => 56,
            CharacterCode::Slash => 59,
            CharacterCode::QuestionMark => 60,
            CharacterCode::DegreeSign => 62,
            CharacterCode::Red => 63,
            CharacterCode::Orange => 64,
            CharacterCode::Yellow => 65,
            CharacterCode::Green => 66,
            CharacterCode::Blue => 67,
            CharacterCode::Violet => 68,
            CharacterCode::White => 69,
            CharacterCode::Black => 70,
            CharacterCode::Filled => 71,
            CharacterCode::Newline => 100,
        }
    }

    /// The code that a byte stands for: the one whose number it is, and
    /// `Blank` for a byte that no code has.
    pub open spec fn of_byte(code: u8) -> CharacterCode {
        if exists|v: CharacterCode| v.code() == code {
            choose|v: CharacterCode| v.code() == code
        } else {
            CharacterCode::Blank
        }
    }

    /// The code that a character is read as, letters in either case.
    pub open spec fn of_char(c: char) -> CharacterCode {
        CharacterCode::of_byte(code_of_char(ascii_upper(c)))
    }

    /// The character that this code is written as.
    pub open spec fn glyph(self) -> char {
        char_of_code(self.code())
    }

    /// How the code is printed in a bordered board: its glyph, followed by
    /// a space unless the glyph is a colour swatch.
    pub open spec fn display(self) -> Seq<char> {
        if is_wide_glyph(self.glyph()) {
            seq![self.glyph()]
        } else {
            seq![self.glyph(), ' ']
        }
    }

    /// The byte that stands for this code.
    pub fn to_u8(self) -> (code: u8)
        ensures
            code == self.code(),
            is_character_code(code),
    {
        match self {
            CharacterCode::Blank => 0,
            CharacterCode::A => 1,
            CharacterCode::B => 2,
            CharacterCode::C => 3,
            CharacterCode::D => 4,
            CharacterCode::E => 5,
            CharacterCode::F => 6,
            CharacterCode::G => 7,
            CharacterCode::H => 8,
            CharacterCode::I => 9,
            CharacterCode::J => 10,
            CharacterCode::K => 11,
            CharacterCode::L => 12,
            CharacterCode::M => 13,
            CharacterCode::N => 14,
            CharacterCode::O => 15,
            CharacterCode::P => 16,
            CharacterCode::Q => 17,
            CharacterCode::R => 18,
            CharacterCode::S => 19,
            CharacterCode::T => 20,
            CharacterCode::U => 21,
            CharacterCode::V => 22,
            CharacterCode::W => 23,
            CharacterCode::X => 24,
            CharacterCode::Y => 25,
            CharacterCode::Z => 26,
            CharacterCode::One => 27,
            CharacterCode::Two => 28,
            CharacterCode::Three => 29,
            CharacterCode::Four => 30,
            CharacterCode::Five => 31,
            CharacterCode::Six => 32,
            CharacterCode::Seven => 33,
            CharacterCode::Eight => 34,
            CharacterCode::Nine => 35,
            CharacterCode::Zero => 36,
            CharacterCode::ExclamationMark => 37,
            CharacterCode::AtSign => 38,
            CharacterCode::PoundSign => 39,
            CharacterCode::DollarSign => 40,
            CharacterCode::LeftParen => 41,
            CharacterCode::RightParen => 42,
            CharacterCode::Hyphen => 44,
            CharacterCode::PlusSign => 46,
            CharacterCode::Ampersand => 47,
            CharacterCode::EqualsSign => 48,
            CharacterCode::Semicolon => 49,
            CharacterCode::Colon => 50,
            CharacterCode::SingleQuote => 52,
            CharacterCode::DoubleQuote => 53,
            CharacterCode::PercentSign => 54,
            CharacterCode::Comma => 55,
            CharacterCode::Period => 56,
            CharacterCode::Slash => 59,
            CharacterCode::QuestionMark => 60,
            CharacterCode::DegreeSign => 62,
            CharacterCode::Red => 63,
            CharacterCode::Orange => 64,
            CharacterCode::Yellow => 65,
            CharacterCode::Green => 66,
            CharacterCode::Blue => 67,
            CharacterCode::Violet => 68,
            CharacterCode::White => 69,
            CharacterCode::Black => 70,
            CharacterCode::Filled => 71,
            CharacterCode::Newline => 100,
        }
    }

    /// Appends the text of one cell in a bordered board.
    pub fn write_display(&self, out: &mut Vec<char>)
        ensures
            final(out)@ == old(out)@ + self.display(),
    {
        let c = code_to_char(self.to_u8());
        out.push(c);
        if !is_wide(c) {
            out.push(' ');
        }
        assert(out@ =~= old(out)@ + self.display());
    }

    /// The text of one cell in a bordered board.
    pub fn to_display_string(&self) -> (s: String)
        ensures
            s@ == self.display(),
    {
        let mut chars: Vec<char> = Vec::new();
        self.write_display(&mut chars);
        assert(chars@ =~= self.display());
        string_from_chars(&chars)
    }
}

/// Distinct codes stand for distinct bytes.
pub proof fn lemma_code_injective(v: CharacterCode, w: CharacterCode)
    requires
        v.code() == w.code(),
    ensures
        v == w,
{
}

/// Reading back the byte of a code gives the code.
pub proof fn lemma_of_byte_code(v: CharacterCode)
    ensures
        CharacterCode::of_byte(v.code()) == v,
{
    let w = CharacterCode::of_byte(v.code());
    assert(w.code() == v.code());
    lemma_code_injective(v, w);
}

impl From<u8> for CharacterCode {
    /// Converts a byte to the code it stands for; `Blank` for any other byte.
    fn from(code: u8) -> (v: CharacterCode) {
        let v = match code {
            0 => CharacterCode::Blank,
            1 => CharacterCode::A,
            2 => CharacterCode::B,
            3 => CharacterCode::C,
            4 => CharacterCode::D,
            5 => CharacterCode::E,
            6 => CharacterCode::F,
            7 => CharacterCode::G,
            8 => CharacterCode::H,
            9 => CharacterCode::I,
            10 => CharacterCode::J,
            11 => CharacterCode::K,
            12 => CharacterCode::L,
            13 => CharacterCode::M,
            14 => CharacterCode::N,
            15 => CharacterCode::O,
            16 => CharacterCode::P,
            17 => CharacterCode::Q,
            18 => CharacterCode::R,
            19 => CharacterCode::S,
            20 => CharacterCode::T,
            21 => CharacterCode::U,
            22 => CharacterCode::V,
            23 => CharacterCode::W,
            24 => CharacterCode::X,
            25 => CharacterCode::Y,
            26 => CharacterCode::Z,
            27 => CharacterCode::One,
            28 => CharacterCode::Two,
            29 => CharacterCode::Three,
            30 => CharacterCode::Four,
            31 => CharacterCode::Five,
            32 => CharacterCode::Six,
            33 => CharacterCode::Seven,
            34 => CharacterCode::Eight,
            35 => CharacterCode::Nine,
            36 => CharacterCode::Zero,
            37 => CharacterCode::ExclamationMark,
            38 => CharacterCode::AtSign,
            39 => CharacterCode::PoundSign,
            40 => CharacterCode::DollarSign,
            41 => CharacterCode::LeftParen,
            42 => CharacterCode::RightParen,
            44 => CharacterCode::Hyphen,
            46 => CharacterCode::PlusSign,
            47 => CharacterCode::Ampersand,
            48 => CharacterCode::EqualsSign,
            49 => CharacterCode::Semicolon,
            50 => CharacterCode::Colon,
            52 => CharacterCode::SingleQuote,
            53 => CharacterCode::DoubleQuote,
            54 => CharacterCode::PercentSign,
            55 => CharacterCode::Comma,
            56 => CharacterCode::Period,
            59 => CharacterCode::Slash,
            60 => CharacterCode::QuestionMark,
            62 => CharacterCode::DegreeSign,
            63 => CharacterCode::Red,
            64 => CharacterCode::Orange,
            65 => CharacterCode::Yellow,
            66 => CharacterCode::Green,
            67 => CharacterCode::Blue,
            68 => CharacterCode::Violet,
            69 => CharacterCode::White,
            70 => CharacterCode::Black,
            71 => CharacterCode::Filled,
            100 => CharacterCode::Newline,
            _ => CharacterCode::Blank,
        };
        proof {
            if is_character_code(code) {
                assert(v.code() == code);
                lemma_code_injective(v, CharacterCode::of_byte(code));
            } else {
                assert(forall|w: CharacterCode| is_character_code(#[trigger] w.code()));
            }
        }
        v
    }
}

impl FromSpecImpl<u8> for CharacterCode {
    open spec fn obeys_from_spec() -> bool {
        true
    }

    open spec fn from_spec(code: u8) -> CharacterCode {
        CharacterCode::of_byte(code)
    }
}

impl From<CharacterCode> for u8 {
    /// Converts a code to the byte that stands for it.
    fn from(code: CharacterCode) -> (b: u8) {
        code.to_u8()
    }
}

impl FromSpecImpl<CharacterCode> for u8 {
    open spec fn obeys_from_spec() -> bool {
        true
    }

    open spec fn from_spec(code: CharacterCode) -> u8 {
        code.code()
    }
}

impl From<CharacterCode> for char {
    /// Converts a code to the character it is written as.
    fn from(val: CharacterCode) -> (c: char) {
        code_to_char(val.to_u8())
    }
}

impl FromSpecImpl<CharacterCode> for char {
    open spec fn obeys_from_spec() -> bool {
        true
    }

    open spec fn from_spec(val: CharacterCode) -> char {
        val.glyph()
    }
}

impl From<char> for CharacterCode {
    /// Converts a character to the code it is read as. Letters are read in
    /// either case; a character that no code is written as reads as `Blank`.
    fn from(c: char) -> (v: CharacterCode) {
        CharacterCode::from(char_to_code(to_ascii_uppercase(c)))
    }
}

impl FromSpecImpl<char> for CharacterCode {
    open spec fn obeys_from_spec() -> bool {
        true
    }

    open spec fn from_spec(c: char) -> CharacterCode {
        CharacterCode::of_char(c)
    }
}

/// Converts an ASCII letter to upper case and leaves any other character
/// as it is.
pub fn to_ascii_uppercase(c: char) -> (r: char)
    ensures
        r == ascii_upper(c),
{
    if c >= 'a' && c <= 'z' {
        let n: u32 = c as u32;
        let m: u8 = (n - 32) as u8;
        m as char
    } else {
        c
    }
}

/// Tells whether a glyph is a colour swatch.
pub fn is_wide(c: char) -> (r: bool)
    ensures
        r == is_wide_glyph(c),
{
    c == '🟥' || c == '🟧' || c == '🟨' || c == '🟩' || c == '🟦' || c == '🟪' || c == '⬜' || c == '⬛'
}

/// Converts a `u8` character code to a `char`.
pub fn code_to_char(code: u8) -> (c: char)
    ensures
        c == char_of_code(code),
        !is_character_code(code) ==> c == ' ',
{
    match code {
        0 => ' ',
        1 => 'A',
        2 => 'B',
        3 => 'C',
        4 => 'D',
        5 => 'E',
        6 => 'F',
        7 => 'G',
        8 => 'H',
        9 => 'I',
        10 => 'J',
        11 => 'K',
        12 => 'L',
        13 => 'M',
        14 => 'N',
        15 => 'O',
        16 => 'P',
        17 => 'Q',
        18 => 'R',
        19 => 'S',
        20 => 'T',
        21 => 'U',
        22 => 'V',
        23 => 'W',
        24 => 'X',
        25 => 'Y',
        26 => 'Z',
        27 => '1',
        28 => '2',
        29 => '3',
        30 => '4',
        31 => '5',
        32 => '6',
        33 => '7',
        34 => '8',
        35 => '9',
        36 => '0',
        37 => '!',
        38 => '@',
        39 => '#',
        40 => '$',
        41 => '(',
        42 => ')',
        44 => '-',
        46 => '+',
        47 => '&',
        48 => '=',
        49 => ';',
        50 => ':',
        52 => '\'',
        53 => '"',
        54 => '%',
        55 => ',',
        56 => '.',
        59 => '/',
        60 => '?',
        62 => '°',
        63 => '🟥',
        64 => '🟧',
        65 => '🟨',
        66 => '🟩',
        67 => '🟦',
        68 => '🟪',
        69 => '⬜',
        70 => '⬛',
        71 => '⬜',
        100 => '\n',
        _ => ' ',
    }
}

/// Converts a `char` to a `u8` character code.
pub fn char_to_code(c: char) -> (code: u8)
    ensures
        code == code_of_char(c),
        is_character_code(code),
{
    let code: u8 = match c {
        ' ' => 0,
        'A' => 1,
        'B' => 2,
        'C' => 3,
        'D' => 4,
        'E' => 5,
        'F' => 6,
        'G' => 7,
        'H' => 8,
        'I' => 9,
        'J' => 10,
        'K' => 11,
        'L' => 12,
        'M' => 13,
        'N' => 14,
        'O' => 15,
        'P' => 16,
        'Q' => 17,
        'R' => 18,
        'S' => 19,
        'T' => 20,
        'U' => 21,
        'V' => 22,
        'W' => 23,
        'X' => 24,
        'Y' => 25,
        'Z' => 26,
        '1' => 27,
        '2' => 28,
        '3' => 29,
        '4' => 30,
        '5' => 31,
        '6' => 32,
        '7' => 33,
        '8' => 34,
        '9' => 35,
        '0' => 36,
        '!' => 37,
        '@' => 38,
        '#' => 39,
        '$' => 40,
        '(' => 41,
        ')' => 42,
        '-' => 44,
        '+' => 46,
        '&' => 47,
        '=' => 48,
        ';' => 49,
        ':' => 50,
        '\'' => 52,
        '"' => 53,
        '%' => 54,
        ',' => 55,
        '.' => 56,
        '/' => 59,
        '?' => 60,
        '°' => 62,
        '🟥' => 63,
        '🟧' => 64,
        '🟨' => 65,
        '🟩' => 66,
        '🟦' => 67,
        '🟪' => 68,
        '⬜' => 69,
        '⬛' => 70,
        '\n' => 100,
        _ => 0,
    };
    proof {
        lemma_code_of_char(c, code);
    }
    code
}

/// A byte that is written as `c`, with no lesser byte written so, is the
/// code of `c`; and so is 0 where no byte is written as `c`.
pub proof fn lemma_code_of_char(c: char, code: u8)
    requires
        char_of_code(code) == c || (code == 0 && forall|b: u8| char_of_code(b) != c),
        forall|less: u8| less < code ==> char_of_code(less) != c,
    ensures
        code_of_char(c) == code,
{
    if exists|b: u8| char_of_code(b) == c {
        let found = code_of_char(c);
        assert(char_of_code(found) == c && forall|less: u8| less < found ==> char_of_code(less) != c);
        assert(!(found < code));
        assert(!(code < found));
    }
}

/// A code survives being written as a character and read back, unless it
/// is `Filled`, which is written with the glyph of `White`.
pub proof fn lemma_code_round_trip(code: u8)
    requires
        is_character_code(code),
        code != 71,
    ensures
        code_of_char(char_of_code(code)) == code,
        code_of_char(ascii_upper(char_of_code(code))) == code,
{
    lemma_code_of_char(char_of_code(code), code);
}

/// A byte that is no character code is written as a space.
pub proof fn lemma_unknown_code_is_space(code: u8)
    requires
        !is_character_code(code),
    ensures
        char_of_code(code) == ' ',
{
}

} // verus!
