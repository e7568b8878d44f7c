use vestaboard::board::character::CharacterCode;
use vestaboard::vbml::wrap::{
    blank_rows, split_words, trim_line_end_spaces, utf8_len_capped, utf8_width_of, widest_row,
    wrap_text,
};

fn chars(s: &str) -> Vec<char> {
    s.chars().collect()
}

fn codes(rows: &Vec<Vec<CharacterCode>>) -> Vec<Vec<u8>> {
    rows.iter().map(|row| row.iter().map(|code| code.to_u8()).collect()).collect()
}

fn wrapped(text: &str, height: usize, width: usize) -> (usize, usize, Vec<Vec<u8>>) {
    let (content_height, widest, rows) = wrap_text(text, height, width);
    (content_height, widest, codes(&rows))
}

fn row(text: &str) -> Vec<u8> {
    text.chars().map(|c| CharacterCode::from(c).to_u8()).collect()
}

#[test]
fn the_empty_text_fills_the_rectangle_with_blanks() {
    assert_eq!(wrapped("", 2, 3), (2, 3, vec![vec![0, 0, 0], vec![0, 0, 0]]));
    assert_eq!(wrapped("", 6, 22), (6, 22, vec![vec![0; 22]; 6]));
    assert_eq!(wrapped("", 0, 5), (0, 5, vec![]));
    assert_eq!(wrapped("", 2, 0), (2, 0, vec![vec![], vec![]]));
}

#[test]
fn a_short_word_stands_in_the_first_row() {
    let mut rows = vec![vec![]; 6];
    rows[0] = vec![8, 5, 12, 12, 15];
    assert_eq!(wrapped("HELLO", 6, 22), (1, 5, rows));
}

#[test]
fn small_letters_are_read_as_capitals() {
    assert_eq!(wrapped("abc", 1, 5), (1, 3, vec![vec![1, 2, 3]]));
}

#[test]
fn unknown_characters_are_blank_cells() {
    assert_eq!(wrapped("A~B", 1, 5), (1, 3, vec![vec![1, 0, 2]]));
}

#[test]
fn words_are_parted_by_one_blank() {
    assert_eq!(wrapped("AB CD", 1, 22), (1, 5, vec![row("AB CD")]));
}

#[test]
fn a_word_that_just_fits_follows_without_a_blank() {
    assert_eq!(wrapped("AB CD", 2, 4), (1, 4, vec![row("ABCD"), vec![]]));
    assert_eq!(wrapped("AB C", 2, 4), (1, 4, vec![row("AB C"), vec![]]));
}

#[test]
fn every_space_is_a_blank_where_there_is_room() {
    assert_eq!(wrapped("A  B", 1, 22), (1, 4, vec![row("A  B")]));
    assert_eq!(wrapped(" A", 1, 22), (1, 2, vec![row(" A")]));
}

#[test]
fn a_word_that_does_not_fit_moves_down() {
    assert_eq!(wrapped("HELLO WORLD", 3, 7), (2, 5, vec![row("HELLO"), row("WORLD"), vec![]]));
}

#[test]
fn no_blank_is_written_before_a_word_that_moves_down() {
    assert_eq!(wrapped("ABCD EF", 2, 5), (2, 4, vec![row("ABCD"), row("EF")]));
}

#[test]
fn a_long_word_is_broken_at_the_end_of_the_row() {
    assert_eq!(wrapped("ABCDEFGH", 4, 3), (3, 3, vec![row("ABC"), row("DEF"), row("GH"), vec![]]));
}

#[test]
fn a_word_as_long_as_the_row_is_broken_too() {
    assert_eq!(wrapped("AB CDE", 2, 3), (2, 3, vec![row("ABC"), row("DE")]));
    assert_eq!(wrapped("ABC DEF", 2, 3), (2, 3, vec![row("ABC"), row("DEF")]));
}

#[test]
fn a_line_break_begins_a_new_row() {
    assert_eq!(wrapped("A\nB", 3, 5), (2, 1, vec![row("A"), row("B"), vec![]]));
}

#[test]
fn a_line_break_at_the_end_counts_a_row() {
    assert_eq!(wrapped("A\n", 3, 5), (2, 1, vec![row("A"), vec![], vec![]]));
}

#[test]
fn a_line_break_at_the_end_of_a_full_row_breaks_once() {
    assert_eq!(wrapped("ABC\nD", 3, 3), (2, 3, vec![row("ABC"), row("D"), vec![]]));
}

#[test]
fn an_empty_line_is_an_empty_row() {
    assert_eq!(wrapped("A\n\nB", 4, 5), (3, 1, vec![row("A"), vec![], row("B"), vec![]]));
}

#[test]
fn spaces_at_line_ends_are_dropped() {
    assert_eq!(wrapped("A  \nB  ", 3, 5), (2, 1, vec![row("A"), row("B"), vec![]]));
    assert_eq!(wrapped("   ", 2, 5), (1, 0, vec![vec![], vec![]]));
}

#[test]
fn what_does_not_fit_in_the_height_is_dropped() {
    assert_eq!(wrapped("A\nB\nC", 2, 5), (2, 1, vec![row("A"), row("B")]));
    assert_eq!(wrapped("ABCDEFGH", 2, 3), (2, 3, vec![row("ABC"), row("DEF")]));
    assert_eq!(wrapped("AB CD EF GH", 2, 2), (2, 2, vec![row("AB"), row("CD")]));
    assert_eq!(wrapped("ABCD EF G H", 1, 5), (1, 4, vec![row("ABCD")]));
}

#[test]
fn a_rectangle_without_height_holds_nothing() {
    assert_eq!(wrapped("A", 0, 5), (0, 0, vec![]));
}

#[test]
fn a_rectangle_without_width_takes_one_character_a_row() {
    assert_eq!(wrapped("AB", 3, 0), (3, 1, vec![vec![], row("A"), row("B")]));
}

#[test]
fn a_word_is_measured_in_bytes() {
    let (content_height, widest, rows) = wrapped("AAAAAAAAAA 🟥🟥🟥🟥", 2, 22);
    assert_eq!(content_height, 2);
    assert_eq!(widest, 10);
    assert_eq!(rows, vec![vec![1; 10], vec![63; 4]]);
    let (_, _, near) = wrapped("AAAAAAAAAA 🟥🟥", 2, 22);
    assert_eq!(near, vec![row("AAAAAAAAAA 🟥🟥"), vec![]]);
}

#[test]
fn no_row_is_longer_than_the_rectangle_is_wide() {
    let text = "THE QUICK BROWN FOX JUMPS OVER THE LAZY DOG\nAND RUNS  AWAY 🟥🟥🟥 {1}";
    for height in 0..5 {
        for width in 1..12 {
            let (content_height, widest, rows) = wrapped(text, height, width);
            assert_eq!(rows.len(), height);
            assert!(content_height <= height);
            assert!(widest <= width);
            for row in rows.iter() {
                assert!(row.len() <= widest);
            }
        }
    }
}

#[test]
fn line_end_spaces_are_trimmed() {
    assert_eq!(trim_line_end_spaces(&chars("a  \nb  ")), chars("a\nb"));
    assert_eq!(trim_line_end_spaces(&chars("a b ")), chars("a b"));
    assert_eq!(trim_line_end_spaces(&chars("  a")), chars("  a"));
    assert_eq!(trim_line_end_spaces(&chars(" \n \n")), chars("\n\n"));
    assert_eq!(trim_line_end_spaces(&chars("a \t\n")), chars("a \t\n"));
    assert_eq!(trim_line_end_spaces(&chars("")), chars(""));
}

#[test]
fn trimming_trims_every_line() {
    for text in ["", " ", "a ", "a  \nb  ", " \n \n", "a b  \n\n  c d \n", "\n", "x \n y"] {
        let expected =
            text.split('\n').map(|line| line.trim_end_matches(' ')).collect::<Vec<_>>().join("\n");
        assert_eq!(trim_line_end_spaces(&chars(text)), chars(&expected));
    }
}

#[test]
fn a_text_is_cut_into_words() {
    assert_eq!(split_words(&chars("a b")), vec![chars("a"), chars("b")]);
    assert_eq!(split_words(&chars("a\nb")), vec![chars("a\n"), chars("b")]);
    assert_eq!(split_words(&chars("a\n b")), vec![chars("a\n"), chars(""), chars("b")]);
    assert_eq!(split_words(&chars(" \n")), vec![chars(""), chars("\n")]);
    assert_eq!(split_words(&chars("\n\n")), vec![chars("\n"), chars("\n")]);
    assert_eq!(split_words(&chars("a  b")), vec![chars("a"), chars(""), chars("b")]);
    assert_eq!(split_words(&chars("a ")), vec![chars("a"), chars("")]);
    assert_eq!(split_words(&chars("a\n")), vec![chars("a\n")]);
    assert_eq!(split_words(&chars("")), Vec::<Vec<char>>::new());
}

#[test]
fn words_are_cut_as_the_standard_library_cuts_them() {
    for text in ["", "a", " ", "\n", "a b\nc  d\n\n e ", "x\n", " \n ", "ab  \n\n  cd"] {
        let expected: Vec<Vec<char>> =
            text.split_inclusive('\n').flat_map(|s| s.split(' ')).map(|w| w.chars().collect()).collect();
        assert_eq!(split_words(&chars(text)), expected);
    }
}

#[test]
fn characters_are_measured_in_utf8() {
    assert_eq!(utf8_width_of('a'), 1);
    assert_eq!(utf8_width_of('\u{7f}'), 1);
    assert_eq!(utf8_width_of('\u{80}'), 2);
    assert_eq!(utf8_width_of('°'), 2);
    assert_eq!(utf8_width_of('\u{7ff}'), 2);
    assert_eq!(utf8_width_of('\u{800}'), 3);
    assert_eq!(utf8_width_of('⬜'), 3);
    assert_eq!(utf8_width_of('\u{ffff}'), 3);
    assert_eq!(utf8_width_of('\u{10000}'), 4);
    assert_eq!(utf8_width_of('🟥'), 4);
    for c in ['a', '°', '⬜', '🟥'] {
        assert_eq!(utf8_width_of(c), c.len_utf8());
    }
}

#[test]
fn words_are_measured_up_to_a_cap() {
    assert_eq!(utf8_len_capped(&chars("abc"), 10), 3);
    assert_eq!(utf8_len_capped(&chars("abc"), 3), 3);
    assert_eq!(utf8_len_capped(&chars("abc"), 2), 2);
    assert_eq!(utf8_len_capped(&chars("a🟥"), 10), 5);
    assert_eq!(utf8_len_capped(&chars("a🟥"), 4), 4);
    assert_eq!(utf8_len_capped(&chars(""), 0), 0);
    assert_eq!(utf8_len_capped(&chars("abc"), 0), 0);
    assert_eq!(utf8_len_capped(&chars("abc"), usize::MAX), 3);
}

#[test]
fn the_longest_row_is_found() {
    let rows = vec![vec![CharacterCode::A], vec![], vec![CharacterCode::B; 4], vec![CharacterCode::C; 2]];
    assert_eq!(widest_row(&rows), 4);
    assert_eq!(widest_row(&Vec::new()), 0);
}

#[test]
fn blank_rows_are_made() {
    assert_eq!(codes(&blank_rows(2, 3)), vec![vec![0, 0, 0], vec![0, 0, 0]]);
    assert_eq!(codes(&blank_rows(0, 3)), Vec::<Vec<u8>>::new());
}
