use vestaboard::board::BoardData;
use vestaboard::vbml::compose::{compose, starting_col, starting_row};
use vestaboard::vbml::{
    AbsolutePosition, Align, ComponentStyle, Justify, Vbml, VbmlComponent, VbmlProps,
    VbmlRawComponent, VbmlStyle, VbmlTemplateComponent,
};

type Cells = [[u8; 22]; 6];

fn open() -> ComponentStyle {
    ComponentStyle::default()
}

fn sized(width: u32, height: u32) -> ComponentStyle {
    ComponentStyle { width: Some(width), height: Some(height), ..open() }
}

fn at(x: u32, y: u32, style: ComponentStyle) -> ComponentStyle {
    ComponentStyle { absolute_position: Some(AbsolutePosition { x, y }), ..style }
}

fn text(style: ComponentStyle, template: &str) -> VbmlComponent<6, 22> {
    VbmlComponent::Template(VbmlTemplateComponent { style, template: template.to_string() })
}

fn raw(style: ComponentStyle, cells: Cells) -> VbmlComponent<6, 22> {
    VbmlComponent::Raw(VbmlRawComponent { style, raw_characters: BoardData(cells) })
}

fn render(components: Vec<VbmlComponent<6, 22>>) -> Cells {
    let document: Vbml<6, 22> = Vbml { props: None, style: None, components };
    document.parse().unwrap().0
}

fn blank() -> Cells {
    [[0u8; 22]; 6]
}

fn with(cells: &[(usize, usize, u8)]) -> Cells {
    let mut board = blank();
    for (row, col, code) in cells {
        board[*row][*col] = *code;
    }
    board
}

#[test]
fn a_document_without_components_is_a_blank_board() {
    assert_eq!(render(vec![]), blank());
}

#[test]
fn content_is_aligned_to_the_top_by_default() {
    assert_eq!(render(vec![text(open(), "A")]), with(&[(0, 0, 1)]));
    let top = ComponentStyle { align: Some(Align::Top), ..open() };
    assert_eq!(render(vec![text(top, "A")]), with(&[(0, 0, 1)]));
    let absolute = ComponentStyle { align: Some(Align::Absolute), ..open() };
    assert_eq!(render(vec![text(absolute, "A")]), with(&[(0, 0, 1)]));
}

#[test]
fn centred_content_has_the_odd_row_below() {
    let center = ComponentStyle { align: Some(Align::Center), ..open() };
    assert_eq!(render(vec![text(center, "A")]), with(&[(2, 0, 1)]));
    assert_eq!(render(vec![text(center, "A\nB")]), with(&[(2, 0, 1), (3, 0, 2)]));
}

#[test]
fn justified_content_has_the_odd_row_above() {
    let justified = ComponentStyle { align: Some(Align::Justified), ..open() };
    assert_eq!(render(vec![text(justified, "A")]), with(&[(3, 0, 1)]));
    assert_eq!(render(vec![text(justified, "A\nB")]), with(&[(2, 0, 1), (3, 0, 2)]));
}

#[test]
fn content_at_the_bottom_ends_in_the_last_row() {
    let bottom = ComponentStyle { align: Some(Align::Bottom), ..open() };
    assert_eq!(render(vec![text(bottom, "A")]), with(&[(5, 0, 1)]));
    assert_eq!(render(vec![text(bottom, "A\nB")]), with(&[(4, 0, 1), (5, 0, 2)]));
    assert_eq!(render(vec![text(bottom, "A\n")]), with(&[(4, 0, 1)]));
}

#[test]
fn content_higher_than_its_rectangle_begins_at_the_top() {
    let bottom = ComponentStyle { align: Some(Align::Bottom), ..sized(22, 2) };
    assert_eq!(render(vec![text(bottom, "A\nB\nC")]), with(&[(0, 0, 1), (1, 0, 2)]));
    let center = ComponentStyle { align: Some(Align::Center), ..sized(22, 1) };
    assert_eq!(render(vec![text(center, "A\n")]), with(&[(0, 0, 1)]));
}

#[test]
fn rows_are_justified_to_the_left_by_default() {
    let left = ComponentStyle { justify: Some(Justify::Left), ..open() };
    assert_eq!(render(vec![text(left, "AB")]), with(&[(0, 0, 1), (0, 1, 2)]));
}

#[test]
fn a_centred_row_is_centred_by_its_own_length() {
    let center = ComponentStyle { justify: Some(Justify::Center), ..open() };
    assert_eq!(render(vec![text(center, "AB")]), with(&[(0, 10, 1), (0, 11, 2)]));
    assert_eq!(render(vec![text(center, "ABC")]), with(&[(0, 9, 1), (0, 10, 2), (0, 11, 3)]));
    assert_eq!(
        render(vec![text(center, "ABCD\nAB")]),
        with(&[(0, 9, 1), (0, 10, 2), (0, 11, 3), (0, 12, 4), (1, 10, 1), (1, 11, 2)])
    );
}

#[test]
fn justified_rows_begin_where_the_longest_is_centred() {
    let justified = ComponentStyle { justify: Some(Justify::Justified), ..open() };
    assert_eq!(
        render(vec![text(justified, "ABCD\nAB")]),
        with(&[(0, 9, 1), (0, 10, 2), (0, 11, 3), (0, 12, 4), (1, 9, 1), (1, 10, 2)])
    );
}

#[test]
fn a_row_justified_to_the_right_ends_in_the_last_column() {
    let right = ComponentStyle { justify: Some(Justify::Right), ..open() };
    assert_eq!(render(vec![text(right, "AB")]), with(&[(0, 20, 1), (0, 21, 2)]));
    let narrow = ComponentStyle { justify: Some(Justify::Right), ..sized(10, 6) };
    assert_eq!(render(vec![text(narrow, "ABC")]), with(&[(0, 7, 1), (0, 8, 2), (0, 9, 3)]));
    let full = ComponentStyle { justify: Some(Justify::Right), ..sized(3, 6) };
    assert_eq!(render(vec![text(full, "ABC")]), with(&[(0, 0, 1), (0, 1, 2), (0, 2, 3)]));
}

#[test]
fn the_starting_row_is_reckoned() {
    assert_eq!(starting_row(None, 6, 1), 0);
    assert_eq!(starting_row(Some(Align::Top), 6, 1), 0);
    assert_eq!(starting_row(Some(Align::Absolute), 6, 1), 0);
    assert_eq!(starting_row(Some(Align::Center), 6, 1), 2);
    assert_eq!(starting_row(Some(Align::Justified), 6, 1), 3);
    assert_eq!(starting_row(Some(Align::Bottom), 6, 1), 5);
    assert_eq!(starting_row(Some(Align::Center), 6, 2), 2);
    assert_eq!(starting_row(Some(Align::Justified), 6, 2), 2);
    assert_eq!(starting_row(Some(Align::Bottom), 6, 6), 0);
    assert_eq!(starting_row(Some(Align::Bottom), 1, 3), 0);
    assert_eq!(starting_row(Some(Align::Justified), usize::MAX, 0), usize::MAX / 2 + 1);
}

#[test]
fn the_starting_column_is_reckoned() {
    assert_eq!(starting_col(None, 22, 2, 4), 0);
    assert_eq!(starting_col(Some(Justify::Left), 22, 2, 4), 0);
    assert_eq!(starting_col(Some(Justify::Center), 22, 2, 4), 10);
    assert_eq!(starting_col(Some(Justify::Center), 22, 3, 4), 9);
    assert_eq!(starting_col(Some(Justify::Right), 22, 2, 4), 20);
    assert_eq!(starting_col(Some(Justify::Justified), 22, 2, 4), 9);
    assert_eq!(starting_col(Some(Justify::Justified), 22, 2, 5), 8);
    assert_eq!(starting_col(Some(Justify::Right), 0, 1, 1), 0);
    assert_eq!(starting_col(Some(Justify::Center), 0, 1, 1), 0);
}

#[test]
fn components_follow_each_other_in_the_row() {
    let half = sized(11, 6);
    assert_eq!(
        render(vec![text(half, "AB"), text(half, "CD")]),
        with(&[(0, 0, 1), (0, 1, 2), (0, 11, 3), (0, 12, 4)])
    );
}

#[test]
fn a_component_that_does_not_fit_goes_below() {
    let part = sized(11, 2);
    assert_eq!(
        render(vec![text(part, "A"), text(part, "B"), text(part, "C"), text(part, "D")]),
        with(&[(0, 0, 1), (0, 11, 2), (2, 0, 3), (2, 11, 4)])
    );
    let tall = sized(11, 3);
    assert_eq!(
        render(vec![text(part, "A"), text(tall, "B"), text(part, "C")]),
        with(&[(0, 0, 1), (0, 11, 2), (3, 0, 3)])
    );
}

#[test]
fn a_component_below_the_board_is_dropped() {
    let half = sized(11, 6);
    assert_eq!(
        render(vec![text(half, "A"), text(half, "B"), text(half, "C")]),
        with(&[(0, 0, 1), (0, 11, 2)])
    );
}

#[test]
fn a_component_wider_than_the_board_is_cut() {
    let wide = sized(30, 6);
    let mut expected = blank();
    for col in 0..22 {
        expected[0][col] = (col + 1) as u8;
    }
    assert_eq!(render(vec![text(wide, "ABCDEFGHIJKLMNOPQRSTUVWXY")]), expected);
}

#[test]
fn a_position_places_a_component_whatever_the_flow() {
    let placed = at(5, 2, sized(4, 1));
    assert_eq!(render(vec![text(placed, "HI")]), with(&[(2, 5, 8), (2, 6, 9)]));
    assert_eq!(
        render(vec![text(sized(11, 1), "A"), text(placed, "HI"), text(sized(11, 1), "B")]),
        with(&[(0, 0, 1), (0, 11, 2), (2, 5, 8), (2, 6, 9)])
    );
}

#[test]
fn components_with_a_position_are_drawn_last() {
    let placed = at(0, 0, sized(1, 1));
    assert_eq!(render(vec![text(placed, "Z"), text(open(), "AB")]), with(&[(0, 0, 26), (0, 1, 2)]));
    assert_eq!(render(vec![text(open(), "AB"), text(placed, "Z")]), with(&[(0, 0, 26), (0, 1, 2)]));
    let other = at(0, 0, sized(1, 1));
    assert_eq!(render(vec![text(placed, "Z"), text(other, "Y")]), with(&[(0, 0, 25)]));
}

#[test]
fn content_beside_the_board_is_dropped() {
    assert_eq!(render(vec![text(at(21, 5, sized(5, 1)), "AB")]), with(&[(5, 21, 1)]));
    assert_eq!(render(vec![text(at(22, 0, sized(5, 1)), "AB")]), blank());
    assert_eq!(render(vec![text(at(0, 6, sized(5, 1)), "AB")]), blank());
    assert_eq!(render(vec![text(at(u32::MAX, u32::MAX, sized(5, 1)), "AB")]), blank());
    assert_eq!(render(vec![text(at(u32::MAX, 0, sized(u32::MAX, 1)), "AB")]), blank());
    assert_eq!(
        render(vec![text(at(0, 5, sized(5, 3)), "A\nB\nC")]),
        with(&[(5, 0, 1)])
    );
}

#[test]
fn rows_without_content_take_no_row_of_the_board() {
    assert_eq!(render(vec![text(open(), "A\n\nB")]), with(&[(0, 0, 1), (1, 0, 2)]));
}

#[test]
fn a_raw_component_takes_the_place_of_the_board() {
    let mut cells = blank();
    cells[3][4] = 63;
    cells[0][0] = 64;
    assert_eq!(render(vec![raw(open(), cells)]), cells);
    assert_eq!(render(vec![text(open(), "AB"), raw(open(), cells)]), cells);
    assert_eq!(render(vec![raw(at(5, 5, open()), cells)]), cells);
}

#[test]
fn text_is_drawn_over_a_raw_component() {
    let cells = [[65u8; 22]; 6];
    let mut expected = cells;
    expected[0][0] = 1;
    expected[0][1] = 2;
    assert_eq!(render(vec![raw(open(), cells), text(open(), "AB")]), expected);
}

#[test]
fn of_two_raw_components_the_later_is_seen() {
    let first = [[65u8; 22]; 6];
    let second = [[66u8; 22]; 6];
    assert_eq!(render(vec![raw(open(), first), raw(open(), second)]), second);
    assert_eq!(render(vec![raw(at(0, 0, open()), first), raw(open(), second)]), first);
}

#[test]
fn a_raw_component_moves_the_flow_to_its_place() {
    let cells = [[65u8; 22]; 6];
    let mut expected = cells;
    expected[1][0] = 2;
    assert_eq!(
        render(vec![text(sized(11, 1), "A"), raw(sized(20, 1), cells), text(sized(11, 1), "B")]),
        expected
    );
}

#[test]
fn an_empty_template_blanks_its_rectangle() {
    let cells = [[65u8; 22]; 6];
    let mut expected = cells;
    expected[0][0] = 0;
    expected[0][1] = 0;
    assert_eq!(render(vec![raw(open(), cells), text(sized(2, 1), "")]), expected);
    assert_eq!(render(vec![raw(open(), cells), text(open(), "")]), blank());
}

#[test]
fn properties_reach_the_templates_with_their_escapes_replaced() {
    let mut props = VbmlProps::new();
    props.insert("colour".to_string(), "{66}".to_string());
    props.insert("who".to_string(), "you".to_string());
    let document: Vbml<6, 22> = Vbml {
        props: Some(props),
        style: Some(VbmlStyle { height: Some(1), width: Some(1) }),
        components: vec![text(open(), "{{colour}} {{who}}{{nobody}}{37}")],
    };
    let board = document.parse().unwrap();
    assert_eq!(board.0, with(&[(0, 0, 66), (0, 2, 25), (0, 3, 15), (0, 4, 21), (0, 5, 37)]));
}

#[test]
fn the_texts_of_the_components_are_rendered_in_order() {
    let mut props = VbmlProps::new();
    props.insert("a".to_string(), "{1}".to_string());
    let document: Vbml<6, 22> = Vbml {
        props: Some(props),
        style: None,
        components: vec![text(open(), "x{{a}}"), raw(open(), blank()), text(open(), ""), text(open(), "{2}")],
    };
    assert_eq!(document.render_templates().unwrap(), vec!["xA", "", "", "B"]);
}

#[test]
fn components_are_drawn_with_the_texts_given() {
    let components = vec![text(sized(11, 1), "ignored"), raw(open(), [[65u8; 22]; 6]), text(at(20, 1, open()), "")];
    let texts = vec!["HI".to_string(), "unread".to_string(), "YOU".to_string()];
    let mut expected = [[65u8; 22]; 6];
    expected[1][20] = 25;
    expected[1][21] = 15;
    assert_eq!(compose(&components, &texts).0, expected);
    let flowing = vec![text(sized(11, 1), "ignored"), text(sized(11, 1), "ignored")];
    assert_eq!(
        compose(&flowing, &texts).0,
        with(&[(0, 0, 8), (0, 1, 9), (0, 11, 21), (0, 12, 14), (0, 13, 18), (0, 14, 5), (0, 15, 1), (0, 16, 4)])
    );
    let short = vec!["A".to_string()];
    assert_eq!(compose(&flowing, &short).0, with(&[(0, 0, 1)]));
    assert_eq!(compose(&flowing, &Vec::new()).0, blank());
}

#[test]
fn a_board_of_another_size_is_rendered() {
    let document: Vbml<2, 4> = Vbml {
        props: None,
        style: None,
        components: vec![VbmlComponent::Template(VbmlTemplateComponent {
            style: ComponentStyle { justify: Some(Justify::Right), align: Some(Align::Bottom), ..open() },
            template: "abc de".to_string(),
        })],
    };
    assert_eq!(document.parse().unwrap().0, [[0, 1, 2, 3], [0, 0, 4, 5]]);
}

#[test]
fn a_document_is_rendered_onto_a_raw_board() {
    let document: Vbml<6, 22> =
        Vbml { props: None, style: None, components: vec![text(open(), "HI {63}")] };
    let expected = with(&[(0, 0, 8), (0, 1, 9), (0, 3, 63)]);
    assert_eq!(document.to_board().unwrap(), expected);
    assert_eq!(document.parse().unwrap().0, expected);
    let raw: Cells = document.try_into().unwrap();
    assert_eq!(raw, expected);
    let other: Vbml<6, 22> = Vbml { props: None, style: None, components: vec![] };
    assert_eq!(<Cells as TryFrom<Vbml<6, 22>>>::try_from(other).unwrap(), blank());
}

#[test]
fn a_document_with_escapes_is_rendered_without_error() {
    let mut props = VbmlProps::new();
    props.insert("a".to_string(), "{1}{".to_string());
    let document: Vbml<6, 22> = Vbml {
        props: Some(props),
        style: None,
        components: vec![text(open(), "{{a}}{2}{"), text(sized(1, 1), "{999}")],
    };
    assert!(document.render_templates().is_ok());
    assert!(document.parse().is_ok());
    assert!(document.to_board().is_ok());
    assert_eq!(document.render_templates().unwrap(), vec!["A{B{", " "]);
}

#[test]
fn every_row_justified_to_the_right_ends_in_the_last_column() {
    for width in 1..=22u32 {
        let style = ComponentStyle { justify: Some(Justify::Right), align: Some(Align::Center), ..sized(width, 6) };
        let board = render(vec![text(style, "AB CDE\nF")]);
        let width = width as usize;
        for row in board.iter() {
            let written: Vec<usize> = (0..22).filter(|col| row[*col] != 0).collect();
            if let Some(last) = written.last() {
                assert_eq!(*last, width - 1);
            }
            for col in width..22 {
                assert_eq!(row[col], 0);
            }
        }
    }
}
