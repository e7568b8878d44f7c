use vestaboard::board::BoardData;
use vestaboard::vbml::{
    AbsolutePosition, ComponentStyle, Vbml, VbmlComponent, VbmlProps, VbmlTemplateComponent,
};

fn style() -> ComponentStyle {
    ComponentStyle::default()
}

fn template(style: ComponentStyle, text: &str) -> VbmlComponent<6, 22> {
    VbmlComponent::Template(VbmlTemplateComponent { style, template: text.to_string() })
}

fn document(components: Vec<VbmlComponent<6, 22>>) -> Vbml<6, 22> {
    Vbml { props: None, style: None, components }
}

#[test]
fn hello_is_written_from_the_top_left() {
    let board = document(vec![template(style(), "HELLO")]).parse().unwrap();
    let mut expected = [[0u8; 22]; 6];
    expected[0][0] = 8;
    expected[0][1] = 5;
    expected[0][2] = 12;
    expected[0][3] = 12;
    expected[0][4] = 15;
    assert_eq!(board.0, expected);
}

#[test]
fn second_half_width_component_starts_at_column_eleven() {
    let half = ComponentStyle { width: Some(11), ..style() };
    let board = document(vec![template(half, "AB"), template(half, "CD")]).parse().unwrap();
    let mut expected = [[0u8; 22]; 6];
    expected[0][0] = 1;
    expected[0][1] = 2;
    expected[0][11] = 3;
    expected[0][12] = 4;
    assert_eq!(board.0, expected);
}

#[test]
fn absolute_position_ignores_the_flow() {
    let placed = ComponentStyle {
        absolute_position: Some(AbsolutePosition { x: 5, y: 2 }),
        width: Some(4),
        height: Some(1),
        ..style()
    };
    let board = document(vec![template(placed, "HI"), template(style(), "A")]).parse().unwrap();
    let mut expected = [[0u8; 22]; 6];
    expected[0][0] = 1;
    expected[2][5] = 8;
    expected[2][6] = 9;
    assert_eq!(board.0, expected);
}

#[test]
fn colour_escape_gives_one_cell() {
    let board = document(vec![template(style(), "{63}")]).parse().unwrap();
    let mut expected = [[0u8; 22]; 6];
    expected[0][0] = 63;
    assert_eq!(board.0, expected);
}

#[test]
fn property_is_substituted() {
    let mut props = VbmlProps::new();
    props.insert("name".to_string(), "BOB{66}".to_string());
    let doc: Vbml<6, 22> = Vbml {
        props: Some(props),
        style: None,
        components: vec![template(style(), "HI {{name}}!{{none}}{1}")],
    };
    let board = doc.parse().unwrap();
    let mut expected = [[0u8; 22]; 6];
    let codes = [8u8, 9, 0, 2, 15, 2, 66, 37, 1];
    for (i, code) in codes.iter().enumerate() {
        expected[0][i] = *code;
    }
    assert_eq!(board.0, expected);
    assert_eq!(board, BoardData(expected));
}
