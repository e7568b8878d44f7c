use vestaboard::vbml::format::{
    contains_brace, escape_character, escape_replacement, expand, rectangle_height, rectangle_width,
    substitute, PROPS_PATTERN, TEMPLATE_PATTERN,
};
use vestaboard::vbml::{
    ComponentStyle, VbmlComponent, VbmlError, VbmlProps, VbmlRawComponent, VbmlTemplateComponent,
};
use vestaboard::board::BoardData;

fn props(entries: &[(&str, &str)]) -> VbmlProps {
    let mut props = VbmlProps::new();
    for (name, value) in entries {
        props.insert(name.to_string(), value.to_string());
    }
    props
}

fn render(template: &str, props: Option<&VbmlProps>) -> String {
    let component = VbmlTemplateComponent { style: ComponentStyle::default(), template: template.to_string() };
    component.render(props).unwrap()
}

#[test]
fn text_without_escapes_stays_as_it_is() {
    assert_eq!(render("HELLO WORLD", None), "HELLO WORLD");
    assert_eq!(render("", None), "");
    assert_eq!(render("a\nb  ", None), "a\nb  ");
}

#[test]
fn a_code_in_braces_becomes_its_character() {
    assert_eq!(render("{63}", None), "🟥");
    assert_eq!(render("{1}{2}{3}", None), "ABC");
    assert_eq!(render("x{0}y", None), "x y");
    assert_eq!(render("{62}C", None), "°C");
    assert_eq!(render("{100}", None), "\n");
    assert_eq!(render("{71}", None), "⬜");
    assert_eq!(render("{007}", None), "G");
}

#[test]
fn a_code_that_no_flap_has_becomes_a_space() {
    assert_eq!(render("a{43}b", None), "a b");
    assert_eq!(render("a{255}b", None), "a b");
    assert_eq!(render("a{256}b", None), "a b");
    assert_eq!(render("a{99999999999999999999}b", None), "a b");
}

#[test]
fn a_name_in_double_braces_becomes_its_value() {
    let values = props(&[("name", "BOB"), ("n2", "7")]);
    assert_eq!(render("HI {{name}}!", Some(&values)), "HI BOB!");
    assert_eq!(render("{{n2}}{{name}}{{n2}}", Some(&values)), "7BOB7");
}

#[test]
fn a_name_without_a_value_becomes_nothing() {
    let values = props(&[("name", "BOB")]);
    assert_eq!(render("a{{other}}b", Some(&values)), "ab");
    assert_eq!(render("a{{name}}b", None), "ab");
    assert_eq!(render("a{{Name}}b", Some(&values)), "ab");
    assert_eq!(render("{{1}}", None), "");
}

#[test]
fn what_is_no_escape_stays_as_it_is() {
    assert_eq!(render("{abc}", None), "{abc}");
    assert_eq!(render("{", None), "{");
    assert_eq!(render("}", None), "}");
    assert_eq!(render("{}", None), "{}");
    assert_eq!(render("{{}}", None), "{{}}");
    assert_eq!(render("{{na me}}", None), "{{na me}}");
    assert_eq!(render("{ 1}", None), "{ 1}");
    assert_eq!(render("{1", None), "{1");
    assert_eq!(render("{{name}", None), "{{name}");
}

#[test]
fn escapes_are_found_inside_other_text() {
    let values = props(&[("x", "VAL")]);
    assert_eq!(render("a{1}b{{x}}c", Some(&values)), "aAbVALc");
    assert_eq!(render("{{{1}}}", None), "{}");
    assert_eq!(render("{ {1} }", None), "{ A }");
    assert_eq!(render("{{{x}}}", Some(&values)), "{VAL}");
}

#[test]
fn a_value_is_not_searched_again() {
    let values = props(&[("x", "{1}"), ("y", "{{x}}")]);
    assert_eq!(render("{{x}}", Some(&values)), "{1}");
    assert_eq!(render("{{y}}", Some(&values)), "{{x}}");
}

#[test]
fn the_later_value_of_a_name_counts() {
    let mut values = props(&[("a", "1"), ("b", "2")]);
    values.insert("a".to_string(), "3".to_string());
    assert_eq!(values.get("a").map(|v| v.as_str()), Some("3"));
    assert_eq!(values.get("b").map(|v| v.as_str()), Some("2"));
    assert_eq!(values.get("c"), None);
    assert_eq!(render("{{a}}{{b}}", Some(&values)), "32");
}

#[test]
fn properties_are_empty_until_one_is_set() {
    let mut values = VbmlProps::new();
    assert!(values.is_empty());
    assert_eq!(values.get("a"), None);
    values.insert("a".to_string(), "".to_string());
    assert!(!values.is_empty());
    assert_eq!(values.get("a").map(|v| v.as_str()), Some(""));
    values.insert("a".to_string(), "x".to_string());
    assert_eq!(
        values.entries(),
        &vec![("a".to_string(), "".to_string()), ("a".to_string(), "x".to_string())]
    );
}

#[test]
fn character_escapes_in_values_are_replaced() {
    let values = props(&[("a", "x{63}y"), ("b", "plain"), ("c", "{{a}}{1}"), ("d", "")]);
    let replaced = values.replace_template().unwrap();
    assert_eq!(replaced.get("a").map(|v| v.as_str()), Some("x🟥y"));
    assert_eq!(replaced.get("b").map(|v| v.as_str()), Some("plain"));
    assert_eq!(replaced.get("c").map(|v| v.as_str()), Some("{{a}}A"));
    assert_eq!(replaced.get("d").map(|v| v.as_str()), Some(""));
    assert_eq!(replaced.get("e"), None);
    assert!(VbmlProps::new().replace_template().unwrap().is_empty());
}

#[test]
fn a_pattern_that_does_not_compile_is_an_error() {
    let r = expand("(", "te{xt", None);
    assert!(matches!(r, Err(VbmlError::Regex(_))));
    let values = props(&[("a", "b")]);
    let with_props = expand("[", "{", Some(&values));
    assert!(matches!(with_props, Err(VbmlError::Regex(_))));
}

#[test]
fn a_text_without_a_brace_is_not_searched() {
    assert_eq!(expand("(", "text", None).unwrap(), "text");
    assert_eq!(expand("(", "", None).unwrap(), "");
    assert_eq!(expand("x", "axbxc", None).unwrap(), "axbxc");
    assert_eq!(expand("x", "axbxc}", None).unwrap(), "axbxc}");
    assert!(!contains_brace("axbxc}"));
    assert!(!contains_brace(""));
    assert!(contains_brace("{"));
    assert!(contains_brace("ab{c"));
    assert!(contains_brace("🟥{"));
}

#[test]
fn escapes_are_replaced_by_pattern() {
    assert_eq!(expand(PROPS_PATTERN, "a{1}{{b}}", None).unwrap(), "aA{{b}}");
    let values = props(&[("b", "Z")]);
    assert_eq!(expand(TEMPLATE_PATTERN, "a{1}{{b}}", Some(&values)).unwrap(), "aAZ");
    assert_eq!(expand("x", "{axbxc", None).unwrap(), "{abc");
    assert_eq!(expand("(b)|(c)", "{abcd", Some(&values)).unwrap(), "{a d");
    assert_eq!(expand("(c)|(b)", "{abcd", Some(&values)).unwrap(), "{aZ d");
}

#[test]
fn digits_stand_for_a_character() {
    assert_eq!(escape_character("63"), '🟥');
    assert_eq!(escape_character("1"), 'A');
    assert_eq!(escape_character("999"), ' ');
    assert_eq!(escape_character(""), ' ');
    assert_eq!(escape_character("٣"), ' ');
}

#[test]
fn an_escape_is_replaced_by_what_it_holds() {
    let values = props(&[("n", "Z")]);
    assert_eq!(escape_replacement(&(Some("2".to_string()), None), None), "B");
    assert_eq!(escape_replacement(&(Some("2".to_string()), Some("n".to_string())), Some(&values)), "B");
    assert_eq!(escape_replacement(&(None, Some("n".to_string())), Some(&values)), "Z");
    assert_eq!(escape_replacement(&(None, Some("m".to_string())), Some(&values)), "");
    assert_eq!(escape_replacement(&(None, Some("n".to_string())), None), "");
    assert_eq!(escape_replacement(&(None, None), Some(&values)), "");
}

#[test]
fn a_text_is_put_together_from_its_parts() {
    let values = props(&[("n", "Z")]);
    let parts = vec!["a".to_string(), "b".to_string(), "c".to_string()];
    let found = vec![(Some("1".to_string()), None), (None, Some("n".to_string()))];
    assert_eq!(substitute(&parts, &found, Some(&values)), "aAbZc");
    assert_eq!(substitute(&parts, &found, None), "aAbc");
    assert_eq!(substitute(&parts, &Vec::new(), None), "abc");
    assert_eq!(substitute(&parts, &found[..1].to_vec(), None), "aAbc");
    assert_eq!(substitute(&Vec::new(), &found, None), "");
    assert_eq!(substitute(&parts[..1].to_vec(), &found, None), "a");
}

#[test]
fn a_rectangle_is_as_large_as_the_board_unless_the_style_says_so() {
    let open = ComponentStyle::default();
    assert_eq!(rectangle_height(&open, 6), 6);
    assert_eq!(rectangle_width(&open, 22), 22);
    let sized = ComponentStyle { height: Some(2), width: Some(30), ..open };
    assert_eq!(rectangle_height(&sized, 6), 2);
    assert_eq!(rectangle_width(&sized, 22), 30);
}

#[test]
fn the_default_style_leaves_everything_open() {
    let style = ComponentStyle::default();
    assert!(style.justify.is_none());
    assert!(style.align.is_none());
    assert!(style.height.is_none());
    assert!(style.width.is_none());
    assert!(style.absolute_position.is_none());
}

#[test]
fn a_component_has_cells_or_a_template() {
    let style = ComponentStyle { width: Some(3), ..ComponentStyle::default() };
    let cells: BoardData<1, 2> = BoardData([[1, 2]]);
    let raw = VbmlComponent::from_parts(style, Some(cells), None);
    assert!(matches!(raw, Some(VbmlComponent::Raw(ref r)) if r.raw_characters == cells && r.style == style));
    let text: Option<VbmlComponent<1, 2>> = VbmlComponent::from_parts(style, None, Some("hi".to_string()));
    assert!(matches!(text, Some(VbmlComponent::Template(ref t)) if t.template == "hi" && t.style == style));
    let both = VbmlComponent::from_parts(style, Some(cells), Some("hi".to_string()));
    assert!(both.is_none());
    let neither: Option<VbmlComponent<1, 2>> = VbmlComponent::from_parts(style, None, None);
    assert!(neither.is_none());
}

#[test]
fn the_style_of_either_kind_is_found() {
    let style = ComponentStyle { height: Some(4), ..ComponentStyle::default() };
    let raw: VbmlComponent<1, 1> =
        VbmlComponent::Raw(VbmlRawComponent { style, raw_characters: BoardData([[0]]) });
    assert_eq!(*raw.get_style(), style);
    let text: VbmlComponent<1, 1> =
        VbmlComponent::Template(VbmlTemplateComponent { style, template: String::new() });
    assert_eq!(*text.get_style(), style);
}

#[test]
fn a_raw_component_has_no_word_rows() {
    let raw: VbmlComponent<6, 22> = VbmlComponent::Raw(VbmlRawComponent {
        style: ComponentStyle { height: Some(2), width: Some(3), ..ComponentStyle::default() },
        raw_characters: BoardData::default(),
    });
    let (height, width, rows) = raw.get_word_rows(None);
    assert_eq!((height, width), (6, 22));
    assert!(rows.is_none());
}

#[test]
fn a_template_is_rendered_and_wrapped() {
    let values = props(&[("who", "YOU")]);
    let text: VbmlComponent<6, 22> = VbmlComponent::Template(VbmlTemplateComponent {
        style: ComponentStyle { height: Some(2), width: Some(5), ..ComponentStyle::default() },
        template: "{{who}} {63}{64} X".to_string(),
    });
    let (height, widest, rows) = text.get_word_rows(Some(&values));
    let rows: Vec<Vec<u8>> =
        rows.unwrap().iter().map(|row| row.iter().map(|c| c.to_u8()).collect()).collect();
    assert_eq!((height, widest), (2, 5));
    assert_eq!(rows, vec![vec![25, 15, 21, 63, 64], vec![24]]);
}

#[test]
fn an_empty_template_fills_its_rectangle_with_blanks() {
    let text: VbmlComponent<6, 22> = VbmlComponent::Template(VbmlTemplateComponent {
        style: ComponentStyle::default(),
        template: String::new(),
    });
    let (height, widest, rows) = text.get_word_rows(None);
    assert_eq!((height, widest), (6, 22));
    let rows = rows.unwrap();
    assert_eq!(rows.len(), 6);
    for row in rows.iter() {
        assert_eq!(row.len(), 22);
        for code in row.iter() {
            assert_eq!(code.to_u8(), 0);
        }
    }
    let sized: VbmlComponent<6, 22> = VbmlComponent::Template(VbmlTemplateComponent {
        style: ComponentStyle { height: Some(2), width: Some(3), ..ComponentStyle::default() },
        template: String::new(),
    });
    let (height, widest, rows) = sized.get_word_rows(None);
    assert_eq!((height, widest), (2, 3));
    assert_eq!(rows.unwrap().iter().map(|r| r.len()).collect::<Vec<_>>(), vec![3, 3]);
}
