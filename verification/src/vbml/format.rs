//! The parts of a markup document: styles, properties and components.

use vstd::prelude::*;
use vstd::string::StringExecFns;
use crate::board::character::{char_of_code, code_to_char, CharacterCode};
use crate::board::layout::{parse_token, token_value};
use crate::board::BoardData;
use crate::pattern::{
    group_views, option_view, regex_compiles, regex_groups, regex_split, search, string_views,
};
use crate::text::{chars_of, string_from_chars, views};
use crate::vbml::wrap::{wrap, wrap_text, Wrapped};
use crate::vbml::VbmlError;

verus! {

/// The pattern of a character escape: a code in braces, as in `{63}`.
pub const PROPS_PATTERN: &'static str = "\\{(\\d+)\\}";

/// The pattern of an escape in a template: a character escape, or the name
/// of a property in double braces, as in `{{name}}`.
pub const TEMPLATE_PATTERN: &'static str = "\\{(\\d+)\\}|\\{\\{([A-Za-z0-9]+)\\}\\}";

/// The horizontal justification of a component.
#[derive(Debug, Clone, Copy, PartialEq, Eq, Structural)]
pub enum Justify {
    Center,
    Left,
    Right,
    Justified,
}

/// The vertical alignment of a component.
#[derive(Debug, Clone, Copy, PartialEq, Eq, Structural)]
pub enum Align {
    Center,
    Top,
    Bottom,
    Justified,
    Absolute,
}

/// The absolute position of a component: the column and row of its top
/// left cell.
#[derive(Debug, Clone, Copy, PartialEq, Eq, Structural)]
pub struct AbsolutePosition {
    pub x: u32,
    pub y: u32,
}

/// The style of a component.
#[derive(Debug, Clone, Copy, PartialEq, Eq, Structural)]
pub struct ComponentStyle {
    /// The horizontal justification of the content.
    pub justify: Option<Justify>,
    /// The vertical alignment of the content.
    pub align: Option<Align>,
    /// The height of the component, not of its content.
    pub height: Option<u32>,
    /// The width of the component, not of its content.
    pub width: Option<u32>,
    /// The absolute position of the component.
    pub absolute_position: Option<AbsolutePosition>,
}

impl Default for ComponentStyle {
    /// The style that leaves everything open.
    fn default() -> (style: Self)
        ensures
            style == (ComponentStyle {
                justify: None,
                align: None,
                height: None,
                width: None,
                absolute_position: None,
            }),
    {
        ComponentStyle { justify: None, align: None, height: None, width: None, absolute_position: None }
    }
}

/// The style of a document. It is kept and has no effect: the size of the
/// board is that of the type.
#[derive(Debug, Clone, Copy, PartialEq, Eq, Structural)]
pub struct VbmlStyle {
    pub height: Option<u32>,
    pub width: Option<u32>,
}

/// The character that a run of digits in an escape stands for: the one
/// that its code is written as, and a space where the digits are no code.
pub open spec fn escape_char(digits: Seq<char>) -> char {
    match token_value(digits) {
        Some(code) => char_of_code(code),
        None => ' ',
    }
}

/// The text that takes the place of an escape. A character escape gives
/// its character; a property escape gives the value of the property, and
/// nothing where there is no such property.
pub open spec fn escape_text(
    found: (Option<Seq<char>>, Option<Seq<char>>),
    props: Option<Map<Seq<char>, Seq<char>>>,
) -> Seq<char> {
    match found {
        (Some(digits), _) => seq![escape_char(digits)],
        (None, Some(name)) => match props {
            Some(values) => if values.contains_key(name) {
                values[name]
            } else {
                Seq::empty()
            },
            None => Seq::empty(),
        },
        (None, None) => Seq::empty(),
    }
}

/// The first `n` parts of a text with the escapes between them replaced.
/// The escape that follows the part at index `i` is the one at index `i`.
pub open spec fn woven(
    parts: Seq<Seq<char>>,
    found: Seq<(Option<Seq<char>>, Option<Seq<char>>)>,
    props: Option<Map<Seq<char>, Seq<char>>>,
    n: int,
) -> Seq<char>
    decreases n,
{
    if n <= 0 {
        Seq::empty()
    } else {
        let between = if 0 <= n - 2 < found.len() {
            escape_text(found[n - 2], props)
        } else {
            Seq::empty()
        };
        woven(parts, found, props, n - 1) + between + parts[n - 1]
    }
}

/// A text with its escapes replaced, given the parts between the escapes
/// and what each escape holds.
pub open spec fn substituted(
    parts: Seq<Seq<char>>,
    found: Seq<(Option<Seq<char>>, Option<Seq<char>>)>,
    props: Option<Map<Seq<char>, Seq<char>>>,
) -> Seq<char> {
    woven(parts, found, props, parts.len() as int)
}

/// The text holds an opening brace, with which every escape begins.
pub open spec fn has_brace(text: Seq<char>) -> bool {
    text.contains('{')
}

/// A text with the escapes that `pattern` finds in it replaced. An escape
/// begins with an opening brace: a text without one holds no escape and is
/// left as it is.
pub open spec fn expanded(
    pattern: Seq<char>,
    text: Seq<char>,
    props: Option<Map<Seq<char>, Seq<char>>>,
) -> Seq<char> {
    if has_brace(text) {
        substituted(regex_split(pattern, text), regex_groups(pattern, text), props)
    } else {
        text
    }
}

/// The escapes of `text` cannot be replaced: the text has to be searched
/// and the pattern does not compile.
pub open spec fn expansion_fails(pattern: Seq<char>, text: Seq<char>) -> bool {
    has_brace(text) && !regex_compiles(pattern)
}

/// The map that a list of names and values stands for. Where a name
/// occurs twice, its later value counts.
pub open spec fn pairs_map(pairs: Seq<(Seq<char>, Seq<char>)>) -> Map<Seq<char>, Seq<char>>
    decreases pairs.len(),
{
    if pairs.len() == 0 {
        Map::empty()
    } else {
        pairs_map(pairs.drop_last()).insert(pairs.last().0, pairs.last().1)
    }
}

/// The views of a name and its value.
pub open spec fn pair_view(entry: (String, String)) -> (Seq<char>, Seq<char>) {
    (entry.0@, entry.1@)
}

/// The views of a list of names and values.
pub open spec fn pair_views(entries: Seq<(String, String)>) -> Seq<(Seq<char>, Seq<char>)> {
    entries.map_values(|entry: (String, String)| pair_view(entry))
}

/// The properties of a document: values by name, for the templates to
/// refer to.
#[derive(Debug, Clone)]
pub struct VbmlProps {
    entries: Vec<(String, String)>,
}

impl View for VbmlProps {
    type V = Map<Seq<char>, Seq<char>>;

    open spec fn view(&self) -> Map<Seq<char>, Seq<char>> {
        pairs_map(self.pairs())
    }
}

/// The view of properties that may be missing.
pub open spec fn props_view(props: Option<&VbmlProps>) -> Option<Map<Seq<char>, Seq<char>>> {
    match props {
        Some(p) => Some(p@),
        None => None,
    }
}

impl VbmlProps {
    /// The names and values in the order in which they were set. A name
    /// that was set twice is listed twice.
    pub closed spec fn pairs(&self) -> Seq<(Seq<char>, Seq<char>)> {
        pair_views(self.entries@)
    }

    /// No properties.
    pub fn new() -> (props: Self)
        ensures
            props.pairs() == Seq::<(Seq<char>, Seq<char>)>::empty(),
            props@ == Map::<Seq<char>, Seq<char>>::empty(),
    {
        let props = VbmlProps { entries: Vec::new() };
        assert(props.pairs() =~= Seq::empty());
        props
    }

    /// Gives `name` the value `value`, in place of any value it had.
    pub fn insert(&mut self, name: String, value: String)
        ensures
            final(self).pairs() == old(self).pairs().push((name@, value@)),
            final(self)@ == old(self)@.insert(name@, value@),
    {
        self.entries.push((name, value));
        assert(self.pairs() =~= old(self).pairs().push((name@, value@)));
        assert(self.pairs().drop_last() =~= old(self).pairs());
    }

    /// The value of `name`, if it has one.
    pub fn get(&self, name: &str) -> (value: Option<&String>)
        ensures
            match value {
                Some(v) => self@.contains_key(name@) && v@ == self@[name@],
                None => !self@.contains_key(name@),
            },
    {
        let key = name.to_owned();
        let ghost pairs = self.pairs();
        let mut i: usize = self.entries.len();
        assert(pairs.take(i as int) =~= pairs);
        while i > 0
            invariant
                i <= self.entries.len(),
                key@ == name@,
                pairs == self.pairs(),
                self@.contains_key(name@) == pairs_map(pairs.take(i as int)).contains_key(name@),
                self@.contains_key(name@) ==> self@[name@] == pairs_map(pairs.take(i as int))[name@],
            decreases i,
        {
            i -= 1;
            proof {
                assert(pairs.take(i + 1).drop_last() =~= pairs.take(i as int));
                assert(pairs.take(i + 1).last() == pair_view(self.entries@[i as int]));
            }
            if self.entries[i].0 == key {
                return Some(&self.entries[i].1);
            }
        }
        None
    }

    /// The names and values in the order in which they were set. A name
    /// that was set twice is listed twice, and its later value counts.
    pub fn entries(&self) -> (entries: &Vec<(String, String)>)
        ensures
            pair_views(entries@) == self.pairs(),
    {
        &self.entries
    }

    /// Tells whether no property was ever set.
    pub fn is_empty(&self) -> (r: bool)
        ensures
            r == (self.pairs().len() == 0),
    {
        self.entries.len() == 0
    }
}

/// Mapping the values of a list of names and values maps the values of
/// the map that the list stands for.
pub proof fn lemma_pairs_map_values(
    pairs: Seq<(Seq<char>, Seq<char>)>,
    f: spec_fn(Seq<char>) -> Seq<char>,
)
    ensures
        pairs_map(with_values(pairs, f)) == pairs_map(pairs).map_values(f),
    decreases pairs.len(),
{
    if pairs.len() > 0 {
        lemma_pairs_map_values(pairs.drop_last(), f);
        assert(with_values(pairs, f).drop_last() =~= with_values(pairs.drop_last(), f));
    }
    assert(pairs_map(with_values(pairs, f)) =~= pairs_map(pairs).map_values(f));
}

/// A list of names and values with `f` applied to every value.
pub open spec fn with_values(
    pairs: Seq<(Seq<char>, Seq<char>)>,
    f: spec_fn(Seq<char>) -> Seq<char>,
) -> Seq<(Seq<char>, Seq<char>)> {
    pairs.map_values(|pair: (Seq<char>, Seq<char>)| (pair.0, f(pair.1)))
}

/// A value with its character escapes replaced.
pub open spec fn expanded_value(value: Seq<char>) -> Seq<char> {
    expanded(PROPS_PATTERN@, value, None)
}

/// The names and values with the character escapes in the values replaced.
pub open spec fn expanded_pairs(pairs: Seq<(Seq<char>, Seq<char>)>) -> Seq<(Seq<char>, Seq<char>)> {
    with_values(pairs, |value: Seq<char>| expanded_value(value))
}

/// One of the values holds an opening brace.
pub open spec fn some_value_has_brace(pairs: Seq<(Seq<char>, Seq<char>)>) -> bool {
    exists|i: int| 0 <= i < pairs.len() && has_brace((#[trigger] pairs[i]).1)
}

/// The character escapes in the values cannot be replaced: one of the
/// values has to be searched and the pattern of the escapes does not
/// compile.
pub open spec fn props_fail(pairs: Seq<(Seq<char>, Seq<char>)>) -> bool {
    some_value_has_brace(pairs) && !regex_compiles(PROPS_PATTERN@)
}

/// The properties with the character escapes in their values replaced.
pub open spec fn expanded_props(props: Map<Seq<char>, Seq<char>>) -> Map<Seq<char>, Seq<char>> {
    props.map_values(|value: Seq<char>| expanded_value(value))
}

/// The character that a run of digits in an escape stands for.
pub fn escape_character(digits: &str) -> (c: char)
    ensures
        c == escape_char(digits@),
{
    let chars = chars_of(digits);
    match parse_token(&chars) {
        Some(code) => code_to_char(code),
        None => ' ',
    }
}

/// The text that takes the place of an escape, given the digits or the
/// name that the escape holds.
pub fn escape_replacement(found: &(Option<String>, Option<String>), props: Option<&VbmlProps>) -> (text:
    String)
    ensures
        text@ == escape_text((option_view(found.0), option_view(found.1)), props_view(props)),
{
    match &found.0 {
        Some(digits) => {
            let mut chars: Vec<char> = Vec::new();
            chars.push(escape_character(digits.as_str()));
            assert(chars@ =~= seq![escape_char(digits@)]);
            string_from_chars(&chars)
        },
        None => {
            match (&found.1, props) {
                (Some(name), Some(values)) => {
                    match values.get(name.as_str()) {
                        Some(value) => value.clone(),
                        None => String::new(),
                    }
                },
                _ => String::new(),
            }
        },
    }
}

/// Puts a text together again from the parts between its escapes, with
/// each escape replaced. The escape that followed the part at index `i` is
/// the one at index `i`; an escape that follows no part is left out.
pub fn substitute(
    parts: &Vec<String>,
    found: &Vec<(Option<String>, Option<String>)>,
    props: Option<&VbmlProps>,
) -> (text: String)
    ensures
        text@ == substituted(string_views(parts@), group_views(found@), props_view(props)),
{
    let mut text = String::new();
    let mut i: usize = 0;
    while i < parts.len()
        invariant
            i <= parts.len(),
            text@ == woven(string_views(parts@), group_views(found@), props_view(props), i as int),
        decreases parts.len() - i,
    {
        if i >= 1 && i - 1 < found.len() {
            let fill = escape_replacement(&found[i - 1], props);
            text.append(fill.as_str());
        }
        text.append(parts[i].as_str());
        i += 1;
    }
    text
}

/// Tells whether a text holds an opening brace.
pub fn contains_brace(text: &str) -> (r: bool)
    ensures
        r == has_brace(text@),
{
    let mut found = false;
    let ghost mut seen: Seq<char> = Seq::empty();
    for c in it: text.chars()
        invariant
            it.seq() == text@,
            seen == text@.take(it.index() as int),
            found == has_brace(seen),
    {
        proof {
            let after = text@.take(it.index() + 1);
            assert(after =~= seen.push(c));
            if has_brace(seen) {
                let k = choose|k: int| 0 <= k < seen.len() && seen[k] == '{';
                assert(after[k] == '{');
            }
            if c == '{' {
                assert(after[after.len() - 1] == '{');
            }
            seen = after;
        }
        if c == '{' {
            found = true;
        }
    }
    assert(seen =~= text@);
    found
}

/// Replaces the escapes that `pattern` finds in `text`. An escape begins
/// with an opening brace: a text without one is not searched and is
/// returned as it is.
///
/// # Errors
/// [`VbmlError::Regex`] if the text is searched and the pattern does not
/// compile, and in no other case.
pub fn expand(pattern: &str, text: &str, props: Option<&VbmlProps>) -> (r: Result<String, VbmlError>)
    ensures
        match r {
            Ok(out) => !expansion_fails(pattern@, text@) && out@ == expanded(
                pattern@,
                text@,
                props_view(props),
            ),
            Err(e) => e is Regex && expansion_fails(pattern@, text@),
        },
{
    if !contains_brace(text) {
        return Ok(text.to_owned());
    }
    match search(pattern, text) {
        Ok(found) => Ok(substitute(&found.0, &found.1, props)),
        Err(e) => Err(VbmlError::Regex(e)),
    }
}

impl VbmlProps {
    /// Replaces the character escapes in the values of the properties, as
    /// in `{63}`, with the characters they stand for.
    ///
    /// # Errors
    /// [`VbmlError::Regex`] if a value holds an opening brace and the
    /// pattern of the escapes does not compile, and in no other case.
    pub fn replace_template(&self) -> (r: Result<VbmlProps, VbmlError>)
        ensures
            match r {
                Ok(props) => {
                    &&& !props_fail(self.pairs())
                    &&& props.pairs() == expanded_pairs(self.pairs())
                    &&& props@ == expanded_props(self@)
                },
                Err(e) => e is Regex && props_fail(self.pairs()),
            },
    {
        let mut entries: Vec<(String, String)> = Vec::new();
        let mut i: usize = 0;
        while i < self.entries.len()
            invariant
                i <= self.entries.len(),
                entries.len() == i,
                forall|j: int|
                    0 <= j < i ==> pair_view(#[trigger] entries@[j]) == (
                        self.entries@[j].0@,
                        expanded_value(self.entries@[j].1@),
                    ),
                forall|j: int|
                    0 <= j < i ==> !expansion_fails(PROPS_PATTERN@, (#[trigger] self.pairs()[j]).1),
            decreases self.entries.len() - i,
        {
            assert(self.pairs()[i as int].1 == self.entries@[i as int].1@);
            let value = match expand(PROPS_PATTERN, self.entries[i].1.as_str(), None) {
                Ok(value) => value,
                Err(e) => {
                    assert(has_brace(self.pairs()[i as int].1));
                    return Err(e);
                },
            };
            entries.push((self.entries[i].0.clone(), value));
            i += 1;
        }
        let props = VbmlProps { entries };
        proof {
            assert(props.pairs() =~= expanded_pairs(self.pairs()));
            lemma_pairs_map_values(self.pairs(), |value: Seq<char>| expanded_value(value));
        }
        Ok(props)
    }
}

/// A component that is a ready board. It is good for a background: where
/// it is rendered it takes the place of everything rendered before it.
#[derive(Debug, Clone, Copy)]
pub struct VbmlRawComponent<const ROWS: usize, const COLS: usize> {
    /// The style of the component.
    pub style: ComponentStyle,
    /// The cells of the board.
    pub raw_characters: BoardData<ROWS, COLS>,
}

/// A component that is a text to lay out. The text may hold escapes, which
/// are replaced before it is laid out.
#[derive(Debug, Clone)]
pub struct VbmlTemplateComponent {
    /// The style of the component.
    pub style: ComponentStyle,
    /// The text, with its escapes.
    pub template: String,
}

impl VbmlTemplateComponent {
    /// Replaces the escapes in the template: a code in braces with its
    /// character, a name in double braces with the value of that property.
    /// What is no escape stays as it is.
    ///
    /// # Errors
    /// [`VbmlError::Regex`] if the template holds an opening brace and the
    /// pattern of the escapes does not compile, and in no other case.
    pub fn render(&self, props: Option<&VbmlProps>) -> (r: Result<String, VbmlError>)
        ensures
            match r {
                Ok(text) => !expansion_fails(TEMPLATE_PATTERN@, self.template@) && text@ == expanded(
                    TEMPLATE_PATTERN@,
                    self.template@,
                    props_view(props),
                ),
                Err(e) => e is Regex && expansion_fails(TEMPLATE_PATTERN@, self.template@),
            },
    {
        expand(TEMPLATE_PATTERN, self.template.as_str(), props)
    }
}

/// The text of a template as it is laid out: the template with its
/// escapes replaced, and the empty text where they cannot be replaced.
pub open spec fn laid_out_text(template: Seq<char>, props: Option<Map<Seq<char>, Seq<char>>>) -> Seq<
    char,
> {
    if expansion_fails(TEMPLATE_PATTERN@, template) {
        Seq::empty()
    } else {
        expanded(TEMPLATE_PATTERN@, template, props)
    }
}

/// A component of a document: a ready board or a text to lay out.
#[derive(Debug, Clone)]
pub enum VbmlComponent<const ROWS: usize, const COLS: usize> {
    /// A component with cells and no template.
    Raw(VbmlRawComponent<ROWS, COLS>),
    /// A component with a template and no cells.
    Template(VbmlTemplateComponent),
}

/// The height of the rectangle of a component on a board of `rows` rows:
/// that of its style, and the board's where the style gives none.
pub open spec fn rect_height(style: ComponentStyle, rows: nat) -> nat {
    match style.height {
        Some(height) => height as nat,
        None => rows,
    }
}

/// The width of the rectangle of a component on a board of `cols`
/// columns: that of its style, and the board's where the style gives none.
pub open spec fn rect_width(style: ComponentStyle, cols: nat) -> nat {
    match style.width {
        Some(width) => width as nat,
        None => cols,
    }
}

/// The height of the rectangle of a component on a board of `rows` rows.
pub fn rectangle_height(style: &ComponentStyle, rows: usize) -> (height: usize)
    ensures
        height == rect_height(*style, rows as nat),
{
    match style.height {
        Some(height) => height as usize,
        None => rows,
    }
}

/// The width of the rectangle of a component on a board of `cols` columns.
pub fn rectangle_width(style: &ComponentStyle, cols: usize) -> (width: usize)
    ensures
        width == rect_width(*style, cols as nat),
{
    match style.width {
        Some(width) => width as usize,
        None => cols,
    }
}

impl<const ROWS: usize, const COLS: usize> VbmlComponent<ROWS, COLS> {
    /// The style of the component, of either kind.
    pub open spec fn style(self) -> ComponentStyle {
        match self {
            VbmlComponent::Raw(raw) => raw.style,
            VbmlComponent::Template(template) => template.style,
        }
    }

    /// Makes a component of what a document holds for it. A component has
    /// cells or a template: one that has both, or neither, is none.
    pub fn from_parts(
        style: ComponentStyle,
        raw_characters: Option<BoardData<ROWS, COLS>>,
        template: Option<String>,
    ) -> (component: Option<Self>)
        ensures
            component == match (raw_characters, template) {
                (Some(cells), None) => Some(
                    VbmlComponent::Raw(VbmlRawComponent { style, raw_characters: cells }),
                ),
                (None, Some(text)) => Some(
                    VbmlComponent::Template(VbmlTemplateComponent { style, template: text }),
                ),
                _ => None,
            },
    {
        match (raw_characters, template) {
            (Some(cells), None) => Some(
                VbmlComponent::Raw(VbmlRawComponent { style, raw_characters: cells }),
            ),
            (None, Some(text)) => Some(
                VbmlComponent::Template(VbmlTemplateComponent { style, template: text }),
            ),
            _ => None,
        }
    }

    /// The style of the component, of either kind.
    pub fn get_style(&self) -> (style: &ComponentStyle)
        ensures
            *style == self.style(),
    {
        match self {
            VbmlComponent::Raw(raw) => &raw.style,
            VbmlComponent::Template(template) => &template.style,
        }
    }

    /// Lays the component out in its rectangle and returns the height of
    /// its content, the length of its longest row, and the rows, one for
    /// each row of the rectangle.
    ///
    /// A template has its escapes replaced and is then wrapped; if the
    /// escapes cannot be replaced, because the pattern of the escapes does
    /// not compile, it is laid out as the empty text is. A raw component
    /// has no rows: the result holds the size of the board.
    pub fn get_word_rows(&self, props: Option<&VbmlProps>) -> (r: (
        usize,
        usize,
        Option<Vec<Vec<CharacterCode>>>,
    ))
        ensures
            match self {
                VbmlComponent::Raw(_) => r == (ROWS, COLS, None::<Vec<Vec<CharacterCode>>>),
                VbmlComponent::Template(template) => {
                    let height = rect_height(template.style, ROWS as nat);
                    let width = rect_width(template.style, COLS as nat);
                    let text = laid_out_text(template.template@, props_view(props));
                    &&& r.2 matches Some(rows)
                    &&& (Wrapped { height: r.0 as nat, widest: r.1 as nat, rows: views(rows@) }) == wrap(
                        text,
                        height,
                        width,
                    )
                    &&& rows.len() == height
                    &&& r.0 <= height
                    &&& width >= 1 ==> r.1 <= width
                    &&& forall|i: int| 0 <= i < height ==> (#[trigger] rows@[i]).len() <= r.1
                },
            },
    {
        match self {
            VbmlComponent::Template(template) => {
                let height = rectangle_height(&template.style, ROWS);
                let width = rectangle_width(&template.style, COLS);
                let text = match template.render(props) {
                    Ok(text) => text,
                    Err(_) => String::new(),
                };
                let (content_height, widest, rows) = wrap_text(text.as_str(), height, width);
                (content_height, widest, Some(rows))
            },
            VbmlComponent::Raw(_) => (ROWS, COLS, None),
        }
    }
}

} // verus!
