//! Rendering of markup documents.
//!
//! A document is a list of components, each a text to lay out or a ready
//! board, with hints on where and how to place it. Rendering lays every
//! component out and draws them onto one board.

use vstd::prelude::*;
use vstd::std_specs::convert::TryFromSpecImpl;
use crate::board::BoardData;
use crate::vbml::wrap::{wrap, Wrapped};
use crate::board::{board_cells, filled_grid, Board};
use crate::pattern::{regex_compiles, string_views};

pub mod compose;
pub mod format;
pub mod wrap;

pub use format::{
    AbsolutePosition, Align, ComponentStyle, Justify, VbmlComponent, VbmlProps, VbmlRawComponent,
    VbmlStyle, VbmlTemplateComponent,
};

use compose::{
    composed, items_of, lemma_right_justified_row, lemma_single_text, lines_in,
    single_text_frame, start_row,
};
use format::{
    expanded, expanded_props, expansion_fails, has_brace, props_fail, props_view, rect_height,
    rect_width, TEMPLATE_PATTERN,
};

verus! {

/// A document: properties for its templates to refer to, a style, and the
/// components that make up the board.
#[derive(Debug, Clone)]
pub struct Vbml<const ROWS: usize, const COLS: usize> {
    /// The values that the templates refer to by name.
    pub props: Option<VbmlProps>,
    /// The style of the document. It is kept and has no effect.
    pub style: Option<VbmlStyle>,
    /// The components, in the order of the document.
    pub components: Vec<VbmlComponent<ROWS, COLS>>,
}

/// The text of a component once its escapes are replaced. A raw component
/// has none.
pub open spec fn component_text<const ROWS: usize, const COLS: usize>(
    component: VbmlComponent<ROWS, COLS>,
    props: Option<Map<Seq<char>, Seq<char>>>,
) -> Seq<char> {
    match component {
        VbmlComponent::Template(template) => expanded(TEMPLATE_PATTERN@, template.template@, props),
        VbmlComponent::Raw(_) => Seq::empty(),
    }
}

/// The component is a template that holds an opening brace.
pub open spec fn has_template_brace<const ROWS: usize, const COLS: usize>(
    component: VbmlComponent<ROWS, COLS>,
) -> bool {
    component matches VbmlComponent::Template(template) && has_brace(template.template@)
}

impl<const ROWS: usize, const COLS: usize> Vbml<ROWS, COLS> {
    /// The properties as the templates see them: with the character
    /// escapes in their values replaced.
    pub open spec fn template_props(self) -> Option<Map<Seq<char>, Seq<char>>> {
        match self.props {
            Some(props) => Some(expanded_props(props@)),
            None => None,
        }
    }

    /// The texts of the components, index by index.
    pub open spec fn texts(self) -> Seq<Seq<char>> {
        Seq::new(
            self.components@.len(),
            |i: int| component_text(self.components@[i], self.template_props()),
        )
    }

    /// The board that the document describes.
    pub open spec fn rendered(self) -> Seq<Seq<u8>> {
        composed(self.components@, self.texts())
    }

    /// The content of the component at index `k`, wrapped in its rectangle.
    pub open spec fn content(self, k: int) -> Wrapped {
        let style = self.components@[k].style();
        wrap(self.texts()[k], rect_height(style, ROWS as nat), rect_width(style, COLS as nat))
    }

    /// In a document of a single text that is placed in the flow, in a
    /// rectangle no wider than the board, a row of content that is
    /// justified to the right and no longer than the rectangle takes the
    /// last columns of the rectangle, in its order: it ends in the
    /// rectangle's last column. The other cells of its board row are
    /// blank.
    pub proof fn lemma_right_justified(self, i: int, r: int)
        requires
            self.components@.len() == 1,
            self.components@[0] is Template,
            self.components@[0].style().absolute_position is None,
            self.components@[0].style().justify == Some(Justify::Right),
            rect_width(self.components@[0].style(), COLS as nat) <= COLS,
            0 <= i < self.content(0).rows.len(),
            1 <= self.content(0).rows[i].len() <= rect_width(self.components@[0].style(), COLS as nat),
            r == start_row(
                self.components@[0].style().align,
                rect_height(self.components@[0].style(), ROWS as nat),
                self.content(0).height,
            ) + lines_in(self.content(0).rows, i),
            r < ROWS,
        ensures
            ({
                let width = rect_width(self.components@[0].style(), COLS as nat);
                let row = self.content(0).rows[i];
                forall|c: int|
                    0 <= c < COLS ==> #[trigger] self.rendered()[r][c] == (if width - row.len() <= c
                        < width {
                        row[c - (width - row.len())].code()
                    } else {
                        0
                    })
            }),
    {
        let component = self.components@[0];
        let style = component.style();
        let text = self.texts()[0];
        let items = items_of(self.components@, self.texts());
        let item = compose::item_of(component, text);
        assert(items =~= seq![item]);
        lemma_single_text(item, ROWS as nat, COLS as nat);
        let blank = filled_grid(ROWS as nat, COLS as nat, 0u8);
        let frame = single_text_frame(style, text, ROWS as nat, COLS as nat);
        lemma_right_justified_row(blank, self.content(0).rows, frame, i, r);
    }

    /// The escapes of the document cannot be replaced: the value of a
    /// property or a template has to be searched, and the pattern of its
    /// escapes does not compile.
    pub open spec fn fails(self) -> bool {
        ||| self.props matches Some(props) && props_fail(props.pairs())
        ||| !regex_compiles(TEMPLATE_PATTERN@) && exists|i: int|
            0 <= i < self.components@.len() && has_template_brace(#[trigger] self.components@[i])
    }

    /// Replaces the escapes in the properties and then in the templates,
    /// and returns the text of each component, index by index. The text of
    /// a raw component is empty.
    ///
    /// # Errors
    /// [`VbmlError::Regex`] if an opening brace stands in the value of a
    /// property or in a template, and the pattern of the escapes to look
    /// for there does not compile; and in no other case.
    pub fn render_templates(&self) -> (r: Result<Vec<String>, VbmlError>)
        ensures
            match r {
                Ok(texts) => !self.fails() && string_views(texts@) == self.texts(),
                Err(e) => e is Regex && self.fails(),
            },
    {
        let props = match &self.props {
            Some(props) => match props.replace_template() {
                Ok(replaced) => Some(replaced),
                Err(e) => {
                    return Err(e);
                },
            },
            None => None,
        };
        let props = props.as_ref();
        assert(props_view(props) == self.template_props());
        let mut texts: Vec<String> = Vec::new();
        let mut i: usize = 0;
        while i < self.components.len()
            invariant
                i <= self.components.len(),
                texts.len() == i,
                props_view(props) == self.template_props(),
                !(self.props matches Some(given) && props_fail(given.pairs())),
                forall|j: int|
                    0 <= j < i ==> (#[trigger] texts@[j])@ == component_text(
                        self.components@[j],
                        self.template_props(),
                    ),
                forall|j: int|
                    0 <= j < i ==> !(has_template_brace(#[trigger] self.components@[j])
                        && !regex_compiles(TEMPLATE_PATTERN@)),
            decreases self.components.len() - i,
        {
            let text = match &self.components[i] {
                VbmlComponent::Template(template) => match template.render(props) {
                    Ok(text) => text,
                    Err(e) => {
                        assert(has_template_brace(self.components@[i as int]));
                        return Err(e);
                    },
                },
                VbmlComponent::Raw(_) => String::new(),
            };
            texts.push(text);
            i += 1;
        }
        assert(string_views(texts@) =~= self.texts());
        Ok(texts)
    }

    /// Renders the document onto a board.
    ///
    /// The escapes in the properties and in the templates are replaced,
    /// every template is wrapped in its rectangle, and the components are
    /// drawn onto a blank board: first those in the flow, then those with a
    /// position of their own. A raw component takes the place of the whole
    /// board as drawn before it, so of several only the last is seen, with
    /// what is drawn after it. Content that falls outside the board is
    /// dropped.
    ///
    /// # Errors
    /// [`VbmlError::Regex`] if an opening brace stands in the value of a
    /// property or in a template, and the pattern of the escapes to look
    /// for there does not compile; and in no other case.
    pub fn parse(&self) -> (r: Result<BoardData<ROWS, COLS>, VbmlError>)
        ensures
            match r {
                Ok(board) => !self.fails() && board@ == self.rendered(),
                Err(e) => e is Regex && self.fails(),
            },
    {
        match self.render_templates() {
            Ok(texts) => Ok(compose::compose(&self.components, &texts)),
            Err(e) => Err(e),
        }
    }

    /// Renders the document onto a raw board, as [`Vbml::parse`] does onto
    /// a board.
    ///
    /// # Errors
    /// Those of [`Vbml::parse`], in the same cases.
    pub fn to_board(&self) -> (r: Result<Board<ROWS, COLS>, VbmlError>)
        ensures
            match r {
                Ok(cells) => !self.fails() && board_cells(cells) == self.rendered(),
                Err(e) => e is Regex && self.fails(),
            },
    {
        match self.parse() {
            Ok(board) => Ok(board.0),
            Err(e) => Err(e),
        }
    }
}

impl<const ROWS: usize, const COLS: usize> TryFrom<Vbml<ROWS, COLS>> for Board<ROWS, COLS> {
    type Error = VbmlError;

    /// Renders a document onto a raw board, as [`Vbml::to_board`] does.
    fn try_from(value: Vbml<ROWS, COLS>) -> (r: Result<Self, VbmlError>)
        ensures
            match r {
                Ok(cells) => !value.fails() && board_cells(cells) == value.rendered(),
                Err(e) => e is Regex && value.fails(),
            },
    {
        value.to_board()
    }
}

/// The result of the conversion is stated on `try_from` itself. It is no
/// function of the document in specifications, since its error holds what
/// `regex` said of the pattern.
impl<const ROWS: usize, const COLS: usize> TryFromSpecImpl<Vbml<ROWS, COLS>> for Board<ROWS, COLS> {
    open spec fn obeys_try_from_spec() -> bool {
        false
    }

    open spec fn try_from_spec(value: Vbml<ROWS, COLS>) -> Result<Self, VbmlError> {
        arbitrary()
    }
}

/// What can go wrong with a document.
#[derive(Debug)]
pub enum VbmlError {
    /// The text is no document.
    Deserialize(serde_json::Error),
    /// The document cannot be written as text.
    Serialize(serde_json::Error),
    /// A pattern of the template language could not be compiled.
    Regex(regex::Error),
}

/// The error with which `serde_json` refuses a text or a value.
#[verifier::external_type_specification]
#[verifier::external_body]
pub struct ExSerdeJsonError(serde_json::Error);

} // verus!
