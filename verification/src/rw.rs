//! What the read/write service says of a board.

use vstd::prelude::*;
use crate::board::layout::{parse_text, Parsed};
use crate::board::{BoardData, BoardError};

verus! {

/// The message that a board shows, as the read/write service reports it.
#[derive(Debug, Clone)]
pub struct RWApiReadMessage<const ROWS: usize, const COLS: usize> {
    /// The text of the board, as the service sent it.
    pub layout: String,
    /// The id of the message.
    pub id: String,
    /// The board that the text describes.
    pub board: BoardData<ROWS, COLS>,
}

impl<const ROWS: usize, const COLS: usize> RWApiReadMessage<ROWS, COLS> {
    /// Makes a message of what the service sent: the text of the board is
    /// read, and kept beside the board.
    ///
    /// # Errors
    /// Those of [`BoardData::from_str`], on the same texts.
    pub fn new(layout: String, id: String) -> (r: Result<Self, BoardError>)
        ensures
            match r {
                Ok(message) => {
                    &&& message.layout == layout
                    &&& message.id == id
                    &&& parse_text(layout@, ROWS as nat, COLS as nat) == Parsed::Board(message.board@)
                },
                Err(BoardError::InvalidChar(token)) => parse_text(layout@, ROWS as nat, COLS as nat)
                    == Parsed::InvalidChar(token@),
                Err(BoardError::TooManyRows) => parse_text(layout@, ROWS as nat, COLS as nat)
                    == Parsed::TooManyRows,
                Err(_) => false,
            },
    {
        match BoardData::from_str(layout.as_str()) {
            Ok(board) => Ok(RWApiReadMessage { layout, id, board }),
            Err(e) => Err(e),
        }
    }
}

} // verus!
