use vstd::prelude::*;

verus! {

/// The screen that tells of an error: the error that it was given, if any.
#[derive(Debug)]
pub struct ErrScreenState {
    error: Option<String>,
}

impl ErrScreenState {
    /// The error that the screen was given, as text.
    pub closed spec fn error(&self) -> Option<Seq<char>> {
        match self.error {
            Some(error) => Some(error@),
            None => None,
        }
    }

    /// What the screen shows: the error, or a line that says that the error is unknown.
    pub open spec fn shown(&self) -> Seq<char> {
        match self.error() {
            Some(error) => error,
            None => "An unknown error occurred!"@,
        }
    }

    /// A screen without an error.
    pub fn new() -> (state: Self)
        ensures
            state.error().is_none(),
    {
        Self { error: None }
    }

    pub fn set_error(&mut self, error: String)
        ensures
            final(self).error() == Some(error@),
    {
        self.error = Some(error);
    }

    /// The number by which the stack of states knows this screen.
    pub fn get_state_id(&self) -> (id: u32)
        ensures
            id == 1,
    {
        1
    }

    pub fn is_cursor_visible(&self) -> (visible: bool)
        ensures
            visible,
    {
        true
    }

    /// What the screen shows.
    pub fn text(&self) -> (text: String)
        ensures
            text@ == self.shown(),
    {
        match &self.error {
            Some(error) => error.clone(),
            None => "An unknown error occurred!".to_owned(),
        }
    }
}

} // verus!
