//! A conversation turn, as the hooks receive it.
use crate::text::trim;
use crate::text::trimmed;
use vstd::prelude::*;
use vstd::string::*;

verus! {

/// One message of a user and the assistant's reply to it.
#[derive(Debug)]
pub struct Turn {
    pub user_msg: String,
    pub assistant_reply: String,
    pub sender: String,
}

/// The texts of a [`Turn`].
pub struct TurnView {
    pub user_msg: Seq<char>,
    pub assistant_reply: Seq<char>,
    pub sender: Seq<char>,
}

impl View for Turn {
    type V = TurnView;

    open spec fn view(&self) -> TurnView {
        TurnView {
            user_msg: self.user_msg@,
            assistant_reply: self.assistant_reply@,
            sender: self.sender@,
        }
    }
}

/// Whether the message or the reply of a turn is blank.
pub open spec fn turn_is_blank(turn: TurnView) -> bool {
    trimmed(turn.user_msg).len() == 0 || trimmed(turn.assistant_reply).len() == 0
}

impl Turn {
    /// Tests whether the message or the reply is blank.
    pub fn is_blank(&self) -> (blank: bool)
        ensures
            blank == turn_is_blank(self@),
    {
        trim(self.user_msg.as_str()).is_empty() || trim(self.assistant_reply.as_str()).is_empty()
    }
}

} // verus!
