//! One generation on a terminal.

use vstd::prelude::*;

use crate::engine::Message;

verus! {

/// What is asked from the command line: the prompt, after a system message if
/// there is one.
pub fn conversation(system: Option<String>, prompt: String) -> (messages: Vec<Message>)
    ensures
        match system {
            Some(system) => {
                &&& messages@.len() == 2
                &&& messages@[0].role@ == "system"@
                &&& messages@[0].content@ == system@
                &&& messages@[1].role@ == "user"@
                &&& messages@[1].content@ == prompt@
            },
            None => {
                &&& messages@.len() == 1
                &&& messages@[0].role@ == "user"@
                &&& messages@[0].content@ == prompt@
            },
        },
{
    let mut messages: Vec<Message> = Vec::new();
    if let Some(system) = system {
        messages.push(Message::system(system.as_str()));
    }
    messages.push(Message::user(prompt.as_str()));
    messages
}

/// Counts the pieces of a generation, and cancels it after so many.
#[derive(Debug, Clone, Copy, PartialEq, Eq, Structural)]
pub struct Tally {
    pub seen: u32,
    pub cancel_after: Option<u32>,
}

impl Tally {
    pub fn new(cancel_after: Option<u32>) -> (tally: Tally)
        ensures
            tally == (Tally { seen: 0, cancel_after }),
    {
        Tally { seen: 0, cancel_after }
    }

    /// Count one more piece. Returns whether this is the one to cancel at.
    pub fn count(&mut self) -> (cancel: bool)
        requires
            old(self).seen < u32::MAX,
        ensures
            *final(self) == (Tally { seen: (old(self).seen + 1) as u32, ..*old(self) }),
            cancel == (old(self).cancel_after == Some((old(self).seen + 1) as u32)),
    {
        self.seen = self.seen + 1;
        match self.cancel_after {
            Some(limit) => limit == self.seen,
            None => false,
        }
    }
}

} // verus!
