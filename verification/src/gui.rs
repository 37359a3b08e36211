//! Data the graphical client displays: a rendered message line.

use vstd::prelude::*;

verus! {

/// One displayed message: who sent it, when, and what it holds.
#[derive(Debug, Clone)]
pub struct Message {
    pub sender: String,
    pub date: String,
    pub content: String,
    pub is_image: bool,
}

impl Message {
    /// A plain informational line: only content, no sender and no date.
    pub fn just_content(content: String) -> (r: Self)
        ensures
            r.sender@.len() == 0,
            r.date@.len() == 0,
            r.content@ == content@,
            !r.is_image,
    {
        Message { sender: String::new(), date: String::new(), content, is_image: false }
    }
}

} // verus!
