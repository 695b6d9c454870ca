//! A command that the server does not know.

use crate::frame::{Frame, FrameView};
use vstd::prelude::*;
use vstd::string::StringExecFns;

verus! {

/// A command whose name the server does not know.
#[derive(Debug)]
pub struct Unknown {
    command_name: String,
}

/// What an `Unknown` command is: the name that was sent.
pub struct UnknownView {
    pub command_name: Seq<char>,
}

impl View for Unknown {
    type V = UnknownView;

    closed spec fn view(&self) -> UnknownView {
        UnknownView { command_name: self.command_name@ }
    }
}

/// The reply to a command that is not known: an error frame that names it.
pub open spec fn unknown_response(name: Seq<char>) -> FrameView {
    FrameView::Error("unknown command: '"@ + name + "'"@)
}

impl Unknown {
    /// The unknown command of the name `value`.
    pub fn new(value: &str) -> (r: Unknown)
        ensures
            r@.command_name == value@,
    {
        Unknown { command_name: value.to_owned() }
    }

    /// The name that was sent.
    pub fn get_name(&self) -> (r: &str)
        ensures
            r@ == self@.command_name,
    {
        self.command_name.as_str()
    }

    /// Returns the reply, which says that the command is not known.
    pub fn apply(self) -> (response: Frame)
        ensures
            response@ == unknown_response(self@.command_name),
    {
        let mut text = "unknown command: '".to_owned();
        text.append(self.command_name.as_str());
        text.append("'");
        Frame::Error(text)
    }
}

} // verus!
