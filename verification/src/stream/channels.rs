//! Choosing among named channels.
use vstd::prelude::*;
use crate::graph::GraphError;
use crate::graph::strings_view;

verus! {

/// Picks one channel out of several.
pub trait ChannelSelector {
    /// The chosen channel's name.
    fn select(&mut self, channels: Vec<String>) -> Result<String, GraphError>;
}

/// The message when there is nothing to choose from.
pub open spec fn no_channels_message() -> Seq<char> {
    "No channels to select from"@
}

/// Takes the channels in turn.
pub struct RoundRobinSelector {
    index: usize,
}

impl RoundRobinSelector {
    /// How many selections were made.
    pub closed spec fn turn(&self) -> usize {
        self.index
    }

    /// A selector that has made no selection.
    pub fn new() -> (s: RoundRobinSelector)
        ensures
            s.turn() == 0,
    {
        RoundRobinSelector { index: 0 }
    }
}

impl ChannelSelector for RoundRobinSelector {
    /// The channel at the current turn, counted round the list; an error
    /// when the list is empty.
    fn select(&mut self, channels: Vec<String>) -> (r: Result<String, GraphError>)
        ensures
            channels@.len() == 0 ==> {
                &&& r matches Err(GraphError::EdgeError(m)) && m@ == no_channels_message()
                &&& final(self).turn() == old(self).turn()
            },
            channels@.len() > 0 ==> {
                &&& r matches Ok(c) && c@ == channels@[(old(self).turn() as int) % (channels@.len() as int)]@
                &&& final(self).turn() == (if old(self).turn() == usize::MAX {
                    0
                } else {
                    old(self).turn() + 1
                })
            },
    {
        if channels.len() == 0 {
            return Err(GraphError::EdgeError("No channels to select from".to_string()));
        }
        let selected = channels[self.index % channels.len()].clone();
        self.index = self.index.wrapping_add(1);
        Ok(selected)
    }
}

} // verus!
