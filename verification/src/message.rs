//! A chat message.

use vstd::prelude::*;

verus! {

/// A message on a channel, with the action it asks for and its time.
#[derive(Debug)]
pub struct Message {
    pub action: String,
    pub channel: String,
    pub message: String,
    pub time: String,
}

} // verus!
