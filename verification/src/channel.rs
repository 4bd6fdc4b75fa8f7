//! The channels of the workspace, as far as the bot needs them: to find
//! the one in which it speaks.

use crate::text::same_text;
use vstd::prelude::*;

verus! {

/// The channel in which the bot speaks unless it is told otherwise.
pub const CHANNEL: &'static str = "3d-printer-queue";

/// A channel as the workspace lists it. Either part may be missing.
#[derive(Debug)]
pub struct Channel {
    pub name: Option<String>,
    pub id: Option<String>,
}

/// Whether `channel` goes by `name`.
pub open spec fn is_named(channel: Channel, name: Seq<char>) -> bool {
    match channel.name {
        Some(own) => own@ == name,
        None => false,
    }
}

/// Whether `index` is the place of the first channel in `channels` that
/// goes by `name`.
pub open spec fn is_first_named(channels: Seq<Channel>, name: Seq<char>, index: int) -> bool {
    &&& 0 <= index < channels.len()
    &&& is_named(channels[index], name)
    &&& forall|before: int| 0 <= before < index ==> !is_named(#[trigger] channels[before], name)
}

/// The identifier of the first channel that goes by `name`. There is none
/// where no channel goes by that name, and none where the first one that
/// does has no identifier, whatever channels follow it.
pub fn find_channel_id<'c>(channels: &'c Vec<Channel>, name: &str) -> (found: Option<&'c String>)
    ensures
        match found {
            Some(id) => exists|index: int|
                is_first_named(channels@, name@, index) && channels@[index].id == Some(*id),
            None => forall|index: int|
                is_first_named(channels@, name@, index) ==> channels@[index].id is None,
        },
{
    let mut index: usize = 0;
    while index < channels.len()
        invariant
            index <= channels.len(),
            forall|before: int| 0 <= before < index ==> !is_named(#[trigger] channels@[before], name@),
        decreases channels.len() - index,
    {
        let named = match &channels[index].name {
            Some(own) => same_text(own.as_str(), name),
            None => false,
        };
        if named {
            assert(is_first_named(channels@, name@, index as int));
            assert forall|other: int| is_first_named(channels@, name@, other) implies other
                == index by {
                if other < index {
                } else if index < other {
                }
            }
            return match &channels[index].id {
                Some(id) => Some(id),
                None => None,
            };
        }
        index += 1;
    }
    None
}

} // verus!
