//! The line as people read it: one numbered text line per place.

use crate::decimal::{decimal, push_decimal};
use crate::queue::Queue;
use crate::user::DisplayInfo;
use vstd::prelude::*;
use vstd::string::StringExecFns;

verus! {

/// The name under which `user` is shown: the real name that the directory
/// holds, and the token itself where it holds none.
pub open spec fn shown_name(directory: Map<Seq<char>, DisplayInfo>, user: Seq<char>) -> Seq<char> {
    if directory.contains_key(user) {
        match directory[user].real_name {
            Some(name) => name@,
            None => user,
        }
    } else {
        user
    }
}

/// The handle that is shown beside the name of `user`: the one that the
/// directory holds, unless it holds none or an empty one.
pub open spec fn shown_handle(directory: Map<Seq<char>, DisplayInfo>, user: Seq<char>) -> Option<
    Seq<char>,
> {
    if directory.contains_key(user) {
        match directory[user].handle {
            Some(handle) => if handle@.len() > 0 {
                Some(handle@)
            } else {
                None
            },
            None => None,
        }
    } else {
        None
    }
}

/// The text line for `place`: the place, the name, and the handle in
/// brackets where there is one.
pub open spec fn listing_line(place: nat, name: Seq<char>, handle: Option<Seq<char>>) -> Seq<
    char,
> {
    match handle {
        Some(handle) => decimal(place) + ". "@ + name + " ("@ + handle + ")\n"@,
        None => decimal(place) + ". "@ + name + "\n"@,
    }
}

/// The listing of `line`: the text lines of its places, front first.
pub open spec fn listing_text(line: Seq<Seq<char>>, directory: Map<Seq<char>, DisplayInfo>) -> Seq<
    char,
>
    decreases line.len(),
{
    if line.len() == 0 {
        Seq::empty()
    } else {
        listing_text(line.drop_last(), directory) + listing_line(
            (line.len() - 1) as nat,
            shown_name(directory, line.last()),
            shown_handle(directory, line.last()),
        )
    }
}

impl<'a> Queue<'a> {
    /// The listing of the line as it stands; see [`listing_text`].
    pub fn render(&self) -> (text: String)
        ensures
            text@ == listing_text(self@, self.directory()),
    {
        let mut text = String::new();
        let len = self.len();
        let mut place: usize = 0;
        while place < len
            invariant
                place <= len == self@.len(),
                text@ == listing_text(self@.take(place as int), self.directory()),
            decreases len - place,
        {
            let ghost before = text@;
            let ghost token = self@[place as int];
            push_decimal(&mut text, place);
            text.append(". ");
            match self.get(place) {
                Some(user) => {
                    let known = self.get_username_by_id(user);
                    match known {
                        Some(DisplayInfo { real_name: Some(name), handle: _ }) => {
                            text.append(name.as_str());
                        },
                        _ => {
                            text.append(user.as_str());
                        },
                    }
                    assert(text@ == before + decimal(place as nat) + ". "@ + shown_name(
                        self.directory(),
                        token,
                    ));
                    match known {
                        Some(DisplayInfo { real_name: _, handle: Some(handle) }) => {
                            if !handle.as_str().is_empty() {
                                text.append(" (");
                                text.append(handle.as_str());
                                text.append(")\n");
                            } else {
                                text.append("\n");
                            }
                        },
                        _ => {
                            text.append("\n");
                        },
                    }
                },
                None => {},
            }
            proof {
                let done = self@.take(place + 1);
                assert(done.drop_last() == self@.take(place as int));
                assert(done.last() == token);
                assert(text@ =~= before + listing_line(
                    place as nat,
                    shown_name(self.directory(), token),
                    shown_handle(self.directory(), token),
                ));
            }
            place += 1;
        }
        assert(self@.take(len as int) == self@);
        text
    }
}

} // verus!
