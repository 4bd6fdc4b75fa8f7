//! A waiting line for a shared 3D printer, kept by a chat bot.
//!
//! Members of a workspace join the line, leave it and look at it by
//! mentioning the bot and naming a command. The line is first in, first
//! out; a member may hold several places, but while three or more people
//! wait nobody may join directly behind themselves.
//!
//! * [`user`]: who the members are and how they are shown.
//! * [`queue`]: the line and its rules.
//! * [`listing`]: the line as text for people.
//! * [`snapshot`]: the line as text for a backing store, and back.
//! * [`command`]: from a message to a change of the line and a reply.
//! * [`channel`]: finding the channel in which the bot speaks.
//! * [`text`] and [`decimal`]: the pieces of text handling that the others
//!   share.
//!
//! The library does no input or output. A caller that keeps the line in a
//! file reads the file, hands the text to [`queue::Queue::from_file`], and
//! writes the snapshot that a [`command::Response`] names.

pub mod channel;
pub mod command;
pub mod decimal;
pub mod listing;
pub mod queue;
pub mod snapshot;
pub mod text;
pub mod user;
