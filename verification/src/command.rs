//! What the bot answers to a message, and what the message does to the
//! line.
//!
//! A message comes in through [`Queue::handle`], which passes over what
//! is not meant for the bot. The command word is what the message holds
//! behind the mention; `add`, `done`, `show` and `help` are commands, and
//! every other word is answered with the usage text.
//!
//! The line keeps no backing store itself. Where a command has changed
//! the line, the answer comes in two steps: the response names the snapshot
//! that is to be written, and the reply is made once the caller says how
//! the writing went.

use crate::listing::listing_text;
use crate::queue::{
    can_admit, first_position, lemma_first_position, line_after_join, line_after_leave, AddResult,
    Queue, RemoveResult,
};
use crate::snapshot::snapshot_text;
use crate::text::{
    chars_of, contains, contains_text, lemma_contains_behind, same_text, strip_prefixes,
    strip_prefixes_start, trim, trim_bounds,
};
use crate::user::{DisplayInfo, UserID};
use vstd::prelude::*;
use vstd::string::{StrSliceExecFns, StringExecFns};

verus! {

/// What the `help` command answers.
pub const USAGE: &'static str =
    "*Queue* is a :slack: bot that keeps track of who is waiting in line to use the \
3D printers. You interact with it by @mentioning it and then typing a command (e.g. `@Queue help`).\
Here are the different commands *Queue* currently recognizes:\n\n\
\u{2022} *add*: Add yourself to the queue. You can add yourself multiples times, in case there are multiple \
things you want to 3D print. However, you cannot have two back-to-back instances of yourself in the \
queue so that you let others get a chance. However, if the queue is relatively empty (and by relatively \
empty I mean less than 3 people in line), then you _can_ have back-to-back instances of yourself, since \
not as many people are being negatively affected by having back-to-back instances of yourself in the queue \
as they would be if there were more than 3 people in line.\n\
\u{2022} *done*: Leave the queue. If there are multiple instances of you in the queue, the _first_ instance \
(i.e. the one closest to the front) is removed. If you were in 0th place when you were removed, the \
person is 1st place is notified of this change.\n\
\u{2022} *show*: See who is in the queue and in what place.\n\
\u{2022} *help*: Display this message.";

/// What is said once, to the channel, when the bot comes up.
pub const INSPIRATIONAL_QUOTE: &'static str =
    "_Waiting in line is a great opportunity to meet people, daydream, or play._\n\t\u{2014}Patch Adams";

/// What a message asks for.
#[derive(Debug, Clone, Copy, PartialEq, Eq, Structural)]
pub enum Command {
    /// Join the line.
    Add,
    /// Leave the line.
    Done,
    /// Show the line.
    Show,
    /// Explain the commands.
    Help,
    /// Anything else.
    Unrecognized,
}

/// The lower-case form of a text, as `str::to_lowercase` gives it.
pub uninterp spec fn lowercase_of(text: Seq<char>) -> Seq<char>;

/// Calls `str::to_lowercase`, which gives the lower-case equivalent of a
/// text under the Unicode rules. Nothing here is proved of that function.
/// The contract claims one thing of it: the result depends on the text
/// alone, so that it can go by the name [`lowercase_of`].
#[verifier::external_body]
fn to_lowercase(text: &str) -> (lowered: String)
    ensures
        lowered@ == lowercase_of(text@),
{
    text.to_lowercase()
}

/// The command word of a message that has been put in lower case: what is
/// left once the mention, also in lower case, is taken off the start as
/// often as it stands there and the white space at both ends is dropped.
pub open spec fn command_word(lowered: Seq<char>, mention: Seq<char>) -> Seq<char> {
    trim(strip_prefixes(lowered, mention))
}

/// The command that `word` names.
pub open spec fn command_of(word: Seq<char>) -> Command {
    if word == "add"@ {
        Command::Add
    } else if word == "done"@ {
        Command::Done
    } else if word == "show"@ {
        Command::Show
    } else if word == "help"@ {
        Command::Help
    } else {
        Command::Unrecognized
    }
}

/// The reply to a member who has joined.
pub open spec fn added_reply(user: Seq<char>) -> Seq<char> {
    "Okay <@"@ + user + ">, I have added you to the queue."@
}

/// The reply to a member whom the admission rule has turned away.
pub open spec fn refused_reply(user: Seq<char>) -> Seq<char> {
    "<@"@ + user
        + ">, you cannot be added to the queue at this time. Please let others get a chance to wait in line before you go again."@
}

/// The reply to a member who has joined a line whose backing store could
/// not be brought up to date.
pub open spec fn stale_add_reply(user: Seq<char>, why: Seq<char>) -> Seq<char> {
    "Hi <@"@ + user
        + ">. You have been added to the queue, but this change has not been reflected in the backup file that stores the state of the queue. If it helps, the reason why is: "@
        + why
}

/// The reply to a member who has left place `index`. Where that was the
/// front, it goes on to say who is at the front now.
pub open spec fn removed_reply(user: Seq<char>, index: int, next: Option<Seq<char>>) -> Seq<char> {
    if index == 0 {
        "Okay <@"@ + user + ">, you have been removed from"@ + " the front of "@ + "the queue."@
            + match next {
            Some(next) => "\nHey <@"@ + next + ">! You're next in line!"@,
            None => "\nNobody is next in line!"@,
        }
    } else {
        "Okay <@"@ + user + ">, you have been removed from"@ + " "@ + "the queue."@
    }
}

/// The reply to a member who asked to leave and was not waiting.
pub open spec fn not_waiting_reply(user: Seq<char>) -> Seq<char> {
    "<@"@ + user + ">, you cannot be removed; you are not in the queue."@
}

/// The reply to a member who has left a line whose backing store could not
/// be brought up to date.
pub open spec fn stale_remove_reply(user: Seq<char>, why: Seq<char>) -> Seq<char> {
    "Hi <@"@ + user
        + ">. You were removed from the queue, but this change has not been reflected in the backup file that stores the state of the queue. If it helps, the reason why is: "@
        + why
}

/// The reply that shows the line.
pub open spec fn show_reply(line: Seq<Seq<char>>, directory: Map<Seq<char>, DisplayInfo>) -> Seq<
    char,
> {
    "Here are the people currently in line:\n"@ + listing_text(line, directory)
}

/// The reply to a command word that names no command: it says that the
/// word was not understood and goes on with [`USAGE`], which lists the
/// commands that are.
pub open spec fn unrecognized_reply(word: Seq<char>) -> Seq<char> {
    "Unrecognized command "@ + word + ".\n\n"@ + USAGE@
}

/// Whether `text` names every command: `add`, `done`, `show` and `help`.
pub open spec fn names_commands(text: Seq<char>) -> bool {
    &&& contains_text(text, "add"@)
    &&& contains_text(text, "done"@)
    &&& contains_text(text, "show"@)
    &&& contains_text(text, "help"@)
}

/// The reply that goes with `result`, for a member who asked to join.
pub open spec fn add_reply_text(user: Seq<char>, result: AddResult) -> Seq<char> {
    match result {
        AddResult::UserSuccessfullyAdded => added_reply(user),
        AddResult::UserNotAdded => refused_reply(user),
        AddResult::UserUnsuccessfullyAdded(why) => stale_add_reply(user, why@),
    }
}

/// The reply that goes with `result`, for a member who asked to leave a
/// line at whose front `next` stands now.
pub open spec fn done_reply_text(user: Seq<char>, result: RemoveResult, next: Option<Seq<char>>) -> Seq<
    char,
> {
    match result {
        RemoveResult::UserSuccessfullyRemoved(index) => removed_reply(user, index as int, next),
        RemoveResult::NonExistentUser => not_waiting_reply(user),
        RemoveResult::UserUnsuccessfullyRemoved(_, why) => stale_remove_reply(user, why@),
    }
}

/// Who stands at the front of `line`, if anyone.
pub open spec fn front_of(line: Seq<Seq<char>>) -> Option<Seq<char>> {
    if line.len() > 0 {
        Some(line[0])
    } else {
        None
    }
}

/// The line after the command that `word` names, given by `user`.
pub open spec fn line_after(line: Seq<Seq<char>>, word: Seq<char>, user: Seq<char>) -> Seq<
    Seq<char>,
> {
    match command_of(word) {
        Command::Add => line_after_join(line, user),
        Command::Done => line_after_leave(line, user),
        _ => line,
    }
}

/// Whether the command that `word` names, given by `user`, changes `line`.
pub open spec fn takes_effect(line: Seq<Seq<char>>, word: Seq<char>, user: Seq<char>) -> bool {
    match command_of(word) {
        Command::Add => can_admit(line, user),
        Command::Done => first_position(line, user) is Some,
        _ => false,
    }
}

/// The reply to the command that `word` names, given by `user` to `line`.
/// Where the command changes the line, the reply depends on `saved`: how
/// the writing of the new snapshot went.
pub open spec fn reply_to(
    line: Seq<Seq<char>>,
    directory: Map<Seq<char>, DisplayInfo>,
    word: Seq<char>,
    user: Seq<char>,
    saved: Result<(), Seq<char>>,
) -> Seq<char> {
    match command_of(word) {
        Command::Add => if can_admit(line, user) {
            match saved {
                Ok(_) => added_reply(user),
                Err(why) => stale_add_reply(user, why),
            }
        } else {
            refused_reply(user)
        },
        Command::Done => match first_position(line, user) {
            Some(index) => match saved {
                Ok(_) => removed_reply(user, index, front_of(line.remove(index))),
                Err(why) => stale_remove_reply(user, why),
            },
            None => not_waiting_reply(user),
        },
        Command::Show => show_reply(line, directory),
        Command::Help => USAGE@,
        Command::Unrecognized => unrecognized_reply(word),
    }
}

/// The usage text names every command.
pub proof fn lemma_usage_names_commands()
    ensures
        names_commands(USAGE@),
{
    reveal_strlit(
        "*Queue* is a :slack: bot that keeps track of who is waiting in line to use the \
3D printers. You interact with it by @mentioning it and then typing a command (e.g. `@Queue help`).\
Here are the different commands *Queue* currently recognizes:\n\n\
\u{2022} *add*: Add yourself to the queue. You can add yourself multiples times, in case there are multiple \
things you want to 3D print. However, you cannot have two back-to-back instances of yourself in the \
queue so that you let others get a chance. However, if the queue is relatively empty (and by relatively \
empty I mean less than 3 people in line), then you _can_ have back-to-back instances of yourself, since \
not as many people are being negatively affected by having back-to-back instances of yourself in the queue \
as they would be if there were more than 3 people in line.\n\
\u{2022} *done*: Leave the queue. If there are multiple instances of you in the queue, the _first_ instance \
(i.e. the one closest to the front) is removed. If you were in 0th place when you were removed, the \
person is 1st place is notified of this change.\n\
\u{2022} *show*: See who is in the queue and in what place.\n\
\u{2022} *help*: Display this message.",
    );
    reveal_strlit("add");
    reveal_strlit("done");
    reveal_strlit("show");
    reveal_strlit("help");
    assert("add"@.is_prefix_of(USAGE@.skip(244)));
    assert("done"@.is_prefix_of(USAGE@.skip(819)));
    assert("show"@.is_prefix_of(USAGE@.skip(1068)));
    assert("help"@.is_prefix_of(USAGE@.skip(1121)));
}

/// Whatever word was not understood, the reply to it ends with the usage
/// text and so names every command that would have been.
pub proof fn lemma_unrecognized_reply_lists_commands(word: Seq<char>)
    ensures
        USAGE@.is_suffix_of(unrecognized_reply(word)),
        contains_text(unrecognized_reply(word), USAGE@),
        names_commands(unrecognized_reply(word)),
{
    let front = "Unrecognized command "@ + word + ".\n\n"@;
    lemma_usage_names_commands();
    assert(USAGE@.is_prefix_of(USAGE@.skip(0)));
    lemma_contains_behind(front, USAGE@, USAGE@);
    lemma_contains_behind(front, USAGE@, "add"@);
    lemma_contains_behind(front, USAGE@, "done"@);
    lemma_contains_behind(front, USAGE@, "show"@);
    lemma_contains_behind(front, USAGE@, "help"@);
}

/// A command word that names no command changes nothing, asks for no
/// snapshot to be written, and is answered by a reply that holds the
/// usage text and so names every command, whoever sent it and whatever
/// the line holds.
pub proof fn lemma_unrecognized_command(
    line: Seq<Seq<char>>,
    directory: Map<Seq<char>, DisplayInfo>,
    word: Seq<char>,
    user: Seq<char>,
    saved: Result<(), Seq<char>>,
)
    requires
        command_of(word) == Command::Unrecognized,
    ensures
        line_after(line, word, user) == line,
        !takes_effect(line, word, user),
        reply_to(line, directory, word, user, saved) == unrecognized_reply(word),
        contains_text(reply_to(line, directory, word, user, saved), USAGE@),
        names_commands(reply_to(line, directory, word, user, saved)),
{
    lemma_unrecognized_reply_lists_commands(word);
}

/// A change to the line that waits for its snapshot to be written.
#[derive(Debug)]
pub enum Pending {
    /// This member has joined.
    Added(UserID),
    /// This member has left this place; the member after them, if any,
    /// stands at the front now.
    Removed(UserID, usize, Option<UserID>),
}

/// What the bot makes of a message.
#[derive(Debug)]
pub enum Response {
    /// The line is as it was, and this is the reply.
    Reply(String),
    /// The line has changed. The caller writes `snapshot` to the backing
    /// store and gets the reply from [`Pending::settle`].
    Persist { snapshot: String, pending: Pending },
}

/// How the writing of a snapshot went, as contracts speak of it.
pub open spec fn outcome_of(saved: Result<(), String>) -> Result<(), Seq<char>> {
    match saved {
        Ok(_) => Ok(()),
        Err(why) => Err(why@),
    }
}

impl Pending {
    /// Whether this is the change that the command `word`, given by `user`,
    /// makes to `line`.
    pub open spec fn is_change_to(self, line: Seq<Seq<char>>, word: Seq<char>, user: Seq<char>) -> bool {
        match self {
            Pending::Added(joined) => {
                &&& command_of(word) == Command::Add
                &&& can_admit(line, user)
                &&& joined@ == user
            },
            Pending::Removed(left, index, next) => {
                &&& command_of(word) == Command::Done
                &&& left@ == user
                &&& first_position(line, user) == Some(index as int)
                &&& front_of(line.remove(index as int)) == match next {
                    Some(next) => Some(next@),
                    None => None,
                }
            },
        }
    }

    /// The reply that this change gets once the writing has gone as
    /// `saved` says.
    pub open spec fn reply_text(self, saved: Result<(), Seq<char>>) -> Seq<char> {
        match self {
            Pending::Added(user) => match saved {
                Ok(_) => added_reply(user@),
                Err(why) => stale_add_reply(user@, why),
            },
            Pending::Removed(user, index, next) => match saved {
                Ok(_) => removed_reply(
                    user@,
                    index as int,
                    match next {
                        Some(next) => Some(next@),
                        None => None,
                    },
                ),
                Err(why) => stale_remove_reply(user@, why),
            },
        }
    }

    /// The reply to send, now that the writing has gone as `saved` says.
    pub fn settle(self, saved: Result<(), String>) -> (reply: String)
        ensures
            reply@ == self.reply_text(outcome_of(saved)),
    {
        match self {
            Pending::Added(user) => add_reply(&user, &AddResult::after_save(saved)),
            Pending::Removed(user, index, next) => {
                let result = RemoveResult::after_save(index, saved);
                match next {
                    Some(next) => done_reply(&user, &result, Some(&next)),
                    None => done_reply(&user, &result, None),
                }
            },
        }
    }
}

impl Response {
    /// The snapshot that is to be written, if the line has changed.
    pub open spec fn to_persist(self) -> Option<Seq<char>> {
        match self {
            Response::Reply(_) => None,
            Response::Persist { snapshot, pending } => Some(snapshot@),
        }
    }

    /// The reply that this response leads to once the writing, if there
    /// was any to do, has gone as `saved` says.
    pub open spec fn reply_text(self, saved: Result<(), Seq<char>>) -> Seq<char> {
        match self {
            Response::Reply(text) => text@,
            Response::Persist { snapshot, pending } => pending.reply_text(saved),
        }
    }

    /// Whether this is the response to the command that `word` names,
    /// given by `user` to `line` as `directory` shows it. Such a response
    /// names a snapshot to write exactly when the command changes the
    /// line, and then the snapshot of the line after the command; the
    /// change that waits is the one that the command makes; and however
    /// the writing goes, the reply is the one that [`reply_to`] gives.
    pub open spec fn answers(
        self,
        line: Seq<Seq<char>>,
        directory: Map<Seq<char>, DisplayInfo>,
        word: Seq<char>,
        user: Seq<char>,
    ) -> bool {
        &&& self.to_persist() == if takes_effect(line, word, user) {
            Some(snapshot_text(line_after(line, word, user)))
        } else {
            None
        }
        &&& (self matches Response::Persist { pending, .. } ==> pending.is_change_to(
            line,
            word,
            user,
        ))
        &&& forall|saved: Result<(), Seq<char>>| #[trigger]
            self.reply_text(saved) == reply_to(line, directory, word, user, saved)
    }
}

/// What becomes of a message that the workspace delivers.
#[derive(Debug)]
pub enum Handled {
    /// The message does not address the bot. Nothing is said.
    Ignored,
    /// The message addresses the bot, but nobody is known to have sent it.
    /// Nothing is said.
    NoAuthor,
    /// The message addresses the bot, and this is the response to it.
    Answered(Response),
}

/// The reply that goes with `result`, for `user` who asked to join.
pub fn add_reply(user: &UserID, result: &AddResult) -> (reply: String)
    ensures
        reply@ == add_reply_text(user@, *result),
{
    match result {
        AddResult::UserSuccessfullyAdded => {
            let mut reply = String::from_str("Okay <@");
            reply.append(user.as_str());
            reply.append(">, I have added you to the queue.");
            reply
        },
        AddResult::UserNotAdded => {
            let mut reply = String::from_str("<@");
            reply.append(user.as_str());
            reply.append(
                ">, you cannot be added to the queue at this time. Please let others get a chance to wait in line before you go again.",
            );
            reply
        },
        AddResult::UserUnsuccessfullyAdded(why) => {
            let mut reply = String::from_str("Hi <@");
            reply.append(user.as_str());
            reply.append(
                ">. You have been added to the queue, but this change has not been reflected in the backup file that stores the state of the queue. If it helps, the reason why is: ",
            );
            reply.append(why.as_str());
            reply
        },
    }
}

/// The reply that goes with `result`, for `user` who asked to leave a line
/// at whose front `next` stands now.
pub fn done_reply(user: &UserID, result: &RemoveResult, next: Option<&UserID>) -> (reply: String)
    ensures
        reply@ == done_reply_text(
            user@,
            *result,
            match next {
                Some(next) => Some(next@),
                None => None,
            },
        ),
{
    match result {
        RemoveResult::UserSuccessfullyRemoved(index) => {
            let mut reply = String::from_str("Okay <@");
            reply.append(user.as_str());
            reply.append(">, you have been removed from");
            if *index == 0 {
                reply.append(" the front of ");
            } else {
                reply.append(" ");
            }
            reply.append("the queue.");
            if *index == 0 {
                match next {
                    Some(next) => {
                        reply.append("\nHey <@");
                        reply.append(next.as_str());
                        reply.append(">! You're next in line!");
                    },
                    None => {
                        reply.append("\nNobody is next in line!");
                    },
                }
            }
            reply
        },
        RemoveResult::NonExistentUser => {
            let mut reply = String::from_str("<@");
            reply.append(user.as_str());
            reply.append(">, you cannot be removed; you are not in the queue.");
            reply
        },
        RemoveResult::UserUnsuccessfullyRemoved(_, why) => {
            let mut reply = String::from_str("Hi <@");
            reply.append(user.as_str());
            reply.append(
                ">. You were removed from the queue, but this change has not been reflected in the backup file that stores the state of the queue. If it helps, the reason why is: ",
            );
            reply.append(why.as_str());
            reply
        },
    }
}

/// The command word of the lower-case message `lowered`, for a bot whose
/// mention in lower case is `mention`; see [`command_word`].
pub fn command_word_of(lowered: &str, mention: &str) -> (word: String)
    ensures
        word@ == command_word(lowered@, mention@),
{
    let chars = chars_of(lowered);
    let prefix = chars_of(mention);
    let start = strip_prefixes_start(&chars, &prefix);
    let (from, to) = trim_bounds(&chars, start, chars.len());
    String::from_str(lowered.substring_char(from, to))
}

/// Decides [`command_of`].
pub fn parse_command(word: &str) -> (command: Command)
    ensures
        command == command_of(word@),
{
    if same_text(word, "add") {
        Command::Add
    } else if same_text(word, "done") {
        Command::Done
    } else if same_text(word, "show") {
        Command::Show
    } else if same_text(word, "help") {
        Command::Help
    } else {
        Command::Unrecognized
    }
}

impl<'a> Queue<'a> {
    /// Carries out the command that `word` names, given by `user`, and
    /// says what to answer. See [`line_after`], [`takes_effect`] and
    /// [`reply_to`].
    pub fn dispatch(&mut self, user: UserID, word: &str) -> (response: Response)
        ensures
            final(self)@ == line_after(old(self)@, word@, user@),
            final(self).directory() == old(self).directory(),
            final(self).mention() == old(self).mention(),
            response.answers(old(self)@, old(self).directory(), word@, user@),
    {
        match parse_command(word) {
            Command::Add => {
                let (user, result) = self.add_user(user);
                match result {
                    AddResult::UserNotAdded => Response::Reply(add_reply(&user, &result)),
                    _ => Response::Persist {
                        snapshot: self.snapshot(),
                        pending: Pending::Added(user),
                    },
                }
            },
            Command::Done => {
                proof {
                    lemma_first_position(self@, user@);
                }
                let (user, result) = self.remove_user(user);
                match result {
                    RemoveResult::UserSuccessfullyRemoved(index) => {
                        let next = match self.peek_first_user_in_line() {
                            Some(next) => Some(next.clone()),
                            None => None,
                        };
                        Response::Persist {
                            snapshot: self.snapshot(),
                            pending: Pending::Removed(user, index, next),
                        }
                    },
                    _ => Response::Reply(done_reply(&user, &result, None)),
                }
            },
            Command::Show => {
                let mut reply = String::from_str("Here are the people currently in line:\n");
                reply.append(self.render().as_str());
                Response::Reply(reply)
            },
            Command::Help => Response::Reply(String::from_str(USAGE)),
            Command::Unrecognized => {
                let mut reply = String::from_str("Unrecognized command ");
                reply.append(word);
                reply.append(".\n\n");
                reply.append(USAGE);
                Response::Reply(reply)
            },
        }
    }

    /// Answers the message `body` that `user` has sent. The command word is
    /// read from the message in lower case, so that neither the mention nor
    /// the command depends on how it was typed; see [`command_word`]. The
    /// rest is [`Queue::dispatch`].
    pub fn determine_response(&mut self, user: UserID, body: &str) -> (response: Response)
        ensures
            final(self)@ == line_after(
                old(self)@,
                command_word(lowercase_of(body@), lowercase_of(old(self).mention())),
                user@,
            ),
            final(self).directory() == old(self).directory(),
            final(self).mention() == old(self).mention(),
            response.answers(
                old(self)@,
                old(self).directory(),
                command_word(lowercase_of(body@), lowercase_of(old(self).mention())),
                user@,
            ),
    {
        let mention = to_lowercase(self.mention_text());
        let lowered = to_lowercase(body);
        let word = command_word_of(lowered.as_str(), mention.as_str());
        self.dispatch(user, word.as_str())
    }

    /// Whether `text` addresses the bot by the mention that this line
    /// answers to, wherever in `text` the mention stands.
    pub fn is_addressed(&self, text: &str) -> (addressed: bool)
        ensures
            addressed == contains_text(text@, self.mention()),
    {
        contains(&chars_of(text), &chars_of(self.mention_text()))
    }

    /// Takes a message with the text `text`, sent by `user` if anyone is
    /// known to have sent it. A message that does not address the bot is
    /// passed over, whoever sent it; see [`Queue::is_addressed`]. One that
    /// does and has no sender is left unanswered. Either way the line stays
    /// as it is. Every other message is answered as
    /// [`Queue::determine_response`] says.
    pub fn handle(&mut self, user: Option<UserID>, text: &str) -> (handled: Handled)
        ensures
            handled is Ignored <==> !contains_text(text@, old(self).mention()),
            handled is NoAuthor <==> contains_text(text@, old(self).mention()) && user is None,
            handled is Answered <==> contains_text(text@, old(self).mention()) && user is Some,
            !(handled is Answered) ==> final(self)@ == old(self)@,
            handled matches Handled::Answered(response) ==> final(self)@ == line_after(
                old(self)@,
                command_word(lowercase_of(text@), lowercase_of(old(self).mention())),
                user->0@,
            ) && response.answers(
                old(self)@,
                old(self).directory(),
                command_word(lowercase_of(text@), lowercase_of(old(self).mention())),
                user->0@,
            ),
            final(self).directory() == old(self).directory(),
            final(self).mention() == old(self).mention(),
    {
        if !self.is_addressed(text) {
            return Handled::Ignored;
        }
        match user {
            Some(user) => Handled::Answered(self.determine_response(user, text)),
            None => Handled::NoAuthor,
        }
    }
}

/// Whether `text` addresses the bot by [`crate::queue::QUEUE_UID`].
pub fn is_app_mention(text: &str) -> (mentioned: bool)
    ensures
        mentioned == contains_text(text@, crate::queue::QUEUE_UID@),
{
    contains(&chars_of(text), &chars_of(crate::queue::QUEUE_UID))
}

} // verus!
