//! The waiting line itself: who stands where, who may join, who leaves.

use crate::user::{DisplayInfo, UserDirectory, UserID};
use std::collections::VecDeque;
use vstd::prelude::*;
use vstd::string::StringExecFns;

verus! {

/// The mention that addresses the bot unless a queue is told otherwise.
pub const QUEUE_UID: &'static str = "<@U01A844Q2US>";

/// The admission rule: a member may join while fewer than three people
/// wait, and otherwise only if the last person in line is someone else.
pub open spec fn can_admit(line: Seq<Seq<char>>, user: Seq<char>) -> bool {
    line.len() < 3 || line.last() != user
}

/// Whether `index` is the place closest to the front at which `user` waits.
pub open spec fn is_first_position(line: Seq<Seq<char>>, user: Seq<char>, index: int) -> bool {
    &&& 0 <= index < line.len()
    &&& line[index] == user
    &&& forall|j: int| 0 <= j < index ==> line[j] != user
}

/// The place closest to the front at which `user` waits, if any.
pub open spec fn first_position(line: Seq<Seq<char>>, user: Seq<char>) -> Option<int> {
    if line.contains(user) {
        Some(choose|index: int| is_first_position(line, user, index))
    } else {
        None
    }
}

/// The line once `user` has asked to join it.
pub open spec fn line_after_join(line: Seq<Seq<char>>, user: Seq<char>) -> Seq<Seq<char>> {
    if can_admit(line, user) {
        line.push(user)
    } else {
        line
    }
}

/// The line once `user` has asked to leave it.
pub open spec fn line_after_leave(line: Seq<Seq<char>>, user: Seq<char>) -> Seq<Seq<char>> {
    match first_position(line, user) {
        Some(index) => line.remove(index),
        None => line,
    }
}

/// Someone who waits has exactly one first position, and
/// [`first_position`] names it.
pub proof fn lemma_first_position(line: Seq<Seq<char>>, user: Seq<char>)
    ensures
        match first_position(line, user) {
            Some(index) => is_first_position(line, user, index),
            None => forall|j: int| 0 <= j < line.len() ==> line[j] != user,
        },
        forall|index: int| #[trigger]
            is_first_position(line, user, index) ==> first_position(line, user) == Some(index),
{
    if line.contains(user) {
        let least = least_position(line, user, line.len() as int);
        assert(is_first_position(line, user, least));
        let chosen = choose|index: int| is_first_position(line, user, index);
        assert forall|index: int| #[trigger] is_first_position(line, user, index) implies index
            == chosen by {
            if index < chosen {
            } else if chosen < index {
            }
        }
    } else {
        assert forall|index: int| #[trigger] is_first_position(line, user, index) implies false by {
            assert(line[index] == user);
        }
    }
}

/// Walks back from `bound` to the least place at which `user` waits.
proof fn least_position(line: Seq<Seq<char>>, user: Seq<char>, bound: int) -> (least: int)
    requires
        0 <= bound <= line.len(),
        exists|i: int| 0 <= i < bound && line[i] == user,
    ensures
        is_first_position(line, user, least),
        least < bound,
    decreases bound,
{
    if exists|i: int| 0 <= i < bound - 1 && line[i] == user {
        least_position(line, user, bound - 1)
    } else {
        let i = choose|i: int| 0 <= i < bound && line[i] == user;
        assert(i == bound - 1);
        bound - 1
    }
}

/// What became of an attempt to join the line.
#[derive(Debug)]
pub enum AddResult {
    /// The member did not join: the admission rule asks them to let someone
    /// else go first. The line is as it was.
    UserNotAdded,
    /// The member joined at the back of the line.
    UserSuccessfullyAdded,
    /// The member joined at the back of the line, but the backing store
    /// could not be brought up to date; the text says why.
    UserUnsuccessfullyAdded(String),
}

/// What became of an attempt to leave the line.
#[derive(Debug)]
pub enum RemoveResult {
    /// The member was not waiting. The line is as it was.
    NonExistentUser,
    /// The member left; the number is the place they held, counted from 0 at
    /// the front.
    UserSuccessfullyRemoved(usize),
    /// The member left the place given, but the backing store could not be
    /// brought up to date; the text says why.
    UserUnsuccessfullyRemoved(usize, String),
}

impl AddResult {
    /// The result of a join that took place, once the outcome of writing
    /// the new snapshot is known.
    pub fn after_save(saved: Result<(), String>) -> (result: AddResult)
        ensures
            match saved {
                Ok(_) => result is UserSuccessfullyAdded,
                Err(why) => result == AddResult::UserUnsuccessfullyAdded(why),
            },
    {
        match saved {
            Ok(_) => AddResult::UserSuccessfullyAdded,
            Err(why) => AddResult::UserUnsuccessfullyAdded(why),
        }
    }
}

impl RemoveResult {
    /// The result of a departure from place `index` that took place, once
    /// the outcome of writing the new snapshot is known.
    pub fn after_save(index: usize, saved: Result<(), String>) -> (result: RemoveResult)
        ensures
            match saved {
                Ok(_) => result == RemoveResult::UserSuccessfullyRemoved(index),
                Err(why) => result == RemoveResult::UserUnsuccessfullyRemoved(index, why),
            },
    {
        match saved {
            Ok(_) => RemoveResult::UserSuccessfullyRemoved(index),
            Err(why) => RemoveResult::UserUnsuccessfullyRemoved(index, why),
        }
    }
}

/// The line of people waiting for the printer.
///
/// The view is the line from front to back, each entry the token of the
/// member who holds that place. A member may hold several places.
pub struct Queue<'a> {
    queue: VecDeque<UserID>,
    uid_username_mapping: &'a UserDirectory,
    mention: String,
}

impl<'a> View for Queue<'a> {
    type V = Seq<Seq<char>>;

    closed spec fn view(&self) -> Seq<Seq<char>> {
        self.queue@.map_values(|user: UserID| user@)
    }
}

impl<'a> Queue<'a> {
    /// The directory by which the line shows its members.
    pub closed spec fn directory(&self) -> Map<Seq<char>, DisplayInfo> {
        self.uid_username_mapping@
    }

    /// The mention by which messages address the bot.
    pub closed spec fn mention(&self) -> Seq<char> {
        self.mention@
    }

    /// An empty line that answers to [`QUEUE_UID`].
    pub fn new(uids_to_users: &'a UserDirectory) -> (queue: Self)
        ensures
            queue@ == Seq::<Seq<char>>::empty(),
            queue.directory() == uids_to_users@,
            queue.mention() == QUEUE_UID@,
    {
        let queue = Queue {
            queue: VecDeque::new(),
            uid_username_mapping: uids_to_users,
            mention: String::from_str(QUEUE_UID),
        };
        assert(queue@ =~= Seq::<Seq<char>>::empty());
        queue
    }

    /// The same line, answering to `mention` from now on.
    pub fn with_mention(self, mention: &str) -> (queue: Self)
        ensures
            queue@ == self@,
            queue.directory() == self.directory(),
            queue.mention() == mention@,
    {
        Queue {
            queue: self.queue,
            uid_username_mapping: self.uid_username_mapping,
            mention: String::from_str(mention),
        }
    }

    /// The mention by which messages address the bot.
    pub fn mention_text(&self) -> (mention: &str)
        ensures
            mention@ == self.mention(),
    {
        self.mention.as_str()
    }

    /// How many places are taken.
    pub fn len(&self) -> (len: usize)
        ensures
            len == self@.len(),
    {
        self.queue.len()
    }

    /// Whether nobody waits.
    pub fn is_empty(&self) -> (empty: bool)
        ensures
            empty == (self@.len() == 0),
    {
        self.queue.len() == 0
    }

    /// The member who holds place `index`, if the line is that long.
    pub fn get(&self, index: usize) -> (user: Option<&UserID>)
        ensures
            match user {
                Some(user) => index < self@.len() && user@ == self@[index as int],
                None => index >= self@.len(),
            },
    {
        if index < self.queue.len() {
            Some(&self.queue[index])
        } else {
            None
        }
    }

    /// Whether `user` may join now; see [`can_admit`].
    pub fn can_add(&self, user: &UserID) -> (admitted: bool)
        ensures
            admitted == can_admit(self@, user@),
    {
        let len = self.queue.len();
        len < 3 || self.queue[len - 1] != *user
    }

    /// Puts `user` at the back of the line if the admission rule allows it,
    /// and says whether it did.
    pub fn add_user_no_write(&mut self, user: UserID) -> (added: bool)
        ensures
            added == can_admit(old(self)@, user@),
            final(self)@ == line_after_join(old(self)@, user@),
            final(self).directory() == old(self).directory(),
            final(self).mention() == old(self).mention(),
    {
        if self.can_add(&user) {
            self.queue.push_back(user);
            assert(self@ =~= old(self)@.push(user@));
            true
        } else {
            false
        }
    }

    /// Lets `user` join if the admission rule allows it. The member comes
    /// back with the result, which is never
    /// [`AddResult::UserUnsuccessfullyAdded`]: the line keeps no backing
    /// store itself. Whoever keeps one writes [`Queue::snapshot`] after a
    /// join and turns the outcome into a result with
    /// [`AddResult::after_save`].
    pub fn add_user(&mut self, user: UserID) -> (outcome: (UserID, AddResult))
        ensures
            outcome.0@ == user@,
            final(self)@ == line_after_join(old(self)@, user@),
            can_admit(old(self)@, user@) ==> outcome.1 is UserSuccessfullyAdded,
            !can_admit(old(self)@, user@) ==> outcome.1 is UserNotAdded,
            final(self).directory() == old(self).directory(),
            final(self).mention() == old(self).mention(),
            outcome.1 is UserSuccessfullyAdded ==> (can_admit(final(self)@, user@) <==> final(self)@.len() < 3),
    {
        if self.add_user_no_write(user.clone()) {
            (user, AddResult::UserSuccessfullyAdded)
        } else {
            (user, AddResult::UserNotAdded)
        }
    }

    /// The member at the front of the line, who stays there.
    pub fn peek_first_user_in_line(&self) -> (front: Option<&UserID>)
        ensures
            match front {
                Some(user) => self@.len() > 0 && user@ == self@[0],
                None => self@.len() == 0,
            },
    {
        self.get(0)
    }

    /// Takes the member at the front out of the line. An empty line stays
    /// empty and gives nobody.
    pub fn remove_first(&mut self) -> (front: Option<UserID>)
        ensures
            match front {
                Some(user) => old(self)@.len() > 0 && user@ == old(self)@[0] && final(self)@
                    == old(self)@.skip(1),
                None => old(self)@.len() == 0 && final(self)@ == old(self)@,
            },
            final(self).directory() == old(self).directory(),
            final(self).mention() == old(self).mention(),
    {
        let front = self.queue.pop_front();
        proof {
            if front is Some {
                assert(self@ =~= old(self)@.skip(1));
            }
        }
        front
    }

    /// The place closest to the front at which `user` waits, if any.
    pub fn position(&self, user: &UserID) -> (place: Option<usize>)
        ensures
            match place {
                Some(index) => first_position(self@, user@) == Some(index as int),
                None => first_position(self@, user@) is None,
            },
    {
        let mut index: usize = 0;
        while index < self.queue.len()
            invariant
                index <= self.queue@.len(),
                forall|j: int| 0 <= j < index ==> self@[j] != user@,
            decreases self.queue@.len() - index,
        {
            if self.queue[index] == *user {
                proof {
                    assert(is_first_position(self@, user@, index as int));
                    lemma_first_position(self@, user@);
                }
                return Some(index);
            }
            index += 1;
        }
        proof {
            lemma_first_position(self@, user@);
            if self@.contains(user@) {
                let j = choose|j: int| 0 <= j < self@.len() && self@[j] == user@;
                assert(self@[j] != user@);
            }
        }
        None
    }

    /// Takes `user` out of the place closest to the front that they hold;
    /// everybody behind moves up by one. Someone who holds several places
    /// keeps the others. The member who left comes back with the result,
    /// which is never [`RemoveResult::UserUnsuccessfullyRemoved`]: whoever
    /// keeps a backing store writes [`Queue::snapshot`] after a departure
    /// and turns the outcome into a result with
    /// [`RemoveResult::after_save`].
    pub fn remove_user(&mut self, user: UserID) -> (outcome: (UserID, RemoveResult))
        ensures
            outcome.0@ == user@,
            final(self)@ == line_after_leave(old(self)@, user@),
            match outcome.1 {
                RemoveResult::UserSuccessfullyRemoved(index) => first_position(old(self)@, user@)
                    == Some(index as int),
                RemoveResult::NonExistentUser => first_position(old(self)@, user@) is None,
                RemoveResult::UserUnsuccessfullyRemoved(_, _) => false,
            },
            final(self).directory() == old(self).directory(),
            final(self).mention() == old(self).mention(),
    {
        match self.position(&user) {
            Some(index) => {
                proof {
                    lemma_first_position(self@, user@);
                }
                match self.queue.remove(index) {
                    Some(removed) => {
                        assert(self@ =~= old(self)@.remove(index as int));
                        (removed, RemoveResult::UserSuccessfullyRemoved(index))
                    },
                    None => (user, RemoveResult::NonExistentUser),
                }
            },
            None => (user, RemoveResult::NonExistentUser),
        }
    }

    /// What the directory knows of `id`.
    pub fn get_username_by_id(&self, id: &UserID) -> (found: Option<&DisplayInfo>)
        ensures
            match found {
                Some(info) => self.directory().contains_key(id@) && *info == self.directory()[id@],
                None => !self.directory().contains_key(id@),
            },
    {
        self.uid_username_mapping.lookup(id)
    }
}

impl<'a> std::ops::Deref for Queue<'a> {
    type Target = VecDeque<UserID>;

    /// The line as a read-only collection, front first.
    fn deref(&self) -> (line: &VecDeque<UserID>)
        ensures
            line@.map_values(|user: UserID| user@) == self@,
    {
        &self.queue
    }
}

/// After a join, the same member may join again at once exactly while the
/// line still holds fewer than three people; once it holds three or more
/// they must wait until someone else has joined behind them.
pub proof fn lemma_no_repeat_when_busy(line: Seq<Seq<char>>, user: Seq<char>)
    requires
        can_admit(line, user),
    ensures
        can_admit(line.push(user), user) <==> line.push(user).len() < 3,
        forall|other: Seq<char>| other != user ==> can_admit(line.push(user), other),
        forall|other: Seq<char>|
            other != user ==> #[trigger] can_admit(line.push(user).push(other), user),
{
}

/// Whether `line` can have grown place by place under the admission rule:
/// every member in it could join behind the members before. Departures can
/// leave a line of which this does not hold.
pub open spec fn follows_rule(line: Seq<Seq<char>>) -> bool {
    forall|place: int|
        0 <= place < line.len() ==> can_admit(#[trigger] line.take(place), line[place])
}

/// What the rule means place by place: from the fourth place on, nobody
/// stands directly behind themselves.
pub proof fn lemma_rule_by_places(line: Seq<Seq<char>>)
    ensures
        follows_rule(line) <==> forall|place: int|
            3 <= place < line.len() ==> line[place - 1] != #[trigger] line[place],
{
    assert forall|place: int| 0 <= place < line.len() implies (can_admit(
        #[trigger] line.take(place),
        line[place],
    ) <==> (place < 3 || line[place - 1] != line[place])) by {
        if place >= 3 {
            assert(line.take(place).last() == line[place - 1]);
        }
    }
    if follows_rule(line) {
        assert forall|place: int| 3 <= place < line.len() implies line[place - 1]
            != #[trigger] line[place] by {
            assert(can_admit(line.take(place), line[place]));
        }
    }
}

/// A line that has grown under the admission rule still has once one more
/// member has asked to join it.
pub proof fn lemma_join_follows_rule(line: Seq<Seq<char>>, user: Seq<char>)
    requires
        follows_rule(line),
    ensures
        follows_rule(line_after_join(line, user)),
{
    if can_admit(line, user) {
        let joined = line.push(user);
        assert forall|place: int| 0 <= place < joined.len() implies can_admit(
            #[trigger] joined.take(place),
            joined[place],
        ) by {
            if place < line.len() {
                assert(joined.take(place) == line.take(place));
            } else {
                assert(joined.take(place) == line);
            }
        }
    }
}

/// The line after the members of `users` have asked to join it, one after
/// the other.
pub open spec fn line_after_joins(line: Seq<Seq<char>>, users: Seq<Seq<char>>) -> Seq<Seq<char>>
    decreases users.len(),
{
    if users.len() == 0 {
        line
    } else {
        line_after_join(line_after_joins(line, users.drop_last()), users.last())
    }
}

/// Whoever asks to join, in whatever order and however often: a line that
/// starts out empty, or grown under the admission rule, never comes to
/// hold someone directly behind themselves from the fourth place on.
pub proof fn lemma_joins_follow_rule(line: Seq<Seq<char>>, users: Seq<Seq<char>>)
    requires
        follows_rule(line),
    ensures
        follows_rule(line_after_joins(line, users)),
        follows_rule(line_after_joins(Seq::empty(), users)),
    decreases users.len(),
{
    assert(follows_rule(Seq::<Seq<char>>::empty()));
    if users.len() > 0 {
        lemma_joins_follow_rule(line, users.drop_last());
        lemma_join_follows_rule(line_after_joins(line, users.drop_last()), users.last());
        lemma_join_follows_rule(line_after_joins(Seq::empty(), users.drop_last()), users.last());
    }
}

/// Whether every place from the first one that `user` holds to the back of
/// the line is held by `user`. It holds of a line on which `user` does not
/// wait.
pub open spec fn waits_only_at_back(line: Seq<Seq<char>>, user: Seq<char>) -> bool {
    forall|i: int, j: int|
        #![trigger line[i], line[j]]
        0 <= i <= j < line.len() && line[i] == user ==> line[j] == user
}

/// Joining and leaving at once gives the line back as it was exactly for
/// a member who is admitted and who waited nowhere but in an unbroken run
/// at the back, if at all. For every other member it does not: one who is
/// refused still gives up a place, and one who waits further up gives up
/// that place, not the one just taken.
pub proof fn lemma_join_then_leave(line: Seq<Seq<char>>, user: Seq<char>)
    ensures
        line_after_leave(line_after_join(line, user), user) == line <==> can_admit(line, user)
            && waits_only_at_back(line, user),
{
    if !can_admit(line, user) {
        assert(line[line.len() - 1] == user);
        lemma_first_position(line, user);
        let index = first_position(line, user).unwrap();
        assert(line.remove(index).len() != line.len());
    } else {
        let joined = line.push(user);
        assert(joined[line.len() as int] == user);
        lemma_first_position(joined, user);
        let index = first_position(joined, user).unwrap();
        let left = joined.remove(index);
        assert(left.len() == line.len());
        if waits_only_at_back(line, user) {
            assert forall|k: int| 0 <= k < line.len() implies left[k] == line[k] by {
                if k >= index {
                    assert(left[k] == joined[k + 1]);
                    if index < line.len() {
                        assert(line[index] == user);
                        assert(line[k] == user);
                        if k + 1 < line.len() {
                            assert(line[k + 1] == user);
                        }
                    }
                }
            }
            assert(left =~= line);
        }
        if left == line {
            assert forall|i: int, j: int| 0 <= i <= j < line.len() && line[i] == user implies line[j]
                == user by {
                assert(index <= i);
                same_from(line, joined, user, index, j);
            }
        }
    }
}

/// In a line that is unchanged when its place `index` is given up, every
/// place from `index` on holds what the back of the longer line holds.
proof fn same_from(line: Seq<Seq<char>>, joined: Seq<Seq<char>>, user: Seq<char>, index: int, j: int)
    requires
        joined == line.push(user),
        0 <= index <= j < line.len(),
        joined.remove(index) == line,
    ensures
        line[j] == user,
    decreases line.len() - j,
{
    assert(joined.remove(index)[j] == joined[j + 1]);
    if j + 1 < line.len() {
        same_from(line, joined, user, index, j + 1);
    }
}

} // verus!
