//! The text by which a line outlives the process.
//!
//! A snapshot holds one text line per place: the place counted from 0, a
//! tab, the member's token, a line feed. Loading is more lenient than
//! writing: fields may stand apart by any white space, blank lines count
//! for nothing, the lines may come in any order, and whatever follows the
//! token on a line is passed over. The places named must still be
//! 0, 1, 2, ... with none left out and none named twice, and the line they
//! spell must be one that the admission rule lets grow place by place.

use crate::decimal::{
    decimal, is_digit, lemma_decimal_digits, lemma_decimal_round_trip, parse_decimal, parse_index,
    push_decimal,
};
use crate::queue::{can_admit, follows_rule, Queue, QUEUE_UID};
use crate::text::{
    chars_of, is_white_space, leading_run, lemma_leading_run, scan_run, trim_start,
};
use crate::user::{UserDirectory, UserID};
use std::collections::BTreeMap;
use vstd::prelude::*;
use vstd::string::{StrSliceExecFns, StringExecFns};

verus! {

/// The text line for the member at `place`.
pub open spec fn snapshot_line(place: nat, user: Seq<char>) -> Seq<char> {
    decimal(place) + seq!['\t'] + user + seq!['\n']
}

/// The snapshot of `line`: the text lines of its places, front first.
pub open spec fn snapshot_text(line: Seq<Seq<char>>) -> Seq<char>
    decreases line.len(),
{
    if line.len() == 0 {
        Seq::empty()
    } else {
        snapshot_text(line.drop_last()) + snapshot_line((line.len() - 1) as nat, line.last())
    }
}

/// `count` blanks, as they are written over a store before a snapshot
/// that may be shorter than what the store held.
pub open spec fn blank_text(count: nat) -> Seq<char> {
    Seq::new(count, |i: int| ' ')
}

impl<'a> Queue<'a> {
    /// The snapshot of the line as it stands.
    pub fn snapshot(&self) -> (text: String)
        ensures
            text@ == snapshot_text(self@),
    {
        let mut text = String::new();
        let len = self.len();
        let mut place: usize = 0;
        while place < len
            invariant
                place <= len == self@.len(),
                text@ == snapshot_text(self@.take(place as int)),
            decreases len - place,
        {
            let ghost before = text@;
            push_decimal(&mut text, place);
            text.append("\t");
            match self.get(place) {
                Some(user) => text.append(user.as_str()),
                None => {},
            }
            text.append("\n");
            proof {
                reveal_strlit("\t");
                reveal_strlit("\n");
                assert("\t"@ =~= seq!['\t']);
                assert("\n"@ =~= seq!['\n']);
                let done = self@.take(place + 1);
                assert(done.drop_last() == self@.take(place as int));
                assert(done.last() == self@[place as int]);
                assert(text@ =~= before + snapshot_line(place as nat, self@[place as int]));
            }
            place += 1;
        }
        assert(self@.take(len as int) == self@);
        text
    }
}

/// `count` blanks.
pub fn blanks(count: usize) -> (text: String)
    ensures
        text@ == blank_text(count as nat),
{
    let mut text = String::new();
    let mut written: usize = 0;
    while written < count
        invariant
            written <= count,
            text@ == blank_text(written as nat),
        decreases count - written,
    {
        text.append(" ");
        proof {
            reveal_strlit(" ");
            assert(text@ =~= blank_text((written + 1) as nat));
        }
        written += 1;
    }
    text
}

/// Why a snapshot was turned down.
#[derive(Debug, Clone, Copy, PartialEq, Eq)]
pub enum LoadError {
    /// The text line with this number, counted from 0, names a place and no
    /// member.
    MissingUser(usize),
    /// The text line with this number, counted from 0, does not start with
    /// a place: digits, after at most one `+`, that spell a number the
    /// machine can hold.
    BadPosition(usize),
    /// This place is named by more than one text line.
    DuplicatePosition(usize),
    /// This place is named by no text line although a later one is.
    MissingPosition(usize),
    /// The member at this place could not have joined behind the members
    /// at the places before it.
    RuleViolation(usize),
}

/// What is said of a snapshot that was turned down for `error`.
pub open spec fn message_text(error: LoadError) -> Seq<char> {
    match error {
        LoadError::MissingUser(number) => "Invalid file format: line "@ + decimal(number as nat)
            + " must contain a parse-able positive integer followed by some amount of whitespace, followed by a Slack user-id"@,
        LoadError::BadPosition(number) => "Invalid file format: line "@ + decimal(number as nat)
            + " must start with a parse-able positive integer"@,
        LoadError::DuplicatePosition(place) => "Invalid file format: only one person per position (index) in line, but there are more in position "@
            + decimal(place as nat),
        LoadError::MissingPosition(place) => "Invalid file format: nobody is in position "@
            + decimal(place as nat) + " although somebody is in a later one"@,
        LoadError::RuleViolation(place) => "the user in position "@ + decimal(place as nat)
            + " \"breaks the addition rules\": see the Queue documentation for more"@,
    }
}

impl LoadError {
    /// What to say of a snapshot that was turned down for this reason.
    pub fn message(&self) -> (text: String)
        ensures
            text@ == message_text(*self),
    {
        match self {
            LoadError::MissingUser(number) => {
                let mut text = String::from_str("Invalid file format: line ");
                push_decimal(&mut text, *number);
                text.append(
                    " must contain a parse-able positive integer followed by some amount of whitespace, followed by a Slack user-id",
                );
                text
            },
            LoadError::BadPosition(number) => {
                let mut text = String::from_str("Invalid file format: line ");
                push_decimal(&mut text, *number);
                text.append(" must start with a parse-able positive integer");
                text
            },
            LoadError::DuplicatePosition(place) => {
                let mut text = String::from_str(
                    "Invalid file format: only one person per position (index) in line, but there are more in position ",
                );
                push_decimal(&mut text, *place);
                text
            },
            LoadError::MissingPosition(place) => {
                let mut text = String::from_str("Invalid file format: nobody is in position ");
                push_decimal(&mut text, *place);
                text.append(" although somebody is in a later one");
                text
            },
            LoadError::RuleViolation(place) => {
                let mut text = String::from_str("the user in position ");
                push_decimal(&mut text, *place);
                text.append(" \"breaks the addition rules\": see the Queue documentation for more");
                text
            },
        }
    }
}

/// What one text line of a snapshot says.
pub enum Record {
    /// Nothing: the line holds white space only.
    Blank,
    /// A first field and no second one.
    MissingUser,
    /// Two fields, the first of which is no place.
    BadPosition,
    /// The member with this token holds this place.
    Entry(usize, Seq<char>),
}

/// The number of characters of `text` before its first line feed.
pub open spec fn first_line_len(text: Seq<char>) -> nat
    decreases text.len(),
{
    if text.len() > 0 && text[0] != '\n' {
        1 + first_line_len(text.skip(1))
    } else {
        0
    }
}

/// The text lines of `text`: the pieces between its line feeds. A text
/// that ends in a line feed has an empty last line.
pub open spec fn text_lines(text: Seq<char>) -> Seq<Seq<char>>
    decreases text.len(),
{
    let len = first_line_len(text);
    if len >= text.len() {
        seq![text]
    } else {
        seq![text.take(len as int)] + text_lines(text.skip(len as int + 1))
    }
}

/// The first field of `line`: what stands between the white space at its
/// start and the next white space.
pub open spec fn first_field(line: Seq<char>) -> Seq<char> {
    let rest = trim_start(line);
    rest.take(leading_run(rest, false) as int)
}

/// What follows the first field of `line`.
pub open spec fn after_first_field(line: Seq<char>) -> Seq<char> {
    let rest = trim_start(line);
    rest.skip(leading_run(rest, false) as int)
}

/// What `line` says. Its first field is the place, its second one the
/// member; further fields say nothing.
pub open spec fn record_of(line: Seq<char>) -> Record {
    let place = first_field(line);
    let user = first_field(after_first_field(line));
    if place.len() == 0 {
        Record::Blank
    } else if user.len() == 0 {
        Record::MissingUser
    } else {
        match parse_index(place) {
            Some(place) => Record::Entry(place, user),
            None => Record::BadPosition,
        }
    }
}

/// Who holds which place according to `lines`, read from the first to the
/// last. The first line that says something wrong, or names a place that
/// an earlier line has named, ends the reading.
pub open spec fn read_records(lines: Seq<Seq<char>>) -> Result<Map<usize, Seq<char>>, LoadError>
    decreases lines.len(),
{
    if lines.len() == 0 {
        Ok(Map::empty())
    } else {
        let number = (lines.len() - 1) as usize;
        match read_records(lines.drop_last()) {
            Err(error) => Err(error),
            Ok(seats) => match record_of(lines.last()) {
                Record::Blank => Ok(seats),
                Record::MissingUser => Err(LoadError::MissingUser(number)),
                Record::BadPosition => Err(LoadError::BadPosition(number)),
                Record::Entry(place, user) => if seats.contains_key(place) {
                    Err(LoadError::DuplicatePosition(place))
                } else {
                    Ok(seats.insert(place, user))
                },
            },
        }
    }
}

/// Whether `place` is the first one that `seats` leaves out although it
/// names as many places as would reach beyond it.
pub open spec fn is_first_gap(seats: Map<usize, Seq<char>>, place: usize) -> bool {
    &&& place < seats.len()
    &&& !seats.contains_key(place)
    &&& forall|before: usize| before < place ==> seats.contains_key(before)
}

/// The line that `seats` spells, front first, if the places it names are
/// 0, 1, 2, ... with none left out.
pub open spec fn seated(seats: Map<usize, Seq<char>>) -> Result<Seq<Seq<char>>, LoadError> {
    if exists|place: usize| is_first_gap(seats, place) {
        Err(LoadError::MissingPosition(choose|place: usize| is_first_gap(seats, place)))
    } else {
        Ok(Seq::new(seats.len(), |place: int| seats[place as usize]))
    }
}

/// Whether `place` is the first one in `line` whose member the admission
/// rule would not have let join behind the members before.
pub open spec fn is_first_violation(line: Seq<Seq<char>>, place: int) -> bool {
    &&& 0 <= place < line.len()
    &&& !can_admit(line.take(place), line[place])
    &&& forall|before: int|
        0 <= before < place ==> can_admit(#[trigger] line.take(before), line[before])
}

/// `line`, if it can have grown place by place under the admission rule.
pub open spec fn replayed(line: Seq<Seq<char>>) -> Result<Seq<Seq<char>>, LoadError> {
    if exists|place: int| is_first_violation(line, place) {
        Err(LoadError::RuleViolation((choose|place: int| is_first_violation(line, place)) as usize))
    } else {
        Ok(line)
    }
}

/// The line that the snapshot `text` holds, or why it holds none.
pub open spec fn load(text: Seq<char>) -> Result<Seq<Seq<char>>, LoadError> {
    match read_records(text_lines(text)) {
        Err(error) => Err(error),
        Ok(seats) => match seated(seats) {
            Err(error) => Err(error),
            Ok(line) => replayed(line),
        },
    }
}

/// Whether some text line of `lines` says that `user` holds `place`.
pub open spec fn names(lines: Seq<Seq<char>>, place: usize, user: Seq<char>) -> bool {
    exists|number: int|
        0 <= number < lines.len() && record_of(#[trigger] lines[number]) == Record::Entry(
            place,
            user,
        )
}

/// Whether every text line of `lines` is blank or gives a place its
/// member: a number that the machine can hold, white space, a token.
pub open spec fn all_entries(lines: Seq<Seq<char>>) -> bool {
    forall|number: int|
        0 <= number < lines.len() ==> record_of(#[trigger] lines[number]) is Blank || record_of(
            lines[number],
        ) is Entry
}

/// Whether two records name the same place.
pub open spec fn same_place(one: Record, other: Record) -> bool {
    match (one, other) {
        (Record::Entry(place, _), Record::Entry(again, _)) => place == again,
        _ => false,
    }
}

/// Whether no two text lines of `lines` name the same place.
pub open spec fn places_once(lines: Seq<Seq<char>>) -> bool {
    forall|first: int, second: int|
        0 <= first < second < lines.len() ==> !same_place(
            record_of(#[trigger] lines[first]),
            record_of(#[trigger] lines[second]),
        )
}

/// Whether the places that `lines` name are the places of `line`, none
/// left out and none beyond its back, each with the member who holds it
/// there.
pub open spec fn places_of(lines: Seq<Seq<char>>, line: Seq<Seq<char>>) -> bool {
    &&& forall|place: usize, user: Seq<char>| #[trigger]
        names(lines, place, user) ==> place < line.len() && line[place as int] == user
    &&& forall|place: int|
        0 <= place < line.len() ==> place <= usize::MAX && names(
            lines,
            place as usize,
            #[trigger] line[place],
        )
}

/// Whether `lines` spell `line`: every text line that is not blank gives a
/// place its member, no place is named twice, and the places named are
/// those of `line`.
pub open spec fn spells(lines: Seq<Seq<char>>, line: Seq<Seq<char>>) -> bool {
    &&& all_entries(lines)
    &&& places_once(lines)
    &&& places_of(lines, line)
}

/// The line of `text` that ends at `len` is its first one: no line feed
/// stands before `len`, and one stands at `len` unless the text ends there.
pub proof fn lemma_first_line_len(text: Seq<char>, len: int)
    requires
        0 <= len <= text.len(),
        forall|i: int| 0 <= i < len ==> #[trigger] text[i] != '\n',
        len == text.len() || text[len] == '\n',
    ensures
        first_line_len(text) == len,
    decreases len,
{
    if len > 0 {
        let rest = text.skip(1);
        assert forall|i: int| 0 <= i < len - 1 implies #[trigger] rest[i] != '\n' by {
            assert(rest[i] == text[i + 1]);
        }
        lemma_first_line_len(rest, len - 1);
    }
}

/// A reading that has come to an end on some line stays as it is, whatever
/// lines follow.
pub proof fn lemma_read_error_stands(lines: Seq<Seq<char>>, read: int)
    requires
        0 <= read <= lines.len(),
        read_records(lines.take(read)) is Err,
    ensures
        read_records(lines) == read_records(lines.take(read)),
    decreases lines.len(),
{
    if read < lines.len() {
        assert(lines.drop_last().take(read) == lines.take(read));
        lemma_read_error_stands(lines.drop_last(), read);
    } else {
        assert(lines.take(read) == lines);
    }
}

/// What a text line says, with the member ready to take a place.
enum Parsed {
    Blank,
    MissingUser,
    BadPosition,
    Entry(usize, UserID),
}

/// The record that `parsed` stands for.
spec fn record(parsed: Parsed) -> Record {
    match parsed {
        Parsed::Blank => Record::Blank,
        Parsed::MissingUser => Record::MissingUser,
        Parsed::BadPosition => Record::BadPosition,
        Parsed::Entry(place, user) => Record::Entry(place, user@),
    }
}

/// The places that `people` hold, by token.
pub open spec fn seats_of(people: Map<usize, UserID>) -> Map<usize, Seq<char>> {
    people.map_values(|user: UserID| user@)
}

/// Reads the text line `chars[from..to]` of `contents`.
fn parse_line(contents: &str, chars: &Vec<char>, from: usize, to: usize) -> (parsed: Parsed)
    requires
        chars@ == contents@,
        from <= to <= chars.len(),
    ensures
        record(parsed) == record_of(chars@.subrange(from as int, to as int)),
{
    let place_start = scan_run(chars, from, to, true);
    let place_end = scan_run(chars, place_start, to, false);
    let user_start = scan_run(chars, place_end, to, true);
    let user_end = scan_run(chars, user_start, to, false);
    proof {
        let line = chars@.subrange(from as int, to as int);
        assert(trim_start(line) == chars@.subrange(place_start as int, to as int));
        assert(first_field(line) == chars@.subrange(place_start as int, place_end as int));
        let after = after_first_field(line);
        assert(after == chars@.subrange(place_end as int, to as int));
        assert(trim_start(after) == chars@.subrange(user_start as int, to as int));
        assert(first_field(after) == chars@.subrange(user_start as int, user_end as int));
    }
    if place_start == place_end {
        Parsed::Blank
    } else if user_start == user_end {
        Parsed::MissingUser
    } else {
        match parse_decimal(chars, place_start, place_end) {
            Some(place) => Parsed::Entry(
                place,
                UserID::new(contents.substring_char(user_start, user_end)),
            ),
            None => Parsed::BadPosition,
        }
    }
}

/// Reads who holds which place according to `contents`.
fn read_snapshot(contents: &str) -> (read: Result<BTreeMap<usize, UserID>, LoadError>)
    ensures
        match read {
            Ok(people) => read_records(text_lines(contents@)) == Ok::<_, LoadError>(
                seats_of(people@),
            ),
            Err(error) => read_records(text_lines(contents@)) == Err::<Map<usize, Seq<char>>, _>(
                error,
            ),
        },
{
    let chars = chars_of(contents);
    let mut people: BTreeMap<usize, UserID> = BTreeMap::new();
    let mut start: usize = 0;
    let mut number: usize = 0;
    let ghost mut done: Seq<Seq<char>> = Seq::empty();
    proof {
        assert(chars@.skip(0) == chars@);
        assert(seats_of(people@) =~= Map::<usize, Seq<char>>::empty());
    }
    loop
        invariant
            chars@ == contents@,
            number <= start <= chars.len(),
            number == done.len(),
            text_lines(chars@) == done + text_lines(chars@.skip(start as int)),
            read_records(done) == Ok::<_, LoadError>(seats_of(people@)),
        decreases chars.len() - start,
    {
        let mut end: usize = start;
        while end < chars.len() && chars[end] != '\n'
            invariant
                start <= end <= chars.len(),
                forall|i: int| start <= i < end ==> #[trigger] chars@[i] != '\n',
            decreases chars.len() - end,
        {
            end += 1;
        }
        let ghost rest = chars@.skip(start as int);
        let ghost line = chars@.subrange(start as int, end as int);
        let ghost before = seats_of(people@);
        proof {
            assert forall|i: int| 0 <= i < end - start implies #[trigger] rest[i] != '\n' by {
                assert(rest[i] == chars@[start + i]);
            }
            lemma_first_line_len(rest, end - start);
            assert(rest.take(end - start) == line);
            assert(done.push(line).drop_last() == done);
            assert(done.push(line).last() == line);
            assert(text_lines(rest)[0] == line);
            assert(text_lines(chars@).take(number + 1) == done.push(line));
            if read_records(done.push(line)) is Err {
                lemma_read_error_stands(text_lines(chars@), number + 1);
            }
        }
        match parse_line(contents, &chars, start, end) {
            Parsed::Blank => {},
            Parsed::MissingUser => {
                return Err(LoadError::MissingUser(number));
            },
            Parsed::BadPosition => {
                return Err(LoadError::BadPosition(number));
            },
            Parsed::Entry(place, user) => {
                if people.contains_key(&place) {
                    return Err(LoadError::DuplicatePosition(place));
                }
                let ghost token = user@;
                people.insert(place, user);
                proof {
                    assert(seats_of(people@) =~= before.insert(place, token));
                }
            },
        }
        proof {
            done = done.push(line);
        }
        if end == chars.len() {
            proof {
                assert(text_lines(rest) == seq![rest]);
                assert(rest == line);
                assert(text_lines(chars@) =~= done);
            }
            return Ok(people);
        }
        proof {
            assert(rest.skip(end - start + 1) == chars@.skip(end + 1));
            assert(text_lines(rest) == seq![line] + text_lines(chars@.skip(end + 1)));
            assert(text_lines(chars@) =~= done + text_lines(chars@.skip(end + 1)));
        }
        start = end + 1;
        number += 1;
    }
}

/// Puts the members of `people` in the order of their places.
fn seat(people: &BTreeMap<usize, UserID>) -> (seated_line: Result<Vec<UserID>, LoadError>)
    ensures
        match seated_line {
            Ok(users) => seated(seats_of(people@)) == Ok::<_, LoadError>(
                users@.map_values(|user: UserID| user@),
            ),
            Err(error) => seated(seats_of(people@)) == Err::<Seq<Seq<char>>, _>(error),
        },
{
    let ghost seats = seats_of(people@);
    let count = people.len();
    assert(seats.dom() =~= people@.dom());
    let mut users: Vec<UserID> = Vec::new();
    let mut place: usize = 0;
    while place < count
        invariant
            seats == seats_of(people@),
            count == seats.len(),
            place <= count,
            users@.len() == place,
            forall|before: usize| before < place ==> seats.contains_key(before),
            forall|before: int|
                0 <= before < place ==> (#[trigger] users@[before])@ == seats[before as usize],
        decreases count - place,
    {
        match people.get(&place) {
            Some(user) => {
                users.push(user.clone());
            },
            None => {
                proof {
                    assert(is_first_gap(seats, place));
                    let chosen = choose|gap: usize| is_first_gap(seats, gap);
                    if chosen < place {
                    } else if place < chosen {
                    }
                }
                return Err(LoadError::MissingPosition(place));
            },
        }
        place += 1;
    }
    proof {
        assert forall|gap: usize| !is_first_gap(seats, gap) by {}
        assert(users@.map_values(|user: UserID| user@) =~= Seq::new(
            seats.len(),
            |place: int| seats[place as usize],
        ));
    }
    Ok(users)
}

impl<'a> Queue<'a> {
    /// The line that the snapshot `contents` holds, shown by
    /// `uids_to_users` and answering to [`QUEUE_UID`]; or the reason why
    /// `contents` holds none. See [`load`] for what is read and which
    /// reason is given. A line comes back exactly when `contents` is sound:
    /// its text lines spell a line, see [`spells`], that can have grown
    /// place by place under the admission rule; and the line that comes
    /// back is that one.
    pub fn from_file(uids_to_users: &'a UserDirectory, contents: &str) -> (loaded: Result<
        Queue<'a>,
        LoadError,
    >)
        ensures
            match loaded {
                Ok(queue) => load(contents@) == Ok::<_, LoadError>(queue@) && queue.directory()
                    == uids_to_users@ && queue.mention() == QUEUE_UID@,
                Err(error) => load(contents@) == Err::<Seq<Seq<char>>, _>(error),
            },
            loaded is Ok <==> exists|line: Seq<Seq<char>>| #[trigger]
                spells(text_lines(contents@), line) && follows_rule(line),
            loaded matches Ok(queue) ==> spells(text_lines(contents@), queue@) && follows_rule(
                queue@,
            ),
    {
        proof {
            lemma_loads_when_sound(contents@);
        }
        let people = match read_snapshot(contents) {
            Ok(people) => people,
            Err(error) => {
                return Err(error);
            },
        };
        let users = match seat(&people) {
            Ok(users) => users,
            Err(error) => {
                return Err(error);
            },
        };
        let ghost line = users@.map_values(|user: UserID| user@);
        let mut queue = Queue::new(uids_to_users);
        let mut place: usize = 0;
        assert(load(contents@) == replayed(line));
        while place < users.len()
            invariant
                place <= users.len(),
                load(contents@) == replayed(line),
                line == users@.map_values(|user: UserID| user@),
                queue@ == line.take(place as int),
                queue.directory() == uids_to_users@,
                queue.mention() == QUEUE_UID@,
                forall|before: int|
                    0 <= before < place ==> can_admit(#[trigger] line.take(before), line[before]),
            decreases users.len() - place,
        {
            assert(line[place as int] == users@[place as int]@);
            if !queue.add_user_no_write(users[place].clone()) {
                proof {
                    assert(is_first_violation(line, place as int));
                    let chosen = choose|at: int| is_first_violation(line, at);
                    if chosen < place {
                    } else if place < chosen {
                    }
                    lemma_loads_when_sound(contents@);
                }
                return Err(LoadError::RuleViolation(place));
            }
            proof {
                assert(line.take(place as int).push(line[place as int]) == line.take(place + 1));
            }
            place += 1;
        }
        proof {
            assert(line.take(place as int) == line);
            assert forall|at: int| !is_first_violation(line, at) by {}
            lemma_loads_exactly_when(contents@, line);
            lemma_loads_when_sound(contents@);
        }
        Ok(queue)
    }
}

/// Whether `user` can stand in a snapshot as a field: it is not empty and
/// holds no white space.
pub open spec fn is_token(user: Seq<char>) -> bool {
    &&& user.len() > 0
    &&& forall|i: int| 0 <= i < user.len() ==> !is_white_space(#[trigger] user[i])
}

/// What the text line for `place` holds before its line feed.
pub open spec fn entry_text(place: nat, user: Seq<char>) -> Seq<char> {
    decimal(place) + seq!['\t'] + user
}

/// The text lines that the snapshot of `line` is made of.
pub open spec fn entries(line: Seq<Seq<char>>) -> Seq<Seq<char>> {
    Seq::new(line.len(), |place: int| entry_text(place as nat, line[place]))
}

/// Who holds which place in `line`.
pub open spec fn seats_in(line: Seq<Seq<char>>) -> Map<usize, Seq<char>> {
    Map::new(|place: usize| place < line.len(), |place: usize| line[place as int])
}

/// A text line of a snapshot says who holds the place.
pub proof fn lemma_entry_is_read(place: nat, user: Seq<char>)
    requires
        place <= usize::MAX,
        is_token(user),
    ensures
        record_of(entry_text(place, user)) == Record::Entry(place as usize, user),
        forall|i: int|
            0 <= i < entry_text(place, user).len() ==> #[trigger] entry_text(place, user)[i]
                != '\n',
{
    let digits = decimal(place);
    let entry = entry_text(place, user);
    lemma_decimal_digits(place);
    lemma_decimal_round_trip(place);
    assert forall|i: int| 0 <= i < digits.len() implies !is_white_space(#[trigger] entry[i]) by {
        assert(entry[i] == digits[i]);
        assert(is_digit(digits[i]));
    }
    assert(entry[digits.len() as int] == '\t');
    assert forall|i: int| digits.len() < i < entry.len() implies !is_white_space(
        #[trigger] entry[i],
    ) by {
        assert(entry[i] == user[i - digits.len() - 1]);
    }
    lemma_leading_run(entry, true, 0);
    assert(trim_start(entry) == entry);
    lemma_leading_run(entry, false, digits.len() as int);
    assert(first_field(entry) == digits);
    let after = after_first_field(entry);
    assert(after == seq!['\t'] + user);
    assert(after[1] == user[0]);
    lemma_leading_run(after, true, 1);
    assert(trim_start(after) == user);
    lemma_leading_run(user, false, user.len() as int);
    assert(first_field(after) == user);
}

/// A text line of blanks says nothing.
pub proof fn lemma_blanks_are_blank(count: nat)
    ensures
        record_of(blank_text(count)) == Record::Blank,
        text_lines(blank_text(count)) == seq![blank_text(count)],
{
    let blanks = blank_text(count);
    lemma_leading_run(blanks, true, count as int);
    assert(first_field(blanks).len() == 0);
    lemma_first_line_len(blanks, count as int);
}

/// The text lines of a snapshot are those of its places, whatever text
/// follows the snapshot.
pub proof fn lemma_snapshot_lines(line: Seq<Seq<char>>, rest: Seq<char>)
    requires
        line.len() <= usize::MAX,
        forall|i: int| 0 <= i < line.len() ==> is_token(#[trigger] line[i]),
    ensures
        text_lines(snapshot_text(line) + rest) == entries(line) + text_lines(rest),
    decreases line.len(),
{
    if line.len() == 0 {
        assert(snapshot_text(line) + rest == rest);
        assert(entries(line) + text_lines(rest) == text_lines(rest));
    } else {
        let front = line.drop_last();
        let place = (line.len() - 1) as nat;
        let entry = entry_text(place, line.last());
        let tail = snapshot_line(place, line.last()) + rest;
        assert(snapshot_text(line) + rest == snapshot_text(front) + tail);
        assert forall|i: int| 0 <= i < front.len() implies is_token(#[trigger] front[i]) by {
            assert(front[i] == line[i]);
        }
        lemma_snapshot_lines(front, tail);
        lemma_entry_is_read(place, line.last());
        assert forall|i: int| 0 <= i < entry.len() implies #[trigger] tail[i] != '\n' by {
            assert(tail[i] == entry[i]);
        }
        assert(tail[entry.len() as int] == '\n');
        lemma_first_line_len(tail, entry.len() as int);
        assert(tail.take(entry.len() as int) == entry);
        assert(tail.skip(entry.len() as int + 1) == rest);
        assert(text_lines(tail) == seq![entry] + text_lines(rest));
        assert(entries(front) + (seq![entry] + text_lines(rest)) =~= entries(line) + text_lines(
            rest,
        ));
    }
}

/// Reading the text lines of a snapshot gives each place its member.
pub proof fn lemma_entries_are_read(line: Seq<Seq<char>>)
    requires
        line.len() <= usize::MAX,
        forall|i: int| 0 <= i < line.len() ==> is_token(#[trigger] line[i]),
    ensures
        read_records(entries(line)) == Ok::<_, LoadError>(seats_in(line)),
        seats_in(line).dom().finite(),
        seats_in(line).len() == line.len(),
    decreases line.len(),
{
    if line.len() == 0 {
        assert(seats_in(line) =~= Map::<usize, Seq<char>>::empty());
    } else {
        let front = line.drop_last();
        let place = (line.len() - 1) as nat;
        assert forall|i: int| 0 <= i < front.len() implies is_token(#[trigger] front[i]) by {
            assert(front[i] == line[i]);
        }
        lemma_entries_are_read(front);
        lemma_entry_is_read(place, line.last());
        assert(entries(line).drop_last() =~= entries(front));
        assert(entries(line).last() == entry_text(place, line.last()));
        assert(!seats_in(front).contains_key(place as usize));
        assert(seats_in(line) =~= seats_in(front).insert(place as usize, line.last()));
        assert(seats_in(line).dom() =~= seats_in(front).dom().insert(place as usize));
    }
}

/// What was saved is what is loaded: a snapshot, even one that stale
/// blanks follow because the store held a longer text before, loads as the
/// line it was written for, provided that every member's token can stand
/// as a field. The one exception is a line that the admission rule could
/// not have let grow place by place, which only departures can have
/// produced; it is turned down at the first place that breaks the rule.
pub proof fn lemma_save_then_load(line: Seq<Seq<char>>, stale: nat)
    requires
        line.len() <= usize::MAX,
        forall|i: int| 0 <= i < line.len() ==> is_token(#[trigger] line[i]),
    ensures
        load(snapshot_text(line) + blank_text(stale)) == replayed(line),
        follows_rule(line) ==> load(snapshot_text(line) + blank_text(stale)) == Ok::<_, LoadError>(
            line,
        ),
{
    let blanks = blank_text(stale);
    let lines = text_lines(snapshot_text(line) + blanks);
    lemma_snapshot_lines(line, blanks);
    lemma_blanks_are_blank(stale);
    lemma_entries_are_read(line);
    assert(lines == entries(line).push(blanks));
    assert(lines.drop_last() == entries(line));
    assert(lines.last() == blanks);
    assert(read_records(lines) == Ok::<_, LoadError>(seats_in(line)));
    let seats = seats_in(line);
    assert forall|gap: usize| !is_first_gap(seats, gap) by {}
    assert(Seq::new(seats.len(), |place: int| seats[place as usize]) =~= line);
    assert(seated(seats) == Ok::<_, LoadError>(line));
    if follows_rule(line) {
        assert forall|place: int| !is_first_violation(line, place) by {}
    }
}

/// The places before `count`.
pub open spec fn places_before(count: nat) -> Set<usize> {
    Set::new(|place: usize| place < count)
}

/// There are `count` places before `count`.
proof fn lemma_places_before(count: nat)
    requires
        count <= usize::MAX + 1,
    ensures
        places_before(count).finite(),
        places_before(count).len() == count,
    decreases count,
{
    if count == 0 {
        assert(places_before(count) =~= Set::<usize>::empty());
    } else {
        let fewer = (count - 1) as nat;
        lemma_places_before(fewer);
        assert(places_before(count) =~= places_before(fewer).insert(fewer as usize));
    }
}

/// What holds of text lines, said of all but the last one and of the last
/// one.
proof fn lemma_by_last(lines: Seq<Seq<char>>)
    requires
        lines.len() > 0,
    ensures
        forall|place: usize, user: Seq<char>| #[trigger]
            names(lines, place, user) <==> names(lines.drop_last(), place, user) || record_of(
                lines.last(),
            ) == Record::Entry(place, user),
        all_entries(lines) <==> all_entries(lines.drop_last()) && (record_of(lines.last()) is Blank
            || record_of(lines.last()) is Entry),
        places_once(lines) <==> places_once(lines.drop_last()) && forall|number: int|
            0 <= number < lines.len() - 1 ==> !same_place(
                record_of(#[trigger] lines.drop_last()[number]),
                record_of(lines.last()),
            ),
{
    let front = lines.drop_last();
    let last = lines.len() - 1;
    assert forall|number: int| 0 <= number < last implies #[trigger] front[number]
        == lines[number] by {}
    assert forall|place: usize, user: Seq<char>| #[trigger]
        names(lines, place, user) implies names(front, place, user) || record_of(lines.last())
        == Record::Entry(place, user) by {
        let number = choose|number: int|
            0 <= number < lines.len() && record_of(#[trigger] lines[number]) == Record::Entry(
                place,
                user,
            );
        if number < last {
            assert(front[number] == lines[number]);
        }
    }
    if all_entries(front) {
        assert forall|number: int| 0 <= number < last implies record_of(#[trigger] lines[number])
            is Blank || record_of(lines[number]) is Entry by {
            assert(front[number] == lines[number]);
        }
    }
    if places_once(front) && forall|number: int|
        0 <= number < last ==> !same_place(
            record_of(#[trigger] front[number]),
            record_of(lines.last()),
        ) {
        assert forall|first: int, second: int|
            0 <= first < second < lines.len() implies !same_place(
            record_of(#[trigger] lines[first]),
            record_of(#[trigger] lines[second]),
        ) by {
            assert(front[first] == lines[first]);
            if second < last {
                assert(front[second] == lines[second]);
            }
        }
    }
}

/// The reading of text lines succeeds exactly when each of them is blank
/// or gives a place its member and no place is named twice; the seats it
/// gives are then the ones that the text lines name.
pub proof fn lemma_read_exactly_when(lines: Seq<Seq<char>>)
    ensures
        read_records(lines) is Ok <==> all_entries(lines) && places_once(lines),
        read_records(lines) matches Ok(seats) ==> seats.dom().finite() && forall|
            place: usize,
            user: Seq<char>,
        |
            #![trigger names(lines, place, user)]
            #![trigger seats.contains_pair(place, user)]
            names(lines, place, user) <==> seats.contains_pair(place, user),
    decreases lines.len(),
{
    if lines.len() > 0 {
        let front = lines.drop_last();
        lemma_read_exactly_when(front);
        lemma_by_last(lines);
        if let Ok(seats) = read_records(front) {
            if let Record::Entry(place, user) = record_of(lines.last()) {
                if seats.contains_key(place) {
                    assert(seats.contains_pair(place, seats[place]));
                } else {
                    assert forall|number: int| 0 <= number < front.len() implies !same_place(
                        record_of(#[trigger] front[number]),
                        record_of(lines.last()),
                    ) by {
                        if let Record::Entry(again, holder) = record_of(front[number]) {
                            assert(seats.contains_pair(again, holder));
                        }
                    }
                }
            }
        }
    }
}

/// Seats that leave no gap hold every place before their number.
proof fn lemma_no_gap_before(seats: Map<usize, Seq<char>>, place: usize)
    requires
        forall|gap: usize| !is_first_gap(seats, gap),
        place < seats.len(),
    ensures
        seats.contains_key(place),
    decreases place,
{
    if !seats.contains_key(place) {
        assert forall|before: usize| before < place implies seats.contains_key(before) by {
            lemma_no_gap_before(seats, before);
        }
        assert(is_first_gap(seats, place));
    }
}

/// Seats spell a line exactly when the places they name are those before
/// their number; the line then gives each of these places its member.
pub proof fn lemma_seated_exactly_when(seats: Map<usize, Seq<char>>)
    requires
        seats.dom().finite(),
    ensures
        seats.len() <= usize::MAX + 1,
        seated(seats) is Ok <==> seats.dom() == places_before(seats.len()),
        seated(seats) matches Ok(line) ==> line == Seq::new(
            seats.len(),
            |place: int| seats[place as usize],
        ),
{
    let every = places_before((usize::MAX + 1) as nat);
    lemma_places_before((usize::MAX + 1) as nat);
    vstd::set_lib::lemma_len_subset(seats.dom(), every);
    let before = places_before(seats.len());
    lemma_places_before(seats.len());
    if seated(seats) is Ok {
        assert forall|gap: usize| !is_first_gap(seats, gap) by {}
        assert forall|place: usize| before.contains(place) implies seats.dom().contains(place) by {
            lemma_no_gap_before(seats, place);
        }
        vstd::set_lib::lemma_subset_equality(before, seats.dom());
    }
}

/// The first place at or before `bound` whose member the admission rule
/// would not have let join.
proof fn first_violation(line: Seq<Seq<char>>, bound: int) -> (first: int)
    requires
        0 <= bound < line.len(),
        !can_admit(line.take(bound), line[bound]),
    ensures
        is_first_violation(line, first),
    decreases bound,
{
    if exists|before: int|
        0 <= before < bound && !can_admit(#[trigger] line.take(before), line[before]) {
        let before = choose|before: int|
            0 <= before < bound && !can_admit(#[trigger] line.take(before), line[before]);
        first_violation(line, before)
    } else {
        bound
    }
}

/// Replaying a line succeeds exactly when the line can have grown place by
/// place under the admission rule, and then gives the line itself.
pub proof fn lemma_replayed_exactly_when(line: Seq<Seq<char>>)
    ensures
        replayed(line) is Ok <==> follows_rule(line),
        replayed(line) is Ok ==> replayed(line) == Ok::<_, LoadError>(line),
{
    if !follows_rule(line) {
        let place = choose|place: int|
            0 <= place < line.len() && !can_admit(#[trigger] line.take(place), line[place]);
        first_violation(line, place);
    }
}

/// A snapshot loads exactly when it is sound, and then as the line that it
/// spells. It is sound when every text line that is not blank gives a
/// place its member, no place is named twice, the places named are
/// 0, 1, 2, ... with none left out, and the members in the order of their
/// places could have joined one after the other under the admission rule.
pub proof fn lemma_loads_exactly_when(text: Seq<char>, line: Seq<Seq<char>>)
    ensures
        load(text) == Ok::<_, LoadError>(line) <==> spells(text_lines(text), line) && follows_rule(
            line,
        ),
{
    let lines = text_lines(text);
    lemma_read_exactly_when(lines);
    lemma_replayed_exactly_when(line);
    if let Ok(seats) = read_records(lines) {
        lemma_seated_exactly_when(seats);
        if load(text) == Ok::<_, LoadError>(line) {
            lemma_replayed_exactly_when(seated(seats).unwrap());
        }
        if spells(lines, line) && follows_rule(line) {
            if line.len() > 0 {
                assert(names(lines, (line.len() - 1) as usize, line[line.len() - 1]));
            }
            lemma_places_before(line.len());
            assert forall|place: usize| seats.dom().contains(place) implies places_before(
                line.len(),
            ).contains(place) by {
                assert(names(lines, place, seats[place]));
            }
            assert forall|place: usize| places_before(line.len()).contains(
                place,
            ) implies seats.dom().contains(place) by {
                assert(seats.contains_pair(place, line[place as int]));
            }
            assert(seats.dom() =~= places_before(line.len()));
            assert(seated(seats).unwrap() =~= line);
        }
    }
}

/// A snapshot loads exactly when it spells some line that can have grown
/// place by place under the admission rule.
pub proof fn lemma_loads_when_sound(text: Seq<char>)
    ensures
        load(text) is Ok <==> exists|line: Seq<Seq<char>>| #[trigger]
            spells(text_lines(text), line) && follows_rule(line),
{
    if let Ok(line) = load(text) {
        lemma_loads_exactly_when(text, line);
    }
    if exists|line: Seq<Seq<char>>| #[trigger]
        spells(text_lines(text), line) && follows_rule(line) {
        let line = choose|line: Seq<Seq<char>>| #[trigger]
            spells(text_lines(text), line) && follows_rule(line);
        lemma_loads_exactly_when(text, line);
    }
}

} // verus!
