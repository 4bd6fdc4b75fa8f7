//! The people who can wait in line: their identifiers, and the directory
//! that knows how to show them.

use vstd::hash_map::StringHashMap;
use vstd::prelude::*;
use vstd::std_specs::cmp::PartialEqSpecImpl;
use vstd::string::StringExecFns;

verus! {

/// A member of the workspace, known by an opaque token such as `UA8RXUPSP`.
///
/// Two identifiers denote the same member exactly when their tokens are
/// equal; the view of an identifier is that token.
#[derive(Debug, Hash)]
pub struct UserID(pub String);

impl View for UserID {
    type V = Seq<char>;

    open spec fn view(&self) -> Seq<char> {
        self.0@
    }
}

impl UserID {
    /// Wraps `user_id` without inspecting it.
    pub fn new(user_id: &str) -> (id: Self)
        ensures
            id@ == user_id@,
    {
        UserID(String::from_str(user_id))
    }

    /// The token as text.
    pub fn as_str(&self) -> (token: &str)
        ensures
            token@ == self@,
    {
        self.0.as_str()
    }

    /// The token, as it is shown to people.
    pub fn to_string(&self) -> (token: String)
        ensures
            token@ == self@,
    {
        self.0.clone()
    }
}

impl Clone for UserID {
    fn clone(&self) -> (copy: Self)
        ensures
            copy == *self,
    {
        UserID(self.0.clone())
    }
}

impl PartialEq for UserID {
    fn eq(&self, other: &Self) -> (same: bool) {
        self.0 == other.0
    }
}

impl PartialEqSpecImpl for UserID {
    open spec fn obeys_eq_spec() -> bool {
        true
    }

    open spec fn eq_spec(&self, other: &Self) -> bool {
        self@ == other@
    }
}

impl Eq for UserID {

}

/// How a member is shown: a real name and a handle, each of which the
/// directory may lack.
#[derive(Debug)]
pub struct DisplayInfo {
    pub real_name: Option<String>,
    pub handle: Option<String>,
}

/// One record of the workspace's member listing.
#[derive(Debug)]
pub struct Member {
    pub id: UserID,
    pub info: DisplayInfo,
}

/// What is known of the workspace's members, by identifier.
///
/// The view maps each known token to the member's display data.
pub struct UserDirectory {
    members: StringHashMap<DisplayInfo>,
}

impl View for UserDirectory {
    type V = Map<Seq<char>, DisplayInfo>;

    closed spec fn view(&self) -> Map<Seq<char>, DisplayInfo> {
        self.members@
    }
}

/// The directory that a listing gives: of two records for one identifier
/// the later one stands.
pub open spec fn directory_of(listing: Seq<Member>) -> Map<Seq<char>, DisplayInfo>
    decreases listing.len(),
{
    if listing.len() == 0 {
        Map::empty()
    } else {
        directory_of(listing.drop_last()).insert(listing.last().id@, listing.last().info)
    }
}

impl UserDirectory {
    /// A directory that knows nobody.
    pub fn new() -> (directory: Self)
        ensures
            directory@ == Map::<Seq<char>, DisplayInfo>::empty(),
    {
        UserDirectory { members: StringHashMap::new() }
    }

    /// Records `info` for `id`, in place of what was known of `id` before.
    pub fn insert(&mut self, id: UserID, info: DisplayInfo)
        ensures
            final(self)@ == old(self)@.insert(id@, info),
    {
        self.members.insert(id.0, info);
    }

    /// What is known of `id`, if anything.
    pub fn lookup(&self, id: &UserID) -> (found: Option<&DisplayInfo>)
        ensures
            match found {
                Some(info) => self@.contains_key(id@) && *info == self@[id@],
                None => !self@.contains_key(id@),
            },
    {
        self.members.get(id.0.as_str())
    }
}

/// Builds the directory from the workspace's member listing.
pub fn create_uid_username_mapping(listing: Vec<Member>) -> (directory: UserDirectory)
    ensures
        directory@ == directory_of(listing@),
{
    let mut directory = UserDirectory::new();
    let ghost all = listing@;
    for member in it: listing
        invariant
            it.seq() == all,
            directory@ == directory_of(all.take(it.index() as int)),
    {
        proof {
            let done = all.take(it.index() + 1);
            assert(done.drop_last() == all.take(it.index() as int));
            assert(done.last() == member);
        }
        directory.insert(member.id, member.info);
    }
    assert(all.take(all.len() as int) == all);
    directory
}

} // verus!
