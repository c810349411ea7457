use vstd::prelude::*;

verus! {

/// The key under which hashed images are grouped: resolution and
/// preprocessing of the configuration, hash bytes, width, height.
pub type GroupKey = (u32, bool, Seq<u8>, u32, u32);

/// The executable form of a `GroupKey`.
pub type KeyBytes = (u32, bool, Vec<u8>, u32, u32);

pub open spec fn key_view(k: KeyBytes) -> GroupKey {
    (k.0, k.1, k.2@, k.3, k.4)
}

/// A hash map from group keys to group positions.
#[verifier::external_body]
pub struct KeyIndex {
    map: hashbrown::HashMap<KeyBytes, usize>,
}

/// The entries of a `KeyIndex`.
pub uninterp spec fn index_entries(index: KeyIndex) -> Map<GroupKey, usize>;

impl KeyIndex {
    /// Relies on hashbrown::HashMap::new: an empty map.
    #[verifier::external_body]
    pub(crate) fn new() -> (r: KeyIndex)
        ensures
            index_entries(r) =~= Map::empty(),
    {
        KeyIndex { map: hashbrown::HashMap::new() }
    }

    /// Relies on hashbrown::HashMap::get: the value stored under an equal
    /// key, if any. Tuples and `Vec<u8>` compare and hash by value.
    #[verifier::external_body]
    pub(crate) fn lookup(&self, key: &KeyBytes) -> (r: Option<usize>)
        ensures
            match r {
                Some(v) => index_entries(*self).contains_key(key_view(*key))
                    && index_entries(*self)[key_view(*key)] == v,
                None => !index_entries(*self).contains_key(key_view(*key)),
            },
    {
        self.map.get(key).copied()
    }

    /// Relies on hashbrown::HashMap::insert: the key now maps to the value,
    /// every other entry is kept.
    #[verifier::external_body]
    pub(crate) fn insert(&mut self, key: KeyBytes, value: usize)
        ensures
            index_entries(*final(self)) == index_entries(*old(self)).insert(key_view(key), value),
    {
        self.map.insert(key, value);
    }
}

/// A hash set of path strings.
#[verifier::external_body]
pub struct PathSet {
    set: hashbrown::HashSet<String>,
}

/// The members of a `PathSet`.
pub uninterp spec fn path_set_members(set: PathSet) -> Set<Seq<char>>;

impl PathSet {
    /// Relies on hashbrown::HashSet::new: an empty set.
    #[verifier::external_body]
    pub(crate) fn new() -> (r: PathSet)
        ensures
            path_set_members(r) =~= Set::empty(),
    {
        PathSet { set: hashbrown::HashSet::new() }
    }

    /// Relies on hashbrown::HashSet::insert: the value is a member afterwards,
    /// and nothing else changes.
    #[verifier::external_body]
    pub(crate) fn insert(&mut self, value: String)
        ensures
            path_set_members(*final(self)) == path_set_members(*old(self)).insert(value@),
    {
        self.set.insert(value);
    }

    /// Relies on hashbrown::HashSet::contains: whether an equal string is a
    /// member (`String` borrows as `str`, with the same equality and hash).
    #[verifier::external_body]
    pub(crate) fn contains(&self, value: &str) -> (r: bool)
        ensures
            r == path_set_members(*self).contains(value@),
    {
        self.set.contains(value)
    }
}

} // verus!
