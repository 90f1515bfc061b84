//! The state store: what the agent has been told, key by key, and the
//! snapshot it is kept in between runs.
//!
//! The snapshot is written and read by the `bincode` crate.

use vstd::prelude::*;
use vstd::string::*;
use crate::text::same;

verus! {

/// `bincode::ErrorKind`, the reason a snapshot was not written or read;
/// nothing is said of what is inside.
#[verifier::external_type_specification]
#[verifier::external_body]
pub struct ExBincodeErrorKind(bincode::ErrorKind);

/// What `bincode::deserialize` reads from `bytes` as a list of pairs of
/// strings: nothing where it fails.
pub uninterp spec fn bincode_decoding(bytes: Seq<u8>) -> Option<Seq<(Seq<char>, Seq<char>)>>;

/// Calls `bincode::deserialize`, which reads a list of pairs of strings from
/// `bytes` or says why it cannot.
#[verifier::external_body]
fn decode_pairs(bytes: &[u8]) -> (r: Result<Vec<(String, String)>, bincode::Error>)
    ensures
        match r {
            Ok(pairs) => bincode_decoding(bytes@) == Some(pairs.deep_view()),
            Err(_) => bincode_decoding(bytes@) is None,
        },
{
    bincode::deserialize(bytes)
}

/// What `bincode::serialize` writes for `pairs`, a list of pairs of strings:
/// nothing where it fails.
pub uninterp spec fn bincode_encoding(pairs: Seq<(Seq<char>, Seq<char>)>) -> Option<Seq<u8>>;

/// Calls `bincode::serialize`, which writes a list of pairs of strings as
/// bytes or says why it cannot. What it writes, `bincode::deserialize` reads
/// back as the same list.
#[verifier::external_body]
fn encode_pairs(pairs: &Vec<(String, String)>) -> (r: Result<Vec<u8>, bincode::Error>)
    ensures
        match r {
            Ok(bytes) => bincode_encoding(pairs.deep_view()) == Some(bytes@) && bincode_decoding(
                bytes@,
            ) == Some(pairs.deep_view()),
            Err(_) => bincode_encoding(pairs.deep_view()) is None,
        },
{
    bincode::serialize(pairs)
}

/// The map that a list of pairs stands for: of two pairs with one key, the
/// later one counts.
pub open spec fn map_of(pairs: Seq<(Seq<char>, Seq<char>)>) -> Map<Seq<char>, Seq<char>>
    decreases pairs.len(),
{
    if pairs.len() == 0 {
        Map::empty()
    } else {
        map_of(pairs.drop_last()).insert(pairs.last().0, pairs.last().1)
    }
}

/// No key stands twice in `pairs`.
pub open spec fn distinct_keys(pairs: Seq<(Seq<char>, Seq<char>)>) -> bool {
    forall|i: int, j: int| 0 <= i < j < pairs.len() ==> pairs[i].0 != pairs[j].0
}

/// Where `key` stands in `pairs`: the index of the first pair that holds it,
/// or `pairs.len()` where none does.
pub open spec fn key_index(pairs: Seq<(Seq<char>, Seq<char>)>, key: Seq<char>) -> int
    decreases pairs.len(),
{
    if pairs.len() == 0 || pairs[0].0 == key {
        0
    } else {
        1 + key_index(pairs.drop_first(), key)
    }
}

/// `pairs` once `key` was given `value`: the value stands in the place of the
/// one that the key had, or the pair is new and stands at the end.
pub open spec fn put(pairs: Seq<(Seq<char>, Seq<char>)>, key: Seq<char>, value: Seq<char>) -> Seq<
    (Seq<char>, Seq<char>),
> {
    if key_index(pairs, key) < pairs.len() {
        pairs.update(key_index(pairs, key), (key, value))
    } else {
        pairs.push((key, value))
    }
}

/// The pairs that a store holds once it was given each pair of `pairs` in
/// turn.
pub open spec fn gathered(pairs: Seq<(Seq<char>, Seq<char>)>) -> Seq<(Seq<char>, Seq<char>)>
    decreases pairs.len(),
{
    if pairs.len() == 0 {
        Seq::empty()
    } else {
        put(gathered(pairs.drop_last()), pairs.last().0, pairs.last().1)
    }
}

/// The pairs that the store read from a snapshot holds: those read from it,
/// gathered, and none where it cannot be read.
pub open spec fn loaded_pairs(bytes: Seq<u8>) -> Seq<(Seq<char>, Seq<char>)> {
    match bincode_decoding(bytes) {
        Some(pairs) => gathered(pairs),
        None => Seq::empty(),
    }
}

/// An index with the key in no pair before it, which holds the key or is the
/// end, is where the key stands.
proof fn lemma_key_index_is(pairs: Seq<(Seq<char>, Seq<char>)>, key: Seq<char>, k: int)
    requires
        0 <= k <= pairs.len(),
        forall|i: int| 0 <= i < k ==> pairs[i].0 != key,
        k < pairs.len() ==> pairs[k].0 == key,
    ensures
        key_index(pairs, key) == k,
    decreases pairs.len(),
{
    if pairs.len() == 0 || pairs[0].0 == key {
    } else {
        let rest = pairs.drop_first();
        assert forall|i: int| 0 <= i < k - 1 implies rest[i].0 != key by {
            assert(rest[i] == pairs[i + 1]);
        }
        lemma_key_index_is(rest, key, k - 1);
    }
}

/// What a snapshot holds: the map of the pairs read from it, and nothing
/// where it cannot be read.
pub open spec fn loaded(bytes: Seq<u8>) -> Map<Seq<char>, Seq<char>> {
    match bincode_decoding(bytes) {
        Some(pairs) => map_of(pairs),
        None => Map::empty(),
    }
}

/// A key that stands in no pair is no key of the map.
proof fn lemma_absent(pairs: Seq<(Seq<char>, Seq<char>)>, key: Seq<char>)
    requires
        forall|i: int| 0 <= i < pairs.len() ==> pairs[i].0 != key,
    ensures
        !map_of(pairs).contains_key(key),
    decreases pairs.len(),
{
    if pairs.len() > 0 {
        let rest = pairs.drop_last();
        assert forall|i: int| 0 <= i < rest.len() implies rest[i].0 != key by {
            assert(rest[i] == pairs[i]);
        }
        lemma_absent(rest, key);
        assert(pairs.last() == pairs[pairs.len() - 1]);
    }
}

/// Where no key stands twice, the map gives each pair's key its value.
proof fn lemma_present(pairs: Seq<(Seq<char>, Seq<char>)>, at: int)
    requires
        distinct_keys(pairs),
        0 <= at < pairs.len(),
    ensures
        map_of(pairs).contains_key(pairs[at].0),
        map_of(pairs)[pairs[at].0] == pairs[at].1,
    decreases pairs.len(),
{
    let rest = pairs.drop_last();
    if at < pairs.len() - 1 {
        assert forall|i: int, j: int| 0 <= i < j < rest.len() implies rest[i].0 != rest[j].0 by {
            assert(rest[i] == pairs[i] && rest[j] == pairs[j]);
        }
        lemma_present(rest, at);
        assert(rest[at] == pairs[at]);
        assert(pairs[at].0 != pairs[pairs.len() - 1].0);
    }
}

/// Where no key stands twice, a new value in one pair is a new value for its
/// key in the map.
proof fn lemma_replaced(pairs: Seq<(Seq<char>, Seq<char>)>, at: int, value: Seq<char>)
    requires
        distinct_keys(pairs),
        0 <= at < pairs.len(),
    ensures
        distinct_keys(pairs.update(at, (pairs[at].0, value))),
        map_of(pairs.update(at, (pairs[at].0, value))) == map_of(pairs).insert(pairs[at].0, value),
    decreases pairs.len(),
{
    let changed = pairs.update(at, (pairs[at].0, value));
    let rest = pairs.drop_last();
    assert forall|i: int, j: int| 0 <= i < j < changed.len() implies changed[i].0
        != changed[j].0 by {
        assert(changed[i].0 == pairs[i].0 && changed[j].0 == pairs[j].0);
    }
    if at < pairs.len() - 1 {
        assert forall|i: int, j: int| 0 <= i < j < rest.len() implies rest[i].0 != rest[j].0 by {
            assert(rest[i] == pairs[i] && rest[j] == pairs[j]);
        }
        lemma_replaced(rest, at, value);
        assert(rest[at] == pairs[at]);
        assert(changed.drop_last() =~= rest.update(at, (pairs[at].0, value)));
        assert(changed.last() == pairs.last());
        assert(pairs[at].0 != pairs[pairs.len() - 1].0);
        assert(map_of(changed) =~= map_of(pairs).insert(pairs[at].0, value));
    } else {
        assert(changed.drop_last() =~= rest);
        assert(map_of(changed) =~= map_of(pairs).insert(pairs[at].0, value));
    }
}

/// The snapshot could not be written.
#[derive(Debug)]
pub struct SnapshotError {}

/// The agent's memory: a value for each key it has been told.
///
/// The pairs are kept in the order in which their keys were first set, and no
/// key stands twice.
#[derive(Debug)]
pub struct StateStore {
    entries: Vec<(String, String)>,
}

impl View for StateStore {
    type V = Map<Seq<char>, Seq<char>>;

    open spec fn view(&self) -> Map<Seq<char>, Seq<char>> {
        map_of(self.pairs())
    }
}

impl StateStore {
    /// The pairs the store holds, in the order in which it keeps them.
    pub closed spec fn pairs(&self) -> Seq<(Seq<char>, Seq<char>)> {
        self.entries.deep_view()
    }

    /// The store is well formed: no key stands twice among its pairs.
    pub open spec fn wf(&self) -> bool {
        distinct_keys(self.pairs())
    }

    /// What `bincode` writes for the pairs of the store: nothing where it
    /// fails.
    pub open spec fn snapshot(&self) -> Option<Seq<u8>> {
        bincode_encoding(self.pairs())
    }

    /// A store that holds nothing.
    pub fn new() -> (store: StateStore)
        ensures
            store.wf(),
            store.pairs() == Seq::<(Seq<char>, Seq<char>)>::empty(),
            store@ == Map::<Seq<char>, Seq<char>>::empty(),
    {
        let entries: Vec<(String, String)> = Vec::new();
        assert(entries.deep_view() =~= Seq::empty());
        StateStore { entries }
    }

    /// Where `key` stands among the entries, if it does.
    fn find(&self, key: &str) -> (at: Option<usize>)
        ensures
            match at {
                Some(i) => i < self.entries.len() && self.entries[i as int].0@ == key@ && forall|
                    j: int,
                | 0 <= j < i ==> self.entries[j].0@ != key@,
                None => forall|i: int| 0 <= i < self.entries.len() ==> self.entries[i].0@ != key@,
            },
    {
        let mut i: usize = 0;
        while i < self.entries.len()
            invariant
                i <= self.entries.len(),
                forall|j: int| 0 <= j < i ==> self.entries[j].0@ != key@,
            decreases self.entries.len() - i,
        {
            if same(self.entries[i].0.as_str(), key) {
                return Some(i);
            }
            i += 1;
        }
        None
    }

    /// The value of `key`, if it has one.
    pub fn get(&self, key: &str) -> (value: Option<&String>)
        requires
            self.wf(),
        ensures
            match value {
                Some(v) => self@.contains_key(key@) && v@ == self@[key@],
                None => !self@.contains_key(key@),
            },
    {
        let ghost pairs = self.entries.deep_view();
        match self.find(key) {
            Some(i) => {
                proof {
                    lemma_present(pairs, i as int);
                }
                Some(&self.entries[i].1)
            },
            None => {
                proof {
                    assert forall|i: int| 0 <= i < pairs.len() implies pairs[i].0 != key@ by {
                        assert(pairs[i].0 == self.entries[i].0@);
                    }
                    lemma_absent(pairs, key@);
                }
                None
            },
        }
    }

    /// Gives `key` the value `value`, whether or not it had one.
    pub fn set(&mut self, key: &str, value: &str)
        requires
            old(self).wf(),
        ensures
            final(self).wf(),
            final(self).pairs() == put(old(self).pairs(), key@, value@),
            final(self)@ == old(self)@.insert(key@, value@),
    {
        let ghost pairs = self.entries.deep_view();
        let found = self.find(key);
        proof {
            match found {
                Some(i) => {
                    assert forall|j: int| 0 <= j < i implies pairs[j].0 != key@ by {
                        assert(pairs[j].0 == self.entries[j].0@);
                    }
                    assert(pairs[i as int].0 == self.entries[i as int].0@);
                    lemma_key_index_is(pairs, key@, i as int);
                },
                None => {
                    assert forall|j: int| 0 <= j < pairs.len() implies pairs[j].0 != key@ by {
                        assert(pairs[j].0 == self.entries[j].0@);
                    }
                    lemma_key_index_is(pairs, key@, pairs.len() as int);
                },
            }
        }
        match found {
            Some(i) => {
                proof {
                    lemma_replaced(pairs, i as int, value@);
                }
                self.entries.set(i, (key.to_owned(), value.to_owned()));
                assert(self.entries.deep_view() =~= pairs.update(i as int, (key@, value@)));
            },
            None => {
                self.entries.push((key.to_owned(), value.to_owned()));
                assert(self.entries.deep_view() =~= pairs.push((key@, value@)));
                assert(pairs.push((key@, value@)).drop_last() =~= pairs);
                assert forall|i: int, j: int|
                    0 <= i < j < self.entries.deep_view().len() implies self.entries.deep_view()[i].0
                    != self.entries.deep_view()[j].0 by {
                    if j < pairs.len() {
                        assert(self.entries.deep_view()[i] == pairs[i]);
                        assert(self.entries.deep_view()[j] == pairs[j]);
                    } else {
                        assert(self.entries.deep_view()[i] == pairs[i]);
                        assert(pairs[i].0 == old(self).entries[i].0@);
                    }
                }
            },
        }
    }

    /// The store that a snapshot holds: an empty one where the snapshot is
    /// empty or cannot be read.
    pub fn load(bytes: &[u8]) -> (store: StateStore)
        ensures
            store.wf(),
            store.pairs() == loaded_pairs(bytes@),
            store@ == loaded(bytes@),
    {
        let mut store = StateStore::new();
        match decode_pairs(bytes) {
            Ok(pairs) => {
                let mut i: usize = 0;
                while i < pairs.len()
                    invariant
                        i <= pairs.len(),
                        store.wf(),
                        store.pairs() == gathered(pairs.deep_view().take(i as int)),
                        store@ == map_of(pairs.deep_view().take(i as int)),
                    decreases pairs.len() - i,
                {
                    store.set(pairs[i].0.as_str(), pairs[i].1.as_str());
                    proof {
                        let all = pairs.deep_view();
                        assert(all.take(i + 1).drop_last() =~= all.take(i as int));
                        assert(all.take(i + 1).last() == (pairs[i as int].0@, pairs[i as int].1@));
                    }
                    i += 1;
                }
                assert(pairs.deep_view().take(i as int) =~= pairs.deep_view());
                store
            },
            Err(_) => store,
        }
    }

    /// A snapshot of the store: what `bincode` writes for its pairs, in the
    /// order in which the store keeps them. It fails where `bincode` does.
    /// `load` reads the snapshot back as the same store.
    pub fn dump(&self) -> (r: Result<Vec<u8>, SnapshotError>)
        ensures
            r is Ok == self.snapshot() is Some,
            r matches Ok(bytes) ==> Some(bytes@) == self.snapshot() && loaded(bytes@) == self@,
    {
        match encode_pairs(&self.entries) {
            Ok(bytes) => Ok(bytes),
            Err(_) => Err(SnapshotError {  }),
        }
    }
}

} // verus!
