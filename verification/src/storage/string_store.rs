//! The table of interned texts: each text stands under the identifier of
//! its content, with the number of references to it.

use crate::storage::numeric_encoder::{StrHash, StrLookup};
use crate::text::copy_str;
use vstd::prelude::*;

verus! {

/// The greatest count that the table keeps. A count that has reached it
/// stays there.
pub const MAX_COUNT: u64 = 0xffff_ffff_ffff_ffff;

/// What the table holds under one identifier.
pub struct StrEntryView {
    pub text: Seq<char>,
    pub count: nat,
}

/// The table after one more reference to a text: a new entry with count 1,
/// or the entry that is there with its count raised. The text of an entry
/// that is there stays.
pub open spec fn table_insert(table: Map<u128, StrEntryView>, hash: u128, text: Seq<char>) -> Map<
    u128,
    StrEntryView,
> {
    if table.contains_key(hash) {
        let entry = table[hash];
        let count = if entry.count >= MAX_COUNT {
            entry.count
        } else {
            entry.count + 1
        };
        table.insert(hash, StrEntryView { text: entry.text, count })
    } else {
        table.insert(hash, StrEntryView { text, count: 1 })
    }
}

/// The table after one reference less: the entry leaves when its count
/// reaches zero. A count at the limit stays, and so does a table without
/// the entry.
pub open spec fn table_remove(table: Map<u128, StrEntryView>, hash: u128) -> Map<
    u128,
    StrEntryView,
> {
    if !table.contains_key(hash) {
        table
    } else {
        let entry = table[hash];
        if entry.count >= MAX_COUNT {
            table
        } else if entry.count <= 1 {
            table.remove(hash)
        } else {
            table.insert(hash, StrEntryView { text: entry.text, count: (entry.count - 1) as nat })
        }
    }
}

/// The texts of a table, without their counts.
pub open spec fn table_texts(table: Map<u128, StrEntryView>) -> Map<u128, Seq<char>> {
    Map::new(|hash: u128| table.contains_key(hash), |hash: u128| table[hash].text)
}

struct StrEntry {
    hash: u128,
    text: String,
    count: u64,
}

impl StrEntry {
    spec fn entry_view(self) -> StrEntryView {
        StrEntryView { text: self.text@, count: self.count as nat }
    }
}

spec fn table_of(entries: Seq<StrEntry>) -> Map<u128, StrEntryView>
    decreases entries.len(),
{
    if entries.len() == 0 {
        Map::empty()
    } else {
        table_of(entries.drop_last()).insert(entries.last().hash, entries.last().entry_view())
    }
}

spec fn distinct_hashes(entries: Seq<StrEntry>) -> bool {
    forall|i: int, j: int|
        0 <= i < j < entries.len() ==> (#[trigger] entries[i]).hash != (#[trigger] entries[j]).hash
}

proof fn lemma_table_of(entries: Seq<StrEntry>)
    requires
        distinct_hashes(entries),
    ensures
        forall|i: int|
            0 <= i < entries.len() ==> table_of(entries).contains_key(
                (#[trigger] entries[i]).hash,
            ) && table_of(entries)[entries[i].hash] == entries[i].entry_view(),
        forall|hash: u128|
            table_of(entries).contains_key(hash) ==> exists|i: int|
                0 <= i < entries.len() && (#[trigger] entries[i]).hash == hash,
    decreases entries.len(),
{
    if entries.len() > 0 {
        let front = entries.drop_last();
        lemma_table_of(front);
        assert forall|i: int| 0 <= i < entries.len() implies table_of(entries).contains_key(
            (#[trigger] entries[i]).hash,
        ) && table_of(entries)[entries[i].hash] == entries[i].entry_view() by {
            if i < front.len() {
                assert(front[i] == entries[i]);
            }
        }
        assert forall|hash: u128| table_of(entries).contains_key(hash) implies exists|i: int|
            0 <= i < entries.len() && (#[trigger] entries[i]).hash == hash by {
            if hash == entries.last().hash {
                assert(entries[entries.len() - 1].hash == hash);
            } else {
                assert(table_of(front).contains_key(hash));
                let i = choose|i: int| 0 <= i < front.len() && (#[trigger] front[i]).hash == hash;
                assert(entries[i] == front[i]);
            }
        }
    }
}

proof fn lemma_table_of_update(entries: Seq<StrEntry>, at: int, entry: StrEntry)
    requires
        distinct_hashes(entries),
        0 <= at < entries.len(),
        entry.hash == entries[at].hash,
    ensures
        distinct_hashes(entries.update(at, entry)),
        table_of(entries.update(at, entry)) == table_of(entries).insert(
            entry.hash,
            entry.entry_view(),
        ),
    decreases entries.len(),
{
    let changed = entries.update(at, entry);
    assert(distinct_hashes(changed)) by {
        assert forall|i: int, j: int| 0 <= i < j < changed.len() implies (#[trigger] changed[i]).hash
            != (#[trigger] changed[j]).hash by {
            assert(changed[i].hash == entries[i].hash);
            assert(changed[j].hash == entries[j].hash);
        }
    }
    let front = entries.drop_last();
    if at == entries.len() - 1 {
        assert(changed.drop_last() =~= front);
        assert(table_of(changed) =~= table_of(entries).insert(entry.hash, entry.entry_view()));
    } else {
        lemma_table_of_update(front, at, entry);
        assert(changed.drop_last() =~= front.update(at, entry));
        assert(changed.last() == entries.last());
        assert(entries.last().hash != entry.hash);
        assert(table_of(changed) =~= table_of(entries).insert(entry.hash, entry.entry_view()));
    }
}

proof fn lemma_table_of_remove(entries: Seq<StrEntry>, at: int)
    requires
        distinct_hashes(entries),
        0 <= at < entries.len(),
    ensures
        distinct_hashes(entries.remove(at)),
        table_of(entries.remove(at)) == table_of(entries).remove(entries[at].hash),
    decreases entries.len(),
{
    let rest = entries.remove(at);
    assert(distinct_hashes(rest)) by {
        assert forall|i: int, j: int| 0 <= i < j < rest.len() implies (#[trigger] rest[i]).hash
            != (#[trigger] rest[j]).hash by {
            let a = if i < at {
                i
            } else {
                i + 1
            };
            let b = if j < at {
                j
            } else {
                j + 1
            };
            assert(rest[i] == entries[a]);
            assert(rest[j] == entries[b]);
        }
    }
    let front = entries.drop_last();
    if at == entries.len() - 1 {
        assert(rest =~= front);
        lemma_table_of(front);
        assert(!table_of(front).contains_key(entries[at].hash)) by {
            if table_of(front).contains_key(entries[at].hash) {
                let i = choose|i: int|
                    0 <= i < front.len() && (#[trigger] front[i]).hash == entries[at].hash;
                assert(entries[i].hash == entries[at].hash);
            }
        }
        assert(table_of(rest) =~= table_of(entries).remove(entries[at].hash));
    } else {
        lemma_table_of_remove(front, at);
        assert(rest.drop_last() =~= front.remove(at));
        assert(rest.last() == entries.last());
        assert(entries.last().hash != entries[at].hash);
        assert(table_of(rest) =~= table_of(entries).remove(entries[at].hash));
    }
}

/// The error type of a table that is held in memory. No lookup there
/// returns it.
#[derive(Clone, Copy, Debug)]
pub struct Unfailing;

/// The table of interned texts.
pub struct StringStore {
    entries: Vec<StrEntry>,
}

impl View for StringStore {
    type V = Map<u128, StrEntryView>;

    closed spec fn view(&self) -> Map<u128, StrEntryView> {
        table_of(self.entries@)
    }
}

impl StringStore {
    /// The table is in order: no identifier stands twice and every count is
    /// at least one.
    pub closed spec fn wf(self) -> bool {
        &&& distinct_hashes(self.entries@)
        &&& forall|i: int| 0 <= i < self.entries@.len() ==> (#[trigger] self.entries@[i]).count >= 1
    }

    /// An empty table.
    pub fn new() -> (r: Self)
        ensures
            r.wf(),
            r@ == Map::<u128, StrEntryView>::empty(),
    {
        Self { entries: Vec::new() }
    }

    fn find(&self, hash: u128) -> (r: Option<usize>)
        requires
            self.wf(),
        ensures
            r matches Some(at) ==> at < self.entries@.len() && self.entries@[at as int].hash
                == hash,
            r is None ==> !self@.contains_key(hash),
            r is Some ==> self@.contains_key(hash),
    {
        proof {
            lemma_table_of(self.entries@);
        }
        let mut i: usize = 0;
        while i < self.entries.len()
            invariant
                self.wf(),
                i <= self.entries@.len(),
                forall|j: int| 0 <= j < i ==> (#[trigger] self.entries@[j]).hash != hash,
            decreases self.entries@.len() - i,
        {
            if self.entries[i].hash == hash {
                proof {
                    lemma_table_of(self.entries@);
                }
                return Some(i);
            }
            i += 1;
        }
        None
    }

    /// The text under an identifier, if there is one.
    pub fn get(&self, hash: &StrHash) -> (r: Option<String>)
        requires
            self.wf(),
        ensures
            r is Some <==> self@.contains_key(hash.hash),
            r matches Some(text) ==> text@ == self@[hash.hash].text,
    {
        proof {
            lemma_table_of(self.entries@);
        }
        match self.find(hash.hash) {
            Some(at) => Some(copy_str(self.entries[at].text.as_str())),
            None => None,
        }
    }

    /// Whether a text stands under an identifier.
    pub fn contains(&self, hash: &StrHash) -> (r: bool)
        requires
            self.wf(),
        ensures
            r == self@.contains_key(hash.hash),
    {
        self.find(hash.hash).is_some()
    }

    /// The number of references to the text under an identifier: zero where
    /// there is none.
    pub fn count(&self, hash: &StrHash) -> (r: u64)
        requires
            self.wf(),
        ensures
            r == if self@.contains_key(hash.hash) {
                self@[hash.hash].count
            } else {
                0
            },
    {
        proof {
            lemma_table_of(self.entries@);
        }
        match self.find(hash.hash) {
            Some(at) => self.entries[at].count,
            None => 0,
        }
    }

    /// Whether the table holds no text.
    pub fn is_empty(&self) -> (r: bool)
        requires
            self.wf(),
        ensures
            r == (self@ == Map::<u128, StrEntryView>::empty()),
    {
        proof {
            lemma_table_of(self.entries@);
            if self.entries@.len() > 0 {
                assert(self@.contains_key(self.entries@[0].hash));
            } else {
                assert(self@ =~= Map::<u128, StrEntryView>::empty());
            }
        }
        self.entries.len() == 0
    }

    /// Adds one reference to a text under an identifier.
    pub fn insert(&mut self, hash: &StrHash, text: &str)
        requires
            old(self).wf(),
        ensures
            final(self).wf(),
            final(self)@ == table_insert(old(self)@, hash.hash, text@),
    {
        proof {
            lemma_table_of(self.entries@);
        }
        match self.find(hash.hash) {
            Some(at) => {
                let count = self.entries[at].count;
                let raised: u64 = if count == MAX_COUNT {
                    count
                } else {
                    count + 1
                };
                let entry = StrEntry {
                    hash: hash.hash,
                    text: copy_str(self.entries[at].text.as_str()),
                    count: raised,
                };
                proof {
                    lemma_table_of_update(self.entries@, at as int, entry);
                }
                self.entries[at] = entry;
                proof {
                    assert(self.entries@ =~= old(self).entries@.update(at as int, entry));
                    assert(self@ =~= table_insert(old(self)@, hash.hash, text@));
                }
            },
            None => {
                let entry = StrEntry { hash: hash.hash, text: copy_str(text), count: 1 };
                self.entries.push(entry);
                proof {
                    assert(self.entries@.drop_last() =~= old(self).entries@);
                    assert(distinct_hashes(self.entries@)) by {
                        assert forall|i: int, j: int|
                            0 <= i < j < self.entries@.len() implies (
                        #[trigger] self.entries@[i]).hash != (#[trigger] self.entries@[j]).hash by {
                            assert(self.entries@[i] == old(self).entries@[i]);
                            if j < old(self).entries@.len() {
                                assert(self.entries@[j] == old(self).entries@[j]);
                            } else {
                                assert(old(self)@.contains_key(old(self).entries@[i].hash));
                            }
                        }
                    }
                    assert(self@ =~= table_insert(old(self)@, hash.hash, text@));
                }
            },
        }
    }

    /// Takes one reference to the text under an identifier away.
    pub fn remove(&mut self, hash: &StrHash)
        requires
            old(self).wf(),
        ensures
            final(self).wf(),
            final(self)@ == table_remove(old(self)@, hash.hash),
    {
        proof {
            lemma_table_of(self.entries@);
        }
        match self.find(hash.hash) {
            Some(at) => {
                let count = self.entries[at].count;
                if count == MAX_COUNT {
                } else if count <= 1 {
                    proof {
                        lemma_table_of_remove(self.entries@, at as int);
                    }
                    let _ = self.entries.remove(at);
                    proof {
                        assert(self.entries@ =~= old(self).entries@.remove(at as int));
                        assert forall|i: int| 0 <= i < self.entries@.len() implies (
                        #[trigger] self.entries@[i]).count >= 1 by {
                            let a = if i < at {
                                i
                            } else {
                                i + 1
                            };
                            assert(self.entries@[i] == old(self).entries@[a]);
                        }
                    }
                } else {
                    let entry = StrEntry {
                        hash: hash.hash,
                        text: copy_str(self.entries[at].text.as_str()),
                        count: count - 1,
                    };
                    proof {
                        lemma_table_of_update(self.entries@, at as int, entry);
                    }
                    self.entries[at] = entry;
                    proof {
                        assert(self.entries@ =~= old(self).entries@.update(at as int, entry));
                    }
                }
            },
            None => {},
        }
    }

    /// A copy of the table.
    pub fn duplicate(&self) -> (r: Self)
        requires
            self.wf(),
        ensures
            r.wf(),
            r@ == self@,
    {
        let mut entries: Vec<StrEntry> = Vec::new();
        let mut i: usize = 0;
        while i < self.entries.len()
            invariant
                i <= self.entries@.len(),
                entries@.len() == i,
                forall|j: int|
                    0 <= j < i ==> (#[trigger] entries@[j]).hash == self.entries@[j].hash
                        && entries@[j].count == self.entries@[j].count && entries@[j].text@
                        == self.entries@[j].text@,
            decreases self.entries@.len() - i,
        {
            let source = &self.entries[i];
            entries.push(
                StrEntry {
                    hash: source.hash,
                    text: copy_str(source.text.as_str()),
                    count: source.count,
                },
            );
            i += 1;
        }
        proof {
            assert(distinct_hashes(entries@));
            lemma_same_table(entries@, self.entries@);
        }
        Self { entries }
    }
}

proof fn lemma_same_table(a: Seq<StrEntry>, b: Seq<StrEntry>)
    requires
        a.len() == b.len(),
        forall|j: int|
            0 <= j < a.len() ==> (#[trigger] a[j]).hash == b[j].hash && a[j].count == b[j].count
                && a[j].text@ == b[j].text@,
    ensures
        table_of(a) == table_of(b),
    decreases a.len(),
{
    if a.len() > 0 {
        lemma_same_table(a.drop_last(), b.drop_last());
        assert(a.last().entry_view() == b.last().entry_view());
    }
}

impl StrLookup for StringStore {
    type Error = Unfailing;

    closed spec fn strings(&self) -> Map<u128, Seq<char>> {
        table_texts(self@)
    }

    open spec fn valid(&self) -> bool {
        self.wf()
    }

    open spec fn never_fails(&self) -> bool {
        true
    }

    fn get_str(&self, key: &StrHash) -> (r: Result<Option<String>, Unfailing>) {
        Ok(self.get(key))
    }

    fn contains_str(&self, key: &StrHash) -> (r: Result<bool, Unfailing>) {
        Ok(self.contains(key))
    }
}

} // verus!
