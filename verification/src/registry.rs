//! The table of live connections, keyed by client identifier.

use vstd::prelude::*;
use crate::text::same_text;

verus! {

/// One registered connection.
struct Entry<H> {
    id: String,
    handle: H,
}

/// The connections that are currently reachable, each under the identifier
/// its caller chose. `H` is whatever the owner uses to reach a transport.
///
/// The table never holds two entries under one identifier.
pub struct SocketState<H> {
    entries: Vec<Entry<H>>,
}

/// No identifier occurs at two places of `entries`.
spec fn distinct_ids<H>(entries: Seq<Entry<H>>) -> bool {
    forall|i: int, j: int|
        0 <= i < entries.len() && 0 <= j < entries.len() && i != j ==> entries[i].id@
            != entries[j].id@
}

/// Whether some entry of `entries` is registered under `id`.
spec fn holds_id<H>(entries: Seq<Entry<H>>, id: Seq<char>) -> bool {
    exists|i: int| 0 <= i < entries.len() && #[trigger] entries[i].id@ == id
}

/// A place at which `id` is registered.
spec fn place_of<H>(entries: Seq<Entry<H>>, id: Seq<char>) -> int {
    choose|i: int| 0 <= i < entries.len() && #[trigger] entries[i].id@ == id
}

/// The mapping that `entries` stands for.
spec fn mapping_of<H>(entries: Seq<Entry<H>>) -> Map<Seq<char>, H> {
    Map::new(
        |id: Seq<char>| holds_id(entries, id),
        |id: Seq<char>| entries[place_of(entries, id)].handle,
    )
}

/// With distinct identifiers, the entry at place `i` is the one that the
/// mapping gives for its identifier.
proof fn lemma_entry_is_mapped<H>(entries: Seq<Entry<H>>, i: int)
    requires
        distinct_ids(entries),
        0 <= i < entries.len(),
    ensures
        mapping_of(entries).contains_key(entries[i].id@),
        mapping_of(entries)[entries[i].id@] == entries[i].handle,
{
    assert(holds_id(entries, entries[i].id@));
    assert(place_of(entries, entries[i].id@) == i);
}

/// With distinct identifiers, the mapping has one key for each entry.
proof fn lemma_one_key_per_entry<H>(entries: Seq<Entry<H>>)
    requires
        distinct_ids(entries),
    ensures
        mapping_of(entries).dom().finite(),
        mapping_of(entries).dom().len() == entries.len(),
    decreases entries.len(),
{
    if entries.len() == 0 {
        assert(mapping_of(entries).dom() =~= Set::<Seq<char>>::empty());
    } else {
        let shorter = entries.drop_last();
        let last = entries.last();
        assert(distinct_ids(shorter)) by {
            assert forall|i: int| 0 <= i < shorter.len() implies shorter[i] == entries[i] by {}
        }
        lemma_one_key_per_entry(shorter);
        assert(!holds_id(shorter, last.id@)) by {
            if holds_id(shorter, last.id@) {
                let i = place_of(shorter, last.id@);
                assert(entries[i].id@ == entries[entries.len() - 1].id@);
            }
        }
        assert forall|id: Seq<char>|
            holds_id(entries, id) <==> holds_id(shorter, id) || id == last.id@ by {
            if holds_id(entries, id) {
                let i = place_of(entries, id);
                if i < shorter.len() {
                    assert(shorter[i].id@ == id);
                }
            }
            if holds_id(shorter, id) {
                assert(entries[place_of(shorter, id)].id@ == id);
            }
            if id == last.id@ {
                assert(entries[entries.len() - 1].id@ == id);
            }
        }
        assert(mapping_of(entries).dom() =~= mapping_of(shorter).dom().insert(last.id@));
    }
}

/// Putting an entry at the place of its identifier, or at the end where
/// the identifier is new, keeps the identifiers distinct and maps the
/// identifier to the new entry.
proof fn lemma_put<H>(before: Seq<Entry<H>>, after: Seq<Entry<H>>, at: int)
    requires
        distinct_ids(before),
        0 <= at <= before.len(),
        at < before.len() ==> after == before.update(at, after[at]) && before[at].id@
            == after[at].id@,
        at == before.len() ==> after == before.push(after[at]) && !holds_id(before, after[at].id@),
    ensures
        distinct_ids(after),
        mapping_of(after) == mapping_of(before).insert(after[at].id@, after[at].handle),
{
    let key = after[at].id@;
    assert forall|j: int| 0 <= j < after.len() && j != at implies after[j] == before[j]
        && after[j].id@ != key by {
        assert(after[j] == before[j]);
    }
    assert forall|k: Seq<char>| holds_id(after, k) <==> holds_id(before, k) || k == key by {
        if holds_id(after, k) && k != key {
            assert(before[place_of(after, k)].id@ == k);
        }
        if holds_id(before, k) {
            assert(after[place_of(before, k)].id@ == k);
        }
        if k == key {
            assert(after[at].id@ == k);
        }
    }
    assert forall|k: Seq<char>| holds_id(after, k) implies #[trigger] mapping_of(after)[k]
        == mapping_of(before).insert(key, after[at].handle)[k] by {
        let j = place_of(after, k);
        lemma_entry_is_mapped(after, j);
        if j != at {
            lemma_entry_is_mapped(before, j);
        }
    }
    assert(mapping_of(after) =~= mapping_of(before).insert(key, after[at].handle));
}

/// Taking the entry at place `i` out keeps the identifiers distinct and
/// removes its identifier, and no other, from the mapping.
proof fn lemma_take<H>(before: Seq<Entry<H>>, i: int)
    requires
        distinct_ids(before),
        0 <= i < before.len(),
    ensures
        distinct_ids(before.remove(i)),
        mapping_of(before.remove(i)) == mapping_of(before).remove(before[i].id@),
{
    let after = before.remove(i);
    let gone = before[i].id@;
    let origin = |j: int|
        if j < i {
            j
        } else {
            j + 1
        };
    assert forall|j: int| 0 <= j < after.len() implies after[j] == before[origin(j)] by {}
    assert(distinct_ids(after));
    assert forall|k: Seq<char>| holds_id(after, k) <==> holds_id(before, k) && k != gone by {
        if holds_id(after, k) {
            assert(before[origin(place_of(after, k))].id@ == k);
        }
        if holds_id(before, k) && k != gone {
            let j = place_of(before, k);
            let moved = if j < i {
                j
            } else {
                j - 1
            };
            assert(after[moved].id@ == k);
        }
    }
    assert forall|k: Seq<char>| holds_id(after, k) implies #[trigger] mapping_of(after)[k]
        == mapping_of(before).remove(gone)[k] by {
        let j = place_of(after, k);
        lemma_entry_is_mapped(after, j);
        lemma_entry_is_mapped(before, origin(j));
    }
    assert(mapping_of(after) =~= mapping_of(before).remove(gone));
}

impl<H> View for SocketState<H> {
    type V = Map<Seq<char>, H>;

    closed spec fn view(&self) -> Map<Seq<char>, H> {
        mapping_of(self.entries@)
    }
}

impl<H> SocketState<H> {
    /// Whether no identifier has more than one entry in the table. Every
    /// table that a program holds is such a table.
    #[verifier::type_invariant]
    pub closed spec fn one_entry_per_id(&self) -> bool {
        distinct_ids(self.entries@)
    }

    /// How many entries the table stores.
    pub closed spec fn stored(&self) -> nat {
        self.entries@.len()
    }

    /// A table with one entry per identifier stores as many entries as it
    /// has identifiers.
    pub proof fn lemma_stored_is_number_of_ids(&self)
        requires
            self.one_entry_per_id(),
        ensures
            self@.dom().finite(),
            self.stored() == self@.dom().len(),
    {
        lemma_one_key_per_entry(self.entries@);
    }

    /// A table without connections.
    pub fn new() -> (state: Self)
        ensures
            state@ == Map::<Seq<char>, H>::empty(),
            state.stored() == 0,
            state.one_entry_per_id(),
    {
        let state = SocketState { entries: Vec::new() };
        assert(state@ =~= Map::<Seq<char>, H>::empty());
        state
    }

    /// The place at which `id` is registered, if it is.
    fn place(&self, id: &str) -> (found: Option<usize>)
        ensures
            match found {
                Some(i) => i < self.entries@.len() && self.entries@[i as int].id@ == id@,
                None => !holds_id(self.entries@, id@),
            },
    {
        let mut i: usize = 0;
        while i < self.entries.len()
            invariant
                i <= self.entries@.len(),
                forall|j: int| 0 <= j < i ==> self.entries@[j].id@ != id@,
            decreases self.entries@.len() - i,
        {
            if same_text(self.entries[i].id.as_str(), id) {
                return Some(i);
            }
            i = i + 1;
        }
        None
    }

    /// Puts `handle` under `id`. An entry that was there before is replaced
    /// and dropped; nothing else is done to it.
    pub fn register(&mut self, id: String, handle: H)
        ensures
            final(self)@ == old(self)@.insert(id@, handle),
            final(self).one_entry_per_id(),
    {
        proof {
            use_type_invariant(&*self);
        }
        let found = self.place(id.as_str());
        let ghost before = self.entries@;
        let mut entries: Vec<Entry<H>> = Vec::new();
        core::mem::swap(&mut self.entries, &mut entries);
        match found {
            Some(i) => {
                entries.set(i, Entry { id, handle });
                proof {
                    lemma_put(before, entries@, i as int);
                }
            },
            None => {
                entries.push(Entry { id, handle });
                proof {
                    lemma_put(before, entries@, before.len() as int);
                }
            },
        }
        self.entries = entries;
    }

    /// The entry under `id`, without taking it out.
    pub fn lookup(&self, id: &str) -> (found: Option<&H>)
        ensures
            match found {
                Some(handle) => self@.contains_key(id@) && *handle == self@[id@],
                None => !self@.contains_key(id@),
            },
    {
        proof {
            use_type_invariant(self);
        }
        match self.place(id) {
            Some(i) => {
                proof {
                    lemma_entry_is_mapped(self.entries@, i as int);
                }
                Some(&self.entries[i].handle)
            },
            None => None,
        }
    }

    /// Whether a connection is registered under `id`.
    pub fn contains(&self, id: &str) -> (found: bool)
        ensures
            found == self@.contains_key(id@),
    {
        self.place(id).is_some()
    }

    /// Takes the entry under `id` out of the table and hands it over.
    /// Without such an entry the table stays as it is.
    pub fn remove(&mut self, id: &str) -> (detached: Option<H>)
        ensures
            final(self)@ == old(self)@.remove(id@),
            detached == if old(self)@.contains_key(id@) {
                Some(old(self)@[id@])
            } else {
                None
            },
            final(self).one_entry_per_id(),
    {
        proof {
            use_type_invariant(&*self);
        }
        match self.place(id) {
            Some(i) => {
                proof {
                    lemma_entry_is_mapped(self.entries@, i as int);
                    lemma_take(self.entries@, i as int);
                }
                let mut entries: Vec<Entry<H>> = Vec::new();
                core::mem::swap(&mut self.entries, &mut entries);
                let entry = entries.remove(i);
                self.entries = entries;
                Some(entry.handle)
            },
            None => {
                assert(self@.remove(id@) =~= self@);
                None
            },
        }
    }

    /// The number of registered connections.
    pub fn len(&self) -> (n: usize)
        ensures
            self@.dom().finite(),
            n == self@.dom().len(),
            n == self.stored(),
    {
        proof {
            use_type_invariant(self);
            self.lemma_stored_is_number_of_ids();
        }
        self.entries.len()
    }

    /// Whether no connection is registered.
    pub fn is_empty(&self) -> (empty: bool)
        ensures
            empty == (self@ == Map::<Seq<char>, H>::empty()),
    {
        proof {
            use_type_invariant(self);
            if self.entries@.len() == 0 {
                assert(self@ =~= Map::<Seq<char>, H>::empty());
            } else {
                lemma_entry_is_mapped(self.entries@, 0);
            }
        }
        self.entries.len() == 0
    }
}

/// One call that changes the registry.
pub enum RegistryCall<H> {
    /// `register` with this identifier and entry.
    Register { id: Seq<char>, handle: H },
    /// `remove` with this identifier.
    Remove { id: Seq<char> },
}

impl<H> RegistryCall<H> {
    /// The identifier that the call is about.
    pub open spec fn id(self) -> Seq<char> {
        match self {
            RegistryCall::Register { id, handle } => id,
            RegistryCall::Remove { id } => id,
        }
    }

    /// The registry after the call was made on `m`.
    pub open spec fn after(self, m: Map<Seq<char>, H>) -> Map<Seq<char>, H> {
        match self {
            RegistryCall::Register { id, handle } => m.insert(id, handle),
            RegistryCall::Remove { id } => m.remove(id),
        }
    }
}

/// The registry after `calls` were made on `m`, one after the other.
pub open spec fn after_calls<H>(m: Map<Seq<char>, H>, calls: Seq<RegistryCall<H>>) -> Map<
    Seq<char>,
    H,
>
    decreases calls.len(),
{
    if calls.len() == 0 {
        m
    } else {
        calls.last().after(after_calls(m, calls.drop_last()))
    }
}

/// The last of `calls` that is about `id`.
pub open spec fn last_call_on<H>(calls: Seq<RegistryCall<H>>, id: Seq<char>) -> Option<
    RegistryCall<H>,
>
    decreases calls.len(),
{
    if calls.len() == 0 {
        None
    } else if calls.last().id() == id {
        Some(calls.last())
    } else {
        last_call_on(calls.drop_last(), id)
    }
}

/// Removing an identifier that is not registered changes nothing.
pub proof fn lemma_remove_absent<H>(m: Map<Seq<char>, H>, id: Seq<char>)
    requires
        !m.contains_key(id),
    ensures
        m.remove(id) == m,
{
    assert(m.remove(id) =~= m);
}

/// Whatever calls were made in whatever order, the last call about an
/// identifier decides alone what the registry holds under it: the entry of
/// that call where it was a `register`, nothing where it was a `remove`,
/// and what was there at the start where no call was about it.
pub proof fn lemma_last_call_decides<H>(
    m: Map<Seq<char>, H>,
    calls: Seq<RegistryCall<H>>,
    id: Seq<char>,
)
    ensures
        match last_call_on(calls, id) {
            Some(RegistryCall::Register { id: _, handle }) => after_calls(m, calls).contains_key(id)
                && after_calls(m, calls)[id] == handle,
            Some(RegistryCall::Remove { id: _ }) => !after_calls(m, calls).contains_key(id),
            None => after_calls(m, calls).contains_key(id) == m.contains_key(id) && (
            m.contains_key(id) ==> after_calls(m, calls)[id] == m[id]),
        },
    decreases calls.len(),
{
    if calls.len() > 0 {
        lemma_last_call_decides(m, calls.drop_last(), id);
    }
}

/// A registry of finitely many connections has finitely many after any
/// calls, and at most one more for each call.
pub proof fn lemma_calls_keep_finite<H>(m: Map<Seq<char>, H>, calls: Seq<RegistryCall<H>>)
    requires
        m.dom().finite(),
    ensures
        after_calls(m, calls).dom().finite(),
        after_calls(m, calls).dom().len() <= m.dom().len() + calls.len(),
    decreases calls.len(),
{
    if calls.len() > 0 {
        lemma_calls_keep_finite(m, calls.drop_last());
        let before = after_calls(m, calls.drop_last());
        match calls.last() {
            RegistryCall::Register { id, handle } => {
                assert(before.insert(id, handle).dom() =~= before.dom().insert(id));
            },
            RegistryCall::Remove { id } => {
                assert(before.remove(id).dom() =~= before.dom().remove(id));
            },
        }
    }
}

} // verus!
