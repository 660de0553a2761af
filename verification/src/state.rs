//! The typed, per-request state container.
//!
//! The container is a mapping from a stable type identifier (a `u64` key
//! chosen by the author of the stored data) to one owned, type-erased slot.
//! Exactly one value is retained per key: storing under a key already present
//! replaces the old slot. Typed accessors perform the downcast and report an
//! explicit absent-value or kind-mismatch error instead of an unchecked cast.
//!
//! A reserved field holds the request identifier, established once when the
//! container is created and read-only thereafter.

use vstd::prelude::*;

verus! {

/// One type-erased slot: a tagged union over the kinds of request-scoped
/// values the core carries (text, counters, flags, raw bytes).
#[derive(Clone, Debug)]
pub enum StateValue {
    Text(String),
    Number(u64),
    Flag(bool),
    Bytes(Vec<u8>),
}

/// Mathematical model of one slot.
pub enum StateValueView {
    Text(Seq<char>),
    Number(u64),
    Flag(bool),
    Bytes(Seq<u8>),
}

impl View for StateValue {
    type V = StateValueView;

    open spec fn view(&self) -> StateValueView {
        match self {
            StateValue::Text(s) => StateValueView::Text(s@),
            StateValue::Number(n) => StateValueView::Number(*n),
            StateValue::Flag(b) => StateValueView::Flag(*b),
            StateValue::Bytes(b) => StateValueView::Bytes(b@),
        }
    }
}

/// Why a retrieval failed: nothing is stored under the key, or the slot under
/// the key holds a value of another kind.
#[derive(Clone, Copy, Debug, PartialEq, Eq, Structural)]
pub enum StateError {
    Absent,
    KindMismatch,
}

/// Mathematical model of the container: the request identifier plus the
/// mapping from keys to slots.
#[verifier::ext_equal]
pub struct StateView {
    pub request_id: Seq<char>,
    pub data: Map<u64, StateValueView>,
}

/// The per-request state container. It is created once per incoming request
/// and passed by exclusive ownership through the whole middleware chain.
pub struct State {
    request_id: String,
    entries: Vec<(u64, StateValue)>,
}

/// The mapping that a sequence of key/slot pairs represents; later pairs win.
spec fn entries_map(s: Seq<(u64, StateValue)>) -> Map<u64, StateValueView>
    decreases s.len(),
{
    if s.len() == 0 {
        Map::empty()
    } else {
        entries_map(s.drop_last()).insert(s.last().0, s.last().1@)
    }
}

/// No key occurs twice among the pairs.
spec fn unique_keys(s: Seq<(u64, StateValue)>) -> bool {
    forall|i: int, j: int|
        0 <= i < j < s.len() ==> (#[trigger] s[i]).0 != (#[trigger] s[j]).0
}

impl View for State {
    type V = StateView;

    closed spec fn view(&self) -> StateView {
        StateView { request_id: self.request_id@, data: entries_map(self.entries@) }
    }
}

proof fn lemma_entries_map_domain(s: Seq<(u64, StateValue)>, key: u64)
    ensures
        entries_map(s).contains_key(key) <==> exists|i: int|
            0 <= i < s.len() && (#[trigger] s[i]).0 == key,
    decreases s.len(),
{
    if s.len() > 0 {
        lemma_entries_map_domain(s.drop_last(), key);
        if s.last().0 == key {
            assert(s[s.len() - 1].0 == key);
        }
        if entries_map(s).contains_key(key) && s.last().0 != key {
            let i = choose|i: int| 0 <= i < s.drop_last().len() && (#[trigger] s.drop_last()[i]).0 == key;
            assert(s[i].0 == key);
        }
        if exists|i: int| 0 <= i < s.len() && (#[trigger] s[i]).0 == key {
            let i = choose|i: int| 0 <= i < s.len() && (#[trigger] s[i]).0 == key;
            if i < s.len() - 1 {
                assert(s.drop_last()[i].0 == key);
            }
        }
    }
}

proof fn lemma_entries_map_lookup(s: Seq<(u64, StateValue)>, i: int, key: u64)
    requires
        unique_keys(s),
        0 <= i < s.len(),
        s[i].0 == key,
    ensures
        entries_map(s).contains_key(key),
        entries_map(s)[key] == s[i].1@,
    decreases s.len(),
{
    if i == s.len() - 1 {
        assert(entries_map(s) == entries_map(s.drop_last()).insert(key, s.last().1@));
    } else {
        assert(s.drop_last()[i] == s[i]);
        lemma_entries_map_lookup(s.drop_last(), i, key);
        assert(s.last().0 != key);
    }
}

proof fn lemma_unique_remove(s: Seq<(u64, StateValue)>, i: int)
    requires
        unique_keys(s),
        0 <= i < s.len(),
    ensures
        unique_keys(s.remove(i)),
        forall|j: int|
            0 <= j < s.remove(i).len() ==> (#[trigger] s.remove(i)[j]).0 != s[i].0,
{
    let t = s.remove(i);
    assert forall|j: int| 0 <= j < t.len() implies (#[trigger] t[j]).0 != s[i].0 by {
        if j < i {
            assert(t[j] == s[j]);
        } else {
            assert(t[j] == s[j + 1]);
        }
    }
    assert forall|p: int, q: int| 0 <= p < q < t.len() implies (#[trigger] t[p]).0 != (#[trigger] t[q]).0 by {
        if q < i {
            assert(t[p] == s[p] && t[q] == s[q]);
        } else if p < i {
            assert(t[p] == s[p] && t[q] == s[q + 1]);
        } else {
            assert(t[p] == s[p + 1] && t[q] == s[q + 1]);
        }
    }
}

proof fn lemma_entries_map_remove(s: Seq<(u64, StateValue)>, i: int)
    requires
        unique_keys(s),
        0 <= i < s.len(),
    ensures
        entries_map(s.remove(i)) == entries_map(s).remove(s[i].0),
    decreases s.len(),
{
    let key = s[i].0;
    if i == s.len() - 1 {
        assert(s.remove(i) =~= s.drop_last());
        lemma_entries_map_domain(s.drop_last(), key);
        assert forall|j: int| 0 <= j < s.drop_last().len() implies (#[trigger] s.drop_last()[j]).0 != key by {
            assert(s.drop_last()[j] == s[j]);
        }
        assert(!entries_map(s.drop_last()).contains_key(key));
        assert(entries_map(s.drop_last()) =~= entries_map(s.drop_last()).insert(key, s.last().1@).remove(key));
    } else {
        lemma_unique_remove(s, i);
        assert(unique_keys(s.drop_last())) by {
            assert forall|p: int, q: int|
                0 <= p < q < s.drop_last().len() implies (#[trigger] s.drop_last()[p]).0
                != (#[trigger] s.drop_last()[q]).0 by {
                assert(s.drop_last()[p] == s[p] && s.drop_last()[q] == s[q]);
            }
        }
        lemma_entries_map_remove(s.drop_last(), i);
        assert(s.remove(i).drop_last() =~= s.drop_last().remove(i));
        assert(s.remove(i).last() == s.last());
        assert(s.last().0 != key);
        assert(entries_map(s.remove(i)) == entries_map(s.drop_last().remove(i)).insert(
            s.last().0,
            s.last().1@,
        ));
        assert(entries_map(s.drop_last().remove(i)) == entries_map(s.drop_last()).remove(key));
        assert(entries_map(s.drop_last()).remove(key).insert(s.last().0, s.last().1@)
            =~= entries_map(s.drop_last()).insert(s.last().0, s.last().1@).remove(key));
    }
}

impl State {
    /// The container's invariant: every key owns at most one slot.
    pub closed spec fn wf(&self) -> bool {
        unique_keys(self.entries@)
    }

    /// Creates the container for one incoming request, with its request
    /// identifier and no stored data.
    pub fn new(request_id: String) -> (r: State)
        ensures
            r.wf(),
            r@.request_id == request_id@,
            r@.data == Map::<u64, StateValueView>::empty(),
    {
        let r = State { request_id, entries: Vec::new() };
        proof {
            assert(r@.data =~= Map::<u64, StateValueView>::empty());
        }
        r
    }

    /// The request identifier, established at creation and read-only after.
    pub fn request_id(&self) -> (r: &String)
        ensures
            r@ == self@.request_id,
    {
        &self.request_id
    }

    fn position_of(&self, key: u64) -> (r: Option<usize>)
        ensures
            match r {
                Some(i) => i < self.entries@.len() && self.entries@[i as int].0 == key,
                None => forall|j: int|
                    0 <= j < self.entries@.len() ==> (#[trigger] self.entries@[j]).0 != key,
            },
    {
        let mut i: usize = 0;
        while i < self.entries.len()
            invariant
                i <= self.entries@.len(),
                forall|j: int| 0 <= j < i ==> (#[trigger] self.entries@[j]).0 != key,
            decreases self.entries@.len() - i,
        {
            if self.entries[i].0 == key {
                return Some(i);
            }
            i += 1;
        }
        None
    }

    /// Whether any value is stored under the key.
    pub fn has(&self, key: u64) -> (r: bool)
        requires
            self.wf(),
        ensures
            r == self@.data.contains_key(key),
    {
        proof {
            lemma_entries_map_domain(self.entries@, key);
        }
        match self.position_of(key) {
            Some(_) => true,
            None => false,
        }
    }

    /// Stores a value under the key, replacing whatever slot the key held.
    pub fn put(&mut self, key: u64, value: StateValue)
        requires
            old(self).wf(),
        ensures
            final(self).wf(),
            final(self)@.request_id == old(self)@.request_id,
            final(self)@.data == old(self)@.data.insert(key, value@),
    {
        let ghost pre = self.entries@;
        match self.position_of(key) {
            Some(i) => {
                proof {
                    lemma_entries_map_remove(pre, i as int);
                    lemma_unique_remove(pre, i as int);
                }
                self.entries.remove(i);
                proof {
                    assert(entries_map(self.entries@) == entries_map(pre).remove(key));
                }
            },
            None => {
                proof {
                    lemma_entries_map_domain(pre, key);
                    assert(!entries_map(pre).contains_key(key));
                }
            },
        }
        let ghost mid = self.entries@;
        proof {
            assert(forall|j: int| 0 <= j < mid.len() ==> (#[trigger] mid[j]).0 != key);
            assert(unique_keys(mid));
            assert(entries_map(mid) =~= entries_map(pre).remove(key));
        }
        self.entries.push((key, value));
        proof {
            assert(self.entries@.drop_last() =~= mid);
            assert(self.entries@.last() == (key, value));
            assert forall|p: int, q: int|
                0 <= p < q < self.entries@.len() implies (#[trigger] self.entries@[p]).0
                != (#[trigger] self.entries@[q]).0 by {
                if q == self.entries@.len() - 1 {
                    assert(self.entries@[p] == mid[p]);
                } else {
                    assert(self.entries@[p] == mid[p] && self.entries@[q] == mid[q]);
                }
            }
            assert(entries_map(self.entries@) =~= old(self)@.data.insert(key, value@));
        }
    }

    fn slot(&self, key: u64) -> (r: Option<&StateValue>)
        requires
            self.wf(),
        ensures
            match r {
                Some(v) => self@.data.contains_key(key) && self@.data[key] == v@,
                None => !self@.data.contains_key(key),
            },
    {
        match self.position_of(key) {
            Some(i) => {
                proof {
                    lemma_entries_map_lookup(self.entries@, i as int, key);
                }
                Some(&self.entries[i].1)
            },
            None => {
                proof {
                    lemma_entries_map_domain(self.entries@, key);
                }
                None
            },
        }
    }

    /// Reads the text stored under the key, or says why there is none.
    pub fn try_borrow_text(&self, key: u64) -> (r: Result<&String, StateError>)
        requires
            self.wf(),
        ensures
            match r {
                Ok(v) => self@.data.contains_key(key) && self@.data[key] == StateValueView::Text(
                    v@,
                ),
                Err(StateError::Absent) => !self@.data.contains_key(key),
                Err(StateError::KindMismatch) => self@.data.contains_key(key) && !(self@.data[key]
                    is Text),
            },
    {
        match self.slot(key) {
            Some(v) => match v {
                StateValue::Text(s) => Ok(s),
                _ => Err(StateError::KindMismatch),
            },
            None => Err(StateError::Absent),
        }
    }

    /// Reads the number stored under the key, or says why there is none.
    pub fn try_borrow_number(&self, key: u64) -> (r: Result<u64, StateError>)
        requires
            self.wf(),
        ensures
            match r {
                Ok(v) => self@.data.contains_key(key) && self@.data[key] == StateValueView::Number(
                    v,
                ),
                Err(StateError::Absent) => !self@.data.contains_key(key),
                Err(StateError::KindMismatch) => self@.data.contains_key(key) && !(self@.data[key]
                    is Number),
            },
    {
        match self.slot(key) {
            Some(v) => match v {
                StateValue::Number(n) => Ok(*n),
                _ => Err(StateError::KindMismatch),
            },
            None => Err(StateError::Absent),
        }
    }

    /// Reads the flag stored under the key, or says why there is none.
    pub fn try_borrow_flag(&self, key: u64) -> (r: Result<bool, StateError>)
        requires
            self.wf(),
        ensures
            match r {
                Ok(v) => self@.data.contains_key(key) && self@.data[key] == StateValueView::Flag(
                    v,
                ),
                Err(StateError::Absent) => !self@.data.contains_key(key),
                Err(StateError::KindMismatch) => self@.data.contains_key(key) && !(self@.data[key]
                    is Flag),
            },
    {
        match self.slot(key) {
            Some(v) => match v {
                StateValue::Flag(b) => Ok(*b),
                _ => Err(StateError::KindMismatch),
            },
            None => Err(StateError::Absent),
        }
    }

    /// Reads the bytes stored under the key, or says why there are none.
    pub fn try_borrow_bytes(&self, key: u64) -> (r: Result<&Vec<u8>, StateError>)
        requires
            self.wf(),
        ensures
            match r {
                Ok(v) => self@.data.contains_key(key) && self@.data[key] == StateValueView::Bytes(
                    v@,
                ),
                Err(StateError::Absent) => !self@.data.contains_key(key),
                Err(StateError::KindMismatch) => self@.data.contains_key(key) && !(self@.data[key]
                    is Bytes),
            },
    {
        match self.slot(key) {
            Some(v) => match v {
                StateValue::Bytes(b) => Ok(b),
                _ => Err(StateError::KindMismatch),
            },
            None => Err(StateError::Absent),
        }
    }

    /// Removes and returns the slot stored under the key, whatever its kind.
    pub fn take(&mut self, key: u64) -> (r: Result<StateValue, StateError>)
        requires
            old(self).wf(),
        ensures
            final(self).wf(),
            final(self)@.request_id == old(self)@.request_id,
            match r {
                Ok(v) => old(self)@.data.contains_key(key) && old(self)@.data[key] == v@
                    && final(self)@.data == old(self)@.data.remove(key),
                Err(e) => e == StateError::Absent && !old(self)@.data.contains_key(key)
                    && final(self)@ == old(self)@,
            },
    {
        let ghost pre = self.entries@;
        match self.position_of(key) {
            Some(i) => {
                proof {
                    lemma_entries_map_lookup(pre, i as int, key);
                    lemma_entries_map_remove(pre, i as int);
                    lemma_unique_remove(pre, i as int);
                }
                let (_, v) = self.entries.remove(i);
                Ok(v)
            },
            None => {
                proof {
                    lemma_entries_map_domain(pre, key);
                }
                Err(StateError::Absent)
            },
        }
    }
}

/// Law: storing a value under a key and then reading that key back yields
/// exactly the stored value. Together with the accessors' contracts (reading
/// a key never stored reports `StateError::Absent`), this is the container's
/// round-trip guarantee.
pub proof fn lemma_state_round_trip(data: Map<u64, StateValueView>, key: u64, value: StateValueView)
    ensures
        data.insert(key, value).contains_key(key),
        data.insert(key, value)[key] == value,
{
}

} // verus!
