//! The in-memory session store: opaque keys mapped to session state, each
//! entry with an absolute expiry instant. Time is a `u64` count of time units
//! that the caller reads from its clock and passes in as `now`.
use vstd::prelude::*;
use crate::assoc::{as_map, keys_unique, lemma_as_map_absent, lemma_as_map_empty, lemma_as_map_index,
    lemma_as_map_push, lemma_as_map_remove, lemma_as_map_update};

verus! {

/// The abstract content of a session: field name to field value.
pub type StateMap = Map<Seq<char>, Seq<char>>;

/// The abstract content of a store: session key to (state, expiry instant).
pub type StoreMap = Map<Seq<char>, (StateMap, u64)>;

/// The state held under `key` if the entry is live at `now`.
pub open spec fn live(m: StoreMap, key: Seq<char>, now: u64) -> Option<StateMap> {
    if m.contains_key(key) && now < m[key].1 {
        Some(m[key].0)
    } else {
        None
    }
}

/// The store after `state` is written under `key` with time-to-live `ttl`.
pub open spec fn stored(m: StoreMap, key: Seq<char>, state: StateMap, now: u64, ttl: u64) -> StoreMap {
    m.insert(key, (state, (now + ttl) as u64))
}

/// String-keyed state of one session.
pub struct SessionState {
    fields: Vec<(String, String)>,
}

pub open spec fn field_pairs(v: Seq<(String, String)>) -> Seq<(Seq<char>, Seq<char>)> {
    v.map_values(|p: (String, String)| (p.0@, p.1@))
}

impl SessionState {
    pub closed spec fn pairs(&self) -> Seq<(Seq<char>, Seq<char>)> {
        field_pairs(self.fields@)
    }

    pub open spec fn wf(&self) -> bool {
        keys_unique(self.pairs())
    }

    pub open spec fn view(&self) -> StateMap {
        as_map(self.pairs())
    }

    pub fn new() -> (r: SessionState)
        ensures
            r.wf(),
            r@ == StateMap::empty(),
    {
        let r = SessionState { fields: Vec::new() };
        proof {
            lemma_as_map_empty(r.pairs());
        }
        r
    }

    fn find(&self, name: &String) -> (r: Option<usize>)
        ensures
            match r {
                Some(i) => i < self.pairs().len() && self.pairs()[i as int].0 == name@,
                None => forall|j: int| 0 <= j < self.pairs().len() ==> #[trigger] self.pairs()[j].0 != name@,
            },
    {
        let mut i: usize = 0;
        while i < self.fields.len()
            invariant
                i <= self.fields.len(),
                self.pairs().len() == self.fields.len(),
                forall|j: int| 0 <= j < i ==> #[trigger] self.pairs()[j].0 != name@,
            decreases self.fields.len() - i,
        {
            if self.fields[i].0 == *name {
                return Some(i);
            }
            i = i + 1;
        }
        None
    }

    /// The value of field `name`, if set.
    pub fn get(&self, name: &String) -> (r: Option<String>)
        requires
            self.wf(),
        ensures
            match r {
                Some(v) => self@.contains_key(name@) && self@[name@] == v@,
                None => !self@.contains_key(name@),
            },
    {
        match self.find(name) {
            Some(i) => {
                proof {
                    lemma_as_map_index(self.pairs(), i as int);
                }
                Some(self.fields[i].1.clone())
            },
            None => {
                proof {
                    lemma_as_map_absent(self.pairs(), name@);
                }
                None
            },
        }
    }

    /// Sets field `name` to `value`, replacing any earlier value.
    pub fn insert(&mut self, name: String, value: String)
        requires
            old(self).wf(),
        ensures
            final(self).wf(),
            final(self)@ == old(self)@.insert(name@, value@),
    {
        match self.find(&name) {
            Some(i) => {
                proof {
                    lemma_as_map_update(self.pairs(), i as int, value@);
                }
                let key = self.fields[i].0.clone();
                self.fields.set(i, (key, value));
                assert(self.pairs() =~= field_pairs(old(self).fields@).update(
                    i as int,
                    (old(self).pairs()[i as int].0, value@),
                ));
            },
            None => {
                proof {
                    lemma_as_map_absent(self.pairs(), name@);
                    lemma_as_map_push(self.pairs(), name@, value@);
                }
                self.fields.push((name, value));
                assert(self.pairs() =~= old(self).pairs().push((name@, value@)));
            },
        }
    }

    /// Clears field `name`, returning the value it held.
    pub fn remove(&mut self, name: &String) -> (r: Option<String>)
        requires
            old(self).wf(),
        ensures
            final(self).wf(),
            final(self)@ == old(self)@.remove(name@),
            match r {
                Some(v) => old(self)@.contains_key(name@) && old(self)@[name@] == v@,
                None => !old(self)@.contains_key(name@),
            },
    {
        match self.find(name) {
            Some(i) => {
                proof {
                    lemma_as_map_index(self.pairs(), i as int);
                    lemma_as_map_remove(self.pairs(), i as int);
                }
                let (_, v) = self.fields.remove(i);
                assert(self.pairs() =~= old(self).pairs().remove(i as int));
                Some(v)
            },
            None => {
                proof {
                    lemma_as_map_absent(self.pairs(), name@);
                    assert(old(self)@.remove(name@) =~= old(self)@);
                }
                None
            },
        }
    }

    /// The fields as name/value pairs, each name once.
    pub fn into_pairs(self) -> (r: Vec<(String, String)>)
        requires
            self.wf(),
        ensures
            keys_unique(field_pairs(r@)),
            as_map(field_pairs(r@)) == self@,
    {
        self.fields
    }

    /// A copy that shares nothing with `self`.
    pub fn copy(&self) -> (r: SessionState)
        ensures
            r.pairs() == self.pairs(),
    {
        let mut fields: Vec<(String, String)> = Vec::new();
        let mut i: usize = 0;
        while i < self.fields.len()
            invariant
                i <= self.fields.len(),
                field_pairs(fields@) =~= self.pairs().subrange(0, i as int),
            decreases self.fields.len() - i,
        {
            let name = self.fields[i].0.clone();
            let value = self.fields[i].1.clone();
            let ghost before = fields@;
            fields.push((name, value));
            assert(field_pairs(fields@) =~= field_pairs(before).push(self.pairs()[i as int]));
            assert(self.pairs().subrange(0, i + 1) =~= self.pairs().subrange(0, i as int).push(
                self.pairs()[i as int],
            ));
            i = i + 1;
        }
        assert(self.pairs().subrange(0, self.fields.len() as int) =~= self.pairs());
        SessionState { fields }
    }
}

/// A value that stops being readable at instant `expire`.
pub struct Expirable<T> {
    pub value: T,
    pub expire: u64,
}

impl<T> Expirable<T> {
    /// The value while `now` is before the expiry instant.
    pub fn get(&self, now: u64) -> (r: Option<&T>)
        ensures
            r == (if now < self.expire { Some(&self.value) } else { None::<&T> }),
    {
        if self.expire <= now {
            None
        } else {
            Some(&self.value)
        }
    }
}

/// Length in characters of a freshly drawn session key.
pub const SESSION_KEY_LEN: usize = 512;

pub open spec fn is_alphanumeric(c: char) -> bool {
    ('a' <= c && c <= 'z') || ('A' <= c && c <= 'Z') || ('0' <= c && c <= '9')
}

/// Relies on rand's `DistString::sample_string` for `Alphanumeric`, drawn from
/// the thread-local generator: it yields `len` characters out of `[A-Za-z0-9]`.
#[verifier::external_body]
fn random_alphanumeric(len: usize) -> (r: String)
    ensures
        r@.len() == len,
        forall|i: int| 0 <= i < r@.len() ==> is_alphanumeric(#[trigger] r@[i]),
{
    rand::distributions::DistString::sample_string(
        &rand::distributions::Alphanumeric,
        &mut rand::thread_rng(),
        len,
    )
}

/// Why a store operation found nothing to act on.
#[derive(Debug, Clone, Copy, PartialEq, Eq, Structural)]
pub enum SessionError {
    NotFound,
}

/// All sessions, each under its key, with the instant at which it expires.
pub struct InMemorySessionStoreState {
    entries: Vec<(String, Expirable<SessionState>)>,
}

pub open spec fn entry_pairs(v: Seq<(String, Expirable<SessionState>)>) -> Seq<(Seq<char>, (StateMap, u64))> {
    v.map_values(|e: (String, Expirable<SessionState>)| (e.0@, (e.1.value@, e.1.expire)))
}

impl InMemorySessionStoreState {
    pub closed spec fn pairs(&self) -> Seq<(Seq<char>, (StateMap, u64))> {
        entry_pairs(self.entries@)
    }

    pub closed spec fn wf(&self) -> bool {
        &&& keys_unique(self.pairs())
        &&& forall|i: int| 0 <= i < self.entries@.len() ==> (#[trigger] self.entries@[i]).1.value.wf()
    }

    pub open spec fn view(&self) -> StoreMap {
        as_map(self.pairs())
    }

    pub fn new() -> (r: InMemorySessionStoreState)
        ensures
            r.wf(),
            r@ == StoreMap::empty(),
    {
        let r = InMemorySessionStoreState { entries: Vec::new() };
        proof {
            lemma_as_map_empty(r.pairs());
        }
        r
    }

    fn find(&self, key: &String) -> (r: Option<usize>)
        ensures
            match r {
                Some(i) => i < self.pairs().len() && self.pairs()[i as int].0 == key@,
                None => forall|j: int| 0 <= j < self.pairs().len() ==> #[trigger] self.pairs()[j].0 != key@,
            },
    {
        let mut i: usize = 0;
        while i < self.entries.len()
            invariant
                i <= self.entries.len(),
                self.pairs().len() == self.entries.len(),
                forall|j: int| 0 <= j < i ==> #[trigger] self.pairs()[j].0 != key@,
            decreases self.entries.len() - i,
        {
            if self.entries[i].0 == *key {
                return Some(i);
            }
            i = i + 1;
        }
        None
    }

    /// A copy of the state under `key`, if that entry is live at `now`.
    pub fn get(&self, key: &String, now: u64) -> (r: Option<SessionState>)
        requires
            self.wf(),
        ensures
            match r {
                Some(s) => s.wf() && live(self@, key@, now) == Some(s@),
                None => live(self@, key@, now) is None,
            },
    {
        match self.find(key) {
            Some(i) => {
                proof {
                    lemma_as_map_index(self.pairs(), i as int);
                }
                match self.entries[i].1.get(now) {
                    Some(s) => {
                        assert(self.entries@[i as int].1.value.wf());
                        Some(s.copy())
                    },
                    None => None,
                }
            },
            None => {
                proof {
                    lemma_as_map_absent(self.pairs(), key@);
                }
                None
            },
        }
    }

    /// Writes `state` under `key`, live until `now + ttl`.
    pub fn insert(&mut self, key: String, state: SessionState, now: u64, ttl: u64)
        requires
            old(self).wf(),
            state.wf(),
            now + ttl <= u64::MAX,
        ensures
            final(self).wf(),
            final(self)@ == stored(old(self)@, key@, state@, now, ttl),
    {
        let expire = now + ttl;
        let ghost sv = state@;
        let entry = Expirable { value: state, expire };
        match self.find(&key) {
            Some(i) => {
                proof {
                    lemma_as_map_update(self.pairs(), i as int, (sv, expire));
                }
                self.entries.set(i, (key, entry));
                assert(self.pairs() =~= entry_pairs(old(self).entries@).update(
                    i as int,
                    (old(self).pairs()[i as int].0, (sv, expire)),
                ));
            },
            None => {
                proof {
                    lemma_as_map_absent(self.pairs(), key@);
                    lemma_as_map_push(self.pairs(), key@, (sv, expire));
                }
                self.entries.push((key, entry));
                assert(self.pairs() =~= old(self).pairs().push((key@, (sv, expire))));
            },
        }
    }

    /// Drops the entry under `key`, if any.
    pub fn delete(&mut self, key: &String)
        requires
            old(self).wf(),
        ensures
            final(self).wf(),
            final(self)@ == old(self)@.remove(key@),
    {
        match self.find(key) {
            Some(i) => {
                proof {
                    lemma_as_map_remove(self.pairs(), i as int);
                }
                self.entries.remove(i);
                assert(self.pairs() =~= old(self).pairs().remove(i as int));
            },
            None => {
                proof {
                    lemma_as_map_absent(self.pairs(), key@);
                    assert(old(self)@.remove(key@) =~= old(self)@);
                }
            },
        }
    }
}

/// The session store that requests share: keys are drawn at random on save.
pub struct InMemorySessionStore {
    state: InMemorySessionStoreState,
}

impl InMemorySessionStore {
    pub closed spec fn wf(&self) -> bool {
        self.state.wf()
    }

    pub closed spec fn view(&self) -> StoreMap {
        self.state@
    }

    pub fn new() -> (r: InMemorySessionStore)
        ensures
            r.wf(),
            r@ == StoreMap::empty(),
    {
        InMemorySessionStore { state: InMemorySessionStoreState::new() }
    }

    /// The state under `key` if it is live at `now`; absent otherwise, whether
    /// the key never existed or its entry expired.
    pub fn load(&self, key: &String, now: u64) -> (r: Option<SessionState>)
        requires
            self.wf(),
        ensures
            match r {
                Some(s) => s.wf() && live(self@, key@, now) == Some(s@),
                None => live(self@, key@, now) is None,
            },
    {
        self.state.get(key, now)
    }

    /// Stores `state` under a freshly drawn key and returns that key.
    pub fn save(&mut self, state: SessionState, ttl: u64, now: u64) -> (r: String)
        requires
            old(self).wf(),
            state.wf(),
            now + ttl <= u64::MAX,
        ensures
            final(self).wf(),
            r@.len() == SESSION_KEY_LEN,
            forall|i: int| 0 <= i < r@.len() ==> is_alphanumeric(#[trigger] r@[i]),
            final(self)@ == stored(old(self)@, r@, state@, now, ttl),
    {
        let key = random_alphanumeric(SESSION_KEY_LEN);
        let r = key.clone();
        self.state.insert(key, state, now, ttl);
        r
    }

    /// Replaces the state under `key` and restarts its time-to-live; an
    /// expired or missing entry is created afresh.
    pub fn update(&mut self, key: String, state: SessionState, ttl: u64, now: u64) -> (r: String)
        requires
            old(self).wf(),
            state.wf(),
            now + ttl <= u64::MAX,
        ensures
            final(self).wf(),
            r == key,
            final(self)@ == stored(old(self)@, key@, state@, now, ttl),
    {
        let r = key.clone();
        self.state.insert(key, state, now, ttl);
        r
    }

    /// Restarts the time-to-live of a live entry, keeping its state.
    pub fn update_ttl(&mut self, key: &String, ttl: u64, now: u64) -> (r: Result<(), SessionError>)
        requires
            old(self).wf(),
            now + ttl <= u64::MAX,
        ensures
            final(self).wf(),
            match live(old(self)@, key@, now) {
                Some(s) => r is Ok && final(self)@ == stored(old(self)@, key@, s, now, ttl),
                None => r == Err::<(), SessionError>(SessionError::NotFound) && final(self)@ == old(self)@,
            },
    {
        match self.state.get(key, now) {
            Some(s) => {
                self.state.insert(key.clone(), s, now, ttl);
                Ok(())
            },
            None => Err(SessionError::NotFound),
        }
    }

    /// Drops the entry under `key`; nothing happens if there is none.
    pub fn delete(&mut self, key: &String)
        requires
            old(self).wf(),
        ensures
            final(self).wf(),
            final(self)@ == old(self)@.remove(key@),
    {
        self.state.delete(key);
    }
}

/// A state saved with a positive time-to-live reads back at once.
pub proof fn lemma_load_after_save(m: StoreMap, key: Seq<char>, state: StateMap, now: u64, ttl: u64)
    requires
        ttl > 0,
        now + ttl <= u64::MAX,
    ensures
        live(stored(m, key, state, now, ttl), key, now) == Some(state),
{
}

/// Once `now` has reached an entry's expiry instant the entry reads as absent,
/// although it is still held.
pub proof fn lemma_expired_is_absent(m: StoreMap, key: Seq<char>, now: u64)
    requires
        m.contains_key(key),
        now >= m[key].1,
    ensures
        live(m, key, now) is None,
{
}

/// Writing under a key whose entry has expired leaves the store as saving
/// under a fresh key would: that key reads the new state, and every other key
/// reads as before, at every instant.
pub proof fn lemma_update_expired_is_save(
    m: StoreMap,
    key: Seq<char>,
    state: StateMap,
    now: u64,
    ttl: u64,
    fresh: Seq<char>,
)
    requires
        live(m, key, now) is None,
        !m.contains_key(fresh),
        ttl > 0,
        now + ttl <= u64::MAX,
    ensures
        live(stored(m, key, state, now, ttl), key, now) == live(stored(m, fresh, state, now, ttl), fresh, now),
        live(stored(m, key, state, now, ttl), key, now) == Some(state),
        forall|k: Seq<char>, t: u64| k != key ==> #[trigger] live(stored(m, key, state, now, ttl), k, t) == live(m, k, t),
{
}

/// Repeating an update at the same instant changes nothing.
pub proof fn lemma_update_twice_is_once(m: StoreMap, key: Seq<char>, state: StateMap, now: u64, ttl: u64)
    requires
        now + ttl <= u64::MAX,
    ensures
        stored(stored(m, key, state, now, ttl), key, state, now, ttl) == stored(m, key, state, now, ttl),
{
    assert(stored(stored(m, key, state, now, ttl), key, state, now, ttl) =~= stored(m, key, state, now, ttl));
}

/// After a delete the key reads as absent, at every instant.
pub proof fn lemma_load_after_delete(m: StoreMap, key: Seq<char>, now: u64)
    ensures
        live(m.remove(key), key, now) is None,
{
}

} // verus!
