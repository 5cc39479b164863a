//! Users and the repository that finds them by user id, by email and by the
//! id of their enrolled credential.
use vstd::prelude::*;
use crate::assoc::{as_map, keys_unique, lemma_as_map_absent, lemma_as_map_empty, lemma_as_map_index,
    lemma_as_map_push, lemma_as_map_remove, lemma_as_map_update};

verus! {

/// A verified credential: the id that the authenticator assigned, and the rest
/// of the record, kept as bytes that this crate never reads.
pub struct Credential {
    pub id: Vec<u8>,
    pub record: Vec<u8>,
}

pub fn copy_bytes(v: &Vec<u8>) -> (r: Vec<u8>)
    ensures
        r@ == v@,
{
    let mut r: Vec<u8> = Vec::new();
    let mut i: usize = 0;
    while i < v.len()
        invariant
            i <= v.len(),
            r@ == v@.subrange(0, i as int),
        decreases v.len() - i,
    {
        r.push(v[i]);
        assert(v@.subrange(0, i + 1) =~= v@.subrange(0, i as int).push(v@[i as int]));
        i = i + 1;
    }
    assert(v@.subrange(0, v.len() as int) =~= v@);
    r
}

pub fn bytes_equal(a: &Vec<u8>, b: &Vec<u8>) -> (r: bool)
    ensures
        r == (a@ == b@),
{
    if a.len() != b.len() {
        return false;
    }
    let mut i: usize = 0;
    while i < a.len()
        invariant
            i <= a.len(),
            a.len() == b.len(),
            forall|j: int| 0 <= j < i ==> a@[j] == b@[j],
        decreases a.len() - i,
    {
        if a[i] != b[i] {
            return false;
        }
        i = i + 1;
    }
    assert(a@ =~= b@);
    true
}

impl Credential {
    pub open spec fn view(&self) -> (Seq<u8>, Seq<u8>) {
        (self.id@, self.record@)
    }

    pub fn copy(&self) -> (r: Credential)
        ensures
            r@ == self@,
    {
        Credential { id: copy_bytes(&self.id), record: copy_bytes(&self.record) }
    }
}

pub ghost struct UserView {
    pub id: u128,
    pub email: Seq<char>,
    pub passkey: Option<(Seq<u8>, Seq<u8>)>,
}

pub open spec fn passkey_view(p: Option<Credential>) -> Option<(Seq<u8>, Seq<u8>)> {
    match p {
        Some(c) => Some(c@),
        None => None,
    }
}

/// Relies on uuid's `Uuid::new_v4`, a random identifier, read out with
/// `Uuid::as_u128`.
#[verifier::external_body]
fn random_user_id() -> (r: u128) {
    uuid::Uuid::new_v4().as_u128()
}

pub struct User {
    pub id: u128,
    pub email: String,
    pub passkey: Option<Credential>,
}

impl User {
    pub open spec fn view(&self) -> UserView {
        UserView { id: self.id, email: self.email@, passkey: passkey_view(self.passkey) }
    }

    pub fn new(id: u128, email: String, passkey: Option<Credential>) -> (r: User)
        ensures
            r@ == (UserView { id, email: email@, passkey: passkey_view(passkey) }),
    {
        User { id, email, passkey }
    }

    /// A new user under a random id, with no credential.
    pub fn create(email: String) -> (r: User)
        ensures
            r@.email == email@,
            r@.passkey is None,
    {
        User::new(random_user_id(), email, None)
    }

    pub fn get_passkey(&self) -> (r: Option<&Credential>)
        ensures
            match r {
                Some(p) => self@.passkey == Some(p@),
                None => self@.passkey is None,
            },
    {
        match &self.passkey {
            Some(p) => Some(p),
            None => None,
        }
    }

    /// Enrols `passkey`, replacing the credential enrolled before.
    pub fn update_passkey(&mut self, passkey: Credential)
        ensures
            final(self)@ == (UserView { passkey: Some(passkey@), ..old(self)@ }),
    {
        self.passkey = Some(passkey);
    }

    pub fn copy(&self) -> (r: User)
        ensures
            r@ == self@,
    {
        let passkey = match &self.passkey {
            Some(p) => Some(p.copy()),
            None => None,
        };
        User { id: self.id, email: self.email.clone(), passkey }
    }
}

/// Every index entry names a stored user whose credential has that id.
pub open spec fn links_ok(index: Map<Seq<u8>, u128>, users: Map<u128, UserView>) -> bool {
    forall|cid: Seq<u8>|
        #[trigger] index.contains_key(cid) ==> {
            &&& users.contains_key(index[cid])
            &&& users[index[cid]].passkey is Some
            &&& users[index[cid]].passkey->Some_0.0 == cid
        }
}

/// The credential index after `u` is saved: the entry that pointed at the
/// user's previous credential goes, and the new credential points at the user.
pub open spec fn index_after_save(index: Map<Seq<u8>, u128>, users: Map<u128, UserView>, u: UserView) -> Map<
    Seq<u8>,
    u128,
> {
    let base = if users.contains_key(u.id) && users[u.id].passkey is Some && index.contains_key(
        users[u.id].passkey->Some_0.0,
    ) && index[users[u.id].passkey->Some_0.0] == u.id {
        index.remove(users[u.id].passkey->Some_0.0)
    } else {
        index
    };
    match u.passkey {
        Some(p) => base.insert(p.0, u.id),
        None => base,
    }
}

/// The user that credential id `cid` resolves to, if any.
pub open spec fn by_credential(index: Map<Seq<u8>, u128>, users: Map<u128, UserView>, cid: Seq<u8>) -> Option<
    UserView,
> {
    if index.contains_key(cid) && users.contains_key(index[cid]) {
        Some(users[index[cid]])
    } else {
        None
    }
}

pub proof fn lemma_save_keeps_links(index: Map<Seq<u8>, u128>, users: Map<u128, UserView>, u: UserView)
    requires
        links_ok(index, users),
    ensures
        links_ok(index_after_save(index, users, u), users.insert(u.id, u)),
{
    let ni = index_after_save(index, users, u);
    let nu = users.insert(u.id, u);
    assert forall|cid: Seq<u8>| #[trigger] ni.contains_key(cid) implies {
        &&& nu.contains_key(ni[cid])
        &&& nu[ni[cid]].passkey is Some
        &&& nu[ni[cid]].passkey->Some_0.0 == cid
    } by {
        if !(u.passkey is Some && u.passkey->Some_0.0 == cid) {
            assert(index.contains_key(cid));
        }
    }
}

/// Every stored user with a credential is indexed under that credential's id.
pub open spec fn indexed_all(index: Map<Seq<u8>, u128>, users: Map<u128, UserView>) -> bool {
    forall|id: u128|
        #[trigger] users.contains_key(id) && users[id].passkey is Some ==> {
            &&& index.contains_key(users[id].passkey->Some_0.0)
            &&& index[users[id].passkey->Some_0.0] == id
        }
}

/// No two stored users hold credentials with the same id.
pub open spec fn credential_ids_unique(users: Map<u128, UserView>) -> bool {
    forall|a: u128, b: u128|
        #[trigger] users.contains_key(a) && #[trigger] users.contains_key(b) && a != b && users[a].passkey is Some
            && users[b].passkey is Some ==> users[a].passkey->Some_0.0 != users[b].passkey->Some_0.0
}

/// While credential ids stay unique across users, a save keeps every user
/// with a credential indexed under it.
pub proof fn lemma_save_keeps_indexed_all(index: Map<Seq<u8>, u128>, users: Map<u128, UserView>, u: UserView)
    requires
        indexed_all(index, users),
        credential_ids_unique(users.insert(u.id, u)),
    ensures
        indexed_all(index_after_save(index, users, u), users.insert(u.id, u)),
{
    let ni = index_after_save(index, users, u);
    let nu = users.insert(u.id, u);
    assert forall|id: u128| #[trigger] nu.contains_key(id) && nu[id].passkey is Some implies {
        &&& ni.contains_key(nu[id].passkey->Some_0.0)
        &&& ni[nu[id].passkey->Some_0.0] == id
    } by {
        if id != u.id {
            assert(users.contains_key(id));
            if u.passkey is Some {
                assert(nu.contains_key(u.id));
            }
        }
    }
}

/// A saved user's credential id resolves to that user; once the same user is
/// saved again with a credential of another id, the old id resolves to nothing.
pub proof fn lemma_credential_lookup_after_save(
    index: Map<Seq<u8>, u128>,
    users: Map<u128, UserView>,
    u: UserView,
    again: UserView,
)
    requires
        u.passkey is Some,
        again.id == u.id,
        again.passkey is Some,
        again.passkey->Some_0.0 != u.passkey->Some_0.0,
    ensures
        by_credential(index_after_save(index, users, u), users.insert(u.id, u), u.passkey->Some_0.0) == Some(u),
        by_credential(
            index_after_save(index_after_save(index, users, u), users.insert(u.id, u), again),
            users.insert(u.id, u).insert(again.id, again),
            u.passkey->Some_0.0,
        ) is None,
{
}

/// The index and users after saving each of `us` in turn.
pub open spec fn save_all(index: Map<Seq<u8>, u128>, users: Map<u128, UserView>, us: Seq<UserView>) -> (Map<
    Seq<u8>,
    u128,
>, Map<u128, UserView>)
    decreases us.len(),
{
    if us.len() == 0 {
        (index, users)
    } else {
        let before = save_all(index, users, us.drop_last());
        (index_after_save(before.0, before.1, us.last()), before.1.insert(us.last().id, us.last()))
    }
}

/// Users with distinct ids, not stored yet, each with a credential of its own
/// id, can be saved in any order: afterwards each credential id resolves to
/// its user, with no update lost and no index entry crossed.
pub proof fn lemma_distinct_saves_resolve(index: Map<Seq<u8>, u128>, users: Map<u128, UserView>, us: Seq<UserView>)
    requires
        forall|k: int| 0 <= k < us.len() ==> (#[trigger] us[k]).passkey is Some && !users.contains_key(us[k].id),
        forall|a: int, b: int|
            0 <= a < us.len() && 0 <= b < us.len() && a != b ==> #[trigger] us[a].id != #[trigger] us[b].id
                && us[a].passkey->Some_0.0 != us[b].passkey->Some_0.0,
    ensures
        forall|k: int|
            0 <= k < us.len() ==> #[trigger] by_credential(
                save_all(index, users, us).0,
                save_all(index, users, us).1,
                us[k].passkey->Some_0.0,
            ) == Some(us[k]) && save_all(index, users, us).0[us[k].passkey->Some_0.0] == us[k].id,
        forall|id: u128|
            #[trigger] save_all(index, users, us).1.contains_key(id) ==> users.contains_key(id) || exists|k: int|
                0 <= k < us.len() && #[trigger] us[k].id == id,
    decreases us.len(),
{
    if us.len() > 0 {
        let p = us.drop_last();
        let n = us.len() - 1;
        assert(forall|k: int| 0 <= k < p.len() ==> #[trigger] p[k] == us[k]);
        lemma_distinct_saves_resolve(index, users, p);
        let before = save_all(index, users, p);
        let last = us.last();
        assert(!before.1.contains_key(last.id)) by {
            if before.1.contains_key(last.id) {
                if !users.contains_key(last.id) {
                    let k = choose|k: int| 0 <= k < p.len() && #[trigger] p[k].id == last.id;
                    assert(us[k].id == us[n].id);
                }
            }
        }
        let after = save_all(index, users, us);
        assert forall|k: int| 0 <= k < us.len() implies #[trigger] by_credential(
            after.0,
            after.1,
            us[k].passkey->Some_0.0,
        ) == Some(us[k]) && after.0[us[k].passkey->Some_0.0] == us[k].id by {
            if k < n {
                assert(p[k] == us[k]);
                assert(us[k].id != us[n].id);
                assert(by_credential(before.0, before.1, p[k].passkey->Some_0.0) == Some(p[k]));
            }
        }
        assert forall|id: u128| #[trigger] after.1.contains_key(id) implies users.contains_key(id) || exists|k: int|
            0 <= k < us.len() && #[trigger] us[k].id == id by {
            if id != last.id && !users.contains_key(id) {
                assert(before.1.contains_key(id));
                let k = choose|k: int| 0 <= k < p.len() && #[trigger] p[k].id == id;
                assert(us[k].id == id);
            }
        }
    }
}

/// All users, and an index from credential id to the user holding it.
pub struct UserRepository {
    users: Vec<User>,
    passkey_index: Vec<(Vec<u8>, u128)>,
}

pub closed spec fn user_pairs(v: Seq<User>) -> Seq<(u128, UserView)> {
    v.map_values(|u: User| (u.id, u@))
}

pub closed spec fn index_pairs(v: Seq<(Vec<u8>, u128)>) -> Seq<(Seq<u8>, u128)> {
    v.map_values(|e: (Vec<u8>, u128)| (e.0@, e.1))
}

impl UserRepository {
    /// Stored users by id.
    pub closed spec fn users(&self) -> Map<u128, UserView> {
        as_map(user_pairs(self.users@))
    }

    /// Credential id to the id of the user holding it.
    pub closed spec fn index(&self) -> Map<Seq<u8>, u128> {
        as_map(index_pairs(self.passkey_index@))
    }

    pub closed spec fn wf(&self) -> bool {
        &&& keys_unique(user_pairs(self.users@))
        &&& keys_unique(index_pairs(self.passkey_index@))
        &&& links_ok(self.index(), self.users())
    }

    /// Every index entry names a stored user holding that credential, and
    /// every user is stored under its own id.
    pub proof fn lemma_wf_links(&self)
        requires
            self.wf(),
        ensures
            links_ok(self.index(), self.users()),
            forall|id: u128| #[trigger] self.users().contains_key(id) ==> self.users()[id].id == id,
    {
        assert forall|id: u128| #[trigger] self.users().contains_key(id) implies self.users()[id].id == id by {
            let j = choose|j: int|
                0 <= j < user_pairs(self.users@).len() && #[trigger] user_pairs(self.users@)[j].0 == id;
            lemma_as_map_index(user_pairs(self.users@), j);
        }
    }

    pub fn new() -> (r: UserRepository)
        ensures
            r.wf(),
            indexed_all(r.index(), r.users()),
            r.users() == Map::<u128, UserView>::empty(),
            r.index() == Map::<Seq<u8>, u128>::empty(),
    {
        let r = UserRepository { users: Vec::new(), passkey_index: Vec::new() };
        proof {
            lemma_as_map_empty(user_pairs(r.users@));
            lemma_as_map_empty(index_pairs(r.passkey_index@));
        }
        r
    }

    fn find_user(&self, id: u128) -> (r: Option<usize>)
        ensures
            match r {
                Some(i) => i < self.users@.len() && self.users@[i as int].id == id,
                None => forall|j: int| 0 <= j < self.users@.len() ==> #[trigger] user_pairs(self.users@)[j].0 != id,
            },
    {
        let mut i: usize = 0;
        while i < self.users.len()
            invariant
                i <= self.users.len(),
                forall|j: int| 0 <= j < i ==> #[trigger] user_pairs(self.users@)[j].0 != id,
            decreases self.users.len() - i,
        {
            if self.users[i].id == id {
                return Some(i);
            }
            i = i + 1;
        }
        None
    }

    fn find_credential(&self, cid: &Vec<u8>) -> (r: Option<usize>)
        ensures
            match r {
                Some(i) => i < self.passkey_index@.len() && self.passkey_index@[i as int].0@ == cid@,
                None => forall|j: int|
                    0 <= j < self.passkey_index@.len() ==> #[trigger] index_pairs(self.passkey_index@)[j].0 != cid@,
            },
    {
        let mut i: usize = 0;
        while i < self.passkey_index.len()
            invariant
                i <= self.passkey_index.len(),
                forall|j: int| 0 <= j < i ==> #[trigger] index_pairs(self.passkey_index@)[j].0 != cid@,
            decreases self.passkey_index.len() - i,
        {
            if bytes_equal(&self.passkey_index[i].0, cid) {
                return Some(i);
            }
            i = i + 1;
        }
        None
    }

    /// Drops the index entry for `cid` if it points at user `id`.
    fn unlink(&mut self, cid: &Vec<u8>, id: u128)
        requires
            keys_unique(index_pairs(old(self).passkey_index@)),
        ensures
            keys_unique(index_pairs(final(self).passkey_index@)),
            final(self).users == old(self).users,
            final(self).index() == (if old(self).index().contains_key(cid@) && old(self).index()[cid@] == id {
                old(self).index().remove(cid@)
            } else {
                old(self).index()
            }),
    {
        match self.find_credential(cid) {
            Some(j) => {
                proof {
                    lemma_as_map_index(index_pairs(self.passkey_index@), j as int);
                }
                if self.passkey_index[j].1 == id {
                    proof {
                        lemma_as_map_remove(index_pairs(self.passkey_index@), j as int);
                    }
                    self.passkey_index.remove(j);
                    assert(index_pairs(self.passkey_index@) =~= index_pairs(old(self).passkey_index@).remove(
                        j as int,
                    ));
                }
            },
            None => {
                proof {
                    lemma_as_map_absent(index_pairs(self.passkey_index@), cid@);
                }
            },
        }
    }

    /// Points credential id `cid` at user `id`.
    fn link(&mut self, cid: Vec<u8>, id: u128)
        requires
            keys_unique(index_pairs(old(self).passkey_index@)),
        ensures
            keys_unique(index_pairs(final(self).passkey_index@)),
            final(self).users == old(self).users,
            final(self).index() == old(self).index().insert(cid@, id),
    {
        match self.find_credential(&cid) {
            Some(j) => {
                proof {
                    lemma_as_map_update(index_pairs(self.passkey_index@), j as int, id);
                }
                self.passkey_index.set(j, (cid, id));
                assert(index_pairs(self.passkey_index@) =~= index_pairs(old(self).passkey_index@).update(
                    j as int,
                    (index_pairs(old(self).passkey_index@)[j as int].0, id),
                ));
            },
            None => {
                proof {
                    lemma_as_map_absent(index_pairs(self.passkey_index@), cid@);
                    lemma_as_map_push(index_pairs(self.passkey_index@), cid@, id);
                }
                let ghost c = cid@;
                self.passkey_index.push((cid, id));
                assert(index_pairs(self.passkey_index@) =~= index_pairs(old(self).passkey_index@).push((c, id)));
            },
        }
    }

    /// Stores `user` under its id, replacing the earlier record, and keeps
    /// the credential index in step with it.
    pub fn save_user(&mut self, user: User)
        requires
            old(self).wf(),
        ensures
            final(self).wf(),
            final(self).users() == old(self).users().insert(user.id, user@),
            final(self).index() == index_after_save(old(self).index(), old(self).users(), user@),
    {
        let ghost u = user@;
        let pos = self.find_user(user.id);
        match pos {
            Some(i) => {
                proof {
                    lemma_as_map_index(user_pairs(self.users@), i as int);
                }
                match &self.users[i].passkey {
                    Some(p) => {
                        let old_cid = copy_bytes(&p.id);
                        self.unlink(&old_cid, user.id);
                    },
                    None => {},
                }
            },
            None => {
                proof {
                    lemma_as_map_absent(user_pairs(self.users@), user.id);
                }
            },
        }
        match &user.passkey {
            Some(p) => {
                let cid = copy_bytes(&p.id);
                self.link(cid, user.id);
            },
            None => {},
        }
        let ghost before = self.users@;
        match pos {
            Some(i) => {
                proof {
                    lemma_as_map_update(user_pairs(self.users@), i as int, u);
                }
                self.users.set(i, user);
                assert(user_pairs(self.users@) =~= user_pairs(before).update(i as int, (u.id, u)));
            },
            None => {
                proof {
                    lemma_as_map_push(user_pairs(self.users@), u.id, u);
                }
                self.users.push(user);
                assert(user_pairs(self.users@) =~= user_pairs(before).push((u.id, u)));
            },
        }
        proof {
            lemma_save_keeps_links(old(self).index(), old(self).users(), u);
        }
    }

    /// A copy of the user stored under `id`.
    pub fn fetch_user(&self, id: &u128) -> (r: Option<User>)
        requires
            self.wf(),
        ensures
            match r {
                Some(u) => self.users().contains_key(*id) && self.users()[*id] == u@ && u.id == *id,
                None => !self.users().contains_key(*id),
            },
    {
        match self.find_user(*id) {
            Some(i) => {
                proof {
                    lemma_as_map_index(user_pairs(self.users@), i as int);
                }
                Some(self.users[i].copy())
            },
            None => {
                proof {
                    lemma_as_map_absent(user_pairs(self.users@), *id);
                }
                None
            },
        }
    }

    /// A copy of a user whose email is exactly `email`.
    pub fn fetch_user_by_email(&self, email: &String) -> (r: Option<User>)
        requires
            self.wf(),
        ensures
            match r {
                Some(u) => self.users().contains_key(u.id) && self.users()[u.id] == u@ && u@.email == email@,
                None => forall|id: u128| #[trigger] self.users().contains_key(id) ==> self.users()[id].email != email@,
            },
    {
        let mut i: usize = 0;
        while i < self.users.len()
            invariant
                self.wf(),
                i <= self.users.len(),
                forall|j: int| 0 <= j < i ==> (#[trigger] self.users@[j]).email@ != email@,
            decreases self.users.len() - i,
        {
            if self.users[i].email == *email {
                proof {
                    lemma_as_map_index(user_pairs(self.users@), i as int);
                }
                return Some(self.users[i].copy());
            }
            i = i + 1;
        }
        assert forall|id: u128| #[trigger] self.users().contains_key(id) implies self.users()[id].email != email@ by {
            let j = choose|j: int| 0 <= j < user_pairs(self.users@).len() && #[trigger] user_pairs(self.users@)[j].0 == id;
            lemma_as_map_index(user_pairs(self.users@), j);
            assert(self.users@[j].email@ != email@);
        }
        None
    }

    /// A copy of the user holding the credential with id `cid`; absent where
    /// the index has no entry, or an entry whose user is gone.
    pub fn fetch_user_by_passkey(&self, cid: &Vec<u8>) -> (r: Option<User>)
        requires
            self.wf(),
        ensures
            match r {
                Some(u) => by_credential(self.index(), self.users(), cid@) == Some(u@),
                None => by_credential(self.index(), self.users(), cid@) is None,
            },
    {
        match self.find_credential(cid) {
            Some(j) => {
                proof {
                    lemma_as_map_index(index_pairs(self.passkey_index@), j as int);
                }
                let id = self.passkey_index[j].1;
                self.fetch_user(&id)
            },
            None => {
                proof {
                    lemma_as_map_absent(index_pairs(self.passkey_index@), cid@);
                }
                None
            },
        }
    }
}

} // verus!
