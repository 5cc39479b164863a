//! The decisions of the registration and authentication ceremonies. Each
//! ceremony runs in two calls. `start_*` says what to ask the WebAuthn engine
//! for, and the engine's ceremony state is kept in the session with
//! `save_ceremony_state`. On finish the caller reads that state, has the
//! engine check the client's response against it, and hands the session and
//! the engine's answer to `finish_*`, which takes the state out of the session
//! whatever the outcome, so each start allows one finish.
use vstd::prelude::*;
use crate::session::{SessionState, StateMap};
use crate::user::{by_credential, copy_bytes, index_after_save, Credential, User, UserRepository, UserView};

verus! {

#[derive(Debug, Clone, PartialEq, Eq)]
pub enum CeremonyError {
    /// No user matches the request.
    NotFound,
    /// Finish was called without a live start of the same ceremony.
    CeremonyNotStarted,
    /// The engine rejected the client's response, with the engine's reason.
    VerificationFailed(String),
    /// The verified credential belongs to no stored user.
    UserNotFound,
}

#[derive(Debug, Clone, Copy, PartialEq, Eq, Structural)]
pub enum Ceremony {
    Registration,
    Authentication,
}

/// The session field under which a ceremony keeps its state.
pub open spec fn state_field(kind: Ceremony) -> Seq<char> {
    match kind {
        Ceremony::Registration => "passkey_registration_state"@,
        Ceremony::Authentication => "passkey_authentication_state"@,
    }
}

pub fn state_field_name(kind: Ceremony) -> (r: String)
    ensures
        r@ == state_field(kind),
{
    match kind {
        Ceremony::Registration => "passkey_registration_state".to_owned(),
        Ceremony::Authentication => "passkey_authentication_state".to_owned(),
    }
}

/// Keeps `state` as the session's ceremony state of kind `kind`; a ceremony of
/// that kind started before is abandoned.
pub fn save_ceremony_state(session: &mut SessionState, kind: Ceremony, state: String)
    requires
        old(session).wf(),
    ensures
        final(session).wf(),
        final(session)@ == old(session)@.insert(state_field(kind), state@),
{
    session.insert(state_field_name(kind), state);
}

/// Removes the session's ceremony state of kind `kind` and returns it.
pub fn take_ceremony_state(session: &mut SessionState, kind: Ceremony) -> (r: Result<String, CeremonyError>)
    requires
        old(session).wf(),
    ensures
        final(session).wf(),
        final(session)@ == old(session)@.remove(state_field(kind)),
        match r {
            Ok(s) => old(session)@.contains_key(state_field(kind)) && old(session)@[state_field(kind)] == s@,
            Err(e) => e == CeremonyError::CeremonyNotStarted && !old(session)@.contains_key(state_field(kind)),
        },
{
    match session.remove(&state_field_name(kind)) {
        Some(s) => Ok(s),
        None => Err(CeremonyError::CeremonyNotStarted),
    }
}

/// Ceremony state can be taken once: after a take, a second take of the same
/// kind finds nothing, whatever the first one returned.
pub proof fn lemma_ceremony_state_single_use(session: StateMap, kind: Ceremony)
    ensures
        !session.remove(state_field(kind)).contains_key(state_field(kind)),
{
}

/// The two ceremonies keep their state under different fields, so neither
/// finish reads what the other start left.
pub proof fn lemma_ceremony_fields_distinct()
    ensures
        state_field(Ceremony::Registration) != state_field(Ceremony::Authentication),
{
    reveal_strlit("passkey_registration_state");
    reveal_strlit("passkey_authentication_state");
    assert(state_field(Ceremony::Registration)[8] != state_field(Ceremony::Authentication)[8]);
}

/// What to ask the engine for at the start of a registration.
pub struct RegistrationRequest {
    pub user_id: u128,
    pub user_name: String,
    pub display_name: String,
    /// The id of the credential the user already has, so it is not enrolled again.
    pub exclude_credentials: Option<Vec<Vec<u8>>>,
}

/// The relying party and its users.
pub struct Application {
    pub user_repository: UserRepository,
    pub rp_id: String,
    pub rp_origin: String,
    pub rp_name: String,
}

impl Application {
    pub open spec fn wf(&self) -> bool {
        self.user_repository.wf()
    }

    pub fn new() -> (r: Application)
        ensures
            r.wf(),
            r.user_repository.users() == Map::<u128, UserView>::empty(),
            r.user_repository.index() == Map::<Seq<u8>, u128>::empty(),
            r.rp_id@ == "passkey-demo.localhost"@,
            r.rp_origin@ == "https://passkey-demo.localhost:8081"@,
            r.rp_name@ == "my_rp"@,
    {
        Application {
            user_repository: UserRepository::new(),
            rp_id: "passkey-demo.localhost".to_owned(),
            rp_origin: "https://passkey-demo.localhost:8081".to_owned(),
            rp_name: "my_rp".to_owned(),
        }
    }

    /// Creates a user with `email` and no credential, and returns its id.
    pub fn register_user(&mut self, email: String) -> (r: u128)
        requires
            old(self).wf(),
        ensures
            final(self).wf(),
            final(self).user_repository.users() == old(self).user_repository.users().insert(
                r,
                UserView { id: r, email: email@, passkey: None },
            ),
            final(self).user_repository.index() == index_after_save(
                old(self).user_repository.index(),
                old(self).user_repository.users(),
                UserView { id: r, email: email@, passkey: None },
            ),
            final(self).rp_id == old(self).rp_id,
    {
        let user = User::create(email);
        let id = user.id;
        self.user_repository.save_user(user);
        id
    }

    /// What to ask the engine for when user `user_id` starts a registration.
    pub fn start_passkey_registration(&self, user_id: u128) -> (r: Result<RegistrationRequest, CeremonyError>)
        requires
            self.wf(),
        ensures
            !self.user_repository.users().contains_key(user_id) ==> r == Err::<RegistrationRequest, CeremonyError>(
                CeremonyError::NotFound,
            ),
            self.user_repository.users().contains_key(user_id) ==> r is Ok,
            r matches Ok(req) ==> {
                let u = self.user_repository.users()[user_id];
                &&& req.user_id == user_id
                &&& req.user_name@ == u.email
                &&& req.display_name@ == u.email
                &&& match u.passkey {
                    Some(p) => req.exclude_credentials matches Some(v) && v@.len() == 1 && v@[0]@ == p.0,
                    None => req.exclude_credentials is None,
                }
            },
    {
        match self.user_repository.fetch_user(&user_id) {
            None => Err(CeremonyError::NotFound),
            Some(user) => {
                let exclude_credentials = match user.get_passkey() {
                    Some(p) => {
                        let mut v: Vec<Vec<u8>> = Vec::new();
                        v.push(copy_bytes(&p.id));
                        Some(v)
                    },
                    None => None,
                };
                Ok(
                    RegistrationRequest {
                        user_id: user.id,
                        user_name: user.email.clone(),
                        display_name: user.email.clone(),
                        exclude_credentials,
                    },
                )
            },
        }
    }

    /// Finishes a registration of user `user_id` on `session`. The session's
    /// registration state is taken out whatever the outcome, so each start
    /// allows one finish; without it the finish fails with
    /// `CeremonyNotStarted`. `verified` holds what the engine said of the
    /// client's response against that state: the new credential, or the
    /// reason for rejecting it.
    /// On success the credential replaces the user's earlier one.
    pub fn finish_passkey_registration(
        &mut self,
        session: &mut SessionState,
        user_id: u128,
        verified: Result<Credential, String>,
    ) -> (r: Result<(), CeremonyError>)
        requires
            old(self).wf(),
            old(session).wf(),
        ensures
            final(self).wf(),
            final(self).rp_id == old(self).rp_id,
            final(session).wf(),
            final(session)@ == old(session)@.remove(state_field(Ceremony::Registration)),
            !old(session)@.contains_key(state_field(Ceremony::Registration)) ==> r == Err::<(), CeremonyError>(
                CeremonyError::CeremonyNotStarted,
            ) && final(self).user_repository == old(self).user_repository,
            old(session)@.contains_key(state_field(Ceremony::Registration)) ==> match verified {
                Err(e) => r == Err::<(), CeremonyError>(CeremonyError::VerificationFailed(e))
                    && final(self).user_repository == old(self).user_repository,
                Ok(c) => if old(self).user_repository.users().contains_key(user_id) {
                    let nu = UserView { passkey: Some(c@), ..old(self).user_repository.users()[user_id] };
                    &&& r is Ok
                    &&& final(self).user_repository.users() == old(self).user_repository.users().insert(user_id, nu)
                    &&& final(self).user_repository.index() == index_after_save(
                        old(self).user_repository.index(),
                        old(self).user_repository.users(),
                        nu,
                    )
                } else {
                    r == Err::<(), CeremonyError>(CeremonyError::NotFound) && final(self).user_repository == old(
                        self,
                    ).user_repository
                },
            },
    {
        match take_ceremony_state(session, Ceremony::Registration) {
            Err(e) => Err(e),
            Ok(_) => match verified {
                Err(e) => Err(CeremonyError::VerificationFailed(e)),
                Ok(c) => match self.user_repository.fetch_user(&user_id) {
                    None => Err(CeremonyError::NotFound),
                    Some(user) => {
                        let mut user = user;
                        user.update_passkey(c);
                        self.user_repository.save_user(user);
                        Ok(())
                    },
                },
            },
        }
    }

    /// The credentials a user with `email` may authenticate with: none, or the
    /// one enrolled.
    pub fn start_passkey_authentication(&self, email: &String) -> (r: Result<Vec<Credential>, CeremonyError>)
        requires
            self.wf(),
        ensures
            match r {
                Ok(v) => exists|id: u128| {
                    &&& #[trigger] self.user_repository.users().contains_key(id)
                    &&& self.user_repository.users()[id].email == email@
                    &&& match self.user_repository.users()[id].passkey {
                        Some(p) => v@.len() == 1 && v@[0]@ == p,
                        None => v@.len() == 0,
                    }
                },
                Err(e) => e == CeremonyError::NotFound && forall|id: u128| #[trigger]
                    self.user_repository.users().contains_key(id) ==> self.user_repository.users()[id].email
                        != email@,
            },
    {
        match self.user_repository.fetch_user_by_email(email) {
            None => Err(CeremonyError::NotFound),
            Some(user) => {
                let mut v: Vec<Credential> = Vec::new();
                match user.get_passkey() {
                    Some(p) => v.push(p.copy()),
                    None => {},
                }
                assert(self.user_repository.users().contains_key(user.id));
                Ok(v)
            },
        }
    }

    /// Finishes an authentication on `session`. The session's authentication
    /// state is taken out whatever the outcome; without it the finish fails
    /// with `CeremonyNotStarted`. `verified` holds what the engine said of
    /// the client's response: the id of the matched credential, or the reason
    /// for rejecting it. Returns the id of the user to log in as.
    pub fn finish_passkey_authentication(
        &self,
        session: &mut SessionState,
        verified: Result<Vec<u8>, String>,
    ) -> (r: Result<u128, CeremonyError>)
        requires
            self.wf(),
            old(session).wf(),
        ensures
            final(session).wf(),
            final(session)@ == old(session)@.remove(state_field(Ceremony::Authentication)),
            !old(session)@.contains_key(state_field(Ceremony::Authentication)) ==> r == Err::<u128, CeremonyError>(
                CeremonyError::CeremonyNotStarted,
            ),
            old(session)@.contains_key(state_field(Ceremony::Authentication)) ==> match verified {
                Err(e) => r == Err::<u128, CeremonyError>(CeremonyError::VerificationFailed(e)),
                Ok(cid) => match by_credential(
                    self.user_repository.index(),
                    self.user_repository.users(),
                    cid@,
                ) {
                    Some(u) => r == Ok::<u128, CeremonyError>(u.id),
                    None => r == Err::<u128, CeremonyError>(CeremonyError::UserNotFound),
                },
            },
    {
        match take_ceremony_state(session, Ceremony::Authentication) {
            Err(e) => Err(e),
            Ok(_) => match verified {
                Err(e) => Err(CeremonyError::VerificationFailed(e)),
                Ok(cid) => match self.user_repository.fetch_user_by_passkey(&cid) {
                    Some(user) => Ok(user.id),
                    None => Err(CeremonyError::UserNotFound),
                },
            },
        }
    }
}

} // verus!
