use passkey_demo::ceremony::{
    save_ceremony_state, state_field_name, take_ceremony_state, Application, Ceremony, CeremonyError,
};
use passkey_demo::encode_base64_url;
use passkey_demo::session::SessionState;
use passkey_demo::user::Credential;

fn cred(id: &[u8]) -> Credential {
    Credential { id: id.to_vec(), record: vec![1] }
}

fn started(kind: Ceremony) -> SessionState {
    let mut session = SessionState::new();
    save_ceremony_state(&mut session, kind, "ceremony-state".to_string());
    session
}

fn enrolled(email: &str, cid: &[u8]) -> (Application, u128) {
    let mut app = Application::new();
    let uid = app.register_user(email.to_string());
    let mut session = started(Ceremony::Registration);
    app.finish_passkey_registration(&mut session, uid, Ok(cred(cid))).unwrap();
    (app, uid)
}

#[test]
fn registration_end_to_end() {
    let mut app = Application::new();
    let uid = app.register_user("u@x.org".to_string());
    let req = app.start_passkey_registration(uid).expect("user exists");
    assert_eq!(req.user_id, uid);
    assert_eq!(req.user_name, "u@x.org");
    assert!(req.exclude_credentials.is_none());
    let mut session = started(Ceremony::Registration);
    assert_eq!(app.finish_passkey_registration(&mut session, uid, Ok(cred(&[4, 2]))), Ok(()));
    assert!(session.get(&state_field_name(Ceremony::Registration)).is_none());
    let u = app.user_repository.fetch_user_by_passkey(&vec![4, 2]).unwrap();
    assert_eq!(u.id, uid);
    let again = app.start_passkey_registration(uid).unwrap();
    assert_eq!(again.exclude_credentials, Some(vec![vec![4, 2]]));
}

#[test]
fn registration_finish_twice_is_not_started() {
    let mut app = Application::new();
    let uid = app.register_user("u@x.org".to_string());
    let mut session = started(Ceremony::Registration);
    assert_eq!(app.finish_passkey_registration(&mut session, uid, Ok(cred(&[1]))), Ok(()));
    assert_eq!(
        app.finish_passkey_registration(&mut session, uid, Ok(cred(&[2]))),
        Err(CeremonyError::CeremonyNotStarted)
    );
    assert!(app.user_repository.fetch_user_by_passkey(&vec![2]).is_none());
}

#[test]
fn registration_finish_without_start_is_not_started() {
    let mut app = Application::new();
    let uid = app.register_user("u@x.org".to_string());
    let mut session = SessionState::new();
    assert_eq!(
        app.finish_passkey_registration(&mut session, uid, Ok(cred(&[1]))),
        Err(CeremonyError::CeremonyNotStarted)
    );
    assert!(app.user_repository.fetch_user(&uid).unwrap().get_passkey().is_none());
}

#[test]
fn registration_finish_ignores_authentication_state() {
    let mut app = Application::new();
    let uid = app.register_user("u@x.org".to_string());
    let mut session = started(Ceremony::Authentication);
    assert_eq!(
        app.finish_passkey_registration(&mut session, uid, Ok(cred(&[1]))),
        Err(CeremonyError::CeremonyNotStarted)
    );
    assert!(session.get(&state_field_name(Ceremony::Authentication)).is_some());
}

#[test]
fn registration_rejected_by_engine_consumes_state_and_attaches_nothing() {
    let mut app = Application::new();
    let uid = app.register_user("u@x.org".to_string());
    let mut session = started(Ceremony::Registration);
    assert_eq!(
        app.finish_passkey_registration(&mut session, uid, Err("bad signature".to_string())),
        Err(CeremonyError::VerificationFailed("bad signature".to_string()))
    );
    assert!(session.get(&state_field_name(Ceremony::Registration)).is_none());
    assert!(app.user_repository.fetch_user(&uid).unwrap().get_passkey().is_none());
    let mut session = started(Ceremony::Registration);
    assert_eq!(
        app.finish_passkey_registration(&mut session, uid + 1, Ok(cred(&[1]))),
        Err(CeremonyError::NotFound)
    );
}

#[test]
fn take_twice_is_not_started() {
    let mut session = started(Ceremony::Registration);
    assert!(take_ceremony_state(&mut session, Ceremony::Registration).is_ok());
    assert_eq!(
        take_ceremony_state(&mut session, Ceremony::Registration),
        Err(CeremonyError::CeremonyNotStarted)
    );
}

#[test]
fn restart_overwrites_previous_ceremony() {
    let mut session = SessionState::new();
    save_ceremony_state(&mut session, Ceremony::Registration, "first".to_string());
    save_ceremony_state(&mut session, Ceremony::Registration, "second".to_string());
    assert_eq!(take_ceremony_state(&mut session, Ceremony::Registration), Ok("second".to_string()));
}

#[test]
fn ceremonies_do_not_read_each_others_state() {
    let mut session = started(Ceremony::Registration);
    assert_eq!(
        take_ceremony_state(&mut session, Ceremony::Authentication),
        Err(CeremonyError::CeremonyNotStarted)
    );
    assert_eq!(state_field_name(Ceremony::Registration), "passkey_registration_state");
    assert_eq!(state_field_name(Ceremony::Authentication), "passkey_authentication_state");
}

#[test]
fn registration_start_for_unknown_user_is_not_found() {
    let app = Application::new();
    assert!(matches!(app.start_passkey_registration(77), Err(CeremonyError::NotFound)));
}

#[test]
fn authentication_start_without_user_is_not_found() {
    let app = Application::new();
    assert!(matches!(
        app.start_passkey_authentication(&"a@b.com".to_string()),
        Err(CeremonyError::NotFound)
    ));
}

#[test]
fn authentication_start_lists_enrolled_credential() {
    let mut app = Application::new();
    app.register_user("a@b.com".to_string());
    assert_eq!(app.start_passkey_authentication(&"a@b.com".to_string()).unwrap().len(), 0);
    let (app, _) = enrolled("a@b.com", &[3]);
    let allowed = app.start_passkey_authentication(&"a@b.com".to_string()).unwrap();
    assert_eq!(allowed.len(), 1);
    assert_eq!(allowed[0].id, vec![3]);
}

#[test]
fn authentication_finish_with_consumed_state_establishes_nothing() {
    let (app, uid) = enrolled("a@b.com", &[3]);
    let mut session = started(Ceremony::Authentication);
    assert_eq!(app.finish_passkey_authentication(&mut session, Ok(vec![3])), Ok(uid));
    assert_eq!(
        app.finish_passkey_authentication(&mut session, Ok(vec![3])),
        Err(CeremonyError::CeremonyNotStarted)
    );
}

#[test]
fn authentication_finish_outcomes_all_consume_state() {
    let (app, uid) = enrolled("a@b.com", &[3]);
    let mut session = started(Ceremony::Authentication);
    assert_eq!(app.finish_passkey_authentication(&mut session, Ok(vec![3])), Ok(uid));
    assert!(session.get(&state_field_name(Ceremony::Authentication)).is_none());
    let mut session = started(Ceremony::Authentication);
    assert_eq!(
        app.finish_passkey_authentication(&mut session, Ok(vec![8])),
        Err(CeremonyError::UserNotFound)
    );
    assert!(session.get(&state_field_name(Ceremony::Authentication)).is_none());
    let mut session = started(Ceremony::Authentication);
    assert_eq!(
        app.finish_passkey_authentication(&mut session, Err("rejected".to_string())),
        Err(CeremonyError::VerificationFailed("rejected".to_string()))
    );
    assert!(session.get(&state_field_name(Ceremony::Authentication)).is_none());
}

#[test]
fn application_names_its_relying_party() {
    let app = Application::new();
    assert_eq!(app.rp_id, "passkey-demo.localhost");
    assert_eq!(app.rp_origin, "https://passkey-demo.localhost:8081");
    assert_eq!(app.rp_name, "my_rp");
}

#[test]
fn base64_url_encoding_without_padding() {
    assert_eq!(encode_base64_url(&vec![0xfb, 0xff]), "-_8");
    assert_eq!(encode_base64_url(&b"hello".to_vec()), "aGVsbG8");
    assert_eq!(encode_base64_url(&vec![]), "");
}
