use passkey_demo::user::{bytes_equal, copy_bytes, Credential, User, UserRepository};

fn cred(id: &[u8]) -> Credential {
    Credential { id: id.to_vec(), record: vec![9, 9] }
}

#[test]
fn saved_credential_resolves_to_user() {
    let mut repo = UserRepository::new();
    repo.save_user(User::new(1, "a@b.com".to_string(), Some(cred(&[1, 2, 3]))));
    let u = repo.fetch_user_by_passkey(&vec![1, 2, 3]).expect("indexed");
    assert_eq!(u.id, 1);
    assert_eq!(u.email, "a@b.com");
}

#[test]
fn replaced_credential_no_longer_resolves() {
    let mut repo = UserRepository::new();
    repo.save_user(User::new(1, "a@b.com".to_string(), Some(cred(&[1]))));
    let mut u = repo.fetch_user(&1).unwrap();
    u.update_passkey(cred(&[2]));
    repo.save_user(u);
    assert!(repo.fetch_user_by_passkey(&vec![1]).is_none());
    assert_eq!(repo.fetch_user_by_passkey(&vec![2]).unwrap().id, 1);
}

#[test]
fn many_distinct_users_all_resolve() {
    let mut repo = UserRepository::new();
    for i in 0..20u8 {
        repo.save_user(User::new(i as u128 + 100, format!("u{}@x", i), Some(cred(&[i, i]))));
    }
    for i in 0..20u8 {
        let u = repo.fetch_user_by_passkey(&vec![i, i]).expect("resolves");
        assert_eq!(u.id, i as u128 + 100);
        assert_eq!(u.email, format!("u{}@x", i));
    }
}

#[test]
fn credential_taken_over_points_at_new_holder() {
    let mut repo = UserRepository::new();
    repo.save_user(User::new(1, "a".to_string(), Some(cred(&[5]))));
    repo.save_user(User::new(2, "b".to_string(), Some(cred(&[5]))));
    assert_eq!(repo.fetch_user_by_passkey(&vec![5]).unwrap().id, 2);
}

#[test]
fn fetch_user_returns_a_copy() {
    let mut repo = UserRepository::new();
    repo.save_user(User::new(1, "a".to_string(), None));
    let mut u = repo.fetch_user(&1).unwrap();
    u.update_passkey(cred(&[7]));
    assert!(repo.fetch_user(&1).unwrap().get_passkey().is_none());
    assert!(repo.fetch_user_by_passkey(&vec![7]).is_none());
    assert!(repo.fetch_user(&2).is_none());
}

#[test]
fn fetch_by_email_is_exact() {
    let mut repo = UserRepository::new();
    repo.save_user(User::new(1, "a@b.com".to_string(), None));
    assert_eq!(repo.fetch_user_by_email(&"a@b.com".to_string()).unwrap().id, 1);
    assert!(repo.fetch_user_by_email(&"A@b.com".to_string()).is_none());
}

#[test]
fn created_users_get_distinct_ids_and_no_credential() {
    let a = User::create("x".to_string());
    let b = User::create("x".to_string());
    assert_ne!(a.id, b.id);
    assert!(a.get_passkey().is_none());
    assert_eq!(a.email, "x");
}

#[test]
fn byte_helpers() {
    assert!(bytes_equal(&vec![1, 2], &vec![1, 2]));
    assert!(!bytes_equal(&vec![1, 2], &vec![1, 3]));
    assert!(!bytes_equal(&vec![1], &vec![1, 2]));
    assert_eq!(copy_bytes(&vec![4, 5, 6]), vec![4, 5, 6]);
}
