use resource_auth::auth::{authorize_login, login, IsAuth};
use resource_auth::credential::{hash_password, verify_password, PASSWORD_COST};
use resource_auth::error::{AuthorizationError, Error};
use resource_auth::model::{NewProduct, UpdateProduct, User};
use resource_auth::policy::{
    authorize_account_change, authorize_create_product, authorize_delete_product,
    authorize_update_product, check_attachment, is_exe_file, owner_allows, role_allows, Action,
};
use resource_auth::role::Role;
use resource_auth::token::{Clains, TokenError};

const SECRET: &[u8] = b"another-secret";

fn identity(name: &str, role: Role) -> Clains {
    Clains { username: name.to_string(), role, exp: u64::MAX }
}

fn user(id: i32, name: &str, password_hash: String, role: Role) -> User {
    User {
        id,
        email: format!("{name}@example.com"),
        username: name.to_string(),
        password: password_hash,
        role,
    }
}

fn new_product(executable: Option<Vec<u8>>) -> NewProduct {
    NewProduct {
        name: "work space".to_string(),
        description: "it is a works space app".to_string(),
        price: 70,
        owner_id: 2,
        executable,
    }
}

fn real_now() -> u64 {
    std::time::SystemTime::now()
        .duration_since(std::time::UNIX_EPOCH)
        .unwrap()
        .as_secs()
}

#[test]
fn password_hash_then_verify() {
    let h = hash_password("s3cret", 4).unwrap();
    assert_ne!(h, "s3cret");
    assert_eq!(h.len(), 60);
    assert!(h.starts_with("$2b$04$"));
    assert!(verify_password("s3cret", &h));
    assert!(!verify_password("s3cret!", &h));
    assert!(!verify_password("", &h));
    assert!(!verify_password("s3cret", "not a hash"));
}

#[test]
fn password_cost_out_of_range() {
    assert_eq!(hash_password("pw", 3), Err(Error::Hashing));
    assert_eq!(hash_password("pw", 32), Err(Error::Hashing));
    assert_eq!(PASSWORD_COST, 12);
}

#[test]
fn login_alice_gives_her_token() {
    let stored = user(1, "alice", hash_password("s3cret", 4).unwrap(), Role::Seller);
    let now = real_now();
    let t = login(Some(&stored), "alice", "s3cret", SECRET, now).unwrap();
    let c = Clains::from_token(&t, SECRET, now).unwrap();
    assert_eq!(c.username, "alice");
    assert_eq!(c.role, Role::Seller);
    assert_eq!(c.exp, now + 3600);
}

#[test]
fn login_failures_look_alike() {
    let stored = user(1, "alice", hash_password("s3cret", 4).unwrap(), Role::Seller);
    assert_eq!(login(None, "alice", "s3cret", SECRET, 10), Err(Error::InvalidCredentials));
    assert_eq!(login(Some(&stored), "alice", "wrong", SECRET, 10), Err(Error::InvalidCredentials));
    assert_eq!(login(Some(&stored), "alice", "s3cret", SECRET, u64::MAX), Err(Error::Conversion));
    let broken = user(2, "bea", "not a hash".to_string(), Role::Buyer);
    assert_eq!(login(Some(&broken), "bea", "not a hash", SECRET, 10), Err(Error::InvalidCredentials));
}

#[test]
fn authorize_login_outcomes() {
    let stored = user(1, "alice", "unused".to_string(), Role::Admin);
    assert_eq!(authorize_login(None, "alice", true, SECRET, 10), Err(Error::InvalidCredentials));
    assert_eq!(
        authorize_login(Some(&stored), "alice", false, SECRET, 10),
        Err(Error::InvalidCredentials)
    );
    assert_eq!(
        authorize_login(Some(&stored), "alice", true, SECRET, u64::MAX),
        Err(Error::Conversion)
    );
    let t = authorize_login(Some(&stored), "alice", true, SECRET, 10).unwrap();
    let c = Clains::from_token(&t, SECRET, 10).unwrap();
    assert_eq!((c.username.as_str(), c.role, c.exp), ("alice", Role::Admin, 3610));
}

#[test]
fn bearer_header_authenticates() {
    let t = identity("dora", Role::Buyer);
    let t = Clains { exp: 500, ..t }.to_token(SECRET);
    let mut header = b"Bearer ".to_vec();
    header.extend_from_slice(&t);
    let who = IsAuth::from_header(Some(&header), SECRET, 100).unwrap();
    assert_eq!(who.0.username, "dora");
    assert_eq!(who.0.role, Role::Buyer);
    assert_eq!(
        IsAuth::from_header(Some(&header), SECRET, 500).err(),
        Some(Error::Token(TokenError::Expired))
    );
    assert_eq!(IsAuth::from_header(Some(&t), SECRET, 100).err(), Some(Error::MissingToken));
    assert_eq!(IsAuth::from_header(None, SECRET, 100).err(), Some(Error::MissingToken));
    assert_eq!(
        IsAuth::from_header(Some(b"Bearer nonsense"), SECRET, 100).err(),
        Some(Error::Token(TokenError::Malformed))
    );
}

#[test]
fn buyer_bob_cannot_create() {
    let bob = identity("bob", Role::Buyer);
    let denied = Err(Error::Forbidden(AuthorizationError::RoleDenied));
    assert_eq!(authorize_create_product(&bob, &new_product(None)), denied);
    assert_eq!(authorize_create_product(&bob, &new_product(Some(vec![7]))), denied);
}

#[test]
fn seller_and_admin_can_create() {
    for role in [Role::Seller, Role::Admin] {
        let who = identity("sam", role);
        assert_eq!(authorize_create_product(&who, &new_product(None)), Ok(()));
        assert_eq!(authorize_create_product(&who, &new_product(Some(b"MZ\x90".to_vec()))), Ok(()));
        assert_eq!(
            authorize_create_product(&who, &new_product(Some(vec![7]))),
            Err(Error::Datatype)
        );
    }
    assert!(role_allows(Role::Seller, Action::CreateResource));
    assert!(!role_allows(Role::Buyer, Action::CreateResource));
    assert!(role_allows(Role::Buyer, Action::ReadResource));
}

#[test]
fn owner_carol_deletes_dave_denied() {
    let carol = identity("carol", Role::Seller);
    let dave = identity("dave", Role::Buyer);
    assert_eq!(authorize_delete_product(&carol, 5, 5), Ok(()));
    assert_eq!(
        authorize_delete_product(&dave, 6, 5),
        Err(Error::Forbidden(AuthorizationError::OwnershipDenied))
    );
    let admin = identity("root", Role::Admin);
    assert_eq!(authorize_delete_product(&admin, 1, 5), Ok(()));
    assert!(owner_allows(5, Role::Buyer, 5));
    assert!(!owner_allows(6, Role::Seller, 5));
}

#[test]
fn update_checks_owner_then_file() {
    let up = |executable| UpdateProduct {
        name: "amine".to_string(),
        description: "test description".to_string(),
        price: 77,
        executable,
    };
    let carol = identity("carol", Role::Seller);
    assert_eq!(authorize_update_product(&carol, 5, 5, &up(None)), Ok(()));
    assert_eq!(authorize_update_product(&carol, 5, 5, &up(Some(vec![7]))), Err(Error::Datatype));
    assert_eq!(
        authorize_update_product(&carol, 6, 5, &up(Some(vec![7]))),
        Err(Error::Forbidden(AuthorizationError::OwnershipDenied))
    );
}

#[test]
fn account_change_rule() {
    let amy = identity("amy", Role::Buyer);
    assert_eq!(authorize_account_change(&amy, "amy"), Ok(()));
    assert_eq!(
        authorize_account_change(&amy, "amy2"),
        Err(Error::Forbidden(AuthorizationError::OwnershipDenied))
    );
    assert_eq!(authorize_account_change(&identity("root", Role::Admin), "amy"), Ok(()));
}

#[test]
fn executable_signature() {
    assert!(is_exe_file(&[0x4D, 0x5A]));
    assert!(is_exe_file(b"MZ rest"));
    assert!(!is_exe_file(b"M"));
    assert!(!is_exe_file(b"ZM"));
    assert!(!is_exe_file(&[]));
    assert_eq!(check_attachment(&None), Ok(()));
    assert_eq!(check_attachment(&Some(vec![7])), Err(Error::Datatype));
}

#[test]
fn failure_classification() {
    assert_eq!(Error::InvalidCredentials.status(), 401);
    assert_eq!(Error::MissingToken.status(), 401);
    assert_eq!(Error::Token(TokenError::BadSignature).status(), 401);
    assert_eq!(Error::Forbidden(AuthorizationError::RoleDenied).status(), 403);
    assert_eq!(Error::Forbidden(AuthorizationError::OwnershipDenied).status(), 403);
    assert_eq!(Error::Datatype.status(), 400);
    assert_eq!(Error::Json.status(), 400);
    assert_eq!(Error::Conversion.status(), 500);
    assert_eq!(Error::Hashing.status(), 500);
    assert_eq!(Error::Upstream.status(), 500);
    assert_eq!(
        Error::Token(TokenError::Expired).message(),
        Error::Token(TokenError::Malformed).message()
    );
    assert_eq!(Error::Upstream.message(), "Something went wrong on the server");
    assert_eq!(Error::InvalidCredentials.message(), "Invalid credentials");
}
