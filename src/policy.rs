use vstd::prelude::*;
use crate::role::Role;
use crate::error::{Error, AuthorizationError};
use crate::model::{NewProduct, UpdateProduct};
use crate::token::Clains;

verus! {

/// An action guarded by the role rule.
#[derive(Debug, Clone, Copy, PartialEq, Eq, Structural)]
pub enum Action {
    /// Creating a new resource.
    CreateResource,
    /// Listing or reading resources.
    ReadResource,
}

/// The static allow-set of roles for each action.
pub open spec fn role_permits(role: Role, action: Action) -> bool {
    match action {
        Action::CreateResource => match role {
            Role::Admin => true,
            Role::Seller => true,
            Role::Buyer => false,
        },
        Action::ReadResource => true,
    }
}

/// The ownership rule: the owner, or any admin, may mutate a resource.
pub open spec fn ownership_permits(caller_id: int, role: Role, owner_id: int) -> bool {
    caller_id == owner_id || role == Role::Admin
}

/// The role rule, evaluated from the caller's role alone.
pub fn role_allows(role: Role, action: Action) -> (r: bool)
    ensures
        r == role_permits(role, action),
{
    match action {
        Action::CreateResource => match role {
            Role::Admin => true,
            Role::Seller => true,
            Role::Buyer => false,
        },
        Action::ReadResource => true,
    }
}

/// The ownership rule for a resource whose current owner is `owner_id`.
pub fn owner_allows(caller_id: i32, role: Role, owner_id: i32) -> (r: bool)
    ensures
        r == ownership_permits(caller_id as int, role, owner_id as int),
{
    caller_id == owner_id || role == Role::Admin
}

/// Whether a file starts with the `MZ` executable signature.
pub open spec fn is_executable(data: Seq<u8>) -> bool {
    data.len() >= 2 && data[0] == 0x4D && data[1] == 0x5A
}

/// An attached file, if any, must be an executable.
pub open spec fn attachment_ok(file: Option<Vec<u8>>) -> bool {
    match file {
        Some(f) => is_executable(f@),
        None => true,
    }
}

/// Whether `data` starts with the `MZ` executable signature.
pub fn is_exe_file(data: &[u8]) -> (r: bool)
    ensures
        r == is_executable(data@),
{
    data.len() >= 2 && data[0] == 0x4D && data[1] == 0x5A
}

/// Rejects an attached file that is not an executable.
pub fn check_attachment(file: &Option<Vec<u8>>) -> (r: Result<(), Error>)
    ensures
        r == (if attachment_ok(*file) {
            Ok(())
        } else {
            Err(Error::Datatype)
        }),
{
    match file {
        Some(f) => if is_exe_file(f.as_slice()) {
            Ok(())
        } else {
            Err(Error::Datatype)
        },
        None => Ok(()),
    }
}

/// The decision on a create request: the role rule first, whatever the body,
/// then the attached file.
pub open spec fn create_decision(role: Role, file: Option<Vec<u8>>) -> Result<(), Error> {
    if !role_permits(role, Action::CreateResource) {
        Err(Error::Forbidden(AuthorizationError::RoleDenied))
    } else if !attachment_ok(file) {
        Err(Error::Datatype)
    } else {
        Ok(())
    }
}

/// The decision on a mutation of a resource whose current owner is
/// `owner_id`, by the user `caller_id` holding `role`.
pub open spec fn mutate_decision(caller_id: int, role: Role, owner_id: int) -> Result<(), Error> {
    if ownership_permits(caller_id, role, owner_id) {
        Ok(())
    } else {
        Err(Error::Forbidden(AuthorizationError::OwnershipDenied))
    }
}

/// The decision on a change to the account `target`.
pub open spec fn account_decision(caller: Seq<char>, role: Role, target: Seq<char>) -> Result<
    (),
    Error,
> {
    if caller == target || role == Role::Admin {
        Ok(())
    } else {
        Err(Error::Forbidden(AuthorizationError::OwnershipDenied))
    }
}

/// Authorizes creating a resource.
pub fn authorize_create_product(identity: &Clains, data: &NewProduct) -> (r: Result<(), Error>)
    ensures
        r == create_decision(identity.role, data.executable),
{
    if !role_allows(identity.role, Action::CreateResource) {
        return Err(Error::Forbidden(AuthorizationError::RoleDenied));
    }
    check_attachment(&data.executable)
}

/// Authorizes deleting a resource owned by `owner_id`; `caller_id` is the
/// caller's user id as the credential store reads it now.
pub fn authorize_delete_product(identity: &Clains, caller_id: i32, owner_id: i32) -> (r: Result<
    (),
    Error,
>)
    ensures
        r == mutate_decision(caller_id as int, identity.role, owner_id as int),
{
    if owner_allows(caller_id, identity.role, owner_id) {
        Ok(())
    } else {
        Err(Error::Forbidden(AuthorizationError::OwnershipDenied))
    }
}

/// Authorizes changing a resource owned by `owner_id`: the ownership rule,
/// then the attached file.
pub fn authorize_update_product(
    identity: &Clains,
    caller_id: i32,
    owner_id: i32,
    data: &UpdateProduct,
) -> (r: Result<(), Error>)
    ensures
        r == (match mutate_decision(caller_id as int, identity.role, owner_id as int) {
            Ok(_) => if attachment_ok(data.executable) {
                Ok(())
            } else {
                Err(Error::Datatype)
            },
            Err(e) => Err(e),
        }),
{
    match authorize_delete_product(identity, caller_id, owner_id) {
        Ok(()) => check_attachment(&data.executable),
        Err(e) => Err(e),
    }
}

fn str_eq(a: &str, b: &str) -> (r: bool)
    ensures
        r == (a@ == b@),
{
    broadcast use vstd::utf8::encode_utf8_decode_utf8;

    let r = crate::role::slice_eq(a.as_bytes(), b.as_bytes());
    proof {
        if r {
            assert(vstd::utf8::decode_utf8(vstd::utf8::encode_utf8(a@)) == a@);
            assert(vstd::utf8::decode_utf8(vstd::utf8::encode_utf8(b@)) == b@);
        }
    }
    r
}

/// Authorizes updating or deleting the account `target`: its own user, or
/// an admin.
pub fn authorize_account_change(identity: &Clains, target: &str) -> (r: Result<(), Error>)
    ensures
        r == account_decision(identity.username@, identity.role, target@),
{
    if str_eq(identity.username.as_str(), target) || identity.role == Role::Admin {
        Ok(())
    } else {
        Err(Error::Forbidden(AuthorizationError::OwnershipDenied))
    }
}

/// The role rule for creation: a buyer is always denied, a seller or an
/// admin always allowed.
pub proof fn lemma_create_role_rule(role: Role)
    ensures
        role_permits(role, Action::CreateResource) <==> role != Role::Buyer,
        role == Role::Buyer ==> forall|f: Option<Vec<u8>>|
            #[trigger] create_decision(role, f) == Err::<(), _>(
                Error::Forbidden(AuthorizationError::RoleDenied),
            ),
{
}

/// The ownership rule: a caller who is not the owner is denied unless an
/// admin; the owner, and any admin, are allowed.
pub proof fn lemma_ownership_rule(caller_id: int, role: Role, owner_id: int)
    ensures
        caller_id != owner_id ==> (mutate_decision(caller_id, role, owner_id) is Ok <==> role
            == Role::Admin),
        mutate_decision(owner_id, role, owner_id) is Ok,
        mutate_decision(caller_id, Role::Admin, owner_id) is Ok,
{
}

} // verus!
