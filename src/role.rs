use vstd::prelude::*;

verus! {

/// The closed set of user roles. Admin is a blanket override; Seller and
/// Buyer are otherwise disjoint capability sets.
#[derive(Debug, Clone, Copy, PartialEq, Eq, Structural)]
pub enum Role {
    Admin,
    Seller,
    Buyer,
}

/// The lowercase wire name of a role, as ASCII bytes.
pub open spec fn role_name(r: Role) -> Seq<u8> {
    match r {
        Role::Admin => seq![97u8, 100u8, 109u8, 105u8, 110u8],
        Role::Seller => seq![115u8, 101u8, 108u8, 108u8, 101u8, 114u8],
        Role::Buyer => seq![98u8, 117u8, 121u8, 101u8, 114u8],
    }
}

/// The role whose wire name is `name`, if any.
pub open spec fn role_of_name(name: Seq<u8>) -> Option<Role> {
    if name == role_name(Role::Admin) {
        Some(Role::Admin)
    } else if name == role_name(Role::Seller) {
        Some(Role::Seller)
    } else if name == role_name(Role::Buyer) {
        Some(Role::Buyer)
    } else {
        None
    }
}

/// Each role is recovered from its wire name.
pub proof fn lemma_role_name_round_trip(r: Role)
    ensures
        role_of_name(role_name(r)) == Some(r),
{
    assert(role_name(Role::Admin) != role_name(Role::Seller)) by {
        assert(role_name(Role::Admin).len() != role_name(Role::Seller).len());
    }
    assert(role_name(Role::Admin) != role_name(Role::Buyer)) by {
        assert(role_name(Role::Admin)[0] != role_name(Role::Buyer)[0]);
    }
    assert(role_name(Role::Seller) != role_name(Role::Buyer)) by {
        assert(role_name(Role::Seller).len() != role_name(Role::Buyer).len());
    }
}

pub(crate) fn slice_eq(a: &[u8], b: &[u8]) -> (r: bool)
    ensures
        r == (a@ == b@),
{
    if a.len() != b.len() {
        return false;
    }
    let mut i: usize = 0;
    while i < a.len()
        invariant
            a@.len() == b@.len(),
            0 <= i <= a@.len(),
            forall|k: int| 0 <= k < i ==> a@[k] == b@[k],
        decreases a@.len() - i,
    {
        if a[i] != b[i] {
            return false;
        }
        i = i + 1;
    }
    assert(a@ =~= b@);
    true
}

impl Role {
    /// The lowercase wire name: `admin`, `seller` or `buyer`.
    pub fn name(&self) -> (r: Vec<u8>)
        ensures
            r@ == role_name(*self),
    {
        let r = match self {
            Role::Admin => vec![97u8, 100u8, 109u8, 105u8, 110u8],
            Role::Seller => vec![115u8, 101u8, 108u8, 108u8, 101u8, 114u8],
            Role::Buyer => vec![98u8, 117u8, 121u8, 101u8, 114u8],
        };
        assert(r@ =~= role_name(*self));
        r
    }

    /// Reads a role from its lowercase wire name.
    pub fn from_name(name: &[u8]) -> (r: Option<Role>)
        ensures
            r == role_of_name(name@),
    {
        let admin = Role::Admin.name();
        let seller = Role::Seller.name();
        let buyer = Role::Buyer.name();
        if slice_eq(name, admin.as_slice()) {
            Some(Role::Admin)
        } else if slice_eq(name, seller.as_slice()) {
            Some(Role::Seller)
        } else if slice_eq(name, buyer.as_slice()) {
            Some(Role::Buyer)
        } else {
            None
        }
    }
}

} // verus!
