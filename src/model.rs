use vstd::prelude::*;
use crate::role::Role;

verus! {

/// A stored user, as the credential store returns it.
#[derive(Debug, Clone)]
pub struct User {
    pub id: i32,
    pub email: String,
    pub username: String,
    /// The bcrypt hash of the password, never the password itself.
    pub password: String,
    pub role: Role,
}

/// A registration request.
#[derive(Debug, Clone)]
pub struct NewUser {
    pub email: String,
    pub username: String,
    pub password: String,
    pub role: Role,
}

/// A request to create a resource.
#[derive(Debug)]
pub struct NewProduct {
    pub name: String,
    pub description: String,
    pub price: i32,
    pub owner_id: i32,
    pub executable: Option<Vec<u8>>,
}

/// A stored resource and its owner.
#[derive(Debug, PartialEq, Eq)]
pub struct Product {
    pub id: i64,
    pub name: String,
    pub description: String,
    pub price: Option<i32>,
    pub rating: Option<i16>,
    pub owner_id: i32,
    pub executable: Option<Vec<u8>>,
}

/// A request to change a resource.
#[derive(Debug)]
pub struct UpdateProduct {
    pub name: String,
    pub description: String,
    pub price: i32,
    pub executable: Option<Vec<u8>>,
}

} // verus!
