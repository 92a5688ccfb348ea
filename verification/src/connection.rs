//! What a connection's role permits.
use crate::session::ClientRole;
use vstd::prelude::*;

verus! {

/// Roles by rank: each permits what the lower ones permit.
pub open spec fn rank(role: ClientRole) -> int {
    match role {
        ClientRole::ReadOnly => 0,
        ClientRole::ReadWrite => 1,
        ClientRole::Admin => 2,
    }
}

/// Whether a role suffices for an operation.
pub fn check_permission(role: ClientRole, required: ClientRole) -> (permitted: bool)
    ensures
        permitted == (rank(role) >= rank(required)),
{
    match role {
        ClientRole::Admin => true,
        ClientRole::ReadWrite => required != ClientRole::Admin,
        ClientRole::ReadOnly => required == ClientRole::ReadOnly,
    }
}

/// Every role permits its own operations, and a role that suffices for another permits all that
/// the other permits.
pub proof fn law_permissions_are_nested(a: ClientRole, b: ClientRole, c: ClientRole)
    ensures
        rank(a) >= rank(a),
        rank(ClientRole::Admin) >= rank(a),
        rank(a) >= rank(ClientRole::ReadOnly),
        rank(a) >= rank(b) && rank(b) >= rank(c) ==> rank(a) >= rank(c),
        rank(a) >= rank(b) && rank(b) >= rank(a) ==> a == b,
{
}

/// The role that a number on the wire stands for: 1 reads, 2 also writes, 3 administers; any
/// other number means the default.
pub fn proto_role_to_client_role(value: i32) -> (role: ClientRole)
    ensures
        role == (if value == 1 {
            ClientRole::ReadOnly
        } else if value == 3 {
            ClientRole::Admin
        } else {
            ClientRole::ReadWrite
        }),
{
    match value {
        1 => ClientRole::ReadOnly,
        2 => ClientRole::ReadWrite,
        3 => ClientRole::Admin,
        _ => ClientRole::default(),
    }
}

} // verus!
