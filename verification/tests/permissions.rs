//! Client roles and what each of them may do.

use z3rm::connection::{check_permission, proto_role_to_client_role};
use z3rm::session::{AttachMode, AttachedClient, ClientRole};

#[test]
fn test_client_role_default() {
    let role = ClientRole::default();
    assert!(matches!(role, ClientRole::ReadWrite));
}

#[test]
fn test_client_role_clone_copy() {
    let role1 = ClientRole::Admin;
    let role2 = role1;
    let role3 = role1.clone();
    assert_eq!(role1, role2);
    assert_eq!(role1, role3);
}

#[test]
fn test_attached_client_has_role() {
    let client = AttachedClient {
        client_id: "test-client".to_string(),
        mode: AttachMode::Shared,
        window_id: Some("win-1".to_string()),
        role: ClientRole::ReadOnly,
    };
    assert_eq!(client.client_id, "test-client");
    assert!(matches!(client.role, ClientRole::ReadOnly));
    assert_eq!(client.window_id.as_deref(), Some("win-1"));
}

#[test]
fn test_attached_client_clone() {
    let client1 = AttachedClient {
        client_id: "c1".to_string(),
        mode: AttachMode::Shared,
        window_id: None,
        role: ClientRole::Admin,
    };
    let client2 = client1.clone();
    assert_eq!(client1.client_id, client2.client_id);
    assert_eq!(client1.role, client2.role);
}

#[test]
fn test_admin_allows_all() {
    assert!(check_permission(ClientRole::Admin, ClientRole::ReadOnly));
    assert!(check_permission(ClientRole::Admin, ClientRole::ReadWrite));
    assert!(check_permission(ClientRole::Admin, ClientRole::Admin));
}

#[test]
fn test_readwrite_allows_readwrite() {
    assert!(check_permission(ClientRole::ReadWrite, ClientRole::ReadOnly));
    assert!(check_permission(ClientRole::ReadWrite, ClientRole::ReadWrite));
    assert!(!check_permission(ClientRole::ReadWrite, ClientRole::Admin));
}

#[test]
fn test_readonly_only_readonly() {
    assert!(check_permission(ClientRole::ReadOnly, ClientRole::ReadOnly));
    assert!(!check_permission(ClientRole::ReadOnly, ClientRole::ReadWrite));
    assert!(!check_permission(ClientRole::ReadOnly, ClientRole::Admin));
}

#[test]
fn test_proto_role_mapping() {
    assert!(matches!(proto_role_to_client_role(1), ClientRole::ReadOnly));
    assert!(matches!(proto_role_to_client_role(2), ClientRole::ReadWrite));
    assert!(matches!(proto_role_to_client_role(3), ClientRole::Admin));
    assert!(matches!(proto_role_to_client_role(0), ClientRole::ReadWrite));
    assert!(matches!(proto_role_to_client_role(99), ClientRole::ReadWrite));
}

#[test]
fn test_permission_matrix() {
    assert!(check_permission(ClientRole::ReadOnly, ClientRole::ReadOnly));
    assert!(!check_permission(ClientRole::ReadOnly, ClientRole::ReadWrite));
    assert!(!check_permission(ClientRole::ReadOnly, ClientRole::Admin));

    assert!(check_permission(ClientRole::ReadWrite, ClientRole::ReadOnly));
    assert!(check_permission(ClientRole::ReadWrite, ClientRole::ReadWrite));
    assert!(!check_permission(ClientRole::ReadWrite, ClientRole::Admin));

    assert!(check_permission(ClientRole::Admin, ClientRole::ReadOnly));
    assert!(check_permission(ClientRole::Admin, ClientRole::ReadWrite));
    assert!(check_permission(ClientRole::Admin, ClientRole::Admin));
}

#[test]
fn whoever_may_do_more_may_do_less() {
    let roles = [ClientRole::ReadOnly, ClientRole::ReadWrite, ClientRole::Admin];
    for high in 0..3 {
        for low in 0..=high {
            for required in roles {
                if check_permission(roles[low], required) {
                    assert!(check_permission(roles[high], required));
                }
            }
        }
    }
}
