// Registry scenarios: registration validation, the pending queue,
// featured-list curation, admin-set management and the event log.

use varity_marketplace::registry::{AppRegistry, RegistryError, RegistryEvent};

const ADMIN: u64 = 10;
const DEV: u64 = 20;
const NOW: u64 = 1000;

fn new_registry() -> AppRegistry {
    AppRegistry::init(ADMIN)
}

fn register_simple(r: &mut AppRegistry, developer: u64, name: &str) -> u64 {
    r.register_app(
        developer,
        name.to_string(),
        "A test application".to_string(),
        "Utility".to_string(),
        1,
        "https://logo.test".to_string(),
        "https://repo.test".to_string(),
        "https://app.test".to_string(),
        vec![],
        false,
        NOW,
    )
    .unwrap()
}

#[test]
fn test_register_validation_errors() {
    let mut registry = new_registry();

    // A failed field check is a generic invalid-input error.
    let result = registry.register_app(
        DEV,
        "".to_string(),
        "Description".to_string(),
        "DeFi".to_string(),
        1,
        "https://logo.test".to_string(),
        "https://repo.test".to_string(),
        "https://app.test".to_string(),
        vec![],
        false,
        NOW,
    );
    assert_eq!(result, Err(RegistryError::InvalidInput));

    // An unrecognized category is a distinguishable error.
    let result = registry.register_app(
        DEV,
        "Good Name".to_string(),
        "Description".to_string(),
        "Unknown".to_string(),
        1,
        "https://logo.test".to_string(),
        "https://repo.test".to_string(),
        "https://app.test".to_string(),
        vec![],
        false,
        NOW,
    );
    assert_eq!(result, Err(RegistryError::InvalidCategory));

    // A refused registration left nothing behind.
    assert_eq!(registry.get_app_count(), 0);
    assert_eq!(registry.get_pending_count(), 0);
}

#[test]
fn test_pending_queue_access() {
    let mut registry = new_registry();
    register_simple(&mut registry, DEV, "App 1");
    register_simple(&mut registry, DEV, "App 2");

    assert_eq!(registry.get_pending_count(), 2);
    let first = registry.get_pending_app(0).unwrap();
    let second = registry.get_pending_app(1).unwrap();
    assert!(first == 1 && second == 2 || first == 2 && second == 1);
    assert_eq!(registry.get_pending_app(2), Err(RegistryError::AppNotFound));
}

#[test]
fn test_approve_removes_from_pending() {
    let mut registry = new_registry();
    register_simple(&mut registry, DEV, "App 1");
    register_simple(&mut registry, DEV, "App 2");
    register_simple(&mut registry, DEV, "App 3");

    registry.approve_app(ADMIN, 2).unwrap();

    assert_eq!(registry.get_pending_count(), 2);
    let mut remaining = vec![
        registry.get_pending_app(0).unwrap(),
        registry.get_pending_app(1).unwrap(),
    ];
    remaining.sort();
    assert_eq!(remaining, vec![1, 3]);
}

#[test]
fn test_reject_removes_from_pending() {
    let mut registry = new_registry();
    register_simple(&mut registry, DEV, "App 1");

    registry.reject_app(ADMIN, 1, "spam".to_string()).unwrap();

    assert_eq!(registry.get_pending_count(), 0);
    // Rejection is re-playable: no "already rejected" error.
    assert!(registry.reject_app(ADMIN, 1, "still spam".to_string()).is_ok());
}

#[test]
fn test_reject_requires_existing_app() {
    let mut registry = new_registry();

    assert_eq!(
        registry.reject_app(ADMIN, 9, "ghost".to_string()),
        Err(RegistryError::AppNotFound)
    );
}

#[test]
fn test_approve_rejected_app_leaves_it_inactive() {
    let mut registry = new_registry();
    register_simple(&mut registry, DEV, "App 1");
    registry.reject_app(ADMIN, 1, "spam".to_string()).unwrap();

    // A rejected app is unapproved, so approval is accepted again, but
    // the rejection's deactivation is not undone by it.
    registry.approve_app(ADMIN, 1).unwrap();

    let app = registry.get_app(1).unwrap();
    assert!(app.status.is_approved());
    assert!(!app.status.is_active());
    assert!(!registry.get_all_apps().contains(&1));
}

#[test]
fn test_unfeature_app() {
    let mut registry = new_registry();
    register_simple(&mut registry, DEV, "App 1");
    registry.approve_app(ADMIN, 1).unwrap();
    registry.feature_app(ADMIN, 1).unwrap();
    assert_eq!(registry.get_featured_count(), 1);

    assert_eq!(
        registry.unfeature_app(DEV, 1),
        Err(RegistryError::Unauthorized)
    );

    registry.unfeature_app(ADMIN, 1).unwrap();
    assert_eq!(registry.get_featured_count(), 0);
}

#[test]
fn test_feature_is_idempotent_add() {
    let mut registry = new_registry();
    register_simple(&mut registry, DEV, "App 1");
    registry.approve_app(ADMIN, 1).unwrap();

    registry.feature_app(ADMIN, 1).unwrap();
    registry.feature_app(ADMIN, 1).unwrap();

    assert_eq!(registry.get_featured_count(), 1);
}

#[test]
fn test_admin_set_management() {
    let mut registry = new_registry();
    let second_admin = 11;

    registry.add_admin(ADMIN, second_admin).unwrap();
    assert!(registry.is_admin(second_admin));

    // The new member has full rights.
    register_simple(&mut registry, DEV, "App 1");
    assert!(registry.approve_app(second_admin, 1).is_ok());

    // A removed member loses them.
    registry.remove_admin(second_admin, ADMIN).unwrap();
    assert!(!registry.is_admin(ADMIN));
    register_simple(&mut registry, DEV, "App 2");
    assert_eq!(registry.approve_app(ADMIN, 2), Err(RegistryError::Unauthorized));
}

#[test]
fn test_non_admin_cannot_manage() {
    let mut registry = new_registry();
    let outsider = 99;
    register_simple(&mut registry, DEV, "App 1");
    registry.approve_app(ADMIN, 1).unwrap();

    assert_eq!(
        registry.reject_app(outsider, 1, "no".to_string()),
        Err(RegistryError::Unauthorized)
    );
    assert_eq!(registry.feature_app(outsider, 1), Err(RegistryError::Unauthorized));
    assert_eq!(registry.unfeature_app(outsider, 1), Err(RegistryError::Unauthorized));
    assert_eq!(registry.add_admin(outsider, outsider), Err(RegistryError::Unauthorized));
    assert_eq!(registry.remove_admin(outsider, ADMIN), Err(RegistryError::Unauthorized));
}

#[test]
fn test_screenshot_bounds_exact() {
    let mut registry = new_registry();
    let app_id = registry
        .register_app(
            DEV,
            "Shots".to_string(),
            "A test application".to_string(),
            "Gaming".to_string(),
            1,
            "https://logo.test".to_string(),
            "https://repo.test".to_string(),
            "https://app.test".to_string(),
            vec!["s0".to_string(), "s1".to_string(), "s2".to_string()],
            false,
            NOW,
        )
        .unwrap();

    assert_eq!(registry.get_app_screenshot(app_id, 0), Ok("s0".to_string()));
    assert_eq!(registry.get_app_screenshot(app_id, 1), Ok("s1".to_string()));
    assert_eq!(registry.get_app_screenshot(app_id, 2), Ok("s2".to_string()));
    assert_eq!(
        registry.get_app_screenshot(app_id, 3),
        Err(RegistryError::IndexOutOfBounds)
    );
    assert_eq!(
        registry.get_app_screenshot(app_id + 1, 0),
        Err(RegistryError::AppNotFound)
    );
}

#[test]
fn test_registry_events_follow_commits() {
    let mut registry = new_registry();
    assert_eq!(
        registry.get_events().as_slice(),
        &[RegistryEvent::AdminAdded { admin: ADMIN }]
    );

    register_simple(&mut registry, DEV, "App 1");
    assert_eq!(
        registry.get_events().last(),
        Some(&RegistryEvent::AppRegistered { app_id: 1, developer: DEV, name: "App 1".to_string() })
    );

    // A refused operation leaves no event behind.
    let events = registry.get_events().len();
    let _ = registry.approve_app(DEV, 1);
    assert_eq!(registry.get_events().len(), events);

    registry.approve_app(ADMIN, 1).unwrap();
    assert_eq!(
        registry.get_events().last(),
        Some(&RegistryEvent::AppApproved { app_id: 1, approver: ADMIN })
    );

    registry.reject_app(ADMIN, 1, "turned bad".to_string()).unwrap();
    assert_eq!(
        registry.get_events().last(),
        Some(&RegistryEvent::AppRejected {
            app_id: 1,
            approver: ADMIN,
            reason: "turned bad".to_string()
        })
    );
}

#[test]
fn test_get_app_name_and_approval_defaults() {
    let mut registry = new_registry();
    register_simple(&mut registry, DEV, "Named");

    assert_eq!(registry.get_app_name(1), "Named".to_string());
    assert_eq!(registry.get_app_name(2), String::new());
    assert!(!registry.is_app_approved(1));
    assert!(!registry.is_app_approved(2));

    registry.approve_app(ADMIN, 1).unwrap();
    assert!(registry.is_app_approved(1));
}

#[test]
fn test_listings_are_ascending() {
    let mut registry = new_registry();
    for n in 1..=5 {
        register_simple(&mut registry, DEV, &format!("App {}", n));
    }
    for id in [5, 3, 1, 4, 2] {
        registry.approve_app(ADMIN, id).unwrap();
    }

    // Whatever order approvals came in, listings scan by identifier.
    assert_eq!(registry.get_all_apps(), vec![1, 2, 3, 4, 5]);
    assert_eq!(registry.get_apps_by_developer(DEV), vec![1, 2, 3, 4, 5]);
}
