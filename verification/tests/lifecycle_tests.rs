// Developer-initiated app updates and deactivations: ownership rules,
// validation, immutability of the fixed fields, and the difference
// between a developer's deactivation and an admin's rejection.

use varity_marketplace::registry::{AppRegistry, RegistryError, RegistryEvent};

const ADMIN: u64 = 10;
const DEV: u64 = 20;
const NOW: u64 = 1000;

fn registry_with_app(screenshots: Vec<&str>) -> (AppRegistry, u64) {
    let mut registry = AppRegistry::init(ADMIN);
    let app_id = registry
        .register_app(
            DEV,
            "Initial App".to_string(),
            "Initial description".to_string(),
            "DeFi".to_string(),
            42161,
            "https://logo.test".to_string(),
            "https://repo.test".to_string(),
            "https://initial-app.test".to_string(),
            screenshots.into_iter().map(str::to_string).collect(),
            true,
            NOW,
        )
        .unwrap();
    (registry, app_id)
}

// update_app: developer successfully updates their app; only the
// mutable fields change and the update event is emitted.
#[test]
fn test_update_app_success() {
    let (mut registry, app_id) = registry_with_app(vec![]);

    registry
        .update_app(
            DEV,
            app_id,
            "Updated app description".to_string(),
            "https://updated-app.com".to_string(),
            vec!["https://shot1.com".to_string(), "https://shot2.com".to_string()],
        )
        .unwrap();

    let app = registry.get_app(app_id).unwrap();
    assert_eq!(app.description, "Updated app description");
    assert_eq!(app.app_url, "https://updated-app.com");
    assert_eq!(registry.get_screenshot_count(app_id), 2);
    assert_eq!(app.name, "Initial App");
    assert_eq!(app.category, "DeFi");
    assert_eq!(app.chain_id, 42161);
    assert_eq!(
        registry.get_events().last(),
        Some(&RegistryEvent::AppUpdated { app_id })
    );
}

// update_app: only the developer may update; another account gets
// Unauthorized and the data stays unchanged.
#[test]
fn test_update_app_ownership_check() {
    let (mut registry, app_id) = registry_with_app(vec![]);
    let other_developer = DEV + 1;

    let result = registry.update_app(
        other_developer,
        app_id,
        "Hijacked".to_string(),
        "https://hijack.test".to_string(),
        vec![],
    );

    assert_eq!(result, Err(RegistryError::Unauthorized));
    assert_eq!(registry.get_app_developer(app_id), DEV);
    assert_eq!(registry.get_app(app_id).unwrap().description, "Initial description");
}

// update_app: even an admin cannot update an app it does not own.
#[test]
fn test_update_app_admin_cannot_update() {
    let (mut registry, app_id) = registry_with_app(vec![]);
    registry.approve_app(ADMIN, app_id).unwrap();

    let result = registry.update_app(
        ADMIN,
        app_id,
        "Admin edit".to_string(),
        "https://admin.test".to_string(),
        vec![],
    );

    assert_eq!(result, Err(RegistryError::Unauthorized));
}

// update_app: a non-existent app gives AppNotFound.
#[test]
fn test_update_app_not_found() {
    let mut registry = AppRegistry::init(ADMIN);

    let result = registry.update_app(
        DEV,
        999,
        "Does not matter".to_string(),
        "https://nowhere.test".to_string(),
        vec![],
    );

    assert_eq!(result, Err(RegistryError::AppNotFound));
}

// update_app: description must be non-empty and at most 1000 characters.
#[test]
fn test_update_app_description_validation() {
    let (mut registry, app_id) = registry_with_app(vec![]);
    let url = "https://app.test".to_string();

    assert_eq!(
        registry.update_app(DEV, app_id, "".to_string(), url.clone(), vec![]),
        Err(RegistryError::InvalidInput)
    );
    assert_eq!(
        registry.update_app(DEV, app_id, "a".repeat(1001), url.clone(), vec![]),
        Err(RegistryError::InvalidInput)
    );
    assert!(registry
        .update_app(DEV, app_id, "Valid description".to_string(), url.clone(), vec![])
        .is_ok());
    assert!(registry.update_app(DEV, app_id, "a".repeat(1000), url, vec![]).is_ok());
}

// update_app: the app URL must be non-empty.
#[test]
fn test_update_app_url_validation() {
    let (mut registry, app_id) = registry_with_app(vec![]);

    assert_eq!(
        registry.update_app(DEV, app_id, "Fine".to_string(), "".to_string(), vec![]),
        Err(RegistryError::InvalidInput)
    );
    assert!(registry
        .update_app(DEV, app_id, "Fine".to_string(), "https://example.com".to_string(), vec![])
        .is_ok());
}

// update_app: zero to five screenshots pass, six are refused.
#[test]
fn test_update_app_screenshot_validation() {
    let (mut registry, app_id) = registry_with_app(vec![]);
    let url = "https://app.test".to_string();
    let five: Vec<String> = (1..=5).map(|n| format!("url{}", n)).collect();
    let six: Vec<String> = (1..=6).map(|n| format!("url{}", n)).collect();

    assert!(registry.update_app(DEV, app_id, "Fine".to_string(), url.clone(), vec![]).is_ok());
    assert!(registry.update_app(DEV, app_id, "Fine".to_string(), url.clone(), five).is_ok());
    assert_eq!(
        registry.update_app(DEV, app_id, "Fine".to_string(), url, six),
        Err(RegistryError::InvalidInput)
    );
}

// update_app: the fixed fields cannot be reached by an update; the
// operation only accepts description, URL and screenshots.
#[test]
fn test_update_app_immutable_fields() {
    let (mut registry, app_id) = registry_with_app(vec![]);
    let before = registry.get_app(app_id).unwrap().clone();

    registry
        .update_app(
            DEV,
            app_id,
            "Rewritten".to_string(),
            "https://moved.test".to_string(),
            vec![],
        )
        .unwrap();

    let after = registry.get_app(app_id).unwrap();
    assert_eq!(after.name, before.name);
    assert_eq!(after.category, before.category);
    assert_eq!(after.chain_id, before.chain_id);
    assert_eq!(after.developer, before.developer);
    assert_eq!(after.created_at, before.created_at);
    assert_eq!(after.built_with_platform, before.built_with_platform);
    assert_eq!(after.logo_url, before.logo_url);
    assert_eq!(after.repo_url, before.repo_url);
    assert_eq!(after.status, before.status);
}

// update_app: updating an approved app keeps the approval and the app
// stays publicly listed.
#[test]
fn test_update_app_approved_app() {
    let (mut registry, app_id) = registry_with_app(vec![]);
    registry.approve_app(ADMIN, app_id).unwrap();

    registry
        .update_app(
            DEV,
            app_id,
            "Post-approval update".to_string(),
            "https://app.test".to_string(),
            vec![],
        )
        .unwrap();

    assert!(registry.is_app_approved(app_id));
    assert!(registry.get_all_apps().contains(&app_id));
}

// update_app: the screenshot list is overwritten whole; the count
// follows and indexing past it fails.
#[test]
fn test_update_app_screenshots_storage() {
    let (mut registry, app_id) = registry_with_app(vec!["a", "b", "c"]);
    assert_eq!(registry.get_screenshot_count(app_id), 3);

    registry
        .update_app(
            DEV,
            app_id,
            "Fine".to_string(),
            "https://app.test".to_string(),
            vec!["x".to_string(), "y".to_string()],
        )
        .unwrap();
    assert_eq!(registry.get_screenshot_count(app_id), 2);
    assert_eq!(registry.get_app_screenshot(app_id, 0), Ok("x".to_string()));
    assert_eq!(registry.get_app_screenshot(app_id, 1), Ok("y".to_string()));
    assert_eq!(
        registry.get_app_screenshot(app_id, 2),
        Err(RegistryError::IndexOutOfBounds)
    );

    registry
        .update_app(
            DEV,
            app_id,
            "Fine".to_string(),
            "https://app.test".to_string(),
            vec!["p", "q", "r", "s", "t"].into_iter().map(str::to_string).collect(),
        )
        .unwrap();
    assert_eq!(registry.get_screenshot_count(app_id), 5);
}

// deactivate_app: the developer takes their app down; only activity
// changes, the record stays queryable and the event is emitted.
#[test]
fn test_deactivate_app_success() {
    let (mut registry, app_id) = registry_with_app(vec![]);
    registry.approve_app(ADMIN, app_id).unwrap();
    assert!(registry.get_all_apps().contains(&app_id));

    registry.deactivate_app(DEV, app_id).unwrap();

    let app = registry.get_app(app_id).unwrap();
    assert!(!app.status.is_active());
    assert!(app.status.is_approved()); // preserved
    assert!(!registry.get_all_apps().contains(&app_id));
    assert_eq!(
        registry.get_events().last(),
        Some(&RegistryEvent::AppDeactivated { app_id })
    );
}

// deactivate_app: only the developer may deactivate.
#[test]
fn test_deactivate_app_ownership_check() {
    let (mut registry, app_id) = registry_with_app(vec![]);
    let other_developer = DEV + 1;

    assert_eq!(
        registry.deactivate_app(other_developer, app_id),
        Err(RegistryError::Unauthorized)
    );
    assert!(registry.get_app(app_id).unwrap().status.is_active());
}

// deactivate_app: even an admin cannot deactivate; rejection is the
// admin's tool.
#[test]
fn test_deactivate_app_admin_cannot_deactivate() {
    let (mut registry, app_id) = registry_with_app(vec![]);
    registry.approve_app(ADMIN, app_id).unwrap();

    assert_eq!(
        registry.deactivate_app(ADMIN, app_id),
        Err(RegistryError::Unauthorized)
    );
}

// deactivate_app: a non-existent app gives AppNotFound.
#[test]
fn test_deactivate_app_not_found() {
    let mut registry = AppRegistry::init(ADMIN);

    assert_eq!(registry.deactivate_app(DEV, 999), Err(RegistryError::AppNotFound));
}

// deactivate_app: every field but the activity is preserved.
#[test]
fn test_deactivate_app_preserves_data() {
    let (mut registry, app_id) = registry_with_app(vec!["a", "b"]);
    let before = registry.get_app(app_id).unwrap().clone();

    registry.deactivate_app(DEV, app_id).unwrap();

    let after = registry.get_app(app_id).unwrap();
    assert!(!after.status.is_active());
    assert_eq!(after.name, before.name);
    assert_eq!(after.description, before.description);
    assert_eq!(after.app_url, before.app_url);
    assert_eq!(after.category, before.category);
    assert_eq!(after.screenshots, before.screenshots);
    assert_eq!(after.developer, before.developer);
}

// deactivate_app: a deactivated app leaves the public listings but not
// its developer's listing.
#[test]
fn test_deactivate_app_listings_behavior() {
    let mut registry = AppRegistry::init(ADMIN);
    for n in 1..=3 {
        registry
            .register_app(
                DEV,
                format!("App {}", n),
                "A test application".to_string(),
                "DeFi".to_string(),
                42161,
                "https://logo.test".to_string(),
                "https://repo.test".to_string(),
                "https://app.test".to_string(),
                vec![],
                false,
                NOW,
            )
            .unwrap();
        registry.approve_app(ADMIN, n).unwrap();
    }
    assert_eq!(registry.get_apps_by_category(&"DeFi".to_string()), vec![1, 2, 3]);

    registry.deactivate_app(DEV, 2).unwrap();

    assert_eq!(registry.get_all_apps(), vec![1, 3]);
    assert_eq!(registry.get_apps_by_category(&"DeFi".to_string()), vec![1, 3]);
    assert_eq!(registry.get_apps_by_chain(42161), vec![1, 3]);
    assert_eq!(registry.get_apps_by_developer(DEV), vec![1, 2, 3]);
    assert!(registry.get_app(2).is_some());
}

// deactivate_app: deactivating twice succeeds both times and re-emits
// the event; the app stays inactive.
#[test]
fn test_deactivate_app_idempotent() {
    let (mut registry, app_id) = registry_with_app(vec![]);

    assert!(registry.deactivate_app(DEV, app_id).is_ok());
    assert!(!registry.get_app(app_id).unwrap().status.is_active());

    let events_before = registry.get_events().len();
    assert!(registry.deactivate_app(DEV, app_id).is_ok());
    assert!(!registry.get_app(app_id).unwrap().status.is_active());
    assert_eq!(registry.get_events().len(), events_before + 1);
}

// The deliberate asymmetry: a developer's deactivation keeps approval,
// an admin's rejection revokes activity and approval together.
#[test]
fn test_deactivate_vs_reject_comparison() {
    let mut registry = AppRegistry::init(ADMIN);
    let deactivated = registry
        .register_app(
            DEV,
            "Deactivated App".to_string(),
            "A test application".to_string(),
            "DeFi".to_string(),
            1,
            "https://logo.test".to_string(),
            "https://repo.test".to_string(),
            "https://app.test".to_string(),
            vec![],
            false,
            NOW,
        )
        .unwrap();
    let rejected = registry
        .register_app(
            DEV,
            "Rejected App".to_string(),
            "A test application".to_string(),
            "DeFi".to_string(),
            1,
            "https://logo.test".to_string(),
            "https://repo.test".to_string(),
            "https://app.test".to_string(),
            vec![],
            false,
            NOW,
        )
        .unwrap();
    registry.approve_app(ADMIN, deactivated).unwrap();
    registry.approve_app(ADMIN, rejected).unwrap();

    registry.deactivate_app(DEV, deactivated).unwrap();
    registry
        .reject_app(ADMIN, rejected, "policy violation".to_string())
        .unwrap();

    let after_deactivation = registry.get_app(deactivated).unwrap();
    assert!(!after_deactivation.status.is_active());
    assert!(after_deactivation.status.is_approved());

    let after_rejection = registry.get_app(rejected).unwrap();
    assert!(!after_rejection.status.is_active());
    assert!(!after_rejection.status.is_approved());
}

// Full developer workflow: register, approval, update, deactivate.
#[test]
fn test_developer_lifecycle_workflow() {
    let (mut registry, app_id) = registry_with_app(vec![]);
    {
        let app = registry.get_app(app_id).unwrap();
        assert!(app.status.is_active() && !app.status.is_approved());
    }

    registry.approve_app(ADMIN, app_id).unwrap();
    {
        let app = registry.get_app(app_id).unwrap();
        assert!(app.status.is_active() && app.status.is_approved());
    }

    registry
        .update_app(
            DEV,
            app_id,
            "Refreshed description".to_string(),
            "https://app.test".to_string(),
            vec![],
        )
        .unwrap();
    assert!(registry.is_app_approved(app_id));

    registry.deactivate_app(DEV, app_id).unwrap();
    let app = registry.get_app(app_id).unwrap();
    assert!(!app.status.is_active());
    assert!(app.status.is_approved());
    assert!(!registry.get_all_apps().contains(&app_id));
}

// Multiple updates are unlimited and independent; approval persists.
#[test]
fn test_multiple_updates_workflow() {
    let (mut registry, app_id) = registry_with_app(vec![]);

    registry
        .update_app(
            DEV,
            app_id,
            "First rewrite".to_string(),
            "https://app.test".to_string(),
            vec![],
        )
        .unwrap();
    registry.approve_app(ADMIN, app_id).unwrap();
    registry
        .update_app(
            DEV,
            app_id,
            "First rewrite".to_string(),
            "https://app.test".to_string(),
            vec!["s1".to_string()],
        )
        .unwrap();
    registry
        .update_app(
            DEV,
            app_id,
            "First rewrite".to_string(),
            "https://final.test".to_string(),
            vec!["s1".to_string()],
        )
        .unwrap();

    assert!(registry.is_app_approved(app_id));
    let app = registry.get_app(app_id).unwrap();
    assert_eq!(app.app_url, "https://final.test");
    assert_eq!(app.screenshots, vec!["s1".to_string()]);
}

// Updated data survives a later deactivation.
#[test]
fn test_update_then_deactivate_workflow() {
    let (mut registry, app_id) = registry_with_app(vec![]);
    registry.approve_app(ADMIN, app_id).unwrap();

    registry
        .update_app(
            DEV,
            app_id,
            "Final words".to_string(),
            "https://app.test".to_string(),
            vec![],
        )
        .unwrap();
    registry.deactivate_app(DEV, app_id).unwrap();

    let app = registry.get_app(app_id).unwrap();
    assert!(!app.status.is_active());
    assert_eq!(app.description, "Final words");
    assert!(app.status.is_approved());
}
