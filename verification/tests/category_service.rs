use catalog_api::AppError;
use catalog_api::CategoryStore;
use catalog_api::Identity;
use catalog_api::UserProfile;
use catalog_api::UserStore;
use catalog_api::create_category;
use catalog_api::delete_category;
use catalog_api::get_category;
use catalog_api::get_user;
use catalog_api::list_categories;
use catalog_api::update_category;

fn admin() -> Identity {
    Identity { id: 1, role: "admin".to_string() }
}

fn member() -> Identity {
    Identity { id: 2, role: "user".to_string() }
}

#[test]
fn list_orders_by_id_descending() {
    let mut store = CategoryStore::new();
    let a = admin();
    create_category(&mut store, Some(&a), "Garden".to_string(), None).unwrap();
    create_category(&mut store, Some(&a), "Kitchen".to_string(), None).unwrap();
    create_category(&mut store, Some(&a), "Bath".to_string(), None).unwrap();
    let listed = list_categories(&store);
    let ids: Vec<i32> = listed.iter().map(|d| d.id.unwrap()).collect();
    assert_eq!(ids, vec![3, 2, 1]);
    let names: Vec<&str> = listed.iter().map(|d| d.name.as_str()).collect();
    assert_eq!(names, vec!["Bath", "Kitchen", "Garden"]);
}

#[test]
fn list_empty_store_yields_empty_sequence() {
    let store = CategoryStore::new();
    assert!(list_categories(&store).is_empty());
}

#[test]
fn create_then_get_returns_same_fields() {
    let mut store = CategoryStore::new();
    let a = admin();
    let created = create_category(
        &mut store,
        Some(&a),
        "Eco".to_string(),
        Some("sustainable goods".to_string()),
    )
    .unwrap();
    let id = created.id.unwrap();
    let fetched = get_category(&store, id).unwrap();
    assert_eq!(fetched.id, Some(id));
    assert_eq!(fetched.name, "Eco");
    assert_eq!(fetched.description.as_deref(), Some("sustainable goods"));
}

#[test]
fn get_missing_is_not_found() {
    let store = CategoryStore::new();
    assert!(matches!(get_category(&store, 7), Err(AppError::NotFound)));
}

#[test]
fn update_with_only_name_keeps_description() {
    let mut store = CategoryStore::new();
    let a = admin();
    let created = create_category(
        &mut store,
        Some(&a),
        "Eco".to_string(),
        Some("green things".to_string()),
    )
    .unwrap();
    let id = created.id.unwrap();
    let updated =
        update_category(&mut store, Some(&a), id, Some("Ecology".to_string()), None).unwrap();
    assert_eq!(updated.name, "Ecology");
    assert_eq!(updated.description.as_deref(), Some("green things"));
    let fetched = get_category(&store, id).unwrap();
    assert_eq!(fetched.name, "Ecology");
    assert_eq!(fetched.description.as_deref(), Some("green things"));
}

#[test]
fn update_with_only_description_keeps_name() {
    let mut store = CategoryStore::new();
    let a = admin();
    let created = create_category(&mut store, Some(&a), "Eco".to_string(), None).unwrap();
    let id = created.id.unwrap();
    let updated =
        update_category(&mut store, Some(&a), id, None, Some("all things green".to_string()))
            .unwrap();
    assert_eq!(updated.name, "Eco");
    assert_eq!(updated.description.as_deref(), Some("all things green"));
    assert_eq!(updated.id, Some(id));
}

#[test]
fn update_missing_is_not_found_not_a_no_op() {
    let mut store = CategoryStore::new();
    let a = admin();
    let r = update_category(&mut store, Some(&a), 42, Some("X".to_string()), None);
    assert!(matches!(r, Err(AppError::NotFound)));
    assert!(list_categories(&store).is_empty());
}

#[test]
fn delete_missing_is_not_found_not_a_no_op() {
    let mut store = CategoryStore::new();
    let a = admin();
    let r = delete_category(&mut store, Some(&a), 42);
    assert!(matches!(r, Err(AppError::NotFound)));
}

#[test]
fn delete_removes_the_row() {
    let mut store = CategoryStore::new();
    let a = admin();
    let created = create_category(&mut store, Some(&a), "Eco".to_string(), None).unwrap();
    let id = created.id.unwrap();
    assert_eq!(delete_category(&mut store, Some(&a), id), Ok(true));
    assert!(matches!(get_category(&store, id), Err(AppError::NotFound)));
    assert!(list_categories(&store).is_empty());
}

#[test]
fn non_admin_mutations_are_forbidden_and_write_nothing() {
    let mut store = CategoryStore::new();
    let a = admin();
    let m = member();
    let created = create_category(&mut store, Some(&a), "Eco".to_string(), None).unwrap();
    let id = created.id.unwrap();

    let r = create_category(&mut store, Some(&m), "Sly".to_string(), None);
    assert!(matches!(r, Err(AppError::Forbidden)));
    let r = update_category(&mut store, Some(&m), id, Some("Sly".to_string()), None);
    assert!(matches!(r, Err(AppError::Forbidden)));
    let r = delete_category(&mut store, Some(&m), id);
    assert!(matches!(r, Err(AppError::Forbidden)));

    let listed = list_categories(&store);
    assert_eq!(listed.len(), 1);
    assert_eq!(listed[0].name, "Eco");
}

#[test]
fn missing_identity_is_unauthenticated() {
    let mut store = CategoryStore::new();
    let r = create_category(&mut store, None, "Eco".to_string(), None);
    assert!(matches!(r, Err(AppError::Unauthenticated)));
    let r = update_category(&mut store, None, 1, Some("X".to_string()), None);
    assert!(matches!(r, Err(AppError::Unauthenticated)));
    let r = delete_category(&mut store, None, 1);
    assert!(matches!(r, Err(AppError::Unauthenticated)));
    assert!(list_categories(&store).is_empty());
}

#[test]
fn error_kinds_map_to_status_codes() {
    assert_eq!(AppError::NotFound.status_code(), 404);
    assert_eq!(AppError::Forbidden.status_code(), 403);
    assert_eq!(AppError::Unauthenticated.status_code(), 401);
    assert_eq!(AppError::Internal.status_code(), 500);
}

#[test]
fn get_user_returns_full_profile() {
    let store = UserStore {
        users: vec![
            UserProfile {
                id: 7,
                username: "ada".to_string(),
                email: "ada@example.com".to_string(),
                role: "admin".to_string(),
                created_at: 1_700_000_000,
            },
            UserProfile {
                id: 9,
                username: "bo".to_string(),
                email: "bo@example.com".to_string(),
                role: "user".to_string(),
                created_at: 1_700_000_100,
            },
        ],
    };
    let u = get_user(&store, 9).unwrap();
    assert_eq!(u.id, 9);
    assert_eq!(u.username, "bo");
    assert_eq!(u.email, "bo@example.com");
    assert_eq!(u.role, "user");
    assert_eq!(u.created_at, 1_700_000_100);
}

#[test]
fn get_user_missing_is_not_found() {
    let store = UserStore { users: vec![] };
    assert!(matches!(get_user(&store, 1), Err(AppError::NotFound)));
}
