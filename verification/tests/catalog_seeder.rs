use catalog_api::Product;
use catalog_api::ProductStore;
use catalog_api::SeedOutcome;
use catalog_api::catalog;
use catalog_api::seed_products;
use catalog_api::seed_with_catalog;

fn cats(pairs: &[(i32, &str)]) -> Vec<(i32, String)> {
    pairs.iter().map(|(i, n)| (*i, n.to_string())).collect()
}

#[test]
fn empty_category_list_skips_and_writes_nothing() {
    let mut store = ProductStore::new();
    let r = seed_products(&mut store, &cats(&[]));
    assert_eq!(r, SeedOutcome::Skipped);
    assert!(store.products.is_empty());
    assert_eq!(store.next_id, 1);
}

#[test]
fn seeding_twice_keeps_row_count_and_identifiers() {
    let mut store = ProductStore::new();
    let categories = cats(&[(1, "Eco"), (2, "Home")]);
    assert_eq!(seed_products(&mut store, &categories), SeedOutcome::Seeded);
    assert_eq!(store.products.len(), 8);
    let first: Vec<(i32, String)> =
        store.products.iter().map(|p| (p.id, p.name.clone())).collect();

    assert_eq!(seed_products(&mut store, &categories), SeedOutcome::Seeded);
    assert_eq!(store.products.len(), 8);
    let second: Vec<(i32, String)> =
        store.products.iter().map(|p| (p.id, p.name.clone())).collect();
    assert_eq!(first, second);
    assert_eq!(store.next_id, 9);
}

#[test]
fn round_robin_alternates_over_two_categories() {
    let mut store = ProductStore::new();
    let categories = cats(&[(10, "Eco"), (20, "Home")]);
    seed_products(&mut store, &categories);
    let assigned: Vec<i32> = store.products.iter().map(|p| p.category_id).collect();
    assert_eq!(assigned, vec![10, 20, 10, 20, 10, 20, 10, 20]);
}

#[test]
fn seeding_updates_existing_row_by_name_instead_of_duplicating() {
    let mut store = ProductStore::new();
    store.products.push(Product {
        id: 1,
        name: "Bamboo Toothbrush".to_string(),
        description: None,
        price_cents: 1,
        category_id: 99,
        stock: 0,
    });
    store.next_id = 2;
    seed_products(&mut store, &cats(&[(5, "Eco")]));
    assert_eq!(store.products.len(), 8);
    let row = store
        .products
        .iter()
        .find(|p| p.name == "Bamboo Toothbrush")
        .unwrap();
    assert_eq!(row.id, 1);
    assert_eq!(row.description.as_deref(), Some("Biodegradable handle, soft bristles"));
    assert_eq!(row.price_cents, 399);
    assert_eq!(row.category_id, 5);
    assert_eq!(row.stock, 250);
}

#[test]
fn single_category_scenario_assigns_all_eight_then_reprice_touches_one_row() {
    let mut store = ProductStore::new();
    let categories = cats(&[(1, "Eco")]);
    assert_eq!(seed_products(&mut store, &categories), SeedOutcome::Seeded);
    assert_eq!(store.products.len(), 8);
    assert!(store.products.iter().all(|p| p.category_id == 1));
    let before: Vec<(i32, String, Option<String>, u64, i32, u32)> = store
        .products
        .iter()
        .map(|p| {
            (p.id, p.name.clone(), p.description.clone(), p.price_cents, p.category_id, p.stock)
        })
        .collect();

    let mut changed = catalog();
    let target = changed.iter().position(|e| e.name == "Solar Power Bank").unwrap();
    changed[target].price_cents = 2490;
    assert_eq!(seed_with_catalog(&mut store, &categories, &changed), SeedOutcome::Seeded);

    assert_eq!(store.products.len(), 8);
    for (i, p) in store.products.iter().enumerate() {
        let (id, name, description, price, cat, stock) = &before[i];
        assert_eq!(p.id, *id);
        assert_eq!(&p.name, name);
        assert_eq!(&p.description, description);
        assert_eq!(p.category_id, *cat);
        assert_eq!(p.stock, *stock);
        if p.name == "Solar Power Bank" {
            assert_eq!(p.price_cents, 2490);
        } else {
            assert_eq!(p.price_cents, *price);
        }
    }
}

#[test]
fn catalog_has_eight_known_entries() {
    let entries = catalog();
    assert_eq!(entries.len(), 8);
    assert_eq!(entries[0].name, "Bamboo Toothbrush");
    assert_eq!(entries[0].description.as_deref(), Some("Biodegradable handle, soft bristles"));
    assert_eq!(entries[0].price_cents, 399);
    assert_eq!(entries[0].stock, 250);
    assert_eq!(entries[7].name, "LED Energy-Saving Bulb");
    assert_eq!(entries[7].price_cents, 475);
    let mut names: Vec<&str> = entries.iter().map(|e| e.name.as_str()).collect();
    names.sort();
    names.dedup();
    assert_eq!(names.len(), 8);
}

#[test]
fn fresh_seed_assigns_increasing_identifiers_from_one() {
    let mut store = ProductStore::new();
    seed_products(&mut store, &cats(&[(3, "Eco")]));
    let ids: Vec<i32> = store.products.iter().map(|p| p.id).collect();
    assert_eq!(ids, vec![1, 2, 3, 4, 5, 6, 7, 8]);
    assert_eq!(store.next_id, 9);
}
