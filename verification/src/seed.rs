//! The catalog seeder: an idempotent upsert of a fixed product catalog,
//! keyed by product name, with categories assigned round-robin.

use vstd::prelude::*;
use vstd::pervasive::VecAdditionalExecFns;
use crate::categories::clone_opt_text;

verus! {

/// The mathematical shape of one product row.
#[verifier::ext_equal]
pub struct ProductModel {
    pub id: int,
    pub name: Seq<char>,
    pub description: Option<Seq<char>>,
    pub price_cents: int,
    pub category_id: int,
    pub stock: int,
}

/// One product row as stored: an assigned identifier, the name that is its
/// natural key, an optional description, the price in cents, the category it
/// references and the stocked quantity.
pub struct Product {
    pub id: i32,
    pub name: String,
    pub description: Option<String>,
    pub price_cents: u64,
    pub category_id: i32,
    pub stock: u32,
}

impl View for Product {
    type V = ProductModel;

    open spec fn view(&self) -> ProductModel {
        ProductModel {
            id: self.id as int,
            name: self.name@,
            description: self.description.deep_view(),
            price_cents: self.price_cents as int,
            category_id: self.category_id as int,
            stock: self.stock as int,
        }
    }
}

impl DeepView for Product {
    type V = ProductModel;

    open spec fn deep_view(&self) -> ProductModel {
        self.view()
    }
}

/// The mathematical shape of one catalog entry.
#[verifier::ext_equal]
pub struct CatalogEntryModel {
    pub name: Seq<char>,
    pub description: Option<Seq<char>>,
    pub price_cents: int,
    pub stock: int,
}

/// One entry of the catalog to seed: the fields a product row takes from it.
pub struct CatalogEntry {
    pub name: String,
    pub description: Option<String>,
    pub price_cents: u64,
    pub stock: u32,
}

impl View for CatalogEntry {
    type V = CatalogEntryModel;

    open spec fn view(&self) -> CatalogEntryModel {
        CatalogEntryModel {
            name: self.name@,
            description: self.description.deep_view(),
            price_cents: self.price_cents as int,
            stock: self.stock as int,
        }
    }
}

impl DeepView for CatalogEntry {
    type V = CatalogEntryModel;

    open spec fn deep_view(&self) -> CatalogEntryModel {
        self.view()
    }
}

/// The product table and the identifier the store will assign next.
pub struct ProductStore {
    pub products: Vec<Product>,
    pub next_id: i32,
}

impl View for ProductStore {
    type V = Seq<ProductModel>;

    open spec fn view(&self) -> Seq<ProductModel> {
        self.products.deep_view()
    }
}

/// The product table's invariant: identifiers are at least 1 and below the
/// next one to assign, and names are unique — the store enforces the
/// uniqueness the seeder's upsert relies on.
pub open spec fn products_wf(rows: Seq<ProductModel>, next: int) -> bool {
    &&& 1 <= next
    &&& forall|i: int| 0 <= i < rows.len() ==> 1 <= (#[trigger] rows[i]).id < next
    &&& forall|i: int, j: int|
        0 <= i < j < rows.len() ==> (#[trigger] rows[i]).name != (#[trigger] rows[j]).name
}

impl ProductStore {
    /// The identifier the store will assign to the next inserted row.
    pub open spec fn next(&self) -> int {
        self.next_id as int
    }

    /// The store's invariant.
    pub open spec fn wf(&self) -> bool {
        products_wf(self@, self.next())
    }

    /// An empty store whose first assigned identifier will be 1.
    pub fn new() -> (s: ProductStore)
        ensures
            s.wf(),
            s@ == Seq::<ProductModel>::empty(),
            s.next() == 1,
    {
        let s = ProductStore { products: Vec::new(), next_id: 1 };
        proof {
            assert(s@ =~= Seq::<ProductModel>::empty());
        }
        s
    }
}

/// The index of the first product row carrying the given name, if any.
pub open spec fn find_product(s: Seq<ProductModel>, name: Seq<char>) -> Option<int>
    decreases s.len(),
{
    if s.len() == 0 {
        None
    } else if s[0].name == name {
        Some(0)
    } else {
        match find_product(s.drop_first(), name) {
            Some(i) => Some(i + 1),
            None => None,
        }
    }
}

/// A row whose prefix holds no row with its name is the one found.
proof fn lemma_find_product_first(s: Seq<ProductModel>, name: Seq<char>, j: int)
    requires
        0 <= j < s.len(),
        s[j].name == name,
        forall|k: int| 0 <= k < j ==> (#[trigger] s[k]).name != name,
    ensures
        find_product(s, name) == Some(j),
    decreases s.len(),
{
    if j == 0 {
    } else {
        assert(s[0].name != name);
        assert forall|k: int| 0 <= k < j - 1 implies (#[trigger] s.drop_first()[k]).name
            != name by {
            assert(s.drop_first()[k] == s[k + 1]);
        }
        assert(s.drop_first()[j - 1] == s[j]);
        lemma_find_product_first(s.drop_first(), name, j - 1);
    }
}

/// What a found index means: it is in range and its row carries the name.
pub proof fn lemma_find_product_some(s: Seq<ProductModel>, name: Seq<char>)
    ensures
        find_product(s, name) matches Some(j) ==> 0 <= j < s.len() && s[j].name == name,
    decreases s.len(),
{
    if s.len() > 0 && s[0].name != name {
        lemma_find_product_some(s.drop_first(), name);
        if find_product(s.drop_first(), name) is Some {
            let j = find_product(s.drop_first(), name)->Some_0;
            assert(s.drop_first()[j] == s[j + 1]);
        }
    }
}

/// When nothing is found, no row carries the name.
pub proof fn lemma_find_product_none_all(s: Seq<ProductModel>, name: Seq<char>)
    requires
        find_product(s, name) is None,
    ensures
        forall|k: int| 0 <= k < s.len() ==> (#[trigger] s[k]).name != name,
    decreases s.len(),
{
    if s.len() > 0 {
        lemma_find_product_none_all(s.drop_first(), name);
        assert forall|k: int| 0 <= k < s.len() implies (#[trigger] s[k]).name != name by {
            if k > 0 {
                assert(s.drop_first()[k - 1] == s[k]);
            }
        }
    }
}

/// The index of the first product row carrying the given name, if any.
fn find_product_index(products: &Vec<Product>, name: &String) -> (r: Option<usize>)
    ensures
        match r {
            Some(j) => j < products@.len() && find_product(products.deep_view(), name@) == Some(
                j as int,
            ),
            None => find_product(products.deep_view(), name@) is None,
        },
{
    let ghost s = products.deep_view();
    let mut i: usize = 0;
    while i < products.len()
        invariant
            0 <= i <= products@.len(),
            s == products.deep_view(),
            forall|k: int| 0 <= k < i ==> (#[trigger] s[k]).name != name@,
        decreases products@.len() - i,
    {
        if products[i].name == *name {
            proof {
                lemma_find_product_first(s, name@, i as int);
            }
            return Some(i);
        }
        i = i + 1;
    }
    proof {
        lemma_find_product_none(s, name@);
    }
    None
}

/// If no row carries the name, nothing is found.
proof fn lemma_find_product_none(s: Seq<ProductModel>, name: Seq<char>)
    requires
        forall|k: int| 0 <= k < s.len() ==> (#[trigger] s[k]).name != name,
    ensures
        find_product(s, name) is None,
    decreases s.len(),
{
    if s.len() > 0 {
        assert forall|k: int| 0 <= k < s.drop_first().len() implies (#[trigger] s.drop_first()[
            k
        ]).name != name by {
            assert(s.drop_first()[k] == s[k + 1]);
        }
        lemma_find_product_none(s.drop_first(), name);
    }
}

/// The category identifiers of a category list, as the seeder reads them.
pub open spec fn cat_ids(cs: Seq<(i32, String)>) -> Seq<int> {
    cs.map_values(|c: (i32, String)| c.0 as int)
}

/// One upsert step: if a row with the entry's name exists, its description,
/// price, category and stock are replaced in place and its identifier and
/// name are kept; otherwise a new row is appended under the next identifier.
pub open spec fn seed_step(
    rows: Seq<ProductModel>,
    next: int,
    e: CatalogEntryModel,
    cat_id: int,
) -> (Seq<ProductModel>, int) {
    match find_product(rows, e.name) {
        Some(j) => (
            rows.update(
                j,
                ProductModel {
                    id: rows[j].id,
                    name: rows[j].name,
                    description: e.description,
                    price_cents: e.price_cents,
                    category_id: cat_id,
                    stock: e.stock,
                },
            ),
            next,
        ),
        None => (
            rows.push(
                ProductModel {
                    id: next,
                    name: e.name,
                    description: e.description,
                    price_cents: e.price_cents,
                    category_id: cat_id,
                    stock: e.stock,
                },
            ),
            next + 1,
        ),
    }
}

/// The store after seeding the first `k` catalog entries, each assigned its
/// category round-robin by entry index.
pub open spec fn seed_prefix(
    rows: Seq<ProductModel>,
    next: int,
    cat: Seq<CatalogEntryModel>,
    cats: Seq<int>,
    k: int,
) -> (Seq<ProductModel>, int)
    decreases k,
{
    if k <= 0 {
        (rows, next)
    } else {
        let prev = seed_prefix(rows, next, cat, cats, k - 1);
        seed_step(prev.0, prev.1, cat[k - 1], cats[(k - 1) % (cats.len() as int)])
    }
}

/// What a run of the seeder reports: rows were written, or the run was
/// skipped because no category was supplied.
#[derive(Clone, Copy, Debug, PartialEq, Eq, Structural)]
pub enum SeedOutcome {
    Seeded,
    Skipped,
}

/// Upsert every entry of the given catalog into the store, assigning entry
/// `i` the category at index `i` modulo the category count. An empty
/// category list performs no write and reports a skipped outcome.
pub fn seed_with_catalog(
    store: &mut ProductStore,
    categories: &Vec<(i32, String)>,
    catalog: &Vec<CatalogEntry>,
) -> (r: SeedOutcome)
    requires
        old(store).wf(),
        old(store).next() + catalog@.len() <= i32::MAX as int,
    ensures
        final(store).wf(),
        categories@.len() == 0 ==> r == SeedOutcome::Skipped && *final(store) == *old(store),
        categories@.len() > 0 ==> {
            let result = seed_prefix(
                old(store)@,
                old(store).next(),
                catalog.deep_view(),
                cat_ids(categories@),
                catalog@.len() as int,
            );
            &&& r == SeedOutcome::Seeded
            &&& final(store)@ == result.0
            &&& final(store).next() == result.1
        },
{
    if categories.is_empty() {
        return SeedOutcome::Skipped;
    }
    let ghost catv = catalog.deep_view();
    let ghost cats = cat_ids(categories@);
    proof {
        assert(cats.len() == categories@.len());
    }
    let mut i: usize = 0;
    while i < catalog.len()
        invariant
            0 <= i <= catalog@.len(),
            catv == catalog.deep_view(),
            cats == cat_ids(categories@),
            cats.len() == categories@.len(),
            categories@.len() > 0,
            old(store).wf(),
            old(store).next() + catalog@.len() <= i32::MAX as int,
            store.wf(),
            store.next() <= old(store).next() + i,
            store@ == seed_prefix(old(store)@, old(store).next(), catv, cats, i as int).0,
            store.next() == seed_prefix(old(store)@, old(store).next(), catv, cats, i as int).1,
        decreases catalog@.len() - i,
    {
        let cid_idx = i % categories.len();
        let cid = categories[cid_idx].0;
        proof {
            assert(cats[i as int % (cats.len() as int)] == categories@[i as int % (
            cats.len() as int)].0 as int);
        }
        let e = &catalog[i];
        let ghost prev_rows = store@;
        let ghost prev_next = store.next();
        match find_product_index(&store.products, &e.name) {
            Some(j) => {
                proof {
                    lemma_find_product_some(prev_rows, e@.name);
                }
                let pid = store.products[j].id;
                let kept_name = store.products[j].name.clone();
                let new_row = Product {
                    id: pid,
                    name: kept_name,
                    description: clone_opt_text(&e.description),
                    price_cents: e.price_cents,
                    category_id: cid,
                    stock: e.stock,
                };
                store.products.set(j, new_row);
                proof {
                    let stepped = seed_step(prev_rows, prev_next, catv[i as int], cats[i as int % (
                    cats.len() as int)]);
                    assert(store@ =~= stepped.0);
                    assert forall|a: int| 0 <= a < store@.len() implies 1 <= (
                    #[trigger] store@[a]).id < store.next() by {
                        if a != j as int {
                            assert(store@[a] == prev_rows[a]);
                        }
                    }
                    assert forall|a: int, b: int| 0 <= a < b < store@.len() implies (
                    #[trigger] store@[a]).name != (#[trigger] store@[b]).name by {
                        assert(store@[a].name == prev_rows[a].name);
                        assert(store@[b].name == prev_rows[b].name);
                    }
                }
            },
            None => {
                let new_row = Product {
                    id: store.next_id,
                    name: e.name.clone(),
                    description: clone_opt_text(&e.description),
                    price_cents: e.price_cents,
                    category_id: cid,
                    stock: e.stock,
                };
                store.products.push(new_row);
                store.next_id = store.next_id + 1;
                proof {
                    lemma_find_product_none_all(prev_rows, e@.name);
                    let stepped = seed_step(prev_rows, prev_next, catv[i as int], cats[i as int % (
                    cats.len() as int)]);
                    assert(store@ =~= stepped.0);
                    assert forall|a: int| 0 <= a < store@.len() implies 1 <= (
                    #[trigger] store@[a]).id < store.next() by {
                        if a < store@.len() - 1 {
                            assert(store@[a] == prev_rows[a]);
                        }
                    }
                    assert forall|a: int, b: int| 0 <= a < b < store@.len() implies (
                    #[trigger] store@[a]).name != (#[trigger] store@[b]).name by {
                        if b < store@.len() - 1 {
                            assert(store@[a] == prev_rows[a]);
                            assert(store@[b] == prev_rows[b]);
                        } else {
                            assert(store@[a] == prev_rows[a]);
                        }
                    }
                }
            },
        }
        i = i + 1;
    }
    SeedOutcome::Seeded
}

/// The fixed catalog the seeder writes, with prices in cents.
pub open spec fn spec_catalog() -> Seq<CatalogEntryModel> {
    seq![
        CatalogEntryModel {
            name: "Bamboo Toothbrush"@,
            description: Some("Biodegradable handle, soft bristles"@),
            price_cents: 399,
            stock: 250,
        },
        CatalogEntryModel {
            name: "Reusable Metal Straw Set"@,
            description: Some("Includes brush and pouch"@),
            price_cents: 549,
            stock: 300,
        },
        CatalogEntryModel {
            name: "Organic Cotton Tote"@,
            description: Some("Durable, machine washable"@),
            price_cents: 999,
            stock: 150,
        },
        CatalogEntryModel {
            name: "Solar Power Bank"@,
            description: Some("10000mAh portable charger"@),
            price_cents: 2990,
            stock: 80,
        },
        CatalogEntryModel {
            name: "Compostable Trash Bags"@,
            description: Some("Strong and leak-resistant"@),
            price_cents: 1250,
            stock: 120,
        },
        CatalogEntryModel {
            name: "Refillable Glass Soap Dispenser"@,
            description: Some("Amber glass, pump included"@),
            price_cents: 1500,
            stock: 60,
        },
        CatalogEntryModel {
            name: "Beeswax Food Wraps"@,
            description: Some("Set of 3 sizes"@),
            price_cents: 1125,
            stock: 140,
        },
        CatalogEntryModel {
            name: "LED Energy-Saving Bulb"@,
            description: Some("Warm white, 9W"@),
            price_cents: 475,
            stock: 400,
        },
    ]
}

/// The fixed catalog, as values.
pub fn catalog() -> (v: Vec<CatalogEntry>)
    ensures
        v.deep_view() == spec_catalog(),
        v@.len() == 8,
{
    let mut v: Vec<CatalogEntry> = Vec::new();
    v.push(
        CatalogEntry {
            name: "Bamboo Toothbrush".to_owned(),
            description: Some("Biodegradable handle, soft bristles".to_owned()),
            price_cents: 399,
            stock: 250,
        },
    );
    v.push(
        CatalogEntry {
            name: "Reusable Metal Straw Set".to_owned(),
            description: Some("Includes brush and pouch".to_owned()),
            price_cents: 549,
            stock: 300,
        },
    );
    v.push(
        CatalogEntry {
            name: "Organic Cotton Tote".to_owned(),
            description: Some("Durable, machine washable".to_owned()),
            price_cents: 999,
            stock: 150,
        },
    );
    v.push(
        CatalogEntry {
            name: "Solar Power Bank".to_owned(),
            description: Some("10000mAh portable charger".to_owned()),
            price_cents: 2990,
            stock: 80,
        },
    );
    v.push(
        CatalogEntry {
            name: "Compostable Trash Bags".to_owned(),
            description: Some("Strong and leak-resistant".to_owned()),
            price_cents: 1250,
            stock: 120,
        },
    );
    v.push(
        CatalogEntry {
            name: "Refillable Glass Soap Dispenser".to_owned(),
            description: Some("Amber glass, pump included".to_owned()),
            price_cents: 1500,
            stock: 60,
        },
    );
    v.push(
        CatalogEntry {
            name: "Beeswax Food Wraps".to_owned(),
            description: Some("Set of 3 sizes".to_owned()),
            price_cents: 1125,
            stock: 140,
        },
    );
    v.push(
        CatalogEntry {
            name: "LED Energy-Saving Bulb".to_owned(),
            description: Some("Warm white, 9W".to_owned()),
            price_cents: 475,
            stock: 400,
        },
    );
    proof {
        assert(v.deep_view() =~= spec_catalog());
    }
    v
}

/// Seed the fixed catalog: upsert its eight products, assigning each to a
/// supplied category round-robin by entry index. An empty category list
/// performs no write and reports a skipped outcome.
pub fn seed_products(store: &mut ProductStore, categories: &Vec<(i32, String)>) -> (r: SeedOutcome)
    requires
        old(store).wf(),
        old(store).next() + spec_catalog().len() <= i32::MAX as int,
    ensures
        final(store).wf(),
        categories@.len() == 0 ==> r == SeedOutcome::Skipped && *final(store) == *old(store),
        categories@.len() > 0 ==> {
            let result = seed_prefix(
                old(store)@,
                old(store).next(),
                spec_catalog(),
                cat_ids(categories@),
                spec_catalog().len() as int,
            );
            &&& r == SeedOutcome::Seeded
            &&& final(store)@ == result.0
            &&& final(store).next() == result.1
        },
{
    let cat = catalog();
    seed_with_catalog(store, categories, &cat)
}

/// Whether the entries of a catalog carry pairwise distinct names.
pub open spec fn distinct_names(cat: Seq<CatalogEntryModel>) -> bool {
    forall|i: int, j: int|
        0 <= i < j < cat.len() ==> (#[trigger] cat[i]).name != (#[trigger] cat[j]).name
}

/// Replacing a row with one of the same name moves no lookup.
proof fn lemma_find_product_update_same_name(
    s: Seq<ProductModel>,
    j: int,
    p: ProductModel,
    name: Seq<char>,
)
    requires
        0 <= j < s.len(),
        p.name == s[j].name,
    ensures
        find_product(s.update(j, p), name) == find_product(s, name),
    decreases s.len(),
{
    let s2 = s.update(j, p);
    if j == 0 {
        assert(s2[0].name == s[0].name);
        if s[0].name != name {
            assert(s2.drop_first() =~= s.drop_first());
        }
    } else {
        assert(s2[0] == s[0]);
        if s[0].name != name {
            assert(s2.drop_first() =~= s.drop_first().update(j - 1, p));
            lemma_find_product_update_same_name(s.drop_first(), j - 1, p, name);
        }
    }
}

/// Appending a row moves no existing lookup; a lookup that failed now finds
/// the appended row exactly when the name matches.
proof fn lemma_find_product_push(s: Seq<ProductModel>, p: ProductModel, name: Seq<char>)
    ensures
        find_product(s.push(p), name) == match find_product(s, name) {
            Some(j) => Some(j),
            None => if p.name == name {
                Some(s.len() as int)
            } else {
                None::<int>
            },
        },
    decreases s.len(),
{
    let s2 = s.push(p);
    if s.len() == 0 {
        assert(s2.len() == 1);
        assert(s2[0] == p);
        assert(s2.drop_first() =~= Seq::<ProductModel>::empty());
        if p.name == name {
            assert(find_product(s2, name) == Some(0int));
        } else {
            assert(find_product(s2.drop_first(), name) is None);
            assert(find_product(s2, name) is None);
        }
    } else {
        assert(s2[0] == s[0]);
        if s[0].name == name {
            assert(find_product(s, name) == Some(0int));
            assert(find_product(s2, name) == Some(0int));
        } else {
            assert(s2.drop_first() =~= s.drop_first().push(p));
            lemma_find_product_push(s.drop_first(), p, name);
            assert(find_product(s2.drop_first(), name) == find_product(
                s.drop_first().push(p),
                name,
            ));
            assert(s.drop_first().len() == s.len() - 1);
        }
    }
}

/// Whether the store already carries, for one catalog entry, exactly the row
/// the seeder would write: found under the entry's name, with the entry's
/// description, price and stock, and the given category.
pub open spec fn row_assigned(rows: Seq<ProductModel>, e: CatalogEntryModel, cat_id: int) -> bool {
    match find_product(rows, e.name) {
        Some(j) => {
            &&& rows[j].description == e.description
            &&& rows[j].price_cents == e.price_cents
            &&& rows[j].category_id == cat_id
            &&& rows[j].stock == e.stock
        },
        None => false,
    }
}

/// After seeding the first `k` entries of a distinct-name catalog, the store
/// is well-formed and holds, for every seeded entry, exactly the row the
/// seeder assigns it.
proof fn lemma_seed_assigns(
    rows: Seq<ProductModel>,
    next: int,
    cat: Seq<CatalogEntryModel>,
    cats: Seq<int>,
    k: int,
)
    requires
        products_wf(rows, next),
        distinct_names(cat),
        cats.len() > 0,
        0 <= k <= cat.len(),
    ensures
        ({
            let r = seed_prefix(rows, next, cat, cats, k);
            &&& products_wf(r.0, r.1)
            &&& next <= r.1
            &&& forall|i: int|
                0 <= i < k ==> row_assigned(r.0, cat[i], cats[i % (cats.len() as int)])
        }),
    decreases k,
{
    if k > 0 {
        lemma_seed_assigns(rows, next, cat, cats, k - 1);
        let prev = seed_prefix(rows, next, cat, cats, k - 1);
        let r0 = prev.0;
        let n0 = prev.1;
        let e = cat[k - 1];
        let cid = cats[(k - 1) % (cats.len() as int)];
        let r = seed_step(r0, n0, e, cid);
        lemma_find_product_some(r0, e.name);
        match find_product(r0, e.name) {
            Some(j) => {
                let newp = ProductModel {
                    id: r0[j].id,
                    name: r0[j].name,
                    description: e.description,
                    price_cents: e.price_cents,
                    category_id: cid,
                    stock: e.stock,
                };
                lemma_find_product_update_same_name(r0, j, newp, e.name);
                assert forall|a: int| 0 <= a < r.0.len() implies 1 <= (#[trigger] r.0[a]).id
                    < r.1 by {
                    if a != j {
                        assert(r.0[a] == r0[a]);
                    }
                }
                assert forall|a: int, b: int| 0 <= a < b < r.0.len() implies (
                #[trigger] r.0[a]).name != (#[trigger] r.0[b]).name by {
                    assert(r.0[a].name == r0[a].name);
                    assert(r.0[b].name == r0[b].name);
                }
                assert(find_product(r.0, e.name) == Some(j));
                assert(r.0[j] == newp);
                assert(row_assigned(r.0, cat[k - 1], cid));
                assert forall|i: int| 0 <= i < k - 1 implies row_assigned(
                    r.0,
                    cat[i],
                    cats[i % (cats.len() as int)],
                ) by {
                    assert(row_assigned(r0, cat[i], cats[i % (cats.len() as int)]));
                    lemma_find_product_some(r0, cat[i].name);
                    let ji = find_product(r0, cat[i].name)->Some_0;
                    lemma_find_product_update_same_name(r0, j, newp, cat[i].name);
                    assert(cat[i].name != cat[k - 1].name);
                    assert(ji != j);
                    assert(r.0[ji] == r0[ji]);
                }
            },
            None => {
                let newp = ProductModel {
                    id: n0,
                    name: e.name,
                    description: e.description,
                    price_cents: e.price_cents,
                    category_id: cid,
                    stock: e.stock,
                };
                lemma_find_product_push(r0, newp, e.name);
                lemma_find_product_none_all(r0, e.name);
                assert(r.0 == r0.push(newp));
                assert forall|a: int| 0 <= a < r.0.len() implies 1 <= (#[trigger] r.0[a]).id
                    < r.1 by {
                    if a < r0.len() {
                        assert(r.0[a] == r0[a]);
                    } else {
                        assert(r.0[a] == newp);
                    }
                }
                assert forall|a: int, b: int| 0 <= a < b < r.0.len() implies (
                #[trigger] r.0[a]).name != (#[trigger] r.0[b]).name by {
                    assert(r.0[a] == r0[a]);
                    if b < r0.len() {
                        assert(r.0[b] == r0[b]);
                    } else {
                        assert(r.0[b] == newp);
                    }
                }
                assert(find_product(r.0, e.name) == Some(r0.len() as int));
                assert(r.0[r0.len() as int] == newp);
                assert(row_assigned(r.0, cat[k - 1], cid));
                assert forall|i: int| 0 <= i < k - 1 implies row_assigned(
                    r.0,
                    cat[i],
                    cats[i % (cats.len() as int)],
                ) by {
                    assert(row_assigned(r0, cat[i], cats[i % (cats.len() as int)]));
                    lemma_find_product_some(r0, cat[i].name);
                    let ji = find_product(r0, cat[i].name)->Some_0;
                    lemma_find_product_push(r0, newp, cat[i].name);
                    assert(r.0[ji] == r0[ji]);
                }
            },
        }
    }
}

/// A store that already holds, for every catalog entry, exactly the row the
/// seeder would write is a fixed point: seeding changes nothing.
proof fn lemma_seed_fixpoint(
    rows: Seq<ProductModel>,
    next: int,
    cat: Seq<CatalogEntryModel>,
    cats: Seq<int>,
    k: int,
)
    requires
        cats.len() > 0,
        0 <= k <= cat.len(),
        forall|i: int|
            0 <= i < cat.len() ==> row_assigned(rows, cat[i], cats[i % (cats.len() as int)]),
    ensures
        seed_prefix(rows, next, cat, cats, k) == (rows, next),
    decreases k,
{
    if k > 0 {
        lemma_seed_fixpoint(rows, next, cat, cats, k - 1);
        let e = cat[k - 1];
        let cid = cats[(k - 1) % (cats.len() as int)];
        assert(row_assigned(rows, e, cid));
        lemma_find_product_some(rows, e.name);
        let j = find_product(rows, e.name)->Some_0;
        let newp = ProductModel {
            id: rows[j].id,
            name: rows[j].name,
            description: e.description,
            price_cents: e.price_cents,
            category_id: cid,
            stock: e.stock,
        };
        assert(newp =~= rows[j]);
        assert(rows.update(j, newp) =~= rows);
    }
}

/// Law: the seeder is idempotent. After one full run over a catalog with
/// pairwise distinct names, a second run with the same catalog and the same
/// category list changes nothing: the same rows stand under the same
/// identifiers, the row count is unchanged, and no duplicate is created.
pub proof fn lemma_seed_idempotent(
    rows: Seq<ProductModel>,
    next: int,
    cat: Seq<CatalogEntryModel>,
    cats: Seq<int>,
)
    requires
        products_wf(rows, next),
        distinct_names(cat),
        cats.len() > 0,
    ensures
        ({
            let once = seed_prefix(rows, next, cat, cats, cat.len() as int);
            seed_prefix(once.0, once.1, cat, cats, cat.len() as int) == once
        }),
{
    lemma_seed_assigns(rows, next, cat, cats, cat.len() as int);
    let once = seed_prefix(rows, next, cat, cats, cat.len() as int);
    lemma_seed_fixpoint(once.0, once.1, cat, cats, cat.len() as int);
}

/// The names of the fixed catalog are pairwise distinct, so the seeder's
/// upsert key never collides within one run.
pub proof fn lemma_catalog_names_distinct()
    ensures
        distinct_names(spec_catalog()),
{
    reveal_strlit("Bamboo Toothbrush");
    reveal_strlit("Reusable Metal Straw Set");
    reveal_strlit("Organic Cotton Tote");
    reveal_strlit("Solar Power Bank");
    reveal_strlit("Compostable Trash Bags");
    reveal_strlit("Refillable Glass Soap Dispenser");
    reveal_strlit("Beeswax Food Wraps");
    reveal_strlit("LED Energy-Saving Bulb");
    let c = spec_catalog();
    assert(c[0].name.len() == 17);
    assert(c[1].name.len() == 24);
    assert(c[2].name.len() == 19);
    assert(c[3].name.len() == 16);
    assert(c[4].name.len() == 22);
    assert(c[5].name.len() == 31);
    assert(c[6].name.len() == 18);
    assert(c[7].name.len() == 22);
    assert(c[4].name[0] == 'C');
    assert(c[7].name[0] == 'L');
    assert forall|i: int, j: int|
        0 <= i < j < c.len() implies (#[trigger] c[i]).name != (#[trigger] c[j]).name by {
        if i == 0 && j == 1 {
            assert(c[0].name != c[1].name);
        } else if i == 0 && j == 2 {
            assert(c[0].name != c[2].name);
        } else if i == 0 && j == 3 {
            assert(c[0].name != c[3].name);
        } else if i == 0 && j == 4 {
            assert(c[0].name != c[4].name);
        } else if i == 0 && j == 5 {
            assert(c[0].name != c[5].name);
        } else if i == 0 && j == 6 {
            assert(c[0].name != c[6].name);
        } else if i == 0 && j == 7 {
            assert(c[0].name != c[7].name);
        } else if i == 1 && j == 2 {
            assert(c[1].name != c[2].name);
        } else if i == 1 && j == 3 {
            assert(c[1].name != c[3].name);
        } else if i == 1 && j == 4 {
            assert(c[1].name != c[4].name);
        } else if i == 1 && j == 5 {
            assert(c[1].name != c[5].name);
        } else if i == 1 && j == 6 {
            assert(c[1].name != c[6].name);
        } else if i == 1 && j == 7 {
            assert(c[1].name != c[7].name);
        } else if i == 2 && j == 3 {
            assert(c[2].name != c[3].name);
        } else if i == 2 && j == 4 {
            assert(c[2].name != c[4].name);
        } else if i == 2 && j == 5 {
            assert(c[2].name != c[5].name);
        } else if i == 2 && j == 6 {
            assert(c[2].name != c[6].name);
        } else if i == 2 && j == 7 {
            assert(c[2].name != c[7].name);
        } else if i == 3 && j == 4 {
            assert(c[3].name != c[4].name);
        } else if i == 3 && j == 5 {
            assert(c[3].name != c[5].name);
        } else if i == 3 && j == 6 {
            assert(c[3].name != c[6].name);
        } else if i == 3 && j == 7 {
            assert(c[3].name != c[7].name);
        } else if i == 4 && j == 5 {
            assert(c[4].name != c[5].name);
        } else if i == 4 && j == 6 {
            assert(c[4].name != c[6].name);
        } else if i == 4 && j == 7 {
            assert(c[4].name != c[7].name);
        } else if i == 5 && j == 6 {
            assert(c[5].name != c[6].name);
        } else if i == 5 && j == 7 {
            assert(c[5].name != c[7].name);
        } else if i == 6 && j == 7 {
            assert(c[6].name != c[7].name);
        }
    }
}

/// Law: seeding the fixed catalog twice with the same category list leaves
/// exactly the state one run produces — the same row count, the same rows.
pub proof fn lemma_seed_products_idempotent(rows: Seq<ProductModel>, next: int, cats: Seq<int>)
    requires
        products_wf(rows, next),
        cats.len() > 0,
    ensures
        ({
            let once = seed_prefix(rows, next, spec_catalog(), cats, spec_catalog().len() as int);
            seed_prefix(once.0, once.1, spec_catalog(), cats, spec_catalog().len() as int) == once
        }),
{
    lemma_catalog_names_distinct();
    lemma_seed_idempotent(rows, next, spec_catalog(), cats);
}

} // verus!
