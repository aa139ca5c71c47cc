//! The category resource service: list, create, get, update and delete over
//! the category store, with mutations gated by the authorization guard.

use vstd::prelude::*;
use vstd::pervasive::VecAdditionalExecFns;
use crate::auth::Identity;
use crate::auth::guard_passes;
use crate::auth::require_admin;
use crate::errors::AppError;

verus! {

/// The mathematical shape of one stored category row.
#[verifier::ext_equal]
pub struct CategoryModel {
    pub id: int,
    pub name: Seq<char>,
    pub description: Option<Seq<char>>,
}

/// One category row as stored: an assigned identifier, a name and an
/// optional description.
pub struct Category {
    pub id: i32,
    pub name: String,
    pub description: Option<String>,
}

impl View for Category {
    type V = CategoryModel;

    open spec fn view(&self) -> CategoryModel {
        CategoryModel {
            id: self.id as int,
            name: self.name@,
            description: self.description.deep_view(),
        }
    }
}

impl DeepView for Category {
    type V = CategoryModel;

    open spec fn deep_view(&self) -> CategoryModel {
        self.view()
    }
}

/// The response shape for category reads and writes. The identifier is
/// always present on rows returned by this service.
#[derive(Debug)]
pub struct CategoryDto {
    pub id: Option<i32>,
    pub name: String,
    pub description: Option<String>,
}

/// Whether a response carries exactly the fields of a stored row.
pub open spec fn dto_matches(d: CategoryDto, m: CategoryModel) -> bool {
    &&& d.id matches Some(i) && i as int == m.id
    &&& d.name@ == m.name
    &&& d.description.deep_view() == m.description
}

/// The identifier a response carries, for stating the list order.
pub open spec fn dto_id(d: CategoryDto) -> int {
    match d.id {
        Some(i) => i as int,
        None => 0,
    }
}

/// The category table: rows kept ordered by identifier descending, and the
/// identifier the store will assign next.
pub struct CategoryStore {
    pub categories: Vec<Category>,
    pub next_id: i32,
}

impl View for CategoryStore {
    type V = Seq<CategoryModel>;

    open spec fn view(&self) -> Seq<CategoryModel> {
        self.categories.deep_view()
    }
}

impl CategoryStore {
    /// The identifier the store will assign to the next created row.
    pub open spec fn next(&self) -> int {
        self.next_id as int
    }

    /// The store's invariant: identifiers are at least 1, below the next
    /// identifier to assign, and strictly descending in stored order (so the
    /// newest row stands first and identifiers are unique).
    pub open spec fn wf(&self) -> bool {
        &&& 1 <= self.next_id
        &&& forall|i: int| 0 <= i < self@.len() ==> 1 <= (#[trigger] self@[i]).id < self.next()
        &&& forall|i: int, j: int|
            0 <= i < j < self@.len() ==> (#[trigger] self@[i]).id > (#[trigger] self@[j]).id
    }

    /// An empty store whose first assigned identifier will be 1.
    pub fn new() -> (s: CategoryStore)
        ensures
            s.wf(),
            s@ == Seq::<CategoryModel>::empty(),
            s.next() == 1,
    {
        let s = CategoryStore { categories: Vec::new(), next_id: 1 };
        proof {
            assert(s@ =~= Seq::<CategoryModel>::empty());
        }
        s
    }
}

/// The index of the first row carrying the given identifier, if any.
pub open spec fn find_cat(s: Seq<CategoryModel>, id: int) -> Option<int>
    decreases s.len(),
{
    if s.len() == 0 {
        None
    } else if s[0].id == id {
        Some(0)
    } else {
        match find_cat(s.drop_first(), id) {
            Some(i) => Some(i + 1),
            None => None,
        }
    }
}

/// A row whose prefix holds no row with its identifier is the one found.
proof fn lemma_find_cat_first(s: Seq<CategoryModel>, id: int, j: int)
    requires
        0 <= j < s.len(),
        s[j].id == id,
        forall|k: int| 0 <= k < j ==> (#[trigger] s[k]).id != id,
    ensures
        find_cat(s, id) == Some(j),
    decreases s.len(),
{
    if j == 0 {
    } else {
        assert(s[0].id != id);
        assert forall|k: int| 0 <= k < j - 1 implies (#[trigger] s.drop_first()[k]).id != id by {
            assert(s.drop_first()[k] == s[k + 1]);
        }
        assert(s.drop_first()[j - 1] == s[j]);
        lemma_find_cat_first(s.drop_first(), id, j - 1);
    }
}

/// If no row carries the identifier, nothing is found.
proof fn lemma_find_cat_none(s: Seq<CategoryModel>, id: int)
    requires
        forall|k: int| 0 <= k < s.len() ==> (#[trigger] s[k]).id != id,
    ensures
        find_cat(s, id) is None,
    decreases s.len(),
{
    if s.len() > 0 {
        assert forall|k: int| 0 <= k < s.drop_first().len() implies (#[trigger] s.drop_first()[
            k
        ]).id != id by {
            assert(s.drop_first()[k] == s[k + 1]);
        }
        lemma_find_cat_none(s.drop_first(), id);
    }
}

/// What a found index means: it is in range and its row carries the
/// identifier.
pub proof fn lemma_find_cat_some(s: Seq<CategoryModel>, id: int)
    ensures
        find_cat(s, id) matches Some(j) ==> 0 <= j < s.len() && s[j].id == id,
    decreases s.len(),
{
    if s.len() > 0 && s[0].id != id {
        lemma_find_cat_some(s.drop_first(), id);
        if find_cat(s.drop_first(), id) is Some {
            let j = find_cat(s.drop_first(), id)->Some_0;
            assert(s.drop_first()[j] == s[j + 1]);
        }
    }
}

/// The index of the first row carrying the given identifier, if any.
fn find_index(categories: &Vec<Category>, id: i32) -> (r: Option<usize>)
    ensures
        match r {
            Some(j) => j < categories@.len() && find_cat(categories.deep_view(), id as int)
                == Some(j as int),
            None => find_cat(categories.deep_view(), id as int) is None,
        },
{
    let ghost s = categories.deep_view();
    let mut i: usize = 0;
    while i < categories.len()
        invariant
            0 <= i <= categories@.len(),
            s == categories.deep_view(),
            forall|k: int| 0 <= k < i ==> (#[trigger] s[k]).id != id as int,
        decreases categories@.len() - i,
    {
        if categories[i].id == id {
            proof {
                lemma_find_cat_first(s, id as int, i as int);
            }
            return Some(i);
        }
        i = i + 1;
    }
    proof {
        lemma_find_cat_none(s, id as int);
    }
    None
}

/// A copy of an optional text field, equal in view to its source.
pub(crate) fn clone_opt_text(d: &Option<String>) -> (r: Option<String>)
    ensures
        r.deep_view() == d.deep_view(),
{
    match d {
        Some(s) => Some(s.clone()),
        None => None,
    }
}

/// List all categories, newest (highest identifier) first. Requires no
/// authorization; an empty store yields an empty sequence.
pub fn list_categories(store: &CategoryStore) -> (r: Vec<CategoryDto>)
    requires
        store.wf(),
    ensures
        r@.len() == store@.len(),
        forall|i: int| 0 <= i < r@.len() ==> dto_matches(#[trigger] r@[i], store@[i]),
        forall|i: int, j: int| 0 <= i < j < r@.len() ==> dto_id(r@[i]) > dto_id(r@[j]),
{
    let mut out: Vec<CategoryDto> = Vec::new();
    let mut i: usize = 0;
    while i < store.categories.len()
        invariant
            store.wf(),
            0 <= i <= store@.len(),
            out@.len() == i,
            forall|k: int| 0 <= k < i ==> dto_matches(#[trigger] out@[k], store@[k]),
        decreases store@.len() - i,
    {
        let c = &store.categories[i];
        out.push(
            CategoryDto {
                id: Some(c.id),
                name: c.name.clone(),
                description: clone_opt_text(&c.description),
            },
        );
        i = i + 1;
    }
    out
}

/// Fetch one category by identifier, or NotFound if it is absent. Requires
/// no authorization.
pub fn get_category(store: &CategoryStore, id: i32) -> (r: Result<CategoryDto, AppError>)
    requires
        store.wf(),
    ensures
        match find_cat(store@, id as int) {
            Some(j) => r matches Ok(dto) && dto_matches(dto, store@[j]),
            None => r == Err::<CategoryDto, AppError>(AppError::NotFound),
        },
{
    match find_index(&store.categories, id) {
        None => Err(AppError::NotFound),
        Some(j) => {
            let c = &store.categories[j];
            Ok(
                CategoryDto {
                    id: Some(c.id),
                    name: c.name.clone(),
                    description: clone_opt_text(&c.description),
                },
            )
        },
    }
}

/// Create a category with a required non-empty name and an optional
/// description. Requires the admin role; the store assigns the identifier.
/// An authorization failure leaves the store untouched.
pub fn create_category(
    store: &mut CategoryStore,
    ident: Option<&Identity>,
    name: String,
    description: Option<String>,
) -> (r: Result<CategoryDto, AppError>)
    requires
        old(store).wf(),
        name@.len() > 0,
        old(store).next() < i32::MAX as int,
    ensures
        final(store).wf(),
        ident is None ==> r == Err::<CategoryDto, AppError>(AppError::Unauthenticated) && *final(store) == *old(store),
        (ident matches Some(u) && !crate::auth::spec_is_admin(u.role@)) ==> r == Err::<
            CategoryDto,
            AppError,
        >(AppError::Forbidden) && *final(store) == *old(store),
        guard_passes(ident) ==> {
            &&& r matches Ok(dto) && dto_matches(
                dto,
                CategoryModel {
                    id: old(store).next(),
                    name: name@,
                    description: description.deep_view(),
                },
            )
            &&& final(store)@ == seq![
                CategoryModel {
                    id: old(store).next(),
                    name: name@,
                    description: description.deep_view(),
                },
            ] + old(store)@
            &&& final(store).next() == old(store).next() + 1
        },
{
    match require_admin(ident) {
        Err(e) => {
            return Err(e);
        },
        Ok(()) => {},
    }
    let id = store.next_id;
    let row = Category { id, name: name.clone(), description: clone_opt_text(&description) };
    let ghost m = CategoryModel { id: id as int, name: name@, description: description.deep_view() };
    store.categories.insert(0, row);
    store.next_id = id + 1;
    proof {
        assert(store@ =~= seq![m] + old(store)@);
        assert forall|i: int| 0 <= i < store@.len() implies 1 <= (#[trigger] store@[i]).id
            < store.next() by {
            if i > 0 {
                assert(store@[i] == old(store)@[i - 1]);
            }
        }
        assert forall|i: int, j: int| 0 <= i < j < store@.len() implies (#[trigger] store@[i]).id
            > (#[trigger] store@[j]).id by {
            assert(store@[j] == old(store)@[j - 1]);
            if i > 0 {
                assert(store@[i] == old(store)@[i - 1]);
            }
        }
    }
    Ok(CategoryDto { id: Some(id), name, description })
}

/// What a partial update leaves in a field: the supplied value, or the
/// stored one where none was supplied.
pub open spec fn coalesce_text(new_text: Option<Seq<char>>, old_text: Seq<char>) -> Seq<char> {
    match new_text {
        Some(n) => n,
        None => old_text,
    }
}

/// As `coalesce_text`, for an optional stored field.
pub open spec fn coalesce_opt_text(
    new_text: Option<Seq<char>>,
    old_text: Option<Seq<char>>,
) -> Option<Seq<char>> {
    match new_text {
        Some(n) => Some(n),
        None => old_text,
    }
}

/// The row a partial update produces: the identifier is kept, each field is
/// replaced only where a value was supplied.
pub open spec fn updated_model(
    m: CategoryModel,
    name: Option<Seq<char>>,
    description: Option<Seq<char>>,
) -> CategoryModel {
    CategoryModel {
        id: m.id,
        name: coalesce_text(name, m.name),
        description: coalesce_opt_text(description, m.description),
    }
}

/// Partially update a category: unsupplied fields keep their stored value.
/// Requires the admin role; NotFound if the identifier is absent. Any
/// failure leaves the store untouched.
pub fn update_category(
    store: &mut CategoryStore,
    ident: Option<&Identity>,
    id: i32,
    name: Option<String>,
    description: Option<String>,
) -> (r: Result<CategoryDto, AppError>)
    requires
        old(store).wf(),
    ensures
        final(store).wf(),
        ident is None ==> r == Err::<CategoryDto, AppError>(AppError::Unauthenticated) && *final(store) == *old(store),
        (ident matches Some(u) && !crate::auth::spec_is_admin(u.role@)) ==> r == Err::<
            CategoryDto,
            AppError,
        >(AppError::Forbidden) && *final(store) == *old(store),
        guard_passes(ident) ==> match find_cat(old(store)@, id as int) {
            None => r == Err::<CategoryDto, AppError>(AppError::NotFound) && *final(store) == *old(store),
            Some(j) => {
                &&& r matches Ok(dto) && dto_matches(
                    dto,
                    updated_model(old(store)@[j], name.deep_view(), description.deep_view()),
                )
                &&& final(store)@ == old(store)@.update(
                    j,
                    updated_model(old(store)@[j], name.deep_view(), description.deep_view()),
                )
                &&& final(store).next() == old(store).next()
            },
        },
{
    match require_admin(ident) {
        Err(e) => {
            return Err(e);
        },
        Ok(()) => {},
    }
    match find_index(&store.categories, id) {
        None => Err(AppError::NotFound),
        Some(j) => {
            proof {
                lemma_find_cat_some(store@, id as int);
            }
            let row = &store.categories[j];
            let new_name = match name {
                Some(n) => n,
                None => row.name.clone(),
            };
            let new_description = match description {
                Some(d) => Some(d),
                None => clone_opt_text(&row.description),
            };
            let new_row = Category {
                id: row.id,
                name: new_name.clone(),
                description: clone_opt_text(&new_description),
            };
            store.categories.set(j, new_row);
            proof {
                assert forall|i: int| 0 <= i < store@.len() implies 1 <= (#[trigger] store@[i]).id
                    < store.next() by {
                    if i != j {
                        assert(store@[i] == old(store)@[i]);
                    }
                }
                assert forall|i: int, k: int| 0 <= i < k < store@.len() implies (
                #[trigger] store@[i]).id > (#[trigger] store@[k]).id by {
                    assert(store@[i].id == old(store)@[i].id);
                    assert(store@[k].id == old(store)@[k].id);
                }
            }
            Ok(CategoryDto { id: Some(id), name: new_name, description: new_description })
        },
    }
}

/// Delete a category by identifier, confirming with a boolean. Requires the
/// admin role; NotFound if no row was affected. Any failure leaves the store
/// untouched.
pub fn delete_category(store: &mut CategoryStore, ident: Option<&Identity>, id: i32) -> (r: Result<
    bool,
    AppError,
>)
    requires
        old(store).wf(),
    ensures
        final(store).wf(),
        ident is None ==> r == Err::<bool, AppError>(AppError::Unauthenticated) && *final(store)
            == *old(store),
        (ident matches Some(u) && !crate::auth::spec_is_admin(u.role@)) ==> r == Err::<
            bool,
            AppError,
        >(AppError::Forbidden) && *final(store) == *old(store),
        guard_passes(ident) ==> match find_cat(old(store)@, id as int) {
            None => r == Err::<bool, AppError>(AppError::NotFound) && *final(store) == *old(store),
            Some(j) => {
                &&& r == Ok::<bool, AppError>(true)
                &&& final(store)@ == old(store)@.remove(j)
                &&& final(store).next() == old(store).next()
            },
        },
{
    match require_admin(ident) {
        Err(e) => {
            return Err(e);
        },
        Ok(()) => {},
    }
    match find_index(&store.categories, id) {
        None => Err(AppError::NotFound),
        Some(j) => {
            store.categories.remove(j);
            proof {
                assert forall|i: int| 0 <= i < store@.len() implies 1 <= (#[trigger] store@[i]).id
                    < store.next() by {
                    if i < j {
                        assert(store@[i] == old(store)@[i]);
                    } else {
                        assert(store@[i] == old(store)@[i + 1]);
                    }
                }
                assert forall|i: int, k: int| 0 <= i < k < store@.len() implies (
                #[trigger] store@[i]).id > (#[trigger] store@[k]).id by {
                    if i < j {
                        assert(store@[i] == old(store)@[i]);
                    } else {
                        assert(store@[i] == old(store)@[i + 1]);
                    }
                    if k < j {
                        assert(store@[k] == old(store)@[k]);
                    } else {
                        assert(store@[k] == old(store)@[k + 1]);
                    }
                }
            }
            Ok(true)
        },
    }
}

/// Law: a created row is found again under the identifier the store
/// assigned, carrying the same name and description. The hypothesis is what
/// the store invariant gives: every stored identifier is below the one
/// assigned next.
pub proof fn lemma_create_then_get(
    s: Seq<CategoryModel>,
    next: int,
    name: Seq<char>,
    description: Option<Seq<char>>,
)
    requires
        forall|i: int| 0 <= i < s.len() ==> (#[trigger] s[i]).id < next,
    ensures
        ({
            let s2 = seq![CategoryModel { id: next, name, description }] + s;
            &&& find_cat(s2, next) == Some(0int)
            &&& s2[0].name == name
            &&& s2[0].description == description
        }),
{
    let s2 = seq![CategoryModel { id: next, name, description }] + s;
    assert(s2[0].id == next);
}

/// Law: a partial update replaces only the supplied fields. With no name
/// supplied the name is kept; with no description supplied the description
/// is kept; the identifier is immutable in every case.
pub proof fn lemma_partial_update(
    m: CategoryModel,
    name: Option<Seq<char>>,
    description: Option<Seq<char>>,
)
    ensures
        name is None ==> updated_model(m, name, description).name == m.name,
        description is None ==> updated_model(m, name, description).description == m.description,
        name matches Some(n) ==> updated_model(m, name, description).name == n,
        description matches Some(d) ==> updated_model(m, name, description).description == Some(d),
        updated_model(m, name, description).id == m.id,
{
}

} // verus!
