//! The user profile service: a read-only lookup by identifier. No mutation
//! path exists for users in this layer and none is added.

use vstd::prelude::*;
use crate::errors::AppError;

verus! {

/// The mathematical shape of one user row.
#[verifier::ext_equal]
pub struct UserModel {
    pub id: u128,
    pub username: Seq<char>,
    pub email: Seq<char>,
    pub role: Seq<char>,
    pub created_at: i64,
}

/// A user profile: a 128-bit identifier token, account texts, the free-text
/// role, and the creation instant as seconds of the epoch.
pub struct UserProfile {
    pub id: u128,
    pub username: String,
    pub email: String,
    pub role: String,
    pub created_at: i64,
}

impl View for UserProfile {
    type V = UserModel;

    open spec fn view(&self) -> UserModel {
        UserModel {
            id: self.id,
            username: self.username@,
            email: self.email@,
            role: self.role@,
            created_at: self.created_at,
        }
    }
}

impl DeepView for UserProfile {
    type V = UserModel;

    open spec fn deep_view(&self) -> UserModel {
        self.view()
    }
}

/// The user table.
pub struct UserStore {
    pub users: Vec<UserProfile>,
}

impl View for UserStore {
    type V = Seq<UserModel>;

    open spec fn view(&self) -> Seq<UserModel> {
        self.users.deep_view()
    }
}

impl UserStore {
    /// The store's invariant: identifiers are unique.
    pub open spec fn wf(&self) -> bool {
        forall|i: int, j: int|
            0 <= i < j < self@.len() ==> (#[trigger] self@[i]).id != (#[trigger] self@[j]).id
    }

    /// An empty store.
    pub fn new() -> (s: UserStore)
        ensures
            s.wf(),
            s@ == Seq::<UserModel>::empty(),
    {
        let s = UserStore { users: Vec::new() };
        proof {
            assert(s@ =~= Seq::<UserModel>::empty());
        }
        s
    }
}

/// The index of the first user row carrying the given identifier, if any.
pub open spec fn find_user(s: Seq<UserModel>, id: u128) -> Option<int>
    decreases s.len(),
{
    if s.len() == 0 {
        None
    } else if s[0].id == id {
        Some(0)
    } else {
        match find_user(s.drop_first(), id) {
            Some(i) => Some(i + 1),
            None => None,
        }
    }
}

/// A row whose prefix holds no row with its identifier is the one found.
proof fn lemma_find_user_first(s: Seq<UserModel>, id: u128, j: int)
    requires
        0 <= j < s.len(),
        s[j].id == id,
        forall|k: int| 0 <= k < j ==> (#[trigger] s[k]).id != id,
    ensures
        find_user(s, id) == Some(j),
    decreases s.len(),
{
    if j == 0 {
    } else {
        assert(s[0].id != id);
        assert forall|k: int| 0 <= k < j - 1 implies (#[trigger] s.drop_first()[k]).id != id by {
            assert(s.drop_first()[k] == s[k + 1]);
        }
        assert(s.drop_first()[j - 1] == s[j]);
        lemma_find_user_first(s.drop_first(), id, j - 1);
    }
}

/// If no row carries the identifier, nothing is found.
proof fn lemma_find_user_none(s: Seq<UserModel>, id: u128)
    requires
        forall|k: int| 0 <= k < s.len() ==> (#[trigger] s[k]).id != id,
    ensures
        find_user(s, id) is None,
    decreases s.len(),
{
    if s.len() > 0 {
        assert forall|k: int| 0 <= k < s.drop_first().len() implies (#[trigger] s.drop_first()[
            k
        ]).id != id by {
            assert(s.drop_first()[k] == s[k + 1]);
        }
        lemma_find_user_none(s.drop_first(), id);
    }
}

/// Fetch the full profile for an identifier, or NotFound if it is absent.
/// No role restriction applies to this read.
pub fn get_user(store: &UserStore, id: u128) -> (r: Result<UserProfile, AppError>)
    requires
        store.wf(),
    ensures
        match find_user(store@, id) {
            Some(j) => r matches Ok(u) && u@ == store@[j],
            None => r == Err::<UserProfile, AppError>(AppError::NotFound),
        },
{
    let ghost s = store@;
    let mut i: usize = 0;
    while i < store.users.len()
        invariant
            0 <= i <= store@.len(),
            s == store@,
            forall|k: int| 0 <= k < i ==> (#[trigger] s[k]).id != id,
        decreases store@.len() - i,
    {
        let u = &store.users[i];
        if u.id == id {
            proof {
                lemma_find_user_first(s, id, i as int);
            }
            return Ok(
                UserProfile {
                    id: u.id,
                    username: u.username.clone(),
                    email: u.email.clone(),
                    role: u.role.clone(),
                    created_at: u.created_at,
                },
            );
        }
        i = i + 1;
    }
    proof {
        lemma_find_user_none(s, id);
    }
    Err(AppError::NotFound)
}

} // verus!
