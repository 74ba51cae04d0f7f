//! The user repository: name lookup and the paginated listing.

use vstd::prelude::*;

use crate::models::user::User;
use crate::repo::ApiError;
use crate::repo::RepoError;
use crate::store::GraphStore;
use crate::store::has_user;
use crate::strutil::str_eq;

verus! {

/// Failures of user operations.
#[derive(Debug)]
pub enum UserRepoError {
    /// A failure below the user layer, already classified.
    RepoError(RepoError),
    /// No user node carries this name.
    UserNotFound(String),
}

impl ApiError for UserRepoError {
    open spec fn spec_status(&self) -> u16 {
        match self {
            UserRepoError::RepoError(e) => e.spec_status(),
            UserRepoError::UserNotFound(_) => 404,
        }
    }

    fn status(&self) -> (s: u16)
        ensures
            s == self.spec_status(),
    {
        match self {
            UserRepoError::RepoError(e) => e.status(),
            UserRepoError::UserNotFound(_) => 404,
        }
    }
}

impl UserRepoError {
    /// The text of the error.
    pub open spec fn spec_message(&self) -> Seq<char> {
        match self {
            UserRepoError::RepoError(e) => "repo error: "@ + e.spec_message(),
            UserRepoError::UserNotFound(n) => "User not found with user name: "@ + n@,
        }
    }

    /// Render the error as text.
    pub fn message(&self) -> (m: String)
        ensures
            m@ == self.spec_message(),
    {
        match self {
            UserRepoError::RepoError(e) => {
                let inner = e.message();
                "repo error: ".to_owned().concat(inner.as_str())
            },
            UserRepoError::UserNotFound(n) => "User not found with user name: ".to_owned().concat(
                n.as_str(),
            ),
        }
    }
}

/// The page of users a listing returns: `page` is 1-based, `skip` is
/// `(page - 1) * limit`, and a page past the end is empty.
pub open spec fn page_slice(users: Seq<Seq<char>>, page: int, limit: int) -> Seq<Seq<char>> {
    let skip = (page - 1) * limit;
    if skip >= users.len() {
        Seq::empty()
    } else if skip + limit >= users.len() {
        users.subrange(skip, users.len() as int)
    } else {
        users.subrange(skip, skip + limit)
    }
}

/// Lookups of user nodes.  Users are created and deleted outside this
/// system; both operations only read the store.
pub struct UserRepository {}

impl UserRepository {
    /// Exact-match lookup by name; an absent name is `UserNotFound`.
    pub fn find_one(store: &GraphStore, user_name: &str) -> (r: Result<User, UserRepoError>)
        ensures
            match r {
                Ok(u) => has_user(store@, user_name@) && u@ == user_name@,
                Err(e) => !has_user(store@, user_name@) && match e {
                    UserRepoError::UserNotFound(n) => n@ == user_name@,
                    _ => false,
                },
            },
    {
        let mut i: usize = 0;
        while i < store.users.len()
            invariant
                0 <= i <= store.users.len(),
                forall|j: int| 0 <= j < i ==> store@.users[j] != user_name@,
            decreases store.users.len() - i,
        {
            proof {
                assert(store@.users[i as int] == store.users@[i as int].deep_view());
            }
            if str_eq(store.users[i].name.as_str(), user_name) {
                let u = store.users[i].clone();
                assert(store@.users.contains(user_name@));
                return Ok(u);
            }
            i += 1;
        }
        assert(!has_user(store@, user_name@));
        Err(UserRepoError::UserNotFound(user_name.to_owned()))
    }

    /// One page of the users ordered by name (the order the store keeps them
    /// in), together with the total count from the same read.
    pub fn find_all(store: &GraphStore, page: u32, limit: u32) -> (r: Result<
        (Vec<User>, u32),
        UserRepoError,
    >)
        requires
            page >= 1,
            store@.users.len() <= u32::MAX,
        ensures
            match r {
                Ok((items, total)) => total == store@.users.len() && items.deep_view()
                    == page_slice(store@.users, page as int, limit as int),
                Err(_) => false,
            },
    {
        let n = store.users.len();
        let total = n as u32;
        proof {
            vstd::arithmetic::mul::lemma_mul_upper_bound(
                (page as u64 - 1) as int,
                0xffff_ffff,
                (limit as u64) as int,
                0xffff_ffff,
            );
        }
        let skip64: u64 = (page as u64 - 1) * (limit as u64);
        let mut items: Vec<User> = Vec::new();
        if skip64 >= n as u64 {
            proof {
                assert(items.deep_view() =~= page_slice(store@.users, page as int, limit as int));
            }
            return Ok((items, total));
        }
        let start = skip64 as usize;
        let end64: u64 = skip64 + limit as u64;
        let end = if end64 >= n as u64 {
            n
        } else {
            end64 as usize
        };
        let mut i: usize = start;
        while i < end
            invariant
                start <= i <= end,
                end <= store.users.len(),
                items.deep_view() == store@.users.subrange(start as int, i as int),
            decreases end - i,
        {
            let ghost prev = items.deep_view();
            proof {
                assert(store@.users[i as int] == store.users@[i as int].deep_view());
            }
            items.push(store.users[i].clone());
            proof {
                assert(items.deep_view() =~= prev.push(store@.users[i as int]));
                assert(store@.users.subrange(start as int, i + 1) =~= store@.users.subrange(
                    start as int,
                    i as int,
                ).push(store@.users[i as int]));
            }
            i += 1;
        }
        proof {
            assert(items.deep_view() == page_slice(store@.users, page as int, limit as int));
        }
        Ok((items, total))
    }
}

} // verus!
