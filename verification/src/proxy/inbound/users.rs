//! The user list of a server, which changes while the server runs.

use crate::config::{user_views, AuthUser, AuthUserView};
use crate::text::str_eq;
use vstd::prelude::*;

verus! {

/// Where a user is listed from the `i`-th entry on.
pub open spec fn user_index(users: Seq<AuthUserView>, i: int, username: Seq<char>) -> Option<int>
    decreases users.len() - i,
{
    if i < 0 || i >= users.len() {
        None
    } else if users[i].username == username {
        Some(i)
    } else {
        user_index(users, i + 1, username)
    }
}

/// The list after a user was added: a listed user only gets the new password.
pub open spec fn with_user(users: Seq<AuthUserView>, user: AuthUserView) -> Seq<AuthUserView> {
    match user_index(users, 0, user.username) {
        Some(i) => users.update(i, user),
        None => users.push(user),
    }
}

/// The list after a user was removed.
pub open spec fn without_user(users: Seq<AuthUserView>, username: Seq<char>) -> Seq<AuthUserView> {
    users.filter(|u: AuthUserView| u.username != username)
}

/// Finds a user.
pub fn find_user(users: &Vec<AuthUser>, username: &str) -> (r: Option<usize>)
    ensures
        match r {
            Some(i) => user_index(user_views(users@), 0, username@) == Some(i as int) && i
                < users@.len() && users@[i as int].username@ == username@,
            None => user_index(user_views(users@), 0, username@) is None,
        },
{
    let mut i: usize = 0;
    while i < users.len()
        invariant
            i <= users@.len(),
            user_index(user_views(users@), 0, username@) == user_index(
                user_views(users@),
                i as int,
                username@,
            ),
        decreases users@.len() - i,
    {
        assert(user_views(users@)[i as int] == users@[i as int]@);
        if str_eq(users[i].username.as_str(), username) {
            return Some(i);
        }
        i += 1;
    }
    None
}

/// Adds a user or updates the password of a listed one.
pub fn add_user(users: &mut Vec<AuthUser>, user: &AuthUser)
    ensures
        user_views(final(users)@) == with_user(user_views(old(users)@), user@),
{
    match find_user(users, user.username.as_str()) {
        Some(i) => {
            let updated = user.copy();
            users.set(i, updated);
            assert(user_views(users@) =~= user_views(old(users)@).update(i as int, user@));
        },
        None => {
            users.push(user.copy());
            assert(user_views(users@) =~= user_views(old(users)@).push(user@));
        },
    }
}

/// Removes a user.
pub fn remove_user(users: &mut Vec<AuthUser>, username: &str)
    ensures
        user_views(final(users)@) == without_user(user_views(old(users)@), username@),
{
    let mut kept: Vec<AuthUser> = Vec::new();
    let mut i: usize = 0;
    let ghost all = user_views(users@);
    let ghost keep = |u: AuthUserView| u.username != username@;
    assert(user_views(kept@) =~= all.take(0).filter(keep)) by {
        reveal(Seq::filter);
    }
    while i < users.len()
        invariant
            i <= users@.len(),
            users@ == old(users)@,
            all == user_views(users@),
            keep == (|u: AuthUserView| u.username != username@),
            user_views(kept@) == all.take(i as int).filter(keep),
        decreases users@.len() - i,
    {
        let ghost before = kept@;
        proof {
            reveal(Seq::filter);
            assert(all.take(i + 1).drop_last() =~= all.take(i as int));
            assert(all.take(i + 1).last() == users@[i as int]@);
        }
        if !str_eq(users[i].username.as_str(), username) {
            kept.push(users[i].copy());
            assert(user_views(kept@) =~= user_views(before).push(users@[i as int]@));
        }
        i += 1;
    }
    assert(all.take(all.len() as int) =~= all);
    *users = kept;
}

/// Every user is listed once.
pub open spec fn unique_users(users: Seq<AuthUserView>) -> bool {
    forall|i: int, j: int|
        0 <= i < j < users.len() ==> (#[trigger] users[i]).username != (
        #[trigger] users[j]).username
}

proof fn lemma_user_index(users: Seq<AuthUserView>, i: int, username: Seq<char>)
    requires
        0 <= i <= users.len(),
    ensures
        match user_index(users, i, username) {
            Some(k) => i <= k < users.len() && users[k].username == username && forall|j: int|
                i <= j < k ==> (#[trigger] users[j]).username != username,
            None => forall|j: int|
                i <= j < users.len() ==> (#[trigger] users[j]).username != username,
        },
    decreases users.len() - i,
{
    if i < users.len() && users[i].username != username {
        lemma_user_index(users, i + 1, username);
    }
}

/// Adding a user keeps every user listed once, lists the user with the new password, and leaves
/// all others as they are.
pub proof fn law_add_user(users: Seq<AuthUserView>, user: AuthUserView, other: AuthUserView)
    requires
        unique_users(users),
    ensures
        unique_users(with_user(users, user)),
        with_user(users, user).contains(user),
        other.username != user.username ==> (with_user(users, user).contains(other)
            <==> users.contains(other)),
        with_user(with_user(users, user), user) == with_user(users, user),
{
    lemma_user_index(users, 0, user.username);
    let after = with_user(users, user);
    match user_index(users, 0, user.username) {
        Some(i) => {
            assert(after[i] == user);
            if users.contains(other) {
                let k = choose|k: int| 0 <= k < users.len() && users[k] == other;
                assert(after[k] == if k == i { user } else { other });
            }
            if after.contains(other) && other.username != user.username {
                let k = choose|k: int| 0 <= k < after.len() && after[k] == other;
                assert(users[k] == other);
            }
            lemma_user_index(after, 0, user.username);
            assert(user_index(after, 0, user.username) == Some(i)) by {
                let k = user_index(after, 0, user.username)->0;
                assert(after[i].username == user.username);
                assert(after[k].username == user.username);
            }
            assert(after.update(i, user) =~= after);
        },
        None => {
            let n = users.len() as int;
            assert(after[n] == user);
            if users.contains(other) {
                let k = choose|k: int| 0 <= k < users.len() && users[k] == other;
                assert(after[k] == other);
            }
            if after.contains(other) && other.username != user.username {
                let k = choose|k: int| 0 <= k < after.len() && after[k] == other;
                assert(users[k] == other);
            }
            lemma_user_index(after, 0, user.username);
            assert(user_index(after, 0, user.username) == Some(n)) by {
                assert(after[n].username == user.username);
            }
            assert(after.update(n, user) =~= after);
        },
    }
}

/// Removing a user takes every entry of that name off the list and no other.
pub proof fn law_remove_user(users: Seq<AuthUserView>, username: Seq<char>, other: AuthUserView)
    ensures
        other.username == username ==> !without_user(users, username).contains(other),
        other.username != username ==> (without_user(users, username).contains(other)
            <==> users.contains(other)),
    decreases users.len(),
{
    reveal(Seq::filter);
    if users.len() > 0 {
        let head = users.drop_last();
        law_remove_user(head, username, other);
        let kept = without_user(head, username);
        let all = without_user(users, username);
        assert(users.contains(other) <==> head.contains(other) || users.last() == other) by {
            assert(users =~= head.push(users.last()));
            if head.contains(other) {
                let k = choose|k: int| 0 <= k < head.len() && head[k] == other;
                assert(users[k] == other);
            }
            if users.last() == other {
                assert(users[users.len() - 1] == other);
            }
            if users.contains(other) && users.last() != other {
                let k = choose|k: int| 0 <= k < users.len() && users[k] == other;
                assert(head[k] == other);
            }
        }
        if users.last().username != username {
            assert(all == kept.push(users.last()));
            assert(all.contains(other) <==> kept.contains(other) || users.last() == other) by {
                if kept.contains(other) {
                    let k = choose|k: int| 0 <= k < kept.len() && kept[k] == other;
                    assert(all[k] == other);
                }
                if users.last() == other {
                    assert(all[kept.len() as int] == other);
                }
                if all.contains(other) && users.last() != other {
                    let k = choose|k: int| 0 <= k < all.len() && all[k] == other;
                    assert(kept[k] == other);
                }
            }
        } else {
            assert(all == kept);
        }
    } else {
        assert(without_user(users, username) =~= Seq::empty());
    }
}

/// A user is found at the first place with the name; changing one leaves the places of the others, and a
/// new one comes behind them.
pub proof fn law_places_of_users(users: Seq<AuthUserView>, user: AuthUserView, k: int)
    requires
        0 <= k < users.len(),
        forall|i: int| 0 <= i < k ==> (#[trigger] users[i]).username != user.username,
    ensures
        users[k].username == user.username ==> user_index(users, 0, user.username) == Some(k)
            && with_user(users, user) == users.update(k, user),
        (forall|i: int| 0 <= i < users.len() ==> (#[trigger] users[i]).username != user.username)
            ==> user_index(users, 0, user.username) is None && with_user(users, user) == users.push(user),
{
    lemma_first_index(users, 0, user.username, k);
    if forall|i: int| 0 <= i < users.len() ==> (#[trigger] users[i]).username != user.username {
        lemma_no_index(users, 0, user.username);
    }
}

proof fn lemma_first_index(users: Seq<AuthUserView>, i: int, username: Seq<char>, k: int)
    requires
        0 <= i <= k < users.len(),
        forall|j: int| i <= j < k ==> (#[trigger] users[j]).username != username,
    ensures
        users[k].username == username ==> user_index(users, i, username) == Some(k),
    decreases k - i,
{
    if i < k {
        lemma_first_index(users, i + 1, username, k);
    }
}

proof fn lemma_no_index(users: Seq<AuthUserView>, i: int, username: Seq<char>)
    requires
        0 <= i <= users.len(),
        forall|j: int| i <= j < users.len() ==> (#[trigger] users[j]).username != username,
    ensures
        user_index(users, i, username) is None,
    decreases users.len() - i,
{
    if i < users.len() {
        lemma_no_index(users, i + 1, username);
    }
}

/// Removing a user keeps the others in their order, and a user who is not listed changes nothing.
pub proof fn law_removal_keeps_the_order(a: Seq<AuthUserView>, b: Seq<AuthUserView>, username: Seq<char>)
    ensures
        without_user(a + b, username) == without_user(a, username) + without_user(b, username),
        (forall|i: int| 0 <= i < a.len() ==> (#[trigger] a[i]).username != username) ==> without_user(
            a,
            username,
        ) == a,
    decreases b.len(), a.len(),
{
    reveal(Seq::filter);
    let keep = |u: AuthUserView| u.username != username;
    if b.len() == 0 {
        assert(a + b =~= a);
        assert(without_user(a, username) + without_user(b, username) =~= without_user(a, username));
        if a.len() > 0 && forall|i: int| 0 <= i < a.len() ==> (#[trigger] a[i]).username != username {
            law_removal_keeps_the_order(a.drop_last(), b, username);
            assert(a[a.len() - 1].username != username);
            assert(a.drop_last().push(a.last()) =~= a);
        } else if a.len() == 0 {
            assert(without_user(a, username) =~= a);
        }
    } else {
        law_removal_keeps_the_order(a, b.drop_last(), username);
        assert((a + b).drop_last() =~= a + b.drop_last());
        assert((a + b).last() == b.last());
        assert(without_user(a + b, username) =~= without_user(a, username) + without_user(b, username));
    }
}

} // verus!
