//! The two list operations: add a key if it is absent, remove the first
//! occurrence of a key if it is present. Both keep the order of the rest.
use crate::codec::{same_identity, Identity, UserAccessList};
use vstd::prelude::*;

verus! {

/// `l` with `k` appended, unless `k` is already in it.
pub open spec fn list_add(l: Seq<Identity>, k: Identity) -> Seq<Identity> {
    if l.contains(k) {
        l
    } else {
        l.push(k)
    }
}

/// `i` is the position of the first occurrence of `k` in `l`.
pub open spec fn is_first_index(l: Seq<Identity>, k: Identity, i: int) -> bool {
    &&& 0 <= i < l.len()
    &&& l[i] == k
    &&& forall|j: int| 0 <= j < i ==> l[j] != k
}

/// `l` without the first occurrence of `k`; `l` itself when `k` is absent.
pub open spec fn list_remove(l: Seq<Identity>, k: Identity) -> Seq<Identity> {
    if exists|i: int| is_first_index(l, k, i) {
        l.remove(choose|i: int| is_first_index(l, k, i))
    } else {
        l
    }
}

proof fn lemma_first_index_unique(l: Seq<Identity>, k: Identity, i: int, j: int)
    requires
        is_first_index(l, k, i),
        is_first_index(l, k, j),
    ensures
        i == j,
{
}

/// Adding a key to a list without duplicates leaves none.
pub proof fn lemma_add_keeps_no_duplicates(l: Seq<Identity>, k: Identity)
    requires
        l.no_duplicates(),
    ensures
        list_add(l, k).no_duplicates(),
{
    if !l.contains(k) {
        let r = l.push(k);
        assert forall|i: int, j: int| 0 <= i < r.len() && 0 <= j < r.len() && i != j implies r[i]
            != r[j] by {
            if i == l.len() as int {
                assert(l[j] != k);
            } else if j == l.len() as int {
                assert(l[i] != k);
            }
        }
    }
}

/// Removing a key from a list without duplicates leaves none.
pub proof fn lemma_remove_keeps_no_duplicates(l: Seq<Identity>, k: Identity)
    requires
        l.no_duplicates(),
    ensures
        list_remove(l, k).no_duplicates(),
{
    if exists|i: int| is_first_index(l, k, i) {
        let p = choose|i: int| is_first_index(l, k, i);
        let r = l.remove(p);
        assert forall|i: int, j: int| 0 <= i < r.len() && 0 <= j < r.len() && i != j implies r[i]
            != r[j] by {
            let oi = if i < p { i } else { i + 1 };
            let oj = if j < p { j } else { j + 1 };
            assert(r[i] == l[oi] && r[j] == l[oj]);
        }
    }
}

/// Adding the same key twice is adding it once.
pub proof fn lemma_add_idempotent(l: Seq<Identity>, k: Identity)
    ensures
        list_add(list_add(l, k), k) == list_add(l, k),
{
    if !l.contains(k) {
        assert(l.push(k)[l.len() as int] == k);
    }
}

/// On a list without duplicates, removing the same key twice is removing it
/// once.
pub proof fn lemma_remove_idempotent(l: Seq<Identity>, k: Identity)
    requires
        l.no_duplicates(),
    ensures
        list_remove(list_remove(l, k), k) == list_remove(l, k),
{
    let r = list_remove(l, k);
    if exists|i: int| is_first_index(l, k, i) {
        let p = choose|i: int| is_first_index(l, k, i);
        assert forall|i: int| 0 <= i < r.len() implies r[i] != k by {
            let oi = if i < p { i } else { i + 1 };
            assert(r[i] == l[oi]);
        }
    }
    assert(!exists|i: int| is_first_index(r, k, i));
}

/// Appends `add` unless the list already holds it.
pub fn user_access_list_add_pk(access_list: UserAccessList, add: Identity) -> (r: UserAccessList)
    ensures
        r@ == list_add(access_list@, add),
{
    let mut list = access_list;
    let mut i: usize = 0;
    while i < list.len()
        invariant
            list@ == access_list@,
            i <= list@.len(),
            forall|j: int| 0 <= j < i ==> list@[j] != add,
        decreases list@.len() - i,
    {
        if same_identity(&list[i], &add) {
            assert(list@.contains(add));
            return list;
        }
        i = i + 1;
    }
    list.push(add);
    list
}

/// Removes the first occurrence of `remove`, keeping the order of the rest;
/// a list without it is returned unchanged.
pub fn user_access_list_remove_pk(access_list: UserAccessList, remove: Identity) -> (r:
    UserAccessList)
    ensures
        r@ == list_remove(access_list@, remove),
{
    let mut list = access_list;
    let mut i: usize = 0;
    while i < list.len()
        invariant
            list@ == access_list@,
            i <= list@.len(),
            forall|j: int| 0 <= j < i ==> list@[j] != remove,
        decreases list@.len() - i,
    {
        if same_identity(&list[i], &remove) {
            let ghost l = list@;
            proof {
                assert(is_first_index(l, remove, i as int));
                let c = choose|t: int| is_first_index(l, remove, t);
                lemma_first_index_unique(l, remove, i as int, c);
            }
            list.remove(i);
            return list;
        }
        i = i + 1;
    }
    list
}

} // verus!
