use vstd::prelude::*;

use crate::wallet::{
    add_method_result, has_method, initialize_result, is_authorized, new_account,
    remove_method_result, transfer_result, AccountModel, WalletError,
};

verus! {

/// Initializing the same fresh owner twice succeeds once and then fails; the
/// store keeps the record that the first call made.
pub proof fn lemma_initialize_twice(
    store: Map<Seq<char>, AccountModel>,
    owner: Seq<char>,
    method_type: Seq<char>,
    identifier: Seq<char>,
    now: u64,
    method_type2: Seq<char>,
    identifier2: Seq<char>,
    now2: u64,
)
    requires
        !store.contains_key(owner),
    ensures
        ({
            let (s1, r1) = initialize_result(store, owner, method_type, identifier, now);
            let (s2, r2) = initialize_result(s1, owner, method_type2, identifier2, now2);
            &&& r1
            &&& !r2
            &&& s2 == s1
            &&& s2[owner] == new_account(owner, method_type, identifier, now)
        }),
{
}

/// A method is present right after it was added successfully.
pub proof fn lemma_present_after_add(
    store: Map<Seq<char>, AccountModel>,
    owner: Seq<char>,
    method_type: Seq<char>,
    identifier: Seq<char>,
    authorized: Seq<Seq<char>>,
)
    requires
        add_method_result(store, owner, method_type, identifier, authorized).1 == Ok::<bool, WalletError>(true),
    ensures
        has_method(add_method_result(store, owner, method_type, identifier, authorized).0, owner, method_type),
{
}

/// A method is absent right after it was removed successfully.
pub proof fn lemma_absent_after_remove(
    store: Map<Seq<char>, AccountModel>,
    owner: Seq<char>,
    method_type: Seq<char>,
    authorized: Seq<Seq<char>>,
)
    requires
        remove_method_result(store, owner, method_type, authorized).1 == Ok::<bool, WalletError>(true),
    ensures
        !has_method(remove_method_result(store, owner, method_type, authorized).0, owner, method_type),
{
}

/// Adding a method type that the record lacks counts one more method type;
/// adding one that it has (a new identifier) keeps the count.
pub proof fn lemma_count_after_add(
    store: Map<Seq<char>, AccountModel>,
    owner: Seq<char>,
    method_type: Seq<char>,
    identifier: Seq<char>,
    authorized: Seq<Seq<char>>,
)
    requires
        store.contains_key(owner),
        store[owner].methods.dom().finite(),
        add_method_result(store, owner, method_type, identifier, authorized).1 == Ok::<bool, WalletError>(true),
    ensures
        ({
            let after = add_method_result(store, owner, method_type, identifier, authorized).0;
            let before = store[owner].methods;
            &&& after[owner].methods.dom().finite()
            &&& after[owner].methods.dom().len() == before.dom().len() + if before.contains_key(
                method_type,
            ) {
                0int
            } else {
                1int
            }
        }),
{
    let before = store[owner].methods;
    if !before.contains_key(method_type) {
        assert(before.insert(method_type, identifier).dom() == before.dom().insert(method_type));
    } else {
        assert(before.insert(method_type, identifier).dom() =~= before.dom());
    }
}

/// Removing a method successfully counts one method type fewer.
pub proof fn lemma_count_after_remove(
    store: Map<Seq<char>, AccountModel>,
    owner: Seq<char>,
    method_type: Seq<char>,
    authorized: Seq<Seq<char>>,
)
    requires
        store.contains_key(owner),
        store[owner].methods.dom().finite(),
        remove_method_result(store, owner, method_type, authorized).1 == Ok::<bool, WalletError>(true),
    ensures
        ({
            let after = remove_method_result(store, owner, method_type, authorized).0;
            &&& after[owner].methods.dom().finite()
            &&& after[owner].methods.dom().len() + 1 == store[owner].methods.dom().len()
        }),
{
    let before = store[owner].methods;
    assert(before.remove(method_type).dom() == before.dom().remove(method_type));
}

/// Without authorization as the stated owner, the mutating operations fail
/// and leave the store as it was.
pub proof fn lemma_unauthorized_changes_nothing(
    store: Map<Seq<char>, AccountModel>,
    owner: Seq<char>,
    method_type: Seq<char>,
    identifier: Seq<char>,
    new_owner: Seq<char>,
    authorized: Seq<Seq<char>>,
)
    requires
        !is_authorized(authorized, owner),
    ensures
        add_method_result(store, owner, method_type, identifier, authorized) == (
        store,
        Err::<bool, WalletError>(WalletError::Unauthorized),
        ),
        remove_method_result(store, owner, method_type, authorized) == (
        store,
        Err::<bool, WalletError>(WalletError::Unauthorized),
        ),
        transfer_result(store, owner, new_owner, authorized) == (
        store,
        Err::<bool, WalletError>(WalletError::Unauthorized),
        ),
{
}

/// An authorized transfer from an owner without a record returns false and
/// leaves the store, the record at the destination included, as it was.
pub proof fn lemma_transfer_from_absent(
    store: Map<Seq<char>, AccountModel>,
    current_owner: Seq<char>,
    new_owner: Seq<char>,
    authorized: Seq<Seq<char>>,
)
    requires
        is_authorized(authorized, current_owner),
        !store.contains_key(current_owner),
    ensures
        transfer_result(store, current_owner, new_owner, authorized) == (store, Ok::<bool, WalletError>(false)),
{
}

/// An authorized transfer between two distinct owners that both have records
/// removes the source record and replaces the destination record by the
/// moved one.
pub proof fn lemma_transfer_replaces(
    store: Map<Seq<char>, AccountModel>,
    current_owner: Seq<char>,
    new_owner: Seq<char>,
    authorized: Seq<Seq<char>>,
)
    requires
        is_authorized(authorized, current_owner),
        store.contains_key(current_owner),
        store.contains_key(new_owner),
        current_owner != new_owner,
    ensures
        ({
            let (after, r) = transfer_result(store, current_owner, new_owner, authorized);
            &&& r == Ok::<bool, WalletError>(true)
            &&& !after.contains_key(current_owner)
            &&& after.contains_key(new_owner)
            &&& after[new_owner] == AccountModel { owner: new_owner, ..store[current_owner] }
            &&& after.dom() == store.dom().remove(current_owner)
        }),
{
    let after = transfer_result(store, current_owner, new_owner, authorized).0;
    assert(after.dom() =~= store.dom().remove(current_owner));
}

} // verus!
