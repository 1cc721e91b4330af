use vstd::prelude::*;

use crate::address::Address;
use crate::keyed::{keyed_map, keys_unique, lemma_lookup, lemma_push, lemma_remove, lemma_update_value};
use crate::methods::AuthMethods;

verus! {

/// What an account record holds, as mathematical values.
pub struct AccountModel {
    pub owner: Seq<char>,
    pub methods: Map<Seq<char>, Seq<char>>,
    pub is_initialized: bool,
    pub created_at: u64,
}

/// An account record: the controlling owner, the bound authentication
/// methods (method type to identifier), the initialization flag and the
/// ledger time at creation.
#[derive(Debug)]
pub struct SocialAccount {
    pub owner: Address,
    pub auth_methods: AuthMethods,
    pub is_initialized: bool,
    pub created_at: u64,
}

impl View for SocialAccount {
    type V = AccountModel;

    open spec fn view(&self) -> AccountModel {
        AccountModel {
            owner: self.owner@,
            methods: self.auth_methods@,
            is_initialized: self.is_initialized,
            created_at: self.created_at,
        }
    }
}

impl SocialAccount {
    /// Well-formed: the method set is.
    pub open spec fn wf(&self) -> bool {
        self.auth_methods.wf()
    }

    /// A second record with the same contents.
    pub fn duplicate(&self) -> (r: SocialAccount)
        requires
            self.wf(),
        ensures
            r.wf(),
            r@ == self@,
    {
        SocialAccount {
            owner: self.owner.duplicate(),
            auth_methods: self.auth_methods.duplicate(),
            is_initialized: self.is_initialized,
            created_at: self.created_at,
        }
    }
}

/// The fatal failure of an operation: the caller did not authorize as the
/// principal that the operation needs. Nothing is changed when it occurs.
#[derive(PartialEq, Eq, Structural, Debug, Clone, Copy)]
pub enum WalletError {
    Unauthorized,
}

/// The owner key of a stored record.
pub open spec fn account_owner() -> spec_fn(SocialAccount) -> Seq<char> {
    |a: SocialAccount| a.owner@
}

/// The model of a stored record.
pub open spec fn account_model() -> spec_fn(SocialAccount) -> AccountModel {
    |a: SocialAccount| a@
}

/// The principals that authorized an invocation, as text.
pub open spec fn principals(authorized: Seq<Address>) -> Seq<Seq<char>> {
    authorized.map_values(|a: Address| a@)
}

/// Whether `principal` is among those that authorized the invocation.
pub open spec fn is_authorized(authorized: Seq<Seq<char>>, principal: Seq<char>) -> bool {
    authorized.contains(principal)
}

/// The record that `initialize` creates.
pub open spec fn new_account(
    owner: Seq<char>,
    method_type: Seq<char>,
    identifier: Seq<char>,
    now: u64,
) -> AccountModel {
    AccountModel {
        owner,
        methods: map![method_type => identifier],
        is_initialized: true,
        created_at: now,
    }
}

/// The store and result after `initialize`: a new record where none was.
pub open spec fn initialize_result(
    store: Map<Seq<char>, AccountModel>,
    owner: Seq<char>,
    method_type: Seq<char>,
    identifier: Seq<char>,
    now: u64,
) -> (Map<Seq<char>, AccountModel>, bool) {
    if store.contains_key(owner) {
        (store, false)
    } else {
        (store.insert(owner, new_account(owner, method_type, identifier, now)), true)
    }
}

/// The store and result after `add_auth_method`.
pub open spec fn add_method_result(
    store: Map<Seq<char>, AccountModel>,
    owner: Seq<char>,
    method_type: Seq<char>,
    identifier: Seq<char>,
    authorized: Seq<Seq<char>>,
) -> (Map<Seq<char>, AccountModel>, Result<bool, WalletError>) {
    if !is_authorized(authorized, owner) {
        (store, Err(WalletError::Unauthorized))
    } else if !store.contains_key(owner) {
        (store, Ok(false))
    } else {
        let a = store[owner];
        (
            store.insert(owner, AccountModel { methods: a.methods.insert(method_type, identifier), ..a }),
            Ok(true),
        )
    }
}

/// The store and result after `remove_auth_method`.
pub open spec fn remove_method_result(
    store: Map<Seq<char>, AccountModel>,
    owner: Seq<char>,
    method_type: Seq<char>,
    authorized: Seq<Seq<char>>,
) -> (Map<Seq<char>, AccountModel>, Result<bool, WalletError>) {
    if !is_authorized(authorized, owner) {
        (store, Err(WalletError::Unauthorized))
    } else if !store.contains_key(owner) || !store[owner].methods.contains_key(method_type) {
        (store, Ok(false))
    } else {
        let a = store[owner];
        (
            store.insert(owner, AccountModel { methods: a.methods.remove(method_type), ..a }),
            Ok(true),
        )
    }
}

/// The store and result after `transfer_ownership`: the record leaves its
/// old key and replaces whatever stood at the new one.
pub open spec fn transfer_result(
    store: Map<Seq<char>, AccountModel>,
    current_owner: Seq<char>,
    new_owner: Seq<char>,
    authorized: Seq<Seq<char>>,
) -> (Map<Seq<char>, AccountModel>, Result<bool, WalletError>) {
    if !is_authorized(authorized, current_owner) {
        (store, Err(WalletError::Unauthorized))
    } else if !store.contains_key(current_owner) {
        (store, Ok(false))
    } else {
        let a = store[current_owner];
        (
            store.remove(current_owner).insert(new_owner, AccountModel { owner: new_owner, ..a }),
            Ok(true),
        )
    }
}

/// Whether the record at `owner` exists and binds `method_type`.
pub open spec fn has_method(
    store: Map<Seq<char>, AccountModel>,
    owner: Seq<char>,
    method_type: Seq<char>,
) -> bool {
    store.contains_key(owner) && store[owner].methods.contains_key(method_type)
}

/// Checks that `principal` authorized the invocation.
pub fn require_auth(authorized: &Vec<Address>, principal: &Address) -> (r: Result<(), WalletError>)
    ensures
        r is Ok <==> is_authorized(principals(authorized@), principal@),
{
    let n = authorized.len();
    let mut i: usize = 0;
    while i < n
        invariant
            n == authorized@.len(),
            i <= n,
            forall|j: int| 0 <= j < i ==> #[trigger] authorized@[j]@ != principal@,
        decreases n - i,
    {
        if authorized[i].same_as(principal) {
            proof {
                assert(principals(authorized@)[i as int] == principal@);
            }
            return Ok(());
        }
        i = i + 1;
    }
    proof {
        if principals(authorized@).contains(principal@) {
            let j = choose|j: int|
                0 <= j < principals(authorized@).len() && principals(authorized@)[j] == principal@;
            assert(authorized@[j]@ == principal@);
        }
    }
    Err(WalletError::Unauthorized)
}

/// The account registry: one record per owner, stored under its owner.
pub struct SocialWallet {
    accounts: Vec<SocialAccount>,
}

impl View for SocialWallet {
    type V = Map<Seq<char>, AccountModel>;

    closed spec fn view(&self) -> Map<Seq<char>, AccountModel> {
        keyed_map(self.accounts@, account_owner(), account_model())
    }
}

impl SocialWallet {
    /// Well-formed: one record per owner, each record well-formed.
    pub closed spec fn wf(&self) -> bool {
        &&& keys_unique(self.accounts@, account_owner())
        &&& forall|i: int| 0 <= i < self.accounts@.len() ==> #[trigger] self.accounts@[i].wf()
    }

    /// An empty registry.
    pub fn new() -> (r: SocialWallet)
        ensures
            r.wf(),
            r@ == Map::<Seq<char>, AccountModel>::empty(),
    {
        let r = SocialWallet { accounts: Vec::new() };
        proof {
            assert(r@ =~= Map::<Seq<char>, AccountModel>::empty());
        }
        r
    }

    fn find(&self, owner: &Address) -> (r: Option<usize>)
        requires
            self.wf(),
        ensures
            match r {
                Some(i) => {
                    &&& i < self.accounts@.len()
                    &&& self.accounts@[i as int].owner@ == owner@
                    &&& self@.contains_key(owner@)
                    &&& self@[owner@] == self.accounts@[i as int]@
                    &&& self.accounts@[i as int].wf()
                },
                None => !self@.contains_key(owner@),
            },
    {
        let n = self.accounts.len();
        let mut i: usize = 0;
        while i < n
            invariant
                self.wf(),
                n == self.accounts@.len(),
                i <= n,
                forall|j: int| 0 <= j < i ==> #[trigger] self.accounts@[j].owner@ != owner@,
            decreases n - i,
        {
            if self.accounts[i].owner.same_as(owner) {
                proof {
                    lemma_lookup(self.accounts@, i as int, account_owner(), account_model());
                }
                return Some(i);
            }
            i = i + 1;
        }
        None
    }

    /// Creates the record of `owner` with its first method, stamped with the
    /// ledger time `now`. Returns false, changing nothing, when `owner`
    /// already has a record. No authorization is asked for.
    pub fn initialize(&mut self, owner: Address, method_type: String, identifier: String, now: u64) -> (r: bool)
        requires
            old(self).wf(),
        ensures
            final(self).wf(),
            (final(self)@, r) == initialize_result(old(self)@, owner@, method_type@, identifier@, now),
    {
        match self.find(&owner) {
            Some(_) => false,
            None => {
                let ghost s0 = self.accounts@;
                let ghost k = owner@;
                let ghost mt = method_type@;
                let ghost id = identifier@;
                let account = SocialAccount {
                    owner,
                    auth_methods: AuthMethods::single(method_type, identifier),
                    is_initialized: true,
                    created_at: now,
                };
                self.accounts.push(account);
                proof {
                    let s1 = self.accounts@;
                    assert(s1.drop_last() =~= s0);
                    lemma_push(s0, s1, account_owner(), account_model());
                    assert(s1.last()@ == new_account(k, mt, id, now));
                    assert forall|i: int| 0 <= i < s1.len() implies #[trigger] s1[i].wf() by {
                        if i < s0.len() {
                            assert(s1[i] == s0[i]);
                        }
                    }
                }
                true
            },
        }
    }

    /// Moves the record of `current_owner` to `new_owner`, replacing any
    /// record already stored there. Fails with `Unauthorized`, changing
    /// nothing, unless `current_owner` authorized the invocation; returns
    /// false, changing nothing, when `current_owner` has no record.
    pub fn transfer_ownership(
        &mut self,
        current_owner: Address,
        new_owner: Address,
        authorized: &Vec<Address>,
    ) -> (r: Result<bool, WalletError>)
        requires
            old(self).wf(),
        ensures
            final(self).wf(),
            (final(self)@, r) == transfer_result(
                old(self)@,
                current_owner@,
                new_owner@,
                principals(authorized@),
            ),
    {
        if require_auth(authorized, &current_owner).is_err() {
            return Err(WalletError::Unauthorized);
        }
        match self.find(&current_owner) {
            None => Ok(false),
            Some(i) => {
                let ghost s0 = self.accounts@;
                let ghost w0 = self@;
                let mut account = self.accounts.remove(i);
                proof {
                    assert(account.wf());
                    lemma_remove(s0, self.accounts@, i as int, account_owner(), account_model());
                    assert forall|j: int| 0 <= j < self.accounts@.len() implies #[trigger] self.accounts@[j].wf() by {
                        let j0 = if j < i { j } else { j + 1 };
                        assert(self.accounts@[j] == s0[j0]);
                    }
                }
                let ghost w1 = self@;
                let ghost s1 = self.accounts@;
                account.owner = new_owner;
                let ghost moved = account@;
                match self.find(&account.owner) {
                    Some(j) => {
                        self.accounts.set(j, account);
                        proof {
                            let s2 = self.accounts@;
                            assert(keys_unique(s2, account_owner())) by {
                                assert forall|a: int, b: int|
                                    0 <= a < s2.len() && 0 <= b < s2.len() && #[trigger] account_owner()(s2[a])
                                        == #[trigger] account_owner()(s2[b]) implies a == b by {
                                    assert(account_owner()(s2[a]) == account_owner()(s1[a]));
                                    assert(account_owner()(s2[b]) == account_owner()(s1[b]));
                                }
                            }
                            assert forall|x: int| 0 <= x < s2.len() && x != j implies s2[x] == s1[x] by {}
                            lemma_update_value(s1, s2, j as int, account_owner(), account_model());
                            assert forall|x: int| 0 <= x < s2.len() implies #[trigger] s2[x].wf() by {
                                if x != j {
                                    assert(s2[x] == s1[x]);
                                }
                            }
                        }
                    },
                    None => {
                        self.accounts.push(account);
                        proof {
                            let s2 = self.accounts@;
                            assert(s2.drop_last() =~= s1);
                            lemma_push(s1, s2, account_owner(), account_model());
                            assert forall|x: int| 0 <= x < s2.len() implies #[trigger] s2[x].wf() by {
                                if x < s1.len() {
                                    assert(s2[x] == s1[x]);
                                }
                            }
                        }
                    },
                }
                proof {
                    assert(moved == AccountModel { owner: new_owner@, ..w0[current_owner@] });
                }
                Ok(true)
            },
        }
    }

    /// Binds `method_type` to `identifier` in the record of `owner`,
    /// replacing an earlier identifier of that type. Fails with
    /// `Unauthorized`, changing nothing, unless `owner` authorized the
    /// invocation; returns false, changing nothing, when `owner` has no
    /// record.
    pub fn add_auth_method(
        &mut self,
        owner: Address,
        method_type: String,
        identifier: String,
        authorized: &Vec<Address>,
    ) -> (r: Result<bool, WalletError>)
        requires
            old(self).wf(),
        ensures
            final(self).wf(),
            (final(self)@, r) == add_method_result(
                old(self)@,
                owner@,
                method_type@,
                identifier@,
                principals(authorized@),
            ),
    {
        if require_auth(authorized, &owner).is_err() {
            return Err(WalletError::Unauthorized);
        }
        match self.find(&owner) {
            None => Ok(false),
            Some(i) => {
                let ghost s0 = self.accounts@;
                self.accounts[i].auth_methods.set(method_type, identifier);
                proof {
                    self.lemma_replaced(s0, i as int);
                }
                Ok(true)
            },
        }
    }

    /// Unbinds `method_type` from the record of `owner`. Fails with
    /// `Unauthorized`, changing nothing, unless `owner` authorized the
    /// invocation; returns false, changing nothing, when `owner` has no
    /// record or the record lacks that method type.
    pub fn remove_auth_method(
        &mut self,
        owner: Address,
        method_type: String,
        authorized: &Vec<Address>,
    ) -> (r: Result<bool, WalletError>)
        requires
            old(self).wf(),
        ensures
            final(self).wf(),
            (final(self)@, r) == remove_method_result(
                old(self)@,
                owner@,
                method_type@,
                principals(authorized@),
            ),
    {
        if require_auth(authorized, &owner).is_err() {
            return Err(WalletError::Unauthorized);
        }
        match self.find(&owner) {
            None => Ok(false),
            Some(i) => {
                if !self.accounts[i].auth_methods.contains_key(&method_type) {
                    return Ok(false);
                }
                let ghost s0 = self.accounts@;
                let _present = self.accounts[i].auth_methods.remove(&method_type);
                proof {
                    self.lemma_replaced(s0, i as int);
                }
                Ok(true)
            },
        }
    }

    /// After the record at `i` was changed in place, keeping its owner, the
    /// store binds that owner to the new record.
    proof fn lemma_replaced(&self, s0: Seq<SocialAccount>, i: int)
        requires
            keys_unique(s0, account_owner()),
            0 <= i < s0.len(),
            self.accounts@.len() == s0.len(),
            self.accounts@[i].owner@ == s0[i].owner@,
            self.accounts@[i].wf(),
            forall|j: int| 0 <= j < s0.len() ==> #[trigger] s0[j].wf(),
            forall|j: int| 0 <= j < s0.len() && j != i ==> self.accounts@[j] == s0[j],
        ensures
            self.wf(),
            self@ == keyed_map(s0, account_owner(), account_model()).insert(
                s0[i].owner@,
                self.accounts@[i]@,
            ),
    {
        let s1 = self.accounts@;
        assert(keys_unique(s1, account_owner())) by {
            assert forall|a: int, b: int|
                0 <= a < s1.len() && 0 <= b < s1.len() && #[trigger] account_owner()(s1[a])
                    == #[trigger] account_owner()(s1[b]) implies a == b by {
                assert(account_owner()(s1[a]) == account_owner()(s0[a]));
                assert(account_owner()(s1[b]) == account_owner()(s0[b]));
            }
        }
        lemma_update_value(s0, s1, i, account_owner(), account_model());
        assert forall|x: int| 0 <= x < s1.len() implies #[trigger] s1[x].wf() by {
            if x != i {
                assert(s1[x] == s0[x]);
            }
        }
    }

    /// A copy of the record of `owner`, if there is one.
    pub fn get_account(&self, owner: &Address) -> (r: Option<SocialAccount>)
        requires
            self.wf(),
        ensures
            match r {
                Some(a) => self@.contains_key(owner@) && a@ == self@[owner@] && a.wf(),
                None => !self@.contains_key(owner@),
            },
    {
        match self.find(owner) {
            Some(i) => Some(self.accounts[i].duplicate()),
            None => None,
        }
    }

    /// Whether `owner` has a record that binds `method_type`.
    pub fn has_auth_method(&self, owner: &Address, method_type: &String) -> (r: bool)
        requires
            self.wf(),
        ensures
            r == has_method(self@, owner@, method_type@),
    {
        match self.find(owner) {
            Some(i) => self.accounts[i].auth_methods.contains_key(method_type),
            None => false,
        }
    }

    /// The method types bound in the record of `owner`, each once and in no
    /// promised order; empty when `owner` has no record.
    pub fn get_auth_methods(&self, owner: &Address) -> (r: Vec<String>)
        requires
            self.wf(),
        ensures
            self@.contains_key(owner@) ==> {
                &&& r@.map_values(|m: String| m@).to_set() == self@[owner@].methods.dom()
                &&& r@.map_values(|m: String| m@).no_duplicates()
                &&& self@[owner@].methods.dom().finite()
                &&& r@.len() == self@[owner@].methods.dom().len()
            },
            !self@.contains_key(owner@) ==> r@.len() == 0,
    {
        match self.find(owner) {
            Some(i) => self.accounts[i].auth_methods.keys(),
            None => Vec::new(),
        }
    }

    /// Every stored record is stored under its own owner, and holds finitely
    /// many methods.
    pub proof fn lemma_records(&self)
        requires
            self.wf(),
        ensures
            forall|k: Seq<char>| #[trigger] self@.contains_key(k) ==> self@[k].owner == k,
            forall|k: Seq<char>| #[trigger] self@.contains_key(k) ==> self@[k].methods.dom().finite(),
    {
        assert forall|k: Seq<char>| #[trigger] self@.contains_key(k) implies self@[k].owner == k
            && self@[k].methods.dom().finite() by {
            let i = choose|i: int|
                0 <= i < self.accounts@.len() && #[trigger] account_owner()(self.accounts@[i]) == k;
            lemma_lookup(self.accounts@, i, account_owner(), account_model());
            assert(self.accounts@[i].wf());
            self.accounts@[i].auth_methods.lemma_finite();
        }
    }

    /// Stores `account` under its owner, replacing any record there; this is
    /// how a record read back from persistence enters the registry.
    pub fn restore(&mut self, account: SocialAccount)
        requires
            old(self).wf(),
            account.wf(),
        ensures
            final(self).wf(),
            final(self)@ == old(self)@.insert(account.owner@, account@),
    {
        let ghost s0 = self.accounts@;
        match self.find(&account.owner) {
            Some(j) => {
                self.accounts.set(j, account);
                proof {
                    self.lemma_replaced(s0, j as int);
                }
            },
            None => {
                self.accounts.push(account);
                proof {
                    let s1 = self.accounts@;
                    assert(s1.drop_last() =~= s0);
                    lemma_push(s0, s1, account_owner(), account_model());
                    assert forall|x: int| 0 <= x < s1.len() implies #[trigger] s1[x].wf() by {
                        if x < s0.len() {
                            assert(s1[x] == s0[x]);
                        }
                    }
                }
            },
        }
    }
}

} // verus!
