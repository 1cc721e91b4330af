use vstd::prelude::*;

use crate::keyed::{
    key_seq, keyed_map, keys_unique, lemma_dom, lemma_lookup, lemma_push, lemma_remove,
    lemma_same_views, lemma_update_value,
};

verus! {

/// The method type of an entry.
pub open spec fn method_key() -> spec_fn((String, String)) -> Seq<char> {
    |p: (String, String)| p.0@
}

/// The identifier of an entry.
pub open spec fn method_id() -> spec_fn((String, String)) -> Seq<char> {
    |p: (String, String)| p.1@
}

/// The identifiers that an authentication method set binds, keyed by
/// method type; each method type occurs at most once.
#[derive(Debug)]
pub struct AuthMethods {
    entries: Vec<(String, String)>,
}

impl View for AuthMethods {
    type V = Map<Seq<char>, Seq<char>>;

    closed spec fn view(&self) -> Map<Seq<char>, Seq<char>> {
        keyed_map(self.entries@, method_key(), method_id())
    }
}

impl AuthMethods {
    /// Well-formed: no method type occurs twice.
    pub closed spec fn wf(&self) -> bool {
        keys_unique(self.entries@, method_key())
    }

    /// A well-formed set holds finitely many methods.
    pub proof fn lemma_finite(&self)
        requires
            self.wf(),
        ensures
            self@.dom().finite(),
    {
        lemma_dom(self.entries@, method_key(), method_id());
    }

    /// A set with no methods.
    pub fn new() -> (r: AuthMethods)
        ensures
            r.wf(),
            r@ == Map::<Seq<char>, Seq<char>>::empty(),
    {
        let r = AuthMethods { entries: Vec::new() };
        proof {
            assert(r@ =~= Map::<Seq<char>, Seq<char>>::empty());
        }
        r
    }

    /// A set holding the one method `method_type -> identifier`.
    pub fn single(method_type: String, identifier: String) -> (r: AuthMethods)
        ensures
            r.wf(),
            r@ == map![method_type@ => identifier@],
    {
        let ghost k = method_type@;
        let ghost v = identifier@;
        let mut entries: Vec<(String, String)> = Vec::new();
        entries.push((method_type, identifier));
        let r = AuthMethods { entries };
        proof {
            lemma_lookup(r.entries@, 0, method_key(), method_id());
            assert(r@ =~= map![k => v]);
        }
        r
    }

    fn find(&self, method_type: &String) -> (r: Option<usize>)
        requires
            self.wf(),
        ensures
            match r {
                Some(i) => i < self.entries@.len() && self.entries@[i as int].0@ == method_type@,
                None => !self@.contains_key(method_type@),
            },
    {
        let n = self.entries.len();
        let mut i: usize = 0;
        while i < n
            invariant
                n == self.entries@.len(),
                i <= n,
                forall|j: int| 0 <= j < i ==> #[trigger] self.entries@[j].0@ != method_type@,
            decreases n - i,
        {
            if self.entries[i].0 == *method_type {
                return Some(i);
            }
            i = i + 1;
        }
        None
    }

    /// Whether a method of type `method_type` is present.
    pub fn contains_key(&self, method_type: &String) -> (r: bool)
        requires
            self.wf(),
        ensures
            r == self@.contains_key(method_type@),
    {
        match self.find(method_type) {
            Some(i) => {
                proof {
                    lemma_lookup(self.entries@, i as int, method_key(), method_id());
                }
                true
            },
            None => false,
        }
    }

    /// The identifier bound to `method_type`, if any.
    pub fn get(&self, method_type: &String) -> (r: Option<String>)
        requires
            self.wf(),
        ensures
            match r {
                Some(id) => self@.contains_key(method_type@) && id@ == self@[method_type@],
                None => !self@.contains_key(method_type@),
            },
    {
        match self.find(method_type) {
            Some(i) => {
                proof {
                    lemma_lookup(self.entries@, i as int, method_key(), method_id());
                }
                Some(self.entries[i].1.clone())
            },
            None => None,
        }
    }

    /// The number of methods.
    pub fn len(&self) -> (r: usize)
        requires
            self.wf(),
        ensures
            self@.dom().finite(),
            r == self@.dom().len(),
    {
        proof {
            lemma_dom(self.entries@, method_key(), method_id());
        }
        self.entries.len()
    }

    /// Binds `method_type` to `identifier`, replacing any earlier identifier
    /// of that type.
    pub fn set(&mut self, method_type: String, identifier: String)
        requires
            old(self).wf(),
        ensures
            final(self).wf(),
            final(self)@ == old(self)@.insert(method_type@, identifier@),
    {
        let ghost k = method_type@;
        let ghost v = identifier@;
        let ghost s0 = self.entries@;
        match self.find(&method_type) {
            Some(i) => {
                self.entries.set(i, (method_type, identifier));
                proof {
                    let s1 = self.entries@;
                    assert(keys_unique(s1, method_key())) by {
                        assert forall|a: int, b: int|
                            0 <= a < s1.len() && 0 <= b < s1.len() && #[trigger] method_key()(s1[a])
                                == #[trigger] method_key()(s1[b]) implies a == b by {
                            assert(method_key()(s1[a]) == method_key()(s0[a]));
                            assert(method_key()(s1[b]) == method_key()(s0[b]));
                        }
                    }
                    assert forall|j: int| 0 <= j < s1.len() && j != i implies s1[j] == s0[j] by {}
                    lemma_update_value(s0, s1, i as int, method_key(), method_id());
                }
            },
            None => {
                self.entries.push((method_type, identifier));
                proof {
                    assert(self.entries@.drop_last() =~= s0);
                    lemma_push(s0, self.entries@, method_key(), method_id());
                }
            },
        }
    }

    /// Removes the method of type `method_type`; says whether one was there.
    pub fn remove(&mut self, method_type: &String) -> (r: bool)
        requires
            old(self).wf(),
        ensures
            final(self).wf(),
            r == old(self)@.contains_key(method_type@),
            final(self)@ == old(self)@.remove(method_type@),
    {
        let ghost s0 = self.entries@;
        match self.find(method_type) {
            Some(i) => {
                proof {
                    lemma_lookup(s0, i as int, method_key(), method_id());
                }
                let _removed = self.entries.remove(i);
                proof {
                    lemma_remove(s0, self.entries@, i as int, method_key(), method_id());
                }
                true
            },
            None => {
                proof {
                    assert(old(self)@.remove(method_type@) =~= old(self)@);
                }
                false
            },
        }
    }

    /// The method types, each once, in no promised order.
    pub fn keys(&self) -> (r: Vec<String>)
        requires
            self.wf(),
        ensures
            r@.map_values(|s: String| s@).to_set() == self@.dom(),
            r@.map_values(|s: String| s@).no_duplicates(),
            self@.dom().finite(),
            r@.len() == self@.dom().len(),
    {
        proof {
            lemma_dom(self.entries@, method_key(), method_id());
        }
        let n = self.entries.len();
        let mut r: Vec<String> = Vec::new();
        let mut i: usize = 0;
        while i < n
            invariant
                n == self.entries@.len(),
                i <= n,
                r@.len() == i,
                forall|j: int| 0 <= j < i ==> #[trigger] r@[j]@ == self.entries@[j].0@,
            decreases n - i,
        {
            r.push(self.entries[i].0.clone());
            i = i + 1;
        }
        proof {
            assert(r@.map_values(|s: String| s@) =~= key_seq(self.entries@, method_key()));
        }
        r
    }

    /// A second set with the same methods.
    pub fn duplicate(&self) -> (r: AuthMethods)
        requires
            self.wf(),
        ensures
            r.wf(),
            r@ == self@,
    {
        let n = self.entries.len();
        let mut entries: Vec<(String, String)> = Vec::new();
        let mut i: usize = 0;
        while i < n
            invariant
                n == self.entries@.len(),
                i <= n,
                entries@.len() == i,
                forall|j: int|
                    0 <= j < i ==> #[trigger] entries@[j].0@ == self.entries@[j].0@
                        && entries@[j].1@ == self.entries@[j].1@,
            decreases n - i,
        {
            let k = self.entries[i].0.clone();
            let v = self.entries[i].1.clone();
            entries.push((k, v));
            i = i + 1;
        }
        proof {
            let s0 = self.entries@;
            let s1 = entries@;
            assert(keys_unique(s1, method_key())) by {
                assert forall|a: int, b: int|
                    0 <= a < s1.len() && 0 <= b < s1.len() && #[trigger] method_key()(s1[a])
                        == #[trigger] method_key()(s1[b]) implies a == b by {
                    assert(method_key()(s0[a]) == method_key()(s0[b]));
                }
            }
            lemma_same_views(s0, s1, method_key(), method_id());
        }
        AuthMethods { entries }
    }
}

} // verus!
