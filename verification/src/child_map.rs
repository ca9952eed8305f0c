//! The ordered name-to-value container composite models use.
//!
//! A `ChildMap` pairs a fixed key schema with a value vector filled in
//! schema order. The schema is sealed when the map is built; `empty`
//! hands the same schema to a fresh, valueless map, and no operation
//! ever changes a schema afterwards.

use vstd::prelude::*;
use crate::data_model::{DataModel, clone_model, views_of_seq, views_upto, models_inv,
    lemma_views_upto, lemma_models_inv_prefix, lemma_models_inv_pointwise,
    lemma_models_inv_from_pointwise, lemma_models_inv_agree};
use crate::model::ModelView;

verus! {

/// An ordered name-to-index schema with a parallel value vector.
#[derive(Debug)]
pub struct ChildMap {
    keys: Vec<String>,
    arr: Vec<DataModel>,
}

impl ChildMap {
    /// The sealed key schema, in insertion order.
    pub closed spec fn schema(self) -> Seq<Seq<char>> {
        Seq::new(self.keys@.len(), |i: int| self.keys@[i]@)
    }

    /// The abstract values held so far, in schema order.
    pub closed spec fn vals_view(self) -> Seq<ModelView> {
        views_of_seq(self.arr@)
    }

    /// How many values are held so far.
    pub closed spec fn num_vals(self) -> int {
        self.arr@.len() as int
    }

    /// Well-formedness: each key occurs once, and the values never
    /// outnumber the schema.
    pub closed spec fn inv(self) -> bool {
        &&& forall|i: int, j: int|
            0 <= i < j < self.keys@.len() ==> #[trigger] self.keys@[i]@ != #[trigger] self.keys@[j]@
        &&& self.arr@.len() <= self.keys@.len()
        &&& models_inv(self.arr@, self.arr@.len() as int)
    }

    /// Whether a key is part of the schema.
    pub open spec fn spec_has_key(self, k: Seq<char>) -> bool {
        exists|i: int| 0 <= i < self.schema().len() && self.schema()[i] == k
    }

    /// Seals a schema from key-value pairs and fills the values, in
    /// order. The keys must be distinct.
    pub fn new(kv_arr: Vec<(String, DataModel)>) -> (r: ChildMap)
        requires
            forall|i: int, j: int|
                0 <= i < j < kv_arr@.len() ==> kv_arr@[i].0@ != kv_arr@[j].0@,
            forall|i: int| 0 <= i < kv_arr@.len() ==> (#[trigger] kv_arr@[i].1).inv(),
        ensures
            r.inv(),
            r.schema().len() == kv_arr@.len(),
            forall|i: int| 0 <= i < kv_arr@.len() ==> #[trigger] r.schema()[i] == kv_arr@[i].0@,
            r.num_vals() == kv_arr@.len(),
            forall|i: int|
                0 <= i < kv_arr@.len() ==> #[trigger] r.vals_view()[i] == kv_arr@[i].1@,
    {
        let mut keys: Vec<String> = Vec::new();
        let mut arr: Vec<DataModel> = Vec::new();
        let n = kv_arr.len();
        let mut i: usize = 0;
        while i < n
            invariant
                i <= n,
                n == kv_arr@.len(),
                keys@.len() == i,
                arr@.len() == i,
                forall|j: int| 0 <= j < kv_arr@.len() ==> (#[trigger] kv_arr@[j].1).inv(),
                forall|j: int| 0 <= j < i ==> #[trigger] keys@[j]@ == kv_arr@[j].0@,
                forall|j: int| 0 <= j < i ==> (#[trigger] arr@[j])@ == kv_arr@[j].1@,
                forall|j: int| 0 <= j < i ==> (#[trigger] arr@[j]).inv(),
            decreases n - i,
        {
            let k = kv_arr[i].0.clone();
            let c = clone_model(&kv_arr[i].1);
            keys.push(k);
            arr.push(c);
            i = i + 1;
        }
        let r = ChildMap { keys, arr };
        proof {
            lemma_views_upto(r.arr@, n as int);
            lemma_models_inv_from_pointwise(r.arr@, n as int);
        }
        r
    }

    /// A fresh map sharing this schema, holding no values yet.
    pub fn empty(&self) -> (r: ChildMap)
        ensures
            r.schema() == self.schema(),
            r.num_vals() == 0,
            self.inv() ==> r.inv(),
    {
        let keys = self.keys.clone();
        proof {
            lemma_string_vec_clone(self.keys@, keys@);
        }
        let r = ChildMap { keys, arr: Vec::new() };
        proof {
            assert(r.schema() =~= self.schema());
        }
        r
    }

    /// A copy sharing this schema and holding the same values.
    pub fn clone(&self) -> (r: ChildMap)
        ensures
            r.schema() == self.schema(),
            r.num_vals() == self.num_vals(),
            r.vals_view() == self.vals_view(),
            self.inv() ==> r.inv(),
    {
        let keys = self.keys.clone();
        proof {
            lemma_string_vec_clone(self.keys@, keys@);
        }
        let mut arr: Vec<DataModel> = Vec::new();
        let n = self.arr.len();
        let mut i: usize = 0;
        while i < n
            invariant
                i <= n,
                n == self.arr@.len(),
                arr@.len() == i,
                forall|j: int| 0 <= j < i ==> (#[trigger] arr@[j])@ == self.arr@[j]@,
                forall|j: int|
                    0 <= j < i ==> ((#[trigger] self.arr@[j]).inv() ==> arr@[j].inv()),
            decreases n - i,
        {
            let c = clone_model(&self.arr[i]);
            arr.push(c);
            i = i + 1;
        }
        let r = ChildMap { keys, arr };
        proof {
            assert(r.schema() =~= self.schema());
            lemma_views_upto(r.arr@, n as int);
            lemma_views_upto(self.arr@, n as int);
            assert(r.vals_view() =~= self.vals_view());
            if self.inv() {
                lemma_models_inv_pointwise(self.arr@, n as int);
                lemma_models_inv_from_pointwise(r.arr@, n as int);
            }
        }
        r
    }

    /// The values held so far, in schema order.
    pub fn vals(&self) -> (r: &Vec<DataModel>)
        ensures
            r@.len() == self.num_vals(),
            forall|i: int| 0 <= i < r@.len() ==> (#[trigger] r@[i])@ == self.vals_view()[i],
    {
        proof {
            lemma_views_upto(self.arr@, self.arr@.len() as int);
        }
        &self.arr
    }

    /// Appends the next value in schema order. The schema must not be
    /// full yet.
    pub fn push(&mut self, child: DataModel)
        requires
            old(self).inv(),
            old(self).num_vals() < old(self).schema().len(),
            child.inv(),
        ensures
            final(self).inv(),
            final(self).schema() == old(self).schema(),
            final(self).num_vals() == old(self).num_vals() + 1,
            final(self).vals_view() == old(self).vals_view().push(child@),
    {
        let ghost pre = *self;
        self.arr.push(child);
        proof {
            lemma_models_inv_agree(pre.arr@, self.arr@, pre.arr@.len() as int);
            assert(self.schema() =~= pre.schema());
            lemma_views_upto(self.arr@, self.arr@.len() as int);
            lemma_views_upto(pre.arr@, pre.arr@.len() as int);
            assert(self.vals_view() =~= pre.vals_view().push(child@));
        }
    }

    /// The value under a key: present exactly when the key is in the
    /// schema and its position is already filled. Returns a copy.
    pub fn get(&self, key: &str) -> (r: Option<DataModel>)
        requires
            self.inv(),
        ensures
            match r {
                Some(c) => exists|i: int|
                    0 <= i < self.schema().len() && #[trigger] self.schema()[i] == key@ && i
                        < self.num_vals() && c@ == self.vals_view()[i] && c.inv(),
                None => forall|i: int|
                    0 <= i < self.schema().len() && #[trigger] self.schema()[i] == key@ ==> i
                        >= self.num_vals(),
            },
    {
        let key_s: String = key.to_owned();
        let n = self.keys.len();
        let mut i: usize = 0;
        while i < n
            invariant
                i <= n,
                n == self.keys@.len(),
                self.inv(),
                key_s@ == key@,
                forall|j: int| 0 <= j < i ==> #[trigger] self.keys@[j]@ != key@,
            decreases n - i,
        {
            if self.keys[i].eq(&key_s) {
                if i < self.arr.len() {
                    proof {
                        lemma_models_inv_prefix(self.arr@, self.arr@.len() as int, i + 1);
                        lemma_views_upto(self.arr@, self.arr@.len() as int);
                    }
                    let c = clone_model(&self.arr[i]);
                    proof {
                        assert(self.schema()[i as int] == key@);
                    }
                    return Some(c);
                } else {
                    return None;
                }
            }
            i = i + 1;
        }
        None
    }

    /// Replaces the value at a filled position.
    pub fn set_ind(&mut self, i: usize, new_child: DataModel)
        requires
            old(self).inv(),
            i < old(self).num_vals(),
            new_child.inv(),
        ensures
            final(self).inv(),
            final(self).schema() == old(self).schema(),
            final(self).num_vals() == old(self).num_vals(),
            final(self).vals_view() == old(self).vals_view().update(i as int, new_child@),
    {
        let ghost pre = *self;
        self.arr[i] = new_child;
        proof {
            assert(self.schema() =~= pre.schema());
            lemma_views_upto(self.arr@, self.arr@.len() as int);
            lemma_views_upto(pre.arr@, pre.arr@.len() as int);
            assert(self.vals_view() =~= pre.vals_view().update(i as int, new_child@));
            lemma_models_inv_pointwise(pre.arr@, pre.arr@.len() as int);
            lemma_models_inv_from_pointwise(self.arr@, self.arr@.len() as int);
        }
    }
}

/// Schema immutability law: two maps sharing a schema see exactly the
/// same keys, and no operation on either ever changes a schema.
pub proof fn lemma_schema_shared(a: ChildMap, b: ChildMap)
    requires
        a.schema() == b.schema(),
    ensures
        forall|k: Seq<char>| a.spec_has_key(k) == b.spec_has_key(k),
{
}

/// A cloned string vector holds the same strings.
proof fn lemma_string_vec_clone(a: Seq<String>, b: Seq<String>)
    requires
        a.len() == b.len(),
        forall|i: int| 0 <= i < a.len() ==> vstd::pervasive::cloned::<String>(a[i], b[i]),
    ensures
        forall|i: int| 0 <= i < a.len() ==> #[trigger] b[i]@ == a[i]@,
{
    assert forall|i: int| 0 <= i < a.len() implies #[trigger] b[i]@ == a[i]@ by {
        assert(vstd::pervasive::cloned::<String>(a[i], b[i]));
    }
}

} // verus!
