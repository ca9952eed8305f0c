//! The polymorphic data model: a closed set of grammar rules behind one
//! tagged type, each conforming to the parse / serialize / debug / fuzz /
//! vectorize capability set.

use vstd::prelude::*;
use crate::bit_array::BitArray;
use crate::button::Button;
use crate::context::Context;
use crate::feature_vector::{FeatureVector, strset, insert_feature};
use crate::model::{ModelView, valid_model, valid_models, name_of, with_name, spec_parse,
    serialized_bits, debug_str, fuzz_views, features_of, tallied_of, tally_count, height_of};
use crate::parse_error::ParseError;
use crate::u16::U16;
use crate::union::Union;

verus! {

/// The shared, immutable base of a data model: its grammar rule name.
/// Renaming a model allocates a fresh base.
#[derive(Debug)]
pub struct DataModelBase {
    name: String,
}

impl DataModelBase {
    /// The rule name this base carries.
    pub closed spec fn spec_name(self) -> Seq<char> {
        self.name@
    }

    /// Builds a base holding a rule name.
    pub fn new(name: String) -> (r: DataModelBase)
        ensures
            r.spec_name() == name@,
    {
        DataModelBase { name }
    }

    /// The rule name.
    pub fn name(&self) -> (r: &String)
        ensures
            r@ == self.spec_name(),
    {
        &self.name
    }
}

impl Clone for DataModelBase {
    /// A base carrying the same rule name.
    fn clone(&self) -> (r: Self)
        ensures
            r.spec_name() == self.spec_name(),
    {
        DataModelBase { name: self.name.clone() }
    }
}

/// A value that is at once a grammar rule and, once parsed, a concrete
/// parsed instance. The rule set is closed, so the capability set is
/// carried by one tagged type.
#[derive(Debug)]
pub enum DataModel {
    /// A zero-width end-of-input sentinel.
    Button(Button),
    /// A sixteen-bit big-endian integer.
    U16(U16),
    /// An alternation over a fixed candidate list.
    Union(Union),
}

/// The abstract value of a data model.
pub open spec fn view_of(m: DataModel) -> ModelView
    decreases m, 1int,
{
    match m {
        DataModel::Button(b) => ModelView::Button { name: b.base.spec_name() },
        DataModel::U16(u) => ModelView::U16 { name: u.base.spec_name(), bits: u.data.live() },
        DataModel::Union(u) => ModelView::Union {
            name: u.base.spec_name(),
            candidates: views_upto(u.potential_children@, u.potential_children@.len() as int),
            child: Box::new(view_of(*u.child)),
        },
    }
}

/// The abstract values of the first `k` models of a list.
pub open spec fn views_upto(s: Seq<DataModel>, k: int) -> Seq<ModelView>
    decreases s, k,
{
    if k <= 0 || s.len() < k {
        Seq::empty()
    } else {
        views_upto(s, k - 1).push(view_of(s[k - 1]))
    }
}

/// The abstract values of a whole list of models.
pub open spec fn views_of_seq(s: Seq<DataModel>) -> Seq<ModelView> {
    views_upto(s, s.len() as int)
}

/// The view list is as long as the model list and pointwise the views.
pub proof fn lemma_views_upto(s: Seq<DataModel>, k: int)
    requires
        0 <= k <= s.len(),
    ensures
        views_upto(s, k).len() == k,
        forall|i: int| 0 <= i < k ==> #[trigger] views_upto(s, k)[i] == view_of(s[i]),
    decreases k,
{
    if k > 0 {
        lemma_views_upto(s, k - 1);
    }
}

impl View for DataModel {
    type V = ModelView;

    open spec fn view(&self) -> ModelView {
        view_of(*self)
    }
}

impl DataModel {
    /// Structural well-formedness of the concrete representation.
    pub open spec fn inv(self) -> bool
        decreases self, 1int,
    {
        match self {
            DataModel::Button(_) => true,
            DataModel::U16(u) => u.data.inv() && u.data.live().len() == 16,
            DataModel::Union(u) => (*u.child).inv() && models_inv(
                u.potential_children@,
                u.potential_children@.len() as int,
            ),
        }
    }
}

/// Well-formedness of the first `k` models of a list.
pub open spec fn models_inv(s: Seq<DataModel>, k: int) -> bool
    decreases s, k,
{
    if k <= 0 || s.len() < k {
        true
    } else {
        models_inv(s, k - 1) && s[k - 1].inv()
    }
}

/// A well-formed model has a valid abstract value.
pub proof fn lemma_inv_valid(m: DataModel)
    requires
        m.inv(),
    ensures
        valid_model(m@),
    decreases m, 1int,
{
    match m {
        DataModel::Button(_) => {},
        DataModel::U16(_) => {},
        DataModel::Union(u) => {
            lemma_inv_valid(*u.child);
            lemma_models_inv_valid(
                u.potential_children@,
                u.potential_children@.len() as int,
            );
        },
    }
}

/// Well-formed model lists have valid abstract values.
pub proof fn lemma_models_inv_valid(s: Seq<DataModel>, k: int)
    requires
        0 <= k <= s.len(),
        models_inv(s, k),
    ensures
        valid_models(views_upto(s, k), views_upto(s, k).len() as int),
        views_upto(s, k).len() == k,
    decreases s, k,
{
    lemma_views_upto(s, k);
    if k > 0 {
        lemma_models_inv_valid(s, k - 1);
        lemma_inv_valid(s[k - 1]);
        lemma_views_upto(s, k - 1);
        crate::model::lemma_valid_models_agree(
            views_upto(s, k - 1),
            views_upto(s, k),
            k - 1,
        );
    }
}

/// Well-formedness of a list's first `k` elements depends on those alone.
pub proof fn lemma_models_inv_agree(a: Seq<DataModel>, b: Seq<DataModel>, k: int)
    requires
        0 <= k <= a.len(),
        k <= b.len(),
        forall|i: int| 0 <= i < k ==> a[i] == b[i],
    ensures
        models_inv(a, k) == models_inv(b, k),
    decreases k,
{
    if k > 0 {
        lemma_models_inv_agree(a, b, k - 1);
        assert(a[k - 1] == b[k - 1]);
    }
}

/// Well-formedness of the first `k` elements, element by element.
pub proof fn lemma_models_inv_pointwise(s: Seq<DataModel>, k: int)
    requires
        0 <= k <= s.len(),
        models_inv(s, k),
    ensures
        forall|j: int| 0 <= j < k ==> (#[trigger] s[j]).inv(),
    decreases k,
{
    if k > 0 {
        lemma_models_inv_pointwise(s, k - 1);
    }
}

/// Element-by-element well-formedness, folded back up.
pub proof fn lemma_models_inv_from_pointwise(s: Seq<DataModel>, k: int)
    requires
        0 <= k <= s.len(),
        forall|j: int| 0 <= j < k ==> (#[trigger] s[j]).inv(),
    ensures
        models_inv(s, k),
    decreases k,
{
    if k > 0 {
        lemma_models_inv_from_pointwise(s, k - 1);
    }
}

/// A deep copy of a model: the same abstract value, independently owned.
pub fn clone_model(m: &DataModel) -> (r: DataModel)
    ensures
        r@ == m@,
        m.inv() ==> r.inv(),
    decreases *m,
{
    match m {
        DataModel::Button(b) => DataModel::Button(b.clone()),
        DataModel::U16(u) => DataModel::U16(u.clone()),
        DataModel::Union(u) => {
            let mut candidates: Vec<DataModel> = Vec::new();
            let n = u.potential_children.len();
            let mut i: usize = 0;
            while i < n
                invariant
                    i <= n,
                    n == u.potential_children@.len(),
                    candidates@.len() == i,
                    *m == DataModel::Union(*u),
                    forall|j: int|
                        0 <= j < i ==> (#[trigger] candidates@[j])@ == u.potential_children@[j]@,
                    forall|j: int|
                        0 <= j < i ==> ((#[trigger] u.potential_children@[j]).inv()
                            ==> candidates@[j].inv()),
                decreases n - i,
            {
                proof {
                    let ghost mm = *m;
                    assert(decreases_to!(mm => mm->Union_0));
                    assert(decreases_to!(mm->Union_0 => mm->Union_0.potential_children));
                    assert(mm->Union_0.potential_children == u.potential_children);
                    assert(decreases_to!(u.potential_children => u.potential_children@));
                    assert(decreases_to!(
                        u.potential_children@ => u.potential_children@[i as int]));
                }
                let c = clone_model(&u.potential_children[i]);
                candidates.push(c);
                i = i + 1;
            }
            let child = Box::new(clone_model(&*u.child));
            proof {
                lemma_views_upto(candidates@, n as int);
                lemma_views_upto(u.potential_children@, n as int);
                assert(views_upto(candidates@, n as int) =~= views_upto(
                    u.potential_children@,
                    n as int,
                ));
                if (*m).inv() {
                    lemma_models_inv_pointwise(u.potential_children@, n as int);
                    lemma_models_inv_from_pointwise(candidates@, n as int);
                }
            }
            DataModel::Union(Union { base: u.base.clone(), potential_children: candidates, child })
        },
    }
}

/// Well-formedness of `k` elements gives well-formedness of fewer.
pub proof fn lemma_models_inv_prefix(s: Seq<DataModel>, k: int, j: int)
    requires
        0 <= j <= k <= s.len(),
        models_inv(s, k),
    ensures
        models_inv(s, j),
        j > 0 ==> s[j - 1].inv(),
    decreases k - j,
{
    if j < k {
        lemma_models_inv_prefix(s, k - 1, j);
    }
}

impl Clone for DataModel {
    /// A deep copy with the same abstract value.
    fn clone(&self) -> (r: Self)
        ensures
            r@ == self@,
            self.inv() ==> r.inv(),
    {
        clone_model(self)
    }
}

impl DataModel {
    /// Consumes a prefix of the input that matches this grammar and
    /// returns a new model carrying the parsed bits; on failure the
    /// input stands where it stood.
    pub fn parse(&self, input: &mut BitArray, ctx: &Context) -> (r: Result<
        DataModel,
        ParseError,
    >)
        requires
            self.inv(),
            old(input).inv(),
        ensures
            final(input).inv(),
            final(input).all_bits() == old(input).all_bits(),
            match r {
                Ok(m2) => {
                    &&& m2.inv()
                    &&& spec_parse(self@, old(input).live()) matches Some((mv, n)) && m2@ == mv
                        && final(input).cursor() == old(input).cursor() + n
                },
                Err(e) => {
                    &&& final(input).cursor() == old(input).cursor()
                    &&& spec_parse(self@, old(input).live()) is None
                    &&& ((*self) matches DataModel::Union(u) ==> (e matches ParseError::Children(
                        fs,
                    ) && fs@.len() == u.potential_children@.len()))
                    &&& (!((*self) is Union) ==> (e matches ParseError::Atomic(c, rem)
                        && rem.live() == old(input).live()))
                },
            },
        decreases *self,
    {
        match self {
            DataModel::Button(b) => b.parse(input, ctx),
            DataModel::U16(u) => u.parse(input, ctx),
            DataModel::Union(u) => u.parse(input, ctx),
        }
    }

    /// Appends the bits this instance represents.
    pub fn do_serialization(&self, ba: &mut BitArray)
        requires
            self.inv(),
            old(ba).inv(),
            old(ba).all_bits().len() + serialized_bits(self@).len() + 9 <= usize::MAX,
        ensures
            final(ba).inv(),
            final(ba).all_bits() == old(ba).all_bits() + serialized_bits(self@),
            final(ba).cursor() == old(ba).cursor(),
        decreases *self,
    {
        match self {
            DataModel::Button(b) => b.do_serialization(ba),
            DataModel::U16(u) => u.do_serialization(ba),
            DataModel::Union(u) => u.do_serialization(ba),
        }
    }

    /// The stable human-readable rendering.
    pub fn debug(&self) -> (r: String)
        requires
            self.inv(),
        ensures
            r@ == debug_str(self@),
    {
        match self {
            DataModel::Button(b) => b.debug(),
            DataModel::U16(u) => u.debug(),
            DataModel::Union(u) => u.debug(),
        }
    }

    /// A finite list of mutated variants of this instance.
    pub fn fuzz(&self) -> (r: Vec<DataModel>)
        requires
            self.inv(),
        ensures
            views_of_seq(r@) == fuzz_views(self@),
            r@.len() == fuzz_views(self@).len(),
            forall|i: int| 0 <= i < r@.len() ==> (#[trigger] r@[i]).inv(),
        decreases *self,
    {
        match self {
            DataModel::Button(b) => b.fuzz(),
            DataModel::U16(u) => u.fuzz(),
            DataModel::Union(u) => u.fuzz(),
        }
    }

    /// The grammar rule name.
    pub fn name(&self) -> (r: &String)
        ensures
            r@ == name_of(self@),
    {
        match self {
            DataModel::Button(b) => b.name(),
            DataModel::U16(u) => u.name(),
            DataModel::Union(u) => u.name(),
        }
    }

    /// Installs a fresh base carrying the new name.
    pub fn set_name(&mut self, name: &str)
        ensures
            final(self)@ == with_name(old(self)@, name@),
            final(self).inv() == old(self).inv(),
    {
        match self {
            DataModel::Button(b) => b.set_name(name),
            DataModel::U16(u) => u.set_name(name),
            DataModel::Union(u) => u.set_name(name),
        }
    }

    /// Adds every feature name this grammar can reach.
    pub fn do_features(&self, features: &mut Vec<String>)
        requires
            self.inv(),
        ensures
            strset(final(features)@) == strset(old(features)@).union(features_of(self@)),
        decreases *self,
    {
        match self {
            DataModel::Button(b) => {
                insert_feature(features, b.name().as_str());
                proof {
                    assert(strset(features@) =~= strset(old(features)@).union(
                        features_of(self@),
                    ));
                }
            },
            DataModel::U16(u) => {
                insert_feature(features, u.name().as_str());
                proof {
                    assert(strset(features@) =~= strset(old(features)@).union(
                        features_of(self@),
                    ));
                }
            },
            DataModel::Union(u) => u.do_features(features),
        }
    }

    /// Tallies this node at `depth` and its chosen child below it.
    pub fn do_vectorization(&self, fv: &mut FeatureVector, depth: usize)
        requires
            self.inv(),
            old(fv).inv(),
            depth + height_of(self@) <= usize::MAX,
            forall|nm: Seq<char>, d: int|
                old(fv).count(nm, d) + tally_count(self@, nm, d, depth as int) <= u64::MAX,
        ensures
            final(fv).inv(),
            forall|nm: Seq<char>, d: int|
                final(fv).count(nm, d) == old(fv).count(nm, d) + tally_count(
                    self@,
                    nm,
                    d,
                    depth as int,
                ),
            forall|nm: Seq<char>|
                final(fv).has(nm) == (old(fv).has(nm) || tallied_of(self@).contains(nm)),
        decreases *self,
    {
        match self {
            DataModel::Button(b) => {
                proof {
                    assert(old(fv).count(b.base.spec_name(), depth as int) + tally_count(
                        self@,
                        b.base.spec_name(),
                        depth as int,
                        depth as int,
                    ) <= u64::MAX);
                }
                fv.tally(b.name().as_str(), depth);
            },
            DataModel::U16(u) => {
                proof {
                    assert(old(fv).count(u.base.spec_name(), depth as int) + tally_count(
                        self@,
                        u.base.spec_name(),
                        depth as int,
                        depth as int,
                    ) <= u64::MAX);
                }
                fv.tally(u.name().as_str(), depth);
            },
            DataModel::Union(u) => u.do_vectorization(fv, depth),
        }
    }
}

} // verus!
