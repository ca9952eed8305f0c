//! The alternation combinator: a fixed, ordered candidate list and one
//! chosen child.

use vstd::prelude::*;
use crate::bit_array::BitArray;
use crate::context::{Context, Children};
use crate::data_model::{DataModel, DataModelBase, clone_model, views_of_seq, views_upto,
    models_inv, lemma_views_upto, lemma_models_inv_prefix, lemma_models_inv_pointwise};
use crate::feature_vector::{FeatureVector, strset, insert_feature};
use crate::model::{ModelView, name_of, with_name, spec_parse, union_parse_from, serialized_bits,
    debug_str, fuzz_views, features_of, features_of_seq, tallied_of, tally_count, height_of};
use crate::parse_error::ParseError;

verus! {

/// An alternation over a fixed candidate list. Parsing tries every
/// candidate on a copy of the input and keeps the last that succeeds.
#[derive(Debug)]
pub struct Union {
    /// The shared base carrying the rule name.
    pub base: DataModelBase,
    /// The candidate grammars, in declaration order.
    pub potential_children: Vec<DataModel>,
    /// The chosen child: the first candidate at first, the surviving
    /// parse after a successful parse.
    pub child: Box<DataModel>,
}

impl View for Union {
    type V = ModelView;

    open spec fn view(&self) -> ModelView {
        ModelView::Union {
            name: self.base.spec_name(),
            candidates: views_of_seq(self.potential_children@),
            child: Box::new((*self.child)@),
        }
    }
}

impl Union {
    /// Well-formedness: the chosen child and every candidate are
    /// well-formed.
    pub open spec fn inv(self) -> bool {
        &&& (*self.child).inv()
        &&& models_inv(self.potential_children@, self.potential_children@.len() as int)
    }

    /// A union under its own rule name, with the given candidates and
    /// chosen child.
    pub fn new_no_name(potential_children: Vec<DataModel>, child: DataModel) -> (r: Union)
        ensures
            r@ == (ModelView::Union {
                name: "Union"@,
                candidates: views_of_seq(potential_children@),
                child: Box::new(child@),
            }),
            models_inv(potential_children@, potential_children@.len() as int) && child.inv()
                ==> r.inv(),
    {
        Union {
            base: DataModelBase::new("Union".to_owned()),
            potential_children,
            child: Box::new(child),
        }
    }

    /// A named union over the given candidates, choosing the first as
    /// its initial child. The candidate list must not be empty.
    pub fn new(name: &str, potential_children: Vec<DataModel>) -> (r: DataModel)
        requires
            potential_children@.len() > 0,
            models_inv(potential_children@, potential_children@.len() as int),
        ensures
            r.inv(),
            r@ == (ModelView::Union {
                name: name@,
                candidates: views_of_seq(potential_children@),
                child: Box::new(views_of_seq(potential_children@)[0]),
            }),
            crate::model::covered_seq(
                views_of_seq(potential_children@),
                potential_children@.len() as int,
            ) ==> crate::model::covered(r@),
    {
        proof {
            lemma_models_inv_prefix(
                potential_children@,
                potential_children@.len() as int,
                1,
            );
            lemma_views_upto(potential_children@, potential_children@.len() as int);
            let cands = views_of_seq(potential_children@);
            if crate::model::covered_seq(cands, potential_children@.len() as int) {
                crate::model::lemma_covered_seq_member(
                    cands,
                    potential_children@.len() as int,
                    0,
                );
                crate::model::lemma_feature_universality(cands[0]);
                crate::model::lemma_features_of_seq_member(
                    cands,
                    potential_children@.len() as int,
                    0,
                );
            }
        }
        let child = clone_model(&potential_children[0]);
        let mut result = Self::new_no_name(potential_children, child);
        result.set_name(name);
        DataModel::Union(result)
    }

    /// The grammar rule name.
    pub fn name(&self) -> (r: &String)
        ensures
            r@ == name_of(self@),
    {
        self.base.name()
    }

    /// The chosen child.
    pub fn child(&self) -> (r: &DataModel)
        ensures
            r@ == (*self.child)@,
            self@ matches ModelView::Union { child, .. } && r@ == *child,
    {
        &*self.child
    }

    /// Replaces the base with one carrying the new name.
    pub fn set_name(&mut self, name: &str)
        ensures
            final(self)@ == with_name(old(self)@, name@),
            final(self).inv() == old(self).inv(),
    {
        self.base = DataModelBase::new(name.to_owned());
    }

    /// Tries every candidate on a copy of the input, in declaration
    /// order. With no success, fails with one error per candidate and
    /// the input where it stood; otherwise commits the input to the
    /// last successful candidate's cursor and wraps its parse as the
    /// chosen child.
    pub fn parse(&self, input: &mut BitArray, ctx: &Context) -> (r: Result<
        DataModel,
        ParseError,
    >)
        requires
            self.inv(),
            old(input).inv(),
        ensures
            final(input).inv(),
            final(input).all_bits() == old(input).all_bits(),
            match r {
                Ok(m2) => {
                    &&& m2.inv()
                    &&& spec_parse(self@, old(input).live()) matches Some((mv, n)) && m2@ == mv
                        && final(input).cursor() == old(input).cursor() + n
                },
                Err(e) => {
                    &&& final(input).cursor() == old(input).cursor()
                    &&& spec_parse(self@, old(input).live()) is None
                    &&& e matches ParseError::Children(fs) && fs@.len()
                        == self.potential_children@.len()
                },
            },
        decreases *self,
    {
        let ghost pre = *input;
        let ghost bits = old(input).live();
        let ghost namev = self.base.spec_name();
        let ghost cands = views_of_seq(self.potential_children@);
        proof {
            lemma_views_upto(self.potential_children@, self.potential_children@.len() as int);
            lemma_models_inv_pointwise(
                self.potential_children@,
                self.potential_children@.len() as int,
            );
        }
        let mut successes: Vec<(DataModel, BitArray)> = Vec::new();
        let mut failures: Vec<ParseError> = Vec::new();
        let n = self.potential_children.len();
        let mut i: usize = 0;
        while i < n
            invariant
                i <= n,
                n == self.potential_children@.len(),
                *input == pre,
                pre.inv(),
                bits == pre.live(),
                cands.len() == n,
                forall|j: int|
                    0 <= j < n ==> #[trigger] cands[j] == self.potential_children@[j]@,
                forall|j: int| 0 <= j < n ==> (#[trigger] self.potential_children@[j]).inv(),
                successes@.len() == 0 ==> union_parse_from(namev, cands, i as int, bits) is None
                    && failures@.len() == i,
                successes@.len() > 0 ==> ({
                    let (ch, inp) = successes@.last();
                    &&& union_parse_from(namev, cands, i as int, bits) == Some(
                        (
                            ModelView::Union {
                                name: namev,
                                candidates: cands,
                                child: Box::new(ch@),
                            },
                            inp.cursor() - pre.cursor(),
                        ),
                    )
                    &&& ch.inv()
                    &&& inp.inv()
                    &&& inp.all_bits() == pre.all_bits()
                    &&& inp.cursor() >= pre.cursor()
                }),
            decreases n - i,
        {
            let mut input_for_child = input.clone();
            let ghost clone_pre = input_for_child;
            let child_ctx = Context::new(Some(Box::new(ctx.clone())), Children::Zilch);
            proof {
                assert(decreases_to!(*self => self.potential_children));
                assert(decreases_to!(self.potential_children => self.potential_children@));
                assert(decreases_to!(
                    self.potential_children@ => self.potential_children@[i as int]));
                assert(clone_pre.live() == bits);
            }
            match self.potential_children[i].parse(&mut input_for_child, &child_ctx) {
                Ok(new_child) => {
                    successes.push((new_child, input_for_child));
                    proof {
                        crate::model::lemma_spec_parse_consumed(cands[i as int], bits);
                        let (ch, inp) = successes@.last();
                        assert(ch == new_child && inp == input_for_child);
                        assert(spec_parse(cands[i as int], bits) matches Some((mv, nn))
                            && ch@ == mv && inp.cursor() == pre.cursor() + nn);
                        assert(union_parse_from(namev, cands, (i + 1) as int, bits) == Some(
                            (
                                ModelView::Union {
                                    name: namev,
                                    candidates: cands,
                                    child: Box::new(ch@),
                                },
                                inp.cursor() - pre.cursor(),
                            ),
                        ));
                    }
                },
                Err(e) => {
                    proof {
                        assert(spec_parse(cands[i as int], bits) is None);
                        assert(union_parse_from(namev, cands, (i + 1) as int, bits)
                            == union_parse_from(namev, cands, i as int, bits));
                    }
                    failures.push(e);
                },
            }
            i = i + 1;
        }
        match successes.pop() {
            Some((child, input_from_child)) => {
                input.advance_to_match(&input_from_child);
                let candidates = clone_children(&self.potential_children);
                proof {
                    lemma_models_inv_pointwise(candidates@, candidates@.len() as int);
                }
                let m = DataModel::Union(
                    Union {
                        base: self.base.clone(),
                        potential_children: candidates,
                        child: Box::new(child),
                    },
                );
                Ok(m)
            },
            None => Err(ParseError::Children(failures)),
        }
    }

    /// Delegates serialization to the chosen child.
    pub fn do_serialization(&self, ba: &mut BitArray)
        requires
            self.inv(),
            old(ba).inv(),
            old(ba).all_bits().len() + serialized_bits(self@).len() + 9 <= usize::MAX,
        ensures
            final(ba).inv(),
            final(ba).all_bits() == old(ba).all_bits() + serialized_bits(self@),
            final(ba).cursor() == old(ba).cursor(),
        decreases *self,
    {
        proof {
            assert(decreases_to!(*self => self.child));
        }
        self.child.do_serialization(ba);
    }

    /// A union renders as the empty string.
    pub fn debug(&self) -> (r: String)
        ensures
            r@ == debug_str(self@),
    {
        String::new()
    }

    /// Each mutant of the chosen child, wrapped back into a union with
    /// the same candidate list.
    pub fn fuzz(&self) -> (r: Vec<DataModel>)
        requires
            self.inv(),
        ensures
            views_of_seq(r@) == fuzz_views(self@),
            r@.len() == fuzz_views(self@).len(),
            forall|i: int| 0 <= i < r@.len() ==> (#[trigger] r@[i]).inv(),
        decreases *self,
    {
        proof {
            assert(decreases_to!(*self => self.child));
        }
        let mutants = self.child.fuzz();
        let mut r: Vec<DataModel> = Vec::new();
        let n = mutants.len();
        let mut i: usize = 0;
        while i < n
            invariant
                i <= n,
                n == mutants@.len(),
                r@.len() == i,
                self.inv(),
                views_of_seq(mutants@) == fuzz_views((*self.child)@),
                mutants@.len() == fuzz_views((*self.child)@).len(),
                forall|j: int| 0 <= j < n ==> (#[trigger] mutants@[j]).inv(),
                forall|j: int| 0 <= j < i ==> (#[trigger] r@[j])@ == fuzz_views(self@)[j],
                forall|j: int| 0 <= j < i ==> (#[trigger] r@[j]).inv(),
            decreases n - i,
        {
            let candidates = clone_children(&self.potential_children);
            let mutated = Union {
                base: self.base.clone(),
                potential_children: candidates,
                child: Box::new(clone_model(&mutants[i])),
            };
            r.push(DataModel::Union(mutated));
            proof {
                lemma_views_upto(mutants@, n as int);
                assert(fuzz_views(self@)[i as int] == (ModelView::Union {
                    name: self.base.spec_name(),
                    candidates: views_of_seq(self.potential_children@),
                    child: Box::new(fuzz_views((*self.child)@)[i as int]),
                }));
            }
            i = i + 1;
        }
        proof {
            lemma_views_upto(r@, n as int);
            assert(views_of_seq(r@) =~= fuzz_views(self@));
        }
        r
    }

    /// Inserts this union's name and the names of every candidate's
    /// grammar, not only the chosen child's.
    pub fn do_features(&self, features: &mut Vec<String>)
        requires
            self.inv(),
        ensures
            strset(final(features)@) == strset(old(features)@).union(features_of(self@)),
        decreases *self,
    {
        insert_feature(features, self.base.name().as_str());
        let ghost orig = strset(old(features)@);
        let ghost base_set = strset(features@);
        let ghost namev = self.base.spec_name();
        let ghost cands = views_of_seq(self.potential_children@);
        proof {
            lemma_views_upto(self.potential_children@, self.potential_children@.len() as int);
            lemma_models_inv_pointwise(
                self.potential_children@,
                self.potential_children@.len() as int,
            );
            assert(base_set == orig.insert(namev));
        }
        let n = self.potential_children.len();
        let mut i: usize = 0;
        while i < n
            invariant
                i <= n,
                n == self.potential_children@.len(),
                cands.len() == n,
                forall|j: int|
                    0 <= j < n ==> #[trigger] cands[j] == self.potential_children@[j]@,
                forall|j: int| 0 <= j < n ==> (#[trigger] self.potential_children@[j]).inv(),
                strset(features@) == base_set.union(features_of_seq(cands, i as int)),
            decreases n - i,
        {
            proof {
                assert(decreases_to!(*self => self.potential_children));
                assert(decreases_to!(self.potential_children => self.potential_children@));
                assert(decreases_to!(
                    self.potential_children@ => self.potential_children@[i as int]));
            }
            self.potential_children[i].do_features(features);
            proof {
                assert(strset(features@) =~= base_set.union(
                    features_of_seq(cands, (i + 1) as int),
                ));
            }
            i = i + 1;
        }
        proof {
            assert(strset(features@) =~= strset(old(features)@).union(features_of(self@)));
        }
    }

    /// Tallies this union at `depth` and its chosen child one deeper.
    pub fn do_vectorization(&self, fv: &mut FeatureVector, depth: usize)
        requires
            self.inv(),
            old(fv).inv(),
            depth + height_of(self@) <= usize::MAX,
            forall|nm: Seq<char>, d: int|
                old(fv).count(nm, d) + tally_count(self@, nm, d, depth as int) <= u64::MAX,
        ensures
            final(fv).inv(),
            forall|nm: Seq<char>, d: int|
                final(fv).count(nm, d) == old(fv).count(nm, d) + tally_count(
                    self@,
                    nm,
                    d,
                    depth as int,
                ),
            forall|nm: Seq<char>|
                final(fv).has(nm) == (old(fv).has(nm) || tallied_of(self@).contains(nm)),
        decreases *self,
    {
        let ghost namev = self.base.spec_name();
        proof {
            assert(old(fv).count(namev, depth as int) + tally_count(
                self@,
                namev,
                depth as int,
                depth as int,
            ) <= u64::MAX);
        }
        fv.tally(self.base.name().as_str(), depth);
        let ghost mid = *fv;
        proof {
            assert(decreases_to!(*self => self.child));
            assert forall|nm: Seq<char>, d: int|
                mid.count(nm, d) + tally_count((*self.child)@, nm, d, depth as int + 1)
                    <= u64::MAX by {
                assert(old(fv).count(nm, d) + tally_count(self@, nm, d, depth as int)
                    <= u64::MAX);
            }
        }
        self.child.do_vectorization(fv, depth + 1);
        proof {
            assert forall|nm: Seq<char>, d: int|
                fv.count(nm, d) == old(fv).count(nm, d) + tally_count(
                    self@,
                    nm,
                    d,
                    depth as int,
                ) by {
                assert(fv.count(nm, d) == mid.count(nm, d) + tally_count(
                    (*self.child)@,
                    nm,
                    d,
                    depth as int + 1,
                ));
            }
            assert forall|nm: Seq<char>|
                fv.has(nm) == (old(fv).has(nm) || tallied_of(self@).contains(nm)) by {
                assert(fv.has(nm) == (mid.has(nm) || tallied_of((*self.child)@).contains(nm)));
            }
        }
    }
}

impl Clone for Union {
    /// A union with the same abstract value.
    fn clone(&self) -> (r: Self)
        ensures
            r@ == self@,
            self.inv() ==> r.inv(),
    {
        Union {
            base: self.base.clone(),
            potential_children: clone_children(&self.potential_children),
            child: Box::new(clone_model(&*self.child)),
        }
    }
}

/// A deep copy of a candidate list with the same abstract values.
fn clone_children(v: &Vec<DataModel>) -> (r: Vec<DataModel>)
    ensures
        views_of_seq(r@) == views_of_seq(v@),
        r@.len() == v@.len(),
        models_inv(v@, v@.len() as int) ==> models_inv(r@, r@.len() as int),
{
    let mut r: Vec<DataModel> = Vec::new();
    let n = v.len();
    let mut i: usize = 0;
    while i < n
        invariant
            i <= n,
            n == v@.len(),
            r@.len() == i,
            forall|j: int| 0 <= j < i ==> (#[trigger] r@[j])@ == v@[j]@,
            forall|j: int| 0 <= j < i ==> ((#[trigger] v@[j]).inv() ==> r@[j].inv()),
        decreases n - i,
    {
        let c = clone_model(&v[i]);
        r.push(c);
        i = i + 1;
    }
    proof {
        lemma_views_upto(r@, n as int);
        lemma_views_upto(v@, n as int);
        assert(views_of_seq(r@) =~= views_of_seq(v@));
        if models_inv(v@, n as int) {
            crate::data_model::lemma_models_inv_pointwise(v@, n as int);
            crate::data_model::lemma_models_inv_from_pointwise(r@, n as int);
        }
    }
    r
}

} // verus!
