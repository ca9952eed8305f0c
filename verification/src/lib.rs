//! A recursive, typed data-model framework: grammars are trees of data
//! models that can parse a bitstream, serialize themselves back to bits,
//! render a debug string, propose fuzzing mutants, and tally a feature
//! histogram of their structure.
//!
//! The entry points here build the input cursor and root context and
//! delegate to the root model's own capabilities.

pub mod bit_array;
pub mod button;
pub mod child_map;
pub mod context;
pub mod data_model;
pub mod feature_vector;
pub mod model;
pub mod parse_error;
pub mod u16;
pub mod union;

use vstd::prelude::*;
use crate::bit_array::{BitArray, bits_of};
use crate::context::{Context, Children};
use crate::data_model::{DataModel, clone_model, views_of_seq, lemma_inv_valid};
use crate::feature_vector::{FeatureVector, strset, lemma_strset_take};
use crate::model::{spec_parse, serialized_bits, debug_str, fuzz_views, with_name, tally_count,
    tallied_of, height_of, lemma_serialized_len};
use crate::parse_error::ParseError;

verus! {

/// Parses a byte buffer against a grammar: builds the input cursor and
/// the root context, and hands both to the root model.
pub fn parse(root_model: &DataModel, bytes: Vec<u8>) -> (r: Result<DataModel, ParseError>)
    requires
        root_model.inv(),
        8 * bytes@.len() + 8 <= usize::MAX,
    ensures
        match r {
            Ok(m2) => {
                &&& m2.inv()
                &&& spec_parse(root_model@, bits_of(bytes@)) matches Some((mv, n)) && m2@ == mv
            },
            Err(e) => {
                &&& spec_parse(root_model@, bits_of(bytes@)) is None
                &&& ((*root_model) matches DataModel::Union(u) ==> (e
                    matches ParseError::Children(fs) && fs@.len()
                    == u.potential_children@.len()))
            },
        },
{
    let mut input = BitArray::new(bytes, None);
    proof {
        assert(input.live() =~= input.all_bits());
    }
    let ctx = Context::new(None, Children::Zilch);
    root_model.parse(&mut input, &ctx)
}

/// Serializes a model: a fresh cursor holding exactly the bits the
/// model represents, the last byte zero-padded.
pub fn serialize(model: &DataModel) -> (r: BitArray)
    requires
        model.inv(),
    ensures
        r.inv(),
        r.cursor() == 0,
        r.all_bits() == serialized_bits(model@),
{
    let mut ba = BitArray::new(Vec::new(), None);
    proof {
        lemma_inv_valid(*model);
        lemma_serialized_len(model@);
        assert(ba.all_bits() =~= Seq::<bool>::empty());
    }
    model.do_serialization(&mut ba);
    proof {
        assert(ba.all_bits() =~= serialized_bits(model@));
    }
    ba
}

/// The stable human-readable rendering of a model.
pub fn debug(model: &DataModel) -> (r: String)
    requires
        model.inv(),
    ensures
        r@ == debug_str(model@),
{
    model.debug()
}

/// The finite list of fuzzing mutants a model proposes.
pub fn fuzz(model: &DataModel) -> (r: Vec<DataModel>)
    requires
        model.inv(),
    ensures
        views_of_seq(r@) == fuzz_views(model@),
        r@.len() == fuzz_views(model@).len(),
        forall|i: int| 0 <= i < r@.len() ==> (#[trigger] r@[i]).inv(),
{
    model.fuzz()
}

/// Vectorizes a model tree into a feature histogram whose key universe
/// starts from the given feature names, so that vectors produced under
/// one universe share their keys.
pub fn vectorize(model: &DataModel, feature_universe: &Vec<String>) -> (r: FeatureVector)
    requires
        model.inv(),
        height_of(model@) <= usize::MAX,
        forall|nm: Seq<char>, d: int| tally_count(model@, nm, d, 0) <= u64::MAX,
    ensures
        r.inv(),
        forall|nm: Seq<char>, d: int| r.count(nm, d) == tally_count(model@, nm, d, 0),
        forall|nm: Seq<char>|
            r.has(nm) == (strset(feature_universe@).contains(nm) || tallied_of(
                model@,
            ).contains(nm)),
{
    let mut fv = FeatureVector::new();
    let n = feature_universe.len();
    let mut i: usize = 0;
    proof {
        assert(strset(feature_universe@.take(0)) =~= Set::<Seq<char>>::empty());
    }
    while i < n
        invariant
            i <= n,
            n == feature_universe@.len(),
            fv.inv(),
            forall|nm: Seq<char>, d: int| fv.count(nm, d) == 0,
            forall|nm: Seq<char>|
                fv.has(nm) == strset(feature_universe@.take(i as int)).contains(nm),
        decreases n - i,
    {
        fv.ensure_key(feature_universe[i].as_str());
        proof {
            lemma_strset_take(feature_universe@, i as int);
        }
        i = i + 1;
    }
    proof {
        assert(feature_universe@.take(n as int) =~= feature_universe@);
    }
    model.do_vectorization(&mut fv, 0);
    fv
}

/// A renamed copy of a model; the model given stands untouched.
pub fn set_name(model: &DataModel, name: &str) -> (r: DataModel)
    requires
        model.inv(),
    ensures
        r.inv(),
        r@ == with_name(model@, name@),
{
    let mut m = clone_model(model);
    m.set_name(name);
    m
}

} // verus!
