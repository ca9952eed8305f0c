//! The zero-width end-of-input sentinel model.

use vstd::prelude::*;
use vstd::string::StringExecFns;
use crate::bit_array::BitArray;
use crate::context::Context;
use crate::data_model::{DataModel, DataModelBase, views_of_seq};
use crate::model::{ModelView, name_of, with_name, spec_parse, serialized_bits, debug_str, fuzz_views};
use crate::parse_error::ParseError;

verus! {

/// A model that matches exactly the end of the input and writes no bits.
#[derive(Debug)]
pub struct Button {
    /// The shared base carrying the rule name.
    pub base: DataModelBase,
}

impl View for Button {
    type V = ModelView;

    open spec fn view(&self) -> ModelView {
        ModelView::Button { name: self.base.spec_name() }
    }
}

impl Button {
    /// A button under its own rule name.
    pub fn new_no_name() -> (r: Button)
        ensures
            r@ == (ModelView::Button { name: "Button"@ }),
    {
        Button { base: DataModelBase::new("Button".to_owned()) }
    }

    /// A button wrapped as a data model.
    pub fn new() -> (r: DataModel)
        ensures
            r@ == (ModelView::Button { name: "Button"@ }),
            r.inv(),
    {
        DataModel::Button(Self::new_no_name())
    }

    /// Recombination: a button has no structure to mix, so it yields a
    /// copy of itself whatever the partner.
    pub fn breed(&self, _other: &DataModel) -> (r: DataModel)
        ensures
            r@ == self@,
            r.inv(),
    {
        DataModel::Button(self.clone())
    }

    /// Succeeds exactly when no more bits can be read, consuming nothing;
    /// fails without advancing the input otherwise.
    pub fn parse(&self, input: &mut BitArray, ctx: &Context) -> (r: Result<
        DataModel,
        ParseError,
    >)
        requires
            old(input).inv(),
        ensures
            final(input).inv(),
            final(input).all_bits() == old(input).all_bits(),
            final(input).cursor() == old(input).cursor(),
            match r {
                Ok(m2) => {
                    &&& m2.inv()
                    &&& spec_parse(self@, old(input).live()) == Some((m2@, 0int))
                },
                Err(e) => {
                    &&& spec_parse(self@, old(input).live()) is None
                    &&& e matches ParseError::Atomic(c, rem) && c@ == ctx@ && rem.inv()
                        && rem.live() == old(input).live()
                },
            },
    {
        if input.remaining() == 0 {
            Ok(DataModel::Button(self.clone()))
        } else {
            Err(ParseError::Atomic(ctx.clone(), input.clone()))
        }
    }

    /// The literal rule word.
    pub fn debug(&self) -> (r: String)
        ensures
            r@ == debug_str(self@),
    {
        String::from_str("Button")
    }

    /// A button proposes no mutants.
    pub fn fuzz(&self) -> (r: Vec<DataModel>)
        ensures
            views_of_seq(r@) == fuzz_views(self@),
            r@.len() == fuzz_views(self@).len(),
            forall|i: int| 0 <= i < r@.len() ==> (#[trigger] r@[i]).inv(),
    {
        let r: Vec<DataModel> = Vec::new();
        proof {
            assert(views_of_seq(r@) =~= fuzz_views(self@));
        }
        r
    }

    /// The grammar rule name.
    pub fn name(&self) -> (r: &String)
        ensures
            r@ == name_of(self@),
    {
        self.base.name()
    }

    /// Replaces the base with one carrying the new name.
    pub fn set_name(&mut self, name: &str)
        ensures
            final(self)@ == with_name(old(self)@, name@),
    {
        self.base = DataModelBase::new(name.to_owned());
    }

    /// Writes nothing: a button's serialization is empty.
    pub fn do_serialization(&self, ba: &mut BitArray)
        requires
            old(ba).inv(),
        ensures
            final(ba).inv(),
            final(ba).all_bits() == old(ba).all_bits() + serialized_bits(self@),
            final(ba).cursor() == old(ba).cursor(),
    {
        proof {
            assert(old(ba).all_bits() + serialized_bits(self@) =~= old(ba).all_bits());
        }
    }
}

impl Clone for Button {
    /// A button with the same rule name.
    fn clone(&self) -> (r: Self)
        ensures
            r@ == self@,
    {
        Button { base: self.base.clone() }
    }
}

} // verus!
