//! The sixteen-bit big-endian integer leaf model.

use vstd::prelude::*;
use vstd::string::StringExecFns;
use vstd::arithmetic::power2::lemma2_to64;
use crate::bit_array::{BitArray, bit_of_byte, value_of, lemma_value_of_bound};
use crate::context::Context;
use crate::data_model::{DataModel, DataModelBase, views_of_seq};
use crate::model::{ModelView, name_of, with_name, spec_parse, serialized_bits, debug_str,
    fuzz_views, u16_bits, hex_render, hex_digit};
use crate::parse_error::ParseError;

verus! {

/// A model that matches exactly sixteen bits and decodes them most
/// significant bit first.
#[derive(Debug)]
pub struct U16 {
    /// The shared base carrying the rule name.
    pub base: DataModelBase,
    /// The sixteen parsed bits.
    pub data: BitArray,
}

impl View for U16 {
    type V = ModelView;

    open spec fn view(&self) -> ModelView {
        ModelView::U16 { name: self.base.spec_name(), bits: self.data.live() }
    }
}

impl U16 {
    /// Well-formedness: the payload holds exactly sixteen live bits.
    pub open spec fn inv(self) -> bool {
        self.data.inv() && self.data.live().len() == 16
    }

    /// A zero-valued integer leaf wrapped as a data model.
    pub fn new() -> (r: DataModel)
        ensures
            r@ == (ModelView::U16 { name: "U16"@, bits: u16_bits(0) }),
            r.inv(),
    {
        DataModel::U16(Self::from_u16(0x00))
    }

    /// An integer leaf holding the given value's sixteen bits.
    pub fn from_u16(data: u16) -> (r: U16)
        ensures
            r@ == (ModelView::U16 { name: "U16"@, bits: u16_bits(data) }),
            r.inv(),
    {
        let b0 = (data >> 8) as u8;
        let b1 = (data & 0x00FF) as u8;
        let ba = BitArray::new(vec![b0, b1], None);
        proof {
            assert forall|i: int| 0 <= i < 16 implies ba.all_bits()[i] == u16_bits(data)[i] by {
                lemma_u16_bit(data, i as u16);
                if i < 8 {
                    assert(ba.all_bits()[i] == bit_of_byte(b0, i));
                } else {
                    assert(ba.all_bits()[i] == bit_of_byte(b1, i - 8));
                }
            }
            assert(ba.live() =~= ba.all_bits());
            assert(ba.live() =~= u16_bits(data));
        }
        U16 { base: DataModelBase::new("U16".to_owned()), data: ba }
    }

    /// The value of the stored bits, most significant bit first.
    pub fn int_value(&self) -> (r: i32)
        requires
            self.inv(),
        ensures
            r == value_of(self.data.live()),
            0 <= r < 65536,
    {
        let v = self.data.peek(16);
        proof {
            assert(self.data.live().take(16) =~= self.data.live());
            lemma_value_of_bound(self.data.live());
            lemma2_to64();
        }
        v as i32
    }

    /// Consumes sixteen bits and returns a leaf carrying them; fails
    /// without advancing when fewer remain.
    pub fn parse(&self, input: &mut BitArray, ctx: &Context) -> (r: Result<
        DataModel,
        ParseError,
    >)
        requires
            old(input).inv(),
        ensures
            final(input).inv(),
            final(input).all_bits() == old(input).all_bits(),
            match r {
                Ok(m2) => {
                    &&& m2.inv()
                    &&& spec_parse(self@, old(input).live()) == Some((m2@, 16int))
                    &&& final(input).cursor() == old(input).cursor() + 16
                },
                Err(e) => {
                    &&& final(input).cursor() == old(input).cursor()
                    &&& spec_parse(self@, old(input).live()) is None
                    &&& e matches ParseError::Atomic(c, rem) && c@ == ctx@ && rem.inv()
                        && rem.live() == old(input).live()
                },
            },
    {
        let ghost pre = *input;
        match input.eat(16) {
            Some(data) => {
                proof {
                    assert(data.live() =~= data.all_bits());
                    assert(data.live() =~= pre.live().take(16));
                }
                let m = U16 { base: self.base.clone(), data };
                Ok(DataModel::U16(m))
            },
            None => Err(ParseError::Atomic(ctx.clone(), input.clone())),
        }
    }

    /// The stored value in uppercase hexadecimal.
    pub fn debug(&self) -> (r: String)
        requires
            self.inv(),
        ensures
            r@ == debug_str(self@),
    {
        let v = self.data.peek(16);
        proof {
            assert(self.data.live().take(16) =~= self.data.live());
        }
        hex_string(v)
    }

    /// Two boundary mutants: all ones, and alternating bits.
    pub fn fuzz(&self) -> (r: Vec<DataModel>)
        ensures
            views_of_seq(r@) == fuzz_views(self@),
            r@.len() == fuzz_views(self@).len(),
            forall|i: int| 0 <= i < r@.len() ==> (#[trigger] r@[i]).inv(),
    {
        let mut r: Vec<DataModel> = Vec::new();
        r.push(DataModel::U16(U16::from_u16(0xFFFF)));
        r.push(DataModel::U16(U16::from_u16(0xAAAA)));
        proof {
            crate::data_model::lemma_views_upto(r@, 2);
            assert(views_of_seq(r@) =~= fuzz_views(self@));
        }
        r
    }

    /// The grammar rule name.
    pub fn name(&self) -> (r: &String)
        ensures
            r@ == name_of(self@),
    {
        self.base.name()
    }

    /// Replaces the base with one carrying the new name.
    pub fn set_name(&mut self, name: &str)
        ensures
            final(self)@ == with_name(old(self)@, name@),
            final(self).inv() == old(self).inv(),
    {
        self.base = DataModelBase::new(name.to_owned());
    }

    /// Writes the stored sixteen bits.
    pub fn do_serialization(&self, ba: &mut BitArray)
        requires
            self.inv(),
            old(ba).inv(),
            old(ba).all_bits().len() + serialized_bits(self@).len() + 9 <= usize::MAX,
        ensures
            final(ba).inv(),
            final(ba).all_bits() == old(ba).all_bits() + serialized_bits(self@),
            final(ba).cursor() == old(ba).cursor(),
    {
        ba.extend(&self.data);
    }
}

impl Clone for U16 {
    /// A leaf with the same rule name and the same bits.
    fn clone(&self) -> (r: Self)
        ensures
            r@ == self@,
            self.inv() ==> r.inv(),
    {
        U16 { base: self.base.clone(), data: self.data.clone() }
    }
}

/// How each of an integer's sixteen bits reads from its two bytes.
proof fn lemma_u16_bit(d: u16, k: u16)
    by (bit_vector)
    requires
        k < 16,
    ensures
        k < 8 ==> ((((d >> 8) as u8) >> ((7 - k) as u8)) & 1 == 1) == (((d >> ((15
            - k) as u16)) & 1) == 1),
        8 <= k ==> ((((d & 0x00FF) as u8) >> ((15 - k) as u8)) & 1 == 1) == (((d >> ((15
            - k) as u16)) & 1) == 1),
{
}

/// A number in uppercase hexadecimal with no leading zeros.
fn hex_string(v: u64) -> (s: String)
    ensures
        s@ == hex_render(v as nat),
    decreases v,
{
    if v < 16 {
        hex_digit_string(v)
    } else {
        let mut s = hex_string(v / 16);
        let d = hex_digit_string(v % 16);
        s.append(d.as_str());
        proof {
            assert(s@ =~= hex_render((v / 16) as nat).push(hex_digit((v % 16) as int)));
        }
        s
    }
}

/// One uppercase hexadecimal digit.
fn hex_digit_string(d: u64) -> (s: String)
    requires
        d < 16,
    ensures
        s@ == seq![hex_digit(d as int)],
{
    let s = if d == 0 {
        "0"
    } else if d == 1 {
        "1"
    } else if d == 2 {
        "2"
    } else if d == 3 {
        "3"
    } else if d == 4 {
        "4"
    } else if d == 5 {
        "5"
    } else if d == 6 {
        "6"
    } else if d == 7 {
        "7"
    } else if d == 8 {
        "8"
    } else if d == 9 {
        "9"
    } else if d == 10 {
        "A"
    } else if d == 11 {
        "B"
    } else if d == 12 {
        "C"
    } else if d == 13 {
        "D"
    } else if d == 14 {
        "E"
    } else {
        "F"
    };
    proof {
        reveal_strlit("0");
        reveal_strlit("1");
        reveal_strlit("2");
        reveal_strlit("3");
        reveal_strlit("4");
        reveal_strlit("5");
        reveal_strlit("6");
        reveal_strlit("7");
        reveal_strlit("8");
        reveal_strlit("9");
        reveal_strlit("A");
        reveal_strlit("B");
        reveal_strlit("C");
        reveal_strlit("D");
        reveal_strlit("E");
        reveal_strlit("F");
        assert(s@ =~= seq![hex_digit(d as int)]);
    }
    String::from_str(s)
}

} // verus!
