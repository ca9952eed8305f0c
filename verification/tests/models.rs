use datamodel::bit_array::BitArray;
use datamodel::button::Button;
use datamodel::context::{Children, Context};
use datamodel::data_model::DataModel;
use datamodel::parse_error::ParseError;
use datamodel::u16::U16;
use datamodel::{debug, fuzz, parse, serialize, set_name};

fn as_u16(m: &DataModel) -> &U16 {
    match m {
        DataModel::U16(u) => u,
        _ => panic!("expected an integer leaf"),
    }
}

#[test]
fn u16_parse_round_trip() {
    let model = U16::new();
    let parsed = parse(&model, vec![0xAB, 0xCD]).unwrap();
    assert_eq!(as_u16(&parsed).int_value(), 0xABCD);
    assert_eq!(debug(&parsed), "ABCD");
    let out = serialize(&parsed);
    assert_eq!(out.num_bits(), 16);
    assert_eq!(out.bytes().as_slice(), &[0xAB, 0xCD]);
}

#[test]
fn u16_under_run_fails_cleanly() {
    let model = U16::new();
    let mut input = BitArray::new(vec![0xAB], None);
    let ctx = Context::new(None, Children::Zilch);
    let r = match &model {
        DataModel::U16(u) => u.parse(&mut input, &ctx),
        _ => unreachable!(),
    };
    match r {
        Err(ParseError::Atomic(_, remaining)) => {
            assert_eq!(remaining.remaining(), 8);
        },
        _ => panic!("under-run must fail with an atomic error"),
    }
    assert_eq!(input.remaining(), 8);
}

#[test]
fn u16_at_end_of_stream_fails() {
    let model = U16::new();
    assert!(matches!(parse(&model, Vec::new()), Err(ParseError::Atomic(_, _))));
}

#[test]
fn button_at_end_succeeds() {
    let model = Button::new();
    let parsed = parse(&model, Vec::new()).unwrap();
    assert_eq!(debug(&parsed), "Button");
    let out = serialize(&parsed);
    assert_eq!(out.num_bits(), 0);
    assert!(out.bytes().is_empty());
}

#[test]
fn button_with_data_left_fails() {
    let model = Button::new();
    match parse(&model, vec![0x00]) {
        Err(ParseError::Atomic(_, remaining)) => {
            assert_eq!(remaining.remaining(), 8);
        },
        _ => panic!("a button must reject leftover input"),
    }
}

#[test]
fn parse_failure_leaves_cursor_in_place() {
    let model = U16::new();
    let mut input = BitArray::new(vec![0xAB, 0xCD], None);
    input.eat(16);
    let ctx = Context::new(None, Children::Zilch);
    let r = match &model {
        DataModel::U16(u) => u.parse(&mut input, &ctx),
        _ => unreachable!(),
    };
    assert!(r.is_err());
    assert_eq!(input.remaining(), 0);
    assert_eq!(input.num_bits(), 16);
}

#[test]
fn u16_from_value_decodes_back() {
    let leaf = U16::from_u16(0x1234);
    assert_eq!(leaf.int_value(), 0x1234);
    assert_eq!(leaf.debug(), "1234");
    assert_eq!(leaf.name(), "U16");
}

#[test]
fn u16_debug_has_no_leading_zeros() {
    assert_eq!(U16::from_u16(0).debug(), "0");
    assert_eq!(U16::from_u16(0x0012).debug(), "12");
    assert_eq!(U16::from_u16(0xFFFF).debug(), "FFFF");
}

#[test]
fn u16_fuzz_yields_boundary_values() {
    let model = U16::new();
    let mutants = fuzz(&model);
    assert_eq!(mutants.len(), 2);
    assert_eq!(as_u16(&mutants[0]).int_value(), 0xFFFF);
    assert_eq!(as_u16(&mutants[1]).int_value(), 0xAAAA_u16 as i32);
}

#[test]
fn button_fuzz_yields_nothing() {
    let model = Button::new();
    assert!(fuzz(&model).is_empty());
}

#[test]
fn button_breed_clones_itself() {
    let b = Button::new_no_name();
    let partner = U16::new();
    let bred = b.breed(&partner);
    assert!(matches!(bred, DataModel::Button(_)));
}

#[test]
fn set_name_returns_renamed_copy() {
    let model = U16::new();
    let renamed = set_name(&model, "Length");
    assert_eq!(renamed.name(), "Length");
    assert_eq!(model.name(), "U16");
}

#[test]
fn u16_serialize_after_value_construction() {
    let leaf = DataModel::U16(U16::from_u16(0xBEEF));
    let out = serialize(&leaf);
    assert_eq!(out.bytes().as_slice(), &[0xBE, 0xEF]);
}
