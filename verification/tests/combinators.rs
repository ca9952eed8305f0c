use datamodel::button::Button;
use datamodel::child_map::ChildMap;
use datamodel::data_model::DataModel;
use datamodel::feature_vector::FeatureVector;
use datamodel::parse_error::ParseError;
use datamodel::u16::U16;
use datamodel::union::Union;
use datamodel::{parse, serialize, vectorize};

fn child_of(m: &DataModel) -> &DataModel {
    match m {
        DataModel::Union(u) => u.child(),
        _ => panic!("expected a union"),
    }
}

fn int_of(m: &DataModel) -> i32 {
    match m {
        DataModel::U16(u) => u.int_value(),
        _ => panic!("expected an integer leaf"),
    }
}

#[test]
fn union_disambiguates_by_length() {
    let model = Union::new("IntOrEnd", vec![U16::new(), Button::new()]);
    let parsed = parse(&model, vec![0x12, 0x34]).unwrap();
    assert_eq!(int_of(child_of(&parsed)), 0x1234);
    let out = serialize(&parsed);
    assert_eq!(out.bytes().as_slice(), &[0x12, 0x34]);
}

#[test]
fn union_chooses_button_on_empty_input() {
    let model = Union::new("IntOrEnd", vec![U16::new(), Button::new()]);
    let parsed = parse(&model, Vec::new()).unwrap();
    assert!(matches!(child_of(&parsed), DataModel::Button(_)));
    assert_eq!(serialize(&parsed).num_bits(), 0);
}

#[test]
fn union_with_zero_candidates_always_fails() {
    let model = DataModel::Union(Union::new_no_name(Vec::new(), Button::new()));
    match parse(&model, Vec::new()) {
        Err(ParseError::Children(failures)) => assert!(failures.is_empty()),
        _ => panic!("an empty union must fail with an empty failure list"),
    }
    match parse(&model, vec![0xAB]) {
        Err(ParseError::Children(failures)) => assert!(failures.is_empty()),
        _ => panic!("an empty union must fail with an empty failure list"),
    }
}

#[test]
fn union_failure_collects_one_error_per_candidate() {
    let model = Union::new("IntOrEnd", vec![U16::new(), Button::new()]);
    match parse(&model, vec![0xAB]) {
        Err(ParseError::Children(failures)) => assert_eq!(failures.len(), 2),
        _ => panic!("a union must aggregate its candidates' failures"),
    }
}

#[test]
fn union_ambiguity_selects_last_declared() {
    let mut a = U16::from_u16(0);
    a.set_name("U16_variant_A");
    let mut b = U16::from_u16(0);
    b.set_name("U16_variant_B");
    let model = Union::new(
        "Ambiguous",
        vec![DataModel::U16(a), DataModel::U16(b)],
    );
    let parsed = parse(&model, vec![0x00, 0x00]).unwrap();
    let chosen = child_of(&parsed);
    assert_eq!(chosen.name(), "U16_variant_B");
    assert_eq!(int_of(chosen), 0);
}

#[test]
fn union_round_trips_chosen_branch() {
    let inner = Union::new("Inner", vec![U16::new(), Button::new()]);
    let model = Union::new("Outer", vec![inner, Button::new()]);
    let parsed = parse(&model, vec![0xCA, 0xFE]).unwrap();
    let out = serialize(&parsed);
    assert_eq!(out.num_bits(), 16);
    assert_eq!(out.bytes().as_slice(), &[0xCA, 0xFE]);
}

#[test]
fn union_fuzz_wraps_child_mutants() {
    let model = Union::new("IntOrEnd", vec![U16::new(), Button::new()]);
    let parsed = parse(&model, vec![0x00, 0x01]).unwrap();
    let mutants = match &parsed {
        DataModel::Union(u) => u.fuzz(),
        _ => unreachable!(),
    };
    assert_eq!(mutants.len(), 2);
    assert_eq!(int_of(child_of(&mutants[0])), 0xFFFF);
    assert_eq!(int_of(child_of(&mutants[1])), 0xAAAA_u16 as i32);
}

#[test]
fn every_tallied_name_is_a_discovered_feature() {
    let model = Union::new("IntOrEnd", vec![U16::new(), Button::new()]);
    let parsed = parse(&model, vec![0x12, 0x34]).unwrap();
    let mut universe: Vec<String> = Vec::new();
    parsed.do_features(&mut universe);
    assert!(universe.iter().any(|n| n == "IntOrEnd"));
    assert!(universe.iter().any(|n| n == "U16"));
    assert!(universe.iter().any(|n| n == "Button"));
    let fv = vectorize(&parsed, &universe);
    assert_eq!(fv.get_count("IntOrEnd", 0), 1);
    assert_eq!(fv.get_count("U16", 1), 1);
    assert_eq!(fv.get_count("Button", 1), 0);
}

#[test]
fn vectorize_counts_depths_separately() {
    let inner = Union::new("Wrap", vec![U16::new()]);
    let model = Union::new("Wrap", vec![inner]);
    let parsed = parse(&model, vec![0x00, 0x00]).unwrap();
    let fv = vectorize(&parsed, &Vec::<String>::new());
    assert_eq!(fv.get_count("Wrap", 0), 1);
    assert_eq!(fv.get_count("Wrap", 1), 1);
    assert_eq!(fv.get_count("U16", 2), 1);
    assert_eq!(fv.get_count("U16", 0), 0);
}

#[test]
fn feature_vector_tally_grows_rows() {
    let mut fv = FeatureVector::new();
    fv.tally("k", 3);
    fv.tally("k", 3);
    fv.tally("k", 0);
    assert_eq!(fv.get_count("k", 3), 2);
    assert_eq!(fv.get_count("k", 0), 1);
    assert_eq!(fv.get_count("k", 1), 0);
    assert_eq!(fv.get_count("other", 3), 0);
}

#[test]
fn child_map_keeps_insertion_order() {
    let cm = ChildMap::new(vec![
        ("len".to_string(), U16::new()),
        ("end".to_string(), Button::new()),
    ]);
    let vals = cm.vals();
    assert_eq!(vals.len(), 2);
    assert!(matches!(vals[0], DataModel::U16(_)));
    assert!(matches!(vals[1], DataModel::Button(_)));
    assert!(matches!(cm.get("len"), Some(DataModel::U16(_))));
    assert!(matches!(cm.get("end"), Some(DataModel::Button(_))));
    assert!(cm.get("missing").is_none());
}

#[test]
fn child_map_empty_shares_schema_without_values() {
    let cm = ChildMap::new(vec![("len".to_string(), U16::new())]);
    let mut fresh = cm.empty();
    assert!(fresh.vals().is_empty());
    assert!(fresh.get("len").is_none());
    fresh.push(U16::new());
    assert!(matches!(fresh.get("len"), Some(DataModel::U16(_))));
}

#[test]
fn child_map_set_ind_replaces_by_position() {
    let mut cm = ChildMap::new(vec![("slot".to_string(), U16::new())]);
    cm.set_ind(0, Button::new());
    assert!(matches!(cm.get("slot"), Some(DataModel::Button(_))));
}

#[test]
fn child_map_clone_shares_schema_and_values() {
    let cm = ChildMap::new(vec![("len".to_string(), U16::new())]);
    let copy = cm.clone();
    assert!(matches!(copy.get("len"), Some(DataModel::U16(_))));
    assert_eq!(copy.vals().len(), cm.vals().len());
}
