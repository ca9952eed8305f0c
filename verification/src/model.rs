//! The mathematical model of a data-model tree.
//!
//! `ModelView` is the abstract value of a data model: its rule name, its
//! parsed bits (for integer leaves), and its candidate list and chosen
//! child (for unions). The spec functions here say what parsing,
//! serializing, rendering, fuzzing and vectorizing mean on such values;
//! the executable types are proved against them.

use vstd::prelude::*;
use crate::bit_array::value_of;

verus! {

/// The abstract value of a data model.
pub enum ModelView {
    /// A zero-width end-of-input sentinel.
    Button { name: Seq<char> },
    /// A sixteen-bit big-endian integer leaf carrying its parsed bits.
    U16 { name: Seq<char>, bits: Seq<bool> },
    /// An alternation over a fixed candidate list with one chosen child.
    Union { name: Seq<char>, candidates: Seq<ModelView>, child: Box<ModelView> },
}

/// The grammar rule name a model carries.
pub open spec fn name_of(m: ModelView) -> Seq<char> {
    match m {
        ModelView::Button { name } => name,
        ModelView::U16 { name, .. } => name,
        ModelView::Union { name, .. } => name,
    }
}

/// The same model under another rule name.
pub open spec fn with_name(m: ModelView, n: Seq<char>) -> ModelView {
    match m {
        ModelView::Button { .. } => ModelView::Button { name: n },
        ModelView::U16 { bits, .. } => ModelView::U16 { name: n, bits },
        ModelView::Union { candidates, child, .. } => ModelView::Union {
            name: n,
            candidates,
            child,
        },
    }
}

/// Validity of a model value: an integer leaf holds exactly sixteen bits,
/// and a union's child and candidates are valid in turn.
pub open spec fn valid_model(m: ModelView) -> bool
    decreases m, 0int,
{
    match m {
        ModelView::Button { .. } => true,
        ModelView::U16 { bits, .. } => bits.len() == 16,
        ModelView::Union { candidates, child, .. } => valid_model(*child) && valid_models(
            candidates,
            candidates.len() as int,
        ),
    }
}

/// Validity of the first `k` models of a list.
pub open spec fn valid_models(s: Seq<ModelView>, k: int) -> bool
    decreases s, k,
{
    if k <= 0 || s.len() < k {
        true
    } else {
        valid_models(s, k - 1) && valid_model(s[k - 1])
    }
}

/// Validity of a list's first `k` models depends on those alone.
pub proof fn lemma_valid_models_agree(a: Seq<ModelView>, b: Seq<ModelView>, k: int)
    requires
        0 <= k <= a.len(),
        k <= b.len(),
        forall|i: int| 0 <= i < k ==> a[i] == b[i],
    ensures
        valid_models(a, k) == valid_models(b, k),
    decreases k,
{
    if k > 0 {
        lemma_valid_models_agree(a, b, k - 1);
        assert(a[k - 1] == b[k - 1]);
    }
}

/// What parsing a model against a bit string yields: the parsed model and
/// the number of bits consumed, or nothing when the input does not match.
pub open spec fn spec_parse(m: ModelView, bits: Seq<bool>) -> Option<(ModelView, int)>
    decreases m, 0int,
{
    match m {
        ModelView::Button { .. } => if bits.len() == 0 {
            Some((m, 0int))
        } else {
            None
        },
        ModelView::U16 { name, .. } => if bits.len() >= 16 {
            Some((ModelView::U16 { name, bits: bits.take(16) }, 16int))
        } else {
            None
        },
        ModelView::Union { name, candidates, .. } => union_parse_from(
            name,
            candidates,
            candidates.len() as int,
            bits,
        ),
    }
}

/// Parsing a union restricted to its first `k` candidates, keeping the
/// last declared candidate that succeeds.
pub open spec fn union_parse_from(
    name: Seq<char>,
    candidates: Seq<ModelView>,
    k: int,
    bits: Seq<bool>,
) -> Option<(ModelView, int)>
    decreases candidates, k,
{
    if k <= 0 || candidates.len() < k {
        None
    } else {
        match spec_parse(candidates[k - 1], bits) {
            Some((c, n)) => Some(
                (ModelView::Union { name, candidates, child: Box::new(c) }, n),
            ),
            None => union_parse_from(name, candidates, k - 1, bits),
        }
    }
}

/// A successful parse consumes between zero bits and the whole input.
pub proof fn lemma_spec_parse_consumed(m: ModelView, bits: Seq<bool>)
    ensures
        spec_parse(m, bits) matches Some((m2, n)) ==> 0 <= n <= bits.len(),
    decreases m, 0int,
{
    match m {
        ModelView::Button { .. } => {},
        ModelView::U16 { .. } => {},
        ModelView::Union { name, candidates, .. } => {
            lemma_union_parse_consumed(name, candidates, candidates.len() as int, bits);
        },
    }
}

/// The union case of the consumed-bits bound.
pub proof fn lemma_union_parse_consumed(
    name: Seq<char>,
    candidates: Seq<ModelView>,
    k: int,
    bits: Seq<bool>,
)
    ensures
        union_parse_from(name, candidates, k, bits) matches Some((m2, n)) ==> 0 <= n
            <= bits.len(),
    decreases candidates, k,
{
    if !(k <= 0 || candidates.len() < k) {
        lemma_spec_parse_consumed(candidates[k - 1], bits);
        lemma_union_parse_consumed(name, candidates, k - 1, bits);
    }
}

/// The bits a parsed model writes back out: a button writes nothing, an
/// integer leaf its bits, a union whatever its chosen child writes.
pub open spec fn serialized_bits(m: ModelView) -> Seq<bool>
    decreases m,
{
    match m {
        ModelView::Button { .. } => Seq::empty(),
        ModelView::U16 { bits, .. } => bits,
        ModelView::Union { child, .. } => serialized_bits(*child),
    }
}

/// The sixteen bits of an integer, most significant first.
pub open spec fn u16_bits(d: u16) -> Seq<bool> {
    Seq::new(16, |i: int| (d >> ((15 - i) as u16)) & 1 == 1)
}

/// An integer's sixteen bits decode back to the integer.
pub proof fn lemma_u16_bits_value(d: u16)
    ensures
        value_of(u16_bits(d)) == d,
{
    lemma_u16_bits_value_prefix(d, 16);
    assert(u16_bits(d).take(16) =~= u16_bits(d));
    assert(d >> 0u16 == d) by (bit_vector);
}

/// The first `w` of an integer's bits decode to its upper `w` bits.
proof fn lemma_u16_bits_value_prefix(d: u16, w: int)
    requires
        0 <= w <= 16,
    ensures
        value_of(u16_bits(d).take(w)) == (if w == 0 {
            0u16
        } else {
            d >> ((16 - w) as u16)
        }),
    decreases w,
{
    if w == 0 {
        assert(u16_bits(d).take(0) =~= Seq::<bool>::empty());
    } else {
        lemma_u16_bits_value_prefix(d, w - 1);
        let p = u16_bits(d).take(w);
        let m = (16 - w) as u16;
        assert(p.drop_last() =~= u16_bits(d).take(w - 1));
        assert(p.last() == ((d >> m) & 1 == 1));
        assert(((d >> m) & 1) == 0 || ((d >> m) & 1) == 1) by (bit_vector);
        let b: nat = if p.last() {
            1nat
        } else {
            0nat
        };
        assert(value_of(p) == 2 * value_of(p.drop_last()) + b);
        assert(b == (d >> m) & 1);
        if w == 1 {
            assert(value_of(p.drop_last()) == 0);
            assert((d >> 15u16) & 1 == d >> 15u16) by (bit_vector);
        } else {
            assert(value_of(p.drop_last()) == d >> ((m + 1) as u16));
            assert(m < 15 ==> 2 * ((d >> ((m + 1) as u16)) as int) + (((d >> m) & 1) as int) == (
            (d >> m) as int)) by (bit_vector);
        }
    }
}

/// An uppercase hexadecimal digit.
pub open spec fn hex_digit(d: int) -> char {
    if d == 0 {
        '0'
    } else if d == 1 {
        '1'
    } else if d == 2 {
        '2'
    } else if d == 3 {
        '3'
    } else if d == 4 {
        '4'
    } else if d == 5 {
        '5'
    } else if d == 6 {
        '6'
    } else if d == 7 {
        '7'
    } else if d == 8 {
        '8'
    } else if d == 9 {
        '9'
    } else if d == 10 {
        'A'
    } else if d == 11 {
        'B'
    } else if d == 12 {
        'C'
    } else if d == 13 {
        'D'
    } else if d == 14 {
        'E'
    } else {
        'F'
    }
}

/// A number rendered in uppercase hexadecimal with no leading zeros.
pub open spec fn hex_render(v: nat) -> Seq<char>
    decreases v,
{
    if v < 16 {
        seq![hex_digit(v as int)]
    } else {
        hex_render((v / 16) as nat).push(hex_digit((v % 16) as int))
    }
}

/// What the debug rendering of a model is: buttons print their literal
/// rule word, integer leaves their value in hexadecimal, unions nothing.
pub open spec fn debug_str(m: ModelView) -> Seq<char> {
    match m {
        ModelView::Button { .. } => "Button"@,
        ModelView::U16 { bits, .. } => hex_render(value_of(bits)),
        ModelView::Union { .. } => Seq::empty(),
    }
}

/// The fuzzing mutants of a model: none for a button, two boundary
/// values for an integer leaf, and for a union each mutant of its child
/// wrapped back into the same candidate list.
pub open spec fn fuzz_views(m: ModelView) -> Seq<ModelView>
    decreases m,
{
    match m {
        ModelView::Button { .. } => Seq::empty(),
        ModelView::U16 { .. } => seq![
            ModelView::U16 { name: "U16"@, bits: u16_bits(0xFFFF) },
            ModelView::U16 { name: "U16"@, bits: u16_bits(0xAAAA) },
        ],
        ModelView::Union { name, candidates, child } => fuzz_views(*child).map_values(
            |c: ModelView| ModelView::Union { name, candidates, child: Box::new(c) },
        ),
    }
}

/// Every feature name a model's grammar can reach: its own name, and for
/// a union the names of every candidate's grammar.
pub open spec fn features_of(m: ModelView) -> Set<Seq<char>>
    decreases m, 0int,
{
    match m {
        ModelView::Button { name } => Set::empty().insert(name),
        ModelView::U16 { name, .. } => Set::empty().insert(name),
        ModelView::Union { name, candidates, .. } => features_of_seq(
            candidates,
            candidates.len() as int,
        ).insert(name),
    }
}

/// The feature names of the first `k` models of a list.
pub open spec fn features_of_seq(s: Seq<ModelView>, k: int) -> Set<Seq<char>>
    decreases s, k,
{
    if k <= 0 || s.len() < k {
        Set::empty()
    } else {
        features_of_seq(s, k - 1).union(features_of(s[k - 1]))
    }
}

/// Every name vectorization tallies on a model: its own name and, for a
/// union, the names tallied on its chosen child.
pub open spec fn tallied_of(m: ModelView) -> Set<Seq<char>>
    decreases m,
{
    match m {
        ModelView::Button { name } => Set::empty().insert(name),
        ModelView::U16 { name, .. } => Set::empty().insert(name),
        ModelView::Union { name, child, .. } => tallied_of(*child).insert(name),
    }
}

/// How many times vectorizing `m` with its root at `depth` tallies the
/// name `n` at depth `d`.
pub open spec fn tally_count(m: ModelView, n: Seq<char>, d: int, depth: int) -> nat
    decreases m,
{
    let own: nat = if n == name_of(m) && d == depth {
        1nat
    } else {
        0nat
    };
    match m {
        ModelView::Button { .. } => own,
        ModelView::U16 { .. } => own,
        ModelView::Union { child, .. } => own + tally_count(*child, n, d, depth + 1),
    }
}

/// The height of a model tree along its chosen children: how far depth
/// can grow during vectorization.
pub open spec fn height_of(m: ModelView) -> nat
    decreases m,
{
    match m {
        ModelView::Button { .. } => 1,
        ModelView::U16 { .. } => 1,
        ModelView::Union { child, .. } => 1 + height_of(*child),
    }
}

/// A valid model serializes to at most sixteen bits: a button writes
/// none, an integer leaf sixteen, a union what its child writes.
pub proof fn lemma_serialized_len(m: ModelView)
    requires
        valid_model(m),
    ensures
        serialized_bits(m).len() <= 16,
    decreases m,
{
    match m {
        ModelView::Button { .. } => {},
        ModelView::U16 { .. } => {},
        ModelView::Union { child, .. } => {
            lemma_serialized_len(*child);
        },
    }
}

/// Round-trip law: whatever a successful parse consumed, serializing
/// the parsed model writes back exactly that prefix of the input.
pub proof fn lemma_parse_serialize_round_trip(m: ModelView, bits: Seq<bool>)
    ensures
        spec_parse(m, bits) matches Some((m2, n)) ==> serialized_bits(m2) == bits.take(n),
    decreases m, 0int,
{
    match m {
        ModelView::Button { .. } => {
            if bits.len() == 0 {
                assert(serialized_bits(m) =~= bits.take(0));
            }
        },
        ModelView::U16 { .. } => {},
        ModelView::Union { name, candidates, .. } => {
            lemma_union_round_trip(name, candidates, candidates.len() as int, bits);
        },
    }
}

/// The union case of the round-trip law.
pub proof fn lemma_union_round_trip(
    name: Seq<char>,
    candidates: Seq<ModelView>,
    k: int,
    bits: Seq<bool>,
)
    ensures
        union_parse_from(name, candidates, k, bits) matches Some((m2, n)) ==> serialized_bits(
            m2,
        ) == bits.take(n),
    decreases candidates, k,
{
    if !(k <= 0 || candidates.len() < k) {
        lemma_parse_serialize_round_trip(candidates[k - 1], bits);
        lemma_union_round_trip(name, candidates, k - 1, bits);
    }
}

/// A union's chosen child tallies no name its candidate list cannot
/// reach: the shape every freshly built or parsed tree has.
pub open spec fn covered(m: ModelView) -> bool
    decreases m, 0int,
{
    match m {
        ModelView::Button { .. } => true,
        ModelView::U16 { .. } => true,
        ModelView::Union { candidates, child, .. } => {
            &&& covered_seq(candidates, candidates.len() as int)
            &&& covered(*child)
            &&& tallied_of(*child).subset_of(
                features_of_seq(candidates, candidates.len() as int),
            )
        },
    }
}

/// Coverage of the first `k` models of a list.
pub open spec fn covered_seq(s: Seq<ModelView>, k: int) -> bool
    decreases s, k,
{
    if k <= 0 || s.len() < k {
        true
    } else {
        covered_seq(s, k - 1) && covered(s[k - 1])
    }
}

/// A member's features are among the features of the whole list.
pub proof fn lemma_features_of_seq_member(s: Seq<ModelView>, k: int, j: int)
    requires
        0 <= j < k <= s.len(),
    ensures
        features_of(s[j]).subset_of(features_of_seq(s, k)),
    decreases k,
{
    if j < k - 1 {
        lemma_features_of_seq_member(s, k - 1, j);
    }
}

/// A member of a covered list is covered.
pub proof fn lemma_covered_seq_member(s: Seq<ModelView>, k: int, j: int)
    requires
        0 <= j < k <= s.len(),
        covered_seq(s, k),
    ensures
        covered(s[j]),
    decreases k,
{
    if j < k - 1 {
        lemma_covered_seq_member(s, k - 1, j);
    }
}

/// Feature universality law: on a covered model, every name that
/// vectorization tallies is among the names feature discovery finds.
pub proof fn lemma_feature_universality(m: ModelView)
    requires
        covered(m),
    ensures
        tallied_of(m).subset_of(features_of(m)),
{
    match m {
        ModelView::Button { .. } => {},
        ModelView::U16 { .. } => {},
        ModelView::Union { name, candidates, child } => {
            assert forall|s: Seq<char>| tallied_of(m).contains(s) implies features_of(
                m,
            ).contains(s) by {
                if s != name {
                    assert(tallied_of(*child).contains(s));
                }
            }
        },
    }
}

/// Parsing preserves the rule name, the feature universe, and coverage.
pub proof fn lemma_parse_preserves(m: ModelView, bits: Seq<bool>)
    ensures
        spec_parse(m, bits) matches Some((m2, n)) ==> name_of(m2) == name_of(m)
            && features_of(m2) == features_of(m) && (covered(m) ==> covered(m2)),
    decreases m, 0int,
{
    match m {
        ModelView::Button { .. } => {},
        ModelView::U16 { .. } => {},
        ModelView::Union { name, candidates, .. } => {
            lemma_union_parse_shape(name, candidates, candidates.len() as int, bits);
            if spec_parse(m, bits) is Some {
                let (m2, n) = spec_parse(m, bits)->Some_0;
                let j = choose|j: int|
                    0 <= j < candidates.len() && (spec_parse(
                        #[trigger] candidates[j],
                        bits,
                    ) matches Some((c, nn)) && m2 == (ModelView::Union {
                        name,
                        candidates,
                        child: Box::new(c),
                    }) && nn == n);
                let (c, nn) = spec_parse(candidates[j], bits)->Some_0;
                lemma_parse_preserves(candidates[j], bits);
                if covered(m) {
                    lemma_covered_seq_member(candidates, candidates.len() as int, j);
                    lemma_feature_universality(c);
                    lemma_features_of_seq_member(candidates, candidates.len() as int, j);
                }
            }
        },
    }
}

/// A successful union parse keeps the name and candidate list and takes
/// its child from some candidate's parse.
pub proof fn lemma_union_parse_shape(
    name: Seq<char>,
    candidates: Seq<ModelView>,
    k: int,
    bits: Seq<bool>,
)
    requires
        k <= candidates.len(),
    ensures
        union_parse_from(name, candidates, k, bits) matches Some((m2, n)) ==> exists|j: int|
            0 <= j < k && (spec_parse(#[trigger] candidates[j], bits) matches Some((c, nn))
                && m2 == (ModelView::Union { name, candidates, child: Box::new(c) }) && nn == n),
    decreases candidates, k,
{
    if k > 0 {
        lemma_union_parse_shape(name, candidates, k - 1, bits);
        if union_parse_from(name, candidates, k, bits) is Some {
            if spec_parse(candidates[k - 1], bits) is Some {
                assert(spec_parse(candidates[k - 1], bits) matches Some((c, nn)));
            }
        }
    }
}

/// Candidate order law: when exactly one candidate parses successfully,
/// a union's parse is that candidate's parse wrapped as the chosen
/// child, wherever the candidate stands in the list.
pub proof fn lemma_union_single_candidate(
    name: Seq<char>,
    candidates: Seq<ModelView>,
    child: ModelView,
    bits: Seq<bool>,
    i: int,
)
    requires
        0 <= i < candidates.len(),
        spec_parse(candidates[i], bits) is Some,
        forall|j: int|
            0 <= j < candidates.len() && j != i ==> spec_parse(
                #[trigger] candidates[j],
                bits,
            ) is None,
    ensures
        spec_parse(ModelView::Union { name, candidates, child: Box::new(child) }, bits)
            == Some(
            (
                ModelView::Union {
                    name,
                    candidates,
                    child: Box::new(spec_parse(candidates[i], bits)->Some_0.0),
                },
                spec_parse(candidates[i], bits)->Some_0.1,
            ),
        ),
{
    lemma_union_from_single(name, candidates, bits, i, candidates.len() as int);
}

/// The scan from position `k` down to the one successful candidate.
proof fn lemma_union_from_single(
    name: Seq<char>,
    candidates: Seq<ModelView>,
    bits: Seq<bool>,
    i: int,
    k: int,
)
    requires
        0 <= i < k <= candidates.len(),
        spec_parse(candidates[i], bits) is Some,
        forall|j: int|
            i < j < k ==> spec_parse(#[trigger] candidates[j], bits) is None,
    ensures
        union_parse_from(name, candidates, k, bits) == Some(
            (
                ModelView::Union {
                    name,
                    candidates,
                    child: Box::new(spec_parse(candidates[i], bits)->Some_0.0),
                },
                spec_parse(candidates[i], bits)->Some_0.1,
            ),
        ),
    decreases k,
{
    if k - 1 > i {
        lemma_union_from_single(name, candidates, bits, i, k - 1);
    }
}

/// Ambiguity law: when the last declared candidate parses successfully,
/// it is the one a union's parse selects.
pub proof fn lemma_union_last_declared_wins(
    name: Seq<char>,
    candidates: Seq<ModelView>,
    child: ModelView,
    bits: Seq<bool>,
)
    requires
        candidates.len() > 0,
        spec_parse(candidates.last(), bits) is Some,
    ensures
        spec_parse(ModelView::Union { name, candidates, child: Box::new(child) }, bits)
            == Some(
            (
                ModelView::Union {
                    name,
                    candidates,
                    child: Box::new(spec_parse(candidates.last(), bits)->Some_0.0),
                },
                spec_parse(candidates.last(), bits)->Some_0.1,
            ),
        ),
{
}

/// A union with no candidates fails on every input.
pub proof fn lemma_union_empty_candidates(name: Seq<char>, child: ModelView, bits: Seq<bool>)
    ensures
        spec_parse(
            ModelView::Union { name, candidates: Seq::empty(), child: Box::new(child) },
            bits,
        ) is None,
{
}

} // verus!
