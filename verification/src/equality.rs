//! Equality of values as the protocol sees it: lists and structures compare element by
//! element, maps compare as sets of entries, whatever order the entries are held in.
use vstd::prelude::*;
use vstd::std_specs::cmp::PartialEqSpecImpl;

use crate::value::{
    entry_models, lemma_entry_models, lemma_seq_models, model_of, seq_models, BoltMap, BoltValue,
    List, Node, Path, Relationship, UnboundRelationship, ValueModel,
};
use crate::deserialization::{lemma_variant_kind, model_kind, value_kind};
use crate::value_map::{lemma_string_entries, ValueMap};

verus! {

/// Whether two value models are equal: lists and structures element by element,
/// maps when they have as many entries and each entry of the first has an equal
/// entry in the second; other values when they are identical.
pub open spec fn same_value(a: ValueModel, b: ValueModel) -> bool
    decreases a, 1int,
{
    match a {
        ValueModel::List(x) => match b {
            ValueModel::List(y) => x.len() == y.len() && same_prefix(x, y, x.len() as int),
            _ => false,
        },
        ValueModel::Dictionary(x) => match b {
            ValueModel::Dictionary(y) => x.len() == y.len() && all_found(x, y, x.len() as int),
            _ => false,
        },
        ValueModel::Structure(s, x) => match b {
            ValueModel::Structure(t, y) => s == t && x.len() == y.len() && same_prefix(
                x,
                y,
                x.len() as int,
            ),
            _ => false,
        },
        _ => a == b,
    }
}

/// Whether the first `n` elements of `x` are equal to those of `y`, place by place.
pub open spec fn same_prefix(x: Seq<ValueModel>, y: Seq<ValueModel>, n: int) -> bool
    decreases x, n,
{
    if 0 < n <= x.len() {
        same_prefix(x, y, n - 1) && same_value(x[n - 1], y[n - 1])
    } else {
        true
    }
}

/// Whether each of the first `n` entries of `x` has an equal entry in `y`.
pub open spec fn all_found(
    x: Seq<(ValueModel, ValueModel)>,
    y: Seq<(ValueModel, ValueModel)>,
    n: int,
) -> bool
    decreases x, n,
{
    if 0 < n <= x.len() {
        all_found(x, y, n - 1) && found_in(x[n - 1], y, y.len() as int)
    } else {
        true
    }
}

/// Whether one of the first `m` entries of `y` has a key equal to the key of `e` and a
/// value equal to its value.
pub open spec fn found_in(e: (ValueModel, ValueModel), y: Seq<(ValueModel, ValueModel)>, m: int) -> bool
    decreases e, m,
{
    if 0 < m <= y.len() {
        found_in(e, y, m - 1) || (same_value(e.0, y[m - 1].0) && same_value(e.1, y[m - 1].1))
    } else {
        false
    }
}

/// A prefix matches when each of its places does.
proof fn lemma_same_prefix_places(x: Seq<ValueModel>, y: Seq<ValueModel>, n: int)
    requires
        0 <= n <= x.len(),
    ensures
        same_prefix(x, y, n) <==> forall|i: int| 0 <= i < n ==> #[trigger] same_value(x[i], y[i]),
    decreases n,
{
    if n > 0 {
        lemma_same_prefix_places(x, y, n - 1);
        assert(same_prefix(x, y, n) == (same_prefix(x, y, n - 1) && same_value(x[n - 1], y[n - 1])));
        if same_prefix(x, y, n) {
            assert forall|i: int| 0 <= i < n implies #[trigger] same_value(x[i], y[i]) by {
                if i < n - 1 {
                    assert(same_value(x[i], y[i]));
                }
            }
        }
    }
}

/// A prefix of a matching prefix matches.
proof fn lemma_same_prefix_shorter(x: Seq<ValueModel>, y: Seq<ValueModel>, m: int, n: int)
    requires
        0 <= m <= n <= x.len(),
        same_prefix(x, y, n),
    ensures
        same_prefix(x, y, m),
    decreases n - m,
{
    if m < n {
        lemma_same_prefix_shorter(x, y, m, n - 1);
    }
}

/// If each of the first `n` entries is found, so is each of the first `m`.
proof fn lemma_all_found_shorter(
    x: Seq<(ValueModel, ValueModel)>,
    y: Seq<(ValueModel, ValueModel)>,
    m: int,
    n: int,
)
    requires
        0 <= m <= n <= x.len(),
        all_found(x, y, n),
    ensures
        all_found(x, y, m),
    decreases n - m,
{
    if m < n {
        lemma_all_found_shorter(x, y, m, n - 1);
    }
}

/// An entry found among the first `m` entries is found among the first `n`.
proof fn lemma_found_in_longer(
    e: (ValueModel, ValueModel),
    y: Seq<(ValueModel, ValueModel)>,
    m: int,
    n: int,
)
    requires
        0 <= m <= n <= y.len(),
        found_in(e, y, m),
    ensures
        found_in(e, y, n),
    decreases n - m,
{
    if m < n {
        lemma_found_in_longer(e, y, m, n - 1);
    }
}

/// Every value is equal to itself.
pub proof fn law_equality_reflexive(a: ValueModel)
    ensures
        same_value(a, a),
    decreases a, 1int,
{
    match a {
        ValueModel::List(x) => lemma_same_prefix_reflexive(x, x.len() as int),
        ValueModel::Dictionary(x) => lemma_all_found_reflexive(x, x.len() as int),
        ValueModel::Structure(_, x) => lemma_same_prefix_reflexive(x, x.len() as int),
        _ => {},
    }
}

/// Every prefix of a sequence matches itself.
proof fn lemma_same_prefix_reflexive(x: Seq<ValueModel>, n: int)
    requires
        0 <= n <= x.len(),
    ensures
        same_prefix(x, x, n),
    decreases x, n,
{
    if n > 0 {
        lemma_same_prefix_reflexive(x, n - 1);
        law_equality_reflexive(x[n - 1]);
    }
}

/// Every entry of a map is found in the map itself.
proof fn lemma_all_found_reflexive(x: Seq<(ValueModel, ValueModel)>, n: int)
    requires
        0 <= n <= x.len(),
    ensures
        all_found(x, x, n),
    decreases x, n,
{
    if n > 0 {
        lemma_all_found_reflexive(x, n - 1);
        assert(decreases_to!(x => x[n - 1]));
        assert(decreases_to!(x[n - 1] => x[n - 1].0));
        law_equality_reflexive(x[n - 1].0);
        law_equality_reflexive(x[n - 1].1);
        assert(found_in(x[n - 1], x, n));
        lemma_found_in_longer(x[n - 1], x, n, x.len() as int);
    }
}

/// Two maps with as many entries are equal when every entry of the first is also an
/// entry of the second, in whatever place: the order of entries does not matter.
pub proof fn law_map_equality_ignores_order(
    x: Seq<(ValueModel, ValueModel)>,
    y: Seq<(ValueModel, ValueModel)>,
)
    requires
        x.len() == y.len(),
        forall|i: int| 0 <= i < x.len() ==> y.contains(#[trigger] x[i]),
    ensures
        same_value(ValueModel::Dictionary(x), ValueModel::Dictionary(y)),
{
    lemma_all_found_contained(x, y, x.len() as int);
}

/// Each of the first `n` entries of `x` that is an entry of `y` is found in `y`.
proof fn lemma_all_found_contained(
    x: Seq<(ValueModel, ValueModel)>,
    y: Seq<(ValueModel, ValueModel)>,
    n: int,
)
    requires
        0 <= n <= x.len(),
        forall|i: int| 0 <= i < x.len() ==> y.contains(#[trigger] x[i]),
    ensures
        all_found(x, y, n),
    decreases n,
{
    if n > 0 {
        lemma_all_found_contained(x, y, n - 1);
        let e = x[n - 1];
        assert(y.contains(e));
        let p = choose|p: int| 0 <= p < y.len() && y[p] == e;
        law_equality_reflexive(e.0);
        law_equality_reflexive(e.1);
        assert(found_in(e, y, p + 1));
        lemma_found_in_longer(e, y, p + 1, y.len() as int);
    }
}

/// Two lists are equal exactly when they have the same length and equal elements at
/// every place.
pub proof fn law_list_equality(x: Seq<ValueModel>, y: Seq<ValueModel>)
    ensures
        same_value(ValueModel::List(x), ValueModel::List(y)) <==> (x.len() == y.len() && forall|
            i: int,
        |
            0 <= i < x.len() ==> #[trigger] same_value(x[i], y[i])),
{
    if x.len() == y.len() {
        lemma_same_prefix_places(x, y, x.len() as int);
    }
}

/// Two structures are equal exactly when they have the same signature, as many fields
/// and equal fields at every place.
pub proof fn law_structure_equality(s: u8, x: Seq<ValueModel>, t: u8, y: Seq<ValueModel>)
    ensures
        same_value(ValueModel::Structure(s, x), ValueModel::Structure(t, y)) <==> (s == t && x.len()
            == y.len() && forall|i: int| 0 <= i < x.len() ==> #[trigger] same_value(x[i], y[i])),
{
    if x.len() == y.len() {
        lemma_same_prefix_places(x, y, x.len() as int);
    }
}

/// Two maps are equal exactly when they have as many entries and every entry of the
/// first has, somewhere in the second, an entry with an equal key and an equal value.
pub proof fn law_map_equality(x: Seq<(ValueModel, ValueModel)>, y: Seq<(ValueModel, ValueModel)>)
    ensures
        same_value(ValueModel::Dictionary(x), ValueModel::Dictionary(y)) <==> (x.len() == y.len()
            && forall|i: int|
            #![trigger x[i]]
            0 <= i < x.len() ==> exists|j: int|
                #![trigger y[j]]
                0 <= j < y.len() && same_value(x[i].0, y[j].0) && same_value(x[i].1, y[j].1)),
{
    lemma_all_found_places(x, y, x.len() as int);
    assert forall|i: int| #![trigger x[i]] 0 <= i < x.len() implies (found_in(x[i], y, y.len() as int) <==> exists|
        j: int,
    |
        #![trigger y[j]]
        0 <= j < y.len() && same_value(x[i].0, y[j].0) && same_value(x[i].1, y[j].1)) by {
        lemma_found_in_places(x[i], y, y.len() as int);
    }
}

/// Values other than lists, maps and structures are equal exactly when they are
/// identical, and values of different kinds are never equal.
pub proof fn law_scalar_equality(a: ValueModel, b: ValueModel)
    ensures
        !(a is List || a is Dictionary || a is Structure) ==> (same_value(a, b) <==> a == b),
        model_kind(a) != model_kind(b) ==> !same_value(a, b),
{
}

/// An entry is found among the first `m` entries exactly when one of them has an equal
/// key and an equal value.
proof fn lemma_found_in_places(e: (ValueModel, ValueModel), y: Seq<(ValueModel, ValueModel)>, m: int)
    requires
        0 <= m <= y.len(),
    ensures
        found_in(e, y, m) <==> exists|j: int|
            #![trigger y[j]]
            0 <= j < m && same_value(e.0, y[j].0) && same_value(e.1, y[j].1),
    decreases m,
{
    if m > 0 {
        lemma_found_in_places(e, y, m - 1);
        if found_in(e, y, m) && !found_in(e, y, m - 1) {
            assert(same_value(e.0, y[m - 1].0) && same_value(e.1, y[m - 1].1));
        }
    }
}

/// Each of the first `n` entries is found exactly when every one of them is.
proof fn lemma_all_found_places(x: Seq<(ValueModel, ValueModel)>, y: Seq<(ValueModel, ValueModel)>, n: int)
    requires
        0 <= n <= x.len(),
    ensures
        all_found(x, y, n) <==> forall|i: int| 0 <= i < n ==> #[trigger] found_in(x[i], y, y.len() as int),
    decreases n,
{
    if n > 0 {
        lemma_all_found_places(x, y, n - 1);
        assert(all_found(x, y, n) == (all_found(x, y, n - 1) && found_in(x[n - 1], y, y.len() as int)));
        if all_found(x, y, n) {
            assert forall|i: int| 0 <= i < n implies #[trigger] found_in(x[i], y, y.len() as int) by {
                if i < n - 1 {
                    assert(found_in(x[i], y, y.len() as int));
                }
            }
        }
        if forall|i: int| 0 <= i < n ==> #[trigger] found_in(x[i], y, y.len() as int) {
            assert(found_in(x[n - 1], y, y.len() as int));
            assert forall|i: int| 0 <= i < n - 1 implies #[trigger] found_in(x[i], y, y.len() as int) by {
                assert(found_in(x[i], y, y.len() as int));
            }
        }
    }
}

/// Values of different kinds are never equal.
proof fn lemma_kinds_differ(a: ValueModel, b: ValueModel)
    requires
        model_kind(a) != model_kind(b),
    ensures
        !same_value(a, b),
{
}

/// Whether two values are equal: lists and structures element by element, maps as
/// sets of entries.
pub fn same_values(a: &BoltValue, b: &BoltValue) -> (res: bool)
    ensures
        res == same_value(a@, b@),
    decreases *a,
{
    if value_kind(a) != value_kind(b) {
        proof {
            lemma_variant_kind(*a);
            lemma_variant_kind(*b);
            lemma_kinds_differ(a@, b@);
        }
        return false;
    }
    match a {
        BoltValue::Boolean(x) => match b {
            BoltValue::Boolean(y) => *x == *y,
            _ => false,
        },
        BoltValue::Integer(x) => match b {
            BoltValue::Integer(y) => *x == *y,
            _ => false,
        },
        BoltValue::Float(x) => match b {
            BoltValue::Float(y) => *x == *y,
            _ => false,
        },
        BoltValue::Null => match b {
            BoltValue::Null => true,
            _ => false,
        },
        BoltValue::String(x) => match b {
            BoltValue::String(y) => *x == *y,
            _ => false,
        },
        BoltValue::List(x) => match b {
            BoltValue::List(y) => {
                assert(decreases_to!(*a => *x));
                lists_same(x, y)
            },
            _ => false,
        },
        BoltValue::Dictionary(x) => match b {
            BoltValue::Dictionary(y) => {
                assert(decreases_to!(*a => *x));
                maps_same(x, y)
            },
            _ => false,
        },
        BoltValue::Node(x) => match b {
            BoltValue::Node(y) => {
                assert(decreases_to!(*a => *x));
                nodes_same(x, y)
            },
            _ => false,
        },
        BoltValue::Relationship(x) => match b {
            BoltValue::Relationship(y) => {
                assert(decreases_to!(*a => *x));
                relationships_same(x, y)
            },
            _ => false,
        },
        BoltValue::Path(x) => match b {
            BoltValue::Path(y) => {
                assert(decreases_to!(*a => *x));
                paths_same(x, y)
            },
            _ => false,
        },
        BoltValue::UnboundRelationship(x) => match b {
            BoltValue::UnboundRelationship(y) => {
                assert(decreases_to!(*a => *x));
                unbound_relationships_same(x, y)
            },
            _ => false,
        },
    }
}

/// Whether two nodes are equal field by field.
fn nodes_same(x: &Node, y: &Node) -> (res: bool)
    ensures
        res == same_value(model_of(BoltValue::Node(*x)), model_of(BoltValue::Node(*y))),
    decreases *x,
{
    let a = same_values(&x.node_identity, &y.node_identity);
    let b = same_values(&x.labels, &y.labels);
    let c = same_values(&x.properties, &y.properties);
    proof {
        lemma_same_prefix_places(seq![model_of(*x.node_identity), model_of(*x.labels), model_of(*x.properties)], seq![model_of(*y.node_identity), model_of(*y.labels), model_of(*y.properties)], 3);
    }
    a && b && c
}

/// Whether two relationships are equal field by field.
fn relationships_same(x: &Relationship, y: &Relationship) -> (res: bool)
    ensures
        res == same_value(
            model_of(BoltValue::Relationship(*x)),
            model_of(BoltValue::Relationship(*y)),
        ),
    decreases *x,
{
    let a = same_values(&x.rel_identity, &y.rel_identity);
    let b = same_values(&x.start_node_identity, &y.start_node_identity);
    let c = same_values(&x.end_node_identity, &y.end_node_identity);
    let d = same_values(&x.rel_type, &y.rel_type);
    let e = same_values(&x.properties, &y.properties);
    proof {
        lemma_same_prefix_places(seq![model_of(*x.rel_identity), model_of(*x.start_node_identity), model_of(*x.end_node_identity), model_of(*x.rel_type), model_of(*x.properties)], seq![model_of(*y.rel_identity), model_of(*y.start_node_identity), model_of(*y.end_node_identity), model_of(*y.rel_type), model_of(*y.properties)], 5);
    }
    a && b && c && d && e
}

/// Whether two paths are equal field by field.
fn paths_same(x: &Path, y: &Path) -> (res: bool)
    ensures
        res == same_value(model_of(BoltValue::Path(*x)), model_of(BoltValue::Path(*y))),
    decreases *x,
{
    let a = same_values(&x.nodes, &y.nodes);
    let b = same_values(&x.relationships, &y.relationships);
    let c = same_values(&x.sequence, &y.sequence);
    proof {
        lemma_same_prefix_places(seq![model_of(*x.nodes), model_of(*x.relationships), model_of(*x.sequence)], seq![model_of(*y.nodes), model_of(*y.relationships), model_of(*y.sequence)], 3);
    }
    a && b && c
}

/// Whether two unbound relationships are equal field by field.
fn unbound_relationships_same(x: &UnboundRelationship, y: &UnboundRelationship) -> (res: bool)
    ensures
        res == same_value(
            model_of(BoltValue::UnboundRelationship(*x)),
            model_of(BoltValue::UnboundRelationship(*y)),
        ),
    decreases *x,
{
    let a = same_values(&x.rel_identity, &y.rel_identity);
    let b = same_values(&x.rel_type, &y.rel_type);
    let c = same_values(&x.properties, &y.properties);
    proof {
        lemma_same_prefix_places(seq![model_of(*x.rel_identity), model_of(*x.rel_type), model_of(*x.properties)], seq![model_of(*y.rel_identity), model_of(*y.rel_type), model_of(*y.properties)], 3);
    }
    a && b && c
}

/// Whether two lists are equal element by element.
fn lists_same(x: &List, y: &List) -> (res: bool)
    ensures
        res == same_value(
            ValueModel::List(seq_models(x.value@)),
            ValueModel::List(seq_models(y.value@)),
        ),
    decreases *x,
{
    let ghost xs = seq_models(x.value@);
    let ghost ys = seq_models(y.value@);
    proof {
        lemma_seq_models(x.value@);
        lemma_seq_models(y.value@);
    }
    if x.value.len() != y.value.len() {
        return false;
    }
    let mut i: usize = 0;
    while i < x.value.len()
        invariant
            x.value.len() == y.value.len(),
            i <= x.value.len(),
            xs == seq_models(x.value@),
            ys == seq_models(y.value@),
            xs.len() == x.value.len(),
            ys.len() == y.value.len(),
            forall|j: int| 0 <= j < x.value.len() ==> #[trigger] xs[j] == model_of(x.value@[j]),
            forall|j: int| 0 <= j < y.value.len() ==> #[trigger] ys[j] == model_of(y.value@[j]),
            same_prefix(xs, ys, i as int),
        decreases x.value.len() - i,
    {
        assert(decreases_to!(*x => x.value));
        assert(decreases_to!(x.value => x.value[i as int]));
        if !same_values(&x.value[i], &y.value[i]) {
            proof {
                assert(!same_prefix(xs, ys, i + 1));
                if same_prefix(xs, ys, xs.len() as int) {
                    lemma_same_prefix_shorter(xs, ys, i + 1, xs.len() as int);
                }
            }
            return false;
        }
        i = i + 1;
    }
    true
}

/// Whether two maps have as many entries and each entry of the first has an equal
/// entry in the second.
fn maps_same(x: &BoltMap, y: &BoltMap) -> (res: bool)
    ensures
        res == same_value(
            ValueModel::Dictionary(entry_models(x.value@)),
            ValueModel::Dictionary(entry_models(y.value@)),
        ),
    decreases *x,
{
    let ghost xs = entry_models(x.value@);
    let ghost ys = entry_models(y.value@);
    proof {
        lemma_entry_models(x.value@);
        lemma_entry_models(y.value@);
    }
    if x.value.len() != y.value.len() {
        return false;
    }
    let mut i: usize = 0;
    while i < x.value.len()
        invariant
            x.value.len() == y.value.len(),
            i <= x.value.len(),
            xs == entry_models(x.value@),
            ys == entry_models(y.value@),
            xs.len() == x.value.len(),
            ys.len() == y.value.len(),
            forall|j: int|
                0 <= j < x.value.len() ==> #[trigger] xs[j] == (
                    model_of(x.value@[j].0),
                    model_of(x.value@[j].1),
                ),
            all_found(xs, ys, i as int),
        decreases x.value.len() - i,
    {
        assert(decreases_to!(*x => x.value));
        assert(decreases_to!(x.value => x.value[i as int]));
        if !find_entry(&x.value[i], y) {
            proof {
                assert(!all_found(xs, ys, i + 1));
                if all_found(xs, ys, xs.len() as int) {
                    lemma_all_found_shorter(xs, ys, i + 1, xs.len() as int);
                }
            }
            return false;
        }
        i = i + 1;
    }
    true
}

/// Whether the map `y` has an entry equal to `e`.
fn find_entry(e: &(BoltValue, BoltValue), y: &BoltMap) -> (res: bool)
    ensures
        res == found_in((e.0@, e.1@), entry_models(y.value@), y.value@.len() as int),
    decreases *e,
{
    let ghost em = (e.0@, e.1@);
    let ghost ys = entry_models(y.value@);
    proof {
        lemma_entry_models(y.value@);
    }
    let mut j: usize = 0;
    while j < y.value.len()
        invariant
            j <= y.value.len(),
            em == (e.0@, e.1@),
            ys == entry_models(y.value@),
            ys.len() == y.value.len(),
            forall|k: int|
                0 <= k < y.value.len() ==> #[trigger] ys[k] == (
                    model_of(y.value@[k].0),
                    model_of(y.value@[k].1),
                ),
            !found_in(em, ys, j as int),
        decreases y.value.len() - j,
    {
        assert(decreases_to!(*e => e.0));
        assert(decreases_to!(*e => e.1));
        let ghost yk = ys[j as int];
        if same_values(&e.0, &y.value[j].0) && same_values(&e.1, &y.value[j].1) {
            proof {
                assert(found_in(em, ys, j + 1));
                lemma_found_in_longer(em, ys, j + 1, ys.len() as int);
            }
            return true;
        }
        j = j + 1;
    }
    false
}

/// Whether two string-keyed maps have as many entries and each entry of the first has
/// an equal entry in the second.
fn value_maps_same(x: &ValueMap, y: &ValueMap) -> (res: bool)
    ensures
        res == same_value(ValueModel::Dictionary(x@), ValueModel::Dictionary(y@)),
{
    let ghost xs = x@;
    let ghost ys = y@;
    proof {
        lemma_string_entries(x.value@);
        lemma_string_entries(y.value@);
    }
    if x.value.len() != y.value.len() {
        return false;
    }
    let mut i: usize = 0;
    while i < x.value.len()
        invariant
            x.value.len() == y.value.len(),
            i <= x.value.len(),
            xs == x@,
            ys == y@,
            xs.len() == x.value.len(),
            ys.len() == y.value.len(),
            forall|j: int|
                0 <= j < x.value.len() ==> #[trigger] xs[j] == (
                    ValueModel::String(x.value@[j].0@),
                    x.value@[j].1@,
                ),
            all_found(xs, ys, i as int),
        decreases x.value.len() - i,
    {
        if !find_string_entry(&x.value[i], y) {
            proof {
                assert(!all_found(xs, ys, i + 1));
                if all_found(xs, ys, xs.len() as int) {
                    lemma_all_found_shorter(xs, ys, i + 1, xs.len() as int);
                }
            }
            return false;
        }
        i = i + 1;
    }
    true
}

/// Whether the string-keyed map `y` has an entry equal to `e`.
fn find_string_entry(e: &(String, BoltValue), y: &ValueMap) -> (res: bool)
    ensures
        res == found_in((ValueModel::String(e.0@), e.1@), y@, y@.len() as int),
{
    let ghost em = (ValueModel::String(e.0@), e.1@);
    let ghost ys = y@;
    proof {
        lemma_string_entries(y.value@);
    }
    let mut j: usize = 0;
    while j < y.value.len()
        invariant
            j <= y.value.len(),
            em == (ValueModel::String(e.0@), e.1@),
            ys == y@,
            ys.len() == y.value.len(),
            forall|k: int|
                0 <= k < y.value.len() ==> #[trigger] ys[k] == (
                    ValueModel::String(y.value@[k].0@),
                    y.value@[k].1@,
                ),
            !found_in(em, ys, j as int),
        decreases y.value.len() - j,
    {
        let ghost yk = ys[j as int];
        proof {
            assert(same_value(em.0, yk.0) == (e.0@ == y.value@[j as int].0@));
        }
        if e.0 == y.value[j].0 && same_values(&e.1, &y.value[j].1) {
            proof {
                assert(found_in(em, ys, j + 1));
                lemma_found_in_longer(em, ys, j + 1, ys.len() as int);
            }
            return true;
        }
        j = j + 1;
    }
    false
}

impl PartialEq for BoltValue {
    fn eq(&self, other: &Self) -> (res: bool) {
        same_values(self, other)
    }
}

impl PartialEqSpecImpl for BoltValue {
    open spec fn obeys_eq_spec() -> bool {
        true
    }

    open spec fn eq_spec(&self, other: &BoltValue) -> bool {
        same_value(self@, other@)
    }
}

impl PartialEq for BoltMap {
    fn eq(&self, other: &Self) -> (res: bool) {
        maps_same(self, other)
    }
}

impl PartialEqSpecImpl for BoltMap {
    open spec fn obeys_eq_spec() -> bool {
        true
    }

    open spec fn eq_spec(&self, other: &BoltMap) -> bool {
        same_value(
            ValueModel::Dictionary(entry_models(self.value@)),
            ValueModel::Dictionary(entry_models(other.value@)),
        )
    }
}

impl PartialEq for ValueMap {
    fn eq(&self, other: &Self) -> (res: bool) {
        value_maps_same(self, other)
    }
}

impl PartialEqSpecImpl for ValueMap {
    open spec fn obeys_eq_spec() -> bool {
        true
    }

    open spec fn eq_spec(&self, other: &ValueMap) -> bool {
        same_value(ValueModel::Dictionary(self@), ValueModel::Dictionary(other@))
    }
}

} // verus!
