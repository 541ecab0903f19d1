//! Values of the PackStream format: the data that Bolt messages carry.
use vstd::prelude::*;

use crate::deserialization::insert_entry;
use crate::error::ConversionError;
use crate::packstream::{keys_distinct, map_insert};

verus! {

broadcast use vstd::std_specs::vec::group_vec_axioms;

/// Signature byte of a node structure.
pub const SIGNATURE_NODE: u8 = 0x4E;
/// Signature byte of a relationship structure.
pub const SIGNATURE_RELATIONSHIP: u8 = 0x52;
/// Signature byte of a path structure.
pub const SIGNATURE_PATH: u8 = 0x50;
/// Signature byte of an unbound relationship structure.
pub const SIGNATURE_UNBOUND_RELATIONSHIP: u8 = 0x72;

/// A PackStream value.
///
/// A float is held as the 64 bits of its IEEE 754 binary64 representation, which is
/// also how it travels on the wire.
#[derive(Debug)]
pub enum BoltValue {
    Boolean(bool),
    Integer(i64),
    Float(u64),
    List(List),
    Dictionary(BoltMap),
    Null,
    String(String),
    Node(Node),
    Relationship(Relationship),
    Path(Path),
    UnboundRelationship(UnboundRelationship),
}

/// An ordered list of values.
#[derive(Debug, PartialEq)]
pub struct List {
    pub value: Vec<BoltValue>,
}

/// A map from values to values, held as its entries in order. Maps built by this
/// library never hold two entries with equal keys.
#[derive(Debug)]
pub struct BoltMap {
    pub value: Vec<(BoltValue, BoltValue)>,
}

/// A node of the graph.
#[derive(Debug, PartialEq)]
pub struct Node {
    pub node_identity: Box<BoltValue>,
    pub labels: Box<BoltValue>,
    pub properties: Box<BoltValue>,
}

/// A relationship of the graph, with its two end nodes.
#[derive(Debug, PartialEq)]
pub struct Relationship {
    pub rel_identity: Box<BoltValue>,
    pub start_node_identity: Box<BoltValue>,
    pub end_node_identity: Box<BoltValue>,
    pub rel_type: Box<BoltValue>,
    pub properties: Box<BoltValue>,
}

/// An alternating sequence of nodes and relationships.
#[derive(Debug, PartialEq)]
pub struct Path {
    pub nodes: Box<BoltValue>,
    pub relationships: Box<BoltValue>,
    pub sequence: Box<BoltValue>,
}

/// A relationship without its end nodes, as it appears inside a path.
#[derive(Debug, PartialEq)]
pub struct UnboundRelationship {
    pub rel_identity: Box<BoltValue>,
    pub rel_type: Box<BoltValue>,
    pub properties: Box<BoltValue>,
}

/// The mathematical content of a [`BoltValue`]. Graph entities are structures: a
/// signature byte and a sequence of fields.
pub enum ValueModel {
    Null,
    Boolean(bool),
    Integer(i64),
    Float(u64),
    String(Seq<char>),
    List(Seq<ValueModel>),
    Dictionary(Seq<(ValueModel, ValueModel)>),
    Structure(u8, Seq<ValueModel>),
}

/// The model of a value.
pub open spec fn model_of(v: BoltValue) -> ValueModel
    decreases v,
{
    match v {
        BoltValue::Boolean(b) => ValueModel::Boolean(b),
        BoltValue::Integer(i) => ValueModel::Integer(i),
        BoltValue::Float(f) => ValueModel::Float(f),
        BoltValue::List(l) => ValueModel::List(seq_models(l.value@)),
        BoltValue::Dictionary(m) => ValueModel::Dictionary(entry_models(m.value@)),
        BoltValue::Null => ValueModel::Null,
        BoltValue::String(s) => ValueModel::String(s@),
        BoltValue::Node(n) => ValueModel::Structure(
            SIGNATURE_NODE,
            seq![model_of(*n.node_identity), model_of(*n.labels), model_of(*n.properties)],
        ),
        BoltValue::Relationship(r) => ValueModel::Structure(
            SIGNATURE_RELATIONSHIP,
            seq![
                model_of(*r.rel_identity),
                model_of(*r.start_node_identity),
                model_of(*r.end_node_identity),
                model_of(*r.rel_type),
                model_of(*r.properties),
            ],
        ),
        BoltValue::Path(p) => ValueModel::Structure(
            SIGNATURE_PATH,
            seq![model_of(*p.nodes), model_of(*p.relationships), model_of(*p.sequence)],
        ),
        BoltValue::UnboundRelationship(u) => ValueModel::Structure(
            SIGNATURE_UNBOUND_RELATIONSHIP,
            seq![model_of(*u.rel_identity), model_of(*u.rel_type), model_of(*u.properties)],
        ),
    }
}

/// The models of a sequence of values, element by element.
pub open spec fn seq_models(s: Seq<BoltValue>) -> Seq<ValueModel>
    decreases s,
{
    if s.len() == 0 {
        Seq::empty()
    } else {
        seq_models(s.drop_last()).push(model_of(s.last()))
    }
}

/// The models of a sequence of map entries, entry by entry.
pub open spec fn entry_models(s: Seq<(BoltValue, BoltValue)>) -> Seq<(ValueModel, ValueModel)>
    decreases s,
{
    if s.len() == 0 {
        Seq::empty()
    } else {
        entry_models(s.drop_last()).push((model_of(s.last().0), model_of(s.last().1)))
    }
}

impl View for BoltValue {
    type V = ValueModel;

    open spec fn view(&self) -> ValueModel {
        model_of(*self)
    }
}

/// `seq_models` maps each element to its model.
pub proof fn lemma_seq_models(s: Seq<BoltValue>)
    ensures
        seq_models(s).len() == s.len(),
        forall|i: int| 0 <= i < s.len() ==> #[trigger] seq_models(s)[i] == model_of(s[i]),
    decreases s.len(),
{
    if s.len() > 0 {
        lemma_seq_models(s.drop_last());
    }
}

/// `entry_models` maps each entry to the models of its key and value.
pub proof fn lemma_entry_models(s: Seq<(BoltValue, BoltValue)>)
    ensures
        entry_models(s).len() == s.len(),
        forall|i: int|
            0 <= i < s.len() ==> #[trigger] entry_models(s)[i] == (
            model_of(s[i].0),
            model_of(s[i].1),
        ),
    decreases s.len(),
{
    if s.len() > 0 {
        lemma_entry_models(s.drop_last());
    }
}

/// The entries of a map built by inserting the given entries in order into an empty
/// map.
pub open spec fn insert_all(entries: Seq<(ValueModel, ValueModel)>) -> Seq<(ValueModel, ValueModel)>
    decreases entries.len(),
{
    if entries.len() == 0 {
        Seq::empty()
    } else {
        let acc = insert_all(entries.drop_last());
        map_insert(acc, entries.last().0, entries.last().1)
    }
}

impl List {
    /// An empty list.
    pub fn new() -> (l: List)
        ensures
            l.value@ == Seq::<BoltValue>::empty(),
    {
        List { value: Vec::new() }
    }

    /// The list of the given values, in order.
    pub fn from_vec(value: Vec<BoltValue>) -> (l: List)
        ensures
            l.value@ == value@,
    {
        List { value }
    }

    /// The list held by a value, or the value back in the error when it is no list.
    pub fn try_from_value(value: BoltValue) -> (res: Result<List, ConversionError>)
        ensures
            match value {
                BoltValue::List(l) => res == Ok::<List, ConversionError>(l),
                _ => res == Err::<List, ConversionError>(ConversionError::FromValue(value)),
            },
    {
        match value {
            BoltValue::List(l) => Ok(l),
            _ => Err(ConversionError::FromValue(value)),
        }
    }
}

impl BoltMap {
    /// A well-formed map holds no two entries with equal keys. Every map that this
    /// library builds or decodes is well formed.
    pub open spec fn wf(self) -> bool {
        keys_distinct(entry_models(self.value@))
    }

    /// An empty map.
    pub fn new() -> (m: BoltMap)
        ensures
            m.wf(),
            entry_models(m.value@) == Seq::<(ValueModel, ValueModel)>::empty(),
    {
        BoltMap { value: Vec::new() }
    }

    /// The number of entries.
    pub fn len(&self) -> (n: usize)
        ensures
            n == self.value@.len(),
    {
        self.value.len()
    }

    /// Inserts an entry: the first entry with an equal key has its value replaced, a
    /// new key is appended.
    pub fn insert(&mut self, key: BoltValue, value: BoltValue)
        ensures
            entry_models(final(self).value@) == map_insert(
                entry_models(old(self).value@),
                key@,
                value@,
            ),
            old(self).wf() ==> final(self).wf(),
    {
        insert_entry(&mut self.value, key, value);
    }

    /// The map built by inserting the given entries in order; later entries replace
    /// the values of earlier ones with equal keys.
    pub fn from_entries(entries: Vec<(BoltValue, BoltValue)>) -> (m: BoltMap)
        ensures
            entry_models(m.value@) == insert_all(entry_models(entries@)),
            m.wf(),
    {
        let ghost orig = entries@;
        let ghost all = entry_models(entries@);
        proof {
            lemma_entry_models(entries@);
        }
        let mut m = BoltMap::new();
        let mut rest = entries;
        let mut i: usize = 0;
        let n = rest.len();
        assert(all.take(0) =~= Seq::<(ValueModel, ValueModel)>::empty());
        while rest.len() > 0
            invariant
                n == all.len(),
                orig.len() == n,
                i + rest.len() == n,
                rest@ == orig.skip(i as int),
                all == entry_models(orig),
                forall|j: int|
                    0 <= j < n ==> #[trigger] all[j] == (
                        model_of(orig[j].0),
                        model_of(orig[j].1),
                    ),
                entry_models(m.value@) == insert_all(all.take(i as int)),
                keys_distinct(entry_models(m.value@)),
            decreases rest.len(),
        {
            let ghost before = rest@;
            let (k, v) = rest.remove(0);
            proof {
                assert(orig.skip(i as int)[0] == orig[i as int]);
                assert(all.take(i + 1).drop_last() =~= all.take(i as int));
                assert(all.take(i + 1).last() == all[i as int]);
                assert forall|j: int| 0 <= j < rest@.len() implies rest@[j] == orig.skip(
                    i + 1,
                )[j] by {
                    assert(rest@[j] == before[j + 1]);
                    assert(orig.skip(i as int)[j + 1] == orig[i + 1 + j]);
                    assert(orig.skip(i + 1)[j] == orig[i + 1 + j]);
                }
                assert(rest@ =~= orig.skip(i + 1));
            }
            m.insert(k, v);
            i = i + 1;
        }
        assert(all.take(n as int) =~= all);
        m
    }

    /// The map held by a value, or the value back in the error when it is no map.
    pub fn try_from_value(value: BoltValue) -> (res: Result<BoltMap, ConversionError>)
        ensures
            match value {
                BoltValue::Dictionary(m) => res == Ok::<BoltMap, ConversionError>(m),
                _ => res == Err::<BoltMap, ConversionError>(ConversionError::FromValue(value)),
            },
    {
        match value {
            BoltValue::Dictionary(m) => Ok(m),
            _ => Err(ConversionError::FromValue(value)),
        }
    }
}

impl Node {
    /// A node with the given identity, labels and properties.
    pub fn new(node_identity: BoltValue, labels: BoltValue, properties: BoltValue) -> (n: Node)
        ensures
            *n.node_identity == node_identity,
            *n.labels == labels,
            *n.properties == properties,
    {
        Node {
            node_identity: Box::new(node_identity),
            labels: Box::new(labels),
            properties: Box::new(properties),
        }
    }

    /// The node held by a value, or the value back in the error when it is no node.
    pub fn try_from_value(value: BoltValue) -> (res: Result<Node, ConversionError>)
        ensures
            match value {
                BoltValue::Node(n) => res == Ok::<Node, ConversionError>(n),
                _ => res == Err::<Node, ConversionError>(ConversionError::FromValue(value)),
            },
    {
        match value {
            BoltValue::Node(n) => Ok(n),
            _ => Err(ConversionError::FromValue(value)),
        }
    }
}

impl Relationship {
    /// A relationship with the given identity, end nodes, type and properties.
    pub fn new(
        rel_identity: BoltValue,
        start_node_identity: BoltValue,
        end_node_identity: BoltValue,
        rel_type: BoltValue,
        properties: BoltValue,
    ) -> (r: Relationship)
        ensures
            *r.rel_identity == rel_identity,
            *r.start_node_identity == start_node_identity,
            *r.end_node_identity == end_node_identity,
            *r.rel_type == rel_type,
            *r.properties == properties,
    {
        Relationship {
            rel_identity: Box::new(rel_identity),
            start_node_identity: Box::new(start_node_identity),
            end_node_identity: Box::new(end_node_identity),
            rel_type: Box::new(rel_type),
            properties: Box::new(properties),
        }
    }

    /// The relationship held by a value, or the value back in the error when it is no
    /// relationship.
    pub fn try_from_value(value: BoltValue) -> (res: Result<Relationship, ConversionError>)
        ensures
            match value {
                BoltValue::Relationship(r) => res == Ok::<Relationship, ConversionError>(r),
                _ => res == Err::<Relationship, ConversionError>(
                    ConversionError::FromValue(value),
                ),
            },
    {
        match value {
            BoltValue::Relationship(r) => Ok(r),
            _ => Err(ConversionError::FromValue(value)),
        }
    }
}

impl Path {
    /// A path of the given nodes, relationships and sequence of indices.
    pub fn new(nodes: BoltValue, relationships: BoltValue, sequence: BoltValue) -> (p: Path)
        ensures
            *p.nodes == nodes,
            *p.relationships == relationships,
            *p.sequence == sequence,
    {
        Path {
            nodes: Box::new(nodes),
            relationships: Box::new(relationships),
            sequence: Box::new(sequence),
        }
    }

    /// The path held by a value, or the value back in the error when it is no path.
    pub fn try_from_value(value: BoltValue) -> (res: Result<Path, ConversionError>)
        ensures
            match value {
                BoltValue::Path(p) => res == Ok::<Path, ConversionError>(p),
                _ => res == Err::<Path, ConversionError>(ConversionError::FromValue(value)),
            },
    {
        match value {
            BoltValue::Path(p) => Ok(p),
            _ => Err(ConversionError::FromValue(value)),
        }
    }
}

impl UnboundRelationship {
    /// An unbound relationship with the given identity, type and properties.
    pub fn new(rel_identity: BoltValue, rel_type: BoltValue, properties: BoltValue) -> (u:
        UnboundRelationship)
        ensures
            *u.rel_identity == rel_identity,
            *u.rel_type == rel_type,
            *u.properties == properties,
    {
        UnboundRelationship {
            rel_identity: Box::new(rel_identity),
            rel_type: Box::new(rel_type),
            properties: Box::new(properties),
        }
    }

    /// The unbound relationship held by a value, or the value back in the error when it
    /// is no unbound relationship.
    pub fn try_from_value(value: BoltValue) -> (res: Result<UnboundRelationship, ConversionError>)
        ensures
            match value {
                BoltValue::UnboundRelationship(u) => res == Ok::<
                    UnboundRelationship,
                    ConversionError,
                >(u),
                _ => res == Err::<UnboundRelationship, ConversionError>(
                    ConversionError::FromValue(value),
                ),
            },
    {
        match value {
            BoltValue::UnboundRelationship(u) => Ok(u),
            _ => Err(ConversionError::FromValue(value)),
        }
    }
}


/// A copy of a value, with the same model.
pub fn copy_value(v: &BoltValue) -> (r: BoltValue)
    ensures
        r@ == v@,
    decreases *v, 0nat,
{
    match v {
        BoltValue::Boolean(b) => BoltValue::Boolean(*b),
        BoltValue::Integer(i) => BoltValue::Integer(*i),
        BoltValue::Float(f) => BoltValue::Float(*f),
        BoltValue::Null => BoltValue::Null,
        BoltValue::String(s) => BoltValue::String(s.clone()),
        BoltValue::List(l) => {
            assert(decreases_to!(*v => *l));
            BoltValue::List(copy_list(l))
        },
        BoltValue::Dictionary(m) => {
            assert(decreases_to!(*v => *m));
            BoltValue::Dictionary(copy_map(m))
        },
        BoltValue::Node(n) => {
            assert(decreases_to!(*v => *n));
            BoltValue::Node(copy_node(n))
        },
        BoltValue::Relationship(r) => {
            assert(decreases_to!(*v => *r));
            BoltValue::Relationship(copy_relationship(r))
        },
        BoltValue::Path(p) => {
            assert(decreases_to!(*v => *p));
            BoltValue::Path(copy_path(p))
        },
        BoltValue::UnboundRelationship(u) => {
            assert(decreases_to!(*v => *u));
            BoltValue::UnboundRelationship(copy_unbound_relationship(u))
        },
    }
}

fn copy_node(n: &Node) -> (r: Node)
    ensures
        model_of(BoltValue::Node(r)) == model_of(BoltValue::Node(*n)),
    decreases *n, 0nat,
{
    Node {
        node_identity: Box::new(copy_value(&n.node_identity)),
        labels: Box::new(copy_value(&n.labels)),
        properties: Box::new(copy_value(&n.properties)),
    }
}

fn copy_relationship(r: &Relationship) -> (c: Relationship)
    ensures
        model_of(BoltValue::Relationship(c)) == model_of(BoltValue::Relationship(*r)),
    decreases *r, 0nat,
{
    Relationship {
        rel_identity: Box::new(copy_value(&r.rel_identity)),
        start_node_identity: Box::new(copy_value(&r.start_node_identity)),
        end_node_identity: Box::new(copy_value(&r.end_node_identity)),
        rel_type: Box::new(copy_value(&r.rel_type)),
        properties: Box::new(copy_value(&r.properties)),
    }
}

fn copy_path(p: &Path) -> (c: Path)
    ensures
        model_of(BoltValue::Path(c)) == model_of(BoltValue::Path(*p)),
    decreases *p, 0nat,
{
    Path {
        nodes: Box::new(copy_value(&p.nodes)),
        relationships: Box::new(copy_value(&p.relationships)),
        sequence: Box::new(copy_value(&p.sequence)),
    }
}

fn copy_unbound_relationship(u: &UnboundRelationship) -> (c: UnboundRelationship)
    ensures
        model_of(BoltValue::UnboundRelationship(c)) == model_of(
            BoltValue::UnboundRelationship(*u),
        ),
    decreases *u, 0nat,
{
    UnboundRelationship {
        rel_identity: Box::new(copy_value(&u.rel_identity)),
        rel_type: Box::new(copy_value(&u.rel_type)),
        properties: Box::new(copy_value(&u.properties)),
    }
}

/// A copy of a list, with the same models of its items.
pub fn copy_list(l: &List) -> (r: List)
    ensures
        seq_models(r.value@) == seq_models(l.value@),
    decreases *l, 0nat,
{
    let mut items: Vec<BoltValue> = Vec::new();
    let mut i: usize = 0;
    while i < l.value.len()
        invariant
            i <= l.value.len(),
            items.len() == i,
            forall|j: int| 0 <= j < i ==> #[trigger] items@[j]@ == l.value@[j]@,
        decreases l.value.len() - i,
    {
        assert(l.value@[i as int] == l.value[i as int]);
        assert(decreases_to!(l.value => l.value@));
        assert(decreases_to!(l.value => l.value[i as int]));
        items.push(copy_value(&l.value[i]));
        i = i + 1;
    }
    proof {
        lemma_seq_models(items@);
        lemma_seq_models(l.value@);
        assert forall|j: int| 0 <= j < items.len() implies seq_models(items@)[j] == seq_models(
            l.value@,
        )[j] by {
            assert(items@[j]@ == l.value@[j]@);
        }
        assert(seq_models(items@) =~= seq_models(l.value@));
    }
    List { value: items }
}

/// A copy of a map, with the same models of its entries.
pub fn copy_map(m: &BoltMap) -> (r: BoltMap)
    ensures
        entry_models(r.value@) == entry_models(m.value@),
    decreases *m, 0nat,
{
    let mut entries: Vec<(BoltValue, BoltValue)> = Vec::new();
    let mut i: usize = 0;
    while i < m.value.len()
        invariant
            i <= m.value.len(),
            entries.len() == i,
            forall|j: int|
                0 <= j < i ==> model_of((#[trigger] entries@[j]).0) == model_of(m.value@[j].0)
                    && model_of(entries@[j].1) == model_of(m.value@[j].1),
        decreases m.value.len() - i,
    {
        assert(m.value@[i as int] == m.value[i as int]);
        assert(decreases_to!(m.value => m.value@));
        assert(decreases_to!(m.value => m.value[i as int]));
        let k = copy_value(&m.value[i].0);
        let v = copy_value(&m.value[i].1);
        entries.push((k, v));
        i = i + 1;
    }
    proof {
        lemma_entry_models(entries@);
        lemma_entry_models(m.value@);
        assert forall|j: int| 0 <= j < entries.len() implies entry_models(entries@)[j]
            == entry_models(m.value@)[j] by {
            assert(model_of(entries@[j].0) == model_of(m.value@[j].0));
        }
        assert(entry_models(entries@) =~= entry_models(m.value@));
    }
    BoltMap { value: entries }
}

impl Clone for BoltValue {
    /// A copy with the same model.
    fn clone(&self) -> (r: BoltValue)
        ensures
            r@ == self@,
    {
        copy_value(self)
    }
}

impl Clone for List {
    fn clone(&self) -> (r: List)
        ensures
            seq_models(r.value@) == seq_models(self.value@),
    {
        copy_list(self)
    }
}

impl Clone for BoltMap {
    fn clone(&self) -> (r: BoltMap)
        ensures
            entry_models(r.value@) == entry_models(self.value@),
    {
        copy_map(self)
    }
}

/// A copy of a sequence of values, with the same models.
pub fn copy_values(items: &Vec<BoltValue>) -> (r: Vec<BoltValue>)
    ensures
        seq_models(r@) == seq_models(items@),
{
    let mut out: Vec<BoltValue> = Vec::new();
    let mut i: usize = 0;
    while i < items.len()
        invariant
            i <= items.len(),
            out.len() == i,
            forall|j: int| 0 <= j < i ==> #[trigger] out@[j]@ == items@[j]@,
        decreases items.len() - i,
    {
        out.push(copy_value(&items[i]));
        i = i + 1;
    }
    proof {
        lemma_seq_models(out@);
        lemma_seq_models(items@);
        assert forall|j: int| 0 <= j < out.len() implies seq_models(out@)[j] == seq_models(
            items@,
        )[j] by {
            assert(out@[j]@ == items@[j]@);
        }
        assert(seq_models(out@) =~= seq_models(items@));
    }
    out
}
} // verus!
