//! The structural value model: the tree a structural-debug rendering is
//! parsed into, together with its mathematical model.
use vstd::prelude::*;

verus! {

broadcast use vstd::std_specs::vec::group_vec_axioms;

/// How an atomic (leaf) token was written in the rendering.
///
/// The three kinds are ordered (`Ident < Quoted < Raw`) and that order is
/// part of the structural total order on values.
#[derive(Clone, Copy, PartialEq, Eq, Structural)]
pub enum TermKind {
    /// A bare identifier, such as `true` or `Zed`.
    Ident,
    /// A quoted string literal; `text` holds its unescaped content.
    Quoted,
    /// Any other raw token, such as a number.
    Raw,
}

/// A parsed structural-debug value.
///
/// The variant order is part of the structural total order on values:
/// a struct sorts before a set, a set before a map, and so on.
pub enum Value {
    /// A named record; `fields` keeps the declared field order.
    Struct { name: String, fields: Vec<FieldEntry> },
    /// An unordered collection of elements.
    SetVal { elems: Vec<Value> },
    /// An unordered collection of key/value entries.
    MapVal { entries: Vec<MapEntry> },
    /// An ordered, variable-length sequence.
    List { elems: Vec<Value> },
    /// A positional grouping, optionally named (a tuple struct).
    Tuple { name: Option<String>, elems: Vec<Value> },
    /// An atomic leaf token.
    Term { kind: TermKind, text: String },
}

/// One entry of a struct's field list.
pub enum FieldEntry {
    /// A labelled field.
    Field { label: String, value: Value },
    /// The open-record marker: some fields were deliberately omitted
    /// from the rendering.  Always the logical terminator of the list.
    Open,
}

/// One key/value entry of a map.
pub struct MapEntry {
    pub key: Value,
    pub value: Value,
}

/// The mathematical model of a [`Value`]: the same tree over `Seq`.
#[verifier::ext_equal]
pub enum ValueModel {
    Struct { name: Seq<char>, fields: Seq<FieldModel> },
    SetVal { elems: Seq<ValueModel> },
    MapVal { entries: Seq<EntryModel> },
    List { elems: Seq<ValueModel> },
    Tuple { name: Option<Seq<char>>, elems: Seq<ValueModel> },
    Term { kind: TermKind, text: Seq<char> },
}

/// The mathematical model of a [`FieldEntry`].
#[verifier::ext_equal]
pub enum FieldModel {
    Field { label: Seq<char>, value: ValueModel },
    Open,
}

/// The mathematical model of a [`MapEntry`].
#[verifier::ext_equal]
pub struct EntryModel {
    pub key: ValueModel,
    pub value: ValueModel,
}

/// The models of a sequence of values, elementwise.
pub open spec fn deep_elems(s: Seq<Value>) -> Seq<ValueModel>
    decreases s,
{
    if s.len() == 0 {
        Seq::empty()
    } else {
        deep_elems(s.drop_last()).push(s.last().deep())
    }
}

/// The models of a struct's field list, elementwise.
pub open spec fn deep_fields(s: Seq<FieldEntry>) -> Seq<FieldModel>
    decreases s,
{
    if s.len() == 0 {
        Seq::empty()
    } else {
        deep_fields(s.drop_last()).push(s.last().deep())
    }
}

/// The models of a map's entry list, elementwise.
pub open spec fn deep_entries(s: Seq<MapEntry>) -> Seq<EntryModel>
    decreases s,
{
    if s.len() == 0 {
        Seq::empty()
    } else {
        deep_entries(s.drop_last()).push(s.last().deep())
    }
}

/// `deep_elems` maps the model over the sequence, elementwise.
pub proof fn lemma_deep_elems(s: Seq<Value>)
    ensures
        deep_elems(s).len() == s.len(),
        forall|i: int| 0 <= i < s.len() ==> #[trigger] deep_elems(s)[i] == s[i].deep(),
    decreases s.len(),
{
    if s.len() > 0 {
        lemma_deep_elems(s.drop_last());
    }
}

/// `deep_fields` maps the model over the sequence, elementwise.
pub proof fn lemma_deep_fields(s: Seq<FieldEntry>)
    ensures
        deep_fields(s).len() == s.len(),
        forall|i: int| 0 <= i < s.len() ==> #[trigger] deep_fields(s)[i] == s[i].deep(),
    decreases s.len(),
{
    if s.len() > 0 {
        lemma_deep_fields(s.drop_last());
    }
}

/// `deep_entries` maps the model over the sequence, elementwise.
pub proof fn lemma_deep_entries(s: Seq<MapEntry>)
    ensures
        deep_entries(s).len() == s.len(),
        forall|i: int| 0 <= i < s.len() ==> #[trigger] deep_entries(s)[i] == s[i].deep(),
    decreases s.len(),
{
    if s.len() > 0 {
        lemma_deep_entries(s.drop_last());
    }
}

impl Value {
    /// The mathematical model of this value.
    pub open spec fn deep(self) -> ValueModel
        decreases self,
    {
        match self {
            Value::Struct { name, fields } => ValueModel::Struct {
                name: name@,
                fields: deep_fields(fields@),
            },
            Value::SetVal { elems } => ValueModel::SetVal { elems: deep_elems(elems@) },
            Value::MapVal { entries } => ValueModel::MapVal {
                entries: deep_entries(entries@),
            },
            Value::List { elems } => ValueModel::List { elems: deep_elems(elems@) },
            Value::Tuple { name, elems } => ValueModel::Tuple {
                name: match name {
                    Some(n) => Some(n@),
                    None => None,
                },
                elems: deep_elems(elems@),
            },
            Value::Term { kind, text } => ValueModel::Term { kind, text: text@ },
        }
    }
}

impl FieldEntry {
    /// The mathematical model of this field entry.
    pub open spec fn deep(self) -> FieldModel
        decreases self,
    {
        match self {
            FieldEntry::Field { label, value } => FieldModel::Field {
                label: label@,
                value: value.deep(),
            },
            FieldEntry::Open => FieldModel::Open,
        }
    }
}

impl MapEntry {
    /// The mathematical model of this map entry.
    pub open spec fn deep(self) -> EntryModel
        decreases self,
    {
        EntryModel { key: self.key.deep(), value: self.value.deep() }
    }
}

} // verus!
