//! The boundary to the external structural-debug parser.
//!
//! Parsing a rendering into a tree is the external parser's job; this
//! module declares what is relied on about it, and converts its tree,
//! one node at a time, into the library's own [`Value`] so that all
//! further processing is on a type the proofs can see into.
use vstd::prelude::*;

use crate::value::{
    deep_elems, deep_entries, deep_fields, lemma_deep_elems, lemma_deep_entries,
    lemma_deep_fields, EntryModel, FieldEntry, FieldModel, MapEntry, TermKind, Value, ValueModel,
};
use darrentsung_debug_parser::IdentValue as ParsedIdentValue;
use darrentsung_debug_parser::Term as ParsedTerm;
use darrentsung_debug_parser::OrNonExhaustive as ParsedField;
use darrentsung_debug_parser::Value as ParsedValue;

verus! {

broadcast use vstd::std_specs::vec::group_vec_axioms;

#[verifier::external_type_specification]
#[verifier::external_body]
pub struct ExParsedValue(ParsedValue);

#[verifier::external_type_specification]
#[verifier::external_body]
pub struct ExParsedIdentValue(ParsedIdentValue);

#[verifier::external_type_specification]
#[verifier::external_body]
pub struct ExParsedTerm(ParsedTerm);

#[verifier::external_type_specification]
#[verifier::external_body]
#[verifier::reject_recursive_types(T)]
pub struct ExParsedField<T>(ParsedField<T>);

/// The model of a tree held by the external parser's value type.
pub uninterp spec fn model_of(v: ParsedValue) -> ValueModel;

/// The model of a field entry held by the external parser's field type.
pub uninterp spec fn field_model_of(f: ParsedField<ParsedIdentValue>) -> FieldModel;

/// The model of a leaf token held by the external parser's term type.
pub uninterp spec fn term_model_of(t: ParsedTerm) -> ValueModel;

/// What the external parser returns on a given rendering: the model of
/// the parsed tree, or the text of its diagnostic.  A function of the
/// input text alone.
pub uninterp spec fn parse_of(s: Seq<char>) -> Result<ValueModel, Seq<char>>;

/// One level of a parsed tree, opened into plain data; children are
/// still the parser's values.
enum RawNode {
    Struct { name: String, fields: Vec<ParsedField<ParsedIdentValue>> },
    SetVal { elems: Vec<ParsedValue> },
    MapVal { entries: Vec<(ParsedValue, ParsedValue)> },
    List { elems: Vec<ParsedValue> },
    Tuple { name: Option<String>, elems: Vec<ParsedValue> },
    Term { term: ParsedTerm },
}

/// One field entry of a parsed struct, opened into plain data.
enum RawField {
    Field { label: String, value: ParsedValue },
    Open,
}

/// Relies on darrentsung_debug_parser::parse: it parses a structural-debug
/// rendering into a tree, or reports a diagnostic, depending on the input
/// text alone.
#[verifier::external_body]
fn parse_debug_text(s: &str) -> (r: Result<ParsedValue, String>)
    ensures
        match r {
            Ok(v) => parse_of(s@) == Ok::<ValueModel, Seq<char>>(model_of(v)),
            Err(e) => parse_of(s@) == Err::<ValueModel, Seq<char>>(e@),
        },
{
    match darrentsung_debug_parser::parse(s) {
        Ok(v) => Ok(v),
        Err(e) => Err(e.to_string()),
    }
}

/// Relies on the variants of darrentsung_debug_parser::Value and ::Term:
/// this moves each variant's fields out, one arm per variant.
#[verifier::external_body]
fn open_node(v: ParsedValue) -> (r: RawNode)
    ensures
        match r {
            RawNode::Struct { name, fields } => model_of(v) == (ValueModel::Struct {
                name: name@,
                fields: Seq::new(fields@.len(), |i: int| field_model_of(fields@[i])),
            }),
            RawNode::SetVal { elems } => model_of(v) == (ValueModel::SetVal {
                elems: Seq::new(elems@.len(), |i: int| model_of(elems@[i])),
            }),
            RawNode::MapVal { entries } => model_of(v) == (ValueModel::MapVal {
                entries: Seq::new(
                    entries@.len(),
                    |i: int| EntryModel {
                        key: model_of(entries@[i].0),
                        value: model_of(entries@[i].1),
                    },
                ),
            }),
            RawNode::List { elems } => model_of(v) == (ValueModel::List {
                elems: Seq::new(elems@.len(), |i: int| model_of(elems@[i])),
            }),
            RawNode::Tuple { name, elems } => model_of(v) == (ValueModel::Tuple {
                name: match name {
                    Some(n) => Some(n@),
                    None => None,
                },
                elems: Seq::new(elems@.len(), |i: int| model_of(elems@[i])),
            }),
            RawNode::Term { term } => model_of(v) == term_model_of(term),
        },
{
    match v {
        ParsedValue::Struct(s) => RawNode::Struct { name: s.name, fields: s.values },
        ParsedValue::Set(s) => RawNode::SetVal { elems: s.values },
        ParsedValue::Map(m) => RawNode::MapVal {
            entries: m.values.into_iter().map(|kv| (kv.key, kv.value)).collect(),
        },
        ParsedValue::List(l) => RawNode::List { elems: l.values },
        ParsedValue::Tuple(t) => RawNode::Tuple { name: t.name, elems: t.values },
        ParsedValue::Term(t) => RawNode::Term { term: t },
    }
}

/// Relies on the variants of darrentsung_debug_parser::Term: an ident,
/// a quoted string (stored unescaped), or a raw token; this moves each
/// variant's text out, one arm per variant.
#[verifier::external_body]
fn open_term(t: ParsedTerm) -> (r: (TermKind, String))
    ensures
        term_model_of(t) == (ValueModel::Term { kind: r.0, text: r.1@ }),
{
    match t {
        ParsedTerm::Ident(x) => (TermKind::Ident, x),
        ParsedTerm::String(x) => (TermKind::Quoted, x),
        ParsedTerm::UnquotedRawString(x) => (TermKind::Raw, x),
    }
}

/// Relies on the variants of darrentsung_debug_parser::OrNonExhaustive and
/// ::IdentValue: this moves each variant's fields out, one arm per variant.
#[verifier::external_body]
fn open_field(f: ParsedField<ParsedIdentValue>) -> (r: RawField)
    ensures
        match r {
            RawField::Field { label, value } => field_model_of(f) == (FieldModel::Field {
                label: label@,
                value: model_of(value),
            }),
            RawField::Open => field_model_of(f) == FieldModel::Open,
        },
{
    match f {
        ParsedField::Value(iv) => RawField::Field { label: iv.ident, value: iv.value },
        ParsedField::NonExhaustive => RawField::Open,
    }
}

/// Convert the external parser's tree into the library's own tree.
pub fn from_parsed(v: ParsedValue) -> (r: Value)
    ensures
        r.deep() == model_of(v),
{
    from_parsed_rec(Ghost(model_of(v)), v)
}

/// The recursive worker behind [`from_parsed`]; `gm` is the model of the
/// tree, carried as the termination measure.
fn from_parsed_rec(Ghost(gm): Ghost<ValueModel>, v: ParsedValue) -> (r: Value)
    requires
        gm == model_of(v),
    ensures
        r.deep() == gm,
    decreases gm,
{
    match open_node(v) {
        RawNode::Term { term } => {
            let (kind, text) = open_term(term);
            Value::Term { kind, text }
        },
        RawNode::Struct { name, fields } => {
            let ghost gfs = Seq::new(fields@.len(), |i: int| field_model_of(fields@[i]));
            let mut rem = fields;
            let ghost gr = rem@;
            let mut out: Vec<FieldEntry> = Vec::new();
            while rem.len() > 0
                invariant
                    gm == (ValueModel::Struct { name: name@, fields: gfs }),
                    gfs.len() == gr.len(),
                    rem@ =~= gr.skip(gr.len() - rem@.len()),
                    rem@.len() <= gr.len(),
                    out@.len() == gr.len() - rem@.len(),
                    forall|i: int| 0 <= i < gr.len() ==> gfs[i] == field_model_of(#[trigger] gr[i]),
                    forall|i: int| 0 <= i < out@.len() ==> (#[trigger] out@[i]).deep() == gfs[i],
                decreases rem.len(),
            {
                let ghost k = gr.len() - rem@.len();
                let f = rem.remove(0);
                proof {
                    assert(f == gr[k]);
                    assert(rem@ =~= gr.skip(k + 1));
                    assert(decreases_to!(gm => gm->Struct_fields));
                    assert(decreases_to!(gfs => gfs[k as int]));
                }
                match open_field(f) {
                    RawField::Field { label, value } => {
                        proof {
                            assert(gfs[k as int] == (FieldModel::Field {
                                label: label@,
                                value: model_of(value),
                            }));
                            assert(decreases_to!(gfs[k as int] => gfs[k as int]->Field_value));
                        }
                        let nv = from_parsed_rec(Ghost(model_of(value)), value);
                        out.push(FieldEntry::Field { label, value: nv });
                    },
                    RawField::Open => {
                        out.push(FieldEntry::Open);
                    },
                }
            }
            proof {
                lemma_deep_fields(out@);
                assert(deep_fields(out@) =~= gfs);
            }
            Value::Struct { name, fields: out }
        },
        RawNode::SetVal { elems } => {
            let ghost ges = Seq::new(elems@.len(), |i: int| model_of(elems@[i]));
            proof {
                assert(decreases_to!(gm => gm->SetVal_elems));
            }
            let out = from_parsed_children(Ghost(ges), elems);
            proof {
                lemma_deep_elems(out@);
                assert(deep_elems(out@) =~= ges);
            }
            Value::SetVal { elems: out }
        },
        RawNode::List { elems } => {
            let ghost ges = Seq::new(elems@.len(), |i: int| model_of(elems@[i]));
            proof {
                assert(decreases_to!(gm => gm->List_elems));
            }
            let out = from_parsed_children(Ghost(ges), elems);
            proof {
                lemma_deep_elems(out@);
                assert(deep_elems(out@) =~= ges);
            }
            Value::List { elems: out }
        },
        RawNode::Tuple { name, elems } => {
            let ghost ges = Seq::new(elems@.len(), |i: int| model_of(elems@[i]));
            proof {
                assert(decreases_to!(gm => gm->Tuple_elems));
            }
            let out = from_parsed_children(Ghost(ges), elems);
            proof {
                lemma_deep_elems(out@);
                assert(deep_elems(out@) =~= ges);
            }
            Value::Tuple { name, elems: out }
        },
        RawNode::MapVal { entries } => {
            let ghost ges = Seq::new(
                entries@.len(),
                |i: int| EntryModel { key: model_of(entries@[i].0), value: model_of(entries@[i].1) },
            );
            let mut rem = entries;
            let ghost gr = rem@;
            let mut out: Vec<MapEntry> = Vec::new();
            while rem.len() > 0
                invariant
                    gm == (ValueModel::MapVal { entries: ges }),
                    ges.len() == gr.len(),
                    rem@ =~= gr.skip(gr.len() - rem@.len()),
                    rem@.len() <= gr.len(),
                    out@.len() == gr.len() - rem@.len(),
                    forall|i: int| 0 <= i < gr.len() ==> ges[i] == (EntryModel {
                        key: model_of((#[trigger] gr[i]).0),
                        value: model_of(gr[i].1),
                    }),
                    forall|i: int| 0 <= i < out@.len() ==> (#[trigger] out@[i]).deep() == ges[i],
                decreases rem.len(),
            {
                let ghost k = gr.len() - rem@.len();
                let e = rem.remove(0);
                proof {
                    assert(e == gr[k]);
                    assert(rem@ =~= gr.skip(k + 1));
                    assert(decreases_to!(gm => gm->MapVal_entries));
                    assert(decreases_to!(ges => ges[k as int]));
                    assert(decreases_to!(ges[k as int] => ges[k as int].key));
                    assert(decreases_to!(ges[k as int] => ges[k as int].value));
                }
                let (pk, pv) = e;
                let nk = from_parsed_rec(Ghost(model_of(pk)), pk);
                let nv = from_parsed_rec(Ghost(model_of(pv)), pv);
                out.push(MapEntry { key: nk, value: nv });
            }
            proof {
                lemma_deep_entries(out@);
                assert(deep_entries(out@) =~= ges);
            }
            Value::MapVal { entries: out }
        },
    }
}

/// Convert a vector of parsed children, elementwise; `gms` holds their
/// models and carries the termination measure.
fn from_parsed_children(Ghost(gms): Ghost<Seq<ValueModel>>, elems: Vec<ParsedValue>) -> (out:
    Vec<Value>)
    requires
        gms.len() == elems@.len(),
        forall|i: int| 0 <= i < elems@.len() ==> gms[i] == model_of(#[trigger] elems@[i]),
    ensures
        out@.len() == gms.len(),
        forall|i: int| 0 <= i < out@.len() ==> (#[trigger] out@[i]).deep() == gms[i],
    decreases gms,
{
    let mut rem = elems;
    let ghost gr = rem@;
    let mut out: Vec<Value> = Vec::new();
    while rem.len() > 0
        invariant
            gms.len() == gr.len(),
            rem@ =~= gr.skip(gr.len() - rem@.len()),
            rem@.len() <= gr.len(),
            out@.len() == gr.len() - rem@.len(),
            forall|i: int| 0 <= i < gr.len() ==> gms[i] == model_of(#[trigger] gr[i]),
            forall|i: int| 0 <= i < out@.len() ==> (#[trigger] out@[i]).deep() == gms[i],
        decreases rem.len(),
    {
        let ghost k = gr.len() - rem@.len();
        let x = rem.remove(0);
        proof {
            assert(x == gr[k]);
            assert(rem@ =~= gr.skip(k + 1));
            assert(decreases_to!(gms => gms[k as int]));
        }
        let nx = from_parsed_rec(Ghost(gms[k as int]), x);
        out.push(nx);
    }
    out
}

/// Parse a structural-debug rendering into the library's value tree, or
/// return the parser's diagnostic.
pub fn parse_value(s: &str) -> (r: Result<Value, String>)
    ensures
        match r {
            Ok(v) => parse_of(s@) == Ok::<ValueModel, Seq<char>>(v.deep()),
            Err(e) => parse_of(s@) == Err::<ValueModel, Seq<char>>(e@),
        },
{
    match parse_debug_text(s) {
        Ok(raw) => Ok(from_parsed(raw)),
        Err(e) => Err(e),
    }
}

} // verus!
