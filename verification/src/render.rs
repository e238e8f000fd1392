//! The stable renderer.
//!
//! Serializes a normalized value back to multi-line, indented text in the
//! structural-debug convention: one entry per line, four spaces per
//! nesting level, trailing commas, empty containers on one line.
//!
//! An open struct whose rendering would show no fields is deliberately
//! rewritten from the compact one-line marker form to an empty multi-line
//! body (opening brace, newline, closing brace), so that it diffs well
//! against the multi-line form of a similar non-open struct.  An open
//! struct that does show fields keeps its fields, one per line, with the
//! marker on a line of its own.
use vstd::prelude::*;

use crate::value::{deep_elems, deep_entries, deep_fields, lemma_deep_elems, lemma_deep_entries,
    lemma_deep_fields, FieldEntry, FieldModel, TermKind, Value, ValueModel};

verus! {

broadcast use vstd::std_specs::vec::group_vec_axioms;

/// What str's Debug formatting returns: the string re-quoted, with
/// special characters escaped.  A function of the characters alone.
pub uninterp spec fn quoted_of(s: Seq<char>) -> Seq<char>;

/// Relies on str's Debug formatting (through `format!`): it requotes and
/// escapes the string, and its output depends on the characters alone.
#[verifier::external_body]
fn quote_string(s: &str) -> (r: String)
    ensures
        r@ == quoted_of(s@),
{
    format!("{:?}", s)
}

/// Whether a field list shows at least one labelled field.
pub open spec fn has_visible(fields: Seq<FieldModel>) -> bool {
    exists|i: int| 0 <= i < fields.len() && (#[trigger] fields[i]) matches FieldModel::Field {
        ..
    }
}

/// The rendering of a value, with `pad` the indentation of the line the
/// value starts on; nested entries are indented four further spaces.
pub open spec fn render_of(m: ValueModel, pad: Seq<char>) -> Seq<char>
    decreases m,
{
    match m {
        ValueModel::Term { kind, text } => if kind == TermKind::Quoted {
            quoted_of(text)
        } else {
            text
        },
        ValueModel::List { elems } => if elems.len() == 0 {
            "[]"@
        } else {
            "[\n"@ + render_elems(elems, pad) + pad + "]"@
        },
        ValueModel::SetVal { elems } => if elems.len() == 0 {
            "{}"@
        } else {
            "{\n"@ + render_elems(elems, pad) + pad + "}"@
        },
        ValueModel::MapVal { entries } => if entries.len() == 0 {
            "{}"@
        } else {
            "{\n"@ + render_entries(entries, pad) + pad + "}"@
        },
        ValueModel::Tuple { name, elems } => {
            let prefix = match name {
                Some(n) => n,
                None => Seq::empty(),
            };
            if elems.len() == 0 {
                prefix + "()"@
            } else {
                prefix + "(\n"@ + render_elems(elems, pad) + pad + ")"@
            }
        },
        ValueModel::Struct { name, fields } => if fields.len() == 0 {
            name
        } else if !has_visible(fields) {
            name + " {\n"@ + pad + "}"@
        } else {
            name + " {\n"@ + render_fields(fields, pad) + pad + "}"@
        },
    }
}

/// The rendered lines of a sequence of elements: each indented one level
/// past `pad`, ending in a comma and a newline.
pub open spec fn render_elems(s: Seq<ValueModel>, pad: Seq<char>) -> Seq<char>
    decreases s,
{
    if s.len() == 0 {
        Seq::empty()
    } else {
        render_elems(s.drop_last(), pad) + (pad + "    "@) + render_of(s.last(), pad + "    "@)
            + ",\n"@
    }
}

/// The rendered lines of a map's entries: `key: value`, each indented one
/// level past `pad`, ending in a comma and a newline.
pub open spec fn render_entries(s: Seq<crate::value::EntryModel>, pad: Seq<char>) -> Seq<char>
    decreases s,
{
    if s.len() == 0 {
        Seq::empty()
    } else {
        render_entries(s.drop_last(), pad) + (pad + "    "@) + render_of(
            s.last().key,
            pad + "    "@,
        ) + ": "@ + render_of(s.last().value, pad + "    "@) + ",\n"@
    }
}

/// The rendered lines of a struct's field list: `label: value,` lines,
/// and `..` on a line of its own for the open marker.
pub open spec fn render_fields(s: Seq<FieldModel>, pad: Seq<char>) -> Seq<char>
    decreases s,
{
    if s.len() == 0 {
        Seq::empty()
    } else {
        render_fields(s.drop_last(), pad) + match s.last() {
            FieldModel::Field { label, value } => (pad + "    "@) + label + ": "@ + render_of(
                value,
                pad + "    "@,
            ) + ",\n"@,
            FieldModel::Open => (pad + "    "@) + "..\n"@,
        }
    }
}

/// `pad` extended by one indentation level.
fn pad_plus(pad: &str) -> (r: String)
    ensures
        r@ == pad@ + "    "@,
{
    let mut s = String::from_str(pad);
    s.append("    ");
    s
}

/// Whether a field vector shows at least one labelled field.
fn fields_have_visible(fields: &Vec<FieldEntry>) -> (r: bool)
    ensures
        r == has_visible(deep_fields(fields@)),
{
    proof {
        lemma_deep_fields(fields@);
    }
    let mut i: usize = 0;
    loop
        invariant
            i <= fields.len(),
            deep_fields(fields@).len() == fields@.len(),
            forall|j: int|
                0 <= j < fields@.len() ==> deep_fields(fields@)[j] == (
                #[trigger] fields@[j]).deep(),
            forall|j: int|
                0 <= j < i ==> !((#[trigger] deep_fields(fields@)[j]) matches FieldModel::Field {
                    ..
                }),
        ensures
            i <= fields.len(),
            i < fields.len() ==> deep_fields(fields@)[i as int] matches FieldModel::Field { .. },
            forall|j: int|
                0 <= j < i ==> !((#[trigger] deep_fields(fields@)[j]) matches FieldModel::Field {
                    ..
                }),
        decreases fields.len() - i,
    {
        if i == fields.len() {
            break;
        }
        match &fields[i] {
            FieldEntry::Field { .. } => {
                break;
            },
            FieldEntry::Open => {
                i = i + 1;
            },
        }
    }
    i < fields.len()
}

/// Append the rendering of `v`, starting at indentation `pad`, to `out`.
fn render_into(v: &Value, pad: &str, out: &mut String)
    ensures
        final(out)@ == old(out)@ + render_of(v.deep(), pad@),
    decreases v,
{
    let ghost start = out@;
    match v {
        Value::Term { kind, text } => {
            match kind {
                TermKind::Quoted => {
                    let q = quote_string(text.as_str());
                    out.append(q.as_str());
                },
                _ => {
                    out.append(text.as_str());
                },
            }
        },
        Value::List { elems } => {
            if elems.len() == 0 {
                out.append("[]");
            } else {
                out.append("[\n");
                let inner = pad_plus(pad);
                render_elems_into(elems, pad, inner.as_str(), out);
                out.append(pad);
                out.append("]");
                proof {
                    assert(out@ =~= start + render_of(v.deep(), pad@));
                }
            }
        },
        Value::SetVal { elems } => {
            if elems.len() == 0 {
                out.append("{}");
            } else {
                out.append("{\n");
                let inner = pad_plus(pad);
                render_elems_into(elems, pad, inner.as_str(), out);
                out.append(pad);
                out.append("}");
                proof {
                    assert(out@ =~= start + render_of(v.deep(), pad@));
                }
            }
        },
        Value::MapVal { entries } => {
            if entries.len() == 0 {
                out.append("{}");
            } else {
                out.append("{\n");
                let inner = pad_plus(pad);
                render_entries_into(entries, pad, inner.as_str(), out);
                out.append(pad);
                out.append("}");
                proof {
                    assert(out@ =~= start + render_of(v.deep(), pad@));
                }
            }
        },
        Value::Tuple { name, elems } => {
            match name {
                Some(n) => {
                    out.append(n.as_str());
                },
                None => {},
            }
            if elems.len() == 0 {
                out.append("()");
            } else {
                out.append("(\n");
                let inner = pad_plus(pad);
                render_elems_into(elems, pad, inner.as_str(), out);
                out.append(pad);
                out.append(")");
            }
            proof {
                assert(out@ =~= start + render_of(v.deep(), pad@));
            }
        },
        Value::Struct { name, fields } => {
            out.append(name.as_str());
            if fields.len() > 0 {
                let vis = fields_have_visible(fields);
                if !vis {
                    out.append(" {\n");
                    out.append(pad);
                    out.append("}");
                } else {
                    out.append(" {\n");
                    let inner = pad_plus(pad);
                    render_fields_into(fields, pad, inner.as_str(), out);
                    out.append(pad);
                    out.append("}");
                }
            }
            proof {
                assert(out@ =~= start + render_of(v.deep(), pad@));
            }
        },
    }
}

/// Append the rendered lines of `elems` to `out`; `inner` is `pad` plus
/// one indentation level.
fn render_elems_into(elems: &Vec<Value>, pad: &str, inner: &str, out: &mut String)
    requires
        inner@ == pad@ + "    "@,
    ensures
        final(out)@ == old(out)@ + render_elems(deep_elems(elems@), pad@),
    decreases elems,
{
    let ghost start = out@;
    let ghost ds = deep_elems(elems@);
    proof {
        lemma_deep_elems(elems@);
        assert(ds.take(0) =~= Seq::empty());
    }
    let mut i: usize = 0;
    while i < elems.len()
        invariant
            i <= elems.len(),
            inner@ == pad@ + "    "@,
            ds == deep_elems(elems@),
            ds.len() == elems@.len(),
            forall|j: int| 0 <= j < elems@.len() ==> ds[j] == (#[trigger] elems@[j]).deep(),
            out@ == start + render_elems(ds.take(i as int), pad@),
        decreases elems.len() - i,
    {
        proof {
            assert(decreases_to!(elems => elems[i as int]));
        }
        out.append(inner);
        render_into(&elems[i], inner, out);
        out.append(",\n");
        proof {
            let pre = ds.take(i as int);
            let cur = ds.take(i + 1);
            assert(cur.drop_last() =~= pre);
            assert(cur.last() == ds[i as int]);
            assert(out@ =~= start + render_elems(cur, pad@));
        }
        i = i + 1;
    }
    proof {
        assert(ds.take(ds.len() as int) =~= ds);
    }
}

/// Append the rendered lines of a map's `entries` to `out`.
fn render_entries_into(
    entries: &Vec<crate::value::MapEntry>,
    pad: &str,
    inner: &str,
    out: &mut String,
)
    requires
        inner@ == pad@ + "    "@,
    ensures
        final(out)@ == old(out)@ + render_entries(deep_entries(entries@), pad@),
    decreases entries,
{
    let ghost start = out@;
    let ghost ds = deep_entries(entries@);
    proof {
        lemma_deep_entries(entries@);
        assert(ds.take(0) =~= Seq::empty());
    }
    let mut i: usize = 0;
    while i < entries.len()
        invariant
            i <= entries.len(),
            inner@ == pad@ + "    "@,
            ds == deep_entries(entries@),
            ds.len() == entries@.len(),
            forall|j: int| 0 <= j < entries@.len() ==> ds[j] == (#[trigger] entries@[j]).deep(),
            out@ == start + render_entries(ds.take(i as int), pad@),
        decreases entries.len() - i,
    {
        proof {
            assert(decreases_to!(entries => entries[i as int]));
            assert(decreases_to!(entries[i as int] => entries@[i as int].key));
            assert(decreases_to!(entries[i as int] => entries@[i as int].value));
        }
        out.append(inner);
        render_into(&entries[i].key, inner, out);
        out.append(": ");
        render_into(&entries[i].value, inner, out);
        out.append(",\n");
        proof {
            let pre = ds.take(i as int);
            let cur = ds.take(i + 1);
            assert(cur.drop_last() =~= pre);
            assert(cur.last() == ds[i as int]);
            assert(out@ =~= start + render_entries(cur, pad@));
        }
        i = i + 1;
    }
    proof {
        assert(ds.take(ds.len() as int) =~= ds);
    }
}

/// Append the rendered lines of a struct's `fields` to `out`.
fn render_fields_into(fields: &Vec<FieldEntry>, pad: &str, inner: &str, out: &mut String)
    requires
        inner@ == pad@ + "    "@,
    ensures
        final(out)@ == old(out)@ + render_fields(deep_fields(fields@), pad@),
    decreases fields,
{
    let ghost start = out@;
    let ghost ds = deep_fields(fields@);
    proof {
        lemma_deep_fields(fields@);
        assert(ds.take(0) =~= Seq::empty());
    }
    let mut i: usize = 0;
    while i < fields.len()
        invariant
            i <= fields.len(),
            inner@ == pad@ + "    "@,
            ds == deep_fields(fields@),
            ds.len() == fields@.len(),
            forall|j: int| 0 <= j < fields@.len() ==> ds[j] == (#[trigger] fields@[j]).deep(),
            out@ == start + render_fields(ds.take(i as int), pad@),
        decreases fields.len() - i,
    {
        proof {
            assert(decreases_to!(fields => fields[i as int]));
        }
        match &fields[i] {
            FieldEntry::Field { label, value } => {
                proof {
                    assert(decreases_to!(fields[i as int] => *value));
                }
                out.append(inner);
                out.append(label.as_str());
                out.append(": ");
                render_into(value, inner, out);
                out.append(",\n");
            },
            FieldEntry::Open => {
                out.append(inner);
                out.append("..\n");
            },
        }
        proof {
            let pre = ds.take(i as int);
            let cur = ds.take(i + 1);
            assert(cur.drop_last() =~= pre);
            assert(cur.last() == ds[i as int]);
            assert(out@ =~= start + render_fields(cur, pad@));
        }
        i = i + 1;
    }
    proof {
        assert(ds.take(ds.len() as int) =~= ds);
    }
}

/// Render `v` as multi-line, indented text.
pub fn render(v: &Value) -> (r: String)
    ensures
        r@ == render_of(v.deep(), Seq::empty()),
{
    let mut out = String::new();
    render_into(v, "", &mut out);
    proof {
        reveal_strlit("");
        assert(""@ =~= Seq::<char>::empty());
        assert(out@ =~= render_of(v.deep(), Seq::empty()));
    }
    out
}

} // verus!
