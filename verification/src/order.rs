//! The structural total order on values.
//!
//! Elements of unordered containers are sorted by this order.  It compares
//! the variant first (struct, set, map, list, tuple, term, in that order),
//! then the payload: leaf terms by their kind and then their literal text
//! (so `"10.1"` sorts before `"2.0"`: text, not numeric, comparison),
//! sequences elementwise with the first difference deciding and the
//! shorter sequence first on an equal prefix, structs by name and then
//! field list, map entry lists by key and then value.
use vstd::prelude::*;

use crate::value::{EntryModel, FieldEntry, FieldModel, MapEntry, TermKind, Value, ValueModel};

verus! {

broadcast use vstd::std_specs::vec::group_vec_axioms;

/// The outcome of comparing two values.
#[derive(Clone, Copy, PartialEq, Eq, Structural)]
pub enum Cmp {
    Lt,
    Eq,
    Gt,
}

/// The outcome of the reversed comparison.
pub open spec fn flip(c: Cmp) -> Cmp {
    match c {
        Cmp::Lt => Cmp::Gt,
        Cmp::Eq => Cmp::Eq,
        Cmp::Gt => Cmp::Lt,
    }
}

/// Comparison of two integers.
pub open spec fn cmp_int(a: int, b: int) -> Cmp {
    if a < b {
        Cmp::Lt
    } else if a == b {
        Cmp::Eq
    } else {
        Cmp::Gt
    }
}

/// The position of a variant in the structural order.
pub open spec fn rank(m: ValueModel) -> int {
    match m {
        ValueModel::Struct { .. } => 0,
        ValueModel::SetVal { .. } => 1,
        ValueModel::MapVal { .. } => 2,
        ValueModel::List { .. } => 3,
        ValueModel::Tuple { .. } => 4,
        ValueModel::Term { .. } => 5,
    }
}

/// The position of a term kind in the structural order.
pub open spec fn kind_rank(k: TermKind) -> int {
    match k {
        TermKind::Ident => 0,
        TermKind::Quoted => 1,
        TermKind::Raw => 2,
    }
}

/// Lexicographic comparison of two character sequences.
pub open spec fn cmp_chars(a: Seq<char>, b: Seq<char>) -> Cmp
    decreases a.len(),
{
    if a.len() == 0 && b.len() == 0 {
        Cmp::Eq
    } else if a.len() == 0 {
        Cmp::Lt
    } else if b.len() == 0 {
        Cmp::Gt
    } else if cmp_int(a[0] as int, b[0] as int) != Cmp::Eq {
        cmp_int(a[0] as int, b[0] as int)
    } else {
        cmp_chars(a.drop_first(), b.drop_first())
    }
}

/// Comparison of two optional names: an absent name sorts first.
pub open spec fn cmp_opt_name(a: Option<Seq<char>>, b: Option<Seq<char>>) -> Cmp {
    match (a, b) {
        (Option::None, Option::None) => Cmp::Eq,
        (Option::None, Option::Some(_)) => Cmp::Lt,
        (Option::Some(_), Option::None) => Cmp::Gt,
        (Option::Some(x), Option::Some(y)) => cmp_chars(x, y),
    }
}

/// The structural total order on value models.
pub open spec fn cmp_value(a: ValueModel, b: ValueModel) -> Cmp
    decreases a, b,
{
    if rank(a) != rank(b) {
        cmp_int(rank(a), rank(b))
    } else {
        match (a, b) {
            (
                ValueModel::Struct { name: na, fields: fa },
                ValueModel::Struct { name: nb, fields: fb },
            ) => {
                if cmp_chars(na, nb) != Cmp::Eq {
                    cmp_chars(na, nb)
                } else {
                    cmp_fields(fa, fb)
                }
            },
            (ValueModel::SetVal { elems: ea }, ValueModel::SetVal { elems: eb }) => cmp_elems(
                ea,
                eb,
            ),
            (ValueModel::MapVal { entries: ea }, ValueModel::MapVal { entries: eb }) => cmp_entries(
                ea,
                eb,
            ),
            (ValueModel::List { elems: ea }, ValueModel::List { elems: eb }) => cmp_elems(ea, eb),
            (
                ValueModel::Tuple { name: na, elems: ea },
                ValueModel::Tuple { name: nb, elems: eb },
            ) => {
                if cmp_opt_name(na, nb) != Cmp::Eq {
                    cmp_opt_name(na, nb)
                } else {
                    cmp_elems(ea, eb)
                }
            },
            (ValueModel::Term { kind: ka, text: ta }, ValueModel::Term { kind: kb, text: tb }) => {
                if kind_rank(ka) != kind_rank(kb) {
                    cmp_int(kind_rank(ka), kind_rank(kb))
                } else {
                    cmp_chars(ta, tb)
                }
            },
            _ => Cmp::Eq,
        }
    }
}

/// Elementwise lexicographic comparison of two element sequences.
pub open spec fn cmp_elems(a: Seq<ValueModel>, b: Seq<ValueModel>) -> Cmp
    decreases a, b,
{
    if a.len() == 0 && b.len() == 0 {
        Cmp::Eq
    } else if a.len() == 0 {
        Cmp::Lt
    } else if b.len() == 0 {
        Cmp::Gt
    } else if cmp_value(a[0], b[0]) != Cmp::Eq {
        cmp_value(a[0], b[0])
    } else {
        cmp_elems(a.drop_first(), b.drop_first())
    }
}

/// Comparison of two struct field entries: a labelled field sorts before
/// the open-record marker; labelled fields compare by label, then value.
pub open spec fn cmp_field(a: FieldModel, b: FieldModel) -> Cmp
    decreases a, b,
{
    match (a, b) {
        (FieldModel::Field { label: la, value: va }, FieldModel::Field { label: lb, value: vb }) => {
            if cmp_chars(la, lb) != Cmp::Eq {
                cmp_chars(la, lb)
            } else {
                cmp_value(va, vb)
            }
        },
        (FieldModel::Field { .. }, FieldModel::Open) => Cmp::Lt,
        (FieldModel::Open, FieldModel::Field { .. }) => Cmp::Gt,
        (FieldModel::Open, FieldModel::Open) => Cmp::Eq,
    }
}

/// Elementwise lexicographic comparison of two field lists.
pub open spec fn cmp_fields(a: Seq<FieldModel>, b: Seq<FieldModel>) -> Cmp
    decreases a, b,
{
    if a.len() == 0 && b.len() == 0 {
        Cmp::Eq
    } else if a.len() == 0 {
        Cmp::Lt
    } else if b.len() == 0 {
        Cmp::Gt
    } else if cmp_field(a[0], b[0]) != Cmp::Eq {
        cmp_field(a[0], b[0])
    } else {
        cmp_fields(a.drop_first(), b.drop_first())
    }
}

/// Comparison of two map entries: by key, then by value.
pub open spec fn cmp_entry(a: EntryModel, b: EntryModel) -> Cmp
    decreases a, b,
{
    if cmp_value(a.key, b.key) != Cmp::Eq {
        cmp_value(a.key, b.key)
    } else {
        cmp_value(a.value, b.value)
    }
}

/// Elementwise lexicographic comparison of two map entry lists.
pub open spec fn cmp_entries(a: Seq<EntryModel>, b: Seq<EntryModel>) -> Cmp
    decreases a, b,
{
    if a.len() == 0 && b.len() == 0 {
        Cmp::Eq
    } else if a.len() == 0 {
        Cmp::Lt
    } else if b.len() == 0 {
        Cmp::Gt
    } else if cmp_entry(a[0], b[0]) != Cmp::Eq {
        cmp_entry(a[0], b[0])
    } else {
        cmp_entries(a.drop_first(), b.drop_first())
    }
}

/// `a` sorts no later than `b` in the structural order.
pub open spec fn value_le(a: ValueModel, b: ValueModel) -> bool {
    cmp_value(a, b) != Cmp::Gt
}

/// `a` sorts no later than `b`, comparing map entries by key alone.
pub open spec fn entry_key_le(a: EntryModel, b: EntryModel) -> bool {
    cmp_value(a.key, b.key) != Cmp::Gt
}

proof fn lemma_cmp_chars_step(a: Seq<char>, b: Seq<char>, i: int)
    requires
        0 <= i < a.len(),
        i < b.len(),
        a[i] == b[i],
    ensures
        cmp_chars(a.skip(i), b.skip(i)) == cmp_chars(a.skip(i + 1), b.skip(i + 1)),
{
    assert(a.skip(i).drop_first() =~= a.skip(i + 1));
    assert(b.skip(i).drop_first() =~= b.skip(i + 1));
    assert(a.skip(i)[0] == a[i]);
    assert(b.skip(i)[0] == b[i]);
}

/// Compare two strings lexicographically, character by character.
pub fn str_cmp(a: &str, b: &str) -> (r: Cmp)
    ensures
        r == cmp_chars(a@, b@),
{
    let a_len: usize = a.unicode_len();
    let b_len: usize = b.unicode_len();
    let mut i: usize = 0;
    proof {
        assert(a@.skip(0) =~= a@);
        assert(b@.skip(0) =~= b@);
    }
    loop
        invariant
            i <= a_len,
            i <= b_len,
            a_len == a@.len(),
            b_len == b@.len(),
            cmp_chars(a@, b@) == cmp_chars(a@.skip(i as int), b@.skip(i as int)),
        decreases a_len - i,
    {
        if i == a_len {
            if i == b_len {
                return Cmp::Eq;
            } else {
                return Cmp::Lt;
            }
        } else if i == b_len {
            return Cmp::Gt;
        } else {
            let ca = a.get_char(i);
            let cb = b.get_char(i);
            proof {
                assert(a@.skip(i as int)[0] == a@[i as int]);
                assert(b@.skip(i as int)[0] == b@[i as int]);
            }
            proof {
                assert(ca as int == ca as u32 as int);
                assert(cb as int == cb as u32 as int);
            }
            if (ca as u32) < (cb as u32) {
                return Cmp::Lt;
            } else if (ca as u32) > (cb as u32) {
                return Cmp::Gt;
            } else {
                proof {
                    assert(a@[i as int] as int == b@[i as int] as int);
                    lemma_cmp_chars_step(a@, b@, i as int);
                }
                i = i + 1;
            }
        }
    }
}

/// Compare two optional tuple names: an absent name sorts first.
fn opt_name_cmp(a: &Option<String>, b: &Option<String>) -> (r: Cmp)
    ensures
        r == cmp_opt_name(
            match a {
                Some(x) => Some(x@),
                None => None,
            },
            match b {
                Some(y) => Some(y@),
                None => None,
            },
        ),
{
    match (a, b) {
        (Option::None, Option::None) => Cmp::Eq,
        (Option::None, Option::Some(_)) => Cmp::Lt,
        (Option::Some(_), Option::None) => Cmp::Gt,
        (Option::Some(x), Option::Some(y)) => str_cmp(x.as_str(), y.as_str()),
    }
}

/// The position of a value's variant in the structural order.
fn value_rank(v: &Value) -> (r: u8)
    ensures
        r as int == rank(v.deep()),
{
    match v {
        Value::Struct { .. } => 0,
        Value::SetVal { .. } => 1,
        Value::MapVal { .. } => 2,
        Value::List { .. } => 3,
        Value::Tuple { .. } => 4,
        Value::Term { .. } => 5,
    }
}

/// The position of a term kind in the structural order.
fn term_kind_rank(k: TermKind) -> (r: u8)
    ensures
        r as int == kind_rank(k),
{
    match k {
        TermKind::Ident => 0,
        TermKind::Quoted => 1,
        TermKind::Raw => 2,
    }
}

/// Compare two values in the structural total order.
pub fn value_cmp(a: &Value, b: &Value) -> (r: Cmp)
    ensures
        r == cmp_value(a.deep(), b.deep()),
    decreases *a, *b,
{
    let ra = value_rank(a);
    let rb = value_rank(b);
    if ra < rb {
        Cmp::Lt
    } else if ra > rb {
        Cmp::Gt
    } else {
        match (a, b) {
            (
                Value::Struct { name: na, fields: fa },
                Value::Struct { name: nb, fields: fb },
            ) => {
                let c = str_cmp(na.as_str(), nb.as_str());
                if let Cmp::Eq = c {
                    fields_cmp(fa, fb)
                } else {
                    c
                }
            },
            (Value::SetVal { elems: ea }, Value::SetVal { elems: eb }) => elems_cmp(ea, eb),
            (Value::MapVal { entries: ea }, Value::MapVal { entries: eb }) => entries_cmp(ea, eb),
            (Value::List { elems: ea }, Value::List { elems: eb }) => elems_cmp(ea, eb),
            (Value::Tuple { name: na, elems: ea }, Value::Tuple { name: nb, elems: eb }) => {
                let c = opt_name_cmp(na, nb);
                if let Cmp::Eq = c {
                    elems_cmp(ea, eb)
                } else {
                    c
                }
            },
            (Value::Term { kind: ka, text: ta }, Value::Term { kind: kb, text: tb }) => {
                let rka = term_kind_rank(*ka);
                let rkb = term_kind_rank(*kb);
                if rka < rkb {
                    Cmp::Lt
                } else if rka > rkb {
                    Cmp::Gt
                } else {
                    str_cmp(ta.as_str(), tb.as_str())
                }
            },
            _ => {
                proof {
                    assert(false);
                }
                Cmp::Eq
            },
        }
    }
}

proof fn lemma_cmp_elems_step(a: Seq<ValueModel>, b: Seq<ValueModel>, i: int)
    requires
        0 <= i < a.len(),
        i < b.len(),
        cmp_value(a[i], b[i]) == Cmp::Eq,
    ensures
        cmp_elems(a.skip(i), b.skip(i)) == cmp_elems(a.skip(i + 1), b.skip(i + 1)),
{
    assert(a.skip(i).drop_first() =~= a.skip(i + 1));
    assert(b.skip(i).drop_first() =~= b.skip(i + 1));
    assert(a.skip(i)[0] == a[i]);
    assert(b.skip(i)[0] == b[i]);
}

/// Compare two element vectors elementwise.
fn elems_cmp(va: &Vec<Value>, vb: &Vec<Value>) -> (r: Cmp)
    ensures
        r == cmp_elems(crate::value::deep_elems(va@), crate::value::deep_elems(vb@)),
    decreases *va, *vb,
{
    let ghost da = crate::value::deep_elems(va@);
    let ghost db = crate::value::deep_elems(vb@);
    proof {
        crate::value::lemma_deep_elems(va@);
        crate::value::lemma_deep_elems(vb@);
    }
    let mut i: usize = 0;
    proof {
        assert(da.skip(0) =~= da);
        assert(db.skip(0) =~= db);
    }
    loop
        invariant
            i <= va.len(),
            i <= vb.len(),
            da == crate::value::deep_elems(va@),
            db == crate::value::deep_elems(vb@),
            da.len() == va@.len(),
            db.len() == vb@.len(),
            forall|j: int| 0 <= j < va.len() ==> da[j] == va@[j].deep(),
            forall|j: int| 0 <= j < vb.len() ==> db[j] == vb@[j].deep(),
            cmp_elems(da, db) == cmp_elems(da.skip(i as int), db.skip(i as int)),
        decreases va.len() - i,
    {
        if i == va.len() {
            if i == vb.len() {
                return Cmp::Eq;
            } else {
                return Cmp::Lt;
            }
        } else if i == vb.len() {
            return Cmp::Gt;
        } else {
            proof {
                assert(da.skip(i as int)[0] == da[i as int]);
                assert(db.skip(i as int)[0] == db[i as int]);
            }
            let c = value_cmp(&va[i], &vb[i]);
            if let Cmp::Eq = c {
                proof {
                    lemma_cmp_elems_step(da, db, i as int);
                }
                i = i + 1;
            } else {
                return c;
            }
        }
    }
}

proof fn lemma_cmp_fields_step(a: Seq<FieldModel>, b: Seq<FieldModel>, i: int)
    requires
        0 <= i < a.len(),
        i < b.len(),
        cmp_field(a[i], b[i]) == Cmp::Eq,
    ensures
        cmp_fields(a.skip(i), b.skip(i)) == cmp_fields(a.skip(i + 1), b.skip(i + 1)),
{
    assert(a.skip(i).drop_first() =~= a.skip(i + 1));
    assert(b.skip(i).drop_first() =~= b.skip(i + 1));
    assert(a.skip(i)[0] == a[i]);
    assert(b.skip(i)[0] == b[i]);
}

/// Compare two struct field entries.
fn field_cmp(a: &FieldEntry, b: &FieldEntry) -> (r: Cmp)
    ensures
        r == cmp_field(a.deep(), b.deep()),
    decreases *a, *b,
{
    match (a, b) {
        (
            FieldEntry::Field { label: la, value: va },
            FieldEntry::Field { label: lb, value: vb },
        ) => {
            let c = str_cmp(la.as_str(), lb.as_str());
            if let Cmp::Eq = c {
                value_cmp(va, vb)
            } else {
                c
            }
        },
        (FieldEntry::Field { .. }, FieldEntry::Open) => Cmp::Lt,
        (FieldEntry::Open, FieldEntry::Field { .. }) => Cmp::Gt,
        (FieldEntry::Open, FieldEntry::Open) => Cmp::Eq,
    }
}

/// Compare two struct field lists elementwise.
fn fields_cmp(va: &Vec<FieldEntry>, vb: &Vec<FieldEntry>) -> (r: Cmp)
    ensures
        r == cmp_fields(crate::value::deep_fields(va@), crate::value::deep_fields(vb@)),
    decreases *va, *vb,
{
    let ghost da = crate::value::deep_fields(va@);
    let ghost db = crate::value::deep_fields(vb@);
    proof {
        crate::value::lemma_deep_fields(va@);
        crate::value::lemma_deep_fields(vb@);
    }
    let mut i: usize = 0;
    proof {
        assert(da.skip(0) =~= da);
        assert(db.skip(0) =~= db);
    }
    loop
        invariant
            i <= va.len(),
            i <= vb.len(),
            da == crate::value::deep_fields(va@),
            db == crate::value::deep_fields(vb@),
            da.len() == va@.len(),
            db.len() == vb@.len(),
            forall|j: int| 0 <= j < va.len() ==> da[j] == va@[j].deep(),
            forall|j: int| 0 <= j < vb.len() ==> db[j] == vb@[j].deep(),
            cmp_fields(da, db) == cmp_fields(da.skip(i as int), db.skip(i as int)),
        decreases va.len() - i,
    {
        if i == va.len() {
            if i == vb.len() {
                return Cmp::Eq;
            } else {
                return Cmp::Lt;
            }
        } else if i == vb.len() {
            return Cmp::Gt;
        } else {
            proof {
                assert(da.skip(i as int)[0] == da[i as int]);
                assert(db.skip(i as int)[0] == db[i as int]);
            }
            let c = field_cmp(&va[i], &vb[i]);
            if let Cmp::Eq = c {
                proof {
                    lemma_cmp_fields_step(da, db, i as int);
                }
                i = i + 1;
            } else {
                return c;
            }
        }
    }
}

proof fn lemma_cmp_entries_step(a: Seq<EntryModel>, b: Seq<EntryModel>, i: int)
    requires
        0 <= i < a.len(),
        i < b.len(),
        cmp_entry(a[i], b[i]) == Cmp::Eq,
    ensures
        cmp_entries(a.skip(i), b.skip(i)) == cmp_entries(a.skip(i + 1), b.skip(i + 1)),
{
    assert(a.skip(i).drop_first() =~= a.skip(i + 1));
    assert(b.skip(i).drop_first() =~= b.skip(i + 1));
    assert(a.skip(i)[0] == a[i]);
    assert(b.skip(i)[0] == b[i]);
}

/// Compare two map entries: by key, then by value.
pub fn entry_cmp(a: &MapEntry, b: &MapEntry) -> (r: Cmp)
    ensures
        r == cmp_entry(a.deep(), b.deep()),
    decreases *a, *b,
{
    let c = value_cmp(&a.key, &b.key);
    if let Cmp::Eq = c {
        value_cmp(&a.value, &b.value)
    } else {
        c
    }
}

/// Compare two map entry lists elementwise.
fn entries_cmp(va: &Vec<MapEntry>, vb: &Vec<MapEntry>) -> (r: Cmp)
    ensures
        r == cmp_entries(crate::value::deep_entries(va@), crate::value::deep_entries(vb@)),
    decreases *va, *vb,
{
    let ghost da = crate::value::deep_entries(va@);
    let ghost db = crate::value::deep_entries(vb@);
    proof {
        crate::value::lemma_deep_entries(va@);
        crate::value::lemma_deep_entries(vb@);
    }
    let mut i: usize = 0;
    proof {
        assert(da.skip(0) =~= da);
        assert(db.skip(0) =~= db);
    }
    loop
        invariant
            i <= va.len(),
            i <= vb.len(),
            da == crate::value::deep_entries(va@),
            db == crate::value::deep_entries(vb@),
            da.len() == va@.len(),
            db.len() == vb@.len(),
            forall|j: int| 0 <= j < va.len() ==> da[j] == va@[j].deep(),
            forall|j: int| 0 <= j < vb.len() ==> db[j] == vb@[j].deep(),
            cmp_entries(da, db) == cmp_entries(da.skip(i as int), db.skip(i as int)),
        decreases va.len() - i,
    {
        if i == va.len() {
            if i == vb.len() {
                return Cmp::Eq;
            } else {
                return Cmp::Lt;
            }
        } else if i == vb.len() {
            return Cmp::Gt;
        } else {
            proof {
                assert(da.skip(i as int)[0] == da[i as int]);
                assert(db.skip(i as int)[0] == db[i as int]);
            }
            let c = entry_cmp(&va[i], &vb[i]);
            if let Cmp::Eq = c {
                proof {
                    lemma_cmp_entries_step(da, db, i as int);
                }
                i = i + 1;
            } else {
                return c;
            }
        }
    }
}

/// Compare two map entries by key alone.
pub fn entry_key_cmp(a: &MapEntry, b: &MapEntry) -> (r: Cmp)
    ensures
        r == cmp_value(a.deep().key, b.deep().key),
{
    value_cmp(&a.key, &b.key)
}


/// Comparing a character sequence with itself yields `Eq`.
pub proof fn lemma_cmp_chars_refl(a: Seq<char>)
    ensures
        cmp_chars(a, a) == Cmp::Eq,
    decreases a.len(),
{
    if a.len() > 0 {
        lemma_cmp_chars_refl(a.drop_first());
    }
}

/// Comparing a value with itself yields `Eq`.
pub proof fn lemma_cmp_value_refl(a: ValueModel)
    ensures
        cmp_value(a, a) == Cmp::Eq,
    decreases a,
{
    match a {
        ValueModel::Struct { name, fields } => {
            lemma_cmp_chars_refl(name);
            lemma_cmp_fields_refl(fields);
        },
        ValueModel::SetVal { elems } => lemma_cmp_elems_refl(elems),
        ValueModel::MapVal { entries } => lemma_cmp_entries_refl(entries),
        ValueModel::List { elems } => lemma_cmp_elems_refl(elems),
        ValueModel::Tuple { name, elems } => {
            match name {
                Some(n) => lemma_cmp_chars_refl(n),
                None => (),
            }
            lemma_cmp_elems_refl(elems);
        },
        ValueModel::Term { kind, text } => lemma_cmp_chars_refl(text),
    }
}

proof fn lemma_cmp_elems_refl(s: Seq<ValueModel>)
    ensures
        cmp_elems(s, s) == Cmp::Eq,
    decreases s,
{
    if s.len() > 0 {
        lemma_cmp_value_refl(s[0]);
        lemma_cmp_elems_refl(s.drop_first());
    }
}

proof fn lemma_cmp_fields_refl(s: Seq<FieldModel>)
    ensures
        cmp_fields(s, s) == Cmp::Eq,
    decreases s,
{
    if s.len() > 0 {
        match s[0] {
            FieldModel::Field { label, value } => {
                lemma_cmp_chars_refl(label);
                lemma_cmp_value_refl(value);
            },
            FieldModel::Open => (),
        }
        assert(cmp_field(s[0], s[0]) == Cmp::Eq);
        lemma_cmp_fields_refl(s.drop_first());
    }
}

proof fn lemma_cmp_entries_refl(s: Seq<EntryModel>)
    ensures
        cmp_entries(s, s) == Cmp::Eq,
    decreases s,
{
    if s.len() > 0 {
        lemma_cmp_value_refl(s[0].key);
        lemma_cmp_value_refl(s[0].value);
        assert(cmp_entry(s[0], s[0]) == Cmp::Eq);
        lemma_cmp_entries_refl(s.drop_first());
    }
}

/// Character sequences that compare `Eq` are equal.
pub proof fn lemma_cmp_chars_eq(a: Seq<char>, b: Seq<char>)
    requires
        cmp_chars(a, b) == Cmp::Eq,
    ensures
        a == b,
    decreases a.len(),
{
    if a.len() == 0 {
        assert(a =~= b);
    } else {
        assert(a[0] as int == b[0] as int);
        assert(a[0] == b[0]);
        lemma_cmp_chars_eq(a.drop_first(), b.drop_first());
        assert(a.drop_first() == b.drop_first());
        assert(a.len() == b.len());
        assert forall|j: int| 0 <= j < a.len() implies a[j] == b[j] by {
            if j > 0 {
                assert(a.drop_first()[j - 1] == b.drop_first()[j - 1]);
            }
        }
        assert(a =~= b);
    }
}

/// Values that compare `Eq` are equal.
pub proof fn lemma_cmp_value_eq(a: ValueModel, b: ValueModel)
    requires
        cmp_value(a, b) == Cmp::Eq,
    ensures
        a == b,
    decreases a, b,
{
    match (a, b) {
        (
            ValueModel::Struct { name: na, fields: fa },
            ValueModel::Struct { name: nb, fields: fb },
        ) => {
            lemma_cmp_chars_eq(na, nb);
            lemma_cmp_fields_eq(fa, fb);
        },
        (ValueModel::SetVal { elems: ea }, ValueModel::SetVal { elems: eb }) => {
            lemma_cmp_elems_eq(ea, eb);
        },
        (ValueModel::MapVal { entries: ea }, ValueModel::MapVal { entries: eb }) => {
            lemma_cmp_entries_eq(ea, eb);
        },
        (ValueModel::List { elems: ea }, ValueModel::List { elems: eb }) => {
            lemma_cmp_elems_eq(ea, eb);
        },
        (
            ValueModel::Tuple { name: na, elems: ea },
            ValueModel::Tuple { name: nb, elems: eb },
        ) => {
            match (na, nb) {
                (Option::Some(x), Option::Some(y)) => lemma_cmp_chars_eq(x, y),
                _ => (),
            }
            lemma_cmp_elems_eq(ea, eb);
        },
        (ValueModel::Term { kind: ka, text: ta }, ValueModel::Term { kind: kb, text: tb }) => {
            lemma_cmp_chars_eq(ta, tb);
        },
        _ => (),
    }
}

proof fn lemma_cmp_elems_eq(a: Seq<ValueModel>, b: Seq<ValueModel>)
    requires
        cmp_elems(a, b) == Cmp::Eq,
    ensures
        a == b,
    decreases a, b,
{
    if a.len() == 0 {
        assert(a =~= b);
    } else {
        lemma_cmp_value_eq(a[0], b[0]);
        lemma_cmp_elems_eq(a.drop_first(), b.drop_first());
        assert(a.drop_first() == b.drop_first());
        assert(a.len() == b.len());
        assert forall|j: int| 0 <= j < a.len() implies a[j] == b[j] by {
            if j > 0 {
                assert(a.drop_first()[j - 1] == b.drop_first()[j - 1]);
            }
        }
        assert(a =~= b);
    }
}

proof fn lemma_cmp_fields_eq(a: Seq<FieldModel>, b: Seq<FieldModel>)
    requires
        cmp_fields(a, b) == Cmp::Eq,
    ensures
        a == b,
    decreases a, b,
{
    if a.len() == 0 {
        assert(a =~= b);
    } else {
        assert(cmp_field(a[0], b[0]) == Cmp::Eq);
        match (a[0], b[0]) {
            (
                FieldModel::Field { label: la, value: va },
                FieldModel::Field { label: lb, value: vb },
            ) => {
                lemma_cmp_chars_eq(la, lb);
                lemma_cmp_value_eq(va, vb);
                assert(a[0] =~= b[0]);
            },
            _ => (),
        }
        assert(a[0] == b[0]);
        lemma_cmp_fields_eq(a.drop_first(), b.drop_first());
        assert(a.drop_first() == b.drop_first());
        assert(a.len() == b.len());
        assert forall|j: int| 0 <= j < a.len() implies a[j] == b[j] by {
            if j > 0 {
                assert(a.drop_first()[j - 1] == b.drop_first()[j - 1]);
            }
        }
        assert(a =~= b);
    }
}

proof fn lemma_cmp_entries_eq(a: Seq<EntryModel>, b: Seq<EntryModel>)
    requires
        cmp_entries(a, b) == Cmp::Eq,
    ensures
        a == b,
    decreases a, b,
{
    if a.len() == 0 {
        assert(a =~= b);
    } else {
        assert(cmp_entry(a[0], b[0]) == Cmp::Eq);
        lemma_cmp_value_eq(a[0].key, b[0].key);
        lemma_cmp_value_eq(a[0].value, b[0].value);
        assert(a[0] =~= b[0]);
        lemma_cmp_entries_eq(a.drop_first(), b.drop_first());
        assert(a.drop_first() == b.drop_first());
        assert(a.len() == b.len());
        assert forall|j: int| 0 <= j < a.len() implies a[j] == b[j] by {
            if j > 0 {
                assert(a.drop_first()[j - 1] == b.drop_first()[j - 1]);
            }
        }
        assert(a =~= b);
    }
}

/// Reversing the operands flips the outcome.
pub proof fn lemma_cmp_chars_flip(a: Seq<char>, b: Seq<char>)
    ensures
        cmp_chars(b, a) == flip(cmp_chars(a, b)),
    decreases a.len(),
{
    if a.len() > 0 && b.len() > 0 {
        lemma_cmp_chars_flip(a.drop_first(), b.drop_first());
    }
}

/// Reversing the operands flips the outcome.
pub proof fn lemma_cmp_value_flip(a: ValueModel, b: ValueModel)
    ensures
        cmp_value(b, a) == flip(cmp_value(a, b)),
    decreases a, b,
{
    if rank(a) == rank(b) {
        match (a, b) {
            (
                ValueModel::Struct { name: na, fields: fa },
                ValueModel::Struct { name: nb, fields: fb },
            ) => {
                lemma_cmp_chars_flip(na, nb);
                lemma_cmp_fields_flip(fa, fb);
            },
            (ValueModel::SetVal { elems: ea }, ValueModel::SetVal { elems: eb }) => {
                lemma_cmp_elems_flip(ea, eb);
            },
            (ValueModel::MapVal { entries: ea }, ValueModel::MapVal { entries: eb }) => {
                lemma_cmp_entries_flip(ea, eb);
            },
            (ValueModel::List { elems: ea }, ValueModel::List { elems: eb }) => {
                lemma_cmp_elems_flip(ea, eb);
            },
            (
                ValueModel::Tuple { name: na, elems: ea },
                ValueModel::Tuple { name: nb, elems: eb },
            ) => {
                match (na, nb) {
                    (Option::Some(x), Option::Some(y)) => lemma_cmp_chars_flip(x, y),
                    _ => (),
                }
                lemma_cmp_elems_flip(ea, eb);
            },
            (
                ValueModel::Term { kind: ka, text: ta },
                ValueModel::Term { kind: kb, text: tb },
            ) => {
                lemma_cmp_chars_flip(ta, tb);
            },
            _ => (),
        }
    }
}

proof fn lemma_cmp_elems_flip(a: Seq<ValueModel>, b: Seq<ValueModel>)
    ensures
        cmp_elems(b, a) == flip(cmp_elems(a, b)),
    decreases a, b,
{
    if a.len() > 0 && b.len() > 0 {
        lemma_cmp_value_flip(a[0], b[0]);
        lemma_cmp_elems_flip(a.drop_first(), b.drop_first());
    }
}

proof fn lemma_cmp_fields_flip(a: Seq<FieldModel>, b: Seq<FieldModel>)
    ensures
        cmp_fields(b, a) == flip(cmp_fields(a, b)),
    decreases a, b,
{
    if a.len() > 0 && b.len() > 0 {
        match (a[0], b[0]) {
            (
                FieldModel::Field { label: la, value: va },
                FieldModel::Field { label: lb, value: vb },
            ) => {
                lemma_cmp_chars_flip(la, lb);
                lemma_cmp_value_flip(va, vb);
            },
            _ => (),
        }
        assert(cmp_field(b[0], a[0]) == flip(cmp_field(a[0], b[0])));
        lemma_cmp_fields_flip(a.drop_first(), b.drop_first());
    }
}

proof fn lemma_cmp_entries_flip(a: Seq<EntryModel>, b: Seq<EntryModel>)
    ensures
        cmp_entries(b, a) == flip(cmp_entries(a, b)),
    decreases a, b,
{
    if a.len() > 0 && b.len() > 0 {
        lemma_cmp_value_flip(a[0].key, b[0].key);
        lemma_cmp_value_flip(a[0].value, b[0].value);
        assert(cmp_entry(b[0], a[0]) == flip(cmp_entry(a[0], b[0])));
        lemma_cmp_entries_flip(a.drop_first(), b.drop_first());
    }
}


/// The strict character order is transitive.
pub proof fn lemma_cmp_chars_trans(a: Seq<char>, b: Seq<char>, c: Seq<char>)
    requires
        cmp_chars(a, b) == Cmp::Lt,
        cmp_chars(b, c) == Cmp::Lt,
    ensures
        cmp_chars(a, c) == Cmp::Lt,
    decreases a.len(),
{
    if a.len() == 0 {
    } else {
        if cmp_int(a[0] as int, b[0] as int) == Cmp::Eq && cmp_int(b[0] as int, c[0] as int)
            == Cmp::Eq {
            lemma_cmp_chars_trans(a.drop_first(), b.drop_first(), c.drop_first());
        }
    }
}

/// The strict structural order is transitive.
pub proof fn lemma_cmp_value_trans(a: ValueModel, b: ValueModel, c: ValueModel)
    requires
        cmp_value(a, b) == Cmp::Lt,
        cmp_value(b, c) == Cmp::Lt,
    ensures
        cmp_value(a, c) == Cmp::Lt,
    decreases a, b, c,
{
    if rank(a) == rank(b) && rank(b) == rank(c) {
        match (a, b, c) {
            (
                ValueModel::Struct { name: na, fields: fa },
                ValueModel::Struct { name: nb, fields: fb },
                ValueModel::Struct { name: nc, fields: fc },
            ) => {
                if cmp_chars(na, nb) == Cmp::Eq {
                    lemma_cmp_chars_eq(na, nb);
                }
                if cmp_chars(nb, nc) == Cmp::Eq {
                    lemma_cmp_chars_eq(nb, nc);
                }
                if cmp_chars(na, nb) == Cmp::Lt && cmp_chars(nb, nc) == Cmp::Lt {
                    lemma_cmp_chars_trans(na, nb, nc);
                }
                if cmp_fields(fa, fb) == Cmp::Lt && cmp_fields(fb, fc) == Cmp::Lt {
                    lemma_cmp_fields_trans(fa, fb, fc);
                }
            },
            (
                ValueModel::SetVal { elems: ea },
                ValueModel::SetVal { elems: eb },
                ValueModel::SetVal { elems: ec },
            ) => {
                lemma_cmp_elems_trans(ea, eb, ec);
            },
            (
                ValueModel::MapVal { entries: ea },
                ValueModel::MapVal { entries: eb },
                ValueModel::MapVal { entries: ec },
            ) => {
                lemma_cmp_entries_trans(ea, eb, ec);
            },
            (
                ValueModel::List { elems: ea },
                ValueModel::List { elems: eb },
                ValueModel::List { elems: ec },
            ) => {
                lemma_cmp_elems_trans(ea, eb, ec);
            },
            (
                ValueModel::Tuple { name: na, elems: ea },
                ValueModel::Tuple { name: nb, elems: eb },
                ValueModel::Tuple { name: nc, elems: ec },
            ) => {
                match (na, nb, nc) {
                    (Option::Some(x), Option::Some(y), Option::Some(z)) => {
                        if cmp_chars(x, y) == Cmp::Eq {
                            lemma_cmp_chars_eq(x, y);
                        }
                        if cmp_chars(y, z) == Cmp::Eq {
                            lemma_cmp_chars_eq(y, z);
                        }
                        if cmp_chars(x, y) == Cmp::Lt && cmp_chars(y, z) == Cmp::Lt {
                            lemma_cmp_chars_trans(x, y, z);
                        }
                    },
                    _ => (),
                }
                if cmp_elems(ea, eb) == Cmp::Lt && cmp_elems(eb, ec) == Cmp::Lt {
                    lemma_cmp_elems_trans(ea, eb, ec);
                }
            },
            (
                ValueModel::Term { kind: ka, text: ta },
                ValueModel::Term { kind: kb, text: tb },
                ValueModel::Term { kind: kc, text: tc },
            ) => {
                if cmp_chars(ta, tb) == Cmp::Lt && cmp_chars(tb, tc) == Cmp::Lt {
                    lemma_cmp_chars_trans(ta, tb, tc);
                }
            },
            _ => (),
        }
    }
}

proof fn lemma_cmp_elems_trans(a: Seq<ValueModel>, b: Seq<ValueModel>, c: Seq<ValueModel>)
    requires
        cmp_elems(a, b) == Cmp::Lt,
        cmp_elems(b, c) == Cmp::Lt,
    ensures
        cmp_elems(a, c) == Cmp::Lt,
    decreases a, b, c,
{
    if a.len() == 0 {
    } else {
        if cmp_value(a[0], b[0]) == Cmp::Eq {
            lemma_cmp_value_eq(a[0], b[0]);
        }
        if cmp_value(b[0], c[0]) == Cmp::Eq {
            lemma_cmp_value_eq(b[0], c[0]);
        }
        if cmp_value(a[0], b[0]) == Cmp::Lt && cmp_value(b[0], c[0]) == Cmp::Lt {
            lemma_cmp_value_trans(a[0], b[0], c[0]);
        }
        if cmp_elems(a.drop_first(), b.drop_first()) == Cmp::Lt && cmp_elems(
            b.drop_first(),
            c.drop_first(),
        ) == Cmp::Lt {
            lemma_cmp_elems_trans(a.drop_first(), b.drop_first(), c.drop_first());
        }
    }
}

proof fn lemma_cmp_fields_trans(a: Seq<FieldModel>, b: Seq<FieldModel>, c: Seq<FieldModel>)
    requires
        cmp_fields(a, b) == Cmp::Lt,
        cmp_fields(b, c) == Cmp::Lt,
    ensures
        cmp_fields(a, c) == Cmp::Lt,
    decreases a, b, c,
{
    if a.len() == 0 {
    } else {
        if cmp_field(a[0], b[0]) == Cmp::Eq {
            lemma_cmp_field_eq_head(a[0], b[0]);
        }
        if cmp_field(b[0], c[0]) == Cmp::Eq {
            lemma_cmp_field_eq_head(b[0], c[0]);
        }
        if cmp_field(a[0], b[0]) == Cmp::Lt && cmp_field(b[0], c[0]) == Cmp::Lt {
            lemma_cmp_field_trans(a[0], b[0], c[0]);
        }
        if cmp_fields(a.drop_first(), b.drop_first()) == Cmp::Lt && cmp_fields(
            b.drop_first(),
            c.drop_first(),
        ) == Cmp::Lt {
            lemma_cmp_fields_trans(a.drop_first(), b.drop_first(), c.drop_first());
        }
    }
}

proof fn lemma_cmp_field_eq_head(a: FieldModel, b: FieldModel)
    requires
        cmp_field(a, b) == Cmp::Eq,
    ensures
        a == b,
    decreases a, b,
{
    match (a, b) {
        (
            FieldModel::Field { label: la, value: va },
            FieldModel::Field { label: lb, value: vb },
        ) => {
            lemma_cmp_chars_eq(la, lb);
            lemma_cmp_value_eq(va, vb);
            assert(a =~= b);
        },
        _ => (),
    }
}

proof fn lemma_cmp_field_trans(a: FieldModel, b: FieldModel, c: FieldModel)
    requires
        cmp_field(a, b) == Cmp::Lt,
        cmp_field(b, c) == Cmp::Lt,
    ensures
        cmp_field(a, c) == Cmp::Lt,
    decreases a, b, c,
{
    match (a, b, c) {
        (
            FieldModel::Field { label: la, value: va },
            FieldModel::Field { label: lb, value: vb },
            FieldModel::Field { label: lc, value: vc },
        ) => {
            if cmp_chars(la, lb) == Cmp::Eq {
                lemma_cmp_chars_eq(la, lb);
            }
            if cmp_chars(lb, lc) == Cmp::Eq {
                lemma_cmp_chars_eq(lb, lc);
            }
            if cmp_chars(la, lb) == Cmp::Lt && cmp_chars(lb, lc) == Cmp::Lt {
                lemma_cmp_chars_trans(la, lb, lc);
            }
            if cmp_value(va, vb) == Cmp::Lt && cmp_value(vb, vc) == Cmp::Lt {
                lemma_cmp_value_trans(va, vb, vc);
            }
        },
        _ => (),
    }
}

proof fn lemma_cmp_entries_trans(a: Seq<EntryModel>, b: Seq<EntryModel>, c: Seq<EntryModel>)
    requires
        cmp_entries(a, b) == Cmp::Lt,
        cmp_entries(b, c) == Cmp::Lt,
    ensures
        cmp_entries(a, c) == Cmp::Lt,
    decreases a, b, c,
{
    if a.len() == 0 {
    } else {
        if cmp_entry(a[0], b[0]) == Cmp::Eq {
            lemma_cmp_entry_eq_head(a[0], b[0]);
        }
        if cmp_entry(b[0], c[0]) == Cmp::Eq {
            lemma_cmp_entry_eq_head(b[0], c[0]);
        }
        if cmp_entry(a[0], b[0]) == Cmp::Lt && cmp_entry(b[0], c[0]) == Cmp::Lt {
            lemma_cmp_entry_trans(a[0], b[0], c[0]);
        }
        if cmp_entries(a.drop_first(), b.drop_first()) == Cmp::Lt && cmp_entries(
            b.drop_first(),
            c.drop_first(),
        ) == Cmp::Lt {
            lemma_cmp_entries_trans(a.drop_first(), b.drop_first(), c.drop_first());
        }
    }
}

proof fn lemma_cmp_entry_eq_head(a: EntryModel, b: EntryModel)
    requires
        cmp_entry(a, b) == Cmp::Eq,
    ensures
        a == b,
    decreases a, b,
{
    lemma_cmp_value_eq(a.key, b.key);
    lemma_cmp_value_eq(a.value, b.value);
    assert(a =~= b);
}

proof fn lemma_cmp_entry_trans(a: EntryModel, b: EntryModel, c: EntryModel)
    requires
        cmp_entry(a, b) == Cmp::Lt,
        cmp_entry(b, c) == Cmp::Lt,
    ensures
        cmp_entry(a, c) == Cmp::Lt,
    decreases a, b, c,
{
    if cmp_value(a.key, b.key) == Cmp::Eq {
        lemma_cmp_value_eq(a.key, b.key);
    }
    if cmp_value(b.key, c.key) == Cmp::Eq {
        lemma_cmp_value_eq(b.key, c.key);
    }
    if cmp_value(a.key, b.key) == Cmp::Lt && cmp_value(b.key, c.key) == Cmp::Lt {
        lemma_cmp_value_trans(a.key, b.key, c.key);
    }
    if cmp_value(a.value, b.value) == Cmp::Lt && cmp_value(b.value, c.value) == Cmp::Lt {
        lemma_cmp_value_trans(a.value, b.value, c.value);
    }
}

/// `value_le` is a total ordering: reflexive, transitive, antisymmetric,
/// and any two values are comparable.
pub proof fn lemma_value_le_properties()
    ensures
        forall|a: ValueModel| #[trigger] value_le(a, a),
        forall|a: ValueModel, b: ValueModel, c: ValueModel|
            #[trigger] value_le(a, b) && #[trigger] value_le(b, c) ==> value_le(a, c),
        forall|a: ValueModel, b: ValueModel|
            #[trigger] value_le(a, b) && #[trigger] value_le(b, a) ==> a == b,
        forall|a: ValueModel, b: ValueModel| value_le(a, b) || value_le(b, a),
{
    assert forall|a: ValueModel| #[trigger] value_le(a, a) by {
        lemma_cmp_value_refl(a);
    }
    assert forall|a: ValueModel, b: ValueModel, c: ValueModel|
        #[trigger] value_le(a, b) && #[trigger] value_le(b, c) implies value_le(a, c) by {
        if cmp_value(a, b) == Cmp::Eq {
            lemma_cmp_value_eq(a, b);
        } else if cmp_value(b, c) == Cmp::Eq {
            lemma_cmp_value_eq(b, c);
        } else {
            lemma_cmp_value_trans(a, b, c);
        }
    }
    assert forall|a: ValueModel, b: ValueModel|
        #[trigger] value_le(a, b) && #[trigger] value_le(b, a) implies a == b by {
        lemma_cmp_value_flip(a, b);
        lemma_cmp_value_eq(a, b);
    }
    assert forall|a: ValueModel, b: ValueModel| value_le(a, b) || value_le(b, a) by {
        lemma_cmp_value_flip(a, b);
    }
}

} // verus!
