//! The library's laws: what normalization guarantees, stated and proved
//! once over all values.
use vstd::prelude::*;

use crate::normalize::{
    insort_elem, insort_entry, lemma_insort_elem_at, lemma_insort_entry_at,
    lemma_norm_entries_sorted, lemma_norm_fields, lemma_norm_sorted, lemma_sort_elems_multiset,
    lemma_sort_entries_multiset, norm_field, normal_of, sort_elems, sort_entries,
};
use crate::order::{
    cmp_value, entry_key_le, lemma_cmp_value_flip, lemma_value_le_properties, value_le, Cmp,
};
use crate::value::{EntryModel, FieldModel, ValueModel};

verus! {

/// The elements stand in the structural order.
pub open spec fn sorted_elems(s: Seq<ValueModel>) -> bool {
    forall|i: int, j: int| 0 <= i < j < s.len() ==> value_le(#[trigger] s[i], #[trigger] s[j])
}

/// The entries stand in key order.
pub open spec fn key_sorted_entries(s: Seq<EntryModel>) -> bool {
    forall|i: int, j: int| 0 <= i < j < s.len() ==> entry_key_le(#[trigger] s[i], #[trigger] s[j])
}

/// Every element of the sequence is in canonical form.
pub open spec fn all_normal(s: Seq<ValueModel>) -> bool
    decreases s,
{
    s.len() == 0 || (all_normal(s.drop_last()) && is_normal(s.last()))
}

/// Every entry's key and value is in canonical form.
pub open spec fn all_normal_entries(s: Seq<EntryModel>) -> bool
    decreases s,
{
    s.len() == 0 || (all_normal_entries(s.drop_last()) && is_normal(s.last().key) && is_normal(
        s.last().value,
    ))
}

/// Every field's value is in canonical form.
pub open spec fn all_normal_fields(s: Seq<FieldModel>) -> bool
    decreases s,
{
    s.len() == 0 || (all_normal_fields(s.drop_last()) && (match s.last() {
        FieldModel::Field { value, .. } => is_normal(value),
        FieldModel::Open => true,
    }))
}

/// The value is in canonical form: every set, map, list and tuple is
/// sorted, and every nested value is in canonical form too.
pub open spec fn is_normal(m: ValueModel) -> bool
    decreases m,
{
    match m {
        ValueModel::Struct { fields, .. } => all_normal_fields(fields),
        ValueModel::SetVal { elems } => sorted_elems(elems) && all_normal(elems),
        ValueModel::MapVal { entries } => key_sorted_entries(entries) && all_normal_entries(
            entries,
        ),
        ValueModel::List { elems } => sorted_elems(elems) && all_normal(elems),
        ValueModel::Tuple { elems, .. } => sorted_elems(elems) && all_normal(elems),
        ValueModel::Term { .. } => true,
    }
}

proof fn lemma_all_normal_index(s: Seq<ValueModel>)
    requires
        all_normal(s),
    ensures
        forall|i: int| 0 <= i < s.len() ==> is_normal(#[trigger] s[i]),
    decreases s.len(),
{
    if s.len() > 0 {
        lemma_all_normal_index(s.drop_last());
        assert forall|i: int| 0 <= i < s.len() implies is_normal(#[trigger] s[i]) by {
            if i < s.len() - 1 {
                assert(s.drop_last()[i] == s[i]);
                assert(is_normal(s.drop_last()[i]));
            } else {
                assert(s[i] == s.last());
            }
        }
    }
}

proof fn lemma_all_normal_entries_index(s: Seq<EntryModel>)
    requires
        all_normal_entries(s),
    ensures
        forall|i: int|
            0 <= i < s.len() ==> is_normal((#[trigger] s[i]).key) && is_normal(s[i].value),
    decreases s.len(),
{
    if s.len() > 0 {
        lemma_all_normal_entries_index(s.drop_last());
        assert forall|i: int|
            0 <= i < s.len() implies is_normal((#[trigger] s[i]).key) && is_normal(
            s[i].value,
        ) by {
            if i < s.len() - 1 {
                assert(s.drop_last()[i] == s[i]);
                assert(is_normal(s.drop_last()[i].key));
            } else {
                assert(s[i] == s.last());
            }
        }
    }
}

proof fn lemma_all_normal_fields_index(s: Seq<FieldModel>)
    requires
        all_normal_fields(s),
    ensures
        forall|i: int|
            0 <= i < s.len() ==> (match #[trigger] s[i] {
                FieldModel::Field { value, .. } => is_normal(value),
                FieldModel::Open => true,
            }),
    decreases s.len(),
{
    if s.len() > 0 {
        lemma_all_normal_fields_index(s.drop_last());
        assert forall|i: int|
            0 <= i < s.len() implies (match #[trigger] s[i] {
            FieldModel::Field { value, .. } => is_normal(value),
            FieldModel::Open => true,
        }) by {
            if i < s.len() - 1 {
                assert(s.drop_last()[i] == s[i]);
                assert(match s.drop_last()[i] {
                    FieldModel::Field { value, .. } => is_normal(value),
                    FieldModel::Open => true,
                });
            } else {
                assert(s[i] == s.last());
            }
        }
    }
}

/// Where `insort_elem` puts the element: before the first strictly
/// larger one.
spec fn insort_pos(x: ValueModel, s: Seq<ValueModel>) -> int
    decreases s.len(),
{
    if s.len() == 0 {
        0
    } else if cmp_value(x, s[0]) == Cmp::Lt {
        0
    } else {
        1 + insort_pos(x, s.drop_first())
    }
}

proof fn lemma_insort_pos(x: ValueModel, s: Seq<ValueModel>)
    ensures
        0 <= insort_pos(x, s) <= s.len(),
        forall|i: int| 0 <= i < insort_pos(x, s) ==> cmp_value(x, #[trigger] s[i]) != Cmp::Lt,
        insort_pos(x, s) < s.len() ==> cmp_value(x, s[insort_pos(x, s)]) == Cmp::Lt,
    decreases s.len(),
{
    if s.len() > 0 && cmp_value(x, s[0]) != Cmp::Lt {
        lemma_insort_pos(x, s.drop_first());
        assert forall|i: int|
            0 <= i < insort_pos(x, s) implies cmp_value(x, #[trigger] s[i]) != Cmp::Lt by {
            if i > 0 {
                assert(s.drop_first()[i - 1] == s[i]);
            }
        }
    }
}

/// Inserting into a sorted sequence keeps it sorted.
proof fn lemma_insort_elem_sorted(x: ValueModel, s: Seq<ValueModel>)
    requires
        sorted_elems(s),
    ensures
        sorted_elems(insort_elem(x, s)),
{
    lemma_value_le_properties();
    lemma_insort_pos(x, s);
    let p = insort_pos(x, s);
    lemma_insort_elem_at(x, s, p);
    let r = insort_elem(x, s);
    assert forall|i: int, j: int| 0 <= i < j < r.len() implies value_le(
        #[trigger] r[i],
        #[trigger] r[j],
    ) by {
        if i < p {
            assert(r[i] == s[i]);
            lemma_cmp_value_flip(x, s[i]);
        }
        if j < p {
            assert(r[j] == s[j]);
        }
        if i > p {
            assert(r[i] == s[i - 1]);
        }
        if j > p {
            assert(r[j] == s[j - 1]);
        }
        if i == p && j > p {
            assert(r[i] == x && r[j] == s[j - 1]);
            assert(cmp_value(x, s[p]) == Cmp::Lt);
            assert(value_le(x, s[p]));
            if j - 1 > p {
                assert(value_le(s[p], s[j - 1]));
            }
        }
        if j == p {
            assert(r[j] == x);
            lemma_cmp_value_flip(x, s[i]);
        }
    }
}

/// Sorting yields a sorted sequence.
pub proof fn lemma_sort_elems_sorted(s: Seq<ValueModel>)
    ensures
        sorted_elems(sort_elems(s)),
    decreases s.len(),
{
    if s.len() > 0 {
        lemma_sort_elems_sorted(s.drop_last());
        lemma_insort_elem_sorted(s.last(), sort_elems(s.drop_last()));
    }
}

/// Where `insort_entry` puts the entry: before the first entry with a
/// strictly larger key.
spec fn insort_entry_pos(x: EntryModel, s: Seq<EntryModel>) -> int
    decreases s.len(),
{
    if s.len() == 0 {
        0
    } else if cmp_value(x.key, s[0].key) == Cmp::Lt {
        0
    } else {
        1 + insort_entry_pos(x, s.drop_first())
    }
}

proof fn lemma_insort_entry_pos(x: EntryModel, s: Seq<EntryModel>)
    ensures
        0 <= insort_entry_pos(x, s) <= s.len(),
        forall|i: int|
            0 <= i < insort_entry_pos(x, s) ==> cmp_value(x.key, (#[trigger] s[i]).key)
                != Cmp::Lt,
        insort_entry_pos(x, s) < s.len() ==> cmp_value(x.key, s[insort_entry_pos(x, s)].key)
            == Cmp::Lt,
    decreases s.len(),
{
    if s.len() > 0 && cmp_value(x.key, s[0].key) != Cmp::Lt {
        lemma_insort_entry_pos(x, s.drop_first());
        assert forall|i: int|
            0 <= i < insort_entry_pos(x, s) implies cmp_value(x.key, (#[trigger] s[i]).key)
            != Cmp::Lt by {
            if i > 0 {
                assert(s.drop_first()[i - 1] == s[i]);
            }
        }
    }
}

/// Inserting into a key-sorted entry list keeps it key-sorted.
proof fn lemma_insort_entry_sorted(x: EntryModel, s: Seq<EntryModel>)
    requires
        key_sorted_entries(s),
    ensures
        key_sorted_entries(insort_entry(x, s)),
{
    lemma_value_le_properties();
    lemma_insort_entry_pos(x, s);
    let p = insort_entry_pos(x, s);
    lemma_insort_entry_at(x, s, p);
    let r = insort_entry(x, s);
    assert forall|i: int, j: int| 0 <= i < j < r.len() implies entry_key_le(
        #[trigger] r[i],
        #[trigger] r[j],
    ) by {
        if i < p {
            assert(r[i] == s[i]);
            lemma_cmp_value_flip(x.key, s[i].key);
        }
        if j < p {
            assert(r[j] == s[j]);
        }
        if i > p {
            assert(r[i] == s[i - 1]);
        }
        if j > p {
            assert(r[j] == s[j - 1]);
        }
        if i == p && j > p {
            assert(r[i] == x && r[j] == s[j - 1]);
            assert(cmp_value(x.key, s[p].key) == Cmp::Lt);
            assert(value_le(x.key, s[p].key));
            if j - 1 > p {
                assert(entry_key_le(s[p], s[j - 1]));
                assert(value_le(s[p].key, s[j - 1].key));
            }
        }
        if j == p {
            assert(r[j] == x);
            lemma_cmp_value_flip(x.key, s[i].key);
        }
    }
}

/// Sorting by key yields a key-sorted entry list.
pub proof fn lemma_sort_entries_sorted(s: Seq<EntryModel>)
    ensures
        key_sorted_entries(sort_entries(s)),
    decreases s.len(),
{
    if s.len() > 0 {
        lemma_sort_entries_sorted(s.drop_last());
        lemma_insort_entry_sorted(s.last(), sort_entries(s.drop_last()));
    }
}

proof fn lemma_insort_after_all(x: ValueModel, s: Seq<ValueModel>)
    requires
        forall|i: int| 0 <= i < s.len() ==> value_le(#[trigger] s[i], x),
    ensures
        insort_elem(x, s) == s.push(x),
    decreases s.len(),
{
    if s.len() == 0 {
        assert(insort_elem(x, s) =~= s.push(x));
    } else {
        lemma_cmp_value_flip(x, s[0]);
        assert forall|i: int|
            0 <= i < s.drop_first().len() implies value_le(#[trigger] s.drop_first()[i], x) by {
            assert(s.drop_first()[i] == s[i + 1]);
        }
        lemma_insort_after_all(x, s.drop_first());
        assert(insort_elem(x, s) =~= s.push(x));
    }
}

proof fn lemma_insort_entry_after_all(x: EntryModel, s: Seq<EntryModel>)
    requires
        forall|i: int| 0 <= i < s.len() ==> entry_key_le(#[trigger] s[i], x),
    ensures
        insort_entry(x, s) == s.push(x),
    decreases s.len(),
{
    if s.len() == 0 {
        assert(insort_entry(x, s) =~= s.push(x));
    } else {
        lemma_cmp_value_flip(x.key, s[0].key);
        assert forall|i: int|
            0 <= i < s.drop_first().len() implies entry_key_le(#[trigger] s.drop_first()[i], x) by {
            assert(s.drop_first()[i] == s[i + 1]);
        }
        lemma_insort_entry_after_all(x, s.drop_first());
        assert(insort_entry(x, s) =~= s.push(x));
    }
}

/// Sorting a sorted sequence leaves it unchanged.
pub proof fn lemma_sort_elems_of_sorted(s: Seq<ValueModel>)
    requires
        sorted_elems(s),
    ensures
        sort_elems(s) == s,
    decreases s.len(),
{
    if s.len() > 0 {
        assert forall|i: int, j: int|
            0 <= i < j < s.drop_last().len() implies value_le(
            #[trigger] s.drop_last()[i],
            #[trigger] s.drop_last()[j],
        ) by {
            assert(s.drop_last()[i] == s[i] && s.drop_last()[j] == s[j]);
        }
        lemma_sort_elems_of_sorted(s.drop_last());
        assert forall|i: int|
            0 <= i < s.drop_last().len() implies value_le(#[trigger] s.drop_last()[i], s.last()) by {
            assert(s.drop_last()[i] == s[i]);
        }
        lemma_insort_after_all(s.last(), s.drop_last());
        assert(s.drop_last().push(s.last()) =~= s);
    }
}

/// Sorting a key-sorted entry list leaves it unchanged.
pub proof fn lemma_sort_entries_of_sorted(s: Seq<EntryModel>)
    requires
        key_sorted_entries(s),
    ensures
        sort_entries(s) == s,
    decreases s.len(),
{
    if s.len() > 0 {
        assert forall|i: int, j: int|
            0 <= i < j < s.drop_last().len() implies entry_key_le(
            #[trigger] s.drop_last()[i],
            #[trigger] s.drop_last()[j],
        ) by {
            assert(s.drop_last()[i] == s[i] && s.drop_last()[j] == s[j]);
        }
        lemma_sort_entries_of_sorted(s.drop_last());
        assert forall|i: int|
            0 <= i < s.drop_last().len() implies entry_key_le(
            #[trigger] s.drop_last()[i],
            s.last(),
        ) by {
            assert(s.drop_last()[i] == s[i]);
        }
        lemma_insort_entry_after_all(s.last(), s.drop_last());
        assert(s.drop_last().push(s.last()) =~= s);
    }
}

/// Idempotence: normalizing a value already in canonical form changes
/// nothing — neither the tree nor, in consequence, its rendering.
pub proof fn lemma_normalize_idempotent(m: ValueModel)
    requires
        is_normal(m),
    ensures
        normal_of(m) == m,
    decreases m,
{
    match m {
        ValueModel::Term { .. } => (),
        ValueModel::Struct { name, fields } => {
            lemma_norm_fields(fields);
            lemma_all_normal_fields_index(fields);
            assert forall|i: int|
                0 <= i < fields.len() implies #[trigger] crate::normalize::norm_fields(fields)[i]
                == fields[i] by {
                match fields[i] {
                    FieldModel::Field { label, value } => {
                        assert(decreases_to!(m => m->Struct_fields));
                        assert(decreases_to!(fields => fields[i]));
                        assert(decreases_to!(fields[i] => fields[i]->Field_value));
                        lemma_normalize_idempotent(value);
                        assert(norm_field(fields[i]) =~= fields[i]);
                    },
                    FieldModel::Open => (),
                }
            }
            assert(crate::normalize::norm_fields(fields) =~= fields);
        },
        ValueModel::SetVal { elems } => {
            lemma_normal_elems_identity(m, elems);
        },
        ValueModel::List { elems } => {
            lemma_normal_elems_identity(m, elems);
        },
        ValueModel::Tuple { name, elems } => {
            lemma_normal_elems_identity(m, elems);
        },
        ValueModel::MapVal { entries } => {
            lemma_sort_entries_of_sorted(entries);
            lemma_norm_entries_sorted(entries);
            lemma_all_normal_entries_index(entries);
            assert forall|i: int|
                0 <= i < entries.len() implies #[trigger] crate::normalize::norm_entries_sorted(
                entries,
            )[i] == entries[i] by {
                assert(decreases_to!(m => m->MapVal_entries));
                assert(decreases_to!(entries => entries[i]));
                assert(decreases_to!(entries[i] => entries[i].key));
                assert(decreases_to!(entries[i] => entries[i].value));
                lemma_normalize_idempotent(entries[i].key);
                lemma_normalize_idempotent(entries[i].value);
                assert(crate::normalize::norm_entries_sorted(entries)[i] =~= entries[i]);
            }
            assert(crate::normalize::norm_entries_sorted(entries) =~= entries);
        },
    }
}

/// The element part of [`lemma_normalize_idempotent`] for the three
/// sequence variants; `m` is the containing value, carried as the
/// termination measure.
proof fn lemma_normal_elems_identity(m: ValueModel, elems: Seq<ValueModel>)
    requires
        sorted_elems(elems),
        all_normal(elems),
        (m is SetVal && m->SetVal_elems == elems) || (m is List && m->List_elems == elems) || (
        m is Tuple && m->Tuple_elems == elems),
    ensures
        crate::normalize::norm_sorted(elems) == elems,
    decreases m, 1nat,
{
    lemma_sort_elems_of_sorted(elems);
    lemma_norm_sorted(elems);
    lemma_all_normal_index(elems);
    assert forall|i: int|
        0 <= i < elems.len() implies #[trigger] crate::normalize::norm_sorted(elems)[i]
        == elems[i] by {
        if m is SetVal {
            assert(decreases_to!(m => m->SetVal_elems));
        } else if m is List {
            assert(decreases_to!(m => m->List_elems));
        } else {
            assert(decreases_to!(m => m->Tuple_elems));
        }
        assert(decreases_to!(elems => elems[i]));
        lemma_normalize_idempotent(elems[i]);
    }
    assert(crate::normalize::norm_sorted(elems) =~= elems);
}


/// Sequences with the same elements sort identically, whatever their
/// order.
pub proof fn lemma_sort_elems_permutation(s1: Seq<ValueModel>, s2: Seq<ValueModel>)
    requires
        s1.to_multiset() == s2.to_multiset(),
    ensures
        sort_elems(s1) == sort_elems(s2),
{
    lemma_value_le_properties();
    lemma_sort_elems_sorted(s1);
    lemma_sort_elems_sorted(s2);
    lemma_sort_elems_multiset(s1);
    lemma_sort_elems_multiset(s2);
    let leq = |a: ValueModel, b: ValueModel| value_le(a, b);
    assert(vstd::relations::sorted_by(sort_elems(s1), leq));
    assert(vstd::relations::sorted_by(sort_elems(s2), leq));
    assert(vstd::relations::total_ordering(leq));
    vstd::seq_lib::lemma_sorted_unique(sort_elems(s1), sort_elems(s2), leq);
}

/// Order-invariance of normalization for sets: a set built from the same
/// elements in any insertion order normalizes to the same value.
pub proof fn lemma_set_order_invariance(s1: Seq<ValueModel>, s2: Seq<ValueModel>)
    requires
        s1.to_multiset() == s2.to_multiset(),
    ensures
        normal_of(ValueModel::SetVal { elems: s1 }) == normal_of(ValueModel::SetVal { elems: s2 }),
{
    broadcast use vstd::seq_lib::group_to_multiset_ensures;

    lemma_sort_elems_permutation(s1, s2);
    lemma_norm_sorted(s1);
    lemma_norm_sorted(s2);
    assert(s1.len() == s1.to_multiset().len());
    assert(crate::normalize::norm_sorted(s1) =~= crate::normalize::norm_sorted(s2));
}

/// Order-invariance of normalization for lists: this renderer sorts
/// lists too, so the same holds of them.
pub proof fn lemma_list_order_invariance(s1: Seq<ValueModel>, s2: Seq<ValueModel>)
    requires
        s1.to_multiset() == s2.to_multiset(),
    ensures
        normal_of(ValueModel::List { elems: s1 }) == normal_of(ValueModel::List { elems: s2 }),
{
    broadcast use vstd::seq_lib::group_to_multiset_ensures;

    lemma_sort_elems_permutation(s1, s2);
    lemma_norm_sorted(s1);
    lemma_norm_sorted(s2);
    assert(s1.len() == s1.to_multiset().len());
    assert(crate::normalize::norm_sorted(s1) =~= crate::normalize::norm_sorted(s2));
}

/// No two entries share a key.
pub open spec fn distinct_keys(s: Seq<EntryModel>) -> bool {
    forall|i: int, j: int|
        0 <= i < s.len() && 0 <= j < s.len() && i != j ==> cmp_value(
            (#[trigger] s[i]).key,
            (#[trigger] s[j]).key,
        ) != Cmp::Eq
}

/// Key-sorted entry lists with distinct keys and the same entries are
/// equal.
proof fn lemma_key_sorted_unique(x: Seq<EntryModel>, y: Seq<EntryModel>)
    requires
        key_sorted_entries(x),
        key_sorted_entries(y),
        distinct_keys(x),
        x.to_multiset() == y.to_multiset(),
    ensures
        x == y,
    decreases x.len(),
{
    broadcast use vstd::seq_lib::group_to_multiset_ensures;
    broadcast use vstd::multiset::group_multiset_axioms;

    lemma_value_le_properties();
    if x.len() == 0 {
        assert(y.len() == y.to_multiset().len());
        assert(x =~= y);
    } else {
        assert(y.len() == y.to_multiset().len());
        assert(x.to_multiset().contains(x[0]));
        assert(y.contains(x[0]));
        let j = choose|j: int| 0 <= j < y.len() && y[j] == x[0];
        assert(y.to_multiset().contains(y[0]));
        assert(x.contains(y[0]));
        let i = choose|i: int| 0 <= i < x.len() && x[i] == y[0];
        if i != 0 {
            assert(entry_key_le(x[0], x[i]));
            if j != 0 {
                assert(entry_key_le(y[0], y[j]));
            }
            assert(value_le(x[i].key, x[0].key));
            assert(value_le(x[0].key, x[i].key));
            lemma_cmp_value_flip(x[0].key, x[i].key);
            assert(cmp_value(x[0].key, x[i].key) == Cmp::Eq);
            assert(false);
        }
        assert(x[0] == y[0]);
        assert(x.remove(0) =~= x.drop_first());
        assert(y.remove(0) =~= y.drop_first());
        assert(x.remove(0).to_multiset() =~= x.to_multiset().remove(x[0]));
        assert(y.remove(0).to_multiset() =~= y.to_multiset().remove(y[0]));
        assert(x.drop_first().to_multiset() =~= x.to_multiset().remove(x[0]));
        assert(y.drop_first().to_multiset() =~= y.to_multiset().remove(y[0]));
        assert forall|a: int, b: int|
            0 <= a < x.drop_first().len() && 0 <= b < x.drop_first().len() && a != b implies
            cmp_value(
            (#[trigger] x.drop_first()[a]).key,
            (#[trigger] x.drop_first()[b]).key,
        ) != Cmp::Eq by {
            assert(x.drop_first()[a] == x[a + 1] && x.drop_first()[b] == x[b + 1]);
        }
        assert forall|a: int, b: int|
            0 <= a < b < x.drop_first().len() implies entry_key_le(
            #[trigger] x.drop_first()[a],
            #[trigger] x.drop_first()[b],
        ) by {
            assert(x.drop_first()[a] == x[a + 1] && x.drop_first()[b] == x[b + 1]);
        }
        assert forall|a: int, b: int|
            0 <= a < b < y.drop_first().len() implies entry_key_le(
            #[trigger] y.drop_first()[a],
            #[trigger] y.drop_first()[b],
        ) by {
            assert(y.drop_first()[a] == y[a + 1] && y.drop_first()[b] == y[b + 1]);
        }
        lemma_key_sorted_unique(x.drop_first(), y.drop_first());
        assert forall|k: int| 0 <= k < x.len() implies x[k] == y[k] by {
            if k > 0 {
                assert(x.drop_first()[k - 1] == y.drop_first()[k - 1]);
            }
        }
        assert(x =~= y);
    }
}

/// Distinctness of keys carries over to any reordering of the entries.
proof fn lemma_distinct_keys_permutation(a: Seq<EntryModel>, b: Seq<EntryModel>)
    requires
        distinct_keys(a),
        a.to_multiset() == b.to_multiset(),
    ensures
        distinct_keys(b),
{
    broadcast use vstd::seq_lib::group_to_multiset_ensures;
    broadcast use vstd::multiset::group_multiset_axioms;

    assert forall|i: int, j: int|
        0 <= i < b.len() && 0 <= j < b.len() && i != j implies cmp_value(
        (#[trigger] b[i]).key,
        (#[trigger] b[j]).key,
    ) != Cmp::Eq by {
        if cmp_value(b[i].key, b[j].key) == Cmp::Eq {
            if b[i] == b[j] {
                let lo = if i < j { i } else { j };
                let hi = if i < j { j } else { i };
                assert(b.remove(lo).to_multiset() =~= b.to_multiset().remove(b[lo]));
                assert(b.remove(lo)[hi - 1] == b[hi]);
                assert(b.remove(lo).contains(b[hi]));
                assert(b.remove(lo).to_multiset().contains(b[hi]));
                assert(a.to_multiset().count(b[i]) >= 2);
                assert(a.contains(b[i]));
                let i1 = choose|k: int| 0 <= k < a.len() && a[k] == b[i];
                assert(a.remove(i1).to_multiset() =~= a.to_multiset().remove(a[i1]));
                assert(a.remove(i1).to_multiset().count(b[i]) >= 1);
                assert(a.remove(i1).contains(b[i]));
                let i2 = choose|k: int| 0 <= k < a.remove(i1).len() && a.remove(i1)[k] == b[i];
                let i2o: int = if i2 < i1 {
                    i2
                } else {
                    i2 + 1
                };
                assert(a[i2o] == a.remove(i1)[i2]);
                assert(cmp_value(a[i1].key, a[i2o].key) != Cmp::Eq);
                assert(false);
            } else {
                assert(b.to_multiset().contains(b[i]));
                assert(a.contains(b[i]));
                assert(b.to_multiset().contains(b[j]));
                assert(a.contains(b[j]));
                let i1 = choose|k: int| 0 <= k < a.len() && a[k] == b[i];
                let j1 = choose|k: int| 0 <= k < a.len() && a[k] == b[j];
                assert(i1 != j1);
                assert(cmp_value(a[i1].key, a[j1].key) != Cmp::Eq);
                assert(false);
            }
        }
    }
}

/// Order-invariance of normalization for maps: a map built from the same
/// entries in any insertion order normalizes to the same value.  Real
/// maps have distinct keys; with a duplicated key the source order of
/// the tied entries would show through the key sort.
pub proof fn lemma_map_order_invariance(s1: Seq<EntryModel>, s2: Seq<EntryModel>)
    requires
        s1.to_multiset() == s2.to_multiset(),
        distinct_keys(s1),
    ensures
        normal_of(ValueModel::MapVal { entries: s1 }) == normal_of(
            ValueModel::MapVal { entries: s2 },
        ),
{
    broadcast use vstd::seq_lib::group_to_multiset_ensures;

    lemma_sort_entries_sorted(s1);
    lemma_sort_entries_sorted(s2);
    lemma_sort_entries_multiset(s1);
    lemma_sort_entries_multiset(s2);
    lemma_distinct_keys_permutation(s1, sort_entries(s1));
    lemma_key_sorted_unique(sort_entries(s1), sort_entries(s2));
    lemma_norm_entries_sorted(s1);
    lemma_norm_entries_sorted(s2);
    assert(s1.len() == s1.to_multiset().len());
    assert(crate::normalize::norm_entries_sorted(s1) =~= crate::normalize::norm_entries_sorted(
        s2,
    ));
}

/// Determinism across re-renderings: two sets built from the same
/// elements render byte-identically after normalization, whatever the
/// order their container handed them out in.
pub proof fn lemma_set_render_deterministic(
    s1: Seq<ValueModel>,
    s2: Seq<ValueModel>,
    pad: Seq<char>,
)
    requires
        s1.to_multiset() == s2.to_multiset(),
    ensures
        crate::render::render_of(normal_of(ValueModel::SetVal { elems: s1 }), pad)
            == crate::render::render_of(normal_of(ValueModel::SetVal { elems: s2 }), pad),
{
    lemma_set_order_invariance(s1, s2);
}

/// Determinism across re-renderings for maps with distinct keys.
pub proof fn lemma_map_render_deterministic(
    s1: Seq<EntryModel>,
    s2: Seq<EntryModel>,
    pad: Seq<char>,
)
    requires
        s1.to_multiset() == s2.to_multiset(),
        distinct_keys(s1),
    ensures
        crate::render::render_of(normal_of(ValueModel::MapVal { entries: s1 }), pad)
            == crate::render::render_of(normal_of(ValueModel::MapVal { entries: s2 }), pad),
{
    lemma_map_order_invariance(s1, s2);
}

/// Nested normalization: normalizing a record normalizes each field's
/// value in place, by the same rule, at every depth.
pub proof fn lemma_nested_normalization(name: Seq<char>, fields: Seq<FieldModel>, i: int)
    requires
        0 <= i < fields.len(),
    ensures
        normal_of(ValueModel::Struct { name, fields }) matches ValueModel::Struct {
            name: n2,
            fields: f2,
        } && n2 == name && f2.len() == fields.len() && f2[i] == norm_field(fields[i]),
{
    lemma_norm_fields(fields);
}

/// Open-record rewrite, first half: an open record showing no fields is
/// rendered as an empty multi-line body, not as the compact one-line
/// marker.
pub proof fn lemma_open_record_collapses(name: Seq<char>, fields: Seq<FieldModel>, pad: Seq<char>)
    requires
        fields.len() > 0,
        !crate::render::has_visible(fields),
    ensures
        crate::render::render_of(ValueModel::Struct { name, fields }, pad) == name + " {\n"@ + pad
            + "}"@,
{
}

/// Open-record rewrite, second half: an open record that does show
/// fields keeps them, one per line, with the marker on a line of its
/// own inside the braces.
pub proof fn lemma_open_record_keeps_fields(
    name: Seq<char>,
    fields: Seq<FieldModel>,
    pad: Seq<char>,
)
    requires
        crate::render::has_visible(fields),
    ensures
        crate::render::render_of(ValueModel::Struct { name, fields }, pad) == name + " {\n"@
            + crate::render::render_fields(fields, pad) + pad + "}"@,
{
}


/// The rendering half of idempotence: a value already in canonical form
/// renders identically after another normalization pass.
pub proof fn lemma_normalize_idempotent_render(m: ValueModel, pad: Seq<char>)
    requires
        is_normal(m),
    ensures
        crate::render::render_of(normal_of(m), pad) == crate::render::render_of(m, pad),
{
    lemma_normalize_idempotent(m);
}

} // verus!
