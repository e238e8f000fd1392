//! The canonical ordering engine.
//!
//! Normalization rewrites every unordered container (set, map) and every
//! sequence variant (list, tuple) into a canonical element order, and
//! applies itself recursively to all nested values.  Containers are sorted
//! by the structural order of their elements as they stood in the source
//! rendering, then each repositioned element is normalized; struct fields
//! keep their declared order and only their values are normalized.
//!
//! The sort is the stable insertion sort written out below: an element is
//! inserted after every element it does not sort strictly before, so
//! elements that compare equal keep their source order.
use vstd::prelude::*;

use crate::order::{cmp_value, Cmp};
use crate::value::{
    deep_elems, deep_entries, deep_fields, lemma_deep_elems, lemma_deep_entries,
    lemma_deep_fields, EntryModel, FieldEntry, FieldModel, MapEntry, Value, ValueModel,
};

verus! {

broadcast use vstd::std_specs::vec::group_vec_axioms;

/// Insert `x` into `s` directly before the first element that `x` sorts
/// strictly before.
pub open spec fn insort_elem(x: ValueModel, s: Seq<ValueModel>) -> Seq<ValueModel>
    decreases s.len(),
{
    if s.len() == 0 {
        seq![x]
    } else if cmp_value(x, s[0]) == Cmp::Lt {
        seq![x] + s
    } else {
        seq![s[0]] + insort_elem(x, s.drop_first())
    }
}

/// Stable insertion sort of a sequence of values in the structural order.
pub open spec fn sort_elems(s: Seq<ValueModel>) -> Seq<ValueModel>
    decreases s.len(),
{
    if s.len() == 0 {
        Seq::empty()
    } else {
        insort_elem(s.last(), sort_elems(s.drop_last()))
    }
}

/// Insert entry `x` into `s` directly before the first entry whose key
/// `x`'s key sorts strictly before.
pub open spec fn insort_entry(x: EntryModel, s: Seq<EntryModel>) -> Seq<EntryModel>
    decreases s.len(),
{
    if s.len() == 0 {
        seq![x]
    } else if cmp_value(x.key, s[0].key) == Cmp::Lt {
        seq![x] + s
    } else {
        seq![s[0]] + insort_entry(x, s.drop_first())
    }
}

/// Stable insertion sort of a map's entry list by key.
pub open spec fn sort_entries(s: Seq<EntryModel>) -> Seq<EntryModel>
    decreases s.len(),
{
    if s.len() == 0 {
        Seq::empty()
    } else {
        insort_entry(s.last(), sort_entries(s.drop_last()))
    }
}

/// The canonical form of a value: every set, map, list and tuple sorted
/// by the structural order of its source elements, every nested value
/// normalized by the same rule.
pub open spec fn normal_of(m: ValueModel) -> ValueModel
    decreases m, 0nat, 0nat,
{
    match m {
        ValueModel::Struct { name, fields } => ValueModel::Struct {
            name,
            fields: norm_fields(fields),
        },
        ValueModel::SetVal { elems } => ValueModel::SetVal { elems: norm_sorted(elems) },
        ValueModel::MapVal { entries } => ValueModel::MapVal {
            entries: norm_entries_sorted(entries),
        },
        ValueModel::List { elems } => ValueModel::List { elems: norm_sorted(elems) },
        ValueModel::Tuple { name, elems } => ValueModel::Tuple {
            name,
            elems: norm_sorted(elems),
        },
        ValueModel::Term { .. } => m,
    }
}

/// The elements of `elems`, sorted and then each normalized.
pub open spec fn norm_sorted(elems: Seq<ValueModel>) -> Seq<ValueModel>
    decreases elems, 1nat, 0nat,
{
    proof {
        lemma_sort_elems_multiset(elems);
        broadcast use vstd::seq_lib::group_to_multiset_ensures;

    }
    norm_each_from(elems, sort_elems(elems))
}

/// Each element of `s` normalized; every element of `s` must occur in
/// `base`, which carries the termination argument.
pub open spec fn norm_each_from(base: Seq<ValueModel>, s: Seq<ValueModel>) -> Seq<ValueModel>
    decreases base, 0nat, s.len(),
    when forall|i: int| 0 <= i < s.len() ==> base.contains(#[trigger] s[i])
{
    if s.len() == 0 {
        Seq::empty()
    } else {
        proof {
            let x = s.last();
            let j = choose|j: int| 0 <= j < base.len() && base[j] == x;
            assert(decreases_to!(base => base[j]));
        }
        norm_each_from(base, s.drop_last()).push(normal_of(s.last()))
    }
}

/// The entries of `entries`, sorted by key and then each normalized.
pub open spec fn norm_entries_sorted(entries: Seq<EntryModel>) -> Seq<EntryModel>
    decreases entries, 1nat, 0nat,
{
    proof {
        lemma_sort_entries_multiset(entries);
        broadcast use vstd::seq_lib::group_to_multiset_ensures;

    }
    norm_each_entry_from(entries, sort_entries(entries))
}

/// Each entry of `s` with key and value normalized; every entry of `s`
/// must occur in `base`, which carries the termination argument.
pub open spec fn norm_each_entry_from(base: Seq<EntryModel>, s: Seq<EntryModel>) -> Seq<
    EntryModel,
>
    decreases base, 0nat, s.len(),
    when forall|i: int| 0 <= i < s.len() ==> base.contains(#[trigger] s[i])
{
    if s.len() == 0 {
        Seq::empty()
    } else {
        proof {
            let x = s.last();
            let j = choose|j: int| 0 <= j < base.len() && base[j] == x;
            assert(decreases_to!(base => base[j]));
        }
        norm_each_entry_from(base, s.drop_last()).push(
            EntryModel {
                key: normal_of(s.last().key),
                value: normal_of(s.last().value),
            },
        )
    }
}

/// Each field's value normalized; labels, order and the open marker kept.
pub open spec fn norm_fields(fields: Seq<FieldModel>) -> Seq<FieldModel>
    decreases fields, 0nat, 0nat,
{
    if fields.len() == 0 {
        Seq::empty()
    } else {
        norm_fields(fields.drop_last()).push(
            match fields.last() {
                FieldModel::Field { label, value } => FieldModel::Field {
                    label,
                    value: normal_of(value),
                },
                FieldModel::Open => FieldModel::Open,
            },
        )
    }
}

/// One field with its value normalized.
pub open spec fn norm_field(f: FieldModel) -> FieldModel {
    match f {
        FieldModel::Field { label, value } => FieldModel::Field {
            label,
            value: normal_of(value),
        },
        FieldModel::Open => FieldModel::Open,
    }
}

/// `norm_fields` normalizes each field's value, elementwise.
pub proof fn lemma_norm_fields(s: Seq<FieldModel>)
    ensures
        norm_fields(s).len() == s.len(),
        forall|i: int| 0 <= i < s.len() ==> #[trigger] norm_fields(s)[i] == norm_field(s[i]),
    decreases s.len(),
{
    if s.len() > 0 {
        lemma_norm_fields(s.drop_last());
    }
}

/// `norm_each_from` normalizes each element, elementwise.
pub proof fn lemma_norm_each_from(base: Seq<ValueModel>, s: Seq<ValueModel>)
    requires
        forall|i: int| 0 <= i < s.len() ==> base.contains(#[trigger] s[i]),
    ensures
        norm_each_from(base, s).len() == s.len(),
        forall|i: int|
            0 <= i < s.len() ==> #[trigger] norm_each_from(base, s)[i] == normal_of(s[i]),
    decreases s.len(),
{
    if s.len() > 0 {
        assert(forall|i: int|
            0 <= i < s.drop_last().len() ==> base.contains(#[trigger] s.drop_last()[i]));
        lemma_norm_each_from(base, s.drop_last());
    }
}

/// `norm_each_entry_from` normalizes each entry's key and value, elementwise.
pub proof fn lemma_norm_each_entry_from(base: Seq<EntryModel>, s: Seq<EntryModel>)
    requires
        forall|i: int| 0 <= i < s.len() ==> base.contains(#[trigger] s[i]),
    ensures
        norm_each_entry_from(base, s).len() == s.len(),
        forall|i: int|
            0 <= i < s.len() ==> #[trigger] norm_each_entry_from(base, s)[i] == (EntryModel {
                key: normal_of(s[i].key),
                value: normal_of(s[i].value),
            }),
    decreases s.len(),
{
    if s.len() > 0 {
        assert(forall|i: int|
            0 <= i < s.drop_last().len() ==> base.contains(#[trigger] s.drop_last()[i]));
        lemma_norm_each_entry_from(base, s.drop_last());
    }
}

/// `norm_sorted` is `normal_of` mapped over the sorted elements.
pub proof fn lemma_norm_sorted(elems: Seq<ValueModel>)
    ensures
        norm_sorted(elems).len() == elems.len(),
        forall|i: int|
            0 <= i < elems.len() ==> #[trigger] norm_sorted(elems)[i] == normal_of(
                sort_elems(elems)[i],
            ),
{
    broadcast use vstd::seq_lib::group_to_multiset_ensures;

    lemma_sort_elems_multiset(elems);
    assert forall|i: int|
        0 <= i < sort_elems(elems).len() implies elems.contains(
        #[trigger] sort_elems(elems)[i],
    ) by {
        let x = sort_elems(elems)[i];
        assert(sort_elems(elems).contains(x));
        assert(elems.to_multiset().count(x) > 0);
    }
    lemma_norm_each_from(elems, sort_elems(elems));
}

/// `norm_entries_sorted` is entrywise normalization of the key-sorted entries.
pub proof fn lemma_norm_entries_sorted(entries: Seq<EntryModel>)
    ensures
        norm_entries_sorted(entries).len() == entries.len(),
        forall|i: int|
            0 <= i < entries.len() ==> #[trigger] norm_entries_sorted(entries)[i] == (EntryModel {
                key: normal_of(sort_entries(entries)[i].key),
                value: normal_of(sort_entries(entries)[i].value),
            }),
{
    broadcast use vstd::seq_lib::group_to_multiset_ensures;

    lemma_sort_entries_multiset(entries);
    assert forall|i: int|
        0 <= i < sort_entries(entries).len() implies entries.contains(
        #[trigger] sort_entries(entries)[i],
    ) by {
        let x = sort_entries(entries)[i];
        assert(sort_entries(entries).contains(x));
        assert(entries.to_multiset().count(x) > 0);
    }
    lemma_norm_each_entry_from(entries, sort_entries(entries));
}

/// Inserting an element adds it to the multiset and keeps the rest.
pub proof fn lemma_insort_elem_multiset(x: ValueModel, s: Seq<ValueModel>)
    ensures
        insort_elem(x, s).to_multiset() == s.to_multiset().insert(x),
    decreases s.len(),
{
    broadcast use vstd::seq_lib::group_to_multiset_ensures;

    if s.len() == 0 {
        assert(insort_elem(x, s) =~= Seq::empty().push(x));
        assert(insort_elem(x, s).to_multiset() =~= s.to_multiset().insert(x));
    } else if cmp_value(x, s[0]) == Cmp::Lt {
        vstd::seq_lib::lemma_multiset_commutative(seq![x], s);
        assert(seq![x].to_multiset() =~= vstd::multiset::Multiset::empty().insert(x));
        assert(insort_elem(x, s).to_multiset() =~= s.to_multiset().insert(x));
    } else {
        lemma_insort_elem_multiset(x, s.drop_first());
        vstd::seq_lib::lemma_multiset_commutative(seq![s[0]], insort_elem(x, s.drop_first()));
        vstd::seq_lib::lemma_multiset_commutative(seq![s[0]], s.drop_first());
        assert(seq![s[0]] + s.drop_first() =~= s);
        assert(seq![s[0]].to_multiset() =~= vstd::multiset::Multiset::empty().insert(s[0]));
        assert(insort_elem(x, s).to_multiset() =~= s.to_multiset().insert(x));
    }
}

/// Sorting keeps the multiset of elements.
pub proof fn lemma_sort_elems_multiset(s: Seq<ValueModel>)
    ensures
        sort_elems(s).to_multiset() == s.to_multiset(),
        sort_elems(s).len() == s.len(),
    decreases s.len(),
{
    broadcast use vstd::seq_lib::group_to_multiset_ensures;

    if s.len() > 0 {
        lemma_sort_elems_multiset(s.drop_last());
        lemma_insort_elem_multiset(s.last(), sort_elems(s.drop_last()));
        assert(s =~= s.drop_last().push(s.last()));
        assert(s.to_multiset() =~= s.drop_last().to_multiset().insert(s.last()));
        assert(sort_elems(s).to_multiset().len() == s.to_multiset().len());
    }
}

/// Inserting an entry adds it to the multiset and keeps the rest.
pub proof fn lemma_insort_entry_multiset(x: EntryModel, s: Seq<EntryModel>)
    ensures
        insort_entry(x, s).to_multiset() == s.to_multiset().insert(x),
    decreases s.len(),
{
    broadcast use vstd::seq_lib::group_to_multiset_ensures;

    if s.len() == 0 {
        assert(insort_entry(x, s) =~= Seq::empty().push(x));
        assert(insort_entry(x, s).to_multiset() =~= s.to_multiset().insert(x));
    } else if cmp_value(x.key, s[0].key) == Cmp::Lt {
        vstd::seq_lib::lemma_multiset_commutative(seq![x], s);
        assert(seq![x].to_multiset() =~= vstd::multiset::Multiset::empty().insert(x));
        assert(insort_entry(x, s).to_multiset() =~= s.to_multiset().insert(x));
    } else {
        lemma_insort_entry_multiset(x, s.drop_first());
        vstd::seq_lib::lemma_multiset_commutative(seq![s[0]], insort_entry(x, s.drop_first()));
        vstd::seq_lib::lemma_multiset_commutative(seq![s[0]], s.drop_first());
        assert(seq![s[0]] + s.drop_first() =~= s);
        assert(seq![s[0]].to_multiset() =~= vstd::multiset::Multiset::empty().insert(s[0]));
        assert(insort_entry(x, s).to_multiset() =~= s.to_multiset().insert(x));
    }
}

/// Sorting keeps the multiset of entries.
pub proof fn lemma_sort_entries_multiset(s: Seq<EntryModel>)
    ensures
        sort_entries(s).to_multiset() == s.to_multiset(),
        sort_entries(s).len() == s.len(),
    decreases s.len(),
{
    broadcast use vstd::seq_lib::group_to_multiset_ensures;

    if s.len() > 0 {
        lemma_sort_entries_multiset(s.drop_last());
        lemma_insort_entry_multiset(s.last(), sort_entries(s.drop_last()));
        assert(s =~= s.drop_last().push(s.last()));
        assert(s.to_multiset() =~= s.drop_last().to_multiset().insert(s.last()));
        assert(sort_entries(s).to_multiset().len() == s.to_multiset().len());
    }
}


/// `insort_elem` places the element at the first position whose element
/// it sorts strictly before.
pub proof fn lemma_insort_elem_at(x: ValueModel, s: Seq<ValueModel>, j: int)
    requires
        0 <= j <= s.len(),
        forall|i: int| 0 <= i < j ==> cmp_value(x, #[trigger] s[i]) != Cmp::Lt,
        j < s.len() ==> cmp_value(x, s[j]) == Cmp::Lt,
    ensures
        insort_elem(x, s) =~= s.subrange(0, j).push(x) + s.skip(j),
    decreases s.len(),
{
    if s.len() == 0 {
        assert(insort_elem(x, s) =~= s.subrange(0, j).push(x) + s.skip(j));
    } else if j == 0 {
        assert(insort_elem(x, s) =~= s.subrange(0, 0).push(x) + s.skip(0));
    } else {
        assert(cmp_value(x, s[0]) != Cmp::Lt);
        lemma_insort_elem_at(x, s.drop_first(), j - 1);
        assert(s.drop_first().subrange(0, j - 1) =~= s.subrange(1, j));
        assert(s.drop_first().skip(j - 1) =~= s.skip(j));
        assert(insort_elem(x, s) =~= s.subrange(0, j).push(x) + s.skip(j));
    }
}

/// `insort_entry` places the entry at the first position whose key its
/// key sorts strictly before.
pub proof fn lemma_insort_entry_at(x: EntryModel, s: Seq<EntryModel>, j: int)
    requires
        0 <= j <= s.len(),
        forall|i: int| 0 <= i < j ==> cmp_value(x.key, (#[trigger] s[i]).key) != Cmp::Lt,
        j < s.len() ==> cmp_value(x.key, s[j].key) == Cmp::Lt,
    ensures
        insort_entry(x, s) =~= s.subrange(0, j).push(x) + s.skip(j),
    decreases s.len(),
{
    if s.len() == 0 {
        assert(insort_entry(x, s) =~= s.subrange(0, j).push(x) + s.skip(j));
    } else if j == 0 {
        assert(insort_entry(x, s) =~= s.subrange(0, 0).push(x) + s.skip(0));
    } else {
        assert(cmp_value(x.key, s[0].key) != Cmp::Lt);
        lemma_insort_entry_at(x, s.drop_first(), j - 1);
        assert(s.drop_first().subrange(0, j - 1) =~= s.subrange(1, j));
        assert(s.drop_first().skip(j - 1) =~= s.skip(j));
        assert(insort_entry(x, s) =~= s.subrange(0, j).push(x) + s.skip(j));
    }
}

/// Insert `x` into the already-sorted `res`, directly before the first
/// element that `x` sorts strictly before.
fn sorted_insert_value(res: &mut Vec<Value>, x: Value)
    ensures
        deep_elems(final(res)@) == insort_elem(x.deep(), deep_elems(old(res)@)),
        forall|i: int|
            0 <= i < final(res)@.len() ==> old(res)@.contains(#[trigger] final(res)@[i])
                || final(res)@[i] == x,
{
    let ghost dold = deep_elems(old(res)@);
    proof {
        lemma_deep_elems(old(res)@);
    }
    let mut j: usize = 0;
    loop
        invariant
            j <= res.len(),
            res == old(res),
            dold == deep_elems(res@),
            dold.len() == res@.len(),
            forall|i: int| 0 <= i < res@.len() ==> dold[i] == (#[trigger] res@[i]).deep(),
            forall|i: int| 0 <= i < j ==> cmp_value(x.deep(), #[trigger] dold[i]) != Cmp::Lt,
        ensures
            j <= res.len(),
            res == old(res),
            forall|i: int| 0 <= i < j ==> cmp_value(x.deep(), #[trigger] dold[i]) != Cmp::Lt,
            j < res.len() ==> cmp_value(x.deep(), dold[j as int]) == Cmp::Lt,
        decreases res.len() - j,
    {
        if j == res.len() {
            break;
        }
        let c = crate::order::value_cmp(&x, &res[j]);
        if let Cmp::Lt = c {
            break;
        }
        j = j + 1;
    }
    proof {
        lemma_insort_elem_at(x.deep(), dold, j as int);
    }
    let ghost prev = res@;
    res.insert(j, x);
    proof {
        lemma_deep_elems(res@);
        prev.insert_ensures(j as int, x);
        assert(res@ =~= prev.subrange(0, j as int).push(x) + prev.skip(j as int));
        assert(deep_elems(res@) =~= insort_elem(x.deep(), dold));
        assert forall|i: int|
            0 <= i < res@.len() implies prev.contains(#[trigger] res@[i]) || res@[i] == x by {
            if i < j {
                assert(res@[i] == prev[i]);
            } else if i > j {
                assert(res@[i] == prev[i - 1]);
            }
        }
    }
}

/// Stable insertion sort of a vector of values in the structural order.
fn sort_value_vec(v: Vec<Value>) -> (r: Vec<Value>)
    ensures
        deep_elems(r@) == sort_elems(deep_elems(v@)),
        forall|i: int| 0 <= i < r@.len() ==> v@.contains(#[trigger] r@[i]),
{
    let ghost orig = v@;
    let mut rem = v;
    let mut res: Vec<Value> = Vec::new();
    proof {
        lemma_deep_elems(orig);
        assert(orig.subrange(0, 0) =~= Seq::empty());
        assert(deep_elems(Seq::<Value>::empty()) =~= Seq::<ValueModel>::empty());
        assert(deep_elems(res@) =~= sort_elems(deep_elems(orig.subrange(0, 0))));
    }
    while rem.len() > 0
        invariant
            rem@ =~= orig.skip(orig.len() - rem@.len()),
            rem@.len() <= orig.len(),
            deep_elems(res@) == sort_elems(deep_elems(orig.subrange(0, orig.len() - rem@.len()))),
            forall|i: int| 0 <= i < res@.len() ==> orig.contains(#[trigger] res@[i]),
        decreases rem.len(),
    {
        let ghost k = orig.len() - rem@.len();
        let x = rem.remove(0);
        proof {
            assert(x == orig[k]);
            assert(rem@ =~= orig.skip(k + 1));
            let pre = orig.subrange(0, k);
            let cur = orig.subrange(0, k + 1);
            assert(cur.drop_last() =~= pre);
            assert(cur.last() == orig[k]);
            lemma_deep_elems(cur);
            lemma_deep_elems(pre);
            assert(deep_elems(cur).drop_last() =~= deep_elems(pre));
            assert(deep_elems(cur).last() == x.deep());
            assert(sort_elems(deep_elems(cur)) == insort_elem(
                x.deep(),
                sort_elems(deep_elems(pre)),
            ));
        }
        let ghost prev_res = res@;
        sorted_insert_value(&mut res, x);
        proof {
            assert forall|i: int|
                0 <= i < res@.len() implies orig.contains(#[trigger] res@[i]) by {
                if res@[i] == x {
                    assert(orig[k] == x);
                    assert(orig.contains(x));
                } else {
                    assert(prev_res.contains(res@[i]));
                }
            }
        }
    }
    proof {
        assert(orig.subrange(0, orig.len() as int) =~= orig);
    }
    res
}

/// Insert entry `x` into the already-sorted `res`, directly before the
/// first entry whose key `x`'s key sorts strictly before.
fn sorted_insert_entry(res: &mut Vec<MapEntry>, x: MapEntry)
    ensures
        deep_entries(final(res)@) == insort_entry(x.deep(), deep_entries(old(res)@)),
        forall|i: int|
            0 <= i < final(res)@.len() ==> old(res)@.contains(#[trigger] final(res)@[i])
                || final(res)@[i] == x,
{
    let ghost dold = deep_entries(old(res)@);
    proof {
        lemma_deep_entries(old(res)@);
    }
    let mut j: usize = 0;
    loop
        invariant
            j <= res.len(),
            res == old(res),
            dold == deep_entries(res@),
            dold.len() == res@.len(),
            forall|i: int| 0 <= i < res@.len() ==> dold[i] == (#[trigger] res@[i]).deep(),
            forall|i: int|
                0 <= i < j ==> cmp_value(x.deep().key, (#[trigger] dold[i]).key) != Cmp::Lt,
        ensures
            j <= res.len(),
            res == old(res),
            forall|i: int|
                0 <= i < j ==> cmp_value(x.deep().key, (#[trigger] dold[i]).key) != Cmp::Lt,
            j < res.len() ==> cmp_value(x.deep().key, dold[j as int].key) == Cmp::Lt,
        decreases res.len() - j,
    {
        if j == res.len() {
            break;
        }
        let c = crate::order::entry_key_cmp(&x, &res[j]);
        if let Cmp::Lt = c {
            break;
        }
        j = j + 1;
    }
    proof {
        lemma_insort_entry_at(x.deep(), dold, j as int);
    }
    let ghost prev = res@;
    res.insert(j, x);
    proof {
        lemma_deep_entries(res@);
        prev.insert_ensures(j as int, x);
        assert(res@ =~= prev.subrange(0, j as int).push(x) + prev.skip(j as int));
        assert(deep_entries(res@) =~= insort_entry(x.deep(), dold));
        assert forall|i: int|
            0 <= i < res@.len() implies prev.contains(#[trigger] res@[i]) || res@[i] == x by {
            if i < j {
                assert(res@[i] == prev[i]);
            } else if i > j {
                assert(res@[i] == prev[i - 1]);
            }
        }
    }
}

/// Stable insertion sort of a map's entry vector by key.
fn sort_entry_vec(v: Vec<MapEntry>) -> (r: Vec<MapEntry>)
    ensures
        deep_entries(r@) == sort_entries(deep_entries(v@)),
        forall|i: int| 0 <= i < r@.len() ==> v@.contains(#[trigger] r@[i]),
{
    let ghost orig = v@;
    let mut rem = v;
    let mut res: Vec<MapEntry> = Vec::new();
    proof {
        lemma_deep_entries(orig);
        assert(orig.subrange(0, 0) =~= Seq::empty());
        assert(deep_entries(Seq::<MapEntry>::empty()) =~= Seq::<EntryModel>::empty());
        assert(deep_entries(res@) =~= sort_entries(deep_entries(orig.subrange(0, 0))));
    }
    while rem.len() > 0
        invariant
            rem@ =~= orig.skip(orig.len() - rem@.len()),
            rem@.len() <= orig.len(),
            deep_entries(res@) == sort_entries(
                deep_entries(orig.subrange(0, orig.len() - rem@.len())),
            ),
            forall|i: int| 0 <= i < res@.len() ==> orig.contains(#[trigger] res@[i]),
        decreases rem.len(),
    {
        let ghost k = orig.len() - rem@.len();
        let x = rem.remove(0);
        proof {
            assert(x == orig[k]);
            assert(rem@ =~= orig.skip(k + 1));
            let pre = orig.subrange(0, k);
            let cur = orig.subrange(0, k + 1);
            assert(cur.drop_last() =~= pre);
            assert(cur.last() == orig[k]);
            lemma_deep_entries(cur);
            lemma_deep_entries(pre);
            assert(deep_entries(cur).drop_last() =~= deep_entries(pre));
            assert(deep_entries(cur).last() == x.deep());
            assert(sort_entries(deep_entries(cur)) == insort_entry(
                x.deep(),
                sort_entries(deep_entries(pre)),
            ));
        }
        let ghost prev_res = res@;
        sorted_insert_entry(&mut res, x);
        proof {
            assert forall|i: int|
                0 <= i < res@.len() implies orig.contains(#[trigger] res@[i]) by {
                if res@[i] == x {
                    assert(orig[k] == x);
                    assert(orig.contains(x));
                } else {
                    assert(prev_res.contains(res@[i]));
                }
            }
        }
    }
    proof {
        assert(orig.subrange(0, orig.len() as int) =~= orig);
    }
    res
}


/// Rewrite `v` into its canonical form.
///
/// Every set, map, list and tuple is sorted by the structural order of
/// its elements as they stand in `v`, then each repositioned element is
/// normalized the same way; struct fields keep their declared order and
/// only their values are normalized; leaf terms are unchanged.
pub fn normalize(v: Value) -> (r: Value)
    ensures
        r.deep() == normal_of(v.deep()),
{
    normalize_rec(Ghost(v), v)
}

/// The recursive worker behind [`normalize`]; `gv` is the value itself,
/// carried as the termination measure.
fn normalize_rec(Ghost(gv): Ghost<Value>, v: Value) -> (r: Value)
    requires
        gv == v,
    ensures
        r.deep() == normal_of(v.deep()),
    decreases gv, 0nat,
{
    match v {
        Value::Term { kind, text } => Value::Term { kind, text },
        Value::Struct { name, fields } => {
            let ghost gfvec = fields;
            let ghost gf = fields@;
            let ghost gname = name;
            proof {
                assert(gv == (Value::Struct { name: gname, fields: gfvec }));
                lemma_deep_fields(gf);
                lemma_norm_fields(deep_fields(gf));
            }
            let mut rem = fields;
            let mut out: Vec<FieldEntry> = Vec::new();
            while rem.len() > 0
                invariant
                    rem@ =~= gf.skip(gf.len() - rem@.len()),
                    rem@.len() <= gf.len(),
                    out@.len() == gf.len() - rem@.len(),
                    deep_fields(gf).len() == gf.len(),
                    gf == gfvec@,
                    gv == (Value::Struct { name: gname, fields: gfvec }),
                    forall|i: int| 0 <= i < gf.len() ==> deep_fields(gf)[i] == (
                    #[trigger] gf[i]).deep(),
                    forall|i: int|
                        0 <= i < out@.len() ==> (#[trigger] out@[i]).deep() == norm_field(
                            gf[i].deep(),
                        ),
                decreases rem.len(),
            {
                let ghost k = gf.len() - rem@.len();
                let x = rem.remove(0);
                proof {
                    assert(x == gf[k]);
                    assert(rem@ =~= gf.skip(k + 1));
                    assert(decreases_to!(gfvec => gfvec[k as int]));
                }
                match x {
                    FieldEntry::Field { label, value } => {
                        proof {
                            assert(gv->Struct_fields == gfvec);
                            assert(decreases_to!(gv => gv->Struct_fields));
                            assert(x == gfvec[k as int]);
                            assert(decreases_to!(x => value));
                            assert(decreases_to!(gv => value));
                        }
                        let nv = normalize_rec(Ghost(value), value);
                        out.push(FieldEntry::Field { label, value: nv });
                    },
                    FieldEntry::Open => {
                        out.push(FieldEntry::Open);
                    },
                }
            }
            proof {
                lemma_deep_fields(out@);
                assert(deep_fields(out@) =~= norm_fields(deep_fields(gf)));
            }
            Value::Struct { name, fields: out }
        },
        Value::SetVal { elems } => {
            let ghost gevec = elems;
            proof {
                assert(gv == Value::SetVal { elems: gevec });
            }
            let out = normalize_sorted_elems(Ghost(gevec), elems);
            Value::SetVal { elems: out }
        },
        Value::List { elems } => {
            let ghost gevec = elems;
            proof {
                assert(gv == Value::List { elems: gevec });
            }
            let out = normalize_sorted_elems(Ghost(gevec), elems);
            Value::List { elems: out }
        },
        Value::Tuple { name, elems } => {
            let ghost gevec = elems;
            proof {
                assert(gv == Value::Tuple { name: name, elems: gevec });
            }
            let out = normalize_sorted_elems(Ghost(gevec), elems);
            Value::Tuple { name, elems: out }
        },
        Value::MapVal { entries } => {
            let ghost gevec = entries;
            proof {
                assert(gv == (Value::MapVal { entries: gevec }));
            }
            let sorted = sort_entry_vec(entries);
            let ghost gs = sorted@;
            proof {
                lemma_deep_entries(gs);
                lemma_deep_entries(gevec@);
                lemma_sort_entries_multiset(deep_entries(gevec@));
                lemma_norm_entries_sorted(deep_entries(gevec@));
            }
            let mut rem = sorted;
            let mut out: Vec<MapEntry> = Vec::new();
            while rem.len() > 0
                invariant
                    rem@ =~= gs.skip(gs.len() - rem@.len()),
                    rem@.len() <= gs.len(),
                    out@.len() == gs.len() - rem@.len(),
                    deep_entries(gs).len() == gs.len(),
                    gv == (Value::MapVal { entries: gevec }),
                    deep_entries(gs) == sort_entries(deep_entries(gevec@)),
                    deep_entries(gevec@).len() == gevec@.len(),
                    forall|i: int| 0 <= i < gs.len() ==> deep_entries(gs)[i] == (
                    #[trigger] gs[i]).deep(),
                    forall|i: int| 0 <= i < gs.len() ==> gevec@.contains(#[trigger] gs[i]),
                    forall|i: int|
                        0 <= i < out@.len() ==> (#[trigger] out@[i]).deep() == (EntryModel {
                            key: normal_of(gs[i].deep().key),
                            value: normal_of(gs[i].deep().value),
                        }),
                decreases rem.len(),
            {
                let ghost k = gs.len() - rem@.len();
                let x = rem.remove(0);
                proof {
                    assert(x == gs[k]);
                    assert(rem@ =~= gs.skip(k + 1));
                    let j = choose|j: int| 0 <= j < gevec@.len() && gevec@[j] == x;
                    assert(gv->MapVal_entries == gevec);
                    assert(decreases_to!(gv => gv->MapVal_entries));
                    assert(decreases_to!(gevec => gevec[j]));
                    assert(decreases_to!(x => x.key));
                    assert(decreases_to!(x => x.value));
                    assert(decreases_to!(gv => x.key));
                    assert(decreases_to!(gv => x.value));
                }
                let MapEntry { key, value } = x;
                let nk = normalize_rec(Ghost(key), key);
                let nv = normalize_rec(Ghost(value), value);
                out.push(MapEntry { key: nk, value: nv });
            }
            proof {
                lemma_deep_entries(out@);
                assert(deep_entries(out@) =~= norm_entries_sorted(deep_entries(gevec@)));
            }
            Value::MapVal { entries: out }
        },
    }
}

/// Sort `elems` by the structural order, then normalize each element.
///
/// `gevec` is the vector `elems` itself, passed along as the termination
/// measure for the recursion into `normalize`.
fn normalize_sorted_elems(Ghost(gevec): Ghost<Vec<Value>>, elems: Vec<Value>) -> (out: Vec<
    Value,
>)
    requires
        gevec == elems,
    ensures
        deep_elems(out@) == norm_sorted(deep_elems(elems@)),
    decreases gevec, 1nat,
{
    let ghost gorig = elems@;
    let sorted = sort_value_vec(elems);
    let ghost gs = sorted@;
    proof {
        lemma_deep_elems(gs);
        lemma_deep_elems(gorig);
        lemma_sort_elems_multiset(deep_elems(gorig));
        lemma_norm_sorted(deep_elems(gorig));
    }
    let mut rem = sorted;
    let mut out: Vec<Value> = Vec::new();
    while rem.len() > 0
        invariant
            rem@ =~= gs.skip(gs.len() - rem@.len()),
            rem@.len() <= gs.len(),
            out@.len() == gs.len() - rem@.len(),
            deep_elems(gs).len() == gs.len(),
            deep_elems(gs) == sort_elems(deep_elems(gorig)),
            deep_elems(gorig).len() == gorig.len(),
            gorig == gevec@,
            forall|i: int| 0 <= i < gs.len() ==> deep_elems(gs)[i] == (#[trigger] gs[i]).deep(),
            forall|i: int| 0 <= i < gs.len() ==> gorig.contains(#[trigger] gs[i]),
            forall|i: int|
                0 <= i < out@.len() ==> (#[trigger] out@[i]).deep() == normal_of(gs[i].deep()),
        decreases rem.len(),
    {
        let ghost k = gs.len() - rem@.len();
        let x = rem.remove(0);
        proof {
            assert(x == gs[k]);
            assert(rem@ =~= gs.skip(k + 1));
            let j = choose|j: int| 0 <= j < gevec@.len() && gevec@[j] == x;
            assert(decreases_to!(gevec => gevec[j]));
        }
        let nx = normalize_rec(Ghost(x), x);
        out.push(nx);
    }
    proof {
        lemma_deep_elems(out@);
        assert(deep_elems(out@) =~= norm_sorted(deep_elems(gorig)));
    }
    out
}

} // verus!
