//! Persistent mappings from expression to expression, keyed by the total
//! order on values: lookup, association, dissociation and merge, with the
//! round-trip law between `assoc` and `dissoc`.

use vstd::prelude::*;

use crate::expression::ExprV;
use crate::expression::Expression;
use crate::expression::dup_entries;
use crate::expression::lemma_view_expr_pairs;
use crate::expression::view_expr_pairs;
use crate::order::Cmp;
use crate::order::cmp_expr;
use crate::order::compare;
use crate::order::lemma_cmp_eq;
use crate::order::lemma_cmp_flip;
use crate::order::lemma_cmp_refl;
use crate::order::lemma_cmp_trans;

verus! {

broadcast use vstd::std_specs::vec::group_vec_axioms, vstd::seq::group_seq_axioms;

/// The sequence of entries of a mapping, in key order.
pub type MapV = Seq<(ExprV, ExprV)>;

/// The value a key maps to, if any: the first entry whose key equals it.
pub open spec fn map_lookup_v(m: MapV, key: ExprV) -> Option<ExprV>
    decreases m.len(),
{
    if m.len() == 0 {
        None
    } else if m[0].0 == key {
        Some(m[0].1)
    } else {
        map_lookup_v(m.drop_first(), key)
    }
}

/// Whether a key is present.
pub open spec fn map_contains_v(m: MapV, key: ExprV) -> bool {
    map_lookup_v(m, key) is Some
}

/// A new mapping in which `key` maps to `value` and every other entry is
/// unchanged; the entry stands at its sorted position.
pub open spec fn map_insert_v(m: MapV, key: ExprV, value: ExprV) -> MapV
    decreases m.len(),
{
    if m.len() == 0 {
        seq![(key, value)]
    } else {
        match cmp_expr(key, m[0].0) {
            Cmp::Lt => seq![(key, value)] + m,
            Cmp::Eq => seq![(key, value)] + m.drop_first(),
            Cmp::Gt => seq![m[0]] + map_insert_v(m.drop_first(), key, value),
        }
    }
}

/// A new mapping without the entry for `key`, if there was one.
pub open spec fn map_remove_v(m: MapV, key: ExprV) -> MapV
    decreases m.len(),
{
    if m.len() == 0 {
        m
    } else if m[0].0 == key {
        m.drop_first()
    } else {
        seq![m[0]] + map_remove_v(m.drop_first(), key)
    }
}

/// The left mapping with every entry of the right mapping written into it,
/// left to right.
pub open spec fn map_merge_v(m1: MapV, m2: MapV) -> MapV
    decreases m2.len(),
{
    if m2.len() == 0 {
        m1
    } else {
        map_merge_v(map_insert_v(m1, m2[0].0, m2[0].1), m2.drop_first())
    }
}

/// Entries strictly ascend by key.
pub open spec fn map_sorted(m: MapV) -> bool {
    forall|i: int, j: int| 0 <= i < j < m.len() ==> cmp_expr(m[i].0, m[j].0) == Cmp::Lt
}

/// Dissociating a key that was just associated restores the mapping, when
/// the key was not present before: the round trip is the identity.
pub proof fn lemma_assoc_dissoc_roundtrip(m: MapV, key: ExprV, value: ExprV)
    requires
        !map_contains_v(m, key),
    ensures
        map_remove_v(map_insert_v(m, key, value), key) == m,
    decreases m.len(),
{
    lemma_cmp_refl(key);
    if m.len() == 0 {
        assert(map_remove_v(map_insert_v(m, key, value), key) =~= m);
    } else {
        lemma_cmp_eq(key, m[0].0);
        match cmp_expr(key, m[0].0) {
            Cmp::Lt => {
                let ins = seq![(key, value)] + m;
                assert(ins[0].0 == key);
                assert(ins.drop_first() =~= m);
            },
            Cmp::Eq => {
                assert(m[0].0 == key);
                assert(false);
            },
            Cmp::Gt => {
                assert(m[0].0 != key);
                lemma_assoc_dissoc_roundtrip(m.drop_first(), key, value);
                let ins = seq![m[0]] + map_insert_v(m.drop_first(), key, value);
                assert(ins[0] == m[0]);
                assert(ins.drop_first() =~= map_insert_v(m.drop_first(), key, value));
                assert(map_remove_v(ins, key) =~= seq![m[0]] + map_remove_v(
                    ins.drop_first(),
                    key,
                ));
                assert(seq![m[0]] + m.drop_first() =~= m);
            },
        }
    }
}

/// Association binds the key to the value.
pub proof fn lemma_insert_lookup(m: MapV, key: ExprV, value: ExprV)
    ensures
        map_lookup_v(map_insert_v(m, key, value), key) == Some(value),
    decreases m.len(),
{
    lemma_cmp_refl(key);
    if m.len() > 0 {
        lemma_cmp_eq(key, m[0].0);
        match cmp_expr(key, m[0].0) {
            Cmp::Lt => {
                assert((seq![(key, value)] + m)[0] == (key, value));
            },
            Cmp::Eq => {
                assert((seq![(key, value)] + m.drop_first())[0] == (key, value));
            },
            Cmp::Gt => {
                lemma_insert_lookup(m.drop_first(), key, value);
                let ins = seq![m[0]] + map_insert_v(m.drop_first(), key, value);
                assert(ins[0] == m[0]);
                assert(m[0].0 != key);
                assert(ins.drop_first() =~= map_insert_v(m.drop_first(), key, value));
            },
        }
    }
}

/// Association leaves every other key unchanged.
pub proof fn lemma_insert_lookup_other(m: MapV, key: ExprV, value: ExprV, other: ExprV)
    requires
        other != key,
    ensures
        map_lookup_v(map_insert_v(m, key, value), other) == map_lookup_v(m, other),
    decreases m.len(),
{
    if m.len() == 0 {
        assert(map_insert_v(m, key, value) == seq![(key, value)]);
        assert((seq![(key, value)])[0].0 == key);
        assert((seq![(key, value)]).drop_first() =~= Seq::<(ExprV, ExprV)>::empty());
        assert(map_lookup_v(Seq::<(ExprV, ExprV)>::empty(), other) == None::<ExprV>);
    } else {
        lemma_cmp_eq(key, m[0].0);
        match cmp_expr(key, m[0].0) {
            Cmp::Lt => {
                let ins = seq![(key, value)] + m;
                assert(map_insert_v(m, key, value) == ins);
                assert(ins[0].0 == key);
                assert(ins.drop_first() =~= m);
                assert(map_lookup_v(ins, other) == map_lookup_v(m, other));
            },
            Cmp::Eq => {
                let ins = seq![(key, value)] + m.drop_first();
                assert(map_insert_v(m, key, value) == ins);
                assert(ins[0].0 == key);
                assert(ins.drop_first() =~= m.drop_first());
                assert(m[0].0 == key);
                assert(map_lookup_v(ins, other) == map_lookup_v(m, other));
            },
            Cmp::Gt => {
                lemma_insert_lookup_other(m.drop_first(), key, value, other);
                let ins = seq![m[0]] + map_insert_v(m.drop_first(), key, value);
                assert(map_insert_v(m, key, value) == ins);
                assert(ins[0] == m[0]);
                assert(ins.drop_first() =~= map_insert_v(m.drop_first(), key, value));
                assert(map_lookup_v(ins, other) == map_lookup_v(m, other));
            },
        }
    }
}

/// Looks a key up in the entries of a mapping, returning a copy of the value.
pub fn map_lookup(entries: &Vec<(Expression, Expression)>, key: &Expression) -> (r: Option<
    Expression,
>)
    ensures
        match r {
            Some(e) => map_lookup_v(view_expr_pairs(entries@), key@) == Some(e@),
            None => map_lookup_v(view_expr_pairs(entries@), key@) == None::<ExprV>,
        },
{
    proof {
        lemma_view_expr_pairs(entries@);
        assert(view_expr_pairs(entries@).skip(0) =~= view_expr_pairs(entries@));
    }
    let ghost m = view_expr_pairs(entries@);
    let n = entries.len();
    let mut i: usize = 0;
    while i < n
        invariant
            i <= n,
            n == entries@.len(),
            m == view_expr_pairs(entries@),
            m.len() == n,
            forall|j: int| 0 <= j < m.len() ==> m[j] == (entries@[j].0@, entries@[j].1@),
            map_lookup_v(m, key@) == map_lookup_v(m.skip(i as int), key@),
        decreases n - i,
    {
        let c = compare(&entries[i].0, key);
        proof {
            lemma_cmp_eq(entries@[i as int].0@, key@);
            if entries@[i as int].0@ == key@ {
                lemma_cmp_refl(key@);
            }
            assert(m.skip(i as int)[0] == m[i as int]);
            assert(m.skip(i as int).drop_first() =~= m.skip(i as int + 1));
        }
        if matches!(c, Cmp::Eq) {
            return Some(entries[i].1.duplicate());
        }
        i = i + 1;
    }
    proof {
        assert(m.skip(n as int) =~= Seq::<(ExprV, ExprV)>::empty());
    }
    None
}

/// Copies the entries from position `i` on.
fn copy_entries_from(
    entries: &Vec<(Expression, Expression)>,
    i: usize,
) -> (r: Vec<(Expression, Expression)>)
    requires
        i <= entries@.len(),
    ensures
        view_expr_pairs(r@) == view_expr_pairs(entries@).skip(i as int),
{
    let mut out: Vec<(Expression, Expression)> = Vec::new();
    let mut j: usize = i;
    while j < entries.len()
        invariant
            i <= j <= entries@.len(),
            out@.len() == j - i,
            forall|k: int| 0 <= k < out@.len() ==> out@[k].0@ == entries@[i + k].0@
                && out@[k].1@ == entries@[i + k].1@,
        decreases entries.len() - j,
    {
        out.push((entries[j].0.duplicate(), entries[j].1.duplicate()));
        j = j + 1;
    }
    proof {
        lemma_view_expr_pairs(out@);
        lemma_view_expr_pairs(entries@);
        assert(view_expr_pairs(out@) =~= view_expr_pairs(entries@).skip(i as int));
    }
    out
}

/// Builds the entries of an association into the suffix starting at `i`.
fn insert_entry(
    entries: &Vec<(Expression, Expression)>,
    i: usize,
    key: &Expression,
    value: &Expression,
) -> (r: Vec<(Expression, Expression)>)
    requires
        i <= entries@.len(),
    ensures
        view_expr_pairs(r@) == map_insert_v(
            view_expr_pairs(entries@).skip(i as int),
            key@,
            value@,
        ),
    decreases entries@.len() - i,
{
    proof {
        lemma_view_expr_pairs(entries@);
    }
    let ghost suffix = view_expr_pairs(entries@).skip(i as int);
    if i >= entries.len() {
        let mut out: Vec<(Expression, Expression)> = Vec::new();
        out.push((key.duplicate(), value.duplicate()));
        proof {
            lemma_view_expr_pairs(out@);
            assert(suffix =~= Seq::<(ExprV, ExprV)>::empty());
            assert(view_expr_pairs(out@) =~= map_insert_v(suffix, key@, value@));
        }
        out
    } else {
        let c = compare(key, &entries[i].0);
        proof {
            assert(suffix[0] == (entries@[i as int].0@, entries@[i as int].1@));
            assert(suffix.drop_first() =~= view_expr_pairs(entries@).skip(i as int + 1));
        }
        match c {
            Cmp::Lt => {
                let mut out = copy_entries_from(entries, i);
                let ghost pre = out@;
                out.insert(0, (key.duplicate(), value.duplicate()));
                proof {
                    lemma_view_expr_pairs(out@);
                    lemma_view_expr_pairs(pre);
                    assert(view_expr_pairs(out@) =~= seq![(key@, value@)] + view_expr_pairs(pre));
                    assert(view_expr_pairs(out@) =~= map_insert_v(suffix, key@, value@));
                }
                out
            },
            Cmp::Eq => {
                let mut out = copy_entries_from(entries, i + 1);
                let ghost pre = out@;
                out.insert(0, (key.duplicate(), value.duplicate()));
                proof {
                    lemma_view_expr_pairs(out@);
                    lemma_view_expr_pairs(pre);
                    assert(view_expr_pairs(out@) =~= seq![(key@, value@)] + view_expr_pairs(pre));
                    assert(view_expr_pairs(out@) =~= map_insert_v(suffix, key@, value@));
                }
                out
            },
            Cmp::Gt => {
                let mut out = insert_entry(entries, i + 1, key, value);
                let ghost pre = out@;
                out.insert(0, (entries[i].0.duplicate(), entries[i].1.duplicate()));
                proof {
                    lemma_view_expr_pairs(out@);
                    lemma_view_expr_pairs(pre);
                    assert(view_expr_pairs(out@) =~= seq![suffix[0]] + view_expr_pairs(pre));
                    assert(view_expr_pairs(out@) =~= map_insert_v(suffix, key@, value@));
                }
                out
            },
        }
    }
}

/// A new entry vector in which `key` maps to `value`.
pub fn map_insert(
    entries: &Vec<(Expression, Expression)>,
    key: &Expression,
    value: &Expression,
) -> (r: Vec<(Expression, Expression)>)
    ensures
        view_expr_pairs(r@) == map_insert_v(view_expr_pairs(entries@), key@, value@),
{
    proof {
        assert(view_expr_pairs(entries@).skip(0) =~= view_expr_pairs(entries@));
    }
    insert_entry(entries, 0, key, value)
}

/// A new entry vector without the entry for `key`.
pub fn map_remove(entries: &Vec<(Expression, Expression)>, key: &Expression) -> (r: Vec<
    (Expression, Expression),
>)
    ensures
        view_expr_pairs(r@) == map_remove_v(view_expr_pairs(entries@), key@),
{
    proof {
        assert(view_expr_pairs(entries@).skip(0) =~= view_expr_pairs(entries@));
    }
    remove_entry(entries, 0, key)
}

/// Builds the entries of a removal from the suffix starting at `i`.
fn remove_entry(
    entries: &Vec<(Expression, Expression)>,
    i: usize,
    key: &Expression,
) -> (r: Vec<(Expression, Expression)>)
    requires
        i <= entries@.len(),
    ensures
        view_expr_pairs(r@) == map_remove_v(view_expr_pairs(entries@).skip(i as int), key@),
    decreases entries@.len() - i,
{
    proof {
        lemma_view_expr_pairs(entries@);
    }
    let ghost suffix = view_expr_pairs(entries@).skip(i as int);
    if i >= entries.len() {
        let out: Vec<(Expression, Expression)> = Vec::new();
        proof {
            lemma_view_expr_pairs(out@);
            assert(suffix =~= Seq::<(ExprV, ExprV)>::empty());
            assert(view_expr_pairs(out@) =~= map_remove_v(suffix, key@));
        }
        out
    } else {
        let c = compare(&entries[i].0, key);
        proof {
            lemma_cmp_eq(entries@[i as int].0@, key@);
            if entries@[i as int].0@ == key@ {
                lemma_cmp_refl(key@);
            }
            assert(suffix[0] == (entries@[i as int].0@, entries@[i as int].1@));
            assert(suffix.drop_first() =~= view_expr_pairs(entries@).skip(i as int + 1));
        }
        if matches!(c, Cmp::Eq) {
            let out = copy_entries_from(entries, i + 1);
            proof {
                assert(view_expr_pairs(out@) =~= map_remove_v(suffix, key@));
            }
            out
        } else {
            let mut out = remove_entry(entries, i + 1, key);
            let ghost pre = out@;
            out.insert(0, (entries[i].0.duplicate(), entries[i].1.duplicate()));
            proof {
                lemma_view_expr_pairs(out@);
                lemma_view_expr_pairs(pre);
                assert(view_expr_pairs(out@) =~= seq![suffix[0]] + view_expr_pairs(pre));
                assert(view_expr_pairs(out@) =~= map_remove_v(suffix, key@));
            }
            out
        }
    }
}

/// A new entry vector holding the left entries overwritten by the right ones.
pub fn map_merge(
    left: &Vec<(Expression, Expression)>,
    right: &Vec<(Expression, Expression)>,
) -> (r: Vec<(Expression, Expression)>)
    ensures
        view_expr_pairs(r@) == map_merge_v(view_expr_pairs(left@), view_expr_pairs(right@)),
{
    proof {
        lemma_view_expr_pairs(right@);
    }
    let ghost m2 = view_expr_pairs(right@);
    let mut out = dup_entries(left);
    proof {
        assert(m2.skip(0) =~= m2);
    }
    let mut i: usize = 0;
    while i < right.len()
        invariant
            i <= right@.len(),
            m2 == view_expr_pairs(right@),
            m2.len() == right@.len(),
            forall|j: int| 0 <= j < m2.len() ==> m2[j] == (right@[j].0@, right@[j].1@),
            map_merge_v(view_expr_pairs(left@), m2) == map_merge_v(
                view_expr_pairs(out@),
                m2.skip(i as int),
            ),
        decreases right@.len() - i,
    {
        proof {
            assert(m2.skip(i as int)[0] == m2[i as int]);
            assert(m2.skip(i as int).drop_first() =~= m2.skip(i as int + 1));
        }
        out = map_insert(&out, &right[i].0, &right[i].1);
        i = i + 1;
    }
    proof {
        assert(m2.skip(right@.len() as int) =~= Seq::<(ExprV, ExprV)>::empty());
    }
    out
}


/// Every entry of an association is the written entry or one of the old
/// ones.
pub proof fn lemma_insert_members(m: MapV, key: ExprV, value: ExprV)
    ensures
        forall|j: int| 0 <= j < map_insert_v(m, key, value).len()
            ==> (#[trigger] map_insert_v(m, key, value)[j] == (key, value) || m.contains(
            map_insert_v(m, key, value)[j],
        )),
    decreases m.len(),
{
    let ins = map_insert_v(m, key, value);
    if m.len() == 0 {
        assert(ins =~= seq![(key, value)]);
    } else {
        match cmp_expr(key, m[0].0) {
            Cmp::Lt => {
                assert forall|j: int| 0 <= j < ins.len() implies (ins[j] == (key, value)
                    || m.contains(ins[j])) by {
                    if j > 0 {
                        assert(ins[j] == m[j - 1]);
                    }
                }
            },
            Cmp::Eq => {
                assert forall|j: int| 0 <= j < ins.len() implies (ins[j] == (key, value)
                    || m.contains(ins[j])) by {
                    if j > 0 {
                        assert(ins[j] == m.drop_first()[j - 1]);
                        assert(m.drop_first()[j - 1] == m[j]);
                    }
                }
            },
            Cmp::Gt => {
                lemma_insert_members(m.drop_first(), key, value);
                let tail = map_insert_v(m.drop_first(), key, value);
                assert forall|j: int| 0 <= j < ins.len() implies (ins[j] == (key, value)
                    || m.contains(ins[j])) by {
                    if j == 0 {
                        assert(ins[0] == m[0]);
                    } else {
                        assert(ins[j] == tail[j - 1]);
                        if tail[j - 1] != (key, value) {
                            assert(m.drop_first().contains(tail[j - 1]));
                            let i = choose|i: int| 0 <= i < m.drop_first().len()
                                && m.drop_first()[i] == tail[j - 1];
                            assert(m[i + 1] == tail[j - 1]);
                        }
                    }
                }
            },
        }
    }
}

/// Association keeps the entries strictly sorted by key.
pub proof fn lemma_insert_sorted(m: MapV, key: ExprV, value: ExprV)
    requires
        map_sorted(m),
    ensures
        map_sorted(map_insert_v(m, key, value)),
    decreases m.len(),
{
    let ins = map_insert_v(m, key, value);
    if m.len() == 0 {
    } else {
        lemma_cmp_eq(key, m[0].0);
        match cmp_expr(key, m[0].0) {
            Cmp::Lt => {
                assert forall|i: int, j: int| 0 <= i < j < ins.len() implies cmp_expr(
                    ins[i].0,
                    ins[j].0,
                ) == Cmp::Lt by {
                    if i == 0 {
                        assert(ins[j] == m[j - 1]);
                        if j > 1 {
                            lemma_cmp_trans(key, m[0].0, m[j - 1].0);
                        }
                    } else {
                        assert(ins[i] == m[i - 1] && ins[j] == m[j - 1]);
                    }
                }
            },
            Cmp::Eq => {
                assert forall|i: int, j: int| 0 <= i < j < ins.len() implies cmp_expr(
                    ins[i].0,
                    ins[j].0,
                ) == Cmp::Lt by {
                    if i == 0 {
                        assert(ins[j] == m.drop_first()[j - 1]);
                        assert(m.drop_first()[j - 1] == m[j]);
                    } else {
                        assert(ins[i] == m[i] && ins[j] == m[j]);
                    }
                }
            },
            Cmp::Gt => {
                assert(map_sorted(m.drop_first())) by {
                    assert(forall|i: int| 0 <= i < m.drop_first().len()
                        ==> m.drop_first()[i] == m[i + 1]);
                }
                lemma_insert_sorted(m.drop_first(), key, value);
                lemma_insert_members(m.drop_first(), key, value);
                let tail = map_insert_v(m.drop_first(), key, value);
                lemma_cmp_flip(key, m[0].0);
                assert forall|i: int, j: int| 0 <= i < j < ins.len() implies cmp_expr(
                    ins[i].0,
                    ins[j].0,
                ) == Cmp::Lt by {
                    if i == 0 {
                        assert(ins[0] == m[0]);
                        assert(ins[j] == tail[j - 1]);
                        if tail[j - 1] == (key, value) {
                            assert(cmp_expr(m[0].0, key) == Cmp::Lt);
                        } else {
                            assert(m.drop_first().contains(tail[j - 1]));
                            let k = choose|k: int| 0 <= k < m.drop_first().len()
                                && m.drop_first()[k] == tail[j - 1];
                            assert(m[k + 1] == tail[j - 1]);
                            assert(cmp_expr(m[0].0, m[k + 1].0) == Cmp::Lt);
                        }
                    } else {
                        assert(ins[i] == tail[i - 1] && ins[j] == tail[j - 1]);
                    }
                }
            },
        }
    }
}

/// Every entry of a dissociation is one of the old entries.
pub proof fn lemma_remove_members(m: MapV, key: ExprV)
    ensures
        forall|j: int| 0 <= j < map_remove_v(m, key).len() ==> m.contains(
            #[trigger] map_remove_v(m, key)[j],
        ),
    decreases m.len(),
{
    let out = map_remove_v(m, key);
    if m.len() == 0 {
    } else if m[0].0 == key {
        assert forall|j: int| 0 <= j < out.len() implies m.contains(out[j]) by {
            assert(out[j] == m[j + 1]);
        }
    } else {
        lemma_remove_members(m.drop_first(), key);
        let tail = map_remove_v(m.drop_first(), key);
        assert forall|j: int| 0 <= j < out.len() implies m.contains(out[j]) by {
            if j == 0 {
                assert(out[0] == m[0]);
            } else {
                assert(out[j] == tail[j - 1]);
                assert(m.drop_first().contains(tail[j - 1]));
                let k = choose|k: int| 0 <= k < m.drop_first().len() && m.drop_first()[k] == tail[
                    j - 1
                ];
                assert(m[k + 1] == tail[j - 1]);
            }
        }
    }
}

/// Dissociation keeps the entries strictly sorted by key.
pub proof fn lemma_remove_sorted(m: MapV, key: ExprV)
    requires
        map_sorted(m),
    ensures
        map_sorted(map_remove_v(m, key)),
    decreases m.len(),
{
    let out = map_remove_v(m, key);
    if m.len() == 0 {
    } else if m[0].0 == key {
        assert forall|i: int, j: int| 0 <= i < j < out.len() implies cmp_expr(out[i].0, out[j].0)
            == Cmp::Lt by {
            assert(out[i] == m[i + 1] && out[j] == m[j + 1]);
        }
    } else {
        assert(map_sorted(m.drop_first())) by {
            assert(forall|i: int| 0 <= i < m.drop_first().len() ==> m.drop_first()[i] == m[i + 1]);
        }
        lemma_remove_sorted(m.drop_first(), key);
        lemma_remove_members(m.drop_first(), key);
        let tail = map_remove_v(m.drop_first(), key);
        assert forall|i: int, j: int| 0 <= i < j < out.len() implies cmp_expr(out[i].0, out[j].0)
            == Cmp::Lt by {
            if i == 0 {
                assert(out[0] == m[0]);
                assert(out[j] == tail[j - 1]);
                assert(m.drop_first().contains(tail[j - 1]));
                let k = choose|k: int| 0 <= k < m.drop_first().len() && m.drop_first()[k] == tail[
                    j - 1
                ];
                assert(m[k + 1] == tail[j - 1]);
                assert(cmp_expr(m[0].0, m[k + 1].0) == Cmp::Lt);
            } else {
                assert(out[i] == tail[i - 1] && out[j] == tail[j - 1]);
            }
        }
    }
}

/// Merging sorted mappings yields a sorted mapping.
pub proof fn lemma_merge_sorted(m1: MapV, m2: MapV)
    requires
        map_sorted(m1),
    ensures
        map_sorted(map_merge_v(m1, m2)),
    decreases m2.len(),
{
    if m2.len() > 0 {
        lemma_insert_sorted(m1, m2[0].0, m2[0].1);
        lemma_merge_sorted(map_insert_v(m1, m2[0].0, m2[0].1), m2.drop_first());
    }
}

} // verus!
