//! String-to-string maps kept as association lists, and the lexicographic
//! sorting of their entries that canonicalization relies on.

use vstd::prelude::*;
use vstd::multiset::Multiset;
use vstd::relations::{sorted_by, total_ordering};
use crate::strutil::lex_le;
use crate::strutil::lex_lt;
use crate::strutil::lemma_lex_lt_asymmetric;
use crate::strutil::lemma_lex_lt_connected;
use crate::strutil::lemma_lex_lt_irreflexive;
use crate::strutil::lemma_lex_lt_transitive;
use crate::strutil::str_eq;
use crate::strutil::str_lt;

verus! {

/// A key-value entry as specifications see it.
pub type EntryView = (Seq<char>, Seq<char>);

/// Order on entries: by key, then by value.  Comparing the values as well
/// makes the order total, so sorting is insensitive to the order in which
/// entries were inserted.
pub open spec fn entry_le(a: EntryView, b: EntryView) -> bool {
    lex_lt(a.0, b.0) || (a.0 == b.0 && lex_le(a.1, b.1))
}

pub open spec fn entry_le_fn() -> spec_fn(EntryView, EntryView) -> bool {
    |a: EntryView, b: EntryView| entry_le(a, b)
}

pub proof fn lemma_entry_le_total_ordering()
    ensures
        total_ordering(entry_le_fn()),
{
    let r = entry_le_fn();
    assert forall|x: EntryView| #[trigger] r(x, x) by {
        assert(entry_le(x, x));
    }
    assert forall|x: EntryView, y: EntryView| #[trigger] r(x, y) && #[trigger] r(y, x)
        implies x == y by {
        if lex_lt(x.0, y.0) {
            lemma_lex_lt_asymmetric(x.0, y.0);
            lemma_lex_lt_irreflexive(x.0);
            assert(false);
        }
        if lex_lt(x.1, y.1) {
            lemma_lex_lt_asymmetric(x.1, y.1);
            lemma_lex_lt_irreflexive(x.1);
        }
        assert(x.0 == y.0 && x.1 == y.1);
        assert(x == (x.0, x.1) && y == (y.0, y.1));
    }
    assert forall|x: EntryView, y: EntryView, z: EntryView|
        #[trigger] r(x, y) && #[trigger] r(y, z) implies r(x, z) by {
        if lex_lt(x.0, y.0) && lex_lt(y.0, z.0) {
            lemma_lex_lt_transitive(x.0, y.0, z.0);
        } else if x.0 == y.0 && y.0 == z.0 {
            if lex_lt(x.1, y.1) && lex_lt(y.1, z.1) {
                lemma_lex_lt_transitive(x.1, y.1, z.1);
            }
        }
    }
    assert forall|x: EntryView, y: EntryView| #[trigger] r(x, y) || #[trigger] r(y, x) by {
        lemma_lex_lt_connected(x.0, y.0);
        if x.0 == y.0 {
            lemma_lex_lt_connected(x.1, y.1);
        }
    }
}

/// The value stored under `k`, reading entries front to back.
pub open spec fn map_get(s: Seq<EntryView>, k: Seq<char>) -> Option<Seq<char>>
    decreases s.len(),
{
    if s.len() == 0 {
        None
    } else if s[0].0 == k {
        Some(s[0].1)
    } else {
        map_get(s.drop_first(), k)
    }
}

pub open spec fn map_has_key(s: Seq<EntryView>, k: Seq<char>) -> bool {
    map_get(s, k) is Some
}

/// Insertion with map semantics: the first entry under `k` is replaced in
/// place; a fresh key is appended at the back.
pub open spec fn map_insert(s: Seq<EntryView>, k: Seq<char>, v: Seq<char>) -> Seq<EntryView>
    decreases s.len(),
{
    if s.len() == 0 {
        seq![(k, v)]
    } else if s[0].0 == k {
        seq![(k, v)] + s.drop_first()
    } else {
        seq![s[0]] + map_insert(s.drop_first(), k, v)
    }
}

pub proof fn lemma_map_get_at(s: Seq<EntryView>, k: Seq<char>, i: int)
    requires
        0 <= i < s.len(),
        s[i].0 == k,
        forall|j: int| 0 <= j < i ==> s[j].0 != k,
    ensures
        map_get(s, k) == Some(s[i].1),
    decreases i,
{
    if i > 0 {
        lemma_map_get_at(s.drop_first(), k, i - 1);
    }
}

pub proof fn lemma_map_get_none(s: Seq<EntryView>, k: Seq<char>)
    requires
        forall|j: int| 0 <= j < s.len() ==> s[j].0 != k,
    ensures
        map_get(s, k) is None,
    decreases s.len(),
{
    if s.len() > 0 {
        lemma_map_get_none(s.drop_first(), k);
    }
}

pub proof fn lemma_map_insert_at(s: Seq<EntryView>, k: Seq<char>, v: Seq<char>, i: int)
    requires
        0 <= i < s.len(),
        s[i].0 == k,
        forall|j: int| 0 <= j < i ==> s[j].0 != k,
    ensures
        map_insert(s, k, v) =~= s.update(i, (k, v)),
    decreases i,
{
    if i == 0 {
        assert(map_insert(s, k, v) =~= s.update(0, (k, v)));
    } else {
        lemma_map_insert_at(s.drop_first(), k, v, i - 1);
        assert(map_insert(s, k, v) =~= seq![s[0]] + s.drop_first().update(i - 1, (k, v)));
        assert(seq![s[0]] + s.drop_first().update(i - 1, (k, v)) =~= s.update(i, (k, v)));
    }
}

pub proof fn lemma_map_insert_append(s: Seq<EntryView>, k: Seq<char>, v: Seq<char>)
    requires
        forall|j: int| 0 <= j < s.len() ==> s[j].0 != k,
    ensures
        map_insert(s, k, v) =~= s.push((k, v)),
    decreases s.len(),
{
    if s.len() > 0 {
        lemma_map_insert_append(s.drop_first(), k, v);
        assert(map_insert(s, k, v) =~= seq![s[0]] + s.drop_first().push((k, v)));
        assert(seq![s[0]] + s.drop_first().push((k, v)) =~= s.push((k, v)));
    }
}

pub proof fn lemma_map_insert_get(s: Seq<EntryView>, k: Seq<char>, v: Seq<char>)
    ensures
        map_get(map_insert(s, k, v), k) == Some(v),
        map_has_key(map_insert(s, k, v), k),
    decreases s.len(),
{
    if s.len() > 0 && s[0].0 != k {
        lemma_map_insert_get(s.drop_first(), k, v);
        assert((seq![s[0]] + map_insert(s.drop_first(), k, v)).drop_first() =~= map_insert(
            s.drop_first(),
            k,
            v,
        ));
    }
}

/// Inserting a fresh key adds one entry; replacing keeps the length.
pub proof fn lemma_map_insert_len(s: Seq<EntryView>, k: Seq<char>, v: Seq<char>)
    ensures
        map_insert(s, k, v).len() == if map_has_key(s, k) {
            s.len()
        } else {
            s.len() + 1
        },
    decreases s.len(),
{
    if s.len() > 0 && s[0].0 != k {
        lemma_map_insert_len(s.drop_first(), k, v);
    }
}

/// Every entry of `adds` inserted in turn, with map semantics.
pub open spec fn insert_all(s: Seq<EntryView>, adds: Seq<EntryView>) -> Seq<EntryView>
    decreases adds.len(),
{
    if adds.len() == 0 {
        s
    } else {
        insert_all(map_insert(s, adds[0].0, adds[0].1), adds.drop_first())
    }
}

pub proof fn lemma_insert_all_push(s: Seq<EntryView>, adds: Seq<EntryView>, a: EntryView)
    ensures
        insert_all(s, adds.push(a)) == map_insert(insert_all(s, adds), a.0, a.1),
    decreases adds.len(),
{
    if adds.len() == 0 {
        assert(adds.push(a).drop_first() =~= Seq::<EntryView>::empty());
        assert(insert_all(map_insert(s, a.0, a.1), Seq::<EntryView>::empty()) == map_insert(
            s,
            a.0,
            a.1,
        ));
    } else {
        lemma_insert_all_push(map_insert(s, adds[0].0, adds[0].1), adds.drop_first(), a);
        assert(adds.push(a).drop_first() =~= adds.drop_first().push(a));
    }
}

/// Inserting an entry into a sorted run, before the first entry it precedes.
pub open spec fn insert_sorted(e: EntryView, s: Seq<EntryView>) -> Seq<EntryView>
    decreases s.len(),
{
    if s.len() == 0 {
        seq![e]
    } else if entry_le(e, s[0]) {
        seq![e] + s
    } else {
        seq![s[0]] + insert_sorted(e, s.drop_first())
    }
}

/// Insertion sort of entries under `entry_le`.
pub open spec fn sort_entries(s: Seq<EntryView>) -> Seq<EntryView>
    decreases s.len(),
{
    if s.len() == 0 {
        s
    } else {
        insert_sorted(s.last(), sort_entries(s.drop_last()))
    }
}

pub proof fn lemma_insert_sorted_at(e: EntryView, s: Seq<EntryView>, j: int)
    requires
        0 <= j <= s.len(),
        forall|idx: int| 0 <= idx < j ==> !entry_le(e, s[idx]),
        j < s.len() ==> entry_le(e, s[j]),
    ensures
        insert_sorted(e, s) =~= s.insert(j, e),
    decreases j,
{
    if j == 0 {
        if s.len() == 0 {
            assert(insert_sorted(e, s) =~= s.insert(0, e));
        } else {
            assert(insert_sorted(e, s) =~= s.insert(0, e));
        }
    } else {
        assert(!entry_le(e, s[0]));
        lemma_insert_sorted_at(e, s.drop_first(), j - 1);
        assert(insert_sorted(e, s) =~= seq![s[0]] + s.drop_first().insert(j - 1, e));
        assert(seq![s[0]] + s.drop_first().insert(j - 1, e) =~= s.insert(j, e));
    }
}

pub proof fn lemma_insert_sorted_sorted(e: EntryView, s: Seq<EntryView>)
    requires
        sorted_by(s, entry_le_fn()),
    ensures
        sorted_by(insert_sorted(e, s), entry_le_fn()),
    decreases s.len(),
{
    lemma_entry_le_total_ordering();
    let r = entry_le_fn();
    if s.len() == 0 {
    } else if entry_le(e, s[0]) {
        let out = seq![e] + s;
        assert forall|i: int, j: int| 0 <= i < j < out.len() implies #[trigger] r(
            out[i],
            out[j],
        ) by {
            if i == 0 {
                assert(r(e, s[0]));
                if j > 1 {
                    assert(r(s[0], s[j - 1]));
                }
            } else {
                assert(r(s[i - 1], s[j - 1]));
            }
        }
    } else {
        assert(!r(e, s[0]));
        assert(r(s[0], e));
        assert(sorted_by(s.drop_first(), r)) by {
            assert forall|i: int, j: int| 0 <= i < j < s.drop_first().len() implies #[trigger] r(
                s.drop_first()[i],
                s.drop_first()[j],
            ) by {
                assert(r(s[i + 1], s[j + 1]));
            }
        }
        lemma_insert_sorted_sorted(e, s.drop_first());
        let t = insert_sorted(e, s.drop_first());
        assert forall|m: int| 0 <= m < s.drop_first().len() implies entry_le(
            s[0],
            #[trigger] s.drop_first()[m],
        ) by {
            assert(r(s[0], s[m + 1]));
        }
        lemma_insert_sorted_head_le(s[0], e, s.drop_first());
        let out = seq![s[0]] + t;
        assert forall|i: int, j: int| 0 <= i < j < out.len() implies #[trigger] r(
            out[i],
            out[j],
        ) by {
            if i > 0 {
                assert(r(t[i - 1], t[j - 1]));
            } else {
                // the head is below every element of the tail
                assert(entry_le(s[0], t[j - 1]));
                assert(r(s[0], out[j]));
            }
        }
    }
}

/// Every element of an `insert_sorted` result is the inserted entry or one of
/// the run's own entries, and the head entry stays below all of them.
pub proof fn lemma_insert_sorted_head_le(h: EntryView, e: EntryView, s: Seq<EntryView>)
    requires
        entry_le(h, e),
        forall|i: int| 0 <= i < s.len() ==> entry_le(h, #[trigger] s[i]),
    ensures
        forall|i: int|
            0 <= i < insert_sorted(e, s).len() ==> entry_le(h, #[trigger] insert_sorted(e, s)[i]),
    decreases s.len(),
{
    if s.len() == 0 {
    } else if entry_le(e, s[0]) {
    } else {
        lemma_insert_sorted_head_le(h, e, s.drop_first());
        assert forall|i: int| 0 <= i < insert_sorted(e, s).len() implies entry_le(
            h,
            #[trigger] insert_sorted(e, s)[i],
        ) by {
            if i > 0 {
                assert(insert_sorted(e, s)[i] == insert_sorted(e, s.drop_first())[i - 1]);
            }
        }
    }
}

pub proof fn lemma_insert_sorted_multiset(e: EntryView, s: Seq<EntryView>)
    ensures
        insert_sorted(e, s).to_multiset() =~= s.to_multiset().insert(e),
    decreases s.len(),
{
    broadcast use vstd::seq_lib::group_to_multiset_ensures;

    if s.len() == 0 {
        assert(seq![e] =~= Seq::<EntryView>::empty().push(e));
        assert(Seq::<EntryView>::empty().to_multiset() =~= Multiset::<EntryView>::empty());
    } else if entry_le(e, s[0]) {
        vstd::seq_lib::lemma_multiset_commutative(seq![e], s);
        assert(seq![e].to_multiset() =~= Multiset::<EntryView>::empty().insert(e)) by {
            assert(seq![e] =~= Seq::<EntryView>::empty().push(e));
        }
    } else {
        lemma_insert_sorted_multiset(e, s.drop_first());
        vstd::seq_lib::lemma_multiset_commutative(seq![s[0]], insert_sorted(e, s.drop_first()));
        assert(seq![s[0]].to_multiset() =~= Multiset::<EntryView>::empty().insert(s[0])) by {
            assert(seq![s[0]] =~= Seq::<EntryView>::empty().push(s[0]));
        }
        vstd::seq_lib::lemma_multiset_commutative(seq![s[0]], s.drop_first());
        assert(seq![s[0]] + s.drop_first() =~= s);
    }
}

pub proof fn lemma_sort_entries_sorted(s: Seq<EntryView>)
    ensures
        sorted_by(sort_entries(s), entry_le_fn()),
    decreases s.len(),
{
    if s.len() > 0 {
        lemma_sort_entries_sorted(s.drop_last());
        lemma_insert_sorted_sorted(s.last(), sort_entries(s.drop_last()));
    }
}

pub proof fn lemma_sort_entries_multiset(s: Seq<EntryView>)
    ensures
        sort_entries(s).to_multiset() =~= s.to_multiset(),
    decreases s.len(),
{
    broadcast use vstd::seq_lib::group_to_multiset_ensures;

    if s.len() > 0 {
        lemma_sort_entries_multiset(s.drop_last());
        lemma_insert_sorted_multiset(s.last(), sort_entries(s.drop_last()));
        assert(s.drop_last().push(s.last()) =~= s);
    }
}

/// Two entry runs with the same entries sort to the same run, whatever the
/// order in which the entries stand.
pub proof fn lemma_sort_entries_permutation(s1: Seq<EntryView>, s2: Seq<EntryView>)
    requires
        s1.to_multiset() == s2.to_multiset(),
    ensures
        sort_entries(s1) == sort_entries(s2),
{
    lemma_entry_le_total_ordering();
    lemma_sort_entries_sorted(s1);
    lemma_sort_entries_sorted(s2);
    lemma_sort_entries_multiset(s1);
    lemma_sort_entries_multiset(s2);
    vstd::seq_lib::lemma_sorted_unique(sort_entries(s1), sort_entries(s2), entry_le_fn());
}

/// The characters that the entries themselves contribute to a joined run.
pub open spec fn entries_text_len(s: Seq<EntryView>) -> int
    decreases s.len(),
{
    if s.len() == 0 {
        0
    } else {
        s[0].0.len() + s[0].1.len() + entries_text_len(s.drop_first())
    }
}

pub proof fn lemma_text_len_push(s: Seq<EntryView>, e: EntryView)
    ensures
        entries_text_len(s.push(e)) == entries_text_len(s) + e.0.len() + e.1.len(),
    decreases s.len(),
{
    if s.len() == 0 {
        assert(s.push(e)[0] == e);
        assert(s.push(e).drop_first() =~= Seq::<EntryView>::empty());
        assert(entries_text_len(Seq::<EntryView>::empty()) == 0);
    } else {
        lemma_text_len_push(s.drop_first(), e);
        assert(s.push(e)[0] == s[0]);
        assert(s.push(e).drop_first() =~= s.drop_first().push(e));
    }
}

/// A map without `k` holds no entry under it.
pub proof fn lemma_no_key_entries(s: Seq<EntryView>, k: Seq<char>)
    requires
        !map_has_key(s, k),
    ensures
        forall|j: int| 0 <= j < s.len() ==> (#[trigger] s[j]).0 != k,
    decreases s.len(),
{
    if s.len() > 0 {
        lemma_no_key_entries(s.drop_first(), k);
        assert forall|j: int| 0 <= j < s.len() implies (#[trigger] s[j]).0 != k by {
            if j > 0 {
                assert(s.drop_first()[j - 1].0 != k);
            }
        }
    }
}

pub proof fn lemma_text_len_insert_sorted(e: EntryView, s: Seq<EntryView>)
    ensures
        entries_text_len(insert_sorted(e, s)) == entries_text_len(s) + e.0.len() + e.1.len(),
    decreases s.len(),
{
    if s.len() == 0 {
        assert(seq![e][0] == e);
        assert(seq![e].drop_first() =~= Seq::<EntryView>::empty());
        assert(entries_text_len(Seq::<EntryView>::empty()) == 0);
    } else if entry_le(e, s[0]) {
        assert((seq![e] + s)[0] == e);
        assert((seq![e] + s).drop_first() =~= s);
    } else {
        lemma_text_len_insert_sorted(e, s.drop_first());
        assert((seq![s[0]] + insert_sorted(e, s.drop_first()))[0] == s[0]);
        assert((seq![s[0]] + insert_sorted(e, s.drop_first())).drop_first() =~= insert_sorted(
            e,
            s.drop_first(),
        ));
    }
}

pub proof fn lemma_text_len_sort(s: Seq<EntryView>)
    ensures
        entries_text_len(sort_entries(s)) == entries_text_len(s),
    decreases s.len(),
{
    if s.len() > 0 {
        lemma_text_len_sort(s.drop_last());
        lemma_text_len_insert_sorted(s.last(), sort_entries(s.drop_last()));
        lemma_text_len_push(s.drop_last(), s.last());
        assert(s.drop_last().push(s.last()) =~= s);
    }
}

pub proof fn lemma_insert_sorted_len(e: EntryView, s: Seq<EntryView>)
    ensures
        insert_sorted(e, s).len() == s.len() + 1,
    decreases s.len(),
{
    if s.len() > 0 && !entry_le(e, s[0]) {
        lemma_insert_sorted_len(e, s.drop_first());
    }
}

pub proof fn lemma_sort_entries_len(s: Seq<EntryView>)
    ensures
        sort_entries(s).len() == s.len(),
    decreases s.len(),
{
    if s.len() > 0 {
        lemma_sort_entries_len(s.drop_last());
        lemma_insert_sorted_len(s.last(), sort_entries(s.drop_last()));
    }
}

/// The entry views of a vector of string pairs.
pub open spec fn pairs_view(s: Seq<(String, String)>) -> Seq<EntryView> {
    s.map_values(|p: (String, String)| (p.0@, p.1@))
}

/// Entry comparison on string pairs.
pub fn entry_le_exec(a0: &String, a1: &String, b: &(String, String)) -> (r: bool)
    ensures
        r == entry_le((a0@, a1@), (b.0@, b.1@)),
{
    if str_lt(a0.as_str(), b.0.as_str()) {
        true
    } else if str_eq(a0.as_str(), b.0.as_str()) {
        str_lt(a1.as_str(), b.1.as_str()) || str_eq(a1.as_str(), b.1.as_str())
    } else {
        false
    }
}

/// Sorts string pairs by key, then value, under the lexicographic order.
pub fn sort_pairs(input: &Vec<(String, String)>) -> (out: Vec<(String, String)>)
    ensures
        pairs_view(out@) == sort_entries(pairs_view(input@)),
{
    let mut out: Vec<(String, String)> = Vec::new();
    proof {
        assert(pairs_view(input@.subrange(0, 0)) =~= Seq::<EntryView>::empty());
        assert(pairs_view(out@) =~= sort_entries(pairs_view(input@.subrange(0, 0))));
    }
    let n = input.len();
    let mut i: usize = 0;
    while i < n
        invariant
            n == input@.len(),
            0 <= i <= n,
            pairs_view(out@) == sort_entries(pairs_view(input@.subrange(0, i as int))),
        decreases n - i,
    {
        let k = input[i].0.clone();
        let v = input[i].1.clone();
        let ghost e: EntryView = (k@, v@);
        let ghost old_out = pairs_view(out@);
        let mut j: usize = 0;
        while j < out.len() && !entry_le_exec(&k, &v, &out[j])
            invariant
                0 <= j <= out@.len(),
                forall|idx: int|
                    0 <= idx < j ==> !entry_le(e, (#[trigger] out@[idx].0@, out@[idx].1@)),
                k@ == e.0,
                v@ == e.1,
                pairs_view(out@) == old_out,
            decreases out@.len() - j,
        {
            j = j + 1;
        }
        proof {
            assert forall|idx: int| 0 <= idx < j implies !entry_le(e, #[trigger] old_out[idx]) by {
                assert(old_out[idx] == (out@[idx].0@, out@[idx].1@));
            }
            if (j as int) < out@.len() {
                assert(entry_le(e, old_out[j as int]));
            }
            lemma_insert_sorted_at(e, old_out, j as int);
        }
        out.insert(j, (k, v));
        proof {
            assert(pairs_view(out@) =~= old_out.insert(j as int, e));
            assert(input@.subrange(0, i + 1).drop_last() =~= input@.subrange(0, i as int));
            assert(pairs_view(input@.subrange(0, i + 1)).drop_last() =~= pairs_view(
                input@.subrange(0, i as int),
            ));
            assert(pairs_view(input@.subrange(0, i + 1)).last() == e);
            assert(pairs_view(input@.subrange(0, i + 1)).len() > 0);
            assert(pairs_view(out@) =~= sort_entries(pairs_view(input@.subrange(0, i + 1))));
        }
        i = i + 1;
    }
    proof {
        assert(input@.subrange(0, n as int) =~= input@);
    }
    out
}

/// A string-keyed map of strings.  Entries keep their insertion order;
/// inserting under an existing key replaces that entry in place.
#[derive(Debug)]
pub struct StrMap {
    entries: Vec<(String, String)>,
}

impl View for StrMap {
    type V = Seq<EntryView>;

    closed spec fn view(&self) -> Seq<EntryView> {
        pairs_view(self.entries@)
    }
}

impl StrMap {
    pub fn new() -> (m: Self)
        ensures
            m@ == Seq::<EntryView>::empty(),
    {
        let m = StrMap { entries: Vec::new() };
        proof {
            assert(m@ =~= Seq::<EntryView>::empty());
        }
        m
    }

    pub fn len(&self) -> (n: usize)
        ensures
            n == self@.len(),
    {
        self.entries.len()
    }

    pub fn is_empty(&self) -> (r: bool)
        ensures
            r == (self@.len() == 0),
    {
        self.entries.len() == 0
    }

    pub fn key_at(&self, i: usize) -> (k: &String)
        requires
            i < self@.len(),
        ensures
            k@ == self@[i as int].0,
    {
        &self.entries[i].0
    }

    pub fn val_at(&self, i: usize) -> (v: &String)
        requires
            i < self@.len(),
        ensures
            v@ == self@[i as int].1,
    {
        &self.entries[i].1
    }

    pub fn get(&self, k: &str) -> (r: Option<&String>)
        ensures
            match r {
                Some(v) => map_get(self@, k@) == Some(v@),
                None => map_get(self@, k@) is None,
            },
    {
        let n = self.entries.len();
        let mut i: usize = 0;
        while i < n
            invariant
                n == self@.len(),
                0 <= i <= n,
                forall|j: int| 0 <= j < i ==> (#[trigger] self@[j]).0 != k@,
            decreases n - i,
        {
            if str_eq(self.entries[i].0.as_str(), k) {
                proof {
                    lemma_map_get_at(self@, k@, i as int);
                }
                return Some(&self.entries[i].1);
            }
            i = i + 1;
        }
        proof {
            lemma_map_get_none(self@, k@);
        }
        None
    }

    pub fn contains_key(&self, k: &str) -> (r: bool)
        ensures
            r == map_has_key(self@, k@),
    {
        match self.get(k) {
            Some(_) => true,
            None => false,
        }
    }

    pub fn insert(&mut self, k: String, v: String)
        ensures
            final(self)@ == map_insert(old(self)@, k@, v@),
    {
        let n = self.entries.len();
        let mut i: usize = 0;
        while i < n
            invariant
                n == self@.len(),
                0 <= i <= n,
                forall|j: int| 0 <= j < i ==> (#[trigger] self@[j]).0 != k@,
                self@ == old(self)@,
            decreases n - i,
        {
            if str_eq(self.entries[i].0.as_str(), k.as_str()) {
                proof {
                    lemma_map_insert_at(self@, k@, v@, i as int);
                }
                self.entries.remove(i);
                self.entries.insert(i, (k, v));
                proof {
                    assert(self@ =~= old(self)@.update(i as int, (k@, v@)));
                }
                return ;
            }
            i = i + 1;
        }
        proof {
            lemma_map_insert_append(self@, k@, v@);
        }
        self.entries.push((k, v));
        proof {
            assert(self@ =~= old(self)@.push((k@, v@)));
        }
    }

    /// A copy whose entries are the same.
    pub fn duplicate(&self) -> (m: Self)
        ensures
            m@ == self@,
    {
        let mut out: Vec<(String, String)> = Vec::new();
        let n = self.entries.len();
        let mut i: usize = 0;
        while i < n
            invariant
                n == self@.len(),
                0 <= i <= n,
                pairs_view(out@) == self@.subrange(0, i as int),
            decreases n - i,
        {
            let ghost prev = out@;
            out.push((self.entries[i].0.clone(), self.entries[i].1.clone()));
            proof {
                assert(prev.len() == i) by {
                    assert(pairs_view(prev).len() == prev.len());
                }
                assert(out@.len() == i + 1);
                assert forall|j: int| 0 <= j < i + 1 implies pairs_view(out@)[j]
                    == self@.subrange(0, i + 1)[j] by {
                    assert(pairs_view(out@)[j] == (out@[j].0@, out@[j].1@));
                    assert(self@[j] == (self.entries@[j].0@, self.entries@[j].1@));
                    if j < i {
                        assert(out@[j] == prev[j]);
                        assert(pairs_view(prev)[j] == (prev[j].0@, prev[j].1@));
                        assert(pairs_view(prev)[j] == self@.subrange(0, i as int)[j]);
                    }
                }
                assert(pairs_view(out@) =~= self@.subrange(0, i + 1));
            }
            i = i + 1;
        }
        let m = StrMap { entries: out };
        proof {
            assert(self@.subrange(0, n as int) =~= self@);
        }
        m
    }

    /// The entries as a vector of string pairs, for iteration and sorting.
    pub fn to_pairs(&self) -> (v: Vec<(String, String)>)
        ensures
            pairs_view(v@) == self@,
    {
        let m = self.duplicate();
        proof {
            assert(pairs_view(m.entries@) == self@);
        }
        m.entries
    }
}

} // verus!
