//! The composite object kind: a tree wraps a collection of entries, and
//! its canonical encoding is the sorted, concatenated listing of
//! `(mode, path, identifier)` records.
//!
//! Entries are sorted by path, byte-wise ascending, before encoding, so
//! the encoding is a function of the set of entries alone: two trees with
//! the same children hash identically whatever order the children were
//! added in. Duplicate paths are a documented caller error, not detected
//! here; the sort is stable, so even then the encoding is determined.
use vstd::prelude::*;

use vstd::relations::{sorted_by, total_ordering};
use vstd::seq_lib::group_to_multiset_ensures;
use vstd::seq_lib::lemma_sorted_unique;

use crate::codec::{
    lemma_lex_le_antisymmetric,
    lemma_lex_le_reflexive,
    lemma_lex_le_total,
    lemma_lex_le_transitive,
    lex_le,
    lex_le_bytes,
    push_all,
};
use crate::database::{ObjectKind, Store};
use crate::entry::{Entry, EntryView};

verus! {

/// The views of a collection of entries.
pub open spec fn views_of(s: Seq<Entry>) -> Seq<EntryView> {
    s.map_values(|e: Entry| e@)
}

/// Path order on entries: byte-wise lexicographic comparison of names.
pub open spec fn name_le(a: EntryView, b: EntryView) -> bool {
    lex_le(a.name, b.name)
}

/// Whether the entries stand in ascending path order.
pub open spec fn sorted_names(s: Seq<EntryView>) -> bool {
    forall|i: int, j: int| 0 <= i < j < s.len() ==> name_le(s[i], s[j])
}

/// Whether no two entries share a path.
pub open spec fn distinct_names(s: Seq<EntryView>) -> bool {
    forall|i: int, j: int| 0 <= i < s.len() && 0 <= j < s.len() && i != j ==> s[i].name != s[j].name
}

/// Inserts an entry into a run of entries, after any whose path comes no
/// later: the insertion step of a stable insertion sort.
pub open spec fn insert_sorted(e: EntryView, s: Seq<EntryView>) -> Seq<EntryView>
    decreases s.len(),
{
    if s.len() == 0 {
        seq![e]
    } else if name_le(s[0], e) {
        seq![s[0]] + insert_sorted(e, s.skip(1))
    } else {
        seq![e] + s
    }
}

/// The stable sort of entries by path: each entry in turn is inserted
/// after any earlier entry whose path comes no later.
pub open spec fn sort_entries(s: Seq<EntryView>) -> Seq<EntryView>
    decreases s.len(),
{
    if s.len() == 0 {
        s
    } else {
        insert_sorted(s.last(), sort_entries(s.drop_last()))
    }
}

/// The fixed-width file-mode field of a tree record: `"100644"` padded
/// with one space. Only regular non-executable files are represented.
pub open spec fn mode_field() -> Seq<u8> {
    seq![49u8, 48u8, 48u8, 54u8, 52u8, 52u8, 32u8]
}

/// One entry's record in a tree's canonical encoding: the mode field, the
/// path, a NUL byte, and the entry's object identifier.
pub open spec fn entry_record(e: EntryView) -> Seq<u8> {
    mode_field() + e.name + seq![0u8] + e.oid
}

/// The concatenated records of a run of entries, in order.
pub open spec fn encode_entries(s: Seq<EntryView>) -> Seq<u8>
    decreases s.len(),
{
    if s.len() == 0 {
        Seq::empty()
    } else {
        entry_record(s[0]) + encode_entries(s.skip(1))
    }
}

/// The canonical encoding of a tree with these entries: their records,
/// concatenated in ascending path order.
pub open spec fn tree_encoding(s: Seq<EntryView>) -> Seq<u8> {
    encode_entries(sort_entries(s))
}

/// An element is in the insertion's result exactly when it is the inserted
/// entry or was there before.
proof fn lemma_insert_sorted_contains(e: EntryView, s: Seq<EntryView>)
    ensures
        forall|x: EntryView|
            #[trigger] insert_sorted(e, s).contains(x) <==> (x == e || s.contains(x)),
{
    broadcast use group_to_multiset_ensures;
    broadcast use vstd::multiset::group_multiset_axioms;

    lemma_insert_sorted_multiset(e, s);
    assert forall|x: EntryView|
        #[trigger] insert_sorted(e, s).contains(x) <==> (x == e || s.contains(x)) by {
        assert(insert_sorted(e, s).contains(x) <==> insert_sorted(e, s).to_multiset().count(x)
            > 0);
        assert(s.contains(x) <==> s.to_multiset().count(x) > 0);
        assert(insert_sorted(e, s).to_multiset().count(x) == s.to_multiset().insert(e).count(x));
    }
}

/// Inserting into a path-ordered run keeps it path-ordered.
proof fn lemma_insert_sorted_sorted(e: EntryView, s: Seq<EntryView>)
    requires
        sorted_names(s),
    ensures
        sorted_names(insert_sorted(e, s)),
    decreases s.len(),
{
    lemma_lex_le_total(s[0].name, e.name);
    if s.len() == 0 {
    } else if name_le(s[0], e) {
        assert(sorted_names(s.skip(1)));
        lemma_insert_sorted_sorted(e, s.skip(1));
        let inner = insert_sorted(e, s.skip(1));
        let r = seq![s[0]] + inner;
        assert(insert_sorted(e, s) == r);
        assert forall|i: int, j: int| 0 <= i < j < r.len() implies name_le(r[i], r[j]) by {
            if i == 0 {
                assert(inner.contains(inner[j - 1]));
                lemma_insert_sorted_contains(e, s.skip(1));
                if inner[j - 1] == e {
                    assert(name_le(s[0], e));
                } else {
                    let m = choose|m: int| 0 <= m < s.skip(1).len() && s.skip(1)[m] == inner[j - 1];
                    assert(s[m + 1] == inner[j - 1]);
                    assert(name_le(s[0], s[m + 1]));
                }
            } else {
                assert(name_le(inner[i - 1], inner[j - 1]));
            }
        }
    } else {
        let r = seq![e] + s;
        assert(insert_sorted(e, s) == r);
        assert forall|i: int, j: int| 0 <= i < j < r.len() implies name_le(r[i], r[j]) by {
            if i == 0 {
                if j == 1 {
                    assert(r[1] == s[0]);
                } else {
                    assert(name_le(s[0], s[j - 1]));
                    lemma_lex_le_transitive(e.name, s[0].name, s[j - 1].name);
                }
            } else {
                assert(name_le(s[i - 1], s[j - 1]));
            }
        }
    }
}

/// Inserting adds exactly the inserted entry to the run's contents.
proof fn lemma_insert_sorted_multiset(e: EntryView, s: Seq<EntryView>)
    ensures
        insert_sorted(e, s).to_multiset() == s.to_multiset().insert(e),
    decreases s.len(),
{
    broadcast use group_to_multiset_ensures;
    broadcast use vstd::multiset::group_multiset_axioms;

    if s.len() == 0 {
        assert(seq![e] =~= Seq::<EntryView>::empty().push(e));
        assert(insert_sorted(e, s).to_multiset() =~= s.to_multiset().insert(e));
    } else if name_le(s[0], e) {
        lemma_insert_sorted_multiset(e, s.skip(1));
        let inner = insert_sorted(e, s.skip(1));
        assert(insert_sorted(e, s) == seq![s[0]] + inner);
        assert(seq![s[0]] + inner =~= inner.insert(0, s[0]));
        assert((seq![s[0]] + inner).to_multiset() =~= inner.to_multiset().insert(s[0])) by {
            inner.to_multiset_ensures();
            assert(inner.insert(0, s[0]) =~= inner.take(0).push(s[0]) + inner.skip(0));
            lemma_push_front_multiset(s[0], inner);
        }
        assert(s =~= s.skip(1).insert(0, s[0]));
        lemma_push_front_multiset(s[0], s.skip(1));
        assert(s.to_multiset() =~= s.skip(1).to_multiset().insert(s[0]));
        assert(inner.to_multiset().insert(s[0]) =~= s.skip(1).to_multiset().insert(e).insert(
            s[0],
        ));
        assert(s.skip(1).to_multiset().insert(e).insert(s[0]) =~= s.skip(1).to_multiset().insert(
            s[0],
        ).insert(e));
        assert(insert_sorted(e, s).to_multiset() =~= s.to_multiset().insert(e));
    } else {
        lemma_push_front_multiset(e, s);
        assert(insert_sorted(e, s).to_multiset() =~= s.to_multiset().insert(e));
    }
}

/// Prepending an element inserts it into the contents.
proof fn lemma_push_front_multiset(e: EntryView, s: Seq<EntryView>)
    ensures
        (seq![e] + s).to_multiset() == s.to_multiset().insert(e),
    decreases s.len(),
{
    broadcast use group_to_multiset_ensures;
    broadcast use vstd::multiset::group_multiset_axioms;

    vstd::seq_lib::lemma_multiset_commutative(seq![e], s);
    assert(seq![e].to_multiset() =~= Seq::<EntryView>::empty().push(e).to_multiset());
    assert(Seq::<EntryView>::empty().push(e).to_multiset() =~= vstd::multiset::Multiset::<
        EntryView,
    >::empty().insert(e));
    assert(seq![e].to_multiset().add(s.to_multiset()) =~= s.to_multiset().insert(e));
}

/// Sorting arranges exactly the given entries in ascending path order.
pub proof fn lemma_sort_entries_ensures(s: Seq<EntryView>)
    ensures
        sorted_names(sort_entries(s)),
        sort_entries(s).to_multiset() == s.to_multiset(),
    decreases s.len(),
{
    broadcast use group_to_multiset_ensures;
    broadcast use vstd::multiset::group_multiset_axioms;

    if s.len() == 0 {
    } else {
        lemma_sort_entries_ensures(s.drop_last());
        lemma_insert_sorted_sorted(s.last(), sort_entries(s.drop_last()));
        lemma_insert_sorted_multiset(s.last(), sort_entries(s.drop_last()));
        assert(s.drop_last().push(s.last()) =~= s);
        assert(s.drop_last().push(s.last()).to_multiset() =~= s.drop_last().to_multiset().insert(
            s.last(),
        ));
        assert(sort_entries(s).to_multiset() =~= s.to_multiset());
    }
}

/// Where the insertion lands: before the first entry whose path comes
/// strictly later, after every other.
proof fn lemma_insert_sorted_at(e: EntryView, s: Seq<EntryView>, j: int)
    requires
        0 <= j <= s.len(),
        forall|k: int| 0 <= k < j ==> name_le(#[trigger] s[k], e),
        j < s.len() ==> !name_le(s[j], e),
    ensures
        insert_sorted(e, s) == s.take(j) + seq![e] + s.skip(j),
    decreases s.len(),
{
    if s.len() == 0 {
        assert(insert_sorted(e, s) =~= s.take(j) + seq![e] + s.skip(j));
    } else if j == 0 {
        assert(!name_le(s[0], e));
        assert(s.take(0) =~= Seq::<EntryView>::empty());
        assert(s.skip(0) =~= s);
        assert(insert_sorted(e, s) =~= s.take(0) + seq![e] + s.skip(0));
    } else {
        assert(name_le(s[0], e));
        assert(forall|k: int| 0 <= k < j - 1 ==> name_le(#[trigger] s.skip(1)[k], e));
        assert(j - 1 < s.skip(1).len() ==> !name_le(s.skip(1)[j - 1], e));
        lemma_insert_sorted_at(e, s.skip(1), j - 1);
        assert(s.skip(1).take(j - 1) =~= s.take(j).skip(1));
        assert(s.skip(1).skip(j - 1) =~= s.skip(j));
        assert(insert_sorted(e, s) =~= s.take(j) + seq![e] + s.skip(j));
    }
}

/// Sorting a run that is already in ascending path order leaves it as it
/// is; hence sorting is idempotent.
pub proof fn lemma_sort_entries_of_sorted(s: Seq<EntryView>)
    requires
        sorted_names(s),
    ensures
        sort_entries(s) == s,
    decreases s.len(),
{
    if s.len() == 0 {
    } else {
        assert(sorted_names(s.drop_last()));
        lemma_sort_entries_of_sorted(s.drop_last());
        assert(forall|k: int|
            0 <= k < s.drop_last().len() ==> name_le(#[trigger] s.drop_last()[k], s.last()));
        lemma_insert_sorted_at(s.last(), s.drop_last(), s.len() - 1);
        assert(s.drop_last().take(s.len() - 1) =~= s.drop_last());
        assert(s.drop_last().skip(s.len() - 1) =~= Seq::<EntryView>::empty());
        assert(sort_entries(s) =~= s.drop_last() + seq![s.last()]);
        assert(s.drop_last() + seq![s.last()] =~= s);
    }
}

/// Total order on whole entries: by path, then by identifier. On entries
/// with distinct paths it agrees with the path order; it exists so that
/// uniqueness of the sorted arrangement can be stated as a total ordering.
pub open spec fn entry_le(a: EntryView, b: EntryView) -> bool {
    if a.name == b.name {
        lex_le(a.oid, b.oid)
    } else {
        lex_le(a.name, b.name)
    }
}

proof fn lemma_entry_le_total_ordering()
    ensures
        total_ordering(|a: EntryView, b: EntryView| entry_le(a, b)),
{
    let leq = |a: EntryView, b: EntryView| entry_le(a, b);
    assert forall|x: EntryView| #[trigger] leq(x, x) by {
        lemma_lex_le_reflexive(x.oid);
    }
    assert forall|x: EntryView, y: EntryView| #[trigger] leq(x, y) && #[trigger] leq(y, x) implies x
        == y by {
        if x.name == y.name {
            lemma_lex_le_antisymmetric(x.oid, y.oid);
        } else {
            lemma_lex_le_antisymmetric(x.name, y.name);
        }
    }
    assert forall|x: EntryView, y: EntryView, z: EntryView|
        #[trigger] leq(x, y) && #[trigger] leq(y, z) implies leq(x, z) by {
        if x.name == y.name && y.name == z.name {
            lemma_lex_le_transitive(x.oid, y.oid, z.oid);
        } else if x.name == y.name {
        } else if y.name == z.name {
        } else {
            lemma_lex_le_transitive(x.name, y.name, z.name);
            if x.name == z.name {
                lemma_lex_le_antisymmetric(x.name, y.name);
            }
        }
    }
    assert forall|x: EntryView, y: EntryView| #[trigger] leq(x, y) || #[trigger] leq(y, x) by {
        if x.name == y.name {
            lemma_lex_le_total(x.oid, y.oid);
        } else {
            lemma_lex_le_total(x.name, y.name);
        }
    }
}

/// Order independence of the canonical tree encoding: two collections
/// with the same entries — however ordered — and no duplicate paths have
/// the same encoding. This is the point of content addressing: trees with
/// the same children always hash identically.
pub proof fn lemma_tree_encoding_order_independent(a: Seq<EntryView>, b: Seq<EntryView>)
    requires
        a.to_multiset() == b.to_multiset(),
        distinct_names(a),
    ensures
        tree_encoding(a) == tree_encoding(b),
{
    broadcast use group_to_multiset_ensures;
    broadcast use vstd::multiset::group_multiset_axioms;

    let leq = |x: EntryView, y: EntryView| entry_le(x, y);
    lemma_entry_le_total_ordering();
    let sa = sort_entries(a);
    let sb = sort_entries(b);
    lemma_sort_entries_ensures(a);
    lemma_sort_entries_ensures(b);
    assert(a.no_duplicates()) by {
        assert forall|i: int, j: int|
            0 <= i < a.len() && 0 <= j < a.len() && i != j implies a[i] != a[j] by {
            assert(a[i].name != a[j].name);
        }
    }
    a.lemma_multiset_has_no_duplicates();
    lemma_sorted_run_distinct(a, sa);
    lemma_sorted_run_distinct(a, sb);
    assert(sorted_by(sa, leq)) by {
        assert forall|i: int, j: int| 0 <= i < j < sa.len() implies #[trigger] leq(
            sa[i],
            sa[j],
        ) by {
            assert(name_le(sa[i], sa[j]));
            assert(sa[i].name != sa[j].name);
        }
    }
    assert(sorted_by(sb, leq)) by {
        assert forall|i: int, j: int| 0 <= i < j < sb.len() implies #[trigger] leq(
            sb[i],
            sb[j],
        ) by {
            assert(name_le(sb[i], sb[j]));
            assert(sb[i].name != sb[j].name);
        }
    }
    lemma_sorted_unique(sa, sb, leq);
    assert(sa == sb);
}

/// A permutation of entries with distinct paths has distinct paths.
proof fn lemma_sorted_run_distinct(a: Seq<EntryView>, s: Seq<EntryView>)
    requires
        distinct_names(a),
        s.to_multiset() == a.to_multiset(),
    ensures
        distinct_names(s),
{
    broadcast use group_to_multiset_ensures;
    broadcast use vstd::multiset::group_multiset_axioms;

    assert forall|i: int, j: int|
        0 <= i < s.len() && 0 <= j < s.len() && i != j implies s[i].name != s[j].name by {
        assert(s.contains(s[i]));
        assert(s.contains(s[j]));
        assert(s.to_multiset().count(s[i]) > 0);
        assert(a.to_multiset().count(s[i]) > 0);
        assert(a.contains(s[i]));
        assert(s.to_multiset().count(s[j]) > 0);
        assert(a.to_multiset().count(s[j]) > 0);
        assert(a.contains(s[j]));
        let p = choose|p: int| 0 <= p < a.len() && a[p] == s[i];
        let q = choose|q: int| 0 <= q < a.len() && a[q] == s[j];
        if s[i] == s[j] {
            assert(s.remove(i).to_multiset() =~= s.to_multiset().remove(s[i]));
            assert(s.remove(i).contains(s[j])) by {
                if i < j {
                    assert(s.remove(i)[j - 1] == s[j]);
                } else {
                    assert(s.remove(i)[j] == s[j]);
                }
            }
            assert(s.remove(i).to_multiset().count(s[i]) > 0);
            assert(s.to_multiset().remove(s[i]).count(s[i]) == s.to_multiset().count(s[i]) - 1);
            assert(s.to_multiset().count(s[i]) >= 2);
            assert(a.no_duplicates()) by {
                assert forall|x: int, y: int|
                    0 <= x < a.len() && 0 <= y < a.len() && x != y implies a[x] != a[y] by {
                    assert(a[x].name != a[y].name);
                }
            }
            a.lemma_multiset_has_no_duplicates();
            assert(a.to_multiset().count(s[i]) == 1);
        } else {
            assert(p != q);
            assert(a[p].name != a[q].name);
        }
    }
}

/// Concatenating runs of entries concatenates their encodings.
pub proof fn lemma_encode_entries_append(s: Seq<EntryView>, t: Seq<EntryView>)
    ensures
        encode_entries(s + t) == encode_entries(s) + encode_entries(t),
    decreases s.len(),
{
    if s.len() == 0 {
        assert(s + t =~= t);
        assert(encode_entries(s) + encode_entries(t) =~= encode_entries(t));
    } else {
        assert((s + t).skip(1) =~= s.skip(1) + t);
        assert((s + t)[0] == s[0]);
        lemma_encode_entries_append(s.skip(1), t);
        assert(entry_record(s[0]) + (encode_entries(s.skip(1)) + encode_entries(t)) =~= (
        entry_record(s[0]) + encode_entries(s.skip(1))) + encode_entries(t));
    }
}

/// Sorts the entries in place by path, byte-wise ascending, with a stable
/// insertion sort.
pub fn sort_by_name(v: &mut Vec<Entry>)
    ensures
        views_of(final(v)@) == sort_entries(views_of(old(v)@)),
{
    if v.len() == 0 {
        assert(views_of(v@) =~= sort_entries(views_of(old(v)@)));
        return ;
    }
    let ghost orig = v@;
    let mut i: usize = 1;
    assert(views_of(v@.take(1)) =~= sort_entries(views_of(orig.take(1)))) by {
        let sv = views_of(orig.take(1));
        assert(sv.len() == 1);
        assert(sv.drop_last() =~= Seq::<EntryView>::empty());
        assert(sort_entries(sv) == insert_sorted(sv.last(), sort_entries(sv.drop_last())));
        assert(sort_entries(sv) =~= seq![sv[0]]);
        assert(views_of(v@.take(1)) =~= seq![sv[0]]);
    }
    while i < v.len()
        invariant
            1 <= i <= v@.len(),
            v@.len() == orig.len(),
            views_of(v@.take(i as int)) == sort_entries(views_of(orig.take(i as int))),
            v@.skip(i as int) == orig.skip(i as int),
        decreases v@.len() - i,
    {
        assert(v@[i as int] == orig[i as int]) by {
            assert(v@.skip(i as int)[0] == v@[i as int]);
            assert(orig.skip(i as int)[0] == orig[i as int]);
        }
        let mut j: usize = 0;
        loop
            invariant
                j <= i,
                i < v@.len(),
                forall|k: int| 0 <= k < j ==> name_le(#[trigger] v@[k]@, v@[i as int]@),
            ensures
                j <= i,
                forall|k: int| 0 <= k < j ==> name_le(#[trigger] v@[k]@, v@[i as int]@),
                j < i ==> !name_le(v@[j as int]@, v@[i as int]@),
            decreases i - j,
        {
            if j == i {
                break ;
            }
            let le = lex_le_bytes(&v[j].name, &v[i].name);
            if !le {
                break ;
            }
            j = j + 1;
        }
        let ghost pre = v@;
        let e = v.remove(i);
        v.insert(j, e);
        proof {
            let sv = views_of(pre.take(i as int));
            assert(sv.len() == i);
            assert(forall|k: int| 0 <= k < i ==> sv[k] == #[trigger] pre[k]@);
            assert(forall|k: int| 0 <= k < j ==> name_le(#[trigger] sv[k], e@));
            assert(j < i ==> !name_le(sv[j as int], e@));
            lemma_insert_sorted_at(e@, sv, j as int);
            assert(v@ =~= pre.take(i as int).insert(j as int, e) + pre.skip(i + 1));
            assert(v@.take(i + 1) =~= pre.take(i as int).insert(j as int, e));
            assert(v@.skip(i + 1) =~= pre.skip(i + 1));
            assert(views_of(v@.take(i + 1)) =~= sv.take(j as int) + seq![e@] + sv.skip(j as int));
            assert(views_of(v@.take(i + 1)) == insert_sorted(e@, sv));
            let osv = views_of(orig.take(i + 1));
            assert(osv.drop_last() =~= views_of(orig.take(i as int)));
            assert(osv.last() == orig[i as int]@);
            assert(e == pre[i as int]);
            assert(pre[i as int] == orig[i as int]) by {
                assert(pre.skip(i as int)[0] == pre[i as int]);
                assert(orig.skip(i as int)[0] == orig[i as int]);
            }
            assert(sort_entries(osv) == insert_sorted(osv.last(), sort_entries(osv.drop_last())));
            assert(views_of(v@.take(i + 1)) == sort_entries(views_of(orig.take(i + 1))));
            assert(v@.skip(i + 1) =~= orig.skip(i + 1)) by {
                assert(pre.skip(i + 1) =~= pre.skip(i as int).skip(1));
                assert(orig.skip(i + 1) =~= orig.skip(i as int).skip(1));
            }
        }
        i = i + 1;
    }
    assert(v@.take(i as int) =~= v@);
    assert(orig.take(i as int) =~= orig);
}

/// A storable object representing a directory snapshot: a collection of
/// entries, each naming an immediate child and the identifier of its
/// stored blob. The identifier is assigned by the caller after a
/// successful store; until then it is empty.
pub struct Tree {
    pub entries: Vec<Entry>,
    pub oid: Vec<u8>,
}

impl Tree {
    pub fn new(entries: Vec<Entry>) -> (t: Tree)
        ensures
            t.entries@ == entries@,
            t.oid@.len() == 0,
    {
        Tree { entries, oid: Vec::new() }
    }
}

/// The ways producing a tree's canonical encoding could fail. Under the
/// current entry model it cannot, so the variant is never built; the
/// channel exists for symmetry with the storable-object capability.
#[derive(Debug)]
pub enum TreeError {
    Unserializable,
}

impl Store<TreeError> for Tree {
    open spec fn obj_kind(&self) -> ObjectKind {
        ObjectKind::Tree
    }

    open spec fn encoding(&self) -> Seq<u8> {
        tree_encoding(views_of(self.entries@))
    }

    open spec fn can_serialize(&self) -> bool {
        true
    }

    fn otype(&self) -> (k: ObjectKind) {
        ObjectKind::Tree
    }

    fn serialize(&mut self) -> (r: Result<Vec<u8>, TreeError>) {
        sort_by_name(&mut self.entries);
        proof {
            lemma_sort_entries_ensures(views_of(old(self).entries@));
            lemma_sort_entries_of_sorted(views_of(self.entries@));
        }
        let ghost sv = views_of(self.entries@);
        let mut out: Vec<u8> = Vec::new();
        let mut i: usize = 0;
        while i < self.entries.len()
            invariant
                i <= self.entries@.len(),
                views_of(self.entries@) == sv,
                out@ == encode_entries(sv.take(i as int)),
            decreases self.entries@.len() - i,
        {
            let ghost out0 = out@;
            out.push(49);
            out.push(48);
            out.push(48);
            out.push(54);
            out.push(52);
            out.push(52);
            out.push(32);
            assert(out@ =~= out0 + mode_field());
            let ghost out1 = out@;
            push_all(&self.entries[i].name, &mut out);
            assert(out@ == out1 + self.entries@[i as int].name@);
            out.push(0);
            let ghost out2 = out@;
            push_all(&self.entries[i].oid, &mut out);
            assert(out@ == out2 + self.entries@[i as int].oid@);
            proof {
                assert(sv[i as int] == self.entries@[i as int]@);
                assert(sv[i as int].name == self.entries@[i as int].name@);
                assert(sv[i as int].oid == self.entries@[i as int].oid@);
                assert(out@ =~= encode_entries(sv.take(i as int)) + entry_record(sv[i as int]));
                assert(sv.take(i + 1) =~= sv.take(i as int) + seq![sv[i as int]]);
                lemma_encode_entries_append(sv.take(i as int), seq![sv[i as int]]);
                assert(encode_entries(seq![sv[i as int]]) =~= entry_record(sv[i as int])) by {
                    assert(seq![sv[i as int]].skip(1) =~= Seq::<EntryView>::empty());
                    assert(encode_entries(seq![sv[i as int]].skip(1)) == encode_entries(
                        Seq::<EntryView>::empty(),
                    ));
                    assert(encode_entries(Seq::<EntryView>::empty()) =~= Seq::<u8>::empty());
                    assert(entry_record(sv[i as int]) + Seq::<u8>::empty() =~= entry_record(
                        sv[i as int],
                    ));
                }
            }
            i = i + 1;
        }
        assert(sv.take(sv.len() as int) =~= sv);
        Ok(out)
    }
}

} // verus!
