//! Ordering the scan's output: a stable insertion sort by relative path,
//! with its specification and the laws it obeys.

use vstd::multiset::Multiset;
use vstd::prelude::*;
use vstd::seq_lib::group_seq_properties;

use crate::entries::FileEntry;
use crate::entries::FileEntryModel;
use crate::paths::lemma_lex_le_total;
use crate::paths::lemma_lex_le_trans;
use crate::paths::lex_le;
use crate::paths::str_lex_le;

verus! {

/// The output order: entries are compared by their relative path alone.
pub open spec fn entry_le(a: FileEntryModel, b: FileEntryModel) -> bool {
    lex_le(a.relative_path, b.relative_path)
}

/// `x` placed into `s` after every entry that compares no later than it:
/// the insertion step of a stable insertion sort.
pub open spec fn insert_ordered(s: Seq<FileEntryModel>, x: FileEntryModel) -> Seq<FileEntryModel>
    decreases s.len(),
{
    if s.len() == 0 {
        seq![x]
    } else if entry_le(s.last(), x) {
        s.push(x)
    } else {
        insert_ordered(s.drop_last(), x).push(s.last())
    }
}

/// `s` sorted by relative path, stably: entries with equal relative paths
/// keep their order.
pub open spec fn sorted_entries(s: Seq<FileEntryModel>) -> Seq<FileEntryModel>
    decreases s.len(),
{
    if s.len() == 0 {
        s
    } else {
        insert_ordered(sorted_entries(s.drop_last()), s.last())
    }
}

/// A sequence stands in the output order when each entry's relative path
/// comes no later than every later entry's.
pub open spec fn is_sorted_by_rel(s: Seq<FileEntryModel>) -> bool {
    forall|i: int, j: int| 0 <= i < j < s.len() ==> entry_le(#[trigger] s[i], #[trigger] s[j])
}

/// Inserting keeps an upper bound: when every entry of `s` and `x` itself
/// come no later than `y`, the same holds of the insertion's result.
proof fn lemma_insert_ordered_bound(s: Seq<FileEntryModel>, x: FileEntryModel, y: FileEntryModel)
    requires
        forall|i: int| 0 <= i < s.len() ==> entry_le(#[trigger] s[i], y),
        entry_le(x, y),
    ensures
        forall|i: int|
            0 <= i < insert_ordered(s, x).len() ==> entry_le(#[trigger] insert_ordered(s, x)[i], y),
    decreases s.len(),
{
    let r = insert_ordered(s, x);
    if s.len() == 0 {
        assert(r[0] == x);
    } else if entry_le(s.last(), x) {
        assert forall|i: int| 0 <= i < r.len() implies entry_le(r[i], y) by {
            if i < s.len() {
                assert(r[i] == s[i]);
            } else {
                assert(r[i] == x);
            }
        }
    } else {
        lemma_insert_ordered_bound(s.drop_last(), x, y);
        let t = insert_ordered(s.drop_last(), x);
        assert(forall|i: int| 0 <= i < s.drop_last().len() ==> #[trigger] s.drop_last()[i] == s[i]);
        assert forall|i: int| 0 <= i < r.len() implies entry_le(r[i], y) by {
            if i < t.len() {
                assert(r[i] == t[i]);
            } else {
                assert(r[i] == s.last());
                assert(entry_le(s[s.len() - 1], y));
            }
        }
    }
}

/// Inserting into a sorted sequence yields a sorted sequence.
proof fn lemma_insert_ordered_sorted(s: Seq<FileEntryModel>, x: FileEntryModel)
    requires
        is_sorted_by_rel(s),
    ensures
        is_sorted_by_rel(insert_ordered(s, x)),
    decreases s.len(),
{
    if s.len() == 0 {
    } else if entry_le(s.last(), x) {
        let r = s.push(x);
        assert forall|i: int, j: int| 0 <= i < j < r.len() implies entry_le(r[i], r[j]) by {
            if j == r.len() - 1 {
                if i < s.len() - 1 {
                    lemma_lex_le_trans(
                        s[i].relative_path,
                        s.last().relative_path,
                        x.relative_path,
                    );
                }
            }
        }
    } else {
        lemma_lex_le_total(s.last().relative_path, x.relative_path);
        let t = insert_ordered(s.drop_last(), x);
        assert(forall|i: int| 0 <= i < s.drop_last().len() ==> entry_le(
            #[trigger] s.drop_last()[i],
            s.last(),
        ));
        lemma_insert_ordered_sorted(s.drop_last(), x);
        lemma_insert_ordered_bound(s.drop_last(), x, s.last());
        let r = t.push(s.last());
        assert forall|i: int, j: int| 0 <= i < j < r.len() implies entry_le(r[i], r[j]) by {
            if j == r.len() - 1 {
                assert(entry_le(t[i], s.last()));
            }
        }
    }
}

/// Insertion adds exactly the inserted entry to the sequence's contents.
proof fn lemma_insert_ordered_multiset(s: Seq<FileEntryModel>, x: FileEntryModel)
    ensures
        insert_ordered(s, x).to_multiset() == s.to_multiset().insert(x),
    decreases s.len(),
{
    broadcast use group_seq_properties;

    if s.len() == 0 {
        assert(seq![x].to_multiset() =~= Seq::<FileEntryModel>::empty().push(x).to_multiset());
        assert(Seq::<FileEntryModel>::empty().to_multiset() =~= Multiset::<FileEntryModel>::empty());
    } else if entry_le(s.last(), x) {
    } else {
        lemma_insert_ordered_multiset(s.drop_last(), x);
        assert(s.drop_last().push(s.last()) =~= s);
        assert(insert_ordered(s.drop_last(), x).push(s.last()).to_multiset() =~= s.to_multiset()
            .insert(x)) by {
            assert(s.drop_last().push(s.last()).to_multiset() == s.to_multiset());
            assert(s.drop_last().to_multiset().insert(x).insert(s.last()) =~= s.drop_last()
                .to_multiset().insert(s.last()).insert(x));
        }
    }
}

/// Sorting arranges the entries in the output order.
pub proof fn lemma_sorted_entries_sorted(s: Seq<FileEntryModel>)
    ensures
        is_sorted_by_rel(sorted_entries(s)),
    decreases s.len(),
{
    if s.len() > 0 {
        lemma_sorted_entries_sorted(s.drop_last());
        lemma_insert_ordered_sorted(sorted_entries(s.drop_last()), s.last());
    }
}

/// Sorting neither adds nor drops entries: the contents are unchanged.
pub proof fn lemma_sorted_entries_multiset(s: Seq<FileEntryModel>)
    ensures
        sorted_entries(s).to_multiset() == s.to_multiset(),
    decreases s.len(),
{
    broadcast use group_seq_properties;

    if s.len() > 0 {
        lemma_sorted_entries_multiset(s.drop_last());
        lemma_insert_ordered_multiset(sorted_entries(s.drop_last()), s.last());
        assert(s.drop_last().push(s.last()) =~= s);
        assert(s.drop_last().to_multiset().insert(s.last()) == s.to_multiset()) by {
            assert(s.drop_last().push(s.last()).to_multiset() == s.to_multiset());
        }
    }
}

/// Places `x` into the ordered vector `v`, after every entry whose
/// relative path comes no later than its own.
fn insert_entry(mut v: Vec<FileEntry>, x: FileEntry) -> (r: Vec<FileEntry>)
    ensures
        r.deep_view() == insert_ordered(v.deep_view(), x@),
    decreases v@.len(),
{
    let ghost orig = v.deep_view();
    if v.len() == 0 {
        v.push(x);
        proof {
            assert(v.deep_view() =~= seq![x@]);
            assert(insert_ordered(orig, x@) == seq![x@]);
        }
        v
    } else if str_lex_le(&v[v.len() - 1].relative_path, &x.relative_path) {
        proof {
            assert(v.deep_view().last() == v@[v@.len() - 1]@);
        }
        v.push(x);
        proof {
            assert(v.deep_view() =~= orig.push(x@));
        }
        v
    } else {
        proof {
            assert(v.deep_view().last() == v@[v@.len() - 1]@);
        }
        let last = v.pop().unwrap();
        proof {
            assert(v.deep_view() =~= orig.drop_last());
            assert(last@ == orig.last());
        }
        let mut r = insert_entry(v, x);
        r.push(last);
        proof {
            assert(r.deep_view() =~= insert_ordered(orig.drop_last(), x@).push(orig.last()));
        }
        r
    }
}

/// Sorts the entries ascending by relative path, stably.
pub fn sort_by_relative_path(mut v: Vec<FileEntry>) -> (r: Vec<FileEntry>)
    ensures
        r.deep_view() == sorted_entries(v.deep_view()),
    decreases v@.len(),
{
    let ghost orig = v.deep_view();
    if v.len() == 0 {
        v
    } else {
        let x = v.pop().unwrap();
        proof {
            assert(v.deep_view() =~= orig.drop_last());
            assert(x@ == orig.last());
        }
        let s = sort_by_relative_path(v);
        insert_entry(s, x)
    }
}

} // verus!
