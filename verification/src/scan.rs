//! The scan itself: what a walk of the vault returns, stated exactly over
//! whatever the walk reported, and the operation that resolves the root,
//! walks it, filters, and sorts.

use vstd::prelude::*;
use vstd::string::StringExecFns;

use crate::entries::descriptor;
use crate::entries::descriptor_of;
use crate::entries::included;
use crate::entries::is_markdown_file;
use crate::entries::FileEntry;
use crate::entries::FileEntryModel;
use crate::entries::RawEntry;
use crate::entries::RawEntryModel;
use crate::paths::base_name;
use crate::paths::base_name_of;
use crate::paths::contains_hidden_component;
use crate::paths::is_hidden;
use crate::paths::is_hidden_name;
use crate::paths::join_path;
use crate::paths::joined_path;
use crate::paths::has_hidden_component;
use crate::paths::is_markdown_name;
use crate::sorting::is_sorted_by_rel;
use crate::sorting::lemma_sorted_entries_multiset;
use crate::sorting::lemma_sorted_entries_sorted;
use crate::sorting::sort_by_relative_path;
use crate::sorting::sorted_entries;
use crate::walk::home_dir_path;
use crate::walk::path_exists;
use crate::walk::walker_new;
use crate::walk::walker_next;
use crate::walk::WalkStep;

verus! {

/// The matches a scan keeps, in walk order: the kept entries' descriptors.
pub open spec fn matches_of(root: Seq<char>, es: Seq<RawEntryModel>) -> Seq<FileEntryModel> {
    es.filter(|e: RawEntryModel| included(root, e)).map_values(
        |e: RawEntryModel| descriptor_of(root, e),
    )
}

/// Everything a scan returns, given the root and what the walk reported:
/// the kept entries' descriptors sorted by relative path — or nothing at
/// all when the root's own base name is hidden, since pruning applies to
/// the root before the walk starts.
pub open spec fn scan_model(root: Seq<char>, es: Seq<RawEntryModel>) -> Seq<FileEntryModel> {
    if is_hidden_name(base_name_of(root)) {
        Seq::empty()
    } else {
        sorted_entries(matches_of(root, es))
    }
}

/// Filters and orders what a walk of `root` reported: keeps the markdown
/// files whose relative path leads through no hidden entry, builds their
/// descriptors, and sorts them ascending by relative path.
pub fn scan_entries(root: &str, entries: &Vec<RawEntry>) -> (r: Vec<FileEntry>)
    ensures
        r.deep_view() == scan_model(root@, entries.deep_view()),
{
    let root_base = base_name(root);
    if is_hidden(root_base.as_str()) {
        let r: Vec<FileEntry> = Vec::new();
        proof {
            assert(r.deep_view() =~= Seq::<FileEntryModel>::empty());
        }
        return r;
    }
    let ghost es = entries.deep_view();
    let ghost pred = |e: RawEntryModel| included(root@, e);
    let ghost f = |e: RawEntryModel| descriptor_of(root@, e);
    let mut acc: Vec<FileEntry> = Vec::new();
    let n = entries.len();
    let mut i: usize = 0;
    proof {
        reveal_with_fuel(Seq::<_>::filter, 2);
        assert(es.take(0) =~= Seq::<RawEntryModel>::empty());
        assert(acc.deep_view() =~= matches_of(root@, es.take(0)));
    }
    while i < n
        invariant
            i <= n,
            n == entries@.len(),
            es == entries.deep_view(),
            pred == (|e: RawEntryModel| included(root@, e)),
            f == (|e: RawEntryModel| descriptor_of(root@, e)),
            acc.deep_view() == matches_of(root@, es.take(i as int)),
        decreases n - i,
    {
        let e = &entries[i];
        let ghost acc_before = acc.deep_view();
        let d = descriptor(root, e);
        let keep = is_markdown_file(e) && !contains_hidden_component(d.relative_path.as_str());
        if keep {
            acc.push(d);
        }
        proof {
            reveal_with_fuel(Seq::<_>::filter, 2);
            let one = seq![es[i as int]];
            assert(es[i as int] == entries@[i as int].deep_view());
            assert(keep == pred(es[i as int]));
            assert(es.take(i as int + 1) =~= es.take(i as int) + one);
            Seq::filter_distributes_over_add(es.take(i as int), one, pred);
            assert(one.drop_last() =~= Seq::<RawEntryModel>::empty());
            if keep {
                assert(one.filter(pred) =~= one);
                assert((es.take(i as int).filter(pred) + one).map_values(f) =~= es.take(
                    i as int,
                ).filter(pred).map_values(f).push(f(es[i as int])));
                assert(acc.deep_view() =~= acc_before.push(d@));
            } else {
                assert(one.filter(pred) =~= Seq::<RawEntryModel>::empty());
                assert(es.take(i as int + 1).filter(pred) =~= es.take(i as int).filter(pred));
            }
            assert(acc.deep_view() =~= matches_of(root@, es.take(i as int + 1)));
        }
        i = i + 1;
    }
    proof {
        assert(es.take(n as int) =~= es);
    }
    sort_by_relative_path(acc)
}

/// The message returned when the vault root does not exist.
pub open spec fn missing_root_message(root: Seq<char>) -> Seq<char> {
    "Vault path does not exist: "@ + root
}

/// The message returned when no home directory can be determined.
pub open spec fn no_home_message() -> Seq<char> {
    "Could not determine home directory"@
}

/// Scans the vault at `vault_relative_path` under the given home
/// directory. Fails exactly when the resolved root does not exist, with
/// the attempted path embedded in the message; otherwise returns, for some
/// sequence of entries the walk reported, the kept matches sorted by
/// relative path.
pub fn scan_vault_from(home: &str, vault_relative_path: &str) -> (r: Result<
    Vec<FileEntry>,
    String,
>)
    ensures
        (match r {
            Ok(v) => exists|es: Seq<RawEntryModel>|
                v.deep_view() == scan_model(joined_path(home@, vault_relative_path@), es),
            Err(m) => m@ == missing_root_message(joined_path(home@, vault_relative_path@)),
        }),
        r matches Ok(v) ==> is_sorted_by_rel(v.deep_view()) && forall|d: FileEntryModel|
            #[trigger] v.deep_view().contains(d) ==> is_markdown_name(base_name_of(d.path))
                && !has_hidden_component(d.relative_path),
{
    let root = join_path(home, vault_relative_path);
    if !path_exists(root.as_str()) {
        let mut message = "Vault path does not exist: ".to_owned();
        message.append(root.as_str());
        return Err(message);
    }
    let mut walker = walker_new(root.as_str());
    let mut raw: Vec<RawEntry> = Vec::new();
    let mut steps: usize = 0;
    while steps < usize::MAX
        invariant
            true,
        decreases usize::MAX - steps,
    {
        let step = walker_next(&mut walker);
        match step {
            WalkStep::Done => { break; },
            WalkStep::Skipped => {},
            WalkStep::Read(entry) => { raw.push(entry); },
        }
        steps = steps + 1;
    }
    let found = scan_entries(root.as_str(), &raw);
    proof {
        let ghost es = raw.deep_view();
        assert(found.deep_view() == scan_model(joined_path(home@, vault_relative_path@), es));
        lemma_scan_sorted(joined_path(home@, vault_relative_path@), es);
        lemma_scan_kept_entries(joined_path(home@, vault_relative_path@), es);
    }
    Ok(found)
}

/// Every element of a filtered sequence is an element of the sequence.
proof fn lemma_filter_elements(s: Seq<RawEntryModel>, pred: spec_fn(RawEntryModel) -> bool)
    ensures
        forall|j: int|
            0 <= j < s.filter(pred).len() ==> s.contains(#[trigger] s.filter(pred)[j]),
    decreases s.len(),
{
    reveal(Seq::filter);
    if s.len() != 0 {
        lemma_filter_elements(s.drop_last(), pred);
        let sub = s.drop_last();
        assert forall|j: int| 0 <= j < s.filter(pred).len() implies s.contains(
            s.filter(pred)[j],
        ) by {
            if j < sub.filter(pred).len() {
                assert(sub.contains(sub.filter(pred)[j]));
                let i = choose|i: int| 0 <= i < sub.len() && sub[i] == sub.filter(pred)[j];
                assert(s[i] == s.filter(pred)[j]);
            } else {
                assert(s.filter(pred)[j] == s.last());
            }
        }
    }
}

/// What a scan returns, exactly: unless the root itself is hidden, the
/// result holds the descriptor of every kept entry the walk reported, and
/// nothing else.
pub proof fn lemma_scan_membership(root: Seq<char>, es: Seq<RawEntryModel>)
    ensures
        forall|d: FileEntryModel|
            #[trigger] scan_model(root, es).contains(d) <==> (!is_hidden_name(base_name_of(root))
                && exists|i: int|
                0 <= i < es.len() && included(root, #[trigger] es[i]) && d == descriptor_of(
                    root,
                    es[i],
                )),
{
    broadcast use vstd::seq_lib::group_seq_properties;

    if is_hidden_name(base_name_of(root)) {
        assert(forall|d: FileEntryModel| !scan_model(root, es).contains(d));
    } else {
        let pred = |e: RawEntryModel| included(root, e);
        let f = |e: RawEntryModel| descriptor_of(root, e);
        let kept = es.filter(pred);
        let mapped = kept.map_values(f);
        lemma_sorted_entries_multiset(mapped);
        lemma_filter_elements(es, pred);
        assert forall|d: FileEntryModel| #[trigger] scan_model(root, es).contains(d) implies
            exists|i: int|
            0 <= i < es.len() && included(root, #[trigger] es[i]) && d == descriptor_of(
                root,
                es[i],
            ) by {
            assert(sorted_entries(mapped).to_multiset().contains(d));
            assert(mapped.contains(d));
            let j = choose|j: int| 0 <= j < mapped.len() && mapped[j] == d;
            assert(kept.contains(kept[j]));
            let i = choose|i: int| 0 <= i < es.len() && es[i] == kept[j];
            assert(pred(kept[j])) by {
                es.lemma_filter_pred(pred, j);
            }
            assert(included(root, es[i]) && d == descriptor_of(root, es[i]));
        }
        assert forall|d: FileEntryModel|
            exists|i: int|
                0 <= i < es.len() && included(root, #[trigger] es[i]) && d == descriptor_of(
                    root,
                    es[i],
                ) implies #[trigger] scan_model(root, es).contains(d) by {
            let i = choose|i: int|
                0 <= i < es.len() && included(root, es[i]) && d == descriptor_of(root, es[i]);
            es.lemma_filter_contains(pred, i);
            let j = choose|j: int| 0 <= j < kept.len() && kept[j] == es[i];
            assert(mapped[j] == d);
            assert(mapped.contains(d));
            assert(sorted_entries(mapped).to_multiset().contains(d));
        }
    }
}

/// Every returned descriptor stands for a markdown file, and its relative
/// path leads through no hidden entry — in particular, nothing beneath a
/// hidden directory and no hidden file is returned.
pub proof fn lemma_scan_kept_entries(root: Seq<char>, es: Seq<RawEntryModel>)
    ensures
        forall|d: FileEntryModel|
            #[trigger] scan_model(root, es).contains(d) ==> is_markdown_name(base_name_of(d.path))
                && !has_hidden_component(d.relative_path),
{
    lemma_scan_membership(root, es);
}

/// A scan's result is always sorted ascending by relative path.
pub proof fn lemma_scan_sorted(root: Seq<char>, es: Seq<RawEntryModel>)
    ensures
        is_sorted_by_rel(scan_model(root, es)),
{
    if !is_hidden_name(base_name_of(root)) {
        lemma_sorted_entries_sorted(matches_of(root, es));
    }
}

/// Scanning is deterministic: two walks that report the same entries under
/// the same root yield the same result, set and order alike.
pub proof fn lemma_scan_deterministic(
    root: Seq<char>,
    first: Seq<RawEntryModel>,
    second: Seq<RawEntryModel>,
)
    requires
        first == second,
    ensures
        scan_model(root, first) == scan_model(root, second),
{
}

/// A walk that reports no kept entry yields the empty result, not an
/// error.
pub proof fn lemma_scan_empty_when_no_match(root: Seq<char>, es: Seq<RawEntryModel>)
    requires
        forall|i: int| 0 <= i < es.len() ==> !included(root, #[trigger] es[i]),
    ensures
        scan_model(root, es) == Seq::<FileEntryModel>::empty(),
{
    let pred = |e: RawEntryModel| included(root, e);
    assert(es.filter(pred).len() == 0) by {
        if es.filter(pred).len() > 0 {
            lemma_filter_elements(es, pred);
            assert(es.contains(es.filter(pred)[0]));
            let i = choose|i: int| 0 <= i < es.len() && es[i] == es.filter(pred)[0];
            es.lemma_filter_pred(pred, 0);
        }
    }
    assert(matches_of(root, es) =~= Seq::<FileEntryModel>::empty());
    if !is_hidden_name(base_name_of(root)) {
        assert(scan_model(root, es) == sorted_entries(Seq::<FileEntryModel>::empty()));
    }
}

/// Scans the vault at `vault_relative_path` under the current user's home
/// directory: the operation the host shell invokes. Fails when no home
/// directory can be determined or when the resolved root does not exist —
/// in the latter case the message carries the attempted path — and
/// otherwise returns the matches, sorted ascending by relative path.
pub fn scan_vault(vault_relative_path: String) -> (r: Result<Vec<FileEntry>, String>)
    ensures
        (match r {
            Ok(v) => exists|root: Seq<char>, es: Seq<RawEntryModel>|
                v.deep_view() == scan_model(root, es),
            Err(m) => m@ == no_home_message() || exists|root: Seq<char>|
                m@ == missing_root_message(root),
        }),
        r matches Ok(v) ==> is_sorted_by_rel(v.deep_view()) && forall|d: FileEntryModel|
            #[trigger] v.deep_view().contains(d) ==> is_markdown_name(base_name_of(d.path))
                && !has_hidden_component(d.relative_path),
{
    match home_dir_path() {
        None => Err("Could not determine home directory".to_owned()),
        Some(home) => scan_vault_from(home.as_str(), vault_relative_path.as_str()),
    }
}

} // verus!
