//! Reasoning about paths in string form: hidden-entry markers, the markdown
//! suffix, base names, prefix stripping, joining, and lexicographic order.
//!
//! Paths are modelled as the character sequences of their string form, with
//! `/` as the separator.

use vstd::prelude::*;
use vstd::string::StrSliceExecFns;
use vstd::string::StringExecFns;

verus! {

/// A name marks its entry as hidden when it starts with a dot.
pub open spec fn is_hidden_name(s: Seq<char>) -> bool {
    s.len() > 0 && s[0] == '.'
}

/// Returns whether `name` begins with the hidden-entry marker.
pub fn is_hidden(name: &str) -> (r: bool)
    ensures
        r == is_hidden_name(name@),
{
    if name.is_empty() {
        false
    } else {
        name.get_char(0) == '.'
    }
}

/// A name has the markdown extension when it ends in `.md` and the dot is
/// not its first character (a leading dot is the hidden marker, not an
/// extension separator).
pub open spec fn is_markdown_name(s: Seq<char>) -> bool {
    s.len() >= 4 && s[s.len() - 3] == '.' && s[s.len() - 2] == 'm' && s[s.len() - 1] == 'd'
}

/// Returns whether `name` carries the markdown extension.
pub fn has_markdown_extension(name: &str) -> (r: bool)
    ensures
        r == is_markdown_name(name@),
{
    let n = name.unicode_len();
    n >= 4 && name.get_char(n - 3) == '.' && name.get_char(n - 2) == 'm' && name.get_char(n - 1)
        == 'd'
}

/// The base name of a path: the part after the last separator, or the whole
/// path when it holds no separator. A path ending in a separator has an
/// empty base name.
pub open spec fn base_name_of(s: Seq<char>) -> Seq<char>
    decreases s.len(),
{
    if s.contains('/') {
        base_name_of(s.drop_first())
    } else {
        s
    }
}

/// Once every separator lies before position `i`, the base name is the
/// suffix from `i` on.
proof fn lemma_base_name_suffix(s: Seq<char>, i: int)
    requires
        0 <= i <= s.len(),
        forall|j: int| i <= j < s.len() ==> s[j] != '/',
        i > 0 ==> s[i - 1] == '/',
    ensures
        base_name_of(s) == s.subrange(i, s.len() as int),
    decreases s.len(),
{
    if i == 0 {
        if s.contains('/') {
            let k = choose|k: int| 0 <= k < s.len() && s[k] == '/';
            assert(false);
        }
        assert(s.subrange(0, s.len() as int) =~= s);
    } else {
        assert(s.contains('/')) by {
            assert(s[i - 1] == '/');
        }
        let t = s.drop_first();
        assert(forall|j: int| i - 1 <= j < t.len() ==> t[j] != '/');
        lemma_base_name_suffix(t, i - 1);
        assert(t.subrange(i - 1, t.len() as int) =~= s.subrange(i, s.len() as int));
    }
}

/// Returns the base name of `path`.
pub fn base_name(path: &str) -> (r: String)
    ensures
        r@ == base_name_of(path@),
{
    let n = path.unicode_len();
    let mut i: usize = n;
    while i > 0 && path.get_char(i - 1) != '/'
        invariant
            i <= n,
            n == path@.len(),
            forall|j: int| i <= j < n ==> path@[j] != '/',
        decreases i,
    {
        i = i - 1;
    }
    proof {
        lemma_base_name_suffix(path@, i as int);
    }
    path.substring_char(i, n).to_owned()
}

/// A relative path leads through or to a hidden entry when some component
/// of it (a segment at the start or right after a separator) starts with a
/// dot.
pub open spec fn has_hidden_component(s: Seq<char>) -> bool {
    exists|i: int| 0 <= i < s.len() && #[trigger] s[i] == '.' && (i == 0 || s[i - 1] == '/')
}

/// Returns whether some component of `rel` starts with the hidden-entry
/// marker.
pub fn contains_hidden_component(rel: &str) -> (r: bool)
    ensures
        r == has_hidden_component(rel@),
{
    let n = rel.unicode_len();
    let mut k: usize = 0;
    while k < n
        invariant
            k <= n,
            n == rel@.len(),
            forall|i: int| 0 <= i < k ==> !(#[trigger] rel@[i] == '.' && (i == 0 || rel@[i - 1]
                == '/')),
        decreases n - k,
    {
        if rel.get_char(k) == '.' && (k == 0 || rel.get_char(k - 1) == '/') {
            proof {
                assert(rel@[k as int] == '.' && (k as int == 0 || rel@[k as int - 1] == '/'));
            }
            return true;
        }
        k = k + 1;
    }
    false
}

/// Lexicographic order on character sequences, by code point: the empty
/// sequence comes first, and otherwise the first differing position
/// decides.
pub open spec fn lex_le(a: Seq<char>, b: Seq<char>) -> bool
    decreases a.len(),
{
    if a.len() == 0 {
        true
    } else if b.len() == 0 {
        false
    } else if (a[0] as u32) == (b[0] as u32) {
        lex_le(a.drop_first(), b.drop_first())
    } else {
        (a[0] as u32) < (b[0] as u32)
    }
}

/// The lexicographic order relates every pair of sequences one way or the
/// other.
pub proof fn lemma_lex_le_total(a: Seq<char>, b: Seq<char>)
    ensures
        lex_le(a, b) || lex_le(b, a),
    decreases a.len(),
{
    if a.len() == 0 || b.len() == 0 {
    } else if (a[0] as u32) == (b[0] as u32) {
        lemma_lex_le_total(a.drop_first(), b.drop_first());
    }
}

/// The lexicographic order is transitive.
pub proof fn lemma_lex_le_trans(a: Seq<char>, b: Seq<char>, c: Seq<char>)
    requires
        lex_le(a, b),
        lex_le(b, c),
    ensures
        lex_le(a, c),
    decreases a.len(),
{
    if a.len() == 0 || b.len() == 0 || c.len() == 0 {
    } else if (a[0] as u32) == (b[0] as u32) && (b[0] as u32) == (c[0] as u32) {
        lemma_lex_le_trans(a.drop_first(), b.drop_first(), c.drop_first());
    }
}

/// Returns whether `a` comes no later than `b` in lexicographic order.
pub fn str_lex_le(a: &str, b: &str) -> (r: bool)
    ensures
        r == lex_le(a@, b@),
{
    let an = a.unicode_len();
    let bn = b.unicode_len();
    let mut k: usize = 0;
    proof {
        assert(a@.skip(0) =~= a@);
        assert(b@.skip(0) =~= b@);
    }
    while k < an && k < bn
        invariant
            k <= an,
            k <= bn,
            an == a@.len(),
            bn == b@.len(),
            lex_le(a@, b@) == lex_le(a@.skip(k as int), b@.skip(k as int)),
        decreases an - k,
    {
        let ca = a.get_char(k) as u32;
        let cb = b.get_char(k) as u32;
        if ca != cb {
            proof {
                assert(a@.skip(k as int)[0] == a@[k as int]);
                assert(b@.skip(k as int)[0] == b@[k as int]);
            }
            return ca < cb;
        }
        proof {
            assert(a@.skip(k as int).drop_first() =~= a@.skip(k as int + 1));
            assert(b@.skip(k as int).drop_first() =~= b@.skip(k as int + 1));
        }
        k = k + 1;
    }
    proof {
        if k == an {
            assert(a@.skip(k as int).len() == 0);
        } else {
            assert(b@.skip(k as int).len() == 0);
            assert(a@.skip(k as int).len() > 0);
        }
    }
    an <= bn
}

/// Strips the root prefix from a path: the result is what remains after the
/// root and the separator at the junction, `Some` of the empty sequence
/// when the path is the root itself, and `None` when the root is no prefix
/// of the path.
pub open spec fn strip_root(path: Seq<char>, root: Seq<char>) -> Option<Seq<char>> {
    if path.len() >= root.len() && path.subrange(0, root.len() as int) == root {
        if root.len() > 0 && root[root.len() - 1] == '/' {
            Some(path.skip(root.len() as int))
        } else if path.len() == root.len() {
            Some(Seq::empty())
        } else if path[root.len() as int] == '/' {
            Some(path.skip(root.len() as int + 1))
        } else {
            None
        }
    } else {
        None
    }
}

/// Returns the part of `path` below `root`, or `None` when `root` is no
/// prefix of `path`.
pub fn strip_root_prefix(path: &str, root: &str) -> (r: Option<String>)
    ensures
        r.deep_view() == strip_root(path@, root@),
{
    let pn = path.unicode_len();
    let rn = root.unicode_len();
    if pn < rn {
        return None;
    }
    let mut j: usize = 0;
    while j < rn
        invariant
            j <= rn <= pn,
            pn == path@.len(),
            rn == root@.len(),
            forall|i: int| 0 <= i < j ==> path@[i] == root@[i],
        decreases rn - j,
    {
        if path.get_char(j) != root.get_char(j) {
            proof {
                assert(path@.subrange(0, rn as int)[j as int] != root@[j as int]);
            }
            return None;
        }
        j = j + 1;
    }
    proof {
        assert(path@.subrange(0, rn as int) =~= root@);
    }
    if rn > 0 && root.get_char(rn - 1) == '/' {
        proof {
            assert(path@.subrange(rn as int, pn as int) =~= path@.skip(rn as int));
        }
        Some(path.substring_char(rn, pn).to_owned())
    } else if pn == rn {
        proof {
            assert(Seq::<char>::empty() =~= strip_root(path@, root@)->0);
        }
        Some(String::new())
    } else if path.get_char(rn) == '/' {
        proof {
            assert(path@.subrange(rn as int + 1, pn as int) =~= path@.skip(rn as int + 1));
        }
        Some(path.substring_char(rn + 1, pn).to_owned())
    } else {
        None
    }
}

/// Joins a base directory and a relative path with the separator, the way
/// the platform joins paths: an absolute second path replaces the base, and
/// no separator is doubled at the junction.
pub open spec fn joined_path(base: Seq<char>, rel: Seq<char>) -> Seq<char> {
    if rel.len() > 0 && rel[0] == '/' {
        rel
    } else if base.len() > 0 && base[base.len() - 1] == '/' {
        base + rel
    } else {
        base + seq!['/'] + rel
    }
}

/// Round trip: joining a base with a relative path and stripping the base
/// again gives the relative path back. Stripping can therefore fail only
/// for paths that did not come from joining — the fallback to the bare
/// name is defensive.
pub proof fn lemma_join_then_strip(base: Seq<char>, rel: Seq<char>)
    requires
        !(rel.len() > 0 && rel[0] == '/'),
    ensures
        strip_root(joined_path(base, rel), base) == Some(rel),
{
    let joined = joined_path(base, rel);
    if base.len() > 0 && base[base.len() - 1] == '/' {
        assert(joined.subrange(0, base.len() as int) =~= base);
        assert(joined.skip(base.len() as int) =~= rel);
    } else {
        assert(joined =~= base + seq!['/'] + rel);
        assert(joined.subrange(0, base.len() as int) =~= base);
        assert(joined[base.len() as int] == '/');
        assert(joined.skip(base.len() as int + 1) =~= rel);
    }
}

/// Returns `base` and `rel` joined into one path.
pub fn join_path(base: &str, rel: &str) -> (r: String)
    ensures
        r@ == joined_path(base@, rel@),
{
    proof {
        reveal_strlit("/");
    }
    if !rel.is_empty() && rel.get_char(0) == '/' {
        return rel.to_owned();
    }
    let mut s = base.to_owned();
    if base.is_empty() || base.get_char(base.unicode_len() - 1) != '/' {
        s.append("/");
        proof {
            assert(base@ + "/"@ =~= base@ + seq!['/']);
        }
    }
    s.append(rel);
    s
}

} // verus!
