//! The path completion engine: expanding `~/` and `$VAR` prefixes,
//! splitting a partial path into the directory to scan and the name
//! prefix to match, filtering and ordering candidate directories, the
//! longest common prefix, and the cycling protocol over candidates.
//!
//! Listing a directory is the caller's job; every function here works on
//! plain strings and entry lists handed in.

use vstd::prelude::*;
use vstd::multiset::Multiset;
use vstd::string::StrSliceExecFns;
use vstd::string::StringExecFns;
use crate::strutil;

verus! {

/// Namespace for the completion operations.
pub struct PathCompleter;

/// Whether `s` ends with the path separator.
pub open spec fn ends_with_sep(s: Seq<char>) -> bool {
    s.len() > 0 && s[s.len() - 1] == '/'
}

/// The position of the last separator, if any.
pub open spec fn last_sep(s: Seq<char>) -> Option<int>
    decreases s.len(),
{
    if s.len() == 0 {
        None
    } else if s[s.len() - 1] == '/' {
        Some(s.len() - 1)
    } else {
        last_sep(s.drop_last())
    }
}

/// The directory to scan for a partial path: the whole input when it
/// ends in a separator; otherwise what precedes the last separator (the
/// root when that separator comes first), or `"."` when there is none.
pub open spec fn split_parent(s: Seq<char>) -> Seq<char> {
    if ends_with_sep(s) {
        s
    } else {
        match last_sep(s) {
            Some(i) => if i == 0 {
                seq!['/']
            } else {
                s.subrange(0, i)
            },
            None => "."@,
        }
    }
}

/// The name prefix to match inside the scanned directory: empty when the
/// input ends in a separator, else what follows the last separator.
pub open spec fn split_prefix(s: Seq<char>) -> Seq<char> {
    if ends_with_sep(s) {
        Seq::<char>::empty()
    } else {
        match last_sep(s) {
            Some(i) => s.subrange(i + 1, s.len() as int),
            None => s,
        }
    }
}

/// A separator at `i` with none after it is the last one.
proof fn lemma_last_sep_some(s: Seq<char>, i: int)
    requires
        0 <= i < s.len(),
        s[i] == '/',
        forall|k: int| i < k < s.len() ==> s[k] != '/',
    ensures
        last_sep(s) == Some(i),
    decreases s.len(),
{
    if i == s.len() - 1 {
    } else {
        lemma_last_sep_some(s.drop_last(), i);
    }
}

/// No separator anywhere means no last one.
proof fn lemma_last_sep_none(s: Seq<char>)
    requires
        forall|k: int| 0 <= k < s.len() ==> s[k] != '/',
    ensures
        last_sep(s) is None,
    decreases s.len(),
{
    if s.len() > 0 {
        lemma_last_sep_none(s.drop_last());
    }
}

/// One candidate path built from the scanned directory and an entry name.
pub open spec fn join_spec(parent: Seq<char>, name: Seq<char>) -> Seq<char> {
    if parent == "."@ {
        name
    } else if ends_with_sep(parent) {
        parent + name
    } else {
        parent + seq!['/'] + name
    }
}

/// Whether a directory entry is offered for this name prefix: it must
/// start with the prefix, and dot-prefixed names are hidden unless the
/// prefix itself starts with a dot.
pub open spec fn entry_matches(name: Seq<char>, prefix: Seq<char>) -> bool {
    &&& prefix.is_prefix_of(name)
    &&& (name.len() > 0 && name[0] == '.' ==> prefix.len() > 0 && prefix[0] == '.')
}

impl PathCompleter {
    /// Splits an expanded path into the directory to scan and the name
    /// prefix to match inside it.
    pub fn split_search_input(expanded: &str) -> (r: (String, String))
        ensures
            r.0@ == split_parent(expanded@),
            r.1@ == split_prefix(expanded@),
    {
        let n = expanded.unicode_len();
        if n > 0 && expanded.get_char(n - 1) == '/' {
            return (expanded.to_owned(), String::new());
        }
        match strutil::rfind_char(expanded, '/') {
            Some(i) => {
                proof {
                    lemma_last_sep_some(expanded@, i as int);
                }
                let prefix = strutil::substr_copy(expanded, i + 1, n);
                if i == 0 {
                    let root: String = "/".to_owned();
                    proof {
                        reveal_strlit("/");
                        assert(root@ =~= seq!['/']);
                    }
                    (root, prefix)
                } else {
                    let parent = strutil::substr_copy(expanded, 0, i);
                    (parent, prefix)
                }
            },
            None => {
                proof {
                    lemma_last_sep_none(expanded@);
                }
                let dot: String = ".".to_owned();
                (dot, expanded.to_owned())
            },
        }
    }

    /// Joins the scanned directory and an entry name into one candidate.
    pub fn join_path(parent: &str, name: &str) -> (r: String)
        ensures
            r@ == join_spec(parent@, name@),
    {
        if strutil::str_eq(parent, ".") {
            proof {
                assert(parent@ == "."@);
            }
            return name.to_owned();
        }
        let n = parent.unicode_len();
        let mut out: String = parent.to_owned();
        if n > 0 && parent.get_char(n - 1) == '/' {
            out.append(name);
            proof {
                assert(out@ =~= parent@ + name@);
            }
        } else {
            strutil::push_char(&mut out, '/');
            out.append(name);
            proof {
                assert(out@ =~= parent@ + seq!['/'] + name@);
            }
        }
        out
    }
}

/// Lexicographic order on character sequences, by code point. This is the
/// order in which candidates are offered.
pub open spec fn lex_le(a: Seq<char>, b: Seq<char>) -> bool
    decreases a.len(),
{
    if a.len() == 0 {
        true
    } else if b.len() == 0 {
        false
    } else if a[0] == b[0] {
        lex_le(a.drop_first(), b.drop_first())
    } else {
        (a[0] as int) < (b[0] as int)
    }
}

/// `lex_le` is reflexive.
pub proof fn lemma_lex_le_refl(a: Seq<char>)
    ensures
        lex_le(a, a),
    decreases a.len(),
{
    if a.len() > 0 {
        lemma_lex_le_refl(a.drop_first());
    }
}

/// `lex_le` is total.
pub proof fn lemma_lex_le_total(a: Seq<char>, b: Seq<char>)
    ensures
        lex_le(a, b) || lex_le(b, a),
    decreases a.len(),
{
    if a.len() > 0 && b.len() > 0 && a[0] == b[0] {
        lemma_lex_le_total(a.drop_first(), b.drop_first());
    }
}

/// `lex_le` is transitive.
pub proof fn lemma_lex_le_trans(a: Seq<char>, b: Seq<char>, c: Seq<char>)
    requires
        lex_le(a, b),
        lex_le(b, c),
    ensures
        lex_le(a, c),
    decreases a.len(),
{
    if a.len() > 0 && b.len() > 0 && c.len() > 0 {
        if a[0] == b[0] && b[0] == c[0] {
            lemma_lex_le_trans(a.drop_first(), b.drop_first(), c.drop_first());
        }
    }
}

/// Comparing two sequences that agree on their first `i` characters is
/// comparing what follows.
proof fn lemma_lex_le_from(a: Seq<char>, b: Seq<char>, i: int)
    requires
        0 <= i <= a.len(),
        i <= b.len(),
        forall|k: int| 0 <= k < i ==> a[k] == b[k],
    ensures
        lex_le(a, b) == lex_le(
            a.subrange(i, a.len() as int),
            b.subrange(i, b.len() as int),
        ),
    decreases i,
{
    if i == 0 {
        assert(a.subrange(0, a.len() as int) =~= a);
        assert(b.subrange(0, b.len() as int) =~= b);
    } else {
        lemma_lex_le_from(a.drop_first(), b.drop_first(), i - 1);
        assert(a.drop_first().subrange(i - 1, a.drop_first().len() as int) =~= a.subrange(
            i,
            a.len() as int,
        ));
        assert(b.drop_first().subrange(i - 1, b.drop_first().len() as int) =~= b.subrange(
            i,
            b.len() as int,
        ));
    }
}

/// Exec lexicographic comparison of two strings.
pub fn str_lex_le(a: &str, b: &str) -> (r: bool)
    ensures
        r == lex_le(a@, b@),
{
    let na = a.unicode_len();
    let nb = b.unicode_len();
    let mut i: usize = 0;
    while i < na && i < nb
        invariant
            na == a@.len(),
            nb == b@.len(),
            i <= na,
            i <= nb,
            forall|k: int| 0 <= k < i ==> a@[k] == b@[k],
        decreases na - i,
    {
        let ca = a.get_char(i);
        let cb = b.get_char(i);
        if ca != cb {
            proof {
                lemma_lex_le_from(a@, b@, i as int);
            }
            return (ca as u32) < (cb as u32);
        }
        i = i + 1;
    }
    proof {
        lemma_lex_le_from(a@, b@, i as int);
    }
    na <= nb
}

/// Whether the sequence of candidates is in non-decreasing
/// lexicographic order.
pub open spec fn sorted_lex(s: Seq<Seq<char>>) -> bool {
    forall|i: int, j: int| 0 <= i < j < s.len() ==> lex_le(s[i], s[j])
}

/// Sorts candidate strings lexicographically; the contents are kept
/// exactly (as a multiset).
pub fn sort_candidates(v: &mut Vec<String>)
    ensures
        sorted_lex(final(v).deep_view()),
        final(v).deep_view().to_multiset() == old(v).deep_view().to_multiset(),
{
    broadcast use vstd::seq_lib::group_to_multiset_ensures;

    let mut rest: Vec<String> = Vec::new();
    core::mem::swap(v, &mut rest);
    let ghost orig = rest.deep_view();
    proof {
        assert(v.deep_view() =~= Seq::<Seq<char>>::empty());
        assert(v.deep_view().to_multiset().add(rest.deep_view().to_multiset())
            =~= orig.to_multiset());
    }
    while rest.len() > 0
        invariant
            orig == old(v).deep_view(),
            v.deep_view().to_multiset().add(rest.deep_view().to_multiset()) == orig.to_multiset(),
            sorted_lex(v.deep_view()),
            forall|a: int, b: int|
                0 <= a < v.deep_view().len() && 0 <= b < rest.deep_view().len() ==> lex_le(
                    v.deep_view()[a],
                    rest.deep_view()[b],
                ),
        decreases rest.len(),
    {
        let mut best: usize = 0;
        let mut j: usize = 1;
        proof {
            lemma_lex_le_refl(rest.deep_view()[0]);
        }
        while j < rest.len()
            invariant
                0 < rest.deep_view().len(),
                best < rest.deep_view().len(),
                j <= rest.deep_view().len(),
                forall|k: int|
                    0 <= k < j ==> lex_le(rest.deep_view()[best as int], rest.deep_view()[k]),
            decreases rest.len() - j,
        {
            if !str_lex_le(rest[best].as_str(), rest[j].as_str()) {
                proof {
                    lemma_lex_le_total(rest.deep_view()[best as int], rest.deep_view()[j as int]);
                    assert forall|k: int| 0 <= k < j implies lex_le(
                        rest.deep_view()[j as int],
                        rest.deep_view()[k],
                    ) by {
                        lemma_lex_le_trans(
                            rest.deep_view()[j as int],
                            rest.deep_view()[best as int],
                            rest.deep_view()[k],
                        );
                    }
                    lemma_lex_le_refl(rest.deep_view()[j as int]);
                }
                best = j;
            }
            j = j + 1;
        }
        let ghost pre_rest = rest.deep_view();
        let ghost pre_v = v.deep_view();
        let x = rest.remove(best);
        v.push(x);
        proof {
            broadcast use vstd::multiset::group_multiset_axioms;

            pre_rest.to_multiset_ensures();
            pre_v.to_multiset_ensures();
            assert(rest.deep_view() =~= pre_rest.remove(best as int));
            assert(x@ == pre_rest[best as int]);
            assert(v.deep_view() =~= pre_v.push(x@));
            assert(pre_rest.contains(x@));
            assert(pre_rest.to_multiset().count(x@) > 0);
            assert(rest.deep_view().to_multiset() =~= pre_rest.to_multiset().remove(x@));
            assert(v.deep_view().to_multiset() =~= pre_v.to_multiset().insert(x@));
            assert(v.deep_view().to_multiset().add(rest.deep_view().to_multiset())
                =~= pre_v.to_multiset().add(pre_rest.to_multiset()));
        }
    }
    proof {
        assert(rest.deep_view() =~= Seq::<Seq<char>>::empty());
        assert(rest.deep_view().to_multiset() =~= Multiset::<Seq<char>>::empty());
        assert(v.deep_view().to_multiset() =~= v.deep_view().to_multiset().add(
            rest.deep_view().to_multiset(),
        ));
    }
}

/// A candidate list that holds exactly one candidate (as a multiset) is
/// that one candidate: with `complete_directory`'s contract, a scan
/// with exactly one matching subdirectory returns precisely it.
pub proof fn lemma_single_candidate(s: Seq<Seq<char>>, x: Seq<char>)
    requires
        s.to_multiset() == seq![x].to_multiset(),
    ensures
        s =~= seq![x],
{
    broadcast use vstd::seq_lib::group_to_multiset_ensures;

    s.to_multiset_ensures();
    seq![x].to_multiset_ensures();
    assert(seq![x].to_multiset().len() == 1);
    assert(s.len() == 1);
    assert(s.contains(s[0]));
    assert(seq![x].to_multiset().count(s[0]) > 0);
    assert(seq![x].contains(s[0]));
    assert(s[0] == x);
}

/// Whether `p` is a prefix of every candidate.
pub open spec fn common_prefix_of(cands: Seq<Seq<char>>, p: Seq<char>) -> bool {
    forall|i: int| 0 <= i < cands.len() ==> p.is_prefix_of(#[trigger] cands[i])
}

/// Whether every candidate still agrees one character past `p`.
pub open spec fn extendable(cands: Seq<Seq<char>>, p: Seq<char>) -> bool {
    &&& cands.len() > 0
    &&& p.len() < cands[0].len()
    &&& forall|i: int|
        0 <= i < cands.len() ==> p.len() < (#[trigger] cands[i]).len() && cands[i][p.len() as int]
            == cands[0][p.len() as int]
}

impl PathCompleter {
    /// The longest common prefix of all candidates; empty when there are
    /// none. It is a prefix of the first candidate that every other
    /// candidate shares and that cannot be extended by one character.
    pub fn common_prefix(candidates: &Vec<String>) -> (r: String)
        ensures
            candidates.deep_view().len() == 0 ==> r@ == Seq::<char>::empty(),
            candidates.deep_view().len() > 0 ==> {
                &&& common_prefix_of(candidates.deep_view(), r@)
                &&& r@.is_prefix_of(candidates.deep_view()[0])
                &&& !extendable(candidates.deep_view(), r@)
            },
    {
        let ghost cands = candidates.deep_view();
        if candidates.len() == 0 {
            return String::new();
        }
        let n = candidates[0].as_str().unicode_len();
        let mut j: usize = 0;
        let mut go = true;
        while go && j < n
            invariant
                cands == candidates.deep_view(),
                cands.len() > 0,
                n == cands[0].len(),
                j <= n,
                forall|i: int| 0 <= i < cands.len() ==> j <= (#[trigger] cands[i]).len(),
                forall|i: int, t: int|
                    0 <= i < cands.len() && 0 <= t < j ==> #[trigger] cands[i][t] == cands[0][t],
                !go ==> exists|i: int|
                    0 <= i < cands.len() && (j >= (#[trigger] cands[i]).len() || cands[i][j as int]
                        != cands[0][j as int]),
            decreases n - j, (if go { 1int } else { 0int }),
        {
            let c = candidates[0].as_str().get_char(j);
            let mut k: usize = 1;
            let mut ok = true;
            while ok && k < candidates.len()
                invariant
                    cands == candidates.deep_view(),
                    cands.len() > 0,
                    j < cands[0].len(),
                    c == cands[0][j as int],
                    forall|i: int| 0 <= i < cands.len() ==> j <= (#[trigger] cands[i]).len(),
                    1 <= k <= cands.len(),
                    ok ==> forall|i: int|
                        0 <= i < k ==> j < (#[trigger] cands[i]).len() && cands[i][j as int] == c,
                    !ok ==> exists|i: int|
                        0 <= i < cands.len() && (j >= (#[trigger] cands[i]).len()
                            || cands[i][j as int] != cands[0][j as int]),
                decreases cands.len() - k, (if ok { 1int } else { 0int }),
            {
                let m = candidates[k].as_str().unicode_len();
                if j >= m {
                    proof {
                        assert(j >= cands[k as int].len());
                    }
                    ok = false;
                } else if candidates[k].as_str().get_char(j) != c {
                    proof {
                        assert(cands[k as int][j as int] != cands[0][j as int]);
                    }
                    ok = false;
                } else {
                    k = k + 1;
                }
            }
            if ok {
                j = j + 1;
            } else {
                go = false;
            }
        }
        let r = strutil::substr_copy(candidates[0].as_str(), 0, j);
        proof {
            assert forall|i: int| 0 <= i < cands.len() implies r@.is_prefix_of(
                #[trigger] cands[i],
            ) by {
                assert(r@ =~= cands[i].subrange(0, j as int));
            }
            if go {
                assert(j == n);
                assert(!extendable(cands, r@));
            } else {
                assert(!extendable(cands, r@));
            }
        }
        r
    }
}

/// The candidate paths for a prefix: each matching entry, joined onto the
/// scanned directory, in the entries' own order.
pub open spec fn matching_candidates(
    parent: Seq<char>,
    prefix: Seq<char>,
    entries: Seq<Seq<char>>,
) -> Seq<Seq<char>>
    decreases entries.len(),
{
    if entries.len() == 0 {
        Seq::<Seq<char>>::empty()
    } else {
        let head = if entry_matches(entries[0], prefix) {
            seq![join_spec(parent, entries[0])]
        } else {
            Seq::<Seq<char>>::empty()
        };
        head + matching_candidates(parent, prefix, entries.drop_first())
    }
}

/// Unrolling `matching_candidates` one entry at a time, front to back.
proof fn lemma_matching_candidates_take_step(
    parent: Seq<char>,
    prefix: Seq<char>,
    entries: Seq<Seq<char>>,
    i: int,
)
    requires
        0 <= i < entries.len(),
    ensures
        matching_candidates(parent, prefix, entries.take(i + 1)) == matching_candidates(
            parent,
            prefix,
            entries.take(i),
        ) + (if entry_matches(entries[i], prefix) {
            seq![join_spec(parent, entries[i])]
        } else {
            Seq::<Seq<char>>::empty()
        }),
    decreases i,
{
    let a = entries.take(i + 1);
    if i == 0 {
        assert(a.drop_first() =~= entries.take(0));
        assert(matching_candidates(parent, prefix, entries.take(0))
            =~= Seq::<Seq<char>>::empty());
        assert(a[0] == entries[0]);
        assert(matching_candidates(parent, prefix, a) =~= (if entry_matches(entries[0], prefix) {
            seq![join_spec(parent, entries[0])]
        } else {
            Seq::<Seq<char>>::empty()
        }));
    } else {
        assert(a.drop_first() =~= entries.drop_first().take(i));
        assert(entries.take(i).drop_first() =~= entries.drop_first().take(i - 1));
        lemma_matching_candidates_take_step(parent, prefix, entries.drop_first(), i - 1);
        assert(entries.drop_first()[i - 1] == entries[i]);
        assert(a[0] == entries[0]);
        assert(entries.take(i)[0] == entries[0]);
    }
}

impl PathCompleter {
    /// Whether a directory entry is offered for this prefix.
    fn entry_offered(name: &str, prefix: &str) -> (b: bool)
        ensures
            b == entry_matches(name@, prefix@),
    {
        if !strutil::starts_with_prefix(name, prefix) {
            return false;
        }
        let n = name.unicode_len();
        if n > 0 && name.get_char(0) == '.' {
            let m = prefix.unicode_len();
            m > 0 && prefix.get_char(0) == '.'
        } else {
            true
        }
    }

    /// The completion candidates for an expanded partial path, given the
    /// names of the directories inside the directory to scan: every
    /// matching name joined onto that directory, in lexicographic order,
    /// together with the candidates' longest common prefix.
    pub fn complete_directory(expanded: &str, entries: &Vec<String>) -> (r: (Vec<String>, String))
        ensures
            ({
                let cands = matching_candidates(
                    split_parent(expanded@),
                    split_prefix(expanded@),
                    entries.deep_view(),
                );
                &&& r.0.deep_view().to_multiset() == cands.to_multiset()
                &&& sorted_lex(r.0.deep_view())
                &&& r.0.deep_view().len() == 0 ==> r.1@ == Seq::<char>::empty()
                &&& r.0.deep_view().len() > 0 ==> {
                    &&& common_prefix_of(r.0.deep_view(), r.1@)
                    &&& r.1@.is_prefix_of(r.0.deep_view()[0])
                    &&& !extendable(r.0.deep_view(), r.1@)
                }
            }),
    {
        broadcast use vstd::seq_lib::group_to_multiset_ensures;

        let (parent, prefix) = Self::split_search_input(expanded);
        let ghost names = entries.deep_view();
        let mut candidates: Vec<String> = Vec::new();
        proof {
            assert(candidates.deep_view() =~= matching_candidates(parent@, prefix@, names.take(0)));
        }
        let mut i: usize = 0;
        while i < entries.len()
            invariant
                names == entries.deep_view(),
                i <= names.len(),
                parent@ == split_parent(expanded@),
                prefix@ == split_prefix(expanded@),
                candidates.deep_view() == matching_candidates(parent@, prefix@, names.take(i as int)),
            decreases names.len() - i,
        {
            if Self::entry_offered(entries[i].as_str(), prefix.as_str()) {
                let joined = Self::join_path(parent.as_str(), entries[i].as_str());
                let ghost pre = candidates.deep_view();
                candidates.push(joined);
                proof {
                    assert(candidates.deep_view() =~= pre.push(join_spec(parent@, names[i as int])));
                    assert(pre.push(join_spec(parent@, names[i as int])) =~= pre + seq![
                        join_spec(parent@, names[i as int]),
                    ]);
                }
            }
            proof {
                lemma_matching_candidates_take_step(parent@, prefix@, names, i as int);
                if !entry_matches(names[i as int], prefix@) {
                    assert(candidates.deep_view() =~= matching_candidates(
                        parent@,
                        prefix@,
                        names.take(i as int),
                    ) + Seq::<Seq<char>>::empty());
                }
            }
            i = i + 1;
        }
        proof {
            assert(names.take(names.len() as int) =~= names);
        }
        sort_candidates(&mut candidates);
        let common = Self::common_prefix(&candidates);
        (candidates, common)
    }
}

/// The position of the first occurrence of `c`, if any.
pub open spec fn first_index_of(s: Seq<char>, c: char) -> Option<int>
    decreases s.len(),
{
    if s.len() == 0 {
        None
    } else if s[0] == c {
        Some(0)
    } else {
        match first_index_of(s.drop_first(), c) {
            Some(i) => Some(i + 1),
            None => None,
        }
    }
}

pub proof fn lemma_first_index_some(s: Seq<char>, c: char, i: int)
    requires
        0 <= i < s.len(),
        s[i] == c,
        forall|k: int| 0 <= k < i ==> s[k] != c,
    ensures
        first_index_of(s, c) == Some(i),
    decreases i,
{
    if i > 0 {
        lemma_first_index_some(s.drop_first(), c, i - 1);
    }
}

pub proof fn lemma_first_index_none(s: Seq<char>, c: char)
    requires
        forall|k: int| 0 <= k < s.len() ==> s[k] != c,
    ensures
        first_index_of(s, c) is None,
    decreases s.len(),
{
    if s.len() > 0 {
        lemma_first_index_none(s.drop_first(), c);
    }
}

/// Where the environment-variable part of a `$VAR...` input ends: at the
/// first separator, or at the end when there is none.
pub open spec fn var_end(s: Seq<char>) -> int {
    match first_index_of(s, '/') {
        Some(i) => i,
        None => s.len() as int,
    }
}

/// Expansion of a leading `~/` (from the home directory) or `$VAR`
/// (from that variable's value); anything else is left as it is, a bare
/// `~` or unknown name included.
pub open spec fn expand_prefix_model(
    input: Seq<char>,
    home: Option<Seq<char>>,
    var_value: Option<Seq<char>>,
) -> Seq<char> {
    if input.len() >= 2 && input[0] == '~' && input[1] == '/' {
        match home {
            Some(h) => h + input.subrange(1, input.len() as int),
            None => input,
        }
    } else if input.len() >= 1 && input[0] == '$' {
        match var_value {
            Some(v) => v + input.subrange(var_end(input), input.len() as int),
            None => input,
        }
    } else {
        input
    }
}

/// Full expansion: empty input resolves to the current directory, and a
/// result that is still relative is resolved against it.
pub open spec fn expand_model(
    input: Seq<char>,
    home: Option<Seq<char>>,
    var_value: Option<Seq<char>>,
    cwd: Seq<char>,
) -> Seq<char> {
    if input.len() == 0 {
        cwd
    } else {
        let e = expand_prefix_model(input, home, var_value);
        if e.len() > 0 && e[0] == '/' {
            e
        } else {
            cwd + seq!['/'] + e
        }
    }
}

impl PathCompleter {
    /// The name of the environment variable a `$VAR...` input asks for;
    /// nothing for any other input.
    pub fn env_var_name(input: &str) -> (r: Option<String>)
        ensures
            input@.len() >= 1 && input@[0] == '$' ==> (r matches Some(nm) && nm@
                == input@.subrange(1, var_end(input@))),
            !(input@.len() >= 1 && input@[0] == '$') ==> r is None,
    {
        let n = input.unicode_len();
        if n >= 1 && input.get_char(0) == '$' {
            let ve = match strutil::find_char(input, '/') {
                Some(i) => {
                    proof {
                        lemma_first_index_some(input@, '/', i as int);
                    }
                    i
                },
                None => {
                    proof {
                        lemma_first_index_none(input@, '/');
                    }
                    n
                },
            };
            Some(strutil::substr_copy(input, 1, ve))
        } else {
            None
        }
    }

    /// Expands a partial path against the given home directory, variable
    /// value (for the variable `env_var_name` returns) and current
    /// directory.
    pub fn expand_path(input: &str, home: Option<&str>, var_value: Option<&str>, cwd: &str) -> (r:
        String)
        ensures
            r@ == expand_model(input@, home.deep_view(), var_value.deep_view(), cwd@),
    {
        let n = input.unicode_len();
        if n == 0 {
            return cwd.to_owned();
        }
        let e: String;
        if n >= 2 && input.get_char(0) == '~' && input.get_char(1) == '/' {
            match home {
                Some(h) => {
                    let mut t: String = h.to_owned();
                    t.append(input.substring_char(1, n));
                    e = t;
                },
                None => {
                    e = input.to_owned();
                },
            }
        } else if input.get_char(0) == '$' {
            match var_value {
                Some(v) => {
                    let ve = match strutil::find_char(input, '/') {
                        Some(i) => {
                            proof {
                                lemma_first_index_some(input@, '/', i as int);
                            }
                            i
                        },
                        None => {
                            proof {
                                lemma_first_index_none(input@, '/');
                            }
                            n
                        },
                    };
                    let mut t: String = v.to_owned();
                    t.append(input.substring_char(ve, n));
                    e = t;
                },
                None => {
                    e = input.to_owned();
                },
            }
        } else {
            e = input.to_owned();
        }
        let m = e.as_str().unicode_len();
        if m > 0 && e.as_str().get_char(0) == '/' {
            e
        } else {
            let mut t: String = cwd.to_owned();
            strutil::push_char(&mut t, '/');
            t.append(e.as_str());
            proof {
                assert(t@ =~= cwd@ + seq!['/'] + e@);
            }
            t
        }
    }

    /// Checks a typed directory path: blank input, a path that does not
    /// exist and one that is not a directory are each refused with a
    /// message; otherwise the expanded path is accepted. The caller
    /// supplies what only the filesystem knows.
    pub fn validate_directory(input: &str, expanded: String, exists: bool, is_dir: bool) -> (r:
        Result<String, String>)
        ensures
            strutil::trim_spaces(input@).len() == 0 ==> (r matches Err(m) && m@
                == "Directory path cannot be empty"@),
            strutil::trim_spaces(input@).len() > 0 && !exists ==> (r matches Err(m) && m@
                == "Directory does not exist: "@ + input@),
            strutil::trim_spaces(input@).len() > 0 && exists && !is_dir ==> (r matches Err(m) && m@
                == "Path is not a directory: "@ + input@),
            strutil::trim_spaces(input@).len() > 0 && exists && is_dir ==> (r matches Ok(p) && p@
                == expanded@),
    {
        let t = strutil::trim(input);
        if t.as_str().unicode_len() == 0 {
            let m: String = "Directory path cannot be empty".to_owned();
            return Err(m);
        }
        if !exists {
            let mut m: String = "Directory does not exist: ".to_owned();
            m.append(input);
            return Err(m);
        }
        if !is_dir {
            let mut m: String = "Path is not a directory: ".to_owned();
            m.append(input);
            return Err(m);
        }
        Ok(expanded)
    }
}

/// One in-progress completion cycle: the anchor the candidates were
/// computed for, the ordered candidates, and which of them is shown
/// (`None` right after anchoring, before any candidate is shown).
pub struct CompletionState {
    pub base: String,
    pub candidates: Vec<String>,
    pub cursor: Option<usize>,
}

/// Mathematical model of a completion cycle.
pub ghost struct CompletionModel {
    pub base: Seq<char>,
    pub candidates: Seq<Seq<char>>,
    pub cursor: Option<int>,
}

impl View for CompletionState {
    type V = CompletionModel;

    open spec fn view(&self) -> CompletionModel {
        CompletionModel {
            base: self.base@,
            candidates: self.candidates.deep_view(),
            cursor: match self.cursor {
                Some(i) => Some(i as int),
                None => None,
            },
        }
    }
}

/// The cursor after one forward step: the first candidate when none is
/// shown yet, else the next one, wrapping at the end.
pub open spec fn step_forward(cursor: Option<int>, n: int) -> int {
    match cursor {
        None => 0,
        Some(i) => if i + 1 < n {
            i + 1
        } else {
            0
        },
    }
}

/// The cursor after one backward step: the last candidate when none is
/// shown yet or the first one is, else the previous one.
pub open spec fn step_backward(cursor: Option<int>, n: int) -> int {
    match cursor {
        None => n - 1,
        Some(i) => if i == 0 {
            n - 1
        } else {
            i - 1
        },
    }
}

/// The cursor after `k` forward steps.
pub open spec fn forward_iter(cursor: Option<int>, n: int, k: nat) -> Option<int>
    decreases k,
{
    if k == 0 {
        cursor
    } else {
        Some(step_forward(forward_iter(cursor, n, (k - 1) as nat), n))
    }
}

proof fn lemma_forward_iter_value(j: int, n: int, k: nat)
    requires
        0 <= j < n,
        k <= n,
    ensures
        forward_iter(Some(j), n, k) == Some(
            if j + k < n {
                j + k
            } else {
                j + k - n
            },
        ),
    decreases k,
{
    if k > 0 {
        lemma_forward_iter_value(j, n, (k - 1) as nat);
    }
}

/// Cycling forward through all `n` candidates brings the cursor — and
/// with it the shown candidate, hence the input buffer — back to where
/// the cycle stood before those `n` steps.
pub proof fn lemma_cycle_forward_period(j: int, n: int)
    requires
        0 <= j < n,
    ensures
        forward_iter(Some(j), n, n as nat) == Some(j),
{
    lemma_forward_iter_value(j, n, n as nat);
}

impl CompletionState {
    /// Moves the cursor one candidate forward or backward, wrapping, and
    /// says which candidate is now shown.
    pub fn step(&mut self, forward: bool) -> (shown: usize)
        requires
            old(self)@.candidates.len() > 0,
            old(self)@.cursor matches Some(i) ==> 0 <= i < old(self)@.candidates.len(),
        ensures
            final(self)@.base == old(self)@.base,
            final(self)@.candidates == old(self)@.candidates,
            shown < old(self)@.candidates.len(),
            forward ==> shown as int == step_forward(
                old(self)@.cursor,
                old(self)@.candidates.len() as int,
            ),
            !forward ==> shown as int == step_backward(
                old(self)@.cursor,
                old(self)@.candidates.len() as int,
            ),
            final(self)@.cursor == Some(shown as int),
    {
        let n = self.candidates.len();
        let next: usize = if forward {
            match self.cursor {
                None => 0,
                Some(i) => if i + 1 < n {
                    i + 1
                } else {
                    0
                },
            }
        } else {
            match self.cursor {
                None => n - 1,
                Some(i) => if i == 0 {
                    n - 1
                } else {
                    i - 1
                },
            }
        };
        self.cursor = Some(next);
        next
    }
}

} // verus!
