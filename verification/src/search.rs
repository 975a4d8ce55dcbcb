//! The search engine: fuzzy scoring of dimension and tab names against a
//! query, merging of the per-dimension results, and ordering by score.
//!
//! Scoring itself is delegated to the `fuzzy_matcher` crate; its result is
//! named by the uninterpreted function `fuzzy_score`, and everything built
//! on top of it is stated and proved exactly in terms of that name.

use vstd::prelude::*;
use vstd::multiset::Multiset;
use crate::dimension::{DimensionModel, TabModel};
use crate::session::{LiveWindow, LiveWindowModel};

verus! {

/// How a search result matched the query.
#[derive(Clone, Copy, PartialEq, Eq, Structural, Debug)]
pub enum MatchType {
    /// Only the dimension's own name matched.
    DimensionOnly,
    /// Only the tab's name matched.
    TabOnly,
    /// Both names matched; the scores are added.
    Both,
}

/// One ranked search result. `tab_index` is a live window index when the
/// dimension's session exists, else a position into its configured tabs.
pub struct SearchResult {
    pub dimension_index: usize,
    pub dimension_name: String,
    pub tab_index: usize,
    pub tab_name: String,
    pub score: i64,
    pub match_type: MatchType,
}

/// Mathematical model of a search result.
pub ghost struct SearchResultModel {
    pub dimension_index: int,
    pub dimension_name: Seq<char>,
    pub tab_index: int,
    pub tab_name: Seq<char>,
    pub score: int,
    pub match_type: MatchType,
}

impl View for SearchResult {
    type V = SearchResultModel;

    open spec fn view(&self) -> SearchResultModel {
        SearchResultModel {
            dimension_index: self.dimension_index as int,
            dimension_name: self.dimension_name@,
            tab_index: self.tab_index as int,
            tab_name: self.tab_name@,
            score: self.score as int,
            match_type: self.match_type,
        }
    }
}

impl DeepView for SearchResult {
    type V = SearchResultModel;

    open spec fn deep_view(&self) -> SearchResultModel {
        self.view()
    }
}

/// What the fuzzy matcher returns for a choice string and a query:
/// a match-quality score, or nothing when the query does not match.
/// The value depends on the two strings alone.
pub uninterp spec fn fuzzy_score(choice: Seq<char>, pattern: Seq<char>) -> Option<int>;

/// Relies on fuzzy_matcher's `SkimMatcherV2::fuzzy_match` with the default
/// configuration: the score is a function of the two strings alone, and an
/// empty pattern matches everything with score 0.
#[verifier::external_body]
fn fuzzy_match_score(choice: &str, pattern: &str) -> (r: Option<i64>)
    ensures
        r matches Some(v) ==> fuzzy_score(choice@, pattern@) == Some(v as int),
        r is None ==> fuzzy_score(choice@, pattern@) is None,
        pattern@.len() == 0 ==> r == Some(0i64),
{
    <fuzzy_matcher::skim::SkimMatcherV2 as fuzzy_matcher::FuzzyMatcher>::fuzzy_match(
        &fuzzy_matcher::skim::SkimMatcherV2::default(),
        choice,
        pattern,
    )
}

/// Addition of two scores, saturating at the `i64` range bounds.
pub open spec fn score_sat_add(a: int, b: int) -> int {
    if a + b > i64::MAX as int {
        i64::MAX as int
    } else if a + b < i64::MIN as int {
        i64::MIN as int
    } else {
        a + b
    }
}

/// Exec saturating addition matching `score_sat_add`.
fn sat_add_i64(a: i64, b: i64) -> (r: i64)
    ensures
        r as int == score_sat_add(a as int, b as int),
{
    let wide: i128 = a as i128 + b as i128;
    if wide > i64::MAX as i128 {
        i64::MAX
    } else if wide < i64::MIN as i128 {
        i64::MIN
    } else {
        wide as i64
    }
}

/// The combined score and classification for one tab, from the dimension's
/// score and the tab's score; nothing when neither name matched.
pub open spec fn combined_score(d: Option<int>, t: Option<int>) -> Option<(int, MatchType)> {
    match (d, t) {
        (Some(ds), Some(ts)) => Some((score_sat_add(ds, ts), MatchType::Both)),
        (Some(ds), None) => Some((ds, MatchType::DimensionOnly)),
        (None, Some(ts)) => Some((ts, MatchType::TabOnly)),
        (None, None) => None,
    }
}

/// The placeholder tab name used for a matching dimension with no tabs.
pub open spec fn no_tabs_name() -> Seq<char> {
    "(no tabs)"@
}

/// The dimension's effective tab references: the live windows when its
/// session exists, else its configured tabs addressed by position.
pub open spec fn effective_tab_refs(
    live: Option<Seq<LiveWindowModel>>,
    tabs: Seq<TabModel>,
) -> Seq<LiveWindowModel> {
    match live {
        Some(ws) => ws,
        None => Seq::new(tabs.len(), |i: int| LiveWindowModel { index: i, name: tabs[i].name }),
    }
}

/// The zero or one results contributed by a single tab reference.
pub open spec fn tab_result(
    d_idx: int,
    d_name: Seq<char>,
    w: LiveWindowModel,
    query: Seq<char>,
) -> Seq<SearchResultModel> {
    match combined_score(fuzzy_score(d_name, query), fuzzy_score(w.name, query)) {
        Some(st) => seq![
            SearchResultModel {
                dimension_index: d_idx,
                dimension_name: d_name,
                tab_index: w.index,
                tab_name: w.name,
                score: st.0,
                match_type: st.1,
            },
        ],
        None => Seq::<SearchResultModel>::empty(),
    }
}

/// The results contributed by a list of tab references, in order.
pub open spec fn tabs_results(
    d_idx: int,
    d_name: Seq<char>,
    ws: Seq<LiveWindowModel>,
    query: Seq<char>,
) -> Seq<SearchResultModel>
    decreases ws.len(),
{
    if ws.len() == 0 {
        Seq::<SearchResultModel>::empty()
    } else {
        tab_result(d_idx, d_name, ws[0], query) + tabs_results(d_idx, d_name, ws.drop_first(), query)
    }
}

/// The results contributed by one dimension: one synthetic placeholder
/// when it matches but has no tabs, else one result per matching tab.
pub open spec fn dim_results(
    d_idx: int,
    d_name: Seq<char>,
    ws: Seq<LiveWindowModel>,
    query: Seq<char>,
) -> Seq<SearchResultModel> {
    let ds = fuzzy_score(d_name, query);
    if ws.len() == 0 && ds is Some {
        seq![
            SearchResultModel {
                dimension_index: d_idx,
                dimension_name: d_name,
                tab_index: 0,
                tab_name: no_tabs_name(),
                score: ds->Some_0,
                match_type: MatchType::DimensionOnly,
            },
        ]
    } else {
        tabs_results(d_idx, d_name, ws, query)
    }
}

/// The results of the first `n` dimensions, in order; `live[i]` holds
/// dimension `i`'s live windows when its session exists.
pub open spec fn results_up_to(
    dims: Seq<DimensionModel>,
    live: Seq<Option<Seq<LiveWindowModel>>>,
    query: Seq<char>,
    n: int,
) -> Seq<SearchResultModel>
    decreases n,
{
    if n <= 0 {
        Seq::<SearchResultModel>::empty()
    } else {
        results_up_to(dims, live, query, n - 1) + dim_results(
            n - 1,
            dims[n - 1].name,
            effective_tab_refs(live[n - 1], dims[n - 1].tabs),
            query,
        )
    }
}

/// Every result of every dimension, before ordering.
pub open spec fn all_results(
    dims: Seq<DimensionModel>,
    live: Seq<Option<Seq<LiveWindowModel>>>,
    query: Seq<char>,
) -> Seq<SearchResultModel> {
    results_up_to(dims, live, query, dims.len() as int)
}

/// The predicate "belongs to dimension `d`".
pub open spec fn dim_pred(d: int) -> spec_fn(SearchResultModel) -> bool {
    |r: SearchResultModel| r.dimension_index == d
}

/// How many results of the set belong to dimension `d`.
pub open spec fn count_for_dimension(s: Seq<SearchResultModel>, d: int) -> int {
    s.filter(dim_pred(d)).len() as int
}

/// Filtering keeps nothing when nothing satisfies the predicate.
proof fn lemma_filter_none(s: Seq<SearchResultModel>, p: spec_fn(SearchResultModel) -> bool)
    requires
        forall|k: int| 0 <= k < s.len() ==> !p(s[k]),
    ensures
        s.filter(p).len() == 0,
    decreases s.len(),
{
    reveal(Seq::filter);
    if s.len() > 0 {
        lemma_filter_none(s.drop_last(), p);
    }
}

/// Every result contributed by a dimension carries that dimension's index.
pub proof fn lemma_tabs_results_index(
    d_idx: int,
    d_name: Seq<char>,
    ws: Seq<LiveWindowModel>,
    query: Seq<char>,
)
    ensures
        forall|k: int|
            0 <= k < tabs_results(d_idx, d_name, ws, query).len() ==> #[trigger] tabs_results(
                d_idx,
                d_name,
                ws,
                query,
            )[k].dimension_index == d_idx,
    decreases ws.len(),
{
    if ws.len() > 0 {
        lemma_tabs_results_index(d_idx, d_name, ws.drop_first(), query);
    }
}

/// A dimension other than `d` contributes no result counted for `d`;
/// dimension `d` itself contributes as many results as it has entries.
proof fn lemma_count_dim_results(
    i: int,
    d: int,
    d_name: Seq<char>,
    ws: Seq<LiveWindowModel>,
    query: Seq<char>,
)
    requires
        i != d,
    ensures
        count_for_dimension(dim_results(i, d_name, ws, query), d) == 0,
{
    let s = dim_results(i, d_name, ws, query);
    lemma_tabs_results_index(i, d_name, ws, query);
    assert forall|k: int| 0 <= k < s.len() implies !dim_pred(d)(s[k]) by {
        assert(s[k].dimension_index == i);
    }
    lemma_filter_none(s, dim_pred(d));
}

/// A matching dimension with no tab references contributes exactly one
/// (synthetic) result.
proof fn lemma_count_dim_results_self(
    d: int,
    d_name: Seq<char>,
    ws: Seq<LiveWindowModel>,
    query: Seq<char>,
)
    requires
        ws.len() == 0,
        fuzzy_score(d_name, query) is Some,
    ensures
        count_for_dimension(dim_results(d, d_name, ws, query), d) == 1,
{
    reveal(Seq::filter);
    let s = dim_results(d, d_name, ws, query);
    assert(s.len() == 1);
    assert(dim_pred(d)(s[0]));
    assert(s.drop_last() =~= Seq::<SearchResultModel>::empty());
    assert(s.filter(dim_pred(d)) =~= Seq::<SearchResultModel>::empty().push(s[0]));
}

proof fn lemma_count_results_up_to(
    dims: Seq<DimensionModel>,
    live: Seq<Option<Seq<LiveWindowModel>>>,
    query: Seq<char>,
    n: int,
    d: int,
)
    requires
        0 <= d < dims.len(),
        n <= dims.len(),
        live.len() == dims.len(),
        effective_tab_refs(live[d], dims[d].tabs).len() == 0,
        fuzzy_score(dims[d].name, query) is Some,
    ensures
        count_for_dimension(results_up_to(dims, live, query, n), d) == if n > d {
            1int
        } else {
            0int
        },
    decreases n,
{
    broadcast use vstd::seq_lib::group_seq_properties;

    reveal(Seq::filter);
    if n <= 0 {
        assert(results_up_to(dims, live, query, n).filter(dim_pred(d)).len() == 0);
    } else {
        lemma_count_results_up_to(dims, live, query, n - 1, d);
        let a = results_up_to(dims, live, query, n - 1);
        let b = dim_results(
            n - 1,
            dims[n - 1].name,
            effective_tab_refs(live[n - 1], dims[n - 1].tabs),
            query,
        );
        Seq::<SearchResultModel>::filter_distributes_over_add(a, b, dim_pred(d));
        if n - 1 == d {
            lemma_count_dim_results_self(
                d,
                dims[d].name,
                effective_tab_refs(live[d], dims[d].tabs),
                query,
            );
        } else {
            lemma_count_dim_results(
                n - 1,
                d,
                dims[n - 1].name,
                effective_tab_refs(live[n - 1], dims[n - 1].tabs),
                query,
            );
        }
    }
}

/// A dimension that matches the query but has no tab references — no
/// live windows and no configured tabs — contributes exactly one
/// synthetic result to the full result set.
pub proof fn lemma_zero_tab_dimension_single_result(
    dims: Seq<DimensionModel>,
    live: Seq<Option<Seq<LiveWindowModel>>>,
    query: Seq<char>,
    d: int,
)
    requires
        0 <= d < dims.len(),
        live.len() == dims.len(),
        effective_tab_refs(live[d], dims[d].tabs).len() == 0,
        fuzzy_score(dims[d].name, query) is Some,
    ensures
        count_for_dimension(all_results(dims, live, query), d) == 1,
{
    lemma_count_results_up_to(dims, live, query, dims.len() as int, d);
}

/// A one-element sequence filters to that element or to nothing.
proof fn lemma_filter_single(x: SearchResultModel, p: spec_fn(SearchResultModel) -> bool)
    ensures
        seq![x].filter(p).len() == if p(x) {
            1int
        } else {
            0int
        },
{
    reveal(Seq::filter);
    let s = seq![x];
    assert(s.len() == 1);
    assert(s.last() == x);
    assert(s.drop_last().len() == 0);
    assert(s.drop_last().filter(p) == s.drop_last());
    if p(x) {
        assert(s.filter(p) == s.drop_last().filter(p).push(x));
    } else {
        assert(s.filter(p) == s.drop_last().filter(p));
    }
}

/// Two sequences holding the same results (as a multiset) keep the same
/// count under any predicate.
pub proof fn lemma_filter_len_multiset_invariant(
    s1: Seq<SearchResultModel>,
    s2: Seq<SearchResultModel>,
    p: spec_fn(SearchResultModel) -> bool,
)
    requires
        s1.to_multiset() == s2.to_multiset(),
    ensures
        s1.filter(p).len() == s2.filter(p).len(),
    decreases s1.len(),
{
    broadcast use vstd::seq_lib::group_to_multiset_ensures;

    reveal(Seq::filter);
    s1.to_multiset_ensures();
    s2.to_multiset_ensures();
    if s1.len() == 0 {
        assert(s2.to_multiset().len() == 0);
        assert(s2.len() == 0);
    } else {
        let x = s1.last();
        assert(s1[s1.len() - 1] == x);
        assert(s1.contains(x));
        assert(s2.to_multiset().count(x) > 0);
        assert(s2.contains(x));
        let j = choose|j: int| 0 <= j < s2.len() && s2[j] == x;
        let s1r = s1.remove(s1.len() - 1);
        let s2r = s2.remove(j);
        assert(s1r.to_multiset() =~= s1.to_multiset().remove(x));
        assert(s2r.to_multiset() =~= s2.to_multiset().remove(x));
        lemma_filter_len_multiset_invariant(s1r, s2r, p);
        assert(s1r =~= s1.drop_last());
        assert(s1.filter(p).len() == s1r.filter(p).len() + (if p(x) {
            1int
        } else {
            0int
        }));
        let front = s2.take(j);
        let back = s2.skip(j + 1);
        assert(s2 =~= front + seq![x] + back);
        assert(s2r =~= front + back);
        Seq::<SearchResultModel>::filter_distributes_over_add(front + seq![x], back, p);
        Seq::<SearchResultModel>::filter_distributes_over_add(front, seq![x], p);
        Seq::<SearchResultModel>::filter_distributes_over_add(front, back, p);
        lemma_filter_single(x, p);
        assert(s2.filter(p) == ((front + seq![x]) + back).filter(p));
    }
}

/// Scores one tab reference against the query and appends its result, if
/// any, to `out`.
fn push_tab_result(
    d_idx: usize,
    d_name: &str,
    d_score: Option<i64>,
    w: &LiveWindow,
    query: &str,
    out: &mut Vec<SearchResult>,
)
    requires
        d_score matches Some(v) ==> fuzzy_score(d_name@, query@) == Some(v as int),
        d_score is None ==> fuzzy_score(d_name@, query@) is None,
    ensures
        final(out).deep_view() == old(out).deep_view() + tab_result(
            d_idx as int,
            d_name@,
            w@,
            query@,
        ),
{
    let t_score = fuzzy_match_score(w.name.as_str(), query);
    let combined: Option<(i64, MatchType)> = match (d_score, t_score) {
        (Some(ds), Some(ts)) => Some((sat_add_i64(ds, ts), MatchType::Both)),
        (Some(ds), None) => Some((ds, MatchType::DimensionOnly)),
        (None, Some(ts)) => Some((ts, MatchType::TabOnly)),
        (None, None) => None,
    };
    match combined {
        Some((sc, mt)) => {
            let r = SearchResult {
                dimension_index: d_idx,
                dimension_name: d_name.to_owned(),
                tab_index: w.index,
                tab_name: w.name.clone(),
                score: sc,
                match_type: mt,
            };
            out.push(r);
            proof {
                assert(final(out).deep_view() =~= old(out).deep_view() + tab_result(
                    d_idx as int,
                    d_name@,
                    w@,
                    query@,
                ));
            }
        },
        None => {
            proof {
                assert(final(out).deep_view() =~= old(out).deep_view() + tab_result(
                    d_idx as int,
                    d_name@,
                    w@,
                    query@,
                ));
            }
        },
    }
}

/// Appends the results of one dimension (placeholder included) to `out`.
pub fn search_dimension(
    d_idx: usize,
    d_name: &str,
    tab_refs: &Vec<LiveWindow>,
    query: &str,
    out: &mut Vec<SearchResult>,
)
    ensures
        final(out).deep_view() == old(out).deep_view() + dim_results(
            d_idx as int,
            d_name@,
            tab_refs.deep_view(),
            query@,
        ),
{
    let d_score = fuzzy_match_score(d_name, query);
    if tab_refs.len() == 0 {
        match d_score {
            Some(sc) => {
                let r = SearchResult {
                    dimension_index: d_idx,
                    dimension_name: d_name.to_owned(),
                    tab_index: 0,
                    tab_name: no_tabs_label(),
                    score: sc,
                    match_type: MatchType::DimensionOnly,
                };
                out.push(r);
                proof {
                    assert(final(out).deep_view() =~= old(out).deep_view() + dim_results(
                        d_idx as int,
                        d_name@,
                        tab_refs.deep_view(),
                        query@,
                    ));
                }
            },
            None => {
                proof {
                    assert(dim_results(d_idx as int, d_name@, tab_refs.deep_view(), query@)
                        =~= Seq::<SearchResultModel>::empty());
                    assert(final(out).deep_view() =~= old(out).deep_view() + dim_results(
                        d_idx as int,
                        d_name@,
                        tab_refs.deep_view(),
                        query@,
                    ));
                }
            },
        }
    } else {
        let ghost ws = tab_refs.deep_view();
        let mut i: usize = 0;
        while i < tab_refs.len()
            invariant
                tab_refs.deep_view() == ws,
                i <= ws.len(),
                d_score matches Some(v) ==> fuzzy_score(d_name@, query@) == Some(v as int),
                d_score is None ==> fuzzy_score(d_name@, query@) is None,
                out.deep_view() == old(out).deep_view() + tabs_results(
                    d_idx as int,
                    d_name@,
                    ws.take(i as int),
                    query@,
                ),
            decreases ws.len() - i,
        {
            push_tab_result(d_idx, d_name, d_score, &tab_refs[i], query, out);
            proof {
                lemma_tabs_results_take_step(d_idx as int, d_name@, ws, query@, i as int);
            }
            i = i + 1;
        }
        proof {
            assert(ws.take(ws.len() as int) =~= ws);
            assert(dim_results(d_idx as int, d_name@, ws, query@) == tabs_results(
                d_idx as int,
                d_name@,
                ws,
                query@,
            ));
        }
    }
}

/// Unrolling `tabs_results` one tab at a time, front to back.
proof fn lemma_tabs_results_take_step(
    d_idx: int,
    d_name: Seq<char>,
    ws: Seq<LiveWindowModel>,
    query: Seq<char>,
    i: int,
)
    requires
        0 <= i < ws.len(),
    ensures
        tabs_results(d_idx, d_name, ws.take(i + 1), query) == tabs_results(
            d_idx,
            d_name,
            ws.take(i),
            query,
        ) + tab_result(d_idx, d_name, ws[i], query),
    decreases i,
{
    let a = ws.take(i + 1);
    if i == 0 {
        assert(a.drop_first() =~= ws.take(0));
        assert(tabs_results(d_idx, d_name, ws.take(0), query)
            =~= Seq::<SearchResultModel>::empty());
        assert(tabs_results(d_idx, d_name, a, query) =~= tab_result(d_idx, d_name, ws[0], query));
    } else {
        assert(a.drop_first() =~= ws.drop_first().take(i));
        assert(ws.take(i).drop_first() =~= ws.drop_first().take(i - 1));
        lemma_tabs_results_take_step(d_idx, d_name, ws.drop_first(), query, i - 1);
        assert(ws.drop_first()[i - 1] == ws[i]);
        assert(a[0] == ws[0]);
        assert(ws.take(i)[0] == ws[0]);
    }
}

/// The exec counterpart of `no_tabs_name`.
fn no_tabs_label() -> (s: String)
    ensures
        s@ == no_tabs_name(),
{
    let s: String = "(no tabs)".to_owned();
    s
}

/// Whether the model sequence is sorted by non-increasing score.
pub open spec fn sorted_by_score_desc(s: Seq<SearchResultModel>) -> bool {
    forall|i: int, j: int| 0 <= i < j < s.len() ==> s[i].score >= s[j].score
}

/// Sorts the results by non-increasing score. The result holds exactly the
/// same results (as a multiset); among equal scores the earlier-generated
/// result is emitted first.
pub fn sort_results_desc(v: &mut Vec<SearchResult>)
    ensures
        sorted_by_score_desc(final(v).deep_view()),
        final(v).deep_view().to_multiset() == old(v).deep_view().to_multiset(),
{
    broadcast use vstd::seq_lib::group_to_multiset_ensures;

    let mut rest: Vec<SearchResult> = Vec::new();
    core::mem::swap(v, &mut rest);
    let ghost orig = rest.deep_view();
    proof {
        assert(v.deep_view() =~= Seq::<SearchResultModel>::empty());
        assert(v.deep_view().to_multiset().add(rest.deep_view().to_multiset())
            =~= orig.to_multiset());
    }
    while rest.len() > 0
        invariant
            orig == old(v).deep_view(),
            v.deep_view().to_multiset().add(rest.deep_view().to_multiset()) == orig.to_multiset(),
            sorted_by_score_desc(v.deep_view()),
            forall|a: int, b: int|
                0 <= a < v.deep_view().len() && 0 <= b < rest.deep_view().len()
                    ==> v.deep_view()[a].score >= rest.deep_view()[b].score,
        decreases rest.len(),
    {
        let mut best: usize = 0;
        let mut j: usize = 1;
        while j < rest.len()
            invariant
                0 < rest.deep_view().len(),
                best < rest.deep_view().len(),
                j <= rest.deep_view().len(),
                forall|k: int|
                    0 <= k < j ==> rest.deep_view()[best as int].score
                        >= rest.deep_view()[k].score,
            decreases rest.len() - j,
        {
            if rest[j].score > rest[best].score {
                best = j;
            }
            j = j + 1;
        }
        let ghost pre_rest = rest.deep_view();
        let ghost pre_v = v.deep_view();
        let x = rest.remove(best);
        v.push(x);
        proof {
            broadcast use vstd::multiset::group_multiset_axioms;

            pre_rest.to_multiset_ensures();
            pre_v.to_multiset_ensures();
            assert(rest.deep_view() =~= pre_rest.remove(best as int));
            assert(x@ == pre_rest[best as int]);
            assert(v.deep_view() =~= pre_v.push(x@));
            assert(pre_rest.contains(x@));
            assert(pre_rest.to_multiset().count(x@) > 0);
            assert(rest.deep_view().to_multiset() =~= pre_rest.to_multiset().remove(x@));
            assert(v.deep_view().to_multiset() =~= pre_v.to_multiset().insert(x@));
            assert(v.deep_view().to_multiset().add(rest.deep_view().to_multiset())
                =~= pre_v.to_multiset().add(pre_rest.to_multiset()));
        }
    }
    proof {
        assert(rest.deep_view() =~= Seq::<SearchResultModel>::empty());
        assert(rest.deep_view().to_multiset() =~= Multiset::<SearchResultModel>::empty());
        assert(v.deep_view().to_multiset() =~= v.deep_view().to_multiset().add(
            rest.deep_view().to_multiset(),
        ));
    }
}

} // verus!
