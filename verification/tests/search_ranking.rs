use dimensions::app::App;
use dimensions::dimension::{Dimension, DimensionConfig, Tab};
use dimensions::search::MatchType;
use dimensions::session::LiveWindow;
use fuzzy_matcher::FuzzyMatcher;
use fuzzy_matcher::skim::SkimMatcherV2;

fn app_with(dims: &[(&str, &[&str])]) -> App {
    let mut config = DimensionConfig::new();
    for (name, tabs) in dims {
        let mut d = Dimension::new((*name).to_string());
        for t in *tabs {
            d.add_tab(Tab::new((*t).to_string(), None));
        }
        config.add_dimension(d);
    }
    App::new(config, None, None)
}

fn search(app: &mut App, query: &str) {
    app.start_search();
    for c in query.chars() {
        app.handle_input_char(c);
    }
    let live: Vec<Option<Vec<LiveWindow>>> =
        app.config.dimensions.iter().map(|_| None).collect();
    app.compute_search_results(&live);
}

#[test]
fn dimension_match_carries_over_its_tabs() {
    // Query "wrk" against ["work" with tabs build/test, "personal" with none]:
    // one dimension-only result per tab of "work", sharing "work"'s score.
    let mut app = app_with(&[("work", &["build", "test"]), ("personal", &[])]);
    search(&mut app, "wrk");
    let expected = SkimMatcherV2::default().fuzzy_match("work", "wrk").unwrap();
    let work_results: Vec<_> = app
        .search_results
        .iter()
        .filter(|r| r.dimension_index == 0)
        .collect();
    assert_eq!(work_results.len(), 2);
    for r in &work_results {
        assert_eq!(r.match_type, MatchType::DimensionOnly);
        assert_eq!(r.score, expected);
        assert_eq!(r.dimension_name, "work");
    }
    let names: Vec<&str> = work_results.iter().map(|r| r.tab_name.as_str()).collect();
    assert!(names.contains(&"build") && names.contains(&"test"));
    assert!(app.search_results.iter().all(|r| r.dimension_index == 0));
}

#[test]
fn results_are_sorted_by_non_increasing_score() {
    let mut app = app_with(&[
        ("alpha", &["alp", "a"]),
        ("beta", &["alphabet"]),
        ("gamma", &["nope"]),
    ]);
    search(&mut app, "alp");
    assert!(!app.search_results.is_empty());
    for w in app.search_results.windows(2) {
        assert!(w[0].score >= w[1].score);
    }
}

#[test]
fn zero_tab_matching_dimension_yields_one_synthetic_result() {
    let mut app = app_with(&[("alpha", &[]), ("beta", &["x"])]);
    search(&mut app, "alpha");
    let alpha: Vec<_> = app
        .search_results
        .iter()
        .filter(|r| r.dimension_index == 0)
        .collect();
    assert_eq!(alpha.len(), 1);
    assert_eq!(alpha[0].match_type, MatchType::DimensionOnly);
    assert_eq!(alpha[0].tab_name, "(no tabs)");
    assert_eq!(
        alpha[0].score,
        SkimMatcherV2::default().fuzzy_match("alpha", "alpha").unwrap()
    );
}

#[test]
fn both_match_adds_the_two_scores() {
    let mut app = app_with(&[("build", &["builder"])]);
    search(&mut app, "bui");
    let matcher = SkimMatcherV2::default();
    let ds = matcher.fuzzy_match("build", "bui").unwrap();
    let ts = matcher.fuzzy_match("builder", "bui").unwrap();
    assert_eq!(app.search_results.len(), 1);
    let r = &app.search_results[0];
    assert_eq!(r.match_type, MatchType::Both);
    assert_eq!(r.score, ds + ts);
}

#[test]
fn tab_only_match_uses_tab_score() {
    let mut app = app_with(&[("zzz", &["server"])]);
    search(&mut app, "srv");
    let ts = SkimMatcherV2::default().fuzzy_match("server", "srv").unwrap();
    assert_eq!(app.search_results.len(), 1);
    assert_eq!(app.search_results[0].match_type, MatchType::TabOnly);
    assert_eq!(app.search_results[0].score, ts);
    assert_eq!(app.search_results[0].tab_index, 0);
}

#[test]
fn unchanged_query_is_not_recomputed() {
    let mut app = app_with(&[("work", &[])]);
    search(&mut app, "work");
    assert!(!app.search_needs_recompute());
    let n = app.search_results.len();
    let live: Vec<Option<Vec<LiveWindow>>> = vec![None];
    app.compute_search_results(&live);
    assert_eq!(app.search_results.len(), n);
}

#[test]
fn live_windows_take_the_place_of_configured_tabs() {
    let mut app = app_with(&[("work", &["stale"])]);
    app.start_search();
    for c in "fresh".chars() {
        app.handle_input_char(c);
    }
    let live = vec![Some(vec![LiveWindow::new(4, "fresh".to_string())])];
    app.compute_search_results(&live);
    assert_eq!(app.search_results.len(), 1);
    assert_eq!(app.search_results[0].tab_name, "fresh");
    assert_eq!(app.search_results[0].tab_index, 4);
}

#[test]
fn search_result_navigation_wraps() {
    let mut app = app_with(&[("work", &["a", "b"])]);
    search(&mut app, "work");
    assert_eq!(app.search_results.len(), 2);
    assert_eq!(app.search_selected_index, 0);
    app.next_search_result();
    assert_eq!(app.search_selected_index, 1);
    app.next_search_result();
    assert_eq!(app.search_selected_index, 0);
    app.previous_search_result();
    assert_eq!(app.search_selected_index, 1);
}

#[test]
fn selecting_a_result_adopts_its_reference_and_names_the_target() {
    let mut app = app_with(&[("work", &["a", "b"]), ("other", &[])]);
    search(&mut app, "work");
    app.next_search_result();
    let picked_tab = app.search_results[app.search_selected_index].tab_index;
    let target = app.select_search_result();
    assert_eq!(target.as_deref(), Some("work"));
    assert_eq!(app.selected_dimension, 0);
    assert_eq!(app.selected_tab, Some(picked_tab));
    assert!(app.search_results.is_empty());
    assert!(app.search_query.is_empty());
}

#[test]
fn empty_query_clears_results() {
    let mut app = app_with(&[("work", &[])]);
    search(&mut app, "w");
    assert!(!app.search_results.is_empty());
    app.handle_input_backspace();
    let live: Vec<Option<Vec<LiveWindow>>> = vec![None];
    app.compute_search_results(&live);
    assert!(app.search_results.is_empty());
}

#[test]
fn non_matching_query_yields_nothing() {
    let mut app = app_with(&[("work", &["build"])]);
    search(&mut app, "qqq");
    assert!(app.search_results.is_empty());
}
