use dimensions::app::App;
use dimensions::dimension::DimensionConfig;
use dimensions::path_completion::{CompletionState, PathCompleter};

fn empty_app() -> App {
    App::new(DimensionConfig::new(), None, None)
}

#[test]
fn expand_home_prefix() {
    let r = PathCompleter::expand_path("~/src", Some("/home/u"), None, "/cwd");
    assert_eq!(r, "/home/u/src");
}

#[test]
fn expand_bare_tilde_is_left_alone_but_anchored() {
    let r = PathCompleter::expand_path("~other", Some("/home/u"), None, "/cwd");
    assert_eq!(r, "/cwd/~other");
}

#[test]
fn expand_env_variable_prefix() {
    assert_eq!(
        PathCompleter::env_var_name("$PROJ/sub").as_deref(),
        Some("PROJ")
    );
    let r = PathCompleter::expand_path("$PROJ/sub", None, Some("/data/proj"), "/cwd");
    assert_eq!(r, "/data/proj/sub");
}

#[test]
fn expand_unknown_variable_stays_and_is_anchored() {
    let r = PathCompleter::expand_path("$NOPE/x", None, None, "/cwd");
    assert_eq!(r, "/cwd/$NOPE/x");
}

#[test]
fn expand_empty_input_is_the_current_directory() {
    assert_eq!(PathCompleter::expand_path("", None, None, "/cwd"), "/cwd");
}

#[test]
fn expand_relative_input_is_anchored() {
    assert_eq!(
        PathCompleter::expand_path("src/lib", None, None, "/cwd"),
        "/cwd/src/lib"
    );
}

#[test]
fn split_keeps_whole_input_with_trailing_separator() {
    let (parent, prefix) = PathCompleter::split_search_input("/a/b/");
    assert_eq!(parent, "/a/b/");
    assert_eq!(prefix, "");
}

#[test]
fn split_at_last_separator() {
    let (parent, prefix) = PathCompleter::split_search_input("/a/b/pre");
    assert_eq!(parent, "/a/b");
    assert_eq!(prefix, "pre");
    let (root, p2) = PathCompleter::split_search_input("/etc");
    assert_eq!(root, "/");
    assert_eq!(p2, "etc");
}

#[test]
fn common_prefix_of_empty_and_single() {
    let none: Vec<String> = vec![];
    assert_eq!(PathCompleter::common_prefix(&none), "");
    let one = vec!["/a/bcd".to_string()];
    assert_eq!(PathCompleter::common_prefix(&one), "/a/bcd");
}

#[test]
fn common_prefix_of_several() {
    let cands = vec![
        "/a/projects".to_string(),
        "/a/profiles".to_string(),
        "/a/promise".to_string(),
    ];
    assert_eq!(PathCompleter::common_prefix(&cands), "/a/pro");
}

#[test]
fn complete_directory_filters_sorts_and_joins() {
    let entries = vec![
        "beta".to_string(),
        ".hidden".to_string(),
        "alpha".to_string(),
        "banana".to_string(),
    ];
    let (cands, common) = PathCompleter::complete_directory("/root/b", &entries);
    assert_eq!(cands, vec!["/root/banana".to_string(), "/root/beta".to_string()]);
    assert_eq!(common, "/root/b");
}

#[test]
fn complete_directory_shows_dot_entries_for_dot_prefix() {
    let entries = vec![".config".to_string(), ".cache".to_string(), "plain".to_string()];
    let (cands, _) = PathCompleter::complete_directory("/h/.c", &entries);
    assert_eq!(cands, vec!["/h/.cache".to_string(), "/h/.config".to_string()]);
}

#[test]
fn complete_directory_single_match_returns_it_alone() {
    // A parent with exactly one matching subdirectory.
    let entries = vec!["media".to_string(), "docs".to_string()];
    let (cands, common) = PathCompleter::complete_directory("/x/me", &entries);
    assert_eq!(cands, vec!["/x/media".to_string()]);
    assert_eq!(common, "/x/media");
}

#[test]
fn applying_a_single_candidate_appends_one_separator() {
    let mut app = empty_app();
    app.input_buffer = "/x/me".to_string();
    app.completion_apply(vec!["/x/media".to_string()], "/x/media".to_string());
    assert_eq!(app.input_buffer, "/x/media/");
    assert!(app.completion.is_none());
}

#[test]
fn applying_extendable_candidates_advances_to_common_prefix() {
    let mut app = empty_app();
    app.input_buffer = "/a/p".to_string();
    let cands = vec!["/a/profiles".to_string(), "/a/projects".to_string()];
    app.completion_apply(cands.clone(), "/a/pro".to_string());
    assert_eq!(app.input_buffer, "/a/pro");
    let st = app.completion.as_ref().unwrap();
    assert_eq!(st.base, "/a/pro");
    assert_eq!(st.candidates, cands);
    assert!(st.cursor.is_none());
}

#[test]
fn applying_unextendable_candidates_shows_the_first() {
    let mut app = empty_app();
    app.input_buffer = "/a/pro".to_string();
    let cands = vec!["/a/profiles".to_string(), "/a/projects".to_string()];
    app.completion_apply(cands.clone(), "/a/pro".to_string());
    assert_eq!(app.input_buffer, "/a/profiles");
    let st = app.completion.as_ref().unwrap();
    assert_eq!(st.base, "/a/pro");
    assert_eq!(st.cursor, Some(0));
}

#[test]
fn applying_no_candidates_changes_nothing() {
    let mut app = empty_app();
    app.input_buffer = "/a/zzz".to_string();
    app.completion_apply(vec![], String::new());
    assert_eq!(app.input_buffer, "/a/zzz");
    assert!(app.completion.is_none());
}

#[test]
fn cycling_forward_n_times_returns_to_the_start() {
    // Cycling forward through N candidates N times restores the buffer.
    let mut app = empty_app();
    let cands = vec!["/p/a".to_string(), "/p/b".to_string(), "/p/c".to_string()];
    app.completion = Some(CompletionState {
        base: "/p/".to_string(),
        candidates: cands,
        cursor: Some(0),
    });
    app.input_buffer = "/p/a".to_string();
    assert!(app.completion_cycle_active());
    let start = app.input_buffer.clone();
    for _ in 0..3 {
        app.completion_cycle_step(true);
    }
    assert_eq!(app.input_buffer, start);
}

#[test]
fn cycling_backward_wraps_to_the_last_candidate() {
    let mut app = empty_app();
    let cands = vec!["/p/a".to_string(), "/p/b".to_string()];
    app.completion = Some(CompletionState {
        base: "/p/".to_string(),
        candidates: cands,
        cursor: None,
    });
    app.completion_cycle_step(false);
    assert_eq!(app.input_buffer, "/p/b");
    app.completion_cycle_step(false);
    assert_eq!(app.input_buffer, "/p/a");
}

#[test]
fn editing_the_directory_clears_the_cycle() {
    let mut app = empty_app();
    app.input_mode = dimensions::app::InputMode::CreatingDimensionDirectory;
    app.completion = Some(CompletionState {
        base: "/p/".to_string(),
        candidates: vec!["/p/a".to_string()],
        cursor: Some(0),
    });
    app.handle_input_char('x');
    assert!(app.completion.is_none());
}

#[test]
fn validate_directory_rejects_blank_missing_and_non_directories() {
    let e = PathCompleter::validate_directory("  ", "/x".to_string(), true, true).unwrap_err();
    assert_eq!(e, "Directory path cannot be empty");
    let e = PathCompleter::validate_directory("/gone", "/gone".to_string(), false, false)
        .unwrap_err();
    assert_eq!(e, "Directory does not exist: /gone");
    let e = PathCompleter::validate_directory("/a/file", "/a/file".to_string(), true, false)
        .unwrap_err();
    assert_eq!(e, "Path is not a directory: /a/file");
    let ok = PathCompleter::validate_directory("~/p", "/home/u/p".to_string(), true, true);
    assert_eq!(ok.unwrap(), "/home/u/p");
}
