use dimensions::app::{App, InputMode, SubmitContext};
use dimensions::dimension::{Dimension, DimensionConfig, Tab};
use dimensions::session::{BackendCommand, LiveWindow};

fn fresh_app(names: &[&str]) -> App {
    let mut config = DimensionConfig::new();
    for n in names {
        config.add_dimension(Dimension::new((*n).to_string()));
    }
    App::new(config, None, None)
}

fn plain_ctx() -> SubmitContext {
    SubmitContext {
        cwd: String::from("/home/user"),
        expanded_dir: String::new(),
        dir_exists: false,
        dir_is_dir: false,
        session_exists: false,
        live_windows: None,
    }
}

#[test]
fn create_dimension_appends_and_reports() {
    let mut app = fresh_app(&[]);
    let r = app.create_dimension("work".to_string(), None);
    assert!(r.is_ok());
    assert_eq!(app.config.dimensions.len(), 1);
    assert_eq!(app.config.dimensions[0].name, "work");
    assert!(app.config.dimensions[0].tabs.is_empty());
    assert_eq!(app.message.as_deref(), Some("Created dimension: work"));
}

#[test]
fn create_duplicate_dimension_fails_without_mutation() {
    let mut app = fresh_app(&["work"]);
    let r = app.create_dimension("work".to_string(), None);
    assert_eq!(r.unwrap_err(), "Dimension 'work' already exists");
    assert_eq!(app.config.dimensions.len(), 1);
    assert!(app.message.is_none());
}

#[test]
fn delete_dimension_removes_and_clamps_selection() {
    let mut app = fresh_app(&["a", "b", "c"]);
    app.next_dimension();
    app.next_dimension();
    assert_eq!(app.selected_dimension, 2);
    let cmds = app.delete_dimension("c", true).unwrap();
    assert_eq!(app.config.dimensions.len(), 2);
    assert_eq!(app.selected_dimension, 1);
    assert!(app.selected_tab.is_none());
    assert!(matches!(&cmds[..], [BackendCommand::KillSession { name }] if name == "c"));
}

#[test]
fn delete_missing_dimension_is_an_error() {
    let mut app = fresh_app(&["a"]);
    let e = app.delete_dimension("zz", false).unwrap_err();
    assert_eq!(e, "Dimension 'zz' not found");
    assert_eq!(app.config.dimensions.len(), 1);
}

#[test]
fn dimension_traversal_is_cyclic_and_resets_tab() {
    let mut app = fresh_app(&["a", "b"]);
    app.selected_tab = Some(0);
    app.next_dimension();
    assert_eq!(app.selected_dimension, 1);
    assert!(app.selected_tab.is_none());
    app.next_dimension();
    assert_eq!(app.selected_dimension, 0);
    app.previous_dimension();
    assert_eq!(app.selected_dimension, 1);
}

#[test]
fn traversal_without_dimensions_is_a_no_op() {
    let mut app = fresh_app(&[]);
    app.next_dimension();
    app.previous_dimension();
    app.next_tab(None);
    app.previous_tab(None);
    assert_eq!(app.selected_dimension, 0);
    assert!(app.selected_tab.is_none());
}

#[test]
fn live_tab_traversal_wraps_through_dimension() {
    // Live session "work" with windows [(0, build), (1, test)].
    let mut app = fresh_app(&["work"]);
    let windows = vec![
        LiveWindow::new(0, "build".to_string()),
        LiveWindow::new(1, "test".to_string()),
    ];
    app.selected_tab = Some(1);
    app.previous_tab(Some(&windows));
    assert_eq!(app.selected_tab, Some(0));
    app.previous_tab(Some(&windows));
    assert_eq!(app.selected_tab, None);
    app.next_tab(Some(&windows));
    assert_eq!(app.selected_tab, Some(0));
    app.next_tab(Some(&windows));
    assert_eq!(app.selected_tab, Some(1));
    app.next_tab(Some(&windows));
    assert_eq!(app.selected_tab, None);
}

#[test]
fn configured_tab_traversal_wraps_through_dimension() {
    let mut app = fresh_app(&["work"]);
    app.config.dimensions[0].add_tab(Tab::new("one".to_string(), None));
    app.config.dimensions[0].add_tab(Tab::new("two".to_string(), None));
    app.next_tab(None);
    assert_eq!(app.selected_tab, Some(0));
    app.next_tab(None);
    assert_eq!(app.selected_tab, Some(1));
    app.next_tab(None);
    assert_eq!(app.selected_tab, None);
    app.previous_tab(None);
    assert_eq!(app.selected_tab, Some(1));
}

#[test]
fn add_tab_without_live_session_creates_no_window() {
    // One dimension "work" with no tabs and no live session.
    let mut app = fresh_app(&["work"]);
    let cmds = app.add_tab_to_current_dimension(
        "build".to_string(),
        Some("make".to_string()),
        "/home/user",
        false,
    );
    assert!(cmds.is_empty());
    let tabs = &app.config.dimensions[0].tabs;
    assert_eq!(tabs.len(), 1);
    assert_eq!(tabs[0].name, "build");
    assert_eq!(tabs[0].command.as_deref(), Some("make"));
    assert_eq!(tabs[0].working_dir.as_deref(), Some("/home/user"));
}

#[test]
fn add_tab_with_live_session_creates_window() {
    let mut app = fresh_app(&["work"]);
    let cmds = app.add_tab_to_current_dimension("build".to_string(), None, "/tmp", true);
    assert_eq!(cmds.len(), 1);
    assert!(matches!(
        &cmds[0],
        BackendCommand::NewWindow { session, name, command: None, dir: Some(d) }
            if session == "work" && name == "build" && d == "/tmp"
    ));
}

#[test]
fn remove_last_configured_tab_selects_dimension() {
    let mut app = fresh_app(&["work"]);
    app.config.dimensions[0].add_tab(Tab::new("only".to_string(), None));
    app.selected_tab = Some(0);
    let (cmds, requery) = app.remove_tab_from_current_dimension(None);
    assert!(cmds.is_empty());
    assert!(!requery);
    assert!(app.config.dimensions[0].tabs.is_empty());
    assert_eq!(app.selected_tab, None);
}

#[test]
fn remove_middle_configured_tab_keeps_position() {
    let mut app = fresh_app(&["work"]);
    for n in ["a", "b", "c"] {
        app.config.dimensions[0].add_tab(Tab::new(n.to_string(), None));
    }
    app.selected_tab = Some(1);
    let _ = app.remove_tab_from_current_dimension(None);
    assert_eq!(app.selected_tab, Some(1));
    assert_eq!(app.config.dimensions[0].tabs.len(), 2);
    assert_eq!(app.config.dimensions[0].tabs[1].name, "c");
}

#[test]
fn remove_last_live_tab_selects_dimension() {
    let mut app = fresh_app(&["work"]);
    app.config.dimensions[0].add_tab(Tab::new("only".to_string(), None));
    app.selected_tab = Some(0);
    let windows = vec![LiveWindow::new(0, "only".to_string())];
    let (cmds, requery) = app.remove_tab_from_current_dimension(Some(&windows));
    assert!(matches!(
        &cmds[..],
        [BackendCommand::KillWindow { session, index: 0 }] if session == "work"
    ));
    assert!(!requery);
    assert_eq!(app.selected_tab, None);
    assert!(app.config.dimensions[0].tabs.is_empty());
}

#[test]
fn removing_the_clients_current_window_asks_for_requery() {
    let mut config = DimensionConfig::new();
    config.add_dimension(Dimension::new("work".to_string()));
    let mut app = App::new(config, Some("work".to_string()), Some(1));
    app.selected_tab = Some(1);
    let windows = vec![
        LiveWindow::new(0, "build".to_string()),
        LiveWindow::new(1, "test".to_string()),
    ];
    let (cmds, requery) = app.remove_tab_from_current_dimension(Some(&windows));
    assert_eq!(cmds.len(), 1);
    assert!(requery);
    // Selection is adopted from the re-queried current window.
    app.adopt_current_window(Some(0));
    assert_eq!(app.selected_tab, Some(0));
    assert_eq!(app.current_window, Some(0));
}

#[test]
fn switch_materializes_configured_tabs_in_order() {
    let mut app = fresh_app(&["work"]);
    app.config.dimensions[0].base_dir = Some("/proj".to_string());
    app.config.dimensions[0].add_tab(Tab {
        name: "build".to_string(),
        command: Some("make".to_string()),
        working_dir: Some("/proj/src".to_string()),
    });
    app.config.dimensions[0].add_tab(Tab {
        name: "run".to_string(),
        command: Some("./serve".to_string()),
        working_dir: None,
    });
    let cmds = app.switch_to_dimension(false);
    assert_eq!(cmds.len(), 5);
    assert!(matches!(
        &cmds[0],
        BackendCommand::CreateSession { name, base_dir: Some(b) } if name == "work" && b == "/proj"
    ));
    assert!(matches!(&cmds[1], BackendCommand::SetMinimalStatusBar));
    assert!(matches!(
        &cmds[2],
        BackendCommand::RenameWindow { session, index: 0, name } if session == "work" && name == "build"
    ));
    assert!(matches!(
        &cmds[3],
        BackendCommand::SendKeys { session, index: 0, keys }
            if session == "work" && keys == "cd /proj/src && make"
    ));
    assert!(matches!(
        &cmds[4],
        BackendCommand::NewWindow { session, name, command: Some(c), dir: None }
            if session == "work" && name == "run" && c == "./serve"
    ));
}

#[test]
fn switch_without_tabs_records_ad_hoc_tab() {
    let mut app = fresh_app(&["work"]);
    let cmds = app.switch_to_dimension(false);
    assert_eq!(cmds.len(), 3);
    assert!(matches!(
        &cmds[2],
        BackendCommand::RenameWindow { session, index: 0, name }
            if session == "work" && name == "work-1"
    ));
    assert_eq!(app.config.dimensions[0].tabs.len(), 1);
    assert_eq!(app.config.dimensions[0].tabs[0].name, "work-1");
}

#[test]
fn switch_on_live_session_never_recreates() {
    let mut app = fresh_app(&["work"]);
    let cmds = app.switch_to_dimension(true);
    assert!(cmds.is_empty());
    assert!(app.config.dimensions[0].tabs.is_empty());
}

#[test]
fn resolve_switch_target_translates_configured_selection() {
    let mut app = fresh_app(&["work"]);
    app.selected_tab = Some(1);
    let windows = vec![
        LiveWindow::new(3, "a".to_string()),
        LiveWindow::new(7, "b".to_string()),
    ];
    // Freshly created session: positions translate into real indices.
    app.resolve_switch_target(false, Some(&windows));
    assert_eq!(app.should_attach.as_deref(), Some("work"));
    assert_eq!(app.should_select_window, Some(7));
    assert!(app.should_quit);
    assert!(!app.should_detach);
}

#[test]
fn resolve_switch_target_revalidates_live_selection() {
    let mut app = fresh_app(&["work"]);
    app.selected_tab = Some(9);
    let windows = vec![
        LiveWindow::new(2, "a".to_string()),
        LiveWindow::new(5, "b".to_string()),
    ];
    // Pre-existing session, stale window index: falls back to first window.
    app.resolve_switch_target(true, Some(&windows));
    assert_eq!(app.should_select_window, Some(2));
}

#[test]
fn quit_detaches_and_close_popup_does_not() {
    let mut app = fresh_app(&[]);
    app.quit();
    assert!(app.should_quit && app.should_detach);
    let mut app2 = fresh_app(&[]);
    app2.close_popup();
    assert!(app2.should_quit && !app2.should_detach);
    assert!(app2.should_attach.is_none());
}

#[test]
fn submit_stages_name_then_creates_with_directory() {
    let mut app = fresh_app(&[]);
    app.start_create_dimension();
    assert_eq!(app.input_mode, InputMode::CreatingDimensionName);
    for c in "dev".chars() {
        app.handle_input_char(c);
    }
    let mut ctx = plain_ctx();
    let _ = app.submit_input(&ctx);
    assert_eq!(app.input_mode, InputMode::CreatingDimensionDirectory);
    assert_eq!(app.pending_dimension_name.as_deref(), Some("dev"));
    assert_eq!(app.input_buffer, "/home/user");
    ctx.expanded_dir = "/home/user".to_string();
    ctx.dir_exists = true;
    ctx.dir_is_dir = true;
    let _ = app.submit_input(&ctx);
    assert_eq!(app.input_mode, InputMode::Normal);
    assert_eq!(app.config.dimensions.len(), 1);
    assert_eq!(app.config.dimensions[0].name, "dev");
    assert_eq!(app.config.dimensions[0].base_dir.as_deref(), Some("/home/user"));
    assert_eq!(app.message.as_deref(), Some("Created dimension: dev"));
}

#[test]
fn submit_refuses_bad_directory_and_keeps_mode() {
    let mut app = fresh_app(&[]);
    app.start_create_dimension();
    app.handle_input_char('x');
    let mut ctx = plain_ctx();
    let _ = app.submit_input(&ctx);
    for c in "/nope".chars() {
        app.handle_input_char(c);
    }
    ctx.dir_exists = false;
    let _ = app.submit_input(&ctx);
    assert_eq!(app.input_mode, InputMode::CreatingDimensionDirectory);
    assert_eq!(
        app.message.as_deref(),
        Some("Directory does not exist: /home/user/nope")
    );
    assert!(app.config.dimensions.is_empty());
}

#[test]
fn submit_parses_tab_name_and_command() {
    let mut app = fresh_app(&["work"]);
    app.start_add_tab();
    for c in "srv:npm run dev".chars() {
        app.handle_input_char(c);
    }
    let ctx = plain_ctx();
    let (cmds, requery) = app.submit_input(&ctx);
    assert!(cmds.is_empty());
    assert!(!requery);
    let tabs = &app.config.dimensions[0].tabs;
    assert_eq!(tabs.len(), 1);
    assert_eq!(tabs[0].name, "srv");
    assert_eq!(tabs[0].command.as_deref(), Some("npm run dev"));
    assert_eq!(app.input_mode, InputMode::Normal);
}

#[test]
fn submit_confirms_dimension_deletion() {
    let mut app = fresh_app(&["gone", "kept"]);
    app.start_delete_dimension();
    let mut ctx = plain_ctx();
    ctx.session_exists = true;
    let (cmds, _) = app.submit_input(&ctx);
    assert!(matches!(&cmds[..], [BackendCommand::KillSession { name }] if name == "gone"));
    assert_eq!(app.config.dimensions.len(), 1);
    assert_eq!(app.config.dimensions[0].name, "kept");
}

#[test]
fn cancel_restores_selection_after_search() {
    let mut app = fresh_app(&["a", "b", "c"]);
    app.next_dimension();
    app.start_search();
    app.handle_input_char('q');
    app.next_dimension();
    app.cancel_input();
    assert_eq!(app.input_mode, InputMode::Normal);
    assert_eq!(app.selected_dimension, 1);
    assert!(app.search_query.is_empty());
    assert!(app.search_results.is_empty());
}

#[test]
fn typing_in_search_updates_live_query() {
    let mut app = fresh_app(&["a"]);
    app.start_search();
    app.handle_input_char('w');
    app.handle_input_char('k');
    assert_eq!(app.search_query, "wk");
    app.handle_input_backspace();
    assert_eq!(app.search_query, "w");
    assert_eq!(app.input_buffer, "w");
}
