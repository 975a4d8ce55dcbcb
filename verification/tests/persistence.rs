use dimensions::dimension::{Dimension, DimensionConfig, Tab};

fn sample_config() -> DimensionConfig {
    let mut work = Dimension::new("work".to_string());
    work.base_dir = Some("/proj".to_string());
    work.add_tab(Tab::new("build".to_string(), Some("make -j4".to_string())));
    work.add_tab(Tab {
        name: "edit \"notes\"".to_string(),
        command: None,
        working_dir: Some("/proj/docs".to_string()),
    });
    let mut play = Dimension::new("play\\ground".to_string());
    play.collapsed = true;
    let mut config = DimensionConfig::new();
    config.add_dimension(work);
    config.add_dimension(play);
    config.set_active(Some("work".to_string()));
    config
}

#[test]
fn save_then_load_reproduces_the_structure() {
    let config = sample_config();
    let text = config.encode();
    let back = DimensionConfig::parse(text.as_str()).expect("own encoding must parse");
    assert_eq!(back.dimensions.len(), 2);
    assert_eq!(back.dimensions[0].name, "work");
    assert_eq!(back.dimensions[0].base_dir.as_deref(), Some("/proj"));
    assert!(!back.dimensions[0].collapsed);
    assert_eq!(back.dimensions[0].tabs.len(), 2);
    assert_eq!(back.dimensions[0].tabs[0].name, "build");
    assert_eq!(back.dimensions[0].tabs[0].command.as_deref(), Some("make -j4"));
    assert!(back.dimensions[0].tabs[0].working_dir.is_none());
    assert_eq!(back.dimensions[0].tabs[1].name, "edit \"notes\"");
    assert!(back.dimensions[0].tabs[1].command.is_none());
    assert_eq!(
        back.dimensions[0].tabs[1].working_dir.as_deref(),
        Some("/proj/docs")
    );
    assert_eq!(back.dimensions[1].name, "play\\ground");
    assert!(back.dimensions[1].collapsed);
    assert!(back.dimensions[1].tabs.is_empty());
    assert_eq!(back.active_dimension.as_deref(), Some("work"));
}

#[test]
fn default_document_is_empty() {
    let config = DimensionConfig::default();
    assert!(config.dimensions.is_empty());
    assert!(config.active_dimension.is_none());
}

#[test]
fn empty_document_round_trips() {
    let config = DimensionConfig::new();
    let text = config.encode();
    assert_eq!(text, "{\"dimensions\":[],\"active_dimension\":null}");
    let back = DimensionConfig::parse(text.as_str()).unwrap();
    assert!(back.dimensions.is_empty());
    assert!(back.active_dimension.is_none());
}

#[test]
fn missing_tabs_section_defaults_to_empty() {
    let text = "{\"dimensions\":[{\"name\":\"old\",\"base_dir\":null,\"collapsed\":false}],\"active_dimension\":null}";
    let back = DimensionConfig::parse(text).expect("older documents stay readable");
    assert_eq!(back.dimensions.len(), 1);
    assert_eq!(back.dimensions[0].name, "old");
    assert!(back.dimensions[0].tabs.is_empty());
}

#[test]
fn malformed_documents_are_refused_whole() {
    assert!(DimensionConfig::parse("").is_none());
    assert!(DimensionConfig::parse("{}").is_none());
    assert!(DimensionConfig::parse("{\"dimensions\":[").is_none());
    assert!(DimensionConfig::parse(
        "{\"dimensions\":[],\"active_dimension\":null} trailing"
    )
    .is_none());
}

#[test]
fn save_config_matches_encode() {
    let config = sample_config();
    let expected = config.encode();
    let app = dimensions::app::App::new(config, None, None);
    assert_eq!(app.save_config(), expected);
}

#[test]
fn unique_name_check_spots_duplicates() {
    let mut config = DimensionConfig::new();
    config.add_dimension(Dimension::new("a".to_string()));
    config.add_dimension(Dimension::new("b".to_string()));
    assert!(config.check_unique_names());
    config.add_dimension(Dimension::new("a".to_string()));
    assert!(!config.check_unique_names());
}

#[test]
fn document_lookup_and_removal_work_by_name() {
    let mut config = sample_config();
    assert!(config.get_dimension("work").is_some());
    assert_eq!(config.get_dimension_index("play\\ground"), Some(1));
    assert!(config.get_dimension("absent").is_none());
    let removed = config.remove_dimension("work").unwrap();
    assert_eq!(removed.name, "work");
    assert_eq!(config.dimensions.len(), 1);
    assert!(config.remove_dimension("work").is_none());
}

#[test]
fn tab_removal_by_index_is_bounded() {
    let mut d = Dimension::new("d".to_string());
    d.add_tab(Tab::new("a".to_string(), None));
    assert!(d.remove_tab(5).is_none());
    let t = d.remove_tab(0).unwrap();
    assert_eq!(t.name, "a");
    assert!(d.tabs.is_empty());
}
