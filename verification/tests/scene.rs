use lox::config::Config;
use lox::scene::{scene_name_of, sort_texts, Scene, SceneStep};

#[test]
fn scenes_dir_ends_with_scenes() {
    let cfg = Config::default();
    let dir = Scene::scenes_dir_for(&cfg);
    // Default config has empty data_dir, so this just checks the join
    assert!(
        dir.ends_with("scenes"),
        "scenes_dir_for() should end with 'scenes', got {:?}",
        dir
    );
}

#[test]
fn scenes_dir_under_data_dir() {
    let mut cfg = Config::default();
    cfg.data_dir = "/home/me/.lox".to_string();
    assert_eq!(Scene::scenes_dir_for(&cfg), "/home/me/.lox/scenes");
    cfg.data_dir = "/home/me/.lox/".to_string();
    assert_eq!(Scene::scenes_dir_for(&cfg), "/home/me/.lox/scenes");
    assert_eq!(Scene::scenes_dir_for(&Config::default()), "scenes");
}

#[test]
fn scene_file_path() {
    let mut cfg = Config::default();
    cfg.data_dir = "/data".to_string();
    assert_eq!(Scene::path_with_config("abend", &cfg), "/data/scenes/abend.yaml");
    assert_eq!(Scene::path_in("myscene", "/tmp/x"), "/tmp/x/myscene.yaml");
}

#[test]
fn load_returns_error_for_missing_scene() {
    let m = Scene::not_found_message("nonexistent");
    assert_eq!(m, "Scene 'nonexistent' not found");
    assert!(m.contains("nonexistent"));
}

#[test]
fn list_finds_yaml_files_in_dir() {
    // the directory holds alpha.yaml, beta.yaml and readme.txt
    let files = vec![
        "beta.yaml".to_string(),
        "readme.txt".to_string(),
        "alpha.yaml".to_string(),
    ];
    assert_eq!(Scene::list_from(&files), vec!["alpha", "beta"]);
}

#[test]
fn list_returns_empty_when_dir_does_not_exist() {
    // a missing directory lists no files
    assert!(Scene::list_from(&Vec::new()).is_empty());
}

#[test]
fn listing_sorts_by_code_point() {
    let files = vec![
        "b.yaml".to_string(),
        "B.yaml".to_string(),
        "a.yaml".to_string(),
        "ab.yaml".to_string(),
        "Ä.yaml".to_string(),
    ];
    assert_eq!(Scene::list_from(&files), vec!["B", "a", "ab", "b", "Ä"]);
}

#[test]
fn scene_names_of_files() {
    assert_eq!(scene_name_of("abend.yaml"), Some("abend".to_string()));
    assert_eq!(scene_name_of("a.b.yaml"), Some("a.b".to_string()));
    assert_eq!(scene_name_of(".yaml"), None);
    assert_eq!(scene_name_of("x.YAML"), None);
    assert_eq!(scene_name_of("x.yml"), None);
    assert_eq!(scene_name_of("yaml"), None);
    assert_eq!(scene_name_of("x.yaml.bak"), None);
}

#[test]
fn texts_sorted() {
    let v = vec!["pear".to_string(), "apple".to_string(), "fig".to_string(), "apple".to_string()];
    assert_eq!(sort_texts(v), vec!["apple", "apple", "fig", "pear"]);
}

#[test]
fn scene_values_hold_their_steps() {
    let s = Scene {
        name: Some("test_scene".to_string()),
        description: None,
        steps: vec![SceneStep { control: "Light [Kitchen]".to_string(), cmd: "on".to_string(), delay_ms: 500 }],
    };
    assert_eq!(s.steps[0].delay_ms, 500);
    assert_eq!(s.name.as_deref(), Some("test_scene"));
}

#[test]
fn new_scene_template() {
    let t = Scene::template_text("abend");
    assert_eq!(
        t,
        "name: \"abend\"\ndescription: \"Describe your scene\"\nsteps:\n  - control: \"Control Name or UUID\"\n    cmd: \"on\"\n  - control: \"Another Control\"\n    cmd: \"off\"\n    delay_ms: 500  # optional delay after this step\n"
    );
}
