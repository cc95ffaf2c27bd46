use espanso::config::is_config_extension;
use espanso::{BackendType, ConfigIndex, ConfigLoadError, ConfigSet, Configs, Match};

fn doc(name: Option<&str>, parent: Option<&str>, rules: &[(&str, &str)]) -> Configs {
    let mut c = Configs::new(BackendType::Inject);
    if let Some(n) = name {
        c.name = n.to_owned();
    }
    if let Some(p) = parent {
        c.parent = p.to_owned();
    }
    c.matches = rules.iter().map(|(t, r)| Match::new(t, r)).collect();
    c
}

fn index(default_rules: &[(&str, &str)]) -> ConfigIndex {
    ConfigIndex::new(doc(None, None, default_rules))
}

fn has(c: &Configs, trigger: &str) -> bool {
    c.matches.iter().any(|m| m.trigger == trigger)
}

fn has_rule(c: &Configs, trigger: &str, replace: &str) -> bool {
    c.matches.iter().any(|m| m.trigger == trigger && m.replace == replace)
}

const USER: &str = "/home/u/.config/espanso/user/";
const PACKAGES: &str = "/home/u/.local/share/espanso/packages/";

fn user(file: &str) -> String {
    format!("{}{}", USER, file)
}

fn package(name: &str, file: &str) -> String {
    format!("{}{}/{}", PACKAGES, name, file)
}

fn lol_yess() -> ConfigIndex {
    index(&[(":lol", "LOL"), (":yess", "Bob")])
}

fn hasta() -> ConfigIndex {
    index(&[("hasta", "Hasta la vista")])
}

#[test]
fn test_config_set_default_content_should_work_correctly() {
    let set = index(&[]).resolve();
    assert_eq!(set.default.name, "default");
    assert!(set.specific.is_empty());
}

#[test]
fn test_config_set_specific_file_with_reserved_fields() {
    let mut idx = index(&[]);
    let path = user("specific.yml");
    let mut c = doc(None, None, &[]);
    c.config_caching_interval = 10000;
    let r = idx.register(&path, c);
    assert!(r.is_err());
    assert_eq!(r.unwrap_err(), ConfigLoadError::InvalidParameter(path));
}

#[test]
fn test_config_set_specific_file_missing_name_auto_generated() {
    let mut idx = index(&[]);
    let path = user("specific.yml");
    let mut c = doc(None, None, &[]);
    c.backend = BackendType::Clipboard;
    assert!(idx.register(&path, c).is_ok());
    let set = idx.resolve();
    assert_eq!(set.specific[0].name, path);
}

#[test]
fn test_config_set_specific_file_duplicate_name() {
    let mut idx = index(&[]);
    assert!(idx.register(&user("specific.yml"), doc(Some("specific1"), None, &[])).is_ok());
    let second = user("specific2.yml");
    let r = idx.register(&second, doc(Some("specific1"), None, &[]));
    assert!(r.is_err());
    assert!(matches!(r.unwrap_err(), ConfigLoadError::NameDuplicate(_)));
}

#[test]
fn duplicate_name_reports_the_second_path() {
    let mut idx = index(&[]);
    assert!(idx.register(&user("specific.yml"), doc(Some("specific1"), None, &[])).is_ok());
    let second = user("specific2.yml");
    let r = idx.register(&second, doc(Some("specific1"), None, &[]));
    assert_eq!(r, Err(ConfigLoadError::NameDuplicate(second)));
}

#[test]
fn reserved_field_is_reported_before_a_duplicate_name() {
    let mut idx = index(&[]);
    assert!(idx.register(&user("a.yml"), doc(Some("same"), None, &[])).is_ok());
    let path = user("b.yml");
    let mut c = doc(Some("same"), None, &[]);
    c.backspace_limit = 10;
    assert_eq!(idx.register(&path, c), Err(ConfigLoadError::InvalidParameter(path.clone())));
}

#[test]
fn refused_document_leaves_the_index_unchanged() {
    let mut idx = index(&[("a", "1")]);
    let mut bad = doc(Some("bad"), None, &[("b", "2")]);
    bad.toggle_interval = 1;
    assert!(idx.register(&user("bad.yml"), bad).is_err());
    assert!(idx.register(&user("good.yml"), doc(Some("bad"), None, &[])).is_ok());
    let set = idx.resolve();
    assert_eq!(set.specific.len(), 1);
    assert_eq!(set.specific[0].name, "bad");
}

#[test]
fn test_user_defined_config_set_merge_with_parent_matches() {
    let mut idx = lol_yess();
    idx.register(&user("specific1.yml"), doc(Some("specific1"), None, &[("hello", "newstring")]))
        .unwrap();
    let set = idx.resolve();
    assert_eq!(set.default.matches.len(), 2);
    assert_eq!(set.specific[0].matches.len(), 3);
    assert!(has(&set.specific[0], "hello"));
    assert!(has(&set.specific[0], ":lol"));
    assert!(has(&set.specific[0], ":yess"));
}

#[test]
fn unnamed_root_gets_default_rules() {
    let mut idx = lol_yess();
    let path = user("specific.yml");
    idx.register(&path, doc(None, None, &[("hello", "newstring")])).unwrap();
    let set = idx.resolve();
    assert_eq!(set.specific.len(), 1);
    assert_eq!(set.specific[0].name, path);
    assert_eq!(set.specific[0].matches.len(), 3);
    assert!(has(&set.specific[0], "hello"));
    assert!(has(&set.specific[0], ":lol"));
    assert!(has(&set.specific[0], ":yess"));
    assert_eq!(set.default.matches.len(), 2);
}

#[test]
fn test_user_defined_config_set_merge_with_parent_matches_child_priority() {
    let mut idx = lol_yess();
    idx.register(&user("specific2.yml"), doc(Some("specific1"), None, &[(":lol", "newstring")]))
        .unwrap();
    let set = idx.resolve();
    assert_eq!(set.default.matches.len(), 2);
    assert_eq!(set.specific[0].matches.len(), 2);
    assert!(has_rule(&set.specific[0], ":lol", "newstring"));
    assert!(has(&set.specific[0], ":yess"));
}

#[test]
fn test_user_defined_config_set_exclude_merge_with_parent_matches() {
    let mut idx = lol_yess();
    let mut c = doc(Some("specific1"), None, &[("hello", "newstring")]);
    c.exclude_default_matches = true;
    idx.register(&user("specific2.yml"), c).unwrap();
    let set = idx.resolve();
    assert_eq!(set.default.matches.len(), 2);
    assert_eq!(set.specific[0].matches.len(), 1);
    assert!(has_rule(&set.specific[0], "hello", "newstring"));
}

#[test]
fn test_only_yaml_files_are_loaded_from_config() {
    let mut idx = lol_yess();
    let mut c = doc(Some("specific1"), None, &[("hello", "newstring")]);
    c.exclude_default_matches = true;
    if is_config_extension("zzz") {
        idx.register(&user("specific.zzz"), c).unwrap();
    }
    let set = idx.resolve();
    assert_eq!(set.specific.len(), 0);
}

#[test]
fn test_config_set_no_parent_configs_works_correctly() {
    let mut idx = index(&[]);
    idx.register(&user("specific.yml"), doc(Some("specific1"), None, &[])).unwrap();
    idx.register(&user("specific2.yml"), doc(Some("specific2"), None, &[])).unwrap();
    let set = idx.resolve();
    assert_eq!(set.specific.len(), 2);
    assert_eq!(set.specific[0].name, "specific1");
    assert_eq!(set.specific[1].name, "specific2");
}

#[test]
fn test_config_set_default_parent_works_correctly() {
    let mut idx = hasta();
    idx.register(&user("specific.yml"), doc(None, Some("default"), &[("hello", "world")]))
        .unwrap();
    let set = idx.resolve();
    assert_eq!(set.specific.len(), 0);
    assert_eq!(set.default.matches.len(), 2);
    assert!(has(&set.default, "hasta"));
    assert!(has(&set.default, "hello"));
}

#[test]
fn test_config_set_no_parent_should_not_merge() {
    let mut idx = hasta();
    idx.register(&user("specific.yml"), doc(None, None, &[("hello", "world")])).unwrap();
    let set = idx.resolve();
    assert_eq!(set.specific.len(), 1);
    assert_eq!(set.default.matches.len(), 1);
    assert!(has(&set.default, "hasta"));
    assert!(!has(&set.default, "hello"));
    assert!(has(&set.specific[0], "hello"));
}

#[test]
fn test_config_set_default_nested_parent_works_correctly() {
    let mut idx = hasta();
    idx.register(&user("specific.yml"), doc(Some("custom1"), Some("default"), &[("hello", "world")]))
        .unwrap();
    idx.register(&user("specific2.yml"), doc(None, Some("custom1"), &[("super", "mario")]))
        .unwrap();
    let set = idx.resolve();
    assert_eq!(set.specific.len(), 0);
    assert_eq!(set.default.matches.len(), 3);
    assert!(has(&set.default, "hasta"));
    assert!(has(&set.default, "hello"));
    assert!(has(&set.default, "super"));
}

#[test]
fn test_config_set_parent_merge_children_priority_should_be_higher() {
    let mut idx = hasta();
    idx.register(&user("specific.yml"), doc(None, Some("default"), &[("hasta", "world")]))
        .unwrap();
    let set = idx.resolve();
    assert_eq!(set.specific.len(), 0);
    assert_eq!(set.default.matches.len(), 1);
    assert!(has_rule(&set.default, "hasta", "world"));
}

#[test]
fn grandchild_rule_wins_over_every_ancestor() {
    let mut idx = hasta();
    idx.register(&user("a.yml"), doc(Some("custom1"), Some("default"), &[("hasta", "child")]))
        .unwrap();
    idx.register(&user("b.yml"), doc(None, Some("custom1"), &[("hasta", "grandchild")])).unwrap();
    let set = idx.resolve();
    assert_eq!(set.default.matches.len(), 1);
    assert!(has_rule(&set.default, "hasta", "grandchild"));
    assert_eq!(set.default.matches.iter().filter(|m| m.trigger == "hasta").count(), 1);
}

#[test]
fn test_config_set_package_configs_default_merge() {
    let mut idx = hasta();
    idx.register(&package("package1", "package.yml"), doc(None, Some("default"), &[("harry", "potter")]))
        .unwrap();
    let set = idx.resolve();
    assert_eq!(set.specific.len(), 0);
    assert_eq!(set.default.matches.len(), 2);
    assert!(has(&set.default, "hasta"));
    assert!(has(&set.default, "harry"));
}

#[test]
fn test_config_set_package_configs_without_merge() {
    let mut idx = hasta();
    idx.register(&package("package1", "package.yml"), doc(None, None, &[("harry", "potter")]))
        .unwrap();
    let set = idx.resolve();
    assert_eq!(set.specific.len(), 1);
    assert_eq!(set.default.matches.len(), 1);
    assert!(has(&set.default, "hasta"));
    assert!(has(&set.specific[0], "harry"));
}

#[test]
fn test_config_set_package_configs_multiple_files() {
    let mut idx = hasta();
    idx.register(&package("package1", "package.yml"), doc(Some("package1"), None, &[("harry", "potter")]))
        .unwrap();
    idx.register(&package("package1", "addon.yml"), doc(None, Some("package1"), &[("ron", "weasley")]))
        .unwrap();
    let set = idx.resolve();
    assert_eq!(set.specific.len(), 1);
    assert_eq!(set.default.matches.len(), 1);
    assert!(has(&set.default, "hasta"));
    assert!(has(&set.specific[0], "harry"));
    assert!(has(&set.specific[0], "ron"));
}

#[test]
fn unresolved_parent_is_never_attached() {
    let mut idx = hasta();
    idx.register(&user("orphan.yml"), doc(None, Some("nobody"), &[("lost", "rule")])).unwrap();
    let set = idx.resolve();
    assert!(set.specific.is_empty());
    assert_eq!(set.default.matches.len(), 1);
    assert!(!has(&set.default, "lost"));
}

#[test]
fn parent_cycle_terminates_and_is_left_out() {
    let mut idx = hasta();
    idx.register(&user("x.yml"), doc(Some("x"), Some("y"), &[("c", "3")])).unwrap();
    idx.register(&user("y.yml"), doc(Some("y"), Some("x"), &[("d", "4")])).unwrap();
    idx.register(&user("z.yml"), doc(Some("z"), Some("z"), &[("e", "5")])).unwrap();
    let set = idx.resolve();
    assert_eq!(set.default.matches.len(), 1);
    assert!(has_rule(&set.default, "hasta", "Hasta la vista"));
    assert!(set.specific.is_empty());
}

#[test]
fn name_of_the_default_document_is_taken() {
    let mut idx = ConfigIndex::new(doc(Some("foo"), None, &[("a", "1")]));
    let path = user("loop.yml");
    let r = idx.register(&path, doc(Some("foo"), Some("foo"), &[("b", "2")]));
    assert_eq!(r, Err(ConfigLoadError::NameDuplicate(path)));
    let set = idx.resolve();
    assert_eq!(set.default.matches.len(), 1);
    assert!(has_rule(&set.default, "a", "1"));
}

#[test]
fn document_named_default_takes_its_path() {
    let mut idx = index(&[]);
    let path = user("named_default.yml");
    assert!(idx.register(&path, doc(Some("default"), None, &[])).is_ok());
    assert_eq!(idx.resolve().specific[0].name, path);
}

#[test]
fn resolution_is_deterministic() {
    let build = || {
        let mut idx = lol_yess();
        idx.register(&user("a.yml"), doc(Some("a"), None, &[("x", "1"), (":lol", "a")])).unwrap();
        idx.register(&user("b.yml"), doc(None, Some("a"), &[("y", "2")])).unwrap();
        idx.resolve()
    };
    let dump = |s: &ConfigSet| -> Vec<(String, Vec<(String, String)>)> {
        std::iter::once(&s.default)
            .chain(s.specific.iter())
            .map(|c| {
                (
                    c.name.clone(),
                    c.matches.iter().map(|m| (m.trigger.clone(), m.replace.clone())).collect(),
                )
            })
            .collect()
    };
    let first = dump(&build());
    let second = dump(&build());
    assert_eq!(first, second);
    assert_eq!(
        first[1].1,
        vec![
            ("y".to_owned(), "2".to_owned()),
            ("x".to_owned(), "1".to_owned()),
            (":lol".to_owned(), "a".to_owned()),
            (":yess".to_owned(), "Bob".to_owned()),
        ]
    );
}

#[test]
fn sibling_children_merge_in_registration_order() {
    let mut idx = index(&[]);
    idx.register(&user("a.yml"), doc(None, Some("default"), &[("t", "first")])).unwrap();
    idx.register(&user("b.yml"), doc(None, Some("default"), &[("t", "second")])).unwrap();
    let set = idx.resolve();
    assert_eq!(set.default.matches.len(), 1);
    assert!(has_rule(&set.default, "t", "second"));
}

#[test]
fn specific_tree_is_reduced_before_default_injection() {
    let mut idx = lol_yess();
    idx.register(&user("a.yml"), doc(Some("a"), None, &[("x", "1")])).unwrap();
    let mut child = doc(None, Some("a"), &[(":yess", "child")]);
    child.exclude_default_matches = true;
    idx.register(&user("b.yml"), child).unwrap();
    let set = idx.resolve();
    assert_eq!(set.specific.len(), 1);
    assert_eq!(set.specific[0].matches.len(), 3);
    assert!(has_rule(&set.specific[0], ":yess", "child"));
    assert!(has_rule(&set.specific[0], ":lol", "LOL"));
    assert!(!set.specific[0].exclude_default_matches);
}

#[test]
fn error_descriptions_and_messages() {
    let p = "/x/a.yml".to_owned();
    assert_eq!(ConfigLoadError::FileNotFound.description(), "File not found");
    assert_eq!(ConfigLoadError::UnableToReadFile.to_string(), "Unable to read config file");
    assert_eq!(ConfigLoadError::InvalidConfigDirectory.to_string(), "Invalid config directory");
    assert_eq!(
        ConfigLoadError::UnableToCreateDefaultConfig.description(),
        "Could not generate default config file"
    );
    assert_eq!(
        ConfigLoadError::InvalidYAML(p.clone(), "bad".to_owned()).to_string(),
        "Error parsing YAML file '/x/a.yml', invalid syntax: bad"
    );
    assert_eq!(
        ConfigLoadError::InvalidYAML(p.clone(), "bad".to_owned()).description(),
        "Error parsing YAML file, invalid syntax"
    );
    assert_eq!(
        ConfigLoadError::InvalidParameter(p.clone()).to_string(),
        "Invalid parameter in '/x/a.yml', use of reserved parameters in used defined configs is not permitted"
    );
    assert_eq!(
        ConfigLoadError::NameDuplicate(p.clone()).to_string(),
        "Found duplicate 'name' in '/x/a.yml', please use different names"
    );
    assert_eq!(
        ConfigLoadError::NameDuplicate(p).description(),
        "Found duplicate 'name' in some configurations, please use different names"
    );
    assert_ne!(ConfigLoadError::FileNotFound, ConfigLoadError::UnableToReadFile);
}

#[test]
fn reduce_configs_folds_descendants_depth_first() {
    let root = doc(Some("root"), None, &[("a", "root a"), ("b", "root b")]);
    let children = vec![
        doc(Some("child"), Some("root"), &[("b", "child b")]),
        doc(Some("grandchild"), Some("child"), &[("c", "grandchild c"), ("b", "grandchild b")]),
        doc(Some("other"), Some("elsewhere"), &[("a", "other a")]),
    ];
    let reduced = ConfigSet::reduce_configs(root, &children);
    let got: Vec<(&str, &str)> =
        reduced.matches.iter().map(|m| (m.trigger.as_str(), m.replace.as_str())).collect();
    assert_eq!(got, vec![("c", "grandchild c"), ("b", "grandchild b"), ("a", "root a")]);
    assert_eq!(reduced.name, "root");
}
