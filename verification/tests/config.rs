use ichigo::config::{
    dir_for, global_config_path, global_dir, is_chain_by_key, is_chain_text, list_requests, local_config_path, local_dir,
    parents_below, path_join, resolve_config_path, Keys, KeysFile, LayoutFile, PreferenceError, UserConfig,
    UserConfigFile, DEFAULT_SPLIT_PCT, MAX_SPLIT_PCT, MIN_SPLIT_PCT, USER_CONFIG_FILE,
};

/// The preferences file as written, read the way the program reads it.
fn file(toml: &str) -> UserConfigFile {
    let table: serde_json::Value = basic_toml::from_str(toml).expect("valid TOML");
    UserConfigFile {
        keys: KeysFile {
            insert_escape: table["keys"]["insert_escape"].as_str().map(str::to_string),
        },
        layout: LayoutFile {
            split_pct: table["layout"]["split_pct"].as_u64().map(|n| u16::try_from(n).unwrap()),
        },
    }
}

fn parse_config(toml: &str) -> Result<UserConfig, PreferenceError> {
    UserConfig::from_file(file(toml))
}

fn parse(toml: &str) -> Result<Keys, PreferenceError> {
    parse_config(toml).map(|c| c.keys)
}

#[test]
fn an_empty_user_config_gives_the_defaults() {
    assert_eq!(parse_config("").unwrap(), UserConfig::defaults());
    assert_eq!(parse_config("[keys]\n").unwrap(), UserConfig::defaults());
    assert_eq!(parse_config("[layout]\n").unwrap(), UserConfig::defaults());
}

#[test]
fn the_default_split_is_within_its_own_bounds() {
    let pct = UserConfig::defaults().split_pct;
    assert!((MIN_SPLIT_PCT..=MAX_SPLIT_PCT).contains(&pct));
    assert_eq!(pct, DEFAULT_SPLIT_PCT);
}

#[test]
fn a_split_percentage_is_read_from_the_file() {
    assert_eq!(parse_config("[layout]\nsplit_pct = 50\n").unwrap().split_pct, 50);
    // The bounds themselves are accepted.
    for pct in [MIN_SPLIT_PCT, MAX_SPLIT_PCT] {
        let toml = format!("[layout]\nsplit_pct = {pct}\n");
        assert_eq!(parse_config(&toml).unwrap().split_pct, pct);
    }
}

#[test]
fn an_out_of_range_split_is_refused_by_name() {
    for pct in [0, 1, MIN_SPLIT_PCT - 1, MAX_SPLIT_PCT + 1, 100, 1000] {
        let toml = format!("[layout]\nsplit_pct = {pct}\n");
        let err = parse_config(&toml).unwrap_err();
        assert!(
            err.message().contains("layout.split_pct must be between"),
            "{pct} gave: {}",
            err.message()
        );
        assert_eq!(err, PreferenceError::SplitOutOfRange(pct));
    }
    assert_eq!(
        parse_config("[layout]\nsplit_pct = 90\n").unwrap_err().message(),
        "layout.split_pct must be between 15 and 85 (got 90); it is the request list's share of the width as a percentage"
    );
}

#[test]
fn the_sections_do_not_disturb_each_other() {
    let c = parse_config("[keys]\ninsert_escape = \"jk\"\n").unwrap();
    assert_eq!(c.split_pct, DEFAULT_SPLIT_PCT);
    let c = parse_config("[layout]\nsplit_pct = 60\n").unwrap();
    assert_eq!(c.keys, Keys::default());
    let c = parse_config("[keys]\ninsert_escape = \"jk\"\n[layout]\nsplit_pct = 60\n").unwrap();
    assert_eq!(c.keys.insert_escape, Some(('j', 'k')));
    assert_eq!(c.split_pct, 60);
}

#[test]
fn a_two_key_sequence_is_accepted() {
    let keys = parse("[keys]\ninsert_escape = \"jk\"\n").unwrap();
    assert_eq!(keys.insert_escape, Some(('j', 'k')));
}

#[test]
fn a_sequence_of_the_wrong_length_is_refused_by_name() {
    for seq in ["j", "jkl", ""] {
        let err = parse(&format!("[keys]\ninsert_escape = {seq:?}\n")).unwrap_err();
        assert!(
            err.message().contains("exactly two characters"),
            "{seq:?} gave: {}",
            err.message()
        );
    }
}

#[test]
fn a_refused_sequence_is_shown_as_it_would_be_typed() {
    let err = parse("[keys]\ninsert_escape = \"a\\tb\"\n").unwrap_err();
    assert_eq!(
        err.message(),
        "keys.insert_escape must be exactly two characters (got \"a\\tb\"); omit the key to leave Esc as the only way out of insert mode"
    );
}

#[test]
fn multibyte_sequences_count_characters_not_bytes() {
    let keys = parse("[keys]\ninsert_escape = \"éø\"\n").unwrap();
    assert_eq!(keys.insert_escape, Some(('é', 'ø')));
}

#[test]
fn the_user_config_is_not_a_request_file() {
    assert!(!USER_CONFIG_FILE.ends_with(".yaml"));
    // A request actually named `config` writes beside it, not over it.
    let path = global_config_path("config", Some("/home/ada"));
    assert_ne!(std::path::Path::new(&path).file_name().unwrap(), USER_CONFIG_FILE);
}

#[test]
fn paths_join_as_the_standard_library_joins_them() {
    for base in ["", ".", "/", "/home/ada", "/home/ada/", "a/b"] {
        for rest in ["x", "x/y.yaml", "/abs", ""] {
            let expected = std::path::Path::new(base).join(rest);
            assert_eq!(path_join(base, rest), expected.to_str().unwrap(), "{base:?} {rest:?}");
        }
    }
}

#[test]
fn requests_live_in_the_project_or_under_the_home_directory() {
    assert_eq!(local_dir(), ".ichigo");
    assert_eq!(global_dir(Some("/home/ada")), "/home/ada/.config/ichigo");
    assert_eq!(global_dir(None), "./.config/ichigo");
    assert_eq!(dir_for(false, Some("/h")), ".ichigo");
    assert_eq!(dir_for(true, Some("/h")), "/h/.config/ichigo");
    assert_eq!(local_config_path("auth/login"), ".ichigo/auth/login.yaml");
    assert_eq!(global_config_path("ping", Some("/h")), "/h/.config/ichigo/ping.yaml");
}

#[test]
fn the_projects_request_wins_over_the_users() {
    let home = Some("/h");
    assert_eq!(resolve_config_path("x", home, true, true).unwrap(), ".ichigo/x.yaml");
    assert_eq!(resolve_config_path("x", home, false, true).unwrap(), "/h/.config/ichigo/x.yaml");
    assert_eq!(resolve_config_path("x", home, true, false).unwrap(), ".ichigo/x.yaml");
    assert!(resolve_config_path("x", home, false, false).is_none());
}

fn files(names: &[&str]) -> Vec<String> {
    names.iter().map(|n| n.to_string()).collect()
}

#[test]
fn requests_are_listed_by_name_and_local_ones_hide_global_ones() {
    let entries = list_requests(
        &files(&["ping.yaml", "auth/login.yaml", "notes.txt", ".yaml", "auth/.yaml"]),
        &files(&["ping.yaml", "config.toml", "status.yaml"]),
    );
    let shown: Vec<(&str, bool)> = entries.iter().map(|e| (e.name.as_str(), e.global)).collect();
    assert_eq!(shown, vec![("auth/login", false), ("ping", false), ("status", true)]);
}

#[test]
fn a_deletion_may_empty_the_folders_above_it_up_to_the_base() {
    assert_eq!(parents_below(".ichigo/a/b/c.yaml", ".ichigo"), vec![".ichigo/a/b", ".ichigo/a"]);
    assert!(parents_below(".ichigo/c.yaml", ".ichigo").is_empty());
    for path in [".ichigo/a//b/./c.yaml", ".ichigo//a/c.yaml", "./x", "/a/./b//", "/", "", "a", "..", "./.", "//a/b/.."] {
        let mut expected: Vec<String> = Vec::new();
        for dir in std::path::Path::new(path).ancestors().skip(1) {
            if dir == std::path::Path::new(".ichigo") {
                break;
            }
            expected.push(dir.to_str().expect("text").to_string());
        }
        assert_eq!(parents_below(path, ".ichigo"), expected, "{path}");
    }
    assert!(parents_below("a/b/c", "a//b/.").is_empty());
    assert_eq!(parents_below("a/b/c", "/a/b"), vec!["a/b", "a", ""]);
}

#[test]
fn a_text_with_steps_is_a_chain() {
    assert!(is_chain_text("name: x\nsteps:\n  - name: a\n"));
    assert!(is_chain_text("steps: []"));
    assert!(is_chain_text("name: x\r\nsteps:\r\n"));
    assert!(!is_chain_text("name: x\nmethod: GET\n"));
    assert!(!is_chain_text("name: x\ndescription: 'steps: one'\n"));
    assert!(!is_chain_text("query:\n  steps: 3\n"));
    assert!(!is_chain_text("steps:one\n"));
    // Whatever the style of the text.
    assert!(is_chain_text("{name: x, steps: []}"));
    assert!(is_chain_text("  name: x\n  steps: []\n"));
    assert!(!is_chain_text("{name: x, query: {steps: 1}}"));
    // Of a text that cannot be read the letters decide.
    assert!(is_chain_text("name: [\nsteps:\n"));
    assert!(!is_chain_text("name: [\n"));
    assert!(is_chain_by_key(Some(true), "") && !is_chain_by_key(Some(false), "steps:"));
    assert!(is_chain_by_key(None, "steps:") && !is_chain_by_key(None, "step:"));
}
