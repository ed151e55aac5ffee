use safe_remove::cli::CliArgs;
use safe_remove::matching::{is_matchable_pattern, select_matches, FoundPath};
use safe_remove::platform::{cache_dir_in, get_variable_data_path, OS};
use safe_remove::workflow::RemoveOptions;

#[test]
fn data_path_per_platform() {
    assert_eq!(
        get_variable_data_path(OS::Windows),
        Ok("C:\\Users\\Username\\AppData\\Local\\SafeRemove".to_string())
    );
    assert_eq!(get_variable_data_path(OS::Linux), Ok("~/.cache/doughtnerd/safe_remove".to_string()));
    assert_eq!(get_variable_data_path(OS::MacOS), Ok("~/.cache/doughtnerd/safe_remove".to_string()));
    assert_eq!(get_variable_data_path(OS::Other), Err("Unsupported OS".to_string()));
}

#[test]
fn default_cache_dir_is_hidden_in_working_dir() {
    assert_eq!(cache_dir_in("/home/u"), "/home/u/.safe-remove-cache");
}

#[test]
fn dot_patterns_are_not_matched() {
    assert!(!is_matchable_pattern("."));
    assert!(!is_matchable_pattern(".."));
    assert!(is_matchable_pattern("*.txt"));
    assert!(is_matchable_pattern(".hidden"));
}

#[test]
fn matches_are_deduplicated_and_directories_filtered() {
    let found = vec![
        FoundPath { path: "/a".to_string(), is_dir: false },
        FoundPath { path: "/d".to_string(), is_dir: true },
        FoundPath { path: "/a".to_string(), is_dir: false },
        FoundPath { path: "/b".to_string(), is_dir: false },
    ];
    assert_eq!(select_matches(&found, false), vec!["/a".to_string(), "/b".to_string()]);
    assert_eq!(
        select_matches(&found, true),
        vec!["/a".to_string(), "/d".to_string(), "/b".to_string()]
    );
}

#[test]
fn remove_command_options() {
    let args = CliArgs::RemoveArgs {
        cache: true,
        recursive: false,
        directory: true,
        dry: false,
        files: vec!["x".to_string()],
    };
    assert_eq!(
        args.remove_options(),
        Some(RemoveOptions { use_cache: true, include_dirs: true, recursive: false })
    );
    let restore = CliArgs::RestoreArgs { dry: false, inputs: vec![] };
    assert_eq!(restore.remove_options(), None);
}
