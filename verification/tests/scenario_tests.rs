use aka_lib::aka::{answer_query, marks_cache_dirty, sudo_wrap_from_runs, AKA, MAX_EXPANSION_STEPS};
use aka_lib::health::persistence_degraded;
use aka_lib::health::daemon_reply_is_healthy;
use aka_lib::protocol::DaemonResponse;
use aka_lib::store::restore_alias_names;
use aka_lib::cfg::alias::Alias;
use aka_lib::cfg::loader::Loader;
use aka_lib::cfg::spec::{add_alias_entry, Defaults, Spec};
use aka_lib::health::{execute_health_check, DaemonState, FreshConfig, HealthObservations};
use aka_lib::name_map::NameMap;
use aka_lib::store::{
    cache_applies, config_result, get_config_path, get_config_path_with_override, get_stored_hash, hash_config_content, merge_cache_with_config,
    store_hash, test_config, AliasCache,
};
use aka_lib::system::{CommandOutput, CommandRunner, FileSystem};
use std::collections::HashSet;

/// A system where the user's `which` finds every command under
/// `/usr/bin` and root's finds none.
struct UserBin;

impl CommandRunner for UserBin {
    fn run(&self, program: &str, args: &[&str]) -> Result<CommandOutput, std::io::Error> {
        let found = program == "which";
        let stdout = if found { format!("/usr/bin/{}\n", args[0]).into_bytes() } else { Vec::new() };
        Ok(CommandOutput { stdout, stderr: Vec::new(), success: found, code: Some(if found { 0 } else { 1 }) })
    }
}

/// A file system that holds exactly the listed paths.
struct Files(HashSet<String>);

impl Files {
    fn of(paths: &[&str]) -> Self {
        Files(paths.iter().map(|p| p.to_string()).collect())
    }
}

impl FileSystem for Files {
    fn read_to_string(&self, _path: &str) -> Result<String, std::io::Error> {
        Err(std::io::Error::new(std::io::ErrorKind::NotFound, "none"))
    }
    fn write(&self, _path: &str, _contents: &[u8]) -> Result<(), std::io::Error> {
        Ok(())
    }
    fn path_exists(&self, path: &str) -> bool {
        self.0.contains(path)
    }
    fn create_dir_all(&self, _path: &str) -> Result<(), std::io::Error> {
        Ok(())
    }
    fn is_file(&self, path: &str) -> bool {
        self.0.contains(path)
    }
    fn is_dir(&self, _path: &str) -> bool {
        false
    }
}

/// The engine for a configuration whose `aliases` section lists `entries`
/// (a bare value, or a value with its `space` and `global` flags).
fn setup_aka(eol: bool, entries: &[(&str, &str, bool, bool)]) -> AKA {
    let mut aliases: NameMap<Alias> = NameMap::new();
    for (key, value, space, global) in entries {
        let alias = Alias { name: String::new(), value: value.to_string(), space: *space, global: *global, count: 0 };
        add_alias_entry(&mut aliases, key, &alias);
    }
    let spec = Spec { defaults: Defaults { version: 1 }, aliases, lookups: NameMap::new() };
    AKA::new(eol, "/home/u".to_string(), spec, "hash".to_string(), None)
}

fn replace(aka: &mut AKA, line: &str) -> String {
    aka.replace(line, &UserBin).unwrap()
}

#[test]
fn test_simple_substitution() {
    let mut aka = setup_aka(false, &[("cat", "bat -p", true, false)]);
    assert_eq!(replace(&mut aka, "cat file.txt"), "bat -p file.txt ");
}

#[test]
fn test_no_exclamation_mark() {
    let mut aka = setup_aka(false, &[("cat", "bat -p", true, false)]);
    assert_eq!(replace(&mut aka, "cat /some/file"), "bat -p /some/file ");
}

#[test]
fn test_exclamation_mark_at_end() {
    let mut aka = setup_aka(true, &[("cat", "bat -p", true, false)]);
    assert_eq!(replace(&mut aka, "vim /some/file !"), "sudo $(which vim) /some/file ");
}

#[test]
fn test_exclamation_mark_with_alias() {
    let mut aka = setup_aka(true, &[("cat", "bat -p", true, false)]);
    assert_eq!(replace(&mut aka, "vim /some/file !cat"), "bat -p /some/file ");
}

#[test]
fn test_multiple_substitutions() {
    let mut aka = setup_aka(false, &[("cat", "bat -p", true, false), ("|c", "| xclip -sel clip", true, true)]);
    assert_eq!(replace(&mut aka, "cat file.txt |c && echo test"), "bat -p file.txt | xclip -sel clip && echo test ");
}

#[test]
fn test_exclamation_mark_handling() {
    let mut aka = setup_aka(true, &[("vim", "nvim", true, false)]);
    assert_eq!(replace(&mut aka, "vim file.txt !"), "sudo $(which nvim) file.txt ");
}

#[test]
fn test_quotes_handling() {
    let mut aka = setup_aka(false, &[("grep", "rg", true, false)]);
    assert_eq!(replace(&mut aka, "grep \"pattern\" file.txt"), "rg \"pattern\" file.txt ");
}

#[test]
fn test_sudo_handling() {
    let mut aka = setup_aka(true, &[("vim", "nvim", true, false)]);
    assert_eq!(replace(&mut aka, "vim file.txt !"), "sudo $(which nvim) file.txt ");
}

#[test]
fn test_variadic_alias_handling() {
    let mut aka = setup_aka(false, &[("git", "git --verbose", true, false)]);
    assert_eq!(replace(&mut aka, "git commit"), "git --verbose commit ");
}

#[test]
fn test_global_alias_handling() {
    let mut aka = setup_aka(false, &[("ls", "exa", true, false)]);
    assert_eq!(replace(&mut aka, "ls -l"), "exa -l ");
}

#[test]
fn test_special_characters_handling() {
    let mut aka = setup_aka(false, &[("ls", "exa", true, false)]);
    assert_eq!(replace(&mut aka, "ls -l | grep pattern"), "exa -l | grep pattern ");
}

#[test]
fn test_error_scenario() {
    let mut aka = setup_aka(false, &[("cat", "bat -p", true, false)]);
    assert_eq!(replace(&mut aka, "undefined_alias file.txt"), "");
}

#[test]
fn test_no_substitution() {
    let mut aka = setup_aka(false, &[("ls", "exa", true, false)]);
    assert_eq!(replace(&mut aka, "cat file.txt"), "");
}

#[test]
fn test_spec_deserialize_alias_map_success() {
    let aka = setup_aka(false, &[("alias1", "echo Hello World", true, false)]);
    assert_eq!(aka.spec.defaults.version, 1);
    assert_eq!(aka.spec.aliases.len(), 1);
    assert_eq!(aka.spec.aliases.get("alias1").unwrap().value, "echo Hello World");
}

#[test]
fn test_loader_load_success() {
    let aka = setup_aka(false, &[("alias1", "echo Hello World", true, false)]);
    assert!(Loader::new().validate_config(&aka.spec, "\"/tmp/aka.yml\"").is_ok());
    assert_eq!(
        aka.spec.aliases.get("alias1").unwrap(),
        &Alias { name: "alias1".to_string(), value: "echo Hello World".to_string(), space: true, global: false, count: 0 }
    );
    assert_eq!(aka.spec.defaults.version, 1);
}

/// What the health check sees for a configuration named on the command
/// line with no daemon running: whether its file could be read, and how a
/// fresh load of it went.
fn custom_config_seen(readable: bool, fresh: FreshConfig) -> HealthObservations {
    HealthObservations {
        daemon: DaemonState::NoSocket,
        custom_config: true,
        config_found: true,
        current_hash: if readable { Some("0123456789abcdef".to_string()) } else { None },
        stored_hash: None,
        fresh,
    }
}

#[test]
fn test_health_check_valid_config() {
    assert_eq!(execute_health_check(&custom_config_seen(true, FreshConfig::Valid { alias_count: 2 })), 0);
}

#[test]
fn test_health_check_nonexistent_config() {
    assert_eq!(execute_health_check(&custom_config_seen(false, FreshConfig::Invalid)), 1);
}

#[test]
fn test_health_check_invalid_config() {
    assert_eq!(execute_health_check(&custom_config_seen(true, FreshConfig::Invalid)), 2);
}

#[test]
fn test_health_check_empty_aliases() {
    assert_eq!(execute_health_check(&custom_config_seen(true, FreshConfig::Valid { alias_count: 0 })), 3);
}

#[test]
fn test_execute_health_check_no_config() {
    let seen = HealthObservations {
        daemon: DaemonState::NoSocket,
        custom_config: false,
        config_found: false,
        current_hash: None,
        stored_hash: None,
        fresh: FreshConfig::Invalid,
    };
    let code = execute_health_check(&seen);
    assert!(code == 0 || code == 1, "Expected return code 0 or 1, got {}", code);
}

fn default_config_seen(fresh: FreshConfig) -> HealthObservations {
    HealthObservations {
        daemon: DaemonState::NoSocket,
        custom_config: false,
        config_found: true,
        current_hash: Some(hash_config_content(b"aliases:\n  ls: eza\n  cat: bat")),
        stored_hash: None,
        fresh,
    }
}

#[test]
fn test_execute_health_check_with_config() {
    assert_eq!(execute_health_check(&default_config_seen(FreshConfig::Valid { alias_count: 2 })), 0);
}

#[test]
fn test_execute_health_check_invalid_config() {
    let code = execute_health_check(&default_config_seen(FreshConfig::Invalid));
    assert!(code == 0 || code == 2, "Expected return code 0 or 2, got {}", code);
}

#[test]
fn test_execute_health_check_no_aliases() {
    let code = execute_health_check(&default_config_seen(FreshConfig::Valid { alias_count: 0 }));
    assert!(code == 0 || code == 2 || code == 3, "Expected return code 0, 2, or 3, got {}", code);
}

#[test]
fn main_test_hash_config_file() {
    let content = b"\n        defaults:\n            version: 1\n        aliases:\n            ls: \"exa\"\n        \n";
    let hash1 = hash_config_content(content);
    let hash2 = hash_config_content(content);
    assert_eq!(hash1, hash2);
    assert_eq!(hash1.len(), 16);
}

#[test]
fn test_hash_different_files() {
    let hash1 = hash_config_content(b"defaults:\n    version: 1\naliases:\n    ls: \"exa\"\n");
    let hash2 = hash_config_content(b"defaults:\n    version: 1\naliases:\n    ls: \"ls -la\"\n");
    assert_ne!(hash1, hash2);
}

#[test]
fn test_xxhash_consistency() {
    let test_data = b"test data for hashing";
    assert_eq!(hash_config_content(test_data), hash_config_content(test_data));
    assert_ne!(hash_config_content(test_data), hash_config_content(b"different test data"));
}

#[test]
fn lib_test_hash_config_file() {
    let hash1 = hash_config_content(b"aliases:\n  ls: eza");
    let hash2 = hash_config_content(b"aliases:\n  ls: eza");
    assert_eq!(hash1, hash2);
    let hash3 = hash_config_content(b"aliases:\n  ls: ls -la");
    assert_ne!(hash1, hash3);
}

#[test]
fn test_hash_consistency_for_same_content() {
    assert_eq!(hash_config_content(b"aliases:\n  ls: eza"), hash_config_content(b"aliases:\n  ls: eza"));
}

#[test]
fn test_calculate_config_hash() {
    let hash = hash_config_content(b"aliases:\n  ls: eza");
    assert!(!hash.is_empty());
    assert_eq!(hash.len(), 16);
}

#[test]
fn test_get_config_path_nonexistent_home() {
    assert!(get_config_path(&Files::of(&[]), "/nonexistent/fake/home").is_err());
}

#[test]
fn test_get_config_path_multiple_config_locations() {
    let fs = Files::of(&["/h/.config/aka/aka.yml", "/h/.aka.yml"]);
    assert_eq!(get_config_path(&fs, "/h").unwrap(), "/h/.config/aka/aka.yml");
}

#[test]
fn test_get_config_path_yaml_vs_yml_precedence() {
    let fs = Files::of(&["/h/.config/aka/aka.yml", "/h/.config/aka/aka.yaml"]);
    assert_eq!(get_config_path(&fs, "/h").unwrap(), "/h/.config/aka/aka.yml");
}

#[test]
fn test_get_config_path_fallback_to_home_directory() {
    let fs = Files::of(&["/h/aka.yaml"]);
    assert_eq!(get_config_path(&fs, "/h").unwrap(), "/h/aka.yaml");
}

#[test]
fn test_get_config_path_hidden_file_precedence() {
    let fs = Files::of(&["/h/aka.yml", "/h/.aka.yml"]);
    assert_eq!(get_config_path(&fs, "/h").unwrap(), "/h/aka.yml");
}

#[test]
fn test_test_config_exists() {
    assert!(test_config(&Files::of(&["/t/test_config.yml"]), "/t/test_config.yml").is_ok());
}

#[test]
fn test_test_config_nonexistent() {
    let result = test_config(&Files::of(&[]), "/nonexistent/config.yml");
    assert!(result.is_err());
    assert!(result.unwrap_err().contains("not found"));
}

#[test]
fn test_get_config_path_with_override_existing() {
    let fs = Files::of(&["/t/custom.yml"]);
    let result = get_config_path_with_override(&fs, "/t", &Some("/t/custom.yml".to_string()));
    assert_eq!(result.unwrap(), "/t/custom.yml");
}

#[test]
fn test_get_config_path_with_override_nonexistent() {
    let result = get_config_path_with_override(&Files::of(&[]), "/t", &Some("/nonexistent/custom.yml".to_string()));
    assert!(result.is_err());
}

#[test]
fn test_get_config_path_with_override_none() {
    let fs = Files::of(&["/t/.config/aka/aka.yml"]);
    assert!(get_config_path_with_override(&fs, "/t", &None).is_ok());
}

#[test]
fn test_store_hash_no_op() {
    assert!(store_hash("test_hash", "/tmp/home").is_ok());
}

#[test]
fn test_store_hash_no_op_returns_ok() {
    assert!(store_hash("test_hash", "/tmp/home").is_ok());
}

#[test]
fn test_get_stored_hash_no_cache() {
    let _ = get_stored_hash(&AliasCache::default());
    assert_eq!(get_stored_hash(&AliasCache::default()), None);
}

#[test]
fn test_get_stored_hash_with_cache() {
    let cache = AliasCache { hash: "stored_hash_value".to_string(), aliases: NameMap::new() };
    assert_eq!(get_stored_hash(&cache), Some("stored_hash_value".to_string()));
}

fn config_aliases(entries: &[(&str, &str)]) -> NameMap<Alias> {
    let mut m: NameMap<Alias> = NameMap::new();
    for (k, v) in entries {
        add_alias_entry(&mut m, k, &Alias::from_value_text(v));
    }
    m
}

fn old_cache(count: u64) -> AliasCache {
    let mut aliases = NameMap::new();
    aliases.insert(
        "ls".to_string(),
        Alias { name: "ls".to_string(), value: "old_value".to_string(), space: true, global: false, count },
    );
    AliasCache { hash: "old_hash".to_string(), aliases }
}

#[test]
fn test_merge_cache_preserves_counts() {
    let merged = merge_cache_with_config(&old_cache(42), "new_hash".to_string(), &config_aliases(&[("ls", "eza")]));
    assert_eq!(merged.aliases.get("ls").unwrap().count, 42);
    assert_eq!(merged.aliases.get("ls").unwrap().value, "eza");
}

#[test]
fn test_merge_cache_with_config_path_preserves() {
    let merged =
        merge_cache_with_config(&old_cache(100), "new_hash".to_string(), &config_aliases(&[("ls", "eza"), ("cat", "bat")]));
    assert_eq!(merged.aliases.get("ls").unwrap().count, 100);
    assert_eq!(merged.aliases.get("ls").unwrap().value, "eza");
    assert_eq!(merged.hash, "new_hash");
}

#[test]
fn untouched_line_counts_nothing() {
    let mut aka = setup_aka(false, &[("ls", "exa", true, false)]);
    assert_eq!(replace(&mut aka, "cat file.txt"), "");
    assert_eq!(aka.spec.aliases.get("ls").unwrap().count, 0);
    assert_eq!(replace(&mut aka, "ls"), "exa ");
    assert_eq!(aka.spec.aliases.get("ls").unwrap().count, 1);
}

#[test]
fn replace_within_refuses_an_unending_line_and_changes_nothing() {
    let mut aka = setup_aka(false, &[("g", "x g", true, true)]);
    assert!(aka.replace_within("g", aka_lib::aka::ProcessingMode::Direct, &UserBin, 1000).is_none());
    assert_eq!(aka.spec.aliases.get("g").unwrap().count, 0);
    let mut aka = setup_aka(false, &[("ls", "exa", true, false)]);
    let r = aka.replace_within("ls -l", aka_lib::aka::ProcessingMode::Direct, &UserBin, 1000);
    assert_eq!(r, Some(Ok("exa -l ".to_string())));
    assert_eq!(aka.spec.aliases.get("ls").unwrap().count, 1);
    let mut aka = setup_aka(false, &[("ls", "exa", true, false)]);
    assert!(aka.replace_within("ls -l", aka_lib::aka::ProcessingMode::Direct, &UserBin, 1).is_none());
    assert_eq!(aka.spec.aliases.get("ls").unwrap().count, 0);
}

#[test]
fn daemon_answers_queries_and_marks_counts_for_writing() {
    let mut aka = setup_aka(false, &[("ls", "exa", true, false), ("g", "x g", true, true)]);
    match answer_query(&mut aka, "ls", false, &UserBin, MAX_EXPANSION_STEPS) {
        (DaemonResponse::Success { data }, dirty) => {
            assert_eq!(data, "exa ");
            assert!(dirty);
        }
        other => panic!("unexpected {other:?}"),
    }
    match answer_query(&mut aka, "cat x", true, &UserBin, MAX_EXPANSION_STEPS) {
        (DaemonResponse::Success { data }, dirty) => {
            assert_eq!(data, "");
            assert!(!dirty);
        }
        other => panic!("unexpected {other:?}"),
    }
    assert!(aka.eol);
    match answer_query(&mut aka, "g", false, &UserBin, 500) {
        (DaemonResponse::Error { message }, dirty) => {
            assert_eq!(message, "Alias expansion did not end");
            assert!(!dirty);
        }
        other => panic!("unexpected {other:?}"),
    }
}

#[test]
fn cache_aliases_without_names_take_their_keys() {
    let mut m: NameMap<Alias> = NameMap::new();
    m.insert("ls".to_string(), Alias { name: String::new(), value: "eza".to_string(), space: true, global: false, count: 5 });
    m.insert("cat".to_string(), Alias { name: "cat".to_string(), value: "bat".to_string(), space: true, global: false, count: 1 });
    let r = restore_alias_names(&m);
    assert_eq!(r.get("ls").unwrap().name, "ls");
    assert_eq!(r.get("ls").unwrap().count, 5);
    assert_eq!(r.get("cat").unwrap().name, "cat");
    assert_eq!(r.len(), 2);
}

#[test]
fn health_replies_are_read_from_json() {
    assert!(daemon_reply_is_healthy("{\"type\":\"Health\",\"status\":\"healthy:5:synced\"}\n"));
    assert!(daemon_reply_is_healthy("{\"type\":\"Health\",\"status\":\"healthy:5:synced:degraded-persistence\"}"));
    assert!(!daemon_reply_is_healthy("{\"type\":\"Health\",\"status\":\"starting\"}"));
    assert!(!daemon_reply_is_healthy("{\"type\":\"Error\",\"message\":\"x\"}"));
    assert!(!daemon_reply_is_healthy("not json"));
}

#[test]
fn sudo_wrapping_decided_from_the_runs() {
    let ok = || Ok(CommandOutput { stdout: b"/usr/bin/vim\n".to_vec(), stderr: Vec::new(), success: true, code: Some(0) });
    let no = || Ok(CommandOutput { stdout: Vec::new(), stderr: Vec::new(), success: false, code: Some(1) });
    assert!(sudo_wrap_from_runs("vim", &ok(), &no()));
    assert!(!sudo_wrap_from_runs("vim", &ok(), &ok()));
    assert!(!sudo_wrap_from_runs("vim", &no(), &no()));
    assert!(!sudo_wrap_from_runs("vim -x", &ok(), &no()));
    assert!(!sudo_wrap_from_runs("$(which vim)", &ok(), &no()));
}

#[test]
fn a_word_ending_in_bang_is_split_again_while_expanding() {
    let mut aka = setup_aka(false, &[("!", "NOT", true, true)]);
    assert_eq!(replace(&mut aka, "echo ab! x"), "echo ab NOT x ");
}

#[test]
fn config_result_follows_presence() {
    assert_eq!(config_result("/c.yml", true), Ok("/c.yml".to_string()));
    assert_eq!(config_result("/c.yml", false), Err("config \"/c.yml\" not found!".to_string()));
}

#[test]
fn only_the_default_configuration_uses_the_cache() {
    assert!(cache_applies("/h/aka.yml", &Some("/h/aka.yml".to_string())));
    assert!(!cache_applies("/x/custom.yml", &Some("/h/aka.yml".to_string())));
    assert!(!cache_applies("/h/aka.yml", &None));
}

#[test]
fn persistence_degrades_after_five_failures() {
    assert!(!persistence_degraded(4));
    assert!(persistence_degraded(5));
    assert!(persistence_degraded(9));
}

#[test]
fn non_empty_answers_mark_the_cache() {
    assert!(marks_cache_dirty(&Ok("eza ".to_string())));
    assert!(!marks_cache_dirty(&Ok(String::new())));
    assert!(!marks_cache_dirty(&Err("bad".to_string())));
}
