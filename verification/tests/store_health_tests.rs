use aka_lib::cfg::alias::Alias;
use aka_lib::health::{daemon_status_is_healthy, execute_health_check, health_status_text, DaemonState, FreshConfig, HealthObservations};
use aka_lib::name_map::NameMap;
use aka_lib::error::AkaError;
use aka_lib::store::{
    choose_config, choose_override, config_candidate_paths, get_config_path, get_config_path_with_override, get_stored_hash, hash_config_content,
    hex16, merge_cache_with_config, quote_path, store_hash, sync_cache_with_config, test_config, AliasCache,
};
use aka_lib::system::FileSystem;
use std::collections::HashSet;

/// A file system that holds exactly the listed paths.
struct Paths(HashSet<String>);

impl Paths {
    fn of(paths: &[&str]) -> Self {
        Paths(paths.iter().map(|p| p.to_string()).collect())
    }
}

impl FileSystem for Paths {
    fn read_to_string(&self, _path: &str) -> Result<String, std::io::Error> {
        Err(std::io::Error::new(std::io::ErrorKind::NotFound, "none"))
    }
    fn write(&self, _path: &str, _contents: &[u8]) -> Result<(), std::io::Error> {
        Ok(())
    }
    fn path_exists(&self, path: &str) -> bool {
        self.0.contains(path)
    }
    fn create_dir_all(&self, _path: &str) -> Result<(), std::io::Error> {
        Ok(())
    }
    fn is_file(&self, path: &str) -> bool {
        self.0.contains(path)
    }
    fn is_dir(&self, _path: &str) -> bool {
        false
    }
}

fn alias(name: &str, value: &str, count: u64) -> Alias {
    Alias { name: name.to_string(), value: value.to_string(), space: true, global: false, count }
}

#[test]
fn config_candidates_in_order() {
    assert_eq!(
        config_candidate_paths("/home/u"),
        vec![
            "/home/u/.config/aka/aka.yml",
            "/home/u/.config/aka/aka.yaml",
            "/home/u/aka.yml",
            "/home/u/aka.yaml",
            "/home/u/.aka.yml",
            "/home/u/.aka.yaml",
        ]
    );
    assert_eq!(config_candidate_paths("/home/u/")[0], "/home/u/.config/aka/aka.yml");
}

#[test]
fn get_config_path_prefers_the_config_directory() {
    let fs = Paths::of(&["/h/.aka.yml", "/h/.config/aka/aka.yaml"]);
    assert_eq!(get_config_path(&fs, "/h").unwrap(), "/h/.config/aka/aka.yaml");
    let fs = Paths::of(&["/h/aka.yaml", "/h/.aka.yml"]);
    assert_eq!(get_config_path(&fs, "/h").unwrap(), "/h/aka.yaml");
}

#[test]
fn get_config_path_reports_every_place_tried() {
    let err = get_config_path(&Paths::of(&[]), "/h").unwrap_err();
    match &err {
        AkaError::ConfigNotFound { attempted_paths, home_dir, custom_path } => {
            assert_eq!(attempted_paths.len(), 6);
            assert_eq!(home_dir, "/h");
            assert!(custom_path.is_none());
        }
        _ => panic!("expected ConfigNotFound"),
    }
    assert!(err.to_string().contains("mkdir -p /h/.config/aka"));
}

#[test]
fn override_path_is_used_when_present() {
    let fs = Paths::of(&["/x/custom.yml", "/h/aka.yml"]);
    assert_eq!(get_config_path_with_override(&fs, "/h", &Some("/x/custom.yml".to_string())).unwrap(), "/x/custom.yml");
    assert_eq!(get_config_path_with_override(&fs, "/h", &None).unwrap(), "/h/aka.yml");
    let err = get_config_path_with_override(&fs, "/h", &Some("/x/missing.yml".to_string())).unwrap_err();
    assert_eq!(err.to_string(), "Configuration file not found\n  Custom config path: /x/missing.yml\n");
}

#[test]
fn test_config_names_a_missing_file() {
    let fs = Paths::of(&["/a.yml"]);
    assert_eq!(test_config(&fs, "/a.yml").unwrap(), "/a.yml");
    assert_eq!(test_config(&fs, "/b.yml").unwrap_err(), "config \"/b.yml\" not found!");
    assert_eq!(quote_path("a\"b\\c"), "\"a\\\"b\\\\c\"");
}

#[test]
fn hashes_are_sixteen_hex_digits_of_xxh3() {
    assert_eq!(hex16(0), "0000000000000000");
    assert_eq!(hex16(0xabc), "0000000000000abc");
    assert_eq!(hex16(u64::MAX), "ffffffffffffffff");
    let content = b"aliases:\n  ls: eza\n";
    let expected = format!("{:016x}", xxhash_rust::xxh3::xxh3_64(content));
    assert_eq!(hash_config_content(content), expected);
    assert_ne!(hash_config_content(b"a"), hash_config_content(b"b"));
}

#[test]
fn merge_keeps_counts_of_known_aliases() {
    let mut old = AliasCache::default();
    old.hash = "old".to_string();
    old.aliases.insert("ls".to_string(), alias("ls", "eza", 7));
    old.aliases.insert("gone".to_string(), alias("gone", "x", 3));
    let mut config = NameMap::new();
    config.insert("ls".to_string(), alias("ls", "eza -la", 0));
    config.insert("new".to_string(), alias("new", "y", 0));
    let merged = merge_cache_with_config(&old, "new-hash".to_string(), &config);
    assert_eq!(merged.hash, "new-hash");
    assert_eq!(merged.aliases.len(), 2);
    assert_eq!(merged.aliases.get("ls").unwrap().count, 7);
    assert_eq!(merged.aliases.get("ls").unwrap().value, "eza -la");
    assert_eq!(merged.aliases.get("new").unwrap().count, 0);
    assert!(!merged.aliases.contains_key("gone"));
}

#[test]
fn sync_merges_only_when_the_fingerprint_changed() {
    let mut cache = AliasCache::default();
    cache.hash = "h1".to_string();
    cache.aliases.insert("ls".to_string(), alias("ls", "eza", 2));
    let config = NameMap::new();
    let (same, changed) = sync_cache_with_config(cache, "h1".to_string(), &config);
    assert!(!changed);
    assert_eq!(same.aliases.len(), 1);
    let (merged, changed) = sync_cache_with_config(same, "h2".to_string(), &config);
    assert!(changed);
    assert_eq!(merged.hash, "h2");
    assert!(merged.aliases.is_empty());
}

#[test]
fn stored_hash_of_a_cache() {
    assert_eq!(get_stored_hash(&AliasCache::default()), None);
    let mut cache = AliasCache::default();
    cache.hash = "abc".to_string();
    assert_eq!(get_stored_hash(&cache), Some("abc".to_string()));
    assert!(store_hash("abc", "/tmp").is_ok());
}

#[test]
fn daemon_status_lines() {
    assert!(daemon_status_is_healthy("healthy:5:synced"));
    assert!(daemon_status_is_healthy("healthy:0:stale"));
    assert!(!daemon_status_is_healthy("healthy:5:aliases:abc123:synced"));
    assert!(!daemon_status_is_healthy("healthy:x:synced"));
    assert!(!daemon_status_is_healthy("unhealthy:5:synced"));
    assert!(!daemon_status_is_healthy("healthy:5:fresh"));
    assert!(!daemon_status_is_healthy("healthy:4294967296:synced"));
}

fn observations(daemon: DaemonState) -> HealthObservations {
    HealthObservations {
        daemon,
        custom_config: false,
        config_found: true,
        current_hash: Some("h".to_string()),
        stored_hash: Some("h".to_string()),
        fresh: FreshConfig::Valid { alias_count: 2 },
    }
}

#[test]
fn health_check_codes() {
    assert_eq!(execute_health_check(&observations(DaemonState::Healthy)), 0);
    assert_eq!(execute_health_check(&observations(DaemonState::Dead)), 4);
    assert_eq!(execute_health_check(&observations(DaemonState::NoSocket)), 0);
    let mut o = observations(DaemonState::NoSocket);
    o.config_found = false;
    assert_eq!(execute_health_check(&o), 1);
    let mut o = observations(DaemonState::NoSocket);
    o.current_hash = None;
    assert_eq!(execute_health_check(&o), 1);
    let mut o = observations(DaemonState::NoSocket);
    o.stored_hash = Some("other".to_string());
    assert_eq!(execute_health_check(&o), 0);
    o.fresh = FreshConfig::Invalid;
    assert_eq!(execute_health_check(&o), 2);
    o.fresh = FreshConfig::Valid { alias_count: 0 };
    assert_eq!(execute_health_check(&o), 3);
    let mut o = observations(DaemonState::NoSocket);
    o.custom_config = true;
    o.fresh = FreshConfig::Invalid;
    assert_eq!(execute_health_check(&o), 2);
}

#[test]
fn daemon_health_status_lines() {
    assert_eq!(health_status_text(12, true, false), "healthy:12:synced");
    assert_eq!(health_status_text(0, false, false), "healthy:0:stale");
    assert_eq!(health_status_text(3, true, true), "healthy:3:synced:degraded-persistence");
}

#[test]
fn client_accepts_daemon_status_degraded_or_not() {
    assert!(daemon_status_is_healthy(&health_status_text(12, true, false)));
    assert!(daemon_status_is_healthy(&health_status_text(7, false, false)));
    assert!(daemon_status_is_healthy(&health_status_text(7, true, true)));
    assert!(daemon_status_is_healthy("healthy:5:synced:degraded-persistence"));
    assert!(!daemon_status_is_healthy("healthy:5:synced:other"));
    assert!(!daemon_status_is_healthy("healthy:5:synced:degraded-persistence:x"));
}

#[test]
fn choose_config_takes_the_first_present_candidate() {
    let c: Vec<String> = vec!["/a".into(), "/b".into(), "/c".into()];
    assert_eq!(choose_config(&c, &vec![false, true, true], "/h").unwrap(), "/b");
    assert_eq!(choose_config(&c, &vec![true, false, true], "/h").unwrap(), "/a");
    match choose_config(&c, &vec![false, false, false], "/h").unwrap_err() {
        AkaError::ConfigNotFound { attempted_paths, home_dir, custom_path } => {
            assert_eq!(attempted_paths, c);
            assert_eq!(home_dir, "/h");
            assert!(custom_path.is_none());
        }
        _ => panic!("expected ConfigNotFound"),
    }
}

#[test]
fn hidden_files_in_the_config_directory_are_not_candidates() {
    assert!(get_config_path(&Paths::of(&["/h/.config/aka/.aka.yml"]), "/h").is_err());
}

#[test]
fn choose_override_names_the_missing_path() {
    assert_eq!(choose_override(&"/x.yml".to_string(), true, "/h").unwrap(), "/x.yml");
    match choose_override(&"/x.yml".to_string(), false, "/h").unwrap_err() {
        AkaError::ConfigNotFound { attempted_paths, custom_path, .. } => {
            assert_eq!(attempted_paths, vec!["/x.yml".to_string()]);
            assert_eq!(custom_path, Some("/x.yml".to_string()));
        }
        _ => panic!("expected ConfigNotFound"),
    }
}
