use aka_lib::cfg::alias::Alias;
use aka_lib::cfg::loader::{check_config_file, Loader, MAX_CONFIG_SIZE};
use aka_lib::cfg::spec::{add_alias_entry, default_defaults, default_version, expand_lookup_table, Defaults, Spec};
use aka_lib::name_map::NameMap;

fn alias(name: &str, value: &str) -> Alias {
    Alias { name: name.to_string(), value: value.to_string(), space: true, global: false, count: 0 }
}

fn spec_with(aliases: &[(&str, &str)], lookups: &[(&str, &[(&str, &str)])]) -> Spec {
    let mut a = NameMap::new();
    for (n, v) in aliases {
        a.insert(n.to_string(), alias(n, v));
    }
    let mut l = NameMap::new();
    for (t, entries) in lookups {
        let mut table = NameMap::new();
        for (k, v) in entries.iter() {
            table.insert(k.to_string(), v.to_string());
        }
        l.insert(t.to_string(), table);
    }
    Spec { defaults: Defaults { version: 1 }, aliases: a, lookups: l }
}

#[test]
fn test_loader_default() {
    let loader1 = Loader::new();
    let loader2 = Loader::default();
    assert_eq!(loader1, loader2);
}

#[test]
fn test_loader_clone() {
    let loader1 = Loader::new();
    let loader2 = loader1.clone();
    assert_eq!(loader1, loader2);
}

#[test]
fn test_extract_lookup_references() {
    let loader = Loader::new();

    let refs = loader.extract_lookup_references("kubectl apply -f lookup:env[prod]");
    assert_eq!(refs, vec!["env"]);

    let refs = loader.extract_lookup_references("echo lookup:first[a] and lookup:second[b]");
    assert_eq!(refs, vec!["first", "second"]);

    let refs = loader.extract_lookup_references("echo hello world");
    assert!(refs.is_empty());

    let refs = loader.extract_lookup_references("lookup:incomplete");
    assert!(refs.is_empty());
}

#[test]
fn test_default_version_function() {
    assert_eq!(default_version(), 1);
}

#[test]
fn test_default_defaults_function() {
    let defaults = default_defaults();
    assert_eq!(defaults.version, 1);
}

#[test]
fn test_spec_clone() {
    let spec = spec_with(&[("test", "echo test")], &[]);
    let cloned = spec.clone();
    assert_eq!(spec, cloned);
}

#[test]
fn test_defaults_partial_eq() {
    let d1 = Defaults { version: 1 };
    let d2 = Defaults { version: 1 };
    let d3 = Defaults { version: 2 };
    assert_eq!(d1, d2);
    assert_ne!(d1, d3);
}

#[test]
fn test_spec_default() {
    let spec = Spec::default();
    let _ = spec.defaults.version;
    assert!(spec.aliases.is_empty());
    assert!(spec.lookups.is_empty());
}

#[test]
fn test_defaults_default() {
    let defaults = Defaults::default();
    let _ = defaults.version;
}

// Validation

#[test]
fn validate_config_accepts_a_sound_configuration() {
    let spec = spec_with(&[("k", "kubectl apply -f lookup:env[prod]")], &[("env", &[("prod", "p.yaml")])]);
    assert_eq!(Loader::new().validate_config(&spec, "\"/tmp/aka.yml\""), Ok(()));
}

#[test]
fn validate_aliases_requires_an_alias() {
    let spec = spec_with(&[], &[]);
    let err = Loader::new().validate_config(&spec, "\"/tmp/aka.yml\"").unwrap_err();
    assert_eq!(
        err,
        "Alias validation failed:\nNo aliases defined in \"/tmp/aka.yml\". Add at least one alias to make the configuration useful."
    );
}

#[test]
fn validate_aliases_reports_every_problem() {
    let spec = spec_with(&[("my alias", "echo"), ("-x", ""), ("", "e")], &[]);
    let err = Loader::new().validate_aliases(&spec.aliases, "\"f\"").unwrap_err();
    assert_eq!(
        err,
        "Alias validation failed:\n\
         Alias name 'my alias' contains spaces. Use underscores or hyphens instead.\n\
         Alias name '-x' starts with hyphen. This may conflict with command flags.\n\
         Alias '-x' has empty value. Provide a command or value for the alias.\n\
         Empty alias name found. Alias names must be non-empty."
    );
}

#[test]
fn validate_lookups_reports_empty_tables_keys_and_values() {
    let spec = spec_with(&[("a", "b")], &[("empty", &[]), ("t", &[("", "v"), ("k", "")])]);
    let err = Loader::new().validate_lookups(&spec.lookups).unwrap_err();
    assert_eq!(
        err,
        "Lookup validation failed:\n\
         Lookup 'empty' is empty. Add key-value pairs or remove it.\n\
         Empty key in lookup 't'. Lookup keys must be non-empty.\n\
         Empty value for key 'k' in lookup 't'. Lookup values must be non-empty."
    );
}

#[test]
fn validate_cross_references_finds_undefined_lookups() {
    let spec = spec_with(&[("d", "deploy lookup:region[prod]")], &[]);
    let err = Loader::new().validate_config(&spec, "\"f\"").unwrap_err();
    assert_eq!(
        err,
        "Cross-reference validation failed:\nAlias 'd' references undefined lookup 'region'. Define the lookup or fix the reference."
    );
}

#[test]
fn alias_keys_with_bars_define_several_names() {
    let mut aliases = NameMap::new();
    add_alias_entry(&mut aliases, "ll|la", &alias("", "ls -la"));
    assert!(aliases.contains_key("ll"));
    assert!(aliases.contains_key("la"));
    assert_eq!(aliases.get("la").unwrap().name, "la");
    let mut single = NameMap::new();
    add_alias_entry(&mut single, "|c", &alias("", "| xclip"));
    assert!(single.contains_key("|c"));
    assert_eq!(single.len(), 1);
}

#[test]
fn lookup_keys_with_bars_are_split() {
    let mut table = NameMap::new();
    table.insert("prod|apps".to_string(), "us-east-1".to_string());
    table.insert("staging|test".to_string(), "us-west-2".to_string());
    let expanded = expand_lookup_table(&table);
    assert_eq!(expanded.get("prod").unwrap(), "us-east-1");
    assert_eq!(expanded.get("apps").unwrap(), "us-east-1");
    assert_eq!(expanded.get("test").unwrap(), "us-west-2");
    assert_eq!(expanded.len(), 4);
}

#[test]
fn config_file_must_exist_be_regular_and_small() {
    assert_eq!(check_config_file(true, true, 100, "\"/c.yml\""), Ok(()));
    assert_eq!(check_config_file(true, true, MAX_CONFIG_SIZE, "x"), Ok(()));
    assert_eq!(
        check_config_file(false, false, 0, "\"/c.yml\""),
        Err("Config file does not exist: \"/c.yml\"".to_string())
    );
    assert_eq!(
        check_config_file(true, false, 0, "\"/etc\""),
        Err("Config path is not a regular file: \"/etc\"".to_string())
    );
    assert_eq!(
        check_config_file(true, true, 10485761, "\"/big.yml\""),
        Err("Config file too large: \"/big.yml\" (10485761 bytes, max 10485760 bytes)".to_string())
    );
}

// ---------------------------------------------------------------------------
// Configuration documents, written as the library's values: each alias key
// is added as the document's parser adds it, then the whole is validated.
// ---------------------------------------------------------------------------

const LABEL: &str = "\"/tmp/aka.yml\"";

fn full(value: &str, space: bool, global: bool) -> Alias {
    Alias { name: String::new(), value: value.to_string(), space, global, count: 0 }
}

fn text(value: &str) -> Alias {
    Alias::from_value_text(value)
}

fn document(version: i32, aliases: &[(&str, Alias)], lookups: &[(&str, &[(&str, &str)])]) -> Spec {
    let mut a: NameMap<Alias> = NameMap::new();
    for (key, alias) in aliases {
        add_alias_entry(&mut a, key, alias);
    }
    let mut l = NameMap::new();
    for (t, entries) in lookups {
        let mut table = NameMap::new();
        for (k, v) in entries.iter() {
            table.insert(k.to_string(), v.to_string());
        }
        l.insert(t.to_string(), table);
    }
    Spec { defaults: Defaults { version }, aliases: a, lookups: l }
}

fn load(aliases: &[(&str, Alias)], lookups: &[(&str, &[(&str, &str)])]) -> Result<Spec, String> {
    let spec = document(1, aliases, lookups);
    Loader::new().validate_config(&spec, LABEL)?;
    Ok(spec)
}

#[test]
fn test_load_success() {
    let spec = load(
        &[("alias1", full("echo Hello World", true, false))],
        &[("region", &[("prod|apps", "us-east-1"), ("staging|test|dev|ops", "us-west-2")])],
    )
    .unwrap();
    assert_eq!(spec.aliases.len(), 1);
    let a = spec.aliases.get("alias1").unwrap();
    assert_eq!(a, &Alias { name: "alias1".to_string(), value: "echo Hello World".to_string(), space: true, global: false, count: 0 });
    assert_eq!(spec.defaults.version, 1);
    assert_eq!(spec.lookups.get("region").unwrap().get("prod|apps").unwrap(), "us-east-1");
}

#[test]
fn test_load_nonexistent_file() {
    assert!(check_config_file(false, false, 0, "\"/path/to/nonexistent/file\"").is_err());
}

#[test]
fn test_validate_file_not_regular_file() {
    let r = check_config_file(true, false, 4096, "\"/tmp/dir\"");
    assert!(r.is_err());
    assert!(r.unwrap_err().contains("not a regular file"));
}

#[test]
fn test_validate_alias_with_empty_name() {
    let r = load(&[("", text("echo empty"))], &[]);
    assert!(r.is_err());
    assert!(r.unwrap_err().contains("Empty alias name"));
}

#[test]
fn test_validate_alias_with_spaces_in_name() {
    let r = load(&[("my alias", text("echo test"))], &[]);
    assert!(r.is_err());
    assert!(r.unwrap_err().contains("contains spaces"));
}

#[test]
fn test_validate_alias_starting_with_hyphen() {
    let r = load(&[("-myalias", text("echo test"))], &[]);
    assert!(r.is_err());
    assert!(r.unwrap_err().contains("starts with hyphen"));
}

#[test]
fn test_validate_alias_with_empty_value() {
    let r = load(&[("myalias", full("", true, false))], &[]);
    assert!(r.is_err());
    assert!(r.unwrap_err().contains("empty value"));
}

#[test]
fn test_validate_empty_lookup_name() {
    let r = load(&[("test", text("echo test"))], &[("", &[("key", "value")])]);
    assert!(r.is_err());
    assert!(r.unwrap_err().contains("Empty lookup name"));
}

#[test]
fn test_validate_empty_lookup_map() {
    let r = load(&[("test", text("echo test"))], &[("myLookup", &[])]);
    assert!(r.is_err());
    assert!(r.unwrap_err().contains("is empty"));
}

#[test]
fn test_validate_empty_lookup_key() {
    let r = load(&[("test", text("echo test"))], &[("myLookup", &[("", "value")])]);
    assert!(r.is_err());
    assert!(r.unwrap_err().contains("Empty key in lookup"));
}

#[test]
fn test_validate_empty_lookup_value() {
    let r = load(&[("test", text("echo test"))], &[("myLookup", &[("key", "")])]);
    assert!(r.is_err());
    assert!(r.unwrap_err().contains("Empty value for key"));
}

#[test]
fn test_validate_undefined_lookup_reference() {
    let r = load(&[("deploy", text("kubectl apply -f lookup:undefined[key]"))], &[]);
    assert!(r.is_err());
    assert!(r.unwrap_err().contains("undefined lookup"));
}

#[test]
fn test_validate_valid_lookup_reference() {
    let r = load(&[("deploy", text("kubectl apply -f lookup:env[prod]"))], &[("env", &[("prod", "production.yaml")])]);
    assert!(r.is_ok());
}

#[test]
fn test_load_with_usage_count_initialization() {
    let spec = load(&[("test", full("echo test", true, false))], &[]).unwrap();
    assert_eq!(spec.aliases.get("test").unwrap().count, 0);
}

#[test]
fn test_load_multiple_aliases() {
    let spec = load(
        &[("ls", text("eza -la")), ("cat", text("bat -p")), ("gc", text("git commit")), ("gp", text("git push"))],
        &[],
    )
    .unwrap();
    assert_eq!(spec.aliases.len(), 4);
    assert!(spec.aliases.contains_key("ls"));
    assert!(spec.aliases.contains_key("cat"));
    assert!(spec.aliases.contains_key("gc"));
    assert!(spec.aliases.contains_key("gp"));
}

#[test]
fn test_load_with_global_aliases() {
    let spec = load(&[("|c", full("| xclip -sel clip", true, true))], &[]).unwrap();
    assert!(spec.aliases.get("|c").unwrap().global);
}

#[test]
fn test_load_with_space_false() {
    let spec = load(&[("ping10", full("ping 10.10.10.", false, false))], &[]).unwrap();
    assert!(!spec.aliases.get("ping10").unwrap().space);
}

#[test]
fn test_load_with_complex_lookups() {
    let spec = load(
        &[("deploy", text("kubectl apply"))],
        &[("env", &[("prod", "production"), ("dev", "development")]), ("region", &[("east", "us-east-1"), ("west", "us-west-2")])],
    )
    .unwrap();
    assert_eq!(spec.lookups.len(), 2);
    assert_eq!(spec.lookups.get("env").unwrap().get("prod").unwrap(), "production");
    assert_eq!(spec.lookups.get("region").unwrap().get("east").unwrap(), "us-east-1");
}

#[test]
fn test_deserialize_alias_map_success() {
    let spec = document(
        1,
        &[("alias1", full("echo Hello World", true, false))],
        &[("region", &[("prod|apps", "us-east-1"), ("staging|test|dev|ops", "us-west-2")])],
    );
    assert_eq!(spec.defaults.version, 1);
    assert_eq!(spec.aliases.len(), 1);
    assert_eq!(spec.aliases.get("alias1").unwrap().value, "echo Hello World");
    assert_eq!(spec.lookups.get("region").unwrap().get("prod|apps").unwrap(), "us-east-1");
    assert_eq!(spec.lookups.get("region").unwrap().get("staging|test|dev|ops").unwrap(), "us-west-2");
}

#[test]
fn test_deserialize_empty_file() {
    let spec = document(default_defaults().version, &[], &[]);
    assert_eq!(spec.defaults.version, 1);
    assert_eq!(spec.aliases.len(), 0);
    assert!(spec.lookups.is_empty());
}

#[test]
fn test_deserialize_alias_as_string() {
    let spec = document(1, &[("ls", text("eza -la")), ("cat", text("bat -p"))], &[]);
    assert_eq!(spec.aliases.len(), 2);
    assert_eq!(spec.aliases.get("ls").unwrap().value, "eza -la");
    assert_eq!(spec.aliases.get("cat").unwrap().value, "bat -p");
}

#[test]
fn test_deserialize_pipe_separated_alias_names() {
    let spec = document(1, &[("gc|gitcommit", text("git commit"))], &[]);
    assert_eq!(spec.aliases.len(), 2);
    assert!(spec.aliases.contains_key("gc"));
    assert!(spec.aliases.contains_key("gitcommit"));
    assert_eq!(spec.aliases.get("gc").unwrap().value, "git commit");
    assert_eq!(spec.aliases.get("gitcommit").unwrap().value, "git commit");
}

#[test]
fn test_deserialize_alias_starting_with_pipe() {
    let spec = document(1, &[("|c", text("| xclip -sel clip"))], &[]);
    assert_eq!(spec.aliases.len(), 1);
    assert!(spec.aliases.contains_key("|c"));
}

#[test]
fn test_deserialize_alias_ending_with_pipe() {
    let spec = document(1, &[("c|", text("echo pipe end"))], &[]);
    assert_eq!(spec.aliases.len(), 1);
    assert!(spec.aliases.contains_key("c|"));
}

#[test]
fn test_deserialize_mixed_alias_formats() {
    let spec = document(1, &[("simple", text("echo simple")), ("complex", full("echo complex", false, true))], &[]);
    assert_eq!(spec.aliases.len(), 2);
    let simple = spec.aliases.get("simple").unwrap();
    assert_eq!(simple.value, "echo simple");
    assert!(simple.space);
    assert!(!simple.global);
    let complex = spec.aliases.get("complex").unwrap();
    assert_eq!(complex.value, "echo complex");
    assert!(!complex.space);
    assert!(complex.global);
}

#[test]
fn test_deserialize_defaults() {
    let spec = document(2, &[("test", text("echo test"))], &[]);
    assert_eq!(spec.defaults.version, 2);
}

#[test]
fn test_deserialize_with_lookups() {
    let spec = document(
        default_defaults().version,
        &[("deploy", text("kubectl apply -f lookup:env[prod]"))],
        &[("env", &[("prod", "production.yaml"), ("dev", "development.yaml")])],
    );
    assert_eq!(spec.lookups.len(), 1);
    assert!(spec.lookups.contains_key("env"));
    assert_eq!(spec.lookups.get("env").unwrap().get("prod").unwrap(), "production.yaml");
    assert_eq!(spec.lookups.get("env").unwrap().get("dev").unwrap(), "development.yaml");
}
