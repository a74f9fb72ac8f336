use aka_lib::cfg::alias::Alias;
use aka_lib::name_map::NameMap;

type TestResult = Result<(), Box<dyn std::error::Error>>;

fn mk(value: &str) -> Alias {
    Alias { name: "a".to_string(), value: value.to_string(), space: true, global: false, count: 0 }
}

fn pos(value: &str) -> Vec<String> {
    mk(value).positionals().unwrap()
}

fn s(v: &[&str]) -> Vec<String> {
    v.iter().map(|s| s.to_string()).collect()
}

fn no_aliases() -> NameMap<Alias> {
    NameMap::new()
}

// Positional parameters: bare forms

#[test]
fn test_positionals_bare_all_digits() -> TestResult {
    for d in 1..=9u8 {
        let tok = format!("${d}");
        assert_eq!(pos(&format!("echo {tok}")), s(&[&tok]), "bare ${d}");
    }
    Ok(())
}

#[test]
fn test_positionals_bare_multiple() -> TestResult {
    assert_eq!(pos("cmd $1 $2"), s(&["$1", "$2"]));
    assert_eq!(pos("cmd $3 $1 $2"), s(&["$1", "$2", "$3"]));
    Ok(())
}

#[test]
fn test_positionals_bare_all_nine() -> TestResult {
    assert_eq!(
        pos("$1 $2 $3 $4 $5 $6 $7 $8 $9"),
        s(&["$1", "$2", "$3", "$4", "$5", "$6", "$7", "$8", "$9"])
    );
    Ok(())
}

#[test]
fn test_positionals_braced_bare() -> TestResult {
    assert_eq!(pos("cmd ${1}"), s(&["${1}"]));
    assert_eq!(pos("cmd ${9}"), s(&["${9}"]));
    Ok(())
}

#[test]
fn test_positionals_braced_default_colon_dash() -> TestResult {
    assert_eq!(pos("cmd ${1:-.}"), s(&["${1:-.}"]));
    assert_eq!(pos("cmd ${1:-}"), s(&["${1:-}"]));
    assert_eq!(pos("cmd ${1:-default}"), s(&["${1:-default}"]));
    Ok(())
}

#[test]
fn test_positionals_braced_default_no_colon() -> TestResult {
    assert_eq!(pos("cmd ${1-default}"), s(&["${1-default}"]));
    assert_eq!(pos("cmd ${1-}"), s(&["${1-}"]));
    Ok(())
}

#[test]
fn test_positionals_braced_alternate_colon_plus() -> TestResult {
    assert_eq!(pos("cmd ${1:+foo}"), s(&["${1:+foo}"]));
    assert_eq!(pos("cmd ${1:+}"), s(&["${1:+}"]));
    Ok(())
}

#[test]
fn test_positionals_braced_alternate_no_colon() -> TestResult {
    assert_eq!(pos("cmd ${1+alt}"), s(&["${1+alt}"]));
    Ok(())
}

#[test]
fn test_positionals_braced_error_colon_question() -> TestResult {
    assert_eq!(pos("cmd ${1:?msg}"), s(&["${1:?msg}"]));
    assert_eq!(pos("cmd ${1:?}"), s(&["${1:?}"]));
    Ok(())
}

#[test]
fn test_positionals_braced_error_no_colon() -> TestResult {
    assert_eq!(pos("cmd ${1?msg}"), s(&["${1?msg}"]));
    Ok(())
}

#[test]
fn test_positionals_braced_assign_colon_equals() -> TestResult {
    assert_eq!(pos("cmd ${1:=val}"), s(&["${1:=val}"]));
    Ok(())
}

#[test]
fn test_positionals_braced_assign_no_colon() -> TestResult {
    assert_eq!(pos("cmd ${1=val}"), s(&["${1=val}"]));
    Ok(())
}

#[test]
fn test_positionals_braced_length() -> TestResult {
    assert_eq!(pos("cmd ${#1}"), s(&["${#1}"]));
    assert_eq!(pos("cmd ${#9}"), s(&["${#9}"]));
    Ok(())
}

#[test]
fn test_positionals_braced_substring() -> TestResult {
    assert_eq!(pos("cmd ${1:2}"), s(&["${1:2}"]));
    assert_eq!(pos("cmd ${1:2:3}"), s(&["${1:2:3}"]));
    Ok(())
}

#[test]
fn test_positionals_braced_substitution() -> TestResult {
    assert_eq!(pos("cmd ${1/x/y}"), s(&["${1/x/y}"]));
    assert_eq!(pos("cmd ${1//x/y}"), s(&["${1//x/y}"]));
    assert_eq!(pos("cmd ${1/#x/y}"), s(&["${1/#x/y}"]));
    assert_eq!(pos("cmd ${1/%x/y}"), s(&["${1/%x/y}"]));
    Ok(())
}

#[test]
fn test_positionals_braced_removal() -> TestResult {
    assert_eq!(pos("cmd ${1#pat}"), s(&["${1#pat}"]));
    assert_eq!(pos("cmd ${1##pat}"), s(&["${1##pat}"]));
    assert_eq!(pos("cmd ${1%pat}"), s(&["${1%pat}"]));
    assert_eq!(pos("cmd ${1%%pat}"), s(&["${1%%pat}"]));
    Ok(())
}

#[test]
fn test_positionals_braced_case() -> TestResult {
    assert_eq!(pos("cmd ${1^}"), s(&["${1^}"]));
    assert_eq!(pos("cmd ${1^^}"), s(&["${1^^}"]));
    assert_eq!(pos("cmd ${1,}"), s(&["${1,}"]));
    assert_eq!(pos("cmd ${1,,}"), s(&["${1,,}"]));
    Ok(())
}

#[test]
fn test_positionals_braced_multiple() -> TestResult {
    assert_eq!(
        pos("cargo metadata --manifest-path ${1:-.}/Cargo.toml --filter-platform ${2}"),
        s(&["${1:-.}", "${2}"])
    );
    Ok(())
}

#[test]
fn test_positionals_dedup_same_bare() -> TestResult {
    assert_eq!(pos("echo $1 $1"), s(&["$1"]));
    Ok(())
}

#[test]
fn test_positionals_dedup_longest_wins_bare_first() -> TestResult {
    assert_eq!(pos("echo $1 ${1:-.}"), s(&["${1:-.}"]));
    Ok(())
}

#[test]
fn test_positionals_dedup_longest_wins_braced_first() -> TestResult {
    assert_eq!(pos("echo ${1:-.} $1"), s(&["${1:-.}"]));
    Ok(())
}

#[test]
fn test_positionals_zero_not_detected() -> TestResult {
    assert_eq!(pos("echo $0"), s(&[]));
    assert_eq!(pos("echo ${0}"), s(&[]));
    assert_eq!(pos("echo ${0:-default}"), s(&[]));
    Ok(())
}

#[test]
fn test_positionals_special_vars_not_detected() -> TestResult {
    assert_eq!(pos("echo $@"), s(&[]));
    assert_eq!(pos("echo $*"), s(&[]));
    assert_eq!(pos("echo $#"), s(&[]));
    assert_eq!(pos("echo $?"), s(&[]));
    assert_eq!(pos("echo $$"), s(&[]));
    assert_eq!(pos("echo $!"), s(&[]));
    Ok(())
}

#[test]
fn test_positionals_named_vars_not_detected() -> TestResult {
    assert_eq!(pos("echo $HOME"), s(&[]));
    assert_eq!(pos("echo ${HOME}"), s(&[]));
    assert_eq!(pos("echo ${HOME:-default}"), s(&[]));
    assert_eq!(pos("echo ${#HOME}"), s(&[]));
    assert_eq!(pos("cd $dir && ls $path"), s(&[]));
    Ok(())
}

#[test]
fn test_positionals_double_dollar_excluded() -> TestResult {
    assert_eq!(pos("awk '{print $$1}'"), s(&[]));
    assert_eq!(pos("echo $$1 $$2"), s(&[]));
    Ok(())
}

#[test]
fn test_positionals_double_dollar_mixed() -> TestResult {
    assert_eq!(pos("echo $$1 $2"), s(&["$2"]));
    Ok(())
}

#[test]
fn test_positionals_none_plain_command() -> TestResult {
    assert_eq!(pos("git status"), s(&[]));
    assert_eq!(pos("echo Hello World"), s(&[]));
    Ok(())
}

#[test]
fn test_positionals_empty_value() -> TestResult {
    assert_eq!(pos(""), s(&[]));
    Ok(())
}

#[test]
fn test_positionals_dollar10_matches_dollar1() -> TestResult {
    assert_eq!(pos("echo $10"), s(&["$1"]));
    Ok(())
}

#[test]
fn test_positionals_nested_brace_default() -> TestResult {
    let result = pos("cmd ${1:-${2}}");
    assert!(result.len() == 1 || result.len() == 2, "should detect at least $1");
    assert!(result.iter().any(|t| t.contains('1')), "positional 1 must be present");
    Ok(())
}

#[test]
fn test_positionals_named_var_with_positional_default() -> TestResult {
    assert_eq!(pos("cd ${HOME:-${1}}"), s(&["${1}"]));
    Ok(())
}

// Replacement

#[test]
fn test_replace_braced_bare() -> TestResult {
    let alias = mk("cmd ${1}");
    let (result, count) = alias.replace(&mut vec!["foo".into()], &no_aliases(), true)?;
    assert_eq!(result, "cmd foo");
    assert_eq!(count, 1);
    Ok(())
}

#[test]
fn test_replace_braced_default_with_arg() -> TestResult {
    let alias = mk("cargo metadata --manifest-path ${1:-.}/Cargo.toml");
    let (result, count) = alias.replace(&mut vec!["./proj".into()], &no_aliases(), true)?;
    assert_eq!(result, "cargo metadata --manifest-path ./proj/Cargo.toml");
    assert_eq!(count, 1);
    Ok(())
}

#[test]
fn test_replace_braced_default_no_arg() -> TestResult {
    let alias = mk("cargo metadata --manifest-path ${1:-.}/Cargo.toml");
    let alias = Alias { name: "cip".to_string(), ..alias };
    let (result, count) = alias.replace(&mut vec![], &no_aliases(), true)?;
    assert_eq!(result, "cip");
    assert_eq!(count, 0);
    Ok(())
}

#[test]
fn test_replace_length_form() -> TestResult {
    let alias = mk("cmd ${#1}");
    let (result, count) = alias.replace(&mut vec!["hello".into()], &no_aliases(), true)?;
    assert_eq!(result, "cmd hello");
    assert_eq!(count, 1);
    Ok(())
}

#[test]
fn test_replace_degenerate_mixed_forms() -> TestResult {
    let alias = mk("echo $1 ${1:-.}");
    let (result, count) = alias.replace(&mut vec!["foo".into()], &no_aliases(), true)?;
    assert_eq!(result, "echo $1 foo");
    assert_eq!(count, 1);
    Ok(())
}

#[test]
fn test_replace_degenerate_mixed_forms_reversed() -> TestResult {
    let alias = mk("echo ${1:-.} $1");
    let (result, count) = alias.replace(&mut vec!["foo".into()], &no_aliases(), true)?;
    assert_eq!(result, "echo foo $1");
    assert_eq!(count, 1);
    Ok(())
}

#[test]
fn test_replace_variadic() -> TestResult {
    let alias = mk("echo $@");
    let mut rem = vec!["Hello".into(), "from".into(), "Rust".into()];
    let (result, count) = alias.replace(&mut rem, &no_aliases(), true)?;
    assert_eq!(result, "echo Hello from Rust");
    assert_eq!(count, 3);
    assert!(rem.is_empty());
    Ok(())
}

#[test]
fn test_replace_variadic_eol_false() -> TestResult {
    let alias = Alias { name: "a".to_string(), ..mk("echo $@") };
    let mut rem = vec!["Hello".into(), "World".into()];
    let (result, count) = alias.replace(&mut rem, &no_aliases(), false)?;
    assert_eq!(result, "a");
    assert_eq!(count, 0);
    Ok(())
}

#[test]
fn test_replace_mismatch_remainders() -> TestResult {
    let alias = Alias { name: "cmd".to_string(), ..mk("echo $1 $2 $3") };
    let mut rem = vec!["Hello".into(), "World".into()];
    let (result, count) = alias.replace(&mut rem, &no_aliases(), true)?;
    assert_eq!(result, "cmd");
    assert_eq!(count, 0);
    Ok(())
}

#[test]
fn test_replace_escaped_dollar_unescaped() -> TestResult {
    let alias = mk("echo $$HOME");
    let (result, _) = alias.replace(&mut vec![], &no_aliases(), true)?;
    assert_eq!(result, "echo $HOME");
    Ok(())
}

#[test]
fn test_positionals_double_dollar_regression() -> TestResult {
    let alias = mk("awk '{print $$1}' $2");
    assert_eq!(alias.positionals()?, s(&["$2"]));
    Ok(())
}

#[test]
fn test_variable_references() -> TestResult {
    assert_eq!(mk("echo $name $location").variable_references()?, s(&["location", "name"]));
    Ok(())
}

#[test]
fn test_variable_references_empty_value() -> TestResult {
    assert_eq!(mk("").variable_references()?, s(&[]));
    Ok(())
}

#[test]
fn test_is_variadic_true() {
    assert!(mk("echo $@").is_variadic());
}

#[test]
fn test_is_variadic_false() {
    assert!(!mk("echo hello").is_variadic());
}

#[test]
fn test_from_str() -> TestResult {
    let alias = "echo Hello World".parse::<Alias>()?;
    assert_eq!(alias.name, "");
    assert_eq!(alias.value, "echo Hello World");
    assert!(alias.space);
    assert!(!alias.global);
    assert_eq!(alias.count, 0);
    Ok(())
}

#[test]
fn test_alias_default() {
    let alias = Alias::default();
    assert!(alias.name.is_empty());
    assert!(alias.value.is_empty());
    assert!(!alias.space);
    assert!(!alias.global);
    assert_eq!(alias.count, 0);
}

#[test]
fn test_alias_clone_and_eq() {
    let alias = Alias { name: "t".to_string(), value: "echo t".to_string(), space: false, global: true, count: 10 };
    assert_eq!(alias, alias.clone());
}

#[test]
fn test_alias_debug_contains_fields() {
    let alias = Alias { name: "t".to_string(), value: "echo t".to_string(), space: true, global: false, count: 0 };
    let s = format!("{alias:?}");
    assert!(s.contains("t"));
    assert!(s.contains("echo t"));
}

// Further checks of the library's own

#[test]
fn replace_interpolates_other_aliases() -> TestResult {
    let mut map = NameMap::new();
    map.insert(
        "name".to_string(),
        Alias { name: "name".to_string(), value: "world".to_string(), space: true, global: false, count: 0 },
    );
    let alias = mk("echo hello $name");
    let (result, count) = alias.replace(&mut vec![], &map, true)?;
    assert_eq!(result, "echo hello world");
    assert_eq!(count, 0);
    Ok(())
}

#[test]
fn replace_leaves_cyclic_references() -> TestResult {
    let mut map = NameMap::new();
    map.insert("a".to_string(), Alias { name: "a".to_string(), value: "x $b".to_string(), space: true, global: false, count: 0 });
    map.insert("b".to_string(), Alias { name: "b".to_string(), value: "y $a".to_string(), space: true, global: false, count: 0 });
    let alias = Alias { name: "a".to_string(), value: "x $b".to_string(), space: true, global: false, count: 0 };
    let (result, _) = alias.replace(&mut vec![], &map, true)?;
    assert_eq!(result, "x y $a");
    Ok(())
}

#[test]
fn replace_positionals_take_arguments_in_order() -> TestResult {
    let alias = mk("cp $1 $2");
    let mut rem: Vec<String> = vec!["src".into(), "dst".into()];
    let (result, count) = alias.replace(&mut rem, &no_aliases(), true)?;
    assert_eq!(result, "cp src dst");
    assert_eq!(count, 2);
    Ok(())
}

#[test]
fn from_str_trims_the_value() {
    let alias: Alias = "  ls -la  ".parse().unwrap();
    assert_eq!(alias.value, "ls -la");
}

#[test]
fn replace_three_positionals_take_the_kth_argument() -> TestResult {
    let alias = mk("x $1 $2 $3");
    let mut rem: Vec<String> = vec!["a".into(), "b".into(), "c".into()];
    let (result, count) = alias.replace(&mut rem, &no_aliases(), true)?;
    assert_eq!(result, "x a b c");
    assert_eq!(count, 3);
    assert!(rem.is_empty());
    Ok(())
}

#[test]
fn alias_from_a_bare_string_is_trimmed() {
    let a: Alias = "  git status  ".parse().unwrap();
    assert_eq!(a, Alias { name: String::new(), value: "git status".to_string(), space: true, global: false, count: 0 });
}

#[test]
fn replace_positionals_follow_digit_order_not_text_order() -> TestResult {
    let alias = mk("mv $2 $1");
    let mut rem: Vec<String> = vec!["from".into(), "to".into()];
    let (result, _) = alias.replace(&mut rem, &no_aliases(), true)?;
    assert_eq!(result, "mv to from");
    Ok(())
}

#[test]
fn escaped_dollar_is_the_character_before_the_match() -> TestResult {
    assert_eq!(mk("é$ $1").positionals()?, vec!["$1".to_string()]);
    assert_eq!(mk("é $$1 $2").positionals()?, vec!["$2".to_string()]);
    Ok(())
}
