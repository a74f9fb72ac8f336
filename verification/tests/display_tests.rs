use aka_lib::display::{color_of, Paint, TermColor};
use aka_lib::cfg::alias::Alias;
use aka_lib::display::{format_alias_output_from_iter, format_aliases_efficiently, prepare_aliases_for_display_iter};
use aka_lib::store::AliasCache;

fn alias(name: &str, value: &str, global: bool, count: u64) -> Alias {
    Alias { name: name.to_string(), value: value.to_string(), space: true, global, count }
}

/// The text without terminal colour codes.
fn plain(s: &str) -> String {
    let mut out = String::new();
    let mut chars = s.chars().peekable();
    while let Some(c) = chars.next() {
        if c == '\x1B' {
            for d in chars.by_ref() {
                if d == 'm' {
                    break;
                }
            }
        } else {
            out.push(c);
        }
    }
    out
}

#[test]
fn test_alias_cache_default() {
    let cache = AliasCache::default();
    assert!(cache.hash.is_empty());
    assert!(cache.aliases.is_empty());
}

#[test]
fn test_format_alias_output_from_iter_empty() {
    let aliases: Vec<Alias> = vec![];
    let output = format_alias_output_from_iter(&aliases, false);
    assert!(output.contains("No aliases found"));
    assert!(output.contains("count: 0"));
}

#[test]
fn test_format_alias_output_from_iter_with_counts() {
    let aliases = vec![alias("ls", "eza", false, 10), alias("cat", "bat", false, 5)];
    let output = format_alias_output_from_iter(&aliases, true);
    assert!(output.contains("10"));
    assert!(output.contains("ls"));
    assert!(output.contains("eza"));
    assert!(output.contains("count: 2"));
}

#[test]
fn test_format_alias_output_with_multiline() {
    let aliases = vec![alias("complex", "line1\nline2\nline3", false, 0)];
    let output = format_alias_output_from_iter(&aliases, false);
    assert!(output.contains("complex"));
    assert!(output.contains("line1"));
    assert!(output.contains("line2"));
    assert!(output.contains("line3"));
}

#[test]
fn test_prepare_aliases_for_display_iter_global_filter() {
    let aliases = [alias("local", "local_cmd", false, 0), alias("global", "global_cmd", true, 0)];
    let result: Vec<_> = prepare_aliases_for_display_iter(&aliases, false, true, true, &[]);
    assert_eq!(result.len(), 1);
    assert_eq!(result[0].name, "global");
}

#[test]
fn test_prepare_aliases_for_display_iter_pattern_filter() {
    let aliases = [
        alias("git-commit", "git commit", false, 0),
        alias("git-push", "git push", false, 0),
        alias("ls", "eza", false, 0),
    ];
    let patterns = vec!["git".to_string()];
    let result: Vec<_> = prepare_aliases_for_display_iter(&aliases, false, true, false, &patterns);
    assert_eq!(result.len(), 2);
    assert!(result.iter().all(|a| a.name.starts_with("git")));
}

#[test]
fn test_prepare_aliases_for_display_iter_count_filter() {
    let aliases = [alias("used", "used_cmd", false, 5), alias("unused", "unused_cmd", false, 0)];
    let result: Vec<_> = prepare_aliases_for_display_iter(&aliases, true, false, false, &[]);
    assert_eq!(result.len(), 1);
    assert_eq!(result[0].name, "used");
}

#[test]
fn test_format_aliases_efficiently() {
    let aliases = [alias("ls", "eza", false, 10)];
    let output = format_aliases_efficiently(&aliases, true, true, false, &[]);
    assert!(output.contains("ls"));
    assert!(output.contains("eza"));
    assert!(output.contains("10"));
}

#[test]
fn test_format_alias_output_empty() {
    let aliases: Vec<Alias> = vec![];
    let output = format_alias_output_from_iter(&aliases, false);
    assert!(output.contains("No aliases found"));
    assert!(output.contains("count: 0"));
}

#[test]
fn test_format_alias_output_with_counts() {
    let aliases = vec![alias("ls", "eza", false, 10), alias("cat", "bat", false, 5)];
    let output = format_alias_output_from_iter(&aliases, true);
    assert!(output.contains("10"));
    assert!(output.contains("5"));
    assert!(output.contains("ls"));
    assert!(output.contains("cat"));
    assert!(output.contains("count: 2"));
}

#[test]
fn test_format_alias_output_multiline_value() {
    let aliases = vec![alias("multi", "line1\nline2\nline3", false, 0)];
    let output = format_alias_output_from_iter(&aliases, false);
    assert!(output.contains("multi"));
    assert!(output.contains("line1"));
    assert!(output.contains("line2"));
    assert!(output.contains("line3"));
}

#[test]
fn test_prepare_aliases_for_display_global_only() {
    let aliases = [alias("ls", "eza", false, 0), alias("|c", "| xclip", true, 0)];
    let result: Vec<_> = prepare_aliases_for_display_iter(&aliases, false, false, true, &[]);
    assert_eq!(result.len(), 1);
    assert_eq!(result[0].name, "|c");
}

#[test]
fn test_prepare_aliases_for_display_with_pattern() {
    let aliases = [alias("ls", "eza", false, 0), alias("ll", "ls -la", false, 0), alias("cat", "bat", false, 0)];
    let patterns = vec!["l".to_string()];
    let result: Vec<_> = prepare_aliases_for_display_iter(&aliases, false, false, false, &patterns);
    assert_eq!(result.len(), 2);
    assert!(result.iter().any(|a| a.name == "ls"));
    assert!(result.iter().any(|a| a.name == "ll"));
}

#[test]
fn test_prepare_aliases_for_display_show_counts_nonzero() {
    let aliases = [alias("ls", "eza", false, 5), alias("cat", "bat", false, 0)];
    let result: Vec<_> = prepare_aliases_for_display_iter(&aliases, true, false, false, &[]);
    assert_eq!(result.len(), 1);
    assert_eq!(result[0].name, "ls");
}

#[test]
fn test_prepare_aliases_for_display_show_counts_all() {
    let aliases = [alias("ls", "eza", false, 5), alias("cat", "bat", false, 0)];
    let result: Vec<_> = prepare_aliases_for_display_iter(&aliases, true, true, false, &[]);
    assert_eq!(result.len(), 2);
}

#[test]
fn test_format_aliases_efficiently_single() {
    let aliases = [alias("ls", "eza", false, 0)];
    let output = format_aliases_efficiently(&aliases, false, false, false, &[]);
    assert!(output.contains("ls"));
    assert!(output.contains("eza"));
}

// Layout and order

#[test]
fn listing_aligns_names_and_counts() {
    let aliases = vec![alias("ls", "eza", false, 10), alias("cat", "bat $1", true, 5)];
    let output = plain(&format_alias_output_from_iter(&aliases, true));
    assert_eq!(output, "  10  ls -> eza\n   5 cat -> bat $1\n\ncount: 2");
    let output = plain(&format_alias_output_from_iter(&aliases, false));
    assert_eq!(output, " ls -> eza\ncat -> bat $1\n\ncount: 2");
}

#[test]
fn listing_indents_later_lines() {
    let aliases = vec![alias("m", "a\nb", false, 0), alias("xyz", "c", false, 0)];
    let output = plain(&format_alias_output_from_iter(&aliases, false));
    assert_eq!(output, "  m -> a\n       b\nxyz -> c\n\ncount: 2");
}

#[test]
fn display_order_by_name_or_by_count() {
    let aliases = [alias("b", "1", false, 1), alias("a", "2", false, 1), alias("c", "3", false, 9)];
    let by_name: Vec<String> = prepare_aliases_for_display_iter(&aliases, false, true, false, &[])
        .into_iter()
        .map(|a| a.name)
        .collect();
    assert_eq!(by_name, vec!["a", "b", "c"]);
    let by_count: Vec<String> = prepare_aliases_for_display_iter(&aliases, true, true, false, &[])
        .into_iter()
        .map(|a| a.name)
        .collect();
    assert_eq!(by_count, vec!["c", "a", "b"]);
}

#[test]
fn orange_is_the_true_colour_255_165_0() {
    assert_eq!(color_of(Paint::Orange), TermColor::Rgb(255, 165, 0));
    assert_eq!(color_of(Paint::Red), TermColor::Red);
    assert_eq!(color_of(Paint::Green), TermColor::Green);
    assert_eq!(color_of(Paint::Cyan), TermColor::Cyan);
    assert_eq!(color_of(Paint::White), TermColor::White);
}
