use aka_lib::aka::{root_which_query, which_query};
use aka_lib::aka::{
    command_succeeded, get_alias_names_for_completion, is_already_wrapped, is_user_installed_tool, needs_sudo_wrapping,
    user_tool_found, ProcessingMode, AKA,
};
use aka_lib::cfg::alias::Alias;
use aka_lib::cfg::spec::{Defaults, Spec};
use aka_lib::name_map::NameMap;
use aka_lib::system::{CommandOutput, CommandRunner};

/// A system on which no command can be found.
struct NoCommands;

impl CommandRunner for NoCommands {
    fn run(&self, _program: &str, _args: &[&str]) -> Result<CommandOutput, std::io::Error> {
        Err(std::io::Error::new(std::io::ErrorKind::NotFound, "not found"))
    }
}

/// A system on which the user finds every command at `path`, and root
/// finds none.
struct UserOnly {
    path: String,
}

impl CommandRunner for UserOnly {
    fn run(&self, program: &str, _args: &[&str]) -> Result<CommandOutput, std::io::Error> {
        let found = program == "which";
        Ok(CommandOutput {
            stdout: if found { format!("{}\n", self.path).into_bytes() } else { Vec::new() },
            stderr: Vec::new(),
            success: found,
            code: Some(if found { 0 } else { 1 }),
        })
    }
}

fn alias(name: &str, value: &str, space: bool, global: bool) -> Alias {
    Alias { name: name.to_string(), value: value.to_string(), space, global, count: 0 }
}

fn aka_with(aliases: Vec<Alias>) -> AKA {
    let mut map = NameMap::new();
    for a in aliases {
        map.insert(a.name.clone(), a);
    }
    AKA {
        eol: true,
        spec: Spec { defaults: Defaults { version: 1 }, aliases: map, lookups: NameMap::new() },
        config_hash: "test_hash".to_string(),
        home_dir: "/tmp".to_string(),
    }
}

fn replace(aka: &mut AKA, line: &str) -> String {
    aka.replace(line, &NoCommands).unwrap()
}

#[test]
fn test_is_already_wrapped() {
    assert!(is_already_wrapped("$(which ls)"));
    assert!(is_already_wrapped("  $(which ls)  "));
    assert!(is_already_wrapped("$(which eza)"));
    assert!(!is_already_wrapped("ls"));
    assert!(!is_already_wrapped("which ls"));
    assert!(!is_already_wrapped("$(ls)"));
    assert!(!is_already_wrapped("$(which)"));
    assert!(!is_already_wrapped("$(which "));
    assert!(!is_already_wrapped(" which ls)"));
}

#[test]
fn test_needs_sudo_wrapping_already_wrapped() {
    assert!(!needs_sudo_wrapping(&NoCommands, "$(which ls)"));
    assert!(!needs_sudo_wrapping(&NoCommands, "  $(which eza)  "));
    assert!(!needs_sudo_wrapping(&NoCommands, "$(which systemctl)"));
}

#[test]
fn test_needs_sudo_wrapping_complex_commands() {
    assert!(!needs_sudo_wrapping(&NoCommands, "ls -la"));
    assert!(!needs_sudo_wrapping(&NoCommands, "cat file.txt"));
    assert!(!needs_sudo_wrapping(&NoCommands, "grep pattern | less"));
    assert!(!needs_sudo_wrapping(&NoCommands, "echo hello > file.txt"));
    assert!(!needs_sudo_wrapping(&NoCommands, "command < input.txt"));
    assert!(!needs_sudo_wrapping(&NoCommands, "cmd1 && cmd2"));
    assert!(!needs_sudo_wrapping(&NoCommands, "cmd1; cmd2"));
}

#[test]
fn test_split_respecting_quotes_with_exclamation() {
    let result = AKA::split_respecting_quotes("touch file !");
    assert_eq!(result, vec!["touch", "file", "!"]);

    let result = AKA::split_respecting_quotes("echo \"hello !\" world");
    assert_eq!(result, vec!["echo", "\"hello !\"", "world"]);

    let result = AKA::split_respecting_quotes("echo \"test\" !");
    assert_eq!(result, vec!["echo", "\"test\"", "!"]);

    let result = AKA::split_respecting_quotes("echo ! test !");
    assert_eq!(result, vec!["echo", "!", "test", "!"]);

    let result = AKA::split_respecting_quotes("echo hello ! world");
    assert_eq!(result, vec!["echo", "hello", "!", "world"]);

    let result = AKA::split_respecting_quotes("!");
    assert_eq!(result, vec!["!"]);

    let result = AKA::split_respecting_quotes("ls -la /path !cat");
    assert_eq!(result, vec!["ls", "-la", "/path", "!cat"]);

    let result = AKA::split_respecting_quotes("ls /path!cat");
    assert_eq!(result, vec!["ls", "/path!cat"]);
}

#[test]
fn test_is_already_wrapped_edge_cases() {
    assert!(is_already_wrapped("$(which ls)"));
    assert!(is_already_wrapped("$(which cat)"));
    let _grep_wrapped = is_already_wrapped("$(which grep) pattern");
    assert!(!is_already_wrapped("ls"));
    assert!(!is_already_wrapped("cat file.txt"));
    assert!(!is_already_wrapped("echo hello"));
    assert!(!is_already_wrapped(""));
    assert!(!is_already_wrapped("$("));
    assert!(!is_already_wrapped("which ls)"));
    assert!(!is_already_wrapped("$(which"));
}

#[test]
fn test_needs_sudo_wrapping_basic_cases() {
    assert!(!needs_sudo_wrapping(&NoCommands, ""));
    assert!(!needs_sudo_wrapping(&NoCommands, "   "));
    assert!(!needs_sudo_wrapping(&NoCommands, "$(which ls)"));
    assert!(!needs_sudo_wrapping(&NoCommands, "$(which cat) file.txt"));
    let _ls_result = needs_sudo_wrapping(&NoCommands, "ls");
    let _cat_result = needs_sudo_wrapping(&NoCommands, "cat file.txt");
    assert!(!needs_sudo_wrapping(&NoCommands, "nonexistent_command_12345"));
}

// Replacement

#[test]
fn alias_with_space_true_ends_with_space() {
    let mut aka = aka_with(vec![alias("ls", "eza", true, false)]);
    assert_eq!(replace(&mut aka, "ls"), "eza ");
}

#[test]
fn alias_with_space_false_ends_without_space() {
    let mut aka = aka_with(vec![alias("gc", "git commit -m\"", false, false)]);
    assert_eq!(replace(&mut aka, "gc"), "git commit -m\"");
    let mut aka = aka_with(vec![alias("ping10", "ping 10.10.10.", false, false)]);
    assert_eq!(replace(&mut aka, "ping10"), "ping 10.10.10.");
}

#[test]
fn aliases_keep_their_own_space() {
    let mut aka = aka_with(vec![alias("gc", "git commit -m\"", false, false), alias("ls", "eza", true, false)]);
    assert_eq!(replace(&mut aka, "gc"), "git commit -m\"");
    assert_eq!(replace(&mut aka, "ls"), "eza ");
}

#[test]
fn alias_arguments_follow_the_expansion() {
    let mut aka = aka_with(vec![alias("gc", "git commit -m\"", false, false)]);
    assert_eq!(replace(&mut aka, "gc some message"), "git commit -m\" some message");
    let mut aka = aka_with(vec![alias("ls", "eza", true, false)]);
    assert_eq!(replace(&mut aka, "ls -la"), "eza -la ");
}

#[test]
fn no_alias_gives_the_empty_answer() {
    let mut aka = aka_with(vec![]);
    assert_eq!(replace(&mut aka, "nonexistent"), "");
}

#[test]
fn variadic_and_positional_aliases() {
    let mut aka = aka_with(vec![alias("echo_all", "echo $@", false, false)]);
    assert_eq!(replace(&mut aka, "echo_all hello world"), "echo hello world");
    let mut aka = aka_with(vec![alias("echo_all", "echo $@", true, false)]);
    assert_eq!(replace(&mut aka, "echo_all hello world"), "echo hello world ");
    let mut aka = aka_with(vec![alias("greet", "echo Hello $1", false, false)]);
    assert_eq!(replace(&mut aka, "greet World"), "echo Hello World");
    let mut aka = aka_with(vec![alias("greet", "echo Hello $1", true, false)]);
    assert_eq!(replace(&mut aka, "greet World"), "echo Hello World ");
}

#[test]
fn replacement_counts_each_use() {
    let mut aka = aka_with(vec![alias("ls", "eza", true, false)]);
    replace(&mut aka, "ls");
    replace(&mut aka, "ls -la");
    replace(&mut aka, "cat ls");
    assert_eq!(aka.spec.aliases.get("ls").unwrap().count, 2);
}

#[test]
fn global_aliases_expand_anywhere() {
    let mut aka = aka_with(vec![alias("|c", "| xclip -sel clip", true, true), alias("ll", "ls -la", true, false)]);
    assert_eq!(replace(&mut aka, "cat file |c"), "cat file | xclip -sel clip ");
    // a command alias is not expanded after the first word
    assert_eq!(replace(&mut aka, "echo ll"), "");
}

#[test]
fn lookups_are_resolved() {
    let mut aka = aka_with(vec![]);
    let mut table = NameMap::new();
    table.insert("prod".to_string(), "us-east-1".to_string());
    aka.spec.lookups.insert("region".to_string(), table);
    assert_eq!(replace(&mut aka, "aws --region lookup:region[prod]"), "aws --region us-east-1 ");
    assert_eq!(replace(&mut aka, "aws --region lookup:region[dev]"), "");
}

#[test]
fn sudo_alone_and_with_options() {
    let mut aka = aka_with(vec![]);
    assert_eq!(replace(&mut aka, "sudo"), "sudo ");
    assert_eq!(replace(&mut aka, "sudo "), "sudo ");
    assert_eq!(replace(&mut aka, "sudo -u root"), "sudo -u root ");
}

#[test]
fn sudo_keeps_arguments_and_expands_aliases() {
    let mut aka = aka_with(vec![alias("ls", "eza", true, false)]);
    assert_eq!(replace(&mut aka, "sudo ls -la --color"), "sudo eza -la --color ");
    let again = replace(&mut aka, "sudo eza -la --color");
    assert!(!again.contains("sudo sudo"));
}

#[test]
fn sudo_wraps_user_only_commands() {
    let mut aka = aka_with(vec![]);
    let runner = UserOnly { path: "/home/me/.cargo/bin/rkvr".to_string() };
    let result = aka.replace("sudo rkvr --help", &runner).unwrap();
    assert_eq!(result, "sudo -E $(which rkvr) --help ");
    assert!(!needs_sudo_wrapping(&runner, "$(which rkvr)"));
}

#[test]
fn trailing_bang_runs_under_sudo() {
    let mut aka = aka_with(vec![alias("ls", "eza", true, false)]);
    let result = replace(&mut aka, "touch file !");
    assert_eq!(result, "sudo touch file ");
    let result = replace(&mut aka, "ls !");
    assert_eq!(result, "sudo eza ");
    assert_eq!(replace(&mut aka, "!"), "");
    assert_eq!(replace(&mut aka, "echo hello ! world"), "");
    assert_eq!(replace(&mut aka, "echo \"test\" !"), "sudo echo \"test\" ");
    assert_eq!(replace(&mut aka, "echo ! test !"), "sudo echo ! test ");
    aka.eol = false;
    assert_eq!(replace(&mut aka, "touch file !"), "");
}

#[test]
fn bang_binary_replaces_the_command() {
    let mut aka = aka_with(vec![]);
    assert_eq!(replace(&mut aka, "ls /path/to/file.txt !cat"), "cat /path/to/file.txt ");
    assert_eq!(replace(&mut aka, "ls -la /path/to/file.txt !cat"), "cat /path/to/file.txt ");
    assert_eq!(replace(&mut aka, "ls --all --human-readable /p !cat"), "cat /p ");
    assert_eq!(replace(&mut aka, "ls -la /path1 /path2 !cat"), "cat /path1 /path2 ");
    assert_eq!(replace(&mut aka, "curl -s http://api.example.com/data !jq"), "jq http://api.example.com/data ");
    assert_eq!(replace(&mut aka, "ls -la /path | grep -i foo !cat"), "cat /path | grep -i foo ");
    assert_eq!(replace(&mut aka, "ls /path !"), "sudo ls /path ");
    aka.eol = false;
    assert_eq!(replace(&mut aka, "ls /path !cat"), "");
}

#[test]
fn blank_and_special_lines() {
    let mut aka = aka_with(vec![alias("@test", "echo at-test", false, false), alias("🚀", "echo rocket", false, false)]);
    assert_eq!(replace(&mut aka, ""), "");
    assert_eq!(replace(&mut aka, "   "), "");
    assert_eq!(replace(&mut aka, "@test"), "echo at-test");
    assert_eq!(replace(&mut aka, "🚀"), "echo rocket");
}

#[test]
fn recursion_guard_stops_self_expansion() {
    let mut aka = aka_with(vec![alias("ls", "ls --color=auto", true, false)]);
    assert_eq!(replace(&mut aka, "ls --color=auto -la"), "");
    assert_eq!(replace(&mut aka, "ls -la"), "ls --color=auto -la ");
}

#[test]
fn replace_with_mode_is_replace() {
    let mut a = aka_with(vec![alias("ls", "eza", true, false)]);
    let mut b = aka_with(vec![alias("ls", "eza", true, false)]);
    assert_eq!(
        a.replace_with_mode("ls -la", ProcessingMode::Daemon, &NoCommands).unwrap(),
        b.replace("ls -la", &NoCommands).unwrap()
    );
}

#[test]
fn completion_names_are_sorted() {
    let aka = aka_with(vec![
        alias("zz", "eza -la", true, false),
        alias("cat", "bat -p", true, false),
        alias("ls", "eza", true, false),
    ]);
    assert_eq!(get_alias_names_for_completion(&aka), vec!["cat", "ls", "zz"]);
    let aka = aka_with(vec![
        alias("!!", "sudo !!", true, false),
        alias("|c", "| xclip -sel clip", true, true),
        alias("...", "cd ../..", true, false),
    ]);
    assert_eq!(get_alias_names_for_completion(&aka), vec!["!!", "...", "|c"]);
    assert_eq!(get_alias_names_for_completion(&aka_with(vec![])), Vec::<String>::new());
}

#[test]
fn new_splits_lookup_keys_and_takes_cached_aliases() {
    let mut lookups = NameMap::new();
    let mut table = NameMap::new();
    table.insert("prod|apps".to_string(), "us-east-1".to_string());
    lookups.insert("region".to_string(), table);
    let mut aliases = NameMap::new();
    aliases.insert("ls".to_string(), alias("ls", "eza", true, false));
    let spec = Spec { defaults: Defaults { version: 1 }, aliases, lookups };
    let mut cached = NameMap::new();
    cached.insert("ls".to_string(), Alias { count: 7, ..alias("ls", "eza", true, false) });
    let aka = AKA::new(true, "/home/u".to_string(), spec, "hash".to_string(), Some(cached));
    assert_eq!(aka.spec.aliases.get("ls").unwrap().count, 7);
    let region = aka.spec.lookups.get("region").unwrap();
    assert_eq!(region.get("apps").unwrap(), "us-east-1");
    assert_eq!(region.get("prod").unwrap(), "us-east-1");
}

fn output(stdout: &str, success: bool) -> Result<CommandOutput, std::io::Error> {
    Ok(CommandOutput { stdout: stdout.as_bytes().to_vec(), stderr: Vec::new(), success, code: Some(if success { 0 } else { 1 }) })
}

#[test]
fn run_reports_are_read_as_success_or_not() {
    assert!(command_succeeded(&output("/usr/bin/ls\n", true)));
    assert!(!command_succeeded(&output("", false)));
    assert!(!command_succeeded(&Err(std::io::Error::new(std::io::ErrorKind::NotFound, "gone"))));
}

#[test]
fn which_output_names_user_tools() {
    assert!(user_tool_found(&output("/home/u/.cargo/bin/rkvr\n", true), "/home/u"));
    assert!(user_tool_found(&output("  /opt/me/bin/x \n", true), "/opt/me"));
    assert!(!user_tool_found(&output("/usr/bin/ls\n", true), "/home/u"));
    assert!(!user_tool_found(&output("/home/u/.cargo/bin/rkvr\n", false), "/home/u"));
    assert!(!user_tool_found(&Err(std::io::Error::new(std::io::ErrorKind::NotFound, "gone")), "/home/u"));
    assert!(is_user_installed_tool(&UserOnly { path: "/home/u/.local/bin/tool".to_string() }, "tool", "/home/u"));
    assert!(!is_user_installed_tool(&NoCommands, "tool", "/home/u"));
}

/// A system that records every query and finds every command for the user
/// only.
struct Recording {
    asked: std::cell::RefCell<Vec<(String, Vec<String>)>>,
}

impl CommandRunner for Recording {
    fn run(&self, program: &str, args: &[&str]) -> Result<CommandOutput, std::io::Error> {
        self.asked.borrow_mut().push((program.to_string(), args.iter().map(|a| a.to_string()).collect()));
        let found = program == "which";
        Ok(CommandOutput {
            stdout: if found { b"/home/u/.cargo/bin/rg\n".to_vec() } else { Vec::new() },
            stderr: Vec::new(),
            success: found,
            code: Some(if found { 0 } else { 1 }),
        })
    }
}

#[test]
fn the_which_queries_name_the_command() {
    assert_eq!(which_query("rg"), ("which", vec!["rg"]));
    assert_eq!(root_which_query("rg"), ("sudo", vec!["-n", "which", "rg"]));
}

#[test]
fn sudo_wrapping_asks_which_as_user_then_as_root() {
    let runner = Recording { asked: std::cell::RefCell::new(Vec::new()) };
    assert!(needs_sudo_wrapping(&runner, "rg"));
    let asked = runner.asked.borrow();
    assert_eq!(asked.len(), 2);
    assert_eq!(asked[0], ("which".to_string(), vec!["rg".to_string()]));
    assert_eq!(asked[1], ("sudo".to_string(), vec!["-n".to_string(), "which".to_string(), "rg".to_string()]));
}

#[test]
fn user_tool_check_asks_which_for_the_command() {
    let runner = Recording { asked: std::cell::RefCell::new(Vec::new()) };
    assert!(is_user_installed_tool(&runner, "rg", "/nonexistent"));
    let asked = runner.asked.borrow();
    assert_eq!(asked.len(), 1);
    assert_eq!(asked[0], ("which".to_string(), vec!["rg".to_string()]));
}
