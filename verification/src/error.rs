//! Errors with the context a user needs to act on them, and their messages.
use vstd::prelude::*;
use crate::patterns::{first_capture, regex_compiles, regex_first_group};
use crate::text::{
    contains, contains_str, decimal, decimal_text, join, join_strings, owned, views,
};

verus! {

/// One problem found in a configuration.
#[derive(Debug, Clone)]
pub struct ValidationError {
    pub error_type: String,
    pub message: String,
    pub line: Option<usize>,
    pub column: Option<usize>,
    pub context: String,
}

/// What went wrong, with what was being done and what was found.
#[derive(Debug, Clone)]
pub enum AkaError {
    ConfigNotFound { attempted_paths: Vec<String>, home_dir: String, custom_path: Option<String> },
    ConfigParseError {
        file_path: String,
        line: Option<usize>,
        column: Option<usize>,
        context: String,
        underlying_error: String,
    },
    ConfigValidationError { file_path: String, errors: Vec<ValidationError> },
    FileOperationError {
        file_path: String,
        operation: String,
        underlying_error: String,
        context: String,
    },
    AliasProcessingError {
        alias_name: String,
        command_line: String,
        operation: String,
        underlying_error: String,
        context: String,
    },
    LookupError {
        lookup_name: String,
        key: String,
        available_lookups: Vec<String>,
        available_keys: Vec<String>,
        context: String,
    },
    CircularReferenceError { alias_chain: Vec<String>, context: String },
    RuntimeError {
        operation: String,
        context: String,
        underlying_error: String,
        suggestions: Vec<String>,
    },
}

// ---------------------------------------------------------------------------
// Messages
// ---------------------------------------------------------------------------

/// `base` and `part` joined as `Path::join` joins a relative part: with a
/// `/` between them unless `base` is empty or already ends with one.
pub open spec fn path_join(base: Seq<char>, part: Seq<char>) -> Seq<char> {
    if base.len() == 0 {
        part
    } else if base.last() == '/' {
        base + part
    } else {
        base + seq!['/'] + part
    }
}

/// One line `    - item` per item.
pub open spec fn bullets(items: Seq<Seq<char>>) -> Seq<char>
    decreases items.len(),
{
    if items.len() == 0 {
        Seq::empty()
    } else {
        bullets(items.drop_last()) + "    - "@ + items.last() + "\n"@
    }
}

/// The lines that describe validation problem number `k` (counted from 1).
pub open spec fn validation_entry(e: ValidationError, k: nat) -> Seq<char> {
    "    "@ + decimal(k) + ". "@ + e.error_type@ + ": "@ + e.message@ + "\n"@ + (match e.line {
        Some(l) => "       Location: line "@ + decimal(l as nat) + "\n"@,
        None => Seq::empty(),
    }) + (if e.context@.len() > 0 {
        "       Context: "@ + e.context@ + "\n"@
    } else {
        Seq::empty()
    })
}

/// The lines that describe the first `n` validation problems.
pub open spec fn validation_lines(errs: Seq<ValidationError>, n: int) -> Seq<char>
    decreases n,
{
    if n <= 0 {
        Seq::empty()
    } else {
        validation_lines(errs, n - 1) + validation_entry(errs[n - 1], n as nat)
    }
}

/// Where a parse error was found, if known.
pub open spec fn location_line(line: Option<usize>, column: Option<usize>) -> Seq<char> {
    match (line, column) {
        (Some(l), Some(c)) => "  Location: line "@ + decimal(l as nat) + ", column "@ + decimal(
            c as nat,
        ) + "\n"@,
        (Some(l), None) => "  Location: line "@ + decimal(l as nat) + "\n"@,
        _ => Seq::empty(),
    }
}

/// The message of [`AkaError::ConfigNotFound`].
pub open spec fn not_found_message(attempted_paths: Vec<String>, home_dir: String, custom_path: Option<String>) -> Seq<char> {
    "Configuration file not found\n"@ + match custom_path {
        Some(c) => "  Custom config path: "@ + c@ + "\n"@,
        None => "  Home directory: "@ + home_dir@ + "\n"@ + "  Attempted paths:\n"@
            + bullets(views(attempted_paths@)) + "  \n"@
            + "  To create a config file, run:\n"@ + "    mkdir -p "@ + path_join(
            home_dir@,
            ".config/aka"@,
        ) + "\n"@ + "    echo 'aliases: {}' > "@ + path_join(
            home_dir@,
            ".config/aka/aka.yml"@,
        ) + "\n"@,
    }
}

/// The message of [`AkaError::ConfigParseError`].
pub open spec fn parse_message(file_path: String, line: Option<usize>, column: Option<usize>, context: String, underlying_error: String) -> Seq<char> {
    "Configuration parsing error in "@ + file_path@ + "\n"@ + location_line(line, column)
        + "  Context: "@ + context@ + "\n"@ + "  Error: "@ + underlying_error@ + "\n"@
        + "  \n"@ + "  Check the YAML syntax and ensure all quotes are properly closed."@
}

/// The message of [`AkaError::ConfigValidationError`].
pub open spec fn validation_message(file_path: String, errors: Vec<ValidationError>) -> Seq<char> {
    "Configuration validation failed in "@ + file_path@ + "\n"@ + "  Found "@ + decimal(
        errors@.len(),
    ) + " validation error(s):\n"@ + validation_lines(errors@, errors@.len() as int)
}

/// The message of [`AkaError::FileOperationError`].
pub open spec fn file_operation_message(file_path: String, operation: String, underlying_error: String, context: String) -> Seq<char> {
    "File operation failed\n"@ + "  File: "@ + file_path@ + "\n"@ + "  Operation: "@
        + operation@ + "\n"@ + "  Context: "@ + context@ + "\n"@ + "  Error: "@
        + underlying_error@ + "\n"@ + "  \n"@
        + "  Check file permissions and disk space."@
}

/// The message of [`AkaError::AliasProcessingError`].
pub open spec fn alias_processing_message(alias_name: String, command_line: String, operation: String, underlying_error: String, context: String) -> Seq<char> {
    "Alias processing failed\n"@ + "  Alias: "@ + alias_name@ + "\n"@ + "  Command: "@
        + command_line@ + "\n"@ + "  Operation: "@ + operation@ + "\n"@ + "  Context: "@
        + context@ + "\n"@ + "  Error: "@ + underlying_error@ + "\n"@
}

/// The message of [`AkaError::LookupError`].
pub open spec fn lookup_message(lookup_name: String, key: String, available_lookups: Vec<String>, available_keys: Vec<String>, context: String) -> Seq<char> {
    "Lookup resolution failed\n"@ + "  Lookup: "@ + lookup_name@ + "\n"@ + "  Key: "@
        + key@ + "\n"@ + "  Context: "@ + context@ + "\n"@ + "  \n"@ + (if available_lookups@.len()
        == 0 {
        "  No lookups are defined in the configuration.\n"@
    } else {
        "  Available lookups:\n"@ + bullets(views(available_lookups@))
    }) + (if available_keys@.len() > 0 {
        "  Available keys in "@ + lookup_name@ + ":\n"@ + bullets(views(available_keys@))
    } else {
        Seq::empty()
    })
}

/// The message of [`AkaError::CircularReferenceError`].
pub open spec fn circular_message(alias_chain: Vec<String>, context: String) -> Seq<char> {
    "Circular reference detected\n"@ + "  Context: "@ + context@ + "\n"@
        + "  Alias chain: "@ + join(views(alias_chain@), " -> "@) + "\n"@ + "  \n"@
        + "  To fix this, modify one of the aliases to break the circular dependency."@
}

/// The message of [`AkaError::RuntimeError`].
pub open spec fn runtime_message(operation: String, context: String, underlying_error: String, suggestions: Vec<String>) -> Seq<char> {
    "Runtime error during "@ + operation@ + "\n"@ + "  Context: "@ + context@ + "\n"@
        + "  Error: "@ + underlying_error@ + "\n"@ + (if suggestions@.len() > 0 {
        "  \n"@ + "  Suggestions:\n"@ + bullets(views(suggestions@))
    } else {
        Seq::empty()
    })
}

impl AkaError {
    /// The message that describes the error.
    pub open spec fn message(&self) -> Seq<char> {
        match self {
            AkaError::ConfigNotFound { attempted_paths, home_dir, custom_path } => not_found_message(*attempted_paths, *home_dir, *custom_path),
            AkaError::ConfigParseError { file_path, line, column, context, underlying_error } => parse_message(*file_path, *line, *column, *context, *underlying_error),
            AkaError::ConfigValidationError { file_path, errors } => validation_message(*file_path, *errors),
            AkaError::FileOperationError { file_path, operation, underlying_error, context } => file_operation_message(*file_path, *operation, *underlying_error, *context),
            AkaError::AliasProcessingError { alias_name, command_line, operation, underlying_error, context } => alias_processing_message(*alias_name, *command_line, *operation, *underlying_error, *context),
            AkaError::LookupError { lookup_name, key, available_lookups, available_keys, context } => lookup_message(*lookup_name, *key, *available_lookups, *available_keys, *context),
            AkaError::CircularReferenceError { alias_chain, context } => circular_message(*alias_chain, *context),
            AkaError::RuntimeError { operation, context, underlying_error, suggestions } => runtime_message(*operation, *context, *underlying_error, *suggestions),
        }
    }
}

/// Joins a relative part to a path; see [`path_join`].
pub fn join_path(base: &str, part: &str) -> (r: String)
    ensures
        r@ == path_join(base@, part@),
{
    let b = crate::text::chars_of(base);
    let mut r = owned(base);
    if b.len() == 0 {
        return owned(part);
    }
    if b[b.len() - 1] != '/' {
        crate::text::push_char(&mut r, '/');
    }
    r.append(part);
    r
}

/// Appends one `    - item` line per item.
fn append_bullets(out: &mut String, items: &Vec<String>)
    ensures
        final(out)@ == old(out)@ + bullets(views(items@)),
{
    let mut i: usize = 0;
    let ghost start = out@;
    while i < items.len()
        invariant
            i <= items.len(),
            out@ == start + bullets(views(items@).take(i as int)),
        decreases items.len() - i,
    {
        out.append("    - ");
        out.append(items[i].as_str());
        out.append("\n");
        assert(views(items@).take(i + 1).drop_last() =~= views(items@).take(i as int));
        i = i + 1;
    }
    assert(views(items@).take(items.len() as int) =~= views(items@));
}

/// Appends the lines of validation problem number `k`.
fn append_validation_entry(out: &mut String, e: &ValidationError, k: usize)
    ensures
        final(out)@ == old(out)@ + validation_entry(*e, k as nat),
{
    let ghost start = out@;
    out.append("    ");
    out.append(decimal_text(k as u64).as_str());
    out.append(". ");
    out.append(e.error_type.as_str());
    out.append(": ");
    out.append(e.message.as_str());
    out.append("\n");
    let ghost mid = out@;
    match e.line {
        Some(l) => {
            out.append("       Location: line ");
            out.append(decimal_text(l as u64).as_str());
            out.append("\n");
        },
        None => {},
    }
    let ghost mid2 = out@;
    if crate::text::chars_of(e.context.as_str()).len() > 0 {
        out.append("       Context: ");
        out.append(e.context.as_str());
        out.append("\n");
    }
    assert(out@ =~= start + validation_entry(*e, k as nat));
}

fn not_found_text(attempted_paths: &Vec<String>, home_dir: &String, custom_path: &Option<String>) -> (r: String)
    ensures
        r@ == not_found_message(*attempted_paths, *home_dir, *custom_path),
{
    let mut m = owned("Configuration file not found\n");
    match custom_path {
        Some(c) => {
            m.append("  Custom config path: ");
            m.append(c.as_str());
            m.append("\n");
        },
        None => {
            m.append("  Home directory: ");
            m.append(home_dir.as_str());
            m.append("\n");
            m.append("  Attempted paths:\n");
            append_bullets(&mut m, attempted_paths);
            m.append("  \n");
            m.append("  To create a config file, run:\n");
            m.append("    mkdir -p ");
            m.append(join_path(home_dir.as_str(), ".config/aka").as_str());
            m.append("\n");
            m.append("    echo 'aliases: {}' > ");
            m.append(join_path(home_dir.as_str(), ".config/aka/aka.yml").as_str());
            m.append("\n");
        },
    }
    m
}

fn parse_text(file_path: &String, line: &Option<usize>, column: &Option<usize>, context: &String, underlying_error: &String) -> (r: String)
    ensures
        r@ == parse_message(*file_path, *line, *column, *context, *underlying_error),
{
    let mut m = owned("Configuration parsing error in ");
    m.append(file_path.as_str());
    m.append("\n");
    match (line, column) {
        (Some(l), Some(c)) => {
            m.append("  Location: line ");
            m.append(decimal_text(*l as u64).as_str());
            m.append(", column ");
            m.append(decimal_text(*c as u64).as_str());
            m.append("\n");
        },
        (Some(l), None) => {
            m.append("  Location: line ");
            m.append(decimal_text(*l as u64).as_str());
            m.append("\n");
        },
        _ => {},
    }
    m.append("  Context: ");
    m.append(context.as_str());
    m.append("\n");
    m.append("  Error: ");
    m.append(underlying_error.as_str());
    m.append("\n");
    m.append("  \n");
    m.append("  Check the YAML syntax and ensure all quotes are properly closed.");
    m
}

fn validation_text(file_path: &String, errors: &Vec<ValidationError>) -> (r: String)
    ensures
        r@ == validation_message(*file_path, *errors),
{
    let mut m = owned("Configuration validation failed in ");
    m.append(file_path.as_str());
    m.append("\n");
    m.append("  Found ");
    m.append(decimal_text(errors.len() as u64).as_str());
    m.append(" validation error(s):\n");
    let ghost head = m@;
    let mut i: usize = 0;
    while i < errors.len()
        invariant
            i <= errors.len(),
            m@ == head + validation_lines(errors@, i as int),
        decreases errors.len() - i,
    {
        append_validation_entry(&mut m, &errors[i], i + 1);
        i = i + 1;
    }
    m
}

fn file_operation_text(file_path: &String, operation: &String, underlying_error: &String, context: &String) -> (r: String)
    ensures
        r@ == file_operation_message(*file_path, *operation, *underlying_error, *context),
{
    let mut m = owned("File operation failed\n");
    m.append("  File: ");
    m.append(file_path.as_str());
    m.append("\n");
    m.append("  Operation: ");
    m.append(operation.as_str());
    m.append("\n");
    m.append("  Context: ");
    m.append(context.as_str());
    m.append("\n");
    m.append("  Error: ");
    m.append(underlying_error.as_str());
    m.append("\n");
    m.append("  \n");
    m.append("  Check file permissions and disk space.");
    m
}

fn alias_processing_text(alias_name: &String, command_line: &String, operation: &String, underlying_error: &String, context: &String) -> (r: String)
    ensures
        r@ == alias_processing_message(*alias_name, *command_line, *operation, *underlying_error, *context),
{
    let mut m = owned("Alias processing failed\n");
    m.append("  Alias: ");
    m.append(alias_name.as_str());
    m.append("\n");
    m.append("  Command: ");
    m.append(command_line.as_str());
    m.append("\n");
    m.append("  Operation: ");
    m.append(operation.as_str());
    m.append("\n");
    m.append("  Context: ");
    m.append(context.as_str());
    m.append("\n");
    m.append("  Error: ");
    m.append(underlying_error.as_str());
    m.append("\n");
    m
}

fn lookup_text(lookup_name: &String, key: &String, available_lookups: &Vec<String>, available_keys: &Vec<String>, context: &String) -> (r: String)
    ensures
        r@ == lookup_message(*lookup_name, *key, *available_lookups, *available_keys, *context),
{
    let mut m = owned("Lookup resolution failed\n");
    m.append("  Lookup: ");
    m.append(lookup_name.as_str());
    m.append("\n");
    m.append("  Key: ");
    m.append(key.as_str());
    m.append("\n");
    m.append("  Context: ");
    m.append(context.as_str());
    m.append("\n");
    m.append("  \n");
    if available_lookups.len() == 0 {
        m.append("  No lookups are defined in the configuration.\n");
    } else {
        m.append("  Available lookups:\n");
        append_bullets(&mut m, available_lookups);
    }
    if available_keys.len() > 0 {
        m.append("  Available keys in ");
        m.append(lookup_name.as_str());
        m.append(":\n");
        append_bullets(&mut m, available_keys);
    }
    m
}

fn circular_text(alias_chain: &Vec<String>, context: &String) -> (r: String)
    ensures
        r@ == circular_message(*alias_chain, *context),
{
    let mut m = owned("Circular reference detected\n");
    m.append("  Context: ");
    m.append(context.as_str());
    m.append("\n");
    m.append("  Alias chain: ");
    m.append(join_strings(alias_chain, " -> ").as_str());
    m.append("\n");
    m.append("  \n");
    m.append(
        "  To fix this, modify one of the aliases to break the circular dependency.",
    );
    m
}

fn runtime_text(operation: &String, context: &String, underlying_error: &String, suggestions: &Vec<String>) -> (r: String)
    ensures
        r@ == runtime_message(*operation, *context, *underlying_error, *suggestions),
{
    let mut m = owned("Runtime error during ");
    m.append(operation.as_str());
    m.append("\n");
    m.append("  Context: ");
    m.append(context.as_str());
    m.append("\n");
    m.append("  Error: ");
    m.append(underlying_error.as_str());
    m.append("\n");
    if suggestions.len() > 0 {
        m.append("  \n");
        m.append("  Suggestions:\n");
        append_bullets(&mut m, suggestions);
    }
    m
}

impl AkaError {
    /// The message that describes the error; see [`AkaError::message`].
    pub fn to_string(&self) -> (r: String)
        ensures
            r@ == self.message(),
    {
        match self {
            AkaError::ConfigNotFound { attempted_paths, home_dir, custom_path } => not_found_text(attempted_paths, home_dir, custom_path),
            AkaError::ConfigParseError { file_path, line, column, context, underlying_error } => parse_text(file_path, line, column, context, underlying_error),
            AkaError::ConfigValidationError { file_path, errors } => validation_text(file_path, errors),
            AkaError::FileOperationError { file_path, operation, underlying_error, context } => file_operation_text(file_path, operation, underlying_error, context),
            AkaError::AliasProcessingError { alias_name, command_line, operation, underlying_error, context } => alias_processing_text(alias_name, command_line, operation, underlying_error, context),
            AkaError::LookupError { lookup_name, key, available_lookups, available_keys, context } => lookup_text(lookup_name, key, available_lookups, available_keys, context),
            AkaError::CircularReferenceError { alias_chain, context } => circular_text(alias_chain, context),
            AkaError::RuntimeError { operation, context, underlying_error, suggestions } => runtime_text(operation, context, underlying_error, suggestions),
        }
    }
}

// ---------------------------------------------------------------------------
// Building errors
// ---------------------------------------------------------------------------

/// What was being done when an error came: the operation and, where known,
/// the file, alias and command line, with further context lines.
pub struct ErrorContext {
    operation: String,
    file_path: Option<String>,
    alias_name: Option<String>,
    command_line: Option<String>,
    additional_context: Vec<String>,
}

/// The text of an optional value, or `default` when there is none.
pub open spec fn text_or(o: Option<String>, default: Seq<char>) -> Seq<char> {
    match o {
        Some(s) => s@,
        None => default,
    }
}

fn text_or_unknown(o: Option<String>) -> (r: String)
    ensures
        r@ == text_or(o, "unknown"@),
{
    match o {
        Some(s) => s,
        None => owned("unknown"),
    }
}

impl ErrorContext {
    /// The operation being done.
    pub closed spec fn operation_text(&self) -> Seq<char> {
        self.operation@
    }

    /// The file concerned, if any.
    pub closed spec fn file(&self) -> Option<String> {
        self.file_path
    }

    /// The alias concerned, if any.
    pub closed spec fn alias(&self) -> Option<String> {
        self.alias_name
    }

    /// The command line concerned, if any.
    pub closed spec fn command(&self) -> Option<String> {
        self.command_line
    }

    /// The context lines, in order.
    pub closed spec fn contexts(&self) -> Seq<Seq<char>> {
        views(self.additional_context@)
    }

    /// The context lines joined with `; `.
    pub open spec fn context_text(&self) -> Seq<char> {
        join(self.contexts(), "; "@)
    }

    /// A context for `operation`, with nothing else known.
    pub fn new(operation: &str) -> (r: Self)
        ensures
            r.operation_text() == operation@,
            r.file() is None,
            r.alias() is None,
            r.command() is None,
            r.contexts() == Seq::<Seq<char>>::empty(),
    {
        let r = ErrorContext {
            operation: owned(operation),
            file_path: None,
            alias_name: None,
            command_line: None,
            additional_context: Vec::new(),
        };
        assert(r.contexts() =~= Seq::<Seq<char>>::empty());
        r
    }

    /// The same context, concerning file `path`.
    pub fn with_file(self, path: &str) -> (r: Self)
        ensures
            r.operation_text() == self.operation_text(),
            r.file() matches Some(f) && f@ == path@,
            r.alias() == self.alias(),
            r.command() == self.command(),
            r.contexts() == self.contexts(),
    {
        let mut r = self;
        r.file_path = Some(owned(path));
        r
    }

    /// The same context, concerning alias `alias`.
    pub fn with_alias(self, alias: &str) -> (r: Self)
        ensures
            r.operation_text() == self.operation_text(),
            r.file() == self.file(),
            r.alias() matches Some(a) && a@ == alias@,
            r.command() == self.command(),
            r.contexts() == self.contexts(),
    {
        let mut r = self;
        r.alias_name = Some(owned(alias));
        r
    }

    /// The same context, concerning command line `command`.
    pub fn with_command(self, command: &str) -> (r: Self)
        ensures
            r.operation_text() == self.operation_text(),
            r.file() == self.file(),
            r.alias() == self.alias(),
            r.command() matches Some(c) && c@ == command@,
            r.contexts() == self.contexts(),
    {
        let mut r = self;
        r.command_line = Some(owned(command));
        r
    }

    /// The same context with one more context line.
    pub fn with_context(self, context: &str) -> (r: Self)
        ensures
            r.operation_text() == self.operation_text(),
            r.file() == self.file(),
            r.alias() == self.alias(),
            r.command() == self.command(),
            r.contexts() == self.contexts().push(context@),
    {
        let mut r = self;
        r.additional_context.push(owned(context));
        assert(views(r.additional_context@) =~= self.contexts().push(context@));
        r
    }

    /// The context lines joined with `; `.
    fn joined_context(&self) -> (r: String)
        ensures
            r@ == self.context_text(),
    {
        join_strings(&self.additional_context, "; ")
    }

    /// A configuration file that was not found.
    pub fn to_config_not_found_error(
        self,
        attempted_paths: Vec<String>,
        home_dir: String,
        custom_path: Option<String>,
    ) -> (r: AkaError)
        ensures
            r == (AkaError::ConfigNotFound { attempted_paths, home_dir, custom_path }),
    {
        AkaError::ConfigNotFound { attempted_paths, home_dir, custom_path }
    }

    /// A configuration file that could not be parsed; the file is
    /// `unknown` when the context names none.
    pub fn to_config_parse_error(self, underlying_error: &str, line: Option<usize>, column: Option<usize>) -> (r:
        AkaError)
        ensures
            r matches AkaError::ConfigParseError { file_path, line: l, column: c, context, underlying_error: u }
                && file_path@ == text_or(self.file(), "unknown"@) && l == line && c == column
                && context@ == self.context_text() && u@ == underlying_error@,
    {
        let context = self.joined_context();
        AkaError::ConfigParseError {
            file_path: text_or_unknown(self.file_path),
            line,
            column,
            context,
            underlying_error: owned(underlying_error),
        }
    }

    /// A configuration with problems; the file is `unknown` when the context
    /// names none.
    pub fn to_config_validation_error(self, errors: Vec<ValidationError>) -> (r: AkaError)
        ensures
            r matches AkaError::ConfigValidationError { file_path, errors: es } && file_path@
                == text_or(self.file(), "unknown"@) && es == errors,
    {
        AkaError::ConfigValidationError { file_path: text_or_unknown(self.file_path), errors }
    }

    /// A file operation that failed; the file is `unknown` when the context
    /// names none.
    pub fn to_file_operation_error(self, underlying_error: &str) -> (r: AkaError)
        ensures
            r matches AkaError::FileOperationError { file_path, operation, underlying_error: u, context }
                && file_path@ == text_or(self.file(), "unknown"@) && operation@
                == self.operation_text() && u@ == underlying_error@ && context@
                == self.context_text(),
    {
        let context = self.joined_context();
        AkaError::FileOperationError {
            file_path: text_or_unknown(self.file_path),
            operation: self.operation,
            underlying_error: owned(underlying_error),
            context,
        }
    }

    /// An alias that could not be processed; alias and command line are
    /// `unknown` when the context names none.
    pub fn to_alias_processing_error(self, underlying_error: &str) -> (r: AkaError)
        ensures
            r matches AkaError::AliasProcessingError {
                alias_name,
                command_line,
                operation,
                underlying_error: u,
                context,
            } && alias_name@ == text_or(self.alias(), "unknown"@) && command_line@ == text_or(
                self.command(),
                "unknown"@,
            ) && operation@ == self.operation_text() && u@ == underlying_error@ && context@
                == self.context_text(),
    {
        let context = self.joined_context();
        AkaError::AliasProcessingError {
            alias_name: text_or_unknown(self.alias_name),
            command_line: text_or_unknown(self.command_line),
            operation: self.operation,
            underlying_error: owned(underlying_error),
            context,
        }
    }

    /// A lookup that could not be resolved.
    pub fn to_lookup_error(
        self,
        lookup_name: &str,
        key: &str,
        available_lookups: Vec<String>,
        available_keys: Vec<String>,
    ) -> (r: AkaError)
        ensures
            r matches AkaError::LookupError {
                lookup_name: l,
                key: k,
                available_lookups: al,
                available_keys: ak,
                context,
            } && l@ == lookup_name@ && k@ == key@ && al == available_lookups && ak
                == available_keys && context@ == self.context_text(),
    {
        let context = self.joined_context();
        AkaError::LookupError {
            lookup_name: owned(lookup_name),
            key: owned(key),
            available_lookups,
            available_keys,
            context,
        }
    }

    /// A chain of aliases that refer to each other.
    pub fn to_circular_reference_error(self, alias_chain: Vec<String>) -> (r: AkaError)
        ensures
            r matches AkaError::CircularReferenceError { alias_chain: c, context } && c
                == alias_chain && context@ == self.context_text(),
    {
        let context = self.joined_context();
        AkaError::CircularReferenceError { alias_chain, context }
    }

    /// Any other error, with suggestions.
    pub fn to_runtime_error(self, underlying_error: &str, suggestions: Vec<String>) -> (r: AkaError)
        ensures
            r matches AkaError::RuntimeError { operation, context, underlying_error: u, suggestions: s }
                && operation@ == self.operation_text() && context@ == self.context_text() && u@
                == underlying_error@ && s == suggestions,
    {
        let context = self.joined_context();
        AkaError::RuntimeError {
            operation: self.operation,
            context,
            underlying_error: owned(underlying_error),
            suggestions,
        }
    }
}

// ---------------------------------------------------------------------------
// Classifying an error by its text
// ---------------------------------------------------------------------------

/// The value of a decimal numeral: optional `+`, then one or more ASCII
/// digits, as `str::parse::<usize>` reads it (before the bound).
pub open spec fn numeral_value(s: Seq<char>) -> Option<nat> {
    let d = if s.len() > 0 && s[0] == '+' {
        s.skip(1)
    } else {
        s
    };
    if d.len() > 0 && all_digits(d) {
        Some(digits_value(d))
    } else {
        None
    }
}

/// `c` is an ASCII digit.
pub open spec fn is_digit(c: char) -> bool {
    '0' <= c && c <= '9'
}

/// Every character of `d` is an ASCII digit.
pub open spec fn all_digits(d: Seq<char>) -> bool {
    forall|i: int| 0 <= i < d.len() ==> is_digit(#[trigger] d[i])
}

/// The value of a sequence of ASCII digits.
pub open spec fn digits_value(d: Seq<char>) -> nat
    decreases d.len(),
{
    if d.len() == 0 {
        0
    } else {
        digits_value(d.drop_last()) * 10 + ((d.last() as int) - ('0' as int)) as nat
    }
}

/// `s` read as a `usize` by `str::parse`: `None` when it is no numeral or
/// too large.
pub open spec fn parsed_usize(s: Seq<char>) -> Option<usize> {
    match numeral_value(s) {
        Some(v) => if v <= usize::MAX {
            Some(v as usize)
        } else {
            None
        },
        None => None,
    }
}

/// Reads a decimal `usize` as `str::parse::<usize>` does.
pub fn parse_usize(s: &str) -> (r: Option<usize>)
    ensures
        r == parsed_usize(s@),
{
    let v = crate::text::chars_of(s);
    let mut i: usize = 0;
    if v.len() > 0 && v[0] == '+' {
        i = 1;
    }
    let ghost d = if s@.len() > 0 && s@[0] == '+' {
        s@.skip(1)
    } else {
        s@
    };
    assert(d =~= v@.skip(i as int));
    if i >= v.len() {
        return None;
    }
    let mut acc: usize = 0;
    let mut big = false;
    let start = i;
    while i < v.len()
        invariant
            start <= i <= v.len(),
            d == v@.skip(start as int),
            v@ == s@,
            d == (if s@.len() > 0 && s@[0] == '+' {
                s@.skip(1)
            } else {
                s@
            }),
            start < v.len(),
            forall|j: int| start <= j < i ==> is_digit(#[trigger] v@[j]),
            !big ==> acc == digits_value(v@.subrange(start as int, i as int)),
            big ==> digits_value(v@.subrange(start as int, i as int)) > usize::MAX,
        decreases v.len() - i,
    {
        let c = v[i];
        if !('0' <= c && c <= '9') {
            proof {
                let k = i - start;
                assert(d[k] == c);
                assert(!is_digit(d[k]));
                assert(!all_digits(d));
            }
            return None;
        }
        let dv = (c as u32 - '0' as u32) as usize;
        let ghost sub = v@.subrange(start as int, i + 1);
        assert(sub.drop_last() =~= v@.subrange(start as int, i as int));
        if !big {
            if acc > (usize::MAX - dv) / 10 {
                big = true;
                assert(digits_value(sub) > usize::MAX) by (nonlinear_arith)
                    requires
                        digits_value(sub) == digits_value(sub.drop_last()) * 10 + dv,
                        acc == digits_value(sub.drop_last()),
                        acc > (usize::MAX - dv) / 10,
                        dv <= 9,
                ;
            } else {
                acc = acc * 10 + dv;
            }
        } else {
            assert(digits_value(sub) >= digits_value(sub.drop_last())) by (nonlinear_arith)
                requires
                    digits_value(sub) == digits_value(sub.drop_last()) * 10 + dv,
            ;
        }
        i = i + 1;
    }
    assert(v@.subrange(start as int, v.len() as int) =~= d);
    assert(all_digits(d)) by {
        assert forall|j: int| 0 <= j < d.len() implies is_digit(#[trigger] d[j]) by {
            assert(d[j] == v@[j + start]);
        }
    }
    if big {
        None
    } else {
        Some(acc)
    }
}

/// The number that `pattern` (such as `line (\d+)`) captures first in a
/// message, read as a `usize`.
pub open spec fn labelled_number(error: Seq<char>, pattern: Seq<char>) -> Option<usize> {
    if regex_compiles(pattern) {
        match regex_first_group(pattern, error) {
            Some(digits) => parsed_usize(digits),
            None => None,
        }
    } else {
        None
    }
}

/// The line and column that a YAML error message names (`line N`,
/// `column N`), as far as it names them.
pub fn extract_yaml_position(error: &str) -> (r: (Option<usize>, Option<usize>))
    ensures
        r.0 == labelled_number(error@, "line (\\d+)"@),
        r.1 == labelled_number(error@, "column (\\d+)"@),
{
    let line = match first_capture("line (\\d+)", error) {
        Some(Some(d)) => parse_usize(d.as_str()),
        _ => None,
    };
    let column = match first_capture("column (\\d+)", error) {
        Some(Some(d)) => parse_usize(d.as_str()),
        _ => None,
    };
    (line, column)
}

/// The kind of error its text suggests.
pub enum ErrorKindGuess {
    Parse,
    FileOperation,
    Runtime,
}

/// What the text of an error suggests: a YAML error, a permission or
/// missing-file error, or anything else.
pub open spec fn guess_kind(text: Seq<char>) -> ErrorKindGuess {
    if contains(text, "YAML"@) || contains(text, "yaml"@) {
        ErrorKindGuess::Parse
    } else if contains(text, "permission"@) || contains(text, "Permission"@) || contains(
        text,
        "not found"@,
    ) || contains(text, "No such file"@) {
        ErrorKindGuess::FileOperation
    } else {
        ErrorKindGuess::Runtime
    }
}

/// An error with context, from the text of a plain error: YAML errors
/// become parse errors (with the line and column the text names), permission
/// and missing-file errors file-operation errors, anything else a runtime
/// error without suggestions.
pub fn enhance_error(error: &str, context: ErrorContext) -> (r: AkaError)
    ensures
        guess_kind(error@) is Parse ==> (r matches AkaError::ConfigParseError {
            file_path,
            line,
            column,
            context: c,
            underlying_error,
        } && file_path@ == text_or(context.file(), "unknown"@) && line == labelled_number(error@, "line (\\d+)"@) && column == labelled_number(error@, "column (\\d+)"@) && c@
            == context.context_text() && underlying_error@ == error@),
        guess_kind(error@) is FileOperation ==> (r matches AkaError::FileOperationError {
            file_path,
            operation,
            underlying_error,
            context: c,
        } && file_path@ == text_or(context.file(), "unknown"@) && operation@
            == context.operation_text() && underlying_error@ == error@ && c@
            == context.context_text()),
        guess_kind(error@) is Runtime ==> (r matches AkaError::RuntimeError {
            operation,
            context: c,
            underlying_error,
            suggestions,
        } && operation@ == context.operation_text() && c@ == context.context_text()
            && underlying_error@ == error@ && suggestions@.len() == 0),
{
    let (line, column) = extract_yaml_position(error);
    if contains_str(error, "YAML") || contains_str(error, "yaml") {
        context.to_config_parse_error(error, line, column)
    } else if contains_str(error, "permission") || contains_str(error, "Permission") {
        context.to_file_operation_error(error)
    } else if contains_str(error, "not found") || contains_str(error, "No such file") {
        context.to_file_operation_error(error)
    } else {
        context.to_runtime_error(error, Vec::new())
    }
}

} // verus!
