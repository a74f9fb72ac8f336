//! The outside resources the library consults — processes, files and
//! sockets — as traits that callers implement, so that the decisions made on
//! their answers can be verified for every answer.
use vstd::prelude::*;

verus! {

#[verifier::external_type_specification]
#[verifier::external_body]
pub struct ExIoError(std::io::Error);

#[verifier::external_type_specification]
#[verifier::external_body]
pub struct ExIoErrorKind(std::io::ErrorKind);

/// The text that `String::from_utf8_lossy` makes of `bytes`: the bytes
/// decoded as UTF-8, each invalid sequence replaced by U+FFFD.
pub uninterp spec fn lossy_text(bytes: Seq<u8>) -> Seq<char>;

/// Decodes `bytes` with `String::from_utf8_lossy`. The contract claims only
/// that the result is the text `lossy_text` names for these bytes.
#[verifier::external_body]
fn utf8_lossy(bytes: &[u8]) -> (r: String)
    ensures
        r@ == lossy_text(bytes@),
{
    String::from_utf8_lossy(bytes).into_owned()
}

/// What a finished process left behind.
#[derive(Debug, Clone)]
pub struct CommandOutput {
    pub stdout: Vec<u8>,
    pub stderr: Vec<u8>,
    pub success: bool,
    pub code: Option<i32>,
}

impl CommandOutput {
    /// The standard output as text.
    pub fn stdout_str(&self) -> (r: String)
        ensures
            r@ == lossy_text(self.stdout@),
    {
        utf8_lossy(self.stdout.as_slice())
    }

    /// The standard error as text.
    pub fn stderr_str(&self) -> (r: String)
        ensures
            r@ == lossy_text(self.stderr@),
    {
        utf8_lossy(self.stderr.as_slice())
    }
}

/// Runs programs. What a run reports is whatever the machine says: the
/// library assumes nothing of it.
pub trait CommandRunner {
    fn run(&self, program: &str, args: &[&str]) -> Result<CommandOutput, std::io::Error>;
}

/// Reads and writes files by path.
pub trait FileSystem {
    fn read_to_string(&self, path: &str) -> Result<String, std::io::Error>;

    fn write(&self, path: &str, contents: &[u8]) -> Result<(), std::io::Error>;

    fn path_exists(&self, path: &str) -> bool;

    fn create_dir_all(&self, path: &str) -> Result<(), std::io::Error>;

    fn is_file(&self, path: &str) -> bool;

    fn is_dir(&self, path: &str) -> bool;
}

/// Inspects the daemon's socket path.
pub trait SocketConnector {
    fn path_exists(&self, path: &str) -> bool;

    fn is_socket(&self, path: &str) -> Result<bool, std::io::Error>;
}

} // verus!
