use aka_lib::aka::ProcessingMode;
use aka_lib::system::{CommandOutput, FileSystem, SocketConnector};
use aka_lib::timing::{TimingCollector, TimingData};
use std::collections::HashMap;
use std::io::Write;
use std::sync::{Arc, Mutex};
use std::time::{Duration, SystemTime};

/// A socket stream whose writes are kept.
struct MockSocketStream {
    write_data: Arc<Mutex<Vec<u8>>>,
}

impl MockSocketStream {
    fn new(_response: &str) -> Self {
        MockSocketStream { write_data: Arc::new(Mutex::new(Vec::new())) }
    }

    fn written_string(&self) -> String {
        String::from_utf8_lossy(&self.write_data.lock().unwrap()).to_string()
    }
}

impl Write for MockSocketStream {
    fn write(&mut self, buf: &[u8]) -> std::io::Result<usize> {
        self.write_data.lock().unwrap().extend_from_slice(buf);
        Ok(buf.len())
    }

    fn flush(&mut self) -> std::io::Result<()> {
        Ok(())
    }
}

struct MockSocketConnector {
    socket_exists: bool,
}

impl MockSocketConnector {
    fn not_found() -> Self {
        MockSocketConnector { socket_exists: false }
    }
}

impl SocketConnector for MockSocketConnector {
    fn path_exists(&self, _path: &str) -> bool {
        self.socket_exists
    }

    fn is_socket(&self, _path: &str) -> Result<bool, std::io::Error> {
        Ok(self.socket_exists)
    }
}

#[derive(Default)]
struct MockFileSystem {
    files: Mutex<HashMap<String, Vec<u8>>>,
    directories: Mutex<Vec<String>>,
}

impl MockFileSystem {
    fn new() -> Self {
        Self::default()
    }

    fn with_file(self, path: &str, contents: &str) -> Self {
        self.files.lock().unwrap().insert(path.to_string(), contents.as_bytes().to_vec());
        self
    }

    fn with_dir(self, path: &str) -> Self {
        self.directories.lock().unwrap().push(path.to_string());
        self
    }
}

impl FileSystem for MockFileSystem {
    fn read_to_string(&self, path: &str) -> Result<String, std::io::Error> {
        self.files
            .lock()
            .unwrap()
            .get(path)
            .map(|b| String::from_utf8_lossy(b).to_string())
            .ok_or_else(|| std::io::Error::new(std::io::ErrorKind::NotFound, "file not found"))
    }

    fn write(&self, path: &str, contents: &[u8]) -> Result<(), std::io::Error> {
        self.files.lock().unwrap().insert(path.to_string(), contents.to_vec());
        Ok(())
    }

    fn path_exists(&self, path: &str) -> bool {
        self.files.lock().unwrap().contains_key(path)
            || self.directories.lock().unwrap().iter().any(|d| d == path || path.starts_with(&format!("{d}/")))
    }

    fn create_dir_all(&self, path: &str) -> Result<(), std::io::Error> {
        self.directories.lock().unwrap().push(path.to_string());
        Ok(())
    }

    fn is_file(&self, path: &str) -> bool {
        self.files.lock().unwrap().contains_key(path)
    }

    fn is_dir(&self, path: &str) -> bool {
        self.directories.lock().unwrap().iter().any(|d| d == path)
    }
}

#[test]
fn test_mock_socket_stream_write() {
    let mut stream = MockSocketStream::new("");
    stream.write_all(b"test data").unwrap();
    assert_eq!(stream.written_string(), "test data");
}

#[test]
fn test_mock_socket_connector_not_found() {
    let connector = MockSocketConnector::not_found();
    assert!(!connector.path_exists("/tmp/test.sock"));
}

#[test]
fn test_mock_filesystem_exists() {
    let fs = MockFileSystem::new().with_file("/tmp/file.txt", "").with_dir("/tmp/dir");
    assert!(fs.path_exists("/tmp/file.txt"));
    assert!(fs.path_exists("/tmp/dir"));
    assert!(!fs.path_exists("/tmp/nonexistent"));
}

#[test]
fn test_mock_filesystem_is_file_is_dir() {
    let fs = MockFileSystem::new().with_file("/tmp/file.txt", "").with_dir("/tmp/dir");
    assert!(fs.is_file("/tmp/file.txt"));
    assert!(!fs.is_dir("/tmp/file.txt"));
    assert!(fs.is_dir("/tmp/dir"));
    assert!(!fs.is_file("/tmp/dir"));
}

#[test]
fn test_command_output_from_std_output() {
    let output = CommandOutput { stdout: b"stdout".to_vec(), stderr: b"stderr".to_vec(), success: true, code: Some(0) };
    assert_eq!(output.stdout_str(), "stdout");
    assert_eq!(output.stderr_str(), "stderr");
}

#[test]
fn command_output_replaces_invalid_utf8() {
    let output = CommandOutput { stdout: vec![b'a', 0xff, b'b'], stderr: Vec::new(), success: false, code: None };
    assert_eq!(output.stdout_str(), "a\u{FFFD}b");
}

#[test]
fn mock_filesystem_reads_what_was_written() {
    let fs = MockFileSystem::new();
    fs.write("/tmp/test.txt", b"hello").unwrap();
    assert_eq!(fs.read_to_string("/tmp/test.txt").unwrap(), "hello");
    fs.create_dir_all("/tmp/d").unwrap();
    assert!(fs.is_dir("/tmp/d"));
}

#[test]
fn test_timing_collector_creation() {
    let collector = TimingCollector::new(ProcessingMode::Daemon);
    assert!(matches!(collector.mode, ProcessingMode::Daemon));
    let collector2 = TimingCollector::new(ProcessingMode::Direct);
    assert!(matches!(collector2.mode, ProcessingMode::Direct));
}

#[test]
fn test_timing_collector_end_without_start() {
    let mut collector = TimingCollector::new(ProcessingMode::Direct);
    let config_duration = collector.end_config_load();
    assert!(config_duration.is_none());
    let ipc_duration = collector.end_ipc();
    assert!(ipc_duration.is_none());
    let processing_duration = collector.end_processing();
    assert_eq!(processing_duration, Duration::default());
}

#[test]
fn timing_collector_phases_are_measured() {
    let mut collector = TimingCollector::new(ProcessingMode::Direct);
    assert!(collector.config_start.is_none());
    collector.start_config_load();
    assert!(collector.config_start.is_some());
    collector.start_ipc();
    collector.start_processing();
    let config = collector.end_config_load().unwrap();
    assert!(collector.end_ipc().is_some());
    let processing = collector.end_processing();
    let data = collector.finalize();
    assert!(data.config_load_duration.unwrap() >= config);
    assert!(data.ipc_duration.is_some());
    assert!(data.processing_duration >= processing);
    assert!(data.total_duration >= data.config_load_duration.unwrap());
}

#[test]
fn test_processing_mode_display() {
    let daemon_str = format!("{:?}", ProcessingMode::Daemon);
    let direct_str = format!("{:?}", ProcessingMode::Direct);
    assert_eq!(daemon_str, "Daemon");
    assert_eq!(direct_str, "Direct");
}

#[test]
fn test_timing_data_clone() {
    let original = TimingData {
        total_duration: Duration::from_millis(100),
        config_load_duration: Some(Duration::from_millis(30)),
        ipc_duration: Some(Duration::from_millis(20)),
        processing_duration: Duration::from_millis(50),
        mode: ProcessingMode::Daemon,
        timestamp: SystemTime::now(),
    };
    let cloned = original.clone();
    assert_eq!(original.total_duration, cloned.total_duration);
    assert_eq!(original.config_load_duration, cloned.config_load_duration);
    assert_eq!(original.ipc_duration, cloned.ipc_duration);
    assert_eq!(original.processing_duration, cloned.processing_duration);
}

#[test]
fn test_timing_collector_clone() {
    let collector = TimingCollector::new(ProcessingMode::Direct);
    let cloned = collector.clone();
    assert!(matches!(cloned.mode, ProcessingMode::Direct));
}

#[test]
fn finalize_without_processing_gives_no_processing_time() {
    let mut collector = TimingCollector::new(ProcessingMode::Daemon);
    collector.start_config_load();
    let data = collector.finalize();
    assert_eq!(data.processing_duration, Duration::ZERO);
    assert!(data.config_load_duration.is_some());
    assert!(data.ipc_duration.is_none());
}
