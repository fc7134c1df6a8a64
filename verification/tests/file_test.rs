//! The file tools, on a disk that is kept in memory.
use cogent::builtin::build_tools;
use cogent::encoding::{detect_encoding_from_bytes, read_with_encoding, Encoding, ReadBytes};
use cogent::file::{
    conclude, edit_file as plan_edit, finish_edit, finish_write, no_working_dir,
    read_file as hand_back,
    validate_path, write_file as plan_write, CanonicalPath, PathProbe, ReliabilityConfig,
    WriteOutcome,
};
use cogent::openai::ToolDef;
use cogent::validate::{
    after_rollback, asks_compiler, compile_java, extension, settle, validate_after_write, Settled,
    ValidateError, Written,
};
use std::collections::HashMap;

/// The files, by their absolute paths.
struct Disk {
    files: HashMap<String, Vec<u8>>,
    directories: Vec<String>,
    /// What the compiler says, where there is one.
    javac: Option<(bool, Vec<u8>)>,
}

const ROOT: &str = "/work/project";

/// The parts of an absolute path, without `.` and `..`.
fn parts(path: &str) -> Vec<Vec<u8>> {
    let mut out: Vec<Vec<u8>> = Vec::new();
    for part in path.split('/') {
        match part {
            "" | "." => {}
            ".." => {
                out.pop();
            }
            name => out.push(name.as_bytes().to_vec()),
        }
    }
    out
}

fn canonical(path: &str) -> CanonicalPath {
    let components = parts(path);
    let display = components
        .iter()
        .map(|c| format!("/{}", String::from_utf8_lossy(c)))
        .collect();
    CanonicalPath {
        components,
        display,
    }
}

impl Disk {
    fn new() -> Self {
        Disk {
            files: HashMap::new(),
            directories: vec!["/work/project".into(), "/work".into(), "/etc".into()],
            javac: None,
        }
    }

    fn with(name: &str, content: &[u8]) -> Self {
        let mut disk = Self::new();
        disk.files
            .insert(format!("{ROOT}/{name}"), content.to_vec());
        disk
    }

    fn probe(&self, path: &str) -> PathProbe {
        let c = canonical(path);
        if self.files.contains_key(&c.display) || self.directories.contains(&c.display) {
            return PathProbe::Found(Ok(c));
        }
        let (parent, name) = path.rsplit_once('/').unwrap();
        let p = canonical(parent);
        let parent = if self.directories.contains(&p.display) {
            let display = format!("{}/{}", p.display, name);
            return PathProbe::Missing {
                parent: Some(Ok(p)),
                file_name: Some((name.as_bytes().to_vec(), display)),
            };
        } else {
            Err("No such file or directory".to_string())
        };
        PathProbe::Missing {
            parent: Some(parent),
            file_name: Some((name.as_bytes().to_vec(), String::new())),
        }
    }

    fn target(&self, path: &str) -> Result<CanonicalPath, String> {
        validate_path(path, self.probe(path), &Ok(canonical(ROOT)))
    }

    fn bytes(&self, path: &str) -> ReadBytes {
        self.files
            .get(path)
            .cloned()
            .ok_or_else(|| "No such file or directory".to_string())
    }

    fn text(&self, name: &str) -> String {
        String::from_utf8(self.files[&format!("{ROOT}/{name}")].clone()).unwrap()
    }

    fn read_file(&self, path: &str) -> Result<String, String> {
        let target = self.target(path).map(|t| t.display);
        let content = self
            .bytes(target.as_deref().unwrap_or_default())
            .and_then(|b| String::from_utf8(b).map_err(|e| e.to_string()));
        hand_back(&target, content)
    }

    /// Looks at a file that was written, and writes back what is to be written
    /// back.
    fn store(
        &mut self,
        path: &str,
        original: &Option<String>,
        expected: Encoding,
        java_check: bool,
    ) -> WriteOutcome {
        let ext = extension(path.rsplit('/').next().unwrap());
        let bytes = self.bytes(path);
        let text = bytes
            .clone()
            .and_then(|b| String::from_utf8(b).map_err(|e| e.to_string()));
        let javac = if asks_compiler(&ext, &bytes, original, expected, java_check) {
            compile_java(&self.javac)
        } else {
            None
        };
        let written = Written { bytes, text, javac };
        let settled = settle(&ext, &written, original, expected, java_check);
        if let Settled::Restore { bytes, .. } = &settled {
            self.files.insert(path.to_string(), bytes.clone());
        }
        conclude(settled, &Ok(()))
    }

    /// What is wrong with a file that was written over a text.
    fn check(
        &mut self,
        path: &str,
        original: &str,
        expected: Encoding,
        java_check: bool,
    ) -> Result<(), ValidateError> {
        match self.store(path, &Some(original.to_string()), expected, java_check) {
            WriteOutcome::Refused(e) => Err(e),
            _ => Ok(()),
        }
    }

    fn write_file(
        &mut self,
        path: &str,
        content: &str,
        cfg: ReliabilityConfig,
    ) -> Result<String, String> {
        let target = self.target(path).map(|t| t.display);
        let display = target.clone().unwrap_or_default();
        let existing = if self.files.contains_key(&display) {
            Some(self.bytes(&display))
        } else {
            None
        };
        let plan = plan_write(&target, content, &existing, cfg)?;
        self.files.insert(display.clone(), plan.bytes.clone());
        let outcome = self.store(&display, &plan.original, plan.encoding, cfg.java_check);
        finish_write(&display, &plan, outcome)
    }

    fn edit_file(
        &mut self,
        path: &str,
        old: &str,
        new: &str,
        replace_all: bool,
        cfg: ReliabilityConfig,
    ) -> Result<String, String> {
        let target = self.target(path).map(|t| t.display);
        let display = target.clone().unwrap_or_default();
        let plan = plan_edit(&target, &self.bytes(&display), old, new, replace_all, cfg)?;
        self.files.insert(display.clone(), plan.bytes);
        let original = Some(plan.original);
        let outcome = self.store(&display, &original, plan.encoding, cfg.java_check);
        finish_edit(&display, plan.count, outcome)
    }
}

fn at(name: &str) -> String {
    format!("{ROOT}/{name}")
}

fn default() -> ReliabilityConfig {
    ReliabilityConfig::default()
}

const EVIL: &str = "/work/project/../../../etc/passwd";

#[test]
fn test_validate_path_inside_root() {
    let disk = Disk::with("a.txt", b"x");
    let result = disk.target(&at("a.txt")).unwrap();
    assert!(result.components.starts_with(&canonical(ROOT).components));
}

#[test]
fn test_validate_path_traversal_rejected() {
    let result = Disk::new().target(EVIL);
    assert!(result.is_err());
}

#[test]
fn test_validate_path_new_file() {
    let result = Disk::new().target(&at("new.txt")).unwrap();
    assert!(result.display.ends_with("new.txt"));
    assert!(result.components.starts_with(&canonical(ROOT).components));
}

#[test]
fn paths_that_begin_alike_are_told_apart() {
    let mut disk = Disk::new();
    disk.directories.push("/work/project2".into());
    let err = disk.target("/work/project2/a.txt").unwrap_err();
    assert_eq!(
        err,
        "path '/work/project2/a.txt' is outside the allowed root directory '/work/project'"
    );
}

#[test]
fn failures_of_the_file_system_are_told() {
    let root = Ok(canonical(ROOT));
    let err = validate_path("x", PathProbe::Found(Err("loop".into())), &root).unwrap_err();
    assert_eq!(err, "invalid path 'x': loop");
    let none = PathProbe::Missing {
        parent: None,
        file_name: None,
    };
    assert_eq!(
        validate_path("x", none, &root).unwrap_err(),
        "invalid path 'x': no parent directory"
    );
    let unnamed = PathProbe::Missing {
        parent: Some(Ok(canonical(ROOT))),
        file_name: None,
    };
    assert_eq!(
        validate_path("x", unnamed, &root).unwrap_err(),
        "invalid path 'x': no file name"
    );
    let err = Disk::new().target("/work/project/no/a.txt").unwrap_err();
    assert!(err.starts_with("parent directory of '/work/project/no/a.txt' does not exist: "));
    let found = PathProbe::Found(Ok(canonical(ROOT)));
    assert_eq!(
        validate_path("x", found, &Err("gone".into())).unwrap_err(),
        "failed to canonicalize root: gone"
    );
    assert_eq!(
        no_working_dir("gone"),
        "failed to get current working directory: gone"
    );
}

#[test]
fn test_read_file() {
    let disk = Disk::with("test.txt", b"hello world");
    let content = disk.read_file(&at("test.txt")).unwrap();
    assert_eq!(content, "hello world");
    let err = disk.read_file(&at("absent.txt")).unwrap_err();
    assert!(err.starts_with("failed to read file '/work/project/absent.txt': "));
}

#[test]
fn test_write_file() {
    let mut disk = Disk::new();
    let result = disk
        .write_file(&at("out.txt"), "written content", default())
        .unwrap();
    assert!(result.contains("wrote"));
    assert_eq!(result, "wrote 15 bytes to /work/project/out.txt");
    assert_eq!(disk.text("out.txt"), "written content");
}

#[test]
fn test_read_file_traversal_rejected() {
    assert!(Disk::new().read_file(EVIL).is_err());
}

#[test]
fn test_write_file_traversal_rejected() {
    let mut disk = Disk::new();
    assert!(disk.write_file(EVIL, "x", default()).is_err());
    assert!(disk.files.is_empty());
}

#[test]
fn test_edit_file_single_replace() {
    let mut disk = Disk::with("a.txt", b"hello world\nfoo bar\n");
    let result = disk
        .edit_file(&at("a.txt"), "foo bar", "baz qux", false, default())
        .unwrap();
    assert!(result.contains("replaced 1"));
    assert_eq!(disk.text("a.txt"), "hello world\nbaz qux\n");
}

#[test]
fn test_edit_file_not_found() {
    let mut disk = Disk::with("a.txt", b"hello world");
    let result = disk.edit_file(&at("a.txt"), "absent", "x", false, default());
    assert!(result.is_err());
    assert!(result.unwrap_err().contains("not found"));
}

#[test]
fn test_edit_file_ambiguous() {
    let mut disk = Disk::with("a.txt", b"dup dup dup");
    let result = disk.edit_file(&at("a.txt"), "dup", "x", false, default());
    assert!(result.is_err());
    assert!(result.unwrap_err().contains("ambiguous"));
}

#[test]
fn test_edit_file_replace_all() {
    let mut disk = Disk::with("a.txt", b"dup dup dup");
    let result = disk
        .edit_file(&at("a.txt"), "dup", "x", true, default())
        .unwrap();
    assert!(result.contains("replaced 3"));
    assert_eq!(disk.text("a.txt"), "x x x");
}

#[test]
fn test_edit_file_empty_old_string() {
    let mut disk = Disk::with("a.txt", b"hello");
    let result = disk.edit_file(&at("a.txt"), "", "x", false, default());
    assert_eq!(result.unwrap_err(), "old_string must not be empty");
}

#[test]
fn test_edit_file_same_string() {
    let mut disk = Disk::with("a.txt", b"hello");
    let result = disk.edit_file(&at("a.txt"), "hello", "hello", false, default());
    assert_eq!(result.unwrap_err(), "old_string and new_string must differ");
}

#[test]
fn test_edit_file_traversal_rejected() {
    let mut disk = Disk::new();
    assert!(disk.edit_file(EVIL, "a", "b", false, default()).is_err());
}

fn tool(name: &str) -> ToolDef {
    build_tools().into_iter().find(|t| t.name == name).unwrap()
}

fn schema(name: &str) -> serde_json::Value {
    serde_json::from_str(&tool(name).parameters).unwrap()
}

#[test]
fn test_edit_name() {
    assert_eq!(tool("edit").name, "edit");
}

#[test]
fn test_edit_schema() {
    let schema = schema("edit");
    assert!(schema["properties"].get("path").is_some());
    assert!(schema["properties"].get("old_string").is_some());
    assert!(schema["properties"].get("new_string").is_some());
    assert!(schema["properties"].get("replace_all").is_some());
}

#[test]
fn test_file_read_name() {
    assert_eq!(tool("file_read").name, "file_read");
}

#[test]
fn test_file_write_name() {
    assert_eq!(tool("file_write").name, "file_write");
}

#[test]
fn test_file_read_schema() {
    let schema = schema("file_read");
    assert!(schema["properties"].get("path").is_some());
    assert_eq!(schema["required"][0], "path");
}

#[test]
fn test_file_write_schema() {
    let schema = schema("file_write");
    assert!(schema["properties"].get("path").is_some());
    assert!(schema["properties"].get("content").is_some());
    assert_eq!(schema["required"].as_array().unwrap().len(), 2);
}

#[test]
fn test_edit_file_sanitizes_leading_blank_lines() {
    let mut disk = Disk::with("a.txt", b"hello world\n");
    let result = disk
        .edit_file(&at("a.txt"), "hello world", "\n\nnew content", false, default())
        .unwrap();
    assert!(result.contains("replaced 1"));
    assert_eq!(disk.text("a.txt"), "new content\n");
}

#[test]
fn test_edit_file_rejects_replacement_char() {
    let mut disk = Disk::with("a.txt", b"hello");
    let result = disk.edit_file(&at("a.txt"), "hello", "wor\u{FFFB}ld", false, default());
    assert!(result.is_err());
    assert!(result.unwrap_err().contains("sanitizer"));
    assert_eq!(disk.text("a.txt"), "hello");
}

#[test]
fn test_edit_file_not_found_returns_closest_match() {
    let mut disk = Disk::with("a.txt", b"line1\n    target code\nline3\n");
    let result = disk.edit_file(&at("a.txt"), "        target code", "x", false, default());
    assert!(result.is_err());
    let err = result.unwrap_err();
    assert!(err.contains("not found"));
    assert!(err.contains("Closest match"));
    assert!(err.contains("target code"));
}

#[test]
fn test_edit_file_preserves_gbk_encoding() {
    let (cow, _, _) = encoding_rs::GBK.encode("中文内容");
    let mut disk = Disk::with("a.txt", cow.as_ref());
    let result = disk
        .edit_file(&at("a.txt"), "中文", "修改", false, default())
        .unwrap();
    assert!(result.contains("replaced 1"));
    let bytes = disk.bytes(&at("a.txt")).unwrap();
    let enc = detect_encoding_from_bytes(&bytes).unwrap();
    assert_eq!(enc, Encoding::Gbk);
    let (text, _) = read_with_encoding(&Ok(bytes)).unwrap();
    assert_eq!(text, "修改内容");
}

#[test]
fn test_edit_file_rejected_when_auto_approve_false() {
    let mut disk = Disk::with("a.txt", b"hello");
    let cfg = ReliabilityConfig {
        auto_approve: false,
        java_check: false,
    };
    let result = disk.edit_file(&at("a.txt"), "hello", "world", false, cfg);
    assert!(result.is_err());
    let err = result.unwrap_err();
    assert!(err.contains("rejected"));
    assert!(err.contains("-hello") && err.contains("+world"));
    assert_eq!(disk.text("a.txt"), "hello");
}

#[test]
fn test_write_file_invalid_json_rolls_back() {
    let original = r#"{"key": "value"}"#;
    let mut disk = Disk::with("a.json", original.as_bytes());
    let result = disk.write_file(&at("a.json"), "{invalid json", default());
    assert!(result.is_err());
    assert!(result.unwrap_err().contains("validation failed"));
    assert_eq!(disk.text("a.json"), original);
}

#[test]
fn test_write_file_valid_json_passes() {
    let mut disk = Disk::with("a.json", br#"{"key": "old"}"#);
    let result = disk
        .write_file(&at("a.json"), r#"{"key": "new"}"#, default())
        .unwrap();
    assert!(result.contains("wrote"));
    assert_eq!(disk.text("a.json"), r#"{"key": "new"}"#);
}

#[test]
fn test_write_file_sanitizes_leading_blank_lines() {
    let mut disk = Disk::with("a.java", b"package x;\n");
    let result = disk
        .write_file(&at("a.java"), "\n\npackage x;\nclass A {}\n", default())
        .unwrap();
    assert!(result.contains("wrote"));
    assert_eq!(disk.text("a.java"), "package x;\nclass A {}\n");
}

#[test]
fn test_write_file_rejects_replacement_char() {
    let mut disk = Disk::with("a.txt", b"hello");
    let result = disk.write_file(&at("a.txt"), "wor\u{FFFB}ld", default());
    assert!(result.is_err());
    assert!(result.unwrap_err().contains("sanitizer"));
    assert_eq!(disk.text("a.txt"), "hello");
}

#[test]
fn changes_of_existing_files_need_approval() {
    let cfg = ReliabilityConfig {
        auto_approve: false,
        java_check: false,
    };
    let mut disk = Disk::with("a.txt", b"old\n");
    let err = disk.write_file(&at("a.txt"), "new\n", cfg).unwrap_err();
    assert!(err.contains("edit rejected"));
    assert_eq!(disk.text("a.txt"), "old\n");
    assert!(disk.write_file(&at("b.txt"), "new\n", cfg).is_ok());
}

#[test]
fn the_bytes_that_were_written_are_counted() {
    let mut disk = Disk::with("a.txt", b"\xEF\xBB\xBFold");
    let said = disk.write_file(&at("a.txt"), "hello", default()).unwrap();
    assert!(said.starts_with("wrote 8 bytes"), "{said}");
    assert_eq!(disk.files[&at("a.txt")], b"\xEF\xBB\xBFhello");

    let (gbk, _, _) = encoding_rs::GBK.encode("中文");
    let mut disk = Disk::with("a.txt", gbk.as_ref());
    let said = disk.write_file(&at("a.txt"), "万象棋", default()).unwrap();
    assert!(said.starts_with("wrote 6 bytes"), "{said}");
    assert_eq!(
        read_with_encoding(&disk.bytes(&at("a.txt"))).unwrap(),
        ("万象棋".to_string(), Encoding::Gbk)
    );
}

#[test]
fn plans_carry_the_change() {
    let target = Ok("/p".to_string());
    let old: ReadBytes = Ok(b"old\n".to_vec());
    let plan = plan_write(&target, "new\n", &Some(old.clone()), default()).unwrap();
    let diff = plan.diff.unwrap();
    assert!(diff.contains("-old") && diff.contains("+new"), "{diff}");
    let plan = plan_edit(&target, &old, "old", "new", false, default()).unwrap();
    assert_eq!(plan.diff, diff);
}

#[test]
fn what_was_read_of_a_refused_path_is_kept_back() {
    let refused = Err("not there".to_string());
    assert_eq!(
        hand_back(&refused, Ok("secret".into())).unwrap_err(),
        "not there"
    );
}

#[test]
fn failed_writes_are_told() {
    let target = Ok("/p".to_string());
    let plan = plan_write(&target, "x", &None, default()).unwrap();
    assert!(plan.diff.is_none());
    let err = finish_write("/p", &plan, WriteOutcome::Failed("disk full".into())).unwrap_err();
    assert_eq!(
        err,
        "failed to write file '/p': failed to write file: disk full"
    );
    assert_eq!(
        finish_edit("/p", 2, WriteOutcome::Kept).unwrap(),
        "replaced 2 occurrence(s) in /p"
    );
}

#[test]
fn test_validate_json_valid() {
    let mut disk = Disk::with("a.json", br#"{"key": "value"}"#);
    let result = disk.check(
        &at("a.json"),
        r#"{"key": "value"}"#,
        Encoding::Utf8,
        false,
    );
    assert!(result.is_ok());
}

#[test]
fn test_validate_json_invalid_rolls_back() {
    let mut disk = Disk::with("a.json", b"{invalid json");
    let original = r#"{"key": "value"}"#;
    let result = disk.check(&at("a.json"), original, Encoding::Utf8, false);
    assert!(matches!(result, Err(ValidateError::InvalidJson { .. })));
    assert_eq!(disk.text("a.json"), original);
}

#[test]
fn test_validate_encoding_match() {
    let mut disk = Disk::with("a.txt", b"hello");
    let result = disk.check(&at("a.txt"), "hello", Encoding::Utf8, false);
    assert!(result.is_ok());
}

#[test]
fn test_validate_encoding_mismatch_rolls_back() {
    let (cow, _, _) = encoding_rs::GBK.encode("中文");
    let mut disk = Disk::with("a.txt", cow.as_ref());
    let original = "中文";
    let result = disk.check(&at("a.txt"), original, Encoding::Utf8, false);
    assert!(matches!(
        result,
        Err(ValidateError::EncodingMismatch { .. })
    ));
    assert_eq!(disk.text("a.txt"), original);
}

#[test]
fn test_validate_java_check_disabled() {
    let mut disk = Disk::with("a.java", b"not valid java");
    disk.javac = Some((false, b"error".to_vec()));
    let result = disk.check(&at("a.java"), "not valid java", Encoding::Utf8, false);
    assert!(result.is_ok());
}

#[test]
fn test_validate_java_check_no_javac_skips() {
    let mut disk = Disk::with("a.java", b"class A {}");
    let result = disk.check(&at("a.java"), "class A {}", Encoding::Utf8, true);
    assert!(result.is_ok());
}

#[test]
fn test_validate_other_extension_skips() {
    let mut disk = Disk::with("a.txt", b"any content");
    let result = disk.check(&at("a.txt"), "any content", Encoding::Utf8, false);
    assert!(result.is_ok());
}

#[test]
fn failed_compilation_rolls_back() {
    let mut disk = Disk::with("a.java", b"broken");
    disk.javac = Some((false, b"a.java:1: error".to_vec()));
    let err = disk
        .check(&at("a.java"), "class A {}", Encoding::Utf8, true)
        .unwrap_err();
    match &err {
        ValidateError::CompileFailed { stderr } => assert_eq!(stderr, "a.java:1: error"),
        other => panic!("expected a failed compilation, got {other:?}"),
    }
    assert_eq!(disk.text("a.java"), "class A {}");
    disk.javac = Some((true, Vec::new()));
    assert!(disk
        .check(&at("a.java"), "class A {}", Encoding::Utf8, true)
        .is_ok());
}

fn written(bytes: ReadBytes) -> Written {
    Written {
        bytes,
        text: Ok(String::new()),
        javac: None,
    }
}

#[test]
fn every_failure_of_the_check_restores() {
    let original = Some("old".to_string());
    let restores = |w: &Written| match settle("txt", w, &original, Encoding::Utf8, false) {
        Settled::Restore { bytes, error } => {
            assert_eq!(bytes, b"old");
            error
        }
        Settled::Keep => panic!("the file is kept"),
    };
    let io = restores(&written(Err("gone".into())));
    assert!(matches!(io, ValidateError::Io(_)), "{io:?}");
    let unknown = restores(&written(Ok(vec![0xFF, 0xFF])));
    assert!(unknown.to_string().contains("unable to detect"), "{unknown:?}");
    let other = restores(&written(Ok(b"\xEF\xBB\xBFx".to_vec())));
    assert!(matches!(other, ValidateError::EncodingMismatch { .. }), "{other:?}");

    let fine = written(Ok(b"new".to_vec()));
    assert!(matches!(
        settle("txt", &fine, &original, Encoding::Utf8, false),
        Settled::Keep
    ));
    let new = written(Err("gone".into()));
    assert!(matches!(
        settle("txt", &new, &None, Encoding::Utf8, false),
        Settled::Keep
    ));
    let refusal =
        validate_after_write("txt", &new, "old", Encoding::Utf8Bom, false).unwrap_err();
    assert_eq!(refusal.restore, b"\xEF\xBB\xBFold");
}

#[test]
fn the_compiler_is_asked_about_changed_java_files() {
    let old = Some("class A {}".to_string());
    let bytes: ReadBytes = Ok(b"class B {}".to_vec());
    assert!(asks_compiler("java", &bytes, &old, Encoding::Utf8, true));
    assert!(!asks_compiler("java", &bytes, &old, Encoding::Utf8, false));
    assert!(!asks_compiler("txt", &bytes, &old, Encoding::Utf8, true));
    assert!(!asks_compiler("java", &bytes, &None, Encoding::Utf8, true));
    assert!(!asks_compiler("java", &bytes, &old, Encoding::Gbk, true));
    assert!(!asks_compiler("java", &Err("gone".into()), &old, Encoding::Utf8, true));
}

#[test]
fn failed_changes_leave_the_file_as_it_was() {
    let before = b"{\"k\": 1}";
    let mut disk = Disk::with("a.json", before);
    let err = disk
        .edit_file(&at("a.json"), "1}", "1", false, default())
        .unwrap_err();
    assert!(err.contains("post-write validation failed"), "{err}");
    assert_eq!(disk.files[&at("a.json")], before);
    assert!(disk.write_file(&at("a.json"), "{", default()).is_err());
    assert_eq!(disk.files[&at("a.json")], before);

    let mut disk = Disk::with("a.java", b"\xEF\xBB\xBFclass A {}");
    disk.javac = Some((false, b"error".to_vec()));
    let cfg = ReliabilityConfig {
        auto_approve: true,
        java_check: true,
    };
    assert!(disk.edit_file(&at("a.java"), "A", "B", false, cfg).is_err());
    assert_eq!(disk.files[&at("a.java")], b"\xEF\xBB\xBFclass A {}");
}

#[test]
fn a_file_that_cannot_be_restored_is_told() {
    let settled = Settled::Restore {
        bytes: Vec::new(),
        error: ValidateError::InvalidJson { line: 1, col: 2 },
    };
    match conclude(settled, &Err("disk full".into())) {
        WriteOutcome::Refused(e) => assert!(e.to_string().contains("disk full"), "{e:?}"),
        other => panic!("expected a refusal, got {other:?}"),
    }
    assert!(matches!(conclude(Settled::Keep, &Ok(())), WriteOutcome::Kept));
}

#[test]
fn validation_errors_have_messages() {
    let json = ValidateError::InvalidJson { line: 2, col: 5 };
    assert_eq!(json.to_string(), "invalid JSON at line 2, column 5");
    let io = ValidateError::Io("gone".into());
    assert!(io.to_string().contains("gone"));
    let failed = after_rollback(json, &Err("full".into()));
    assert!(matches!(failed, ValidateError::Io(_)));
    assert!(failed.to_string().contains("full"));
}

#[test]
fn places_of_json_errors_are_told() {
    let mut disk = Disk::with("a.json", b"{\n  \"a\": }");
    match disk.check(&at("a.json"), "{}", Encoding::Utf8, false) {
        Err(ValidateError::InvalidJson { line, col }) => {
            assert_eq!((line, col), (2, 8));
        }
        other => panic!("expected an error, got {other:?}"),
    }
}
