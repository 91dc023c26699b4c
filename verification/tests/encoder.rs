use iva_prime_lib::encode::{encode_read, file_name, prepare_js_files, JsFile, ReadFile};

fn read(path: &str, contents: &[u8]) -> ReadFile {
    ReadFile { path: path.to_string(), contents: Some(contents.to_vec()) }
}

fn failed_read(path: &str) -> ReadFile {
    ReadFile { path: path.to_string(), contents: None }
}

fn pairs(files: Vec<JsFile>) -> Vec<(String, String)> {
    files.into_iter().map(|f| (f.name, f.content_base64)).collect()
}

#[test]
fn encodes_name_and_base64_contents() {
    let out = prepare_js_files(vec![read("/tmp/hello.txt", b"hello")]);
    assert_eq!(pairs(out), vec![("hello.txt".to_string(), "aGVsbG8=".to_string())]);
}

#[test]
fn encodes_empty_and_binary_contents() {
    let out = prepare_js_files(vec![read("a.bin", b""), read("b.bin", &[0u8, 1u8, 2u8])]);
    assert_eq!(
        pairs(out),
        vec![
            ("a.bin".to_string(), "".to_string()),
            ("b.bin".to_string(), "AAEC".to_string()),
        ]
    );
}

#[test]
fn failed_read_is_skipped_and_batch_delivers_the_rest() {
    let out = prepare_js_files(vec![
        read("/tmp/a.txt", b"aa"),
        failed_read("/tmp/does-not-exist.txt"),
        read("/tmp/b.txt", b"bb"),
    ]);
    assert_eq!(
        pairs(out),
        vec![
            ("a.txt".to_string(), "YWE=".to_string()),
            ("b.txt".to_string(), "YmI=".to_string()),
        ]
    );
}

#[test]
fn path_without_file_name_is_skipped() {
    let out = prepare_js_files(vec![
        read("/tmp/", b"xx"),
        read(".", b"xx"),
        read("/tmp/..", b"xx"),
        read("", b"xx"),
        read("/tmp/ok.txt", b"xx"),
    ]);
    assert_eq!(pairs(out), vec![("ok.txt".to_string(), "eHg=".to_string())]);
}

#[test]
fn file_name_takes_the_last_component() {
    assert_eq!(file_name(&"a/b/c.txt".to_string()), Some("c.txt".to_string()));
    assert_eq!(file_name(&"noslash.txt".to_string()), Some("noslash.txt".to_string()));
    assert_eq!(file_name(&"/".to_string()), None);
    assert_eq!(file_name(&"a/b/".to_string()), None);
    assert_eq!(file_name(&"a/.".to_string()), None);
    assert_eq!(file_name(&"a/..".to_string()), None);
    assert_eq!(file_name(&"a/...".to_string()), Some("...".to_string()));
}

#[test]
fn encode_read_mirrors_batch_elements() {
    let record = encode_read(&read("/x/y.txt", b"hello")).unwrap();
    assert_eq!(record.name, "y.txt");
    assert_eq!(record.content_base64, "aGVsbG8=");
    assert!(encode_read(&failed_read("/x/y.txt")).is_none());
    assert!(encode_read(&read("/x/", b"hello")).is_none());
}
