use iva_prime_lib::dispatch::Dispatcher;
use iva_prime_lib::encode::{prepare_js_files, ReadFile};
use iva_prime_lib::normalize::parse_files_from_args;

#[test]
fn batch_submitted_before_readiness_arrives_once_encoded_in_order() {
    // Raw tokens from the operating system: a flag, a file URL, a bare path.
    let tokens = vec![
        "-v".to_string(),
        "file:///tmp/a.txt".to_string(),
        "/tmp/b.txt".to_string(),
    ];
    let files = parse_files_from_args(tokens);
    assert_eq!(files, vec!["/tmp/a.txt".to_string(), "/tmp/b.txt".to_string()]);

    // The surface is not ready: the batch is queued, nothing is delivered.
    let mut dispatcher = Dispatcher::new();
    assert_eq!(dispatcher.submit(files), None);

    // The ready signal flushes the queue as one ordered batch.
    let flushed = dispatcher.on_ready();
    assert_eq!(flushed, vec!["/tmp/a.txt".to_string(), "/tmp/b.txt".to_string()]);

    // The delivery side reads each path and encodes the batch.
    let reads: Vec<ReadFile> = flushed
        .into_iter()
        .zip([&b"alpha"[..], &b"beta"[..]])
        .map(|(path, contents)| ReadFile { path, contents: Some(contents.to_vec()) })
        .collect();
    let records = prepare_js_files(reads);
    assert_eq!(records.len(), 2);
    assert_eq!(records[0].name, "a.txt");
    assert_eq!(records[0].content_base64, "YWxwaGE=");
    assert_eq!(records[1].name, "b.txt");
    assert_eq!(records[1].content_base64, "YmV0YQ==");
}
