// These test cases mirror runs of the tool over the example fixtures with
// the command `sed s/e/E/g`, whose effect on the fixture bytes (replacing
// every `e` with `E`) is computed here directly.

use nabla::engine::{
    ExecMode, ItemOutcome, choose_mode, parallel_exec_multiple_files_ordered,
    parallel_exec_multiple_files_unordered, resolve_worker_count, serial_exec_multiple_files,
};
use nabla::inputs::{run_with_files_from_multi_args, split_file_list};
use nabla::item::exec_with_filter;
use nabla::outcome::{CmdOutcome, Warning};

const EXAMPLE_TXT: &str = "hello\nworld\n";
const EXAMPLE2_TXT: &str = "bye\n";

const EXAMPLE_TXT_PATCH: &str = "--- tests/fixtures/example.txt\n\
+++ tests/fixtures/example.txt\n\
@@ -1,2 +1,2 @@\n\
-hello\n\
+hEllo\n \
world\n";

const EXAMPLE2_TXT_PATCH: &str = "--- tests/fixtures/example2.txt\n\
+++ tests/fixtures/example2.txt\n\
@@ -1 +1 @@\n\
-bye\n\
+byE\n";

const EXAMPLE_FILTER_PATCH: &str = "--- <stdin>\n\
+++ <stdout>\n\
@@ -1,2 +1,2 @@\n\
-hello\n\
+hEllo\n \
world\n";

fn sed_e_to_upper(input: &[u8]) -> Vec<u8> {
    input.iter().map(|&b| if b == b'e' { b'E' } else { b }).collect()
}

fn fixture_content(path: &str) -> &'static str {
    match path {
        "tests/fixtures/example.txt" => EXAMPLE_TXT,
        "tests/fixtures/example2.txt" => EXAMPLE2_TXT,
        other => panic!("no such fixture: {}", other),
    }
}

fn run_item(path: &str) -> ItemOutcome {
    let original = fixture_content(path).as_bytes().to_vec();
    let stdout = sed_e_to_upper(&original);
    ItemOutcome { path: path.to_string(), outcome: CmdOutcome::Captured { original, stdout } }
}

fn multi_patch() -> Vec<u8> {
    let mut expected = EXAMPLE_TXT_PATCH.as_bytes().to_vec();
    expected.extend_from_slice(EXAMPLE2_TXT_PATCH.as_bytes());
    expected
}

fn serial_run(paths: &[&str]) -> (Vec<u8>, Vec<Warning>) {
    let items: Vec<ItemOutcome> = paths.iter().map(|p| run_item(p)).collect();
    let mut sink: Vec<u8> = Vec::new();
    let mut diags: Vec<Warning> = Vec::new();
    let r = serial_exec_multiple_files(&items, &mut sink, &mut diags);
    assert_eq!(r.ok(), Some(paths.len()));
    (sink, diags)
}

#[test]
fn test() {
    let (sink, diags) = serial_run(&["tests/fixtures/example.txt"]);
    assert_eq!(sink, EXAMPLE_TXT_PATCH.as_bytes().to_vec());
    assert_eq!(diags.len(), 0);
}

#[test]
fn test_filter() {
    let original = EXAMPLE_TXT.as_bytes().to_vec();
    let outcome =
        CmdOutcome::Captured { original: original.clone(), stdout: sed_e_to_upper(&original) };
    let mut sink: Vec<u8> = Vec::new();
    let mut diags: Vec<Warning> = Vec::new();
    let r = exec_with_filter(
        &"<stdin>".to_string(),
        &"<stdout>".to_string(),
        &outcome,
        &mut sink,
        &mut diags,
    );
    assert!(r.is_ok());
    assert_eq!(sink, EXAMPLE_FILTER_PATCH.as_bytes().to_vec());
    assert_eq!(diags.len(), 0);
}

#[test]
fn test_single_arg() {
    // The single trailing argument names the one input file.
    let (sink, _) = serial_run(&["tests/fixtures/example.txt"]);
    assert_eq!(sink, EXAMPLE_TXT_PATCH.as_bytes().to_vec());
}

#[test]
fn test_multi() {
    let listing = b"tests/fixtures/example.txt\ntests/fixtures/example2.txt".to_vec();
    let paths = split_file_list(&listing, false);
    let paths: Vec<String> =
        paths.into_iter().map(|p| String::from_utf8(p).unwrap()).collect();
    let refs: Vec<&str> = paths.iter().map(|p| p.as_str()).collect();
    let (sink, _) = serial_run(&refs);
    assert_eq!(sink, multi_patch());
}

#[test]
fn test_multi_null() {
    let listing = b"tests/fixtures/example.txt\0tests/fixtures/example2.txt".to_vec();
    let paths = split_file_list(&listing, true);
    let paths: Vec<String> =
        paths.into_iter().map(|p| String::from_utf8(p).unwrap()).collect();
    let refs: Vec<&str> = paths.iter().map(|p| p.as_str()).collect();
    let (sink, _) = serial_run(&refs);
    assert_eq!(sink, multi_patch());
}

#[test]
fn test_multi_args() {
    let cmd_args: Vec<String> = vec![
        "s/e/E/g".to_string(),
        "--".to_string(),
        "tests/fixtures/example.txt".to_string(),
        "tests/fixtures/example2.txt".to_string(),
    ];
    let (opts, files) = run_with_files_from_multi_args(&cmd_args);
    assert_eq!(opts, vec!["s/e/E/g".to_string()]);
    let refs: Vec<&str> = files.iter().map(|p| p.as_str()).collect();
    let (sink, _) = serial_run(&refs);
    assert_eq!(sink, multi_patch());
}

#[test]
fn test_multi_single_thread() {
    // One worker, not forced parallel: the Serial Fallback runs.
    let workers = resolve_worker_count(1, None);
    assert_eq!(choose_mode(workers, false, false), ExecMode::Serial);
    let (sink, _) = serial_run(&[
        "tests/fixtures/example.txt",
        "tests/fixtures/example2.txt",
    ]);
    assert_eq!(sink, multi_patch());
}

#[test]
fn test_multi_unordered() {
    let items = vec![
        run_item("tests/fixtures/example.txt"),
        run_item("tests/fixtures/example2.txt"),
    ];
    let arrival: Vec<usize> = vec![1, 0];
    let mut sink: Vec<u8> = Vec::new();
    let mut diags: Vec<Warning> = Vec::new();
    let r = parallel_exec_multiple_files_unordered(&items, 2, &arrival, &mut sink, &mut diags);
    assert_eq!(r.ok(), Some(2));
    assert_eq!(diags.len(), 0);
    let mut expected_sort: Vec<&[u8]> = multi_patch_lines();
    expected_sort.sort();
    let mut actual_sort: Vec<&[u8]> = split_lines(&sink);
    actual_sort.sort();
    let expected_sort: Vec<Vec<u8>> = expected_sort.iter().map(|l| l.to_vec()).collect();
    let actual_sort: Vec<Vec<u8>> = actual_sort.iter().map(|l| l.to_vec()).collect();
    assert_eq!(actual_sort, expected_sort);
}

fn split_lines(data: &[u8]) -> Vec<&[u8]> {
    data.split(|&b| b == b'\n').filter(|l| !l.is_empty()).collect()
}

fn multi_patch_lines() -> Vec<&'static [u8]> {
    let a = EXAMPLE_TXT_PATCH.as_bytes();
    let b = EXAMPLE2_TXT_PATCH.as_bytes();
    let mut lines = Vec::new();
    lines.extend(a.split(|&x| x == b'\n').filter(|l| !l.is_empty()));
    lines.extend(b.split(|&x| x == b'\n').filter(|l| !l.is_empty()));
    lines
}

#[test]
fn test_multi_single_thread_unordered_force_parallel() {
    // One worker, forced parallel and unordered: the pool runs with a
    // single worker, whose completion order is the input order.
    let workers = resolve_worker_count(1, None);
    assert_eq!(choose_mode(workers, true, true), ExecMode::Unordered);
    let items = vec![
        run_item("tests/fixtures/example.txt"),
        run_item("tests/fixtures/example2.txt"),
    ];
    let arrival: Vec<usize> = vec![0, 1];
    let mut sink: Vec<u8> = Vec::new();
    let mut diags: Vec<Warning> = Vec::new();
    let r = parallel_exec_multiple_files_unordered(&items, 1, &arrival, &mut sink, &mut diags);
    assert_eq!(r.ok(), Some(2));
    assert_eq!(sink, multi_patch());
}

#[test]
fn test_files_from() {
    let file_listing = b"tests/fixtures/example.txt\ntests/fixtures/example2.txt\n".to_vec();
    let paths = split_file_list(&file_listing, false);
    let paths: Vec<String> =
        paths.into_iter().map(|p| String::from_utf8(p).unwrap()).collect();
    let refs: Vec<&str> = paths.iter().map(|p| p.as_str()).collect();
    let (sink, _) = serial_run(&refs);
    assert_eq!(sink, multi_patch());
}

#[test]
fn test_files_from_stdin() {
    let listing = b"tests/fixtures/example.txt\ntests/fixtures/example2.txt".to_vec();
    let paths = split_file_list(&listing, false);
    assert_eq!(paths.len(), 2);
    let paths: Vec<String> =
        paths.into_iter().map(|p| String::from_utf8(p).unwrap()).collect();
    let refs: Vec<&str> = paths.iter().map(|p| p.as_str()).collect();
    let (sink, _) = serial_run(&refs);
    assert_eq!(sink, multi_patch());
}

#[test]
fn test_files_from_stdin_null() {
    let listing = b"tests/fixtures/example.txt\0tests/fixtures/example2.txt".to_vec();
    let paths = split_file_list(&listing, true);
    assert_eq!(paths.len(), 2);
    let paths: Vec<String> =
        paths.into_iter().map(|p| String::from_utf8(p).unwrap()).collect();
    let refs: Vec<&str> = paths.iter().map(|p| p.as_str()).collect();
    let (sink, _) = serial_run(&refs);
    assert_eq!(sink, multi_patch());
}
