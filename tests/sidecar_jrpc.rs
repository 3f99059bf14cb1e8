use the_search_thing::indexing::{
    HelixTextStore, normalize_paths, on_lookup, on_writes, summarize_results, ExistingFileRecord, TextIndexResult,
    DUPLICATE_CONTENT_HASH,
};
use the_search_thing::jobs::{
    get_job, make_job_id, now_string, put_job, start_job, store, update_job, IndexJobStatus, JobState, JobUpdate,
};
use the_search_thing::json::JsonValue;
use the_search_thing::protocol::{
    parse_error_response, parse_usize, JsonRpcRequest, INVALID_PARAMS, INVALID_REQUEST, METHOD_NOT_FOUND,
    PARSE_ERROR,
};
use the_search_thing::rpc::{
    backend_response, check_index_start_payload, check_search_payload, handle, handle_request, handle_walk_text_batch,
    job_status_result, map_http_error_to_rpc, BackendFailure, Call, Dispatch, ServiceInfo,
};
use the_search_thing::search::{
    extract_keywords, fuse_results, has_keyword_match, has_thumbnail, search_results, SearchItem, Source,
};
use the_search_thing::walk::{normalize_extensions, normalize_file_names, walk_text_batch, WalkEntry};

fn text(s: &str) -> JsonValue {
    JsonValue::Str(s.to_string())
}

fn num(n: u64) -> JsonValue {
    JsonValue::Number(n.to_string())
}

fn obj(fields: Vec<(&str, JsonValue)>) -> JsonValue {
    JsonValue::Object(fields.into_iter().map(|(k, v)| (k.to_string(), v)).collect())
}

fn arr(items: Vec<JsonValue>) -> JsonValue {
    JsonValue::Array(items)
}

fn texts(items: &[&str]) -> JsonValue {
    arr(items.iter().map(|s| text(s)).collect())
}

fn get<'a>(v: &'a JsonValue, key: &str) -> Option<&'a JsonValue> {
    match v {
        JsonValue::Object(fields) => fields.iter().find(|(k, _)| k == key).map(|(_, v)| v),
        _ => None,
    }
}

fn request(version: &str, id: JsonValue, method: &str, params: Option<JsonValue>) -> JsonRpcRequest {
    JsonRpcRequest { jsonrpc: version.to_string(), id, method: method.to_string(), params }
}

fn info() -> ServiceInfo {
    ServiceInfo {
        version: "0.1.0".to_string(),
        backend_url: "http://127.0.0.1:8000".to_string(),
        index_mode: "python-proxy".to_string(),
        search_mode: "rust-helix".to_string(),
    }
}

fn file_entry(path: &str, name: &str, ext: Option<&str>) -> WalkEntry {
    WalkEntry {
        path: path.to_string(),
        is_file: true,
        file_name: Some(name.to_string()),
        extension: ext.map(|e| e.to_string()),
    }
}

fn dir_entry(path: &str) -> WalkEntry {
    WalkEntry { path: path.to_string(), is_file: false, file_name: None, extension: None }
}

fn walk_request(cursor: u64, batch_size: u64) -> JsonRpcRequest {
    request(
        "2.0",
        num(2),
        "fs.walkTextBatch",
        Some(obj(vec![
            ("dir", text("/tmp/walk")),
            ("textExts", texts(&[".txt", ".md"])),
            ("ignoreExts", texts(&[".bin"])),
            ("ignoreFiles", texts(&[])),
            ("cursor", num(cursor)),
            ("batchSize", num(batch_size)),
        ])),
    )
}

fn walk_entries() -> Vec<(WalkEntry, Option<String>)> {
    vec![
        (dir_entry("/tmp/walk"), None),
        (file_entry("/tmp/walk/ignore.bin", "ignore.bin", Some("bin")), None),
        (file_entry("/tmp/walk/one.txt", "one.txt", Some("txt")), Some("alpha".to_string())),
        (file_entry("/tmp/walk/two.md", "two.md", Some("md")), Some("beta".to_string())),
    ]
}

fn run_walk(cursor: u64, batch_size: u64) -> the_search_thing::walk::WalkTextBatchResult {
    match handle_request(walk_request(cursor, batch_size)) {
        Dispatch::Run { call: Call::WalkTextBatch(params), .. } => walk_text_batch(params, &walk_entries()),
        other => panic!("unexpected dispatch: {:?}", other),
    }
}

fn file_hit(path: &str, content: &str, id: &str) -> JsonValue {
    obj(vec![("path", text(path)), ("content", text(content)), ("file_id", text(id))])
}

#[test]
fn jrpc_health_ping_returns_ok() {
    let req = request("2.0", num(1), "health.ping", None);
    let response = match handle_request(req) {
        Dispatch::Run { id, call: Call::HealthPing } => handle(id, info()),
        other => panic!("unexpected dispatch: {:?}", other),
    };
    assert_eq!(response.id, num(1));
    let result = response.result.expect("result object");
    assert_eq!(get(&result, "ok"), Some(&JsonValue::Bool(true)));
    assert_eq!(get(&result, "service"), Some(&text("the-search-thing-sidecar")));
}

#[test]
fn jrpc_fs_walk_text_batch_returns_expected_batch() {
    let result = run_walk(0, 10);
    assert!(result.batch.len() >= 2);
    assert_eq!(result.done, true);
    let response = handle_walk_text_batch(num(2), Ok(result));
    let value = response.result.expect("result object");
    match get(&value, "batch") {
        Some(JsonValue::Array(items)) => assert_eq!(items.len(), 2),
        other => panic!("batch array: {:?}", other),
    }
    assert_eq!(get(&value, "done"), Some(&JsonValue::Bool(true)));
}

#[test]
fn jrpc_index_start_and_status_use_python_proxy_contract() {
    let start_body = r#"{"success":true,"job_id":"job-test-123"}"#;
    let parsed = obj(vec![("success", JsonValue::Bool(true)), ("job_id", text("job-test-123"))]);
    let start_result = check_index_start_payload(&parsed, start_body).expect("index start result");
    assert_eq!(get(&start_result, "success"), Some(&JsonValue::Bool(true)));
    assert_eq!(get(&start_result, "job_id"), Some(&text("job-test-123")));

    let req = request("2.0", num(4), "index.status", Some(obj(vec![("job_id", text("job-test-123"))])));
    let job_id = match handle_request(req) {
        Dispatch::Run { call: Call::IndexStatus { job_id }, .. } => job_id,
        other => panic!("unexpected dispatch: {:?}", other),
    };
    let table = store();
    assert!(job_status_result(&table, &job_id).is_none());
    let backend_status = obj(vec![("job_id", text("job-test-123")), ("status", text("completed"))]);
    let response = backend_response(num(4), Ok(backend_status), "Index status failed");
    assert_eq!(response.id, num(4));
    assert!(response.error.is_none());
    let status_result = response.result.expect("index status result");
    assert_eq!(get(&status_result, "job_id"), Some(&text("job-test-123")));
    assert_eq!(get(&status_result, "status"), Some(&text("completed")));
}

#[test]
fn jrpc_search_query_python_proxy_returns_results() {
    let body = r#"{"results":[{"label":"file","content":"hello","path":"C:/repo/a.txt"}]}"#;
    let parsed = obj(vec![(
        "results",
        arr(vec![obj(vec![("label", text("file")), ("content", text("hello")), ("path", text("C:/repo/a.txt"))])]),
    )]);
    let result = check_search_payload(parsed, body).expect("search result");
    let results = match get(&result, "results") {
        Some(JsonValue::Array(items)) => items,
        other => panic!("results array: {:?}", other),
    };
    assert_eq!(results.len(), 1);
    assert_eq!(get(&results[0], "label"), Some(&text("file")));
}

#[test]
fn wrong_version_is_invalid_request() {
    let req = request("1.0", text("abc"), "health.ping", None);
    match handle_request(req) {
        Dispatch::Reply(resp) => {
            assert_eq!(resp.id, text("abc"));
            let error = resp.error.expect("error");
            assert_eq!(error.code, INVALID_REQUEST);
            assert_eq!(error.message, "Invalid Request");
            assert_eq!(error.data, None);
            assert!(resp.result.is_none());
        },
        other => panic!("unexpected dispatch: {:?}", other),
    }
}

#[test]
fn unknown_method_is_not_found_with_its_name() {
    let req = request("2.0", num(7), "nope.nothing", None);
    match handle_request(req) {
        Dispatch::Reply(resp) => {
            let error = resp.error.expect("error");
            assert_eq!(error.code, METHOD_NOT_FOUND);
            assert_eq!(error.message, "Method not found");
            assert_eq!(error.data, Some(obj(vec![("method", text("nope.nothing"))])));
        },
        other => panic!("unexpected dispatch: {:?}", other),
    }
}

#[test]
fn missing_or_bad_params_are_invalid_params() {
    let missing = request("2.0", num(8), "index.start", None);
    match handle_request(missing) {
        Dispatch::Reply(resp) => {
            let error = resp.error.expect("error");
            assert_eq!(error.code, INVALID_PARAMS);
            assert_eq!(error.data, Some(obj(vec![("reason", text("params are required"))])));
        },
        other => panic!("unexpected dispatch: {:?}", other),
    }
    let bad = request("2.0", num(9), "search.query", Some(obj(vec![("q", num(3))])));
    match handle_request(bad) {
        Dispatch::Reply(resp) => assert_eq!(resp.error.expect("error").code, INVALID_PARAMS),
        other => panic!("unexpected dispatch: {:?}", other),
    }
    let negative = request(
        "2.0",
        num(10),
        "fs.walk_text_batch",
        Some(obj(vec![
            ("dir", text("/x")),
            ("textExts", texts(&[".txt"])),
            ("cursor", JsonValue::Number("-1".to_string())),
            ("batchSize", num(1)),
        ])),
    );
    match handle_request(negative) {
        Dispatch::Reply(resp) => assert_eq!(resp.error.expect("error").code, INVALID_PARAMS),
        other => panic!("unexpected dispatch: {:?}", other),
    }
}

#[test]
fn parse_error_has_null_id() {
    let resp = parse_error_response("expected value at line 1 column 1".to_string());
    assert_eq!(resp.id, JsonValue::Null);
    let error = resp.error.expect("error");
    assert_eq!(error.code, PARSE_ERROR);
    assert_eq!(error.message, "Parse error");
    assert!(resp.result.is_none());
}

#[test]
fn walk_batches_resume_from_cursor() {
    let first = run_walk(0, 1);
    assert_eq!(first.done, false);
    assert_eq!(first.batch, vec![("/tmp/walk/one.txt".to_string(), "alpha".to_string())]);
    assert_eq!(first.cursor, 3);
    let second = run_walk(first.cursor as u64, 1);
    assert_eq!(second.batch, vec![("/tmp/walk/two.md".to_string(), "beta".to_string())]);
    assert_eq!(second.done, true);
    assert_eq!(second.cursor, 4);
    let third = run_walk(second.cursor as u64, 1);
    assert!(third.batch.is_empty());
    assert_eq!(third.done, true);
}

#[test]
fn walk_with_large_batch_is_done_with_all_files() {
    let result = run_walk(0, 3);
    assert_eq!(result.done, true);
    assert_eq!(result.batch.len(), 2);
    assert_eq!(result.scanned_count, 3);
    assert_eq!(result.skipped_count, 1);
    assert_eq!(result.cursor, 4);
}

#[test]
fn extensions_and_names_are_normalized() {
    let exts = normalize_extensions(vec![" TXT ".to_string(), ".Md".to_string(), "   ".to_string()]);
    assert_eq!(exts, vec![".txt".to_string(), ".md".to_string()]);
    let names = normalize_file_names(vec![" README.md ".to_string(), "".to_string()]);
    assert_eq!(names, vec!["readme.md".to_string()]);
    let paths = normalize_paths(vec!["  C:/repo  ".to_string(), " ".to_string(), "\u{3000}\ta b\u{a0}\n".to_string()]);
    assert_eq!(paths, vec!["C:/repo".to_string(), "a b".to_string()]);
    assert_eq!(normalize_paths(vec!["\u{2003}\u{85}".to_string(), "x\u{200b}".to_string()]), vec!["x\u{200b}".to_string()]);
}

#[test]
fn usize_numbers_are_read_exactly() {
    assert_eq!(parse_usize("0"), Some(0));
    assert_eq!(parse_usize("18446744073709551615"), Some(usize::MAX));
    assert_eq!(parse_usize("18446744073709551616"), None);
    assert_eq!(parse_usize("1.0"), None);
    assert_eq!(parse_usize(""), None);
}

#[test]
fn duplicate_content_is_skipped_once() {
    let first = on_lookup("/a/one.txt", Ok(None));
    assert!(first.is_none());
    let indexed = on_writes("/a/one.txt", "file-1-1", Ok(()), Ok(()));
    assert!(indexed.indexed);
    assert_eq!(indexed.error, None);
    let existing = ExistingFileRecord { file_id: "file-1-1".to_string() };
    let skip = on_lookup("/b/copy.txt", Ok(Some(existing))).expect("skip");
    assert!(!skip.indexed);
    assert_eq!(skip.file_id, Some("file-1-1".to_string()));
    assert_eq!(skip.error, Some(DUPLICATE_CONTENT_HASH.to_string()));
    let store_error = on_lookup("/c/x.txt", Err("store down".to_string()));
    assert!(store_error.is_none());
    let failed = on_writes("/a/two.txt", "file-1-2", Ok(()), Err("embed failed".to_string()));
    assert!(!failed.indexed);
    assert_eq!(failed.error, Some("embed failed".to_string()));
}

#[test]
fn results_summarize_into_counts() {
    let results = vec![
        TextIndexResult { path: "a".to_string(), file_id: Some("1".to_string()), indexed: true, error: None },
        TextIndexResult {
            path: "b".to_string(),
            file_id: Some("1".to_string()),
            indexed: false,
            error: Some(DUPLICATE_CONTENT_HASH.to_string()),
        },
        TextIndexResult { path: "c".to_string(), file_id: None, indexed: false, error: Some("boom".to_string()) },
        TextIndexResult { path: "d".to_string(), file_id: None, indexed: false, error: Some("later".to_string()) },
    ];
    let s = summarize_results(&results);
    assert_eq!((s.found, s.indexed, s.skipped, s.errors), (4, 1, 1, 2));
    assert_eq!(s.first_error, "boom");
}

#[test]
fn job_runs_then_ends_once() {
    let mut table = store();
    let job_id = start_job(&mut table, "C:/repo".to_string(), "100".to_string()).expect("new job");
    assert_eq!(job_id, "rust-text-100-1");
    let job = get_job(&table, &job_id).expect("job");
    assert_eq!(job.status, JobState::Running);
    assert!(job.finished_at.is_none());
    let phase = JobUpdate::Phase { phase: "index_text".to_string(), message: "Indexing".to_string() };
    assert!(update_job(&mut table, &job_id, phase, "101".to_string()).is_ok());
    let summary = summarize_results(&vec![TextIndexResult {
        path: "a".to_string(),
        file_id: Some("1".to_string()),
        indexed: true,
        error: None,
    }]);
    assert!(update_job(&mut table, &job_id, JobUpdate::Finish(summary), "102".to_string()).is_ok());
    let done = get_job(&table, &job_id).expect("job");
    assert_eq!(done.status, JobState::Completed);
    assert_eq!(done.finished_at, Some("102".to_string()));
    assert_eq!(done.updated_at, "102");
    assert_eq!(done.message, "Text indexing complete");
    let again = JobUpdate::Fail { error: "late".to_string() };
    assert!(update_job(&mut table, &job_id, again, "103".to_string()).is_err());
    let after = get_job(&table, &job_id).expect("job");
    assert_eq!(after.status, JobState::Completed);
    assert_eq!(after.updated_at, "102");
    let json = job_status_result(&table, &job_id).expect("status");
    assert_eq!(get(&json, "status"), Some(&text("completed")));
    assert_eq!(get(&json, "text_indexed"), Some(&num(1)));
}

#[test]
fn failed_files_fail_the_job() {
    let mut table = store();
    let job_id = start_job(&mut table, "/d".to_string(), "5".to_string()).expect("new job");
    let summary = summarize_results(&vec![TextIndexResult {
        path: "a".to_string(),
        file_id: None,
        indexed: false,
        error: Some("unreadable".to_string()),
    }]);
    assert!(update_job(&mut table, &job_id, JobUpdate::Finish(summary), "6".to_string()).is_ok());
    let job = get_job(&table, &job_id).expect("job");
    assert_eq!(job.status, JobState::Failed);
    assert_eq!(job.error, "unreadable");
    assert_eq!(job.message, "Text indexing failed");
    assert!(update_job(&mut table, "missing", JobUpdate::Fail { error: "x".to_string() }, "7".to_string()).is_err());
}

#[test]
fn job_ids_count_up() {
    let mut table = store();
    assert_eq!(make_job_id(&mut table, "9"), "rust-text-9-1");
    assert_eq!(make_job_id(&mut table, "9"), "rust-text-9-2");
    let status = IndexJobStatus::start("x".to_string(), "/d".to_string(), "1".to_string());
    put_job(&mut table, status);
    assert!(get_job(&table, "x").is_some());
    let now = now_string();
    assert!(!now.is_empty() && now.chars().all(|c| c.is_ascii_digit()));
}

#[test]
fn keywords_split_and_lowercase() {
    assert_eq!(extract_keywords("Hello, World_1!"), vec!["hello".to_string(), "world_1".to_string()]);
    assert!(extract_keywords("  --  ").is_empty());
    let item = SearchItem {
        label: Source::File,
        path: "/Docs/Report.TXT".to_string(),
        content: None,
        file_id: None,
        video_id: None,
        chunk_id: None,
        image_id: None,
        content_hash: None,
    };
    assert!(has_keyword_match(&item, &vec!["report".to_string()]));
    assert!(!has_keyword_match(&item, &vec!["missing".to_string()]));
    assert!(!has_keyword_match(&item, &vec![]));
}

#[test]
fn search_single_file_hit_scenario() {
    let file = obj(vec![("results", arr(vec![file_hit(".../a.txt", "hello", "f1")]))]);
    let answer = search_results("hello", &file, &arr(vec![]), &obj(vec![]), "/nonexistent/thumbs", "http://x");
    assert_eq!(get(&answer, "query"), Some(&text("hello")));
    let expected = arr(vec![obj(vec![
        ("label", text("file")),
        ("content", text("hello")),
        ("path", text(".../a.txt")),
    ])]);
    assert_eq!(get(&answer, "results"), Some(&expected));
}

#[test]
fn fused_results_are_ranked_and_deduplicated() {
    let file = arr(vec![file_hit("/a.txt", "alpha", "f1"), file_hit("/b.txt", "beta", "f2"), file_hit("/a.txt", "alpha", "f1")]);
    let video = obj(vec![(
        "hits",
        arr(vec![
            obj(vec![("path", text("/v.mp4")), ("video_id", text("v1")), ("chunk_id", text("c1"))]),
            obj(vec![("path", text("/v.mp4")), ("video_id", text("v1")), ("chunk_id", text("c1"))]),
        ]),
    )]);
    let image = arr(vec![obj(vec![("path", text("/i.png")), ("image_id", text("i1")), ("content", text("beta cat"))])]);
    let fused = fuse_results("beta", &file, &video, &image);
    let order: Vec<(Source, String)> = fused.iter().map(|s| (s.item.label, s.item.path.clone())).collect();
    assert_eq!(
        order,
        vec![
            (Source::Image, "/i.png".to_string()),
            (Source::File, "/b.txt".to_string()),
            (Source::Video, "/v.mp4".to_string()),
            (Source::File, "/a.txt".to_string()),
        ]
    );
    assert!(fused[0].boosted && fused[0].rank == 0);
    assert!(fused[1].boosted && fused[1].rank == 1);
    assert!(!fused[2].boosted && fused[2].rank == 0);
}

#[test]
fn map_backend_failures_to_codes() {
    let (code, message) = map_http_error_to_rpc(BackendFailure::Status { code: 404, body: "{}".to_string() });
    assert_eq!((code, message.as_str()), (-32004, "Job not found"));
    let (code, message) = map_http_error_to_rpc(BackendFailure::Status { code: 500, body: " oops \n".to_string() });
    assert_eq!((code, message.as_str()), (-32000, "Backend returned HTTP 500: oops"));
    let (code, message) = map_http_error_to_rpc(BackendFailure::Transport {
        description: "refused".to_string(),
        base_url: "http://h:1".to_string(),
    });
    assert_eq!(code, -32001);
    assert_eq!(message, "Backend transport error: refused (is FastAPI running on http://h:1?)");
    let bad = obj(vec![("success", JsonValue::Bool(false)), ("job_id", text("j"))]);
    assert_eq!(check_index_start_payload(&bad, "{}").unwrap_err().0, -32603);
    assert_eq!(check_search_payload(arr(vec![]), "[]").unwrap_err().0, -32603);
}

#[test]
fn thumbnail_needs_a_hash() {
    assert!(!has_thumbnail("/", ""));
    assert!(!has_thumbnail("/nonexistent/thumbs", "abc"));
}

#[test]
fn file_ids_carry_hex_time_and_count() {
    let mut ids = the_search_thing::indexing::FileIdSource::new();
    let first = the_search_thing::indexing::next_file_id(&mut ids).expect("id");
    let second = the_search_thing::indexing::next_file_id(&mut ids).expect("id");
    let mut last = the_search_thing::indexing::FileIdSource::starting_at(u64::MAX);
    assert!(the_search_thing::indexing::next_file_id(&mut last).is_none());
    assert!(first.starts_with("file-") && first.ends_with("-1"));
    assert!(second.ends_with("-2"));
    let time = &first["file-".len()..first.len() - 2];
    assert!(!time.is_empty() && time.chars().all(|c| c.is_ascii_hexdigit() && !c.is_ascii_uppercase()));
}

#[test]
fn walk_with_batch_equal_to_file_count_is_done() {
    let result = run_walk(0, 2);
    assert_eq!(result.batch.len(), 2);
    assert_eq!(result.done, true);
    let first = run_walk(0, 1);
    assert_eq!(first.done, false);
    let second = run_walk(first.cursor as u64, 1);
    assert_eq!(second.batch, vec![("/tmp/walk/two.md".to_string(), "beta".to_string())]);
    assert_eq!(second.done, true);
}

#[test]
fn hits_with_empty_paths_are_dropped() {
    let file = arr(vec![obj(vec![("path", text("")), ("content", text("x"))])]);
    let video = arr(vec![obj(vec![("path", text("")), ("video_id", text("v"))])]);
    let image = arr(vec![obj(vec![("path", text("")), ("image_id", text("i"))])]);
    assert!(fuse_results("x", &file, &video, &image).is_empty());
}

#[test]
fn job_ids_already_in_use_are_refused() {
    let mut table = store();
    put_job(&mut table, IndexJobStatus::start("rust-text-7-1".to_string(), "/d".to_string(), "7".to_string()));
    let err = start_job(&mut table, "/e".to_string(), "7".to_string()).unwrap_err();
    assert_eq!(err, "job id already in use: rust-text-7-1");
    assert_eq!(get_job(&table, "rust-text-7-1").expect("job").dir, "/d");
    assert_eq!(start_job(&mut table, "/e".to_string(), "7".to_string()).expect("new job"), "rust-text-7-2");
    let missing = update_job(&mut table, "nope", JobUpdate::Fail { error: "x".to_string() }, "8".to_string());
    assert_eq!(missing, Err("job not found: nope".to_string()));
}

#[test]
fn video_hits_without_thumbnail_keep_three_fields() {
    let video = arr(vec![obj(vec![
        ("path", text("/v.mp4")),
        ("content", text("talk")),
        ("content_hash", text("abc")),
    ])]);
    let answer = search_results("talk", &arr(vec![]), &video, &arr(vec![]), "/nonexistent/thumbs", "http://x");
    let expected = arr(vec![obj(vec![("label", text("video")), ("content", text("talk")), ("path", text("/v.mp4"))])]);
    assert_eq!(get(&answer, "results"), Some(&expected));
}

#[test]
fn helix_settings_take_defaults_and_drop_blank_keys() {
    let s = HelixTextStore::from_settings(None, None, Some("   ".to_string())).expect("settings");
    assert_eq!(s.endpoint, "http://localhost");
    assert_eq!(s.port, 7003);
    assert_eq!(s.api_key, None);
    assert!(HelixTextStore::from_settings(None, Some("70000".to_string()), None).is_err());
    let nested = obj(vec![("file", arr(vec![obj(vec![("file_id", text("f9"))])]))]);
    assert_eq!(HelixTextStore::extract_existing_file_id(&nested), Some("f9".to_string()));
    let top = arr(vec![obj(vec![("file_id", text("f1"))])]);
    assert_eq!(HelixTextStore::extract_existing_file_id(&top), Some("f1".to_string()));
    assert_eq!(HelixTextStore::extract_existing_file_id(&obj(vec![])), None);
}

struct ListedFiles(Result<Vec<(String, String)>, String>);

impl the_search_thing::indexing::TextFileSource for ListedFiles {
    fn walk_and_get_files_content(&self, _root: &str) -> Result<Vec<(String, String)>, String> {
        self.0.clone()
    }
}

struct HashByContent;

impl the_search_thing::indexing::PathHasher for HashByContent {
    fn compute_file_hash(&self, path: &str) -> Result<String, String> {
        if path.ends_with(".bad") {
            Err(format!("cannot read {}", path))
        } else {
            Ok("h-same".to_string())
        }
    }
}

#[derive(Default)]
struct MemoryStore {
    records: std::cell::RefCell<Vec<(String, String)>>,
    creates: std::cell::RefCell<Vec<(String, String, String, String)>>,
    embeds: std::cell::RefCell<usize>,
    lookup_fails: bool,
    embed_fails: bool,
}

impl the_search_thing::indexing::TextIndexStore for MemoryStore {
    fn get_file_by_hash(&self, content_hash: &str) -> Result<Option<ExistingFileRecord>, String> {
        if self.lookup_fails {
            return Err("store down".to_string());
        }
        Ok(self
            .records
            .borrow()
            .iter()
            .find(|(h, _)| h == content_hash)
            .map(|(_, id)| ExistingFileRecord { file_id: id.clone() }))
    }

    fn create_file(&self, file_id: &str, content_hash: &str, content: &str, path: &str) -> Result<(), String> {
        self.creates.borrow_mut().push((
            file_id.to_string(),
            content_hash.to_string(),
            content.to_string(),
            path.to_string(),
        ));
        self.records.borrow_mut().push((content_hash.to_string(), file_id.to_string()));
        Ok(())
    }

    fn create_file_embeddings(&self, _file_id: &str, _content: &str, _path: &str) -> Result<(), String> {
        *self.embeds.borrow_mut() += 1;
        if self.embed_fails { Err("embedding failed".to_string()) } else { Ok(()) }
    }
}

#[test]
fn indexing_same_content_twice_skips_the_second() {
    let walker = ListedFiles(Ok(vec![("/r/a.txt".to_string(), "c".to_string()), ("/r/b.txt".to_string(), "c".to_string())]));
    let store = MemoryStore::default();
    let mut ids = the_search_thing::indexing::FileIdSource::new();
    let results =
        the_search_thing::indexing::file_indexer(vec![" /r ".to_string()], &walker, &HashByContent, &store, &mut ids);
    assert_eq!(results.len(), 2);
    assert_eq!(results.iter().filter(|r| r.indexed).count(), 1);
    let id = results[0].file_id.clone().expect("new id");
    assert!(results[0].indexed && results[0].path == "/r/a.txt" && results[0].error.is_none());
    assert_eq!(results[1].path, "/r/b.txt");
    assert_eq!(results[1].file_id, Some(id.clone()));
    assert_eq!(results[1].error, Some(DUPLICATE_CONTENT_HASH.to_string()));
    assert_eq!(*store.creates.borrow(), vec![(id, "h-same".to_string(), "c".to_string(), "/r/a.txt".to_string())]);
    assert_eq!(*store.embeds.borrow(), 1);
}

#[test]
fn indexing_records_walk_hash_and_write_failures() {
    let store = MemoryStore { lookup_fails: true, embed_fails: true, ..Default::default() };
    let mut ids = the_search_thing::indexing::FileIdSource::new();
    let failed = ListedFiles(Err("denied".to_string()));
    let r = the_search_thing::indexing::file_indexer(vec!["/x".to_string(), "".to_string()], &failed, &HashByContent, &store, &mut ids);
    assert_eq!(r.len(), 1);
    assert_eq!((r[0].path.as_str(), r[0].file_id.clone(), r[0].indexed), ("/x", None, false));
    assert_eq!(r[0].error, Some("denied".to_string()));
    let walker = ListedFiles(Ok(vec![("/y/f.bad".to_string(), "c".to_string()), ("/y/g.txt".to_string(), "c".to_string())]));
    let r = the_search_thing::indexing::file_indexer(vec!["/y".to_string()], &walker, &HashByContent, &store, &mut ids);
    assert_eq!(r.len(), 2);
    assert_eq!(r[0].error, Some("cannot read /y/f.bad".to_string()));
    assert_eq!(r[0].file_id, None);
    assert_eq!(r[1].path, "/y/g.txt");
    assert!(!r[1].indexed && r[1].file_id.is_some());
    assert_eq!(r[1].error, Some("embedding failed".to_string()));
    assert_eq!(store.creates.borrow().len(), 1);
}

#[test]
fn ports_read_as_u16_text() {
    let s = HelixTextStore::from_settings(Some("http://h".to_string()), Some("+8080".to_string()), Some("k".to_string()))
        .expect("settings");
    assert_eq!((s.endpoint.as_str(), s.port, s.api_key.as_deref()), ("http://h", 8080, Some("k")));
    assert_eq!(
        HelixTextStore::from_settings(None, Some("".to_string()), None).unwrap_err(),
        "invalid HELIX_PORT: cannot parse integer from empty string"
    );
    assert_eq!(
        HelixTextStore::from_settings(None, Some("99999x".to_string()), None).unwrap_err(),
        "invalid HELIX_PORT: number too large to fit in target type"
    );
    assert_eq!(
        HelixTextStore::from_settings(None, Some("12a".to_string()), None).unwrap_err(),
        "invalid HELIX_PORT: invalid digit found in string"
    );
}

#[test]
fn thumbnail_paths_join_the_directory() {
    assert_eq!(the_search_thing::search::thumbnail_path("/t", "abc"), "/t/abc.jpg");
    assert_eq!(the_search_thing::search::thumbnail_path("/t/", "abc"), "/t/abc.jpg");
    assert_eq!(the_search_thing::search::thumbnail_path("", "abc"), "abc.jpg");
}
