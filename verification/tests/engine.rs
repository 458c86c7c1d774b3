use storcore::backend::Backend;
use storcore::buffer::Buffer;
use storcore::capability::Capability;
use storcore::concurrency::Gate;
use storcore::error::host_error_class;
use storcore::error::ErrorKind;
use storcore::error::HostErrorClass;
use storcore::layers::Layer;
use storcore::layers::Stack;
use storcore::metadata::EntryMode;
use storcore::metadata::LengthField;
use storcore::metadata::Metadata;
use storcore::metadata::Metakey;
use storcore::metadata::RawMeta;
use storcore::metadata::StringField;
use storcore::metadata::TimeField;
use storcore::operator::Operator;
use storcore::presign::PresignOperation;
use storcore::presign::HttpMethod;
use storcore::runtime::RuntimeLifecycle;
use storcore::runtime::RuntimePhase;

fn full_capability() -> Capability {
    let mut c = Capability::none();
    c.stat = true;
    c.read = true;
    c.write = true;
    c.write_can_multi = true;
    c.write_multi_min_size = 0;
    c.write_multi_max_size = 1 << 30;
    c.write_multi_align_size = 0;
    c.delete = true;
    c.copy = true;
    c.rename = true;
    c.list = true;
    c.presign = true;
    c.presign_read = true;
    c.presign_stat = true;
    c.presign_write = true;
    c.batch = true;
    c.batch_delete = true;
    c.batch_max_operations = 100;
    c
}

fn operator_with(cap: Capability, page_size: usize, layers: Vec<Layer>) -> Operator {
    let backend = Backend::new(
        cap,
        page_size,
        String::from("https://storage.invalid/bucket"),
        Vec::new(),
    );
    let stack = Stack::new(layers, backend);
    Operator::new(
        stack,
        String::from("memory"),
        String::from("/"),
        String::from("test"),
    )
}

fn plain_operator() -> Operator {
    operator_with(full_capability(), 100, Vec::new())
}

#[test]
fn unsupported_operations_touch_no_backend() {
    let mut op = operator_with(Capability::none(), 10, Vec::new());
    let calls_before = op.stack.backend.calls;
    let mk = Metakey::complete();
    assert_eq!(
        op.stat(b"a", &mk).unwrap_err().kind,
        ErrorKind::Unsupported
    );
    assert_eq!(op.read(b"a").unwrap_err().kind, ErrorKind::Unsupported);
    assert_eq!(op.write(b"a", b"x").unwrap_err().kind, ErrorKind::Unsupported);
    assert_eq!(op.delete(b"a").unwrap_err().kind, ErrorKind::Unsupported);
    assert_eq!(op.copy(b"a", b"b").unwrap_err().kind, ErrorKind::Unsupported);
    assert_eq!(op.rename(b"a", b"b").unwrap_err().kind, ErrorKind::Unsupported);
    assert_eq!(op.list_all(b"", &mk).unwrap_err().kind, ErrorKind::Unsupported);
    assert_eq!(
        op.presign(b"a", PresignOperation::Read, 60).unwrap_err().kind,
        ErrorKind::Unsupported
    );
    assert_eq!(
        op.batch_delete(&vec![b"a".to_vec()]).unwrap_err().kind,
        ErrorKind::Unsupported
    );
    assert_eq!(op.stack.backend.calls, calls_before);
}

#[test]
fn invalid_paths_are_rejected_locally() {
    let mut op = plain_operator();
    let mk = Metakey::complete();
    assert_eq!(op.stat(b"", &mk).unwrap_err().kind, ErrorKind::InvalidInput);
    assert_eq!(op.stat(b"/abs", &mk).unwrap_err().kind, ErrorKind::InvalidInput);
    assert_eq!(op.read(b"dir/").unwrap_err().kind, ErrorKind::IsADirectory);
    assert_eq!(op.write(b"dir/", b"x").unwrap_err().kind, ErrorKind::IsADirectory);
    assert_eq!(op.list_all(b"not-a-dir", &Metakey::none()).unwrap_err().kind, ErrorKind::NotADirectory);
    assert_eq!(op.stack.backend.calls, 0);
}

#[test]
fn write_then_read_round_trips() {
    let mut op = plain_operator();
    let cases: Vec<Vec<u8>> = vec![
        Vec::new(),
        b"x".to_vec(),
        b"hello world".to_vec(),
        (0u8..=255).collect(),
    ];
    for (i, data) in cases.iter().enumerate() {
        let path = format!("obj/{i}").into_bytes();
        op.write(&path, data).unwrap();
        let back = op.read(&path).unwrap();
        assert_eq!(back.as_bytes(), data.as_slice());
    }
}

#[test]
fn read_missing_is_not_found() {
    let mut op = plain_operator();
    let e = op.read(b"nope").unwrap_err();
    assert_eq!(e.kind, ErrorKind::NotFound);
    assert_eq!(host_error_class(e.kind), HostErrorClass::FileNotFound);
}

#[test]
fn stat_is_idempotent() {
    let mut op = plain_operator();
    op.write(b"a/b", b"12345").unwrap();
    let mk = Metakey::complete();
    let m1 = op.stat(b"a/b", &mk).unwrap();
    let m2 = op.stat(b"a/b", &mk).unwrap();
    assert_eq!(m1, m2);
    assert_eq!(m1.mode, EntryMode::File);
    assert_eq!(m1.content_length, LengthField::Known(5));
}

#[test]
fn metakey_subset_marks_other_fields_not_requested() {
    let raw = RawMeta::file(7);
    let mut mk = Metakey::none();
    mk.content_length = true;
    let m = Metadata::assemble(&raw, &mk);
    assert_eq!(m.content_length, LengthField::Known(7));
    assert_eq!(m.content_disposition, StringField::NotRequested);
    assert_eq!(m.content_md5, StringField::NotRequested);
    assert_eq!(m.content_type, StringField::NotRequested);
    assert_eq!(m.cache_control, StringField::NotRequested);
    assert_eq!(m.etag, StringField::NotRequested);
    assert_eq!(m.last_modified, TimeField::NotRequested);
    assert_eq!(m.version, StringField::NotRequested);
    assert_eq!(m.content_length_code(), 7);
}

#[test]
fn unrequested_length_is_sentinel_and_requested_absent_is_marked() {
    let raw = RawMeta::file(0);
    let m = Metadata::assemble(&raw, &Metakey::none());
    assert_eq!(m.content_length, LengthField::NotRequested);
    assert_eq!(m.content_length_code(), -1);
    let complete = Metadata::assemble(&raw, &Metakey::complete());
    assert_eq!(complete.content_length, LengthField::Known(0));
    assert_eq!(complete.content_length_code(), 0);
    assert_eq!(complete.etag, StringField::Absent);
    assert_eq!(complete.last_modified, TimeField::Absent);
}

#[test]
fn retry_layer_masks_transient_faults() {
    let mut op = operator_with(
        full_capability(),
        100,
        vec![Layer::Retry { max_attempts: 3 }],
    );
    op.write(b"k", b"v").unwrap();
    let calls_before = op.stack.backend.calls;
    op.stack
        .backend
        .script_faults(2, ErrorKind::RateLimited, true);
    let m = op.stat(b"k", &Metakey::complete()).unwrap();
    assert_eq!(m.content_length, LengthField::Known(1));
    assert_eq!(op.stack.backend.calls - calls_before, 3);
    assert_eq!(op.stack.backend.faults, 0);
}

#[test]
fn retry_layer_exhaustion_surfaces_original_error() {
    let mut op = operator_with(
        full_capability(),
        100,
        vec![Layer::Retry { max_attempts: 2 }],
    );
    op.write(b"k", b"v").unwrap();
    let calls_before = op.stack.backend.calls;
    op.stack
        .backend
        .script_faults(3, ErrorKind::RateLimited, true);
    let e = op.stat(b"k", &Metakey::complete()).unwrap_err();
    assert_eq!(e.kind, ErrorKind::RateLimited);
    assert!(e.temporary);
    assert_eq!(op.stack.backend.calls - calls_before, 2);
    assert_eq!(op.stack.backend.faults, 1);
}

#[test]
fn retry_layer_makes_single_attempt_for_writes() {
    let mut op = operator_with(
        full_capability(),
        100,
        vec![Layer::Retry { max_attempts: 5 }],
    );
    op.stack
        .backend
        .script_faults(1, ErrorKind::RateLimited, true);
    let calls_before = op.stack.backend.calls;
    let e = op.write(b"k", b"v").unwrap_err();
    assert_eq!(e.kind, ErrorKind::RateLimited);
    assert_eq!(op.stack.backend.calls - calls_before, 1);
}

#[test]
fn non_transient_errors_are_not_retried() {
    let mut op = operator_with(
        full_capability(),
        100,
        vec![Layer::Retry { max_attempts: 5 }],
    );
    op.stack
        .backend
        .script_faults(1, ErrorKind::PermissionDenied, false);
    let calls_before = op.stack.backend.calls;
    let e = op.read(b"k").unwrap_err();
    assert_eq!(e.kind, ErrorKind::PermissionDenied);
    assert_eq!(op.stack.backend.calls - calls_before, 1);
}

#[test]
fn gate_accepts_at_most_its_limit() {
    let mut gate = Gate::new(2);
    assert!(gate.try_acquire());
    assert!(gate.try_acquire());
    assert!(!gate.try_acquire());
    assert_eq!(gate.in_flight, 2);
    gate.release();
    assert!(gate.try_acquire());
    assert_eq!(gate.in_flight, 2);
}

#[test]
fn list_drains_every_entry_exactly_once() {
    let mut op = plain_operator();
    for i in 0..250 {
        let path = format!("d/obj{i:03}").into_bytes();
        op.write(&path, b"x").unwrap();
    }
    op.write(b"other/file", b"y").unwrap();
    let calls_before = op.stack.backend.calls;
    let entries = op.list_all(b"d/", &Metakey::complete()).unwrap();
    assert_eq!(entries.len(), 250);
    assert_eq!(op.stack.backend.calls - calls_before, 3);
    let mut seen: Vec<Vec<u8>> = entries.iter().map(|e| e.path.clone()).collect();
    let total = seen.len();
    seen.sort();
    seen.dedup();
    assert_eq!(seen.len(), total);
    for i in 0..250 {
        let path = format!("d/obj{i:03}").into_bytes();
        assert!(seen.contains(&path));
    }
}

#[test]
fn list_root_sees_everything() {
    let mut op = plain_operator();
    op.write(b"a", b"1").unwrap();
    op.write(b"b/c", b"2").unwrap();
    let entries = op.list_all(b"", &Metakey::none()).unwrap();
    assert_eq!(entries.len(), 2);
}

#[test]
fn presign_needs_the_capability() {
    let mut cap = full_capability();
    cap.presign = false;
    let mut op = operator_with(cap, 10, Vec::new());
    let e = op.presign(b"a", PresignOperation::Read, 60).unwrap_err();
    assert_eq!(e.kind, ErrorKind::Unsupported);
    assert_eq!(host_error_class(e.kind), HostErrorClass::NotImplemented);
}

#[test]
fn presign_deduplicates_header_keys() {
    let cap = full_capability();
    let mut backend = Backend::new(
        cap,
        10,
        String::from("https://storage.invalid/bucket"),
        vec![
            (String::from("x-auth"), String::from("one")),
            (String::from("host"), String::from("storage.invalid")),
            (String::from("x-auth"), String::from("two")),
        ],
    );
    backend.script_faults(0, ErrorKind::Unexpected, false);
    let stack = Stack::new(Vec::new(), backend);
    let mut op = Operator::new(
        stack,
        String::from("memory"),
        String::from("/"),
        String::from("test"),
    );
    let p = op.presign(b"a", PresignOperation::Write, 60).unwrap();
    assert_eq!(p.method, HttpMethod::Put);
    assert_eq!(p.uri, "https://storage.invalid/bucket");
    let mut keys: Vec<String> = p.headers.iter().map(|h| h.0.clone()).collect();
    let total = keys.len();
    keys.sort();
    keys.dedup();
    assert_eq!(keys.len(), total);
    assert_eq!(total, 2);
    let auth = p.headers.iter().find(|h| h.0 == "x-auth").unwrap();
    assert_eq!(auth.1, "two");
    assert_eq!(
        p.header_value(&String::from("host")),
        Some(&String::from("storage.invalid"))
    );
}

#[test]
fn copy_and_rename_move_contents() {
    let mut op = plain_operator();
    op.write(b"src", b"payload").unwrap();
    op.copy(b"src", b"dst").unwrap();
    assert_eq!(op.read(b"dst").unwrap().as_bytes(), b"payload");
    assert_eq!(op.read(b"src").unwrap().as_bytes(), b"payload");
    op.rename(b"dst", b"moved").unwrap();
    assert_eq!(op.read(b"moved").unwrap().as_bytes(), b"payload");
    assert_eq!(op.read(b"dst").unwrap_err().kind, ErrorKind::NotFound);
    assert_eq!(op.copy(b"gone", b"x").unwrap_err().kind, ErrorKind::NotFound);
    assert_eq!(op.rename(b"gone", b"x").unwrap_err().kind, ErrorKind::NotFound);
}

#[test]
fn delete_is_idempotent_and_removes() {
    let mut op = plain_operator();
    op.write(b"a", b"1").unwrap();
    op.delete(b"a").unwrap();
    assert_eq!(op.read(b"a").unwrap_err().kind, ErrorKind::NotFound);
    op.delete(b"a").unwrap();
}

#[test]
fn batch_delete_reports_per_item_results() {
    let mut op = plain_operator();
    op.write(b"a", b"1").unwrap();
    op.write(b"b", b"2").unwrap();
    let results = op
        .batch_delete(&vec![b"a".to_vec(), b"b".to_vec(), b"missing".to_vec()])
        .unwrap();
    assert_eq!(results.len(), 3);
    assert!(results.iter().all(|r| r.is_ok()));
    assert_eq!(op.read(b"a").unwrap_err().kind, ErrorKind::NotFound);
}

#[test]
fn batch_delete_respects_the_limit() {
    let mut cap = full_capability();
    cap.batch_max_operations = 2;
    let mut op = operator_with(cap, 10, Vec::new());
    let paths = vec![b"a".to_vec(), b"b".to_vec(), b"c".to_vec()];
    let e = op.batch_delete(&paths).unwrap_err();
    assert_eq!(e.kind, ErrorKind::InvalidInput);
    assert_eq!(op.stack.backend.calls, 0);
}

#[test]
fn chunked_write_checks_sizes_locally() {
    let mut cap = full_capability();
    cap.write_multi_min_size = 4;
    cap.write_multi_max_size = 8;
    cap.write_multi_align_size = 4;
    let mut op = operator_with(cap, 10, Vec::new());
    let e = op
        .write_chunked(b"obj", &vec![b"12345".to_vec()])
        .unwrap_err();
    assert_eq!(e.kind, ErrorKind::InvalidInput);
    assert_eq!(op.stack.backend.calls, 0);
    op.write_chunked(b"obj", &vec![b"1234".to_vec(), b"56785678".to_vec()])
        .unwrap();
    assert_eq!(op.read(b"obj").unwrap().as_bytes(), b"123456785678");
}

#[test]
fn error_kinds_map_to_host_classes_totally() {
    assert_eq!(host_error_class(ErrorKind::NotFound), HostErrorClass::FileNotFound);
    assert_eq!(host_error_class(ErrorKind::AlreadyExists), HostErrorClass::FileExists);
    assert_eq!(host_error_class(ErrorKind::PermissionDenied), HostErrorClass::Permission);
    assert_eq!(host_error_class(ErrorKind::Unsupported), HostErrorClass::NotImplemented);
    assert_eq!(host_error_class(ErrorKind::InvalidInput), HostErrorClass::General);
    assert_eq!(host_error_class(ErrorKind::IsADirectory), HostErrorClass::General);
    assert_eq!(host_error_class(ErrorKind::NotADirectory), HostErrorClass::General);
    assert_eq!(host_error_class(ErrorKind::RateLimited), HostErrorClass::General);
    assert_eq!(host_error_class(ErrorKind::Unexpected), HostErrorClass::General);
}

#[test]
fn capability_record_has_the_stable_positional_layout() {
    let mut cap = Capability::none();
    cap.stat = true;
    cap.write_multi_max_size = 5;
    cap.write_multi_min_size = 1;
    cap.write_multi_align_size = 2;
    cap.batch_max_operations = u64::MAX;
    cap.blocking = true;
    let rec = cap.to_record();
    assert_eq!(rec.len(), 38);
    assert_eq!(rec[0], 1);
    assert_eq!(rec[1], 0);
    assert_eq!(rec[18], 5);
    assert_eq!(rec[19], 1);
    assert_eq!(rec[20], 2);
    assert_eq!(rec[36], i64::MAX);
    assert_eq!(rec[37], 1);
}

#[test]
fn mode_codes_are_stable() {
    assert_eq!(EntryMode::File.code(), 0);
    assert_eq!(EntryMode::Dir.code(), 1);
    assert_eq!(EntryMode::Unknown.code(), 2);
}

#[test]
fn buffer_wraps_bytes() {
    let buf = Buffer::new(b"abc".to_vec());
    assert_eq!(buf.len(), 3);
    assert_eq!(buf.as_bytes(), b"abc");
    assert_eq!(buf.into_vec(), b"abc".to_vec());
}

#[test]
fn runtime_lifecycle_runs_once() {
    let mut rt = RuntimeLifecycle::new();
    assert_eq!(rt.phase, RuntimePhase::Idle);
    assert!(!rt.is_running());
    rt.init(8);
    assert!(rt.is_running());
    assert_eq!(rt.workers, 8);
    rt.shutdown();
    assert!(!rt.is_running());
    assert_eq!(rt.phase, RuntimePhase::Stopped);
}

#[test]
fn operator_info_reports_both_capability_views() {
    let op = plain_operator();
    let info = op.info();
    assert_eq!(info.scheme, "memory");
    assert_eq!(info.root, "/");
    assert_eq!(info.name, "test");
    assert_eq!(info.full_capability, info.native_capability);
    assert!(info.full_capability.stat);
}

#[test]
fn range_read_needs_the_variant_capability() {
    let mut cap = full_capability();
    cap.read_with_range = false;
    let mut op = operator_with(cap, 10, Vec::new());
    op.write(b"obj", b"0123456789").unwrap();
    let calls_after_write = op.stack.backend.calls;
    let e = op.read_range(b"obj", 2, 3).unwrap_err();
    assert_eq!(e.kind, ErrorKind::Unsupported);
    assert_eq!(op.stack.backend.calls, calls_after_write);
}

#[test]
fn range_read_slices_exactly() {
    let mut cap = full_capability();
    cap.read_with_range = true;
    let mut op = operator_with(cap, 10, Vec::new());
    op.write(b"obj", b"0123456789").unwrap();
    let buf = op.read_range(b"obj", 2, 3).unwrap();
    assert_eq!(buf.as_bytes(), b"234");
    let whole = op.read_range(b"obj", 0, 10).unwrap();
    assert_eq!(whole.as_bytes(), b"0123456789");
    let empty = op.read_range(b"obj", 10, 0).unwrap();
    assert_eq!(empty.len(), 0);
    let e = op.read_range(b"obj", 8, 3).unwrap_err();
    assert_eq!(e.kind, ErrorKind::InvalidInput);
}
