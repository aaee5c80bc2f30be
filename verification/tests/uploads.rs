use clouddrive::upload::{
    validate_file_name, validate_magic_bytes, validate_mime_type, validate_path,
    InitUploadRequest, UploadService, DEFAULT_CHUNK_SIZE, MAX_FILE_SIZE, SESSION_TIMEOUT_MILLIS,
};
use clouddrive::TransferError;

fn pdf_request() -> InitUploadRequest {
    InitUploadRequest {
        file_name: String::from("report.pdf"),
        file_size: 3_000_000,
        mime_type: String::from("application/pdf"),
        target_path: Some(String::from("docs")),
    }
}

fn pattern_bytes(len: usize) -> Vec<u8> {
    let mut data = Vec::with_capacity(len);
    for i in 0..len {
        data.push((i % 251) as u8);
    }
    data
}

fn chunks_of(data: &[u8]) -> Vec<Vec<u8>> {
    data.chunks(DEFAULT_CHUNK_SIZE).map(|c| c.to_vec()).collect()
}

#[test]
fn three_megabyte_pdf_reassembles_byte_identically() {
    let mut svc = UploadService::new();
    let resp = svc
        .init_upload(String::from("tok-1"), pdf_request(), 1_000, String::from("alice"))
        .unwrap();
    assert_eq!(resp.total_chunks, 3);
    assert_eq!(resp.chunk_size, DEFAULT_CHUNK_SIZE);
    assert_eq!(resp.upload_id, "tok-1");

    let data = pattern_bytes(3_000_000);
    let parts = chunks_of(&data);
    assert_eq!(parts.len(), 3);

    // Send the chunks out of order: 1, 0, 2.
    let id = String::from("tok-1");
    // Chunk 0 carries the magic bytes; build it with a PDF header.
    let mut first = parts[0].clone();
    first[0] = b'%';
    first[1] = b'P';
    first[2] = b'D';
    first[3] = b'F';
    let mut expected = data.clone();
    expected[0] = b'%';
    expected[1] = b'P';
    expected[2] = b'D';
    expected[3] = b'F';

    let r1 = svc.put_chunk(&id, 1, parts[1].clone()).unwrap();
    assert_eq!(r1.received_chunks, 1);
    assert_eq!(r1.total_chunks, 3);
    let r0 = svc.put_chunk(&id, 0, first).unwrap();
    assert_eq!(r0.received_chunks, 2);
    let r2 = svc.put_chunk(&id, 2, parts[2].clone()).unwrap();
    assert_eq!(r2.received_chunks, 3);

    let (resp, merged) = svc.complete_upload(&id).unwrap();
    assert_eq!(resp.file_path, "docs/report.pdf");
    assert_eq!(resp.file_info.name, "report.pdf");
    assert_eq!(resp.file_info.size, 3_000_000);
    assert_eq!(resp.file_info.mime_type, "application/pdf");
    assert_eq!(merged.len(), 3_000_000);
    assert_eq!(merged, expected);

    // The session is consumed.
    assert!(matches!(svc.complete_upload(&id), Err(TransferError::NotFound)));
}

#[test]
fn complete_succeeds_only_once_every_chunk_arrived() {
    let mut svc = UploadService::new();
    svc.init_upload(String::from("tok-2"), pdf_request(), 0, String::from("alice")).unwrap();
    let id = String::from("tok-2");
    let data = pattern_bytes(3_000_000);
    let parts = chunks_of(&data);

    svc.put_chunk(&id, 2, parts[2].clone()).unwrap();
    assert!(matches!(svc.complete_upload(&id), Err(TransferError::Incomplete)));
    svc.put_chunk(&id, 0, b"%PDF rest of the first chunk".to_vec()).unwrap();
    assert!(matches!(svc.complete_upload(&id), Err(TransferError::Incomplete)));
    svc.put_chunk(&id, 1, parts[1].clone()).unwrap();
    // A failed merge attempt left the session in place; now it finishes.
    let (_, merged) = svc.complete_upload(&id).unwrap();
    assert_eq!(
        merged.len(),
        b"%PDF rest of the first chunk".len() + parts[1].len() + parts[2].len()
    );
}

#[test]
fn resending_a_chunk_yields_an_identical_merged_file() {
    let make = |resend: bool| {
        let mut svc = UploadService::new();
        let req = InitUploadRequest {
            file_name: String::from("notes.txt"),
            file_size: 10,
            mime_type: String::from("text/plain"),
            target_path: None,
        };
        svc.init_upload(String::from("tok-3"), req, 0, String::from("u")).unwrap();
        let id = String::from("tok-3");
        svc.put_chunk(&id, 0, b"hello world".to_vec()).unwrap();
        if resend {
            svc.put_chunk(&id, 0, b"hello world".to_vec()).unwrap();
            svc.put_chunk(&id, 0, b"hello world".to_vec()).unwrap();
        }
        svc.complete_upload(&id).unwrap().1
    };
    assert_eq!(make(false), make(true));
}

#[test]
fn put_chunk_rejects_unknown_session_and_bad_index() {
    let mut svc = UploadService::new();
    assert!(matches!(
        svc.put_chunk(&String::from("nope"), 0, vec![1, 2, 3, 4]),
        Err(TransferError::NotFound)
    ));
    svc.init_upload(String::from("tok-4"), pdf_request(), 0, String::from("u")).unwrap();
    let id = String::from("tok-4");
    assert!(matches!(
        svc.put_chunk(&id, 3, vec![1, 2, 3, 4]),
        Err(TransferError::InvalidArgument)
    ));
}

#[test]
fn first_chunk_magic_bytes_guard_the_declared_type() {
    let mut svc = UploadService::new();
    let req = InitUploadRequest {
        file_name: String::from("photo.png"),
        file_size: 8,
        mime_type: String::from("image/png"),
        target_path: None,
    };
    svc.init_upload(String::from("tok-5"), req, 0, String::from("u")).unwrap();
    let id = String::from("tok-5");
    assert!(matches!(
        svc.put_chunk(&id, 0, b"notapng!".to_vec()),
        Err(TransferError::InvalidArgument)
    ));
    let mut png = vec![0x89, 0x50, 0x4e, 0x47];
    png.extend_from_slice(b"rest");
    svc.put_chunk(&id, 0, png).unwrap();
}

#[test]
fn upload_status_reports_received_indices_and_progress() {
    let mut svc = UploadService::new();
    svc.init_upload(String::from("tok-6"), pdf_request(), 0, String::from("u")).unwrap();
    let id = String::from("tok-6");
    let st = svc.upload_status(&id).unwrap();
    assert_eq!(st.total_chunks, 3);
    assert_eq!(st.received_chunks, Vec::<usize>::new());
    assert_eq!(st.progress_percent, 0);

    svc.put_chunk(&id, 1, vec![0; 16]).unwrap();
    let st = svc.upload_status(&id).unwrap();
    assert_eq!(st.received_chunks, vec![1]);
    assert_eq!(st.completed_chunks, 1);
    assert_eq!(st.progress_percent, 33);

    assert_eq!(
        svc.upload_status(&String::from("nope")).map(|_| ()),
        Err(TransferError::NotFound)
    );
}

#[test]
fn cancel_upload_is_idempotent() {
    let mut svc = UploadService::new();
    svc.init_upload(String::from("tok-7"), pdf_request(), 0, String::from("u")).unwrap();
    let id = String::from("tok-7");
    assert!(svc.cancel_upload(&id));
    assert!(!svc.cancel_upload(&id));
    assert_eq!(svc.upload_status(&id).map(|_| ()), Err(TransferError::NotFound));
}

#[test]
fn sweep_reclaims_only_expired_sessions() {
    let mut svc = UploadService::new();
    let now = 1_700_000_000_000i64;
    let old = now - SESSION_TIMEOUT_MILLIS - 1;
    svc.init_upload(String::from("fresh"), pdf_request(), now, String::from("u")).unwrap();
    svc.init_upload(String::from("stale"), pdf_request(), old, String::from("u")).unwrap();
    let removed = svc.sweep_expired(now, SESSION_TIMEOUT_MILLIS);
    assert_eq!(removed, 1);
    assert!(svc.upload_status(&String::from("fresh")).is_ok());
    assert_eq!(
        svc.upload_status(&String::from("stale")).map(|_| ()),
        Err(TransferError::NotFound)
    );
}

#[test]
fn init_upload_validates_its_request() {
    let mut svc = UploadService::new();
    let mut bad_name = pdf_request();
    bad_name.file_name = String::from("evil/../name");
    assert!(svc.init_upload(String::from("a"), bad_name, 0, String::from("u")).is_err());

    let mut bad_mime = pdf_request();
    bad_mime.mime_type = String::from("not a mime type");
    assert!(svc.init_upload(String::from("b"), bad_mime, 0, String::from("u")).is_err());

    // A traversal in the target directory is a path violation, whether
    // written plainly or percent-encoded: init applies the resolver's own
    // rejection predicate.
    let mut bad_path = pdf_request();
    bad_path.target_path = Some(String::from("../outside"));
    assert!(matches!(
        svc.init_upload(String::from("c"), bad_path, 0, String::from("u")),
        Err(TransferError::PathViolation)
    ));

    let mut encoded_path = pdf_request();
    encoded_path.target_path = Some(String::from("%2e%2e/up"));
    assert!(matches!(
        svc.init_upload(String::from("c2"), encoded_path, 0, String::from("u")),
        Err(TransferError::PathViolation)
    ));

    let mut too_big = pdf_request();
    too_big.file_size = MAX_FILE_SIZE + 1;
    assert!(matches!(
        svc.init_upload(String::from("d"), too_big, 0, String::from("u")),
        Err(TransferError::InvalidArgument)
    ));

    svc.init_upload(String::from("e"), pdf_request(), 0, String::from("u")).unwrap();
    // The same token cannot open a second session; a collision is the one
    // internal failure, distinct from every validation error.
    assert!(matches!(
        svc.init_upload(String::from("e"), pdf_request(), 0, String::from("u")),
        Err(TransferError::Internal)
    ));
}

#[test]
fn fresh_tokens_are_hyphenated_identifiers() {
    let mut svc = UploadService::new();
    let a = svc.init_upload_fresh(pdf_request(), 0, String::from("u")).unwrap();
    let b = svc.init_upload_fresh(pdf_request(), 0, String::from("u")).unwrap();
    assert_eq!(a.upload_id.len(), 36);
    assert_eq!(b.upload_id.len(), 36);
    assert_ne!(a.upload_id, b.upload_id);
}

#[test]
fn file_name_validation_matches_the_documented_rules() {
    assert!(validate_file_name("report.pdf").is_ok());
    assert_eq!(
        validate_file_name(""),
        Err(String::from("File name cannot be empty"))
    );
    let long = "x".repeat(256);
    assert_eq!(validate_file_name(&long), Err(String::from("File name too long")));
    assert_eq!(
        validate_file_name("a/b"),
        Err(String::from("Invalid file name: contains path traversal sequences"))
    );
    assert_eq!(
        validate_file_name("a..b"),
        Err(String::from("Invalid file name: contains path traversal sequences"))
    );
    assert_eq!(
        validate_file_name("a<b"),
        Err(String::from("Invalid file name: contains dangerous characters"))
    );
    assert_eq!(
        validate_file_name("a*b"),
        Err(String::from("Invalid file name: contains dangerous characters"))
    );
    assert!(validate_file_name(&"x".repeat(255)).is_ok());
}

#[test]
fn mime_type_validation_uses_the_real_grammar() {
    assert!(validate_mime_type("application/pdf").is_ok());
    assert!(validate_mime_type("text/plain; charset=utf-8").is_ok());
    assert_eq!(
        validate_mime_type("not a mime type"),
        Err(String::from("Invalid MIME type format"))
    );
    assert!(validate_mime_type("noslash").is_err());
}

#[test]
fn target_path_validation_rejects_dot_dot() {
    assert!(validate_path("docs/reports").is_ok());
    assert_eq!(
        validate_path("docs/../../etc"),
        Err(String::from("Path traversal not allowed"))
    );
}

#[test]
fn magic_byte_table_checks_the_known_signatures() {
    assert!(validate_magic_bytes("image/jpeg", &[0xff, 0xd8, 0xff, 0xe0]));
    assert!(!validate_magic_bytes("image/jpeg", &[0x00, 0xd8, 0xff, 0xe0]));
    assert!(validate_magic_bytes("image/png", &[0x89, 0x50, 0x4e, 0x47]));
    assert!(validate_magic_bytes("image/gif", b"GIF89a trailer"));
    assert!(validate_magic_bytes("image/gif", b"GIF87a trailer"));
    assert!(!validate_magic_bytes("image/gif", b"GIF99a trailer"));
    assert!(validate_magic_bytes("image/webp", b"RIFF1234WEBPxx"));
    assert!(!validate_magic_bytes("image/webp", b"RIFF1234WAVExx"));
    assert!(validate_magic_bytes("application/pdf", b"%PDF-1.7"));
    assert!(validate_magic_bytes("application/zip", &[0x50, 0x4b, 0x03, 0x04, 9]));
    assert!(validate_magic_bytes("application/zip", &[0x50, 0x4b, 0x05, 0x06, 9]));
    assert!(!validate_magic_bytes("application/zip", &[0x50, 0x4b, 0x07, 0x08, 9]));
    // Text and unknown types pass unchecked, but four bytes are required.
    assert!(validate_magic_bytes("text/plain", b"abcd"));
    assert!(validate_magic_bytes("application/x-whatever", b"abcd"));
    assert!(!validate_magic_bytes("text/plain", b"abc"));
}
