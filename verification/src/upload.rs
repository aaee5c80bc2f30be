use vstd::prelude::*;
use vstd::string::*;

use crate::clock::{mime_is_well_formed, new_token, parse_mime_type};
use crate::errors::TransferError;
use vstd::pervasive::VecAdditionalExecFns;
use vstd::utf8::encode_utf8;

verus! {

broadcast use vstd::string::group_string_axioms;

// ---------------------------------------------------------------------------
// Validation of upload requests: file names, media types, target paths and
// leading magic bytes. All contracts are stated over the byte view of the
// inputs.
// ---------------------------------------------------------------------------

/// Two adjacent `.` bytes occur somewhere in `s`.
pub open spec fn has_dot_dot_pair(s: Seq<u8>) -> bool {
    exists|i: int| 0 <= i && i + 2 <= s.len() && #[trigger] s[i] == 46 && s[i + 1] == 46
}

/// A byte that would make a file name a path: `/` or `\`.
pub open spec fn has_separator_byte(s: Seq<u8>) -> bool {
    exists|i: int| 0 <= i < s.len() && (s[i] == 47 || s[i] == 92)
}

/// A byte a file name must not carry: `<`, `>`, `:`, `"`, `|`, `?`, `*` or
/// the NUL byte.
pub open spec fn is_dangerous_byte(b: u8) -> bool {
    b == 60 || b == 62 || b == 58 || b == 34 || b == 124 || b == 63 || b == 42 || b == 0
}

pub open spec fn has_dangerous_byte(s: Seq<u8>) -> bool {
    exists|i: int| 0 <= i < s.len() && is_dangerous_byte(s[i])
}

/// A valid file name: non-empty, at most 255 bytes, free of traversal
/// sequences, separators and dangerous characters.
pub open spec fn valid_file_name(s: Seq<u8>) -> bool {
    &&& s.len() > 0
    &&& s.len() <= 255
    &&& !has_dot_dot_pair(s)
    &&& !has_separator_byte(s)
    &&& !has_dangerous_byte(s)
}

fn scan_dot_dot_pair(v: &[u8]) -> (r: bool)
    ensures
        r == has_dot_dot_pair(v@),
{
    let mut i: usize = 0;
    while i < v.len()
        invariant
            i <= v@.len(),
            forall|j: int|
                0 <= j < i ==> !(j + 2 <= v@.len() && #[trigger] v@[j] == 46 && v@[j + 1] == 46),
        decreases v@.len() - i,
    {
        if v.len() - i >= 2 && v[i] == 46 && v[i + 1] == 46 {
            return true;
        }
        i += 1;
    }
    proof {
        assert forall|j: int|
            !(0 <= j && j + 2 <= v@.len() && #[trigger] v@[j] == 46 && v@[j + 1] == 46) by {
            if 0 <= j && j + 2 <= v@.len() {
                assert(j < i as int);
            }
        }
    }
    false
}

fn scan_separator_byte(v: &[u8]) -> (r: bool)
    ensures
        r == has_separator_byte(v@),
{
    let mut i: usize = 0;
    while i < v.len()
        invariant
            i <= v@.len(),
            forall|j: int| 0 <= j < i ==> !(v@[j] == 47 || v@[j] == 92),
        decreases v@.len() - i,
    {
        if v[i] == 47 || v[i] == 92 {
            return true;
        }
        i += 1;
    }
    false
}

fn scan_dangerous_byte(v: &[u8]) -> (r: bool)
    ensures
        r == has_dangerous_byte(v@),
{
    let mut i: usize = 0;
    while i < v.len()
        invariant
            i <= v@.len(),
            forall|j: int| 0 <= j < i ==> !is_dangerous_byte(v@[j]),
        decreases v@.len() - i,
    {
        let b = v[i];
        if b == 60 || b == 62 || b == 58 || b == 34 || b == 124 || b == 63 || b == 42 || b == 0 {
            return true;
        }
        i += 1;
    }
    false
}

/// Check a declared file name: non-empty, at most 255 bytes, no traversal
/// sequence, no separator, no dangerous character. The message names the
/// first check that failed, in this order.
pub fn validate_file_name(file_name: &str) -> (r: Result<(), String>)
    ensures
        r.is_ok() <==> valid_file_name(file_name.spec_bytes()),
        r matches Err(m) ==> m@ == spec_file_name_error(file_name.spec_bytes()),
{
    let bytes = file_name.as_bytes();
    if bytes.len() == 0 {
        return Err("File name cannot be empty".to_owned());
    }
    if bytes.len() > 255 {
        return Err("File name too long".to_owned());
    }
    if scan_dot_dot_pair(bytes) || scan_separator_byte(bytes) {
        return Err("Invalid file name: contains path traversal sequences".to_owned());
    }
    if scan_dangerous_byte(bytes) {
        return Err("Invalid file name: contains dangerous characters".to_owned());
    }
    Ok(())
}

/// The message `validate_file_name` reports for an invalid name: the first
/// failing check in the order empty, overlong, traversal, dangerous.
pub open spec fn spec_file_name_error(s: Seq<u8>) -> Seq<char> {
    if s.len() == 0 {
        "File name cannot be empty"@
    } else if s.len() > 255 {
        "File name too long"@
    } else if has_dot_dot_pair(s) || has_separator_byte(s) {
        "Invalid file name: contains path traversal sequences"@
    } else {
        "Invalid file name: contains dangerous characters"@
    }
}

/// Check that a declared media type parses as well-formed.
pub fn validate_mime_type(mime_type: &str) -> (r: Result<(), String>)
    ensures
        r.is_ok() <==> mime_is_well_formed(mime_type@),
        r matches Err(m) ==> m@ == "Invalid MIME type format"@,
{
    if parse_mime_type(mime_type) {
        Ok(())
    } else {
        Err("Invalid MIME type format".to_owned())
    }
}

/// Reject a target path that holds a `..` sequence anywhere.
pub fn validate_path(path: &str) -> (r: Result<(), String>)
    ensures
        r.is_ok() <==> !has_dot_dot_pair(path.spec_bytes()),
        r matches Err(m) ==> m@ == "Path traversal not allowed"@,
{
    if scan_dot_dot_pair(path.as_bytes()) {
        Err("Path traversal not allowed".to_owned())
    } else {
        Ok(())
    }
}

// ---------------------------------------------------------------------------
// Magic-byte validation of the first chunk.
// ---------------------------------------------------------------------------

/// `d` carries the bytes of `p` starting at offset `start`.
pub open spec fn bytes_match_at(d: Seq<u8>, start: int, p: Seq<u8>) -> bool {
    0 <= start && start + p.len() <= d.len() && d.subrange(start, start + p.len()) == p
}

/// `d` begins with the bytes of `p`.
pub open spec fn bytes_start_with(d: Seq<u8>, p: Seq<u8>) -> bool {
    bytes_match_at(d, 0, p)
}

/// The closed table of leading-byte signatures, keyed by declared media
/// type: JPEG, PNG, GIF, WEBP, PDF and ZIP are checked; `text/*` and
/// unknown types pass unchecked. Fewer than four bytes never pass.
pub open spec fn magic_bytes_ok(m: Seq<u8>, d: Seq<u8>) -> bool {
    if d.len() < 4 {
        false
    } else if m == "image/jpeg".spec_bytes() {
        bytes_start_with(d, seq![0xffu8, 0xd8, 0xff])
    } else if m == "image/png".spec_bytes() {
        bytes_start_with(d, seq![0x89u8, 0x50, 0x4e, 0x47])
    } else if m == "image/gif".spec_bytes() {
        bytes_start_with(d, "GIF87a".spec_bytes()) || bytes_start_with(d, "GIF89a".spec_bytes())
    } else if m == "image/webp".spec_bytes() {
        bytes_match_at(d, 0, "RIFF".spec_bytes()) && bytes_match_at(d, 8, "WEBP".spec_bytes())
    } else if m == "application/pdf".spec_bytes() {
        bytes_start_with(d, "%PDF".spec_bytes())
    } else if m == "application/zip".spec_bytes() {
        bytes_start_with(d, seq![0x50u8, 0x4b, 0x03, 0x04]) || bytes_start_with(
            d,
            seq![0x50u8, 0x4b, 0x05, 0x06],
        )
    } else {
        true
    }
}

pub(crate) fn bytes_eq(a: &[u8], b: &[u8]) -> (r: bool)
    ensures
        r == (a@ == b@),
{
    if a.len() != b.len() {
        return false;
    }
    let mut i: usize = 0;
    while i < a.len()
        invariant
            i <= a@.len(),
            a@.len() == b@.len(),
            forall|j: int| 0 <= j < i ==> a@[j] == b@[j],
        decreases a@.len() - i,
    {
        if a[i] != b[i] {
            return false;
        }
        i += 1;
    }
    proof {
        assert(a@ =~= b@);
    }
    true
}

/// Does `d` carry the bytes of `p` starting at `start`? False when `d` is
/// too short.
fn slice_matches_at(d: &[u8], start: usize, p: &[u8]) -> (r: bool)
    ensures
        r == bytes_match_at(d@, start as int, p@),
{
    if start > d.len() || d.len() - start < p.len() {
        return false;
    }
    let mut i: usize = 0;
    while i < p.len()
        invariant
            i <= p@.len(),
            start + p@.len() <= d@.len(),
            d@.len() <= usize::MAX,
            forall|j: int| 0 <= j < i ==> d@[start + j] == p@[j],
        decreases p@.len() - i,
    {
        if d[start + i] != p[i] {
            proof {
                let sub = d@.subrange(start as int, start as int + p@.len() as int);
                if sub == p@ {
                    assert(sub[i as int] == d@[start + i as int]);
                }
            }
            return false;
        }
        i += 1;
    }
    proof {
        assert(d@.subrange(start as int, start as int + p@.len() as int) =~= p@);
    }
    true
}

fn starts_with_3(d: &[u8], b0: u8, b1: u8, b2: u8) -> (r: bool)
    ensures
        r == bytes_start_with(d@, seq![b0, b1, b2]),
{
    let r = d.len() >= 3 && d[0] == b0 && d[1] == b1 && d[2] == b2;
    proof {
        if r {
            assert(d@.subrange(0, 3) =~= seq![b0, b1, b2]);
        } else if d@.len() >= 3 && d@.subrange(0, 3) == seq![b0, b1, b2] {
            assert(d@.subrange(0, 3)[0] == d@[0]);
            assert(d@.subrange(0, 3)[1] == d@[1]);
            assert(d@.subrange(0, 3)[2] == d@[2]);
        }
    }
    r
}

fn starts_with_4(d: &[u8], b0: u8, b1: u8, b2: u8, b3: u8) -> (r: bool)
    ensures
        r == bytes_start_with(d@, seq![b0, b1, b2, b3]),
{
    let r = d.len() >= 4 && d[0] == b0 && d[1] == b1 && d[2] == b2 && d[3] == b3;
    proof {
        if r {
            assert(d@.subrange(0, 4) =~= seq![b0, b1, b2, b3]);
        } else if d@.len() >= 4 && d@.subrange(0, 4) == seq![b0, b1, b2, b3] {
            assert(d@.subrange(0, 4)[0] == d@[0]);
            assert(d@.subrange(0, 4)[1] == d@[1]);
            assert(d@.subrange(0, 4)[2] == d@[2]);
            assert(d@.subrange(0, 4)[3] == d@[3]);
        }
    }
    r
}

/// Check the leading bytes of the first chunk against the declared media
/// type's signature.
pub fn validate_magic_bytes(mime_type: &str, data: &[u8]) -> (r: bool)
    ensures
        r == magic_bytes_ok(mime_type.spec_bytes(), data@),
{
    if data.len() < 4 {
        return false;
    }
    let m = mime_type.as_bytes();
    if bytes_eq(m, "image/jpeg".as_bytes()) {
        starts_with_3(data, 0xff, 0xd8, 0xff)
    } else if bytes_eq(m, "image/png".as_bytes()) {
        starts_with_4(data, 0x89, 0x50, 0x4e, 0x47)
    } else if bytes_eq(m, "image/gif".as_bytes()) {
        slice_matches_at(data, 0, "GIF87a".as_bytes()) || slice_matches_at(
            data,
            0,
            "GIF89a".as_bytes(),
        )
    } else if bytes_eq(m, "image/webp".as_bytes()) {
        slice_matches_at(data, 0, "RIFF".as_bytes()) && slice_matches_at(
            data,
            8,
            "WEBP".as_bytes(),
        )
    } else if bytes_eq(m, "application/pdf".as_bytes()) {
        slice_matches_at(data, 0, "%PDF".as_bytes())
    } else if bytes_eq(m, "application/zip".as_bytes()) {
        starts_with_4(data, 0x50, 0x4b, 0x03, 0x04) || starts_with_4(data, 0x50, 0x4b, 0x05, 0x06)
    } else {
        true
    }
}

// ---------------------------------------------------------------------------
// Upload sessions and their coordinator.
// ---------------------------------------------------------------------------

/// The fixed chunk size handed to clients at `init_upload`.
pub const DEFAULT_CHUNK_SIZE: usize = 1024 * 1024;

/// The ceiling on a declared file size.
pub const MAX_FILE_SIZE: u64 = 1024 * 1024 * 1024;

/// How long a session may sit idle before the expiry sweep reclaims it.
pub const SESSION_TIMEOUT_MILLIS: i64 = 24 * 60 * 60 * 1000;

/// One resumable upload session: the declared file, the fixed chunking, and
/// the staged chunk contents by index. A `None` entry is a chunk not yet
/// received; re-sending an index overwrites its entry.
pub struct UploadSession {
    pub id: String,
    pub file_name: String,
    pub file_size: u64,
    pub mime_type: String,
    pub target_path: String,
    pub chunk_size: usize,
    pub total_chunks: usize,
    pub chunks: Vec<Option<Vec<u8>>>,
    pub created_at: i64,
    pub user_id: String,
}

/// The mathematical model of a session.
pub ghost struct SessionModel {
    pub id: Seq<char>,
    pub file_name: Seq<char>,
    pub file_size: u64,
    pub mime_type: Seq<char>,
    pub target_path: Seq<char>,
    pub chunk_size: usize,
    pub total_chunks: usize,
    pub chunks: Seq<Option<Seq<u8>>>,
    pub created_at: i64,
    pub user_id: Seq<char>,
}

impl View for UploadSession {
    type V = SessionModel;

    open spec fn view(&self) -> SessionModel {
        SessionModel {
            id: self.id@,
            file_name: self.file_name@,
            file_size: self.file_size,
            mime_type: self.mime_type@,
            target_path: self.target_path@,
            chunk_size: self.chunk_size,
            total_chunks: self.total_chunks,
            chunks: self.chunks.deep_view(),
            created_at: self.created_at,
            user_id: self.user_id@,
        }
    }
}

/// Chunk count of a declared size: the ceiling of `file_size / chunk_size`.
pub open spec fn spec_total_chunks(file_size: u64, chunk_size: usize) -> int {
    if chunk_size == 0 {
        0
    } else {
        (file_size + chunk_size - 1) / (chunk_size as int)
    }
}

/// A well-formed session: positive chunk size, a size within the ceiling,
/// and a chunk table whose length was fixed at creation.
pub open spec fn session_wf(m: SessionModel) -> bool {
    &&& m.chunk_size > 0
    &&& m.file_size <= MAX_FILE_SIZE
    &&& m.total_chunks == spec_total_chunks(m.file_size, m.chunk_size)
    &&& m.chunks.len() == m.total_chunks
}

/// How many chunks have been received.
pub open spec fn received_count(chunks: Seq<Option<Seq<u8>>>) -> int
    decreases chunks.len(),
{
    if chunks.len() == 0 {
        0
    } else {
        received_count(chunks.drop_last()) + if chunks.last() is Some {
            1int
        } else {
            0int
        }
    }
}

/// Every chunk index has been written at least once.
pub open spec fn all_received(chunks: Seq<Option<Seq<u8>>>) -> bool {
    forall|i: int| 0 <= i < chunks.len() ==> #[trigger] chunks[i] is Some
}

/// The bytes of the merged file: the staged chunks concatenated in index
/// order, a missing chunk contributing nothing.
pub open spec fn merged_bytes(chunks: Seq<Option<Seq<u8>>>) -> Seq<u8>
    decreases chunks.len(),
{
    if chunks.len() == 0 {
        Seq::empty()
    } else {
        merged_bytes(chunks.drop_last()) + match chunks.last() {
            Some(c) => c,
            None => Seq::empty(),
        }
    }
}

/// A session with this identifier is in the table.
pub open spec fn has_session(s: Seq<SessionModel>, id: Seq<char>) -> bool {
    exists|i: int| 0 <= i < s.len() && (#[trigger] s[i].id) == id
}

/// No two sessions share an identifier.
pub open spec fn ids_distinct(s: Seq<SessionModel>) -> bool {
    forall|i: int, j: int|
        0 <= i < j < s.len() ==> (#[trigger] s[i].id) != (#[trigger] s[j].id)
}

/// The coordinator's invariant: distinct identifiers, every session
/// well-formed.
pub open spec fn inv(s: Seq<SessionModel>) -> bool {
    &&& ids_distinct(s)
    &&& forall|i: int| 0 <= i < s.len() ==> session_wf(#[trigger] s[i])
}

/// Writing one chunk: the entry at `i` is overwritten, everything else of
/// the session stays as it was.
pub open spec fn spec_put_chunk(m: SessionModel, i: int, data: Seq<u8>) -> SessionModel {
    SessionModel { chunks: m.chunks.update(i, Some(data)), ..m }
}

/// The target path of the session's request, the empty path standing for
/// the storage root itself.
pub open spec fn target_view(t: Option<String>) -> Seq<char> {
    match t {
        Some(p) => p@,
        None => Seq::empty(),
    }
}

pub struct InitUploadRequest {
    pub file_name: String,
    pub file_size: u64,
    pub mime_type: String,
    pub target_path: Option<String>,
}

pub struct InitUploadResponse {
    pub upload_id: String,
    pub chunk_size: usize,
    pub total_chunks: usize,
}

pub struct ChunkUploadResponse {
    pub success: bool,
    pub received_chunks: usize,
    pub total_chunks: usize,
}

pub struct FileInfo {
    pub name: String,
    pub size: u64,
    pub mime_type: String,
}

pub struct CompleteUploadResponse {
    pub file_path: String,
    pub file_info: FileInfo,
}

/// The target directory of an upload passes: it is absent, or it carries
/// no `..` byte pair and the path resolver would not reject it -- the same
/// predicate `paths::resolve` applies, which also catches percent-encoded
/// traversal.
pub open spec fn target_acceptable(t: Option<String>) -> bool {
    t matches Some(p) ==> (!has_dot_dot_pair(encode_utf8(p@)) && !crate::paths::request_rejected(
        p@,
    ))
}

/// An `init_upload` request passes validation: acceptable file name,
/// well-formed media type, a target path the resolver accepts, size within
/// the ceiling.
pub open spec fn init_request_acceptable(req: InitUploadRequest) -> bool {
    &&& valid_file_name(encode_utf8(req.file_name@))
    &&& mime_is_well_formed(req.mime_type@)
    &&& target_acceptable(req.target_path)
    &&& req.file_size <= MAX_FILE_SIZE
}

/// The error a request that fails validation is rejected with: a
/// traversal in the target directory is a `PathViolation`, every other
/// failing check an `InvalidArgument` -- checked in the order name, media
/// type, target, size.
pub open spec fn init_error(req: InitUploadRequest) -> TransferError {
    if !valid_file_name(encode_utf8(req.file_name@)) {
        TransferError::InvalidArgument
    } else if !mime_is_well_formed(req.mime_type@) {
        TransferError::InvalidArgument
    } else if !target_acceptable(req.target_path) {
        TransferError::PathViolation
    } else {
        TransferError::InvalidArgument
    }
}

/// The session `init_upload` creates: no chunk received yet.
pub open spec fn spec_new_session(
    id: Seq<char>,
    req: InitUploadRequest,
    created_at: i64,
    user_id: Seq<char>,
) -> SessionModel {
    SessionModel {
        id: id,
        file_name: req.file_name@,
        file_size: req.file_size,
        mime_type: req.mime_type@,
        target_path: target_view(req.target_path),
        chunk_size: DEFAULT_CHUNK_SIZE,
        total_chunks: spec_total_chunks(req.file_size, DEFAULT_CHUNK_SIZE) as usize,
        chunks: Seq::new(
            spec_total_chunks(req.file_size, DEFAULT_CHUNK_SIZE) as nat,
            |i: int| None,
        ),
        created_at: created_at,
        user_id: user_id,
    }
}

/// The coordinator: the table of in-flight upload sessions.
pub struct UploadService {
    sessions: Vec<UploadSession>,
}

impl View for UploadService {
    type V = Seq<SessionModel>;

    closed spec fn view(&self) -> Seq<SessionModel> {
        self.sessions@.map_values(|s: UploadSession| s@)
    }
}

impl UploadService {
    /// An empty coordinator.
    pub fn new() -> (s: Self)
        ensures
            s@ == Seq::<SessionModel>::empty(),
            inv(s@),
    {
        let s = UploadService { sessions: Vec::new() };
        proof {
            assert(s@ =~= Seq::<SessionModel>::empty());
        }
        s
    }

    fn find_session(&self, id: &String) -> (r: Option<usize>)
        ensures
            match r {
                Some(i) => i < self@.len() && self@[i as int].id == id@,
                None => forall|i: int| 0 <= i < self@.len() ==> (#[trigger] self@[i].id) != id@,
            },
    {
        let mut i: usize = 0;
        while i < self.sessions.len()
            invariant
                i <= self@.len(),
                self@.len() == self.sessions@.len(),
                forall|j: int| 0 <= j < i ==> (#[trigger] self@[j].id) != id@,
            decreases self@.len() - i,
        {
            if self.sessions[i].id == *id {
                return Some(i);
            }
            i += 1;
        }
        None
    }

    /// Open a new upload session under a caller-supplied token.
    ///
    /// Succeeds exactly when the request validates and the token is not in
    /// use; the new session is appended with an all-empty chunk table, and
    /// the client is told the chunk size and chunk count to send. The
    /// target directory goes through the resolver's own rejection
    /// predicate, so a traversal -- raw or percent-encoded -- is a
    /// `PathViolation` already at `init`; a token already in the table is
    /// the one `Internal` failure.
    pub fn init_upload(
        &mut self,
        token: String,
        req: InitUploadRequest,
        now: i64,
        user_id: String,
    ) -> (r: Result<InitUploadResponse, TransferError>)
        requires
            inv(old(self)@),
        ensures
            inv(final(self)@),
            r.is_ok() <==> (init_request_acceptable(req) && !has_session(old(self)@, token@)),
            match r {
                Ok(resp) => {
                    &&& resp.upload_id@ == token@
                    &&& resp.chunk_size == DEFAULT_CHUNK_SIZE
                    &&& resp.total_chunks == spec_total_chunks(req.file_size, DEFAULT_CHUNK_SIZE)
                    &&& final(self)@ == old(self)@.push(spec_new_session(token@, req, now, user_id@))
                },
                Err(e) => {
                    &&& final(self)@ == old(self)@
                    &&& if init_request_acceptable(req) {
                        e == TransferError::Internal && has_session(old(self)@, token@)
                    } else {
                        e == init_error(req)
                    }
                },
            },
    {
        if validate_file_name(req.file_name.as_str()).is_err() {
            return Err(TransferError::InvalidArgument);
        }
        if validate_mime_type(req.mime_type.as_str()).is_err() {
            return Err(TransferError::InvalidArgument);
        }
        match &req.target_path {
            Some(p) => {
                if validate_path(p.as_str()).is_err() || crate::paths::request_is_rejected(
                    p.as_str(),
                ) {
                    return Err(TransferError::PathViolation);
                }
            },
            None => {},
        }
        if req.file_size > MAX_FILE_SIZE {
            return Err(TransferError::InvalidArgument);
        }
        if self.find_session(&token).is_some() {
            return Err(TransferError::Internal);
        }
        let chunk_size = DEFAULT_CHUNK_SIZE;
        let total_u64 = (req.file_size + chunk_size as u64 - 1) / chunk_size as u64;
        let total = total_u64 as usize;
        let mut chunks: Vec<Option<Vec<u8>>> = Vec::new();
        let mut i: usize = 0;
        while i < total
            invariant
                i <= total,
                chunks@.len() == i,
                forall|j: int| 0 <= j < i ==> (#[trigger] chunks@[j]) is None,
            decreases total - i,
        {
            chunks.push(None);
            i += 1;
        }
        proof {
            assert forall|j: int| 0 <= j < total as int implies #[trigger] chunks.deep_view()[j]
                == None::<Seq<u8>> by {
                assert(chunks@[j] is None);
            }
            assert(chunks.deep_view() =~= Seq::new(total as nat, |j: int| None::<Seq<u8>>));
        }
        let ghost token_view = token@;
        let ghost model = spec_new_session(token@, req, now, user_id@);
        let token_for_response = token.clone();
        let session = UploadSession {
            id: token,
            file_name: req.file_name,
            file_size: req.file_size,
            mime_type: req.mime_type,
            target_path: match req.target_path {
                Some(p) => p,
                None => String::new(),
            },
            chunk_size,
            total_chunks: total,
            chunks,
            created_at: now,
            user_id,
        };
        proof {
            assert(session@.chunks =~= model.chunks);
            assert(session@ == model);
        }
        self.sessions.push(session);
        proof {
            assert(self@ =~= old(self)@.push(model));
            assert forall|a: int, b: int| 0 <= a < b < self@.len() implies (#[trigger] self@[a].id)
                != (#[trigger] self@[b].id) by {
                if b == self@.len() - 1 {
                    assert(self@[a].id != token_view);
                }
            }
        }
        Ok(
            InitUploadResponse {
                upload_id: token_for_response,
                chunk_size,
                total_chunks: total,
            },
        )
    }
}

/// The relative path `complete_upload` reports: the file name under the
/// session's target directory, or the bare name when the target is the
/// root.
pub open spec fn spec_final_path(target: Seq<char>, name: Seq<char>) -> Seq<char> {
    if target.len() == 0 {
        name
    } else {
        target + seq!['/'] + name
    }
}

/// The indices whose chunks have been received, in ascending order.
pub open spec fn spec_received_indices(chunks: Seq<Option<Seq<u8>>>) -> Seq<int>
    decreases chunks.len(),
{
    if chunks.len() == 0 {
        Seq::empty()
    } else {
        spec_received_indices(chunks.drop_last()) + if chunks.last() is Some {
            seq![chunks.len() - 1]
        } else {
            Seq::empty()
        }
    }
}

/// Progress of a session in whole percent; an empty chunk table counts as
/// complete.
pub open spec fn spec_progress_percent(chunks: Seq<Option<Seq<u8>>>) -> int {
    if chunks.len() == 0 {
        100
    } else {
        received_count(chunks) * 100 / (chunks.len() as int)
    }
}

/// A session older than `max_age_millis` at time `now`.
pub open spec fn session_expired(m: SessionModel, now: i64, max_age_millis: i64) -> bool {
    now - m.created_at > max_age_millis
}

pub struct UploadStatusResponse {
    pub upload_id: String,
    pub file_name: String,
    pub file_size: u64,
    pub chunk_size: usize,
    pub total_chunks: usize,
    pub received_chunks: Vec<usize>,
    pub completed_chunks: usize,
    pub progress_percent: u64,
}

pub proof fn lemma_received_count_bounds(chunks: Seq<Option<Seq<u8>>>)
    ensures
        0 <= received_count(chunks) <= chunks.len(),
    decreases chunks.len(),
{
    if chunks.len() > 0 {
        lemma_received_count_bounds(chunks.drop_last());
    }
}

proof fn lemma_total_chunks_le(file_size: u64, chunk_size: usize)
    requires
        chunk_size > 0,
    ensures
        0 <= spec_total_chunks(file_size, chunk_size) <= file_size + 1,
{
    let n = file_size + chunk_size - 1;
    let cs = chunk_size as int;
    vstd::arithmetic::div_mod::lemma_fundamental_div_mod(n, cs);
    let q = n / cs;
    if q > file_size + 1 {
        assert(q * cs >= (file_size + 2) * cs) by (nonlinear_arith)
            requires
                q >= file_size + 2,
                cs >= 1,
        ;
        assert((file_size + 2) * cs >= file_size + 2 + (cs - 1)) by (nonlinear_arith)
            requires
                cs >= 1,
                file_size >= 0,
        ;
    }
    if q < 0 {
        assert(q * cs <= -cs) by (nonlinear_arith)
            requires
                q <= -1,
                cs >= 1,
        ;
    }
}

// ---------------------------------------------------------------------------
// Laws of the chunk table.
// ---------------------------------------------------------------------------

/// Re-sending a chunk is idempotent: writing the same bytes to the same
/// index twice leaves exactly the session -- and therefore the merged file
/// -- that one write leaves.
pub proof fn lemma_put_chunk_idempotent(m: SessionModel, i: int, data: Seq<u8>)
    requires
        0 <= i < m.chunks.len(),
    ensures
        spec_put_chunk(spec_put_chunk(m, i, data), i, data) == spec_put_chunk(m, i, data),
        merged_bytes(spec_put_chunk(spec_put_chunk(m, i, data), i, data).chunks) == merged_bytes(
            spec_put_chunk(m, i, data).chunks,
        ),
{
    assert(m.chunks.update(i, Some(data)).update(i, Some(data)) =~= m.chunks.update(
        i,
        Some(data),
    ));
}

/// Chunks may arrive in any order: writes to two different indices
/// commute, so the session after all chunks landed does not depend on the
/// order in which they came.
pub proof fn lemma_put_chunk_commutes(
    m: SessionModel,
    i: int,
    j: int,
    d1: Seq<u8>,
    d2: Seq<u8>,
)
    requires
        0 <= i < m.chunks.len(),
        0 <= j < m.chunks.len(),
        i != j,
    ensures
        spec_put_chunk(spec_put_chunk(m, i, d1), j, d2) == spec_put_chunk(
            spec_put_chunk(m, j, d2),
            i,
            d1,
        ),
{
    assert(m.chunks.update(i, Some(d1)).update(j, Some(d2)) =~= m.chunks.update(
        j,
        Some(d2),
    ).update(i, Some(d1)));
}

proof fn lemma_unique_index(s: Seq<SessionModel>, id: Seq<char>, i: int)
    requires
        inv(s),
        0 <= i < s.len(),
        s[i].id == id,
    ensures
        forall|j: int| 0 <= j < s.len() && (#[trigger] s[j].id) == id ==> j == i,
{
    assert forall|j: int| 0 <= j < s.len() && (#[trigger] s[j].id) == id implies j == i by {
        if j < i {
            assert(s[j].id != s[i].id);
        } else if j > i {
            assert(s[i].id != s[j].id);
        }
    }
}

proof fn lemma_inv_remove(s: Seq<SessionModel>, i: int)
    requires
        inv(s),
        0 <= i < s.len(),
    ensures
        inv(s.remove(i)),
{
    let t = s.remove(i);
    assert forall|a: int, b: int| 0 <= a < b < t.len() implies (#[trigger] t[a].id)
        != (#[trigger] t[b].id) by {
        let a0 = if a < i {
            a
        } else {
            a + 1
        };
        let b0 = if b < i {
            b
        } else {
            b + 1
        };
        assert(s[a0].id != s[b0].id);
    }
    assert forall|a: int| 0 <= a < t.len() implies session_wf(#[trigger] t[a]) by {
        let a0 = if a < i {
            a
        } else {
            a + 1
        };
        assert(session_wf(s[a0]));
    }
}

fn count_received(chunks: &Vec<Option<Vec<u8>>>) -> (r: usize)
    ensures
        r == received_count(chunks.deep_view()),
{
    let ghost dv = chunks.deep_view();
    let mut cnt: usize = 0;
    let mut i: usize = 0;
    proof {
        assert(dv.take(0) =~= Seq::<Option<Seq<u8>>>::empty());
    }
    while i < chunks.len()
        invariant
            i <= chunks@.len(),
            cnt <= i,
            dv == chunks.deep_view(),
            dv.len() == chunks@.len(),
            cnt == received_count(dv.take(i as int)),
        decreases chunks@.len() - i,
    {
        proof {
            assert(dv[i as int] == chunks@[i as int].deep_view());
            assert(dv.take(i as int + 1).drop_last() =~= dv.take(i as int));
            assert(dv.take(i as int + 1).last() == dv[i as int]);
        }
        if chunks[i].is_some() {
            cnt += 1;
        }
        i += 1;
    }
    proof {
        assert(dv.take(dv.len() as int) =~= dv);
    }
    cnt
}

fn all_chunks_present(chunks: &Vec<Option<Vec<u8>>>) -> (r: bool)
    ensures
        r == all_received(chunks.deep_view()),
{
    let ghost dv = chunks.deep_view();
    let mut i: usize = 0;
    while i < chunks.len()
        invariant
            i <= chunks@.len(),
            dv == chunks.deep_view(),
            dv.len() == chunks@.len(),
            forall|j: int| 0 <= j < i ==> (#[trigger] dv[j]) is Some,
        decreases chunks@.len() - i,
    {
        proof {
            assert(dv[i as int] == chunks@[i as int].deep_view());
        }
        if chunks[i].is_none() {
            return false;
        }
        i += 1;
    }
    true
}

fn merge_chunks(chunks: &Vec<Option<Vec<u8>>>) -> (r: Vec<u8>)
    ensures
        r@ == merged_bytes(chunks.deep_view()),
{
    let ghost dv = chunks.deep_view();
    let mut out: Vec<u8> = Vec::new();
    let mut i: usize = 0;
    proof {
        assert(dv.take(0) =~= Seq::<Option<Seq<u8>>>::empty());
    }
    while i < chunks.len()
        invariant
            i <= chunks@.len(),
            dv == chunks.deep_view(),
            dv.len() == chunks@.len(),
            out@ == merged_bytes(dv.take(i as int)),
        decreases chunks@.len() - i,
    {
        proof {
            assert(dv[i as int] == chunks@[i as int].deep_view());
            assert(dv.take(i as int + 1).drop_last() =~= dv.take(i as int));
            assert(dv.take(i as int + 1).last() == dv[i as int]);
        }
        let ghost base = out@;
        match &chunks[i] {
            Some(c) => {
                let mut j: usize = 0;
                proof {
                    assert(base + c@.take(0) =~= base);
                }
                while j < c.len()
                    invariant
                        j <= c@.len(),
                        out@ == base + c@.take(j as int),
                    decreases c@.len() - j,
                {
                    out.push(c[j]);
                    j += 1;
                    proof {
                        assert(base + c@.take(j as int) =~= (base + c@.take(j as int - 1)).push(
                            c@[j as int - 1],
                        ));
                    }
                }
                proof {
                    assert(c@.take(c@.len() as int) =~= c@);
                    assert(dv[i as int] == Some(c@));
                    assert(out@ == merged_bytes(dv.take(i as int + 1)));
                }
            },
            None => {
                proof {
                    assert(dv[i as int] is None);
                    assert(out@ + Seq::<u8>::empty() =~= out@);
                    assert(out@ == merged_bytes(dv.take(i as int + 1)));
                }
            },
        }
        i += 1;
    }
    proof {
        assert(dv.take(dv.len() as int) =~= dv);
    }
    out
}

impl UploadService {
    /// Open a new upload session under a freshly drawn random token.
    ///
    /// A request that fails validation is rejected outright, with the
    /// validation error itself. A valid request succeeds unless the fresh
    /// token happens to collide with a session already in the table, which
    /// the random source cannot rule out; that one failure is reported as
    /// `Internal`, and the caller may simply retry.
    pub fn init_upload_fresh(
        &mut self,
        req: InitUploadRequest,
        now: i64,
        user_id: String,
    ) -> (r: Result<InitUploadResponse, TransferError>)
        requires
            inv(old(self)@),
        ensures
            inv(final(self)@),
            !init_request_acceptable(req) ==> r == Err::<InitUploadResponse, _>(init_error(req)),
            match r {
                Ok(resp) => {
                    &&& init_request_acceptable(req)
                    &&& !has_session(old(self)@, resp.upload_id@)
                    &&& resp.chunk_size == DEFAULT_CHUNK_SIZE
                    &&& resp.total_chunks == spec_total_chunks(req.file_size, DEFAULT_CHUNK_SIZE)
                    &&& final(self)@ == old(self)@.push(
                        spec_new_session(resp.upload_id@, req, now, user_id@),
                    )
                },
                Err(e) => {
                    &&& final(self)@ == old(self)@
                    &&& if init_request_acceptable(req) {
                        e == TransferError::Internal
                    } else {
                        e == init_error(req)
                    }
                },
            },
    {
        let token = new_token();
        self.init_upload(token, req, now, user_id)
    }

    /// Stage the bytes of one chunk.
    ///
    /// An unknown session is `NotFound`; an index at or past the session's
    /// chunk count is `InvalidArgument`; for index 0 with a non-empty body,
    /// a magic-byte mismatch against the declared media type is
    /// `InvalidArgument`. Otherwise the entry at the index is overwritten --
    /// re-sending any index is harmless -- and the client learns how many
    /// chunks have arrived.
    pub fn put_chunk(
        &mut self,
        upload_id: &String,
        chunk_index: usize,
        data: Vec<u8>,
    ) -> (r: Result<ChunkUploadResponse, TransferError>)
        requires
            inv(old(self)@),
        ensures
            inv(final(self)@),
            r.is_ok() <==> exists|i: int|
                0 <= i < old(self)@.len() && (#[trigger] old(self)@[i].id) == upload_id@
                    && chunk_index < old(self)@[i].total_chunks && !(chunk_index == 0
                    && data@.len() > 0 && !magic_bytes_ok(
                    encode_utf8(old(self)@[i].mime_type),
                    data@,
                )),
            match r {
                Ok(resp) => exists|i: int|
                    {
                        &&& 0 <= i < old(self)@.len()
                        &&& (#[trigger] old(self)@[i].id) == upload_id@
                        &&& chunk_index < old(self)@[i].total_chunks
                        &&& final(self)@ == old(self)@.update(
                            i,
                            spec_put_chunk(old(self)@[i], chunk_index as int, data@),
                        )
                        &&& resp.success
                        &&& resp.received_chunks == received_count(
                            old(self)@[i].chunks.update(chunk_index as int, Some(data@)),
                        )
                        &&& resp.total_chunks == old(self)@[i].total_chunks
                    },
                Err(e) => {
                    &&& final(self)@ == old(self)@
                    &&& (e == TransferError::NotFound <==> !has_session(old(self)@, upload_id@))
                    &&& (e != TransferError::NotFound ==> e == TransferError::InvalidArgument)
                },
            },
    {
        let idx = match self.find_session(upload_id) {
            None => {
                return Err(TransferError::NotFound);
            },
            Some(i) => i,
        };
        let ghost pre = self@;
        proof {
            lemma_unique_index(pre, upload_id@, idx as int);
        }
        let mut session = self.sessions.remove(idx);
        proof {
            assert(session@ == pre[idx as int]);
            assert(session_wf(pre[idx as int]));
        }
        if chunk_index >= session.total_chunks {
            self.sessions.insert(idx, session);
            proof {
                assert(self@ =~= pre);
            }
            return Err(TransferError::InvalidArgument);
        }
        if chunk_index == 0 && data.len() > 0 {
            if !validate_magic_bytes(session.mime_type.as_str(), data.as_slice()) {
                self.sessions.insert(idx, session);
                proof {
                    assert(self@ =~= pre);
                }
                return Err(TransferError::InvalidArgument);
            }
        }
        let ghost new_model = spec_put_chunk(pre[idx as int], chunk_index as int, data@);
        let ghost prev_chunks = session.chunks@;
        let ghost prev_deep = session.chunks.deep_view();
        proof {
            assert(prev_deep == pre[idx as int].chunks);
        }
        session.chunks.set(chunk_index, Some(data));
        proof {
            assert forall|j: int| 0 <= j < session.chunks.deep_view().len() implies #[trigger]
            session.chunks.deep_view()[j] == new_model.chunks[j] by {
                assert(session.chunks.deep_view()[j] == session.chunks@[j].deep_view());
                if j != chunk_index as int {
                    assert(session.chunks@[j] == prev_chunks[j]);
                    assert(prev_deep[j] == prev_chunks[j].deep_view());
                }
            }
            assert(session.chunks.deep_view() =~= new_model.chunks);
            assert(session@ == new_model);
        }
        let count = count_received(&session.chunks);
        let total = session.total_chunks;
        self.sessions.insert(idx, session);
        proof {
            assert(self@ =~= pre.update(idx as int, new_model));
            let sv = self@;
            assert forall|a: int, b: int| 0 <= a < b < sv.len() implies (#[trigger] sv[a].id)
                != (#[trigger] sv[b].id) by {
                assert(pre[a].id != pre[b].id);
            }
            assert forall|a: int| 0 <= a < sv.len() implies session_wf(#[trigger] sv[a]) by {
                assert(session_wf(pre[a]));
            }
        }
        Ok(ChunkUploadResponse { success: true, received_chunks: count, total_chunks: total })
    }

    /// Merge a finished session.
    ///
    /// Succeeds exactly when the session exists and every chunk index has
    /// been written at least once; the merged bytes are the chunks
    /// concatenated in index order, the session leaves the table, and the
    /// reported path is the file name under the session's target directory.
    /// With chunks missing the session is kept so the client can finish and
    /// retry.
    pub fn complete_upload(&mut self, upload_id: &String) -> (r: Result<
        (CompleteUploadResponse, Vec<u8>),
        TransferError,
    >)
        requires
            inv(old(self)@),
        ensures
            inv(final(self)@),
            r.is_ok() <==> exists|i: int|
                0 <= i < old(self)@.len() && (#[trigger] old(self)@[i].id) == upload_id@
                    && all_received(old(self)@[i].chunks),
            match r {
                Ok((resp, merged)) => exists|i: int|
                    {
                        &&& 0 <= i < old(self)@.len()
                        &&& (#[trigger] old(self)@[i].id) == upload_id@
                        &&& all_received(old(self)@[i].chunks)
                        &&& final(self)@ == old(self)@.remove(i)
                        &&& merged@ == merged_bytes(old(self)@[i].chunks)
                        &&& resp.file_path@ == spec_final_path(
                            old(self)@[i].target_path,
                            old(self)@[i].file_name,
                        )
                        &&& resp.file_info.name@ == old(self)@[i].file_name
                        &&& resp.file_info.size == old(self)@[i].file_size
                        &&& resp.file_info.mime_type@ == old(self)@[i].mime_type
                    },
                Err(e) => {
                    &&& final(self)@ == old(self)@
                    &&& (e == TransferError::NotFound <==> !has_session(old(self)@, upload_id@))
                    &&& (e != TransferError::NotFound ==> e == TransferError::Incomplete)
                },
            },
    {
        let idx = match self.find_session(upload_id) {
            None => {
                return Err(TransferError::NotFound);
            },
            Some(i) => i,
        };
        proof {
            lemma_unique_index(self@, upload_id@, idx as int);
        }
        if !all_chunks_present(&self.sessions[idx].chunks) {
            return Err(TransferError::Incomplete);
        }
        let ghost pre = self@;
        let session = self.sessions.remove(idx);
        proof {
            assert(session@ == pre[idx as int]);
            assert(self@ =~= pre.remove(idx as int));
            lemma_inv_remove(pre, idx as int);
        }
        let merged = merge_chunks(&session.chunks);
        let file_path = if session.target_path.as_str().is_empty() {
            session.file_name.clone()
        } else {
            let mut p = session.target_path.clone();
            p.append("/");
            p.append(session.file_name.as_str());
            proof {
                reveal_strlit("/");
                assert("/"@ =~= seq!['/']);
            }
            p
        };
        Ok(
            (
                CompleteUploadResponse {
                    file_path,
                    file_info: FileInfo {
                        name: session.file_name,
                        size: session.file_size,
                        mime_type: session.mime_type,
                    },
                },
                merged,
            ),
        )
    }

    /// Drop a session and its staged chunks, whether or not it exists:
    /// cancelling twice is harmless.
    pub fn cancel_upload(&mut self, upload_id: &String) -> (removed: bool)
        requires
            inv(old(self)@),
        ensures
            inv(final(self)@),
            removed <==> has_session(old(self)@, upload_id@),
            removed ==> exists|i: int|
                0 <= i < old(self)@.len() && (#[trigger] old(self)@[i].id) == upload_id@
                    && final(self)@ == old(self)@.remove(i),
            !removed ==> final(self)@ == old(self)@,
    {
        match self.find_session(upload_id) {
            Some(i) => {
                let ghost pre = self@;
                self.sessions.remove(i);
                proof {
                    assert(self@ =~= pre.remove(i as int));
                    lemma_inv_remove(pre, i as int);
                }
                true
            },
            None => false,
        }
    }

    /// Report which chunk indices have arrived and the progress in whole
    /// percent, so a resumable client can decide what to retransmit.
    pub fn upload_status(&self, upload_id: &String) -> (r: Result<
        UploadStatusResponse,
        TransferError,
    >)
        requires
            inv(self@),
        ensures
            r.is_ok() <==> has_session(self@, upload_id@),
            match r {
                Ok(st) => exists|i: int|
                    {
                        &&& 0 <= i < self@.len()
                        &&& (#[trigger] self@[i].id) == upload_id@
                        &&& st.upload_id@ == upload_id@
                        &&& st.file_name@ == self@[i].file_name
                        &&& st.file_size == self@[i].file_size
                        &&& st.chunk_size == self@[i].chunk_size
                        &&& st.total_chunks == self@[i].total_chunks
                        &&& st.received_chunks@.map_values(|u: usize| u as int)
                            == spec_received_indices(self@[i].chunks)
                        &&& st.completed_chunks == received_count(self@[i].chunks)
                        &&& st.progress_percent == spec_progress_percent(self@[i].chunks)
                    },
                Err(e) => e == TransferError::NotFound,
            },
    {
        let idx = match self.find_session(upload_id) {
            None => {
                return Err(TransferError::NotFound);
            },
            Some(i) => i,
        };
        let session = &self.sessions[idx];
        proof {
            assert(session_wf(self@[idx as int]));
        }
        let ghost dv = session.chunks.deep_view();
        let mut received: Vec<usize> = Vec::new();
        let mut i: usize = 0;
        proof {
            assert(dv.take(0) =~= Seq::<Option<Seq<u8>>>::empty());
            assert(received@.map_values(|u: usize| u as int) =~= spec_received_indices(
                dv.take(0),
            ));
        }
        while i < session.chunks.len()
            invariant
                i <= session.chunks@.len(),
                dv == session.chunks.deep_view(),
                dv.len() == session.chunks@.len(),
                received@.map_values(|u: usize| u as int) == spec_received_indices(
                    dv.take(i as int),
                ),
            decreases session.chunks@.len() - i,
        {
            proof {
                assert(dv[i as int] == session.chunks@[i as int].deep_view());
                assert(dv.take(i as int + 1).drop_last() =~= dv.take(i as int));
                assert(dv.take(i as int + 1).last() == dv[i as int]);
            }
            let ghost prev = received@;
            if session.chunks[i].is_some() {
                received.push(i);
                proof {
                    assert(received@.map_values(|u: usize| u as int) =~= prev.map_values(
                        |u: usize| u as int,
                    ).push(i as int));
                    assert(spec_received_indices(dv.take(i as int + 1)) =~= spec_received_indices(
                        dv.take(i as int),
                    ).push(i as int));
                }
            } else {
                proof {
                    assert(spec_received_indices(dv.take(i as int + 1)) =~= spec_received_indices(
                        dv.take(i as int),
                    ));
                }
            }
            i += 1;
        }
        proof {
            assert(dv.take(dv.len() as int) =~= dv);
        }
        let completed = count_received(&session.chunks);
        let total = session.total_chunks;
        let progress: u64 = if total == 0 {
            100
        } else {
            proof {
                lemma_received_count_bounds(dv);
                lemma_total_chunks_le(session.file_size, session.chunk_size);
            }
            (completed as u64) * 100 / (total as u64)
        };
        Ok(
            UploadStatusResponse {
                upload_id: upload_id.clone(),
                file_name: session.file_name.clone(),
                file_size: session.file_size,
                chunk_size: session.chunk_size,
                total_chunks: total,
                received_chunks: received,
                completed_chunks: completed,
                progress_percent: progress,
            },
        )
    }

    /// Remove every session whose creation time lies more than
    /// `max_age_millis` before `now`, reclaiming abandoned uploads. Active
    /// sessions are untouched.
    pub fn sweep_expired(&mut self, now: i64, max_age_millis: i64) -> (removed: usize)
        requires
            inv(old(self)@),
        ensures
            inv(final(self)@),
            final(self)@ == old(self)@.filter(
                |m: SessionModel| !session_expired(m, now, max_age_millis),
            ),
            removed == old(self)@.len() - final(self)@.len(),
    {
        let ghost orig = self@;
        let ghost keep = |m: SessionModel| !session_expired(m, now, max_age_millis);
        let before = self.sessions.len();
        let mut i: usize = 0;
        let ghost mut k: int = 0;
        proof {
            assert(orig.take(0) =~= Seq::<SessionModel>::empty());
            reveal_with_fuel(Seq::<_>::filter, 2);
            assert(orig.take(0).filter(keep) =~= Seq::<SessionModel>::empty());
            assert(self@ =~= orig.take(0).filter(keep) + orig.skip(0));
        }
        while i < self.sessions.len()
            invariant
                0 <= k <= orig.len(),
                keep == (|m: SessionModel| !session_expired(m, now, max_age_millis)),
                i == orig.take(k).filter(keep).len(),
                self@ == orig.take(k).filter(keep) + orig.skip(k),
                self@.len() == self.sessions@.len(),
            decreases orig.len() - k,
        {
            proof {
                assert(self@[i as int] == orig.skip(k)[0]);
                assert(orig.skip(k)[0] == orig[k]);
            }
            let expired = {
                let s = &self.sessions[i];
                (now as i128) - (s.created_at as i128) > (max_age_millis as i128)
            };
            proof {
                assert(expired == session_expired(orig[k], now, max_age_millis));
            }
            let ghost pre = self@;
            if expired {
                self.sessions.remove(i);
                proof {
                    reveal_with_fuel(Seq::<_>::filter, 2);
                    assert(orig.take(k + 1).drop_last() =~= orig.take(k));
                    assert(orig.take(k + 1).last() == orig[k]);
                    assert(orig.take(k + 1).filter(keep) == orig.take(k).filter(keep));
                    assert(self@ =~= pre.remove(i as int));
                    assert(orig.skip(k).drop_first() =~= orig.skip(k + 1));
                    assert(pre.remove(i as int) =~= orig.take(k).filter(keep) + orig.skip(k + 1));
                    assert(self@ =~= orig.take(k + 1).filter(keep) + orig.skip(k + 1));
                    k = k + 1;
                }
            } else {
                i += 1;
                proof {
                    reveal_with_fuel(Seq::<_>::filter, 2);
                    assert(orig.take(k + 1).drop_last() =~= orig.take(k));
                    assert(orig.take(k + 1).last() == orig[k]);
                    assert(orig.take(k + 1).filter(keep) == orig.take(k).filter(keep).push(
                        orig[k],
                    ));
                    assert(orig.skip(k).drop_first() =~= orig.skip(k + 1));
                    assert(pre =~= orig.take(k).filter(keep).push(orig[k]) + orig.skip(k + 1));
                    assert(self@ =~= orig.take(k + 1).filter(keep) + orig.skip(k + 1));
                    k = k + 1;
                }
            }
        }
        proof {
            assert(orig.take(orig.len() as int) =~= orig);
            assert(orig.skip(orig.len() as int) =~= Seq::<SessionModel>::empty());
            assert(self@ =~= orig.filter(keep));
            lemma_inv_filter(orig, keep);
            orig.lemma_filter_len(keep);
        }
        let after = self.sessions.len();
        before - after
    }
}

proof fn lemma_filter_membership(s: Seq<SessionModel>, pred: spec_fn(SessionModel) -> bool)
    ensures
        forall|x: SessionModel| #[trigger] s.filter(pred).contains(x) ==> s.contains(x),
    decreases s.len(),
{
    reveal_with_fuel(Seq::<_>::filter, 2);
    if s.len() > 0 {
        let rest = s.drop_last();
        lemma_filter_membership(rest, pred);
        assert forall|x: SessionModel| #[trigger] s.filter(pred).contains(x) implies s.contains(
            x,
        ) by {
            if rest.filter(pred).contains(x) {
                let j = choose|j: int| 0 <= j < rest.len() && rest[j] == x;
                assert(s[j] == x);
            } else {
                assert(x == s.last());
                assert(s[s.len() - 1] == x);
            }
        }
    }
}

proof fn lemma_inv_filter(s: Seq<SessionModel>, pred: spec_fn(SessionModel) -> bool)
    requires
        inv(s),
    ensures
        inv(s.filter(pred)),
    decreases s.len(),
{
    reveal_with_fuel(Seq::<_>::filter, 2);
    if s.len() == 0 {
        assert(s.filter(pred) =~= Seq::<SessionModel>::empty());
    } else {
        let rest = s.drop_last();
        assert forall|a: int, b: int| 0 <= a < b < rest.len() implies (#[trigger] rest[a].id)
            != (#[trigger] rest[b].id) by {
            assert(s[a].id != s[b].id);
        }
        assert forall|a: int| 0 <= a < rest.len() implies session_wf(#[trigger] rest[a]) by {
            assert(session_wf(s[a]));
        }
        lemma_inv_filter(rest, pred);
        lemma_filter_membership(rest, pred);
        let f = s.filter(pred);
        let fr = rest.filter(pred);
        if pred(s.last()) {
            assert(f == fr.push(s.last()));
            assert forall|a: int, b: int| 0 <= a < b < f.len() implies (#[trigger] f[a].id)
                != (#[trigger] f[b].id) by {
                if b == f.len() - 1 {
                    assert(fr.contains(fr[a]));
                    assert(rest.contains(fr[a]));
                    let j = choose|j: int| 0 <= j < rest.len() && rest[j] == fr[a];
                    assert(s[j].id != s[s.len() - 1].id);
                } else {
                    assert(fr[a].id != fr[b].id);
                }
            }
            assert forall|a: int| 0 <= a < f.len() implies session_wf(#[trigger] f[a]) by {
                if a < f.len() - 1 {
                    assert(session_wf(fr[a]));
                } else {
                    assert(session_wf(s[s.len() - 1]));
                }
            }
        } else {
            assert(f == fr);
        }
    }
}

} // verus!
