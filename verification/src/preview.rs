use vstd::prelude::*;
use vstd::string::*;

use crate::upload::bytes_eq;

verus! {

// ---------------------------------------------------------------------------
// Deciding how a file may be opened in the browser: recognising the
// drawing formats by file extension, and the closed table from extension
// to previewable media type. All contracts are stated over the byte view
// of the inputs; the extension letters are ASCII, so byte comparison and
// character comparison agree.
// ---------------------------------------------------------------------------

/// ASCII lower-casing of one byte.
pub open spec fn lower_byte(b: u8) -> u8 {
    if 65 <= b <= 90 {
        (b + 32) as u8
    } else {
        b
    }
}

/// The path ends in `.` followed by `ext`, compared ASCII
/// case-insensitively, with the dot neither leading the path nor a file
/// name of its own: the way a path's extension is read.
pub open spec fn ext_matches_ci(p: Seq<u8>, ext: Seq<u8>) -> bool {
    let n = p.len();
    let e = ext.len();
    &&& n >= e + 2
    &&& p[n - e - 1] == 46
    &&& p[n - e - 2] != 47
    &&& p[n - e - 2] != 92
    &&& forall|i: int| 0 <= i < e ==> lower_byte(#[trigger] p[n - e + i]) == ext[i]
}

fn has_ext_ci(path: &str, ext: &str) -> (r: bool)
    ensures
        r == ext_matches_ci(path.spec_bytes(), ext.spec_bytes()),
{
    let p = path.as_bytes();
    let x = ext.as_bytes();
    let n = p.len();
    let e = x.len();
    if n < 2 || n - 2 < e {
        return false;
    }
    if p[n - e - 1] != 46 || p[n - e - 2] == 47 || p[n - e - 2] == 92 {
        return false;
    }
    let mut i: usize = 0;
    while i < e
        invariant
            i <= e,
            e == x@.len(),
            n == p@.len(),
            n >= e + 2,
            p@ == path.spec_bytes(),
            x@ == ext.spec_bytes(),
            forall|j: int| 0 <= j < i ==> lower_byte(#[trigger] p@[n - e + j]) == x@[j],
        decreases e - i,
    {
        let b = p[n - e + i];
        let lb = if 65 <= b && b <= 90 {
            b + 32
        } else {
            b
        };
        if lb != x[i] {
            proof {
                let pp = path.spec_bytes();
                let xx = ext.spec_bytes();
                assert(lower_byte(pp[pp.len() - xx.len() + i as int]) != xx[i as int]);
            }
            return false;
        }
        i += 1;
    }
    true
}

/// Does the path name an Excalidraw drawing? True exactly when its
/// extension is `excalidraw`, in any letter case.
pub fn is_excalidraw_file(path: &str) -> (r: bool)
    ensures
        r == ext_matches_ci(path.spec_bytes(), "excalidraw".spec_bytes()),
{
    has_ext_ci(path, "excalidraw")
}

/// Does the path name a Mermaid diagram? True exactly when its extension
/// is `mermaid`, in any letter case.
pub fn is_mermaid_file(path: &str) -> (r: bool)
    ensures
        r == ext_matches_ci(path.spec_bytes(), "mermaid".spec_bytes()),
{
    has_ext_ci(path, "mermaid")
}

/// The closed table from file extension to the media type under which the
/// file may be shown inline in a browser; `None` for anything not in the
/// table.
pub open spec fn preview_mime(e: Seq<u8>) -> Option<Seq<char>> {
    if e == "jpg".spec_bytes() || e == "jpeg".spec_bytes() {
        Some("image/jpeg"@)
    } else if e == "png".spec_bytes() {
        Some("image/png"@)
    } else if e == "gif".spec_bytes() {
        Some("image/gif"@)
    } else if e == "webp".spec_bytes() {
        Some("image/webp"@)
    } else if e == "svg".spec_bytes() {
        Some("image/svg+xml"@)
    } else if e == "bmp".spec_bytes() {
        Some("image/bmp"@)
    } else if e == "ico".spec_bytes() {
        Some("image/x-icon"@)
    } else if e == "avif".spec_bytes() {
        Some("image/avif"@)
    } else if e == "pdf".spec_bytes() {
        Some("application/pdf"@)
    } else if e == "mp4".spec_bytes() {
        Some("video/mp4"@)
    } else if e == "webm".spec_bytes() {
        Some("video/webm"@)
    } else if e == "ogg".spec_bytes() || e == "ogv".spec_bytes() {
        Some("video/ogg"@)
    } else if e == "mov".spec_bytes() {
        Some("video/quicktime"@)
    } else if e == "mp3".spec_bytes() {
        Some("audio/mpeg"@)
    } else if e == "wav".spec_bytes() {
        Some("audio/wav"@)
    } else if e == "oga".spec_bytes() {
        Some("audio/ogg"@)
    } else if e == "m4a".spec_bytes() {
        Some("audio/mp4"@)
    } else if e == "aac".spec_bytes() {
        Some("audio/aac"@)
    } else if e == "flac".spec_bytes() {
        Some("audio/flac"@)
    } else if e == "opus".spec_bytes() {
        Some("audio/opus"@)
    } else if e == "txt".spec_bytes() || e == "log".spec_bytes() || e == "ini".spec_bytes() || e
        == "conf".spec_bytes() {
        Some("text/plain; charset=utf-8"@)
    } else if e == "md".spec_bytes() {
        Some("text/markdown; charset=utf-8"@)
    } else if e == "csv".spec_bytes() {
        Some("text/csv; charset=utf-8"@)
    } else if e == "json".spec_bytes() {
        Some("application/json; charset=utf-8"@)
    } else if e == "xml".spec_bytes() {
        Some("application/xml; charset=utf-8"@)
    } else if e == "html".spec_bytes() || e == "htm".spec_bytes() {
        Some("text/html; charset=utf-8"@)
    } else if e == "css".spec_bytes() {
        Some("text/css; charset=utf-8"@)
    } else if e == "js".spec_bytes() || e == "mjs".spec_bytes() {
        Some("text/javascript; charset=utf-8"@)
    } else if e == "ts".spec_bytes() {
        Some("text/typescript; charset=utf-8"@)
    } else if e == "jsx".spec_bytes() {
        Some("text/jsx; charset=utf-8"@)
    } else if e == "tsx".spec_bytes() {
        Some("text/tsx; charset=utf-8"@)
    } else if e == "yaml".spec_bytes() || e == "yml".spec_bytes() {
        Some("text/yaml; charset=utf-8"@)
    } else if e == "toml".spec_bytes() {
        Some("text/toml; charset=utf-8"@)
    } else if e == "py".spec_bytes() {
        Some("text/x-python; charset=utf-8"@)
    } else if e == "rs".spec_bytes() {
        Some("text/x-rust; charset=utf-8"@)
    } else if e == "go".spec_bytes() {
        Some("text/x-go; charset=utf-8"@)
    } else if e == "java".spec_bytes() {
        Some("text/x-java; charset=utf-8"@)
    } else if e == "c".spec_bytes() {
        Some("text/x-c; charset=utf-8"@)
    } else if e == "cpp".spec_bytes() || e == "cc".spec_bytes() || e == "cxx".spec_bytes() || e
        == "h".spec_bytes() || e == "hpp".spec_bytes() {
        Some("text/x-c++; charset=utf-8"@)
    } else if e == "sh".spec_bytes() || e == "bash".spec_bytes() {
        Some("text/x-shellscript; charset=utf-8"@)
    } else if e == "php".spec_bytes() {
        Some("text/x-php; charset=utf-8"@)
    } else if e == "rb".spec_bytes() {
        Some("text/x-ruby; charset=utf-8"@)
    } else if e == "swift".spec_bytes() {
        Some("text/x-swift; charset=utf-8"@)
    } else if e == "kt".spec_bytes() || e == "kts".spec_bytes() {
        Some("text/x-kotlin; charset=utf-8"@)
    } else if e == "lua".spec_bytes() {
        Some("text/x-lua; charset=utf-8"@)
    } else if e == "r".spec_bytes() {
        Some("text/x-r; charset=utf-8"@)
    } else if e == "sql".spec_bytes() {
        Some("text/x-sql; charset=utf-8"@)
    } else {
        None
    }
}

/// The media type under which a file with this extension may be previewed
/// inline, or `None` when the browser should download it instead.
pub fn get_previewable_mime_type(extension: &str) -> (r: Option<&str>)
    ensures
        match r {
            Some(m) => preview_mime(extension.spec_bytes()) == Some(m@),
            None => preview_mime(extension.spec_bytes()) is None,
        },
{
    let e = extension.as_bytes();
    if bytes_eq(e, "jpg".as_bytes()) || bytes_eq(e, "jpeg".as_bytes()) {
        Some("image/jpeg")
    } else if bytes_eq(e, "png".as_bytes()) {
        Some("image/png")
    } else if bytes_eq(e, "gif".as_bytes()) {
        Some("image/gif")
    } else if bytes_eq(e, "webp".as_bytes()) {
        Some("image/webp")
    } else if bytes_eq(e, "svg".as_bytes()) {
        Some("image/svg+xml")
    } else if bytes_eq(e, "bmp".as_bytes()) {
        Some("image/bmp")
    } else if bytes_eq(e, "ico".as_bytes()) {
        Some("image/x-icon")
    } else if bytes_eq(e, "avif".as_bytes()) {
        Some("image/avif")
    } else if bytes_eq(e, "pdf".as_bytes()) {
        Some("application/pdf")
    } else if bytes_eq(e, "mp4".as_bytes()) {
        Some("video/mp4")
    } else if bytes_eq(e, "webm".as_bytes()) {
        Some("video/webm")
    } else if bytes_eq(e, "ogg".as_bytes()) || bytes_eq(e, "ogv".as_bytes()) {
        Some("video/ogg")
    } else if bytes_eq(e, "mov".as_bytes()) {
        Some("video/quicktime")
    } else if bytes_eq(e, "mp3".as_bytes()) {
        Some("audio/mpeg")
    } else if bytes_eq(e, "wav".as_bytes()) {
        Some("audio/wav")
    } else if bytes_eq(e, "oga".as_bytes()) {
        Some("audio/ogg")
    } else if bytes_eq(e, "m4a".as_bytes()) {
        Some("audio/mp4")
    } else if bytes_eq(e, "aac".as_bytes()) {
        Some("audio/aac")
    } else if bytes_eq(e, "flac".as_bytes()) {
        Some("audio/flac")
    } else if bytes_eq(e, "opus".as_bytes()) {
        Some("audio/opus")
    } else if bytes_eq(e, "txt".as_bytes()) || bytes_eq(e, "log".as_bytes()) || bytes_eq(
        e,
        "ini".as_bytes(),
    ) || bytes_eq(e, "conf".as_bytes()) {
        Some("text/plain; charset=utf-8")
    } else if bytes_eq(e, "md".as_bytes()) {
        Some("text/markdown; charset=utf-8")
    } else if bytes_eq(e, "csv".as_bytes()) {
        Some("text/csv; charset=utf-8")
    } else if bytes_eq(e, "json".as_bytes()) {
        Some("application/json; charset=utf-8")
    } else if bytes_eq(e, "xml".as_bytes()) {
        Some("application/xml; charset=utf-8")
    } else if bytes_eq(e, "html".as_bytes()) || bytes_eq(e, "htm".as_bytes()) {
        Some("text/html; charset=utf-8")
    } else if bytes_eq(e, "css".as_bytes()) {
        Some("text/css; charset=utf-8")
    } else if bytes_eq(e, "js".as_bytes()) || bytes_eq(e, "mjs".as_bytes()) {
        Some("text/javascript; charset=utf-8")
    } else if bytes_eq(e, "ts".as_bytes()) {
        Some("text/typescript; charset=utf-8")
    } else if bytes_eq(e, "jsx".as_bytes()) {
        Some("text/jsx; charset=utf-8")
    } else if bytes_eq(e, "tsx".as_bytes()) {
        Some("text/tsx; charset=utf-8")
    } else if bytes_eq(e, "yaml".as_bytes()) || bytes_eq(e, "yml".as_bytes()) {
        Some("text/yaml; charset=utf-8")
    } else if bytes_eq(e, "toml".as_bytes()) {
        Some("text/toml; charset=utf-8")
    } else if bytes_eq(e, "py".as_bytes()) {
        Some("text/x-python; charset=utf-8")
    } else if bytes_eq(e, "rs".as_bytes()) {
        Some("text/x-rust; charset=utf-8")
    } else if bytes_eq(e, "go".as_bytes()) {
        Some("text/x-go; charset=utf-8")
    } else if bytes_eq(e, "java".as_bytes()) {
        Some("text/x-java; charset=utf-8")
    } else if bytes_eq(e, "c".as_bytes()) {
        Some("text/x-c; charset=utf-8")
    } else if bytes_eq(e, "cpp".as_bytes()) || bytes_eq(e, "cc".as_bytes()) || bytes_eq(
        e,
        "cxx".as_bytes(),
    ) || bytes_eq(e, "h".as_bytes()) || bytes_eq(e, "hpp".as_bytes()) {
        Some("text/x-c++; charset=utf-8")
    } else if bytes_eq(e, "sh".as_bytes()) || bytes_eq(e, "bash".as_bytes()) {
        Some("text/x-shellscript; charset=utf-8")
    } else if bytes_eq(e, "php".as_bytes()) {
        Some("text/x-php; charset=utf-8")
    } else if bytes_eq(e, "rb".as_bytes()) {
        Some("text/x-ruby; charset=utf-8")
    } else if bytes_eq(e, "swift".as_bytes()) {
        Some("text/x-swift; charset=utf-8")
    } else if bytes_eq(e, "kt".as_bytes()) || bytes_eq(e, "kts".as_bytes()) {
        Some("text/x-kotlin; charset=utf-8")
    } else if bytes_eq(e, "lua".as_bytes()) {
        Some("text/x-lua; charset=utf-8")
    } else if bytes_eq(e, "r".as_bytes()) {
        Some("text/x-r; charset=utf-8")
    } else if bytes_eq(e, "sql".as_bytes()) {
        Some("text/x-sql; charset=utf-8")
    } else {
        None
    }
}

} // verus!
