//! Media types of response bodies.
use std::path::Path;
use vstd::prelude::*;
use vstd::string::*;

use crate::text::str_equal;

verus! {

/// The media type of a response body.
#[derive(Clone, Copy, Debug, PartialEq, Eq, Structural)]
pub enum ContentType {
    HTML,
    CSS,
    JAVASCRIPT,
    JPEG,
    PNG,
    XML,
    JSON,
    TEXT,
    GIF,
    SVG,
    PDF,
    MP3,
    MP4,
    WEBM,
    WOFF2,
    TTF,
    EOT,
    SSE,
    UNKNOWN,
}

/// The MIME type text of a content type.
pub open spec fn content_type_text(c: ContentType) -> Seq<char> {
    match c {
        ContentType::HTML => "text/html"@,
        ContentType::CSS => "text/css"@,
        ContentType::JAVASCRIPT => "text/javascript"@,
        ContentType::JPEG => "image/jpeg"@,
        ContentType::PNG => "image/png"@,
        ContentType::XML => "application/xml"@,
        ContentType::JSON => "application/json"@,
        ContentType::TEXT => "text/plain"@,
        ContentType::GIF => "image/gif"@,
        ContentType::SVG => "image/svg+xml"@,
        ContentType::PDF => "application/pdf"@,
        ContentType::MP3 => "audio/mpeg"@,
        ContentType::MP4 => "video/mp4"@,
        ContentType::WEBM => "video/webm"@,
        ContentType::WOFF2 => "font/woff2"@,
        ContentType::TTF => "font/ttf"@,
        ContentType::EOT => "application/vnd.ms-fontobject"@,
        ContentType::SSE => "text/event-stream"@,
        ContentType::UNKNOWN => "application/octet-stream"@,
    }
}

/// The content type a file extension maps to; anything else is `UNKNOWN`.
pub open spec fn content_type_for_ext(ext: Option<Seq<u8>>) -> ContentType {
    match ext {
        Some(e) => if e == "html".spec_bytes() {
            ContentType::HTML
        } else if e == "css".spec_bytes() {
            ContentType::CSS
        } else if e == "js".spec_bytes() {
            ContentType::JAVASCRIPT
        } else if e == "jpg".spec_bytes() {
            ContentType::JPEG
        } else if e == "jpeg".spec_bytes() {
            ContentType::JPEG
        } else if e == "png".spec_bytes() {
            ContentType::PNG
        } else if e == "xml".spec_bytes() {
            ContentType::XML
        } else if e == "json".spec_bytes() {
            ContentType::JSON
        } else if e == "txt".spec_bytes() {
            ContentType::TEXT
        } else if e == "gif".spec_bytes() {
            ContentType::GIF
        } else if e == "svg".spec_bytes() {
            ContentType::SVG
        } else if e == "pdf".spec_bytes() {
            ContentType::PDF
        } else if e == "mp3".spec_bytes() {
            ContentType::MP3
        } else if e == "mp4".spec_bytes() {
            ContentType::MP4
        } else if e == "webm".spec_bytes() {
            ContentType::WEBM
        } else if e == "woff2".spec_bytes() {
            ContentType::WOFF2
        } else if e == "ttf".spec_bytes() {
            ContentType::TTF
        } else {
            ContentType::UNKNOWN
        },
        None => ContentType::UNKNOWN,
    }
}

#[verifier::external_type_specification]
#[verifier::external_body]
pub struct ExPath(std::path::Path);

/// What `Path::extension` followed by `OsStr::to_str` gives for a path, as
/// bytes: the text after the last `.` of the file name, when there is one
/// and it is valid Unicode. It depends on the path alone.
pub uninterp spec fn path_extension_of(path: &Path) -> Option<Seq<u8>>;

/// `Path::extension` followed by `OsStr::to_str` (the two calls stand
/// together because `OsStr` lives in `std::ffi`, which the library does not
/// name). The result is the path's extension, as `path_extension_of` names
/// it; what that is for a given path is not stated here.
#[verifier::external_body]
fn path_extension(path: &Path) -> (r: Option<&str>)
    ensures
        match r {
            Some(s) => path_extension_of(path) == Some(s.spec_bytes()),
            None => path_extension_of(path) is None,
        },
{
    path.extension().and_then(|s| s.to_str())
}

impl ContentType {
    /// Returns the standard MIME type string for the content type.
    pub fn as_str(&self) -> (r: &'static str)
        ensures
            r@ == content_type_text(*self),
    {
        match self {
            ContentType::HTML => "text/html",
            ContentType::CSS => "text/css",
            ContentType::JAVASCRIPT => "text/javascript",
            ContentType::JPEG => "image/jpeg",
            ContentType::PNG => "image/png",
            ContentType::XML => "application/xml",
            ContentType::JSON => "application/json",
            ContentType::TEXT => "text/plain",
            ContentType::GIF => "image/gif",
            ContentType::SVG => "image/svg+xml",
            ContentType::PDF => "application/pdf",
            ContentType::MP3 => "audio/mpeg",
            ContentType::MP4 => "video/mp4",
            ContentType::WEBM => "video/webm",
            ContentType::WOFF2 => "font/woff2",
            ContentType::TTF => "font/ttf",
            ContentType::EOT => "application/vnd.ms-fontobject",
            ContentType::SSE => "text/event-stream",
            ContentType::UNKNOWN => "application/octet-stream",
        }
    }

    /// The content type for a file extension.
    pub fn for_extension(ext: Option<&str>) -> (r: ContentType)
        ensures
            r == content_type_for_ext(
                match ext {
                    Some(e) => Some(e.spec_bytes()),
                    None => None,
                },
            ),
    {
        match ext {
            None => ContentType::UNKNOWN,
            Some(e) => {
                if str_equal(e, "html") {
                    ContentType::HTML
                } else if str_equal(e, "css") {
                    ContentType::CSS
                } else if str_equal(e, "js") {
                    ContentType::JAVASCRIPT
                } else if str_equal(e, "jpg") {
                    ContentType::JPEG
                } else if str_equal(e, "jpeg") {
                    ContentType::JPEG
                } else if str_equal(e, "png") {
                    ContentType::PNG
                } else if str_equal(e, "xml") {
                    ContentType::XML
                } else if str_equal(e, "json") {
                    ContentType::JSON
                } else if str_equal(e, "txt") {
                    ContentType::TEXT
                } else if str_equal(e, "gif") {
                    ContentType::GIF
                } else if str_equal(e, "svg") {
                    ContentType::SVG
                } else if str_equal(e, "pdf") {
                    ContentType::PDF
                } else if str_equal(e, "mp3") {
                    ContentType::MP3
                } else if str_equal(e, "mp4") {
                    ContentType::MP4
                } else if str_equal(e, "webm") {
                    ContentType::WEBM
                } else if str_equal(e, "woff2") {
                    ContentType::WOFF2
                } else if str_equal(e, "ttf") {
                    ContentType::TTF
                } else {
                    ContentType::UNKNOWN
                }
            },
        }
    }

    /// The content type for a file path, chosen by its extension.
    pub fn get_content_type(path: &Path) -> (r: ContentType)
        ensures
            r == content_type_for_ext(path_extension_of(path)),
    {
        let ext = path_extension(path);
        let r = Self::for_extension(ext);
        let ghost e = match ext {
            Some(x) => Some(x.spec_bytes()),
            None => None,
        };
        assert(r == content_type_for_ext(e));
        r
    }
}


/// The file extensions served with a known media type, each with the media
/// type registered for it (IANA media types, as `mime.types` lists them).
pub open spec fn extension_media_types() -> Seq<(Seq<u8>, Seq<char>)> {
    seq![
        ("html".spec_bytes(), "text/html"@),
        ("css".spec_bytes(), "text/css"@),
        ("js".spec_bytes(), "text/javascript"@),
        ("jpg".spec_bytes(), "image/jpeg"@),
        ("jpeg".spec_bytes(), "image/jpeg"@),
        ("png".spec_bytes(), "image/png"@),
        ("xml".spec_bytes(), "application/xml"@),
        ("json".spec_bytes(), "application/json"@),
        ("txt".spec_bytes(), "text/plain"@),
        ("gif".spec_bytes(), "image/gif"@),
        ("svg".spec_bytes(), "image/svg+xml"@),
        ("pdf".spec_bytes(), "application/pdf"@),
        ("mp3".spec_bytes(), "audio/mpeg"@),
        ("mp4".spec_bytes(), "video/mp4"@),
        ("webm".spec_bytes(), "video/webm"@),
        ("woff2".spec_bytes(), "font/woff2"@),
        ("ttf".spec_bytes(), "font/ttf"@),
    ]
}

/// A file with one of the known extensions is served with the media type
/// registered for that extension, and a file with any other extension, or
/// none, as `application/octet-stream`.
pub proof fn law_extension_media_types(ext: Seq<u8>, i: int)
    ensures
        0 <= i < extension_media_types().len() ==> content_type_text(
            content_type_for_ext(Some(extension_media_types()[i].0)),
        ) == extension_media_types()[i].1,
        (forall|j: int| 0 <= j < extension_media_types().len() ==> extension_media_types()[j].0 != ext)
            ==> content_type_for_ext(Some(ext)) == ContentType::UNKNOWN,
        content_type_for_ext(None) == ContentType::UNKNOWN,
{
    reveal_strlit("html");
    assert(is_ascii("html"));
    is_ascii_spec_bytes("html");
    reveal_strlit("css");
    assert(is_ascii("css"));
    is_ascii_spec_bytes("css");
    reveal_strlit("js");
    assert(is_ascii("js"));
    is_ascii_spec_bytes("js");
    reveal_strlit("jpg");
    assert(is_ascii("jpg"));
    is_ascii_spec_bytes("jpg");
    reveal_strlit("jpeg");
    assert(is_ascii("jpeg"));
    is_ascii_spec_bytes("jpeg");
    reveal_strlit("png");
    assert(is_ascii("png"));
    is_ascii_spec_bytes("png");
    reveal_strlit("xml");
    assert(is_ascii("xml"));
    is_ascii_spec_bytes("xml");
    reveal_strlit("json");
    assert(is_ascii("json"));
    is_ascii_spec_bytes("json");
    reveal_strlit("txt");
    assert(is_ascii("txt"));
    is_ascii_spec_bytes("txt");
    reveal_strlit("gif");
    assert(is_ascii("gif"));
    is_ascii_spec_bytes("gif");
    reveal_strlit("svg");
    assert(is_ascii("svg"));
    is_ascii_spec_bytes("svg");
    reveal_strlit("pdf");
    assert(is_ascii("pdf"));
    is_ascii_spec_bytes("pdf");
    reveal_strlit("mp3");
    assert(is_ascii("mp3"));
    is_ascii_spec_bytes("mp3");
    reveal_strlit("mp4");
    assert(is_ascii("mp4"));
    is_ascii_spec_bytes("mp4");
    reveal_strlit("webm");
    assert(is_ascii("webm"));
    is_ascii_spec_bytes("webm");
    reveal_strlit("woff2");
    assert(is_ascii("woff2"));
    is_ascii_spec_bytes("woff2");
    reveal_strlit("ttf");
    assert(is_ascii("ttf"));
    is_ascii_spec_bytes("ttf");
    let t = extension_media_types();
    assert(t.len() == 17);
    assert(t[0].0 == "html".spec_bytes());
    assert(t[1].0 == "css".spec_bytes());
    assert(t[2].0 == "js".spec_bytes());
    assert(t[3].0 == "jpg".spec_bytes());
    assert(t[4].0 == "jpeg".spec_bytes());
    assert(t[5].0 == "png".spec_bytes());
    assert(t[6].0 == "xml".spec_bytes());
    assert(t[7].0 == "json".spec_bytes());
    assert(t[8].0 == "txt".spec_bytes());
    assert(t[9].0 == "gif".spec_bytes());
    assert(t[10].0 == "svg".spec_bytes());
    assert(t[11].0 == "pdf".spec_bytes());
    assert(t[12].0 == "mp3".spec_bytes());
    assert(t[13].0 == "mp4".spec_bytes());
    assert(t[14].0 == "webm".spec_bytes());
    assert(t[15].0 == "woff2".spec_bytes());
    assert(t[16].0 == "ttf".spec_bytes());
    assert(t[1].0.len() != t[0].0.len());
    assert(t[2].0.len() != t[0].0.len());
    assert(t[2].0.len() != t[1].0.len());
    assert(t[3].0.len() != t[0].0.len());
    assert(t[3].0[0] != t[1].0[0]);
    assert(t[3].0.len() != t[2].0.len());
    assert(t[4].0[0] != t[0].0[0]);
    assert(t[4].0.len() != t[1].0.len());
    assert(t[4].0.len() != t[2].0.len());
    assert(t[4].0.len() != t[3].0.len());
    assert(t[5].0.len() != t[0].0.len());
    assert(t[5].0[0] != t[1].0[0]);
    assert(t[5].0.len() != t[2].0.len());
    assert(t[5].0[0] != t[3].0[0]);
    assert(t[5].0.len() != t[4].0.len());
    assert(t[6].0.len() != t[0].0.len());
    assert(t[6].0[0] != t[1].0[0]);
    assert(t[6].0.len() != t[2].0.len());
    assert(t[6].0[0] != t[3].0[0]);
    assert(t[6].0.len() != t[4].0.len());
    assert(t[6].0[0] != t[5].0[0]);
    assert(t[7].0[0] != t[0].0[0]);
    assert(t[7].0.len() != t[1].0.len());
    assert(t[7].0.len() != t[2].0.len());
    assert(t[7].0.len() != t[3].0.len());
    assert(t[7].0[1] != t[4].0[1]);
    assert(t[7].0.len() != t[5].0.len());
    assert(t[7].0.len() != t[6].0.len());
    assert(t[8].0.len() != t[0].0.len());
    assert(t[8].0[0] != t[1].0[0]);
    assert(t[8].0.len() != t[2].0.len());
    assert(t[8].0[0] != t[3].0[0]);
    assert(t[8].0.len() != t[4].0.len());
    assert(t[8].0[0] != t[5].0[0]);
    assert(t[8].0[0] != t[6].0[0]);
    assert(t[8].0.len() != t[7].0.len());
    assert(t[9].0.len() != t[0].0.len());
    assert(t[9].0[0] != t[1].0[0]);
    assert(t[9].0.len() != t[2].0.len());
    assert(t[9].0[0] != t[3].0[0]);
    assert(t[9].0.len() != t[4].0.len());
    assert(t[9].0[0] != t[5].0[0]);
    assert(t[9].0[0] != t[6].0[0]);
    assert(t[9].0.len() != t[7].0.len());
    assert(t[9].0[0] != t[8].0[0]);
    assert(t[10].0.len() != t[0].0.len());
    assert(t[10].0[0] != t[1].0[0]);
    assert(t[10].0.len() != t[2].0.len());
    assert(t[10].0[0] != t[3].0[0]);
    assert(t[10].0.len() != t[4].0.len());
    assert(t[10].0[0] != t[5].0[0]);
    assert(t[10].0[0] != t[6].0[0]);
    assert(t[10].0.len() != t[7].0.len());
    assert(t[10].0[0] != t[8].0[0]);
    assert(t[10].0[0] != t[9].0[0]);
    assert(t[11].0.len() != t[0].0.len());
    assert(t[11].0[0] != t[1].0[0]);
    assert(t[11].0.len() != t[2].0.len());
    assert(t[11].0[0] != t[3].0[0]);
    assert(t[11].0.len() != t[4].0.len());
    assert(t[11].0[1] != t[5].0[1]);
    assert(t[11].0[0] != t[6].0[0]);
    assert(t[11].0.len() != t[7].0.len());
    assert(t[11].0[0] != t[8].0[0]);
    assert(t[11].0[0] != t[9].0[0]);
    assert(t[11].0[0] != t[10].0[0]);
    assert(t[12].0.len() != t[0].0.len());
    assert(t[12].0[0] != t[1].0[0]);
    assert(t[12].0.len() != t[2].0.len());
    assert(t[12].0[0] != t[3].0[0]);
    assert(t[12].0.len() != t[4].0.len());
    assert(t[12].0[0] != t[5].0[0]);
    assert(t[12].0[0] != t[6].0[0]);
    assert(t[12].0.len() != t[7].0.len());
    assert(t[12].0[0] != t[8].0[0]);
    assert(t[12].0[0] != t[9].0[0]);
    assert(t[12].0[0] != t[10].0[0]);
    assert(t[12].0[0] != t[11].0[0]);
    assert(t[13].0.len() != t[0].0.len());
    assert(t[13].0[0] != t[1].0[0]);
    assert(t[13].0.len() != t[2].0.len());
    assert(t[13].0[0] != t[3].0[0]);
    assert(t[13].0.len() != t[4].0.len());
    assert(t[13].0[0] != t[5].0[0]);
    assert(t[13].0[0] != t[6].0[0]);
    assert(t[13].0.len() != t[7].0.len());
    assert(t[13].0[0] != t[8].0[0]);
    assert(t[13].0[0] != t[9].0[0]);
    assert(t[13].0[0] != t[10].0[0]);
    assert(t[13].0[0] != t[11].0[0]);
    assert(t[13].0[2] != t[12].0[2]);
    assert(t[14].0[0] != t[0].0[0]);
    assert(t[14].0.len() != t[1].0.len());
    assert(t[14].0.len() != t[2].0.len());
    assert(t[14].0.len() != t[3].0.len());
    assert(t[14].0[0] != t[4].0[0]);
    assert(t[14].0.len() != t[5].0.len());
    assert(t[14].0.len() != t[6].0.len());
    assert(t[14].0[0] != t[7].0[0]);
    assert(t[14].0.len() != t[8].0.len());
    assert(t[14].0.len() != t[9].0.len());
    assert(t[14].0.len() != t[10].0.len());
    assert(t[14].0.len() != t[11].0.len());
    assert(t[14].0.len() != t[12].0.len());
    assert(t[14].0.len() != t[13].0.len());
    assert(t[15].0.len() != t[0].0.len());
    assert(t[15].0.len() != t[1].0.len());
    assert(t[15].0.len() != t[2].0.len());
    assert(t[15].0.len() != t[3].0.len());
    assert(t[15].0.len() != t[4].0.len());
    assert(t[15].0.len() != t[5].0.len());
    assert(t[15].0.len() != t[6].0.len());
    assert(t[15].0.len() != t[7].0.len());
    assert(t[15].0.len() != t[8].0.len());
    assert(t[15].0.len() != t[9].0.len());
    assert(t[15].0.len() != t[10].0.len());
    assert(t[15].0.len() != t[11].0.len());
    assert(t[15].0.len() != t[12].0.len());
    assert(t[15].0.len() != t[13].0.len());
    assert(t[15].0.len() != t[14].0.len());
    assert(t[16].0.len() != t[0].0.len());
    assert(t[16].0[0] != t[1].0[0]);
    assert(t[16].0.len() != t[2].0.len());
    assert(t[16].0[0] != t[3].0[0]);
    assert(t[16].0.len() != t[4].0.len());
    assert(t[16].0[0] != t[5].0[0]);
    assert(t[16].0[0] != t[6].0[0]);
    assert(t[16].0.len() != t[7].0.len());
    assert(t[16].0[1] != t[8].0[1]);
    assert(t[16].0[0] != t[9].0[0]);
    assert(t[16].0[0] != t[10].0[0]);
    assert(t[16].0[0] != t[11].0[0]);
    assert(t[16].0[0] != t[12].0[0]);
    assert(t[16].0[0] != t[13].0[0]);
    assert(t[16].0.len() != t[14].0.len());
    assert(t[16].0.len() != t[15].0.len());
    assert(content_type_text(content_type_for_ext(Some(t[0].0))) == t[0].1);
    assert(content_type_text(content_type_for_ext(Some(t[1].0))) == t[1].1);
    assert(content_type_text(content_type_for_ext(Some(t[2].0))) == t[2].1);
    assert(content_type_text(content_type_for_ext(Some(t[3].0))) == t[3].1);
    assert(content_type_text(content_type_for_ext(Some(t[4].0))) == t[4].1);
    assert(content_type_text(content_type_for_ext(Some(t[5].0))) == t[5].1);
    assert(content_type_text(content_type_for_ext(Some(t[6].0))) == t[6].1);
    assert(content_type_text(content_type_for_ext(Some(t[7].0))) == t[7].1);
    assert(content_type_text(content_type_for_ext(Some(t[8].0))) == t[8].1);
    assert(content_type_text(content_type_for_ext(Some(t[9].0))) == t[9].1);
    assert(content_type_text(content_type_for_ext(Some(t[10].0))) == t[10].1);
    assert(content_type_text(content_type_for_ext(Some(t[11].0))) == t[11].1);
    assert(content_type_text(content_type_for_ext(Some(t[12].0))) == t[12].1);
    assert(content_type_text(content_type_for_ext(Some(t[13].0))) == t[13].1);
    assert(content_type_text(content_type_for_ext(Some(t[14].0))) == t[14].1);
    assert(content_type_text(content_type_for_ext(Some(t[15].0))) == t[15].1);
    assert(content_type_text(content_type_for_ext(Some(t[16].0))) == t[16].1);
    if forall|j: int| 0 <= j < t.len() ==> t[j].0 != ext {
        assert(t[0].0 != ext);
        assert(t[1].0 != ext);
        assert(t[2].0 != ext);
        assert(t[3].0 != ext);
        assert(t[4].0 != ext);
        assert(t[5].0 != ext);
        assert(t[6].0 != ext);
        assert(t[7].0 != ext);
        assert(t[8].0 != ext);
        assert(t[9].0 != ext);
        assert(t[10].0 != ext);
        assert(t[11].0 != ext);
        assert(t[12].0 != ext);
        assert(t[13].0 != ext);
        assert(t[14].0 != ext);
        assert(t[15].0 != ext);
        assert(t[16].0 != ext);
    }
}

} // verus!
