//! Text extraction: MIME detection (content sniff with extension
//! fallback), parser dispatch by MIME family, and boundary-aware chunking
//! of text bytes into content-addressed chunks.

use vstd::prelude::*;
use vstd::slice::slice_to_vec;
use crate::hashing::{chunk_hash, chunk_hash_spec};
use crate::strutil::{has_substring, is_prefix, lower_char, str_contains, str_eq,
    str_starts_with, to_lower};
use crate::config::ParserConfig;

verus! {

/// A bounded slice of a file's text: byte offsets, the bytes themselves,
/// and the digest tying content to position.
pub struct Chunk {
    pub start: usize,
    pub end: usize,
    pub text: Vec<u8>,
    pub hash: String,
}

/// Width, height and coarse format of an image file.
pub struct ImageMeta {
    pub width: u32,
    pub height: u32,
    pub format: Option<String>,
}

/// What extraction produced for one file.
pub struct ExtractedMetadata {
    pub path: String,
    pub mime: Option<String>,
    pub size: u64,
    pub chunks: Vec<Chunk>,
    pub exif: Vec<(String, String)>,
    pub image_meta: Option<ImageMeta>,
}

/// The MIME string sniffed from a file's leading bytes, if its format is
/// recognized.
pub uninterp spec fn sniffed_mime(head: Seq<u8>) -> Option<Seq<char>>;

/// Relies on `infer::get` and `infer::Type::mime_type`: the recognized
/// type depends on the buffer bytes alone.
#[verifier::external_body]
fn sniff_mime(head: &[u8]) -> (r: Option<String>)
    ensures
        r is Some <==> sniffed_mime(head@) is Some,
        r matches Some(s) ==> sniffed_mime(head@) == Some(s@),
{
    infer::get(head).map(|k| k.mime_type().to_string())
}

/// The extension-based MIME fallback table, keyed by the lowercased
/// extension.
pub open spec fn ext_mime(ext: Seq<char>) -> Seq<char> {
    if ext == "txt"@ || ext == "md"@ || ext == "log"@ || ext == "rs"@ || ext == "py"@
        || ext == "js"@ || ext == "ts"@ || ext == "json"@ || ext == "toml"@
        || ext == "yaml"@ || ext == "yml"@ {
        "text/plain"@
    } else if ext == "pdf"@ {
        "application/pdf"@
    } else if ext == "doc"@ || ext == "docx"@ {
        "application/msword"@
    } else if ext == "ppt"@ || ext == "pptx"@ {
        "application/vnd.ms-powerpoint"@
    } else if ext == "xls"@ || ext == "xlsx"@ {
        "application/vnd.ms-excel"@
    } else if ext == "jpg"@ || ext == "jpeg"@ {
        "image/jpeg"@
    } else if ext == "png"@ {
        "image/png"@
    } else {
        "application/octet-stream"@
    }
}

/// What `guess_mime` returns: the sniffed type when the content is
/// recognized, else the extension table, else nothing.
pub open spec fn guessed_mime(head: Seq<u8>, ext: Option<Seq<char>>) -> Option<Seq<char>> {
    match sniffed_mime(head) {
        Some(m) => Some(m),
        None => match ext {
            Some(e) => Some(ext_mime(e.map(|i: int, c: char| lower_char(c)))),
            None => None,
        },
    }
}

fn ext_mime_of(ext: &str) -> (r: String)
    ensures
        r@ == ext_mime(ext@),
{
    if str_eq(ext, "txt") || str_eq(ext, "md") || str_eq(ext, "log") || str_eq(ext, "rs")
        || str_eq(ext, "py") || str_eq(ext, "js") || str_eq(ext, "ts") || str_eq(ext, "json")
        || str_eq(ext, "toml") || str_eq(ext, "yaml") || str_eq(ext, "yml") {
        String::from_str("text/plain")
    } else if str_eq(ext, "pdf") {
        String::from_str("application/pdf")
    } else if str_eq(ext, "doc") || str_eq(ext, "docx") {
        String::from_str("application/msword")
    } else if str_eq(ext, "ppt") || str_eq(ext, "pptx") {
        String::from_str("application/vnd.ms-powerpoint")
    } else if str_eq(ext, "xls") || str_eq(ext, "xlsx") {
        String::from_str("application/vnd.ms-excel")
    } else if str_eq(ext, "jpg") || str_eq(ext, "jpeg") {
        String::from_str("image/jpeg")
    } else if str_eq(ext, "png") {
        String::from_str("image/png")
    } else {
        String::from_str("application/octet-stream")
    }
}

/// MIME detection: content sniff over the leading bytes, falling back to
/// the extension table.
pub fn guess_mime(head: &[u8], ext: Option<&String>) -> (r: Option<String>)
    ensures
        r is Some <==> guessed_mime(head@, match ext {
            Some(e) => Some(e@),
            None => None,
        }) is Some,
        r matches Some(s) ==> guessed_mime(head@, match ext {
            Some(e) => Some(e@),
            None => None,
        }) == Some(s@),
{
    match sniff_mime(head) {
        Some(m) => Some(m),
        None => match ext {
            Some(e) => {
                let low = to_lower(e.as_str());
                Some(ext_mime_of(low.as_str()))
            }
            None => None,
        },
    }
}

/// Texty files are chunked directly: `text/*`, or anything whose MIME
/// mentions json or yaml.
pub open spec fn texty(mime: Option<Seq<char>>) -> bool {
    match mime {
        Some(m) => is_prefix("text/"@, m) || has_substring(m, "json"@)
            || has_substring(m, "yaml"@),
        None => false,
    }
}

pub fn is_texty(mime: &Option<String>) -> (r: bool)
    ensures
        r == texty(match *mime {
            Some(ref m) => Some(m@),
            None => None,
        }),
{
    match mime {
        Some(m) => {
            str_starts_with(m.as_str(), "text/") || str_contains(m.as_str(), "json")
                || str_contains(m.as_str(), "yaml")
        }
        None => false,
    }
}

/// The office document MIME types the office parser accepts.
pub open spec fn office_mime(m: Seq<char>) -> bool {
    m == "application/msword"@ || m == "application/vnd.ms-powerpoint"@
        || m == "application/vnd.ms-excel"@
        || m == "application/vnd.openxmlformats-officedocument.wordprocessingml.document"@
        || m == "application/vnd.openxmlformats-officedocument.presentationml.presentation"@
        || m == "application/vnd.openxmlformats-officedocument.spreadsheetml.sheet"@
}

pub fn is_office(mime: &Option<String>) -> (r: bool)
    ensures
        r == match *mime {
            Some(ref m) => office_mime(m@),
            None => false,
        },
{
    match mime {
        Some(m) => {
            str_eq(m.as_str(), "application/msword")
                || str_eq(m.as_str(), "application/vnd.ms-powerpoint")
                || str_eq(m.as_str(), "application/vnd.ms-excel")
                || str_eq(m.as_str(),
                    "application/vnd.openxmlformats-officedocument.wordprocessingml.document")
                || str_eq(m.as_str(),
                    "application/vnd.openxmlformats-officedocument.presentationml.presentation")
                || str_eq(m.as_str(),
                    "application/vnd.openxmlformats-officedocument.spreadsheetml.sheet")
        }
        None => false,
    }
}

/// Which parser family the extractor dispatches a file to.
pub enum ExtractKind {
    /// Read the head and chunk it directly.
    Texty,
    /// Hand the file to the PDF text parser.
    Pdf,
    /// Hand the file to the office document parser.
    Office,
    /// Record image metadata and OCR text as configured.
    Image { want_meta: bool, want_ocr: bool },
    /// Produce no chunks.
    Skip,
}

/// The extraction byte cap: larger files yield no chunks unless texty.
pub open spec fn extract_cap() -> u64 {
    10485760
}

/// The dispatch decision for a file of the given MIME and size.
pub open spec fn extract_plan_spec(mime: Option<Seq<char>>, size: u64, p: ParserConfig)
    -> ExtractKind {
    if size > extract_cap() && !texty(mime) {
        ExtractKind::Skip
    } else if texty(mime) {
        ExtractKind::Texty
    } else if p.pdf && mime == Some("application/pdf"@) {
        ExtractKind::Pdf
    } else if p.office && (mime matches Some(m) && office_mime(m)) {
        ExtractKind::Office
    } else if mime matches Some(m) && is_prefix("image/"@, m) {
        ExtractKind::Image {
            want_meta: p.image_meta,
            want_ocr: p.ocr && (match p.max_ocr_bytes {
                Some(cap) => size <= cap,
                None => true,
            }),
        }
    } else {
        ExtractKind::Skip
    }
}

/// Decides which parser family handles a file: the byte cap first, then
/// texty content, then the configured PDF, office and image parsers.
pub fn extract_plan(mime: &Option<String>, size: u64, parsers: &ParserConfig)
    -> (r: ExtractKind)
    ensures
        r == extract_plan_spec(match *mime {
            Some(ref m) => Some(m@),
            None => None,
        }, size, *parsers),
{
    let is_t = is_texty(mime);
    if size > 10485760 && !is_t {
        return ExtractKind::Skip;
    }
    if is_t {
        return ExtractKind::Texty;
    }
    let is_pdf = match mime {
        Some(m) => str_eq(m.as_str(), "application/pdf"),
        None => false,
    };
    if parsers.pdf && is_pdf {
        return ExtractKind::Pdf;
    }
    if parsers.office && is_office(mime) {
        return ExtractKind::Office;
    }
    let is_img = match mime {
        Some(m) => str_starts_with(m.as_str(), "image/"),
        None => false,
    };
    if is_img {
        let want_ocr = parsers.ocr && (match parsers.max_ocr_bytes {
            Some(cap) => size <= cap,
            None => true,
        });
        return ExtractKind::Image { want_meta: parsers.image_meta, want_ocr };
    }
    ExtractKind::Skip
}

/// Chunk boundary characters: `.`, `!`, `?` and newline.
pub open spec fn punct_byte(b: u8) -> bool {
    b == 46 || b == 33 || b == 63 || b == 10
}

/// The largest index in `[s, e)` holding a boundary byte, or -1.
pub open spec fn last_punct(data: Seq<u8>, s: int, e: int) -> int
    decreases e - s,
{
    if e <= s {
        -1
    } else if punct_byte(data[e - 1]) {
        e - 1
    } else {
        last_punct(data, s, e - 1)
    }
}

/// The largest index in `[s, e)` holding a space, or -1.
pub open spec fn last_space(data: Seq<u8>, s: int, e: int) -> int
    decreases e - s,
{
    if e <= s {
        -1
    } else if data[e - 1] == 32 {
        e - 1
    } else {
        last_space(data, s, e - 1)
    }
}

/// Where the chunk starting at `s` ends: just after the last boundary
/// byte in the window, else at the last space, else at the hard cut.  A
/// boundary that would make the chunk empty falls back to the hard cut.
pub open spec fn chunk_end(data: Seq<u8>, s: int, max: int) -> int {
    let w = if s + max < data.len() {
        s + max
    } else {
        data.len() as int
    };
    let p = last_punct(data, s, w);
    if p >= 0 {
        p + 1
    } else {
        let sp = last_space(data, s, w);
        if sp > s {
            sp
        } else {
            w
        }
    }
}

proof fn lemma_last_punct_range(data: Seq<u8>, s: int, e: int)
    requires
        s >= 0,
    ensures
        last_punct(data, s, e) == -1 || s <= last_punct(data, s, e) < e,
        last_space(data, s, e) == -1 || s <= last_space(data, s, e) < e,
    decreases e - s,
{
    if e > s {
        lemma_last_punct_range(data, s, e - 1);
    }
}

/// A chunk is never empty and never overruns the data.
proof fn lemma_chunk_end_bounds(data: Seq<u8>, s: int, max: int)
    requires
        0 <= s < data.len(),
        max >= 1,
    ensures
        s < chunk_end(data, s, max) <= data.len(),
{
    let w = if s + max < data.len() {
        s + max
    } else {
        data.len() as int
    };
    lemma_last_punct_range(data, s, w);
}

/// Splits text bytes into chunks of at most `max_len` bytes, preferring
/// sentence boundaries, then spaces, then hard cuts.  Chunks tile the
/// input exactly, and each chunk's hash is the digest of its offsets and
/// bytes.
#[verifier::loop_isolation(false)]
pub fn chunk_text(data: &Vec<u8>, max_len: usize) -> (result: Vec<Chunk>)
    requires
        max_len >= 1,
    ensures
        result@.len() == 0 <==> data@.len() == 0,
        data@.len() > 0 ==> result@[0].start == 0
            && result@.last().end == data@.len(),
        forall|i: int| 0 <= i < result@.len()
            ==> (#[trigger] result@[i]).start < result@[i].end <= data@.len(),
        forall|i: int| 0 <= i < result@.len() - 1
            ==> (#[trigger] result@[i + 1]).start == result@[i].end,
        forall|i: int| 0 <= i < result@.len()
            ==> (#[trigger] result@[i]).end
                == chunk_end(data@, result@[i].start as int, max_len as int),
        forall|i: int| 0 <= i < result@.len()
            ==> (#[trigger] result@[i]).text@
                == data@.subrange(result@[i].start as int, result@[i].end as int),
        forall|i: int| 0 <= i < result@.len()
            ==> (#[trigger] result@[i]).hash@
                == chunk_hash_spec(result@[i].start as u64, result@[i].end as u64,
                    result@[i].text@),
{
    let n = data.len();
    let mut result: Vec<Chunk> = Vec::new();
    let mut start: usize = 0;
    while start < n
        invariant
            start <= n,
            n == data@.len(),
            result@.len() == 0 <==> start == 0,
            start > 0 ==> result@[0].start == 0 && result@.last().end == start,
            forall|i: int| 0 <= i < result@.len()
                ==> (#[trigger] result@[i]).start < result@[i].end <= n,
            forall|i: int| 0 <= i < result@.len() - 1
                ==> (#[trigger] result@[i + 1]).start == result@[i].end,
            forall|i: int| 0 <= i < result@.len()
                ==> (#[trigger] result@[i]).end
                    == chunk_end(data@, result@[i].start as int, max_len as int),
            forall|i: int| 0 <= i < result@.len()
                ==> (#[trigger] result@[i]).text@
                    == data@.subrange(result@[i].start as int, result@[i].end as int),
            forall|i: int| 0 <= i < result@.len()
                ==> (#[trigger] result@[i]).hash@
                    == chunk_hash_spec(result@[i].start as u64, result@[i].end as u64,
                        result@[i].text@),
        decreases n - start,
    {
        let w: usize = if max_len < n - start {
            start + max_len
        } else {
            n
        };
        // Scan backwards for the last boundary byte in the window.
        let mut j: usize = w;
        let mut punct_at: usize = 0;
        let mut punct_found: bool = false;
        while !punct_found && j > start
            invariant
                start <= j <= w <= n,
                !punct_found ==> last_punct(data@, start as int, w as int)
                    == last_punct(data@, start as int, j as int),
                punct_found ==> start <= punct_at < w
                    && last_punct(data@, start as int, w as int) == punct_at,
            decreases j - start + (if punct_found { 0int } else { 1int }),
        {
            if data[j - 1] == 46 || data[j - 1] == 33 || data[j - 1] == 63
                || data[j - 1] == 10 {
                punct_at = j - 1;
                punct_found = true;
            } else {
                j = j - 1;
            }
        }
        let end: usize = if punct_found {
            punct_at + 1
        } else {
            // No boundary byte: scan for the last space.
            let mut k: usize = w;
            let mut space_at: usize = 0;
            let mut space_found: bool = false;
            while !space_found && k > start
                invariant
                    start <= k <= w <= n,
                    !space_found ==> last_space(data@, start as int, w as int)
                        == last_space(data@, start as int, k as int),
                    space_found ==> start <= space_at < w
                        && last_space(data@, start as int, w as int) == space_at,
                decreases k - start + (if space_found { 0int } else { 1int }),
            {
                if data[k - 1] == 32 {
                    space_at = k - 1;
                    space_found = true;
                } else {
                    k = k - 1;
                }
            }
            if space_found && space_at > start {
                space_at
            } else {
                w
            }
        };
        proof {
            lemma_last_punct_range(data@, start as int, w as int);
            assert(end == chunk_end(data@, start as int, max_len as int));
        }
        let text: Vec<u8> = slice_to_vec(&data.as_slice()[start..end]);
        assert(text@ =~= data@.subrange(start as int, end as int));
        let hash = chunk_hash(start as u64, end as u64, text.as_slice());
        let ghost old_result = result@;
        result.push(Chunk { start, end, text, hash });
        start = end;
    }
    result
}

} // verus!
