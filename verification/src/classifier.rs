//! Classification decisions: a fixed heuristic over MIME, extension and
//! path; then the best kNN candidate above its threshold; then whatever
//! the language-model provider answered; else `unknown`.  Confidences
//! are in per-mille.

use vstd::prelude::*;
use crate::strutil::{has_substring, is_prefix, lower_char, str_contains, str_eq,
    str_starts_with, to_lower};

verus! {

/// What the classifier examines for one file.
pub struct ClassificationInput {
    pub text: String,
    pub path: String,
    pub mime: Option<String>,
    pub ext: Option<String>,
    pub provider: Option<String>,
    pub knn_candidates: Vec<(String, u32)>,
}

/// The label decided on and its confidence in per-mille.
pub struct ClassificationOutcome {
    pub label: String,
    pub confidence: u32,
}

/// A provider's answer, already fetched.
pub struct ClassifyResponse {
    pub label: String,
    pub confidence: u32,
    pub rationale: Option<String>,
}

pub open spec fn opt_view(o: Option<String>) -> Seq<char> {
    match o {
        Some(s) => s@,
        None => Seq::empty(),
    }
}

pub open spec fn lower(s: Seq<char>) -> Seq<char> {
    s.map(|i: int, c: char| lower_char(c))
}

/// The heuristic label table over MIME, lowercased extension and
/// lowercased path.
pub open spec fn heuristic_label_spec(mime: Seq<char>, ext: Seq<char>, path: Seq<char>)
    -> Option<Seq<char>> {
    let e = lower(ext);
    let p = lower(path);
    if has_substring(mime, "pdf"@) || e == "pdf"@ {
        Some("document/pdf"@)
    } else if has_substring(mime, "msword"@) || has_substring(mime, "officedocument"@)
        || e == "doc"@ || e == "docx"@ || e == "ppt"@ || e == "pptx"@ || e == "xls"@
        || e == "xlsx"@ {
        Some("document/office"@)
    } else if is_prefix("image/"@, mime) || e == "jpg"@ || e == "jpeg"@ || e == "png"@
        || e == "gif"@ || e == "heic"@ {
        Some("image"@)
    } else if is_prefix("text/"@, mime) || e == "txt"@ || e == "md"@ || e == "rtf"@ {
        Some("text"@)
    } else if e == "zip"@ || e == "rar"@ || e == "7z"@ || e == "tar"@ || e == "gz"@ {
        Some("archive"@)
    } else if has_substring(p, "download"@) && (e == "pdf"@ || e == "docx"@ || e == "zip"@) {
        Some("inbox/download"@)
    } else {
        None
    }
}

/// The fixed MIME/extension/path heuristic.
pub fn heuristic_label(mime: &str, ext: &str, path: &str) -> (r: Option<String>)
    ensures
        r is Some <==> heuristic_label_spec(mime@, ext@, path@) is Some,
        r matches Some(l) ==> heuristic_label_spec(mime@, ext@, path@) == Some(l@),
{
    let e = to_lower(ext);
    let es = e.as_str();
    let p = to_lower(path);
    if str_contains(mime, "pdf") || str_eq(es, "pdf") {
        Some(String::from_str("document/pdf"))
    } else if str_contains(mime, "msword") || str_contains(mime, "officedocument")
        || str_eq(es, "doc") || str_eq(es, "docx") || str_eq(es, "ppt")
        || str_eq(es, "pptx") || str_eq(es, "xls") || str_eq(es, "xlsx") {
        Some(String::from_str("document/office"))
    } else if str_starts_with(mime, "image/") || str_eq(es, "jpg") || str_eq(es, "jpeg")
        || str_eq(es, "png") || str_eq(es, "gif") || str_eq(es, "heic") {
        Some(String::from_str("image"))
    } else if str_starts_with(mime, "text/") || str_eq(es, "txt") || str_eq(es, "md")
        || str_eq(es, "rtf") {
        Some(String::from_str("text"))
    } else if str_eq(es, "zip") || str_eq(es, "rar") || str_eq(es, "7z")
        || str_eq(es, "tar") || str_eq(es, "gz") {
        Some(String::from_str("archive"))
    } else if str_contains(p.as_str(), "download")
        && (str_eq(es, "pdf") || str_eq(es, "docx") || str_eq(es, "zip")) {
        Some(String::from_str("inbox/download"))
    } else {
        None
    }
}

/// The classification decision order: heuristic at 900 per-mille, then a
/// kNN candidate above 700, then the provider's answer, else `unknown`
/// at zero.
pub fn classify(input: &ClassificationInput, llm: Option<&ClassifyResponse>)
    -> (r: ClassificationOutcome)
    ensures
        heuristic_label_spec(opt_view(input.mime), opt_view(input.ext), input.path@)
            matches Some(l) ==> r.label@ == l && r.confidence == 900,
        heuristic_label_spec(opt_view(input.mime), opt_view(input.ext), input.path@) is None
            && input.knn_candidates@.len() > 0 && input.knn_candidates@[0].1 > 700
            ==> r.label@ == input.knn_candidates@[0].0@
                && r.confidence == input.knn_candidates@[0].1,
        heuristic_label_spec(opt_view(input.mime), opt_view(input.ext), input.path@) is None
            && !(input.knn_candidates@.len() > 0 && input.knn_candidates@[0].1 > 700)
            ==> (match llm {
                Some(resp) => r.label@ == resp.label@ && r.confidence == resp.confidence,
                None => r.label@ == "unknown"@ && r.confidence == 0,
            }),
{
    let mime_s: &str = match &input.mime {
        Some(m) => m.as_str(),
        None => "",
    };
    let ext_s: &str = match &input.ext {
        Some(e) => e.as_str(),
        None => "",
    };
    proof {
        reveal_strlit("");
        assert(""@ =~= Seq::<char>::empty());
    }
    match heuristic_label(mime_s, ext_s, input.path.as_str()) {
        Some(label) => ClassificationOutcome { label, confidence: 900 },
        None => {
            if input.knn_candidates.len() > 0 {
                let first = &input.knn_candidates[0];
                if first.1 > 700 {
                    return ClassificationOutcome {
                        label: first.0.clone(),
                        confidence: first.1,
                    };
                }
            }
            match llm {
                Some(resp) => ClassificationOutcome {
                    label: resp.label.clone(),
                    confidence: resp.confidence,
                },
                None => ClassificationOutcome {
                    label: String::from_str("unknown"),
                    confidence: 0,
                },
            }
        }
    }
}

/// Stores an accepted classification: above 500 per-mille the tag row
/// and its file link are created (insert-or-ignore); at or below nothing
/// changes.
pub fn persist_classification(
    db: &mut crate::db::Database,
    file_id: i64,
    outcome: &ClassificationOutcome,
    now: i64,
) -> (stored: bool)
    requires
        old(db).wf(),
        old(db).next_tag_id < i64::MAX,
    ensures
        final(db).wf(),
        stored == (outcome.confidence > 500),
        !stored ==> *final(db) == *old(db),
        stored ==> final(db).has_tag_name(outcome.label@)
            && final(db).has_file_tag(file_id,
                final(db).tags@[final(db).tag_idx(outcome.label@)].id),
        // A link that already existed keeps its row (insert-or-ignore);
        // a fresh link carries this outcome's confidence, source
        // `classifier`, and the label's tag id.
        stored && old(db).has_tag_name(outcome.label@)
            && old(db).has_file_tag(file_id,
                old(db).tags@[old(db).tag_idx(outcome.label@)].id)
            ==> *final(db) == *old(db),
        stored && !old(db).has_file_tag(file_id,
            final(db).tags@[final(db).tag_idx(outcome.label@)].id)
            ==> final(db).file_tags@ == old(db).file_tags@.push(
                final(db).file_tags@.last())
            && ({
                let link = final(db).file_tags@.last();
                link.file_id == file_id
                    && link.tag_id == final(db).tags@[final(db).tag_idx(
                        outcome.label@)].id
                    && link.confidence == outcome.confidence
                    && (link.source matches Some(src) && src@ == "classifier"@)
                    && link.updated_at == now
            }),
        stored && old(db).has_file_tag(file_id,
            final(db).tags@[final(db).tag_idx(outcome.label@)].id)
            ==> final(db).file_tags == old(db).file_tags,
        final(db).files == old(db).files,
        final(db).chunks == old(db).chunks,
        final(db).actions == old(db).actions,
        final(db).dirty == old(db).dirty,
        final(db).audit == old(db).audit,
        final(db).rules == old(db).rules,
        final(db).metadata == old(db).metadata,
{
    if outcome.confidence > 500 {
        let tag_id = db.ensure_tag(outcome.label.as_str());
        proof {
            assert(db.tags@[db.tag_idx(outcome.label@)].id == tag_id);
        }
        let ghost mid = *db;
        db.ensure_file_tag(file_id, tag_id, outcome.confidence, "classifier", now);
        proof {
            assert(db.has_file_tag(file_id, tag_id));
            assert(mid.file_tags == old(db).file_tags);
            assert(old(db).has_file_tag(file_id, tag_id)
                <==> mid.has_file_tag(file_id, tag_id));
            assert(db.tags@[db.tag_idx(outcome.label@)].id == tag_id);
        }
        true
    } else {
        false
    }
}

} // verus!
