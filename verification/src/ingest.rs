//! Taking a local document in: the checks of an upload, and the text and
//! chunks that are indexed.

use vstd::prelude::*;
use crate::documents::{
    byte_len, byte_len_wide, chunk_document_text, document_chunks, is_supported_document_name,
    normalize_document_text, supported_extension, unify_newlines,
};
use crate::model::opt_view;
use crate::model_ids::views;
use crate::paths::extension;
use crate::text::{chars_of, lower, push_str, space_trim, string_from, trim_string, Strip};

verus! {

broadcast use vstd::string::group_string_axioms;

/// The largest document that is indexed, in bytes (8 MiB).
pub const MAX_DOCUMENT_BYTES: usize = 8388608;

/// A document ready to be indexed.
pub struct PreparedDocument {
    pub name: String,
    pub source_key: String,
    pub character_count: u64,
    pub chunk_count: u32,
    pub chunks: Vec<String>,
}

/// Why a document was refused.
pub enum DocumentError {
    NameRequired,
    UnsupportedType,
    TooLarge,
    NoReadableText,
    NoIndexableText,
}

impl DocumentError {
    pub fn message(&self) -> (m: String)
        ensures
            self is NameRequired ==> m@ == "document name is required"@,
            self is UnsupportedType ==> m@
                == "Supported document types: .txt, .md, .markdown, .rst, .csv, .json, .yaml, .yml, .html, .htm, and .log."@,
            self is TooLarge ==> m@ == "Document is larger than the 8 MB local indexing limit."@,
            self is NoReadableText ==> m@ == "document contains no readable text"@,
            self is NoIndexableText ==> m@ == "document contains no indexable text"@,
    {
        match self {
            DocumentError::NameRequired => string_from("document name is required"),
            DocumentError::UnsupportedType => string_from(
                "Supported document types: .txt, .md, .markdown, .rst, .csv, .json, .yaml, .yml, .html, .htm, and .log.",
            ),
            DocumentError::TooLarge => string_from(
                "Document is larger than the 8 MB local indexing limit.",
            ),
            DocumentError::NoReadableText => string_from("document contains no readable text"),
            DocumentError::NoIndexableText => string_from("document contains no indexable text"),
        }
    }
}

pub open spec fn supported_name(name: Seq<char>) -> bool {
    extension(name) matches Some(e) && supported_extension(lower(e))
}

/// The key a document is stored under: the given one unless it is blank,
/// else `upload:` and the name.
pub open spec fn source_key_for(given: Option<Seq<char>>, name: Seq<char>) -> Seq<char> {
    match given {
        Some(k) => if space_trim(k).len() > 0 {
            k
        } else {
            "upload:"@ + name
        },
        None => "upload:"@ + name,
    }
}

/// Checks an uploaded document and prepares its text for indexing: a name
/// (trimmed) with a supported extension, at most `MAX_DOCUMENT_BYTES` of
/// content, and some text once line breaks are unified and the text trimmed.
pub fn prepare_document(name: &str, content: &str, source_key: Option<String>) -> (r: Result<
    PreparedDocument,
    DocumentError,
>)
    ensures
        ({
            let n = space_trim(name@);
            let text = space_trim(unify_newlines(content@));
            if n.len() == 0 {
                r matches Err(DocumentError::NameRequired)
            } else if !supported_name(n) {
                r matches Err(DocumentError::UnsupportedType)
            } else if byte_len(content@) > MAX_DOCUMENT_BYTES {
                r matches Err(DocumentError::TooLarge)
            } else if text.len() == 0 {
                r matches Err(DocumentError::NoReadableText)
            } else if document_chunks(text).len() == 0 {
                r matches Err(DocumentError::NoIndexableText)
            } else {
                r matches Ok(d) && d.name@ == n && d.source_key@ == source_key_for(
                    opt_view(source_key),
                    n,
                ) && d.character_count == text.len() && views(d.chunks@) == document_chunks(text)
                    && d.chunk_count == d.chunks@.len() as u32
            }
        }),
{
    let n = trim_string(name, &Strip::Space);
    if n.as_str().is_empty() {
        return Err(DocumentError::NameRequired);
    }
    if !is_supported_document_name(n.as_str()) {
        return Err(DocumentError::UnsupportedType);
    }
    let cv = chars_of(content);
    if byte_len_wide(cv.as_slice()) > MAX_DOCUMENT_BYTES as u128 {
        return Err(DocumentError::TooLarge);
    }
    let text = normalize_document_text(content);
    if text.as_str().is_empty() {
        return Err(DocumentError::NoReadableText);
    }
    let chunks = chunk_document_text(text.as_str());
    assert(views(chunks@) =~= chunks@.map_values(|s: String| s@));
    if chunks.len() == 0 {
        return Err(DocumentError::NoIndexableText);
    }
    let key = match source_key {
        Some(k) => {
            if trim_string(k.as_str(), &Strip::Space).as_str().is_empty() {
                let mut d = string_from("upload:");
                push_str(&mut d, n.as_str());
                d
            } else {
                k
            }
        },
        None => {
            let mut d = string_from("upload:");
            push_str(&mut d, n.as_str());
            d
        },
    };
    let count = chars_of(text.as_str()).len() as u64;
    #[verifier::truncate]
    let chunk_count = chunks.len() as u32;
    Ok(PreparedDocument { name: n, source_key: key, character_count: count, chunk_count, chunks })
}

} // verus!
