//! The `web.fetch` tool's policy: which content types it accepts and how
//! large a body may grow.
use vstd::prelude::*;

use crate::permissions::Classification;
use crate::text::{chars_of, str_eq};

verus! {

/// The arguments of a fetch call.
#[derive(Debug, Clone, PartialEq, Eq)]
pub struct WebFetchArgs {
    pub url: String,
}

/// A failed fetch.
#[derive(Debug, Clone, PartialEq, Eq)]
pub enum FetchError {
    InvalidUrl { url: String, message: String },
    Transport { message: String },
    DisallowedContentType { content_type: String },
    BodyTooLarge { limit: usize },
    Decode { message: String },
    BuildClient { message: String },
}

/// Largest body accepted by default, in bytes.
pub const DEFAULT_MAX_BODY_BYTES: usize = 1048576;

/// What a fetch accepts.
pub struct FetchPolicy {
    pub max_body_bytes: usize,
    pub allowed_content_types: Vec<String>,
}

/// The ASCII lowercase of a text.
pub open spec fn ascii_lower(s: Seq<char>) -> Seq<char> {
    s.map_values(|c: char| crate::enrichment::lower_char(c))
}

/// Whether `s` starts with `p`.
pub open spec fn starts_with(s: Seq<char>, p: Seq<char>) -> bool {
    p.len() <= s.len() && s.subrange(0, p.len() as int) == p
}

impl FetchPolicy {
    /// The default policy: a 1 MiB body, and textual content types.
    pub fn new() -> (r: Self)
        ensures
            r.max_body_bytes == DEFAULT_MAX_BODY_BYTES,
            crate::bash::strings_view(r.allowed_content_types@) == seq![
                "text/"@,
                "application/json"@,
                "application/xml"@,
                "application/xhtml+xml"@,
            ],
    {
        let mut v: Vec<String> = Vec::new();
        v.push("text/".to_owned());
        v.push("application/json".to_owned());
        v.push("application/xml".to_owned());
        v.push("application/xhtml+xml".to_owned());
        let r = FetchPolicy { max_body_bytes: DEFAULT_MAX_BODY_BYTES, allowed_content_types: v };
        assert(crate::bash::strings_view(r.allowed_content_types@) =~= seq![
            "text/"@,
            "application/json"@,
            "application/xml"@,
            "application/xhtml+xml"@,
        ]);
        r
    }

    /// Checks a response's content type (empty when it has none): lowercased,
    /// it must start with one of the allowed prefixes, else it is
    /// `DisallowedContentType` holding the lowercased type.
    pub fn check_content_type(&self, content_type: &str) -> (r: Result<(), FetchError>)
        ensures
            (exists|i: int| 0 <= i < self.allowed_content_types@.len()
                && starts_with(ascii_lower(content_type@), #[trigger] self.allowed_content_types@[i]@)) ==> r is Ok,
            !(exists|i: int| 0 <= i < self.allowed_content_types@.len()
                && starts_with(ascii_lower(content_type@), #[trigger] self.allowed_content_types@[i]@)) ==> (r matches Err(
                FetchError::DisallowedContentType { content_type: t },
            ) && t@ == ascii_lower(content_type@)),
    {
        let v = chars_of(content_type);
        let mut lower = String::new();
        let mut k: usize = 0;
        while k < v.len()
            invariant
                k <= v@.len(),
                v@ == content_type@,
                lower@ =~= ascii_lower(v@.take(k as int)),
            decreases v.len() - k,
        {
            let c = v[k];
            let d = if 'A' <= c && c <= 'Z' { ((c as u32) + 32) as u8 as char } else { c };
            assert(d == crate::enrichment::lower_char(c));
            lower.push(d);
            k += 1;
            assert(lower@ =~= ascii_lower(v@.take(k as int)));
        }
        assert(v@.take(v@.len() as int) =~= v@);
        let lv = chars_of(lower.as_str());
        let mut i: usize = 0;
        while i < self.allowed_content_types.len()
            invariant
                i <= self.allowed_content_types@.len(),
                lv@ == lower@,
                lower@ == ascii_lower(content_type@),
                forall|j: int| 0 <= j < i ==> !starts_with(lower@, #[trigger] self.allowed_content_types@[j]@),
            decreases self.allowed_content_types.len() - i,
        {
            let p = chars_of(self.allowed_content_types[i].as_str());
            if p.len() <= lv.len() && crate::text::chars_eq(&lv.as_slice()[0..p.len()], p.as_slice()) {
                assert(lv@.subrange(0, p@.len() as int) =~= lower@.subrange(0, p@.len() as int));
                return Ok(());
            }
            proof {
                if p@.len() <= lv@.len() {
                    assert(lv@.subrange(0, p@.len() as int) =~= lower@.subrange(0, p@.len() as int));
                }
            }
            i += 1;
        }
        Err(FetchError::DisallowedContentType { content_type: lower })
    }

    /// Whether a body of `received` bytes may take a chunk of `chunk` more:
    /// not when the sum, saturated at `usize::MAX`, passes the limit.
    pub fn admits(&self, received: usize, chunk: usize) -> (r: bool)
        ensures
            r == ((if received + chunk > usize::MAX { usize::MAX as int } else { received + chunk })
                <= self.max_body_bytes),
    {
        received.saturating_add(chunk) <= self.max_body_bytes
    }
}

/// The permission class of web searches.
pub struct WebSearchClassifier;

impl WebSearchClassifier {
    /// Searching is always safe, whatever the arguments.
    pub fn classify(&self, args: &serde_json::Value) -> (r: Classification)
        ensures
            r == Classification::Safe,
    {
        Classification::Safe
    }
}

/// The permission class of web fetches.
pub struct WebFetchClassifier;

impl WebFetchClassifier {
    /// Fetching is always safe, whatever the arguments.
    pub fn classify(&self, args: &serde_json::Value) -> (r: Classification)
        ensures
            r == Classification::Safe,
    {
        Classification::Safe
    }
}

} // verus!
