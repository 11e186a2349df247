//! Splitting a document into its front matter and body, and decoding the
//! front matter into post metadata.

use vstd::prelude::*;
use crate::date::{Date, date_of, parse_date};
use crate::text::{chars_of, trim, trim_view};

verus! {

/// Why a document could not be read as a post.
#[derive(Clone, Copy, Debug, PartialEq, Eq, Structural)]
pub enum FrontMatterError {
    /// The text holds fewer than two `---` markers.
    MalformedDocument,
    /// The front matter lacks a text `title`, or has a `date` that is not a
    /// `YYYY-MM-DD` calendar day.
    InvalidMetadata,
}

/// What a post says about itself in its front matter.
pub struct Metadata {
    pub title: String,
    pub date: Option<Date>,
}

/// A post: its metadata and its Markdown body.
pub struct Document {
    pub metadata: Metadata,
    pub body: String,
}

/// Whether a `---` marker starts at `k`.
pub open spec fn marker_at(s: Seq<char>, k: int) -> bool {
    0 <= k && k + 3 <= s.len() && s[k] == '-' && s[k + 1] == '-' && s[k + 2] == '-'
}

/// The first position at or after `from` where a marker starts.
pub open spec fn find_marker(s: Seq<char>, from: int) -> Option<int>
    decreases s.len() - from,
{
    if from < 0 || from + 3 > s.len() {
        None
    } else if marker_at(s, from) {
        Some(from)
    } else {
        find_marker(s, from + 1)
    }
}

/// The raw front matter and raw body: the text between the first two
/// markers, and everything after the second one. Markers further on belong
/// to the body.
pub open spec fn split_raw(s: Seq<char>) -> Option<(Seq<char>, Seq<char>)> {
    match find_marker(s, 0) {
        None => None,
        Some(i) => match find_marker(s, i + 3) {
            None => None,
            Some(j) => Some((s.subrange(i + 3, j), s.subrange(j + 3, s.len() as int))),
        },
    }
}

/// The trimmed front matter and trimmed body of `s`.
pub open spec fn split_view(s: Seq<char>) -> Option<(Seq<char>, Seq<char>)> {
    match split_raw(s) {
        None => None,
        Some((h, b)) => Some((trim_view(h), trim_view(b))),
    }
}

/// The text scalar stored under `key` in the YAML mapping that `block`
/// decodes to; `None` when `block` is not such a mapping, the key is absent
/// or its value is not a string.
pub uninterp spec fn yaml_text(block: Seq<char>, key: Seq<char>) -> Option<Seq<char>>;

/// Relies on `serde_yaml::from_str` into a `serde_yaml::Value`, then
/// `Value::get` and `Value::as_str`, to read one text field of a YAML
/// mapping.
#[verifier::external_body]
fn yaml_text_field(block: &str, key: &str) -> (r: Option<String>)
    ensures
        match r {
            Some(t) => yaml_text(block@, key@) == Some(t@),
            None => yaml_text(block@, key@) is None,
        },
{
    let value: serde_yaml::Value = serde_yaml::from_str(block).ok()?;
    let field = value.get(key)?;
    let text = field.as_str()?;
    Some(text.to_string())
}

/// The title and date that a front matter block describes, or `None` when it
/// is not valid metadata.
pub open spec fn decode_view(block: Seq<char>) -> Option<(Seq<char>, Option<Date>)> {
    match yaml_text(block, "title"@) {
        None => None,
        Some(t) => match yaml_text(block, "date"@) {
            None => Some((t, None)),
            Some(d) => match date_of(d) {
                None => None,
                Some(date) => Some((t, Some(date))),
            },
        },
    }
}

/// The first marker at or after `from`.
fn next_marker(cs: &Vec<char>, from: usize) -> (r: Option<usize>)
    requires
        from <= cs@.len(),
    ensures
        match r {
            Some(k) => find_marker(cs@, from as int) == Some(k as int),
            None => find_marker(cs@, from as int) is None,
        },
        r matches Some(k) ==> from <= k && k + 3 <= cs@.len(),
{
    let n = cs.len();
    let mut k: usize = from;
    while k < n && n - k >= 3
        invariant
            from <= k <= n,
            n == cs@.len(),
            find_marker(cs@, k as int) == find_marker(cs@, from as int),
        decreases n - k,
    {
        if cs[k] == '-' && cs[k + 1] == '-' && cs[k + 2] == '-' {
            return Some(k);
        }
        k = k + 1;
    }
    None
}

/// Splits a document on its first two `---` markers into the trimmed front
/// matter and the trimmed body.
pub fn extract_yaml_and_content(content: &str) -> (r: Result<(String, String), FrontMatterError>)
    ensures
        match split_view(content@) {
            None => r == Err::<(String, String), _>(FrontMatterError::MalformedDocument),
            Some((h, b)) => r matches Ok((rh, rb)) && rh@ == h && rb@ == b,
        },
{
    let cs = chars_of(content);
    let i = match next_marker(&cs, 0) {
        Some(i) => i,
        None => {
            return Err(FrontMatterError::MalformedDocument);
        },
    };
    let j = match next_marker(&cs, i + 3) {
        Some(j) => j,
        None => {
            return Err(FrontMatterError::MalformedDocument);
        },
    };
    let head = trim(content.substring_char(i + 3, j));
    let body = trim(content.substring_char(j + 3, cs.len()));
    Ok((head, body))
}

/// Decodes a front matter block into metadata.
pub fn decode_metadata(block: &str) -> (r: Result<Metadata, FrontMatterError>)
    ensures
        match decode_view(block@) {
            None => r == Err::<Metadata, _>(FrontMatterError::InvalidMetadata),
            Some((t, d)) => r matches Ok(m) && m.title@ == t && m.date == d,
        },
{
    let title = match yaml_text_field(block, "title") {
        Some(t) => t,
        None => {
            return Err(FrontMatterError::InvalidMetadata);
        },
    };
    match yaml_text_field(block, "date") {
        None => Ok(Metadata { title, date: None }),
        Some(d) => match parse_date(d.as_str()) {
            None => Err(FrontMatterError::InvalidMetadata),
            Some(date) => Ok(Metadata { title, date: Some(date) }),
        },
    }
}

/// The title, date and body of the post that `s` holds, or the error that
/// reading it gives.
pub open spec fn document_view(s: Seq<char>) -> Result<
    (Seq<char>, Option<Date>, Seq<char>),
    FrontMatterError,
> {
    match split_view(s) {
        None => Err(FrontMatterError::MalformedDocument),
        Some((h, b)) => match decode_view(h) {
            None => Err(FrontMatterError::InvalidMetadata),
            Some((t, d)) => Ok((t, d, b)),
        },
    }
}

impl Document {
    pub open spec fn view_parts(&self) -> (Seq<char>, Option<Date>, Seq<char>) {
        (self.metadata.title@, self.metadata.date, self.body@)
    }
}

/// Reads a whole document: front matter, then metadata, then body.
pub fn parse_document(content: &str) -> (r: Result<Document, FrontMatterError>)
    ensures
        match document_view(content@) {
            Err(e) => r matches Err(re) && re == e,
            Ok(parts) => r matches Ok(doc) && doc.view_parts() == parts,
        },
{
    let (head, body) = extract_yaml_and_content(content)?;
    let metadata = decode_metadata(head.as_str())?;
    Ok(Document { metadata, body })
}

proof fn lemma_find_marker_is_first(s: Seq<char>, from: int, k: int)
    requires
        0 <= from <= k,
        marker_at(s, k),
        forall|m: int| from <= m < k ==> !marker_at(s, m),
    ensures
        find_marker(s, from) == Some(k),
    decreases k - from,
{
    if from < k {
        lemma_find_marker_is_first(s, from + 1, k);
    }
}

proof fn lemma_find_marker_found(s: Seq<char>, from: int)
    ensures
        find_marker(s, from) matches Some(k) ==> from <= k && marker_at(s, k),
    decreases s.len() - from,
{
    if from >= 0 && from + 3 <= s.len() && !marker_at(s, from) {
        lemma_find_marker_found(s, from + 1);
    }
}

/// A document made of a lead, a marker, a front matter block, a marker and
/// the rest, where no other marker starts before the second one, reads as
/// the title and date that the block gives and the trimmed rest as its
/// body.
pub proof fn lemma_well_formed_document(
    lead: Seq<char>,
    block: Seq<char>,
    rest: Seq<char>,
    title: Seq<char>,
    date: Option<Date>,
)
    requires
        forall|k: int|
            0 <= k < lead.len() + 3 + block.len() && k != lead.len() ==> !marker_at(
                #[trigger] (lead + "---"@ + block + "---"@ + rest),
                k,
            ),
        decode_view(trim_view(block)) == Some((title, date)),
    ensures
        document_view(lead + "---"@ + block + "---"@ + rest) == Ok::<_, FrontMatterError>(
            (title, date, trim_view(rest)),
        ),
{
    reveal_strlit("---");
    let s = lead + "---"@ + block + "---"@ + rest;
    let i = lead.len() as int;
    let j = i + 3 + block.len();
    assert(s[i] == '-' && s[i + 1] == '-' && s[i + 2] == '-');
    assert(s[j] == '-' && s[j + 1] == '-' && s[j + 2] == '-');
    lemma_find_marker_is_first(s, 0, i);
    lemma_find_marker_is_first(s, i + 3, j);
    assert(s.subrange(i + 3, j) =~= block);
    assert(s.subrange(j + 3, s.len() as int) =~= rest);
}

/// A text without two markers that do not overlap is malformed.
pub proof fn lemma_missing_markers_malformed(s: Seq<char>)
    requires
        forall|i: int, j: int| marker_at(s, i) && marker_at(s, j) ==> j < i + 3,
    ensures
        document_view(s) == Err::<(Seq<char>, Option<Date>, Seq<char>), _>(
            FrontMatterError::MalformedDocument,
        ),
{
    lemma_find_marker_found(s, 0);
    if let Some(i) = find_marker(s, 0) {
        lemma_find_marker_found(s, i + 3);
        if let Some(j) = find_marker(s, i + 3) {
            assert(marker_at(s, i) && marker_at(s, j));
        }
    }
}

} // verus!
