//! Which files a run picks up, and what their pages are called.

use vstd::prelude::*;
use crate::text::chars_of;

verus! {

/// Whether `name` is a file name with extension `ext`: something before
/// the dot, then the dot and `ext`, matched case by case.
pub open spec fn has_extension(name: Seq<char>, ext: Seq<char>) -> bool {
    name.len() >= ext.len() + 2 && name[name.len() - ext.len() - 1] == '.' && name.subrange(
        name.len() - ext.len(),
        name.len() as int,
    ) == ext
}

fn ends_with_extension(name: &str, ext: &str) -> (r: bool)
    ensures
        r == has_extension(name@, ext@),
{
    let cs = chars_of(name);
    let es = chars_of(ext);
    let n = cs.len();
    let m = es.len();
    if n < m || n - m < 2 || cs[n - m - 1] != '.' {
        return false;
    }
    let mut k: usize = 0;
    while k < m
        invariant
            k <= m,
            m + 2 <= n,
            n == name@.len(),
            m == ext@.len(),
            cs@ == name@,
            es@ == ext@,
            forall|q: int| 0 <= q < k ==> name@[n - m + q] == ext@[q],
        decreases m - k,
    {
        if cs[n - m + k] != es[k] {
            assert(name@.subrange(n - m, n as int)[k as int] != ext@[k as int]);
            return false;
        }
        k = k + 1;
    }
    assert(name@.subrange(n - m, n as int) =~= ext@);
    true
}

/// Whether `file_name` names a Markdown document (`.md`).
pub fn is_document_name(file_name: &str) -> (r: bool)
    ensures
        r == has_extension(file_name@, "md"@),
{
    ends_with_extension(file_name, "md")
}

/// Whether `file_name` names a stylesheet (`.css`), copied as it is.
pub fn is_stylesheet_name(file_name: &str) -> (r: bool)
    ensures
        r == has_extension(file_name@, "css"@),
{
    ends_with_extension(file_name, "css")
}

/// The name of the page for the document `file_name`: its `.md` replaced
/// by `.html`.
pub fn html_file_name(file_name: &str) -> (r: String)
    requires
        has_extension(file_name@, "md"@),
    ensures
        r@ == file_name@.subrange(0, file_name@.len() - 3) + ".html"@,
{
    proof {
        reveal_strlit("md");
    }
    let n = file_name.unicode_len();
    let mut r = String::from_str(file_name.substring_char(0, n - 3));
    r.append(".html");
    r
}

} // verus!
