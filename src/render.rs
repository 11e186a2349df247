//! Turning a post into a complete HTML page: Markdown conversion, styling
//! rewrites, header and footer.

use vstd::prelude::*;
use crate::front_matter::Metadata;
use crate::text::chars_of;

verus! {

/// `s` with every occurrence of `pat` replaced by `rep`, scanning from the
/// left; occurrences do not overlap, and replaced text is not scanned again.
pub open spec fn replace_view(s: Seq<char>, pat: Seq<char>, rep: Seq<char>) -> Seq<char>
    decreases s.len(),
{
    if s.len() == 0 {
        s
    } else if pat.len() > 0 && pat.len() <= s.len() && s.subrange(0, pat.len() as int) == pat {
        rep + replace_view(s.subrange(pat.len() as int, s.len() as int), pat, rep)
    } else {
        seq![s[0]] + replace_view(s.drop_first(), pat, rep)
    }
}

/// Whether `pat` occurs in `cs` at `at`.
fn occurs_at(cs: &Vec<char>, pat: &Vec<char>, at: usize) -> (r: bool)
    requires
        at <= cs@.len(),
    ensures
        r == (pat@.len() <= cs@.len() - at && cs@.subrange(at as int, at + pat@.len())
            == pat@),
{
    if pat.len() > cs.len() - at {
        return false;
    }
    let n = cs.len();
    let mut k: usize = 0;
    while k < pat.len()
        invariant
            n == cs@.len(),
            at <= cs@.len(),
            k <= pat@.len() <= cs@.len() - at,
            forall|q: int| 0 <= q < k ==> cs@[at + q] == pat@[q],
        decreases pat@.len() - k,
    {
        if cs[at + k] != pat[k] {
            assert(cs@.subrange(at as int, at + pat@.len())[k as int] != pat@[k as int]);
            return false;
        }
        k = k + 1;
    }
    assert(cs@.subrange(at as int, at + pat@.len()) =~= pat@);
    true
}

/// Replaces every occurrence of `pat` in `s` by `rep`.
pub fn replace_all(s: &str, pat: &str, rep: &str) -> (r: String)
    ensures
        r@ == replace_view(s@, pat@, rep@),
{
    let cs = chars_of(s);
    let ps = chars_of(pat);
    let n = cs.len();
    let mut out = String::new();
    let mut start: usize = 0;
    let mut i: usize = 0;
    assert(s@.subrange(0, n as int) =~= s@);
    while i < n
        invariant
            start <= i <= n,
            n == s@.len(),
            cs@ == s@,
            ps@ == pat@,
            out@ + s@.subrange(start as int, i as int) + replace_view(
                s@.subrange(i as int, n as int),
                pat@,
                rep@,
            ) == replace_view(s@, pat@, rep@),
        decreases n - i,
    {
        let rest = Ghost(s@.subrange(i as int, n as int));
        if ps.len() > 0 && occurs_at(&cs, &ps, i) {
            assert(rest@.subrange(0, pat@.len() as int) =~= s@.subrange(i as int, i + pat@.len()));
            assert(rest@.subrange(pat@.len() as int, rest@.len() as int) =~= s@.subrange(
                i + pat@.len(),
                n as int,
            ));
            let ghost before = out@ + s@.subrange(start as int, i as int);
            let ghost tail = replace_view(s@.subrange(i + pat@.len(), n as int), pat@, rep@);
            assert(replace_view(rest@, pat@, rep@) == rep@ + tail);
            out.append(s.substring_char(start, i));
            out.append(rep);
            i = i + ps.len();
            start = i;
            assert(before + (rep@ + tail) =~= out@ + s@.subrange(start as int, i as int) + tail);
        } else {
            let ghost tail = replace_view(s@.subrange(i + 1, n as int), pat@, rep@);
            assert(rest@.drop_first() =~= s@.subrange(i + 1, n as int));
            assert(rest@[0] == s@[i as int]);
            proof {
                if pat@.len() <= rest@.len() {
                    assert(rest@.subrange(0, pat@.len() as int) =~= s@.subrange(
                        i as int,
                        i + pat@.len(),
                    ));
                }
            }
            assert(replace_view(rest@, pat@, rep@) == seq![s@[i as int]] + tail);
            assert(s@.subrange(start as int, i + 1) =~= s@.subrange(start as int, i as int) + seq![
                s@[i as int],
            ]);
            assert(out@ + s@.subrange(start as int, i as int) + (seq![s@[i as int]] + tail)
                =~= out@ + s@.subrange(start as int, i + 1) + tail);
            i = i + 1;
        }
    }
    out.append(s.substring_char(start, n));
    assert(s@.subrange(n as int, n as int) =~= Seq::<char>::empty());
    assert(replace_view(Seq::<char>::empty(), pat@, rep@) == Seq::<char>::empty());
    out
}

/// The styling rewrites, applied in this order. Order matters: the last rule
/// matches the text that the inline code rule writes, and refines it.
pub open spec fn styled_view(html: Seq<char>) -> Seq<char> {
    let s1 = replace_view(html, "<h1>"@, "<h1 class=\"text-3xl font-bold\">"@);
    let s2 = replace_view(s1, "<h2>"@, "<h2 class=\"text-2xl font-bold mb-2\">"@);
    let s3 = replace_view(s2, "<p>"@, "<p class=\"text-gray-400 mb-4\">"@);
    let s4 = replace_view(
        s3,
        "<pre>"@,
        "<pre class=\"bg-gray-700 text-green-300 p-4 rounded mb-4 overflow-x-auto\">"@,
    );
    let s5 = replace_view(s4, "<code>"@, "<code class=\"inline-block\">"@);
    replace_view(
        s5,
        "<code class=\"inline-block\">"@,
        "<code class=\"inline-block bg-gray-700 text-green-300 p-1 rounded\">"@,
    )
}

/// Adds presentation classes to the opening tags of headings, paragraphs,
/// preformatted blocks and inline code.
pub fn add_tailwind_classes(html_content: &str) -> (r: String)
    ensures
        r@ == styled_view(html_content@),
{
    let s1 = replace_all(html_content, "<h1>", "<h1 class=\"text-3xl font-bold\">");
    let s2 = replace_all(s1.as_str(), "<h2>", "<h2 class=\"text-2xl font-bold mb-2\">");
    let s3 = replace_all(s2.as_str(), "<p>", "<p class=\"text-gray-400 mb-4\">");
    let s4 = replace_all(
        s3.as_str(),
        "<pre>",
        "<pre class=\"bg-gray-700 text-green-300 p-4 rounded mb-4 overflow-x-auto\">",
    );
    let s5 = replace_all(s4.as_str(), "<code>", "<code class=\"inline-block\">");
    replace_all(
        s5.as_str(),
        "<code class=\"inline-block\">",
        "<code class=\"inline-block bg-gray-700 text-green-300 p-1 rounded\">",
    )
}

/// The "previous" navigation control.
pub open spec fn back_button_view() -> Seq<char> {
    "<button class=\"bg-green-500 hover:bg-green-600 text-white font-bold py-2 px-4 rounded\"><span>&larr; Back</span></button>"@
}

/// The "next" navigation control.
pub open spec fn next_button_view() -> Seq<char> {
    "<button class=\"bg-green-500 hover:bg-green-600 text-white font-bold py-2 px-4 rounded\"><span>Next &rarr;</span></button>"@
}

/// The page text before the rendered content: the document head with the
/// title, then a bar with the controls that are present and the title.
pub open spec fn header_view(title: Seq<char>, has_prev: bool, has_next: bool) -> Seq<char> {
    "<!DOCTYPE html>\n<html lang=\"en\">\n<head>\n    <meta charset=\"UTF-8\">\n    <meta name=\"viewport\" content=\"width=device-width, initial-scale=1.0\">\n    <title>"@
        + title
        + "</title>\n    <link rel=\"stylesheet\" href=\"/style/tailwind.css\">   \n</head>\n<body class=\"bg-gray-800 text-white\">\n    <div class=\"container mx-auto px-4 py-8\">\n        <div class=\"flex justify-between items-center mb-6\">\n            "@
        + (if has_prev { back_button_view() } else { Seq::empty() })
        + "\n            <h1 class=\"text-3xl font-bold\">"@
        + title
        + "</h1>\n            "@
        + (if has_next { next_button_view() } else { Seq::empty() })
        + "\n        </div>\n        <article>\n"@
}

/// The page text after the rendered content.
pub open spec fn footer_view() -> Seq<char> {
    "</article>\n    </div>\n\n</body>\n\n</html>"@
}

/// The page header for a post titled `title`, with a "previous" control when
/// `prev_post` is present and a "next" control when `next_post` is present.
pub fn generate_html_header(
    title: &str,
    prev_post: Option<&Metadata>,
    next_post: Option<&Metadata>,
) -> (r: String)
    ensures
        r@ == header_view(title@, prev_post is Some, next_post is Some),
{
    let mut out = String::from_str(
        "<!DOCTYPE html>\n<html lang=\"en\">\n<head>\n    <meta charset=\"UTF-8\">\n    <meta name=\"viewport\" content=\"width=device-width, initial-scale=1.0\">\n    <title>",
    );
    out.append(title);
    out.append(
        "</title>\n    <link rel=\"stylesheet\" href=\"/style/tailwind.css\">   \n</head>\n<body class=\"bg-gray-800 text-white\">\n    <div class=\"container mx-auto px-4 py-8\">\n        <div class=\"flex justify-between items-center mb-6\">\n            ",
    );
    if prev_post.is_some() {
        out.append(
            "<button class=\"bg-green-500 hover:bg-green-600 text-white font-bold py-2 px-4 rounded\"><span>&larr; Back</span></button>",
        );
    }
    out.append("\n            <h1 class=\"text-3xl font-bold\">");
    out.append(title);
    out.append("</h1>\n            ");
    if next_post.is_some() {
        out.append(
            "<button class=\"bg-green-500 hover:bg-green-600 text-white font-bold py-2 px-4 rounded\"><span>Next &rarr;</span></button>",
        );
    }
    out.append("\n        </div>\n        <article>\n");
    assert(out@ =~= header_view(title@, prev_post is Some, next_post is Some));
    out
}

/// The page footer, closing what the header opened.
pub fn generate_html_footer() -> (r: &'static str)
    ensures
        r@ == footer_view(),
{
    "</article>\n    </div>\n\n</body>\n\n</html>"
}

/// The page for a post titled `title`, around already converted HTML
/// content.
pub open spec fn assembled_view(
    title: Seq<char>,
    fragment: Seq<char>,
    has_prev: bool,
    has_next: bool,
) -> Seq<char> {
    header_view(title, has_prev, has_next) + styled_view(fragment) + footer_view()
}

/// Builds the full page from HTML content converted from the post's body:
/// header, styled content, footer.
pub fn assemble_page(
    metadata: &Metadata,
    html_fragment: &str,
    prev_post: Option<&Metadata>,
    next_post: Option<&Metadata>,
) -> (r: String)
    ensures
        r@ == assembled_view(
            metadata.title@,
            html_fragment@,
            prev_post is Some,
            next_post is Some,
        ),
{
    let header = generate_html_header(metadata.title.as_str(), prev_post, next_post);
    let styled = add_tailwind_classes(html_fragment);
    let mut page = header;
    page.append(styled.as_str());
    page.append(generate_html_footer());
    page
}

/// The HTML that CommonMark text (with tables) converts to.
pub uninterp spec fn markdown_html(md: Seq<char>) -> Seq<char>;

/// Relies on `pulldown_cmark::Parser::new_ext` with `Options::ENABLE_TABLES`
/// and `pulldown_cmark::html::push_html` to convert Markdown into HTML; the
/// output depends on the text alone.
#[verifier::external_body]
fn markdown_to_html(md: &str) -> (r: String)
    ensures
        r@ == markdown_html(md@),
{
    let mut options = pulldown_cmark::Options::empty();
    options.insert(pulldown_cmark::Options::ENABLE_TABLES);
    let parser = pulldown_cmark::Parser::new_ext(md, options);
    let mut out = String::new();
    pulldown_cmark::html::push_html(&mut out, parser);
    out
}

/// The page that a post renders to.
pub open spec fn page_view(
    title: Seq<char>,
    body: Seq<char>,
    has_prev: bool,
    has_next: bool,
) -> Seq<char> {
    assembled_view(title, markdown_html(body), has_prev, has_next)
}

/// Renders a post's Markdown body into a complete HTML page.
pub fn convert_markdown_to_html(
    metadata: &Metadata,
    markdown_content: &str,
    prev_post: Option<&Metadata>,
    next_post: Option<&Metadata>,
) -> (r: String)
    ensures
        r@ == page_view(metadata.title@, markdown_content@, prev_post is Some, next_post is Some),
{
    let fragment = markdown_to_html(markdown_content);
    assemble_page(metadata, fragment.as_str(), prev_post, next_post)
}

/// Rendering is reproducible: the same title and body, with neighbours
/// present in the same places, give the same page, whatever the neighbours
/// hold.
pub proof fn lemma_render_reproducible(
    a: &Metadata,
    b: &Metadata,
    body_a: Seq<char>,
    body_b: Seq<char>,
    prev_a: Option<&Metadata>,
    prev_b: Option<&Metadata>,
    next_a: Option<&Metadata>,
    next_b: Option<&Metadata>,
)
    requires
        a.title@ == b.title@,
        body_a == body_b,
        prev_a is Some <==> prev_b is Some,
        next_a is Some <==> next_b is Some,
    ensures
        page_view(a.title@, body_a, prev_a is Some, next_a is Some) == page_view(
            b.title@,
            body_b,
            prev_b is Some,
            next_b is Some,
        ),
{
}

} // verus!
