use md_blog::front_matter::Metadata;
use md_blog::render::{
    add_tailwind_classes, assemble_page, convert_markdown_to_html, generate_html_footer,
    generate_html_header, replace_all,
};

fn meta(title: &str) -> Metadata {
    Metadata { title: title.to_string(), date: None }
}

#[test]
fn heading_and_paragraph_are_styled_once() {
    let out = add_tailwind_classes("<h1>X</h1><p>Y</p>");
    assert_eq!(
        out,
        "<h1 class=\"text-3xl font-bold\">X</h1><p class=\"text-gray-400 mb-4\">Y</p>"
    );
    assert_eq!(out.matches("<h1 class=\"text-3xl font-bold\">X</h1>").count(), 1);
    assert_eq!(out.matches("<p class=\"text-gray-400 mb-4\">Y</p>").count(), 1);
    assert!(!out.contains("<h1>"));
    assert!(!out.contains("<p>"));
}

#[test]
fn inline_code_rule_is_refined_by_the_next() {
    let out = add_tailwind_classes("<pre><code>x</code></pre><h2>T</h2>");
    assert_eq!(
        out,
        "<pre class=\"bg-gray-700 text-green-300 p-4 rounded mb-4 overflow-x-auto\"><code class=\"inline-block bg-gray-700 text-green-300 p-1 rounded\">x</code></pre><h2 class=\"text-2xl font-bold mb-2\">T</h2>"
    );
}

#[test]
fn replace_all_scans_left_to_right() {
    assert_eq!(replace_all("aaa", "aa", "b"), "ba");
    assert_eq!(replace_all("abcabc", "bc", "X"), "aXaX");
    assert_eq!(replace_all("abc", "", "X"), "abc");
    assert_eq!(replace_all("", "a", "X"), "");
    assert_eq!(replace_all("héllo", "é", "e"), "hello");
}

#[test]
fn header_controls_follow_neighbours() {
    let p = meta("P");
    let none = generate_html_header("T", None, None);
    assert!(none.contains("<title>T</title>"));
    assert!(!none.contains("&larr; Back"));
    assert!(!none.contains("Next &rarr;"));
    let both = generate_html_header("T", Some(&p), Some(&p));
    assert!(both.contains("&larr; Back"));
    assert!(both.contains("Next &rarr;"));
    assert!(both.starts_with("<!DOCTYPE html>\n<html lang=\"en\">"));
    assert!(both.ends_with("        <article>\n"));
}

#[test]
fn footer_closes_the_page() {
    assert_eq!(
        generate_html_footer(),
        "</article>\n    </div>\n\n</body>\n\n</html>"
    );
}

#[test]
fn assemble_is_header_styled_content_footer() {
    let m = meta("T");
    let page = assemble_page(&m, "<p>x</p>", None, None);
    let expected = format!(
        "{}{}{}",
        generate_html_header("T", None, None),
        "<p class=\"text-gray-400 mb-4\">x</p>",
        generate_html_footer()
    );
    assert_eq!(page, expected);
}

#[test]
fn markdown_is_converted_then_styled() {
    let m = meta("T");
    let page = convert_markdown_to_html(&m, "# Hi\n\ntext", None, None);
    assert!(page.contains("<h1 class=\"text-3xl font-bold\">Hi</h1>"));
    assert!(page.contains("<p class=\"text-gray-400 mb-4\">text</p>"));
    assert!(!page.contains("# Hi"));
}

#[test]
fn tables_are_enabled() {
    let m = meta("T");
    let page = convert_markdown_to_html(&m, "| a | b |\n|---|---|\n| 1 | 2 |\n", None, None);
    assert!(page.contains("<table>"));
}

#[test]
fn rendering_twice_gives_the_same_page() {
    let m = meta("Same");
    let p = meta("Other");
    let a = convert_markdown_to_html(&m, "# A\n\nb `c`", Some(&p), None);
    let b = convert_markdown_to_html(&m, "# A\n\nb `c`", Some(&p), None);
    assert_eq!(a, b);
}
