use md_blog::collection::{build_collection, render_document, Post, PostCollection};
use md_blog::date::Date;
use md_blog::front_matter::{parse_document, FrontMatterError};

fn src(name: &str, text: &str) -> (String, String) {
    (name.to_string(), text.to_string())
}

fn dated(title: &str, date: &str) -> String {
    format!("---\ntitle: {}\ndate: {}\n---\nBody of {}\n", title, date, title)
}

#[test]
fn single_post_has_no_navigation() {
    let c = build_collection(&vec![src(
        "hello.md",
        "---\ntitle: Hello\ndate: 2024-01-01\n---\n# Hi\n",
    )]);
    let pages = c.render_collection();
    assert_eq!(pages.len(), 1);
    assert_eq!(pages[0].0, "hello.md");
    let page = &pages[0].1;
    assert!(page.contains("<title>Hello</title>"));
    assert!(!page.contains("&larr; Back"));
    assert!(!page.contains("Next &rarr;"));
    assert!(page.contains("<h1 class=\"text-3xl font-bold\">Hi</h1>"));
}

#[test]
fn three_posts_are_chained_by_date() {
    let c = build_collection(&vec![
        src("c.md", &dated("Third", "2024-01-03")),
        src("a.md", &dated("First", "2024-01-01")),
        src("b.md", &dated("Second", "2024-01-02")),
    ]);
    let pages = c.render_collection();
    assert_eq!(pages.len(), 3);
    assert_eq!(pages[0].0, "a.md");
    assert_eq!(pages[1].0, "b.md");
    assert_eq!(pages[2].0, "c.md");
    assert!(!pages[0].1.contains("&larr; Back") && pages[0].1.contains("Next &rarr;"));
    assert!(pages[1].1.contains("&larr; Back") && pages[1].1.contains("Next &rarr;"));
    assert!(pages[2].1.contains("&larr; Back") && !pages[2].1.contains("Next &rarr;"));
}

#[test]
fn malformed_post_is_skipped() {
    let c = build_collection(&vec![
        src("a.md", &dated("A", "2024-01-01")),
        src("bad.md", "no front matter here"),
        src("b.md", &dated("B", "2024-01-02")),
        src("c.md", &dated("C", "2024-01-03")),
    ]);
    assert_eq!(c.len(), 3);
    assert_eq!(c.render_collection().len(), 3);
}

#[test]
fn neighbours_do_not_wrap() {
    let c = build_collection(&vec![
        src("a.md", &dated("A", "2024-01-01")),
        src("b.md", &dated("B", "2024-01-02")),
        src("c.md", &dated("C", "2024-01-03")),
    ]);
    let (p, n) = c.neighbors(0);
    assert!(p.is_none());
    assert_eq!(n.unwrap().title, "B");
    let (p, n) = c.neighbors(1);
    assert_eq!(p.unwrap().title, "A");
    assert_eq!(n.unwrap().title, "C");
    let (p, n) = c.neighbors(2);
    assert_eq!(p.unwrap().title, "B");
    assert!(n.is_none());
    let (p, n) = c.neighbors(7);
    assert!(p.is_none() && n.is_none());
}

#[test]
fn same_date_sorts_by_name_and_undated_come_first() {
    let mut c = PostCollection::new();
    for (name, text) in [
        ("y.md", dated("Y", "2024-05-05")),
        ("x.md", dated("X", "2024-05-05")),
        ("u.md", "---\ntitle: U\n---\nundated".to_string()),
    ] {
        let document = parse_document(&text).unwrap();
        c.insert(Post { name: name.to_string(), document });
    }
    assert_eq!(c.len(), 3);
    assert_eq!(c.get(0).name, "u.md");
    assert_eq!(c.get(1).name, "x.md");
    assert_eq!(c.get(2).name, "y.md");
    assert_eq!(
        c.get(2).document.metadata.date,
        Some(Date { year: 2024, month: 5, day: 5 })
    );
}

#[test]
fn empty_batch_renders_nothing() {
    let c = build_collection(&Vec::new());
    assert_eq!(c.len(), 0);
    assert!(c.render_collection().is_empty());
}

#[test]
fn single_document_renders_without_controls() {
    let page = render_document("---\ntitle: Solo\n---\nSome *text*").unwrap();
    assert!(page.contains("<title>Solo</title>"));
    assert!(page.contains("<em>text</em>"));
    assert!(!page.contains("&larr; Back"));
    assert_eq!(
        render_document("nothing").err(),
        Some(FrontMatterError::MalformedDocument)
    );
}

#[test]
fn same_date_and_name_keep_arrival_order() {
    let mut c = PostCollection::new();
    for title in ["First", "Second"] {
        let document = parse_document(&dated(title, "2024-01-01")).unwrap();
        c.insert(Post { name: "p.md".to_string(), document });
    }
    assert_eq!(c.get(0).document.metadata.title, "First");
    assert_eq!(c.get(1).document.metadata.title, "Second");
}

#[test]
fn input_order_does_not_change_the_result() {
    let a = build_collection(&vec![
        src("b.md", &dated("B", "2024-01-01")),
        src("a.md", &dated("A", "2024-01-01")),
    ]);
    let b = build_collection(&vec![
        src("a.md", &dated("A", "2024-01-01")),
        src("b.md", &dated("B", "2024-01-01")),
    ]);
    assert_eq!(a.render_collection(), b.render_collection());
    assert_eq!(a.get(0).name, "a.md");
}
