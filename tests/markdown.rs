use pictd::markdown::{get_unfilled_placeholders, parse_markdown, ImagePlaceholder};
use std::path::Path;

fn joined(dir: &str, rel: &str) -> String {
    Path::new(dir).join(rel).to_string_lossy().into_owned()
}

fn parse_none_present(content: &str, dir: &str) -> Vec<ImagePlaceholder> {
    parse_markdown(content, dir, |_p: &String| false)
}

#[test]
fn test_parse_markdown() {
    let content = r#"# Test Document

![Hero Image](images/hero.png)

Some text here.

![Screenshot](screenshots/step1.png)

![External](https://example.com/image.png)
"#;
    let placeholders = parse_none_present(content, "/tmp/doc");
    assert_eq!(placeholders.len(), 2);
    assert_eq!(placeholders[0].relative_path, "images/hero.png");
    assert_eq!(placeholders[0].alt_text, "Hero Image");
    assert_eq!(placeholders[1].relative_path, "screenshots/step1.png");
}

#[test]
fn line_numbers_and_remote_targets() {
    let content = "intro\n![one](a.png) and ![two](b/c.png)\n\n![web](http://x/y.png)\n![data](data:image/png;base64,AAA)\n![s](https://z/w.png) ![three](d.png)";
    let ps = parse_none_present(content, "/docs");
    assert_eq!(ps.len(), 3);
    assert_eq!(ps[0].line_number, 2);
    assert_eq!(ps[1].line_number, 2);
    assert_eq!(ps[2].line_number, 6);
    assert_eq!(ps[0].alt_text, "one");
    assert_eq!(ps[1].relative_path, "b/c.png");
    assert_eq!(ps[2].relative_path, "d.png");
    assert_eq!(ps[1].absolute_path, joined("/docs", "b/c.png"));
}

#[test]
fn permissive_grammar() {
    // The alt text may hold `[` and the target `(`; an empty target is no link.
    let ps = parse_none_present("![a [b](c(d).png) ![e]() ![](f.png)\r\n![g](h.png", "/r");
    assert_eq!(ps.len(), 2);
    assert_eq!(ps[0].alt_text, "a [b");
    assert_eq!(ps[0].relative_path, "c(d");
    assert_eq!(ps[1].alt_text, "");
    assert_eq!(ps[1].relative_path, "f.png");
    assert_eq!(ps[1].line_number, 1);
}

#[test]
fn empty_document() {
    assert!(parse_none_present("", "/r").is_empty());
    assert!(parse_none_present("no images\nhere", "/r").is_empty());
}

#[test]
fn unfilled_scenario_with_one_present() {
    let content = "![a](x/1.png)\n![b](https://h/2.png)\n![c](x/3.png)";
    let present = joined("/work", "x/1.png");
    let all = parse_markdown(content, "/work", |p: &String| *p == present);
    assert_eq!(all.len(), 2);
    assert!(all[0].exists);
    assert!(!all[1].exists);
    let unfilled = get_unfilled_placeholders(all);
    assert_eq!(unfilled.len(), 1);
    assert_eq!(unfilled[0].relative_path, "x/3.png");
    assert_eq!(unfilled[0].line_number, 3);
    assert_eq!(unfilled[0].absolute_path, joined("/work", "x/3.png"));
}

#[test]
fn unfilled_keeps_order_and_drops_existing() {
    let content = "![1](p1.png)\n![2](p2.png)\n![3](p3.png)\n![4](p4.png)";
    let all = parse_markdown(content, "/m", |p: &String| p.ends_with("p2.png") || p.ends_with("p4.png"));
    let unfilled = get_unfilled_placeholders(all);
    assert_eq!(unfilled.len(), 2);
    assert_eq!(unfilled[0].relative_path, "p1.png");
    assert_eq!(unfilled[1].relative_path, "p3.png");
    assert!(unfilled.iter().all(|p| !p.exists));
}
