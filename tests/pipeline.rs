use my_http_server::cache::ContentCache;
use my_http_server::error::AppError;
use my_http_server::render::{finish_render, md2html, render_markdown_cached, toc_cached};
use my_http_server::request::{classify, markdown_directives, not_found_body, page_response, Action};
use my_http_server::resolve::{EntryKind, Lookup};

const TEMPLATE: &str = "<title>{{path}}</title><body>{{{body}}}</body>";

fn env() -> Vec<(String, String)> {
    Vec::new()
}

#[test]
fn markdown_page_has_heading_and_path_in_title() {
    let page = md2html("# h1", TEMPLATE, &None, &vec!["path:dir/test.md".to_string()], &env()).unwrap();
    assert!(page.contains("<h1>h1</h1>"), "{page}");
    assert!(page.contains("<title>dir/test.md</title>"), "{page}");
}

#[test]
fn caller_directives_override_configured_ones() {
    let cfg = Some(vec!["site:config".to_string(), "path:cfg".to_string()]);
    let page = md2html("x", "{{site}}|{{path}}|{{server-version}}", &cfg, &vec!["path:caller".to_string()], &env()).unwrap();
    assert_eq!(page, "config|caller|0.1.0");
}

#[test]
fn broken_template_is_a_template_error() {
    let r = md2html("x", "{{#if}}", &None, &vec![], &env());
    assert!(matches!(r, Err(AppError::TemplateError(_))), "{r:?}");
}

#[test]
fn rendering_twice_is_byte_identical() {
    let d = vec!["path:a.md".to_string()];
    let a = md2html("# t\n\nsome *text*", TEMPLATE, &None, &d, &env()).unwrap();
    let b = md2html("# t\n\nsome *text*", TEMPLATE, &None, &d, &env()).unwrap();
    assert_eq!(a, b);
}

#[test]
fn cache_on_and_off_give_the_same_page() {
    let d = vec!["path:a.md".to_string()];
    let mut on = ContentCache::new(true, 4);
    let mut off = ContentCache::new(false, 4);
    for _ in 0..2 {
        let x = render_markdown_cached(&mut on, "/r/a.md", 1, 10, 7, "# t", TEMPLATE, &None, &d, &env()).unwrap();
        let y = render_markdown_cached(&mut off, "/r/a.md", 1, 10, 7, "# t", TEMPLATE, &None, &d, &env()).unwrap();
        assert_eq!(x, y);
        assert_eq!(x, md2html("# t", TEMPLATE, &None, &d, &env()).unwrap());
    }
}

#[test]
fn new_mtime_reflects_new_content() {
    let d = vec!["path:f.md".to_string()];
    let mut cache = ContentCache::new(true, 4);
    let a = render_markdown_cached(&mut cache, "/r/f.md", 100, 3, 7, "AAA", TEMPLATE, &None, &d, &env()).unwrap();
    assert!(a.contains("AAA"));
    let b = render_markdown_cached(&mut cache, "/r/f.md", 101, 3, 7, "BBB", TEMPLATE, &None, &d, &env()).unwrap();
    assert!(b.contains("BBB"));
    assert!(!b.contains("AAA"));
}

#[test]
fn different_directives_never_collide() {
    let mut cache = ContentCache::new(true, 4);
    let a = render_markdown_cached(&mut cache, "/r/f.md", 1, 1, 1, "x", "{{v}}", &None, &vec!["v:one".to_string()], &env()).unwrap();
    let b = render_markdown_cached(&mut cache, "/r/f.md", 1, 1, 1, "x", "{{v}}", &None, &vec!["v:two".to_string()], &env()).unwrap();
    assert_eq!(a, "one");
    assert_eq!(b, "two");
}

#[test]
fn zero_capacity_counts_as_one() {
    let mut cache = ContentCache::new(true, 0);
    let d = vec![];
    let a = render_markdown_cached(&mut cache, "/r/a.md", 1, 1, 1, "a", "{{{body}}}", &None, &d, &env()).unwrap();
    let b = render_markdown_cached(&mut cache, "/r/b.md", 1, 1, 1, "b", "{{{body}}}", &None, &d, &env()).unwrap();
    assert!(a.contains('a'));
    assert!(b.contains('b'));
}

#[test]
fn toc_cache_keys_on_directory_mtime() {
    let md = vec!["md".to_string()];
    let first = vec![vec!["a.md".to_string()]];
    let second = vec![vec!["a.md".to_string()], vec!["b.md".to_string()]];
    let mut cache = ContentCache::new(true, 2);
    let t1 = toc_cached(&mut cache, "/r/docs", "/r", 5, &first, &md, &vec![], Some("docs".to_string()));
    assert_eq!(t1, "# docs\n\n- [a.md](docs/a%2Emd)\n");
    // same directory time: the stored TOC is served
    let t2 = toc_cached(&mut cache, "/r/docs", "/r", 5, &second, &md, &vec![], Some("docs".to_string()));
    assert_eq!(t2, t1);
    // a new directory time recomputes
    let t3 = toc_cached(&mut cache, "/r/docs", "/r", 6, &second, &md, &vec![], Some("docs".to_string()));
    assert!(t3.contains("b.md"));
}

#[test]
fn end_to_end_markdown_request() {
    let root = "/srv/public";
    let lookup = Lookup::Found("/srv/public/dir/test.md".to_string(), EntryKind::File);
    let action = classify("dir/test.md", root, false, &lookup);
    let rel = match action {
        Action::ServeMarkdown { rel, .. } => rel,
        other => panic!("unexpected {other:?}"),
    };
    assert_eq!(rel, "dir/test.md");
    let (status, body) = page_response(md2html("# h1", TEMPLATE, &None, &markdown_directives(&rel), &env()));
    assert_eq!(status, 200);
    assert!(body.contains("<h1>h1</h1>"));
    assert!(body.contains("<title>dir/test.md</title>"));
}

#[test]
fn end_to_end_missing_request() {
    let action = classify("nonexistent.txt", "/srv/public", false, &Lookup::Missing);
    assert_eq!(action, Action::NotFound);
    assert_eq!(not_found_body(), "404 Not Found");
}

fn body_only(md: &str) -> Result<String, AppError> {
    md2html(md, "{{{body}}}", &None, &vec![], &env())
}

#[test]
fn test_md2html_preserves_html_structure() {
    let markdown = "# Heading\n\nParagraph with **bold** and *italic*.\n\n- List item 1\n- List item 2\n\n```rust\nfn main() {}\n```\n";
    let html = body_only(markdown).unwrap();
    assert!(html.contains("<h1"));
    assert!(html.contains("bold"));
    assert!(html.contains("<li"));
    assert!(html.contains("<code"));
}

#[test]
fn test_md2html_handles_empty_markdown() {
    let html = md2html("", "<!DOCTYPE html><html><body>{{{body}}}</body></html>", &None, &vec![], &env()).unwrap();
    assert!(html.contains("<!DOCTYPE html>"));
    assert!(html.contains("<body>"));
}

#[test]
fn test_md2html_handles_special_characters() {
    let html = body_only("# Test & < > \"quotes\"").unwrap();
    assert!(html.contains("&amp;"));
    assert!(html.contains("&lt;"));
}

#[test]
fn test_md2html_code_block_syntax_highlighting() {
    assert!(body_only("```rust\nfn hello() {\n    println!(\"world\");\n}\n```").is_ok());
}

#[test]
fn test_md2html_links() {
    assert!(body_only("[Link text](https://example.com)").unwrap().contains("https://example.com"));
}

#[test]
fn test_md2html_images() {
    assert!(body_only("![Alt text](image.png)").unwrap().contains("image.png"));
}

#[test]
fn test_md2html_nested_lists() {
    assert!(body_only("- Item 1\n  - Nested 1.1\n  - Nested 1.2\n- Item 2").is_ok());
}

#[test]
fn test_md2html_blockquotes() {
    assert!(body_only("> This is a quote\n> Multiple lines").unwrap().contains("<blockquote"));
}

#[test]
fn alert_blockquote_becomes_a_callout() {
    let plain = body_only("> just a quote").unwrap();
    let alert = body_only("> [!NOTE]\n> Remember this").unwrap();
    assert!(alert.contains("Remember this"));
    assert_ne!(alert.replace("Remember this", ""), plain.replace("just a quote", ""));
}

#[test]
fn test_md2html_horizontal_rules() {
    assert!(body_only("Above\n\n---\n\nBelow").unwrap().contains("<hr"));
}

#[test]
fn test_md2html_tables() {
    assert!(body_only("| Header 1 | Header 2 |\n|----------|----------|\n| Cell 1   | Cell 2   |").is_ok());
}

#[test]
fn test_md2html_mixed_content() {
    let markdown = "# Main Title\n## Section 1\nRegular paragraph with **formatting**.\n> A quote\n```\ncode\n```\n- List\n- Items\n[Link](url)\n";
    assert!(body_only(markdown).is_ok());
}

#[test]
fn test_template_context_type_inference_integration() {
    let ctx = my_http_server::render::get_context(&None, &env());
    assert!(ctx.get("server-version").is_some());
}

#[test]
fn test_template_context_env_vars_integration() {
    let env = vec![("TEST_INTEGRATION_VAR".to_string(), "integration_value".to_string())];
    let template = "<!DOCTYPE html><html><body>{{testvar}} {{{body}}}</body></html>";
    let html = md2html("# Title", template, &None, &vec!["testvar:env:TEST_INTEGRATION_VAR".to_string()], &env).unwrap();
    assert!(html.contains("integration_value"));
    assert!(!html.contains("{{testvar}}"));
    assert!(!html.contains("testvar:env:TEST_INTEGRATION_VAR"));
}

#[test]
fn test_template_body_injection() {
    let html = md2html("# Test", "<html><body>BEFORE{{{body}}}AFTER</body></html>", &None, &vec![], &env()).unwrap();
    assert!(html.contains("BEFORE"));
    assert!(html.contains("AFTER"));
    assert!(html.contains("<h1"));
}

#[test]
fn test_server_version_in_context() {
    let html = md2html("", "{{server-version}}", &None, &vec![], &env()).unwrap();
    assert!(!html.is_empty());
}

#[test]
fn test_multiple_template_data_entries() {
    let data = vec!["var1:value1".to_string(), "var2:123".to_string(), "var3:true".to_string()];
    let html = md2html("# Test", "<html><body>{{var1}} {{var2}} {{var3}} {{{body}}}</body></html>", &None, &data, &env()).unwrap();
    assert!(html.contains("value1"));
    assert!(html.contains("123"));
    assert!(html.contains("true"));
}

#[test]
fn test_template_data_override() {
    let data = vec!["key:first".to_string(), "key:second".to_string()];
    let html = md2html("# Test", "<html><body>{{key}} {{{body}}}</body></html>", &None, &data, &env()).unwrap();
    assert!(html.contains("second"));
    assert!(!html.contains("first"));
}

#[test]
fn test_md2html_unicode_content() {
    assert!(body_only("# 中文标题\n\n日本語のテキスト").unwrap().contains("中文标题"));
}

#[test]
fn test_md2html_emoji_support() {
    assert!(body_only("Hello :smile: world").unwrap().contains(":smile:"));
}

#[test]
fn test_template_rendering_error() {
    let r = md2html("# x", "{{#each}}", &None, &vec![], &env());
    assert!(r.is_err());
}

#[test]
fn finish_render_serves_hits_and_stores_fresh_pages() {
    let (hit, store) = finish_render(Some("cached".to_string()), "# x", TEMPLATE, &None, &vec![], &env());
    assert_eq!(hit.unwrap(), "cached");
    assert!(store.is_none());
    let (fresh, store) = finish_render(None, "# x", TEMPLATE, &None, &vec![], &env());
    assert_eq!(store, Some(fresh.unwrap()));
    let (failed, store) = finish_render(None, "# x", "{{#if}}", &None, &vec![], &env());
    assert!(failed.is_err());
    assert!(store.is_none());
}
