use my_http_server::error::IoKind;
use my_http_server::request::{
    classify, is_internal_file, is_markdown_request, markdown_directives, not_found_body, page_response,
    toc_directives, Action,
};
use my_http_server::error::AppError;
use my_http_server::resolve::{relative_path, within_root, EntryKind, Lookup};

#[test]
fn test_markdown_file_detection() {
    assert!(is_markdown_request("test.md"));
    assert!(!is_markdown_request("test.txt"));
}

#[test]
fn test_path_extension_edge_cases() {
    assert!(!is_markdown_request("filename"));
    assert!(!is_markdown_request(".hidden"));
    assert!(!is_markdown_request(".md"));
    assert!(!is_markdown_request("file.tar.gz"));
    assert!(is_markdown_request("docs/file.tar.md"));
}

#[test]
fn request_test_path_traversal_detection() {
    assert!(within_root("/public/docs/file.md", "/public"));
    assert!(!within_root("/etc/passwd", "/public"));
}

#[test]
fn test_strip_prefix_behavior() {
    assert_eq!(relative_path("/public/docs/readme.md", "/public"), "docs/readme.md");
}

#[test]
fn test_strip_prefix_error_case() {
    assert!(!within_root("/other/file.txt", "/public"));
    assert_eq!(relative_path("/other/file.txt", "/public"), "/other/file.txt");
}

#[test]
fn test_toc_label_formatting() {
    let dir = Lookup::Found("/public/test/directory".to_string(), EntryKind::Directory);
    assert_eq!(
        classify("test/directory", "/public", false, &dir),
        Action::ServeToc { dir: "/public/test/directory".to_string(), label: "test/directory".to_string() }
    );
    let root = Lookup::Found("/public".to_string(), EntryKind::Directory);
    assert_eq!(
        classify("", "/public", false, &root),
        Action::ServeToc { dir: "/public".to_string(), label: "index".to_string() }
    );
}

#[test]
fn root_with_index_file_serves_it() {
    let root = Lookup::Found("/public".to_string(), EntryKind::Directory);
    assert_eq!(classify("/", "/public", true, &root), Action::ServeIndexFile);
    assert_eq!(classify("", "/public", true, &root), Action::ServeIndexFile);
}

#[test]
fn markdown_static_missing_and_special_files() {
    let md = Lookup::Found("/public/dir/test.md".to_string(), EntryKind::File);
    assert_eq!(
        classify("dir/test.md", "/public", false, &md),
        Action::ServeMarkdown { path: "/public/dir/test.md".to_string(), rel: "dir/test.md".to_string() }
    );
    let png = Lookup::Found("/public/logo.png".to_string(), EntryKind::File);
    assert_eq!(
        classify("logo.png", "/public", true, &png),
        Action::ServeStatic { path: "/public/logo.png".to_string() }
    );
    assert_eq!(classify("nonexistent.txt", "/public", false, &Lookup::Missing), Action::NotFound);
    let fifo = Lookup::Found("/public/pipe".to_string(), EntryKind::Other);
    assert_eq!(
        classify("pipe", "/public", false, &fifo),
        Action::Fail { status: 500, message: "pipe: not file and dir".to_string() }
    );
    let denied = Lookup::Failed(IoKind::PermissionDenied, "denied".to_string());
    assert_eq!(
        classify("secret", "/public", false, &denied),
        Action::Fail { status: 403, message: "denied".to_string() }
    );
    let outside = Lookup::Found("/etc/passwd".to_string(), EntryKind::File);
    assert!(matches!(classify("../../etc/passwd", "/public", false, &outside), Action::Fail { status: 403, .. }));
}

#[test]
fn directives_and_responses() {
    assert_eq!(markdown_directives("dir/test.md"), vec!["path:dir/test.md".to_string()]);
    assert_eq!(toc_directives("index"), vec!["path:toc:index".to_string()]);
    assert_eq!(page_response(Ok("<p>x</p>".to_string())), (200, "<p>x</p>".to_string()));
    assert_eq!(
        page_response(Err(AppError::RenderError("bad".to_string()))),
        (500, "Render error: bad".to_string())
    );
    assert_eq!(not_found_body(), "404 Not Found");
}

#[test]
fn internal_files_are_flagged() {
    assert!(is_internal_file("cofg.yaml"));
    assert!(is_internal_file("sub/.gitignore"));
    assert!(is_internal_file("Cargo.toml"));
    assert!(!is_internal_file("readme.md"));
}

#[test]
fn error_status_codes() {
    assert_eq!(AppError::Io(IoKind::NotFound, String::new()).status_code(), 404);
    assert_eq!(AppError::Io(IoKind::PermissionDenied, String::new()).status_code(), 403);
    assert_eq!(AppError::Io(IoKind::InvalidInput, String::new()).status_code(), 500);
    assert_eq!(AppError::Io(IoKind::Other, String::new()).status_code(), 500);
    assert_eq!(AppError::TemplateError("t".to_string()).status_code(), 500);
}

#[test]
fn test_template_error_display() {
    let message = AppError::TemplateError("template not found".to_string()).to_string();
    assert!(message.contains("Template error"));
}

#[test]
fn test_other_error() {
    assert_eq!(AppError::OtherError("x".to_string()).to_string(), "Other error: x");
    assert_eq!(AppError::MarkdownParseError("m".to_string()).to_string(), "Markdown parse error: m");
    assert_eq!(AppError::Io(IoKind::NotFound, "gone".to_string()).to_string(), "IO error: gone");
}

#[test]
fn test_percent_encoding_in_path() {
    let encoded = my_http_server::toc::percent_encode_path("hello world");
    assert_eq!(encoded, "hello%20world");
    let decoded = percent_encoding::percent_decode_str(&encoded).decode_utf8().unwrap();
    assert_eq!(decoded, "hello world");
}

#[test]
fn dot_dot_outside_root_is_refused_even_with_index() {
    let outside = Lookup::Found("/srv".to_string(), EntryKind::Directory);
    assert!(matches!(classify("..", "/srv/public", true, &outside), Action::Fail { status: 403, .. }));
    let here = Lookup::Found("/srv/public".to_string(), EntryKind::Directory);
    assert_eq!(classify(".", "/srv/public", true, &here), Action::ServeIndexFile);
}

#[test]
fn directory_named_three_dots_gets_its_toc() {
    let dots = Lookup::Found("/srv/public/...".to_string(), EntryKind::Directory);
    assert_eq!(
        classify("...", "/srv/public", true, &dots),
        Action::ServeToc { dir: "/srv/public/...".to_string(), label: "...".to_string() }
    );
}

#[test]
fn trailing_slash_keeps_markdown() {
    assert!(is_markdown_request("x.md/"));
    assert!(is_markdown_request("docs/x.md//"));
    let md = Lookup::Found("/srv/public/x.md".to_string(), EntryKind::File);
    assert!(matches!(classify("x.md/", "/srv/public", false, &md), Action::ServeMarkdown { .. }));
}
