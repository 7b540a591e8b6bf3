use my_http_server::config::Cofg;
use my_http_server::toc::{generate_toc, is_selected, percent_encode_path};

fn entries(paths: &[&str]) -> Vec<Vec<String>> {
    paths.iter().map(|p| p.split('/').map(|s| s.to_string()).collect()).collect()
}

fn md_only() -> Vec<String> {
    vec!["md".to_string()]
}

#[test]
fn test_get_toc_handles_empty_directory() {
    let config = Cofg::default();
    let toc = generate_toc("", &Vec::new(), &config.toc.ext, &config.toc.ig, Some("Empty TOC".to_string()));
    assert!(toc.contains("# Empty TOC"));
    assert!(!toc.contains("- ["));
}

#[test]
fn test_get_toc_single_file() {
    let toc = generate_toc("", &entries(&["readme.md"]), &md_only(), &vec![], Some("Test TOC".to_string()));
    assert!(toc.contains("# Test TOC"));
    assert!(toc.contains("readme.md"));
    assert_eq!(toc, "# Test TOC\n\n- [readme.md](readme%2Emd)\n");
}

#[test]
fn test_get_toc_multi_level_directories() {
    let toc = generate_toc(
        "",
        &entries(&["top.md", "level1/middle.md", "level1/level2/deep.md"]),
        &md_only(),
        &vec![],
        Some("Multi-Level".to_string()),
    );
    assert_eq!(
        toc,
        "# Multi-Level\n\n- [level1](level1)\n    - [level2](level1/level2)\n        - [deep.md](level1/level2/deep%2Emd)\n    - [middle.md](level1/middle%2Emd)\n- [top.md](top%2Emd)\n"
    );
}

#[test]
fn test_get_toc_extension_filtering() {
    let toc = generate_toc("", &entries(&["readme.md", "image.png", "notes.txt"]), &md_only(), &vec![], None);
    assert!(toc.contains("readme.md"));
    assert!(!toc.contains("image.png"));
    assert!(!toc.contains("notes.txt"));
}

#[test]
fn test_get_toc_multiple_extensions() {
    let exts = vec!["md".to_string(), "txt".to_string()];
    let toc = generate_toc("", &entries(&["readme.md", "notes.txt", "image.png"]), &exts, &vec![], None);
    assert!(toc.contains("readme.md"));
    assert!(toc.contains("notes.txt"));
    assert!(!toc.contains("image.png"));
}

#[test]
fn test_get_toc_ignore_pattern() {
    let ig = vec!["drafts".to_string()];
    let toc = generate_toc("", &entries(&["readme.md", "drafts/wip.md"]), &md_only(), &ig, None);
    assert!(toc.contains("readme.md"));
    assert!(!toc.contains("wip"));
    assert!(!is_selected(&entries(&["drafts/wip.md"])[0], &md_only(), &ig));
}

#[test]
fn test_get_toc_percent_encoding_spaces() {
    let toc = generate_toc("", &entries(&["file with spaces.md"]), &md_only(), &vec![], None);
    assert!(toc.contains("file") && toc.contains("spaces"));
    assert!(toc.contains("(file%20with%20spaces%2Emd)"));
}

#[test]
fn test_get_toc_special_characters() {
    let toc = generate_toc("", &entries(&["file-name.md", "file_name.md"]), &md_only(), &vec![], None);
    assert!(toc.contains("file-name.md"));
    assert!(toc.contains("file_name.md"));
}

#[test]
fn test_get_toc_unicode_filenames() {
    let toc = generate_toc("", &entries(&["测试.md", "テスト.md"]), &md_only(), &vec![], None);
    assert!(toc.len() > 0);
    assert!(toc.contains("[测试.md](%E6%B5%8B%E8%AF%95%2Emd)"));
}

#[test]
fn test_get_toc_mixed_files_and_directories() {
    let toc = generate_toc("", &entries(&["file1.md", "subdir/file2.md", "file3.md"]), &md_only(), &vec![], None);
    assert!(toc.contains("file1.md"));
    assert!(toc.contains("file3.md"));
    assert!(toc.starts_with("# toc\n\n"));
}

#[test]
fn toc_is_alphabetical_whatever_the_walk_order() {
    let toc = generate_toc("", &entries(&["b.md", "a.md", "c.md"]), &md_only(), &vec![], None);
    assert_eq!(toc, "# toc\n\n- [a.md](a%2Emd)\n- [b.md](b%2Emd)\n- [c.md](c%2Emd)\n");
    let again = generate_toc("", &entries(&["c.md", "a.md", "b.md", "a.md"]), &md_only(), &vec![], None);
    assert_eq!(toc, again);
}

#[test]
fn toc_links_of_a_subdirectory_carry_its_path() {
    let toc = generate_toc("docs", &entries(&["x.md"]), &md_only(), &vec![], Some("docs".to_string()));
    assert_eq!(toc, "# docs\n\n- [x.md](docs/x%2Emd)\n");
}

#[test]
fn toc_link_decodes_back_to_the_path() {
    let toc = generate_toc("", &entries(&["dir/a b.md"]), &md_only(), &vec![], None);
    assert!(toc.contains("    - [a b.md](dir/a%20b%2Emd)\n"));
    let start = toc.find("](dir/").unwrap() + 2;
    let end = toc[start..].find(')').unwrap() + start;
    let link = &toc[start..end];
    let decoded = percent_encoding::percent_decode_str(link).decode_utf8().unwrap();
    assert_eq!(decoded, "dir/a b.md");
}

#[test]
fn percent_encoding_keeps_only_alphanumerics_and_slashes() {
    assert_eq!(percent_encode_path("a/b c.d"), "a/b%20c%2Ed");
    assert_eq!(percent_encode_path("AZaz09"), "AZaz09");
    assert_eq!(percent_encode_path("é"), "%C3%A9");
    assert_eq!(percent_encode_path("%"), "%25");
}

#[test]
fn backslashes_become_slashes_in_links() {
    let toc = generate_toc("", &entries(&["a\\b.md"]), &md_only(), &vec![], None);
    assert_eq!(toc, "# toc\n\n- [a\\b.md](a/b%2Emd)\n");
}

#[test]
fn glob_pattern_lists_extensions() {
    let exts = vec!["md".to_string(), "txt".to_string()];
    assert_eq!(my_http_server::toc::toc_glob_pattern(&exts), "**/*.{md,txt}");
}
