use agentool::md::{document_stats, extract_toc};

#[test]
fn toc_skips_fenced_headings() {
    let md = "# Real\n```\n# Fake\n```\n## Two\n";
    let t = extract_toc(md);
    assert_eq!(t.len(), 2);
    assert_eq!(t[0].title, "Real");
    assert_eq!(t[1].title, "Two");
}

#[test]
fn stats_strip_fence_for_characters() {
    let md = "hello world\n```\nmore tokens here\n```\n";
    let s = document_stats(md);
    assert_eq!(
        s.characters,
        "hello world".chars().filter(|c| !c.is_whitespace()).count()
    );
}

#[test]
fn toc_levels_lines_and_closing_hashes() {
    let t = extract_toc("# Title\n\n## Sub ##\n\nBody text.\n");
    assert_eq!(t.len(), 2);
    assert_eq!(t[0].level, 1);
    assert_eq!(t[0].title, "Title");
    assert_eq!(t[0].line, 1);
    assert_eq!(t[1].level, 2);
    assert_eq!(t[1].title, "Sub");
    assert_eq!(t[1].line, 3);
}

#[test]
fn toc_ignores_seven_hashes_and_missing_space() {
    let t = extract_toc("####### too deep\n#nospace\n###### six\n");
    assert_eq!(t.len(), 1);
    assert_eq!(t[0].level, 6);
    assert_eq!(t[0].title, "six");
}

#[test]
fn stats_of_small_document() {
    let s = document_stats("# Title\n\n## Sub\n\nBody text.\n");
    assert_eq!(s.headings, 2);
    assert_eq!(s.lines, 5);
    assert_eq!(s.paragraphs, 3);
    assert_eq!(s.characters, "#Title##SubBodytext.".chars().count());
}

#[test]
fn heading_count_matches_toc_length() {
    let doc = "# A\n```\n# hidden\n```\n~~~\n## also hidden\n~~~\n### B\n";
    assert_eq!(document_stats(doc).headings, extract_toc(doc).len());
}
