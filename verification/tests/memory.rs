use agentool::json::{Json, JsonNumber};
use agentool::memory::store::{
    append_block_text, daily_file_path, format_block, is_summary_rel, parse_file_spanned,
    parse_meta_comment, summary_file_path,
};
use agentool::memory::{
    located_blocks, normalize_key, parse_search_request, parse_update_request,
    parse_write_request, plan_read, plan_update, plan_write, rewrite_block, search_blocks,
    written_text, MemoryContext, MemoryFile, MemoryTarget,
};


trait ErrOf<E> {
    fn err_of(self) -> E;
}

impl<T, E> ErrOf<E> for Result<T, E> {
    fn err_of(self) -> E {
        match self {
            Err(e) => e,
            Ok(_) => panic!("expected an error"),
        }
    }
}

fn s(v: &str) -> Json {
    Json::Str(v.to_string())
}

fn obj(members: Vec<(&str, Json)>) -> Json {
    Json::Object(members.into_iter().map(|(k, v)| (k.to_string(), v)).collect())
}

fn strs(v: &[&str]) -> Json {
    Json::Array(v.iter().map(|x| s(x)).collect())
}

/// Write through the verified planning functions into an in-memory set of files.
fn write(files: &mut Vec<MemoryFile>, params: &Json, at: &str) -> Result<String, String> {
    let req = parse_write_request(params).map_err(|e| e.code)?;
    let blocks = located_blocks(files);
    let plan = plan_write(&req.key, req.target, &blocks, "/ws/mem", 2024, 5, 6).map_err(|e| e.code)?;
    let idx = files.iter().position(|f| f.rel == plan.rel);
    let existing = idx.map(|i| files[i].text.clone()).unwrap_or_default();
    let text = written_text(&existing, &req.key, &req.content, &req.tags, at);
    match idx {
        Some(i) => files[i].text = text,
        None => files.push(MemoryFile { rel: plan.rel.clone(), abs_path: plan.path, text }),
    }
    Ok(plan.rel)
}

fn update(files: &mut Vec<MemoryFile>, params: &Json, at: &str) -> Result<(), String> {
    let req = parse_update_request(params).map_err(|e| e.code)?;
    let blocks = located_blocks(files);
    let i = plan_update(&blocks, &req.key).map_err(|e| e.code)?;
    let target = &blocks[i];
    let fi = files.iter().position(|f| f.abs_path == target.abs_path).unwrap();
    let text = rewrite_block(
        &files[fi].text,
        target.start,
        target.end,
        &req.key,
        &req.content,
        &req.tags,
        at,
    )
    .map_err(|e| e.code)?;
    files[fi].text = text;
    Ok(())
}

#[test]
fn formatted_block_layout() {
    let b = format_block("k1", "hello\n", &vec!["a".to_string(), "doc".to_string()], "2024-05-06T10:00:00+00:00");
    assert_eq!(
        b,
        "### k1\n\nhello\n\n<!-- agentool-memory: at=2024-05-06T10:00:00+00:00 tags=a|doc -->\n\n"
    );
    let b2 = format_block("k", "x", &vec![], "T");
    assert_eq!(b2, "### k\n\nx\n\n<!-- agentool-memory: at=T -->\n\n");
}

#[test]
fn append_adds_missing_line_break() {
    assert_eq!(append_block_text("abc", "B"), "abc\nB");
    assert_eq!(append_block_text("abc\n", "B"), "abc\nB");
    assert_eq!(append_block_text("", "B"), "B");
}

#[test]
fn written_block_parses_back() {
    let text = written_text("intro line", "k1", "line one\n\nline two\n", &vec!["x".to_string()], "2024-01-01T00:00:00+00:00");
    let blocks = parse_file_spanned("2024/01/01.md", &text);
    assert_eq!(blocks.len(), 1);
    let (b, start, end) = &blocks[0];
    assert_eq!(b.key, "k1");
    assert_eq!(b.content, "line one\n\nline two");
    assert_eq!(b.tags, vec!["x".to_string()]);
    assert_eq!(b.at, "2024-01-01T00:00:00+00:00");
    assert_eq!(b.file_rel, "2024/01/01.md");
    assert_eq!(*start, "intro line\n".len());
    assert_eq!(*end, text.len() - 1);
}

#[test]
fn appended_blocks_follow_earlier_ones() {
    let t1 = written_text("", "a", "first", &vec![], "2024-01-01T00:00:00+00:00");
    let t2 = written_text(&t1, "b", "second", &vec!["t".to_string()], "2024-01-02T00:00:00+00:00");
    let blocks = parse_file_spanned("MEMORY.md", &t2);
    assert_eq!(blocks.len(), 2);
    assert_eq!(blocks[0].0.key, "a");
    assert_eq!(blocks[0].0.content, "first");
    assert_eq!(blocks[1].0.key, "b");
    assert_eq!(blocks[1].0.content, "second");
    assert_eq!(blocks[1].1, t1.len());
}

#[test]
fn meta_comment_parsing() {
    let line: Vec<char> = "<!-- agentool-memory: at=2020 tags= a | b || c -->".chars().collect();
    let (at, tags) = parse_meta_comment(&line).unwrap();
    assert_eq!(at, "2020");
    assert_eq!(tags, vec!["a".to_string(), "b".to_string(), "c".to_string()]);
    let other: Vec<char> = "just text".chars().collect();
    assert!(parse_meta_comment(&other).is_none());
}

#[test]
fn heading_inside_content_splits_the_block() {
    let text = written_text("", "k", "a\n### b", &vec![], "T");
    let blocks = parse_file_spanned("x.md", &text);
    assert_eq!(blocks.len(), 2);
    assert_eq!(blocks[0].0.key, "k");
    assert_eq!(blocks[1].0.key, "b");
}

#[test]
fn key_normalization() {
    assert_eq!(normalize_key("  k1 ").unwrap(), "k1");
    let e = normalize_key("   ").err_of();
    assert_eq!(e.code, "MEMORY_INVALID_KEY");
    assert_eq!(e.message, "memory key must be non-empty");
}

#[test]
fn file_paths() {
    assert_eq!(daily_file_path("/ws/mem", 2024, 5, 6), "/ws/mem/2024/05/06.md");
    assert_eq!(summary_file_path("/ws/mem"), "/ws/mem/MEMORY.md");
    assert!(is_summary_rel("memory.md"));
    assert!(!is_summary_rel("2024/05/06.md"));
}

#[test]
fn memory_dir_is_joined_to_root() {
    let ctx = MemoryContext::with_memory_dir_relative("/ws".to_string(), false, "mem");
    assert_eq!(ctx.memory_dir_logical().unwrap(), "/ws/mem");
    let d = MemoryContext::new("/ws".to_string(), false);
    assert_eq!(d.memory_dir_logical().unwrap(), "/ws/.agent/memory");
    let bad = MemoryContext::with_memory_dir_relative("/ws".to_string(), false, "  ");
    assert_eq!(bad.memory_dir_logical().err_of().code, "INVALID_PATH");
}

#[test]
fn write_read_search_update_and_summary_priority() {
    let mut files: Vec<MemoryFile> = Vec::new();
    let rel = write(
        &mut files,
        &obj(vec![
            ("key", s("k1")),
            ("content", s("hello 中文 world")),
            ("tags", strs(&["a", "doc"])),
            ("target", s("daily")),
        ]),
        "2024-05-06T10:00:00+00:00",
    )
    .unwrap();
    assert_eq!(rel, "2024/05/06.md");

    let dup = write(
        &mut files,
        &obj(vec![("key", s("k1")), ("content", s("nope")), ("target", s("daily"))]),
        "2024-05-06T10:00:01+00:00",
    )
    .err_of();
    assert_eq!(dup, "MEMORY_KEY_EXISTS");

    let out = plan_read(&located_blocks(&files), "k1").unwrap();
    assert_eq!(out.content, "hello 中文 world");
    assert_eq!(out.kind, "daily");
    assert_eq!(out.tags.len(), 2);

    update(
        &mut files,
        &obj(vec![("key", s("k1")), ("content", s("updated body"))]),
        "2024-05-06T11:00:00+00:00",
    )
    .unwrap();
    let out2 = plan_read(&located_blocks(&files), "k1").unwrap();
    assert_eq!(out2.content, "updated body");

    let req = parse_search_request(&obj(vec![("query", s("updated")), ("limit", Json::Number(JsonNumber::PosInt(5)))])).unwrap();
    let blocks = located_blocks(&files);
    assert_eq!(search_blocks(&blocks, &req).len(), 1);

    write(
        &mut files,
        &obj(vec![("key", s("dup_key")), ("content", s("daily dup")), ("target", s("daily"))]),
        "2024-05-06T12:00:00+00:00",
    )
    .unwrap();
    files.push(MemoryFile {
        rel: "MEMORY.md".to_string(),
        abs_path: "/ws/mem/MEMORY.md".to_string(),
        text: "### dup_key\n\nsummary wins\n\n<!-- agentool-memory: at=2099-01-01T00:00:00+00:00 tags=s -->\n\n".to_string(),
    });
    let dup_read = plan_read(&located_blocks(&files), "dup_key").unwrap();
    assert_eq!(dup_read.kind, "summary");
    assert!(dup_read.content.contains("summary wins"));

    write(
        &mut files,
        &obj(vec![("key", s("sort_a")), ("content", s("needle")), ("target", s("daily"))]),
        "2024-05-06T13:00:00+00:00",
    )
    .unwrap();
    write(
        &mut files,
        &obj(vec![("key", s("sort_b")), ("content", s("needle summary")), ("target", s("summary"))]),
        "2024-05-06T14:00:00+00:00",
    )
    .unwrap();
    let req = parse_search_request(&obj(vec![("query", s("needle")), ("limit", Json::Number(JsonNumber::PosInt(10)))])).unwrap();
    let blocks = located_blocks(&files);
    let hits = search_blocks(&blocks, &req);
    assert_eq!(hits.len(), 2);
    assert!(is_summary_rel(&blocks[hits[0]].block.file_rel));
    assert!(!is_summary_rel(&blocks[hits[1]].block.file_rel));

    let miss = plan_read(&located_blocks(&files), "missing").err_of();
    assert_eq!(miss.code, "MEMORY_KEY_NOT_FOUND");

    let bad = write(
        &mut files,
        &obj(vec![("key", s("x")), ("content", s("y")), ("target", s("nope"))]),
        "T",
    )
    .err_of();
    assert_eq!(bad, "MEMORY_INVALID_TARGET");
}

#[test]
fn rejects_invalid_optional_param_types() {
    let e = parse_write_request(&obj(vec![("key", s("k1")), ("content", s("body")), ("tags", s("ops"))])).err_of();
    assert_eq!(e.code, "INVALID_PATH");
    let e = parse_write_request(&obj(vec![("key", s("k1")), ("content", s("body")), ("target", Json::Bool(true))])).err_of();
    assert_eq!(e.code, "INVALID_PATH");
    let e = parse_search_request(&obj(vec![("query", s("")), ("limit", s("5"))])).err_of();
    assert_eq!(e.code, "INVALID_PATH");
}

#[test]
fn write_refuses_multi_line_key() {
    let files: Vec<MemoryFile> = Vec::new();
    let e = plan_write("a\nb", MemoryTarget::Daily, &located_blocks(&files), "/m", 2024, 1, 2).err_of();
    assert_eq!(e.code, "MEMORY_INVALID_KEY");
    let p = plan_write("a", MemoryTarget::Summary, &located_blocks(&files), "/m", 2024, 1, 2).unwrap();
    assert_eq!(p.rel, "MEMORY.md");
    assert_eq!(p.path, "/m/MEMORY.md");
}

#[test]
fn search_limit_is_clamped_and_query_trimmed() {
    let r = parse_search_request(&obj(vec![("query", s("  Q  ")), ("limit", Json::Number(JsonNumber::PosInt(0)))])).unwrap();
    assert_eq!(r.query, "Q");
    assert_eq!(r.limit, 1);
    let r = parse_search_request(&obj(vec![("query", s("q")), ("limit", Json::Number(JsonNumber::PosInt(1000)))])).unwrap();
    assert_eq!(r.limit, 100);
    let r = parse_search_request(&obj(vec![("query", s("q"))])).unwrap();
    assert_eq!(r.limit, 10);
}

#[test]
fn search_is_case_insensitive_and_filters_tags() {
    let mut files: Vec<MemoryFile> = Vec::new();
    write(&mut files, &obj(vec![("key", s("Alpha")), ("content", s("Body")), ("tags", strs(&["x", "y"]))]), "2024-01-01T00:00:00+00:00").unwrap();
    write(&mut files, &obj(vec![("key", s("beta")), ("content", s("other")), ("tags", strs(&["x"]))]), "2024-01-02T00:00:00+00:00").unwrap();
    let blocks = located_blocks(&files);
    let req = parse_search_request(&obj(vec![("query", s("ALPHA"))])).unwrap();
    let hits = search_blocks(&blocks, &req);
    assert_eq!(hits.len(), 1);
    assert_eq!(blocks[hits[0]].block.key, "Alpha");
    let req = parse_search_request(&obj(vec![("query", s("")), ("tags", strs(&["x"]))])).unwrap();
    let hits = search_blocks(&blocks, &req);
    assert_eq!(hits.len(), 2);
    // newer first
    assert_eq!(blocks[hits[0]].block.key, "beta");
    let req = parse_search_request(&obj(vec![("query", s("")), ("tags", strs(&["y"]))])).unwrap();
    assert_eq!(search_blocks(&blocks, &req).len(), 1);
}

#[test]
fn rewrite_refuses_bad_span() {
    let e = rewrite_block("abc", 2, 5, "k", "c", &vec![], "T").err_of();
    assert_eq!(e.code, "MEMORY_STORAGE_ERROR");
    let t = rewrite_block("abc", 1, 2, "k", "c", &vec![], "T").unwrap();
    assert_eq!(t, "ac\n### k\n\nc\n\n<!-- agentool-memory: at=T -->\n\n");
}

#[test]
fn spans_are_byte_ranges() {
    let t1 = written_text("café ☕", "clé", "naïve", &vec![], "T");
    let t2 = written_text(&t1, "b", "second", &vec![], "T");
    let blocks = parse_file_spanned("x.md", &t2);
    assert_eq!(blocks.len(), 2);
    assert_eq!(blocks[0].0.key, "clé");
    assert_eq!(blocks[0].1, "café ☕\n".len());
    assert_eq!(blocks[1].1, t1.len());
    assert_eq!(&t2[blocks[1].1..blocks[1].2], "### b\n\nsecond\n\n<!-- agentool-memory: at=T -->\n");
    let (start, end) = (blocks[0].1, blocks[0].2);
    assert!(t2[start..end].starts_with("### clé"));
    let mut expected = t2.clone();
    expected.replace_range(start..end, "");
    expected.push_str("### clé\n\nneu\n\n<!-- agentool-memory: at=U -->\n\n");
    let out = rewrite_block(&t2, start, end, "clé", "neu", &vec![], "U").unwrap();
    assert_eq!(out, expected);
    let e = rewrite_block("é", 0, 3, "k", "c", &vec![], "T").err_of();
    assert_eq!(e.code, "MEMORY_STORAGE_ERROR");
    let t = rewrite_block("éa", 2, 3, "k", "c", &vec![], "T").unwrap();
    assert_eq!(t, "é\n### k\n\nc\n\n<!-- agentool-memory: at=T -->\n\n");
}

#[test]
fn parsed_blocks_start_heading_lines() {
    let text = "intro\n###   spaced key  \n\n  body text  \n\n### other\nx\n";
    let blocks = parse_file_spanned("f.md", text);
    assert_eq!(blocks.len(), 2);
    assert_eq!(blocks[0].0.key, "spaced key");
    assert_eq!(blocks[0].0.content, "body text");
    assert_eq!(blocks[0].1, "intro\n".len());
    assert!(text[blocks[0].1..blocks[0].2].starts_with("### "));
    assert!(blocks[0].2 <= blocks[1].1);
    assert!(text[blocks[1].1..blocks[1].2].starts_with("### other"));
    assert_eq!(&text[blocks[0].1 - 1..blocks[0].1], "\n");
}

#[test]
fn equally_late_blocks_pick_the_last() {
    let stamp = "<!-- agentool-memory: at=2024-01-01T00:00:00+00:00 -->";
    let text = format!("### k\n\nfirst\n\n{stamp}\n\n### k\n\nsecond\n\n{stamp}\n\n");
    let files = vec![MemoryFile { rel: "2024/01/01.md".to_string(), abs_path: "/m/2024/01/01.md".to_string(), text }];
    let out = plan_read(&located_blocks(&files), "k").unwrap();
    assert_eq!(out.content, "second");
}

#[test]
fn update_of_missing_key_is_refused() {
    let files: Vec<MemoryFile> = Vec::new();
    let e = plan_update(&located_blocks(&files), "nope").err_of();
    assert_eq!(e.code, "MEMORY_KEY_NOT_FOUND");
    assert_eq!(e.message, "no memory block for key `nope`; use memory_write to create");
}
