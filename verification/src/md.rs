//! Markdown analysis: ATX heading outline and document statistics.
//!
//! Lines are read as `str::lines` reads them. A line whose start, after leading white
//! space, is three backticks or three tildes opens or closes a fenced block; fence lines
//! and everything inside a fenced block are ignored.
use vstd::prelude::*;

use crate::pattern::{atx_captures, atx_heading_pattern, atx_matches, atx_rest, atx_title_len,
    leading_hashes, opt_views, Pattern};
use crate::text::{
    chars_of, char_is_whitespace, has_prefix, is_blank, is_blank_slice, is_white_space, lines,
    split_lines, starts_with, string_of, trim, trim_end, trim_end_vec, trim_start, trim_start_vec,
    trim_vec, views,
};
use crate::tool::ToolError;

verus! {

/// One entry of a table of contents.
pub struct TocItem {
    /// Heading level, 1 to 6.
    pub level: u8,
    /// Heading text without the `#` markers.
    pub title: String,
    /// 1-based line number.
    pub line: usize,
}

/// Size measures of a Markdown document.
pub struct DocumentStats {
    /// Non-white-space characters outside fenced blocks.
    pub characters: usize,
    /// Blank-line separated paragraphs outside fenced blocks.
    pub paragraphs: usize,
    /// ATX headings outside fenced blocks.
    pub headings: usize,
    /// Lines of the whole document.
    pub lines: usize,
}

/// Error codes of the markdown tools.
#[derive(Clone, Copy, PartialEq, Eq, Debug)]
pub enum MdErrorCode {
    InvalidPath,
}

impl MdErrorCode {
    /// The stable code string.
    pub fn as_str(self) -> (r: &'static str)
        ensures
            r@ == md_code_text(self),
    {
        match self {
            MdErrorCode::InvalidPath => {
                proof {
                    reveal_strlit("INVALID_PATH");
                }
                "INVALID_PATH"
            },
        }
    }
}

/// The stable code string of each markdown error code.
pub open spec fn md_code_text(c: MdErrorCode) -> Seq<char> {
    match c {
        MdErrorCode::InvalidPath => seq!['I', 'N', 'V', 'A', 'L', 'I', 'D', '_', 'P', 'A', 'T', 'H'],
    }
}

/// A tool error with a markdown error code.
pub fn tool_error(code: MdErrorCode, message: String) -> (e: ToolError)
    ensures
        e.code@ == md_code_text(code),
        e.message@ == message@,
{
    ToolError { code: code.as_str().to_string(), message }
}

/// Three backticks.
pub open spec fn backtick_fence() -> Seq<char> {
    seq!['`', '`', '`']
}

/// Three tildes.
pub open spec fn tilde_fence() -> Seq<char> {
    seq!['~', '~', '~']
}

/// A line, already stripped of leading white space, opens or closes a fenced block.
pub open spec fn is_fence_line(trimmed_start: Seq<char>) -> bool {
    has_prefix(trimmed_start, backtick_fence()) || has_prefix(trimmed_start, tilde_fence())
}

/// Level and title of an ATX heading line `t` (without trailing white space), if it is one.
pub open spec fn atx_heading(t: Seq<char>) -> Option<(int, Seq<char>)> {
    if atx_matches(t) {
        let rest = atx_rest(t);
        Some((leading_hashes(t) as int, trim(rest.take(atx_title_len(rest)))))
    } else {
        None
    }
}

/// Reading the lines `ls` in order: whether a fenced block is open, and the headings
/// found outside fenced blocks as (level, title, 1-based line number).
pub open spec fn toc_scan(ls: Seq<Seq<char>>) -> (bool, Seq<(int, Seq<char>, int)>)
    decreases ls.len(),
{
    if ls.len() == 0 {
        (false, seq![])
    } else {
        let (in_fence, items) = toc_scan(ls.drop_last());
        let line = ls.last();
        if is_fence_line(trim_start(line)) {
            (!in_fence, items)
        } else if in_fence {
            (in_fence, items)
        } else {
            match atx_heading(trim_end(line)) {
                Some((level, title)) => (in_fence, items.push((level, title, ls.len() as int))),
                None => (in_fence, items),
            }
        }
    }
}

/// The table of contents of `content`.
pub open spec fn toc(content: Seq<char>) -> Seq<(int, Seq<char>, int)> {
    toc_scan(lines(content)).1
}

/// The abstract value of a list of TOC items.
pub open spec fn toc_view(items: Seq<TocItem>) -> Seq<(int, Seq<char>, int)> {
    items.map_values(|it: TocItem| (it.level as int, it.title@, it.line as int))
}

/// Reading the lines `ls` in order: whether a fenced block is open, and how many lines
/// outside fenced blocks are ATX headings.
pub open spec fn heading_scan(ls: Seq<Seq<char>>) -> (bool, nat)
    decreases ls.len(),
{
    if ls.len() == 0 {
        (false, 0)
    } else {
        let (in_fence, n) = heading_scan(ls.drop_last());
        let line = ls.last();
        if is_fence_line(trim_start(line)) {
            (!in_fence, n)
        } else if !in_fence && atx_captures(trim_end(line)) is Some {
            (in_fence, n + 1)
        } else {
            (in_fence, n)
        }
    }
}

/// Reading the lines `ls` in order: whether a fenced block is open, and the lines outside
/// fenced blocks joined by `'\n'` (a separator is added only once the text is non-empty).
pub open spec fn strip_scan(ls: Seq<Seq<char>>) -> (bool, Seq<char>)
    decreases ls.len(),
{
    if ls.len() == 0 {
        (false, seq![])
    } else {
        let (in_fence, buf) = strip_scan(ls.drop_last());
        let line = ls.last();
        if is_fence_line(trim_start(line)) {
            (!in_fence, buf)
        } else if in_fence {
            (in_fence, buf)
        } else if buf.len() > 0 {
            (in_fence, buf.push('\n') + line)
        } else {
            (in_fence, buf + line)
        }
    }
}

/// `content` without its fence lines and fenced blocks.
pub open spec fn strip_fenced(content: Seq<char>) -> Seq<char> {
    strip_scan(lines(content)).1
}

/// Number of characters of `s` that are not white space.
pub open spec fn non_white_count(s: Seq<char>) -> nat
    decreases s.len(),
{
    if s.len() == 0 {
        0
    } else {
        non_white_count(s.drop_last()) + if is_white_space(s.last()) {
            0nat
        } else {
            1nat
        }
    }
}

/// Reading `s` from left to right and cutting at each `"\n\n"` (leftmost first, without
/// overlap, as `str::split("\n\n")` does): how many finished pieces are not blank, and the
/// unfinished last piece.
pub open spec fn paragraph_scan(s: Seq<char>) -> (nat, Seq<char>)
    decreases s.len(),
{
    if s.len() == 0 {
        (0, seq![])
    } else {
        let (n, cur) = paragraph_scan(s.drop_last());
        if s.last() == '\n' && cur.len() > 0 && cur.last() == '\n' {
            (n + if is_blank(cur.drop_last()) {
                0nat
            } else {
                1nat
            }, seq![])
        } else {
            (n, cur.push(s.last()))
        }
    }
}

/// Number of pieces of `s.split("\n\n")` that are not blank.
pub open spec fn paragraph_count(s: Seq<char>) -> nat {
    let (n, cur) = paragraph_scan(s);
    n + if is_blank(cur) {
        0nat
    } else {
        1nat
    }
}

/// `s` holds no two line breaks in a row.
pub open spec fn no_blank_separator(s: Seq<char>) -> bool {
    forall|i: int| 0 <= i && i + 1 < s.len() ==> !(#[trigger] s[i] == '\n' && s[i + 1] == '\n')
}

/// Scanning text without two line breaks in a row finishes no piece.
proof fn lemma_scan_single_piece(s: Seq<char>)
    requires
        no_blank_separator(s),
    ensures
        paragraph_scan(s) == (0nat, s),
    decreases s.len(),
{
    if s.len() > 0 {
        let d = s.drop_last();
        assert(no_blank_separator(d)) by {
            assert forall|i: int| 0 <= i && i + 1 < d.len() implies !(#[trigger] d[i] == '\n' && d[i + 1]
                == '\n') by {
                assert(s[i] == d[i] && s[i + 1] == d[i + 1]);
            }
        }
        lemma_scan_single_piece(d);
        if d.len() > 0 && s.last() == '\n' {
            assert(!(s[d.len() - 1] == '\n' && s[d.len() as int] == '\n'));
            assert(d.last() == s[d.len() - 1]);
        }
        assert(d.push(s.last()) =~= s);
    }
}

/// Scanning on after a finished piece counts the rest as if read on its own.
proof fn lemma_scan_after_piece(x: Seq<char>, q: Seq<char>)
    requires
        paragraph_scan(x).1 == Seq::<char>::empty(),
    ensures
        paragraph_scan(x + q) == (paragraph_scan(x).0 + paragraph_scan(q).0, paragraph_scan(q).1),
    decreases q.len(),
{
    if q.len() == 0 {
        assert(x + q =~= x);
    } else {
        lemma_scan_after_piece(x, q.drop_last());
        assert((x + q).drop_last() =~= x + q.drop_last());
        assert((x + q).last() == q.last());
    }
}

/// Law: a text without a blank-line separator (two line breaks in a row) is one paragraph,
/// or none when it is blank; however many lines it has.
pub proof fn law_text_without_separator_is_one_paragraph(s: Seq<char>)
    requires
        no_blank_separator(s),
    ensures
        paragraph_count(s) == if is_blank(s) {
            0nat
        } else {
            1nat
        },
{
    lemma_scan_single_piece(s);
}

/// Law: the paragraphs of a text are its first piece, up to the first `"\n\n"`, counted when
/// not blank, and then the paragraphs of the rest, as `str::split("\n\n")` cuts it: the
/// first piece holds no separator and does not end with a line break.
pub proof fn law_paragraphs_split_at_first_separator(p: Seq<char>, q: Seq<char>)
    requires
        no_blank_separator(p),
        p.len() == 0 || p.last() != '\n',
    ensures
        paragraph_count(p + seq!['\n', '\n'] + q) == (if is_blank(p) {
            0nat
        } else {
            1nat
        }) + paragraph_count(q),
{
    lemma_scan_single_piece(p);
    let p1 = p.push('\n');
    let p2 = p1.push('\n');
    assert(p1.drop_last() =~= p);
    assert(p2.drop_last() =~= p1);
    assert(paragraph_scan(p1) == (0nat, p1));
    assert(p1.drop_last() == p);
    assert(paragraph_scan(p2).1 == Seq::<char>::empty());
    assert(paragraph_scan(p2).0 == if is_blank(p) {
        0nat
    } else {
        1nat
    });
    assert(p + seq!['\n', '\n'] + q =~= p2 + q);
    lemma_scan_after_piece(p2, q);
}

/// The document statistics of `content` as (characters, paragraphs, headings, lines).
pub open spec fn stats(content: Seq<char>) -> (nat, nat, nat, nat) {
    let body = strip_fenced(content);
    (
        non_white_count(body),
        paragraph_count(body),
        heading_scan(lines(content)).1,
        lines(content).len(),
    )
}

/// Whether a line stripped of leading white space opens or closes a fenced block.
pub fn toggles_fence(trimmed_start: &[char]) -> (r: bool)
    ensures
        r == is_fence_line(trimmed_start@),
{
    let bt: [char; 3] = ['`', '`', '`'];
    let td: [char; 3] = ['~', '~', '~'];
    let a = starts_with(trimmed_start, bt.as_slice());
    let b = starts_with(trimmed_start, td.as_slice());
    assert(bt@ == backtick_fence());
    assert(td@ == tilde_fence());
    a || b
}

/// Compile the ATX heading pattern.
fn atx_regex() -> (p: Option<Pattern>)
    ensures
        p matches Some(p) ==> p.source() == atx_heading_pattern() && !p.ignores_case(),
        p is Some,
{
    let src = "^(#{1,6})\\s+(.+?)\\s*#*\\s*$";
    proof {
        reveal_strlit("^(#{1,6})\\s+(.+?)\\s*#*\\s*$");
    }
    assert(src@ == atx_heading_pattern());
    match Pattern::compile(src, false) {
        Ok(p) => Some(p),
        Err(_) => None,
    }
}

/// Level and title of an ATX heading line without trailing white space.
fn heading_of(re: &Pattern, t: &[char]) -> (r: Option<(u8, String)>)
    requires
        re.source() == atx_heading_pattern(),
        !re.ignores_case(),
        trim_end(t@) == t@,
        !t@.contains('\n'),
    ensures
        match r {
            Some((level, title)) => atx_heading(t@) == Some((level as int, title@)),
            None => atx_heading(t@) is None,
        },
{
    let line = string_of(t);
    match re.captures(line.as_str()) {
        None => None,
        Some(groups) => {
            assert(atx_captures(t@) == Some(opt_views(groups@)));
            assert(atx_matches(t@));
            assert(opt_views(groups@).len() == groups@.len());
            assert(groups@.len() == 3);
            let hashes = match &groups[1] {
                Some(h) => chars_of(h.as_str()),
                None => Vec::new(),
            };
            let title_raw = match &groups[2] {
                Some(s) => chars_of(s.as_str()),
                None => Vec::new(),
            };
            assert(opt_views(groups@)[1] == Some(t@.take(leading_hashes(t@) as int)));
            assert(hashes@ == t@.take(leading_hashes(t@) as int));
            let level = hashes.len();
            if 1 <= level && level <= 6 {
                let title = string_of(trim_vec(title_raw.as_slice()).as_slice());
                Some((level as u8, title))
            } else {
                None
            }
        },
    }
}

/// ATX headings outside fenced code blocks, with 1-based line numbers.
pub fn extract_toc(content: &str) -> (r: Vec<TocItem>)
    ensures
        toc_view(r@) == toc(content@),
{
    let re_opt = atx_regex();
    let re = match re_opt {
        Some(p) => p,
        None => {
            return Vec::new();
        },
    };
    let chars = chars_of(content);
    let ls = split_lines(chars.as_slice());
    let ghost lv = views(ls@);
    let mut in_fence = false;
    let mut out: Vec<TocItem> = Vec::new();
    let mut idx: usize = 0;
    while idx < ls.len()
        invariant
            idx <= ls@.len(),
            lv == views(ls@),
            lv == lines(content@),
            re.source() == atx_heading_pattern(),
            !re.ignores_case(),
            (in_fence, toc_view(out@)) == toc_scan(lv.take(idx as int)),
        decreases ls@.len() - idx,
    {
        let line = ls[idx].as_slice();
        assert(lv.take(idx + 1).drop_last() == lv.take(idx as int));
        assert(lv.take(idx + 1).last() == line@);
        let ts = trim_start_vec(line);
        if toggles_fence(ts.as_slice()) {
            in_fence = !in_fence;
        } else if !in_fence {
            let t = trim_end_vec(line);
            proof {
                lemma_trim_end_idempotent(line@);
                lemma_line_lacks_newline(content@, idx as int);
            }
            match heading_of(&re, t.as_slice()) {
                Some((level, title)) => {
                    let ghost old_out = toc_view(out@);
                    out.push(TocItem { level, title, line: idx + 1 });
                    assert(toc_view(out@) =~= old_out.push((level as int, title@, idx + 1)));
                },
                None => {},
            }
        }
        idx = idx + 1;
    }
    assert(lv.take(ls@.len() as int) == lv);
    out
}

/// A line of a text, trimmed at its end, holds no `'\n'`.
proof fn lemma_line_lacks_newline(content: Seq<char>, i: int)
    requires
        0 <= i < lines(content).len(),
    ensures
        !trim_end(lines(content)[i]).contains('\n'),
{
    let x = lines(content)[i];
    crate::text::lemma_lines_lack_newline(content);
    crate::text::lemma_trim_end_blank(x);
    if trim_end(x).contains('\n') {
        let k = choose|k: int| 0 <= k < trim_end(x).len() && trim_end(x)[k] == '\n';
        assert(x[k] == '\n');
    }
}

/// Trimming trailing white space twice changes nothing more.
pub proof fn lemma_trim_end_idempotent(s: Seq<char>)
    ensures
        trim_end(trim_end(s)) == trim_end(s),
    decreases s.len(),
{
    if s.len() > 0 && is_white_space(s.last()) {
        lemma_trim_end_idempotent(s.drop_last());
    }
}

/// Text outside fenced blocks, lines joined by `'\n'`.
pub fn strip_fenced_blocks(content: &str) -> (r: Vec<char>)
    ensures
        r@ == strip_fenced(content@),
{
    let chars = chars_of(content);
    let ls = split_lines(chars.as_slice());
    let ghost lv = views(ls@);
    let mut in_fence = false;
    let mut buf: Vec<char> = Vec::new();
    let mut idx: usize = 0;
    while idx < ls.len()
        invariant
            idx <= ls@.len(),
            lv == views(ls@),
            lv == lines(content@),
            (in_fence, buf@) == strip_scan(lv.take(idx as int)),
        decreases ls@.len() - idx,
    {
        let line = ls[idx].as_slice();
        assert(lv.take(idx + 1).drop_last() == lv.take(idx as int));
        assert(lv.take(idx + 1).last() == line@);
        let ts = trim_start_vec(line);
        if toggles_fence(ts.as_slice()) {
            in_fence = !in_fence;
        } else if !in_fence {
            let ghost old_buf = buf@;
            if buf.len() > 0 {
                buf.push('\n');
            }
            let ghost mid = buf@;
            let mut k: usize = 0;
            while k < line.len()
                invariant
                    k <= line@.len(),
                    buf@ == mid + line@.take(k as int),
                decreases line@.len() - k,
            {
                buf.push(line[k]);
                assert(line@.take(k + 1) == line@.take(k as int).push(line@[k as int]));
                k = k + 1;
            }
            assert(line@.take(line@.len() as int) == line@);
        }
        idx = idx + 1;
    }
    assert(lv.take(ls@.len() as int) == lv);
    buf
}

/// Count the characters of `s` that are not white space.
fn count_non_white(s: &[char]) -> (n: usize)
    ensures
        n == non_white_count(s@),
{
    let mut n: usize = 0;
    let mut i: usize = 0;
    while i < s.len()
        invariant
            i <= s@.len(),
            n <= i,
            n == non_white_count(s@.take(i as int)),
        decreases s@.len() - i,
    {
        assert(s@.take(i + 1).drop_last() == s@.take(i as int));
        if !char_is_whitespace(s[i]) {
            n = n + 1;
        }
        i = i + 1;
    }
    assert(s@.take(s@.len() as int) == s@);
    n
}

/// Count the non-blank pieces of `s.split("\n\n")`.
fn count_paragraphs(s: &[char]) -> (n: usize)
    ensures
        n == paragraph_count(s@),
{
    let mut n: usize = 0;
    let mut cur: Vec<char> = Vec::new();
    let mut i: usize = 0;
    while i < s.len()
        invariant
            i <= s@.len(),
            n * 2 + cur@.len() <= i,
            (n as nat, cur@) == paragraph_scan(s@.take(i as int)),
        decreases s@.len() - i,
    {
        assert(s@.take(i + 1).drop_last() == s@.take(i as int));
        let c = s[i];
        if c == '\n' && cur.len() > 0 && cur[cur.len() - 1] == '\n' {
            cur.pop();
            if !is_blank_slice(cur.as_slice()) {
                n = n + 1;
            }
            cur = Vec::new();
        } else {
            cur.push(c);
        }
        i = i + 1;
    }
    assert(s@.take(s@.len() as int) == s@);
    if !is_blank_slice(cur.as_slice()) {
        n = n + 1;
    }
    n
}

/// Character, paragraph, heading and line counts of a Markdown document.
pub fn document_stats(content: &str) -> (r: DocumentStats)
    ensures
        (r.characters as nat, r.paragraphs as nat, r.headings as nat, r.lines as nat) == stats(
            content@,
        ),
{
    let re_opt = atx_regex();
    let chars = chars_of(content);
    let ls = split_lines(chars.as_slice());
    let ghost lv = views(ls@);
    let re = match re_opt {
        Some(p) => p,
        None => {
            return DocumentStats { characters: 0, paragraphs: 0, headings: 0, lines: 0 };
        },
    };
    let mut in_fence = false;
    let mut heading_count: usize = 0;
    let mut idx: usize = 0;
    while idx < ls.len()
        invariant
            idx <= ls@.len(),
            heading_count <= idx,
            lv == views(ls@),
            lv == lines(content@),
            re.source() == atx_heading_pattern(),
            !re.ignores_case(),
            (in_fence, heading_count as nat) == heading_scan(lv.take(idx as int)),
        decreases ls@.len() - idx,
    {
        let line = ls[idx].as_slice();
        assert(lv.take(idx + 1).drop_last() == lv.take(idx as int));
        assert(lv.take(idx + 1).last() == line@);
        let ts = trim_start_vec(line);
        if toggles_fence(ts.as_slice()) {
            in_fence = !in_fence;
        } else if !in_fence {
            let t = trim_end_vec(line);
            proof {
                lemma_trim_end_idempotent(line@);
                lemma_line_lacks_newline(content@, idx as int);
            }
            let ts = string_of(t.as_slice());
            if re.captures(ts.as_str()).is_some() {
                heading_count = heading_count + 1;
            }
        }
        idx = idx + 1;
    }
    assert(lv.take(ls@.len() as int) == lv);
    let body = strip_fenced_blocks(content);
    let characters = count_non_white(body.as_slice());
    let paragraphs = count_paragraphs(body.as_slice());
    DocumentStats { characters, paragraphs, headings: heading_count, lines: ls.len() }
}

/// Headings counted by the statistics are exactly the entries of the table of contents.
pub proof fn lemma_heading_scan_matches_toc(ls: Seq<Seq<char>>)
    ensures
        heading_scan(ls).0 == toc_scan(ls).0,
        heading_scan(ls).1 == toc_scan(ls).1.len(),
    decreases ls.len(),
{
    if ls.len() > 0 {
        lemma_heading_scan_matches_toc(ls.drop_last());
        let t = trim_end(ls.last());
        assert(atx_captures(t) is Some <==> atx_heading(t) is Some);
    }
}

/// Law: the heading count of `document_stats` equals the length of `extract_toc`.
pub proof fn law_heading_count_is_toc_length(content: Seq<char>)
    ensures
        stats(content).2 == toc(content).len(),
{
    lemma_heading_scan_matches_toc(lines(content));
}

/// Workspace root (canonical) and sandbox mode of the markdown tools.
pub struct MdContext {
    pub root_canonical: String,
    pub allow_outside_root: bool,
}

impl MdContext {
    /// A context for an already canonical root.
    pub fn new(root_canonical: String, allow_outside_root: bool) -> (r: MdContext)
        ensures
            r.root_canonical@ == root_canonical@,
            r.allow_outside_root == allow_outside_root,
    {
        MdContext { root_canonical, allow_outside_root }
    }
}

/// The refusal of a path that is not a regular file.
pub fn not_regular_file() -> (e: ToolError)
    ensures
        e.code@ == md_code_text(MdErrorCode::InvalidPath),
        e.message@ == "path is not a regular file"@,
{
    tool_error(MdErrorCode::InvalidPath, crate::json::owned("path is not a regular file"))
}

} // verus!
