//! Memory files: Markdown blocks `### key`, a body, and a one-line metadata comment
//! `<!-- agentool-memory: at=... tags=a|b -->`.
//!
//! Daily notes live in `YYYY/MM/dd.md` under the memory directory and the long-term
//! summary in `MEMORY.md`. Positions in a file are character indices.
use vstd::prelude::*;

use crate::json::{owned, string_views};
use crate::offsets::{byte_offset, byte_offsets};
use crate::path::push_rel;
use crate::text::{
    chars_of, eq_ignore_ascii_case, eq_ignore_ascii_case_exec, find, first_occurrence, has_prefix,
    has_suffix, join_sep, join_strings, push_all, push_str, split_char, split_on, starts_with,
    ends_with, string_of, strip_eol, strip_eol_len, to_vec, trim, trim_end, trim_end_vec, trim_vec,
    views,
};

verus! {

/// `"MEMORY.md"`.
pub open spec fn summary_name() -> Seq<char> {
    "MEMORY.md"@
}

/// The file holds the long-term summary (its name is `MEMORY.md`, ignoring ASCII case).
pub open spec fn is_summary(file_rel: Seq<char>) -> bool {
    eq_ignore_ascii_case(file_rel, summary_name())
}

/// Whether a path relative to the memory directory is the summary file.
pub fn is_summary_rel(file_rel: &str) -> (r: bool)
    ensures
        r == is_summary(file_rel@),
{
    let a = chars_of(file_rel);
    let b = chars_of("MEMORY.md");
    eq_ignore_ascii_case_exec(a.as_slice(), b.as_slice())
}

/// `"summary"` for the summary file, `"daily"` otherwise.
pub open spec fn kind_text(file_rel: Seq<char>) -> Seq<char> {
    if is_summary(file_rel) {
        "summary"@
    } else {
        "daily"@
    }
}

/// The kind of block a file holds.
pub fn block_kind(file_rel: &str) -> (r: &'static str)
    ensures
        r@ == kind_text(file_rel@),
{
    if is_summary_rel(file_rel) {
        "summary"
    } else {
        "daily"
    }
}

/// The text of one block.
pub open spec fn block_text(key: Seq<char>, content: Seq<char>, tags: Seq<Seq<char>>, at: Seq<char>) -> Seq<
    char,
> {
    "### "@ + key + "\n\n"@ + trim_end(content) + "\n\n<!-- agentool-memory: at="@ + at + (if tags.len()
        == 0 {
        Seq::<char>::empty()
    } else {
        " tags="@ + join_sep(tags, "|"@)
    }) + " -->\n\n"@
}

/// Format one block with its metadata comment.
pub fn format_block(key: &str, content: &str, tags: &Vec<String>, at: &str) -> (r: String)
    ensures
        r@ == block_text(key@, content@, string_views(tags@), at@),
{
    let mut out: Vec<char> = Vec::new();
    push_str(&mut out, "### ");
    push_str(&mut out, key);
    push_str(&mut out, "\n\n");
    let c = chars_of(content);
    let body = trim_end_vec(c.as_slice());
    push_all(&mut out, body.as_slice());
    push_str(&mut out, "\n\n<!-- agentool-memory: at=");
    push_str(&mut out, at);
    let ghost before_tags = out@;
    if tags.len() > 0 {
        push_str(&mut out, " tags=");
        let j = join_strings(tags, "|");
        push_all(&mut out, j.as_slice());
    }
    push_str(&mut out, " -->\n\n");
    assert(string_views(tags@) == tags@.map_values(|s: String| s@));
    string_of(out.as_slice())
}

/// Decimal digits of `n`.
pub open spec fn decimal(n: nat) -> Seq<char>
    decreases n,
{
    if n < 10 {
        seq![digit(n)]
    } else {
        decimal(n / 10) + seq![digit(n % 10)]
    }
}

/// The digit character for `d < 10`.
pub open spec fn digit(d: nat) -> char {
    if d == 0 {
        '0'
    } else if d == 1 {
        '1'
    } else if d == 2 {
        '2'
    } else if d == 3 {
        '3'
    } else if d == 4 {
        '4'
    } else if d == 5 {
        '5'
    } else if d == 6 {
        '6'
    } else if d == 7 {
        '7'
    } else if d == 8 {
        '8'
    } else {
        '9'
    }
}

/// `s` left-padded with `'0'` to `width` characters.
pub open spec fn zero_pad(s: Seq<char>, width: nat) -> Seq<char> {
    if s.len() >= width {
        s
    } else {
        Seq::new((width - s.len()) as nat, |i: int| '0') + s
    }
}

/// `format!("{:0width$}", n)` for an integer: the sign, then the digits zero-padded so that
/// sign and digits together fill `width`.
pub open spec fn padded_int(n: int, width: nat) -> Seq<char> {
    if n < 0 {
        seq!['-'] + zero_pad(decimal((-n) as nat), (if width > 0 {
            width - 1
        } else {
            0
        }) as nat)
    } else {
        zero_pad(decimal(n as nat), width)
    }
}

fn digit_exec(d: u64) -> (c: char)
    requires
        d < 10,
    ensures
        c == digit(d as nat),
{
    if d == 0 {
        '0'
    } else if d == 1 {
        '1'
    } else if d == 2 {
        '2'
    } else if d == 3 {
        '3'
    } else if d == 4 {
        '4'
    } else if d == 5 {
        '5'
    } else if d == 6 {
        '6'
    } else if d == 7 {
        '7'
    } else if d == 8 {
        '8'
    } else {
        '9'
    }
}

/// Decimal digits of `n`.
pub fn decimal_exec(n: u64) -> (r: Vec<char>)
    ensures
        r@ == decimal(n as nat),
    decreases n,
{
    if n < 10 {
        let mut v = Vec::new();
        v.push(digit_exec(n));
        v
    } else {
        let mut v = decimal_exec(n / 10);
        v.push(digit_exec(n % 10));
        v
    }
}

fn zero_pad_exec(s: Vec<char>, width: usize) -> (r: Vec<char>)
    ensures
        r@ == zero_pad(s@, width as nat),
{
    if s.len() >= width {
        return s;
    }
    let mut out: Vec<char> = Vec::new();
    let n = width - s.len();
    let mut i: usize = 0;
    while i < n
        invariant
            i <= n,
            out@ == Seq::new(i as nat, |k: int| '0'),
        decreases n - i,
    {
        out.push('0');
        assert(out@ =~= Seq::new((i + 1) as nat, |k: int| '0'));
        i = i + 1;
    }
    push_all(&mut out, s.as_slice());
    out
}

/// `format!("{:0width$}", n)`.
pub fn padded_int_exec(n: i64, width: usize) -> (r: Vec<char>)
    ensures
        r@ == padded_int(n as int, width as nat),
{
    if n < 0 {
        let m: u64 = if n == i64::MIN {
            0x8000_0000_0000_0000u64
        } else {
            (-n) as u64
        };
        let d = decimal_exec(m);
        let w = if width > 0 {
            width - 1
        } else {
            0
        };
        let mut out = Vec::new();
        out.push('-');
        let p = zero_pad_exec(d, w);
        push_all(&mut out, p.as_slice());
        out
    } else {
        let d = decimal_exec(n as u64);
        zero_pad_exec(d, width)
    }
}

/// The daily file for a date: `<dir>/YYYY/MM/DD.md`.
pub open spec fn daily_path(memory_dir: Seq<char>, year: int, month: int, day: int) -> Seq<char> {
    push_rel(
        push_rel(push_rel(memory_dir, padded_int(year, 4)), padded_int(month, 2)),
        padded_int(day, 2) + ".md"@,
    )
}

/// The daily file for a date.
pub fn daily_file_path(memory_dir: &str, year: i32, month: u32, day: u32) -> (r: String)
    ensures
        r@ == daily_path(memory_dir@, year as int, month as int, day as int),
{
    let mut out = chars_of(memory_dir);
    let y = padded_int_exec(year as i64, 4);
    crate::path::push_name(&mut out, y.as_slice());
    let m = padded_int_exec(month as i64, 2);
    crate::path::push_name(&mut out, m.as_slice());
    let mut d = padded_int_exec(day as i64, 2);
    push_str(&mut d, ".md");
    crate::path::push_name(&mut out, d.as_slice());
    string_of(out.as_slice())
}

/// The summary file `<dir>/MEMORY.md`.
pub fn summary_file_path(memory_dir: &str) -> (r: String)
    ensures
        r@ == push_rel(memory_dir@, summary_name()),
{
    let mut out = chars_of(memory_dir);
    let n = chars_of("MEMORY.md");
    crate::path::push_name(&mut out, n.as_slice());
    string_of(out.as_slice())
}

/// `existing` with `block` appended, after a `'\n'` if `existing` is non-empty and does not
/// end with one.
pub open spec fn appended(existing: Seq<char>, block: Seq<char>) -> Seq<char> {
    if existing.len() > 0 && existing.last() != '\n' {
        existing.push('\n') + block
    } else {
        existing + block
    }
}

/// Append a block to a file's text.
pub fn append_block_text(existing: &str, block: &str) -> (r: String)
    ensures
        r@ == appended(existing@, block@),
{
    let mut out = chars_of(existing);
    if out.len() > 0 && out[out.len() - 1] != '\n' {
        out.push('\n');
    }
    push_str(&mut out, block);
    string_of(out.as_slice())
}

/// Remove the characters `[start, end)` of `text` and append `block`; `None` when the span
/// does not lie inside the text.
pub fn replace_span_text(text: &str, start: usize, end: usize, block: &str) -> (r: Option<String>)
    ensures
        match r {
            Some(s) => start <= end <= text@.len() && s@ == appended(
                text@.take(start as int) + text@.skip(end as int),
                block@,
            ),
            None => !(start <= end <= text@.len()),
        },
{
    let t = chars_of(text);
    if start > t.len() || end > t.len() || start > end {
        return None;
    }
    let mut out = to_vec(&t.as_slice()[0..start]);
    push_all(&mut out, &t.as_slice()[end..t.len()]);
    assert(t@.subrange(0, start as int) == text@.take(start as int));
    assert(t@.subrange(end as int, t@.len() as int) == text@.skip(end as int));
    let s = string_of(out.as_slice());
    Some(append_block_text(s.as_str(), block))
}

/// `"<!-- agentool-memory:"`.
pub open spec fn meta_prefix() -> Seq<char> {
    "<!-- agentool-memory:"@
}

/// `"### "`.
pub open spec fn heading_prefix() -> Seq<char> {
    "### "@
}

/// The tags of a metadata comment: `|`-separated, each trimmed, empty ones dropped.
pub open spec fn tag_list(part: Seq<char>) -> Seq<Seq<char>> {
    split_on(part, '|').map_values(|t: Seq<char>| trim(t)).filter(|t: Seq<char>| t.len() > 0)
}

/// The timestamp and tags of a metadata comment line, if it is one.
pub open spec fn parse_meta(line: Seq<char>) -> Option<(Seq<char>, Seq<Seq<char>>)> {
    let t = trim(line);
    if !has_prefix(t, meta_prefix()) {
        None
    } else {
        let a = trim(t.skip(meta_prefix().len() as int));
        if !has_suffix(a, "-->"@) {
            None
        } else {
            let inner = trim(a.take(a.len() - "-->"@.len()));
            if !has_prefix(inner, "at="@) {
                None
            } else {
                let rest = inner.skip("at="@.len() as int);
                match first_occurrence(rest, " tags="@) {
                    Some(pos) => {
                        let tp = trim(rest.skip(pos + " tags="@.len()));
                        Some(
                            (
                                trim(rest.take(pos)),
                                if tp.len() == 0 {
                                    Seq::<Seq<char>>::empty()
                                } else {
                                    tag_list(tp)
                                },
                            ),
                        )
                    },
                    None => Some((trim(rest), Seq::<Seq<char>>::empty())),
                }
            }
        }
    }
}

fn tags_of(part: &[char]) -> (r: Vec<String>)
    ensures
        string_views(r@) == tag_list(part@),
{
    let pieces = split_char(part, '|');
    let ghost pv = views(pieces@);
    let ghost f = |t: Seq<char>| trim(t);
    let ghost keep = |t: Seq<char>| t.len() > 0;
    let mut out: Vec<String> = Vec::new();
    let mut i: usize = 0;
    while i < pieces.len()
        invariant
            i <= pieces@.len(),
            pv == views(pieces@),
            pv == split_on(part@, '|'),
            f == (|t: Seq<char>| trim(t)),
            keep == (|t: Seq<char>| t.len() > 0),
            string_views(out@) == pv.take(i as int).map_values(f).filter(keep),
        decreases pieces@.len() - i,
    {
        let t = trim_vec(pieces[i].as_slice());
        let ghost before = string_views(out@);
        assert(pv.take(i + 1).map_values(f) =~= pv.take(i as int).map_values(f).push(trim(pv[i as int])));
        proof { pv.take(i as int).map_values(f).lemma_filter_push(trim(pv[i as int]), keep); }
        if t.len() > 0 {
            out.push(string_of(t.as_slice()));
            assert(string_views(out@) =~= before.push(t@));
        }
        i = i + 1;
    }
    assert(pv.take(pieces@.len() as int) == pv);
    out
}

/// Parse a metadata comment line into its timestamp and tags.
pub fn parse_meta_comment(line: &[char]) -> (r: Option<(String, Vec<String>)>)
    ensures
        match r {
            Some((at, tags)) => parse_meta(line@) == Some((at@, string_views(tags@))),
            None => parse_meta(line@) is None,
        },
{
    let t = trim_vec(line);
    let pre = chars_of("<!-- agentool-memory:");
    if !starts_with(t.as_slice(), pre.as_slice()) {
        return None;
    }
    let a = trim_vec(&t.as_slice()[pre.len()..t.len()]);
    assert(t@.subrange(pre@.len() as int, t@.len() as int) == t@.skip(pre@.len() as int));
    let close = chars_of("-->");
    if !ends_with(a.as_slice(), close.as_slice()) {
        return None;
    }
    let inner = trim_vec(&a.as_slice()[0..a.len() - close.len()]);
    assert(a@.subrange(0, a@.len() - close@.len()) == a@.take(a@.len() - close@.len()));
    let at_eq = chars_of("at=");
    if !starts_with(inner.as_slice(), at_eq.as_slice()) {
        return None;
    }
    let rest = to_vec(&inner.as_slice()[at_eq.len()..inner.len()]);
    assert(inner@.subrange(at_eq@.len() as int, inner@.len() as int) == inner@.skip(
        at_eq@.len() as int,
    ));
    let tags_eq = chars_of(" tags=");
    match find(rest.as_slice(), tags_eq.as_slice()) {
        Some(pos) => {
            let at = trim_vec(&rest.as_slice()[0..pos]);
            assert(rest@.subrange(0, pos as int) == rest@.take(pos as int));
            let from = pos + tags_eq.len();
            assert(from <= rest@.len());
            let tp = trim_vec(&rest.as_slice()[from..rest.len()]);
            assert(rest@.subrange(from as int, rest@.len() as int) == rest@.skip(from as int));
            let tags = if tp.len() == 0 {
                Vec::new()
            } else {
                tags_of(tp.as_slice())
            };
            proof {
                if tp@.len() == 0 {
                    assert(string_views(tags@) =~= Seq::<Seq<char>>::empty());
                }
            }
            Some((string_of(at.as_slice()), tags))
        },
        None => {
            let at = trim_vec(rest.as_slice());
            let tags: Vec<String> = Vec::new();
            assert(string_views(tags@) =~= Seq::<Seq<char>>::empty());
            Some((string_of(at.as_slice()), tags))
        },
    }
}

/// Reading `t` left to right: the line ranges finished so far (each ending just after a
/// `'\n'`) and where the current line starts.
pub open spec fn line_ranges_scan(t: Seq<char>) -> (Seq<(int, int)>, int)
    decreases t.len(),
{
    if t.len() == 0 {
        (seq![], 0)
    } else {
        let (rs, start) = line_ranges_scan(t.drop_last());
        if t.last() == '\n' {
            (rs.push((start, t.len() as int)), t.len() as int)
        } else {
            (rs, start)
        }
    }
}

/// The character ranges of the lines of `t`, each including its `'\n'`; a last line without
/// `'\n'` is included when non-empty.
pub open spec fn line_ranges(t: Seq<char>) -> Seq<(int, int)> {
    let (rs, start) = line_ranges_scan(t);
    if start < t.len() {
        rs.push((start, t.len() as int))
    } else {
        rs
    }
}

/// Facts about `line_ranges_scan`.
pub proof fn lemma_line_ranges_scan(t: Seq<char>)
    ensures
        0 <= line_ranges_scan(t).1 <= t.len(),
        forall|k: int|
            0 <= k < line_ranges_scan(t).0.len() ==> 0 <= #[trigger] line_ranges_scan(t).0[k].0
                <= line_ranges_scan(t).0[k].1 <= line_ranges_scan(t).1,
    decreases t.len(),
{
    if t.len() > 0 {
        lemma_line_ranges_scan(t.drop_last());
    }
}

/// The pairs of a vector of ranges.
pub open spec fn ranges_view(v: Seq<(usize, usize)>) -> Seq<(int, int)> {
    v.map_values(|r: (usize, usize)| (r.0 as int, r.1 as int))
}

/// Pushing a range that ends within the bound keeps every range within it.
proof fn lemma_push_inside(v: Seq<(usize, usize)>, r: (usize, usize), old_bound: nat, bound: nat)
    requires
        ranges_inside(v, old_bound),
        old_bound <= bound,
        r.0 <= r.1 <= bound,
    ensures
        ranges_inside(v.push(r), bound),
{
    assert forall|k: int| 0 <= k < v.push(r).len() implies #[trigger] v.push(r)[k].0 <= v.push(r)[k].1
        <= bound by {
        if k < v.len() {
            assert(v.push(r)[k] == v[k]);
        }
    }
}

/// The line ranges of a text.
#[verifier::spinoff_prover]
pub fn line_char_ranges(t: &[char]) -> (r: Vec<(usize, usize)>)
    ensures
        ranges_view(r@) == line_ranges(t@),
        ranges_inside(r@, t@.len()),
{
    let mut v: Vec<(usize, usize)> = Vec::new();
    let mut start: usize = 0;
    let mut i: usize = 0;
    while i < t.len()
        invariant
            i <= t@.len(),
            start <= i,
            ranges_view(v@) == line_ranges_scan(t@.take(i as int)).0,
            start as int == line_ranges_scan(t@.take(i as int)).1,
            ranges_inside(v@, start as nat),
        decreases t@.len() - i,
    {
        assert(t@.take(i + 1).drop_last() == t@.take(i as int));
        if t[i] == '\n' {
            let ghost before = ranges_view(v@);
            let ghost old_v = v@;
            v.push((start, i + 1));
            assert(ranges_view(v@) =~= before.push((start as int, i + 1)));
            proof {
                lemma_push_inside(old_v, (start, (i + 1) as usize), start as nat, (i + 1) as nat);
            }
            start = i + 1;
        }
        i = i + 1;
    }
    assert(t@.take(t@.len() as int) == t@);
    if start < t.len() {
        let ghost before = ranges_view(v@);
        let ghost old_v = v@;
        v.push((start, t.len()));
        assert(ranges_view(v@) =~= before.push((start as int, t@.len() as int)));
        proof {
            lemma_push_inside(old_v, (start, t@.len() as usize), start as nat, t@.len());
        }
    } else {
        proof {
            lemma_push_inside_weaken(v@, start as nat, t@.len());
        }
    }
    v
}

/// A bound may be raised.
proof fn lemma_push_inside_weaken(v: Seq<(usize, usize)>, a: nat, b: nat)
    requires
        ranges_inside(v, a),
        a <= b,
    ensures
        ranges_inside(v, b),
{
}

/// The text of line `i`.
pub open spec fn line_at(t: Seq<char>, ls: Seq<(int, int)>, i: int) -> Seq<char> {
    t.subrange(ls[i].0, ls[i].1)
}

/// The first line at or after `i` that is not blank.
pub open spec fn skip_blank_lines(t: Seq<char>, ls: Seq<(int, int)>, i: int) -> int
    decreases ls.len() - i,
{
    if 0 <= i < ls.len() && trim(line_at(t, ls, i)).len() == 0 {
        skip_blank_lines(t, ls, i + 1)
    } else {
        i
    }
}

/// Add a body line: lines are joined by `'\n'`, and empty lines before the first non-empty
/// one are dropped.
pub open spec fn add_body_line(body: Seq<char>, l: Seq<char>) -> Seq<char> {
    if body.len() > 0 {
        body.push('\n') + l
    } else if l.len() > 0 {
        l
    } else {
        body
    }
}

/// Reading body lines from line `i`: the body, the parsed metadata comment if one ends the
/// block, where the block ends, and the next line to read. A `### ` line ends the body
/// before itself; a metadata comment line ends it after itself.
pub open spec fn body_scan(
    t: Seq<char>,
    ls: Seq<(int, int)>,
    i: int,
    body: Seq<char>,
    end: int,
) -> (Seq<char>, Option<(Seq<char>, Seq<Seq<char>>)>, int, int)
    decreases ls.len() - i,
{
    if i < 0 || i >= ls.len() {
        (body, None, end, i)
    } else {
        let l = strip_eol(line_at(t, ls, i));
        if has_prefix(l, heading_prefix()) {
            (body, None, end, i)
        } else if has_prefix(trim(l), meta_prefix()) {
            (body, parse_meta(l), ls[i].1, i + 1)
        } else {
            body_scan(t, ls, i + 1, add_body_line(body, l), ls[i].1)
        }
    }
}

/// `skip_blank_lines` does not go backwards.
pub proof fn lemma_skip_blank_ge(t: Seq<char>, ls: Seq<(int, int)>, i: int)
    ensures
        skip_blank_lines(t, ls, i) >= i,
        0 <= i <= ls.len() ==> skip_blank_lines(t, ls, i) <= ls.len(),
    decreases ls.len() - i,
{
    if 0 <= i < ls.len() && trim(line_at(t, ls, i)).len() == 0 {
        lemma_skip_blank_ge(t, ls, i + 1);
    }
}

/// `body_scan` does not go backwards.
pub proof fn lemma_body_scan_ge(
    t: Seq<char>,
    ls: Seq<(int, int)>,
    i: int,
    body: Seq<char>,
    end: int,
)
    ensures
        body_scan(t, ls, i, body, end).3 >= i,
        0 <= i <= ls.len() ==> body_scan(t, ls, i, body, end).3 <= ls.len(),
    decreases ls.len() - i,
{
    if !(i < 0 || i >= ls.len()) {
        let l = strip_eol(line_at(t, ls, i));
        if !has_prefix(l, heading_prefix()) && !has_prefix(trim(l), meta_prefix()) {
            lemma_body_scan_ge(t, ls, i + 1, add_body_line(body, l), ls[i].1);
        }
    }
}

/// A parsed block: key, content, tags, timestamp, and its character range in the file.
pub type BlockView = (Seq<char>, Seq<char>, Seq<Seq<char>>, Seq<char>, int, int);

/// The blocks found from line `i` on.
pub open spec fn parse_blocks(t: Seq<char>, ls: Seq<(int, int)>, i: int) -> Seq<BlockView>
    decreases ls.len() - i,
{
    if i < 0 || i >= ls.len() {
        seq![]
    } else {
        let l = strip_eol(line_at(t, ls, i));
        if has_prefix(l, heading_prefix()) && trim(l.skip(heading_prefix().len() as int)).len()
            > 0 {
            let key = trim(l.skip(heading_prefix().len() as int));
            let j = skip_blank_lines(t, ls, i + 1);
            let (body, meta, end, next) = body_scan(t, ls, j, seq![], ls[i].1);
            proof {
                lemma_skip_blank_ge(t, ls, i + 1);
                lemma_body_scan_ge(t, ls, j, seq![], ls[i].1);
            }
            let (at, tags) = match meta {
                Some((a, tg)) => (a, tg),
                None => (Seq::<char>::empty(), Seq::<Seq<char>>::empty()),
            };
            seq![(key, trim(body), tags, at, ls[i].0, end)] + parse_blocks(t, ls, next)
        } else {
            parse_blocks(t, ls, i + 1)
        }
    }
}

/// The blocks of a file's text.
pub open spec fn blocks_of(t: Seq<char>) -> Seq<BlockView> {
    parse_blocks(t, line_ranges(t), 0)
}

/// A block read from a memory file.
pub struct ParsedBlock {
    pub key: String,
    pub content: String,
    pub tags: Vec<String>,
    pub at: String,
    /// Path relative to the memory directory, `/`-separated.
    pub file_rel: String,
}

/// A block with its file and character range, for replacing it.
pub struct LocatedBlock {
    pub block: ParsedBlock,
    pub abs_path: String,
    pub start: usize,
    pub end: usize,
}

/// The abstract value of a block with its range.
pub open spec fn spanned_view(b: (ParsedBlock, usize, usize)) -> BlockView {
    (b.0.key@, b.0.content@, string_views(b.0.tags@), b.0.at@, b.1 as int, b.2 as int)
}

/// The abstract values of blocks with ranges.
pub open spec fn spanned_views(v: Seq<(ParsedBlock, usize, usize)>) -> Seq<BlockView> {
    v.map_values(|b: (ParsedBlock, usize, usize)| spanned_view(b))
}

/// The abstract value of a parsed metadata comment.
pub open spec fn meta_view(m: Option<(String, Vec<String>)>) -> Option<(Seq<char>, Seq<Seq<char>>)> {
    match m {
        Some((a, tg)) => Some((a@, string_views(tg@))),
        None => None,
    }
}

/// Every line range lies inside the text.
pub open spec fn ranges_inside(lines: Seq<(usize, usize)>, len: nat) -> bool {
    forall|k: int| 0 <= k < lines.len() ==> #[trigger] lines[k].0 <= lines[k].1 <= len
}

fn skip_blank_exec(t: &[char], lines: &Vec<(usize, usize)>, i: usize) -> (j: usize)
    requires
        ranges_inside(lines@, t@.len()),
        i <= lines@.len(),
    ensures
        j == skip_blank_lines(t@, ranges_view(lines@), i as int),
        i <= j <= lines@.len(),
{
    let ghost ls = ranges_view(lines@);
    let mut j = i;
    while j < lines.len()
        invariant
            ranges_inside(lines@, t@.len()),
            ls == ranges_view(lines@),
            i <= j <= lines@.len(),
            skip_blank_lines(t@, ls, i as int) == skip_blank_lines(t@, ls, j as int),
        decreases lines@.len() - j,
    {
        let (a, b) = lines[j];
        assert(lines@[j as int].0 <= lines@[j as int].1 <= t@.len());
        let x = trim_vec(&t[a..b]);
        assert(t@.subrange(a as int, b as int) == line_at(t@, ls, j as int));
        if x.len() == 0 {
            j = j + 1;
        } else {
            return j;
        }
    }
    j
}

fn scan_body(t: &[char], lines: &Vec<(usize, usize)>, i: usize, end: usize) -> (r: (
    Vec<char>,
    Option<(String, Vec<String>)>,
    usize,
    usize,
))
    requires
        ranges_inside(lines@, t@.len()),
        i <= lines@.len(),
        end <= t@.len(),
    ensures
        ({
            let s = body_scan(t@, ranges_view(lines@), i as int, seq![], end as int);
            &&& r.0@ == s.0
            &&& meta_view(r.1) == s.1
            &&& r.2 as int == s.2
            &&& r.3 as int == s.3
        }),
        i <= r.3 <= lines@.len(),
        r.2 <= t@.len(),
{
    let ghost ls = ranges_view(lines@);
    let ghost goal = body_scan(t@, ls, i as int, seq![], end as int);
    let hp = chars_of("### ");
    let mp = chars_of("<!-- agentool-memory:");
    let mut body: Vec<char> = Vec::new();
    let mut block_end = end;
    let mut k = i;
    assert(body@ =~= seq![]);
    while k < lines.len()
        invariant
            ranges_inside(lines@, t@.len()),
            ls == ranges_view(lines@),
            hp@ == heading_prefix(),
            mp@ == meta_prefix(),
            i <= k <= lines@.len(),
            block_end <= t@.len(),
            goal == body_scan(t@, ls, i as int, seq![], end as int),
            goal == body_scan(t@, ls, k as int, body@, block_end as int),
        decreases lines@.len() - k,
    {
        let (a, b) = lines[k];
        assert(lines@[k as int].0 <= lines@[k as int].1 <= t@.len());
        let raw = &t[a..b];
        assert(raw@ == line_at(t@, ls, k as int));
        let n = strip_eol_len(raw);
        let l = &raw[0..n];
        assert(l@ == raw@.take(n as int));
        assert(l@ == strip_eol(line_at(t@, ls, k as int)));
        assert(0 <= k < ls.len());
        if starts_with(l, hp.as_slice()) {
            assert(body_scan(t@, ls, k as int, body@, block_end as int) == (
                body@,
                None::<(Seq<char>, Seq<Seq<char>>)>,
                block_end as int,
                k as int,
            ));
            return (body, None, block_end, k);
        }
        let lt = trim_vec(l);
        if starts_with(lt.as_slice(), mp.as_slice()) {
            let m = parse_meta_comment(l);
            assert(body_scan(t@, ls, k as int, body@, block_end as int) == (
                body@,
                parse_meta(l@),
                b as int,
                k + 1,
            ));
            return (body, m, b, k + 1);
        }
        if body.len() > 0 {
            body.push('\n');
            push_all(&mut body, l);
        } else if l.len() > 0 {
            push_all(&mut body, l);
        }
        block_end = b;
        k = k + 1;
    }
    (body, None, block_end, k)
}

/// A block with its character range turned into the byte range of its UTF-8 encoding.
pub open spec fn view_in_bytes(text: Seq<char>, b: BlockView) -> BlockView {
    (b.0, b.1, b.2, b.3, byte_offset(text, b.4), byte_offset(text, b.5))
}

/// The blocks of a file's text, with byte ranges.
pub open spec fn blocks_in_bytes(text: Seq<char>) -> Seq<BlockView> {
    blocks_of(text).map_values(|b: BlockView| view_in_bytes(text, b))
}

/// Parse the `### key` blocks of a file and record their byte ranges.
pub fn parse_file_spanned(rel: &str, text: &str) -> (r: Vec<(ParsedBlock, usize, usize)>)
    ensures
        spanned_views(r@) == blocks_in_bytes(text@),
        forall|k: int| 0 <= k < r@.len() ==> (#[trigger] r@[k]).0.file_rel@ == rel@,
{
    let t = chars_of(text);
    let total = text.as_bytes().len();
    let offs = byte_offsets(t.as_slice(), total);
    let lines = line_char_ranges(t.as_slice());
    let ghost ls = ranges_view(lines@);
    let ghost f = |b: BlockView| view_in_bytes(t@, b);
    let ghost mut done: Seq<BlockView> = seq![];
    let hp = chars_of("### ");
    let mut out: Vec<(ParsedBlock, usize, usize)> = Vec::new();
    let mut i: usize = 0;
    assert(spanned_views(out@) =~= done.map_values(f));
    while i < lines.len()
        invariant
            t@ == text@,
            ls == ranges_view(lines@),
            ls == line_ranges(t@),
            hp@ == heading_prefix(),
            ranges_inside(lines@, t@.len()),
            i <= lines@.len(),
            offs@.len() == t@.len() + 1,
            forall|q: int| 0 <= q <= t@.len() ==> #[trigger] offs@[q] == byte_offset(t@, q),
            f == (|b: BlockView| view_in_bytes(t@, b)),
            done + parse_blocks(t@, ls, i as int) == blocks_of(t@),
            spanned_views(out@) == done.map_values(f),
            forall|k: int| 0 <= k < out@.len() ==> (#[trigger] out@[k]).0.file_rel@ == rel@,
        decreases lines@.len() - i,
    {
        let (ls0, le0) = lines[i];
        assert(lines@[i as int].0 <= lines@[i as int].1 <= t@.len());
        let raw = &t.as_slice()[ls0..le0];
        assert(raw@ == line_at(t@, ls, i as int));
        let n = strip_eol_len(raw);
        let line = &raw[0..n];
        assert(line@ == raw@.take(n as int));
        let mut next = i + 1;
        if starts_with(line, hp.as_slice()) {
            let key = trim_vec(&line[hp.len()..line.len()]);
            assert(line@.subrange(hp@.len() as int, line@.len() as int) == line@.skip(
                hp@.len() as int,
            ));
            if key.len() > 0 {
                let j = skip_blank_exec(t.as_slice(), &lines, i + 1);
                let (body, meta, end, after) = scan_body(t.as_slice(), &lines, j, le0);
                let (at, tags) = match meta {
                    Some((a, tg)) => (a, tg),
                    None => (String::new(), Vec::new()),
                };
                proof {
                    if meta is None {
                        assert(string_views(tags@) =~= Seq::<Seq<char>>::empty());
                    }
                }
                let content = trim_vec(body.as_slice());
                let ghost before = spanned_views(out@);
                let ghost old_done = done;
                let ghost v: BlockView = (
                    key@,
                    content@,
                    string_views(tags@),
                    at@,
                    ls0 as int,
                    end as int,
                );
                out.push(
                    (
                        ParsedBlock {
                            key: string_of(key.as_slice()),
                            content: string_of(content.as_slice()),
                            tags,
                            at,
                            file_rel: owned(rel),
                        },
                        offs[ls0],
                        offs[end],
                    ),
                );
                proof {
                    done = done.push(v);
                    assert(spanned_view(out@.last()) == f(v));
                    assert(spanned_views(out@) =~= before.push(spanned_view(out@.last())));
                    assert(done.map_values(f) =~= old_done.map_values(f).push(f(v)));
                    assert(parse_blocks(t@, ls, i as int) == seq![v] + parse_blocks(
                        t@,
                        ls,
                        after as int,
                    ));
                    assert(done + parse_blocks(t@, ls, after as int) =~= old_done + (seq![v]
                        + parse_blocks(t@, ls, after as int)));
                }
                next = after;
            }
        }
        i = next;
    }
    assert(done + parse_blocks(t@, ls, i as int) =~= done);
    out
}

/// Whether some block has the given key.
pub fn any_key_exists(blocks: &Vec<ParsedBlock>, key: &str) -> (r: bool)
    ensures
        r == exists|i: int| 0 <= i < blocks@.len() && (#[trigger] blocks@[i]).key@ == key@,
{
    let mut i: usize = 0;
    while i < blocks.len()
        invariant
            i <= blocks@.len(),
            forall|j: int| 0 <= j < i ==> (#[trigger] blocks@[j]).key@ != key@,
        decreases blocks@.len() - i,
    {
        if crate::json::str_eq(blocks[i].key.as_str(), key) {
            return true;
        }
        i = i + 1;
    }
    false
}

/// The last position of `c` in `s`.
pub open spec fn last_index_of(s: Seq<char>, c: char) -> Option<int>
    decreases s.len(),
{
    if s.len() == 0 {
        None
    } else if s.last() == c {
        Some(s.len() - 1)
    } else {
        last_index_of(s.drop_last(), c)
    }
}

/// The extension of a file name (`Path::extension`): what follows the last `.`, unless the
/// name is `..` or the only `.` starts the name.
pub open spec fn extension(name: Seq<char>) -> Option<Seq<char>> {
    if name == ".."@ {
        None
    } else {
        match last_index_of(name, '.') {
            Some(p) => if p > 0 {
                Some(name.skip(p + 1))
            } else {
                None
            },
            None => None,
        }
    }
}

/// Whether a file name has the extension `md`, ignoring ASCII case: the files that hold
/// memory blocks.
pub fn is_markdown_name(name: &str) -> (r: bool)
    ensures
        r == (extension(name@) matches Some(e) && eq_ignore_ascii_case(e, "md"@)),
{
    let c = chars_of(name);
    if crate::json::str_eq(name, "..") {
        return false;
    }
    let mut i = c.len();
    assert(c@.take(i as int) == c@);
    while i > 0 && c[i - 1] != '.'
        invariant
            c@ == name@,
            i <= c@.len(),
            last_index_of(c@.take(i as int), '.') == last_index_of(c@, '.'),
        decreases i,
    {
        assert(c@.take(i as int).drop_last() == c@.take(i - 1));
        i = i - 1;
    }
    if i == 0 {
        assert(c@.take(0) =~= Seq::<char>::empty());
        return false;
    }
    assert(c@.take(i as int).last() == '.');
    if i - 1 == 0 {
        return false;
    }
    let ext = to_vec(&c.as_slice()[i..c.len()]);
    assert(c@.subrange(i as int, c@.len() as int) == c@.skip(i as int));
    let md = chars_of("md");
    eq_ignore_ascii_case_exec(ext.as_slice(), md.as_slice())
}

} // verus!
