//! What a written block reads back as: appending a block to a memory file and parsing the
//! file again yields the blocks that were there, then the new block.
use vstd::prelude::*;

use crate::memory::store::{
    add_body_line, appended, block_text, blocks_of, body_scan, heading_prefix, line_at,
    line_ranges, line_ranges_scan, meta_prefix, parse_blocks, parse_meta, skip_blank_lines,
    BlockView,
};
use crate::text::{has_prefix, is_blank, strip_eol, trim};

verus! {

/// Ranges moved right by `d`.
pub open spec fn shift_ranges(rs: Seq<(int, int)>, d: int) -> Seq<(int, int)> {
    rs.map_values(|r: (int, int)| (r.0 + d, r.1 + d))
}

/// The text is empty or ends with a line break: its lines are all complete.
pub open spec fn complete_lines(t: Seq<char>) -> bool {
    t.len() == 0 || t.last() == '\n'
}

/// A text of complete lines has no unfinished line.
proof fn lemma_scan_complete(t: Seq<char>)
    requires
        complete_lines(t),
    ensures
        line_ranges_scan(t).1 == t.len(),
        line_ranges(t) == line_ranges_scan(t).0,
{
}

/// Scanning a text after complete lines: the lines of the first part, then those of the
/// second moved right.
proof fn lemma_scan_concat(p: Seq<char>, q: Seq<char>)
    requires
        complete_lines(p),
    ensures
        line_ranges_scan(p + q).0 == line_ranges_scan(p).0 + shift_ranges(line_ranges_scan(q).0, p.len() as int),
        line_ranges_scan(p + q).1 == p.len() + line_ranges_scan(q).1,
    decreases q.len(),
{
    lemma_scan_complete(p);
    if q.len() == 0 {
        assert(p + q == p);
        assert(shift_ranges(line_ranges_scan(q).0, p.len() as int) =~= Seq::<(int, int)>::empty());
    } else {
        lemma_scan_concat(p, q.drop_last());
        assert((p + q).drop_last() == p + q.drop_last());
        assert((p + q).last() == q.last());
        let (rs, st) = line_ranges_scan(q.drop_last());
        if q.last() == '\n' {
            assert(shift_ranges(rs.push((st, q.len() as int)), p.len() as int) =~= shift_ranges(
                rs,
                p.len() as int,
            ).push((st + p.len(), (q.len() + p.len()) as int)));
        }
    }
}

/// The lines of a text after complete lines.
pub proof fn lemma_lines_concat(p: Seq<char>, q: Seq<char>)
    requires
        complete_lines(p),
    ensures
        line_ranges(p + q) == line_ranges(p) + shift_ranges(line_ranges(q), p.len() as int),
{
    lemma_scan_concat(p, q);
    lemma_scan_complete(p);
    let (rs, st) = line_ranges_scan(q);
    if st < q.len() {
        assert(shift_ranges(rs.push((st, q.len() as int)), p.len() as int) =~= shift_ranges(
            rs,
            p.len() as int,
        ).push((st + p.len(), (q.len() + p.len()) as int)));
        assert((line_ranges(p) + shift_ranges(rs, p.len() as int)).push((st + p.len(), (p + q).len() as int))
            =~= line_ranges(p) + shift_ranges(rs, p.len() as int).push((st + p.len(), (q.len() + p.len()) as int)));
    }
}

/// Below line `n0`, the lines of `(t, l)` are those of `(p, lp)`, which has exactly `n0`
/// lines.
pub open spec fn agree_below(t: Seq<char>, l: Seq<(int, int)>, p: Seq<char>, lp: Seq<(int, int)>, n0: int) -> bool {
    &&& lp.len() == n0
    &&& n0 <= l.len()
    &&& forall|i: int| 0 <= i < n0 ==> #[trigger] l[i] == lp[i] && line_at(t, l, i) == line_at(p, lp, i)
}

/// Line `n0` of `(t, l)` is a heading line.
pub open spec fn heading_at(t: Seq<char>, l: Seq<(int, int)>, n0: int) -> bool {
    &&& 0 <= n0 < l.len()
    &&& has_prefix(strip_eol(line_at(t, l, n0)), heading_prefix())
    &&& trim(line_at(t, l, n0)).len() > 0
}

proof fn lemma_skip_agree(t: Seq<char>, l: Seq<(int, int)>, p: Seq<char>, lp: Seq<(int, int)>, n0: int, k: int)
    requires
        agree_below(t, l, p, lp, n0),
        heading_at(t, l, n0),
        0 <= k <= n0,
    ensures
        skip_blank_lines(t, l, k) == skip_blank_lines(p, lp, k),
        k <= skip_blank_lines(t, l, k) <= n0,
    decreases n0 - k,
{
    if k < n0 {
        assert(l[k] == lp[k] && line_at(t, l, k) == line_at(p, lp, k));
        if trim(line_at(t, l, k)).len() == 0 {
            lemma_skip_agree(t, l, p, lp, n0, k + 1);
        }
    }
}

proof fn lemma_body_agree(
    t: Seq<char>,
    l: Seq<(int, int)>,
    p: Seq<char>,
    lp: Seq<(int, int)>,
    n0: int,
    k: int,
    body: Seq<char>,
    end: int,
)
    requires
        agree_below(t, l, p, lp, n0),
        heading_at(t, l, n0),
        0 <= k <= n0,
    ensures
        body_scan(t, l, k, body, end) == body_scan(p, lp, k, body, end),
        k <= body_scan(t, l, k, body, end).3 <= n0,
    decreases n0 - k,
{
    if k < n0 {
        assert(l[k] == lp[k] && line_at(t, l, k) == line_at(p, lp, k));
        let ln = strip_eol(line_at(t, l, k));
        if !has_prefix(ln, heading_prefix()) && !has_prefix(trim(ln), meta_prefix()) {
            lemma_body_agree(t, l, p, lp, n0, k + 1, add_body_line(body, ln), l[k].1);
        }
    }
}

/// Parsing from a line below `n0`: the blocks of the first part, then those from `n0`.
proof fn lemma_parse_agree(t: Seq<char>, l: Seq<(int, int)>, p: Seq<char>, lp: Seq<(int, int)>, n0: int, k: int)
    requires
        agree_below(t, l, p, lp, n0),
        heading_at(t, l, n0),
        0 <= k <= n0,
    ensures
        parse_blocks(t, l, k) == parse_blocks(p, lp, k) + parse_blocks(t, l, n0),
    decreases n0 - k,
{
    if k == n0 {
        assert(parse_blocks(p, lp, k) =~= Seq::<BlockView>::empty());
        assert(parse_blocks(p, lp, k) + parse_blocks(t, l, n0) =~= parse_blocks(t, l, n0));
    } else {
        assert(l[k] == lp[k] && line_at(t, l, k) == line_at(p, lp, k));
        let ln = strip_eol(line_at(t, l, k));
        if has_prefix(ln, heading_prefix()) && trim(ln.skip(heading_prefix().len() as int)).len() > 0 {
            lemma_skip_agree(t, l, p, lp, n0, k + 1);
            let j = skip_blank_lines(t, l, k + 1);
            lemma_body_agree(t, l, p, lp, n0, j, seq![], l[k].1);
            let next = body_scan(t, l, j, seq![], l[k].1).3;
            lemma_parse_agree(t, l, p, lp, n0, next);
            let key = trim(ln.skip(heading_prefix().len() as int));
            let (body, meta, end, nx) = body_scan(t, l, j, seq![], l[k].1);
            let (at, tags) = match meta {
                Some((a, tg)) => (a, tg),
                None => (Seq::<char>::empty(), Seq::<Seq<char>>::empty()),
            };
            let b = seq![(key, trim(body), tags, at, l[k].0, end)];
            assert(parse_blocks(t, l, k) == b + parse_blocks(t, l, next));
            assert(parse_blocks(p, lp, k) == b + parse_blocks(p, lp, next));
            assert(b + (parse_blocks(p, lp, next) + parse_blocks(t, l, n0)) =~= (b + parse_blocks(
                p,
                lp,
                next,
            )) + parse_blocks(t, l, n0));
        } else {
            lemma_parse_agree(t, l, p, lp, n0, k + 1);
        }
    }
}

/// From line `n0` on, the lines of `(t, l)` are those of `(q, lq)`, positions moved by `d`.
pub open spec fn agree_shifted(t: Seq<char>, l: Seq<(int, int)>, q: Seq<char>, lq: Seq<(int, int)>, n0: int, d: int) -> bool {
    &&& 0 <= n0
    &&& l.len() == n0 + lq.len()
    &&& forall|k: int|
        0 <= k < lq.len() ==> l[n0 + k] == (#[trigger] lq[k].0 + d, lq[k].1 + d) && line_at(t, l, n0 + k)
            == line_at(q, lq, k)
}

/// Blocks with their positions moved by `d`.
pub open spec fn shift_blocks(bs: Seq<BlockView>, d: int) -> Seq<BlockView> {
    bs.map_values(|b: BlockView| (b.0, b.1, b.2, b.3, b.4 + d, b.5 + d))
}

proof fn lemma_skip_shifted(t: Seq<char>, l: Seq<(int, int)>, q: Seq<char>, lq: Seq<(int, int)>, n0: int, d: int, k: int)
    requires
        agree_shifted(t, l, q, lq, n0, d),
        0 <= k,
    ensures
        skip_blank_lines(t, l, n0 + k) == n0 + skip_blank_lines(q, lq, k),
    decreases lq.len() - k,
{
    if k < lq.len() {
        assert(l[n0 + k] == (lq[k].0 + d, lq[k].1 + d));
        if trim(line_at(q, lq, k)).len() == 0 {
            lemma_skip_shifted(t, l, q, lq, n0, d, k + 1);
            assert(n0 + k + 1 == n0 + (k + 1));
        }
    }
}

proof fn lemma_body_shifted(
    t: Seq<char>,
    l: Seq<(int, int)>,
    q: Seq<char>,
    lq: Seq<(int, int)>,
    n0: int,
    d: int,
    k: int,
    body: Seq<char>,
    end: int,
)
    requires
        agree_shifted(t, l, q, lq, n0, d),
        0 <= k,
    ensures
        ({
            let s = body_scan(q, lq, k, body, end);
            body_scan(t, l, n0 + k, body, end + d) == (s.0, s.1, s.2 + d, s.3 + n0)
        }),
    decreases lq.len() - k,
{
    if k < lq.len() {
        assert(l[n0 + k] == (lq[k].0 + d, lq[k].1 + d));
        let ln = strip_eol(line_at(q, lq, k));
        if !has_prefix(ln, heading_prefix()) && !has_prefix(trim(ln), meta_prefix()) {
            lemma_body_shifted(t, l, q, lq, n0, d, k + 1, add_body_line(body, ln), lq[k].1);
            assert(n0 + k + 1 == n0 + (k + 1));
        }
    }
}

/// Parsing from line `n0 + k` is parsing the second part from line `k`, moved by `d`.
proof fn lemma_parse_shifted(t: Seq<char>, l: Seq<(int, int)>, q: Seq<char>, lq: Seq<(int, int)>, n0: int, d: int, k: int)
    requires
        agree_shifted(t, l, q, lq, n0, d),
        0 <= k,
    ensures
        parse_blocks(t, l, n0 + k) == shift_blocks(parse_blocks(q, lq, k), d),
    decreases lq.len() - k,
{
    if k >= lq.len() {
        assert(shift_blocks(parse_blocks(q, lq, k), d) =~= Seq::<BlockView>::empty());
    } else {
        assert(l[n0 + k] == (lq[k].0 + d, lq[k].1 + d));
        let ln = strip_eol(line_at(q, lq, k));
        if has_prefix(ln, heading_prefix()) && trim(ln.skip(heading_prefix().len() as int)).len() > 0 {
            lemma_skip_shifted(t, l, q, lq, n0, d, k + 1);
            assert(n0 + k + 1 == n0 + (k + 1));
            let j = skip_blank_lines(q, lq, k + 1);
            crate::memory::store::lemma_skip_blank_ge(q, lq, k + 1);
            lemma_body_shifted(t, l, q, lq, n0, d, j, seq![], lq[k].1);
            let s = body_scan(q, lq, j, seq![], lq[k].1);
            crate::memory::store::lemma_body_scan_ge(q, lq, j, seq![], lq[k].1);
            lemma_parse_shifted(t, l, q, lq, n0, d, s.3);
            let key = trim(ln.skip(heading_prefix().len() as int));
            let (at, tags) = match s.1 {
                Some((a, tg)) => (a, tg),
                None => (Seq::<char>::empty(), Seq::<Seq<char>>::empty()),
            };
            let bq: BlockView = (key, trim(s.0), tags, at, lq[k].0, s.2);
            assert(parse_blocks(q, lq, k) == seq![bq] + parse_blocks(q, lq, s.3));
            assert(parse_blocks(t, l, n0 + k) == seq![(key, trim(s.0), tags, at, lq[k].0 + d, s.2 + d)]
                + parse_blocks(t, l, n0 + s.3));
            assert(shift_blocks(seq![bq] + parse_blocks(q, lq, s.3), d) =~= seq![
                (key, trim(s.0), tags, at, lq[k].0 + d, s.2 + d),
            ] + shift_blocks(parse_blocks(q, lq, s.3), d));
        } else {
            lemma_parse_shifted(t, l, q, lq, n0, d, k + 1);
            assert(n0 + k + 1 == n0 + (k + 1));
        }
    }
}

/// Every line range lies inside the text.
proof fn lemma_line_ranges_bounds(t: Seq<char>)
    ensures
        forall|k: int|
            0 <= k < line_ranges(t).len() ==> 0 <= #[trigger] line_ranges(t)[k].0 <= line_ranges(t)[k].1
                <= t.len(),
{
    crate::memory::store::lemma_line_ranges_scan(t);
}

/// Parsing complete lines followed by text that starts with a heading: the blocks of the
/// first part, then those of the second, moved.
pub proof fn lemma_blocks_concat(p: Seq<char>, q: Seq<char>)
    requires
        complete_lines(p),
        heading_at(q, line_ranges(q), 0),
    ensures
        blocks_of(p + q) == blocks_of(p) + shift_blocks(blocks_of(q), p.len() as int),
{
    let t = p + q;
    let lp = line_ranges(p);
    let lq = line_ranges(q);
    let l = line_ranges(t);
    let n0 = lp.len() as int;
    let d = p.len() as int;
    lemma_lines_concat(p, q);
    lemma_line_ranges_bounds(p);
    lemma_line_ranges_bounds(q);
    assert forall|i: int| 0 <= i < n0 implies #[trigger] l[i] == lp[i] && line_at(t, l, i) == line_at(p, lp, i) by {
        assert(l[i] == lp[i]);
        assert(t.subrange(lp[i].0, lp[i].1) =~= p.subrange(lp[i].0, lp[i].1));
    }
    assert forall|k: int| 0 <= k < lq.len() implies l[n0 + k] == (#[trigger] lq[k].0 + d, lq[k].1 + d)
        && line_at(t, l, n0 + k) == line_at(q, lq, k) by {
        assert(l[n0 + k] == shift_ranges(lq, d)[k]);
        assert(t.subrange(lq[k].0 + d, lq[k].1 + d) =~= q.subrange(lq[k].0, lq[k].1));
    }
    assert(agree_below(t, l, p, lp, n0));
    assert(agree_shifted(t, l, q, lq, n0, d));
    assert(l[n0 + 0] == (lq[0].0 + d, lq[0].1 + d));
    assert(heading_at(t, l, n0));
    lemma_parse_agree(t, l, p, lp, n0, 0);
    lemma_parse_shifted(t, l, q, lq, n0, d, 0);
}

/// The texts of the lines of `t`, each with its line break.
pub open spec fn line_texts(t: Seq<char>) -> Seq<Seq<char>> {
    line_ranges(t).map_values(|r: (int, int)| t.subrange(r.0, r.1))
}

/// The lines of complete lines followed by more text.
proof fn lemma_texts_concat(p: Seq<char>, q: Seq<char>)
    requires
        complete_lines(p),
    ensures
        line_texts(p + q) == line_texts(p) + line_texts(q),
{
    lemma_lines_concat(p, q);
    lemma_line_ranges_bounds(p);
    lemma_line_ranges_bounds(q);
    let lp = line_ranges(p);
    let lq = line_ranges(q);
    let t = p + q;
    assert forall|i: int| 0 <= i < line_texts(t).len() implies #[trigger] line_texts(t)[i] == (
    line_texts(p) + line_texts(q))[i] by {
        if i < lp.len() {
            assert(t.subrange(lp[i].0, lp[i].1) =~= p.subrange(lp[i].0, lp[i].1));
        } else {
            let k = i - lp.len();
            assert(line_ranges(t)[i] == (lq[k].0 + p.len(), lq[k].1 + p.len()));
            assert(t.subrange(lq[k].0 + p.len(), lq[k].1 + p.len()) =~= q.subrange(lq[k].0, lq[k].1));
        }
    }
    assert(line_texts(t) =~= line_texts(p) + line_texts(q));
}

/// Scanning for lines and splitting at `'\\n'` see the same lines.
proof fn lemma_scan_split(c: Seq<char>)
    ensures
        ({
            let (rs, st) = line_ranges_scan(c);
            let (done, cur) = crate::text::split_scan(c, '\n');
            &&& rs.len() == done.len()
            &&& 0 <= st <= c.len()
            &&& cur == c.skip(st)
            &&& forall|i: int|
                0 <= i < rs.len() ==> 0 <= #[trigger] rs[i].0 <= rs[i].1 <= st && c.subrange(rs[i].0, rs[i].1)
                    == done[i].push('\n')
        }),
    decreases c.len(),
{
    if c.len() > 0 {
        let c0 = c.drop_last();
        lemma_scan_split(c0);
        let (rs, st) = line_ranges_scan(c0);
        let (done, cur) = crate::text::split_scan(c0, '\n');
        assert forall|i: int| 0 <= i < rs.len() implies c.subrange(rs[i].0, rs[i].1) == c0.subrange(rs[i].0, rs[i].1) by {
            assert(c.subrange(rs[i].0, rs[i].1) =~= c0.subrange(rs[i].0, rs[i].1));
        }
        if c.last() == '\n' {
            assert(c.subrange(st, c.len() as int) =~= cur.push('\n'));
            assert(c.skip(c.len() as int) =~= Seq::<char>::empty());
        } else {
            assert(c.skip(st) =~= cur.push(c.last()));
        }
    } else {
        assert(c.skip(0) =~= c);
    }
}

/// The lines of a text with a final line break are its `'\\n'`-separated pieces, each
/// with its break.
proof fn lemma_texts_split(c: Seq<char>)
    ensures
        line_texts(c.push('\n')) == crate::text::split_on(c, '\n').map_values(|x: Seq<char>| x.push('\n')),
        line_ranges(c.push('\n')).len() > 0,
        line_ranges(c.push('\n')).last().1 == c.len() + 1,
        line_ranges(c.push('\n'))[0].0 == 0,
{
    lemma_scan_split(c);
    let t = c.push('\n');
    assert(t.drop_last() == c);
    let (rs, st) = line_ranges_scan(c);
    let (done, cur) = crate::text::split_scan(c, '\n');
    assert(line_ranges(t) == rs.push((st, t.len() as int)));
    let want = crate::text::split_on(c, '\n').map_values(|x: Seq<char>| x.push('\n'));
    assert forall|i: int| 0 <= i < line_texts(t).len() implies #[trigger] line_texts(t)[i] == want[i] by {
        if i < rs.len() {
            assert(t.subrange(rs[i].0, rs[i].1) =~= c.subrange(rs[i].0, rs[i].1));
        } else {
            assert(t.subrange(st, t.len() as int) =~= cur.push('\n'));
        }
    }
    assert(line_texts(t) =~= want);
    lemma_scan_first_start(c);
}

/// The first line starts at 0, and with no line finished the current one does.
proof fn lemma_scan_first_start(c: Seq<char>)
    ensures
        line_ranges_scan(c).0.len() > 0 ==> line_ranges_scan(c).0[0].0 == 0,
        line_ranges_scan(c).0.len() == 0 ==> line_ranges_scan(c).1 == 0,
    decreases c.len(),
{
    if c.len() > 0 {
        lemma_scan_first_start(c.drop_last());
    }
}

/// A line without a line break, followed by one, is a single line.
proof fn lemma_texts_single(x: Seq<char>)
    requires
        !x.contains('\n'),
    ensures
        line_texts(x.push('\n')) == seq![x.push('\n')],
        line_ranges(x.push('\n')) == seq![(0int, (x.len() + 1) as int)],
{
    lemma_texts_split(x);
    assert(crate::text::split_on(x, '\n') == seq![x]) by {
        lemma_split_no_sep(x);
    }
    assert(seq![x].map_values(|y: Seq<char>| y.push('\n')) =~= seq![x.push('\n')]);
}

/// A text without the separator is one piece.
proof fn lemma_split_no_sep(x: Seq<char>)
    requires
        !x.contains('\n'),
    ensures
        crate::text::split_scan(x, '\n') == (Seq::<Seq<char>>::empty(), x),
        crate::text::split_on(x, '\n') == seq![x],
    decreases x.len(),
{
    if x.len() > 0 {
        assert(!x.drop_last().contains('\n')) by {
            if x.drop_last().contains('\n') {
                let j = choose|j: int| 0 <= j < x.drop_last().len() && x.drop_last()[j] == '\n';
                assert(x[j] == '\n');
            }
        }
        lemma_split_no_sep(x.drop_last());
        assert(x.last() != '\n') by {
            assert(x[x.len() - 1] == x.last());
        }
        assert(x.drop_last().push(x.last()) == x);
    }
}

/// The metadata comment line of a block, without its line break.
pub open spec fn meta_line(at: Seq<char>, tags: Seq<Seq<char>>) -> Seq<char> {
    "<!-- agentool-memory: at="@ + at + (if tags.len() == 0 {
        Seq::<char>::empty()
    } else {
        " tags="@ + crate::text::join_sep(tags, "|"@)
    }) + " -->"@
}

/// A tag that reads back as itself: not empty, no white space at either end, no `|`, no
/// line break.
pub open spec fn plain_tag(t: Seq<char>) -> bool {
    &&& t.len() > 0
    &&& !crate::text::is_white_space(t[0])
    &&& !crate::text::is_white_space(t.last())
    &&& !t.contains('|')
    &&& !t.contains('\n')
}

/// A timestamp that reads back as itself: no white space in it.
pub open spec fn plain_stamp(at: Seq<char>) -> bool {
    forall|i: int| 0 <= i < at.len() ==> !crate::text::is_white_space(#[trigger] at[i])
}

/// A text with no white space at either end is its own trim.
proof fn lemma_trim_plain(s: Seq<char>)
    requires
        s.len() > 0,
        !crate::text::is_white_space(s[0]),
        !crate::text::is_white_space(s.last()),
    ensures
        trim(s) == s,
        crate::text::trim_end(s) == s,
        crate::text::trim_start(s) == s,
{
}

/// A text without white space is its own trim.
proof fn lemma_trim_stamp(at: Seq<char>)
    requires
        plain_stamp(at),
    ensures
        trim(at) == at,
{
    if at.len() > 0 {
        assert(!crate::text::is_white_space(at[0]));
        assert(!crate::text::is_white_space(at[at.len() - 1]));
        lemma_trim_plain(at);
    }
}

/// A text without `c` is one piece when split at `c`.
proof fn lemma_split_none(x: Seq<char>, c: char)
    requires
        !x.contains(c),
    ensures
        crate::text::split_scan(x, c) == (Seq::<Seq<char>>::empty(), x),
        crate::text::split_on(x, c) == seq![x],
    decreases x.len(),
{
    if x.len() > 0 {
        assert(!x.drop_last().contains(c)) by {
            if x.drop_last().contains(c) {
                let j = choose|j: int| 0 <= j < x.drop_last().len() && x.drop_last()[j] == c;
                assert(x[j] == c);
            }
        }
        lemma_split_none(x.drop_last(), c);
        assert(x.last() != c) by {
            assert(x[x.len() - 1] == x.last());
        }
        assert(x.drop_last().push(x.last()) == x);
    }
}

/// Splitting a text followed by a piece without the separator.
proof fn lemma_split_scan_tail(a: Seq<char>, y: Seq<char>, c: char)
    requires
        !y.contains(c),
    ensures
        crate::text::split_scan(a + y, c) == (crate::text::split_scan(a, c).0, crate::text::split_scan(a, c).1 + y),
    decreases y.len(),
{
    if y.len() == 0 {
        assert(a + y == a);
        assert(crate::text::split_scan(a, c).1 + y == crate::text::split_scan(a, c).1);
    } else {
        assert(!y.drop_last().contains(c)) by {
            if y.drop_last().contains(c) {
                let j = choose|j: int| 0 <= j < y.drop_last().len() && y.drop_last()[j] == c;
                assert(y[j] == c);
            }
        }
        lemma_split_scan_tail(a, y.drop_last(), c);
        assert((a + y).drop_last() == a + y.drop_last());
        assert((a + y).last() == y.last());
        assert(y.last() != c) by {
            assert(y[y.len() - 1] == y.last());
        }
        assert((crate::text::split_scan(a, c).1 + y.drop_last()).push(y.last()) =~= crate::text::split_scan(a, c).1 + y);
    }
}

/// Splitting a join gives the pieces back, when no piece holds the separator.
proof fn lemma_split_join_sep(xs: Seq<Seq<char>>, c: char)
    requires
        xs.len() >= 1,
        forall|i: int| 0 <= i < xs.len() ==> !(#[trigger] xs[i]).contains(c),
    ensures
        crate::text::split_on(crate::text::join_sep(xs, seq![c]), c) == xs,
    decreases xs.len(),
{
    if xs.len() == 1 {
        lemma_split_none(xs[0], c);
        assert(xs =~= seq![xs[0]]);
    } else {
        let ys = xs.drop_last();
        let y = xs.last();
        assert(!y.contains(c)) by {
            assert(xs[xs.len() - 1] == y);
        }
        lemma_split_join_sep(ys, c);
        let a = crate::text::join_sep(ys, seq![c]);
        assert(crate::text::join_sep(xs, seq![c]) == a + seq![c] + y);
        lemma_split_scan_tail(a + seq![c], y, c);
        assert((a + seq![c]).drop_last() == a);
        assert(crate::text::split_scan(a + seq![c], c) == (crate::text::split_on(a, c), Seq::<char>::empty()));
        assert(Seq::<char>::empty() + y == y);
        assert(ys.push(y) == xs);
    }
}

/// The first occurrence of a pattern that starts with a character the text lacks before
/// position `n`, where it occurs.
proof fn lemma_first_occurrence_at(s: Seq<char>, p: Seq<char>, n: int, i: int)
    requires
        0 <= i <= n <= s.len(),
        p.len() > 0,
        forall|j: int| i <= j < n ==> s[j] != p[0],
        crate::text::occurs_at(s, p, n),
    ensures
        crate::text::first_occurrence_from(s, p, i) == Some(n),
    decreases n - i,
{
    if i < n {
        assert(s.subrange(i, i + p.len())[0] == s[i]);
        lemma_first_occurrence_at(s, p, n, i + 1);
    }
}

/// A pattern whose first character the text lacks does not occur.
proof fn lemma_first_occurrence_none(s: Seq<char>, p: Seq<char>, i: int)
    requires
        0 <= i <= s.len() + 1,
        p.len() > 0,
        forall|j: int| 0 <= j < s.len() ==> s[j] != p[0],
    ensures
        crate::text::first_occurrence_from(s, p, i) is None,
    decreases s.len() + 1 - i,
{
    if i <= s.len() {
        if i + p.len() <= s.len() {
            assert(s.subrange(i, i + p.len())[0] == s[i]);
        }
        lemma_first_occurrence_none(s, p, i + 1);
    }
}

/// The first character of a join is that of the first piece.
proof fn lemma_join_first(xs: Seq<Seq<char>>, sep: Seq<char>)
    requires
        xs.len() > 0,
        xs[0].len() > 0,
    ensures
        crate::text::join_sep(xs, sep).len() > 0,
        crate::text::join_sep(xs, sep)[0] == xs[0][0],
    decreases xs.len(),
{
    if xs.len() > 1 {
        lemma_join_first(xs.drop_last(), sep);
    }
}

/// The last character of a join is that of the last piece.
proof fn lemma_join_last(xs: Seq<Seq<char>>, sep: Seq<char>)
    requires
        xs.len() > 0,
        xs.last().len() > 0,
    ensures
        crate::text::join_sep(xs, sep).len() > 0,
        crate::text::join_sep(xs, sep).last() == xs.last().last(),
{
    if xs.len() == 1 {
        assert(xs.last() == xs[0]);
    }
}

/// Keeping the items that all satisfy a predicate keeps them all.
proof fn lemma_filter_all(xs: Seq<Seq<char>>, pred: spec_fn(Seq<char>) -> bool)
    requires
        forall|i: int| 0 <= i < xs.len() ==> pred(#[trigger] xs[i]),
    ensures
        xs.filter(pred) == xs,
    decreases xs.len(),
{
    reveal(Seq::filter);
    if xs.len() > 0 {
        lemma_filter_all(xs.drop_last(), pred);
        assert(pred(xs[xs.len() - 1]));
        assert(xs.drop_last().push(xs.last()) == xs);
    }
}

/// The metadata line of a block reads back as its timestamp and tags.
pub proof fn lemma_meta_roundtrip(at: Seq<char>, tags: Seq<Seq<char>>)
    requires
        plain_stamp(at),
        forall|i: int| 0 <= i < tags.len() ==> plain_tag(#[trigger] tags[i]),
    ensures
        parse_meta(meta_line(at, tags)) == Some((at, tags)),
{
    reveal_strlit("<!-- agentool-memory: at=");
    reveal_strlit("<!-- agentool-memory:");
    reveal_strlit(" tags=");
    reveal_strlit(" -->");
    reveal_strlit("-->");
    reveal_strlit("at=");
    reveal_strlit("|");
    let j = crate::text::join_sep(tags, "|"@);
    let tp: Seq<char> = if tags.len() == 0 {
        Seq::<char>::empty()
    } else {
        " tags="@ + j
    };
    let m = meta_line(at, tags);
    let x = "at="@ + at + tp;
    assert(m =~= meta_prefix() + seq![' '] + x + " -->"@);
    // the whole line is its own trim
    assert(m[0] == '<');
    assert(m.last() == '>');
    lemma_trim_plain(m);
    assert(m.take(meta_prefix().len() as int) =~= meta_prefix());
    let s1 = m.skip(meta_prefix().len() as int);
    assert(s1 =~= seq![' '] + x + " -->"@);
    // trimming the rest drops the leading space
    let a0 = x + " -->"@;
    assert(s1.drop_first() =~= a0);
    assert(s1.last() == '>');
    assert(crate::text::trim_end(s1) == s1);
    assert(crate::text::trim_start(s1) == crate::text::trim_start(a0));
    assert(a0[0] == 'a');
    assert(a0.last() == '>');
    lemma_trim_plain(a0);
    assert(trim(s1) == a0);
    assert(a0.skip(a0.len() - 3) =~= "-->"@);
    // the inner part is its own trim
    let x1 = a0.take(a0.len() - 3);
    assert(x1 =~= x.push(' '));
    if tags.len() > 0 {
        assert(plain_tag(tags[0]));
        assert(plain_tag(tags[tags.len() - 1]));
        lemma_join_last(tags, "|"@);
        lemma_join_first(tags, "|"@);
        assert(x.last() == tags.last().last());
    } else if at.len() > 0 {
        assert(!crate::text::is_white_space(at[at.len() - 1]));
        assert(x.last() == at.last());
    } else {
        assert(x.last() == '=');
    }
    assert(x[0] == 'a');
    lemma_trim_plain(x);
    assert(x1.drop_last() == x);
    assert(trim(x1) == x);
    assert(x.take(3) =~= "at="@);
    let rest = x.skip(3);
    assert(rest =~= at + tp);
    lemma_trim_stamp(at);
    if tags.len() == 0 {
        assert(rest =~= at);
        lemma_first_occurrence_none(rest, " tags="@, 0);
    } else {
        let n = at.len() as int;
        assert(rest.subrange(n, n + 6) =~= " tags="@);
        lemma_first_occurrence_at(rest, " tags="@, n, 0);
        assert(rest.take(n) =~= at);
        assert(rest.skip(n + " tags="@.len()) =~= j);
        assert(plain_tag(tags[0]));
        assert(plain_tag(tags[tags.len() - 1]));
        lemma_join_last(tags, "|"@);
        lemma_join_first(tags, "|"@);
        lemma_trim_plain(j);
        assert forall|i: int| 0 <= i < tags.len() implies !(#[trigger] tags[i]).contains('|') by {
            assert(plain_tag(tags[i]));
        }
        assert("|"@ == seq!['|']);
        lemma_split_join_sep(tags, '|');
        let pieces = crate::text::split_on(j, '|');
        assert(pieces == tags);
        assert(pieces.map_values(|t: Seq<char>| trim(t)) =~= tags) by {
            assert forall|i: int| 0 <= i < tags.len() implies trim(#[trigger] tags[i]) == tags[i] by {
                assert(plain_tag(tags[i]));
                lemma_trim_plain(tags[i]);
            }
        }
        assert forall|i: int| 0 <= i < tags.len() implies (|t: Seq<char>| t.len() > 0)(#[trigger] tags[i]) by {
            assert(plain_tag(tags[i]));
        }
        lemma_filter_all(tags, |t: Seq<char>| t.len() > 0);
        assert(crate::memory::store::tag_list(j) == tags);
    }
}

/// A piece of a split holds no character the text lacks, and never the separator.
proof fn lemma_split_pieces_lack(c: Seq<char>, sep: char, ch: char)
    requires
        !c.contains(ch) || ch == sep,
    ensures
        forall|i: int|
            0 <= i < crate::text::split_on(c, sep).len() ==> !(#[trigger] crate::text::split_on(c, sep)[i]).contains(ch),
    decreases c.len(),
{
    let (done, cur) = crate::text::split_scan(c, sep);
    if c.len() == 0 {
        assert(crate::text::split_on(c, sep) == seq![Seq::<char>::empty()]);
        assert forall|i: int| 0 <= i < crate::text::split_on(c, sep).len() implies !(#[trigger] crate::text::split_on(c, sep)[i]).contains(ch) by {
            assert(crate::text::split_on(c, sep)[i] =~= Seq::<char>::empty());
        }
    } else {
        let c0 = c.drop_last();
        assert(!c0.contains(ch) || ch == sep) by {
            if c0.contains(ch) && ch != sep {
                let j = choose|j: int| 0 <= j < c0.len() && c0[j] == ch;
                assert(c[j] == ch);
            }
        }
        lemma_split_pieces_lack(c0, sep, ch);
        let (d0, cur0) = crate::text::split_scan(c0, sep);
        assert(crate::text::split_on(c0, sep) == d0.push(cur0));
        assert forall|i: int| 0 <= i < crate::text::split_on(c, sep).len() implies !(#[trigger] crate::text::split_on(c, sep)[i]).contains(ch) by {
            if c.last() == sep {
                assert(crate::text::split_on(c, sep) == d0.push(cur0).push(Seq::<char>::empty()));
                if i < d0.len() + 1 {
                    assert(crate::text::split_on(c, sep)[i] == crate::text::split_on(c0, sep)[i]);
                } else {
                    assert(crate::text::split_on(c, sep)[i] =~= Seq::<char>::empty());
                }
            } else {
                assert(crate::text::split_on(c, sep) == d0.push(cur0.push(c.last())));
                if i < d0.len() {
                    assert(crate::text::split_on(c, sep)[i] == crate::text::split_on(c0, sep)[i]);
                } else {
                    assert(crate::text::split_on(c0, sep)[i] == cur0);
                    assert(!cur0.contains(ch));
                    assert(c.last() != ch) by {
                        assert(c[c.len() - 1] == c.last());
                    }
                    let x = cur0.push(c.last());
                    if x.contains(ch) {
                        let j = choose|j: int| 0 <= j < x.len() && x[j] == ch;
                        if j < cur0.len() {
                            assert(cur0[j] == ch);
                        }
                    }
                }
            }
        }
    }
}

/// Joining two non-empty lists.
proof fn lemma_join_append(xs: Seq<Seq<char>>, ys: Seq<Seq<char>>, sep: Seq<char>)
    requires
        xs.len() > 0,
        ys.len() > 0,
    ensures
        crate::text::join_sep(xs + ys, sep) == crate::text::join_sep(xs, sep) + sep + crate::text::join_sep(ys, sep),
    decreases ys.len(),
{
    if ys.len() == 1 {
        assert((xs + ys).drop_last() == xs);
        assert((xs + ys).last() == ys[0]);
    } else {
        lemma_join_append(xs, ys.drop_last(), sep);
        assert((xs + ys).drop_last() == xs + ys.drop_last());
        assert((xs + ys).last() == ys.last());
        assert(crate::text::join_sep(xs, sep) + sep + (crate::text::join_sep(ys.drop_last(), sep) + sep
            + ys.last()) =~= (crate::text::join_sep(xs, sep) + sep + crate::text::join_sep(ys.drop_last(), sep))
            + sep + ys.last());
    }
}

/// Joining blank pieces with a blank separator is blank.
proof fn lemma_join_blank(xs: Seq<Seq<char>>, sep: Seq<char>)
    requires
        is_blank(sep),
        forall|i: int| 0 <= i < xs.len() ==> is_blank(#[trigger] xs[i]),
    ensures
        is_blank(crate::text::join_sep(xs, sep)),
    decreases xs.len(),
{
    if xs.len() == 1 {
        assert(is_blank(xs[0]));
    } else if xs.len() > 1 {
        lemma_join_blank(xs.drop_last(), sep);
        let a = crate::text::join_sep(xs.drop_last(), sep);
        assert(is_blank(xs[xs.len() - 1]));
        let j = a + sep + xs.last();
        assert forall|k: int| 0 <= k < j.len() implies crate::text::is_white_space(#[trigger] j[k]) by {
            if k < a.len() {
                assert(j[k] == a[k]);
            } else if k < a.len() + sep.len() {
                assert(j[k] == sep[k - a.len()]);
            } else {
                assert(j[k] == xs.last()[k - a.len() - sep.len()]);
            }
        }
    }
}

/// A join starts with its first piece.
proof fn lemma_join_starts(xs: Seq<Seq<char>>, sep: Seq<char>)
    requires
        xs.len() > 0,
    ensures
        crate::text::join_sep(xs, sep).len() >= xs[0].len(),
        crate::text::join_sep(xs, sep).take(xs[0].len() as int) == xs[0],
    decreases xs.len(),
{
    if xs.len() > 1 {
        lemma_join_starts(xs.drop_last(), sep);
        let a = crate::text::join_sep(xs.drop_last(), sep);
        assert((a + sep + xs.last()).take(xs[0].len() as int) =~= a.take(xs[0].len() as int));
    } else {
        assert(crate::text::join_sep(xs, sep).take(xs[0].len() as int) =~= xs[0]);
    }
}

/// Trailing white space comes off after a blank prefix too, when the rest is not blank.
proof fn lemma_trim_end_after_blank(w: Seq<char>, x: Seq<char>)
    requires
        !is_blank(x),
    ensures
        crate::text::trim_end(w + x) == w + crate::text::trim_end(x),
    decreases x.len(),
{
    if x.len() > 0 && crate::text::is_white_space(x.last()) {
        let x0 = x.drop_last();
        assert(!is_blank(x0)) by {
            if is_blank(x0) {
                assert forall|k: int| 0 <= k < x.len() implies crate::text::is_white_space(#[trigger] x[k]) by {
                    if k < x0.len() {
                        assert(x[k] == x0[k]);
                    }
                }
            }
        }
        lemma_trim_end_after_blank(w, x0);
        assert((w + x).drop_last() == w + x0);
        assert((w + x).last() == x.last());
    } else {
        assert(x.len() > 0);
        assert((w + x).last() == x.last());
    }
}

/// Leading white space of a blank prefix comes off entirely.
proof fn lemma_trim_start_after_blank(w: Seq<char>, y: Seq<char>)
    requires
        is_blank(w),
    ensures
        crate::text::trim_start(w + y) == crate::text::trim_start(y),
    decreases w.len(),
{
    if w.len() == 0 {
        assert(w + y == y);
    } else {
        let w0 = w.drop_first();
        assert(is_blank(w0)) by {
            assert forall|k: int| 0 <= k < w0.len() implies crate::text::is_white_space(#[trigger] w0[k]) by {
                assert(w0[k] == w[k + 1]);
            }
        }
        lemma_trim_start_after_blank(w0, y);
        assert((w + y)[0] == w[0]);
        assert((w + y).drop_first() == w0 + y);
    }
}

/// A line break at the end changes neither blankness nor the line itself once stripped.
proof fn lemma_line_with_break(x: Seq<char>)
    requires
        !x.contains('\n'),
        !x.contains('\r'),
    ensures
        strip_eol(x.push('\n')) == x,
        is_blank(x.push('\n')) == is_blank(x),
        (trim(x.push('\n')).len() == 0) == (trim(x).len() == 0),
{
    assert(x.push('\n').drop_last() == x);
    if x.len() > 0 {
        assert(x.last() != '\n' && x.last() != '\r') by {
            assert(x[x.len() - 1] == x.last());
        }
    }
    assert(strip_eol(x) == x);
    assert(strip_eol(x.push('\n')) == strip_eol(x));
    assert(crate::text::is_white_space('\n'));
    if is_blank(x) {
        assert forall|k: int| 0 <= k < x.push('\n').len() implies crate::text::is_white_space(#[trigger] x.push('\n')[k]) by {
            if k < x.len() {
                assert(x.push('\n')[k] == x[k]);
            }
        }
    }
    if is_blank(x.push('\n')) {
        assert forall|k: int| 0 <= k < x.len() implies crate::text::is_white_space(#[trigger] x[k]) by {
            assert(x.push('\n')[k] == x[k]);
        }
    }
    crate::text::lemma_trim_empty_iff_blank(x);
    crate::text::lemma_trim_empty_iff_blank(x.push('\n'));
}

/// A join holds no character that neither the pieces nor the separator hold.
proof fn lemma_join_lacks(xs: Seq<Seq<char>>, sep: Seq<char>, ch: char)
    requires
        !sep.contains(ch),
        forall|i: int| 0 <= i < xs.len() ==> !(#[trigger] xs[i]).contains(ch),
    ensures
        !crate::text::join_sep(xs, sep).contains(ch),
    decreases xs.len(),
{
    if xs.len() == 1 {
        assert(!xs[0].contains(ch));
    } else if xs.len() > 1 {
        lemma_join_lacks(xs.drop_last(), sep, ch);
        let a = crate::text::join_sep(xs.drop_last(), sep);
        assert(!xs[xs.len() - 1].contains(ch));
        let j = a + sep + xs.last();
        if j.contains(ch) {
            let k = choose|k: int| 0 <= k < j.len() && j[k] == ch;
            if k < a.len() {
                assert(a[k] == ch);
            } else if k < a.len() + sep.len() {
                assert(sep[k - a.len()] == ch);
            } else {
                assert(xs.last()[k - a.len() - sep.len()] == ch);
            }
        }
    }
}

/// A line of a block body that cannot end the body early.
pub open spec fn plain_body_line(l: Seq<char>) -> bool {
    !has_prefix(l, heading_prefix()) && !has_prefix(trim(l), meta_prefix())
}

/// A block that reads back exactly as written: a single-line key that is its own trim, a
/// content without `'\\r'` none of whose lines starts with `### ` or (trimmed) with the
/// metadata marker, a timestamp without white space, and tags that are plain.
pub open spec fn readable_block(key: Seq<char>, content: Seq<char>, tags: Seq<Seq<char>>, at: Seq<char>) -> bool {
    &&& key.len() > 0
    &&& trim(key) == key
    &&& !key.contains('\n')
    &&& !key.contains('\r')
    &&& !content.contains('\r')
    &&& forall|i: int|
        0 <= i < crate::text::split_on(crate::text::trim_end(content), '\n').len() ==> plain_body_line(
            #[trigger] crate::text::split_on(crate::text::trim_end(content), '\n')[i],
        )
    &&& plain_stamp(at)
    &&& forall|i: int| 0 <= i < tags.len() ==> plain_tag(#[trigger] tags[i])
}

/// The metadata line is one line, not a heading, and starts with the marker.
proof fn lemma_meta_line_shape(at: Seq<char>, tags: Seq<Seq<char>>)
    requires
        plain_stamp(at),
        forall|i: int| 0 <= i < tags.len() ==> plain_tag(#[trigger] tags[i]),
    ensures
        !meta_line(at, tags).contains('\n'),
        meta_line(at, tags).last() == '>',
        trim(meta_line(at, tags)) == meta_line(at, tags),
        has_prefix(meta_line(at, tags), meta_prefix()),
        !has_prefix(meta_line(at, tags), heading_prefix()),
        meta_line(at, tags).len() > 0,
{
    reveal_strlit("<!-- agentool-memory: at=");
    reveal_strlit("<!-- agentool-memory:");
    reveal_strlit(" tags=");
    reveal_strlit(" -->");
    reveal_strlit("|");
    reveal_strlit("### ");
    let j = crate::text::join_sep(tags, "|"@);
    let tp: Seq<char> = if tags.len() == 0 {
        Seq::<char>::empty()
    } else {
        " tags="@ + j
    };
    let m = meta_line(at, tags);
    assert(m == "<!-- agentool-memory: at="@ + at + tp + " -->"@);
    assert(m[0] == '<');
    assert(m.last() == '>');
    lemma_trim_plain(m);
    assert(m.take(meta_prefix().len() as int) =~= meta_prefix());
    assert(m.take(4)[0] == '<');
    assert(!at.contains('\n')) by {
        if at.contains('\n') {
            let k = choose|k: int| 0 <= k < at.len() && at[k] == '\n';
            assert(!crate::text::is_white_space(at[k]));
        }
    }
    assert forall|i: int| 0 <= i < tags.len() implies !(#[trigger] tags[i]).contains('\n') by {
        assert(plain_tag(tags[i]));
    }
    lemma_join_lacks(tags, "|"@, '\n');
    assert(!tp.contains('\n')) by {
        if tp.contains('\n') {
            let k = choose|k: int| 0 <= k < tp.len() && tp[k] == '\n';
            if k >= 6 {
                assert(j[k - 6] == '\n');
            }
        }
    }
    if m.contains('\n') {
        let k = choose|k: int| 0 <= k < m.len() && m[k] == '\n';
        let pre = "<!-- agentool-memory: at="@;
        if k < pre.len() {
        } else if k < pre.len() + at.len() {
            assert(at[k - pre.len()] == '\n');
        } else if k < pre.len() + at.len() + tp.len() {
            assert(tp[k - pre.len() - at.len()] == '\n');
        } else {
        }
    }
}

/// A line without a break inside, whose end is neither break character, followed by a
/// line break.
proof fn lemma_strip_break(x: Seq<char>)
    requires
        !x.contains('\n'),
        x.len() == 0 || (x.last() != '\n' && x.last() != '\r'),
    ensures
        strip_eol(x.push('\n')) == x,
{
    assert(x.push('\n').drop_last() == x);
    assert(strip_eol(x) == x);
}

/// A text ending in a line break: its last line ends at its end.
proof fn lemma_last_line_end(t: Seq<char>)
    requires
        t.len() > 0,
        t.last() == '\n',
    ensures
        line_ranges(t).len() > 0,
        line_ranges(t).last().1 == t.len(),
{
}

/// The lines of a block: its heading, a blank line, the content's lines, a blank line, the
/// metadata line and a last blank line.
proof fn lemma_block_shape(key: Seq<char>, content: Seq<char>, tags: Seq<Seq<char>>, at: Seq<char>)
    requires
        readable_block(key, content, tags, at),
    ensures
        ({
            let b = block_text(key, content, tags, at);
            let ps = crate::text::split_on(crate::text::trim_end(content), '\n');
            let nl = seq!['\n'];
            &&& line_texts(b) == seq![("### "@ + key).push('\n'), nl] + ps.map_values(
                |x: Seq<char>| x.push('\n'),
            ) + seq![nl, meta_line(at, tags).push('\n'), nl]
            &&& line_ranges(b).len() == ps.len() + 5
            &&& line_ranges(b)[0].0 == 0
            &&& line_ranges(b)[ps.len() + 3int].1 == b.len() - 1
        }),
{
    reveal_strlit("### ");
    reveal_strlit("\n\n");
    reveal_strlit("\n\n<!-- agentool-memory: at=");
    reveal_strlit("<!-- agentool-memory: at=");
    reveal_strlit(" -->\n\n");
    reveal_strlit(" -->");
    reveal_strlit(" tags=");
    let tc = crate::text::trim_end(content);
    let ps = crate::text::split_on(tc, '\n');
    let nl = seq!['\n'];
    let h = "### "@ + key;
    let m = meta_line(at, tags);
    let b = block_text(key, content, tags, at);
    let p1 = h.push('\n');
    let p2 = p1 + nl;
    let c = tc.push('\n');
    let p3 = p2 + c;
    let p4 = p3 + nl;
    let m1 = m.push('\n');
    let p5 = p4 + m1;
    assert(b =~= p5 + nl);
    // the pieces
    assert(!h.contains('\n')) by {
        if h.contains('\n') {
            let k = choose|k: int| 0 <= k < h.len() && h[k] == '\n';
            assert(key[k - 4] == '\n');
        }
    }
    lemma_texts_single(h);
    lemma_texts_single(Seq::<char>::empty());
    assert(Seq::<char>::empty().push('\n') == nl);
    lemma_texts_split(tc);
    lemma_meta_line_shape(at, tags);
    lemma_texts_single(m);
    lemma_texts_concat(p1, nl);
    lemma_texts_concat(p2, c);
    lemma_texts_concat(p3, nl);
    lemma_texts_concat(p4, m1);
    lemma_texts_concat(p5, nl);
    assert(line_texts(b) =~= seq![p1, nl] + ps.map_values(|x: Seq<char>| x.push('\n')) + seq![nl, m1, nl]);
    // positions
    let rest = nl + c + nl + m1 + nl;
    assert(b =~= p1 + rest);
    lemma_lines_concat(p1, rest);
    lemma_lines_concat(p5, nl);
    lemma_last_line_end(p5);
    assert(line_ranges(p5).len() == line_texts(p5).len());
    assert(line_texts(p5) =~= seq![p1, nl] + ps.map_values(|x: Seq<char>| x.push('\n')) + seq![nl, m1]);
    assert(line_ranges(b)[ps.len() + 3int] == line_ranges(p5)[ps.len() + 3int]);
}

/// The first piece at or after `i` that is not blank (`ps.len()` if none).
pub open spec fn first_nonblank(ps: Seq<Seq<char>>, i: int) -> int
    decreases ps.len() - i,
{
    if i < 0 || i >= ps.len() {
        ps.len() as int
    } else if trim(ps[i]).len() > 0 {
        i
    } else {
        first_nonblank(ps, i + 1)
    }
}

/// `first_nonblank` stays in range, lands on a non-blank piece when it finds one, and only
/// skips blank pieces.
proof fn lemma_first_nonblank(ps: Seq<Seq<char>>, i: int)
    requires
        0 <= i <= ps.len(),
    ensures
        i <= first_nonblank(ps, i) <= ps.len(),
        first_nonblank(ps, i) < ps.len() ==> trim(ps[first_nonblank(ps, i)]).len() > 0,
        forall|j: int| i <= j < first_nonblank(ps, i) ==> trim(#[trigger] ps[j]).len() == 0,
    decreases ps.len() - i,
{
    if i < ps.len() && trim(ps[i]).len() == 0 {
        lemma_first_nonblank(ps, i + 1);
    }
}

/// The line structure of a block, as the parse needs it.
pub open spec fn block_lines(b: Seq<char>, ps: Seq<Seq<char>>, h: Seq<char>, m: Seq<char>) -> bool {
    let nl = seq!['\n'];
    &&& line_texts(b) == seq![h.push('\n'), nl] + ps.map_values(|x: Seq<char>| x.push('\n')) + seq![
        nl,
        m.push('\n'),
        nl,
    ]
    &&& line_ranges(b).len() == ps.len() + 5
    &&& forall|i: int| 0 <= i < ps.len() ==> !(#[trigger] ps[i]).contains('\n') && !ps[i].contains('\r') && plain_body_line(ps[i])
    &&& !m.contains('\n')
    &&& m.last() == '>'
    &&& trim(m) == m
    &&& has_prefix(m, meta_prefix())
    &&& !has_prefix(m, heading_prefix())
    &&& m.len() > 0
}

/// The text of each line of a block.
proof fn lemma_block_line(b: Seq<char>, ps: Seq<Seq<char>>, h: Seq<char>, m: Seq<char>, k: int)
    requires
        block_lines(b, ps, h, m),
        0 <= k < ps.len() + 5,
    ensures
        line_at(b, line_ranges(b), k) == line_texts(b)[k],
        k == 0 ==> line_texts(b)[k] == h.push('\n'),
        k == 1 ==> line_texts(b)[k] == seq!['\n'],
        2 <= k < ps.len() + 2 ==> line_texts(b)[k] == ps[k - 2].push('\n'),
        k == ps.len() + 2 ==> line_texts(b)[k] == seq!['\n'],
        k == ps.len() + 3 ==> line_texts(b)[k] == m.push('\n'),
        k == ps.len() + 4 ==> line_texts(b)[k] == seq!['\n'],
{
    let nl = seq!['\n'];
    let mid = ps.map_values(|x: Seq<char>| x.push('\n'));
    assert(line_texts(b) == seq![h.push('\n'), nl] + mid + seq![nl, m.push('\n'), nl]);
    if 2 <= k < ps.len() + 2 {
        assert(line_texts(b)[k] == mid[k - 2]);
    }
}

/// The empty line is blank, and neither a heading nor a metadata line.
proof fn lemma_empty_line()
    ensures
        strip_eol(seq!['\n']) == Seq::<char>::empty(),
        trim(seq!['\n']).len() == 0,
        !has_prefix(Seq::<char>::empty(), heading_prefix()),
        !has_prefix(trim(Seq::<char>::empty()), meta_prefix()),
{
    reveal_strlit("### ");
    reveal_strlit("<!-- agentool-memory:");
    assert(seq!['\n'].drop_last() =~= Seq::<char>::empty());
    assert(strip_eol(Seq::<char>::empty()) == Seq::<char>::empty());
    assert(crate::text::is_white_space('\n'));
    crate::text::lemma_trim_empty_iff_blank(seq!['\n']);
    assert(is_blank(seq!['\n']));
}

/// Skipping blank lines from a content line of a block.
proof fn lemma_block_skip(b: Seq<char>, ps: Seq<Seq<char>>, h: Seq<char>, m: Seq<char>, i: int)
    requires
        block_lines(b, ps, h, m),
        0 <= i <= ps.len(),
    ensures
        skip_blank_lines(b, line_ranges(b), 2 + i) == if first_nonblank(ps, i) < ps.len() {
            2 + first_nonblank(ps, i)
        } else {
            ps.len() + 3int
        },
    decreases ps.len() - i,
{
    let lb = line_ranges(b);
    lemma_block_line(b, ps, h, m, 2 + i);
    if i == ps.len() {
        lemma_empty_line();
        lemma_block_line(b, ps, h, m, ps.len() + 3int);
        lemma_meta_not_blank(m);
        assert(skip_blank_lines(b, lb, 2 + i + 1) == ps.len() + 3);
    } else {
        lemma_line_with_break(ps[i]);
        if trim(ps[i]).len() == 0 {
            lemma_block_skip(b, ps, h, m, i + 1);
            assert(2 + i + 1 == 2 + (i + 1));
        }
    }
}

/// The metadata line, with its break, is not blank.
proof fn lemma_meta_not_blank(m: Seq<char>)
    requires
        m.len() > 0,
        m.last() == '>',
    ensures
        trim(m.push('\n')).len() > 0,
{
    crate::text::lemma_trim_empty_iff_blank(m.push('\n'));
    assert(m.push('\n')[m.len() - 1] == '>');
    assert(!crate::text::is_white_space('>'));
}

/// The metadata line ends the body of a block.
proof fn lemma_block_meta(b: Seq<char>, ps: Seq<Seq<char>>, h: Seq<char>, m: Seq<char>, acc: Seq<char>, e: int)
    requires
        block_lines(b, ps, h, m),
    ensures
        body_scan(b, line_ranges(b), ps.len() + 3int, acc, e) == (
            acc,
            parse_meta(m),
            line_ranges(b)[ps.len() + 3int].1,
            ps.len() + 4int,
        ),
{
    lemma_block_line(b, ps, h, m, ps.len() + 3int);
    lemma_strip_break(m);
}

/// Reading the body of a block from content line `i`, once the first non-blank line `s`
/// has started it.
proof fn lemma_block_body(
    b: Seq<char>,
    ps: Seq<Seq<char>>,
    h: Seq<char>,
    m: Seq<char>,
    s: int,
    i: int,
    acc: Seq<char>,
    e: int,
)
    requires
        block_lines(b, ps, h, m),
        0 <= s < ps.len(),
        trim(ps[s]).len() > 0,
        s <= i <= ps.len(),
        acc == (if i == s {
            Seq::<char>::empty()
        } else {
            crate::text::join_sep(ps.subrange(s, i), "\n"@)
        }),
    ensures
        body_scan(b, line_ranges(b), 2 + i, acc, e) == (
            crate::text::join_sep(ps.subrange(s, ps.len() as int), "\n"@).push('\n'),
            parse_meta(m),
            line_ranges(b)[ps.len() + 3int].1,
            ps.len() + 4int,
        ),
    decreases ps.len() - i,
{
    reveal_strlit("\n");
    let lb = line_ranges(b);
    let j = crate::text::join_sep(ps.subrange(s, ps.len() as int), "\n"@);
    lemma_block_line(b, ps, h, m, 2 + i);
    if i == ps.len() {
        lemma_empty_line();
        assert(i > s);
        lemma_join_starts(ps.subrange(s, i), "\n"@);
        assert(ps.subrange(s, i)[0] == ps[s]);
        assert(ps[s].len() > 0) by {
            if ps[s].len() == 0 {
                assert(trim(ps[s]) =~= Seq::<char>::empty()) by {
                    assert(crate::text::trim_end(ps[s]) == ps[s]);
                }
            }
        }
        assert(acc.len() > 0);
        assert(crate::memory::store::add_body_line(acc, Seq::<char>::empty()) =~= acc.push('\n'));
        lemma_block_meta(b, ps, h, m, acc.push('\n'), lb[2 + i].1);
        assert(2 + i + 1 == ps.len() + 3);
        assert(acc == j);
    } else {
        assert(!ps[i].contains('\n') && !ps[i].contains('\r') && plain_body_line(ps[i]));
        lemma_line_with_break(ps[i]);
        let next = crate::text::join_sep(ps.subrange(s, i + 1), "\n"@);
        if i == s {
            assert(ps[s].len() > 0) by {
                if ps[s].len() == 0 {
                    assert(trim(ps[s]) =~= Seq::<char>::empty()) by {
                        assert(crate::text::trim_end(ps[s]) == ps[s]);
                    }
                }
            }
            assert(ps.subrange(s, i + 1) =~= seq![ps[s]]);
            assert(crate::memory::store::add_body_line(acc, ps[i]) == next);
        } else {
            lemma_join_starts(ps.subrange(s, i), "\n"@);
            assert(ps.subrange(s, i)[0] == ps[s]);
            assert(ps[s].len() > 0) by {
                if ps[s].len() == 0 {
                    assert(trim(ps[s]) =~= Seq::<char>::empty()) by {
                        assert(crate::text::trim_end(ps[s]) == ps[s]);
                    }
                }
            }
            assert(ps.subrange(s, i + 1).drop_last() =~= ps.subrange(s, i));
            assert(ps.subrange(s, i + 1).last() == ps[i]);
            assert(crate::memory::store::add_body_line(acc, ps[i]) =~= next);
        }
        lemma_block_body(b, ps, h, m, s, i + 1, next, lb[2 + i].1);
        assert(2 + i + 1 == 2 + (i + 1));
    }
}

/// A text that is not blank has a non-blank prefix piece.
proof fn lemma_not_blank_prefix(x: Seq<char>, pre: Seq<char>)
    requires
        x.len() >= pre.len(),
        x.take(pre.len() as int) == pre,
        !is_blank(pre),
    ensures
        !is_blank(x),
{
    let k = choose|k: int| 0 <= k < pre.len() && !crate::text::is_white_space(#[trigger] pre[k]);
    assert(x[k] == x.take(pre.len() as int)[k]);
}

/// A block reads back as its key, its trimmed content, its tags and its timestamp; it
/// starts at 0 and ends before its final blank line.
pub proof fn lemma_block_parses(key: Seq<char>, content: Seq<char>, tags: Seq<Seq<char>>, at: Seq<char>)
    requires
        readable_block(key, content, tags, at),
    ensures
        blocks_of(block_text(key, content, tags, at)) == seq![
            (key, trim(content), tags, at, 0int, block_text(key, content, tags, at).len() - 1),
        ],
        heading_at(block_text(key, content, tags, at), line_ranges(block_text(key, content, tags, at)), 0),
{
    reveal_strlit("### ");
    reveal_strlit("\n");
    let b = block_text(key, content, tags, at);
    let lb = line_ranges(b);
    let tc = crate::text::trim_end(content);
    let ps = crate::text::split_on(tc, '\n');
    let h = "### "@ + key;
    let m = meta_line(at, tags);
    lemma_block_shape(key, content, tags, at);
    lemma_meta_line_shape(at, tags);
    lemma_meta_roundtrip(at, tags);
    // the pieces
    crate::text::lemma_trim_end_blank(content);
    assert(!tc.contains('\r')) by {
        if tc.contains('\r') {
            let k = choose|k: int| 0 <= k < tc.len() && tc[k] == '\r';
            assert(content[k] == tc[k]);
        }
    }
    lemma_split_pieces_lack(tc, '\n', '\n');
    lemma_split_pieces_lack(tc, '\n', '\r');
    assert(block_lines(b, ps, h, m));
    // the heading line
    lemma_block_line(b, ps, h, m, 0);
    assert(!h.contains('\n')) by {
        if h.contains('\n') {
            let k = choose|k: int| 0 <= k < h.len() && h[k] == '\n';
            assert(key[k - 4] == '\n');
        }
    }
    assert(key.len() > 0);
    assert(!crate::text::is_white_space(key.last())) by {
        crate::text::lemma_trim_end_blank(key);
        lemma_trim_start_len(crate::text::trim_end(key));
        assert(crate::text::trim_end(key).len() == key.len());
        assert(crate::text::trim_end(key) =~= key);
    }
    assert(h.last() == key.last());
    assert(key.last() != '\n' && key.last() != '\r');
    lemma_strip_break(h);
    assert(h.take(4) =~= "### "@);
    assert(has_prefix(h, heading_prefix()));
    assert(h.skip(heading_prefix().len() as int) =~= key);
    assert(trim(h.push('\n')).len() > 0) by {
        crate::text::lemma_trim_empty_iff_blank(h.push('\n'));
        assert(h.push('\n')[h.len() - 1] == key.last());
    }
    assert(heading_at(b, lb, 0));
    // the body
    lemma_block_line(b, ps, h, m, 1);
    lemma_empty_line();
    let s = first_nonblank(ps, 0);
    lemma_first_nonblank(ps, 0);
    lemma_block_skip(b, ps, h, m, 0);
    assert(skip_blank_lines(b, lb, 1) == skip_blank_lines(b, lb, 2));
    crate::fs::lemma_split_join(tc);
    md_trim_end_idempotent(content);
    let body = body_scan(b, lb, skip_blank_lines(b, lb, 1), seq![], lb[0].1).0;
    if s < ps.len() {
        lemma_block_body(b, ps, h, m, s, s, seq![], lb[0].1);
        let j = crate::text::join_sep(ps.subrange(s, ps.len() as int), "\n"@);
        assert(body == j.push('\n'));
        assert(crate::text::trim_end(j.push('\n')) == crate::text::trim_end(j)) by {
            assert(j.push('\n').drop_last() == j);
            assert(crate::text::is_white_space('\n'));
        }
        lemma_join_starts(ps.subrange(s, ps.len() as int), "\n"@);
        assert(ps.subrange(s, ps.len() as int)[0] == ps[s]);
        crate::text::lemma_trim_empty_iff_blank(ps[s]);
        lemma_not_blank_prefix(j, ps[s]);
        if s == 0 {
            assert(ps.subrange(0, ps.len() as int) == ps);
            assert(tc == j);
        } else {
            let w0 = crate::text::join_sep(ps.subrange(0, s), "\n"@);
            assert(ps.subrange(0, s) + ps.subrange(s, ps.len() as int) == ps);
            lemma_join_append(ps.subrange(0, s), ps.subrange(s, ps.len() as int), "\n"@);
            assert forall|k: int| 0 <= k < ps.subrange(0, s).len() implies is_blank(#[trigger] ps.subrange(0, s)[k]) by {
                assert(ps.subrange(0, s)[k] == ps[k]);
                crate::text::lemma_trim_empty_iff_blank(ps[k]);
            }
            assert(is_blank("\n"@)) by {
                assert(crate::text::is_white_space('\n'));
            }
            lemma_join_blank(ps.subrange(0, s), "\n"@);
            let w = w0 + "\n"@;
            assert(is_blank(w)) by {
                assert forall|k: int| 0 <= k < w.len() implies crate::text::is_white_space(#[trigger] w[k]) by {
                    if k < w0.len() {
                        assert(w[k] == w0[k]);
                    } else {
                        assert(w[k] == '\n');
                    }
                }
            }
            assert(tc == w + j);
            lemma_trim_end_after_blank(w, j);
            assert(crate::text::trim_end(tc) == tc);
            assert(w + crate::text::trim_end(j) == w + j);
            assert(crate::text::trim_end(j) =~= (w + crate::text::trim_end(j)).skip(w.len() as int));
            assert(j =~= (w + j).skip(w.len() as int));
            lemma_trim_start_after_blank(w, j);
        }
        assert(trim(body) == trim(content));
    } else {
        lemma_block_meta(b, ps, h, m, seq![], lb[0].1);
        assert(body == Seq::<char>::empty());
        assert forall|k: int| 0 <= k < ps.len() implies is_blank(#[trigger] ps[k]) by {
            crate::text::lemma_trim_empty_iff_blank(ps[k]);
        }
        assert(is_blank("\n"@)) by {
            assert(crate::text::is_white_space('\n'));
        }
        lemma_join_blank(ps, "\n"@);
        crate::text::lemma_trim_start_blank(tc);
        assert(trim(content).len() == 0);
        assert(trim(body) =~= trim(content));
    }
    // after the block
    lemma_block_line(b, ps, h, m, ps.len() + 4int);
    assert(parse_blocks(b, lb, ps.len() + 5int) == Seq::<BlockView>::empty());
    assert(parse_blocks(b, lb, ps.len() + 4int) == Seq::<BlockView>::empty());
}

/// The text that an append writes before a new block: the old text, with a line break
/// added where its last line was unfinished.
pub open spec fn closed_text(existing: Seq<char>) -> Seq<char> {
    if existing.len() > 0 && existing.last() != '\n' {
        existing.push('\n')
    } else {
        existing
    }
}

/// Appending a block to a memory file and parsing the file again gives the blocks that
/// were there before, followed by the new block with its key, its trimmed content, its
/// tags and its time, spanning from the end of the old text to the end of the file.
pub proof fn law_written_block_reads_back(
    existing: Seq<char>,
    key: Seq<char>,
    content: Seq<char>,
    tags: Seq<Seq<char>>,
    at: Seq<char>,
)
    requires
        readable_block(key, content, tags, at),
    ensures
        blocks_of(appended(existing, block_text(key, content, tags, at))) == blocks_of(
            closed_text(existing),
        ) + seq![
            (
                key,
                trim(content),
                tags,
                at,
                closed_text(existing).len() as int,
                appended(existing, block_text(key, content, tags, at)).len() - 1,
            ),
        ],
{
    let b = block_text(key, content, tags, at);
    let e = closed_text(existing);
    assert(appended(existing, b) == e + b);
    assert(complete_lines(e));
    lemma_block_parses(key, content, tags, at);
    lemma_blocks_concat(e, b);
    let one: BlockView = (key, trim(content), tags, at, 0int, b.len() - 1);
    assert(shift_blocks(seq![one], e.len() as int) =~= seq![
        (key, trim(content), tags, at, e.len() as int, e.len() + b.len() - 1),
    ]);
}

/// Trimming the start never lengthens a text.
proof fn lemma_trim_start_len(s: Seq<char>)
    ensures
        crate::text::trim_start(s).len() <= s.len(),
    decreases s.len(),
{
    if s.len() > 0 && crate::text::is_white_space(s[0]) {
        lemma_trim_start_len(s.drop_first());
    }
}

/// Trimming the end twice is trimming it once.
proof fn md_trim_end_idempotent(s: Seq<char>)
    ensures
        crate::text::trim_end(crate::text::trim_end(s)) == crate::text::trim_end(s),
        trim(crate::text::trim_end(s)) == trim(s),
{
    crate::md::lemma_trim_end_idempotent(s);
}

} // verus!
