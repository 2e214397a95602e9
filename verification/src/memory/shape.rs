//! The shape of what the block parser finds: every block starts a line that begins with
//! `### `, lies inside the text after the block before it, and has a trimmed, non-empty key
//! and trimmed content.
use vstd::prelude::*;

use crate::memory::store::{
    add_body_line, blocks_in_bytes, blocks_of, body_scan, heading_prefix, lemma_body_scan_ge,
    lemma_skip_blank_ge, line_at, line_ranges, line_ranges_scan, meta_prefix, parse_blocks,
    skip_blank_lines, view_in_bytes, BlockView,
};
use crate::offsets::{byte_offset, lemma_offset_strict};
use crate::text::{has_prefix, is_white_space, lemma_trim_end_blank, strip_eol, trim, trim_end, trim_start};

verus! {

/// Line ranges that are not empty, lie inside the text one after another, and each start
/// the text or follow a line break.
pub open spec fn lines_ok(t: Seq<char>, ls: Seq<(int, int)>) -> bool {
    &&& forall|k: int| #![trigger ls[k]] 0 <= k < ls.len() ==> 0 <= ls[k].0 < ls[k].1 <= t.len()
    &&& forall|k: int| #![trigger ls[k]] 0 <= k < ls.len() ==> (ls[k].0 == 0 || t[ls[k].0 - 1] == '\n')
    &&& forall|a: int, b: int| #![trigger ls[a], ls[b]] 0 <= a < b < ls.len() ==> ls[a].1 <= ls[b].0
}

/// The finished lines of a scan are in order, end before where the current line starts,
/// and each starts the text or follows a line break, as does the current line.
proof fn lemma_scan_ok(t: Seq<char>)
    ensures
        ({
            let (rs, st) = line_ranges_scan(t);
            &&& 0 <= st <= t.len()
            &&& (st == 0 || t[st - 1] == '\n')
            &&& forall|k: int| #![trigger rs[k]] 0 <= k < rs.len() ==> 0 <= rs[k].0 < rs[k].1 <= st
            &&& forall|k: int| #![trigger rs[k]] 0 <= k < rs.len() ==> (rs[k].0 == 0 || t[rs[k].0 - 1] == '\n')
            &&& forall|a: int, b: int| #![trigger rs[a], rs[b]] 0 <= a < b < rs.len() ==> rs[a].1 <= rs[b].0
        }),
    decreases t.len(),
{
    if t.len() > 0 {
        let d = t.drop_last();
        lemma_scan_ok(d);
        let (rs, st) = line_ranges_scan(d);
        assert forall|i: int| 0 <= i < d.len() implies t[i] == d[i] by {}
        if t.last() == '\n' {
            let rs2 = rs.push((st, t.len() as int));
            assert(line_ranges_scan(t) == (rs2, t.len() as int));
            assert forall|k: int| #![trigger rs2[k]] 0 <= k < rs2.len() implies 0 <= rs2[k].0 < rs2[k].1
                <= t.len() && (rs2[k].0 == 0 || t[rs2[k].0 - 1] == '\n') by {
                if k < rs.len() {
                    assert(rs2[k] == rs[k]);
                }
            }
            assert forall|a: int, b: int| #![trigger rs2[a], rs2[b]] 0 <= a < b < rs2.len() implies rs2[a].1
                <= rs2[b].0 by {
                assert(rs2[a] == rs[a]);
                if b < rs.len() {
                    assert(rs2[b] == rs[b]);
                }
            }
        }
    }
}

/// The line ranges of a text are in order, inside it, and start after line breaks.
pub proof fn lemma_lines_ok(t: Seq<char>)
    ensures
        lines_ok(t, line_ranges(t)),
{
    lemma_scan_ok(t);
    let (rs, st) = line_ranges_scan(t);
    if st < t.len() {
        let ls = rs.push((st, t.len() as int));
        assert forall|k: int| #![trigger ls[k]] 0 <= k < ls.len() implies 0 <= ls[k].0 < ls[k].1 <= t.len()
            && (ls[k].0 == 0 || t[ls[k].0 - 1] == '\n') by {
            if k < rs.len() {
                assert(ls[k] == rs[k]);
            }
        }
        assert forall|a: int, b: int| #![trigger ls[a], ls[b]] 0 <= a < b < ls.len() implies ls[a].1
            <= ls[b].0 by {
            assert(ls[a] == rs[a]);
            if b < rs.len() {
                assert(ls[b] == rs[b]);
            }
        }
    }
}

/// Where a block's body ends: not before where it started, inside the text, and before
/// the line where reading goes on.
proof fn lemma_body_end(t: Seq<char>, ls: Seq<(int, int)>, j: int, body: Seq<char>, end0: int)
    requires
        lines_ok(t, ls),
        0 <= j,
        end0 <= t.len(),
        j < ls.len() ==> end0 <= ls[j].0,
    ensures
        end0 <= body_scan(t, ls, j, body, end0).2 <= t.len(),
        0 <= body_scan(t, ls, j, body, end0).3 < ls.len() ==> body_scan(t, ls, j, body, end0).2
            <= ls[body_scan(t, ls, j, body, end0).3].0,
    decreases ls.len() - j,
{
    if j < ls.len() {
        let l = strip_eol(line_at(t, ls, j));
        if j + 1 < ls.len() {
            assert(ls[j].1 <= ls[j + 1].0);
        }
        assert(0 <= ls[j].0 < ls[j].1 <= t.len());
        if !has_prefix(l, heading_prefix()) && !has_prefix(trim(l), meta_prefix()) {
            lemma_body_end(t, ls, j + 1, add_body_line(body, l), ls[j].1);
        }
    }
}

/// `trim_start` drops a prefix and leaves no white space in front.
proof fn lemma_trim_start_facts(s: Seq<char>)
    ensures
        trim_start(s).len() <= s.len(),
        trim_start(s) == s.skip(s.len() - trim_start(s).len()),
        trim_start(s).len() == 0 || !is_white_space(trim_start(s)[0]),
    decreases s.len(),
{
    if s.len() > 0 && is_white_space(s[0]) {
        lemma_trim_start_facts(s.drop_first());
        assert(s.drop_first().skip(s.drop_first().len() - trim_start(s).len()) =~= s.skip(
            s.len() - trim_start(s).len(),
        ));
    } else {
        assert(s.skip(0) =~= s);
    }
}

/// Trimming twice is trimming once.
pub proof fn lemma_trim_idempotent(s: Seq<char>)
    ensures
        trim(trim(s)) == trim(s),
{
    let e = trim_end(s);
    let u = trim_start(e);
    lemma_trim_end_blank(s);
    lemma_trim_start_facts(e);
    if u.len() == 0 {
        assert(trim_end(u) == u);
    } else {
        assert(u.last() == e.last());
        assert(trim_end(u) == u);
        assert(trim_start(u) == u);
    }
}

/// `strip_eol` keeps a prefix.
proof fn lemma_strip_eol_prefix(s: Seq<char>)
    ensures
        strip_eol(s).len() <= s.len(),
        strip_eol(s) == s.take(strip_eol(s).len() as int),
    decreases s.len(),
{
    if s.len() > 0 && (s.last() == '\r' || s.last() == '\n') {
        lemma_strip_eol_prefix(s.drop_last());
        assert(s.drop_last().take(strip_eol(s).len() as int) =~= s.take(strip_eol(s).len() as int));
    } else {
        assert(s.take(s.len() as int) =~= s);
    }
}

/// A block that starts at a heading line `m` of the text.
pub open spec fn starts_at_heading(t: Seq<char>, ls: Seq<(int, int)>, b: BlockView, m: int) -> bool {
    &&& 0 <= m < ls.len()
    &&& b.4 == ls[m].0
    &&& has_prefix(strip_eol(line_at(t, ls, m)), heading_prefix())
    &&& ls[m].1 <= b.5 <= t.len()
}

/// The block starts at a heading line at or after line `i`.
pub open spec fn heading_from(t: Seq<char>, ls: Seq<(int, int)>, b: BlockView, i: int) -> bool {
    exists|m: int| i <= m && #[trigger] starts_at_heading(t, ls, b, m)
}

/// The blocks found from line `i` on start at heading lines from `i` on, follow one another,
/// and have a trimmed, non-empty key and trimmed content.
proof fn lemma_parse_shape(t: Seq<char>, ls: Seq<(int, int)>, i: int)
    requires
        lines_ok(t, ls),
        0 <= i,
    ensures
        forall|k: int|
            0 <= k < parse_blocks(t, ls, i).len() ==> heading_from(t, ls, #[trigger] parse_blocks(t, ls, i)[k], i),
        forall|k: int|
            0 < k < parse_blocks(t, ls, i).len() ==> parse_blocks(t, ls, i)[k - 1].5
                <= #[trigger] parse_blocks(t, ls, i)[k].4,
        forall|k: int|
            0 <= k < parse_blocks(t, ls, i).len() ==> (#[trigger] parse_blocks(t, ls, i)[k]).0.len() > 0
                && trim(parse_blocks(t, ls, i)[k].0) == parse_blocks(t, ls, i)[k].0 && trim(
                parse_blocks(t, ls, i)[k].1,
            ) == parse_blocks(t, ls, i)[k].1,
    decreases ls.len() - i,
{
    if i < ls.len() {
        let l = strip_eol(line_at(t, ls, i));
        let hp = heading_prefix();
        if has_prefix(l, hp) && trim(l.skip(hp.len() as int)).len() > 0 {
            let key = trim(l.skip(hp.len() as int));
            let j = skip_blank_lines(t, ls, i + 1);
            lemma_skip_blank_ge(t, ls, i + 1);
            if j < ls.len() {
                assert(ls[i].1 <= ls[j].0);
            }
            assert(0 <= ls[i].0 < ls[i].1 <= t.len());
            lemma_body_end(t, ls, j, seq![], ls[i].1);
            lemma_body_scan_ge(t, ls, j, seq![], ls[i].1);
            let r = body_scan(t, ls, j, seq![], ls[i].1);
            let next = r.3;
            lemma_parse_shape(t, ls, next);
            lemma_trim_idempotent(l.skip(hp.len() as int));
            lemma_trim_idempotent(r.0);
            let rest = parse_blocks(t, ls, next);
            let pb = parse_blocks(t, ls, i);
            let (at, tags) = match r.1 {
                Some((a, tg)) => (a, tg),
                None => (Seq::<char>::empty(), Seq::<Seq<char>>::empty()),
            };
            let b0: BlockView = (key, trim(r.0), tags, at, ls[i].0, r.2);
            assert(pb == seq![b0] + rest);
            assert(starts_at_heading(t, ls, b0, i));
            assert forall|k: int| 0 <= k < pb.len() implies heading_from(t, ls, #[trigger] pb[k], i) by {
                if k == 0 {
                    assert(pb[0] == b0);
                    assert(starts_at_heading(t, ls, pb[k], i));
                } else {
                    assert(pb[k] == rest[k - 1]);
                    assert(heading_from(t, ls, rest[k - 1], next));
                    let m = choose|m: int| next <= m && #[trigger] starts_at_heading(t, ls, rest[k - 1], m);
                    assert(i <= m && starts_at_heading(t, ls, pb[k], m));
                }
            }
            assert forall|k: int| 0 < k < pb.len() implies pb[k - 1].5 <= #[trigger] pb[k].4 by {
                assert(pb[k] == rest[k - 1]);
                if k == 1 {
                    assert(pb[0] == b0);
                    assert(heading_from(t, ls, rest[0], next));
                    let m = choose|m: int| next <= m && #[trigger] starts_at_heading(t, ls, rest[0], m);
                    if next < m {
                        assert(ls[next].1 <= ls[m].0);
                    }
                } else {
                    assert(pb[k - 1] == rest[k - 2]);
                }
            }
            assert forall|k: int| 0 <= k < pb.len() implies (#[trigger] pb[k]).0.len() > 0 && trim(pb[k].0)
                == pb[k].0 && trim(pb[k].1) == pb[k].1 by {
                if k == 0 {
                    assert(pb[0] == b0);
                } else {
                    assert(pb[k] == rest[k - 1]);
                }
            }
        } else {
            lemma_parse_shape(t, ls, i + 1);
            let pb = parse_blocks(t, ls, i);
            assert(pb == parse_blocks(t, ls, i + 1));
            assert forall|k: int| 0 <= k < pb.len() implies heading_from(t, ls, #[trigger] pb[k], i) by {
                assert(pb[k] == parse_blocks(t, ls, i + 1)[k]);
                assert(heading_from(t, ls, parse_blocks(t, ls, i + 1)[k], i + 1));
                let m = choose|m: int|
                    i + 1 <= m && #[trigger] starts_at_heading(t, ls, parse_blocks(t, ls, i + 1)[k], m);
                assert(i <= m && starts_at_heading(t, ls, pb[k], m));
            }
        }
    }
}

/// A parsed block as it sits in the text: its range lies inside the text, starts the text
/// or follows a line break, and begins with `### `; its key is trimmed and not empty, and
/// its content is trimmed.
pub open spec fn headed_block(t: Seq<char>, b: BlockView) -> bool {
    &&& 0 <= b.4 < b.5 <= t.len()
    &&& (b.4 == 0 || t[b.4 - 1] == '\n')
    &&& has_prefix(t.subrange(b.4, b.5), heading_prefix())
    &&& b.0.len() > 0
    &&& trim(b.0) == b.0
    &&& trim(b.1) == b.1
}

/// Law: every block the parser finds starts a line that begins with `### `, lies inside the
/// text after the block before it, and has a trimmed, non-empty key and trimmed content;
/// the byte ranges reported for the blocks keep that order.
pub proof fn law_parsed_blocks_are_headed(t: Seq<char>)
    ensures
        forall|k: int| 0 <= k < blocks_of(t).len() ==> headed_block(t, #[trigger] blocks_of(t)[k]),
        forall|k: int|
            0 < k < blocks_of(t).len() ==> blocks_of(t)[k - 1].5 <= #[trigger] blocks_of(t)[k].4,
        forall|k: int|
            0 <= k < blocks_in_bytes(t).len() ==> (#[trigger] blocks_in_bytes(t)[k]).4
                < blocks_in_bytes(t)[k].5,
        forall|k: int|
            0 < k < blocks_in_bytes(t).len() ==> blocks_in_bytes(t)[k - 1].5
                <= #[trigger] blocks_in_bytes(t)[k].4,
{
    let ls = line_ranges(t);
    let bs = blocks_of(t);
    lemma_lines_ok(t);
    lemma_parse_shape(t, ls, 0);
    assert forall|k: int| 0 <= k < bs.len() implies headed_block(t, #[trigger] bs[k]) by {
        let b = bs[k];
        assert(heading_from(t, ls, b, 0));
        let m = choose|m: int| 0 <= m && #[trigger] starts_at_heading(t, ls, b, m);
        assert(0 <= ls[m].0 < ls[m].1 <= t.len());
        let line = line_at(t, ls, m);
        lemma_strip_eol_prefix(line);
        let hp = heading_prefix();
        assert(strip_eol(line).take(hp.len() as int) == hp);
        assert(t.subrange(b.4, b.5).take(hp.len() as int) =~= strip_eol(line).take(hp.len() as int));
    }
    assert forall|k: int| 0 <= k < bs.len() implies (#[trigger] blocks_in_bytes(t)[k]).4
        < blocks_in_bytes(t)[k].5 by {
        assert(blocks_in_bytes(t)[k] == view_in_bytes(t, bs[k]));
        assert(headed_block(t, bs[k]));
        lemma_offset_strict(t, bs[k].4, bs[k].5);
    }
    assert forall|k: int| 0 < k < bs.len() implies blocks_in_bytes(t)[k - 1].5
        <= #[trigger] blocks_in_bytes(t)[k].4 by {
        assert(blocks_in_bytes(t)[k] == view_in_bytes(t, bs[k]));
        assert(blocks_in_bytes(t)[k - 1] == view_in_bytes(t, bs[k - 1]));
        assert(headed_block(t, bs[k]));
        assert(headed_block(t, bs[k - 1]));
        if bs[k - 1].5 < bs[k].4 {
            lemma_offset_strict(t, bs[k - 1].5, bs[k].4);
        }
    }
}

} // verus!
