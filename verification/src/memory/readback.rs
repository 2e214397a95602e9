//! What a read gives back after a write: once a block is appended under a key that no
//! block had, reading that key gives the new block.
use vstd::prelude::*;

use crate::memory::roundtrip::{closed_text, law_written_block_reads_back, readable_block};
use crate::memory::store::{
    appended, block_text, blocks_of, body_scan, heading_prefix, is_summary, kind_text, line_at,
    line_ranges, line_ranges_scan, meta_prefix, parse_blocks, skip_blank_lines, BlockView,
};
use crate::memory::{
    all_records, canon_key, canon_scan, canonical, file_records, in_pool, key_taken, read_result,
    rewritten, summary_has_key, BlockRecord, ErrView, MemoryFile,
};
use crate::offsets::{byte_len, byte_offset, char_index, is_char_offset, lemma_char_index_order};
use crate::sort::{key_lt, lemma_key_lt_asym, lemma_key_lt_irrefl, lemma_key_lt_total, lemma_key_lt_trans};
use crate::text::{has_prefix, strip_eol, trim};

verus! {

/// Two texts split into lines that start at the same places and read the same once line
/// breaks are stripped or white space is trimmed.
pub open spec fn same_lines(t: Seq<char>, l: Seq<(int, int)>, u: Seq<char>, m: Seq<(int, int)>) -> bool {
    &&& l.len() == m.len()
    &&& forall|i: int|
        0 <= i < l.len() ==> (#[trigger] l[i]).0 == m[i].0 && strip_eol(line_at(t, l, i)) == strip_eol(
            line_at(u, m, i),
        ) && trim(line_at(t, l, i)) == trim(line_at(u, m, i))
}

/// The keys of blocks, in order.
pub open spec fn keys_of(bs: Seq<BlockView>) -> Seq<Seq<char>> {
    bs.map_values(|b: BlockView| b.0)
}

proof fn lemma_skip_same(t: Seq<char>, l: Seq<(int, int)>, u: Seq<char>, m: Seq<(int, int)>, k: int)
    requires
        same_lines(t, l, u, m),
    ensures
        skip_blank_lines(t, l, k) == skip_blank_lines(u, m, k),
    decreases l.len() - k,
{
    if 0 <= k < l.len() {
        assert(l[k].0 == m[k].0);
        if trim(line_at(t, l, k)).len() == 0 {
            lemma_skip_same(t, l, u, m, k + 1);
        }
    }
}

proof fn lemma_body_same(
    t: Seq<char>,
    l: Seq<(int, int)>,
    u: Seq<char>,
    m: Seq<(int, int)>,
    k: int,
    body: Seq<char>,
    e1: int,
    e2: int,
)
    requires
        same_lines(t, l, u, m),
    ensures
        body_scan(t, l, k, body, e1).0 == body_scan(u, m, k, body, e2).0,
        body_scan(t, l, k, body, e1).1 == body_scan(u, m, k, body, e2).1,
        body_scan(t, l, k, body, e1).3 == body_scan(u, m, k, body, e2).3,
    decreases l.len() - k,
{
    if 0 <= k < l.len() {
        assert(l[k].0 == m[k].0);
        let ln = strip_eol(line_at(t, l, k));
        if !has_prefix(ln, heading_prefix()) && !has_prefix(trim(ln), meta_prefix()) {
            lemma_body_same(
                t,
                l,
                u,
                m,
                k + 1,
                crate::memory::store::add_body_line(body, ln),
                l[k].1,
                m[k].1,
            );
        }
    }
}

proof fn lemma_parse_same(t: Seq<char>, l: Seq<(int, int)>, u: Seq<char>, m: Seq<(int, int)>, k: int)
    requires
        same_lines(t, l, u, m),
    ensures
        keys_of(parse_blocks(t, l, k)) == keys_of(parse_blocks(u, m, k)),
    decreases l.len() - k,
{
    if 0 <= k < l.len() {
        assert(l[k].0 == m[k].0);
        let ln = strip_eol(line_at(t, l, k));
        if has_prefix(ln, heading_prefix()) && trim(ln.skip(heading_prefix().len() as int)).len() > 0 {
            let key = trim(ln.skip(heading_prefix().len() as int));
            lemma_skip_same(t, l, u, m, k + 1);
            let j = skip_blank_lines(t, l, k + 1);
            lemma_body_same(t, l, u, m, j, seq![], l[k].1, m[k].1);
            crate::memory::store::lemma_skip_blank_ge(t, l, k + 1);
            crate::memory::store::lemma_body_scan_ge(t, l, j, seq![], l[k].1);
            let next = body_scan(t, l, j, seq![], l[k].1).3;
            lemma_parse_same(t, l, u, m, next);
            let pt = parse_blocks(t, l, k);
            let pu = parse_blocks(u, m, k);
            let rt = parse_blocks(t, l, next);
            let ru = parse_blocks(u, m, next);
            assert(pt == seq![pt[0]] + rt);
            assert(pu == seq![pu[0]] + ru);
            assert(pt[0].0 == key && pu[0].0 == key);
            assert(keys_of(pt) =~= seq![key] + keys_of(rt));
            assert(keys_of(pu) =~= seq![key] + keys_of(ru));
        } else {
            lemma_parse_same(t, l, u, m, k + 1);
        }
    } else {
        assert(keys_of(parse_blocks(t, l, k)) =~= keys_of(parse_blocks(u, m, k)));
    }
}

/// Closing an unfinished last line moves no line start and changes no line's text but for
/// its break.
proof fn lemma_closing_same_lines(e: Seq<char>)
    ensures
        same_lines(closed_text(e), line_ranges(closed_text(e)), e, line_ranges(e)),
{
    let c = closed_text(e);
    if e.len() > 0 && e.last() != '\n' {
        let (rs, st) = line_ranges_scan(e);
        assert(c.drop_last() == e);
        assert(line_ranges_scan(e) == line_ranges_scan(e.drop_last()));
        crate::memory::store::lemma_line_ranges_scan(e.drop_last());
        crate::memory::store::lemma_line_ranges_scan(e);
        assert(st < e.len());
        let lc = line_ranges(c);
        let le = line_ranges(e);
        assert(lc == rs.push((st, c.len() as int)));
        assert(le == rs.push((st, e.len() as int)));
        assert forall|i: int| 0 <= i < lc.len() implies (#[trigger] lc[i]).0 == le[i].0 && strip_eol(
            line_at(c, lc, i),
        ) == strip_eol(line_at(e, le, i)) && trim(line_at(c, lc, i)) == trim(line_at(e, le, i)) by {
            if i < rs.len() {
                assert(line_at(c, lc, i) =~= line_at(e, le, i));
            } else {
                let x = line_at(e, le, i);
                assert(line_at(c, lc, i) =~= x.push('\n'));
                assert(x.push('\n').drop_last() == x);
                assert(crate::text::is_white_space('\n'));
                assert(crate::text::trim_end(x.push('\n')) == crate::text::trim_end(x));
            }
        }
    }
}

/// Closing an unfinished last line keeps the keys of the blocks.
pub proof fn lemma_closing_keeps_keys(e: Seq<char>)
    ensures
        keys_of(crate::memory::store::blocks_of(closed_text(e))) == keys_of(
            crate::memory::store::blocks_of(e),
        ),
{
    lemma_closing_same_lines(e);
    lemma_parse_same(closed_text(e), line_ranges(closed_text(e)), e, line_ranges(e), 0);
}

/// The records of files one after another are the records of each part in turn.
proof fn lemma_records_concat(s: Seq<MemoryFile>, t: Seq<MemoryFile>)
    ensures
        all_records(s + t) == all_records(s) + all_records(t),
    decreases t.len(),
{
    if t.len() == 0 {
        assert(s + t =~= s);
        assert(all_records(t) =~= Seq::<BlockRecord>::empty());
        assert(all_records(s) + all_records(t) =~= all_records(s));
    } else {
        lemma_records_concat(s, t.drop_last());
        assert((s + t).drop_last() =~= s + t.drop_last());
        assert((s + t).last() == t.last());
    }
}

/// With no block under the key, none is canonical.
proof fn lemma_canon_none(bs: Seq<BlockRecord>, key: Seq<char>, summary_only: bool)
    requires
        forall|j: int| 0 <= j < bs.len() ==> (#[trigger] bs[j]).key != key,
    ensures
        canon_scan(bs, key, summary_only) is None,
    decreases bs.len(),
{
    if bs.len() > 0 {
        lemma_canon_none(bs.drop_last(), key, summary_only);
    }
}

/// With exactly one block under the key, in the pool, that block is canonical.
proof fn lemma_canon_single(bs: Seq<BlockRecord>, key: Seq<char>, summary_only: bool, i: int)
    requires
        0 <= i < bs.len(),
        in_pool(bs[i], key, summary_only),
        forall|j: int| 0 <= j < bs.len() && j != i ==> (#[trigger] bs[j]).key != key,
    ensures
        canon_scan(bs, key, summary_only) == Some(i),
    decreases bs.len(),
{
    let d = bs.drop_last();
    if i == bs.len() - 1 {
        lemma_canon_none(d, key, summary_only);
    } else {
        lemma_canon_single(d, key, summary_only, i);
    }
}

/// Reading a key after a write: when no block had the key and one file's text is replaced
/// by that text with the new block appended, reading the key gives the new block's key,
/// its trimmed content, its tags, the file, the file's kind and the block's time.
pub proof fn law_read_after_write(
    files: Seq<MemoryFile>,
    files2: Seq<MemoryFile>,
    f: int,
    key: Seq<char>,
    content: Seq<char>,
    tags: Seq<Seq<char>>,
    at: Seq<char>,
)
    requires
        readable_block(key, content, tags, at),
        0 <= f < files.len(),
        files2.len() == files.len(),
        forall|i: int| 0 <= i < files.len() && i != f ==> #[trigger] files2[i] == files[i],
        files2[f].rel@ == files[f].rel@,
        files2[f].abs_path@ == files[f].abs_path@,
        files2[f].text@ == appended(files[f].text@, block_text(key, content, tags, at)),
        !key_taken(all_records(files), key),
    ensures
        read_result(all_records(files2), key) == Ok::<
            (Seq<char>, Seq<char>, Seq<Seq<char>>, Seq<char>, Seq<char>, Seq<char>),
            ErrView,
        >((key, trim(content), tags, files[f].rel@, kind_text(files[f].rel@), at)),
{
    let rel = files[f].rel@;
    let abs = files[f].abs_path@;
    let old_text = files[f].text@;
    let e = closed_text(old_text);
    let pre = files.take(f);
    let post = files.skip(f + 1);
    assert(files =~= pre + seq![files[f]] + post);
    assert(files2 =~= pre + seq![files2[f]] + post);
    lemma_records_concat(pre + seq![files[f]], post);
    lemma_records_concat(pre, seq![files[f]]);
    lemma_records_concat(pre + seq![files2[f]], post);
    lemma_records_concat(pre, seq![files2[f]]);
    assert(seq![files[f]].drop_last() =~= Seq::<MemoryFile>::empty());
    assert(seq![files2[f]].drop_last() =~= Seq::<MemoryFile>::empty());
    let a = all_records(pre);
    let b = all_records(post);
    let old_recs = file_records(rel, abs, old_text);
    let new_recs = file_records(rel, abs, files2[f].text@);
    assert(all_records(seq![files[f]]) =~= old_recs) by {
        reveal_with_fuel(all_records, 2);
        assert(seq![files[f]].last() == files[f]);
    }
    assert(all_records(seq![files2[f]]) =~= new_recs) by {
        reveal_with_fuel(all_records, 2);
        assert(seq![files2[f]].last() == files2[f]);
    }
    assert(all_records(files) == a + old_recs + b);
    assert(all_records(files2) == a + new_recs + b);
    law_written_block_reads_back(old_text, key, content, tags, at);
    lemma_closing_keeps_keys(old_text);
    let cb = blocks_of(e);
    let n = cb.len() as int;
    let bs = all_records(files2);
    let i = a.len() + n;
    assert(new_recs.len() == n + 1);
    assert(new_recs[n] == BlockRecord {
        key: key,
        content: trim(content),
        tags: tags,
        at: at,
        file_rel: rel,
        abs_path: abs,
        start: byte_offset(files2[f].text@, e.len() as int),
        end: byte_offset(files2[f].text@, files2[f].text@.len() - 1),
    });
    assert(bs[i] == new_recs[n]);
    assert(keys_of(cb).len() == keys_of(blocks_of(old_text)).len());
    assert forall|j: int| 0 <= j < bs.len() && j != i implies (#[trigger] bs[j]).key != key by {
        if j < a.len() {
            assert(bs[j] == all_records(files)[j]);
        } else if j < i {
            let q = j - a.len();
            assert(bs[j] == new_recs[q]);
            assert(new_recs[q].key == cb[q].0);
            assert(keys_of(cb)[q] == cb[q].0);
            assert(keys_of(blocks_of(old_text))[q] == blocks_of(old_text)[q].0);
            assert(old_recs[q].key == blocks_of(old_text)[q].0);
            assert(all_records(files)[j] == old_recs[q]);
        } else {
            assert(bs[j] == b[j - i - 1]);
            assert(all_records(files)[a.len() + old_recs.len() + (j - i - 1)] == b[j - i - 1]);
        }
    }
    let so = summary_has_key(bs, key);
    assert(so == is_summary(rel)) by {
        if so {
            let w = choose|w: int| 0 <= w < bs.len() && (#[trigger] bs[w]).key == key && is_summary(bs[w].file_rel);
            assert(w == i);
        } else {
            assert(!(0 <= i < bs.len() && bs[i].key == key && is_summary(bs[i].file_rel)));
        }
    }
    lemma_canon_single(bs, key, so, i);
    assert(canonical(bs, key) == Some(i));
}

/// What the canonical scan picks is in its pool, and it picks something exactly when the
/// pool is not empty.
proof fn lemma_canon_scan_pool(bs: Seq<BlockRecord>, key: Seq<char>, summary_only: bool)
    ensures
        canon_scan(bs, key, summary_only) matches Some(i) ==> 0 <= i < bs.len() && in_pool(
            bs[i],
            key,
            summary_only,
        ),
        canon_scan(bs, key, summary_only) is Some <==> exists|j: int|
            0 <= j < bs.len() && in_pool(#[trigger] bs[j], key, summary_only),
    decreases bs.len(),
{
    if bs.len() > 0 {
        let d = bs.drop_last();
        lemma_canon_scan_pool(d, key, summary_only);
        if exists|j: int| 0 <= j < d.len() && in_pool(#[trigger] d[j], key, summary_only) {
            let j = choose|j: int| 0 <= j < d.len() && in_pool(#[trigger] d[j], key, summary_only);
            assert(bs[j] == d[j]);
        }
        if exists|j: int| 0 <= j < bs.len() && in_pool(#[trigger] bs[j], key, summary_only) {
            let j = choose|j: int| 0 <= j < bs.len() && in_pool(#[trigger] bs[j], key, summary_only);
            if j < d.len() {
                assert(d[j] == bs[j]);
            }
        }
    }
}

/// Reading a key succeeds exactly when some block has the key; and when some block under
/// the key lies in the summary file, the block read is one of the summary file's.
pub proof fn law_read_finds_existing_keys(bs: Seq<BlockRecord>, key: Seq<char>)
    ensures
        read_result(bs, key) is Ok <==> key_taken(bs, key),
        summary_has_key(bs, key) ==> (read_result(bs, key) matches Ok(r) && is_summary(r.3)),
        read_result(bs, key) matches Ok(r) ==> r.0 == key,
{
    let so = summary_has_key(bs, key);
    lemma_canon_scan_pool(bs, key, so);
    if key_taken(bs, key) {
        let j = choose|j: int| 0 <= j < bs.len() && (#[trigger] bs[j]).key == key;
        if so {
            let w = choose|w: int| 0 <= w < bs.len() && (#[trigger] bs[w]).key == key && is_summary(bs[w].file_rel);
            assert(in_pool(bs[w], key, so));
        } else {
            assert(in_pool(bs[j], key, so));
        }
    }
    if canonical(bs, key) is Some {
        let i = canonical(bs, key)->0;
        assert(bs[i].key == key);
    }
}

/// Law: an update rewrites the file so that its blocks are those of the text without the
/// old block's bytes, followed by the new block with its key, trimmed content, tags and
/// time; a span outside the text is refused.
pub proof fn law_update_appends_new_block(
    text: Seq<char>,
    start: int,
    end: int,
    key: Seq<char>,
    content: Seq<char>,
    tags: Seq<Seq<char>>,
    at: Seq<char>,
)
    requires
        readable_block(key, content, tags, at),
    ensures
        (start <= end <= byte_len(text) && is_char_offset(text, start) && is_char_offset(text, end))
            ==> ({
            let sp = spliced(text, char_index(text, start), char_index(text, end));
            rewritten(text, start, end, key, content, tags, at) matches Ok(t) && blocks_of(t)
                == blocks_of(sp) + seq![
                (key, trim(content), tags, at, sp.len() as int, t.len() - 1),
            ]
        }),
        !(start <= end <= byte_len(text)) ==> rewritten(text, start, end, key, content, tags, at) is Err,
{
    if start <= end <= byte_len(text) && is_char_offset(text, start) && is_char_offset(text, end) {
        lemma_char_index_order(text, start, end);
        law_written_block_reads_back(
            text.take(char_index(text, start)) + text.skip(char_index(text, end)),
            key,
            content,
            tags,
            at,
        );
    }
}

/// The canonical scan picks a block that no block of the pool is later than, and every
/// block of the pool after it is earlier.
proof fn lemma_canon_scan_latest(bs: Seq<BlockRecord>, key: Seq<char>, summary_only: bool)
    ensures
        canon_scan(bs, key, summary_only) matches Some(r) ==> forall|j: int|
            0 <= j < bs.len() && in_pool(#[trigger] bs[j], key, summary_only) ==> !key_lt(
                canon_key(bs[r]),
                canon_key(bs[j]),
            ) && (j > r ==> key_lt(canon_key(bs[j]), canon_key(bs[r]))),
    decreases bs.len(),
{
    if bs.len() > 0 {
        let d = bs.drop_last();
        let i = bs.len() - 1;
        lemma_canon_scan_latest(d, key, summary_only);
        lemma_canon_scan_pool(d, key, summary_only);
        match canon_scan(d, key, summary_only) {
            Some(p) => {
                assert(bs[p] == d[p]);
                let kp = canon_key(bs[p]);
                let ki = canon_key(bs[i]);
                if in_pool(bs[i], key, summary_only) && !key_lt(ki, kp) {
                    assert forall|j: int|
                        0 <= j < bs.len() && in_pool(#[trigger] bs[j], key, summary_only) implies !key_lt(
                            ki,
                            canon_key(bs[j]),
                        ) && (j > i ==> key_lt(canon_key(bs[j]), ki)) by {
                        if j < i {
                            assert(bs[j] == d[j]);
                            let kj = canon_key(bs[j]);
                            if key_lt(ki, kj) {
                                lemma_key_lt_total(kp, kj);
                                if key_lt(kj, kp) {
                                    lemma_key_lt_trans(ki, kj, kp);
                                }
                            }
                        } else {
                            lemma_key_lt_irrefl(ki);
                        }
                    }
                } else {
                    if in_pool(bs[i], key, summary_only) {
                        lemma_key_lt_asym(ki, kp);
                    }
                    assert forall|j: int|
                        0 <= j < bs.len() && in_pool(#[trigger] bs[j], key, summary_only) implies !key_lt(
                            kp,
                            canon_key(bs[j]),
                        ) && (j > p ==> key_lt(canon_key(bs[j]), kp)) by {
                        if j < i {
                            assert(bs[j] == d[j]);
                        }
                    }
                }
            },
            None => {
                if in_pool(bs[i], key, summary_only) {
                    assert forall|j: int|
                        0 <= j < bs.len() && in_pool(#[trigger] bs[j], key, summary_only) implies !key_lt(
                            canon_key(bs[i]),
                            canon_key(bs[j]),
                        ) && (j > i ==> key_lt(canon_key(bs[j]), canon_key(bs[i]))) by {
                        if j < i {
                            assert(bs[j] == d[j]);
                            assert(in_pool(d[j], key, summary_only));
                        }
                        lemma_key_lt_irrefl(canon_key(bs[i]));
                    }
                }
            },
        }
    }
}

/// Law: the canonical block of a key is drawn from its pool, the blocks under the key in
/// the summary file when the summary has the key, else all blocks under the key. No block
/// of the pool is later (by time, then file), and every block of the pool after it is
/// earlier, so of equally late blocks the last is picked. There is no canonical block
/// exactly when no block has the key.
pub proof fn law_canonical_is_latest(bs: Seq<BlockRecord>, key: Seq<char>)
    ensures
        canonical(bs, key) is None <==> !key_taken(bs, key),
        canonical(bs, key) matches Some(r) ==> 0 <= r < bs.len() && in_pool(
            bs[r],
            key,
            summary_has_key(bs, key),
        ) && forall|j: int|
            0 <= j < bs.len() && in_pool(#[trigger] bs[j], key, summary_has_key(bs, key)) ==> !key_lt(
                canon_key(bs[r]),
                canon_key(bs[j]),
            ) && (j > r ==> key_lt(canon_key(bs[j]), canon_key(bs[r]))),
{
    let so = summary_has_key(bs, key);
    lemma_canon_scan_pool(bs, key, so);
    lemma_canon_scan_latest(bs, key, so);
    if key_taken(bs, key) {
        if so {
            let w = choose|w: int| 0 <= w < bs.len() && (#[trigger] bs[w]).key == key && is_summary(bs[w].file_rel);
            assert(in_pool(bs[w], key, so));
        } else {
            let w = choose|w: int| 0 <= w < bs.len() && (#[trigger] bs[w]).key == key;
            assert(in_pool(bs[w], key, so));
        }
    }
}

/// With one block in the pool above every other block of the pool, that block is canonical.
proof fn lemma_canon_newest(bs: Seq<BlockRecord>, key: Seq<char>, summary_only: bool, i: int)
    requires
        0 <= i < bs.len(),
        in_pool(bs[i], key, summary_only),
        forall|j: int|
            0 <= j < bs.len() && j != i && in_pool(#[trigger] bs[j], key, summary_only) ==> key_lt(
                canon_key(bs[j]),
                canon_key(bs[i]),
            ),
    ensures
        canon_scan(bs, key, summary_only) == Some(i),
    decreases bs.len(),
{
    let d = bs.drop_last();
    if i == bs.len() - 1 {
        lemma_canon_scan_pool(d, key, summary_only);
        match canon_scan(d, key, summary_only) {
            Some(p) => {
                assert(bs[p] == d[p]);
                crate::sort::lemma_key_lt_asym(canon_key(bs[p]), canon_key(bs[i]));
            },
            None => {},
        }
    } else {
        assert forall|j: int|
            0 <= j < d.len() && j != i && in_pool(#[trigger] d[j], key, summary_only) implies key_lt(
                canon_key(d[j]),
                canon_key(d[i]),
            ) by {
            assert(d[j] == bs[j]);
        }
        assert(d[i] == bs[i]);
        lemma_canon_newest(d, key, summary_only, i);
    }
}

/// The text of a file once the characters `[start, end)` are cut out, before the new block
/// is appended.
pub open spec fn spliced(text: Seq<char>, start: int, end: int) -> Seq<char> {
    closed_text(text.take(start) + text.skip(end))
}

/// Where the updated block lands among the records of all files: after the files before
/// the updated one and after the blocks left in that file once its bytes `[start, end)`
/// are cut out.
pub open spec fn updated_index(files: Seq<MemoryFile>, f: int, start: int, end: int) -> int {
    let text = files[f].text@;
    (all_records(files.take(f)).len() + blocks_of(
        spliced(text, char_index(text, start), char_index(text, end)),
    ).len()) as int
}

/// Law: reading a key after an update gives the new block. When the canonical block of the
/// key lies in file `f` and is replaced there by a new block, and the new block is newer
/// (by time, then file) than every other block under the key afterwards, reading the key
/// gives the new block's key, trimmed content, tags, file, kind and time.
pub proof fn law_read_after_update(
    files: Seq<MemoryFile>,
    files2: Seq<MemoryFile>,
    f: int,
    c: int,
    key: Seq<char>,
    content: Seq<char>,
    tags: Seq<Seq<char>>,
    at: Seq<char>,
)
    requires
        readable_block(key, content, tags, at),
        0 <= f < files.len(),
        files2.len() == files.len(),
        forall|i: int| 0 <= i < files.len() && i != f ==> #[trigger] files2[i] == files[i],
        files2[f].rel@ == files[f].rel@,
        files2[f].abs_path@ == files[f].abs_path@,
        canonical(all_records(files), key) == Some(c),
        all_records(files)[c].file_rel == files[f].rel@,
        rewritten(files[f].text@, all_records(files)[c].start, all_records(files)[c].end, key, content, tags, at)
            == Ok::<Seq<char>, ErrView>(files2[f].text@),
        forall|j: int|
            0 <= j < all_records(files2).len() && j != updated_index(
                files,
                f,
                all_records(files)[c].start,
                all_records(files)[c].end,
            ) && (#[trigger] all_records(files2)[j]).key == key ==> key_lt(
                canon_key(all_records(files2)[j]),
                seq![crate::sort::PartView::Asc(crate::memory::at_key(at)), crate::sort::PartView::Asc(files[f].rel@)],
            ),
    ensures
        read_result(all_records(files2), key) == Ok::<
            (Seq<char>, Seq<char>, Seq<Seq<char>>, Seq<char>, Seq<char>, Seq<char>),
            ErrView,
        >((key, trim(content), tags, files[f].rel@, kind_text(files[f].rel@), at)),
{
    let bs1 = all_records(files);
    let rel = files[f].rel@;
    let abs = files[f].abs_path@;
    let old_text = files[f].text@;
    let start = bs1[c].start;
    let end = bs1[c].end;
    let sp = spliced(old_text, char_index(old_text, start), char_index(old_text, end));
    let new_text = files2[f].text@;
    let pre = files.take(f);
    let post = files.skip(f + 1);
    assert(files =~= pre + seq![files[f]] + post);
    assert(files2 =~= pre + seq![files2[f]] + post);
    lemma_records_concat(pre + seq![files[f]], post);
    lemma_records_concat(pre, seq![files[f]]);
    lemma_records_concat(pre + seq![files2[f]], post);
    lemma_records_concat(pre, seq![files2[f]]);
    let a = all_records(pre);
    let b = all_records(post);
    let old_recs = file_records(rel, abs, old_text);
    let new_recs = file_records(rel, abs, new_text);
    assert(all_records(seq![files[f]]) =~= old_recs) by {
        reveal_with_fuel(all_records, 2);
        assert(seq![files[f]].last() == files[f]);
    }
    assert(all_records(seq![files2[f]]) =~= new_recs) by {
        reveal_with_fuel(all_records, 2);
        assert(seq![files2[f]].last() == files2[f]);
    }
    assert(bs1 == a + old_recs + b);
    let bs2 = all_records(files2);
    assert(bs2 == a + new_recs + b);
    law_update_appends_new_block(old_text, start, end, key, content, tags, at);
    assert(start <= end <= byte_len(old_text));
    let n = blocks_of(sp).len() as int;
    let i = a.len() + n;
    assert(i == updated_index(files, f, start, end));
    assert(new_recs.len() == n + 1);
    assert(new_recs[n].key == key && new_recs[n].content == trim(content) && new_recs[n].tags == tags
        && new_recs[n].at == at && new_recs[n].file_rel == rel);
    assert(bs2[i] == new_recs[n]);
    assert(canon_key(bs2[i]) == seq![crate::sort::PartView::Asc(crate::memory::at_key(at)), crate::sort::PartView::Asc(rel)]);
    // The new block is in the pool: it lies in the summary file, or no summary block has
    // the key.
    let so1 = summary_has_key(bs1, key);
    let so2 = summary_has_key(bs2, key);
    lemma_canon_scan_pool(bs1, key, so1);
    assert(in_pool(bs1[c], key, so1));
    if so2 && !is_summary(rel) {
        let w = choose|w: int| 0 <= w < bs2.len() && (#[trigger] bs2[w]).key == key && is_summary(bs2[w].file_rel);
        if w < a.len() {
            assert(bs2[w] == bs1[w]);
        } else if w < a.len() + new_recs.len() {
            assert(bs2[w] == new_recs[w - a.len()]);
        } else {
            assert(bs2[w] == b[w - a.len() - new_recs.len()]);
            assert(bs1[a.len() + old_recs.len() + (w - a.len() - new_recs.len())] == b[w - a.len() - new_recs.len()]);
        }
        assert(so1);
        assert(false);
    }
    assert(in_pool(bs2[i], key, so2));
    assert forall|j: int|
        0 <= j < bs2.len() && j != i && in_pool(#[trigger] bs2[j], key, so2) implies key_lt(
            canon_key(bs2[j]),
            canon_key(bs2[i]),
        ) by {}
    lemma_canon_newest(bs2, key, so2, i);
    assert(canonical(bs2, key) == Some(i));
}

} // verus!
