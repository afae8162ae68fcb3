//! Measures of chunking quality: token estimates and the structural blocks
//! (code fences, tables, headings) that a chunker should not split.
//!
//! Block bounds are byte offsets into the document. The scan moves over the
//! characters; `byte_off` gives the byte offset of a character position.

use vstd::prelude::*;
use crate::text::{
    copy_range, find_from, trim, trim_range, byte_len, char_len_utf8, chars_of, is_ws, lemma_byte_len_take_step, line_end, occurs_at,
    starts_with, ends_with, trim_start, trim_end, trim_start_range, trim_end_range,
    first_nl, lemma_byte_len_ge_len,
};
use crate::chunking::SemanticChunk;
use crate::paragraphs::blen;

verus! {

/// The smallest chunk size, in estimated tokens, that counts as compliant.
pub const SC_MIN_TOKENS: usize = 100;

/// The largest chunk size, in estimated tokens, that counts as compliant.
pub const SC_MAX_TOKENS: usize = 1100;

/// Slack, in characters, allowed at block bounds when judging integrity.
pub const BI_TAU_CHARS: usize = 5;

/// Size of the context window, in tokens, for contextual coherence.
pub const DCC_WINDOW_TOKENS: usize = 3000;

/// An estimate of the number of tokens of a text: one per three characters.
pub fn estimate_tokens(text: &str) -> (r: usize)
    ensures
        r == text@.len() / 3,
{
    let c = chars_of(text);
    c.len() / 3
}

/// The number of chunks whose estimated size lies in
/// `SC_MIN_TOKENS..=SC_MAX_TOKENS`.
pub open spec fn compliant_count(texts: Seq<Seq<char>>) -> nat
    decreases texts.len(),
{
    if texts.len() == 0 {
        0
    } else {
        let t = texts.last().len() / 3;
        compliant_count(texts.drop_last()) + if SC_MIN_TOKENS <= t <= SC_MAX_TOKENS {
            1nat
        } else {
            0nat
        }
    }
}

/// The texts of chunks.
pub open spec fn chunk_texts(chunks: Seq<SemanticChunk>) -> Seq<Seq<char>> {
    Seq::new(chunks.len(), |i: int| chunks[i].text@)
}

/// The number of size-compliant chunks (the numerator of the size
/// compliance ratio).
pub fn count_size_compliant(chunks: &[SemanticChunk]) -> (r: usize)
    ensures
        r == compliant_count(chunk_texts(chunks@)),
{
    let mut n: usize = 0;
    let mut i: usize = 0;
    while i < chunks.len()
        invariant
            i <= chunks@.len(),
            n <= i,
            n == compliant_count(chunk_texts(chunks@).take(i as int)),
        decreases chunks@.len() - i,
    {
        proof {
            assert(chunk_texts(chunks@).take(i + 1).drop_last() =~= chunk_texts(chunks@).take(
                i as int,
            ));
        }
        let t = estimate_tokens(chunks[i].text.as_str());
        if SC_MIN_TOKENS <= t && t <= SC_MAX_TOKENS {
            n = n + 1;
        }
        i = i + 1;
    }
    proof {
        assert(chunk_texts(chunks@).take(chunks@.len() as int) =~= chunk_texts(chunks@));
    }
    n
}

/// The kinds of structural block.
#[derive(Debug, Clone, Copy, PartialEq, Eq, Structural)]
pub enum BlockKind {
    CodeFence,
    Table,
    Heading,
}

/// A structural block: its kind and its byte range in the document.
#[derive(Debug, Clone, Copy)]
pub struct DocBlock {
    pub kind: BlockKind,
    pub start: usize,
    pub end: usize,
}

/// The byte offset of character position `k` of `c`.
pub open spec fn byte_off(c: Seq<char>, k: int) -> int {
    byte_len(c.take(k)) as int
}

/// The byte position of a character position that may lie one past the
/// end of the text (a position after a final line without `'\n'`).
pub open spec fn byte_pos(c: Seq<char>, p: int) -> int {
    if p <= c.len() {
        byte_off(c, p)
    } else {
        byte_off(c, c.len() as int) + (p - c.len())
    }
}

/// A code fence marker starts at `k`.
pub open spec fn fence_at(c: Seq<char>, k: int) -> bool {
    occurs_at(c, seq!['`', '`', '`'], k)
}

/// The first fence marker at or after `j`.
pub open spec fn next_fence(c: Seq<char>, j: int) -> Option<int>
    decreases c.len() - j,
{
    if j < 0 || j + 3 > c.len() {
        None
    } else if fence_at(c, j) {
        Some(j)
    } else {
        next_fence(c, j + 1)
    }
}

/// The end of the line that starts at `k`: the next `'\n'`, or the end.
pub open spec fn line_end_at(c: Seq<char>, k: int) -> int {
    k + first_nl(c.skip(k))
}

/// A table row: trimmed, it begins and ends with `'|'`.
pub open spec fn is_row(line: Seq<char>) -> bool {
    starts_with(trim_start(line), seq!['|']) && ends_with(trim_end(line), seq!['|'])
}

/// A line begins at `k`.
pub open spec fn at_line_start(c: Seq<char>, k: int) -> bool {
    k == 0 || c[k - 1] == '\n'
}

/// The position after the rows of a table starting at `k` (one past the end
/// of the text when the last row has no `'\n'`).
pub open spec fn table_scan(c: Seq<char>, k: int) -> int
    decreases c.len() + 1 - k,
{
    if k < 0 || k >= c.len() {
        k
    } else {
        let le = line_end_at(c, k);
        if k <= le <= c.len() && is_row(c.subrange(k, le)) {
            table_scan(c, le + 1)
        } else {
            k
        }
    }
}

/// The first position after `m` (at most the end) whose byte offset reaches
/// `target`.
pub open spec fn first_reaching(c: Seq<char>, m: int, target: int) -> int
    decreases c.len() - m,
{
    if m >= c.len() || byte_off(c, m) >= target {
        m
    } else {
        first_reaching(c, m + 1, target)
    }
}

/// Where the scan goes on after a fence at `k` that is never closed: at the
/// first character at or after byte `max(start + 3, total - 2)`.
pub open spec fn resume_after(c: Seq<char>, k: int) -> int {
    let total = byte_off(c, c.len() as int);
    let target = if byte_off(c, k) + 3 >= total - 2 {
        byte_off(c, k) + 3
    } else {
        total - 2
    };
    first_reaching(c, k + 1, target)
}

/// The block scan from position `k` on never meets a line that begins with
/// `'|'` but is no table row (at such a line the scan would not move on);
/// lines it skips, such as those inside a closed code fence, may be anything.
pub open spec fn scan_ok(c: Seq<char>, k: int) -> bool
    decreases c.len() + 1 - k,
{
    if k < 0 || k >= c.len() {
        true
    } else if fence_at(c, k) {
        match next_fence(c, k + 3) {
            Some(j) => if k < j + 3 <= c.len() {
                scan_ok(c, j + 3)
            } else {
                true
            },
            None => {
                let m = resume_after(c, k);
                if k < m <= c.len() {
                    scan_ok(c, m)
                } else {
                    true
                }
            },
        }
    } else if c[k] == '|' && at_line_start(c, k) {
        is_row(c.subrange(k, line_end_at(c, k))) && {
            let e = table_scan(c, k);
            if k < e <= c.len() + 1 {
                scan_ok(c, e)
            } else {
                true
            }
        }
    } else if c[k] == '#' && at_line_start(c, k) {
        let le = line_end_at(c, k);
        if k <= le <= c.len() {
            scan_ok(c, le + 1)
        } else {
            true
        }
    } else {
        scan_ok(c, k + 1)
    }
}

/// The blocks found from position `k` on, as (kind, start, end) in bytes.
pub open spec fn blocks_from(c: Seq<char>, k: int) -> Seq<(BlockKind, int, int)>
    decreases c.len() + 1 - k,
{
    if k < 0 || k >= c.len() {
        seq![]
    } else if fence_at(c, k) {
        match next_fence(c, k + 3) {
            Some(j) => if k < j + 3 <= c.len() {
                seq![(BlockKind::CodeFence, byte_off(c, k), byte_off(c, j + 3))] + blocks_from(
                    c,
                    j + 3,
                )
            } else {
                seq![]
            },
            None => {
                let m = resume_after(c, k);
                if k < m <= c.len() {
                    blocks_from(c, m)
                } else {
                    seq![]
                }
            },
        }
    } else if c[k] == '|' && at_line_start(c, k) {
        let e = table_scan(c, k);
        if k < e <= c.len() + 1 {
            if byte_pos(c, e) > byte_off(c, k) + 1 {
                seq![(BlockKind::Table, byte_off(c, k), byte_pos(c, e))] + blocks_from(c, e)
            } else {
                blocks_from(c, e)
            }
        } else {
            seq![]
        }
    } else if c[k] == '#' && at_line_start(c, k) {
        let le = line_end_at(c, k);
        if k <= le <= c.len() {
            seq![(BlockKind::Heading, byte_off(c, k), byte_off(c, le))] + blocks_from(c, le + 1)
        } else {
            seq![]
        }
    } else {
        blocks_from(c, k + 1)
    }
}

/// The views of blocks.
pub open spec fn block_views(v: Seq<DocBlock>) -> Seq<(BlockKind, int, int)> {
    Seq::new(v.len(), |i: int| (v[i].kind, v[i].start as int, v[i].end as int))
}

/// Byte offsets are monotone in the position.
proof fn lemma_byte_off_mono(c: Seq<char>, a: int, b: int)
    requires
        0 <= a <= b <= c.len(),
    ensures
        byte_off(c, a) <= byte_off(c, b),
    decreases b - a,
{
    if a < b {
        lemma_byte_off_mono(c, a, b - 1);
        lemma_byte_len_take_step(c, b - 1);
    }
}

/// The byte offset of every position `0..=c.len()`.
fn prefix_offsets(c: &Vec<char>) -> (r: Vec<usize>)
    requires
        byte_len(c@) <= usize::MAX,
    ensures
        r@.len() == c@.len() + 1,
        forall|m: int| 0 <= m <= c@.len() ==> (#[trigger] r@[m]) as int == byte_off(c@, m),
{
    let mut r: Vec<usize> = Vec::new();
    r.push(0);
    proof {
        assert(c@.take(0) =~= Seq::<char>::empty());
    }
    let mut acc: usize = 0;
    let mut i: usize = 0;
    while i < c.len()
        invariant
            i <= c@.len(),
            byte_len(c@) <= usize::MAX,
            r@.len() == i + 1,
            acc as int == byte_off(c@, i as int),
            forall|m: int| 0 <= m <= i ==> (#[trigger] r@[m]) as int == byte_off(c@, m),
        decreases c@.len() - i,
    {
        proof {
            lemma_byte_len_take_step(c@, i as int);
            lemma_byte_off_mono(c@, i + 1, c@.len() as int);
            assert(c@.take(c@.len() as int) =~= c@);
        }
        acc = acc + char_len_utf8(c[i]);
        r.push(acc);
        i = i + 1;
    }
    r
}

/// Whether `c[i..le]` is a table row.
fn row_at(c: &Vec<char>, i: usize, le: usize) -> (b: bool)
    requires
        i <= le <= c@.len(),
    ensures
        b == is_row(c@.subrange(i as int, le as int)),
{
    let ghost line = c@.subrange(i as int, le as int);
    let a = trim_start_range(c.as_slice(), i, le);
    let e = trim_end_range(c.as_slice(), i, le);
    let starts = a < le && c[a] == '|';
    let ends = e > i && c[e - 1] == '|';
    proof {
        let ts = c@.subrange(a as int, le as int);
        let te = c@.subrange(i as int, e as int);
        if a < le {
            assert(ts.take(1) =~= seq![c@[a as int]]);
        }
        if starts {
            assert(starts_with(ts, seq!['|']));
        }
        if starts_with(ts, seq!['|']) {
            assert(ts.take(1)[0] == '|');
        }
        if e > i {
            assert(te.skip(te.len() - 1) =~= seq![c@[e - 1]]);
        }
        if ends_with(te, seq!['|']) {
            assert(te.skip(te.len() - 1)[0] == '|');
        }
    }
    starts && ends
}

/// `offs` holds the byte offset of every position of `c`.
pub open spec fn offsets_of(c: Seq<char>, offs: Seq<usize>) -> bool {
    &&& offs.len() == c.len() + 1
    &&& forall|m: int| 0 <= m <= c.len() ==> (#[trigger] offs[m]) as int == byte_off(c, m)
    &&& byte_len(c) < usize::MAX
    &&& c.len() < usize::MAX
}

/// The first fence marker at or after `from`.
fn find_fence(c: &Vec<char>, from: usize) -> (r: Option<usize>)
    requires
        from <= c@.len(),
    ensures
        match r {
            Some(j) => next_fence(c@, from as int) == Some(j as int) && from <= j && j + 3
                <= c@.len(),
            None => next_fence(c@, from as int) is None,
        },
{
    let ghost cs = c@;
    let fence: Vec<char> = vec!['`', '`', '`'];
    proof {
        assert(fence@ =~= seq!['`', '`', '`']);
    }
    if c.len() < 3 {
        return None;
    }
    let mut j = from;
    while j <= c.len() - 3
        invariant
            cs == c@,
            3 <= cs.len(),
            fence@ == seq!['`', '`', '`'],
            from <= j <= cs.len(),
            next_fence(cs, from as int) == next_fence(cs, j as int),
        decreases cs.len() - j,
    {
        if crate::text::occurs_at_exec(c.as_slice(), fence.as_slice(), j) {
            return Some(j);
        }
        j = j + 1;
    }
    None
}

/// Where the scan goes on after a fence at `k` that is never closed.
fn resume_pos(c: &Vec<char>, offs: &Vec<usize>, k: usize) -> (m: usize)
    requires
        offsets_of(c@, offs@),
        k < c@.len(),
        fence_at(c@, k as int),
    ensures
        m == resume_after(c@, k as int),
        k < m <= c@.len(),
{
    let ghost cs = c@;
    proof {
        assert(cs.subrange(k as int, k + 3) == seq!['`', '`', '`']);
        assert(cs[k as int] == cs.subrange(k as int, k + 3)[0]);
        assert(cs[k + 1] == cs.subrange(k as int, k + 3)[1]);
        assert(cs[k + 2] == cs.subrange(k as int, k + 3)[2]);
        lemma_byte_len_take_step(cs, k as int);
        lemma_byte_len_take_step(cs, k + 1);
        lemma_byte_len_take_step(cs, k + 2);
        lemma_byte_off_mono(cs, k + 3, cs.len() as int);
        assert(cs.take(cs.len() as int) =~= cs);
    }
    let total = offs[c.len()];
    let target = if offs[k] + 3 >= total - 2 {
        offs[k] + 3
    } else {
        total - 2
    };
    let mut m = k + 1;
    while m < c.len() && offs[m] < target
        invariant
            cs == c@,
            offsets_of(cs, offs@),
            k < m <= cs.len(),
            first_reaching(cs, k + 1, target as int) == first_reaching(cs, m as int, target as int),
        decreases cs.len() - m,
    {
        m = m + 1;
    }
    m
}

/// One step of the scan at a code fence marker.
fn fence_step(c: &Vec<char>, offs: &Vec<usize>, k: usize, blocks: &mut Vec<DocBlock>) -> (nk: usize)
    requires
        offsets_of(c@, offs@),
        k < c@.len(),
        fence_at(c@, k as int),
    ensures
        k < nk <= c@.len(),
        nk == (match next_fence(c@, k + 3) {
            Some(j) => j + 3,
            None => resume_after(c@, k as int),
        }),
        block_views(final(blocks)@) + blocks_from(c@, nk as int) == block_views(old(blocks)@)
            + blocks_from(c@, k as int),
{
    let ghost cs = c@;
    match find_fence(c, k + 3) {
        Some(j) => {
            let ghost before = blocks@;
            blocks.push(DocBlock { kind: BlockKind::CodeFence, start: offs[k], end: offs[j + 3] });
            proof {
                assert(blocks_from(cs, k as int) == seq![
                    (BlockKind::CodeFence, byte_off(cs, k as int), byte_off(cs, j + 3)),
                ] + blocks_from(cs, j + 3));
                assert(block_views(blocks@) =~= block_views(before).push(
                    (BlockKind::CodeFence, byte_off(cs, k as int), byte_off(cs, j + 3)),
                ));
                assert(block_views(blocks@) + blocks_from(cs, j + 3) =~= block_views(before)
                    + blocks_from(cs, k as int));
            }
            j + 3
        },
        None => {
            let m = resume_pos(c, offs, k);
            proof {
                assert(blocks_from(cs, k as int) == blocks_from(cs, m as int));
            }
            m
        },
    }
}

/// The position after the rows of the table that starts at `k`.
fn scan_table(c: &Vec<char>, k: usize) -> (e: usize)
    requires
        k < c@.len() < usize::MAX,
        is_row(c@.subrange(k as int, line_end_at(c@, k as int))),
    ensures
        k < e <= c@.len() + 1,
        table_scan(c@, k as int) == e,
{
    let ghost cs = c@;
    let mut i = k;
    while i < c.len()
        invariant_except_break
            cs == c@,
            k < cs.len() < usize::MAX,
            k <= i <= cs.len() + 1,
            table_scan(cs, k as int) == table_scan(cs, i as int),
            i == k ==> is_row(cs.subrange(k as int, line_end_at(cs, k as int))),
        ensures
            k < i <= cs.len() + 1,
            table_scan(cs, k as int) == i,
        decreases cs.len() + 1 - i,
    {
        let le = line_end(c.as_slice(), i);
        if !row_at(c, i, le) {
            break;
        }
        i = le + 1;
    }
    i
}

/// One step of the scan at a line that begins with `'|'`.
#[verifier::rlimit(40)]
fn table_step(c: &Vec<char>, offs: &Vec<usize>, k: usize, blocks: &mut Vec<DocBlock>) -> (nk: usize)
    requires
        offsets_of(c@, offs@),
        k < c@.len(),
        !fence_at(c@, k as int),
        c@[k as int] == '|',
        at_line_start(c@, k as int),
        is_row(c@.subrange(k as int, line_end_at(c@, k as int))),
    ensures
        k < nk <= c@.len() + 1,
        nk == table_scan(c@, k as int),
        block_views(final(blocks)@) + blocks_from(c@, nk as int) == block_views(old(blocks)@)
            + blocks_from(c@, k as int),
{
    let ghost cs = c@;
    proof {
        assert(is_row(cs.subrange(k as int, line_end_at(cs, k as int))));
        lemma_byte_off_mono(cs, k as int, cs.len() as int);
        assert(cs.take(cs.len() as int) =~= cs);
    }
    let e = scan_table(c, k);
    let end_b: usize = if e <= c.len() {
        offs[e]
    } else {
        offs[c.len()] + 1
    };
    proof {
        assert(end_b as int == byte_pos(cs, e as int));
    }
    proof {
        assert(blocks_from(cs, k as int) == if byte_pos(cs, e as int) > byte_off(cs, k as int) + 1 {
            seq![(BlockKind::Table, byte_off(cs, k as int), byte_pos(cs, e as int))] + blocks_from(
                cs,
                e as int,
            )
        } else {
            blocks_from(cs, e as int)
        });
    }
    if end_b > offs[k] + 1 {
        let ghost before = blocks@;
        blocks.push(DocBlock { kind: BlockKind::Table, start: offs[k], end: end_b });
        proof {
            assert(block_views(blocks@) =~= block_views(before).push(
                (BlockKind::Table, byte_off(cs, k as int), byte_pos(cs, e as int)),
            ));
            assert(block_views(blocks@) + blocks_from(cs, e as int) =~= block_views(before)
                + blocks_from(cs, k as int));
        }
    }
    e
}

/// One step of the scan at a line that begins with `'#'`.
fn heading_step(c: &Vec<char>, offs: &Vec<usize>, k: usize, blocks: &mut Vec<DocBlock>) -> (nk: usize)
    requires
        offsets_of(c@, offs@),
        k < c@.len(),
        !fence_at(c@, k as int),
        !(c@[k as int] == '|' && at_line_start(c@, k as int)),
        c@[k as int] == '#',
        at_line_start(c@, k as int),
    ensures
        k < nk <= c@.len() + 1,
        nk == line_end_at(c@, k as int) + 1,
        block_views(final(blocks)@) + blocks_from(c@, nk as int) == block_views(old(blocks)@)
            + blocks_from(c@, k as int),
{
    let ghost cs = c@;
    let le = line_end(c.as_slice(), k);
    let ghost before = blocks@;
    blocks.push(DocBlock { kind: BlockKind::Heading, start: offs[k], end: offs[le] });
    proof {
        assert(block_views(blocks@) =~= block_views(before).push(
            (BlockKind::Heading, byte_off(cs, k as int), byte_off(cs, le as int)),
        ));
        assert(block_views(blocks@) + blocks_from(cs, le + 1) =~= block_views(before)
            + blocks_from(cs, k as int));
    }
    le + 1
}

/// The structural blocks of a document (code fences, tables and heading
/// lines), in document order, with their byte ranges.
pub fn extract_blocks(content: &str) -> (r: Vec<DocBlock>)
    requires
        byte_len(content@) < usize::MAX,
        scan_ok(content@, 0),
    ensures
        block_views(r@) == blocks_from(content@, 0),
{
    let c = chars_of(content);
    let offs = prefix_offsets(&c);
    let ghost cs = c@;
    proof {
        lemma_byte_len_ge_len(cs);
    }
    let fence: Vec<char> = vec!['`', '`', '`'];
    proof {
        assert(fence@ =~= seq!['`', '`', '`']);
    }
    let mut blocks: Vec<DocBlock> = Vec::new();
    let mut k: usize = 0;
    while k < c.len()
        invariant
            cs == c@,
            cs == content@,
            fence@ == seq!['`', '`', '`'],
            offsets_of(cs, offs@),
            scan_ok(cs, k as int),
            k <= cs.len() + 1,
            block_views(blocks@) + blocks_from(cs, k as int) == blocks_from(cs, 0),
        decreases cs.len() + 1 - k,
    {
        if crate::text::occurs_at_exec(c.as_slice(), fence.as_slice(), k) {
            k = fence_step(&c, &offs, k, &mut blocks);
        } else if c[k] == '|' && (k == 0 || c[k - 1] == '\n') {
            k = table_step(&c, &offs, k, &mut blocks);
        } else if c[k] == '#' && (k == 0 || c[k - 1] == '\n') {
            k = heading_step(&c, &offs, k, &mut blocks);
        } else {
            k = k + 1;
        }
    }
    proof {
        assert(blocks_from(cs, k as int) =~= Seq::<(BlockKind, int, int)>::empty());
        assert(block_views(blocks@) =~= block_views(blocks@) + blocks_from(cs, k as int));
    }
    blocks
}


// ---------------------------------------------------------------------------
// Where chunks lie in the document
// ---------------------------------------------------------------------------

/// Number of leading characters of a chunk body used to find it.
pub const SPAN_HEAD_CHARS: usize = 30;

/// Byte offsets grow strictly with the position.
proof fn lemma_byte_off_strict(c: Seq<char>, a: int, b: int)
    requires
        0 <= a < b <= c.len(),
    ensures
        byte_off(c, a) < byte_off(c, b),
{
    lemma_byte_off_mono(c, a, b - 1);
    lemma_byte_len_take_step(c, b - 1);
}

/// The blocks are non-empty and in document order without overlap: each
/// starts at or after position `k` and before its own end, and ends at or
/// before the start of the next one.
pub proof fn lemma_blocks_ordered(c: Seq<char>, k: int)
    requires
        0 <= k,
    ensures
        forall|i: int|
            0 <= i < blocks_from(c, k).len() ==> byte_off(c, k) <= (#[trigger] blocks_from(c, k)[i]).1
                < blocks_from(c, k)[i].2,
        forall|i: int|
            0 <= i < blocks_from(c, k).len() - 1 ==> (#[trigger] blocks_from(c, k)[i]).2 <= blocks_from(c, k)[i + 1].1,
    decreases c.len() + 1 - k,
{
    let bs = blocks_from(c, k);
    if k >= c.len() {
    } else if fence_at(c, k) {
        match next_fence(c, k + 3) {
            Some(j) => if k < j + 3 <= c.len() {
                lemma_blocks_ordered(c, j + 3);
                lemma_byte_off_strict(c, k, j + 3);
                let rest = blocks_from(c, j + 3);
                assert forall|i: int| 0 <= i < bs.len() implies byte_off(c, k) <= (#[trigger] bs[i]).1 < bs[i].2 by {
                    if i > 0 {
                        assert(bs[i] == rest[i - 1]);
                    }
                }
                assert forall|i: int| 0 <= i < bs.len() - 1 implies (#[trigger] bs[i]).2 <= bs[i + 1].1 by {
                    assert(bs[i + 1] == rest[i]);
                    if i > 0 {
                        assert(bs[i] == rest[i - 1]);
                    }
                }
            },
            None => {
                let m = resume_after(c, k);
                if k < m <= c.len() {
                    lemma_blocks_ordered(c, m);
                    lemma_byte_off_mono(c, k, m);
                    assert(bs == blocks_from(c, m));
                }
            },
        }
    } else if c[k] == '|' && at_line_start(c, k) {
        let e = table_scan(c, k);
        if k < e <= c.len() + 1 {
            let rest = blocks_from(c, e);
            if e <= c.len() {
                lemma_blocks_ordered(c, e);
                lemma_byte_off_mono(c, k, e);
            } else {
                assert(rest.len() == 0);
            }
            if byte_pos(c, e) > byte_off(c, k) + 1 {
                assert forall|i: int| 0 <= i < bs.len() implies byte_off(c, k) <= (#[trigger] bs[i]).1 < bs[i].2 by {
                    if i > 0 {
                        assert(bs[i] == rest[i - 1]);
                    }
                }
                assert forall|i: int| 0 <= i < bs.len() - 1 implies (#[trigger] bs[i]).2 <= bs[i + 1].1 by {
                    assert(bs[i + 1] == rest[i]);
                    if i > 0 {
                        assert(bs[i] == rest[i - 1]);
                    }
                }
            }
        }
    } else if c[k] == '#' && at_line_start(c, k) {
        let le = line_end_at(c, k);
        if k <= le <= c.len() {
            assert(c.skip(k)[0] == '#');
            assert(le > k);
            lemma_byte_off_strict(c, k, le);
            let rest = blocks_from(c, le + 1);
            if le + 1 <= c.len() {
                lemma_blocks_ordered(c, le + 1);
                lemma_byte_off_mono(c, le, le + 1);
            } else {
                assert(rest.len() == 0);
            }
            assert forall|i: int| 0 <= i < bs.len() implies byte_off(c, k) <= (#[trigger] bs[i]).1 < bs[i].2 by {
                if i > 0 {
                    assert(bs[i] == rest[i - 1]);
                }
            }
            assert forall|i: int| 0 <= i < bs.len() - 1 implies (#[trigger] bs[i]).2 <= bs[i + 1].1 by {
                assert(bs[i + 1] == rest[i]);
                if i > 0 {
                    assert(bs[i] == rest[i - 1]);
                }
            }
        }
    } else {
        lemma_blocks_ordered(c, k + 1);
        lemma_byte_off_mono(c, k, k + 1);
        assert(bs == blocks_from(c, k + 1));
    }
}

/// `b` is the byte offset of a character position of `c` (a char boundary).
pub open spec fn boundary(c: Seq<char>, b: int) -> bool {
    exists|p: int| 0 <= p <= c.len() && byte_off(c, p) == b
}

/// The character position at byte offset `b`.
pub open spec fn pos_of(c: Seq<char>, b: int) -> int {
    choose|p: int| 0 <= p <= c.len() && byte_off(c, p) == b
}

/// The first `SPAN_HEAD_CHARS` characters of `b`.
pub open spec fn span_head(b: Seq<char>) -> Seq<char> {
    if b.len() <= SPAN_HEAD_CHARS {
        b
    } else {
        b.take(SPAN_HEAD_CHARS as int)
    }
}

/// `q` is the first position at or after `p` where `h` occurs in `c`.
pub open spec fn first_at(c: Seq<char>, h: Seq<char>, p: int, q: int) -> bool {
    p <= q && occurs_at(c, h, q) && forall|j: int| p <= j < q ==> !occurs_at(c, h, j)
}

/// One chunk of the span scan from byte `cursor`: its span and the next
/// cursor. A blank chunk gets the empty span at the cursor. Otherwise the
/// first 30 characters of its trimmed text are looked for from the cursor
/// on: where found at byte `start`, the span is `start` to
/// `start + len` (at most the document's length); where not, it is `cursor`
/// to `cursor + len`, `len` being the byte length of the trimmed text.
pub open spec fn span_step(c: Seq<char>, cursor: int, t: Seq<char>) -> ((int, int), int) {
    let b = trim(t);
    let n = byte_len(b) as int;
    if b.len() == 0 {
        ((cursor, cursor), cursor)
    } else {
        let h = span_head(b);
        let p = pos_of(c, cursor);
        if exists|q: int| p <= q && occurs_at(c, h, q) {
            let q = choose|q: int| first_at(c, h, p, q);
            let start = byte_off(c, q);
            let end = if start + n <= byte_len(c) {
                start + n
            } else {
                byte_len(c) as int
            };
            ((start, end), end)
        } else {
            ((cursor, cursor + n), cursor + n)
        }
    }
}

/// The cursor after the chunk texts `ts`.
pub open spec fn cursor_after(c: Seq<char>, ts: Seq<Seq<char>>) -> int
    decreases ts.len(),
{
    if ts.len() == 0 {
        0
    } else {
        span_step(c, cursor_after(c, ts.drop_last()), ts.last()).1
    }
}

/// The span of each chunk text in `c`.
pub open spec fn spans_spec(c: Seq<char>, ts: Seq<Seq<char>>) -> Seq<(int, int)> {
    Seq::new(ts.len(), |i: int| span_step(c, cursor_after(c, ts.take(i)), ts[i]).0)
}

/// Every non-blank chunk is looked for from a char boundary (the scan never
/// slices the document inside a character or past its end).
pub open spec fn spans_defined(c: Seq<char>, ts: Seq<Seq<char>>) -> bool {
    forall|i: int|
        0 <= i < ts.len() && #[trigger] trim(ts[i]).len() > 0 ==> boundary(c, cursor_after(c, ts.take(i)))
}

/// Total byte length of the texts `ts`.
pub open spec fn total_bytes(ts: Seq<Seq<char>>) -> nat
    decreases ts.len(),
{
    if ts.len() == 0 {
        0
    } else {
        total_bytes(ts.drop_last()) + byte_len(ts.last())
    }
}

proof fn lemma_total_bytes_prefix(ts: Seq<Seq<char>>, i: int)
    requires
        0 <= i <= ts.len(),
    ensures
        total_bytes(ts.take(i)) <= total_bytes(ts),
    decreases ts.len() - i,
{
    if i < ts.len() {
        lemma_total_bytes_prefix(ts, i + 1);
        assert(ts.take(i + 1).drop_last() =~= ts.take(i));
    } else {
        assert(ts.take(i) =~= ts);
    }
}

proof fn lemma_byte_len_trim_start(s: Seq<char>)
    ensures
        byte_len(trim_start(s)) <= byte_len(s),
    decreases s.len(),
{
    if s.len() > 0 && is_ws(s[0]) {
        lemma_byte_len_trim_start(s.drop_first());
        crate::text::lemma_byte_len_concat(seq![s[0]], s.drop_first());
        assert(seq![s[0]] + s.drop_first() =~= s);
    }
}

proof fn lemma_byte_len_trim_end(s: Seq<char>)
    ensures
        byte_len(trim_end(s)) <= byte_len(s),
    decreases s.len(),
{
    if s.len() > 0 && is_ws(s.last()) {
        lemma_byte_len_trim_end(s.drop_last());
    }
}

/// Trimming never lengthens a text.
proof fn lemma_byte_len_trim(s: Seq<char>)
    ensures
        byte_len(trim(s)) <= byte_len(s),
{
    lemma_byte_len_trim_start(s);
    lemma_byte_len_trim_end(trim_start(s));
}

/// The cursor stays within the document plus the chunk texts.
proof fn lemma_cursor_bound(c: Seq<char>, ts: Seq<Seq<char>>)
    ensures
        0 <= cursor_after(c, ts) <= byte_len(c) + total_bytes(ts),
    decreases ts.len(),
{
    if ts.len() > 0 {
        lemma_cursor_bound(c, ts.drop_last());
        lemma_byte_len_trim(ts.last());
        let k = cursor_after(c, ts.drop_last());
        let b = trim(ts.last());
        if b.len() > 0 {
            let p = pos_of(c, k);
            let h = span_head(b);
            if exists|q: int| p <= q && occurs_at(c, h, q) {
                let q = choose|q: int| first_at(c, h, p, q);
                if 0 <= q <= c.len() {
                    crate::text::lemma_byte_len_prefix_le(c, q);
                }
            }
        }
    }
}

/// The position `p` of `c` with `offs[p] == b`, if `b` is a char boundary.
fn find_offset(c: &Vec<char>, offs: &Vec<usize>, b: usize) -> (r: Option<usize>)
    requires
        offsets_of(c@, offs@),
    ensures
        r is None <==> !boundary(c@, b as int),
        r is Some ==> r->0 <= c@.len() && byte_off(c@, r->0 as int) == b && r->0 as int == pos_of(c@, b as int),
{
    let mut p: usize = 0;
    while p <= c.len()
        invariant
            p <= c@.len() + 1,
            offsets_of(c@, offs@),
            forall|j: int| 0 <= j < p ==> byte_off(c@, j) != b,
        decreases c@.len() + 1 - p,
    {
        if offs[p] == b {
            proof {
                let q = pos_of(c@, b as int);
                if q < p {
                    lemma_byte_off_strict(c@, q, p as int);
                } else if p < q {
                    lemma_byte_off_strict(c@, p as int, q);
                }
            }
            return Some(p);
        }
        p = p + 1;
    }
    None
}

/// The span scan; `None` where it would look for a chunk from inside a
/// character.
#[verifier::spinoff_prover]
fn scan_spans(content: &str, chunks: &[SemanticChunk]) -> (r: Option<Vec<(usize, usize)>>)
    requires
        byte_len(content@) + total_bytes(chunk_texts(chunks@)) <= usize::MAX,
    ensures
        r is Some <==> spans_defined(content@, chunk_texts(chunks@)),
        r is Some ==> r->0@.len() == chunks@.len() && forall|i: int|
            0 <= i < r->0@.len() ==> ((#[trigger] r->0@[i]).0 as int, r->0@[i].1 as int) == spans_spec(
                content@,
                chunk_texts(chunks@),
            )[i],
{
    let ghost ts = chunk_texts(chunks@);
    let c = chars_of(content);
    let offs = prefix_offsets(&c);
    proof {
        crate::text::lemma_byte_len_ge_len(c@);
        lemma_total_bytes_prefix(ts, 0);
    }
    let total = offs[c.len()];
    proof {
        assert(c@.take(c@.len() as int) =~= c@);
    }
    let mut spans: Vec<(usize, usize)> = Vec::new();
    let mut cursor: usize = 0;
    let mut i: usize = 0;
    while i < chunks.len()
        invariant
            i <= chunks@.len(),
            ts == chunk_texts(chunks@),
            c@ == content@,
            offs@.len() == c@.len() + 1,
            forall|m: int| 0 <= m <= c@.len() ==> (#[trigger] offs@[m]) as int == byte_off(c@, m),
            total as int == byte_len(c@),
            byte_len(content@) + total_bytes(ts) <= usize::MAX,
            forall|k: int|
                0 <= k < i && #[trigger] trim(ts[k]).len() > 0 ==> boundary(c@, cursor_after(c@, ts.take(k))),
            cursor as int == cursor_after(c@, ts.take(i as int)),
            spans@.len() == i,
            forall|k: int| 0 <= k < i ==> ((#[trigger] spans@[k]).0 as int, spans@[k].1 as int) == spans_spec(c@, ts)[k],
        decreases chunks@.len() - i,
    {
        let ghost before = ts.take(i as int);
        let ghost spans_before = spans@;
        proof {
            assert(ts.take(i + 1).drop_last() =~= before);
            assert(ts.take(i + 1).last() == ts[i as int]);
            lemma_total_bytes_prefix(ts, i + 1);
            lemma_cursor_bound(c@, before);
            lemma_byte_len_trim(ts[i as int]);
            assert(total_bytes(ts.take(i + 1)) == total_bytes(before) + byte_len(ts[i as int]));
        }
        let t = chars_of(chunks[i].text.as_str());
        let (a, b) = trim_range(t.as_slice(), 0, t.len());
        proof {
            assert(t@.subrange(0, t@.len() as int) =~= t@);
        }
        let ghost step = span_step(c@, cursor as int, ts[i as int]);
        if a == b {
            spans.push((cursor, cursor));
        } else {
            let body = copy_range(t.as_slice(), a, b);
            let bl = blen(body.as_slice());
            let bl = bl as usize;
            let hn = if body.len() <= SPAN_HEAD_CHARS { body.len() } else { SPAN_HEAD_CHARS };
            let head = copy_range(body.as_slice(), 0, hn);
            proof {
                if body@.len() <= SPAN_HEAD_CHARS {
                    assert(body@.subrange(0, hn as int) =~= body@);
                } else {
                    assert(body@.subrange(0, hn as int) =~= body@.take(SPAN_HEAD_CHARS as int));
                }
                crate::text::lemma_byte_len_ge_len(body@);
                crate::text::lemma_byte_len_ge_len(c@);
                assert(byte_len(c@) < usize::MAX);
                assert(offsets_of(c@, offs@));
            }
            let p = match find_offset(&c, &offs, cursor) {
                Some(p) => p,
                None => {
                    proof {
                        assert(trim(ts[i as int]).len() > 0);
                        assert(!spans_defined(content@, ts));
                    }
                    return None;
                },
            };
            match find_from(c.as_slice(), head.as_slice(), p) {
                Some(q) => {
                    let start = offs[q];
                    proof {
                        assert(first_at(c@, head@, p as int, q as int));
                        let q2 = choose|x: int| first_at(c@, head@, p as int, x);
                        if q2 < q {
                        } else if q < q2 {
                        }
                        assert(q2 == q);
                        crate::text::lemma_byte_len_prefix_le(c@, q as int);
                        assert(t@ == ts[i as int]);
                        assert(body@ == trim(ts[i as int]));
                        assert(head@ == span_head(trim(ts[i as int])));
                        assert(p as int == pos_of(c@, cursor as int));
                        assert(p <= q && occurs_at(c@, head@, q as int));
                        assert(exists|x: int| p <= x && occurs_at(c@, span_head(trim(ts[i as int])), x));
                        assert(bl as int == byte_len(trim(ts[i as int])));
                        assert(start as int == byte_off(c@, q as int));
                    }
                    let end = if start <= total && bl <= total - start { start + bl } else { total };
                    spans.push((start, end));
                    assert((start as int, end as int) == step.0);
                    cursor = end;
                }
                None => {
                    spans.push((cursor, cursor + bl));
                    assert((cursor as int, cursor + bl) == step.0);
                    cursor = cursor + bl;
                }
            }
        }
        proof {
            assert(spans_spec(c@, ts)[i as int] == step.0);
            assert(spans@.len() == i + 1);
            assert(((spans@[i as int]).0 as int, spans@[i as int].1 as int) == step.0);
            assert forall|k: int| 0 <= k < i + 1 implies ((#[trigger] spans@[k]).0 as int, spans@[k].1 as int) == spans_spec(c@, ts)[k] by {
                if k < i {
                    assert(spans@[k] == spans_before[k]);
                }
            }
        }
        i = i + 1;
    }
    Some(spans)
}

/// The byte span in `content` where each chunk's text is found: chunks are
/// looked for in order, each from where the previous one ended, by the first
/// 30 characters of its trimmed text (see `span_step`).
pub fn chunk_spans_in_doc(content: &str, chunks: &[SemanticChunk]) -> (r: Vec<(usize, usize)>)
    requires
        byte_len(content@) + total_bytes(chunk_texts(chunks@)) <= usize::MAX,
        spans_defined(content@, chunk_texts(chunks@)),
    ensures
        r@.len() == chunks@.len(),
        forall|i: int|
            0 <= i < r@.len() ==> ((#[trigger] r@[i]).0 as int, r@[i].1 as int) == spans_spec(
                content@,
                chunk_texts(chunks@),
            )[i],
{
    match scan_spans(content, chunks) {
        Some(spans) => spans,
        None => Vec::new(),
    }
}

/// Whether the span scan of `chunks` in `content` stays on char boundaries
/// (the condition under which `chunk_spans_in_doc` and
/// `count_intact_blocks` are defined).
pub fn spans_are_defined(content: &str, chunks: &[SemanticChunk]) -> (b: bool)
    requires
        byte_len(content@) + total_bytes(chunk_texts(chunks@)) <= usize::MAX,
    ensures
        b == spans_defined(content@, chunk_texts(chunks@)),
{
    scan_spans(content, chunks).is_some()
}


/// A block lies intact in the chunk span `(cs, ce)`: its start and its end
/// both fall within the span, with `BI_TAU_CHARS` bytes of slack.
pub open spec fn intact_in_span(b: DocBlock, span: (int, int)) -> bool {
    let (cs, ce) = span;
    &&& b.start + BI_TAU_CHARS >= cs
    &&& b.start <= ce
    &&& cs <= b.end + BI_TAU_CHARS
    &&& b.end <= ce + BI_TAU_CHARS
}

/// A block lies intact in one of the spans.
pub open spec fn block_intact(b: DocBlock, spans: Seq<(int, int)>) -> bool {
    exists|k: int| 0 <= k < spans.len() && intact_in_span(b, #[trigger] spans[k])
}

/// The number of blocks that lie intact in some span.
pub open spec fn intact_count(blocks: Seq<DocBlock>, spans: Seq<(int, int)>) -> nat
    decreases blocks.len(),
{
    if blocks.len() == 0 {
        0
    } else {
        intact_count(blocks.drop_last(), spans) + if block_intact(blocks.last(), spans) {
            1nat
        } else {
            0nat
        }
    }
}

/// The number of `blocks` that no chunk boundary cuts: each block whose
/// start and end fall, with `BI_TAU_CHARS` bytes of slack, within the span
/// of one chunk (the numerator of boundary integrity).
pub fn count_intact_blocks(content: &str, chunks: &[SemanticChunk], blocks: &[DocBlock]) -> (r: usize)
    requires
        byte_len(content@) + total_bytes(chunk_texts(chunks@)) + BI_TAU_CHARS <= usize::MAX,
        spans_defined(content@, chunk_texts(chunks@)),
        forall|i: int| 0 <= i < blocks@.len() ==> (#[trigger] blocks@[i]).start + BI_TAU_CHARS <= usize::MAX
            && blocks@[i].end + BI_TAU_CHARS <= usize::MAX,
    ensures
        r == intact_count(blocks@, spans_spec(content@, chunk_texts(chunks@))),
{
    let spans = chunk_spans_in_doc(content, chunks);
    let ghost sp = spans_spec(content@, chunk_texts(chunks@));
    let mut n: usize = 0;
    let mut i: usize = 0;
    while i < blocks.len()
        invariant
            i <= blocks@.len(),
            n <= i,
            spans@.len() == sp.len(),
            forall|k: int| 0 <= k < spans@.len() ==> ((#[trigger] spans@[k]).0 as int, spans@[k].1 as int) == sp[k],
            forall|k: int| 0 <= k < blocks@.len() ==> (#[trigger] blocks@[k]).start + BI_TAU_CHARS <= usize::MAX
                && blocks@[k].end + BI_TAU_CHARS <= usize::MAX,
            n == intact_count(blocks@.take(i as int), sp),
        decreases blocks@.len() - i,
    {
        let b = blocks[i];
        let mut found = false;
        let mut k: usize = 0;
        while k < spans.len()
            invariant
                k <= spans@.len(),
                spans@.len() == sp.len(),
                forall|m: int| 0 <= m < spans@.len() ==> ((#[trigger] spans@[m]).0 as int, spans@[m].1 as int) == sp[m],
                b == blocks@[i as int],
                b.start + BI_TAU_CHARS <= usize::MAX,
                b.end + BI_TAU_CHARS <= usize::MAX,
                found == exists|m: int| 0 <= m < k && intact_in_span(b, #[trigger] sp[m]),
            decreases spans@.len() - k,
        {
            let (cs, ce) = spans[k];
            let start_in = b.start + BI_TAU_CHARS >= cs && b.start <= ce;
            let end_in = cs <= b.end + BI_TAU_CHARS && b.end as u128 <= ce as u128 + BI_TAU_CHARS as u128;
            proof {
                assert(sp[k as int] == (cs as int, ce as int));
                if start_in && end_in {
                    assert(intact_in_span(b, sp[k as int]));
                }
                if intact_in_span(b, sp[k as int]) {
                    assert(start_in && end_in);
                }
            }
            found = found || (start_in && end_in);
            k = k + 1;
        }
        proof {
            assert(blocks@.take(i + 1).drop_last() =~= blocks@.take(i as int));
            assert(blocks@.take(i + 1).last() == b);
        }
        if found {
            n = n + 1;
        }
        i = i + 1;
    }
    proof {
        assert(blocks@.take(i as int) =~= blocks@);
    }
    n
}


/// Whether the block scan of `content` is defined: it never meets a line
/// that begins with `'|'` but is no table row (the condition of
/// `extract_blocks`).
pub fn scan_is_defined(content: &str) -> (b: bool)
    requires
        byte_len(content@) < usize::MAX,
    ensures
        b == scan_ok(content@, 0),
{
    let c = chars_of(content);
    let offs = prefix_offsets(&c);
    let ghost cs = c@;
    proof {
        lemma_byte_len_ge_len(cs);
    }
    let fence: Vec<char> = vec!['`', '`', '`'];
    proof {
        assert(fence@ =~= seq!['`', '`', '`']);
    }
    let mut scratch: Vec<DocBlock> = Vec::new();
    let mut k: usize = 0;
    while k < c.len()
        invariant
            cs == c@,
            cs == content@,
            fence@ == seq!['`', '`', '`'],
            offsets_of(cs, offs@),
            k <= cs.len() + 1,
            scan_ok(cs, 0) == scan_ok(cs, k as int),
        decreases cs.len() + 1 - k,
    {
        if crate::text::occurs_at_exec(c.as_slice(), fence.as_slice(), k) {
            k = fence_step(&c, &offs, k, &mut scratch);
        } else if c[k] == '|' && (k == 0 || c[k - 1] == '\n') {
            let le = crate::text::line_end(c.as_slice(), k);
            if !row_at(&c, k, le) {
                proof {
                    assert(le == line_end_at(cs, k as int));
                }
                return false;
            }
            proof {
                assert(le == line_end_at(cs, k as int));
            }
            k = table_step(&c, &offs, k, &mut scratch);
        } else if c[k] == '#' && (k == 0 || c[k - 1] == '\n') {
            k = heading_step(&c, &offs, k, &mut scratch);
        } else {
            k = k + 1;
        }
    }
    true
}

} // verus!
