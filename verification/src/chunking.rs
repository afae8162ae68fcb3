//! Splitting large documents into chunks: fixed-size splitting on line
//! boundaries, and semantic splitting on headings, rules and paragraphs.

use vstd::prelude::*;
use crate::paragraphs::{blen, fits_or_one_line, lemma_section_split_fits, section_split_spec, split_section_by_paragraphs, tail_lines, tail_lines_exec};
use crate::sections::{sections_spec, section_views, split_sections};
use crate::text::{
    all_ascii, ascii_lower_char, byte_len, char_len_utf8, char_width, chars_of, is_blank,
    is_blank_range, lemma_byte_len_concat, lemma_byte_len_subrange_step, lower_chars, lowercase,
    owned, push_chars, range_eq, string_from, string_of, views,
};

verus! {

// ---------------------------------------------------------------------------
// Fixed-size splitting
// ---------------------------------------------------------------------------

/// Largest `k >= i` such that `s[start..k]` fits in `size` bytes, scanning
/// from `i` (all of `s[start..i]` is assumed to fit).
pub open spec fn fit_scan(s: Seq<char>, start: int, i: int, size: nat) -> int
    decreases s.len() - i,
{
    if start <= i < s.len() && byte_len(s.subrange(start, i + 1)) <= size {
        fit_scan(s, start, i + 1, size)
    } else {
        i
    }
}

/// Index of the last `'\n'` in `s[a..k]`, if any.
pub open spec fn last_nl(s: Seq<char>, a: int, k: int) -> Option<int>
    decreases k - a,
{
    if a < k {
        if s[k - 1] == '\n' {
            Some(k - 1)
        } else {
            last_nl(s, a, k - 1)
        }
    } else {
        None
    }
}

/// End of the piece that starts at `start`: the longest prefix that fits in
/// `size` bytes, cut back after its last newline unless it reaches the end.
pub open spec fn cut_end(s: Seq<char>, start: int, size: nat) -> int {
    let k = fit_scan(s, start, start, size);
    if k < s.len() {
        match last_nl(s, start, k) {
            Some(p) => p + 1,
            None => k,
        }
    } else {
        k
    }
}

/// The consecutive pieces that fixed-size splitting cuts `s[start..]` into.
pub open spec fn fixed_pieces(s: Seq<char>, start: int, size: nat) -> Seq<Seq<char>>
    decreases s.len() - start,
{
    if 0 <= start < s.len() {
        let e = cut_end(s, start, size);
        if start < e <= s.len() {
            seq![s.subrange(start, e)] + fixed_pieces(s, e, size)
        } else {
            seq![]
        }
    } else {
        seq![]
    }
}

/// The pieces of `s[start..]` that are not all whitespace.
pub open spec fn fixed_chunks(s: Seq<char>, start: int, size: nat) -> Seq<Seq<char>>
    decreases s.len() - start,
{
    if 0 <= start < s.len() {
        let e = cut_end(s, start, size);
        if start < e <= s.len() {
            let rest = fixed_chunks(s, e, size);
            if is_blank(s.subrange(start, e)) {
                rest
            } else {
                seq![s.subrange(start, e)] + rest
            }
        } else {
            seq![]
        }
    } else {
        seq![]
    }
}

/// The chunk texts of `split_into_chunks(s, size)`: the whole text when it
/// fits, else the non-blank pieces.
pub open spec fn split_chunks_spec(s: Seq<char>, size: nat) -> Seq<Seq<char>> {
    if byte_len(s) <= size {
        seq![s]
    } else {
        fixed_chunks(s, 0, size)
    }
}

/// Every character of `s` encodes in at most `size` bytes, so that splitting
/// always makes progress.
pub open spec fn widths_fit(s: Seq<char>, size: nat) -> bool {
    forall|i: int| 0 <= i < s.len() ==> char_width(#[trigger] s[i]) <= size
}

/// Whether `byte_len(s[lo..hi]) <= limit`, computed without overflow.
pub fn byte_len_at_most(s: &[char], lo: usize, hi: usize, limit: usize) -> (b: bool)
    requires
        lo <= hi <= s@.len(),
    ensures
        b == (byte_len(s@.subrange(lo as int, hi as int)) <= limit),
{
    let mut n: usize = 0;
    let mut i = lo;
    while i < hi
        invariant
            lo <= i <= hi <= s@.len(),
            n == byte_len(s@.subrange(lo as int, i as int)),
            n <= limit,
        decreases hi - i,
    {
        let w = char_len_utf8(s[i]);
        proof {
            lemma_byte_len_subrange_step(s@, lo as int, i as int);
        }
        if w > limit - n {
            proof {
                lemma_byte_len_mono(s@, lo as int, i + 1, hi as int);
            }
            return false;
        }
        n = n + w;
        i = i + 1;
    }
    true
}

/// Byte length only grows as a range is extended.
pub proof fn lemma_byte_len_mono(s: Seq<char>, a: int, b: int, c: int)
    requires
        0 <= a <= b <= c <= s.len(),
    ensures
        byte_len(s.subrange(a, b)) <= byte_len(s.subrange(a, c)),
{
    lemma_byte_len_concat(s.subrange(a, b), s.subrange(b, c));
    assert(s.subrange(a, b) + s.subrange(b, c) =~= s.subrange(a, c));
}

pub proof fn lemma_fit_scan_ge(s: Seq<char>, start: int, i: int, size: nat)
    ensures
        fit_scan(s, start, i, size) >= i,
        i <= s.len() ==> fit_scan(s, start, i, size) <= s.len(),
    decreases s.len() - i,
{
    if start <= i < s.len() && byte_len(s.subrange(start, i + 1)) <= size {
        lemma_fit_scan_ge(s, start, i + 1, size);
    }
}

/// The longest fitting prefix of `s[start..]` ends at index `k`.
pub fn fit_end(s: &[char], start: usize, size: usize) -> (k: usize)
    requires
        start <= s@.len(),
    ensures
        start <= k <= s@.len(),
        k == fit_scan(s@, start as int, start as int, size as nat),
        byte_len(s@.subrange(start as int, k as int)) <= size,
{
    let mut k = start;
    let mut w: usize = 0;
    while k < s.len()
        invariant
            start <= k <= s@.len(),
            w == byte_len(s@.subrange(start as int, k as int)),
            w <= size,
            fit_scan(s@, start as int, start as int, size as nat) == fit_scan(
                s@,
                start as int,
                k as int,
                size as nat,
            ),
        decreases s@.len() - k,
    {
        let c = char_len_utf8(s[k]);
        proof {
            lemma_byte_len_subrange_step(s@, start as int, k as int);
        }
        if c > size - w {
            return k;
        }
        w = w + c;
        k = k + 1;
    }
    k
}

/// Position after the last newline in `s[a..k]`, or `k` when there is none.
pub fn last_nl_exec(s: &[char], a: usize, k: usize) -> (r: Option<usize>)
    requires
        a <= k <= s@.len(),
    ensures
        r is Some <==> last_nl(s@, a as int, k as int) is Some,
        r is Some ==> last_nl(s@, a as int, k as int) == Some(r->0 as int) && a <= r->0 < k,
{
    let mut j = k;
    while j > a
        invariant
            a <= j <= k <= s@.len(),
            last_nl(s@, a as int, k as int) == last_nl(s@, a as int, j as int),
        decreases j - a,
    {
        if s[j - 1] == '\n' {
            return Some(j - 1);
        }
        j = j - 1;
    }
    None
}

/// End of the piece starting at `start`.
pub fn cut_end_exec(s: &[char], start: usize, size: usize) -> (e: usize)
    requires
        start < s@.len(),
        char_width(s@[start as int]) <= size,
    ensures
        e == cut_end(s@, start as int, size as nat),
        start < e <= s@.len(),
{
    let k = fit_end(s, start, size);
    proof {
        lemma_byte_len_subrange_step(s@, start as int, start as int);
        assert(s@.subrange(start as int, start as int) =~= Seq::<char>::empty());
        lemma_fit_scan_ge(s@, start as int, start + 1, size as nat);
    }
    if k < s.len() {
        match last_nl_exec(s, start, k) {
            Some(p) => p + 1,
            None => k,
        }
    } else {
        k
    }
}

/// Splits `content` into chunks of at most `chunk_size` bytes, cut on line
/// boundaries where possible. Text that fits in `chunk_size` bytes is one
/// chunk as it is; otherwise the pieces that are all whitespace are dropped.
/// Each chunk is paired with its index.
pub fn split_into_chunks(content: &str, chunk_size: usize) -> (r: Vec<(usize, String)>)
    requires
        byte_len(content@) <= chunk_size || widths_fit(content@, chunk_size as nat),
    ensures
        r@.len() == split_chunks_spec(content@, chunk_size as nat).len(),
        forall|i: int|
            0 <= i < r@.len() ==> (#[trigger] r@[i]).0 == i && r@[i].1@ == split_chunks_spec(
                content@,
                chunk_size as nat,
            )[i],
{
    let s = chars_of(content);
    if byte_len_at_most(&s, 0, s.len(), chunk_size) {
        proof {
            assert(s@.subrange(0, s@.len() as int) =~= s@);
        }
        let mut r: Vec<(usize, String)> = Vec::new();
        r.push((0, owned(content)));
        return r;
    }
    proof {
        assert(s@.subrange(0, s@.len() as int) =~= s@);
    }
    let mut chunks: Vec<(usize, String)> = Vec::new();
    let mut start: usize = 0;
    let mut idx: usize = 0;
    while start < s.len()
        invariant
            start <= s@.len(),
            s@ == content@,
            widths_fit(s@, chunk_size as nat),
            idx == chunks@.len(),
            idx <= start,
            fixed_chunks(s@, 0, chunk_size as nat) =~= Seq::new(
                chunks@.len(),
                |i: int| chunks@[i].1@,
            ) + fixed_chunks(s@, start as int, chunk_size as nat),
            forall|i: int| 0 <= i < chunks@.len() ==> (#[trigger] chunks@[i]).0 == i,
        decreases s@.len() - start,
    {
        let end = cut_end_exec(&s, start, chunk_size);
        let blank = is_blank_range(&s, start, end);
        let ghost old_chunks = chunks@;
        if !blank {
            let piece = string_from(&s, start, end);
            chunks.push((idx, piece));
            idx = idx + 1;
            proof {
                assert(Seq::new(chunks@.len(), |i: int| chunks@[i].1@) =~= Seq::new(
                    old_chunks.len(),
                    |i: int| old_chunks[i].1@,
                ).push(s@.subrange(start as int, end as int)));
            }
        }
        start = end;
    }
    proof {
        assert(Seq::new(chunks@.len(), |i: int| chunks@[i].1@) + Seq::<Seq<char>>::empty()
            =~= Seq::new(chunks@.len(), |i: int| chunks@[i].1@));
    }
    chunks
}


/// Size summary of fixed-size splitting.
pub struct ChunkInfo {
    pub total_chunks: usize,
    pub total_bytes: usize,
    pub avg_chunk_bytes: usize,
}

/// Number of chunks, byte length, and average chunk size (integer division)
/// of fixed-size splitting.
pub fn chunk_info(content: &str, chunk_size: usize) -> (r: ChunkInfo)
    requires
        byte_len(content@) <= chunk_size || widths_fit(content@, chunk_size as nat),
    ensures
        r.total_chunks == split_chunks_spec(content@, chunk_size as nat).len(),
        r.total_bytes == content.len(),
        r.avg_chunk_bytes == if r.total_chunks > 0 {
            content.len() / r.total_chunks
        } else {
            0
        },
{
    let chunks = split_into_chunks(content, chunk_size);
    let total = chunks.len();
    ChunkInfo {
        total_chunks: total,
        total_bytes: content.len(),
        avg_chunk_bytes: if total > 0 {
            content.len() / total
        } else {
            0
        },
    }
}

// ---------------------------------------------------------------------------
// Semantic splitting
// ---------------------------------------------------------------------------

/// Settings of semantic splitting.
#[derive(Debug, Clone)]
pub struct SemanticChunkConfig {
    /// Target chunk size in bytes (about four bytes per token).
    pub target_bytes: usize,
    /// Largest chunk size in bytes; larger sections are split further.
    pub max_bytes: usize,
    /// Number of lines of a chunk repeated at the start of the next.
    pub overlap_sentences: usize,
    /// Never cut inside a ``` code fence.
    pub preserve_code_blocks: bool,
    /// Never cut inside a `|...|` table.
    pub preserve_tables: bool,
}

impl Default for SemanticChunkConfig {
    fn default() -> (r: Self)
        ensures
            r.target_bytes == 1500,
            r.max_bytes == 2500,
            r.overlap_sentences == 2,
            r.preserve_code_blocks,
            !r.preserve_tables,
    {
        SemanticChunkConfig {
            target_bytes: 1500,
            max_bytes: 2500,
            overlap_sentences: 2,
            preserve_code_blocks: true,
            preserve_tables: false,
        }
    }
}

/// One chunk of semantic splitting.
#[derive(Debug, Clone)]
pub struct SemanticChunk {
    pub index: usize,
    pub text: String,
    /// Lines repeated from the previous chunk (empty when none).
    pub overlap_prefix: String,
    /// Heading path (H1 > H2 > H3) of the chunk; empty without headings.
    pub title_path: Vec<String>,
}

/// A chunk as plain values: index, text, overlap prefix, heading path.
pub open spec fn chunk_view(c: SemanticChunk) -> (nat, Seq<char>, Seq<char>, Seq<Seq<char>>) {
    (c.index as nat, c.text@, c.overlap_prefix@, Seq::new(c.title_path@.len(), |j: int| c.title_path@[j]@))
}

/// Chunks (heading path, text) before overlap: each non-blank section whole
/// when it fits in `max` bytes, else split by paragraphs.
pub open spec fn base_chunks(secs: Seq<(Seq<Seq<char>>, Seq<char>)>, max: nat, target: nat, pc: bool, pt: bool) -> Seq<(Seq<Seq<char>>, Seq<char>)>
    decreases secs.len(),
{
    if secs.len() == 0 {
        seq![]
    } else {
        let rest = base_chunks(secs.drop_last(), max, target, pc, pt);
        let (path, text) = secs.last();
        if is_blank(text) {
            rest
        } else if byte_len(text) <= max {
            rest.push((path, text))
        } else {
            let subs = section_split_spec(text, max, target, pc, pt);
            rest + Seq::new(subs.len(), |j: int| (path, subs[j]))
        }
    }
}

pub open spec fn base_of(s: Seq<char>, cfg: SemanticChunkConfig) -> Seq<(Seq<Seq<char>>, Seq<char>)> {
    base_chunks(
        sections_spec(s, cfg.preserve_code_blocks, cfg.preserve_tables),
        cfg.max_bytes as nat,
        cfg.target_bytes as nat,
        cfg.preserve_code_blocks,
        cfg.preserve_tables,
    )
}

/// The overlap prefix of chunk `i`: the last lines of the chunk before it.
pub open spec fn overlap_of(base: Seq<(Seq<Seq<char>>, Seq<char>)>, i: int, n: nat) -> Seq<char> {
    if i >= 1 && n > 0 && base.len() > 1 && !is_blank(tail_lines(base[i - 1].1, n)) {
        tail_lines(base[i - 1].1, n)
    } else {
        seq![]
    }
}

/// Semantic splitting of `s`, as plain values: chunk `i` has index `i`, the
/// heading path of its section, and its text, preceded (when overlap applies)
/// by the last `overlap_sentences` non-blank lines of chunk `i - 1` and a
/// blank line.
pub open spec fn semantic_spec(s: Seq<char>, cfg: SemanticChunkConfig) -> Seq<(nat, Seq<char>, Seq<char>, Seq<Seq<char>>)> {
    let base = base_of(s, cfg);
    Seq::new(
        base.len(),
        |i: int|
            {
                let p = overlap_of(base, i, cfg.overlap_sentences as nat);
                let text = if p.len() > 0 {
                    p + seq!['\n', '\n'] + base[i].1
                } else {
                    base[i].1
                };
                (i as nat, text, p, base[i].0)
            },
    )
}

fn strings_of(v: &Vec<Vec<char>>) -> (r: Vec<String>)
    ensures
        r@.len() == v@.len(),
        forall|j: int| 0 <= j < v@.len() ==> (#[trigger] r@[j])@ == v@[j]@,
{
    let mut r: Vec<String> = Vec::new();
    let mut j: usize = 0;
    while j < v.len()
        invariant
            j <= v@.len(),
            r@.len() == j,
            forall|k: int| 0 <= k < j ==> (#[trigger] r@[k])@ == v@[k]@,
        decreases v@.len() - j,
    {
        r.push(string_of(v[j].as_slice()));
        j = j + 1;
    }
    r
}

/// Splits a markdown document into semantic chunks: at `#`/`##`/`###`
/// headings and horizontal rules (never inside code fences when
/// `preserve_code_blocks`), sections over `max_bytes` at blank lines, and any
/// remainder over `max_bytes` line by line. With `overlap_sentences > 0` and
/// at least two chunks, each chunk after the first starts with the last lines
/// of the one before it.
pub fn split_semantic(content: &str, config: &SemanticChunkConfig) -> (r: Vec<SemanticChunk>)
    ensures
        r@.len() == semantic_spec(content@, *config).len(),
        forall|i: int|
            0 <= i < r@.len() ==> chunk_view(#[trigger] r@[i]) == semantic_spec(content@, *config)[i],
{
    let s = chars_of(content);
    let pc = config.preserve_code_blocks;
    let pt = config.preserve_tables;
    let secs = split_sections(s.as_slice(), pc, pt);
    let ghost sv = section_views(secs@);
    let mut base: Vec<(Vec<Vec<char>>, Vec<char>)> = Vec::new();
    let mut i: usize = 0;
    proof {
        assert(section_views(base@) =~= base_chunks(sv.take(0), config.max_bytes as nat, config.target_bytes as nat, pc, pt));
    }
    while i < secs.len()
        invariant
            i <= secs@.len(),
            sv == section_views(secs@),
            sv == sections_spec(s@, pc, pt),
            pc == config.preserve_code_blocks,
            pt == config.preserve_tables,
            section_views(base@) == base_chunks(sv.take(i as int), config.max_bytes as nat, config.target_bytes as nat, pc, pt),
        decreases secs@.len() - i,
    {
        let text = &secs[i].1;
        let path = &secs[i].0;
        let ghost before = section_views(base@);
        proof {
            assert(sv.take(i + 1).drop_last() =~= sv.take(i as int));
            assert(sv.take(i + 1).last() == (views(path@), text@));
        }
        let blank = is_blank_range(text.as_slice(), 0, text.len());
        proof {
            assert(text@.subrange(0, text@.len() as int) =~= text@);
        }
        if !blank {
            let tlen = blen(text.as_slice());
            if tlen <= config.max_bytes as u128 {
                let p = crate::text::copy_all(path);
                let t = crate::text::copy_range(text.as_slice(), 0, text.len());
                base.push((p, t));
                proof {
                    assert(text@.subrange(0, text@.len() as int) =~= text@);
                    assert(section_views(base@) =~= before.push((views(path@), text@)));
                }
            } else {
                let subs = split_section_by_paragraphs(text.as_slice(), config.max_bytes, config.target_bytes, pc, pt);
                let ghost sub_views = views(subs@);
                let mut j: usize = 0;
                while j < subs.len()
                    invariant
                        j <= subs@.len(),
                        sub_views == views(subs@),
                        section_views(base@) == before + Seq::new(j as nat, |k: int| (views(path@), sub_views[k])),
                    decreases subs@.len() - j,
                {
                    let p = crate::text::copy_all(path);
                    let t = crate::text::copy_range(subs[j].as_slice(), 0, subs[j].len());
                    let ghost mid = section_views(base@);
                    base.push((p, t));
                    proof {
                        assert(subs@[j as int]@.subrange(0, subs@[j as int]@.len() as int) =~= subs@[j as int]@);
                        assert(section_views(base@) =~= mid.push((views(path@), sub_views[j as int])));
                        assert(Seq::new((j + 1) as nat, |k: int| (views(path@), sub_views[k])) =~= Seq::new(j as nat, |k: int| (views(path@), sub_views[k])).push((views(path@), sub_views[j as int])));
                    }
                    j = j + 1;
                }
                proof {
                    assert(section_views(base@) =~= before + Seq::new(sub_views.len(), |k: int| (views(path@), sub_views[k])));
                }
            }
        }
        i = i + 1;
    }
    proof {
        assert(sv.take(i as int) =~= sv);
    }
    let ghost bv = section_views(base@);
    let n = config.overlap_sentences;
    let mut out: Vec<SemanticChunk> = Vec::new();
    let mut k: usize = 0;
    while k < base.len()
        invariant
            k <= base@.len(),
            bv == section_views(base@),
            out@.len() == k,
            forall|m: int| 0 <= m < k ==> chunk_view(#[trigger] out@[m]) == plain_chunk(bv, m),
        decreases base@.len() - k,
    {
        let mut text = String::new();
        push_chars(&mut text, base[k].1.as_slice(), 0, base[k].1.len());
        let titles = strings_of(&base[k].0);
        let chunk = SemanticChunk { index: k, text, overlap_prefix: String::new(), title_path: titles };
        proof {
            assert(base@[k as int].1@.subrange(0, base@[k as int].1@.len() as int) =~= base@[k as int].1@);
            assert(Seq::<char>::empty() + base@[k as int].1@ =~= base@[k as int].1@);
            assert(Seq::new(titles@.len(), |j: int| titles@[j]@) =~= views(base@[k as int].0@));
            assert(chunk_view(chunk) == plain_chunk(bv, k as int));
        }
        out.push(chunk);
        k = k + 1;
    }
    proof {
        assert(chunk_views(out@) =~= Seq::new(bv.len(), |m: int| plain_chunk(bv, m)));
    }
    apply_overlap(&mut out, n);
    proof {
        let pl = Seq::new(bv.len(), |m: int| plain_chunk(bv, m));
        let sp = semantic_spec(content@, *config);
        assert(s@ == content@);
        assert(bv == base_of(content@, *config));
        let w = with_overlap(pl, n as nat);
        assert(chunk_views(out@) == w);
        assert(w.len() == pl.len());
        assert(out@.len() == chunk_views(out@).len());
        assert(sp.len() == bv.len());
        assert forall|i: int| 0 <= i < out@.len() implies chunk_view(#[trigger] out@[i]) == sp[i] by {
            assert(chunk_views(out@)[i] == chunk_view(out@[i]));
            if i >= 1 {
                lemma_tail_lines_zero(bv[i - 1].1);
            }
        }
    }
    out
}

/// A chunk before overlap: index `m`, the text and heading path of base
/// chunk `m`, no prefix.
pub open spec fn plain_chunk(bv: Seq<(Seq<Seq<char>>, Seq<char>)>, m: int) -> (nat, Seq<char>, Seq<char>, Seq<Seq<char>>) {
    (m as nat, bv[m].1, seq![], bv[m].0)
}

/// The plain values of chunks.
pub open spec fn chunk_views(cs: Seq<SemanticChunk>) -> Seq<(nat, Seq<char>, Seq<char>, Seq<Seq<char>>)> {
    Seq::new(cs.len(), |i: int| chunk_view(cs[i]))
}

/// Chunks with overlap: with at least two chunks, each chunk after the first
/// whose predecessor ends with non-blank lines gets the last `n` of them
/// (joined with `'\n'`) as its prefix, followed by a blank line and its own
/// text; the other chunks stay as they are.
pub open spec fn with_overlap(cs: Seq<(nat, Seq<char>, Seq<char>, Seq<Seq<char>>)>, n: nat) -> Seq<
    (nat, Seq<char>, Seq<char>, Seq<Seq<char>>),
> {
    if cs.len() < 2 {
        cs
    } else {
        Seq::new(
            cs.len(),
            |i: int|
                if i >= 1 && !is_blank(tail_lines(cs[i - 1].1, n)) {
                    let p = tail_lines(cs[i - 1].1, n);
                    (cs[i].0, p + seq!['\n', '\n'] + cs[i].1, p, cs[i].3)
                } else {
                    cs[i]
                },
        )
    }
}

/// No lines taken: the tail is empty.
proof fn lemma_tail_lines_zero(s: Seq<char>)
    ensures
        tail_lines(s, 0) == Seq::<char>::empty(),
{
    let ls = crate::paragraphs::nonblank_lines(s);
    assert(ls.skip(ls.len() as int) =~= Seq::<Seq<char>>::empty());
}

/// Copies of the strings of `v`.
fn copy_strings(v: &Vec<String>) -> (r: Vec<String>)
    ensures
        r@.len() == v@.len(),
        forall|j: int| 0 <= j < v@.len() ==> (#[trigger] r@[j])@ == v@[j]@,
{
    let mut r: Vec<String> = Vec::new();
    let mut j: usize = 0;
    while j < v.len()
        invariant
            j <= v@.len(),
            r@.len() == j,
            forall|k: int| 0 <= k < j ==> (#[trigger] r@[k])@ == v@[k]@,
        decreases v@.len() - j,
    {
        r.push(v[j].clone());
        j = j + 1;
    }
    r
}

/// Adds the overlap to `chunks`: with at least two chunks, each chunk after
/// the first whose predecessor (as it was before) ends with non-blank lines
/// starts with the last `overlap_sentences` of them and a blank line, and
/// records them as its prefix.
pub fn apply_overlap(chunks: &mut Vec<SemanticChunk>, overlap_sentences: usize)
    ensures
        chunk_views(final(chunks)@) == with_overlap(chunk_views(old(chunks)@), overlap_sentences as nat),
{
    let ghost ov = chunk_views(chunks@);
    if chunks.len() < 2 {
        return;
    }
    let n = overlap_sentences;
    let mut tails: Vec<Vec<char>> = Vec::new();
    let mut t: usize = 0;
    while t < chunks.len()
        invariant
            t <= chunks@.len(),
            ov == chunk_views(chunks@),
            tails@.len() == t,
            forall|j: int| 0 <= j < t ==> (#[trigger] tails@[j])@ == tail_lines(ov[j].1, n as nat),
        decreases chunks@.len() - t,
    {
        let c = chars_of(chunks[t].text.as_str());
        tails.push(tail_lines_exec(c.as_slice(), n));
        t = t + 1;
    }
    let ghost target = with_overlap(ov, n as nat);
    let mut i: usize = 1;
    while i < chunks.len()
        invariant
            1 <= i <= chunks@.len(),
            chunks@.len() == ov.len(),
            ov.len() >= 2,
            tails@.len() == ov.len(),
            target == with_overlap(ov, n as nat),
            forall|j: int| 0 <= j < tails@.len() ==> (#[trigger] tails@[j])@ == tail_lines(ov[j].1, n as nat),
            forall|j: int| 0 <= j < i ==> #[trigger] chunk_views(chunks@)[j] == target[j],
            forall|j: int| i <= j < chunks@.len() ==> #[trigger] chunk_views(chunks@)[j] == ov[j],
        decreases chunks@.len() - i,
    {
        let tl = &tails[i - 1];
        let blank = is_blank_range(tl.as_slice(), 0, tl.len());
        proof {
            assert(tl@.subrange(0, tl@.len() as int) =~= tl@);
            assert(chunk_views(chunks@)[i as int] == ov[i as int]);
        }
        let ghost before = chunks@;
        if !blank {
            let mut text = String::new();
            push_chars(&mut text, tl.as_slice(), 0, tl.len());
            crate::text::push_char(&mut text, '\n');
            crate::text::push_char(&mut text, '\n');
            crate::text::push_str(&mut text, chunks[i].text.as_str());
            let c = SemanticChunk {
                index: chunks[i].index,
                text,
                overlap_prefix: string_of(tl.as_slice()),
                title_path: copy_strings(&chunks[i].title_path),
            };
            proof {
                let p = tail_lines(ov[i - 1].1, n as nat);
                assert(Seq::<char>::empty() + tl@ + seq!['\n'] + seq!['\n'] + before[i as int].text@ =~= p + seq!['\n', '\n'] + ov[i as int].1) by {
                    assert(Seq::<char>::empty() + tl@ =~= tl@);
                }
                assert(tl@.subrange(0, tl@.len() as int) =~= tl@);
                assert(Seq::new(c.title_path@.len(), |j: int| c.title_path@[j]@) =~= ov[i as int].3);
                assert(chunk_view(c) == target[i as int]);
            }
            chunks.set(i, c);
            proof {
                assert forall|j: int| 0 <= j < chunks@.len() && j != i implies chunks@[j] == before[j] by {}
            }
        } else {
            proof {
                assert(target[i as int] == ov[i as int]);
            }
        }
        proof {
            assert forall|j: int| 0 <= j < i + 1 implies #[trigger] chunk_views(chunks@)[j] == target[j] by {
                if j < i {
                    assert(chunk_views(before)[j] == target[j]);
                }
            }
            assert forall|j: int| i + 1 <= j < chunks@.len() implies #[trigger] chunk_views(chunks@)[j] == ov[j] by {
                assert(chunk_views(before)[j] == ov[j]);
            }
        }
        i = i + 1;
    }
    proof {
        assert(chunk_views(chunks@) =~= target);
    }
}

// ---------------------------------------------------------------------------
// Chunking strategies
// ---------------------------------------------------------------------------

/// Chunking strategy, chosen by the `chunking.strategy` setting.
#[derive(Debug, Clone, Copy, PartialEq, Eq)]
pub enum ChunkingStrategy {
    /// Fixed size (`split_into_chunks`), using `target_bytes` only.
    Fixed,
    /// Semantic (the default): `split_semantic`.
    Semantic,
    /// Recursive splitting; currently the same as semantic splitting.
    Recursive,
    /// Adaptive splitting; currently the same as semantic splitting.
    Adaptive,
}

/// The setting name of a strategy.
pub open spec fn strategy_name(s: ChunkingStrategy) -> Seq<char> {
    match s {
        ChunkingStrategy::Fixed => seq!['f', 'i', 'x', 'e', 'd'],
        ChunkingStrategy::Semantic => seq!['s', 'e', 'm', 'a', 'n', 't', 'i', 'c'],
        ChunkingStrategy::Recursive => seq!['r', 'e', 'c', 'u', 'r', 's', 'i', 'v', 'e'],
        ChunkingStrategy::Adaptive => seq!['a', 'd', 'a', 'p', 't', 'i', 'v', 'e'],
    }
}

/// The strategy that a lowercased setting names; unknown names give `Semantic`.
pub open spec fn strategy_of(lower: Seq<char>) -> ChunkingStrategy {
    if lower == strategy_name(ChunkingStrategy::Fixed) {
        ChunkingStrategy::Fixed
    } else if lower == strategy_name(ChunkingStrategy::Semantic) {
        ChunkingStrategy::Semantic
    } else if lower == strategy_name(ChunkingStrategy::Recursive) {
        ChunkingStrategy::Recursive
    } else if lower == strategy_name(ChunkingStrategy::Adaptive) {
        ChunkingStrategy::Adaptive
    } else {
        ChunkingStrategy::Semantic
    }
}

impl ChunkingStrategy {
    /// The strategy that an already lowercased name selects.
    pub fn from_lowercase(lower: &[char]) -> (r: Self)
        ensures
            r == strategy_of(lower@),
    {
        let f = vec!['f', 'i', 'x', 'e', 'd'];
        let s = vec!['s', 'e', 'm', 'a', 'n', 't', 'i', 'c'];
        let rc = vec!['r', 'e', 'c', 'u', 'r', 's', 'i', 'v', 'e'];
        let a = vec!['a', 'd', 'a', 'p', 't', 'i', 'v', 'e'];
        proof {
            assert(f@ =~= strategy_name(ChunkingStrategy::Fixed));
            assert(s@ =~= strategy_name(ChunkingStrategy::Semantic));
            assert(rc@ =~= strategy_name(ChunkingStrategy::Recursive));
            assert(a@ =~= strategy_name(ChunkingStrategy::Adaptive));
            assert(lower@.subrange(0, lower@.len() as int) =~= lower@);
        }
        let n = lower.len();
        if range_eq(lower, 0, n, &f) {
            ChunkingStrategy::Fixed
        } else if range_eq(lower, 0, n, &s) {
            ChunkingStrategy::Semantic
        } else if range_eq(lower, 0, n, &rc) {
            ChunkingStrategy::Recursive
        } else if range_eq(lower, 0, n, &a) {
            ChunkingStrategy::Adaptive
        } else {
            ChunkingStrategy::Semantic
        }
    }

    /// The strategy a setting names, compared case-insensitively; unknown
    /// names give `Semantic`.
    pub fn from_str_or_default(s: &str) -> (r: Self)
        ensures
            r == strategy_of(lowercase(s@)),
            all_ascii(s@) ==> r == strategy_of(s@.map_values(|c: char| ascii_lower_char(c))),
    {
        let lower = lower_chars(s);
        Self::from_lowercase(lower.as_slice())
    }

    /// The setting name of the strategy.
    pub fn as_str(&self) -> (r: &'static str)
        ensures
            r@ == strategy_name(*self),
    {
        match self {
            ChunkingStrategy::Fixed => {
                proof {
                    reveal_strlit("fixed");
                }
                "fixed"
            },
            ChunkingStrategy::Semantic => {
                proof {
                    reveal_strlit("semantic");
                }
                "semantic"
            },
            ChunkingStrategy::Recursive => {
                proof {
                    reveal_strlit("recursive");
                }
                "recursive"
            },
            ChunkingStrategy::Adaptive => {
                proof {
                    reveal_strlit("adaptive");
                }
                "adaptive"
            },
        }
    }
}

impl Default for ChunkingStrategy {
    /// The default strategy: `Semantic`.
    fn default() -> (r: Self)
        ensures
            r == ChunkingStrategy::Semantic,
    {
        ChunkingStrategy::Semantic
    }
}

/// Fixed-size chunks as `SemanticChunk`s (no overlap, no heading path).
pub fn chunk_fixed(content: &str, chunk_size: usize) -> (r: Vec<SemanticChunk>)
    requires
        byte_len(content@) <= chunk_size || widths_fit(content@, chunk_size as nat),
    ensures
        r@.len() == split_chunks_spec(content@, chunk_size as nat).len(),
        forall|i: int|
            0 <= i < r@.len() ==> chunk_view(#[trigger] r@[i]) == (
                i as nat,
                split_chunks_spec(content@, chunk_size as nat)[i],
                Seq::<char>::empty(),
                Seq::<Seq<char>>::empty(),
            ),
{
    let pieces = split_into_chunks(content, chunk_size);
    let mut out: Vec<SemanticChunk> = Vec::new();
    let mut i: usize = 0;
    while i < pieces.len()
        invariant
            i <= pieces@.len(),
            out@.len() == i,
            pieces@.len() == split_chunks_spec(content@, chunk_size as nat).len(),
            forall|k: int|
                0 <= k < pieces@.len() ==> (#[trigger] pieces@[k]).0 == k && pieces@[k].1@
                    == split_chunks_spec(content@, chunk_size as nat)[k],
            forall|k: int|
                0 <= k < i ==> chunk_view(#[trigger] out@[k]) == (
                    k as nat,
                    split_chunks_spec(content@, chunk_size as nat)[k],
                    Seq::<char>::empty(),
                    Seq::<Seq<char>>::empty(),
                ),
        decreases pieces@.len() - i,
    {
        let text = pieces[i].1.clone();
        let c = SemanticChunk {
            index: pieces[i].0,
            text,
            overlap_prefix: String::new(),
            title_path: Vec::new(),
        };
        proof {
            assert(Seq::new(c.title_path@.len(), |j: int| c.title_path@[j]@) =~= Seq::<Seq<char>>::empty());
        }
        out.push(c);
        i = i + 1;
    }
    out
}

/// Recursive splitting: currently semantic splitting.
pub fn chunk_recursive(content: &str, config: &SemanticChunkConfig) -> (r: Vec<SemanticChunk>)
    ensures
        r@.len() == semantic_spec(content@, *config).len(),
        forall|i: int|
            0 <= i < r@.len() ==> chunk_view(#[trigger] r@[i]) == semantic_spec(content@, *config)[i],
{
    split_semantic(content, config)
}

/// Chunks `content` with the given strategy: `Fixed` splits by
/// `target_bytes`; the others split semantically.
pub fn chunk_by_strategy(content: &str, strategy: ChunkingStrategy, config: &SemanticChunkConfig) -> (r: Vec<SemanticChunk>)
    requires
        strategy == ChunkingStrategy::Fixed ==> byte_len(content@) <= config.target_bytes || widths_fit(content@, config.target_bytes as nat),
    ensures
        strategy == ChunkingStrategy::Fixed ==> r@.len() == split_chunks_spec(content@, config.target_bytes as nat).len()
            && forall|i: int|
            0 <= i < r@.len() ==> chunk_view(#[trigger] r@[i]) == (
                i as nat,
                split_chunks_spec(content@, config.target_bytes as nat)[i],
                Seq::<char>::empty(),
                Seq::<Seq<char>>::empty(),
            ),
        strategy != ChunkingStrategy::Fixed ==> r@.len() == semantic_spec(content@, *config).len()
            && forall|i: int|
            0 <= i < r@.len() ==> chunk_view(#[trigger] r@[i]) == semantic_spec(content@, *config)[i],
{
    match strategy {
        ChunkingStrategy::Fixed => chunk_fixed(content, config.target_bytes),
        ChunkingStrategy::Semantic => split_semantic(content, config),
        ChunkingStrategy::Recursive => chunk_recursive(content, config),
        ChunkingStrategy::Adaptive => split_semantic(content, config),
    }
}

// ---------------------------------------------------------------------------
// Laws of semantic splitting and strategies
// ---------------------------------------------------------------------------

/// Without overlap no chunk gets a prefix, and each chunk text is the text of
/// its piece unchanged.
pub proof fn lemma_no_overlap_no_prefix(s: Seq<char>, cfg: SemanticChunkConfig)
    requires
        cfg.overlap_sentences == 0,
    ensures
        forall|i: int|
            0 <= i < semantic_spec(s, cfg).len() ==> (#[trigger] semantic_spec(s, cfg)[i]).2.len() == 0
                && semantic_spec(s, cfg)[i].1 == base_of(s, cfg)[i].1,
{
}

proof fn lemma_base_chunks_fit(secs: Seq<(Seq<Seq<char>>, Seq<char>)>, max: nat, target: nat, pc: bool, pt: bool)
    requires
        target <= max,
    ensures
        forall|i: int| 0 <= i < base_chunks(secs, max, target, pc, pt).len()
            ==> fits_or_one_line((#[trigger] base_chunks(secs, max, target, pc, pt)[i]).1, max),
    decreases secs.len(),
{
    if secs.len() > 0 {
        lemma_base_chunks_fit(secs.drop_last(), max, target, pc, pt);
        let rest = base_chunks(secs.drop_last(), max, target, pc, pt);
        let (path, text) = secs.last();
        if !is_blank(text) && byte_len(text) > max {
            let subs = section_split_spec(text, max, target, pc, pt);
            lemma_section_split_fits(text, max, target, pc, pt);
            let added = Seq::new(subs.len(), |j: int| (path, subs[j]));
            let all = rest + added;
            assert forall|i: int| 0 <= i < all.len() implies fits_or_one_line((#[trigger] all[i]).1, max) by {
                if i < rest.len() {
                    assert(all[i] == rest[i]);
                } else {
                    assert(all[i] == added[i - rest.len()]);
                }
            }
        }
    }
}

/// Every chunk of semantic splitting is its overlap part (empty when none)
/// followed by a body that fits in `max_bytes`, unless that body holds a
/// single line (after blank characters) that alone is longer. This holds
/// whenever `target_bytes <= max_bytes`.
pub proof fn lemma_semantic_chunks_fit(s: Seq<char>, cfg: SemanticChunkConfig)
    requires
        cfg.target_bytes <= cfg.max_bytes,
    ensures
        forall|i: int|
            0 <= i < semantic_spec(s, cfg).len() ==> {
                let c = #[trigger] semantic_spec(s, cfg)[i];
                let body = base_of(s, cfg)[i].1;
                &&& fits_or_one_line(body, cfg.max_bytes as nat)
                &&& c.1 == (if c.2.len() > 0 { c.2 + seq!['\n', '\n'] } else { Seq::<char>::empty() }) + body
            },
{
    lemma_base_chunks_fit(
        sections_spec(s, cfg.preserve_code_blocks, cfg.preserve_tables),
        cfg.max_bytes as nat,
        cfg.target_bytes as nat,
        cfg.preserve_code_blocks,
        cfg.preserve_tables,
    );
    assert forall|i: int| 0 <= i < semantic_spec(s, cfg).len() implies {
        let c = #[trigger] semantic_spec(s, cfg)[i];
        let body = base_of(s, cfg)[i].1;
        &&& fits_or_one_line(body, cfg.max_bytes as nat)
        &&& c.1 == (if c.2.len() > 0 { c.2 + seq!['\n', '\n'] } else { Seq::<char>::empty() }) + body
    } by {
        let body = base_of(s, cfg)[i].1;
        assert(Seq::<char>::empty() + body =~= body);
    }
}

/// The name of every strategy reads back as the same strategy: it is ASCII,
/// lowercase, and selects that strategy.
pub proof fn lemma_strategy_name_roundtrip(x: ChunkingStrategy)
    ensures
        all_ascii(strategy_name(x)),
        strategy_name(x).map_values(|c: char| ascii_lower_char(c)) == strategy_name(x),
        strategy_of(strategy_name(x).map_values(|c: char| ascii_lower_char(c))) == x,
{
    let n = strategy_name(x);
    assert(n.map_values(|c: char| ascii_lower_char(c)) =~= n);
}

// ---------------------------------------------------------------------------
// Laws of fixed-size splitting
// ---------------------------------------------------------------------------

pub proof fn lemma_fit_scan_fits(s: Seq<char>, start: int, i: int, size: nat)
    requires
        0 <= start <= i <= s.len(),
        byte_len(s.subrange(start, i)) <= size,
    ensures
        byte_len(s.subrange(start, fit_scan(s, start, i, size))) <= size,
    decreases s.len() - i,
{
    if start <= i < s.len() && byte_len(s.subrange(start, i + 1)) <= size {
        lemma_fit_scan_fits(s, start, i + 1, size);
    }
}

pub proof fn lemma_last_nl_range(s: Seq<char>, a: int, k: int)
    ensures
        last_nl(s, a, k) matches Some(p) ==> a <= p < k && s[p] == '\n',
    decreases k - a,
{
    if a < k && s[k - 1] != '\n' {
        lemma_last_nl_range(s, a, k - 1);
    }
}

/// The piece that starts at `start` is non-empty and fits in `size` bytes.
pub proof fn lemma_cut_end(s: Seq<char>, start: int, size: nat)
    requires
        0 <= start < s.len(),
        widths_fit(s, size),
    ensures
        start < cut_end(s, start, size) <= s.len(),
        byte_len(s.subrange(start, cut_end(s, start, size))) <= size,
{
    lemma_byte_len_subrange_step(s, start, start);
    assert(s.subrange(start, start) =~= Seq::<char>::empty());
    lemma_fit_scan_ge(s, start, start + 1, size);
    lemma_fit_scan_fits(s, start, start + 1, size);
    let k = fit_scan(s, start, start, size);
    lemma_last_nl_range(s, start, k);
    if k < s.len() {
        if let Some(p) = last_nl(s, start, k) {
            lemma_byte_len_mono(s, start, p + 1, k);
        }
    }
}

/// Fixed-size pieces cover the text: joined in order they give back
/// `s[start..]` exactly.
pub proof fn lemma_fixed_pieces_cover(s: Seq<char>, start: int, size: nat)
    requires
        0 <= start <= s.len(),
        widths_fit(s, size),
    ensures
        fixed_pieces(s, start, size).flatten() == s.skip(start),
    decreases s.len() - start,
{
    if start < s.len() {
        lemma_cut_end(s, start, size);
        let e = cut_end(s, start, size);
        lemma_fixed_pieces_cover(s, e, size);
        let ps = fixed_pieces(s, start, size);
        assert(ps.drop_first() =~= fixed_pieces(s, e, size));
        assert(s.subrange(start, e) + s.skip(e) =~= s.skip(start));
    } else {
        assert(s.skip(start) =~= Seq::<char>::empty());
    }
}

/// Every fixed-size piece fits in `size` bytes and is non-empty.
pub proof fn lemma_fixed_pieces_fit(s: Seq<char>, start: int, size: nat)
    requires
        0 <= start <= s.len(),
        widths_fit(s, size),
    ensures
        forall|i: int|
            0 <= i < fixed_pieces(s, start, size).len() ==> byte_len(
                #[trigger] fixed_pieces(s, start, size)[i],
            ) <= size && fixed_pieces(s, start, size)[i].len() > 0,
    decreases s.len() - start,
{
    if start < s.len() {
        lemma_cut_end(s, start, size);
        let e = cut_end(s, start, size);
        lemma_fixed_pieces_fit(s, e, size);
        let ps = fixed_pieces(s, start, size);
        assert forall|i: int| 0 <= i < ps.len() implies byte_len(#[trigger] ps[i]) <= size
            && ps[i].len() > 0 by {
            if i > 0 {
                assert(ps[i] == fixed_pieces(s, e, size)[i - 1]);
            }
        }
    }
}

/// The chunks are exactly the pieces that are not all whitespace, in order.
pub proof fn lemma_fixed_chunks_are_nonblank_pieces(s: Seq<char>, start: int, size: nat)
    requires
        0 <= start <= s.len(),
        widths_fit(s, size),
    ensures
        fixed_chunks(s, start, size) == fixed_pieces(s, start, size).filter(
            |p: Seq<char>| !is_blank(p),
        ),
    decreases s.len() - start,
{
    let pred = |p: Seq<char>| !is_blank(p);
    reveal(Seq::filter);
    if start < s.len() {
        lemma_cut_end(s, start, size);
        let e = cut_end(s, start, size);
        lemma_fixed_chunks_are_nonblank_pieces(s, e, size);
        let head = seq![s.subrange(start, e)];
        Seq::filter_distributes_over_add(head, fixed_pieces(s, e, size), pred);
        assert(head.filter(pred) == (if is_blank(s.subrange(start, e)) {
            Seq::<Seq<char>>::empty()
        } else {
            head
        })) by {
            reveal_with_fuel(Seq::filter, 2);
            assert(head.drop_last() =~= Seq::<Seq<char>>::empty());
            assert(Seq::<Seq<char>>::empty().push(s.subrange(start, e)) =~= head);
        }
        if is_blank(s.subrange(start, e)) {
            assert(Seq::<Seq<char>>::empty() + fixed_pieces(s, e, size).filter(pred)
                =~= fixed_pieces(s, e, size).filter(pred));
        }
    } else {
        assert(fixed_pieces(s, start, size) =~= Seq::<Seq<char>>::empty());
    }
}

} // verus!
