//! Splitting oversized sections: into paragraphs at blank lines, packed up to
//! a byte limit, with a line-by-line fallback; and the overlap between chunks.

use vstd::prelude::*;
use crate::sections::{fence, is_table_line, table_line};
use crate::text::{
    append_line, append_range, byte_len, char_len_utf8, copy_range, first_nl, is_blank, is_blank_range,
    lemma_byte_len_ascii1, lemma_byte_len_concat, lemma_byte_len_le_4len, lemma_byte_len_subrange_step, line_ranges, lines,
    starts_with, starts_with_at, strip_cr, trim, trim_range, views,
};

verus! {

/// Byte length of `v`, as a wide integer that cannot overflow.
pub fn blen(v: &[char]) -> (n: u128)
    ensures
        n == byte_len(v@),
{
    let len = v.len();
    let mut n: u128 = 0;
    let mut i: usize = 0;
    while i < len
        invariant
            i <= len == v@.len(),
            n == byte_len(v@.subrange(0, i as int)),
            n <= 4 * i,
        decreases len - i,
    {
        proof {
            lemma_byte_len_subrange_step(v@, 0, i as int);
        }
        n = n + char_len_utf8(v[i]) as u128;
        i = i + 1;
    }
    proof {
        assert(v@.subrange(0, len as int) =~= v@);
    }
    n
}

// ---------------------------------------------------------------------------
// Paragraphs
// ---------------------------------------------------------------------------

pub struct ParaState {
    pub paras: Seq<Seq<char>>,
    pub current: Seq<char>,
    pub in_code: bool,
    pub in_table: bool,
    pub prev_empty: bool,
}

pub open spec fn para_init() -> ParaState {
    ParaState { paras: seq![], current: seq![], in_code: false, in_table: false, prev_empty: false }
}

/// The paragraph splitter's step on one line: a blank line outside code
/// fences and tables closes the current paragraph (keeping one `'\n'`).
pub open spec fn para_step(st: ParaState, line: Seq<char>, pc: bool, pt: bool) -> ParaState {
    let t = trim(line);
    let in_code = if pc && starts_with(t, fence()) {
        !st.in_code
    } else {
        st.in_code
    };
    let in_table = if pt && !in_code {
        table_line(t)
    } else {
        st.in_table
    };
    if !in_code && !in_table && t.len() == 0 {
        if !st.prev_empty && !is_blank(st.current) {
            ParaState {
                paras: st.paras.push(st.current.push('\n')),
                current: seq![],
                in_code,
                in_table,
                prev_empty: true,
            }
        } else {
            ParaState { in_code, in_table, prev_empty: true, ..st }
        }
    } else {
        ParaState {
            current: st.current + line.push('\n'),
            in_code,
            in_table,
            prev_empty: false,
            ..st
        }
    }
}

pub open spec fn para_run(ls: Seq<Seq<char>>, pc: bool, pt: bool) -> ParaState
    decreases ls.len(),
{
    if ls.len() == 0 {
        para_init()
    } else {
        para_step(para_run(ls.drop_last(), pc, pt), ls.last(), pc, pt)
    }
}

/// The paragraphs of `s`.
pub open spec fn paragraphs_spec(s: Seq<char>, pc: bool, pt: bool) -> Seq<Seq<char>> {
    let st = para_run(lines(s), pc, pt);
    if !is_blank(st.current) {
        st.paras.push(st.current)
    } else {
        st.paras
    }
}

struct ParaScanner {
    paras: Vec<Vec<char>>,
    current: Vec<char>,
    in_code: bool,
    in_table: bool,
    prev_empty: bool,
}

impl ParaScanner {
    spec fn view_state(&self) -> ParaState {
        ParaState {
            paras: views(self.paras@),
            current: self.current@,
            in_code: self.in_code,
            in_table: self.in_table,
            prev_empty: self.prev_empty,
        }
    }

    fn step(&mut self, s: &[char], a: usize, b: usize, pc: bool, pt: bool)
        requires
            a <= b <= s@.len(),
        ensures
            final(self).view_state() == para_step(
                old(self).view_state(),
                s@.subrange(a as int, b as int),
                pc,
                pt,
            ),
    {
        let ghost st = self.view_state();
        let ghost line = s@.subrange(a as int, b as int);
        let (ta, tb) = trim_range(s, a, b);
        let fence_chars = vec!['`', '`', '`'];
        proof {
            assert(fence_chars@ =~= fence());
        }
        if pc && starts_with_at(s, ta, tb, &fence_chars) {
            self.in_code = !self.in_code;
        }
        if pt && !self.in_code {
            self.in_table = is_table_line(s, ta, tb);
        }
        if !self.in_code && !self.in_table && ta == tb {
            let blank = is_blank_range(self.current.as_slice(), 0, self.current.len());
            proof {
                assert(self.current@.subrange(0, self.current@.len() as int) =~= self.current@);
            }
            if !self.prev_empty && !blank {
                let mut cur: Vec<char> = Vec::new();
                std::mem::swap(&mut cur, &mut self.current);
                cur.push('\n');
                let ghost before = views(self.paras@);
                self.paras.push(cur);
                proof {
                    assert(views(self.paras@) =~= before.push(st.current.push('\n')));
                }
            }
            self.prev_empty = true;
            proof {
                assert(self.view_state() =~= para_step(st, line, pc, pt));
            }
            return;
        }
        self.prev_empty = false;
        append_line(&mut self.current, s, a, b);
        proof {
            assert(self.view_state() =~= para_step(st, line, pc, pt));
        }
    }
}

/// Splits `s` into paragraphs at blank lines, not inside code fences (with
/// `pc`) nor tables (with `pt`).
pub fn split_paragraphs(s: &[char], pc: bool, pt: bool) -> (r: Vec<Vec<char>>)
    ensures
        views(r@) == paragraphs_spec(s@, pc, pt),
{
    let ranges = line_ranges(s);
    let mut sc = ParaScanner {
        paras: Vec::new(),
        current: Vec::new(),
        in_code: false,
        in_table: false,
        prev_empty: false,
    };
    proof {
        assert(views(sc.paras@) =~= Seq::<Seq<char>>::empty());
        assert(sc.view_state() =~= para_init());
    }
    let mut i: usize = 0;
    while i < ranges.len()
        invariant
            i <= ranges@.len(),
            ranges@.len() == lines(s@).len(),
            forall|k: int|
                0 <= k < ranges@.len() ==> {
                    &&& (#[trigger] ranges@[k]).0 <= ranges@[k].1 <= s@.len()
                    &&& s@.subrange(ranges@[k].0 as int, ranges@[k].1 as int) == lines(s@)[k]
                },
            sc.view_state() == para_run(lines(s@).take(i as int), pc, pt),
        decreases ranges@.len() - i,
    {
        let (a, b) = ranges[i];
        sc.step(s, a, b, pc, pt);
        proof {
            assert(lines(s@).take(i + 1).drop_last() =~= lines(s@).take(i as int));
        }
        i = i + 1;
    }
    proof {
        assert(lines(s@).take(i as int) =~= lines(s@));
    }
    let blank = is_blank_range(sc.current.as_slice(), 0, sc.current.len());
    proof {
        assert(sc.current@.subrange(0, sc.current@.len() as int) =~= sc.current@);
    }
    let mut out = sc.paras;
    if !blank {
        let ghost before = views(out@);
        out.push(sc.current);
        proof {
            assert(views(out@) =~= before.push(sc.current@));
        }
    }
    out
}

// ---------------------------------------------------------------------------
// Packing paragraphs, and the line-by-line fallback
// ---------------------------------------------------------------------------

/// Packing state: finished chunks and the chunk being filled.
pub open spec fn pack_run(ps: Seq<Seq<char>>, max: nat) -> (Seq<Seq<char>>, Seq<char>)
    decreases ps.len(),
{
    if ps.len() == 0 {
        (seq![], seq![])
    } else {
        let (done, cur) = pack_run(ps.drop_last(), max);
        let p = ps.last();
        if byte_len(cur) + byte_len(p) > max && !is_blank(cur) {
            (done.push(cur), p)
        } else {
            (done, cur + p)
        }
    }
}

/// Paragraphs packed greedily into chunks of at most `max` bytes (a chunk
/// is closed before the paragraph that would make it exceed `max`).
pub open spec fn packed_spec(ps: Seq<Seq<char>>, max: nat) -> Seq<Seq<char>> {
    let (done, cur) = pack_run(ps, max);
    if !is_blank(cur) {
        done.push(cur)
    } else {
        done
    }
}

/// Line-by-line state of the fallback split.
pub open spec fn force_run(ls: Seq<Seq<char>>, target: nat) -> (Seq<Seq<char>>, Seq<char>)
    decreases ls.len(),
{
    if ls.len() == 0 {
        (seq![], seq![])
    } else {
        let (done, cur) = force_run(ls.drop_last(), target);
        let l = ls.last();
        if byte_len(cur) + byte_len(l) + 1 > target && !is_blank(cur) {
            (done.push(cur), l.push('\n'))
        } else {
            (done, cur + l.push('\n'))
        }
    }
}

/// The line-by-line fallback split of `s` into chunks near `target` bytes.
pub open spec fn force_split_spec(s: Seq<char>, target: nat) -> Seq<Seq<char>> {
    let (done, cur) = force_run(lines(s), target);
    if !is_blank(cur) {
        done.push(cur)
    } else {
        done
    }
}

/// Chunks within `max` kept; larger ones split line by line near `target`.
pub open spec fn expand_spec(cs: Seq<Seq<char>>, max: nat, target: nat) -> Seq<Seq<char>>
    decreases cs.len(),
{
    if cs.len() == 0 {
        seq![]
    } else {
        let c = cs.last();
        expand_spec(cs.drop_last(), max, target) + if byte_len(c) <= max {
            seq![c]
        } else {
            force_split_spec(c, target)
        }
    }
}

/// The sub-chunks of an oversized section.
pub open spec fn section_split_spec(s: Seq<char>, max: nat, target: nat, pc: bool, pt: bool) -> Seq<
    Seq<char>,
> {
    expand_spec(packed_spec(paragraphs_spec(s, pc, pt), max), max, target)
}

fn push_nonblank(out: &mut Vec<Vec<char>>, cur: Vec<char>)
    ensures
        views(final(out)@) == if is_blank(cur@) {
            views(old(out)@)
        } else {
            views(old(out)@).push(cur@)
        },
{
    let blank = is_blank_range(cur.as_slice(), 0, cur.len());
    proof {
        assert(cur@.subrange(0, cur@.len() as int) =~= cur@);
    }
    if !blank {
        let ghost before = views(out@);
        out.push(cur);
        proof {
            assert(views(out@) =~= before.push(cur@));
        }
    }
}

/// Packs paragraphs into chunks of at most `max` bytes where possible.
pub fn pack_paragraphs(ps: &Vec<Vec<char>>, max: usize) -> (r: Vec<Vec<char>>)
    ensures
        views(r@) == packed_spec(views(ps@), max as nat),
{
    let mut done: Vec<Vec<char>> = Vec::new();
    let mut cur: Vec<char> = Vec::new();
    let mut cur_len: u128 = 0;
    let mut i: usize = 0;
    proof {
        assert(views(ps@).take(0) =~= Seq::<Seq<char>>::empty());
        assert(views(done@) =~= Seq::<Seq<char>>::empty());
    }
    while i < ps.len()
        invariant
            i <= ps@.len(),
            (views(done@), cur@) == pack_run(views(ps@).take(i as int), max as nat),
            cur_len == byte_len(cur@),
        decreases ps@.len() - i,
    {
        let p = &ps[i];
        let p_len = blen(p.as_slice());
        let blank = is_blank_range(cur.as_slice(), 0, cur.len());
        let ghost old_cur = cur@;
        proof {
            assert(cur@.subrange(0, cur@.len() as int) =~= cur@);
            assert(views(ps@).take(i + 1).drop_last() =~= views(ps@).take(i as int));
            assert(views(ps@).take(i + 1).last() == p@);
            lemma_byte_len_le_4len(cur@);
            lemma_byte_len_le_4len(p@);
        }
        let _cl = cur.len();
        let _pl = p.len();
        if cur_len + p_len > max as u128 && !blank {
            let ghost before = views(done@);
            let mut fresh = copy_range(p.as_slice(), 0, p.len());
            std::mem::swap(&mut fresh, &mut cur);
            done.push(fresh);
            cur_len = p_len;
            proof {
                assert(p@.subrange(0, p@.len() as int) =~= p@);
                assert(views(done@) =~= before.push(old_cur));
            }
        } else {
            append_range(&mut cur, p.as_slice(), 0, p.len());
            proof {
                assert(p@.subrange(0, p@.len() as int) =~= p@);
                lemma_byte_len_concat(old_cur, p@);
            }
            cur_len = cur_len + p_len;
        }
        i = i + 1;
    }
    proof {
        assert(views(ps@).take(i as int) =~= views(ps@));
    }
    push_nonblank(&mut done, cur);
    done
}


/// Splits `s` line by line, closing a chunk before the line that would take
/// it over `target` bytes (counting the line's `'\n'`).
pub fn force_split_lines(s: &[char], target: usize) -> (r: Vec<Vec<char>>)
    ensures
        views(r@) == force_split_spec(s@, target as nat),
{
    let ranges = line_ranges(s);
    let mut done: Vec<Vec<char>> = Vec::new();
    let mut cur: Vec<char> = Vec::new();
    let mut cur_len: u128 = 0;
    let mut i: usize = 0;
    proof {
        assert(views(done@) =~= Seq::<Seq<char>>::empty());
    }
    while i < ranges.len()
        invariant
            i <= ranges@.len(),
            ranges@.len() == lines(s@).len(),
            forall|k: int|
                0 <= k < ranges@.len() ==> {
                    &&& (#[trigger] ranges@[k]).0 <= ranges@[k].1 <= s@.len()
                    &&& s@.subrange(ranges@[k].0 as int, ranges@[k].1 as int) == lines(s@)[k]
                },
            (views(done@), cur@) == force_run(lines(s@).take(i as int), target as nat),
            cur_len == byte_len(cur@),
        decreases ranges@.len() - i,
    {
        let (a, b) = ranges[i];
        let line = copy_range(s, a, b);
        let l_len = blen(line.as_slice());
        let blank = is_blank_range(cur.as_slice(), 0, cur.len());
        let ghost old_cur = cur@;
        proof {
            assert(cur@.subrange(0, cur@.len() as int) =~= cur@);
            assert(lines(s@).take(i + 1).drop_last() =~= lines(s@).take(i as int));
            assert(lines(s@).take(i + 1).last() == line@);
            lemma_byte_len_le_4len(cur@);
            lemma_byte_len_le_4len(line@);
        }
        let _cl = cur.len();
        let _ll = line.len();
        if cur_len + l_len + 1 > target as u128 && !blank {
            let ghost before = views(done@);
            let mut fresh: Vec<char> = Vec::new();
            append_line(&mut fresh, line.as_slice(), 0, line.len());
            std::mem::swap(&mut fresh, &mut cur);
            done.push(fresh);
            proof {
                assert(line@.subrange(0, line@.len() as int) =~= line@);
                assert(Seq::<char>::empty() + line@.push('\n') =~= line@.push('\n'));
                assert(views(done@) =~= before.push(old_cur));
                lemma_byte_len_concat(line@, seq!['\n']);
                assert(line@ + seq!['\n'] =~= line@.push('\n'));
                lemma_byte_len_ascii1('\n');
            }
            cur_len = l_len + 1;
        } else {
            append_line(&mut cur, line.as_slice(), 0, line.len());
            proof {
                assert(line@.subrange(0, line@.len() as int) =~= line@);
                lemma_byte_len_concat(old_cur, line@.push('\n'));
                lemma_byte_len_concat(line@, seq!['\n']);
                assert(line@ + seq!['\n'] =~= line@.push('\n'));
                lemma_byte_len_ascii1('\n');
            }
            cur_len = cur_len + l_len + 1;
        }
        i = i + 1;
    }
    proof {
        assert(lines(s@).take(i as int) =~= lines(s@));
    }
    push_nonblank(&mut done, cur);
    done
}

/// Splits an oversized section: paragraphs packed up to `max` bytes, and any
/// chunk still over `max` split line by line near `target`.
pub fn split_section_by_paragraphs(s: &[char], max: usize, target: usize, pc: bool, pt: bool) -> (r: Vec<Vec<char>>)
    ensures
        views(r@) == section_split_spec(s@, max as nat, target as nat, pc, pt),
{
    let paras = split_paragraphs(s, pc, pt);
    let packed = pack_paragraphs(&paras, max);
    let mut out: Vec<Vec<char>> = Vec::new();
    let mut i: usize = 0;
    proof {
        assert(views(out@) =~= expand_spec(views(packed@).take(0), max as nat, target as nat));
    }
    while i < packed.len()
        invariant
            i <= packed@.len(),
            views(out@) == expand_spec(views(packed@).take(i as int), max as nat, target as nat),
        decreases packed@.len() - i,
    {
        let c = &packed[i];
        let c_len = blen(c.as_slice());
        let ghost before = views(out@);
        proof {
            assert(views(packed@).take(i + 1).drop_last() =~= views(packed@).take(i as int));
            assert(views(packed@).take(i + 1).last() == c@);
        }
        if c_len <= max as u128 {
            let cc = copy_range(c.as_slice(), 0, c.len());
            out.push(cc);
            proof {
                assert(c@.subrange(0, c@.len() as int) =~= c@);
                assert(views(out@) =~= before + seq![c@]);
            }
        } else {
            let pieces = force_split_lines(c.as_slice(), target);
            let mut j: usize = 0;
            while j < pieces.len()
                invariant
                    j <= pieces@.len(),
                    views(out@) == before + views(pieces@).take(j as int),
                decreases pieces@.len() - j,
            {
                let pc2 = copy_range(pieces[j].as_slice(), 0, pieces[j].len());
                let ghost mid = views(out@);
                out.push(pc2);
                proof {
                    assert(pieces@[j as int]@.subrange(0, pieces@[j as int]@.len() as int)
                        =~= pieces@[j as int]@);
                    assert(views(out@) =~= mid.push(pieces@[j as int]@));
                    assert(views(pieces@).take(j + 1) =~= views(pieces@).take(j as int).push(
                        pieces@[j as int]@,
                    ));
                }
                j = j + 1;
            }
            proof {
                assert(views(pieces@).take(j as int) =~= views(pieces@));
            }
        }
        i = i + 1;
    }
    proof {
        assert(views(packed@).take(i as int) =~= views(packed@));
    }
    out
}

// ---------------------------------------------------------------------------
// Overlap
// ---------------------------------------------------------------------------

/// Lines joined with `'\n'` between them.
pub open spec fn join_nl(ls: Seq<Seq<char>>) -> Seq<char>
    decreases ls.len(),
{
    if ls.len() == 0 {
        seq![]
    } else if ls.len() == 1 {
        ls[0]
    } else {
        join_nl(ls.drop_last()) + seq!['\n'] + ls.last()
    }
}

/// The lines of `ls` that are not all whitespace.
pub open spec fn keep_nonblank(ls: Seq<Seq<char>>) -> Seq<Seq<char>>
    decreases ls.len(),
{
    if ls.len() == 0 {
        seq![]
    } else if is_blank(ls.last()) {
        keep_nonblank(ls.drop_last())
    } else {
        keep_nonblank(ls.drop_last()).push(ls.last())
    }
}

/// The non-blank lines of `s`.
pub open spec fn nonblank_lines(s: Seq<char>) -> Seq<Seq<char>> {
    keep_nonblank(lines(s))
}

/// The last `n` non-blank lines of `s`, joined with `'\n'`.
pub open spec fn tail_lines(s: Seq<char>, n: nat) -> Seq<char> {
    let ls = nonblank_lines(s);
    let start = if ls.len() >= n {
        ls.len() - n
    } else {
        0
    };
    join_nl(ls.skip(start))
}

/// Appends `ls[k]` for `k` in `lo..hi`, joined with `'\n'`, to an empty vector.
pub fn join_lines(ls: &Vec<Vec<char>>, lo: usize) -> (r: Vec<char>)
    requires
        lo <= ls@.len(),
    ensures
        r@ == join_nl(views(ls@).skip(lo as int)),
{
    let mut r: Vec<char> = Vec::new();
    let mut k = lo;
    proof {
        assert(views(ls@).skip(lo as int).take(0) =~= Seq::<Seq<char>>::empty());
    }
    while k < ls.len()
        invariant
            lo <= k <= ls@.len(),
            r@ == join_nl(views(ls@).skip(lo as int).take(k - lo)),
        decreases ls@.len() - k,
    {
        let ghost before = r@;
        let ghost part = views(ls@).skip(lo as int).take(k + 1 - lo);
        proof {
            assert(part.drop_last() =~= views(ls@).skip(lo as int).take(k - lo));
            assert(part.last() == ls@[k as int]@);
        }
        if k > lo {
            r.push('\n');
        }
        append_range(&mut r, ls[k].as_slice(), 0, ls[k].len());
        proof {
            assert(ls@[k as int]@.subrange(0, ls@[k as int]@.len() as int) =~= ls@[k as int]@);
            if k > lo {
                assert(r@ =~= before + seq!['\n'] + part.last());
            } else {
                assert(r@ =~= part[0]);
            }
        }
        k = k + 1;
    }
    proof {
        assert(views(ls@).skip(lo as int).take(k - lo) =~= views(ls@).skip(lo as int));
    }
    r
}

/// The last `n` non-blank lines of `s`, joined with `'\n'`.
pub fn tail_lines_exec(s: &[char], n: usize) -> (r: Vec<char>)
    ensures
        r@ == tail_lines(s@, n as nat),
{
    let ranges = line_ranges(s);
    let mut kept: Vec<Vec<char>> = Vec::new();
    let mut i: usize = 0;
    proof {
        assert(views(kept@) =~= keep_nonblank(lines(s@).take(0)));
    }
    while i < ranges.len()
        invariant
            i <= ranges@.len(),
            ranges@.len() == lines(s@).len(),
            forall|k: int|
                0 <= k < ranges@.len() ==> {
                    &&& (#[trigger] ranges@[k]).0 <= ranges@[k].1 <= s@.len()
                    &&& s@.subrange(ranges@[k].0 as int, ranges@[k].1 as int) == lines(s@)[k]
                },
            views(kept@) == keep_nonblank(lines(s@).take(i as int)),
        decreases ranges@.len() - i,
    {
        let (a, b) = ranges[i];
        let blank = is_blank_range(s, a, b);
        let ghost before = views(kept@);
        proof {
            assert(lines(s@).take(i + 1).drop_last() =~= lines(s@).take(i as int));
        }
        if !blank {
            let l = copy_range(s, a, b);
            kept.push(l);
            proof {
                assert(views(kept@) =~= before.push(lines(s@)[i as int]));
            }
        }
        i = i + 1;
    }
    proof {
        assert(lines(s@).take(i as int) =~= lines(s@));
    }
    let start = if kept.len() >= n {
        kept.len() - n
    } else {
        0
    };
    join_lines(&kept, start)
}


// ---------------------------------------------------------------------------
// Sizes of the pieces
// ---------------------------------------------------------------------------

/// `c` is blank characters, then one line holding no `'\n'`, then its `'\n'`.
pub open spec fn one_line(c: Seq<char>) -> bool {
    exists|b: Seq<char>, l: Seq<char>| is_blank(b) && !l.contains('\n') && c == b + l.push('\n')
}

/// A piece fits in `limit` bytes, or holds a single line longer than that.
pub open spec fn fits_or_one_line(c: Seq<char>, limit: nat) -> bool {
    byte_len(c) <= limit || one_line(c)
}

proof fn lemma_first_nl_clear(s: Seq<char>)
    ensures
        first_nl(s) <= s.len(),
        forall|i: int| 0 <= i < first_nl(s) ==> s[i] != '\n',
    decreases s.len(),
{
    if s.len() > 0 && s[0] != '\n' {
        lemma_first_nl_clear(s.drop_first());
        assert forall|i: int| 0 <= i < first_nl(s) implies s[i] != '\n' by {
            if i > 0 {
                assert(s[i] == s.drop_first()[i - 1]);
            }
        }
    }
}

/// No line of `s` holds a `'\n'`.
pub proof fn lemma_lines_clear(s: Seq<char>)
    ensures
        forall|j: int| 0 <= j < lines(s).len() ==> !(#[trigger] lines(s)[j]).contains('\n'),
    decreases s.len(),
{
    if s.len() > 0 {
        let k = first_nl(s);
        lemma_first_nl_clear(s);
        if k < s.len() {
            let head = strip_cr(s.take(k as int));
            assert(!head.contains('\n')) by {
                assert forall|i: int| 0 <= i < head.len() implies head[i] != '\n' by {
                    assert(head[i] == s[i]);
                }
            }
            lemma_lines_clear(s.skip(k + 1 as int));
            let rest = lines(s.skip(k + 1 as int));
            assert forall|j: int| 0 <= j < lines(s).len() implies !(#[trigger] lines(s)[j]).contains('\n') by {
                if j > 0 {
                    assert(lines(s)[j] == rest[j - 1]);
                }
            }
        }
    }
}

proof fn lemma_byte_len_line(l: Seq<char>)
    ensures
        byte_len(l.push('\n')) == byte_len(l) + 1,
{
    assert(l.push('\n').drop_last() =~= l);
}

proof fn lemma_force_run_fits(ls: Seq<Seq<char>>, target: nat)
    requires
        forall|j: int| 0 <= j < ls.len() ==> !(#[trigger] ls[j]).contains('\n'),
    ensures
        forall|i: int| 0 <= i < force_run(ls, target).0.len()
            ==> fits_or_one_line(#[trigger] force_run(ls, target).0[i], target),
        fits_or_one_line(force_run(ls, target).1, target) || is_blank(force_run(ls, target).1),
    decreases ls.len(),
{
    if ls.len() > 0 {
        let prev = ls.drop_last();
        assert forall|j: int| 0 <= j < prev.len() implies !(#[trigger] prev[j]).contains('\n') by {
            assert(prev[j] == ls[j]);
        }
        lemma_force_run_fits(prev, target);
        let (done, cur) = force_run(prev, target);
        let l = ls.last();
        assert(!l.contains('\n'));
        lemma_byte_len_line(l);
        lemma_byte_len_concat(cur, l.push('\n'));
        if byte_len(cur) + byte_len(l) + 1 > target && !is_blank(cur) {
            assert(l.push('\n') == Seq::<char>::empty() + l.push('\n'));
            assert(is_blank(Seq::<char>::empty()));
            assert(one_line(l.push('\n')));
            let d2 = done.push(cur);
            assert forall|i: int| 0 <= i < d2.len() implies fits_or_one_line(#[trigger] d2[i], target) by {
                if i < done.len() {
                    assert(d2[i] == done[i]);
                }
            }
        } else if is_blank(cur) && byte_len(cur) + byte_len(l) + 1 > target {
            assert(cur + l.push('\n') == cur + l.push('\n'));
            assert(one_line(cur + l.push('\n')));
        }
    }
}

/// Each piece of the line-by-line split fits in `target` bytes, unless it
/// holds a single line (after blank characters) that alone is longer.
pub proof fn lemma_force_split_fits(s: Seq<char>, target: nat)
    ensures
        forall|i: int| 0 <= i < force_split_spec(s, target).len()
            ==> fits_or_one_line(#[trigger] force_split_spec(s, target)[i], target),
{
    lemma_lines_clear(s);
    lemma_force_run_fits(lines(s), target);
    let (done, cur) = force_run(lines(s), target);
    if !is_blank(cur) {
        let d2 = done.push(cur);
        assert forall|i: int| 0 <= i < d2.len() implies fits_or_one_line(#[trigger] d2[i], target) by {
            if i < done.len() {
                assert(d2[i] == done[i]);
            }
        }
    }
}

proof fn lemma_expand_fits(cs: Seq<Seq<char>>, max: nat, target: nat)
    requires
        target <= max,
    ensures
        forall|i: int| 0 <= i < expand_spec(cs, max, target).len()
            ==> fits_or_one_line(#[trigger] expand_spec(cs, max, target)[i], max),
    decreases cs.len(),
{
    if cs.len() > 0 {
        let c = cs.last();
        let front = expand_spec(cs.drop_last(), max, target);
        lemma_expand_fits(cs.drop_last(), max, target);
        let back = if byte_len(c) <= max {
            seq![c]
        } else {
            force_split_spec(c, target)
        };
        lemma_force_split_fits(c, target);
        let all = front + back;
        assert forall|i: int| 0 <= i < all.len() implies fits_or_one_line(#[trigger] all[i], max) by {
            if i < front.len() {
                assert(all[i] == front[i]);
            } else {
                assert(all[i] == back[i - front.len()]);
            }
        }
    }
}

/// Each sub-chunk of an oversized section fits in `max` bytes, unless it
/// holds a single line that alone is longer (when `target <= max`).
pub proof fn lemma_section_split_fits(s: Seq<char>, max: nat, target: nat, pc: bool, pt: bool)
    requires
        target <= max,
    ensures
        forall|i: int| 0 <= i < section_split_spec(s, max, target, pc, pt).len()
            ==> fits_or_one_line(#[trigger] section_split_spec(s, max, target, pc, pt)[i], max),
{
    lemma_expand_fits(packed_spec(paragraphs_spec(s, pc, pt), max), max, target);
}

} // verus!
