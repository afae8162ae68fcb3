//! Splitting a markdown document into sections at headings and horizontal
//! rules, keeping the heading path (H1 > H2 > H3) of each section.

use vstd::prelude::*;
use crate::text::{
    append_line, chars_of, copy_all, copy_range, string_of, is_blank, is_blank_range, line_ranges, lines, range_eq,
    starts_with, starts_with_at, trim, trim_range, views,
};

verus! {

/// A code fence marker.
pub open spec fn fence() -> Seq<char> {
    seq!['`', '`', '`']
}

/// A markdown table line: starts and ends with `|` and has at least two characters.
pub open spec fn table_line(t: Seq<char>) -> bool {
    t.len() >= 2 && t[0] == '|' && t.last() == '|'
}

/// Heading level of a trimmed line: 0 for `# `, 1 for `## `, 2 for `### `,
/// -1 when the line is no heading.
pub open spec fn heading_level(t: Seq<char>) -> int {
    if starts_with(t, seq!['#', ' ']) && !starts_with(t, seq!['#', '#', ' ']) {
        0
    } else if starts_with(t, seq!['#', '#', ' ']) && !starts_with(t, seq!['#', '#', '#', ' ']) {
        1
    } else if starts_with(t, seq!['#', '#', '#', ' ']) {
        2
    } else {
        -1
    }
}

/// A horizontal rule: `---`, `***` or `___`.
pub open spec fn is_rule(t: Seq<char>) -> bool {
    t == seq!['-', '-', '-'] || t == seq!['*', '*', '*'] || t == seq!['_', '_', '_']
}

/// `t` with its leading `#` characters removed.
pub open spec fn strip_hashes(t: Seq<char>) -> Seq<char>
    decreases t.len(),
{
    if t.len() > 0 && t[0] == '#' {
        strip_hashes(t.drop_first())
    } else {
        t
    }
}

/// The title of a heading line.
pub open spec fn heading_title(t: Seq<char>) -> Seq<char> {
    trim(strip_hashes(t))
}

pub open spec fn opt_seq(o: Option<Seq<char>>) -> Seq<Seq<char>> {
    match o {
        Some(x) => seq![x],
        None => seq![],
    }
}

/// State of the section scanner after some lines.
pub struct ScanState {
    pub sections: Seq<(Seq<Seq<char>>, Seq<char>)>,
    pub current: Seq<char>,
    pub in_code: bool,
    pub in_table: bool,
    pub h0: Option<Seq<char>>,
    pub h1: Option<Seq<char>>,
    pub h2: Option<Seq<char>>,
    pub path: Seq<Seq<char>>,
}

pub open spec fn scan_init() -> ScanState {
    ScanState {
        sections: seq![],
        current: seq![],
        in_code: false,
        in_table: false,
        h0: None,
        h1: None,
        h2: None,
        path: seq![],
    }
}

/// The scanner's step on one line.
pub open spec fn scan_step(st: ScanState, line: Seq<char>, pc: bool, pt: bool) -> ScanState {
    let t = trim(line);
    let grown = st.current + line.push('\n');
    if pc && starts_with(t, fence()) {
        ScanState { in_code: !st.in_code, current: grown, ..st }
    } else if st.in_code {
        ScanState { current: grown, ..st }
    } else {
        let in_table = if pt {
            table_line(t)
        } else {
            st.in_table
        };
        let lvl = heading_level(t);
        let split = (lvl >= 0 || is_rule(t)) && !is_blank(st.current) && !in_table;
        let sections = if split {
            st.sections.push((st.path, st.current))
        } else {
            st.sections
        };
        let current = if split {
            line.push('\n')
        } else {
            grown
        };
        let title = heading_title(t);
        let h0 = if lvl == 0 {
            Some(title)
        } else {
            st.h0
        };
        let h1 = if lvl == 0 {
            None
        } else if lvl == 1 {
            Some(title)
        } else {
            st.h1
        };
        let h2 = if lvl == 0 || lvl == 1 {
            None
        } else if lvl == 2 {
            Some(title)
        } else {
            st.h2
        };
        let path = if lvl >= 0 {
            opt_seq(h0) + opt_seq(h1) + opt_seq(h2)
        } else {
            st.path
        };
        ScanState { sections, current, in_code: st.in_code, in_table, h0, h1, h2, path }
    }
}

/// The scanner's state after the lines `ls`.
pub open spec fn scan_run(ls: Seq<Seq<char>>, pc: bool, pt: bool) -> ScanState
    decreases ls.len(),
{
    if ls.len() == 0 {
        scan_init()
    } else {
        scan_step(scan_run(ls.drop_last(), pc, pt), ls.last(), pc, pt)
    }
}

/// The sections of `s`: each with its heading path and its text (lines with
/// `'\n'` terminators). A new section begins at each heading or rule line
/// outside code fences once the current one holds non-blank text.
pub open spec fn sections_spec(s: Seq<char>, pc: bool, pt: bool) -> Seq<(Seq<Seq<char>>, Seq<char>)> {
    let st = scan_run(lines(s), pc, pt);
    if !is_blank(st.current) {
        st.sections.push((st.path, st.current))
    } else {
        st.sections
    }
}

/// The lines `ls`, each ended by `'\n'`, one after the other.
pub open spec fn lines_text(ls: Seq<Seq<char>>) -> Seq<char>
    decreases ls.len(),
{
    if ls.len() == 0 {
        seq![]
    } else {
        lines_text(ls.drop_last()) + ls.last().push('\n')
    }
}

/// The texts of sections, one after the other.
pub open spec fn sections_text(secs: Seq<(Seq<Seq<char>>, Seq<char>)>) -> Seq<char>
    decreases secs.len(),
{
    if secs.len() == 0 {
        seq![]
    } else {
        sections_text(secs.drop_last()) + secs.last().1
    }
}

proof fn lemma_scan_keeps_text(ls: Seq<Seq<char>>, pc: bool, pt: bool)
    ensures
        sections_text(scan_run(ls, pc, pt).sections) + scan_run(ls, pc, pt).current == lines_text(ls),
    decreases ls.len(),
{
    if ls.len() > 0 {
        let pre = ls.drop_last();
        lemma_scan_keeps_text(pre, pc, pt);
        let st = scan_run(pre, pc, pt);
        let nx = scan_run(ls, pc, pt);
        let line = ls.last();
        assert(nx == scan_step(st, line, pc, pt));
        if nx.sections.len() == st.sections.len() + 1 {
            assert(nx.sections.drop_last() == st.sections);
            assert(sections_text(nx.sections) == sections_text(st.sections) + st.current);
            assert(sections_text(nx.sections) + nx.current =~= sections_text(st.sections) + st.current + line.push('\n'));
        } else {
            assert(sections_text(nx.sections) + nx.current =~= sections_text(st.sections) + st.current + line.push('\n'));
        }
    }
}

/// No text is lost to the split: the sections, one after the other, are the
/// document's lines (each ended by `'\n'`) up to a blank tail, the blank
/// text after the last section (or all of a blank document).
pub proof fn lemma_sections_keep_text(s: Seq<char>, pc: bool, pt: bool)
    ensures
        ({
            let t = sections_text(sections_spec(s, pc, pt));
            let all = lines_text(lines(s));
            &&& t.len() <= all.len()
            &&& all.take(t.len() as int) == t
            &&& is_blank(all.skip(t.len() as int))
        }),
{
    let st = scan_run(lines(s), pc, pt);
    lemma_scan_keeps_text(lines(s), pc, pt);
    let all = lines_text(lines(s));
    let t = sections_text(sections_spec(s, pc, pt));
    if !is_blank(st.current) {
        let secs = st.sections.push((st.path, st.current));
        assert(secs.drop_last() == st.sections);
        assert(t == sections_text(st.sections) + st.current);
        assert(all.take(t.len() as int) =~= t);
        assert(all.skip(t.len() as int) =~= Seq::<char>::empty());
    } else {
        assert(all.take(t.len() as int) =~= t);
        assert(all.skip(t.len() as int) =~= st.current);
    }
}

pub open spec fn opt_view(o: Option<Vec<char>>) -> Option<Seq<char>> {
    match o {
        Some(v) => Some(v@),
        None => None,
    }
}

/// Views of the sections the scanner produced.
pub open spec fn section_views(v: Seq<(Vec<Vec<char>>, Vec<char>)>) -> Seq<(Seq<Seq<char>>, Seq<char>)> {
    Seq::new(v.len(), |i: int| (views(v[i].0@), v[i].1@))
}

struct Scanner {
    sections: Vec<(Vec<Vec<char>>, Vec<char>)>,
    current: Vec<char>,
    in_code: bool,
    in_table: bool,
    h0: Option<Vec<char>>,
    h1: Option<Vec<char>>,
    h2: Option<Vec<char>>,
    path: Vec<Vec<char>>,
}

impl Scanner {
    spec fn view_state(&self) -> ScanState {
        ScanState {
            sections: section_views(self.sections@),
            current: self.current@,
            in_code: self.in_code,
            in_table: self.in_table,
            h0: opt_view(self.h0),
            h1: opt_view(self.h1),
            h2: opt_view(self.h2),
            path: views(self.path@),
        }
    }
}

fn push_opt(out: &mut Vec<Vec<char>>, o: &Option<Vec<char>>)
    ensures
        views(final(out)@) == views(old(out)@) + opt_seq(opt_view(*o)),
{
    let ghost before = views(out@);
    match o {
        Some(v) => {
            let c = copy_range(v.as_slice(), 0, v.len());
            proof {
                assert(v@.subrange(0, v@.len() as int) =~= v@);
            }
            out.push(c);
            proof {
                assert(views(out@) =~= before + seq![v@]);
            }
        },
        None => {
            proof {
                assert(views(out@) =~= before + Seq::<Seq<char>>::empty());
            }
        },
    }
}

fn path_of(h0: &Option<Vec<char>>, h1: &Option<Vec<char>>, h2: &Option<Vec<char>>) -> (r: Vec<
    Vec<char>,
>)
    ensures
        views(r@) == opt_seq(opt_view(*h0)) + opt_seq(opt_view(*h1)) + opt_seq(opt_view(*h2)),
{
    let mut r: Vec<Vec<char>> = Vec::new();
    proof {
        assert(views(r@) =~= Seq::<Seq<char>>::empty());
    }
    push_opt(&mut r, h0);
    push_opt(&mut r, h1);
    push_opt(&mut r, h2);
    proof {
        assert(Seq::<Seq<char>>::empty() + opt_seq(opt_view(*h0)) =~= opt_seq(opt_view(*h0)));
    }
    r
}

/// Index after the leading `#` characters of `s[lo..hi]`.
fn skip_hashes(s: &[char], lo: usize, hi: usize) -> (r: usize)
    requires
        lo <= hi <= s@.len(),
    ensures
        lo <= r <= hi,
        s@.subrange(r as int, hi as int) == strip_hashes(s@.subrange(lo as int, hi as int)),
{
    let mut j = lo;
    while j < hi && s[j] == '#'
        invariant
            lo <= j <= hi <= s@.len(),
            strip_hashes(s@.subrange(j as int, hi as int)) == strip_hashes(
                s@.subrange(lo as int, hi as int),
            ),
        decreases hi - j,
    {
        proof {
            assert(s@.subrange(j as int, hi as int).drop_first() =~= s@.subrange(j + 1, hi as int));
        }
        j = j + 1;
    }
    j
}

fn heading_level_exec(s: &[char], a: usize, b: usize) -> (r: i8)
    requires
        a <= b <= s@.len(),
    ensures
        r == heading_level(s@.subrange(a as int, b as int)),
{
    let p1 = vec!['#', ' '];
    let p2 = vec!['#', '#', ' '];
    let p3 = vec!['#', '#', '#', ' '];
    proof {
        assert(p1@ =~= seq!['#', ' ']);
        assert(p2@ =~= seq!['#', '#', ' ']);
        assert(p3@ =~= seq!['#', '#', '#', ' ']);
    }
    let h1 = starts_with_at(s, a, b, &p1);
    let h2 = starts_with_at(s, a, b, &p2);
    let h3 = starts_with_at(s, a, b, &p3);
    if h1 && !h2 {
        0
    } else if h2 && !h3 {
        1
    } else if h3 {
        2
    } else {
        -1
    }
}

fn is_rule_exec(s: &[char], a: usize, b: usize) -> (r: bool)
    requires
        a <= b <= s@.len(),
    ensures
        r == is_rule(s@.subrange(a as int, b as int)),
{
    let d = vec!['-', '-', '-'];
    let st = vec!['*', '*', '*'];
    let u = vec!['_', '_', '_'];
    proof {
        assert(d@ =~= seq!['-', '-', '-']);
        assert(st@ =~= seq!['*', '*', '*']);
        assert(u@ =~= seq!['_', '_', '_']);
    }
    range_eq(s, a, b, &d) || range_eq(s, a, b, &st) || range_eq(s, a, b, &u)
}

/// Whether the trimmed line `s[a..b]` is a markdown table line.
pub fn is_table_line(s: &[char], a: usize, b: usize) -> (r: bool)
    requires
        a <= b <= s@.len(),
    ensures
        r == table_line(s@.subrange(a as int, b as int)),
{
    b - a >= 2 && s[a] == '|' && s[b - 1] == '|'
}

impl Scanner {
    fn new() -> (r: Scanner)
        ensures
            r.view_state() == scan_init(),
    {
        let r = Scanner {
            sections: Vec::new(),
            current: Vec::new(),
            in_code: false,
            in_table: false,
            h0: None,
            h1: None,
            h2: None,
            path: Vec::new(),
        };
        proof {
            assert(section_views(r.sections@) =~= Seq::<(Seq<Seq<char>>, Seq<char>)>::empty());
            assert(views(r.path@) =~= Seq::<Seq<char>>::empty());
        }
        r
    }

    fn step(&mut self, s: &[char], a: usize, b: usize, pc: bool, pt: bool)
        requires
            a <= b <= s@.len(),
        ensures
            final(self).view_state() == scan_step(
                old(self).view_state(),
                s@.subrange(a as int, b as int),
                pc,
                pt,
            ),
    {
        let ghost st = self.view_state();
        let ghost line = s@.subrange(a as int, b as int);
        let (ta, tb) = trim_range(s, a, b);
        let fence_chars = vec!['`', '`', '`'];
        proof {
            assert(fence_chars@ =~= fence());
        }
        if pc && starts_with_at(s, ta, tb, &fence_chars) {
            self.in_code = !self.in_code;
            append_line(&mut self.current, s, a, b);
            proof {
                assert(self.view_state() =~= scan_step(st, line, pc, pt));
            }
            return;
        }
        if self.in_code {
            append_line(&mut self.current, s, a, b);
            proof {
                assert(self.view_state() =~= scan_step(st, line, pc, pt));
            }
            return;
        }
        if pt {
            self.in_table = is_table_line(s, ta, tb);
        }
        let lvl = heading_level_exec(s, ta, tb);
        let rule = is_rule_exec(s, ta, tb);
        let blank = is_blank_range(self.current.as_slice(), 0, self.current.len());
        proof {
            assert(self.current@.subrange(0, self.current@.len() as int) =~= self.current@);
        }
        if (lvl >= 0 || rule) && !blank && !self.in_table {
            let p = copy_all(&self.path);
            let mut cur: Vec<char> = Vec::new();
            std::mem::swap(&mut cur, &mut self.current);
            let ghost old_sections = self.sections@;
            self.sections.push((p, cur));
            proof {
                assert(section_views(self.sections@) =~= section_views(old_sections).push(
                    (st.path, st.current),
                ));
            }
        }
        if lvl >= 0 {
            let x = skip_hashes(s, ta, tb);
            let (ya, yb) = trim_range(s, x, tb);
            let title = copy_range(s, ya, yb);
            if lvl == 0 {
                self.h0 = Some(title);
                self.h1 = None;
                self.h2 = None;
            } else if lvl == 1 {
                self.h1 = Some(title);
                self.h2 = None;
            } else {
                self.h2 = Some(title);
            }
            self.path = path_of(&self.h0, &self.h1, &self.h2);
        }
        append_line(&mut self.current, s, a, b);
        proof {
            let t = trim(line);
            assert(s@.subrange(ta as int, tb as int) == t);
            assert(Seq::<char>::empty() + line.push('\n') =~= line.push('\n'));
            assert(self.view_state() =~= scan_step(st, line, pc, pt));
        }
    }
}

/// Splits `s` into sections at headings and rules (outside code fences when
/// `pc`), tracking the heading path; with `pt`, table lines are tracked too.
pub fn split_sections(s: &[char], pc: bool, pt: bool) -> (r: Vec<(Vec<Vec<char>>, Vec<char>)>)
    ensures
        section_views(r@) == sections_spec(s@, pc, pt),
{
    let ranges = line_ranges(s);
    let mut sc = Scanner::new();
    let mut i: usize = 0;
    while i < ranges.len()
        invariant
            i <= ranges@.len(),
            ranges@.len() == lines(s@).len(),
            forall|k: int|
                0 <= k < ranges@.len() ==> {
                    &&& (#[trigger] ranges@[k]).0 <= ranges@[k].1 <= s@.len()
                    &&& s@.subrange(ranges@[k].0 as int, ranges@[k].1 as int) == lines(s@)[k]
                },
            sc.view_state() == scan_run(lines(s@).take(i as int), pc, pt),
        decreases ranges@.len() - i,
    {
        let (a, b) = ranges[i];
        sc.step(s, a, b, pc, pt);
        proof {
            assert(lines(s@).take(i + 1).drop_last() =~= lines(s@).take(i as int));
        }
        i = i + 1;
    }
    proof {
        assert(lines(s@).take(i as int) =~= lines(s@));
    }
    let blank = is_blank_range(sc.current.as_slice(), 0, sc.current.len());
    proof {
        assert(sc.current@.subrange(0, sc.current@.len() as int) =~= sc.current@);
    }
    let mut out = sc.sections;
    if !blank {
        let ghost before = out@;
        out.push((sc.path, sc.current));
        proof {
            assert(section_views(out@) =~= section_views(before).push(
                (views(sc.path@), sc.current@),
            ));
        }
    }
    out
}


/// The plain values of sections held as strings: heading path and text.
pub open spec fn string_sections(v: Seq<(Vec<String>, String)>) -> Seq<(Seq<Seq<char>>, Seq<char>)> {
    Seq::new(v.len(), |i: int| (Seq::new(v[i].0@.len(), |j: int| v[i].0@[j]@), v[i].1@))
}

/// Splits `content` into sections at `#`/`##`/`###` headings and horizontal
/// rules (`---`, `***`, `___`), never inside a code fence when
/// `preserve_code`, nor inside a table when `preserve_tables`; each section
/// comes with its heading path (H1 > H2 > H3) and blank sections are dropped.
pub fn split_by_headings_with_path(content: &str, preserve_code: bool, preserve_tables: bool) -> (r: Vec<(Vec<String>, String)>)
    ensures
        string_sections(r@) == sections_spec(content@, preserve_code, preserve_tables),
{
    let s = chars_of(content);
    let secs = split_sections(s.as_slice(), preserve_code, preserve_tables);
    let ghost sv = section_views(secs@);
    let mut out: Vec<(Vec<String>, String)> = Vec::new();
    let mut i: usize = 0;
    while i < secs.len()
        invariant
            i <= secs@.len(),
            sv == section_views(secs@),
            out@.len() == i,
            forall|k: int| 0 <= k < i ==> #[trigger] string_sections(out@)[k] == sv[k],
        decreases secs@.len() - i,
    {
        let mut path: Vec<String> = Vec::new();
        let mut j: usize = 0;
        while j < secs[i].0.len()
            invariant
                i < secs@.len(),
                j <= secs@[i as int].0@.len(),
                path@.len() == j,
                forall|k: int| 0 <= k < j ==> (#[trigger] path@[k])@ == secs@[i as int].0@[k]@,
            decreases secs@[i as int].0@.len() - j,
        {
            path.push(string_of(secs[i].0[j].as_slice()));
            j = j + 1;
        }
        let text = string_of(secs[i].1.as_slice());
        let ghost before = out@;
        out.push((path, text));
        proof {
            assert(Seq::new(path@.len(), |j: int| path@[j]@) =~= views(secs@[i as int].0@));
            assert forall|k: int| 0 <= k < i + 1 implies #[trigger] string_sections(out@)[k] == sv[k] by {
                if k < i {
                    assert(out@[k] == before[k]);
                    assert(string_sections(before)[k] == sv[k]);
                }
            }
        }
        i = i + 1;
    }
    proof {
        assert(string_sections(out@) =~= sv);
    }
    out
}


/// A `##` or `###` heading line (after trimming).
pub open spec fn sub_heading(t: Seq<char>) -> bool {
    starts_with(t, seq!['#', '#', ' ']) || starts_with(t, seq!['#', '#', '#', ' '])
}

/// One line of the path-free scan: sections so far, current text, inside a
/// code fence.
pub open spec fn plain_step(st: (Seq<Seq<char>>, Seq<char>, bool), line: Seq<char>, pc: bool) -> (
    Seq<Seq<char>>,
    Seq<char>,
    bool,
) {
    let t = trim(line);
    let grown = st.1 + line.push('\n');
    if pc && starts_with(t, fence()) {
        (st.0, grown, !st.2)
    } else if st.2 {
        (st.0, grown, st.2)
    } else if (sub_heading(t) || is_rule(t)) && !is_blank(st.1) {
        (st.0.push(st.1), line.push('\n'), st.2)
    } else {
        (st.0, grown, st.2)
    }
}

pub open spec fn plain_run(ls: Seq<Seq<char>>, pc: bool) -> (Seq<Seq<char>>, Seq<char>, bool)
    decreases ls.len(),
{
    if ls.len() == 0 {
        (seq![], seq![], false)
    } else {
        plain_step(plain_run(ls.drop_last(), pc), ls.last(), pc)
    }
}

/// The sections of `s` split at `##`/`###` headings and rules only (outside
/// code fences when `pc`), without heading paths; blank text is dropped.
pub open spec fn plain_sections_spec(s: Seq<char>, pc: bool) -> Seq<Seq<char>> {
    let st = plain_run(lines(s), pc);
    if !is_blank(st.1) {
        st.0.push(st.1)
    } else {
        st.0
    }
}

/// Splits `content` into sections at `##`/`###` headings and horizontal
/// rules, never inside a code fence when `preserve_code`; `#` headings do
/// not split, and no heading path is kept.
pub fn split_by_headings(content: &str, preserve_code: bool) -> (r: Vec<String>)
    ensures
        r@.len() == plain_sections_spec(content@, preserve_code).len(),
        forall|i: int| 0 <= i < r@.len() ==> (#[trigger] r@[i])@ == plain_sections_spec(content@, preserve_code)[i],
{
    let s = chars_of(content);
    let ranges = line_ranges(s.as_slice());
    let fence_chars = vec!['`', '`', '`'];
    let h2 = vec!['#', '#', ' '];
    let h3 = vec!['#', '#', '#', ' '];
    proof {
        assert(fence_chars@ =~= fence());
        assert(h2@ =~= seq!['#', '#', ' ']);
        assert(h3@ =~= seq!['#', '#', '#', ' ']);
    }
    let mut secs: Vec<Vec<char>> = Vec::new();
    let mut current: Vec<char> = Vec::new();
    let mut in_code = false;
    let mut i: usize = 0;
    while i < ranges.len()
        invariant
            i <= ranges@.len(),
            ranges@.len() == lines(s@).len(),
            fence_chars@ == fence(),
            h2@ == seq!['#', '#', ' '],
            h3@ == seq!['#', '#', '#', ' '],
            forall|k: int|
                0 <= k < ranges@.len() ==> {
                    &&& (#[trigger] ranges@[k]).0 <= ranges@[k].1 <= s@.len()
                    &&& s@.subrange(ranges@[k].0 as int, ranges@[k].1 as int) == lines(s@)[k]
                },
            (views(secs@), current@, in_code) == plain_run(lines(s@).take(i as int), preserve_code),
        decreases ranges@.len() - i,
    {
        let (a, b) = ranges[i];
        let ghost st = (views(secs@), current@, in_code);
        let ghost line = s@.subrange(a as int, b as int);
        proof {
            assert(lines(s@).take(i + 1).drop_last() =~= lines(s@).take(i as int));
            assert(lines(s@).take(i + 1).last() == line);
        }
        let (ta, tb) = trim_range(s.as_slice(), a, b);
        if preserve_code && starts_with_at(s.as_slice(), ta, tb, &fence_chars) {
            in_code = !in_code;
            append_line(&mut current, s.as_slice(), a, b);
        } else if in_code {
            append_line(&mut current, s.as_slice(), a, b);
        } else {
            let heading = starts_with_at(s.as_slice(), ta, tb, &h2) || starts_with_at(s.as_slice(), ta, tb, &h3);
            let rule = is_rule_exec(s.as_slice(), ta, tb);
            let blank = is_blank_range(current.as_slice(), 0, current.len());
            proof {
                assert(current@.subrange(0, current@.len() as int) =~= current@);
            }
            if (heading || rule) && !blank {
                let mut cur: Vec<char> = Vec::new();
                std::mem::swap(&mut cur, &mut current);
                let ghost old_secs = secs@;
                secs.push(cur);
                proof {
                    assert(views(secs@) =~= views(old_secs).push(st.1));
                }
            }
            append_line(&mut current, s.as_slice(), a, b);
            proof {
                assert(Seq::<char>::empty() + line.push('\n') =~= line.push('\n'));
            }
        }
        proof {
            assert((views(secs@), current@, in_code) =~= plain_step(st, line, preserve_code));
        }
        i = i + 1;
    }
    proof {
        assert(lines(s@).take(i as int) =~= lines(s@));
    }
    let blank = is_blank_range(current.as_slice(), 0, current.len());
    proof {
        assert(current@.subrange(0, current@.len() as int) =~= current@);
    }
    if !blank {
        let ghost before = secs@;
        let ghost last = current@;
        secs.push(current);
        proof {
            assert(views(secs@) =~= views(before).push(last));
        }
    }
    let ghost target = plain_sections_spec(s@, preserve_code);
    let mut out: Vec<String> = Vec::new();
    let mut k: usize = 0;
    while k < secs.len()
        invariant
            k <= secs@.len(),
            views(secs@) == target,
            out@.len() == k,
            forall|m: int| 0 <= m < k ==> (#[trigger] out@[m])@ == target[m],
        decreases secs@.len() - k,
    {
        out.push(string_of(secs[k].as_slice()));
        k = k + 1;
    }
    out
}

} // verus!
