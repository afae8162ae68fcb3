//! Text primitives over character sequences.
//!
//! Strings enter the library as `&str` and are handled as sequences of `char`.
//! Byte lengths are the UTF-8 encoded lengths, computed from the characters.

use vstd::prelude::*;

verus! {

broadcast use vstd::string::group_string_axioms;

// ---------------------------------------------------------------------------
// Byte lengths
// ---------------------------------------------------------------------------

/// Number of bytes that the UTF-8 encoding of `c` takes.
pub open spec fn char_width(c: char) -> nat {
    if (c as u32) < 0x80 {
        1
    } else if (c as u32) < 0x800 {
        2
    } else if (c as u32) < 0x10000 {
        3
    } else {
        4
    }
}

/// Number of bytes that the UTF-8 encoding of `s` takes.
pub open spec fn byte_len(s: Seq<char>) -> nat
    decreases s.len(),
{
    if s.len() == 0 {
        0
    } else {
        byte_len(s.drop_last()) + char_width(s.last())
    }
}

pub proof fn lemma_byte_len_concat(a: Seq<char>, b: Seq<char>)
    ensures
        byte_len(a + b) == byte_len(a) + byte_len(b),
    decreases b.len(),
{
    if b.len() == 0 {
        assert(a + b =~= a);
    } else {
        lemma_byte_len_concat(a, b.drop_last());
        assert((a + b).drop_last() =~= a + b.drop_last());
    }
}

pub proof fn lemma_byte_len_take_step(s: Seq<char>, i: int)
    requires
        0 <= i < s.len(),
    ensures
        byte_len(s.take(i + 1)) == byte_len(s.take(i)) + char_width(s[i]),
{
    assert(s.take(i + 1).drop_last() =~= s.take(i));
}

pub proof fn lemma_byte_len_subrange_step(s: Seq<char>, a: int, b: int)
    requires
        0 <= a <= b < s.len(),
    ensures
        byte_len(s.subrange(a, b + 1)) == byte_len(s.subrange(a, b)) + char_width(s[b]),
{
    assert(s.subrange(a, b + 1).drop_last() =~= s.subrange(a, b));
}

pub proof fn lemma_byte_len_ge_len(s: Seq<char>)
    ensures
        byte_len(s) >= s.len(),
    decreases s.len(),
{
    if s.len() > 0 {
        lemma_byte_len_ge_len(s.drop_last());
    }
}

pub proof fn lemma_byte_len_le_4len(s: Seq<char>)
    ensures
        byte_len(s) <= 4 * s.len(),
    decreases s.len(),
{
    if s.len() > 0 {
        lemma_byte_len_le_4len(s.drop_last());
    }
}

/// An ASCII character takes one byte.
pub proof fn lemma_byte_len_ascii1(c: char)
    requires
        (c as u32) < 0x80,
    ensures
        byte_len(seq![c]) == 1,
{
    assert(seq![c].drop_last() =~= Seq::<char>::empty());
    assert(byte_len(Seq::<char>::empty()) == 0);
}

/// Byte length of one character.
pub fn char_len_utf8(c: char) -> (n: usize)
    ensures
        n == char_width(c),
        1 <= n <= 4,
{
    let u = c as u32;
    if u < 0x80 {
        1
    } else if u < 0x800 {
        2
    } else if u < 0x10000 {
        3
    } else {
        4
    }
}

/// Byte length of `s[lo..hi]`.
pub fn byte_len_of(s: &[char], lo: usize, hi: usize) -> (n: usize)
    requires
        lo <= hi <= s@.len(),
        byte_len(s@.subrange(lo as int, hi as int)) <= usize::MAX,
    ensures
        n == byte_len(s@.subrange(lo as int, hi as int)),
{
    let mut n: usize = 0;
    let mut i = lo;
    while i < hi
        invariant
            lo <= i <= hi <= s@.len(),
            n == byte_len(s@.subrange(lo as int, i as int)),
            byte_len(s@.subrange(lo as int, hi as int)) <= usize::MAX,
        decreases hi - i,
    {
        proof {
            lemma_byte_len_subrange_step(s@, lo as int, i as int);
            lemma_byte_len_concat(s@.subrange(lo as int, i + 1), s@.subrange(i + 1, hi as int));
            assert(s@.subrange(lo as int, i + 1) + s@.subrange(i + 1, hi as int) =~= s@.subrange(
                lo as int,
                hi as int,
            ));
        }
        n = n + char_len_utf8(s[i]);
        i = i + 1;
    }
    n
}

// ---------------------------------------------------------------------------
// Conversions between `&str`, `String` and character vectors
// ---------------------------------------------------------------------------

/// The characters of a string slice, in order.
pub fn chars_of(s: &str) -> (r: Vec<char>)
    ensures
        r@ == s@,
{
    let mut v: Vec<char> = Vec::new();
    for c in it: s.chars()
        invariant
            v@ == it.seq().take(it.index()),
            it.seq() == s@,
    {
        v.push(c);
    }
    v
}

/// `String::push`: appends one character.
#[verifier::external_body]
pub(crate) fn push_char(s: &mut String, c: char)
    ensures
        final(s)@ == old(s)@.push(c),
{
    s.push(c);
}

/// `String::push_str`: appends a string slice.
#[verifier::external_body]
pub(crate) fn push_str(s: &mut String, t: &str)
    ensures
        final(s)@ == old(s)@ + t@,
{
    s.push_str(t);
}

/// Appends the characters `v[lo..hi]` to `s`.
pub(crate) fn push_chars(s: &mut String, v: &[char], lo: usize, hi: usize)
    requires
        lo <= hi <= v@.len(),
    ensures
        final(s)@ == old(s)@ + v@.subrange(lo as int, hi as int),
{
    let mut i = lo;
    while i < hi
        invariant
            lo <= i <= hi <= v@.len(),
            s@ == old(s)@ + v@.subrange(lo as int, i as int),
        decreases hi - i,
    {
        push_char(s, v[i]);
        proof {
            assert(v@.subrange(lo as int, i + 1) =~= v@.subrange(lo as int, i as int).push(v@[i as int]));
        }
        i = i + 1;
    }
}

/// A `String` holding the characters `v[lo..hi]`.
pub fn string_from(v: &[char], lo: usize, hi: usize) -> (r: String)
    requires
        lo <= hi <= v@.len(),
    ensures
        r@ == v@.subrange(lo as int, hi as int),
{
    let mut s = String::new();
    push_chars(&mut s, v, lo, hi);
    proof {
        assert(Seq::<char>::empty() + v@.subrange(lo as int, hi as int) =~= v@.subrange(
            lo as int,
            hi as int,
        ));
    }
    s
}

/// A `String` holding all of `v`.
pub fn string_of(v: &[char]) -> (r: String)
    ensures
        r@ == v@,
{
    let r = string_from(v, 0, v.len());
    proof {
        assert(v@.subrange(0, v@.len() as int) =~= v@);
    }
    r
}

/// The characters `s[lo..hi]` as a new vector.
pub fn copy_range(s: &[char], lo: usize, hi: usize) -> (r: Vec<char>)
    requires
        lo <= hi <= s@.len(),
    ensures
        r@ == s@.subrange(lo as int, hi as int),
{
    let mut r: Vec<char> = Vec::new();
    append_range(&mut r, s, lo, hi);
    proof {
        assert(Seq::<char>::empty() + s@.subrange(lo as int, hi as int) =~= s@.subrange(
            lo as int,
            hi as int,
        ));
    }
    r
}

/// Appends `s[lo..hi]` to `v`.
pub fn append_range(v: &mut Vec<char>, s: &[char], lo: usize, hi: usize)
    requires
        lo <= hi <= s@.len(),
    ensures
        final(v)@ == old(v)@ + s@.subrange(lo as int, hi as int),
{
    let mut i = lo;
    while i < hi
        invariant
            lo <= i <= hi <= s@.len(),
            v@ == old(v)@ + s@.subrange(lo as int, i as int),
        decreases hi - i,
    {
        v.push(s[i]);
        proof {
            assert(s@.subrange(lo as int, i + 1) =~= s@.subrange(lo as int, i as int).push(s@[i as int]));
        }
        i = i + 1;
    }
}

/// Appends a line `s[lo..hi]` followed by `'\n'` to `v`.
pub fn append_line(v: &mut Vec<char>, s: &[char], lo: usize, hi: usize)
    requires
        lo <= hi <= s@.len(),
    ensures
        final(v)@ == old(v)@ + s@.subrange(lo as int, hi as int).push('\n'),
{
    append_range(v, s, lo, hi);
    v.push('\n');
    proof {
        assert(old(v)@ + s@.subrange(lo as int, hi as int) + seq!['\n'] =~= old(v)@ + s@.subrange(
            lo as int,
            hi as int,
        ).push('\n'));
    }
}

/// The views of a sequence of character vectors.
pub open spec fn views(v: Seq<Vec<char>>) -> Seq<Seq<char>> {
    Seq::new(v.len(), |i: int| v[i]@)
}

/// A copy of each character vector in `v`.
pub fn copy_all(v: &Vec<Vec<char>>) -> (r: Vec<Vec<char>>)
    ensures
        views(r@) == views(v@),
{
    let mut r: Vec<Vec<char>> = Vec::new();
    let mut i: usize = 0;
    while i < v.len()
        invariant
            i <= v@.len(),
            r@.len() == i,
            forall|k: int| 0 <= k < i ==> (#[trigger] r@[k])@ == v@[k]@,
        decreases v@.len() - i,
    {
        let c = copy_range(v[i].as_slice(), 0, v[i].len());
        proof {
            assert(v@[i as int]@.subrange(0, v@[i as int]@.len() as int) =~= v@[i as int]@);
        }
        r.push(c);
        i = i + 1;
    }
    proof {
        assert(views(r@) =~= views(v@));
    }
    r
}

/// An owned copy of a string slice.
pub fn owned(s: &str) -> (r: String)
    ensures
        r@ == s@,
{
    s.to_owned()
}


// ---------------------------------------------------------------------------
// Whitespace and trimming
// ---------------------------------------------------------------------------

/// The Unicode `White_Space` property, as `char::is_whitespace` tests it.
pub open spec fn is_ws(c: char) -> bool {
    let u = c as u32;
    ||| 0x9 <= u <= 0xD
    ||| u == 0x20
    ||| u == 0x85
    ||| u == 0xA0
    ||| u == 0x1680
    ||| 0x2000 <= u <= 0x200A
    ||| u == 0x2028
    ||| u == 0x2029
    ||| u == 0x202F
    ||| u == 0x205F
    ||| u == 0x3000
}

pub fn char_is_ws(c: char) -> (b: bool)
    ensures
        b == is_ws(c),
{
    let u = c as u32;
    (0x9 <= u && u <= 0xD) || u == 0x20 || u == 0x85 || u == 0xA0 || u == 0x1680 || (0x2000 <= u
        && u <= 0x200A) || u == 0x2028 || u == 0x2029 || u == 0x202F || u == 0x205F || u == 0x3000
}

/// `s` with its leading whitespace removed (`str::trim_start`).
pub open spec fn trim_start(s: Seq<char>) -> Seq<char>
    decreases s.len(),
{
    if s.len() > 0 && is_ws(s[0]) {
        trim_start(s.drop_first())
    } else {
        s
    }
}

/// `s` with its trailing whitespace removed (`str::trim_end`).
pub open spec fn trim_end(s: Seq<char>) -> Seq<char>
    decreases s.len(),
{
    if s.len() > 0 && is_ws(s.last()) {
        trim_end(s.drop_last())
    } else {
        s
    }
}

/// `s` with leading and trailing whitespace removed (`str::trim`).
pub open spec fn trim(s: Seq<char>) -> Seq<char> {
    trim_end(trim_start(s))
}

/// Every character of `s` is whitespace (so `s.trim()` is empty).
pub open spec fn is_blank(s: Seq<char>) -> bool {
    forall|i: int| 0 <= i < s.len() ==> is_ws(#[trigger] s[i])
}

/// Bounds `(a, b)` with `s[a..b] == trim_start(s[lo..hi])`.
pub fn trim_start_range(s: &[char], lo: usize, hi: usize) -> (r: usize)
    requires
        lo <= hi <= s@.len(),
    ensures
        lo <= r <= hi,
        s@.subrange(r as int, hi as int) == trim_start(s@.subrange(lo as int, hi as int)),
        forall|k: int| lo <= k < r ==> is_ws(#[trigger] s@[k]),
        r < hi ==> !is_ws(s@[r as int]),
{
    let mut i = lo;
    while i < hi && char_is_ws(s[i])
        invariant
            lo <= i <= hi <= s@.len(),
            trim_start(s@.subrange(i as int, hi as int)) == trim_start(
                s@.subrange(lo as int, hi as int),
            ),
            forall|k: int| lo <= k < i ==> is_ws(#[trigger] s@[k]),
        decreases hi - i,
    {
        proof {
            assert(s@.subrange(i as int, hi as int).drop_first() =~= s@.subrange(i + 1, hi as int));
        }
        i = i + 1;
    }
    i
}

/// Bound `b` with `s[lo..b] == trim_end(s[lo..hi])`.
pub fn trim_end_range(s: &[char], lo: usize, hi: usize) -> (r: usize)
    requires
        lo <= hi <= s@.len(),
    ensures
        lo <= r <= hi,
        s@.subrange(lo as int, r as int) == trim_end(s@.subrange(lo as int, hi as int)),
        forall|k: int| r <= k < hi ==> is_ws(#[trigger] s@[k]),
        lo < r ==> !is_ws(s@[r - 1]),
{
    let mut j = hi;
    while j > lo && char_is_ws(s[j - 1])
        invariant
            lo <= j <= hi <= s@.len(),
            trim_end(s@.subrange(lo as int, j as int)) == trim_end(
                s@.subrange(lo as int, hi as int),
            ),
            forall|k: int| j <= k < hi ==> is_ws(#[trigger] s@[k]),
        decreases j - lo,
    {
        proof {
            assert(s@.subrange(lo as int, j as int).drop_last() =~= s@.subrange(lo as int, j - 1));
        }
        j = j - 1;
    }
    j
}

/// Bounds `(a, b)` with `s[a..b] == trim(s[lo..hi])`.
pub fn trim_range(s: &[char], lo: usize, hi: usize) -> (r: (usize, usize))
    requires
        lo <= hi <= s@.len(),
    ensures
        lo <= r.0 <= r.1 <= hi,
        s@.subrange(r.0 as int, r.1 as int) == trim(s@.subrange(lo as int, hi as int)),
{
    let a = trim_start_range(s, lo, hi);
    let b = trim_end_range(s, a, hi);
    (a, b)
}

/// Whether `s[lo..hi]` is all whitespace.
pub fn is_blank_range(s: &[char], lo: usize, hi: usize) -> (b: bool)
    requires
        lo <= hi <= s@.len(),
    ensures
        b == is_blank(s@.subrange(lo as int, hi as int)),
{
    let a = trim_start_range(s, lo, hi);
    proof {
        if a < hi {
            assert(!is_ws(s@.subrange(lo as int, hi as int)[a - lo]));
        }
    }
    a == hi
}

pub proof fn lemma_trim_start_blank(s: Seq<char>)
    ensures
        is_blank(s) <==> trim_start(s).len() == 0,
    decreases s.len(),
{
    if s.len() > 0 {
        if is_ws(s[0]) {
            lemma_trim_start_blank(s.drop_first());
            if is_blank(s.drop_first()) {
                assert forall|i: int| 0 <= i < s.len() implies is_ws(#[trigger] s[i]) by {
                    if i > 0 {
                        assert(s[i] == s.drop_first()[i - 1]);
                    }
                }
            } else {
                let i = choose|i: int| 0 <= i < s.drop_first().len() && !is_ws(#[trigger] s.drop_first()[i]);
                assert(s[i + 1] == s.drop_first()[i]);
            }
        }
    }
}

pub proof fn lemma_trim_end_empty(s: Seq<char>)
    ensures
        trim_end(s).len() == 0 <==> s.len() == 0 || is_blank(s),
    decreases s.len(),
{
    if s.len() > 0 {
        if is_ws(s.last()) {
            lemma_trim_end_empty(s.drop_last());
            if is_blank(s.drop_last()) {
                assert forall|i: int| 0 <= i < s.len() implies is_ws(#[trigger] s[i]) by {
                    if i < s.len() - 1 {
                        assert(s[i] == s.drop_last()[i]);
                    }
                }
            } else if s.drop_last().len() > 0 {
                let i = choose|i: int| 0 <= i < s.drop_last().len() && !is_ws(#[trigger] s.drop_last()[i]);
                assert(s[i] == s.drop_last()[i]);
            }
        } else {
            assert(!is_ws(s[s.len() - 1]));
        }
    }
}

/// `s.trim().is_empty()` holds exactly when `s` is all whitespace.
pub proof fn lemma_trim_empty_iff_blank(s: Seq<char>)
    ensures
        trim(s).len() == 0 <==> is_blank(s),
{
    lemma_trim_start_blank(s);
    lemma_trim_end_empty(trim_start(s));
    lemma_trim_start_suffix(s);
}

/// `trim_start(s)` is a suffix of `s` whose first character is not whitespace.
pub proof fn lemma_trim_start_suffix(s: Seq<char>)
    ensures
        trim_start(s).len() <= s.len(),
        trim_start(s) == s.skip(s.len() - trim_start(s).len()),
        trim_start(s).len() > 0 ==> !is_ws(trim_start(s)[0]),
    decreases s.len(),
{
    if s.len() > 0 && is_ws(s[0]) {
        lemma_trim_start_suffix(s.drop_first());
        assert(s.drop_first().skip(s.drop_first().len() - trim_start(s.drop_first()).len())
            =~= s.skip(s.len() - trim_start(s).len()));
    } else {
        assert(s.skip(0) =~= s);
    }
}


// ---------------------------------------------------------------------------
// Lines
// ---------------------------------------------------------------------------

/// Index of the first `'\n'` in `s`, or `s.len()` when there is none.
pub open spec fn first_nl(s: Seq<char>) -> nat
    decreases s.len(),
{
    if s.len() == 0 {
        0
    } else if s[0] == '\n' {
        0
    } else {
        1 + first_nl(s.drop_first())
    }
}

/// A line without its `"\r"` terminator part.
pub open spec fn strip_cr(l: Seq<char>) -> Seq<char> {
    if l.len() > 0 && l.last() == '\r' {
        l.drop_last()
    } else {
        l
    }
}

/// The lines of `s`, as `str::lines` gives them: split at `'\n'`, a `'\r'`
/// directly before the `'\n'` removed, and no empty line after a final `'\n'`.
pub open spec fn lines(s: Seq<char>) -> Seq<Seq<char>>
    decreases s.len(),
{
    if s.len() == 0 {
        seq![]
    } else {
        let k = first_nl(s);
        if k < s.len() {
            seq![strip_cr(s.take(k as int))] + lines(s.skip(k + 1 as int))
        } else {
            seq![s]
        }
    }
}

pub proof fn lemma_first_nl(s: Seq<char>, j: int)
    requires
        0 <= j <= s.len(),
        forall|i: int| 0 <= i < j ==> s[i] != '\n',
        j == s.len() || s[j] == '\n',
    ensures
        first_nl(s) == j,
    decreases s.len(),
{
    if s.len() > 0 && s[0] != '\n' {
        assert forall|i: int| 0 <= i < j - 1 implies s.drop_first()[i] != '\n' by {
            assert(s.drop_first()[i] == s[i + 1]);
        }
        lemma_first_nl(s.drop_first(), j - 1);
    }
}

/// End (exclusive) of the line starting at `pos`: the index of the next
/// `'\n'` at or after `pos`, or `s.len()`.
pub fn line_end(s: &[char], pos: usize) -> (k: usize)
    requires
        pos <= s@.len(),
    ensures
        pos <= k <= s@.len(),
        forall|i: int| pos <= i < k ==> s@[i] != '\n',
        k < s@.len() ==> s@[k as int] == '\n',
        k == pos + first_nl(s@.skip(pos as int)),
{
    let mut k = pos;
    while k < s.len() && s[k] != '\n'
        invariant
            pos <= k <= s@.len(),
            forall|i: int| pos <= i < k ==> s@[i] != '\n',
        decreases s@.len() - k,
    {
        k = k + 1;
    }
    proof {
        lemma_first_nl(s@.skip(pos as int), k - pos);
    }
    k
}

/// The text of a line `s[a..b]` (before its `'\n'`), with a final `'\r'`
/// removed when a `'\n'` follows.
pub open spec fn line_text(s: Seq<char>, a: int, b: int) -> Seq<char> {
    if b < s.len() {
        strip_cr(s.subrange(a, b))
    } else {
        s.subrange(a, b)
    }
}

/// One step of `lines`: the first line of `s[pos..]` and the rest.
pub proof fn lemma_lines_step(s: Seq<char>, pos: int, k: int)
    requires
        0 <= pos < s.len(),
        pos <= k <= s.len(),
        forall|i: int| pos <= i < k ==> s[i] != '\n',
        k < s.len() ==> s[k] == '\n',
    ensures
        k < s.len() ==> lines(s.skip(pos)) == seq![line_text(s, pos, k)] + lines(s.skip(k + 1)),
        k == s.len() ==> lines(s.skip(pos)) == seq![line_text(s, pos, k)],
{
    let t = s.skip(pos);
    lemma_first_nl(t, k - pos);
    assert(t.take(k - pos) =~= s.subrange(pos, k));
    if k < s.len() {
        assert(t.skip(k - pos + 1) =~= s.skip(k + 1));
    } else {
        assert(t =~= s.subrange(pos, k));
    }
}

/// End of the line text (a `'\r'` before the `'\n'` excluded).
pub fn line_text_end(s: &[char], a: usize, b: usize) -> (e: usize)
    requires
        a <= b <= s@.len(),
    ensures
        a <= e <= b,
        s@.subrange(a as int, e as int) == line_text(s@, a as int, b as int),
{
    if b < s.len() && b > a && s[b - 1] == '\r' {
        proof {
            assert(s@.subrange(a as int, b as int).drop_last() =~= s@.subrange(a as int, b - 1));
        }
        b - 1
    } else {
        b
    }
}

/// The lines of `s`, each as a range `(start, end)` of the line text.
pub fn line_ranges(s: &[char]) -> (r: Vec<(usize, usize)>)
    ensures
        r@.len() == lines(s@).len(),
        forall|i: int|
            0 <= i < r@.len() ==> {
                &&& (#[trigger] r@[i]).0 <= r@[i].1 <= s@.len()
                &&& s@.subrange(r@[i].0 as int, r@[i].1 as int) == lines(s@)[i]
            },
{
    let mut r: Vec<(usize, usize)> = Vec::new();
    let mut pos: usize = 0;
    proof {
        assert(s@.skip(0) =~= s@);
        assert(Seq::new(0, |i: int| s@.subrange(r@[i].0 as int, r@[i].1 as int)) + lines(s@)
            =~= lines(s@));
    }
    while pos < s.len()
        invariant
            pos <= s@.len(),
            lines(s@) == Seq::new(r@.len(), |i: int| s@.subrange(r@[i].0 as int, r@[i].1 as int))
                + lines(s@.skip(pos as int)),
            forall|i: int| 0 <= i < r@.len() ==> (#[trigger] r@[i]).0 <= r@[i].1 <= s@.len(),
        decreases s@.len() - pos,
    {
        let k = line_end(s, pos);
        let e = line_text_end(s, pos, k);
        proof {
            lemma_lines_step(s@, pos as int, k as int);
        }
        let ghost old_r = r@;
        r.push((pos, e));
        proof {
            let f = Seq::new(r@.len(), |i: int| s@.subrange(r@[i].0 as int, r@[i].1 as int));
            let g = Seq::new(old_r.len(), |i: int| s@.subrange(old_r[i].0 as int, old_r[i].1 as int));
            assert(f =~= g.push(s@.subrange(pos as int, e as int)));
            if k < s.len() {
                assert(lines(s@) == f + lines(s@.skip(k + 1)));
            } else {
                assert(s@.skip(s@.len() as int) =~= Seq::<char>::empty());
                assert(lines(s@) =~= f + lines(s@.skip(k as int)));
            }
        }
        if k < s.len() {
            pos = k + 1;
        } else {
            pos = k;
        }
    }
    proof {
        assert(s@.skip(pos as int) =~= Seq::<char>::empty());
        let f = Seq::new(r@.len(), |i: int| s@.subrange(r@[i].0 as int, r@[i].1 as int));
        assert(lines(s@) =~= f);
    }
    r
}


// ---------------------------------------------------------------------------
// Matching
// ---------------------------------------------------------------------------

/// `s` begins with `p`.
pub open spec fn starts_with(s: Seq<char>, p: Seq<char>) -> bool {
    p.len() <= s.len() && s.take(p.len() as int) == p
}

/// `s` ends with `p`.
pub open spec fn ends_with(s: Seq<char>, p: Seq<char>) -> bool {
    p.len() <= s.len() && s.skip(s.len() - p.len()) == p
}

/// `p` occurs in `s` at index `i`.
pub open spec fn occurs_at(s: Seq<char>, p: Seq<char>, i: int) -> bool {
    0 <= i && i + p.len() <= s.len() && s.subrange(i, i + p.len()) == p
}

/// `p` occurs somewhere in `s` (`str::contains`).
pub open spec fn contains(s: Seq<char>, p: Seq<char>) -> bool {
    exists|i: int| occurs_at(s, p, i)
}

/// Whether `s[lo..hi]` equals `p` (compared character by character).
pub fn range_eq(s: &[char], lo: usize, hi: usize, p: &[char]) -> (b: bool)
    requires
        lo <= hi <= s@.len(),
    ensures
        b == (s@.subrange(lo as int, hi as int) == p@),
{
    if hi - lo != p.len() {
        return false;
    }
    let mut i: usize = 0;
    while i < p.len()
        invariant
            hi - lo == p@.len(),
            lo <= hi <= s@.len(),
            i <= p@.len(),
            forall|k: int| 0 <= k < i ==> s@[lo + k] == p@[k],
        decreases p@.len() - i,
    {
        if s[lo + i] != p[i] {
            proof {
                assert(s@.subrange(lo as int, hi as int)[i as int] != p@[i as int]);
            }
            return false;
        }
        i = i + 1;
    }
    proof {
        assert(s@.subrange(lo as int, hi as int) =~= p@);
    }
    true
}

/// Whether `p` occurs in `s` at index `i`.
pub fn occurs_at_exec(s: &[char], p: &[char], i: usize) -> (b: bool)
    ensures
        b == occurs_at(s@, p@, i as int),
{
    if p.len() > s.len() || i > s.len() - p.len() {
        false
    } else {
        range_eq(s, i, i + p.len(), p)
    }
}

/// Whether `s[lo..hi]` begins with `p`.
pub fn starts_with_at(s: &[char], lo: usize, hi: usize, p: &[char]) -> (b: bool)
    requires
        lo <= hi <= s@.len(),
    ensures
        b == starts_with(s@.subrange(lo as int, hi as int), p@),
{
    if p.len() > hi - lo {
        false
    } else {
        let b = range_eq(s, lo, lo + p.len(), p);
        proof {
            assert(s@.subrange(lo as int, hi as int).take(p@.len() as int) =~= s@.subrange(
                lo as int,
                lo + p@.len(),
            ));
        }
        b
    }
}

/// Whether `s[lo..hi]` ends with `p`.
pub fn ends_with_at(s: &[char], lo: usize, hi: usize, p: &[char]) -> (b: bool)
    requires
        lo <= hi <= s@.len(),
    ensures
        b == ends_with(s@.subrange(lo as int, hi as int), p@),
{
    if p.len() > hi - lo {
        false
    } else {
        let b = range_eq(s, hi - p.len(), hi, p);
        proof {
            let t = s@.subrange(lo as int, hi as int);
            assert(t.skip(t.len() - p@.len()) =~= s@.subrange(hi - p@.len(), hi as int));
        }
        b
    }
}

/// The first index at or after `from` where `p` occurs in `s`, if any
/// (`str::find` on the rest of the string).
pub fn find_from(s: &[char], p: &[char], from: usize) -> (r: Option<usize>)
    requires
        from <= s@.len(),
    ensures
        r is Some ==> from <= r->0 && occurs_at(s@, p@, r->0 as int) && forall|j: int|
            from <= j < r->0 ==> !occurs_at(s@, p@, j),
        r is None ==> forall|j: int| from <= j ==> !occurs_at(s@, p@, j),
{
    if p.len() > s.len() {
        return None;
    }
    let last = s.len() - p.len();
    if from > last {
        return None;
    }
    let mut i = from;
    loop
        invariant
            from <= i <= last,
            last + p.len() == s.len(),
            forall|j: int| from <= j < i ==> !occurs_at(s@, p@, j),
        decreases last - i,
    {
        if range_eq(s, i, i + p.len(), p) {
            return Some(i);
        }
        if i == last {
            return None;
        }
        i = i + 1;
    }
}

/// Whether `p` occurs in `s`.
pub fn contains_exec(s: &[char], p: &[char]) -> (b: bool)
    ensures
        b == contains(s@, p@),
{
    match find_from(s, p, 0) {
        Some(i) => true,
        None => {
            proof {
                assert forall|j: int| !occurs_at(s@, p@, j) by {
                    if j < 0 {
                    }
                }
            }
            false
        }
    }
}

/// Whether the character `c` occurs in `s[lo..hi]`.
pub fn has_char(s: &[char], lo: usize, hi: usize, c: char) -> (b: bool)
    requires
        lo <= hi <= s@.len(),
    ensures
        b == s@.subrange(lo as int, hi as int).contains(c),
{
    let mut i = lo;
    while i < hi
        invariant
            lo <= i <= hi <= s@.len(),
            forall|k: int| lo <= k < i ==> s@[k] != c,
        decreases hi - i,
    {
        if s[i] == c {
            proof {
                assert(s@.subrange(lo as int, hi as int)[i - lo] == c);
            }
            return true;
        }
        i = i + 1;
    }
    proof {
        assert forall|k: int| 0 <= k < hi - lo implies s@.subrange(lo as int, hi as int)[k] != c by {
            assert(s@.subrange(lo as int, hi as int)[k] == s@[lo + k]);
        }
    }
    false
}

// ---------------------------------------------------------------------------
// Case mapping and character classes of std
// ---------------------------------------------------------------------------

/// What `str::to_lowercase` gives for `s` (Unicode lowercase mapping).
pub uninterp spec fn lowercase(s: Seq<char>) -> Seq<char>;

/// ASCII lowercasing of one character: `'A'..='Z'` to `'a'..='z'`, others kept.
pub open spec fn ascii_lower_char(c: char) -> char {
    if 'A' <= c <= 'Z' {
        ((c as u32) + 32) as char
    } else {
        c
    }
}

/// Every character of `s` is ASCII.
pub open spec fn all_ascii(s: Seq<char>) -> bool {
    forall|i: int| 0 <= i < s.len() ==> (#[trigger] s[i] as u32) < 0x80
}

/// `str::to_lowercase`: the result is the Unicode lowercase mapping of the
/// argument, a function of the argument's characters alone. Of an ASCII
/// string it is the ASCII lowercasing (Unicode maps `A`-`Z` to `a`-`z` and no
/// other ASCII character has a lowercase mapping).
#[verifier::external_body]
pub(crate) fn str_to_lowercase(s: &str) -> (r: String)
    ensures
        r@ == lowercase(s@),
        all_ascii(s@) ==> r@ == s@.map_values(|c: char| ascii_lower_char(c)),
{
    s.to_lowercase()
}

/// The lowercase mapping of `s[lo..hi]`, as characters.
pub fn lower_range(s: &[char], lo: usize, hi: usize) -> (r: Vec<char>)
    requires
        lo <= hi <= s@.len(),
    ensures
        r@ == lowercase(s@.subrange(lo as int, hi as int)),
{
    let st = string_from(s, lo, hi);
    let lowered = str_to_lowercase(st.as_str());
    chars_of(lowered.as_str())
}

/// The lowercase mapping of a string slice, as characters.
pub fn lower_chars(s: &str) -> (r: Vec<char>)
    ensures
        r@ == lowercase(s@),
        all_ascii(s@) ==> r@ == s@.map_values(|c: char| ascii_lower_char(c)),
{
    let lowered = str_to_lowercase(s);
    chars_of(lowered.as_str())
}

/// What `char::is_alphanumeric` gives for `c` (Unicode `Alphabetic` or `Numeric`).
pub uninterp spec fn alphanumeric(c: char) -> bool;

/// `char::is_alphanumeric`: a function of the character alone.
#[verifier::external_body]
pub(crate) fn char_is_alphanumeric(c: char) -> (b: bool)
    ensures
        b == alphanumeric(c),
{
    c.is_alphanumeric()
}


// ---------------------------------------------------------------------------
// Views of owned strings, decimal numbers, joining
// ---------------------------------------------------------------------------

/// The views of a sequence of strings.
pub open spec fn strs(v: Seq<String>) -> Seq<Seq<char>> {
    Seq::new(v.len(), |i: int| v[i]@)
}

/// The view of an optional string.
pub open spec fn opt_str(o: Option<String>) -> Option<Seq<char>> {
    match o {
        Some(s) => Some(s@),
        None => None,
    }
}

/// The views of a sequence of string pairs.
pub open spec fn pair_views(v: Seq<(String, String)>) -> Seq<(Seq<char>, Seq<char>)> {
    Seq::new(v.len(), |i: int| (v[i].0@, v[i].1@))
}

/// The decimal digit character for `d < 10`.
pub open spec fn dec_char(d: nat) -> char {
    ((d + 48) as u32) as char
}

/// Decimal digits of `n`, most significant first (`[]` for 0).
pub open spec fn dec_digits(n: nat) -> Seq<char>
    decreases n,
{
    if n == 0 {
        seq![]
    } else {
        dec_digits(n / 10) + seq![dec_char((n % 10) as nat)]
    }
}

/// `n` in decimal, as `format!("{}", n)` writes it.
pub open spec fn dec_of(n: nat) -> Seq<char> {
    if n == 0 {
        seq!['0']
    } else {
        dec_digits(n)
    }
}

fn dec_digit(d: u64) -> (c: char)
    requires
        d < 10,
    ensures
        c == dec_char(d as nat),
{
    let d8 = d as u8;
    (d8 + 48) as char
}

/// `n` in decimal.
pub fn format_dec(n: u64) -> (r: String)
    ensures
        r@ == dec_of(n as nat),
{
    let mut digits: Vec<char> = Vec::new();
    let mut m = n;
    while m > 0
        invariant
            dec_digits(n as nat) == dec_digits(m as nat) + digits@,
        decreases m,
    {
        let c = dec_digit(m % 10);
        let ghost old_digits = digits@;
        digits.insert(0, c);
        proof {
            assert(digits@ =~= seq![c] + old_digits);
            assert(dec_digits((m / 10) as nat) + seq![c] + old_digits =~= dec_digits((m / 10) as nat)
                + digits@);
        }
        m = m / 10;
    }
    proof {
        assert(dec_digits(0) =~= Seq::<char>::empty());
        assert(dec_digits(n as nat) =~= digits@);
    }
    if digits.len() == 0 {
        digits.push('0');
        proof {
            assert(digits@ =~= seq!['0']);
        }
    }
    string_of(digits.as_slice())
}

/// The items joined with `sep` between each two neighbours.
pub open spec fn join_sep(items: Seq<Seq<char>>, sep: Seq<char>) -> Seq<char>
    decreases items.len(),
{
    if items.len() == 0 {
        seq![]
    } else if items.len() == 1 {
        items[0]
    } else {
        join_sep(items.drop_last(), sep) + sep + items.last()
    }
}

/// One more item at the end of a joined list.
pub proof fn lemma_join_sep_push(items: Seq<Seq<char>>, sep: Seq<char>, x: Seq<char>)
    ensures
        join_sep(items.push(x), sep) == if items.len() == 0 {
            x
        } else {
            join_sep(items, sep) + sep + x
        },
{
    assert(items.push(x).drop_last() =~= items);
}

/// Appends `items` joined with `sep` to `s`.
pub fn push_joined(s: &mut String, items: &Vec<String>, sep: &str)
    ensures
        final(s)@ == old(s)@ + join_sep(strs(items@), sep@),
{
    let ghost start = s@;
    let mut i: usize = 0;
    while i < items.len()
        invariant
            i <= items@.len(),
            s@ == start + join_sep(strs(items@).take(i as int), sep@),
            start == old(s)@,
        decreases items@.len() - i,
    {
        proof {
            lemma_join_sep_push(strs(items@).take(i as int), sep@, items@[i as int]@);
            assert(strs(items@).take(i as int).push(items@[i as int]@) =~= strs(items@).take(
                i + 1,
            ));
        }
        if i > 0 {
            push_str(s, sep);
        }
        push_str(s, items[i].as_str());
        proof {
            assert(start + join_sep(strs(items@).take(i as int), sep@) + sep@ + items@[i as int]@
                =~= start + (join_sep(strs(items@).take(i as int), sep@) + sep@ + items@[i as int]@));
            if i == 0 {
                assert(strs(items@).take(0) =~= Seq::<Seq<char>>::empty());
                assert(start + items@[0]@ =~= start + join_sep(strs(items@).take(1), sep@));
            }
        }
        i = i + 1;
    }
    proof {
        assert(strs(items@).take(items@.len() as int) =~= strs(items@));
    }
}

/// Whether two string slices hold the same characters.
pub fn same_text(a: &str, b: &str) -> (r: bool)
    ensures
        r == (a@ == b@),
{
    let x = chars_of(a);
    let y = chars_of(b);
    if x.len() != y.len() {
        return false;
    }
    let mut i: usize = 0;
    while i < x.len()
        invariant
            x@ == a@,
            y@ == b@,
            x@.len() == y@.len(),
            i <= x@.len(),
            forall|j: int| 0 <= j < i ==> x@[j] == y@[j],
        decreases x@.len() - i,
    {
        if x[i] != y[i] {
            proof {
                assert(x@[i as int] != y@[i as int]);
                assert(a@ != b@);
            }
            return false;
        }
        i = i + 1;
    }
    proof {
        assert(x@ =~= y@);
    }
    true
}

/// Strict lexicographic order of character sequences, by code point (the
/// order of `str` comparison, as UTF-8 keeps the order of code points).
pub open spec fn str_lt(a: Seq<char>, b: Seq<char>) -> bool
    decreases a.len(),
{
    if a.len() == 0 {
        b.len() > 0
    } else if b.len() == 0 {
        false
    } else if a[0] != b[0] {
        (a[0] as int) < (b[0] as int)
    } else {
        str_lt(a.drop_first(), b.drop_first())
    }
}

/// The order of names is transitive.
pub proof fn lemma_str_lt_trans(a: Seq<char>, b: Seq<char>, c: Seq<char>)
    requires
        str_lt(a, b),
        str_lt(b, c),
    ensures
        str_lt(a, c),
    decreases a.len(),
{
    if a.len() > 0 && b.len() > 0 && c.len() > 0 && a[0] == b[0] && b[0] == c[0] {
        lemma_str_lt_trans(a.drop_first(), b.drop_first(), c.drop_first());
    }
}

/// No sequence comes before itself.
pub proof fn lemma_str_lt_irrefl(a: Seq<char>)
    ensures
        !str_lt(a, a),
    decreases a.len(),
{
    if a.len() > 0 {
        lemma_str_lt_irrefl(a.drop_first());
    }
}

/// Of two different sequences, one comes before the other.
pub proof fn lemma_str_lt_total(a: Seq<char>, b: Seq<char>)
    ensures
        a == b || str_lt(a, b) || str_lt(b, a),
    decreases a.len(),
{
    if a.len() > 0 && b.len() > 0 && a[0] == b[0] {
        lemma_str_lt_total(a.drop_first(), b.drop_first());
        if a.drop_first() == b.drop_first() {
            assert(a =~= seq![a[0]] + a.drop_first());
            assert(b =~= seq![b[0]] + b.drop_first());
        }
    } else if a.len() == 0 && b.len() == 0 {
        assert(a =~= b);
    }
}

/// Two sequences with a common prefix compare as their rests do.
proof fn lemma_str_lt_skip(a: Seq<char>, b: Seq<char>, i: int)
    requires
        0 <= i <= a.len(),
        i <= b.len(),
        a.take(i) == b.take(i),
    ensures
        str_lt(a, b) == str_lt(a.skip(i), b.skip(i)),
    decreases i,
{
    if i > 0 {
        assert(a[0] == a.take(i)[0] && b[0] == b.take(i)[0]);
        assert(a.drop_first().take(i - 1) =~= b.drop_first().take(i - 1)) by {
            assert forall|k: int| 0 <= k < i - 1 implies #[trigger] a.drop_first().take(i - 1)[k]
                == b.drop_first().take(i - 1)[k] by {
                assert(a.take(i)[k + 1] == b.take(i)[k + 1]);
                assert(a.take(i)[k + 1] == a[k + 1]);
                assert(b.take(i)[k + 1] == b[k + 1]);
            }
        }
        lemma_str_lt_skip(a.drop_first(), b.drop_first(), i - 1);
        assert(a.drop_first().skip(i - 1) =~= a.skip(i));
        assert(b.drop_first().skip(i - 1) =~= b.skip(i));
    } else {
        assert(a.skip(0) =~= a);
        assert(b.skip(0) =~= b);
    }
}

/// Whether `a` comes before `b` in the order of `str` comparison.
pub fn str_less(a: &str, b: &str) -> (r: bool)
    ensures
        r == str_lt(a@, b@),
{
    let x = chars_of(a);
    let y = chars_of(b);
    let mut i: usize = 0;
    while i < x.len() && i < y.len() && x[i] == y[i]
        invariant
            i <= x@.len(),
            i <= y@.len(),
            x@.take(i as int) == y@.take(i as int),
        decreases x@.len() - i,
    {
        proof {
            assert(x@.take(i + 1) =~= x@.take(i as int).push(x@[i as int]));
            assert(y@.take(i + 1) =~= y@.take(i as int).push(y@[i as int]));
        }
        i = i + 1;
    }
    proof {
        lemma_str_lt_skip(x@, y@, i as int);
    }
    if i == x.len() {
        i < y.len()
    } else if i == y.len() {
        false
    } else {
        x[i] < y[i]
    }
}

/// The elements are in strictly increasing order.
pub open spec fn strictly_sorted(s: Seq<Seq<char>>) -> bool {
    forall|i: int, j: int| 0 <= i < j < s.len() ==> str_lt(#[trigger] s[i], #[trigger] s[j])
}

/// Inserts `x` into the strictly sorted `v`, unless it is there already.
pub fn insert_sorted_unique(v: &mut Vec<String>, x: String)
    requires
        strictly_sorted(strs(old(v)@)),
    ensures
        strictly_sorted(strs(final(v)@)),
        strs(final(v)@).to_set() == strs(old(v)@).to_set().insert(x@),
{
    let ghost s = strs(v@);
    let mut j: usize = 0;
    while j < v.len() && str_less(v[j].as_str(), x.as_str())
        invariant
            j <= v@.len(),
            s == strs(v@),
            forall|k: int| 0 <= k < j ==> str_lt(#[trigger] s[k], x@),
        decreases v@.len() - j,
    {
        j = j + 1;
    }
    if j < v.len() && same_text(v[j].as_str(), x.as_str()) {
        proof {
            assert(s.to_set().contains(x@)) by {
                assert(s[j as int] == x@);
            }
            assert(s.to_set().insert(x@) =~= s.to_set());
        }
        return;
    }
    proof {
        if j < s.len() {
            lemma_str_lt_total(s[j as int], x@);
        }
    }
    v.insert(j, x);
    proof {
        let t = strs(v@);
        assert(t =~= s.take(j as int).push(x@) + s.skip(j as int));
        assert forall|a: int, b: int| 0 <= a < b < t.len() implies str_lt(#[trigger] t[a], #[trigger] t[b]) by {
            if b < j {
                assert(t[a] == s[a] && t[b] == s[b]);
            } else if b == j {
                assert(t[a] == s[a]);
            } else if a == j {
                assert(t[b] == s[b - 1]);
                if b - 1 > j {
                    assert(str_lt(s[j as int], s[b - 1]));
                    lemma_str_lt_trans(x@, s[j as int], s[b - 1]);
                }
            } else if a < j {
                assert(t[a] == s[a] && t[b] == s[b - 1]);
            } else {
                assert(t[a] == s[a - 1] && t[b] == s[b - 1]);
            }
        }
        assert forall|e: Seq<char>| t.to_set().contains(e) <==> s.to_set().insert(x@).contains(e) by {
            if t.to_set().contains(e) {
                let k = choose|k: int| 0 <= k < t.len() && t[k] == e;
                if k < j {
                    assert(s[k] == e);
                } else if k > j {
                    assert(s[k - 1] == e);
                }
            }
            if s.to_set().contains(e) {
                let k = choose|k: int| 0 <= k < s.len() && s[k] == e;
                if k < j {
                    assert(t[k] == e);
                } else {
                    assert(t[k + 1] == e);
                }
            }
            if e == x@ {
                assert(t[j as int] == e);
            }
        }
        assert(t.to_set() =~= s.to_set().insert(x@));
    }
}

/// The distinct elements of `a`, in strictly increasing order (what sorting
/// and removing neighbouring duplicates gives).
pub fn sort_dedup(a: &Vec<String>) -> (r: Vec<String>)
    ensures
        strictly_sorted(strs(r@)),
        strs(r@).to_set() == strs(a@).to_set(),
{
    let mut r: Vec<String> = Vec::new();
    let mut i: usize = 0;
    proof {
        assert(strs(r@).to_set() =~= strs(a@).take(0).to_set());
    }
    while i < a.len()
        invariant
            i <= a@.len(),
            strictly_sorted(strs(r@)),
            strs(r@).to_set() == strs(a@).take(i as int).to_set(),
        decreases a@.len() - i,
    {
        insert_sorted_unique(&mut r, a[i].clone());
        proof {
            assert(strs(a@).take(i + 1) =~= strs(a@).take(i as int).push(a@[i as int]@));
            strs(a@).take(i as int).lemma_push_to_set_commute(a@[i as int]@);
        }
        i = i + 1;
    }
    proof {
        assert(strs(a@).take(a@.len() as int) =~= strs(a@));
    }
    r
}

/// Whether the UTF-8 encoding of `s` takes at least `n` bytes.
pub fn byte_len_reaches(s: &[char], n: usize) -> (b: bool)
    ensures
        b == (byte_len(s@) >= n),
{
    if n == 0 {
        return true;
    }
    let mut acc: usize = 0;
    let mut i: usize = 0;
    while i < s.len()
        invariant
            i <= s@.len(),
            acc == byte_len(s@.take(i as int)),
            acc < n,
        decreases s@.len() - i,
    {
        proof {
            lemma_byte_len_take_step(s@, i as int);
        }
        let step = char_len_utf8(s[i]);
        if step >= n - acc {
            proof {
                lemma_byte_len_prefix_le(s@, i + 1);
            }
            return true;
        }
        acc = acc + step;
        i = i + 1;
    }
    proof {
        assert(s@.take(i as int) =~= s@);
    }
    false
}

/// A prefix takes no more bytes than the whole.
pub proof fn lemma_byte_len_prefix_le(s: Seq<char>, i: int)
    requires
        0 <= i <= s.len(),
    ensures
        byte_len(s.take(i)) <= byte_len(s),
    decreases s.len() - i,
{
    if i < s.len() {
        lemma_byte_len_prefix_le(s, i + 1);
        lemma_byte_len_take_step(s, i);
    } else {
        assert(s.take(i) =~= s);
    }
}

} // verus!
