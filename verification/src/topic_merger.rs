//! Topic pages: the grouping of documents by type, the prompts that ask for
//! a document summary, a topic label and a topic page, the cleaning of the
//! label, the page around the generated text, quarters of dates, file names
//! of topics, the index pages of a document type and of a topic split by
//! quarter, and the revision history kept in a topic page.

use vstd::prelude::*;
use crate::text::{
    alphanumeric, char_is_alphanumeric, chars_of, dec_of, format_dec, lines, line_ranges, owned,
    push_char, push_str, starts_with, ends_with, string_from, strs, trim, trim_range,
    strictly_sorted, sort_dedup, join_sep, push_joined, same_text, dec_digits,
};

verus! {

/// Documents of one type that trigger an automatic merge.
pub const AUTO_MERGE_THRESHOLD: usize = 5;

/// Largest number of documents in one cluster.
pub const MAX_CLUSTER_SIZE: usize = 20;

// ---------------------------------------------------------------------------
// Numbers in text
// ---------------------------------------------------------------------------

/// Every character is an ASCII digit.
pub open spec fn all_digits(s: Seq<char>) -> bool {
    forall|i: int| 0 <= i < s.len() ==> '0' <= #[trigger] s[i] <= '9'
}

/// The value of a string of decimal digits.
pub open spec fn digits_value(s: Seq<char>) -> nat
    decreases s.len(),
{
    if s.len() == 0 {
        0
    } else {
        digits_value(s.drop_last()) * 10 + ((s.last() as int) - ('0' as int)) as nat
    }
}

/// The value of one digit or more, when it fits in a `u32`.
pub open spec fn digits_parse(d: Seq<char>) -> Option<u32> {
    if d.len() > 0 && all_digits(d) && digits_value(d) <= u32::MAX {
        Some(digits_value(d) as u32)
    } else {
        None
    }
}

/// What `str::parse::<u32>` gives: an optional `'+'`, then one digit or more,
/// with a value that fits in a `u32`.
pub open spec fn parse_u32_spec(s: Seq<char>) -> Option<u32> {
    if s.len() > 0 && s[0] == '+' {
        digits_parse(s.drop_first())
    } else {
        digits_parse(s)
    }
}

proof fn lemma_digits_value_mono(s: Seq<char>, k: int)
    requires
        0 <= k <= s.len(),
        all_digits(s),
    ensures
        digits_value(s.take(k)) <= digits_value(s),
    decreases s.len() - k,
{
    if k < s.len() {
        lemma_digits_value_mono(s, k + 1);
        assert(s.take(k + 1).drop_last() =~= s.take(k));
        assert('0' <= s[k] <= '9');
    } else {
        assert(s.take(k) =~= s);
    }
}

/// `str::parse::<u32>` of `s[lo..hi]`.
pub fn parse_u32_range(s: &[char], lo: usize, hi: usize) -> (r: Option<u32>)
    requires
        lo <= hi <= s@.len(),
    ensures
        r == parse_u32_spec(s@.subrange(lo as int, hi as int)),
{
    let ghost full = s@.subrange(lo as int, hi as int);
    let mut start = lo;
    if lo < hi && s[lo] == '+' {
        start = lo + 1;
    }
    let ghost d = s@.subrange(start as int, hi as int);
    proof {
        if lo < hi && s@[lo as int] == '+' {
            assert(full.drop_first() =~= d);
        } else {
            assert(full =~= d);
        }
        assert(parse_u32_spec(full) == digits_parse(d));
    }
    if start == hi {
        return None;
    }
    proof {
        assert(d.take(0) =~= Seq::<char>::empty());
    }
    let mut v: u64 = 0;
    let mut i = start;
    while i < hi
        invariant
            start <= i <= hi <= s@.len(),
            d == s@.subrange(start as int, hi as int),
            d.len() > 0,
            full == s@.subrange(lo as int, hi as int),
            parse_u32_spec(full) == digits_parse(d),
            all_digits(d.take(i - start)),
            v == digits_value(d.take(i - start)),
            v <= u32::MAX,
        decreases hi - i,
    {
        let c = s[i];
        if c < '0' || c > '9' {
            proof {
                assert(d[i - start] == c);
                assert(!all_digits(d));
            }
            return None;
        }
        let dv = (c as u32 - '0' as u32) as u64;
        proof {
            assert(d.take(i - start + 1).drop_last() =~= d.take(i - start));
            assert(d.take(i - start + 1).last() == c);
            assert forall|k: int| 0 <= k < d.take(i - start + 1).len() implies '0' <= #[trigger] d.take(
                i - start + 1,
            )[k] <= '9' by {
                if k < i - start {
                    assert(d.take(i - start + 1)[k] == d.take(i - start)[k]);
                }
            }
        }
        let nv = v * 10 + dv;
        if nv > 0xFFFF_FFFF {
            proof {
                assert(digits_value(d.take(i - start + 1)) == digits_value(d.take(i - start)) * 10
                    + ((c as int) - ('0' as int)));
                assert(digits_value(d.take(i - start + 1)) > u32::MAX);
                if all_digits(d) {
                    lemma_digits_value_mono(d, i - start + 1);
                }
            }
            return None;
        }
        proof {
            assert(digits_value(d.take(i - start + 1)) == digits_value(d.take(i - start)) * 10
                + ((c as int) - ('0' as int)));
        }
        v = nv;
        i = i + 1;
    }
    proof {
        assert(d.take(hi - start) =~= d);
    }
    Some(v as u32)
}

// ---------------------------------------------------------------------------
// Quarters
// ---------------------------------------------------------------------------

/// The index of the first `c` in `s`, when there is one.
pub open spec fn index_of_char(s: Seq<char>, c: char) -> Option<int> {
    if s.contains(c) {
        Some(choose|k: int| 0 <= k < s.len() && s[k] == c && forall|j: int| 0 <= j < k ==> s[j] != c)
    } else {
        None
    }
}

/// The text of a quarter for a month number (months past 12 and 0 count as
/// the fourth quarter).
pub open spec fn quarter_name(month: u32) -> Seq<char> {
    if 1 <= month <= 3 {
        "Q1"@
    } else if 4 <= month <= 6 {
        "Q2"@
    } else if 7 <= month <= 9 {
        "Q3"@
    } else {
        "Q4"@
    }
}

/// A month from 1 to 12 is in quarter `(month - 1) / 3 + 1` (January to
/// March the first, April to June the second, and so on); any other number
/// counts as the fourth quarter.
pub proof fn lemma_quarter_of_month(month: u32)
    ensures
        1 <= month <= 12 ==> quarter_name(month) == seq!['Q'] + dec_of(((month - 1) / 3 + 1) as nat),
        !(1 <= month <= 12) ==> quarter_name(month) == seq!['Q', '4'],
{
    reveal_strlit("Q1");
    reveal_strlit("Q2");
    reveal_strlit("Q3");
    reveal_strlit("Q4");
    reveal_with_fuel(dec_digits, 2);
    let q = ((month - 1) / 3 + 1) as nat;
    if 1 <= month <= 12 {
        if month <= 3 {
            assert(q == 1);
        } else if month <= 6 {
            assert(q == 2);
        } else if month <= 9 {
            assert(q == 3);
        } else {
            assert(q == 4);
        }
        assert(dec_of(q) =~= seq![((q + 48) as u32) as char]);
        assert(quarter_name(month) =~= seq!['Q'] + dec_of(q));
    } else {
        assert(quarter_name(month) =~= seq!['Q', '4']);
    }
}

/// The month text after the first `'-'`: up to the next `'-'` or the end.
pub open spec fn month_text(rest: Seq<char>) -> Seq<char> {
    match index_of_char(rest, '-') {
        Some(m) => rest.take(m),
        None => rest,
    }
}

/// The month number of the text after the first `'-'` (1 when it does not
/// parse).
pub open spec fn month_value(rest: Seq<char>) -> u32 {
    match parse_u32_spec(month_text(rest)) {
        Some(v) => v,
        None => 1u32,
    }
}

/// The quarter of a date `YYYY-MM-..`: the part before the first `'-'`, a
/// `'-'`, and the quarter of the month between the first and the second
/// `'-'` (month 1 when it does not parse); `unknown` without a `'-'`.
pub open spec fn quarter_of(date: Seq<char>) -> Seq<char> {
    match index_of_char(date, '-') {
        Some(k) => date.take(k) + "-"@ + quarter_name(month_value(date.skip(k + 1))),
        None => "unknown"@,
    }
}

/// The first `c` in `s[lo..hi]`, or `hi`.
fn find_char(s: &[char], lo: usize, hi: usize, c: char) -> (k: usize)
    requires
        lo <= hi <= s@.len(),
    ensures
        lo <= k <= hi,
        forall|j: int| lo <= j < k ==> s@[j] != c,
        k < hi ==> s@[k as int] == c,
{
    let mut k = lo;
    while k < hi && s[k] != c
        invariant
            lo <= k <= hi <= s@.len(),
            forall|j: int| lo <= j < k ==> s@[j] != c,
        decreases hi - k,
    {
        k = k + 1;
    }
    k
}

proof fn lemma_index_of_char(s: Seq<char>, c: char, k: int)
    requires
        0 <= k <= s.len(),
        forall|j: int| 0 <= j < k ==> s[j] != c,
        k < s.len() ==> s[k] == c,
    ensures
        index_of_char(s, c) == if k < s.len() {
            Some(k)
        } else {
            None::<int>
        },
{
    if k < s.len() {
        assert(s.contains(c));
        let q = choose|q: int| 0 <= q < s.len() && s[q] == c && forall|j: int| 0 <= j < q ==> s[j] != c;
        if q < k {
            assert(s[q] != c);
        } else if q > k {
            assert(s[k] != c);
        }
    } else {
        assert(!s.contains(c));
    }
}

/// The month number in the text after position `k` of a date.
fn month_after(c: &Vec<char>, k: usize) -> (m: u32)
    requires
        k < c@.len(),
    ensures
        m == month_value(c@.skip(k + 1)),
{
    let n = c.len();
    let e = find_char(c.as_slice(), k + 1, n, '-');
    let ghost rest = c@.skip(k + 1);
    proof {
        assert forall|j: int| 0 <= j < e - (k + 1) implies rest[j] != '-' by {
            assert(rest[j] == c@[k + 1 + j]);
        }
        if e < n {
            assert(rest[e - (k + 1)] == c@[e as int]);
        }
        lemma_index_of_char(rest, '-', e - (k + 1));
        if e < n {
            assert(rest.take(e - (k + 1)) =~= c@.subrange(k + 1, e as int));
        } else {
            assert(rest =~= c@.subrange(k + 1, e as int));
        }
        assert(month_text(rest) == c@.subrange(k + 1, e as int));
    }
    match parse_u32_range(c.as_slice(), k + 1, e) {
        Some(v) => v,
        None => 1,
    }
}

/// The quarter text for a month number.
fn quarter_text(month: u32) -> (q: &'static str)
    ensures
        q@ == quarter_name(month),
{
    if 1 <= month && month <= 3 {
        "Q1"
    } else if 4 <= month && month <= 6 {
        "Q2"
    } else if 7 <= month && month <= 9 {
        "Q3"
    } else {
        "Q4"
    }
}

/// The quarter of a date, as `2026-Q2` for `2026-04-05`.
pub fn date_to_quarter(date: &str) -> (r: String)
    ensures
        r@ == quarter_of(date@),
{
    let c = chars_of(date);
    let n = c.len();
    let k = find_char(c.as_slice(), 0, n, '-');
    proof {
        lemma_index_of_char(c@, '-', k as int);
    }
    if k == n {
        return owned("unknown");
    }
    let month = month_after(&c, k);
    let mut r = string_from(c.as_slice(), 0, k);
    push_str(&mut r, "-");
    push_str(&mut r, quarter_text(month));
    proof {
        assert(c@.subrange(0, k as int) =~= c@.take(k as int));
    }
    r
}

/// The quarters of dates.
pub open spec fn quarters(dates: Seq<Seq<char>>) -> Seq<Seq<char>> {
    Seq::new(dates.len(), |i: int| quarter_of(dates[i]))
}

/// The positions of the dates of quarter `q`, in order.
pub open spec fn positions_in(dates: Seq<Seq<char>>, q: Seq<char>) -> Seq<usize>
    decreases dates.len(),
{
    if dates.len() == 0 {
        seq![]
    } else {
        let rest = positions_in(dates.drop_last(), q);
        if quarter_of(dates.last()) == q {
            rest.push((dates.len() - 1) as usize)
        } else {
            rest
        }
    }
}

/// Groups positions of dates by quarter: the quarters in sorted order, each
/// with the positions of its dates in order.
pub fn group_by_quarter(dates: &[String]) -> (r: Vec<(String, Vec<usize>)>)
    ensures
        strictly_sorted(Seq::new(r@.len(), |i: int| r@[i].0@)),
        Seq::new(r@.len(), |i: int| r@[i].0@).to_set() == quarters(strs(dates@)).to_set(),
        forall|i: int|
            0 <= i < r@.len() ==> (#[trigger] r@[i]).1@ == positions_in(strs(dates@), r@[i].0@),
{
    let mut qs: Vec<String> = Vec::new();
    let mut i: usize = 0;
    while i < dates.len()
        invariant
            i <= dates@.len(),
            strs(qs@) == quarters(strs(dates@)).take(i as int),
        decreases dates@.len() - i,
    {
        let q = date_to_quarter(dates[i].as_str());
        let ghost before = qs@;
        let ghost qv = q@;
        qs.push(q);
        proof {
            assert(strs(dates@)[i as int] == dates@[i as int]@);
            assert(qv == quarters(strs(dates@))[i as int]);
            assert(strs(qs@) =~= strs(before).push(qv));
            assert(quarters(strs(dates@)).take(i + 1) =~= quarters(strs(dates@)).take(i as int).push(qv));
            assert(strs(qs@) =~= quarters(strs(dates@)).take(i + 1));
        }
        i = i + 1;
    }
    proof {
        assert(quarters(strs(dates@)).take(dates@.len() as int) =~= quarters(strs(dates@)));
    }
    let keys = sort_dedup(&qs);
    let mut r: Vec<(String, Vec<usize>)> = Vec::new();
    let mut k: usize = 0;
    while k < keys.len()
        invariant
            k <= keys@.len(),
            qs@.len() == dates@.len(),
            strs(qs@) == quarters(strs(dates@)),
            r@.len() == k,
            forall|j: int| 0 <= j < k ==> (#[trigger] r@[j]).0@ == keys@[j]@,
            forall|j: int|
                0 <= j < k ==> (#[trigger] r@[j]).1@ == positions_in(strs(dates@), r@[j].0@),
        decreases keys@.len() - k,
    {
        let mut pos: Vec<usize> = Vec::new();
        let mut j: usize = 0;
        while j < qs.len()
            invariant
                j <= qs@.len(),
                qs@.len() == dates@.len(),
                strs(qs@) == quarters(strs(dates@)),
                k < keys@.len(),
                pos@ == positions_in(strs(dates@).take(j as int), keys@[k as int]@),
            decreases qs@.len() - j,
        {
            proof {
                assert(strs(dates@).take(j + 1).drop_last() =~= strs(dates@).take(j as int));
                assert(strs(dates@).take(j + 1).last() == dates@[j as int]@);
                assert(strs(qs@)[j as int] == quarters(strs(dates@))[j as int]);
                assert(strs(dates@)[j as int] == dates@[j as int]@);
                assert(qs@[j as int]@ == quarter_of(dates@[j as int]@));
            }
            if crate::text::same_text(qs[j].as_str(), keys[k].as_str()) {
                pos.push(j);
            }
            j = j + 1;
        }
        proof {
            assert(strs(dates@).take(dates@.len() as int) =~= strs(dates@));
        }
        r.push((keys[k].clone(), pos));
        k = k + 1;
    }
    proof {
        assert(Seq::new(r@.len(), |i: int| r@[i].0@) =~= strs(keys@));
    }
    r
}

// ---------------------------------------------------------------------------
// File names and index pages
// ---------------------------------------------------------------------------

/// A character kept in a file name: alphanumeric, `'-'` or `'_'`; any other
/// becomes `'_'`.
pub open spec fn filename_char(c: char) -> char {
    if alphanumeric(c) || c == '-' || c == '_' {
        c
    } else {
        '_'
    }
}

/// `s` without its leading `'_'`.
pub open spec fn strip_leading_underscores(s: Seq<char>) -> Seq<char>
    decreases s.len(),
{
    if s.len() > 0 && s[0] == '_' {
        strip_leading_underscores(s.drop_first())
    } else {
        s
    }
}

/// `s` without its trailing `'_'`.
pub open spec fn strip_trailing_underscores(s: Seq<char>) -> Seq<char>
    decreases s.len(),
{
    if s.len() > 0 && s.last() == '_' {
        strip_trailing_underscores(s.drop_last())
    } else {
        s
    }
}

/// A name made safe for a file: each character mapped, then the `'_'` at
/// both ends removed.
pub open spec fn sanitized(name: Seq<char>) -> Seq<char> {
    strip_trailing_underscores(strip_leading_underscores(name.map_values(|c: char| filename_char(c))))
}

proof fn lemma_filename_char_fixed(c: char)
    ensures
        filename_char(filename_char(c)) == filename_char(c),
{
}

proof fn lemma_strip_leading(s: Seq<char>) -> (k: int)
    ensures
        0 <= k <= s.len(),
        strip_leading_underscores(s) == s.skip(k),
        strip_leading_underscores(s).len() > 0 ==> strip_leading_underscores(s)[0] != '_',
    decreases s.len(),
{
    if s.len() > 0 && s[0] == '_' {
        let j = lemma_strip_leading(s.drop_first());
        assert(s.drop_first().skip(j) =~= s.skip(j + 1));
        j + 1
    } else {
        assert(s.skip(0) =~= s);
        0
    }
}

proof fn lemma_strip_trailing(s: Seq<char>) -> (k: int)
    ensures
        0 <= k <= s.len(),
        strip_trailing_underscores(s) == s.take(k),
        strip_trailing_underscores(s).len() > 0 ==> strip_trailing_underscores(s).last() != '_',
    decreases s.len(),
{
    if s.len() > 0 && s.last() == '_' {
        let j = lemma_strip_trailing(s.drop_last());
        assert(s.drop_last().take(j) =~= s.take(j));
        j
    } else {
        assert(s.take(s.len() as int) =~= s);
        s.len() as int
    }
}

/// A sanitized name holds only characters that `char::is_alphanumeric`
/// accepts, `'-'` and `'_'`, and neither begins nor ends with `'_'`.
pub proof fn lemma_sanitized_chars(name: Seq<char>)
    ensures
        forall|i: int|
            0 <= i < sanitized(name).len() ==> alphanumeric(#[trigger] sanitized(name)[i]) || sanitized(name)[i] == '-'
                || sanitized(name)[i] == '_',
        sanitized(name).len() > 0 ==> sanitized(name)[0] != '_' && sanitized(name).last() != '_',
{
    let m = name.map_values(|c: char| filename_char(c));
    let k1 = lemma_strip_leading(m);
    let u = m.skip(k1);
    let k2 = lemma_strip_trailing(u);
    let t = u.take(k2);
    assert(sanitized(name) == t);
    assert forall|i: int| 0 <= i < t.len() implies alphanumeric(#[trigger] t[i]) || t[i] == '-' || t[i] == '_' by {
        assert(t[i] == m[k1 + i]);
    }
    if t.len() > 0 {
        assert(t[0] == u[0]);
        assert(u.len() > 0 && u[0] != '_');
    }
}

/// Sanitizing a sanitized name changes nothing.
pub proof fn lemma_sanitize_idempotent(name: Seq<char>)
    ensures
        sanitized(sanitized(name)) == sanitized(name),
{
    let m = name.map_values(|c: char| filename_char(c));
    let k1 = lemma_strip_leading(m);
    let u = m.skip(k1);
    let k2 = lemma_strip_trailing(u);
    let t = u.take(k2);
    assert(sanitized(name) == t);
    assert forall|i: int| 0 <= i < t.len() implies filename_char(#[trigger] t[i]) == t[i] by {
        assert(t[i] == m[k1 + i]);
        lemma_filename_char_fixed(name[k1 + i]);
    }
    let tm = t.map_values(|c: char| filename_char(c));
    assert(tm =~= t);
    if t.len() > 0 {
        assert(t[0] == u[0]);
        assert(strip_leading_underscores(u).len() > 0);
        assert(strip_leading_underscores(t) == t);
    } else {
        assert(strip_leading_underscores(t) == t);
    }
    assert(strip_trailing_underscores(t) == t);
}

/// A name made safe for a file name.
pub fn sanitize_filename(name: &str) -> (r: String)
    ensures
        r@ == sanitized(name@),
{
    let c = chars_of(name);
    let mut m: Vec<char> = Vec::new();
    let mut i: usize = 0;
    while i < c.len()
        invariant
            i <= c@.len(),
            m@ == c@.take(i as int).map_values(|x: char| filename_char(x)),
        decreases c@.len() - i,
    {
        let x = c[i];
        let keep = char_is_alphanumeric(x) || x == '-' || x == '_';
        if keep {
            m.push(x);
        } else {
            m.push('_');
        }
        proof {
            assert(m@ =~= c@.take(i + 1).map_values(|x: char| filename_char(x)));
        }
        i = i + 1;
    }
    proof {
        assert(c@.take(c@.len() as int) =~= c@);
    }
    let ghost mapped = m@;
    proof {
        assert(mapped.skip(0) =~= mapped);
    }
    let mut a: usize = 0;
    while a < m.len() && m[a] == '_'
        invariant
            a <= m@.len(),
            m@ == mapped,
            strip_leading_underscores(mapped) == strip_leading_underscores(mapped.skip(a as int)),
        decreases m@.len() - a,
    {
        proof {
            assert(mapped.skip(a as int).drop_first() =~= mapped.skip(a + 1));
        }
        a = a + 1;
    }
    proof {
        if a == 0 {
            assert(mapped.skip(0) =~= mapped);
        }
        assert(strip_leading_underscores(mapped) == mapped.skip(a as int));
    }
    let ghost lead = mapped.skip(a as int);
    let mut b: usize = m.len();
    while b > a && m[b - 1] == '_'
        invariant
            a <= b <= m@.len(),
            m@ == mapped,
            lead == mapped.skip(a as int),
            strip_trailing_underscores(lead) == strip_trailing_underscores(mapped.subrange(a as int, b as int)),
        decreases b - a,
    {
        proof {
            assert(mapped.subrange(a as int, b as int).drop_last() =~= mapped.subrange(a as int, b - 1));
        }
        b = b - 1;
    }
    proof {
        if b == m@.len() {
            assert(mapped.subrange(a as int, b as int) =~= lead);
        }
    }
    string_from(m.as_slice(), a, b)
}

/// The sum of the counts.
pub open spec fn total_of(counts: Seq<usize>) -> nat
    decreases counts.len(),
{
    if counts.len() == 0 {
        0
    } else {
        total_of(counts.drop_last()) + counts.last() as nat
    }
}

/// The document counts of topic links.
pub open spec fn link_counts(links: Seq<(String, String, usize)>) -> Seq<usize> {
    Seq::new(links.len(), |i: int| links[i].2)
}

/// The lines of topic links.
pub open spec fn topic_lines(links: Seq<(String, String, usize)>) -> Seq<char>
    decreases links.len(),
{
    if links.len() == 0 {
        seq![]
    } else {
        let l = links.last();
        topic_lines(links.drop_last()) + "- [["@ + l.1@ + "]] — "@ + l.0@ + " ("@ + dec_of(l.2 as nat)
            + " 문서)\n"@
    }
}

/// The index page of a document type: its topics (label, path, count).
pub open spec fn type_index_text(doc_type: Seq<char>, links: Seq<(String, String, usize)>) -> Seq<
    char,
> {
    "# "@ + doc_type + " 종합\n\n> "@ + dec_of(links.len()) + " 토픽, "@ + dec_of(
        total_of(link_counts(links)),
    ) + " 문서\n\n## 토픽 목록\n\n"@ + topic_lines(links)
}

proof fn lemma_total_prefix(counts: Seq<usize>, i: int)
    requires
        0 <= i <= counts.len(),
    ensures
        total_of(counts.take(i)) <= total_of(counts),
    decreases counts.len() - i,
{
    if i < counts.len() {
        lemma_total_prefix(counts, i + 1);
        assert(counts.take(i + 1).drop_last() =~= counts.take(i));
    } else {
        assert(counts.take(i) =~= counts);
    }
}

/// The sum of the document counts of topic links.
fn sum_link_counts(links: &[(String, String, usize)]) -> (t: usize)
    requires
        total_of(link_counts(links@)) <= usize::MAX,
    ensures
        t == total_of(link_counts(links@)),
{
    let mut t: usize = 0;
    let mut i: usize = 0;
    while i < links.len()
        invariant
            i <= links@.len(),
            total_of(link_counts(links@)) <= usize::MAX,
            t == total_of(link_counts(links@).take(i as int)),
        decreases links@.len() - i,
    {
        proof {
            assert(link_counts(links@).take(i + 1).drop_last() =~= link_counts(links@).take(i as int));
            lemma_total_prefix(link_counts(links@), i + 1);
        }
        t = t + links[i].2;
        i = i + 1;
    }
    proof {
        assert(link_counts(links@).take(links@.len() as int) =~= link_counts(links@));
    }
    t
}

/// The index page of a document type, listing its topics.
pub fn generate_type_index(doc_type: &str, topic_links: &[(String, String, usize)]) -> (r: String)
    requires
        total_of(link_counts(topic_links@)) <= usize::MAX,
    ensures
        r@ == type_index_text(doc_type@, topic_links@),
{
    let total = sum_link_counts(topic_links);
    let mut md = owned("# ");
    push_str(&mut md, doc_type);
    push_str(&mut md, " 종합\n\n> ");
    let n = format_dec(topic_links.len() as u64);
    push_str(&mut md, n.as_str());
    push_str(&mut md, " 토픽, ");
    let t = format_dec(total as u64);
    push_str(&mut md, t.as_str());
    push_str(&mut md, " 문서\n\n## 토픽 목록\n\n");
    let ghost head = md@;
    let mut i: usize = 0;
    while i < topic_links.len()
        invariant
            i <= topic_links@.len(),
            md@ == head + topic_lines(topic_links@.take(i as int)),
        decreases topic_links@.len() - i,
    {
        proof {
            assert(topic_links@.take(i + 1).drop_last() =~= topic_links@.take(i as int));
        }
        let ghost before = md@;
        push_str(&mut md, "- [[");
        push_str(&mut md, topic_links[i].1.as_str());
        push_str(&mut md, "]] — ");
        push_str(&mut md, topic_links[i].0.as_str());
        push_str(&mut md, " (");
        let c = format_dec(topic_links[i].2 as u64);
        push_str(&mut md, c.as_str());
        push_str(&mut md, " 문서)\n");
        proof {
            assert(md@ =~= head + topic_lines(topic_links@.take(i + 1)));
        }
        i = i + 1;
    }
    proof {
        assert(topic_links@.take(topic_links@.len() as int) =~= topic_links@);
        assert(md@ =~= type_index_text(doc_type@, topic_links@));
    }
    md
}

/// The document counts of quarter links.
pub open spec fn quarter_counts(links: Seq<(String, usize)>) -> Seq<usize> {
    Seq::new(links.len(), |i: int| links[i].1)
}

/// The lines of quarter links.
pub open spec fn quarter_lines(links: Seq<(String, usize)>) -> Seq<char>
    decreases links.len(),
{
    if links.len() == 0 {
        seq![]
    } else {
        let l = links.last();
        quarter_lines(links.drop_last()) + "- [["@ + l.0@ + ".md]] — "@ + l.0@ + " ("@ + dec_of(
            l.1 as nat,
        ) + " 문서)\n"@
    }
}

/// The index page of a topic split by quarter.
pub open spec fn cluster_index_text(label: Seq<char>, links: Seq<(String, usize)>) -> Seq<char> {
    "# "@ + label + "\n\n> "@ + dec_of(total_of(quarter_counts(links))) + " 문서, "@ + dec_of(
        links.len(),
    ) + " 기간\n\n## 기간별\n\n"@ + quarter_lines(links)
}

/// The index page of a topic split by quarter, listing its quarters.
pub fn generate_cluster_index(label: &str, quarter_links: &[(String, usize)]) -> (r: String)
    requires
        total_of(quarter_counts(quarter_links@)) <= usize::MAX,
    ensures
        r@ == cluster_index_text(label@, quarter_links@),
{
    let mut total: usize = 0;
    let mut i: usize = 0;
    while i < quarter_links.len()
        invariant
            i <= quarter_links@.len(),
            total_of(quarter_counts(quarter_links@)) <= usize::MAX,
            total == total_of(quarter_counts(quarter_links@).take(i as int)),
        decreases quarter_links@.len() - i,
    {
        proof {
            assert(quarter_counts(quarter_links@).take(i + 1).drop_last() =~= quarter_counts(
                quarter_links@,
            ).take(i as int));
            lemma_total_prefix(quarter_counts(quarter_links@), i + 1);
        }
        total = total + quarter_links[i].1;
        i = i + 1;
    }
    proof {
        assert(quarter_counts(quarter_links@).take(quarter_links@.len() as int) =~= quarter_counts(
            quarter_links@,
        ));
    }
    let mut md = owned("# ");
    push_str(&mut md, label);
    push_str(&mut md, "\n\n> ");
    let t = format_dec(total as u64);
    push_str(&mut md, t.as_str());
    push_str(&mut md, " 문서, ");
    let n = format_dec(quarter_links.len() as u64);
    push_str(&mut md, n.as_str());
    push_str(&mut md, " 기간\n\n## 기간별\n\n");
    let ghost head = md@;
    let mut k: usize = 0;
    while k < quarter_links.len()
        invariant
            k <= quarter_links@.len(),
            md@ == head + quarter_lines(quarter_links@.take(k as int)),
        decreases quarter_links@.len() - k,
    {
        proof {
            assert(quarter_links@.take(k + 1).drop_last() =~= quarter_links@.take(k as int));
        }
        push_str(&mut md, "- [[");
        push_str(&mut md, quarter_links[k].0.as_str());
        push_str(&mut md, ".md]] — ");
        push_str(&mut md, quarter_links[k].0.as_str());
        push_str(&mut md, " (");
        let c = format_dec(quarter_links[k].1 as u64);
        push_str(&mut md, c.as_str());
        push_str(&mut md, " 문서)\n");
        proof {
            assert(md@ =~= head + quarter_lines(quarter_links@.take(k + 1)));
        }
        k = k + 1;
    }
    proof {
        assert(quarter_links@.take(quarter_links@.len() as int) =~= quarter_links@);
        assert(md@ =~= cluster_index_text(label@, quarter_links@));
    }
    md
}

// ---------------------------------------------------------------------------
// Revisions of a topic page
// ---------------------------------------------------------------------------

/// `s` with every leading copy of `p` removed (`str::trim_start_matches`).
pub open spec fn strip_prefixes(s: Seq<char>, p: Seq<char>) -> Seq<char>
    decreases s.len(),
{
    if p.len() > 0 && starts_with(s, p) {
        strip_prefixes(s.skip(p.len() as int), p)
    } else {
        s
    }
}

/// `s` with every trailing copy of `p` removed (`str::trim_end_matches`).
pub open spec fn strip_suffixes(s: Seq<char>, p: Seq<char>) -> Seq<char>
    decreases s.len(),
{
    if p.len() > 0 && ends_with(s, p) {
        strip_suffixes(s.take(s.len() - p.len()), p)
    } else {
        s
    }
}

/// A line that records a revision.
pub open spec fn is_revision_line(l: Seq<char>) -> bool {
    starts_with(l, "<!-- revision:"@) && ends_with(l, "-->"@)
}

/// The text of a revision line.
pub open spec fn revision_entry(l: Seq<char>) -> Seq<char> {
    trim(strip_suffixes(strip_prefixes(l, "<!-- revision:"@), "-->"@))
}

/// The revisions recorded in the lines, in order.
pub open spec fn revision_entries(ls: Seq<Seq<char>>) -> Seq<Seq<char>>
    decreases ls.len(),
{
    if ls.len() == 0 {
        seq![]
    } else {
        let rest = revision_entries(ls.drop_last());
        if is_revision_line(ls.last()) {
            rest.push(revision_entry(ls.last()))
        } else {
            rest
        }
    }
}

/// `s[lo..hi]` without its leading copies of `p`: the new start.
fn strip_prefixes_range(s: &[char], lo: usize, hi: usize, p: &[char]) -> (a: usize)
    requires
        lo <= hi <= s@.len(),
        p@.len() > 0,
    ensures
        lo <= a <= hi,
        s@.subrange(a as int, hi as int) == strip_prefixes(s@.subrange(lo as int, hi as int), p@),
{
    let mut a = lo;
    while crate::text::starts_with_at(s, a, hi, p)
        invariant
            lo <= a <= hi <= s@.len(),
            p@.len() > 0,
            strip_prefixes(s@.subrange(a as int, hi as int), p@) == strip_prefixes(
                s@.subrange(lo as int, hi as int),
                p@,
            ),
        decreases hi - a,
    {
        proof {
            assert(s@.subrange(a as int, hi as int).skip(p@.len() as int) =~= s@.subrange(
                a + p@.len(),
                hi as int,
            ));
        }
        a = a + p.len();
    }
    a
}

/// `s[lo..hi]` without its trailing copies of `p`: the new end.
fn strip_suffixes_range(s: &[char], lo: usize, hi: usize, p: &[char]) -> (b: usize)
    requires
        lo <= hi <= s@.len(),
        p@.len() > 0,
    ensures
        lo <= b <= hi,
        s@.subrange(lo as int, b as int) == strip_suffixes(s@.subrange(lo as int, hi as int), p@),
{
    let mut b = hi;
    while crate::text::ends_with_at(s, lo, b, p)
        invariant
            lo <= b <= hi <= s@.len(),
            p@.len() > 0,
            strip_suffixes(s@.subrange(lo as int, b as int), p@) == strip_suffixes(
                s@.subrange(lo as int, hi as int),
                p@,
            ),
        decreases b - lo,
    {
        proof {
            let t = s@.subrange(lo as int, b as int);
            assert(t.take(t.len() - p@.len()) =~= s@.subrange(lo as int, b - p@.len()));
        }
        b = b - p.len();
    }
    b
}

/// The revisions recorded in a topic page (`<!-- revision: ... -->` lines),
/// in order.
pub fn revision_history(current: &str) -> (r: Vec<String>)
    ensures
        strs(r@) == revision_entries(lines(current@)),
{
    let c = chars_of(current);
    let ranges = line_ranges(c.as_slice());
    let open_mark = chars_of("<!-- revision:");
    let close_mark = chars_of("-->");
    let ghost ls = lines(c@);
    let mut r: Vec<String> = Vec::new();
    let mut k: usize = 0;
    while k < ranges.len()
        invariant
            k <= ranges@.len(),
            ranges@.len() == ls.len(),
            ls == lines(c@),
            c@ == current@,
            open_mark@ == "<!-- revision:"@,
            close_mark@ == "-->"@,
            forall|i: int|
                0 <= i < ranges@.len() ==> {
                    &&& (#[trigger] ranges@[i]).0 <= ranges@[i].1 <= c@.len()
                    &&& c@.subrange(ranges@[i].0 as int, ranges@[i].1 as int) == ls[i]
                },
            strs(r@) == revision_entries(ls.take(k as int)),
        decreases ranges@.len() - k,
    {
        let (a, b) = ranges[k];
        proof {
            assert(ls.take(k + 1).drop_last() =~= ls.take(k as int));
            assert(ls.take(k + 1).last() == ls[k as int]);
            reveal_strlit("<!-- revision:");
            reveal_strlit("-->");
        }
        if crate::text::starts_with_at(c.as_slice(), a, b, open_mark.as_slice())
            && crate::text::ends_with_at(c.as_slice(), a, b, close_mark.as_slice()) {
            let s1 = strip_prefixes_range(c.as_slice(), a, b, open_mark.as_slice());
            let s2 = strip_suffixes_range(c.as_slice(), s1, b, close_mark.as_slice());
            let (ta, tb) = trim_range(c.as_slice(), s1, s2);
            let entry = string_from(c.as_slice(), ta, tb);
            let ghost before = r@;
            r.push(entry);
            proof {
                assert(strs(r@) =~= strs(before).push(revision_entry(ls[k as int])));
            }
        }
        k = k + 1;
    }
    proof {
        assert(ls.take(ranges@.len() as int) =~= ls);
    }
    r
}

/// The numbered lines `"{i}. {entry}"` of a revision history.
pub open spec fn numbered(hs: Seq<Seq<char>>) -> Seq<Seq<char>> {
    Seq::new(hs.len(), |i: int| dec_of((i + 1) as nat) + ". "@ + hs[i])
}

/// The section of a prompt that lists the earlier revisions (empty when
/// there are none).
pub open spec fn history_section_text(hs: Seq<Seq<char>>) -> Seq<char> {
    if hs.len() == 0 {
        seq![]
    } else {
        "\n## 이전 수정 이력\n"@ + join_sep(numbered(hs), "\n"@) + "\n"@
    }
}

/// The section of a prompt that lists the earlier revisions.
pub fn history_section(history: &Vec<String>) -> (r: String)
    requires
        history@.len() < u64::MAX,
    ensures
        r@ == history_section_text(strs(history@)),
{
    if history.len() == 0 {
        return String::new();
    }
    let mut items: Vec<String> = Vec::new();
    let mut i: usize = 0;
    while i < history.len()
        invariant
            i <= history@.len() < u64::MAX,
            items@.len() == i,
            forall|j: int| 0 <= j < i ==> (#[trigger] items@[j])@ == numbered(strs(history@))[j],
        decreases history@.len() - i,
    {
        let mut t = format_dec((i + 1) as u64);
        push_str(&mut t, ". ");
        push_str(&mut t, history[i].as_str());
        items.push(t);
        i = i + 1;
    }
    proof {
        assert(strs(items@) =~= numbered(strs(history@)));
    }
    let mut r = owned("\n## 이전 수정 이력\n");
    push_joined(&mut r, &items, "\n");
    push_str(&mut r, "\n");
    r
}

/// The prompt that asks for a revision of a topic page.
pub open spec fn revision_prompt_text(feedback: Seq<char>, history: Seq<char>, current: Seq<char>) -> Seq<
    char,
> {
    "아래 토픽 문서를 사용자 피드백에 따라 수정하세요.\n기존 구조(타임라인/결정사항/미해결/모순)는 유지하세요.\n수정된 전체 문서만 출력하세요.\n\n## 이번 피드백\n"@
        + feedback + "\n"@ + history + "\n## 현재 문서\n"@ + current
}

/// The prompt that asks for a revision of a topic page.
pub fn revision_prompt(feedback: &str, history_section: &str, current: &str) -> (r: String)
    ensures
        r@ == revision_prompt_text(feedback@, history_section@, current@),
{
    let mut r = owned(
        "아래 토픽 문서를 사용자 피드백에 따라 수정하세요.\n기존 구조(타임라인/결정사항/미해결/모순)는 유지하세요.\n수정된 전체 문서만 출력하세요.\n\n## 이번 피드백\n",
    );
    push_str(&mut r, feedback);
    push_str(&mut r, "\n");
    push_str(&mut r, history_section);
    push_str(&mut r, "\n## 현재 문서\n");
    push_str(&mut r, current);
    r
}

/// The revision line put at the top of a revised page: the time and the
/// first hundred characters of the feedback.
pub open spec fn revision_meta_text(timestamp: Seq<char>, feedback: Seq<char>) -> Seq<char> {
    "<!-- revision: "@ + timestamp + " | "@ + (if feedback.len() <= 100 {
        feedback
    } else {
        feedback.take(100)
    }) + " -->\n"@
}

/// The revision line put at the top of a revised page.
pub fn revision_meta(timestamp: &str, feedback: &str) -> (r: String)
    ensures
        r@ == revision_meta_text(timestamp@, feedback@),
{
    let f = chars_of(feedback);
    let n = if f.len() <= 100 {
        f.len()
    } else {
        100
    };
    let mut r = owned("<!-- revision: ");
    push_str(&mut r, timestamp);
    push_str(&mut r, " | ");
    crate::text::push_chars(&mut r, f.as_slice(), 0, n);
    push_str(&mut r, " -->\n");
    proof {
        if f@.len() <= 100 {
            assert(f@.subrange(0, n as int) =~= f@);
        } else {
            assert(f@.subrange(0, n as int) =~= f@.take(100));
        }
    }
    r
}

/// The primary type of a document: its first type, or `etc`.
pub open spec fn doc_primary(types: Seq<Seq<char>>) -> Seq<char> {
    if types.len() > 0 {
        types[0]
    } else {
        "etc"@
    }
}

/// The number of documents whose primary type is `t`.
pub open spec fn primary_count(docs: Seq<Seq<Seq<char>>>, t: Seq<char>) -> nat
    decreases docs.len(),
{
    if docs.len() == 0 {
        0
    } else {
        primary_count(docs.drop_last(), t) + if doc_primary(docs.last()) == t {
            1nat
        } else {
            0nat
        }
    }
}

/// The types of stored documents.
pub open spec fn doc_type_lists(docs: Seq<crate::models::StoredDocSummary>) -> Seq<Seq<Seq<char>>> {
    Seq::new(docs.len(), |i: int| strs(docs[i].doc_types@))
}

/// Whether an automatic merge is due: some primary type has at least
/// `threshold` documents.
pub fn auto_merge_needed(docs: &[crate::models::StoredDocSummary], threshold: usize) -> (r: bool)
    ensures
        r == exists|i: int|
            0 <= i < docs@.len() && primary_count(
                doc_type_lists(docs@),
                #[trigger] doc_primary(doc_type_lists(docs@)[i]),
            ) >= threshold,
{
    let ghost dl = doc_type_lists(docs@);
    let mut i: usize = 0;
    while i < docs.len()
        invariant
            i <= docs@.len(),
            dl == doc_type_lists(docs@),
            forall|j: int| 0 <= j < i ==> primary_count(dl, #[trigger] doc_primary(dl[j])) < threshold,
        decreases docs@.len() - i,
    {
        let p: &str = if docs[i].doc_types.len() > 0 {
            docs[i].doc_types[0].as_str()
        } else {
            "etc"
        };
        proof {
            assert(p@ == doc_primary(dl[i as int]));
        }
        let mut n: usize = 0;
        let mut j: usize = 0;
        while j < docs.len()
            invariant
                j <= docs@.len(),
                dl == doc_type_lists(docs@),
                n <= j,
                n == primary_count(dl.take(j as int), p@),
            decreases docs@.len() - j,
        {
            proof {
                assert(dl.take(j + 1).drop_last() =~= dl.take(j as int));
                assert(dl.take(j + 1).last() == dl[j as int]);
            }
            let q: &str = if docs[j].doc_types.len() > 0 {
                docs[j].doc_types[0].as_str()
            } else {
                "etc"
            };
            proof {
                assert(q@ == doc_primary(dl[j as int]));
            }
            if crate::text::same_text(p, q) {
                n = n + 1;
            }
            j = j + 1;
        }
        proof {
            assert(dl.take(docs@.len() as int) =~= dl);
        }
        if n >= threshold {
            return true;
        }
        i = i + 1;
    }
    false
}


// ---------------------------------------------------------------------------
// Documents of a topic
// ---------------------------------------------------------------------------

/// A document as a topic page uses it: its id, its date, and its text (the
/// full text, or a summary of a long one).
#[derive(Debug, Clone)]
pub struct DocSummary {
    pub id: String,
    pub date: String,
    pub content: String,
}

/// Documents longer than this many characters are summarised first.
pub const SUMMARY_TRIGGER_CHARS: usize = 500;

/// The first `n` characters of `s` (all of it when shorter).
pub open spec fn first_chars(s: Seq<char>, n: nat) -> Seq<char> {
    if s.len() <= n {
        s
    } else {
        s.take(n as int)
    }
}

/// The first `n` characters of `s`.
pub fn take_chars(s: &str, n: usize) -> (r: String)
    ensures
        r@ == first_chars(s@, n as nat),
{
    let c = chars_of(s);
    if c.len() <= n {
        owned(s)
    } else {
        let r = string_from(c.as_slice(), 0, n);
        proof {
            assert(c@.subrange(0, n as int) =~= c@.take(n as int));
        }
        r
    }
}

/// Whether a document's text is long enough to be summarised before it is
/// merged (more than 500 characters).
pub fn needs_summary(content: &str) -> (r: bool)
    ensures
        r == (content@.len() > 500),
{
    chars_of(content).len() > SUMMARY_TRIGGER_CHARS
}

/// The request for a short summary: its first 2000 characters after the
/// instruction.
pub open spec fn summary_prompt_text(content: Seq<char>) -> Seq<char> {
    "이 문서를 200자 이내로 핵심만 요약하세요:\n\n"@ + first_chars(content, 2000)
}

/// The request for a short summary of `content`.
pub fn summary_prompt(content: &str) -> (r: String)
    ensures
        r@ == summary_prompt_text(content@),
{
    let mut r = owned("이 문서를 200자 이내로 핵심만 요약하세요:\n\n");
    let head = take_chars(content, 2000);
    push_str(&mut r, head.as_str());
    r
}

/// The previews of a cluster: the first 100 characters of each of its first
/// five documents.
pub open spec fn previews(docs: Seq<DocSummary>) -> Seq<Seq<char>> {
    let n = if docs.len() < 5 { docs.len() as int } else { 5 };
    Seq::new(n as nat, |i: int| first_chars(docs[i].content@, 100))
}

/// The request for a topic label of a cluster.
pub open spec fn label_prompt_text(docs: Seq<DocSummary>) -> Seq<char> {
    "아래 문서들의 공통 주제를 한국어 10자 이내로 요약하세요. 주제명만 출력.\n\n"@ + join_sep(
        previews(docs),
        seq!['\n'],
    )
}

/// The request for a topic label of the documents `docs`.
pub fn label_prompt(docs: &Vec<DocSummary>) -> (r: String)
    ensures
        r@ == label_prompt_text(docs@),
{
    let n: usize = if docs.len() < 5 { docs.len() } else { 5 };
    let mut items: Vec<String> = Vec::new();
    let mut i: usize = 0;
    while i < n
        invariant
            i <= n <= docs@.len(),
            n == (if docs@.len() < 5 { docs@.len() as int } else { 5 }),
            items@.len() == i,
            forall|k: int| 0 <= k < i ==> (#[trigger] items@[k])@ == first_chars(docs@[k].content@, 100),
        decreases n - i,
    {
        items.push(take_chars(docs[i].content.as_str(), 100));
        i = i + 1;
    }
    proof {
        assert(strs(items@) =~= previews(docs@));
    }
    let mut r = owned("아래 문서들의 공통 주제를 한국어 10자 이내로 요약하세요. 주제명만 출력.\n\n");
    push_joined(&mut r, &items, "\n");
    proof {
        reveal_strlit("\n");
        assert("\n"@ =~= seq!['\n']);
    }
    r
}

/// The label taken from a model's answer: the first line of the trimmed
/// answer, trimmed; `기타` when that is empty.
pub open spec fn clean_label_text(raw: Seq<char>) -> Seq<char> {
    let ls = lines(trim(raw));
    let first = if ls.len() > 0 { trim(ls[0]) } else { "기타"@ };
    if first.len() == 0 {
        "기타"@
    } else {
        first
    }
}

/// The topic label in a model's answer `raw`.
pub fn clean_label(raw: &str) -> (r: String)
    ensures
        r@ == clean_label_text(raw@),
{
    let c = chars_of(raw);
    let (a, b) = trim_range(c.as_slice(), 0, c.len());
    proof {
        assert(c@.subrange(0, c@.len() as int) =~= c@);
    }
    let t = string_from(c.as_slice(), a, b);
    let tc = chars_of(t.as_str());
    let ranges = line_ranges(tc.as_slice());
    proof {
        reveal_strlit("기타");
    }
    if ranges.len() == 0 {
        return owned("기타");
    }
    let (x, y) = ranges[0];
    let (p, q) = trim_range(tc.as_slice(), x, y);
    if p == q {
        owned("기타")
    } else {
        string_from(tc.as_slice(), p, q)
    }
}

/// The name of the `ci`-th cluster (counted from 0) when no label could be
/// had: `토픽_` and its number counted from 1.
pub open spec fn fallback_label_text(ci: nat) -> Seq<char> {
    "토픽_"@ + dec_of(ci + 1)
}

/// The name of the `ci`-th cluster without a label.
pub fn fallback_label(ci: u64) -> (r: String)
    requires
        ci < u64::MAX,
    ensures
        r@ == fallback_label_text(ci as nat),
{
    let mut r = owned("토픽_");
    let n = format_dec(ci + 1);
    push_str(&mut r, n.as_str());
    r
}

/// ` (date)` after a document's number, nothing without a date.
pub open spec fn date_info(date: Seq<char>) -> Seq<char> {
    if date.len() == 0 {
        seq![]
    } else {
        " ("@ + date + ")"@
    }
}

/// The block of the `i`-th document (from 0) in a merge request.
pub open spec fn doc_block(i: nat, d: DocSummary) -> Seq<char> {
    "--- 문서 "@ + dec_of(i + 1) + date_info(d.date@) + " ---\n"@ + d.content@
}

/// The blocks of all documents.
pub open spec fn doc_blocks(docs: Seq<DocSummary>) -> Seq<Seq<char>> {
    Seq::new(docs.len(), |i: int| doc_block(i as nat, docs[i]))
}

/// The request for a topic page on `title`, of type `doc_type`, from `docs`.
pub open spec fn topic_prompt_text(doc_type: Seq<char>, title: Seq<char>, docs: Seq<DocSummary>) -> Seq<
    char,
> {
    doc_type + " 유형 '"@ + title + "' 토픽, 문서 "@ + dec_of(docs.len()) + topic_instructions_text()
        + join_sep(doc_blocks(docs), "\n\n"@)
}

/// The instructions of a topic request, between the number of documents and
/// the documents.
pub open spec fn topic_instructions_text() -> Seq<char> {
    "개를 종합하세요.\n\n## 지시사항\n1. 시간순 정렬 (날짜 명시)\n2. 중복 제거\n3. 모순 발견 시: \"⚠️ 모순: 문서N에서는 X, 문서M에서는 Y\"\n4. 각 항목 뒤 출처: (문서N)\n5. 섹션 분리: 타임라인 / 핵심 결정사항 / 미해결 사항 / 모순\n\n## 출력 형식\n### 타임라인\n- YYYY-MM-DD: 내용 (문서N)\n\n### 핵심 결정사항\n- ...\n\n### 미해결 사항\n- ...\n\n### 모순/불일치\n- ⚠️ ...\n\n## 문서\n\n"@
}

/// The instructions of a topic request.
fn topic_instructions() -> (r: &'static str)
    ensures
        r@ == topic_instructions_text(),
{
    "개를 종합하세요.\n\n## 지시사항\n1. 시간순 정렬 (날짜 명시)\n2. 중복 제거\n3. 모순 발견 시: \"⚠️ 모순: 문서N에서는 X, 문서M에서는 Y\"\n4. 각 항목 뒤 출처: (문서N)\n5. 섹션 분리: 타임라인 / 핵심 결정사항 / 미해결 사항 / 모순\n\n## 출력 형식\n### 타임라인\n- YYYY-MM-DD: 내용 (문서N)\n\n### 핵심 결정사항\n- ...\n\n### 미해결 사항\n- ...\n\n### 모순/불일치\n- ⚠️ ...\n\n## 문서\n\n"
}

/// The block of one document in a merge request.
fn doc_block_text(i: u64, d: &DocSummary) -> (r: String)
    requires
        i < u64::MAX,
    ensures
        r@ == doc_block(i as nat, *d),
{
    let mut r = owned("--- 문서 ");
    let n = format_dec(i + 1);
    push_str(&mut r, n.as_str());
    if chars_of(d.date.as_str()).len() > 0 {
        push_str(&mut r, " (");
        push_str(&mut r, d.date.as_str());
        push_str(&mut r, ")");
    }
    push_str(&mut r, " ---\n");
    push_str(&mut r, d.content.as_str());
    r
}

/// The request for a topic page.
pub fn topic_prompt(doc_type: &str, title: &str, docs: &Vec<DocSummary>) -> (r: String)
    requires
        docs@.len() < u64::MAX,
    ensures
        r@ == topic_prompt_text(doc_type@, title@, docs@),
{
    let mut blocks: Vec<String> = Vec::new();
    let mut i: usize = 0;
    while i < docs.len()
        invariant
            i <= docs@.len() < u64::MAX,
            blocks@.len() == i,
            forall|k: int| 0 <= k < i ==> (#[trigger] blocks@[k])@ == doc_block(k as nat, docs@[k]),
        decreases docs@.len() - i,
    {
        blocks.push(doc_block_text(i as u64, &docs[i]));
        i = i + 1;
    }
    proof {
        assert(strs(blocks@) =~= doc_blocks(docs@));
    }
    let mut r = owned(doc_type);
    push_str(&mut r, " 유형 '");
    push_str(&mut r, title);
    push_str(&mut r, "' 토픽, 문서 ");
    let n = format_dec(docs.len() as u64);
    push_str(&mut r, n.as_str());
    push_str(&mut r, topic_instructions());
    push_joined(&mut r, &blocks, "\n\n");
    r
}

/// The coverage level of a topic with `n` sources.
pub open spec fn coverage_level(n: nat) -> Seq<char> {
    if n >= 10 {
        "high"@
    } else if n >= 3 {
        "medium"@
    } else {
        "low"@
    }
}

/// The line of sources of the `i`-th document (from 0).
pub open spec fn source_line(i: nat, d: DocSummary) -> Seq<char> {
    dec_of(i + 1) + ". "@ + d.id@ + " ("@ + d.date@ + ")"@
}

/// The source lines of all documents.
pub open spec fn source_lines(docs: Seq<DocSummary>) -> Seq<Seq<char>> {
    Seq::new(docs.len(), |i: int| source_line(i as nat, docs[i]))
}

/// A topic page: its title, its coverage tag, the number of documents, the
/// generated text, and the numbered sources.
pub open spec fn topic_page_text(title: Seq<char>, content: Seq<char>, docs: Seq<DocSummary>) -> Seq<
    char,
> {
    "# "@ + title + "\n\n[coverage: "@ + coverage_level(docs.len()) + " -- "@ + dec_of(docs.len())
        + " sources]\n\n> "@ + dec_of(docs.len()) + " 문서 종합\n\n"@ + content + "\n\n## 출처\n\n"@
        + join_sep(source_lines(docs), seq!['\n']) + seq!['\n']
}

/// The page of a topic around the generated text `content`.
pub fn topic_page(title: &str, content: &str, docs: &Vec<DocSummary>) -> (r: String)
    requires
        docs@.len() < u64::MAX,
    ensures
        r@ == topic_page_text(title@, content@, docs@),
{
    let mut lines_v: Vec<String> = Vec::new();
    let mut i: usize = 0;
    while i < docs.len()
        invariant
            i <= docs@.len() < u64::MAX,
            lines_v@.len() == i,
            forall|k: int| 0 <= k < i ==> (#[trigger] lines_v@[k])@ == source_line(k as nat, docs@[k]),
        decreases docs@.len() - i,
    {
        let mut l = format_dec(i as u64 + 1);
        push_str(&mut l, ". ");
        push_str(&mut l, docs[i].id.as_str());
        push_str(&mut l, " (");
        push_str(&mut l, docs[i].date.as_str());
        push_str(&mut l, ")");
        lines_v.push(l);
        i = i + 1;
    }
    proof {
        assert(strs(lines_v@) =~= source_lines(docs@));
    }
    let n = format_dec(docs.len() as u64);
    let level = if docs.len() >= 10 {
        "high"
    } else if docs.len() >= 3 {
        "medium"
    } else {
        "low"
    };
    let mut r = owned("# ");
    push_str(&mut r, title);
    push_str(&mut r, "\n\n[coverage: ");
    push_str(&mut r, level);
    push_str(&mut r, " -- ");
    push_str(&mut r, n.as_str());
    push_str(&mut r, " sources]\n\n> ");
    push_str(&mut r, n.as_str());
    push_str(&mut r, " 문서 종합\n\n");
    push_str(&mut r, content);
    push_str(&mut r, "\n\n## 출처\n\n");
    push_joined(&mut r, &lines_v, "\n");
    push_char(&mut r, '\n');
    proof {
        reveal_strlit("\n");
        assert("\n"@ =~= seq!['\n']);
    }
    r
}

/// The positions of the documents whose primary type is `t`.
pub open spec fn primary_positions(types: Seq<Seq<Seq<char>>>, t: Seq<char>) -> Seq<usize>
    decreases types.len(),
{
    if types.len() == 0 {
        seq![]
    } else {
        let r = primary_positions(types.drop_last(), t);
        if doc_primary(types.last()) == t {
            r.push((types.len() - 1) as usize)
        } else {
            r
        }
    }
}

/// The primary types of the documents, each once, in order of first
/// appearance.
pub open spec fn primaries_in_order(types: Seq<Seq<Seq<char>>>) -> Seq<Seq<char>>
    decreases types.len(),
{
    if types.len() == 0 {
        seq![]
    } else {
        let r = primaries_in_order(types.drop_last());
        let t = doc_primary(types.last());
        if r.contains(t) {
            r
        } else {
            r.push(t)
        }
    }
}

/// The documents grouped by primary type: each type (in order of first
/// appearance) with the positions of its documents, in listing order.
pub open spec fn primary_groups(types: Seq<Seq<Seq<char>>>) -> Seq<(Seq<char>, Seq<usize>)> {
    let ps = primaries_in_order(types);
    Seq::new(ps.len(), |i: int| (ps[i], primary_positions(types, ps[i])))
}

/// The plain values of groups.
pub open spec fn group_views(g: Seq<(String, Vec<usize>)>) -> Seq<(Seq<char>, Seq<usize>)> {
    Seq::new(g.len(), |k: int| (g[k].0@, g[k].1@))
}

/// A type with documents is among the primary types.
proof fn lemma_positions_listed(types: Seq<Seq<Seq<char>>>, t: Seq<char>)
    ensures
        primary_positions(types, t).len() > 0 ==> primaries_in_order(types).contains(t),
    decreases types.len(),
{
    if types.len() > 0 {
        let pre = types.drop_last();
        lemma_positions_listed(pre, t);
        let r = primaries_in_order(pre);
        if primary_positions(types, t).len() > 0 {
            if doc_primary(types.last()) == t {
                if !r.contains(t) {
                    assert(primaries_in_order(types) == r.push(t));
                    assert(r.push(t)[r.len() as int] == t);
                }
            } else {
                if r.contains(t) && !r.contains(doc_primary(types.last())) {
                    let k = choose|k: int| 0 <= k < r.len() && r[k] == t;
                    assert(r.push(doc_primary(types.last()))[k] == t);
                }
            }
        }
    }
}

/// The documents grouped by primary type (their first type, `etc` without
/// one): each type in order of first appearance, with the positions of its
/// documents in listing order.
pub fn group_by_primary_type(docs: &[crate::models::StoredDocSummary]) -> (r: Vec<(String, Vec<usize>)>)
    ensures
        group_views(r@) == primary_groups(doc_type_lists(docs@)),
{
    let ghost dl = doc_type_lists(docs@);
    let mut groups: Vec<(String, Vec<usize>)> = Vec::new();
    let mut i: usize = 0;
    proof {
        assert(group_views(groups@) =~= primary_groups(dl.take(0)));
    }
    while i < docs.len()
        invariant
            i <= docs@.len(),
            dl == doc_type_lists(docs@),
            group_views(groups@) == primary_groups(dl.take(i as int)),
        decreases docs@.len() - i,
    {
        let ghost pre = dl.take(i as int);
        let ghost cur = dl.take(i + 1);
        proof {
            assert(cur.drop_last() =~= pre);
            assert(cur.last() == dl[i as int]);
        }
        let p: &str = if docs[i].doc_types.len() > 0 {
            docs[i].doc_types[0].as_str()
        } else {
            "etc"
        };
        proof {
            assert(p@ == doc_primary(dl[i as int]));
        }
        let ghost before = group_views(groups@);
        let ghost ps = primaries_in_order(pre);
        let found = find_group(&groups, p);
        if let Some(k) = found {
            let mut ids = groups[k].1.clone();
            ids.push(i);
            let name = groups[k].0.clone();
            groups.set(k, (name, ids));
            proof {
                assert(before.len() == ps.len());
                assert(group_views(groups@)[k as int].0 == groups@[k as int].0@);
                assert(before[k as int].0 == ps[k as int]);
                assert(ps[k as int] == p@);
                assert(ps.contains(p@));
                assert(primaries_in_order(cur) == ps);
                assert(group_views(groups@) =~= primary_groups(cur)) by {
                    assert forall|m: int| 0 <= m < ps.len() implies group_views(groups@)[m]
                        == #[trigger] primary_groups(cur)[m] by {
                        if m != k {
                            assert(before[m] == (ps[m], primary_positions(pre, ps[m])));
                            assert(ps[m] != p@) by {
                                if ps[m] == p@ {
                                    lemma_primaries_unique(pre);
                                }
                            }
                        }
                    }
                }
            }
        } else {
            proof {
                assert(before.len() == ps.len());
                assert(before.len() == groups@.len());
                assert(!ps.contains(p@)) by {
                    if ps.contains(p@) {
                        let m = choose|m: int| 0 <= m < ps.len() && ps[m] == p@;
                        assert(group_views(groups@)[m].0 == groups@[m].0@);
                        assert(before[m].0 == ps[m]);
                    }
                }
                lemma_positions_listed(pre, p@);
            }
            let mut ids: Vec<usize> = Vec::new();
            ids.push(i);
            groups.push((owned(p), ids));
            proof {
                assert(primaries_in_order(cur) == ps.push(p@));
                assert(primary_positions(pre, p@) =~= Seq::<usize>::empty());
                assert(group_views(groups@) =~= primary_groups(cur)) by {
                    assert forall|m: int| 0 <= m < ps.len() + 1 implies group_views(groups@)[m]
                        == #[trigger] primary_groups(cur)[m] by {
                        if m < ps.len() {
                            assert(before[m] == (ps[m], primary_positions(pre, ps[m])));
                            assert(ps[m] != p@);
                        }
                    }
                }
            }
        }
        i = i + 1;
    }
    proof {
        assert(dl.take(docs@.len() as int) =~= dl);
    }
    groups
}

/// Each document belongs to the group of its primary type and to no other:
/// the positions under `t` are exactly those of the documents whose primary
/// type is `t`.
pub proof fn lemma_groups_partition(types: Seq<Seq<Seq<char>>>, t: Seq<char>)
    requires
        types.len() <= usize::MAX,
    ensures
        forall|m: int|
            0 <= m < primary_positions(types, t).len() ==> (#[trigger] primary_positions(types, t)[m])
                < types.len() && doc_primary(types[primary_positions(types, t)[m] as int]) == t,
        forall|j: int|
            0 <= j < types.len() && doc_primary(#[trigger] types[j]) == t ==> primary_positions(
                types,
                t,
            ).contains(j as usize),
    decreases types.len(),
{
    if types.len() > 0 {
        let pre = types.drop_last();
        lemma_groups_partition(pre, t);
        let r = primary_positions(pre, t);
        let n = types.len() - 1;
        let q = primary_positions(types, t);
        assert forall|m: int| 0 <= m < q.len() implies (#[trigger] q[m]) < types.len() && doc_primary(
            types[q[m] as int],
        ) == t by {
            if m < r.len() {
                assert(q[m] == r[m]);
                assert(types[r[m] as int] == pre[r[m] as int]);
            }
        }
        assert forall|j: int| 0 <= j < types.len() && doc_primary(#[trigger] types[j]) == t implies q.contains(
            j as usize,
        ) by {
            if j < n {
                assert(types[j] == pre[j]);
                let m = choose|m: int| 0 <= m < r.len() && r[m] == j as usize;
                assert(q[m] == r[m]);
            } else {
                assert(q[r.len() as int] == n as usize);
            }
        }
    }
}

/// The position of the group named `p`.
fn find_group(groups: &Vec<(String, Vec<usize>)>, p: &str) -> (r: Option<usize>)
    ensures
        match r {
            Some(k) => k < groups@.len() && groups@[k as int].0@ == p@,
            None => forall|m: int| 0 <= m < groups@.len() ==> (#[trigger] groups@[m]).0@ != p@,
        },
{
    let mut k: usize = 0;
    while k < groups.len()
        invariant
            k <= groups@.len(),
            forall|m: int| 0 <= m < k ==> (#[trigger] groups@[m]).0@ != p@,
        decreases groups@.len() - k,
    {
        if same_text(groups[k].0.as_str(), p) {
            return Some(k);
        }
        k = k + 1;
    }
    None
}

/// Each primary type is listed once.
proof fn lemma_primaries_unique(types: Seq<Seq<Seq<char>>>)
    ensures
        forall|a: int, b: int|
            0 <= a < b < primaries_in_order(types).len() ==> primaries_in_order(types)[a]
                != primaries_in_order(types)[b],
    decreases types.len(),
{
    if types.len() > 0 {
        let pre = types.drop_last();
        lemma_primaries_unique(pre);
        let r = primaries_in_order(pre);
        let t = doc_primary(types.last());
        if !r.contains(t) {
            let q = r.push(t);
            assert forall|a: int, b: int| 0 <= a < b < q.len() implies q[a] != q[b] by {
                if b == r.len() {
                    assert(q[a] == r[a]);
                    if q[a] == t {
                        assert(r.contains(t));
                    }
                } else {
                    assert(q[a] == r[a] && q[b] == r[b]);
                }
            }
        }
    }
}

// ---------------------------------------------------------------------------
// Reports
// ---------------------------------------------------------------------------

/// Counts of a merge of documents into topic pages, and the errors.
#[derive(Debug, Clone)]
pub struct TopicMergeReport {
    pub topics_created: u64,
    pub topics_revised: u64,
    pub documents_merged: u64,
    pub clusters_found: u64,
    pub errors: Vec<String>,
}

impl Default for TopicMergeReport {
    fn default() -> (r: Self)
        ensures
            r.topics_created == 0,
            r.topics_revised == 0,
            r.documents_merged == 0,
            r.clusters_found == 0,
            r.errors@.len() == 0,
    {
        TopicMergeReport {
            topics_created: 0,
            topics_revised: 0,
            documents_merged: 0,
            clusters_found: 0,
            errors: Vec::new(),
        }
    }
}

/// Merges the documents of each type into topic pages.
pub struct TopicMerger;


// ---------------------------------------------------------------------------
// Clusters of documents
// ---------------------------------------------------------------------------

/// Clustering stops once at most `max(n / max_size, 2)` clusters remain.
pub open spec fn stop_spec(cluster_count: nat, n: nat, max_size: nat) -> bool {
    let floor = n / max_size;
    cluster_count <= if floor > 2 { floor } else { 2 }
}

/// Whether clustering `n` documents into clusters of at most `max_size`
/// stops with `cluster_count` clusters left.
pub fn clustering_done(cluster_count: usize, n: usize, max_size: usize) -> (r: bool)
    requires
        max_size > 0,
    ensures
        r == stop_spec(cluster_count as nat, n as nat, max_size as nat),
{
    let floor = n / max_size;
    cluster_count <= if floor > 2 { floor } else { 2 }
}

/// The number of documents in the clusters `s` and `t` of `a`.
pub open spec fn members_of(a: Seq<usize>, s: usize, t: usize) -> nat
    decreases a.len(),
{
    if a.len() == 0 {
        0
    } else {
        members_of(a.drop_last(), s, t) + if a.last() == s || a.last() == t {
            1nat
        } else {
            0nat
        }
    }
}

/// The size of the cluster that merging the clusters of documents `i` and
/// `j` would make.
pub fn merged_cluster_size(assignments: &Vec<usize>, i: usize, j: usize) -> (r: usize)
    requires
        i < assignments@.len(),
        j < assignments@.len(),
    ensures
        r == members_of(assignments@, assignments@[i as int], assignments@[j as int]),
{
    let s = assignments[i];
    let t = assignments[j];
    let mut n: usize = 0;
    let mut k: usize = 0;
    while k < assignments.len()
        invariant
            k <= assignments@.len(),
            n <= k,
            n == members_of(assignments@.take(k as int), s, t),
        decreases assignments@.len() - k,
    {
        proof {
            assert(assignments@.take(k + 1).drop_last() =~= assignments@.take(k as int));
        }
        if assignments[k] == s || assignments[k] == t {
            n = n + 1;
        }
        k = k + 1;
    }
    proof {
        assert(assignments@.take(k as int) =~= assignments@);
    }
    n
}

/// Assignments after merging the cluster of `j` into the cluster of `i`.
pub open spec fn merge_spec(a: Seq<usize>, i: int, j: int) -> Seq<usize> {
    Seq::new(a.len(), |k: int| if a[k] == a[j] { a[i] } else { a[k] })
}

/// Merges the cluster of document `j` into the cluster of document `i`:
/// every document of `j`'s cluster takes `i`'s cluster id.
pub fn merge_clusters(assignments: &mut Vec<usize>, i: usize, j: usize)
    requires
        i < old(assignments)@.len(),
        j < old(assignments)@.len(),
    ensures
        final(assignments)@ == merge_spec(old(assignments)@, i as int, j as int),
{
    let ghost a0 = assignments@;
    let target = assignments[i];
    let source = assignments[j];
    let mut k: usize = 0;
    while k < assignments.len()
        invariant
            k <= assignments@.len(),
            assignments@.len() == a0.len(),
            target == a0[i as int],
            source == a0[j as int],
            forall|m: int| 0 <= m < k ==> #[trigger] assignments@[m] == merge_spec(a0, i as int, j as int)[m],
            forall|m: int| k <= m < a0.len() ==> #[trigger] assignments@[m] == a0[m],
        decreases assignments@.len() - k,
    {
        if assignments[k] == source {
            assignments.set(k, target);
        }
        k = k + 1;
    }
    proof {
        assert(assignments@ =~= merge_spec(a0, i as int, j as int));
    }
}

/// The distinct cluster ids of `a`, in order of first appearance.
pub open spec fn cluster_ids(a: Seq<usize>) -> Seq<usize>
    decreases a.len(),
{
    if a.len() == 0 {
        seq![]
    } else if cluster_ids(a.drop_last()).contains(a.last()) {
        cluster_ids(a.drop_last())
    } else {
        cluster_ids(a.drop_last()).push(a.last())
    }
}

/// The documents of cluster `id`, in increasing order.
pub open spec fn members(a: Seq<usize>, id: usize) -> Seq<usize>
    decreases a.len(),
{
    if a.len() == 0 {
        seq![]
    } else if a.last() == id {
        members(a.drop_last(), id).push((a.len() - 1) as usize)
    } else {
        members(a.drop_last(), id)
    }
}

/// The clusters of `a`: for each cluster id in order of first appearance,
/// its documents in increasing order.
pub open spec fn clusters_spec(a: Seq<usize>) -> Seq<Seq<usize>> {
    Seq::new(cluster_ids(a).len(), |g: int| members(a, cluster_ids(a)[g]))
}

/// The members of `id` are exactly the documents assigned to it.
pub proof fn lemma_members(a: Seq<usize>, id: usize)
    requires
        a.len() <= usize::MAX,
    ensures
        forall|m: int| 0 <= m < members(a, id).len() ==> (#[trigger] members(a, id)[m]) < a.len()
            && a[members(a, id)[m] as int] == id,
        forall|k: int| 0 <= k < a.len() && a[k] == id ==> #[trigger] members(a, id).contains(k as usize),
        forall|m1: int, m2: int|
            0 <= m1 < m2 < members(a, id).len() ==> members(a, id)[m1] < members(a, id)[m2],
    decreases a.len(),
{
    if a.len() > 0 {
        let pre = a.drop_last();
        lemma_members(pre, id);
        let r = members(pre, id);
        let q = members(a, id);
        assert forall|m: int| 0 <= m < q.len() implies (#[trigger] q[m]) < a.len() && a[q[m] as int] == id by {
            if m < r.len() {
                assert(q[m] == r[m]);
                assert(a[r[m] as int] == pre[r[m] as int]);
            }
        }
        assert forall|k: int| 0 <= k < a.len() && a[k] == id implies #[trigger] q.contains(k as usize) by {
            if k < a.len() - 1 {
                assert(a[k] == pre[k]);
                assert(r.contains(k as usize));
                let m = choose|m: int| 0 <= m < r.len() && r[m] == k as usize;
                if a.last() == id {
                    assert(q == r.push((a.len() - 1) as usize));
                } else {
                    assert(q == r);
                }
                assert(q[m] == r[m]);
            } else {
                assert(q == r.push((a.len() - 1) as usize));
                assert(q[r.len() as int] == k as usize);
            }
        }
    }
}

/// The cluster ids are distinct, and are exactly the ids in use.
pub proof fn lemma_cluster_ids(a: Seq<usize>)
    ensures
        cluster_ids(a).no_duplicates(),
        forall|x: usize| #[trigger] cluster_ids(a).contains(x) <==> a.contains(x),
    decreases a.len(),
{
    if a.len() > 0 {
        let pre = a.drop_last();
        lemma_cluster_ids(pre);
        let ci = cluster_ids(pre);
        let y = a.last();
        assert(a == pre.push(y));
        assert forall|x: usize| a.contains(x) <==> (pre.contains(x) || x == y) by {
            if a.contains(x) {
                let k = choose|k: int| 0 <= k < a.len() && a[k] == x;
                if k < a.len() - 1 {
                    assert(pre[k] == x);
                }
            }
            if pre.contains(x) {
                let k = choose|k: int| 0 <= k < pre.len() && pre[k] == x;
                assert(a[k] == x);
            }
            if x == y {
                assert(a[a.len() - 1] == x);
            }
        }
        if ci.contains(y) {
            assert(cluster_ids(a) == ci);
            assert forall|x: usize| #[trigger] cluster_ids(a).contains(x) <==> a.contains(x) by {
                assert(ci.contains(x) <==> pre.contains(x));
            }
        } else {
            assert(cluster_ids(a) == ci.push(y));
            assert forall|x: usize| #[trigger] cluster_ids(a).contains(x) <==> a.contains(x) by {
                assert(ci.contains(x) <==> pre.contains(x));
                if ci.push(y).contains(x) {
                    let g = choose|g: int| 0 <= g < ci.push(y).len() && ci.push(y)[g] == x;
                    if g < ci.len() {
                        assert(ci[g] == x);
                    }
                }
                if ci.contains(x) {
                    let g = choose|g: int| 0 <= g < ci.len() && ci[g] == x;
                    assert(ci.push(y)[g] == x);
                }
                if x == y {
                    assert(ci.push(y)[ci.len() as int] == x);
                }
            }
            assert forall|g1: int, g2: int| 0 <= g1 < ci.push(y).len() && 0 <= g2 < ci.push(y).len() && g1 != g2
                implies ci.push(y)[g1] != ci.push(y)[g2] by {
                if g1 < ci.len() && g2 < ci.len() {
                } else if g1 < ci.len() {
                    assert(ci.contains(ci[g1]));
                } else if g2 < ci.len() {
                    assert(ci.contains(ci[g2]));
                }
            }
        }
    }
}

/// The cluster of document `k`: the position of its id among the cluster ids.
pub open spec fn cluster_of(a: Seq<usize>, k: int) -> int {
    choose|g: int| 0 <= g < cluster_ids(a).len() && cluster_ids(a)[g] == a[k]
}

/// The clusters partition the documents: every document lies in exactly one
/// cluster, every cluster is non-empty and lists its documents in
/// increasing order, and the documents of a cluster share its id.
pub proof fn lemma_clusters_partition(a: Seq<usize>)
    requires
        a.len() <= usize::MAX,
    ensures
        forall|k: int|
            #![trigger cluster_of(a, k)]
            0 <= k < a.len() ==> 0 <= cluster_of(a, k) < clusters_spec(a).len() && clusters_spec(a)[cluster_of(
                a,
                k,
            )].contains(k as usize),
        forall|k: int, g1: int, g2: int|
            #![trigger clusters_spec(a)[g1].contains(k as usize), clusters_spec(a)[g2].contains(k as usize)]
            0 <= k < a.len() && 0 <= g1 < clusters_spec(a).len() && 0 <= g2 < clusters_spec(a).len()
                && clusters_spec(a)[g1].contains(k as usize) && clusters_spec(a)[g2].contains(k as usize) ==> g1 == g2,
        forall|g: int| 0 <= g < clusters_spec(a).len() ==> (#[trigger] clusters_spec(a)[g]).len() > 0,
        forall|g: int, m: int|
            0 <= g < clusters_spec(a).len() && 0 <= m < clusters_spec(a)[g].len() ==> (#[trigger] clusters_spec(a)[g][m])
                < a.len() && a[clusters_spec(a)[g][m] as int] == cluster_ids(a)[g],
{
    let ids = cluster_ids(a);
    let cs = clusters_spec(a);
    lemma_cluster_ids(a);
    assert forall|g: int| #![trigger ids[g]] 0 <= g < ids.len() implies {
        &&& forall|m: int| 0 <= m < members(a, ids[g]).len() ==> (#[trigger] members(a, ids[g])[m]) < a.len()
            && a[members(a, ids[g])[m] as int] == ids[g]
        &&& forall|k: int| 0 <= k < a.len() && a[k] == ids[g] ==> #[trigger] members(a, ids[g]).contains(k as usize)
    } by {
        lemma_members(a, ids[g]);
    }
    assert forall|k: int| #![trigger cluster_of(a, k)] 0 <= k < a.len() implies 0 <= cluster_of(a, k) < cs.len()
        && cs[cluster_of(a, k)].contains(k as usize) by {
        assert(a.contains(a[k]));
        assert(ids.contains(a[k]));
        let g = cluster_of(a, k);
        assert(cs[g] == members(a, ids[g]));
        assert(cs[g].contains(k as usize));
    }
    assert forall|k: int, g1: int, g2: int|
        #![trigger cs[g1].contains(k as usize), cs[g2].contains(k as usize)]
        0 <= k < a.len() && 0 <= g1 < cs.len() && 0 <= g2 < cs.len() && cs[g1].contains(k as usize)
            && cs[g2].contains(k as usize) implies g1 == g2 by {
        let m1 = choose|m: int| 0 <= m < cs[g1].len() && cs[g1][m] == k as usize;
        let m2 = choose|m: int| 0 <= m < cs[g2].len() && cs[g2][m] == k as usize;
        assert(cs[g1] == members(a, ids[g1]));
        assert(cs[g2] == members(a, ids[g2]));
        assert(a[cs[g1][m1] as int] == ids[g1]);
        assert(a[cs[g2][m2] as int] == ids[g2]);
    }
    assert forall|g: int| 0 <= g < cs.len() implies (#[trigger] cs[g]).len() > 0 by {
        assert(ids.contains(ids[g]));
        assert(a.contains(ids[g]));
        let k = choose|k: int| 0 <= k < a.len() && a[k] == ids[g];
        assert(cs[g] == members(a, ids[g]));
        assert(cs[g].contains(k as usize));
    }
    assert forall|g: int, m: int| 0 <= g < cs.len() && 0 <= m < cs[g].len() implies (#[trigger] cs[g][m]) < a.len()
        && a[cs[g][m] as int] == ids[g] by {
        assert(cs[g] == members(a, ids[g]));
    }
}

/// The clusters of the documents, as lists of document positions: one per
/// cluster id, in order of first appearance, each in increasing order.
pub fn group_clusters(assignments: &Vec<usize>) -> (r: Vec<Vec<usize>>)
    ensures
        r@.len() == clusters_spec(assignments@).len(),
        forall|g: int| 0 <= g < r@.len() ==> (#[trigger] r@[g])@ == clusters_spec(assignments@)[g],
{
    let ghost a = assignments@;
    let mut ids: Vec<usize> = Vec::new();
    let mut groups: Vec<Vec<usize>> = Vec::new();
    let mut k: usize = 0;
    while k < assignments.len()
        invariant
            k <= a.len(),
            a == assignments@,
            ids@ == cluster_ids(a.take(k as int)),
            groups@.len() == ids@.len(),
            forall|g: int| 0 <= g < groups@.len() ==> (#[trigger] groups@[g])@ == members(a.take(k as int), ids@[g]),
        decreases a.len() - k,
    {
        let x = assignments[k];
        let ghost pre = a.take(k as int);
        let ghost cur = a.take(k + 1);
        proof {
            assert(cur.drop_last() =~= pre);
            assert(cur.last() == x);
            lemma_cluster_ids(pre);
        }
        let mut g: usize = 0;
        while g < ids.len() && ids[g] != x
            invariant
                g <= ids@.len(),
                forall|h: int| 0 <= h < g ==> ids@[h] != x,
            decreases ids@.len() - g,
        {
            g = g + 1;
        }
        let ghost old_groups = groups@;
        if g < ids.len() {
            let mut grp = groups[g].clone();
            grp.push(k);
            groups.set(g, grp);
            proof {
                assert(cluster_ids(pre).contains(x));
                assert forall|h: int| 0 <= h < groups@.len() implies (#[trigger] groups@[h])@ == members(cur, ids@[h]) by {
                    if h != g {
                        assert(groups@[h] == old_groups[h]);
                    }
                }
            }
        } else {
            proof {
                assert(!cluster_ids(pre).contains(x));
                assert(!pre.contains(x));
                lemma_members(pre, x);
                if members(pre, x).len() > 0 {
                    assert(members(pre, x).contains(members(pre, x)[0]));
                    assert(pre[members(pre, x)[0] as int] == x);
                }
                assert(members(pre, x) =~= Seq::<usize>::empty());
            }
            ids.push(x);
            let mut grp: Vec<usize> = Vec::new();
            grp.push(k);
            groups.push(grp);
            proof {
                assert(members(cur, x) =~= seq![k]);
                assert forall|h: int| 0 <= h < groups@.len() implies (#[trigger] groups@[h])@ == members(cur, ids@[h]) by {
                    if h < old_groups.len() {
                        assert(groups@[h] == old_groups[h]);
                    }
                }
            }
        }
        k = k + 1;
    }
    proof {
        assert(a.take(k as int) =~= a);
    }
    groups
}

} // verus!
