//! Decision trace identifiers and short output summaries.

use vstd::prelude::*;
use crate::clock::now_nanos;
use crate::text::{chars_of, owned, push_char, push_str, string_of};

verus! {

/// Identifier that ties together the decisions of one request, one processed
/// file or one search.
#[derive(Debug, Clone, PartialEq, Eq, Hash)]
pub struct TraceId(String);

impl View for TraceId {
    type V = Seq<char>;

    closed spec fn view(&self) -> Seq<char> {
        self.0@
    }
}

/// Lowercase hexadecimal digits of `n`, most significant first (`[]` for 0).
pub open spec fn hex_digits(n: nat) -> Seq<char>
    decreases n,
{
    if n == 0 {
        seq![]
    } else {
        hex_digits(n / 16) + seq![hex_char((n % 16) as nat)]
    }
}

/// The lowercase hexadecimal digit for `d < 16`.
pub open spec fn hex_char(d: nat) -> char {
    if d < 10 {
        ((d + 48) as u32) as char
    } else {
        ((d + 87) as u32) as char
    }
}

/// `n` in lowercase hexadecimal, at least one digit.
pub open spec fn hex_of(n: nat) -> Seq<char> {
    if n == 0 {
        seq!['0']
    } else {
        hex_digits(n)
    }
}

/// `n` in lowercase hexadecimal, padded with `'0'` to at least `width` digits
/// (what `format!("{:0width$x}", n)` gives).
pub open spec fn hex_padded(n: nat, width: nat) -> Seq<char> {
    let h = hex_of(n);
    if h.len() >= width {
        h
    } else {
        Seq::new((width - h.len()) as nat, |i: int| '0') + h
    }
}

fn hex_digit(d: u128) -> (c: char)
    requires
        d < 16,
    ensures
        c == hex_char(d as nat),
{
    let d8 = d as u8;
    let c = if d8 < 10 {
        ((d8 + 48) as char)
    } else {
        ((d8 + 87) as char)
    };
    c
}

/// `n` in lowercase hexadecimal, zero-padded to `width` digits.
pub fn format_hex(n: u128, width: usize) -> (r: String)
    ensures
        r@ == hex_padded(n as nat, width as nat),
{
    let mut digits: Vec<char> = Vec::new();
    let mut m = n;
    while m > 0
        invariant
            hex_digits(n as nat) == hex_digits(m as nat) + digits@,
        decreases m,
    {
        let d = m % 16;
        let c = hex_digit(d);
        let ghost old_digits = digits@;
        digits.insert(0, c);
        proof {
            assert(hex_digits(m as nat) == hex_digits((m / 16) as nat) + seq![hex_char((m % 16) as nat)]);
            assert(digits@ =~= seq![c] + old_digits);
            assert(hex_digits((m / 16) as nat) + seq![c] + old_digits =~= hex_digits((m / 16) as nat) + digits@);
        }
        m = m / 16;
    }
    proof {
        assert(hex_digits(0) =~= Seq::<char>::empty());
        assert(hex_digits(n as nat) =~= digits@);
    }
    if digits.len() == 0 {
        digits.push('0');
        proof {
            assert(digits@ =~= seq!['0']);
        }
    }
    let mut r = String::new();
    if digits.len() < width {
        let pad = width - digits.len();
        let mut i: usize = 0;
        while i < pad
            invariant
                i <= pad,
                r@ == Seq::new(i as nat, |k: int| '0'),
            decreases pad - i,
        {
            push_char(&mut r, '0');
            proof {
                assert(r@ =~= Seq::new((i + 1) as nat, |k: int| '0'));
            }
            i = i + 1;
        }
    }
    let ghost before = r@;
    crate::text::push_chars(&mut r, digits.as_slice(), 0, digits.len());
    proof {
        assert(digits@.subrange(0, digits@.len() as int) =~= digits@);
        if digits@.len() >= width {
            assert(before =~= Seq::<char>::empty());
            assert(r@ =~= hex_padded(n as nat, width as nat));
        } else {
            assert(r@ =~= hex_padded(n as nat, width as nat));
        }
    }
    r
}

/// `16^k`.
pub open spec fn p16(k: nat) -> nat
    decreases k,
{
    if k == 0 {
        1
    } else {
        16 * p16((k - 1) as nat)
    }
}

/// The value of a hexadecimal digit.
pub open spec fn digit_value(c: char) -> int {
    if '0' <= c && c <= '9' {
        c as int - 48
    } else {
        c as int - 87
    }
}

/// A lowercase hexadecimal digit.
pub open spec fn is_hex_char(c: char) -> bool {
    ('0' <= c && c <= '9') || ('a' <= c && c <= 'f')
}

/// The number that the hexadecimal digits `s` spell.
pub open spec fn hex_value(s: Seq<char>) -> int
    decreases s.len(),
{
    if s.len() == 0 {
        0
    } else {
        16 * hex_value(s.drop_last()) + digit_value(s.last())
    }
}

proof fn lemma_hex_char(d: nat)
    requires
        d < 16,
    ensures
        is_hex_char(hex_char(d)),
        digit_value(hex_char(d)) == d,
{
    if d < 10 {
        assert(((d + 48) as u32) as char as int == d + 48);
    } else {
        assert(((d + 87) as u32) as char as int == d + 87);
    }
}

proof fn lemma_hex_digits(n: nat, k: nat)
    requires
        n < p16(k),
    ensures
        hex_digits(n).len() <= k,
        hex_value(hex_digits(n)) == n,
        forall|i: int| 0 <= i < hex_digits(n).len() ==> is_hex_char(#[trigger] hex_digits(n)[i]),
    decreases n,
{
    if n > 0 {
        assert(k > 0);
        let m = n / 16;
        assert(m < p16((k - 1) as nat));
        lemma_hex_digits(m, (k - 1) as nat);
        lemma_hex_char(n % 16);
        let h = hex_digits(n);
        assert(h.drop_last() =~= hex_digits(m));
        assert(h.last() == hex_char(n % 16));
        assert forall|i: int| 0 <= i < h.len() implies is_hex_char(#[trigger] h[i]) by {
            if i < h.len() - 1 {
                assert(h[i] == hex_digits(m)[i]);
            }
        }
    }
}

proof fn lemma_zeros_value(k: nat, h: Seq<char>)
    ensures
        hex_value(Seq::new(k, |i: int| '0') + h) == hex_value(h),
    decreases h.len(), k,
{
    if h.len() == 0 {
        if k > 0 {
            assert((Seq::new(k, |i: int| '0') + h).drop_last() =~= Seq::new((k - 1) as nat, |i: int| '0') + h);
            lemma_zeros_value((k - 1) as nat, h);
        } else {
            assert(Seq::new(k, |i: int| '0') + h =~= h);
        }
    } else {
        assert((Seq::new(k, |i: int| '0') + h).drop_last() =~= Seq::new(k, |i: int| '0') + h.drop_last());
        lemma_zeros_value(k, h.drop_last());
    }
}

/// A number below 16^16 takes 16 hex digits padded, which spell it back.
proof fn lemma_hex16(n: nat)
    requires
        n < 0x1_0000_0000_0000_0000,
    ensures
        hex_padded(n, 16).len() == 16,
        hex_value(hex_padded(n, 16)) == n,
        forall|i: int| 0 <= i < 16 ==> is_hex_char(#[trigger] hex_padded(n, 16)[i]),
{
    assert(p16(16) == 0x1_0000_0000_0000_0000) by {
        reveal_with_fuel(p16, 17);
    }
    lemma_hex_digits(n, 16);
    let h = hex_of(n);
    if n == 0 {
        assert(seq!['0'].drop_last() =~= Seq::<char>::empty());
        assert(digit_value('0') == 0);
        assert(hex_value(seq!['0']) == 0);
        assert(is_hex_char(seq!['0'][0]));
    }
    assert(h.len() <= 16);
    assert(hex_value(h) == n);
    assert forall|i: int| 0 <= i < h.len() implies is_hex_char(#[trigger] h[i]) by {}
    if h.len() < 16 {
        lemma_zeros_value((16 - h.len()) as nat, h);
    }
    let p = hex_padded(n, 16);
    assert forall|i: int| 0 <= i < 16 implies is_hex_char(#[trigger] p[i]) by {
        if h.len() < 16 && i < 16 - h.len() {
            assert(p[i] == '0');
        } else if h.len() < 16 {
            assert(p[i] == h[i - (16 - h.len())]);
        }
    }
}

/// The text of a trace identifier in the UUID shape: 32 hex digits in groups
/// of 8, 4, 4, 4 and 12 joined by hyphens. The first 15 digits are the low
/// 64 bits of the clock reading `ts` (without its last digit), the third
/// group starts with the version digit `4`, and the last 16 digits are the
/// sequence number `n`.
pub open spec fn trace_text(ts: nat, n: nat) -> Seq<char> {
    let t = hex_padded(ts % 0x1_0000_0000_0000_0000, 16);
    let c = hex_padded(n, 16);
    t.subrange(0, 8) + seq!['-'] + t.subrange(8, 12) + seq!['-', '4'] + t.subrange(12, 15) + seq!['-']
        + c.subrange(0, 4) + seq!['-'] + c.subrange(4, 16)
}

/// A text in the UUID shape: 36 characters, hyphens at positions 8, 13, 18
/// and 23, and lowercase hex digits elsewhere.
pub open spec fn uuid_shape(s: Seq<char>) -> bool {
    &&& s.len() == 36
    &&& forall|i: int| 0 <= i < 36 ==> (#[trigger] s[i] == '-' <==> (i == 8 || i == 13 || i == 18 || i == 23))
    &&& forall|i: int| 0 <= i < 36 && i != 8 && i != 13 && i != 18 && i != 23 ==> is_hex_char(#[trigger] s[i])
}

/// Every trace text has the UUID shape.
pub proof fn lemma_trace_text_shape(ts: nat, n: nat)
    requires
        n < 0x1_0000_0000_0000_0000,
    ensures
        uuid_shape(trace_text(ts, n)),
{
    let t = hex_padded(ts % 0x1_0000_0000_0000_0000, 16);
    let c = hex_padded(n, 16);
    lemma_hex16(ts % 0x1_0000_0000_0000_0000);
    lemma_hex16(n);
    let s = trace_text(ts, n);
    assert(s.len() == 36);
    assert forall|i: int| 0 <= i < 36 implies (#[trigger] s[i] == '-' <==> (i == 8 || i == 13 || i == 18 || i == 23))
        && (i != 8 && i != 13 && i != 18 && i != 23 ==> is_hex_char(s[i])) by {
        if i < 8 {
            assert(s[i] == t[i]);
        } else if i == 8 {
        } else if i < 13 {
            assert(s[i] == t[i - 1]);
        } else if i == 13 {
        } else if i == 14 {
            assert(s[i] == '4');
        } else if i < 18 {
            assert(s[i] == t[i - 3]);
        } else if i == 18 {
        } else if i < 23 {
            assert(s[i] == c[i - 19]);
        } else if i == 23 {
        } else {
            assert(s[i] == c[i - 20]);
        }
    }
}

/// Trace texts with different sequence numbers differ, whatever the clock.
pub proof fn lemma_trace_text_distinct(ts1: nat, n1: nat, ts2: nat, n2: nat)
    requires
        n1 < 0x1_0000_0000_0000_0000,
        n2 < 0x1_0000_0000_0000_0000,
        n1 != n2,
    ensures
        trace_text(ts1, n1) != trace_text(ts2, n2),
{
    lemma_hex16(ts1 % 0x1_0000_0000_0000_0000);
    lemma_hex16(ts2 % 0x1_0000_0000_0000_0000);
    lemma_hex16(n1);
    lemma_hex16(n2);
    let c1 = hex_padded(n1, 16);
    let c2 = hex_padded(n2, 16);
    if trace_text(ts1, n1) == trace_text(ts2, n2) {
        let s1 = trace_text(ts1, n1);
        let s2 = trace_text(ts2, n2);
        assert forall|j: int| 0 <= j < 16 implies c1[j] == c2[j] by {
            if j < 4 {
                assert(s1[19 + j] == c1[j]);
                assert(s2[19 + j] == c2[j]);
            } else {
                assert(s1[20 + j] == c1[j]);
                assert(s2[20 + j] == c2[j]);
            }
        }
        assert(c1 =~= c2);
    }
}

/// Makes trace identifiers that differ from each other: each takes the next
/// sequence number.
pub struct TraceIdGenerator {
    pub next: u64,
}

impl TraceIdGenerator {
    /// A generator that starts at sequence number 0.
    pub fn new() -> (r: Self)
        ensures
            r.next == 0,
    {
        TraceIdGenerator { next: 0 }
    }

    /// A new trace identifier from the current clock reading (nanoseconds
    /// since the Unix epoch) and the generator's next sequence number, which
    /// is then raised. The clock reading is not stated; two identifiers from
    /// one generator differ by their sequence numbers
    /// (`lemma_trace_text_distinct`), and each has the UUID shape.
    pub fn next_id(&mut self) -> (r: TraceId)
        requires
            old(self).next < u64::MAX,
        ensures
            final(self).next == old(self).next + 1,
            exists|ts: nat| r@ == trace_text(ts, old(self).next as nat),
            uuid_shape(r@),
    {
        let n = self.next;
        self.next = n + 1;
        let ts = now_nanos();
        let r = TraceId::from_parts(ts, n);
        proof {
            lemma_trace_text_shape(ts as nat, n as nat);
        }
        r
    }
}

impl TraceId {
    /// A trace identifier made of the clock reading `ts` and the sequence
    /// number `n`.
    pub fn from_parts(ts: u128, n: u64) -> (r: Self)
        ensures
            r@ == trace_text(ts as nat, n as nat),
    {
        let low = ts % 0x1_0000_0000_0000_0000u128;
        let t = chars_of(format_hex(low, 16).as_str());
        let c = chars_of(format_hex(n as u128, 16).as_str());
        proof {
            lemma_hex16(low as nat);
            lemma_hex16(n as nat);
        }
        let mut s = crate::text::string_from(t.as_slice(), 0, 8);
        push_char(&mut s, '-');
        crate::text::push_chars(&mut s, t.as_slice(), 8, 12);
        push_char(&mut s, '-');
        push_char(&mut s, '4');
        crate::text::push_chars(&mut s, t.as_slice(), 12, 15);
        push_char(&mut s, '-');
        crate::text::push_chars(&mut s, c.as_slice(), 0, 4);
        push_char(&mut s, '-');
        crate::text::push_chars(&mut s, c.as_slice(), 4, 16);
        proof {
            assert(s@ =~= trace_text(ts as nat, n as nat));
        }
        TraceId(s)
    }

    /// A new trace identifier from the current clock reading, with sequence
    /// number 0: a generator of its own. It has the UUID shape; only the
    /// clock tells two such identifiers apart, so callers that need distinct
    /// identifiers draw them from one `TraceIdGenerator`.
    pub fn new() -> (r: Self)
        ensures
            exists|ts: nat| r@ == trace_text(ts, 0),
            uuid_shape(r@),
    {
        let mut g = TraceIdGenerator::new();
        g.next_id()
    }

    /// Accepts a trace identifier given from outside (never fails).
    pub fn from_string(s: &str) -> (r: Self)
        ensures
            r@ == s@,
    {
        TraceId(owned(s))
    }

    /// The identifier's text.
    pub fn as_str(&self) -> (r: &str)
        ensures
            r@ == self@,
    {
        self.0.as_str()
    }

    /// The identifier's text, as `Display` would show it.
    pub fn to_string(&self) -> (r: String)
        ensures
            r@ == self@,
    {
        self.0.clone()
    }
}

/// `s` without its `'\n'` and `'\r'` characters.
pub open spec fn remove_line_breaks(s: Seq<char>) -> Seq<char>
    decreases s.len(),
{
    if s.len() == 0 {
        seq![]
    } else if s.last() == '\n' || s.last() == '\r' {
        remove_line_breaks(s.drop_last())
    } else {
        remove_line_breaks(s.drop_last()).push(s.last())
    }
}

/// The output summary: line breaks removed, then cut to 200 characters with
/// `"..."` appended when longer.
pub open spec fn summary_spec(s: Seq<char>) -> Seq<char> {
    let c = remove_line_breaks(s);
    if c.len() <= 200 {
        c
    } else {
        c.take(200) + seq!['.', '.', '.']
    }
}

/// A one-line summary of an output (at most 200 characters, line breaks
/// removed, `"..."` marking a cut).
pub fn truncate_output_summary(output: &str) -> (r: String)
    ensures
        r@ == summary_spec(output@),
{
    let s = chars_of(output);
    let mut cleaned: Vec<char> = Vec::new();
    let mut i: usize = 0;
    while i < s.len()
        invariant
            i <= s@.len(),
            cleaned@ == remove_line_breaks(s@.take(i as int)),
        decreases s@.len() - i,
    {
        proof {
            assert(s@.take(i + 1).drop_last() =~= s@.take(i as int));
        }
        if s[i] != '\n' && s[i] != '\r' {
            cleaned.push(s[i]);
        }
        i = i + 1;
    }
    proof {
        assert(s@.take(i as int) =~= s@);
    }
    if cleaned.len() <= 200 {
        string_of(cleaned.as_slice())
    } else {
        let mut r = crate::text::string_from(cleaned.as_slice(), 0, 200);
        push_char(&mut r, '.');
        push_char(&mut r, '.');
        push_char(&mut r, '.');
        proof {
            assert(r@ =~= summary_spec(output@));
        }
        r
    }
}

} // verus!
