//! The line diff shown when a new file duplicates a stored one.

use vstd::prelude::*;
use crate::text::{chars_of, dec_of, ends_with, format_dec, owned, push_char, push_str};

verus! {

/// Whether a line of a diff is kept, removed or added.
#[derive(Debug, Clone, Copy, PartialEq, Eq, Structural)]
pub enum DiffTag {
    Equal,
    Delete,
    Insert,
}

/// What `similar::TextDiff::from_lines(old, new)` gives, grouped by
/// `grouped_ops(3)` and read by `iter_changes`: the changed lines with up to
/// three lines of context around each change, in order, each with its tag
/// and its text (with its line break, when it has one).
pub uninterp spec fn line_changes(old: Seq<char>, new: Seq<char>) -> Seq<(DiffTag, Seq<char>)>;

/// The plain values of changes.
pub open spec fn change_views(v: Seq<(DiffTag, String)>) -> Seq<(DiffTag, Seq<char>)> {
    Seq::new(v.len(), |i: int| (v[i].0, v[i].1@))
}

/// `similar::TextDiff::from_lines(old_text, new_text)` with its changes
/// grouped with three lines of context (`grouped_ops(3)`, then
/// `iter_changes` over each operation): the changes as (tag, line text).
/// The result is named `line_changes`; nothing more is stated of the diff
/// algorithm.
#[verifier::external_body]
fn grouped_line_changes(old_text: &str, new_text: &str) -> (r: Vec<(DiffTag, String)>)
    ensures
        change_views(r@) == line_changes(old_text@, new_text@),
{
    let diff = similar::TextDiff::from_lines(old_text, new_text);
    let mut out = Vec::new();
    for group in diff.grouped_ops(3) {
        for op in &group {
            for change in diff.iter_changes(op) {
                let tag = match change.tag() {
                    similar::ChangeTag::Equal => DiffTag::Equal,
                    similar::ChangeTag::Delete => DiffTag::Delete,
                    similar::ChangeTag::Insert => DiffTag::Insert,
                };
                out.push((tag, change.value().to_string()));
            }
        }
    }
    out
}

/// The sign of a tag: `' '`, `'-'` or `'+'`.
pub open spec fn sign_of(t: DiffTag) -> char {
    match t {
        DiffTag::Equal => ' ',
        DiffTag::Delete => '-',
        DiffTag::Insert => '+',
    }
}

/// One line of the rendered diff: the sign, the text, and a line break when
/// the text has none.
pub open spec fn change_line(c: (DiffTag, Seq<char>)) -> Seq<char> {
    let body = seq![sign_of(c.0)] + c.1;
    if ends_with(c.1, seq!['\n']) {
        body
    } else {
        body.push('\n')
    }
}

/// The rendered lines of `cs`, one after the other.
pub open spec fn change_lines(cs: Seq<(DiffTag, Seq<char>)>) -> Seq<char>
    decreases cs.len(),
{
    if cs.len() == 0 {
        seq![]
    } else {
        change_lines(cs.drop_last()) + change_line(cs.last())
    }
}

/// The number of changes of `cs` with the tag `t`.
pub open spec fn tag_count(cs: Seq<(DiffTag, Seq<char>)>, t: DiffTag) -> nat
    decreases cs.len(),
{
    if cs.len() == 0 {
        0
    } else {
        tag_count(cs.drop_last(), t) + if cs.last().0 == t {
            1nat
        } else {
            0nat
        }
    }
}

/// The rendered diff: a header with both labels, the lines, and the numbers
/// of added and removed lines.
pub open spec fn diff_text(old_label: Seq<char>, new_label: Seq<char>, cs: Seq<(DiffTag, Seq<char>)>) -> Seq<
    char,
> {
    "── DIFF ─────────────────────────────────────\n"@ + "--- 기존: "@ + old_label + seq!['\n']
        + "+++ 신규: "@ + new_label + seq!['\n'] + change_lines(cs)
        + "──────────────────────────────────────────────\n"@ + "  +"@ + dec_of(
        tag_count(cs, DiffTag::Insert),
    ) + " 추가  -"@ + dec_of(tag_count(cs, DiffTag::Delete)) + " 삭제\n"@
}

/// A count never exceeds the number of changes.
proof fn lemma_tag_count_le(cs: Seq<(DiffTag, Seq<char>)>, t: DiffTag)
    ensures
        tag_count(cs, t) <= cs.len(),
    decreases cs.len(),
{
    if cs.len() > 0 {
        lemma_tag_count_le(cs.drop_last(), t);
    }
}

/// The diff of `changes` between the texts labelled `old_label` and
/// `new_label`.
pub fn render_changes(old_label: &str, new_label: &str, changes: &Vec<(DiffTag, String)>) -> (r: String)
    ensures
        r@ == diff_text(old_label@, new_label@, change_views(changes@)),
{
    let ghost cs = change_views(changes@);
    let mut out = owned("── DIFF ─────────────────────────────────────\n");
    push_str(&mut out, "--- 기존: ");
    push_str(&mut out, old_label);
    push_char(&mut out, '\n');
    push_str(&mut out, "+++ 신규: ");
    push_str(&mut out, new_label);
    push_char(&mut out, '\n');
    let ghost head = out@;
    let mut added: usize = 0;
    let mut removed: usize = 0;
    let mut i: usize = 0;
    while i < changes.len()
        invariant
            i <= changes@.len(),
            cs == change_views(changes@),
            out@ == head + change_lines(cs.take(i as int)),
            added == tag_count(cs.take(i as int), DiffTag::Insert),
            removed == tag_count(cs.take(i as int), DiffTag::Delete),
            added <= i,
            removed <= i,
        decreases changes@.len() - i,
    {
        proof {
            assert(cs.take(i + 1).drop_last() =~= cs.take(i as int));
            assert(cs.take(i + 1).last() == cs[i as int]);
            lemma_tag_count_le(cs.take(i as int), DiffTag::Insert);
            lemma_tag_count_le(cs.take(i as int), DiffTag::Delete);
        }
        let (tag, value) = (changes[i].0, changes[i].1.as_str());
        let sign = match tag {
            DiffTag::Equal => ' ',
            DiffTag::Delete => {
                removed = removed + 1;
                '-'
            },
            DiffTag::Insert => {
                added = added + 1;
                '+'
            },
        };
        push_char(&mut out, sign);
        push_str(&mut out, value);
        let v = chars_of(value);
        let ends_nl = v.len() > 0 && v[v.len() - 1] == '\n';
        proof {
            let vs = value@;
            assert(v@ == vs);
            if vs.len() > 0 {
                assert(vs.skip(vs.len() - 1) =~= seq![vs[vs.len() - 1]]);
                if ends_with(vs, seq!['\n']) {
                    assert(vs.skip(vs.len() - 1)[0] == '\n');
                }
            }
            assert(ends_nl == ends_with(vs, seq!['\n']));
        }
        if !ends_nl {
            push_char(&mut out, '\n');
        }
        proof {
            assert(out@ =~= head + change_lines(cs.take(i + 1)));
        }
        i = i + 1;
    }
    proof {
        assert(cs.take(i as int) =~= cs);
    }
    push_str(&mut out, "──────────────────────────────────────────────\n");
    push_str(&mut out, "  +");
    let a = format_dec(added as u64);
    push_str(&mut out, a.as_str());
    push_str(&mut out, " 추가  -");
    let d = format_dec(removed as u64);
    push_str(&mut out, d.as_str());
    push_str(&mut out, " 삭제\n");
    out
}

/// The diff between `old_text` and `new_text`, labelled `old_label` and
/// `new_label`, in the style of `git diff`.
pub fn render_diff(old_label: &str, new_label: &str, old_text: &str, new_text: &str) -> (r: String)
    ensures
        r@ == diff_text(old_label@, new_label@, line_changes(old_text@, new_text@)),
{
    let changes = grouped_line_changes(old_text, new_text);
    render_changes(old_label, new_label, &changes)
}

} // verus!
