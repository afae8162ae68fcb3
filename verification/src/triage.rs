//! The first decisions on an incoming file: whether it is sensitive, a short
//! note indexed without the language model, already indexed, unchanged since
//! it was last compiled, or to be processed; what a short note is indexed
//! with; and the request for a second pass after failed checks.

use vstd::prelude::*;
use crate::classifier::{full_decision, opt_text, SensitivityDetector};
use crate::incremental::{changed, CompileState};
use crate::paths::{file_name_of, path_file_name};
use crate::search::{words_of, ws_words};
use crate::text::{
    byte_len, chars_of, join_sep, owned, pair_views, push_joined, push_str, string_from, string_of,
    strs, trim, trim_range,
};

verus! {

/// The route of an incoming file before its content hash is known.
#[derive(Debug, Clone, PartialEq, Eq)]
pub enum FileRoute {
    /// Sensitive, with the reason given by the detector (empty when none).
    Sensitive(String),
    /// A short note, with its trimmed text.
    Fragment(String),
    /// Neither: go on to the hash checks.
    Continue,
}

/// The kinds of route.
#[derive(Debug, Clone, Copy, PartialEq, Eq)]
pub enum RouteKind {
    Sensitive,
    Fragment,
    Continue,
}

/// The plain value of a route: its kind and its text.
pub open spec fn route_view(r: FileRoute) -> (RouteKind, Seq<char>) {
    match r {
        FileRoute::Sensitive(s) => (RouteKind::Sensitive, s@),
        FileRoute::Fragment(s) => (RouteKind::Fragment, s@),
        FileRoute::Continue => (RouteKind::Continue, seq![]),
    }
}

/// A reason, or the empty text.
pub open spec fn reason_text(o: Option<Seq<char>>) -> Seq<char> {
    match o {
        Some(r) => r,
        None => seq![],
    }
}

/// A text is a short note when a threshold is set and its trimmed text is
/// non-empty and at most `threshold` bytes long.
pub open spec fn is_fragment(c: Seq<char>, threshold: nat) -> bool {
    threshold > 0 && byte_len(trim(c)) <= threshold && trim(c).len() > 0
}

/// The route of a file: sensitive by its path (checked without user
/// patterns); else, when its text could be read, sensitive by its text and
/// the user patterns, or a short note; else on to the hash checks.
pub open spec fn incoming_route(
    kws: Seq<Seq<char>>,
    exts: Seq<Seq<char>>,
    path: Seq<char>,
    content: Option<Seq<char>>,
    user: Seq<(Seq<char>, Seq<char>)>,
    threshold: nat,
) -> (RouteKind, Seq<char>) {
    let d = full_decision(kws, exts, path, None, seq![]);
    if d.0 {
        (RouteKind::Sensitive, reason_text(d.1))
    } else {
        match content {
            None => (RouteKind::Continue, seq![]),
            Some(c) => {
                let dc = full_decision(kws, exts, path, Some(c), user);
                if dc.0 {
                    (RouteKind::Sensitive, reason_text(dc.1))
                } else if is_fragment(c, threshold) {
                    (RouteKind::Fragment, trim(c))
                } else {
                    (RouteKind::Continue, seq![])
                }
            },
        }
    }
}

/// Routes an incoming file before hashing it. `content` is its text, `None`
/// when it could not be read as text.
pub fn route_incoming(
    detector: &SensitivityDetector,
    path: &str,
    content: Option<&str>,
    user_patterns: &[(String, String)],
    fragment_threshold: usize,
) -> (r: FileRoute)
    ensures
        route_view(r) == incoming_route(
            detector.keywords(),
            detector.extensions(),
            path@,
            opt_text(content),
            pair_views(user_patterns@),
            fragment_threshold as nat,
        ),
{
    let none: Vec<(String, String)> = Vec::new();
    proof {
        assert(pair_views(none@) =~= Seq::<(Seq<char>, Seq<char>)>::empty());
    }
    let d = detector.check_sensitive_and_pii(path, None, none.as_slice());
    if d.is_sensitive {
        return FileRoute::Sensitive(
            match d.reason {
                Some(r) => r,
                None => String::new(),
            },
        );
    }
    match content {
        None => FileRoute::Continue,
        Some(text) => {
            let dc = detector.check_sensitive_and_pii(path, Some(text), user_patterns);
            if dc.is_sensitive {
                return FileRoute::Sensitive(
                    match dc.reason {
                        Some(r) => r,
                        None => String::new(),
                    },
                );
            }
            let c = chars_of(text);
            let (a, b) = trim_range(c.as_slice(), 0, c.len());
            proof {
                assert(c@.subrange(0, c@.len() as int) =~= c@);
            }
            let t = string_from(c.as_slice(), a, b);
            let tc = chars_of(t.as_str());
            let n = crate::paragraphs::blen(tc.as_slice());
            if fragment_threshold > 0 && n <= fragment_threshold as u128 && a < b {
                FileRoute::Fragment(t)
            } else {
                FileRoute::Continue
            }
        },
    }
}

/// The route of a file once its content hash is known.
#[derive(Debug, Clone, Copy, PartialEq, Eq)]
pub enum HashRoute {
    /// A document with this hash is already indexed.
    Duplicate,
    /// Compiled before with this hash.
    Unchanged,
    /// To be processed.
    Process,
}

/// Routes a file by its content hash: a duplicate when a document with the
/// hash is already indexed, unchanged when the compile state holds the file
/// with this hash, else to be processed.
pub fn route_by_hash(already_indexed: bool, state: &CompileState, file_key: &str, hash: &str) -> (r: HashRoute)
    requires
        state.wf(),
    ensures
        r == (if already_indexed {
            HashRoute::Duplicate
        } else if !changed(state@, file_key@, hash@) {
            HashRoute::Unchanged
        } else {
            HashRoute::Process
        }),
{
    if already_indexed {
        HashRoute::Duplicate
    } else if !state.is_changed(file_key, hash) {
        HashRoute::Unchanged
    } else {
        HashRoute::Process
    }
}

// ---------------------------------------------------------------------------
// Short notes
// ---------------------------------------------------------------------------

/// Most keywords kept for a short note.
pub const FRAGMENT_KEYWORDS: usize = 10;

/// The words of `ws` that have at least two characters.
pub open spec fn long_words(ws: Seq<Seq<char>>) -> Seq<Seq<char>>
    decreases ws.len(),
{
    if ws.len() == 0 {
        seq![]
    } else if ws.last().len() >= 2 {
        long_words(ws.drop_last()).push(ws.last())
    } else {
        long_words(ws.drop_last())
    }
}

/// The keywords of a short note: its first ten whitespace-separated words of
/// at least two characters.
pub open spec fn fragment_keywords_spec(c: Seq<char>) -> Seq<Seq<char>> {
    let w = long_words(ws_words(c));
    if w.len() <= FRAGMENT_KEYWORDS {
        w
    } else {
        w.take(FRAGMENT_KEYWORDS as int)
    }
}

proof fn lemma_long_words_prefix(ws: Seq<Seq<char>>, i: int)
    requires
        0 <= i < ws.len(),
    ensures
        long_words(ws.take(i + 1)) == if ws[i].len() >= 2 {
            long_words(ws.take(i)).push(ws[i])
        } else {
            long_words(ws.take(i))
        },
{
    assert(ws.take(i + 1).drop_last() =~= ws.take(i));
}

/// The keywords of a short note: its first ten whitespace-separated words of
/// at least two characters.
pub fn fragment_keywords(content: &str) -> (r: Vec<String>)
    ensures
        r@.len() == fragment_keywords_spec(content@).len(),
        forall|i: int| 0 <= i < r@.len() ==> (#[trigger] r@[i])@ == fragment_keywords_spec(content@)[i],
{
    let c = chars_of(content);
    let words = words_of(c.as_slice());
    let ghost ws = ws_words(c@);
    let mut out: Vec<String> = Vec::new();
    let mut i: usize = 0;
    proof {
        assert(ws.take(0) =~= Seq::<Seq<char>>::empty());
    }
    while i < words.len() && out.len() < FRAGMENT_KEYWORDS
        invariant
            i <= words@.len(),
            ws == ws_words(c@),
            crate::text::views(words@) == ws,
            out@.len() <= FRAGMENT_KEYWORDS,
            out@.len() == long_words(ws.take(i as int)).len(),
            forall|k: int| 0 <= k < out@.len() ==> (#[trigger] out@[k])@ == long_words(ws.take(i as int))[k],
        decreases words@.len() - i,
    {
        proof {
            lemma_long_words_prefix(ws, i as int);
            assert(words@[i as int]@ == ws[i as int]);
        }
        if words[i].len() >= 2 {
            out.push(string_of(words[i].as_slice()));
        }
        i = i + 1;
    }
    proof {
        let w = long_words(ws);
        lemma_long_words_mono(ws, i as int);
        if i == words@.len() {
            assert(ws.take(i as int) =~= ws);
        }
        assert forall|k: int| 0 <= k < out@.len() implies (#[trigger] out@[k])@ == fragment_keywords_spec(c@)[k] by {
            lemma_long_words_prefix_of(ws, i as int);
        }
    }
    out
}

/// The long words of a prefix are a prefix of the long words.
proof fn lemma_long_words_prefix_of(ws: Seq<Seq<char>>, i: int)
    requires
        0 <= i <= ws.len(),
    ensures
        long_words(ws.take(i)).len() <= long_words(ws).len(),
        forall|k: int| 0 <= k < long_words(ws.take(i)).len() ==> #[trigger] long_words(ws.take(i))[k] == long_words(ws)[k],
    decreases ws.len() - i,
{
    if i < ws.len() {
        lemma_long_words_prefix_of(ws, i + 1);
        lemma_long_words_prefix(ws, i);
        let a = long_words(ws.take(i));
        let b = long_words(ws.take(i + 1));
        assert forall|k: int| 0 <= k < a.len() implies #[trigger] a[k] == long_words(ws)[k] by {
            assert(a[k] == b[k]);
            assert(b[k] == long_words(ws)[k]);
        }
    } else {
        assert(ws.take(i) =~= ws);
    }
}

proof fn lemma_long_words_mono(ws: Seq<Seq<char>>, i: int)
    requires
        0 <= i <= ws.len(),
    ensures
        long_words(ws.take(i)).len() <= long_words(ws).len(),
{
    lemma_long_words_prefix_of(ws, i);
}

/// The name a short note is stored under: the file name of its path, or
/// `fragment` when the path has none.
pub open spec fn fragment_name_spec(path: Seq<char>) -> Seq<char> {
    match file_name_of(path) {
        Some(n) => n,
        None => "fragment"@,
    }
}

/// The name a short note is stored under.
pub fn fragment_name(path: &str) -> (r: String)
    ensures
        r@ == fragment_name_spec(path@),
{
    match path_file_name(path) {
        Some(n) => n,
        None => {
            proof {
                reveal_strlit("fragment");
            }
            owned("fragment")
        },
    }
}

/// The processed text of a short note: a metadata block with its source,
/// the type `fragment` and the date, then its text.
pub open spec fn fragment_text_spec(name: Seq<char>, date: Seq<char>, content: Seq<char>) -> Seq<char> {
    "=== META ===\nsource: "@ + name + "\ndoc_types: fragment\ndate: "@ + date + "\n=== CONTENT ===\n"@
        + content
}

/// The processed text of a short note.
pub fn fragment_text(name: &str, date: &str, content: &str) -> (r: String)
    ensures
        r@ == fragment_text_spec(name@, date@, content@),
{
    let mut r = owned("=== META ===\nsource: ");
    push_str(&mut r, name);
    push_str(&mut r, "\ndoc_types: fragment\ndate: ");
    push_str(&mut r, date);
    push_str(&mut r, "\n=== CONTENT ===\n");
    push_str(&mut r, content);
    r
}


// ---------------------------------------------------------------------------
// A second pass after a failed check
// ---------------------------------------------------------------------------

/// The request sent with a document whose processing failed the checks: the
/// check details, one per line, and the request to process it again.
pub open spec fn feedback_spec(details: Seq<Seq<char>>) -> Seq<char> {
    "이전 가공 결과에서 문제 발견:\n"@ + join_sep(details, "\n"@) + "\n위 문제를 보완하여 다시 가공하세요."@
}

/// The request sent with a document whose processing failed the checks.
pub fn reprocess_feedback(details: &Vec<String>) -> (r: String)
    ensures
        r@ == feedback_spec(strs(details@)),
{
    let mut r = owned("이전 가공 결과에서 문제 발견:\n");
    push_joined(&mut r, details, "\n");
    push_str(&mut r, "\n위 문제를 보완하여 다시 가공하세요.");
    r
}

} // verus!
