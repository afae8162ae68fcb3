//! Telling sensitive files apart: by their path and file name, and by the
//! personal data that their text holds.

use vstd::prelude::*;
use crate::text::{
    strs, opt_str, pair_views, dec_of, join_sep, contains, lowercase, owned, push_str,
    format_dec, chars_of, lower_chars, contains_exec, str_to_lowercase, push_joined,
};
use crate::paths::{file_name_of, extension_of, path_file_name, path_extension};
use crate::pattern::{regex_match_count, regex_replaced, count_matches, replace_matches};

verus! {

/// One kind of personal data found in a text, with its number of matches.
#[derive(Debug, Clone, PartialEq, Eq)]
pub struct PiiHit {
    pub kind: String,
    pub count: usize,
}

impl View for PiiHit {
    type V = (Seq<char>, usize);

    open spec fn view(&self) -> (Seq<char>, usize) {
        (self.kind@, self.count)
    }
}

/// The views of a sequence of hits.
pub open spec fn hit_views(v: Seq<PiiHit>) -> Seq<(Seq<char>, usize)> {
    Seq::new(v.len(), |i: int| v[i]@)
}

/// The single decision on one file: whether it is sensitive, why, and the
/// personal data found in its text.
#[derive(Debug, Clone)]
pub struct SensitivityDecision {
    pub is_sensitive: bool,
    pub reason: Option<String>,
    pub pii_hits: Vec<PiiHit>,
}

impl View for SensitivityDecision {
    type V = (bool, Option<Seq<char>>, Seq<(Seq<char>, usize)>);

    open spec fn view(&self) -> (bool, Option<Seq<char>>, Seq<(Seq<char>, usize)>) {
        (self.is_sensitive, opt_str(self.reason), hit_views(self.pii_hits@))
    }
}

/// The decision on a file found safe.
pub open spec fn safe_decision() -> (bool, Option<Seq<char>>, Seq<(Seq<char>, usize)>) {
    (false, None, seq![])
}

impl SensitivityDecision {
    pub fn safe() -> (r: Self)
        ensures
            r@ == safe_decision(),
    {
        let r = SensitivityDecision { is_sensitive: false, reason: None, pii_hits: Vec::new() };
        proof {
            assert(hit_views(r.pii_hits@) =~= Seq::<(Seq<char>, usize)>::empty());
        }
        r
    }
}

// ---------------------------------------------------------------------------
// Built-in keywords, extensions and patterns
// ---------------------------------------------------------------------------

/// The keywords that every detector starts with.
pub open spec fn default_keywords() -> Seq<Seq<char>> {
    seq![
        "계약"@, "contract"@, "법률"@, "legal"@, "소송"@,
        "개인정보"@, "주민"@, "여권"@, "passport"@,
        "진단"@, "처방"@, "의료"@, "병원"@,
        "급여"@, "연봉"@, "세금"@, "통장"@, "계좌"@,
        "비밀"@, "confidential"@, "secret"@, "private"@,
    ]
}

/// The extensions that every detector starts with.
pub open spec fn default_extensions() -> Seq<Seq<char>> {
    seq![".pdf"@, ".docx"@, ".hwp"@, ".xlsx"@]
}

/// The built-in personal-data patterns, as (kind, regular expression).
pub open spec fn default_pii_patterns() -> Seq<(Seq<char>, Seq<char>)> {
    seq![
        ("ssn_kr"@, "\\b\\d{6}[-\\s]?[1-4]\\d{6}\\b"@),
        ("credit_card"@, "\\b(?:\\d{4}[-\\s]?){3}\\d{4}\\b"@),
        ("email"@, "\\b[A-Za-z0-9._%+-]+@[A-Za-z0-9.-]+\\.[A-Za-z]{2,}\\b"@),
        ("phone_kr"@, "\\b(?:\\+82[-\\s]?)?0?1[016789][-\\s]?\\d{3,4}[-\\s]?\\d{4}\\b"@),
        ("biz_reg_kr"@, "\\b\\d{3}[-\\s]?\\d{2}[-\\s]?\\d{5}\\b"@),
    ]
}

fn default_keyword_list() -> (r: Vec<String>)
    ensures
        strs(r@) == default_keywords(),
{
    let mut v: Vec<String> = Vec::new();
    v.push(owned("계약"));
    v.push(owned("contract"));
    v.push(owned("법률"));
    v.push(owned("legal"));
    v.push(owned("소송"));
    v.push(owned("개인정보"));
    v.push(owned("주민"));
    v.push(owned("여권"));
    v.push(owned("passport"));
    v.push(owned("진단"));
    v.push(owned("처방"));
    v.push(owned("의료"));
    v.push(owned("병원"));
    v.push(owned("급여"));
    v.push(owned("연봉"));
    v.push(owned("세금"));
    v.push(owned("통장"));
    v.push(owned("계좌"));
    v.push(owned("비밀"));
    v.push(owned("confidential"));
    v.push(owned("secret"));
    v.push(owned("private"));
    proof {
        assert(strs(v@) =~= default_keywords());
    }
    v
}

fn default_extension_list() -> (r: Vec<String>)
    ensures
        strs(r@) == default_extensions(),
{
    let mut v: Vec<String> = Vec::new();
    v.push(owned(".pdf"));
    v.push(owned(".docx"));
    v.push(owned(".hwp"));
    v.push(owned(".xlsx"));
    proof {
        assert(strs(v@) =~= default_extensions());
    }
    v
}

fn default_pattern_list() -> (r: Vec<(String, String)>)
    ensures
        pair_views(r@) == default_pii_patterns(),
{
    let mut v: Vec<(String, String)> = Vec::new();
    v.push((owned("ssn_kr"), owned("\\b\\d{6}[-\\s]?[1-4]\\d{6}\\b")));
    v.push((owned("credit_card"), owned("\\b(?:\\d{4}[-\\s]?){3}\\d{4}\\b")));
    v.push((owned("email"), owned("\\b[A-Za-z0-9._%+-]+@[A-Za-z0-9.-]+\\.[A-Za-z]{2,}\\b")));
    v.push(
        (owned("phone_kr"), owned("\\b(?:\\+82[-\\s]?)?0?1[016789][-\\s]?\\d{3,4}[-\\s]?\\d{4}\\b")),
    );
    v.push((owned("biz_reg_kr"), owned("\\b\\d{3}[-\\s]?\\d{2}[-\\s]?\\d{5}\\b")));
    proof {
        assert(pair_views(v@) =~= default_pii_patterns());
    }
    v
}

/// `a` followed by copies of the pairs of `extra`.
fn with_patterns(a: Vec<(String, String)>, extra: &[(String, String)]) -> (r: Vec<(String, String)>)
    ensures
        pair_views(r@) == pair_views(a@) + pair_views(extra@),
{
    let mut r = a;
    let ghost start = pair_views(r@);
    let mut i: usize = 0;
    while i < extra.len()
        invariant
            i <= extra@.len(),
            pair_views(r@) == start + pair_views(extra@).take(i as int),
        decreases extra@.len() - i,
    {
        let k = extra[i].0.clone();
        let p = extra[i].1.clone();
        let ghost before = r@;
        r.push((k, p));
        proof {
            assert(k@ == extra@[i as int].0@ && p@ == extra@[i as int].1@);
            assert(pair_views(r@) =~= pair_views(before).push((k@, p@)));
            assert(pair_views(extra@).take(i + 1) =~= pair_views(extra@).take(i as int).push(
                (k@, p@),
            ));
            assert(pair_views(r@) =~= start + pair_views(extra@).take(i + 1));
        }
        i = i + 1;
    }
    proof {
        assert(pair_views(extra@).take(extra@.len() as int) =~= pair_views(extra@));
    }
    r
}

// ---------------------------------------------------------------------------
// The decisions, as functions of plain values
// ---------------------------------------------------------------------------

/// The index of the first keyword at or after `i` whose lowercase form occurs
/// in `hay`.
pub open spec fn first_kw_in(kws: Seq<Seq<char>>, hay: Seq<char>, i: int) -> Option<int>
    decreases kws.len() - i,
{
    if 0 <= i < kws.len() {
        if contains(hay, lowercase(kws[i])) {
            Some(i)
        } else {
            first_kw_in(kws, hay, i + 1)
        }
    } else {
        None
    }
}

/// The lowercased file name of a path (empty when it has none).
pub open spec fn lower_file_name(path: Seq<char>) -> Seq<char> {
    match file_name_of(path) {
        Some(n) => lowercase(n),
        None => seq![],
    }
}

/// The lowercased extension of a path with its dot (empty when it has none).
pub open spec fn dotted_extension(path: Seq<char>) -> Seq<char> {
    match extension_of(path) {
        Some(e) => "."@ + lowercase(e),
        None => seq![],
    }
}

/// The three-step decision on a path:
/// 1. the lowercased path mentions a sensitive directory;
/// 2. the lowercased file name holds a keyword (the first that matches);
/// 3. the extension is a sensitive one and the lowercased path holds a keyword.
pub open spec fn path_decision(kws: Seq<Seq<char>>, exts: Seq<Seq<char>>, path: Seq<char>) -> (
    bool,
    Option<Seq<char>>,
) {
    let p = lowercase(path);
    if contains(p, "sensitive"@) || contains(p, "민감"@) {
        (true, Some("경로에 민감 디렉토리 포함"@))
    } else {
        match first_kw_in(kws, lower_file_name(path), 0) {
            Some(k) => (true, Some("파일명에 민감 키워드 '"@ + kws[k] + "' 포함"@)),
            None => {
                let ext = dotted_extension(path);
                if exts.contains(ext) {
                    match first_kw_in(kws, p, 0) {
                        Some(k) => (
                            true,
                            Some("민감 확장자 '"@ + ext + "' + 경로에 키워드 '"@ + kws[k] + "'"@),
                        ),
                        None => (false, None),
                    }
                } else {
                    (false, None)
                }
            },
        }
    }
}

/// The hits of `pats` in `text`, in the order of the patterns: one for each
/// pattern that compiles and matches at least once.
pub open spec fn hits_in(pats: Seq<(Seq<char>, Seq<char>)>, text: Seq<char>) -> Seq<
    (Seq<char>, usize),
>
    decreases pats.len(),
{
    if pats.len() == 0 {
        seq![]
    } else {
        let rest = hits_in(pats.drop_last(), text);
        match regex_match_count(pats.last().1, text) {
            Some(c) => if c > 0 {
                rest.push((pats.last().0, c))
            } else {
                rest
            },
            None => rest,
        }
    }
}

/// `kind×count` for each hit.
pub open spec fn hit_texts(hits: Seq<(Seq<char>, usize)>) -> Seq<Seq<char>> {
    Seq::new(hits.len(), |i: int| hits[i].0 + "×"@ + dec_of(hits[i].1 as nat))
}

/// The reason given for personal data found in a text.
pub open spec fn pii_reason(hits: Seq<(Seq<char>, usize)>) -> Seq<char> {
    "본문 PII 감지: "@ + join_sep(hit_texts(hits), ", "@)
}

/// The decision on a path and its text: the path first, then the text.
pub open spec fn content_decision(
    kws: Seq<Seq<char>>,
    exts: Seq<Seq<char>>,
    path: Seq<char>,
    content: Seq<char>,
) -> (bool, Option<Seq<char>>) {
    let d = path_decision(kws, exts, path);
    if d.0 {
        d
    } else {
        let hits = hits_in(default_pii_patterns(), content);
        if hits.len() == 0 {
            (false, None)
        } else {
            (true, Some(pii_reason(hits)))
        }
    }
}

/// The single decision: the path first; then, where a text is given, its
/// personal data under the built-in and the user's patterns.
pub open spec fn full_decision(
    kws: Seq<Seq<char>>,
    exts: Seq<Seq<char>>,
    path: Seq<char>,
    content: Option<Seq<char>>,
    user: Seq<(Seq<char>, Seq<char>)>,
) -> (bool, Option<Seq<char>>, Seq<(Seq<char>, usize)>) {
    let d = path_decision(kws, exts, path);
    if d.0 {
        (true, d.1, seq![])
    } else {
        match content {
            Some(t) => {
                let hits = hits_in(default_pii_patterns() + user, t);
                if hits.len() > 0 {
                    (true, Some(pii_reason(hits)), hits)
                } else {
                    safe_decision()
                }
            },
            None => safe_decision(),
        }
    }
}

/// The text with every match of each pattern, in order, replaced by
/// `[REDACTED:kind]`; a pattern that does not compile is passed over.
pub open spec fn masked(pats: Seq<(Seq<char>, Seq<char>)>, text: Seq<char>) -> Seq<char>
    decreases pats.len(),
{
    if pats.len() == 0 {
        text
    } else {
        let prev = masked(pats.drop_last(), text);
        match regex_replaced(pats.last().1, prev, "[REDACTED:"@ + pats.last().0 + "]"@) {
            Some(s) => s,
            None => prev,
        }
    }
}

/// The view of an optional string slice.
pub open spec fn opt_text(o: Option<&str>) -> Option<Seq<char>> {
    match o {
        Some(t) => Some(t@),
        None => None,
    }
}

// ---------------------------------------------------------------------------
// The detector
// ---------------------------------------------------------------------------

/// Tells sensitive files apart by keywords and extensions.
pub struct SensitivityDetector {
    keywords: Vec<String>,
    sensitive_extensions: Vec<String>,
}

/// The index of the first keyword whose lowercase form occurs in `hay`.
fn find_keyword(kws: &Vec<String>, hay: &[char]) -> (r: Option<usize>)
    ensures
        match r {
            Some(k) => first_kw_in(strs(kws@), hay@, 0) == Some(k as int) && k < kws@.len(),
            None => first_kw_in(strs(kws@), hay@, 0) is None,
        },
{
    let mut k: usize = 0;
    while k < kws.len()
        invariant
            k <= kws@.len(),
            first_kw_in(strs(kws@), hay@, 0) == first_kw_in(strs(kws@), hay@, k as int),
        decreases kws@.len() - k,
    {
        let lk = lower_chars(kws[k].as_str());
        if contains_exec(hay, lk.as_slice()) {
            return Some(k);
        }
        k = k + 1;
    }
    None
}

/// The `kind×count` texts of hits.
fn hit_text_list(hits: &Vec<PiiHit>) -> (r: Vec<String>)
    ensures
        strs(r@) == hit_texts(hit_views(hits@)),
{
    let mut r: Vec<String> = Vec::new();
    let mut i: usize = 0;
    while i < hits.len()
        invariant
            i <= hits@.len(),
            r@.len() == i,
            forall|j: int| 0 <= j < i ==> (#[trigger] r@[j])@ == hit_texts(hit_views(hits@))[j],
        decreases hits@.len() - i,
    {
        let mut t = hits[i].kind.clone();
        push_str(&mut t, "×");
        let n = format_dec(hits[i].count as u64);
        push_str(&mut t, n.as_str());
        r.push(t);
        i = i + 1;
    }
    proof {
        assert(strs(r@) =~= hit_texts(hit_views(hits@)));
    }
    r
}

/// The reason text for hits.
fn pii_reason_text(hits: &Vec<PiiHit>) -> (r: String)
    ensures
        r@ == pii_reason(hit_views(hits@)),
{
    let texts = hit_text_list(hits);
    let mut r = owned("본문 PII 감지: ");
    push_joined(&mut r, &texts, ", ");
    r
}

/// The hits of the patterns `pats` in `text`.
fn scan_patterns(text: &str, pats: &Vec<(String, String)>) -> (r: Vec<PiiHit>)
    ensures
        hit_views(r@) == hits_in(pair_views(pats@), text@),
{
    let mut hits: Vec<PiiHit> = Vec::new();
    let mut k: usize = 0;
    while k < pats.len()
        invariant
            k <= pats@.len(),
            hit_views(hits@) == hits_in(pair_views(pats@).take(k as int), text@),
        decreases pats@.len() - k,
    {
        let ghost before = hits@;
        let c = count_matches(pats[k].1.as_str(), text);
        match c {
            Some(n) => {
                if n > 0 {
                    let kind = pats[k].0.clone();
                    hits.push(PiiHit { kind, count: n });
                }
            },
            None => {},
        }
        proof {
            let pv = pair_views(pats@);
            assert(pv.take(k + 1).drop_last() =~= pv.take(k as int));
            assert(pv.take(k + 1).last() == pv[k as int]);
            assert(hit_views(hits@) =~= hits_in(pv.take(k + 1), text@));
        }
        k = k + 1;
    }
    proof {
        assert(pair_views(pats@).take(pats@.len() as int) =~= pair_views(pats@));
    }
    hits
}

impl SensitivityDetector {
    /// The keywords, built-in ones first.
    pub closed spec fn keywords(&self) -> Seq<Seq<char>> {
        strs(self.keywords@)
    }

    /// The sensitive extensions, built-in ones first.
    pub closed spec fn extensions(&self) -> Seq<Seq<char>> {
        strs(self.sensitive_extensions@)
    }

    /// A detector with the built-in keywords and extensions, followed by the
    /// extra ones.
    pub fn new(extra_keywords: Vec<String>, extra_extensions: Vec<String>) -> (r: Self)
        ensures
            r.keywords() == default_keywords() + strs(extra_keywords@),
            r.extensions() == default_extensions() + strs(extra_extensions@),
    {
        let mut keywords = default_keyword_list();
        let mut extra_k = extra_keywords;
        keywords.append(&mut extra_k);
        let mut sensitive_extensions = default_extension_list();
        let mut extra_e = extra_extensions;
        sensitive_extensions.append(&mut extra_e);
        let r = SensitivityDetector { keywords, sensitive_extensions };
        proof {
            assert(r.keywords() =~= default_keywords() + strs(extra_keywords@));
            assert(r.extensions() =~= default_extensions() + strs(extra_extensions@));
        }
        r
    }

    fn has_extension(&self, ext: &String) -> (b: bool)
        ensures
            b == self.extensions().contains(ext@),
    {
        let mut i: usize = 0;
        while i < self.sensitive_extensions.len()
            invariant
                i <= self.sensitive_extensions@.len(),
                forall|j: int| 0 <= j < i ==> self.extensions()[j] != ext@,
            decreases self.sensitive_extensions@.len() - i,
        {
            if self.sensitive_extensions[i] == *ext {
                proof {
                    assert(self.extensions()[i as int] == ext@);
                }
                return true;
            }
            i = i + 1;
        }
        false
    }

    /// Whether the file at `path` is sensitive, and why (three steps: a
    /// sensitive directory in the path, a keyword in the file name, a
    /// sensitive extension with a keyword in the path).
    pub fn is_sensitive(&self, path: &str) -> (r: (bool, Option<String>))
        ensures
            (r.0, opt_str(r.1)) == path_decision(self.keywords(), self.extensions(), path@),
    {
        let p = lower_chars(path);
        let w1 = chars_of("sensitive");
        let w2 = chars_of("민감");
        if contains_exec(p.as_slice(), w1.as_slice()) || contains_exec(p.as_slice(), w2.as_slice()) {
            return (true, Some(owned("경로에 민감 디렉토리 포함")));
        }
        let fname: Vec<char> = match path_file_name(path) {
            Some(n) => lower_chars(n.as_str()),
            None => Vec::new(),
        };
        proof {
            assert(fname@ == lower_file_name(path@));
        }
        match find_keyword(&self.keywords, fname.as_slice()) {
            Some(k) => {
                let mut r = owned("파일명에 민감 키워드 '");
                push_str(&mut r, self.keywords[k].as_str());
                push_str(&mut r, "' 포함");
                return (true, Some(r));
            },
            None => {},
        }
        let ext: String = match path_extension(path) {
            Some(e) => {
                let mut x = owned(".");
                let le = str_to_lowercase(e.as_str());
                push_str(&mut x, le.as_str());
                x
            },
            None => String::new(),
        };
        proof {
            assert(ext@ == dotted_extension(path@));
        }
        if self.has_extension(&ext) {
            match find_keyword(&self.keywords, p.as_slice()) {
                Some(k) => {
                    let mut r = owned("민감 확장자 '");
                    push_str(&mut r, ext.as_str());
                    push_str(&mut r, "' + 경로에 키워드 '");
                    push_str(&mut r, self.keywords[k].as_str());
                    push_str(&mut r, "'");
                    proof {
                        assert(r@ =~= "민감 확장자 '"@ + ext@ + "' + 경로에 키워드 '"@
                            + self.keywords()[k as int] + "'"@);
                    }
                    return (true, Some(r));
                },
                None => {},
            }
        }
        (false, None)
    }

    /// The personal data that the built-in patterns find in `text`.
    pub fn scan_pii_in_text(text: &str) -> (r: Vec<PiiHit>)
        ensures
            hit_views(r@) == hits_in(default_pii_patterns(), text@),
    {
        let pats = default_pattern_list();
        scan_patterns(text, &pats)
    }

    /// The personal data that the built-in patterns, then the extra ones
    /// (kind, regular expression), find in `text`. An extra pattern that does
    /// not compile is passed over.
    pub fn scan_pii_in_text_with(text: &str, extra: &[(String, String)]) -> (r: Vec<PiiHit>)
        ensures
            hit_views(r@) == hits_in(default_pii_patterns() + pair_views(extra@), text@),
    {
        let pats = with_patterns(default_pattern_list(), extra);
        scan_patterns(text, &pats)
    }

    /// Path and text together: a sensitive path decides; else personal data
    /// in the text makes the file sensitive.
    pub fn is_sensitive_with_content(&self, path: &str, content: &str) -> (r: (bool, Option<String>))
        ensures
            (r.0, opt_str(r.1)) == content_decision(
                self.keywords(),
                self.extensions(),
                path@,
                content@,
            ),
    {
        let (path_sensitive, reason) = self.is_sensitive(path);
        if path_sensitive {
            return (true, reason);
        }
        let hits = Self::scan_pii_in_text(content);
        if hits.len() == 0 {
            return (false, None);
        }
        (true, Some(pii_reason_text(&hits)))
    }

    /// Every match of the built-in patterns, then of the user's, replaced by
    /// `[REDACTED:kind]`.
    pub fn mask_pii_in_text(text: &str, user_patterns: &[(String, String)]) -> (r: String)
        ensures
            r@ == masked(default_pii_patterns() + pair_views(user_patterns@), text@),
    {
        let pats = with_patterns(default_pattern_list(), user_patterns);
        let mut result = owned(text);
        let mut k: usize = 0;
        while k < pats.len()
            invariant
                k <= pats@.len(),
                result@ == masked(pair_views(pats@).take(k as int), text@),
                pair_views(pats@) == default_pii_patterns() + pair_views(user_patterns@),
            decreases pats@.len() - k,
        {
            let mut rep = owned("[REDACTED:");
            push_str(&mut rep, pats[k].0.as_str());
            push_str(&mut rep, "]");
            let replaced = replace_matches(pats[k].1.as_str(), result.as_str(), rep.as_str());
            match replaced {
                Some(s) => {
                    result = s;
                },
                None => {},
            }
            proof {
                let pv = pair_views(pats@);
                assert(pv.take(k + 1).drop_last() =~= pv.take(k as int));
                assert(pv.take(k + 1).last() == pv[k as int]);
            }
            k = k + 1;
        }
        proof {
            assert(pair_views(pats@).take(pats@.len() as int) =~= pair_views(pats@));
        }
        result
    }

    /// The single entry point: the path first; then, where `content` is given,
    /// personal data under the built-in and the user's patterns.
    pub fn check_sensitive_and_pii(
        &self,
        path: &str,
        content: Option<&str>,
        user_patterns: &[(String, String)],
    ) -> (r: SensitivityDecision)
        ensures
            r@ == full_decision(
                self.keywords(),
                self.extensions(),
                path@,
                opt_text(content),
                pair_views(user_patterns@),
            ),
    {
        let (path_sensitive, reason) = self.is_sensitive(path);
        if path_sensitive {
            let r = SensitivityDecision { is_sensitive: true, reason, pii_hits: Vec::new() };
            proof {
                assert(hit_views(r.pii_hits@) =~= Seq::<(Seq<char>, usize)>::empty());
            }
            return r;
        }
        match content {
            Some(text) => {
                let hits = Self::scan_pii_in_text_with(text, user_patterns);
                if hits.len() > 0 {
                    let reason = pii_reason_text(&hits);
                    return SensitivityDecision {
                        is_sensitive: true,
                        reason: Some(reason),
                        pii_hits: hits,
                    };
                }
            },
            None => {},
        }
        SensitivityDecision::safe()
    }
}

impl Default for SensitivityDetector {
    fn default() -> (r: Self)
        ensures
            r.keywords() == default_keywords(),
            r.extensions() == default_extensions(),
    {
        let r = Self::new(Vec::new(), Vec::new());
        proof {
            assert(default_keywords() + strs(Seq::<String>::empty()) =~= default_keywords());
            assert(default_extensions() + strs(Seq::<String>::empty()) =~= default_extensions());
        }
        r
    }
}

// ---------------------------------------------------------------------------
// Laws
// ---------------------------------------------------------------------------

/// Every built-in keyword of the detector is among the default keywords:
/// contracts, legal matters and lawsuits, personal data, resident numbers
/// and passports, diagnoses, prescriptions, medical and hospital records,
/// salaries, annual pay, taxes, bank books and accounts, secrets and
/// confidential or private material.
pub proof fn lemma_default_keywords_listed()
    ensures
        ({
            let k = default_keywords();
            &&& k.contains("계약"@) && k.contains("contract"@) && k.contains("법률"@) && k.contains("legal"@)
            &&& k.contains("소송"@) && k.contains("개인정보"@) && k.contains("주민"@) && k.contains("여권"@)
            &&& k.contains("passport"@) && k.contains("진단"@) && k.contains("처방"@) && k.contains("의료"@)
            &&& k.contains("병원"@) && k.contains("급여"@) && k.contains("연봉"@) && k.contains("세금"@)
            &&& k.contains("통장"@) && k.contains("계좌"@) && k.contains("비밀"@) && k.contains("confidential"@)
            &&& k.contains("secret"@) && k.contains("private"@)
        }),
{
    let k = default_keywords();
    assert(k[0] == "계약"@);
    assert(k[1] == "contract"@);
    assert(k[2] == "법률"@);
    assert(k[3] == "legal"@);
    assert(k[4] == "소송"@);
    assert(k[5] == "개인정보"@);
    assert(k[6] == "주민"@);
    assert(k[7] == "여권"@);
    assert(k[8] == "passport"@);
    assert(k[9] == "진단"@);
    assert(k[10] == "처방"@);
    assert(k[11] == "의료"@);
    assert(k[12] == "병원"@);
    assert(k[13] == "급여"@);
    assert(k[14] == "연봉"@);
    assert(k[15] == "세금"@);
    assert(k[16] == "통장"@);
    assert(k[17] == "계좌"@);
    assert(k[18] == "비밀"@);
    assert(k[19] == "confidential"@);
    assert(k[20] == "secret"@);
    assert(k[21] == "private"@);
}

/// The built-in sensitive extensions are those of PDF, Word, Hangul and
/// Excel documents.
pub proof fn lemma_default_extensions_listed()
    ensures
        default_extensions() == seq![".pdf"@, ".docx"@, ".hwp"@, ".xlsx"@],
        default_extensions().contains(".pdf"@) && default_extensions().contains(".docx"@)
            && default_extensions().contains(".hwp"@) && default_extensions().contains(".xlsx"@),
{
    let e = default_extensions();
    assert(e[0] == ".pdf"@ && e[1] == ".docx"@ && e[2] == ".hwp"@ && e[3] == ".xlsx"@);
}

proof fn lemma_first_kw_found(kws: Seq<Seq<char>>, hay: Seq<char>, i: int, j: int)
    requires
        0 <= i <= j < kws.len(),
        contains(hay, lowercase(kws[j])),
    ensures
        first_kw_in(kws, hay, i) is Some,
    decreases j - i,
{
    if !contains(hay, lowercase(kws[i])) {
        lemma_first_kw_found(kws, hay, i + 1, j);
    }
}

/// A path whose file name holds one of the keywords (both lowercased) is
/// sensitive, whatever its extension.
pub proof fn lemma_keyword_in_name_is_sensitive(kws: Seq<Seq<char>>, exts: Seq<Seq<char>>, path: Seq<char>, j: int)
    requires
        0 <= j < kws.len(),
        contains(lower_file_name(path), lowercase(kws[j])),
    ensures
        path_decision(kws, exts, path).0,
        path_decision(kws, exts, path).1 is Some,
{
    lemma_first_kw_found(kws, lower_file_name(path), 0, j);
}

/// With the default keywords, a file name holding (lowercased) a salary,
/// pay, tax, bank book or account keyword, or any other default keyword, is
/// sensitive.
pub proof fn lemma_default_keyword_in_name_is_sensitive(extra: Seq<Seq<char>>, exts: Seq<Seq<char>>, path: Seq<char>, kw: Seq<char>)
    requires
        default_keywords().contains(kw),
        contains(lower_file_name(path), lowercase(kw)),
    ensures
        path_decision(default_keywords() + extra, exts, path).0,
{
    let kws = default_keywords() + extra;
    let j = choose|j: int| 0 <= j < default_keywords().len() && default_keywords()[j] == kw;
    assert(kws[j] == kw);
    lemma_keyword_in_name_is_sensitive(kws, exts, path, j);
}

/// A decision is sensitive exactly when it gives a reason, and a decision
/// that is not sensitive reports no personal data.
pub proof fn lemma_decision_reason_iff_sensitive(
    kws: Seq<Seq<char>>,
    exts: Seq<Seq<char>>,
    path: Seq<char>,
    content: Option<Seq<char>>,
    user: Seq<(Seq<char>, Seq<char>)>,
)
    ensures
        ({
            let d = full_decision(kws, exts, path, content, user);
            &&& d.0 <==> d.1 is Some
            &&& !d.0 ==> d.2.len() == 0
        }),
{
}

/// A sensitive path decides on its own: the text is not looked at, and no
/// personal data is reported, whatever the text and the user's patterns.
pub proof fn lemma_path_takes_precedence(
    kws: Seq<Seq<char>>,
    exts: Seq<Seq<char>>,
    path: Seq<char>,
    content: Option<Seq<char>>,
    user: Seq<(Seq<char>, Seq<char>)>,
)
    requires
        path_decision(kws, exts, path).0,
    ensures
        full_decision(kws, exts, path, content, user) == (
            true,
            path_decision(kws, exts, path).1,
            Seq::<(Seq<char>, usize)>::empty(),
        ),
        content_decision(kws, exts, path, content->0) == path_decision(kws, exts, path),
{
}

/// Without a text, the single entry point decides as the path check does.
pub proof fn lemma_no_content_is_path_decision(
    kws: Seq<Seq<char>>,
    exts: Seq<Seq<char>>,
    path: Seq<char>,
    user: Seq<(Seq<char>, Seq<char>)>,
)
    ensures
        ({
            let d = full_decision(kws, exts, path, None, user);
            (d.0, d.1) == path_decision(kws, exts, path)
        }),
{
}

/// With no user patterns, the single entry point decides on a path and its
/// text as the path-and-text check does.
pub proof fn lemma_entry_point_agrees_with_content_check(
    kws: Seq<Seq<char>>,
    exts: Seq<Seq<char>>,
    path: Seq<char>,
    content: Seq<char>,
)
    ensures
        ({
            let d = full_decision(kws, exts, path, Some(content), seq![]);
            (d.0, d.1) == content_decision(kws, exts, path, content)
        }),
{
    assert(default_pii_patterns() + Seq::<(Seq<char>, Seq<char>)>::empty() =~= default_pii_patterns());
}

/// The single entry point is the path check followed by the text scan: a
/// sensitive path gives the path's reason and no personal data; otherwise
/// the file is sensitive exactly when the scan of the text (none without a
/// text) under the built-in and the user's patterns finds personal data,
/// those hits are reported, and a reason is given exactly when it is
/// sensitive.
pub proof fn lemma_entry_point_composes(
    kws: Seq<Seq<char>>,
    exts: Seq<Seq<char>>,
    path: Seq<char>,
    content: Option<Seq<char>>,
    user: Seq<(Seq<char>, Seq<char>)>,
)
    ensures
        ({
            let d = full_decision(kws, exts, path, content, user);
            let (ps, pr) = path_decision(kws, exts, path);
            let h = match content {
                Some(t) => hits_in(default_pii_patterns() + user, t),
                None => Seq::<(Seq<char>, usize)>::empty(),
            };
            if ps {
                d.0 && d.1 == pr && d.2.len() == 0
            } else {
                d.0 == (h.len() > 0) && d.2 == h && (d.1 is Some) == d.0
            }
        }),
{
}

/// Every reported hit has at least one match, and comes from one of the
/// patterns, under that pattern's kind.
pub proof fn lemma_hits_are_matches(pats: Seq<(Seq<char>, Seq<char>)>, text: Seq<char>)
    ensures
        forall|i: int|
            0 <= i < hits_in(pats, text).len() ==> {
                let h = #[trigger] hits_in(pats, text)[i];
                &&& h.1 > 0
                &&& exists|j: int|
                    0 <= j < pats.len() && pats[j].0 == h.0 && regex_match_count(pats[j].1, text)
                        == Some(h.1)
            },
    decreases pats.len(),
{
    if pats.len() > 0 {
        lemma_hits_are_matches(pats.drop_last(), text);
        let rest = hits_in(pats.drop_last(), text);
        assert forall|i: int| 0 <= i < hits_in(pats, text).len() implies {
            let h = #[trigger] hits_in(pats, text)[i];
            &&& h.1 > 0
            &&& exists|j: int|
                0 <= j < pats.len() && pats[j].0 == h.0 && regex_match_count(pats[j].1, text)
                    == Some(h.1)
        } by {
            if i < rest.len() {
                let h = rest[i];
                let j = choose|j: int|
                    0 <= j < pats.drop_last().len() && pats.drop_last()[j].0 == h.0
                        && regex_match_count(pats.drop_last()[j].1, text) == Some(h.1);
                assert(pats[j] == pats.drop_last()[j]);
            } else {
                assert(pats[pats.len() - 1] == pats.last());
            }
        }
    }
}

} // verus!
