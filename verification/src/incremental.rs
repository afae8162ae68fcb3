//! Incremental compilation: which files changed since they were last
//! compiled, and the totals over everything compiled so far.
//!
//! The state is keyed by file path; each path occurs once. A file counts as
//! changed when it was never compiled or when its content hash differs from
//! the one recorded at its last compilation.

use vstd::prelude::*;
use crate::text::{owned, same_text};
use crate::clock::now_local_seconds;

verus! {

/// What was recorded of one file at its last compilation.
#[derive(Debug, Clone)]
pub struct FileState {
    pub hash: String,
    pub compiled_at: String,
    pub input_chars: u64,
    pub output_chars: u64,
}

/// The mathematical value of a file's record.
pub ghost struct FileStateView {
    pub hash: Seq<char>,
    pub compiled_at: Seq<char>,
    pub input_chars: u64,
    pub output_chars: u64,
}

impl View for FileState {
    type V = FileStateView;

    open spec fn view(&self) -> FileStateView {
        FileStateView {
            hash: self.hash@,
            compiled_at: self.compiled_at@,
            input_chars: self.input_chars,
            output_chars: self.output_chars,
        }
    }
}

/// Totals over all recorded files.
#[derive(Debug, Clone, Copy, PartialEq, Eq)]
pub struct CompileStats {
    pub total_files: u64,
    pub total_input_chars: u64,
    pub total_output_chars: u64,
    pub estimated_input_tokens: u64,
    pub estimated_output_tokens: u64,
}

impl Default for CompileStats {
    fn default() -> (r: Self)
        ensures
            r == zero_stats(),
    {
        CompileStats {
            total_files: 0,
            total_input_chars: 0,
            total_output_chars: 0,
            estimated_input_tokens: 0,
            estimated_output_tokens: 0,
        }
    }
}

/// All totals zero.
pub open spec fn zero_stats() -> CompileStats {
    CompileStats {
        total_files: 0,
        total_input_chars: 0,
        total_output_chars: 0,
        estimated_input_tokens: 0,
        estimated_output_tokens: 0,
    }
}

/// The token estimate for a number of characters: half of them, rounded down
/// (Korean and English text mixed).
pub open spec fn tokens_for(chars: u64) -> u64 {
    chars / 2
}

/// The figures of one compilation run.
#[derive(Debug, Clone, Copy, PartialEq, Eq)]
pub struct BenchmarkReport {
    pub files_processed: u64,
    pub files_skipped: u64,
    pub input_chars: u64,
    pub output_chars: u64,
    pub estimated_input_tokens: u64,
    pub estimated_output_tokens: u64,
    pub is_incremental: bool,
}

impl BenchmarkReport {
    /// The token estimate for `chars` characters: `chars / 2`.
    pub fn estimate_tokens(chars: u64) -> (r: u64)
        ensures
            r == tokens_for(chars),
    {
        chars / 2
    }
}

/// The views of the entries (path, record).
pub open spec fn entry_views(v: Seq<(String, FileState)>) -> Seq<(Seq<char>, FileStateView)> {
    Seq::new(v.len(), |i: int| (v[i].0@, v[i].1@))
}

/// No path occurs twice.
pub open spec fn keys_unique(e: Seq<(Seq<char>, FileStateView)>) -> bool {
    forall|i: int, j: int| 0 <= i < j < e.len() ==> (#[trigger] e[i]).0 != (#[trigger] e[j]).0
}

/// Some entry has the path `k`.
pub open spec fn has_key(e: Seq<(Seq<char>, FileStateView)>, k: Seq<char>) -> bool {
    exists|i: int| 0 <= i < e.len() && (#[trigger] e[i]).0 == k
}

/// Whether the file `k` with content hash `h` needs compiling: no record of
/// it carries that hash.
pub open spec fn changed(e: Seq<(Seq<char>, FileStateView)>, k: Seq<char>, h: Seq<char>) -> bool {
    !exists|i: int| 0 <= i < e.len() && (#[trigger] e[i]).0 == k && e[i].1.hash == h
}

/// The entries with the record of `k` set to `v`: replaced in place when `k`
/// is there, appended otherwise.
pub open spec fn upsert(
    e: Seq<(Seq<char>, FileStateView)>,
    k: Seq<char>,
    v: FileStateView,
) -> Seq<(Seq<char>, FileStateView)> {
    if has_key(e, k) {
        Seq::new(e.len(), |i: int| if e[i].0 == k { (k, v) } else { e[i] })
    } else {
        e.push((k, v))
    }
}

/// The input characters of all entries.
pub open spec fn sum_input(e: Seq<(Seq<char>, FileStateView)>) -> nat
    decreases e.len(),
{
    if e.len() == 0 {
        0
    } else {
        sum_input(e.drop_last()) + (e.last().1.input_chars as nat)
    }
}

/// The output characters of all entries.
pub open spec fn sum_output(e: Seq<(Seq<char>, FileStateView)>) -> nat
    decreases e.len(),
{
    if e.len() == 0 {
        0
    } else {
        sum_output(e.drop_last()) + (e.last().1.output_chars as nat)
    }
}

/// The totals fit in a `u64`.
pub open spec fn sums_fit(e: Seq<(Seq<char>, FileStateView)>) -> bool {
    sum_input(e) <= u64::MAX && sum_output(e) <= u64::MAX
}

/// The totals still fit after `k` is recorded with these character counts
/// (the hash and the time do not enter the totals).
pub open spec fn record_fits(
    e: Seq<(Seq<char>, FileStateView)>,
    k: Seq<char>,
    input_chars: u64,
    output_chars: u64,
) -> bool {
    sums_fit(
        upsert(
            e,
            k,
            FileStateView { hash: Seq::empty(), compiled_at: Seq::empty(), input_chars, output_chars },
        ),
    )
}

/// Entries with the same counts at each position have the same totals.
proof fn lemma_sums_same_counts(a: Seq<(Seq<char>, FileStateView)>, b: Seq<(Seq<char>, FileStateView)>)
    requires
        a.len() == b.len(),
        forall|i: int|
            0 <= i < a.len() ==> (#[trigger] a[i]).1.input_chars == b[i].1.input_chars
                && a[i].1.output_chars == b[i].1.output_chars,
    ensures
        sum_input(a) == sum_input(b),
        sum_output(a) == sum_output(b),
    decreases a.len(),
{
    if a.len() > 0 {
        lemma_sums_same_counts(a.drop_last(), b.drop_last());
        assert(a.last() == a[a.len() - 1]);
    }
}

/// The totals after recording `k` depend on its counts only.
proof fn lemma_record_fits(e: Seq<(Seq<char>, FileStateView)>, k: Seq<char>, v: FileStateView)
    ensures
        record_fits(e, k, v.input_chars, v.output_chars) == sums_fit(upsert(e, k, v)),
{
    let w = FileStateView {
        hash: Seq::empty(),
        compiled_at: Seq::empty(),
        input_chars: v.input_chars,
        output_chars: v.output_chars,
    };
    let a = upsert(e, k, w);
    let b = upsert(e, k, v);
    assert forall|i: int| 0 <= i < a.len() implies (#[trigger] a[i]).1.input_chars
        == b[i].1.input_chars && a[i].1.output_chars == b[i].1.output_chars by {
        if has_key(e, k) {
        } else {
            if i < e.len() {
                assert(a[i] == e[i] && b[i] == e[i]);
            }
        }
    }
    lemma_sums_same_counts(a, b);
}

/// The totals of the entries `e`.
pub open spec fn stats_of(e: Seq<(Seq<char>, FileStateView)>) -> CompileStats {
    CompileStats {
        total_files: e.len() as u64,
        total_input_chars: sum_input(e) as u64,
        total_output_chars: sum_output(e) as u64,
        estimated_input_tokens: tokens_for(sum_input(e) as u64),
        estimated_output_tokens: tokens_for(sum_output(e) as u64),
    }
}

/// The compilation state of a set of files, with its totals.
#[derive(Debug, Clone)]
pub struct CompileState {
    /// (path, record), each path once.
    pub entries: Vec<(String, FileState)>,
    pub stats: CompileStats,
}

impl View for CompileState {
    type V = Seq<(Seq<char>, FileStateView)>;

    open spec fn view(&self) -> Seq<(Seq<char>, FileStateView)> {
        entry_views(self.entries@)
    }
}

/// The sum over a prefix is at most the sum over the whole.
proof fn lemma_sums_prefix(e: Seq<(Seq<char>, FileStateView)>, i: int)
    requires
        0 <= i <= e.len(),
    ensures
        sum_input(e.take(i)) <= sum_input(e),
        sum_output(e.take(i)) <= sum_output(e),
    decreases e.len() - i,
{
    if i < e.len() {
        lemma_sums_prefix(e, i + 1);
        assert(e.take(i + 1).drop_last() =~= e.take(i));
    } else {
        assert(e.take(i) =~= e);
    }
}

/// A key that is absent stays absent in a prefix; a key present once stays
/// unique after an update.
proof fn lemma_upsert_unique(e: Seq<(Seq<char>, FileStateView)>, k: Seq<char>, v: FileStateView)
    requires
        keys_unique(e),
    ensures
        keys_unique(upsert(e, k, v)),
        has_key(upsert(e, k, v), k),
        upsert(e, k, v).len() == if has_key(e, k) { e.len() } else { e.len() + 1 },
        forall|j: int| 0 <= j < e.len() ==> (#[trigger] upsert(e, k, v)[j]).0 == e[j].0,
{
    let u = upsert(e, k, v);
    if has_key(e, k) {
        let i = choose|i: int| 0 <= i < e.len() && (#[trigger] e[i]).0 == k;
        assert(u[i].0 == k);
        assert forall|a: int, b: int| 0 <= a < b < u.len() implies (#[trigger] u[a]).0 != (
        #[trigger] u[b]).0 by {
            assert(u[a].0 == e[a].0 && u[b].0 == e[b].0);
        }
    } else {
        assert(u[e.len() as int].0 == k);
        assert forall|a: int, b: int| 0 <= a < b < u.len() implies (#[trigger] u[a]).0 != (
        #[trigger] u[b]).0 by {
            if b == e.len() {
                assert(u[a] == e[a]);
                assert(e[a].0 != k);
            } else {
                assert(u[a] == e[a] && u[b] == e[b]);
            }
        }
    }
}

impl CompileState {
    /// The state is consistent: each path occurs once and the totals are those
    /// of the entries.
    pub open spec fn wf(&self) -> bool {
        &&& keys_unique(self@)
        &&& sums_fit(self@)
        &&& self.stats == stats_of(self@)
    }

    /// No file compiled yet.
    pub fn new() -> (r: Self)
        ensures
            r@ == Seq::<(Seq<char>, FileStateView)>::empty(),
            r.wf(),
            r.stats == zero_stats(),
    {
        let r = CompileState { entries: Vec::new(), stats: CompileStats::default() };
        proof {
            assert(r@ =~= Seq::<(Seq<char>, FileStateView)>::empty());
        }
        r
    }

    /// The entries (path, record), in the order in which the paths were first
    /// recorded.
    pub fn entries(&self) -> (r: &Vec<(String, FileState)>)
        ensures
            entry_views(r@) == self@,
    {
        &self.entries
    }

    /// A state holding `entries`, with its totals computed; `None` when a path
    /// occurs twice or a total does not fit in a `u64`.
    pub fn from_entries(entries: Vec<(String, FileState)>) -> (r: Option<Self>)
        ensures
            match r {
                Some(s) => s.wf() && s@ == entry_views(entries@),
                None => !(keys_unique(entry_views(entries@)) && sums_fit(entry_views(entries@))),
            },
    {
        let mut i: usize = 0;
        while i < entries.len()
            invariant
                i <= entries@.len(),
                forall|a: int, b: int|
                    0 <= a < b < i ==> (#[trigger] entries@[a]).0@ != (#[trigger] entries@[b]).0@,
            decreases entries@.len() - i,
        {
            let mut j: usize = 0;
            while j < i
                invariant
                    j <= i < entries@.len(),
                    forall|a: int| 0 <= a < j ==> (#[trigger] entries@[a]).0@ != entries@[i as int].0@,
                decreases i - j,
            {
                if same_text(entries[j].0.as_str(), entries[i].0.as_str()) {
                    proof {
                        let e = entry_views(entries@);
                        assert(e[j as int].0 == e[i as int].0);
                    }
                    return None;
                }
                j = j + 1;
            }
            i = i + 1;
        }
        proof {
            let e = entry_views(entries@);
            assert forall|a: int, b: int| 0 <= a < b < e.len() implies (#[trigger] e[a]).0 != (
            #[trigger] e[b]).0 by {
                assert(e[a].0 == entries@[a].0@ && e[b].0 == entries@[b].0@);
            }
        }
        match totals(&entries) {
            Some(stats) => Some(CompileState { entries, stats }),
            None => None,
        }
    }

    /// Whether `file_path` needs compiling with content hash `current_hash`:
    /// it was never compiled, or it was compiled with another hash.
    pub fn is_changed(&self, file_path: &str, current_hash: &str) -> (r: bool)
        requires
            self.wf(),
        ensures
            r == changed(self@, file_path@, current_hash@),
    {
        let mut i: usize = 0;
        while i < self.entries.len()
            invariant
                i <= self.entries@.len(),
                keys_unique(self@),
                forall|j: int| 0 <= j < i ==> (#[trigger] self@[j]).0 != file_path@,
            decreases self.entries@.len() - i,
        {
            if same_text(self.entries[i].0.as_str(), file_path) {
                let r = !same_text(self.entries[i].1.hash.as_str(), current_hash);
                proof {
                    let e = self@;
                    assert(e[i as int].0 == file_path@);
                    if !r {
                        assert(e[i as int].1.hash == current_hash@);
                    } else {
                        assert forall|j: int| 0 <= j < e.len() && (#[trigger] e[j]).0 == file_path@
                            implies e[j].1.hash != current_hash@ by {
                            if j != i {
                                if j < i {
                                } else {
                                    assert(e[i as int].0 != e[j].0);
                                }
                            }
                        }
                    }
                }
                return r;
            }
            i = i + 1;
        }
        true
    }

    /// The position of the entry of `key`.
    fn index_of(&self, key: &str) -> (r: Option<usize>)
        ensures
            match r {
                Some(i) => i < self@.len() && self@[i as int].0 == key@,
                None => !has_key(self@, key@),
            },
    {
        let mut i: usize = 0;
        while i < self.entries.len()
            invariant
                i <= self.entries@.len(),
                forall|j: int| 0 <= j < i ==> (#[trigger] self@[j]).0 != key@,
            decreases self.entries@.len() - i,
        {
            if same_text(self.entries[i].0.as_str(), key) {
                return Some(i);
            }
            i = i + 1;
        }
        None
    }

    /// Records that `file_path` was compiled with content hash `hash` at
    /// `compiled_at`, and recomputes the totals.
    pub fn record_compile_at(
        &mut self,
        file_path: &str,
        hash: &str,
        input_chars: u64,
        output_chars: u64,
        compiled_at: &str,
    )
        requires
            old(self).wf(),
            record_fits(old(self)@, file_path@, input_chars, output_chars),
        ensures
            final(self)@ == upsert(
                old(self)@,
                file_path@,
                FileStateView { hash: hash@, compiled_at: compiled_at@, input_chars, output_chars },
            ),
            final(self).wf(),
    {
        let st = FileState {
            hash: owned(hash),
            compiled_at: owned(compiled_at),
            input_chars,
            output_chars,
        };
        let ghost before = self@;
        let ghost v = st@;
        proof {
            lemma_upsert_unique(before, file_path@, v);
            lemma_record_fits(before, file_path@, v);
        }
        let pos = self.index_of(file_path);
        let mut entries: Vec<(String, FileState)> = Vec::new();
        std::mem::swap(&mut entries, &mut self.entries);
        if let Some(i) = pos {
            let key = entries[i].0.clone();
            entries.set(i, (key, st));
            proof {
                let u = upsert(before, file_path@, v);
                assert(has_key(before, file_path@)) by {
                    assert(before[i as int].0 == file_path@);
                }
                assert forall|j: int| 0 <= j < before.len() implies (#[trigger] entry_views(
                    entries@,
                )[j]) == u[j] by {
                    if j != i {
                        if before[j].0 == file_path@ {
                            assert(before[i as int].0 == file_path@);
                        }
                    }
                }
                assert(entry_views(entries@) =~= u);
            }
        } else {
            entries.push((owned(file_path), st));
            proof {
                assert(!has_key(before, file_path@));
                assert(entry_views(entries@) =~= upsert(before, file_path@, v));
            }
        }
        let stats = match totals(&entries) {
            Some(s) => s,
            None => CompileStats::default(),
        };
        self.entries = entries;
        self.stats = stats;
    }

    /// `record_compile_at` stamped with the current local time.
    pub fn record_compile(&mut self, file_path: &str, hash: &str, input_chars: u64, output_chars: u64)
        requires
            old(self).wf(),
            record_fits(old(self)@, file_path@, input_chars, output_chars),
        ensures
            exists|at: Seq<char>|
                final(self)@ == #[trigger] upsert(
                    old(self)@,
                    file_path@,
                    FileStateView { hash: hash@, compiled_at: at, input_chars, output_chars },
                ),
            final(self).wf(),
    {
        let now = now_local_seconds();
        self.record_compile_at(file_path, hash, input_chars, output_chars, now.as_str());
    }
}

/// The totals of `entries`; `None` when one does not fit in a `u64`.
fn totals(entries: &Vec<(String, FileState)>) -> (r: Option<CompileStats>)
    ensures
        match r {
            Some(s) => sums_fit(entry_views(entries@)) && s == stats_of(entry_views(entries@)),
            None => !sums_fit(entry_views(entries@)),
        },
{
    let ghost e = entry_views(entries@);
    let mut total_in: u64 = 0;
    let mut total_out: u64 = 0;
    let mut i: usize = 0;
    while i < entries.len()
        invariant
            i <= entries@.len(),
            e == entry_views(entries@),
            total_in == sum_input(e.take(i as int)),
            total_out == sum_output(e.take(i as int)),
        decreases entries@.len() - i,
    {
        proof {
            assert(e.take(i + 1).drop_last() =~= e.take(i as int));
            lemma_sums_prefix(e, i + 1);
        }
        let a = entries[i].1.input_chars;
        let b = entries[i].1.output_chars;
        if a > u64::MAX - total_in || b > u64::MAX - total_out {
            return None;
        }
        total_in = total_in + a;
        total_out = total_out + b;
        i = i + 1;
    }
    proof {
        assert(e.take(i as int) =~= e);
    }
    let n = entries.len() as u64;
    Some(
        CompileStats {
            total_files: n,
            total_input_chars: total_in,
            total_output_chars: total_out,
            estimated_input_tokens: BenchmarkReport::estimate_tokens(total_in),
            estimated_output_tokens: BenchmarkReport::estimate_tokens(total_out),
        },
    )
}

/// A state with nothing recorded finds every file changed.
pub proof fn lemma_nothing_recorded_all_changed(k: Seq<char>, h: Seq<char>)
    ensures
        changed(Seq::<(Seq<char>, FileStateView)>::empty(), k, h),
{
}

/// Right after a file is recorded with a hash, it counts as unchanged with
/// that hash and as changed with any other.
pub proof fn lemma_recorded_file_unchanged(
    e: Seq<(Seq<char>, FileStateView)>,
    k: Seq<char>,
    v: FileStateView,
    other: Seq<char>,
)
    requires
        keys_unique(e),
        other != v.hash,
    ensures
        !changed(upsert(e, k, v), k, v.hash),
        changed(upsert(e, k, v), k, other),
{
    lemma_upsert_unique(e, k, v);
    let u = upsert(e, k, v);
    let i = choose|i: int| 0 <= i < u.len() && (#[trigger] u[i]).0 == k;
    if has_key(e, k) {
        assert(u[i] == (k, v));
    } else {
        assert(i == e.len()) by {
            if i < e.len() {
                assert(u[i] == e[i]);
            }
        }
    }
    assert forall|j: int| 0 <= j < u.len() && (#[trigger] u[j]).0 == k implies u[j].1.hash
        != other by {
        if j != i {
            if j < i {
                assert(u[j].0 != u[i].0);
            } else {
                assert(u[i].0 != u[j].0);
            }
        }
        if has_key(e, k) {
            assert(u[j] == (k, v));
        }
    }
}

/// Recording one file leaves the verdict on every other file as it was.
pub proof fn lemma_record_keeps_other_files(
    e: Seq<(Seq<char>, FileStateView)>,
    k: Seq<char>,
    v: FileStateView,
    q: Seq<char>,
    h: Seq<char>,
)
    requires
        q != k,
    ensures
        changed(upsert(e, k, v), q, h) == changed(e, q, h),
{
    let u = upsert(e, k, v);
    if !changed(e, q, h) {
        let i = choose|i: int| 0 <= i < e.len() && (#[trigger] e[i]).0 == q && e[i].1.hash == h;
        assert(u[i] == e[i]);
    }
    if !changed(u, q, h) {
        let i = choose|i: int| 0 <= i < u.len() && (#[trigger] u[i]).0 == q && u[i].1.hash == h;
        if has_key(e, k) {
            assert(u[i] == e[i]);
        } else {
            assert(i < e.len());
            assert(u[i] == e[i]);
        }
    }
}

/// Recording a file counts it once: a new path adds one to the number of
/// files, a path seen before leaves it as it was.
pub proof fn lemma_record_counts_files_once(
    e: Seq<(Seq<char>, FileStateView)>,
    k: Seq<char>,
    v: FileStateView,
)
    requires
        keys_unique(e),
        e.len() < u64::MAX,
    ensures
        stats_of(upsert(e, k, v)).total_files == if has_key(e, k) {
            e.len()
        } else {
            e.len() + 1
        },
{
    lemma_upsert_unique(e, k, v);
}

} // verus!
