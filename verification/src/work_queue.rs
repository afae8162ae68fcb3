//! The work queue: the files of an inbox, the state of each, and the plan of
//! the next batch.
//!
//! States: Pending, then Processing, then Done; a Done file whose text changed
//! becomes Modified, one that disappeared becomes Deleted; a failed file waits
//! as Failed for a retry. The queue is keyed by file name; each name occurs
//! once.

use vstd::prelude::*;
use crate::text::{owned, strs};
use crate::paths::{file_name_of, path_file_name};
use crate::clock::now_rfc3339;

verus! {

/// Files larger than this many bytes are handled as large ones.
pub const LARGE_FILE_THRESHOLD: u64 = 40000;

/// The state of one file.
#[derive(Debug, Clone, PartialEq, Eq)]
pub enum WorkStatus {
    /// Waiting, not processed yet.
    Pending,
    /// Being processed.
    Processing,
    /// Processed.
    Done,
    /// Its text changed after it was processed: to be processed again.
    Modified,
    /// It disappeared after it was processed.
    Deleted,
    /// Processing failed; it waits for a retry.
    Failed { reason: String, retries: u32 },
}

/// The mathematical value of a state.
pub ghost enum StatusView {
    Pending,
    Processing,
    Done,
    Modified,
    Deleted,
    Failed { reason: Seq<char>, retries: u32 },
}

impl View for WorkStatus {
    type V = StatusView;

    open spec fn view(&self) -> StatusView {
        match self {
            WorkStatus::Pending => StatusView::Pending,
            WorkStatus::Processing => StatusView::Processing,
            WorkStatus::Done => StatusView::Done,
            WorkStatus::Modified => StatusView::Modified,
            WorkStatus::Deleted => StatusView::Deleted,
            WorkStatus::Failed { reason, retries } => StatusView::Failed {
                reason: reason@,
                retries: *retries,
            },
        }
    }
}

/// One file of the queue.
#[derive(Debug, Clone)]
pub struct WorkItem {
    pub path: String,
    pub hash: String,
    pub size_bytes: u64,
    pub status: WorkStatus,
    pub created_at: String,
    pub updated_at: String,
    /// Larger than `LARGE_FILE_THRESHOLD`.
    pub is_large: bool,
}

/// The mathematical value of an item.
pub ghost struct ItemView {
    pub path: Seq<char>,
    pub hash: Seq<char>,
    pub size_bytes: u64,
    pub status: StatusView,
    pub created_at: Seq<char>,
    pub updated_at: Seq<char>,
    pub is_large: bool,
}

impl View for WorkItem {
    type V = ItemView;

    open spec fn view(&self) -> ItemView {
        ItemView {
            path: self.path@,
            hash: self.hash@,
            size_bytes: self.size_bytes,
            status: self.status@,
            created_at: self.created_at@,
            updated_at: self.updated_at@,
            is_large: self.is_large,
        }
    }
}

/// The views of the entries (key, item) of a queue.
pub open spec fn entry_views(v: Seq<(String, WorkItem)>) -> Seq<(Seq<char>, ItemView)> {
    Seq::new(v.len(), |i: int| (v[i].0@, v[i].1@))
}

/// No key occurs twice.
pub open spec fn keys_unique(e: Seq<(Seq<char>, ItemView)>) -> bool {
    forall|i: int, j: int| 0 <= i < j < e.len() ==> (#[trigger] e[i]).0 != (#[trigger] e[j]).0
}

/// Some entry has the key `k`.
pub open spec fn has_key(e: Seq<(Seq<char>, ItemView)>, k: Seq<char>) -> bool {
    exists|i: int| 0 <= i < e.len() && (#[trigger] e[i]).0 == k
}

/// The key under which the queue knows a path: its file name (empty when it
/// has none).
pub open spec fn key_of(path: Seq<char>) -> Seq<char> {
    match file_name_of(path) {
        Some(n) => n,
        None => seq![],
    }
}

/// The entries, with `f` applied to the item under the key `k`.
pub open spec fn update_key(
    e: Seq<(Seq<char>, ItemView)>,
    k: Seq<char>,
    f: spec_fn(ItemView) -> ItemView,
) -> Seq<(Seq<char>, ItemView)> {
    Seq::new(e.len(), |i: int| if e[i].0 == k { (e[i].0, f(e[i].1)) } else { e[i] })
}

/// The entries, with the item under the key `k` in the state `st`, stamped
/// at `now`.
pub open spec fn with_status(
    e: Seq<(Seq<char>, ItemView)>,
    k: Seq<char>,
    st: StatusView,
    now: Seq<char>,
) -> Seq<(Seq<char>, ItemView)> {
    update_key(e, k, |it: ItemView| restamp(it, st, now))
}

/// The entries, with the item under the key `k` failed once more for
/// `reason`, stamped at `now`.
pub open spec fn with_failure(
    e: Seq<(Seq<char>, ItemView)>,
    k: Seq<char>,
    reason: Seq<char>,
    now: Seq<char>,
) -> Seq<(Seq<char>, ItemView)> {
    update_key(e, k, |it: ItemView| restamp(it, failed_after(it.status, reason), now))
}

/// The item with a new state, stamped at `now`.
pub open spec fn restamp(it: ItemView, s: StatusView, now: Seq<char>) -> ItemView {
    ItemView { status: s, updated_at: now, ..it }
}

/// The state after one more failure: the retry count goes up by one.
pub open spec fn failed_after(s: StatusView, reason: Seq<char>) -> StatusView {
    match s {
        StatusView::Failed { retries, .. } => StatusView::Failed {
            reason,
            retries: (retries + 1) as u32,
        },
        _ => StatusView::Failed { reason, retries: 1 },
    }
}

/// No item under the key `k` has failed as many times as a `u32` counts.
pub open spec fn retries_below_max(e: Seq<(Seq<char>, ItemView)>, k: Seq<char>) -> bool {
    forall|i: int|
        0 <= i < e.len() && (#[trigger] e[i]).0 == k ==> !(e[i].1.status matches StatusView::Failed {
            retries,
            ..
        } && retries == u32::MAX)
}

/// The entries, with every failed item back to Pending, stamped at `now`.
pub open spec fn retry_failed(e: Seq<(Seq<char>, ItemView)>, now: Seq<char>) -> Seq<
    (Seq<char>, ItemView),
> {
    Seq::new(
        e.len(),
        |i: int|
            if e[i].1.status is Failed {
                (e[i].0, restamp(e[i].1, StatusView::Pending, now))
            } else {
                e[i]
            },
    )
}

/// The number of entries whose state satisfies `p`.
pub open spec fn count_status(e: Seq<(Seq<char>, ItemView)>, p: spec_fn(StatusView) -> bool) -> nat
    decreases e.len(),
{
    if e.len() == 0 {
        0
    } else {
        count_status(e.drop_last(), p) + if p(e.last().1.status) {
            1nat
        } else {
            0nat
        }
    }
}

/// The number of Pending items.
pub open spec fn pending_count(e: Seq<(Seq<char>, ItemView)>) -> nat {
    count_status(e, |s: StatusView| s is Pending)
}

/// The number of Processing items.
pub open spec fn processing_count(e: Seq<(Seq<char>, ItemView)>) -> nat {
    count_status(e, |s: StatusView| s is Processing)
}

/// The number of Done items.
pub open spec fn done_count(e: Seq<(Seq<char>, ItemView)>) -> nat {
    count_status(e, |s: StatusView| s is Done)
}

/// The number of Modified items.
pub open spec fn modified_count(e: Seq<(Seq<char>, ItemView)>) -> nat {
    count_status(e, |s: StatusView| s is Modified)
}

/// The number of Deleted items.
pub open spec fn deleted_count(e: Seq<(Seq<char>, ItemView)>) -> nat {
    count_status(e, |s: StatusView| s is Deleted)
}

/// The number of Failed items.
pub open spec fn failed_count(e: Seq<(Seq<char>, ItemView)>) -> nat {
    count_status(e, |s: StatusView| s is Failed)
}

proof fn lemma_count_status_le(e: Seq<(Seq<char>, ItemView)>, p: spec_fn(StatusView) -> bool)
    ensures
        count_status(e, p) <= e.len(),
    decreases e.len(),
{
    if e.len() > 0 {
        lemma_count_status_le(e.drop_last(), p);
    }
}

proof fn lemma_size_total_prefix(e: Seq<(Seq<char>, ItemView)>, i: int)
    requires
        0 <= i <= e.len(),
    ensures
        size_total(e.take(i)) <= size_total(e),
    decreases e.len() - i,
{
    if i < e.len() {
        lemma_size_total_prefix(e, i + 1);
        assert(e.take(i + 1).drop_last() =~= e.take(i));
    } else {
        assert(e.take(i) =~= e);
    }
}

/// The entries whose item is not Deleted, in order.
pub open spec fn without_deleted(e: Seq<(Seq<char>, ItemView)>) -> Seq<(Seq<char>, ItemView)>
    decreases e.len(),
{
    if e.len() == 0 {
        seq![]
    } else if e.last().1.status is Deleted {
        without_deleted(e.drop_last())
    } else {
        without_deleted(e.drop_last()).push(e.last())
    }
}

/// What is kept of the entries comes from them, and keeps keys unique.
pub proof fn lemma_without_deleted_unique(e: Seq<(Seq<char>, ItemView)>)
    requires
        keys_unique(e),
    ensures
        keys_unique(without_deleted(e)),
        forall|i: int|
            0 <= i < without_deleted(e).len() ==> exists|j: int|
                0 <= j < e.len() && e[j] == #[trigger] without_deleted(e)[i],
    decreases e.len(),
{
    if e.len() > 0 {
        let pre = e.drop_last();
        assert(keys_unique(pre)) by {
            assert forall|a: int, b: int| 0 <= a < b < pre.len() implies (#[trigger] pre[a]).0
                != (#[trigger] pre[b]).0 by {
                assert(e[a] == pre[a] && e[b] == pre[b]);
            }
        }
        lemma_without_deleted_unique(pre);
        let w = without_deleted(pre);
        let r = without_deleted(e);
        assert forall|i: int| 0 <= i < r.len() implies exists|j: int|
            0 <= j < e.len() && e[j] == #[trigger] r[i] by {
            if i < w.len() {
                let j = choose|j: int| 0 <= j < pre.len() && pre[j] == w[i];
                assert(e[j] == r[i]);
            } else {
                assert(e[e.len() - 1] == r[i]);
            }
        }
        assert forall|a: int, b: int| 0 <= a < b < r.len() implies (#[trigger] r[a]).0 != (
        #[trigger] r[b]).0 by {
            if b >= w.len() {
                let j = choose|j: int| 0 <= j < pre.len() && pre[j] == w[a];
                assert(e[j] == r[a]);
                assert(e[e.len() - 1] == r[b]);
            }
        }
    }
}

/// The sum of the sizes of the items.
pub open spec fn size_total(e: Seq<(Seq<char>, ItemView)>) -> nat
    decreases e.len(),
{
    if e.len() == 0 {
        0
    } else {
        size_total(e.drop_last()) + e.last().1.size_bytes as nat
    }
}

/// Counts of a queue's items by state.
#[derive(Debug, Default)]
pub struct QueueStats {
    pub total: u64,
    pub pending: u64,
    pub processing: u64,
    pub done: u64,
    pub modified: u64,
    pub deleted: u64,
    pub failed: u64,
    pub total_bytes: u64,
}

/// The queue of the files of an inbox, keyed by file name.
#[derive(Debug)]
pub struct WorkQueue {
    items: Vec<(String, WorkItem)>,
}

impl View for WorkQueue {
    type V = Seq<(Seq<char>, ItemView)>;

    closed spec fn view(&self) -> Seq<(Seq<char>, ItemView)> {
        entry_views(self.items@)
    }
}

/// The key of a path as the queue reads it.
fn key_for(path: &str) -> (k: String)
    ensures
        k@ == key_of(path@),
{
    match path_file_name(path) {
        Some(n) => n,
        None => String::new(),
    }
}

impl WorkQueue {
    #[verifier::type_invariant]
    spec fn unique_keys(&self) -> bool {
        keys_unique(self@)
    }

    /// An empty queue.
    pub fn new() -> (r: Self)
        ensures
            r@ == Seq::<(Seq<char>, ItemView)>::empty(),
    {
        let r = WorkQueue { items: Vec::new() };
        proof {
            assert(r@ =~= Seq::<(Seq<char>, ItemView)>::empty());
        }
        r
    }


    /// A queue holding `items` (key, item), as saved; `None` when a key
    /// occurs twice.
    pub fn from_entries(items: Vec<(String, WorkItem)>) -> (r: Option<Self>)
        ensures
            match r {
                Some(q) => q@ == entry_views(items@),
                None => !keys_unique(entry_views(items@)),
            },
    {
        let ghost e = entry_views(items@);
        let mut i: usize = 0;
        while i < items.len()
            invariant
                i <= items@.len(),
                e == entry_views(items@),
                forall|a: int, b: int| 0 <= a < b < i ==> (#[trigger] e[a]).0 != (#[trigger] e[b]).0,
            decreases items@.len() - i,
        {
            let mut j: usize = 0;
            while j < i
                invariant
                    j <= i < items@.len(),
                    e == entry_views(items@),
                    forall|a: int| 0 <= a < j ==> (#[trigger] e[a]).0 != e[i as int].0,
                decreases i - j,
            {
                if crate::text::same_text(items[j].0.as_str(), items[i].0.as_str()) {
                    proof {
                        assert(e[j as int].0 == e[i as int].0);
                    }
                    return None;
                }
                j = j + 1;
            }
            i = i + 1;
        }
        Some(WorkQueue { items })
    }

    /// The entries (key, item) of the queue.
    pub fn items(&self) -> (r: &Vec<(String, WorkItem)>)
        ensures
            entry_views(r@) == self@,
    {
        &self.items
    }

    /// The position of the entry with the key `key`.
    fn index_of(&self, key: &str) -> (r: Option<usize>)
        ensures
            match r {
                Some(i) => i < self@.len() && self@[i as int].0 == key@,
                None => !has_key(self@, key@),
            },
    {
        let mut i: usize = 0;
        while i < self.items.len()
            invariant
                i <= self.items@.len(),
                forall|j: int| 0 <= j < i ==> (#[trigger] self@[j]).0 != key@,
            decreases self.items@.len() - i,
        {
            if crate::text::same_text(self.items[i].0.as_str(), key) {
                return Some(i);
            }
            i = i + 1;
        }
        None
    }

    /// The item under the key `key`.
    pub fn get(&self, key: &str) -> (r: Option<&WorkItem>)
        ensures
            match r {
                Some(it) => exists|i: int|
                    0 <= i < self@.len() && (#[trigger] self@[i]).0 == key@ && self@[i].1 == it@,
                None => !has_key(self@, key@),
            },
    {
        match self.index_of(key) {
            Some(i) => Some(&self.items[i].1),
            None => None,
        }
    }

    /// Replaces the item at position `i` by `it` under the same key.
    fn replace_at(&mut self, i: usize, it: WorkItem)
        requires
            i < old(self)@.len(),
        ensures
            final(self)@ == old(self)@.update(i as int, (old(self)@[i as int].0, it@)),
    {
        proof {
            use_type_invariant(&*self);
        }
        let key = self.items[i].0.clone();
        let ghost before = self@;
        let mut items: Vec<(String, WorkItem)> = Vec::new();
        std::mem::swap(&mut items, &mut self.items);
        items.set(i, (key, it));
        proof {
            let after = entry_views(items@);
            assert(after =~= before.update(i as int, (before[i as int].0, it@)));
            assert forall|a: int, b: int| 0 <= a < b < after.len() implies (#[trigger] after[a]).0
                != (#[trigger] after[b]).0 by {
                assert(before[a].0 == after[a].0);
                assert(before[b].0 == after[b].0);
            }
        }
        self.items = items;
        proof {
            assert(self@ =~= before.update(i as int, (before[i as int].0, it@)));
            assert(keys_unique(self@)) by {
                assert forall|a: int, b: int| 0 <= a < b < self@.len() implies (#[trigger] self@[a]).0
                    != (#[trigger] self@[b]).0 by {
                    assert(before[a].0 == self@[a].0);
                    assert(before[b].0 == self@[b].0);
                }
            }
        }
    }

    /// Sets the state of the item under the path's key, stamped at `now`; a
    /// path that the queue does not know is passed over.
    fn set_status_at(&mut self, path: &str, status: WorkStatus, now: &str)
        ensures
            final(self)@ == with_status(old(self)@, key_of(path@), status@, now@),
    {
        proof {
            use_type_invariant(&*self);
        }
        let key = key_for(path);
        let ghost f = |it: ItemView| restamp(it, status@, now@);
        match self.index_of(key.as_str()) {
            Some(i) => {
                let it = restamped(&self.items[i].1, status, now);
                let ghost before = self@;
                self.replace_at(i, it);
                proof {
                    assert(self@ =~= update_key(before, key@, f));
                }
            },
            None => {
                proof {
                    assert(self@ =~= update_key(self@, key@, f));
                }
            },
        }
    }

    /// Marks the item of `path` as being processed, stamped at `now`.
    pub fn mark_processing_at(&mut self, path: &str, now: &str)
        ensures
            final(self)@ == with_status(old(self)@, key_of(path@), StatusView::Processing, now@),
            keys_unique(final(self)@),
    {
        self.set_status_at(path, WorkStatus::Processing, now);
        proof {
            use_type_invariant(&*self);
        }
    }

    /// Marks the item of `path` as being processed, stamped with the current time.
    pub fn mark_processing(&mut self, path: &str)
        ensures
            exists|now: Seq<char>|
                final(self)@ == #[trigger] with_status(old(self)@, key_of(path@), StatusView::Processing, now),
            keys_unique(final(self)@),
    {
        let now = now_rfc3339();
        self.mark_processing_at(path, now.as_str());
    }

    /// Marks the item of `path` as done, stamped at `now`.
    pub fn mark_done_at(&mut self, path: &str, now: &str)
        ensures
            final(self)@ == with_status(old(self)@, key_of(path@), StatusView::Done, now@),
            keys_unique(final(self)@),
    {
        self.set_status_at(path, WorkStatus::Done, now);
        proof {
            use_type_invariant(&*self);
        }
    }

    /// Marks the item of `path` as done, stamped with the current time.
    pub fn mark_done(&mut self, path: &str)
        ensures
            exists|now: Seq<char>|
                final(self)@ == #[trigger] with_status(old(self)@, key_of(path@), StatusView::Done, now),
            keys_unique(final(self)@),
    {
        let now = now_rfc3339();
        self.mark_done_at(path, now.as_str());
    }

    /// Marks the item of `path` as failed for `reason`, stamped at `now`: one
    /// retry more than before if it had failed already, else the first.
    pub fn mark_failed_at(&mut self, path: &str, reason: &str, now: &str)
        requires
            retries_below_max(old(self)@, key_of(path@)),
        ensures
            final(self)@ == with_failure(old(self)@, key_of(path@), reason@, now@),
            keys_unique(final(self)@),
    {
        proof {
            use_type_invariant(&*self);
        }
        let key = key_for(path);
        let ghost f = |it: ItemView| restamp(it, failed_after(it.status, reason@), now@);
        match self.index_of(key.as_str()) {
            Some(i) => {
                let retries: u32 = match &self.items[i].1.status {
                    WorkStatus::Failed { retries, .. } => {
                        proof {
                            assert(self@[i as int].0 == key_of(path@));
                        }
                        *retries + 1
                    },
                    _ => 1,
                };
                let st = WorkStatus::Failed { reason: owned(reason), retries };
                let it = restamped(&self.items[i].1, st, now);
                let ghost before = self@;
                self.replace_at(i, it);
                proof {
                    assert(self@ =~= update_key(before, key@, f));
                }
            },
            None => {
                proof {
                    assert(self@ =~= update_key(self@, key@, f));
                }
            },
        }
        proof {
            use_type_invariant(&*self);
        }
    }

    /// Marks the item of `path` as failed for `reason`, stamped with the
    /// current time.
    pub fn mark_failed(&mut self, path: &str, reason: &str)
        requires
            retries_below_max(old(self)@, key_of(path@)),
        ensures
            exists|now: Seq<char>|
                final(self)@ == #[trigger] with_failure(old(self)@, key_of(path@), reason@, now),
            keys_unique(final(self)@),
    {
        let now = now_rfc3339();
        self.mark_failed_at(path, reason, now.as_str());
    }

    /// Puts every failed item back to Pending, stamped at `now`; gives their
    /// number.
    pub fn retry_all_failed_at(&mut self, now: &str) -> (r: usize)
        ensures
            final(self)@ == retry_failed(old(self)@, now@),
            r == failed_count(old(self)@),
            keys_unique(final(self)@),
    {
        proof {
            use_type_invariant(&*self);
        }
        let ghost start = self@;
        let mut items: Vec<(String, WorkItem)> = Vec::new();
        std::mem::swap(&mut items, &mut self.items);
        let mut count: usize = 0;
        let mut i: usize = 0;
        while i < items.len()
            invariant
                i <= items@.len(),
                items@.len() == start.len(),
                forall|j: int|
                    0 <= j < items@.len() ==> (#[trigger] entry_views(items@)[j]) == if j < i {
                        retry_failed(start, now@)[j]
                    } else {
                        start[j]
                    },
                count == failed_count(start.take(i as int)),
            decreases items@.len() - i,
        {
            proof {
                lemma_count_status_le(start.take(i as int), |s: StatusView| s is Failed);
                assert(start.take(i + 1).drop_last() =~= start.take(i as int));
                assert(entry_views(items@)[i as int] == start[i as int]);
            }
            let ghost before = items@;
            if matches!(items[i].1.status, WorkStatus::Failed { .. }) {
                let key = items[i].0.clone();
                let it = restamped(&items[i].1, WorkStatus::Pending, now);
                items.set(i, (key, it));
                count = count + 1;
                proof {
                    assert forall|j: int| 0 <= j < items@.len() implies (#[trigger] entry_views(
                        items@,
                    )[j]) == if j < i + 1 {
                        retry_failed(start, now@)[j]
                    } else {
                        start[j]
                    } by {
                        if j != i {
                            assert(entry_views(items@)[j] == entry_views(before)[j]);
                        }
                    }
                }
            } else {
                proof {
                    assert(retry_failed(start, now@)[i as int] == start[i as int]);
                }
            }
            i = i + 1;
        }
        proof {
            assert(entry_views(items@) =~= retry_failed(start, now@));
            assert(start.take(start.len() as int) =~= start);
            let after = entry_views(items@);
            assert forall|a: int, b: int| 0 <= a < b < after.len() implies (#[trigger] after[a]).0
                != (#[trigger] after[b]).0 by {
                assert(start[a].0 == after[a].0);
                assert(start[b].0 == after[b].0);
            }
        }
        self.items = items;
        count
    }

    /// Puts every failed item back to Pending, stamped with the current time;
    /// gives their number.
    pub fn retry_all_failed(&mut self) -> (r: usize)
        ensures
            exists|now: Seq<char>| final(self)@ == #[trigger] retry_failed(old(self)@, now),
            r == failed_count(old(self)@),
            keys_unique(final(self)@),
    {
        let now = now_rfc3339();
        self.retry_all_failed_at(now.as_str())
    }

    /// Removes the Deleted items for good.
    pub fn purge_deleted(&mut self)
        ensures
            final(self)@ == without_deleted(old(self)@),
            keys_unique(final(self)@),
    {
        proof {
            use_type_invariant(&*self);
        }
        let ghost start = self@;
        let mut items: Vec<(String, WorkItem)> = Vec::new();
        std::mem::swap(&mut items, &mut self.items);
        let mut kept: Vec<(String, WorkItem)> = Vec::new();
        let mut i: usize = 0;
        while i < items.len()
            invariant
                i <= items@.len(),
                entry_views(items@) == start,
                entry_views(kept@) == without_deleted(start.take(i as int)),
            decreases items@.len() - i,
        {
            proof {
                assert(start.take(i + 1).drop_last() =~= start.take(i as int));
                assert(start.take(i + 1).last() == start[i as int]);
                assert(entry_views(items@)[i as int] == start[i as int]);
            }
            if !matches!(items[i].1.status, WorkStatus::Deleted) {
                let key = items[i].0.clone();
                let it = copy_item(&items[i].1);
                let ghost before = kept@;
                kept.push((key, it));
                proof {
                    assert(entry_views(kept@) =~= entry_views(before).push(start[i as int]));
                }
            }
            i = i + 1;
        }
        proof {
            assert(start.take(start.len() as int) =~= start);
            lemma_without_deleted_unique(start);
        }
        self.items = kept;
    }

    /// Counts of the items by state, with their number and total size.
    pub fn stats(&self) -> (r: QueueStats)
        requires
            size_total(self@) <= u64::MAX,
        ensures
            r.total == self@.len(),
            r.pending == pending_count(self@),
            r.processing == processing_count(self@),
            r.done == done_count(self@),
            r.modified == modified_count(self@),
            r.deleted == deleted_count(self@),
            r.failed == failed_count(self@),
            r.total_bytes == size_total(self@),
            r.total == r.pending + r.processing + r.done + r.modified + r.deleted + r.failed,
    {
        proof {
            lemma_stats_partition(self@);
        }
        let mut s = QueueStats {
            total: 0,
            pending: 0,
            processing: 0,
            done: 0,
            modified: 0,
            deleted: 0,
            failed: 0,
            total_bytes: 0,
        };
        let ghost e = self@;
        let mut i: usize = 0;
        while i < self.items.len()
            invariant
                i <= e.len(),
                e == self@,
                size_total(e) <= u64::MAX,
                s.total == 0,
                s.pending == pending_count(e.take(i as int)),
                s.processing == processing_count(e.take(i as int)),
                s.done == done_count(e.take(i as int)),
                s.modified == modified_count(e.take(i as int)),
                s.deleted == deleted_count(e.take(i as int)),
                s.failed == failed_count(e.take(i as int)),
                s.total_bytes == size_total(e.take(i as int)),
            decreases e.len() - i,
        {
            proof {
                assert(e.take(i + 1).drop_last() =~= e.take(i as int));
                assert(e.take(i + 1).last() == e[i as int]);
                lemma_size_total_prefix(e, i + 1);
                lemma_count_status_le(e.take(i as int), |st: StatusView| st is Pending);
                lemma_count_status_le(e.take(i as int), |st: StatusView| st is Processing);
                lemma_count_status_le(e.take(i as int), |st: StatusView| st is Done);
                lemma_count_status_le(e.take(i as int), |st: StatusView| st is Modified);
                lemma_count_status_le(e.take(i as int), |st: StatusView| st is Deleted);
                lemma_count_status_le(e.take(i as int), |st: StatusView| st is Failed);
            }
            match &self.items[i].1.status {
                WorkStatus::Pending => s.pending = s.pending + 1,
                WorkStatus::Processing => s.processing = s.processing + 1,
                WorkStatus::Done => s.done = s.done + 1,
                WorkStatus::Modified => s.modified = s.modified + 1,
                WorkStatus::Deleted => s.deleted = s.deleted + 1,
                WorkStatus::Failed { .. } => s.failed = s.failed + 1,
            }
            s.total_bytes = s.total_bytes + self.items[i].1.size_bytes;
            i = i + 1;
        }
        proof {
            assert(e.take(e.len() as int) =~= e);
        }
        s.total = self.items.len() as u64;
        s
    }

    /// Compares the queue with a scan of the inbox, stamped at `now`, and
    /// plans the next batch. Done items whose file is gone become Deleted
    /// (their hash is planned for removal); Done items whose file changed take
    /// the new hash and become Modified (their path is planned again); files
    /// the queue did not know are added as Pending. Waiting files (Pending or
    /// Failed) are planned as small or large by size, smallest first; files
    /// done already are counted as skipped.
    pub fn plan_from_scan_at(&mut self, files: &[ScannedFile], now: &str) -> (r: BatchPlan)
        requires
            scan_keys_unique(scan_views(files@)),
        ensures
            ({
                let fv = scan_views(files@);
                let e1 = refreshed(old(self)@, fv, now@);
                &&& final(self)@ == e1 + added_entries(e1, fv, now@)
                &&& keys_unique(final(self)@)
                &&& strs(r.small_files@) == paths_of(sort_by_size(of_class(e1, fv, FileClass::Small)))
                &&& strs(r.large_files@) == paths_of(sort_by_size(of_class(e1, fv, FileClass::Large)))
                &&& strs(r.modified_files@) == modified_paths(old(self)@, fv)
                &&& strs(r.deleted_ids@) == deleted_hashes(old(self)@, fv)
                &&& r.skipped == of_class(e1, fv, FileClass::Skipped).len()
            }),
    {
        proof {
            use_type_invariant(&*self);
        }
        let ghost e0 = self@;
        let ghost fv = scan_views(files@);
        let ghost e1 = refreshed(e0, fv, now@);
        let mut items: Vec<(String, WorkItem)> = Vec::new();
        std::mem::swap(&mut items, &mut self.items);
        let mut deleted: Vec<String> = Vec::new();
        let mut modified: Vec<String> = Vec::new();
        let mut i: usize = 0;
        while i < items.len()
            invariant
                i <= items@.len(),
                items@.len() == e0.len(),
                fv == scan_views(files@),
                scan_keys_unique(fv),
                e1 == refreshed(e0, fv, now@),
                forall|j: int|
                    0 <= j < items@.len() ==> (#[trigger] entry_views(items@)[j]) == if j < i {
                        e1[j]
                    } else {
                        e0[j]
                    },
                strs(deleted@) == deleted_hashes(e0.take(i as int), fv),
                strs(modified@) == modified_paths(e0.take(i as int), fv),
            decreases items@.len() - i,
        {
            proof {
                assert(e0.take(i + 1).drop_last() =~= e0.take(i as int));
                assert(e0.take(i + 1).last() == e0[i as int]);
                assert(entry_views(items@)[i as int] == e0[i as int]);
            }
            let ghost before = items@;
            let ghost dbefore = deleted@;
            let ghost mbefore = modified@;
            let found = find_file(files, items[i].0.as_str());
            let is_done = matches!(items[i].1.status, WorkStatus::Done);
            match found {
                None => {
                    if is_done {
                        deleted.push(items[i].1.hash.clone());
                        let key = items[i].0.clone();
                        let it = restamped(&items[i].1, WorkStatus::Deleted, now);
                        items.set(i, (key, it));
                    }
                },
                Some(j) => {
                    if is_done && !crate::text::same_text(
                        files[j].hash.as_str(),
                        items[i].1.hash.as_str(),
                    ) {
                        modified.push(items[i].1.path.clone());
                        let key = items[i].0.clone();
                        let it = WorkItem {
                            path: items[i].1.path.clone(),
                            hash: files[j].hash.clone(),
                            size_bytes: items[i].1.size_bytes,
                            status: WorkStatus::Modified,
                            created_at: items[i].1.created_at.clone(),
                            updated_at: owned(now),
                            is_large: items[i].1.is_large,
                        };
                        items.set(i, (key, it));
                    }
                },
            }
            proof {
                assert(entry_views(items@)[i as int] == e1[i as int]);
                assert forall|m: int| 0 <= m < items@.len() implies (#[trigger] entry_views(
                    items@,
                )[m]) == if m < i + 1 {
                    e1[m]
                } else {
                    e0[m]
                } by {
                    if m != i {
                        assert(entry_views(items@)[m] == entry_views(before)[m]);
                    }
                }
                assert(strs(deleted@) =~= deleted_hashes(e0.take(i + 1), fv));
                assert(strs(modified@) =~= modified_paths(e0.take(i + 1), fv));
            }
            i = i + 1;
        }
        proof {
            assert(entry_views(items@) =~= e1);
            assert(e0.take(e0.len() as int) =~= e0);
            assert forall|a: int, b: int| 0 <= a < b < e1.len() implies (#[trigger] e1[a]).0 != (
            #[trigger] e1[b]).0 by {
                assert(e0[a].0 == e1[a].0 && e0[b].0 == e1[b].0);
            }
            assert(added_entries(e1, fv.take(0), now@) =~= Seq::<(Seq<char>, ItemView)>::empty());
            assert(e1 + added_entries(e1, fv.take(0), now@) =~= e1);
        }
        let n1 = items.len();
        let mut smalls: Vec<(String, u64)> = Vec::new();
        let mut larges: Vec<(String, u64)> = Vec::new();
        let mut skipped: usize = 0;
        let mut k: usize = 0;
        while k < files.len()
            invariant
                k <= files@.len(),
                n1 == e1.len(),
                fv == scan_views(files@),
                scan_keys_unique(fv),
                keys_unique(e1),
                entry_views(items@) == e1 + added_entries(e1, fv.take(k as int), now@),
                keys_unique(entry_views(items@)),
                sized_views(smalls@) == of_class(e1, fv.take(k as int), FileClass::Small),
                sized_views(larges@) == of_class(e1, fv.take(k as int), FileClass::Large),
                skipped == of_class(e1, fv.take(k as int), FileClass::Skipped).len(),
            decreases files@.len() - k,
        {
            let ghost fk = fv.take(k + 1);
            let ghost fcur = fv[k as int];
            proof {
                assert(fk.drop_last() =~= fv.take(k as int));
                assert(fk.last() == fcur);
                lemma_of_class_len(e1, fv.take(k as int), FileClass::Skipped);
                assert(entry_views(items@).len() >= n1);
                assert forall|m: int| 0 <= m < n1 implies #[trigger] entry_views(items@)[m] == e1[m] by {
                    assert((e1 + added_entries(e1, fv.take(k as int), now@))[m] == e1[m]);
                }
            }
            let mut waiting = false;
            let mut done = false;
            match find_entry(&items, n1, files[k].key.as_str()) {
                Some(idx) => {
                    proof {
                        assert(e1[idx as int].0 == fcur.key);
                        assert(has_key(e1, fcur.key));
                        let c = choose|i: int| 0 <= i < e1.len() && (#[trigger] e1[i]).0 == fcur.key;
                        if c != idx {
                            if c < idx {
                                assert(e1[c].0 != e1[idx as int].0);
                            } else {
                                assert(e1[idx as int].0 != e1[c].0);
                            }
                        }
                        assert(status_for(e1, fcur) == e1[idx as int].1.status);
                    }
                    match &items[idx].1.status {
                        WorkStatus::Pending => {
                            waiting = true;
                        },
                        WorkStatus::Failed { .. } => {
                            waiting = true;
                        },
                        WorkStatus::Done => {
                            done = true;
                        },
                        _ => {},
                    }
                    proof {
                        assert(added_entries(e1, fk, now@) == added_entries(e1, fv.take(k as int), now@));
                    }
                },
                None => {
                    proof {
                        assert(!has_key(e1, fcur.key)) by {
                            if has_key(e1, fcur.key) {
                                let c = choose|i: int| 0 <= i < e1.len() && (#[trigger] e1[i]).0 == fcur.key;
                                assert(entry_views(items@)[c] == e1[c]);
                            }
                        }
                    }
                    let f = &files[k];
                    let it = WorkItem {
                        path: f.path.clone(),
                        hash: f.hash.clone(),
                        size_bytes: f.size,
                        status: WorkStatus::Pending,
                        created_at: owned(now),
                        updated_at: owned(now),
                        is_large: f.size > LARGE_FILE_THRESHOLD,
                    };
                    let ghost before = entry_views(items@);
                    items.push((f.key.clone(), it));
                    waiting = true;
                    proof {
                        let added = added_entries(e1, fv.take(k as int), now@);
                        lemma_added_keys(e1, fv.take(k as int), now@);
                        assert(entry_views(items@) =~= before.push((fcur.key, new_item(fcur, now@))));
                        assert(entry_views(items@) =~= e1 + added_entries(e1, fk, now@));
                        assert forall|m: int| 0 <= m < before.len() implies (#[trigger] before[m]).0
                            != fcur.key by {
                            if m < n1 {
                                assert(before[m] == e1[m]);
                            } else {
                                assert(before[m] == added[m - n1]);
                                let j = choose|j: int|
                                    0 <= j < fv.take(k as int).len() && fv.take(k as int)[j].key
                                        == (#[trigger] added[m - n1]).0;
                                assert(fv[j] == fv.take(k as int)[j]);
                                assert(fv[j].key != fv[k as int].key);
                            }
                        }
                        let after = entry_views(items@);
                        assert forall|a: int, b: int| 0 <= a < b < after.len() implies (
                        #[trigger] after[a]).0 != (#[trigger] after[b]).0 by {
                            if b == after.len() - 1 {
                                assert(after[a] == before[a]);
                            } else {
                                assert(after[a] == before[a] && after[b] == before[b]);
                            }
                        }
                    }
                },
            }
            if waiting {
                if files[k].size > LARGE_FILE_THRESHOLD {
                    larges.push((files[k].path.clone(), files[k].size));
                } else {
                    smalls.push((files[k].path.clone(), files[k].size));
                }
            } else if done {
                skipped = skipped + 1;
            }
            proof {
                assert(sized_views(smalls@) =~= of_class(e1, fk, FileClass::Small));
                assert(sized_views(larges@) =~= of_class(e1, fk, FileClass::Large));
            }
            k = k + 1;
        }
        proof {
            assert(fv.take(files@.len() as int) =~= fv);
        }
        self.items = items;
        let small_sorted = sort_sized(&smalls);
        let large_sorted = sort_sized(&larges);
        BatchPlan {
            small_files: names_of(&small_sorted),
            large_files: names_of(&large_sorted),
            modified_files: modified,
            deleted_ids: deleted,
            skipped,
        }
    }

    /// `plan_from_scan_at` stamped with the current time.
    pub fn plan_from_scan(&mut self, files: &[ScannedFile]) -> (r: BatchPlan)
        requires
            scan_keys_unique(scan_views(files@)),
        ensures
            exists|now: Seq<char>|
                #![trigger refreshed(old(self)@, scan_views(files@), now)]
                {
                    let fv = scan_views(files@);
                    let e1 = refreshed(old(self)@, fv, now);
                    &&& final(self)@ == e1 + added_entries(e1, fv, now)
                    &&& strs(r.small_files@) == paths_of(
                        sort_by_size(of_class(e1, fv, FileClass::Small)),
                    )
                    &&& strs(r.large_files@) == paths_of(
                        sort_by_size(of_class(e1, fv, FileClass::Large)),
                    )
                    &&& r.skipped == of_class(e1, fv, FileClass::Skipped).len()
                },
            keys_unique(final(self)@),
            strs(r.modified_files@) == modified_paths(old(self)@, scan_views(files@)),
            strs(r.deleted_ids@) == deleted_hashes(old(self)@, scan_views(files@)),
    {
        let now = now_rfc3339();
        self.plan_from_scan_at(files, now.as_str())
    }

    /// Adds a Pending item for `path` (its size and hash as given), stamped
    /// at `now`, unless the path has no file name or the queue knows it.
    pub fn ensure_item_at(&mut self, path: &str, size: u64, hash: &str, now: &str)
        ensures
            final(self)@ == if key_of(path@).len() == 0 || has_key(old(self)@, key_of(path@)) {
                old(self)@
            } else {
                old(self)@.push(
                    (
                        key_of(path@),
                        new_item(
                            ScanView { key: key_of(path@), path: path@, size, hash: hash@ },
                            now@,
                        ),
                    ),
                )
            },
            keys_unique(final(self)@),
    {
        proof {
            use_type_invariant(&*self);
        }
        let key = key_for(path);
        if key.as_str().is_empty() {
            proof {
                assert(key@.len() == 0);
            }
            return;
        }
        match self.index_of(key.as_str()) {
            Some(i) => {
                return;
            },
            None => {},
        }
        let it = WorkItem {
            path: owned(path),
            hash: owned(hash),
            size_bytes: size,
            status: WorkStatus::Pending,
            created_at: owned(now),
            updated_at: owned(now),
            is_large: size > LARGE_FILE_THRESHOLD,
        };
        let ghost before = self@;
        let mut items: Vec<(String, WorkItem)> = Vec::new();
        std::mem::swap(&mut items, &mut self.items);
        items.push((key, it));
        proof {
            let after = entry_views(items@);
            assert(after =~= before.push((key@, it@)));
            assert forall|a: int, b: int| 0 <= a < b < after.len() implies (#[trigger] after[a]).0
                != (#[trigger] after[b]).0 by {
                if b == after.len() - 1 {
                    assert(after[a] == before[a]);
                } else {
                    assert(after[a] == before[a] && after[b] == before[b]);
                }
            }
        }
        self.items = items;
    }

    /// `ensure_item_at` stamped with the current time.
    pub fn ensure_item(&mut self, path: &str, size: u64, hash: &str)
        ensures
            key_of(path@).len() == 0 || has_key(old(self)@, key_of(path@)) ==> final(self)@ == old(
                self,
            )@,
            !(key_of(path@).len() == 0 || has_key(old(self)@, key_of(path@))) ==> exists|
                now: Seq<char>,
            |
                final(self)@ == old(self)@.push(
                    (
                        key_of(path@),
                        #[trigger] new_item(
                            ScanView { key: key_of(path@), path: path@, size, hash: hash@ },
                            now,
                        ),
                    ),
                ),
            keys_unique(final(self)@),
    {
        let now = now_rfc3339();
        self.ensure_item_at(path, size, hash, now.as_str());
    }
}

/// A copy of a state.
fn copy_status(s: &WorkStatus) -> (r: WorkStatus)
    ensures
        r@ == s@,
{
    match s {
        WorkStatus::Pending => WorkStatus::Pending,
        WorkStatus::Processing => WorkStatus::Processing,
        WorkStatus::Done => WorkStatus::Done,
        WorkStatus::Modified => WorkStatus::Modified,
        WorkStatus::Deleted => WorkStatus::Deleted,
        WorkStatus::Failed { reason, retries } => WorkStatus::Failed {
            reason: reason.clone(),
            retries: *retries,
        },
    }
}

/// A copy of an item.
fn copy_item(it: &WorkItem) -> (r: WorkItem)
    ensures
        r@ == it@,
{
    WorkItem {
        path: it.path.clone(),
        hash: it.hash.clone(),
        size_bytes: it.size_bytes,
        status: copy_status(&it.status),
        created_at: it.created_at.clone(),
        updated_at: it.updated_at.clone(),
        is_large: it.is_large,
    }
}

/// A copy of `it` with a new state, stamped at `now`.
fn restamped(it: &WorkItem, status: WorkStatus, now: &str) -> (r: WorkItem)
    ensures
        r@ == restamp(it@, status@, now@),
{
    WorkItem {
        path: it.path.clone(),
        hash: it.hash.clone(),
        size_bytes: it.size_bytes,
        status,
        created_at: it.created_at.clone(),
        updated_at: owned(now),
        is_large: it.is_large,
    }
}


// ---------------------------------------------------------------------------
// Planning a batch from a scan of the inbox
// ---------------------------------------------------------------------------

/// A file found in the inbox: its key (file name), path, size in bytes and
/// content hash.
#[derive(Debug, Clone)]
pub struct ScannedFile {
    pub key: String,
    pub path: String,
    pub size: u64,
    pub hash: String,
}

/// The mathematical value of a scanned file.
pub ghost struct ScanView {
    pub key: Seq<char>,
    pub path: Seq<char>,
    pub size: u64,
    pub hash: Seq<char>,
}

impl View for ScannedFile {
    type V = ScanView;

    open spec fn view(&self) -> ScanView {
        ScanView { key: self.key@, path: self.path@, size: self.size, hash: self.hash@ }
    }
}

/// The views of scanned files.
pub open spec fn scan_views(v: Seq<ScannedFile>) -> Seq<ScanView> {
    Seq::new(v.len(), |i: int| v[i]@)
}

/// No two scanned files share a key (names in one directory are distinct).
pub open spec fn scan_keys_unique(f: Seq<ScanView>) -> bool {
    forall|i: int, j: int| 0 <= i < j < f.len() ==> (#[trigger] f[i]).key != (#[trigger] f[j]).key
}

/// The scanned file with the key `k`.
pub open spec fn scanned(f: Seq<ScanView>, k: Seq<char>) -> Option<ScanView> {
    if exists|i: int| 0 <= i < f.len() && (#[trigger] f[i]).key == k {
        Some(f[choose|i: int| 0 <= i < f.len() && (#[trigger] f[i]).key == k])
    } else {
        None
    }
}

/// The item after comparing it with the scan: a Done item whose file is
/// gone becomes Deleted; a Done item whose file changed takes the new hash
/// and becomes Modified; any other item stays as it is.
pub open spec fn refresh(it: ItemView, found: Option<ScanView>, now: Seq<char>) -> ItemView {
    match found {
        None => if it.status is Done {
            restamp(it, StatusView::Deleted, now)
        } else {
            it
        },
        Some(f) => if it.status is Done && f.hash != it.hash {
            ItemView { status: StatusView::Modified, hash: f.hash, updated_at: now, ..it }
        } else {
            it
        },
    }
}

/// The entries after comparing each with the scan.
pub open spec fn refreshed(e: Seq<(Seq<char>, ItemView)>, f: Seq<ScanView>, now: Seq<char>) -> Seq<
    (Seq<char>, ItemView),
> {
    Seq::new(e.len(), |i: int| (e[i].0, refresh(e[i].1, scanned(f, e[i].0), now)))
}

/// The hashes of the Done items whose file is gone, in the order of the entries.
pub open spec fn deleted_hashes(e: Seq<(Seq<char>, ItemView)>, f: Seq<ScanView>) -> Seq<Seq<char>>
    decreases e.len(),
{
    if e.len() == 0 {
        seq![]
    } else {
        let rest = deleted_hashes(e.drop_last(), f);
        if scanned(f, e.last().0) is None && e.last().1.status is Done {
            rest.push(e.last().1.hash)
        } else {
            rest
        }
    }
}

/// The paths of the Done items whose file changed, in the order of the entries.
pub open spec fn modified_paths(e: Seq<(Seq<char>, ItemView)>, f: Seq<ScanView>) -> Seq<Seq<char>>
    decreases e.len(),
{
    if e.len() == 0 {
        seq![]
    } else {
        let rest = modified_paths(e.drop_last(), f);
        match scanned(f, e.last().0) {
            Some(sf) => if e.last().1.status is Done && sf.hash != e.last().1.hash {
                rest.push(e.last().1.path)
            } else {
                rest
            },
            None => rest,
        }
    }
}

/// The state under which a scanned file is planned: that of its entry, or
/// Pending for a file the queue did not know.
pub open spec fn status_for(e: Seq<(Seq<char>, ItemView)>, f: ScanView) -> StatusView {
    if has_key(e, f.key) {
        e[choose|i: int| 0 <= i < e.len() && (#[trigger] e[i]).0 == f.key].1.status
    } else {
        StatusView::Pending
    }
}

/// The item of a file the queue did not know.
pub open spec fn new_item(f: ScanView, now: Seq<char>) -> ItemView {
    ItemView {
        path: f.path,
        hash: f.hash,
        size_bytes: f.size,
        status: StatusView::Pending,
        created_at: now,
        updated_at: now,
        is_large: f.size > LARGE_FILE_THRESHOLD,
    }
}

/// The entries added for the scanned files that `e` does not know, in scan order.
pub open spec fn added_entries(e: Seq<(Seq<char>, ItemView)>, f: Seq<ScanView>, now: Seq<char>) -> Seq<
    (Seq<char>, ItemView),
>
    decreases f.len(),
{
    if f.len() == 0 {
        seq![]
    } else {
        let rest = added_entries(e, f.drop_last(), now);
        if has_key(e, f.last().key) {
            rest
        } else {
            rest.push((f.last().key, new_item(f.last(), now)))
        }
    }
}

/// How a scanned file enters the plan.
pub ghost enum FileClass {
    /// Waiting (Pending or Failed) and at most `LARGE_FILE_THRESHOLD` bytes.
    Small,
    /// Waiting and larger.
    Large,
    /// Done already.
    Skipped,
    /// Anything else (Modified files are planned through the entries).
    Ignored,
}

/// The class of a scanned file under the refreshed entries `e`.
pub open spec fn class_of(e: Seq<(Seq<char>, ItemView)>, f: ScanView) -> FileClass {
    let st = status_for(e, f);
    if st is Pending || st is Failed {
        if f.size > LARGE_FILE_THRESHOLD {
            FileClass::Large
        } else {
            FileClass::Small
        }
    } else if st is Done {
        FileClass::Skipped
    } else {
        FileClass::Ignored
    }
}

/// The (path, size) of the scanned files of class `c`, in scan order.
pub open spec fn of_class(e: Seq<(Seq<char>, ItemView)>, f: Seq<ScanView>, c: FileClass) -> Seq<
    (Seq<char>, u64),
>
    decreases f.len(),
{
    if f.len() == 0 {
        seq![]
    } else {
        let rest = of_class(e, f.drop_last(), c);
        if class_of(e, f.last()) == c {
            rest.push((f.last().path, f.last().size))
        } else {
            rest
        }
    }
}

/// `x` inserted into `s` after every element of at most its size.
pub open spec fn insert_by_size(s: Seq<(Seq<char>, u64)>, x: (Seq<char>, u64)) -> Seq<
    (Seq<char>, u64),
>
    decreases s.len(),
{
    if s.len() == 0 || s.last().1 <= x.1 {
        s.push(x)
    } else {
        insert_by_size(s.drop_last(), x).push(s.last())
    }
}

/// `s` sorted by size, ascending; elements of one size keep their order.
pub open spec fn sort_by_size(s: Seq<(Seq<char>, u64)>) -> Seq<(Seq<char>, u64)>
    decreases s.len(),
{
    if s.len() == 0 {
        s
    } else {
        insert_by_size(sort_by_size(s.drop_last()), s.last())
    }
}

/// The first components.
pub open spec fn paths_of(s: Seq<(Seq<char>, u64)>) -> Seq<Seq<char>> {
    Seq::new(s.len(), |i: int| s[i].0)
}

/// The plan of the next batch.
#[derive(Debug)]
pub struct BatchPlan {
    /// Files of at most `LARGE_FILE_THRESHOLD` bytes, smallest first.
    pub small_files: Vec<String>,
    /// Larger files, smallest first.
    pub large_files: Vec<String>,
    /// Files changed since they were processed.
    pub modified_files: Vec<String>,
    /// Hashes of the processed files that disappeared.
    pub deleted_ids: Vec<String>,
    /// Files processed already.
    pub skipped: usize,
}

impl BatchPlan {
    /// The number of files to process.
    pub fn total_work(&self) -> (r: usize)
        requires
            self.small_files@.len() + self.large_files@.len() + self.modified_files@.len()
                <= usize::MAX,
        ensures
            r == self.small_files@.len() + self.large_files@.len() + self.modified_files@.len(),
    {
        self.small_files.len() + self.large_files.len() + self.modified_files.len()
    }

    /// Nothing to process and nothing to remove.
    pub fn is_empty(&self) -> (r: bool)
        requires
            self.small_files@.len() + self.large_files@.len() + self.modified_files@.len()
                <= usize::MAX,
        ensures
            r == (self.small_files@.len() == 0 && self.large_files@.len() == 0
                && self.modified_files@.len() == 0 && self.deleted_ids@.len() == 0),
    {
        self.total_work() == 0 && self.deleted_ids.len() == 0
    }
}

impl Default for BatchPlan {
    fn default() -> (r: Self)
        ensures
            r.small_files@.len() == 0,
            r.large_files@.len() == 0,
            r.modified_files@.len() == 0,
            r.deleted_ids@.len() == 0,
            r.skipped == 0,
    {
        BatchPlan {
            small_files: Vec::new(),
            large_files: Vec::new(),
            modified_files: Vec::new(),
            deleted_ids: Vec::new(),
            skipped: 0,
        }
    }
}

/// The views of (name, size) pairs.
pub open spec fn sized_views(v: Seq<(String, u64)>) -> Seq<(Seq<char>, u64)> {
    Seq::new(v.len(), |i: int| (v[i].0@, v[i].1))
}

proof fn lemma_of_class_len(e: Seq<(Seq<char>, ItemView)>, f: Seq<ScanView>, c: FileClass)
    ensures
        of_class(e, f, c).len() <= f.len(),
    decreases f.len(),
{
    if f.len() > 0 {
        lemma_of_class_len(e, f.drop_last(), c);
    }
}

proof fn lemma_added_keys(e: Seq<(Seq<char>, ItemView)>, f: Seq<ScanView>, now: Seq<char>)
    ensures
        forall|i: int|
            0 <= i < added_entries(e, f, now).len() ==> exists|j: int|
                0 <= j < f.len() && f[j].key == (#[trigger] added_entries(e, f, now)[i]).0,
    decreases f.len(),
{
    if f.len() > 0 {
        let pre = f.drop_last();
        lemma_added_keys(e, pre, now);
        let a = added_entries(e, pre, now);
        let r = added_entries(e, f, now);
        assert forall|i: int| 0 <= i < r.len() implies exists|j: int|
            0 <= j < f.len() && f[j].key == (#[trigger] r[i]).0 by {
            if i < a.len() {
                let j = choose|j: int| 0 <= j < pre.len() && pre[j].key == a[i].0;
                assert(f[j] == pre[j]);
            } else {
                assert(f[f.len() - 1].key == r[i].0);
            }
        }
    }
}

/// `insert_by_size` puts `x` at the position after the last element of at
/// most its size.
proof fn lemma_insert_at(s: Seq<(Seq<char>, u64)>, x: (Seq<char>, u64), j: int)
    requires
        0 <= j <= s.len(),
        j == 0 || s[j - 1].1 <= x.1,
        forall|m: int| j <= m < s.len() ==> (#[trigger] s[m]).1 > x.1,
    ensures
        insert_by_size(s, x) == s.take(j) + seq![x] + s.skip(j),
    decreases s.len(),
{
    if s.len() == 0 {
        assert(s.take(j) + seq![x] + s.skip(j) =~= s.push(x));
    } else if s.last().1 <= x.1 {
        assert(j == s.len()) by {
            if j < s.len() {
                assert(s[s.len() - 1].1 > x.1);
            }
        }
        assert(s.take(j) + seq![x] + s.skip(j) =~= s.push(x));
    } else {
        assert(j < s.len());
        let pre = s.drop_last();
        lemma_insert_at(pre, x, j);
        assert(pre.take(j) + seq![x] + pre.skip(j) + seq![s.last()] =~= s.take(j) + seq![x]
            + s.skip(j));
    }
}

/// Inserts `x` after every element of at most its size.
fn insert_sized(v: &mut Vec<(String, u64)>, x: (String, u64))
    ensures
        sized_views(final(v)@) == insert_by_size(sized_views(old(v)@), (x.0@, x.1)),
{
    let ghost s = sized_views(v@);
    let mut j = v.len();
    while j > 0 && v[j - 1].1 > x.1
        invariant
            j <= v@.len(),
            s == sized_views(v@),
            forall|m: int| j <= m < s.len() ==> (#[trigger] s[m]).1 > x.1,
        decreases j,
    {
        j = j - 1;
    }
    let ghost xv = (x.0@, x.1);
    proof {
        lemma_insert_at(s, xv, j as int);
    }
    v.insert(j, x);
    proof {
        assert(sized_views(v@) =~= s.take(j as int) + seq![xv] + s.skip(j as int));
    }
}

/// `v` sorted by size, ascending; elements of one size keep their order.
fn sort_sized(v: &Vec<(String, u64)>) -> (r: Vec<(String, u64)>)
    ensures
        sized_views(r@) == sort_by_size(sized_views(v@)),
{
    let mut out: Vec<(String, u64)> = Vec::new();
    let mut i: usize = 0;
    while i < v.len()
        invariant
            i <= v@.len(),
            sized_views(out@) == sort_by_size(sized_views(v@).take(i as int)),
        decreases v@.len() - i,
    {
        proof {
            let t = sized_views(v@).take(i + 1);
            assert(t.drop_last() =~= sized_views(v@).take(i as int));
            assert(t.last() == (v@[i as int].0@, v@[i as int].1));
        }
        let x = (v[i].0.clone(), v[i].1);
        insert_sized(&mut out, x);
        i = i + 1;
    }
    proof {
        assert(sized_views(v@).take(v@.len() as int) =~= sized_views(v@));
    }
    out
}

/// The names of (name, size) pairs.
fn names_of(v: &Vec<(String, u64)>) -> (r: Vec<String>)
    ensures
        crate::text::strs(r@) == paths_of(sized_views(v@)),
{
    let mut r: Vec<String> = Vec::new();
    let mut i: usize = 0;
    while i < v.len()
        invariant
            i <= v@.len(),
            r@.len() == i,
            forall|j: int| 0 <= j < i ==> (#[trigger] r@[j])@ == v@[j].0@,
        decreases v@.len() - i,
    {
        r.push(v[i].0.clone());
        i = i + 1;
    }
    proof {
        assert(crate::text::strs(r@) =~= paths_of(sized_views(v@)));
    }
    r
}

/// The position of the scanned file with the key `key`.
fn find_file(files: &[ScannedFile], key: &str) -> (r: Option<usize>)
    requires
        scan_keys_unique(scan_views(files@)),
    ensures
        match r {
            Some(j) => j < files@.len() && scanned(scan_views(files@), key@) == Some(
                scan_views(files@)[j as int],
            ),
            None => scanned(scan_views(files@), key@) is None,
        },
{
    let ghost fv = scan_views(files@);
    let mut j: usize = 0;
    while j < files.len()
        invariant
            j <= files@.len(),
            fv == scan_views(files@),
            scan_keys_unique(fv),
            forall|m: int| 0 <= m < j ==> (#[trigger] fv[m]).key != key@,
        decreases files@.len() - j,
    {
        if crate::text::same_text(files[j].key.as_str(), key) {
            proof {
                assert(fv[j as int].key == key@);
                assert(exists|i: int| 0 <= i < fv.len() && (#[trigger] fv[i]).key == key@);
                let c = choose|i: int| 0 <= i < fv.len() && (#[trigger] fv[i]).key == key@;
                if c != j {
                    if c < j {
                        assert(fv[c].key != fv[j as int].key);
                    } else {
                        assert(fv[j as int].key != fv[c].key);
                    }
                }
            }
            return Some(j);
        }
        j = j + 1;
    }
    None
}

/// The position among the first `n` entries of the one with the key `key`.
fn find_entry(items: &Vec<(String, WorkItem)>, n: usize, key: &str) -> (r: Option<usize>)
    requires
        n <= items@.len(),
    ensures
        match r {
            Some(i) => i < n && entry_views(items@)[i as int].0 == key@,
            None => forall|i: int| 0 <= i < n ==> (#[trigger] entry_views(items@)[i]).0 != key@,
        },
{
    let mut i: usize = 0;
    while i < n
        invariant
            i <= n <= items@.len(),
            forall|m: int| 0 <= m < i ==> (#[trigger] entry_views(items@)[m]).0 != key@,
        decreases n - i,
    {
        if crate::text::same_text(items[i].0.as_str(), key) {
            return Some(i);
        }
        i = i + 1;
    }
    None
}


// ---------------------------------------------------------------------------
// Laws
// ---------------------------------------------------------------------------

/// With unique keys, the entry found for a key is the one at its position.
proof fn lemma_lookup(e: Seq<(Seq<char>, ItemView)>, i: int)
    requires
        keys_unique(e),
        0 <= i < e.len(),
    ensures
        has_key(e, e[i].0),
        (choose|j: int| 0 <= j < e.len() && (#[trigger] e[j]).0 == e[i].0) == i,
{
    assert(has_key(e, e[i].0));
    let c = choose|j: int| 0 <= j < e.len() && (#[trigger] e[j]).0 == e[i].0;
    if c != i {
        if c < i {
            assert(e[c].0 != e[i].0);
        } else {
            assert(e[i].0 != e[c].0);
        }
    }
}

/// With unique keys, the scanned file found for a key is the one at its position.
proof fn lemma_scanned(f: Seq<ScanView>, j: int)
    requires
        scan_keys_unique(f),
        0 <= j < f.len(),
    ensures
        scanned(f, f[j].key) == Some(f[j]),
{
    assert(exists|i: int| 0 <= i < f.len() && (#[trigger] f[i]).key == f[j].key);
    let c = choose|i: int| 0 <= i < f.len() && (#[trigger] f[i]).key == f[j].key;
    if c != j {
        if c < j {
            assert(f[c].key != f[j].key);
        } else {
            assert(f[j].key != f[c].key);
        }
    }
}

/// A Done item whose file is scanned again with the same hash stays as it
/// is, and the file is counted as skipped: a rescan does not plan processed
/// files again.
pub proof fn lemma_rescan_skips_done(
    e: Seq<(Seq<char>, ItemView)>,
    f: Seq<ScanView>,
    now: Seq<char>,
    i: int,
    j: int,
)
    requires
        keys_unique(e),
        scan_keys_unique(f),
        0 <= i < e.len(),
        0 <= j < f.len(),
        e[i].0 == f[j].key,
        e[i].1.status is Done,
        e[i].1.hash == f[j].hash,
    ensures
        refreshed(e, f, now)[i] == e[i],
        class_of(refreshed(e, f, now), f[j]) == FileClass::Skipped,
{
    lemma_scanned(f, j);
    let e1 = refreshed(e, f, now);
    assert forall|a: int, b: int| 0 <= a < b < e1.len() implies (#[trigger] e1[a]).0 != (
    #[trigger] e1[b]).0 by {
        assert(e[a].0 == e1[a].0 && e[b].0 == e1[b].0);
    }
    lemma_lookup(e1, i);
}

/// A Done item whose file is scanned with another hash takes the new hash and
/// becomes Modified; the file is not planned as small or large.
pub proof fn lemma_changed_file_is_modified(
    e: Seq<(Seq<char>, ItemView)>,
    f: Seq<ScanView>,
    now: Seq<char>,
    i: int,
    j: int,
)
    requires
        keys_unique(e),
        scan_keys_unique(f),
        0 <= i < e.len(),
        0 <= j < f.len(),
        e[i].0 == f[j].key,
        e[i].1.status is Done,
        e[i].1.hash != f[j].hash,
    ensures
        refreshed(e, f, now)[i].1.status is Modified,
        refreshed(e, f, now)[i].1.hash == f[j].hash,
        class_of(refreshed(e, f, now), f[j]) == FileClass::Ignored,
{
    lemma_scanned(f, j);
    let e1 = refreshed(e, f, now);
    assert forall|a: int, b: int| 0 <= a < b < e1.len() implies (#[trigger] e1[a]).0 != (
    #[trigger] e1[b]).0 by {
        assert(e[a].0 == e1[a].0 && e[b].0 == e1[b].0);
    }
    lemma_lookup(e1, i);
}

/// A Done item whose file is no longer scanned becomes Deleted.
pub proof fn lemma_missing_file_is_deleted(
    e: Seq<(Seq<char>, ItemView)>,
    f: Seq<ScanView>,
    now: Seq<char>,
    i: int,
)
    requires
        0 <= i < e.len(),
        forall|j: int| 0 <= j < f.len() ==> (#[trigger] f[j]).key != e[i].0,
        e[i].1.status is Done,
    ensures
        refreshed(e, f, now)[i].1.status is Deleted,
{
}

/// A file the queue did not know is planned as waiting: small or large by
/// its size.
pub proof fn lemma_new_file_is_planned(e: Seq<(Seq<char>, ItemView)>, fl: ScanView)
    requires
        !has_key(e, fl.key),
    ensures
        class_of(e, fl) == if fl.size > LARGE_FILE_THRESHOLD {
            FileClass::Large
        } else {
            FileClass::Small
        },
{
}

/// After marking a known item Done, a rescan with an unchanged file skips it.
pub proof fn lemma_done_then_rescan_skips(
    e: Seq<(Seq<char>, ItemView)>,
    now: Seq<char>,
    f: Seq<ScanView>,
    now2: Seq<char>,
    i: int,
    j: int,
)
    requires
        keys_unique(e),
        scan_keys_unique(f),
        0 <= i < e.len(),
        0 <= j < f.len(),
        e[i].0 == f[j].key,
        e[i].1.hash == f[j].hash,
    ensures
        class_of(refreshed(with_status(e, e[i].0, StatusView::Done, now), f, now2), f[j])
            == FileClass::Skipped,
{
    let d = with_status(e, e[i].0, StatusView::Done, now);
    assert forall|a: int, b: int| 0 <= a < b < d.len() implies (#[trigger] d[a]).0 != (
    #[trigger] d[b]).0 by {
        assert(e[a].0 == d[a].0 && e[b].0 == d[b].0);
    }
    lemma_rescan_skips_done(d, f, now2, i, j);
}

/// Purging leaves no Deleted item, removes only Deleted items, and keeps
/// every other item.
pub proof fn lemma_purge_removes_exactly_deleted(e: Seq<(Seq<char>, ItemView)>)
    ensures
        deleted_count(without_deleted(e)) == 0,
        without_deleted(e).len() + deleted_count(e) == e.len(),
        forall|i: int|
            0 <= i < e.len() && !(e[i].1.status is Deleted) ==> without_deleted(e).contains(
                #[trigger] e[i],
            ),
    decreases e.len(),
{
    if e.len() > 0 {
        let pre = e.drop_last();
        lemma_purge_removes_exactly_deleted(pre);
        let w = without_deleted(pre);
        let r = without_deleted(e);
        if !(e.last().1.status is Deleted) {
            assert(r.drop_last() =~= w);
        }
        assert forall|i: int| 0 <= i < e.len() && !(e[i].1.status is Deleted) implies r.contains(
            #[trigger] e[i],
        ) by {
            if i < pre.len() {
                assert(pre[i] == e[i]);
                let k = choose|k: int| 0 <= k < w.len() && w[k] == pre[i];
                assert(r[k] == e[i]);
            } else {
                assert(r[r.len() - 1] == e[i]);
            }
        }
    }
}

/// Retrying leaves no Failed item; each of them is Pending again.
pub proof fn lemma_retry_clears_failed(e: Seq<(Seq<char>, ItemView)>, now: Seq<char>)
    ensures
        failed_count(retry_failed(e, now)) == 0,
        pending_count(retry_failed(e, now)) == pending_count(e) + failed_count(e),
        retry_failed(e, now).len() == e.len(),
    decreases e.len(),
{
    if e.len() > 0 {
        lemma_retry_clears_failed(e.drop_last(), now);
        assert(retry_failed(e, now).drop_last() =~= retry_failed(e.drop_last(), now));
    }
}

/// Every item is counted in exactly one state: the counts add up to the
/// number of items.
pub proof fn lemma_stats_partition(e: Seq<(Seq<char>, ItemView)>)
    ensures
        pending_count(e) + processing_count(e) + done_count(e) + modified_count(e)
            + deleted_count(e) + failed_count(e) == e.len(),
    decreases e.len(),
{
    if e.len() > 0 {
        lemma_stats_partition(e.drop_last());
    }
}

/// The sizes are in ascending order.
pub open spec fn sorted_by_size(s: Seq<(Seq<char>, u64)>) -> bool {
    forall|i: int, j: int| 0 <= i < j < s.len() ==> (#[trigger] s[i]).1 <= (#[trigger] s[j]).1
}

proof fn lemma_insert_sorted(s: Seq<(Seq<char>, u64)>, x: (Seq<char>, u64))
    requires
        sorted_by_size(s),
    ensures
        sorted_by_size(insert_by_size(s, x)),
        insert_by_size(s, x).to_multiset() == s.to_multiset().insert(x),
    decreases s.len(),
{
    broadcast use vstd::seq_lib::group_to_multiset_ensures;

    if s.len() == 0 || s.last().1 <= x.1 {
        let r = s.push(x);
        assert forall|i: int, j: int| 0 <= i < j < r.len() implies (#[trigger] r[i]).1 <= (
        #[trigger] r[j]).1 by {
            if j == r.len() - 1 && i < s.len() {
                assert(s[i].1 <= s[s.len() - 1].1);
            }
        }
    } else {
        let pre = s.drop_last();
        assert(sorted_by_size(pre)) by {
            assert forall|i: int, j: int| 0 <= i < j < pre.len() implies (#[trigger] pre[i]).1 <= (
            #[trigger] pre[j]).1 by {
                assert(s[i] == pre[i] && s[j] == pre[j]);
            }
        }
        lemma_insert_sorted(pre, x);
        let m = insert_by_size(pre, x);
        let r = m.push(s.last());
        assert(m.to_multiset() == pre.to_multiset().insert(x));
        assert forall|i: int| 0 <= i < m.len() implies (#[trigger] m[i]).1 <= s.last().1 by {
            assert(m.to_multiset().count(m[i]) > 0);
            assert(m.to_multiset().contains(m[i]));
            if m[i] != x {
                assert(pre.to_multiset().contains(m[i]));
                assert(pre.contains(m[i]));
                let k = choose|k: int| 0 <= k < pre.len() && pre[k] == m[i];
                assert(s[k] == pre[k]);
                assert(s[k].1 <= s[s.len() - 1].1);
            }
        }
        assert forall|i: int, j: int| 0 <= i < j < r.len() implies (#[trigger] r[i]).1 <= (
        #[trigger] r[j]).1 by {
            if j == r.len() - 1 {
                assert(m[i].1 <= s.last().1);
            } else {
                assert(r[i] == m[i] && r[j] == m[j]);
            }
        }
        assert(s =~= pre.push(s.last()));
        assert(r.to_multiset() =~= s.to_multiset().insert(x));
    }
}

/// Sorting by size gives a sequence in ascending order of size, with the
/// same elements as the input.
pub proof fn lemma_sort_by_size(s: Seq<(Seq<char>, u64)>)
    ensures
        sorted_by_size(sort_by_size(s)),
        sort_by_size(s).to_multiset() == s.to_multiset(),
    decreases s.len(),
{
    broadcast use vstd::seq_lib::group_to_multiset_ensures;

    if s.len() > 0 {
        lemma_sort_by_size(s.drop_last());
        lemma_insert_sorted(sort_by_size(s.drop_last()), s.last());
        assert(s =~= s.drop_last().push(s.last()));
    } else {
        assert(sorted_by_size(s));
    }
}

} // verus!
