//! The decisions of the circuit controller: what a broadcast of a command to
//! the workers comes to, the fingerprint the workers agree on, the catalog of
//! checkpoints and its garbage collection, and which leftovers of an earlier
//! run a storage directory holds.
//!
//! The threads and channels that carry the commands are outside this module:
//! the caller sends, collects the replies and hands them over.

use crate::array::array_reverse_;
use crate::string::{chars_of, same_text};
use vstd::prelude::*;

verus! {

/// A command that the controller sends to every worker.
#[derive(Clone, Copy, Debug, PartialEq, Eq, Structural)]
pub enum Command {
    /// Advance the circuit one clock tick.
    Step,
    /// Turn on CPU profiling.
    EnableProfiler,
    /// Produce a textual profile dump.
    DumpProfile,
    /// Produce structured profile data.
    RetrieveProfile,
    /// Make a local checkpoint with this ID.
    Commit(u128),
    /// Compute the structural fingerprint of the local circuit.
    Fingerprint,
}

/// What one worker answered to a command, in the order the answers came.
#[derive(Clone, Debug, PartialEq, Eq)]
pub enum WorkerReply {
    /// The worker answered; the text is what it sent back (empty when there
    /// is nothing to send).
    Done(String),
    /// The worker answered with a scheduler error.
    Failed(String),
    /// The worker's channel is closed: it panicked.
    Disconnected,
}

/// What a broadcast comes to.
#[derive(Clone, Debug, PartialEq, Eq)]
pub enum BroadcastOutcome {
    /// The runtime was already torn down; nothing was sent.
    Terminated,
    /// A worker could not be reached or stopped answering; the runtime is torn
    /// down without waiting.
    WorkerPanic,
    /// A worker reported a scheduler error; the runtime is torn down.
    Scheduler(String),
    /// Every worker answered; the answers by worker index.
    Completed(Vec<String>),
}

/// Whether the arrival order names each of `n` workers exactly once.
pub open spec fn one_reply_each(replies: Seq<(usize, WorkerReply)>, n: nat) -> bool {
    &&& replies.len() == n
    &&& forall|i: int| 0 <= i < replies.len() ==> #[trigger] replies[i].0 < n
    &&& forall|i: int, j: int|
        0 <= i < j < replies.len() ==> #[trigger] replies[i].0 != #[trigger] replies[j].0
}

/// Decides what a broadcast to `n_workers` workers comes to: `terminated`
/// says whether the runtime was torn down before, `all_sent` whether the
/// command reached every worker, and `replies` holds the answers with the
/// index of their worker, in order of arrival, up to the first one that is
/// not `Done`.
pub fn broadcast_outcome(
    terminated: bool,
    all_sent: bool,
    n_workers: usize,
    replies: Vec<(usize, WorkerReply)>,
) -> (r: BroadcastOutcome)
    requires
        forall|i: int| 0 <= i < replies@.len() ==> #[trigger] replies@[i].0 < n_workers,
    ensures
        terminated ==> r == BroadcastOutcome::Terminated,
        !terminated && !all_sent ==> r == BroadcastOutcome::WorkerPanic,
        !terminated && all_sent ==> match r {
            BroadcastOutcome::Terminated => false,
            BroadcastOutcome::WorkerPanic => (exists|i: int|
                0 <= i < replies@.len() && replies@[i].1 is Disconnected && forall|j: int|
                    0 <= j < i ==> replies@[j].1 is Done) || ((forall|i: int|
                0 <= i < replies@.len() ==> #[trigger] replies@[i].1 is Done) && !one_reply_each(
                replies@,
                n_workers as nat,
            )),
            BroadcastOutcome::Scheduler(e) => exists|i: int|
                0 <= i < replies@.len() && replies@[i].1 == WorkerReply::Failed(e) && forall|
                    j: int,
                | 0 <= j < i ==> replies@[j].1 is Done,
            BroadcastOutcome::Completed(out) => {
                &&& forall|i: int| 0 <= i < replies@.len() ==> #[trigger] replies@[i].1 is Done
                &&& one_reply_each(replies@, n_workers as nat)
                &&& out@.len() == n_workers
                &&& forall|i: int|
                    0 <= i < replies@.len() ==> replies@[i].1 == WorkerReply::Done(
                        #[trigger] out@[replies@[i].0 as int],
                    )
            },
        },
        !terminated && all_sent && (forall|i: int|
            0 <= i < replies@.len() ==> #[trigger] replies@[i].1 is Done) && one_reply_each(
            replies@,
            n_workers as nat,
        ) ==> r is Completed,
{
    if terminated {
        return BroadcastOutcome::Terminated;
    }
    if !all_sent {
        return BroadcastOutcome::WorkerPanic;
    }
    let mut out: Vec<String> = Vec::new();
    let mut k: usize = 0;
    while k < n_workers
        invariant
            k <= n_workers,
            out@.len() == k,
        decreases n_workers - k,
    {
        out.push(String::new());
        k = k + 1;
    }
    let mut seen: Vec<bool> = Vec::new();
    let mut k: usize = 0;
    while k < n_workers
        invariant
            k <= n_workers,
            seen@.len() == k,
            forall|w: int| 0 <= w < k ==> !seen@[w],
        decreases n_workers - k,
    {
        seen.push(false);
        k = k + 1;
    }
    let mut distinct = true;
    let mut i: usize = 0;
    while i < replies.len()
        invariant
            !terminated && all_sent,
            i <= replies@.len(),
            out@.len() == n_workers,
            seen@.len() == n_workers,
            !distinct ==> exists|a: int, b: int|
                0 <= a < b < i && #[trigger] replies@[a].0 == #[trigger] replies@[b].0,
            forall|m: int| 0 <= m < replies@.len() ==> #[trigger] replies@[m].0 < n_workers,
            forall|j: int| 0 <= j < i ==> #[trigger] replies@[j].1 is Done,
            forall|j: int|
                0 <= j < i ==> replies@[j].1 == WorkerReply::Done(#[trigger] out@[replies@[j].0 as int])
                    || !distinct,
            forall|j: int| 0 <= j < i ==> #[trigger] seen@[replies@[j].0 as int],
            distinct ==> forall|a: int, b: int|
                0 <= a < b < i ==> #[trigger] replies@[a].0 != #[trigger] replies@[b].0,
            distinct ==> forall|w: int|
                0 <= w < n_workers ==> (#[trigger] seen@[w] <==> exists|j: int|
                    0 <= j < i && replies@[j].0 == w),
        decreases replies@.len() - i,
    {
        let (w, reply) = (&replies[i].0, &replies[i].1);
        match reply {
            WorkerReply::Disconnected => {
                return BroadcastOutcome::WorkerPanic;
            },
            WorkerReply::Failed(e) => {
                return BroadcastOutcome::Scheduler(e.clone());
            },
            WorkerReply::Done(text) => {
                if seen[*w] {
                    proof {
                        if distinct {
                            let j = choose|j: int| 0 <= j < i && replies@[j].0 == *w as int;
                            assert(replies@[j].0 == replies@[i as int].0);
                        }
                    }
                    distinct = false;
                }
                let ghost prev_out = out@;
                out.set(*w, text.clone());
                seen.set(*w, true);
                proof {
                    assert forall|j: int| 0 <= j < i + 1 implies replies@[j].1 == WorkerReply::Done(
                        #[trigger] out@[replies@[j].0 as int],
                    ) || !distinct by {
                        if distinct && j < i {
                            assert(replies@[j].0 != replies@[i as int].0);
                            assert(out@[replies@[j].0 as int] == prev_out[replies@[j].0 as int]);
                        }
                    }
                    if distinct {
                        assert forall|w2: int| 0 <= w2 < n_workers implies (#[trigger] seen@[w2]
                            <==> exists|j: int| 0 <= j < i + 1 && replies@[j].0 == w2) by {
                            if w2 == *w as int {
                                assert(replies@[i as int].0 == w2);
                            }
                        }
                    }
                }
            },
        }
        i = i + 1;
    }
    if replies.len() != n_workers || !distinct {
        proof {
            if one_reply_each(replies@, n_workers as nat) {
                assert(distinct);
            }
        }
        return BroadcastOutcome::WorkerPanic;
    }
    BroadcastOutcome::Completed(out)
}

/// The fingerprint that all workers reported; `None` when two differ, and 0
/// when there are no reports.
pub fn agreed_fingerprint(fps: &Vec<u64>) -> (r: Option<u64>)
    ensures
        fps@.len() == 0 ==> r == Some(0u64),
        fps@.len() > 0 ==> (r is Some <==> forall|i: int| 0 <= i < fps@.len() ==> #[trigger] fps@[i] == fps@[0]),
        r is Some && fps@.len() > 0 ==> r->0 == fps@[0],
{
    if fps.len() == 0 {
        return Some(0);
    }
    let first = fps[0];
    let mut i: usize = 1;
    while i < fps.len()
        invariant
            1 <= i <= fps@.len(),
            first == fps@[0],
            forall|j: int| 0 <= j < i ==> fps@[j] == first,
        decreases fps@.len() - i,
    {
        if fps[i] != first {
            return None;
        }
        i = i + 1;
    }
    Some(first)
}

/// The controller's own state: steps taken, the fingerprint once known, and
/// whether the runtime was torn down.
#[derive(Clone, Copy, Debug, PartialEq, Eq, Structural)]
pub struct HandleState {
    pub step_id: u64,
    pub fingerprint: Option<u64>,
    pub terminated: bool,
}

impl HandleState {
    /// A fresh controller: no step taken, no fingerprint, running.
    pub fn new() -> (r: HandleState)
        ensures
            r.step_id == 0,
            r.fingerprint is None,
            !r.terminated,
    {
        HandleState { step_id: 0, fingerprint: None, terminated: false }
    }

    /// Counts one more step before the `Step` command goes out.
    pub fn step(&mut self) -> (r: Command)
        requires
            old(self).step_id < u64::MAX,
        ensures
            final(self).step_id == old(self).step_id + 1,
            final(self).fingerprint == old(self).fingerprint,
            final(self).terminated == old(self).terminated,
            r == Command::Step,
    {
        self.step_id = self.step_id + 1;
        Command::Step
    }

    /// Remembers the fingerprint computed once; later calls keep it.
    pub fn remember_fingerprint(&mut self, fp: u64) -> (r: u64)
        ensures
            final(self).fingerprint == Some(r),
            old(self).fingerprint matches Some(f) ==> r == f,
            old(self).fingerprint is None ==> r == fp,
            final(self).step_id == old(self).step_id,
            final(self).terminated == old(self).terminated,
    {
        match self.fingerprint {
            Some(f) => f,
            None => {
                self.fingerprint = Some(fp);
                fp
            },
        }
    }
}

/// One durable checkpoint: its ID, optional name, the fingerprint of the
/// circuit that made it, and the step it was made at.
#[derive(Clone, Debug, PartialEq, Eq)]
pub struct CheckpointMetadata {
    pub uuid: u128,
    pub identifier: Option<String>,
    pub fingerprint: u64,
    pub step_id: u64,
}

/// Fewest checkpoints that garbage collection keeps.
pub const MIN_CHECKPOINT_THRESHOLD: usize = 2;

/// The checkpoints of a storage directory, oldest first.
#[derive(Clone, Debug, PartialEq, Eq)]
pub struct CheckpointCatalog {
    pub entries: Vec<CheckpointMetadata>,
}

impl CheckpointCatalog {
    /// An empty catalog.
    pub fn new() -> (r: CheckpointCatalog)
        ensures
            r.entries@.len() == 0,
    {
        CheckpointCatalog { entries: Vec::new() }
    }

    /// Appends a checkpoint and returns its metadata.
    pub fn commit(&mut self, uuid: u128, identifier: Option<String>, fingerprint: u64, step_id: u64) -> (r:
        CheckpointMetadata)
        ensures
            r.uuid == uuid && r.identifier == identifier && r.fingerprint == fingerprint && r.step_id
                == step_id,
            final(self).entries@ == old(self).entries@.push(r),
    {
        let r = CheckpointMetadata { uuid, identifier: copy_name(&identifier), fingerprint, step_id };
        self.entries.push(CheckpointMetadata { uuid, identifier, fingerprint, step_id });
        r
    }

    /// The checkpoints, oldest first.
    pub fn list_checkpoints(&self) -> (r: &Vec<CheckpointMetadata>)
        ensures
            r@ == self.entries@,
    {
        &self.entries
    }

    /// Removes the oldest checkpoint when more than the threshold exist, and
    /// returns it; `None`, and no change, otherwise.
    pub fn gc_checkpoint(&mut self) -> (r: Option<CheckpointMetadata>)
        ensures
            old(self).entries@.len() > MIN_CHECKPOINT_THRESHOLD ==> r == Some(old(self).entries@[0])
                && final(self).entries@ == old(self).entries@.subrange(1, old(self).entries@.len() as int),
            old(self).entries@.len() <= MIN_CHECKPOINT_THRESHOLD ==> r is None && final(self).entries@
                == old(self).entries@,
    {
        if self.entries.len() > MIN_CHECKPOINT_THRESHOLD {
            let oldest = self.entries.remove(0);
            assert(self.entries@ =~= old(self).entries@.subrange(1, old(self).entries@.len() as int));
            Some(oldest)
        } else {
            None
        }
    }
}

/// Garbage collection shrinks the catalog by one entry at each call until
/// the threshold is reached, and then leaves it as it is.
pub proof fn lemma_gc_shrinks(before: Seq<CheckpointMetadata>, after: Seq<CheckpointMetadata>, removed: Option<CheckpointMetadata>)
    requires
        before.len() > MIN_CHECKPOINT_THRESHOLD ==> removed == Some(before[0]) && after == before.subrange(1, before.len() as int),
        before.len() <= MIN_CHECKPOINT_THRESHOLD ==> removed is None && after == before,
    ensures
        before.len() > MIN_CHECKPOINT_THRESHOLD ==> after.len() == before.len() - 1 && after.len() >= MIN_CHECKPOINT_THRESHOLD,
        before.len() <= MIN_CHECKPOINT_THRESHOLD ==> after.len() == before.len(),
{
}

/// A copy of an optional name.
fn copy_name(o: &Option<String>) -> (r: Option<String>)
    ensures
        r == *o,
{
    match o {
        None => None,
        Some(s) => Some(s.clone()),
    }
}

/// An entry of a storage directory.
#[derive(Clone, Debug, PartialEq, Eq)]
pub struct DirEntry {
    pub name: String,
    pub is_dir: bool,
}

/// Suffix of the scratch file of a batch being written.
pub const MUTABLE_BATCH_SUFFIX: &'static str = ".mut";

/// Suffix of the file of a committed batch.
pub const BATCH_SUFFIX: &'static str = ".feldera";

/// Whether `s` ends with `suffix`.
pub open spec fn ends_with(s: Seq<char>, suffix: Seq<char>) -> bool {
    s.len() >= suffix.len() && s.subrange(s.len() - suffix.len(), s.len() as int) == suffix
}

/// The texts of a sequence of strings.
pub open spec fn string_texts(v: Seq<String>) -> Seq<Seq<char>> {
    v.map_values(|x: String| x@)
}

/// Whether a directory entry is left over from an earlier run: a directory
/// that is no checkpoint of the catalog, the scratch file of a batch being
/// written, or a committed batch that no checkpoint uses.
pub open spec fn is_leftover(e: DirEntry, checkpoints: Seq<Seq<char>>, referenced: Seq<Seq<char>>) -> bool {
    if e.is_dir {
        !checkpoints.contains(e.name@)
    } else if ends_with(e.name@, ".mut"@) {
        true
    } else if ends_with(e.name@, ".feldera"@) {
        !referenced.contains(e.name@)
    } else {
        false
    }
}

/// The names of the leftover entries, in order.
pub open spec fn leftovers(
    entries: Seq<DirEntry>,
    checkpoints: Seq<Seq<char>>,
    referenced: Seq<Seq<char>>,
) -> Seq<Seq<char>>
    decreases entries.len(),
{
    if entries.len() == 0 {
        Seq::empty()
    } else {
        let rest = leftovers(entries.drop_last(), checkpoints, referenced);
        if is_leftover(entries.last(), checkpoints, referenced) {
            rest.push(entries.last().name@)
        } else {
            rest
        }
    }
}

/// Whether `name` ends with `suffix`.
fn has_suffix(name: &str, suffix: &str) -> (r: bool)
    ensures
        r == ends_with(name@, suffix@),
{
    let n = chars_of(name);
    let x = chars_of(suffix);
    if x.len() > n.len() {
        return false;
    }
    let off = n.len() - x.len();
    let len = n.len();
    let mut i: usize = 0;
    while i < x.len()
        invariant
            len == n@.len(),
            n@ == name@,
            x@ == suffix@,
            off == n@.len() - x@.len(),
            i <= x@.len(),
            forall|k: int| 0 <= k < i ==> n@[off + k] == x@[k],
        decreases x@.len() - i,
    {
        if n[off + i] != x[i] {
            assert(n@.subrange(off as int, n@.len() as int)[i as int] != x@[i as int]);
            return false;
        }
        i = i + 1;
    }
    assert(n@.subrange(off as int, n@.len() as int) =~= x@);
    true
}

/// Whether some string of `v` is `s`.
fn lists_text(v: &Vec<String>, s: &str) -> (r: bool)
    ensures
        r == string_texts(v@).contains(s@),
{
    let mut i: usize = 0;
    while i < v.len()
        invariant
            i <= v@.len(),
            forall|k: int| 0 <= k < i ==> v@[k]@ != s@,
        decreases v@.len() - i,
    {
        if same_text(v[i].as_str(), s) {
            assert(string_texts(v@)[i as int] == s@);
            return true;
        }
        i = i + 1;
    }
    proof {
        if string_texts(v@).contains(s@) {
            let k = choose|k: int| 0 <= k < v@.len() && string_texts(v@)[k] == s@;
            assert(v@[k]@ == s@);
        }
    }
    false
}

/// The entries of a storage directory that a new run removes: directories
/// of checkpoints missing from the catalog, scratch files of batches being
/// written, and committed batches that no checkpoint uses.
pub fn stale_entries(entries: &Vec<DirEntry>, checkpoints: &Vec<String>, referenced: &Vec<String>) -> (r:
    Vec<String>)
    ensures
        string_texts(r@) == leftovers(entries@, string_texts(checkpoints@), string_texts(referenced@)),
{
    let ghost cps = string_texts(checkpoints@);
    let ghost refs = string_texts(referenced@);
    let mut out: Vec<String> = Vec::new();
    let mut i: usize = 0;
    while i < entries.len()
        invariant
            i <= entries@.len(),
            cps == string_texts(checkpoints@),
            refs == string_texts(referenced@),
            string_texts(out@) == leftovers(entries@.subrange(0, i as int), cps, refs),
        decreases entries@.len() - i,
    {
        let e = &entries[i];
        let stale = if e.is_dir {
            !lists_text(checkpoints, e.name.as_str())
        } else if has_suffix(e.name.as_str(), MUTABLE_BATCH_SUFFIX) {
            true
        } else if has_suffix(e.name.as_str(), BATCH_SUFFIX) {
            !lists_text(referenced, e.name.as_str())
        } else {
            false
        };
        proof {
            reveal_strlit(".mut");
            reveal_strlit(".feldera");
            let pre = entries@.subrange(0, i + 1);
            assert(pre.drop_last() =~= entries@.subrange(0, i as int));
            assert(pre.last() == *e);
            assert(stale == is_leftover(*e, cps, refs));
        }
        let ghost before = string_texts(out@);
        if stale {
            out.push(e.name.clone());
            assert(string_texts(out@) =~= before.push(e.name@));
        }
        i = i + 1;
    }
    assert(entries@.subrange(0, entries@.len() as int) =~= entries@);
    out
}

/// What one worker reported after building its circuit.
#[derive(Clone, Debug, PartialEq, Eq)]
pub enum InitReply<T> {
    /// The circuit was built; the value the constructor returned.
    Built(T),
    /// The constructor failed with this error.
    Failed(String),
    /// The worker's channel closed: it panicked while building.
    Disconnected,
}

/// Why a circuit could not be started.
#[derive(Clone, Debug, PartialEq, Eq)]
pub enum InitError {
    /// A constructor failed with this error.
    Constructor(String),
    /// A worker panicked.
    WorkerPanic,
}

/// The error that a failed report stands for.
pub open spec fn failure_of<T>(x: InitReply<T>) -> InitError {
    match x {
        InitReply::Failed(e) => InitError::Constructor(e),
        _ => InitError::WorkerPanic,
    }
}

fn failure<T>(x: InitReply<T>) -> (r: InitError)
    ensures
        r == failure_of(x),
{
    match x {
        InitReply::Failed(e) => InitError::Constructor(e),
        _ => InitError::WorkerPanic,
    }
}

/// What starting a circuit comes to, from the reports of the workers in
/// worker order: the failure of the first worker that did not build its
/// circuit, else the value of the first worker.
pub fn init_outcome<T>(replies: Vec<InitReply<T>>) -> (r: Result<T, InitError>)
    requires
        replies@.len() >= 1,
    ensures
        r is Ok <==> forall|i: int| 0 <= i < replies@.len() ==> #[trigger] replies@[i] is Built,
        r matches Ok(v) ==> replies@[0] == InitReply::Built(v),
        r matches Err(err) ==> exists|i: int|
            0 <= i < replies@.len() && !(replies@[i] is Built) && err == failure_of(replies@[i])
                && forall|j: int| 0 <= j < i ==> #[trigger] replies@[j] is Built,
{
    let ghost v0 = replies@;
    let n = replies.len();
    let mut rest = array_reverse_(replies);
    let mut first: Option<T> = None;
    let mut i: usize = 0;
    while rest.len() > 0
        invariant
            i + rest@.len() == v0.len(),
            v0 == replies@,
            n == v0.len(),
            v0.len() >= 1,
            forall|k: int| 0 <= k < rest@.len() ==> #[trigger] rest@[k] == v0[v0.len() - 1 - k],
            forall|j: int| 0 <= j < i ==> v0[j] is Built,
            i == 0 <==> first is None,
            i > 0 ==> first == Some(v0[0]->Built_0),
        decreases rest@.len(),
    {
        let x = rest.pop().unwrap();
        assert(x == v0[i as int]);
        match x {
            InitReply::Built(v) => {
                if i == 0 {
                    first = Some(v);
                }
            },
            other => {
                let err = failure(other);
                assert(!(v0[i as int] is Built));
                return Err(err);
            },
        }
        i = i + 1;
    }
    proof {
        assert forall|k: int| 0 <= k < v0.len() implies #[trigger] v0[k] is Built by {
        }
    }
    Ok(first.unwrap())
}

/// The entries removed at startup are exactly the leftovers: every leftover
/// entry is named in the list, and every name in the list is that of a
/// leftover entry.
pub proof fn lemma_leftovers_exact(
    entries: Seq<DirEntry>,
    checkpoints: Seq<Seq<char>>,
    referenced: Seq<Seq<char>>,
)
    ensures
        forall|i: int|
            0 <= i < entries.len() && is_leftover(#[trigger] entries[i], checkpoints, referenced)
                ==> leftovers(entries, checkpoints, referenced).contains(entries[i].name@),
        forall|n: Seq<char>|
            #[trigger] leftovers(entries, checkpoints, referenced).contains(n) ==> exists|i: int|
                0 <= i < entries.len() && is_leftover(entries[i], checkpoints, referenced)
                    && entries[i].name@ == n,
    decreases entries.len(),
{
    if entries.len() > 0 {
        let pre = entries.drop_last();
        lemma_leftovers_exact(pre, checkpoints, referenced);
        let rest = leftovers(pre, checkpoints, referenced);
        let all = leftovers(entries, checkpoints, referenced);
        assert forall|i: int|
            0 <= i < entries.len() && is_leftover(#[trigger] entries[i], checkpoints, referenced)
                implies all.contains(entries[i].name@) by {
            if i < entries.len() - 1 {
                assert(pre[i] == entries[i]);
                let j = choose|j: int| 0 <= j < rest.len() && rest[j] == pre[i].name@;
                assert(all[j] == rest[j]);
            } else {
                assert(all[all.len() - 1] == entries[i].name@);
            }
        }
        assert forall|n: Seq<char>| #[trigger] all.contains(n) implies exists|i: int|
            0 <= i < entries.len() && is_leftover(entries[i], checkpoints, referenced)
                && entries[i].name@ == n by {
            let j = choose|j: int| 0 <= j < all.len() && all[j] == n;
            if j < rest.len() {
                assert(rest[j] == n);
                assert(rest.contains(n));
                let i = choose|i: int|
                    0 <= i < pre.len() && is_leftover(pre[i], checkpoints, referenced)
                        && pre[i].name@ == n;
                assert(entries[i] == pre[i]);
            } else {
                assert(entries[entries.len() - 1].name@ == n);
            }
        }
    }
}

} // verus!
