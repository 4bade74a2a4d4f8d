use streamsql::control::{InitError, InitReply, init_outcome, BroadcastOutcome, CheckpointCatalog, Command, DirEntry, HandleState, MIN_CHECKPOINT_THRESHOLD, WorkerReply, agreed_fingerprint, broadcast_outcome, stale_entries};
use streamsql::dirlock::{ExistingLock, LOCKFILE_NAME, LockedDirectory, existing_lock, held_error, lock_contents, parse_pid};
use streamsql::memory::{FileIdCounter, MemoryBackend, StorageError};

#[test]
fn backend_files_and_sizes() {
    let mut ids = FileIdCounter::new();
    let mut b = MemoryBackend::with_base("/unused");
    let f1 = b.create_named(&mut ids, "a").unwrap();
    let f2 = b.create_named(&mut ids, "b").unwrap();
    assert_ne!(f1, f2);
    b.write_block(&f2, 8, vec![9; 4]).unwrap();
    b.write_block(&f2, 0, vec![1; 8]).unwrap();
    b.write_block(&f2, 0, vec![2; 8]).unwrap();
    let (h2, _) = b.complete(f2).unwrap();
    assert_eq!(b.get_size(&h2).unwrap(), 12);
    assert_eq!(b.read_block(&h2, 0, 8).unwrap(), vec![2; 8]);
    assert_eq!(b.read_block(&h2, 4, 4), Err(StorageError::UnexpectedEof));
    b.mark_for_checkpoint(&h2);
    b.delete_mut(f1).unwrap();
    assert_eq!(b.open("a"), Err(StorageError::NotFound));
    let d = MemoryBackend::default_for_thread();
    assert_eq!(d.open("a"), Err(StorageError::NotFound));
}

#[test]
fn pid_files_parse() {
    assert_eq!(parse_pid("1234"), Some(1234));
    assert_eq!(parse_pid(" 42\n"), Some(42));
    assert_eq!(parse_pid("+7"), Some(7));
    assert_eq!(parse_pid(""), None);
    assert_eq!(parse_pid("12a"), None);
    assert_eq!(parse_pid("4294967296"), None);
    assert_eq!(parse_pid("4294967295"), Some(u32::MAX));
    assert_eq!(lock_contents(1234), "1234");
}

#[test]
fn lock_decisions() {
    assert_eq!(existing_lock(10, true, 20), ExistingLock::Held(10));
    assert_eq!(existing_lock(20, true, 20), ExistingLock::Held(20));
    assert_eq!(existing_lock(20, false, 20), ExistingLock::Keep);
    assert_eq!(existing_lock(10, false, 20), ExistingLock::RemoveStale);
    assert_eq!(held_error(10), "pidfile already exists with pid 10");
    let l = LockedDirectory::new(String::from("/data"), 5);
    assert_eq!(l.pid(), 5);
    assert_eq!(l.base(), "/data");
    assert_eq!(LOCKFILE_NAME, "feldera.pidlock");
}

#[test]
fn broadcast_outcomes() {
    assert_eq!(broadcast_outcome(true, true, 1, vec![]), BroadcastOutcome::Terminated);
    assert_eq!(broadcast_outcome(false, false, 1, vec![]), BroadcastOutcome::WorkerPanic);
    assert_eq!(
        broadcast_outcome(false, true, 2, vec![(1, WorkerReply::Done(String::from("b"))), (0, WorkerReply::Done(String::from("a")))]),
        BroadcastOutcome::Completed(vec![String::from("a"), String::from("b")])
    );
    assert_eq!(
        broadcast_outcome(false, true, 2, vec![(1, WorkerReply::Done(String::new())), (0, WorkerReply::Disconnected)]),
        BroadcastOutcome::WorkerPanic
    );
    assert_eq!(
        broadcast_outcome(false, true, 2, vec![(0, WorkerReply::Failed(String::from("bad")))]),
        BroadcastOutcome::Scheduler(String::from("bad"))
    );
    assert_eq!(
        broadcast_outcome(false, true, 2, vec![(0, WorkerReply::Done(String::new())), (0, WorkerReply::Done(String::new()))]),
        BroadcastOutcome::WorkerPanic
    );
}

#[test]
fn fingerprints_and_steps() {
    assert_eq!(agreed_fingerprint(&vec![5, 5, 5]), Some(5));
    assert_eq!(agreed_fingerprint(&vec![5, 6]), None);
    assert_eq!(agreed_fingerprint(&vec![]), Some(0));
    let mut h = HandleState::new();
    assert_eq!(h.step(), Command::Step);
    assert_eq!(h.step_id, 1);
    assert_eq!(h.remember_fingerprint(9), 9);
    assert_eq!(h.remember_fingerprint(10), 9);
}

#[test]
fn checkpoint_gc_keeps_threshold() {
    let mut c = CheckpointCatalog::new();
    for i in 0..9u64 {
        let md = c.commit(i as u128, None, 77, i);
        assert_eq!(md.step_id, i);
    }
    c.commit(100, Some(String::from("named")), 77, 9);
    assert_eq!(c.list_checkpoints().len(), 10);
    let mut last = c.list_checkpoints().len();
    while let Some(removed) = c.gc_checkpoint() {
        assert!(c.list_checkpoints().len() < last);
        last = c.list_checkpoints().len();
        assert_eq!(removed.fingerprint, 77);
    }
    assert_eq!(c.list_checkpoints().len(), MIN_CHECKPOINT_THRESHOLD);
    assert_eq!(c.list_checkpoints()[1].identifier.as_deref(), Some("named"));
}

#[test]
fn startup_leftovers_are_found() {
    let e = |n: &str, d: bool| DirEntry { name: String::from(n), is_dir: d };
    let entries = vec![
        e("feldera.pidlock", false),
        e("checkpoints.feldera", false),
        e("cp-1", true),
        e("cp-partial", true),
        e("incomplete_batch.mut", false),
        e("complete_batch.feldera", false),
        e("used_batch.feldera", false),
    ];
    let stale = stale_entries(
        &entries,
        &vec![String::from("cp-1")],
        &vec![String::from("used_batch.feldera"), String::from("checkpoints.feldera")],
    );
    assert_eq!(stale, vec!["cp-partial", "incomplete_batch.mut", "complete_batch.feldera"]);
}

#[test]
fn circuit_start_outcomes() {
    let ok: Vec<InitReply<u32>> = vec![InitReply::Built(1), InitReply::Built(1)];
    assert_eq!(init_outcome(ok), Ok(1));
    let failed = vec![InitReply::Built(1), InitReply::Failed(String::from("constructor failed")), InitReply::Disconnected];
    assert_eq!(init_outcome(failed), Err(InitError::Constructor(String::from("constructor failed"))));
    let panicked: Vec<InitReply<u32>> = vec![InitReply::Disconnected, InitReply::Built(2), InitReply::Built(2), InitReply::Built(2)];
    assert_eq!(init_outcome(panicked), Err(InitError::WorkerPanic));
    let solo: Vec<InitReply<u32>> = vec![InitReply::Disconnected];
    assert_eq!(init_outcome(solo), Err(InitError::WorkerPanic));
}

fn start_with_panic(n: usize) -> Result<u32, InitError> {
    let mut replies: Vec<InitReply<u32>> = vec![InitReply::Disconnected];
    for _ in 1..n {
        replies.push(InitReply::Built(0));
    }
    init_outcome(replies)
}

#[test]
fn test_panic_in_worker1() {
    assert_eq!(start_with_panic(1), Err(InitError::WorkerPanic));
}

#[test]
fn test_panic_in_worker4() {
    assert_eq!(start_with_panic(4), Err(InitError::WorkerPanic));
}

fn step_with_panic(n: usize) -> BroadcastOutcome {
    let mut h = HandleState::new();
    assert_eq!(h.step(), Command::Step);
    let mut replies = Vec::new();
    for w in 1..n {
        replies.push((w, WorkerReply::Done(String::new())));
    }
    replies.push((0, WorkerReply::Disconnected));
    broadcast_outcome(h.terminated, true, n, replies)
}

#[test]
fn test_step_panic1() {
    assert_eq!(step_with_panic(1), BroadcastOutcome::WorkerPanic);
}

#[test]
fn test_step_panic4() {
    assert_eq!(step_with_panic(4), BroadcastOutcome::WorkerPanic);
}

#[test]
fn test_failing_constructor() {
    let replies: Vec<InitReply<u32>> = (0..4).map(|_| InitReply::Failed(String::from("constructor failed"))).collect();
    match init_outcome(replies) {
        Err(InitError::Constructor(e)) => assert_eq!(e, "constructor failed"),
        other => panic!("unexpected outcome {other:?}"),
    }
}

#[test]
fn gc_commits() {
    let mut catalog = CheckpointCatalog::new();
    catalog.commit(0, None, 1, 0);
    for step in 1..=4u64 {
        catalog.commit(step as u128, None, 1, step);
    }
    let num_checkpoints = catalog.list_checkpoints().len();
    assert_eq!(num_checkpoints, 5);
    let mut prev = num_checkpoints;
    for _ in 0..num_checkpoints - MIN_CHECKPOINT_THRESHOLD {
        assert!(catalog.gc_checkpoint().is_some());
        let now = catalog.list_checkpoints().len();
        assert!(now < prev);
        prev = now;
    }
    assert_eq!(prev, MIN_CHECKPOINT_THRESHOLD);
    assert_eq!(catalog.gc_checkpoint(), None);
    assert_eq!(catalog.list_checkpoints()[0].step_id, 3);
}

#[test]
fn gc_on_startup() {
    let e = |n: &str, d: bool| DirEntry { name: String::from(n), is_dir: d };
    let entries = vec![
        e("checkpoint-a", true),
        e("incomplete_batch.mut", false),
        e("checkpoint-b", true),
        e("complete_batch.feldera", false),
    ];
    let stale = stale_entries(&entries, &vec![String::from("checkpoint-a")], &vec![]);
    assert_eq!(stale, vec!["incomplete_batch.mut", "checkpoint-b", "complete_batch.feldera"]);
}

#[test]
fn test_pidlock_lifecycle() {
    // the lock file of a directory, as its text when present
    let mut pid_file: Option<String> = None;
    let pid = 4242u32;
    // no lock file: acquiring writes this process's id
    assert!(pid_file.is_none());
    pid_file = Some(lock_contents(pid));
    let lock = LockedDirectory::new(String::from("/data/storage"), pid);
    assert_eq!(pid_file.as_deref(), Some("4242"));
    assert_eq!(parse_pid(pid_file.as_deref().unwrap()), Some(lock.pid()));
    assert_eq!(lock.base(), "/data/storage");
    // the same process, found not running under that id, keeps its file
    assert_eq!(existing_lock(lock.pid(), false, pid), ExistingLock::Keep);
    // releasing removes the file
    pid_file = None;
    assert!(pid_file.is_none());
}

#[test]
fn test_pidlock_locks() {
    let me = 4242u32;
    let file = lock_contents(me);
    let old = parse_pid(&file).unwrap();
    assert_eq!(existing_lock(old, true, 0), ExistingLock::Held(me));
    assert!(held_error(old).starts_with("pidfile already exists"));
    assert_eq!(existing_lock(old, false, 0), ExistingLock::RemoveStale);
}

#[test]
fn shared_counter_keeps_ids_apart() {
    let mut ids = FileIdCounter::new();
    let mut a = MemoryBackend::new();
    let mut b = MemoryBackend::default_for_thread();
    let fa = a.create_named(&mut ids, "x").unwrap();
    let fb = b.create_named(&mut ids, "x").unwrap();
    let fa2 = a.create_named(&mut ids, "y").unwrap();
    assert_eq!((fa.0, fb.0, fa2.0), (0, 1, 2));
    assert_eq!(b.open("x").unwrap().0, 1);
}
