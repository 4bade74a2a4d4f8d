//! The decisions of the directory lock: at most one live process uses a
//! storage directory, which holds a lock file with the decimal ID of the
//! process that owns it.

use crate::casts::{
    all_digits, decimal_text, digits_value, int_text, is_whitespace_of, lemma_digits_value_grows, trim_ws,
    whitespace,
};
use crate::string::chars_of;
use vstd::prelude::*;

verus! {

/// Name of the lock file in a locked directory.
pub const LOCKFILE_NAME: &'static str = "feldera.pidlock";

/// The process ID that a lock file holds: its trimmed text, an optional
/// `+`, then at least one digit, of a value that fits in 32 bits.
pub open spec fn pid_of(contents: Seq<char>) -> Option<u32> {
    let t = trim_ws(contents);
    let d = if t.len() > 0 && t[0] == '+' {
        t.subrange(1, t.len() as int)
    } else {
        t
    };
    if d.len() > 0 && all_digits(d) && digits_value(d) <= u32::MAX {
        Some(digits_value(d) as u32)
    } else {
        None
    }
}

proof fn lemma_trim_ws_bounds(s: Seq<char>, a: int, b: int)
    requires
        0 <= a <= b <= s.len(),
        forall|i: int| 0 <= i < a ==> is_whitespace_of(#[trigger] s[i]),
        a == b || !is_whitespace_of(s[a]),
        forall|i: int| b <= i < s.len() ==> is_whitespace_of(#[trigger] s[i]),
        a == b || !is_whitespace_of(s[b - 1]),
    ensures
        trim_ws(s) == s.subrange(a, b),
    decreases s.len(),
{
    if a > 0 || (s.len() > 0 && is_whitespace_of(s[0])) {
        let t = s.subrange(1, s.len() as int);
        let a1 = if a > 0 { a - 1 } else { 0 };
        let b1 = if b > 0 { b - 1 } else { 0 };
        assert forall|i: int| 0 <= i < a1 implies is_whitespace_of(#[trigger] t[i]) by {
            assert(t[i] == s[i + 1]);
        }
        assert forall|i: int| b1 <= i < t.len() implies is_whitespace_of(#[trigger] t[i]) by {
            assert(t[i] == s[i + 1]);
        }
        if a1 != b1 {
            assert(t[a1] == s[a]);
            assert(t[b1 - 1] == s[b - 1]);
        }
        lemma_trim_ws_bounds(t, a1, b1);
        assert(t.subrange(a1, b1) =~= s.subrange(a, b));
    } else {
        lemma_trim_ws_end_bound(s, b);
    }
}

proof fn lemma_trim_ws_end_bound(s: Seq<char>, b: int)
    requires
        0 <= b <= s.len(),
        forall|i: int| b <= i < s.len() ==> is_whitespace_of(#[trigger] s[i]),
        b == 0 || !is_whitespace_of(s[b - 1]),
    ensures
        crate::casts::trim_ws_end(s) == s.subrange(0, b),
    decreases s.len(),
{
    if s.len() > b {
        lemma_trim_ws_end_bound(s.drop_last(), b);
        assert(s.drop_last().subrange(0, b) =~= s.subrange(0, b));
    } else {
        assert(s.subrange(0, b) =~= s);
    }
}

/// Reads the process ID of a lock file's text; `None` when it is not one.
pub fn parse_pid(contents: &str) -> (r: Option<u32>)
    ensures
        r == pid_of(contents@),
{
    let cs = chars_of(contents);
    let n = cs.len();
    let mut a: usize = 0;
    while a < n && whitespace(cs[a])
        invariant
            n == cs@.len(),
            a <= n,
            forall|i: int| 0 <= i < a ==> is_whitespace_of(#[trigger] cs@[i]),
        decreases n - a,
    {
        a = a + 1;
    }
    let mut b: usize = n;
    while b > a && whitespace(cs[b - 1])
        invariant
            n == cs@.len(),
            a <= b <= n,
            forall|i: int| b <= i < n ==> is_whitespace_of(#[trigger] cs@[i]),
        decreases b,
    {
        b = b - 1;
    }
    proof {
        lemma_trim_ws_bounds(cs@, a as int, b as int);
    }
    let ghost t = cs@.subrange(a as int, b as int);
    let mut i = a;
    if i < b && cs[i] == '+' {
        i = i + 1;
    }
    let ghost d = cs@.subrange(i as int, b as int);
    assert(d =~= if t.len() > 0 && t[0] == '+' {
        t.subrange(1, t.len() as int)
    } else {
        t
    });
    assert(pid_of(contents@) == if d.len() > 0 && all_digits(d) && digits_value(d) <= u32::MAX {
        Some(digits_value(d) as u32)
    } else {
        None
    });
    if i == b {
        return None;
    }
    let start = i;
    let mut v: u64 = 0;
    while i < b
        invariant
            n == cs@.len(),
            start <= i <= b <= n,
            d == cs@.subrange(start as int, b as int),
            pid_of(contents@) == if d.len() > 0 && all_digits(d) && digits_value(d) <= u32::MAX {
                Some(digits_value(d) as u32)
            } else {
                None
            },
            v == digits_value(cs@.subrange(start as int, i as int)),
            v <= u32::MAX,
            all_digits(cs@.subrange(start as int, i as int)),
        decreases b - i,
    {
        let c = cs[i];
        if c < '0' || c > '9' {
            proof {
                assert(d[i - start] == c);
                assert(!all_digits(d));
            }
            return None;
        }
        let dv = (c as u32 - '0' as u32) as u64;
        assert(cs@.subrange(start as int, i + 1).drop_last() =~= cs@.subrange(start as int, i as int));
        v = v * 10 + dv;
        if v > u32::MAX as u64 {
            proof {
                lemma_digits_value_grows(d, i + 1 - start);
                assert(d.subrange(0, i + 1 - start) =~= cs@.subrange(start as int, i + 1));
            }
            return None;
        }
        i = i + 1;
        assert(all_digits(cs@.subrange(start as int, i as int)));
    }
    assert(cs@.subrange(start as int, i as int) =~= d);
    Some(v as u32)
}

/// What acquiring the lock does about an existing lock file.
#[derive(Clone, Copy, Debug, PartialEq, Eq, Structural)]
pub enum ExistingLock {
    /// The file belongs to this process: leave it and write it again.
    Keep,
    /// The file belongs to a process that is gone: remove it first.
    RemoveStale,
    /// The file belongs to a live process: the lock is taken.
    Held(u32),
}

/// What to do about a lock file holding `old_pid`, for process `pid`, when
/// `old_alive` says whether a process with that ID runs.
pub fn existing_lock(old_pid: u32, old_alive: bool, pid: u32) -> (r: ExistingLock)
    ensures
        old_alive ==> r == ExistingLock::Held(old_pid),
        !old_alive && old_pid == pid ==> r == ExistingLock::Keep,
        !old_alive && old_pid != pid ==> r == ExistingLock::RemoveStale,
{
    if old_alive {
        ExistingLock::Held(old_pid)
    } else if old_pid == pid {
        ExistingLock::Keep
    } else {
        ExistingLock::RemoveStale
    }
}

/// The error of a lock held by a live process.
pub open spec fn held_message(pid: u32) -> Seq<char> {
    "pidfile already exists with pid "@ + decimal_text(pid as int)
}

/// The error message of a lock that process `pid` holds.
pub fn held_error(pid: u32) -> (r: String)
    ensures
        r@ == held_message(pid),
{
    let mut s = "pidfile already exists with pid ".to_string();
    let t = int_text(pid as i128);
    s.append(t.as_str());
    s
}

/// The text a lock file holds for process `pid`.
pub fn lock_contents(pid: u32) -> (r: String)
    ensures
        r@ == decimal_text(pid as int),
{
    int_text(pid as i128)
}

/// A storage directory locked by a process.
#[derive(Clone, Debug, PartialEq, Eq)]
pub struct LockedDirectory {
    base: String,
    pid: u32,
}

impl LockedDirectory {
    /// The directory `base`, locked by process `pid`.
    pub fn new(base: String, pid: u32) -> (r: LockedDirectory)
        ensures
            r.spec_base() == base@,
            r.spec_pid() == pid,
    {
        LockedDirectory { base, pid }
    }

    pub closed spec fn spec_base(&self) -> Seq<char> {
        self.base@
    }

    pub closed spec fn spec_pid(&self) -> u32 {
        self.pid
    }

    /// The ID of the process holding the lock.
    pub fn pid(&self) -> (r: u32)
        ensures
            r == self.spec_pid(),
    {
        self.pid
    }

    /// The locked directory.
    pub fn base(&self) -> (r: &str)
        ensures
            r@ == self.spec_base(),
    {
        self.base.as_str()
    }
}

} // verus!
