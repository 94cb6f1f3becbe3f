//! Brute-force mitigation for the login: consecutive failures are counted per
//! (normalised) username and, from `FREE_ATTEMPTS` on, the user is locked out
//! with an exponential backoff. A correct login clears the counter.
//!
//! Time is the caller's monotonic clock in milliseconds; the state lives in
//! memory, which suits a single instance.
use vstd::prelude::*;

use crate::error::AppError;
use crate::text::{chars_of, lowercase, string_of, to_lowercase, trim, trim_bounds};

verus! {

/// Failed attempts tolerated before the lockout starts.
pub const FREE_ATTEMPTS: u32 = 5;

/// Length of the first lockout, in milliseconds; it doubles with each further failure.
pub const BASE_LOCK_MS: u64 = 30_000;

/// Ceiling of the lockout, in milliseconds (15 minutes).
pub const MAX_LOCK_MS: u64 = 900_000;

/// Old failures are forgiven after this long without a new one (1 hour).
pub const FORGET_AFTER_MS: u64 = 3_600_000;

/// Above this many entries, forgiven ones are swept when a failure is recorded.
pub const PRUNE_THRESHOLD: usize = 4096;

/// The failures recorded for one username.
pub struct Entry {
    key: String,
    failures: u32,
    last_failure: u64,
}

/// The per-username failure counters.
pub struct LoginThrottle {
    entries: Vec<Entry>,
}

/// `username` as the throttle keys it: trimmed and lowercased, so the same
/// user typed with other case or padding is the same target.
pub open spec fn normalized(username: Seq<char>) -> Seq<char> {
    lowercase(trim(username))
}

/// Time elapsed between `since` and `now` (zero if the clock reads earlier).
pub open spec fn elapsed(now: u64, since: u64) -> int {
    if now >= since {
        now - since
    } else {
        0
    }
}

pub open spec fn pow2(e: nat) -> nat
    decreases e,
{
    if e == 0 {
        1
    } else {
        2 * pow2((e - 1) as nat)
    }
}

/// Lockout for `failures` recorded failures: 30 s at the first lockout,
/// doubling with each further failure, capped at 15 minutes.
pub open spec fn lock_ms(failures: u32) -> int {
    let over: int = if failures >= FREE_ATTEMPTS { failures - FREE_ATTEMPTS } else { 0 };
    let e: nat = if over < 5 { over as nat } else { 5 };
    let d = BASE_LOCK_MS * pow2(e);
    if d < MAX_LOCK_MS {
        d
    } else {
        MAX_LOCK_MS as int
    }
}

/// Whether an entry with `failures` failures, the last at `last`, locks the
/// user out at `now`.
pub open spec fn locks(failures: u32, last: u64, now: u64) -> bool {
    elapsed(now, last) < FORGET_AFTER_MS && failures >= FREE_ATTEMPTS && elapsed(now, last) < lock_ms(failures)
}

/// Whether the user keyed `key` is locked out at `now` in the state `m`.
pub open spec fn locked_out(m: Map<Seq<char>, (u32, u64)>, key: Seq<char>, now: u64) -> bool {
    m.contains_key(key) && locks(m[key].0, m[key].1, now)
}

/// The state after sweeping the entries forgiven at `now`.
pub open spec fn swept(m: Map<Seq<char>, (u32, u64)>, now: u64) -> Map<Seq<char>, (u32, u64)> {
    m.restrict(Set::new(|k: Seq<char>| m.contains_key(k) && elapsed(now, m[k].1) < FORGET_AFTER_MS))
}

/// The state after `ensure_allowed` checks the user keyed `key` at `now`: a
/// forgiven entry is dropped, anything else is left as it was.
pub open spec fn after_check(m: Map<Seq<char>, (u32, u64)>, key: Seq<char>, now: u64) -> Map<Seq<char>, (u32, u64)> {
    if m.contains_key(key) && elapsed(now, m[key].1) >= FORGET_AFTER_MS {
        m.remove(key)
    } else {
        m
    }
}

/// The state after a failure of the user keyed `key` is recorded at `now`:
/// forgiven entries are swept first when the map is large, then the user's
/// count goes up by one (saturating) and its time becomes `now`.
pub open spec fn after_failure(m: Map<Seq<char>, (u32, u64)>, key: Seq<char>, now: u64) -> Map<Seq<char>, (u32, u64)> {
    let base = if m.dom().len() >= PRUNE_THRESHOLD { swept(m, now) } else { m };
    let count: u32 = if base.contains_key(key) {
        if base[key].0 < u32::MAX { (base[key].0 + 1) as u32 } else { u32::MAX }
    } else {
        1
    };
    base.insert(key, (count, now))
}

/// The failure map that a list of entries holds.
pub closed spec fn map_of(entries: Seq<Entry>) -> Map<Seq<char>, (u32, u64)> {
    Map::new(
        |k: Seq<char>| exists|i: int| 0 <= i < entries.len() && entries[i].key@ == k,
        |k: Seq<char>| {
            let i = choose|i: int| 0 <= i < entries.len() && entries[i].key@ == k;
            (entries[i].failures, entries[i].last_failure)
        },
    )
}

pub closed spec fn distinct(entries: Seq<Entry>) -> bool {
    forall|i: int, j: int|
        0 <= i < entries.len() && 0 <= j < entries.len() && i != j ==> entries[i].key@ != entries[j].key@
}

proof fn lemma_map_of_at(entries: Seq<Entry>, i: int)
    requires
        distinct(entries),
        0 <= i < entries.len(),
    ensures
        map_of(entries).contains_key(entries[i].key@),
        map_of(entries)[entries[i].key@] == (entries[i].failures, entries[i].last_failure),
{
    let k = entries[i].key@;
    assert(exists|j: int| 0 <= j < entries.len() && entries[j].key@ == k);
    let j = choose|j: int| 0 <= j < entries.len() && entries[j].key@ == k;
    assert(i == j);
}

proof fn lemma_map_of_push(entries: Seq<Entry>, x: Entry)
    requires
        distinct(entries),
        !map_of(entries).contains_key(x.key@),
    ensures
        distinct(entries.push(x)),
        map_of(entries.push(x)) == map_of(entries).insert(x.key@, (x.failures, x.last_failure)),
{
    let e2 = entries.push(x);
    assert forall|i: int, j: int| 0 <= i < e2.len() && 0 <= j < e2.len() && i != j implies e2[i].key@ != e2[j].key@ by {
        if i < entries.len() && j < entries.len() {
        } else if i < entries.len() {
            assert(map_of(entries).contains_key(entries[i].key@));
        } else {
            assert(map_of(entries).contains_key(entries[j].key@));
        }
    }
    let m1 = map_of(e2);
    let m2 = map_of(entries).insert(x.key@, (x.failures, x.last_failure));
    assert forall|k: Seq<char>| m1.contains_key(k) <==> m2.contains_key(k) by {
        if m2.contains_key(k) {
            if k == x.key@ {
                assert(e2[entries.len() as int].key@ == k);
            } else {
                let i = choose|i: int| 0 <= i < entries.len() && entries[i].key@ == k;
                assert(e2[i].key@ == k);
            }
        }
        if m1.contains_key(k) {
            let i = choose|i: int| 0 <= i < e2.len() && e2[i].key@ == k;
            if i < entries.len() {
                assert(entries[i].key@ == k);
            }
        }
    }
    assert forall|k: Seq<char>| m1.contains_key(k) implies m1[k] == m2[k] by {
        let i = choose|i: int| 0 <= i < e2.len() && e2[i].key@ == k;
        lemma_map_of_at(e2, i);
        if i < entries.len() {
            lemma_map_of_at(entries, i);
        }
    }
    assert(m1 =~= m2);
}

proof fn lemma_map_of_update(entries: Seq<Entry>, i: int, x: Entry)
    requires
        distinct(entries),
        0 <= i < entries.len(),
        x.key@ == entries[i].key@,
    ensures
        distinct(entries.update(i, x)),
        map_of(entries.update(i, x)) == map_of(entries).insert(x.key@, (x.failures, x.last_failure)),
{
    let e2 = entries.update(i, x);
    assert forall|a: int, b: int| 0 <= a < e2.len() && 0 <= b < e2.len() && a != b implies e2[a].key@ != e2[b].key@ by {
        assert(e2[a].key@ == entries[a].key@);
        assert(e2[b].key@ == entries[b].key@);
    }
    let m1 = map_of(e2);
    let m2 = map_of(entries).insert(x.key@, (x.failures, x.last_failure));
    assert forall|k: Seq<char>| m1.contains_key(k) <==> m2.contains_key(k) by {
        if m2.contains_key(k) {
            if k == x.key@ {
                assert(e2[i].key@ == k);
            } else {
                let j = choose|j: int| 0 <= j < entries.len() && entries[j].key@ == k;
                assert(e2[j].key@ == k);
            }
        }
        if m1.contains_key(k) {
            let j = choose|j: int| 0 <= j < e2.len() && e2[j].key@ == k;
            assert(entries[j].key@ == k);
        }
    }
    assert forall|k: Seq<char>| m1.contains_key(k) implies m1[k] == m2[k] by {
        let j = choose|j: int| 0 <= j < e2.len() && e2[j].key@ == k;
        lemma_map_of_at(e2, j);
        if j != i {
            lemma_map_of_at(entries, j);
        }
    }
    assert(m1 =~= m2);
}

proof fn lemma_map_of_remove(entries: Seq<Entry>, i: int)
    requires
        distinct(entries),
        0 <= i < entries.len(),
    ensures
        distinct(entries.remove(i)),
        map_of(entries.remove(i)) == map_of(entries).remove(entries[i].key@),
{
    let e2 = entries.remove(i);
    let gone = entries[i].key@;
    assert forall|a: int, b: int| 0 <= a < e2.len() && 0 <= b < e2.len() && a != b implies e2[a].key@ != e2[b].key@ by {
        let a0 = if a < i { a } else { a + 1 };
        let b0 = if b < i { b } else { b + 1 };
        assert(e2[a] == entries[a0]);
        assert(e2[b] == entries[b0]);
    }
    let m1 = map_of(e2);
    let m2 = map_of(entries).remove(gone);
    assert forall|k: Seq<char>| m1.contains_key(k) <==> m2.contains_key(k) by {
        if m2.contains_key(k) {
            let j = choose|j: int| 0 <= j < entries.len() && entries[j].key@ == k;
            assert(j != i);
            let j2 = if j < i { j } else { j - 1 };
            assert(e2[j2] == entries[j]);
        }
        if m1.contains_key(k) {
            let j = choose|j: int| 0 <= j < e2.len() && e2[j].key@ == k;
            let j0 = if j < i { j } else { j + 1 };
            assert(e2[j] == entries[j0]);
            assert(j0 != i);
        }
    }
    assert forall|k: Seq<char>| m1.contains_key(k) implies m1[k] == m2[k] by {
        let j = choose|j: int| 0 <= j < e2.len() && e2[j].key@ == k;
        let j0 = if j < i { j } else { j + 1 };
        assert(e2[j] == entries[j0]);
        lemma_map_of_at(e2, j);
        lemma_map_of_at(entries, j0);
    }
    assert(m1 =~= m2);
}

proof fn lemma_map_of_len(entries: Seq<Entry>)
    requires
        distinct(entries),
    ensures
        map_of(entries).dom().len() == entries.len(),
        map_of(entries).dom().finite(),
{
    let keys = entries.map_values(|e: Entry| e.key@);
    assert(keys.no_duplicates()) by {
        assert forall|a: int, b: int| 0 <= a < keys.len() && 0 <= b < keys.len() && a != b implies keys[a] != keys[b] by {}
    }
    keys.unique_seq_to_set();
    assert(keys.to_set() =~= map_of(entries).dom()) by {
        assert forall|k: Seq<char>| keys.to_set().contains(k) <==> map_of(entries).dom().contains(k) by {
            if keys.to_set().contains(k) {
                let a = choose|a: int| 0 <= a < keys.len() && keys[a] == k;
                assert(entries[a].key@ == k);
            }
            if map_of(entries).dom().contains(k) {
                let a = choose|a: int| 0 <= a < entries.len() && entries[a].key@ == k;
                assert(keys[a] == k);
            }
        }
    }
    keys.lemma_cardinality_of_set();
}

impl LoginThrottle {
    #[verifier::type_invariant]
    closed spec fn inv(self) -> bool {
        distinct(self.entries@)
    }
}

impl View for LoginThrottle {
    type V = Map<Seq<char>, (u32, u64)>;

    /// Failures and time of the last failure, per normalised username.
    closed spec fn view(&self) -> Map<Seq<char>, (u32, u64)> {
        map_of(self.entries@)
    }
}

/// `username` trimmed and lowercased: the key of its counter.
pub fn normalize(username: &str) -> (r: String)
    ensures
        r@ == normalized(username@),
{
    let cs = chars_of(username);
    let (a, b) = trim_bounds(&cs);
    let t = string_of(&cs, a, b);
    to_lowercase(t.as_str())
}

/// Exponential backoff, in milliseconds: 30 s at the first lockout, doubling
/// with each further failure, capped at 15 minutes.
pub fn lock_duration(failures: u32) -> (r: u64)
    ensures
        r == lock_ms(failures),
{
    let over = failures.saturating_sub(FREE_ATTEMPTS);
    let e: u32 = if over < 5 { over } else { 5 };
    proof {
        reveal_with_fuel(pow2, 6);
    }
    let factor: u64 = if e == 0 { 1 } else if e == 1 { 2 } else if e == 2 { 4 } else if e == 3 { 8 } else if e == 4 { 16 } else { 32 };
    let d = BASE_LOCK_MS * factor;
    if d < MAX_LOCK_MS {
        d
    } else {
        MAX_LOCK_MS
    }
}

impl LoginThrottle {
    /// A throttle with no recorded failure.
    pub fn new() -> (r: LoginThrottle)
        ensures
            r@ == Map::<Seq<char>, (u32, u64)>::empty(),
    {
        let r = LoginThrottle { entries: Vec::new() };
        proof {
            assert(map_of(r.entries@) =~= Map::<Seq<char>, (u32, u64)>::empty());
        }
        r
    }

    /// Moves the entries out, leaving none behind.
    fn take_entries(&mut self) -> (r: Vec<Entry>)
        ensures
            r@ == old(self).entries@,
            final(self).entries@.len() == 0,
            distinct(r@),
    {
        proof {
            use_type_invariant(&*self);
        }
        let mut r: Vec<Entry> = Vec::new();
        std::mem::swap(&mut r, &mut self.entries);
        r
    }

    fn position(&self, key: &String) -> (r: Option<usize>)
        ensures
            r matches Some(i) ==> i < self.entries.len() && self.entries@[i as int].key@ == key@,
            r is None ==> !self@.contains_key(key@),
    {
        let mut i: usize = 0;
        while i < self.entries.len()
            invariant
                i <= self.entries.len(),
                forall|j: int| 0 <= j < i ==> self.entries@[j].key@ != key@,
            decreases self.entries.len() - i,
        {
            if self.entries[i].key == *key {
                return Some(i);
            }
            i = i + 1;
        }
        None
    }

    /// Refuses with `TooManyAttempts` while the user is locked out. Called
    /// BEFORE checking the password: during the lockout not even the right
    /// password gets through. Failures older than `FORGET_AFTER_MS` are
    /// forgiven (and dropped) here.
    pub fn ensure_allowed(&mut self, username: &str, now: u64) -> (r: Result<(), AppError>)
        ensures
            r is Err <==> locked_out(old(self)@, normalized(username@), now),
            r is Err ==> r == Err::<(), AppError>(AppError::TooManyAttempts),
            final(self)@ == after_check(old(self)@, normalized(username@), now),
    {
        proof {
            use_type_invariant(&*self);
        }
        let key = normalize(username);
        let pos = self.position(&key);
        match pos {
            None => Ok(()),
            Some(i) => {
                proof {
                    lemma_map_of_at(self.entries@, i as int);
                }
                let failures = self.entries[i].failures;
                let last = self.entries[i].last_failure;
                let gone = now.saturating_sub(last);
                if gone >= FORGET_AFTER_MS {
                    proof {
                        lemma_map_of_remove(self.entries@, i as int);
                    }
                    let mut entries = self.take_entries();
                    let _ = entries.remove(i);
                    self.entries = entries;
                    return Ok(());
                }
                if failures >= FREE_ATTEMPTS && gone < lock_duration(failures) {
                    return Err(AppError::TooManyAttempts);
                }
                Ok(())
            },
        }
    }

    /// Counts one more failure for the user at `now`. When the map holds
    /// `PRUNE_THRESHOLD` entries or more, the forgiven ones are swept first.
    pub fn record_failure(&mut self, username: &str, now: u64)
        ensures
            final(self)@ == after_failure(old(self)@, normalized(username@), now),
    {
        proof {
            use_type_invariant(&*self);
            lemma_map_of_len(self.entries@);
        }
        if self.entries.len() >= PRUNE_THRESHOLD {
            self.sweep(now);
        }
        let key = normalize(username);
        proof {
            use_type_invariant(&*self);
        }
        let pos = self.position(&key);
        match pos {
            Some(i) => {
                let failures = self.entries[i].failures;
                let updated = Entry {
                    key: key,
                    failures: if failures < u32::MAX { failures + 1 } else { u32::MAX },
                    last_failure: now,
                };
                proof {
                    lemma_map_of_at(self.entries@, i as int);
                    lemma_map_of_update(self.entries@, i as int, updated);
                }
                let mut entries = self.take_entries();
                entries.set(i, updated);
                self.entries = entries;
            },
            None => {
                let fresh = Entry { key: key, failures: 1, last_failure: now };
                proof {
                    lemma_map_of_push(self.entries@, fresh);
                }
                let mut entries = self.take_entries();
                entries.push(fresh);
                self.entries = entries;
            },
        }
    }

    /// Drops the entries forgiven at `now`.
    fn sweep(&mut self, now: u64)
        ensures
            final(self)@ == swept(old(self)@, now),
    {
        proof {
            use_type_invariant(&*self);
        }
        let mut kept: Vec<Entry> = Vec::new();
        let mut i: usize = 0;
        let ghost old_entries = self.entries@;
        while i < self.entries.len()
            invariant
                self.entries@ == old_entries,
                distinct(old_entries),
                i <= old_entries.len(),
                distinct(kept@),
                forall|k: Seq<char>| #[trigger] map_of(kept@).contains_key(k) ==> exists|j: int| 0 <= j < i && old_entries[j].key@ == k,
                map_of(kept@) == swept(map_of(old_entries), now).restrict(
                    Set::new(|k: Seq<char>| exists|j: int| 0 <= j < i && old_entries[j].key@ == k),
                ),
            decreases old_entries.len() - i,
        {
            let e = &self.entries[i];
            let ghost prefix = Set::new(|k: Seq<char>| exists|j: int| 0 <= j < i && old_entries[j].key@ == k);
            let ghost prefix2 = Set::new(|k: Seq<char>| exists|j: int| 0 <= j < i + 1 && old_entries[j].key@ == k);
            proof {
                lemma_map_of_at(old_entries, i as int);
            }
            if now.saturating_sub(e.last_failure) < FORGET_AFTER_MS {
                let copy = Entry { key: e.key.clone(), failures: e.failures, last_failure: e.last_failure };
                proof {
                    if map_of(kept@).contains_key(copy.key@) {
                        let j = choose|j: int| 0 <= j < i && old_entries[j].key@ == copy.key@;
                        assert(old_entries[j].key@ == old_entries[i as int].key@);
                    }
                    lemma_map_of_push(kept@, copy);
                    let lhs = map_of(kept@).insert(copy.key@, (copy.failures, copy.last_failure));
                    let rhs = swept(map_of(old_entries), now).restrict(prefix2);
                    assert forall|k: Seq<char>| lhs.contains_key(k) <==> rhs.contains_key(k) by {
                        if rhs.contains_key(k) && k != copy.key@ {
                            let j = choose|j: int| 0 <= j < i + 1 && old_entries[j].key@ == k;
                            assert(j < i);
                            assert(prefix.contains(k));
                        }
                        if lhs.contains_key(k) && k != copy.key@ {
                            assert(prefix.contains(k));
                            let j = choose|j: int| 0 <= j < i && old_entries[j].key@ == k;
                            assert(prefix2.contains(k));
                        }
                        if k == copy.key@ {
                            assert(prefix2.contains(k));
                        }
                    }
                    assert forall|k: Seq<char>| lhs.contains_key(k) implies lhs[k] == rhs[k] by {
                        if k != copy.key@ {
                            assert(prefix.contains(k));
                        }
                    }
                    assert(lhs =~= rhs);
                }
                kept.push(copy);
            } else {
                proof {
                    let lhs = map_of(kept@);
                    let rhs = swept(map_of(old_entries), now).restrict(prefix2);
                    assert forall|k: Seq<char>| lhs.contains_key(k) <==> rhs.contains_key(k) by {
                        if rhs.contains_key(k) {
                            let j = choose|j: int| 0 <= j < i + 1 && old_entries[j].key@ == k;
                            if j == i {
                                assert(false);
                            }
                            assert(prefix.contains(k));
                        }
                        if lhs.contains_key(k) {
                            assert(prefix.contains(k));
                            let j = choose|j: int| 0 <= j < i && old_entries[j].key@ == k;
                            assert(prefix2.contains(k));
                        }
                    }
                    assert forall|k: Seq<char>| lhs.contains_key(k) implies lhs[k] == rhs[k] by {
                        assert(prefix.contains(k));
                    }
                    assert(lhs =~= rhs);
                }
            }
            i = i + 1;
        }
        proof {
            let all = Set::new(|k: Seq<char>| exists|j: int| 0 <= j < old_entries.len() && old_entries[j].key@ == k);
            assert(swept(map_of(old_entries), now).restrict(all) =~= swept(map_of(old_entries), now));
        }
        self.entries = kept;
    }

    /// A correct login clears the user's counter.
    pub fn record_success(&mut self, username: &str)
        ensures
            final(self)@ == old(self)@.remove(normalized(username@)),
    {
        proof {
            use_type_invariant(&*self);
        }
        let key = normalize(username);
        match self.position(&key) {
            Some(i) => {
                proof {
                    lemma_map_of_remove(self.entries@, i as int);
                }
                let mut entries = self.take_entries();
                let _ = entries.remove(i);
                self.entries = entries;
            },
            None => {
                proof {
                    assert(self@.remove(key@) =~= self@);
                }
            },
        }
    }
}

impl Default for LoginThrottle {
    fn default() -> (r: LoginThrottle)
        ensures
            r@ == Map::<Seq<char>, (u32, u64)>::empty(),
    {
        LoginThrottle::new()
    }
}

/// A user with fewer than `FREE_ATTEMPTS` recorded failures is never locked out.
pub proof fn law_below_threshold_is_allowed(m: Map<Seq<char>, (u32, u64)>, key: Seq<char>, now: u64)
    requires
        m.contains_key(key) ==> m[key].0 < FREE_ATTEMPTS,
    ensures
        !locked_out(m, key, now),
{
}

/// A first failure starts the count at one.
pub proof fn law_first_failure_counts_one(m: Map<Seq<char>, (u32, u64)>, key: Seq<char>, now: u64)
    requires
        !m.contains_key(key),
    ensures
        after_failure(m, key, now)[key] == (1u32, now),
{
}

/// A failure while the previous ones are not yet forgiven adds one to the count.
pub proof fn law_failures_accumulate(m: Map<Seq<char>, (u32, u64)>, key: Seq<char>, now: u64)
    requires
        m.contains_key(key),
        elapsed(now, m[key].1) < FORGET_AFTER_MS,
        m[key].0 < u32::MAX,
    ensures
        after_failure(m, key, now)[key] == ((m[key].0 + 1) as u32, now),
{
}

/// The failure that brings the count to `FREE_ATTEMPTS` locks the user out at once.
pub proof fn law_threshold_failure_locks_out(m: Map<Seq<char>, (u32, u64)>, key: Seq<char>, now: u64)
    requires
        m.contains_key(key),
        elapsed(now, m[key].1) < FORGET_AFTER_MS,
        m[key].0 + 1 >= FREE_ATTEMPTS,
    ensures
        locked_out(after_failure(m, key, now), key, now),
{
    lemma_lock_bounds(after_failure(m, key, now)[key].0);
}

/// A successful login clears the lockout.
pub proof fn law_success_clears(m: Map<Seq<char>, (u32, u64)>, key: Seq<char>, now: u64)
    ensures
        !locked_out(m.remove(key), key, now),
{
}

/// Failures of one user never change whether another user is locked out, now
/// or later.
pub proof fn law_other_users_unaffected(
    m: Map<Seq<char>, (u32, u64)>,
    key: Seq<char>,
    other: Seq<char>,
    now: u64,
    later: u64,
)
    requires
        key != other,
        now <= later,
    ensures
        locked_out(after_failure(m, key, now), other, later) == locked_out(m, other, later),
        locked_out(after_check(m, key, now), other, later) == locked_out(m, other, later),
{
}

/// Failures older than `FORGET_AFTER_MS` are forgiven.
pub proof fn law_old_failures_are_forgiven(m: Map<Seq<char>, (u32, u64)>, key: Seq<char>, now: u64)
    requires
        m.contains_key(key),
        elapsed(now, m[key].1) >= FORGET_AFTER_MS,
    ensures
        !locked_out(m, key, now),
        !after_check(m, key, now).contains_key(key),
{
}

proof fn lemma_lock_bounds(failures: u32)
    ensures
        failures >= FREE_ATTEMPTS ==> BASE_LOCK_MS <= lock_ms(failures),
        0 < lock_ms(failures) <= MAX_LOCK_MS,
{
    reveal_with_fuel(pow2, 6);
}

/// The lockout grows with the number of failures, from 30 s up to the 15-minute ceiling.
pub proof fn law_lockout_grows_and_is_capped(fewer: u32, more: u32)
    requires
        fewer <= more,
    ensures
        lock_ms(fewer) <= lock_ms(more),
        lock_ms(more) <= MAX_LOCK_MS,
        fewer >= FREE_ATTEMPTS ==> BASE_LOCK_MS <= lock_ms(fewer),
{
    reveal_with_fuel(pow2, 6);
}

/// The first lockout lasts 30 s; past the threshold, each further failure
/// doubles the lockout until it reaches the 15-minute ceiling.
pub proof fn law_lockout_doubles_until_capped(n: u32)
    requires
        FREE_ATTEMPTS <= n < u32::MAX,
    ensures
        lock_ms(FREE_ATTEMPTS) == BASE_LOCK_MS,
        lock_ms((n + 1) as u32) == (if 2 * lock_ms(n) < MAX_LOCK_MS {
            2 * lock_ms(n)
        } else {
            MAX_LOCK_MS as int
        }),
{
    reveal_with_fuel(pow2, 7);
    let over: int = n - FREE_ATTEMPTS;
    if over < 5 {
        assert(pow2((over + 1) as nat) == 2 * pow2(over as nat));
        assert(BASE_LOCK_MS * pow2(over as nat) <= 480_000) by {
            assert(pow2(over as nat) <= 16);
        }
    }
}

/// While a user's failures are not forgiven, the user is refused exactly when
/// the failures reach `FREE_ATTEMPTS` and the time since the last one is
/// below the lockout for that many failures.
pub proof fn law_refused_exactly_during_the_lockout(m: Map<Seq<char>, (u32, u64)>, key: Seq<char>, now: u64)
    requires
        m.contains_key(key),
        elapsed(now, m[key].1) < FORGET_AFTER_MS,
    ensures
        locked_out(m, key, now) <==> (m[key].0 >= FREE_ATTEMPTS && elapsed(now, m[key].1) < lock_ms(
            m[key].0,
        )),
{
}

/// After the failure that brings a user's count to `n >= FREE_ATTEMPTS`
/// (earlier failures not forgiven), the user is refused from that moment
/// for exactly the lockout of `n` failures, and allowed again after it.
pub proof fn law_a_failure_locks_for_its_lockout(
    m: Map<Seq<char>, (u32, u64)>,
    key: Seq<char>,
    at: u64,
    later: u64,
)
    requires
        m.contains_key(key),
        elapsed(at, m[key].1) < FORGET_AFTER_MS,
        m[key].0 + 1 >= FREE_ATTEMPTS,
        m[key].0 < u32::MAX,
        at <= later,
        later - at < FORGET_AFTER_MS,
    ensures
        after_failure(m, key, at)[key].0 == m[key].0 + 1,
        locked_out(after_failure(m, key, at), key, later) <==> later - at < lock_ms(
            (m[key].0 + 1) as u32,
        ),
{
    let base = if m.dom().len() >= PRUNE_THRESHOLD {
        swept(m, at)
    } else {
        m
    };
    assert(base.contains_key(key) && base[key] == m[key]);
}

} // verus!
