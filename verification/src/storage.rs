use crate::set::{expiry_nanos, KeyExpiry, SetArgs};
use crate::storage_result::StorageResult;
use crate::clock::ClockLog;
use crate::table::KeyTable;
use std::time::{Duration, SystemTime, SystemTimeError, UNIX_EPOCH};
use vstd::prelude::*;
use vstd::std_specs::cmp::PartialEqSpecImpl;

verus! {

/// The clock's reading at the UNIX epoch. Readings count nanoseconds from
/// `u64::MAX + 1` seconds before the epoch, so that a time before the epoch
/// reads as a smaller number, as it compares smaller.
pub const CLOCK_EPOCH_NANOS: u128 = 18_446_744_073_709_551_616_000_000_000u128;

/// Every reading of the clock is below this bound: a `Duration` holds at most
/// `u64::MAX` seconds, before or after the epoch.
pub const CLOCK_LIMIT_NANOS: u128 = 36_893_488_147_419_103_232_000_000_000u128;

/// `std::time::SystemTime`, carried through as an opaque value.
#[verifier::external_type_specification]
#[verifier::external_body]
pub struct ExSystemTime(SystemTime);

/// `std::time::SystemTimeError`, carried through as an opaque value.
#[verifier::external_type_specification]
#[verifier::external_body]
pub struct ExSystemTimeError(SystemTimeError);

/// `SystemTime::now()`: the machine's time. Nothing is claimed of it.
#[verifier::external_body]
fn system_now() -> (t: SystemTime) {
    SystemTime::now()
}

/// `SystemTime::duration_since(UNIX_EPOCH)`: the time elapsed since the
/// UNIX epoch, or an error for a time before it. Nothing is claimed of the
/// outcome: it is the machine's time.
#[verifier::external_body]
fn since_epoch(t: &SystemTime) -> (d: Result<Duration, SystemTimeError>) {
    t.duration_since(UNIX_EPOCH)
}

/// `SystemTimeError::duration`: how far before the epoch the time was.
/// Nothing is claimed of it: it is the machine's time.
#[verifier::external_body]
fn error_duration(e: &SystemTimeError) -> (d: Duration) {
    e.duration()
}

/// `Duration::as_nanos`: the whole duration in nanoseconds. A `Duration`
/// holds at most `u64::MAX` seconds and fewer than a billion nanoseconds
/// more, so the count is below `CLOCK_EPOCH_NANOS`.
#[verifier::external_body]
fn duration_nanos(d: &Duration) -> (n: u128)
    ensures
        n < CLOCK_EPOCH_NANOS,
{
    d.as_nanos()
}

/// The clock, read as nanoseconds from `CLOCK_EPOCH_NANOS` before the UNIX
/// epoch: the epoch reads as `CLOCK_EPOCH_NANOS`, a time before it as less.
pub(crate) fn clock_now_nanos() -> (t: u128)
    ensures
        t < CLOCK_LIMIT_NANOS,
{
    let now = system_now();
    match since_epoch(&now) {
        Ok(elapsed) => CLOCK_EPOCH_NANOS + duration_nanos(&elapsed),
        Err(e) => CLOCK_EPOCH_NANOS - duration_nanos(&error_duration(&e)),
    }
}

//////// STORAGE DATA ////////
/// A stored value.
#[derive(Debug)]
pub enum StorageValue {
    String(String),
}

impl View for StorageValue {
    type V = Seq<char>;

    open spec fn view(&self) -> Seq<char> {
        match self {
            StorageValue::String(s) => s@,
        }
    }
}

impl PartialEq for StorageValue {
    fn eq(&self, other: &Self) -> (res: bool) {
        match (self, other) {
            (StorageValue::String(a), StorageValue::String(b)) => *a == *b,
        }
    }
}

impl PartialEqSpecImpl for StorageValue {
    open spec fn obeys_eq_spec() -> bool {
        true
    }

    open spec fn eq_spec(&self, other: &Self) -> bool {
        self@ == other@
    }
}

/// The abstract content of a stored entry.
pub struct StoredData {
    pub value: Seq<char>,
    pub creation_time: u128,
    pub expiry: Option<u128>,
}

/// A stored entry: the value, when it was created and, if it expires, after
/// how many nanoseconds.
#[derive(Debug)]
pub struct StorageData {
    pub value: StorageValue,
    pub creation_time: u128,
    pub expiry: Option<u128>,
}

impl View for StorageData {
    type V = StoredData;

    open spec fn view(&self) -> StoredData {
        StoredData { value: self.value@, creation_time: self.creation_time, expiry: self.expiry }
    }
}

impl StorageData {
    /// Sets the entry's lifetime, in nanoseconds.
    pub fn add_expiry(&mut self, expiry: u128)
        ensures
            final(self).value == old(self).value,
            final(self).creation_time == old(self).creation_time,
            final(self).expiry == Some(expiry),
    {
        self.expiry = Some(expiry);
    }

    /// A new entry for `value`, created now, that does not expire.
    pub fn from(value: String) -> (data: StorageData)
        ensures
            data.value@ == value@,
            data.creation_time < CLOCK_LIMIT_NANOS,
            data.expiry is None,
    {
        StorageData {
            value: StorageValue::String(value),
            creation_time: clock_now_nanos(),
            expiry: None,
        }
    }
}

/// Two entries are equal when their values and lifetimes are; the creation
/// time does not count.
impl PartialEq for StorageData {
    fn eq(&self, other: &Self) -> (res: bool) {
        self.value == other.value && self.expiry == other.expiry
    }
}

impl PartialEqSpecImpl for StorageData {
    open spec fn obeys_eq_spec() -> bool {
        true
    }

    open spec fn eq_spec(&self, other: &Self) -> bool {
        self.value@ == other.value@ && self.expiry == other.expiry
    }
}

//////// STORAGE ////////
/// The abstract state of the storage.
pub struct StorageView {
    /// The entries by key.
    pub store: Map<Seq<char>, StoredData>,
    /// The clock reading from which a key counts as expired.
    pub expiry: Map<Seq<char>, u128>,
    /// Whether `expire_keys` removes expired keys.
    pub active_expiry: bool,
}

/// True when `key` has a deadline and `now` has reached it.
pub open spec fn is_expired(s: StorageView, key: Seq<char>, now: u128) -> bool {
    s.expiry.contains_key(key) && now >= s.expiry[key]
}

/// The state without `key`, in the entries and in the deadlines.
pub open spec fn without_key(s: StorageView, key: Seq<char>) -> StorageView {
    StorageView { store: s.store.remove(key), expiry: s.expiry.remove(key), active_expiry: s.active_expiry }
}

/// What reading `key` at `now` gives, and the state afterwards: an expired key
/// is removed and reads as absent.
pub open spec fn get_spec(s: StorageView, key: Seq<char>, now: u128) -> (Option<Seq<char>>, StorageView) {
    if is_expired(s, key, now) {
        (None, without_key(s, key))
    } else if s.store.contains_key(key) {
        (Some(s.store[key].value), s)
    } else {
        (None, s)
    }
}

/// The lifetime, in nanoseconds, that the options of a SET give.
pub open spec fn set_lifetime(args: SetArgs) -> Option<u128> {
    match args.expiry {
        Some(e) => Some(expiry_nanos(e) as u128),
        None => None,
    }
}

/// The state after writing `value` under `key` at `now`: the entry is replaced
/// and, if the options give a lifetime, the key's deadline is `now` plus it.
/// Without a lifetime, a deadline set before stays.
pub open spec fn set_spec(
    s: StorageView,
    key: Seq<char>,
    value: Seq<char>,
    args: SetArgs,
    now: u128,
) -> StorageView {
    let data = StoredData { value, creation_time: now, expiry: set_lifetime(args) };
    StorageView {
        store: s.store.insert(key, data),
        expiry: match set_lifetime(args) {
            Some(n) => s.expiry.insert(key, (now + n) as u128),
            None => s.expiry,
        },
        active_expiry: s.active_expiry,
    }
}

/// The keys whose deadline `now` has reached.
pub open spec fn expired_keys(s: StorageView, now: u128) -> Set<Seq<char>> {
    Set::new(|k: Seq<char>| is_expired(s, k, now))
}

/// The state after removing the expired keys at `now`, when active expiry is on.
pub open spec fn expire_spec(s: StorageView, now: u128) -> StorageView {
    if !s.active_expiry {
        s
    } else {
        StorageView {
            store: s.store.remove_keys(expired_keys(s, now)),
            expiry: s.expiry.remove_keys(expired_keys(s, now)),
            active_expiry: s.active_expiry,
        }
    }
}

/// Read after write: reading `key` at `now` after writing `value` under it at
/// `t` gives `value` back, unless `now` has reached the key's deadline, which
/// is `t` plus the write's lifetime, or, for a write without a lifetime, the
/// deadline the key had before the write.
pub proof fn lemma_get_after_set(
    s: StorageView,
    key: Seq<char>,
    value: Seq<char>,
    args: SetArgs,
    t: u128,
    now: u128,
)
    requires
        t < CLOCK_LIMIT_NANOS,
    ensures
        get_spec(set_spec(s, key, value, args, t), key, now).0 == (if (match set_lifetime(args) {
            Some(n) => now >= t + n,
            None => is_expired(s, key, now),
        }) {
            None::<Seq<char>>
        } else {
            Some(value)
        }),
{
    if let Some(e) = args.expiry {
        assert(expiry_nanos(e) <= 18_446_744_073_709_551_615_000_000_000) by (nonlinear_arith)
            requires
                expiry_nanos(e) == (match e {
                    KeyExpiry::EX(secs) => secs * 1_000_000_000,
                    KeyExpiry::PX(millis) => millis * 1_000_000,
                }),
        {
        }
    }
}

/// A read of a key whose deadline has not been reached changes nothing.
pub proof fn lemma_get_is_read_only(s: StorageView, key: Seq<char>, now: u128)
    requires
        !is_expired(s, key, now),
    ensures
        get_spec(s, key, now).1 == s,
{
}

/// Expiring twice at the same instant removes nothing more than expiring once.
pub proof fn lemma_expire_idempotent(s: StorageView, now: u128)
    ensures
        expire_spec(expire_spec(s, now), now) == expire_spec(s, now),
{
    let once = expire_spec(s, now);
    if s.active_expiry {
        assert(expired_keys(once, now) =~= Set::<Seq<char>>::empty());
        assert(once.store.remove_keys(expired_keys(once, now)) =~= once.store);
        assert(once.expiry.remove_keys(expired_keys(once, now)) =~= once.expiry);
    }
}

/// After expiry at `now` with active expiry on, no key is expired at `now`, and
/// every key that was not expired keeps its entry and its deadline.
pub proof fn lemma_expire_keeps_live_keys(s: StorageView, now: u128, key: Seq<char>)
    requires
        s.active_expiry,
    ensures
        !is_expired(expire_spec(s, now), key, now),
        !is_expired(s, key, now) ==> {
            &&& expire_spec(s, now).store.contains_key(key) == s.store.contains_key(key)
            &&& s.store.contains_key(key) ==> expire_spec(s, now).store[key] == s.store[key]
            &&& expire_spec(s, now).expiry.contains_key(key) == s.expiry.contains_key(key)
            &&& s.expiry.contains_key(key) ==> expire_spec(s, now).expiry[key] == s.expiry[key]
        },
{
}

/// True when every key with a deadline has an entry.
pub open spec fn deadlines_have_entries(s: StorageView) -> bool {
    forall|k: Seq<char>| #[trigger] s.expiry.contains_key(k) ==> s.store.contains_key(k)
}

/// Writes, reads and expiry keep every key with a deadline stored.
pub proof fn lemma_operations_keep_deadlines_with_entries(
    s: StorageView,
    key: Seq<char>,
    value: Seq<char>,
    args: SetArgs,
    now: u128,
)
    requires
        deadlines_have_entries(s),
    ensures
        deadlines_have_entries(set_spec(s, key, value, args, now)),
        deadlines_have_entries(get_spec(s, key, now).1),
        deadlines_have_entries(expire_spec(s, now)),
{
}

/// The key-value store, with deadlines for keys that expire.
pub struct Storage {
    pub store: KeyTable<StorageData>,
    pub expiry: KeyTable<u128>,
    pub active_expiry: bool,
    /// The clock readings that the storage's operations have taken.
    pub clock: ClockLog,
}

/// `after` holds one clock reading more than `before`: the one that the
/// operation between them took, which `last_reading(after)` gives.
pub open spec fn took_reading(before: Storage, after: Storage) -> bool {
    &&& after.readings() == before.readings().push(last_reading(after))
    &&& last_reading(after) < CLOCK_LIMIT_NANOS
}

/// The latest clock reading that the storage's operations have taken.
pub open spec fn last_reading(s: Storage) -> u128 {
    s.readings().last()
}

/// What `expire_keys` does from `before` to `after`: with active expiry on,
/// it takes a reading of the clock and removes the keys whose deadline that
/// reading has reached; with it off, it changes nothing and reads no clock.
pub open spec fn expired_at_reading(before: Storage, after: Storage) -> bool {
    if before@.active_expiry {
        took_reading(before, after) && after@ == expire_spec(before@, last_reading(after))
    } else {
        after.readings() == before.readings() && after@ == before@
    }
}

/// What `set` does from `before` to `after`: it takes a reading of the
/// clock and writes `value` under `key` at that reading.
pub open spec fn set_at_reading(
    before: Storage,
    after: Storage,
    key: Seq<char>,
    value: Seq<char>,
    args: SetArgs,
) -> bool {
    took_reading(before, after) && after@ == set_spec(before@, key, value, args, last_reading(after))
}

/// What `get` does from `before` to `after`, finding `found`: it takes a
/// reading of the clock and reads `key` at that reading.
pub open spec fn got_at_reading(
    before: Storage,
    after: Storage,
    key: Seq<char>,
    found: Option<Seq<char>>,
) -> bool {
    took_reading(before, after) && get_spec(before@, key, last_reading(after)) == (found, after@)
}

/// Active expiry goes by the clock reading it takes: a key whose deadline
/// that reading has reached is gone afterwards, entry and deadline; a stored
/// key without a deadline, or whose deadline lies after that reading, is
/// still stored with the same entry.
pub proof fn lemma_expire_keys_by_reading(before: Storage, after: Storage, key: Seq<char>)
    requires
        expired_at_reading(before, after),
        before@.active_expiry,
    ensures
        after.readings() == before.readings().push(last_reading(after)),
        before@.expiry.contains_key(key) && before@.expiry[key] <= last_reading(after) ==> {
            &&& !after@.store.contains_key(key)
            &&& !after@.expiry.contains_key(key)
        },
        before@.store.contains_key(key) && !(before@.expiry.contains_key(key) && before@.expiry[key]
            <= last_reading(after)) ==> {
            &&& after@.store.contains_key(key)
            &&& after@.store[key] == before@.store[key]
        },
{
    let now = last_reading(after);
    if before@.expiry.contains_key(key) && before@.expiry[key] <= now {
        assert(expired_keys(before@, now).contains(key));
    }
    if !(before@.expiry.contains_key(key) && before@.expiry[key] <= now) {
        assert(!expired_keys(before@, now).contains(key));
    }
}

/// A write takes a reading of the clock and stamps the entry with it; with a
/// lifetime, the key's deadline is that reading plus the lifetime.
pub proof fn lemma_set_by_reading(
    before: Storage,
    after: Storage,
    key: Seq<char>,
    value: Seq<char>,
    args: SetArgs,
)
    requires
        set_at_reading(before, after, key, value, args),
    ensures
        after.readings() == before.readings().push(last_reading(after)),
        after@.store.contains_key(key),
        after@.store[key].value == value,
        after@.store[key].creation_time == last_reading(after),
        args.expiry matches Some(e) ==> {
            &&& after@.expiry.contains_key(key)
            &&& after@.expiry[key] == last_reading(after) + expiry_nanos(e)
        },
{
    if let Some(e) = args.expiry {
        lemma_expiry_nanos_bound(e);
    }
}

/// A lifetime is at most `u64::MAX` seconds.
pub proof fn lemma_expiry_nanos_bound(e: KeyExpiry)
    ensures
        0 <= expiry_nanos(e) <= 18_446_744_073_709_551_615_000_000_000,
{
    match e {
        KeyExpiry::EX(secs) => {
            assert(0 <= secs * 1_000_000_000 <= 18_446_744_073_709_551_615_000_000_000)
                by (nonlinear_arith)
                requires
                    secs <= 18_446_744_073_709_551_615u64,
            ;
        },
        KeyExpiry::PX(millis) => {
            assert(0 <= millis * 1_000_000 <= 18_446_744_073_709_551_615_000_000_000)
                by (nonlinear_arith)
                requires
                    millis <= 18_446_744_073_709_551_615u64,
            ;
        },
    }
}

/// A read takes a reading of the clock: a key whose deadline that reading
/// has reached reads as absent and is gone afterwards; otherwise the read
/// finds the stored value, if any, and changes nothing.
pub proof fn lemma_get_by_reading(
    before: Storage,
    after: Storage,
    key: Seq<char>,
    found: Option<Seq<char>>,
)
    requires
        got_at_reading(before, after, key, found),
    ensures
        after.readings() == before.readings().push(last_reading(after)),
        before@.expiry.contains_key(key) && before@.expiry[key] <= last_reading(after) ==> {
            &&& found is None
            &&& !after@.store.contains_key(key)
            &&& !after@.expiry.contains_key(key)
        },
        !(before@.expiry.contains_key(key) && before@.expiry[key] <= last_reading(after)) ==> {
            &&& after@ == before@
            &&& found == (if before@.store.contains_key(key) {
                Some(before@.store[key].value)
            } else {
                None
            })
        },
{
}

/// Read after write, by the clock: a key written with a lifetime reads back
/// its value exactly while the read's clock reading is before the write's
/// reading plus the lifetime, and as absent from then on.
pub proof fn lemma_get_after_set_by_reading(
    s0: Storage,
    s1: Storage,
    s2: Storage,
    key: Seq<char>,
    value: Seq<char>,
    args: SetArgs,
    found: Option<Seq<char>>,
)
    requires
        set_at_reading(s0, s1, key, value, args),
        got_at_reading(s1, s2, key, found),
        args.expiry is Some,
    ensures
        found == (if last_reading(s2) >= last_reading(s1) + expiry_nanos(args.expiry->Some_0) {
            None
        } else {
            Some(value)
        }),
{
    lemma_set_by_reading(s0, s1, key, value, args);
    lemma_get_by_reading(s1, s2, key, found);
}

impl View for Storage {
    type V = StorageView;

    open spec fn view(&self) -> StorageView {
        StorageView { store: self.store@, expiry: self.expiry@, active_expiry: self.active_expiry }
    }
}

impl Storage {
    /// An empty storage with active expiry on.
    pub fn new() -> (storage: Self)
        ensures
            storage@.store == Map::<Seq<char>, StoredData>::empty(),
            storage@.expiry == Map::<Seq<char>, u128>::empty(),
            storage@.active_expiry,
            storage.readings() == Seq::<u128>::empty(),
    {
        let store: KeyTable<StorageData> = KeyTable::new();
        Self { store, expiry: KeyTable::new(), active_expiry: true, clock: ClockLog::new() }
    }

    /// The clock readings that the storage's operations have taken, oldest first.
    pub open spec fn readings(&self) -> Seq<u128> {
        self.clock.readings()
    }

    /// Turns active expiry on or off.
    pub fn set_active_expiry(&mut self, value: bool)
        ensures
            final(self)@.store == old(self)@.store,
            final(self)@.expiry == old(self)@.expiry,
            final(self)@.active_expiry == value,
            final(self).readings() == old(self).readings(),
    {
        self.active_expiry = value;
    }

    fn rm_expired_keys(&mut self, key: &String)
        ensures
            final(self)@ == without_key(old(self)@, key@),
            final(self).readings() == old(self).readings(),
    {
        self.store.remove(key);
        self.expiry.remove(key);
    }

    /// Removes the keys whose deadline `now` has reached, if active expiry is on.
    pub fn expire_keys_at(&mut self, now: u128)
        ensures
            final(self)@ == expire_spec(old(self)@, now),
            final(self).readings() == old(self).readings(),
    {
        if !self.active_expiry {
            return;
        }
        let ghost start = self@;
        let ghost readings = self.readings();
        let keys = self.expiry.keys();
        let mut expired_list: Vec<String> = Vec::new();
        let mut i: usize = 0;
        while i < keys.len()
            invariant
                self@ == start,
                self.readings() == readings,
                i <= keys@.len(),
                forall|a: int|
                    0 <= a < expired_list@.len() ==> is_expired(start, #[trigger] expired_list@[a]@, now),
                forall|b: int|
                    0 <= b < i && is_expired(start, #[trigger] keys@[b]@, now) ==> exists|a: int|
                        0 <= a < expired_list@.len() && expired_list@[a]@ == keys@[b]@,
            decreases keys@.len() - i,
        {
            let deadline: Option<u128> = match self.expiry.get(&keys[i]) {
                Some(t) => Some(*t),
                None => None,
            };
            let ghost listed = expired_list@;
            if let Some(t) = deadline {
                if now >= t {
                    expired_list.push(keys[i].clone());
                    assert(expired_list@[expired_list@.len() - 1]@ == keys@[i as int]@);
                }
            }
            proof {
                assert forall|a: int| 0 <= a < listed.len() implies expired_list@[a] == listed[a] by {}
                assert forall|b: int|
                    0 <= b < i + 1 && is_expired(start, #[trigger] keys@[b]@, now) implies exists|a: int|
                    0 <= a < expired_list@.len() && expired_list@[a]@ == keys@[b]@ by {
                    if b < i {
                        let a = choose|a: int| 0 <= a < listed.len() && listed[a]@ == keys@[b]@;
                        assert(expired_list@[a] == listed[a]);
                    } else {
                        assert(expired_list@[expired_list@.len() - 1]@ == keys@[b]@);
                    }
                }
            }
            i = i + 1;
        }
        let ghost all = expired_keys(start, now);
        assert forall|k: Seq<char>| #[trigger] all.contains(k) implies exists|a: int|
            0 <= a < expired_list@.len() && expired_list@[a]@ == k by {
            let b = choose|b: int| 0 <= b < keys@.len() && keys@[b]@ == k;
            assert(is_expired(start, keys@[b]@, now));
        }
        let mut j: usize = 0;
        proof {
            let none = Set::new(|k: Seq<char>| exists|a: int| 0 <= a < 0 && expired_list@[a]@ == k);
            assert(start.store.remove_keys(none) =~= start.store);
            assert(start.expiry.remove_keys(none) =~= start.expiry);
        }
        while j < expired_list.len()
            invariant
                self.readings() == readings,
                j <= expired_list@.len(),
                forall|a: int|
                    0 <= a < expired_list@.len() ==> is_expired(start, #[trigger] expired_list@[a]@, now),
                self@ == (StorageView {
                    store: start.store.remove_keys(
                        Set::new(|k: Seq<char>| exists|a: int| 0 <= a < j && expired_list@[a]@ == k),
                    ),
                    expiry: start.expiry.remove_keys(
                        Set::new(|k: Seq<char>| exists|a: int| 0 <= a < j && expired_list@[a]@ == k),
                    ),
                    active_expiry: start.active_expiry,
                }),
            decreases expired_list@.len() - j,
        {
            let ghost gone = Set::new(
                |k: Seq<char>| exists|a: int| 0 <= a < j && expired_list@[a]@ == k,
            );
            let ghost gone_next = Set::new(
                |k: Seq<char>| exists|a: int| 0 <= a < j + 1 && expired_list@[a]@ == k,
            );
            self.rm_expired_keys(&expired_list[j]);
            proof {
                let key = expired_list@[j as int]@;
                assert forall|k: Seq<char>| gone_next.contains(k) <==> gone.insert(key).contains(k) by {
                    if gone_next.contains(k) {
                        let a = choose|a: int| 0 <= a < j + 1 && expired_list@[a]@ == k;
                        if a < j {
                            assert(gone.contains(k));
                        }
                    }
                    if gone.contains(k) {
                        let a = choose|a: int| 0 <= a < j && expired_list@[a]@ == k;
                        assert(gone_next.contains(k));
                    }
                }
                assert(gone_next =~= gone.insert(key));
                assert(self@.store =~= start.store.remove_keys(gone_next));
                assert(self@.expiry =~= start.expiry.remove_keys(gone_next));
            }
            j = j + 1;
        }
        proof {
            let gone = Set::new(
                |k: Seq<char>| exists|a: int| 0 <= a < expired_list@.len() && expired_list@[a]@ == k,
            );
            assert forall|k: Seq<char>| gone.contains(k) <==> all.contains(k) by {
                if gone.contains(k) {
                    let a = choose|a: int| 0 <= a < expired_list@.len() && expired_list@[a]@ == k;
                    assert(is_expired(start, expired_list@[a]@, now));
                }
            }
            assert(gone =~= all);
        }
    }

    /// Removes the keys whose deadline has passed, if active expiry is on:
    /// those whose deadline the clock, read now, has reached.
    pub fn expire_keys(&mut self)
        ensures
            exists|now: u128| now < CLOCK_LIMIT_NANOS && final(self)@ == expire_spec(old(self)@, now),
            expired_at_reading(*old(self), *final(self)),
    {
        if !self.active_expiry {
            assert(expire_spec(self@, 0) == self@);
            return;
        }
        let now = self.clock.read();
        self.expire_keys_at(now);
        assert(self.readings().last() == now);
        assert(self@ == expire_spec(old(self)@, now));
    }

    /// Writes `value` under `key` at time `now` and answers "OK".
    pub fn set_at(&mut self, key: String, value: String, args: SetArgs, now: u128) -> (res:
        StorageResult<String>)
        requires
            now < CLOCK_LIMIT_NANOS,
        ensures
            final(self)@ == set_spec(old(self)@, key@, value@, args, now),
            final(self).readings() == old(self).readings(),
            res matches Ok(answer) && answer@ == seq!['O', 'K'],
    {
        let mut data = StorageData {
            value: StorageValue::String(value),
            creation_time: now,
            expiry: None,
        };
        if let Some(expiry) = args.expiry {
            let lifetime = expiry.as_nanos();
            data.add_expiry(lifetime);
            self.expiry.insert(key.clone(), now + lifetime);
        }
        self.store.insert(key, data);
        proof {
            reveal_strlit("OK");
        }
        Ok(String::from_str("OK"))
    }

    /// Writes `value` under `key` now and answers "OK".
    pub fn set(&mut self, key: String, value: String, args: SetArgs) -> (res: StorageResult<String>)
        ensures
            exists|now: u128|
                now < CLOCK_LIMIT_NANOS && final(self)@ == set_spec(old(self)@, key@, value@, args, now),
            set_at_reading(*old(self), *final(self), key@, value@, args),
            res matches Ok(answer) && answer@ == seq!['O', 'K'],
    {
        let now = self.clock.read();
        let ghost (k, v) = (key@, value@);
        let res = self.set_at(key, value, args, now);
        assert(self.readings().last() == now);
        assert(self@ == set_spec(old(self)@, k, v, args, now));
        res
    }

    /// Reads `key` at time `now`; an expired key is removed and reads as absent.
    pub fn get_at(&mut self, key: String, now: u128) -> (res: StorageResult<Option<String>>)
        ensures
            final(self)@ == get_spec(old(self)@, key@, now).1,
            final(self).readings() == old(self).readings(),
            match get_spec(old(self)@, key@, now).0 {
                Some(v) => res matches Ok(Some(r)) && r@ == v,
                None => res matches Ok(None),
            },
    {
        let deadline: Option<u128> = match self.expiry.get(&key) {
            Some(t) => Some(*t),
            None => None,
        };
        if let Some(expiry) = deadline {
            if now >= expiry {
                self.rm_expired_keys(&key);
                return Ok(None);
            }
        }
        match self.store.get(&key) {
            Some(data) => match &data.value {
                StorageValue::String(value) => Ok(Some(value.clone())),
            },
            None => Ok(None),
        }
    }

    /// Reads `key` now; an expired key is removed and reads as absent.
    pub fn get(&mut self, key: String) -> (res: StorageResult<Option<String>>)
        ensures
            exists|now: u128|
                {
                    &&& now < CLOCK_LIMIT_NANOS
                    &&& final(self)@ == get_spec(old(self)@, key@, now).1
                    &&& match get_spec(old(self)@, key@, now).0 {
                        Some(v) => res matches Ok(Some(r)) && r@ == v,
                        None => res matches Ok(None),
                    }
                },
            res matches Ok(found) && got_at_reading(
                *old(self),
                *final(self),
                key@,
                match found {
                    Some(r) => Some(r@),
                    None => None,
                },
            ),
    {
        let now = self.clock.read();
        let ghost k = key@;
        let res = self.get_at(key, now);
        assert(self.readings().last() == now);
        assert(self@ == get_spec(old(self)@, k, now).1);
        res
    }
}

} // verus!
