//! Which finished download records to forget: every finished, failed or
//! cancelled record older than the age limit, and beyond that all but the
//! newest records up to the retention limit.
use vstd::prelude::*;

verus! {

/// Age limit used when the requested one cannot be represented: ten
/// minutes, in nanoseconds.
pub const DEFAULT_MAX_AGE_NANOS: i128 = 600000000000;

/// Whether a duration of `secs` seconds and `subsec_nanos` nanoseconds lies
/// within chrono's `TimeDelta` range, which ends at `i64::MAX` milliseconds.
pub open spec fn within_time_delta(secs: u64, subsec_nanos: u32) -> bool {
    secs < 9223372036854775 || (secs == 9223372036854775 && subsec_nanos <= 807000000)
}

/// `chrono::TimeDelta::from_std` on the duration of `secs` seconds and
/// `subsec_nanos` nanoseconds. By chrono's source it succeeds exactly when
/// the duration is within `TimeDelta`'s range, and then the delta has the
/// same whole seconds and nanoseconds; this gives them back, or `None` for
/// the out-of-range error.
#[verifier::external_body]
fn time_delta_from_std(secs: u64, subsec_nanos: u32) -> (r: Option<(i64, i32)>)
    requires
        subsec_nanos < 1000000000,
    ensures
        match r {
            Some((s, n)) => within_time_delta(secs, subsec_nanos) && s == secs && n
                == subsec_nanos,
            None => !within_time_delta(secs, subsec_nanos),
        },
{
    match chrono::TimeDelta::from_std(std::time::Duration::new(secs, subsec_nanos)) {
        Ok(d) => Some((d.num_seconds(), d.subsec_nanos())),
        Err(_) => None,
    }
}

/// The age limit a requested duration of `secs` seconds and `subsec_nanos`
/// nanoseconds comes to, in nanoseconds: the duration itself when chrono can
/// represent it, else ten minutes.
pub fn max_age_nanos(secs: u64, subsec_nanos: u32) -> (r: i128)
    requires
        subsec_nanos < 1000000000,
    ensures
        r == if within_time_delta(secs, subsec_nanos) {
            secs * 1000000000 + subsec_nanos
        } else {
            DEFAULT_MAX_AGE_NANOS as int
        },
{
    match time_delta_from_std(secs, subsec_nanos) {
        Some((s, n)) => {
            assert(0 <= s * 1000000000 <= 9223372036854775 * 1000000000) by (nonlinear_arith)
                requires
                    0 <= s <= 9223372036854775,
            ;
            (s as i128) * 1000000000 + (n as i128)
        },
        None => DEFAULT_MAX_AGE_NANOS,
    }
}

/// One download record, as far as pruning goes.
#[derive(Debug, Clone, Copy, PartialEq, Eq, Structural)]
pub struct PruneRecord {
    /// The caller's handle for the record.
    pub key: u64,
    /// Last update, in nanoseconds since the epoch.
    pub updated_nanos: i64,
    /// Completed, failed or cancelled.
    pub terminal: bool,
}

/// Whether a record is finished and older than the age limit.
pub open spec fn expired(r: PruneRecord, now: i64, max_age: i128) -> bool {
    r.terminal && now - r.updated_nanos > max_age
}

/// Whether a record is finished and within the age limit.
pub open spec fn survivor(r: PruneRecord, now: i64, max_age: i128) -> bool {
    r.terminal && !expired(r, now, max_age)
}

/// Whether survivor `j` comes before survivor `i` in newest-first order,
/// earlier records first among equally new ones.
pub open spec fn ahead(s: Seq<PruneRecord>, now: i64, max_age: i128, j: int, i: int) -> bool {
    survivor(s[j], now, max_age) && (s[j].updated_nanos > s[i].updated_nanos || (
    s[j].updated_nanos == s[i].updated_nanos && j < i))
}

/// How many of the first `n` records are ahead of record `i`.
pub open spec fn ahead_count(s: Seq<PruneRecord>, now: i64, max_age: i128, i: int, n: int) -> nat
    decreases n,
{
    if n <= 0 {
        0
    } else {
        ahead_count(s, now, max_age, i, n - 1) + if ahead(s, now, max_age, n - 1, i) {
            1nat
        } else {
            0nat
        }
    }
}

/// A record's place among the survivors, newest first, counted from 0.
pub open spec fn rank(s: Seq<PruneRecord>, now: i64, max_age: i128, i: int) -> nat {
    ahead_count(s, now, max_age, i, s.len() as int)
}

/// Whether record `i` is forgotten.
pub open spec fn pruned(s: Seq<PruneRecord>, now: i64, max_age: i128, keep: nat, i: int) -> bool {
    expired(s[i], now, max_age) || (survivor(s[i], now, max_age) && rank(s, now, max_age, i)
        >= keep)
}

/// Whether `key` names a record that is forgotten.
pub open spec fn pruned_key(s: Seq<PruneRecord>, now: i64, max_age: i128, keep: nat, key: u64) -> bool {
    exists|x: int| 0 <= x < s.len() && s[x].key == key && pruned(s, now, max_age, keep, x)
}

fn is_expired(r: PruneRecord, now: i64, max_age: i128) -> (b: bool)
    ensures
        b == expired(r, now, max_age),
{
    r.terminal && (now as i128) - (r.updated_nanos as i128) > max_age
}

/// The keys of the records to forget, in record order: those finished
/// longer ago than `max_age`, then, of the remaining finished records, all
/// but the `max_retained` newest.
pub fn prune_finished(records: &[PruneRecord], now: i64, max_age: i128, max_retained: usize) -> (r:
    Vec<u64>)
    ensures
        r@.len() <= records@.len(),
        forall|k: int|
            0 <= k < r@.len() ==> pruned_key(records@, now, max_age, max_retained as nat, #[trigger] r@[k]),
        forall|i: int|
            0 <= i < records@.len() && pruned(records@, now, max_age, max_retained as nat, i)
                ==> r@.contains(#[trigger] records@[i].key),
{
    let n = records.len();
    let mut out: Vec<u64> = Vec::new();
    let ghost mut origin: Seq<int> = Seq::empty();
    let mut i: usize = 0;
    while i < n
        invariant
            n == records@.len(),
            i <= n,
            out@.len() <= i,
            origin.len() == out@.len(),
            forall|k: int|
                0 <= k < out@.len() ==> 0 <= #[trigger] origin[k] < i && records@[origin[k]].key
                    == out@[k] && pruned(records@, now, max_age, max_retained as nat, origin[k]),
            forall|x: int|
                0 <= x < i && pruned(records@, now, max_age, max_retained as nat, x)
                    ==> out@.contains(#[trigger] records@[x].key),
        decreases n - i,
    {
        let rec = records[i];
        let gone = if is_expired(rec, now, max_age) {
            true
        } else if rec.terminal {
            let mut ahead_n: usize = 0;
            let mut j: usize = 0;
            while j < n
                invariant
                    n == records@.len(),
                    i < n,
                    j <= n,
                    rec == records@[i as int],
                    ahead_n == ahead_count(records@, now, max_age, i as int, j as int),
                    ahead_n <= j,
                decreases n - j,
            {
                let other = records[j];
                let is_ahead = !is_expired(other, now, max_age) && other.terminal && (
                other.updated_nanos > rec.updated_nanos || (other.updated_nanos
                    == rec.updated_nanos && j < i));
                if is_ahead {
                    ahead_n = ahead_n + 1;
                }
                j = j + 1;
            }
            ahead_n >= max_retained
        } else {
            false
        };
        assert(gone == pruned(records@, now, max_age, max_retained as nat, i as int));
        if gone {
            let ghost before = out@;
            out.push(rec.key);
            proof {
                origin = origin.push(i as int);
            }
            assert forall|x: int|
                0 <= x < i + 1 && pruned(records@, now, max_age, max_retained as nat, x)
                    implies out@.contains(#[trigger] records@[x].key) by {
                if x < i {
                    let k = choose|k: int| 0 <= k < before.len() && before[k] == records@[x].key;
                    assert(out@[k] == records@[x].key);
                } else {
                    assert(out@[before.len() as int] == records@[x].key);
                }
            }
        }
        i = i + 1;
    }
    assert forall|k: int| 0 <= k < out@.len() implies pruned_key(
        records@,
        now,
        max_age,
        max_retained as nat,
        #[trigger] out@[k],
    ) by {
        let x = origin[k];
        assert(records@[x].key == out@[k]);
    }
    out
}

proof fn lemma_ahead_count_bound(s: Seq<PruneRecord>, now: i64, max_age: i128, i: int, n: int)
    requires
        0 <= i < s.len(),
        0 <= n <= s.len(),
    ensures
        ahead_count(s, now, max_age, i, n) <= n,
        i < n ==> ahead_count(s, now, max_age, i, n) < n,
    decreases n,
{
    if n > 0 {
        lemma_ahead_count_bound(s, now, max_age, i, n - 1);
    }
}

proof fn lemma_ahead_count_order(
    s: Seq<PruneRecord>,
    now: i64,
    max_age: i128,
    i: int,
    j: int,
    n: int,
)
    requires
        0 <= i < s.len(),
        0 <= j < s.len(),
        0 <= n <= s.len(),
        survivor(s[i], now, max_age),
        s[i].updated_nanos > s[j].updated_nanos,
    ensures
        ahead_count(s, now, max_age, j, n) >= ahead_count(s, now, max_age, i, n) + if i < n {
            1nat
        } else {
            0nat
        },
    decreases n,
{
    if n > 0 {
        lemma_ahead_count_order(s, now, max_age, i, j, n - 1);
        if ahead(s, now, max_age, n - 1, i) {
            assert(ahead(s, now, max_age, n - 1, j));
        }
        if n - 1 == i {
            assert(ahead(s, now, max_age, i, j));
            assert(!ahead(s, now, max_age, i, i));
        }
    }
}

/// Pruning only ever forgets finished records; a record kept for retention
/// is at least as new as every record forgotten for retention; and while
/// there are no more survivors than the retention limit, none of them is
/// forgotten.
pub proof fn law_prune_keeps_the_newest(
    s: Seq<PruneRecord>,
    now: i64,
    max_age: i128,
    keep: nat,
    i: int,
    j: int,
)
    requires
        0 <= i < s.len(),
        0 <= j < s.len(),
    ensures
        pruned(s, now, max_age, keep, i) ==> s[i].terminal,
        survivor(s[i], now, max_age) && survivor(s[j], now, max_age) && pruned(
            s,
            now,
            max_age,
            keep,
            i,
        ) && !pruned(s, now, max_age, keep, j) ==> s[j].updated_nanos >= s[i].updated_nanos,
        s.len() <= keep ==> (pruned(s, now, max_age, keep, i) <==> expired(s[i], now, max_age)),
{
    lemma_ahead_count_bound(s, now, max_age, i, s.len() as int);
    if survivor(s[i], now, max_age) && survivor(s[j], now, max_age) && s[i].updated_nanos
        > s[j].updated_nanos {
        lemma_ahead_count_order(s, now, max_age, i, j, s.len() as int);
    }
}

} // verus!
