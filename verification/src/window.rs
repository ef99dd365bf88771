//! The rolling window: recent ticks of one symbol, bounded in age.

use crate::clock::timestamp_now;
use std::collections::VecDeque;
use vstd::prelude::*;

verus! {

/// Nanoseconds in one second.
pub const NANOS_PER_SEC: u128 = 1_000_000_000;

/// One observation of a price.
#[derive(Debug, PartialEq)]
pub struct Tick<T> {
    /// Arrival time, in nanoseconds since the Unix epoch.
    pub timestamp: u128,
    /// The observed price.
    pub price: T,
}

impl<T: Copy> Clone for Tick<T> {
    fn clone(&self) -> (copy: Self)
        ensures
            copy == *self,
    {
        Tick { timestamp: self.timestamp, price: self.price }
    }
}

impl<T: Copy> Copy for Tick<T> {

}

/// A tick stamped `stamp` has left the window that ends at `now` when it is
/// older than `max_age`, or when it is stamped later than `now` itself.
pub open spec fn expired(stamp: u128, now: u128, max_age: u128) -> bool {
    stamp > now || now - stamp > max_age
}

/// How many ticks at the front of `ticks` have expired, counted up to the
/// first one that has not.
pub open spec fn expired_prefix<T>(ticks: Seq<Tick<T>>, now: u128, max_age: u128) -> nat
    decreases ticks.len(),
{
    if ticks.len() > 0 && expired(ticks[0].timestamp, now, max_age) {
        1 + expired_prefix(ticks.drop_first(), now, max_age)
    } else {
        0
    }
}

/// The window after `tick` arrives: the tick joins at the back, then the
/// expired ticks at the front leave, judged at the new tick's own time.
pub open spec fn after_insert<T>(
    ticks: Seq<Tick<T>>,
    tick: Tick<T>,
    max_age: u128,
) -> Seq<Tick<T>> {
    let all = ticks.push(tick);
    all.skip(expired_prefix(all, tick.timestamp, max_age) as int)
}

/// The prices of `ticks`, in the same order.
pub open spec fn prices_of<T>(ticks: Seq<Tick<T>>) -> Seq<T> {
    Seq::new(ticks.len(), |i: int| ticks[i].price)
}

/// Timestamps never decrease from front to back.
pub open spec fn chronological<T>(ticks: Seq<Tick<T>>) -> bool {
    forall|i: int, j: int| 0 <= i <= j < ticks.len() ==> ticks[i].timestamp <= ticks[j].timestamp
}

/// Every tick is stamped no later than `now` and is at most `max_age` old.
pub open spec fn all_within<T>(ticks: Seq<Tick<T>>, now: u128, max_age: u128) -> bool {
    forall|i: int| 0 <= i < ticks.len() ==> !expired(#[trigger] ticks[i].timestamp, now, max_age)
}

/// The expired prefix is a prefix, every tick in it has expired, and the tick
/// that follows it, if there is one, has not.
pub proof fn lemma_expired_prefix<T>(ticks: Seq<Tick<T>>, now: u128, max_age: u128)
    ensures
        expired_prefix(ticks, now, max_age) <= ticks.len(),
        forall|i: int|
            0 <= i < expired_prefix(ticks, now, max_age) ==> expired(
                #[trigger] ticks[i].timestamp,
                now,
                max_age,
            ),
        expired_prefix(ticks, now, max_age) < ticks.len() ==> !expired(
            ticks[expired_prefix(ticks, now, max_age) as int].timestamp,
            now,
            max_age,
        ),
    decreases ticks.len(),
{
    if ticks.len() > 0 && expired(ticks[0].timestamp, now, max_age) {
        let rest = ticks.drop_first();
        lemma_expired_prefix(rest, now, max_age);
        let k = expired_prefix(rest, now, max_age);
        assert forall|i: int| 0 <= i < 1 + k implies expired(
            #[trigger] ticks[i].timestamp,
            now,
            max_age,
        ) by {
            if i > 0 {
                assert(ticks[i] == rest[i - 1]);
            }
        }
        if 1 + k < ticks.len() {
            assert(ticks[1 + k as int] == rest[k as int]);
        }
    }
}

/// An insertion keeps the new tick, at the back, so the window is never empty
/// after one; it grows by one tick at most, and its front has not expired.
pub proof fn lemma_insert_keeps_new<T>(ticks: Seq<Tick<T>>, tick: Tick<T>, max_age: u128)
    ensures
        1 <= after_insert(ticks, tick, max_age).len() <= ticks.len() + 1,
        after_insert(ticks, tick, max_age).last() == tick,
        !expired(after_insert(ticks, tick, max_age)[0].timestamp, tick.timestamp, max_age),
{
    let all = ticks.push(tick);
    let k = expired_prefix(all, tick.timestamp, max_age);
    lemma_expired_prefix(all, tick.timestamp, max_age);
    if k >= all.len() {
        assert(expired(all[all.len() - 1].timestamp, tick.timestamp, max_age));
    }
}

/// While ticks arrive in order of time, an insertion at time `t` leaves no
/// tick older than `max_age` at `t`, and the window stays in order of time.
pub proof fn lemma_insert_bounds_age<T>(ticks: Seq<Tick<T>>, tick: Tick<T>, max_age: u128)
    requires
        chronological(ticks),
        ticks.len() > 0 ==> ticks.last().timestamp <= tick.timestamp,
    ensures
        chronological(after_insert(ticks, tick, max_age)),
        all_within(after_insert(ticks, tick, max_age), tick.timestamp, max_age),
{
    let all = ticks.push(tick);
    let k = expired_prefix(all, tick.timestamp, max_age) as int;
    let kept = after_insert(ticks, tick, max_age);
    lemma_expired_prefix(all, tick.timestamp, max_age);
    lemma_insert_keeps_new(ticks, tick, max_age);
    assert forall|i: int, j: int| 0 <= i <= j < all.len() implies all[i].timestamp
        <= all[j].timestamp by {
        if j == ticks.len() && i < ticks.len() {
            assert(ticks[i].timestamp <= ticks.last().timestamp);
        }
    }
    assert forall|i: int| 0 <= i < kept.len() implies !expired(
        #[trigger] kept[i].timestamp,
        tick.timestamp,
        max_age,
    ) by {
        assert(kept[i] == all[k + i]);
        assert(all[k].timestamp <= all[k + i].timestamp);
        assert(all[k + i].timestamp <= all[all.len() - 1].timestamp);
    }
    assert forall|i: int, j: int| 0 <= i <= j < kept.len() implies kept[i].timestamp
        <= kept[j].timestamp by {
        assert(all[k + i].timestamp <= all[k + j].timestamp);
    }
}

/// An insertion into a window whose ticks are all still within the window at
/// the new tick's time evicts nothing.
pub proof fn lemma_insert_within_window<T>(ticks: Seq<Tick<T>>, tick: Tick<T>, max_age: u128)
    requires
        all_within(ticks, tick.timestamp, max_age),
    ensures
        after_insert(ticks, tick, max_age) == ticks.push(tick),
{
    let all = ticks.push(tick);
    assert(!expired(all[0].timestamp, tick.timestamp, max_age)) by {
        if ticks.len() > 0 {
            assert(all[0] == ticks[0]);
        }
    }
    assert(all.skip(0) =~= all);
}

/// The window after the ticks of `arrivals` have arrived one after another.
pub open spec fn after_inserts<T>(
    ticks: Seq<Tick<T>>,
    arrivals: Seq<Tick<T>>,
    max_age: u128,
) -> Seq<Tick<T>>
    decreases arrivals.len(),
{
    if arrivals.len() == 0 {
        ticks
    } else {
        after_insert(
            after_inserts(ticks, arrivals.drop_last(), max_age),
            arrivals.last(),
            max_age,
        )
    }
}

/// Where the first `k` ticks have expired, the expired prefix is those `k`
/// and the expired prefix of the rest.
proof fn lemma_expired_prefix_skip<T>(ticks: Seq<Tick<T>>, k: nat, now: u128, max_age: u128)
    requires
        k <= ticks.len(),
        forall|i: int| 0 <= i < k ==> expired(#[trigger] ticks[i].timestamp, now, max_age),
    ensures
        expired_prefix(ticks, now, max_age) == k + expired_prefix(
            ticks.skip(k as int),
            now,
            max_age,
        ),
    decreases k,
{
    if k == 0 {
        assert(ticks.skip(0) =~= ticks);
    } else {
        let rest = ticks.drop_first();
        assert(expired(ticks[0].timestamp, now, max_age));
        assert forall|i: int| 0 <= i < k - 1 implies expired(
            #[trigger] rest[i].timestamp,
            now,
            max_age,
        ) by {
            assert(rest[i] == ticks[i + 1]);
        }
        lemma_expired_prefix_skip(rest, (k - 1) as nat, now, max_age);
        assert(rest.skip(k - 1) =~= ticks.skip(k as int));
    }
}

/// While ticks arrive in order of time, no arrival is lost but to age: after
/// any number of insertions the window holds every tick, old or arrived, from
/// the first one on that has not expired at the time of the last arrival.
pub proof fn lemma_inserts_lose_only_expired<T>(
    ticks: Seq<Tick<T>>,
    arrivals: Seq<Tick<T>>,
    max_age: u128,
)
    requires
        arrivals.len() >= 1,
        chronological(ticks + arrivals),
    ensures
        after_inserts(ticks, arrivals, max_age) == (ticks + arrivals).skip(
            expired_prefix(ticks + arrivals, arrivals.last().timestamp, max_age) as int,
        ),
        chronological(after_inserts(ticks, arrivals, max_age)),
        all_within(after_inserts(ticks, arrivals, max_age), arrivals.last().timestamp, max_age),
    decreases arrivals.len(),
{
    let all = ticks + arrivals;
    let last = arrivals.last();
    let now = last.timestamp;
    let earlier = arrivals.drop_last();
    let before = after_inserts(ticks, earlier, max_age);
    assert((ticks + earlier).push(last) =~= all);
    if arrivals.len() == 1 {
        assert(before == ticks);
        assert(ticks + earlier =~= ticks);
    } else {
        let all_earlier = ticks + earlier;
        let then = earlier.last().timestamp;
        assert forall|i: int, j: int| 0 <= i <= j < all_earlier.len() implies all_earlier[i].timestamp
            <= all_earlier[j].timestamp by {
            assert(all_earlier[i] == all[i] && all_earlier[j] == all[j]);
        }
        lemma_inserts_lose_only_expired(ticks, earlier, max_age);
        let k = expired_prefix(all_earlier, then, max_age);
        lemma_expired_prefix(all_earlier, then, max_age);
        assert(all_earlier.last() == earlier.last());
        assert(all[all_earlier.len() - 1] == earlier.last());
        assert(all[all.len() - 1] == last);
        assert(all[all.len() - 2].timestamp <= all[all.len() - 1].timestamp);
        assert(then <= now);
        assert forall|i: int| 0 <= i < k implies expired(
            #[trigger] all[i].timestamp,
            now,
            max_age,
        ) by {
            assert(all[i] == all_earlier[i]);
            assert(expired(all_earlier[i].timestamp, then, max_age));
            assert(all_earlier[i].timestamp <= all_earlier[all_earlier.len() - 1].timestamp);
        }
        lemma_expired_prefix_skip(all, k, now, max_age);
        assert(before.push(last) =~= all.skip(k as int));
        let e = expired_prefix(all.skip(k as int), now, max_age);
        lemma_expired_prefix(all.skip(k as int), now, max_age);
        assert(all.skip(k as int).skip(e as int) =~= all.skip((k + e) as int));
    }
    // The last step is one insertion into a window in order of time.
    assert(chronological(before) && (before.len() > 0 ==> before.last().timestamp <= now)) by {
        if arrivals.len() == 1 {
            assert forall|i: int, j: int| 0 <= i <= j < ticks.len() implies ticks[i].timestamp
                <= ticks[j].timestamp by {
                assert(ticks[i] == all[i] && ticks[j] == all[j]);
            }
            if ticks.len() > 0 {
                assert(ticks.last() == all[ticks.len() - 1]);
                assert(all[ticks.len() - 1].timestamp <= all[all.len() - 1].timestamp);
            }
        } else {
            assert(all[all.len() - 2].timestamp <= all[all.len() - 1].timestamp);
            lemma_insert_keeps_new(
                after_inserts(ticks, earlier.drop_last(), max_age),
                earlier.last(),
                max_age,
            );
        }
    }
    lemma_insert_bounds_age(before, last, max_age);
}

/// Where the first `k` items of `s` fail `keep` and all others pass it, the
/// items that pass are those from the `k`-th on.
proof fn lemma_filter_is_skip<A>(s: Seq<A>, k: int, keep: spec_fn(A) -> bool)
    requires
        0 <= k <= s.len(),
        forall|i: int| 0 <= i < k ==> !keep(#[trigger] s[i]),
        forall|i: int| k <= i < s.len() ==> keep(#[trigger] s[i]),
    ensures
        s.filter(keep) == s.skip(k),
    decreases s.len(),
{
    reveal(Seq::filter);
    if s.len() > 0 {
        let shorter = s.drop_last();
        if k == s.len() {
            lemma_filter_is_skip(shorter, k - 1, keep);
            assert(shorter.skip(k - 1) =~= s.skip(k));
        } else {
            lemma_filter_is_skip(shorter, k, keep);
            assert(shorter.skip(k).push(s.last()) =~= s.skip(k));
        }
    } else {
        assert(s.skip(0) =~= s);
    }
}

/// While ticks arrive in order of time, the window holds exactly the ticks,
/// old or arrived, that have not expired at the time of the last arrival, in
/// the order in which they came.
pub proof fn lemma_inserts_keep_the_live<T>(
    ticks: Seq<Tick<T>>,
    arrivals: Seq<Tick<T>>,
    max_age: u128,
)
    requires
        arrivals.len() >= 1,
        chronological(ticks + arrivals),
    ensures
        after_inserts(ticks, arrivals, max_age) == (ticks + arrivals).filter(
            (|tick: Tick<T>| !expired(tick.timestamp, arrivals.last().timestamp, max_age)),
        ),
{
    let all = ticks + arrivals;
    let now = arrivals.last().timestamp;
    let keep = |tick: Tick<T>| !expired(tick.timestamp, now, max_age);
    let k = expired_prefix(all, now, max_age) as int;
    let kept = after_inserts(ticks, arrivals, max_age);
    lemma_inserts_lose_only_expired(ticks, arrivals, max_age);
    lemma_expired_prefix(all, now, max_age);
    assert forall|i: int| k <= i < all.len() implies keep(#[trigger] all[i]) by {
        assert(all[i] == kept[i - k]);
        assert(!expired(kept[i - k].timestamp, now, max_age));
    }
    assert forall|i: int| 0 <= i < k implies !keep(#[trigger] all[i]) by {
        assert(expired(all[i].timestamp, now, max_age));
    }
    lemma_filter_is_skip(all, k, keep);
}

/// Ticks that arrive in order of time into an empty window are all retained
/// as long as the first of them is no older than `max_age` when the last one
/// arrives. Prices that arrive so are sampled once each, equal ones too.
pub proof fn lemma_arrivals_within_window_stay<T>(arrivals: Seq<Tick<T>>, max_age: u128)
    requires
        arrivals.len() >= 1,
        chronological(arrivals),
        arrivals.last().timestamp - arrivals[0].timestamp <= max_age,
    ensures
        after_inserts(Seq::<Tick<T>>::empty(), arrivals, max_age) == arrivals,
{
    let all = Seq::<Tick<T>>::empty() + arrivals;
    assert(all =~= arrivals);
    lemma_inserts_lose_only_expired(Seq::<Tick<T>>::empty(), arrivals, max_age);
    assert(arrivals[0].timestamp <= arrivals[arrivals.len() - 1].timestamp);
    assert(!expired(arrivals[0].timestamp, arrivals.last().timestamp, max_age));
    assert(arrivals.skip(0) =~= arrivals);
}

/// The rolling window of one symbol.
pub struct VolatilityCalculator<T> {
    window: VecDeque<Tick<T>>,
    max_age: u128,
}

impl<T> View for VolatilityCalculator<T> {
    type V = Seq<Tick<T>>;

    /// The retained ticks, oldest first.
    closed spec fn view(&self) -> Seq<Tick<T>> {
        self.window@
    }
}

impl<T: Copy> VolatilityCalculator<T> {
    /// The greatest age a retained tick may have, in nanoseconds.
    pub closed spec fn max_age(&self) -> u128 {
        self.max_age
    }

    /// An empty window that keeps ticks for `max_duration_secs` seconds.
    pub fn new(max_duration_secs: u64) -> (calc: Self)
        ensures
            calc@ == Seq::<Tick<T>>::empty(),
            calc.max_age() == max_duration_secs * NANOS_PER_SEC,
    {
        VolatilityCalculator {
            window: VecDeque::new(),
            max_age: max_duration_secs as u128 * NANOS_PER_SEC,
        }
    }

    /// Records `price` as arriving at `now`, then drops from the front every
    /// tick that has expired by then.
    pub fn add_value_at(&mut self, now: u128, price: T)
        ensures
            final(self).max_age() == old(self).max_age(),
            final(self)@ == after_insert(
                old(self)@,
                (Tick { timestamp: now, price }),
                old(self).max_age(),
            ),
            1 <= final(self)@.len() <= old(self)@.len() + 1,
            final(self)@.last() == (Tick { timestamp: now, price }),
            chronological(old(self)@) && (old(self)@.len() > 0 ==> old(self)@.last().timestamp
                <= now) ==> chronological(final(self)@) && all_within(
                final(self)@,
                now,
                old(self).max_age(),
            ),
    {
        let ghost tick = Tick { timestamp: now, price };
        proof {
            lemma_insert_keeps_new(self@, tick, self.max_age);
            if chronological(self@) && (self@.len() > 0 ==> self@.last().timestamp <= now) {
                lemma_insert_bounds_age(self@, tick, self.max_age);
            }
        }
        let ghost all = self.window@.push(tick);
        self.window.push_back(Tick { timestamp: now, price });
        let ghost mut dropped: nat = 0;
        proof {
            assert(all.skip(0) =~= all);
        }
        while self.window.len() > 0 && is_expired(self.window[0].timestamp, now, self.max_age)
            invariant
                self.max_age == old(self).max_age,
                dropped <= all.len(),
                self.window@ == all.skip(dropped as int),
                expired_prefix(all, now, self.max_age) == dropped + expired_prefix(
                    all.skip(dropped as int),
                    now,
                    self.max_age,
                ),
            decreases self.window@.len(),
        {
            proof {
                assert(all.skip(dropped as int).drop_first() =~= all.skip(dropped as int + 1));
            }
            self.window.pop_front();
            proof {
                dropped = dropped + 1;
            }
        }
    }

    /// Records `price` as arriving now, by the system clock.
    pub fn add_value(&mut self, price: T)
        ensures
            final(self).max_age() == old(self).max_age(),
            exists|now: u128|
                final(self)@ == after_insert(
                    old(self)@,
                    (Tick { timestamp: now, price }),
                    old(self).max_age(),
                ),
            1 <= final(self)@.len() <= old(self)@.len() + 1,
            final(self)@.last().price == price,
    {
        let now = timestamp_now();
        self.add_value_at(now, price);
    }

    /// The number of retained ticks.
    pub fn len(&self) -> (count: usize)
        ensures
            count == self@.len(),
    {
        self.window.len()
    }

    /// Whether no tick is retained.
    pub fn is_empty(&self) -> (empty: bool)
        ensures
            empty == (self@.len() == 0),
    {
        self.window.len() == 0
    }

    /// The greatest age a retained tick may have, in nanoseconds.
    pub fn max_age_nanos(&self) -> (nanos: u128)
        ensures
            nanos == self.max_age(),
    {
        self.max_age
    }

    /// The retained ticks, oldest first.
    pub fn ticks(&self) -> (ticks: Vec<Tick<T>>)
        ensures
            ticks@ == self@,
    {
        let n = self.window.len();
        let mut ticks: Vec<Tick<T>> = Vec::new();
        let mut i: usize = 0;
        while i < n
            invariant
                n == self.window@.len(),
                i <= n,
                ticks@ == self@.take(i as int),
            decreases n - i,
        {
            ticks.push(self.window[i]);
            proof {
                assert(ticks@ =~= self@.take(i + 1));
            }
            i += 1;
        }
        proof {
            assert(self@.take(n as int) =~= self@);
        }
        ticks
    }

    /// The prices a volatility is taken over: those of the retained ticks,
    /// oldest first, when there are at least two of them. The volatility is
    /// the population standard deviation of these prices.
    pub fn calculate_volatility(&self) -> (samples: Option<Vec<T>>)
        ensures
            samples is None <==> self@.len() < 2,
            samples matches Some(prices) ==> prices@ == prices_of(self@),
    {
        let n = self.window.len();
        if n < 2 {
            return None;
        }
        let mut prices: Vec<T> = Vec::new();
        let mut i: usize = 0;
        while i < n
            invariant
                n == self.window@.len(),
                i <= n,
                prices@ == prices_of(self@.take(i as int)),
            decreases n - i,
        {
            prices.push(self.window[i].price);
            proof {
                assert(prices@ =~= prices_of(self@.take(i + 1)));
            }
            i += 1;
        }
        proof {
            assert(self@.take(n as int) =~= self@);
        }
        Some(prices)
    }
}

/// Whether a tick stamped `stamp` has left the window that ends at `now`.
fn is_expired(stamp: u128, now: u128, max_age: u128) -> (gone: bool)
    ensures
        gone == expired(stamp, now, max_age),
{
    stamp > now || now - stamp > max_age
}

} // verus!
