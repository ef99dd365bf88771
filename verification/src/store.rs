//! The window store: one rolling window per tracked symbol.
//!
//! The store is plain data. Every method that changes it takes it by `&mut`,
//! so callers that share a store put it behind a lock, and each update is
//! applied whole while the lock is held.

use crate::clock::timestamp_now;
use crate::window::after_insert;
use crate::window::prices_of;
use crate::window::Tick;
use crate::window::NANOS_PER_SEC;
use crate::window::VolatilityCalculator;
use vstd::prelude::*;

verus! {

/// One tracked symbol with its window.
struct Slot<T> {
    symbol: String,
    window: VolatilityCalculator<T>,
}

/// The rolling windows of all tracked symbols, keyed by symbol.
pub struct WindowStore<T> {
    slots: Vec<Slot<T>>,
}

/// Position `i` is the first one in `keys` that holds `key`.
spec fn is_first(keys: Seq<Seq<char>>, i: int, key: Seq<char>) -> bool {
    &&& 0 <= i < keys.len()
    &&& keys[i] == key
    &&& forall|j: int| 0 <= j < i ==> keys[j] != key
}

/// The first position in `keys` that holds `key`.
spec fn first_index(keys: Seq<Seq<char>>, key: Seq<char>) -> int {
    choose|i: int| is_first(keys, i, key)
}

/// A key that occurs at `i` has a first position, at `i` or before it.
proof fn lemma_first_exists(keys: Seq<Seq<char>>, i: int, key: Seq<char>)
    requires
        0 <= i < keys.len(),
        keys[i] == key,
    ensures
        is_first(keys, first_index(keys, key), key),
        first_index(keys, key) <= i,
    decreases i,
{
    if forall|j: int| 0 <= j < i ==> keys[j] != key {
        assert(is_first(keys, i, key));
    } else {
        let j = choose|j: int| 0 <= j < i && keys[j] == key;
        lemma_first_exists(keys, j, key);
    }
    let k = first_index(keys, key);
    if k > i {
        assert(keys[i] != key);
    }
}

/// The first position of a key is the only one that has no equal before it.
proof fn lemma_first_unique(keys: Seq<Seq<char>>, i: int, key: Seq<char>)
    requires
        is_first(keys, i, key),
    ensures
        first_index(keys, key) == i,
{
    let k = first_index(keys, key);
    if k < i {
        assert(keys[k] != key);
    }
    if i < k {
        assert(keys[i] != key);
    }
}

/// A key added at the back leaves the first position of every key that was
/// there before.
proof fn lemma_push_keeps_first(keys: Seq<Seq<char>>, added: Seq<char>, key: Seq<char>)
    requires
        keys.contains(key),
    ensures
        first_index(keys.push(added), key) == first_index(keys, key),
{
    let i = choose|i: int| 0 <= i < keys.len() && keys[i] == key;
    lemma_first_exists(keys, i, key);
    let k = first_index(keys, key);
    let longer = keys.push(added);
    assert(longer[k] == key);
    assert forall|j: int| 0 <= j < k implies longer[j] != key by {
        assert(longer[j] == keys[j]);
    }
    lemma_first_unique(longer, k, key);
}

impl<T> View for WindowStore<T> {
    type V = Map<Seq<char>, Seq<Tick<T>>>;

    /// The retained ticks of each tracked symbol, oldest first.
    closed spec fn view(&self) -> Map<Seq<char>, Seq<Tick<T>>> {
        Map::new(
            |symbol: Seq<char>| self.keys().contains(symbol),
            |symbol: Seq<char>| self.slots[first_index(self.keys(), symbol)].window@,
        )
    }
}

impl<T> WindowStore<T> {
    /// The symbols of the slots, in slot order.
    closed spec fn keys(&self) -> Seq<Seq<char>> {
        Seq::new(self.slots.len() as nat, |i: int| self.slots[i].symbol@)
    }
}

impl<T: Copy> WindowStore<T> {
    /// The greatest age a tick of `symbol` may have, in nanoseconds.
    pub closed spec fn max_age_of(&self, symbol: Seq<char>) -> u128 {
        self.slots[first_index(self.keys(), symbol)].window.max_age()
    }

    /// A store that tracks no symbol.
    pub fn new() -> (store: Self)
        ensures
            store@ == Map::<Seq<char>, Seq<Tick<T>>>::empty(),
    {
        let store = WindowStore { slots: Vec::new() };
        proof {
            assert(store@ =~= Map::<Seq<char>, Seq<Tick<T>>>::empty());
        }
        store
    }

    /// The first slot keyed by `symbol`, if there is one.
    fn find(&self, symbol: &String) -> (found: Option<usize>)
        ensures
            match found {
                Some(i) => is_first(self.keys(), i as int, symbol@) && first_index(
                    self.keys(),
                    symbol@,
                ) == i,
                None => !self.keys().contains(symbol@),
            },
    {
        let mut i: usize = 0;
        while i < self.slots.len()
            invariant
                i <= self.slots.len(),
                forall|j: int| 0 <= j < i ==> self.keys()[j] != symbol@,
            decreases self.slots.len() - i,
        {
            if self.slots[i].symbol.eq(symbol) {
                proof {
                    lemma_first_unique(self.keys(), i as int, symbol@);
                }
                return Some(i);
            }
            i += 1;
        }
        None
    }

    /// Starts tracking `symbol` with an empty window that keeps ticks for
    /// `max_duration_secs` seconds. A symbol that is tracked already keeps its
    /// window; the result says whether the symbol was new.
    pub fn track(&mut self, symbol: &str, max_duration_secs: u64) -> (added: bool)
        ensures
            added == !old(self)@.contains_key(symbol@),
            added ==> final(self)@ == old(self)@.insert(symbol@, Seq::<Tick<T>>::empty()),
            !added ==> final(self)@ == old(self)@,
            added ==> final(self).max_age_of(symbol@) == max_duration_secs * NANOS_PER_SEC,
            forall|s: Seq<char>|
                old(self)@.contains_key(s) ==> final(self).max_age_of(s) == old(self).max_age_of(
                    s,
                ),
    {
        let key = symbol.to_owned();
        match self.find(&key) {
            Some(_) => false,
            None => {
                self.slots.push(
                    Slot { symbol: key, window: VolatilityCalculator::new(max_duration_secs) },
                );
                proof {
                    let n = old(self).slots.len() as int;
                    assert(self.keys() =~= old(self).keys().push(symbol@));
                    assert(self.keys()[n] == symbol@);
                    lemma_first_unique(self.keys(), n, symbol@);
                    assert forall|s: Seq<char>| old(self).keys().contains(s) implies first_index(
                        self.keys(),
                        s,
                    ) == first_index(old(self).keys(), s) && 0 <= first_index(old(self).keys(), s)
                        < n by {
                        lemma_push_keeps_first(old(self).keys(), symbol@, s);
                        let i = choose|i: int| 0 <= i < n && old(self).keys()[i] == s;
                        lemma_first_exists(old(self).keys(), i, s);
                    }
                    assert forall|s: Seq<char>| self.keys().contains(s) implies s == symbol@ || old(
                        self,
                    ).keys().contains(s) by {
                        let i = choose|i: int| 0 <= i < n + 1 && self.keys()[i] == s;
                        if i < n {
                            assert(old(self).keys()[i] == s);
                        }
                    }
                    let grown = old(self)@.insert(symbol@, Seq::<Tick<T>>::empty());
                    assert forall|s: Seq<char>| #[trigger]
                        grown.dom().contains(s) implies self@.dom().contains(s) && self@[s]
                        == grown[s] by {
                        if s == symbol@ {
                            assert(self.slots[n].window@ == Seq::<Tick<T>>::empty());
                        } else {
                            let i = choose|i: int| 0 <= i < n && old(self).keys()[i] == s;
                            assert(self.keys()[i] == s);
                            let k = first_index(old(self).keys(), s);
                            assert(self.slots[k] == old(self).slots[k]);
                        }
                    }
                    assert forall|s: Seq<char>| #[trigger]
                        self@.dom().contains(s) implies grown.dom().contains(s) by {
                        assert(self.keys().contains(s));
                        if s != symbol@ {
                            assert(old(self).keys().contains(s));
                            assert(old(self)@.contains_key(s));
                        }
                    }
                    assert(self@ =~= grown);
                }
                true
            },
        }
    }

    /// Records `price` for `symbol` as arriving at `now`, and drops from the
    /// front of that symbol's window every tick that has expired by then. A
    /// symbol that is not tracked changes nothing.
    pub fn add_at(&mut self, symbol: &str, now: u128, price: T)
        ensures
            old(self)@.contains_key(symbol@) ==> final(self)@ == old(self)@.insert(
                symbol@,
                after_insert(
                    old(self)@[symbol@],
                    (Tick { timestamp: now, price }),
                    old(self).max_age_of(symbol@),
                ),
            ),
            !old(self)@.contains_key(symbol@) ==> final(self)@ == old(self)@,
            forall|s: Seq<char>|
                old(self)@.contains_key(s) ==> final(self).max_age_of(s) == old(self).max_age_of(
                    s,
                ),
    {
        let key = symbol.to_owned();
        match self.find(&key) {
            Some(i) => {
                self.slots[i].window.add_value_at(now, price);
                proof {
                    assert(self.keys() =~= old(self).keys());
                    let updated = old(self)@.insert(
                        symbol@,
                        after_insert(
                            old(self)@[symbol@],
                            (Tick { timestamp: now, price }),
                            old(self).max_age_of(symbol@),
                        ),
                    );
                    assert forall|s: Seq<char>| #[trigger]
                        updated.dom().contains(s) implies self@.dom().contains(s) && self@[s]
                        == updated[s] by {
                        let k = choose|k: int| 0 <= k < old(self).keys().len() && old(
                            self,
                        ).keys()[k] == s;
                        lemma_first_exists(old(self).keys(), k, s);
                        let f = first_index(old(self).keys(), s);
                        if f != i {
                            assert(self.slots[f] == old(self).slots[f]);
                        }
                    }
                    assert forall|s: Seq<char>| #[trigger]
                        self@.dom().contains(s) implies updated.dom().contains(s) by {
                        assert(old(self).keys().contains(s));
                    }
                    assert(self@ =~= updated);
                    assert forall|s: Seq<char>| old(self)@.contains_key(s) implies self.max_age_of(
                        s,
                    ) == old(self).max_age_of(s) by {
                        let k = choose|k: int| 0 <= k < old(self).keys().len() && old(
                            self,
                        ).keys()[k] == s;
                        lemma_first_exists(old(self).keys(), k, s);
                        let f = first_index(old(self).keys(), s);
                        if f != i {
                            assert(self.slots[f] == old(self).slots[f]);
                        }
                    }
                }
            },
            None => {},
        }
    }

    /// Records `price` for `symbol` as arriving now, by the system clock,
    /// which is read once.
    pub fn add(&mut self, symbol: &str, price: T)
        ensures
            !old(self)@.contains_key(symbol@) ==> final(self)@ == old(self)@,
            old(self)@.contains_key(symbol@) ==> exists|now: u128|
                final(self)@ == old(self)@.insert(
                    symbol@,
                    after_insert(
                        old(self)@[symbol@],
                        (Tick { timestamp: now, price }),
                        old(self).max_age_of(symbol@),
                    ),
                ),
            forall|s: Seq<char>|
                old(self)@.contains_key(s) ==> final(self).max_age_of(s) == old(self).max_age_of(
                    s,
                ),
    {
        let now = timestamp_now();
        self.add_at(symbol, now, price);
    }

    /// Whether `symbol` is tracked.
    pub fn is_tracked(&self, symbol: &str) -> (known: bool)
        ensures
            known == self@.contains_key(symbol@),
    {
        let key = symbol.to_owned();
        self.find(&key).is_some()
    }

    /// The number of ticks retained for `symbol`, where it is tracked.
    pub fn sample_count(&self, symbol: &str) -> (count: Option<usize>)
        ensures
            count is Some <==> self@.contains_key(symbol@),
            count matches Some(n) ==> n == self@[symbol@].len(),
    {
        let key = symbol.to_owned();
        match self.find(&key) {
            Some(i) => Some(self.slots[i].window.len()),
            None => None,
        }
    }

    /// The prices a volatility of `symbol` is taken over: those of its
    /// retained ticks, oldest first, when the symbol is tracked and at least
    /// two ticks are retained.
    pub fn compute(&self, symbol: &str) -> (samples: Option<Vec<T>>)
        ensures
            samples is Some <==> self@.contains_key(symbol@) && self@[symbol@].len() >= 2,
            samples matches Some(prices) ==> prices@ == prices_of(self@[symbol@]),
    {
        let key = symbol.to_owned();
        match self.find(&key) {
            Some(i) => self.slots[i].window.calculate_volatility(),
            None => None,
        }
    }

    /// Applies one update and selects what to publish after it: records
    /// `price` for `symbol` as arriving at `now`, then takes the samples of
    /// that symbol's window as [`WindowStore::compute`] does.
    pub fn update_at(&mut self, symbol: &str, now: u128, price: T) -> (samples: Option<Vec<T>>)
        ensures
            old(self)@.contains_key(symbol@) ==> final(self)@ == old(self)@.insert(
                symbol@,
                after_insert(
                    old(self)@[symbol@],
                    (Tick { timestamp: now, price }),
                    old(self).max_age_of(symbol@),
                ),
            ),
            !old(self)@.contains_key(symbol@) ==> final(self)@ == old(self)@,
            forall|s: Seq<char>|
                old(self)@.contains_key(s) ==> final(self).max_age_of(s) == old(self).max_age_of(
                    s,
                ),
            samples is Some <==> final(self)@.contains_key(symbol@) && final(self)@[symbol@].len()
                >= 2,
            samples matches Some(prices) ==> prices@ == prices_of(final(self)@[symbol@]),
    {
        self.add_at(symbol, now, price);
        self.compute(symbol)
    }

    /// Applies one update that arrives now, by the system clock, and selects
    /// what to publish after it.
    pub fn update(&mut self, symbol: &str, price: T) -> (samples: Option<Vec<T>>)
        ensures
            !old(self)@.contains_key(symbol@) ==> final(self)@ == old(self)@,
            old(self)@.contains_key(symbol@) ==> exists|now: u128|
                final(self)@ == old(self)@.insert(
                    symbol@,
                    after_insert(
                        old(self)@[symbol@],
                        (Tick { timestamp: now, price }),
                        old(self).max_age_of(symbol@),
                    ),
                ),
            forall|s: Seq<char>|
                old(self)@.contains_key(s) ==> final(self).max_age_of(s) == old(self).max_age_of(
                    s,
                ),
            samples is Some <==> final(self)@.contains_key(symbol@) && final(self)@[symbol@].len()
                >= 2,
            samples matches Some(prices) ==> prices@ == prices_of(final(self)@[symbol@]),
    {
        let now = timestamp_now();
        self.update_at(symbol, now, price)
    }
}

} // verus!
