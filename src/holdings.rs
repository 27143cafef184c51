use vstd::prelude::*;
use crate::amm::MAX_SUPPLY;
use crate::error::EngineError;

verus! {

/// The largest price that a trade can produce: every base amount fits in a
/// `u64` and every trade yields at least one sub-unit.
pub const MAX_PRICE: u128 = 18_446_744_073_709_551_615 * 1_000;

/// One user's position in one token.
pub struct TokenHolding {
    pub token_symbol: String,
    pub amount: u64,
    /// Time of the first acquisition, in seconds since the Unix epoch.
    pub acquired_at: u64,
    /// Volume-weighted cost basis, scaled by `PRICE_SCALE`.
    pub average_price: u128,
}

/// A holding together with the user it belongs to.
pub struct LedgerEntry {
    pub owner: String,
    pub holding: TokenHolding,
}

/// Every user's holdings; at most one entry per (user, symbol) pair, and no
/// entry with a zero amount.
pub struct HoldingsLedger {
    pub entries: Vec<LedgerEntry>,
}

impl TokenHolding {
    /// A copy of this holding.
    pub fn snapshot(&self) -> (r: TokenHolding)
        ensures
            r == *self,
    {
        TokenHolding {
            token_symbol: self.token_symbol.clone(),
            amount: self.amount,
            acquired_at: self.acquired_at,
            average_price: self.average_price,
        }
    }
}

pub open spec fn entry_is(e: LedgerEntry, owner: Seq<char>, symbol: Seq<char>) -> bool {
    e.owner@ == owner && e.holding.token_symbol@ == symbol
}

/// Entries of the holding of `owner` in `symbol`.
pub open spec fn keyed(owner: Seq<char>, symbol: Seq<char>) -> spec_fn(LedgerEntry) -> bool {
    |e: LedgerEntry| entry_is(e, owner, symbol)
}

/// Entries of any holding in `symbol`.
pub open spec fn of_symbol(symbol: Seq<char>) -> spec_fn(LedgerEntry) -> bool {
    |e: LedgerEntry| e.holding.token_symbol@ == symbol
}

/// Sum of the amounts of the entries that `f` selects.
pub open spec fn sum_where(s: Seq<LedgerEntry>, f: spec_fn(LedgerEntry) -> bool) -> int
    decreases s.len(),
{
    if s.len() == 0 {
        0
    } else {
        sum_where(s.drop_last(), f) + (if f(s.last()) { s.last().holding.amount as int } else { 0 })
    }
}

/// Sum of all amounts held of `symbol`, over all users.
pub open spec fn total_held(s: Seq<LedgerEntry>, symbol: Seq<char>) -> int {
    sum_where(s, of_symbol(symbol))
}

/// The holdings of `owner`, in ledger order.
pub open spec fn holdings_of_owner(s: Seq<LedgerEntry>, owner: Seq<char>) -> Seq<TokenHolding>
    decreases s.len(),
{
    if s.len() == 0 {
        Seq::empty()
    } else if s.last().owner@ == owner {
        holdings_of_owner(s.drop_last(), owner).push(s.last().holding)
    } else {
        holdings_of_owner(s.drop_last(), owner)
    }
}

/// The weighted average of two positions' prices, rounded down.
pub open spec fn weighted_average(amount_a: int, price_a: int, amount_b: int, price_b: int) -> int {
    (amount_a * price_a + amount_b * price_b) / (amount_a + amount_b)
}

pub open spec fn picked(e: LedgerEntry, f: spec_fn(LedgerEntry) -> bool) -> int {
    if f(e) { e.holding.amount as int } else { 0 }
}

proof fn lemma_sum_push(s: Seq<LedgerEntry>, e: LedgerEntry, f: spec_fn(LedgerEntry) -> bool)
    ensures
        sum_where(s.push(e), f) == sum_where(s, f) + picked(e, f),
{
    assert(s.push(e).drop_last() =~= s);
}

proof fn lemma_sum_update(s: Seq<LedgerEntry>, i: int, e: LedgerEntry, f: spec_fn(LedgerEntry) -> bool)
    requires
        0 <= i < s.len(),
    ensures
        sum_where(s.update(i, e), f) == sum_where(s, f) - picked(s[i], f) + picked(e, f),
    decreases s.len(),
{
    let t = s.update(i, e);
    if i == s.len() - 1 {
        assert(t.drop_last() =~= s.drop_last());
    } else {
        assert(t.drop_last() =~= s.drop_last().update(i, e));
        lemma_sum_update(s.drop_last(), i, e, f);
    }
}

proof fn lemma_sum_remove(s: Seq<LedgerEntry>, i: int, f: spec_fn(LedgerEntry) -> bool)
    requires
        0 <= i < s.len(),
    ensures
        sum_where(s.remove(i), f) == sum_where(s, f) - picked(s[i], f),
    decreases s.len(),
{
    let t = s.remove(i);
    if i == s.len() - 1 {
        assert(t =~= s.drop_last());
    } else {
        assert(t.drop_last() =~= s.drop_last().remove(i));
        assert(t.last() == s.last());
        lemma_sum_remove(s.drop_last(), i, f);
    }
}

/// With no entry selected, the sum is zero.
proof fn lemma_sum_none(s: Seq<LedgerEntry>, f: spec_fn(LedgerEntry) -> bool)
    requires
        forall|k: int| 0 <= k < s.len() ==> !f(s[k]),
    ensures
        sum_where(s, f) == 0,
    decreases s.len(),
{
    if s.len() > 0 {
        lemma_sum_none(s.drop_last(), f);
    }
}

/// With exactly entry `i` selected, the sum is its amount.
proof fn lemma_sum_single(s: Seq<LedgerEntry>, i: int, f: spec_fn(LedgerEntry) -> bool)
    requires
        0 <= i < s.len(),
        f(s[i]),
        forall|k: int| 0 <= k < s.len() && k != i ==> !f(s[k]),
    ensures
        sum_where(s, f) == s[i].holding.amount,
    decreases s.len(),
{
    if i == s.len() - 1 {
        lemma_sum_none(s.drop_last(), f);
    } else {
        lemma_sum_single(s.drop_last(), i, f);
    }
}

pub proof fn lemma_sum_nonneg(s: Seq<LedgerEntry>, f: spec_fn(LedgerEntry) -> bool)
    ensures
        0 <= sum_where(s, f),
    decreases s.len(),
{
    if s.len() > 0 {
        lemma_sum_nonneg(s.drop_last(), f);
    }
}

/// A symbol that no entry holds has a zero total.
pub proof fn lemma_total_absent(s: Seq<LedgerEntry>, symbol: Seq<char>)
    requires
        forall|i: int| 0 <= i < s.len() ==> s[i].holding.token_symbol@ != symbol,
    ensures
        total_held(s, symbol) == 0,
{
    lemma_sum_none(s, of_symbol(symbol));
}

/// What one user holds of one symbol never exceeds the total held of it.
pub proof fn lemma_held_le_total(s: Seq<LedgerEntry>, owner: Seq<char>, symbol: Seq<char>)
    ensures
        sum_where(s, keyed(owner, symbol)) <= total_held(s, symbol),
    decreases s.len(),
{
    if s.len() > 0 {
        lemma_held_le_total(s.drop_last(), owner, symbol);
    }
}

/// A user without a holding in `symbol` sees none listed among their holdings;
/// in particular a holding sold down to zero is no longer listed.
pub proof fn lemma_unheld_not_listed(ledger: HoldingsLedger, owner: Seq<char>, symbol: Seq<char>)
    requires
        !ledger.holds(owner, symbol),
    ensures
        forall|x: int| 0 <= x < holdings_of_owner(ledger.entries@, owner).len()
            ==> (#[trigger] holdings_of_owner(ledger.entries@, owner)[x]).token_symbol@ != symbol,
{
    assert forall|k: int| 0 <= k < ledger.entries@.len() implies !entry_is(ledger.entries@[k], owner, symbol) by {
        if entry_is(ledger.entries@[k], owner, symbol) {
            assert(ledger.holds(owner, symbol));
        }
    }
    lemma_listed_symbols(ledger.entries@, owner, symbol);
}

proof fn lemma_listed_symbols(s: Seq<LedgerEntry>, owner: Seq<char>, symbol: Seq<char>)
    requires
        forall|k: int| 0 <= k < s.len() ==> !entry_is(s[k], owner, symbol),
    ensures
        forall|x: int| 0 <= x < holdings_of_owner(s, owner).len()
            ==> (#[trigger] holdings_of_owner(s, owner)[x]).token_symbol@ != symbol,
    decreases s.len(),
{
    if s.len() > 0 {
        let t = s.drop_last();
        assert forall|k: int| 0 <= k < t.len() implies !entry_is(t[k], owner, symbol) by {
            assert(t[k] == s[k]);
        }
        lemma_listed_symbols(t, owner, symbol);
        assert(s.last() == s[s.len() - 1]);
        let prev = holdings_of_owner(t, owner);
        let h = holdings_of_owner(s, owner);
        assert forall|x: int| 0 <= x < h.len() implies (#[trigger] h[x]).token_symbol@ != symbol by {
            if x < prev.len() {
                assert(h[x] == prev[x]);
            }
        }
    }
}

/// `after` is the ledger `before` once `owner` acquired `amount` of `symbol`
/// at `price` at time `now`: an existing holding grows and takes the weighted
/// average price, keeping its acquisition time; otherwise a new holding is
/// appended.
pub open spec fn credited(before: Seq<LedgerEntry>, after: Seq<LedgerEntry>, owner: String, symbol: String, amount: u64, price: u128, now: u64) -> bool {
    if exists|i: int| 0 <= i < before.len() && entry_is(#[trigger] before[i], owner@, symbol@) {
        exists|i: int| 0 <= i < before.len() && entry_is(#[trigger] before[i], owner@, symbol@)
            && after == before.update(i, LedgerEntry {
                holding: TokenHolding {
                    amount: (before[i].holding.amount + amount) as u64,
                    average_price: weighted_average(
                        before[i].holding.amount as int,
                        before[i].holding.average_price as int,
                        amount as int,
                        price as int,
                    ) as u128,
                    ..before[i].holding
                },
                ..before[i]
            })
    } else {
        after == before.push(LedgerEntry {
            owner,
            holding: TokenHolding { token_symbol: symbol, amount, acquired_at: now, average_price: price },
        })
    }
}

/// `after` is the ledger `before` once `amount` of `symbol` left `owner`'s
/// holding: a holding with more than `amount` shrinks, keeping its
/// acquisition time and average price; otherwise it is removed.
pub open spec fn debited(before: Seq<LedgerEntry>, after: Seq<LedgerEntry>, owner: Seq<char>, symbol: Seq<char>, amount: u64) -> bool {
    exists|i: int| 0 <= i < before.len() && entry_is(#[trigger] before[i], owner, symbol)
        && after == if before[i].holding.amount > amount {
            before.update(i, LedgerEntry {
                holding: TokenHolding { amount: (before[i].holding.amount - amount) as u64, ..before[i].holding },
                ..before[i]
            })
        } else {
            before.remove(i)
        }
}

proof fn lemma_weighted_average_bounded(a: int, x: int, b: int, y: int, m: int)
    requires
        0 <= a,
        0 < b,
        0 <= x <= m,
        0 <= y <= m,
    ensures
        0 <= weighted_average(a, x, b, y) <= m,
{
    assert(a * x + b * y <= (a + b) * m) by (nonlinear_arith)
        requires 0 <= a, 0 < b, 0 <= x <= m, 0 <= y <= m;
    assert(0 <= a * x + b * y) by (nonlinear_arith)
        requires 0 <= a, 0 < b, 0 <= x, 0 <= y;
    assert((a * x + b * y) / (a + b) <= m) by (nonlinear_arith)
        requires a * x + b * y <= (a + b) * m, a + b > 0;
    assert(0 <= (a * x + b * y) / (a + b)) by (nonlinear_arith)
        requires 0 <= a * x + b * y, a + b > 0;
}

impl HoldingsLedger {
    pub open spec fn wf(&self) -> bool {
        &&& forall|i: int| 0 <= i < self.entries@.len() ==> 0 < #[trigger] self.entries@[i].holding.amount <= MAX_SUPPLY
        &&& forall|i: int| 0 <= i < self.entries@.len() ==> self.entries@[i].holding.average_price <= MAX_PRICE
        &&& forall|i: int, j: int|
            0 <= i < self.entries@.len() && 0 <= j < self.entries@.len() && i != j
                ==> !entry_is(self.entries@[i], self.entries@[j].owner@, self.entries@[j].holding.token_symbol@)
    }

    /// Whether `owner` has a holding in `symbol`.
    pub open spec fn holds(&self, owner: Seq<char>, symbol: Seq<char>) -> bool {
        exists|i: int| 0 <= i < self.entries@.len() && entry_is(#[trigger] self.entries@[i], owner, symbol)
    }

    /// The amount `owner` holds of `symbol`; zero without a holding.
    pub open spec fn held(&self, owner: Seq<char>, symbol: Seq<char>) -> int {
        sum_where(self.entries@, keyed(owner, symbol))
    }

    /// The amount held of `symbol`, over all users.
    pub open spec fn total(&self, symbol: Seq<char>) -> int {
        total_held(self.entries@, symbol)
    }

    /// A user has a holding exactly when the amount held is positive, and that
    /// amount is part of the symbol's total.
    pub proof fn lemma_held(&self, owner: Seq<char>, symbol: Seq<char>)
        requires
            self.wf(),
        ensures
            self.holds(owner, symbol) <==> self.held(owner, symbol) > 0,
            0 <= self.held(owner, symbol) <= self.total(symbol),
    {
        let s = self.entries@;
        let f = keyed(owner, symbol);
        lemma_held_le_total(s, owner, symbol);
        lemma_sum_nonneg(s, f);
        if self.holds(owner, symbol) {
            let i = choose|i: int| 0 <= i < s.len() && entry_is(#[trigger] s[i], owner, symbol);
            assert forall|k: int| 0 <= k < s.len() && k != i implies !f(s[k]) by {
                assert(!entry_is(s[k], s[i].owner@, s[i].holding.token_symbol@));
            }
            lemma_sum_single(s, i, f);
        } else {
            assert forall|k: int| 0 <= k < s.len() implies !f(s[k]) by {
                if f(s[k]) {
                    assert(entry_is(s[k], owner, symbol));
                }
            }
            lemma_sum_none(s, f);
        }
    }

    pub fn new() -> (r: Self)
        ensures
            r.wf(),
            r.entries@.len() == 0,
    {
        HoldingsLedger { entries: Vec::new() }
    }

    /// The index of the holding of `owner` in `symbol`, if there is one.
    pub fn find(&self, owner: &String, symbol: &String) -> (r: Option<usize>)
        requires
            self.wf(),
        ensures
            r is None <==> !self.holds(owner@, symbol@),
            r is Some ==> r->Some_0 < self.entries@.len() && entry_is(self.entries@[r->Some_0 as int], owner@, symbol@)
                && self.held(owner@, symbol@) == self.entries@[r->Some_0 as int].holding.amount,
    {
        let mut i: usize = 0;
        while i < self.entries.len()
            invariant
                self.wf(),
                i <= self.entries@.len(),
                forall|k: int| 0 <= k < i ==> !entry_is(self.entries@[k], owner@, symbol@),
            decreases self.entries@.len() - i,
        {
            if self.entries[i].owner == *owner && self.entries[i].holding.token_symbol == *symbol {
                proof {
                    let s = self.entries@;
                    let f = keyed(owner@, symbol@);
                    assert forall|k: int| 0 <= k < s.len() && k != i implies !f(s[k]) by {
                        assert(!entry_is(s[k], s[i as int].owner@, s[i as int].holding.token_symbol@));
                    }
                    lemma_sum_single(s, i as int, f);
                }
                return Some(i);
            }
            i += 1;
        }
        None
    }

    /// A copy of the holding of `owner` in `symbol`, if there is one.
    pub fn get(&self, owner: &String, symbol: &String) -> (r: Option<TokenHolding>)
        requires
            self.wf(),
        ensures
            r is None <==> !self.holds(owner@, symbol@),
            r is Some ==> r->Some_0.token_symbol@ == symbol@ && r->Some_0.amount == self.held(owner@, symbol@)
                && exists|i: int| 0 <= i < self.entries@.len() && #[trigger] self.entries@[i].holding == r->Some_0
                    && entry_is(self.entries@[i], owner@, symbol@),
    {
        match self.find(owner, symbol) {
            Some(i) => Some(self.entries[i].holding.snapshot()),
            None => None,
        }
    }

    /// Copies of every holding of `owner`, in ledger order.
    pub fn holdings_of(&self, owner: &String) -> (r: Vec<TokenHolding>)
        ensures
            r@ == holdings_of_owner(self.entries@, owner@),
    {
        let mut out: Vec<TokenHolding> = Vec::new();
        let mut i: usize = 0;
        while i < self.entries.len()
            invariant
                i <= self.entries@.len(),
                out@ == holdings_of_owner(self.entries@.subrange(0, i as int), owner@),
            decreases self.entries@.len() - i,
        {
            proof {
                assert(self.entries@.subrange(0, i as int + 1).drop_last() =~= self.entries@.subrange(0, i as int));
            }
            if self.entries[i].owner == *owner {
                out.push(self.entries[i].holding.snapshot());
            }
            i += 1;
        }
        assert(self.entries@.subrange(0, i as int) =~= self.entries@);
        out
    }

    /// Adds `amount` of `symbol` to `owner` at `unit_price`. An existing
    /// holding keeps its acquisition time and takes the volume-weighted
    /// average of its price and `unit_price`; otherwise a new holding starts
    /// at `unit_price`. Returns whether the holding is new.
    pub fn credit(&mut self, owner: &String, symbol: &String, amount: u64, unit_price: u128, now_secs: u64) -> (first: bool)
        requires
            old(self).wf(),
            amount > 0,
            unit_price <= MAX_PRICE,
            old(self).held(owner@, symbol@) + amount <= MAX_SUPPLY,
        ensures
            final(self).wf(),
            first == !old(self).holds(owner@, symbol@),
            credited(old(self).entries@, final(self).entries@, *owner, *symbol, amount, unit_price, now_secs),
            forall|o: Seq<char>, s: Seq<char>| #[trigger] final(self).held(o, s)
                == old(self).held(o, s) + (if o == owner@ && s == symbol@ { amount as int } else { 0 }),
            forall|s: Seq<char>| #[trigger] final(self).total(s)
                == old(self).total(s) + (if s == symbol@ { amount as int } else { 0 }),
            first ==> final(self).entries@ == old(self).entries@.push(LedgerEntry {
                owner: *owner,
                holding: TokenHolding { token_symbol: *symbol, amount, acquired_at: now_secs, average_price: unit_price },
            }),
            !first ==> exists|i: int| 0 <= i < old(self).entries@.len() && entry_is(#[trigger] old(self).entries@[i], owner@, symbol@)
                && final(self).entries@ == old(self).entries@.update(i, LedgerEntry {
                    owner: old(self).entries@[i].owner,
                    holding: TokenHolding {
                        token_symbol: old(self).entries@[i].holding.token_symbol,
                        amount: (old(self).entries@[i].holding.amount + amount) as u64,
                        acquired_at: old(self).entries@[i].holding.acquired_at,
                        average_price: weighted_average(
                            old(self).entries@[i].holding.amount as int,
                            old(self).entries@[i].holding.average_price as int,
                            amount as int,
                            unit_price as int,
                        ) as u128,
                    },
                }),
    {
        let ghost prev = self.entries@;
        proof {
            self.lemma_held(owner@, symbol@);
        }
        match self.find(owner, symbol) {
            Some(i) => {
                let old_amount = self.entries[i].holding.amount;
                let old_price = self.entries[i].holding.average_price;
                proof {
                    assert(old_amount as int * old_price as int <= MAX_SUPPLY as int * MAX_PRICE as int) by (nonlinear_arith)
                        requires 0 <= old_amount <= MAX_SUPPLY, 0 <= old_price <= MAX_PRICE;
                    assert(amount as int * unit_price as int <= MAX_SUPPLY as int * MAX_PRICE as int) by (nonlinear_arith)
                        requires 0 <= amount <= MAX_SUPPLY, 0 <= unit_price <= MAX_PRICE;
                    lemma_weighted_average_bounded(old_amount as int, old_price as int, amount as int, unit_price as int, MAX_PRICE as int);
                }
                let value = old_amount as u128 * old_price + amount as u128 * unit_price;
                let new_amount = old_amount + amount;
                let new_price = value / new_amount as u128;
                let e = LedgerEntry {
                    owner: self.entries[i].owner.clone(),
                    holding: TokenHolding {
                        token_symbol: self.entries[i].holding.token_symbol.clone(),
                        amount: new_amount,
                        acquired_at: self.entries[i].holding.acquired_at,
                        average_price: new_price,
                    },
                };
                self.entries.set(i, e);
                proof {
                    assert(self.entries@ == prev.update(i as int, e));
                    assert forall|o: Seq<char>, s: Seq<char>| #[trigger] self.held(o, s)
                        == sum_where(prev, keyed(o, s)) + (if o == owner@ && s == symbol@ { amount as int } else { 0 }) by {
                        lemma_sum_update(prev, i as int, e, keyed(o, s));
                    }
                    assert forall|s: Seq<char>| #[trigger] self.total(s) == total_held(prev, s) + (if s == symbol@ { amount as int } else { 0 }) by {
                        lemma_sum_update(prev, i as int, e, of_symbol(s));
                    }
                    assert forall|a: int, b: int|
                        0 <= a < self.entries@.len() && 0 <= b < self.entries@.len() && a != b
                        implies !entry_is(self.entries@[a], self.entries@[b].owner@, self.entries@[b].holding.token_symbol@) by {
                        assert(!entry_is(prev[a], prev[b].owner@, prev[b].holding.token_symbol@));
                    }
                }
                false
            },
            None => {
                let e = LedgerEntry {
                    owner: owner.clone(),
                    holding: TokenHolding { token_symbol: symbol.clone(), amount, acquired_at: now_secs, average_price: unit_price },
                };
                self.entries.push(e);
                proof {
                    assert forall|o: Seq<char>, s: Seq<char>| #[trigger] self.held(o, s)
                        == sum_where(prev, keyed(o, s)) + (if o == owner@ && s == symbol@ { amount as int } else { 0 }) by {
                        lemma_sum_push(prev, e, keyed(o, s));
                    }
                    assert forall|s: Seq<char>| #[trigger] self.total(s) == total_held(prev, s) + (if s == symbol@ { amount as int } else { 0 }) by {
                        lemma_sum_push(prev, e, of_symbol(s));
                    }
                    assert forall|a: int, b: int|
                        0 <= a < self.entries@.len() && 0 <= b < self.entries@.len() && a != b
                        implies !entry_is(self.entries@[a], self.entries@[b].owner@, self.entries@[b].holding.token_symbol@) by {
                        if a < prev.len() && b < prev.len() {
                            assert(!entry_is(prev[a], prev[b].owner@, prev[b].holding.token_symbol@));
                        } else if a < prev.len() {
                            assert(!entry_is(prev[a], owner@, symbol@));
                        } else {
                            assert(!entry_is(prev[b], owner@, symbol@));
                        }
                    }
                }
                true
            },
        }
    }

    /// Takes `amount` of `symbol` from `owner`; the holding is removed when
    /// nothing remains of it. Fails with `InsufficientHoldings`, changing
    /// nothing, when `owner` has no such holding or holds less than `amount`.
    pub fn debit(&mut self, owner: &String, symbol: &String, amount: u64) -> (r: Result<(), EngineError>)
        requires
            old(self).wf(),
        ensures
            final(self).wf(),
            r is Err <==> (!old(self).holds(owner@, symbol@) || old(self).held(owner@, symbol@) < amount),
            r is Err ==> r == Err::<(), EngineError>(EngineError::InsufficientHoldings {
                held: old(self).held(owner@, symbol@) as u64,
                requested: amount,
            }) && *final(self) == *old(self),
            r is Ok ==> debited(old(self).entries@, final(self).entries@, owner@, symbol@, amount),
            r is Ok ==> forall|o: Seq<char>, s: Seq<char>| #[trigger] final(self).held(o, s)
                == old(self).held(o, s) - (if o == owner@ && s == symbol@ { amount as int } else { 0 }),
            r is Ok ==> forall|s: Seq<char>| #[trigger] final(self).total(s)
                == old(self).total(s) - (if s == symbol@ { amount as int } else { 0 }),
    {
        let ghost prev = self.entries@;
        proof {
            self.lemma_held(owner@, symbol@);
        }
        let i = match self.find(owner, symbol) {
            None => {
                return Err(EngineError::InsufficientHoldings { held: 0, requested: amount });
            },
            Some(i) => i,
        };
        let held = self.entries[i].holding.amount;
        if held < amount {
            return Err(EngineError::InsufficientHoldings { held, requested: amount });
        }
        if held == amount {
            self.entries.remove(i);
            proof {
                assert forall|o: Seq<char>, s: Seq<char>| #[trigger] self.held(o, s)
                    == sum_where(prev, keyed(o, s)) - (if o == owner@ && s == symbol@ { amount as int } else { 0 }) by {
                    lemma_sum_remove(prev, i as int, keyed(o, s));
                }
                assert forall|s: Seq<char>| #[trigger] self.total(s) == total_held(prev, s) - (if s == symbol@ { amount as int } else { 0 }) by {
                    lemma_sum_remove(prev, i as int, of_symbol(s));
                }
                assert forall|a: int, b: int|
                    0 <= a < self.entries@.len() && 0 <= b < self.entries@.len() && a != b
                    implies !entry_is(self.entries@[a], self.entries@[b].owner@, self.entries@[b].holding.token_symbol@) by {
                    let pa = if a < i { a } else { a + 1 };
                    let pb = if b < i { b } else { b + 1 };
                    assert(self.entries@[a] == prev[pa]);
                    assert(self.entries@[b] == prev[pb]);
                    assert(!entry_is(prev[pa], prev[pb].owner@, prev[pb].holding.token_symbol@));
                }
                assert forall|k: int| 0 <= k < self.entries@.len() implies 0 < self.entries@[k].holding.amount <= MAX_SUPPLY
                    && self.entries@[k].holding.average_price <= MAX_PRICE by {
                    let pk = if k < i { k } else { k + 1 };
                    assert(self.entries@[k] == prev[pk]);
                }
            }
        } else {
            let e = LedgerEntry {
                owner: self.entries[i].owner.clone(),
                holding: TokenHolding {
                    token_symbol: self.entries[i].holding.token_symbol.clone(),
                    amount: held - amount,
                    acquired_at: self.entries[i].holding.acquired_at,
                    average_price: self.entries[i].holding.average_price,
                },
            };
            self.entries.set(i, e);
            proof {
                assert(self.entries@ == prev.update(i as int, e));
                assert forall|o: Seq<char>, s: Seq<char>| #[trigger] self.held(o, s)
                    == sum_where(prev, keyed(o, s)) - (if o == owner@ && s == symbol@ { amount as int } else { 0 }) by {
                    lemma_sum_update(prev, i as int, e, keyed(o, s));
                }
                assert forall|s: Seq<char>| #[trigger] self.total(s) == total_held(prev, s) - (if s == symbol@ { amount as int } else { 0 }) by {
                    lemma_sum_update(prev, i as int, e, of_symbol(s));
                }
                assert forall|a: int, b: int|
                    0 <= a < self.entries@.len() && 0 <= b < self.entries@.len() && a != b
                    implies !entry_is(self.entries@[a], self.entries@[b].owner@, self.entries@[b].holding.token_symbol@) by {
                    assert(!entry_is(prev[a], prev[b].owner@, prev[b].holding.token_symbol@));
                }
            }
        }
        Ok(())
    }
}

} // verus!
