//! The inventory: for each currency, the lots acquired so far.
use crate::decimal::Dec;
use vstd::prelude::*;

verus! {

/// One acquired lot of a currency.
#[derive(Clone, Debug, PartialEq)]
pub struct CurrencyHolding {
    /// Quantity held.
    pub amount: Dec,
    /// Fiat value of one unit when the lot was acquired (the cost-basis rate).
    pub rate_in_fiat: Dec,
    /// Acquisition time.
    pub date: u64,
    /// Where the lot was acquired; empty when unknown.
    pub location: String,
}

impl CurrencyHolding {
    pub open spec fn wf(self) -> bool {
        self.amount.wf() && self.rate_in_fiat.wf()
    }
}

/// The lots of one currency, in insertion order.
#[derive(Clone, Debug, PartialEq)]
pub struct CurrencyLots {
    pub currency: String,
    pub lots: Vec<CurrencyHolding>,
}

/// Every lot of `lots` is well formed.
pub open spec fn lots_wf(lots: Seq<CurrencyHolding>) -> bool {
    forall|i: int| 0 <= i < lots.len() ==> (#[trigger] lots[i]).wf()
}

/// Currency codes are unique and every lot is well formed.
pub open spec fn entries_wf(e: Seq<CurrencyLots>) -> bool {
    &&& forall|i: int, j: int|
        0 <= i < j < e.len() ==> (#[trigger] e[i]).currency@ != (#[trigger] e[j]).currency@
    &&& forall|i: int| 0 <= i < e.len() ==> lots_wf((#[trigger] e[i]).lots@)
}

/// `e` has an entry for `c`.
pub open spec fn has_entry(e: Seq<CurrencyLots>, c: Seq<char>) -> bool {
    exists|i: int| 0 <= i < e.len() && (#[trigger] e[i]).currency@ == c
}

/// The lots `e` holds of `c`; empty when there is no entry for it.
pub open spec fn lots_in(e: Seq<CurrencyLots>, c: Seq<char>) -> Seq<CurrencyHolding> {
    if has_entry(e, c) {
        let i = choose|i: int| 0 <= i < e.len() && (#[trigger] e[i]).currency@ == c;
        e[i].lots@
    } else {
        Seq::empty()
    }
}

pub proof fn lemma_lots_at(e: Seq<CurrencyLots>, i: int)
    requires
        entries_wf(e),
        0 <= i < e.len(),
    ensures
        has_entry(e, e[i].currency@),
        lots_in(e, e[i].currency@) == e[i].lots@,
{
    let c = e[i].currency@;
    assert(has_entry(e, c));
    let j = choose|j: int| 0 <= j < e.len() && (#[trigger] e[j]).currency@ == c;
    if j != i {
        if i < j {
            assert(e[i].currency@ != e[j].currency@);
        } else {
            assert(e[j].currency@ != e[i].currency@);
        }
    }
}

pub proof fn lemma_lots_in_wf(e: Seq<CurrencyLots>, c: Seq<char>)
    requires
        entries_wf(e),
    ensures
        lots_wf(lots_in(e, c)),
{
    if has_entry(e, c) {
        let i = choose|i: int| 0 <= i < e.len() && (#[trigger] e[i]).currency@ == c;
        lemma_lots_at(e, i);
    }
}

/// Replacing the entry at `i` by one of the same currency changes only that currency's lots.
pub proof fn lemma_update_entry(e: Seq<CurrencyLots>, i: int, x: CurrencyLots)
    requires
        entries_wf(e),
        0 <= i < e.len(),
        x.currency@ == e[i].currency@,
        lots_wf(x.lots@),
    ensures
        entries_wf(e.update(i, x)),
        lots_in(e.update(i, x), x.currency@) == x.lots@,
        forall|c: Seq<char>| c != x.currency@ ==> lots_in(e.update(i, x), c) == lots_in(e, c),
        forall|c: Seq<char>| has_entry(e.update(i, x), c) == has_entry(e, c),
{
    let u = e.update(i, x);
    assert forall|c: Seq<char>| has_entry(u, c) == has_entry(e, c) by {
        if has_entry(u, c) {
            let j = choose|j: int| 0 <= j < u.len() && (#[trigger] u[j]).currency@ == c;
            assert(e[j].currency@ == c);
        }
        if has_entry(e, c) {
            let j = choose|j: int| 0 <= j < e.len() && (#[trigger] e[j]).currency@ == c;
            assert(u[j].currency@ == c);
        }
    }
    lemma_lots_at(u, i);
    assert forall|c: Seq<char>| c != x.currency@ implies lots_in(u, c) == lots_in(e, c) by {
        if has_entry(e, c) {
            let j = choose|j: int| 0 <= j < e.len() && (#[trigger] e[j]).currency@ == c;
            lemma_lots_at(e, j);
            assert(u[j] == e[j]);
            lemma_lots_at(u, j);
        }
    }
}

/// Appending an entry for a new currency adds that currency and changes nothing else.
pub proof fn lemma_push_entry(e: Seq<CurrencyLots>, x: CurrencyLots)
    requires
        entries_wf(e),
        !has_entry(e, x.currency@),
        lots_wf(x.lots@),
    ensures
        entries_wf(e.push(x)),
        lots_in(e.push(x), x.currency@) == x.lots@,
        forall|c: Seq<char>| c != x.currency@ ==> lots_in(e.push(x), c) == lots_in(e, c),
        forall|c: Seq<char>| has_entry(e.push(x), c) == (has_entry(e, c) || c == x.currency@),
{
    let u = e.push(x);
    assert forall|i: int, j: int| 0 <= i < j < u.len() implies (#[trigger] u[i]).currency@ != (
    #[trigger] u[j]).currency@ by {
        if j == e.len() {
            assert(u[i] == e[i]);
        } else {
            assert(u[i] == e[i] && u[j] == e[j]);
        }
    }
    assert forall|i: int| 0 <= i < u.len() implies lots_wf((#[trigger] u[i]).lots@) by {
        if i < e.len() {
            assert(u[i] == e[i]);
        }
    }
    assert forall|c: Seq<char>| has_entry(u, c) == (has_entry(e, c) || c == x.currency@) by {
        if has_entry(u, c) && c != x.currency@ {
            let j = choose|j: int| 0 <= j < u.len() && (#[trigger] u[j]).currency@ == c;
            assert(e[j].currency@ == c);
        }
        if has_entry(e, c) {
            let j = choose|j: int| 0 <= j < e.len() && (#[trigger] e[j]).currency@ == c;
            assert(u[j].currency@ == c);
        }
        if c == x.currency@ {
            assert(u[e.len() as int].currency@ == c);
        }
    }
    lemma_lots_at(u, e.len() as int);
    assert forall|c: Seq<char>| c != x.currency@ implies lots_in(u, c) == lots_in(e, c) by {
        if has_entry(e, c) {
            let j = choose|j: int| 0 <= j < e.len() && (#[trigger] e[j]).currency@ == c;
            lemma_lots_at(e, j);
            assert(u[j] == e[j]);
            lemma_lots_at(u, j);
        }
    }
}

/// The lots that the inventory view `m` holds of `c`; empty when it has no entry for it.
pub open spec fn lots_at(m: Map<Seq<char>, Seq<CurrencyHolding>>, c: Seq<char>) -> Seq<
    CurrencyHolding,
> {
    if m.contains_key(c) {
        m[c]
    } else {
        Seq::empty()
    }
}

/// The inventory view `m` with the lots of `c` replaced by `lots` when it has an entry for `c`.
pub open spec fn replace_lots(
    m: Map<Seq<char>, Seq<CurrencyHolding>>,
    c: Seq<char>,
    lots: Seq<CurrencyHolding>,
) -> Map<Seq<char>, Seq<CurrencyHolding>> {
    if m.contains_key(c) {
        m.insert(c, lots)
    } else {
        m
    }
}

/// The inventory: one entry per currency code, each code at most once.
#[derive(Clone, Debug, PartialEq)]
pub struct Holdings(pub Vec<CurrencyLots>);

impl Holdings {
    pub open spec fn wf(self) -> bool {
        entries_wf(self.0@)
    }

    /// The inventory has an entry for `c`.
    pub open spec fn has(self, c: Seq<char>) -> bool {
        has_entry(self.0@, c)
    }

    /// The lots held of `c`; empty when there is no entry for it.
    pub open spec fn lots_of(self, c: Seq<char>) -> Seq<CurrencyHolding> {
        lots_in(self.0@, c)
    }

    /// The currency codes with an entry.
    pub open spec fn currency_set(self) -> Set<Seq<char>> {
        Set::new(|c: Seq<char>| self.has(c))
    }

    /// The inventory as a map from currency code to its lots.
    pub open spec fn view(self) -> Map<Seq<char>, Seq<CurrencyHolding>> {
        Map::new(|c: Seq<char>| self.has(c), |c: Seq<char>| self.lots_of(c))
    }

    pub proof fn lemma_lots_at_view(self, c: Seq<char>)
        ensures
            self.lots_of(c) == lots_at(self@, c),
    {
    }

    /// An empty inventory.
    pub fn new() -> (r: Holdings)
        ensures
            r.wf(),
            forall|c: Seq<char>| !r.has(c),
    {
        Holdings(Vec::new())
    }

    /// Index of the entry for `currency`, if there is one.
    pub fn find(&self, currency: &String) -> (r: Option<usize>)
        requires
            self.wf(),
        ensures
            r.is_some() == self.has(currency@),
            r.is_some() ==> r.unwrap() < self.0@.len() && self.0@[r.unwrap() as int].currency@
                == currency@,
    {
        let mut i: usize = 0;
        while i < self.0.len()
            invariant
                i <= self.0@.len(),
                forall|j: int| 0 <= j < i ==> (#[trigger] self.0@[j]).currency@ != currency@,
            decreases self.0@.len() - i,
        {
            if self.0[i].currency == *currency {
                return Some(i);
            }
            i = i + 1;
        }
        None
    }

    /// The lots held of `currency`, if it has an entry.
    pub fn get(&self, currency: &String) -> (r: Option<&Vec<CurrencyHolding>>)
        requires
            self.wf(),
        ensures
            r.is_some() == self.has(currency@),
            r.is_some() ==> r.unwrap()@ == self.lots_of(currency@),
    {
        match self.find(currency) {
            Some(i) => {
                proof {
                    lemma_lots_at(self.0@, i as int);
                }
                Some(&self.0[i].lots)
            },
            None => None,
        }
    }

    /// The currency codes with an entry, in entry order.
    pub fn currencies(&self) -> (r: Vec<String>)
        ensures
            r@.len() == self.0@.len(),
            forall|i: int| 0 <= i < r@.len() ==> (#[trigger] r@[i])@ == self.0@[i].currency@,
    {
        let mut r: Vec<String> = Vec::new();
        let mut i: usize = 0;
        while i < self.0.len()
            invariant
                i <= self.0@.len(),
                r@.len() == i,
                forall|j: int| 0 <= j < i ==> (#[trigger] r@[j])@ == self.0@[j].currency@,
            decreases self.0@.len() - i,
        {
            r.push(self.0[i].currency.clone());
            i = i + 1;
        }
        r
    }

    /// Appends a lot of `currency`, creating its entry when there is none.
    pub fn add_to_currency_holdings(
        self,
        currency: String,
        amount: Dec,
        fiat_rate: Dec,
        date: u64,
        location: Option<String>,
    ) -> (r: Holdings)
        requires
            self.wf(),
            amount.wf(),
            fiat_rate.wf(),
        ensures
            r.wf(),
            r.lots_of(currency@).len() == self.lots_of(currency@).len() + 1,
            r.lots_of(currency@).drop_last() == self.lots_of(currency@),
            is_new_lot(r.lots_of(currency@).last(), amount, fiat_rate, date, location),
            forall|c: Seq<char>| c != currency@ ==> r.lots_of(c) == self.lots_of(c),
            r.currency_set() == self.currency_set().insert(currency@),
            r@ == self@.insert(currency@, self.lots_of(currency@).push(r.lots_of(currency@).last())),
    {
        let lot = CurrencyHolding {
            amount,
            rate_in_fiat: fiat_rate,
            date,
            location: match location {
                Some(l) => l,
                None => String::new(),
            },
        };
        let mut holdings = self;
        match holdings.find(&currency) {
            Some(i) => {
                let ghost before = holdings.0@;
                proof {
                    lemma_lots_at(before, i as int);
                }
                let mut entry = holdings.0.remove(i);
                entry.lots.push(lot);
                holdings.0.insert(i, entry);
                proof {
                    assert(holdings.0@ =~= before.update(i as int, entry));
                    assert(lots_wf(entry.lots@)) by {
                        assert(lots_wf(before[i as int].lots@));
                        assert(entry.lots@ == before[i as int].lots@.push(lot));
                    }
                    lemma_update_entry(before, i as int, entry);
                    assert(entry.lots@.drop_last() =~= before[i as int].lots@);
                    assert(holdings.currency_set() =~= entry_codes(before).insert(currency@));
                }
            },
            None => {
                let ghost before = holdings.0@;
                let mut lots: Vec<CurrencyHolding> = Vec::new();
                lots.push(lot);
                let ghost x = CurrencyLots { currency, lots };
                holdings.0.push(CurrencyLots { currency, lots });
                proof {
                    assert(lots_wf(x.lots@));
                    lemma_push_entry(before, x);
                    assert(holdings.0@ == before.push(x));
                    assert(x.lots@.drop_last() =~= Seq::<CurrencyHolding>::empty());
                    assert(holdings.currency_set() =~= entry_codes(before).insert(currency@));
                }
            },
        }
        proof {
            let m = self@.insert(currency@, self.lots_of(currency@).push(holdings.lots_of(currency@).last()));
            assert(holdings.lots_of(currency@) =~= self.lots_of(currency@).push(holdings.lots_of(currency@).last()));
            assert forall|c: Seq<char>| holdings.has(c) == m.contains_key(c) by {
                assert(holdings.currency_set().contains(c) == entry_codes(self.0@).insert(currency@).contains(c));
            }
            assert(holdings@ =~= m);
        }
        holdings
    }
}

/// Appends a lot of `currency` to `old_holdings`, creating its entry when there is none;
/// the same as [`Holdings::add_to_currency_holdings`].
pub fn add_to_holdings(
    old_holdings: Holdings,
    currency: String,
    amount: Dec,
    fiat_rate: Dec,
    date: u64,
    location: Option<String>,
) -> (r: Holdings)
    requires
        old_holdings.wf(),
        amount.wf(),
        fiat_rate.wf(),
    ensures
        r.wf(),
        r.lots_of(currency@).len() == old_holdings.lots_of(currency@).len() + 1,
        r.lots_of(currency@).drop_last() == old_holdings.lots_of(currency@),
        is_new_lot(r.lots_of(currency@).last(), amount, fiat_rate, date, location),
        forall|c: Seq<char>| c != currency@ ==> r.lots_of(c) == old_holdings.lots_of(c),
        r.currency_set() == old_holdings.currency_set().insert(currency@),
{
    old_holdings.add_to_currency_holdings(currency, amount, fiat_rate, date, location)
}

/// The currency codes with an entry in `e`.
pub open spec fn entry_codes(e: Seq<CurrencyLots>) -> Set<Seq<char>> {
    Set::new(|c: Seq<char>| has_entry(e, c))
}

/// `h` is the lot that `add_to_currency_holdings` builds from its arguments.
pub open spec fn is_new_lot(
    h: CurrencyHolding,
    amount: Dec,
    fiat_rate: Dec,
    date: u64,
    location: Option<String>,
) -> bool {
    &&& h.amount == amount
    &&& h.rate_in_fiat == fiat_rate
    &&& h.date == date
    &&& match location {
        Some(l) => h.location == l,
        None => h.location@ == Seq::<char>::empty(),
    }
}

} // verus!
