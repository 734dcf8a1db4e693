//! The disposal engine: consuming lots until a sale is covered.
use crate::decimal::{
    aligned_exact, checked_sub, decimal_difference, fits_at, lemma_exact_at, less_than,
    ArithmeticError, Dec,
};
use crate::holding::{
    entries_wf, has_entry, lemma_lots_at, lemma_lots_in_wf, lemma_update_entry, lots_wf,
    replace_lots, CurrencyHolding, CurrencyLots, Holdings,
};
use crate::method::Method;
use crate::selection::{get_currency_holding, prefers, selected};
use crate::trade::Trade;
use vstd::prelude::*;

verus! {

/// The lots consumed by a sale and the inventory left afterwards.
#[derive(Clone, Debug, PartialEq)]
pub struct HoldingSelection {
    pub deducted_holdings: Vec<CurrencyHolding>,
    pub new_holdings: Holdings,
}

pub proof fn lemma_selected_unique(method: Method, at: u64, lots: Seq<CurrencyHolding>, i: int, j: int)
    requires
        selected(method, at, lots, i),
        selected(method, at, lots, j),
    ensures
        i == j,
{
    if method != Method::FIFO && method != Method::LIFO {
        if i < j {
            assert(prefers(method, at, lots[j], lots[i]));
        } else if j < i {
            assert(prefers(method, at, lots[i], lots[j]));
        }
    }
}

/// The index that `method` selects among the non-empty `lots` for a sale at `at`.
pub open spec fn pick(method: Method, at: u64, lots: Seq<CurrencyHolding>) -> int {
    choose|i: int| selected(method, at, lots, i)
}

/// The fragment that covers a sale beyond the known inventory: at par when fiat itself is
/// sold, at zero cost otherwise, dated at the trade.
pub open spec fn uncovered_fragment(amount: Dec, trade: Trade, fiat_currency: Seq<char>) -> CurrencyHolding {
    CurrencyHolding {
        amount,
        rate_in_fiat: if trade.sold_currency@ == fiat_currency {
            Dec { mantissa: 1, scale: 0 }
        } else {
            Dec { mantissa: 0, scale: 0 }
        },
        date: trade.date,
        location: trade.exchange,
    }
}

/// Consuming `lots` to cover `remaining` of `trade`'s sale: the fragments consumed, in
/// order, and the lots left; `None` when a subtraction overflows.
///
/// While something remains, the selected lot is consumed: when it is larger than what
/// remains it shrinks by that much and the sale is covered; otherwise it leaves the list
/// whole. When no lot is left, one fragment at the uncovered rate covers the rest.
pub open spec fn dispose(
    lots: Seq<CurrencyHolding>,
    remaining: Dec,
    trade: Trade,
    fiat_currency: Seq<char>,
    method: Method,
) -> Option<(Seq<CurrencyHolding>, Seq<CurrencyHolding>)>
    decreases lots.len(),
{
    if remaining.mantissa == 0 {
        Some((Seq::empty(), lots))
    } else if lots.len() == 0 {
        Some((seq![uncovered_fragment(remaining, trade, fiat_currency)], lots))
    } else {
        let k = pick(method, trade.date, lots);
        let lot = lots[k];
        if remaining.units() < lot.amount.units() {
            match decimal_difference(lot.amount, remaining) {
                None => None,
                Some(left) => Some(
                    (
                        seq![CurrencyHolding { amount: remaining, ..lot }],
                        lots.update(k, CurrencyHolding { amount: left, ..lot }),
                    ),
                ),
            }
        } else {
            match decimal_difference(remaining, lot.amount) {
                None => None,
                Some(rest) => {
                    if 0 <= k < lots.len() {
                        match dispose(lots.remove(k), rest, trade, fiat_currency, method) {
                            None => None,
                            Some((f, l)) => Some((seq![lot] + f, l)),
                        }
                    } else {
                        None
                    }
                },
            }
        }
    }
}

/// `done` followed by the fragments of `rest`, with `rest`'s remaining lots.
pub open spec fn after(
    done: Seq<CurrencyHolding>,
    rest: Option<(Seq<CurrencyHolding>, Seq<CurrencyHolding>)>,
) -> Option<(Seq<CurrencyHolding>, Seq<CurrencyHolding>)> {
    match rest {
        None => None,
        Some((f, l)) => Some((done + f, l)),
    }
}

/// What remains of `amount_used` after consuming `holding`, and the fragment consumed.
struct CheckCurrencyHoldingAmount {
    amount_remaining: Dec,
    deducted_currency_holding: CurrencyHolding,
}

/// Consumes `holding` whole towards `amount_used`, which is at least its amount.
fn check_currency_holding_amount(amount_used: Dec, holding: CurrencyHolding) -> (r: Option<
    CheckCurrencyHoldingAmount,
>)
    requires
        amount_used.wf(),
        holding.wf(),
    ensures
        r.is_some() == decimal_difference(amount_used, holding.amount).is_some(),
        r.is_some() ==> r.unwrap().amount_remaining == decimal_difference(
            amount_used,
            holding.amount,
        ).unwrap() && r.unwrap().deducted_currency_holding == holding
            && r.unwrap().amount_remaining.wf(),
        aligned_exact(amount_used, holding.amount, amount_used.units() - holding.amount.units())
            ==> r.is_some() && r.unwrap().amount_remaining.units() == amount_used.units()
            - holding.amount.units() && (r.unwrap().amount_remaining.scale <= amount_used.scale
            || r.unwrap().amount_remaining.scale <= holding.amount.scale),
{
    match checked_sub(amount_used, holding.amount) {
        Some(rest) => Some(
            CheckCurrencyHoldingAmount { amount_remaining: rest, deducted_currency_holding: holding },
        ),
        None => None,
    }
}

/// One round of the disposal loop: consumes from the selected lot, or covers the rest
/// beyond the inventory. Returns what remains to cover; `None` when a subtraction overflows.
fn dispose_step(
    lots: &mut Vec<CurrencyHolding>,
    deducted: &mut Vec<CurrencyHolding>,
    remaining: Dec,
    trade: &Trade,
    fiat_currency: &String,
    method: Method,
) -> (r: Option<Dec>)
    requires
        lots_wf(old(lots)@),
        lots_wf(old(deducted)@),
        remaining.wf(),
        remaining.mantissa != 0,
    ensures
        r.is_none() ==> dispose(old(lots)@, remaining, *trade, fiat_currency@, method).is_none()
            && final(deducted)@ == old(deducted)@,
        r.is_some() ==> {
            &&& lots_wf(final(lots)@)
            &&& lots_wf(final(deducted)@)
            &&& r.unwrap().wf()
            &&& after(old(deducted)@, dispose(old(lots)@, remaining, *trade, fiat_currency@, method))
                == after(
                final(deducted)@,
                dispose(final(lots)@, r.unwrap(), *trade, fiat_currency@, method),
            )
            &&& final(lots)@.len() + (if r.unwrap().mantissa != 0 {
                1int
            } else {
                0int
            }) < old(lots)@.len() + 1
        },
        forall|s: nat| #[trigger]
            amounts_fit(old(lots)@, remaining, s) ==> step_exact(
                old(lots)@,
                old(deducted)@,
                remaining,
                final(lots)@,
                final(deducted)@,
                r,
                s,
            ),
{
    let ghost d0 = deducted@;
    let ghost l0 = lots@;
    let ghost r0 = remaining;
    if lots.len() == 0 {
        let fragment = CurrencyHolding {
            amount: remaining,
            rate_in_fiat: if trade.sold_currency == *fiat_currency {
                Dec { mantissa: 1, scale: 0 }
            } else {
                Dec { mantissa: 0, scale: 0 }
            },
            date: trade.date,
            location: trade.exchange.clone(),
        };
        deducted.push(fragment);
        proof {
            assert(fragment == uncovered_fragment(r0, *trade, fiat_currency@));
            assert(deducted@ =~= d0 + seq![fragment]);
            assert(deducted@ + Seq::<CurrencyHolding>::empty() =~= deducted@);
            lemma_total_push(d0, fragment);
        }
        let zero = Dec::zero();
        proof {
            assert forall|s: nat| #[trigger] amounts_fit(l0, r0, s) implies step_exact(
                l0,
                d0,
                r0,
                lots@,
                deducted@,
                Some(zero),
                s,
            ) by {
                assert(lots@ =~= Seq::<CurrencyHolding>::empty());
            }
        }
        return Some(zero);
    }
    let k = get_currency_holding(&lots, method, trade);
    proof {
        lemma_selected_unique(method, trade.date, lots@, k as int, pick(method, trade.date, lots@));
    }
    if less_than(remaining, lots[k].amount) {
        let lot = lots.remove(k);
        let ghost lot_g = lot;
        let left = match checked_sub(lot.amount, remaining) {
            Some(v) => v,
            None => {
                proof {
                    assert forall|s: nat| !amounts_fit(l0, r0, s) by {
                        if amounts_fit(l0, r0, s) {
                            lemma_exact_at(lot_g.amount, r0, lot_g.amount.units() - r0.units(), s);
                        }
                    }
                }
                return None;
            },
        };
        let fragment = CurrencyHolding {
            amount: remaining,
            rate_in_fiat: lot.rate_in_fiat,
            date: lot.date,
            location: lot.location.clone(),
        };
        lots.insert(k, CurrencyHolding { amount: left, ..lot });
        deducted.push(fragment);
        proof {
            assert(lot_g == l0[k as int]);
            assert(lots@ =~= l0.update(k as int, CurrencyHolding { amount: left, ..lot_g }));
            assert(fragment == CurrencyHolding { amount: r0, ..lot_g });
            assert(deducted@ =~= d0 + seq![fragment]);
            assert(deducted@ + Seq::<CurrencyHolding>::empty() =~= deducted@);
            assert forall|i: int| 0 <= i < lots@.len() implies (#[trigger] lots@[i]).wf() by {
                if i != k {
                    assert(lots@[i] == l0[i]);
                }
            }
            lemma_total_push(d0, fragment);
            lemma_total_update(l0, k as int, CurrencyHolding { amount: left, ..lot_g });
        }
        let zero = Dec::zero();
        proof {
            assert forall|s: nat| #[trigger] amounts_fit(l0, r0, s) implies step_exact(
                l0,
                d0,
                r0,
                lots@,
                deducted@,
                Some(zero),
                s,
            ) by {
                lemma_exact_at(lot_g.amount, r0, lot_g.amount.units() - r0.units(), s);
                assert forall|i: int| 0 <= i < lots@.len() implies lot_fits(
                    #[trigger] lots@[i],
                    zero,
                    s,
                ) by {
                    if i != k {
                        assert(lots@[i] == l0[i]);
                        assert(lot_fits(l0[i], r0, s));
                    }
                }
            }
        }
        Some(zero)
    } else {
        let lot = lots.remove(k);
        let ghost lot_g = lot;
        let checked = match check_currency_holding_amount(remaining, lot) {
            Some(c) => c,
            None => {
                proof {
                    assert forall|s: nat| !amounts_fit(l0, r0, s) by {
                        if amounts_fit(l0, r0, s) {
                            assert(lot_fits(l0[k as int], r0, s));
                            lemma_exact_at(r0, lot_g.amount, r0.units() - lot_g.amount.units(), s);
                        }
                    }
                }
                return None;
            },
        };
        deducted.push(checked.deducted_currency_holding);
        proof {
            assert(lot_g == l0[k as int]);
            assert(lots@ == l0.remove(k as int));
            assert(deducted@ =~= d0 + seq![lot_g]);
            match dispose(lots@, checked.amount_remaining, *trade, fiat_currency@, method) {
                Some((f, l)) => {
                    assert(d0 + (seq![lot_g] + f) =~= deducted@ + f);
                },
                None => {},
            }
            assert forall|i: int| 0 <= i < lots@.len() implies (#[trigger] lots@[i]).wf() by {
                if i < k {
                    assert(lots@[i] == l0[i]);
                } else {
                    assert(lots@[i] == l0[i + 1]);
                }
            }
            lemma_total_push(d0, lot_g);
            lemma_total_remove(l0, k as int);
            let rest = checked.amount_remaining;
            assert forall|s: nat| #[trigger] amounts_fit(l0, r0, s) implies step_exact(
                l0,
                d0,
                r0,
                lots@,
                deducted@,
                Some(rest),
                s,
            ) by {
                assert(lot_fits(l0[k as int], r0, s));
                lemma_exact_at(r0, lot_g.amount, r0.units() - lot_g.amount.units(), s);
                assert forall|i: int| 0 <= i < lots@.len() implies lot_fits(
                    #[trigger] lots@[i],
                    rest,
                    s,
                ) by {
                    if i < k {
                        assert(lots@[i] == l0[i]);
                        assert(lot_fits(l0[i], r0, s));
                    } else {
                        assert(lots@[i] == l0[i + 1]);
                        assert(lot_fits(l0[i + 1], r0, s));
                    }
                }
            }
        }
        Some(checked.amount_remaining)
    }
}

/// `s` is what the disposal of `trade` from `holdings` leaves: the fragments and the sold
/// currency's lots are those of [`dispose`], every other currency is untouched.
pub open spec fn disposed(
    holdings: Holdings,
    trade: Trade,
    fiat_currency: Seq<char>,
    method: Method,
    s: HoldingSelection,
) -> bool {
    let spec = dispose(
        holdings.lots_of(trade.sold_currency@),
        trade.amount_sold,
        trade,
        fiat_currency,
        method,
    ).unwrap();
    &&& s.new_holdings.wf()
    &&& lots_wf(s.deducted_holdings@)
    &&& s.deducted_holdings@ == spec.0
    &&& s.new_holdings.lots_of(trade.sold_currency@) == spec.1
    &&& forall|c: Seq<char>|
        c != trade.sold_currency@ ==> s.new_holdings.lots_of(c) == holdings.lots_of(c)
    &&& s.new_holdings.currency_set() == holdings.currency_set()
    &&& s.new_holdings@ == replace_lots(holdings@, trade.sold_currency@, spec.1)
}

/// Consumes the lots of `trade.sold_currency`, chosen by `method`, until `trade.amount_sold`
/// is covered; beyond the inventory, one fragment at par (selling fiat) or at zero cost
/// covers the rest. Returns the fragments consumed, in order, and the inventory left.
#[verifier::rlimit(40)]
pub fn holding_selection(
    holdings: Holdings,
    trade: &Trade,
    fiat_currency: &String,
    method: Method,
) -> (r: Result<HoldingSelection, ArithmeticError>)
    requires
        holdings.wf(),
        trade.amount_sold.wf(),
    ensures
        r.is_ok() == dispose(
            holdings.lots_of(trade.sold_currency@),
            trade.amount_sold,
            *trade,
            fiat_currency@,
            method,
        ).is_some(),
        r.is_err() ==> r == Err::<HoldingSelection, ArithmeticError>(ArithmeticError::Overflow),
        r.is_ok() ==> disposed(holdings, *trade, fiat_currency@, method, r.unwrap()),
        forall|s: nat| #[trigger]
            amounts_fit(holdings.lots_of(trade.sold_currency@), trade.amount_sold, s)
                ==> disposed_exactly(holdings, *trade, r),
{
    let mut inventory = holdings;
    let ghost before = inventory.0@;
    let ghost orig_lots = inventory.lots_of(trade.sold_currency@);
    let found = inventory.find(&trade.sold_currency);
    let mut lots: Vec<CurrencyHolding> = Vec::new();
    let mut currency = String::new();
    if let Some(i) = found {
        proof {
            lemma_lots_at(before, i as int);
        }
        let entry = inventory.0.remove(i);
        lots = entry.lots;
        currency = entry.currency;
    }
    proof {
        lemma_lots_in_wf(before, trade.sold_currency@);
    }
    let mut deducted: Vec<CurrencyHolding> = Vec::new();
    let mut remaining = trade.amount_sold;
    let ghost mut uncovered = false;
    proof {
        assert(lots@ == orig_lots);
        assert(deducted@ + Seq::<CurrencyHolding>::empty() =~= deducted@);
        assert(Seq::<CurrencyHolding>::empty() + lots@ =~= lots@);
        match dispose(lots@, remaining, *trade, fiat_currency@, method) {
            Some((f, l)) => {
                assert(Seq::<CurrencyHolding>::empty() + f =~= f);
            },
            None => {},
        }
    }
    while !remaining.is_zero()
        invariant
            lots_wf(lots@),
            lots_wf(deducted@),
            remaining.wf(),
            entries_wf(before),
            before == holdings.0@,
            orig_lots == holdings.lots_of(trade.sold_currency@),
            forall|s: nat| #[trigger]
                amounts_fit(orig_lots, trade.amount_sold, s) ==> progress_exact(
                    orig_lots,
                    trade.amount_sold,
                    lots@,
                    deducted@,
                    remaining,
                    uncovered,
                    s,
                ),
            found.is_some() ==> found.unwrap() < before.len() && inventory.0@ == before.remove(
                found.unwrap() as int,
            ) && currency@ == trade.sold_currency@ && before[found.unwrap() as int].currency@
                == trade.sold_currency@,
            found.is_none() ==> inventory.0@ == before && lots@.len() == 0,
            dispose(orig_lots, trade.amount_sold, *trade, fiat_currency@, method) == after(
                deducted@,
                dispose(lots@, remaining, *trade, fiat_currency@, method),
            ),
        decreases lots@.len() + if remaining.mantissa != 0 {
            1int
        } else {
            0int
        },
    {
        proof {
            remaining.lemma_units_sign();
        }
        let ghost l0 = lots@;
        let ghost d0 = deducted@;
        let ghost r0 = remaining;
        let ghost u0 = uncovered;
        match dispose_step(&mut lots, &mut deducted, remaining, trade, fiat_currency, method) {
            Some(rest) => {
                remaining = rest;
                proof {
                    if l0.len() == 0 {
                        uncovered = true;
                    }
                    assert forall|s: nat| #[trigger]
                        amounts_fit(orig_lots, trade.amount_sold, s) implies progress_exact(
                        orig_lots,
                        trade.amount_sold,
                        lots@,
                        deducted@,
                        remaining,
                        uncovered,
                        s,
                    ) by {
                        assert(progress_exact(orig_lots, trade.amount_sold, l0, d0, r0, u0, s));
                        assert(step_exact(l0, d0, r0, lots@, deducted@, Some(rest), s));
                        if l0.len() == 0 {
                            lemma_total_nonnegative(orig_lots, 0);
                        }
                    }
                }
            },
            None => {
                proof {
                    assert(after(d0, None) is None);
                    assert(dispose(l0, remaining, *trade, fiat_currency@, method) is None);
                    assert(dispose(orig_lots, trade.amount_sold, *trade, fiat_currency@, method) is None);
                }
                return Err(ArithmeticError::Overflow);
            },
        }
    }
    let ghost final_lots = lots@;
    proof {
        remaining.lemma_units_sign();
        assert forall|s: nat| #[trigger]
            amounts_fit(orig_lots, trade.amount_sold, s) implies final_exact(
            orig_lots,
            trade.amount_sold,
            final_lots,
            deducted@,
        ) by {
            assert(progress_exact(orig_lots, trade.amount_sold, final_lots, deducted@, remaining, uncovered, s));
            lemma_total_nonnegative(final_lots, 0);
        }
        assert(after(deducted@, Some((Seq::<CurrencyHolding>::empty(), final_lots))) == Some(
            (deducted@, final_lots),
        )) by {
            assert(deducted@ + Seq::<CurrencyHolding>::empty() =~= deducted@);
        }
    }
    if let Some(i) = found {
        let entry = CurrencyLots { currency, lots };
        inventory.0.insert(i, entry);
        proof {
            assert(inventory.0@ =~= before.update(i as int, entry));
            lemma_update_entry(before, i as int, entry);
            assert(inventory.currency_set() =~= holdings.currency_set());
        }
    } else {
        proof {
            assert(!has_entry(before, trade.sold_currency@));
            assert(inventory.0@ == holdings.0@);
        }
    }
    proof {
        let m = replace_lots(holdings@, trade.sold_currency@, final_lots);
        assert forall|c: Seq<char>| inventory.has(c) == holdings.has(c) by {
            assert(inventory.currency_set().contains(c) == inventory.has(c));
            assert(holdings.currency_set().contains(c) == holdings.has(c));
        }
        assert(inventory@ =~= m);
    }
    Ok(HoldingSelection { deducted_holdings: deducted, new_holdings: inventory })
}

} // verus!

verus! {

/// Sum of the amounts of `lots`, in units of 10^-28.
pub open spec fn total_units(lots: Seq<CurrencyHolding>) -> int
    decreases lots.len(),
{
    if lots.len() == 0 {
        0
    } else {
        total_units(lots.drop_last()) + lots.last().amount.units()
    }
}

pub proof fn lemma_total_remove(s: Seq<CurrencyHolding>, k: int)
    requires
        0 <= k < s.len(),
    ensures
        total_units(s.remove(k)) == total_units(s) - s[k].amount.units(),
    decreases s.len(),
{
    if k == s.len() - 1 {
        assert(s.remove(k) =~= s.drop_last());
    } else {
        lemma_total_remove(s.drop_last(), k);
        assert(s.remove(k).drop_last() =~= s.drop_last().remove(k));
    }
}

pub proof fn lemma_total_update(s: Seq<CurrencyHolding>, k: int, x: CurrencyHolding)
    requires
        0 <= k < s.len(),
    ensures
        total_units(s.update(k, x)) == total_units(s) - s[k].amount.units() + x.amount.units(),
    decreases s.len(),
{
    if k == s.len() - 1 {
        assert(s.update(k, x).drop_last() =~= s.drop_last());
    } else {
        lemma_total_update(s.drop_last(), k, x);
        assert(s.update(k, x).drop_last() =~= s.drop_last().update(k, x));
    }
}

pub proof fn lemma_total_nonnegative(s: Seq<CurrencyHolding>, k: int)
    requires
        forall|i: int| 0 <= i < s.len() ==> (#[trigger] s[i]).amount.units() >= 0,
    ensures
        total_units(s) >= 0,
        0 <= k < s.len() ==> total_units(s) >= s[k].amount.units(),
    decreases s.len(),
{
    if s.len() > 0 {
        lemma_total_nonnegative(s.drop_last(), k);
        assert(s.last() == s[s.len() - 1]);
        if 0 <= k < s.len() - 1 {
            assert(s.drop_last()[k] == s[k]);
        }
    }
}

/// The state of the disposal loop, on amounts that fit at `s`: the fragments so far cover
/// what is no longer remaining; the lots shrank by as much until none was left
/// (`uncovered`), which happens only when they held less than the amount sold.
pub open spec fn progress_exact(
    orig_lots: Seq<CurrencyHolding>,
    amount: Dec,
    lots: Seq<CurrencyHolding>,
    deducted: Seq<CurrencyHolding>,
    remaining: Dec,
    uncovered: bool,
    s: nat,
) -> bool {
    &&& amounts_fit(lots, remaining, s)
    &&& total_units(deducted) == amount.units() - remaining.units()
    &&& amount.units() >= 0 ==> remaining.units() >= 0
    &&& !uncovered ==> total_units(orig_lots) - total_units(lots) == amount.units()
        - remaining.units()
    &&& uncovered ==> remaining.units() == 0 && lots.len() == 0 && (amount.units() >= 0
        ==> total_units(orig_lots) < amount.units())
}

/// The fragments add up to `amount`; when it is not negative, the lots shrank by `amount`,
/// or by all they held when that was less.
pub open spec fn final_exact(
    orig_lots: Seq<CurrencyHolding>,
    amount: Dec,
    lots: Seq<CurrencyHolding>,
    deducted: Seq<CurrencyHolding>,
) -> bool {
    &&& total_units(deducted) == amount.units()
    &&& amount.units() >= 0 ==> total_units(orig_lots) - total_units(lots) == if amount.units()
        <= total_units(orig_lots) {
        amount.units()
    } else {
        total_units(orig_lots)
    }
}

/// The disposal of `trade` from `holdings` succeeded; its fragments add up exactly to the
/// amount sold and, when that is not negative, the sold currency's holdings shrank by it,
/// or by all they held when that was less.
pub open spec fn disposed_exactly(
    holdings: Holdings,
    trade: Trade,
    r: Result<HoldingSelection, ArithmeticError>,
) -> bool {
    &&& r.is_ok()
    &&& final_exact(
        holdings.lots_of(trade.sold_currency@),
        trade.amount_sold,
        r.unwrap().new_holdings.lots_of(trade.sold_currency@),
        r.unwrap().deducted_holdings@,
    )
}

/// `lot`'s amount is not negative and, with itself less `remaining`, fits at scale `s`.
pub open spec fn lot_fits(lot: CurrencyHolding, remaining: Dec, s: nat) -> bool {
    &&& lot.amount.scale <= s
    &&& lot.amount.units() >= 0
    &&& fits_at(lot.amount.units(), s)
    &&& fits_at(lot.amount.units() - remaining.units(), s)
}

/// The amounts fit in 96 bits at one common scale `s`, so that no subtraction of the
/// disposal rounds: `remaining`, every lot's amount, and each lot's amount less
/// `remaining`. Lot amounts are not negative.
pub open spec fn amounts_fit(lots: Seq<CurrencyHolding>, remaining: Dec, s: nat) -> bool {
    &&& s <= 28
    &&& remaining.wf()
    &&& remaining.scale <= s
    &&& fits_at(remaining.units(), s)
    &&& lots_wf(lots)
    &&& forall|i: int| 0 <= i < lots.len() ==> lot_fits(#[trigger] lots[i], remaining, s)
}

/// One round of disposal from `lots` covering `remaining`, on amounts that fit at `s`,
/// computed exactly: what was covered went to the fragments, and to the lots consumed
/// unless there were none left.
pub open spec fn step_exact(
    lots: Seq<CurrencyHolding>,
    deducted: Seq<CurrencyHolding>,
    remaining: Dec,
    new_lots: Seq<CurrencyHolding>,
    new_deducted: Seq<CurrencyHolding>,
    r: Option<Dec>,
    s: nat,
) -> bool {
    &&& r.is_some()
    &&& amounts_fit(new_lots, r.unwrap(), s)
    &&& total_units(new_deducted) == total_units(deducted) + remaining.units() - r.unwrap().units()
    &&& lots.len() > 0 ==> total_units(lots) - total_units(new_lots) == remaining.units()
        - r.unwrap().units()
    &&& lots.len() == 0 ==> new_lots.len() == 0 && r.unwrap().units() == 0
    &&& remaining.units() >= 0 ==> r.unwrap().units() >= 0
}

pub proof fn lemma_total_push(s: Seq<CurrencyHolding>, x: CurrencyHolding)
    ensures
        total_units(s.push(x)) == total_units(s) + x.amount.units(),
{
    assert(s.push(x).drop_last() =~= s);
}

} // verus!
