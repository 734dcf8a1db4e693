use rand::distributions::Alphanumeric;
use rand::{thread_rng, Rng};
use rust_decimal::prelude::{FromPrimitive, ToPrimitive, Zero};
use rust_decimal::Decimal;
use std::time::SystemTime;
use tax_lots::decimal::Dec;
use tax_lots::disposal::holding_selection;
use tax_lots::gains::{calculate_gain_per_holdings, calculate_gain_per_trade, calculate_gains};
use tax_lots::holding::{add_to_holdings, CurrencyHolding, CurrencyLots, Holdings};
use tax_lots::method::Method;
use tax_lots::processing::process_trade;
use tax_lots::selection::get_currency_holding;
use tax_lots::trade::Trade;
use tax_lots::{QUARTER_IN_MILLISECONDS, YEAR_IN_MILLISECONDS};

const FIAT_CURRENCY: &str = "FAKE";
const DEFAULT_STARTING: u64 = 1262322000000;

fn dec(d: Decimal) -> Dec {
    Dec {
        mantissa: d.mantissa(),
        scale: d.scale(),
    }
}

fn decimal(d: Dec) -> Decimal {
    Decimal::from_i128_with_scale(d.mantissa, d.scale)
}

fn rand_string() -> String {
    thread_rng()
        .sample_iter(&Alphanumeric)
        .take(30)
        .map(char::from)
        .collect()
}

fn rand_decimal() -> Decimal {
    Decimal::from_f64(thread_rng().gen::<f64>()).unwrap()
}

fn now_u64() -> u64 {
    SystemTime::UNIX_EPOCH.elapsed().unwrap().as_millis() as u64
}

fn date_in_range(start: Option<u64>, end: Option<u64>) -> u64 {
    let starting_date = start.unwrap_or(DEFAULT_STARTING);
    let ending_date = end.unwrap_or_else(now_u64);
    thread_rng().gen_range(starting_date..ending_date)
}

fn mock_currency_holdings(
    amount: u32,
    starting_date: Option<u64>,
    ending_date: Option<u64>,
) -> Vec<CurrencyHolding> {
    let mut currency_holdings = vec![];
    for _ in 0..amount {
        currency_holdings.push(CurrencyHolding {
            amount: dec(rand_decimal()),
            rate_in_fiat: dec(rand_decimal()),
            date: date_in_range(starting_date, ending_date),
            location: rand_string(),
        });
    }
    currency_holdings
}

fn mock_holdings(
    currencies: u32,
    holdings_per_currency: u32,
    starting_date: Option<u64>,
    ending_date: Option<u64>,
) -> Holdings {
    let mut holdings = Holdings::new();
    for _ in 0..currencies {
        holdings.0.push(CurrencyLots {
            currency: rand_string(),
            lots: mock_currency_holdings(holdings_per_currency, starting_date, ending_date),
        });
    }
    holdings
}

fn mock_trades(
    amount: u32,
    starting_date: u64,
    current_holdings: Holdings,
    allow_overflow: bool,
) -> Vec<Trade> {
    let mut trades = vec![];
    let currencies = {
        let keys = current_holdings.currencies();
        if keys.is_empty() {
            vec![rand_string()]
        } else {
            keys
        }
    };

    for currency in currencies {
        let total_holdings: Decimal = current_holdings
            .get(&currency)
            .map(|lots| lots.iter().fold(Decimal::zero(), |acc, item| acc + decimal(item.amount)))
            .unwrap_or_else(Decimal::zero);

        for _ in 0..amount {
            let amount_sold = if allow_overflow {
                total_holdings + rand_decimal()
            } else {
                let max_per_trade = (total_holdings / Decimal::from_u32(amount).unwrap()
                    * Decimal::new(100, 0))
                .to_u32()
                .unwrap();
                let rand: u32 = thread_rng().gen_range(0..(max_per_trade + 1));
                Decimal::from_u32(rand).unwrap() / Decimal::new(100, 0)
            };

            trades.push(Trade {
                bought_currency: rand_string(),
                sold_currency: currency.clone(),
                amount_sold: dec(amount_sold),
                rate: dec(rand_decimal()),
                date: date_in_range(Some(starting_date), Some(now_u64() + QUARTER_IN_MILLISECONDS)),
                exchange_id: rand_string(),
                exchange: rand_string(),
                id: rand_string(),
                transaction_fee: Dec::zero(),
                transaction_fee_currency: rand_string(),
                fiat_rate: Some(dec(rand_decimal())),
                short_term: None,
                long_term: None,
                date_acquired: None,
                cost_basis: None,
                long_term_trade: None,
            });
        }
    }
    trades
}

fn first_currency(holdings: &Holdings) -> String {
    holdings.currencies()[0].clone()
}

fn fiat_rate(trade: &Trade) -> Decimal {
    decimal(trade.fiat_rate())
}

fn calculate_total_amount(currency_holdings: &[CurrencyHolding]) -> Decimal {
    currency_holdings
        .iter()
        .fold(Decimal::zero(), |acc, item| acc + decimal(item.amount))
}

fn check_add_new_currency_holding(add: fn(Holdings, String) -> Holdings) {
    let holdings = mock_holdings(0, 0, None, None);
    assert_eq!(holdings.currencies().len(), 0);
    let new_holdings = add(holdings, "BTC".to_string());
    assert_eq!(new_holdings.currencies().len(), 1);
}

fn check_add_to_existing_currency_holding(add: fn(Holdings, String) -> Holdings) {
    let holdings = mock_holdings(1, 3, None, None);
    let holdings_currencies = holdings.currencies();
    let currency = holdings_currencies[0].clone();
    assert_eq!(holdings_currencies.len(), 1);
    let new_holdings = add(holdings, currency.clone());
    assert_eq!(new_holdings.currencies().len(), 1);
    let currency_holding = new_holdings
        .get(&currency)
        .expect("Unable to get currency holding");
    assert_eq!(currency_holding.len(), 4);
}

fn add_by_method(holdings: Holdings, currency: String) -> Holdings {
    holdings.add_to_currency_holdings(currency, Dec::zero(), Dec::zero(), 1234, None)
}

fn add_by_function(holdings: Holdings, currency: String) -> Holdings {
    add_to_holdings(holdings, currency, Dec::zero(), Dec::zero(), 1234, None)
}

#[test]
fn add_to_holdings_add_new_curreny_holding() {
    check_add_new_currency_holding(add_by_function);
}

#[test]
fn add_to_holdings_add_to_existing_curreny_holding() {
    check_add_to_existing_currency_holding(add_by_function);
}

#[test]
fn holding_add_new_curreny_holding() {
    check_add_new_currency_holding(add_by_method);
}

#[test]
fn holding_add_to_existing_curreny_holding() {
    check_add_to_existing_currency_holding(add_by_method);
}

#[test]
fn add_to_currency_holdings_add_new_curreny_holding() {
    check_add_new_currency_holding(add_by_method);
}

#[test]
fn add_to_currency_holdings_add_to_existing_curreny_holding() {
    check_add_to_existing_currency_holding(add_by_method);
}

#[test]
fn empty_holding() {
    let holdings = Holdings::new();
    let mut trades = mock_trades(1, 123456768, holdings.clone(), false);
    trades[0].bought_currency = FIAT_CURRENCY.to_owned();

    let result = holding_selection(
        holdings,
        &trades[0],
        &FIAT_CURRENCY.to_owned(),
        Method::FIFO,
    )
    .unwrap();

    assert_eq!(
        calculate_total_amount(&result.deducted_holdings),
        decimal(trades[0].amount_sold)
    );
}

#[test]
fn single_holding() {
    let holdings = mock_holdings(1, 3, None, None);
    let currency = first_currency(&holdings);
    let holdings_total = calculate_total_amount(holdings.get(&currency).unwrap());
    let mut trades = mock_trades(1, 123456768, holdings.clone(), false);
    trades[0].amount_sold = holdings.get(&currency).unwrap()[0].amount;
    trades[0].bought_currency = FIAT_CURRENCY.to_owned();

    let result = holding_selection(
        holdings.clone(),
        &trades[0],
        &FIAT_CURRENCY.to_owned(),
        Method::FIFO,
    )
    .unwrap();

    assert_eq!(
        calculate_total_amount(&result.deducted_holdings),
        decimal(trades[0].amount_sold)
    );

    let currency_holding = result
        .new_holdings
        .get(&currency)
        .expect("cant get new holding currency");
    let t = holdings_total - calculate_total_amount(currency_holding);
    assert_eq!(t, decimal(trades[0].amount_sold));
}

#[test]
fn multiple_holding() {
    let holdings = mock_holdings(1, 3, None, None);
    let currency = first_currency(&holdings);
    let holdings_total = calculate_total_amount(holdings.get(&currency).unwrap());
    let mut trades = mock_trades(1, 123456768, holdings.clone(), false);
    trades[0].amount_sold =
        dec(decimal(holdings.get(&currency).unwrap()[0].amount) + Decimal::new(1, 2));
    trades[0].bought_currency = FIAT_CURRENCY.to_owned();

    let result = holding_selection(
        holdings.clone(),
        &trades[0],
        &FIAT_CURRENCY.to_owned(),
        Method::FIFO,
    )
    .unwrap();

    assert_eq!(
        calculate_total_amount(&result.deducted_holdings),
        decimal(trades[0].amount_sold)
    );

    let currency_holding = result
        .new_holdings
        .get(&currency)
        .expect("cant get new holding currency");
    let t = holdings_total - calculate_total_amount(currency_holding);
    assert_eq!(t, decimal(trades[0].amount_sold));
}

fn selection_trade(currency: &str) -> Trade {
    let holdings = Holdings::new();
    let mut trades = mock_trades(1, 123456768, holdings, false);
    trades[0].sold_currency = currency.to_string();
    trades[0].date = now_u64();
    trades.remove(0)
}

fn lowest_rate_index(lots: &[CurrencyHolding]) -> usize {
    let mut lowest = 0;
    for (index, lot) in lots.iter().enumerate() {
        if decimal(lot.rate_in_fiat) < decimal(lots[lowest].rate_in_fiat) {
            lowest = index;
        }
    }
    lowest
}

fn highest_rate_index(lots: &[CurrencyHolding]) -> usize {
    let mut highest = 0;
    for (index, lot) in lots.iter().enumerate() {
        if decimal(lot.rate_in_fiat) > decimal(lots[highest].rate_in_fiat) {
            highest = index;
        }
    }
    highest
}

#[test]
fn get_currency_holding_fifo() {
    let holdings = mock_holdings(1, 10, None, None);
    let currency = first_currency(&holdings);
    let currency_holdings = holdings.get(&currency).unwrap();
    let trades = mock_trades(1, 123456768, holdings.clone(), false);

    let result = get_currency_holding(currency_holdings, Method::FIFO, &trades[0]);

    assert_eq!(result, 0);
    assert_eq!(&currency_holdings[result], currency_holdings.first().unwrap());
}

#[test]
fn get_currency_holding_lifo() {
    let holdings = mock_holdings(1, 10, None, None);
    let currency = first_currency(&holdings);
    let currency_holdings = holdings.get(&currency).unwrap();
    let trades = mock_trades(1, 123456768, holdings.clone(), false);

    let result = get_currency_holding(currency_holdings, Method::LIFO, &trades[0]);

    assert_eq!(result, currency_holdings.len() - 1);
    assert_eq!(&currency_holdings[result], currency_holdings.last().unwrap());
}

#[test]
fn get_currency_holding_hcfo() {
    let holdings = mock_holdings(1, 10, None, None);
    let currency = first_currency(&holdings);
    let currency_holdings = holdings.get(&currency).unwrap();
    let trades = mock_trades(1, 123456768, holdings.clone(), false);

    let result = get_currency_holding(currency_holdings, Method::HCFO, &trades[0]);
    let highest_cost_holding_index = highest_rate_index(currency_holdings);

    assert_eq!(result, highest_cost_holding_index);
    assert_eq!(
        currency_holdings[result],
        currency_holdings[highest_cost_holding_index]
    );
}

#[test]
fn get_currency_holding_lcfo() {
    let holdings = mock_holdings(1, 10, None, None);
    let currency = first_currency(&holdings);
    let currency_holdings = holdings.get(&currency).unwrap();
    let trades = mock_trades(1, 123456768, holdings.clone(), false);

    let result = get_currency_holding(currency_holdings, Method::LCFO, &trades[0]);
    let lowest_cost_holding_index = lowest_rate_index(currency_holdings);

    assert_eq!(result, lowest_cost_holding_index);
    assert_eq!(
        currency_holdings[result],
        currency_holdings[lowest_cost_holding_index]
    );
}

#[test]
fn get_currency_holding_htfo_short_term() {
    let holdings = mock_holdings(1, 10, Some(now_u64() - 30844800000), None);
    let currency = first_currency(&holdings);
    let currency_holdings = holdings.get(&currency).unwrap();
    let trade = selection_trade(&currency);

    let htfo_result = get_currency_holding(currency_holdings, Method::HTFO, &trade);
    let lcfo_result = get_currency_holding(currency_holdings, Method::LCFO, &trade);

    println!("{:?}", currency_holdings);
    println!("{:?}", trade);

    assert_eq!(htfo_result, lcfo_result);
}

#[test]
fn get_currency_holding_htfo_long_term() {
    let holdings = mock_holdings(
        1,
        10,
        Some(now_u64() - YEAR_IN_MILLISECONDS * 3),
        Some(now_u64() - YEAR_IN_MILLISECONDS * 2),
    );
    let currency = first_currency(&holdings);
    let currency_holdings = holdings.get(&currency).unwrap();
    let trade = selection_trade(&currency);

    let htfo_result = get_currency_holding(currency_holdings, Method::HTFO, &trade);
    let lcfo_result = get_currency_holding(currency_holdings, Method::LCFO, &trade);

    assert_eq!(htfo_result, lcfo_result);
}

fn mixed_term_holdings() -> (Holdings, String) {
    let mut holdings = mock_holdings(1, 10, Some(now_u64() - YEAR_IN_MILLISECONDS * 3), None);
    let currency = first_currency(&holdings);
    holdings.0[0].lots[0].date = now_u64();

    let mut conditions_met = (false, false);
    for holding in holdings.get(&currency).unwrap() {
        if now_u64().wrapping_sub(holding.date) > YEAR_IN_MILLISECONDS {
            conditions_met.1 = true;
        } else {
            conditions_met.0 = true;
        }
    }
    // both a long-term and a short-term lot exist
    assert_eq!(conditions_met, (true, true));
    (holdings, currency)
}

#[test]
fn get_currency_holding_htfo_short_and_long_term() {
    let (holdings, currency) = mixed_term_holdings();
    let currency_holdings = holdings.get(&currency).unwrap();
    let trade = selection_trade(&currency);

    let htfo_result = get_currency_holding(currency_holdings, Method::HTFO, &trade);

    let lcfo_currency_holdings = {
        let short_term: Vec<CurrencyHolding> = currency_holdings
            .iter()
            .filter(|c| trade.date.wrapping_sub(c.date) <= YEAR_IN_MILLISECONDS)
            .cloned()
            .collect();
        if !short_term.is_empty() {
            short_term
        } else {
            currency_holdings.clone()
        }
    };
    let lcfo_result = get_currency_holding(&lcfo_currency_holdings, Method::LCFO, &trade);

    assert_eq!(
        currency_holdings[htfo_result],
        lcfo_currency_holdings[lcfo_result]
    );
}

#[test]
fn get_currency_holding_ltfo_short_term() {
    let holdings = mock_holdings(1, 10, Some(now_u64() - 30844800000), None);
    let currency = first_currency(&holdings);
    let currency_holdings = holdings.get(&currency).unwrap();
    let trade = selection_trade(&currency);

    let ltfo_result = get_currency_holding(currency_holdings, Method::LTFO, &trade);
    let hcfo_result = get_currency_holding(currency_holdings, Method::HCFO, &trade);

    assert_eq!(ltfo_result, hcfo_result);
}

#[test]
fn get_currency_holding_ltfo_long_term() {
    let holdings = mock_holdings(
        1,
        10,
        Some(now_u64() - YEAR_IN_MILLISECONDS * 3),
        Some(now_u64() - YEAR_IN_MILLISECONDS * 2),
    );
    let currency = first_currency(&holdings);
    let currency_holdings = holdings.get(&currency).unwrap();
    let trade = selection_trade(&currency);

    let ltfo_result = get_currency_holding(currency_holdings, Method::LTFO, &trade);
    let hcfo_result = get_currency_holding(currency_holdings, Method::HCFO, &trade);

    assert_eq!(ltfo_result, hcfo_result);
}

#[test]
fn get_currency_holding_ltfo_short_and_long_term() {
    let (holdings, currency) = mixed_term_holdings();
    let currency_holdings = holdings.get(&currency).unwrap();
    let trade = selection_trade(&currency);

    let ltfo_result = get_currency_holding(currency_holdings, Method::LTFO, &trade);

    let hcfo_currency_holdings = {
        let long_term: Vec<CurrencyHolding> = currency_holdings
            .iter()
            .filter(|c| trade.date.wrapping_sub(c.date) >= YEAR_IN_MILLISECONDS)
            .cloned()
            .collect();
        if !long_term.is_empty() {
            long_term
        } else {
            currency_holdings.clone()
        }
    };
    let hcfo_result = get_currency_holding(&hcfo_currency_holdings, Method::HCFO, &trade);

    assert_eq!(
        currency_holdings[ltfo_result],
        hcfo_currency_holdings[hcfo_result]
    );
}

struct Info {
    cost_basis: Decimal,
    gain: Decimal,
    proceeds: Decimal,
    deducted_count: usize,
}

fn calculate_info(trade: &Trade, holdings: &Holdings, currency: &String) -> Info {
    let mut cost_basis = Decimal::zero();
    let mut gain = Decimal::zero();
    let mut proceeds = Decimal::zero();
    let mut deducted_count = 0;
    let mut amount_left = decimal(trade.amount_sold);
    let rate = fiat_rate(trade);

    for currency_holding in holdings.get(currency).expect("unable to get holding by currency") {
        let amount = decimal(currency_holding.amount);
        let rate_in_fiat = decimal(currency_holding.rate_in_fiat);
        deducted_count += 1;
        if amount_left > amount {
            amount_left -= amount;
            cost_basis += rate_in_fiat * amount;
            gain += (rate - rate_in_fiat) * amount;
            proceeds += amount * rate;
        } else {
            cost_basis += rate_in_fiat * amount_left;
            gain += (rate - rate_in_fiat) * amount_left;
            proceeds += amount_left * rate;
            break;
        }
    }

    Info {
        cost_basis,
        gain,
        proceeds,
        deducted_count,
    }
}

fn fiat_sale_trade(holdings: &Holdings, currency: &String, multiple: i64) -> Trade {
    let mut trades = mock_trades(1, now_u64(), holdings.clone(), false);
    trades[0].amount_sold =
        dec(decimal(holdings.get(currency).unwrap()[0].amount) * Decimal::new(multiple, 0));
    trades[0].bought_currency = FIAT_CURRENCY.to_owned();
    trades.remove(0)
}

#[test]
fn process_trade_short_term_trade_single_holdings() {
    let holdings = mock_holdings(1, 10, Some(now_u64() - QUARTER_IN_MILLISECONDS), None);
    let holdings_before = holdings.clone();
    let currency = first_currency(&holdings);
    let trade = fiat_sale_trade(&holdings, &currency, 1);

    let result = holdings
        .process_trade(trade.clone(), FIAT_CURRENCY.to_string(), Method::FIFO)
        .unwrap();
    let info = calculate_info(&trade, &holdings_before, &currency);

    assert_ne!(result.holdings, holdings_before);
    assert!(decimal(result.long_term_proceeds).is_zero());
    assert!(decimal(result.long_term_cost_basis).is_zero());
    assert!(decimal(result.long_term_gain).is_zero());

    assert_eq!(result.cost_basis_trades.len(), info.deducted_count);
    assert_eq!(decimal(result.short_term_gain), info.gain);
    assert_eq!(decimal(result.short_term_cost_basis), info.cost_basis);
    assert_eq!(decimal(result.short_term_proceeds), info.proceeds);
}

#[test]
fn process_trade_short_term_trade_multiple_holdings() {
    let holdings = mock_holdings(1, 10, Some(now_u64() - QUARTER_IN_MILLISECONDS), None);
    let holdings_before = holdings.clone();
    let currency = first_currency(&holdings);
    let trade = fiat_sale_trade(&holdings, &currency, 2);

    let result = holdings
        .process_trade(trade.clone(), FIAT_CURRENCY.to_string(), Method::FIFO)
        .unwrap();
    let info = calculate_info(&trade, &holdings_before, &currency);

    assert_ne!(result.holdings, holdings_before);
    assert!(decimal(result.long_term_proceeds).is_zero());
    assert!(decimal(result.long_term_cost_basis).is_zero());
    assert!(decimal(result.long_term_gain).is_zero());

    assert_eq!(result.cost_basis_trades.len(), info.deducted_count);
    assert_eq!(decimal(result.short_term_gain), info.gain);
    assert_eq!(decimal(result.short_term_cost_basis), info.cost_basis);
    assert_eq!(decimal(result.short_term_proceeds), info.proceeds);
}

#[test]
fn process_trade_long_term_trade_single_holdings() {
    let holdings = mock_holdings(1, 10, None, Some(now_u64() - YEAR_IN_MILLISECONDS));
    let holdings_before = holdings.clone();
    let currency = first_currency(&holdings);
    let trade = fiat_sale_trade(&holdings, &currency, 1);

    let result = process_trade(holdings, trade.clone(), FIAT_CURRENCY.to_string(), Method::FIFO)
        .unwrap();
    let info = calculate_info(&trade, &holdings_before, &currency);

    assert_ne!(result.holdings, holdings_before);
    assert!(decimal(result.short_term_gain).is_zero());
    assert!(decimal(result.short_term_cost_basis).is_zero());
    assert!(decimal(result.short_term_gain).is_zero());

    assert_eq!(result.cost_basis_trades.len(), info.deducted_count);
    assert_eq!(decimal(result.long_term_gain), info.gain);
    assert_eq!(decimal(result.long_term_cost_basis), info.cost_basis);
    assert_eq!(decimal(result.long_term_proceeds), info.proceeds);
}

#[test]
fn process_trade_long_term_trade_multiple_holdings() {
    let holdings = mock_holdings(1, 10, None, Some(now_u64() - YEAR_IN_MILLISECONDS));
    let holdings_before = holdings.clone();
    let currency = first_currency(&holdings);
    let trade = fiat_sale_trade(&holdings, &currency, 2);

    let result = process_trade(holdings, trade.clone(), FIAT_CURRENCY.to_string(), Method::FIFO)
        .unwrap();
    let info = calculate_info(&trade, &holdings_before, &currency);

    assert_ne!(result.holdings, holdings_before);
    assert!(decimal(result.short_term_gain).is_zero());
    assert!(decimal(result.short_term_cost_basis).is_zero());
    assert!(decimal(result.short_term_gain).is_zero());

    assert_eq!(result.cost_basis_trades.len(), info.deducted_count);
    assert_eq!(decimal(result.long_term_gain), info.gain);
    assert_eq!(decimal(result.long_term_cost_basis), info.cost_basis);
    assert_eq!(decimal(result.long_term_proceeds), info.proceeds);
}

#[test]
fn process_trade_short_long_term_trade_multiple_holdings() {
    let mut holdings = mock_holdings(1, 10, None, Some(now_u64() - YEAR_IN_MILLISECONDS));
    let holdings_before = holdings.clone();
    let currency = first_currency(&holdings);
    holdings.0[0].lots[0].date = now_u64() - QUARTER_IN_MILLISECONDS;
    let trade = fiat_sale_trade(&holdings, &currency, 2);

    let result = holdings
        .process_trade(trade.clone(), FIAT_CURRENCY.to_string(), Method::FIFO)
        .unwrap();
    let info = calculate_info(&trade, &holdings_before, &currency);

    assert_ne!(result.holdings, holdings_before);

    assert!(!decimal(result.short_term_cost_basis).is_zero());
    assert!(!decimal(result.short_term_gain).is_zero());
    assert!(!decimal(result.short_term_proceeds).is_zero());

    assert!(!decimal(result.long_term_cost_basis).is_zero());
    assert!(!decimal(result.long_term_gain).is_zero());
    assert!(!decimal(result.long_term_proceeds).is_zero());

    assert_eq!(result.cost_basis_trades.len(), info.deducted_count);
    assert_eq!(
        decimal(result.long_term_gain) + decimal(result.short_term_gain),
        info.gain
    );
    assert_eq!(
        decimal(result.long_term_cost_basis) + decimal(result.short_term_cost_basis),
        info.cost_basis
    );
    assert_eq!(
        decimal(result.long_term_proceeds) + decimal(result.short_term_proceeds),
        info.proceeds
    );
}

fn run_gains(holdings: Holdings, trades: &[Trade]) -> tax_lots::gains::CalculateGains {
    calculate_gains(
        holdings,
        trades.to_vec(),
        vec![],
        FIAT_CURRENCY.to_string(),
        Method::FIFO,
    )
    .unwrap()
}

fn assert_bought_currency_held(result: &tax_lots::gains::CalculateGains, trade: &Trade) {
    let bought_currency_holdings = result
        .new_holdings
        .get(&trade.bought_currency)
        .expect("bought currency not found");
    assert!(!bought_currency_holdings.is_empty());
}

fn single_trade_gain_with_overflow(trades: &[Trade], lot: &CurrencyHolding) -> Decimal {
    let mut gain = Decimal::zero();
    let mut used_holding_amount = decimal(lot.amount);
    let rate_in_fiat = decimal(lot.rate_in_fiat);
    for trade in trades {
        let amount_sold = decimal(trade.amount_sold);
        if used_holding_amount.is_zero() {
            gain += fiat_rate(trade) * amount_sold;
        } else if used_holding_amount >= amount_sold {
            gain += (fiat_rate(trade) - rate_in_fiat) * amount_sold;
            used_holding_amount -= amount_sold;
        } else {
            gain += (fiat_rate(trade) - rate_in_fiat) * used_holding_amount;
            gain += fiat_rate(trade) * (amount_sold - used_holding_amount);
            used_holding_amount = Decimal::zero();
        }
    }
    gain
}

fn fifo_gain(trade: &Trade, lots: &[CurrencyHolding]) -> (Decimal, Decimal) {
    let mut gain = Decimal::zero();
    let mut amount_left = decimal(trade.amount_sold);
    for holding in lots {
        if amount_left > Decimal::zero() {
            let amount_to_deduct = amount_left.min(decimal(holding.amount));
            amount_left -= amount_to_deduct;
            gain += (fiat_rate(trade) - decimal(holding.rate_in_fiat)) * amount_to_deduct;
        }
    }
    (gain, amount_left)
}

#[test]
fn single_holding_single_trade_short_term_no_overflow() {
    let holdings = mock_holdings(1, 1, Some(now_u64() - QUARTER_IN_MILLISECONDS), None);
    let currency = first_currency(&holdings);
    let lot = holdings.get(&currency).unwrap()[0].clone();
    let mut trades = mock_trades(1, now_u64(), holdings.clone(), false);
    trades[0].amount_sold = lot.amount;
    let result = run_gains(holdings, &trades);

    assert!(decimal(result.long_term_gain).is_zero());
    assert_bought_currency_held(&result, &trades[0]);
    assert_eq!(
        decimal(result.short_term_gain),
        (fiat_rate(&trades[0]) - decimal(lot.rate_in_fiat)) * decimal(trades[0].amount_sold)
    );
}

#[test]
fn single_holding_single_trade_short_term_overflow() {
    let holdings = mock_holdings(1, 1, Some(now_u64() - QUARTER_IN_MILLISECONDS), None);
    let currency = first_currency(&holdings);
    let lot = holdings.get(&currency).unwrap()[0].clone();
    let mut trades = mock_trades(1, now_u64(), holdings.clone(), false);
    trades[0].amount_sold = dec(decimal(lot.amount) * Decimal::new(2, 0));
    let result = run_gains(holdings, &trades);

    assert!(decimal(result.long_term_gain).is_zero());
    assert_bought_currency_held(&result, &trades[0]);
    assert_eq!(
        decimal(result.short_term_gain),
        (fiat_rate(&trades[0]) - decimal(lot.rate_in_fiat)) * decimal(lot.amount)
            + fiat_rate(&trades[0]) * (decimal(trades[0].amount_sold) - decimal(lot.amount))
    );
}

#[test]
fn single_holding_single_trade_long_term_no_overflow() {
    let holdings = mock_holdings(1, 1, None, Some(now_u64() - YEAR_IN_MILLISECONDS));
    let currency = first_currency(&holdings);
    let lot = holdings.get(&currency).unwrap()[0].clone();
    let mut trades = mock_trades(1, now_u64(), holdings.clone(), false);
    trades[0].amount_sold = lot.amount;
    let result = run_gains(holdings, &trades);

    assert!(decimal(result.short_term_gain).is_zero());
    assert_bought_currency_held(&result, &trades[0]);
    assert_eq!(
        decimal(result.long_term_gain),
        (fiat_rate(&trades[0]) - decimal(lot.rate_in_fiat)) * decimal(trades[0].amount_sold)
    );
}

#[test]
fn single_holding_single_trade_long_term_overflow() {
    let holdings = mock_holdings(1, 1, None, Some(now_u64() - YEAR_IN_MILLISECONDS));
    let currency = first_currency(&holdings);
    let lot = holdings.get(&currency).unwrap()[0].clone();
    let trades = mock_trades(1, now_u64(), holdings.clone(), true);
    let result = run_gains(holdings, &trades);

    assert_bought_currency_held(&result, &trades[0]);
    assert_eq!(
        decimal(result.short_term_gain),
        fiat_rate(&trades[0]) * (decimal(trades[0].amount_sold) - decimal(lot.amount))
    );
    assert_eq!(
        decimal(result.long_term_gain),
        (fiat_rate(&trades[0]) - decimal(lot.rate_in_fiat)) * decimal(lot.amount)
    );
}

#[test]
fn single_holding_multiple_trade_short_term_no_overflow() {
    let holdings = mock_holdings(1, 1, Some(now_u64() - QUARTER_IN_MILLISECONDS), None);
    let currency = first_currency(&holdings);
    let lot = holdings.get(&currency).unwrap()[0].clone();
    let trades = mock_trades(5, now_u64(), holdings.clone(), false);
    let result = run_gains(holdings, &trades);

    assert!(decimal(result.long_term_gain).is_zero());

    let mut gain = Decimal::zero();
    for trade in &trades {
        gain += (fiat_rate(trade) - decimal(lot.rate_in_fiat)) * decimal(trade.amount_sold);
    }
    assert_eq!(decimal(result.short_term_gain), gain);
}

#[test]
fn single_holding_multiple_trade_short_term_overflow() {
    let holdings = mock_holdings(1, 1, Some(now_u64() - QUARTER_IN_MILLISECONDS), None);
    let currency = first_currency(&holdings);
    let lot = holdings.get(&currency).unwrap()[0].clone();
    let trades = mock_trades(5, now_u64(), holdings.clone(), true);
    let result = run_gains(holdings, &trades);

    assert!(decimal(result.long_term_gain).is_zero());
    assert_eq!(
        decimal(result.short_term_gain),
        single_trade_gain_with_overflow(&trades, &lot)
    );
}

#[test]
fn single_holding_multiple_trade_long_term_no_overflow() {
    let holdings = mock_holdings(1, 1, None, Some(now_u64() - YEAR_IN_MILLISECONDS));
    let currency = first_currency(&holdings);
    let lot = holdings.get(&currency).unwrap()[0].clone();
    let trades = mock_trades(5, now_u64(), holdings.clone(), false);
    let result = run_gains(holdings, &trades);

    assert!(decimal(result.short_term_gain).is_zero());

    let mut gain = Decimal::zero();
    for trade in &trades {
        gain += (fiat_rate(trade) - decimal(lot.rate_in_fiat)) * decimal(trade.amount_sold);
    }
    assert_eq!(decimal(result.long_term_gain), gain);
}

#[test]
fn single_holding_multiple_trade_long_term_overflow() {
    let holdings = mock_holdings(1, 1, None, Some(now_u64() - YEAR_IN_MILLISECONDS));
    let currency = first_currency(&holdings);
    let lot = holdings.get(&currency).unwrap()[0].clone();
    let trades = mock_trades(5, now_u64(), holdings.clone(), true);
    let result = run_gains(holdings, &trades);

    assert_eq!(
        decimal(result.long_term_gain) + decimal(result.short_term_gain),
        single_trade_gain_with_overflow(&trades, &lot)
    );
}

#[test]
fn multiple_holding_single_trade_short_term_no_overflow() {
    let holdings = mock_holdings(1, 5, Some(now_u64() - QUARTER_IN_MILLISECONDS), None);
    let currency = first_currency(&holdings);
    let lots = holdings.get(&currency).unwrap().clone();
    let trades = mock_trades(1, now_u64(), holdings.clone(), false);
    let result = run_gains(holdings, &trades);

    assert!(decimal(result.long_term_gain).is_zero());
    let (gain, _) = fifo_gain(&trades[0], &lots);
    assert_eq!(decimal(result.short_term_gain), gain);
}

#[test]
fn multiple_holding_single_trade_short_term_overflow() {
    let holdings = mock_holdings(1, 5, Some(now_u64() - QUARTER_IN_MILLISECONDS), None);
    let currency = first_currency(&holdings);
    let lots = holdings.get(&currency).unwrap().clone();
    let trades = mock_trades(1, now_u64(), holdings.clone(), true);
    let result = run_gains(holdings, &trades);

    assert!(decimal(result.long_term_gain).is_zero());
    let (mut gain, amount_left) = fifo_gain(&trades[0], &lots);
    gain += amount_left * fiat_rate(&trades[0]);
    assert_eq!(decimal(result.short_term_gain), gain);
}

#[test]
fn multiple_holding_single_trade_long_term_no_overflow() {
    let holdings = mock_holdings(1, 5, None, Some(now_u64() - YEAR_IN_MILLISECONDS));
    let currency = first_currency(&holdings);
    let lots = holdings.get(&currency).unwrap().clone();
    let trades = mock_trades(1, now_u64(), holdings.clone(), false);
    let result = run_gains(holdings, &trades);

    assert!(decimal(result.short_term_gain).is_zero());
    let (gain, _) = fifo_gain(&trades[0], &lots);
    assert_eq!(decimal(result.long_term_gain), gain);
}

#[test]
fn multiple_holding_single_trade_long_term_overflow() {
    let holdings = mock_holdings(1, 5, None, Some(now_u64() - YEAR_IN_MILLISECONDS));
    let currency = first_currency(&holdings);
    let lots = holdings.get(&currency).unwrap().clone();
    let trades = mock_trades(1, now_u64(), holdings.clone(), true);
    let result = run_gains(holdings, &trades);

    let (gain, amount_left) = fifo_gain(&trades[0], &lots);
    assert_eq!(
        decimal(result.short_term_gain),
        amount_left * fiat_rate(&trades[0])
    );
    assert_eq!(decimal(result.long_term_gain), gain);
}

#[test]
fn calculate_gain_per_trade_calculate_gain_per_trade_identical_to_calculate_gains() {
    let holdings = mock_holdings(3, 3, None, None);
    let trades = mock_trades(1, now_u64(), holdings.clone(), false);

    let gains = calculate_gains(
        holdings.clone(),
        trades.clone(),
        vec![],
        FIAT_CURRENCY.to_string(),
        Method::FIFO,
    )
    .unwrap();
    let gains_per_trade = calculate_gain_per_trade(
        holdings.clone(),
        trades,
        vec![],
        FIAT_CURRENCY.to_string(),
        Method::FIFO,
    )
    .unwrap();

    assert_eq!(
        decimal(gains.short_term_gain),
        decimal(gains_per_trade.short_term)
    );
    assert_eq!(decimal(gains.long_term_gain), decimal(gains_per_trade.long_term));
    assert_eq!(gains.new_holdings, gains_per_trade.holdings);
}

#[test]
fn calculate_gain_per_holdings_calculate_gain_per_trade_identical_to_calculate_gains() {
    let mut holdings = mock_holdings(1, 5, Some(now_u64() - QUARTER_IN_MILLISECONDS), None);
    let currency = first_currency(&holdings);
    holdings.0[0].lots[1].date = now_u64() - QUARTER_IN_MILLISECONDS;
    holdings.0[0].lots[0].date = now_u64() - YEAR_IN_MILLISECONDS * 10;
    let amount = holdings.0[0].lots[0].amount;

    let mut trades = mock_trades(5, now_u64(), holdings.clone(), false);
    trades[0].amount_sold = amount;

    let result = calculate_gain_per_holdings(
        holdings.clone(),
        trades.clone(),
        FIAT_CURRENCY.to_string(),
        Method::FIFO,
    )
    .unwrap();

    assert!(!result.short_term_trades.is_empty());
    assert!(!result.long_term_trades.is_empty());

    let mut total_cost_basis = Decimal::zero();
    for currency_holding in holdings.get(&currency).unwrap() {
        total_cost_basis += decimal(currency_holding.amount) * decimal(currency_holding.rate_in_fiat);
    }
    assert!(
        decimal(result.short_term_cost_basis) + decimal(result.long_term_cost_basis)
            < total_cost_basis
    );

    let mut total_proceeds = Decimal::zero();
    for trade in &trades {
        total_proceeds += decimal(trade.amount_sold) * fiat_rate(trade);
    }
    assert_eq!(
        (decimal(result.short_term_proceed) + decimal(result.long_term_proceed)).round_dp(16),
        total_proceeds.round_dp(16)
    );
}
