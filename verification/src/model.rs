//! The records that every analysis shares.

use vstd::prelude::*;
use crate::fixed::Fixed;
use crate::ratio::Ratio;

verus! {

/// Side of a closed position.
#[derive(Clone, Copy, Debug, PartialEq, Eq, Structural)]
pub enum Direction {
    Buy,
    Sell,
}

/// One closed position.
///
/// Only `profit` decides how a trade is classified: positive is a win,
/// negative is a loss, and zero is neither.
#[derive(Clone, Debug)]
pub struct Trade {
    /// Instrument identifier.
    pub symbol: String,
    pub direction: Direction,
    /// Lot size.
    pub volume: Fixed,
    pub open_price: Fixed,
    pub close_price: Fixed,
    /// Realised profit or loss in account currency.
    pub profit: Fixed,
    pub commission: Option<Fixed>,
    pub swap: Option<Fixed>,
}

impl Trade {
    pub fn new(
        symbol: String,
        direction: Direction,
        volume: Fixed,
        open_price: Fixed,
        close_price: Fixed,
        profit: Fixed,
        commission: Option<Fixed>,
        swap: Option<Fixed>,
    ) -> (t: Trade)
        ensures
            t.symbol == symbol,
            t.direction == direction,
            t.volume == volume,
            t.open_price == open_price,
            t.close_price == close_price,
            t.profit == profit,
            t.commission == commission,
            t.swap == swap,
    {
        Trade { symbol, direction, volume, open_price, close_price, profit, commission, swap }
    }
}

/// The profit of each trade, in input order.
pub open spec fn profit_seq(trades: Seq<Trade>) -> Seq<Fixed> {
    trades.map_values(|t: Trade| t.profit)
}

/// The raw profit of each trade, in billionths and in input order.
pub open spec fn profits_of(trades: Seq<Trade>) -> Seq<int> {
    Seq::new(trades.len(), |i: int| trades[i].profit.raw as int)
}

/// The profit of each trade, in input order.
pub fn profit_values(trades: &Vec<Trade>) -> (r: Vec<Fixed>)
    ensures
        r@ == profit_seq(trades@),
{
    let mut r: Vec<Fixed> = Vec::new();
    let mut i: usize = 0;
    while i < trades.len()
        invariant
            i <= trades.len(),
            r@ == profit_seq(trades@).take(i as int),
        decreases trades.len() - i,
    {
        r.push(trades[i].profit);
        assert(r@ =~= profit_seq(trades@).take(i + 1));
        i += 1;
    }
    assert(r@ =~= profit_seq(trades@));
    r
}

/// Summary statistics of a trade sequence.
///
/// Every ratio is exact. Amounts (`avg_win`, `avg_loss`, `expectancy`,
/// `max_drawdown`) are in whole currency units.
#[derive(Clone, Copy, Debug)]
pub struct PerformanceMetrics {
    /// Number of trades, flat ones included.
    pub total_trades: usize,
    /// Share of trades with a positive profit.
    pub win_probability: Ratio,
    /// Share of trades with a negative profit.
    pub loss_probability: Ratio,
    /// Mean winning profit; zero without a win.
    pub avg_win: Ratio,
    /// Mean losing profit, with its sign; zero without a loss.
    pub avg_loss: Ratio,
    /// Median winning profit over median loss magnitude; zero without a
    /// loss.
    pub win_loss_ratio: Ratio,
    /// Sum of winning profits over sum of loss magnitudes; zero without a
    /// loss.
    pub profit_factor: Ratio,
    /// Win probability times mean win, less loss probability times mean
    /// loss magnitude.
    pub expectancy: Ratio,
    /// Largest decline of cumulative profit from its running peak.
    pub max_drawdown: Ratio,
    /// Not computed: always absent.
    pub sharpe_ratio: Option<Ratio>,
}

impl PerformanceMetrics {
    pub fn new(
        total_trades: usize,
        win_probability: Ratio,
        loss_probability: Ratio,
        avg_win: Ratio,
        avg_loss: Ratio,
        win_loss_ratio: Ratio,
        profit_factor: Ratio,
        expectancy: Ratio,
        max_drawdown: Ratio,
        sharpe_ratio: Option<Ratio>,
    ) -> (m: PerformanceMetrics)
        ensures
            m.total_trades == total_trades,
            m.win_probability == win_probability,
            m.loss_probability == loss_probability,
            m.avg_win == avg_win,
            m.avg_loss == avg_loss,
            m.win_loss_ratio == win_loss_ratio,
            m.profit_factor == profit_factor,
            m.expectancy == expectancy,
            m.max_drawdown == max_drawdown,
            m.sharpe_ratio == sharpe_ratio,
    {
        PerformanceMetrics {
            total_trades,
            win_probability,
            loss_probability,
            avg_win,
            avg_loss,
            win_loss_ratio,
            profit_factor,
            expectancy,
            max_drawdown,
            sharpe_ratio,
        }
    }
}

/// The rule set of a funded-account challenge.
///
/// The three percentages are percentages of `account_size`.
/// `min_trading_days` is carried as configuration; no rule reads it.
#[derive(Clone, Copy, Debug)]
pub struct ChallengeParams {
    /// Starting equity.
    pub account_size: Fixed,
    pub profit_target_percent: Fixed,
    pub max_daily_loss_percent: Fixed,
    pub max_overall_loss_percent: Fixed,
    pub min_trading_days: u32,
}

impl ChallengeParams {
    /// The account is positive and no percentage is negative.
    pub open spec fn wf(self) -> bool {
        &&& self.account_size.raw > 0
        &&& self.profit_target_percent.raw >= 0
        &&& self.max_daily_loss_percent.raw >= 0
        &&& self.max_overall_loss_percent.raw >= 0
    }

    pub fn new(
        account_size: Fixed,
        profit_target_percent: Fixed,
        max_daily_loss_percent: Fixed,
        max_overall_loss_percent: Fixed,
        min_trading_days: u32,
    ) -> (p: ChallengeParams)
        ensures
            p.account_size == account_size,
            p.profit_target_percent == profit_target_percent,
            p.max_daily_loss_percent == max_daily_loss_percent,
            p.max_overall_loss_percent == max_overall_loss_percent,
            p.min_trading_days == min_trading_days,
    {
        ChallengeParams {
            account_size,
            profit_target_percent,
            max_daily_loss_percent,
            max_overall_loss_percent,
            min_trading_days,
        }
    }

    /// Whether the rule set is well formed.
    pub fn is_valid(&self) -> (ok: bool)
        ensures
            ok == self.wf(),
    {
        self.account_size.raw > 0 && self.profit_target_percent.raw >= 0
            && self.max_daily_loss_percent.raw >= 0 && self.max_overall_loss_percent.raw >= 0
    }
}

/// Why an analysis refused its input.
#[derive(Clone, Copy, Debug, PartialEq, Eq, Structural)]
pub enum RiskError {
    /// The trade sequence has no element.
    EmptyInput,
    /// The win probability is not strictly between 0 and 1.
    InvalidProbability,
    /// The win/loss ratio is not positive.
    InvalidRatio,
}

impl RiskError {
    /// The text that says what was wrong with the input.
    pub open spec fn spec_message(self) -> Seq<char> {
        match self {
            RiskError::EmptyInput => "No trades provided"@,
            RiskError::InvalidProbability => "Win probability must be between 0 and 1"@,
            RiskError::InvalidRatio => "Win/loss ratio must be positive"@,
        }
    }

    /// The text that says what was wrong with the input.
    pub fn message(&self) -> (text: &'static str)
        ensures
            text@ == self.spec_message(),
    {
        match self {
            RiskError::EmptyInput => "No trades provided",
            RiskError::InvalidProbability => "Win probability must be between 0 and 1",
            RiskError::InvalidRatio => "Win/loss ratio must be positive",
        }
    }
}

} // verus!
