//! Reading trades from the CSV export of a trading terminal.
//!
//! The text is split into records by the `csv` crate, with its default
//! settings: the first record is a header and is not among the records, and
//! every record must have as many fields as the first. A record is a trade
//! if it has at least eight fields and its first field does not contain the
//! word `Positions`, which marks a section title. The first eight fields of
//! a trade are the symbol, the side, volume, open price, close price,
//! profit, commission and swap.

use vstd::prelude::*;
use vstd::string::StringSliceAdditionalSpecFns;
use vstd::utf8::encode_utf8;
use crate::decimal::decimal_value;
use crate::decimal::parse_decimal;
use crate::fixed::Fixed;
use crate::model::Direction;
use crate::model::Trade;

verus! {

/// The error type of the `csv` crate.
#[verifier::external_type_specification]
#[verifier::external_body]
pub struct ExCsvError(csv::Error);

/// The records that the `csv` crate reads from a text with its default
/// settings, each record as its fields in order; `None` where it reports an
/// error.
pub uninterp spec fn csv_records(content: Seq<char>) -> Option<Seq<Seq<Seq<char>>>>;

/// The fields of a record as texts.
pub open spec fn record_view(record: Vec<String>) -> Seq<Seq<char>> {
    record@.map_values(|field: String| field@)
}

/// The records as sequences of texts.
pub open spec fn records_view(records: Seq<Vec<String>>) -> Seq<Seq<Seq<char>>> {
    records.map_values(|record: Vec<String>| record_view(record))
}

/// Reads all records of `content`.
///
/// Calls `csv::Reader::from_reader` on the bytes of the text and collects
/// what `records` yields. The reader is deterministic, so the outcome is a
/// function of the text: the records in order, each with its fields in
/// order, or the first error.
#[verifier::external_body]
fn read_records(content: &str) -> (r: Result<Vec<Vec<String>>, csv::Error>)
    ensures
        match r {
            Ok(records) => csv_records(content@) == Some(records_view(records@)),
            Err(_) => csv_records(content@) is None,
        },
{
    let mut reader = csv::Reader::from_reader(content.as_bytes());
    let records: Vec<csv::StringRecord> = reader.records().collect::<Result<_, _>>()?;
    Ok(records.iter().map(|record| record.iter().map(|field| field.to_string()).collect()).collect())
}

/// The message of an error of the `csv` crate, as its `Display` writes it.
#[verifier::external_body]
fn error_text(error: &csv::Error) -> String {
    format!("{}", error)
}

/// Why a text could not be read.
#[derive(Debug)]
pub struct IngestError {
    /// What the reader reported.
    pub message: String,
}

/// The bytes of the word `Positions`.
pub open spec fn section_marker() -> Seq<u8> {
    seq![80u8, 111u8, 115u8, 105u8, 116u8, 105u8, 111u8, 110u8, 115u8]
}

/// `needle` occurs in `hay` as a run of neighbouring bytes.
pub open spec fn has_infix(hay: Seq<u8>, needle: Seq<u8>) -> bool {
    exists|i: int|
        0 <= i <= hay.len() - needle.len() && #[trigger] hay.subrange(i, i + needle.len())
            == needle
}

/// The record is a trade: it has at least eight fields and its first field
/// does not contain the section marker.
pub open spec fn is_trade_record(record: Seq<Seq<char>>) -> bool {
    record.len() >= 8 && !has_infix(encode_utf8(record[0]), section_marker())
}

/// The side that a text names: `Sell` if it is the word "sell" in any mix
/// of upper and lower case, and `Buy` otherwise.
pub open spec fn direction_of(text: Seq<u8>) -> Direction {
    if text.len() == 4 && (text[0] == 115 || text[0] == 83) && (text[1] == 101 || text[1] == 69)
        && (text[2] == 108 || text[2] == 76) && (text[3] == 108 || text[3] == 76) {
        Direction::Sell
    } else {
        Direction::Buy
    }
}

/// The number that a text writes, or zero if it writes none.
pub open spec fn amount_or_zero(text: Seq<u8>) -> Fixed {
    match decimal_value(text) {
        Some(v) => v,
        None => Fixed::spec_zero(),
    }
}

/// `trade` is what the trade record says.
pub open spec fn trade_of_record(trade: Trade, record: Seq<Seq<char>>) -> bool {
    &&& trade.symbol@ == record[0]
    &&& trade.direction == direction_of(encode_utf8(record[1]))
    &&& trade.volume == amount_or_zero(encode_utf8(record[2]))
    &&& trade.open_price == amount_or_zero(encode_utf8(record[3]))
    &&& trade.close_price == amount_or_zero(encode_utf8(record[4]))
    &&& trade.profit == amount_or_zero(encode_utf8(record[5]))
    &&& trade.commission == decimal_value(encode_utf8(record[6]))
    &&& trade.swap == decimal_value(encode_utf8(record[7]))
}

/// The trade records among `records`, in order.
pub open spec fn trade_records(records: Seq<Seq<Seq<char>>>) -> Seq<Seq<Seq<char>>> {
    records.filter(|record: Seq<Seq<char>>| is_trade_record(record))
}

/// `trades` are the trades of `records`: one for each trade record, in
/// order.
pub open spec fn trades_of_records(trades: Seq<Trade>, records: Seq<Seq<Seq<char>>>) -> bool {
    &&& trades.len() == trade_records(records).len()
    &&& forall|i: int|
        0 <= i < trades.len() ==> trade_of_record(#[trigger] trades[i], trade_records(records)[i])
}

/// Whether `needle` occurs in `hay`.
pub fn contains_bytes(hay: &[u8], needle: &[u8]) -> (found: bool)
    ensures
        found == has_infix(hay@, needle@),
{
    let n: usize = hay.len();
    let m: usize = needle.len();
    if m > n {
        return false;
    }
    let mut i: usize = 0;
    while i <= n - m
        invariant
            m <= n,
            n == hay@.len(),
            m == needle@.len(),
            i <= n - m + 1,
            forall|k: int| 0 <= k < i ==> #[trigger] hay@.subrange(k, k + m) != needle@,
        decreases n - m + 1 - i,
    {
        let mut j: usize = 0;
        while j < m && hay[i + j] == needle[j]
            invariant
                j <= m,
                i + m <= n,
                n == hay@.len(),
                m == needle@.len(),
                forall|t: int| 0 <= t < j ==> hay@[i + t] == needle@[t],
            decreases m - j,
        {
            j += 1;
        }
        if j == m {
            assert(hay@.subrange(i as int, i + m) =~= needle@);
            return true;
        }
        assert(hay@.subrange(i as int, i + m)[j as int] != needle@[j as int]);
        i += 1;
    }
    false
}

/// The side that a text names.
pub fn parse_direction(text: &str) -> (d: Direction)
    ensures
        d == direction_of(text.spec_bytes()),
{
    let bytes = text.as_bytes();
    if bytes.len() == 4 && (bytes[0] == 115 || bytes[0] == 83) && (bytes[1] == 101 || bytes[1]
        == 69) && (bytes[2] == 108 || bytes[2] == 76) && (bytes[3] == 108 || bytes[3] == 76) {
        Direction::Sell
    } else {
        Direction::Buy
    }
}

/// The number that a text writes, or zero if it writes none.
pub fn parse_amount(text: &str) -> (v: Fixed)
    ensures
        v == amount_or_zero(text.spec_bytes()),
{
    match parse_decimal(text) {
        Some(v) => v,
        None => Fixed::zero(),
    }
}

/// The trade that a record says, or `None` if the record is no trade.
pub fn trade_from_record(record: &Vec<String>) -> (r: Option<Trade>)
    ensures
        r is Some <==> is_trade_record(record_view(*record)),
        r matches Some(trade) ==> trade_of_record(trade, record_view(*record)),
{
    if record.len() < 8 {
        return None;
    }
    let marker: Vec<u8> = vec![80, 111, 115, 105, 116, 105, 111, 110, 115];
    assert(marker@ =~= section_marker());
    if contains_bytes(record[0].as_str().as_bytes(), marker.as_slice()) {
        return None;
    }
    Some(
        Trade::new(
            record[0].clone(),
            parse_direction(record[1].as_str()),
            parse_amount(record[2].as_str()),
            parse_amount(record[3].as_str()),
            parse_amount(record[4].as_str()),
            parse_amount(record[5].as_str()),
            parse_decimal(record[6].as_str()),
            parse_decimal(record[7].as_str()),
        ),
    )
}

/// The trades among the records, in order.
pub fn trades_from_records(records: &Vec<Vec<String>>) -> (trades: Vec<Trade>)
    ensures
        trades_of_records(trades@, records_view(records@)),
{
    let ghost all = records_view(records@);
    let mut trades: Vec<Trade> = Vec::new();
    let mut i: usize = 0;
    assert(all.take(0) =~= Seq::<Seq<Seq<char>>>::empty());
    while i < records.len()
        invariant
            i <= records.len(),
            all == records_view(records@),
            trades_of_records(trades@, all.take(i as int)),
        decreases records.len() - i,
    {
        let ghost before = trades@;
        let ghost seen = all.take(i as int);
        proof {
            assert(all.take(i + 1) =~= seen.push(all[i as int]));
            seen.lemma_filter_push(all[i as int], |record: Seq<Seq<char>>| is_trade_record(record));
        }
        match trade_from_record(&records[i]) {
            Some(trade) => {
                trades.push(trade);
                assert forall|k: int| 0 <= k < trades@.len() implies trade_of_record(
                    #[trigger] trades@[k],
                    trade_records(all.take(i + 1))[k],
                ) by {
                    if k < before.len() {
                        assert(trades@[k] == before[k]);
                    }
                }
            },
            None => {},
        }
        i += 1;
    }
    assert(all.take(records@.len() as int) =~= all);
    trades
}

/// Reads the trades of a CSV export.
///
/// Fails exactly when the `csv` crate reports an error for the text, with
/// the message of that error.
pub fn parse_mt5_csv(content: &str) -> (r: Result<Vec<Trade>, IngestError>)
    ensures
        r is Ok <==> csv_records(content@) is Some,
        r matches Ok(trades) ==> trades_of_records(trades@, csv_records(content@)->Some_0),
{
    match read_records(content) {
        Ok(records) => Ok(trades_from_records(&records)),
        Err(error) => Err(IngestError { message: error_text(&error) }),
    }
}

} // verus!
