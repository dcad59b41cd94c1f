//! Binance klines: the candle model, reading rows of the REST klines answer, and
//! turning a websocket kline event into a closed candle.
use vstd::prelude::*;
use crate::calendar::{millis_is_valid, utc_millis_valid};
use crate::decimal::{parse_fixed8, parse_fixed8_spec};
use crate::text::{chars_of, push_str, string_of};

verus! {

/// A candle. Times are UTC milliseconds; prices and volume are counts of 10^-8 units
/// (the eight decimals that Binance quotes).
#[derive(Clone, Copy, Debug, PartialEq, Eq)]
pub struct Candle {
    pub open_time: i64,
    pub close_time: i64,
    pub open: u64,
    pub high: u64,
    pub low: u64,
    pub close: u64,
    pub volume: u64,
    pub is_closed: bool,
}

impl Candle {
    /// A candle is green when it closes at or above its open.
    pub fn is_green(&self) -> (r: bool)
        ensures
            r == (self.close >= self.open),
    {
        self.close >= self.open
    }

    /// A candle is red when it closes below its open.
    pub fn is_red(&self) -> (r: bool)
        ensures
            r == (self.close < self.open),
    {
        self.close < self.open
    }

    /// The close time of the candle that follows this one and lasts as long: the
    /// candle a signal on this one predicts. `None` when the times are not in order
    /// or the result does not fit in an `i64`.
    pub fn next_close_time(&self) -> (r: Option<i64>)
        ensures
            ({
                let next = 2 * self.close_time - self.open_time + 1;
                r == if self.open_time <= self.close_time && next <= i64::MAX {
                    Some(next as i64)
                } else {
                    None::<i64>
                }
            }),
    {
        if self.open_time > self.close_time {
            return None;
        }
        let next: i128 = 2 * (self.close_time as i128) - (self.open_time as i128) + 1;
        if next > i64::MAX as i128 {
            return None;
        }
        Some(next as i64)
    }
}

/// One cell of a klines row as the JSON answer holds it: an integer that fits in an
/// `i64`, a string, or anything else.
#[derive(Clone, Debug)]
pub enum KlineCell {
    Int(i64),
    Text(String),
    Other,
}

pub open spec fn cell_int(c: KlineCell) -> Option<i64> {
    match c {
        KlineCell::Int(v) => Some(v),
        _ => None,
    }
}

pub open spec fn cell_price(c: KlineCell) -> Option<u64> {
    match c {
        KlineCell::Text(s) => parse_fixed8_spec(s@),
        _ => None,
    }
}

/// The candle of one klines row: the row must be an array of at least seven cells,
/// cells 0 and 6 valid UTC millisecond timestamps, cells 1 to 5 number texts (as `f64` reads them) of at most `u64::MAX` units of 10^-8.
pub open spec fn kline_row_candle(row: Option<Vec<KlineCell>>) -> Option<Candle> {
    match row {
        None => None,
        Some(v) => {
            let cells = v@;
            if cells.len() < 7 {
                None
            } else {
                let ot = cell_int(cells[0]);
                let ct = cell_int(cells[6]);
                let o = cell_price(cells[1]);
                let h = cell_price(cells[2]);
                let l = cell_price(cells[3]);
                let c = cell_price(cells[4]);
                let vol = cell_price(cells[5]);
                if ot is Some && utc_millis_valid(ot->0) && ct is Some && utc_millis_valid(ct->0)
                    && o is Some && h is Some && l is Some && c is Some && vol is Some {
                    Some(Candle {
                        open_time: ot->0,
                        close_time: ct->0,
                        open: o->0,
                        high: h->0,
                        low: l->0,
                        close: c->0,
                        volume: vol->0,
                        is_closed: true,
                    })
                } else {
                    None
                }
            }
        },
    }
}

/// The candles of the rows that read as candles, in row order.
pub open spec fn klines_candles(rows: Seq<Option<Vec<KlineCell>>>) -> Seq<Candle>
    decreases rows.len(),
{
    if rows.len() == 0 {
        Seq::empty()
    } else {
        let prev = klines_candles(rows.drop_last());
        match kline_row_candle(rows.last()) {
            Some(c) => prev.push(c),
            None => prev,
        }
    }
}

fn read_int(c: &KlineCell) -> (r: Option<i64>)
    ensures
        r == cell_int(*c),
{
    match c {
        KlineCell::Int(v) => Some(*v),
        _ => None,
    }
}

fn read_price(c: &KlineCell) -> (r: Option<u64>)
    ensures
        r == cell_price(*c),
{
    match c {
        KlineCell::Text(s) => parse_fixed8(s.as_str()),
        _ => None,
    }
}

fn read_kline_row(row: &Option<Vec<KlineCell>>) -> (r: Option<Candle>)
    ensures
        r == kline_row_candle(*row),
{
    match row {
        None => None,
        Some(cells) => {
            if cells.len() < 7 {
                return None;
            }
            let ot = read_int(&cells[0]);
            let ct = read_int(&cells[6]);
            let o = read_price(&cells[1]);
            let h = read_price(&cells[2]);
            let l = read_price(&cells[3]);
            let c = read_price(&cells[4]);
            let vol = read_price(&cells[5]);
            match (ot, ct, o, h, l, c, vol) {
                (Some(ot), Some(ct), Some(o), Some(h), Some(l), Some(c), Some(vol)) => {
                    if millis_is_valid(ot) && millis_is_valid(ct) {
                        Some(Candle {
                            open_time: ot,
                            close_time: ct,
                            open: o,
                            high: h,
                            low: l,
                            close: c,
                            volume: vol,
                            is_closed: true,
                        })
                    } else {
                        None
                    }
                },
                _ => None,
            }
        },
    }
}

/// Reads the rows of a Binance REST klines answer into candles; rows that are not
/// well-formed are skipped.
pub fn parse_klines(rows: Vec<Option<Vec<KlineCell>>>) -> (r: Vec<Candle>)
    ensures
        r@ == klines_candles(rows@),
{
    let mut out: Vec<Candle> = Vec::new();
    let mut i: usize = 0;
    while i < rows.len()
        invariant
            i <= rows.len(),
            out@ == klines_candles(rows@.take(i as int)),
        decreases rows.len() - i,
    {
        let c = read_kline_row(&rows[i]);
        match c {
            Some(candle) => out.push(candle),
            None => {},
        }
        i = i + 1;
        assert(rows@.take(i as int).drop_last() =~= rows@.take((i - 1) as int));
    }
    assert(rows@.take(rows.len() as int) =~= rows@);
    out
}

/// The candles of `s` whose close time is before `now_ms`, in order: a klines answer
/// ends with the candle still open, which is not a closed candle.
pub open spec fn closed_before(s: Seq<Candle>, now_ms: i64) -> Seq<Candle>
    decreases s.len(),
{
    if s.len() == 0 {
        s
    } else {
        let p = closed_before(s.drop_last(), now_ms);
        if s.last().close_time < now_ms { p.push(s.last()) } else { p }
    }
}

/// Keeps the candles already closed at `now_ms`.
pub fn keep_closed(candles: &Vec<Candle>, now_ms: i64) -> (r: Vec<Candle>)
    ensures
        r@ == closed_before(candles@, now_ms),
{
    let mut out: Vec<Candle> = Vec::new();
    let mut i: usize = 0;
    while i < candles.len()
        invariant
            i <= candles.len(),
            out@ == closed_before(candles@.take(i as int), now_ms),
        decreases candles.len() - i,
    {
        if candles[i].close_time < now_ms {
            out.push(candles[i]);
        }
        i = i + 1;
        assert(candles@.take(i as int).drop_last() =~= candles@.take((i - 1) as int));
    }
    assert(candles@.take(candles.len() as int) =~= candles@);
    out
}

/// A kline event of the websocket stream, with prices as the texts Binance sends.
#[derive(Clone, Debug)]
pub struct KlineEvent {
    pub open_time: i64,
    pub close_time: i64,
    pub open: String,
    pub high: String,
    pub low: String,
    pub close: String,
    pub volume: String,
    pub is_closed: bool,
}

/// Which price of a kline event was refused.
#[derive(Clone, Copy, Debug, PartialEq, Eq)]
pub enum PriceField {
    Open,
    High,
    Low,
    Close,
}

/// Why a kline event gave no candle.
#[derive(Clone, Debug)]
pub enum KlineRejection {
    /// The kline is still open.
    NotClosed,
    /// The open time is out of chrono's range.
    InvalidOpenTime(i64),
    /// The close time is out of chrono's range.
    InvalidCloseTime(i64),
    /// A price is not a number text, or is not positive once held in 10^-8 units.
    InvalidPrice(PriceField, String),
}

/// A price of an event: a number text (as `f64` reads it) of a positive count of
/// 10^-8 units.
pub open spec fn positive_price(s: Seq<char>) -> Option<u64> {
    let p = parse_fixed8_spec(s);
    if p is Some && p->0 > 0 { p } else { None }
}

/// The candle of a kline event, or why there is none. Checks run in this order: the
/// kline is closed, open time, close time, then open, high, low and close prices,
/// each a positive number; a volume that does not read as a count of 10^-8 units
/// (unreadable, negative, NaN, too large) is taken as zero.
pub open spec fn event_candle(ev: KlineEvent) -> Result<Candle, KlineRejection> {
    let o = positive_price(ev.open@);
    let h = positive_price(ev.high@);
    let l = positive_price(ev.low@);
    let c = positive_price(ev.close@);
    let vol = parse_fixed8_spec(ev.volume@);
    if !ev.is_closed {
        Err(KlineRejection::NotClosed)
    } else if !utc_millis_valid(ev.open_time) {
        Err(KlineRejection::InvalidOpenTime(ev.open_time))
    } else if !utc_millis_valid(ev.close_time) {
        Err(KlineRejection::InvalidCloseTime(ev.close_time))
    } else if o is None {
        Err(KlineRejection::InvalidPrice(PriceField::Open, ev.open))
    } else if h is None {
        Err(KlineRejection::InvalidPrice(PriceField::High, ev.high))
    } else if l is None {
        Err(KlineRejection::InvalidPrice(PriceField::Low, ev.low))
    } else if c is None {
        Err(KlineRejection::InvalidPrice(PriceField::Close, ev.close))
    } else {
        Ok(Candle {
            open_time: ev.open_time,
            close_time: ev.close_time,
            open: o->0,
            high: h->0,
            low: l->0,
            close: c->0,
            volume: if vol is Some { vol->0 } else { 0 },
            is_closed: true,
        })
    }
}

/// The candle of a closed event carries the event's times, reads each price from its
/// own text (a positive count of 10^-8 units), and the volume from its text (0 when it
/// does not read); an event that is not closed gives no candle.
pub proof fn lemma_event_candle_fields(ev: KlineEvent)
    ensures
        !ev.is_closed ==> event_candle(ev) == Err::<Candle, KlineRejection>(KlineRejection::NotClosed),
        event_candle(ev) matches Ok(c) ==> {
            &&& ev.is_closed && c.is_closed
            &&& c.open_time == ev.open_time && c.close_time == ev.close_time
            &&& parse_fixed8_spec(ev.open@) == Some(c.open) && c.open > 0
            &&& parse_fixed8_spec(ev.high@) == Some(c.high) && c.high > 0
            &&& parse_fixed8_spec(ev.low@) == Some(c.low) && c.low > 0
            &&& parse_fixed8_spec(ev.close@) == Some(c.close) && c.close > 0
            &&& c.volume == (match parse_fixed8_spec(ev.volume@) { Some(v) => v, None => 0u64 })
        },
{
}

/// The candle of a klines row takes its open time from cell 0, its prices and
/// volume from the texts of cells 1 to 5 in order, and its close time from cell 6.
pub proof fn lemma_kline_row_fields(row: Option<Vec<KlineCell>>)
    ensures
        kline_row_candle(row) matches Some(c) ==> {
            let cells = row->0@;
            &&& cells.len() >= 7
            &&& cells[0] == KlineCell::Int(c.open_time)
            &&& cells[6] == KlineCell::Int(c.close_time)
            &&& (cells[1] matches KlineCell::Text(t) && parse_fixed8_spec(t@) == Some(c.open))
            &&& (cells[2] matches KlineCell::Text(t) && parse_fixed8_spec(t@) == Some(c.high))
            &&& (cells[3] matches KlineCell::Text(t) && parse_fixed8_spec(t@) == Some(c.low))
            &&& (cells[4] matches KlineCell::Text(t) && parse_fixed8_spec(t@) == Some(c.close))
            &&& (cells[5] matches KlineCell::Text(t) && parse_fixed8_spec(t@) == Some(c.volume))
            &&& c.is_closed
        },
{
}

fn read_positive_price(s: &String) -> (r: Option<u64>)
    ensures
        r == positive_price(s@),
{
    match parse_fixed8(s.as_str()) {
        Some(v) => if v > 0 { Some(v) } else { None },
        None => None,
    }
}

/// Turns a websocket kline event into a closed candle, or says why it is skipped.
pub fn closed_candle_from_event(ev: &KlineEvent) -> (r: Result<Candle, KlineRejection>)
    ensures
        r == event_candle(*ev),
{
    if !ev.is_closed {
        return Err(KlineRejection::NotClosed);
    }
    if !millis_is_valid(ev.open_time) {
        return Err(KlineRejection::InvalidOpenTime(ev.open_time));
    }
    if !millis_is_valid(ev.close_time) {
        return Err(KlineRejection::InvalidCloseTime(ev.close_time));
    }
    let o = match read_positive_price(&ev.open) {
        Some(v) => v,
        None => return Err(KlineRejection::InvalidPrice(PriceField::Open, ev.open.clone())),
    };
    let h = match read_positive_price(&ev.high) {
        Some(v) => v,
        None => return Err(KlineRejection::InvalidPrice(PriceField::High, ev.high.clone())),
    };
    let l = match read_positive_price(&ev.low) {
        Some(v) => v,
        None => return Err(KlineRejection::InvalidPrice(PriceField::Low, ev.low.clone())),
    };
    let c = match read_positive_price(&ev.close) {
        Some(v) => v,
        None => return Err(KlineRejection::InvalidPrice(PriceField::Close, ev.close.clone())),
    };
    let volume = match parse_fixed8(ev.volume.as_str()) {
        Some(v) => v,
        None => 0,
    };
    Ok(Candle {
        open_time: ev.open_time,
        close_time: ev.close_time,
        open: o,
        high: h,
        low: l,
        close: c,
        volume,
        is_closed: true,
    })
}

/// The websocket address of the kline stream: `{url}/{symbol}@kline_{interval}`.
pub fn kline_stream_url(url: &str, symbol: &str, interval: &str) -> (r: String)
    ensures
        r@ == url@ + seq!['/'] + symbol@ + "@kline_"@ + interval@,
{
    let mut v: Vec<char> = chars_of(url);
    v.push('/');
    push_str(&mut v, symbol);
    push_str(&mut v, "@kline_");
    push_str(&mut v, interval);
    string_of(&v)
}


/// What `str::to_uppercase` returns for a text.
pub uninterp spec fn unicode_upper(s: Seq<char>) -> Seq<char>;

/// `str::to_uppercase`. The contract names its result, and states that on ASCII text
/// it maps 'a'..='z' to 'A'..='Z' and keeps every other character.
#[verifier::external_body]
fn upper_case(s: &str) -> (r: String)
    ensures
        r@ == unicode_upper(s@),
        crate::text::is_ascii_text(s@) ==> r@ == crate::text::ascii_upper_seq(s@),
{
    s.to_uppercase()
}

/// The REST address that asks Binance for the last `limit` klines of `symbol`.
pub fn klines_rest_url(symbol: &str, interval: &str, limit: u32) -> (r: String)
    ensures
        r@ == "https://api.binance.com/api/v3/klines?symbol="@ + unicode_upper(symbol@)
            + "&interval="@ + interval@ + "&limit="@ + crate::decimal::nat_digits(limit as nat),
{
    let mut v: Vec<char> = chars_of("https://api.binance.com/api/v3/klines?symbol=");
    let up = upper_case(symbol);
    push_str(&mut v, up.as_str());
    push_str(&mut v, "&interval=");
    push_str(&mut v, interval);
    push_str(&mut v, "&limit=");
    crate::decimal::push_u64_digits(&mut v, limit as u64);
    string_of(&v)
}

} // verus!
