//! The trade journal (`trades.csv`): its rows, the search for a signal key, and the
//! rewrite of one field of a trade; and the console lines of the bot.
use csv::{ReaderBuilder, WriterBuilder};
use vstd::prelude::*;
use crate::decimal::{int_digits, push_i64_digits, push_two_decimals, push_fixed8_2dp, push_signed_fixed8_2dp, push_fixed8_plain, push_u128_digits, two_decimals_text, rounded_cents, signed_2dp_text, div_round_even, div_round_half_even, fixed8_plain_text, nat_digits};
use crate::calendar::{push_utc_datetime, utc_datetime_text, MILLIS_RANGE};
use crate::strategy::{prediction_text, Rsi, Signal};
use crate::config::{execution_mode_text, ExecutionMode};
use crate::polymarket::{new_uuid_text, OrderResult};
use crate::calendar::{chrono_rfc3339, rfc3339_of_millis};
use crate::text::{chars_of, join_path, join_path_exec, push_str, str_eq, string_of};

verus! {

/// One row of the journal.
#[derive(Clone, Debug)]
pub struct TradeRecord {
    pub trade_id: String,
    pub signal_key: String,
    pub symbol: String,
    pub interval: String,
    pub signal_close_time_utc: String,
    pub target_candle_open_time_utc: String,
    pub prediction: String,
    pub entry_side: String,
    pub entry_order_type: String,
    pub order_status: String,
    pub signal_to_submit_start_ms: i64,
    pub submit_start_to_ack_ms: i64,
    pub signal_to_ack_ms: i64,
    pub trade_open_to_order_ack_ms: i64,
    pub outcome: String,
}

/// The column names of the journal, in order.
pub open spec fn journal_headers() -> Seq<Seq<char>> {
    seq![
        "trade_id"@, "signal_key"@, "symbol"@, "interval"@, "signal_close_time_utc"@,
        "target_candle_open_time_utc"@, "prediction"@, "entry_side"@, "entry_order_type"@,
        "order_status"@, "signal_to_submit_start_ms"@, "submit_start_to_ack_ms"@,
        "signal_to_ack_ms"@, "trade_open_to_order_ack_ms"@, "outcome"@
    ]
}

/// The fields of a record, in the order of the columns.
pub open spec fn record_fields(r: TradeRecord) -> Seq<Seq<char>> {
    seq![
        r.trade_id@, r.signal_key@, r.symbol@, r.interval@, r.signal_close_time_utc@,
        r.target_candle_open_time_utc@, r.prediction@, r.entry_side@, r.entry_order_type@,
        r.order_status@, int_digits(r.signal_to_submit_start_ms as int),
        int_digits(r.submit_start_to_ack_ms as int), int_digits(r.signal_to_ack_ms as int),
        int_digits(r.trade_open_to_order_ack_ms as int), r.outcome@
    ]
}

fn text(s: &str) -> (r: String)
    ensures
        r@ == s@,
{
    string_of(&chars_of(s))
}

fn int_text(n: i64) -> (r: String)
    ensures
        r@ == int_digits(n as int),
{
    let mut v: Vec<char> = Vec::new();
    push_i64_digits(&mut v, n);
    assert(v@ =~= int_digits(n as int));
    string_of(&v)
}

/// Milliseconds from `from` to `to`, saturated to the `i64` range.
pub open spec fn latency_ms(from: i64, to: i64) -> i64 {
    let d = to as int - from as int;
    if d > i64::MAX { i64::MAX } else if d < i64::MIN { i64::MIN } else { d as i64 }
}

pub fn latency_between(from: i64, to: i64) -> (r: i64)
    ensures
        r == latency_ms(from, to),
{
    let d: i128 = to as i128 - from as i128;
    if d > i64::MAX as i128 {
        i64::MAX
    } else if d < i64::MIN as i128 {
        i64::MIN
    } else {
        d as i64
    }
}

/// The column names of the journal.
pub fn journal_header_row() -> (r: Vec<String>)
    ensures
        r.deep_view() == journal_headers(),
{
    let mut v: Vec<String> = Vec::new();
    v.push(text("trade_id"));
    v.push(text("signal_key"));
    v.push(text("symbol"));
    v.push(text("interval"));
    v.push(text("signal_close_time_utc"));
    v.push(text("target_candle_open_time_utc"));
    v.push(text("prediction"));
    v.push(text("entry_side"));
    v.push(text("entry_order_type"));
    v.push(text("order_status"));
    v.push(text("signal_to_submit_start_ms"));
    v.push(text("submit_start_to_ack_ms"));
    v.push(text("signal_to_ack_ms"));
    v.push(text("trade_open_to_order_ack_ms"));
    v.push(text("outcome"));
    assert(v.deep_view() =~= journal_headers());
    v
}

impl TradeRecord {
    /// The journal row of an order placed for a signal: a fresh trade id, the
    /// latencies from the signal's arrival (`signal_received_at`) and from the start of
    /// submission (`submit_started_at`) to the acknowledgement, and from the close of
    /// the target candle to it; the outcome is "PENDING". Times are UTC milliseconds.
    pub fn for_order(
        signal_key: &str,
        symbol: &str,
        interval: &str,
        signal: &Signal,
        target_candle_close_time: i64,
        mode: ExecutionMode,
        order: &OrderResult,
        signal_received_at: i64,
        submit_started_at: i64,
    ) -> (r: TradeRecord)
        requires
            -MILLIS_RANGE <= signal.signal_candle_close_time <= MILLIS_RANGE,
            -MILLIS_RANGE <= target_candle_close_time <= MILLIS_RANGE,
        ensures
            r.trade_id@.len() == 36,
            r.signal_key@ == signal_key@,
            r.symbol@ == symbol@,
            r.interval@ == interval@,
            r.signal_close_time_utc@ == chrono_rfc3339(signal.signal_candle_close_time),
            r.target_candle_open_time_utc@ == chrono_rfc3339(target_candle_close_time),
            r.prediction@ == prediction_text(signal.prediction),
            r.entry_side@ == "BUY"@,
            r.entry_order_type@ == execution_mode_text(mode),
            r.order_status@ == order.status@,
            r.signal_to_submit_start_ms == latency_ms(signal_received_at, submit_started_at),
            r.submit_start_to_ack_ms == latency_ms(submit_started_at, order.ack_at),
            r.signal_to_ack_ms == latency_ms(signal_received_at, order.ack_at),
            r.trade_open_to_order_ack_ms == latency_ms(target_candle_close_time, order.ack_at),
            r.outcome@ == "PENDING"@,
    {
        TradeRecord {
            trade_id: new_uuid_text(),
            signal_key: text(signal_key),
            symbol: text(symbol),
            interval: text(interval),
            signal_close_time_utc: rfc3339_of_millis(signal.signal_candle_close_time),
            target_candle_open_time_utc: rfc3339_of_millis(target_candle_close_time),
            prediction: signal.prediction.to_text(),
            entry_side: text("BUY"),
            entry_order_type: text(mode.as_str()),
            order_status: order.status.clone(),
            signal_to_submit_start_ms: latency_between(signal_received_at, submit_started_at),
            submit_start_to_ack_ms: latency_between(submit_started_at, order.ack_at),
            signal_to_ack_ms: latency_between(signal_received_at, order.ack_at),
            trade_open_to_order_ack_ms: latency_between(target_candle_close_time, order.ack_at),
            outcome: text("PENDING"),
        }
    }

    /// The fields of the record, in the order of the journal's columns.
    pub fn fields(&self) -> (r: Vec<String>)
        ensures
            r.deep_view() == record_fields(*self),
    {
        let mut v: Vec<String> = Vec::new();
        v.push(self.trade_id.clone());
        v.push(self.signal_key.clone());
        v.push(self.symbol.clone());
        v.push(self.interval.clone());
        v.push(self.signal_close_time_utc.clone());
        v.push(self.target_candle_open_time_utc.clone());
        v.push(self.prediction.clone());
        v.push(self.entry_side.clone());
        v.push(self.entry_order_type.clone());
        v.push(self.order_status.clone());
        v.push(int_text(self.signal_to_submit_start_ms));
        v.push(int_text(self.submit_start_to_ack_ms));
        v.push(int_text(self.signal_to_ack_ms));
        v.push(int_text(self.trade_open_to_order_ack_ms));
        v.push(self.outcome.clone());
        assert(v.deep_view() =~= record_fields(*self));
        v
    }
}

/// The rows the csv crate reads from a text, up to its first malformed record, and
/// whether it read the whole text.
pub uninterp spec fn csv_read(content: Seq<char>) -> (Seq<Seq<Seq<char>>>, bool);

/// Reads every record of a CSV text with `csv::ReaderBuilder` (no header handling,
/// rows of unequal length refused), stopping at the first error. The contract names
/// the rows and the completeness flag as `csv_read` of the text.
#[verifier::external_body]
fn csv_read_rows(content: &str) -> (r: (Vec<Vec<String>>, bool))
    ensures
        (r.0.deep_view(), r.1) == csv_read(content@),
{
    let mut rdr = ReaderBuilder::new().has_headers(false).from_reader(content.as_bytes());
    let mut rows: Vec<Vec<String>> = Vec::new();
    for rec in rdr.records() {
        match rec {
            Ok(rec) => rows.push(rec.iter().map(|f| f.to_string()).collect()),
            Err(_) => return (rows, false),
        }
    }
    (rows, true)
}

/// The bytes the csv crate writes for rows of fields.
pub uninterp spec fn csv_encoded(rows: Seq<Seq<Seq<char>>>) -> Seq<u8>;

/// Writes rows with `csv::WriterBuilder` (no header row, default quoting) into a byte
/// buffer. The contract names the bytes as `csv_encoded` of the rows.
#[verifier::external_body]
fn csv_write_rows(rows: &Vec<Vec<String>>) -> (r: Vec<u8>)
    ensures
        r@ == csv_encoded(rows.deep_view()),
{
    let mut buf: Vec<u8> = Vec::new();
    {
        let mut wtr = WriterBuilder::new().has_headers(false).from_writer(&mut buf);
        for row in rows {
            let _ = wtr.write_record(row);
        }
        let _ = wtr.flush();
    }
    buf
}

/// Why the journal could not be searched or rewritten.
#[derive(Clone, Copy, Debug, PartialEq, Eq)]
pub enum JournalError {
    /// A record is malformed.
    Unreadable,
    /// The header lacks the column that is needed.
    MissingColumn,
}

/// The position of the first `name` in `header`.
pub open spec fn column_of(header: Seq<Seq<char>>, name: Seq<char>) -> Option<int>
    decreases header.len(),
{
    if header.len() == 0 {
        None
    } else if header[0] == name {
        Some(0)
    } else {
        match column_of(header.drop_first(), name) {
            Some(i) => Some(i + 1),
            None => None,
        }
    }
}

/// The header row of parsed rows (empty when there is no row).
pub open spec fn header_of(rows: Seq<Seq<Seq<char>>>) -> Seq<Seq<char>> {
    if rows.len() > 0 { rows[0] } else { Seq::empty() }
}

/// Whether a record after the header has `value` in column `col`.
pub open spec fn some_record_has(rows: Seq<Seq<Seq<char>>>, col: int, value: Seq<char>) -> bool {
    exists|k: int| 1 <= k < rows.len() && col < rows[k].len() && (#[trigger] rows[k])[col] == value
}

/// What the search for a signal key answers on the rows read from the journal.
pub open spec fn signal_key_search(read: (Seq<Seq<Seq<char>>>, bool), key: Seq<char>) -> Result<bool, JournalError> {
    let rows = read.0;
    let col = column_of(header_of(rows), "signal_key"@);
    if col is None {
        Err(JournalError::MissingColumn)
    } else if some_record_has(rows, col->0, key) {
        Ok(true)
    } else if !read.1 {
        Err(JournalError::Unreadable)
    } else {
        Ok(false)
    }
}

/// A record with column `col` set to `value` when its trade id (column `id_col`)
/// is `trade_id`.
pub open spec fn set_field_if(row: Seq<Seq<char>>, id_col: int, trade_id: Seq<char>, col: int, value: Seq<char>) -> Seq<Seq<char>> {
    if 0 <= id_col < row.len() && row[id_col] == trade_id && 0 <= col < row.len() {
        row.update(col, value)
    } else {
        row
    }
}

/// The rows with column `column` set to `value` in the records of trade `trade_id`;
/// `None` when the header lacks the column. The trade id is read from the "trade_id"
/// column, or from the first column when there is none.
pub open spec fn rows_with_field(rows: Seq<Seq<Seq<char>>>, trade_id: Seq<char>, column: Seq<char>, value: Seq<char>) -> Option<Seq<Seq<Seq<char>>>> {
    let header = header_of(rows);
    let col = column_of(header, column);
    let idc = column_of(header, "trade_id"@);
    let id_col = if idc is Some { idc->0 } else { 0 };
    if col is None {
        None
    } else {
        Some(Seq::new(rows.len(), |k: int| if k == 0 { rows[0] } else { set_field_if(rows[k], id_col, trade_id, col->0, value) }))
    }
}

/// Rewriting a field of a trade keeps the header and the number of rows, leaves the
/// rows of every other trade unchanged, and in the trade's rows changes only that
/// column.
pub proof fn lemma_field_rewrite_is_local(rows: Seq<Seq<Seq<char>>>, trade_id: Seq<char>, column: Seq<char>, value: Seq<char>)
    requires
        rows_with_field(rows, trade_id, column, value) is Some,
    ensures
        ({
            let out = rows_with_field(rows, trade_id, column, value)->0;
            let header = header_of(rows);
            let col = column_of(header, column)->0;
            let idc = column_of(header, "trade_id"@);
            let id_col = if idc is Some { idc->0 } else { 0 };
            &&& out.len() == rows.len()
            &&& out[0] == rows[0]
            &&& header[col] == column
            &&& forall|k: int| 1 <= k < rows.len() && !(0 <= id_col < rows[k].len() && rows[k][id_col] == trade_id)
                ==> #[trigger] out[k] == rows[k]
            &&& forall|k: int, j: int| 1 <= k < rows.len() && 0 <= j < rows[k].len() && j != col
                ==> #[trigger] out[k][j] == rows[k][j]
            &&& forall|k: int| 1 <= k < rows.len() ==> (#[trigger] out[k]).len() == rows[k].len()
        }),
{
    lemma_column_of_bound(header_of(rows), column);
}

/// What rewriting one field of a trade gives, from the rows read from the journal.
pub open spec fn field_rewrite(read: (Seq<Seq<Seq<char>>>, bool), trade_id: Seq<char>, column: Seq<char>, value: Seq<char>) -> Result<Seq<u8>, JournalError> {
    if !read.1 {
        Err(JournalError::Unreadable)
    } else {
        let new_rows = rows_with_field(read.0, trade_id, column, value);
        if new_rows is None {
            Err(JournalError::MissingColumn)
        } else {
            Ok(csv_encoded(new_rows->0))
        }
    }
}

/// The first position of `name` in a header row.
pub fn find_column(header: &Vec<String>, name: &str) -> (r: Option<usize>)
    ensures
        r is Some <==> column_of(header.deep_view(), name@) is Some,
        r matches Some(i) ==> i as int == column_of(header.deep_view(), name@)->0,
{
    let ghost h = header.deep_view();
    let mut i: usize = 0;
    while i < header.len()
        invariant
            i <= header.len(),
            h == header.deep_view(),
            forall|j: int| 0 <= j < i ==> h[j] != name@,
        decreases header.len() - i,
    {
        if str_eq(header[i].as_str(), name) {
            proof { lemma_column_of_first(h, name@, i as int); }
            return Some(i);
        }
        i = i + 1;
    }
    proof { lemma_column_of_none(h, name@); }
    None
}

proof fn lemma_column_of_first(h: Seq<Seq<char>>, name: Seq<char>, i: int)
    requires
        0 <= i < h.len(),
        h[i] == name,
        forall|j: int| 0 <= j < i ==> h[j] != name,
    ensures
        column_of(h, name) == Some(i),
    decreases i,
{
    if i > 0 {
        let t = h.drop_first();
        assert forall|j: int| 0 <= j < i - 1 implies t[j] != name by {
            assert(t[j] == h[j + 1]);
        }
        lemma_column_of_first(t, name, i - 1);
    }
}

proof fn lemma_column_of_none(h: Seq<Seq<char>>, name: Seq<char>)
    requires
        forall|j: int| 0 <= j < h.len() ==> h[j] != name,
    ensures
        column_of(h, name) is None,
    decreases h.len(),
{
    if h.len() > 0 {
        let t = h.drop_first();
        assert forall|j: int| 0 <= j < t.len() implies t[j] != name by {
            assert(t[j] == h[j + 1]);
        }
        lemma_column_of_none(t, name);
    }
}

proof fn lemma_column_of_bound(h: Seq<Seq<char>>, name: Seq<char>)
    ensures
        column_of(h, name) matches Some(i) ==> 0 <= i < h.len() && h[i] == name,
    decreases h.len(),
{
    if h.len() > 0 {
        lemma_column_of_bound(h.drop_first(), name);
    }
}

fn clone_row(row: &Vec<String>) -> (r: Vec<String>)
    ensures
        r.deep_view() == row.deep_view(),
{
    let mut out: Vec<String> = Vec::new();
    let mut i: usize = 0;
    while i < row.len()
        invariant
            i <= row.len(),
            out@.len() == i,
            forall|j: int| 0 <= j < i ==> (#[trigger] out@[j])@ == row@[j]@,
        decreases row.len() - i,
    {
        out.push(row[i].clone());
        i = i + 1;
    }
    assert(out.deep_view() =~= row.deep_view());
    out
}

/// Sets column `column` to `value` in the records of trade `trade_id`.
pub fn set_trade_field(rows: &Vec<Vec<String>>, trade_id: &str, column: &str, value: &str) -> (r: Option<Vec<Vec<String>>>)
    ensures
        r is Some <==> rows_with_field(rows.deep_view(), trade_id@, column@, value@) is Some,
        r matches Some(v) ==> v.deep_view() == rows_with_field(rows.deep_view(), trade_id@, column@, value@)->0,
{
    let ghost d = rows.deep_view();
    if rows.len() == 0 {
        return None;
    }
    let header = &rows[0];
    let col = match find_column(header, column) {
        Some(c) => c,
        None => return None,
    };
    let id_col = match find_column(header, "trade_id") {
        Some(c) => c,
        None => 0,
    };
    let ghost target = rows_with_field(d, trade_id@, column@, value@)->0;
    let mut out: Vec<Vec<String>> = Vec::new();
    out.push(clone_row(header));
    let mut k: usize = 1;
    while k < rows.len()
        invariant
            1 <= k <= rows.len(),
            d == rows.deep_view(),
            target.len() == d.len(),
            forall|j: int| 0 <= j < d.len() ==> #[trigger] target[j] == (if j == 0 { d[0] } else {
                set_field_if(d[j], id_col as int, trade_id@, col as int, value@) }),
            out.deep_view() == target.take(k as int),
        decreases rows.len() - k,
    {
        let row = &rows[k];
        let mut new_row = clone_row(row);
        assert(d[k as int] == row.deep_view());
        assert(new_row@.len() == new_row.deep_view().len());
        assert(row@.len() == row.deep_view().len());
        if id_col < row.len() && str_eq(row[id_col].as_str(), trade_id) && col < row.len() {
            assert(row.deep_view()[id_col as int] == row@[id_col as int]@);
            new_row.set(col, text(value));
            assert(new_row.deep_view() =~= d[k as int].update(col as int, value@));
        } else {
            assert(id_col < row.len() ==> row.deep_view()[id_col as int] == row@[id_col as int]@);
        }
        assert(new_row.deep_view() == target[k as int]);
        let ghost before = out.deep_view();
        out.push(new_row);
        k = k + 1;
        assert(out.deep_view() =~= before.push(target[k - 1]));
        assert(target.take(k as int) =~= target.take(k - 1).push(target[k - 1]));
    }
    assert(target.take(rows.len() as int) =~= target);
    Some(out)
}

/// Where the journal of trades lives.
pub struct TradeLogger {
    csv_path: String,
}

/// A journal needs its header row when the file does not exist or is empty
/// (`size` is `None` when it cannot be read).
pub open spec fn needs_header_spec(file_exists: bool, size: Option<u64>) -> bool {
    !file_exists || size is None || size == Some(0u64)
}

impl TradeLogger {
    /// The journal `trades.csv` of the logs directory.
    pub fn new(logs_dir: &str) -> (r: Self)
        ensures
            r.path_spec() == join_path(logs_dir@, "trades.csv"@),
    {
        TradeLogger { csv_path: join_path_exec(logs_dir, "trades.csv") }
    }

    pub closed spec fn path_spec(&self) -> Seq<char> {
        self.csv_path@
    }

    /// The file of the journal.
    pub fn path(&self) -> (r: &String)
        ensures
            r@ == self.path_spec(),
    {
        &self.csv_path
    }

    /// Whether the header row must be written before the journal is used.
    pub fn needs_header(file_exists: bool, size: Option<u64>) -> (r: bool)
        ensures
            r == needs_header_spec(file_exists, size),
    {
        match size {
            Some(n) => !file_exists || n == 0,
            None => true,
        }
    }

    /// The bytes of the header row.
    pub fn header_bytes() -> (r: Vec<u8>)
        ensures
            r@ == csv_encoded(seq![journal_headers()]),
    {
        let mut rows: Vec<Vec<String>> = Vec::new();
        rows.push(journal_header_row());
        assert(rows.deep_view() =~= seq![journal_headers()]);
        csv_write_rows(&rows)
    }

    /// The bytes that append one record to the journal.
    pub fn record_bytes(record: &TradeRecord) -> (r: Vec<u8>)
        ensures
            r@ == csv_encoded(seq![record_fields(*record)]),
    {
        let mut rows: Vec<Vec<String>> = Vec::new();
        rows.push(record.fields());
        assert(rows.deep_view() =~= seq![record_fields(*record)]);
        csv_write_rows(&rows)
    }

    /// Whether a record of the journal text has the signal key.
    pub fn has_signal_key(&self, content: &str, signal_key: &str) -> (r: Result<bool, JournalError>)
        ensures
            r == signal_key_search(csv_read(content@), signal_key@),
    {
        let (rows, complete) = csv_read_rows(content);
        let ghost d = rows.deep_view();
        if rows.len() == 0 {
            return Err(JournalError::MissingColumn);
        }
        assert(header_of(d) == rows[0].deep_view());
        let col = match find_column(&rows[0], "signal_key") {
            Some(c) => c,
            None => return Err(JournalError::MissingColumn),
        };
        let mut k: usize = 1;
        while k < rows.len()
            invariant
                1 <= k <= rows.len(),
                d == rows.deep_view(),
                (d, complete) == csv_read(content@),
                column_of(header_of(d), "signal_key"@) == Some(col as int),
                forall|j: int| 1 <= j < k ==> !(col < d[j].len() && (#[trigger] d[j])[col as int] == signal_key@),
            decreases rows.len() - k,
        {
            let row = &rows[k];
            assert(d[k as int] == row.deep_view());
            if col < row.len() && str_eq(row[col].as_str(), signal_key) {
                assert(row.deep_view()[col as int] == row@[col as int]@);
                assert(d[k as int][col as int] == signal_key@);
                return Ok(true);
            }
            assert(col < row.len() ==> row.deep_view()[col as int] == row@[col as int]@);
            k = k + 1;
        }
        if !complete {
            return Err(JournalError::Unreadable);
        }
        Ok(false)
    }

    /// The journal text with column `column` of trade `trade_id` set to `value`,
    /// as the bytes to write back.
    pub fn rewrite_field(&self, content: &str, trade_id: &str, column: &str, value: &str) -> (r: Result<Vec<u8>, JournalError>)
        ensures
            r is Ok <==> field_rewrite(csv_read(content@), trade_id@, column@, value@) is Ok,
            r matches Ok(b) ==> b@ == field_rewrite(csv_read(content@), trade_id@, column@, value@)->Ok_0,
            r matches Err(e) ==> field_rewrite(csv_read(content@), trade_id@, column@, value@) == Err::<Seq<u8>, JournalError>(e),
    {
        let (rows, complete) = csv_read_rows(content);
        if !complete {
            return Err(JournalError::Unreadable);
        }
        match set_trade_field(&rows, trade_id, column, value) {
            Some(new_rows) => Ok(csv_write_rows(&new_rows)),
            None => Err(JournalError::MissingColumn),
        }
    }

    /// The journal text with the outcome of trade `trade_id` set to `outcome`.
    pub fn update_outcome(&self, content: &str, trade_id: &str, outcome: &str) -> (r: Result<Vec<u8>, JournalError>)
        ensures
            r is Ok <==> field_rewrite(csv_read(content@), trade_id@, "outcome"@, outcome@) is Ok,
            r matches Ok(b) ==> b@ == field_rewrite(csv_read(content@), trade_id@, "outcome"@, outcome@)->Ok_0,
            r matches Err(e) ==> field_rewrite(csv_read(content@), trade_id@, "outcome"@, outcome@) == Err::<Seq<u8>, JournalError>(e),
    {
        self.rewrite_field(content, trade_id, "outcome", outcome)
    }

    /// The journal text with the order status of trade `trade_id` set to `status`.
    pub fn update_order_status(&self, content: &str, trade_id: &str, status: &str) -> (r: Result<Vec<u8>, JournalError>)
        ensures
            r is Ok <==> field_rewrite(csv_read(content@), trade_id@, "order_status"@, status@) is Ok,
            r matches Ok(b) ==> b@ == field_rewrite(csv_read(content@), trade_id@, "order_status"@, status@)->Ok_0,
            r matches Err(e) ==> field_rewrite(csv_read(content@), trade_id@, "order_status"@, status@) == Err::<Seq<u8>, JournalError>(e),
    {
        self.rewrite_field(content, trade_id, "order_status", status)
    }
}

/// The console line of an acknowledged order.
pub open spec fn order_ack_line(order_id: Seq<char>, status: Seq<char>, latency_ms: i64) -> Seq<char> {
    "[ORDRE ACK] id="@ + order_id + " status="@ + status + " latence="@ + int_digits(latency_ms as int) + "ms"@
}

/// The console line of an acknowledged order:
/// `[ORDRE ACK] id=… status=… latence=…ms`.
pub fn log_order_ack(order_id: &str, status: &str, latency_ms: i64) -> (r: String)
    ensures
        r@ == order_ack_line(order_id@, status@, latency_ms),
{
    let mut v = chars_of("[ORDRE ACK] id=");
    push_str(&mut v, order_id);
    push_str(&mut v, " status=");
    push_str(&mut v, status);
    push_str(&mut v, " latence=");
    push_i64_digits(&mut v, latency_ms);
    push_str(&mut v, "ms");
    string_of(&v)
}


/// The console line of a signal: `[SIGNAL] strategy=… prediction=… rsi=…`, the RSI
/// with two decimals.
pub open spec fn signal_line(strategy: Seq<char>, prediction: Seq<char>, rsi: Rsi) -> Seq<char> {
    "[SIGNAL] strategy="@ + strategy + " prediction="@ + prediction + " rsi="@
        + two_decimals_text(rsi.spec_hundredths() as nat)
}

pub fn log_signal_detected(strategy: &str, prediction: &str, rsi: &Rsi) -> (r: String)
    requires
        rsi.wf(),
    ensures
        r@ == signal_line(strategy@, prediction@, *rsi),
{
    let mut v = chars_of("[SIGNAL] strategy=");
    push_str(&mut v, strategy);
    push_str(&mut v, " prediction=");
    push_str(&mut v, prediction);
    push_str(&mut v, " rsi=");
    push_two_decimals(&mut v, rsi.hundredths());
    string_of(&v)
}

/// The console line of an order sent: `[ORDRE ENVOYÉ] id=… token=… amount=… USDC`.
pub open spec fn order_sent_line(order_id: Seq<char>, token_id: Seq<char>, amount: u64) -> Seq<char> {
    "[ORDRE ENVOYÉ] id="@ + order_id + " token="@ + token_id + " amount="@
        + fixed8_plain_text(amount as nat) + " USDC"@
}

pub fn log_order_sent(order_id: &str, token_id: &str, amount: u64) -> (r: String)
    ensures
        r@ == order_sent_line(order_id@, token_id@, amount),
{
    let mut v = chars_of("[ORDRE ENVOYÉ] id=");
    push_str(&mut v, order_id);
    push_str(&mut v, " token=");
    push_str(&mut v, token_id);
    push_str(&mut v, " amount=");
    push_fixed8_plain(&mut v, amount);
    push_str(&mut v, " USDC");
    string_of(&v)
}

pub open spec fn rsi_text(rsi: Option<Rsi>) -> Seq<char> {
    match rsi {
        Some(r) => two_decimals_text(r.spec_hundredths() as nat),
        None => "N/A"@,
    }
}

pub open spec fn series_text(series: Option<bool>) -> Seq<char> {
    match series {
        Some(true) => "3xVERT"@,
        Some(false) => "3xROUGE"@,
        None => "mixte"@,
    }
}

pub open spec fn atr_text(atr: Option<u64>) -> Seq<char> {
    match atr {
        Some(a) => two_decimals_text(rounded_cents(a as nat)),
        None => "N/A"@,
    }
}

/// The body of a candle as a whole percentage of its range, rounded ties to even;
/// "N/A" when the range is not positive.
pub open spec fn body_ratio_text(high: u64, low: u64, open: u64, close: u64) -> Seq<char> {
    let range = high as int - low as int;
    let body = if close >= open { close as int - open as int } else { open as int - close as int };
    if range > 0 {
        nat_digits(div_round_half_even((100 * body) as nat, range as nat)) + "%"@
    } else {
        "N/A"@
    }
}

/// The console line of a closed candle.
pub open spec fn candle_close_line(symbol: Seq<char>, interval: Seq<char>, high: u64, low: u64, open: u64,
    close: u64, color: Seq<char>, rsi: Option<Rsi>, series: Option<bool>, atr: Option<u64>, close_time: i64) -> Seq<char> {
    "[BOUGIE FERMÉE] "@ + symbol + " "@ + interval + " | close="@ + two_decimals_text(rounded_cents(close as nat))
        + " "@ + color + " | RSI="@ + rsi_text(rsi) + " | série="@ + series_text(series) + " | ATR="@
        + atr_text(atr) + " | range="@ + signed_2dp_text(high as int - low as int) + " | body="@
        + body_ratio_text(high, low, open, close) + " | "@ + utc_datetime_text(close_time)
}

pub fn log_candle_close(
    symbol: &str,
    interval: &str,
    candle_high: u64,
    candle_low: u64,
    candle_open: u64,
    close: u64,
    color: &str,
    rsi: Option<Rsi>,
    series: Option<bool>,
    atr: Option<u64>,
    close_time: i64,
) -> (r: String)
    requires
        rsi matches Some(x) ==> x.wf(),
        -MILLIS_RANGE <= close_time <= MILLIS_RANGE,
    ensures
        r@ == candle_close_line(symbol@, interval@, candle_high, candle_low, candle_open, close, color@, rsi,
            series, atr, close_time),
{
    let mut v = chars_of("[BOUGIE FERMÉE] ");
    push_str(&mut v, symbol);
    push_str(&mut v, " ");
    push_str(&mut v, interval);
    push_str(&mut v, " | close=");
    push_fixed8_2dp(&mut v, close);
    push_str(&mut v, " ");
    push_str(&mut v, color);
    push_str(&mut v, " | RSI=");
    match rsi {
        Some(x) => push_two_decimals(&mut v, x.hundredths()),
        None => push_str(&mut v, "N/A"),
    }
    push_str(&mut v, " | série=");
    match series {
        Some(true) => push_str(&mut v, "3xVERT"),
        Some(false) => push_str(&mut v, "3xROUGE"),
        None => push_str(&mut v, "mixte"),
    }
    push_str(&mut v, " | ATR=");
    match atr {
        Some(a) => push_fixed8_2dp(&mut v, a),
        None => push_str(&mut v, "N/A"),
    }
    push_str(&mut v, " | range=");
    let range: i128 = candle_high as i128 - candle_low as i128;
    push_signed_fixed8_2dp(&mut v, range);
    push_str(&mut v, " | body=");
    if range > 0 {
        let body: u128 = if close >= candle_open { (close - candle_open) as u128 } else { (candle_open - close) as u128 };
        let rg: u128 = range as u128;
        let pct: u128 = div_round_even(100 * body, rg);
        push_u128_digits(&mut v, pct);
        push_str(&mut v, "%");
    } else {
        push_str(&mut v, "N/A");
    }
    push_str(&mut v, " | ");
    push_utc_datetime(&mut v, close_time);
    assert(v@ =~= candle_close_line(symbol@, interval@, candle_high, candle_low, candle_open, close, color@, rsi,
        series, atr, close_time));
    string_of(&v)
}

} // verus!
