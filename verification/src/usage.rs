//! Card usage: reading the card-check reply of the usage service and laying
//! out a card's details and its bandwidth sessions as text lines.

use vstd::prelude::*;
use vstd::string::StringExecFns;
use time::OffsetDateTime;
use time::format_description::well_known::Rfc3339;
use crate::json::{json_get, json_i64, json_str, render, Json, JsonNumber};
use crate::text::{decimal, join_strings, join_with, push_decimal, push_signed_decimal, signed_decimal};

verus! {

/// The arguments of the `usage` command.
#[derive(Debug)]
pub struct UsageArgs {
    /// Card PINs, in the order given.
    pub pins: Vec<String>,
    /// Whether to list each card's bandwidth sessions.
    pub sessions: bool,
    /// Directory for per-account device IDs.
    pub state_dir: Option<std::path::PathBuf>,
}

/// The placeholder shown for a missing or empty value.
pub open spec fn dash() -> Seq<char> {
    seq!['\u{2014}']
}

/// How one element of an array value is shown: a string as itself, anything
/// else as JSON text.
pub open spec fn element_text(j: Json) -> Seq<char> {
    match j {
        Json::String(s) => s@,
        _ => render(j),
    }
}

/// How a (possibly missing) value is shown: missing, `null` and the empty
/// string as a dash, a string as itself, an array as its elements joined by
/// `, `, anything else as JSON text.
pub open spec fn display_text(v: Option<Json>) -> Seq<char> {
    match v {
        None => dash(),
        Some(Json::Null) => dash(),
        Some(Json::String(s)) => if s@.len() == 0 {
            dash()
        } else {
            s@
        },
        Some(Json::Array(items)) => join_with(items@.map_values(|x: Json| element_text(x)), ", "@),
        Some(j) => render(j),
    }
}

/// Shows a (possibly missing) value (see [`display_text`]).
pub fn display_value(value: Option<&Json>) -> (r: String)
    ensures
        r@ == display_text(
            match value {
                Some(v) => Some(*v),
                None => None,
            },
        ),
{
    match value {
        None => dash_string(),
        Some(Json::Null) => dash_string(),
        Some(Json::String(s)) => if s.unicode_len() == 0 {
            dash_string()
        } else {
            s.clone()
        },
        Some(Json::Array(items)) => {
            let mut parts: Vec<String> = Vec::new();
            let n = items.len();
            let mut i: usize = 0;
            while i < n
                invariant
                    n == items@.len(),
                    i <= n,
                    parts@.len() == i,
                    forall|j: int| 0 <= j < i ==> #[trigger] parts@[j]@ == element_text(items@[j]),
                decreases n - i,
            {
                let text = match &items[i] {
                    Json::String(s) => s.clone(),
                    other => other.render(),
                };
                parts.push(text);
                i = i + 1;
            }
            let r = join_strings(&parts, ", ");
            assert(parts@.map_values(|p: String| p@) =~= items@.map_values(|x: Json| element_text(x)));
            r
        },
        Some(j) => j.render(),
    }
}

fn dash_string() -> (r: String)
    ensures
        r@ == dash(),
{
    let mut s = String::new();
    s.push('\u{2014}');
    s
}

/// The RFC 3339 text of the instant `nanos` nanoseconds after the Unix
/// epoch, in UTC, when that instant can be represented and formatted.
pub uninterp spec fn rfc3339_text(nanos: i128) -> Option<Seq<char>>;

/// Instants from the start of year 0 to the end of year 9999 (UTC), in
/// nanoseconds since the Unix epoch: the years that RFC 3339 can write.
pub open spec fn rfc3339_range(nanos: int) -> bool {
    -62_167_219_200_000_000_000 <= nanos < 253_402_300_800_000_000_000
}

/// Formats an instant with `time::OffsetDateTime::from_unix_timestamp_nanos`
/// and `OffsetDateTime::format` in the RFC 3339 format; `None` when either
/// step fails. The conversion accepts every instant whose year is in the
/// crate's date range (which holds years 0 to 9999), and the format refuses
/// exactly the UTC dates whose year is outside 0 to 9999, so an instant is
/// formatted if and only if it lies in [`rfc3339_range`]. The contract names
/// the text; calendar arithmetic is the crate's.
#[verifier::external_body]
fn format_rfc3339(nanos: i128) -> (r: Option<String>)
    ensures
        r is Some <==> rfc3339_text(nanos) is Some,
        r matches Some(s) ==> rfc3339_text(nanos) == Some(s@),
        r is Some <==> rfc3339_range(nanos as int),
{
    OffsetDateTime::from_unix_timestamp_nanos(nanos).ok().and_then(|d| d.format(&Rfc3339).ok())
}

/// Raw timestamps from this value on are milliseconds, below it seconds.
pub open spec fn millis_threshold() -> int {
    100_000_000_000
}

/// Nanoseconds since the epoch for a raw positive timestamp.
pub open spec fn timestamp_nanos(raw: i64) -> i128 {
    if raw >= millis_threshold() {
        (raw * 1_000_000) as i128
    } else {
        (raw * 1_000_000_000) as i128
    }
}

/// How a timestamp value is shown: a value that is not an integer as
/// [`display_text`] shows it, a non-positive one as a dash, otherwise its
/// RFC 3339 date (read as milliseconds from 10^11 on, else as seconds), or
/// the raw number when it has no date.
pub open spec fn timestamp_text(v: Option<Json>) -> Seq<char> {
    match v {
        Some(j) => match json_i64(j) {
            Some(raw) => if raw <= 0 {
                dash()
            } else {
                match rfc3339_text(timestamp_nanos(raw)) {
                    Some(t) => t,
                    None => signed_decimal(raw as int),
                }
            },
            None => display_text(v),
        },
        None => display_text(v),
    }
}

/// The value as an integer, if it is one that fits in an `i64`.
pub open spec fn integer_value(value: Option<&Json>) -> Option<i64> {
    match value {
        Some(v) => json_i64(*v),
        None => None,
    }
}

/// Shows a timestamp value (see [`timestamp_text`]). A positive integer is
/// shown as its date exactly when its instant lies in [`rfc3339_range`], and
/// otherwise as its digits; a value in seconds from 10^8 up to 10^11 is
/// shown as the same value in milliseconds is.
pub fn timestamp(value: Option<&Json>) -> (r: String)
    ensures
        r@ == timestamp_text(
            match value {
                Some(v) => Some(*v),
                None => None,
            },
        ),
        integer_value(value) matches Some(raw) ==> (raw > 0 ==> (rfc3339_text(
            timestamp_nanos(raw),
        ) is Some <==> rfc3339_range(timestamp_nanos(raw) as int))),
        integer_value(value) matches Some(raw) ==> (100_000_000 <= raw < millis_threshold()
            ==> r@ == timestamp_text(Some(Json::Number(JsonNumber::PosInt((raw * 1000) as u64))))),
{
    let raw = match value {
        Some(v) => match v.as_i64() {
            Some(raw) => raw,
            None => return display_value(value),
        },
        None => return display_value(value),
    };
    if raw <= 0 {
        return dash_string();
    }
    let nanos: i128 = if raw >= 100_000_000_000 {
        (raw as i128) * 1_000_000
    } else {
        (raw as i128) * 1_000_000_000
    };
    match format_rfc3339(nanos) {
        Some(t) => t,
        None => {
            let mut s = String::new();
            push_signed_decimal(&mut s, raw);
            s
        },
    }
}


/// Why a card check gave no card data.
#[derive(Debug)]
pub enum UsageError {
    /// The service refused the session (code 2).
    AuthorizationFailed,
    /// The PIN is wrong, not activated, or has no usage yet (code 3).
    CardRejected,
    /// The service refused the request for another reason.
    Rejected {
        /// The reply's integer `code`, if it has one.
        code: Option<i64>,
        /// The reply's `msg`, or `unknown API error`.
        message: String,
    },
    /// The reply reports success but has no `data` object.
    MissingData,
}

/// Whether a reply's `result` is `true`.
pub open spec fn result_is_true(reply: Json) -> bool {
    match json_get(reply, "result"@) {
        Some(v) => v == Json::Bool(true),
        None => false,
    }
}

/// A reply's integer `code`, if any.
pub open spec fn reply_code(reply: Json) -> Option<i64> {
    match json_get(reply, "code"@) {
        Some(v) => json_i64(v),
        None => None,
    }
}

/// A reply's string `msg`, or `default`.
pub open spec fn reply_message(reply: Json, default: Seq<char>) -> Seq<char> {
    match json_get(reply, "msg"@) {
        Some(v) => match json_str(v) {
            Some(m) => m,
            None => default,
        },
        None => default,
    }
}

/// The card data in a card-check reply, or why there is none: a reply whose
/// `result` is not `true` is refused by its code (2: authorization, 3: card,
/// other: the code and message), and an accepted reply must carry a `data`
/// object.
pub fn card_data(reply: &Json) -> (r: Result<&Json, UsageError>)
    ensures
        !result_is_true(*reply) ==> match reply_code(*reply) {
            Some(2) => r matches Err(UsageError::AuthorizationFailed),
            Some(3) => r matches Err(UsageError::CardRejected),
            c => r matches Err(UsageError::Rejected { code, message }) && code == c && message@
                == reply_message(*reply, "unknown API error"@),
        },
        result_is_true(*reply) ==> match json_get(*reply, "data"@) {
            Some(d) => if d is Object {
                r matches Ok(v) && *v == d
            } else {
                r matches Err(UsageError::MissingData)
            },
            None => r matches Err(UsageError::MissingData),
        },
{
    let accepted = match reply.get("result") {
        Some(v) => match v.as_bool() {
            Some(b) => b,
            None => false,
        },
        None => false,
    };
    if !accepted {
        let code = match reply.get("code") {
            Some(v) => v.as_i64(),
            None => None,
        };
        if code == Some(2i64) {
            return Err(UsageError::AuthorizationFailed);
        }
        if code == Some(3i64) {
            return Err(UsageError::CardRejected);
        }
        let message = match reply.get("msg") {
            Some(v) => match v.as_str() {
                Some(m) => m.to_owned(),
                None => "unknown API error".to_owned(),
            },
            None => "unknown API error".to_owned(),
        };
        return Err(UsageError::Rejected { code, message });
    }
    match reply.get("data") {
        Some(d) => if d.is_object() {
            Ok(d)
        } else {
            Err(UsageError::MissingData)
        },
        None => Err(UsageError::MissingData),
    }
}

/// `s` followed by spaces up to `width` characters (unchanged when already
/// that long).
pub open spec fn pad_right(s: Seq<char>, width: int) -> Seq<char> {
    if s.len() >= width {
        s
    } else {
        s + Seq::new((width - s.len()) as nat, |i: int| ' ')
    }
}

/// `width` dashes.
pub open spec fn dashes(width: int) -> Seq<char> {
    Seq::new(width as nat, |i: int| '-')
}

/// One table line: four spaces of indent, then the cells, each padded to its
/// column's width, two spaces apart.
pub open spec fn table_line(cells: Seq<Seq<char>>, widths: Seq<int>) -> Seq<char> {
    "    "@ + join_with(Seq::new(cells.len(), |i: int| pad_right(cells[i], widths[i])), "  "@)
}

/// The column headers of the session table.
pub open spec fn session_headers() -> Seq<Seq<char>> {
    seq!["#"@, "Start"@, "Total time"@, "Download"@, "Upload"@, "MACs"@]
}

/// The cells for the session at position `index` (counted from 0).
pub open spec fn session_row(index: int, session: Json) -> Seq<Seq<char>> {
    seq![
        decimal((index + 1) as nat),
        timestamp_text(json_get(session, "StartAt"@)),
        display_text(json_get(session, "TotalTime"@)),
        display_text(json_get(session, "Download"@)),
        display_text(json_get(session, "Upload"@)),
        display_text(json_get(session, "MACs"@)),
    ]
}

/// The cells of every session, in order.
pub open spec fn session_rows(sessions: Seq<Json>) -> Seq<Seq<Seq<char>>> {
    Seq::new(sessions.len(), |i: int| session_row(i, sessions[i]))
}

/// The width of column `c`: the longest of its header and its cells, in
/// characters.
pub open spec fn column_width(header: Seq<char>, rows: Seq<Seq<Seq<char>>>, c: int) -> int
    decreases rows.len(),
{
    if rows.len() == 0 {
        header.len() as int
    } else {
        let w = column_width(header, rows.drop_last(), c);
        let l = rows.last()[c].len() as int;
        if l > w {
            l
        } else {
            w
        }
    }
}

/// The widths of all columns.
pub open spec fn column_widths(headers: Seq<Seq<char>>, rows: Seq<Seq<Seq<char>>>) -> Seq<int> {
    Seq::new(headers.len(), |c: int| column_width(headers[c], rows, c))
}


/// The line giving the number of sessions.
pub open spec fn session_count_line(count: Seq<char>) -> Seq<char> {
    "  Sessions:    "@ + count
}

/// Widths as integers.
pub open spec fn widths_view(widths: Seq<usize>) -> Seq<int> {
    widths.map_values(|w: usize| w as int)
}

/// Cells as plain values.
pub open spec fn cells_view(cells: Seq<String>) -> Seq<Seq<char>> {
    cells.map_values(|c: String| c@)
}

/// The session lines for a card's `BWStatics` value: a dash when it is not
/// an array; otherwise the count and, when there are sessions, a table of
/// header, dashes and one line per session, every column as wide as its
/// widest entry.
pub open spec fn session_lines_spec(v: Option<Json>) -> Seq<Seq<char>> {
    match v {
        Some(Json::Array(items)) => {
            let rows = session_rows(items@);
            let w = column_widths(session_headers(), rows);
            let count = session_count_line(decimal(items@.len()));
            if items@.len() == 0 {
                seq![count]
            } else {
                seq![
                    count,
                    table_line(session_headers(), w),
                    table_line(Seq::new(6, |c: int| dashes(w[c])), w),
                ] + Seq::new(rows.len(), |i: int| table_line(rows[i], w))
            }
        },
        _ => seq![session_count_line(dash())],
    }
}

/// `s` padded with spaces to `width` characters.
pub fn padded(s: &str, width: usize) -> (r: String)
    ensures
        r@ == pad_right(s@, width as int),
{
    let mut out = s.to_owned();
    let len = s.unicode_len();
    if len >= width {
        return out;
    }
    let mut k: usize = len;
    while k < width
        invariant
            len == s@.len(),
            len <= k <= width,
            out@ == s@ + Seq::new((k - len) as nat, |i: int| ' '),
        decreases width - k,
    {
        out.push(' ');
        k = k + 1;
        assert(out@ =~= s@ + Seq::new((k - len) as nat, |i: int| ' '));
    }
    out
}

/// One table line (see [`table_line`]); there may be fewer cells than
/// widths, and the widths left over are not used.
pub fn format_table_line(cells: &Vec<String>, widths: &Vec<usize>) -> (r: String)
    requires
        cells@.len() <= widths@.len(),
    ensures
        r@ == table_line(cells_view(cells@), widths_view(widths@)),
{
    let mut parts: Vec<String> = Vec::new();
    let n = cells.len();
    let mut i: usize = 0;
    while i < n
        invariant
            n == cells@.len(),
            n <= widths@.len(),
            i <= n,
            parts@.len() == i,
            forall|j: int| 0 <= j < i ==> #[trigger] parts@[j]@ == pad_right(cells@[j]@, widths@[j] as int),
        decreases n - i,
    {
        parts.push(padded(cells[i].as_str(), widths[i]));
        i = i + 1;
    }
    let joined = join_strings(&parts, "  ");
    let mut line = "    ".to_owned();
    line.append(joined.as_str());
    let ghost cv = cells_view(cells@);
    let ghost wv = widths_view(widths@);
    assert(parts@.map_values(|p: String| p@) =~= Seq::new(cv.len(), |k: int| pad_right(cv[k], wv[k])));
    line
}

fn decimal_string(n: u64) -> (r: String)
    ensures
        r@ == decimal(n as nat),
{
    let mut s = String::new();
    push_decimal(&mut s, n);
    assert(s@ =~= decimal(n as nat));
    s
}

fn session_cells(index: usize, session: &Json) -> (r: Vec<String>)
    requires
        index < usize::MAX,
    ensures
        cells_view(r@) == session_row(index as int, *session),
{
    let mut cells: Vec<String> = Vec::new();
    cells.push(decimal_string((index + 1) as u64));
    cells.push(timestamp(session.get("StartAt")));
    cells.push(display_value(session.get("TotalTime")));
    cells.push(display_value(session.get("Download")));
    cells.push(display_value(session.get("Upload")));
    cells.push(display_value(session.get("MACs")));
    assert(cells_view(cells@) =~= session_row(index as int, *session));
    cells
}

fn header_cells() -> (r: Vec<String>)
    ensures
        cells_view(r@) == session_headers(),
{
    let mut cells: Vec<String> = Vec::new();
    cells.push("#".to_owned());
    cells.push("Start".to_owned());
    cells.push("Total time".to_owned());
    cells.push("Download".to_owned());
    cells.push("Upload".to_owned());
    cells.push("MACs".to_owned());
    assert(cells_view(cells@) =~= session_headers());
    cells
}

proof fn lemma_column_width_step(header: Seq<char>, rows: Seq<Seq<Seq<char>>>, c: int, i: int)
    requires
        0 <= i < rows.len(),
    ensures
        column_width(header, rows.subrange(0, i + 1), c) == if rows[i][c].len() > column_width(
            header,
            rows.subrange(0, i),
            c,
        ) {
            rows[i][c].len() as int
        } else {
            column_width(header, rows.subrange(0, i), c)
        },
{
    assert(rows.subrange(0, i + 1).drop_last() =~= rows.subrange(0, i));
    assert(rows.subrange(0, i + 1).last() == rows[i]);
}

/// The session lines for a card's `BWStatics` value (see
/// [`session_lines_spec`]).
pub fn session_lines(value: Option<&Json>) -> (r: Vec<String>)
    ensures
        cells_view(r@) == session_lines_spec(
            match value {
                Some(v) => Some(*v),
                None => None,
            },
        ),
{
    let items = match value {
        Some(Json::Array(items)) => items,
        _ => {
            let mut line = "  Sessions:    ".to_owned();
            line.append(dash_string().as_str());
            let mut lines: Vec<String> = Vec::new();
            lines.push(line);
            assert(cells_view(lines@) =~= seq![session_count_line(dash())]);
            return lines;
        },
    };
    let n = items.len();
    let mut count = "  Sessions:    ".to_owned();
    count.append(decimal_string(n as u64).as_str());
    let mut lines: Vec<String> = Vec::new();
    lines.push(count);
    if n == 0 {
        assert(cells_view(lines@) =~= seq![session_count_line(decimal(0))]);
        return lines;
    }
    let headers = header_cells();
    let ghost hv = session_headers();
    assert(headers@.len() == cells_view(headers@).len());
    let ghost rows_all = session_rows(items@);
    // cells of every session
    let mut rows: Vec<Vec<String>> = Vec::new();
    let mut i: usize = 0;
    while i < n
        invariant
            n == items@.len(),
            rows_all == session_rows(items@),
            i <= n,
            rows@.len() == i,
            forall|j: int| 0 <= j < i ==> #[trigger] cells_view(rows@[j]@) == rows_all[j],
        decreases n - i,
    {
        rows.push(session_cells(i, &items[i]));
        i = i + 1;
    }
    // column widths
    let mut widths: Vec<usize> = Vec::new();
    let mut c: usize = 0;
    while c < 6
        invariant
            headers@.len() == 6,
            cells_view(headers@) == hv,
            hv == session_headers(),
            c <= 6,
            widths@.len() == c,
            forall|k: int| 0 <= k < c ==> #[trigger] widths@[k] as int == column_width(hv[k], rows_all.subrange(0, 0), k),
        decreases 6 - c,
    {
        assert(hv[c as int] == headers@[c as int]@);
        widths.push(headers[c].unicode_len());
        c = c + 1;
    }
    let mut r: usize = 0;
    while r < n
        invariant
            n == items@.len(),
            rows_all == session_rows(items@),
            rows_all.len() == n,
            hv == session_headers(),
            rows@.len() == n,
            forall|j: int| 0 <= j < n ==> #[trigger] cells_view(rows@[j]@) == rows_all[j],
            r <= n,
            widths@.len() == 6,
            forall|k: int| 0 <= k < 6 ==> #[trigger] widths@[k] as int == column_width(hv[k], rows_all.subrange(0, r as int), k),
        decreases n - r,
    {
        let row = &rows[r];
        assert(cells_view(row@) == rows_all[r as int]);
        assert(rows_all[r as int].len() == 6);
        let mut c: usize = 0;
        while c < 6
            invariant
                n == items@.len(),
                rows_all.len() == n,
                r < n,
                cells_view(row@) == rows_all[r as int],
                rows_all[r as int].len() == 6,
                row@.len() == 6,
                c <= 6,
                widths@.len() == 6,
                forall|k: int| 0 <= k < c ==> #[trigger] widths@[k] as int == column_width(hv[k], rows_all.subrange(0, r + 1), k),
                forall|k: int| c <= k < 6 ==> #[trigger] widths@[k] as int == column_width(hv[k], rows_all.subrange(0, r as int), k),
            decreases 6 - c,
        {
            proof {
                lemma_column_width_step(hv[c as int], rows_all, c as int, r as int);
                assert(row@[c as int]@ == rows_all[r as int][c as int]);
            }
            let l = row[c].unicode_len();
            if l > widths[c] {
                widths.set(c, l);
            }
            c = c + 1;
        }
        r = r + 1;
    }
    assert(rows_all.subrange(0, n as int) =~= rows_all);
    let ghost w = column_widths(hv, rows_all);
    assert(widths_view(widths@) =~= w);
    lines.push(format_table_line(&headers, &widths));
    let mut seps: Vec<String> = Vec::new();
    let mut c: usize = 0;
    while c < 6
        invariant
            widths@.len() == 6,
            c <= 6,
            seps@.len() == c,
            forall|k: int| 0 <= k < c ==> #[trigger] seps@[k]@ == dashes(widths@[k] as int),
        decreases 6 - c,
    {
        let mut d = String::new();
        let mut k: usize = 0;
        while k < widths[c]
            invariant
                c < 6,
                widths@.len() == 6,
                k <= widths@[c as int],
                d@ == dashes(k as int),
            decreases widths@[c as int] - k,
        {
            d.push('-');
            k = k + 1;
            assert(d@ =~= dashes(k as int));
        }
        seps.push(d);
        c = c + 1;
    }
    assert(cells_view(seps@) =~= Seq::new(6, |c: int| dashes(w[c])));
    lines.push(format_table_line(&seps, &widths));
    let mut i: usize = 0;
    while i < n
        invariant
            n == items@.len(),
            rows@.len() == n,
            rows_all == session_rows(items@),
            rows_all.len() == n,
            forall|j: int| 0 <= j < n ==> #[trigger] cells_view(rows@[j]@) == rows_all[j],
            widths@.len() == 6,
            widths_view(widths@) == w,
            i <= n,
            lines@.len() == 3 + i,
            forall|j: int| 0 <= j < i ==> #[trigger] lines@[3 + j]@ == table_line(rows_all[j], w),
            cells_view(lines@.subrange(0, 3)) == seq![
                session_count_line(decimal(n as nat)),
                table_line(session_headers(), w),
                table_line(Seq::new(6, |c: int| dashes(w[c])), w),
            ],
        decreases n - i,
    {
        assert(rows_all[i as int].len() == 6);
        assert(cells_view(rows@[i as int]@) == rows_all[i as int]);
        assert(rows@[i as int]@.len() == 6);
        let line = format_table_line(&rows[i], &widths);
        let ghost before = lines@;
        lines.push(line);
        assert(lines@.subrange(0, 3) =~= before.subrange(0, 3));
        i = i + 1;
    }
    let ghost target = session_lines_spec(Some(Json::Array(*items)));
    assert(target =~= seq![
        session_count_line(decimal(n as nat)),
        table_line(session_headers(), w),
        table_line(Seq::new(6, |c: int| dashes(w[c])), w),
    ] + Seq::new(rows_all.len(), |i: int| table_line(rows_all[i], w)));
    assert(cells_view(lines@).len() == target.len());
    assert forall|k: int| 0 <= k < target.len() implies cells_view(lines@)[k] == target[k] by {
        if k < 3 {
            assert(cells_view(lines@.subrange(0, 3))[k] == cells_view(lines@)[k]);
        } else {
            assert(lines@[3 + (k - 3)]@ == table_line(rows_all[k - 3], w));
        }
    }
    assert(cells_view(lines@) =~= target);
    lines
}


/// A labelled line: two spaces, the label padded to 12 characters, a space
/// and the value.
pub open spec fn field_line(label: Seq<char>, value: Seq<char>) -> Seq<char> {
    "  "@ + pad_right(label, 12) + " "@ + value
}

/// The lines that describe one card: its number, type, status, project,
/// activation and expiry dates, total usage and, when asked for, its
/// sessions.
pub open spec fn card_lines_spec(number: nat, data: Json, show_sessions: bool) -> Seq<Seq<char>> {
    let head = seq![
        "Card "@ + decimal(number),
        field_line("Type"@, display_text(json_get(data, "TypeName"@))),
        field_line("Status"@, display_text(json_get(data, "Status"@))),
        field_line("Project"@, display_text(json_get(data, "ProjectName"@))),
        "  Activated:   "@ + timestamp_text(json_get(data, "ActivedAt"@)),
        "  Expires:     "@ + timestamp_text(json_get(data, "ExpiredAt"@)),
        field_line("Total usage"@, display_text(json_get(data, "BWTotal"@))),
    ];
    if show_sessions {
        head + session_lines_spec(json_get(data, "BWStatics"@))
    } else {
        head
    }
}

/// For a value that is a positive integer, whether its date is known
/// exactly when its instant lies in [`rfc3339_range`]; other values say
/// nothing.
pub open spec fn date_known_in_range(value: Option<Json>) -> bool {
    match value {
        Some(v) => match json_i64(v) {
            Some(raw) => raw > 0 ==> (rfc3339_text(timestamp_nanos(raw)) is Some <==> rfc3339_range(
                timestamp_nanos(raw) as int,
            )),
            None => true,
        },
        None => true,
    }
}

/// The lines of a card are, in order: `Card` and its number; its type,
/// status and project read from `TypeName`, `Status` and `ProjectName`;
/// its activation and expiry dates read from `ActivedAt` and `ExpiredAt`;
/// its total usage read from `BWTotal`; and the session lines only when
/// asked for. An `ExpiredAt` in seconds whose date is known is shown as
/// that date.
pub proof fn lemma_card_lines_fields(number: nat, data: Json, show_sessions: bool)
    ensures
        card_lines_spec(number, data, show_sessions).len() >= 7,
        !show_sessions ==> card_lines_spec(number, data, show_sessions).len() == 7,
        card_lines_spec(number, data, show_sessions)[0] == "Card "@ + decimal(number),
        card_lines_spec(number, data, show_sessions)[1] == "  Type         "@ + display_text(
            json_get(data, "TypeName"@),
        ),
        card_lines_spec(number, data, show_sessions)[2] == "  Status       "@ + display_text(
            json_get(data, "Status"@),
        ),
        card_lines_spec(number, data, show_sessions)[3] == "  Project      "@ + display_text(
            json_get(data, "ProjectName"@),
        ),
        card_lines_spec(number, data, show_sessions)[4] == "  Activated:   "@ + timestamp_text(
            json_get(data, "ActivedAt"@),
        ),
        card_lines_spec(number, data, show_sessions)[5] == "  Expires:     "@ + timestamp_text(
            json_get(data, "ExpiredAt"@),
        ),
        card_lines_spec(number, data, show_sessions)[6] == "  Total usage  "@ + display_text(
            json_get(data, "BWTotal"@),
        ),
        json_get(data, "ExpiredAt"@) matches Some(Json::Number(JsonNumber::PosInt(secs))) ==> (0
            < secs < 100_000_000_000 && rfc3339_text((secs * 1_000_000_000) as i128) is Some
            ==> card_lines_spec(number, data, show_sessions)[5] == "  Expires:     "@ + rfc3339_text(
            (secs * 1_000_000_000) as i128,
        )->0),
{
    reveal_strlit("Type");
    reveal_strlit("Status");
    reveal_strlit("Project");
    reveal_strlit("Total usage");
    reveal_strlit("  ");
    reveal_strlit(" ");
    reveal_strlit("  Type         ");
    reveal_strlit("  Status       ");
    reveal_strlit("  Project      ");
    reveal_strlit("  Total usage  ");
    let lines = card_lines_spec(number, data, show_sessions);
    assert(lines[1] =~= "  Type         "@ + display_text(json_get(data, "TypeName"@)));
    assert(lines[2] =~= "  Status       "@ + display_text(json_get(data, "Status"@)));
    assert(lines[3] =~= "  Project      "@ + display_text(json_get(data, "ProjectName"@)));
    assert(lines[6] =~= "  Total usage  "@ + display_text(json_get(data, "BWTotal"@)));
}

fn labelled(label: &str, value: String) -> (r: String)
    ensures
        r@ == field_line(label@, value@),
{
    let mut line = "  ".to_owned();
    line.append(padded(label, 12).as_str());
    line.append(" ");
    line.append(value.as_str());
    line
}

fn prefixed(prefix: &str, value: String) -> (r: String)
    ensures
        r@ == prefix@ + value@,
{
    let mut line = prefix.to_owned();
    line.append(value.as_str());
    line
}

/// The lines that describe card number `number` (see [`card_lines_spec`]).
pub fn card_lines(number: u64, data: &Json, show_sessions: bool) -> (r: Vec<String>)
    ensures
        cells_view(r@) == card_lines_spec(number as nat, *data, show_sessions),
        date_known_in_range(json_get(*data, "ActivedAt"@)),
        date_known_in_range(json_get(*data, "ExpiredAt"@)),
{
    let mut lines: Vec<String> = Vec::new();
    lines.push(prefixed("Card ", decimal_string(number)));
    lines.push(labelled("Type", display_value(data.get("TypeName"))));
    lines.push(labelled("Status", display_value(data.get("Status"))));
    lines.push(labelled("Project", display_value(data.get("ProjectName"))));
    lines.push(prefixed("  Activated:   ", timestamp(data.get("ActivedAt"))));
    lines.push(prefixed("  Expires:     ", timestamp(data.get("ExpiredAt"))));
    lines.push(labelled("Total usage", display_value(data.get("BWTotal"))));
    let ghost head = cells_view(lines@);
    if show_sessions {
        let sessions = session_lines(data.get("BWStatics"));
        let m = sessions.len();
        let mut k: usize = 0;
        while k < m
            invariant
                m == sessions@.len(),
                k <= m,
                head.len() == 7,
                cells_view(lines@) == head + cells_view(sessions@).subrange(0, k as int),
            decreases m - k,
        {
            let line = sessions[k].clone();
            assert(line@ == sessions@[k as int]@);
            let ghost before = lines@;
            lines.push(line);
            assert(cells_view(lines@) =~= cells_view(before).push(line@));
            k = k + 1;
            assert(cells_view(lines@) =~= head + cells_view(sessions@).subrange(0, k as int));
        }
        assert(cells_view(sessions@).subrange(0, m as int) =~= cells_view(sessions@));
    }
    assert(cells_view(lines@) =~= card_lines_spec(number as nat, *data, show_sessions));
    lines
}


/// Sum of widths.
pub open spec fn sum_widths(w: Seq<int>) -> int
    decreases w.len(),
{
    if w.len() == 0 {
        0
    } else {
        sum_widths(w.drop_last()) + w.last()
    }
}

/// The length of a table line with columns of widths `w`.
pub open spec fn line_width(w: Seq<int>) -> int {
    4 + sum_widths(w) + 2 * (w.len() - 1)
}

proof fn lemma_column_width_bounds(header: Seq<char>, rows: Seq<Seq<Seq<char>>>, c: int)
    ensures
        header.len() <= column_width(header, rows, c),
        forall|i: int| 0 <= i < rows.len() ==> #[trigger] rows[i][c].len() <= column_width(header, rows, c),
    decreases rows.len(),
{
    if rows.len() > 0 {
        lemma_column_width_bounds(header, rows.drop_last(), c);
        assert forall|i: int| 0 <= i < rows.len() implies #[trigger] rows[i][c].len() <= column_width(header, rows, c) by {
            if i < rows.len() - 1 {
                assert(rows.drop_last()[i] == rows[i]);
            }
        }
    }
}

proof fn lemma_pad_right_len(s: Seq<char>, width: int)
    requires
        s.len() <= width,
    ensures
        pad_right(s, width).len() == width,
{
}

proof fn lemma_join_len(parts: Seq<Seq<char>>, w: Seq<int>)
    requires
        parts.len() == w.len(),
        parts.len() >= 1,
        forall|i: int| 0 <= i < parts.len() ==> #[trigger] parts[i].len() == w[i],
    ensures
        join_with(parts, "  "@).len() == sum_widths(w) + 2 * (w.len() - 1),
    decreases parts.len(),
{
    reveal_strlit("  ");
    let n = parts.len() as int;
    assert(parts[n - 1].len() == w[n - 1]);
    if parts.len() == 1 {
        assert(w.drop_last().len() == 0);
        assert(sum_widths(w.drop_last()) == 0);
    } else {
        lemma_join_len(parts.drop_last(), w.drop_last());
    }
}

proof fn lemma_table_line_len(cells: Seq<Seq<char>>, w: Seq<int>)
    requires
        cells.len() == w.len(),
        cells.len() >= 1,
        forall|i: int| 0 <= i < cells.len() ==> #[trigger] cells[i].len() <= w[i],
    ensures
        table_line(cells, w).len() == line_width(w),
{
    reveal_strlit("    ");
    let padded = Seq::new(cells.len(), |i: int| pad_right(cells[i], w[i]));
    assert forall|i: int| 0 <= i < padded.len() implies #[trigger] padded[i].len() == w[i] by {
        lemma_pad_right_len(cells[i], w[i]);
    }
    lemma_join_len(padded, w);
}

/// The session table lines up: every column is at least as wide as its
/// header and each of its cells, so every cell pads to exactly its column's
/// width and every line of the table (header, dashes and each session) has
/// the same length.
pub proof fn lemma_session_table_aligned(sessions: Vec<Json>)
    requires
        sessions@.len() > 0,
    ensures
        ({
            let rows = session_rows(sessions@);
            let w = column_widths(session_headers(), rows);
            let lines = session_lines_spec(Some(Json::Array(sessions)));
            &&& forall|i: int, c: int|
                0 <= i < rows.len() && 0 <= c < 6 ==> pad_right(#[trigger] rows[i][c], w[c]).len() == w[c]
            &&& lines.len() == 3 + sessions@.len()
            &&& forall|k: int| 1 <= k < lines.len() ==> #[trigger] lines[k].len() == line_width(w)
        }),
{
    let rows = session_rows(sessions@);
    let hs = session_headers();
    let w = column_widths(hs, rows);
    let lines = session_lines_spec(Some(Json::Array(sessions)));
    assert forall|c: int| 0 <= c < 6 implies hs[c].len() <= w[c] && forall|i: int|
        0 <= i < rows.len() ==> #[trigger] rows[i][c].len() <= w[c] by {
        lemma_column_width_bounds(hs[c], rows, c);
    }
    assert forall|i: int, c: int| 0 <= i < rows.len() && 0 <= c < 6 implies pad_right(
        #[trigger] rows[i][c],
        w[c],
    ).len() == w[c] by {
        lemma_column_width_bounds(hs[c], rows, c);
        lemma_pad_right_len(rows[i][c], w[c]);
    }
    lemma_table_line_len(hs, w);
    let dash_cells = Seq::new(6, |c: int| dashes(w[c]));
    lemma_table_line_len(dash_cells, w);
    assert forall|k: int| 1 <= k < lines.len() implies #[trigger] lines[k].len() == line_width(w) by {
        if k >= 3 {
            let i = k - 3;
            assert(rows[i].len() == 6);
            assert forall|c: int| 0 <= c < rows[i].len() implies #[trigger] rows[i][c].len() <= w[c] by {
                lemma_column_width_bounds(hs[c], rows, c);
            }
            lemma_table_line_len(rows[i], w);
        }
    }
}

/// How the request for one card of a `usage` run ended.
pub enum CardOutcome {
    /// The PIN was empty, so nothing was asked.
    EmptyPin,
    /// The card's lines (see [`card_lines`]).
    Lines(Vec<String>),
    /// The request failed; the message says why.
    Failed(String),
}

/// What a `usage` run shows for one card.
pub struct CardReport {
    /// Lines for standard output.
    pub out: Vec<String>,
    /// Lines for standard error.
    pub err: Vec<String>,
    /// Whether the card counts as a failed request.
    pub failed: bool,
}

/// The start of an error line about card number `number`.
pub open spec fn card_label(number: nat) -> Seq<char> {
    "Card "@ + decimal(number) + ": "@
}

/// The blank line that separates card `index` (counted from 0) from the
/// next one; the last card has none.
pub open spec fn card_separator(index: int, count: int) -> Seq<Seq<char>> {
    if index + 1 < count {
        seq![Seq::<char>::empty()]
    } else {
        Seq::empty()
    }
}

/// What a run over `count` cards shows for the card at `index` (counted
/// from 0): an empty PIN is an error line and a failure, with no separator;
/// a card's lines, or the error line of a failed request, are followed by a
/// blank line unless the card is the last one.
pub fn report_card(index: usize, count: usize, outcome: CardOutcome) -> (r: CardReport)
    requires
        index < count,
    ensures
        match outcome {
            CardOutcome::EmptyPin => {
                &&& r.out@.len() == 0
                &&& cells_view(r.err@) == seq![card_label((index + 1) as nat) + "PIN is empty."@]
                &&& r.failed
            },
            CardOutcome::Lines(lines) => {
                &&& cells_view(r.out@) == cells_view(lines@) + card_separator(index as int, count as int)
                &&& r.err@.len() == 0
                &&& !r.failed
            },
            CardOutcome::Failed(message) => {
                &&& cells_view(r.out@) == card_separator(index as int, count as int)
                &&& cells_view(r.err@) == seq![card_label((index + 1) as nat) + message@]
                &&& r.failed
            },
        },
{
    let number = (index + 1) as u64;
    let mut label = "Card ".to_owned();
    push_decimal(&mut label, number);
    label.append(": ");
    let mut out: Vec<String> = Vec::new();
    let mut err: Vec<String> = Vec::new();
    let failed = match outcome {
        CardOutcome::EmptyPin => {
            label.append("PIN is empty.");
            err.push(label);
            assert(cells_view(err@) =~= seq![card_label((index + 1) as nat) + "PIN is empty."@]);
            return CardReport { out, err, failed: true };
        },
        CardOutcome::Lines(lines) => {
            out = lines;
            false
        },
        CardOutcome::Failed(message) => {
            label.append(message.as_str());
            err.push(label);
            assert(cells_view(err@) =~= seq![card_label((index + 1) as nat) + message@]);
            true
        },
    };
    let ghost before = cells_view(out@);
    if index + 1 < count {
        out.push(String::new());
    }
    assert(cells_view(out@) =~= before + card_separator(index as int, count as int));
    CardReport { out, err, failed }
}

/// The error that ends a `usage` run in which `failures` card requests
/// failed, or `None` when none did.
pub fn run_failure(failures: u64) -> (r: Option<String>)
    ensures
        failures == 0 ==> r is None,
        failures > 0 ==> (r matches Some(m) && m@ == decimal(failures as nat)
            + " card request(s) failed"@),
{
    if failures == 0 {
        return None;
    }
    let mut message = String::new();
    push_decimal(&mut message, failures);
    message.append(" card request(s) failed");
    Some(message)
}

} // verus!
