//! What is read out of a recorded market, told by the cells under the names of the header.

use crate::backtest::real_data::{
    column, complaint, content_scan, header_columns, is_complete, missing_column, rows_complete,
    rows_of, scanned, title_of, winning_side, Columns,
};
use crate::decimal::{parsed, Decimal};
use crate::domain::types::{Price, Side};
use crate::text::laws::{splitting_goes_piece_by_piece, words_are_not_split};
use crate::text::{lines, pieces, trimmed};
use vstd::prelude::*;

verus! {

/// Whether the column of a name is the one at `k`: the first cell of the header that is
/// the name, apart from white space around it.
pub open spec fn is_column(header: Seq<char>, name: Seq<char>, k: int) -> bool {
    &&& 0 <= k < pieces(header, ',').len()
    &&& trimmed(pieces(header, ',')[k]) == name
    &&& forall|j: int| 0 <= j < k ==> trimmed(#[trigger] pieces(header, ',')[j]) != name
}

/// Whether a header has a column of a name.
pub open spec fn has_column(header: Seq<char>, name: Seq<char>) -> bool {
    exists|k: int|
        0 <= k < pieces(header, ',').len() && trimmed(#[trigger] pieces(header, ',')[k]) == name
}

/// Whether a quote is what a cell says: none where the cell is blank, and otherwise the
/// number that it spells, if it spells one.
pub open spec fn says(cell: Seq<char>, quote: Option<Price>) -> bool {
    &&& trimmed(cell).len() == 0 ==> quote is None
    &&& trimmed(cell).len() > 0 ==> quote == parsed(trimmed(cell))
}

/// How many of the lines from the second to the one before `n` have a cell at `k`.
pub open spec fn long_rows(all: Seq<Seq<char>>, k: int, n: int) -> nat
    decreases n,
{
    if n <= 1 {
        0
    } else {
        long_rows(all, k, n - 1) + if pieces(all[n - 1], ',').len() > k {
            1nat
        } else {
            0nat
        }
    }
}

/// Whether a header has the columns of the four quotes at these places.
pub open spec fn quotes_are_at(
    header: Seq<char>,
    up_bid: int,
    up_ask: int,
    down_bid: int,
    down_ask: int,
) -> bool {
    &&& is_column(header, "up_bid"@, up_bid)
    &&& is_column(header, "up_ask"@, up_ask)
    &&& is_column(header, "down_bid"@, down_bid)
    &&& is_column(header, "down_ask"@, down_ask)
    &&& pieces(header, ',').len() <= usize::MAX
}

/// Every row with a cell for the last quote gives one snapshot, in order, and each of the
/// four quotes of that snapshot is what the cell under its own name says. Other rows give
/// none.
pub proof fn quotes_are_read_from_their_columns(
    content: Seq<char>,
    row: int,
    up_bid: int,
    up_ask: int,
    down_bid: int,
    down_ask: int,
) -> (j: int)
    requires
        1 <= row < lines(content).len(),
        quotes_are_at(lines(content)[0], up_bid, up_ask, down_bid, down_ask),
        pieces(lines(content)[row], ',').len() > down_ask,
    ensures
        j == long_rows(lines(content), down_ask, row),
        j < content_scan(content).snapshots.len(),
        content_scan(content).snapshots.len() == long_rows(
            lines(content),
            down_ask,
            lines(content).len() as int,
        ),
        ({
            let cells = pieces(lines(content)[row], ',');
            let snapshot = content_scan(content).snapshots[j];
            &&& says(cells[up_bid], snapshot.up.best_bid)
            &&& says(cells[up_ask], snapshot.up.best_ask)
            &&& says(cells[down_bid], snapshot.down.best_bid)
            &&& says(cells[down_ask], snapshot.down.best_ask)
            &&& snapshot.up.last_trade is None
            &&& snapshot.down.last_trade is None
        }),
{
    let header = lines(content)[0];
    let columns = header_columns(header);
    lemma_column(pieces(header, ','), "up_bid"@, 0, up_bid);
    lemma_column(pieces(header, ','), "up_ask"@, 0, up_ask);
    lemma_column(pieces(header, ','), "down_bid"@, 0, down_bid);
    lemma_column(pieces(header, ','), "down_ask"@, 0, down_ask);
    let rows = rows_of(content);
    lemma_count(content, columns, rows.len() as int);
    lemma_count(content, columns, row - 1);
    lemma_count(content, columns, row as int);
    assert(rows.take(rows.len() as int) =~= rows);
    assert(rows.take(row as int).drop_last() =~= rows.take(row - 1));
    assert(rows[row - 1] == lines(content)[row]);
    let j = long_rows(lines(content), down_ask, row) as int;
    let upto = scanned(columns, rows.take(row as int));
    assert(upto.snapshots.len() == j + 1);
    lemma_prefix(columns, rows, row as int);
    assert(content_scan(content).snapshots[j] == upto.snapshots[j]);
    j
}

/// Whether a row is the last in which a column says a number, and the number is `x`.
pub open spec fn says_last(content: Seq<char>, down_ask: int, k: int, row: int, x: Decimal) -> bool {
    &&& 1 <= row < lines(content).len()
    &&& pieces(lines(content)[row], ',').len() > down_ask
    &&& says(pieces(lines(content)[row], ',')[k], Some(x))
    &&& forall|later: int|
        row < later < lines(content).len() && pieces(#[trigger] lines(content)[later], ',').len()
            > down_ask ==> says(pieces(lines(content)[later], ',')[k], None)
}

/// `Up` wins if and only if the last spot price is above the last price to beat, each read
/// under its own name.
pub proof fn the_last_prices_decide(
    content: Seq<char>,
    down_ask: int,
    pm_price: int,
    ptb: int,
    spot_row: int,
    spot: Decimal,
    beat_row: int,
    beat: Decimal,
)
    requires
        lines(content).len() > 0,
        is_column(lines(content)[0], "down_ask"@, down_ask),
        is_column(lines(content)[0], "pm_price"@, pm_price),
        is_column(lines(content)[0], "ptb"@, ptb),
        pieces(lines(content)[0], ',').len() <= usize::MAX,
        says_last(content, down_ask, pm_price, spot_row, spot),
        says_last(content, down_ask, ptb, beat_row, beat),
    ensures
        winning_side(content_scan(content)) == (if spot@ > beat@ {
            Side::Up
        } else {
            Side::Down
        }),
{
    let header = lines(content)[0];
    let columns = header_columns(header);
    lemma_column(pieces(header, ','), "down_ask"@, 0, down_ask);
    lemma_column(pieces(header, ','), "pm_price"@, 0, pm_price);
    lemma_column(pieces(header, ','), "ptb"@, 0, ptb);
    let rows = rows_of(content);
    lemma_last_spot(content, columns, rows.len() as int, spot_row, spot);
    lemma_last_beat(content, columns, rows.len() as int, beat_row, beat);
    assert(rows.take(rows.len() as int) =~= rows);
}

/// A text is refused for the first reason that holds: it has no line; a needed column is
/// missing, the first of them being named; no row has a cell for the last quote; no row
/// says the price to beat. Otherwise it is a recorded market.
pub proof fn texts_are_refused_for_a_reason(content: Seq<char>)
    requires
        lines(content).len() > 0 ==> pieces(lines(content)[0], ',').len() <= usize::MAX,
    ensures
        lines(content).len() == 0 ==> complaint(content) == Some("空文件"@),
        lines(content).len() > 0 ==> ({
            let header = lines(content)[0];
            let lacks = |name: Seq<char>| !has_column(header, name);
            if lacks("pm_price"@) {
                complaint(content) == Some("缺少列 "@ + "pm_price"@)
            } else if lacks("ptb"@) {
                complaint(content) == Some("缺少列 "@ + "ptb"@)
            } else if lacks("up_bid"@) {
                complaint(content) == Some("缺少列 "@ + "up_bid"@)
            } else if lacks("up_ask"@) {
                complaint(content) == Some("缺少列 "@ + "up_ask"@)
            } else if lacks("down_bid"@) {
                complaint(content) == Some("缺少列 "@ + "down_bid"@)
            } else if lacks("down_ask"@) {
                complaint(content) == Some("缺少列 "@ + "down_ask"@)
            } else {
                forall|down_ask: int, ptb: int| #[trigger]
                    is_column(header, "down_ask"@, down_ask) && #[trigger] is_column(
                        header,
                        "ptb"@,
                        ptb,
                    ) ==> {
                        let n = long_rows(lines(content), down_ask, lines(content).len() as int);
                        let never = forall|row: int|
                            1 <= row < lines(content).len() && pieces(
                                #[trigger] lines(content)[row],
                                ',',
                            ).len() > down_ask ==> says(
                                pieces(lines(content)[row], ',')[ptb],
                                None,
                            );
                        complaint(content) == (if n == 0 {
                            Some("无数据行"@)
                        } else if never {
                            Some("缺结算基准价 ptb"@)
                        } else {
                            None
                        })
                    }
            }
        }),
{
    if lines(content).len() > 0 {
        let header = lines(content)[0];
        let names = pieces(header, ',');
        lemma_missing(names, "pm_price"@, 0);
        lemma_missing(names, "ptb"@, 0);
        lemma_missing(names, "up_bid"@, 0);
        lemma_missing(names, "up_ask"@, 0);
        lemma_missing(names, "down_bid"@, 0);
        lemma_missing(names, "down_ask"@, 0);
        let columns = header_columns(header);
        let rows = rows_of(content);
        assert(rows.take(rows.len() as int) =~= rows);
        assert forall|down_ask: int, ptb: int| #[trigger]
            is_column(header, "down_ask"@, down_ask) && #[trigger] is_column(header, "ptb"@, ptb)
                && missing_column(header) is None implies {
            let n = long_rows(lines(content), down_ask, lines(content).len() as int);
            let never = forall|row: int|
                1 <= row < lines(content).len() && pieces(#[trigger] lines(content)[row], ',').len()
                    > down_ask ==> says(pieces(lines(content)[row], ',')[ptb], None);
            complaint(content) == (if n == 0 {
                Some("无数据行"@)
            } else if never {
                Some("缺结算基准价 ptb"@)
            } else {
                None
            })
        } by {
            lemma_column(names, "down_ask"@, 0, down_ask);
            lemma_column(names, "ptb"@, 0, ptb);
            lemma_count(content, columns, rows.len() as int);
            lemma_beat_is_said(content, columns, rows.len() as int);
        }
    }
}

/// A text has complete rows if and only if every row with a cell for the last quote has a
/// cell under each of the needed names. Without a line or a needed column there is nothing
/// to be incomplete.
pub proof fn complete_rows_reach_every_column(
    content: Seq<char>,
    pm_price: int,
    ptb: int,
    up_bid: int,
    up_ask: int,
    down_bid: int,
    down_ask: int,
)
    requires
        lines(content).len() > 0 ==> pieces(lines(content)[0], ',').len() <= usize::MAX,
    ensures
        lines(content).len() == 0 ==> rows_complete(content),
        lines(content).len() > 0 && (!has_column(lines(content)[0], "pm_price"@) || !has_column(
            lines(content)[0],
            "ptb"@,
        ) || !has_column(lines(content)[0], "up_bid"@) || !has_column(
            lines(content)[0],
            "up_ask"@,
        ) || !has_column(lines(content)[0], "down_bid"@) || !has_column(
            lines(content)[0],
            "down_ask"@,
        )) ==> rows_complete(content),
        lines(content).len() > 0 && is_column(lines(content)[0], "pm_price"@, pm_price)
            && is_column(lines(content)[0], "ptb"@, ptb) && quotes_are_at(
            lines(content)[0],
            up_bid,
            up_ask,
            down_bid,
            down_ask,
        ) ==> (rows_complete(content) <==> forall|row: int|
            1 <= row < lines(content).len() ==> {
                let n = pieces(#[trigger] lines(content)[row], ',').len();
                n > down_ask ==> n > pm_price && n > ptb && n > up_bid && n > up_ask && n
                    > down_bid
            }),
{
    if lines(content).len() > 0 {
        let header = lines(content)[0];
        let names = pieces(header, ',');
        lemma_missing(names, "pm_price"@, 0);
        lemma_missing(names, "ptb"@, 0);
        lemma_missing(names, "up_bid"@, 0);
        lemma_missing(names, "up_ask"@, 0);
        lemma_missing(names, "down_bid"@, 0);
        lemma_missing(names, "down_ask"@, 0);
        if is_column(header, "pm_price"@, pm_price) && is_column(header, "ptb"@, ptb)
            && quotes_are_at(header, up_bid, up_ask, down_bid, down_ask) {
            lemma_column(names, "pm_price"@, 0, pm_price);
            lemma_column(names, "ptb"@, 0, ptb);
            lemma_column(names, "up_bid"@, 0, up_bid);
            lemma_column(names, "up_ask"@, 0, up_ask);
            lemma_column(names, "down_bid"@, 0, down_bid);
            lemma_column(names, "down_ask"@, 0, down_ask);
            let rows = rows_of(content);
            let columns = header_columns(header);
            if rows_complete(content) {
                assert forall|row: int| 1 <= row < lines(content).len() implies {
                    let n = pieces(#[trigger] lines(content)[row], ',').len();
                    n > down_ask ==> n > pm_price && n > ptb && n > up_bid && n > up_ask && n
                        > down_bid
                } by {
                    assert(rows[row - 1] == lines(content)[row]);
                    assert(is_complete(columns, rows[row - 1]));
                }
            }
            if forall|row: int|
                1 <= row < lines(content).len() ==> {
                    let n = pieces(#[trigger] lines(content)[row], ',').len();
                    n > down_ask ==> n > pm_price && n > ptb && n > up_bid && n > up_ask && n
                        > down_bid
                } {
                assert forall|i: int| 0 <= i < rows.len() implies is_complete(
                    columns,
                    #[trigger] rows[i],
                ) by {
                    assert(rows[i] == lines(content)[i + 1]);
                }
            }
        }
    }
}

/// The title tells the date and, where the file name begins with two parts before
/// underscores, the time; otherwise it tells the whole name.
pub proof fn titles_tell_date_and_time(
    date: Seq<char>,
    hour: Seq<char>,
    minute: Seq<char>,
    rest: Seq<char>,
)
    requires
        !hour.contains('_'),
        !minute.contains('_'),
    ensures
        title_of(date, hour.push('_') + minute) == "BTC 15m - "@ + date + " "@ + (hour + ":"@
            + minute),
        title_of(date, hour.push('_') + minute.push('_') + rest) == "BTC 15m - "@ + date + " "@ + (
        hour + ":"@ + minute),
        title_of(date, hour) == "BTC 15m - "@ + date + " "@ + hour,
{
    words_are_not_split(hour, '_');
    words_are_not_split(minute, '_');
    splitting_goes_piece_by_piece(hour, minute, '_');
    let long = minute.push('_') + rest;
    splitting_goes_piece_by_piece(minute, rest, '_');
    splitting_goes_piece_by_piece(hour, long, '_');
    assert(hour.push('_') + minute.push('_') + rest =~= hour.push('_') + long);
    crate::text::laws::splitting_loses_nothing(rest, '_');
}

proof fn lemma_column(names: Seq<Seq<char>>, name: Seq<char>, from: int, k: int)
    requires
        0 <= from <= k < names.len(),
        trimmed(names[k]) == name,
        forall|j: int| 0 <= j < k ==> trimmed(#[trigger] names[j]) != name,
    ensures
        column(names, name, from) == Some(k),
    decreases k - from,
{
    if from < k {
        assert(trimmed(names[from]) != name);
        lemma_column(names, name, from + 1, k);
    }
}

proof fn lemma_missing(names: Seq<Seq<char>>, name: Seq<char>, from: int)
    requires
        0 <= from <= names.len(),
    ensures
        column(names, name, from) is Some <==> exists|k: int|
            from <= k < names.len() && trimmed(#[trigger] names[k]) == name,
    decreases names.len() - from,
{
    if from < names.len() {
        lemma_missing(names, name, from + 1);
        if trimmed(names[from]) != name && exists|k: int|
            from <= k < names.len() && trimmed(#[trigger] names[k]) == name {
            let k = choose|k: int| from <= k < names.len() && trimmed(#[trigger] names[k]) == name;
            assert(from + 1 <= k);
        }
    }
}

proof fn lemma_count(content: Seq<char>, columns: Columns, n: int)
    requires
        0 <= n <= rows_of(content).len(),
        lines(content).len() > 0,
    ensures
        scanned(columns, rows_of(content).take(n)).snapshots.len() == long_rows(
            lines(content),
            columns.down_ask as int,
            n + 1,
        ),
    decreases n,
{
    let rows = rows_of(content);
    if n > 0 {
        lemma_count(content, columns, n - 1);
        assert(rows.take(n).drop_last() =~= rows.take(n - 1));
        assert(rows[n - 1] == lines(content)[n]);
    }
}

proof fn lemma_prefix(columns: Columns, rows: Seq<Seq<char>>, n: int)
    requires
        0 <= n <= rows.len(),
    ensures
        scanned(columns, rows.take(n)).snapshots.is_prefix_of(scanned(columns, rows).snapshots),
    decreases rows.len() - n,
{
    if n < rows.len() {
        lemma_prefix(columns, rows, n + 1);
        assert(rows.take(n + 1).drop_last() =~= rows.take(n));
    } else {
        assert(rows.take(n) =~= rows);
    }
}

proof fn lemma_last_spot(content: Seq<char>, columns: Columns, n: int, row: int, x: Decimal)
    requires
        row <= n <= rows_of(content).len(),
        says_last(content, columns.down_ask as int, columns.pm_price as int, row, x),
    ensures
        scanned(columns, rows_of(content).take(n)).pm_price == Some(x),
    decreases n,
{
    let rows = rows_of(content);
    assert(rows.take(n).drop_last() =~= rows.take(n - 1));
    assert(rows[n - 1] == lines(content)[n]);
    if n > row {
        lemma_last_spot(content, columns, n - 1, row, x);
    }
}

proof fn lemma_last_beat(content: Seq<char>, columns: Columns, n: int, row: int, x: Decimal)
    requires
        row <= n <= rows_of(content).len(),
        says_last(content, columns.down_ask as int, columns.ptb as int, row, x),
    ensures
        scanned(columns, rows_of(content).take(n)).ptb == Some(x),
    decreases n,
{
    let rows = rows_of(content);
    assert(rows.take(n).drop_last() =~= rows.take(n - 1));
    assert(rows[n - 1] == lines(content)[n]);
    if n > row {
        lemma_last_beat(content, columns, n - 1, row, x);
    }
}

proof fn lemma_beat_is_said(content: Seq<char>, columns: Columns, n: int)
    requires
        0 <= n <= rows_of(content).len(),
        lines(content).len() > 0,
    ensures
        scanned(columns, rows_of(content).take(n)).ptb is None <==> forall|row: int|
            1 <= row <= n && pieces(#[trigger] lines(content)[row], ',').len() > columns.down_ask
                ==> says(pieces(lines(content)[row], ',')[columns.ptb as int], None),
    decreases n,
{
    let rows = rows_of(content);
    if n > 0 {
        lemma_beat_is_said(content, columns, n - 1);
        assert(rows.take(n).drop_last() =~= rows.take(n - 1));
        assert(rows[n - 1] == lines(content)[n]);
    }
}

} // verus!
