//! Reads recorded markets from comma-separated text.
//!
//! The first line names the columns; each further line is one second. An empty cell
//! is a missing quote. `pm_price` is the spot price and `ptb` the price to beat: `Up`
//! wins if the last spot price is above the last price to beat.

use crate::backtest::market::Market;
use crate::decimal::{parsed, Decimal};
use crate::domain::market::{BookTop, MarketSnapshot};
use crate::domain::types::{Price, Side};
use crate::text::{
    chars_of, lines, pieces, same, split, split_lines, string_of, texts, trim, trimmed,
};
use vstd::prelude::*;

verus! {

/// Why a market could not be read.
#[derive(Debug)]
pub enum LoadError {
    /// The file could not be read.
    Io(String),
    /// The text is no recorded market.
    Malformed(String),
}

/// The places of the columns.
#[derive(Debug, Clone, Copy, PartialEq, Eq, Structural)]
pub struct Columns {
    pub pm_price: usize,
    pub ptb: usize,
    pub up_bid: usize,
    pub up_ask: usize,
    pub down_bid: usize,
    pub down_ask: usize,
}

/// The first place, from `from` on, of a column of this name.
pub open spec fn column(names: Seq<Seq<char>>, name: Seq<char>, from: int) -> Option<int>
    decreases names.len() - from,
{
    if from < 0 || from >= names.len() {
        None
    } else if trimmed(names[from]) == name {
        Some(from)
    } else {
        column(names, name, from + 1)
    }
}

/// The place of a column in a header.
pub open spec fn header_column(header: Seq<char>, name: &str) -> Option<int> {
    column(pieces(header, ','), name@, 0)
}

/// The places of the columns in a header that has all of them.
pub open spec fn header_columns(header: Seq<char>) -> Columns {
    Columns {
        pm_price: header_column(header, "pm_price")->0 as usize,
        ptb: header_column(header, "ptb")->0 as usize,
        up_bid: header_column(header, "up_bid")->0 as usize,
        up_ask: header_column(header, "up_ask")->0 as usize,
        down_bid: header_column(header, "down_bid")->0 as usize,
        down_ask: header_column(header, "down_ask")->0 as usize,
    }
}

/// The first of the needed columns that a header lacks.
pub open spec fn missing_column(header: Seq<char>) -> Option<Seq<char>> {
    if header_column(header, "pm_price") is None {
        Some("pm_price"@)
    } else if header_column(header, "ptb") is None {
        Some("ptb"@)
    } else if header_column(header, "up_bid") is None {
        Some("up_bid"@)
    } else if header_column(header, "up_ask") is None {
        Some("up_ask"@)
    } else if header_column(header, "down_bid") is None {
        Some("down_bid"@)
    } else if header_column(header, "down_ask") is None {
        Some("down_ask"@)
    } else {
        None
    }
}

/// The price in a cell, if there is one.
pub open spec fn cell_price(cell: Seq<char>) -> Option<Price> {
    if trimmed(cell).len() == 0 {
        None
    } else {
        parsed(trimmed(cell))
    }
}

/// What is known after some rows.
pub struct Scan {
    pub snapshots: Seq<MarketSnapshot>,
    pub pm_price: Option<Decimal>,
    pub ptb: Option<Decimal>,
}

/// Whether a row has a cell for `down_ask`; shorter rows are passed over.
pub open spec fn is_row(columns: Columns, row: Seq<char>) -> bool {
    pieces(row, ',').len() > columns.down_ask
}

/// Whether a row that is not passed over has a cell for every column.
pub open spec fn is_complete(columns: Columns, row: Seq<char>) -> bool {
    let n = pieces(row, ',').len();
    is_row(columns, row) ==> {
        &&& columns.pm_price < n
        &&& columns.ptb < n
        &&& columns.up_bid < n
        &&& columns.up_ask < n
        &&& columns.down_bid < n
    }
}

/// The snapshot in a row.
pub open spec fn row_snapshot(columns: Columns, row: Seq<char>) -> MarketSnapshot {
    let cells = pieces(row, ',');
    MarketSnapshot {
        up: BookTop {
            best_bid: cell_price(cells[columns.up_bid as int]),
            best_ask: cell_price(cells[columns.up_ask as int]),
            last_trade: None,
        },
        down: BookTop {
            best_bid: cell_price(cells[columns.down_bid as int]),
            best_ask: cell_price(cells[columns.down_ask as int]),
            last_trade: None,
        },
    }
}

/// What is known after some rows: all snapshots, and the last prices that were there.
pub open spec fn scanned(columns: Columns, rows: Seq<Seq<char>>) -> Scan
    decreases rows.len(),
{
    if rows.len() == 0 {
        Scan { snapshots: Seq::empty(), pm_price: None, ptb: None }
    } else {
        let before = scanned(columns, rows.drop_last());
        let row = rows.last();
        if !is_row(columns, row) {
            before
        } else {
            let cells = pieces(row, ',');
            Scan {
                snapshots: before.snapshots.push(row_snapshot(columns, row)),
                pm_price: match cell_price(cells[columns.pm_price as int]) {
                    Some(price) => Some(price),
                    None => before.pm_price,
                },
                ptb: match cell_price(cells[columns.ptb as int]) {
                    Some(price) => Some(price),
                    None => before.ptb,
                },
            }
        }
    }
}

/// The side that wins: `Up` if the spot price is above the price to beat.
pub open spec fn winning_side(scan: Scan) -> Side {
    match (scan.pm_price, scan.ptb) {
        (Some(pm), Some(ptb)) => if pm@ > ptb@ {
            Side::Up
        } else {
            Side::Down
        },
        _ => Side::Down,
    }
}

/// The rows of a text: all lines but the first.
pub open spec fn rows_of(content: Seq<char>) -> Seq<Seq<char>> {
    lines(content).subrange(1, lines(content).len() as int)
}

/// What all rows of a text say.
pub open spec fn content_scan(content: Seq<char>) -> Scan {
    scanned(header_columns(lines(content)[0]), rows_of(content))
}

/// Whether a text has no row that ends before one of its columns.
pub open spec fn rows_complete(content: Seq<char>) -> bool {
    (lines(content).len() > 0 && missing_column(lines(content)[0]) is None) ==> forall|i: int|
        0 <= i < rows_of(content).len() ==> is_complete(
            header_columns(lines(content)[0]),
            #[trigger] rows_of(content)[i],
        )
}

/// The time in a file name: its first two parts, or all of it.
pub open spec fn title_time(stem: Seq<char>) -> Seq<char> {
    let parts = pieces(stem, '_');
    if parts.len() >= 2 {
        parts[0] + ":"@ + parts[1]
    } else {
        stem
    }
}

/// The title of a market that was recorded in a directory and under a file name.
pub open spec fn title_of(date: Seq<char>, stem: Seq<char>) -> Seq<char> {
    "BTC 15m - "@ + date + " "@ + title_time(stem)
}

/// The complaint about a text that is no recorded market.
pub open spec fn complaint(content: Seq<char>) -> Option<Seq<char>> {
    if lines(content).len() == 0 {
        Some("空文件"@)
    } else {
        match missing_column(lines(content)[0]) {
            Some(name) => Some("缺少列 "@ + name),
            None => if content_scan(content).snapshots.len() == 0 {
                Some("无数据行"@)
            } else if content_scan(content).ptb is None {
                Some("缺结算基准价 ptb"@)
            } else {
                None
            },
        }
    }
}

/// Finds a column.
fn find_column(names: &Vec<Vec<char>>, name: &str) -> (r: Option<usize>)
    ensures
        match r {
            Some(i) => column(texts(names@), name@, 0) == Some(i as int),
            None => column(texts(names@), name@, 0) is None,
        },
{
    let wanted = chars_of(name);
    let mut i: usize = 0;
    while i < names.len()
        invariant
            i <= names@.len(),
            wanted@ == name@,
            column(texts(names@), name@, 0) == column(texts(names@), name@, i as int),
        decreases names@.len() - i,
    {
        assert(texts(names@)[i as int] == names@[i as int]@);
        if same(&trim(&names[i]), &wanted) {
            return Some(i);
        }
        i += 1;
    }
    None
}

/// The error about a column that is missing.
fn missing(name: &str) -> (r: LoadError)
    ensures
        r matches LoadError::Malformed(text) && text@ == "缺少列 "@ + name@,
{
    let mut text = "缺少列 ".to_string();
    text.append(name);
    LoadError::Malformed(text)
}

impl Columns {
    /// Finds the columns in a header.
    pub fn from_header(header: &Vec<char>) -> (r: Result<Self, LoadError>)
        ensures
            match r {
                Ok(columns) => missing_column(header@) is None && columns == header_columns(
                    header@,
                ),
                Err(e) => missing_column(header@) matches Some(name) && (e
                    matches LoadError::Malformed(text) && text@ == "缺少列 "@ + name),
            },
    {
        let names = split(header, ',');
        let pm_price = match find_column(&names, "pm_price") {
            Some(i) => i,
            None => {
                return Err(missing("pm_price"));
            },
        };
        let ptb = match find_column(&names, "ptb") {
            Some(i) => i,
            None => {
                return Err(missing("ptb"));
            },
        };
        let up_bid = match find_column(&names, "up_bid") {
            Some(i) => i,
            None => {
                return Err(missing("up_bid"));
            },
        };
        let up_ask = match find_column(&names, "up_ask") {
            Some(i) => i,
            None => {
                return Err(missing("up_ask"));
            },
        };
        let down_bid = match find_column(&names, "down_bid") {
            Some(i) => i,
            None => {
                return Err(missing("down_bid"));
            },
        };
        let down_ask = match find_column(&names, "down_ask") {
            Some(i) => i,
            None => {
                return Err(missing("down_ask"));
            },
        };
        Ok(Columns { pm_price, ptb, up_bid, up_ask, down_bid, down_ask })
    }
}

/// Reads the price in a cell.
pub fn parse_price(cell: &Vec<char>) -> (r: Option<Price>)
    ensures
        r == cell_price(cell@),
{
    let text = trim(cell);
    if text.len() == 0 {
        return None;
    }
    Decimal::parse(string_of(&text).as_str())
}

/// Reads a recorded market out of the content of a file. `date` is the name of its
/// directory, `stem` its own name without extension, and `source_file` its path.
pub fn load_market(content: &str, date: &str, stem: &str, source_file: &str) -> (r: Result<
    Market,
    LoadError,
>)
    requires
        rows_complete(content@),
    ensures
        match r {
            Ok(market) => {
                &&& complaint(content@) is None
                &&& market.snapshots@ == content_scan(content@).snapshots
                &&& market.winner == winning_side(content_scan(content@))
                &&& market.title@ == title_of(date@, stem@)
                &&& market.source_file@ == source_file@
            },
            Err(e) => e matches LoadError::Malformed(text) && complaint(content@) == Some(text@),
        },
{
    let all = split_lines(&chars_of(content));
    if all.len() == 0 {
        return Err(LoadError::Malformed("空文件".to_string()));
    }
    assert(all@[0]@ == lines(content@)[0]);
    let columns = match Columns::from_header(&all[0]) {
        Ok(columns) => columns,
        Err(e) => {
            return Err(e);
        },
    };
    let ghost rows = rows_of(content@);
    let mut snapshots: Vec<MarketSnapshot> = Vec::new();
    let mut last_pm_price: Option<Decimal> = None;
    let mut last_ptb: Option<Decimal> = None;
    let mut i: usize = 1;
    proof {
        assert(rows.take(0) =~= Seq::<Seq<char>>::empty());
    }
    while i < all.len()
        invariant
            1 <= i <= all@.len(),
            texts(all@) == lines(content@),
            rows == rows_of(content@),
            columns == header_columns(lines(content@)[0]),
            missing_column(lines(content@)[0]) is None,
            rows_complete(content@),
            ({
                let scan = scanned(columns, rows.take(i - 1));
                &&& snapshots@ == scan.snapshots
                &&& last_pm_price == scan.pm_price
                &&& last_ptb == scan.ptb
            }),
        decreases all@.len() - i,
    {
        let cells = split(&all[i], ',');
        proof {
            assert(all@[i as int]@ == lines(content@)[i as int]);
            assert(rows[i - 1] == all@[i as int]@);
            assert(rows.take(i as int).drop_last() =~= rows.take(i - 1));
            assert(rows.take(i as int).last() == rows[i - 1]);
            assert(is_complete(columns, rows[i - 1]));
            assert(texts(cells@).len() == cells@.len());
        }
        if cells.len() > columns.down_ask {
            proof {
                let pieces = pieces(rows[i - 1], ',');
                assert(cells@[columns.pm_price as int]@ == pieces[columns.pm_price as int]);
                assert(cells@[columns.ptb as int]@ == pieces[columns.ptb as int]);
                assert(cells@[columns.up_bid as int]@ == pieces[columns.up_bid as int]);
                assert(cells@[columns.up_ask as int]@ == pieces[columns.up_ask as int]);
                assert(cells@[columns.down_bid as int]@ == pieces[columns.down_bid as int]);
                assert(cells@[columns.down_ask as int]@ == pieces[columns.down_ask as int]);
            }
            if let Some(pm) = parse_price(&cells[columns.pm_price]) {
                last_pm_price = Some(pm);
            }
            if let Some(ptb) = parse_price(&cells[columns.ptb]) {
                last_ptb = Some(ptb);
            }
            let up = BookTop {
                best_bid: parse_price(&cells[columns.up_bid]),
                best_ask: parse_price(&cells[columns.up_ask]),
                last_trade: None,
            };
            let down = BookTop {
                best_bid: parse_price(&cells[columns.down_bid]),
                best_ask: parse_price(&cells[columns.down_ask]),
                last_trade: None,
            };
            snapshots.push(MarketSnapshot { up, down });
        }
        i += 1;
    }
    proof {
        assert(rows.take(all@.len() - 1) =~= rows);
    }
    if snapshots.len() == 0 {
        return Err(LoadError::Malformed("无数据行".to_string()));
    }
    let ptb = match last_ptb {
        Some(ptb) => ptb,
        None => {
            return Err(LoadError::Malformed("缺结算基准价 ptb".to_string()));
        },
    };
    let pm = match last_pm_price {
        Some(pm) => pm,
        None => ptb,
    };
    let winner = if pm.gt(ptb) {
        Side::Up
    } else {
        Side::Down
    };
    Ok(
        Market {
            snapshots,
            winner,
            title: market_title(date, stem),
            source_file: source_file.to_string(),
        },
    )
}

/// Tells whether a text has no row that ends before one of its columns, so that
/// `load_market` can read it.
pub fn has_complete_rows(content: &str) -> (r: bool)
    ensures
        r == rows_complete(content@),
{
    let all = split_lines(&chars_of(content));
    if all.len() == 0 {
        return true;
    }
    assert(all@[0]@ == lines(content@)[0]);
    let columns = match Columns::from_header(&all[0]) {
        Ok(columns) => columns,
        Err(_) => {
            return true;
        },
    };
    let ghost rows = rows_of(content@);
    let mut i: usize = 1;
    while i < all.len()
        invariant
            1 <= i <= all@.len(),
            texts(all@) == lines(content@),
            rows == rows_of(content@),
            columns == header_columns(lines(content@)[0]),
            missing_column(lines(content@)[0]) is None,
            forall|k: int| 0 <= k < i - 1 ==> is_complete(columns, #[trigger] rows[k]),
        decreases all@.len() - i,
    {
        let cells = split(&all[i], ',');
        proof {
            assert(all@[i as int]@ == lines(content@)[i as int]);
            assert(rows[i - 1] == all@[i as int]@);
            assert(texts(cells@).len() == cells@.len());
        }
        let n: usize = cells.len();
        if n > columns.down_ask && !(columns.pm_price < n && columns.ptb < n && columns.up_bid < n
            && columns.up_ask < n && columns.down_bid < n) {
            assert(!is_complete(columns, rows[i - 1]));
            return false;
        }
        assert(is_complete(columns, rows[i - 1]));
        i += 1;
    }
    true
}

/// Reads a recorded market as `load_market` does, or returns `None` where a row ends
/// before one of its columns.
pub fn try_load_market(content: &str, date: &str, stem: &str, source_file: &str) -> (r: Option<
    Result<Market, LoadError>,
>)
    ensures
        match r {
            Some(Ok(market)) => {
                &&& rows_complete(content@)
                &&& complaint(content@) is None
                &&& market.snapshots@ == content_scan(content@).snapshots
                &&& market.winner == winning_side(content_scan(content@))
                &&& market.title@ == title_of(date@, stem@)
                &&& market.source_file@ == source_file@
            },
            Some(Err(e)) => rows_complete(content@) && (e matches LoadError::Malformed(text)
                && complaint(content@) == Some(text@)),
            None => !rows_complete(content@),
        },
{
    if has_complete_rows(content) {
        Some(load_market(content, date, stem, source_file))
    } else {
        None
    }
}

/// Makes the title of a market, such as "BTC 15m - 2026-05-22 07:30".
pub fn market_title(date: &str, stem: &str) -> (r: String)
    ensures
        r@ == title_of(date@, stem@),
{
    let parts = split(&chars_of(stem), '_');
    let mut title = "BTC 15m - ".to_string();
    title.append(date);
    title.append(" ");
    let ghost start = title@;
    if parts.len() >= 2 {
        let first = string_of(&parts[0]);
        let second = string_of(&parts[1]);
        title.append(first.as_str());
        title.append(":");
        title.append(second.as_str());
        proof {
            assert(parts@[0]@ == pieces(stem@, '_')[0]);
            assert(parts@[1]@ == pieces(stem@, '_')[1]);
            assert(title@ =~= start + title_time(stem@));
        }
    } else {
        title.append(stem);
    }
    title
}

} // verus!
