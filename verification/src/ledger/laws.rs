//! What holds of every ledger and every log.

use crate::decimal::laws::{equal_by_value, nothing_is_left};
use crate::domain::order::{Fill, OrderDirection};
use crate::domain::types::{Qty, Side};
use crate::ledger::ledger::{ledger_is_its_books, Ledger, SideBook};
use crate::ledger::wal::{appended, ledger_after, records_among, records_in};
use crate::text::laws::splitting_loses_nothing;
use crate::text::{lines, pieces, trimmed, without_return};
use vstd::prelude::*;

verus! {

/// A fill of one side leaves the other as it was.
pub proof fn sides_are_independent(ledger: Ledger, fill: Fill)
    ensures
        ledger.filled(fill).book(fill.side) == ledger.book(fill.side).filled(fill),
        ledger.filled(fill).book(fill.side.other()) == ledger.book(fill.side.other()),
{
    ledger_is_its_books(ledger.book(Side::Up).filled(fill), ledger.book(Side::Down), ledger);
    ledger_is_its_books(ledger.book(Side::Up), ledger.book(Side::Down).filled(fill), ledger);
}

/// A fill changes its own side: a purchase adds its shares and its cash to what is held and
/// what that cost; a sale takes its shares away and their cost at the average, whatever it
/// brought in; and the other side stays.
pub proof fn fills_change_their_own_side(ledger: Ledger, fill: Fill)
    requires
        ledger.book(fill.side).qty.wf(),
        fill.filled_qty.wf(),
        ledger.book(fill.side).qty@ >= 0real,
        fill.filled_qty@ >= 0real,
    ensures
        ({
            let before = ledger.book(fill.side);
            let after = ledger.filled(fill).book(fill.side);
            let other = if fill.side == Side::Up { Side::Down } else { Side::Up };
            let left = before.qty - fill.filled_qty;
            &&& ledger.filled(fill).book(other) == ledger.book(other)
            &&& fill.direction == OrderDirection::Buy ==> after.qty == before.qty
                + fill.filled_qty && after.cost == before.cost + fill.cash
            &&& fill.direction == OrderDirection::Sell ==> {
                &&& fill.filled_qty@ >= before.qty@ && before.qty@ > 0real ==> after.qty@ == 0real
                    && after.cost@ == 0real
                &&& 0real < fill.filled_qty@ < before.qty@ && left@ != 0real ==> after.qty == left
                    && after.cost == before.cost - before.cost / before.qty * fill.filled_qty
                &&& fill.filled_qty@ == 0real || before.qty@ == 0real ==> after == before
            }
        }),
{
    sides_are_independent(ledger, fill);
    let before = ledger.book(fill.side);
    crate::decimal::laws::zero_value();
    if before.qty@ > 0real && fill.filled_qty@ >= before.qty@ {
        overselling_leaves_nothing(before, fill.filled_qty);
    }
}

/// The average of a side is its cost over its shares, and 0 where nothing is held.
pub proof fn averages_are_cost_over_shares(book: SideBook)
    ensures
        book.qty@ == 0real ==> book.average()@ == 0real,
        book.qty@ != 0real ==> book.average() == book.cost / book.qty,
        SideBook::empty().qty@ == 0real,
        SideBook::empty().cost@ == 0real,
{
    crate::decimal::laws::zero_value();
}

/// No more is sold than is held: selling as much or more leaves nothing, and nothing
/// of the cost.
pub proof fn overselling_leaves_nothing(book: SideBook, qty: Qty)
    requires
        book.qty.wf(),
        qty.wf(),
        book.qty@ > 0real,
        qty@ >= book.qty@,
    ensures
        book.sold(qty) == SideBook::empty(),
{
    nothing_is_left(book.qty);
    if qty@ == book.qty@ {
        equal_by_value(qty, book.qty);
    }
    assert(qty.smaller(book.qty) == book.qty);
}

/// Selling never makes a holding negative.
pub proof fn holdings_stay_nonnegative(book: SideBook, qty: Qty)
    requires
        book.qty@ >= 0real,
        book.sold_fits(qty),
    ensures
        book.sold(qty).qty@ >= 0real,
{
    let taken = qty.smaller(book.qty);
    if taken@ != 0real {
        crate::decimal::laws::rounding_is_valid(book.qty@ - taken@);
    }
}

/// A sale keeps the average price of what is left, as long as nothing is rounded.
pub proof fn selling_keeps_the_average(book: SideBook, qty: Qty)
    requires
        ({
            let taken = qty.smaller(book.qty);
            let left = book.qty - taken;
            &&& book.qty@ > 0real
            &&& left@ == book.qty@ - taken@
            &&& left@ != 0real
            &&& book.average()@ * book.qty@ == book.cost@
            &&& (book.average() * taken)@ == book.average()@ * taken@
            &&& (book.cost - book.average() * taken)@ == book.cost@ - (book.average() * taken)@
        }),
    ensures
        book.sold(qty).cost@ == book.average()@ * book.sold(qty).qty@,
        book.sold(qty).cost@ / book.sold(qty).qty@ == book.average()@,
{
    let taken = qty.smaller(book.qty);
    let a = book.average()@;
    let q = book.qty@;
    let t = taken@;
    assert(a * q - a * t == a * (q - t)) by (nonlinear_arith);
    let rest = q - t;
    if t == 0real {
        assert(a * 0real == 0real) by (nonlinear_arith);
    }
    assert((a * rest) / rest == a) by (nonlinear_arith)
        requires
            rest != 0real,
    ;
}

/// A log of whole lines.
pub open spec fn is_whole(log: Seq<char>) -> bool {
    log.len() == 0 || log.last() == '\n'
}

/// Whether a record can be told from the line ending and from a blank line.
pub open spec fn is_record(record: Seq<char>) -> bool {
    &&& !record.contains('\n')
    &&& trimmed(record).len() > 0
    &&& record.len() > 0 && record.last() != '\r'
}

/// What is appended is read back: after the records that were there, in order, and
/// the log is whole again.
pub proof fn appended_records_are_read_back(log: Seq<char>, record: Seq<char>)
    requires
        is_whole(log),
        is_record(record),
    ensures
        is_whole(appended(log, record)),
        records_in(appended(log, record)) == records_in(log).push(record),
{
    lemma_lines_appended(log, record);
    let all = lines(appended(log, record));
    assert(all.drop_last() =~= lines(log));
}

/// An empty log has no records.
pub proof fn empty_log_has_no_records()
    ensures
        records_in(Seq::<char>::empty()).len() == 0,
        is_whole(Seq::<char>::empty()),
{
    let empty = Seq::<char>::empty();
    assert(pieces(empty, '\n') =~= seq![Seq::<char>::empty()]);
    assert(lines(empty) =~= Seq::<Seq<char>>::empty());
}

/// The ledger rebuilt from a log with one more fill is the ledger rebuilt without it,
/// after that fill: replaying gives back the ledger that was kept along the way.
pub proof fn replay_follows_the_live_ledger(fills: Seq<Fill>, fill: Fill)
    ensures
        ledger_after(fills.push(fill)) == ledger_after(fills).filled(fill),
{
    assert(fills.push(fill).drop_last() =~= fills);
}

/// Only blank lines are no records: every other line is one, in order and as it is.
pub proof fn only_blank_lines_are_skipped(all: Seq<Seq<char>>, line: Seq<char>)
    ensures
        records_among(Seq::empty()).len() == 0,
        records_among(all.push(line)) == (if trimmed(line).len() == 0 {
            records_among(all)
        } else {
            records_among(all).push(line)
        }),
{
    assert(all.push(line).drop_last() =~= all);
}

proof fn lemma_whole(log: Seq<char>)
    requires
        is_whole(log),
    ensures
        pieces(log, '\n').len() > 0,
        pieces(log, '\n').last().len() == 0,
{
    if log.len() > 0 {
        splitting_loses_nothing(log, '\n');
    }
}

/// Text without a separator goes to the last piece.
proof fn lemma_pieces_extend(log: Seq<char>, record: Seq<char>)
    requires
        !record.contains('\n'),
    ensures
        pieces(log + record, '\n').len() == pieces(log, '\n').len(),
        pieces(log, '\n').len() > 0,
        pieces(log + record, '\n').drop_last() == pieces(log, '\n').drop_last(),
        pieces(log + record, '\n').last() == pieces(log, '\n').last() + record,
    decreases record.len(),
{
    splitting_loses_nothing(log, '\n');
    if record.len() == 0 {
        assert(log + record =~= log);
        assert(pieces(log, '\n').last() + record =~= pieces(log, '\n').last());
    } else {
        let init = record.drop_last();
        assert(!init.contains('\n')) by {
            if init.contains('\n') {
                let k = choose|k: int| 0 <= k < init.len() && init[k] == '\n';
                assert(record[k] == '\n');
            }
        }
        lemma_pieces_extend(log, init);
        let text = log + record;
        assert(text.drop_last() =~= log + init);
        assert(text.last() == record.last());
        assert(record[record.len() - 1] != '\n');
        let before = pieces(log + init, '\n');
        assert(pieces(text, '\n') == before.drop_last().push(before.last().push(record.last())));
        assert(pieces(text, '\n').drop_last() =~= before.drop_last());
        assert(pieces(log, '\n').last() + record =~= (pieces(log, '\n').last() + init).push(
            record.last(),
        ));
    }
}

proof fn lemma_lines_appended(log: Seq<char>, record: Seq<char>)
    requires
        is_whole(log),
        is_record(record),
    ensures
        lines(appended(log, record)) == lines(log).push(record),
{
    lemma_whole(log);
    lemma_pieces_extend(log, record);
    let text = appended(log, record);
    assert(text.drop_last() =~= log + record);
    let old_pieces = pieces(log, '\n');
    let mid = pieces(log + record, '\n');
    let all = pieces(text, '\n');
    assert(all == mid.push(Seq::empty()));
    assert(old_pieces.last() + record =~= record);
    assert(mid.last() == record);
    assert(without_return(record) == record);
    assert(all.len() == old_pieces.len() + 1);
    assert forall|i: int| 0 <= i < old_pieces.len() - 1 implies all[i] == old_pieces[i] by {
        assert(mid.drop_last()[i] == old_pieces.drop_last()[i]);
    }
    assert(all[old_pieces.len() - 1] == record);
    assert(lines(text) =~= lines(log).push(record));
}

} // verus!
