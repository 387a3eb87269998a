//! The write-ahead log: one line per fill, written before the fill is booked. The
//! ledger is a function of the fills in the log, so that replaying it gives it back.

use crate::domain::order::Fill;
use crate::ledger::ledger::{Ledger, SideBook};
use crate::text::{chars_of, lines, split_lines, string_of, texts, trim, trimmed};
use vstd::prelude::*;

verus! {

/// The records among some lines: those that are not blank.
pub open spec fn records_among(all: Seq<Seq<char>>) -> Seq<Seq<char>>
    decreases all.len(),
{
    if all.len() == 0 {
        Seq::empty()
    } else {
        let before = records_among(all.drop_last());
        if trimmed(all.last()).len() == 0 {
            before
        } else {
            before.push(all.last())
        }
    }
}

/// The records in a log.
pub open spec fn records_in(log: Seq<char>) -> Seq<Seq<char>> {
    records_among(lines(log))
}

/// A log after a record was appended.
pub open spec fn appended(log: Seq<char>, record: Seq<char>) -> Seq<char> {
    (log + record).push('\n')
}

/// The ledger after some fills.
pub open spec fn ledger_after(fills: Seq<Fill>) -> Ledger
    decreases fills.len(),
{
    if fills.len() == 0 {
        Ledger::holding(SideBook::empty(), SideBook::empty())
    } else {
        ledger_after(fills.drop_last()).filled(fills.last())
    }
}

/// Whether some fills can be booked in order.
pub open spec fn ledger_fits(fills: Seq<Fill>) -> bool
    decreases fills.len(),
{
    fills.len() > 0 ==> {
        &&& ledger_fits(fills.drop_last())
        &&& ledger_after(fills.drop_last()).book(fills.last().side).filled_fits(fills.last())
    }
}

/// Appends a record to a log, on a line of its own.
pub fn append_record(log: &mut String, record: &str)
    ensures
        final(log)@ == appended(old(log)@, record@),
{
    log.append(record);
    log.push('\n');
}

/// Reads the records in a log, in the order in which they were written.
pub fn replay_records(log: &str) -> (r: Vec<String>)
    ensures
        Seq::new(r@.len(), |i: int| r@[i]@) == records_in(log@),
{
    let all = split_lines(&chars_of(log));
    let mut r: Vec<String> = Vec::new();
    let mut i: usize = 0;
    proof {
        assert(lines(log@).take(0) =~= Seq::<Seq<char>>::empty());
        assert(Seq::new(r@.len(), |k: int| r@[k]@) =~= records_among(lines(log@).take(0)));
    }
    while i < all.len()
        invariant
            i <= all@.len(),
            texts(all@) == lines(log@),
            Seq::new(r@.len(), |k: int| r@[k]@) == records_among(lines(log@).take(i as int)),
        decreases all@.len() - i,
    {
        let ghost before = r@;
        proof {
            assert(lines(log@).take(i as int + 1).drop_last() =~= lines(log@).take(i as int));
            assert(lines(log@).take(i as int + 1).last() == all@[i as int]@);
        }
        if trim(&all[i]).len() > 0 {
            r.push(string_of(&all[i]));
            proof {
                assert(Seq::new(r@.len(), |k: int| r@[k]@) =~= Seq::new(
                    before.len(),
                    |k: int| before[k]@,
                ).push(all@[i as int]@));
            }
        }
        i += 1;
    }
    proof {
        assert(lines(log@).take(all@.len() as int) =~= lines(log@));
    }
    r
}

/// Rebuilds the ledger from the fills in the log.
pub fn rebuild_ledger(fills: &Vec<Fill>) -> (r: Ledger)
    requires
        ledger_fits(fills@),
    ensures
        r == ledger_after(fills@),
{
    let mut ledger = Ledger::new();
    let mut i: usize = 0;
    proof {
        assert(fills@.take(0) =~= Seq::<Fill>::empty());
    }
    while i < fills.len()
        invariant
            i <= fills@.len(),
            ledger_fits(fills@),
            ledger == ledger_after(fills@.take(i as int)),
        decreases fills@.len() - i,
    {
        proof {
            lemma_fits_prefix(fills@, i as int + 1);
            assert(fills@.take(i as int + 1).drop_last() =~= fills@.take(i as int));
        }
        ledger.apply_fill(&fills[i]);
        i += 1;
    }
    proof {
        assert(fills@.take(fills@.len() as int) =~= fills@);
    }
    ledger
}

proof fn lemma_fits_prefix(fills: Seq<Fill>, n: int)
    requires
        0 <= n <= fills.len(),
        ledger_fits(fills),
    ensures
        ledger_fits(fills.take(n)),
    decreases fills.len(),
{
    if n < fills.len() {
        lemma_fits_prefix(fills.drop_last(), n);
        assert(fills.drop_last().take(n) =~= fills.take(n));
    } else {
        assert(fills.take(n) =~= fills);
    }
}

} // verus!
