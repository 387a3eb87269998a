//! What holds of every text.

use crate::text::{lines, pieces, trimmed, trimmed_end, trimmed_start, whitespace};
use vstd::prelude::*;

verus! {

/// The pieces put back together with separators between them.
pub open spec fn joined(parts: Seq<Seq<char>>, separator: char) -> Seq<char>
    decreases parts.len(),
{
    if parts.len() == 0 {
        Seq::empty()
    } else if parts.len() == 1 {
        parts[0]
    } else {
        joined(parts.drop_last(), separator).push(separator) + parts.last()
    }
}

/// Splitting loses nothing: the pieces put back together are the text, there is at
/// least one, and none holds a separator.
pub proof fn splitting_loses_nothing(text: Seq<char>, separator: char)
    ensures
        pieces(text, separator).len() > 0,
        joined(pieces(text, separator), separator) == text,
        forall|i: int|
            0 <= i < pieces(text, separator).len() ==> !(#[trigger] pieces(
                text,
                separator,
            )[i]).contains(separator),
    decreases text.len(),
{
    if text.len() == 0 {
        assert(pieces(text, separator)[0] =~= text);
    } else {
        let init = text.drop_last();
        splitting_loses_nothing(init, separator);
        let before = pieces(init, separator);
        let all = pieces(text, separator);
        assert(text =~= init.push(text.last()));
        if text.last() == separator {
            assert(all.drop_last() =~= before);
            assert(joined(all, separator) =~= text);
        } else {
            assert(all.drop_last() =~= before.drop_last());
            assert(joined(all, separator) =~= text);
            assert forall|i: int| 0 <= i < all.len() implies !(#[trigger] all[i]).contains(
                separator,
            ) by {
                if i == all.len() - 1 {
                    assert(!before[i].contains(separator));
                    assert(all[i] == before[i].push(text.last()));
                    if all[i].contains(separator) {
                        let k = choose|k: int| 0 <= k < all[i].len() && all[i][k] == separator;
                        assert(before[i][k] == separator);
                    }
                } else {
                    assert(all[i] == before[i]);
                }
            }
        }
    }
}

/// Splitting at a separator splits what comes before it and what comes after it.
pub proof fn splitting_goes_piece_by_piece(before: Seq<char>, after: Seq<char>, separator: char)
    ensures
        pieces(before.push(separator) + after, separator) == pieces(before, separator) + pieces(
            after,
            separator,
        ),
    decreases after.len(),
{
    let text = before.push(separator) + after;
    if after.len() == 0 {
        assert(text =~= before.push(separator));
        assert(text.drop_last() =~= before);
        assert(pieces(text, separator) =~= pieces(before, separator) + pieces(after, separator));
    } else {
        let init = after.drop_last();
        splitting_goes_piece_by_piece(before, init, separator);
        splitting_loses_nothing(init, separator);
        assert(text.drop_last() =~= before.push(separator) + init);
        assert(text.last() == after.last());
        assert(pieces(text, separator) =~= pieces(before, separator) + pieces(after, separator));
    }
}

/// A text without separators is its own only piece.
pub proof fn words_are_not_split(word: Seq<char>, separator: char)
    requires
        !word.contains(separator),
    ensures
        pieces(word, separator) == seq![word],
    decreases word.len(),
{
    if word.len() == 0 {
        assert(word =~= Seq::<char>::empty());
        assert(pieces(word, separator) =~= seq![word]);
    } else {
        let init = word.drop_last();
        assert(!init.contains(separator)) by {
            if init.contains(separator) {
                let k = choose|k: int| 0 <= k < init.len() && init[k] == separator;
                assert(word[k] == separator);
            }
        }
        words_are_not_split(init, separator);
        assert(word[word.len() - 1] != separator);
        assert(word =~= init.push(word.last()));
        assert(pieces(word, separator) =~= seq![word]);
    }
}

/// Splitting undoes joining: pieces without separators come back as they were.
pub proof fn splitting_undoes_joining(parts: Seq<Seq<char>>, separator: char)
    requires
        parts.len() > 0,
        forall|i: int| 0 <= i < parts.len() ==> !(#[trigger] parts[i]).contains(separator),
    ensures
        pieces(joined(parts, separator), separator) == parts,
    decreases parts.len(),
{
    let last = parts.len() - 1;
    assert(!parts[last].contains(separator));
    words_are_not_split(parts.last(), separator);
    if parts.len() == 1 {
        assert(parts =~= seq![parts[0]]);
    } else {
        let init = parts.drop_last();
        assert forall|i: int| 0 <= i < init.len() implies !(#[trigger] init[i]).contains(
            separator,
        ) by {
            assert(parts[i] == init[i]);
        }
        splitting_undoes_joining(init, separator);
        splitting_goes_piece_by_piece(joined(init, separator), parts.last(), separator);
        assert(init + seq![parts.last()] =~= parts);
    }
}

/// Lines are read one by one: up to a line feed, without the carriage return before it; a
/// last line may lack its end; and an empty text has no lines.
pub proof fn lines_are_read_one_by_one(line: Seq<char>, rest: Seq<char>)
    requires
        !line.contains('\n'),
        line.len() > 0 ==> line.last() != '\r',
    ensures
        lines(line.push('\n') + rest) == seq![line] + lines(rest),
        lines(line.push('\r').push('\n') + rest) == seq![line] + lines(rest),
        line.len() > 0 ==> lines(line) == seq![line],
        lines(Seq::<char>::empty()) == Seq::<Seq<char>>::empty(),
{
    let returned = line.push('\r');
    assert(!returned.contains('\n')) by {
        if returned.contains('\n') {
            let k = choose|k: int| 0 <= k < returned.len() && returned[k] == '\n';
            assert(line[k] == '\n');
        }
    }
    words_are_not_split(line, '\n');
    words_are_not_split(returned, '\n');
    splitting_goes_piece_by_piece(line, rest, '\n');
    splitting_goes_piece_by_piece(returned, rest, '\n');
    splitting_loses_nothing(rest, '\n');
    assert(returned.drop_last() =~= line);
    assert(lines(line.push('\n') + rest) =~= seq![line] + lines(rest));
    assert(lines(returned.push('\n') + rest) =~= seq![line] + lines(rest));
    if line.len() > 0 {
        assert(lines(line) =~= seq![line]);
    }
    let empty = Seq::<char>::empty();
    assert(pieces(empty, '\n') =~= seq![empty]);
    assert(lines(empty) =~= Seq::<Seq<char>>::empty());
}

/// Trimming takes away white space at both ends and nothing else: what is left is a part
/// of the text, neither begins nor ends with white space, and only white space is around
/// it.
pub proof fn trimming_takes_only_white_space(text: Seq<char>) -> (span: (int, int))
    ensures
        0 <= span.0 <= span.1 <= text.len(),
        trimmed(text) == text.subrange(span.0, span.1),
        forall|k: int| 0 <= k < span.0 ==> whitespace(#[trigger] text[k]),
        forall|k: int| span.1 <= k < text.len() ==> whitespace(#[trigger] text[k]),
        span.0 < span.1 ==> !whitespace(text[span.0]) && !whitespace(text[span.1 - 1]),
{
    let from = lemma_start(text);
    let rest = text.subrange(from, text.len() as int);
    let to = lemma_end(rest);
    assert(rest.subrange(0, to) =~= text.subrange(from, from + to));
    assert forall|k: int| from + to <= k < text.len() implies whitespace(#[trigger] text[k]) by {
        assert(whitespace(rest[k - from]));
    }
    if to > 0 {
        assert(rest[0] == text[from]);
        assert(rest[to - 1] == text[from + to - 1]);
    }
    (from, from + to)
}

proof fn lemma_start(text: Seq<char>) -> (from: int)
    ensures
        0 <= from <= text.len(),
        trimmed_start(text) == text.subrange(from, text.len() as int),
        forall|k: int| 0 <= k < from ==> whitespace(#[trigger] text[k]),
        from < text.len() ==> !whitespace(text[from]),
    decreases text.len(),
{
    if text.len() > 0 && whitespace(text[0]) {
        let rest = text.subrange(1, text.len() as int);
        let n = lemma_start(rest);
        assert(rest.subrange(n, rest.len() as int) =~= text.subrange(n + 1, text.len() as int));
        assert forall|k: int| 0 <= k < n + 1 implies whitespace(#[trigger] text[k]) by {
            if k > 0 {
                assert(whitespace(rest[k - 1]));
            }
        }
        n + 1
    } else {
        assert(text.subrange(0, text.len() as int) =~= text);
        0
    }
}

proof fn lemma_end(text: Seq<char>) -> (to: int)
    ensures
        0 <= to <= text.len(),
        trimmed_end(text) == text.subrange(0, to),
        forall|k: int| to <= k < text.len() ==> whitespace(#[trigger] text[k]),
        to > 0 ==> !whitespace(text[to - 1]),
    decreases text.len(),
{
    if text.len() > 0 && whitespace(text.last()) {
        let init = text.drop_last();
        let n = lemma_end(init);
        assert(init.subrange(0, n) =~= text.subrange(0, n));
        assert forall|k: int| n <= k < text.len() implies whitespace(#[trigger] text[k]) by {
            if k < init.len() {
                assert(whitespace(init[k]));
            }
        }
        n
    } else {
        assert(text.subrange(0, text.len() as int) =~= text);
        text.len() as int
    }
}

} // verus!
