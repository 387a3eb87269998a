//! Text as sequences of characters: splitting, trimming, lines.

use vstd::prelude::*;

pub mod laws;

verus! {

/// Which characters are white space: those with the `White_Space` property of Unicode.
pub open spec fn whitespace(c: char) -> bool {
    let code: u32 = c as u32;
    ||| 0x9 <= code <= 0xd
    ||| code == 0x20
    ||| code == 0x85
    ||| code == 0xa0
    ||| code == 0x1680
    ||| 0x2000 <= code <= 0x200a
    ||| 0x2028 <= code <= 0x2029
    ||| code == 0x202f
    ||| code == 0x205f
    ||| code == 0x3000
}

/// `char::is_whitespace`: tells whether a character has the `White_Space` property of
/// Unicode, which the twenty-five characters of `whitespace` have and no others.
pub assume_specification[ char::is_whitespace ](c: char) -> (r: bool)
    ensures
        r == whitespace(c),
;

/// `String::push`: appends a character.
pub assume_specification[ String::push ](s: &mut String, c: char)
    ensures
        final(s)@ == old(s)@.push(c),
;

/// The characters of several texts.
pub open spec fn texts(v: Seq<Vec<char>>) -> Seq<Seq<char>> {
    Seq::new(v.len(), |i: int| v[i]@)
}

/// The pieces of a text between the separators, in order. There is always at least
/// one, and each character that is no separator belongs to the latest piece.
pub open spec fn pieces(text: Seq<char>, separator: char) -> Seq<Seq<char>>
    decreases text.len(),
{
    if text.len() == 0 {
        seq![Seq::empty()]
    } else {
        let before = pieces(text.drop_last(), separator);
        if text.last() == separator {
            before.push(Seq::empty())
        } else {
            before.drop_last().push(before.last().push(text.last()))
        }
    }
}

/// A line without the carriage return at its end.
pub open spec fn without_return(line: Seq<char>) -> Seq<char> {
    if line.len() > 0 && line.last() == '\r' {
        line.drop_last()
    } else {
        line
    }
}

/// The lines of a text. A line ends with a line feed, and a carriage return before it
/// belongs to the ending. The end of the last line may be missing.
pub open spec fn lines(text: Seq<char>) -> Seq<Seq<char>> {
    let all = pieces(text, '\n');
    let ended = Seq::new((all.len() - 1) as nat, |i: int| without_return(all[i]));
    if all.last().len() == 0 {
        ended
    } else {
        ended.push(all.last())
    }
}

/// A text without the white space at its end.
pub open spec fn trimmed_end(text: Seq<char>) -> Seq<char>
    decreases text.len(),
{
    if text.len() > 0 && whitespace(text.last()) {
        trimmed_end(text.drop_last())
    } else {
        text
    }
}

/// A text without the white space at its start.
pub open spec fn trimmed_start(text: Seq<char>) -> Seq<char>
    decreases text.len(),
{
    if text.len() > 0 && whitespace(text[0]) {
        trimmed_start(text.subrange(1, text.len() as int))
    } else {
        text
    }
}

/// A text without the white space around it.
pub open spec fn trimmed(text: Seq<char>) -> Seq<char> {
    trimmed_end(trimmed_start(text))
}

/// The characters of a string.
pub fn chars_of(text: &str) -> (r: Vec<char>)
    ensures
        r@ == text@,
{
    let mut r: Vec<char> = Vec::new();
    for c in it: text.chars()
        invariant
            it.seq() == text@,
            r@ == text@.take(it.index() as int),
    {
        proof {
            assert(text@.take(it.index() as int + 1) =~= text@.take(it.index() as int).push(c));
        }
        r.push(c);
    }
    proof {
        assert(text@.take(text@.len() as int) =~= text@);
    }
    r
}

/// The string of characters.
pub fn string_of(text: &Vec<char>) -> (r: String)
    ensures
        r@ == text@,
{
    let mut r = String::new();
    let mut i: usize = 0;
    proof {
        assert(text@.take(0) =~= Seq::<char>::empty());
    }
    while i < text.len()
        invariant
            i <= text@.len(),
            r@ == text@.take(i as int),
        decreases text@.len() - i,
    {
        proof {
            assert(text@.take(i as int + 1) =~= text@.take(i as int).push(text@[i as int]));
        }
        r.push(text[i]);
        i += 1;
    }
    proof {
        assert(text@.take(text@.len() as int) =~= text@);
    }
    r
}

/// Splits a text at its separators.
pub fn split(text: &Vec<char>, separator: char) -> (r: Vec<Vec<char>>)
    ensures
        texts(r@) == pieces(text@, separator),
        r@.len() > 0,
{
    let mut done: Vec<Vec<char>> = Vec::new();
    let mut current: Vec<char> = Vec::new();
    let mut i: usize = 0;
    proof {
        assert(text@.take(0) =~= Seq::<char>::empty());
        assert(texts(done@).push(current@) =~= seq![Seq::<char>::empty()]);
    }
    while i < text.len()
        invariant
            i <= text@.len(),
            texts(done@).push(current@) == pieces(text@.take(i as int), separator),
        decreases text@.len() - i,
    {
        let c = text[i];
        let ghost before = texts(done@).push(current@);
        proof {
            assert(text@.take(i as int + 1).drop_last() =~= text@.take(i as int));
            assert(before.drop_last() =~= texts(done@));
        }
        if c == separator {
            let ghost earlier = done@;
            let ghost piece = current;
            done.push(current);
            current = Vec::new();
            proof {
                assert(texts(done@) =~= texts(earlier).push(piece@));
                assert(texts(done@).push(current@) =~= before.push(Seq::empty()));
            }
        } else {
            current.push(c);
        }
        i += 1;
    }
    proof {
        assert(text@.take(text@.len() as int) =~= text@);
    }
    let ghost earlier = done@;
    let ghost piece = current;
    done.push(current);
    proof {
        assert(texts(done@) =~= texts(earlier).push(piece@));
    }
    done
}

/// Splits a text into its lines.
pub fn split_lines(text: &Vec<char>) -> (r: Vec<Vec<char>>)
    ensures
        texts(r@) == lines(text@),
{
    let all = split(text, '\n');
    let ghost whole = pieces(text@, '\n');
    let last: usize = all.len() - 1;
    let mut r: Vec<Vec<char>> = Vec::new();
    let mut i: usize = 0;
    while i < last
        invariant
            last == all@.len() - 1,
            i <= last,
            texts(all@) == whole,
            r@.len() == i,
            forall|k: int| 0 <= k < i ==> (#[trigger] r@[k])@ == without_return(whole[k]),
        decreases last - i,
    {
        assert(all@[i as int]@ == whole[i as int]);
        r.push(drop_return(&all[i]));
        i += 1;
    }
    let ghost ended = Seq::new((whole.len() - 1) as nat, |k: int| without_return(whole[k]));
    assert(texts(r@) =~= ended);
    assert(all@[last as int]@ == whole.last());
    if all[last].len() > 0 {
        let ghost earlier = r@;
        r.push(copy_of(&all[last]));
        assert(texts(r@) =~= ended.push(whole.last()));
    }
    r
}

/// A copy of a text.
fn copy_of(text: &Vec<char>) -> (r: Vec<char>)
    ensures
        r@ == text@,
{
    part_of(text, 0, text.len())
}

/// A part of a text.
fn part_of(text: &Vec<char>, from: usize, to: usize) -> (r: Vec<char>)
    requires
        from <= to <= text@.len(),
    ensures
        r@ == text@.subrange(from as int, to as int),
{
    let mut r: Vec<char> = Vec::new();
    let mut i: usize = from;
    while i < to
        invariant
            from <= i <= to <= text@.len(),
            r@ == text@.subrange(from as int, i as int),
        decreases to - i,
    {
        r.push(text[i]);
        i += 1;
    }
    r
}

fn drop_return(line: &Vec<char>) -> (r: Vec<char>)
    ensures
        r@ == without_return(line@),
{
    let n: usize = line.len();
    if n > 0 && line[n - 1] == '\r' {
        part_of(line, 0, n - 1)
    } else {
        copy_of(line)
    }
}

/// Takes the white space around a text away.
pub fn trim(text: &Vec<char>) -> (r: Vec<char>)
    ensures
        r@ == trimmed(text@),
{
    let n: usize = text.len();
    let mut from: usize = 0;
    assert(text@.subrange(0, n as int) =~= text@);
    while from < n && text[from].is_whitespace()
        invariant
            n == text@.len(),
            from <= n,
            trimmed_start(text@) == trimmed_start(text@.subrange(from as int, n as int)),
        ensures
            n == text@.len(),
            from <= n,
            from < n ==> !whitespace(text@[from as int]),
            trimmed_start(text@) == trimmed_start(text@.subrange(from as int, n as int)),
        decreases n - from,
    {
        let ghost rest = text@.subrange(from as int, n as int);
        assert(rest.subrange(1, rest.len() as int) =~= text@.subrange(from as int + 1, n as int));
        from += 1;
    }
    let ghost start = text@.subrange(from as int, n as int);
    assert(trimmed_start(text@) == start);
    let mut to: usize = n;
    while to > from && text[to - 1].is_whitespace()
        invariant
            n == text@.len(),
            from <= to <= n,
            trimmed_end(start) == trimmed_end(text@.subrange(from as int, to as int)),
        ensures
            n == text@.len(),
            from <= to <= n,
            to > from ==> !whitespace(text@[to - 1]),
            trimmed_end(start) == trimmed_end(text@.subrange(from as int, to as int)),
        decreases to,
    {
        let ghost rest = text@.subrange(from as int, to as int);
        assert(rest.drop_last() =~= text@.subrange(from as int, to - 1));
        to -= 1;
    }
    part_of(text, from, to)
}

/// Tells whether two texts are the same.
pub fn same(a: &Vec<char>, b: &Vec<char>) -> (r: bool)
    ensures
        r == (a@ == b@),
{
    if a.len() != b.len() {
        return false;
    }
    let mut i: usize = 0;
    while i < a.len()
        invariant
            a@.len() == b@.len(),
            i <= a@.len(),
            forall|k: int| 0 <= k < i ==> a@[k] == b@[k],
        decreases a@.len() - i,
    {
        if a[i] != b[i] {
            return false;
        }
        i += 1;
    }
    assert(a@ =~= b@);
    true
}

} // verus!
