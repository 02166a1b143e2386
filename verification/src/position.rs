//! Lines and columns: where in a text a character stands.
//!
//! A text is a sequence of characters. The line break `'\n'` ends a line;
//! the character behind it is the first of the next line. Lines and columns
//! are counted from one, and a column counts every character of its line.

use vstd::prelude::*;

verus! {

/// The number of line breaks among the first `i` characters of `text`.
pub open spec fn line_breaks_before(text: Seq<char>, i: int) -> nat
    decreases i,
{
    if i <= 0 {
        0
    } else if text[i - 1] == '\n' {
        line_breaks_before(text, i - 1) + 1
    } else {
        line_breaks_before(text, i - 1)
    }
}

/// The index at which the line that holds index `i` begins: just behind the
/// last line break before `i`, or zero where there is none.
pub open spec fn line_start(text: Seq<char>, i: int) -> int
    decreases i,
{
    if i <= 0 {
        0
    } else if text[i - 1] == '\n' {
        i
    } else {
        line_start(text, i - 1)
    }
}

/// The line of the character at index `i`, counted from one.
pub open spec fn line_of(text: Seq<char>, i: int) -> int {
    line_breaks_before(text, i) as int + 1
}

/// The column of the character at index `i`, counted from one: every
/// character of the line counts, whatever it is.
pub open spec fn column_of(text: Seq<char>, i: int) -> int {
    i - line_start(text, i) + 1
}

/// The number of line breaks in the whole of `text`.
pub open spec fn line_breaks(text: Seq<char>) -> nat {
    line_breaks_before(text, text.len() as int)
}

/// The number of characters behind the last line break of `text`: the
/// length of its last, unfinished line.
pub open spec fn last_line_len(text: Seq<char>) -> int {
    text.len() - line_start(text, text.len() as int)
}

/// Whether the place `(line_a, column_a)` comes before `(line_b, column_b)`
/// in reading order: by line first, by column within a line.
pub open spec fn comes_before(line_a: int, column_a: int, line_b: int, column_b: int) -> bool {
    line_a < line_b || (line_a == line_b && column_a < column_b)
}

/// Lines and columns start at one, and neither runs ahead of the index.
pub proof fn lemma_position_bounds(text: Seq<char>, i: int)
    requires
        0 <= i,
    ensures
        0 <= line_start(text, i) <= i,
        line_breaks_before(text, i) <= line_start(text, i),
        1 <= line_of(text, i) <= i + 1,
        1 <= column_of(text, i) <= i + 1,
    decreases i,
{
    if i > 0 {
        lemma_position_bounds(text, i - 1);
    }
}

/// The step from one character to the next: behind a line break the line
/// grows by exactly one and the column is one again; behind any other
/// character the line stays and the column grows by one.
pub proof fn lemma_next_position(text: Seq<char>, i: int)
    requires
        0 <= i,
    ensures
        text[i] == '\n' ==> line_of(text, i + 1) == line_of(text, i) + 1 && column_of(text, i + 1)
            == 1,
        text[i] != '\n' ==> line_of(text, i + 1) == line_of(text, i) && column_of(text, i + 1)
            == column_of(text, i) + 1,
{
}

/// A column counts every character of its line. Of the character at index
/// `i`, the `column_of(text, i) - 1` characters before it hold no line
/// break, and before those stands a line break or nothing at all.
pub proof fn lemma_column_counts_every_character(text: Seq<char>, i: int)
    requires
        0 <= i,
    ensures
        0 <= i - (column_of(text, i) - 1),
        i - (column_of(text, i) - 1) == 0 || text[i - (column_of(text, i) - 1) - 1] == '\n',
        forall|k: int| i - (column_of(text, i) - 1) <= k < i ==> text[k] != '\n',
    decreases i,
{
    if i > 0 {
        lemma_column_counts_every_character(text, i - 1);
    }
}

/// On the first line of a text the column of a character is its index plus
/// one.
pub proof fn lemma_first_line_places(text: Seq<char>, i: int)
    requires
        0 <= i,
        forall|k: int| 0 <= k < i ==> text[k] != '\n',
    ensures
        line_of(text, i) == 1,
        column_of(text, i) == i + 1,
    decreases i,
{
    if i > 0 {
        lemma_first_line_places(text, i - 1);
    }
}

/// The line of an index is one more than the number of line breaks among the
/// characters before it.
pub proof fn lemma_line_counts_breaks(text: Seq<char>, i: int)
    requires
        0 <= i <= text.len(),
    ensures
        line_of(text, i) == 1 + text.take(i).filter(|c: char| c == '\n').len(),
    decreases i,
{
    reveal(Seq::filter);
    if i > 0 {
        lemma_line_counts_breaks(text, i - 1);
        assert(text.take(i).drop_last() =~= text.take(i - 1));
    }
}

/// The place of an index depends only on the characters before it.
pub proof fn lemma_position_from_prefix(a: Seq<char>, b: Seq<char>, i: int)
    requires
        0 <= i <= a.len(),
        i <= b.len(),
        a.take(i) == b.take(i),
    ensures
        line_breaks_before(a, i) == line_breaks_before(b, i),
        line_start(a, i) == line_start(b, i),
        line_of(a, i) == line_of(b, i),
        column_of(a, i) == column_of(b, i),
    decreases i,
{
    if i > 0 {
        assert(a[i - 1] == a.take(i)[i - 1]);
        assert(b[i - 1] == b.take(i)[i - 1]);
        assert(a.take(i - 1) =~= a.take(i).take(i - 1));
        assert(b.take(i - 1) =~= b.take(i).take(i - 1));
        lemma_position_from_prefix(a, b, i - 1);
    }
}

/// Places in a text that stands behind another: index `j` of `rest` lies
/// as many lines further down as `first` has line breaks, and, while still
/// on the first line of `rest`, as many columns further right as the last
/// line of `first` is long.
pub proof fn lemma_position_in_concat(first: Seq<char>, rest: Seq<char>, j: int)
    requires
        0 <= j <= rest.len(),
    ensures
        line_of(first + rest, first.len() + j) == line_of(rest, j) + line_breaks(first),
        column_of(first + rest, first.len() + j) == if line_of(rest, j) == 1 {
            column_of(rest, j) + last_line_len(first)
        } else {
            column_of(rest, j)
        },
    decreases j,
{
    let text = first + rest;
    let n = first.len() as int;
    if j == 0 {
        assert(text.take(n) =~= first);
        assert(first.take(n) =~= first);
        lemma_position_from_prefix(text, first, n);
    } else {
        lemma_position_in_concat(first, rest, j - 1);
    }
}

/// Reading order: of two indices the earlier has the earlier place.
pub proof fn lemma_places_in_reading_order(text: Seq<char>, i: int, j: int)
    requires
        0 <= i < j,
    ensures
        comes_before(line_of(text, i), column_of(text, i), line_of(text, j), column_of(text, j)),
    decreases j - i,
{
    if i < j - 1 {
        lemma_places_in_reading_order(text, i, j - 1);
    }
}

} // verus!
