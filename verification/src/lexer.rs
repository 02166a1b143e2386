//! From a source text to its tokens.
//!
//! The tokens of a text are its instruction characters, in the order of the
//! text, each with its line and its column. Characters outside the alphabet
//! yield no token, but they take up their column, and a line break among
//! them ends the line.

use vstd::prelude::*;
use vstd::utf8::encode_utf8;
use crate::instruction::{classify, is_instruction_char, RawInstruction};
use crate::position::{
    column_of, comes_before, last_line_len, lemma_places_in_reading_order, lemma_position_bounds,
    lemma_position_from_prefix, lemma_position_in_concat, line_breaks, line_breaks_before,
    line_of, line_start,
};
use crate::token::{RawInstructionStruct, Token};

verus! {

/// The token of the character at index `i` of `text`, if that character
/// denotes an instruction.
pub open spec fn token_at(text: Seq<char>, i: int) -> Option<Token> {
    match classify(text[i]) {
        Some(kind) => Some(Token { kind, line: line_of(text, i), column: column_of(text, i) }),
        None => None,
    }
}

/// The tokens of the first `n` characters of `text`, in the order of the
/// text.
pub open spec fn tokens_in_prefix(text: Seq<char>, n: int) -> Seq<Token>
    decreases n,
{
    if n <= 0 {
        Seq::empty()
    } else {
        match token_at(text, n - 1) {
            Some(token) => tokens_in_prefix(text, n - 1).push(token),
            None => tokens_in_prefix(text, n - 1),
        }
    }
}

/// The tokens of `text`.
pub open spec fn tokens_of(text: Seq<char>) -> Seq<Token> {
    tokens_in_prefix(text, text.len() as int)
}

/// The instruction characters of `text`, in the order of the text.
pub open spec fn instruction_chars(text: Seq<char>) -> Seq<char> {
    text.filter(|c: char| is_instruction_char(c))
}

/// The characters that denote the instructions of `tokens`.
pub open spec fn symbols(tokens: Seq<Token>) -> Seq<char> {
    tokens.map_values(|t: Token| t.kind.symbol())
}

/// The values of a sequence of tokens.
pub open spec fn token_views(tokens: Seq<RawInstructionStruct>) -> Seq<Token> {
    tokens.map_values(|t: RawInstructionStruct| t@)
}

/// The tokens of a text as they stand once the text is put behind another
/// that has `breaks` line breaks and whose last line is `tail` characters
/// long: all lie `breaks` lines further down, and those of the first line
/// lie `tail` columns further right.
pub open spec fn relocated(tokens: Seq<Token>, breaks: int, tail: int) -> Seq<Token> {
    tokens.map_values(
        |t: Token|
            Token {
                kind: t.kind,
                line: t.line + breaks,
                column: if t.line == 1 {
                    t.column + tail
                } else {
                    t.column
                },
            },
    )
}

/// The index in `text` of the character that yields token number `j` among
/// the tokens of the first `n` characters.
pub open spec fn source_index(text: Seq<char>, n: int, j: int) -> int
    decreases n,
{
    if n <= 0 {
        0
    } else if j < tokens_in_prefix(text, n - 1).len() {
        source_index(text, n - 1, j)
    } else {
        n - 1
    }
}

/// The empty text has no tokens.
pub proof fn lemma_empty_text_has_no_tokens()
    ensures
        tokens_of(Seq::<char>::empty()) == Seq::<Token>::empty(),
{
}

/// The tokens of a text are its instruction characters, one for one and in
/// the same order: there are as many tokens as instruction characters.
pub proof fn lemma_tokens_are_instruction_chars(text: Seq<char>)
    ensures
        symbols(tokens_of(text)) == instruction_chars(text),
        tokens_of(text).len() == instruction_chars(text).len(),
{
    lemma_symbols_in_prefix(text, text.len() as int);
    assert(text.take(text.len() as int) =~= text);
}

proof fn lemma_symbols_in_prefix(text: Seq<char>, n: int)
    requires
        0 <= n <= text.len(),
    ensures
        symbols(tokens_in_prefix(text, n)) == instruction_chars(text.take(n)),
    decreases n,
{
    reveal(Seq::filter);
    if n > 0 {
        lemma_symbols_in_prefix(text, n - 1);
        assert(text.take(n).drop_last() =~= text.take(n - 1));
    }
}

/// Where each token comes from. Token number `j` of a text is the token of
/// an instruction character of the text, the one with exactly `j` tokens
/// before it.
pub proof fn lemma_token_source(text: Seq<char>, j: int)
    requires
        0 <= j < tokens_of(text).len(),
    ensures
        0 <= source_index(text, text.len() as int, j) < text.len(),
        token_at(text, source_index(text, text.len() as int, j)) == Some(tokens_of(text)[j]),
        tokens_in_prefix(text, source_index(text, text.len() as int, j)).len() == j,
{
    lemma_token_source_in_prefix(text, text.len() as int, j);
}

proof fn lemma_token_source_in_prefix(text: Seq<char>, n: int, j: int)
    requires
        0 <= j < tokens_in_prefix(text, n).len(),
    ensures
        0 <= source_index(text, n, j) < n,
        token_at(text, source_index(text, n, j)) == Some(tokens_in_prefix(text, n)[j]),
        tokens_in_prefix(text, source_index(text, n, j)).len() == j,
    decreases n,
{
    if n > 0 && j < tokens_in_prefix(text, n - 1).len() {
        lemma_token_source_in_prefix(text, n - 1, j);
    }
}

/// Every instruction character yields its token: the character at index `i`
/// gives the token whose number is the count of tokens before `i`.
pub proof fn lemma_token_of_index(text: Seq<char>, i: int)
    requires
        0 <= i < text.len(),
        is_instruction_char(text[i]),
    ensures
        tokens_in_prefix(text, i).len() < tokens_of(text).len(),
        Some(tokens_of(text)[tokens_in_prefix(text, i).len() as int]) == token_at(text, i),
{
    lemma_prefix_tokens_stay(text, i + 1, text.len() as int);
    let rank = tokens_in_prefix(text, i).len() as int;
    assert(tokens_of(text)[rank] == tokens_in_prefix(text, i + 1)[rank]);
}

/// Reading more of a text only appends tokens: those of the first `n`
/// characters open those of the first `m`, for `n <= m`.
pub proof fn lemma_prefix_tokens_stay(text: Seq<char>, n: int, m: int)
    requires
        0 <= n <= m,
    ensures
        tokens_in_prefix(text, n).is_prefix_of(tokens_in_prefix(text, m)),
    decreases m - n,
{
    if n < m {
        lemma_prefix_tokens_stay(text, n, m - 1);
    }
}

/// The tokens of the first `n` characters depend on those characters alone.
pub proof fn lemma_tokens_from_prefix(a: Seq<char>, b: Seq<char>, n: int)
    requires
        0 <= n <= a.len(),
        n <= b.len(),
        a.take(n) == b.take(n),
    ensures
        tokens_in_prefix(a, n) == tokens_in_prefix(b, n),
    decreases n,
{
    if n > 0 {
        assert(a[n - 1] == a.take(n)[n - 1]);
        assert(b[n - 1] == b.take(n)[n - 1]);
        assert(a.take(n - 1) =~= a.take(n).take(n - 1));
        assert(b.take(n - 1) =~= b.take(n).take(n - 1));
        lemma_tokens_from_prefix(a, b, n - 1);
        lemma_position_from_prefix(a, b, n - 1);
    }
}

/// The tokens of two texts put together: those of the first, then those of
/// the second, moved down by the line breaks of the first and, on the
/// second's first line, right by the length of the first's last line.
pub proof fn lemma_tokens_of_concat(first: Seq<char>, rest: Seq<char>)
    ensures
        tokens_of(first + rest) == tokens_of(first) + relocated(
            tokens_of(rest),
            line_breaks(first) as int,
            last_line_len(first),
        ),
{
    lemma_tokens_in_concat(first, rest, rest.len() as int);
}

proof fn lemma_tokens_in_concat(first: Seq<char>, rest: Seq<char>, j: int)
    requires
        0 <= j <= rest.len(),
    ensures
        tokens_in_prefix(first + rest, first.len() + j) == tokens_of(first) + relocated(
            tokens_in_prefix(rest, j),
            line_breaks(first) as int,
            last_line_len(first),
        ),
    decreases j,
{
    let text = first + rest;
    let n = first.len() as int;
    if j == 0 {
        assert(text.take(n) =~= first.take(n));
        lemma_tokens_from_prefix(text, first, n);
    } else {
        lemma_tokens_in_concat(first, rest, j - 1);
        lemma_position_in_concat(first, rest, j - 1);
    }
}

/// A line break between two texts: the tokens of the second follow those of
/// the first, each on the line that it had in the second alone plus the
/// lines of the first, and in its old column. So behind a text of a single
/// line the line numbers grow by exactly one, and the first character of the
/// second text stands in column one.
pub proof fn lemma_line_break_starts_a_line(first: Seq<char>, rest: Seq<char>)
    ensures
        tokens_of(first + seq!['\n'] + rest) == tokens_of(first) + relocated(
            tokens_of(rest),
            line_breaks(first) as int + 1,
            0,
        ),
        line_of(first + seq!['\n'] + rest, first.len() as int + 1) == line_breaks(first) + 2,
        column_of(first + seq!['\n'] + rest, first.len() as int + 1) == 1,
{
    let head = first + seq!['\n'];
    lemma_tokens_of_concat(first, seq!['\n']);
    lemma_position_in_concat(first, seq!['\n'], 1);
    assert(tokens_of(seq!['\n']) =~= Seq::<Token>::empty()) by {
        reveal_with_fuel(tokens_in_prefix, 2);
    }
    lemma_tokens_of_concat(head, rest);
    lemma_position_in_concat(head, rest, 0);
}

/// Characters outside the alphabet at the end of a text, blank space and
/// line breaks among them, add no token and change none.
pub proof fn lemma_trailing_commentary_adds_nothing(text: Seq<char>, tail: Seq<char>)
    requires
        forall|k: int| 0 <= k < tail.len() ==> !is_instruction_char(tail[k]),
    ensures
        tokens_of(text + tail) == tokens_of(text),
{
    lemma_tokens_of_concat(text, tail);
    lemma_tokens_are_instruction_chars(tail);
    tail.lemma_all_neg_filter_empty(|c: char| is_instruction_char(c));
}

/// Every token of a text has a line and a column of at least one.
pub proof fn lemma_tokens_have_places(text: Seq<char>, j: int)
    requires
        0 <= j < tokens_of(text).len(),
    ensures
        tokens_of(text)[j].line >= 1,
        tokens_of(text)[j].column >= 1,
{
    lemma_token_source(text, j);
    lemma_position_bounds(text, source_index(text, text.len() as int, j));
}

/// The tokens of a text stand in reading order: an earlier token lies on an
/// earlier line, or on the same line in an earlier column.
pub proof fn lemma_tokens_in_reading_order(text: Seq<char>, j: int, k: int)
    requires
        0 <= j < k < tokens_of(text).len(),
    ensures
        comes_before(
            tokens_of(text)[j].line,
            tokens_of(text)[j].column,
            tokens_of(text)[k].line,
            tokens_of(text)[k].column,
        ),
{
    let n = text.len() as int;
    let a = source_index(text, n, j);
    let b = source_index(text, n, k);
    lemma_token_source(text, j);
    lemma_token_source(text, k);
    if b <= a {
        lemma_prefix_tokens_stay(text, b, a);
    }
    lemma_places_in_reading_order(text, a, b);
}

proof fn lemma_encoding_no_shorter(chars: Seq<char>)
    ensures
        chars.len() <= encode_utf8(chars).len(),
    decreases chars.len(),
{
    if chars.len() > 0 {
        lemma_encoding_no_shorter(chars.drop_first());
    }
}

/// Reads `source` once from left to right and returns its tokens: one for
/// each instruction character, in the order of the text, with the line and
/// the column of that character.
pub fn tokenize(source: &str) -> (tokens: Vec<RawInstructionStruct>)
    ensures
        token_views(tokens@) == tokens_of(source@),
        tokens@.len() == instruction_chars(source@).len(),
        forall|j: int| 0 <= j < tokens@.len() ==> (#[trigger] tokens@[j]).well_formed(),
{
    // A text has at least one byte for each of its characters, and the
    // number of its bytes is a `usize`: so is every index into it.
    let byte_count = source.as_bytes().len();
    proof {
        lemma_encoding_no_shorter(source@);
    }
    let mut tokens: Vec<RawInstructionStruct> = Vec::new();
    let mut breaks: u64 = 0;
    let mut offset: u64 = 0;
    for c in it: source.chars()
        invariant
            it.seq() == source@,
            source@.len() <= byte_count,
            breaks == line_breaks_before(source@, it.index() as int),
            offset == it.index() - line_start(source@, it.index() as int),
            0 <= line_start(source@, it.index() as int) <= it.index(),
            breaks <= it.index(),
            token_views(tokens@) == tokens_in_prefix(source@, it.index() as int),
    {
        if let Some(kind) = RawInstruction::from_char(c) {
            tokens.push(RawInstructionStruct::new(kind, breaks + 1, offset + 1));
        }
        if c == '\n' {
            breaks = breaks + 1;
            offset = 0;
        } else {
            offset = offset + 1;
        }
    }
    proof {
        lemma_tokens_are_instruction_chars(source@);
        assert forall|j: int| 0 <= j < tokens@.len() implies (#[trigger] tokens@[j]).well_formed() by {
            lemma_tokens_have_places(source@, j);
        }
    }
    tokens
}

} // verus!
