//! How the database writes statistics, and that they are read as they are written.
use vstd::prelude::*;

use crate::number::{
    decimal, float_fault, i64_fault, i64_value, is_digit, is_float, is_optional_exponent,
    is_plain_number, leading_digits, lemma_decimal, lemma_leading_digits, lower, reads_as,
    signed_decimal, u32_fault, u32_value, without_sign,
};
use crate::statistics::{
    as_list, entry_value, line_row, rows_of, statistics_of, unsupported_in_line,
    unsupported_in_lines, unsupported_in_words, unsupported_of, word_values, words_of, StatRow,
    StatView, StatsParseError,
};
use crate::text::{
    first_match, law_lines_end_with_line_feeds, lemma_first_match, lemma_first_match_at, lines_of,
    matches_at, pieces, pieces_of_each, without_trailing_return,
};

verus! {

/// The word that stands for the kind of a value.
pub open spec fn key_text(value: StatView) -> Seq<char> {
    match value {
        StatView::Count(_) => "COUNT"@,
        StatView::Sum(_) => "SUM"@,
        StatView::Percentile(p, _) => seq!['P'] + decimal(p as nat),
        _ => Seq::empty(),
    }
}

/// The word that stands for the number of a value.
pub open spec fn number_text(value: StatView) -> Seq<char> {
    match value {
        StatView::Count(v) => signed_decimal(v as int),
        StatView::Sum(v) => signed_decimal(v as int),
        StatView::Percentile(_, text) => text,
        _ => Seq::empty(),
    }
}

/// A value that the database writes: a count, a sum, or a percentile.
pub open spec fn is_written(value: StatView) -> bool {
    match value {
        StatView::Count(_) => true,
        StatView::Sum(_) => true,
        StatView::Percentile(_, text) => is_float(text),
        _ => false,
    }
}

/// The values, each as a key and a number with a colon between them, separated by spaces.
pub open spec fn values_text(values: Seq<StatView>) -> Seq<char>
    decreases values.len(),
{
    if values.len() == 0 {
        Seq::empty()
    } else {
        key_text(values[0]) + seq![' ', ':', ' '] + number_then_values(values[0], values.skip(1))
    }
}

/// The number of `value`, then the values `rest`.
pub open spec fn number_then_values(value: StatView, rest: Seq<StatView>) -> Seq<char>
    decreases rest.len(),
{
    if rest.len() == 0 {
        number_text(value)
    } else {
        number_text(value) + seq![' '] + (key_text(rest[0]) + seq![' ', ':', ' ']
            + number_then_values(rest[0], rest.skip(1)))
    }
}

/// A statistic as one line of text.
pub open spec fn row_text(row: StatRow) -> Seq<char> {
    row.0 + seq![' '] + values_text(row.1)
}

/// A statistic that the database writes: the name holds no space and no line feed.
pub open spec fn is_written_row(row: StatRow) -> bool {
    &&& forall|i: int| 0 <= i < row.0.len() ==> row.0[i] != ' ' && row.0[i] != '\n'
    &&& forall|i: int| 0 <= i < row.1.len() ==> is_written(#[trigger] row.1[i])
}

/// Statistics as text, one per line.
pub open spec fn statistics_text(rows: Seq<StatRow>) -> Seq<char>
    decreases rows.len(),
{
    if rows.len() == 0 {
        Seq::empty()
    } else {
        row_text(rows[0]) + seq!['\n'] + statistics_text(rows.skip(1))
    }
}

/// A word: it holds no space and no part of a line ending, and is more than nothing.
pub open spec fn is_word(s: Seq<char>) -> bool {
    &&& s.len() > 0
    &&& forall|i: int|
        0 <= i < s.len() ==> #[trigger] s[i] != ' ' && s[i] != '\n' && s[i] != '\r'
}

proof fn lemma_exponent_is_word(s: Seq<char>)
    requires
        is_optional_exponent(s),
        s.len() > 0,
    ensures
        is_word(s),
{
    let power = s.skip(1);
    let digits = without_sign(power);
    assert forall|i: int| 0 <= i < s.len() implies #[trigger] s[i] != ' ' && s[i] != '\n' && s[i]
        != '\r' by {
        if i > 0 {
            assert(power[i - 1] == s[i]);
            if digits.len() == power.len() {
                assert(is_digit(digits[i - 1]));
            } else if i > 1 {
                assert(digits[i - 2] == power[i - 1]);
                assert(is_digit(digits[i - 2]));
            }
        }
    }
}

proof fn lemma_plain_number_is_word(s: Seq<char>)
    requires
        is_plain_number(s),
    ensures
        is_word(s),
{
    lemma_leading_digits(s);
    let whole = leading_digits(s) as int;
    let rest = s.skip(whole);
    if rest.len() > 0 && rest[0] == '.' {
        let after = rest.skip(1);
        lemma_leading_digits(after);
        let fraction = leading_digits(after) as int;
        let tail = after.skip(fraction);
        if tail.len() > 0 {
            lemma_exponent_is_word(tail);
        }
        assert forall|i: int| 0 <= i < s.len() implies #[trigger] s[i] != ' ' && s[i] != '\n'
            && s[i] != '\r' by {
            if i < whole {
                assert(is_digit(s[i]));
            } else if i == whole {
                assert(rest[0] == s[i]);
            } else if i < whole + 1 + fraction {
                assert(after[i - whole - 1] == s[i]);
                assert(is_digit(after[i - whole - 1]));
            } else {
                assert(tail[i - whole - 1 - fraction] == s[i]);
            }
        }
    } else {
        if rest.len() > 0 {
            lemma_exponent_is_word(rest);
        }
        assert forall|i: int| 0 <= i < s.len() implies #[trigger] s[i] != ' ' && s[i] != '\n'
            && s[i] != '\r' by {
            if i < whole {
                assert(is_digit(s[i]));
            } else {
                assert(rest[i - whole] == s[i]);
            }
        }
    }
}

proof fn lemma_reading_is_word(s: Seq<char>, word: Seq<char>)
    requires
        reads_as(s, word),
        is_word(word),
    ensures
        is_word(s),
{
    let lowered = s.map_values(|c: char| lower(c));
    assert forall|i: int| 0 <= i < s.len() implies #[trigger] s[i] != ' ' && s[i] != '\n' && s[i]
        != '\r' by {
        assert(lowered[i] == lower(s[i]));
        assert(lowered[i] == word[i]);
    }
}

proof fn lemma_float_is_word(s: Seq<char>)
    requires
        is_float(s),
    ensures
        is_word(s),
{
    let body = without_sign(s);
    if is_plain_number(body) {
        lemma_plain_number_is_word(body);
    } else if reads_as(body, seq!['i', 'n', 'f']) {
        lemma_reading_is_word(body, seq!['i', 'n', 'f']);
    } else if reads_as(body, seq!['i', 'n', 'f', 'i', 'n', 'i', 't', 'y']) {
        lemma_reading_is_word(body, seq!['i', 'n', 'f', 'i', 'n', 'i', 't', 'y']);
    } else {
        lemma_reading_is_word(body, seq!['n', 'a', 'n']);
    }
    assert forall|i: int| 0 <= i < s.len() implies #[trigger] s[i] != ' ' && s[i] != '\n' && s[i]
        != '\r' by {
        if body.len() == s.len() {
            assert(body[i] == s[i]);
        } else if i > 0 {
            assert(body[i - 1] == s[i]);
        }
    }
}

/// An integer in decimal digits reads as that integer.
pub proof fn law_integers_read_as_written(v: i64)
    ensures
        i64_value(signed_decimal(v as int)) == Some(v),
{
    let s = signed_decimal(v as int);
    if v < 0 {
        lemma_decimal((-v) as nat);
        assert(s.skip(1) =~= decimal((-v) as nat));
    } else {
        lemma_decimal(v as nat);
        assert(is_digit(s[0]));
    }
}

proof fn lemma_integer_is_word(v: i64)
    ensures
        is_word(signed_decimal(v as int)),
{
    let s = signed_decimal(v as int);
    if v < 0 {
        let digits = decimal((-v) as nat);
        lemma_decimal((-v) as nat);
        assert forall|i: int| 0 <= i < s.len() implies #[trigger] s[i] != ' ' && s[i] != '\n'
            && s[i] != '\r' by {
            if i > 0 {
                assert(s[i] == digits[i - 1]);
                assert(is_digit(digits[i - 1]));
            }
        }
    } else {
        lemma_decimal(v as nat);
        assert forall|i: int| 0 <= i < s.len() implies #[trigger] s[i] != ' ' && s[i] != '\n'
            && s[i] != '\r' by {
            assert(is_digit(s[i]));
        }
    }
}

/// What is needed of the words of one value.
proof fn lemma_value_words(value: StatView)
    requires
        is_written(value),
    ensures
        is_word(key_text(value)),
        key_text(value)[0] != ':',
        is_word(number_text(value)),
        entry_value(key_text(value), number_text(value)) == Ok::<
            Option<StatView>,
            StatsParseError,
        >(Some(value)),
{
    reveal_strlit("COUNT");
    reveal_strlit("SUM");
    assert("COUNT"@ != "SUM"@) by {
        assert("COUNT"@.len() != "SUM"@.len());
    }
    match value {
        StatView::Count(v) => {
            lemma_integer_is_word(v);
            law_integers_read_as_written(v);
        },
        StatView::Sum(v) => {
            lemma_integer_is_word(v);
            law_integers_read_as_written(v);
        },
        StatView::Percentile(p, text) => {
            lemma_float_is_word(text);
            let key = key_text(value);
            let digits = decimal(p as nat);
            lemma_decimal(p as nat);
            assert(key[0] == 'P');
            assert("COUNT"@[0] == 'C');
            assert("SUM"@[0] == 'S');
            assert(key.skip(1) =~= digits);
            assert(is_digit(digits[0]));
            assert forall|i: int| 0 <= i < key.len() implies #[trigger] key[i] != ' ' && key[i]
                != '\n' && key[i] != '\r' by {
                if i > 0 {
                    assert(key[i] == digits[i - 1]);
                    assert(is_digit(digits[i - 1]));
                }
            }
        },
        _ => {},
    }
}

proof fn lemma_no_match_without_first(s: Seq<char>, sep: Seq<char>)
    requires
        sep.len() > 0,
        forall|i: int| 0 <= i < s.len() ==> s[i] != sep[0],
    ensures
        first_match(s, sep) is None,
        pieces(s, sep) == seq![s],
{
    lemma_first_match(s, sep);
    assert forall|i: int| !matches_at(s, sep, i) by {
        if matches_at(s, sep, i) {
            assert(s.subrange(i, i + sep.len())[0] == s[i]);
        }
    }
}

/// A first piece `a`, in front of `sep`, is split off.
proof fn lemma_split_off(a: Seq<char>, sep: Seq<char>, b: Seq<char>)
    requires
        sep.len() > 0,
        forall|i: int| 0 <= i < a.len() ==> !matches_at(a + sep + b, sep, i),
    ensures
        first_match(a + sep + b, sep) == Some(a.len() as int),
        (a + sep + b).take(a.len() as int) == a,
        (a + sep + b).skip((a.len() + sep.len()) as int) == b,
        pieces(a + sep + b, sep) == seq![a] + pieces(b, sep),
{
    let s = a + sep + b;
    assert(s.subrange(a.len() as int, (a.len() + sep.len()) as int) =~= sep);
    lemma_first_match_at(s, sep, a.len() as int);
    assert(s.take(a.len() as int) =~= a);
    assert(s.skip((a.len() + sep.len()) as int) =~= b);
}

/// The words of a list of values: for each its key and its number.
spec fn word_list(values: Seq<StatView>) -> Seq<Seq<char>>
    decreases values.len(),
{
    if values.len() == 0 {
        Seq::empty()
    } else {
        seq![key_text(values[0]), number_text(values[0])] + word_list(values.skip(1))
    }
}

/// A colon between spaces does not occur before the one that follows two words.
proof fn lemma_first_colon(number: Seq<char>, key: Seq<char>, tail: Seq<char>, i: int)
    requires
        is_word(number),
        is_word(key),
        key[0] != ':',
        0 <= i < number.len() + 1 + key.len(),
    ensures
        !matches_at(number + seq![' '] + key + seq![' ', ':', ' '] + tail, seq![' ', ':', ' '], i),
{
    let colon = seq![' ', ':', ' '];
    let whole = number + seq![' '] + key + colon + tail;
    if matches_at(whole, colon, i) {
        let here = whole.subrange(i, i + 3);
        assert(here[0] == whole[i] && here[1] == whole[i + 1]);
        if i < number.len() {
            assert(whole[i] == number[i]);
        } else if i == number.len() {
            assert(whole[i + 1] == key[0]);
        } else {
            assert(whole[i] == key[i - number.len() - 1]);
        }
    }
}

proof fn lemma_two_words(a: Seq<char>, b: Seq<char>)
    requires
        is_word(a),
        is_word(b),
    ensures
        pieces(a + seq![' '] + b, seq![' ']) == seq![a, b],
{
    let space = seq![' '];
    let whole = a + space + b;
    assert forall|i: int| 0 <= i < a.len() implies !matches_at(whole, space, i) by {
        if matches_at(whole, space, i) {
            assert(whole.subrange(i, i + 1)[0] == whole[i]);
            assert(whole[i] == a[i]);
        }
    }
    lemma_split_off(a, space, b);
    lemma_no_match_without_first(b, space);
    assert(seq![a] + seq![b] =~= seq![a, b]);
}

/// The words of a text of which the first part, up to a colon, gives `words`.
proof fn lemma_words_split_off(
    a: Seq<char>,
    tail: Seq<char>,
    words: Seq<Seq<char>>,
)
    requires
        pieces(a, seq![' ']) == words,
        forall|i: int|
            0 <= i < a.len() ==> !matches_at(
                a + seq![' ', ':', ' '] + tail,
                seq![' ', ':', ' '],
                i,
            ),
    ensures
        words_of(a + seq![' ', ':', ' '] + tail) == words + words_of(tail),
{
    let colon = seq![' ', ':', ' '];
    lemma_split_off(a, colon, tail);
    let parts = pieces(a + colon + tail, colon);
    assert(parts[0] == a);
    assert(parts.skip(1) =~= pieces(tail, colon));
}

/// A single word is its only word.
proof fn lemma_one_word(a: Seq<char>)
    requires
        forall|i: int| 0 <= i < a.len() ==> a[i] != ' ',
    ensures
        words_of(a) == seq![a],
{
    let space = seq![' '];
    lemma_no_match_without_first(a, seq![' ', ':', ' ']);
    lemma_no_match_without_first(a, space);
    let parts = pieces(a, seq![' ', ':', ' ']);
    assert(parts.skip(1) =~= Seq::empty());
    assert(words_of(a) == seq![a] + pieces_of_each(parts.skip(1), space));
    assert(words_of(a) =~= seq![a]);
}

proof fn lemma_written_rest(values: Seq<StatView>)
    requires
        values.len() > 0,
        forall|i: int| 0 <= i < values.len() ==> is_written(#[trigger] values[i]),
    ensures
        is_written(values[0]),
        forall|i: int| 0 <= i < values.skip(1).len() ==> is_written(#[trigger] values.skip(1)[i]),
{
    assert forall|i: int| 0 <= i < values.skip(1).len() implies is_written(
        #[trigger] values.skip(1)[i],
    ) by {
        assert(values.skip(1)[i] == values[i + 1]);
    }
}

/// A value and a key in front of a colon are the first two words.
proof fn lemma_value_and_key(value: Seq<char>, key: Seq<char>, tail: Seq<char>)
    requires
        is_word(value),
        is_word(key),
        key[0] != ':',
    ensures
        words_of(value + seq![' '] + key + seq![' ', ':', ' '] + tail) == seq![value, key]
            + words_of(tail),
{
    let colon = seq![' ', ':', ' '];
    let a = value + seq![' '] + key;
    assert forall|i: int| 0 <= i < a.len() implies !matches_at(a + colon + tail, colon, i) by {
        lemma_first_colon(value, key, tail, i);
    }
    lemma_two_words(value, key);
    lemma_words_split_off(a, tail, seq![value, key]);
}

proof fn lemma_words_after_key(value: StatView, rest: Seq<StatView>)
    requires
        is_written(value),
        forall|i: int| 0 <= i < rest.len() ==> is_written(#[trigger] rest[i]),
    ensures
        words_of(number_then_values(value, rest)) == seq![number_text(value)] + word_list(rest),
    decreases rest.len(),
{
    let number = number_text(value);
    lemma_value_words(value);
    if rest.len() == 0 {
        lemma_one_word(number);
        assert(seq![number] + word_list(rest) =~= seq![number]);
    } else {
        let key = key_text(rest[0]);
        let next = number_text(rest[0]);
        let more = word_list(rest.skip(1));
        let tail = number_then_values(rest[0], rest.skip(1));
        lemma_written_rest(rest);
        lemma_value_words(rest[0]);
        lemma_words_after_key(rest[0], rest.skip(1));
        lemma_value_and_key(number, key, tail);
        assert(number_then_values(value, rest) =~= number + seq![' '] + key + seq![' ', ':', ' ']
            + tail);
        assert(seq![number, key] + (seq![next] + more) =~= seq![number] + (seq![key, next] + more));
    }
}

proof fn lemma_words_of_values(values: Seq<StatView>)
    requires
        values.len() > 0,
        forall|i: int| 0 <= i < values.len() ==> is_written(#[trigger] values[i]),
    ensures
        words_of(values_text(values)) == word_list(values),
{
    let colon = seq![' ', ':', ' '];
    let key = key_text(values[0]);
    let next = number_text(values[0]);
    let tail = number_then_values(values[0], values.skip(1));
    lemma_written_rest(values);
    lemma_value_words(values[0]);
    lemma_words_after_key(values[0], values.skip(1));
    assert forall|i: int| 0 <= i < key.len() implies !matches_at(key + colon + tail, colon, i) by {
        let whole = key + colon + tail;
        if matches_at(whole, colon, i) {
            assert(whole.subrange(i, i + 3)[0] == whole[i]);
            assert(whole[i] == key[i]);
        }
    }
    lemma_no_match_without_first(key, seq![' ']);
    lemma_words_split_off(key, tail, seq![key]);
    assert(seq![key] + (seq![next] + word_list(values.skip(1))) =~= seq![key, next] + word_list(
        values.skip(1),
    ));
}

proof fn lemma_word_list_values(values: Seq<StatView>)
    requires
        forall|i: int| 0 <= i < values.len() ==> is_written(#[trigger] values[i]),
    ensures
        word_values(word_list(values)) == Ok::<Seq<StatView>, StatsParseError>(values),
    decreases values.len(),
{
    if values.len() > 0 {
        lemma_written_rest(values);
        lemma_value_words(values[0]);
        lemma_word_list_values(values.skip(1));
        assert(word_list(values).skip(2) =~= word_list(values.skip(1)));
        assert(seq![values[0]] + values.skip(1) =~= values);
    } else {
        assert(values =~= Seq::empty());
    }
}

/// A statistic that is written as a line is read back from that line: its name, and its values
/// in order.
pub proof fn law_line_reads_as_written(row: StatRow)
    requires
        is_written_row(row),
    ensures
        line_row(row_text(row)) == Ok::<Option<StatRow>, StatsParseError>(Some(row)),
{
    let space = seq![' '];
    let (name, values) = row;
    let line = row_text(row);
    let tail = values_text(values);
    assert forall|i: int| 0 <= i < name.len() implies !matches_at(name + space + tail, space, i) by {
        let whole = name + space + tail;
        if matches_at(whole, space, i) {
            assert(whole.subrange(i, i + 1)[0] == whole[i]);
            assert(whole[i] == name[i]);
        }
    }
    lemma_split_off(name, space, tail);
    if values.len() > 0 {
        lemma_words_of_values(values);
        lemma_word_list_values(values);
    } else {
        lemma_one_word(tail);
        assert(values =~= Seq::empty());
    }
}

/// The number and the values after it hold no line feed and do not end in a carriage return.
proof fn lemma_no_line_ending_after_key(value: StatView, rest: Seq<StatView>)
    requires
        is_written(value),
        forall|i: int| 0 <= i < rest.len() ==> is_written(#[trigger] rest[i]),
    ensures
        ({
            let s = number_then_values(value, rest);
            &&& s.len() > 0
            &&& s.last() != '\r'
            &&& forall|i: int| 0 <= i < s.len() ==> s[i] != '\n'
        }),
    decreases rest.len(),
{
    lemma_value_words(value);
    if rest.len() > 0 {
        lemma_written_rest(rest);
        lemma_value_words(rest[0]);
        lemma_no_line_ending_after_key(rest[0], rest.skip(1));
    }
}

proof fn lemma_row_is_line(row: StatRow)
    requires
        is_written_row(row),
    ensures
        row_text(row).len() > 0,
        row_text(row).last() != '\r',
        forall|i: int| 0 <= i < row_text(row).len() ==> row_text(row)[i] != '\n',
{
    if row.1.len() > 0 {
        lemma_written_rest(row.1);
        lemma_value_words(row.1[0]);
        lemma_no_line_ending_after_key(row.1[0], row.1.skip(1));
    }
}

proof fn lemma_first_line_of_rows(rows: Seq<StatRow>)
    requires
        rows.len() > 0,
        is_written_row(rows[0]),
    ensures
        lines_of(statistics_text(rows)) == seq![row_text(rows[0])] + lines_of(
            statistics_text(rows.skip(1)),
        ),
{
    let feed = seq!['\n'];
    let line = row_text(rows[0]);
    let rest = statistics_text(rows.skip(1));
    let text = line + feed + rest;
    lemma_row_is_line(rows[0]);
    assert forall|i: int| 0 <= i < line.len() implies !matches_at(text, feed, i) by {
        if matches_at(text, feed, i) {
            assert(text.subrange(i, i + 1)[0] == text[i]);
            assert(text[i] == line[i]);
        }
    }
    lemma_split_off(line, feed, rest);
}

/// Statistics that are written one per line are read back: all of them, in order, with their
/// names and values.
pub proof fn law_statistics_read_as_written(rows: Seq<StatRow>)
    requires
        forall|i: int| 0 <= i < rows.len() ==> is_written_row(#[trigger] rows[i]),
    ensures
        statistics_of(statistics_text(rows)) == (rows, None::<StatsParseError>),
    decreases rows.len(),
{
    if rows.len() == 0 {
        assert(rows =~= Seq::empty());
    } else {
        let line = row_text(rows[0]);
        let rest = statistics_text(rows.skip(1));
        assert(is_written_row(rows[0]));
        lemma_first_line_of_rows(rows);
        law_line_reads_as_written(rows[0]);
        assert forall|i: int| 0 <= i < rows.skip(1).len() implies is_written_row(
            #[trigger] rows.skip(1)[i],
        ) by {
            assert(rows.skip(1)[i] == rows[i + 1]);
        }
        law_statistics_read_as_written(rows.skip(1));
        assert((seq![line] + lines_of(rest)).skip(1) =~= lines_of(rest));
        assert(seq![rows[0]] + rows.skip(1) =~= rows);
    }
}

proof fn lemma_lines_of_chunks(a: Seq<char>, b: Seq<char>)
    requires
        a.len() == 0 || a.last() == '\n',
    ensures
        lines_of(a + b) == lines_of(a) + lines_of(b),
    decreases a.len(),
{
    if a.len() == 0 {
        assert(a + b =~= b);
        assert(lines_of(a) + lines_of(b) =~= lines_of(b));
    } else {
        let feed = seq!['\n'];
        let last = a.len() - 1;
        lemma_first_match(a, feed);
        assert(matches_at(a, feed, last)) by {
            assert(a.subrange(last, last + 1) =~= feed);
        }
        let i = first_match(a, feed)->0;
        assert(a.subrange(i, i + 1)[0] == a[i]);
        assert((a + b).subrange(i, i + 1) =~= feed);
        assert forall|j: int| 0 <= j < i implies !matches_at(a + b, feed, j) by {
            assert((a + b).subrange(j, j + 1) =~= a.subrange(j, j + 1));
            assert(!matches_at(a, feed, j));
        }
        lemma_first_match_at(a + b, feed, i);
        let rest = a.skip(i + 1);
        assert((a + b).take(i) =~= a.take(i));
        assert((a + b).skip(i + 1) =~= rest + b);
        if rest.len() > 0 {
            assert(rest.last() == a.last());
        }
        lemma_lines_of_chunks(rest, b);
        let first = seq![without_trailing_return(a.take(i))];
        assert(first + (lines_of(rest) + lines_of(b)) =~= (first + lines_of(rest)) + lines_of(b));
    }
}

proof fn lemma_rows_of_chunks(x: Seq<Seq<char>>, y: Seq<Seq<char>>)
    ensures
        rows_of(x + y) == match rows_of(x).1 {
            Some(_) => rows_of(x),
            None => (rows_of(x).0 + rows_of(y).0, rows_of(y).1),
        },
    decreases x.len(),
{
    if x.len() == 0 {
        assert(x + y =~= y);
        assert(rows_of(x).0 + rows_of(y).0 =~= rows_of(y).0);
    } else {
        lemma_rows_of_chunks(x.skip(1), y);
        assert((x + y)[0] == x[0]);
        assert((x + y).skip(1) =~= x.skip(1) + y);
        match line_row(x[0]) {
            Ok(row) => {
                let first = as_list(row);
                assert(first + (rows_of(x.skip(1)).0 + rows_of(y).0) =~= (first + rows_of(
                    x.skip(1),
                ).0) + rows_of(y).0);
            },
            Err(e) => {},
        }
    }
}

/// A text can be read in chunks of whole lines: what the chunks give, one after the other up to
/// the first error, is what the whole text gives.
pub proof fn law_statistics_of_chunks(a: Seq<char>, b: Seq<char>)
    requires
        a.len() == 0 || a.last() == '\n',
    ensures
        statistics_of(a + b) == match statistics_of(a).1 {
            Some(_) => statistics_of(a),
            None => (statistics_of(a).0 + statistics_of(b).0, statistics_of(b).1),
        },
{
    lemma_lines_of_chunks(a, b);
    lemma_rows_of_chunks(lines_of(a), lines_of(b));
}

proof fn lemma_lines_with_feed(a: Seq<char>)
    requires
        a.len() == 0 || a.last() != '\r',
    ensures
        rows_of(lines_of(a + seq!['\n'])) == rows_of(lines_of(a)),
    decreases a.len(),
{
    let feed = seq!['\n'];
    let whole = a + feed;
    lemma_first_match(a, feed);
    match first_match(a, feed) {
        Some(i) => {
            let rest = a.skip(i + 1);
            assert(a.subrange(i, i + 1)[0] == a[i]);
            assert(whole.subrange(i, i + 1) =~= feed);
            assert forall|j: int| 0 <= j < i implies !matches_at(whole, feed, j) by {
                assert(whole.subrange(j, j + 1) =~= a.subrange(j, j + 1));
                assert(!matches_at(a, feed, j));
            }
            lemma_first_match_at(whole, feed, i);
            assert(whole.take(i) =~= a.take(i));
            assert(whole.skip(i + 1) =~= rest + feed);
            if rest.len() > 0 {
                assert(rest.last() == a.last());
            }
            lemma_lines_with_feed(rest);
            let first = seq![without_trailing_return(a.take(i))];
            lemma_rows_of_chunks(first, lines_of(rest));
            lemma_rows_of_chunks(first, lines_of(rest + feed));
        },
        None => {
            let end = a.len() as int;
            assert forall|j: int| 0 <= j < a.len() implies !matches_at(whole, feed, j) by {
                assert(whole.subrange(j, j + 1) =~= a.subrange(j, j + 1));
                assert(!matches_at(a, feed, j));
            }
            assert(whole.subrange(end, end + 1) =~= feed);
            lemma_first_match_at(whole, feed, end);
            assert(whole.take(end) =~= a);
            assert(whole.skip(end + 1) =~= Seq::empty());
            assert(lines_of(Seq::empty()) =~= Seq::empty());
            assert(lines_of(whole) == seq![a] + lines_of(whole.skip(end + 1)));
            assert(lines_of(whole) =~= seq![a]);
            if a.len() == 0 {
                lemma_first_match(a, seq![' ']);
                assert(line_row(a) == Ok::<Option<StatRow>, StatsParseError>(None));
                assert(seq![a].skip(1) =~= Seq::empty());
                assert(rows_of(Seq::empty()).0 =~= Seq::empty());
                assert(rows_of(seq![a]).0 =~= Seq::empty());
            }
        },
    }
}

/// Texts that are joined by a line feed give what they give one after the other, up to the
/// first error. The first must not end in a carriage return: the line feed would make that a
/// part of the line ending.
pub proof fn law_statistics_of_joined_texts(a: Seq<char>, b: Seq<char>)
    requires
        a.len() == 0 || a.last() != '\r',
    ensures
        statistics_of(a + seq!['\n'] + b) == match statistics_of(a).1 {
            Some(_) => statistics_of(a),
            None => (statistics_of(a).0 + statistics_of(b).0, statistics_of(b).1),
        },
{
    lemma_lines_with_feed(a);
    law_statistics_of_chunks(a + seq!['\n'], b);
}

proof fn lemma_word_list_supported(values: Seq<StatView>, line: Seq<char>)
    requires
        forall|i: int| 0 <= i < values.len() ==> is_written(#[trigger] values[i]),
    ensures
        unsupported_in_words(word_list(values), line).len() == 0,
    decreases values.len(),
{
    if values.len() > 0 {
        lemma_written_rest(values);
        lemma_value_words(values[0]);
        lemma_word_list_supported(values.skip(1), line);
        assert(word_list(values).skip(2) =~= word_list(values.skip(1)));
    }
}

proof fn lemma_line_supported(row: StatRow)
    requires
        is_written_row(row),
    ensures
        unsupported_in_line(row_text(row)).len() == 0,
{
    let space = seq![' '];
    let (name, values) = row;
    let tail = values_text(values);
    let line = name + space + tail;
    assert forall|i: int| 0 <= i < name.len() implies !matches_at(line, space, i) by {
        if matches_at(line, space, i) {
            assert(line.subrange(i, i + 1)[0] == line[i]);
            assert(line[i] == name[i]);
        }
    }
    lemma_split_off(name, space, tail);
    if values.len() > 0 {
        lemma_words_of_values(values);
        lemma_word_list_supported(values, line);
    } else {
        lemma_one_word(tail);
    }
}

/// No key of a statistic that the database writes is passed over.
pub proof fn law_written_statistics_are_supported(rows: Seq<StatRow>)
    requires
        forall|i: int| 0 <= i < rows.len() ==> is_written_row(#[trigger] rows[i]),
    ensures
        unsupported_of(statistics_text(rows)).len() == 0,
    decreases rows.len(),
{
    if rows.len() > 0 {
        let line = row_text(rows[0]);
        let rest = statistics_text(rows.skip(1));
        assert(is_written_row(rows[0]));
        lemma_first_line_of_rows(rows);
        lemma_line_supported(rows[0]);
        law_line_reads_as_written(rows[0]);
        assert forall|i: int| 0 <= i < rows.skip(1).len() implies is_written_row(
            #[trigger] rows.skip(1)[i],
        ) by {
            assert(rows.skip(1)[i] == rows[i + 1]);
        }
        law_written_statistics_are_supported(rows.skip(1));
        assert((seq![line] + lines_of(rest)).skip(1) =~= lines_of(rest));
    }
}

/// A key and a value, as two words. The key does not start with a colon.
pub type Entry = (Seq<char>, Seq<char>);

/// `entry` is made of two words, of which the first does not start with a colon.
pub open spec fn is_entry(entry: Entry) -> bool {
    is_word(entry.0) && entry.0[0] != ':' && is_word(entry.1)
}

/// The entries, each with a colon between its words, separated by spaces.
pub open spec fn entries_text(entries: Seq<Entry>) -> Seq<char>
    decreases entries.len(), 1nat,
{
    if entries.len() == 0 {
        Seq::empty()
    } else {
        entries[0].0 + seq![' ', ':', ' '] + value_then_entries(entries[0].1, entries.skip(1))
    }
}

/// The value `value`, then the entries `rest`.
pub open spec fn value_then_entries(value: Seq<char>, rest: Seq<Entry>) -> Seq<char>
    decreases rest.len(), 2nat,
{
    if rest.len() == 0 {
        value
    } else {
        value + seq![' '] + entries_text(rest)
    }
}

/// A line that names a statistic and lists entries.
pub open spec fn entry_line(name: Seq<char>, entries: Seq<Entry>) -> Seq<char> {
    name + seq![' '] + entries_text(entries)
}

/// `name` holds no space.
pub open spec fn is_stat_name(name: Seq<char>) -> bool {
    forall|i: int| 0 <= i < name.len() ==> name[i] != ' '
}

/// All of `entries` are entries.
pub open spec fn are_entries(entries: Seq<Entry>) -> bool {
    forall|i: int| 0 <= i < entries.len() ==> is_entry(#[trigger] entries[i])
}

spec fn entry_words(entries: Seq<Entry>) -> Seq<Seq<char>>
    decreases entries.len(),
{
    if entries.len() == 0 {
        Seq::empty()
    } else {
        seq![entries[0].0, entries[0].1] + entry_words(entries.skip(1))
    }
}

proof fn lemma_entries_rest(entries: Seq<Entry>)
    requires
        entries.len() > 0,
        are_entries(entries),
    ensures
        is_entry(entries[0]),
        are_entries(entries.skip(1)),
{
    assert forall|i: int| 0 <= i < entries.skip(1).len() implies is_entry(
        #[trigger] entries.skip(1)[i],
    ) by {
        assert(entries.skip(1)[i] == entries[i + 1]);
    }
}

proof fn lemma_words_after_value(value: Seq<char>, rest: Seq<Entry>)
    requires
        is_word(value),
        are_entries(rest),
    ensures
        words_of(value_then_entries(value, rest)) == seq![value] + entry_words(rest),
    decreases rest.len(),
{
    if rest.len() == 0 {
        lemma_one_word(value);
        assert(seq![value] + entry_words(rest) =~= seq![value]);
    } else {
        let (key, next) = rest[0];
        let more = entry_words(rest.skip(1));
        let tail = value_then_entries(next, rest.skip(1));
        lemma_entries_rest(rest);
        lemma_words_after_value(next, rest.skip(1));
        lemma_value_and_key(value, key, tail);
        assert(value_then_entries(value, rest) =~= value + seq![' '] + key + seq![' ', ':', ' ']
            + tail);
        assert(seq![value, key] + (seq![next] + more) =~= seq![value] + (seq![key, next] + more));
    }
}

/// Reading the words of entries is reading the words of their text.
proof fn lemma_words_of_entries(entries: Seq<Entry>, line: Seq<char>)
    requires
        are_entries(entries),
    ensures
        word_values(words_of(entries_text(entries))) == word_values(entry_words(entries)),
        unsupported_in_words(words_of(entries_text(entries)), line) == unsupported_in_words(
            entry_words(entries),
            line,
        ),
{
    if entries.len() == 0 {
        lemma_one_word(entries_text(entries));
    } else {
        let colon = seq![' ', ':', ' '];
        let (key, next) = entries[0];
        let tail = value_then_entries(next, entries.skip(1));
        lemma_entries_rest(entries);
        lemma_words_after_value(next, entries.skip(1));
        let whole = key + colon + tail;
        assert forall|i: int| 0 <= i < key.len() implies !matches_at(whole, colon, i) by {
            if matches_at(whole, colon, i) {
                assert(whole.subrange(i, i + 3)[0] == whole[i]);
                assert(whole[i] == key[i]);
            }
        }
        lemma_no_match_without_first(key, seq![' ']);
        lemma_words_split_off(key, tail, seq![key]);
        assert(seq![key] + (seq![next] + entry_words(entries.skip(1))) =~= seq![key, next]
            + entry_words(entries.skip(1)));
        assert(words_of(entries_text(entries)) == entry_words(entries));
    }
}

proof fn lemma_entry_line(name: Seq<char>, entries: Seq<Entry>)
    requires
        is_stat_name(name),
        are_entries(entries),
    ensures
        line_row(entry_line(name, entries)) == match word_values(entry_words(entries)) {
            Ok(values) => Ok::<Option<StatRow>, StatsParseError>(Some((name, values))),
            Err(e) => Err(e),
        },
        unsupported_in_line(entry_line(name, entries)) == unsupported_in_words(
            entry_words(entries),
            entry_line(name, entries),
        ),
{
    let space = seq![' '];
    let tail = entries_text(entries);
    let whole = name + space + tail;
    assert forall|i: int| 0 <= i < name.len() implies !matches_at(whole, space, i) by {
        if matches_at(whole, space, i) {
            assert(whole.subrange(i, i + 1)[0] == whole[i]);
            assert(whole[i] == name[i]);
        }
    }
    lemma_split_off(name, space, tail);
    lemma_words_of_entries(entries, whole);
}

proof fn lemma_word_values_append(a: Seq<Entry>, b: Seq<Entry>)
    ensures
        word_values(entry_words(a + b)) == match word_values(entry_words(a)) {
            Ok(values) => match word_values(entry_words(b)) {
                Ok(more) => Ok::<Seq<StatView>, StatsParseError>(values + more),
                Err(e) => Err(e),
            },
            Err(e) => Err(e),
        },
    decreases a.len(),
{
    if a.len() == 0 {
        assert(a + b =~= b);
        match word_values(entry_words(b)) {
            Ok(more) => {
                assert(Seq::<StatView>::empty() + more =~= more);
            },
            Err(e) => {},
        }
    } else {
        let rest = a.skip(1);
        lemma_word_values_append(rest, b);
        assert((a + b).skip(1) =~= rest + b);
        assert((a + b)[0] == a[0]);
        assert(entry_words(a + b).skip(2) =~= entry_words(rest + b));
        assert(entry_words(a).skip(2) =~= entry_words(rest));
        match entry_value(a[0].0, a[0].1) {
            Ok(value) => {
                let first = as_list(value);
                match (word_values(entry_words(rest)), word_values(entry_words(b))) {
                    (Ok(values), Ok(more)) => {
                        assert(first + (values + more) =~= (first + values) + more);
                    },
                    _ => {},
                }
            },
            Err(e) => {},
        }
    }
}

proof fn lemma_are_entries_append(a: Seq<Entry>, b: Seq<Entry>)
    requires
        are_entries(a),
        are_entries(b),
    ensures
        are_entries(a + b),
{
    assert forall|i: int| 0 <= i < (a + b).len() implies is_entry(#[trigger] (a + b)[i]) by {
        if i < a.len() {
            assert((a + b)[i] == a[i]);
        } else {
            assert((a + b)[i] == b[i - a.len()]);
        }
    }
}

/// The entries of a line are read one after the other: a line gives the values of its first
/// entries, then those of the others, and the first error among them.
pub proof fn law_entries_are_read_in_order(name: Seq<char>, a: Seq<Entry>, b: Seq<Entry>)
    requires
        is_stat_name(name),
        are_entries(a),
        are_entries(b),
    ensures
        line_row(entry_line(name, a + b)) == match (
            line_row(entry_line(name, a)),
            line_row(entry_line(name, b)),
        ) {
            (Err(e), _) => Err::<Option<StatRow>, StatsParseError>(e),
            (_, Err(e)) => Err(e),
            (Ok(Some(x)), Ok(Some(y))) => Ok(Some((name, x.1 + y.1))),
            _ => Ok(None),
        },
        line_row(entry_line(name, a)) != Ok::<Option<StatRow>, StatsParseError>(None),
{
    lemma_are_entries_append(a, b);
    lemma_entry_line(name, a);
    lemma_entry_line(name, b);
    lemma_entry_line(name, a + b);
    lemma_word_values_append(a, b);
}

/// A line with one entry gives a count for the key `COUNT` and a sum for the key `SUM`, where the
/// value is an integer; a percentile for a key that is `P` and its number, where the value is a
/// floating-point literal; and nothing for any other key. Where the number is none, the line
/// gives the error that says so.
pub proof fn law_keys_tell_the_kind(name: Seq<char>, entry: Entry)
    requires
        is_stat_name(name),
        is_entry(entry),
    ensures
        ({
            let (key, value) = entry;
            let read = line_row(entry_line(name, seq![entry]));
            let gives = |v: StatView| read == Ok::<Option<StatRow>, StatsParseError>(
                Some((name, seq![v])),
            );
            &&& key == seq!['C', 'O', 'U', 'N', 'T'] ==> match i64_value(value) {
                Some(v) => gives(StatView::Count(v)),
                None => read == Err::<Option<StatRow>, StatsParseError>(
                    StatsParseError::Integer(i64_fault(value)),
                ),
            }
            &&& key == seq!['S', 'U', 'M'] ==> match i64_value(value) {
                Some(v) => gives(StatView::Sum(v)),
                None => read == Err::<Option<StatRow>, StatsParseError>(
                    StatsParseError::Integer(i64_fault(value)),
                ),
            }
            &&& key[0] == 'P' ==> match u32_value(key.skip(1)) {
                Some(p) => if is_float(value) {
                    gives(StatView::Percentile(p, value))
                } else {
                    read == Err::<Option<StatRow>, StatsParseError>(
                        StatsParseError::Float(float_fault(value)),
                    )
                },
                None => read == Err::<Option<StatRow>, StatsParseError>(
                    StatsParseError::Integer(u32_fault(key.skip(1))),
                ),
            }
            &&& is_passed_over(entry) ==> read == Ok::<Option<StatRow>, StatsParseError>(
                Some((name, Seq::empty())),
            )
        }),
{
    let (key, value) = entry;
    let one = seq![entry];
    assert(are_entries(one));
    lemma_entry_line(name, one);
    lemma_key_words();
    assert(one.skip(1) =~= Seq::empty());
    assert(entry_words(Seq::<Entry>::empty()) =~= Seq::empty());
    assert(entry_words(one) =~= seq![key, value]);
    assert(entry_words(one).skip(2) =~= Seq::empty());
    assert(word_values(Seq::empty()) == Ok::<Seq<StatView>, StatsParseError>(Seq::empty()));
    match entry_value(key, value) {
        Ok(v) => {
            assert(as_list(v) + Seq::<StatView>::empty() =~= as_list(v));
        },
        Err(e) => {},
    }
}

proof fn lemma_key_words()
    ensures
        "COUNT"@ == seq!['C', 'O', 'U', 'N', 'T'],
        "SUM"@ == seq!['S', 'U', 'M'],
        "COUNT"@[0] != 'P',
        "SUM"@[0] != 'P',
        "COUNT"@ != "SUM"@,
{
    reveal_strlit("COUNT");
    reveal_strlit("SUM");
    assert("COUNT"@ =~= seq!['C', 'O', 'U', 'N', 'T']);
    assert("SUM"@ =~= seq!['S', 'U', 'M']);
    assert("COUNT"@.len() != "SUM"@.len());
}

/// The key of `entry` is none of those that have a meaning.
pub open spec fn is_passed_over(entry: Entry) -> bool {
    &&& entry.0 != seq!['C', 'O', 'U', 'N', 'T']
    &&& entry.0 != seq!['S', 'U', 'M']
    &&& entry.0[0] != 'P'
}

/// An entry whose key has no meaning changes nothing of what its line gives, wherever it stands.
pub proof fn law_passed_over_entries_change_nothing(
    name: Seq<char>,
    a: Seq<Entry>,
    entry: Entry,
    b: Seq<Entry>,
)
    requires
        is_stat_name(name),
        are_entries(a),
        is_entry(entry),
        are_entries(b),
        is_passed_over(entry),
    ensures
        line_row(entry_line(name, a + seq![entry] + b)) == line_row(entry_line(name, a + b)),
{
    let one = seq![entry];
    assert(are_entries(one));
    lemma_are_entries_append(a, one);
    law_entries_are_read_in_order(name, a, one);
    law_entries_are_read_in_order(name, a + one, b);
    law_entries_are_read_in_order(name, a, b);
    law_keys_tell_the_kind(name, entry);
    match line_row(entry_line(name, a)) {
        Ok(Some(x)) => {
            assert(x.1 + Seq::<StatView>::empty() =~= x.1);
        },
        _ => {},
    }
}

/// The keys of those of `entries` that have no meaning, in order, each with `line`.
pub open spec fn passed_over_in(entries: Seq<Entry>, line: Seq<char>) -> Seq<
    (Seq<char>, Seq<char>),
>
    decreases entries.len(),
{
    if entries.len() == 0 {
        Seq::empty()
    } else {
        let rest = passed_over_in(entries.drop_last(), line);
        if is_passed_over(entries.last()) {
            rest.push((entries.last().0, line))
        } else {
            rest
        }
    }
}

proof fn lemma_passed_over_first(entries: Seq<Entry>, line: Seq<char>)
    requires
        entries.len() > 0,
    ensures
        passed_over_in(entries, line) == (if is_passed_over(entries[0]) {
            seq![(entries[0].0, line)]
        } else {
            Seq::empty()
        }) + passed_over_in(entries.skip(1), line),
    decreases entries.len(),
{
    let first = if is_passed_over(entries[0]) {
        seq![(entries[0].0, line)]
    } else {
        Seq::empty()
    };
    if entries.len() == 1 {
        assert(entries.drop_last() =~= Seq::empty());
        assert(entries.skip(1) =~= Seq::empty());
        assert(passed_over_in(Seq::<Entry>::empty(), line) =~= Seq::empty());
        assert(passed_over_in(entries, line) =~= first + Seq::empty());
    } else {
        let rest = entries.skip(1);
        lemma_passed_over_first(entries.drop_last(), line);
        assert(entries.drop_last().skip(1) =~= rest.drop_last());
        assert(entries.drop_last()[0] == entries[0]);
        assert(rest.last() == entries.last());
        assert(passed_over_in(entries, line) =~= first + passed_over_in(rest, line));
    }
}

proof fn lemma_unsupported_entries(entries: Seq<Entry>, b: Seq<Entry>, line: Seq<char>)
    requires
        are_entries(entries),
        word_values(entry_words(entries)) is Ok,
    ensures
        unsupported_in_words(entry_words(entries + b), line) == passed_over_in(entries, line)
            + unsupported_in_words(entry_words(b), line),
    decreases entries.len(),
{
    if entries.len() == 0 {
        assert(entries + b =~= b);
        assert(passed_over_in(entries, line) + unsupported_in_words(entry_words(b), line)
            =~= unsupported_in_words(entry_words(b), line));
    } else {
        let rest = entries.skip(1);
        lemma_entries_rest(entries);
        lemma_key_words();
        assert(entry_words(entries).skip(2) =~= entry_words(rest));
        assert((entries + b).skip(1) =~= rest + b);
        assert((entries + b)[0] == entries[0]);
        assert(entry_words(entries + b).skip(2) =~= entry_words(rest + b));
        lemma_unsupported_entries(rest, b, line);
        lemma_passed_over_first(entries, line);
        assert(unsupported_in_words(entry_words(entries + b), line) =~= passed_over_in(
            entries,
            line,
        ) + unsupported_in_words(entry_words(b), line));
    }
}

/// Of a line that can be read, exactly the keys without a meaning are listed, in order, with the
/// line.
pub proof fn law_keys_without_meaning_are_listed(name: Seq<char>, entries: Seq<Entry>)
    requires
        is_stat_name(name),
        are_entries(entries),
        line_row(entry_line(name, entries)) is Ok,
    ensures
        unsupported_in_line(entry_line(name, entries)) == passed_over_in(
            entries,
            entry_line(name, entries),
        ),
{
    let line = entry_line(name, entries);
    let none = Seq::<Entry>::empty();
    lemma_entry_line(name, entries);
    lemma_unsupported_entries(entries, none, line);
    assert(entries + none =~= entries);
    assert(unsupported_in_words(entry_words(none), line) =~= Seq::empty());
    assert(passed_over_in(entries, line) + Seq::empty() =~= passed_over_in(entries, line));
}

/// Of a line with an entry that cannot be read, the keys without a meaning before that entry are
/// listed, and no others.
pub proof fn law_keys_are_listed_up_to_the_error(
    name: Seq<char>,
    a: Seq<Entry>,
    entry: Entry,
    b: Seq<Entry>,
)
    requires
        is_stat_name(name),
        are_entries(a),
        is_entry(entry),
        are_entries(b),
        line_row(entry_line(name, a)) is Ok,
        line_row(entry_line(name, seq![entry])) is Err,
    ensures
        unsupported_in_line(entry_line(name, a + (seq![entry] + b))) == passed_over_in(
            a,
            entry_line(name, a + (seq![entry] + b)),
        ),
{
    let one = seq![entry];
    let more = one + b;
    let line = entry_line(name, a + more);
    assert(are_entries(one));
    lemma_are_entries_append(one, b);
    lemma_are_entries_append(a, more);
    lemma_entry_line(name, a);
    lemma_entry_line(name, one);
    lemma_entry_line(name, a + more);
    lemma_unsupported_entries(a, more, line);
    assert(one.skip(1) =~= Seq::empty());
    assert(entry_words(Seq::<Entry>::empty()) =~= Seq::empty());
    assert(entry_words(one) =~= seq![entry.0, entry.1]);
    assert(entry_words(one).skip(2) =~= Seq::empty());
    assert(word_values(Seq::empty()) == Ok::<Seq<StatView>, StatsParseError>(Seq::empty()));
    assert(entry_value(entry.0, entry.1) is Err);
    assert(more[0] == entry);
    assert(entry_words(more)[0] == entry.0 && entry_words(more)[1] == entry.1);
    assert(unsupported_in_words(entry_words(more), line) =~= Seq::empty());
    assert(passed_over_in(a, line) + Seq::empty() =~= passed_over_in(a, line));
}

/// A text of one line gives the statistic of that line, or its error, and lists its keys without
/// a meaning; a line without a space gives neither.
pub proof fn law_text_of_one_line(line: Seq<char>)
    requires
        line.len() > 0,
        forall|i: int| 0 <= i < line.len() ==> line[i] != '\n',
    ensures
        statistics_of(line) == match line_row(line) {
            Ok(Some(row)) => (seq![row], None::<StatsParseError>),
            Ok(None) => (Seq::empty(), None),
            Err(e) => (Seq::empty(), Some(e)),
        },
        unsupported_of(line) == unsupported_in_line(line),
        line_row(line) == Ok::<Option<StatRow>, StatsParseError>(None) <==> forall|i: int|
            0 <= i < line.len() ==> line[i] != ' ',
{
    law_lines_end_with_line_feeds(line, Seq::empty());
    let one = seq![line];
    assert(one.skip(1) =~= Seq::empty());
    assert(rows_of(Seq::empty()) == (Seq::<StatRow>::empty(), None::<StatsParseError>));
    assert(unsupported_in_lines(Seq::empty()) =~= Seq::empty());
    assert(unsupported_in_line(line) + Seq::empty() =~= unsupported_in_line(line));
    match line_row(line) {
        Ok(row) => {
            assert(as_list(row) + Seq::<StatRow>::empty() =~= as_list(row));
        },
        Err(e) => {},
    }
    lemma_first_match(line, seq![' ']);
    if forall|i: int| 0 <= i < line.len() ==> line[i] != ' ' {
        lemma_no_match_without_first(line, seq![' ']);
    } else {
        let i = choose|i: int| 0 <= i < line.len() && line[i] == ' ';
        assert(line.subrange(i, i + 1) =~= seq![' ']);
        assert(matches_at(line, seq![' '], i));
    }
}

proof fn lemma_unsupported_of_chunks(x: Seq<Seq<char>>, y: Seq<Seq<char>>)
    ensures
        unsupported_in_lines(x + y) == match rows_of(x).1 {
            Some(_) => unsupported_in_lines(x),
            None => unsupported_in_lines(x) + unsupported_in_lines(y),
        },
    decreases x.len(),
{
    if x.len() == 0 {
        assert(x + y =~= y);
        assert(unsupported_in_lines(x) + unsupported_in_lines(y) =~= unsupported_in_lines(y));
    } else {
        lemma_unsupported_of_chunks(x.skip(1), y);
        assert((x + y)[0] == x[0]);
        assert((x + y).skip(1) =~= x.skip(1) + y);
        let first = unsupported_in_line(x[0]);
        assert(first + (unsupported_in_lines(x.skip(1)) + unsupported_in_lines(y)) =~= (first
            + unsupported_in_lines(x.skip(1))) + unsupported_in_lines(y));
    }
}

/// Keys without a meaning are listed chunk by chunk, up to the first error: what a text of whole
/// lines lists, then what the rest lists, where the first could be read.
pub proof fn law_unsupported_keys_of_chunks(a: Seq<char>, b: Seq<char>)
    requires
        a.len() == 0 || a.last() == '\n',
    ensures
        unsupported_of(a + b) == match statistics_of(a).1 {
            Some(_) => unsupported_of(a),
            None => unsupported_of(a) + unsupported_of(b),
        },
{
    lemma_lines_of_chunks(a, b);
    lemma_unsupported_of_chunks(lines_of(a), lines_of(b));
}

} // verus!
