//! Statistics of the store, and how the database writes its own.
use vstd::prelude::*;
use vstd::slice::slice_subrange;

use crate::column::DBCol;
use crate::number::{
    check_float, float_fault, i64_fault, i64_value, is_float, parse_i64, parse_u32, u32_fault,
    u32_value, FloatFault, IntegerFault,
};
use crate::text::{
    chars_of, find, first_match, is_text, lines, lines_of, pieces, pieces_of_each, split,
    split_each, string_of, texts,
};

verus! {

/// One value of a statistic.
#[derive(Debug, PartialEq, Eq)]
pub enum StatsValue {
    Count(i64),
    Sum(i64),
    /// A percentile, as a whole number, and its value, as the text of a floating-point number.
    Percentile(u32, String),
    ColumnValue(DBCol, i64),
    BucketBlockCount(DBCol, String, i64),
}

/// Named statistics, in the order in which they were collected.
#[derive(Debug, PartialEq, Eq)]
pub struct StoreStatistics {
    pub data: Vec<(String, Vec<StatsValue>)>,
}

/// What a [`StatsValue`] holds.
pub enum StatView {
    Count(i64),
    Sum(i64),
    Percentile(u32, Seq<char>),
    ColumnValue(DBCol, i64),
    BucketBlockCount(DBCol, Seq<char>, i64),
}

/// A statistic: its name and its values.
pub type StatRow = (Seq<char>, Seq<StatView>);

impl View for StatsValue {
    type V = StatView;

    open spec fn view(&self) -> StatView {
        match *self {
            StatsValue::Count(v) => StatView::Count(v),
            StatsValue::Sum(v) => StatView::Sum(v),
            StatsValue::Percentile(p, text) => StatView::Percentile(p, text@),
            StatsValue::ColumnValue(col, v) => StatView::ColumnValue(col, v),
            StatsValue::BucketBlockCount(col, bucket, v) => StatView::BucketBlockCount(
                col,
                bucket@,
                v,
            ),
        }
    }
}

/// What a list of values holds.
pub open spec fn values_view(values: Seq<StatsValue>) -> Seq<StatView> {
    values.map_values(|v: StatsValue| v@)
}

/// What a named list of values holds.
pub open spec fn row_view(row: (String, Vec<StatsValue>)) -> StatRow {
    (row.0@, values_view(row.1@))
}

impl View for StoreStatistics {
    type V = Seq<StatRow>;

    open spec fn view(&self) -> Seq<StatRow> {
        self.data@.map_values(|row: (String, Vec<StatsValue>)| row_view(row))
    }
}

/// Why a statistic could not be read.
#[derive(Clone, Copy, Debug, PartialEq, Eq, Structural)]
pub enum StatsParseError {
    /// A word that has to be an integer is none, or is out of range.
    Integer(IntegerFault),
    /// A word that has to be a floating-point number is none.
    Float(FloatFault),
}

/// The words of `s`: it is split at colons that stand between two spaces, then at spaces.
pub open spec fn words_of(s: Seq<char>) -> Seq<Seq<char>> {
    pieces_of_each(pieces(s, seq![' ', ':', ' ']), seq![' '])
}

/// The value that the words `key` and `val` give. A key that means nothing gives none.
pub open spec fn entry_value(key: Seq<char>, val: Seq<char>) -> Result<
    Option<StatView>,
    StatsParseError,
> {
    if key == "COUNT"@ {
        match i64_value(val) {
            Some(v) => Ok(Some(StatView::Count(v))),
            None => Err(StatsParseError::Integer(i64_fault(val))),
        }
    } else if key == "SUM"@ {
        match i64_value(val) {
            Some(v) => Ok(Some(StatView::Sum(v))),
            None => Err(StatsParseError::Integer(i64_fault(val))),
        }
    } else if key.len() > 0 && key[0] == 'P' {
        match u32_value(key.skip(1)) {
            Some(p) => if is_float(val) {
                Ok(Some(StatView::Percentile(p, val)))
            } else {
                Err(StatsParseError::Float(float_fault(val)))
            },
            None => Err(StatsParseError::Integer(u32_fault(key.skip(1)))),
        }
    } else {
        Ok(None)
    }
}

/// `x` as a list of at most one item.
pub open spec fn as_list<T>(x: Option<T>) -> Seq<T> {
    match x {
        Some(v) => seq![v],
        None => Seq::empty(),
    }
}

/// `list`, then what `rest` gives.
pub open spec fn then_values(
    list: Seq<StatView>,
    rest: Result<Seq<StatView>, StatsParseError>,
) -> Result<Seq<StatView>, StatsParseError> {
    match rest {
        Ok(more) => Ok(list + more),
        Err(e) => Err(e),
    }
}

/// The values that `words` give, taken as pairs of a key and a value. The first pair that
/// cannot be read gives the error. A last word without a partner gives nothing.
pub open spec fn word_values(words: Seq<Seq<char>>) -> Result<Seq<StatView>, StatsParseError>
    decreases words.len(),
{
    if words.len() < 2 {
        Ok(Seq::empty())
    } else {
        match entry_value(words[0], words[1]) {
            Ok(value) => then_values(as_list(value), word_values(words.skip(2))),
            Err(e) => Err(e),
        }
    }
}

/// The statistic that `line` gives: the name up to the first space, the values after it.
/// A line without a space gives none.
pub open spec fn line_row(line: Seq<char>) -> Result<Option<StatRow>, StatsParseError> {
    match first_match(line, seq![' ']) {
        Some(i) => match word_values(words_of(line.skip(i + 1))) {
            Ok(values) => Ok(Some((line.take(i), values))),
            Err(e) => Err(e),
        },
        None => Ok(None),
    }
}

/// The statistics that `lines` give, up to the first line that cannot be read, and the error
/// of that line.
pub open spec fn rows_of(lines: Seq<Seq<char>>) -> (Seq<StatRow>, Option<StatsParseError>)
    decreases lines.len(),
{
    if lines.len() == 0 {
        (Seq::empty(), None)
    } else {
        match line_row(lines[0]) {
            Ok(row) => {
                let rest = rows_of(lines.skip(1));
                (as_list(row) + rest.0, rest.1)
            },
            Err(e) => (Seq::empty(), Some(e)),
        }
    }
}

/// The statistics that a text gives, and the error at which reading it stops.
pub open spec fn statistics_of(text: Seq<char>) -> (Seq<StatRow>, Option<StatsParseError>) {
    rows_of(lines_of(text))
}

/// A key that means nothing, and the line that it stands in.
#[derive(Debug, PartialEq, Eq)]
pub struct UnsupportedKey {
    pub key: String,
    pub line: String,
}

impl View for UnsupportedKey {
    type V = (Seq<char>, Seq<char>);

    open spec fn view(&self) -> (Seq<char>, Seq<char>) {
        (self.key@, self.line@)
    }
}

/// What a list of unsupported keys holds.
pub open spec fn unsupported_view(keys: Seq<UnsupportedKey>) -> Seq<(Seq<char>, Seq<char>)> {
    keys.map_values(|k: UnsupportedKey| k@)
}

/// The keys among `words`, which stand in `line`, that mean nothing. Words are read up to the
/// first pair that cannot be read.
pub open spec fn unsupported_in_words(words: Seq<Seq<char>>, line: Seq<char>) -> Seq<
    (Seq<char>, Seq<char>),
>
    decreases words.len(),
{
    if words.len() < 2 {
        Seq::empty()
    } else {
        match entry_value(words[0], words[1]) {
            Ok(Some(_)) => unsupported_in_words(words.skip(2), line),
            Ok(None) => seq![(words[0], line)] + unsupported_in_words(words.skip(2), line),
            Err(_) => Seq::empty(),
        }
    }
}

/// The keys in `line` that mean nothing.
pub open spec fn unsupported_in_line(line: Seq<char>) -> Seq<(Seq<char>, Seq<char>)> {
    match first_match(line, seq![' ']) {
        Some(i) => unsupported_in_words(words_of(line.skip(i + 1)), line),
        None => Seq::empty(),
    }
}

/// The keys in `lines` that mean nothing. Lines are read up to the first that cannot be read,
/// and that one as far as it can be.
pub open spec fn unsupported_in_lines(lines: Seq<Seq<char>>) -> Seq<(Seq<char>, Seq<char>)>
    decreases lines.len(),
{
    if lines.len() == 0 {
        Seq::empty()
    } else if line_row(lines[0]) is Err {
        unsupported_in_line(lines[0])
    } else {
        unsupported_in_line(lines[0]) + unsupported_in_lines(lines.skip(1))
    }
}

/// The keys in a text that mean nothing, as far as the text can be read.
pub open spec fn unsupported_of(text: Seq<char>) -> Seq<(Seq<char>, Seq<char>)> {
    unsupported_in_lines(lines_of(text))
}

fn parse_entry(key: &[char], val: &[char]) -> (r: Result<Option<StatsValue>, StatsParseError>)
    ensures
        match (r, entry_value(key@, val@)) {
            (Ok(Some(v)), Ok(Some(w))) => v@ == w,
            (Ok(None), Ok(None)) => true,
            (Err(e), Err(f)) => e == f,
            _ => false,
        },
{
    if is_text(key, "COUNT") {
        match parse_i64(val) {
            Ok(v) => Ok(Some(StatsValue::Count(v))),
            Err(f) => Err(StatsParseError::Integer(f)),
        }
    } else if is_text(key, "SUM") {
        match parse_i64(val) {
            Ok(v) => Ok(Some(StatsValue::Sum(v))),
            Err(f) => Err(StatsParseError::Integer(f)),
        }
    } else if key.len() > 0 && key[0] == 'P' {
        let percentile = slice_subrange(key, 1, key.len());
        assert(percentile@ =~= key@.skip(1));
        match parse_u32(percentile) {
            Ok(p) => match check_float(val) {
                Ok(()) => Ok(Some(StatsValue::Percentile(p, string_of(val)))),
                Err(f) => Err(StatsParseError::Float(f)),
            },
            Err(f) => Err(StatsParseError::Integer(f)),
        }
    } else {
        Ok(None)
    }
}

fn parse_words(words: &Vec<&[char]>) -> (r: Result<Vec<StatsValue>, StatsParseError>)
    ensures
        match (r, word_values(texts(words@))) {
            (Ok(v), Ok(w)) => values_view(v@) == w,
            (Err(e), Err(f)) => e == f,
            _ => false,
        },
{
    let mut values: Vec<StatsValue> = Vec::new();
    let mut i: usize = 0;
    let ghost all = texts(words@);
    assert(all.skip(0) =~= all);
    assert(values_view(values@) =~= Seq::empty());
    assert(word_values(all) == then_values(values_view(values@), word_values(all))) by {
        match word_values(all) {
            Ok(w) => {
                assert(Seq::<StatView>::empty() + w =~= w);
            },
            Err(e) => {},
        }
    }
    while i < words.len() && words.len() - i >= 2
        invariant
            i <= words.len(),
            all == texts(words@),
            word_values(all) == then_values(values_view(values@), word_values(all.skip(i as int))),
        decreases words.len() - i,
    {
        let ghost before = values_view(values@);
        let ghost rest = all.skip(i as int);
        let ghost more = word_values(rest.skip(2));
        assert(rest[0] == words@[i as int]@ && rest[1] == words@[i + 1]@);
        match parse_entry(words[i], words[i + 1]) {
            Ok(Some(value)) => {
                values.push(value);
                assert(values_view(values@) =~= before + seq![value@]);
                assert(more matches Ok(m) ==> (before + seq![value@]) + m =~= before + (
                seq![value@] + m));
            },
            Ok(None) => {
                assert(more matches Ok(m) ==> Seq::<StatView>::empty() + m =~= m);
            },
            Err(e) => {
                return Err(e);
            },
        }
        i += 2;
        assert(rest.skip(2) =~= all.skip(i as int));
    }
    assert(values_view(values@) + Seq::<StatView>::empty() =~= values_view(values@));
    Ok(values)
}

fn parse_line(line: &[char]) -> (r: Result<Option<(String, Vec<StatsValue>)>, StatsParseError>)
    ensures
        match (r, line_row(line@)) {
            (Ok(Some(row)), Ok(Some(expected))) => row_view(row) == expected,
            (Ok(None), Ok(None)) => true,
            (Err(e), Err(f)) => e == f,
            _ => false,
        },
{
    let space: [char; 1] = [' '];
    let colon: [char; 3] = [' ', ':', ' '];
    assert(space@ =~= seq![' ']);
    assert(colon@ =~= seq![' ', ':', ' ']);
    let end: usize = line.len();
    match find(line, &space) {
        Some(i) => {
            let stat_name = slice_subrange(line, 0, i);
            let rest = slice_subrange(line, i + 1, end);
            assert(stat_name@ =~= line@.take(i as int));
            assert(rest@ =~= line@.skip(i + 1));
            let words = split_each(&split(rest, &colon), &space);
            match parse_words(&words) {
                Ok(values) => Ok(Some((string_of(stat_name), values))),
                Err(e) => Err(e),
            }
        },
        None => Ok(None),
    }
}

/// Parses a string containing RocksDB statistics.
/// Results are added into provided `result` parameter.
///
/// Statistics are given one per line, in one of two formats:
/// 1) `<stat_name> COUNT : <value>`
/// 2) `<stat_name> P50 : <value> P90 : <value> COUNT : <value> SUM : <value>`
///
/// The statistics of the lines before one that cannot be read are added even so.
pub fn parse_statistics(statistics: &str, result: &mut StoreStatistics) -> (r: Result<
    (),
    StatsParseError,
>)
    ensures
        final(result)@ == old(result)@ + statistics_of(statistics@).0,
        match r {
            Ok(()) => statistics_of(statistics@).1 is None,
            Err(e) => statistics_of(statistics@).1 == Some(e),
        },
{
    let chars = chars_of(statistics);
    let all_lines = lines(chars.as_slice());
    let mut i: usize = 0;
    let ghost all = texts(all_lines@);
    let ghost whole = rows_of(all);
    assert(all.skip(0) =~= all);
    assert(old(result)@ + whole.0 =~= result@ + rows_of(all.skip(0)).0);
    while i < all_lines.len()
        invariant
            i <= all_lines.len(),
            all == texts(all_lines@),
            whole == rows_of(all),
            old(result)@ + whole.0 == result@ + rows_of(all.skip(i as int)).0,
            whole.1 == rows_of(all.skip(i as int)).1,
            all == lines_of(statistics@),
        decreases all_lines.len() - i,
    {
        let ghost before = result@;
        let ghost rest = all.skip(i as int);
        assert(rest[0] == all_lines@[i as int]@);
        match parse_line(all_lines[i]) {
            Ok(Some(row)) => {
                result.data.push(row);
                assert(result@ =~= before + seq![row_view(row)]);
                assert(before + (seq![row_view(row)] + rows_of(rest.skip(1)).0) =~= result@
                    + rows_of(rest.skip(1)).0);
            },
            Ok(None) => {
                assert(Seq::<StatRow>::empty() + rows_of(rest.skip(1)).0 =~= rows_of(
                    rest.skip(1),
                ).0);
            },
            Err(e) => {
                assert(before + Seq::<StatRow>::empty() =~= before);
                return Err(e);
            },
        }
        i += 1;
        assert(rest.skip(1) =~= all.skip(i as int));
    }
    assert(result@ + Seq::<StatRow>::empty() =~= result@);
    Ok(())
}

/// Adds the keys among `words` that mean nothing; whether all of the words could be read.
fn add_unsupported_words(
    words: &Vec<&[char]>,
    line: &[char],
    out: &mut Vec<UnsupportedKey>,
) -> (r: bool)
    ensures
        unsupported_view(final(out)@) == unsupported_view(old(out)@) + unsupported_in_words(
            texts(words@),
            line@,
        ),
        r == (word_values(texts(words@)) is Ok),
{
    let mut i: usize = 0;
    let ghost all = texts(words@);
    let ghost found = unsupported_view(old(out)@) + unsupported_in_words(all, line@);
    assert(all.skip(0) =~= all);
    while i < words.len() && words.len() - i >= 2
        invariant
            i <= words.len(),
            all == texts(words@),
            found == unsupported_view(old(out)@) + unsupported_in_words(all, line@),
            found == unsupported_view(out@) + unsupported_in_words(all.skip(i as int), line@),
            word_values(all) is Ok <==> word_values(all.skip(i as int)) is Ok,
        decreases words.len() - i,
    {
        let ghost before = unsupported_view(out@);
        let ghost rest = all.skip(i as int);
        assert(rest[0] == words@[i as int]@ && rest[1] == words@[i + 1]@);
        match parse_entry(words[i], words[i + 1]) {
            Ok(Some(_)) => {},
            Ok(None) => {
                let key = UnsupportedKey { key: string_of(words[i]), line: string_of(line) };
                out.push(key);
                assert(unsupported_view(out@) =~= before + seq![key@]);
                assert(before + (seq![key@] + unsupported_in_words(rest.skip(2), line@))
                    =~= unsupported_view(out@) + unsupported_in_words(rest.skip(2), line@));
            },
            Err(_) => {
                assert(found =~= before);
                return false;
            },
        }
        i += 2;
        assert(rest.skip(2) =~= all.skip(i as int));
    }
    assert(found =~= unsupported_view(out@));
    true
}

/// Adds the keys in `line` that mean nothing; whether all of the line could be read.
fn add_unsupported_in_line(line: &[char], out: &mut Vec<UnsupportedKey>) -> (r: bool)
    ensures
        unsupported_view(final(out)@) == unsupported_view(old(out)@) + unsupported_in_line(line@),
        r == (line_row(line@) is Ok),
{
    let space: [char; 1] = [' '];
    let colon: [char; 3] = [' ', ':', ' '];
    assert(space@ =~= seq![' ']);
    assert(colon@ =~= seq![' ', ':', ' ']);
    let end: usize = line.len();
    match find(line, &space) {
        Some(i) => {
            let rest = slice_subrange(line, i + 1, end);
            assert(rest@ =~= line@.skip(i + 1));
            let words = split_each(&split(rest, &colon), &space);
            add_unsupported_words(&words, line, out)
        },
        None => {
            assert(unsupported_view(out@) + Seq::empty() =~= unsupported_view(out@));
            true
        },
    }
}

/// Lists the keys in a string containing RocksDB statistics that [`parse_statistics`] passes
/// over because they mean nothing, each with its line, in order, up to the word at which
/// parsing stops.
pub fn unsupported_keys(statistics: &str) -> (r: Vec<UnsupportedKey>)
    ensures
        unsupported_view(r@) == unsupported_of(statistics@),
{
    let chars = chars_of(statistics);
    let all_lines = lines(chars.as_slice());
    let mut out: Vec<UnsupportedKey> = Vec::new();
    let mut i: usize = 0;
    let ghost all = texts(all_lines@);
    assert(all.skip(0) =~= all);
    assert(unsupported_view(out@) + unsupported_in_lines(all) =~= unsupported_in_lines(all));
    while i < all_lines.len()
        invariant
            i <= all_lines.len(),
            all == texts(all_lines@),
            all == lines_of(statistics@),
            unsupported_in_lines(all) == unsupported_view(out@) + unsupported_in_lines(
                all.skip(i as int),
            ),
        decreases all_lines.len() - i,
    {
        let ghost before = unsupported_view(out@);
        let ghost rest = all.skip(i as int);
        let ghost here = unsupported_in_line(rest[0]);
        assert(rest[0] == all_lines@[i as int]@);
        if !add_unsupported_in_line(all_lines[i], &mut out) {
            return out;
        }
        i += 1;
        proof {
            assert(rest.skip(1) =~= all.skip(i as int));
            assert(before + (here + unsupported_in_lines(rest.skip(1))) =~= (before + here)
                + unsupported_in_lines(rest.skip(1)));
        }
    }
    assert(unsupported_view(out@) + unsupported_in_lines(all.skip(i as int)) =~= unsupported_view(
        out@,
    ));
    out
}

/// Nothing of a statistic is lost in its view: names, numbers, texts and columns are those that it
/// holds, in order.
pub proof fn law_statistics_are_seen_whole(statistics: StoreStatistics, i: int, k: int)
    requires
        0 <= i < statistics.data@.len(),
        0 <= k < statistics.data@[i].1@.len(),
    ensures
        statistics@.len() == statistics.data@.len(),
        statistics@[i].0 == statistics.data@[i].0@,
        statistics@[i].1.len() == statistics.data@[i].1@.len(),
        statistics@[i].1[k] == match statistics.data@[i].1@[k] {
            StatsValue::Count(v) => StatView::Count(v),
            StatsValue::Sum(v) => StatView::Sum(v),
            StatsValue::Percentile(p, text) => StatView::Percentile(p, text@),
            StatsValue::ColumnValue(col, v) => StatView::ColumnValue(col, v),
            StatsValue::BucketBlockCount(col, bucket, v) => StatView::BucketBlockCount(
                col,
                bucket@,
                v,
            ),
        },
{
}

} // verus!
