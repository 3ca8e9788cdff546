//! Characters and pieces of text: searching, splitting, lines.
//!
//! Text is modelled as `Seq<char>`; executable functions work on slices of characters, so that
//! the pieces of a text are slices of it.
use vstd::prelude::*;
use vstd::slice::slice_subrange;

verus! {

/// `String::push` of the standard library appends the given character to the end of the string.
pub assume_specification[ String::push ](s: &mut String, c: char)
    ensures
        final(s)@ == old(s)@.push(c),
;

/// `sep` occurs in `s` at position `i`.
pub open spec fn matches_at(s: Seq<char>, sep: Seq<char>, i: int) -> bool {
    &&& 0 <= i
    &&& i + sep.len() <= s.len()
    &&& s.subrange(i, i + sep.len()) == sep
}

/// The first position at which `sep` occurs in `s`.
pub open spec fn first_match(s: Seq<char>, sep: Seq<char>) -> Option<int>
    decreases s.len(),
{
    if matches_at(s, sep, 0) {
        Some(0)
    } else if s.len() == 0 {
        None
    } else {
        match first_match(s.skip(1), sep) {
            Some(i) => Some(i + 1),
            None => None,
        }
    }
}

/// What `first_match` finds: an occurrence with none before it, or the absence of any.
pub proof fn lemma_first_match(s: Seq<char>, sep: Seq<char>)
    ensures
        match first_match(s, sep) {
            Some(i) => matches_at(s, sep, i) && forall|j: int| 0 <= j < i ==> !matches_at(s, sep, j),
            None => forall|j: int| !matches_at(s, sep, j),
        },
    decreases s.len(),
{
    if !matches_at(s, sep, 0) && s.len() > 0 {
        let t = s.skip(1);
        lemma_first_match(t, sep);
        assert forall|j: int| #[trigger] matches_at(s, sep, j) implies matches_at(t, sep, j - 1) by {
            assert(t.subrange(j - 1, j - 1 + sep.len()) =~= s.subrange(j, j + sep.len()));
        }
        match first_match(t, sep) {
            Some(i) => {
                assert(s.subrange(i + 1, i + 1 + sep.len()) =~= t.subrange(i, i + sep.len()));
            },
            None => {},
        }
    }
}

/// An occurrence with none before it is the one that `first_match` finds.
pub proof fn lemma_first_match_at(s: Seq<char>, sep: Seq<char>, i: int)
    requires
        matches_at(s, sep, i),
        forall|j: int| 0 <= j < i ==> !matches_at(s, sep, j),
    ensures
        first_match(s, sep) == Some(i),
{
    lemma_first_match(s, sep);
}

/// The pieces of `s` between the occurrences of `sep`, taken from the left without overlap.
/// A text in which `sep` does not occur is its only piece.
pub open spec fn pieces(s: Seq<char>, sep: Seq<char>) -> Seq<Seq<char>>
    decreases s.len(),
{
    match first_match(s, sep) {
        Some(i) if 0 < sep.len() && 0 <= i <= s.len() - sep.len() => seq![s.take(i)] + pieces(
            s.skip(i + sep.len()),
            sep,
        ),
        _ => seq![s],
    }
}

/// The lines of `s`. A line ends with a line feed, or with a carriage return and a line feed;
/// the last one need not. The line ending is not part of the line.
pub open spec fn lines_of(s: Seq<char>) -> Seq<Seq<char>>
    decreases s.len(),
{
    if s.len() == 0 {
        Seq::empty()
    } else {
        match first_match(s, seq!['\n']) {
            Some(i) if 0 <= i < s.len() => seq![without_trailing_return(s.take(i))] + lines_of(
                s.skip(i + 1),
            ),
            _ => seq![s],
        }
    }
}

/// `s` without the carriage return at its end, if it has one.
pub open spec fn without_trailing_return(s: Seq<char>) -> Seq<char> {
    if s.len() > 0 && s.last() == '\r' {
        s.drop_last()
    } else {
        s
    }
}

/// All pieces of all of `parts`, in order.
pub open spec fn pieces_of_each(parts: Seq<Seq<char>>, sep: Seq<char>) -> Seq<Seq<char>>
    decreases parts.len(),
{
    if parts.len() == 0 {
        Seq::empty()
    } else {
        pieces(parts[0], sep) + pieces_of_each(parts.skip(1), sep)
    }
}

/// The texts that the slices of `parts` hold.
pub open spec fn texts(parts: Seq<&[char]>) -> Seq<Seq<char>> {
    parts.map_values(|p: &[char]| p@)
}

/// The characters of `s`.
pub fn chars_of(s: &str) -> (r: Vec<char>)
    ensures
        r@ == s@,
{
    let mut out: Vec<char> = Vec::new();
    for c in it: s.chars()
        invariant
            out@ == it.seq().take(it.index() as int),
            it.seq() == s@,
    {
        out.push(c);
    }
    out
}

/// The string of the characters `cs`.
pub fn string_of(cs: &[char]) -> (r: String)
    ensures
        r@ == cs@,
{
    let mut out = String::new();
    let mut i: usize = 0;
    while i < cs.len()
        invariant
            i <= cs.len(),
            out@ == cs@.take(i as int),
        decreases cs.len() - i,
    {
        out.push(cs[i]);
        i += 1;
        assert(cs@.take(i as int) =~= cs@.take(i - 1).push(cs@[i - 1]));
    }
    assert(cs@.take(i as int) =~= cs@);
    out
}

/// Whether two texts are equal.
pub fn same_text(a: &[char], b: &[char]) -> (r: bool)
    ensures
        r == (a@ == b@),
{
    if a.len() != b.len() {
        return false;
    }
    let mut i: usize = 0;
    while i < a.len()
        invariant
            a.len() == b.len(),
            i <= a.len(),
            forall|j: int| 0 <= j < i ==> a@[j] == b@[j],
        decreases a.len() - i,
    {
        if a[i] != b[i] {
            return false;
        }
        i += 1;
    }
    assert(a@ =~= b@);
    true
}

/// Whether the characters `s` are those of `t`.
pub fn is_text(s: &[char], t: &str) -> (r: bool)
    ensures
        r == (s@ == t@),
{
    let mut i: usize = 0;
    for c in it: t.chars()
        invariant
            it.seq() == t@,
            i == it.index(),
            i <= s.len(),
            s@.take(i as int) == t@.take(i as int),
    {
        if i >= s.len() || s[i] != c {
            assert(i < s.len() ==> s@[i as int] != t@[i as int]);
            return false;
        }
        i += 1;
        assert(s@.take(i as int) =~= s@.take(i - 1).push(c));
        assert(t@.take(i as int) =~= t@.take(i - 1).push(c));
    }
    assert(t@.take(i as int) =~= t@);
    if i == s.len() {
        assert(s@.take(i as int) =~= s@);
    }
    i == s.len()
}

/// Finds the first occurrence of `sep` in `s`.
pub fn find(s: &[char], sep: &[char]) -> (r: Option<usize>)
    ensures
        match r {
            Some(i) => first_match(s@, sep@) == Some(i as int) && i + sep@.len() <= s@.len(),
            None => first_match(s@, sep@) is None,
        },
{
    proof {
        lemma_first_match(s@, sep@);
    }
    if sep.len() > s.len() {
        return None;
    }
    let last: usize = s.len() - sep.len();
    let mut i: usize = 0;
    loop
        invariant
            last + sep.len() == s.len(),
            i <= last,
            forall|j: int| 0 <= j < i ==> !matches_at(s@, sep@, j),
            match first_match(s@, sep@) {
                Some(i) => matches_at(s@, sep@, i),
                None => true,
            },
        decreases last - i,
    {
        if same_text(slice_subrange(s, i, i + sep.len()), sep) {
            proof {
                lemma_first_match_at(s@, sep@, i as int);
            }
            return Some(i);
        }
        if i == last {
            return None;
        }
        i += 1;
    }
}

/// Splits `s` at the occurrences of `sep`.
pub fn split<'a>(s: &'a [char], sep: &[char]) -> (r: Vec<&'a [char]>)
    requires
        sep@.len() > 0,
    ensures
        texts(r@) == pieces(s@, sep@),
{
    let mut out: Vec<&'a [char]> = Vec::new();
    let mut rest: &'a [char] = s;
    loop
        invariant
            sep@.len() > 0,
            pieces(s@, sep@) == texts(out@) + pieces(rest@, sep@),
        decreases rest@.len(),
    {
        let ghost before = texts(out@);
        let end: usize = rest.len();
        match find(rest, sep) {
            Some(i) => {
                let piece = slice_subrange(rest, 0, i);
                let after = slice_subrange(rest, i + sep.len(), end);
                out.push(piece);
                proof {
                    assert(piece@ =~= rest@.take(i as int));
                    assert(after@ =~= rest@.skip(i + sep@.len()));
                    assert(texts(out@) =~= before.push(piece@));
                    assert(before + (seq![piece@] + pieces(after@, sep@)) =~= texts(out@) + pieces(
                        after@,
                        sep@,
                    ));
                }
                rest = after;
            },
            None => {
                out.push(rest);
                assert(texts(out@) =~= before + seq![rest@]);
                return out;
            },
        }
    }
}

/// Splits each of `parts` at the occurrences of `sep` and lists the pieces of all.
pub fn split_each<'a>(parts: &Vec<&'a [char]>, sep: &[char]) -> (r: Vec<&'a [char]>)
    requires
        sep@.len() > 0,
    ensures
        texts(r@) == pieces_of_each(texts(parts@), sep@),
{
    let mut out: Vec<&'a [char]> = Vec::new();
    let mut i: usize = 0;
    let ghost all = texts(parts@);
    assert(all.skip(0) =~= all);
    while i < parts.len()
        invariant
            i <= parts.len(),
            sep@.len() > 0,
            all == texts(parts@),
            pieces_of_each(all, sep@) == texts(out@) + pieces_of_each(all.skip(i as int), sep@),
        decreases parts.len() - i,
    {
        let mut found = split(parts[i], sep);
        let ghost before = texts(out@);
        let ghost new = texts(found@);
        out.append(&mut found);
        i += 1;
        proof {
            assert(texts(out@) =~= before + new);
            assert(all.skip(i - 1)[0] == parts@[i - 1]@);
            assert(all.skip(i - 1).skip(1) =~= all.skip(i as int));
            assert(before + (new + pieces_of_each(all.skip(i as int), sep@)) =~= texts(out@)
                + pieces_of_each(all.skip(i as int), sep@));
        }
    }
    assert(texts(out@) + pieces_of_each(all.skip(i as int), sep@) =~= texts(out@));
    out
}

/// Splits `s` into its lines.
pub fn lines<'a>(s: &'a [char]) -> (r: Vec<&'a [char]>)
    ensures
        texts(r@) == lines_of(s@),
{
    let mut out: Vec<&'a [char]> = Vec::new();
    let mut rest: &'a [char] = s;
    assert(texts(out@) =~= Seq::empty());
    while rest.len() > 0
        invariant
            lines_of(s@) == texts(out@) + lines_of(rest@),
        decreases rest@.len(),
    {
        let ghost before = texts(out@);
        let newline: [char; 1] = ['\n'];
        assert(newline@ =~= seq!['\n']);
        match find(rest, &newline) {
            Some(i) => {
                let end: usize = if i > 0 && rest[i - 1] == '\r' { i - 1 } else { i };
                let line = slice_subrange(rest, 0, end);
                let after = slice_subrange(rest, i + 1, rest.len());
                out.push(line);
                proof {
                    assert(line@ =~= without_trailing_return(rest@.take(i as int)));
                    assert(after@ =~= rest@.skip(i + 1));
                    assert(texts(out@) =~= before.push(line@));
                    assert(before + (seq![line@] + lines_of(after@)) =~= texts(out@) + lines_of(
                        after@,
                    ));
                }
                rest = after;
            },
            None => {
                out.push(rest);
                assert(texts(out@) =~= before + seq![rest@]);
                return out;
            },
        }
    }
    assert(texts(out@) + lines_of(rest@) =~= texts(out@));
    out
}

/// `parts` with `sep` between them.
pub open spec fn joined(parts: Seq<Seq<char>>, sep: Seq<char>) -> Seq<char>
    decreases parts.len(),
{
    if parts.len() == 0 {
        Seq::empty()
    } else if parts.len() == 1 {
        parts[0]
    } else {
        parts[0] + sep + joined(parts.skip(1), sep)
    }
}

/// The pieces of a text, joined by the separator, are the text again, and the separator occurs in
/// none of them.
pub proof fn law_pieces_join_to_the_text(s: Seq<char>, sep: Seq<char>)
    requires
        sep.len() > 0,
    ensures
        pieces(s, sep).len() > 0,
        joined(pieces(s, sep), sep) == s,
        forall|k: int, i: int|
            0 <= k < pieces(s, sep).len() && 0 <= i && i + sep.len() <= (#[trigger] pieces(
                s,
                sep,
            )[k]).len() ==> #[trigger] pieces(s, sep)[k].subrange(i, i + sep.len()) != sep,
    decreases s.len(),
{
    lemma_first_match(s, sep);
    let all = pieces(s, sep);
    match first_match(s, sep) {
        Some(n) => {
            let rest = s.skip(n + sep.len());
            law_pieces_join_to_the_text(rest, sep);
            let (first, more) = (s.take(n), pieces(rest, sep));
            assert(all == seq![first] + more);
            assert(all.skip(1) =~= more);
            assert(s =~= first + s.subrange(n, n + sep.len()) + rest);
            assert(joined(all, sep) == first + sep + joined(more, sep));
            assert forall|k: int, i: int|
                0 <= k < all.len() && 0 <= i && i + sep.len() <= (
                #[trigger] all[k]).len() implies #[trigger] all[k].subrange(i, i + sep.len())
                != sep by {
                if k == 0 {
                    assert(first.subrange(i, i + sep.len()) =~= s.subrange(i, i + sep.len()));
                    assert(!matches_at(s, sep, i));
                } else {
                    assert(all[k] == more[k - 1]);
                }
            }
        },
        None => {
            assert(all =~= seq![s]);
            assert forall|k: int, i: int|
                0 <= k < all.len() && 0 <= i && i + sep.len() <= (
                #[trigger] all[k]).len() implies #[trigger] all[k].subrange(i, i + sep.len())
                != sep by {
                assert(!matches_at(s, sep, i));
            }
        },
    }
}

/// The pieces of each of several texts are those of the first, then those of the others.
pub proof fn law_pieces_of_several_texts(a: Seq<Seq<char>>, b: Seq<Seq<char>>, sep: Seq<char>)
    ensures
        pieces_of_each(a + b, sep) == pieces_of_each(a, sep) + pieces_of_each(b, sep),
        a.len() == 1 ==> pieces_of_each(a, sep) == pieces(a[0], sep),
    decreases a.len(),
{
    if a.len() == 0 {
        assert(a + b =~= b);
        assert(pieces_of_each(a, sep) + pieces_of_each(b, sep) =~= pieces_of_each(b, sep));
    } else {
        law_pieces_of_several_texts(a.skip(1), b, sep);
        assert((a + b)[0] == a[0]);
        assert((a + b).skip(1) =~= a.skip(1) + b);
        assert(pieces_of_each(a + b, sep) =~= pieces_of_each(a, sep) + pieces_of_each(b, sep));
        if a.len() == 1 {
            assert(pieces_of_each(a, sep) =~= pieces(a[0], sep));
        }
    }
}

/// A text up to a line feed is its first line, without a carriage return at its end; a text
/// without a line feed is its only line, with all that it holds; an empty text has no line.
pub proof fn law_lines_end_with_line_feeds(a: Seq<char>, b: Seq<char>)
    requires
        forall|i: int| 0 <= i < a.len() ==> a[i] != '\n',
    ensures
        a.len() > 0 ==> lines_of(a) == seq![a],
        lines_of(Seq::empty()).len() == 0,
        lines_of(a + seq!['\n'] + b) == seq![
            if a.len() > 0 && a.last() == '\r' {
                a.drop_last()
            } else {
                a
            },
        ] + lines_of(b),
{
    let feed = seq!['\n'];
    let s = a + feed + b;
    let end = a.len() as int;
    assert(s.subrange(end, end + 1) =~= feed);
    assert forall|j: int| 0 <= j < end implies !matches_at(s, feed, j) by {
        if matches_at(s, feed, j) {
            assert(s.subrange(j, j + 1)[0] == s[j]);
            assert(s[j] == a[j]);
        }
    }
    lemma_first_match_at(s, feed, end);
    assert(s.take(end) =~= a);
    assert(s.skip(end + 1) =~= b);
    lemma_first_match(a, feed);
    assert forall|j: int| !matches_at(a, feed, j) by {
        if matches_at(a, feed, j) {
            assert(a.subrange(j, j + 1)[0] == a[j]);
        }
    }
}

} // verus!
