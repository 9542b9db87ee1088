//! Splitting variable values into entries, and the selection of the entries
//! that are printed.
use vstd::prelude::*;
use vstd::string::*;
use itertools::Itertools;
use crate::pattern::{regex_matches, Pattern};

verus! {

/// The character sequences that a sequence of strings holds.
pub open spec fn views(v: Seq<String>) -> Seq<Seq<char>> {
    v.map_values(|s: String| s@)
}

/// The entries of `s` between occurrences of `sep`, in order. Every
/// occurrence of `sep` ends one entry and starts the next, so a value with
/// `k` separators has `k + 1` entries, empty ones included.
pub open spec fn split_on(s: Seq<char>, sep: char) -> Seq<Seq<char>>
    decreases s.len(),
{
    if s.len() == 0 {
        seq![Seq::empty()]
    } else {
        let prev = split_on(s.drop_last(), sep);
        if s.last() == sep {
            prev.push(Seq::empty())
        } else {
            prev.update(prev.len() - 1, prev.last().push(s.last()))
        }
    }
}

/// Every value has at least one entry.
pub proof fn lemma_split_nonempty(s: Seq<char>, sep: char)
    ensures
        split_on(s, sep).len() >= 1,
    decreases s.len(),
{
    if s.len() > 0 {
        lemma_split_nonempty(s.drop_last(), sep);
    }
}

/// Splits `value` at every occurrence of `sep`, keeping empty entries.
pub fn split_entries(value: &str, sep: char) -> (r: Vec<String>)
    ensures
        views(r@) == split_on(value@, sep),
{
    let n = value.unicode_len();
    let mut pieces: Vec<String> = Vec::new();
    let mut start: usize = 0;
    let mut i: usize = 0;
    proof {
        assert(views(pieces@) == Seq::<Seq<char>>::empty());
        assert(value@.subrange(0, 0) == Seq::<char>::empty());
        assert(views(pieces@).push(value@.subrange(0, 0)) == seq![Seq::<char>::empty()]);
    }
    while i < n
        invariant
            n == value@.len(),
            start <= i <= n,
            views(pieces@).push(value@.subrange(start as int, i as int)) == split_on(
                value@.subrange(0, i as int),
                sep,
            ),
        decreases n - i,
    {
        let c = value.get_char(i);
        let ghost prefix = value@.subrange(0, i + 1);
        proof {
            assert(prefix.drop_last() == value@.subrange(0, i as int));
            assert(prefix.last() == c);
            lemma_split_nonempty(value@.subrange(0, i as int), sep);
        }
        if c == sep {
            let piece = value.substring_char(start, i).to_owned();
            proof {
                assert(views(pieces@.push(piece)) == views(pieces@).push(piece@));
            }
            pieces.push(piece);
            start = i + 1;
            proof {
                assert(value@.subrange(start as int, i + 1) == Seq::<char>::empty());
            }
        } else {
            proof {
                assert(value@.subrange(start as int, i + 1) == value@.subrange(
                    start as int,
                    i as int,
                ).push(c));
            }
        }
        i = i + 1;
    }
    let last = value.substring_char(start, n).to_owned();
    proof {
        assert(value@.subrange(0, n as int) == value@);
        assert(views(pieces@.push(last)) == views(pieces@).push(last@));
    }
    pieces.push(last);
    pieces
}

} // verus!

verus! {

/// All entries of all values, value by value, each value's entries in order.
pub open spec fn entries_of(values: Seq<Seq<char>>, sep: char) -> Seq<Seq<char>>
    decreases values.len(),
{
    if values.len() == 0 {
        Seq::empty()
    } else {
        entries_of(values.drop_last(), sep) + split_on(values.last(), sep)
    }
}

/// The entries that `pattern` matches, in order.
pub open spec fn matching(entries: Seq<Seq<char>>, pattern: Seq<char>) -> Seq<Seq<char>>
    decreases entries.len(),
{
    if entries.len() == 0 {
        Seq::empty()
    } else {
        let kept = matching(entries.drop_last(), pattern);
        if regex_matches(pattern, entries.last()) {
            kept.push(entries.last())
        } else {
            kept
        }
    }
}

/// The entries whose flag is set, in order.
pub open spec fn flagged(entries: Seq<Seq<char>>, flags: Seq<bool>) -> Seq<Seq<char>>
    recommends
        entries.len() == flags.len(),
    decreases entries.len(),
{
    if entries.len() == 0 {
        Seq::empty()
    } else {
        let kept = flagged(entries.drop_last(), flags.drop_last());
        if flags.last() {
            kept.push(entries.last())
        } else {
            kept
        }
    }
}

/// Each distinct item once, where it first occurs, in order.
pub open spec fn first_occurrences(s: Seq<Seq<char>>) -> Seq<Seq<char>>
    decreases s.len(),
{
    if s.len() == 0 {
        Seq::empty()
    } else {
        let kept = first_occurrences(s.drop_last());
        if s.drop_last().contains(s.last()) {
            kept
        } else {
            kept.push(s.last())
        }
    }
}

/// The lines printed for `values`: their entries that `pattern` matches,
/// reduced to first occurrences when `unique` is set.
pub open spec fn output_lines(
    values: Seq<Seq<char>>,
    sep: char,
    pattern: Seq<char>,
    unique: bool,
) -> Seq<Seq<char>> {
    let selected = matching(entries_of(values, sep), pattern);
    if unique {
        first_occurrences(selected)
    } else {
        selected
    }
}

proof fn lemma_views_push(v: Seq<String>, s: String)
    ensures
        views(v.push(s)) == views(v).push(s@),
{
    assert(views(v.push(s)) == views(v).push(s@));
}

/// The entries of all `values`, value by value.
pub fn all_entries(values: &Vec<String>, sep: char) -> (r: Vec<String>)
    ensures
        views(r@) == entries_of(views(values@), sep),
{
    let mut out: Vec<String> = Vec::new();
    let mut i: usize = 0;
    while i < values.len()
        invariant
            i <= values@.len(),
            views(out@) == entries_of(views(values@.take(i as int)), sep),
        decreases values@.len() - i,
    {
        let mut pieces = split_entries(values[i].as_str(), sep);
        proof {
            assert(views(values@.take(i + 1)).drop_last() == views(values@.take(i as int)));
            assert(views(values@.take(i + 1)).last() == values@[i as int]@);
            assert(views(out@ + pieces@) == views(out@) + views(pieces@));
        }
        out.append(&mut pieces);
        i = i + 1;
    }
    proof {
        assert(values@.take(i as int) == values@);
    }
    out
}

/// The entries whose flag is set, in order.
pub fn keep_flagged(entries: &Vec<String>, flags: &Vec<bool>) -> (r: Vec<String>)
    requires
        entries@.len() == flags@.len(),
    ensures
        views(r@) == flagged(views(entries@), flags@),
{
    let mut out: Vec<String> = Vec::new();
    let mut i: usize = 0;
    while i < entries.len()
        invariant
            i <= entries@.len() == flags@.len(),
            views(out@) == flagged(views(entries@.take(i as int)), flags@.take(i as int)),
        decreases entries@.len() - i,
    {
        proof {
            assert(views(entries@.take(i + 1)).drop_last() == views(entries@.take(i as int)));
            assert(views(entries@.take(i + 1)).last() == entries@[i as int]@);
            assert(flags@.take(i + 1).drop_last() == flags@.take(i as int));
        }
        if flags[i] {
            let e = entries[i].clone();
            proof {
                lemma_views_push(out@, e);
            }
            out.push(e);
        }
        i = i + 1;
    }
    proof {
        assert(entries@.take(i as int) == entries@);
        assert(flags@.take(i as int) == flags@);
    }
    out
}

/// Relies on itertools::Itertools::unique: yields each distinct item once,
/// at its first occurrence, in the order of the input.
#[verifier::external_body]
fn unique_in_order(entries: Vec<String>) -> (r: Vec<String>)
    ensures
        views(r@) == first_occurrences(views(entries@)),
{
    entries.into_iter().unique().collect()
}

/// Keeps each distinct entry once, at its first occurrence.
pub fn unique_entries(entries: Vec<String>) -> (r: Vec<String>)
    ensures
        views(r@) == first_occurrences(views(entries@)),
{
    unique_in_order(entries)
}

/// The lines to print for `values`: the entries that `pattern` matches, in
/// order, and with later repeats removed when `unique` is set.
pub fn select_entries(values: &Vec<String>, sep: char, pattern: &Pattern, unique: bool) -> (r:
    Vec<String>)
    ensures
        views(r@) == output_lines(views(values@), sep, pattern@, unique),
{
    let entries = all_entries(values, sep);
    let mut flags: Vec<bool> = Vec::new();
    let mut i: usize = 0;
    while i < entries.len()
        invariant
            i <= entries@.len(),
            flags@.len() == i,
            forall|k: int|
                0 <= k < i ==> flags@[k] == regex_matches(pattern@, #[trigger] entries@[k]@),
        decreases entries@.len() - i,
    {
        let m = pattern.matches_text(entries[i].as_str());
        flags.push(m);
        i = i + 1;
    }
    let kept = keep_flagged(&entries, &flags);
    proof {
        lemma_flagged_matching(views(entries@), flags@, pattern@);
    }
    if unique {
        unique_entries(kept)
    } else {
        kept
    }
}

/// Flags computed by the pattern select exactly the matching entries.
proof fn lemma_flagged_matching(entries: Seq<Seq<char>>, flags: Seq<bool>, pattern: Seq<char>)
    requires
        entries.len() == flags.len(),
        forall|k: int| 0 <= k < flags.len() ==> flags[k] == regex_matches(pattern, entries[k]),
    ensures
        flagged(entries, flags) == matching(entries, pattern),
    decreases entries.len(),
{
    if entries.len() > 0 {
        lemma_flagged_matching(entries.drop_last(), flags.drop_last(), pattern);
    }
}

} // verus!
