//! The search itself: the lines of a document that contain a pattern.

use crate::offsets::{byte_len, byte_len_between, char_width, cut, prefix_bytes_add, to_chars};
use crate::text::{
    contains, document_lines, empty_occurs_everywhere, fold_case, folded,
    folding_keeps_occurrences, line_end, line_end_from, lines_begin_with_first_line, occurs_in,
    trim_bounds, trimmed, trimmed_lines,
};
use vstd::prelude::*;
use vstd::slice::slice_subrange;

verus! {

/// A text as the search compares it: as it stands where case counts, in its
/// lower-case form where it does not.
pub open spec fn prepared(text: Seq<char>, case_sensitive: bool) -> Seq<char> {
    if case_sensitive {
        text
    } else {
        folded(text)
    }
}

/// Whether a line counts as an occurrence of `pattern`: line and pattern are
/// prepared, each by itself, and the line must then contain the pattern.
pub open spec fn line_matches(line: Seq<char>, pattern: Seq<char>, case_sensitive: bool) -> bool {
    contains(prepared(line, case_sensitive), prepared(pattern, case_sensitive))
}

/// The lines of `doc` that match `pattern`, in the order of the document.
/// A line that occurs twice is reported twice.
pub open spec fn matching_lines(doc: Seq<char>, pattern: Seq<char>, case_sensitive: bool) -> Seq<
    Seq<char>,
> {
    document_lines(doc).filter(|line: Seq<char>| line_matches(line, pattern, case_sensitive))
}

/// A document held for searching.
#[derive(Clone, Copy, Debug)]
pub struct FileReader<'a> {
    pub contents: &'a str,
}

impl<'a> FileReader<'a> {
    /// Takes `contents` as the document to search.
    pub fn init(contents: &'a str) -> (reader: Self)
        ensures
            reader.contents == contents,
    {
        Self { contents }
    }

    /// The lines that contain `pat` exactly as it is written, trimmed and in
    /// the order of the document.
    pub fn search(&self, pat: &str) -> (found: Vec<&str>)
        ensures
            found.deep_view() == matching_lines(self.contents@, pat@, true),
    {
        search_lines(self.contents, pat, true)
    }

    /// The lines whose lower-case form contains the lower-case form of `pat`,
    /// trimmed and in the order of the document.
    pub fn case_insensitive_search(&self, pat: &str) -> (found: Vec<&str>)
        ensures
            found.deep_view() == matching_lines(self.contents@, pat@, false),
    {
        search_lines(self.contents, pat, false)
    }
}

/// Tells whether `line`, once prepared, contains `needle`, a pattern that is
/// prepared already.
pub fn line_holds(line: &[char], needle: &[char], case_sensitive: bool) -> (hit: bool)
    ensures
        hit == contains(prepared(line@, case_sensitive), needle@),
{
    if case_sensitive {
        occurs_in(line, needle)
    } else {
        let lower = fold_case(line);
        occurs_in(lower.as_slice(), needle)
    }
}

/// Searches `contents` for the lines that contain `pattern` and returns them
/// trimmed, in the order of the document.
pub fn search_lines<'a>(contents: &'a str, pattern: &str, case_sensitive: bool) -> (found: Vec<
    &'a str,
>)
    ensures
        found.deep_view() == matching_lines(contents@, pattern@, case_sensitive),
{
    let doc = to_chars(contents);
    let text = doc.as_slice();
    let typed = to_chars(pattern);
    let needle = if case_sensitive {
        typed
    } else {
        fold_case(typed.as_slice())
    };
    let ghost keep = |line: Seq<char>| line_matches(line, pattern@, case_sensitive);
    let mut found: Vec<&'a str> = Vec::new();
    assert(text@.subrange(0, text@.len() as int) =~= text@);
    let (first, last) = trim_bounds(text, 0, text.len());
    if first == last {
        assert(found.deep_view() =~= document_lines(contents@));
        assert(document_lines(contents@).filter(keep) == document_lines(contents@)) by {
            reveal(Seq::filter);
        }
        return found;
    }
    assert(text@.subrange(0, first as int) =~= text@.take(first as int));
    let mut start: usize = first;
    let mut start_byte: usize = byte_len_between(text, 0, first);
    assert(found.deep_view() + document_lines(contents@).filter(keep) =~= document_lines(
        contents@,
    ).filter(keep));
    loop
        invariant_except_break
            matching_lines(contents@, pattern@, case_sensitive) == found.deep_view()
                + trimmed_lines(text@.subrange(start as int, last as int)).filter(keep),
        invariant
            first <= start <= last <= text@.len(),
            text@ == contents@,
            byte_len(text@) <= usize::MAX,
            start_byte == byte_len(text@.take(start as int)),
            needle@ == prepared(pattern@, case_sensitive),
            keep == |line: Seq<char>| line_matches(line, pattern@, case_sensitive),
        ensures
            found.deep_view() == matching_lines(contents@, pattern@, case_sensitive),
        decreases last - start,
    {
        let end = line_end_from(text, start, last);
        let (lo, hi) = trim_bounds(text, start, end);
        proof {
            prefix_bytes_add(text@, start as int, lo as int);
            prefix_bytes_add(text@, lo as int, end as int);
            matches_begin_with_first_line(text@, start as int, end as int, last as int, keep);
        }
        let lo_byte = start_byte + byte_len_between(text, start, lo);
        let ghost before = found.deep_view();
        if line_holds(slice_subrange(text, lo, hi), needle.as_slice(), case_sensitive) {
            found.push(cut(contents, text, lo, hi, lo_byte));
            assert(found.deep_view() =~= before.push(text@.subrange(lo as int, hi as int)));
        }
        if end == last {
            assert(found.deep_view() =~= matching_lines(contents@, pattern@, case_sensitive));
            break ;
        }
        proof {
            prefix_bytes_add(text@, end as int, end + 1);
            assert(text@.subrange(end as int, end + 1) =~= seq!['\n']);
            assert(matching_lines(contents@, pattern@, case_sensitive) =~= found.deep_view()
                + trimmed_lines(text@.subrange(end + 1, last as int)).filter(keep));
        }
        start_byte = lo_byte + byte_len_between(text, lo, end) + char_width('\n');
        start = end + 1;
    }
    found
}

/// The matching lines of `text[start..last]` are its first line, which ends
/// at `end`, if that line matches, and then the matching lines of what
/// follows the line feed at `end`.
proof fn matches_begin_with_first_line(
    text: Seq<char>,
    start: int,
    end: int,
    last: int,
    keep: spec_fn(Seq<char>) -> bool,
)
    requires
        0 <= start <= end <= last <= text.len(),
        end - start == line_end(text.subrange(start, last)),
    ensures
        trimmed_lines(text.subrange(start, last)).filter(keep) == {
            let line = trimmed(text.subrange(start, end));
            let head = if keep(line) {
                seq![line]
            } else {
                Seq::empty()
            };
            if end == last {
                head
            } else {
                head + trimmed_lines(text.subrange(end + 1, last)).filter(keep)
            }
        },
{
    let line = trimmed(text.subrange(start, end));
    lines_begin_with_first_line(text, start, end, last);
    Seq::<Seq<char>>::empty().lemma_filter_push(line, keep);
    assert(Seq::<Seq<char>>::empty().push(line) =~= seq![line]);
    assert(Seq::<Seq<char>>::empty().filter(keep) =~= Seq::<Seq<char>>::empty()) by {
        reveal(Seq::filter);
    }
    if end < last {
        Seq::filter_distributes_over_add(
            seq![line],
            trimmed_lines(text.subrange(end + 1, last)),
            keep,
        );
    }
}

/// Filtering by a test that every element passes changes nothing.
proof fn filter_keeps_all(lines: Seq<Seq<char>>, keep: spec_fn(Seq<char>) -> bool)
    requires
        forall|i: int| 0 <= i < lines.len() ==> keep(#[trigger] lines[i]),
    ensures
        lines.filter(keep) == lines,
    decreases lines.len(),
{
    reveal(Seq::filter);
    if lines.len() > 0 {
        filter_keeps_all(lines.drop_last(), keep);
        assert(lines.drop_last().push(lines.last()) =~= lines);
    }
}

/// Filtering by a weaker test first does not change what a stronger test
/// keeps.
proof fn filter_after_weaker_filter(
    lines: Seq<Seq<char>>,
    strong: spec_fn(Seq<char>) -> bool,
    weak: spec_fn(Seq<char>) -> bool,
)
    requires
        forall|line: Seq<char>| #[trigger] strong(line) ==> weak(line),
    ensures
        lines.filter(weak).filter(strong) == lines.filter(strong),
    decreases lines.len(),
{
    reveal(Seq::filter);
    if lines.len() > 0 {
        let front = lines.drop_last();
        filter_after_weaker_filter(front, strong, weak);
        assert(front.push(lines.last()) =~= lines);
        front.lemma_filter_push(lines.last(), weak);
        front.lemma_filter_push(lines.last(), strong);
        front.filter(weak).lemma_filter_push(lines.last(), strong);
    }
}

/// The search returns exactly the lines of the document that match: a text
/// is among the result if and only if it is a line of the document and it
/// matches the pattern.
pub proof fn found_lines_are_the_lines_that_match(
    doc: Seq<char>,
    pattern: Seq<char>,
    case_sensitive: bool,
    line: Seq<char>,
)
    ensures
        matching_lines(doc, pattern, case_sensitive).contains(line) <==> document_lines(
            doc,
        ).contains(line) && line_matches(line, pattern, case_sensitive),
{
    let lines = document_lines(doc);
    let keep = |line: Seq<char>| line_matches(line, pattern, case_sensitive);
    if lines.filter(keep).contains(line) {
        lines.lemma_filter_contains_rev(keep, line);
    }
    if lines.contains(line) && keep(line) {
        let i = choose|i: int| 0 <= i < lines.len() && lines[i] == line;
        lines.lemma_filter_contains(keep, i);
    }
}

/// The empty pattern matches every line: the search then returns all the
/// lines of the document, with or without regard to case.
pub proof fn empty_pattern_matches_every_line(doc: Seq<char>, case_sensitive: bool)
    ensures
        matching_lines(doc, Seq::empty(), case_sensitive) == document_lines(doc),
{
    let lines = document_lines(doc);
    let keep = |line: Seq<char>| line_matches(line, Seq::empty(), case_sensitive);
    assert forall|i: int| 0 <= i < lines.len() implies keep(#[trigger] lines[i]) by {
        empty_occurs_everywhere(lines[i]);
        empty_occurs_everywhere(folded(lines[i]));
        assert(folded(Seq::empty()) =~= Seq::<char>::empty());
    }
    filter_keeps_all(lines, keep);
}

/// A search without regard to case finds every line that the search with
/// regard to case finds, and in the same order: the second result is the
/// first one, filtered once more by the stricter test.
pub proof fn insensitive_search_includes_sensitive(doc: Seq<char>, pattern: Seq<char>)
    ensures
        matching_lines(doc, pattern, true) == matching_lines(doc, pattern, false).filter(
            |line: Seq<char>| line_matches(line, pattern, true),
        ),
        forall|line: Seq<char>| #[trigger]
            matching_lines(doc, pattern, true).contains(line) ==> matching_lines(
                doc,
                pattern,
                false,
            ).contains(line),
        matching_lines(doc, pattern, true).len() <= matching_lines(doc, pattern, false).len(),
{
    let strong = |line: Seq<char>| line_matches(line, pattern, true);
    let weak = |line: Seq<char>| line_matches(line, pattern, false);
    assert forall|line: Seq<char>| #[trigger] strong(line) implies weak(line) by {
        folding_keeps_occurrences(line, pattern);
    }
    let lines = document_lines(doc);
    filter_after_weaker_filter(lines, strong, weak);
    let wide = lines.filter(weak);
    let narrow = lines.filter(strong);
    wide.lemma_filter_len(strong);
    assert forall|line: Seq<char>| #[trigger] narrow.contains(line) implies wide.contains(line) by {
        let i = choose|i: int| 0 <= i < narrow.len() && narrow[i] == line;
        wide.lemma_filter_contains_rev(strong, narrow[i]);
    }
}

/// The result of a search depends on the document, the pattern and the mode
/// alone: two results for the same three are the same lines.
pub proof fn search_is_deterministic(
    contents: &str,
    pattern: &str,
    case_sensitive: bool,
    first: Vec<&str>,
    second: Vec<&str>,
)
    requires
        first.deep_view() == matching_lines(contents@, pattern@, case_sensitive),
        second.deep_view() == matching_lines(contents@, pattern@, case_sensitive),
    ensures
        first.deep_view() == second.deep_view(),
        first@.len() == second@.len(),
        forall|i: int| 0 <= i < first@.len() ==> first@[i]@ == second@[i]@,
{
    assert(first.deep_view().len() == first@.len());
    assert(second.deep_view().len() == second@.len());
    assert forall|i: int| 0 <= i < first@.len() implies first@[i]@ == second@[i]@ by {
        assert(first.deep_view()[i] == second.deep_view()[i]);
    }
}

} // verus!
