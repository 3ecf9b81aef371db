//! The character-level model of a document and the routines that compute it:
//! white space and trimming, substring containment and case folding.

use vstd::prelude::*;

verus! {

/// Whether `c` is a white-space character: a code point with the Unicode
/// property `White_Space`.
pub open spec fn is_space(c: char) -> bool {
    let n = c as u32;
    ||| 0x09 <= n <= 0x0D
    ||| n == 0x20
    ||| n == 0x85
    ||| n == 0xA0
    ||| n == 0x1680
    ||| 0x2000 <= n <= 0x200A
    ||| n == 0x2028
    ||| n == 0x2029
    ||| n == 0x202F
    ||| n == 0x205F
    ||| n == 0x3000
}

/// `s` without its leading white space.
pub open spec fn trim_start(s: Seq<char>) -> Seq<char>
    decreases s.len(),
{
    if s.len() > 0 && is_space(s.first()) {
        trim_start(s.drop_first())
    } else {
        s
    }
}

/// `s` without its trailing white space.
pub open spec fn trim_end(s: Seq<char>) -> Seq<char>
    decreases s.len(),
{
    if s.len() > 0 && is_space(s.last()) {
        trim_end(s.drop_last())
    } else {
        s
    }
}

/// `s` without the white space at either end.
pub open spec fn trimmed(s: Seq<char>) -> Seq<char> {
    trim_end(trim_start(s))
}

/// Whether `needle` stands in `hay` at position `at`.
pub open spec fn occurs_at(hay: Seq<char>, needle: Seq<char>, at: int) -> bool {
    &&& 0 <= at
    &&& at + needle.len() <= hay.len()
    &&& hay.subrange(at, at + needle.len()) == needle
}

/// Whether `needle` is a contiguous part of `hay`.
pub open spec fn contains(hay: Seq<char>, needle: Seq<char>) -> bool {
    exists|at: int| occurs_at(hay, needle, at)
}

/// The lower-case form of `c`: one character, or a few where the lower case
/// of `c` is written with more than one.
pub uninterp spec fn lowercase_of(c: char) -> Seq<char>;

/// `s` with every character replaced by its lower-case form.
pub open spec fn folded(s: Seq<char>) -> Seq<char> {
    s.flat_map(|c: char| lowercase_of(c))
}

/// How many characters of `s` stand before its first line feed; `s.len()`
/// when it holds none.
pub open spec fn line_end(s: Seq<char>) -> nat
    decreases s.len(),
{
    if s.len() == 0 || s.first() == '\n' {
        0
    } else {
        (1 + line_end(s.drop_first())) as nat
    }
}

/// The pieces of `s` that its line feeds separate, in order. There is one
/// more piece than there are line feeds, and a piece may be empty.
pub open spec fn split_lines(s: Seq<char>) -> Seq<Seq<char>>
    decreases s.len(),
{
    let end = line_end(s) as int;
    if end < s.len() {
        seq![s.take(end)] + split_lines(s.skip(end + 1))
    } else {
        seq![s]
    }
}

/// The pieces of `s` that its line feeds separate, each of them trimmed.
pub open spec fn trimmed_lines(s: Seq<char>) -> Seq<Seq<char>> {
    split_lines(s).map_values(|line: Seq<char>| trimmed(line))
}

/// The lines of a document: the white space around the whole document is
/// left out, what remains is split at its line feeds, and each piece is
/// trimmed. A document of white space alone has no lines.
pub open spec fn document_lines(doc: Seq<char>) -> Seq<Seq<char>> {
    let body = trimmed(doc);
    if body.len() == 0 {
        Seq::empty()
    } else {
        trimmed_lines(body)
    }
}

/// Tells whether `c` is a white-space character.
pub fn is_whitespace(c: char) -> (space: bool)
    ensures
        space == is_space(c),
{
    let n: u32 = c as u32;
    (0x09 <= n && n <= 0x0D) || n == 0x20 || n == 0x85 || n == 0xA0 || n == 0x1680 || (0x2000 <= n
        && n <= 0x200A) || n == 0x2028 || n == 0x2029 || n == 0x202F || n == 0x205F || n == 0x3000
}

/// The bounds of `text[from..to]` once the white space at both of its ends is
/// left out. A range of white space alone gives the empty range at `to`.
pub fn trim_bounds(text: &[char], from: usize, to: usize) -> (bounds: (usize, usize))
    requires
        from <= to <= text@.len(),
    ensures
        from <= bounds.0 <= bounds.1 <= to,
        to - bounds.0 == trim_start(text@.subrange(from as int, to as int)).len(),
        bounds.1 - bounds.0 == trimmed(text@.subrange(from as int, to as int)).len(),
        text@.subrange(bounds.0 as int, bounds.1 as int) == trimmed(
            text@.subrange(from as int, to as int),
        ),
{
    let mut lo: usize = from;
    while lo < to && is_whitespace(text[lo])
        invariant
            from <= lo <= to <= text@.len(),
            trim_start(text@.subrange(from as int, to as int)) == trim_start(
                text@.subrange(lo as int, to as int),
            ),
        decreases to - lo,
    {
        assert(text@.subrange(lo as int, to as int).drop_first() =~= text@.subrange(
            lo + 1,
            to as int,
        ));
        lo += 1;
    }
    let mut hi: usize = to;
    while lo < hi && is_whitespace(text[hi - 1])
        invariant
            lo <= hi <= to <= text@.len(),
            trim_end(text@.subrange(lo as int, to as int)) == trim_end(
                text@.subrange(lo as int, hi as int),
            ),
        decreases hi - lo,
    {
        assert(text@.subrange(lo as int, hi as int).drop_last() =~= text@.subrange(
            lo as int,
            hi - 1,
        ));
        hi -= 1;
    }
    (lo, hi)
}

/// Tells whether `needle` stands in `hay` at position `at`.
pub fn matches_at(hay: &[char], needle: &[char], at: usize) -> (found: bool)
    requires
        at + needle@.len() <= hay@.len(),
    ensures
        found == occurs_at(hay@, needle@, at as int),
{
    let mut k: usize = 0;
    while k < needle.len()
        invariant
            k <= needle@.len(),
            at + needle@.len() <= hay@.len() == hay.len(),
            forall|j: int| 0 <= j < k ==> hay@[at + j] == needle@[j],
        decreases needle@.len() - k,
    {
        if hay[at + k] != needle[k] {
            assert(hay@.subrange(at as int, at + needle@.len())[k as int] != needle@[k as int]);
            return false;
        }
        k += 1;
    }
    assert(hay@.subrange(at as int, at + needle@.len()) =~= needle@);
    true
}

/// Tells whether `needle` is a contiguous part of `hay`.
pub fn occurs_in(hay: &[char], needle: &[char]) -> (found: bool)
    ensures
        found == contains(hay@, needle@),
{
    if needle.len() > hay.len() {
        return false;
    }
    let last: usize = hay.len() - needle.len();
    let mut at: usize = 0;
    while at < last
        invariant
            last == hay@.len() - needle@.len(),
            at <= last,
            forall|j: int| 0 <= j < at ==> !occurs_at(hay@, needle@, j),
        decreases last - at,
    {
        if matches_at(hay, needle, at) {
            return true;
        }
        at += 1;
    }
    matches_at(hay, needle, last)
}

/// The lower-case form of one character. This calls `char::to_lowercase` of
/// the standard library and collects the characters it yields. Nothing is
/// proved of it; it is taken on trust that the result is `lowercase_of(c)`,
/// that is, that it depends on `c` alone.
#[verifier::external_body]
fn lowercase_char(c: char) -> (lower: Vec<char>)
    ensures
        lower@ == lowercase_of(c),
{
    c.to_lowercase().collect()
}

/// `text` with every character replaced by its lower-case form.
pub fn fold_case(text: &[char]) -> (lower: Vec<char>)
    ensures
        lower@ == folded(text@),
{
    let mut lower: Vec<char> = Vec::new();
    let mut i: usize = 0;
    while i < text.len()
        invariant
            i <= text@.len(),
            lower@ == folded(text@.take(i as int)),
        decreases text@.len() - i,
    {
        let mut piece = lowercase_char(text[i]);
        proof {
            text@.lemma_flat_map_take_append(|c: char| lowercase_of(c), i as int);
        }
        lower.append(&mut piece);
        i += 1;
    }
    assert(text@.take(i as int) =~= text@);
    lower
}

/// The index of the first line feed in `text[from..to]`, or `to` when that
/// range holds none.
pub fn line_end_from(text: &[char], from: usize, to: usize) -> (end: usize)
    requires
        from <= to <= text@.len(),
    ensures
        from <= end <= to,
        end - from == line_end(text@.subrange(from as int, to as int)),
        end < to ==> text@[end as int] == '\n',
{
    let mut end: usize = from;
    while end < to && text[end] != '\n'
        invariant
            from <= end <= to <= text@.len(),
            line_end(text@.subrange(from as int, to as int)) == (end - from) + line_end(
                text@.subrange(end as int, to as int),
            ),
        decreases to - end,
    {
        assert(text@.subrange(end as int, to as int).drop_first() =~= text@.subrange(
            end + 1,
            to as int,
        ));
        end += 1;
    }
    end
}

/// The lines of `text[start..last]` are its first line, which ends at `end`,
/// and then the lines of what follows the line feed at `end`.
pub proof fn lines_begin_with_first_line(text: Seq<char>, start: int, end: int, last: int)
    requires
        0 <= start <= end <= last <= text.len(),
        end - start == line_end(text.subrange(start, last)),
    ensures
        trimmed_lines(text.subrange(start, last)) == if end == last {
            seq![trimmed(text.subrange(start, end))]
        } else {
            seq![trimmed(text.subrange(start, end))] + trimmed_lines(
                text.subrange(end + 1, last),
            )
        },
{
    let rest = text.subrange(start, last);
    let trim = |line: Seq<char>| trimmed(line);
    if end == last {
        assert(split_lines(rest) =~= seq![rest]);
        assert(trimmed_lines(rest) =~= seq![trimmed(rest)]);
    } else {
        let tail = text.subrange(end + 1, last);
        assert(rest.take(end - start) =~= text.subrange(start, end));
        assert(rest.skip(end - start + 1) =~= tail);
        assert(split_lines(rest) =~= seq![rest.take(end - start)] + split_lines(tail));
        assert(trimmed_lines(rest) =~= seq![trimmed(text.subrange(start, end))] + trimmed_lines(
            tail,
        ));
    }
}

/// What `trim_start` leaves is the end of `s`: only white space was taken
/// from the front, and what is left does not begin with white space.
pub proof fn trim_start_takes_leading_space(s: Seq<char>)
    ensures
        trim_start(s).len() <= s.len(),
        trim_start(s) == s.skip(s.len() - trim_start(s).len()),
        forall|i: int| 0 <= i < s.len() - trim_start(s).len() ==> is_space(#[trigger] s[i]),
        trim_start(s).len() > 0 ==> !is_space(trim_start(s).first()),
    decreases s.len(),
{
    if s.len() > 0 && is_space(s.first()) {
        let rest = s.drop_first();
        trim_start_takes_leading_space(rest);
        let skipped = s.len() - trim_start(s).len();
        assert(rest.skip(skipped - 1) =~= s.skip(skipped));
        assert forall|i: int| 0 <= i < skipped implies is_space(#[trigger] s[i]) by {
            if i > 0 {
                assert(s[i] == rest[i - 1]);
            }
        }
    } else {
        assert(s.skip(0) =~= s);
    }
}

/// What `trim_end` leaves is the start of `s`: only white space was taken
/// from the back, and what is left does not end with white space.
pub proof fn trim_end_takes_trailing_space(s: Seq<char>)
    ensures
        trim_end(s).len() <= s.len(),
        trim_end(s) == s.take(trim_end(s).len() as int),
        forall|i: int| trim_end(s).len() <= i < s.len() ==> is_space(#[trigger] s[i]),
        trim_end(s).len() > 0 ==> !is_space(trim_end(s).last()),
    decreases s.len(),
{
    if s.len() > 0 && is_space(s.last()) {
        let rest = s.drop_last();
        trim_end_takes_trailing_space(rest);
        let kept = trim_end(s).len() as int;
        assert(rest.take(kept) =~= s.take(kept));
        assert forall|i: int| kept <= i < s.len() implies is_space(#[trigger] s[i]) by {
            if i < s.len() - 1 {
                assert(s[i] == rest[i]);
            }
        }
    } else {
        assert(s.take(s.len() as int) =~= s);
    }
}

/// Trimming takes white space from the two ends of a text and nothing else:
/// the result is a range of the text, all that lies outside the range is
/// white space, and the result neither begins nor ends with white space.
pub proof fn trimming_takes_only_outer_space(s: Seq<char>)
    ensures
        ({
            let lo = s.len() - trim_start(s).len();
            let hi = lo + trimmed(s).len();
            &&& 0 <= lo <= hi <= s.len()
            &&& trimmed(s) == s.subrange(lo, hi)
            &&& forall|i: int| 0 <= i < lo || hi <= i < s.len() ==> is_space(#[trigger] s[i])
            &&& trimmed(s).len() > 0 ==> !is_space(trimmed(s).first()) && !is_space(
                trimmed(s).last(),
            )
        }),
{
    let front = trim_start(s);
    trim_start_takes_leading_space(s);
    trim_end_takes_trailing_space(front);
    let lo = s.len() - front.len();
    let hi = lo + trimmed(s).len();
    assert(trimmed(s) =~= s.subrange(lo, hi));
    assert forall|i: int| 0 <= i < lo || hi <= i < s.len() implies is_space(#[trigger] s[i]) by {
        if hi <= i {
            assert(s[i] == front[i - lo]);
        }
    }
    if trimmed(s).len() > 0 {
        assert(trimmed(s).first() == front.first());
    }
}

/// A trimmed text has nothing left to trim.
pub proof fn trimming_twice_changes_nothing(s: Seq<char>)
    ensures
        trimmed(trimmed(s)) == trimmed(s),
{
    trimming_takes_only_outer_space(s);
}

/// Every line of a document is trimmed.
pub proof fn document_lines_are_trimmed(doc: Seq<char>, i: int)
    requires
        0 <= i < document_lines(doc).len(),
    ensures
        trimmed(document_lines(doc)[i]) == document_lines(doc)[i],
{
    trimming_twice_changes_nothing(split_lines(trimmed(doc))[i]);
}

/// The empty pattern stands in every text.
pub proof fn empty_occurs_everywhere(hay: Seq<char>)
    ensures
        contains(hay, Seq::empty()),
{
    assert(hay.subrange(0, 0) =~= Seq::<char>::empty());
    assert(occurs_at(hay, Seq::empty(), 0));
}

/// Folding a text that is made of two parts folds each part.
pub proof fn folding_distributes_over_add(a: Seq<char>, b: Seq<char>)
    ensures
        folded(a + b) == folded(a) + folded(b),
    decreases b.len(),
{
    let lower = |c: char| lowercase_of(c);
    if b.len() == 0 {
        assert(a + b =~= a);
        assert(folded(a) + folded(b) =~= folded(a));
    } else {
        let front = b.drop_last();
        folding_distributes_over_add(a, front);
        (a + front).lemma_flat_map_push(lower, b.last());
        front.lemma_flat_map_push(lower, b.last());
        assert((a + front).push(b.last()) =~= a + b);
        assert(front.push(b.last()) =~= b);
        assert(folded(a + b) =~= folded(a) + folded(b));
    }
}

/// A text that contains a pattern still contains it once both are folded:
/// folding never loses an occurrence.
pub proof fn folding_keeps_occurrences(hay: Seq<char>, needle: Seq<char>)
    requires
        contains(hay, needle),
    ensures
        contains(folded(hay), folded(needle)),
{
    let at = choose|at: int| occurs_at(hay, needle, at);
    let before = hay.subrange(0, at);
    let after = hay.subrange(at + needle.len(), hay.len() as int);
    assert(hay =~= before + needle + after);
    folding_distributes_over_add(before + needle, after);
    folding_distributes_over_add(before, needle);
    let low = folded(before) + folded(needle) + folded(after);
    let at_low = folded(before).len() as int;
    assert(low.subrange(at_low, at_low + folded(needle).len()) =~= folded(needle));
    assert(occurs_at(folded(hay), folded(needle), at_low));
}

} // verus!
