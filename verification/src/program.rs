//! What one run of the program prints: the matching lines, unless the search
//! is quiet, and the count of them.

use crate::config::{Config, Settings};
use crate::search::{matching_lines, search_lines};
use vstd::prelude::*;
use vstd::string::StringExecFns;

verus! {

/// The character that writes the digit `d`.
pub open spec fn digit(d: nat) -> char {
    ('0' as u8 + d) as char
}

/// `n` written in decimal, without leading zeros.
pub open spec fn decimal(n: nat) -> Seq<char>
    decreases n,
{
    if n < 10 {
        seq![digit(n)]
    } else {
        decimal(n / 10).push(digit(n % 10))
    }
}

/// The line that reports `n` occurrences.
pub open spec fn count_line(n: nat) -> Seq<char> {
    decimal(n) + " occurences found."@
}

/// The lines that a run with these settings prints for the document `doc`:
/// the matching lines, unless the search is quiet, and then the count line.
pub open spec fn report(settings: Settings, doc: Seq<char>) -> Seq<Seq<char>> {
    let found = matching_lines(doc, settings.query, settings.case_sensitive);
    let shown = if settings.quiet {
        Seq::empty()
    } else {
        found
    };
    shown.push(count_line(found.len()))
}

/// The text of one decimal digit.
fn digit_text(d: usize) -> (text: &'static str)
    requires
        d < 10,
    ensures
        text@ == seq![digit(d as nat)],
{
    proof {
        reveal_strlit("0");
        reveal_strlit("1");
        reveal_strlit("2");
        reveal_strlit("3");
        reveal_strlit("4");
        reveal_strlit("5");
        reveal_strlit("6");
        reveal_strlit("7");
        reveal_strlit("8");
        reveal_strlit("9");
    }
    let text = match d {
        0 => "0",
        1 => "1",
        2 => "2",
        3 => "3",
        4 => "4",
        5 => "5",
        6 => "6",
        7 => "7",
        8 => "8",
        _ => "9",
    };
    assert(text@ =~= seq![digit(d as nat)]);
    text
}

/// Appends `n`, written in decimal, to `out`.
fn push_decimal(out: &mut String, n: usize)
    ensures
        final(out)@ == old(out)@ + decimal(n as nat),
    decreases n,
{
    if n >= 10 {
        push_decimal(out, n / 10);
    }
    out.append(digit_text(n % 10));
    assert(out@ =~= old(out)@ + decimal(n as nat));
}

/// The program: a search as one run performs it.
pub struct Program;

impl Program {
    /// The line that reports `n` occurrences.
    pub fn summary(n: usize) -> (line: String)
        ensures
            line@ == count_line(n as nat),
    {
        let mut line = String::new();
        push_decimal(&mut line, n);
        line.append(" occurences found.");
        line
    }

    /// Searches `contents` as `config` asks and returns the lines to print:
    /// the matching lines, unless the search is quiet, and then the count
    /// line.
    pub fn run(config: &Config, contents: &str) -> (printed: Vec<String>)
        ensures
            printed.deep_view() == report(config@, contents@),
    {
        let found = search_lines(contents, config.query.as_str(), config.case_sensitive);
        let mut printed: Vec<String> = Vec::new();
        if !config.quiet {
            let mut i: usize = 0;
            while i < found.len()
                invariant
                    i <= found@.len(),
                    printed.deep_view() == found.deep_view().take(i as int),
                decreases found@.len() - i,
            {
                let ghost before = printed.deep_view();
                printed.push(found[i].to_owned());
                assert(printed.deep_view() =~= before.push(found.deep_view()[i as int]));
                assert(found.deep_view().take(i + 1) =~= found.deep_view().take(i as int).push(
                    found.deep_view()[i as int],
                ));
                i += 1;
            }
            assert(found.deep_view().take(i as int) =~= found.deep_view());
        }
        let ghost shown = printed.deep_view();
        printed.push(Self::summary(found.len()));
        assert(printed.deep_view() =~= shown.push(count_line(found@.len())));
        printed
    }
}

} // verus!
