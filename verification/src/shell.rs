//! What a line typed at the prompt asks for, and which path a rank names.

use crate::engine::SearchResults;
use crate::text::{chars_of, eq_folded, eq_str, fold_all, folded, slice_of, string_of, trim, trimmed};
use vstd::prelude::*;

verus! {

/// What a line asks for.
pub enum Command {
    /// The line is blank.
    Nothing,
    /// Leave the shell.
    Exit,
    /// Clear the screen.
    Clear,
    /// Build the index anew.
    Index,
    /// Open the result at this rank.
    Open(usize),
    /// `open` without a rank that can be read.
    OpenUsage,
    /// Hand this text to the interpreter of commands.
    Ai(String),
    /// None of these.
    Unknown,
}

/// What a command holds, as plain values.
pub enum CommandView {
    Nothing,
    Exit,
    Clear,
    Index,
    Open(usize),
    OpenUsage,
    Ai(Seq<char>),
    Unknown,
}

impl View for Command {
    type V = CommandView;

    open spec fn view(&self) -> CommandView {
        match *self {
            Command::Nothing => CommandView::Nothing,
            Command::Exit => CommandView::Exit,
            Command::Clear => CommandView::Clear,
            Command::Index => CommandView::Index,
            Command::Open(n) => CommandView::Open(n),
            Command::OpenUsage => CommandView::OpenUsage,
            Command::Ai(text) => CommandView::Ai(text@),
            Command::Unknown => CommandView::Unknown,
        }
    }
}

/// Whether `s` begins with `prefix`.
pub open spec fn starts_with(s: Seq<char>, prefix: Seq<char>) -> bool {
    prefix.len() <= s.len() && s.take(prefix.len() as int) == prefix
}

/// `s` without `prefix` at its start, as often as it stands there.
pub open spec fn without_leading(s: Seq<char>, prefix: Seq<char>) -> Seq<char>
    decreases s.len(),
{
    if prefix.len() > 0 && starts_with(s, prefix) {
        without_leading(s.skip(prefix.len() as int), prefix)
    } else {
        s
    }
}

/// Whether `c` is one of the ten ASCII digits.
pub open spec fn is_digit(c: char) -> bool {
    '0' <= c <= '9'
}

/// Whether `s` holds ASCII digits only.
pub open spec fn all_digits(s: Seq<char>) -> bool {
    forall|i: int| 0 <= i < s.len() ==> is_digit(#[trigger] s[i])
}

/// The number that the digits write in decimal; zero for no digits.
pub open spec fn number_of(digits: Seq<char>) -> nat
    decreases digits.len(),
{
    if digits.len() == 0 {
        0
    } else {
        (number_of(digits.drop_last()) * 10 + (digits.last() as u32 - '0' as u32)) as nat
    }
}

/// The digits of a text that writes a number: the text itself, or what
/// follows a plus sign at its start.
pub open spec fn unsigned_part(s: Seq<char>) -> Seq<char> {
    if s.len() > 0 && s[0] == '+' {
        s.skip(1)
    } else {
        s
    }
}

/// The rank that a text writes: one or more ASCII digits, a plus sign before
/// them allowed, that write a number within the range of `usize`.
pub open spec fn parsed_rank(s: Seq<char>) -> Option<usize> {
    let d = unsigned_part(s);
    if d.len() > 0 && all_digits(d) && number_of(d) <= usize::MAX {
        Some(number_of(d) as usize)
    } else {
        None
    }
}

/// What a line asks for. The line is read without the white space around
/// it. `exit` and `quit` count in small or capital letters, as does
/// the word `open`; the other words count as written.
pub open spec fn command_of(line: Seq<char>) -> CommandView {
    let input = trimmed(line);
    if input.len() == 0 {
        CommandView::Nothing
    } else if folded(input) == "exit"@ || folded(input) == "quit"@ {
        CommandView::Exit
    } else if input == "clear"@ || input == "cls"@ || input == "clean"@ {
        CommandView::Clear
    } else if input == "index"@ || input == "reindex"@ {
        CommandView::Index
    } else if starts_with(folded(input), "open "@) {
        match parsed_rank(trimmed(input.skip("open "@.len() as int))) {
            Some(n) => CommandView::Open(n),
            None => CommandView::OpenUsage,
        }
    } else if starts_with(input, "ai "@) {
        CommandView::Ai(without_leading(input, "ai "@))
    } else {
        CommandView::Unknown
    }
}

proof fn lemma_number_of_prefix(d: Seq<char>, i: int)
    requires
        0 <= i <= d.len(),
        all_digits(d),
    ensures
        number_of(d.take(i)) <= number_of(d),
    decreases d.len(),
{
    if i == d.len() {
        assert(d.take(i) =~= d);
    } else {
        assert(d.drop_last().take(i) =~= d.take(i));
        assert(is_digit(d.last()));
        lemma_number_of_prefix(d.drop_last(), i);
    }
}

/// Reads the rank that a text writes.
pub fn parse_rank(s: &Vec<char>) -> (r: Option<usize>)
    ensures
        r == parsed_rank(s@),
{
    let start: usize = if s.len() > 0 && s[0] == '+' {
        1
    } else {
        0
    };
    let ghost d = unsigned_part(s@);
    assert(d =~= s@.skip(start as int));
    if start == s.len() {
        return None;
    }
    let mut value: usize = 0;
    let mut i: usize = start;
    assert(d.take(0) =~= Seq::<char>::empty());
    while i < s.len()
        invariant
            start <= i <= s.len(),
            d == s@.skip(start as int),
            d == unsigned_part(s@),
            forall|k: int| 0 <= k < i - start ==> is_digit(#[trigger] d[k]),
            value == number_of(d.take(i - start)),
        decreases s.len() - i,
    {
        let c = s[i];
        assert(c == d[i - start]);
        if !(c >= '0' && c <= '9') {
            assert(!is_digit(d[i - start]));
            assert(!all_digits(d));
            return None;
        }
        let digit: usize = (c as u32 - '0' as u32) as usize;
        proof {
            assert(d.take(i - start + 1).drop_last() =~= d.take(i - start));
            assert(d.take(i - start + 1).last() == c);
            assert(number_of(d.take(i - start + 1)) == value * 10 + digit);
        }
        if value > (usize::MAX - digit) / 10 {
            proof {
                assert(value * 10 + digit > usize::MAX);
                if all_digits(d) {
                    lemma_number_of_prefix(d, i - start + 1);
                    assert(number_of(d) > usize::MAX);
                }
                assert(parsed_rank(s@) is None);
            }
            return None;
        }
        value = value * 10 + digit;
        i += 1;
    }
    assert(d.take(d.len() as int) =~= d);
    Some(value)
}

fn starts_with_chars(s: &Vec<char>, prefix: &Vec<char>, from: usize) -> (r: bool)
    requires
        from <= s.len(),
    ensures
        r == starts_with(s@.skip(from as int), prefix@),
{
    if prefix.len() > s.len() - from {
        return false;
    }
    let ghost rest = s@.skip(from as int);
    let mut k: usize = 0;
    while k < prefix.len()
        invariant
            k <= prefix.len(),
            from + prefix.len() <= s.len(),
            rest == s@.skip(from as int),
            forall|j: int| 0 <= j < k ==> rest[j] == prefix@[j],
        decreases prefix.len() - k,
    {
        if s[from + k] != prefix[k] {
            assert(rest.take(prefix.len() as int)[k as int] != prefix@[k as int]);
            return false;
        }
        k += 1;
    }
    assert(rest.take(prefix.len() as int) =~= prefix@);
    true
}

fn strip_leading(s: &Vec<char>, prefix: &Vec<char>) -> (r: Vec<char>)
    ensures
        r@ == without_leading(s@, prefix@),
{
    let mut from: usize = 0;
    assert(s@.skip(0) =~= s@);
    if prefix.len() > 0 {
        while starts_with_chars(s, prefix, from)
            invariant
                from <= s.len(),
                prefix.len() > 0,
                without_leading(s@, prefix@) == without_leading(s@.skip(from as int), prefix@),
            decreases s.len() - from,
        {
            proof {
                assert(s@.skip(from as int).skip(prefix.len() as int) =~= s@.skip(
                    from + prefix.len(),
                ));
            }
            from += prefix.len();
        }
    }
    let r = slice_of(s, from, s.len());
    assert(r@ =~= s@.skip(from as int));
    r
}

/// Reads what a line asks for.
pub fn parse_command(line: &str) -> (command: Command)
    ensures
        command@ == command_of(line@),
{
    let input = trim(&chars_of(line));
    if input.len() == 0 {
        return Command::Nothing;
    }
    if eq_folded(&input, "exit") || eq_folded(&input, "quit") {
        return Command::Exit;
    }
    if eq_str(&input, "clear") || eq_str(&input, "cls") || eq_str(&input, "clean") {
        return Command::Clear;
    }
    if eq_str(&input, "index") || eq_str(&input, "reindex") {
        return Command::Index;
    }
    let open = chars_of("open ");
    let lower = fold_all(&input);
    assert(lower@.skip(0) =~= lower@);
    if starts_with_chars(&lower, &open, 0) {
        let arg = trim(&slice_of(&input, open.len(), input.len()));
        assert(input@.subrange(open.len() as int, input.len() as int) =~= input@.skip(
            open.len() as int,
        ));
        return match parse_rank(&arg) {
            Some(n) => Command::Open(n),
            None => Command::OpenUsage,
        };
    }
    let ai = chars_of("ai ");
    assert(input@.skip(0) =~= input@);
    if starts_with_chars(&input, &ai, 0) {
        return Command::Ai(string_of(&strip_leading(&input, &ai)));
    }
    Command::Unknown
}

/// The path at a rank of the results, counted from one.
pub open spec fn path_at(items: Seq<String>, rank: usize) -> Option<Seq<char>> {
    if 1 <= rank <= items.len() {
        Some(items[rank - 1]@)
    } else {
        None
    }
}

/// The path that a rank names among the results; none for rank zero and for
/// a rank beyond the last result.
pub fn path_at_rank(results: &SearchResults, rank: usize) -> (path: Option<String>)
    ensures
        match path {
            Some(p) => path_at(results.items@, rank) == Some(p@),
            None => path_at(results.items@, rank) is None,
        },
{
    if rank == 0 || rank > results.items.len() {
        None
    } else {
        Some(results.items[rank - 1].clone())
    }
}

} // verus!
