//! Outputs of a step: `name=value` pairs, or the heredoc form for multi-line
//! values, as they are appended to `$GITHUB_OUTPUT`.
//!
//! The text of each entry is computed here; appending it to the file is the
//! caller's part.
use vstd::prelude::*;

use std::path::PathBuf;

use crate::error::ActionError;
use crate::text::{
    contains_newline, decimal, lemma_decimal_injective, push_char, push_decimal,
};

verus! {

/// The prefix of every heredoc delimiter.
pub open spec fn delimiter_prefix() -> Seq<char> {
    "PLEME_ACTIONS_OUTPUT_DELIM_"@
}

/// The heredoc delimiter with sequence number `n`.
pub open spec fn delimiter_text(n: nat) -> Seq<char> {
    delimiter_prefix() + decimal(n)
}

/// `name=value` and a line feed.
pub open spec fn key_value_entry(name: Seq<char>, value: Seq<char>) -> Seq<char> {
    name + seq!['='] + value + seq!['\n']
}

/// `name<<delim`, the value and the delimiter, each on a line of its own.
pub open spec fn heredoc_entry(name: Seq<char>, value: Seq<char>, delim: Seq<char>) -> Seq<char> {
    name + seq!['<', '<'] + delim + seq!['\n'] + value + seq!['\n'] + delim + seq!['\n']
}

/// The text appended for one output: the heredoc form with delimiter number
/// `n` when the value holds a line feed, the `name=value` form otherwise.
pub open spec fn output_entry(name: Seq<char>, value: Seq<char>, n: nat) -> Seq<char> {
    if value.contains('\n') {
        heredoc_entry(name, value, delimiter_text(n))
    } else {
        key_value_entry(name, value)
    }
}

/// The source of heredoc delimiters: the number of the next one. Numbers
/// wrap around after `u64::MAX`.
#[derive(Debug, Clone, Copy, PartialEq, Eq)]
pub struct DelimiterCounter {
    pub next: u64,
}

/// The counter value that follows `n`.
pub open spec fn next_count(n: u64) -> u64 {
    if n == u64::MAX {
        0
    } else {
        (n + 1) as u64
    }
}

impl DelimiterCounter {
    /// A counter that starts at delimiter number 0.
    pub fn new() -> (r: Self)
        ensures
            r.next == 0,
    {
        DelimiterCounter { next: 0 }
    }

    /// The next delimiter; the counter moves on by one.
    pub fn next_delimiter(&mut self) -> (r: String)
        ensures
            r@ == delimiter_text(old(self).next as nat),
            final(self).next == next_count(old(self).next),
    {
        let mut out = String::from_str("PLEME_ACTIONS_OUTPUT_DELIM_");
        push_decimal(&mut out, self.next);
        self.next = self.next.wrapping_add(1);
        out
    }
}

/// Appends outputs to a file (on a runner, the one `$GITHUB_OUTPUT` names).
#[derive(Debug)]
pub struct Output {
    target: PathBuf,
}

impl Output {
    /// The file the outputs are appended to.
    pub closed spec fn destination(&self) -> PathBuf {
        self.target
    }

    /// An output sink for the given file.
    pub fn to_file(path: PathBuf) -> (r: Self)
        ensures
            r.destination() == path,
    {
        Output { target: path }
    }

    /// The file the outputs are appended to.
    pub fn target_path(&self) -> (r: &PathBuf)
        ensures
            *r == self.destination(),
    {
        &self.target
    }

    /// The text that setting output `name` to `value` appends: a
    /// single-line value uses `name=value`; a multi-line value uses the
    /// heredoc form with the counter's next delimiter, and only then does the
    /// counter move on.
    pub fn entry(name: &str, value: &str, counter: &mut DelimiterCounter) -> (r: String)
        ensures
            r@ == output_entry(name@, value@, old(counter).next as nat),
            value@.contains('\n') ==> final(counter).next == next_count(old(counter).next),
            !value@.contains('\n') ==> *final(counter) == *old(counter),
    {
        let mut out = String::from_str(name);
        if contains_newline(value) {
            let delim = counter.next_delimiter();
            push_char(&mut out, '<');
            push_char(&mut out, '<');
            out.append(delim.as_str());
            push_char(&mut out, '\n');
            out.append(value);
            push_char(&mut out, '\n');
            out.append(delim.as_str());
            push_char(&mut out, '\n');
            assert(out@ =~= output_entry(name@, value@, old(counter).next as nat));
        } else {
            push_char(&mut out, '=');
            out.append(value);
            push_char(&mut out, '\n');
            assert(out@ =~= output_entry(name@, value@, old(counter).next as nat));
        }
        out
    }

    /// The text that setting each `(name, value)` pair in order appends, as
    /// one entry per pair; the counter moves on once per multi-line value.
    pub fn entries(pairs: &[(&str, &str)], counter: &mut DelimiterCounter) -> (r: Vec<String>)
        ensures
            r@.len() == pairs@.len(),
            forall|i: int|
                0 <= i < pairs@.len() ==> #[trigger] r@[i]@ == output_entry(
                    pairs@[i].0@,
                    pairs@[i].1@,
                    counter_before(pairs@, old(counter).next, i) as nat,
                ),
            final(counter).next == counter_before(pairs@, old(counter).next, pairs@.len() as int),
    {
        let mut out: Vec<String> = Vec::new();
        let ghost start = counter.next;
        let mut i: usize = 0;
        while i < pairs.len()
            invariant
                i <= pairs.len(),
                out@.len() == i,
                counter.next == counter_before(pairs@, start, i as int),
                forall|j: int|
                    0 <= j < i ==> #[trigger] out@[j]@ == output_entry(
                        pairs@[j].0@,
                        pairs@[j].1@,
                        counter_before(pairs@, start, j) as nat,
                    ),
            decreases pairs.len() - i,
        {
            let (name, value) = pairs[i];
            let e = Output::entry(name, value, counter);
            out.push(e);
            i = i + 1;
        }
        out
    }
}

/// The counter value in force when the pair at index `i` is set: the start
/// value moved on once for every multi-line value before it.
pub open spec fn counter_before(pairs: Seq<(&str, &str)>, start: u64, i: int) -> u64
    decreases i,
{
    if i <= 0 {
        start
    } else {
        let prev = counter_before(pairs, start, i - 1);
        if pairs[i - 1].1@.contains('\n') {
            next_count(prev)
        } else {
            prev
        }
    }
}

/// Law: delimiters with different numbers differ, so the counter hands out
/// a fresh delimiter each time until it wraps around.
pub proof fn lemma_delimiters_are_unique(a: nat, b: nat)
    requires
        a != b,
    ensures
        delimiter_text(a) != delimiter_text(b),
{
    if delimiter_text(a) == delimiter_text(b) {
        let p = delimiter_prefix();
        assert(delimiter_text(a).skip(p.len() as int) =~= decimal(a));
        assert(delimiter_text(b).skip(p.len() as int) =~= decimal(b));
        lemma_decimal_injective(a, b);
    }
}

/// Law: a value without a line feed is written as `name=value` and takes no
/// delimiter; one with a line feed is written between two copies of the
/// same delimiter.
pub proof fn lemma_entry_forms(name: Seq<char>, value: Seq<char>, n: nat)
    ensures
        !value.contains('\n') ==> output_entry(name, value, n) == name + seq!['='] + value
            + seq!['\n'],
        value.contains('\n') ==> output_entry(name, value, n).take(
            (name.len() + 2 + delimiter_text(n).len()) as int,
        ) == name + seq!['<', '<'] + delimiter_text(n),
        value.contains('\n') ==> output_entry(name, value, n).skip(
            output_entry(name, value, n).len() - delimiter_text(n).len() - 1,
        ) == delimiter_text(n) + seq!['\n'],
        value.contains('\n') ==> ({
            let e = output_entry(name, value, n);
            let start = (name.len() + 3 + delimiter_text(n).len()) as int;
            &&& e.len() == start + value.len() + 1 + delimiter_text(n).len() + 1
            &&& e[start - 1] == '\n'
            &&& e.subrange(start, start + value.len()) == value
            &&& e[start + value.len()] == '\n'
        }),
{
    if value.contains('\n') {
        let d = delimiter_text(n);
        let e = output_entry(name, value, n);
        let start = (name.len() + 3 + d.len()) as int;
        assert(e.subrange(start, start + value.len()) =~= value);
        assert(e.take((name.len() + 2 + d.len()) as int) =~= name + seq!['<', '<'] + d);
        assert(e.skip(e.len() - d.len() - 1) =~= d + seq!['\n']);
    }
}

/// The error for a runner variable (`GITHUB_OUTPUT`,
/// `GITHUB_STEP_SUMMARY`) that is not set: fatal, without context.
pub fn runner_env_missing(var: &str) -> (r: ActionError)
    ensures
        r is Error,
        r.message_text() == var@ + " env var not set \u{2014} is this binary running inside GitHub Actions?"@,
        r.context() is None,
{
    let mut message = String::from_str(var);
    message.append(" env var not set \u{2014} is this binary running inside GitHub Actions?");
    ActionError::error(message.as_str())
}

} // verus!
