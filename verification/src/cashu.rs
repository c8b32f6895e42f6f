//! Reading what the cashu wallet prints.
//!
//! `cashu receive <token>` prints the balance before and after the token was
//! redeemed, one per line, each as a label followed by a space and a number;
//! a redeemed amount is their difference. `cashu send <amount>` prints the
//! new token on its second line.

use vstd::prelude::*;
use vstd::string::*;

use crate::text::{
    chars_of, decimal, is_digit, lemma_decimal_digits, lemma_parse_decimal, lemma_split_on_first_two,
    parse_u32, parse_u32_in, split_on, split_ranges,
};

verus! {

/// The amount that the output of `cashu receive` reports, or `None` where the
/// output does not have the expected shape: fewer than two lines, a balance
/// line without a second word, a second word that is no `u32`, or a balance
/// that went down. An empty second line means that nothing was received.
pub open spec fn receive_output_amount(output: Seq<char>) -> Option<u32> {
    let lines = split_on(output, '\n');
    if lines.len() < 2 {
        None
    } else if lines[1].len() == 0 {
        Some(0)
    } else {
        let before = split_on(lines[0], ' ');
        let after = split_on(lines[1], ' ');
        if before.len() < 2 || after.len() < 2 {
            None
        } else {
            match (parse_u32(before[1]), parse_u32(after[1])) {
                (Some(b1), Some(b2)) => if b1 <= b2 {
                    Some((b2 - b1) as u32)
                } else {
                    None
                },
                _ => None,
            }
        }
    }
}

/// The token that the output of `cashu send` reports: its second line, which
/// must hold no space; `None` where there is no second line or it holds one.
pub open spec fn send_output_token(output: Seq<char>) -> Option<Seq<char>> {
    let lines = split_on(output, '\n');
    if lines.len() < 2 || lines[1].contains(' ') {
        None
    } else {
        Some(lines[1])
    }
}

/// The second word of `s[from..to]`, read as a `u32`.
fn second_word_u32(s: &Vec<char>, from: usize, to: usize) -> (r: Option<u32>)
    requires
        from <= to <= s@.len(),
    ensures
        r == (if split_on(s@.subrange(from as int, to as int), ' ').len() < 2 {
            None
        } else {
            parse_u32(split_on(s@.subrange(from as int, to as int), ' ')[1])
        }),
{
    let words: Vec<(usize, usize)> = split_ranges(s, from, to, ' ');
    if words.len() < 2 {
        return None;
    }
    let (a, b): (usize, usize) = words[1];
    assert(words@[1].0 == a && words@[1].1 == b);
    parse_u32_in(s, a, b)
}

/// The amount redeemed, read from the output of `cashu receive`.
pub fn parse_receive_output(output: &str) -> (r: Option<u32>)
    ensures
        r == receive_output_amount(output@),
{
    let s: Vec<char> = chars_of(output);
    let n: usize = s.len();
    assert(s@.subrange(0, n as int) =~= output@);
    let lines: Vec<(usize, usize)> = split_ranges(&s, 0, n, '\n');
    if lines.len() < 2 {
        return None;
    }
    let (a0, b0): (usize, usize) = lines[0];
    let (a1, b1): (usize, usize) = lines[1];
    assert(lines@[0].0 == a0 && lines@[0].1 == b0);
    assert(lines@[1].0 == a1 && lines@[1].1 == b1);
    if a1 == b1 {
        return Some(0);
    }
    let before: Option<u32> = second_word_u32(&s, a0, b0);
    let after: Option<u32> = second_word_u32(&s, a1, b1);
    match (before, after) {
        (Some(x), Some(y)) => if x <= y {
            Some(y - x)
        } else {
            None
        },
        _ => None,
    }
}

/// The token read from the output of `cashu send`.
pub fn parse_send_output(output: &str) -> (r: Option<String>)
    ensures
        match (r, send_output_token(output@)) {
            (Some(t), Some(u)) => t@ == u,
            (None, None) => true,
            _ => false,
        },
{
    let s: Vec<char> = chars_of(output);
    let n: usize = s.len();
    assert(s@.subrange(0, n as int) =~= output@);
    let lines: Vec<(usize, usize)> = split_ranges(&s, 0, n, '\n');
    if lines.len() < 2 {
        return None;
    }
    let (a, b): (usize, usize) = lines[1];
    assert(lines@[1].0 == a && lines@[1].1 == b);
    let ghost line = s@.subrange(a as int, b as int);
    let mut i: usize = a;
    while i < b
        invariant
            a <= i <= b <= s@.len(),
            line == s@.subrange(a as int, b as int),
            split_on(output@, '\n').len() >= 2,
            line == split_on(output@, '\n')[1],
            forall|k: int| 0 <= k < i - a ==> line[k] != ' ',
        decreases b - i,
    {
        if s[i] == ' ' {
            assert(line[i - a] == ' ');
            assert(line.contains(' '));
            return None;
        }
        i = i + 1;
    }
    assert(!line.contains(' '));
    let token: &str = output.substring_char(a, b);
    Some(token.to_owned())
}


/// A balance line as the wallet prints it: a label, a space, the number, and
/// optionally further words after a space.
pub open spec fn balance_line(label: Seq<char>, amount: u32, tail: Seq<char>) -> Seq<char> {
    label + seq![' '] + decimal(amount as nat) + tail
}

proof fn lemma_balance_line(label: Seq<char>, amount: u32, tail: Seq<char>)
    requires
        !label.contains(' '),
        !label.contains('\n'),
        !tail.contains('\n'),
        tail.len() == 0 || tail[0] == ' ',
    ensures
        !balance_line(label, amount, tail).contains('\n'),
        balance_line(label, amount, tail).len() > 0,
        split_on(balance_line(label, amount, tail), ' ').len() >= 2,
        split_on(balance_line(label, amount, tail), ' ')[1] == decimal(amount as nat),
{
    let d = decimal(amount as nat);
    lemma_decimal_digits(amount as nat);
    assert(!d.contains(' ')) by {
        if d.contains(' ') {
            let k = choose|k: int| 0 <= k < d.len() && d[k] == ' ';
            assert(is_digit(d[k]));
        }
    }
    lemma_split_on_first_two(label, d, tail, ' ');
    let l = balance_line(label, amount, tail);
    assert(!l.contains('\n')) by {
        if l.contains('\n') {
            let k = choose|k: int| 0 <= k < l.len() && l[k] == '\n';
            if k < label.len() {
                assert(label[k] == '\n');
            } else if k == label.len() {
            } else if k < label.len() + 1 + d.len() {
                assert(d[k - label.len() - 1] == '\n');
                assert(is_digit(d[k - label.len() - 1]));
            } else {
                assert(tail[k - label.len() - 1 - d.len()] == '\n');
            }
        }
    }
}

/// What `cashu receive` reports is redeemed is the second balance less the
/// first: for output whose first two lines are balance lines with `before`
/// and `after`, followed by nothing or by more lines, the amount is exactly
/// `after - before` when the balance did not go down, and there is none when
/// it did.
pub proof fn lemma_receive_amount_is_difference(
    label0: Seq<char>,
    before: u32,
    tail0: Seq<char>,
    label1: Seq<char>,
    after: u32,
    tail1: Seq<char>,
    rest: Seq<char>,
)
    requires
        !label0.contains(' ') && !label0.contains('\n'),
        !label1.contains(' ') && !label1.contains('\n'),
        !tail0.contains('\n') && (tail0.len() == 0 || tail0[0] == ' '),
        !tail1.contains('\n') && (tail1.len() == 0 || tail1[0] == ' '),
        rest.len() == 0 || rest[0] == '\n',
    ensures
        ({
            let output = balance_line(label0, before, tail0) + seq!['\n'] + balance_line(
                label1,
                after,
                tail1,
            ) + rest;
            &&& before <= after ==> receive_output_amount(output) == Some((after - before) as u32)
            &&& before > after ==> receive_output_amount(output) is None
        }),
{
    let l0 = balance_line(label0, before, tail0);
    let l1 = balance_line(label1, after, tail1);
    lemma_balance_line(label0, before, tail0);
    lemma_balance_line(label1, after, tail1);
    lemma_split_on_first_two(l0, l1, rest, '\n');
    lemma_parse_decimal(before);
    lemma_parse_decimal(after);
}

/// What `cashu send` reports as the token is its whole second line: for
/// output of a first line, a line break, a token with no space, then nothing
/// or further lines, the token is given back entire.
pub proof fn lemma_send_token_is_whole_second_line(first: Seq<char>, token: Seq<char>, rest: Seq<char>)
    requires
        !first.contains('\n'),
        !token.contains('\n'),
        !token.contains(' '),
        rest.len() == 0 || rest[0] == '\n',
    ensures
        send_output_token(first + seq!['\n'] + token + rest) == Some(token),
{
    lemma_split_on_first_two(first, token, rest, '\n');
}

} // verus!
