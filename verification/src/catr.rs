//! The decisions of a `cat`: which lines get a number, and how a numbered
//! line reads.

use crate::text::{chars_of, decimal, decimal_digits, right_aligned};
use vstd::prelude::*;
use vstd::string::*;

verus! {

/// What the command line asked for.
#[derive(Debug)]
pub struct Config {
    /// The files to print, in order; `-` stands for standard input.
    pub files: Vec<String>,
    /// Number every line.
    pub number_lines: bool,
    /// Number the lines that are not blank.
    pub number_nonblank_lines: bool,
}

/// A white-space character, as Unicode lists them under `White_Space`.
pub open spec fn is_whitespace(c: char) -> bool {
    let u = c as u32;
    ||| 0x09 <= u <= 0x0D
    ||| u == 0x20
    ||| u == 0x85
    ||| u == 0xA0
    ||| u == 0x1680
    ||| 0x2000 <= u <= 0x200A
    ||| u == 0x2028
    ||| u == 0x2029
    ||| u == 0x202F
    ||| u == 0x205F
    ||| u == 0x3000
}

/// A line that holds nothing but white space.
pub open spec fn is_blank(line: Seq<char>) -> bool {
    forall|i: int| 0 <= i < line.len() ==> is_whitespace(#[trigger] line[i])
}

/// The width of the field that holds a line's number.
pub const NUMBER_WIDTH: usize = 6;

/// A line with its number in front: the number at the right end of its
/// field, a tab, the line.
pub open spec fn numbered_text(number: nat, line: Seq<char>) -> Seq<char> {
    right_aligned(decimal(number), NUMBER_WIDTH as nat) + seq!['\t'] + line
}

/// Whether a character is white space.
pub fn whitespace(c: char) -> (white: bool)
    ensures
        white == is_whitespace(c),
{
    let u: u32 = c as u32;
    (0x09 <= u && u <= 0x0D) || u == 0x20 || u == 0x85 || u == 0xA0 || u == 0x1680 || (0x2000 <= u
        && u <= 0x200A) || u == 0x2028 || u == 0x2029 || u == 0x202F || u == 0x205F || u == 0x3000
}

/// Whether a line holds nothing but white space.
pub fn blank(line: &str) -> (empty: bool)
    ensures
        empty == is_blank(line@),
{
    let chars = chars_of(line);
    let mut i: usize = 0;
    while i < chars.len()
        invariant
            i <= chars@.len(),
            chars@ == line@,
            forall|j: int| 0 <= j < i ==> is_whitespace(#[trigger] chars@[j]),
        decreases chars@.len() - i,
    {
        if !whitespace(chars[i]) {
            return false;
        }
        i += 1;
    }
    true
}

impl Config {
    /// Whether a line gets a number: every line does where all lines are
    /// numbered, and a line that is not blank does where those are.
    pub open spec fn numbers(&self, line: Seq<char>) -> bool {
        self.number_lines || (self.number_nonblank_lines && !is_blank(line))
    }
}

/// The count of numbered lines within one file.
pub struct Numbering {
    next: usize,
}

impl Numbering {
    /// The number that the next numbered line gets.
    pub closed spec fn next(&self) -> nat {
        self.next as nat
    }

    /// The number that the next numbered line gets.
    pub fn number(&self) -> (n: usize)
        ensures
            n == self.next(),
    {
        self.next
    }

    /// The count at the start of a file: the first numbered line is line 1.
    pub fn new() -> (start: Numbering)
        ensures
            start.next() == 1,
    {
        Numbering { next: 1 }
    }

    /// The text to print for the next line of the file. A line that gets a
    /// number is printed behind it, and the count goes up by one; any
    /// other line is printed as it is, and the count stays.
    pub fn line(&mut self, config: &Config, line: &str) -> (printed: String)
        requires
            old(self).next() < usize::MAX,
        ensures
            config.numbers(line@) ==> printed@ == numbered_text(old(self).next(), line@)
                && final(self).next() == old(self).next() + 1,
            !config.numbers(line@) ==> printed@ == line@ && final(self).next() == old(
                self,
            ).next(),
    {
        if config.number_lines || (config.number_nonblank_lines && !blank(line)) {
            let digits = decimal_digits(self.next);
            let mut printed = String::new();
            let mut pad: usize = digits.len();
            while pad < NUMBER_WIDTH
                invariant
                    digits@.len() <= pad,
                    pad <= NUMBER_WIDTH || pad == digits@.len(),
                    printed@ == Seq::new((pad - digits@.len()) as nat, |i: int| ' '),
                decreases NUMBER_WIDTH - pad,
            {
                printed.push(' ');
                pad += 1;
                assert(printed@ =~= Seq::new((pad - digits@.len()) as nat, |i: int| ' '));
            }
            let mut i: usize = 0;
            let ghost blanks = printed@;
            while i < digits.len()
                invariant
                    i <= digits@.len(),
                    printed@ == blanks + digits@.take(i as int),
                decreases digits@.len() - i,
            {
                printed.push(digits[i]);
                assert(digits@.take(i + 1) =~= digits@.take(i as int).push(digits@[i as int]));
                i += 1;
            }
            assert(digits@.take(i as int) =~= digits@);
            assert(blanks + digits@ =~= right_aligned(digits@, NUMBER_WIDTH as nat));
            printed.push('\t');
            printed.append(line);
            self.next = self.next + 1;
            printed
        } else {
            String::from_str(line)
        }
    }
}

} // verus!
