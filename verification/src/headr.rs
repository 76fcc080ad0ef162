//! The decisions of a `head`: how its options are read, what it takes
//! from each file, and what it prints around that.

use crate::text::{chars_of, decimal_value, is_digit, is_number};
use vstd::prelude::*;
use vstd::string::*;

verus! {

/// A text without the plus sign at its front, if it has one.
pub open spec fn unsigned(text: Seq<char>) -> Seq<char> {
    if text.len() > 0 && text[0] == '+' {
        text.skip(1)
    } else {
        text
    }
}

/// The positive number that a text writes, if it writes one that fits the
/// machine word: decimal digits, with or without one plus sign before
/// them, whose value is neither zero nor too large.
pub open spec fn positive_value(text: Seq<char>) -> Option<nat> {
    let digits = unsigned(text);
    if is_number(digits) && 0 < decimal_value(digits) <= usize::MAX {
        Some(decimal_value(digits))
    } else {
        None
    }
}

/// The digits at the front of a number write no more than the whole.
proof fn lemma_decimal_prefix(digits: Seq<char>, i: int)
    requires
        0 <= i <= digits.len(),
        forall|j: int| 0 <= j < digits.len() ==> is_digit(#[trigger] digits[j]),
    ensures
        decimal_value(digits.take(i)) <= decimal_value(digits),
    decreases digits.len(),
{
    if i == digits.len() {
        assert(digits.take(i) =~= digits);
    } else {
        let front = digits.drop_last();
        assert(digits.take(i) =~= front.take(i));
        assert forall|j: int| 0 <= j < front.len() implies is_digit(#[trigger] front[j]) by {
            assert(front[j] == digits[j]);
        }
        lemma_decimal_prefix(front, i);
        assert(is_digit(digits[digits.len() - 1]));
    }
}

/// Reads a positive number. Where the text writes none, the text itself
/// comes back as the error.
pub fn parse_positive_int(val: &str) -> (parsed: Result<usize, String>)
    ensures
        match parsed {
            Ok(n) => positive_value(val@) == Some(n as nat),
            Err(e) => positive_value(val@) is None && e@ == val@,
        },
{
    let chars = chars_of(val);
    let start: usize = if chars.len() > 0 && chars[0] == '+' {
        1
    } else {
        0
    };
    let ghost digits = unsigned(val@);
    assert(digits =~= chars@.skip(start as int));
    if start == chars.len() {
        return Err(val.to_owned());
    }
    let mut n: usize = 0;
    let mut i: usize = start;
    assert(digits.take(0) =~= Seq::<char>::empty());
    while i < chars.len()
        invariant
            start <= i <= chars@.len(),
            chars@ == val@,
            digits == chars@.skip(start as int),
            digits == unsigned(val@),
            forall|j: int| 0 <= j < i - start ==> is_digit(#[trigger] digits[j]),
            n == decimal_value(digits.take(i - start)),
        decreases chars@.len() - i,
    {
        let c = chars[i];
        if c < '0' || c > '9' {
            assert(!is_digit(digits[i - start]));
            return Err(val.to_owned());
        }
        let d: usize = (c as u32 - '0' as u32) as usize;
        let ghost upto = digits.take(i - start + 1);
        proof {
            assert(upto.drop_last() =~= digits.take(i - start));
            assert(upto.last() == c);
            assert(decimal_value(upto) == n * 10 + d);
            if is_number(digits) {
                lemma_decimal_prefix(digits, i - start + 1);
            }
        }
        let tens = match n.checked_mul(10) {
            Some(tens) => tens,
            None => {
                return Err(val.to_owned());
            },
        };
        n = match tens.checked_add(d) {
            Some(sum) => sum,
            None => {
                return Err(val.to_owned());
            },
        };
        i += 1;
    }
    assert(digits.take(i - start) =~= digits);
    if n == 0 {
        return Err(val.to_owned());
    }
    Ok(n)
}

/// What the command line asked for.
#[derive(Debug)]
pub struct Config {
    /// The files to print from, in order; `-` stands for standard input.
    pub files: Vec<String>,
    /// How many lines to print of each file.
    pub lines: usize,
    /// How many bytes to print of each file, in place of lines.
    pub bytes: Option<usize>,
}

/// How much of a file is printed.
#[derive(Debug, PartialEq, Eq, Structural)]
pub enum Amount {
    /// The first bytes, up to this many.
    Bytes(usize),
    /// The first lines, up to this many.
    Lines(usize),
}

/// What is printed for one file, if it can be opened.
#[derive(Debug)]
pub struct Section {
    /// The name of the file.
    pub file: String,
    /// The line that goes before the file's text.
    pub header: Option<String>,
    /// How much of the file's text is printed.
    pub amount: Amount,
    /// Whether an empty line follows the file's text.
    pub blank_after: bool,
}

/// The message for a line count that is no positive number.
pub open spec fn illegal_lines_text(val: Seq<char>) -> Seq<char> {
    "illegal line count -- "@ + val
}

/// The message for a byte count that is no positive number.
pub open spec fn illegal_bytes_text(val: Seq<char>) -> Seq<char> {
    "illegal byte count -- "@ + val
}

/// The line that goes before the text of a file.
pub open spec fn header_text(file: Seq<char>) -> Seq<char> {
    "==> "@ + file + " <=="@
}

impl Config {
    /// Reads the options: the files, the text of the line count, and the
    /// text of the byte count where one was given. Each count has to be a
    /// positive number; the line count is looked at first.
    pub fn new(files: Vec<String>, lines: &str, bytes: Option<&str>) -> (made: Result<
        Config,
        String,
    >)
        ensures
            match made {
                Ok(config) => {
                    &&& config.files == files
                    &&& positive_value(lines@) == Some(config.lines as nat)
                    &&& match bytes {
                        Some(b) => config.bytes matches Some(n) && positive_value(b@) == Some(
                            n as nat,
                        ),
                        None => config.bytes is None,
                    }
                },
                Err(e) => if positive_value(lines@) is None {
                    e@ == illegal_lines_text(lines@)
                } else {
                    bytes matches Some(b) && positive_value(b@) is None && e@
                        == illegal_bytes_text(b@)
                },
            },
    {
        let line_count = match parse_positive_int(lines) {
            Ok(n) => n,
            Err(val) => {
                let mut e = String::from_str("illegal line count -- ");
                e.append(val.as_str());
                return Err(e);
            },
        };
        let byte_count = match bytes {
            Some(b) => match parse_positive_int(b) {
                Ok(n) => Some(n),
                Err(val) => {
                    let mut e = String::from_str("illegal byte count -- ");
                    e.append(val.as_str());
                    return Err(e);
                },
            },
            None => None,
        };
        Ok(Config { files, lines: line_count, bytes: byte_count })
    }

    /// How much of each file is printed: the byte count where one was
    /// given, the line count otherwise.
    pub open spec fn amount(&self) -> Amount {
        match self.bytes {
            Some(b) => Amount::Bytes(b),
            None => Amount::Lines(self.lines),
        }
    }

    /// What is printed for the file with the given number. With more than
    /// one file, each has a header, and an empty line follows each but the
    /// last.
    pub open spec fn is_section(&self, file_num: int, section: Section) -> bool {
        &&& section.file@ == self.files[file_num]@
        &&& match section.header {
            Some(h) => self.files.len() > 1 && h@ == header_text(self.files[file_num]@),
            None => self.files.len() <= 1,
        }
        &&& section.amount == self.amount()
        &&& section.blank_after == (self.files.len() > 1 && file_num < self.files.len() - 1)
    }

    /// What is printed for each file, in the order of the files.
    pub fn plan(&self) -> (sections: Vec<Section>)
        ensures
            sections@.len() == self.files@.len(),
            forall|i: int| 0 <= i < sections@.len() ==> self.is_section(i, #[trigger] sections@[i]),
    {
        let count = self.files.len();
        let mut sections: Vec<Section> = Vec::new();
        let mut i: usize = 0;
        while i < count
            invariant
                i <= count == self.files@.len(),
                sections@.len() == i,
                forall|j: int| 0 <= j < i ==> self.is_section(j, #[trigger] sections@[j]),
            decreases count - i,
        {
            let file = self.files[i].clone();
            let header = if count > 1 {
                let mut h = String::from_str("==> ");
                h.append(file.as_str());
                h.append(" <==");
                Some(h)
            } else {
                None
            };
            let amount = match self.bytes {
                Some(b) => Amount::Bytes(b),
                None => Amount::Lines(self.lines),
            };
            let blank_after = count > 1 && i < count - 1;
            sections.push(Section { file, header, amount, blank_after });
            i += 1;
        }
        sections
    }
}

} // verus!
