//! The line record and the parser that reads one script line into it.
//!
//! A script line holds up to seven fields, each between braces:
//! `{number}{text}{female_text}{intelligence}{test}{response}{result}`.
//! Whatever follows the seventh field is a label for human readers.

use crate::text::{
    chars_of, find_all, is_trimmed, lemma_positions_sound, lemma_trim_is_trimmed, parse_i32,
    parse_usize, positions, scan_i32, scan_usize, slice_of, trim, trim_range,
};
use vstd::math::min;
use vstd::prelude::*;

verus! {

/// How the player is addressed.
#[derive(Debug, Clone, Copy, PartialEq, Eq, Structural)]
pub enum Gender {
    Male,
    Female,
}

/// One line of a dialog script.
///
/// A line without a `response` is something the actor says; a line with one
/// is a reply that the player may choose, and `response` is the line that the
/// actor answers with (0 ends the conversation).
#[derive(Debug, Clone)]
pub struct DialogLine {
    pub number: usize,
    pub text: String,
    pub female_text: Option<String>,
    pub intelligence: Option<i32>,
    pub test: Option<String>,
    pub response: Option<usize>,
    pub result: Option<String>,
    pub choices: Vec<usize>,
}

/// What a `DialogLine` holds, as mathematical values.
pub struct LineModel {
    pub number: usize,
    pub text: Seq<char>,
    pub female_text: Option<Seq<char>>,
    pub intelligence: Option<i32>,
    pub test: Option<Seq<char>>,
    pub response: Option<usize>,
    pub result: Option<Seq<char>>,
    pub choices: Seq<usize>,
}

/// The characters of an optional text.
pub open spec fn text_of(t: Option<String>) -> Option<Seq<char>> {
    match t {
        Some(s) => Some(s@),
        None => None,
    }
}

impl View for DialogLine {
    type V = LineModel;

    open spec fn view(&self) -> LineModel {
        LineModel {
            number: self.number,
            text: self.text@,
            female_text: text_of(self.female_text),
            intelligence: self.intelligence,
            test: text_of(self.test),
            response: self.response,
            result: text_of(self.result),
            choices: self.choices@,
        }
    }
}

impl LineModel {
    /// Whether the line is something the actor says.
    pub open spec fn is_prompt(self) -> bool {
        self.response is None
    }

    /// Whether the line is a reply that the player may choose.
    pub open spec fn is_choice(self) -> bool {
        self.response is Some
    }

    /// The text shown for the line to a player of the given gender.
    pub open spec fn display_text(self, gender: Gender) -> Seq<char> {
        match (gender, self.female_text) {
            (Gender::Female, Some(t)) => t,
            _ => self.text,
        }
    }
}

/// Why a script line cannot be read.
#[derive(Debug, Clone, Copy, PartialEq, Eq, Structural)]
pub enum LineFault {
    /// One of the closing braces comes before the opening brace it belongs to.
    UnmatchedBrace,
    /// The line holds no field at all.
    MissingNumber,
    /// The first field is not an unsigned decimal number.
    InvalidNumber,
    /// The line holds one field only.
    MissingText,
}

/// The number of fields that a line holds at most.
pub const FIELDS: usize = 7;

/// The number of fields that are read from `s`: an opening brace and the
/// closing brace with the same rank make one field.
pub open spec fn field_count(s: Seq<char>) -> nat {
    let opened = positions(s, '{').len() as int;
    let closed = positions(s, '}').len() as int;
    min(min(opened, closed), FIELDS as int) as nat
}

/// Whether each field of `s` opens before it closes.
pub open spec fn braces_matched(s: Seq<char>) -> bool {
    forall|i: int|
        0 <= i < field_count(s) ==> #[trigger] positions(s, '{')[i] < positions(s, '}')[i]
}

/// The field of rank `i`: what stands between its braces, trimmed.
pub open spec fn field(s: Seq<char>, i: int) -> Seq<char> {
    trim(s.subrange(positions(s, '{')[i] + 1, positions(s, '}')[i]))
}

/// An optional text field: absent where the line has no such field or the
/// field is empty.
pub open spec fn optional_text(s: Seq<char>, i: int) -> Option<Seq<char>> {
    if i < field_count(s) && field(s, i).len() > 0 {
        Some(field(s, i))
    } else {
        None
    }
}

/// An optional text field is absent where the line has no such field or
/// nothing but white space stands in it. Where it is present, it is what
/// stands in the field without the white space at either end, and so not
/// empty.
pub proof fn lemma_optional_text(s: Seq<char>, i: int)
    requires
        0 <= i,
    ensures
        optional_text(s, i) is None <==> i >= field_count(s) || field(s, i).len() == 0,
        optional_text(s, i) matches Some(text) ==> text == field(s, i) && text.len() > 0
            && is_trimmed(text) && trim(text) == text,
{
    lemma_trim_is_trimmed(s.subrange(positions(s, '{')[i] + 1, positions(s, '}')[i]));
}

/// An optional signed number: absent where the line has no such field or
/// the field is no number.
pub open spec fn optional_i32(s: Seq<char>, i: int) -> Option<i32> {
    if i < field_count(s) {
        parse_i32(field(s, i))
    } else {
        None
    }
}

/// An optional unsigned number: absent where the line has no such field or
/// the field is no number.
pub open spec fn optional_usize(s: Seq<char>, i: int) -> Option<usize> {
    if i < field_count(s) {
        parse_usize(field(s, i))
    } else {
        None
    }
}

/// What a script line denotes.
pub open spec fn parse_line(s: Seq<char>) -> Result<LineModel, LineFault> {
    if !braces_matched(s) {
        Err(LineFault::UnmatchedBrace)
    } else if field_count(s) < 1 {
        Err(LineFault::MissingNumber)
    } else if parse_usize(field(s, 0)) is None {
        Err(LineFault::InvalidNumber)
    } else if field_count(s) < 2 {
        Err(LineFault::MissingText)
    } else {
        Ok(
            LineModel {
                number: parse_usize(field(s, 0))->0,
                text: field(s, 1),
                female_text: optional_text(s, 2),
                intelligence: optional_i32(s, 3),
                test: optional_text(s, 4),
                response: optional_usize(s, 5),
                result: optional_text(s, 6),
                choices: Seq::empty(),
            },
        )
    }
}

impl LineFault {
    /// The words that describe the fault.
    pub open spec fn text(self) -> Seq<char> {
        match self {
            LineFault::UnmatchedBrace => "a closing brace comes before its opening brace"@,
            LineFault::MissingNumber => "`number` field is missing"@,
            LineFault::InvalidNumber => "`number` field must be a valid usize"@,
            LineFault::MissingText => "`text` field is missing"@,
        }
    }

    /// Describes the fault in words.
    pub fn message(&self) -> (r: String)
        ensures
            r@ == self.text(),
    {
        match self {
            LineFault::UnmatchedBrace => "a closing brace comes before its opening brace".to_owned(),
            LineFault::MissingNumber => "`number` field is missing".to_owned(),
            LineFault::InvalidNumber => "`number` field must be a valid usize".to_owned(),
            LineFault::MissingText => "`text` field is missing".to_owned(),
        }
    }
}

/// The braces of a line: its characters and where the braces stand.
struct Scan {
    chars: Vec<char>,
    opens: Vec<usize>,
    closes: Vec<usize>,
    count: usize,
}

impl Scan {
    /// Whether the scan is that of `s`, and the braces of `s` match.
    spec fn of(self, s: Seq<char>) -> bool {
        &&& self.chars@ == s
        &&& self.opens@.map_values(|p: usize| p as int) == positions(s, '{')
        &&& self.closes@.map_values(|p: usize| p as int) == positions(s, '}')
        &&& self.count == field_count(s)
        &&& braces_matched(s)
    }

    /// Finds the braces of `line`, or `None` where they do not match.
    fn new(line: &str) -> (r: Option<Scan>)
        ensures
            r is Some <==> braces_matched(line@),
            r matches Some(scan) ==> scan.of(line@),
    {
        let chars = chars_of(line);
        let opens = find_all(&chars, '{');
        let closes = find_all(&chars, '}');
        let count = if opens.len() <= closes.len() && opens.len() <= FIELDS {
            opens.len()
        } else if closes.len() <= FIELDS {
            closes.len()
        } else {
            FIELDS
        };
        let ghost open_at = positions(line@, '{');
        let ghost close_at = positions(line@, '}');
        let mut i: usize = 0;
        while i < count
            invariant
                i <= count,
                count <= opens.len(),
                count <= closes.len(),
                count == field_count(line@),
                open_at == positions(line@, '{'),
                close_at == positions(line@, '}'),
                opens@.map_values(|p: usize| p as int) == open_at,
                closes@.map_values(|p: usize| p as int) == close_at,
                forall|j: int| 0 <= j < i ==> #[trigger] open_at[j] < close_at[j],
            decreases count - i,
        {
            assert(opens@.map_values(|p: usize| p as int)[i as int] == opens[i as int]);
            assert(closes@.map_values(|p: usize| p as int)[i as int] == closes[i as int]);
            if opens[i] >= closes[i] {
                assert(!(open_at[i as int] < close_at[i as int]));
                return None;
            }
            i = i + 1;
        }
        Some(Scan { chars, opens, closes, count })
    }

    /// The bounds of the field of rank `i`.
    fn field(&self, i: usize, Ghost(s): Ghost<Seq<char>>) -> (r: (usize, usize))
        requires
            self.of(s),
            i < self.count,
        ensures
            r.0 <= r.1 <= s.len(),
            s.subrange(r.0 as int, r.1 as int) == field(s, i as int),
    {
        proof {
            lemma_positions_sound(s, '{');
            lemma_positions_sound(s, '}');
            assert(self.opens@.map_values(|p: usize| p as int)[i as int] == self.opens[i as int]);
            assert(self.closes@.map_values(|p: usize| p as int)[i as int] == self.closes[i as int]);
            assert(positions(s, '{')[i as int] < positions(s, '}')[i as int]);
        }
        trim_range(&self.chars, self.opens[i] + 1, self.closes[i])
    }

    /// The optional text field of rank `i`.
    fn optional_text(&self, line: &str, i: usize) -> (r: Option<String>)
        requires
            self.of(line@),
        ensures
            text_of(r) == optional_text(line@, i as int),
    {
        if i < self.count {
            let (from, to) = self.field(i, Ghost(line@));
            if from < to {
                Some(slice_of(line, from, to))
            } else {
                None
            }
        } else {
            None
        }
    }

    /// The optional signed number of rank `i`.
    fn optional_i32(&self, i: usize, Ghost(s): Ghost<Seq<char>>) -> (r: Option<i32>)
        requires
            self.of(s),
        ensures
            r == optional_i32(s, i as int),
    {
        if i < self.count {
            let (from, to) = self.field(i, Ghost(s));
            scan_i32(&self.chars, from, to)
        } else {
            None
        }
    }

    /// The optional unsigned number of rank `i`.
    fn optional_usize(&self, i: usize, Ghost(s): Ghost<Seq<char>>) -> (r: Option<usize>)
        requires
            self.of(s),
        ensures
            r == optional_usize(s, i as int),
    {
        if i < self.count {
            let (from, to) = self.field(i, Ghost(s));
            scan_usize(&self.chars, from, to)
        } else {
            None
        }
    }
}

impl DialogLine {
    /// A line with the given fields and no choices.
    pub fn new(
        number: usize,
        text: String,
        female_text: Option<String>,
        intelligence: Option<i32>,
        test: Option<String>,
        response: Option<usize>,
        result: Option<String>,
    ) -> (line: DialogLine)
        ensures
            line.number == number,
            line.text == text,
            line.female_text == female_text,
            line.intelligence == intelligence,
            line.test == test,
            line.response == response,
            line.result == result,
            line.choices@ == Seq::<usize>::empty(),
    {
        DialogLine {
            number,
            text,
            female_text,
            intelligence,
            test,
            response,
            result,
            choices: Vec::new(),
        }
    }

    /// Reads one script line.
    pub fn parse(value: &str) -> (r: Result<DialogLine, LineFault>)
        ensures
            match parse_line(value@) {
                Ok(model) => r matches Ok(line) && line@ == model,
                Err(fault) => r == Err::<DialogLine, LineFault>(fault),
            },
    {
        let scan = match Scan::new(value) {
            Some(scan) => scan,
            None => {
                return Err(LineFault::UnmatchedBrace);
            },
        };
        if scan.count < 1 {
            return Err(LineFault::MissingNumber);
        }
        let number = match scan.optional_usize(0, Ghost(value@)) {
            Some(number) => number,
            None => {
                return Err(LineFault::InvalidNumber);
            },
        };
        if scan.count < 2 {
            return Err(LineFault::MissingText);
        }
        let (from, to) = scan.field(1, Ghost(value@));
        Ok(
            DialogLine {
                number,
                text: slice_of(value, from, to),
                female_text: scan.optional_text(value, 2),
                intelligence: scan.optional_i32(3, Ghost(value@)),
                test: scan.optional_text(value, 4),
                response: scan.optional_usize(5, Ghost(value@)),
                result: scan.optional_text(value, 6),
                choices: Vec::new(),
            },
        )
    }

    /// Reads one script line, and describes in words why it cannot be read
    /// where it cannot.
    pub fn try_from(value: String) -> (r: Result<DialogLine, String>)
        ensures
            match parse_line(value@) {
                Ok(model) => r matches Ok(line) && line@ == model,
                Err(fault) => r matches Err(message) && message@ == fault.text(),
            },
    {
        match DialogLine::parse(value.as_str()) {
            Ok(line) => Ok(line),
            Err(fault) => Err(fault.message()),
        }
    }

    /// The text shown for the line to a player of the given gender.
    pub fn get_text(&self, gender: &Gender) -> (r: &str)
        ensures
            r@ == self@.display_text(*gender),
    {
        match gender {
            Gender::Male => self.text.as_str(),
            Gender::Female => match &self.female_text {
                Some(text) => text.as_str(),
                None => self.text.as_str(),
            },
        }
    }
}

} // verus!
