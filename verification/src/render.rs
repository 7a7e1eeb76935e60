//! The written form of a dialog line, and the proof that reading it gives
//! the line back.

use crate::dialog::{
    braces_matched, field, field_count, optional_i32, optional_text, optional_usize, parse_line,
    LineModel,
};
use crate::text::{
    all_digits, decimal_value, is_digit, is_trimmed, lemma_trim_of_trimmed, parse_i32,
    parse_signed, parse_unsigned, parse_usize, positions, trim,
};
use vstd::prelude::*;

verus! {

/// The digit that stands for `d`.
pub open spec fn digit_char(d: nat) -> char {
    ('0' as nat + d) as char
}

/// The digits of `n` in base ten, without leading zeros.
pub open spec fn decimal(n: nat) -> Seq<char>
    decreases n,
{
    if n < 10 {
        seq![digit_char(n)]
    } else {
        decimal(n / 10).push(digit_char(n % 10))
    }
}

/// The digits of `v` in base ten, after a `-` where `v` is negative.
pub open spec fn signed_decimal(v: int) -> Seq<char> {
    if v < 0 {
        seq!['-'] + decimal((-v) as nat)
    } else {
        decimal(v as nat)
    }
}

/// `content` between braces.
pub open spec fn braced(content: Seq<char>) -> Seq<char> {
    seq!['{'] + content + seq!['}']
}

/// `fields`, each between braces, one after the other.
pub open spec fn written_fields(fields: Seq<Seq<char>>) -> Seq<char>
    decreases fields.len(),
{
    if fields.len() == 0 {
        Seq::empty()
    } else {
        written_fields(fields.drop_last()) + braced(fields.last())
    }
}

/// The content of an optional text field: nothing where the text is absent.
pub open spec fn optional(text: Option<Seq<char>>) -> Seq<char> {
    match text {
        Some(t) => t,
        None => Seq::empty(),
    }
}

/// The contents of the seven fields of `line`.
pub open spec fn fields_of(line: LineModel) -> Seq<Seq<char>> {
    seq![
        decimal(line.number as nat),
        line.text,
        optional(line.female_text),
        match line.intelligence {
            Some(v) => signed_decimal(v as int),
            None => Seq::empty(),
        },
        optional(line.test),
        match line.response {
            Some(n) => decimal(n as nat),
            None => Seq::empty(),
        },
        optional(line.result),
    ]
}

/// The written form of `line`.
pub open spec fn written(line: LineModel) -> Seq<char> {
    written_fields(fields_of(line))
}

/// Whether `s` holds no brace.
pub open spec fn brace_free(s: Seq<char>) -> bool {
    forall|i: int| 0 <= i < s.len() ==> #[trigger] s[i] != '{' && s[i] != '}'
}

/// Whether `s` can stand in a field as it is: it holds no brace and has no
/// white space at either end.
pub open spec fn plain(s: Seq<char>) -> bool {
    brace_free(s) && is_trimmed(s)
}

/// Whether an optional text can stand in a field as it is, and is read back
/// as present where it is present.
pub open spec fn plain_if_present(text: Option<Seq<char>>) -> bool {
    text matches Some(t) ==> t.len() > 0 && plain(t)
}

/// Whether `line` is one that a script can hold: its texts can stand in
/// their fields as they are, and it carries no choices.
pub open spec fn writable(line: LineModel) -> bool {
    &&& plain(line.text)
    &&& plain_if_present(line.female_text)
    &&& plain_if_present(line.test)
    &&& plain_if_present(line.result)
    &&& line.choices.len() == 0
}

/// `positions`, each moved by `by`.
pub open spec fn shifted(at: Seq<int>, by: int) -> Seq<int> {
    at.map_values(|p: int| p + by)
}

/// Where a character occurs in two texts joined: where it occurs in the
/// first, then where it occurs in the second, moved by the length of the
/// first.
pub proof fn lemma_positions_of_joined(a: Seq<char>, b: Seq<char>, c: char)
    ensures
        positions(a + b, c) == positions(a, c) + shifted(positions(b, c), a.len() as int),
    decreases b.len(),
{
    if b.len() == 0 {
        assert(a + b =~= a);
        assert(positions(a, c) + shifted(positions(b, c), a.len() as int) =~= positions(a, c));
    } else {
        assert((a + b).drop_last() =~= a + b.drop_last());
        lemma_positions_of_joined(a, b.drop_last(), c);
        assert(positions(a + b, c) =~= positions(a, c) + shifted(positions(b, c), a.len() as int));
    }
}

/// A character that does not occur in a text occurs at no position.
pub proof fn lemma_positions_of_absent(s: Seq<char>, c: char)
    requires
        forall|i: int| 0 <= i < s.len() ==> s[i] != c,
    ensures
        positions(s, c) == Seq::<int>::empty(),
    decreases s.len(),
{
    if s.len() > 0 {
        lemma_positions_of_absent(s.drop_last(), c);
    }
}

/// A field without braces of its own has one opening brace, in front, and
/// one closing brace, at the end.
pub proof fn lemma_positions_in_braced(content: Seq<char>)
    requires
        brace_free(content),
    ensures
        positions(braced(content), '{') == seq![0int],
        positions(braced(content), '}') == seq![content.len() as int + 1],
{
    let open = seq!['{'];
    let close = seq!['}'];
    assert(open.drop_last() =~= Seq::<char>::empty());
    assert(close.drop_last() =~= Seq::<char>::empty());
    assert(positions(Seq::<char>::empty(), '{') =~= Seq::<int>::empty());
    assert(positions(Seq::<char>::empty(), '}') =~= Seq::<int>::empty());
    assert(positions(open, '{') =~= seq![0int]);
    assert(positions(open, '}') =~= Seq::<int>::empty());
    assert(positions(close, '{') =~= Seq::<int>::empty());
    assert(positions(close, '}') =~= seq![0int]);
    lemma_positions_of_absent(content, '{');
    lemma_positions_of_absent(content, '}');
    lemma_positions_of_joined(open, content, '{');
    lemma_positions_of_joined(open, content, '}');
    lemma_positions_of_joined(open + content, close, '{');
    lemma_positions_of_joined(open + content, close, '}');
    assert(positions(braced(content), '{') =~= seq![0int]);
    assert(positions(braced(content), '}') =~= seq![content.len() as int + 1]);
}

/// Whether the braces of rank `i` in `s` enclose `content`: the opening one
/// comes first, and `content` is what stands between the two.
pub open spec fn encloses(s: Seq<char>, i: int, content: Seq<char>) -> bool {
    let from = positions(s, '{')[i];
    let to = positions(s, '}')[i];
    0 <= from < to < s.len() && s.subrange(from + 1, to) == content
}

/// In fields written one after the other, none of which holds a brace of
/// its own, the braces of each rank enclose the field of that rank.
pub proof fn lemma_written_fields(fields: Seq<Seq<char>>)
    requires
        forall|i: int| 0 <= i < fields.len() ==> brace_free(#[trigger] fields[i]),
    ensures
        positions(written_fields(fields), '{').len() == fields.len(),
        positions(written_fields(fields), '}').len() == fields.len(),
        forall|i: int|
            0 <= i < fields.len() ==> #[trigger] encloses(written_fields(fields), i, fields[i]),
    decreases fields.len(),
{
    if fields.len() > 0 {
        let s = written_fields(fields);
        let before = written_fields(fields.drop_last());
        let content = fields.last();
        let n = fields.len() - 1;
        lemma_written_fields(fields.drop_last());
        lemma_positions_in_braced(content);
        lemma_positions_of_joined(before, braced(content), '{');
        lemma_positions_of_joined(before, braced(content), '}');
        assert(positions(s, '{') =~= positions(before, '{').push(before.len() as int));
        assert(positions(s, '}') =~= positions(before, '}').push(
            before.len() as int + content.len() + 1,
        ));
        assert forall|i: int| 0 <= i < fields.len() implies #[trigger] encloses(
            s,
            i,
            fields[i],
        ) by {
            let from = positions(s, '{')[i];
            let to = positions(s, '}')[i];
            if i < n {
                assert(encloses(before, i, fields.drop_last()[i]));
                assert(from == positions(before, '{')[i]);
                assert(to == positions(before, '}')[i]);
                assert(fields.drop_last()[i] == fields[i]);
                assert(s.subrange(from + 1, to) =~= before.subrange(from + 1, to));
            } else {
                assert(s.subrange(from + 1, to) =~= content);
            }
        }
    }
}

/// A line that is written as seven fields without braces of their own, and
/// after them anything at all, is read as those seven fields, each trimmed.
pub proof fn lemma_fields_are_read_back(fields: Seq<Seq<char>>, label: Seq<char>)
    requires
        fields.len() == 7,
        forall|i: int| 0 <= i < fields.len() ==> brace_free(#[trigger] fields[i]),
    ensures
        field_count(written_fields(fields) + label) == 7,
        braces_matched(written_fields(fields) + label),
        forall|i: int|
            0 <= i < 7 ==> #[trigger] field(written_fields(fields) + label, i) == trim(fields[i]),
{
    let s = written_fields(fields);
    let line = s + label;
    lemma_written_fields(fields);
    lemma_positions_of_joined(s, label, '{');
    lemma_positions_of_joined(s, label, '}');
    assert forall|i: int| 0 <= i < 7 implies positions(line, '{')[i] == positions(s, '{')[i]
        && positions(line, '}')[i] == positions(s, '}')[i] && positions(line, '{')[i] < positions(
        line,
        '}',
    )[i] && #[trigger] field(line, i) == trim(fields[i]) by {
        let from = positions(s, '{')[i];
        let to = positions(s, '}')[i];
        assert(encloses(s, i, fields[i]));
        assert(line.subrange(from + 1, to) =~= s.subrange(from + 1, to));
    }
    assert forall|i: int| 0 <= i < field_count(line) implies #[trigger] positions(line, '{')[i]
        < positions(line, '}')[i] by {
        assert(field(line, i) == trim(fields[i]));
    }
}

/// The digits of a number are digits, and they denote the number.
pub proof fn lemma_decimal(n: nat)
    ensures
        decimal(n).len() > 0,
        all_digits(decimal(n)),
        decimal_value(decimal(n)) == n,
    decreases n,
{
    if n < 10 {
        assert(decimal(n).drop_last() =~= Seq::<char>::empty());
        assert(decimal_value(decimal(n).drop_last()) == 0);
    } else {
        lemma_decimal(n / 10);
        assert(decimal(n).drop_last() =~= decimal(n / 10));
        assert(is_digit(digit_char(n % 10)));
    }
}

/// The digits of a number can stand in a field as they are.
pub proof fn lemma_digits_are_plain(s: Seq<char>)
    requires
        all_digits(s),
    ensures
        plain(s),
{
    assert forall|i: int| 0 <= i < s.len() implies #[trigger] s[i] != '{' && s[i] != '}' by {
        assert(is_digit(s[i]));
    }
    if s.len() > 0 {
        assert(is_digit(s[0]));
        assert(is_digit(s.last()));
    }
}

/// An unsigned number that fits a `usize` is read back from its digits.
pub proof fn lemma_unsigned_is_read_back(n: usize)
    ensures
        plain(decimal(n as nat)),
        parse_usize(decimal(n as nat)) == Some(n),
{
    lemma_decimal(n as nat);
    lemma_digits_are_plain(decimal(n as nat));
    assert(is_digit(decimal(n as nat)[0]));
}

/// A signed number that fits an `i32` is read back from its sign and
/// digits.
pub proof fn lemma_signed_is_read_back(v: i32)
    ensures
        plain(signed_decimal(v as int)),
        parse_i32(signed_decimal(v as int)) == Some(v),
{
    let s = signed_decimal(v as int);
    if v < 0 {
        let digits = decimal((-v) as nat);
        lemma_decimal((-v) as nat);
        lemma_digits_are_plain(digits);
        assert(s.skip(1) =~= digits);
        assert(s.last() == digits.last());
        assert forall|i: int| 0 <= i < s.len() implies #[trigger] s[i] != '{' && s[i] != '}' by {
            if i > 0 {
                assert(s[i] == digits[i - 1]);
                assert(is_digit(digits[i - 1]));
            }
        }
        assert(is_digit(digits.last()));
        assert(parse_signed(s) == Some(v as int));
    } else {
        lemma_decimal(v as nat);
        lemma_digits_are_plain(s);
        assert(is_digit(s[0]));
        assert(parse_unsigned(s) == Some(v as nat));
    }
}

/// Reading the written form of a line gives the line back, whatever label
/// follows the seventh field.
pub proof fn lemma_written_line_is_read_back(line: LineModel, label: Seq<char>)
    requires
        writable(line),
    ensures
        parse_line(written(line) + label) == Ok::<LineModel, crate::dialog::LineFault>(line),
{
    let fields = fields_of(line);
    let s = written(line) + label;
    lemma_unsigned_is_read_back(line.number);
    if line.intelligence is Some {
        lemma_signed_is_read_back(line.intelligence->0);
    }
    if line.response is Some {
        lemma_unsigned_is_read_back(line.response->0);
    }
    assert forall|i: int| 0 <= i < fields.len() implies brace_free(#[trigger] fields[i])
        && is_trimmed(fields[i]) by {}
    lemma_fields_are_read_back(fields, label);
    assert forall|i: int| 0 <= i < 7 implies #[trigger] field(s, i) == fields[i] by {
        lemma_trim_of_trimmed(fields[i]);
    }
    assert(field(s, 0) == fields[0]);
    assert(field(s, 1) == fields[1]);
    assert(field(s, 2) == fields[2]);
    assert(field(s, 3) == fields[3]);
    assert(field(s, 4) == fields[4]);
    assert(field(s, 5) == fields[5]);
    assert(field(s, 6) == fields[6]);
    assert(optional_text(s, 2) == line.female_text);
    assert(optional_i32(s, 3) == line.intelligence);
    assert(optional_text(s, 4) == line.test);
    assert(optional_usize(s, 5) == line.response);
    assert(optional_text(s, 6) == line.result);
    assert(line.choices =~= Seq::<usize>::empty());
}

} // verus!
