//! Character-level primitives shared by the parser and the engine.

use vstd::prelude::*;

verus! {

/// The characters that Unicode classes as white space (`White_Space`).
pub open spec fn is_white_space(c: char) -> bool {
    ||| '\u{9}' <= c <= '\u{D}'
    ||| c == ' '
    ||| c == '\u{85}'
    ||| c == '\u{A0}'
    ||| c == '\u{1680}'
    ||| '\u{2000}' <= c <= '\u{200A}'
    ||| c == '\u{2028}'
    ||| c == '\u{2029}'
    ||| c == '\u{202F}'
    ||| c == '\u{205F}'
    ||| c == '\u{3000}'
}

/// Decides whether `c` is white space.
pub fn white_space(c: char) -> (r: bool)
    ensures
        r == is_white_space(c),
{
    ('\u{9}' <= c && c <= '\u{D}') || c == ' ' || c == '\u{85}' || c == '\u{A0}' || c == '\u{1680}'
        || ('\u{2000}' <= c && c <= '\u{200A}') || c == '\u{2028}' || c == '\u{2029}' || c
        == '\u{202F}' || c == '\u{205F}' || c == '\u{3000}'
}

/// The characters of `s`, in order.
pub fn chars_of(s: &str) -> (v: Vec<char>)
    ensures
        v@ == s@,
{
    let mut v: Vec<char> = Vec::new();
    for c in it: s.chars()
        invariant
            v@ == it.seq().take(it.index()),
            it.seq() == s@,
    {
        v.push(c);
    }
    v
}

/// `s` without its leading white space.
pub open spec fn trim_start(s: Seq<char>) -> Seq<char>
    decreases s.len(),
{
    if s.len() > 0 && is_white_space(s[0]) {
        trim_start(s.skip(1))
    } else {
        s
    }
}

/// `s` without its trailing white space.
pub open spec fn trim_end(s: Seq<char>) -> Seq<char>
    decreases s.len(),
{
    if s.len() > 0 && is_white_space(s.last()) {
        trim_end(s.drop_last())
    } else {
        s
    }
}

/// `s` without leading and trailing white space.
pub open spec fn trim(s: Seq<char>) -> Seq<char> {
    trim_end(trim_start(s))
}

/// Whether `s` neither begins nor ends with white space.
pub open spec fn is_trimmed(s: Seq<char>) -> bool {
    s.len() > 0 ==> !is_white_space(s[0]) && !is_white_space(s.last())
}

/// Trimming leaves a text that has no white space at either end as it is.
pub proof fn lemma_trim_of_trimmed(s: Seq<char>)
    requires
        is_trimmed(s),
    ensures
        trim(s) == s,
{
}

/// What trimming returns has no white space at either end, and trimming it
/// again changes nothing.
pub proof fn lemma_trim_is_trimmed(s: Seq<char>)
    ensures
        is_trimmed(trim(s)),
        trim(trim(s)) == trim(s),
{
    lemma_trim_start_shape(s);
    lemma_trim_end_shape(trim_start(s));
    lemma_trim_of_trimmed(trim(s));
}

/// `trim_start` drops a prefix of white space and stops at the first
/// character that is none.
proof fn lemma_trim_start_shape(s: Seq<char>)
    ensures
        trim_start(s).len() <= s.len(),
        trim_start(s) == s.skip(s.len() - trim_start(s).len()),
        trim_start(s).len() > 0 ==> !is_white_space(trim_start(s)[0]),
    decreases s.len(),
{
    if s.len() > 0 && is_white_space(s[0]) {
        lemma_trim_start_shape(s.skip(1));
        let k = s.skip(1).len() - trim_start(s.skip(1)).len();
        assert(s.skip(1).skip(k) =~= s.skip(k + 1));
    } else {
        assert(s.skip(0) =~= s);
    }
}

/// `trim_end` drops a suffix of white space and stops at the last character
/// that is none.
proof fn lemma_trim_end_shape(s: Seq<char>)
    ensures
        trim_end(s).len() <= s.len(),
        trim_end(s) == s.take(trim_end(s).len() as int),
        trim_end(s).len() > 0 ==> !is_white_space(trim_end(s).last()),
    decreases s.len(),
{
    if s.len() > 0 && is_white_space(s.last()) {
        lemma_trim_end_shape(s.drop_last());
        let k = trim_end(s.drop_last()).len() as int;
        assert(s.drop_last().take(k) =~= s.take(k));
    } else {
        assert(s.take(s.len() as int) =~= s);
    }
}

/// The bounds of the trimmed part of `v[from..to]`.
pub fn trim_range(v: &Vec<char>, from: usize, to: usize) -> (r: (usize, usize))
    requires
        from <= to <= v.len(),
    ensures
        from <= r.0 <= r.1 <= to,
        v@.subrange(r.0 as int, r.1 as int) == trim(v@.subrange(from as int, to as int)),
{
    let mut a: usize = from;
    while a < to && white_space(v[a])
        invariant
            from <= a <= to <= v.len(),
            trim_start(v@.subrange(a as int, to as int)) == trim_start(
                v@.subrange(from as int, to as int),
            ),
        decreases to - a,
    {
        assert(v@.subrange(a as int, to as int).skip(1) =~= v@.subrange(a + 1, to as int));
        a = a + 1;
    }
    let mut b: usize = to;
    while a < b && white_space(v[b - 1])
        invariant
            a <= b <= to <= v.len(),
            trim_end(v@.subrange(a as int, b as int)) == trim_end(
                v@.subrange(a as int, to as int),
            ),
        decreases b - a,
    {
        assert(v@.subrange(a as int, b as int).drop_last() =~= v@.subrange(a as int, b - 1));
        b = b - 1;
    }
    (a, b)
}

/// The indices at which `c` occurs in `s`, in increasing order.
pub open spec fn positions(s: Seq<char>, c: char) -> Seq<int>
    decreases s.len(),
{
    if s.len() == 0 {
        Seq::empty()
    } else if s.last() == c {
        positions(s.drop_last(), c).push(s.len() - 1)
    } else {
        positions(s.drop_last(), c)
    }
}

/// Every entry of `positions(s, c)` is an index of `s` that holds `c`, and
/// the entries increase strictly.
pub proof fn lemma_positions_sound(s: Seq<char>, c: char)
    ensures
        positions(s, c).len() <= s.len(),
        forall|i: int|
            0 <= i < positions(s, c).len() ==> 0 <= #[trigger] positions(s, c)[i] < s.len()
                && s[positions(s, c)[i]] == c,
        forall|i: int, j: int|
            0 <= i < j < positions(s, c).len() ==> positions(s, c)[i] < positions(s, c)[j],
    decreases s.len(),
{
    if s.len() > 0 {
        lemma_positions_sound(s.drop_last(), c);
    }
}

/// The indices at which `c` occurs in `v`, in increasing order.
pub fn find_all(v: &Vec<char>, c: char) -> (found: Vec<usize>)
    ensures
        found@.map_values(|p: usize| p as int) == positions(v@, c),
{
    let mut found: Vec<usize> = Vec::new();
    let mut i: usize = 0;
    while i < v.len()
        invariant
            i <= v.len(),
            found@.map_values(|p: usize| p as int) == positions(v@.take(i as int), c),
        decreases v.len() - i,
    {
        assert(v@.take(i + 1).drop_last() =~= v@.take(i as int));
        if v[i] == c {
            found.push(i);
            assert(found@.map_values(|p: usize| p as int) =~= positions(v@.take(i as int), c).push(
                i as int,
            ));
        }
        i = i + 1;
    }
    assert(v@.take(v.len() as int) =~= v@);
    found
}

/// Whether `c` is one of the ten decimal digits.
pub open spec fn is_digit(c: char) -> bool {
    '0' <= c <= '9'
}

/// The number that the digit `c` stands for.
pub open spec fn digit_value(c: char) -> nat {
    (c as int - '0' as int) as nat
}

/// Whether `s` holds decimal digits only.
pub open spec fn all_digits(s: Seq<char>) -> bool {
    forall|i: int| 0 <= i < s.len() ==> is_digit(#[trigger] s[i])
}

/// The number that the digits of `s` denote in base ten.
pub open spec fn decimal_value(s: Seq<char>) -> nat
    decreases s.len(),
{
    if s.len() == 0 {
        0
    } else {
        decimal_value(s.drop_last()) * 10 + digit_value(s.last())
    }
}

/// The number that `s` denotes, where `s` is one or more digits and the
/// number is at most `limit`.
pub open spec fn decimal_within(s: Seq<char>, limit: nat) -> Option<nat> {
    if s.len() > 0 && all_digits(s) && decimal_value(s) <= limit {
        Some(decimal_value(s))
    } else {
        None
    }
}

/// The number that `s` denotes as an unsigned decimal: an optional `+`, then
/// one or more digits, and nothing else.
pub open spec fn parse_unsigned(s: Seq<char>) -> Option<nat> {
    let digits = if s.len() > 0 && s[0] == '+' {
        s.skip(1)
    } else {
        s
    };
    if digits.len() > 0 && all_digits(digits) {
        Some(decimal_value(digits))
    } else {
        None
    }
}

/// The number that `s` denotes as a signed decimal: an optional `+` or `-`,
/// then one or more digits, and nothing else.
pub open spec fn parse_signed(s: Seq<char>) -> Option<int> {
    if s.len() > 0 && s[0] == '-' {
        let digits = s.skip(1);
        if digits.len() > 0 && all_digits(digits) {
            Some(-(decimal_value(digits) as int))
        } else {
            None
        }
    } else {
        match parse_unsigned(s) {
            Some(n) => Some(n as int),
            None => None,
        }
    }
}

/// `parse_unsigned`, where the number fits a `usize`.
pub open spec fn parse_usize(s: Seq<char>) -> Option<usize> {
    match parse_unsigned(s) {
        Some(n) => if n <= usize::MAX {
            Some(n as usize)
        } else {
            None
        },
        None => None,
    }
}

/// `parse_signed`, where the number fits an `i32`.
pub open spec fn parse_i32(s: Seq<char>) -> Option<i32> {
    match parse_signed(s) {
        Some(n) => if i32::MIN <= n <= i32::MAX {
            Some(n as i32)
        } else {
            None
        },
        None => None,
    }
}

/// A prefix of a digit string denotes no more than the whole string.
pub proof fn lemma_decimal_value_prefix(s: Seq<char>, k: int)
    requires
        0 <= k <= s.len(),
    ensures
        decimal_value(s.take(k)) <= decimal_value(s),
    decreases s.len(),
{
    if k == s.len() {
        assert(s.take(k) =~= s);
    } else {
        lemma_decimal_value_prefix(s.drop_last(), k);
        assert(s.drop_last().take(k) =~= s.take(k));
    }
}

/// The number that the digits `v[from..to]` denote, where it is at most
/// `limit`.
fn scan_digits(v: &Vec<char>, from: usize, to: usize, limit: u64) -> (r: Option<u64>)
    requires
        from <= to <= v.len(),
    ensures
        r matches Some(n) ==> decimal_within(v@.subrange(from as int, to as int), limit as nat)
            == Some(n as nat),
        r is None ==> decimal_within(v@.subrange(from as int, to as int), limit as nat) is None,
{
    if from == to {
        return None;
    }
    let ghost whole = v@.subrange(from as int, to as int);
    let mut acc: u128 = 0;
    let mut i: usize = from;
    while i < to
        invariant
            from <= i <= to <= v.len(),
            whole == v@.subrange(from as int, to as int),
            all_digits(v@.subrange(from as int, i as int)),
            acc == decimal_value(v@.subrange(from as int, i as int)),
            acc <= limit,
        decreases to - i,
    {
        let c = v[i];
        if !('0' <= c && c <= '9') {
            assert(!is_digit(whole[i - from]));
            return None;
        }
        let ghost before = v@.subrange(from as int, i as int);
        let ghost after = v@.subrange(from as int, i + 1);
        assert(after.drop_last() =~= before);
        assert(after.last() == c);
        let next: u128 = acc * 10 + ((c as u32 - '0' as u32) as u128);
        assert(next == decimal_value(after));
        if next > limit as u128 {
            proof {
                lemma_decimal_value_prefix(whole, i + 1 - from);
                assert(whole.take(i + 1 - from) =~= after);
            }
            return None;
        }
        acc = next;
        i = i + 1;
    }
    Some(acc as u64)
}

/// Reads `v[from..to]` as an unsigned decimal number that fits a `usize`.
pub fn scan_usize(v: &Vec<char>, from: usize, to: usize) -> (r: Option<usize>)
    requires
        from <= to <= v.len(),
    ensures
        r == parse_usize(v@.subrange(from as int, to as int)),
{
    let ghost s = v@.subrange(from as int, to as int);
    let start: usize = if from < to && v[from] == '+' {
        from + 1
    } else {
        from
    };
    assert(v@.subrange(start as int, to as int) =~= if s.len() > 0 && s[0] == '+' {
        s.skip(1)
    } else {
        s
    });
    match scan_digits(v, start, to, usize::MAX as u64) {
        Some(n) => Some(n as usize),
        None => None,
    }
}

/// Reads `v[from..to]` as a signed decimal number that fits an `i32`.
pub fn scan_i32(v: &Vec<char>, from: usize, to: usize) -> (r: Option<i32>)
    requires
        from <= to <= v.len(),
    ensures
        r == parse_i32(v@.subrange(from as int, to as int)),
{
    let ghost s = v@.subrange(from as int, to as int);
    if from < to && v[from] == '-' {
        assert(v@.subrange(from + 1, to as int) =~= s.skip(1));
        match scan_digits(v, from + 1, to, 2147483648) {
            Some(n) => Some((-(n as i64)) as i32),
            None => None,
        }
    } else {
        let start: usize = if from < to && v[from] == '+' {
            from + 1
        } else {
            from
        };
        assert(v@.subrange(start as int, to as int) =~= if s.len() > 0 && s[0] == '+' {
            s.skip(1)
        } else {
            s
        });
        match scan_digits(v, start, to, 2147483647) {
            Some(n) => Some(n as i32),
            None => None,
        }
    }
}

/// Whether `s` holds `token` at index `at`.
pub open spec fn occurs_at(s: Seq<char>, at: int, token: Seq<char>) -> bool {
    0 <= at && at + token.len() <= s.len() && s.subrange(at, at + token.len()) == token
}

/// `s` with every occurrence of `token` replaced by `with`. Occurrences are
/// found from left to right and do not overlap; an empty token occurs
/// nowhere.
pub open spec fn replace_all(s: Seq<char>, token: Seq<char>, with: Seq<char>) -> Seq<char>
    decreases s.len(),
{
    if token.len() == 0 || s.len() < token.len() {
        s
    } else if occurs_at(s, 0, token) {
        with + replace_all(s.skip(token.len() as int), token, with)
    } else {
        seq![s[0]] + replace_all(s.skip(1), token, with)
    }
}

/// Decides whether `v` holds `token` at index `at`.
pub fn holds_at(v: &Vec<char>, at: usize, token: &Vec<char>) -> (r: bool)
    requires
        at <= v.len(),
    ensures
        r == occurs_at(v@, at as int, token@),
{
    if token.len() > v.len() - at {
        return false;
    }
    let mut k: usize = 0;
    while k < token.len()
        invariant
            k <= token.len(),
            at + token.len() <= v.len(),
            v@.subrange(at as int, at + k) == token@.take(k as int),
        decreases token.len() - k,
    {
        if v[at + k] != token[k] {
            assert(v@.subrange(at as int, at + token.len())[k as int] != token@[k as int]);
            return false;
        }
        assert(v@.subrange(at as int, at + k + 1) =~= v@.subrange(at as int, at + k).push(
            v@[at + k],
        ));
        assert(token@.take(k + 1) =~= token@.take(k as int).push(token@[k as int]));
        k = k + 1;
    }
    assert(token@.take(token.len() as int) =~= token@);
    true
}

/// Decides whether two texts hold the same characters.
pub fn same_text(a: &str, b: &str) -> (r: bool)
    ensures
        r == (a@ == b@),
{
    let x = chars_of(a);
    let y = chars_of(b);
    if x.len() != y.len() {
        return false;
    }
    let r = holds_at(&x, 0, &y);
    assert(x@.subrange(0, x.len() as int) =~= x@);
    r
}

/// The characters `from..to` of `s` as a text of their own.
pub fn slice_of(s: &str, from: usize, to: usize) -> (r: String)
    requires
        from <= to <= s@.len(),
    ensures
        r@ == s@.subrange(from as int, to as int),
{
    s.substring_char(from, to).to_owned()
}

/// `text` with every occurrence of `token` replaced by `with`.
pub fn replace(text: &str, token: &str, with: &str) -> (r: String)
    ensures
        r@ == replace_all(text@, token@, with@),
{
    let t = chars_of(text);
    let k = chars_of(token);
    if k.len() == 0 {
        return text.to_owned();
    }
    let mut out = String::new();
    let mut kept: usize = 0;
    let mut i: usize = 0;
    assert(t@.skip(0) =~= t@);
    assert(out@ + t@.subrange(0, 0) + replace_all(t@, token@, with@) =~= replace_all(
        t@,
        token@,
        with@,
    ));
    while i < t.len() && k.len() <= t.len() - i
        invariant
            kept <= i <= t.len(),
            t@ == text@,
            k@ == token@,
            k.len() > 0,
            out@ + t@.subrange(kept as int, i as int) + replace_all(
                t@.skip(i as int),
                token@,
                with@,
            ) == replace_all(text@, token@, with@),
        decreases t.len() - i,
    {
        let ghost rest = t@.skip(i as int);
        if holds_at(&t, i, &k) {
            assert(rest.subrange(0, k.len() as int) =~= t@.subrange(i as int, i + k.len()));
            assert(rest.skip(k.len() as int) =~= t@.skip(i + k.len()));
            let ghost done = out@ + t@.subrange(kept as int, i as int);
            out.append(text.substring_char(kept, i));
            out.append(with);
            i = i + k.len();
            kept = i;
            assert(t@.subrange(kept as int, i as int) =~= Seq::<char>::empty());
            assert(out@ + t@.subrange(kept as int, i as int) + replace_all(
                rest.skip(k.len() as int),
                token@,
                with@,
            ) =~= done + (with@ + replace_all(rest.skip(k.len() as int), token@, with@)));
        } else {
            assert(rest.subrange(0, k.len() as int) =~= t@.subrange(i as int, i + k.len()));
            assert(rest.skip(1) =~= t@.skip(i + 1));
            assert(out@ + t@.subrange(kept as int, i + 1) + replace_all(
                rest.skip(1),
                token@,
                with@,
            ) =~= out@ + t@.subrange(kept as int, i as int) + (seq![rest[0]] + replace_all(
                rest.skip(1),
                token@,
                with@,
            )));
            i = i + 1;
        }
    }
    assert(out@ + t@.subrange(kept as int, i as int) + t@.skip(i as int) =~= out@ + t@.subrange(
        kept as int,
        t.len() as int,
    ));
    out.append(text.substring_char(kept, t.len()));
    out
}

} // verus!
