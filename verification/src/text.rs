//! Text helpers shared by the rest of the crate: ASCII case folding, token replacement, joining,
//! column padding and decimal numbers.

use vstd::prelude::*;
use vstd::string::StringExecFns;
use vstd::string::StrSliceExecFns;

verus! {

/// The view of an optional string.
pub open spec fn text_of(t: Option<String>) -> Option<Seq<char>> {
    match t {
        Some(s) => Some(s@),
        None => None,
    }
}

/// The views of a list of strings.
pub open spec fn texts_of(v: Seq<String>) -> Seq<Seq<char>> {
    v.map_values(|s: String| s@)
}

/// Whether two optional strings hold the same text (two absent ones do).
pub fn same_text(a: &Option<String>, b: &Option<String>) -> (r: bool)
    ensures
        r == (text_of(*a) == text_of(*b)),
{
    match (a, b) {
        (Some(x), Some(y)) => *x == *y,
        (None, None) => true,
        _ => false,
    }
}

/// A copy of an optional string.
pub fn copy_text(t: &Option<String>) -> (r: Option<String>)
    ensures
        r == *t,
{
    match t {
        Some(s) => Some(s.clone()),
        None => None,
    }
}

/// A copy of a list of strings.
pub fn copy_texts(v: &Vec<String>) -> (r: Vec<String>)
    ensures
        texts_of(r@) == texts_of(v@),
{
    let mut r: Vec<String> = Vec::new();
    for i in 0..v.len()
        invariant
            r@.len() == i,
            forall|j: int| 0 <= j < i ==> r@[j] == v@[j],
    {
        r.push(v[i].clone());
    }
    assert(texts_of(r@) =~= texts_of(v@));
    r
}

/// Whether the list holds the given text.
pub fn contains_text(v: &Vec<String>, s: &String) -> (r: bool)
    ensures
        r == texts_of(v@).contains(s@),
{
    for i in 0..v.len()
        invariant
            forall|j: int| 0 <= j < i ==> v@[j]@ != s@,
    {
        if v[i] == *s {
            assert(texts_of(v@)[i as int] == s@);
            return true;
        }
    }
    false
}

// --- ASCII case ------------------------------------------------------------------------------

/// The ASCII lower-case equivalent of a character; every non-ASCII character is its own.
pub open spec fn ascii_lower_char(c: char) -> char {
    if 'A' <= c <= 'Z' {
        ((c as u32) + 32) as char
    } else {
        c
    }
}

/// A text with every ASCII upper-case letter lowered.
pub open spec fn ascii_lower(s: Seq<char>) -> Seq<char> {
    s.map_values(|c: char| ascii_lower_char(c))
}

/// `str::to_ascii_lowercase` of std: a copy in which each ASCII letter `A` to `Z` became `a` to
/// `z`, every other character unchanged.
pub assume_specification[ str::to_ascii_lowercase ](s: &str) -> (r: String)
    ensures
        r@ == ascii_lower(s@),
;

/// `str::eq_ignore_ascii_case` of std: whether the two texts agree once both are lowered as
/// `str::to_ascii_lowercase` does.
pub assume_specification[ str::eq_ignore_ascii_case ](s: &str, other: &str) -> (r: bool)
    ensures
        r == (ascii_lower(s@) == ascii_lower(other@)),
;

// --- Replacement -----------------------------------------------------------------------------

/// `s` with every occurrence of `from`, found left to right without overlap, replaced by `to`.
pub open spec fn replace_all(s: Seq<char>, from: Seq<char>, to: Seq<char>) -> Seq<char>
    recommends
        from.len() > 0,
    decreases s.len(),
{
    if from.len() == 0 || s.len() < from.len() {
        s
    } else if s.take(from.len() as int) == from {
        to + replace_all(s.skip(from.len() as int), from, to)
    } else {
        seq![s[0]] + replace_all(s.skip(1), from, to)
    }
}

/// Whether `from` occurs anywhere in `s`.
pub open spec fn occurs_in(s: Seq<char>, from: Seq<char>) -> bool {
    exists|i: int| 0 <= i && i + from.len() <= s.len() && #[trigger] s.skip(i).take(from.len() as int) == from
}

/// `str::replace` of std with a string pattern: every match of `from`, scanned from the left and
/// without overlap, becomes `to`. An empty pattern, which matches between all characters, is left
/// out.
#[verifier::external_body]
pub(crate) fn replace_matches(s: &str, from: &str, to: &str) -> (r: String)
    requires
        from@.len() > 0,
    ensures
        r@ == replace_all(s@, from@, to@),
{
    s.replace(from, to)
}

/// Replacing a text that does not occur changes nothing.
pub proof fn lemma_replace_absent(s: Seq<char>, from: Seq<char>, to: Seq<char>)
    requires
        from.len() > 0,
        !occurs_in(s, from),
    ensures
        replace_all(s, from, to) == s,
    decreases s.len(),
{
    if s.len() >= from.len() {
        assert(s.skip(0) =~= s);
        assert(s.skip(0).take(from.len() as int) != from);
        assert forall|i: int| 0 <= i && i + from.len() <= s.skip(1).len() implies #[trigger] s.skip(1).skip(i).take(
            from.len() as int,
        ) != from by {
            assert(s.skip(1).skip(i) =~= s.skip(i + 1));
            assert(s.skip(i + 1).take(from.len() as int) != from);
        }
        lemma_replace_absent(s.skip(1), from, to);
        assert(seq![s[0]] + s.skip(1) =~= s);
    }
}

// --- Joining and padding ---------------------------------------------------------------------

/// Each text preceded by a comma.
pub open spec fn comma_led(v: Seq<Seq<char>>) -> Seq<char>
    decreases v.len(),
{
    if v.len() == 0 {
        Seq::empty()
    } else {
        comma_led(v.drop_last()) + seq![','] + v.last()
    }
}

/// The texts in order, separated by commas.
pub open spec fn comma_joined(v: Seq<Seq<char>>) -> Seq<char> {
    if v.len() == 0 {
        Seq::empty()
    } else {
        v[0] + comma_led(v.skip(1))
    }
}

/// Join the texts with commas.
pub fn join_commas(v: &Vec<String>) -> (r: String)
    ensures
        r@ == comma_joined(texts_of(v@)),
{
    let mut out = String::new();
    if v.len() == 0 {
        return out;
    }
    out.append(v[0].as_str());
    let ghost tail = texts_of(v@).skip(1);
    assert(tail.take(0) =~= Seq::<Seq<char>>::empty());
    assert(out@ =~= texts_of(v@)[0] + comma_led(tail.take(0)));
    let mut i: usize = 1;
    while i < v.len()
        invariant
            1 <= i <= v@.len(),
            tail == texts_of(v@).skip(1),
            out@ == texts_of(v@)[0] + comma_led(tail.take(i - 1)),
        decreases v.len() - i,
    {
        proof {
            reveal_strlit(",");
            assert(","@ =~= seq![',']);
            assert(tail.take(i as int).drop_last() =~= tail.take(i - 1));
            assert(tail.take(i as int).last() == v@[i as int]@);
        }
        let ghost before = out@;
        out.append(",");
        out.append(v[i].as_str());
        assert(out@ =~= texts_of(v@)[0] + comma_led(tail.take(i as int)));
        i += 1;
    }
    assert(tail.take(i - 1) =~= tail);
    out
}

/// The text `n` times a space.
pub open spec fn spaces(n: nat) -> Seq<char> {
    Seq::new(n, |_i: int| ' ')
}

/// `s` followed by as many spaces as it takes to be `width` characters long.
pub open spec fn padded(s: Seq<char>, width: nat) -> Seq<char> {
    if s.len() >= width {
        s
    } else {
        s + spaces((width - s.len()) as nat)
    }
}

/// Left-align `s` in a column of `width` characters. A longer text is not cut.
pub fn pad_right(s: &String, width: usize) -> (r: String)
    ensures
        r@ == padded(s@, width as nat),
{
    let mut out = s.clone();
    let mut n: usize = s.as_str().unicode_len();
    assert(out@ =~= s@ + spaces(0));
    while n < width
        invariant
            s@.len() <= n,
            s@.len() == n || n <= width,
            out@ == s@ + spaces((n - s@.len()) as nat),
        decreases width - n,
    {
        proof {
            reveal_strlit(" ");
        }
        out.append(" ");
        n += 1;
        assert(out@ =~= s@ + spaces((n - s@.len()) as nat));
    }
    assert(out@ =~= padded(s@, width as nat));
    out
}

// --- Decimal numbers -------------------------------------------------------------------------

/// The character of a decimal digit.
pub open spec fn digit_char(d: nat) -> char
    recommends
        d < 10,
{
    ((d + 48) as u32) as char
}

/// Whether a character is a decimal digit.
pub open spec fn is_digit(c: char) -> bool {
    '0' <= c <= '9'
}

/// The number in decimal, without leading zeros.
pub open spec fn decimal(n: nat) -> Seq<char>
    decreases n,
{
    if n < 10 {
        seq![digit_char(n)]
    } else {
        decimal(n / 10).push(digit_char(n % 10))
    }
}

/// The value of a row of decimal digits.
pub open spec fn digits_value(s: Seq<char>) -> nat
    decreases s.len(),
{
    if s.len() == 0 {
        0
    } else {
        digits_value(s.drop_last()) * 10 + (s.last() as nat - 48) as nat
    }
}

/// Whether every character is a decimal digit.
pub open spec fn all_digits(s: Seq<char>) -> bool {
    forall|i: int| 0 <= i < s.len() ==> is_digit(#[trigger] s[i])
}

/// The digits of a number text: what follows an optional plus sign.
pub open spec fn unsigned_part(s: Seq<char>) -> Seq<char> {
    if s.len() > 0 && s[0] == '+' {
        s.skip(1)
    } else {
        s
    }
}

/// The number that a text stands for: an optional plus sign, then at least one digit and nothing
/// else, with a value that fits `usize`.
pub open spec fn parsed(s: Seq<char>) -> Option<usize> {
    let digits = unsigned_part(s);
    if digits.len() > 0 && all_digits(digits) && digits_value(digits) <= usize::MAX {
        Some(digits_value(digits) as usize)
    } else {
        None
    }
}

/// The text of one digit.
fn digit_text(d: usize) -> (r: &'static str)
    requires
        d < 10,
    ensures
        r@ == seq![digit_char(d as nat)],
{
    proof {
        reveal_strlit("0");
        reveal_strlit("1");
        reveal_strlit("2");
        reveal_strlit("3");
        reveal_strlit("4");
        reveal_strlit("5");
        reveal_strlit("6");
        reveal_strlit("7");
        reveal_strlit("8");
        reveal_strlit("9");
    }
    let r: &'static str = match d {
        0 => "0",
        1 => "1",
        2 => "2",
        3 => "3",
        4 => "4",
        5 => "5",
        6 => "6",
        7 => "7",
        8 => "8",
        _ => "9",
    };
    assert(r@ =~= seq![digit_char(d as nat)]);
    r
}

/// Write a number in decimal.
pub fn decimal_text(n: usize) -> (r: String)
    ensures
        r@ == decimal(n as nat),
    decreases n,
{
    if n < 10 {
        let mut out = String::new();
        out.append(digit_text(n));
        assert(out@ =~= decimal(n as nat));
        out
    } else {
        let mut out = decimal_text(n / 10);
        out.append(digit_text(n % 10));
        assert(out@ =~= decimal(n as nat));
        out
    }
}

/// A longer row of digits that starts with `s` is worth at least as much.
proof fn lemma_value_grows(s: Seq<char>, k: int)
    requires
        0 <= k <= s.len(),
        all_digits(s),
    ensures
        digits_value(s.take(k)) <= digits_value(s),
    decreases s.len(),
{
    if k == s.len() {
        assert(s.take(k) =~= s);
    } else {
        assert(all_digits(s.drop_last())) by {
            assert forall|i: int| 0 <= i < s.drop_last().len() implies is_digit(#[trigger] s.drop_last()[i]) by {
                assert(s.drop_last()[i] == s[i]);
            }
        }
        lemma_value_grows(s.drop_last(), k);
        assert(s.drop_last().take(k) =~= s.take(k));
        assert(is_digit(s[s.len() - 1]));
    }
}

/// Read a number from its decimal text.
pub fn parse_decimal(s: &String) -> (r: Option<usize>)
    ensures
        r == parsed(s@),
{
    let text = s.as_str();
    let len: usize = text.unicode_len();
    let start: usize = if len > 0 && text.get_char(0) == '+' {
        1
    } else {
        0
    };
    let ghost digits = unsigned_part(s@);
    assert(digits =~= s@.skip(start as int));
    if start == len {
        return None;
    }
    let mut value: usize = 0;
    let mut i: usize = start;
    assert(digits.take(0) =~= Seq::<char>::empty());
    while i < len
        invariant
            start <= i <= len,
            start <= 1,
            len == text@.len(),
            text@ == s@,
            digits == unsigned_part(s@),
            digits == s@.skip(start as int),
            value == digits_value(digits.take(i - start)),
            forall|j: int| 0 <= j < i - start ==> is_digit(#[trigger] digits[j]),
        decreases len - i,
    {
        let c = text.get_char(i);
        assert(digits[i - start] == c);
        if !(c >= '0' && c <= '9') {
            assert(!is_digit(digits[i - start]));
            return None;
        }
        let d: usize = (c as u32 - 48) as usize;
        proof {
            assert(digits.take(i + 1 - start).drop_last() =~= digits.take(i - start));
            assert(digits.take(i + 1 - start).last() == c);
        }
        let ghost next_value = digits_value(digits.take(i + 1 - start));
        assert(next_value == value * 10 + d);
        let tens = value.checked_mul(10);
        let next = match tens {
            Some(t) => t.checked_add(d),
            None => None,
        };
        match next {
            Some(v) => {
                value = v;
            },
            None => {
                proof {
                    if all_digits(digits) {
                        lemma_value_grows(digits, i + 1 - start);
                    }
                }
                return None;
            },
        }
        i += 1;
    }
    assert(digits.take(i - start) =~= digits);
    assert(all_digits(digits));
    Some(value)
}

/// Reading back a number that was written in decimal gives that number.
pub proof fn law_decimal_round_trip(n: usize)
    ensures
        parsed(decimal(n as nat)) == Some(n),
{
    lemma_decimal(n as nat);
    let s = decimal(n as nat);
    assert(is_digit(s[0]));
    assert(unsigned_part(s) == s);
}

/// The decimal text of a number is a nonempty row of digits worth that number.
proof fn lemma_decimal(n: nat)
    ensures
        decimal(n).len() > 0,
        all_digits(decimal(n)),
        digits_value(decimal(n)) == n,
    decreases n,
{
    if n < 10 {
        assert(seq![digit_char(n)].drop_last() =~= Seq::<char>::empty());
        assert(digits_value(Seq::<char>::empty()) == 0);
    } else {
        lemma_decimal(n / 10);
        let head = decimal(n / 10);
        let d = digit_char(n % 10);
        assert(head.push(d).drop_last() =~= head);
        assert(head.push(d).last() == d);
        assert(is_digit(d));
        assert(all_digits(decimal(n))) by {
            assert forall|i: int| 0 <= i < decimal(n).len() implies is_digit(#[trigger] decimal(n)[i]) by {
                if i < head.len() {
                    assert(is_digit(head[i]));
                }
            }
        }
    }
}

// --- Laws ------------------------------------------------------------------------------------

/// A list of texts has the contents of each of them, in order, and an optional text its contents.
pub proof fn law_texts_are_taken_as_they_are(v: Seq<String>, t: Option<String>)
    ensures
        texts_of(v).len() == v.len(),
        forall|i: int| 0 <= i < v.len() ==> texts_of(v)[i] == (#[trigger] v[i])@,
        t is Some ==> text_of(t) == Some(t->0@),
        t is None ==> text_of(t) is None,
{
}

/// Lowering a text keeps its length, moves the letters from A to Z by 32 and leaves every other
/// character alone; what is lowered already stays.
pub proof fn law_lowering_moves_the_capitals(s: Seq<char>)
    ensures
        ascii_lower(s).len() == s.len(),
        forall|i: int|
            0 <= i < s.len() ==> if 65 <= (#[trigger] s[i]) as u32 <= 90 {
                ascii_lower(s)[i] as u32 == s[i] as u32 + 32
            } else {
                ascii_lower(s)[i] == s[i]
            },
        ascii_lower(ascii_lower(s)) == ascii_lower(s),
{
    assert(ascii_lower(ascii_lower(s)) =~= ascii_lower(s));
}

/// The first match of a text becomes the other text, what stands before it stays, and what follows is
/// looked through in the same way.
pub proof fn law_replacing_goes_from_left_to_right(
    before: Seq<char>,
    after: Seq<char>,
    from: Seq<char>,
    to: Seq<char>,
)
    requires
        from.len() > 0,
        forall|i: int|
            0 <= i < before.len() ==> #[trigger] (before + from + after).skip(i).take(from.len() as int) != from,
    ensures
        replace_all(before + from + after, from, to) == before + to + replace_all(after, from, to),
    decreases before.len(),
{
    let s = before + from + after;
    if before.len() == 0 {
        assert(s.take(from.len() as int) =~= from);
        assert(s.skip(from.len() as int) =~= after);
        assert(before + to + replace_all(after, from, to) =~= to + replace_all(after, from, to));
    } else {
        assert(s.skip(0) =~= s);
        assert(s.take(from.len() as int) != from) by {
            assert(s.skip(0).take(from.len() as int) != from);
        }
        let rest = before.skip(1);
        let tail = rest + from + after;
        assert(s.skip(1) =~= tail);
        assert forall|i: int| 0 <= i < rest.len() implies #[trigger] tail.skip(i).take(from.len() as int) != from by {
            assert(tail.skip(i) =~= s.skip(i + 1));
            assert(s.skip(i + 1).take(from.len() as int) != from);
        }
        law_replacing_goes_from_left_to_right(rest, after, from, to);
        assert(seq![s[0]] + (rest + to + replace_all(after, from, to)) =~= before + to + replace_all(after, from, to));
    }
}

/// One text joined is that text, and each further one comes behind a comma.
pub proof fn law_joining_puts_commas_between(v: Seq<Seq<char>>, text: Seq<char>)
    ensures
        comma_joined(Seq::empty()) == Seq::<char>::empty(),
        comma_joined(seq![text]) == text,
        v.len() > 0 ==> comma_joined(v.push(text)) == comma_joined(v) + seq![','] + text,
{
    let one = seq![text];
    assert(one.skip(1) =~= Seq::<Seq<char>>::empty());
    assert(text + Seq::<char>::empty() =~= text);
    if v.len() > 0 {
        let more = v.push(text);
        assert(more.skip(1) =~= v.skip(1).push(text));
        assert(more.skip(1).drop_last() =~= v.skip(1));
        assert(more.skip(1).last() == text);
        assert(v[0] + (comma_led(v.skip(1)) + seq![','] + text) =~= v[0] + comma_led(v.skip(1)) + seq![','] + text);
    }
}

/// A padded text starts with the text, goes on with spaces only, and is as long as the column unless the
/// text is longer.
pub proof fn law_padding_fills_the_column(s: Seq<char>, width: nat)
    ensures
        padded(s, width).len() == if s.len() < width {
            width
        } else {
            s.len()
        },
        padded(s, width).take(s.len() as int) == s,
        forall|i: int| s.len() <= i < padded(s, width).len() ==> #[trigger] padded(s, width)[i] == ' ',
{
    assert(padded(s, width).take(s.len() as int) =~= s);
}

/// A number below ten is written as its digit; ten times a number and a digit is written as the number
/// followed by the digit.
pub proof fn law_decimal_is_positional(n: nat, d: nat)
    requires
        d < 10,
    ensures
        decimal(d).len() == 1,
        decimal(d)[0] as u32 == 48 + d,
        n > 0 ==> decimal(10 * n + d) == decimal(n) + decimal(d),
{
    if n > 0 {
        assert((10 * n + d) / 10 == n);
        assert((10 * n + d) % 10 == d);
        assert(decimal(10 * n + d) =~= decimal(n) + decimal(d));
    }
}

/// Reading a number goes digit by digit: one more digit behind a number makes ten times the number and
/// the digit, unless that does not fit; a text with any other character in it, but for a plus sign in
/// front, is no number, nor is one without digits.
pub proof fn law_reading_a_number_is_positional(s: Seq<char>, c: char, n: usize)
    requires
        parsed(s) == Some(n),
    ensures
        48 <= c as u32 <= 57 ==> parsed(s.push(c)) == (if 10 * n + (c as u32 - 48) <= usize::MAX {
            Some((10 * n + (c as u32 - 48)) as usize)
        } else {
            None
        }),
        !(48 <= c as u32 <= 57) ==> parsed(s.push(c)) is None,
        s[0] != '+' ==> parsed(seq!['+'] + s) == Some(n),
{
    let digits = unsigned_part(s);
    let more = s.push(c);
    assert(unsigned_part(more) =~= digits.push(c)) by {
        if s[0] == '+' {
            assert(more.skip(1) =~= s.skip(1).push(c));
        }
    }
    let longer = digits.push(c);
    assert(longer.drop_last() =~= digits);
    assert(longer.last() == c);
    if is_digit(c) {
        assert forall|i: int| 0 <= i < longer.len() implies is_digit(#[trigger] longer[i]) by {
            if i < digits.len() {
                assert(is_digit(digits[i]));
            }
        }
    } else {
        assert(!is_digit(longer[digits.len() as int]));
    }
    if s[0] != '+' {
        assert((seq!['+'] + s).skip(1) =~= s);
    }
}

/// A text of one character is a number if and only if that is a digit, and then it is that digit; an
/// empty text and a lone plus sign are none.
pub proof fn law_single_digits_are_numbers(c: char)
    ensures
        parsed(Seq::empty()) is None,
        48 <= c as u32 <= 57 ==> parsed(seq![c]) == Some((c as u32 - 48) as usize),
        !(48 <= c as u32 <= 57) ==> parsed(seq![c]) is None,
{
    let s = seq![c];
    assert(s.drop_last() =~= Seq::<char>::empty());
    assert(digits_value(Seq::<char>::empty()) == 0);
    if is_digit(c) {
        assert(unsigned_part(s) == s);
        assert(all_digits(s));
        assert(digits_value(s) == (c as nat - 48) as nat);
    } else if c == '+' {
        assert(s.skip(1) =~= Seq::<char>::empty());
    } else {
        assert(!is_digit(s[0]));
    }
}

/// What [`decimal_text`] wrote [`parse_decimal`] reads as the same number.
pub proof fn law_numbers_are_read_back(n: usize, text: String, r: Option<usize>)
    requires
        call_ensures(decimal_text, (n,), text),
        call_ensures(parse_decimal, (&text,), r),
    ensures
        r == Some(n),
        forall|i: int| 0 <= i < text@.len() ==> 48 <= (#[trigger] text@[i]) as u32 <= 57,
{
    law_decimal_round_trip(n);
    lemma_decimal(n as nat);
    assert forall|i: int| 0 <= i < text@.len() implies 48 <= (#[trigger] text@[i]) as u32 <= 57 by {
        assert(is_digit(decimal(n as nat)[i]));
    }
}

/// [`contains_text`] finds a text at any place of the list, and [`same_text`] takes two absent texts as the same.
pub proof fn law_texts_are_compared_whole(
    v: &Vec<String>,
    s: &String,
    found: bool,
    a: &Option<String>,
    b: &Option<String>,
    same: bool,
)
    requires
        call_ensures(contains_text, (v, s), found),
        call_ensures(same_text, (a, b), same),
    ensures
        found <==> exists|i: int| 0 <= i < v@.len() && (#[trigger] v@[i])@ == s@,
        same <==> (a is None && b is None || a is Some && b is Some && a->0@ == b->0@),
{
    let texts = texts_of(v@);
    if found {
        let i = choose|i: int| 0 <= i < texts.len() && texts[i] == s@;
        assert(v@[i]@ == s@);
    }
    if exists|i: int| 0 <= i < v@.len() && (#[trigger] v@[i])@ == s@ {
        let i = choose|i: int| 0 <= i < v@.len() && (#[trigger] v@[i])@ == s@;
        assert(texts[i] == s@);
    }
}

/// [`pad_right`] gives the text followed by spaces up to the width, [`copy_text`] and [`copy_texts`] give what they
/// were given, and [`join_commas`] gives two texts with a comma between them.
pub proof fn law_padded_copied_and_joined(
    s: &String,
    width: usize,
    r: String,
    t: &Option<String>,
    copied: Option<String>,
    v: &Vec<String>,
    copies: Vec<String>,
    joined: String,
)
    requires
        call_ensures(pad_right, (s, width), r),
        call_ensures(copy_text, (t,), copied),
        call_ensures(copy_texts, (v,), copies),
        call_ensures(join_commas, (v,), joined),
    ensures
        r@.len() == if s@.len() < width {
            width as nat
        } else {
            s@.len()
        },
        forall|i: int| 0 <= i < s@.len() ==> #[trigger] r@[i] == s@[i],
        forall|i: int| s@.len() <= i < r@.len() ==> #[trigger] r@[i] == ' ',
        copied is Some <==> t is Some,
        t is Some ==> copied->0@ == t->0@,
        copies@.len() == v@.len(),
        forall|i: int| 0 <= i < v@.len() ==> (#[trigger] copies@[i])@ == v@[i]@,
        v@.len() == 0 ==> joined@.len() == 0,
        v@.len() == 1 ==> joined@ == v@[0]@,
        v@.len() == 2 ==> joined@ == v@[0]@ + seq![','] + v@[1]@,
{
    law_padding_fills_the_column(s@, width as nat);
    let texts = texts_of(v@);
    assert(texts_of(copies@).len() == copies@.len());
    assert forall|i: int| 0 <= i < v@.len() implies (#[trigger] copies@[i])@ == v@[i]@ by {
        assert(texts_of(copies@)[i] == copies@[i]@);
        assert(texts[i] == v@[i]@);
    }
    if v@.len() == 0 {
        law_joining_puts_commas_between(texts, seq![]);
        assert(texts =~= Seq::empty());
    } else {
        let first = seq![texts[0]];
        law_joining_puts_commas_between(Seq::empty(), texts[0]);
        if v@.len() == 1 {
            assert(texts =~= first);
        } else if v@.len() == 2 {
            law_joining_puts_commas_between(first, texts[1]);
            assert(texts =~= first.push(texts[1]));
        }
    }
}

} // verus!
