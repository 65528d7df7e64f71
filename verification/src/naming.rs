//! Numbering the output: the next free number among the images that exist.

use vstd::prelude::*;
use vstd::string::*;

verus! {

/// What an image's name looks like: a run of digits, any one character, and
/// `png`. The digits are the image's number.
pub const IMAGE_PATTERN: &'static str = "(\\d+).png";

/// Why no next number can be given.
#[derive(Clone, Copy, Debug, PartialEq, Eq, Structural)]
pub enum NamingError {
    /// The pattern for the names is no regular expression.
    BadPattern,
    /// The digits of a name do not spell a number that fits in an `i32`.
    BadNumber,
    /// The highest number in use is the largest there is.
    Exhausted,
}

/// The error of the `regex` crate: a pattern that is no regular expression, or
/// one that compiles to more than the crate allows.
#[verifier::external_type_specification]
#[verifier::external_body]
pub struct ExRegexError(regex::Error);

/// What group 1 of `pattern` captures in the leftmost match within `text`.
/// `None` where the pattern does not compile; `Some(None)` where nothing
/// matches, or where the group takes no part in the match.
pub uninterp spec fn first_group(pattern: Seq<char>, text: Seq<char>) -> Option<Option<Seq<char>>>;

/// Compiles `pattern` with `regex::Regex::new`, searches `text` with
/// `Regex::captures` and reads group 1 of the result with `Captures::get`.
///
/// Trusted: that the outcome depends on the two strings alone, which is what
/// `first_group` names, and that the error is the one of compiling. Nothing
/// is claimed of what is captured.
#[verifier::external_body]
fn capture_first_group(pattern: &str, text: &str) -> (out: Result<Option<String>, regex::Error>)
    ensures
        match out {
            Ok(Some(s)) => first_group(pattern@, text@) == Some(Some(s@)),
            Ok(None) => first_group(pattern@, text@) == Some(None::<Seq<char>>),
            Err(_) => first_group(pattern@, text@) is None,
        },
{
    let re = regex::Regex::new(pattern)?;
    match re.captures(text) {
        Some(found) => match found.get(1) {
            Some(group) => Ok(Some(group.as_str().to_string())),
            None => Ok(None),
        },
        None => Ok(None),
    }
}

/// The value of a decimal digit.
pub open spec fn digit_value(c: char) -> Option<int> {
    if '0' <= c && c <= '9' {
        Some(c as int - '0' as int)
    } else {
        None
    }
}

/// The number that a run of decimal digits spells; `None` for the empty run
/// and for a run that holds anything but the digits 0 to 9.
pub open spec fn decimal(digits: Seq<char>) -> Option<int>
    decreases digits.len(),
{
    if digits.len() == 0 {
        None
    } else if digits.len() == 1 {
        digit_value(digits[0])
    } else {
        match (decimal(digits.drop_last()), digit_value(digits.last())) {
            (Some(v), Some(d)) => Some(10 * v + d),
            _ => None,
        }
    }
}

/// The number that the digits spell, if it fits in an `i32`.
pub open spec fn number(digits: Seq<char>) -> Option<i32> {
    match decimal(digits) {
        Some(v) => if v <= i32::MAX {
            Some(v as i32)
        } else {
            None
        },
        None => None,
    }
}

/// A run that spells a number holds digits only, and the number is not
/// negative; one more digit never makes it smaller.
pub proof fn lemma_decimal(digits: Seq<char>, n: int)
    requires
        0 < n <= digits.len(),
    ensures
        decimal(digits) is Some ==> decimal(digits.take(n)) is Some,
        decimal(digits) matches Some(v) ==> 0 <= decimal(digits.take(n)).unwrap() <= v,
    decreases digits.len(),
{
    if n == digits.len() {
        assert(digits.take(n) =~= digits);
        if digits.len() > 1 {
            lemma_decimal(digits.drop_last(), n - 1);
        }
    } else {
        assert(digits.drop_last().take(n) =~= digits.take(n));
        lemma_decimal(digits.drop_last(), n);
    }
}

/// Reads a run of decimal digits as a number.
pub fn parse_number(digits: &str) -> (out: Option<i32>)
    ensures
        out == number(digits@),
{
    let len = digits.unicode_len();
    if len == 0 {
        return None;
    }
    let mut value: i32 = 0;
    let mut i: usize = 0;
    while i < len
        invariant
            len == digits@.len(),
            i <= len,
            i == 0 ==> value == 0,
            i > 0 ==> decimal(digits@.take(i as int)) == Some(value as int),
            0 <= value,
        decreases len - i,
    {
        let c = digits.get_char(i);
        proof {
            let upto = digits@.take(i + 1);
            assert(upto.drop_last() =~= digits@.take(i as int));
            assert(upto.last() == c);
            lemma_decimal(digits@, i + 1);
            if i > 0 {
                lemma_decimal(digits@, i as int);
            }
        }
        if c < '0' || c > '9' {
            return None;
        }
        let d: i32 = (c as u32 - '0' as u32) as i32;
        if value > (i32::MAX - d) / 10 {
            return None;
        }
        value = value * 10 + d;
        i += 1;
    }
    assert(digits@.take(i as int) =~= digits@);
    Some(value)
}

/// The highest number among the captured runs of digits, and at least 0;
/// `None` where one of them spells no number.
pub open spec fn highest(captures: Seq<Option<Seq<char>>>) -> Option<int>
    decreases captures.len(),
{
    if captures.len() == 0 {
        Some(0)
    } else {
        match (highest(captures.drop_last()), captures.last()) {
            (Some(h), None) => Some(h),
            (Some(h), Some(digits)) => match number(digits) {
                Some(v) => Some(if v > h {
                    v as int
                } else {
                    h
                }),
                None => None,
            },
            (None, _) => None,
        }
    }
}

/// The number for the next image: one more than the highest in use.
pub open spec fn next_number(captures: Seq<Option<Seq<char>>>) -> Result<i32, NamingError> {
    match highest(captures) {
        None => Err(NamingError::BadNumber),
        Some(h) => if h >= i32::MAX {
            Err(NamingError::Exhausted)
        } else {
            Ok((h + 1) as i32)
        },
    }
}

/// What was captured from each name, as plain text.
pub open spec fn texts(captures: Seq<Option<String>>) -> Seq<Option<Seq<char>>> {
    captures.map_values(
        |c: Option<String>|
            match c {
                Some(s) => Some(s@),
                None => None,
            },
    )
}

/// Gives the number for the next image, from the digits captured in each
/// existing name (`None` for a name that is no image's).
pub fn next_after(captures: &Vec<Option<String>>) -> (out: Result<i32, NamingError>)
    ensures
        out == next_number(texts(captures@)),
{
    let mut top: i32 = 0;
    let mut i: usize = 0;
    while i < captures.len()
        invariant
            i <= captures.len(),
            0 <= top,
            highest(texts(captures@).take(i as int)) == Some(top as int),
        decreases captures.len() - i,
    {
        proof {
            let upto = texts(captures@).take(i + 1);
            assert(upto.drop_last() =~= texts(captures@).take(i as int));
            assert(upto.last() == texts(captures@)[i as int]);
        }
        match &captures[i] {
            Some(digits) => match parse_number(digits.as_str()) {
                Some(v) => {
                    if v > top {
                        top = v;
                    }
                },
                None => {
                    proof {
                        lemma_highest_fails(texts(captures@), i + 1);
                    }
                    return Err(NamingError::BadNumber);
                },
            },
            None => {},
        }
        i += 1;
    }
    assert(texts(captures@).take(i as int) =~= texts(captures@));
    if top == i32::MAX {
        Err(NamingError::Exhausted)
    } else {
        Ok(top + 1)
    }
}

/// Once a run of digits spells no number, no highest number is found however
/// many names follow.
pub proof fn lemma_highest_fails(captures: Seq<Option<Seq<char>>>, n: int)
    requires
        0 <= n <= captures.len(),
        highest(captures.take(n)) is None,
    ensures
        highest(captures) is None,
    decreases captures.len(),
{
    if n == captures.len() {
        assert(captures.take(n) =~= captures);
    } else {
        assert(captures.drop_last().take(n) =~= captures.take(n));
        lemma_highest_fails(captures.drop_last(), n);
    }
}

/// The highest number is not negative, and none in use is higher.
pub proof fn lemma_highest_bounds(captures: Seq<Option<Seq<char>>>, i: int)
    requires
        0 <= i < captures.len(),
        highest(captures) is Some,
    ensures
        highest(captures).unwrap() >= 0,
        captures[i] matches Some(digits) ==> number(digits) matches Some(v) && v
            <= highest(captures).unwrap(),
    decreases captures.len(),
{
    let rest = captures.drop_last();
    if rest.len() > 0 {
        lemma_highest_bounds(rest, 0);
    } else {
        reveal_with_fuel(highest, 2);
    }
    if i < rest.len() {
        lemma_highest_bounds(rest, i);
        assert(rest[i] == captures[i]);
    }
}

/// The next number is free: it is at least 1, and higher than the number of
/// every image that exists.
pub proof fn lemma_next_is_free(captures: Seq<Option<Seq<char>>>, i: int)
    requires
        0 <= i < captures.len(),
        next_number(captures) is Ok,
    ensures
        next_number(captures).unwrap() >= 1,
        captures[i] matches Some(digits) ==> number(digits) matches Some(v) && v < next_number(
            captures,
        ).unwrap(),
{
    lemma_highest_bounds(captures, i);
}

/// The pattern compiles: it captures something, or nothing, from each name.
pub open spec fn pattern_holds(pattern: Seq<char>, names: Seq<String>) -> bool {
    forall|j: int| 0 <= j < names.len() ==> (#[trigger] first_group(pattern, names[j]@)) is Some
}

/// What the pattern captures from each name.
pub open spec fn captured(pattern: Seq<char>, names: Seq<String>) -> Seq<Option<Seq<char>>> {
    names.map_values(
        |name: String|
            match first_group(pattern, name@) {
                Some(found) => found,
                None => None,
            },
    )
}

/// The number for the next image, where `pattern` tells which names are
/// images' and where in them the number stands.
pub open spec fn next_for(pattern: Seq<char>, names: Seq<String>) -> Result<i32, NamingError> {
    if pattern_holds(pattern, names) {
        next_number(captured(pattern, names))
    } else {
        Err(NamingError::BadPattern)
    }
}

/// Gives the number for the next image from the names that exist, where group
/// 1 of `pattern` captures the number in the name of an image.
pub fn next_index_with(pattern: &str, names: &Vec<String>) -> (out: Result<i32, NamingError>)
    ensures
        out == next_for(pattern@, names@),
{
    let mut captures: Vec<Option<String>> = Vec::new();
    let mut i: usize = 0;
    while i < names.len()
        invariant
            i <= names.len(),
            captures@.len() == i,
            forall|j: int|
                0 <= j < i ==> first_group(pattern@, names@[j]@) == Some(
                    #[trigger] texts(captures@)[j],
                ),
        decreases names.len() - i,
    {
        let found = match capture_first_group(pattern, names[i].as_str()) {
            Ok(found) => found,
            Err(_) => {
                return Err(NamingError::BadPattern);
            },
        };
        proof {
            let before = texts(captures@);
            let after = texts(captures@.push(found));
            assert forall|j: int| 0 <= j < i implies after[j] == before[j] by {}
        }
        captures.push(found);
        i += 1;
    }
    proof {
        assert forall|j: int| 0 <= j < names@.len() implies (#[trigger] first_group(
            pattern@,
            names@[j]@,
        )) == Some(texts(captures@)[j]) by {}
        assert(texts(captures@) =~= captured(pattern@, names@));
    }
    next_after(&captures)
}

/// Gives the number for the next image, from the names that exist: the
/// number of each image's name is captured by [`IMAGE_PATTERN`], and the next
/// is one more than the highest of them, or 1 where there is none.
pub fn next_index(names: &Vec<String>) -> (out: Result<i32, NamingError>)
    ensures
        out == next_for(IMAGE_PATTERN@, names@),
{
    next_index_with(IMAGE_PATTERN, names)
}

} // verus!
