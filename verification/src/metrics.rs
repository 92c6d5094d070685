//! Reading the glyph-metrics table from its JSON source.
//!
//! The source is one JSON object. Each member's key is a single character
//! and its value that character's width in pixels, written as a decimal
//! number such as `6.67`.

use crate::glyph::{GlyphTable, UNITS_PER_PIXEL};
use crate::text::scalar_value;
use serde_json::value::RawValue;
use std::collections::BTreeMap;
use vstd::prelude::*;
use vstd::std_specs::iter::IteratorSpec;

verus! {

/// The error that `serde_json` reports for a text it cannot parse.
#[verifier::external_type_specification]
#[verifier::external_body]
pub struct ExJsonError(serde_json::Error);

/// Why a glyph-metrics source was turned down.
#[derive(Clone, Copy, Debug, PartialEq, Eq, Structural)]
pub enum MetricsError {
    /// The text is not a JSON object.
    Syntax,
    /// A key is not exactly one character.
    BadKey,
    /// A value is not a width: a decimal number without sign and exponent
    /// that is small enough to be held.
    BadWidth,
}

/// The members of the JSON object that `text` spells, as `serde_json` hands
/// them out: each member's key and the text of its value as it stands in
/// `text`. `None` if `text` does not spell a JSON object.
pub uninterp spec fn json_members(text: Seq<char>) -> Option<Seq<(Seq<char>, Seq<char>)>>;

/// The members of `members` as contracts see them.
pub open spec fn members_view(members: Seq<(String, String)>) -> Seq<(Seq<char>, Seq<char>)> {
    members.map_values(|m: (String, String)| (m.0@, m.1@))
}

/// Parses `text` with `serde_json::from_str` into a map from each member's
/// key to its value's raw text, and hands the members out in the map's
/// order.
///
/// The contract is taken on trust. It claims only that the outcome depends
/// on `text` alone, [`json_members`] being its name; of which texts the
/// parser accepts and what it makes of them it says nothing.
#[verifier::external_body]
fn parse_members(text: &str) -> (parsed: Result<Vec<(String, String)>, serde_json::Error>)
    ensures
        parsed is Ok <==> json_members(text@) is Some,
        parsed matches Ok(members) ==> members_view(members@) == json_members(text@)->0,
{
    let object = serde_json::from_str::<BTreeMap<String, Box<RawValue>>>(text)?;
    Ok(object.into_iter().map(|(key, value)| (key, value.get().to_owned())).collect())
}

/// Whether `c` is one of the digits `0` to `9`.
pub open spec fn is_digit(c: char) -> bool {
    48 <= c as int <= 57
}

/// The number that the digit `c` stands for.
pub open spec fn digit_value(c: char) -> nat {
    (c as int - 48) as nat
}

/// Whether `text` holds digits only.
pub open spec fn all_digits(text: Seq<char>) -> bool {
    forall|i: int| 0 <= i < text.len() ==> is_digit(#[trigger] text[i])
}

/// The number that the digits `digits` spell.
pub open spec fn digits_value(digits: Seq<char>) -> nat
    decreases digits.len(),
{
    if digits.len() == 0 {
        0
    } else {
        digits_value(digits.drop_last()) * 10 + digit_value(digits.last())
    }
}

/// Index of the first `.` in `text`; the length of `text` if it has none.
pub open spec fn dot_position(text: Seq<char>) -> int
    decreases text.len(),
{
    if text.len() == 0 || text[0] == '.' {
        0
    } else {
        1 + dot_position(text.drop_first())
    }
}

/// The digit at `index` of `digits`, 0 past the end.
pub open spec fn digit_at(digits: Seq<char>, index: int) -> nat {
    if 0 <= index < digits.len() {
        digit_value(digits[index])
    } else {
        0
    }
}

/// The fraction `0.digits` in thousandths, rounded to the nearest
/// thousandth, halves upwards.
pub open spec fn thousandths(digits: Seq<char>) -> nat {
    digit_at(digits, 0) * 100 + digit_at(digits, 1) * 10 + digit_at(digits, 2) + if digit_at(
        digits,
        3,
    ) >= 5 {
        1nat
    } else {
        0nat
    }
}

/// What follows the first `.` of `text`; nothing if `text` has no `.`.
pub open spec fn fraction_digits(text: Seq<char>) -> Seq<char> {
    let dot = dot_position(text);
    if dot < text.len() {
        text.skip(dot + 1)
    } else {
        Seq::empty()
    }
}

/// Whether `text` is a decimal number: one or more digits, which may be
/// followed by a `.` and one or more digits.
pub open spec fn is_decimal(text: Seq<char>) -> bool {
    let dot = dot_position(text);
    &&& dot > 0
    &&& all_digits(text.take(dot))
    &&& dot < text.len() ==> dot + 1 < text.len() && all_digits(fraction_digits(text))
}

/// The decimal number `text`, taken as pixels, in layout units: its whole
/// part times [`UNITS_PER_PIXEL`] plus its fraction in thousandths.
pub open spec fn decimal_units(text: Seq<char>) -> nat {
    let dot = dot_position(text);
    digits_value(text.take(dot)) * (UNITS_PER_PIXEL as nat) + thousandths(fraction_digits(text))
}

/// The width that `text` gives in layout units, if `text` is a decimal
/// number and the width fits in a `u32`.
pub open spec fn width_units(text: Seq<char>) -> Option<u32> {
    if is_decimal(text) && decimal_units(text) <= u32::MAX {
        Some(decimal_units(text) as u32)
    } else {
        None
    }
}

/// The character that `key` names, if `key` is exactly one character.
pub open spec fn key_char(key: Seq<char>) -> Option<char> {
    if key.len() == 1 {
        Some(key[0])
    } else {
        None
    }
}

/// The table that `members` describe, by scalar value, or what is wrong
/// with the first member that is not in order. Of two members with the same
/// key the later one counts.
pub open spec fn table_of(members: Seq<(Seq<char>, Seq<char>)>) -> Result<
    Map<u32, u32>,
    MetricsError,
>
    decreases members.len(),
{
    if members.len() == 0 {
        Ok(Map::empty())
    } else {
        match table_of(members.drop_last()) {
            Err(error) => Err(error),
            Ok(table) => match (key_char(members.last().0), width_units(members.last().1)) {
                (None, _) => Err(MetricsError::BadKey),
                (Some(_), None) => Err(MetricsError::BadWidth),
                (Some(c), Some(width)) => Ok(table.insert(c as u32, width)),
            },
        }
    }
}

/// What reading a table gave, as contracts see it.
pub open spec fn outcome_view(outcome: Result<GlyphTable, MetricsError>) -> Result<
    Map<u32, u32>,
    MetricsError,
> {
    match outcome {
        Ok(table) => Ok(table@),
        Err(error) => Err(error),
    }
}

/// The table that the JSON text `text` describes, or why it describes none.
pub open spec fn table_of_json(text: Seq<char>) -> Result<Map<u32, u32>, MetricsError> {
    match json_members(text) {
        None => Err(MetricsError::Syntax),
        Some(members) => table_of(members),
    }
}

/// Largest whole part, in pixels, whose width in layout units may still fit
/// in a `u32`; every whole part above it is held as one more than this.
const WHOLE_LIMIT: u64 = 4_294_967;

/// The characters of `text`.
pub fn chars_of(text: &str) -> (chars: Vec<char>)
    ensures
        chars@ == text@,
{
    broadcast use vstd::string::group_string_axioms;
    let mut chars: Vec<char> = Vec::new();
    let mut rest = text.chars();
    loop
        invariant
            text@ == chars@ + rest.remaining(),
            rest.decrease() is Some,
        decreases rest.decrease()->0,
    {
        match rest.next() {
            None => {
                assert(text@ =~= chars@);
                return chars;
            },
            Some(c) => {
                let ghost before = chars@;
                let ghost left = rest.remaining();
                chars.push(c);
                assert(before + seq![c].add(left) =~= chars@ + left);
            },
        }
    }
}

/// The character that `key` names, if `key` is exactly one character.
pub fn key_of(key: &str) -> (named: Option<char>)
    ensures
        named == key_char(key@),
{
    broadcast use vstd::string::group_string_axioms;
    let mut rest = key.chars();
    match rest.next() {
        None => None,
        Some(c) => match rest.next() {
            None => Some(c),
            Some(_) => None,
        },
    }
}

/// The digit that `c` stands for, if it is one.
fn digit_of(c: char) -> (digit: Option<u64>)
    ensures
        digit is Some <==> is_digit(c),
        digit matches Some(d) ==> d == digit_value(c) && d <= 9,
{
    let value = scalar_value(c);
    if 48 <= value && value <= 57 {
        Some((value - 48) as u64)
    } else {
        None
    }
}

/// Whether `c` is the decimal point.
fn is_dot(c: char) -> (dot: bool)
    ensures
        dot == (c == '.'),
{
    scalar_value(c) == 46
}

/// The digit at `index` of the digits that follow position `from` of
/// `chars`, 0 past the end.
fn fraction_digit(chars: &Vec<char>, from: usize, index: usize) -> (digit: u64)
    requires
        from < chars.len(),
        index < 4,
        all_digits(chars@.skip(from as int + 1)),
    ensures
        digit == digit_at(chars@.skip(from as int + 1), index as int),
        digit <= 9,
{
    let remaining = chars.len() - from - 1;
    if index < remaining {
        let ghost digits = chars@.skip(from as int + 1);
        assert(digits[index as int] == chars@[from + 1 + index]);
        assert(is_digit(digits[index as int]));
        match digit_of(chars[from + 1 + index]) {
            Some(d) => d,
            None => 0,
        }
    } else {
        0
    }
}

/// Reads `text` as a width in pixels and gives it in layout units, rounded
/// to the nearest unit. `text` must be a decimal number without sign and
/// exponent, and the width must fit in a `u32`.
pub fn parse_width(text: &str) -> (width: Option<u32>)
    ensures
        width == width_units(text@),
{
    let chars = chars_of(text);
    let n = chars.len();
    let mut whole: u64 = 0;
    let mut i: usize = 0;
    loop
        invariant
            i <= n,
            n == chars@.len(),
            chars@ == text@,
            all_digits(chars@.take(i as int)),
            forall|k: int| 0 <= k < i ==> chars@[k] != '.',
            whole <= WHOLE_LIMIT + 1,
            whole == if digits_value(chars@.take(i as int)) > WHOLE_LIMIT {
                WHOLE_LIMIT + 1
            } else {
                digits_value(chars@.take(i as int)) as int
            },
        ensures
            i == n || !is_digit(chars@[i as int]),
        decreases n - i,
    {
        if i == n {
            break ;
        }
        match digit_of(chars[i]) {
            None => {
                break ;
            },
            Some(d) => {
                proof {
                    let longer = chars@.take(i + 1);
                    assert(longer.drop_last() =~= chars@.take(i as int));
                    assert(longer.last() == chars@[i as int]);
                    assert forall|k: int| 0 <= k < longer.len() implies is_digit(
                        #[trigger] longer[k],
                    ) by {
                        if k < i {
                            assert(chars@.take(i as int)[k] == longer[k]);
                        }
                    }
                }
                whole = whole * 10 + d;
                if whole > WHOLE_LIMIT {
                    whole = WHOLE_LIMIT + 1;
                }
                i += 1;
            },
        }
    }
    proof {
        lemma_dot_is_first(text@, i as int);
    }
    if i == n {
        if i == 0 {
            return None;
        }
    } else if !is_dot(chars[i]) {
        proof {
            let dot = dot_position(text@);
            assert(text@.take(dot)[i as int] == text@[i as int]);
        }
        return None;
    } else if i == 0 {
        return None;
    }
    let fraction: u64 = if i == n {
        0
    } else {
        let ghost digits = text@.skip(i + 1);
        if i + 1 == n {
            return None;
        }
        let mut j: usize = i + 1;
        while j < n
            invariant
                i + 1 <= j <= n,
                n == chars@.len(),
                chars@ == text@,
                digits == text@.skip(i + 1),
                digits == fraction_digits(text@),
                forall|k: int| 0 <= k < j - i - 1 ==> is_digit(#[trigger] digits[k]),
            decreases n - j,
        {
            if digit_of(chars[j]).is_none() {
                assert(digits[j - i - 1] == chars@[j as int]);
                assert(!is_digit(digits[j - i - 1]));
                return None;
            }
            assert(digits[j - i - 1] == chars@[j as int]);
            j += 1;
        }
        let rounding: u64 = if fraction_digit(&chars, i, 3) >= 5 {
            1
        } else {
            0
        };
        fraction_digit(&chars, i, 0) * 100 + fraction_digit(&chars, i, 1) * 10 + fraction_digit(
            &chars,
            i,
            2,
        ) + rounding
    };
    if whole > WHOLE_LIMIT {
        return None;
    }
    let total = whole * 1000 + fraction;
    if total > u32::MAX as u64 {
        None
    } else {
        Some(total as u32)
    }
}

/// `at` is the position of the first `.` when no `.` stands before `at` and
/// either one stands at `at` or `at` is the end; and it is no later than
/// `at` when something other than a digit stands at `at`.
pub proof fn lemma_dot_is_first(text: Seq<char>, at: int)
    requires
        0 <= at <= text.len(),
        forall|k: int| 0 <= k < at ==> text[k] != '.',
    ensures
        at <= dot_position(text) <= text.len(),
        at == text.len() || text[at] == '.' ==> dot_position(text) == at,
        dot_position(text) < text.len() ==> text[dot_position(text)] == '.',
    decreases text.len(),
{
    if text.len() > 0 && text[0] != '.' {
        let rest = text.drop_first();
        if at > 0 {
            assert forall|k: int| 0 <= k < at - 1 implies rest[k] != '.' by {
                assert(rest[k] == text[k + 1]);
            }
            lemma_dot_is_first(rest, at - 1);
        } else {
            lemma_dot_is_first(rest, 0);
        }
    }
}

impl GlyphTable {
    /// Builds the table that `members` describe: each member gives a one
    /// character key and that character's width in pixels as a decimal
    /// number. The first member that is not in order decides the error.
    pub fn from_members(members: &Vec<(String, String)>) -> (outcome: Result<
        GlyphTable,
        MetricsError,
    >)
        ensures
            outcome_view(outcome) == table_of(members_view(members@)),
    {
        let mut table = GlyphTable::new();
        let ghost all = members_view(members@);
        let mut i: usize = 0;
        while i < members.len()
            invariant
                i <= members.len(),
                all == members_view(members@),
                table_of(all.take(i as int)) == Ok::<Map<u32, u32>, MetricsError>(table@),
            decreases members.len() - i,
        {
            proof {
                let longer = all.take(i + 1);
                assert(longer.drop_last() =~= all.take(i as int));
                assert(longer.last() == (members@[i as int].0@, members@[i as int].1@));
                if table_of(longer) is Err {
                    lemma_error_stays(all, i + 1);
                }
            }
            let member = &members[i];
            let c = match key_of(member.0.as_str()) {
                Some(c) => c,
                None => {
                    return Err(MetricsError::BadKey);
                },
            };
            let width = match parse_width(member.1.as_str()) {
                Some(width) => width,
                None => {
                    return Err(MetricsError::BadWidth);
                },
            };
            table.set_width(c, width);
            i += 1;
        }
        assert(all.take(i as int) =~= all);
        Ok(table)
    }

    /// Reads the table from the JSON text `text`. A text that is not a JSON
    /// object is reported as [`MetricsError::Syntax`]; the members of an
    /// object are taken in as [`GlyphTable::from_members`] says.
    pub fn from_json(text: &str) -> (outcome: Result<GlyphTable, MetricsError>)
        ensures
            outcome_view(outcome) == table_of_json(text@),
    {
        match parse_members(text) {
            Ok(members) => GlyphTable::from_members(&members),
            Err(_) => Err(MetricsError::Syntax),
        }
    }
}

/// Once a member is out of order, the members behind it change nothing.
pub proof fn lemma_error_stays(members: Seq<(Seq<char>, Seq<char>)>, upto: int)
    requires
        0 <= upto <= members.len(),
        table_of(members.take(upto)) is Err,
    ensures
        table_of(members) == table_of(members.take(upto)),
    decreases members.len() - upto,
{
    if upto < members.len() {
        let longer = members.take(upto + 1);
        assert(longer.drop_last() =~= members.take(upto));
        lemma_error_stays(members, upto + 1);
    } else {
        assert(members.take(upto) =~= members);
    }
}

} // verus!
