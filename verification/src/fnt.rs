//! The text form of a bitmap-font description.
//!
//! A description is a sequence of lines. A line starts with a keyword that
//! says what it describes (`info`, `common`, `page`, `char`), followed by
//! attributes of the form `name=value`, separated by spaces.

use vstd::prelude::*;
use vstd::string::StrSliceExecFns;
use vstd::string::StringExecFns;
use crate::text::{
    after_first, before_first, first_index_of, lemma_first_index_of_bounds,
    lemma_leading_whitespace_bounds, split_at_first, str_eq, trim_start, trimmed_start,
};

verus! {

/// Why a line of a description was refused.
#[derive(Debug, Clone, Copy, PartialEq, Eq, Structural)]
pub enum LineError {
    /// The line starts with a keyword that is not known.
    UnknownKeyword,
    /// The line holds an attribute that its keyword does not have.
    UnknownAttribute,
    /// A value is not a decimal number of the attribute's type.
    InvalidNumber,
    /// A text value does not start with a double quote.
    MissingOpeningQuote,
    /// A text value does not end with a double quote.
    MissingClosingQuote,
    /// A list of numbers has too few or too many items.
    InvalidArray,
}

/// Why a description was refused: the number of the offending line,
/// counted from one, and what is wrong with it.
#[derive(Debug, Clone, Copy, PartialEq, Eq, Structural)]
pub struct FntError {
    pub line: usize,
    pub cause: LineError,
}

/// An attribute: its name and its value.
pub type Attribute = (Seq<char>, Seq<char>);

/// `c` is one of the ten decimal digits.
pub open spec fn is_digit(c: char) -> bool {
    0x30 <= c as u32 <= 0x39
}

/// Every character of `s` is a decimal digit.
pub open spec fn all_digits(s: Seq<char>) -> bool {
    forall|i: int| 0 <= i < s.len() ==> is_digit(#[trigger] s[i])
}

/// The number that a sequence of decimal digits stands for.
pub open spec fn digits_value(s: Seq<char>) -> int
    decreases s.len(),
{
    if s.len() == 0 {
        0
    } else {
        10 * digits_value(s.drop_last()) + (s.last() as u32 - 0x30)
    }
}

/// The number that a decimal literal stands for: an optional sign, then at
/// least one digit and nothing else. A minus sign is only read where
/// `signed` holds.
pub open spec fn literal_value(s: Seq<char>, signed: bool) -> Option<int> {
    let negative = signed && s.len() > 0 && s[0] == '-';
    let digits = if s.len() > 0 && (s[0] == '+' || negative) {
        s.skip(1)
    } else {
        s
    };
    if digits.len() == 0 || !all_digits(digits) {
        None
    } else if negative {
        Some(-digits_value(digits))
    } else {
        Some(digits_value(digits))
    }
}

/// The value of a sequence of digits is not negative, and no smaller than
/// the value of any of its prefixes.
proof fn lemma_digits_value_grows(s: Seq<char>, n: int)
    requires
        all_digits(s),
        0 <= n <= s.len(),
    ensures
        0 <= digits_value(s.take(n)) <= digits_value(s),
    decreases s.len() - n,
{
    lemma_digits_value_nonnegative(s.take(n));
    if n < s.len() {
        let longer = s.take(n + 1);
        assert(longer.drop_last() =~= s.take(n));
        assert(is_digit(s[n]));
        lemma_digits_value_grows(s, n + 1);
    } else {
        assert(s.take(n) =~= s);
    }
}

proof fn lemma_digits_value_nonnegative(s: Seq<char>)
    requires
        all_digits(s),
    ensures
        0 <= digits_value(s),
    decreases s.len(),
{
    if s.len() > 0 {
        assert(is_digit(s[s.len() - 1]));
        lemma_digits_value_nonnegative(s.drop_last());
    }
}

/// The largest magnitude that any of the number types of a description
/// can hold.
pub const MAGNITUDE_LIMIT: i64 = 0xFFFF_FFFF;

/// Reads a decimal literal whose magnitude is at most
/// [`MAGNITUDE_LIMIT`].
pub fn parse_integer(s: &str, signed: bool) -> (value: Option<i64>)
    ensures
        value == match literal_value(s@, signed) {
            Some(v) => if -MAGNITUDE_LIMIT <= v <= MAGNITUDE_LIMIT {
                Some(v as i64)
            } else {
                None
            },
            None => None,
        },
{
    let len: usize = s.unicode_len();
    if len == 0 {
        return None;
    }
    let first: char = s.get_char(0);
    let negative: bool = signed && first == '-';
    let start: usize = if first == '+' || negative {
        1
    } else {
        0
    };
    let digits = s.substring_char(start, len);
    assert(digits@ =~= if start == 1 {
        s@.skip(1)
    } else {
        s@
    });
    if start == len {
        return None;
    }
    let mut acc: i64 = 0;
    let mut i: usize = 0;
    for ch in iter: digits.chars()
        invariant
            i == iter.index(),
            iter.seq() == digits@,
            digits@.len() == len - start,
            digits@.len() > 0,
            negative == (signed && s@.len() > 0 && s@[0] == '-'),
            digits@ == if s@.len() > 0 && (s@[0] == '+' || negative) {
                s@.skip(1)
            } else {
                s@
            },
            all_digits(digits@.take(i as int)),
            acc == digits_value(digits@.take(i as int)),
            0 <= acc <= MAGNITUDE_LIMIT,
    {
        let code: u32 = ch as u32;
        if code < 0x30 || code > 0x39 {
            assert(!is_digit(digits@[i as int]));
            return None;
        }
        proof {
            let longer = digits@.take(i + 1);
            assert(longer.drop_last() =~= digits@.take(i as int));
            assert(longer.last() == ch);
            assert forall|j: int| 0 <= j < longer.len() implies is_digit(#[trigger] longer[j]) by {
                if j < i {
                    assert(digits@.take(i as int)[j] == longer[j]);
                }
            }
        }
        acc = acc * 10 + (code - 0x30) as i64;
        if acc > MAGNITUDE_LIMIT {
            proof {
                if all_digits(digits@) {
                    lemma_digits_value_grows(digits@, i + 1);
                }
            }
            return None;
        }
        i += 1;
    }
    assert(digits@.take(i as int) =~= digits@);
    if negative {
        Some(-acc)
    } else {
        Some(acc)
    }
}

/// A type of number that a description can hold.
pub trait Literal: Sized {
    /// The number that the literal stands for, if it is one of this type.
    spec fn value_of(s: Seq<char>) -> Option<Self>;

    /// Reads a decimal literal of this type.
    fn from_literal(s: &str) -> (value: Option<Self>)
        ensures
            value == Self::value_of(s@),
    ;
}

impl Literal for u8 {
    open spec fn value_of(s: Seq<char>) -> Option<u8> {
        match literal_value(s, false) {
            Some(v) => if v <= u8::MAX {
                Some(v as u8)
            } else {
                None
            },
            None => None,
        }
    }

    fn from_literal(s: &str) -> (value: Option<u8>) {
        proof {
            lemma_literal_sign(s@, false);
        }
        match parse_integer(s, false) {
            Some(v) => if v <= 0xFF {
                Some(v as u8)
            } else {
                None
            },
            None => None,
        }
    }
}

impl Literal for u32 {
    open spec fn value_of(s: Seq<char>) -> Option<u32> {
        match literal_value(s, false) {
            Some(v) => if v <= u32::MAX {
                Some(v as u32)
            } else {
                None
            },
            None => None,
        }
    }

    fn from_literal(s: &str) -> (value: Option<u32>) {
        proof {
            lemma_literal_sign(s@, false);
        }
        match parse_integer(s, false) {
            Some(v) => Some(v as u32),
            None => None,
        }
    }
}

impl Literal for i32 {
    open spec fn value_of(s: Seq<char>) -> Option<i32> {
        match literal_value(s, true) {
            Some(v) => if i32::MIN <= v <= i32::MAX {
                Some(v as i32)
            } else {
                None
            },
            None => None,
        }
    }

    fn from_literal(s: &str) -> (value: Option<i32>) {
        match parse_integer(s, true) {
            Some(v) => if -0x8000_0000 <= v && v <= 0x7FFF_FFFF {
                Some(v as i32)
            } else {
                None
            },
            None => None,
        }
    }
}

/// A literal that is read without a minus sign stands for no negative
/// number.
proof fn lemma_literal_sign(s: Seq<char>, signed: bool)
    ensures
        !signed ==> (literal_value(s, signed) matches Some(v) ==> v >= 0),
{
    if !signed && literal_value(s, signed) is Some {
        let digits = if s.len() > 0 && s[0] == '+' {
            s.skip(1)
        } else {
            s
        };
        lemma_digits_value_nonnegative(digits);
    }
}

/// Reads a number.
pub fn parse<T: Literal>(rhs: &str) -> (value: Result<T, LineError>)
    ensures
        value == match T::value_of(rhs@) {
            Some(v) => Ok::<T, LineError>(v),
            None => Err::<T, LineError>(LineError::InvalidNumber),
        },
{
    match T::from_literal(rhs) {
        Some(v) => Ok(v),
        None => Err(LineError::InvalidNumber),
    }
}

/// The text between the double quotes that enclose `s`.
pub open spec fn quoted_text(s: Seq<char>) -> Result<Seq<char>, LineError> {
    if s.len() == 0 || s[0] != '"' {
        Err(LineError::MissingOpeningQuote)
    } else if s.len() < 2 || s.last() != '"' {
        Err(LineError::MissingClosingQuote)
    } else {
        Ok(s.subrange(1, s.len() - 1))
    }
}

/// Reads a text value, which stands between double quotes.
pub fn parse_string(value: &str) -> (text: Result<String, LineError>)
    ensures
        text matches Ok(t) ==> quoted_text(value@) == Ok::<Seq<char>, LineError>(t@),
        text matches Err(e) ==> quoted_text(value@) == Err::<Seq<char>, LineError>(e),
{
    let len: usize = value.unicode_len();
    if len == 0 || value.get_char(0) != '"' {
        return Err(LineError::MissingOpeningQuote);
    }
    if len < 2 || value.get_char(len - 1) != '"' {
        return Err(LineError::MissingClosingQuote);
    }
    Ok(String::from_str(value.substring_char(1, len - 1)))
}

/// Splits `line` at its first `pat`: what stands before it, and what
/// stands behind it. Without a `pat` the first part is the whole line.
pub fn consume_until_pat<'a>(line: &'a str, pat: char) -> (parts: (&'a str, &'a str))
    ensures
        parts.0@ == before_first(line@, pat),
        parts.1@ == after_first(line@, pat),
{
    match split_at_first(line, pat) {
        Some(parts) => parts,
        None => {
            proof {
                reveal_strlit("");
                lemma_first_index_of_bounds(line@, pat);
                assert(line@.take(line@.len() as int) =~= line@);
                assert(""@ =~= Seq::<char>::empty());
            }
            (line, "")
        },
    }
}

/// Splits `line` at its first space: the word before it, and what stands
/// behind it without the whitespace that it starts with.
pub fn consume_until_space<'a>(line: &'a str) -> (parts: (&'a str, &'a str))
    ensures
        parts.0@ == before_first(line@, ' '),
        parts.1@ == trimmed_start(after_first(line@, ' ')),
{
    match split_at_first(line, ' ') {
        Some((word, rest)) => (word, trim_start(rest)),
        None => {
            proof {
                reveal_strlit("");
                lemma_first_index_of_bounds(line@, ' ');
                assert(line@.take(line@.len() as int) =~= line@);
                assert(""@ =~= Seq::<char>::empty());
                assert(trimmed_start(Seq::<char>::empty()) =~= Seq::<char>::empty());
            }
            (line, "")
        },
    }
}

/// The name and the value of an attribute `name=value`. An expression
/// without an equals sign, or with nothing behind the first one, is no
/// attribute.
pub open spec fn split_equality(expr: Seq<char>) -> Option<Attribute> {
    let at = first_index_of(expr, '=');
    if at + 1 < expr.len() {
        Some((expr.take(at), expr.skip(at + 1)))
    } else {
        None
    }
}

/// Splits an attribute into its name and its value.
pub fn try_split_equality<'a>(expr: &'a str) -> (parts: Option<(&'a str, &'a str)>)
    ensures
        parts matches Some((lhs, rhs)) ==> split_equality(expr@) == Some((lhs@, rhs@)),
        parts is None ==> split_equality(expr@) is None,
{
    proof {
        lemma_first_index_of_bounds(expr@, '=');
    }
    match split_at_first(expr, '=') {
        Some((lhs, rhs)) => {
            if rhs.is_empty() {
                None
            } else {
                Some((lhs, rhs))
            }
        },
        None => None,
    }
}

/// What is left of a line behind its first word is shorter than the line.
pub proof fn lemma_rest_is_shorter(line: Seq<char>)
    requires
        line.len() > 0,
    ensures
        trimmed_start(after_first(line, ' ')).len() < line.len(),
{
    lemma_first_index_of_bounds(line, ' ');
    lemma_leading_whitespace_bounds(after_first(line, ' '));
}

/// The attributes of a line, in the order in which they stand. Words that
/// are no attributes are passed over.
pub open spec fn attributes(line: Seq<char>) -> Seq<Attribute>
    decreases line.len(),
    via attributes_decreases
{
    if line.len() == 0 {
        Seq::empty()
    } else {
        let rest = attributes(trimmed_start(after_first(line, ' ')));
        match split_equality(before_first(line, ' ')) {
            Some(attribute) => seq![attribute] + rest,
            None => rest,
        }
    }
}

#[via_fn]
proof fn attributes_decreases(line: Seq<char>) {
    if line.len() > 0 {
        lemma_rest_is_shorter(line);
    }
}

/// The names and values of attributes as sequences of characters.
pub open spec fn attribute_views(pairs: Seq<(&str, &str)>) -> Seq<Attribute> {
    pairs.map_values(|pair: (&str, &str)| (pair.0@, pair.1@))
}

/// Splits a line into its attributes.
pub fn parse_line<'a>(line: &'a str) -> (found: Vec<(&'a str, &'a str)>)
    ensures
        attribute_views(found@) == attributes(line@),
{
    let mut found: Vec<(&'a str, &'a str)> = Vec::new();
    let mut rest: &'a str = line;
    assert(attribute_views(found@) =~= Seq::<Attribute>::empty());
    while !rest.is_empty()
        invariant
            attributes(line@) == attribute_views(found@) + attributes(rest@),
        decreases rest@.len(),
    {
        let ghost before = attribute_views(found@);
        let (expr, next) = consume_until_space(rest);
        proof {
            lemma_rest_is_shorter(rest@);
        }
        match try_split_equality(expr) {
            Some(pair) => {
                found.push(pair);
                assert(attribute_views(found@) =~= before + seq![(pair.0@, pair.1@)]);
                assert(attributes(rest@) == seq![(pair.0@, pair.1@)] + attributes(next@));
                assert(before + (seq![(pair.0@, pair.1@)] + attributes(next@)) =~= (before
                    + seq![(pair.0@, pair.1@)]) + attributes(next@));
            },
            None => {},
        }
        rest = next;
    }
    assert(attributes(rest@) =~= Seq::<Attribute>::empty());
    assert(attribute_views(found@) + Seq::<Attribute>::empty() =~= attribute_views(found@));
    found
}

/// Prepends the numbers that were read to the outcome of reading the rest.
pub open spec fn prepend(head: Seq<i32>, tail: Result<Seq<i32>, LineError>) -> Result<
    Seq<i32>,
    LineError,
> {
    match tail {
        Ok(numbers) => Ok(head + numbers),
        Err(e) => Err(e),
    }
}

/// The `n` numbers of a list in which a comma follows each number but
/// the last, behind which it may stand or not.
pub open spec fn number_list(s: Seq<char>, n: nat) -> Result<Seq<i32>, LineError>
    decreases n,
{
    if n == 0 {
        if s.len() == 0 {
            Ok(Seq::empty())
        } else {
            Err(LineError::InvalidArray)
        }
    } else if s.len() == 0 {
        Err(LineError::InvalidArray)
    } else {
        match <i32 as Literal>::value_of(before_first(s, ',')) {
            Some(number) => prepend(seq![number], number_list(after_first(s, ','), (n - 1) as nat)),
            None => Err(LineError::InvalidNumber),
        }
    }
}

/// Reads a list of `N` numbers, separated by commas.
pub fn parse_array<const N: usize>(rhs: &str) -> (numbers: Result<[i32; N], LineError>)
    ensures
        numbers matches Ok(a) ==> number_list(rhs@, N as nat) == Ok::<Seq<i32>, LineError>(a@),
        numbers matches Err(e) ==> number_list(rhs@, N as nat) == Err::<Seq<i32>, LineError>(e),
{
    let mut output: [i32; N] = [0i32; N];
    let mut rest: &str = rhs;
    let mut index: usize = 0;
    assert(output@.take(0) =~= Seq::<i32>::empty());
    assert(prepend(Seq::<i32>::empty(), number_list(rhs@, N as nat)) == number_list(
        rhs@,
        N as nat,
    )) by {
        if let Ok(numbers) = number_list(rhs@, N as nat) {
            assert(Seq::<i32>::empty() + numbers =~= numbers);
        }
    }
    while !rest.is_empty() && index < N
        invariant
            index <= N,
            number_list(rhs@, N as nat) == prepend(
                output@.take(index as int),
                number_list(rest@, (N - index) as nat),
            ),
        decreases N - index,
    {
        let (val, next) = consume_until_pat(rest, ',');
        let ghost head = output@.take(index as int);
        match parse::<i32>(val) {
            Ok(number) => {
                output[index] = number;
                proof {
                    let tail = number_list(next@, (N - index - 1) as nat);
                    assert(output@.take(index + 1) =~= head + seq![number]);
                    if let Ok(numbers) = tail {
                        assert(head + (seq![number] + numbers) =~= (head + seq![number]) + numbers);
                    }
                }
            },
            Err(e) => {
                return Err(e);
            },
        }
        rest = next;
        index += 1;
    }
    if index != N || !rest.is_empty() {
        return Err(LineError::InvalidArray);
    }
    assert(output@.take(N as int) + Seq::<i32>::empty() =~= output@);
    Ok(output)
}

/// The value that a number attribute gets, or why it is refused.
pub open spec fn number_of<T: Literal>(value: Seq<char>) -> Result<T, LineError> {
    match T::value_of(value) {
        Some(v) => Ok(v),
        None => Err(LineError::InvalidNumber),
    }
}

/// The record that `set` makes of the number that `value` stands for.
pub open spec fn set_number<T: Literal, V>(value: Seq<char>, set: spec_fn(T) -> V) -> Result<
    V,
    LineError,
> {
    match number_of::<T>(value) {
        Ok(number) => Ok(set(number)),
        Err(e) => Err(e),
    }
}

/// The record that `set` makes of the text that `value` quotes.
pub open spec fn set_text<V>(value: Seq<char>, set: spec_fn(Seq<char>) -> V) -> Result<
    V,
    LineError,
> {
    match quoted_text(value) {
        Ok(text) => Ok(set(text)),
        Err(e) => Err(e),
    }
}

/// The record that `set` makes of the `n` numbers that `value` lists.
pub open spec fn set_numbers<V>(value: Seq<char>, n: nat, set: spec_fn(Seq<i32>) -> V) -> Result<
    V,
    LineError,
> {
    match number_list(value, n) {
        Ok(numbers) => Ok(set(numbers)),
        Err(e) => Err(e),
    }
}

/// A kind of line of a description: a record that is filled attribute by
/// attribute.
pub trait Record: Sized + View {
    /// The record before any attribute was read.
    spec fn empty_view() -> Self::V;

    /// The record after one more attribute was read, or why the attribute
    /// was refused.
    spec fn with_attribute(record: Self::V, attribute: Attribute) -> Result<Self::V, LineError>;

    /// The record before any attribute was read.
    fn empty() -> (record: Self)
        ensures
            record@ == Self::empty_view(),
    ;

    /// Reads one attribute into the record.
    fn set_attribute(&mut self, name: &str, value: &str) -> (done: Result<(), LineError>)
        ensures
            done matches Ok(_) ==> Self::with_attribute(old(self)@, (name@, value@)) == Ok::<
                Self::V,
                LineError,
            >(final(self)@),
            done matches Err(e) ==> Self::with_attribute(old(self)@, (name@, value@)) == Err::<
                Self::V,
                LineError,
            >(e),
    ;
}

/// The record that the attributes give when they are read in their order,
/// or why the first attribute that was refused was.
pub open spec fn record_from<R: Record>(attrs: Seq<Attribute>) -> Result<R::V, LineError>
    decreases attrs.len(),
{
    if attrs.len() == 0 {
        Ok(R::empty_view())
    } else {
        match record_from::<R>(attrs.drop_last()) {
            Ok(record) => R::with_attribute(record, attrs.last()),
            Err(e) => Err(e),
        }
    }
}

/// Once an attribute was refused, the attributes behind it change nothing.
proof fn lemma_refusal_stays<R: Record>(attrs: Seq<Attribute>, n: int)
    requires
        0 <= n <= attrs.len(),
        record_from::<R>(attrs.take(n)) is Err,
    ensures
        record_from::<R>(attrs) == record_from::<R>(attrs.take(n)),
    decreases attrs.len() - n,
{
    if n < attrs.len() {
        let longer = attrs.take(n + 1);
        assert(longer.drop_last() =~= attrs.take(n));
        lemma_refusal_stays::<R>(attrs, n + 1);
    } else {
        assert(attrs.take(n) =~= attrs);
    }
}

/// Reads the attributes of a line into a record.
pub fn parse_record<R: Record>(line: &str) -> (record: Result<R, LineError>)
    ensures
        record matches Ok(r) ==> record_from::<R>(attributes(line@)) == Ok::<R::V, LineError>(r@),
        record matches Err(e) ==> record_from::<R>(attributes(line@)) == Err::<R::V, LineError>(
            e,
        ),
{
    let found = parse_line(line);
    let ghost attrs = attributes(line@);
    let mut output = R::empty();
    let mut i: usize = 0;
    assert(attrs.take(0) =~= Seq::<Attribute>::empty());
    while i < found.len()
        invariant
            i <= found.len(),
            attribute_views(found@) == attrs,
            attrs == attributes(line@),
            record_from::<R>(attrs.take(i as int)) == Ok::<R::V, LineError>(output@),
        decreases found.len() - i,
    {
        let (name, value) = found[i];
        let ghost longer = attrs.take(i + 1);
        proof {
            assert(longer.drop_last() =~= attrs.take(i as int));
            assert(longer.last() == (name@, value@));
        }
        match output.set_attribute(name, value) {
            Ok(_) => {},
            Err(e) => {
                proof {
                    assert(record_from::<R>(longer) == Err::<R::V, LineError>(e));
                    lemma_refusal_stays::<R>(attrs, i + 1);
                }
                return Err(e);
            },
        }
        i += 1;
    }
    assert(attrs.take(i as int) =~= attrs);
    Ok(output)
}

/// A `page` line: one image that holds glyphs.
#[derive(Debug, Clone)]
pub struct FntPage {
    pub id: u32,
    pub file: String,
}

/// The mathematical value of a [`FntPage`].
pub struct FntPageView {
    pub id: u32,
    pub file: Seq<char>,
}

impl View for FntPage {
    type V = FntPageView;

    open spec fn view(&self) -> FntPageView {
        FntPageView { id: self.id, file: self.file@ }
    }
}

/// A `char` line: one glyph, where it lies on its page and how it is set.
#[derive(Debug, Clone, Copy, PartialEq, Eq, Structural)]
pub struct FntChar {
    pub id: u32,
    pub x: i32,
    pub y: i32,
    pub width: i32,
    pub height: i32,
    pub x_offset: i32,
    pub y_offset: i32,
    pub x_advance: i32,
    pub page: u32,
    pub chnl: u32,
}

impl View for FntChar {
    type V = FntChar;

    open spec fn view(&self) -> FntChar {
        *self
    }
}

/// The `info` line: how the font was made.
#[derive(Debug, Clone)]
pub struct FntInfo {
    pub face: String,
    pub size: i32,
    pub bold: u8,
    pub italic: u8,
    pub charset: String,
    pub unicode: u8,
    pub stretch_h: i32,
    pub smooth: u8,
    pub aa: u8,
    pub padding: [i32; 4],
    pub spacing: [i32; 2],
}

/// The mathematical value of a [`FntInfo`].
pub struct FntInfoView {
    pub face: Seq<char>,
    pub size: i32,
    pub bold: u8,
    pub italic: u8,
    pub charset: Seq<char>,
    pub unicode: u8,
    pub stretch_h: i32,
    pub smooth: u8,
    pub aa: u8,
    pub padding: Seq<i32>,
    pub spacing: Seq<i32>,
}

impl View for FntInfo {
    type V = FntInfoView;

    open spec fn view(&self) -> FntInfoView {
        FntInfoView {
            face: self.face@,
            size: self.size,
            bold: self.bold,
            italic: self.italic,
            charset: self.charset@,
            unicode: self.unicode,
            stretch_h: self.stretch_h,
            smooth: self.smooth,
            aa: self.aa,
            padding: self.padding@,
            spacing: self.spacing@,
        }
    }
}

/// The `common` line: measures that all glyphs share.
#[derive(Debug, Clone, Copy, PartialEq, Eq, Structural)]
pub struct FntCommon {
    pub line_height: i32,
    pub base: i32,
    pub scale_w: i32,
    pub scale_h: i32,
    pub num_pages: u32,
    pub packed: u8,
}

impl View for FntCommon {
    type V = FntCommon;

    open spec fn view(&self) -> FntCommon {
        *self
    }
}

impl Default for FntPage {
    fn default() -> (page: Self)
        ensures
            page@ == <FntPage as Record>::empty_view(),
    {
        FntPage { id: 0, file: String::new() }
    }
}

impl Record for FntPage {
    open spec fn empty_view() -> FntPageView {
        FntPageView { id: 0, file: Seq::empty() }
    }

    open spec fn with_attribute(record: FntPageView, attribute: Attribute) -> Result<
        FntPageView,
        LineError,
    > {
        let (name, value) = attribute;
        if name == "id"@ {
            set_number(value, |id: u32| FntPageView { id, ..record })
        } else if name == "file"@ {
            set_text(value, |file: Seq<char>| FntPageView { file, ..record })
        } else {
            Err(LineError::UnknownAttribute)
        }
    }

    fn empty() -> (record: Self) {
        FntPage::default()
    }

    fn set_attribute(&mut self, name: &str, value: &str) -> (done: Result<(), LineError>) {
        if str_eq(name, "id") {
            self.id = parse(value)?;
        } else if str_eq(name, "file") {
            self.file = parse_string(value)?;
        } else {
            return Err(LineError::UnknownAttribute);
        }
        Ok(())
    }
}

impl FntPage {
    /// The keyword of the lines that describe a page.
    pub const KEYWORD: &'static str = "page";

    /// Reads what follows the keyword of a `page` line.
    pub fn try_parse(line: &str) -> (page: Result<Self, LineError>)
        ensures
            page matches Ok(p) ==> record_from::<FntPage>(attributes(line@)) == Ok::<
                FntPageView,
                LineError,
            >(p@),
            page matches Err(e) ==> record_from::<FntPage>(attributes(line@)) == Err::<
                FntPageView,
                LineError,
            >(e),
    {
        parse_record::<FntPage>(line)
    }
}

impl Default for FntChar {
    fn default() -> (glyph: Self)
        ensures
            glyph == <FntChar as Record>::empty_view(),
    {
        FntChar {
            id: 0,
            x: 0,
            y: 0,
            width: 0,
            height: 0,
            x_offset: 0,
            y_offset: 0,
            x_advance: 0,
            page: 0,
            chnl: 0,
        }
    }
}

impl Record for FntChar {
    open spec fn empty_view() -> FntChar {
        FntChar {
            id: 0,
            x: 0,
            y: 0,
            width: 0,
            height: 0,
            x_offset: 0,
            y_offset: 0,
            x_advance: 0,
            page: 0,
            chnl: 0,
        }
    }

    open spec fn with_attribute(record: FntChar, attribute: Attribute) -> Result<
        FntChar,
        LineError,
    > {
        let (name, value) = attribute;
        if name == "id"@ {
            set_number(value, |id: u32| FntChar { id, ..record })
        } else if name == "x"@ {
            set_number(value, |x: i32| FntChar { x, ..record })
        } else if name == "y"@ {
            set_number(value, |y: i32| FntChar { y, ..record })
        } else if name == "width"@ {
            set_number(value, |width: i32| FntChar { width, ..record })
        } else if name == "height"@ {
            set_number(value, |height: i32| FntChar { height, ..record })
        } else if name == "xoffset"@ {
            set_number(value, |x_offset: i32| FntChar { x_offset, ..record })
        } else if name == "yoffset"@ {
            set_number(value, |y_offset: i32| FntChar { y_offset, ..record })
        } else if name == "xadvance"@ {
            set_number(value, |x_advance: i32| FntChar { x_advance, ..record })
        } else if name == "page"@ {
            set_number(value, |page: u32| FntChar { page, ..record })
        } else if name == "chnl"@ {
            set_number(value, |chnl: u32| FntChar { chnl, ..record })
        } else {
            Err(LineError::UnknownAttribute)
        }
    }

    fn empty() -> (record: Self) {
        FntChar::default()
    }

    fn set_attribute(&mut self, name: &str, value: &str) -> (done: Result<(), LineError>) {
        if str_eq(name, "id") {
            self.id = parse(value)?;
        } else if str_eq(name, "x") {
            self.x = parse(value)?;
        } else if str_eq(name, "y") {
            self.y = parse(value)?;
        } else if str_eq(name, "width") {
            self.width = parse(value)?;
        } else if str_eq(name, "height") {
            self.height = parse(value)?;
        } else if str_eq(name, "xoffset") {
            self.x_offset = parse(value)?;
        } else if str_eq(name, "yoffset") {
            self.y_offset = parse(value)?;
        } else if str_eq(name, "xadvance") {
            self.x_advance = parse(value)?;
        } else if str_eq(name, "page") {
            self.page = parse(value)?;
        } else if str_eq(name, "chnl") {
            self.chnl = parse(value)?;
        } else {
            return Err(LineError::UnknownAttribute);
        }
        Ok(())
    }
}

impl FntChar {
    /// The keyword of the lines that describe a glyph.
    pub const KEYWORD: &'static str = "char";

    /// Reads what follows the keyword of a `char` line.
    pub fn try_parse(line: &str) -> (glyph: Result<Self, LineError>)
        ensures
            glyph matches Ok(g) ==> record_from::<FntChar>(attributes(line@)) == Ok::<
                FntChar,
                LineError,
            >(g),
            glyph matches Err(e) ==> record_from::<FntChar>(attributes(line@)) == Err::<
                FntChar,
                LineError,
            >(e),
    {
        parse_record::<FntChar>(line)
    }
}

impl Default for FntInfo {
    fn default() -> (info: Self)
        ensures
            info@ == <FntInfo as Record>::empty_view(),
    {
        let info = FntInfo {
            face: String::new(),
            size: 0,
            bold: 0,
            italic: 0,
            charset: String::new(),
            unicode: 0,
            stretch_h: 0,
            smooth: 0,
            aa: 0,
            padding: [0, 0, 0, 0],
            spacing: [0, 0],
        };
        assert(info.padding@ =~= seq![0i32, 0i32, 0i32, 0i32]);
        assert(info.spacing@ =~= seq![0i32, 0i32]);
        info
    }
}

impl Record for FntInfo {
    open spec fn empty_view() -> FntInfoView {
        FntInfoView {
            face: Seq::empty(),
            size: 0,
            bold: 0,
            italic: 0,
            charset: Seq::empty(),
            unicode: 0,
            stretch_h: 0,
            smooth: 0,
            aa: 0,
            padding: seq![0i32, 0i32, 0i32, 0i32],
            spacing: seq![0i32, 0i32],
        }
    }

    open spec fn with_attribute(record: FntInfoView, attribute: Attribute) -> Result<
        FntInfoView,
        LineError,
    > {
        let (name, value) = attribute;
        if name == "face"@ {
            set_text(value, |face: Seq<char>| FntInfoView { face, ..record })
        } else if name == "size"@ {
            set_number(value, |size: i32| FntInfoView { size, ..record })
        } else if name == "bold"@ {
            set_number(value, |bold: u8| FntInfoView { bold, ..record })
        } else if name == "italic"@ {
            set_number(value, |italic: u8| FntInfoView { italic, ..record })
        } else if name == "charset"@ {
            set_text(value, |charset: Seq<char>| FntInfoView { charset, ..record })
        } else if name == "unicode"@ {
            set_number(value, |unicode: u8| FntInfoView { unicode, ..record })
        } else if name == "stretchH"@ {
            set_number(value, |stretch_h: i32| FntInfoView { stretch_h, ..record })
        } else if name == "smooth"@ {
            set_number(value, |smooth: u8| FntInfoView { smooth, ..record })
        } else if name == "aa"@ {
            set_number(value, |aa: u8| FntInfoView { aa, ..record })
        } else if name == "padding"@ {
            set_numbers(value, 4, |padding: Seq<i32>| FntInfoView { padding, ..record })
        } else if name == "spacing"@ {
            set_numbers(value, 2, |spacing: Seq<i32>| FntInfoView { spacing, ..record })
        } else {
            Err(LineError::UnknownAttribute)
        }
    }

    fn empty() -> (record: Self) {
        FntInfo::default()
    }

    fn set_attribute(&mut self, name: &str, value: &str) -> (done: Result<(), LineError>) {
        if str_eq(name, "face") {
            self.face = parse_string(value)?;
        } else if str_eq(name, "size") {
            self.size = parse(value)?;
        } else if str_eq(name, "bold") {
            self.bold = parse(value)?;
        } else if str_eq(name, "italic") {
            self.italic = parse(value)?;
        } else if str_eq(name, "charset") {
            self.charset = parse_string(value)?;
        } else if str_eq(name, "unicode") {
            self.unicode = parse(value)?;
        } else if str_eq(name, "stretchH") {
            self.stretch_h = parse(value)?;
        } else if str_eq(name, "smooth") {
            self.smooth = parse(value)?;
        } else if str_eq(name, "aa") {
            self.aa = parse(value)?;
        } else if str_eq(name, "padding") {
            self.padding = parse_array(value)?;
        } else if str_eq(name, "spacing") {
            self.spacing = parse_array(value)?;
        } else {
            return Err(LineError::UnknownAttribute);
        }
        Ok(())
    }
}

impl FntInfo {
    /// The keyword of the line that says how the font was made.
    pub const KEYWORD: &'static str = "info";

    /// Reads what follows the keyword of the `info` line.
    pub fn try_parse(line: &str) -> (info: Result<Self, LineError>)
        ensures
            info matches Ok(i) ==> record_from::<FntInfo>(attributes(line@)) == Ok::<
                FntInfoView,
                LineError,
            >(i@),
            info matches Err(e) ==> record_from::<FntInfo>(attributes(line@)) == Err::<
                FntInfoView,
                LineError,
            >(e),
    {
        parse_record::<FntInfo>(line)
    }
}

impl Default for FntCommon {
    fn default() -> (common: Self)
        ensures
            common == <FntCommon as Record>::empty_view(),
    {
        FntCommon { line_height: 0, base: 0, scale_w: 0, scale_h: 0, num_pages: 0, packed: 0 }
    }
}

impl Record for FntCommon {
    open spec fn empty_view() -> FntCommon {
        FntCommon { line_height: 0, base: 0, scale_w: 0, scale_h: 0, num_pages: 0, packed: 0 }
    }

    open spec fn with_attribute(record: FntCommon, attribute: Attribute) -> Result<
        FntCommon,
        LineError,
    > {
        let (name, value) = attribute;
        if name == "lineHeight"@ {
            set_number(value, |line_height: i32| FntCommon { line_height, ..record })
        } else if name == "base"@ {
            set_number(value, |base: i32| FntCommon { base, ..record })
        } else if name == "scaleW"@ {
            set_number(value, |scale_w: i32| FntCommon { scale_w, ..record })
        } else if name == "scaleH"@ {
            set_number(value, |scale_h: i32| FntCommon { scale_h, ..record })
        } else if name == "pages"@ {
            set_number(value, |num_pages: u32| FntCommon { num_pages, ..record })
        } else if name == "packed"@ {
            set_number(value, |packed: u8| FntCommon { packed, ..record })
        } else {
            Err(LineError::UnknownAttribute)
        }
    }

    fn empty() -> (record: Self) {
        FntCommon::default()
    }

    fn set_attribute(&mut self, name: &str, value: &str) -> (done: Result<(), LineError>) {
        if str_eq(name, "lineHeight") {
            self.line_height = parse(value)?;
        } else if str_eq(name, "base") {
            self.base = parse(value)?;
        } else if str_eq(name, "scaleW") {
            self.scale_w = parse(value)?;
        } else if str_eq(name, "scaleH") {
            self.scale_h = parse(value)?;
        } else if str_eq(name, "pages") {
            self.num_pages = parse(value)?;
        } else if str_eq(name, "packed") {
            self.packed = parse(value)?;
        } else {
            return Err(LineError::UnknownAttribute);
        }
        Ok(())
    }
}

impl FntCommon {
    /// The keyword of the line with the measures that all glyphs share.
    pub const KEYWORD: &'static str = "common";

    /// Reads what follows the keyword of the `common` line.
    pub fn try_parse(line: &str) -> (common: Result<Self, LineError>)
        ensures
            common matches Ok(c) ==> record_from::<FntCommon>(attributes(line@)) == Ok::<
                FntCommon,
                LineError,
            >(c),
            common matches Err(e) ==> record_from::<FntCommon>(attributes(line@)) == Err::<
                FntCommon,
                LineError,
            >(e),
    {
        parse_record::<FntCommon>(line)
    }
}

/// A bitmap-font description.
#[derive(Debug, Clone)]
pub struct FntFile {
    /// What the `info` line says.
    pub info: FntInfo,
    /// What the `common` line says.
    pub common: FntCommon,
    /// The `page` lines, in their order.
    pub pages: Vec<FntPage>,
    /// The `char` lines, in their order.
    pub chars: Vec<FntChar>,
}

/// The mathematical value of a [`FntFile`].
pub struct FntFileView {
    pub info: FntInfoView,
    pub common: FntCommon,
    pub pages: Seq<FntPageView>,
    pub chars: Seq<FntChar>,
}

impl View for FntFile {
    type V = FntFileView;

    open spec fn view(&self) -> FntFileView {
        FntFileView {
            info: self.info@,
            common: self.common,
            pages: self.pages@.map_values(|page: FntPage| page@),
            chars: self.chars@,
        }
    }
}

/// `s` without the carriage return at its end, if it has one.
pub open spec fn without_carriage_return(s: Seq<char>) -> Seq<char> {
    if s.len() > 0 && s.last() == '\r' {
        s.drop_last()
    } else {
        s
    }
}

/// The lines of a text. A line ends at a line feed, or at a carriage
/// return that a line feed follows; neither belongs to the line. The last
/// line needs no ending.
pub open spec fn lines_of(text: Seq<char>) -> Seq<Seq<char>>
    decreases text.len(),
    via lines_of_decreases
{
    if text.len() == 0 {
        Seq::empty()
    } else if first_index_of(text, '\n') < text.len() {
        seq![without_carriage_return(before_first(text, '\n'))] + lines_of(
            after_first(text, '\n'),
        )
    } else {
        seq![text]
    }
}

#[via_fn]
proof fn lines_of_decreases(text: Seq<char>) {
    lemma_first_index_of_bounds(text, '\n');
}

/// The description after one more line was read, or why the line was
/// refused.
pub open spec fn with_line(file: FntFileView, line: Seq<char>) -> Result<FntFileView, LineError> {
    let keyword = before_first(line, ' ');
    let data = attributes(trimmed_start(after_first(line, ' ')));
    if keyword == "info"@ {
        match record_from::<FntInfo>(data) {
            Ok(info) => Ok(FntFileView { info, ..file }),
            Err(e) => Err(e),
        }
    } else if keyword == "common"@ {
        match record_from::<FntCommon>(data) {
            Ok(common) => Ok(FntFileView { common, ..file }),
            Err(e) => Err(e),
        }
    } else if keyword == "page"@ {
        match record_from::<FntPage>(data) {
            Ok(page) => Ok(FntFileView { pages: file.pages.push(page), ..file }),
            Err(e) => Err(e),
        }
    } else if keyword == "chars"@ {
        Ok(file)
    } else if keyword == "char"@ {
        match record_from::<FntChar>(data) {
            Ok(glyph) => Ok(FntFileView { chars: file.chars.push(glyph), ..file }),
            Err(e) => Err(e),
        }
    } else if keyword == "kernings"@ {
        Ok(file)
    } else {
        Err(LineError::UnknownKeyword)
    }
}

/// A description without lines.
pub open spec fn empty_file() -> FntFileView {
    FntFileView {
        info: <FntInfo as Record>::empty_view(),
        common: <FntCommon as Record>::empty_view(),
        pages: Seq::empty(),
        chars: Seq::empty(),
    }
}

/// The description that the lines give when they are read in their order,
/// or the first line that was refused and why.
pub open spec fn file_from(lines: Seq<Seq<char>>) -> Result<FntFileView, FntError>
    decreases lines.len(),
{
    if lines.len() == 0 {
        Ok(empty_file())
    } else {
        match file_from(lines.drop_last()) {
            Ok(file) => match with_line(file, lines.last()) {
                Ok(longer) => Ok(longer),
                Err(cause) => Err(FntError { line: lines.len() as usize, cause }),
            },
            Err(e) => Err(e),
        }
    }
}

/// Once a line was refused, the lines behind it change nothing.
proof fn lemma_file_refusal_stays(lines: Seq<Seq<char>>, n: int)
    requires
        0 <= n <= lines.len(),
        file_from(lines.take(n)) is Err,
    ensures
        file_from(lines) == file_from(lines.take(n)),
    decreases lines.len() - n,
{
    if n < lines.len() {
        let longer = lines.take(n + 1);
        assert(longer.drop_last() =~= lines.take(n));
        lemma_file_refusal_stays(lines, n + 1);
    } else {
        assert(lines.take(n) =~= lines);
    }
}

/// The lines of a text are its first line and the lines of the rest.
proof fn lemma_lines_split(text: Seq<char>)
    requires
        text.len() > 0,
    ensures
        lines_of(text).len() > 0,
        lines_of(text).len() <= text.len(),
        first_index_of(text, '\n') < text.len() ==> lines_of(text) == seq![
            without_carriage_return(before_first(text, '\n')),
        ] + lines_of(after_first(text, '\n')),
        first_index_of(text, '\n') >= text.len() ==> lines_of(text) == seq![text],
    decreases text.len(),
{
    lemma_first_index_of_bounds(text, '\n');
    if first_index_of(text, '\n') < text.len() {
        let rest = after_first(text, '\n');
        if rest.len() > 0 {
            lemma_lines_split(rest);
        }
    }
}

impl Default for FntFile {
    fn default() -> (file: Self)
        ensures
            file@ == empty_file(),
    {
        let file = FntFile {
            info: FntInfo::default(),
            common: FntCommon::default(),
            pages: Vec::new(),
            chars: Vec::new(),
        };
        assert(file@.pages =~= Seq::<FntPageView>::empty());
        file
    }
}

impl FntFile {
    /// The file names of the images that the description refers to, in the
    /// order of its pages.
    pub fn dependencies(&self) -> (files: Vec<String>)
        ensures
            files@.len() == self.pages@.len(),
            forall|i: int| 0 <= i < files@.len() ==> (#[trigger] files@[i])@ == self.pages@[i].file@,
    {
        let mut files: Vec<String> = Vec::new();
        let mut i: usize = 0;
        while i < self.pages.len()
            invariant
                i <= self.pages@.len(),
                files@.len() == i,
                forall|k: int| 0 <= k < i ==> (#[trigger] files@[k])@ == self.pages@[k].file@,
            decreases self.pages.len() - i,
        {
            files.push(self.pages[i].file.clone());
            i += 1;
        }
        files
    }

    /// Reads one line into the description.
    pub fn read_line(&mut self, line: &str) -> (done: Result<(), LineError>)
        ensures
            done matches Ok(_) ==> with_line(old(self)@, line@) == Ok::<FntFileView, LineError>(
                final(self)@,
            ),
            done matches Err(e) ==> with_line(old(self)@, line@) == Err::<FntFileView, LineError>(
                e,
            ),
    {
        let (ident, data) = consume_until_space(line);
        if str_eq(ident, FntInfo::KEYWORD) {
            self.info = FntInfo::try_parse(data)?;
        } else if str_eq(ident, FntCommon::KEYWORD) {
            self.common = FntCommon::try_parse(data)?;
        } else if str_eq(ident, FntPage::KEYWORD) {
            let page = FntPage::try_parse(data)?;
            let ghost before = self@.pages;
            self.pages.push(page);
            assert(self@.pages =~= before.push(page@));
        } else if str_eq(ident, "chars") {
        } else if str_eq(ident, FntChar::KEYWORD) {
            let glyph = FntChar::try_parse(data)?;
            self.chars.push(glyph);
        } else if str_eq(ident, "kernings") {
        } else {
            return Err(LineError::UnknownKeyword);
        }
        Ok(())
    }

    /// Reads a description.
    pub fn try_parse(file_contents: &str) -> (file: Result<Self, FntError>)
        ensures
            file matches Ok(f) ==> file_from(lines_of(file_contents@)) == Ok::<
                FntFileView,
                FntError,
            >(f@),
            file matches Err(e) ==> file_from(lines_of(file_contents@)) == Err::<
                FntFileView,
                FntError,
            >(e),
    {
        let total: usize = file_contents.unicode_len();
        let ghost lines = lines_of(file_contents@);
        let mut output = FntFile::default();
        let mut rest: &str = file_contents;
        let mut num: usize = 0;
        assert(lines.take(0) =~= Seq::<Seq<char>>::empty());
        assert(lines.skip(0) =~= lines);
        while !rest.is_empty()
            invariant
                lines == lines_of(file_contents@),
                num <= lines.len(),
                lines.skip(num as int) == lines_of(rest@),
                num + rest@.len() <= total,
                file_from(lines.take(num as int)) == Ok::<FntFileView, FntError>(output@),
            decreases rest@.len(),
        {
            proof {
                lemma_lines_split(rest@);
                lemma_first_index_of_bounds(rest@, '\n');
            }
            let line: &str;
            match split_at_first(rest, '\n') {
                Some((before, after)) => {
                    let len: usize = before.unicode_len();
                    line = if len > 0 && before.get_char(len - 1) == '\r' {
                        before.substring_char(0, len - 1)
                    } else {
                        before
                    };
                    assert(line@ =~= without_carriage_return(before@));
                    rest = after;
                },
                None => {
                    line = rest;
                    proof {
                        reveal_strlit("");
                    }
                    rest = "";
                },
            }
            let ghost longer = lines.take(num + 1);
            proof {
                assert(lines.skip(num as int)[0] == line@);
                assert(longer.drop_last() =~= lines.take(num as int));
                assert(longer.last() == line@);
                assert(lines.skip(num + 1) =~= lines.skip(num as int).skip(1));
                reveal_strlit("");
                assert(lines_of(""@) =~= Seq::<Seq<char>>::empty());
            }
            match output.read_line(line) {
                Ok(_) => {},
                Err(cause) => {
                    proof {
                        assert(file_from(longer) == Err::<FntFileView, FntError>(
                            FntError { line: (num + 1) as usize, cause },
                        ));
                        lemma_file_refusal_stays(lines, num + 1);
                    }
                    return Err(FntError { line: num + 1, cause });
                },
            }
            num += 1;
        }
        proof {
            assert(lines_of(rest@) =~= Seq::<Seq<char>>::empty());
            assert(lines.take(num as int) =~= lines);
        }
        Ok(output)
    }
}

} // verus!
