//! The value codec: typed sensor readings, and the parsers for `[type]=[value]` tokens and
//! `[name]:[type]=[value]` telemetry lines, with their models and round-trip laws.

use vstd::prelude::*;
use vstd::string::StringExecFns;

use crate::text::{
    after_char, before_char, chars_of, clean_token, clean_token_of, find_char, find_char_in,
    has_char, lemma_clean_token_avoids, lemma_clean_token_plain, lemma_find_char_at,
    lemma_find_char_bounds, string_of, token_char,
};

verus! {

/// A sensor reading as the contracts see it. A float stays as the decimal literal it was read
/// from; turning that into a machine float is left to the caller.
pub enum ValueModel {
    UnsignedInt(u64),
    SignedInt(i64),
    Float(Seq<char>),
    Boolean(bool),
}

/// A parse failure as the contracts see it.
pub enum ParseErrorModel {
    MissingValue,
    MissingType,
    MissingName,
    InvalidType(Seq<char>),
    InvalidValue(Seq<char>),
    ToManyTokens,
}

/// A value from a sensor. A float is held as its validated decimal literal.
#[derive(Debug, Clone, PartialEq)]
pub enum SensorValue {
    UnsignedInt(u64),
    SignedInt(i64),
    Float(String),
    Boolean(bool),
}

impl SensorValue {
    /// An equal value, field by field.
    pub fn copy(&self) -> (r: SensorValue)
        ensures
            r@ == self@,
    {
        match self {
            SensorValue::UnsignedInt(v) => SensorValue::UnsignedInt(*v),
            SensorValue::SignedInt(v) => SensorValue::SignedInt(*v),
            SensorValue::Float(s) => SensorValue::Float(s.clone()),
            SensorValue::Boolean(b) => SensorValue::Boolean(*b),
        }
    }
}

impl View for SensorValue {
    type V = ValueModel;

    open spec fn view(&self) -> ValueModel {
        match self {
            SensorValue::UnsignedInt(v) => ValueModel::UnsignedInt(*v),
            SensorValue::SignedInt(v) => ValueModel::SignedInt(*v),
            SensorValue::Float(s) => ValueModel::Float(s@),
            SensorValue::Boolean(b) => ValueModel::Boolean(*b),
        }
    }
}

/// A named reading, as one telemetry line carries it.
#[derive(Debug, Clone, PartialEq)]
pub struct SensorField {
    pub name: String,
    pub value: SensorValue,
}

impl SensorField {
    /// An equal field, name and value.
    pub fn copy(&self) -> (r: SensorField)
        ensures
            r@ == self@,
    {
        SensorField { name: self.name.clone(), value: self.value.copy() }
    }
}

impl View for SensorField {
    type V = (Seq<char>, ValueModel);

    open spec fn view(&self) -> (Seq<char>, ValueModel) {
        (self.name@, self.value@)
    }
}

/// Errors that can occur while parsing a [`SensorValue`] or a [`SensorField`].
#[derive(Debug, Clone, PartialEq, Eq)]
pub enum FieldParseError {
    MissingValue,
    MissingType,
    MissingName,
    InvalidType(String),
    InvalidValue(String),
    ToManyTokens,
}

impl View for FieldParseError {
    type V = ParseErrorModel;

    open spec fn view(&self) -> ParseErrorModel {
        match self {
            FieldParseError::MissingValue => ParseErrorModel::MissingValue,
            FieldParseError::MissingType => ParseErrorModel::MissingType,
            FieldParseError::MissingName => ParseErrorModel::MissingName,
            FieldParseError::InvalidType(s) => ParseErrorModel::InvalidType(s@),
            FieldParseError::InvalidValue(s) => ParseErrorModel::InvalidValue(s@),
            FieldParseError::ToManyTokens => ParseErrorModel::ToManyTokens,
        }
    }
}

/// The operator-facing text of a parse failure.
pub open spec fn parse_error_text(e: ParseErrorModel) -> Seq<char> {
    "Could not parse sensor field: "@ + match e {
        ParseErrorModel::MissingValue => "Missing field value"@,
        ParseErrorModel::MissingType => "Missing field type"@,
        ParseErrorModel::MissingName => "Missing field name"@,
        ParseErrorModel::InvalidType(t) => "Invalid field type: "@ + t,
        ParseErrorModel::InvalidValue(t) => "Invalid value: '"@ + t + "'"@,
        ParseErrorModel::ToManyTokens => "Too many tokens in field"@,
    }
}

impl FieldParseError {
    /// The failure as text for the operator.
    pub fn to_text(&self) -> (r: String)
        ensures
            r@ == parse_error_text(self@),
    {
        let mut r = String::from_str("Could not parse sensor field: ");
        match self {
            FieldParseError::MissingValue => r.append("Missing field value"),
            FieldParseError::MissingType => r.append("Missing field type"),
            FieldParseError::MissingName => r.append("Missing field name"),
            FieldParseError::InvalidType(t) => {
                r.append("Invalid field type: ");
                r.append(t.as_str());
            },
            FieldParseError::InvalidValue(t) => {
                r.append("Invalid value: '");
                r.append(t.as_str());
                r.append("'");
            },
            FieldParseError::ToManyTokens => r.append("Too many tokens in field"),
        }
        assert(r@ =~= parse_error_text(self@));
        r
    }
}

pub open spec fn value_result_view(r: Result<SensorValue, FieldParseError>) -> Result<
    ValueModel,
    ParseErrorModel,
> {
    match r {
        Ok(v) => Ok(v@),
        Err(e) => Err(e@),
    }
}

pub open spec fn field_result_view(r: Result<SensorField, FieldParseError>) -> Result<
    (Seq<char>, ValueModel),
    ParseErrorModel,
> {
    match r {
        Ok(f) => Ok(f@),
        Err(e) => Err(e@),
    }
}

// ---------------------------------------------------------------------------------------------
// Literals
pub open spec fn is_digit(c: char) -> bool {
    '0' <= c <= '9'
}

pub open spec fn all_digits(s: Seq<char>) -> bool {
    forall|i: int| 0 <= i < s.len() ==> is_digit(#[trigger] s[i])
}

/// The number that a string of decimal digits spells.
pub open spec fn digits_value(s: Seq<char>) -> nat
    decreases s.len(),
{
    if s.len() == 0 {
        0
    } else {
        digits_value(s.drop_last()) * 10 + (s.last() as nat - '0' as nat) as nat
    }
}

pub open spec fn is_sign(c: char) -> bool {
    c == '+' || c == '-'
}

/// `s` without a leading `+`.
pub open spec fn without_plus(s: Seq<char>) -> Seq<char> {
    if s.len() > 0 && s[0] == '+' {
        s.drop_first()
    } else {
        s
    }
}

/// `s` without a leading sign.
pub open spec fn without_sign(s: Seq<char>) -> Seq<char> {
    if s.len() > 0 && is_sign(s[0]) {
        s.drop_first()
    } else {
        s
    }
}

/// What `u64::from_str` gives: an optional `+`, then one or more decimal digits whose value
/// fits.
pub open spec fn u64_literal_value(s: Seq<char>) -> Option<u64> {
    let d = without_plus(s);
    if d.len() > 0 && all_digits(d) && digits_value(d) <= u64::MAX {
        Some(digits_value(d) as u64)
    } else {
        None
    }
}

/// What `i64::from_str` gives: an optional `+` or `-`, then one or more decimal digits whose
/// signed value fits.
pub open spec fn i64_literal_value(s: Seq<char>) -> Option<i64> {
    if s.len() > 0 && s[0] == '-' {
        let d = s.drop_first();
        if d.len() > 0 && all_digits(d) && digits_value(d) <= 0x8000_0000_0000_0000 {
            Some((0 - digits_value(d)) as i64)
        } else {
            None
        }
    } else {
        let d = without_plus(s);
        if d.len() > 0 && all_digits(d) && digits_value(d) <= i64::MAX {
            Some(digits_value(d) as i64)
        } else {
            None
        }
    }
}

/// Relies on `u64::from_str`: an optional `+` and decimal digits, an error on anything else and
/// on overflow.
#[verifier::external_body]
fn parse_u64(s: &str) -> (r: Option<u64>)
    ensures
        r == u64_literal_value(s@),
{
    s.parse::<u64>().ok()
}

/// Relies on `i64::from_str`: an optional sign and decimal digits, an error on anything else and
/// on overflow.
#[verifier::external_body]
fn parse_i64(s: &str) -> (r: Option<i64>)
    ensures
        r == i64_literal_value(s@),
{
    s.parse::<i64>().ok()
}

/// `c` is `lower`, or the upper-case form of the ASCII letter `lower`.
pub open spec fn same_letter(c: char, lower: char) -> bool {
    c == lower || ('a' <= lower <= 'z' && (c as u32) + 32 == lower as u32)
}

/// `s` spells `word` (given in lower case) in any letter casing.
pub open spec fn is_word(s: Seq<char>, word: Seq<char>) -> bool {
    s.len() == word.len() && forall|i: int| 0 <= i < s.len() ==> same_letter(s[i], word[i])
}

fn is_word_in(s: &[char], word: &[char]) -> (r: bool)
    ensures
        r == is_word(s@, word@),
{
    if s.len() != word.len() {
        return false;
    }
    let mut i: usize = 0;
    while i < s.len()
        invariant
            s@.len() == word@.len(),
            i <= s@.len(),
            forall|j: int| 0 <= j < i ==> same_letter(s@[j], word@[j]),
        decreases s@.len() - i,
    {
        let c = s[i];
        let l = word[i];
        let same = c == l || ('a' <= l && l <= 'z' && c as u32 == (l as u32) - 32);
        if !same {
            return false;
        }
        i = i + 1;
    }
    true
}

pub open spec fn word_true() -> Seq<char> {
    seq!['t', 'r', 'u', 'e']
}

pub open spec fn word_false() -> Seq<char> {
    seq!['f', 'a', 'l', 's', 'e']
}

pub open spec fn word_inf() -> Seq<char> {
    seq!['i', 'n', 'f']
}

pub open spec fn word_infinity() -> Seq<char> {
    seq!['i', 'n', 'f', 'i', 'n', 'i', 't', 'y']
}

pub open spec fn word_nan() -> Seq<char> {
    seq!['n', 'a', 'n']
}

/// Decimal digits with at most one `.` among them, and at least one digit.
pub open spec fn is_mantissa(m: Seq<char>) -> bool {
    if has_char(m, '.') {
        &&& all_digits(before_char(m, '.'))
        &&& all_digits(after_char(m, '.'))
        &&& m.len() >= 2
    } else {
        all_digits(m) && m.len() >= 1
    }
}

/// An optional sign, then one or more decimal digits.
pub open spec fn is_exponent(e: Seq<char>) -> bool {
    let d = without_sign(e);
    d.len() > 0 && all_digits(d)
}

pub open spec fn is_exponent_marker(c: char) -> bool {
    c == 'e' || c == 'E'
}

/// Position of the first `e` or `E` in `s`, or `s.len()` when there is none.
pub open spec fn find_exponent(s: Seq<char>) -> int
    decreases s.len(),
{
    if s.len() == 0 {
        0
    } else if is_exponent_marker(s[0]) {
        0
    } else {
        1 + find_exponent(s.drop_first())
    }
}

proof fn lemma_find_exponent_at(s: Seq<char>, i: int)
    requires
        0 <= i <= s.len(),
        i < s.len() ==> is_exponent_marker(s[i]),
        forall|j: int| 0 <= j < i ==> !is_exponent_marker(s[j]),
    ensures
        find_exponent(s) == i,
    decreases i,
{
    if i > 0 {
        assert forall|j: int| 0 <= j < i - 1 implies !is_exponent_marker(s.drop_first()[j]) by {
            assert(s.drop_first()[j] == s[j + 1]);
        }
        lemma_find_exponent_at(s.drop_first(), i - 1);
    }
}

/// A mantissa, then optionally `e` or `E` and an exponent.
pub open spec fn is_decimal_number(b: Seq<char>) -> bool {
    let k = find_exponent(b);
    &&& is_mantissa(b.subrange(0, k))
    &&& k < b.len() ==> is_exponent(b.subrange(k + 1, b.len() as int))
}

/// The literals that the standard library's float parser accepts: an optional sign, then
/// `inf`, `infinity` or `nan` in any casing, or a decimal number.
pub open spec fn is_float_literal(s: Seq<char>) -> bool {
    let b = without_sign(s);
    ||| is_word(b, word_inf())
    ||| is_word(b, word_infinity())
    ||| is_word(b, word_nan())
    ||| is_decimal_number(b)
}

fn all_digits_in(s: &[char]) -> (r: bool)
    ensures
        r == all_digits(s@),
{
    let mut i: usize = 0;
    while i < s.len()
        invariant
            i <= s@.len(),
            forall|j: int| 0 <= j < i ==> is_digit(s@[j]),
        decreases s@.len() - i,
    {
        if !('0' <= s[i] && s[i] <= '9') {
            return false;
        }
        i = i + 1;
    }
    true
}

fn without_sign_in(s: &[char]) -> (r: &[char])
    ensures
        r@ == without_sign(s@),
{
    if s.len() > 0 && (s[0] == '+' || s[0] == '-') {
        let r = &s[1..s.len()];
        assert(r@ =~= s@.drop_first());
        r
    } else {
        s
    }
}

fn is_mantissa_in(m: &[char]) -> (r: bool)
    ensures
        r == is_mantissa(m@),
{
    let k = find_char_in(m, '.');
    proof {
        lemma_find_char_bounds(m@, '.');
    }
    if k < m.len() {
        all_digits_in(&m[0..k]) && all_digits_in(&m[k + 1..m.len()]) && m.len() >= 2
    } else {
        all_digits_in(m) && m.len() >= 1
    }
}

fn is_exponent_in(e: &[char]) -> (r: bool)
    ensures
        r == is_exponent(e@),
{
    let d = without_sign_in(e);
    d.len() > 0 && all_digits_in(d)
}

fn is_decimal_number_in(b: &[char]) -> (r: bool)
    ensures
        r == is_decimal_number(b@),
{
    let mut k: usize = 0;
    while k < b.len() && b[k] != 'e' && b[k] != 'E'
        invariant
            k <= b@.len(),
            forall|j: int| 0 <= j < k ==> !is_exponent_marker(b@[j]),
        decreases b@.len() - k,
    {
        k = k + 1;
    }
    proof {
        lemma_find_exponent_at(b@, k as int);
    }
    if !is_mantissa_in(&b[0..k]) {
        false
    } else if k < b.len() {
        is_exponent_in(&b[k + 1..b.len()])
    } else {
        true
    }
}

/// Whether `s` is a float literal that the standard library's parser accepts.
pub fn is_float_literal_in(s: &[char]) -> (r: bool)
    ensures
        r == is_float_literal(s@),
{
    let b = without_sign_in(s);
    let inf = ['i', 'n', 'f'];
    let infinity = ['i', 'n', 'f', 'i', 'n', 'i', 't', 'y'];
    let nan = ['n', 'a', 'n'];
    assert(inf@ =~= word_inf());
    assert(infinity@ =~= word_infinity());
    assert(nan@ =~= word_nan());
    is_word_in(b, &inf) || is_word_in(b, &infinity) || is_word_in(b, &nan) || is_decimal_number_in(
        b,
    )
}

// ---------------------------------------------------------------------------------------------
// Tokens

/// The reading that a `[type]=[value]` token stands for, or why it stands for none.
pub open spec fn parse_value_spec(s: Seq<char>) -> Result<ValueModel, ParseErrorModel> {
    if !has_char(s, '=') {
        Err(ParseErrorModel::MissingValue)
    } else {
        let ty = before_char(s, '=');
        let val = after_char(s, '=');
        if has_char(val, '=') {
            Err(ParseErrorModel::ToManyTokens)
        } else if ty == seq!['u'] {
            match u64_literal_value(val) {
                Some(v) => Ok(ValueModel::UnsignedInt(v)),
                None => Err(ParseErrorModel::InvalidValue(val)),
            }
        } else if ty == seq!['i'] {
            match i64_literal_value(val) {
                Some(v) => Ok(ValueModel::SignedInt(v)),
                None => Err(ParseErrorModel::InvalidValue(val)),
            }
        } else if ty == seq!['f'] {
            if is_float_literal(val) {
                Ok(ValueModel::Float(val))
            } else {
                Err(ParseErrorModel::InvalidValue(val))
            }
        } else if ty == seq!['b'] {
            if is_word(val, word_true()) {
                Ok(ValueModel::Boolean(true))
            } else if is_word(val, word_false()) {
                Ok(ValueModel::Boolean(false))
            } else {
                Err(ParseErrorModel::InvalidValue(val))
            }
        } else {
            Err(ParseErrorModel::InvalidType(ty))
        }
    }
}

/// The field that a `[name]:[type]=[value]` line stands for, or why it stands for none. A
/// second `:` anywhere, or an `=` in the name, makes too many tokens; a name that is empty once
/// cleaned is missing. Name and value token are trimmed and cleared of NULs before use.
pub open spec fn parse_field_spec(s: Seq<char>) -> Result<(Seq<char>, ValueModel), ParseErrorModel> {
    if !has_char(s, ':') {
        Err(ParseErrorModel::MissingType)
    } else if has_char(after_char(s, ':'), ':') || has_char(before_char(s, ':'), '=') {
        Err(ParseErrorModel::ToManyTokens)
    } else if clean_token(before_char(s, ':')).len() == 0 {
        Err(ParseErrorModel::MissingName)
    } else {
        match parse_value_spec(clean_token(after_char(s, ':'))) {
            Ok(v) => Ok((clean_token(before_char(s, ':')), v)),
            Err(e) => Err(e),
        }
    }
}

fn is_single(s: &[char], c: char) -> (r: bool)
    ensures
        r == (s@ == seq![c]),
{
    if s.len() == 1 && s[0] == c {
        assert(s@ =~= seq![c]);
        true
    } else {
        false
    }
}

/// Parses a `[type]=[value]` token held as characters.
pub fn parse_value_chars(s: &[char]) -> (r: Result<SensorValue, FieldParseError>)
    ensures
        value_result_view(r) == parse_value_spec(s@),
{
    let k = find_char_in(s, '=');
    proof {
        lemma_find_char_bounds(s@, '=');
    }
    if k == s.len() {
        return Err(FieldParseError::MissingValue);
    }
    let ty = &s[0..k];
    let val = &s[k + 1..s.len()];
    assert(ty@ == before_char(s@, '='));
    assert(val@ == after_char(s@, '='));
    if find_char_in(val, '=') < val.len() {
        return Err(FieldParseError::ToManyTokens);
    }
    if is_single(ty, 'u') {
        let text = string_of(val);
        match parse_u64(text.as_str()) {
            Some(v) => Ok(SensorValue::UnsignedInt(v)),
            None => Err(FieldParseError::InvalidValue(text)),
        }
    } else if is_single(ty, 'i') {
        let text = string_of(val);
        match parse_i64(text.as_str()) {
            Some(v) => Ok(SensorValue::SignedInt(v)),
            None => Err(FieldParseError::InvalidValue(text)),
        }
    } else if is_single(ty, 'f') {
        let ok = is_float_literal_in(val);
        let text = string_of(val);
        if ok {
            Ok(SensorValue::Float(text))
        } else {
            Err(FieldParseError::InvalidValue(text))
        }
    } else if is_single(ty, 'b') {
        let t = ['t', 'r', 'u', 'e'];
        let f = ['f', 'a', 'l', 's', 'e'];
        assert(t@ =~= word_true());
        assert(f@ =~= word_false());
        if is_word_in(val, &t) {
            Ok(SensorValue::Boolean(true))
        } else if is_word_in(val, &f) {
            Ok(SensorValue::Boolean(false))
        } else {
            Err(FieldParseError::InvalidValue(string_of(val)))
        }
    } else {
        Err(FieldParseError::InvalidType(string_of(ty)))
    }
}

/// Parses a sensor value from a token `[type]=[value]`, where `[type]` is `u`, `i`, `f` or `b`
/// (unsigned integer, signed integer, float, boolean). Integers take the standard decimal form
/// of their width, floats the standard float literal form, booleans `true` or `false` in any
/// casing.
pub fn parse_sensor_value(s: &str) -> (r: Result<SensorValue, FieldParseError>)
    ensures
        value_result_view(r) == parse_value_spec(s@),
{
    let cs = chars_of(s);
    parse_value_chars(cs.as_slice())
}

/// Parses a `[name]:[type]=[value]` line held as characters.
pub fn parse_field_chars(s: &[char]) -> (r: Result<SensorField, FieldParseError>)
    ensures
        field_result_view(r) == parse_field_spec(s@),
{
    let k = find_char_in(s, ':');
    proof {
        lemma_find_char_bounds(s@, ':');
    }
    if k == s.len() {
        return Err(FieldParseError::MissingType);
    }
    let name_part = &s[0..k];
    let rest = &s[k + 1..s.len()];
    assert(name_part@ == before_char(s@, ':'));
    assert(rest@ == after_char(s@, ':'));
    if find_char_in(rest, ':') < rest.len() || find_char_in(name_part, '=') < name_part.len() {
        return Err(FieldParseError::ToManyTokens);
    }
    let name = clean_token_of(name_part);
    if name.len() == 0 {
        return Err(FieldParseError::MissingName);
    }
    let token = clean_token_of(rest);
    match parse_value_chars(token.as_slice()) {
        Ok(value) => Ok(SensorField { name: string_of(name.as_slice()), value }),
        Err(e) => Err(e),
    }
}

/// Parses a sensor field from a line `[name]:[type]=[value]`. The name is any text without `:`
/// or `=`, and not empty once cleaned; a line with a second `:` or `=` is rejected. Name and
/// value token are trimmed of whitespace and cleared of NULs.
pub fn parse_sensor_field(s: &str) -> (r: Result<SensorField, FieldParseError>)
    ensures
        field_result_view(r) == parse_field_spec(s@),
{
    let cs = chars_of(s);
    parse_field_chars(cs.as_slice())
}

// ---------------------------------------------------------------------------------------------
// Encoding

/// The decimal digit for `d`, below ten.
pub open spec fn digit_char(d: nat) -> char {
    if d == 0 {
        '0'
    } else if d == 1 {
        '1'
    } else if d == 2 {
        '2'
    } else if d == 3 {
        '3'
    } else if d == 4 {
        '4'
    } else if d == 5 {
        '5'
    } else if d == 6 {
        '6'
    } else if d == 7 {
        '7'
    } else if d == 8 {
        '8'
    } else {
        '9'
    }
}

/// The decimal digits of `n`, without leading zeros.
pub open spec fn decimal(n: nat) -> Seq<char>
    decreases n,
{
    if n < 10 {
        seq![digit_char(n)]
    } else {
        decimal(n / 10).push(digit_char(n % 10))
    }
}

/// The decimal form of `v`, with a `-` in front when it is negative.
pub open spec fn signed_decimal(v: i64) -> Seq<char> {
    if v < 0 {
        seq!['-'] + decimal((0 - v) as nat)
    } else {
        decimal(v as nat)
    }
}

/// The literal form of a reading: decimal for integers, `true` or `false`, and a float's own
/// literal.
pub open spec fn literal_of(v: ValueModel) -> Seq<char> {
    match v {
        ValueModel::UnsignedInt(n) => decimal(n as nat),
        ValueModel::SignedInt(n) => signed_decimal(n),
        ValueModel::Float(s) => s,
        ValueModel::Boolean(b) => if b {
            word_true()
        } else {
            word_false()
        },
    }
}

/// The type tag of a reading: `u`, `i`, `f` or `b`.
pub open spec fn type_tag(v: ValueModel) -> char {
    match v {
        ValueModel::UnsignedInt(_) => 'u',
        ValueModel::SignedInt(_) => 'i',
        ValueModel::Float(_) => 'f',
        ValueModel::Boolean(_) => 'b',
    }
}

/// The token `[type]=[literal]` that stands for a reading.
pub open spec fn value_token(v: ValueModel) -> Seq<char> {
    seq![type_tag(v), '='] + literal_of(v)
}

/// Relies on `u64`'s `Display` (through `to_string`): the decimal digits, no sign, no leading
/// zeros.
#[verifier::external_body]
fn u64_text(v: u64) -> (r: String)
    ensures
        r@ == decimal(v as nat),
{
    v.to_string()
}

/// Relies on `i64`'s `Display` (through `to_string`): the decimal digits, no leading zeros,
/// `-` in front of a negative number.
#[verifier::external_body]
fn i64_text(v: i64) -> (r: String)
    ensures
        r@ == signed_decimal(v),
{
    v.to_string()
}

impl SensorValue {
    /// The value's literal form, as a telemetry line would carry it.
    pub fn to_text(&self) -> (r: String)
        ensures
            r@ == literal_of(self@),
    {
        match self {
            SensorValue::UnsignedInt(v) => u64_text(*v),
            SensorValue::SignedInt(v) => i64_text(*v),
            SensorValue::Float(s) => s.clone(),
            SensorValue::Boolean(b) => {
                if *b {
                    let t = ['t', 'r', 'u', 'e'];
                    assert(t@ =~= word_true());
                    string_of(&t)
                } else {
                    let f = ['f', 'a', 'l', 's', 'e'];
                    assert(f@ =~= word_false());
                    string_of(&f)
                }
            },
        }
    }
}

proof fn lemma_digit_char(d: nat)
    requires
        d < 10,
    ensures
        is_digit(digit_char(d)),
        digit_char(d) as nat - '0' as nat == d,
{
}

proof fn lemma_decimal(n: nat)
    ensures
        decimal(n).len() > 0,
        all_digits(decimal(n)),
        digits_value(decimal(n)) == n,
    decreases n,
{
    if n < 10 {
        lemma_digit_char(n);
        let d = decimal(n);
        assert(d.drop_last() =~= Seq::<char>::empty());
        assert(d.last() == digit_char(n));
        assert(digits_value(d) == digits_value(d.drop_last()) * 10 + (d.last() as nat
            - '0' as nat) as nat);
    } else {
        lemma_decimal(n / 10);
        lemma_digit_char(n % 10);
        let d = decimal(n);
        assert(d.drop_last() =~= decimal(n / 10));
        assert forall|i: int| 0 <= i < d.len() implies is_digit(#[trigger] d[i]) by {
            if i < d.len() - 1 {
                assert(d[i] == decimal(n / 10)[i]);
            }
        }
        assert(n == (n / 10) * 10 + n % 10) by (nonlinear_arith);
        assert(d.last() == digit_char(n % 10));
        assert(digits_value(d) == digits_value(d.drop_last()) * 10 + (d.last() as nat
            - '0' as nat) as nat);
    }
}

proof fn lemma_no_equals(s: Seq<char>)
    requires
        all_digits(s),
    ensures
        !has_char(s, '='),
{
    lemma_find_char_at(s, '=', s.len() as int);
}

/// How a token `[tag]=[rest]` splits, when `rest` holds no `=`.
proof fn lemma_token_split(tag: char, rest: Seq<char>)
    requires
        tag != '=',
        !has_char(rest, '='),
    ensures
        has_char(seq![tag, '='] + rest, '='),
        before_char(seq![tag, '='] + rest, '=') == seq![tag],
        after_char(seq![tag, '='] + rest, '=') == rest,
{
    let t = seq![tag, '='] + rest;
    lemma_find_char_at(t, '=', 1);
    assert(t.subrange(0, 1) =~= seq![tag]);
    assert(t.subrange(2, t.len() as int) =~= rest);
}

/// Encoding a reading as `[type]=[literal]` and parsing that gives the reading back, for
/// every reading that a token parses to. For integers and booleans the literal is the
/// canonical one; a float keeps the literal it was read from.
pub proof fn lemma_value_round_trip(s: Seq<char>)
    requires
        parse_value_spec(s) is Ok,
    ensures
        parse_value_spec(value_token(parse_value_spec(s)->Ok_0)) == parse_value_spec(s),
{
    let v = parse_value_spec(s)->Ok_0;
    lemma_value_token_parses(v, after_char(s, '='));
}

proof fn lemma_digit_token_char(c: char)
    requires
        is_digit(c),
    ensures
        token_char(c),
        c != '=',
{
}

proof fn lemma_digits_token_chars(s: Seq<char>)
    requires
        all_digits(s),
    ensures
        forall|i: int| 0 <= i < s.len() ==> token_char(#[trigger] s[i]) && s[i] != '=',
{
    assert forall|i: int| 0 <= i < s.len() implies token_char(#[trigger] s[i]) && s[i] != '=' by {
        lemma_digit_token_char(s[i]);
    }
}

/// Every character of a word spelled in any casing is an ASCII letter.
proof fn lemma_word_token_chars(s: Seq<char>, word: Seq<char>)
    requires
        is_word(s, word),
        forall|i: int| 0 <= i < word.len() ==> 'a' <= #[trigger] word[i] <= 'z',
    ensures
        forall|i: int| 0 <= i < s.len() ==> token_char(#[trigger] s[i]) && s[i] != '=',
{
    assert forall|i: int| 0 <= i < s.len() implies token_char(#[trigger] s[i]) && s[i] != '=' by {
        assert(same_letter(s[i], word[i]));
        assert('a' <= word[i] <= 'z');
    }
}

proof fn lemma_words_are_lower()
    ensures
        forall|i: int| 0 <= i < word_inf().len() ==> 'a' <= #[trigger] word_inf()[i] <= 'z',
        forall|i: int|
            0 <= i < word_infinity().len() ==> 'a' <= #[trigger] word_infinity()[i] <= 'z',
        forall|i: int| 0 <= i < word_nan().len() ==> 'a' <= #[trigger] word_nan()[i] <= 'z',
        forall|i: int| 0 <= i < word_true().len() ==> 'a' <= #[trigger] word_true()[i] <= 'z',
        forall|i: int| 0 <= i < word_false().len() ==> 'a' <= #[trigger] word_false()[i] <= 'z',
{
    assert forall|i: int| 0 <= i < word_infinity().len() implies 'a' <= #[trigger] word_infinity()[i] <= 'z' by {
        let w = word_infinity();
        assert(w[0] == 'i' && w[1] == 'n' && w[2] == 'f' && w[3] == 'i' && w[4] == 'n' && w[5] == 'i'
            && w[6] == 't' && w[7] == 'y');
    }
    assert forall|i: int| 0 <= i < word_inf().len() implies 'a' <= #[trigger] word_inf()[i] <= 'z' by {
        let w = word_inf();
        assert(w[0] == 'i' && w[1] == 'n' && w[2] == 'f');
    }
    assert forall|i: int| 0 <= i < word_nan().len() implies 'a' <= #[trigger] word_nan()[i] <= 'z' by {
        let w = word_nan();
        assert(w[0] == 'n' && w[1] == 'a' && w[2] == 'n');
    }
    assert forall|i: int| 0 <= i < word_true().len() implies 'a' <= #[trigger] word_true()[i] <= 'z' by {
        let w = word_true();
        assert(w[0] == 't' && w[1] == 'r' && w[2] == 'u' && w[3] == 'e');
    }
    assert forall|i: int| 0 <= i < word_false().len() implies 'a' <= #[trigger] word_false()[i] <= 'z' by {
        let w = word_false();
        assert(w[0] == 'f' && w[1] == 'a' && w[2] == 'l' && w[3] == 's' && w[4] == 'e');
    }
}

/// `s` is `a`, one character `c`, then `b`: its characters come from those three.
proof fn lemma_three_parts_chars(s: Seq<char>, k: int)
    requires
        0 <= k < s.len(),
        forall|i: int| 0 <= i < k ==> token_char(#[trigger] s.subrange(0, k)[i]) && s.subrange(0, k)[i] != '=',
        token_char(s[k]) && s[k] != '=',
        forall|i: int|
            0 <= i < s.len() - k - 1 ==> token_char(#[trigger] s.subrange(k + 1, s.len() as int)[i])
                && s.subrange(k + 1, s.len() as int)[i] != '=',
    ensures
        forall|i: int| 0 <= i < s.len() ==> token_char(#[trigger] s[i]) && s[i] != '=',
{
    assert forall|i: int| 0 <= i < s.len() implies token_char(#[trigger] s[i]) && s[i] != '=' by {
        if i < k {
            assert(s.subrange(0, k)[i] == s[i]);
        } else if i > k {
            assert(s.subrange(k + 1, s.len() as int)[i - k - 1] == s[i]);
        }
    }
}

proof fn lemma_unsigned_part_chars(s: Seq<char>)
    requires
        without_sign(s).len() > 0 ==> forall|i: int|
            0 <= i < without_sign(s).len() ==> token_char(#[trigger] without_sign(s)[i])
                && without_sign(s)[i] != '=',
    ensures
        forall|i: int| 0 <= i < s.len() ==> token_char(#[trigger] s[i]) && s[i] != '=',
{
    assert forall|i: int| 0 <= i < s.len() implies token_char(#[trigger] s[i]) && s[i] != '=' by {
        if s.len() > 0 && is_sign(s[0]) {
            if i > 0 {
                assert(without_sign(s)[i - 1] == s[i]);
            }
        } else {
            assert(without_sign(s)[i] == s[i]);
        }
    }
}

proof fn lemma_mantissa_chars(m: Seq<char>)
    requires
        is_mantissa(m),
    ensures
        forall|i: int| 0 <= i < m.len() ==> token_char(#[trigger] m[i]) && m[i] != '=',
{
    lemma_find_char_bounds(m, '.');
    if has_char(m, '.') {
        let k = find_char(m, '.');
        lemma_digits_token_chars(before_char(m, '.'));
        lemma_digits_token_chars(after_char(m, '.'));
        lemma_three_parts_chars(m, k);
    } else {
        lemma_digits_token_chars(m);
    }
}

proof fn lemma_find_exponent_bounds(s: Seq<char>)
    ensures
        0 <= find_exponent(s) <= s.len(),
        find_exponent(s) < s.len() ==> is_exponent_marker(s[find_exponent(s)]),
    decreases s.len(),
{
    if s.len() > 0 && !is_exponent_marker(s[0]) {
        lemma_find_exponent_bounds(s.drop_first());
        if find_exponent(s) < s.len() {
            assert(s[find_exponent(s)] == s.drop_first()[find_exponent(s) - 1]);
        }
    }
}

/// Every character of a float literal is a token character other than `=`.
proof fn lemma_float_literal_chars(s: Seq<char>)
    requires
        is_float_literal(s),
    ensures
        forall|i: int| 0 <= i < s.len() ==> token_char(#[trigger] s[i]) && s[i] != '=',
{
    let b = without_sign(s);
    lemma_words_are_lower();
    if is_word(b, word_inf()) {
        lemma_word_token_chars(b, word_inf());
    } else if is_word(b, word_infinity()) {
        lemma_word_token_chars(b, word_infinity());
    } else if is_word(b, word_nan()) {
        lemma_word_token_chars(b, word_nan());
    } else {
        let k = find_exponent(b);
        lemma_find_exponent_bounds(b);
        lemma_mantissa_chars(b.subrange(0, k));
        if k < b.len() {
            let e = b.subrange(k + 1, b.len() as int);
            lemma_digits_token_chars(without_sign(e));
            lemma_unsigned_part_chars(e);
            lemma_three_parts_chars(b, k);
        } else {
            assert(b.subrange(0, k) =~= b);
        }
    }
    lemma_unsigned_part_chars(s);
}

/// Every character of a reading's token is a token character.
proof fn lemma_value_token_chars(v: ValueModel)
    requires
        v is Float ==> is_float_literal(v->Float_0),
    ensures
        forall|i: int| 0 <= i < value_token(v).len() ==> token_char(#[trigger] value_token(v)[i]),
{
    let lit = literal_of(v);
    match v {
        ValueModel::UnsignedInt(n) => {
            lemma_decimal(n as nat);
            lemma_digits_token_chars(lit);
        },
        ValueModel::SignedInt(n) => {
            if n < 0 {
                let d = decimal((0 - n) as nat);
                lemma_decimal((0 - n) as nat);
                lemma_digits_token_chars(d);
                assert forall|i: int| 0 <= i < lit.len() implies token_char(#[trigger] lit[i]) by {
                    if i > 0 {
                        assert(lit[i] == d[i - 1]);
                    }
                }
            } else {
                lemma_decimal(n as nat);
                lemma_digits_token_chars(lit);
            }
        },
        ValueModel::Float(f) => {
            lemma_float_literal_chars(f);
        },
        ValueModel::Boolean(b) => {
            lemma_words_are_lower();
            if b {
                assert(is_word(word_true(), word_true()));
                lemma_word_token_chars(lit, word_true());
            } else {
                assert(is_word(word_false(), word_false()));
                lemma_word_token_chars(lit, word_false());
            }
        },
    }
    let t = value_token(v);
    assert forall|i: int| 0 <= i < t.len() implies token_char(#[trigger] t[i]) by {
        if i >= 2 {
            assert(t[i] == lit[i - 2]);
        }
    }
}

/// Writing a line back as `[name]:[type]=[literal]` from what it parsed to, and parsing that
/// line, gives the same field: decoding then encoding loses nothing. For integers and
/// booleans the literal is the canonical one; a float keeps the literal it was read from.
/// The name must come back from cleaning unchanged: a name such as `"\0 a"` cleans to
/// `" a"`, which cleans again to `"a"`.
pub proof fn lemma_line_round_trip(line: Seq<char>)
    requires
        parse_field_spec(line) is Ok,
        clean_token(parse_field_spec(line)->Ok_0.0) == parse_field_spec(line)->Ok_0.0,
    ensures
        parse_field_spec(
            parse_field_spec(line)->Ok_0.0 + seq![':'] + value_token(parse_field_spec(line)->Ok_0.1),
        ) == parse_field_spec(line),
{
    let (n, v) = parse_field_spec(line)->Ok_0;
    let before = before_char(line, ':');
    let after = after_char(line, ':');
    lemma_find_char_bounds(line, ':');
    lemma_find_char_bounds(after, ':');
    lemma_clean_token_avoids(before, ':');
    lemma_find_char_bounds(before, '=');
    lemma_clean_token_avoids(before, '=');
    let tok0 = clean_token(after);
    lemma_clean_token_avoids(after, ':');
    if v is Float {
        lemma_find_char_bounds(tok0, '=');
        let lit = after_char(tok0, '=');
        lemma_find_char_bounds(lit, '=');
        lemma_value_token_parses(v, lit);
    } else {
        lemma_value_token_parses(v, Seq::empty());
    }
    let tok = value_token(v);
    lemma_value_token_chars(v);
    lemma_clean_token_plain(tok);
    let l2 = n + seq![':'] + tok;
    assert forall|j: int| 0 <= j < n.len() implies l2[j] != ':' by {
        assert(l2[j] == n[j]);
    }
    lemma_find_char_at(l2, ':', n.len() as int);
    assert(before_char(l2, ':') =~= n);
    lemma_find_char_at(n, '=', n.len() as int);
    assert(after_char(l2, ':') =~= tok);
    lemma_find_char_at(tok, ':', tok.len() as int);
}

proof fn lemma_tags_differ()
    ensures
        seq!['i'] != seq!['u'],
        seq!['f'] != seq!['u'],
        seq!['f'] != seq!['i'],
        seq!['b'] != seq!['u'],
        seq!['b'] != seq!['i'],
        seq!['b'] != seq!['f'],
{
    assert(seq!['i'][0] != seq!['u'][0]);
    assert(seq!['f'][0] != seq!['u'][0]);
    assert(seq!['f'][0] != seq!['i'][0]);
    assert(seq!['b'][0] != seq!['u'][0]);
    assert(seq!['b'][0] != seq!['i'][0]);
    assert(seq!['b'][0] != seq!['f'][0]);
}

proof fn lemma_unsigned_token(n: u64)
    ensures
        parse_value_spec(value_token(ValueModel::UnsignedInt(n))) == Ok::<
            ValueModel,
            ParseErrorModel,
        >(ValueModel::UnsignedInt(n)),
{
    let d = decimal(n as nat);
    lemma_decimal(n as nat);
    lemma_no_equals(d);
    lemma_token_split('u', d);
    assert(is_digit(d[0]));
    assert(without_plus(d) == d);
}

proof fn lemma_signed_token(n: i64)
    ensures
        parse_value_spec(value_token(ValueModel::SignedInt(n))) == Ok::<
            ValueModel,
            ParseErrorModel,
        >(ValueModel::SignedInt(n)),
{
    lemma_tags_differ();
    if n < 0 {
        let d = decimal((0 - n) as nat);
        let t = seq!['-'] + d;
        lemma_decimal((0 - n) as nat);
        assert forall|j: int| 0 <= j < t.len() implies t[j] != '=' by {
            if j > 0 {
                assert(t[j] == d[j - 1]);
            }
        }
        lemma_find_char_at(t, '=', t.len() as int);
        lemma_token_split('i', t);
        assert(t.drop_first() =~= d);
        assert(i64_literal_value(t) == Some(n));
    } else {
        let d = decimal(n as nat);
        lemma_decimal(n as nat);
        lemma_no_equals(d);
        lemma_token_split('i', d);
        assert(is_digit(d[0]));
        assert(without_plus(d) == d);
        assert(i64_literal_value(d) == Some(n));
    }
}

proof fn lemma_float_token(lit: Seq<char>)
    requires
        is_float_literal(lit),
        !has_char(lit, '='),
    ensures
        parse_value_spec(value_token(ValueModel::Float(lit))) == Ok::<
            ValueModel,
            ParseErrorModel,
        >(ValueModel::Float(lit)),
{
    lemma_tags_differ();
    lemma_token_split('f', lit);
}

proof fn lemma_bool_token(b: bool)
    ensures
        parse_value_spec(value_token(ValueModel::Boolean(b))) == Ok::<
            ValueModel,
            ParseErrorModel,
        >(ValueModel::Boolean(b)),
{
    lemma_tags_differ();
    let w = if b {
        word_true()
    } else {
        word_false()
    };
    lemma_find_char_at(w, '=', w.len() as int);
    lemma_token_split('b', w);
    assert(is_word(w, w));
}

proof fn lemma_value_token_parses(v: ValueModel, read_from: Seq<char>)
    requires
        v is Float ==> v->Float_0 == read_from && is_float_literal(read_from) && !has_char(
            read_from,
            '=',
        ),
    ensures
        parse_value_spec(value_token(v)) == Ok::<ValueModel, ParseErrorModel>(v),
{
    match v {
        ValueModel::UnsignedInt(n) => lemma_unsigned_token(n),
        ValueModel::SignedInt(n) => lemma_signed_token(n),
        ValueModel::Float(lit) => lemma_float_token(lit),
        ValueModel::Boolean(b) => lemma_bool_token(b),
    }
}

} // verus!
