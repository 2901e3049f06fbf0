//! Input validation utilities for strings, numbers and sets of values.

use crate::text::{
    char_is_alphanumeric, chars_of, contains_adjacent, contains_char, debug_list, decimal,
    format_debug_list, has_adjacent, has_prefix, lemma_split_nonempty, parse_u64, parsed_u64,
    push_decimal, split, split_on, strip_prefix, trim, trimmed, unicode_alphanumeric, utf8_len,
    views,
};
use std::fmt::Display;
use vstd::prelude::*;
use vstd::std_specs::cmp::{PartialEqSpec, PartialOrdIs, PartialOrdSpec};
use vstd::string::{to_string_from_display_ensures, StringExecFns};

verus! {

/// Validation error types.
#[derive(Debug, Clone, PartialEq, Eq)]
#[allow(inconsistent_fields)]
pub enum ValidationError {
    /// Value is empty when it shouldn't be.
    Empty,
    /// Value is too short.
    TooShort { min: usize, actual: usize },
    /// Value is too long.
    TooLong { max: usize, actual: usize },
    /// Value is below minimum.
    BelowMin { min: String, actual: String },
    /// Value is above maximum.
    AboveMax { max: String, actual: String },
    /// Value doesn't match expected pattern.
    InvalidPattern { pattern: String },
    /// Value is not in allowed set.
    NotInSet { allowed: Vec<String> },
    /// Custom validation error.
    Custom(String),
}

/// Result type for validation operations.
pub type ValidationResult<T> = Result<T, ValidationError>;

impl ValidationError {
    /// The text of the error, as it is shown to a reader.
    pub open spec fn message_text(self) -> Seq<char> {
        match self {
            ValidationError::Empty => "Value cannot be empty"@,
            ValidationError::TooShort { min, actual } => "Value too short: minimum "@ + decimal(
                min as nat,
            ) + ", got "@ + decimal(actual as nat),
            ValidationError::TooLong { max, actual } => "Value too long: maximum "@ + decimal(
                max as nat,
            ) + ", got "@ + decimal(actual as nat),
            ValidationError::BelowMin { min, actual } => "Value below minimum: min "@ + min@
                + ", got "@ + actual@,
            ValidationError::AboveMax { max, actual } => "Value above maximum: max "@ + max@
                + ", got "@ + actual@,
            ValidationError::InvalidPattern { pattern } => "Value doesn't match pattern: "@
                + pattern@,
            ValidationError::NotInSet { allowed } => "Value not in allowed set: "@ + debug_list(
                allowed@.map_values(|item: String| item@),
            ),
            ValidationError::Custom(msg) => msg@,
        }
    }

    /// Renders the error as text.
    pub fn message(&self) -> (text: String)
        ensures
            text@ == self.message_text(),
    {
        match self {
            ValidationError::Empty => "Value cannot be empty".to_owned(),
            ValidationError::TooShort { min, actual } => {
                let mut text = "Value too short: minimum ".to_owned();
                push_decimal(&mut text, *min as u64);
                text.append(", got ");
                push_decimal(&mut text, *actual as u64);
                text
            },
            ValidationError::TooLong { max, actual } => {
                let mut text = "Value too long: maximum ".to_owned();
                push_decimal(&mut text, *max as u64);
                text.append(", got ");
                push_decimal(&mut text, *actual as u64);
                text
            },
            ValidationError::BelowMin { min, actual } => {
                let mut text = "Value below minimum: min ".to_owned();
                text.append(min.as_str());
                text.append(", got ");
                text.append(actual.as_str());
                text
            },
            ValidationError::AboveMax { max, actual } => {
                let mut text = "Value above maximum: max ".to_owned();
                text.append(max.as_str());
                text.append(", got ");
                text.append(actual.as_str());
                text
            },
            ValidationError::InvalidPattern { pattern } => {
                let mut text = "Value doesn't match pattern: ".to_owned();
                text.append(pattern.as_str());
                text
            },
            ValidationError::NotInSet { allowed } => {
                let mut text = "Value not in allowed set: ".to_owned();
                let list = format_debug_list(allowed);
                text.append(list.as_str());
                text
            },
            ValidationError::Custom(msg) => msg.clone(),
        }
    }
}

/// Validate that a string is not empty once its white space is trimmed.
pub fn validate_not_empty(value: &str) -> (result: ValidationResult<&str>)
    ensures
        match result {
            Ok(v) => v@ == value@ && trimmed(value@).len() > 0,
            Err(e) => e == ValidationError::Empty && trimmed(value@).len() == 0,
        },
{
    if trim(value).is_empty() {
        Err(ValidationError::Empty)
    } else {
        Ok(value)
    }
}

/// Validate that the length of a string in bytes is within bounds.
pub fn validate_length(value: &str, min: usize, max: usize) -> (result: ValidationResult<&str>)
    ensures
        match result {
            Ok(v) => v@ == value@ && min <= utf8_len(value@) <= max,
            Err(e) => if utf8_len(value@) < min {
                e == (ValidationError::TooShort { min, actual: utf8_len(value@) })
            } else {
                utf8_len(value@) > max && e == (ValidationError::TooLong {
                    max,
                    actual: utf8_len(value@),
                })
            },
        },
{
    let len = value.len();
    if len < min {
        Err(ValidationError::TooShort { min, actual: len })
    } else if len > max {
        Err(ValidationError::TooLong { max, actual: len })
    } else {
        Ok(value)
    }
}

/// Validate that a number is within a range, both ends included.
///
/// The comparisons are those of `T`; where `T` orders by its specification,
/// the result says which side was crossed, and the error carries `min` or
/// `max` and `value` as `T` displays them.
pub fn validate_range<T>(value: T, min: T, max: T) -> (result: ValidationResult<T>) where
    T: PartialOrd + Display + Copy,

    ensures
        T::obeys_partial_cmp_spec() ==> match result {
            Ok(v) => v == value && !value.is_lt(&min) && !value.is_gt(&max),
            Err(ValidationError::BelowMin { min: shown_min, actual }) => {
                &&& value.is_lt(&min)
                &&& to_string_from_display_ensures(&min, shown_min)
                &&& to_string_from_display_ensures(&value, actual)
            },
            Err(ValidationError::AboveMax { max: shown_max, actual }) => {
                &&& !value.is_lt(&min)
                &&& value.is_gt(&max)
                &&& to_string_from_display_ensures(&max, shown_max)
                &&& to_string_from_display_ensures(&value, actual)
            },
            Err(_) => false,
        },
{
    if value < min {
        Err(ValidationError::BelowMin { min: min.to_string(), actual: value.to_string() })
    } else if value > max {
        Err(ValidationError::AboveMax { max: max.to_string(), actual: value.to_string() })
    } else {
        Ok(value)
    }
}

/// What makes a text look like an email address: around its white space
/// trimmed, exactly one `@`; before it 1 to 64 bytes; after it 1 to 255 bytes
/// with a dot among them; and nowhere two dots in a row.
pub open spec fn looks_like_email(email: Seq<char>) -> bool {
    let address = trimmed(email);
    let parts = split(address, '@');
    &&& parts.len() == 2
    &&& parts[0].len() > 0
    &&& utf8_len(parts[0]) <= 64
    &&& parts[1].len() > 0
    &&& utf8_len(parts[1]) <= 255
    &&& parts[1].contains('.')
    &&& !has_adjacent(address, '.')
}

/// Check if a string looks like a valid email address.
///
/// This is a simple check, not RFC 5322 compliant.
pub fn is_valid_email(email: &str) -> (valid: bool)
    ensures
        valid == looks_like_email(email@),
{
    let email = trim(email);
    let parts = split_on(email, '@');
    if parts.len() != 2 {
        return false;
    }
    let local = parts[0];
    let domain = parts[1];
    assert(local@ == views(parts@)[0]);
    assert(domain@ == views(parts@)[1]);
    if local.is_empty() || local.len() > 64 {
        return false;
    }
    if domain.is_empty() || domain.len() > 255 {
        return false;
    }
    if !contains_char(domain, '.') {
        return false;
    }
    if contains_adjacent(email, '.') {
        return false;
    }
    true
}

/// What makes a text look like a URL: around its white space trimmed, it
/// begins with `http://` or `https://`, and something with a dot in it
/// follows.
pub open spec fn looks_like_url(url: Seq<char>) -> bool {
    let address = trimmed(url);
    let rest = if has_prefix(address, "https://"@) {
        address.skip("https://"@.len() as int)
    } else {
        address.skip("http://"@.len() as int)
    };
    &&& has_prefix(address, "http://"@) || has_prefix(address, "https://"@)
    &&& rest.len() > 0
    &&& rest.contains('.')
}

/// Check if a string looks like a valid URL.
pub fn is_valid_url(url: &str) -> (valid: bool)
    ensures
        valid == looks_like_url(url@),
{
    let url = trim(url);
    let rest = match strip_prefix(url, "https://") {
        Some(rest) => Some(rest),
        None => strip_prefix(url, "http://"),
    };
    match rest {
        Some(r) => !r.is_empty() && contains_char(r, '.'),
        None => false,
    }
}

/// Whether every character of a non-empty text is alphabetic or numeric.
pub open spec fn all_alphanumeric(s: Seq<char>) -> bool {
    s.len() > 0 && forall|i: int| 0 <= i < s.len() ==> unicode_alphanumeric(#[trigger] s[i])
}

/// Check if a string is non-empty and contains only alphanumeric characters.
pub fn is_alphanumeric(s: &str) -> (valid: bool)
    ensures
        valid == all_alphanumeric(s@),
{
    if s.is_empty() {
        return false;
    }
    let chars = chars_of(s);
    let mut i: usize = 0;
    while i < chars.len()
        invariant
            i <= chars@.len(),
            chars@ == s@,
            forall|j: int| 0 <= j < i ==> unicode_alphanumeric(#[trigger] chars@[j]),
        decreases chars@.len() - i,
    {
        if !char_is_alphanumeric(chars[i]) {
            return false;
        }
        i += 1;
    }
    true
}

/// Whether `c` is an ASCII letter.
pub open spec fn is_ascii_letter(c: char) -> bool {
    'a' <= c <= 'z' || 'A' <= c <= 'Z'
}

/// Whether `c` may stand in an identifier after its first character.
pub open spec fn is_identifier_char(c: char) -> bool {
    is_ascii_letter(c) || '0' <= c <= '9' || c == '_'
}

/// What an identifier is: an ASCII letter or an underscore, then ASCII
/// letters, digits and underscores.
pub open spec fn identifier(s: Seq<char>) -> bool {
    &&& s.len() > 0
    &&& is_ascii_letter(s[0]) || s[0] == '_'
    &&& forall|i: int| 1 <= i < s.len() ==> is_identifier_char(#[trigger] s[i])
}

/// Check if a string is an identifier: ASCII letters, digits and
/// underscores, not starting with a digit.
pub fn is_identifier(s: &str) -> (valid: bool)
    ensures
        valid == identifier(s@),
{
    if s.is_empty() {
        return false;
    }
    let chars = chars_of(s);
    let first = chars[0];
    if !((first >= 'a' && first <= 'z') || (first >= 'A' && first <= 'Z') || first == '_') {
        return false;
    }
    let mut i: usize = 1;
    while i < chars.len()
        invariant
            1 <= i <= chars@.len(),
            chars@ == s@,
            forall|j: int| 1 <= j < i ==> is_identifier_char(#[trigger] chars@[j]),
        decreases chars@.len() - i,
    {
        let c = chars[i];
        if !((c >= 'a' && c <= 'z') || (c >= 'A' && c <= 'Z') || (c >= '0' && c <= '9') || c == '_') {
            return false;
        }
        i += 1;
    }
    true
}

/// The text whose three parts are read as a version: where the text, its
/// white space trimmed, begins with `v`, what follows the `v`; else the text
/// as it was given, white space included.
pub open spec fn version_body(version: Seq<char>) -> Seq<char> {
    let inner = trimmed(version);
    if inner.len() > 0 && inner[0] == 'v' {
        inner.drop_first()
    } else {
        version
    }
}

/// What a semantic version is: three parts between dots, each a number
/// that fits in 64 bits once anything from its first `-` on is left out.
pub open spec fn semantic_version(version: Seq<char>) -> bool {
    let parts = split(version_body(version), '.');
    &&& parts.len() == 3
    &&& forall|i: int| 0 <= i < 3 ==> parsed_u64(split(#[trigger] parts[i], '-')[0]) is Some
}

/// Check if a string is a valid semantic version.
pub fn is_valid_semver(version: &str) -> (valid: bool)
    ensures
        valid == semantic_version(version@),
{
    let body = match strip_prefix(trim(version), "v") {
        Some(rest) => rest,
        None => version,
    };
    proof {
        reveal_strlit("v");
        assert("v"@ =~= seq!['v']);
        let inner = trimmed(version@);
        if has_prefix(inner, "v"@) {
            assert(inner.take(1)[0] == 'v');
            assert(inner.skip(1) =~= inner.drop_first());
        } else if inner.len() > 0 && inner[0] == 'v' {
            assert(inner.take(1) =~= seq!['v']);
        }
    }
    let parts = split_on(body, '.');
    if parts.len() != 3 {
        return false;
    }
    let mut i: usize = 0;
    while i < 3
        invariant
            i <= 3,
            parts@.len() == 3,
            views(parts@) == split(version_body(version@), '.'),
            forall|j: int|
                0 <= j < i ==> parsed_u64(split(#[trigger] views(parts@)[j], '-')[0]) is Some,
        decreases 3 - i,
    {
        let part = parts[i];
        assert(part@ == views(parts@)[i as int]);
        let pieces = split_on(part, '-');
        proof {
            lemma_split_nonempty(part@, '-');
        }
        let clean = pieces[0];
        assert(clean@ == views(pieces@)[0]);
        if parse_u64(clean).is_none() {
            return false;
        }
        i += 1;
    }
    true
}

/// Validate that a value is in an allowed set.
///
/// Where `T` compares by its specification, success means that some allowed
/// value equals `value`; the error lists every allowed value as `T`
/// displays it, in order.
pub fn validate_in_set<T>(value: &T, allowed: &[T]) -> (result: ValidationResult<()>) where
    T: PartialEq + Display,

    ensures
        T::obeys_eq_spec() ==> match result {
            Ok(_) => exists|i: int| 0 <= i < allowed@.len() && (#[trigger] allowed@[i]).eq_spec(value),
            Err(ValidationError::NotInSet { allowed: shown }) => {
                &&& forall|i: int| 0 <= i < allowed@.len() ==> !(#[trigger] allowed@[i]).eq_spec(value)
                &&& shown@.len() == allowed@.len()
                &&& forall|i: int|
                    0 <= i < allowed@.len() ==> to_string_from_display_ensures(
                        &allowed@[i],
                        #[trigger] shown@[i],
                    )
            },
            Err(_) => false,
        },
{
    let mut i: usize = 0;
    while i < allowed.len()
        invariant
            i <= allowed@.len(),
            T::obeys_eq_spec() ==> forall|j: int| 0 <= j < i ==> !(#[trigger] allowed@[j]).eq_spec(value),
        decreases allowed@.len() - i,
    {
        if allowed[i] == *value {
            return Ok(());
        }
        i += 1;
    }
    let mut shown: Vec<String> = Vec::new();
    let mut k: usize = 0;
    while k < allowed.len()
        invariant
            k <= allowed@.len(),
            shown@.len() == k,
            forall|j: int|
                0 <= j < k ==> to_string_from_display_ensures(&allowed@[j], #[trigger] shown@[j]),
        decreases allowed@.len() - k,
    {
        shown.push(allowed[k].to_string());
        k += 1;
    }
    Err(ValidationError::NotInSet { allowed: shown })
}

/// Builder for composing multiple validations.
#[derive(Debug)]
pub struct Validator {
    errors: Vec<(String, ValidationError)>,
}

impl View for Validator {
    type V = Seq<(String, ValidationError)>;

    /// The failed checks so far, each with the name of its field, in the
    /// order in which they were made.
    closed spec fn view(&self) -> Seq<(String, ValidationError)> {
        self.errors@
    }
}

impl Default for Validator {
    fn default() -> (validator: Self)
        ensures
            validator@ == Seq::<(String, ValidationError)>::empty(),
    {
        Validator { errors: Vec::new() }
    }
}

/// The record of checks after one more check on `field` came out as
/// `outcome`: a failure is appended under the field's name, a success
/// changes nothing.
pub open spec fn recorded(
    before: Seq<(String, ValidationError)>,
    field: Seq<char>,
    outcome: Result<(), ValidationError>,
    after: Seq<(String, ValidationError)>,
) -> bool {
    match outcome {
        Ok(_) => after == before,
        Err(e) => {
            &&& after.len() == before.len() + 1
            &&& after.drop_last() == before
            &&& after.last().0@ == field
            &&& after.last().1 == e
        },
    }
}

impl Validator {
    /// Create a new validator, with no failed check.
    pub fn new() -> (validator: Self)
        ensures
            validator@ == Seq::<(String, ValidationError)>::empty(),
    {
        Validator { errors: Vec::new() }
    }

    /// Run a validation check and record its failure, if it fails.
    pub fn check<F>(&mut self, field: &str, validation: F) -> (this: &mut Self) where
        F: FnOnce() -> Result<(), ValidationError>,

        requires
            validation.requires(()),
        ensures
            exists|outcome: Result<(), ValidationError>|
                validation.ensures((), outcome) && recorded(old(self)@, field@, outcome, this@),
            *final(self) == *final(this),
    {
        let outcome = validation();
        match outcome {
            Err(e) => {
                self.errors.push((field.to_owned(), e));
                assert(self.errors@.drop_last() =~= old(self).errors@);
                assert(recorded(old(self)@, field@, outcome, self@));
            },
            Ok(_) => {
                assert(recorded(old(self)@, field@, outcome, self@));
            },
        }
        self
    }

    /// Check if every check so far passed.
    pub fn is_valid(&self) -> (valid: bool)
        ensures
            valid == (self@.len() == 0),
    {
        self.errors.is_empty()
    }

    /// Get all failed checks.
    pub fn errors(&self) -> (errors: &[(String, ValidationError)])
        ensures
            errors@ == self@,
    {
        self.errors.as_slice()
    }

    /// Finish validation: `Ok` if no check failed, else the failed checks.
    pub fn finish(self) -> (result: Result<(), Vec<(String, ValidationError)>>)
        ensures
            match result {
                Ok(_) => self@.len() == 0,
                Err(errors) => self@.len() > 0 && errors@ == self@,
            },
    {
        if self.errors.is_empty() {
            Ok(())
        } else {
            Err(self.errors)
        }
    }
}

} // verus!
