//! Environment variable helpers.
//!
//! Reading the environment is the caller's part. What a variable's value
//! means (a flag, a list, the name of the running environment) is decided
//! here, on the value that the caller read: `None` for a variable that is
//! not set.

use crate::text::{lowercase, split_by, split_on_text, text_eq, to_lowercase, trim, trimmed, views};
use vstd::prelude::*;
use vstd::string::StringExecFns;

verus! {

/// Error type for environment variable operations.
#[derive(Debug, Clone, PartialEq, Eq)]
pub enum EnvError {
    /// Variable is not set.
    NotSet(String),
    /// Variable value cannot be parsed.
    ParseError { var: String, value: String, expected: String },
    /// Variable value is empty.
    Empty(String),
}

impl EnvError {
    /// The text of the error.
    pub open spec fn message_text(self) -> Seq<char> {
        match self {
            EnvError::NotSet(var) => "Environment variable not set: "@ + var@,
            EnvError::ParseError { var, value, expected } => "Cannot parse "@ + var@ + "="@ + value@
                + " as "@ + expected@,
            EnvError::Empty(var) => "Environment variable is empty: "@ + var@,
        }
    }

    /// Renders the error as text.
    pub fn message(&self) -> (text: String)
        ensures
            text@ == self.message_text(),
    {
        match self {
            EnvError::NotSet(var) => "Environment variable not set: ".to_owned().concat(
                var.as_str(),
            ),
            EnvError::ParseError { var, value, expected } => "Cannot parse ".to_owned().concat(
                var.as_str(),
            ).concat("=").concat(value.as_str()).concat(" as ").concat(expected.as_str()),
            EnvError::Empty(var) => "Environment variable is empty: ".to_owned().concat(
                var.as_str(),
            ),
        }
    }
}

/// Get a variable's value, parsed by `parse`; `None` if the variable is
/// not set or `parse` makes nothing of it.
pub fn get_env<T, F>(value: Option<String>, parse: F) -> (parsed: Option<T>) where
    F: FnOnce(String) -> Option<T>,

    requires
        value matches Some(v) ==> parse.requires((v,)),
    ensures
        match value {
            Some(v) => parse.ensures((v,), parsed),
            None => parsed is None,
        },
{
    match value {
        Some(v) => parse(v),
        None => None,
    }
}

/// Get a variable's value, parsed by `parse`, or a default value.
pub fn get_env_or<T, F>(value: Option<String>, default: T, parse: F) -> (result: T) where
    F: FnOnce(String) -> Option<T>,

    requires
        value matches Some(v) ==> parse.requires((v,)),
    ensures
        match value {
            Some(v) => parse.ensures((v,), Some(result)) || (parse.ensures((v,), None::<T>)
                && result == default),
            None => result == default,
        },
{
    match get_env(value, parse) {
        Some(parsed) => parsed,
        None => default,
    }
}

/// What `try_get_env` makes of the variable `key` with the value `value`,
/// given what `parse` made of a value that is set and not empty.
pub open spec fn try_outcome<T>(
    key: Seq<char>,
    value: Option<String>,
    expected: Seq<char>,
    parsed: Option<T>,
    result: Result<T, EnvError>,
) -> bool {
    match value {
        None => result matches Err(EnvError::NotSet(var)) && var@ == key,
        Some(v) => if v@.len() == 0 {
            result matches Err(EnvError::Empty(var)) && var@ == key
        } else {
            match parsed {
                Some(p) => result == Ok::<T, EnvError>(p),
                None => {
                    &&& result matches Err(EnvError::ParseError { var, value: shown, expected: wanted })
                    &&& var@ == key
                    &&& shown@ == v@
                    &&& wanted@ == expected
                },
            }
        },
    }
}

/// Get a variable's value, parsed by `parse`, or the error that says why
/// not: the variable is not set, is empty, or `parse` makes nothing of it.
/// `expected` names what the value was to be, for the error.
pub fn try_get_env<T, F>(key: &str, value: Option<String>, expected: &str, parse: F) -> (result:
    Result<T, EnvError>) where F: FnOnce(&String) -> Option<T>
    requires
        value matches Some(v) ==> parse.requires((&v,)),
    ensures
        match value {
            Some(v) if v@.len() > 0 => exists|parsed: Option<T>|
                parse.ensures((&v,), parsed) && try_outcome(
                    key@,
                    value,
                    expected@,
                    parsed,
                    result,
                ),
            _ => try_outcome(key@, value, expected@, None::<T>, result),
        },
{
    match value {
        None => Err(EnvError::NotSet(key.to_owned())),
        Some(v) => {
            if v.as_str().is_empty() {
                return Err(EnvError::Empty(key.to_owned()));
            }
            let parsed = parse(&v);
            match parsed {
                Some(p) => {
                    assert(try_outcome(key@, value, expected@, parsed, Ok::<T, EnvError>(p)));
                    Ok(p)
                },
                None => {
                    let error = EnvError::ParseError {
                        var: key.to_owned(),
                        value: v,
                        expected: expected.to_owned(),
                    };
                    assert(try_outcome(key@, value, expected@, parsed, Err::<T, EnvError>(error)));
                    Err(error)
                },
            }
        },
    }
}

/// Get a variable's value as a string: the value, if it is set and not
/// empty.
pub fn get_string(value: Option<String>) -> (result: Option<String>)
    ensures
        result == match value {
            Some(v) if v@.len() > 0 => Some(v),
            _ => None,
        },
{
    match value {
        Some(v) => if v.as_str().is_empty() {
            None
        } else {
            Some(v)
        },
        None => None,
    }
}

/// What a flag's value means: "true", "1", "yes" and "on" are true in any
/// letter case; everything else is false.
pub open spec fn flag(value: Seq<char>) -> bool {
    let lower = lowercase(value);
    lower == "true"@ || lower == "1"@ || lower == "yes"@ || lower == "on"@
}

/// Get a variable's value as a boolean; a variable that is not set is
/// false.
pub fn get_bool(value: Option<&str>) -> (result: bool)
    ensures
        result == match value {
            Some(v) => flag(v@),
            None => false,
        },
{
    match value {
        Some(v) => {
            let lower = to_lowercase(v);
            text_eq(lower.as_str(), "true") || text_eq(lower.as_str(), "1") || text_eq(
                lower.as_str(),
                "yes",
            ) || text_eq(lower.as_str(), "on")
        },
        None => false,
    }
}

/// The items of a list: the pieces of `value` between delimiters, each
/// trimmed, those that are then empty left out.
pub open spec fn list_items(value: Seq<char>, delimiter: Seq<char>) -> Seq<Seq<char>> {
    split_by(value, delimiter).map_values(|piece: Seq<char>| trimmed(piece)).filter(
        |item: Seq<char>| item.len() > 0,
    )
}

/// Get a variable's value as a list, split by a delimiter; a variable that
/// is not set gives no items.
pub fn get_list(value: Option<&str>, delimiter: &str) -> (items: Vec<String>)
    ensures
        items@.map_values(|item: String| item@) == match value {
            Some(v) => list_items(v@, delimiter@),
            None => Seq::empty(),
        },
{
    let mut items: Vec<String> = Vec::new();
    match value {
        None => {
            assert(items@.map_values(|item: String| item@) =~= Seq::<Seq<char>>::empty());
        },
        Some(v) => {
            let pieces = split_on_text(v, delimiter);
            let ghost trimmed_pieces = views(pieces@).map_values(|piece: Seq<char>| trimmed(piece));
            let ghost kept = |item: Seq<char>| item.len() > 0;
            let mut i: usize = 0;
            proof {
                reveal(Seq::filter);
                assert(trimmed_pieces.take(0).filter(kept) =~= Seq::<Seq<char>>::empty());
                assert(items@.map_values(|item: String| item@) =~= Seq::<Seq<char>>::empty());
            }
            while i < pieces.len()
                invariant
                    i <= pieces@.len(),
                    trimmed_pieces == views(pieces@).map_values(|piece: Seq<char>| trimmed(piece)),
                    kept == |item: Seq<char>| item.len() > 0,
                    items@.map_values(|item: String| item@) == trimmed_pieces.take(i as int).filter(
                        kept,
                    ),
                decreases pieces@.len() - i,
            {
                let piece = trim(pieces[i]);
                let ghost before = items@.map_values(|item: String| item@);
                proof {
                    assert(trimmed_pieces.take(i + 1) =~= trimmed_pieces.take(i as int).push(
                        trimmed_pieces[i as int],
                    ));
                    trimmed_pieces.take(i as int).lemma_filter_push(trimmed_pieces[i as int], kept);
                    assert(piece@ == trimmed_pieces[i as int]);
                }
                if !piece.is_empty() {
                    items.push(piece.to_owned());
                    assert(items@.map_values(|item: String| item@) =~= before.push(piece@));
                }
                i += 1;
            }
            assert(trimmed_pieces.take(pieces@.len() as int) =~= trimmed_pieces);
        },
    }
    items
}

/// Check if a variable is set and not empty.
pub fn is_set(value: Option<&str>) -> (set: bool)
    ensures
        set == (value matches Some(v) && v@.len() > 0),
{
    match value {
        Some(v) => !v.is_empty(),
        None => false,
    }
}

/// The variables that name the running environment, in the order in which
/// they are asked.
pub fn environment_keys() -> (keys: [&'static str; 4])
    ensures
        keys[0]@ == "ENV"@,
        keys[1]@ == "ENVIRONMENT"@,
        keys[2]@ == "RUST_ENV"@,
        keys[3]@ == "APP_ENV"@,
{
    ["ENV", "ENVIRONMENT", "RUST_ENV", "APP_ENV"]
}

/// The name of the running environment: the first of `values` that is set
/// and not empty, in lower case; "development" where there is none.
pub open spec fn environment_name(values: Seq<Option<String>>) -> Seq<char>
    decreases values.len(),
{
    if values.len() == 0 {
        "development"@
    } else {
        match values.first() {
            Some(v) if v@.len() > 0 => lowercase(v@),
            _ => environment_name(values.drop_first()),
        }
    }
}

/// Get the current environment name (development, staging, production)
/// from the values of the variables of `environment_keys`, in that order.
pub fn get_environment(values: &[Option<String>]) -> (name: String)
    ensures
        name@ == environment_name(values@),
{
    let mut i: usize = 0;
    assert(values@.skip(0) =~= values@);
    while i < values.len()
        invariant
            i <= values@.len(),
            environment_name(values@) == environment_name(values@.skip(i as int)),
        decreases values@.len() - i,
    {
        proof {
            assert(values@.skip(i as int).drop_first() =~= values@.skip(i + 1));
            assert(values@.skip(i as int).first() == values@[i as int]);
        }
        match &values[i] {
            Some(v) => {
                if !v.as_str().is_empty() {
                    return to_lowercase(v.as_str());
                }
            },
            None => {},
        }
        i += 1;
    }
    "development".to_owned()
}

/// Check if an environment name means production.
pub fn is_production(environment: &str) -> (b: bool)
    ensures
        b == (environment@ == "production"@ || environment@ == "prod"@),
{
    text_eq(environment, "production") || text_eq(environment, "prod")
}

/// Check if an environment name means development.
pub fn is_development(environment: &str) -> (b: bool)
    ensures
        b == (environment@ == "development"@ || environment@ == "dev"@ || environment@.len() == 0),
{
    text_eq(environment, "development") || text_eq(environment, "dev") || environment.is_empty()
}

/// Check if an environment name means test.
pub fn is_test(environment: &str) -> (b: bool)
    ensures
        b == (environment@ == "test"@ || environment@ == "testing"@),
{
    text_eq(environment, "test") || text_eq(environment, "testing")
}

/// Environment configuration builder: the variables that a program
/// reads, each required or optional with a default.
#[derive(Debug)]
pub struct EnvConfig {
    vars: Vec<(String, Option<String>)>,
}

impl View for EnvConfig {
    type V = Seq<(String, Option<String>)>;

    /// The variables in the order in which they were added, each with its
    /// default; a required variable has none.
    closed spec fn view(&self) -> Seq<(String, Option<String>)> {
        self.vars@
    }
}

/// The record `after` is `before` with one variable more, named `key`,
/// with the default `default`.
pub open spec fn declared(
    before: Seq<(String, Option<String>)>,
    key: Seq<char>,
    default: Option<Seq<char>>,
    after: Seq<(String, Option<String>)>,
) -> bool {
    &&& after.len() == before.len() + 1
    &&& after.drop_last() == before
    &&& after.last().0@ == key
    &&& match default {
        Some(d) => after.last().1 matches Some(given) && given@ == d,
        None => after.last().1 is None,
    }
}

/// Whether `answers` holds, for each required variable of `vars`, an
/// answer that `is_set` gave when asked for it.
pub open spec fn consulted<F: Fn(&String) -> bool>(
    vars: Seq<(String, Option<String>)>,
    is_set: F,
    answers: Seq<bool>,
) -> bool {
    &&& answers.len() == vars.len()
    &&& forall|i: int|
        0 <= i < vars.len() && (#[trigger] vars[i]).1 is None ==> is_set.ensures(
            (&vars[i].0,),
            answers[i],
        )
}

/// The names of the required variables of `vars` whose answer is that they
/// are not set, in the order of `vars`.
pub open spec fn missing_names(vars: Seq<(String, Option<String>)>, answers: Seq<bool>) -> Seq<
    String,
>
    decreases vars.len(),
{
    if vars.len() == 0 || answers.len() != vars.len() {
        Seq::empty()
    } else {
        let before = missing_names(vars.drop_last(), answers.drop_last());
        if vars.last().1 is None && !answers.last() {
            before.push(vars.last().0)
        } else {
            before
        }
    }
}

impl EnvConfig {
    /// Create a new environment configuration, with no variable.
    pub fn new() -> (config: Self)
        ensures
            config@ == Seq::<(String, Option<String>)>::empty(),
    {
        EnvConfig { vars: Vec::new() }
    }

    /// Add a required variable.
    pub fn require(&mut self, key: &str) -> (this: &mut Self)
        ensures
            declared(old(self)@, key@, None, this@),
            *final(self) == *final(this),
    {
        self.vars.push((key.to_owned(), None));
        assert(self.vars@.drop_last() =~= old(self).vars@);
        self
    }

    /// Add an optional variable with a default.
    pub fn optional(&mut self, key: &str, default: &str) -> (this: &mut Self)
        ensures
            declared(old(self)@, key@, Some(default@), this@),
            *final(self) == *final(this),
    {
        self.vars.push((key.to_owned(), Some(default.to_owned())));
        assert(self.vars@.drop_last() =~= old(self).vars@);
        self
    }

    /// Validate that all required variables are set, as `is_set` tells of
    /// each by its name.
    ///
    /// Returns the required variables that are not set, in the order in
    /// which they were added.
    pub fn validate<F>(&self, is_set: F) -> (missing: Vec<String>) where F: Fn(&String) -> bool
        requires
            forall|key: &String| is_set.requires((key,)),
        ensures
            exists|answers: Seq<bool>| #[trigger]
                consulted(self@, is_set, answers) && missing@ == missing_names(self@, answers),
    {
        let mut missing: Vec<String> = Vec::new();
        let ghost mut answers: Seq<bool> = Seq::empty();
        let mut i: usize = 0;
        assert(self.vars@.take(0) =~= Seq::empty());
        while i < self.vars.len()
            invariant
                i <= self.vars@.len(),
                forall|key: &String| is_set.requires((key,)),
                consulted(self.vars@.take(i as int), is_set, answers),
                missing@ == missing_names(self.vars@.take(i as int), answers),
            decreases self.vars@.len() - i,
        {
            let ghost before = answers;
            let var = &self.vars[i];
            let mut answer = true;
            if var.1.is_none() {
                answer = is_set(&var.0);
                if !answer {
                    missing.push(var.0.clone());
                }
            }
            proof {
                answers = answers.push(answer);
                let seen = self.vars@.take(i + 1);
                assert(seen.drop_last() =~= self.vars@.take(i as int));
                assert(answers.drop_last() =~= before);
                assert(seen.last() == self.vars@[i as int]);
                assert forall|j: int| 0 <= j < seen.len() && (#[trigger] seen[j]).1 is None implies
                    is_set.ensures((&seen[j].0,), answers[j]) by {
                    if j < i {
                        assert(self.vars@.take(i as int)[j] == seen[j]);
                    }
                }
            }
            i += 1;
        }
        assert(self.vars@.take(self.vars@.len() as int) =~= self.vars@);
        assert(consulted(self@, is_set, answers) && missing@ == missing_names(self@, answers));
        missing
    }

    /// Check if configuration is valid: no required variable is missing.
    pub fn is_valid<F>(&self, is_set: F) -> (valid: bool) where F: Fn(&String) -> bool
        requires
            forall|key: &String| is_set.requires((key,)),
        ensures
            exists|answers: Seq<bool>| #[trigger]
                consulted(self@, is_set, answers) && valid == (missing_names(self@, answers).len()
                    == 0),
    {
        let missing = self.validate(is_set);
        missing.is_empty()
    }
}

impl Default for EnvConfig {
    fn default() -> (config: Self)
        ensures
            config@ == Seq::<(String, Option<String>)>::empty(),
    {
        EnvConfig::new()
    }
}

} // verus!
