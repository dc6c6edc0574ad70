//! Regular expressions, as the `regex` crate has them.

use crate::error::{Error, ErrorView, Result};
use crate::filter::plain;
use crate::util::text::copy_str;
use regex::Regex;
use vstd::prelude::*;

verus! {

/// A compiled expression of the `regex` crate.
#[verifier::external_type_specification]
#[verifier::external_body]
pub struct ExRegex(Regex);

/// An expression that `Regex::new` compiled, with the crate's default options. It comes from
/// [`compile`] or from a copy, and nowhere else.
#[derive(Debug)]
pub struct Expression {
    re: Regex,
}

/// The text that an expression was compiled from.
pub uninterp spec fn regex_text(e: Expression) -> Seq<char>;

impl View for Expression {
    type V = Seq<char>;

    open spec fn view(&self) -> Seq<char> {
        regex_text(*self)
    }
}

/// What `Regex::new` reports of an expression that it does not compile; `None` where it does.
/// An expression whose compiled form exceeds the crate's size limit is among the faults, and how
/// large that form is may differ with the width of a pointer.
pub uninterp spec fn regex_fault(pattern: Seq<char>) -> Option<Seq<char>>;

/// What `Regex::is_match` says of a compiled `pattern` and the text `s`. It is spoken of only for
/// expressions that have no plain form.
pub uninterp spec fn regex_is_match(pattern: Seq<char>, s: Seq<char>) -> bool;

/// What `Regex::replace_all` makes of `s` with a compiled `pattern` and a replacement text.
pub uninterp spec fn regex_replace_all(
    pattern: Seq<char>,
    s: Seq<char>,
    replacement: Seq<char>,
) -> Seq<char>;

/// Whether a compiled `pattern` matches somewhere in `s`: for an expression of a plain form what
/// the form asks, for any other what `Regex::is_match` says.
pub open spec fn regex_says(pattern: Seq<char>, s: Seq<char>) -> bool {
    match plain::plain_form(pattern) {
        Some(f) => f.holds(s),
        None => regex_is_match(pattern, s),
    }
}

/// `Regex::new`: compiles the expression, which the result then holds, or says in words why it
/// does not. Which expressions compile is the crate's to say.
#[verifier::external_body]
fn regex_new(pattern: &str) -> (r: std::result::Result<
    Expression,
    String,
>)
    ensures
        match r {
            Ok(e) => regex_fault(pattern@) is None && regex_text(e) == pattern@,
            Err(m) => regex_fault(pattern@) == Some(m@),
        },
{
    Regex::new(pattern).map(|re| Expression { re }).map_err(|e| e.to_string())
}

/// `Regex::as_str`: the expression as it was written.
#[verifier::external_body]
fn regex_as_str(e: &Expression) -> (r: &str)
    ensures
        r@ == regex_text(*e),
{
    e.re.as_str()
}

/// `Regex::is_match`: whether the expression matches anywhere in `s`. It depends on the
/// expression and on `s` alone. For the plain forms it is what the crate's syntax gives: `^` and
/// `$` are the two ends of the text, a character of these forms stands for itself, `\.` for a dot,
/// and behind `(?i)` a letter other than `k` and `s` for its two ASCII cases.
#[verifier::external_body]
fn regex_matches(e: &Expression, s: &str) -> (r: bool)
    ensures
        match plain::plain_form(regex_text(*e)) {
            Some(f) => r == f.holds(s@),
            None => r == regex_is_match(regex_text(*e), s@),
        },
{
    e.re.is_match(s)
}

/// `Regex::replace_all` with a replacement text: depends on the three texts alone, and leaves a
/// text alone in which the expression does not match.
#[verifier::external_body]
fn regex_replace(e: &Expression, s: &str, replacement: &str) -> (r: String)
    ensures
        r@ == regex_replace_all(regex_text(*e), s@, replacement@),
        !regex_says(regex_text(*e), s@) ==> r@ == s@,
{
    e.re.replace_all(s, replacement).into_owned()
}

/// `Regex::clone`: the copy holds the same expression.
#[verifier::external_body]
fn regex_clone(e: &Expression) -> (r: Expression)
    ensures
        regex_text(r) == regex_text(*e),
{
    Expression { re: e.re.clone() }
}

impl Clone for Expression {
    fn clone(&self) -> (r: Self)
        ensures
            r@ == self@,
    {
        regex_clone(self)
    }
}

impl Expression {
    /// The text that the expression was compiled from.
    pub fn as_str(&self) -> (r: &str)
        ensures
            r@ == self@,
    {
        regex_as_str(self)
    }

    /// Whether the expression matches somewhere in `s`.
    pub fn is_match(&self, s: &str) -> (r: bool)
        ensures
            r == regex_says(self@, s@),
    {
        regex_matches(self, s)
    }

    /// `s` with the replacement for everything that the expression matches; a text in which it
    /// does not match stays as it is.
    pub fn replace_all(&self, s: &str, replacement: &str) -> (r: String)
        ensures
            r@ == regex_replace_all(self@, s@, replacement@),
            !regex_says(self@, s@) ==> r@ == s@,
    {
        regex_replace(self, s, replacement)
    }
}

/// The error for an expression that does not compile.
pub open spec fn regex_error(pattern: Seq<char>) -> ErrorView {
    ErrorView::InvalidRegex { pattern, source: regex_fault(pattern)->0 }
}

/// Compiles an expression.
pub fn compile(pattern: &str) -> (r: Result<Expression>)
    ensures
        match r {
            Ok(x) => regex_fault(pattern@) is None && x@ == pattern@,
            Err(e) => regex_fault(pattern@) is Some && e@ == regex_error(pattern@),
        },
{
    match regex_new(pattern) {
        Ok(x) => Ok(x),
        Err(source) => Err(Error::InvalidRegex { pattern: copy_str(pattern), source }),
    }
}

} // verus!
