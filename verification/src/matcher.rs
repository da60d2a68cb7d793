//! The rule language's abstract syntax tree and its meaning: a boolean
//! expression over the `exe` and `title` fields of an activity, with
//! equality, prefix, suffix, substring and regular-expression leaves.

use vstd::prelude::*;
use vstd::seq_lib::*;

use crate::activity::{Activity, SpecActivity};
use crate::rex::{regex_accepts, regex_is_match, regex_valid};
use crate::text::{
    chars_contains, chars_eq, chars_prefix, chars_suffix, chars_vec, seq_contains_seq,
};

verus! {

/// Which string of an activity a comparison reads.
#[derive(Clone, Copy, PartialEq, Eq, Structural)]
pub enum Field {
    Exe,
    Title,
}

/// The selected field of an activity, at the specification level.
pub open spec fn field_of(a: SpecActivity, f: Field) -> Seq<char> {
    match f {
        Field::Exe => a.exe,
        Field::Title => a.title,
    }
}

/// The rendered name of a field.
pub open spec fn spec_field_name(f: Field) -> Seq<char> {
    match f {
        Field::Exe => seq!['e', 'x', 'e'],
        Field::Title => seq!['t', 'i', 't', 'l', 'e'],
    }
}

impl Field {
    /// The selected string of `activity`.
    pub fn get_from<'a>(self, activity: &'a Activity) -> (r: &'a str)
        ensures
            r@ == field_of(activity@, self),
    {
        match self {
            Field::Exe => activity.exe.as_str(),
            Field::Title => activity.title.as_str(),
        }
    }

    /// The field's name as it appears in rule text.
    pub fn name(self) -> (r: &'static str)
        ensures
            r@ == spec_field_name(self),
    {
        match self {
            Field::Exe => {
                let r = "exe";
                proof {
                    reveal_strlit("exe");
                    assert(r@ =~= spec_field_name(self));
                }
                r
            }
            Field::Title => {
                let r = "title";
                proof {
                    reveal_strlit("title");
                    assert(r@ =~= spec_field_name(self));
                }
                r
            }
        }
    }
}

/// A parsed rule: a binary tree of `and`/`or` nodes over field comparisons.
/// A `Matches` leaf holds the text of its regular expression; the pattern is
/// compiled by the `regex` crate when the rule is parsed and again when it
/// is evaluated, and both results are functions of the pattern text alone.
pub enum Matcher {
    And(Box<Matcher>, Box<Matcher>),
    Or(Box<Matcher>, Box<Matcher>),
    Eq(Field, String),
    NotEq(Field, String),
    StartsWith(Field, String),
    Contains(Field, String),
    EndsWith(Field, String),
    Matches(Field, String),
}

/// The mathematical value of a [`Matcher`]: the same tree with the literal
/// of each leaf as a character sequence.
pub ghost enum SpecMatcher {
    And(Box<SpecMatcher>, Box<SpecMatcher>),
    Or(Box<SpecMatcher>, Box<SpecMatcher>),
    Eq(Field, Seq<char>),
    NotEq(Field, Seq<char>),
    StartsWith(Field, Seq<char>),
    Contains(Field, Seq<char>),
    EndsWith(Field, Seq<char>),
    Matches(Field, Seq<char>),
}

/// The [`SpecMatcher`] value of a [`Matcher`].
pub open spec fn matcher_view(m: Matcher) -> SpecMatcher
    decreases m,
{
    match m {
        Matcher::And(l, r) => SpecMatcher::And(Box::new(matcher_view(*l)), Box::new(matcher_view(*r))),
        Matcher::Or(l, r) => SpecMatcher::Or(Box::new(matcher_view(*l)), Box::new(matcher_view(*r))),
        Matcher::Eq(f, t) => SpecMatcher::Eq(f, t@),
        Matcher::NotEq(f, t) => SpecMatcher::NotEq(f, t@),
        Matcher::StartsWith(f, t) => SpecMatcher::StartsWith(f, t@),
        Matcher::Contains(f, t) => SpecMatcher::Contains(f, t@),
        Matcher::EndsWith(f, t) => SpecMatcher::EndsWith(f, t@),
        Matcher::Matches(f, t) => SpecMatcher::Matches(f, t@),
    }
}

impl View for Matcher {
    type V = SpecMatcher;

    open spec fn view(&self) -> SpecMatcher {
        matcher_view(*self)
    }
}

/// Whether the rule `m` matches the activity `a`.
pub open spec fn spec_matches(m: SpecMatcher, a: SpecActivity) -> bool
    decreases m,
{
    match m {
        SpecMatcher::And(l, r) => spec_matches(*l, a) && spec_matches(*r, a),
        SpecMatcher::Or(l, r) => spec_matches(*l, a) || spec_matches(*r, a),
        SpecMatcher::Eq(f, t) => field_of(a, f) == t,
        SpecMatcher::NotEq(f, t) => field_of(a, f) != t,
        SpecMatcher::StartsWith(f, t) => t.is_prefix_of(field_of(a, f)),
        SpecMatcher::Contains(f, t) => seq_contains_seq(field_of(a, f), t),
        SpecMatcher::EndsWith(f, t) => t.is_suffix_of(field_of(a, f)),
        SpecMatcher::Matches(f, p) => regex_accepts(p, field_of(a, f)),
    }
}

/// Whether every regular-expression leaf of `m` holds a pattern that
/// compiles. Rules built by `parse` always satisfy this, because an invalid
/// pattern is rejected at parse time.
pub open spec fn patterns_valid(m: SpecMatcher) -> bool
    decreases m,
{
    match m {
        SpecMatcher::And(l, r) => patterns_valid(*l) && patterns_valid(*r),
        SpecMatcher::Or(l, r) => patterns_valid(*l) && patterns_valid(*r),
        SpecMatcher::Matches(_, p) => regex_valid(p),
        _ => true,
    }
}

impl Matcher {
    /// Whether this rule matches `activity`.
    pub fn matches(&self, activity: &Activity) -> (r: bool)
        requires
            patterns_valid(self@),
        ensures
            r == spec_matches(self@, activity@),
        decreases *self,
    {
        match self {
            Matcher::And(l, r) => l.matches(activity) && r.matches(activity),
            Matcher::Or(l, r) => l.matches(activity) || r.matches(activity),
            Matcher::Eq(f, t) => {
                let fv = chars_vec(f.get_from(activity));
                let tv = chars_vec(t.as_str());
                chars_eq(&fv, &tv)
            }
            Matcher::NotEq(f, t) => {
                let fv = chars_vec(f.get_from(activity));
                let tv = chars_vec(t.as_str());
                !chars_eq(&fv, &tv)
            }
            Matcher::StartsWith(f, t) => {
                let fv = chars_vec(f.get_from(activity));
                let tv = chars_vec(t.as_str());
                chars_prefix(&fv, &tv)
            }
            Matcher::Contains(f, t) => {
                let fv = chars_vec(f.get_from(activity));
                let tv = chars_vec(t.as_str());
                chars_contains(&fv, &tv)
            }
            Matcher::EndsWith(f, t) => {
                let fv = chars_vec(f.get_from(activity));
                let tv = chars_vec(t.as_str());
                chars_suffix(&fv, &tv)
            }
            Matcher::Matches(f, p) => regex_is_match(p.as_str(), f.get_from(activity)),
        }
    }
}

// ------------------------------------------------------------------
// Canonical rendering.
// ------------------------------------------------------------------

/// The separator of an `and` node, with its surrounding spaces.
pub open spec fn sep_and() -> Seq<char> {
    seq![' ', 'a', 'n', 'd', ' ']
}

/// The separator of an `or` node, with its surrounding spaces.
pub open spec fn sep_or() -> Seq<char> {
    seq![' ', 'o', 'r', ' ']
}

/// The text between a field name and an `==` literal, opening quote included.
pub open spec fn op_eq_open() -> Seq<char> {
    seq![' ', '=', '=', ' ', '\'']
}

/// The text between a field name and a `!=` literal, opening quote included.
pub open spec fn op_neq_open() -> Seq<char> {
    seq![' ', '!', '=', ' ', '\'']
}

/// The text between a field name and a `starts with` literal.
pub open spec fn op_starts_open() -> Seq<char> {
    seq![' ', 's', 't', 'a', 'r', 't', 's', ' ', 'w', 'i', 't', 'h', ' ', '\'']
}

/// The text between a field name and a `contains` literal.
pub open spec fn op_contains_open() -> Seq<char> {
    seq![' ', 'c', 'o', 'n', 't', 'a', 'i', 'n', 's', ' ', '\'']
}

/// The text between a field name and an `ends with` literal.
pub open spec fn op_ends_open() -> Seq<char> {
    seq![' ', 'e', 'n', 'd', 's', ' ', 'w', 'i', 't', 'h', ' ', '\'']
}

/// The text between a field name and a `matches` literal.
pub open spec fn op_matches_open() -> Seq<char> {
    seq![' ', 'm', 'a', 't', 'c', 'h', 'e', 's', ' ', '\'']
}

/// The closing quote of a literal.
pub open spec fn quote_close() -> Seq<char> {
    seq!['\'']
}

/// The canonical text of a rule: each leaf as `field op 'literal'`, each
/// inner node as its children joined by `and` or `or`, without parentheses.
pub open spec fn spec_render(m: SpecMatcher) -> Seq<char>
    decreases m,
{
    match m {
        SpecMatcher::And(l, r) => spec_render(*l) + sep_and() + spec_render(*r),
        SpecMatcher::Or(l, r) => spec_render(*l) + sep_or() + spec_render(*r),
        SpecMatcher::Eq(f, t) => spec_field_name(f) + op_eq_open() + t + quote_close(),
        SpecMatcher::NotEq(f, t) => spec_field_name(f) + op_neq_open() + t + quote_close(),
        SpecMatcher::StartsWith(f, t) => spec_field_name(f) + op_starts_open() + t
            + quote_close(),
        SpecMatcher::Contains(f, t) => spec_field_name(f) + op_contains_open() + t
            + quote_close(),
        SpecMatcher::EndsWith(f, t) => spec_field_name(f) + op_ends_open() + t + quote_close(),
        SpecMatcher::Matches(f, t) => spec_field_name(f) + op_matches_open() + t + quote_close(),
    }
}

impl Matcher {
    /// The canonical text of this rule. Parsing the result gives back an
    /// equal rule whenever this rule came out of `parse`.
    pub fn render(&self) -> (out: String)
        ensures
            out@ == spec_render(self@),
        decreases *self,
    {
        match self {
            Matcher::And(l, r) => {
                let mut s = l.render();
                s.append(" and ");
                let rr = r.render();
                s.append(rr.as_str());
                proof {
                    reveal_strlit(" and ");
                    assert(" and "@ =~= sep_and());
                    assert(s@ =~= spec_render(self@));
                }
                s
            }
            Matcher::Or(l, r) => {
                let mut s = l.render();
                s.append(" or ");
                let rr = r.render();
                s.append(rr.as_str());
                proof {
                    reveal_strlit(" or ");
                    assert(" or "@ =~= sep_or());
                    assert(s@ =~= spec_render(self@));
                }
                s
            }
            Matcher::Eq(f, t) => {
                let mut s = String::from_str(f.name());
                s.append(" == '");
                s.append(t.as_str());
                s.append("'");
                proof {
                    reveal_strlit(" == '");
                    reveal_strlit("'");
                    assert(" == '"@ =~= op_eq_open());
                    assert("'"@ =~= quote_close());
                    assert(s@ =~= spec_render(self@));
                }
                s
            }
            Matcher::NotEq(f, t) => {
                let mut s = String::from_str(f.name());
                s.append(" != '");
                s.append(t.as_str());
                s.append("'");
                proof {
                    reveal_strlit(" != '");
                    reveal_strlit("'");
                    assert(" != '"@ =~= op_neq_open());
                    assert("'"@ =~= quote_close());
                    assert(s@ =~= spec_render(self@));
                }
                s
            }
            Matcher::StartsWith(f, t) => {
                let mut s = String::from_str(f.name());
                s.append(" starts with '");
                s.append(t.as_str());
                s.append("'");
                proof {
                    reveal_strlit(" starts with '");
                    reveal_strlit("'");
                    assert(" starts with '"@ =~= op_starts_open());
                    assert("'"@ =~= quote_close());
                    assert(s@ =~= spec_render(self@));
                }
                s
            }
            Matcher::Contains(f, t) => {
                let mut s = String::from_str(f.name());
                s.append(" contains '");
                s.append(t.as_str());
                s.append("'");
                proof {
                    reveal_strlit(" contains '");
                    reveal_strlit("'");
                    assert(" contains '"@ =~= op_contains_open());
                    assert("'"@ =~= quote_close());
                    assert(s@ =~= spec_render(self@));
                }
                s
            }
            Matcher::EndsWith(f, t) => {
                let mut s = String::from_str(f.name());
                s.append(" ends with '");
                s.append(t.as_str());
                s.append("'");
                proof {
                    reveal_strlit(" ends with '");
                    reveal_strlit("'");
                    assert(" ends with '"@ =~= op_ends_open());
                    assert("'"@ =~= quote_close());
                    assert(s@ =~= spec_render(self@));
                }
                s
            }
            Matcher::Matches(f, t) => {
                let mut s = String::from_str(f.name());
                s.append(" matches '");
                s.append(t.as_str());
                s.append("'");
                proof {
                    reveal_strlit(" matches '");
                    reveal_strlit("'");
                    assert(" matches '"@ =~= op_matches_open());
                    assert("'"@ =~= quote_close());
                    assert(s@ =~= spec_render(self@));
                }
                s
            }
        }
    }
}

} // verus!
