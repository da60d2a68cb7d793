//! The rule parser. The grammar, with whitespace allowed before every
//! token:
//!
//! ```text
//! Expr  ::= Disj                        (the whole input must be consumed)
//! Disj  ::= Conj ("or" Conj)*          (left-associative)
//! Conj  ::= Comp ("and" Comp)*         (left-associative)
//! Comp  ::= Field "==" Term | Field "!=" Term | Field "starts" "with" Term
//!         | Field "contains" Term | Field "ends" "with" Term
//!         | Field "matches" Term
//! Field ::= "exe" | "title"
//! Term  ::= "'" chars "'"              (backslash escapes a literal quote)
//! ```
//!
//! The parser is specified by the `parse_*` spec functions below and
//! implemented by `Matcher::parse`; `and` binds tighter than `or`, and a
//! `matches` pattern that does not compile is rejected at parse time.

use vstd::prelude::*;
use vstd::seq_lib::*;
use vstd::string::StrSliceExecFns;

use crate::matcher::{spec_field_name, Field, Matcher, SpecMatcher};
use crate::rex::{regex_compile_ok, regex_valid};
use crate::text::{chars_vec, string_from_chars};

verus! {

/// Why a rule failed to parse.
#[derive(Clone, Copy, PartialEq, Eq, Structural, Debug)]
pub enum ParseError {
    /// No production matched at some position (an invalid regular
    /// expression pattern counts as such a failure).
    Syntax,
    /// A full expression was parsed but input remained after it.
    TrailingInput,
}

// ------------------------------------------------------------------
// Keywords.
// ------------------------------------------------------------------

pub open spec fn kw_and() -> Seq<char> {
    seq!['a', 'n', 'd']
}

pub open spec fn kw_or() -> Seq<char> {
    seq!['o', 'r']
}

pub open spec fn kw_eq() -> Seq<char> {
    seq!['=', '=']
}

pub open spec fn kw_neq() -> Seq<char> {
    seq!['!', '=']
}

pub open spec fn kw_starts() -> Seq<char> {
    seq!['s', 't', 'a', 'r', 't', 's']
}

pub open spec fn kw_with() -> Seq<char> {
    seq!['w', 'i', 't', 'h']
}

pub open spec fn kw_contains() -> Seq<char> {
    seq!['c', 'o', 'n', 't', 'a', 'i', 'n', 's']
}

pub open spec fn kw_ends() -> Seq<char> {
    seq!['e', 'n', 'd', 's']
}

pub open spec fn kw_matches() -> Seq<char> {
    seq!['m', 'a', 't', 'c', 'h', 'e', 's']
}

pub open spec fn kw_quote() -> Seq<char> {
    seq!['\'']
}

// ------------------------------------------------------------------
// The specification-level parser.
// ------------------------------------------------------------------

/// The whitespace that is insignificant between tokens.
pub open spec fn is_ws(c: char) -> bool {
    c == ' ' || c == '\t' || c == '\n' || c == '\r'
}

/// The first position at or after `i` that does not hold whitespace.
pub open spec fn skip_ws(s: Seq<char>, i: int) -> int
    decreases s.len() - i,
{
    if 0 <= i < s.len() && is_ws(s[i]) {
        skip_ws(s, i + 1)
    } else {
        i
    }
}

/// Whether the literal `w` stands at position `i` of `s`.
pub open spec fn match_lit(s: Seq<char>, i: int, w: Seq<char>) -> bool {
    0 <= i && i + w.len() <= s.len() && s.subrange(i, i + w.len()) == w
}

/// Skip whitespace, then expect the literal `w`; the position after it.
pub open spec fn parse_key(s: Seq<char>, i: int, w: Seq<char>) -> Option<int> {
    let j = skip_ws(s, i);
    if match_lit(s, j, w) {
        Some(j + w.len() as int)
    } else {
        None
    }
}

/// Two keywords in sequence, each with leading whitespace allowed.
pub open spec fn parse_key2(s: Seq<char>, i: int, w1: Seq<char>, w2: Seq<char>) -> Option<int> {
    match parse_key(s, i, w1) {
        Some(j) => parse_key(s, j, w2),
        None => None,
    }
}

/// Scan the content of a term after its opening quote: the literal's
/// characters, kept verbatim, and the position after the closing quote.
/// A backslash immediately before a quote escapes it; any other backslash
/// is an ordinary character.
pub open spec fn scan_term(s: Seq<char>, i: int) -> Option<(Seq<char>, int)>
    decreases s.len() - i,
{
    if i < 0 || i >= s.len() {
        None
    } else if s[i] == '\'' {
        Some((Seq::empty(), i + 1))
    } else if s[i] == '\\' && i + 1 < s.len() && s[i + 1] == '\'' {
        match scan_term(s, i + 2) {
            Some((t, j)) => Some((seq!['\\', '\''] + t, j)),
            None => None,
        }
    } else {
        match scan_term(s, i + 1) {
            Some((t, j)) => Some((seq![s[i]] + t, j)),
            None => None,
        }
    }
}

/// A quoted term: whitespace, an opening quote, then the scanned content.
pub open spec fn parse_term(s: Seq<char>, i: int) -> Option<(Seq<char>, int)> {
    match parse_key(s, i, kw_quote()) {
        Some(j) => scan_term(s, j),
        None => None,
    }
}

/// A field name: `exe` or `title`.
pub open spec fn parse_field(s: Seq<char>, i: int) -> Option<(Field, int)> {
    match parse_key(s, i, spec_field_name(Field::Exe)) {
        Some(j) => Some((Field::Exe, j)),
        None => match parse_key(s, i, spec_field_name(Field::Title)) {
            Some(j) => Some((Field::Title, j)),
            None => None,
        },
    }
}

/// A comparison: a field, an operator, and a term. Operators are tried in
/// a fixed order; their first characters are pairwise distinct, so at most
/// one can apply.
pub open spec fn parse_comp(s: Seq<char>, i: int) -> Option<(SpecMatcher, int)> {
    match parse_field(s, i) {
        None => None,
        Some((f, j)) => match parse_key(s, j, kw_eq()) {
            Some(k) => match parse_term(s, k) {
                Some((t, m)) => Some((SpecMatcher::Eq(f, t), m)),
                None => None,
            },
            None => match parse_key(s, j, kw_neq()) {
                Some(k) => match parse_term(s, k) {
                    Some((t, m)) => Some((SpecMatcher::NotEq(f, t), m)),
                    None => None,
                },
                None => match parse_key2(s, j, kw_starts(), kw_with()) {
                    Some(k) => match parse_term(s, k) {
                        Some((t, m)) => Some((SpecMatcher::StartsWith(f, t), m)),
                        None => None,
                    },
                    None => match parse_key(s, j, kw_contains()) {
                        Some(k) => match parse_term(s, k) {
                            Some((t, m)) => Some((SpecMatcher::Contains(f, t), m)),
                            None => None,
                        },
                        None => match parse_key2(s, j, kw_ends(), kw_with()) {
                            Some(k) => match parse_term(s, k) {
                                Some((t, m)) => Some((SpecMatcher::EndsWith(f, t), m)),
                                None => None,
                            },
                            None => match parse_key(s, j, kw_matches()) {
                                Some(k) => match parse_term(s, k) {
                                    Some((t, m)) => if regex_valid(t) {
                                        Some((SpecMatcher::Matches(f, t), m))
                                    } else {
                                        None
                                    },
                                    None => None,
                                },
                                None => None,
                            },
                        },
                    },
                },
            },
        },
    }
}

// ------------------------------------------------------------------
// Bounds lemmas, needed for the folds' termination.
// ------------------------------------------------------------------

pub proof fn lemma_skip_ws_bounds(s: Seq<char>, i: int)
    ensures
        i <= skip_ws(s, i),
        i <= s.len() ==> skip_ws(s, i) <= s.len(),
    decreases s.len() - i,
{
    if 0 <= i < s.len() && is_ws(s[i]) {
        lemma_skip_ws_bounds(s, i + 1);
    }
}

pub proof fn lemma_parse_key_bounds(s: Seq<char>, i: int, w: Seq<char>)
    requires
        w.len() >= 1,
    ensures
        parse_key(s, i, w) matches Some(j) ==> i < j <= s.len(),
{
    lemma_skip_ws_bounds(s, i);
}

pub proof fn lemma_scan_term_bounds(s: Seq<char>, i: int)
    ensures
        scan_term(s, i) matches Some((t, j)) ==> i < j <= s.len(),
    decreases s.len() - i,
{
    if 0 <= i < s.len() {
        if s[i] == '\\' && i + 1 < s.len() && s[i + 1] == '\'' {
            lemma_scan_term_bounds(s, i + 2);
        } else {
            lemma_scan_term_bounds(s, i + 1);
        }
    }
}

pub proof fn lemma_parse_term_bounds(s: Seq<char>, i: int)
    ensures
        parse_term(s, i) matches Some((t, j)) ==> i < j <= s.len(),
{
    lemma_parse_key_bounds(s, i, kw_quote());
    match parse_key(s, i, kw_quote()) {
        Some(j) => lemma_scan_term_bounds(s, j),
        None => (),
    }
}

pub proof fn lemma_parse_field_bounds(s: Seq<char>, i: int)
    ensures
        parse_field(s, i) matches Some((f, j)) ==> i < j <= s.len(),
{
    lemma_parse_key_bounds(s, i, spec_field_name(Field::Exe));
    lemma_parse_key_bounds(s, i, spec_field_name(Field::Title));
}

pub proof fn lemma_parse_comp_bounds(s: Seq<char>, i: int)
    ensures
        parse_comp(s, i) matches Some((m, j)) ==> i < j <= s.len(),
{
    lemma_parse_field_bounds(s, i);
    match parse_field(s, i) {
        None => (),
        Some((f, j)) => {
            lemma_parse_key_bounds(s, j, kw_eq());
            lemma_parse_key_bounds(s, j, kw_neq());
            lemma_parse_key_bounds(s, j, kw_starts());
            lemma_parse_key_bounds(s, j, kw_contains());
            lemma_parse_key_bounds(s, j, kw_ends());
            lemma_parse_key_bounds(s, j, kw_matches());
            match parse_key(s, j, kw_eq()) {
                Some(k) => lemma_parse_term_bounds(s, k),
                None => (),
            }
            match parse_key(s, j, kw_neq()) {
                Some(k) => lemma_parse_term_bounds(s, k),
                None => (),
            }
            match parse_key(s, j, kw_starts()) {
                Some(k1) => {
                    lemma_parse_key_bounds(s, k1, kw_with());
                    match parse_key(s, k1, kw_with()) {
                        Some(k) => lemma_parse_term_bounds(s, k),
                        None => (),
                    }
                }
                None => (),
            }
            match parse_key(s, j, kw_contains()) {
                Some(k) => lemma_parse_term_bounds(s, k),
                None => (),
            }
            match parse_key(s, j, kw_ends()) {
                Some(k1) => {
                    lemma_parse_key_bounds(s, k1, kw_with());
                    match parse_key(s, k1, kw_with()) {
                        Some(k) => lemma_parse_term_bounds(s, k),
                        None => (),
                    }
                }
                None => (),
            }
            match parse_key(s, j, kw_matches()) {
                Some(k) => lemma_parse_term_bounds(s, k),
                None => (),
            }
        }
    }
}

// ------------------------------------------------------------------
// The folds.
// ------------------------------------------------------------------

/// Fold further `"and" Comp` groups onto `acc`, left-associatively. The
/// fold stops, consuming nothing more, as soon as the keyword or the
/// comparison after it fails to parse.
pub open spec fn parse_conj_rest(s: Seq<char>, i: int, acc: SpecMatcher) -> (SpecMatcher, int)
    decreases s.len() - i,
{
    match parse_key(s, i, kw_and()) {
        None => (acc, i),
        Some(j) => match parse_comp(s, j) {
            None => (acc, i),
            Some((c, k)) => {
                proof {
                    lemma_parse_key_bounds(s, i, kw_and());
                    lemma_parse_comp_bounds(s, j);
                }
                parse_conj_rest(s, k, SpecMatcher::And(Box::new(acc), Box::new(c)))
            }
        },
    }
}

/// A conjunction: a comparison, then the `and` fold.
pub open spec fn parse_conj(s: Seq<char>, i: int) -> Option<(SpecMatcher, int)> {
    match parse_comp(s, i) {
        None => None,
        Some((c, j)) => Some(parse_conj_rest(s, j, c)),
    }
}

pub proof fn lemma_parse_conj_rest_bounds(s: Seq<char>, i: int, acc: SpecMatcher)
    ensures
        i <= parse_conj_rest(s, i, acc).1,
        i <= s.len() ==> parse_conj_rest(s, i, acc).1 <= s.len(),
    decreases s.len() - i,
{
    match parse_key(s, i, kw_and()) {
        None => (),
        Some(j) => {
            lemma_parse_key_bounds(s, i, kw_and());
            match parse_comp(s, j) {
                None => (),
                Some((c, k)) => {
                    lemma_parse_comp_bounds(s, j);
                    lemma_parse_conj_rest_bounds(s, k, SpecMatcher::And(Box::new(acc), Box::new(c)));
                }
            }
        }
    }
}

pub proof fn lemma_parse_conj_bounds(s: Seq<char>, i: int)
    ensures
        parse_conj(s, i) matches Some((m, j)) ==> i < j <= s.len(),
{
    lemma_parse_comp_bounds(s, i);
    match parse_comp(s, i) {
        None => (),
        Some((c, j)) => lemma_parse_conj_rest_bounds(s, j, c),
    }
}

/// Fold further `"or" Conj` groups onto `acc`, left-associatively.
pub open spec fn parse_disj_rest(s: Seq<char>, i: int, acc: SpecMatcher) -> (SpecMatcher, int)
    decreases s.len() - i,
{
    match parse_key(s, i, kw_or()) {
        None => (acc, i),
        Some(j) => match parse_conj(s, j) {
            None => (acc, i),
            Some((c, k)) => {
                proof {
                    lemma_parse_key_bounds(s, i, kw_or());
                    lemma_parse_conj_bounds(s, j);
                }
                parse_disj_rest(s, k, SpecMatcher::Or(Box::new(acc), Box::new(c)))
            }
        },
    }
}

/// A disjunction: a conjunction, then the `or` fold.
pub open spec fn parse_disj(s: Seq<char>, i: int) -> Option<(SpecMatcher, int)> {
    match parse_conj(s, i) {
        None => None,
        Some((c, j)) => Some(parse_disj_rest(s, j, c)),
    }
}

/// A whole rule: a disjunction that consumes the entire input.
pub open spec fn parse_expr(s: Seq<char>) -> Option<SpecMatcher> {
    match parse_disj(s, 0) {
        Some((m, j)) => if j == s.len() {
            Some(m)
        } else {
            None
        },
        None => None,
    }
}

// ------------------------------------------------------------------
// Well-formed syntax trees: exactly the shapes the parser produces.
// ------------------------------------------------------------------

/// A literal that renders back into a term the parser accepts unchanged:
/// every quote in it is escaped by the backslash right before it, and it
/// does not end in a backslash that would escape the closing quote.
pub open spec fn valid_token(t: Seq<char>) -> bool {
    (forall|k: int| 0 <= k < t.len() && (#[trigger] t[k]) == '\'' ==> k > 0 && t[k - 1] == '\\')
        && (t.len() > 0 ==> t[t.len() - 1] != '\\')
}

/// A well-formed comparison leaf.
pub open spec fn wf_comp(m: SpecMatcher) -> bool {
    match m {
        SpecMatcher::And(_, _) => false,
        SpecMatcher::Or(_, _) => false,
        SpecMatcher::Eq(_, t) => valid_token(t),
        SpecMatcher::NotEq(_, t) => valid_token(t),
        SpecMatcher::StartsWith(_, t) => valid_token(t),
        SpecMatcher::Contains(_, t) => valid_token(t),
        SpecMatcher::EndsWith(_, t) => valid_token(t),
        SpecMatcher::Matches(_, t) => valid_token(t) && regex_valid(t),
    }
}

/// A well-formed conjunction: a left-associative chain of comparisons.
pub open spec fn wf_conj(m: SpecMatcher) -> bool
    decreases m,
{
    match m {
        SpecMatcher::And(l, r) => wf_conj(*l) && wf_comp(*r),
        SpecMatcher::Or(_, _) => false,
        _ => wf_comp(m),
    }
}

/// A well-formed rule: a left-associative chain of conjunctions. Every
/// tree `parse` returns has this shape.
pub open spec fn wf_disj(m: SpecMatcher) -> bool
    decreases m,
{
    match m {
        SpecMatcher::Or(l, r) => wf_disj(*l) && wf_conj(*r),
        _ => wf_conj(m),
    }
}

pub proof fn lemma_wf_comp_patterns_valid(m: SpecMatcher)
    requires
        wf_comp(m),
    ensures
        crate::matcher::patterns_valid(m),
{
}

pub proof fn lemma_wf_conj_patterns_valid(m: SpecMatcher)
    requires
        wf_conj(m),
    ensures
        crate::matcher::patterns_valid(m),
    decreases m,
{
    match m {
        SpecMatcher::And(l, r) => {
            lemma_wf_conj_patterns_valid(*l);
            lemma_wf_comp_patterns_valid(*r);
        }
        _ => {
            lemma_wf_comp_patterns_valid(m);
        }
    }
}

pub proof fn lemma_wf_disj_patterns_valid(m: SpecMatcher)
    requires
        wf_disj(m),
    ensures
        crate::matcher::patterns_valid(m),
    decreases m,
{
    match m {
        SpecMatcher::Or(l, r) => {
            lemma_wf_disj_patterns_valid(*l);
            lemma_wf_conj_patterns_valid(*r);
        }
        _ => {
            lemma_wf_conj_patterns_valid(m);
        }
    }
}

// ------------------------------------------------------------------
// Soundness: everything the parser returns is well formed.
// ------------------------------------------------------------------

pub proof fn lemma_scan_term_valid(s: Seq<char>, i: int)
    ensures
        scan_term(s, i) matches Some((t, j)) ==> valid_token(t),
    decreases s.len() - i,
{
    if 0 <= i < s.len() {
        if s[i] == '\'' {
        } else if s[i] == '\\' && i + 1 < s.len() && s[i + 1] == '\'' {
            lemma_scan_term_valid(s, i + 2);
            match scan_term(s, i + 2) {
                Some((t2, j)) => {
                    let t = seq!['\\', '\''] + t2;
                    assert(valid_token(t)) by {
                        assert forall|k: int|
                            0 <= k < t.len() && (#[trigger] t[k]) == '\'' implies k > 0 && t[k - 1]
                            == '\\' by {
                            if k >= 2 {
                                assert(t2[k - 2] == '\'');
                            }
                        }
                        if t.len() > 0 {
                            if t2.len() > 0 {
                                assert(t[t.len() - 1] == t2[t2.len() - 1]);
                            }
                        }
                    }
                }
                None => {}
            }
        } else {
            lemma_scan_term_valid(s, i + 1);
            match scan_term(s, i + 1) {
                Some((t2, j)) => {
                    let t = seq![s[i]] + t2;
                    assert(valid_token(t)) by {
                        assert forall|k: int|
                            0 <= k < t.len() && (#[trigger] t[k]) == '\'' implies k > 0 && t[k - 1]
                            == '\\' by {
                            if k >= 1 {
                                assert(t2[k - 1] == '\'');
                            }
                        }
                        if t2.len() == 0 {
                            assert(t[t.len() - 1] == s[i]);
                        } else {
                            assert(t[t.len() - 1] == t2[t2.len() - 1]);
                        }
                    }
                }
                None => {}
            }
        }
    }
}

pub proof fn lemma_parse_term_valid(s: Seq<char>, i: int)
    ensures
        parse_term(s, i) matches Some((t, j)) ==> valid_token(t),
{
    match parse_key(s, i, kw_quote()) {
        Some(j) => lemma_scan_term_valid(s, j),
        None => (),
    }
}

pub proof fn lemma_parse_comp_wf(s: Seq<char>, i: int)
    ensures
        parse_comp(s, i) matches Some((m, j)) ==> wf_comp(m),
{
    match parse_field(s, i) {
        None => (),
        Some((f, j)) => {
            match parse_key(s, j, kw_eq()) {
                Some(k) => lemma_parse_term_valid(s, k),
                None => (),
            }
            match parse_key(s, j, kw_neq()) {
                Some(k) => lemma_parse_term_valid(s, k),
                None => (),
            }
            match parse_key2(s, j, kw_starts(), kw_with()) {
                Some(k) => lemma_parse_term_valid(s, k),
                None => (),
            }
            match parse_key(s, j, kw_contains()) {
                Some(k) => lemma_parse_term_valid(s, k),
                None => (),
            }
            match parse_key2(s, j, kw_ends(), kw_with()) {
                Some(k) => lemma_parse_term_valid(s, k),
                None => (),
            }
            match parse_key(s, j, kw_matches()) {
                Some(k) => lemma_parse_term_valid(s, k),
                None => (),
            }
        }
    }
}

pub proof fn lemma_parse_conj_rest_wf(s: Seq<char>, i: int, acc: SpecMatcher)
    requires
        wf_conj(acc),
    ensures
        wf_conj(parse_conj_rest(s, i, acc).0),
    decreases s.len() - i,
{
    match parse_key(s, i, kw_and()) {
        None => (),
        Some(j) => {
            match parse_comp(s, j) {
                None => (),
                Some((c, k)) => {
                    lemma_parse_key_bounds(s, i, kw_and());
                    lemma_parse_comp_bounds(s, j);
                    lemma_parse_comp_wf(s, j);
                    lemma_parse_conj_rest_wf(s, k, SpecMatcher::And(Box::new(acc), Box::new(c)));
                }
            }
        }
    }
}

pub proof fn lemma_parse_conj_wf(s: Seq<char>, i: int)
    ensures
        parse_conj(s, i) matches Some((m, j)) ==> wf_conj(m),
{
    match parse_comp(s, i) {
        None => (),
        Some((c, j)) => {
            lemma_parse_comp_wf(s, i);
            lemma_parse_conj_rest_wf(s, j, c);
        }
    }
}

pub proof fn lemma_parse_disj_rest_wf(s: Seq<char>, i: int, acc: SpecMatcher)
    requires
        wf_disj(acc),
    ensures
        wf_disj(parse_disj_rest(s, i, acc).0),
    decreases s.len() - i,
{
    match parse_key(s, i, kw_or()) {
        None => (),
        Some(j) => {
            match parse_conj(s, j) {
                None => (),
                Some((c, k)) => {
                    lemma_parse_key_bounds(s, i, kw_or());
                    lemma_parse_conj_bounds(s, j);
                    lemma_parse_conj_wf(s, j);
                    lemma_parse_disj_rest_wf(s, k, SpecMatcher::Or(Box::new(acc), Box::new(c)));
                }
            }
        }
    }
}

/// Everything `parse` returns is a well-formed rule.
pub proof fn lemma_parse_disj_wf(s: Seq<char>, i: int)
    ensures
        parse_disj(s, i) matches Some((m, j)) ==> wf_disj(m),
{
    match parse_conj(s, i) {
        None => (),
        Some((c, j)) => {
            lemma_parse_conj_wf(s, i);
            lemma_parse_disj_rest_wf(s, j, c);
        }
    }
}

// ------------------------------------------------------------------
// The executable parser.
// ------------------------------------------------------------------

fn is_ws_exec(c: char) -> (r: bool)
    ensures
        r == is_ws(c),
{
    c == ' ' || c == '\t' || c == '\n' || c == '\r'
}

fn exec_skip_ws(s: &Vec<char>, i: usize) -> (j: usize)
    requires
        i <= s@.len(),
    ensures
        j as int == skip_ws(s@, i as int),
        i <= j <= s@.len(),
{
    let n = s.len();
    let mut j = i;
    while j < n && is_ws_exec(s[j])
        invariant
            n == s@.len(),
            i <= j <= n,
            skip_ws(s@, i as int) == skip_ws(s@, j as int),
        decreases n - j,
    {
        j = j + 1;
    }
    j
}

fn exec_lit(s: &Vec<char>, i: usize, w: &str) -> (r: Option<usize>)
    requires
        i <= s@.len(),
        w@.len() >= 1,
    ensures
        match r {
            Some(j) => parse_key(s@, i as int, w@) == Some(j as int) && i < j <= s@.len(),
            None => parse_key(s@, i as int, w@) is None,
        },
{
    let n = s.len();
    let j = exec_skip_ws(s, i);
    let wn = w.unicode_len();
    if wn > n - j {
        proof {
            assert(!match_lit(s@, j as int, w@));
        }
        return None;
    }
    let mut k: usize = 0;
    while k < wn
        invariant
            n == s@.len(),
            wn == w@.len(),
            j + wn <= n,
            k <= wn,
            j as int == skip_ws(s@, i as int),
            forall|m: int| 0 <= m < k ==> s@[j + m] == w@[m],
        decreases wn - k,
    {
        if s[j + k] != w.get_char(k) {
            proof {
                assert(s@.subrange(j as int, j as int + w@.len())[k as int] == s@[j + k]);
                assert(!match_lit(s@, j as int, w@));
            }
            return None;
        }
        k = k + 1;
    }
    proof {
        assert(s@.subrange(j as int, j as int + w@.len()) =~= w@);
        assert(match_lit(s@, j as int, w@));
    }
    Some(j + wn)
}

fn exec_scan(s: &Vec<char>, i0: usize) -> (r: Option<(Vec<char>, usize)>)
    requires
        i0 <= s@.len(),
    ensures
        match r {
            Some((t, j)) => scan_term(s@, i0 as int) == Some((t@, j as int)) && i0 < j
                <= s@.len(),
            None => scan_term(s@, i0 as int) is None,
        },
{
    let n = s.len();
    let mut t: Vec<char> = Vec::new();
    let mut i = i0;
    loop
        invariant
            n == s@.len(),
            i0 <= i <= n,
            scan_term(s@, i0 as int) is Some <==> scan_term(s@, i as int) is Some,
            scan_term(s@, i as int) matches Some((t2, j)) ==> scan_term(s@, i0 as int) == Some(
                (t@ + t2, j),
            ),
        decreases n - i,
    {
        if i >= n {
            return None;
        }
        let c = s[i];
        let ghost i_old = i as int;
        let ghost t_old = t@;
        if c == '\'' {
            proof {
                assert(t_old + Seq::<char>::empty() =~= t_old);
            }
            return Some((t, i + 1));
        } else if c == '\\' && i + 1 < n && s[i + 1] == '\'' {
            t.push('\\');
            t.push('\'');
            i = i + 2;
            proof {
                assert(t@ =~= t_old + seq!['\\', '\'']);
                match scan_term(s@, i as int) {
                    Some((t2, j)) => {
                        assert(scan_term(s@, i_old) == Some((seq!['\\', '\''] + t2, j)));
                        assert(t_old + (seq!['\\', '\''] + t2) =~= t@ + t2);
                    }
                    None => {
                        assert(scan_term(s@, i_old) is None);
                    }
                }
            }
        } else {
            t.push(c);
            i = i + 1;
            proof {
                assert(t@ =~= t_old + seq![c]);
                match scan_term(s@, i as int) {
                    Some((t2, j)) => {
                        assert(scan_term(s@, i_old) == Some((seq![c] + t2, j)));
                        assert(t_old + (seq![c] + t2) =~= t@ + t2);
                    }
                    None => {
                        assert(scan_term(s@, i_old) is None);
                    }
                }
            }
        }
    }
}

fn exec_term(s: &Vec<char>, i: usize) -> (r: Option<(Vec<char>, usize)>)
    requires
        i <= s@.len(),
    ensures
        match r {
            Some((t, j)) => parse_term(s@, i as int) == Some((t@, j as int)) && i < j <= s@.len(),
            None => parse_term(s@, i as int) is None,
        },
{
    proof {
        reveal_strlit("'");
        assert("'"@ =~= kw_quote());
    }
    match exec_lit(s, i, "'") {
        None => None,
        Some(j) => exec_scan(s, j),
    }
}

fn exec_field(s: &Vec<char>, i: usize) -> (r: Option<(Field, usize)>)
    requires
        i <= s@.len(),
    ensures
        match r {
            Some((f, j)) => parse_field(s@, i as int) == Some((f, j as int)) && i < j <= s@.len(),
            None => parse_field(s@, i as int) is None,
        },
{
    proof {
        reveal_strlit("exe");
        reveal_strlit("title");
        assert("exe"@ =~= spec_field_name(Field::Exe));
        assert("title"@ =~= spec_field_name(Field::Title));
    }
    match exec_lit(s, i, "exe") {
        Some(j) => Some((Field::Exe, j)),
        None => match exec_lit(s, i, "title") {
            Some(j) => Some((Field::Title, j)),
            None => None,
        },
    }
}

/// A comparison with its term, as an owned syntax-tree leaf.
fn exec_comp(s: &Vec<char>, i: usize) -> (r: Option<(Matcher, usize)>)
    requires
        i <= s@.len(),
    ensures
        match r {
            Some((m, j)) => parse_comp(s@, i as int) == Some((m@, j as int)) && i < j <= s@.len(),
            None => parse_comp(s@, i as int) is None,
        },
{
    proof {
        reveal_strlit("==");
        reveal_strlit("!=");
        reveal_strlit("starts");
        reveal_strlit("with");
        reveal_strlit("contains");
        reveal_strlit("ends");
        reveal_strlit("matches");
        assert("=="@ =~= kw_eq());
        assert("!="@ =~= kw_neq());
        assert("starts"@ =~= kw_starts());
        assert("with"@ =~= kw_with());
        assert("contains"@ =~= kw_contains());
        assert("ends"@ =~= kw_ends());
        assert("matches"@ =~= kw_matches());
    }
    let f = match exec_field(s, i) {
        None => {
            return None;
        }
        Some(fj) => fj,
    };
    let (field, j) = f;
    if let Some(k) = exec_lit(s, j, "==") {
        match exec_term(s, k) {
            Some((tv, m)) => {
                let t = string_from_chars(&tv);
                Some((Matcher::Eq(field, t), m))
            }
            None => None,
        }
    } else if let Some(k) = exec_lit(s, j, "!=") {
        match exec_term(s, k) {
            Some((tv, m)) => {
                let t = string_from_chars(&tv);
                Some((Matcher::NotEq(field, t), m))
            }
            None => None,
        }
    } else if let Some(k1) = exec_lit(s, j, "starts") {
        match exec_lit(s, k1, "with") {
            Some(k) => match exec_term(s, k) {
                Some((tv, m)) => {
                    let t = string_from_chars(&tv);
                    Some((Matcher::StartsWith(field, t), m))
                }
                None => None,
            },
            None => None,
        }
    } else if let Some(k) = exec_lit(s, j, "contains") {
        match exec_term(s, k) {
            Some((tv, m)) => {
                let t = string_from_chars(&tv);
                Some((Matcher::Contains(field, t), m))
            }
            None => None,
        }
    } else if let Some(k1) = exec_lit(s, j, "ends") {
        match exec_lit(s, k1, "with") {
            Some(k) => match exec_term(s, k) {
                Some((tv, m)) => {
                    let t = string_from_chars(&tv);
                    Some((Matcher::EndsWith(field, t), m))
                }
                None => None,
            },
            None => None,
        }
    } else if let Some(k) = exec_lit(s, j, "matches") {
        match exec_term(s, k) {
            Some((tv, m)) => {
                let t = string_from_chars(&tv);
                if regex_compile_ok(t.as_str()) {
                    Some((Matcher::Matches(field, t), m))
                } else {
                    None
                }
            }
            None => None,
        }
    } else {
        None
    }
}

fn exec_conj(s: &Vec<char>, i: usize) -> (r: Option<(Matcher, usize)>)
    requires
        i <= s@.len(),
    ensures
        match r {
            Some((m, j)) => parse_conj(s@, i as int) == Some((m@, j as int)) && i < j <= s@.len(),
            None => parse_conj(s@, i as int) is None,
        },
{
    proof {
        reveal_strlit("and");
        assert("and"@ =~= kw_and());
    }
    let (m0, j0) = match exec_comp(s, i) {
        None => {
            return None;
        }
        Some(x) => x,
    };
    let mut acc = m0;
    let mut j = j0;
    loop
        invariant
            i < j <= s@.len(),
            parse_conj(s@, i as int) == Some(parse_conj_rest(s@, j as int, acc@)),
        decreases s@.len() - j,
    {
        proof {
            reveal_strlit("and");
            assert("and"@ =~= kw_and());
        }
        match exec_lit(s, j, "and") {
            None => {
                return Some((acc, j));
            }
            Some(j1) => {
                match exec_comp(s, j1) {
                    None => {
                        return Some((acc, j));
                    }
                    Some((c, j2)) => {
                        acc = Matcher::And(Box::new(acc), Box::new(c));
                        j = j2;
                    }
                }
            }
        }
    }
}

fn exec_disj(s: &Vec<char>, i: usize) -> (r: Option<(Matcher, usize)>)
    requires
        i <= s@.len(),
    ensures
        match r {
            Some((m, j)) => parse_disj(s@, i as int) == Some((m@, j as int)) && i < j <= s@.len(),
            None => parse_disj(s@, i as int) is None,
        },
{
    proof {
        reveal_strlit("or");
        assert("or"@ =~= kw_or());
    }
    let (m0, j0) = match exec_conj(s, i) {
        None => {
            return None;
        }
        Some(x) => x,
    };
    let mut acc = m0;
    let mut j = j0;
    loop
        invariant
            i < j <= s@.len(),
            parse_disj(s@, i as int) == Some(parse_disj_rest(s@, j as int, acc@)),
        decreases s@.len() - j,
    {
        proof {
            reveal_strlit("or");
            assert("or"@ =~= kw_or());
        }
        match exec_lit(s, j, "or") {
            None => {
                return Some((acc, j));
            }
            Some(j1) => {
                match exec_conj(s, j1) {
                    None => {
                        return Some((acc, j));
                    }
                    Some((c, j2)) => {
                        acc = Matcher::Or(Box::new(acc), Box::new(c));
                        j = j2;
                    }
                }
            }
        }
    }
}

impl Matcher {
    /// Parse a rule. Fails when no production matches at some position,
    /// when a `matches` pattern does not compile, or when input remains
    /// after a full expression.
    pub fn parse(input: &str) -> (r: Result<Matcher, ParseError>)
        ensures
            match r {
                Ok(m) => parse_expr(input@) == Some(m@) && wf_disj(m@)
                    && crate::matcher::patterns_valid(m@),
                Err(ParseError::Syntax) => parse_disj(input@, 0) is None && parse_expr(input@)
                    is None,
                Err(ParseError::TrailingInput) => parse_expr(input@) is None && (parse_disj(
                    input@,
                    0,
                ) matches Some((m0, j)) && j < input@.len()),
            },
    {
        let s = chars_vec(input);
        match exec_disj(&s, 0) {
            None => Err(ParseError::Syntax),
            Some((m, j)) => {
                if j == s.len() {
                    proof {
                        lemma_parse_disj_wf(input@, 0);
                        lemma_wf_disj_patterns_valid(m@);
                    }
                    Ok(m)
                } else {
                    Err(ParseError::TrailingInput)
                }
            }
        }
    }
}

} // verus!
