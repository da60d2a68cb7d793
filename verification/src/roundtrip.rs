//! The round-trip law: parsing the canonical rendering of a well-formed
//! rule gives back the same rule, and the `and`/`or` precedence this
//! implies. The lemmas build up from terms over comparisons to whole
//! expressions.

use vstd::prelude::*;
use vstd::seq_lib::*;

use crate::matcher::{
    quote_close, sep_and, sep_or, spec_field_name, spec_render, Field, SpecMatcher,
};
use crate::parser::{
    is_ws, kw_and, kw_contains, kw_ends, kw_eq, kw_matches, kw_neq, kw_or, kw_quote, kw_starts,
    kw_with, lemma_skip_ws_bounds, match_lit, parse_comp, parse_conj, parse_conj_rest, parse_disj,
    parse_disj_rest, parse_expr, parse_field, parse_key, parse_term, scan_term, skip_ws,
    valid_token, wf_comp, wf_conj, wf_disj,
};

verus! {

/// A one-character sequence holding a space.
pub open spec fn sp() -> Seq<char> {
    seq![' ']
}

// ------------------------------------------------------------------
// Splitting a known stretch of input into its concatenated parts.
// ------------------------------------------------------------------

/// If `a + b` stands at position `p` of `u`, then `a` stands at `p` and
/// `b` right after it.
pub proof fn lemma_split_concat(u: Seq<char>, p: int, a: Seq<char>, b: Seq<char>)
    requires
        0 <= p,
        p + a.len() + b.len() <= u.len(),
        u.subrange(p, p + a.len() + b.len()) == a + b,
    ensures
        u.subrange(p, p + a.len() as int) == a,
        u.subrange(p + a.len() as int, p + a.len() + b.len()) == b,
{
    let ab = a + b;
    assert forall|k: int| 0 <= k < ab.len() implies u[p + k] == ab[k] by {
        assert(u.subrange(p, p + a.len() + b.len())[k] == u[p + k]);
    }
    assert(u.subrange(p, p + a.len() as int) =~= a);
    assert(u.subrange(p + a.len() as int, p + a.len() + b.len()) =~= b) by {
        assert forall|k: int| 0 <= k < b.len() implies u.subrange(
            p + a.len() as int,
            p + a.len() + b.len(),
        )[k] == b[k] by {
            assert(u[p + a.len() + k] == ab[a.len() + k]);
        }
    }
}

// ------------------------------------------------------------------
// Keywords standing in the input.
// ------------------------------------------------------------------

/// A keyword right after a single space parses, consuming both.
pub proof fn lemma_key_one_space(u: Seq<char>, j: int, w: Seq<char>)
    requires
        0 <= j,
        j + 1 + w.len() <= u.len(),
        u[j] == ' ',
        w.len() >= 1,
        !is_ws(w[0]),
        u.subrange(j + 1, j + 1 + w.len()) == w,
    ensures
        parse_key(u, j, w) == Some(j + 1 + w.len()),
{
    assert(u[j + 1] == w[0]) by {
        assert(u.subrange(j + 1, j + 1 + w.len())[0] == u[j + 1]);
    }
    assert(skip_ws(u, j) == skip_ws(u, j + 1));
    assert(skip_ws(u, j + 1) == j + 1);
    assert(match_lit(u, j + 1, w));
}

/// A keyword cannot parse after one space when its first character is not
/// the character that stands there.
pub proof fn lemma_key_one_space_fails(u: Seq<char>, j: int, w: Seq<char>, c: char)
    requires
        0 <= j,
        j + 1 < u.len(),
        u[j] == ' ',
        u[j + 1] == c,
        !is_ws(c),
        w.len() >= 1,
        w[0] != c,
    ensures
        parse_key(u, j, w) is None,
{
    assert(skip_ws(u, j) == skip_ws(u, j + 1));
    assert(skip_ws(u, j + 1) == j + 1);
    if match_lit(u, j + 1, w) {
        assert(u.subrange(j + 1, j + 1 + w.len())[0] == u[j + 1]);
    }
}

/// No keyword parses at the end of the input.
pub proof fn lemma_key_fails_at_end(u: Seq<char>, w: Seq<char>)
    requires
        w.len() >= 1,
    ensures
        parse_key(u, u.len() as int, w) is None,
{
    assert(skip_ws(u, u.len() as int) == u.len());
}

// ------------------------------------------------------------------
// Terms standing in the input.
// ------------------------------------------------------------------

/// Scanning a valid literal followed by a closing quote returns the
/// literal and stops right after that quote, whatever follows.
pub proof fn lemma_scan_of_rendered(u: Seq<char>, i: int, t: Seq<char>)
    requires
        valid_token(t),
        0 <= i,
        i + t.len() + 1 <= u.len(),
        u.subrange(i, i + t.len() as int) == t,
        u[i + t.len()] == '\'',
    ensures
        scan_term(u, i) == Some((t, i + t.len() + 1)),
    decreases t.len(),
{
    assert forall|k: int| 0 <= k < t.len() implies u[i + k] == t[k] by {
        assert(u.subrange(i, i + t.len() as int)[k] == u[i + k]);
    }
    if t.len() == 0 {
        assert(u[i] == '\'');
        assert(t =~= Seq::<char>::empty());
    } else {
        assert(u[i] == t[0]);
        if t[0] == '\'' {
            assert(false);
        } else if t[0] == '\\' {
            if t.len() == 1 {
                assert(t[t.len() - 1] == '\\');
                assert(false);
            } else if t[1] == '\'' {
                let t2 = t.subrange(2, t.len() as int);
                assert(valid_token(t2)) by {
                    assert forall|k: int|
                        0 <= k < t2.len() && (#[trigger] t2[k]) == '\'' implies k > 0 && t2[k - 1]
                        == '\\' by {
                        assert(t[k + 2] == '\'');
                        if k == 0 {
                            assert(t[1] == '\\');
                        }
                    }
                    if t2.len() > 0 {
                        assert(t2[t2.len() - 1] == t[t.len() - 1]);
                    }
                }
                assert(u.subrange(i + 2, i + 2 + t2.len() as int) =~= t2);
                assert(u[i + 2 + t2.len()] == '\'');
                lemma_scan_of_rendered(u, i + 2, t2);
                assert(seq!['\\', '\''] + t2 =~= t);
                assert(u[i] == '\\' && i + 1 < u.len() && u[i + 1] == '\'');
            } else {
                let t2 = t.subrange(1, t.len() as int);
                assert(valid_token(t2)) by {
                    assert forall|k: int|
                        0 <= k < t2.len() && (#[trigger] t2[k]) == '\'' implies k > 0 && t2[k - 1]
                        == '\\' by {
                        assert(t[k + 1] == '\'');
                        if k == 0 {
                            assert(t[0] == '\\');
                        }
                    }
                    if t2.len() > 0 {
                        assert(t2[t2.len() - 1] == t[t.len() - 1]);
                    }
                }
                assert(u.subrange(i + 1, i + 1 + t2.len() as int) =~= t2);
                assert(u[i + 1 + t2.len()] == '\'');
                lemma_scan_of_rendered(u, i + 1, t2);
                assert(seq![u[i]] + t2 =~= t);
                assert(u[i + 1] == t[1]);
                assert(!(u[i] == '\\' && i + 1 < u.len() && u[i + 1] == '\''));
            }
        } else {
            let t2 = t.subrange(1, t.len() as int);
            assert(valid_token(t2)) by {
                assert forall|k: int|
                    0 <= k < t2.len() && (#[trigger] t2[k]) == '\'' implies k > 0 && t2[k - 1]
                    == '\\' by {
                    assert(t[k + 1] == '\'');
                    if k == 0 {
                        assert(t[0] == '\\');
                    }
                }
                if t2.len() > 0 {
                    assert(t2[t2.len() - 1] == t[t.len() - 1]);
                }
            }
            assert(u.subrange(i + 1, i + 1 + t2.len() as int) =~= t2);
            assert(u[i + 1 + t2.len()] == '\'');
            lemma_scan_of_rendered(u, i + 1, t2);
            assert(seq![u[i]] + t2 =~= t);
            assert(!(u[i] == '\\' && i + 1 < u.len() && u[i + 1] == '\''));
        }
    }
}

/// A term of the shape `space quote literal quote` parses, consuming all
/// of it.
pub proof fn lemma_term_at(u: Seq<char>, p: int, t: Seq<char>)
    requires
        valid_token(t),
        0 <= p,
        p + 3 + t.len() <= u.len(),
        u[p] == ' ',
        u[p + 1] == '\'',
        u.subrange(p + 2, p + 2 + t.len() as int) == t,
        u[p + 2 + t.len()] == '\'',
    ensures
        parse_term(u, p) == Some((t, p + 3 + t.len())),
{
    assert(u.subrange(p + 1, p + 2) =~= kw_quote());
    lemma_key_one_space(u, p, kw_quote());
    lemma_scan_of_rendered(u, p + 2, t);
}

// ------------------------------------------------------------------
// One operator with its term.
// ------------------------------------------------------------------

/// `space keyword space quote literal quote` standing at `j`: the keyword
/// parses, and the term after it parses, consuming the whole stretch.
pub proof fn lemma_op1_term(u: Seq<char>, j: int, w: Seq<char>, t: Seq<char>)
    requires
        valid_token(t),
        0 <= j,
        w.len() >= 1,
        !is_ws(w[0]),
        j + 4 + w.len() + t.len() <= u.len(),
        u.subrange(j, j + 4 + w.len() + t.len()) == sp() + w + sp() + kw_quote() + t
            + quote_close(),
    ensures
        u[j] == ' ',
        u[j + 1] == w[0],
        parse_key(u, j, w) == Some(j + 1 + w.len()),
        parse_term(u, j + 1 + w.len()) == Some((t, j + 4 + w.len() + t.len())),
{
    let l1 = w.len() as int;
    let tl = t.len() as int;
    let r1 = w + sp() + kw_quote() + t + quote_close();
    let r2 = sp() + kw_quote() + t + quote_close();
    let r3 = kw_quote() + t + quote_close();
    let r4 = t + quote_close();
    assert(sp() + w + sp() + kw_quote() + t + quote_close() =~= sp() + r1);
    lemma_split_concat(u, j, sp(), r1);
    assert(r1 =~= w + r2);
    lemma_split_concat(u, j + 1, w, r2);
    assert(r2 =~= sp() + r3);
    lemma_split_concat(u, j + 1 + l1, sp(), r3);
    assert(r3 =~= kw_quote() + r4);
    lemma_split_concat(u, j + 2 + l1, kw_quote(), r4);
    lemma_split_concat(u, j + 3 + l1, t, quote_close());
    assert(u[j] == ' ') by {
        assert(u.subrange(j, j + 1)[0] == u[j]);
    }
    assert(u[j + 1] == w[0]) by {
        assert(u.subrange(j + 1, j + 1 + l1)[0] == u[j + 1]);
    }
    assert(u[j + 1 + l1] == ' ') by {
        assert(u.subrange(j + 1 + l1, j + 2 + l1)[0] == u[j + 1 + l1]);
    }
    assert(u[j + 2 + l1] == '\'') by {
        assert(u.subrange(j + 2 + l1, j + 3 + l1)[0] == u[j + 2 + l1]);
    }
    assert(u[j + 3 + l1 + tl] == '\'') by {
        assert(u.subrange(j + 3 + l1 + tl, j + 4 + l1 + tl)[0] == u[j + 3 + l1 + tl]);
    }
    lemma_key_one_space(u, j, w);
    lemma_term_at(u, j + 1 + l1, t);
}

/// `space keyword space keyword space quote literal quote` standing at
/// `j`: both keywords parse, then the term, consuming the whole stretch.
pub proof fn lemma_op2_term(u: Seq<char>, j: int, w1: Seq<char>, w2: Seq<char>, t: Seq<char>)
    requires
        valid_token(t),
        0 <= j,
        w1.len() >= 1,
        w2.len() >= 1,
        !is_ws(w1[0]),
        !is_ws(w2[0]),
        j + 5 + w1.len() + w2.len() + t.len() <= u.len(),
        u.subrange(j, j + 5 + w1.len() + w2.len() + t.len()) == sp() + w1 + sp() + w2 + sp()
            + kw_quote() + t + quote_close(),
    ensures
        u[j] == ' ',
        u[j + 1] == w1[0],
        parse_key(u, j, w1) == Some(j + 1 + w1.len()),
        parse_key(u, j + 1 + w1.len(), w2) == Some(j + 2 + w1.len() + w2.len()),
        parse_term(u, j + 2 + w1.len() + w2.len()) == Some(
            (t, j + 5 + w1.len() + w2.len() + t.len()),
        ),
{
    let l1 = w1.len() as int;
    let l2 = w2.len() as int;
    let tl = t.len() as int;
    let r1 = w1 + sp() + w2 + sp() + kw_quote() + t + quote_close();
    let r2 = sp() + w2 + sp() + kw_quote() + t + quote_close();
    assert(sp() + w1 + sp() + w2 + sp() + kw_quote() + t + quote_close() =~= sp() + r1);
    lemma_split_concat(u, j, sp(), r1);
    assert(r1 =~= w1 + r2);
    lemma_split_concat(u, j + 1, w1, r2);
    assert(u[j] == ' ') by {
        assert(u.subrange(j, j + 1)[0] == u[j]);
    }
    assert(u[j + 1] == w1[0]) by {
        assert(u.subrange(j + 1, j + 1 + l1)[0] == u[j + 1]);
    }
    lemma_key_one_space(u, j, w1);
    lemma_op1_term(u, j + 1 + l1, w2, t);
}

// ------------------------------------------------------------------
// The first character of a rendered rule.
// ------------------------------------------------------------------

#[verifier::rlimit(60)]
#[verifier::spinoff_prover]
pub proof fn lemma_render_comp_first(c: SpecMatcher)
    requires
        wf_comp(c),
    ensures
        spec_render(c).len() >= 1,
        spec_render(c)[0] == 'e' || spec_render(c)[0] == 't',
        !is_ws(spec_render(c)[0]),
{
    match c {
        SpecMatcher::Eq(f, t) => {
            assert(spec_render(c)[0] == spec_field_name(f)[0]);
        }
        SpecMatcher::NotEq(f, t) => {
            assert(spec_render(c)[0] == spec_field_name(f)[0]);
        }
        SpecMatcher::StartsWith(f, t) => {
            assert(spec_render(c)[0] == spec_field_name(f)[0]);
        }
        SpecMatcher::Contains(f, t) => {
            assert(spec_render(c)[0] == spec_field_name(f)[0]);
        }
        SpecMatcher::EndsWith(f, t) => {
            assert(spec_render(c)[0] == spec_field_name(f)[0]);
        }
        SpecMatcher::Matches(f, t) => {
            assert(spec_render(c)[0] == spec_field_name(f)[0]);
        }
        _ => {}
    }
}

pub proof fn lemma_render_conj_first(c: SpecMatcher)
    requires
        wf_conj(c),
    ensures
        spec_render(c).len() >= 1,
        spec_render(c)[0] == 'e' || spec_render(c)[0] == 't',
        !is_ws(spec_render(c)[0]),
    decreases c,
{
    match c {
        SpecMatcher::And(l, r) => {
            lemma_render_conj_first(*l);
            assert(spec_render(c)[0] == spec_render(*l)[0]);
        }
        _ => {
            lemma_render_comp_first(c);
        }
    }
}

pub proof fn lemma_render_disj_first(d: SpecMatcher)
    requires
        wf_disj(d),
    ensures
        spec_render(d).len() >= 1,
        spec_render(d)[0] == 'e' || spec_render(d)[0] == 't',
        !is_ws(spec_render(d)[0]),
    decreases d,
{
    match d {
        SpecMatcher::Or(l, r) => {
            lemma_render_disj_first(*l);
            assert(spec_render(d)[0] == spec_render(*l)[0]);
        }
        _ => {
            lemma_render_conj_first(d);
        }
    }
}

// ------------------------------------------------------------------
// A rendered field name parses.
// ------------------------------------------------------------------

pub proof fn lemma_field_at(u: Seq<char>, i: int, f: Field, tail: Seq<char>)
    requires
        0 <= i <= u.len(),
        skip_ws(u, i) + spec_field_name(f).len() + tail.len() <= u.len(),
        u.subrange(skip_ws(u, i), skip_ws(u, i) + spec_field_name(f).len() + tail.len())
            == spec_field_name(f) + tail,
    ensures
        parse_field(u, i) == Some((f, skip_ws(u, i) + spec_field_name(f).len() as int)),
        u.subrange(
            skip_ws(u, i) + spec_field_name(f).len() as int,
            skip_ws(u, i) + spec_field_name(f).len() + tail.len(),
        ) == tail,
{
    let j0 = skip_ws(u, i);
    let nm = spec_field_name(f);
    let nl = nm.len() as int;
    lemma_skip_ws_bounds(u, i);
    lemma_split_concat(u, j0, nm, tail);
    assert(u[j0] == nm[0]) by {
        assert(u.subrange(j0, j0 + nl)[0] == u[j0]);
    }
    match f {
        Field::Exe => {
            assert(match_lit(u, j0, spec_field_name(Field::Exe)));
        }
        Field::Title => {
            assert(parse_key(u, i, spec_field_name(Field::Exe)) is None) by {
                if match_lit(u, j0, spec_field_name(Field::Exe)) {
                    assert(u.subrange(j0, j0 + 3)[0] == u[j0]);
                }
            }
            assert(match_lit(u, j0, spec_field_name(Field::Title)));
        }
    }
}

// ------------------------------------------------------------------
// A rendered comparison parses.
// ------------------------------------------------------------------

/// The common hypotheses: the rendering of `c` stands at the cursor.
pub open spec fn render_at(u: Seq<char>, i: int, c: SpecMatcher) -> bool {
    &&& 0 <= i <= u.len()
    &&& skip_ws(u, i) + spec_render(c).len() <= u.len()
    &&& u.subrange(skip_ws(u, i), skip_ws(u, i) + spec_render(c).len()) == spec_render(c)
}

#[verifier::spinoff_prover]
proof fn lemma_comp_render_eq(u: Seq<char>, i: int, f: Field, t: Seq<char>)
    requires
        wf_comp(SpecMatcher::Eq(f, t)),
        render_at(u, i, SpecMatcher::Eq(f, t)),
    ensures
        parse_comp(u, i) == Some(
            (SpecMatcher::Eq(f, t), skip_ws(u, i) + spec_render(SpecMatcher::Eq(f, t)).len()),
        ),
{
    let c = SpecMatcher::Eq(f, t);
    let j0 = skip_ws(u, i);
    lemma_skip_ws_bounds(u, i);
    let nm = spec_field_name(f);
    let nl = nm.len() as int;
    let tail = sp() + kw_eq() + sp() + kw_quote() + t + quote_close();
    assert(spec_render(c) =~= nm + tail);
    lemma_field_at(u, i, f, tail);
    lemma_op1_term(u, j0 + nl, kw_eq(), t);
}

#[verifier::spinoff_prover]
proof fn lemma_comp_render_neq(u: Seq<char>, i: int, f: Field, t: Seq<char>)
    requires
        wf_comp(SpecMatcher::NotEq(f, t)),
        render_at(u, i, SpecMatcher::NotEq(f, t)),
    ensures
        parse_comp(u, i) == Some(
            (
                SpecMatcher::NotEq(f, t),
                skip_ws(u, i) + spec_render(SpecMatcher::NotEq(f, t)).len(),
            ),
        ),
{
    let c = SpecMatcher::NotEq(f, t);
    let j0 = skip_ws(u, i);
    lemma_skip_ws_bounds(u, i);
    let nm = spec_field_name(f);
    let nl = nm.len() as int;
    let tail = sp() + kw_neq() + sp() + kw_quote() + t + quote_close();
    assert(spec_render(c) =~= nm + tail);
    lemma_field_at(u, i, f, tail);
    lemma_op1_term(u, j0 + nl, kw_neq(), t);
    lemma_key_one_space_fails(u, j0 + nl, kw_eq(), '!');
}

#[verifier::spinoff_prover]
proof fn lemma_comp_render_starts(u: Seq<char>, i: int, f: Field, t: Seq<char>)
    requires
        wf_comp(SpecMatcher::StartsWith(f, t)),
        render_at(u, i, SpecMatcher::StartsWith(f, t)),
    ensures
        parse_comp(u, i) == Some(
            (
                SpecMatcher::StartsWith(f, t),
                skip_ws(u, i) + spec_render(SpecMatcher::StartsWith(f, t)).len(),
            ),
        ),
{
    let c = SpecMatcher::StartsWith(f, t);
    let j0 = skip_ws(u, i);
    lemma_skip_ws_bounds(u, i);
    let nm = spec_field_name(f);
    let nl = nm.len() as int;
    let tail = sp() + kw_starts() + sp() + kw_with() + sp() + kw_quote() + t + quote_close();
    assert(spec_render(c) =~= nm + tail);
    lemma_field_at(u, i, f, tail);
    lemma_op2_term(u, j0 + nl, kw_starts(), kw_with(), t);
    lemma_key_one_space_fails(u, j0 + nl, kw_eq(), 's');
    lemma_key_one_space_fails(u, j0 + nl, kw_neq(), 's');
}

#[verifier::spinoff_prover]
proof fn lemma_comp_render_contains(u: Seq<char>, i: int, f: Field, t: Seq<char>)
    requires
        wf_comp(SpecMatcher::Contains(f, t)),
        render_at(u, i, SpecMatcher::Contains(f, t)),
    ensures
        parse_comp(u, i) == Some(
            (
                SpecMatcher::Contains(f, t),
                skip_ws(u, i) + spec_render(SpecMatcher::Contains(f, t)).len(),
            ),
        ),
{
    let c = SpecMatcher::Contains(f, t);
    let j0 = skip_ws(u, i);
    lemma_skip_ws_bounds(u, i);
    let nm = spec_field_name(f);
    let nl = nm.len() as int;
    let tail = sp() + kw_contains() + sp() + kw_quote() + t + quote_close();
    assert(spec_render(c) =~= nm + tail);
    lemma_field_at(u, i, f, tail);
    lemma_op1_term(u, j0 + nl, kw_contains(), t);
    lemma_key_one_space_fails(u, j0 + nl, kw_eq(), 'c');
    lemma_key_one_space_fails(u, j0 + nl, kw_neq(), 'c');
    lemma_key_one_space_fails(u, j0 + nl, kw_starts(), 'c');
}

#[verifier::spinoff_prover]
proof fn lemma_comp_render_ends(u: Seq<char>, i: int, f: Field, t: Seq<char>)
    requires
        wf_comp(SpecMatcher::EndsWith(f, t)),
        render_at(u, i, SpecMatcher::EndsWith(f, t)),
    ensures
        parse_comp(u, i) == Some(
            (
                SpecMatcher::EndsWith(f, t),
                skip_ws(u, i) + spec_render(SpecMatcher::EndsWith(f, t)).len(),
            ),
        ),
{
    let c = SpecMatcher::EndsWith(f, t);
    let j0 = skip_ws(u, i);
    lemma_skip_ws_bounds(u, i);
    let nm = spec_field_name(f);
    let nl = nm.len() as int;
    let tail = sp() + kw_ends() + sp() + kw_with() + sp() + kw_quote() + t + quote_close();
    assert(spec_render(c) =~= nm + tail);
    lemma_field_at(u, i, f, tail);
    lemma_op2_term(u, j0 + nl, kw_ends(), kw_with(), t);
    lemma_key_one_space_fails(u, j0 + nl, kw_eq(), 'e');
    lemma_key_one_space_fails(u, j0 + nl, kw_neq(), 'e');
    lemma_key_one_space_fails(u, j0 + nl, kw_starts(), 'e');
    lemma_key_one_space_fails(u, j0 + nl, kw_contains(), 'e');
}

#[verifier::spinoff_prover]
proof fn lemma_comp_render_matches(u: Seq<char>, i: int, f: Field, t: Seq<char>)
    requires
        wf_comp(SpecMatcher::Matches(f, t)),
        render_at(u, i, SpecMatcher::Matches(f, t)),
    ensures
        parse_comp(u, i) == Some(
            (
                SpecMatcher::Matches(f, t),
                skip_ws(u, i) + spec_render(SpecMatcher::Matches(f, t)).len(),
            ),
        ),
{
    let c = SpecMatcher::Matches(f, t);
    let j0 = skip_ws(u, i);
    lemma_skip_ws_bounds(u, i);
    let nm = spec_field_name(f);
    let nl = nm.len() as int;
    let tail = sp() + kw_matches() + sp() + kw_quote() + t + quote_close();
    assert(spec_render(c) =~= nm + tail);
    lemma_field_at(u, i, f, tail);
    lemma_op1_term(u, j0 + nl, kw_matches(), t);
    lemma_key_one_space_fails(u, j0 + nl, kw_eq(), 'm');
    lemma_key_one_space_fails(u, j0 + nl, kw_neq(), 'm');
    lemma_key_one_space_fails(u, j0 + nl, kw_starts(), 'm');
    lemma_key_one_space_fails(u, j0 + nl, kw_contains(), 'm');
    lemma_key_one_space_fails(u, j0 + nl, kw_ends(), 'm');
}

/// A rendered comparison parses, consuming exactly its rendering.
pub proof fn lemma_parse_comp_render(u: Seq<char>, i: int, c: SpecMatcher)
    requires
        wf_comp(c),
        render_at(u, i, c),
    ensures
        parse_comp(u, i) == Some((c, skip_ws(u, i) + spec_render(c).len())),
{
    match c {
        SpecMatcher::Eq(f, t) => lemma_comp_render_eq(u, i, f, t),
        SpecMatcher::NotEq(f, t) => lemma_comp_render_neq(u, i, f, t),
        SpecMatcher::StartsWith(f, t) => lemma_comp_render_starts(u, i, f, t),
        SpecMatcher::Contains(f, t) => lemma_comp_render_contains(u, i, f, t),
        SpecMatcher::EndsWith(f, t) => lemma_comp_render_ends(u, i, f, t),
        SpecMatcher::Matches(f, t) => lemma_comp_render_matches(u, i, f, t),
        _ => {}
    }
}

// ------------------------------------------------------------------
// The folds over rendered input.
// ------------------------------------------------------------------

/// Whether the `and`-fold stops at `p`: no `and` keyword parses there, or
/// no comparison follows it.
pub open spec fn and_step_fails(u: Seq<char>, p: int) -> bool {
    match parse_key(u, p, kw_and()) {
        None => true,
        Some(j) => parse_comp(u, j) is None,
    }
}

proof fn lemma_conj_rest_stops(u: Seq<char>, p: int, acc: SpecMatcher)
    requires
        and_step_fails(u, p),
    ensures
        parse_conj_rest(u, p, acc) == (acc, p),
{
}

/// Consuming one rendered `" and " Comp` group grafts the comparison onto
/// the accumulated conjunction.
proof fn lemma_conj_rest_graft(u: Seq<char>, p: int, r: SpecMatcher, acc: SpecMatcher)
    requires
        wf_comp(r),
        0 <= p,
        p + 5 + spec_render(r).len() <= u.len(),
        u.subrange(p, p + 5 + spec_render(r).len()) == sep_and() + spec_render(r),
    ensures
        parse_conj_rest(u, p, acc) == parse_conj_rest(
            u,
            p + 5 + spec_render(r).len(),
            SpecMatcher::And(Box::new(acc), Box::new(r)),
        ),
{
    let lr = spec_render(r).len() as int;
    assert(sep_and() + spec_render(r) =~= sp() + (kw_and() + (sp() + spec_render(r))));
    lemma_split_concat(u, p, sp(), kw_and() + (sp() + spec_render(r)));
    lemma_split_concat(u, p + 1, kw_and(), sp() + spec_render(r));
    lemma_split_concat(u, p + 4, sp(), spec_render(r));
    assert(u[p] == ' ') by {
        assert(u.subrange(p, p + 1)[0] == u[p]);
    }
    assert(u[p + 4] == ' ') by {
        assert(u.subrange(p + 4, p + 5)[0] == u[p + 4]);
    }
    lemma_render_comp_first(r);
    assert(u[p + 5] == spec_render(r)[0]) by {
        assert(u.subrange(p + 5, p + 5 + lr)[0] == u[p + 5]);
    }
    lemma_key_one_space(u, p, kw_and());
    assert(skip_ws(u, p + 4) == skip_ws(u, p + 5));
    assert(skip_ws(u, p + 5) == p + 5);
    lemma_parse_comp_render(u, p + 4, r);
}

/// A rendered conjunction reduces `parse_conj` to the fold continuing at
/// its end with the whole conjunction accumulated.
pub proof fn lemma_parse_conj_render(u: Seq<char>, i: int, c: SpecMatcher)
    requires
        wf_conj(c),
        render_at(u, i, c),
    ensures
        parse_conj(u, i) == Some(
            parse_conj_rest(u, skip_ws(u, i) + spec_render(c).len(), c),
        ),
    decreases c,
{
    let j0 = skip_ws(u, i);
    lemma_skip_ws_bounds(u, i);
    match c {
        SpecMatcher::And(l, r) => {
            let ll = spec_render(*l).len() as int;
            let lr = spec_render(*r).len() as int;
            assert(spec_render(c) =~= spec_render(*l) + (sep_and() + spec_render(*r)));
            lemma_split_concat(u, j0, spec_render(*l), sep_and() + spec_render(*r));
            lemma_parse_conj_render(u, i, *l);
            lemma_conj_rest_graft(u, j0 + ll, *r, *l);
            assert(spec_render(c).len() == ll + 5 + lr);
            assert(SpecMatcher::And(Box::new(*l), Box::new(*r)) == c);
        }
        _ => {
            lemma_parse_comp_render(u, i, c);
        }
    }
}

/// Consuming one rendered `" or " Conj` group grafts the conjunction onto
/// the accumulated disjunction, provided the `and`-fold stops at its end.
proof fn lemma_disj_rest_graft(u: Seq<char>, p: int, r: SpecMatcher, acc: SpecMatcher)
    requires
        wf_conj(r),
        0 <= p,
        p + 4 + spec_render(r).len() <= u.len(),
        u.subrange(p, p + 4 + spec_render(r).len()) == sep_or() + spec_render(r),
        and_step_fails(u, p + 4 + spec_render(r).len()),
    ensures
        parse_disj_rest(u, p, acc) == parse_disj_rest(
            u,
            p + 4 + spec_render(r).len(),
            SpecMatcher::Or(Box::new(acc), Box::new(r)),
        ),
{
    let lr = spec_render(r).len() as int;
    assert(sep_or() + spec_render(r) =~= sp() + (kw_or() + (sp() + spec_render(r))));
    lemma_split_concat(u, p, sp(), kw_or() + (sp() + spec_render(r)));
    lemma_split_concat(u, p + 1, kw_or(), sp() + spec_render(r));
    lemma_split_concat(u, p + 3, sp(), spec_render(r));
    assert(u[p] == ' ') by {
        assert(u.subrange(p, p + 1)[0] == u[p]);
    }
    assert(u[p + 3] == ' ') by {
        assert(u.subrange(p + 3, p + 4)[0] == u[p + 3]);
    }
    lemma_render_conj_first(r);
    assert(u[p + 4] == spec_render(r)[0]) by {
        assert(u.subrange(p + 4, p + 4 + lr)[0] == u[p + 4]);
    }
    lemma_key_one_space(u, p, kw_or());
    assert(skip_ws(u, p + 3) == skip_ws(u, p + 4));
    assert(skip_ws(u, p + 4) == p + 4);
    lemma_parse_conj_render(u, p + 3, r);
    lemma_conj_rest_stops(u, p + 4 + lr, r);
}

/// A rendered disjunction reduces `parse_disj` to the fold continuing at
/// its end with the whole disjunction accumulated.
pub proof fn lemma_parse_disj_render(u: Seq<char>, i: int, d: SpecMatcher)
    requires
        wf_disj(d),
        render_at(u, i, d),
        and_step_fails(u, skip_ws(u, i) + spec_render(d).len()),
    ensures
        parse_disj(u, i) == Some(
            parse_disj_rest(u, skip_ws(u, i) + spec_render(d).len(), d),
        ),
    decreases d,
{
    let j0 = skip_ws(u, i);
    lemma_skip_ws_bounds(u, i);
    match d {
        SpecMatcher::Or(l, r) => {
            let ll = spec_render(*l).len() as int;
            let lr = spec_render(*r).len() as int;
            assert(spec_render(d) =~= spec_render(*l) + (sep_or() + spec_render(*r)));
            lemma_split_concat(u, j0, spec_render(*l), sep_or() + spec_render(*r));
            assert(sep_or() + spec_render(*r) =~= sp() + (kw_or() + (sp() + spec_render(*r))));
            lemma_split_concat(u, j0 + ll, sp(), kw_or() + (sp() + spec_render(*r)));
            lemma_split_concat(u, j0 + ll + 1, kw_or(), sp() + spec_render(*r));
            assert(u[j0 + ll] == ' ') by {
                assert(u.subrange(j0 + ll, j0 + ll + 1)[0] == u[j0 + ll]);
            }
            assert(u[j0 + ll + 1] == 'o') by {
                assert(u.subrange(j0 + ll + 1, j0 + ll + 3)[0] == u[j0 + ll + 1]);
            }
            lemma_key_one_space_fails(u, j0 + ll, kw_and(), 'o');
            lemma_parse_disj_render(u, i, *l);
            lemma_disj_rest_graft(u, j0 + ll, *r, *l);
            assert(spec_render(d).len() == ll + 4 + lr);
            assert(SpecMatcher::Or(Box::new(*l), Box::new(*r)) == d);
        }
        _ => {
            lemma_parse_conj_render(u, i, d);
            lemma_conj_rest_stops(u, j0 + spec_render(d).len(), d);
        }
    }
}

// ------------------------------------------------------------------
// The laws.
// ------------------------------------------------------------------

/// A comparison is also a one-element conjunction.
pub proof fn lemma_comp_is_conj(a: SpecMatcher)
    requires
        wf_comp(a),
    ensures
        wf_conj(a),
{
    match a {
        SpecMatcher::And(_, _) => {}
        SpecMatcher::Or(_, _) => {}
        _ => {}
    }
}

/// A conjunction is also a one-element disjunction.
pub proof fn lemma_conj_is_disj(a: SpecMatcher)
    requires
        wf_conj(a),
    ensures
        wf_disj(a),
{
    match a {
        SpecMatcher::Or(_, _) => {}
        _ => {}
    }
}

/// The round-trip statement at the fold level: the rendering of `m`
/// parses back to `m`, consuming everything.
pub open spec fn round_trip_disj_holds(m: SpecMatcher) -> bool {
    parse_disj(spec_render(m), 0) == Some((m, spec_render(m).len() as int))
}

#[verifier::rlimit(100)]
#[verifier::spinoff_prover]
proof fn lemma_round_trip_reduce(m: SpecMatcher)
    requires
        wf_disj(m),
    ensures
        parse_disj(spec_render(m), 0) == Some(
            parse_disj_rest(spec_render(m), spec_render(m).len() as int, m),
        ),
{
    let u = spec_render(m);
    lemma_render_disj_first(m);
    assert(skip_ws(u, 0) == 0);
    assert(u.subrange(0, u.len() as int) =~= u);
    lemma_key_fails_at_end(u, kw_and());
    assert(render_at(u, 0, m));
    assert(and_step_fails(u, skip_ws(u, 0) + spec_render(m).len()));
    lemma_parse_disj_render(u, 0, m);
}

#[verifier::rlimit(100)]
#[verifier::spinoff_prover]
proof fn lemma_round_trip_core(m: SpecMatcher)
    requires
        wf_disj(m),
    ensures
        round_trip_disj_holds(m),
{
    let u = spec_render(m);
    lemma_round_trip_reduce(m);
    lemma_key_fails_at_end(u, kw_or());
    assert(parse_disj_rest(u, u.len() as int, m) == (m, u.len() as int));
}

/// Round trip: parsing the canonical rendering of any well-formed rule
/// gives back exactly that rule. Together with the contracts of
/// `Matcher::parse` and `Matcher::render` this covers every rule that
/// `parse` returns: rendering it and parsing again yields an equal
/// matcher, which therefore matches the same activities.
#[verifier::spinoff_prover]
pub proof fn lemma_parse_render_round_trip(m: SpecMatcher)
    requires
        wf_disj(m),
    ensures
        parse_expr(spec_render(m)) == Some(m),
{
    lemma_round_trip_core(m);
}

/// Precedence: `and` binds tighter than `or`. A rendered `a and b or c`
/// parses as `(a and b) or c`, and a rendered `a or b and c` parses as
/// `a or (b and c)`, for any comparisons `a`, `b`, `c`.
#[verifier::rlimit(60)]
#[verifier::spinoff_prover]
pub proof fn lemma_precedence(a: SpecMatcher, b: SpecMatcher, c: SpecMatcher)
    requires
        wf_comp(a),
        wf_comp(b),
        wf_comp(c),
    ensures
        parse_expr(spec_render(a) + sep_and() + spec_render(b) + sep_or() + spec_render(c))
            == Some(
            SpecMatcher::Or(
                Box::new(SpecMatcher::And(Box::new(a), Box::new(b))),
                Box::new(c),
            ),
        ),
        parse_expr(spec_render(a) + sep_or() + spec_render(b) + sep_and() + spec_render(c))
            == Some(
            SpecMatcher::Or(
                Box::new(a),
                Box::new(SpecMatcher::And(Box::new(b), Box::new(c))),
            ),
        ),
{
    let m1a = SpecMatcher::And(Box::new(a), Box::new(b));
    let m1 = SpecMatcher::Or(Box::new(m1a), Box::new(c));
    assert(spec_render(m1a) == spec_render(a) + sep_and() + spec_render(b));
    assert(spec_render(m1) == spec_render(m1a) + sep_or() + spec_render(c));
    lemma_comp_is_conj(a);
    assert(wf_conj(m1a));
    lemma_comp_is_conj(c);
    lemma_conj_is_disj(m1a);
    assert(wf_disj(m1));
    lemma_parse_render_round_trip(m1);
    let m2a = SpecMatcher::And(Box::new(b), Box::new(c));
    let m2 = SpecMatcher::Or(Box::new(a), Box::new(m2a));
    assert(spec_render(m2a) == spec_render(b) + sep_and() + spec_render(c));
    assert(spec_render(m2) == spec_render(a) + sep_or() + spec_render(m2a));
    assert(spec_render(m2) == spec_render(a) + sep_or() + (spec_render(b) + sep_and()
        + spec_render(c)));
    assert(spec_render(a) + sep_or() + (spec_render(b) + sep_and() + spec_render(c))
        =~= spec_render(a) + sep_or() + spec_render(b) + sep_and() + spec_render(c));
    lemma_comp_is_conj(b);
    assert(wf_conj(m2a));
    lemma_comp_is_conj(a);
    lemma_conj_is_disj(a);
    assert(wf_disj(m2));
    lemma_parse_render_round_trip(m2);
}

} // verus!
