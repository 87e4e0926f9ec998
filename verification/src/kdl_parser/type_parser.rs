//! The grammar of datatypes written in `type="..."` properties.
//!
//! ```text
//! datatype  := space* ( map | array | intlike | bool | f64 | str
//!                      | datetime-unix | datetime | custom )
//! map       := "%{" space* datatype space+ "=>" space+ datatype space* "}" modifiers?
//! array     := "[" datatype "]" modifiers?
//! intlike   := ("i32" | "i64" | "u32" | "u64" | "f32") modifiers
//! modifiers := "::" ( "{" modifier ("," space+ modifier)* "}" | modifier )
//! modifier  := alnum+ ( "(" alnum+ ("," space+ alnum+)* ")" )?
//! ```
//!
//! The parser backtracks between alternatives; some failures are final
//! ("cut") and stop the search, exactly like a committed choice.

use std::sync::Arc;
use vstd::prelude::*;
use super::schema::{ArraySeparator, ArraySize, BoolEncoding, DataType, IntLikeEncoding, JsonEncoding, TypeModel};
use crate::text::{chars_of, string_of_chars};
use super::errors::{share_source, Diagnostic, ParsingError, Severity, SourceInfo, Span};

verus! {

// ---------------------------------------------------------------------
// Character classes and scanning
// ---------------------------------------------------------------------

pub open spec fn is_alpha(c: char) -> bool {
    ('a' <= c && c <= 'z') || ('A' <= c && c <= 'Z')
}

pub open spec fn is_digit(c: char) -> bool {
    '0' <= c && c <= '9'
}

pub open spec fn is_alnum(c: char) -> bool {
    is_alpha(c) || is_digit(c)
}

pub open spec fn is_space(c: char) -> bool {
    c == ' ' || c == '\t'
}

/// End of the longest run of ASCII alphanumeric characters starting at `i`.
pub open spec fn alnum_end(s: Seq<char>, i: int) -> int
    decreases s.len() - i,
{
    if 0 <= i < s.len() && is_alnum(s[i]) {
        alnum_end(s, i + 1)
    } else {
        i
    }
}

/// End of the longest run of spaces and tabs starting at `i`.
pub open spec fn space_end(s: Seq<char>, i: int) -> int
    decreases s.len() - i,
{
    if 0 <= i < s.len() && is_space(s[i]) {
        space_end(s, i + 1)
    } else {
        i
    }
}

pub proof fn lemma_alnum_end(s: Seq<char>, i: int)
    requires
        0 <= i <= s.len(),
    ensures
        i <= alnum_end(s, i) <= s.len(),
        forall|t: int| i <= t < alnum_end(s, i) ==> is_alnum(#[trigger] s[t]),
        alnum_end(s, i) < s.len() ==> !is_alnum(s[alnum_end(s, i)]),
    decreases s.len() - i,
{
    if i < s.len() && is_alnum(s[i]) {
        lemma_alnum_end(s, i + 1);
    }
}

pub proof fn lemma_space_end(s: Seq<char>, i: int)
    requires
        0 <= i <= s.len(),
    ensures
        i <= space_end(s, i) <= s.len(),
        space_end(s, i) < s.len() ==> !is_space(s[space_end(s, i)]),
    decreases s.len() - i,
{
    if i < s.len() && is_space(s[i]) {
        lemma_space_end(s, i + 1);
    }
}

fn is_alnum_char(c: char) -> (r: bool)
    ensures
        r == is_alnum(c),
{
    ('a' <= c && c <= 'z') || ('A' <= c && c <= 'Z') || ('0' <= c && c <= '9')
}

fn is_alpha_char(c: char) -> (r: bool)
    ensures
        r == is_alpha(c),
{
    ('a' <= c && c <= 'z') || ('A' <= c && c <= 'Z')
}

fn scan_alnum(s: &[char], i: usize) -> (j: usize)
    requires
        i <= s@.len(),
    ensures
        j as int == alnum_end(s@, i as int),
        i <= j <= s@.len(),
{
    let mut j = i;
    while j < s.len() && is_alnum_char(s[j])
        invariant
            i <= j <= s@.len(),
            alnum_end(s@, i as int) == alnum_end(s@, j as int),
        decreases s@.len() - j,
    {
        j = j + 1;
    }
    j
}

fn scan_space(s: &[char], i: usize) -> (j: usize)
    requires
        i <= s@.len(),
    ensures
        j as int == space_end(s@, i as int),
        i <= j <= s@.len(),
{
    let mut j = i;
    while j < s.len() && (s[j] == ' ' || s[j] == '\t')
        invariant
            i <= j <= s@.len(),
            space_end(s@, i as int) == space_end(s@, j as int),
        decreases s@.len() - j,
    {
        j = j + 1;
    }
    j
}

/// The characters `s[a..b]` spell `w`.
pub open spec fn spells(s: Seq<char>, a: int, b: int, w: Seq<char>) -> bool {
    0 <= a <= b <= s.len() && s.subrange(a, b) == w
}

/// `w` occurs in `s` at position `i`.
pub open spec fn has_lit(s: Seq<char>, i: int, w: Seq<char>) -> bool {
    spells(s, i, i + w.len(), w)
}

fn range_is(s: &[char], a: usize, b: usize, w: &str) -> (r: bool)
    ensures
        r == spells(s@, a as int, b as int, w@),
{
    if !(a <= b && b <= s.len()) {
        return false;
    }
    let wc = chars_of(w);
    if b - a != wc.len() {
        assert(s@.subrange(a as int, b as int).len() != w@.len());
        return false;
    }
    let mut k: usize = 0;
    while k < wc.len()
        invariant
            k <= wc@.len(),
            wc@ == w@,
            b - a == wc@.len(),
            a <= b <= s@.len(),
            forall|t: int| 0 <= t < k ==> s@[a + t] == wc@[t],
        decreases wc@.len() - k,
    {
        if s[a + k] != wc[k] {
            assert(s@.subrange(a as int, b as int)[k as int] != w@[k as int]);
            return false;
        }
        k = k + 1;
    }
    assert(s@.subrange(a as int, b as int) =~= w@);
    true
}

fn lit_at(s: &[char], i: usize, w: &str) -> (r: bool)
    requires
        i <= s@.len(),
    ensures
        r == has_lit(s@, i as int, w@),
{
    let n = w.unicode_len();
    if n > s.len() - i {
        return false;
    }
    range_is(s, i, i + n, w)
}

// ---------------------------------------------------------------------
// Results and errors
// ---------------------------------------------------------------------

/// The integer-like primitive types.
#[derive(Debug, Clone, Copy, PartialEq, Eq, Structural)]
pub enum PrimKind {
    I32,
    U32,
    I64,
    U64,
    F32,
}

/// What went wrong while parsing a datatype; ranges point into the input.
#[derive(Debug, Clone, Copy, PartialEq, Eq, Structural)]
pub enum TypeErrorKind {
    IntLikeNeedsEncoding(PrimKind),
    NoEncodingInModifiers(PrimKind),
    /// A datatype name of the former Python tool; the index is into
    /// [`legacy_name`]'s table.
    LegacyDatatype(usize),
    MapSeparator,
    SizeNeedsCount,
    BadSizeValue { start: usize, end: usize },
    NonPositiveSize { start: usize, end: usize },
    MultipleSizes,
    SeparatorNeedsValue,
    UnknownSeparator { start: usize, end: usize },
    MultipleSeparators,
    ModifierSpacing,
    ModifierExpected,
}

/// A parse error: its main cause and the cause it replaced, if any.
#[derive(Debug, Clone, Copy, PartialEq, Eq, Structural)]
pub struct TypeError {
    pub cause: Option<TypeErrorKind>,
    pub context: Option<TypeErrorKind>,
}

/// A failed parse: `cut` failures are final, others let an alternative be
/// tried; `pos` is where the input stood when the failure happened.
#[derive(Debug, Clone, Copy, PartialEq, Eq, Structural)]
pub struct Failure {
    pub cut: bool,
    pub error: TypeError,
    pub pos: usize,
}

pub open spec fn back(pos: int) -> Failure {
    Failure { cut: false, error: TypeError { cause: None, context: None }, pos: pos as usize }
}

pub open spec fn cut_with(k: TypeErrorKind, pos: int) -> Failure {
    Failure { cut: true, error: TypeError { cause: Some(k), context: None }, pos: pos as usize }
}

fn mk_back(pos: usize) -> (f: Failure)
    ensures
        f == back(pos as int),
{
    Failure { cut: false, error: TypeError { cause: None, context: None }, pos }
}

fn mk_cut(k: TypeErrorKind, pos: usize) -> (f: Failure)
    ensures
        f == cut_with(k, pos as int),
{
    Failure { cut: true, error: TypeError { cause: Some(k), context: None }, pos }
}

pub open spec fn is_back<T>(r: Result<T, Failure>) -> bool {
    match r {
        Ok(_) => false,
        Err(f) => !f.cut,
    }
}

// ---------------------------------------------------------------------
// Modifiers
// ---------------------------------------------------------------------

/// A modifier `name` or `name(p1, p2, ...)`; only the first parameter is
/// kept, as the ranges `s[name_start..name_end]` and `s[p.0..p.1]`.
#[derive(Debug, Clone, Copy)]
pub struct Modifier {
    pub name_start: usize,
    pub name_end: usize,
    pub param: Option<(usize, usize)>,
}

/// After a parameter ending at `p`, the end of the remaining
/// `, param` repetitions.
pub open spec fn param_list_end(s: Seq<char>, p: int) -> int
    decreases s.len() - p,
{
    if 0 <= p < s.len() && s[p] == ',' {
        let q = space_end(s, p + 1);
        let r = alnum_end(s, q);
        if q > p + 1 && r > q && r <= s.len() {
            param_list_end(s, r)
        } else {
            p
        }
    } else {
        p
    }
}

pub proof fn lemma_param_list_end(s: Seq<char>, p: int)
    requires
        0 <= p <= s.len(),
    ensures
        p <= param_list_end(s, p) <= s.len(),
    decreases s.len() - p,
{
    if 0 <= p < s.len() && s[p] == ',' {
        lemma_space_end(s, p + 1);
        let q = space_end(s, p + 1);
        lemma_alnum_end(s, q);
        let r = alnum_end(s, q);
        if q > p + 1 && r > q && r <= s.len() {
            lemma_param_list_end(s, r);
        }
    }
}

/// One modifier at `i`.
pub open spec fn spec_modifier(s: Seq<char>, i: int) -> Option<(Modifier, usize)> {
    let j = alnum_end(s, i);
    if !(0 <= i <= s.len()) || j == i {
        None
    } else {
        let plain = Modifier { name_start: i as usize, name_end: j as usize, param: None };
        if j < s.len() && s[j] == '(' {
            let k = j + 1;
            let k1 = alnum_end(s, k);
            if k1 > k {
                let p = param_list_end(s, k1);
                if p < s.len() && s[p] == ')' {
                    Some(
                        (
                            Modifier {
                                name_start: i as usize,
                                name_end: j as usize,
                                param: Some((k as usize, k1 as usize)),
                            },
                            (p + 1) as usize,
                        ),
                    )
                } else {
                    Some((plain, j as usize))
                }
            } else {
                Some((plain, j as usize))
            }
        } else {
            Some((plain, j as usize))
        }
    }
}

fn parse_one_modifier(s: &[char], i: usize) -> (r: Option<(Modifier, usize)>)
    requires
        i <= s@.len(),
    ensures
        r == spec_modifier(s@, i as int),
        r matches Some((m, e)) ==> i < e <= s@.len() && m.name_start == i && i < m.name_end
            <= e,
{
    proof {
        lemma_alnum_end(s@, i as int);
    }
    let j = scan_alnum(s, i);
    if j == i {
        return None;
    }
    let plain = Modifier { name_start: i, name_end: j, param: None };
    if j < s.len() && s[j] == '(' {
        let k = j + 1;
        proof {
            lemma_alnum_end(s@, k as int);
        }
        let k1 = scan_alnum(s, k);
        if k1 > k {
            let mut p = k1;
            loop
                invariant
                    k1 <= p <= s@.len(),
                    param_list_end(s@, k1 as int) == param_list_end(s@, p as int),
                ensures
                    k1 <= p <= s@.len(),
                    param_list_end(s@, k1 as int) == p,
                decreases s@.len() - p,
            {
                if p < s.len() && s[p] == ',' {
                    proof {
                        lemma_space_end(s@, p + 1);
                    }
                    let q = scan_space(s, p + 1);
                    proof {
                        lemma_alnum_end(s@, q as int);
                    }
                    let r = scan_alnum(s, q);
                    if q > p + 1 && r > q {
                        p = r;
                    } else {
                        break;
                    }
                } else {
                    break;
                }
            }
            if p < s.len() && s[p] == ')' {
                Some((Modifier { name_start: i, name_end: j, param: Some((k, k1)) }, p + 1))
            } else {
                Some((plain, j))
            }
        } else {
            Some((plain, j))
        }
    } else {
        Some((plain, j))
    }
}


pub proof fn lemma_spec_modifier(s: Seq<char>, i: int)
    requires
        0 <= i <= s.len(),
        s.len() <= usize::MAX,
    ensures
        spec_modifier(s, i) matches Some((m, e)) ==> i < e <= s.len() && m.name_start == i
            && i < m.name_end <= e,
{
    lemma_alnum_end(s, i);
    let j = alnum_end(s, i);
    if j > i && j < s.len() && s[j] == '(' {
        lemma_alnum_end(s, j + 1);
        let k1 = alnum_end(s, j + 1);
        if k1 > j + 1 {
            lemma_param_list_end(s, k1);
        }
    }
}

/// A cut failure.
pub open spec fn cut_of(f: Failure) -> Failure {
    Failure { cut: true, error: f.error, pos: f.pos }
}

/// Adds a context to a failure: the new cause replaces the old one, which
/// is kept as context.
pub open spec fn with_context(f: Failure, k: TypeErrorKind) -> Failure {
    match f.error.cause {
        None => Failure {
            cut: f.cut,
            error: TypeError { cause: Some(k), context: f.error.context },
            pos: f.pos,
        },
        Some(old) => Failure {
            cut: f.cut,
            error: TypeError { cause: Some(k), context: Some(old) },
            pos: f.pos,
        },
    }
}

fn add_context(f: Failure, k: TypeErrorKind) -> (r: Failure)
    ensures
        r == with_context(f, k),
{
    match f.error.cause {
        None => Failure {
            cut: f.cut,
            error: TypeError { cause: Some(k), context: f.error.context },
            pos: f.pos,
        },
        Some(old) => Failure {
            cut: f.cut,
            error: TypeError { cause: Some(k), context: Some(old) },
            pos: f.pos,
        },
    }
}

/// After a modifier ending at `p` inside a `{...}` list: the remaining
/// `, modifier` repetitions.
pub open spec fn spec_list_rest(s: Seq<char>, p: int, acc: Seq<Modifier>) -> Result<
    (Seq<Modifier>, usize),
    Failure,
>
    decreases s.len() - p,
{
    if 0 <= p < s.len() && s[p] == ',' {
        let q = space_end(s, p + 1);
        if q <= p + 1 {
            Err(cut_with(TypeErrorKind::ModifierSpacing, p + 1))
        } else {
            match spec_modifier(s, q) {
                // positions only move forward
                Some((m, r)) => if p < r <= s.len() {
                    spec_list_rest(s, r as int, acc.push(m))
                } else {
                    Ok((acc, p as usize))
                },
                None => Ok((acc, p as usize)),
            }
        }
    } else {
        Ok((acc, p as usize))
    }
}

/// The modifiers after a type name: `::modifier` or `::{m1, m2, ...}`.
pub open spec fn spec_modifiers(s: Seq<char>, i: int) -> Result<(Seq<Modifier>, usize), Failure> {
    if !(0 <= i && i + 2 <= s.len() && s[i] == ':' && s[i + 1] == ':') {
        Err(back(i))
    } else {
        let m = i + 2;
        let list: Result<(Seq<Modifier>, usize), Failure> = if m < s.len() && s[m] == '{' {
            match spec_modifier(s, m + 1) {
                None => Err(back(m + 1)),
                Some((x, r)) => match spec_list_rest(s, r as int, seq![x]) {
                    Err(f) => Err(f),
                    Ok((l, p)) => if p < s.len() && s[p as int] == '}' {
                        Ok((l, (p + 1) as usize))
                    } else {
                        Err(back(p as int))
                    },
                },
            }
        } else {
            Err(back(m))
        };
        match list {
            Ok(v) => Ok(v),
            Err(f) => if f.cut {
                Err(with_context(f, TypeErrorKind::ModifierExpected))
            } else {
                match spec_modifier(s, m) {
                    Some((x, r)) => Ok((seq![x], r)),
                    None => Err(with_context(cut_of(back(m)), TypeErrorKind::ModifierExpected)),
                }
            },
        }
    }
}

/// Executable results agree with the specification's.
pub open spec fn mods_agree(
    e: Result<(Vec<Modifier>, usize), Failure>,
    sp: Result<(Seq<Modifier>, usize), Failure>,
) -> bool {
    match (e, sp) {
        (Ok((v, p)), Ok((w, q))) => v@ == w && p == q,
        (Err(f), Err(g)) => f == g,
        _ => false,
    }
}

fn parse_list_rest(s: &[char], r0: usize, x: Modifier) -> (res: Result<(Vec<Modifier>, usize), Failure>)
    requires
        r0 <= s@.len(),
    ensures
        mods_agree(res, spec_list_rest(s@, r0 as int, seq![x])),
        res matches Ok((_, p)) ==> r0 <= p <= s@.len(),
        res matches Err(f) ==> f.pos <= s@.len(),
{
    let mut acc: Vec<Modifier> = Vec::new();
    acc.push(x);
    assert(acc@ =~= seq![x]);
    let mut p = r0;
    loop
        invariant
            r0 <= p <= s@.len(),
            spec_list_rest(s@, r0 as int, seq![x]) == spec_list_rest(s@, p as int, acc@),
        decreases s@.len() - p,
    {
        if p < s.len() && s[p] == ',' {
            proof {
                lemma_space_end(s@, p + 1);
            }
            let q = scan_space(s, p + 1);
            if q <= p + 1 {
                return Err(mk_cut(TypeErrorKind::ModifierSpacing, p + 1));
            }
            proof {
                lemma_spec_modifier(s@, q as int);
            }
            match parse_one_modifier(s, q) {
                Some((m, r)) => {
                    acc.push(m);
                    p = r;
                },
                None => {
                    return Ok((acc, p));
                },
            }
        } else {
            return Ok((acc, p));
        }
    }
}

fn parse_modifiers(s: &[char], i: usize) -> (res: Result<(Vec<Modifier>, usize), Failure>)
    requires
        i <= s@.len(),
    ensures
        mods_agree(res, spec_modifiers(s@, i as int)),
        res matches Ok((_, p)) ==> i < p <= s@.len(),
        res matches Err(f) ==> f.pos <= s@.len(),
{
    if !(s.len() - i >= 2 && s[i] == ':' && s[i + 1] == ':') {
        return Err(mk_back(i));
    }
    let m = i + 2;
    let list: Result<(Vec<Modifier>, usize), Failure> = if m < s.len() && s[m] == '{' {
        proof {
            lemma_spec_modifier(s@, m + 1);
        }
        match parse_one_modifier(s, m + 1) {
            None => Err(mk_back(m + 1)),
            Some((x, r)) => match parse_list_rest(s, r, x) {
                Err(f) => Err(f),
                Ok((l, p)) => if p < s.len() && s[p] == '}' {
                    Ok((l, p + 1))
                } else {
                    Err(mk_back(p))
                },
            },
        }
    } else {
        Err(mk_back(m))
    };
    assert(mods_agree(list, {
        let m = i + 2;
        if m < s@.len() && s@[m as int] == '{' {
            match spec_modifier(s@, m + 1) {
                None => Err(back(m + 1)),
                Some((x, r)) => match spec_list_rest(s@, r as int, seq![x]) {
                    Err(f) => Err(f),
                    Ok((l, p)) => if p < s@.len() && s@[p as int] == '}' {
                        Ok((l, (p + 1) as usize))
                    } else {
                        Err(back(p as int))
                    },
                },
            }
        } else {
            Err(back(m as int))
        }
    }));
    match list {
        Ok(v) => Ok(v),
        Err(f) => if f.cut {
            Err(add_context(f, TypeErrorKind::ModifierExpected))
        } else {
            proof {
                lemma_spec_modifier(s@, m as int);
            }
            match parse_one_modifier(s, m) {
                Some((x, r)) => {
                    let mut v: Vec<Modifier> = Vec::new();
                    v.push(x);
                    assert(v@ =~= seq![x]);
                    Ok((v, r))
                },
                None => {
                    let b = mk_back(m);
                    Err(add_context(Failure { cut: true, error: b.error, pos: b.pos }, TypeErrorKind::ModifierExpected))
                },
            }
        },
    }
}


// ---------------------------------------------------------------------
// Reading modifiers
// ---------------------------------------------------------------------

/// The modifiers after a type name, if any: a missing `::` is no error,
/// a broken modifier list is.
pub open spec fn spec_opt_modifiers(s: Seq<char>, i: int) -> Result<
    Option<(Seq<Modifier>, usize)>,
    Failure,
> {
    match spec_modifiers(s, i) {
        Ok(v) => Ok(Some(v)),
        Err(f) => if f.cut {
            Err(f)
        } else {
            Ok(None)
        },
    }
}

pub open spec fn opt_mods_agree(
    e: Result<Option<(Vec<Modifier>, usize)>, Failure>,
    sp: Result<Option<(Seq<Modifier>, usize)>, Failure>,
) -> bool {
    match (e, sp) {
        (Ok(Some((v, p))), Ok(Some((w, q)))) => v@ == w && p == q,
        (Ok(None), Ok(None)) => true,
        (Err(f), Err(g)) => f == g,
        _ => false,
    }
}

fn parse_opt_modifiers(s: &[char], i: usize) -> (res: Result<Option<(Vec<Modifier>, usize)>, Failure>)
    requires
        i <= s@.len(),
    ensures
        opt_mods_agree(res, spec_opt_modifiers(s@, i as int)),
        res matches Ok(Some((_, p))) ==> i < p <= s@.len(),
        res matches Err(f) ==> f.pos <= s@.len() && f.cut,
{
    match parse_modifiers(s, i) {
        Ok(v) => Ok(Some(v)),
        Err(f) => if f.cut {
            Err(f)
        } else {
            Ok(None)
        },
    }
}

/// The modifier `m` is called `w`.
pub open spec fn named(s: Seq<char>, m: Modifier, w: Seq<char>) -> bool {
    spells(s, m.name_start as int, m.name_end as int, w)
}

/// Which of the names `a` (`Some(true)`) or `b` (`Some(false)`) the last
/// modifier called one of them has, if any does.
pub open spec fn last_of_two(s: Seq<char>, mods: Seq<Modifier>, a: Seq<char>, b: Seq<char>) -> Option<bool>
    decreases mods.len(),
{
    if mods.len() == 0 {
        None
    } else if named(s, mods.last(), a) {
        Some(true)
    } else if named(s, mods.last(), b) {
        Some(false)
    } else {
        last_of_two(s, mods.drop_last(), a, b)
    }
}

fn find_last_of_two(s: &[char], mods: &Vec<Modifier>, a: &str, b: &str) -> (r: Option<bool>)
    ensures
        r == last_of_two(s@, mods@, a@, b@),
{
    let mut k = mods.len();
    assert(mods@.take(k as int) =~= mods@);
    while k > 0
        invariant
            k <= mods@.len(),
            last_of_two(s@, mods@, a@, b@) == last_of_two(s@, mods@.take(k as int), a@, b@),
        decreases k,
    {
        let m = mods[k - 1];
        assert(mods@.take(k as int).last() == m);
        assert(mods@.take(k as int).drop_last() =~= mods@.take(k - 1));
        if range_is(s, m.name_start, m.name_end, a) {
            return Some(true);
        }
        if range_is(s, m.name_start, m.name_end, b) {
            return Some(false);
        }
        k = k - 1;
    }
    None
}

/// Encoding of an integer-like type: the last of `str` and `int`.
pub open spec fn last_int_encoding(s: Seq<char>, mods: Seq<Modifier>) -> Option<IntLikeEncoding> {
    match last_of_two(s, mods, "str"@, "int"@) {
        Some(true) => Some(IntLikeEncoding::String),
        Some(false) => Some(IntLikeEncoding::Int),
        None => None,
    }
}

/// Encoding of a boolean: the last of `str` and `int`, else a JSON boolean.
pub open spec fn last_bool_encoding(s: Seq<char>, mods: Seq<Modifier>) -> BoolEncoding {
    match last_of_two(s, mods, "str"@, "int"@) {
        Some(true) => BoolEncoding::String,
        Some(false) => BoolEncoding::Int,
        None => BoolEncoding::Bool,
    }
}

/// Encoding of a custom type: the last of `str` and `json`, else JSON.
pub open spec fn last_json_encoding(s: Seq<char>, mods: Seq<Modifier>) -> JsonEncoding {
    match last_of_two(s, mods, "str"@, "json"@) {
        Some(true) => JsonEncoding::String,
        _ => JsonEncoding::Json,
    }
}

// ---------------------------------------------------------------------
// Decimal numbers
// ---------------------------------------------------------------------

pub open spec fn all_digits(w: Seq<char>) -> bool {
    forall|t: int| 0 <= t < w.len() ==> is_digit(#[trigger] w[t])
}

/// The value of a string of decimal digits.
pub open spec fn digits_value(w: Seq<char>) -> nat
    decreases w.len(),
{
    if w.len() == 0 {
        0
    } else {
        digits_value(w.drop_last()) * 10 + (w.last() as nat - '0' as nat) as nat
    }
}

proof fn lemma_digits_prefix(w: Seq<char>, k: int)
    requires
        all_digits(w),
        0 <= k <= w.len(),
    ensures
        digits_value(w.take(k)) <= digits_value(w),
    decreases w.len(),
{
    if k < w.len() {
        assert(all_digits(w.drop_last()));
        lemma_digits_prefix(w.drop_last(), k);
        assert(w.drop_last().take(k) =~= w.take(k));
    } else {
        assert(w.take(k) =~= w);
    }
}

/// `usize::from_str` on the characters `s[a..b]`, which hold no sign.
fn parse_decimal(s: &[char], a: usize, b: usize) -> (r: Option<usize>)
    requires
        a <= b <= s@.len(),
    ensures
        ({
            let w = s@.subrange(a as int, b as int);
            r == (if w.len() > 0 && all_digits(w) && digits_value(w) <= usize::MAX {
                Some(digits_value(w) as usize)
            } else {
                None
            })
        }),
{
    let ghost w = s@.subrange(a as int, b as int);
    if a == b {
        return None;
    }
    let mut t = a;
    while t < b
        invariant
            a <= t <= b <= s@.len(),
            w == s@.subrange(a as int, b as int),
            forall|u: int| a <= u < t ==> is_digit(#[trigger] s@[u]),
        decreases b - t,
    {
        if !('0' <= s[t] && s[t] <= '9') {
            assert(!is_digit(w[t - a]));
            return None;
        }
        t = t + 1;
    }
    assert(all_digits(w)) by {
        assert forall|u: int| 0 <= u < w.len() implies is_digit(#[trigger] w[u]) by {
            assert(w[u] == s@[a + u]);
        }
    }
    let mut v: usize = 0;
    let mut t = a;
    assert(w.take(0) =~= Seq::<char>::empty());
    while t < b
        invariant
            a <= t <= b <= s@.len(),
            w == s@.subrange(a as int, b as int),
            all_digits(w),
            v == digits_value(w.take(t - a)),
        decreases b - t,
    {
        let c = s[t];
        assert(c == w[t - a]);
        assert(is_digit(c));
        let d = (c as u32 - '0' as u32) as usize;
        assert(w.take(t - a + 1).drop_last() =~= w.take(t - a));
        assert(w.take(t - a + 1).last() == c);
        match v.checked_mul(10) {
            None => {
                proof {
                    lemma_digits_prefix(w, t - a + 1);
                }
                return None;
            },
            Some(v10) => match v10.checked_add(d) {
                None => {
                    proof {
                        lemma_digits_prefix(w, t - a + 1);
                    }
                    return None;
                },
                Some(nv) => {
                    v = nv;
                },
            },
        }
        t = t + 1;
    }
    assert(w.take(b - a) =~= w);
    Some(v)
}

// ---------------------------------------------------------------------
// Array modifiers
// ---------------------------------------------------------------------

/// Shape of an array as its modifiers give it.
#[derive(Debug, Clone, Copy, PartialEq, Eq, Structural)]
pub enum ArrayKind {
    Normal(ArraySize),
    Separated(ArraySeparator, ArraySize),
}

/// What one modifier says of the array size: nothing (`None`), a size, or
/// an error.
pub open spec fn size_of_modifier(s: Seq<char>, m: Modifier) -> Option<Result<ArraySize, TypeErrorKind>> {
    if !named(s, m, "size"@) {
        None
    } else {
        match m.param {
            None => Some(Err(TypeErrorKind::SizeNeedsCount)),
            Some((a, b)) => {
                let w = s.subrange(a as int, b as int);
                if spells(s, a as int, b as int, "n"@) {
                    Some(Ok(ArraySize::Dynamic))
                } else if a <= b <= s.len() && w.len() > 0 && all_digits(w) && digits_value(w)
                    <= usize::MAX {
                    if digits_value(w) == 0 {
                        Some(Err(TypeErrorKind::NonPositiveSize { start: a, end: b }))
                    } else {
                        Some(Ok(ArraySize::Fixed(digits_value(w) as usize)))
                    }
                } else {
                    Some(Err(TypeErrorKind::BadSizeValue { start: a, end: b }))
                }
            },
        }
    }
}

/// The sizes given by the modifiers, in order, or the first error.
pub open spec fn spec_sizes(s: Seq<char>, mods: Seq<Modifier>) -> Result<Seq<ArraySize>, TypeErrorKind>
    decreases mods.len(),
{
    if mods.len() == 0 {
        Ok(Seq::empty())
    } else {
        match spec_sizes(s, mods.drop_last()) {
            Err(e) => Err(e),
            Ok(v) => match size_of_modifier(s, mods.last()) {
                None => Ok(v),
                Some(Err(e)) => Err(e),
                Some(Ok(z)) => Ok(v.push(z)),
            },
        }
    }
}

/// What one modifier says of the separator.
pub open spec fn sep_of_modifier(s: Seq<char>, m: Modifier) -> Option<Result<ArraySeparator, TypeErrorKind>> {
    if !named(s, m, "sep"@) {
        None
    } else {
        match m.param {
            None => Some(Err(TypeErrorKind::SeparatorNeedsValue)),
            Some((a, b)) => if spells(s, a as int, b as int, "at"@) {
                Some(Ok(ArraySeparator::At))
            } else if spells(s, a as int, b as int, "colon"@) {
                Some(Ok(ArraySeparator::Colon))
            } else if spells(s, a as int, b as int, "comma"@) {
                Some(Ok(ArraySeparator::Comma))
            } else if spells(s, a as int, b as int, "pipe"@) {
                Some(Ok(ArraySeparator::Pipe))
            } else {
                Some(Err(TypeErrorKind::UnknownSeparator { start: a, end: b }))
            },
        }
    }
}

/// The separators given by the modifiers, in order, or the first error.
pub open spec fn spec_seps(s: Seq<char>, mods: Seq<Modifier>) -> Result<Seq<ArraySeparator>, TypeErrorKind>
    decreases mods.len(),
{
    if mods.len() == 0 {
        Ok(Seq::empty())
    } else {
        match spec_seps(s, mods.drop_last()) {
            Err(e) => Err(e),
            Ok(v) => match sep_of_modifier(s, mods.last()) {
                None => Ok(v),
                Some(Err(e)) => Err(e),
                Some(Ok(z)) => Ok(v.push(z)),
            },
        }
    }
}

/// The shape of an array from its modifiers: at most one size (unbounded
/// when none is given) and at most one separator.
pub open spec fn spec_array_kind(s: Seq<char>, mods: Seq<Modifier>) -> Result<ArrayKind, TypeErrorKind> {
    match spec_sizes(s, mods) {
        Err(e) => Err(e),
        Ok(sizes) => if sizes.len() > 1 {
            Err(TypeErrorKind::MultipleSizes)
        } else {
            let size = if sizes.len() == 1 {
                sizes[0]
            } else {
                ArraySize::Dynamic
            };
            match spec_seps(s, mods) {
                Err(e) => Err(e),
                Ok(seps) => if seps.len() > 1 {
                    Err(TypeErrorKind::MultipleSeparators)
                } else if seps.len() == 1 {
                    Ok(ArrayKind::Separated(seps[0], size))
                } else {
                    Ok(ArrayKind::Normal(size))
                },
            }
        },
    }
}

fn size_of_mod(s: &[char], m: Modifier) -> (r: Option<Result<ArraySize, TypeErrorKind>>)
    ensures
        r == size_of_modifier(s@, m),
{
    if !range_is(s, m.name_start, m.name_end, "size") {
        return None;
    }
    match m.param {
        None => Some(Err(TypeErrorKind::SizeNeedsCount)),
        Some((a, b)) => {
            if range_is(s, a, b, "n") {
                Some(Ok(ArraySize::Dynamic))
            } else if a <= b && b <= s.len() {
                match parse_decimal(s, a, b) {
                    Some(n) => if n == 0 {
                        Some(Err(TypeErrorKind::NonPositiveSize { start: a, end: b }))
                    } else {
                        Some(Ok(ArraySize::Fixed(n)))
                    },
                    None => Some(Err(TypeErrorKind::BadSizeValue { start: a, end: b })),
                }
            } else {
                Some(Err(TypeErrorKind::BadSizeValue { start: a, end: b }))
            }
        },
    }
}

fn sep_of_mod(s: &[char], m: Modifier) -> (r: Option<Result<ArraySeparator, TypeErrorKind>>)
    ensures
        r == sep_of_modifier(s@, m),
{
    if !range_is(s, m.name_start, m.name_end, "sep") {
        return None;
    }
    match m.param {
        None => Some(Err(TypeErrorKind::SeparatorNeedsValue)),
        Some((a, b)) => if range_is(s, a, b, "at") {
            Some(Ok(ArraySeparator::At))
        } else if range_is(s, a, b, "colon") {
            Some(Ok(ArraySeparator::Colon))
        } else if range_is(s, a, b, "comma") {
            Some(Ok(ArraySeparator::Comma))
        } else if range_is(s, a, b, "pipe") {
            Some(Ok(ArraySeparator::Pipe))
        } else {
            Some(Err(TypeErrorKind::UnknownSeparator { start: a, end: b }))
        },
    }
}

fn array_kind(s: &[char], mods: &Vec<Modifier>) -> (r: Result<ArrayKind, TypeErrorKind>)
    ensures
        r == spec_array_kind(s@, mods@),
{
    let mut sizes: Vec<ArraySize> = Vec::new();
    let mut k: usize = 0;
    assert(mods@.take(0) =~= Seq::<Modifier>::empty());
    while k < mods.len()
        invariant
            k <= mods@.len(),
            spec_sizes(s@, mods@.take(k as int)) == Ok::<Seq<ArraySize>, TypeErrorKind>(sizes@),
        decreases mods@.len() - k,
    {
        let m = mods[k];
        assert(mods@.take(k + 1).drop_last() =~= mods@.take(k as int));
        assert(mods@.take(k + 1).last() == m);
        match size_of_mod(s, m) {
            None => {},
            Some(Err(e)) => {
                proof {
                    lemma_sizes_stop(s@, mods@, k + 1, e);
                }
                return Err(e);
            },
            Some(Ok(z)) => {
                sizes.push(z);
            },
        }
        k = k + 1;
    }
    assert(mods@.take(mods@.len() as int) =~= mods@);
    if sizes.len() > 1 {
        return Err(TypeErrorKind::MultipleSizes);
    }
    let size = if sizes.len() == 1 {
        sizes[0]
    } else {
        ArraySize::Dynamic
    };
    let mut seps: Vec<ArraySeparator> = Vec::new();
    let mut k: usize = 0;
    while k < mods.len()
        invariant
            k <= mods@.len(),
            spec_seps(s@, mods@.take(k as int)) == Ok::<Seq<ArraySeparator>, TypeErrorKind>(seps@),
            spec_sizes(s@, mods@) == Ok::<Seq<ArraySize>, TypeErrorKind>(sizes@),
            sizes@.len() <= 1,
            size == (if sizes@.len() == 1 {
                sizes@[0]
            } else {
                ArraySize::Dynamic
            }),
        decreases mods@.len() - k,
    {
        let m = mods[k];
        assert(mods@.take(k + 1).drop_last() =~= mods@.take(k as int));
        assert(mods@.take(k + 1).last() == m);
        match sep_of_mod(s, m) {
            None => {},
            Some(Err(e)) => {
                proof {
                    lemma_seps_stop(s@, mods@, k + 1, e);
                }
                return Err(e);
            },
            Some(Ok(z)) => {
                seps.push(z);
            },
        }
        k = k + 1;
    }
    assert(mods@.take(mods@.len() as int) =~= mods@);
    if seps.len() > 1 {
        Err(TypeErrorKind::MultipleSeparators)
    } else if seps.len() == 1 {
        Ok(ArrayKind::Separated(seps[0], size))
    } else {
        Ok(ArrayKind::Normal(size))
    }
}

/// Once a prefix of the modifiers gives an error, so do all the modifiers.
proof fn lemma_sizes_stop(s: Seq<char>, mods: Seq<Modifier>, k: int, e: TypeErrorKind)
    requires
        0 <= k <= mods.len(),
        spec_sizes(s, mods.take(k)) == Err::<Seq<ArraySize>, TypeErrorKind>(e),
    ensures
        spec_sizes(s, mods) == Err::<Seq<ArraySize>, TypeErrorKind>(e),
    decreases mods.len() - k,
{
    if k < mods.len() {
        assert(mods.take(k + 1).drop_last() =~= mods.take(k));
        lemma_sizes_stop(s, mods, k + 1, e);
    } else {
        assert(mods.take(k) =~= mods);
    }
}

proof fn lemma_seps_stop(s: Seq<char>, mods: Seq<Modifier>, k: int, e: TypeErrorKind)
    requires
        0 <= k <= mods.len(),
        spec_seps(s, mods.take(k)) == Err::<Seq<ArraySeparator>, TypeErrorKind>(e),
    ensures
        spec_seps(s, mods) == Err::<Seq<ArraySeparator>, TypeErrorKind>(e),
    decreases mods.len() - k,
{
    if k < mods.len() {
        assert(mods.take(k + 1).drop_last() =~= mods.take(k));
        lemma_seps_stop(s, mods, k + 1, e);
    } else {
        assert(mods.take(k) =~= mods);
    }
}


// ---------------------------------------------------------------------
// Names of the former Python tool
// ---------------------------------------------------------------------

/// Datatype names of the former Python tool, refused with a hint.
pub open spec fn legacy_name(k: int) -> Seq<char> {
    if k == 0 {
        "int"@
    } else if k == 1 {
        "intstr"@
    } else if k == 2 {
        "long"@
    } else if k == 3 {
        "longstr"@
    } else if k == 4 {
        "float"@
    } else if k == 5 {
        "floatstr"@
    } else if k == 6 {
        "double"@
    } else if k == 7 {
        "doublestr"@
    } else if k == 8 {
        "boolint"@
    } else if k == 9 {
        "intbool"@
    } else if k == 10 {
        "boolstr"@
    } else if k == 11 {
        "strbool"@
    } else if k == 12 {
        "commalist"@
    } else if k == 13 {
        "atlist"@
    } else if k == 14 {
        "colonlist"@
    } else {
        "datetimeunix"@
    }
}

/// Number of names of the former Python tool.
pub const LEGACY_COUNT: usize = 16;

/// Index of `name` among the legacy names, searching from `k` on.
pub open spec fn legacy_index_from(name: Seq<char>, k: int) -> Option<usize>
    decreases LEGACY_COUNT - k,
{
    if k < 0 || k >= LEGACY_COUNT {
        None
    } else if name == legacy_name(k) {
        Some(k as usize)
    } else {
        legacy_index_from(name, k + 1)
    }
}

/// The legacy name with index `k`.
pub fn legacy_name_str(k: usize) -> (r: &'static str)
    requires
        k < LEGACY_COUNT,
    ensures
        r@ == legacy_name(k as int),
{
    if k == 0 {
        "int"
    } else if k == 1 {
        "intstr"
    } else if k == 2 {
        "long"
    } else if k == 3 {
        "longstr"
    } else if k == 4 {
        "float"
    } else if k == 5 {
        "floatstr"
    } else if k == 6 {
        "double"
    } else if k == 7 {
        "doublestr"
    } else if k == 8 {
        "boolint"
    } else if k == 9 {
        "intbool"
    } else if k == 10 {
        "boolstr"
    } else if k == 11 {
        "strbool"
    } else if k == 12 {
        "commalist"
    } else if k == 13 {
        "atlist"
    } else if k == 14 {
        "colonlist"
    } else {
        "datetimeunix"
    }
}

fn find_legacy(s: &[char], i: usize, j: usize) -> (r: Option<usize>)
    requires
        i <= j <= s@.len(),
    ensures
        r == legacy_index_from(s@.subrange(i as int, j as int), 0),
{
    let mut k: usize = 0;
    while k < LEGACY_COUNT
        invariant
            k <= LEGACY_COUNT,
            i <= j <= s@.len(),
            legacy_index_from(s@.subrange(i as int, j as int), 0) == legacy_index_from(
                s@.subrange(i as int, j as int),
                k as int,
            ),
        decreases LEGACY_COUNT - k,
    {
        if range_is(s, i, j, legacy_name_str(k)) {
            return Some(k);
        }
        k = k + 1;
    }
    None
}

// ---------------------------------------------------------------------
// Datatypes
// ---------------------------------------------------------------------

/// Executable results agree with the specification's.
pub open spec fn dt_agree(
    e: Result<(DataType, usize), Failure>,
    sp: Result<(TypeModel, usize), Failure>,
) -> bool {
    match (e, sp) {
        (Ok((d, p)), Ok((t, q))) => d.model() == t && p == q,
        (Err(f), Err(g)) => f == g,
        _ => false,
    }
}

/// The first alternative that succeeds or fails for good.
pub open spec fn alt2(
    r1: Result<(TypeModel, usize), Failure>,
    r2: Result<(TypeModel, usize), Failure>,
) -> Result<(TypeModel, usize), Failure> {
    match r1 {
        Ok(v) => Ok(v),
        Err(f) => if f.cut {
            Err(f)
        } else {
            r2
        },
    }
}

pub open spec fn prim_name(k: PrimKind) -> Seq<char> {
    match k {
        PrimKind::I32 => "i32"@,
        PrimKind::U32 => "u32"@,
        PrimKind::I64 => "i64"@,
        PrimKind::U64 => "u64"@,
        PrimKind::F32 => "f32"@,
    }
}

pub open spec fn prim_model(k: PrimKind, e: IntLikeEncoding) -> TypeModel {
    match k {
        PrimKind::I32 => TypeModel::I32(e),
        PrimKind::U32 => TypeModel::U32(e),
        PrimKind::I64 => TypeModel::I64(e),
        PrimKind::U64 => TypeModel::U64(e),
        PrimKind::F32 => TypeModel::F32(e),
    }
}

/// An integer-like type, which must be given an encoding.
pub open spec fn spec_intlike(s: Seq<char>, i: int, k: PrimKind) -> Result<(TypeModel, usize), Failure> {
    if !has_lit(s, i, prim_name(k)) {
        Err(back(i))
    } else {
        let j = i + prim_name(k).len();
        if j < s.len() && is_alpha(s[j]) {
            Err(back(j))
        } else {
            match spec_opt_modifiers(s, j) {
                Err(f) => Err(f),
                Ok(None) => Err(cut_with(TypeErrorKind::IntLikeNeedsEncoding(k), j)),
                Ok(Some((mods, p))) => match last_int_encoding(s, mods) {
                    Some(e) => Ok((prim_model(k, e), p)),
                    None => Err(cut_with(TypeErrorKind::NoEncodingInModifiers(k), j)),
                },
            }
        }
    }
}

/// A keyword type that takes no encoding (`f64`, `str`, `datetime`, ...);
/// modifiers after it are read and ignored.
pub open spec fn spec_keyword(s: Seq<char>, i: int, w: Seq<char>, t: TypeModel) -> Result<
    (TypeModel, usize),
    Failure,
> {
    if !has_lit(s, i, w) {
        Err(back(i))
    } else {
        let j = i + w.len();
        if j < s.len() && is_alnum(s[j]) {
            Err(back(j))
        } else {
            match spec_opt_modifiers(s, j) {
                Err(f) => Err(f),
                Ok(None) => Ok((t, j as usize)),
                Ok(Some((_, p))) => Ok((t, p)),
            }
        }
    }
}

/// `bool`, with an optional encoding.
pub open spec fn spec_bool(s: Seq<char>, i: int) -> Result<(TypeModel, usize), Failure> {
    if !has_lit(s, i, "bool"@) {
        Err(back(i))
    } else {
    let j = i + 4;
        if j < s.len() && is_alpha(s[j]) {
            Err(back(j))
        } else {
            match spec_opt_modifiers(s, j) {
                Err(f) => Err(f),
                Ok(None) => Ok((TypeModel::Bool(BoolEncoding::Bool), j as usize)),
                Ok(Some((mods, p))) => Ok((TypeModel::Bool(last_bool_encoding(s, mods)), p)),
            }
        }
    }
}

/// A refused legacy name: the parser may still try other alternatives.
pub open spec fn legacy_failure(k: usize, pos: int) -> Failure {
    Failure {
        cut: false,
        error: TypeError { cause: Some(TypeErrorKind::LegacyDatatype(k)), context: None },
        pos: pos as usize,
    }
}

/// A reference to another definition by its name.
pub open spec fn spec_custom(s: Seq<char>, i: int) -> Result<(TypeModel, usize), Failure> {
    let j = alnum_end(s, i);
    if !(0 <= i <= s.len()) || j == i {
        Err(back(i))
    } else {
        match spec_opt_modifiers(s, j) {
            Err(f) => Err(f),
            Ok(om) => {
                let name = s.subrange(i, j);
                match legacy_index_from(name, 0) {
                    Some(k) => Err(legacy_failure(k, i)),
                    None => match om {
                        None => Ok((TypeModel::Custom { name, encoding: JsonEncoding::Json }, j as usize)),
                        Some((mods, p)) => Ok(
                            (TypeModel::Custom { name, encoding: last_json_encoding(s, mods) }, p),
                        ),
                    },
                }
            },
        }
    }
}

/// The alternatives that hold no other datatype, in the order they are tried.
#[verifier::opaque]
pub open spec fn spec_leaf(s: Seq<char>, i: int) -> Result<(TypeModel, usize), Failure> {
    alt2(
        spec_intlike(s, i, PrimKind::I32),
        alt2(
            spec_intlike(s, i, PrimKind::I64),
            alt2(
                spec_intlike(s, i, PrimKind::U32),
                alt2(
                    spec_intlike(s, i, PrimKind::U64),
                    alt2(
                        spec_intlike(s, i, PrimKind::F32),
                        alt2(
                            spec_keyword(s, i, "f64"@, TypeModel::F64),
                            alt2(
                                spec_bool(s, i),
                                alt2(
                                    spec_keyword(s, i, "str"@, TypeModel::String),
                                    alt2(
                                        spec_keyword(
                                            s,
                                            i,
                                            "datetime-unix"@,
                                            TypeModel::DatetimeUnix,
                                        ),
                                        alt2(
                                            spec_keyword(s, i, "datetime"@, TypeModel::Datetime),
                                            spec_custom(s, i),
                                        ),
                                    ),
                                ),
                            ),
                        ),
                    ),
                ),
            ),
        ),
    )
}

/// A datatype at `i`, after optional spaces.
pub open spec fn spec_datatype(s: Seq<char>, i: int) -> Result<(TypeModel, usize), Failure>
    decreases s.len() - i, 1int,
{
    if !(0 <= i <= s.len()) {
        Err(back(i))
    } else {
        let k = space_end(s, i);
        proof {
            lemma_space_end(s, i);
        }
        alt2(spec_map(s, k), alt2(spec_array(s, k), spec_leaf(s, k)))
    }
}

/// A dictionary `%{key => value}`.
pub open spec fn spec_map(s: Seq<char>, k: int) -> Result<(TypeModel, usize), Failure>
    decreases s.len() - k, 0int,
{
    if !(0 <= k && has_lit(s, k, "%{"@)) {
        Err(back(k))
    } else {
        let a = space_end(s, k + 2);
        proof {
            reveal_strlit("%{");
            lemma_space_end(s, k + 2);
        }
        match spec_datatype(s, a) {
            Err(f) => Err(f),
            Ok((key, p)) => if !(a < p <= s.len()) {
                Err(back(p as int))
            } else {
                let b = space_end(s, p as int);
                if b == p {
                    Err(cut_with(TypeErrorKind::MapSeparator, p as int))
                } else if !has_lit(s, b, "=>"@) {
                    Err(cut_with(TypeErrorKind::MapSeparator, b))
                } else {
                    let c = space_end(s, b + 2);
                    proof {
                        reveal_strlit("=>");
                        lemma_space_end(s, p as int);
                        lemma_space_end(s, b + 2);
                    }
                    if c == b + 2 {
                        Err(cut_with(TypeErrorKind::MapSeparator, b + 2))
                    } else {
                        match spec_datatype(s, c) {
                            Err(f) => Err(f),
                            Ok((value, q)) => if !(c < q <= s.len()) {
                                Err(back(q as int))
                            } else {
                                let d = space_end(s, q as int);
                                if !(d < s.len() && s[d] == '}') {
                                    Err(back(d))
                                } else {
                                    let t = TypeModel::Dictionary {
                                        key: Box::new(key),
                                        value: Box::new(value),
                                    };
                                    match spec_opt_modifiers(s, d + 1) {
                                        Err(f) => Err(f),
                                        Ok(None) => Ok((t, (d + 1) as usize)),
                                        Ok(Some((_, e))) => Ok((t, e)),
                                    }
                                }
                            },
                        }
                    }
                }
            },
        }
    }
}

/// An array `[inner]`, shaped by its modifiers.
pub open spec fn spec_array(s: Seq<char>, k: int) -> Result<(TypeModel, usize), Failure>
    decreases s.len() - k, 0int,
{
    if !(0 <= k < s.len() && s[k] == '[') {
        Err(back(k))
    } else {
        match spec_datatype(s, k + 1) {
            Err(f) => Err(f),
            Ok((t, p)) => if !(k + 1 < p <= s.len()) {
                Err(back(p as int))
            } else if !(p < s.len() && s[p as int] == ']') {
                Err(back(p as int))
            } else {
                let j = p + 1;
                match spec_opt_modifiers(s, j) {
                    Err(f) => Err(f),
                    Ok(None) => Ok(
                        (TypeModel::Array { size: ArraySize::Dynamic, inner: Box::new(t) }, j as usize),
                    ),
                    Ok(Some((mods, q))) => match spec_array_kind(s, mods) {
                        Err(e) => Err(cut_with(e, j)),
                        Ok(ArrayKind::Normal(z)) => Ok(
                            (TypeModel::Array { size: z, inner: Box::new(t) }, q),
                        ),
                        Ok(ArrayKind::Separated(sep, z)) => Ok(
                            (TypeModel::StringArray { inner: Box::new(t), separator: sep, size: z }, q),
                        ),
                    },
                }
            },
        }
    }
}


fn prim_name_str(k: PrimKind) -> (r: &'static str)
    ensures
        r@ == prim_name(k),
        r@.len() == 3,
{
    proof {
        reveal_strlit("i32");
        reveal_strlit("u32");
        reveal_strlit("i64");
        reveal_strlit("u64");
        reveal_strlit("f32");
    }
    match k {
        PrimKind::I32 => "i32",
        PrimKind::U32 => "u32",
        PrimKind::I64 => "i64",
        PrimKind::U64 => "u64",
        PrimKind::F32 => "f32",
    }
}

fn prim_datatype(k: PrimKind, encoding: IntLikeEncoding) -> (d: DataType)
    ensures
        d.model() == prim_model(k, encoding),
{
    match k {
        PrimKind::I32 => DataType::I32 { encoding },
        PrimKind::U32 => DataType::U32 { encoding },
        PrimKind::I64 => DataType::I64 { encoding },
        PrimKind::U64 => DataType::U64 { encoding },
        PrimKind::F32 => DataType::F32 { encoding },
    }
}

fn parse_intlike(s: &[char], i: usize, k: PrimKind) -> (res: Result<(DataType, usize), Failure>)
    requires
        i <= s@.len(),
    ensures
        dt_agree(res, spec_intlike(s@, i as int, k)),
        res matches Ok((_, p)) ==> i < p <= s@.len(),
        res matches Err(f) ==> f.pos <= s@.len(),
{
    let w = prim_name_str(k);
    let _n = s.len();
    if !lit_at(s, i, w) {
        return Err(mk_back(i));
    }
    assert(i + w@.len() <= s@.len());
    let j = i + 3;
    if j < s.len() && is_alpha_char(s[j]) {
        return Err(mk_back(j));
    }
    match parse_opt_modifiers(s, j) {
        Err(f) => Err(f),
        Ok(None) => Err(mk_cut(TypeErrorKind::IntLikeNeedsEncoding(k), j)),
        Ok(Some((mods, p))) => match find_last_of_two(s, &mods, "str", "int") {
            Some(true) => Ok((prim_datatype(k, IntLikeEncoding::String), p)),
            Some(false) => Ok((prim_datatype(k, IntLikeEncoding::Int), p)),
            None => Err(mk_cut(TypeErrorKind::NoEncodingInModifiers(k), j)),
        },
    }
}

fn parse_keyword(s: &[char], i: usize, w: &str, d: DataType) -> (res: Result<(DataType, usize), Failure>)
    requires
        i <= s@.len(),
        w@.len() > 0,
    ensures
        dt_agree(res, spec_keyword(s@, i as int, w@, d.model())),
        res matches Ok((_, p)) ==> i < p <= s@.len(),
        res matches Err(f) ==> f.pos <= s@.len(),
{
    if !lit_at(s, i, w) {
        return Err(mk_back(i));
    }
    let _n = s.len();
    let j = i + w.unicode_len();
    if j < s.len() && is_alnum_char(s[j]) {
        return Err(mk_back(j));
    }
    match parse_opt_modifiers(s, j) {
        Err(f) => Err(f),
        Ok(None) => Ok((d, j)),
        Ok(Some((_, p))) => Ok((d, p)),
    }
}

fn parse_bool(s: &[char], i: usize) -> (res: Result<(DataType, usize), Failure>)
    requires
        i <= s@.len(),
    ensures
        dt_agree(res, spec_bool(s@, i as int)),
        res matches Ok((_, p)) ==> i < p <= s@.len(),
        res matches Err(f) ==> f.pos <= s@.len(),
{
    proof {
        reveal_strlit("bool");
    }
    if !lit_at(s, i, "bool") {
        return Err(mk_back(i));
    }
    let _n = s.len();
    let j = i + 4;
    if j < s.len() && is_alpha_char(s[j]) {
        return Err(mk_back(j));
    }
    match parse_opt_modifiers(s, j) {
        Err(f) => Err(f),
        Ok(None) => Ok((DataType::Bool { encoding: BoolEncoding::Bool }, j)),
        Ok(Some((mods, p))) => {
            let encoding = match find_last_of_two(s, &mods, "str", "int") {
                Some(true) => BoolEncoding::String,
                Some(false) => BoolEncoding::Int,
                None => BoolEncoding::Bool,
            };
            Ok((DataType::Bool { encoding }, p))
        },
    }
}

fn parse_custom(s: &[char], i: usize) -> (res: Result<(DataType, usize), Failure>)
    requires
        i <= s@.len(),
    ensures
        dt_agree(res, spec_custom(s@, i as int)),
        res matches Ok((_, p)) ==> i < p <= s@.len(),
        res matches Err(f) ==> f.pos <= s@.len(),
{
    proof {
        lemma_alnum_end(s@, i as int);
    }
    let j = scan_alnum(s, i);
    if j == i {
        return Err(mk_back(i));
    }
    let om = match parse_opt_modifiers(s, j) {
        Err(f) => {
            return Err(f);
        },
        Ok(om) => om,
    };
    if let Some(k) = find_legacy(s, i, j) {
        return Err(
            Failure {
                cut: false,
                error: TypeError { cause: Some(TypeErrorKind::LegacyDatatype(k)), context: None },
                pos: i,
            },
        );
    }
    let name = string_of_chars(vstd::slice::slice_subrange(s, i, j));
    match om {
        None => Ok((DataType::Custom { name, encoding: JsonEncoding::Json }, j)),
        Some((mods, p)) => {
            let encoding = match find_last_of_two(s, &mods, "str", "json") {
                Some(true) => JsonEncoding::String,
                _ => JsonEncoding::Json,
            };
            Ok((DataType::Custom { name, encoding }, p))
        },
    }
}

fn parse_leaf(s: &[char], i: usize) -> (res: Result<(DataType, usize), Failure>)
    requires
        i <= s@.len(),
    ensures
        dt_agree(res, spec_leaf(s@, i as int)),
        res matches Ok((_, p)) ==> i < p <= s@.len(),
        res matches Err(f) ==> f.pos <= s@.len(),
{
    proof {
        reveal(spec_leaf);
        reveal_strlit("f64");
        reveal_strlit("str");
        reveal_strlit("datetime-unix");
        reveal_strlit("datetime");
    }
    match parse_intlike(s, i, PrimKind::I32) {
        Ok(v) => return Ok(v),
        Err(f) => if f.cut {
            return Err(f);
        },
    }
    match parse_intlike(s, i, PrimKind::I64) {
        Ok(v) => return Ok(v),
        Err(f) => if f.cut {
            return Err(f);
        },
    }
    match parse_intlike(s, i, PrimKind::U32) {
        Ok(v) => return Ok(v),
        Err(f) => if f.cut {
            return Err(f);
        },
    }
    match parse_intlike(s, i, PrimKind::U64) {
        Ok(v) => return Ok(v),
        Err(f) => if f.cut {
            return Err(f);
        },
    }
    match parse_intlike(s, i, PrimKind::F32) {
        Ok(v) => return Ok(v),
        Err(f) => if f.cut {
            return Err(f);
        },
    }
    match parse_keyword(s, i, "f64", DataType::F64) {
        Ok(v) => return Ok(v),
        Err(f) => if f.cut {
            return Err(f);
        },
    }
    match parse_bool(s, i) {
        Ok(v) => return Ok(v),
        Err(f) => if f.cut {
            return Err(f);
        },
    }
    match parse_keyword(s, i, "str", DataType::String) {
        Ok(v) => return Ok(v),
        Err(f) => if f.cut {
            return Err(f);
        },
    }
    match parse_keyword(s, i, "datetime-unix", DataType::DatetimeUnix) {
        Ok(v) => return Ok(v),
        Err(f) => if f.cut {
            return Err(f);
        },
    }
    match parse_keyword(s, i, "datetime", DataType::Datetime) {
        Ok(v) => return Ok(v),
        Err(f) => if f.cut {
            return Err(f);
        },
    }
    parse_custom(s, i)
}

fn parse_datatype_at(s: &[char], i: usize) -> (res: Result<(DataType, usize), Failure>)
    requires
        i <= s@.len(),
    ensures
        dt_agree(res, spec_datatype(s@, i as int)),
        res matches Ok((_, p)) ==> i < p <= s@.len(),
        res matches Err(f) ==> f.pos <= s@.len(),
    decreases s@.len() - i, 1int,
{
    proof {
        lemma_space_end(s@, i as int);
    }
    let k = scan_space(s, i);
    match parse_map_at(s, k) {
        Ok(v) => return Ok(v),
        Err(f) => if f.cut {
            return Err(f);
        },
    }
    match parse_array_at(s, k) {
        Ok(v) => return Ok(v),
        Err(f) => if f.cut {
            return Err(f);
        },
    }
    parse_leaf(s, k)
}

#[verifier::rlimit(80)]
#[verifier::spinoff_prover]
fn parse_map_at(s: &[char], k: usize) -> (res: Result<(DataType, usize), Failure>)
    requires
        k <= s@.len(),
    ensures
        dt_agree(res, spec_map(s@, k as int)),
        res matches Ok((_, p)) ==> k < p <= s@.len(),
        res matches Err(f) ==> f.pos <= s@.len(),
    decreases s@.len() - k, 0int,
{
    proof {
        reveal_strlit("%{");
        reveal_strlit("=>");
    }
    let _n = s.len();
    if !lit_at(s, k, "%{") {
        return Err(mk_back(k));
    }
    proof {
        lemma_space_end(s@, k + 2);
    }
    let a = scan_space(s, k + 2);
    let (key, p) = match parse_datatype_at(s, a) {
        Err(f) => {
            return Err(f);
        },
        Ok(v) => v,
    };
    proof {
        lemma_space_end(s@, p as int);
    }
    let b = scan_space(s, p);
    if b == p {
        return Err(mk_cut(TypeErrorKind::MapSeparator, p));
    }
    if !lit_at(s, b, "=>") {
        return Err(mk_cut(TypeErrorKind::MapSeparator, b));
    }
    proof {
        lemma_space_end(s@, b + 2);
    }
    let c = scan_space(s, b + 2);
    if c == b + 2 {
        return Err(mk_cut(TypeErrorKind::MapSeparator, b + 2));
    }
    let (value, q) = match parse_datatype_at(s, c) {
        Err(f) => {
            return Err(f);
        },
        Ok(v) => v,
    };
    proof {
        lemma_space_end(s@, q as int);
    }
    let d = scan_space(s, q);
    if !(d < s.len() && s[d] == '}') {
        return Err(mk_back(d));
    }
    let t = DataType::Dictionary { key: Arc::new(key), value: Arc::new(value) };
    match parse_opt_modifiers(s, d + 1) {
        Err(f) => Err(f),
        Ok(None) => Ok((t, d + 1)),
        Ok(Some((_, e))) => Ok((t, e)),
    }
}

fn parse_array_at(s: &[char], k: usize) -> (res: Result<(DataType, usize), Failure>)
    requires
        k <= s@.len(),
    ensures
        dt_agree(res, spec_array(s@, k as int)),
        res matches Ok((_, p)) ==> k < p <= s@.len(),
        res matches Err(f) ==> f.pos <= s@.len(),
    decreases s@.len() - k, 0int,
{
    if !(k < s.len() && s[k] == '[') {
        return Err(mk_back(k));
    }
    let (t, p) = match parse_datatype_at(s, k + 1) {
        Err(f) => {
            return Err(f);
        },
        Ok(v) => v,
    };
    if !(p < s.len() && s[p] == ']') {
        return Err(mk_back(p));
    }
    let j = p + 1;
    match parse_opt_modifiers(s, j) {
        Err(f) => Err(f),
        Ok(None) => Ok((DataType::Array { size: ArraySize::Dynamic, inner: Arc::new(t) }, j)),
        Ok(Some((mods, q))) => match array_kind(s, &mods) {
            Err(e) => Err(mk_cut(e, j)),
            Ok(ArrayKind::Normal(z)) => Ok((DataType::Array { size: z, inner: Arc::new(t) }, q)),
            Ok(ArrayKind::Separated(sep, z)) => Ok(
                (DataType::StringArray { inner: Arc::new(t), separator: sep, size: z }, q),
            ),
        },
    }
}


// ---------------------------------------------------------------------
// Parsing a whole `type="..."` value
// ---------------------------------------------------------------------

/// The input of the datatype parser: the characters and the position
/// reached so far.
pub struct Input {
    pub chars: Vec<char>,
    pub pos: usize,
}

impl Input {
    /// An input positioned at the start of `s`.
    pub fn new(s: &str) -> (r: Input)
        ensures
            r.chars@ == s@,
            r.pos == 0,
    {
        Input { chars: chars_of(s), pos: 0 }
    }
}

/// Parses one datatype at the input's position and moves past it; on
/// failure the position is where the parser stopped.
pub fn parse_datatype(input: &mut Input) -> (res: Result<DataType, TypeError>)
    requires
        old(input).pos <= old(input).chars@.len(),
    ensures
        final(input).chars@ == old(input).chars@,
        match spec_datatype(old(input).chars@, old(input).pos as int) {
            Ok((t, p)) => res matches Ok(d) && d.model() == t && final(input).pos == p,
            Err(f) => res == Err::<DataType, TypeError>(f.error) && final(input).pos == f.pos,
        },
{
    match parse_datatype_at(input.chars.as_slice(), input.pos) {
        Ok((d, p)) => {
            input.pos = p;
            Ok(d)
        },
        Err(f) => {
            input.pos = f.pos;
            Err(f.error)
        },
    }
}

/// A datatype that spans the whole input.
pub open spec fn spec_full_datatype(s: Seq<char>) -> Result<TypeModel, Failure> {
    match spec_datatype(s, 0) {
        Err(f) => Err(f),
        Ok((t, p)) => if p == s.len() {
            Ok(t)
        } else {
            Err(back(p as int))
        },
    }
}

/// Number of bytes of `c` in UTF-8.
pub open spec fn utf8_len(c: char) -> nat {
    if (c as u32) < 0x80 {
        1
    } else if (c as u32) < 0x800 {
        2
    } else if (c as u32) < 0x10000 {
        3
    } else {
        4
    }
}

/// Number of bytes of `s` in UTF-8.
pub open spec fn utf8_size(s: Seq<char>) -> nat
    decreases s.len(),
{
    if s.len() == 0 {
        0
    } else {
        utf8_size(s.drop_last()) + utf8_len(s.last())
    }
}

proof fn lemma_utf8_prefix(s: Seq<char>, k: int)
    requires
        0 <= k <= s.len(),
    ensures
        utf8_size(s.take(k)) <= utf8_size(s),
        k < s.len() ==> utf8_size(s.take(k)) + utf8_len(s[k]) <= utf8_size(s),
    decreases s.len(),
{
    if k < s.len() {
        if k + 1 < s.len() {
            lemma_utf8_prefix(s.drop_last(), k);
            lemma_utf8_prefix(s.drop_last(), k + 1);
            assert(s.drop_last().take(k) =~= s.take(k));
            assert(s.drop_last().take(k + 1) =~= s.take(k + 1));
            assert(s.take(k + 1).drop_last() =~= s.take(k));
        } else {
            assert(s.drop_last() =~= s.take(k));
        }
    } else {
        assert(s.take(k) =~= s);
    }
}

fn utf8_len_of(c: char) -> (r: usize)
    ensures
        r == utf8_len(c),
{
    let u = c as u32;
    if u < 0x80 {
        1
    } else if u < 0x800 {
        2
    } else if u < 0x10000 {
        3
    } else {
        4
    }
}

/// `x`, or `usize::MAX` when it does not fit.
pub open spec fn saturated(x: int) -> usize {
    if x > usize::MAX {
        usize::MAX
    } else {
        x as usize
    }
}

/// Byte offset of the character at index `pos` (saturated).
fn byte_offset(s: &[char], pos: usize) -> (r: usize)
    requires
        pos <= s@.len(),
    ensures
        r == saturated(utf8_size(s@.take(pos as int)) as int),
{
    let mut r: usize = 0;
    let mut t: usize = 0;
    assert(s@.take(0) =~= Seq::<char>::empty());
    while t < pos
        invariant
            t <= pos <= s@.len(),
            r == saturated(utf8_size(s@.take(t as int)) as int),
        decreases pos - t,
    {
        assert(s@.take(t + 1).drop_last() =~= s@.take(t as int));
        r = r.saturating_add(utf8_len_of(s[t]));
        t = t + 1;
    }
    r
}

/// The byte span reported for a failure at character `pos` of a
/// `type="..."` value whose property starts at byte `at`: the bytes of the
/// character there, or an empty span at the end of the value. Offsets that
/// do not fit in `usize` are saturated.
pub open spec fn failure_span(s: Seq<char>, pos: int, at: int) -> Span {
    let start = at + 6 + utf8_size(s.take(pos));
    let end = if pos >= s.len() {
        start
    } else {
        start + utf8_len(s[pos])
    };
    Span { offset: saturated(start), len: (saturated(end) - saturated(start)) as usize }
}

/// `s[a..b]`, or nothing when the range is not within `s`.
pub open spec fn sub_or_empty(s: Seq<char>, a: int, b: int) -> Seq<char> {
    if 0 <= a <= b <= s.len() {
        s.subrange(a, b)
    } else {
        Seq::empty()
    }
}

/// Replacement suggested for the legacy name with index `k`.
pub open spec fn legacy_replacement(k: int) -> Seq<char> {
    if k == 0 {
        "i32::int"@
    } else if k == 1 {
        "i32::str"@
    } else if k == 2 {
        "i64::int"@
    } else if k == 3 {
        "i64::str"@
    } else if k == 4 {
        "f32::int"@
    } else if k == 5 {
        "f32::str"@
    } else if k == 6 {
        "f64::int"@
    } else if k == 7 {
        "f64::str"@
    } else if k == 8 || k == 9 {
        "bool::int"@
    } else if k == 10 || k == 11 {
        "bool::str"@
    } else if k == 12 {
        "\"[...]::sep(comma)\""@
    } else if k == 13 {
        "\"[...]::sep(at)\""@
    } else if k == 14 {
        "\"[...]::sep(colon)\""@
    } else {
        "\"datetime-unix\""@
    }
}

/// The message shown for an error.
pub open spec fn kind_message(s: Seq<char>, k: TypeErrorKind) -> Seq<char> {
    match k {
        TypeErrorKind::IntLikeNeedsEncoding(p) => "integer-like type `"@ + prim_name(p)
            + "` requires an encoding"@,
        TypeErrorKind::NoEncodingInModifiers(p) => "no encoding specified when parsing modifiers of type `"@
            + prim_name(p) + "`"@,
        TypeErrorKind::LegacyDatatype(i) => "Found legacy Python datatype `"@ + legacy_name(
            i as int,
        ) + "`."@,
        TypeErrorKind::MapSeparator => "expected separator ` => ` in map"@,
        TypeErrorKind::SizeNeedsCount => "array modifier `size` needs to include the number of elements"@,
        TypeErrorKind::BadSizeValue { start, end } => "unexpected argument value `"@ + sub_or_empty(
            s,
            start as int,
            end as int,
        ) + "` in array modifier `size`"@,
        TypeErrorKind::NonPositiveSize { start, end } => "fixed array size `"@ + sub_or_empty(
            s,
            start as int,
            end as int,
        ) + "` is <= 0"@,
        TypeErrorKind::MultipleSizes => "multiple sizes specified for array"@,
        TypeErrorKind::SeparatorNeedsValue => "array modifier `sep` needs to include the separator"@,
        TypeErrorKind::UnknownSeparator { start, end } => "unknown separator "@ + sub_or_empty(
            s,
            start as int,
            end as int,
        ),
        TypeErrorKind::MultipleSeparators => "multiple separators specified for string array"@,
        TypeErrorKind::ModifierSpacing => "expected modifiers in modifier list to be separated by comma _and_ a space"@,
        TypeErrorKind::ModifierExpected => "expected modifier or modifier list required after '::' in type definition"@,
    }
}

/// The help shown for an error.
pub open spec fn kind_help(k: TypeErrorKind) -> Seq<char> {
    match k {
        TypeErrorKind::IntLikeNeedsEncoding(p) => "specify either "@ + prim_name(p) + "::int or "@
            + prim_name(p) + "::str"@,
        TypeErrorKind::NoEncodingInModifiers(p) => "specify one of `"@ + prim_name(p)
            + "::str` or `"@ + prim_name(p) + "::int`"@,
        TypeErrorKind::LegacyDatatype(i) => "Replace it with `"@ + legacy_replacement(i as int)
            + "`."@,
        TypeErrorKind::MapSeparator => "a map is defined as `%{foo => bar}`."@,
        TypeErrorKind::SizeNeedsCount => "add one of `::size(1)`, `::size(n)`"@,
        TypeErrorKind::BadSizeValue { .. } => "use one of `::size(1)`, `::size(42)` or `::size(n)`"@,
        TypeErrorKind::NonPositiveSize { .. } => "use a strictly positive size such as `::size(42)`"@,
        TypeErrorKind::MultipleSizes => "please specify only one size between `::size(1)`, `::size(42)`, `::size(n)`"@,
        TypeErrorKind::SeparatorNeedsValue => "add one of `::sep(at)`, `::sep(colon)`, `::sep(comma)`"@,
        TypeErrorKind::UnknownSeparator { .. } => "use one of `::sep(at)`, `::sep(colon)`, `::sep(pipe)`, `::sep(comma)`"@,
        TypeErrorKind::MultipleSeparators => "please specify only one separator."@,
        TypeErrorKind::ModifierSpacing => "like so: {foo, bar}"@,
        TypeErrorKind::ModifierExpected => "add either a modifier (`::foo`) or a modifier list (`::{foo, bar}`), note that the latter is separated by comma _and_ space"@,
    }
}

fn concat2(a: &str, b: &str) -> (r: String)
    ensures
        r@ == a@ + b@,
{
    let mut r = a.to_owned();
    r.append(b);
    r
}

fn concat3(a: &str, b: &str, c: &str) -> (r: String)
    ensures
        r@ == a@ + b@ + c@,
{
    let mut r = a.to_owned();
    r.append(b);
    r.append(c);
    r
}

fn legacy_replacement_str(k: usize) -> (r: &'static str)
    ensures
        r@ == legacy_replacement(k as int),
{
    if k == 0 {
        "i32::int"
    } else if k == 1 {
        "i32::str"
    } else if k == 2 {
        "i64::int"
    } else if k == 3 {
        "i64::str"
    } else if k == 4 {
        "f32::int"
    } else if k == 5 {
        "f32::str"
    } else if k == 6 {
        "f64::int"
    } else if k == 7 {
        "f64::str"
    } else if k == 8 || k == 9 {
        "bool::int"
    } else if k == 10 || k == 11 {
        "bool::str"
    } else if k == 12 {
        "\"[...]::sep(comma)\""
    } else if k == 13 {
        "\"[...]::sep(at)\""
    } else if k == 14 {
        "\"[...]::sep(colon)\""
    } else {
        "\"datetime-unix\""
    }
}

fn text_of_range(s: &[char], a: usize, b: usize) -> (r: String)
    ensures
        r@ == sub_or_empty(s@, a as int, b as int),
{
    if a <= b && b <= s.len() {
        string_of_chars(vstd::slice::slice_subrange(s, a, b))
    } else {
        String::new()
    }
}

fn message_of(s: &[char], k: TypeErrorKind) -> (r: String)
    ensures
        r@ == kind_message(s@, k),
{
    match k {
        TypeErrorKind::IntLikeNeedsEncoding(p) => concat3(
            "integer-like type `",
            prim_name_str(p),
            "` requires an encoding",
        ),
        TypeErrorKind::NoEncodingInModifiers(p) => concat3(
            "no encoding specified when parsing modifiers of type `",
            prim_name_str(p),
            "`",
        ),
        TypeErrorKind::LegacyDatatype(i) => {
            let name = if i < LEGACY_COUNT {
                legacy_name_str(i)
            } else {
                "datetimeunix"
            };
            concat3("Found legacy Python datatype `", name, "`.")
        },
        TypeErrorKind::MapSeparator => "expected separator ` => ` in map".to_owned(),
        TypeErrorKind::SizeNeedsCount => "array modifier `size` needs to include the number of elements".to_owned(),
        TypeErrorKind::BadSizeValue { start, end } => {
            let v = text_of_range(s, start, end);
            concat3("unexpected argument value `", v.as_str(), "` in array modifier `size`")
        },
        TypeErrorKind::NonPositiveSize { start, end } => {
            let v = text_of_range(s, start, end);
            concat3("fixed array size `", v.as_str(), "` is <= 0")
        },
        TypeErrorKind::MultipleSizes => "multiple sizes specified for array".to_owned(),
        TypeErrorKind::SeparatorNeedsValue => "array modifier `sep` needs to include the separator".to_owned(),
        TypeErrorKind::UnknownSeparator { start, end } => {
            let v = text_of_range(s, start, end);
            concat2("unknown separator ", v.as_str())
        },
        TypeErrorKind::MultipleSeparators => "multiple separators specified for string array".to_owned(),
        TypeErrorKind::ModifierSpacing => "expected modifiers in modifier list to be separated by comma _and_ a space".to_owned(),
        TypeErrorKind::ModifierExpected => "expected modifier or modifier list required after '::' in type definition".to_owned(),
    }
}

fn help_of(k: TypeErrorKind) -> (r: String)
    ensures
        r@ == kind_help(k),
{
    match k {
        TypeErrorKind::IntLikeNeedsEncoding(p) => {
            let mut r = concat3("specify either ", prim_name_str(p), "::int or ");
            r.append(prim_name_str(p));
            r.append("::str");
            r
        },
        TypeErrorKind::NoEncodingInModifiers(p) => {
            let mut r = concat3("specify one of `", prim_name_str(p), "::str` or `");
            r.append(prim_name_str(p));
            r.append("::int`");
            r
        },
        TypeErrorKind::LegacyDatatype(i) => concat3("Replace it with `", legacy_replacement_str(i), "`."),
        TypeErrorKind::MapSeparator => "a map is defined as `%{foo => bar}`.".to_owned(),
        TypeErrorKind::SizeNeedsCount => "add one of `::size(1)`, `::size(n)`".to_owned(),
        TypeErrorKind::BadSizeValue { .. } => "use one of `::size(1)`, `::size(42)` or `::size(n)`".to_owned(),
        TypeErrorKind::NonPositiveSize { .. } => "use a strictly positive size such as `::size(42)`".to_owned(),
        TypeErrorKind::MultipleSizes => "please specify only one size between `::size(1)`, `::size(42)`, `::size(n)`".to_owned(),
        TypeErrorKind::SeparatorNeedsValue => "add one of `::sep(at)`, `::sep(colon)`, `::sep(comma)`".to_owned(),
        TypeErrorKind::UnknownSeparator { .. } => "use one of `::sep(at)`, `::sep(colon)`, `::sep(pipe)`, `::sep(comma)`".to_owned(),
        TypeErrorKind::MultipleSeparators => "please specify only one separator.".to_owned(),
        TypeErrorKind::ModifierSpacing => "like so: {foo, bar}".to_owned(),
        TypeErrorKind::ModifierExpected => "add either a modifier (`::foo`) or a modifier list (`::{foo, bar}`), note that the latter is separated by comma _and_ space".to_owned(),
    }
}

/// `d` reports the error `k` at `span`, with nothing related.
pub open spec fn is_kind_diagnostic(
    d: Diagnostic,
    s: Seq<char>,
    k: TypeErrorKind,
    src: Arc<SourceInfo>,
    span: Span,
) -> bool {
    &&& d.message@ == kind_message(s, k)
    &&& d.help matches Some(h) && h@ == kind_help(k)
    &&& d.severity == Severity::Error
    &&& d.source_info == src
    &&& d.span == span
    &&& d.label is None
    &&& d.related@.len() == 0
}

/// `d` reports the failure `f` of parsing the `type="..."` value `s`,
/// whose property starts at byte `at`.
pub open spec fn is_failure_diagnostic(
    d: Diagnostic,
    s: Seq<char>,
    f: Failure,
    src: Arc<SourceInfo>,
    at: int,
) -> bool {
    &&& d.severity == Severity::Error
    &&& d.source_info == src
    &&& d.span == failure_span(s, f.pos as int, at)
    &&& d.label is None
    &&& match f.error.cause {
        Some(k) => d.message@ == kind_message(s, k) && (d.help matches Some(h) && h@ == kind_help(k)),
        None => d.message@ == "unknown error when parsing type"@ && d.help is None,
    }
    &&& match f.error.context {
        None => d.related@.len() == 0,
        Some(c) => d.related@.len() == 1 && is_kind_diagnostic(d.related@[0], s, c, src, d.span),
    }
}

fn kind_diagnostic(s: &[char], k: TypeErrorKind, src: &Arc<SourceInfo>, span: Span) -> (d: Diagnostic)
    ensures
        is_kind_diagnostic(d, s@, k, *src, span),
{
    Diagnostic {
        message: message_of(s, k),
        severity: Severity::Error,
        source_info: share_source(src),
        span,
        help: Some(help_of(k)),
        label: None,
        related: Vec::new(),
    }
}

/// Parses a `type="..."` value that must hold exactly one datatype.
///
/// `span` is the span of the property in `source_code`; errors point at
/// the character where parsing stopped.
pub fn generic_parse(
    input: &str,
    _encoding: Option<IntLikeEncoding>,
    source_code: &Arc<SourceInfo>,
    span: Span,
) -> (res: Result<DataType, ParsingError>)
    ensures
        match spec_full_datatype(input@) {
            Ok(t) => res matches Ok(d) && d.model() == t,
            Err(f) => res matches Err(ParsingError::Diagnostics { source_info, diagnostics })
                && source_info == *source_code && diagnostics@.len() == 1 && is_failure_diagnostic(
                diagnostics@[0],
                input@,
                f,
                *source_code,
                span.offset as int,
            ),
        },
{
    let s = chars_of(input);
    let failure = match parse_datatype_at(s.as_slice(), 0) {
        Ok((d, p)) => {
            if p == s.len() {
                return Ok(d);
            }
            mk_back(p)
        },
        Err(f) => f,
    };
    let start = span.offset.saturating_add(6).saturating_add(byte_offset(s.as_slice(), failure.pos));
    let end = if failure.pos < s.len() {
        start.saturating_add(utf8_len_of(s[failure.pos]))
    } else {
        start
    };
    let err_span = Span { offset: start, len: end - start };
    let related = match failure.error.context {
        None => Vec::new(),
        Some(c) => {
            let mut v: Vec<Diagnostic> = Vec::new();
            v.push(kind_diagnostic(s.as_slice(), c, source_code, err_span));
            v
        },
    };
    let diag = match failure.error.cause {
        Some(k) => Diagnostic {
            message: message_of(s.as_slice(), k),
            severity: Severity::Error,
            source_info: share_source(source_code),
            span: err_span,
            help: Some(help_of(k)),
            label: None,
            related,
        },
        None => Diagnostic {
            message: "unknown error when parsing type".to_owned(),
            severity: Severity::Error,
            source_info: share_source(source_code),
            span: err_span,
            help: None,
            label: None,
            related,
        },
    };
    Err(ParsingError::from_diagnostic(diag))
}

} // verus!
