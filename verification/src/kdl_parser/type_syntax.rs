//! Written datatypes that the grammar of [`super::type_parser`] accepts:
//! a syntax of datatypes, how each is written, and the proof that the
//! parser reads every datatype so written.

use vstd::prelude::*;
use super::to_intermediate::{converts, law_encoding_kept};
use crate::intermediate::schema::{DataType, Encoding};
use super::schema::{ArraySeparator, ArraySize, BoolEncoding, IntLikeEncoding, JsonEncoding, TypeModel};
use super::type_parser::{
    alnum_end, has_lit, is_alnum, is_alpha, is_space, lemma_space_end, param_list_end, space_end, spec_list_rest, spec_modifier, spec_modifiers, spec_opt_modifiers, spells, Modifier,
    all_digits, digits_value, last_of_two, named, size_of_modifier, sep_of_modifier, spec_sizes, spec_seps,
    spec_array_kind, spec_leaf, spec_intlike, spec_keyword, spec_bool, spec_custom, spec_datatype, spec_map, spec_array,
    spec_full_datatype, prim_name, prim_model, ArrayKind, PrimKind, back, Failure, legacy_index_from, legacy_name, last_int_encoding, LEGACY_COUNT,
};

verus! {

/// A non-empty run of ASCII letters and digits.
pub open spec fn alnum_word(w: Seq<char>) -> bool {
    w.len() > 0 && forall|k: int| 0 <= k < w.len() ==> is_alnum(#[trigger] w[k])
}

/// Where `w` is written at `i`, its parts are too.
pub proof fn lemma_has_lit_split(s: Seq<char>, i: int, a: Seq<char>, b: Seq<char>)
    requires
        has_lit(s, i, a + b),
    ensures
        has_lit(s, i, a),
        has_lit(s, i + a.len(), b),
{
    assert(s.subrange(i, i + a.len()) =~= (a + b).subrange(0, a.len() as int));
    assert((a + b).subrange(0, a.len() as int) =~= a);
    assert(s.subrange(i + a.len(), i + a.len() + b.len()) =~= (a + b).subrange(a.len() as int, (a + b).len() as int));
    assert((a + b).subrange(a.len() as int, (a + b).len() as int) =~= b);
}

/// The character at position `k` of a text written at `i`.
pub proof fn lemma_has_lit_at(s: Seq<char>, i: int, w: Seq<char>, k: int)
    requires
        has_lit(s, i, w),
        0 <= k < w.len(),
    ensures
        s[i + k] == w[k],
{
    assert(s.subrange(i, i + w.len())[k] == s[i + k]);
}

/// A run of letters and digits written at `i` and not followed by one is
/// read whole.
pub proof fn lemma_alnum_word(s: Seq<char>, i: int, w: Seq<char>)
    requires
        has_lit(s, i, w),
        forall|k: int| 0 <= k < w.len() ==> is_alnum(#[trigger] w[k]),
        i + w.len() < s.len() ==> !is_alnum(s[i + w.len()]),
    ensures
        alnum_end(s, i) == i + w.len(),
    decreases w.len(),
{
    if w.len() == 0 {
    } else {
        lemma_has_lit_at(s, i, w, 0);
        assert(is_alnum(w[0]));
        let w1 = w.drop_first();
        assert(seq![w[0]] + w1 =~= w);
        lemma_has_lit_split(s, i, seq![w[0]], w1);
        assert forall|k: int| 0 <= k < w1.len() implies is_alnum(#[trigger] w1[k]) by {
            assert(w1[k] == w[k + 1]);
        }
        lemma_alnum_word(s, i + 1, w1);
    }
}

/// `, w1, w2, ...`: each word after a comma and a space.
pub open spec fn comma_list(ws: Seq<Seq<char>>) -> Seq<char>
    decreases ws.len(),
{
    if ws.len() == 0 {
        Seq::empty()
    } else {
        seq![',', ' '] + ws[0] + comma_list(ws.drop_first())
    }
}

/// A modifier as written: a name, and parameters in brackets if it has
/// any.
pub struct ModSyntax {
    pub name: Seq<char>,
    pub params: Seq<Seq<char>>,
}

/// The modifier's name and parameters are runs of letters and digits.
pub open spec fn mod_wf(m: ModSyntax) -> bool {
    &&& alnum_word(m.name)
    &&& forall|k: int| 0 <= k < m.params.len() ==> alnum_word(#[trigger] m.params[k])
}

/// `name` or `name(p1, p2, ...)`.
pub open spec fn mod_text(m: ModSyntax) -> Seq<char> {
    if m.params.len() == 0 {
        m.name
    } else {
        m.name + seq!['('] + m.params[0] + comma_list(m.params.drop_first()) + seq![')']
    }
}

/// How the parser records the modifier `m` written at `i`: its name and
/// its first parameter, as ranges.
pub open spec fn mod_model(m: ModSyntax, i: int) -> Modifier {
    Modifier {
        name_start: i as usize,
        name_end: (i + m.name.len()) as usize,
        param: if m.params.len() == 0 {
            None
        } else {
            Some(((i + m.name.len() + 1) as usize, (i + m.name.len() + 1 + m.params[0].len()) as usize))
        },
    }
}

/// A character that can follow a datatype or a modifier.
pub open spec fn ends_word(s: Seq<char>, j: int) -> bool {
    j < s.len() ==> !is_alnum(s[j]) && s[j] != '('
}

proof fn lemma_space_one(s: Seq<char>, p: int)
    requires
        0 <= p,
        p + 1 < s.len(),
        s[p] == ' ',
        !is_space(s[p + 1]),
    ensures
        space_end(s, p) == p + 1,
{
    assert(space_end(s, p + 1) == p + 1);
}

proof fn lemma_param_list(s: Seq<char>, p: int, ws: Seq<Seq<char>>)
    requires
        s.len() <= usize::MAX,
        0 <= p,
        has_lit(s, p, comma_list(ws) + seq![')']),
        forall|k: int| 0 <= k < ws.len() ==> alnum_word(#[trigger] ws[k]),
    ensures
        param_list_end(s, p) == p + comma_list(ws).len(),
    decreases ws.len(),
{
    if ws.len() == 0 {
        assert(comma_list(ws) + seq![')'] =~= seq![')']);
        lemma_has_lit_at(s, p, seq![')'], 0);
    } else {
        let rest = ws.drop_first();
        let w = ws[0];
        assert(alnum_word(w));
        assert(comma_list(ws) + seq![')'] =~= seq![',', ' '] + (w + (comma_list(rest) + seq![')'])));
        lemma_has_lit_split(s, p, seq![',', ' '], w + (comma_list(rest) + seq![')']));
        lemma_has_lit_split(s, p + 2, w, comma_list(rest) + seq![')']);
        lemma_has_lit_at(s, p, seq![',', ' '], 0);
        lemma_has_lit_at(s, p, seq![',', ' '], 1);
        lemma_has_lit_at(s, p + 2, w, 0);
        assert(is_alnum(w[0]));
        lemma_space_one(s, p + 1);
        let after = comma_list(rest) + seq![')'];
        if rest.len() == 0 {
            assert(after =~= seq![')']);
        } else {
            assert(after[0] == ',');
        }
        lemma_has_lit_at(s, p + 2 + w.len(), after, 0);
        lemma_alnum_word(s, p + 2, w);
        assert forall|k: int| 0 <= k < rest.len() implies alnum_word(#[trigger] rest[k]) by {
            assert(rest[k] == ws[k + 1]);
        }
        lemma_param_list(s, p + 2 + w.len(), rest);
        lemma_space_end(s, p + 1);
    }
}

/// A modifier written at `i` is read whole.
pub proof fn lemma_modifier(s: Seq<char>, i: int, m: ModSyntax)
    requires
        s.len() <= usize::MAX,
        0 <= i,
        has_lit(s, i, mod_text(m)),
        mod_wf(m),
        ends_word(s, i + mod_text(m).len()),
    ensures
        spec_modifier(s, i) == Some((mod_model(m, i), (i + mod_text(m).len()) as usize)),
{
    let n = m.name;
    if m.params.len() == 0 {
        lemma_alnum_word(s, i, n);
    } else {
        let p0 = m.params[0];
        let rest = m.params.drop_first();
        assert(alnum_word(p0));
        assert forall|k: int| 0 <= k < rest.len() implies alnum_word(#[trigger] rest[k]) by {
            assert(rest[k] == m.params[k + 1]);
        }
        assert(mod_text(m) =~= n + (seq!['('] + (p0 + (comma_list(rest) + seq![')']))));
        lemma_has_lit_split(s, i, n, seq!['('] + (p0 + (comma_list(rest) + seq![')'])));
        lemma_has_lit_split(s, i + n.len(), seq!['('], p0 + (comma_list(rest) + seq![')']));
        lemma_has_lit_split(s, i + n.len() + 1, p0, comma_list(rest) + seq![')']);
        lemma_has_lit_at(s, i + n.len(), seq!['('], 0);
        assert(!is_alnum('('));
        lemma_alnum_word(s, i, n);
        let after = comma_list(rest) + seq![')'];
        if rest.len() == 0 {
            assert(after =~= seq![')']);
        } else {
            assert(after[0] == ',');
        }
        lemma_has_lit_at(s, i + n.len() + 1 + p0.len(), after, 0);
        lemma_alnum_word(s, i + n.len() + 1, p0);
        lemma_param_list(s, i + n.len() + 1 + p0.len(), rest);
        let e = i + n.len() + 1 + p0.len() + comma_list(rest).len();
        lemma_has_lit_split(s, i + n.len() + 1 + p0.len(), comma_list(rest), seq![')']);
        lemma_has_lit_at(s, e, seq![')'], 0);
    }
}

/// `, m1, m2, ...`: each modifier after a comma and a space.
pub open spec fn mods_comma(ms: Seq<ModSyntax>) -> Seq<char>
    decreases ms.len(),
{
    if ms.len() == 0 {
        Seq::empty()
    } else {
        seq![',', ' '] + mod_text(ms[0]) + mods_comma(ms.drop_first())
    }
}

/// How the parser records the modifiers of `mods_comma(ms)` written at `p`.
pub open spec fn comma_models(ms: Seq<ModSyntax>, p: int) -> Seq<Modifier>
    decreases ms.len(),
{
    if ms.len() == 0 {
        Seq::empty()
    } else {
        seq![mod_model(ms[0], p + 2)] + comma_models(ms.drop_first(), p + 2 + mod_text(ms[0]).len())
    }
}

pub open spec fn all_mods_wf(ms: Seq<ModSyntax>) -> bool {
    forall|k: int| 0 <= k < ms.len() ==> mod_wf(#[trigger] ms[k])
}

proof fn lemma_list_rest(s: Seq<char>, p: int, ms: Seq<ModSyntax>, acc: Seq<Modifier>)
    requires
        s.len() <= usize::MAX,
        0 <= p,
        has_lit(s, p, mods_comma(ms) + seq!['}']),
        all_mods_wf(ms),
    ensures
        spec_list_rest(s, p, acc) == Ok::<(Seq<Modifier>, usize), super::type_parser::Failure>(
            (acc + comma_models(ms, p), (p + mods_comma(ms).len()) as usize),
        ),
    decreases ms.len(),
{
    if ms.len() == 0 {
        assert(mods_comma(ms) + seq!['}'] =~= seq!['}']);
        lemma_has_lit_at(s, p, seq!['}'], 0);
        assert(s[p] == '}');
        assert(mods_comma(ms).len() == 0);
        assert(acc + comma_models(ms, p) =~= acc);
    } else {
        let m = ms[0];
        let rest = ms.drop_first();
        assert(mod_wf(m));
        assert(all_mods_wf(rest)) by {
            assert forall|k: int| 0 <= k < rest.len() implies mod_wf(#[trigger] rest[k]) by {
                assert(rest[k] == ms[k + 1]);
            }
        }
        let after = mods_comma(rest) + seq!['}'];
        assert(mods_comma(ms) + seq!['}'] =~= seq![',', ' '] + (mod_text(m) + after));
        lemma_has_lit_split(s, p, seq![',', ' '], mod_text(m) + after);
        lemma_has_lit_split(s, p + 2, mod_text(m), after);
        lemma_has_lit_at(s, p, seq![',', ' '], 0);
        lemma_has_lit_at(s, p, seq![',', ' '], 1);
        assert(mod_text(m)[0] == m.name[0]);
        lemma_has_lit_at(s, p + 2, mod_text(m), 0);
        assert(is_alnum(m.name[0]));
        lemma_space_one(s, p + 1);
        lemma_space_end(s, p + 1);
        if rest.len() == 0 {
            assert(after =~= seq!['}']);
        } else {
            assert(after[0] == ',');
        }
        lemma_has_lit_at(s, p + 2 + mod_text(m).len(), after, 0);
        lemma_modifier(s, p + 2, m);
        let r = p + 2 + mod_text(m).len();
        lemma_list_rest(s, r, rest, acc.push(mod_model(m, p + 2)));
        assert(acc.push(mod_model(m, p + 2)) + comma_models(rest, r) =~= acc + comma_models(ms, p));
    }
}

/// What may follow a type's name: nothing, one modifier, or a list of
/// them in braces.
pub enum Suffix {
    Nothing,
    Single(ModSyntax),
    List(ModSyntax, Seq<ModSyntax>),
}

/// `::m` or `::{m1, m2, ...}`.
pub open spec fn suffix_text(x: Suffix) -> Seq<char> {
    match x {
        Suffix::Nothing => Seq::empty(),
        Suffix::Single(m) => seq![':', ':'] + mod_text(m),
        Suffix::List(m, ms) => seq![':', ':', '{'] + mod_text(m) + mods_comma(ms) + seq!['}'],
    }
}

/// The modifiers written, in order.
pub open spec fn suffix_mods(x: Suffix) -> Seq<ModSyntax> {
    match x {
        Suffix::Nothing => Seq::empty(),
        Suffix::Single(m) => seq![m],
        Suffix::List(m, ms) => seq![m] + ms,
    }
}

pub open spec fn suffix_wf(x: Suffix) -> bool {
    all_mods_wf(suffix_mods(x))
}

/// How the parser records the modifiers of a suffix written at `i`.
pub open spec fn suffix_models(x: Suffix, i: int) -> Seq<Modifier> {
    match x {
        Suffix::Nothing => Seq::empty(),
        Suffix::Single(m) => seq![mod_model(m, i + 2)],
        Suffix::List(m, ms) => seq![mod_model(m, i + 3)] + comma_models(ms, i + 3 + mod_text(m).len()),
    }
}

/// What can follow a suffix: for none, anything but `:`; after a single
/// modifier, no letter, digit or `(`.
pub open spec fn suffix_follows(s: Seq<char>, x: Suffix, j: int) -> bool {
    match x {
        Suffix::Nothing => j < s.len() ==> s[j] != ':',
        Suffix::Single(_) => ends_word(s, j),
        Suffix::List(_, _) => true,
    }
}

/// A suffix written at `i` is read whole.
pub proof fn lemma_suffix(s: Seq<char>, i: int, x: Suffix)
    requires
        s.len() <= usize::MAX,
        0 <= i,
        has_lit(s, i, suffix_text(x)),
        suffix_wf(x),
        suffix_follows(s, x, i + suffix_text(x).len()),
    ensures
        spec_opt_modifiers(s, i) == match x {
            Suffix::Nothing => Ok::<Option<(Seq<Modifier>, usize)>, super::type_parser::Failure>(None),
            _ => Ok(Some((suffix_models(x, i), (i + suffix_text(x).len()) as usize))),
        },
{
    match x {
        Suffix::Nothing => {
            assert(suffix_text(x).len() == 0);
            assert(i < s.len() ==> s[i] != ':');
            assert(!(0 <= i && i + 2 <= s.len() && s[i] == ':' && s[i + 1] == ':'));
            assert(spec_modifiers(s, i) == Err::<(Seq<Modifier>, usize), super::type_parser::Failure>(super::type_parser::back(i)));
            assert(!super::type_parser::back(i).cut);
        },
        Suffix::Single(m) => {
            assert(suffix_mods(x)[0] == m);
            assert(mod_wf(m));
            lemma_has_lit_split(s, i, seq![':', ':'], mod_text(m));
            lemma_has_lit_at(s, i, seq![':', ':'], 0);
            lemma_has_lit_at(s, i, seq![':', ':'], 1);
            assert(mod_text(m)[0] == m.name[0]);
            lemma_has_lit_at(s, i + 2, mod_text(m), 0);
            assert(is_alnum(m.name[0]));
            lemma_modifier(s, i + 2, m);
        },
        Suffix::List(m, ms) => {
            assert(suffix_mods(x)[0] == m);
            assert(mod_wf(m));
            assert(all_mods_wf(ms)) by {
                assert forall|k: int| 0 <= k < ms.len() implies mod_wf(#[trigger] ms[k]) by {
                    assert(ms[k] == suffix_mods(x)[k + 1]);
                }
            }
            let after = mods_comma(ms) + seq!['}'];
            assert(suffix_text(x) =~= seq![':', ':', '{'] + (mod_text(m) + after));
            lemma_has_lit_split(s, i, seq![':', ':', '{'], mod_text(m) + after);
            lemma_has_lit_split(s, i + 3, mod_text(m), after);
            lemma_has_lit_at(s, i, seq![':', ':', '{'], 0);
            lemma_has_lit_at(s, i, seq![':', ':', '{'], 1);
            lemma_has_lit_at(s, i, seq![':', ':', '{'], 2);
            if ms.len() == 0 {
                assert(after =~= seq!['}']);
            } else {
                assert(after[0] == ',');
            }
            lemma_has_lit_at(s, i + 3 + mod_text(m).len(), after, 0);
            lemma_modifier(s, i + 3, m);
            let r = i + 3 + mod_text(m).len();
            lemma_list_rest(s, r, ms, seq![mod_model(m, i + 3)]);
            let e = r + mods_comma(ms).len();
            lemma_has_lit_split(s, r, mods_comma(ms), seq!['}']);
            lemma_has_lit_at(s, e, seq!['}'], 0);
        },
    }
}

/// The parser's record `md` is of the modifier `m`: same name, and same
/// first parameter.
pub open spec fn written(s: Seq<char>, md: Modifier, m: ModSyntax) -> bool {
    &&& spells(s, md.name_start as int, md.name_end as int, m.name)
    &&& match md.param {
        None => m.params.len() == 0,
        Some((a, b)) => m.params.len() > 0 && spells(s, a as int, b as int, m.params[0]),
    }
}

/// Each record is of the modifier at its place.
pub open spec fn all_written(s: Seq<char>, mds: Seq<Modifier>, ms: Seq<ModSyntax>) -> bool {
    &&& mds.len() == ms.len()
    &&& forall|k: int| 0 <= k < ms.len() ==> written(s, #[trigger] mds[k], ms[k])
}

proof fn lemma_mod_written(s: Seq<char>, i: int, m: ModSyntax)
    requires
        s.len() <= usize::MAX,
        0 <= i,
        has_lit(s, i, mod_text(m)),
    ensures
        written(s, mod_model(m, i), m),
{
    if m.params.len() == 0 {
    } else {
        let p0 = m.params[0];
        let rest = m.params.drop_first();
        assert(mod_text(m) =~= m.name + (seq!['('] + (p0 + (comma_list(rest) + seq![')']))));
        lemma_has_lit_split(s, i, m.name, seq!['('] + (p0 + (comma_list(rest) + seq![')'])));
        lemma_has_lit_split(s, i + m.name.len(), seq!['('], p0 + (comma_list(rest) + seq![')']));
        lemma_has_lit_split(s, i + m.name.len() + 1, p0, comma_list(rest) + seq![')']);
    }
    assert(m.name + mod_text(m).subrange(m.name.len() as int, mod_text(m).len() as int) =~= mod_text(m));
    lemma_has_lit_split(s, i, m.name, mod_text(m).subrange(m.name.len() as int, mod_text(m).len() as int));
}

proof fn lemma_comma_written(s: Seq<char>, p: int, ms: Seq<ModSyntax>)
    requires
        s.len() <= usize::MAX,
        0 <= p,
        has_lit(s, p, mods_comma(ms)),
    ensures
        all_written(s, comma_models(ms, p), ms),
    decreases ms.len(),
{
    if ms.len() > 0 {
        let m = ms[0];
        let rest = ms.drop_first();
        assert(mods_comma(ms) =~= seq![',', ' '] + (mod_text(m) + mods_comma(rest)));
        lemma_has_lit_split(s, p, seq![',', ' '], mod_text(m) + mods_comma(rest));
        lemma_has_lit_split(s, p + 2, mod_text(m), mods_comma(rest));
        lemma_mod_written(s, p + 2, m);
        lemma_comma_written(s, p + 2 + mod_text(m).len(), rest);
        let mds = comma_models(ms, p);
        assert forall|k: int| 0 <= k < ms.len() implies written(s, #[trigger] mds[k], ms[k]) by {
            if k > 0 {
                assert(mds[k] == comma_models(rest, p + 2 + mod_text(m).len())[k - 1]);
                assert(ms[k] == rest[k - 1]);
            }
        }
    }
}

/// The records of a suffix written at `i` are of its modifiers.
pub proof fn lemma_suffix_written(s: Seq<char>, i: int, x: Suffix)
    requires
        s.len() <= usize::MAX,
        0 <= i,
        has_lit(s, i, suffix_text(x)),
    ensures
        all_written(s, suffix_models(x, i), suffix_mods(x)),
{
    match x {
        Suffix::Nothing => {},
        Suffix::Single(m) => {
            lemma_has_lit_split(s, i, seq![':', ':'], mod_text(m));
            lemma_mod_written(s, i + 2, m);
        },
        Suffix::List(m, ms) => {
            assert(suffix_text(x) =~= seq![':', ':', '{'] + (mod_text(m) + (mods_comma(ms) + seq!['}'])));
            lemma_has_lit_split(s, i, seq![':', ':', '{'], mod_text(m) + (mods_comma(ms) + seq!['}']));
            lemma_has_lit_split(s, i + 3, mod_text(m), mods_comma(ms) + seq!['}']);
            lemma_has_lit_split(s, i + 3 + mod_text(m).len(), mods_comma(ms), seq!['}']);
            lemma_mod_written(s, i + 3, m);
            lemma_comma_written(s, i + 3 + mod_text(m).len(), ms);
            let mds = suffix_models(x, i);
            let sm = suffix_mods(x);
            assert forall|k: int| 0 <= k < sm.len() implies written(s, #[trigger] mds[k], sm[k]) by {
                if k > 0 {
                    assert(mds[k] == comma_models(ms, i + 3 + mod_text(m).len())[k - 1]);
                    assert(sm[k] == ms[k - 1]);
                }
            }
        },
    }
}

/// Which of the names `a` or `b` the last modifier called one of them has.
pub open spec fn last_named(ms: Seq<ModSyntax>, a: Seq<char>, b: Seq<char>) -> Option<bool>
    decreases ms.len(),
{
    if ms.len() == 0 {
        None
    } else if ms.last().name == a {
        Some(true)
    } else if ms.last().name == b {
        Some(false)
    } else {
        last_named(ms.drop_last(), a, b)
    }
}

pub proof fn lemma_last_named(s: Seq<char>, mds: Seq<Modifier>, ms: Seq<ModSyntax>, a: Seq<char>, b: Seq<char>)
    requires
        all_written(s, mds, ms),
    ensures
        last_of_two(s, mds, a, b) == last_named(ms, a, b),
    decreases ms.len(),
{
    if ms.len() > 0 {
        assert(written(s, mds[mds.len() - 1], ms[ms.len() - 1]));
        assert(all_written(s, mds.drop_last(), ms.drop_last())) by {
            assert forall|k: int| 0 <= k < ms.drop_last().len() implies written(s, #[trigger] mds.drop_last()[k], ms.drop_last()[k]) by {
                assert(written(s, mds[k], ms[k]));
            }
        }
        lemma_last_named(s, mds.drop_last(), ms.drop_last(), a, b);
    }
}

/// A `size` modifier that makes sense: `size(n)` or a count from one to
/// `usize::MAX`.
pub open spec fn size_ok(m: ModSyntax) -> bool {
    m.params.len() > 0 && (m.params[0] == "n"@ || (all_digits(m.params[0]) && 1 <= digits_value(m.params[0])
        <= usize::MAX))
}

/// A `sep` modifier that makes sense: one of the four separators.
pub open spec fn sep_ok(m: ModSyntax) -> bool {
    m.params.len() > 0 && (m.params[0] == "at"@ || m.params[0] == "colon"@ || m.params[0] == "comma"@ || m.params[0]
        == "pipe"@)
}

/// How many of the modifiers are called `w`.
pub open spec fn count_named(ms: Seq<ModSyntax>, w: Seq<char>) -> nat
    decreases ms.len(),
{
    if ms.len() == 0 {
        0
    } else {
        count_named(ms.drop_last(), w) + if ms.last().name == w {
            1nat
        } else {
            0nat
        }
    }
}

/// The modifiers of an array that make sense: at most one size and one
/// separator, each of which makes sense.
pub open spec fn array_mods_ok(ms: Seq<ModSyntax>) -> bool {
    &&& count_named(ms, "size"@) <= 1
    &&& count_named(ms, "sep"@) <= 1
    &&& forall|k: int| 0 <= k < ms.len() && #[trigger] ms[k].name == "size"@ ==> size_ok(ms[k])
    &&& forall|k: int| 0 <= k < ms.len() && #[trigger] ms[k].name == "sep"@ ==> sep_ok(ms[k])
}

/// The size a `size` modifier gives.
pub open spec fn size_value(m: ModSyntax) -> ArraySize {
    if m.params[0] == "n"@ {
        ArraySize::Dynamic
    } else {
        ArraySize::Fixed(digits_value(m.params[0]) as usize)
    }
}

/// The separator a `sep` modifier gives.
pub open spec fn sep_value(m: ModSyntax) -> ArraySeparator {
    if m.params[0] == "at"@ {
        ArraySeparator::At
    } else if m.params[0] == "colon"@ {
        ArraySeparator::Colon
    } else if m.params[0] == "comma"@ {
        ArraySeparator::Comma
    } else {
        ArraySeparator::Pipe
    }
}

/// The sizes the modifiers give, in order.
pub open spec fn sizes_of(ms: Seq<ModSyntax>) -> Seq<ArraySize>
    decreases ms.len(),
{
    if ms.len() == 0 {
        Seq::empty()
    } else {
        sizes_of(ms.drop_last()) + if ms.last().name == "size"@ {
            seq![size_value(ms.last())]
        } else {
            Seq::empty()
        }
    }
}

/// The separators the modifiers give, in order.
pub open spec fn seps_of(ms: Seq<ModSyntax>) -> Seq<ArraySeparator>
    decreases ms.len(),
{
    if ms.len() == 0 {
        Seq::empty()
    } else {
        seps_of(ms.drop_last()) + if ms.last().name == "sep"@ {
            seq![sep_value(ms.last())]
        } else {
            Seq::empty()
        }
    }
}

/// The shape the modifiers of an array give it: the size given, else an
/// unbounded one, and, with a separator, a string of separated items.
pub open spec fn array_kind_of(ms: Seq<ModSyntax>) -> ArrayKind {
    let size = if sizes_of(ms).len() == 1 {
        sizes_of(ms)[0]
    } else {
        ArraySize::Dynamic
    };
    if seps_of(ms).len() == 1 {
        ArrayKind::Separated(seps_of(ms)[0], size)
    } else {
        ArrayKind::Normal(size)
    }
}

proof fn lemma_sizes_ok(s: Seq<char>, mds: Seq<Modifier>, ms: Seq<ModSyntax>)
    requires
        all_written(s, mds, ms),
        forall|k: int| 0 <= k < ms.len() && #[trigger] ms[k].name == "size"@ ==> size_ok(ms[k]),
    ensures
        spec_sizes(s, mds) == Ok::<Seq<ArraySize>, super::type_parser::TypeErrorKind>(sizes_of(ms)),
        sizes_of(ms).len() == count_named(ms, "size"@),
    decreases ms.len(),
{
    if ms.len() > 0 {
        let l = ms.len() - 1;
        assert(written(s, mds[l], ms[l]));
        assert(all_written(s, mds.drop_last(), ms.drop_last())) by {
            assert forall|k: int| 0 <= k < ms.drop_last().len() implies written(s, #[trigger] mds.drop_last()[k], ms.drop_last()[k]) by {
                assert(written(s, mds[k], ms[k]));
            }
        }
        assert forall|k: int| 0 <= k < ms.drop_last().len() && #[trigger] ms.drop_last()[k].name == "size"@ implies size_ok(ms.drop_last()[k]) by {
            assert(ms.drop_last()[k] == ms[k]);
        }
        lemma_sizes_ok(s, mds.drop_last(), ms.drop_last());
        if ms[l].name == "size"@ {
            assert(size_ok(ms[l]));
            reveal_strlit("n");
            assert(named(s, mds[l], "size"@));
            match mds[l].param {
                Some((a, b)) => {
                    assert(s.subrange(a as int, b as int) == ms[l].params[0]);
                },
                None => {},
            }
            assert(size_of_modifier(s, mds[l]) == Some(Ok::<ArraySize, super::type_parser::TypeErrorKind>(size_value(ms[l]))));
            assert(sizes_of(ms) =~= sizes_of(ms.drop_last()).push(size_value(ms[l])));
        } else {
            assert(!named(s, mds[l], "size"@));
            assert(sizes_of(ms) =~= sizes_of(ms.drop_last()));
        }
    }
}

proof fn lemma_seps_ok(s: Seq<char>, mds: Seq<Modifier>, ms: Seq<ModSyntax>)
    requires
        all_written(s, mds, ms),
        forall|k: int| 0 <= k < ms.len() && #[trigger] ms[k].name == "sep"@ ==> sep_ok(ms[k]),
    ensures
        spec_seps(s, mds) == Ok::<Seq<ArraySeparator>, super::type_parser::TypeErrorKind>(seps_of(ms)),
        seps_of(ms).len() == count_named(ms, "sep"@),
    decreases ms.len(),
{
    if ms.len() > 0 {
        let l = ms.len() - 1;
        assert(written(s, mds[l], ms[l]));
        assert(all_written(s, mds.drop_last(), ms.drop_last())) by {
            assert forall|k: int| 0 <= k < ms.drop_last().len() implies written(s, #[trigger] mds.drop_last()[k], ms.drop_last()[k]) by {
                assert(written(s, mds[k], ms[k]));
            }
        }
        assert forall|k: int| 0 <= k < ms.drop_last().len() && #[trigger] ms.drop_last()[k].name == "sep"@ implies sep_ok(ms.drop_last()[k]) by {
            assert(ms.drop_last()[k] == ms[k]);
        }
        lemma_seps_ok(s, mds.drop_last(), ms.drop_last());
        if ms[l].name == "sep"@ {
            assert(sep_ok(ms[l]));
            assert(named(s, mds[l], "sep"@));
            reveal_strlit("at");
            reveal_strlit("colon");
            reveal_strlit("comma");
            reveal_strlit("pipe");
            match mds[l].param {
                Some((a, b)) => {
                    assert(s.subrange(a as int, b as int) == ms[l].params[0]);
                },
                None => {},
            }
            assert(sep_of_modifier(s, mds[l]) == Some(Ok::<ArraySeparator, super::type_parser::TypeErrorKind>(sep_value(ms[l]))));
            assert(seps_of(ms) =~= seps_of(ms.drop_last()).push(sep_value(ms[l])));
        } else {
            assert(!named(s, mds[l], "sep"@));
            assert(seps_of(ms) =~= seps_of(ms.drop_last()));
        }
    }
}

proof fn lemma_array_kind(s: Seq<char>, mds: Seq<Modifier>, ms: Seq<ModSyntax>)
    requires
        all_written(s, mds, ms),
        array_mods_ok(ms),
    ensures
        spec_array_kind(s, mds) == Ok::<ArrayKind, super::type_parser::TypeErrorKind>(array_kind_of(ms)),
{
    lemma_sizes_ok(s, mds, ms);
    lemma_seps_ok(s, mds, ms);
}

/// `w` is not written at `i`: its character `k` differs from the text's.
proof fn lemma_not_lit(s: Seq<char>, i: int, w: Seq<char>, k: int)
    requires
        0 <= k < w.len(),
        0 <= i,
        i + k < s.len() ==> s[i + k] != w[k],
    ensures
        !has_lit(s, i, w),
{
    if has_lit(s, i, w) {
        lemma_has_lit_at(s, i, w, k);
    }
}

/// A datatype as written in a `type="..."` property.
pub enum TypeSyntax {
    /// `i32`, `u32`, `i64`, `u64` or `f32`, with its modifiers.
    IntLike { kind: PrimKind, suffix: Suffix },
    /// `bool`, with its modifiers.
    Bool { suffix: Suffix },
    /// `f64`, `str`, `datetime` or `datetime-unix`, with its modifiers.
    Keyword { word: Seq<char>, suffix: Suffix },
    /// The name of another definition.
    Custom { name: Seq<char> },
    /// `[inner]`, with its modifiers.
    Array { inner: Box<TypeSyntax>, suffix: Suffix },
    /// `%{ key => value }`, with its modifiers.
    Dictionary { key: Box<TypeSyntax>, value: Box<TypeSyntax>, suffix: Suffix },
}

/// The text of a written datatype.
pub open spec fn syntax_text(t: TypeSyntax) -> Seq<char>
    decreases t,
{
    match t {
        TypeSyntax::IntLike { kind, suffix } => prim_name(kind) + suffix_text(suffix),
        TypeSyntax::Bool { suffix } => "bool"@ + suffix_text(suffix),
        TypeSyntax::Keyword { word, suffix } => word + suffix_text(suffix),
        TypeSyntax::Custom { name } => name,
        TypeSyntax::Array { inner, suffix } => seq!['['] + syntax_text(*inner) + seq![']'] + suffix_text(suffix),
        TypeSyntax::Dictionary { key, value, suffix } => seq!['%', '{', ' '] + syntax_text(*key) + seq![' ', '=', '>', ' ']
            + syntax_text(*value) + seq![' ', '}'] + suffix_text(suffix),
    }
}

pub open spec fn is_keyword(w: Seq<char>) -> bool {
    w == "f64"@ || w == "str"@ || w == "datetime"@ || w == "datetime-unix"@
}

/// The datatype makes sense: integer-like types have an encoding, custom
/// names are runs of letters and digits starting with a capital, and array
/// modifiers give at most one size and one separator, each one that makes
/// sense.
pub open spec fn syntax_wf(t: TypeSyntax) -> bool
    decreases t,
{
    match t {
        TypeSyntax::IntLike { kind, suffix } => suffix_wf(suffix) && last_named(suffix_mods(suffix), "str"@, "int"@) is Some,
        TypeSyntax::Bool { suffix } => suffix_wf(suffix),
        TypeSyntax::Keyword { word, suffix } => suffix_wf(suffix) && is_keyword(word),
        TypeSyntax::Custom { name } => alnum_word(name) && 'A' <= name[0] <= 'Z',
        TypeSyntax::Array { inner, suffix } => syntax_wf(*inner) && suffix_wf(suffix) && array_mods_ok(suffix_mods(suffix)),
        TypeSyntax::Dictionary { key, value, suffix } => syntax_wf(*key) && syntax_wf(*value) && suffix_wf(suffix),
    }
}

/// The encoding the modifiers give an integer-like type: the last of `str`
/// and `int`.
pub open spec fn int_encoding_named(ms: Seq<ModSyntax>) -> IntLikeEncoding {
    match last_named(ms, "str"@, "int"@) {
        Some(true) => IntLikeEncoding::String,
        _ => IntLikeEncoding::Int,
    }
}

/// The encoding the modifiers give a boolean: the last of `str` and `int`,
/// else a JSON boolean.
pub open spec fn bool_encoding_named(ms: Seq<ModSyntax>) -> BoolEncoding {
    match last_named(ms, "str"@, "int"@) {
        Some(true) => BoolEncoding::String,
        Some(false) => BoolEncoding::Int,
        None => BoolEncoding::Bool,
    }
}

/// The datatype a keyword names.
pub open spec fn keyword_model(w: Seq<char>) -> TypeModel {
    if w == "f64"@ {
        TypeModel::F64
    } else if w == "str"@ {
        TypeModel::String
    } else if w == "datetime"@ {
        TypeModel::Datetime
    } else {
        TypeModel::DatetimeUnix
    }
}

/// The datatype a written datatype stands for.
pub open spec fn syntax_model(t: TypeSyntax) -> TypeModel
    decreases t,
{
    match t {
        TypeSyntax::IntLike { kind, suffix } => prim_model(kind, int_encoding_named(suffix_mods(suffix))),
        TypeSyntax::Bool { suffix } => TypeModel::Bool(bool_encoding_named(suffix_mods(suffix))),
        TypeSyntax::Keyword { word, .. } => keyword_model(word),
        TypeSyntax::Custom { name } => TypeModel::Custom { name, encoding: JsonEncoding::Json },
        TypeSyntax::Array { inner, suffix } => match array_kind_of(suffix_mods(suffix)) {
            ArrayKind::Normal(z) => TypeModel::Array { size: z, inner: Box::new(syntax_model(*inner)) },
            ArrayKind::Separated(sep, z) => TypeModel::StringArray {
                inner: Box::new(syntax_model(*inner)),
                separator: sep,
                size: z,
            },
        },
        TypeSyntax::Dictionary { key, value, .. } => TypeModel::Dictionary {
            key: Box::new(syntax_model(*key)),
            value: Box::new(syntax_model(*value)),
        },
    }
}

/// What may follow a datatype: the end of the text, `]` or a space.
pub open spec fn follows(s: Seq<char>, j: int) -> bool {
    j == s.len() || (0 <= j < s.len() && (s[j] == ']' || s[j] == ' '))
}

proof fn lemma_follows_suffix(s: Seq<char>, x: Suffix, j: int)
    requires
        follows(s, j),
    ensures
        suffix_follows(s, x, j),
{
}

proof fn lemma_differ(s: Seq<char>, i: int, a: Seq<char>, w: Seq<char>, k: int)
    requires
        0 <= i,
        has_lit(s, i, a),
        0 <= k < a.len(),
        k < w.len(),
        a[k] != w[k],
    ensures
        !has_lit(s, i, w),
{
    lemma_has_lit_at(s, i, a, k);
    lemma_not_lit(s, i, w, k);
}

proof fn lemma_not_legacy(name: Seq<char>, k: int)
    requires
        name.len() > 0,
        'A' <= name[0] <= 'Z',
        0 <= k,
    ensures
        legacy_index_from(name, k) is None,
    decreases LEGACY_COUNT - k,
{
    reveal_strlit("int");
    reveal_strlit("intstr");
    reveal_strlit("long");
    reveal_strlit("longstr");
    reveal_strlit("float");
    reveal_strlit("floatstr");
    reveal_strlit("double");
    reveal_strlit("doublestr");
    reveal_strlit("boolint");
    reveal_strlit("intbool");
    reveal_strlit("boolstr");
    reveal_strlit("strbool");
    reveal_strlit("commalist");
    reveal_strlit("atlist");
    reveal_strlit("colonlist");
    reveal_strlit("datetimeunix");
    if k < LEGACY_COUNT {
        assert('a' <= legacy_name(k)[0] <= 'z');
        assert(name[0] != legacy_name(k)[0]);
        assert(name != legacy_name(k));
        lemma_not_legacy(name, k + 1);
    }
}

/// The modifiers of a suffix written at `j`, read: what the parser gives
/// for them, and the record of their names.
proof fn lemma_suffix_read(s: Seq<char>, j: int, x: Suffix)
    requires
        s.len() <= usize::MAX,
        0 <= j,
        has_lit(s, j, suffix_text(x)),
        suffix_wf(x),
        follows(s, j + suffix_text(x).len()),
    ensures
        spec_opt_modifiers(s, j) == match x {
            Suffix::Nothing => Ok::<Option<(Seq<Modifier>, usize)>, super::type_parser::Failure>(None),
            _ => Ok(Some((suffix_models(x, j), (j + suffix_text(x).len()) as usize))),
        },
        all_written(s, suffix_models(x, j), suffix_mods(x)),
        x is Nothing ==> (j < s.len() ==> s[j] == ']' || s[j] == ' '),
        !(x is Nothing) ==> j < s.len() && s[j] == ':',
{
    lemma_follows_suffix(s, x, j + suffix_text(x).len());
    lemma_suffix(s, j, x);
    lemma_suffix_written(s, j, x);
    match x {
        Suffix::Nothing => {},
        Suffix::Single(m) => {
            lemma_has_lit_at(s, j, suffix_text(x), 0);
        },
        Suffix::List(m, ms) => {
            lemma_has_lit_at(s, j, suffix_text(x), 0);
        },
    }
}

proof fn lemma_reveal_names()
    ensures
        "i32"@ == seq!['i', '3', '2'],
        "i64"@ == seq!['i', '6', '4'],
        "u32"@ == seq!['u', '3', '2'],
        "u64"@ == seq!['u', '6', '4'],
        "f32"@ == seq!['f', '3', '2'],
        "f64"@ == seq!['f', '6', '4'],
        "bool"@ == seq!['b', 'o', 'o', 'l'],
        "str"@ == seq!['s', 't', 'r'],
        "datetime"@ == seq!['d', 'a', 't', 'e', 't', 'i', 'm', 'e'],
        "datetime-unix"@ == seq!['d', 'a', 't', 'e', 't', 'i', 'm', 'e', '-', 'u', 'n', 'i', 'x'],
{
    reveal_strlit("i32");
    reveal_strlit("i64");
    reveal_strlit("u32");
    reveal_strlit("u64");
    reveal_strlit("f32");
    reveal_strlit("f64");
    reveal_strlit("bool");
    reveal_strlit("str");
    reveal_strlit("datetime");
    reveal_strlit("datetime-unix");
    assert("i32"@ =~= seq!['i', '3', '2']);
    assert("i64"@ =~= seq!['i', '6', '4']);
    assert("u32"@ =~= seq!['u', '3', '2']);
    assert("u64"@ =~= seq!['u', '6', '4']);
    assert("f32"@ =~= seq!['f', '3', '2']);
    assert("f64"@ =~= seq!['f', '6', '4']);
    assert("bool"@ =~= seq!['b', 'o', 'o', 'l']);
    assert("str"@ =~= seq!['s', 't', 'r']);
    assert("datetime"@ =~= seq!['d', 'a', 't', 'e', 't', 'i', 'm', 'e']);
    assert("datetime-unix"@ =~= seq!['d', 'a', 't', 'e', 't', 'i', 'm', 'e', '-', 'u', 'n', 'i', 'x']);
}

#[verifier::spinoff_prover]
#[verifier::rlimit(100)]
proof fn lemma_leaf_intlike(s: Seq<char>, i: int, kind: PrimKind, suffix: Suffix)
    requires
        s.len() <= usize::MAX,
        0 <= i,
        has_lit(s, i, prim_name(kind) + suffix_text(suffix)),
        suffix_wf(suffix),
        last_named(suffix_mods(suffix), "str"@, "int"@) is Some,
        follows(s, i + 3 + suffix_text(suffix).len()),
    ensures
        spec_leaf(s, i) matches Ok((m, p)) && m == prim_model(kind, int_encoding_named(suffix_mods(suffix))) && p == i + 3
            + suffix_text(suffix).len(),
{
    reveal(spec_leaf);
    lemma_reveal_names();
    let w = prim_name(kind);
    lemma_has_lit_split(s, i, w, suffix_text(suffix));
    lemma_suffix_read(s, i + 3, suffix);
    lemma_last_named(s, suffix_models(suffix, i + 3), suffix_mods(suffix), "str"@, "int"@);
    assert(!(suffix is Nothing));
    assert(!is_alpha(s[i + 3]));
    assert(last_int_encoding(s, suffix_models(suffix, i + 3)) is Some);
    match kind {
        PrimKind::I32 => {},
        PrimKind::I64 => {
            lemma_differ(s, i, w, "i32"@, 1);
        },
        PrimKind::U32 => {
            lemma_differ(s, i, w, "i32"@, 0);
            lemma_differ(s, i, w, "i64"@, 0);
        },
        PrimKind::U64 => {
            lemma_differ(s, i, w, "i32"@, 0);
            lemma_differ(s, i, w, "i64"@, 0);
            lemma_differ(s, i, w, "u32"@, 1);
        },
        PrimKind::F32 => {
            lemma_differ(s, i, w, "i32"@, 0);
            lemma_differ(s, i, w, "i64"@, 0);
            lemma_differ(s, i, w, "u32"@, 0);
            lemma_differ(s, i, w, "u64"@, 0);
        },
    }
}

#[verifier::spinoff_prover]
#[verifier::rlimit(100)]
proof fn lemma_leaf_bool(s: Seq<char>, i: int, suffix: Suffix)
    requires
        s.len() <= usize::MAX,
        0 <= i,
        has_lit(s, i, "bool"@ + suffix_text(suffix)),
        suffix_wf(suffix),
        follows(s, i + 4 + suffix_text(suffix).len()),
    ensures
        spec_leaf(s, i) matches Ok((m, p)) && m == TypeModel::Bool(bool_encoding_named(suffix_mods(suffix))) && p == i + 4
            + suffix_text(suffix).len(),
{
    reveal(spec_leaf);
    lemma_reveal_names();
    let w = "bool"@;
    lemma_has_lit_split(s, i, w, suffix_text(suffix));
    lemma_suffix_read(s, i + 4, suffix);
    lemma_differ(s, i, w, "i32"@, 0);
    lemma_differ(s, i, w, "i64"@, 0);
    lemma_differ(s, i, w, "u32"@, 0);
    lemma_differ(s, i, w, "u64"@, 0);
    lemma_differ(s, i, w, "f32"@, 0);
    lemma_differ(s, i, w, "f64"@, 0);
    if i + 4 < s.len() {
        assert(!is_alpha(s[i + 4]));
    }
    assert(spec_intlike(s, i, PrimKind::I32) == Err::<(TypeModel, usize), Failure>(back(i)));
    assert(spec_intlike(s, i, PrimKind::I64) == Err::<(TypeModel, usize), Failure>(back(i)));
    assert(spec_intlike(s, i, PrimKind::U32) == Err::<(TypeModel, usize), Failure>(back(i)));
    assert(spec_intlike(s, i, PrimKind::U64) == Err::<(TypeModel, usize), Failure>(back(i)));
    assert(spec_intlike(s, i, PrimKind::F32) == Err::<(TypeModel, usize), Failure>(back(i)));
    assert(spec_keyword(s, i, "f64"@, TypeModel::F64) == Err::<(TypeModel, usize), Failure>(back(i)));
    lemma_last_named(s, suffix_models(suffix, i + 4), suffix_mods(suffix), "str"@, "int"@);
    assert(spec_bool(s, i) matches Ok((m, p)) && m == TypeModel::Bool(bool_encoding_named(suffix_mods(suffix))) && p == i + 4
        + suffix_text(suffix).len());
}

#[verifier::spinoff_prover]
#[verifier::rlimit(100)]
proof fn lemma_leaf_keyword(s: Seq<char>, i: int, w: Seq<char>, suffix: Suffix)
    requires
        s.len() <= usize::MAX,
        0 <= i,
        has_lit(s, i, w + suffix_text(suffix)),
        suffix_wf(suffix),
        is_keyword(w),
        follows(s, i + w.len() + suffix_text(suffix).len()),
    ensures
        spec_leaf(s, i) matches Ok((m, p)) && m == keyword_model(w) && p == i + w.len() + suffix_text(suffix).len(),
{
    lemma_reveal_names();
    lemma_has_lit_split(s, i, w, suffix_text(suffix));
    lemma_suffix_read(s, i + w.len(), suffix);
    if i + w.len() < s.len() {
        assert(!is_alnum(s[i + w.len()]));
    }
    lemma_differ(s, i, w, "i32"@, 0);
    lemma_differ(s, i, w, "i64"@, 0);
    lemma_differ(s, i, w, "u32"@, 0);
    lemma_differ(s, i, w, "u64"@, 0);
    if w == "f64"@ {
        lemma_differ(s, i, w, "f32"@, 1);
    } else {
        lemma_differ(s, i, w, "f32"@, 0);
        lemma_differ(s, i, w, "f64"@, 0);
        lemma_differ(s, i, w, "bool"@, 0);
        if w != "str"@ {
            lemma_differ(s, i, w, "str"@, 0);
            if w == "datetime"@ {
                if i + 8 < s.len() {
                    assert(s[i + 8] != '-');
                }
                lemma_not_lit(s, i, "datetime-unix"@, 8);
            }
        }
    }
    assert(spec_leaf(s, i) matches Ok((m, p)) && m == keyword_model(w) && p == i + w.len() + suffix_text(suffix).len()) by {
        reveal(spec_leaf);
    }
}

#[verifier::spinoff_prover]
#[verifier::rlimit(100)]
proof fn lemma_leaf_custom(s: Seq<char>, i: int, name: Seq<char>)
    requires
        s.len() <= usize::MAX,
        0 <= i,
        has_lit(s, i, name),
        alnum_word(name),
        'A' <= name[0] <= 'Z',
        follows(s, i + name.len()),
    ensures
        spec_leaf(s, i) matches Ok((m, p)) && m == (TypeModel::Custom { name, encoding: JsonEncoding::Json }) && p == i
            + name.len(),
{
    lemma_reveal_names();
    let w = name;
    lemma_differ(s, i, w, "i32"@, 0);
    lemma_differ(s, i, w, "i64"@, 0);
    lemma_differ(s, i, w, "u32"@, 0);
    lemma_differ(s, i, w, "u64"@, 0);
    lemma_differ(s, i, w, "f32"@, 0);
    lemma_differ(s, i, w, "f64"@, 0);
    lemma_differ(s, i, w, "bool"@, 0);
    lemma_differ(s, i, w, "str"@, 0);
    lemma_differ(s, i, w, "datetime-unix"@, 0);
    lemma_differ(s, i, w, "datetime"@, 0);
    let j = i + w.len();
    if j < s.len() {
        assert(!is_alnum(s[j]));
    }
    lemma_alnum_word(s, i, w);
    assert(s.subrange(j, j) =~= Seq::<char>::empty());
    assert(has_lit(s, j, Seq::<char>::empty()));
    lemma_suffix_read(s, j, Suffix::Nothing);
    assert(s.subrange(i, j) == name);
    lemma_not_legacy(name, 0);
    assert(spec_custom(s, i) == Ok::<(TypeModel, usize), Failure>(((TypeModel::Custom { name, encoding: JsonEncoding::Json }), j as usize)));
    assert(spec_leaf(s, i) matches Ok((m, p)) && m == (TypeModel::Custom { name, encoding: JsonEncoding::Json }) && p == i
        + name.len()) by {
        reveal(spec_leaf);
    }
}

/// A datatype that holds no other, written at `i`, is read whole.
#[verifier::spinoff_prover]
#[verifier::rlimit(100)]
proof fn lemma_leaf(s: Seq<char>, i: int, t: TypeSyntax)
    requires
        s.len() <= usize::MAX,
        0 <= i,
        has_lit(s, i, syntax_text(t)),
        syntax_wf(t),
        follows(s, i + syntax_text(t).len()),
        !(t is Array),
        !(t is Dictionary),
    ensures
        spec_leaf(s, i) matches Ok((m, p)) && m == syntax_model(t) && p == i + syntax_text(t).len(),
{
    lemma_reveal_names();
    match t {
        TypeSyntax::IntLike { kind, suffix } => {
            lemma_leaf_intlike(s, i, kind, suffix);
        },
        TypeSyntax::Bool { suffix } => {
            lemma_leaf_bool(s, i, suffix);
        },
        TypeSyntax::Keyword { word, suffix } => {
            lemma_leaf_keyword(s, i, word, suffix);
        },
        TypeSyntax::Custom { name } => {
            lemma_leaf_custom(s, i, name);
        },
        _ => {},
    }
}


/// A written datatype is not empty, and its first character tells whether
/// it is an array, a dictionary or neither; it is never a space.
proof fn lemma_first_char(t: TypeSyntax)
    requires
        syntax_wf(t),
    ensures
        syntax_text(t).len() > 0,
        !is_space(syntax_text(t)[0]),
        (syntax_text(t)[0] == '[') <==> (t is Array),
        (syntax_text(t)[0] == '%') <==> (t is Dictionary),
{
    lemma_reveal_names();
    match t {
        TypeSyntax::IntLike { kind, suffix } => {
            assert((prim_name(kind) + suffix_text(suffix))[0] == prim_name(kind)[0]);
        },
        TypeSyntax::Bool { suffix } => {
            assert(("bool"@ + suffix_text(suffix))[0] == 'b');
        },
        TypeSyntax::Keyword { word, suffix } => {
            assert((word + suffix_text(suffix))[0] == word[0]);
        },
        TypeSyntax::Custom { name } => {},
        TypeSyntax::Array { inner, suffix } => {},
        TypeSyntax::Dictionary { key, value, suffix } => {},
    }
}

/// Spaces end at once before a character that is not one.
proof fn lemma_no_space(s: Seq<char>, i: int)
    requires
        0 <= i < s.len(),
        !is_space(s[i]),
    ensures
        space_end(s, i) == i,
{
}

/// The parts of an array written at `i`.
proof fn lemma_array_parts(s: Seq<char>, i: int, inner: TypeSyntax, suffix: Suffix)
    requires
        0 <= i,
        has_lit(s, i, syntax_text(TypeSyntax::Array { inner: Box::new(inner), suffix })),
    ensures
        s[i] == '[',
        has_lit(s, i + 1, syntax_text(inner)),
        i + 1 + syntax_text(inner).len() < s.len(),
        s[i + 1 + syntax_text(inner).len()] == ']',
        has_lit(s, i + 2 + syntax_text(inner).len(), suffix_text(suffix)),
{
    let a = seq!['['];
    let b = syntax_text(inner);
    let c = seq![']'];
    lemma_has_lit_split(s, i, a + b + c, suffix_text(suffix));
    lemma_has_lit_split(s, i, a + b, c);
    lemma_has_lit_split(s, i, a, b);
    lemma_has_lit_at(s, i, a, 0);
    lemma_has_lit_at(s, i + 1 + b.len(), c, 0);
}

/// The parts of a dictionary written at `i`.
proof fn lemma_dict_parts(s: Seq<char>, i: int, key: TypeSyntax, value: TypeSyntax, suffix: Suffix)
    requires
        0 <= i,
        has_lit(s, i, syntax_text(TypeSyntax::Dictionary { key: Box::new(key), value: Box::new(value), suffix })),
    ensures
        has_lit(s, i, "%{"@),
        s[i + 2] == ' ',
        has_lit(s, i + 3, syntax_text(key)),
        ({
            let p = i + 3 + syntax_text(key).len();
            &&& s[p] == ' '
            &&& has_lit(s, p + 1, "=>"@)
            &&& s[p + 3] == ' '
            &&& has_lit(s, p + 4, syntax_text(value))
            &&& s[p + 4 + syntax_text(value).len()] == ' '
            &&& p + 5 + syntax_text(value).len() < s.len()
            &&& s[p + 5 + syntax_text(value).len()] == '}'
            &&& has_lit(s, p + 6 + syntax_text(value).len(), suffix_text(suffix))
        }),
{
    reveal_strlit("%{");
    reveal_strlit("=>");
    let kt = syntax_text(key);
    let vt = syntax_text(value);
    let sx = suffix_text(suffix);
    let open = seq!['%', '{', ' '];
    let arrow = seq![' ', '=', '>', ' '];
    let close = seq![' ', '}'];
    lemma_has_lit_split(s, i, open + kt + arrow + vt + close, sx);
    lemma_has_lit_split(s, i, open + kt + arrow + vt, close);
    lemma_has_lit_split(s, i, open + kt + arrow, vt);
    lemma_has_lit_split(s, i, open + kt, arrow);
    lemma_has_lit_split(s, i, open, kt);
    assert(open =~= "%{"@ + seq![' ']);
    lemma_has_lit_split(s, i, "%{"@, seq![' ']);
    lemma_has_lit_at(s, i, open, 2);
    let p = i + 3 + kt.len();
    assert(arrow =~= seq![' '] + ("=>"@ + seq![' ']));
    lemma_has_lit_split(s, p, seq![' '], "=>"@ + seq![' ']);
    lemma_has_lit_split(s, p + 1, "=>"@, seq![' ']);
    lemma_has_lit_at(s, p, arrow, 0);
    lemma_has_lit_at(s, p, arrow, 3);
    let q = p + 4 + vt.len();
    lemma_has_lit_at(s, q, close, 0);
    lemma_has_lit_at(s, q, close, 1);
}

/// The array case: with its inner datatype read, an array written at `i`
/// is read whole.
#[verifier::spinoff_prover]
#[verifier::rlimit(100)]
proof fn lemma_array_case(s: Seq<char>, i: int, inner: TypeSyntax, suffix: Suffix)
    requires
        s.len() <= usize::MAX,
        0 <= i,
        has_lit(s, i, syntax_text(TypeSyntax::Array { inner: Box::new(inner), suffix })),
        syntax_wf(TypeSyntax::Array { inner: Box::new(inner), suffix }),
        follows(s, i + syntax_text(TypeSyntax::Array { inner: Box::new(inner), suffix }).len()),
        spec_datatype(s, i + 1) matches Ok((m, p)) && m == syntax_model(inner) && p == i + 1 + syntax_text(inner).len(),
    ensures
        spec_datatype(s, i) matches Ok((m, p)) && m == syntax_model(TypeSyntax::Array { inner: Box::new(inner), suffix })
            && p == i + syntax_text(TypeSyntax::Array { inner: Box::new(inner), suffix }).len(),
{
    reveal_strlit("%{");
    let t = TypeSyntax::Array { inner: Box::new(inner), suffix };
    lemma_array_parts(s, i, inner, suffix);
    lemma_first_char(inner);
    lemma_no_space(s, i);
    lemma_not_lit(s, i, "%{"@, 0);
    let p = i + 1 + syntax_text(inner).len();
    lemma_suffix_read(s, p + 1, suffix);
    if !(suffix is Nothing) {
        lemma_array_kind(s, suffix_models(suffix, p + 1), suffix_mods(suffix));
    }
    assert(spec_map(s, i) == Err::<(TypeModel, usize), Failure>(back(i)));
    assert(spec_array(s, i) matches Ok((m, q)) && m == syntax_model(t) && q == i + syntax_text(t).len());
}

/// How the parser steps through a dictionary, given where each of its
/// parts ends.
#[verifier::spinoff_prover]
#[verifier::rlimit(100)]
proof fn lemma_map_steps(s: Seq<char>, i: int, a: int, p: int, c: int, q: int, e: int, km: TypeModel, vm: TypeModel)
    requires
        s.len() <= usize::MAX,
        0 <= i,
        has_lit(s, i, "%{"@),
        space_end(s, i + 2) == a,
        spec_datatype(s, a) matches Ok((m0, p0)) && m0 == km && p0 == p,
        a < p <= s.len(),
        space_end(s, p) == p + 1,
        has_lit(s, p + 1, "=>"@),
        space_end(s, p + 3) == c,
        c != p + 3,
        spec_datatype(s, c) matches Ok((m0, q0)) && m0 == vm && q0 == q,
        c < q <= s.len(),
        space_end(s, q) == q + 1,
        q + 1 < s.len(),
        s[q + 1] == '}',
        spec_opt_modifiers(s, q + 2) matches Ok(om) && (match om {
            None => e == q + 2,
            Some((_, e0)) => e0 == e,
        }),
    ensures
        spec_map(s, i) matches Ok((m, r)) && m == (TypeModel::Dictionary { key: Box::new(km), value: Box::new(vm) }) && r == e,
{
    reveal_strlit("%{");
    reveal_strlit("=>");
    let (key, p1) = spec_datatype(s, a)->Ok_0;
    let (value, q1) = spec_datatype(s, c)->Ok_0;
    assert(p1 == p && q1 == q);
    let t = TypeModel::Dictionary { key: Box::new(key), value: Box::new(value) };
    let d = q + 1;
    assert(spec_map(s, i) == match spec_opt_modifiers(s, d + 1) {
        Err(f) => Err(f),
        Ok(None) => Ok((t, (d + 1) as usize)),
        Ok(Some((_, e))) => Ok((t, e)),
    });
}

/// The dictionary case: with its key and value read, a dictionary written
/// at `i` is read whole.
#[verifier::spinoff_prover]
#[verifier::rlimit(100)]
proof fn lemma_dict_case(s: Seq<char>, i: int, key: TypeSyntax, value: TypeSyntax, suffix: Suffix)
    requires
        s.len() <= usize::MAX,
        0 <= i,
        has_lit(s, i, syntax_text(TypeSyntax::Dictionary { key: Box::new(key), value: Box::new(value), suffix })),
        syntax_wf(TypeSyntax::Dictionary { key: Box::new(key), value: Box::new(value), suffix }),
        follows(s, i + syntax_text(TypeSyntax::Dictionary { key: Box::new(key), value: Box::new(value), suffix }).len()),
        spec_datatype(s, i + 3) matches Ok((m, p)) && m == syntax_model(key) && p == i + 3 + syntax_text(key).len(),
        spec_datatype(s, i + 7 + syntax_text(key).len()) matches Ok((m, p)) && m == syntax_model(value) && p == i + 7 + syntax_text(key).len() + syntax_text(value).len(),
    ensures
        spec_datatype(s, i) matches Ok((m, p)) && m == syntax_model(TypeSyntax::Dictionary { key: Box::new(key), value: Box::new(value), suffix })
            && p == i + syntax_text(TypeSyntax::Dictionary { key: Box::new(key), value: Box::new(value), suffix }).len(),
{
    let t = TypeSyntax::Dictionary { key: Box::new(key), value: Box::new(value), suffix };
    lemma_dict_parts(s, i, key, value, suffix);
    lemma_first_char(key);
    lemma_first_char(value);
    reveal_strlit("%{");
    reveal_strlit("=>");
    lemma_has_lit_at(s, i, "%{"@, 0);
    lemma_no_space(s, i);
    let p = i + 3 + syntax_text(key).len();
    let c = p + 4;
    let q = c + syntax_text(value).len();
    lemma_has_lit_at(s, i + 3, syntax_text(key), 0);
    lemma_space_one(s, i + 2);
    lemma_has_lit_at(s, p + 1, "=>"@, 0);
    lemma_space_one(s, p);
    lemma_has_lit_at(s, c, syntax_text(value), 0);
    lemma_space_one(s, p + 3);
    lemma_space_one(s, q);
    lemma_suffix_read(s, q + 2, suffix);
    lemma_map_steps(s, i, i + 3, p, c, q, q + 2 + suffix_text(suffix).len(), syntax_model(key), syntax_model(value));
    assert(spec_map(s, i) matches Ok((m, r)) && m == syntax_model(t) && r == i + syntax_text(t).len());
}

/// The case of a datatype that holds no other.
#[verifier::spinoff_prover]
#[verifier::rlimit(100)]
proof fn lemma_leaf_case(s: Seq<char>, i: int, t: TypeSyntax)
    requires
        s.len() <= usize::MAX,
        0 <= i,
        has_lit(s, i, syntax_text(t)),
        syntax_wf(t),
        follows(s, i + syntax_text(t).len()),
        !(t is Array),
        !(t is Dictionary),
    ensures
        spec_datatype(s, i) matches Ok((m, p)) && m == syntax_model(t) && p == i + syntax_text(t).len(),
{
    reveal_strlit("%{");
    lemma_first_char(t);
    lemma_has_lit_at(s, i, syntax_text(t), 0);
    lemma_no_space(s, i);
    lemma_not_lit(s, i, "%{"@, 0);
    assert(spec_map(s, i) == Err::<(TypeModel, usize), Failure>(back(i)));
    assert(spec_array(s, i) == Err::<(TypeModel, usize), Failure>(back(i)));
    lemma_leaf(s, i, t);
}

/// A datatype written at `i`, and followed by the end of the text, `]` or
/// a space, is read whole.
proof fn lemma_datatype(s: Seq<char>, i: int, t: TypeSyntax)
    requires
        s.len() <= usize::MAX,
        0 <= i,
        has_lit(s, i, syntax_text(t)),
        syntax_wf(t),
        follows(s, i + syntax_text(t).len()),
    ensures
        spec_datatype(s, i) matches Ok((m, p)) && m == syntax_model(t) && p == i + syntax_text(t).len(),
    decreases t,
{
    match t {
        TypeSyntax::Array { inner, suffix } => {
            lemma_array_parts(s, i, *inner, suffix);
            lemma_datatype(s, i + 1, *inner);
            lemma_array_case(s, i, *inner, suffix);
        },
        TypeSyntax::Dictionary { key, value, suffix } => {
            lemma_dict_parts(s, i, *key, *value, suffix);
            lemma_datatype(s, i + 3, *key);
            lemma_datatype(s, i + 7 + syntax_text(*key).len(), *value);
            lemma_dict_case(s, i, *key, *value, suffix);
        },
        _ => {
            lemma_leaf_case(s, i, t);
        },
    }
}

/// Every datatype written as the grammar describes, with a syntax that
/// makes sense, is read whole by the parser, as the datatype it writes.
pub proof fn law_written_datatypes_parse(t: TypeSyntax)
    requires
        syntax_wf(t),
        syntax_text(t).len() <= usize::MAX,
    ensures
        spec_full_datatype(syntax_text(t)) == Ok::<TypeModel, Failure>(syntax_model(t)),
{
    let s = syntax_text(t);
    assert(s.subrange(0, s.len() as int) =~= s);
    lemma_datatype(s, 0, t);
}

/// An integer-like primitive is read as the primitive its name names,
/// with the encoding its modifiers give (the last of `str` and `int`):
/// `i32` as `I32`, `u32` as `U32`, `i64` as `I64`, `u64` as `U64`, `f32`
/// as `F32`; so `i64::int` is a 64-bit integer encoded as a number.
pub proof fn law_primitive_names(x: Suffix)
    requires
        suffix_wf(x),
        last_named(suffix_mods(x), "str"@, "int"@) is Some,
        suffix_text(x).len() + 3 <= usize::MAX,
    ensures
        spec_full_datatype("i32"@ + suffix_text(x)) == Ok::<TypeModel, Failure>(TypeModel::I32(int_encoding_named(suffix_mods(x)))),
        spec_full_datatype("u32"@ + suffix_text(x)) == Ok::<TypeModel, Failure>(TypeModel::U32(int_encoding_named(suffix_mods(x)))),
        spec_full_datatype("i64"@ + suffix_text(x)) == Ok::<TypeModel, Failure>(TypeModel::I64(int_encoding_named(suffix_mods(x)))),
        spec_full_datatype("u64"@ + suffix_text(x)) == Ok::<TypeModel, Failure>(TypeModel::U64(int_encoding_named(suffix_mods(x)))),
        spec_full_datatype("f32"@ + suffix_text(x)) == Ok::<TypeModel, Failure>(TypeModel::F32(int_encoding_named(suffix_mods(x)))),
{
    lemma_prim_parses(PrimKind::I32, x);
    lemma_prim_parses(PrimKind::U32, x);
    lemma_prim_parses(PrimKind::I64, x);
    lemma_prim_parses(PrimKind::U64, x);
    lemma_prim_parses(PrimKind::F32, x);
}

/// A primitive written by its name and a suffix parses as its model.
proof fn lemma_prim_parses(k: PrimKind, x: Suffix)
    requires
        suffix_wf(x),
        last_named(suffix_mods(x), "str"@, "int"@) is Some,
        suffix_text(x).len() + 3 <= usize::MAX,
    ensures
        spec_full_datatype(prim_name(k) + suffix_text(x)) == Ok::<TypeModel, Failure>(prim_model(k, int_encoding_named(suffix_mods(x)))),
{
    reveal_strlit("i32");
    reveal_strlit("u32");
    reveal_strlit("i64");
    reveal_strlit("u64");
    reveal_strlit("f32");
    law_written_datatypes_parse(TypeSyntax::IntLike { kind: k, suffix: x });
}

/// A field whose type is written `i32::str` (or with more modifiers, the
/// last of `str` and `int` being `str`) is, in the registry, a 32-bit
/// integer encoded as a string; written with `int` last, one encoded as a
/// number.
pub proof fn law_written_encoding_kept(x: Suffix, d: DataType, names: Seq<(Seq<char>, usize)>)
    requires
        suffix_wf(x),
        last_named(suffix_mods(x), "str"@, "int"@) is Some,
        suffix_text(x).len() + 3 <= usize::MAX,
        spec_full_datatype("i32"@ + suffix_text(x)) matches Ok(m) && converts(m, d, names),
    ensures
        last_named(suffix_mods(x), "str"@, "int"@) == Some(true) ==> d == (DataType::I32 { encoding: Encoding::String }),
        last_named(suffix_mods(x), "str"@, "int"@) == Some(false) ==> d == (DataType::I32 { encoding: Encoding::Int }),
{
    law_primitive_names(x);
    law_encoding_kept(int_encoding_named(suffix_mods(x)), d, names);
}

/// The name of an integer-like datatype as the grammar spells it.
pub open spec fn int_like_spelling(m: TypeModel) -> Option<Seq<char>> {
    match m {
        TypeModel::I32(_) => Some("i32"@),
        TypeModel::U32(_) => Some("u32"@),
        TypeModel::I64(_) => Some("i64"@),
        TypeModel::U64(_) => Some("u64"@),
        TypeModel::F32(_) => Some("f32"@),
        _ => None,
    }
}

/// The primitive a name and an encoding read as is spelled by that name:
/// reading a primitive never changes its kind or width.
pub proof fn law_primitive_spelled(k: PrimKind, e: IntLikeEncoding)
    ensures
        int_like_spelling(prim_model(k, e)) == Some(prim_name(k)),
{
}

} // verus!
