//! Helpers shared by the generators.

use vstd::prelude::*;
use crate::text::{chars_of, push_char, repeat, repeat_seq};

verus! {

/// The pieces of `s` between newlines, as `str::split('\n')` gives them:
/// there is always at least one, and an empty one after a final newline.
pub open spec fn split_lines(s: Seq<char>) -> Seq<Seq<char>>
    decreases s.len(),
{
    if s.len() == 0 {
        seq![Seq::empty()]
    } else {
        let rest = split_lines(s.drop_last());
        if s.last() == '\n' {
            rest.push(Seq::empty())
        } else {
            rest.update(rest.len() - 1, rest.last().push(s.last()))
        }
    }
}

proof fn lemma_split_lines_nonempty(s: Seq<char>)
    ensures
        split_lines(s).len() >= 1,
    decreases s.len(),
{
    if s.len() > 0 {
        lemma_split_lines_nonempty(s.drop_last());
    }
}

/// The pieces joined with `sep` between each two (`Itertools::join`).
pub open spec fn join_with(pieces: Seq<Seq<char>>, sep: Seq<char>) -> Seq<char>
    decreases pieces.len(),
{
    if pieces.len() == 0 {
        Seq::empty()
    } else if pieces.len() == 1 {
        pieces[0]
    } else {
        join_with(pieces.drop_last(), sep) + sep + pieces.last()
    }
}

/// One line of documentation as a comment: indented, the comment marker,
/// and the line after a space unless it is empty.
pub open spec fn comment_line(line: Seq<char>, tab: Seq<char>, comment_str: Seq<char>, indent_level: nat) -> Seq<char> {
    repeat_seq(tab, indent_level) + comment_str + if line.len() > 0 {
        seq![' '] + line
    } else {
        Seq::empty()
    }
}

/// `doc` as a comment, line by line.
pub open spec fn documentation(doc: Seq<char>, tab: Seq<char>, comment_str: Seq<char>, indent_level: nat) -> Seq<char> {
    join_with(split_lines(doc).map_values(|l: Seq<char>| comment_line(l, tab, comment_str, indent_level)), "\n"@)
}

/// Formats the text of a `doc` field as a comment: each line of `doc`
/// becomes `tab` repeated `indent_level` times, then `comment_str`, then a
/// space and the line unless it is empty; lines are joined by newlines.
/// `doc` itself is not transformed.
pub fn split_documentation(doc: &str, tab: &str, comment_str: &str, indent_level: usize) -> (r: String)
    ensures
        r@ == documentation(doc@, tab@, comment_str@, indent_level as nat),
{
    let cs = chars_of(doc);
    let start = repeat(tab, indent_level);
    let mut out = String::new();
    let mut line = String::new();
    let mut line_empty = true;
    let mut first = true;
    let ghost f = |l: Seq<char>| comment_line(l, tab@, comment_str@, indent_level as nat);
    let ghost mut done: Seq<Seq<char>> = Seq::empty();
    let mut i: usize = 0;
    assert(cs@.take(0) =~= Seq::<char>::empty());
    while i < cs.len()
        invariant
            i <= cs@.len(),
            cs@ == doc@,
            start@ == repeat_seq(tab@, indent_level as nat),
            f == (|l: Seq<char>| comment_line(l, tab@, comment_str@, indent_level as nat)),
            split_lines(cs@.take(i as int)) == done.push(line@),
            first == (done.len() == 0),
            line_empty == (line@.len() == 0),
            out@ == join_with(done.map_values(f), "\n"@),
        decreases cs@.len() - i,
    {
        let c = cs[i];
        assert(cs@.take(i + 1).drop_last() =~= cs@.take(i as int));
        if c == '\n' {
            let ghost old_out = out@;
            if !first {
                out.append("\n");
            }
            out.append(start.as_str());
            out.append(comment_str);
            if !line_empty {
                out.append(" ");
                out.append(line.as_str());
            }
            proof {
                reveal_strlit(" ");
                let nd = done.push(line@);
                assert(nd.map_values(f).drop_last() =~= done.map_values(f));
                assert(nd.map_values(f).last() == f(line@));
                if line@.len() > 0 {
                    assert(comment_line(line@, tab@, comment_str@, indent_level as nat) =~= start@ + comment_str@ + " "@ + line@);
                } else {
                    assert(comment_line(line@, tab@, comment_str@, indent_level as nat) =~= start@ + comment_str@);
                }
                if done.len() == 0 {
                    assert(nd.map_values(f) =~= seq![f(line@)]);
                }
                done = nd;
            }
            line = String::new();
            line_empty = true;
            first = false;
            assert(split_lines(cs@.take(i + 1)) =~= done.push(line@));
        } else {
            push_char(&mut line, c);
            line_empty = false;
            proof {
                let prev = split_lines(cs@.take(i as int));
                assert(prev.update(prev.len() - 1, prev.last().push(c)) =~= done.push(line@));
            }
        }
        i = i + 1;
    }
    assert(cs@.take(i as int) =~= cs@);
    if !first {
        out.append("\n");
    }
    out.append(start.as_str());
    out.append(comment_str);
    if !line_empty {
        out.append(" ");
        out.append(line.as_str());
    }
    proof {
        reveal_strlit(" ");
        let nd = done.push(line@);
        assert(nd.map_values(f).drop_last() =~= done.map_values(f));
        assert(nd.map_values(f).last() == f(line@));
        if line@.len() > 0 {
            assert(comment_line(line@, tab@, comment_str@, indent_level as nat) =~= start@ + comment_str@ + " "@ + line@);
        } else {
            assert(comment_line(line@, tab@, comment_str@, indent_level as nat) =~= start@ + comment_str@);
        }
        if done.len() == 0 {
            assert(nd.map_values(f) =~= seq![f(line@)]);
        }
        assert(split_lines(doc@).map_values(f) =~= nd.map_values(f));
    }
    out
}


/// The texts of `v`.
pub open spec fn texts(v: Seq<String>) -> Seq<Seq<char>> {
    v.map_values(|s: String| s@)
}

/// The strings joined with `sep` between each two (`Itertools::join`).
pub fn join_strings(v: &Vec<String>, sep: &str) -> (r: String)
    ensures
        r@ == join_with(texts(v@), sep@),
{
    let mut r = String::new();
    let mut i: usize = 0;
    assert(texts(v@).take(0) =~= Seq::<Seq<char>>::empty());
    while i < v.len()
        invariant
            i <= v@.len(),
            r@ == join_with(texts(v@).take(i as int), sep@),
        decreases v@.len() - i,
    {
        if i > 0 {
            r.append(sep);
        }
        r.append(v[i].as_str());
        proof {
            let t = texts(v@).take(i + 1);
            assert(t.drop_last() =~= texts(v@).take(i as int));
            assert(t.last() == v@[i as int]@);
            if i == 0 {
                assert(r@ =~= t[0]);
            }
        }
        i = i + 1;
    }
    assert(texts(v@).take(i as int) =~= texts(v@));
    r
}

/// A text with no newline in it.
pub open spec fn single_line(s: Seq<char>) -> bool {
    forall|i: int| 0 <= i < s.len() ==> s[i] != '\n'
}

proof fn lemma_single_line_concat(a: Seq<char>, b: Seq<char>)
    requires
        single_line(a),
        single_line(b),
    ensures
        single_line(a + b),
{
    assert forall|i: int| 0 <= i < (a + b).len() implies (a + b)[i] != '\n' by {
        if i < a.len() {
            assert((a + b)[i] == a[i]);
        } else {
            assert((a + b)[i] == b[i - a.len()]);
        }
    }
}

proof fn lemma_repeat_single_line(s: Seq<char>, n: nat)
    requires
        single_line(s),
    ensures
        single_line(repeat_seq(s, n)),
    decreases n,
{
    if n > 0 {
        lemma_repeat_single_line(s, (n - 1) as nat);
        lemma_single_line_concat(repeat_seq(s, (n - 1) as nat), s);
    }
}

proof fn lemma_split_lines_single(s: Seq<char>)
    ensures
        forall|k: int| 0 <= k < split_lines(s).len() ==> single_line(#[trigger] split_lines(s)[k]),
    decreases s.len(),
{
    if s.len() > 0 {
        lemma_split_lines_single(s.drop_last());
        lemma_split_lines_nonempty(s.drop_last());
        let rest = split_lines(s.drop_last());
        if s.last() != '\n' {
            assert(single_line(rest[rest.len() - 1]));
            lemma_single_line_concat(rest.last(), seq![s.last()]);
            assert(rest.last().push(s.last()) =~= rest.last() + seq![s.last()]);
        } else {
            assert(single_line(Seq::<char>::empty()));
        }
    }
}

/// Appending text without a newline extends the last line.
proof fn lemma_split_append_plain(s: Seq<char>, t: Seq<char>)
    requires
        single_line(t),
    ensures
        split_lines(s + t) == split_lines(s).update(split_lines(s).len() - 1, split_lines(s).last() + t),
    decreases t.len(),
{
    lemma_split_lines_nonempty(s);
    let l = split_lines(s);
    if t.len() == 0 {
        assert(s + t =~= s);
        assert(l.last() + t =~= l.last());
        assert(l.update(l.len() - 1, l.last() + t) =~= l);
    } else {
        let t0 = t.drop_last();
        assert(single_line(t0));
        lemma_split_append_plain(s, t0);
        assert((s + t).drop_last() =~= s + t0);
        assert((s + t).last() == t.last());
        assert(t[t.len() - 1] != '\n');
        let rest = split_lines(s + t0);
        assert(rest.last() == l.last() + t0);
        assert((l.last() + t0).push(t.last()) =~= l.last() + t);
        assert(rest.update(rest.len() - 1, rest.last().push(t.last())) =~= l.update(l.len() - 1, l.last() + t));
    }
}

/// A newline then text without one starts a new last line.
proof fn lemma_split_append_line(s: Seq<char>, t: Seq<char>)
    requires
        single_line(t),
    ensures
        split_lines(s + seq!['\n'] + t) == split_lines(s).push(t),
{
    let sn = s + seq!['\n'];
    assert(sn.drop_last() =~= s);
    assert(sn.last() == '\n');
    assert(split_lines(sn) == split_lines(s).push(Seq::empty()));
    lemma_split_append_plain(sn, t);
    let l = split_lines(s).push(Seq::<char>::empty());
    assert(Seq::<char>::empty() + t =~= t);
    assert(l.update(l.len() - 1, l.last() + t) =~= split_lines(s).push(t));
}

/// Lines without newlines joined by newlines split back into themselves.
proof fn lemma_split_join(pieces: Seq<Seq<char>>)
    requires
        pieces.len() >= 1,
        forall|k: int| 0 <= k < pieces.len() ==> single_line(#[trigger] pieces[k]),
    ensures
        split_lines(join_with(pieces, seq!['\n'])) == pieces,
    decreases pieces.len(),
{
    if pieces.len() == 1 {
        assert(single_line(pieces[0]));
        lemma_split_append_plain(Seq::empty(), pieces[0]);
        assert(Seq::<char>::empty() + pieces[0] =~= pieces[0]);
        assert(split_lines(Seq::<char>::empty()) == seq![Seq::<char>::empty()]);
        assert(seq![Seq::<char>::empty()].update(0, Seq::<char>::empty() + pieces[0]) =~= pieces);
    } else {
        let front = pieces.drop_last();
        assert forall|k: int| 0 <= k < front.len() implies single_line(#[trigger] front[k]) by {
            assert(front[k] == pieces[k]);
        }
        lemma_split_join(front);
        assert(single_line(pieces[pieces.len() - 1]));
        lemma_split_append_line(join_with(front, seq!['\n']), pieces.last());
        assert(front.push(pieces.last()) =~= pieces);
    }
}

/// The comment keeps the lines of the documentation: its `k`-th line is the
/// `k`-th line of `doc` behind the indentation and the comment marker, so
/// long as neither of those holds a newline.
pub proof fn law_documentation_lines(doc: Seq<char>, tab: Seq<char>, comment_str: Seq<char>, indent_level: nat)
    requires
        single_line(tab),
        single_line(comment_str),
    ensures
        split_lines(documentation(doc, tab, comment_str, indent_level)) == split_lines(doc).map_values(
            |l: Seq<char>| comment_line(l, tab, comment_str, indent_level),
        ),
{
    reveal_strlit("\n");
    assert("\n"@ =~= seq!['\n']);
    let f = |l: Seq<char>| comment_line(l, tab, comment_str, indent_level);
    let pieces = split_lines(doc).map_values(f);
    lemma_split_lines_nonempty(doc);
    lemma_split_lines_single(doc);
    lemma_repeat_single_line(tab, indent_level);
    assert forall|k: int| 0 <= k < pieces.len() implies single_line(#[trigger] pieces[k]) by {
        let l = split_lines(doc)[k];
        assert(single_line(l));
        lemma_single_line_concat(repeat_seq(tab, indent_level), comment_str);
        if l.len() > 0 {
            lemma_single_line_concat(seq![' '], l);
            lemma_single_line_concat(repeat_seq(tab, indent_level) + comment_str, seq![' '] + l);
        } else {
            assert(repeat_seq(tab, indent_level) + comment_str + Seq::<char>::empty() =~= repeat_seq(tab, indent_level)
                + comment_str);
        }
    }
    lemma_split_join(pieces);
}

} // verus!
