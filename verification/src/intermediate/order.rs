//! Ordered sets kept as sorted vectors.
//!
//! Each item has an order key: a sequence of integer sequences, compared
//! lexicographically, the first component first. Text enters a key by the
//! code points of its characters, whose order is that of `str`'s `Ord`.

use vstd::prelude::*;

verus! {

/// Lexicographic order on integer sequences; a proper prefix comes first.
pub open spec fn lex_lt(a: Seq<i128>, b: Seq<i128>) -> bool
    decreases a.len(),
{
    if a.len() == 0 {
        b.len() > 0
    } else if b.len() == 0 {
        false
    } else if a[0] != b[0] {
        a[0] < b[0]
    } else {
        lex_lt(a.drop_first(), b.drop_first())
    }
}

/// Lexicographic order on keys, each component ordered by [`lex_lt`].
pub open spec fn key_lt(a: Seq<Seq<i128>>, b: Seq<Seq<i128>>) -> bool
    decreases a.len(),
{
    if a.len() == 0 {
        b.len() > 0
    } else if b.len() == 0 {
        false
    } else if a[0] != b[0] {
        lex_lt(a[0], b[0])
    } else {
        key_lt(a.drop_first(), b.drop_first())
    }
}

pub proof fn lemma_lex_strict(a: Seq<i128>, b: Seq<i128>)
    ensures
        lex_lt(a, b) ==> !lex_lt(b, a),
        a != b ==> lex_lt(a, b) || lex_lt(b, a),
        !lex_lt(a, a),
    decreases a.len(),
{
    if a.len() > 0 && b.len() > 0 && a[0] == b[0] {
        lemma_lex_strict(a.drop_first(), b.drop_first());
        if a != b {
            assert(a.drop_first() != b.drop_first()) by {
                if a.drop_first() == b.drop_first() {
                    assert(a =~= seq![a[0]] + a.drop_first());
                    assert(b =~= seq![b[0]] + b.drop_first());
                }
            }
        }
    }
    if a.len() > 0 {
        lemma_lex_strict(a.drop_first(), a.drop_first());
    }
    if a.len() == 0 && b.len() == 0 {
        assert(a =~= b);
    }
}

pub proof fn lemma_lex_trans(a: Seq<i128>, b: Seq<i128>, c: Seq<i128>)
    requires
        lex_lt(a, b),
        lex_lt(b, c),
    ensures
        lex_lt(a, c),
    decreases a.len(),
{
    if a.len() > 0 && b.len() > 0 && c.len() > 0 && a[0] == b[0] && b[0] == c[0] {
        lemma_lex_trans(a.drop_first(), b.drop_first(), c.drop_first());
    }
}

pub proof fn lemma_key_strict(a: Seq<Seq<i128>>, b: Seq<Seq<i128>>)
    ensures
        key_lt(a, b) ==> !key_lt(b, a),
        a != b ==> key_lt(a, b) || key_lt(b, a),
        !key_lt(a, a),
    decreases a.len(),
{
    if a.len() > 0 && b.len() > 0 {
        lemma_lex_strict(a[0], b[0]);
        if a[0] == b[0] {
            lemma_key_strict(a.drop_first(), b.drop_first());
            if a != b {
                assert(a.drop_first() != b.drop_first()) by {
                    if a.drop_first() == b.drop_first() {
                        assert(a =~= seq![a[0]] + a.drop_first());
                        assert(b =~= seq![b[0]] + b.drop_first());
                    }
                }
            }
        }
    }
    if a.len() > 0 {
        lemma_key_strict(a.drop_first(), a.drop_first());
    }
    if a.len() == 0 && b.len() == 0 {
        assert(a =~= b);
    }
}

pub proof fn lemma_key_trans(a: Seq<Seq<i128>>, b: Seq<Seq<i128>>, c: Seq<Seq<i128>>)
    requires
        key_lt(a, b),
        key_lt(b, c),
    ensures
        key_lt(a, c),
    decreases a.len(),
{
    if a.len() > 0 && b.len() > 0 && c.len() > 0 {
        if a[0] == b[0] && b[0] == c[0] {
            lemma_key_trans(a.drop_first(), b.drop_first(), c.drop_first());
        } else if a[0] == b[0] {
        } else if b[0] == c[0] {
        } else {
            lemma_lex_strict(a[0], b[0]);
            lemma_lex_trans(a[0], b[0], c[0]);
        }
    }
}

/// Result of comparing two keys.
#[derive(Debug, Clone, Copy, PartialEq, Eq, Structural)]
pub enum Order {
    Less,
    Equal,
    Greater,
}

pub fn lex_compare(a: &Vec<i128>, b: &Vec<i128>) -> (r: Order)
    ensures
        r == Order::Less <==> lex_lt(a@, b@),
        r == Order::Equal <==> a@ == b@,
        r == Order::Greater <==> lex_lt(b@, a@),
{
    proof {
        lemma_lex_strict(a@, b@);
    }
    let mut k: usize = 0;
    assert(a@.skip(0) =~= a@);
    assert(b@.skip(0) =~= b@);
    while k < a.len() && k < b.len() && a[k] == b[k]
        invariant
            k <= a@.len(),
            k <= b@.len(),
            lex_lt(a@, b@) == lex_lt(a@.skip(k as int), b@.skip(k as int)),
            lex_lt(b@, a@) == lex_lt(b@.skip(k as int), a@.skip(k as int)),
            a@.take(k as int) == b@.take(k as int),
        decreases a@.len() - k,
    {
        assert(a@.skip(k as int).drop_first() =~= a@.skip(k + 1));
        assert(b@.skip(k as int).drop_first() =~= b@.skip(k + 1));
        assert(a@.take(k + 1) =~= a@.take(k as int).push(a@[k as int]));
        assert(b@.take(k + 1) =~= b@.take(k as int).push(b@[k as int]));
        k = k + 1;
    }
    if k < a.len() && k < b.len() {
        assert(a@.skip(k as int)[0] == a@[k as int]);
        assert(b@.skip(k as int)[0] == b@[k as int]);
        assert(a@ != b@ ==> true);
        if a[k] < b[k] {
            assert(a@[k as int] != b@[k as int]);
            Order::Less
        } else {
            assert(a@[k as int] != b@[k as int]);
            Order::Greater
        }
    } else if k < a.len() {
        assert(b@.take(k as int) =~= b@);
        assert(a@ != b@) by {
            assert(a@.len() != b@.len());
        }
        Order::Greater
    } else if k < b.len() {
        assert(a@.take(k as int) =~= a@);
        assert(a@.len() != b@.len());
        Order::Less
    } else {
        assert(a@.take(k as int) =~= a@);
        assert(b@.take(k as int) =~= b@);
        Order::Equal
    }
}

pub fn key_compare(a: &Vec<Vec<i128>>, b: &Vec<Vec<i128>>) -> (r: Order)
    ensures
        r == Order::Less <==> key_lt(a.deep_view(), b.deep_view()),
        r == Order::Equal <==> a.deep_view() == b.deep_view(),
        r == Order::Greater <==> key_lt(b.deep_view(), a.deep_view()),
{
    let ghost da = a.deep_view();
    let ghost db = b.deep_view();
    proof {
        lemma_key_strict(da, db);
    }
    let mut k: usize = 0;
    assert(da.len() == a@.len());
    assert(db.len() == b@.len());
    assert(da.skip(0) =~= da);
    assert(db.skip(0) =~= db);
    loop
        invariant
            k <= a@.len(),
            k <= b@.len(),
            da == a.deep_view(),
            db == b.deep_view(),
            da.len() == a@.len(),
            db.len() == b@.len(),
            key_lt(da, db) == key_lt(da.skip(k as int), db.skip(k as int)),
            key_lt(db, da) == key_lt(db.skip(k as int), da.skip(k as int)),
            da.take(k as int) == db.take(k as int),
        ensures
            k == a@.len() || k == b@.len(),
            k <= a@.len(),
            k <= b@.len(),
            da.len() == a@.len(),
            db.len() == b@.len(),
            key_lt(da, db) == key_lt(da.skip(k as int), db.skip(k as int)),
            key_lt(db, da) == key_lt(db.skip(k as int), da.skip(k as int)),
            da.take(k as int) == db.take(k as int),
        decreases a@.len() - k,
    {
        if k >= a.len() || k >= b.len() {
            break;
        }
        let c = lex_compare(&a[k], &b[k]);
        assert(da[k as int] == a@[k as int]@);
        assert(db[k as int] == b@[k as int]@);
        match c {
            Order::Equal => {},
            Order::Less => {
                assert(da.skip(k as int)[0] == da[k as int]);
                assert(db.skip(k as int)[0] == db[k as int]);
                return Order::Less;
            },
            Order::Greater => {
                assert(da.skip(k as int)[0] == da[k as int]);
                assert(db.skip(k as int)[0] == db[k as int]);
                return Order::Greater;
            },
        }
        assert(da.skip(k as int).drop_first() =~= da.skip(k + 1));
        assert(db.skip(k as int).drop_first() =~= db.skip(k + 1));
        assert(da.take(k + 1) =~= da.take(k as int).push(da[k as int]));
        assert(db.take(k + 1) =~= db.take(k as int).push(db[k as int]));
        k = k + 1;
    }
    if k < a.len() {
        assert(db.take(k as int) =~= db);
        assert(da.len() != db.len());
        Order::Greater
    } else if k < b.len() {
        assert(da.take(k as int) =~= da);
        assert(da.len() != db.len());
        Order::Less
    } else {
        assert(da.take(k as int) =~= da);
        assert(db.take(k as int) =~= db);
        Order::Equal
    }
}

/// The characters of a text as integers, for order keys.
pub open spec fn text_key(s: Seq<char>) -> Seq<i128> {
    s.map_values(|c: char| (c as u32) as i128)
}

pub fn text_key_of(s: &String) -> (r: Vec<i128>)
    ensures
        r@ == text_key(s@),
{
    let cs = crate::text::chars_of(s.as_str());
    let mut r: Vec<i128> = Vec::new();
    let mut k: usize = 0;
    while k < cs.len()
        invariant
            k <= cs@.len(),
            cs@ == s@,
            r@ == text_key(s@).take(k as int),
        decreases cs@.len() - k,
    {
        let c = cs[k];
        r.push((c as u32) as i128);
        k = k + 1;
        assert(r@ =~= text_key(s@).take(k as int));
    }
    assert(r@ =~= text_key(s@));
    r
}

/// Items of an ordered set.
pub trait Keyed {
    spec fn order_key(&self) -> Seq<Seq<i128>>;

    fn key(&self) -> (r: Vec<Vec<i128>>)
        ensures
            r.deep_view() == self.order_key(),
    ;
}

/// Items in strictly increasing order of their keys.
pub open spec fn strictly_sorted<T: Keyed>(s: Seq<T>) -> bool {
    forall|i: int, j: int|
        0 <= i < j < s.len() ==> key_lt(#[trigger] s[i].order_key(), #[trigger] s[j].order_key())
}

/// Some item of `s` has the key of `x`.
pub open spec fn has_key<T: Keyed>(s: Seq<T>, x: T) -> bool {
    exists|i: int| 0 <= i < s.len() && #[trigger] s[i].order_key() == x.order_key()
}

/// Inserts `x` unless an item with an equal key is there already (which is
/// then left as it was); returns whether `x` was inserted.
pub fn insert_sorted<T: Keyed>(v: &mut Vec<T>, x: T) -> (added: bool)
    requires
        strictly_sorted(old(v)@),
    ensures
        strictly_sorted(final(v)@),
        added == !has_key(old(v)@, x),
        added ==> exists|p: int| 0 <= p <= old(v)@.len() && final(v)@ == old(v)@.insert(p, x),
        !added ==> final(v)@ == old(v)@,
{
    let xk = x.key();
    let mut k: usize = 0;
    while k < v.len()
        invariant
            k <= v@.len(),
            v@ == old(v)@,
            strictly_sorted(old(v)@),
            xk.deep_view() == x.order_key(),
            forall|t: int| 0 <= t < k ==> key_lt(#[trigger] v@[t].order_key(), x.order_key()),
        ensures
            k <= v@.len(),
            v@ == old(v)@,
            k < v@.len() ==> key_lt(x.order_key(), v@[k as int].order_key()),
            forall|t: int| 0 <= t < k ==> key_lt(#[trigger] v@[t].order_key(), x.order_key()),
        decreases v@.len() - k,
    {
        let vk = v[k].key();
        match key_compare(&vk, &xk) {
            Order::Less => {
                k = k + 1;
            },
            Order::Equal => {
                return false;
            },
            Order::Greater => {
                break;
            },
        }
    }
    proof {
        if has_key(v@, x) {
            let i = choose|i: int| 0 <= i < v@.len() && #[trigger] v@[i].order_key() == x.order_key();
            lemma_key_strict(x.order_key(), x.order_key());
            if i >= k {
                if i > k {
                    lemma_key_trans(x.order_key(), v@[k as int].order_key(), v@[i].order_key());
                }
            }
        }
    }
    let ghost old_v = v@;
    v.insert(k, x);
    proof {
        assert forall|i: int, j: int| 0 <= i < j < v@.len() implies key_lt(
            #[trigger] v@[i].order_key(),
            #[trigger] v@[j].order_key(),
        ) by {
            if j == k {
                assert(v@[i] == old_v[i]);
            } else if i == k {
                assert(v@[j] == old_v[j - 1]);
                if j - 1 > k {
                    lemma_key_trans(x.order_key(), old_v[k as int].order_key(), old_v[j - 1].order_key());
                }
            } else if i < k && j < k {
                assert(v@[i] == old_v[i]);
                assert(v@[j] == old_v[j]);
            } else if i < k {
                assert(v@[i] == old_v[i]);
                assert(v@[j] == old_v[j - 1]);
            } else {
                assert(v@[i] == old_v[i - 1]);
                assert(v@[j] == old_v[j - 1]);
            }
        }
    }
    true
}

/// Inserting the same item twice adds it once: after the first insertion
/// (whatever it returned) an item with its key is present, so a second
/// insertion returns `false` and changes nothing.
pub proof fn law_insert_twice<T: Keyed>(before: Seq<T>, after: Seq<T>, x: T)
    requires
        strictly_sorted(before),
        has_key(before, x) ==> after == before,
        !has_key(before, x) ==> exists|p: int| 0 <= p <= before.len() && after == before.insert(p, x),
    ensures
        has_key(after, x),
{
    if !has_key(before, x) {
        let p = choose|p: int| 0 <= p <= before.len() && after == before.insert(p, x);
        assert(after[p] == x);
        assert(after[p].order_key() == x.order_key());
    }
}

/// `x` comes, by `from`, from one of the inputs.
pub open spec fn sourced<T, U>(x: T, inputs: Seq<U>, from: spec_fn(T, U) -> bool) -> bool {
    exists|b: int| 0 <= b < inputs.len() && #[trigger] from(x, inputs[b])
}

/// Every item of `set` comes, by `from`, from one of the inputs.
pub open spec fn items_from<T, U>(set: Seq<T>, inputs: Seq<U>, from: spec_fn(T, U) -> bool) -> bool {
    forall|a: int| 0 <= a < set.len() ==> #[trigger] sourced(set[a], inputs, from)
}

/// Some item of `set` has the key `k`.
pub open spec fn key_present<T: Keyed>(set: Seq<T>, k: Seq<Seq<i128>>) -> bool {
    exists|a: int| 0 <= a < set.len() && #[trigger] set[a].order_key() == k
}

/// Every input has an item of `set` with its key.
pub open spec fn keys_kept<T: Keyed, U>(set: Seq<T>, inputs: Seq<U>, key: spec_fn(U) -> Seq<Seq<i128>>) -> bool {
    forall|b: int| 0 <= b < inputs.len() ==> #[trigger] key_present(set, key(inputs[b]))
}

proof fn lemma_items_extend<T, U>(set: Seq<T>, inputs: Seq<U>, f: int, from: spec_fn(T, U) -> bool)
    requires
        0 <= f < inputs.len(),
        items_from(set, inputs.take(f), from),
    ensures
        items_from(set, inputs.take(f + 1), from),
{
    let prev = inputs.take(f);
    let next = inputs.take(f + 1);
    assert forall|a: int| 0 <= a < set.len() implies #[trigger] sourced(set[a], next, from) by {
        assert(sourced(set[a], prev, from));
        let b = choose|b: int| 0 <= b < prev.len() && #[trigger] from(set[a], prev[b]);
        assert(next[b] == prev[b]);
    }
}

proof fn lemma_keys_extend<T: Keyed, U>(set: Seq<T>, inputs: Seq<U>, f: int, key: spec_fn(U) -> Seq<Seq<i128>>, a: int)
    requires
        0 <= f < inputs.len(),
        keys_kept(set, inputs.take(f), key),
        0 <= a < set.len(),
        set[a].order_key() == key(inputs[f]),
    ensures
        keys_kept(set, inputs.take(f + 1), key),
{
    let prev = inputs.take(f);
    let next = inputs.take(f + 1);
    assert forall|b: int| 0 <= b < next.len() implies #[trigger] key_present(set, key(next[b])) by {
        if b < f {
            assert(next[b] == prev[b]);
            assert(key_present(set, key(prev[b])));
        } else {
            assert(next[b] == inputs[f]);
            assert(set[a].order_key() == key(next[b]));
        }
    }
}

proof fn lemma_items_insert<T, U>(before: Seq<T>, p: int, x: T, inputs: Seq<U>, f: int, from: spec_fn(T, U) -> bool)
    requires
        0 <= f < inputs.len(),
        0 <= p <= before.len(),
        from(x, inputs[f]),
        items_from(before, inputs.take(f + 1), from),
    ensures
        items_from(before.insert(p, x), inputs.take(f + 1), from),
{
    let after = before.insert(p, x);
    let next = inputs.take(f + 1);
    assert forall|a: int| 0 <= a < after.len() implies #[trigger] sourced(after[a], next, from) by {
        if a == p {
            assert(next[f] == inputs[f]);
            assert(from(after[a], next[f]));
        } else {
            let a0 = if a < p { a } else { a - 1 };
            assert(after[a] == before[a0]);
            assert(sourced(before[a0], next, from));
        }
    }
}

proof fn lemma_keys_insert<T: Keyed, U>(before: Seq<T>, p: int, x: T, inputs: Seq<U>, f: int, key: spec_fn(U) -> Seq<Seq<i128>>)
    requires
        0 <= f < inputs.len(),
        0 <= p <= before.len(),
        keys_kept(before, inputs.take(f), key),
    ensures
        keys_kept(before.insert(p, x), inputs.take(f), key),
{
    let after = before.insert(p, x);
    let prev = inputs.take(f);
    assert forall|b: int| 0 <= b < prev.len() implies #[trigger] key_present(after, key(prev[b])) by {
        assert(key_present(before, key(prev[b])));
        let a0 = choose|a0: int| 0 <= a0 < before.len() && #[trigger] before[a0].order_key() == key(prev[b]);
        let a = if a0 < p { a0 } else { a0 + 1 };
        assert(after[a] == before[a0]);
    }
}

/// Inserting into a set the item made from the next input keeps every item
/// made from an input and every input's key.
pub proof fn lemma_set_from_step<T: Keyed, U>(
    before: Seq<T>,
    after: Seq<T>,
    x: T,
    inputs: Seq<U>,
    f: int,
    from: spec_fn(T, U) -> bool,
    key: spec_fn(U) -> Seq<Seq<i128>>,
)
    requires
        0 <= f < inputs.len(),
        has_key(before, x) ==> after == before,
        !has_key(before, x) ==> exists|p: int| 0 <= p <= before.len() && after == before.insert(p, x),
        from(x, inputs[f]),
        x.order_key() == key(inputs[f]),
        items_from(before, inputs.take(f), from),
        keys_kept(before, inputs.take(f), key),
    ensures
        items_from(after, inputs.take(f + 1), from),
        keys_kept(after, inputs.take(f + 1), key),
{
    lemma_items_extend(before, inputs, f, from);
    if has_key(before, x) {
        let a = choose|a: int| 0 <= a < before.len() && #[trigger] before[a].order_key() == x.order_key();
        lemma_keys_extend(before, inputs, f, key, a);
    } else {
        let p = choose|p: int| 0 <= p <= before.len() && after == before.insert(p, x);
        lemma_items_insert(before, p, x, inputs, f, from);
        lemma_keys_insert(before, p, x, inputs, f, key);
        assert(after[p] == x);
        lemma_keys_extend(after, inputs, f, key, p);
    }
}

} // verus!
