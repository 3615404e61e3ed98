//! Lexicographic order on names, and the sorting of catalog listings.

use vstd::prelude::*;
use vstd::relations::sorted_by;
use vstd::seq_lib::lemma_multiset_commutative;

verus! {

/// Code-point lexicographic order on names: the order the schema
/// listing is returned in.
pub open spec fn lex_leq(a: Seq<char>, b: Seq<char>) -> bool
    decreases a.len(),
{
    if a.len() == 0 {
        true
    } else if b.len() == 0 {
        false
    } else if a[0] == b[0] {
        lex_leq(a.drop_first(), b.drop_first())
    } else {
        (a[0] as u32) < (b[0] as u32)
    }
}

/// The order as a relation value, for the sortedness predicate.
pub open spec fn lex_leq_fn() -> spec_fn(Seq<char>, Seq<char>) -> bool {
    |a: Seq<char>, b: Seq<char>| lex_leq(a, b)
}

/// Any two names are comparable.
pub proof fn lemma_lex_connected(a: Seq<char>, b: Seq<char>)
    ensures
        lex_leq(a, b) || lex_leq(b, a),
    decreases a.len(),
{
    if a.len() > 0 && b.len() > 0 {
        if a[0] == b[0] {
            lemma_lex_connected(a.drop_first(), b.drop_first());
        } else {
            vstd::utf8::char_u32_cast(a[0], a[0] as u32);
            vstd::utf8::char_u32_cast(b[0], b[0] as u32);
        }
    }
}

/// The order is transitive.
pub proof fn lemma_lex_trans(a: Seq<char>, b: Seq<char>, c: Seq<char>)
    requires
        lex_leq(a, b),
        lex_leq(b, c),
    ensures
        lex_leq(a, c),
    decreases a.len(),
{
    if a.len() > 0 && b.len() > 0 && c.len() > 0 && a[0] == b[0] && b[0] == c[0] {
        lemma_lex_trans(a.drop_first(), b.drop_first(), c.drop_first());
    }
}

/// The order is antisymmetric: names below each other are equal.
pub proof fn lemma_lex_antisym(a: Seq<char>, b: Seq<char>)
    requires
        lex_leq(a, b),
        lex_leq(b, a),
    ensures
        a == b,
    decreases a.len(),
{
    if a.len() == 0 {
        assert(b.len() == 0);
        assert(a =~= b);
    } else {
        assert(b.len() > 0);
        assert(a[0] == b[0]);
        lemma_lex_antisym(a.drop_first(), b.drop_first());
        assert(a.drop_first().len() == b.drop_first().len());
        assert(a.len() == b.len());
        assert forall|i: int| 0 <= i < a.len() implies a[i] == b[i] by {
            if i > 0 {
                assert(a[i] == a.drop_first()[i - 1]);
                assert(b[i] == b.drop_first()[i - 1]);
            }
        }
        assert(a =~= b);
    }
}

/// Comparison is settled past an equal prefix.
proof fn lemma_lex_skip(a: Seq<char>, b: Seq<char>, i: int)
    requires
        0 <= i <= a.len(),
        i <= b.len(),
        forall|k: int| 0 <= k < i ==> a[k] == b[k],
    ensures
        lex_leq(a, b) == lex_leq(a.skip(i), b.skip(i)),
    decreases i,
{
    if i > 0 {
        assert(a.len() > 0 && b.len() > 0 && a[0] == b[0]);
        lemma_lex_skip(a.drop_first(), b.drop_first(), i - 1);
        assert(a.drop_first().skip(i - 1) =~= a.skip(i));
        assert(b.drop_first().skip(i - 1) =~= b.skip(i));
    } else {
        assert(a.skip(0) =~= a);
        assert(b.skip(0) =~= b);
    }
}

/// Compare two names in the lexicographic order.
pub fn str_lex_leq(a: &String, b: &String) -> (r: bool)
    ensures
        r == lex_leq(a@, b@),
{
    let sa = a.as_str();
    let sb = b.as_str();
    let la = sa.unicode_len();
    let lb = sb.unicode_len();
    let mut i: usize = 0;
    while i < la && i < lb
        invariant
            sa@ == a@,
            sb@ == b@,
            la == a@.len(),
            lb == b@.len(),
            i <= la,
            i <= lb,
            forall|k: int| 0 <= k < i ==> a@[k] == b@[k],
        decreases la - i,
    {
        let ca = sa.get_char(i);
        let cb = sb.get_char(i);
        if ca != cb {
            let r = (ca as u32) < (cb as u32);
            proof {
                lemma_lex_skip(a@, b@, i as int);
                assert(a@.skip(i as int)[0] == a@[i as int]);
                assert(b@.skip(i as int)[0] == b@[i as int]);
                assert(a@.skip(i as int).len() > 0);
                assert(b@.skip(i as int).len() > 0);
            }
            return r;
        }
        i = i + 1;
    }
    proof {
        lemma_lex_skip(a@, b@, i as int);
        if i == la {
            assert(a@.skip(i as int).len() == 0);
        } else {
            assert(b@.skip(i as int).len() == 0);
            assert(a@.skip(i as int).len() > 0);
        }
    }
    la <= lb
}

/// A name placed into an ordered listing: before the first entry it is
/// at or below, after every entry strictly above it.
pub open spec fn spec_insert_sorted(x: Seq<char>, s: Seq<Seq<char>>) -> Seq<Seq<char>>
    decreases s.len(),
{
    if s.len() == 0 {
        seq![x]
    } else if lex_leq(x, s[0]) {
        seq![x] + s
    } else {
        seq![s[0]] + spec_insert_sorted(x, s.drop_first())
    }
}

/// A listing sorted by repeated insertion, in input order.
pub open spec fn spec_sort(s: Seq<Seq<char>>) -> Seq<Seq<char>>
    decreases s.len(),
{
    if s.len() == 0 {
        Seq::empty()
    } else {
        spec_insert_sorted(s.last(), spec_sort(s.drop_last()))
    }
}

/// Insertion lands exactly before the first entry the name is at or
/// below.
proof fn lemma_insert_at(x: Seq<char>, s: Seq<Seq<char>>, p: int)
    requires
        0 <= p <= s.len(),
        forall|k: int| 0 <= k < p ==> !lex_leq(x, #[trigger] s[k]),
        p < s.len() ==> lex_leq(x, s[p]),
    ensures
        spec_insert_sorted(x, s) == s.subrange(0, p) + seq![x] + s.subrange(p, s.len() as int),
    decreases p,
{
    if p == 0 {
        if s.len() == 0 {
            assert(spec_insert_sorted(x, s) =~= s.subrange(0, 0) + seq![x] + s.subrange(0, 0));
        } else {
            assert(spec_insert_sorted(x, s) =~= s.subrange(0, 0) + seq![x] + s.subrange(
                0,
                s.len() as int,
            ));
        }
    } else {
        assert(!lex_leq(x, s[0]));
        let rest = s.drop_first();
        lemma_insert_at(x, rest, p - 1);
        assert(spec_insert_sorted(x, s) =~= s.subrange(0, p) + seq![x] + s.subrange(
            p,
            s.len() as int,
        ));
    }
}

/// Inserting into a sorted listing keeps it sorted, adds the one name,
/// and grows it by one.
pub proof fn lemma_insert_sorted_props(x: Seq<char>, s: Seq<Seq<char>>)
    requires
        sorted_by(s, lex_leq_fn()),
    ensures
        sorted_by(spec_insert_sorted(x, s), lex_leq_fn()),
        spec_insert_sorted(x, s).to_multiset() == s.to_multiset().insert(x),
        spec_insert_sorted(x, s).len() == s.len() + 1,
    decreases s.len(),
{
    broadcast use vstd::seq_lib::group_to_multiset_ensures;

    let f = lex_leq_fn();
    if s.len() == 0 {
        assert(seq![x] =~= Seq::<Seq<char>>::empty().push(x));
        assert(s.to_multiset() =~= vstd::multiset::Multiset::<Seq<char>>::empty());
        assert(spec_insert_sorted(x, s).to_multiset() =~= s.to_multiset().insert(x));
    } else if lex_leq(x, s[0]) {
        let out = seq![x] + s;
        assert forall|i: int, j: int| 0 <= i < j < out.len() implies #[trigger] f(
            out[i],
            out[j],
        ) by {
            if i == 0 {
                if j > 1 {
                    assert(f(s[0], s[j - 1]));
                    lemma_lex_trans(x, s[0], s[j - 1]);
                }
            } else {
                assert(f(s[i - 1], s[j - 1]));
            }
        }
        lemma_multiset_commutative(seq![x], s);
        assert(seq![x] =~= Seq::<Seq<char>>::empty().push(x));
        assert(out.to_multiset() =~= s.to_multiset().insert(x));
    } else {
        let rest = s.drop_first();
        assert forall|i: int, j: int| 0 <= i < j < rest.len() implies #[trigger] f(
            rest[i],
            rest[j],
        ) by {
            assert(f(s[i + 1], s[j + 1]));
        }
        lemma_insert_sorted_props(x, rest);
        let ins = spec_insert_sorted(x, rest);
        let out = seq![s[0]] + ins;
        assert(spec_insert_sorted(x, s) == out);
        assert forall|i: int, j: int| 0 <= i < j < out.len() implies #[trigger] f(
            out[i],
            out[j],
        ) by {
            if i == 0 {
                let e = ins[j - 1];
                assert(ins.to_multiset().count(e) > 0);
                if e == x {
                    lemma_lex_connected(x, s[0]);
                    assert(f(s[0], x));
                } else {
                    assert(rest.to_multiset().count(e) > 0);
                    assert(rest.contains(e));
                    let k = choose|k: int| 0 <= k < rest.len() && rest[k] == e;
                    assert(f(s[0], s[k + 1]));
                }
            }
        }
        lemma_multiset_commutative(seq![s[0]], ins);
        lemma_multiset_commutative(seq![s[0]], rest);
        assert(seq![s[0]] + rest =~= s);
        assert(seq![s[0]] =~= Seq::<Seq<char>>::empty().push(s[0]));
        assert(out.to_multiset() =~= s.to_multiset().insert(x));
    }
}

/// Sorting a listing leaves a sorted listing of exactly the same names.
pub proof fn lemma_sort_props(s: Seq<Seq<char>>)
    ensures
        sorted_by(spec_sort(s), lex_leq_fn()),
        spec_sort(s).to_multiset() == s.to_multiset(),
        spec_sort(s).len() == s.len(),
    decreases s.len(),
{
    broadcast use vstd::seq_lib::group_to_multiset_ensures;

    if s.len() > 0 {
        lemma_sort_props(s.drop_last());
        lemma_insert_sorted_props(s.last(), spec_sort(s.drop_last()));
        assert(s.drop_last().push(s.last()) =~= s);
        assert(spec_sort(s).to_multiset() =~= s.to_multiset());
    }
}

/// Into a listing of names none above it, a name is inserted at the end.
proof fn lemma_insert_sorted_of_max(x: Seq<char>, s: Seq<Seq<char>>)
    requires
        sorted_by(s, lex_leq_fn()),
        forall|k: int| 0 <= k < s.len() ==> lex_leq(#[trigger] s[k], x),
    ensures
        spec_insert_sorted(x, s) == s.push(x),
    decreases s.len(),
{
    let f = lex_leq_fn();
    if s.len() == 0 {
        assert(spec_insert_sorted(x, s) =~= s.push(x));
    } else if lex_leq(x, s[0]) {
        assert(lex_leq(s[0], x));
        lemma_lex_antisym(x, s[0]);
        assert forall|k: int| 0 <= k < s.len() implies s[k] == x by {
            if k > 0 {
                assert(f(s[0], s[k]));
            }
            lemma_lex_antisym(x, s[k]);
        }
        assert(spec_insert_sorted(x, s) =~= s.push(x));
    } else {
        let rest = s.drop_first();
        assert forall|i: int, j: int| 0 <= i < j < rest.len() implies #[trigger] f(
            rest[i],
            rest[j],
        ) by {
            assert(f(s[i + 1], s[j + 1]));
        }
        assert forall|k: int| 0 <= k < rest.len() implies lex_leq(#[trigger] rest[k], x) by {
            assert(lex_leq(s[k + 1], x));
        }
        lemma_insert_sorted_of_max(x, rest);
        assert(spec_insert_sorted(x, s) =~= s.push(x));
    }
}

/// Sorting an already sorted listing returns it unchanged.
pub proof fn lemma_sort_of_sorted(s: Seq<Seq<char>>)
    requires
        sorted_by(s, lex_leq_fn()),
    ensures
        spec_sort(s) == s,
    decreases s.len(),
{
    let f = lex_leq_fn();
    if s.len() > 0 {
        let dl = s.drop_last();
        assert forall|i: int, j: int| 0 <= i < j < dl.len() implies #[trigger] f(
            dl[i],
            dl[j],
        ) by {
            assert(f(s[i], s[j]));
        }
        lemma_sort_of_sorted(dl);
        assert forall|k: int| 0 <= k < dl.len() implies lex_leq(#[trigger] dl[k], s.last()) by {
            assert(f(s[k], s[s.len() - 1]));
        }
        lemma_insert_sorted_of_max(s.last(), dl);
        assert(dl.push(s.last()) =~= s);
    }
}

/// Place a name into an ordered listing.
fn insert_name(sorted: Vec<String>, x: String) -> (r: Vec<String>)
    ensures
        r.deep_view() == spec_insert_sorted(x@, sorted.deep_view()),
{
    let mut p: usize = 0;
    while p < sorted.len() && !str_lex_leq(&x, &sorted[p])
        invariant
            p <= sorted@.len(),
            forall|k: int| 0 <= k < p ==> !lex_leq(x@, #[trigger] sorted.deep_view()[k]),
        decreases sorted@.len() - p,
    {
        p = p + 1;
    }
    let ghost dv = sorted.deep_view();
    proof {
        lemma_insert_at(x@, dv, p as int);
    }
    let mut r = sorted;
    r.insert(p, x);
    proof {
        assert(r.deep_view() =~= dv.subrange(0, p as int) + seq![x@] + dv.subrange(
            p as int,
            dv.len() as int,
        ));
    }
    r
}

/// Sort a listing of names into the lexicographic order.
pub fn sort_names(names: Vec<String>) -> (r: Vec<String>)
    ensures
        r.deep_view() == spec_sort(names.deep_view()),
{
    let mut out: Vec<String> = Vec::new();
    proof {
        assert(out.deep_view() =~= spec_sort(names.deep_view().take(0)));
    }
    let mut i: usize = 0;
    while i < names.len()
        invariant
            i <= names@.len(),
            out.deep_view() == spec_sort(names.deep_view().take(i as int)),
        decreases names@.len() - i,
    {
        let x = names[i].clone();
        out = insert_name(out, x);
        proof {
            let pref = names.deep_view().take(i + 1);
            assert(pref.drop_last() =~= names.deep_view().take(i as int));
            assert(pref.last() == names.deep_view()[i as int]);
        }
        i = i + 1;
    }
    proof {
        assert(names.deep_view().take(names@.len() as int) =~= names.deep_view());
    }
    out
}

} // verus!
