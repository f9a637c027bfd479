//! Lexicographic order on character sequences, strictly sorted sequences,
//! and the small text helpers shared by the language back ends.
use vstd::prelude::*;

verus! {

/// `a` sorts strictly before `b`, comparing characters by code point; a
/// proper prefix sorts before the longer sequence.
pub open spec fn seq_lt(a: Seq<char>, b: Seq<char>) -> bool
    decreases a.len(),
{
    if a.len() == 0 {
        b.len() > 0
    } else if b.len() == 0 {
        false
    } else if a[0] == b[0] {
        seq_lt(a.drop_first(), b.drop_first())
    } else {
        a[0] < b[0]
    }
}

pub proof fn lemma_seq_lt_irreflexive(a: Seq<char>)
    ensures
        !seq_lt(a, a),
    decreases a.len(),
{
    if a.len() > 0 {
        lemma_seq_lt_irreflexive(a.drop_first());
    }
}

pub proof fn lemma_seq_lt_transitive(a: Seq<char>, b: Seq<char>, c: Seq<char>)
    requires
        seq_lt(a, b),
        seq_lt(b, c),
    ensures
        seq_lt(a, c),
    decreases a.len(),
{
    if a.len() > 0 && b.len() > 0 && c.len() > 0 {
        if a[0] == b[0] && b[0] == c[0] {
            lemma_seq_lt_transitive(a.drop_first(), b.drop_first(), c.drop_first());
        }
    }
}

pub proof fn lemma_seq_lt_total(a: Seq<char>, b: Seq<char>)
    requires
        a != b,
    ensures
        seq_lt(a, b) || seq_lt(b, a),
    decreases a.len(),
{
    if a.len() > 0 && b.len() > 0 {
        if a[0] == b[0] {
            if a.drop_first() == b.drop_first() {
                assert(a == seq![a[0]] + a.drop_first());
                assert(b == seq![b[0]] + b.drop_first());
            }
            lemma_seq_lt_total(a.drop_first(), b.drop_first());
        }
    } else if a.len() == 0 && b.len() == 0 {
        assert(a == b);
    }
}

/// A strict total order: irreflexive, transitive and total on distinct values.
pub open spec fn is_strict_order<T>(lt: spec_fn(T, T) -> bool) -> bool {
    &&& forall|a: T| !(#[trigger] lt(a, a))
    &&& forall|a: T, b: T, c: T| #[trigger] lt(a, b) && #[trigger] lt(b, c) ==> lt(a, c)
    &&& forall|a: T, b: T| a != b ==> #[trigger] lt(a, b) || lt(b, a)
}

/// Every element of `s` sorts strictly before every later one.
pub open spec fn sorted_by<T>(s: Seq<T>, lt: spec_fn(T, T) -> bool) -> bool {
    forall|i: int, j: int| 0 <= i < j < s.len() ==> #[trigger] lt(s[i], #[trigger] s[j])
}

/// The strictly ascending sequence that holds exactly the elements of `s`.
pub open spec fn sorted_of<T>(s: Set<T>, lt: spec_fn(T, T) -> bool) -> Seq<T> {
    choose|q: Seq<T>| sorted_by(q, lt) && q.to_set() == s
}

/// Lexicographic order on character sequences, as a value.
pub open spec fn text_order() -> spec_fn(Seq<char>, Seq<char>) -> bool {
    |a: Seq<char>, b: Seq<char>| seq_lt(a, b)
}

pub proof fn lemma_text_order_strict()
    ensures
        is_strict_order(text_order()),
{
    assert forall|a: Seq<char>| !(#[trigger] text_order()(a, a)) by {
        lemma_seq_lt_irreflexive(a);
    }
    assert forall|a: Seq<char>, b: Seq<char>, c: Seq<char>|
        #[trigger] text_order()(a, b) && #[trigger] text_order()(b, c) implies text_order()(a, c) by {
        lemma_seq_lt_transitive(a, b, c);
    }
    assert forall|a: Seq<char>, b: Seq<char>| a != b implies #[trigger] text_order()(a, b)
        || text_order()(b, a) by {
        lemma_seq_lt_total(a, b);
    }
}

/// Two strictly sorted sequences with the same elements are the same sequence.
pub proof fn lemma_sorted_unique<T>(a: Seq<T>, b: Seq<T>, lt: spec_fn(T, T) -> bool)
    requires
        is_strict_order(lt),
        sorted_by(a, lt),
        sorted_by(b, lt),
        a.to_set() == b.to_set(),
    ensures
        a == b,
    decreases a.len(),
{
    if a.len() == 0 {
        if b.len() > 0 {
            assert(b.to_set().contains(b[0]));
        }
        assert(a =~= b);
    } else {
        assert(a.to_set().contains(a[0]));
        assert(b.len() > 0);
        if a[0] != b[0] {
            assert(b.to_set().contains(a[0]));
            let j = choose|j: int| 0 <= j < b.len() && b[j] == a[0];
            assert(a.to_set().contains(b[0]));
            let i = choose|i: int| 0 <= i < a.len() && a[i] == b[0];
            assert(lt(b[0], b[j]));
            assert(lt(a[0], a[i]));
            assert(lt(a[0], a[0]));
        }
        let ta = a.drop_first();
        let tb = b.drop_first();
        assert forall|x: T| ta.to_set().contains(x) <==> a.to_set().contains(x) && x != a[0] by {
            if ta.to_set().contains(x) {
                let k = choose|k: int| 0 <= k < ta.len() && ta[k] == x;
                assert(a[k + 1] == x);
                assert(lt(a[0], a[k + 1]));
            }
            if a.to_set().contains(x) && x != a[0] {
                let k = choose|k: int| 0 <= k < a.len() && a[k] == x;
                assert(ta[k - 1] == x);
            }
        }
        assert forall|x: T| tb.to_set().contains(x) <==> b.to_set().contains(x) && x != b[0] by {
            if tb.to_set().contains(x) {
                let k = choose|k: int| 0 <= k < tb.len() && tb[k] == x;
                assert(b[k + 1] == x);
                assert(lt(b[0], b[k + 1]));
            }
            if b.to_set().contains(x) && x != b[0] {
                let k = choose|k: int| 0 <= k < b.len() && b[k] == x;
                assert(tb[k - 1] == x);
            }
        }
        assert(ta.to_set() =~= tb.to_set());
        assert(sorted_by(ta, lt)) by {
            assert forall|i: int, j: int| 0 <= i < j < ta.len() implies #[trigger] lt(ta[i], #[trigger] ta[j]) by {
                assert(lt(a[i + 1], a[j + 1]));
            }
        }
        assert(sorted_by(tb, lt)) by {
            assert forall|i: int, j: int| 0 <= i < j < tb.len() implies #[trigger] lt(tb[i], #[trigger] tb[j]) by {
                assert(lt(b[i + 1], b[j + 1]));
            }
        }
        lemma_sorted_unique(ta, tb, lt);
        assert(a =~= seq![a[0]] + ta);
        assert(b =~= seq![b[0]] + tb);
    }
}

/// A strictly sorted sequence is the one `sorted_of` names for its elements.
pub proof fn lemma_sorted_of_is<T>(q: Seq<T>, lt: spec_fn(T, T) -> bool)
    requires
        is_strict_order(lt),
        sorted_by(q, lt),
    ensures
        sorted_of(q.to_set(), lt) == q,
{
    let s = q.to_set();
    assert(sorted_by(q, lt) && q.to_set() == s);
    let r = sorted_of(s, lt);
    lemma_sorted_unique(r, q, lt);
}

proof fn lemma_min_exists<T>(s: Set<T>, lt: spec_fn(T, T) -> bool) -> (m: T)
    requires
        is_strict_order(lt),
        s.finite(),
        s.len() > 0,
    ensures
        s.contains(m),
        forall|y: T| s.contains(y) && y != m ==> #[trigger] lt(m, y),
    decreases s.len(),
{
    let x = s.choose();
    let rest = s.remove(x);
    if rest.len() == 0 {
        assert forall|y: T| s.contains(y) && y != x implies #[trigger] lt(x, y) by {
            assert(rest.contains(y));
        }
        x
    } else {
        let m = lemma_min_exists(rest, lt);
        if lt(x, m) {
            assert forall|y: T| s.contains(y) && y != x implies #[trigger] lt(x, y) by {
                assert(rest.contains(y));
                if y != m {
                    assert(lt(m, y));
                }
            }
            x
        } else {
            assert(lt(m, x));
            m
        }
    }
}

/// Every finite set has a strictly ascending listing, which is what
/// `sorted_of` names.
pub proof fn lemma_sorted_of_exists<T>(s: Set<T>, lt: spec_fn(T, T) -> bool)
    requires
        is_strict_order(lt),
        s.finite(),
    ensures
        sorted_by(sorted_of(s, lt), lt),
        sorted_of(s, lt).to_set() == s,
    decreases s.len(),
{
    if s.len() == 0 {
        let q = Seq::<T>::empty();
        assert(q.to_set() =~= s);
        assert(sorted_by(q, lt) && q.to_set() == s);
    } else {
        let m = lemma_min_exists(s, lt);
        let rest = s.remove(m);
        lemma_sorted_of_exists(rest, lt);
        let r = sorted_of(rest, lt);
        let q = seq![m] + r;
        assert(sorted_by(q, lt)) by {
            assert forall|i: int, j: int| 0 <= i < j < q.len() implies #[trigger] lt(q[i], #[trigger] q[j]) by {
                if i == 0 {
                    assert(r.to_set().contains(r[j - 1]));
                    assert(q[j] == r[j - 1]);
                } else {
                    assert(lt(r[i - 1], r[j - 1]));
                }
            }
        }
        assert(q.to_set() =~= s) by {
            assert forall|y: T| q.to_set().contains(y) <==> s.contains(y) by {
                if q.to_set().contains(y) {
                    let k = choose|k: int| 0 <= k < q.len() && q[k] == y;
                    if k > 0 {
                        assert(r[k - 1] == y);
                        assert(r.to_set().contains(y));
                    }
                }
                if s.contains(y) {
                    if y == m {
                        assert(q[0] == y);
                    } else {
                        assert(rest.contains(y));
                        let k = choose|k: int| 0 <= k < r.len() && r[k] == y;
                        assert(q[k + 1] == y);
                    }
                }
            }
        }
        assert(sorted_by(q, lt) && q.to_set() == s);
    }
}

/// The union of `f` over the elements of `s`.
pub open spec fn union_of<A, K>(s: Seq<A>, f: spec_fn(A) -> Set<K>) -> Set<K>
    decreases s.len(),
{
    if s.len() == 0 {
        Set::empty()
    } else {
        union_of(s.drop_last(), f) + f(s.last())
    }
}

proof fn lemma_union_of_members<A, K>(s: Seq<A>, f: spec_fn(A) -> Set<K>, k: K)
    ensures
        union_of(s, f).contains(k) <==> exists|i: int| 0 <= i < s.len() && #[trigger] f(s[i]).contains(k),
    decreases s.len(),
{
    if s.len() > 0 {
        let d = s.drop_last();
        lemma_union_of_members(d, f, k);
        if union_of(d, f).contains(k) {
            let i = choose|i: int| 0 <= i < d.len() && #[trigger] f(d[i]).contains(k);
            assert(f(s[i]).contains(k));
        }
        if exists|i: int| 0 <= i < s.len() && #[trigger] f(s[i]).contains(k) {
            let i = choose|i: int| 0 <= i < s.len() && #[trigger] f(s[i]).contains(k);
            if i < d.len() {
                assert(f(d[i]).contains(k));
            }
        }
    }
}

/// A union over a sequence depends only on which elements it holds, not on
/// their order or repetition.
pub proof fn lemma_union_of_same_elements<A, K>(a: Seq<A>, b: Seq<A>, f: spec_fn(A) -> Set<K>)
    requires
        a.to_set() == b.to_set(),
    ensures
        union_of(a, f) == union_of(b, f),
{
    assert forall|k: K| union_of(a, f).contains(k) <==> union_of(b, f).contains(k) by {
        lemma_union_of_members(a, f, k);
        lemma_union_of_members(b, f, k);
        if exists|i: int| 0 <= i < a.len() && #[trigger] f(a[i]).contains(k) {
            let i = choose|i: int| 0 <= i < a.len() && #[trigger] f(a[i]).contains(k);
            assert(a.to_set().contains(a[i]));
            let j = choose|j: int| 0 <= j < b.len() && b[j] == a[i];
            assert(f(b[j]).contains(k));
        }
        if exists|i: int| 0 <= i < b.len() && #[trigger] f(b[i]).contains(k) {
            let i = choose|i: int| 0 <= i < b.len() && #[trigger] f(b[i]).contains(k);
            assert(b.to_set().contains(b[i]));
            let j = choose|j: int| 0 <= j < a.len() && a[j] == b[i];
            assert(f(a[j]).contains(k));
        }
    }
    assert(union_of(a, f) =~= union_of(b, f));
}

/// Compares two strings by the order of `seq_lt`.
pub fn str_lt(a: &str, b: &str) -> (r: bool)
    ensures
        r == seq_lt(a@, b@),
{
    let la = a.unicode_len();
    let lb = b.unicode_len();
    let mut i: usize = 0;
    assert(a@.skip(0) =~= a@);
    assert(b@.skip(0) =~= b@);
    while i < la && i < lb
        invariant
            i <= la,
            i <= lb,
            la == a@.len(),
            lb == b@.len(),
            seq_lt(a@, b@) == seq_lt(a@.skip(i as int), b@.skip(i as int)),
        decreases la - i,
    {
        let ca = a.get_char(i);
        let cb = b.get_char(i);
        if ca != cb {
            return ca < cb;
        }
        assert(a@.skip(i as int).drop_first() =~= a@.skip(i + 1 as int));
        assert(b@.skip(i as int).drop_first() =~= b@.skip(i + 1 as int));
        i = i + 1;
    }
    i == la && i < lb
}

/// The character sequences that a vector of strings holds.
pub open spec fn views(v: Seq<String>) -> Seq<Seq<char>> {
    v.map_values(|s: String| s@)
}

/// Adds `x` to a strictly ascending vector of strings, keeping it strictly
/// ascending; a string already present is not added twice.
pub fn insert_text_sorted(v: &mut Vec<String>, x: String)
    requires
        sorted_by(views(old(v)@), text_order()),
    ensures
        sorted_by(views(final(v)@), text_order()),
        views(final(v)@).to_set() == views(old(v)@).to_set().insert(x@),
{
    proof {
        lemma_text_order_strict();
    }
    let ghost lt = text_order();
    let ghost old_v = views(v@);
    let mut i: usize = 0;
    while i < v.len()
        invariant
            i <= v.len(),
            lt == text_order(),
            views(v@) == old_v,
            forall|j: int| 0 <= j < i ==> lt(#[trigger] old_v[j], x@),
        ensures
            i <= v.len(),
            views(v@) == old_v,
            forall|j: int| 0 <= j < i ==> lt(#[trigger] old_v[j], x@),
            i < v.len() ==> !lt(old_v[i as int], x@),
        decreases v.len() - i,
    {
        assert(old_v[i as int] == v@[i as int]@);
        if !str_lt(v[i].as_str(), x.as_str()) {
            break;
        }
        i = i + 1;
    }
    if i < v.len() && v[i] == x {
        assert(old_v[i as int] == x@);
        assert(old_v.to_set().insert(x@) =~= old_v.to_set());
        return;
    }
    if i < v.len() {
        assert(old_v[i as int] != x@);
        assert(lt(x@, old_v[i as int]));
    }
    let ghost xv = x@;
    v.insert(i, x);
    let ghost nv = views(v@);
    assert(nv =~= old_v.insert(i as int, xv));
    assert forall|a: int, b: int| 0 <= a < b < nv.len() implies #[trigger] lt(nv[a], #[trigger] nv[b]) by {
        if b < i {
        } else if a < i && b == i {
        } else if a < i {
            assert(lt(old_v[a], xv));
            if i < old_v.len() && b - 1 > i {
                assert(lt(old_v[i as int], old_v[b - 1]));
            }
            assert(lt(old_v[a], old_v[b - 1]));
        } else if a == i {
            if b - 1 > i {
                assert(lt(old_v[i as int], old_v[b - 1]));
            }
        } else {
            assert(lt(old_v[a - 1], old_v[b - 1]));
        }
    }
    assert(nv.to_set() =~= old_v.to_set().insert(xv)) by {
        assert forall|y: Seq<char>| nv.to_set().contains(y) <==> old_v.to_set().insert(xv).contains(y) by {
            if nv.to_set().contains(y) {
                let k = choose|k: int| 0 <= k < nv.len() && nv[k] == y;
                if k < i {
                    assert(old_v[k] == y);
                } else if k > i {
                    assert(old_v[k - 1] == y);
                }
            }
            if old_v.to_set().contains(y) {
                let k = choose|k: int| 0 <= k < old_v.len() && old_v[k] == y;
                if k < i {
                    assert(nv[k] == y);
                } else {
                    assert(nv[k + 1] == y);
                }
            }
            if y == xv {
                assert(nv[i as int] == y);
            }
        }
    }
}

/// The lower-case hexadecimal digit for `d` (`f` for anything above 15).
pub open spec fn digit_char(d: u32) -> char {
    if d == 0 {
        '0'
    } else if d == 1 {
        '1'
    } else if d == 2 {
        '2'
    } else if d == 3 {
        '3'
    } else if d == 4 {
        '4'
    } else if d == 5 {
        '5'
    } else if d == 6 {
        '6'
    } else if d == 7 {
        '7'
    } else if d == 8 {
        '8'
    } else if d == 9 {
        '9'
    } else if d == 10 {
        'a'
    } else if d == 11 {
        'b'
    } else if d == 12 {
        'c'
    } else if d == 13 {
        'd'
    } else if d == 14 {
        'e'
    } else {
        'f'
    }
}

/// The digit that `digit_char` names.
pub fn digit(d: u32) -> (r: char)
    ensures
        r == digit_char(d),
{
    if d == 0 {
        '0'
    } else if d == 1 {
        '1'
    } else if d == 2 {
        '2'
    } else if d == 3 {
        '3'
    } else if d == 4 {
        '4'
    } else if d == 5 {
        '5'
    } else if d == 6 {
        '6'
    } else if d == 7 {
        '7'
    } else if d == 8 {
        '8'
    } else if d == 9 {
        '9'
    } else if d == 10 {
        'a'
    } else if d == 11 {
        'b'
    } else if d == 12 {
        'c'
    } else if d == 13 {
        'd'
    } else if d == 14 {
        'e'
    } else {
        'f'
    }
}

/// Relies on `String::push`: appends one character.
#[verifier::external_body]
pub(crate) fn push_char(s: &mut String, c: char)
    ensures
        final(s)@ == old(s)@.push(c),
{
    s.push(c)
}

} // verus!
