//! What holds of Java import resolution and rendering for every input.
use vstd::prelude::*;

use crate::java::{
    args_keys, sorted_keys, type_keys,
    args_text, bare, boxed, imports_of, item_keys, items_keys, java_lang, key_lt, key_order,
    lemma_key_order_strict, lookup, path_text, qualifies, resolve, type_text, Config, Item, Key,
    Primitive, Type, TypeBox, file_text,
};
use crate::order::{lemma_sorted_of_exists, lemma_union_of_same_elements, lemma_seq_lt_irreflexive, lemma_seq_lt_transitive, lemma_sorted_of_is, seq_lt, sorted_by, sorted_of};

verus! {

/// A key that is neither built in nor in the file's package.
pub open spec fn importable_key(k: Key, file: Option<Seq<char>>) -> bool {
    k.0 != java_lang() && file != Some(k.0)
}

/// The keys of `q` that are neither built in nor in the file's package, in order.
pub open spec fn importable(q: Seq<Key>, file: Option<Seq<char>>) -> Seq<Key>
    decreases q.len(),
{
    if q.len() == 0 {
        seq![]
    } else if importable_key(q.last(), file) {
        importable(q.drop_last(), file).push(q.last())
    } else {
        importable(q.drop_last(), file)
    }
}

proof fn lemma_importable_contains(q: Seq<Key>, file: Option<Seq<char>>, x: Key)
    ensures
        importable(q, file).contains(x) <==> q.contains(x) && importable_key(x, file),
    decreases q.len(),
{
    if q.len() > 0 {
        lemma_importable_contains(q.drop_last(), file, x);
        let p = importable(q.drop_last(), file);
        if q.contains(x) && x != q.last() {
            let i = choose|i: int| 0 <= i < q.len() && q[i] == x;
            assert(q.drop_last()[i] == x);
        }
        if q.drop_last().contains(x) {
            let i = choose|i: int| 0 <= i < q.drop_last().len() && q.drop_last()[i] == x;
            assert(q[i] == x);
        }
        if importable_key(q.last(), file) {
            if p.push(q.last()).contains(x) && x != q.last() {
                let i = choose|i: int| 0 <= i < p.push(q.last()).len() && p.push(q.last())[i] == x;
                assert(p[i] == x);
            }
            if p.contains(x) {
                let i = choose|i: int| 0 <= i < p.len() && p[i] == x;
                assert(p.push(q.last())[i] == x);
            }
            assert(p.push(q.last())[p.len() as int] == q.last());
        }
        assert(q[q.len() - 1] == q.last());
    }
}

proof fn lemma_importable_no_duplicates(q: Seq<Key>, file: Option<Seq<char>>)
    requires
        sorted_by(q, key_order()),
    ensures
        importable(q, file).no_duplicates(),
    decreases q.len(),
{
    lemma_key_order_strict();
    if q.len() > 0 {
        let d = q.drop_last();
        assert(sorted_by(d, key_order())) by {
            assert forall|i: int, j: int| 0 <= i < j < d.len() implies #[trigger] key_order()(d[i], #[trigger] d[j]) by {
                assert(key_order()(q[i], q[j]));
            }
        }
        lemma_importable_no_duplicates(d, file);
        if importable_key(q.last(), file) {
            lemma_importable_contains(d, file, q.last());
            if d.contains(q.last()) {
                let i = choose|i: int| 0 <= i < d.len() && d[i] == q.last();
                assert(key_order()(q[i], q[q.len() - 1]));
            }
            let p = importable(d, file);
            let r = p.push(q.last());
            assert forall|i: int, j: int| 0 <= i < r.len() && 0 <= j < r.len() && i != j implies r[i] != r[j] by {
                if i < p.len() && j < p.len() {
                } else if i < p.len() {
                    assert(p.contains(r[i]));
                } else {
                    assert(p.contains(r[j]));
                }
            }
        }
    }
}

proof fn lemma_resolve_distinct_names(q: Seq<Key>, file: Option<Seq<char>>)
    requires
        forall|i: int, j: int|
            0 <= i < j < q.len() && importable_key(q[i], file) && importable_key(q[j], file) ==> (
            #[trigger] q[i]).1 != (#[trigger] q[j]).1,
    ensures
        resolve(q, seq![], file).0 == importable(q, file),
        forall|x: Seq<char>| #[trigger] lookup(resolve(q, seq![], file).1, x) is Some ==> exists|i: int|
            0 <= i < q.len() && (#[trigger] q[i]).1 == x && importable_key(q[i], file),
    decreases q.len(),
{
    if q.len() > 0 {
        let d = q.drop_last();
        assert forall|i: int, j: int|
            0 <= i < j < d.len() && importable_key(d[i], file) && importable_key(d[j], file) implies (
            #[trigger] d[i]).1 != (#[trigger] d[j]).1 by {
            assert(q[i] == d[i] && q[j] == d[j]);
        }
        lemma_resolve_distinct_names(d, file);
        let prev = resolve(d, seq![], file);
        let k = q.last();
        if lookup(prev.1, k.1) is Some && importable_key(k, file) {
            let i = choose|i: int| 0 <= i < d.len() && (#[trigger] d[i]).1 == k.1 && importable_key(d[i], file);
            assert(q[i] == d[i]);
            assert(q[i].1 != q[q.len() - 1].1);
        }
        let r = resolve(q, seq![], file);
        assert forall|x: Seq<char>| #[trigger] lookup(r.1, x) is Some implies exists|i: int|
            0 <= i < q.len() && (#[trigger] q[i]).1 == x && importable_key(q[i], file) by {
            if importable_key(k, file) && !(lookup(prev.1, k.1) is Some) {
                assert(r.1.drop_last() =~= prev.1);
            }
            if !importable_key(k, file) || x != k.1 {
                if lookup(prev.1, x) is Some {
                    let i = choose|i: int| 0 <= i < d.len() && (#[trigger] d[i]).1 == x && importable_key(d[i], file);
                    assert(q[i] == d[i]);
                }
            } else {
                assert(q[q.len() - 1].1 == x);
            }
        }
        if importable_key(k, file) && !(lookup(prev.1, k.1) is Some) {
            assert(r.1.drop_last() =~= prev.1);
        }
    }
}

proof fn lemma_import_count_sorted(q: Seq<Key>, file: Option<Seq<char>>)
    requires
        sorted_by(q, key_order()),
        forall|i: int, j: int|
            0 <= i < j < q.len() && importable_key(q[i], file) && importable_key(q[j], file) ==> (
            #[trigger] q[i]).1 != (#[trigger] q[j]).1,
    ensures
        resolve(q, seq![], file).0 == importable(q, file),
        resolve(q, seq![], file).0.len() == q.to_set().filter(|k: Key| importable_key(k, file)).len(),
{
    lemma_resolve_distinct_names(q, file);
    lemma_importable_no_duplicates(q, file);
    let p = importable(q, file);
    assert(p.to_set() =~= q.to_set().filter(|k: Key| importable_key(k, file))) by {
        assert forall|x: Key| p.to_set().contains(x) <==> q.to_set().filter(|k: Key| importable_key(k, file)).contains(x) by {
            lemma_importable_contains(q, file, x);
        }
    }
    p.unique_seq_to_set();
}

proof fn lemma_type_keys_finite(t: TypeBox)
    ensures
        type_keys(t).finite(),
    decreases t, 0int,
{
    match t {
        TypeBox::Type(ty) => lemma_args_keys_finite(ty.arguments, ty.arguments.len() as int),
        TypeBox::Optional(o) => lemma_type_keys_finite(*o.value),
        _ => {},
    }
}

proof fn lemma_args_keys_finite(args: Vec<TypeBox>, n: int)
    ensures
        args_keys(args, n).finite(),
    decreases args, n,
{
    if 0 < n <= args.len() {
        assert(decreases_to!(args => args[n - 1])) by {
            broadcast use vstd::std_specs::vec::axiom_vec_index_decreases;
        }
        lemma_args_keys_finite(args, n - 1);
        lemma_type_keys_finite(args[n - 1]);
    }
}

proof fn lemma_items_keys_finite(items: Seq<Item>)
    ensures
        items_keys(items).finite(),
    decreases items.len(),
{
    if items.len() > 0 {
        lemma_items_keys_finite(items.drop_last());
        match items.last() {
            Item::Type(t) => lemma_type_keys_finite(t),
            _ => {},
        }
    }
}

/// The keys of a token stream, in ascending order, hold each of its keys
/// exactly once.
pub proof fn lemma_sorted_keys(items: Seq<Item>)
    ensures
        sorted_by(sorted_keys(items), key_order()),
        sorted_keys(items).to_set() == items_keys(items),
{
    lemma_key_order_strict();
    lemma_items_keys_finite(items);
    lemma_sorted_of_exists(items_keys(items), key_order());
}

/// When no two keys of a token stream that are neither built in nor in the
/// file's package share a name, resolving against an empty table imports
/// exactly those keys, in ascending order; so the number of import
/// statements is the number of its distinct keys less the built-in and
/// same-package ones.
pub proof fn lemma_import_count(items: Seq<Item>, file: Option<Seq<char>>)
    requires
        forall|a: Key, b: Key|
            items_keys(items).contains(a) && items_keys(items).contains(b) && importable_key(a, file)
                && importable_key(b, file) && a.1 == b.1 ==> a == b,
    ensures
        imports_of(items, seq![], file).0 == importable(sorted_keys(items), file),
        imports_of(items, seq![], file).0.len() == items_keys(items).filter(
            |k: Key| importable_key(k, file),
        ).len(),
{
    lemma_key_order_strict();
    lemma_sorted_keys(items);
    let q = sorted_keys(items);
    assert forall|i: int, j: int|
        0 <= i < j < q.len() && importable_key(q[i], file) && importable_key(q[j], file) implies (
        #[trigger] q[i]).1 != (#[trigger] q[j]).1 by {
        assert(q.to_set().contains(q[i]));
        assert(q.to_set().contains(q[j]));
        assert(key_order()(q[i], q[j]));
    }
    lemma_import_count_sorted(q, file);
}

/// Rendering a token stream gives the same text under any two
/// configurations with the same package and the same table; in particular
/// under two freshly built ones.
pub proof fn lemma_render_repeatable(items: Seq<Item>, c1: Config, c2: Config)
    requires
        c1.package_view() == c2.package_view(),
        c1.table() == c2.table(),
    ensures
        file_text(items, c1.table(), c1.package_view()) == file_text(items, c2.table(), c2.package_view()),
        imports_of(items, c1.table(), c1.package_view()) == imports_of(items, c2.table(), c2.package_view()),
{
}

/// The keys collected, the imports, and the table that decides every use
/// site depend only on which tokens a stream holds, not on their order or
/// repetition.
pub proof fn lemma_order_independent(
    a: Seq<Item>,
    b: Seq<Item>,
    table: Seq<(Seq<char>, Seq<char>)>,
    file: Option<Seq<char>>,
)
    requires
        a.to_set() == b.to_set(),
    ensures
        items_keys(a) == items_keys(b),
        imports_of(a, table, file) == imports_of(b, table, file),
{
    lemma_union_of_same_elements(a, b, |i: Item| item_keys(i));
}

/// The package of the first key of `q` named `n` that is neither built in
/// nor in the file's package.
pub open spec fn first_owner(q: Seq<Key>, n: Seq<char>, file: Option<Seq<char>>) -> Option<Seq<char>>
    decreases q.len(),
{
    if q.len() == 0 {
        None
    } else {
        let prev = first_owner(q.drop_last(), n, file);
        if prev is Some {
            prev
        } else if importable_key(q.last(), file) && q.last().1 == n {
            Some(q.last().0)
        } else {
            None
        }
    }
}

proof fn lemma_resolve_owner(q: Seq<Key>, file: Option<Seq<char>>, n: Seq<char>)
    ensures
        lookup(resolve(q, seq![], file).1, n) == first_owner(q, n, file),
    decreases q.len(),
{
    if q.len() > 0 {
        let d = q.drop_last();
        let k = q.last();
        lemma_resolve_owner(d, file, n);
        lemma_resolve_owner(d, file, k.1);
        let prev = resolve(d, seq![], file);
        if !(lookup(prev.1, k.1) is Some) && importable_key(k, file) {
            assert(resolve(q, seq![], file).1.drop_last() =~= prev.1);
        }
    }
}

proof fn lemma_resolve_lines(q: Seq<Key>, file: Option<Seq<char>>, x: Key)
    ensures
        resolve(q, seq![], file).0.contains(x) <==> lookup(resolve(q, seq![], file).1, x.1) == Some(x.0)
            && importable_key(x, file),
    decreases q.len(),
{
    if q.len() > 0 {
        let d = q.drop_last();
        let k = q.last();
        lemma_resolve_lines(d, file, x);
        let prev = resolve(d, seq![], file);
        let r = resolve(q, seq![], file);
        if !(lookup(prev.1, k.1) is Some) && importable_key(k, file) {
            assert(r.1.drop_last() =~= prev.1);
            if r.0.contains(x) && x != k {
                let i = choose|i: int| 0 <= i < r.0.len() && r.0[i] == x;
                assert(prev.0[i] == x);
            }
            if prev.0.contains(x) {
                let i = choose|i: int| 0 <= i < prev.0.len() && prev.0[i] == x;
                assert(r.0[i] == x);
            }
            assert(r.0[prev.0.len() as int] == k);
        }
    }
}

proof fn lemma_no_owner(q: Seq<Key>, n: Seq<char>, file: Option<Seq<char>>)
    requires
        forall|i: int| 0 <= i < q.len() ==> !(importable_key(#[trigger] q[i], file) && q[i].1 == n),
    ensures
        first_owner(q, n, file) is None,
    decreases q.len(),
{
    if q.len() > 0 {
        let d = q.drop_last();
        assert forall|i: int| 0 <= i < d.len() implies !(importable_key(#[trigger] d[i], file) && d[i].1 == n) by {
            assert(q[i] == d[i]);
        }
        lemma_no_owner(d, n, file);
        assert(q[q.len() - 1] == q.last());
    }
}

proof fn lemma_least_owner(q: Seq<Key>, pkg: Seq<char>, n: Seq<char>, file: Option<Seq<char>>)
    requires
        sorted_by(q, key_order()),
        q.contains((pkg, n)),
        importable_key((pkg, n), file),
        forall|i: int|
            0 <= i < q.len() && importable_key(#[trigger] q[i], file) && q[i].1 == n ==> q[i].0 == pkg
                || seq_lt(pkg, q[i].0),
    ensures
        first_owner(q, n, file) == Some(pkg),
    decreases q.len(),
{
    lemma_key_order_strict();
    let d = q.drop_last();
    let last = q.len() - 1;
    if q.last() == (pkg, n) {
        assert forall|i: int| 0 <= i < d.len() implies !(importable_key(#[trigger] d[i], file) && d[i].1 == n) by {
            assert(q[i] == d[i]);
            assert(key_order()(q[i], q[last]));
            if importable_key(d[i], file) && d[i].1 == n {
                lemma_seq_lt_irreflexive(pkg);
                lemma_seq_lt_irreflexive(n);
                if seq_lt(pkg, q[i].0) {
                    lemma_seq_lt_transitive(pkg, q[i].0, pkg);
                }
            }
        }
        lemma_no_owner(d, n, file);
    } else {
        let j = choose|j: int| 0 <= j < q.len() && q[j] == (pkg, n);
        assert(j != last);
        assert(d[j] == (pkg, n));
        assert(sorted_by(d, key_order())) by {
            assert forall|a: int, b: int| 0 <= a < b < d.len() implies #[trigger] key_order()(d[a], #[trigger] d[b]) by {
                assert(key_order()(q[a], q[b]));
            }
        }
        assert forall|i: int|
            0 <= i < d.len() && importable_key(#[trigger] d[i], file) && d[i].1 == n implies d[i].0 == pkg
                || seq_lt(pkg, d[i].0) by {
            assert(q[i] == d[i]);
        }
        lemma_least_owner(d, pkg, n, file);
    }
}

/// Of all the keys of a token stream named `n` that are neither built in
/// nor in the file's package, the one whose package sorts first owns the
/// name: it gets the one import line for `n` and is written bare, while any
/// other such key, here `(pkg_b, n)`, gets no import line and is written
/// with its package.
pub proof fn lemma_collision_rule(
    items: Seq<Item>,
    pkg_a: Seq<char>,
    pkg_b: Seq<char>,
    n: Seq<char>,
    file: Option<Seq<char>>,
)
    requires
        items_keys(items).contains((pkg_a, n)),
        items_keys(items).contains((pkg_b, n)),
        importable_key((pkg_a, n), file),
        importable_key((pkg_b, n), file),
        seq_lt(pkg_a, pkg_b),
        forall|p: Seq<char>|
            items_keys(items).contains((p, n)) && importable_key((p, n), file) ==> p == pkg_a || seq_lt(
                pkg_a,
                p,
            ),
    ensures
        lookup(imports_of(items, seq![], file).1, n) == Some(pkg_a),
        imports_of(items, seq![], file).0.contains((pkg_a, n)),
        !imports_of(items, seq![], file).0.contains((pkg_b, n)),
        !qualifies(pkg_a, n, imports_of(items, seq![], file).1, file),
        qualifies(pkg_b, n, imports_of(items, seq![], file).1, file),
{
    lemma_sorted_keys(items);
    lemma_seq_lt_irreflexive(pkg_a);
    let q = sorted_keys(items);
    assert(q.to_set().contains((pkg_a, n)));
    assert forall|i: int|
        0 <= i < q.len() && importable_key(#[trigger] q[i], file) && q[i].1 == n implies q[i].0 == pkg_a
            || seq_lt(pkg_a, q[i].0) by {
        assert(q.to_set().contains(q[i]));
        assert(q[i] == (q[i].0, n));
    }
    lemma_least_owner(q, pkg_a, n, file);
    lemma_resolve_owner(q, file, n);
    lemma_resolve_lines(q, file, (pkg_a, n));
    lemma_resolve_lines(q, file, (pkg_b, n));
}

/// Of two classes with one name in two packages, neither built in nor the
/// file's, the one whose package sorts first gets the only import and is
/// written bare; the other gets no import and is written with its package.
pub proof fn lemma_collision(
    pkg_a: Seq<char>,
    pkg_b: Seq<char>,
    n: Seq<char>,
    file: Option<Seq<char>>,
    first: Type,
    second: Type,
)
    requires
        seq_lt(pkg_a, pkg_b),
        pkg_a != java_lang(),
        pkg_b != java_lang(),
        file != Some(pkg_a),
        file != Some(pkg_b),
        first.package@ == pkg_a,
        second.package@ == pkg_b,
        first.name@ == n,
        second.name@ == n,
        first.path@.len() == 0,
        second.path@.len() == 0,
        first.arguments@.len() == 0,
        second.arguments@.len() == 0,
    ensures
        sorted_of(set![(pkg_a, n), (pkg_b, n)], key_order()) == seq![(pkg_a, n), (pkg_b, n)],
        resolve(seq![(pkg_a, n), (pkg_b, n)], seq![], file) == (seq![(pkg_a, n)], seq![(n, pkg_a)]),
        type_text(TypeBox::Type(first), seq![(n, pkg_a)], file, false) == n,
        type_text(TypeBox::Type(second), seq![(n, pkg_a)], file, false) == pkg_b + seq!['.'] + n,
{
    lemma_key_order_strict();
    lemma_seq_lt_irreflexive(pkg_a);
    let q = seq![(pkg_a, n), (pkg_b, n)];
    assert(key_lt(q[0], q[1]));
    assert(sorted_by(q, key_order()));
    lemma_sorted_of_is(q, key_order());
    assert(q.to_set() =~= set![(pkg_a, n), (pkg_b, n)]) by {
        assert(q[0] == (pkg_a, n));
        assert(q[1] == (pkg_b, n));
    }
    assert(q.drop_last() =~= seq![(pkg_a, n)]);
    assert(seq![(pkg_a, n)].drop_last() =~= Seq::<Key>::empty());
    let t: Seq<(Seq<char>, Seq<char>)> = seq![(n, pkg_a)];
    assert(t.drop_last() =~= Seq::<(Seq<char>, Seq<char>)>::empty());
    assert(lookup(t, n) == Some(pkg_a));
    assert(lookup(Seq::<(Seq<char>, Seq<char>)>::empty(), n) is None);
    let r0 = resolve(Seq::<Key>::empty(), seq![], file);
    assert(r0.0 =~= Seq::<Key>::empty());
    assert(r0.1 =~= Seq::<(Seq<char>, Seq<char>)>::empty());
    let r1 = resolve(seq![(pkg_a, n)], seq![], file);
    assert(r1.0 =~= seq![(pkg_a, n)]);
    assert(r1.1 =~= t);
    assert(resolve(q, seq![], file) == r1);
    assert(path_text(first.path@) == Seq::<char>::empty());
    assert(path_text(second.path@) == Seq::<char>::empty());
    assert(type_text(TypeBox::Type(first), t, file, false) =~= n);
    assert(type_text(TypeBox::Type(second), t, file, false) =~= pkg_b + seq!['.'] + n);
}

/// A primitive at the top level is written bare; as the only generic
/// argument of a class it is written boxed, between the angle brackets
/// that end the class's text.
pub proof fn lemma_boxing(
    p: Primitive,
    t: Type,
    table: Seq<(Seq<char>, Seq<char>)>,
    file: Option<Seq<char>>,
)
    requires
        t.arguments@ == seq![TypeBox::Primitive(p)],
    ensures
        type_text(TypeBox::Primitive(p), table, file, false) == bare(p),
        type_text(TypeBox::Primitive(p), table, file, true) == boxed(p),
        ({
            let s = type_text(TypeBox::Type(t), table, file, false);
            let tail = seq!['<'] + boxed(p) + seq!['>'];
            s.len() >= tail.len() && s.subrange(s.len() - tail.len(), s.len() as int) == tail
        }),
{
    assert(t.arguments@.len() == 1);
    assert(t.arguments.len() == 1);
    assert(t.arguments[0] == TypeBox::Primitive(p));
    assert(type_text(t.arguments[0], table, file, true) == boxed(p));
    assert(args_text(t.arguments, 1, table, file) == type_text(t.arguments[0], table, file, true));
    let s = type_text(TypeBox::Type(t), table, file, false);
    let tail = seq!['<'] + boxed(p) + seq!['>'];
    let head = if qualifies(t.package@, t.name@, table, file) {
        t.package@ + seq!['.']
    } else {
        seq![]
    };
    let front = head + t.name@ + path_text(t.path@);
    assert(s == front + tail);
    assert(s.subrange(s.len() - tail.len(), s.len() as int) =~= tail);
}

/// No key that is built in or in the file's package is ever imported.
pub proof fn lemma_suppressed_not_imported(
    q: Seq<Key>,
    table: Seq<(Seq<char>, Seq<char>)>,
    file: Option<Seq<char>>,
)
    ensures
        forall|k: Key| #[trigger] resolve(q, table, file).0.contains(k) ==> importable_key(k, file),
    decreases q.len(),
{
    if q.len() > 0 {
        lemma_suppressed_not_imported(q.drop_last(), table, file);
        let prev = resolve(q.drop_last(), table, file);
        let r = resolve(q, table, file);
        assert forall|k: Key| #[trigger] r.0.contains(k) implies importable_key(k, file) by {
            let i = choose|i: int| 0 <= i < r.0.len() && r.0[i] == k;
            if i < prev.0.len() {
                assert(prev.0[i] == k);
                assert(prev.0.contains(k));
            }
        }
    }
}

/// A class that is built in or in the file's package is written without
/// its package, whatever the table holds.
pub proof fn lemma_suppressed_unqualified(
    t: Type,
    table: Seq<(Seq<char>, Seq<char>)>,
    file: Option<Seq<char>>,
)
    requires
        t.package@ == java_lang() || file == Some(t.package@),
    ensures
        !qualifies(t.package@, t.name@, table, file),
        type_text(TypeBox::Type(t), table, file, false) == t.name@ + path_text(t.path@) + if t.arguments@.len() == 0 {
            seq![]
        } else {
            seq!['<'] + args_text(t.arguments, t.arguments@.len() as int, table, file) + seq!['>']
        },
{
    assert(type_text(TypeBox::Type(t), table, file, false) =~= t.name@ + path_text(t.path@) + if t.arguments@.len() == 0 {
        seq![]
    } else {
        seq!['<'] + args_text(t.arguments, t.arguments@.len() as int, table, file) + seq!['>']
    });
}

} // verus!
