//! Lexicographic order on names and on paths made of names.

use vstd::prelude::*;

verus! {

/// Lexicographic order on sequences, given an order `lt` on their elements:
/// `a` is a proper prefix of `b`, or at the first place where they differ the
/// element of `a` comes first.
pub open spec fn lex_lt<T>(a: Seq<T>, b: Seq<T>, lt: spec_fn(T, T) -> bool) -> bool
    decreases a.len(),
{
    if a.len() == 0 {
        b.len() > 0
    } else if b.len() == 0 {
        false
    } else if a[0] != b[0] {
        lt(a[0], b[0])
    } else {
        lex_lt(a.drop_first(), b.drop_first(), lt)
    }
}

/// `lt` is irreflexive, transitive and total on distinct elements.
pub open spec fn strict_total_order<T>(lt: spec_fn(T, T) -> bool) -> bool {
    &&& forall|x: T| !#[trigger] lt(x, x)
    &&& forall|x: T, y: T, z: T| #[trigger] lt(x, y) && #[trigger] lt(y, z) ==> lt(x, z)
    &&& forall|x: T, y: T| #![trigger lt(x, y)] x != y ==> lt(x, y) || lt(y, x)
}

/// The order of bytes as numbers.
pub open spec fn byte_lt() -> spec_fn(u8, u8) -> bool {
    |x: u8, y: u8| x < y
}

/// Byte-wise lexicographic order on file names.
pub open spec fn name_lt(a: Seq<u8>, b: Seq<u8>) -> bool {
    lex_lt(a, b, byte_lt())
}

/// `name_lt` as a function value, the element order of `path_lt`.
pub open spec fn name_order() -> spec_fn(Seq<u8>, Seq<u8>) -> bool {
    |x: Seq<u8>, y: Seq<u8>| name_lt(x, y)
}

/// Order on paths, compared component by component (each component by its
/// bytes). A path sorts before every path below it.
pub open spec fn path_lt(a: Seq<Seq<u8>>, b: Seq<Seq<u8>>) -> bool {
    lex_lt(a, b, name_order())
}

/// No sequence sorts before itself.
pub proof fn lemma_lex_irreflexive<T>(a: Seq<T>, lt: spec_fn(T, T) -> bool)
    requires
        strict_total_order(lt),
    ensures
        !lex_lt(a, a, lt),
    decreases a.len(),
{
    if a.len() > 0 {
        lemma_lex_irreflexive(a.drop_first(), lt);
    }
}

/// Lexicographic order is transitive.
pub proof fn lemma_lex_transitive<T>(a: Seq<T>, b: Seq<T>, c: Seq<T>, lt: spec_fn(T, T) -> bool)
    requires
        strict_total_order(lt),
        lex_lt(a, b, lt),
        lex_lt(b, c, lt),
    ensures
        lex_lt(a, c, lt),
    decreases a.len(),
{
    if a.len() > 0 && b.len() > 0 && c.len() > 0 {
        if a[0] == b[0] && b[0] == c[0] {
            lemma_lex_transitive(a.drop_first(), b.drop_first(), c.drop_first(), lt);
        }
    }
}

/// Of two different sequences, one sorts before the other.
pub proof fn lemma_lex_total<T>(a: Seq<T>, b: Seq<T>, lt: spec_fn(T, T) -> bool)
    requires
        strict_total_order(lt),
        a != b,
    ensures
        lex_lt(a, b, lt) || lex_lt(b, a, lt),
    decreases a.len(),
{
    if a.len() == 0 && b.len() == 0 {
        assert(a =~= b);
    } else if a.len() > 0 && b.len() > 0 && a[0] != b[0] {
        assert(lt(a[0], b[0]) || lt(b[0], a[0]));
    } else if a.len() > 0 && b.len() > 0 {
        if a.drop_first() == b.drop_first() {
            assert(a =~= b.drop_first().insert(0, b[0]));
            assert(b =~= b.drop_first().insert(0, b[0]));
        } else {
            lemma_lex_total(a.drop_first(), b.drop_first(), lt);
        }
    }
}

/// A sequence sorts before each of its extensions by one element.
pub proof fn lemma_lex_extend<T>(a: Seq<T>, x: T, lt: spec_fn(T, T) -> bool)
    ensures
        lex_lt(a, a.push(x), lt),
    decreases a.len(),
{
    if a.len() > 0 {
        assert(a.push(x).drop_first() =~= a.drop_first().push(x));
        lemma_lex_extend(a.drop_first(), x, lt);
    }
}

/// Bytes are totally ordered.
pub proof fn lemma_byte_order()
    ensures
        strict_total_order(byte_lt()),
{
}

/// Names are totally ordered.
pub proof fn lemma_name_order()
    ensures
        strict_total_order(name_order()),
{
    lemma_byte_order();
    assert forall|x: Seq<u8>| !#[trigger] name_order()(x, x) by {
        lemma_lex_irreflexive(x, byte_lt());
    }
    assert forall|x: Seq<u8>, y: Seq<u8>, z: Seq<u8>|
        #[trigger] name_order()(x, y) && #[trigger] name_order()(y, z) implies name_order()(
            x,
            z,
        ) by {
        lemma_lex_transitive(x, y, z, byte_lt());
    }
    assert forall|x: Seq<u8>, y: Seq<u8>| #![trigger name_order()(x, y)] x != y implies name_order()(
        x,
        y,
    ) || name_order()(y, x) by {
        lemma_lex_total(x, y, byte_lt());
    }
}

/// `path_lt` is a strict total order.
pub proof fn lemma_path_order(a: Seq<Seq<u8>>, b: Seq<Seq<u8>>, c: Seq<Seq<u8>>)
    ensures
        !path_lt(a, a),
        path_lt(a, b) && path_lt(b, c) ==> path_lt(a, c),
        a != b ==> path_lt(a, b) || path_lt(b, a),
{
    lemma_name_order();
    lemma_lex_irreflexive(a, name_order());
    if path_lt(a, b) && path_lt(b, c) {
        lemma_lex_transitive(a, b, c, name_order());
    }
    if a != b {
        lemma_lex_total(a, b, name_order());
    }
}

/// The facts about `path_lt` that sorting needs, for all paths at once.
pub proof fn lemma_path_order_all()
    ensures
        forall|a: Seq<Seq<u8>>| !#[trigger] path_lt(a, a),
        forall|a: Seq<Seq<u8>>, b: Seq<Seq<u8>>, c: Seq<Seq<u8>>|
            #[trigger] path_lt(a, b) && #[trigger] path_lt(b, c) ==> path_lt(a, c),
        forall|a: Seq<Seq<u8>>, b: Seq<Seq<u8>>|
            #![trigger path_lt(a, b)]
            a != b ==> path_lt(a, b) || path_lt(b, a),
{
    assert forall|a: Seq<Seq<u8>>| !#[trigger] path_lt(a, a) by {
        lemma_path_order(a, a, a);
    }
    assert forall|a: Seq<Seq<u8>>, b: Seq<Seq<u8>>, c: Seq<Seq<u8>>|
        #[trigger] path_lt(a, b) && #[trigger] path_lt(b, c) implies path_lt(a, c) by {
        lemma_path_order(a, b, c);
    }
    assert forall|a: Seq<Seq<u8>>, b: Seq<Seq<u8>>| #![trigger path_lt(a, b)] a != b implies path_lt(
        a,
        b,
    ) || path_lt(b, a) by {
        lemma_path_order(a, b, a);
    }
}

/// Compares two names byte by byte.
pub fn compare_names(a: &Vec<u8>, b: &Vec<u8>) -> (r: core::cmp::Ordering)
    ensures
        (r == core::cmp::Ordering::Less) == name_lt(a@, b@),
        (r == core::cmp::Ordering::Equal) == (a@ == b@),
        (r == core::cmp::Ordering::Greater) == name_lt(b@, a@),
{
    proof {
        lemma_byte_order();
        lemma_lex_irreflexive(a@, byte_lt());
    }
    assert(a@.skip(0) =~= a@);
    assert(b@.skip(0) =~= b@);
    let mut i: usize = 0;
    while i < a.len() && i < b.len() && a[i] == b[i]
        invariant
            i <= a.len(),
            i <= b.len(),
            a@.take(i as int) == b@.take(i as int),
            name_lt(a@, b@) == name_lt(a@.skip(i as int), b@.skip(i as int)),
            name_lt(b@, a@) == name_lt(b@.skip(i as int), a@.skip(i as int)),
        decreases a.len() - i,
    {
        assert(a@.skip(i as int).drop_first() =~= a@.skip(i + 1));
        assert(b@.skip(i as int).drop_first() =~= b@.skip(i + 1));
        assert(a@.take(i + 1) =~= a@.take(i as int).push(a@[i as int]));
        assert(b@.take(i + 1) =~= b@.take(i as int).push(b@[i as int]));
        i = i + 1;
    }
    if i == a.len() && i == b.len() {
        assert(a@ =~= a@.take(i as int));
        assert(b@ =~= b@.take(i as int));
        core::cmp::Ordering::Equal
    } else {
        proof {
            if a@ == b@ {
                assert(a@.skip(i as int) =~= b@.skip(i as int));
                lemma_lex_irreflexive(a@.skip(i as int), byte_lt());
            }
            if name_lt(a@, b@) {
                lemma_lex_irreflexive(a@, byte_lt());
                if name_lt(b@, a@) {
                    lemma_lex_transitive(a@, b@, a@, byte_lt());
                }
            }
        }
        if i == a.len() {
            core::cmp::Ordering::Less
        } else if i == b.len() {
            core::cmp::Ordering::Greater
        } else if a[i] < b[i] {
            core::cmp::Ordering::Less
        } else {
            core::cmp::Ordering::Greater
        }
    }
}

} // verus!
