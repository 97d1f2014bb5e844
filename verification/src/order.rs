//! The lexicographic order of sequences, as strings and ordered maps of
//! strings are compared: element by element, a proper prefix first.
use vstd::prelude::*;

verus! {

/// The outcome of comparing two values.
#[derive(Debug, Clone, Copy, PartialEq, Eq, Structural)]
pub enum Order {
    Less,
    Equal,
    Greater,
}

/// `lt` is a strict total order: irreflexive, transitive and total.
pub open spec fn strict_total<A>(lt: spec_fn(A, A) -> bool) -> bool {
    &&& forall|x: A| !#[trigger] lt(x, x)
    &&& forall|x: A, y: A, z: A| #[trigger] lt(x, y) && #[trigger] lt(y, z) ==> lt(x, z)
    &&& forall|x: A, y: A| x != y ==> #[trigger] lt(x, y) || #[trigger] lt(y, x)
}

/// Whether `a` comes before `b` when compared element by element under
/// `lt`, a proper prefix coming first.
pub open spec fn lex_lt<A>(a: Seq<A>, b: Seq<A>, lt: spec_fn(A, A) -> bool) -> bool
    decreases a.len(),
{
    if a.len() == 0 {
        b.len() > 0
    } else if b.len() == 0 {
        false
    } else if a[0] != b[0] {
        lt(a[0], b[0])
    } else {
        lex_lt(a.drop_first(), b.drop_first(), lt)
    }
}

/// The order of characters: by their code points.
pub open spec fn char_lt(a: char, b: char) -> bool {
    (a as int) < (b as int)
}

/// The order of characters, as a relation.
pub open spec fn char_order() -> spec_fn(char, char) -> bool {
    |x: char, y: char| char_lt(x, y)
}

/// The order of strings: by their characters, which is the order of their
/// UTF-8 bytes.
pub open spec fn str_lt(a: Seq<char>, b: Seq<char>) -> bool {
    lex_lt(a, b, char_order())
}

/// The order of strings, as a relation.
pub open spec fn str_order() -> spec_fn(Seq<char>, Seq<char>) -> bool {
    |a: Seq<char>, b: Seq<char>| str_lt(a, b)
}

/// The order of labelled values: by label, then by value.
pub open spec fn label_lt(p: (Seq<char>, Seq<char>), q: (Seq<char>, Seq<char>)) -> bool {
    str_lt(p.0, q.0) || (p.0 == q.0 && str_lt(p.1, q.1))
}

/// The order of labelled values, as a relation.
pub open spec fn label_order() -> spec_fn((Seq<char>, Seq<char>), (Seq<char>, Seq<char>)) -> bool {
    |p: (Seq<char>, Seq<char>), q: (Seq<char>, Seq<char>)| label_lt(p, q)
}

/// The order of sequences of labelled values, element by element.
pub open spec fn labels_lt(a: Seq<(Seq<char>, Seq<char>)>, b: Seq<(Seq<char>, Seq<char>)>) -> bool {
    lex_lt(a, b, label_order())
}

/// The order of sequences of labelled values, as a relation.
pub open spec fn labels_order() -> spec_fn(Seq<(Seq<char>, Seq<char>)>, Seq<(Seq<char>, Seq<char>)>) -> bool {
    |a: Seq<(Seq<char>, Seq<char>)>, b: Seq<(Seq<char>, Seq<char>)>| labels_lt(a, b)
}

/// The lexicographic order of a strict total order is a strict total order.
pub proof fn lemma_lex_irreflexive<A>(a: Seq<A>, lt: spec_fn(A, A) -> bool)
    requires
        strict_total(lt),
    ensures
        !lex_lt(a, a, lt),
    decreases a.len(),
{
    if a.len() > 0 {
        lemma_lex_irreflexive(a.drop_first(), lt);
    }
}

/// The lexicographic order is transitive.
pub proof fn lemma_lex_transitive<A>(a: Seq<A>, b: Seq<A>, c: Seq<A>, lt: spec_fn(A, A) -> bool)
    requires
        strict_total(lt),
        lex_lt(a, b, lt),
        lex_lt(b, c, lt),
    ensures
        lex_lt(a, c, lt),
    decreases a.len(),
{
    if a.len() > 0 && b.len() > 0 && c.len() > 0 {
        if a[0] == b[0] && b[0] == c[0] {
            lemma_lex_transitive(a.drop_first(), b.drop_first(), c.drop_first(), lt);
        } else if a[0] == b[0] {
            assert(lt(b[0], c[0]));
        } else if b[0] == c[0] {
            assert(lt(a[0], b[0]));
        } else {
            assert(lt(a[0], b[0]) && lt(b[0], c[0]));
            assert(lt(a[0], c[0]));
            if a[0] == c[0] {
                assert(!lt(a[0], a[0]));
            }
        }
    }
}

/// Of two different sequences, one comes before the other.
pub proof fn lemma_lex_total<A>(a: Seq<A>, b: Seq<A>, lt: spec_fn(A, A) -> bool)
    requires
        strict_total(lt),
        a != b,
    ensures
        lex_lt(a, b, lt) || lex_lt(b, a, lt),
    decreases a.len(),
{
    if a.len() > 0 && b.len() > 0 {
        if a[0] == b[0] {
            if a.drop_first() == b.drop_first() {
                assert(a =~= seq![a[0]] + a.drop_first());
                assert(b =~= seq![b[0]] + b.drop_first());
            }
            lemma_lex_total(a.drop_first(), b.drop_first(), lt);
        }
    } else if a.len() == 0 && b.len() == 0 {
        assert(a =~= b);
    }
}

/// The lexicographic order of a strict total order is a strict total order.
pub proof fn lemma_lex_strict_total<A>(lt: spec_fn(A, A) -> bool)
    requires
        strict_total(lt),
    ensures
        strict_total(|a: Seq<A>, b: Seq<A>| lex_lt(a, b, lt)),
{
    let l = |a: Seq<A>, b: Seq<A>| lex_lt(a, b, lt);
    assert forall|x: Seq<A>| !#[trigger] l(x, x) by {
        lemma_lex_irreflexive(x, lt);
    }
    assert forall|x: Seq<A>, y: Seq<A>, z: Seq<A>| #[trigger] l(x, y) && #[trigger] l(y, z) implies l(
        x,
        z,
    ) by {
        lemma_lex_transitive(x, y, z, lt);
    }
    assert forall|x: Seq<A>, y: Seq<A>| x != y implies #[trigger] l(x, y) || #[trigger] l(y, x) by {
        lemma_lex_total(x, y, lt);
    }
}

/// Characters are ordered strictly and totally.
pub proof fn lemma_char_strict_total()
    ensures
        strict_total(char_order()),
{
    let l = char_order();
    assert forall|x: char, y: char| x != y implies #[trigger] l(x, y) || #[trigger] l(y, x) by {
        if (x as int) == (y as int) {
            assert(x == y);
        }
    }
}

/// Strings are ordered strictly and totally.
pub proof fn lemma_str_strict_total()
    ensures
        strict_total(str_order()),
{
    lemma_char_strict_total();
    lemma_lex_strict_total(char_order());
    assert(str_order() =~= (|a: Seq<char>, b: Seq<char>| lex_lt(a, b, char_order())));
}

/// Labelled values are ordered strictly and totally.
pub proof fn lemma_label_strict_total()
    ensures
        strict_total(label_order()),
{
    lemma_str_strict_total();
    let s = str_order();
    let l = label_order();
    assert forall|x: (Seq<char>, Seq<char>)| !#[trigger] l(x, x) by {
        assert(!s(x.0, x.0) && !s(x.1, x.1));
    }
    assert forall|x: (Seq<char>, Seq<char>), y: (Seq<char>, Seq<char>), z: (Seq<char>, Seq<char>)|
        #[trigger] l(x, y) && #[trigger] l(y, z) implies l(x, z) by {
        if s(x.0, y.0) && s(y.0, z.0) {
            assert(s(x.0, z.0));
        }
        if s(x.1, y.1) && s(y.1, z.1) {
            assert(s(x.1, z.1));
        }
    }
    assert forall|x: (Seq<char>, Seq<char>), y: (Seq<char>, Seq<char>)| x != y implies #[trigger] l(
        x,
        y,
    ) || #[trigger] l(y, x) by {
        if x.0 != y.0 {
            assert(s(x.0, y.0) || s(y.0, x.0));
        } else {
            assert(x.1 != y.1);
            assert(s(x.1, y.1) || s(y.1, x.1));
        }
    }
}

/// Sequences of labelled values are ordered strictly and totally.
pub proof fn lemma_labels_strict_total()
    ensures
        strict_total(labels_order()),
{
    lemma_label_strict_total();
    lemma_lex_strict_total(label_order());
    assert(labels_order() =~= (|a: Seq<(Seq<char>, Seq<char>)>, b: Seq<(Seq<char>, Seq<char>)>| lex_lt(a, b, label_order())));
}

/// Of two sequences that agree up to a position and differ there, the one
/// with the smaller element at that position comes first.
pub proof fn lemma_lex_first_difference<A>(a: Seq<A>, b: Seq<A>, i: int, lt: spec_fn(A, A) -> bool)
    requires
        0 <= i < a.len(),
        i < b.len(),
        a.take(i) == b.take(i),
        a[i] != b[i],
    ensures
        lex_lt(a, b, lt) <==> lt(a[i], b[i]),
    decreases i,
{
    if i > 0 {
        assert(a[0] == a.take(i)[0] && b[0] == b.take(i)[0]);
        assert(a.drop_first().take(i - 1) =~= a.take(i).drop_first());
        assert(b.drop_first().take(i - 1) =~= b.take(i).drop_first());
        lemma_lex_first_difference(a.drop_first(), b.drop_first(), i - 1, lt);
    }
}

/// A proper prefix comes before the sequences it begins.
pub proof fn lemma_lex_proper_prefix<A>(a: Seq<A>, b: Seq<A>, lt: spec_fn(A, A) -> bool)
    requires
        a.len() < b.len(),
        a == b.take(a.len() as int),
    ensures
        lex_lt(a, b, lt),
        !lex_lt(b, a, lt),
    decreases a.len(),
{
    if a.len() > 0 {
        assert(a[0] == b[0]);
        assert(a.drop_first() =~= b.drop_first().take(a.len() - 1));
        lemma_lex_proper_prefix(a.drop_first(), b.drop_first(), lt);
    }
}

/// Strings are ordered by their first differing character, the one with the
/// smaller code point first; a string comes after every proper prefix of it.
pub proof fn lemma_str_order_by_code_points(a: Seq<char>, b: Seq<char>, i: int)
    requires
        0 <= i < a.len(),
        i < b.len(),
        a.take(i) == b.take(i),
        a[i] != b[i],
    ensures
        str_lt(a, b) <==> (a[i] as int) < (b[i] as int),
        str_lt(b, a) <==> (b[i] as int) < (a[i] as int),
{
    lemma_lex_first_difference(a, b, i, char_order());
    lemma_lex_first_difference(b, a, i, char_order());
    assert(char_order()(a[i], b[i]) == ((a[i] as int) < (b[i] as int)));
    assert(char_order()(b[i], a[i]) == ((b[i] as int) < (a[i] as int)));
}

/// A string comes after each of its proper prefixes.
pub proof fn lemma_str_prefix_first(a: Seq<char>, b: Seq<char>)
    requires
        a.len() < b.len(),
        a == b.take(a.len() as int),
    ensures
        str_lt(a, b),
        !str_lt(b, a),
{
    lemma_lex_proper_prefix(a, b, char_order());
}

/// Sets of attributes are ordered by their first differing labelled value:
/// by its label, and for the same label by its value.
pub proof fn lemma_labels_order_by_first_difference(
    a: Seq<(Seq<char>, Seq<char>)>,
    b: Seq<(Seq<char>, Seq<char>)>,
    i: int,
)
    requires
        0 <= i < a.len(),
        i < b.len(),
        a.take(i) == b.take(i),
        a[i] != b[i],
    ensures
        labels_lt(a, b) <==> (str_lt(a[i].0, b[i].0) || (a[i].0 == b[i].0 && str_lt(a[i].1, b[i].1))),
{
    lemma_lex_first_difference(a, b, i, label_order());
}

/// Compares two strings by their characters.
pub fn compare_strings(a: &String, b: &String) -> (r: Order)
    ensures
        r == Order::Less <==> str_lt(a@, b@),
        r == Order::Equal <==> a@ == b@,
        r == Order::Greater <==> str_lt(b@, a@),
{
    proof {
        lemma_str_strict_total();
    }
    let sa = a.as_str();
    let sb = b.as_str();
    let la = sa.unicode_len();
    let lb = sb.unicode_len();
    let ghost lt = char_order();
    let mut i: usize = 0;
    assert(a@.skip(0) =~= a@ && b@.skip(0) =~= b@);
    while i < la && i < lb
        invariant
            la == a@.len(),
            lb == b@.len(),
            sa@ == a@,
            sb@ == b@,
            lt == char_order(),
            i <= la,
            i <= lb,
            a@.take(i as int) == b@.take(i as int),
            str_lt(a@, b@) == lex_lt(a@.skip(i as int), b@.skip(i as int), lt),
            str_lt(b@, a@) == lex_lt(b@.skip(i as int), a@.skip(i as int), lt),
        decreases la - i,
    {
        let ca = sa.get_char(i);
        let cb = sb.get_char(i);
        let ghost xa = a@.skip(i as int);
        let ghost xb = b@.skip(i as int);
        assert(xa[0] == ca && xb[0] == cb);
        if ca != cb {
            proof {
                if a@ == b@ {
                    assert(a@[i as int] == b@[i as int]);
                }
            }
            assert(xa.len() > 0 && xb.len() > 0 && xa[0] != xb[0]);
            assert(lt(ca, cb) == char_lt(ca, cb));
            assert(lt(cb, ca) == char_lt(cb, ca));
            assert(lex_lt(xa, xb, lt) == lt(xa[0], xb[0]));
            assert(lex_lt(xb, xa, lt) == lt(xb[0], xa[0]));
            assert(lex_lt(xa, xb, lt) == char_lt(ca, cb));
            assert(lex_lt(xb, xa, lt) == char_lt(cb, ca));
            if (ca as u32) < (cb as u32) {
                return Order::Less;
            } else {
                return Order::Greater;
            }
        }
        assert(xa.drop_first() =~= a@.skip(i + 1));
        assert(xb.drop_first() =~= b@.skip(i + 1));
        assert(a@.take(i + 1) =~= a@.take(i as int).push(ca));
        assert(b@.take(i + 1) =~= b@.take(i as int).push(cb));
        i = i + 1;
    }
    let ghost xa = a@.skip(i as int);
    let ghost xb = b@.skip(i as int);
    if la < lb {
        proof {
            assert(xa.len() == 0 && xb.len() > 0);
            if a@ == b@ {
                assert(false);
            }
        }
        Order::Less
    } else if la == lb {
        proof {
            assert(a@ =~= a@.take(i as int));
            assert(b@ =~= b@.take(i as int));
        }
        Order::Equal
    } else {
        proof {
            assert(xb.len() == 0 && xa.len() > 0);
        }
        Order::Greater
    }
}

} // verus!
