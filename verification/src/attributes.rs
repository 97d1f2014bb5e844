//! Sets of attributes: string labels, each with a value, that tell apart the
//! observations of one metric. The labels are kept in ascending order, so a
//! set of attributes is the same whatever the order it was given in.
use vstd::prelude::*;
use crate::assoc::{ascending_by, is_place_of, lemma_ascending_unique, lemma_ascending_absent, lemma_ascending_insert, map_of, unique_keys, has_key, lemma_map_of_dom, lemma_map_of_unique, lemma_update_value, lemma_insert_new_key};
use crate::order::{Order, str_lt, str_order, label_lt, labels_lt, label_order, lex_lt, compare_strings, lemma_str_strict_total, lemma_label_strict_total};

verus! {

/// The labels and values of a sequence of string pairs.
pub open spec fn label_views(s: Seq<(String, String)>) -> Seq<(Seq<char>, Seq<char>)> {
    s.map_values(|p: (String, String)| (p.0@, p.1@))
}

/// The labels and values of a sequence of string-slice pairs.
pub open spec fn str_pair_views(s: Seq<(&str, &str)>) -> Seq<(Seq<char>, Seq<char>)> {
    s.map_values(|p: (&str, &str)| (p.0@, p.1@))
}

/// The labels are in strictly ascending order.
pub open spec fn keys_ascending(s: Seq<(Seq<char>, Seq<char>)>) -> bool {
    ascending_by(s, str_order())
}

/// Labels in strictly ascending order are unique.
pub proof fn lemma_ascending_keys_unique(s: Seq<(Seq<char>, Seq<char>)>)
    requires
        keys_ascending(s),
    ensures
        unique_keys(s),
{
    lemma_str_strict_total();
    lemma_ascending_unique(s, str_order());
}

/// Labels kept in ascending order are determined by what value each label
/// has: a set of attributes is the same whatever order its labels were given
/// in.
pub proof fn lemma_ascending_labels_determined(
    s: Seq<(Seq<char>, Seq<char>)>,
    t: Seq<(Seq<char>, Seq<char>)>,
)
    requires
        keys_ascending(s),
        keys_ascending(t),
        map_of(s) == map_of(t),
    ensures
        s == t,
    decreases s.len(),
{
    lemma_ascending_keys_unique(s);
    lemma_ascending_keys_unique(t);
    lemma_map_of_dom(s);
    lemma_map_of_dom(t);
    lemma_map_of_unique(s);
    lemma_map_of_unique(t);
    lemma_str_strict_total();
    let l = str_order();
    if s.len() == 0 {
        assert(t.len() == 0);
        assert(s =~= t);
    } else {
        assert(t.len() == s.len());
        let ks = s.last().0;
        let kt = t.last().0;
        assert(map_of(s).dom().contains(ks));
        assert(map_of(t).dom().contains(kt));
        if ks != kt {
            assert(has_key(s, kt));
            let j = choose|j: int| 0 <= j < s.len() && s[j].0 == kt;
            assert(j < s.len() - 1);
            assert(str_lt(s[j].0, s[s.len() - 1].0));
            assert(has_key(t, ks));
            let i = choose|i: int| 0 <= i < t.len() && t[i].0 == ks;
            assert(i < t.len() - 1);
            assert(str_lt(t[i].0, t[t.len() - 1].0));
            assert(l(kt, ks) && l(ks, kt));
            assert(l(ks, ks));
        }
        assert(map_of(s)[s[s.len() - 1].0] == s.last().1);
        assert(map_of(t)[t[t.len() - 1].0] == t.last().1);
        let s1 = s.drop_last();
        let t1 = t.drop_last();
        assert(keys_ascending(s1)) by {
            assert forall|i: int, j: int| 0 <= i < j < s1.len() implies str_lt(s1[i].0, s1[j].0) by {
                assert(s1[i] == s[i] && s1[j] == s[j]);
            }
        }
        assert(keys_ascending(t1)) by {
            assert forall|i: int, j: int| 0 <= i < j < t1.len() implies str_lt(t1[i].0, t1[j].0) by {
                assert(t1[i] == t[i] && t1[j] == t[j]);
            }
        }
        lemma_ascending_keys_unique(s1);
        lemma_ascending_keys_unique(t1);
        lemma_map_of_dom(s1);
        lemma_map_of_dom(t1);
        assert(!map_of(s1).dom().contains(ks)) by {
            if has_key(s1, ks) {
                let j = choose|j: int| 0 <= j < s1.len() && s1[j].0 == ks;
                assert(s[j].0 == ks);
            }
        }
        assert(!map_of(t1).dom().contains(ks)) by {
            if has_key(t1, ks) {
                let j = choose|j: int| 0 <= j < t1.len() && t1[j].0 == ks;
                assert(t[j].0 == ks);
            }
        }
        assert(map_of(s1) =~= map_of(s).remove(ks));
        assert(map_of(t1) =~= map_of(t).remove(ks));
        lemma_ascending_labels_determined(s1, t1);
        assert(s =~= s1.push(s.last()));
        assert(t =~= t1.push(t.last()));
    }
}

/// A set of attributes: each label has one value.
pub struct Attributes {
    pairs: Vec<(String, String)>,
}

impl View for Attributes {
    type V = Seq<(Seq<char>, Seq<char>)>;

    /// The labels, in ascending order, each with its value.
    closed spec fn view(&self) -> Seq<(Seq<char>, Seq<char>)> {
        label_views(self.pairs@)
    }
}

impl Attributes {
    /// The labels are stored in strictly ascending order.
    #[verifier::type_invariant]
    closed spec fn labels_ascending(self) -> bool {
        keys_ascending(label_views(self.pairs@))
    }

    /// The set of attributes that has no label.
    pub fn new() -> (r: Self)
        ensures
            r@ == Seq::<(Seq<char>, Seq<char>)>::empty(),
    {
        let r = Attributes { pairs: Vec::new() };
        assert(label_views(r.pairs@) =~= Seq::empty());
        r
    }

    /// The number of labels.
    pub fn len(&self) -> (r: usize)
        ensures
            r == self@.len(),
            keys_ascending(self@),
    {
        proof {
            use_type_invariant(self);
        }
        self.pairs.len()
    }

    /// Where the label `key` is, or would be, in the ascending order of the
    /// labels, and whether it is there.
    fn position(&self, key: &String) -> (r: (usize, bool))
        ensures
            is_place_of(self@, key@, r.0 as int, str_order()),
            r.1 ==> r.0 < self@.len() && self@[r.0 as int].0 == key@,
            !r.1 ==> r.0 == self@.len() || str_lt(key@, self@[r.0 as int].0),
    {
        let n = self.pairs.len();
        for i in 0..n
            invariant
                n == self@.len(),
                is_place_of(self@, key@, i as int, str_order()),
        {
            let c = compare_strings(&self.pairs[i].0, key);
            assert(self@[i as int].0 == self.pairs@[i as int].0@);
            match c {
                Order::Less => {},
                Order::Equal => {
                    return (i, true);
                },
                Order::Greater => {
                    return (i, false);
                },
            }
        }
        (n, false)
    }

    /// The value of the label `key`, if it has one.
    pub fn get(&self, key: &str) -> (r: Option<&String>)
        ensures
            r is Some <==> map_of(self@).dom().contains(key@),
            r matches Some(v) ==> v@ == map_of(self@)[key@],
    {
        proof {
            use_type_invariant(self);
            lemma_ascending_keys_unique(self@);
            lemma_map_of_dom(self@);
            lemma_map_of_unique(self@);
        }
        let wanted = String::from_str(key);
        let (p, found) = self.position(&wanted);
        if found {
            assert(self@[p as int].0 == key@);
            Some(&self.pairs[p].1)
        } else {
            proof {
                lemma_str_strict_total();
                lemma_ascending_absent(self@, key@, p as int, str_order());
            }
            None
        }
    }

    /// Gives the label `key` the value `value`, in place of any value it had.
    pub fn insert(&mut self, key: &str, value: &str)
        ensures
            keys_ascending(final(self)@),
            map_of(final(self)@) == map_of(old(self)@).insert(key@, value@),
    {
        proof {
            use_type_invariant(&*self);
            lemma_ascending_keys_unique(self@);
            lemma_str_strict_total();
        }
        let k = String::from_str(key);
        let v = String::from_str(value);
        let (p, found) = self.position(&k);
        proof {
            if !found {
                lemma_ascending_absent(self@, key@, p as int, str_order());
            }
        }
        let mut pairs: Vec<(String, String)> = Vec::new();
        std::mem::swap(&mut pairs, &mut self.pairs);
        let ghost s = label_views(pairs@);
        if found {
            pairs.set(p, (k, v));
            proof {
                lemma_update_value(s, p as int, value@);
                assert(label_views(pairs@) =~= s.update(p as int, (s[p as int].0, value@)));
            }
        } else {
            pairs.insert(p, (k, v));
            proof {
                lemma_insert_new_key(s, p as int, key@, value@);
                lemma_ascending_insert(s, p as int, key@, value@, str_order());
                assert(label_views(pairs@) =~= s.insert(p as int, (key@, value@)));
            }
        }
        self.pairs = pairs;
    }

    /// The set of attributes with the given labels and values; where a label
    /// is given twice, the later value stands.
    pub fn from_pairs(pairs: &[(&str, &str)]) -> (r: Self)
        ensures
            keys_ascending(r@),
            map_of(r@) == map_of(str_pair_views(pairs@)),
    {
        let mut r = Attributes::new();
        let n = pairs.len();
        for i in 0..n
            invariant
                n == pairs@.len(),
                map_of(r@) == map_of(str_pair_views(pairs@).take(i as int)),
        {
            let (k, v) = pairs[i];
            r.insert(k, v);
            assert(str_pair_views(pairs@).take(i + 1).drop_last() =~= str_pair_views(pairs@).take(
                i as int,
            ));
        }
        assert(str_pair_views(pairs@).take(n as int) =~= str_pair_views(pairs@));
        r.len();
        r
    }

    /// A copy of this set of attributes.
    pub fn duplicate(&self) -> (r: Attributes)
        ensures
            r@ == self@,
    {
        proof {
            use_type_invariant(self);
        }
        let mut pairs: Vec<(String, String)> = Vec::new();
        let n = self.pairs.len();
        for i in 0..n
            invariant
                n == self.pairs.len(),
                label_views(pairs@) == label_views(self.pairs@).take(i as int),
        {
            let k = self.pairs[i].0.clone();
            let v = self.pairs[i].1.clone();
            let ghost before = pairs@;
            pairs.push((k, v));
            assert(pairs@ == before.push((k, v)));
            assert(label_views(pairs@) =~= label_views(before).push((k@, v@)));
            assert(label_views(pairs@) =~= label_views(self.pairs@).take(i + 1));
        }
        assert(label_views(self.pairs@).take(n as int) =~= label_views(self.pairs@));
        Attributes { pairs }
    }

    /// Whether the two sets of attributes have the same labels with the same
    /// values.
    pub fn same_as(&self, other: &Attributes) -> (r: bool)
        ensures
            r == (self@ == other@),
    {
        if self.pairs.len() != other.pairs.len() {
            return false;
        }
        let n = self.pairs.len();
        for i in 0..n
            invariant
                n == self@.len(),
                n == other@.len(),
                forall|j: int| 0 <= j < i ==> #[trigger] self@[j] == other@[j],
        {
            assert(self@[i as int] == (self.pairs@[i as int].0@, self.pairs@[i as int].1@));
            assert(other@[i as int] == (other.pairs@[i as int].0@, other.pairs@[i as int].1@));
            if self.pairs[i].0 != other.pairs[i].0 || self.pairs[i].1 != other.pairs[i].1 {
                return false;
            }
        }
        assert(self@ =~= other@);
        true
    }

    /// Compares two sets of attributes label by label, in ascending order of
    /// the labels, each label before its value; a set that is a proper prefix
    /// of the other comes first.
    pub fn compare(&self, other: &Attributes) -> (r: Order)
        ensures
            r == Order::Less <==> labels_lt(self@, other@),
            r == Order::Equal <==> self@ == other@,
            r == Order::Greater <==> labels_lt(other@, self@),
    {
        proof {
            lemma_label_strict_total();
            crate::order::lemma_lex_strict_total(label_order());
        }
        let ghost lt = label_order();
        let ghost a = self@;
        let ghost b = other@;
        let la = self.pairs.len();
        let lb = other.pairs.len();
        let mut i: usize = 0;
        assert(a.skip(0) =~= a && b.skip(0) =~= b);
        while i < la && i < lb
            invariant
                la == a.len(),
                lb == b.len(),
                a == self@,
                b == other@,
                lt == label_order(),
                i <= la,
                i <= lb,
                a.take(i as int) == b.take(i as int),
                labels_lt(a, b) == lex_lt(a.skip(i as int), b.skip(i as int), lt),
                labels_lt(b, a) == lex_lt(b.skip(i as int), a.skip(i as int), lt),
            decreases la - i,
        {
            let ghost xa = a.skip(i as int);
            let ghost xb = b.skip(i as int);
            let ghost p = a[i as int];
            let ghost q = b[i as int];
            assert(p == (self.pairs@[i as int].0@, self.pairs@[i as int].1@));
            assert(q == (other.pairs@[i as int].0@, other.pairs@[i as int].1@));
            assert(xa.len() > 0 && xb.len() > 0 && xa[0] == p && xb[0] == q);
            let ck = compare_strings(&self.pairs[i].0, &other.pairs[i].0);
            let order = match ck {
                Order::Equal => compare_strings(&self.pairs[i].1, &other.pairs[i].1),
                other_order => other_order,
            };
            match order {
                Order::Equal => {
                    assert(p == q);
                    assert(xa.drop_first() =~= a.skip(i + 1));
                    assert(xb.drop_first() =~= b.skip(i + 1));
                    assert(a.take(i + 1) =~= a.take(i as int).push(p));
                    assert(b.take(i + 1) =~= b.take(i as int).push(q));
                    i = i + 1;
                },
                _ => {
                    proof {
                        assert(p != q);
                        assert(lt(p, q) == label_lt(p, q));
                        assert(lt(q, p) == label_lt(q, p));
                        assert(lex_lt(xa, xb, lt) == lt(p, q));
                        assert(lex_lt(xb, xa, lt) == lt(q, p));
                        assert(!(lt(p, q) && lt(q, p))) by {
                            if lt(p, q) && lt(q, p) {
                                assert(lt(p, p));
                            }
                        }
                        if a == b {
                            assert(a[i as int] == b[i as int]);
                        }
                    }
                    return order;
                },
            }
        }
        let ghost xa = a.skip(i as int);
        let ghost xb = b.skip(i as int);
        if la < lb {
            proof {
                assert(xa.len() == 0 && xb.len() > 0);
                if a == b {
                    assert(false);
                }
            }
            Order::Less
        } else if la == lb {
            proof {
                assert(a =~= a.take(i as int));
                assert(b =~= b.take(i as int));
            }
            Order::Equal
        } else {
            proof {
                assert(xb.len() == 0 && xa.len() > 0);
            }
            Order::Greater
        }
    }
}

} // verus!
