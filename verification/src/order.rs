//! The order of texts and of the keys made of them.

use crate::text::chars_of;
use vstd::prelude::*;

verus! {

/// How one key stands to another.
#[derive(Debug, Clone, Copy, PartialEq, Eq, Structural)]
pub enum KeyOrder {
    Before,
    Same,
    After,
}

/// A key that a sorted map can be searched by: keys are told apart, and put in
/// order, by a mathematical value that each of them has.
pub trait MapKey: Sized {
    type Model;

    /// The value that the key stands for.
    spec fn model(&self) -> Self::Model;

    /// The strict order of the values.
    spec fn before(a: Self::Model, b: Self::Model) -> bool;

    /// The order is strict and total.
    proof fn order_is_total(a: Self::Model, b: Self::Model, c: Self::Model)
        ensures
            !Self::before(a, a),
            Self::before(a, b) && Self::before(b, c) ==> Self::before(a, c),
            a == b || Self::before(a, b) || Self::before(b, a),
    ;

    /// How this key stands to another.
    fn compare(&self, other: &Self) -> (r: KeyOrder)
        ensures
            match r {
                KeyOrder::Before => Self::before(self.model(), other.model()),
                KeyOrder::Same => self.model() == other.model(),
                KeyOrder::After => Self::before(other.model(), self.model()),
            },
    ;
}

/// The lexicographic order of texts by the code points of their characters,
/// which is the order of their UTF-8 bytes.
pub open spec fn text_before(a: Seq<char>, b: Seq<char>) -> bool
    decreases a.len(),
{
    if b.len() == 0 {
        false
    } else if a.len() == 0 {
        true
    } else {
        a[0] < b[0] || (a[0] == b[0] && text_before(a.drop_first(), b.drop_first()))
    }
}

/// No text is before itself, and the order is transitive and total.
pub proof fn law_text_order(a: Seq<char>, b: Seq<char>, c: Seq<char>)
    ensures
        !text_before(a, a),
        text_before(a, b) && text_before(b, c) ==> text_before(a, c),
        a == b || text_before(a, b) || text_before(b, a),
    decreases a.len() + b.len() + c.len(),
{
    if a.len() == 0 {
        if b.len() == 0 {
            assert(a =~= b);
        }
    } else {
        let rest_b = if b.len() > 0 {
            b.drop_first()
        } else {
            b
        };
        let rest_c = if c.len() > 0 {
            c.drop_first()
        } else {
            c
        };
        law_text_order(a.drop_first(), rest_b, rest_c);
        if b.len() > 0 && a[0] == b[0] && a.drop_first() == b.drop_first() {
            assert(a =~= seq![a[0]] + a.drop_first());
            assert(b =~= seq![b[0]] + b.drop_first());
        }
    }
}

/// How one text stands to another.
pub fn compare_text(a: &str, b: &str) -> (r: KeyOrder)
    ensures
        match r {
            KeyOrder::Before => text_before(a@, b@),
            KeyOrder::Same => a@ == b@,
            KeyOrder::After => text_before(b@, a@),
        },
{
    let left = chars_of(a);
    let right = chars_of(b);
    let mut i: usize = 0;
    assert(a@.skip(0) =~= a@);
    assert(b@.skip(0) =~= b@);
    while i < left.len() && i < right.len()
        invariant
            left@ == a@,
            right@ == b@,
            i <= a@.len(),
            i <= b@.len(),
            a@.take(i as int) == b@.take(i as int),
            text_before(a@, b@) == text_before(a@.skip(i as int), b@.skip(i as int)),
            text_before(b@, a@) == text_before(b@.skip(i as int), a@.skip(i as int)),
        decreases left.len() - i,
    {
        assert(a@.skip(i as int).drop_first() =~= a@.skip(i + 1));
        assert(b@.skip(i as int).drop_first() =~= b@.skip(i + 1));
        assert(a@.skip(i as int)[0] == left[i as int]);
        assert(b@.skip(i as int)[0] == right[i as int]);
        if left[i] < right[i] {
            return KeyOrder::Before;
        }
        if right[i] < left[i] {
            return KeyOrder::After;
        }
        assert(a@.take(i + 1) =~= a@.take(i as int).push(a@[i as int]));
        assert(b@.take(i + 1) =~= b@.take(i as int).push(b@[i as int]));
        i = i + 1;
    }
    if left.len() == right.len() {
        assert(a@.take(i as int) =~= a@);
        assert(b@.take(i as int) =~= b@);
        KeyOrder::Same
    } else if i < right.len() {
        KeyOrder::Before
    } else {
        KeyOrder::After
    }
}

impl MapKey for String {
    type Model = Seq<char>;

    open spec fn model(&self) -> Seq<char> {
        self@
    }

    open spec fn before(a: Seq<char>, b: Seq<char>) -> bool {
        text_before(a, b)
    }

    proof fn order_is_total(a: Seq<char>, b: Seq<char>, c: Seq<char>) {
        law_text_order(a, b, c);
    }

    fn compare(&self, other: &Self) -> (r: KeyOrder) {
        compare_text(self.as_str(), other.as_str())
    }
}

/// Whether a list of keys is strictly ascending.
pub open spec fn is_ascending<K: MapKey>(keys: Seq<K::Model>) -> bool {
    forall|i: int, j: int|
        0 <= i < j < keys.len() ==> K::before(#[trigger] keys[i], #[trigger] keys[j])
}

/// Whether a list holds the keys of a set, each once, in ascending order.
pub open spec fn lists_ascending<K: MapKey>(keys: Seq<K::Model>, set: Set<K::Model>) -> bool {
    &&& is_ascending::<K>(keys)
    &&& forall|k: K::Model| #[trigger] keys.contains(k) <==> set.contains(k)
}

/// The keys of a finite set in ascending order.
pub open spec fn ascending<K: MapKey>(set: Set<K::Model>) -> Seq<K::Model> {
    choose|keys: Seq<K::Model>| lists_ascending::<K>(keys, set)
}

/// There is only one way to list the keys of a set in ascending order.
pub proof fn law_ascending_is_unique<K: MapKey>(keys: Seq<K::Model>, set: Set<K::Model>)
    requires
        lists_ascending::<K>(keys, set),
    ensures
        ascending::<K>(set) == keys,
{
    lemma_ascending_unique::<K>(keys, ascending::<K>(set), set);
}

/// The keys of a finite set can be listed in ascending order.
pub proof fn law_ascending_lists<K: MapKey>(set: Set<K::Model>)
    requires
        set.finite(),
    ensures
        lists_ascending::<K>(ascending::<K>(set), set),
{
    let keys = lemma_listing::<K>(set);
    assert(lists_ascending::<K>(keys, set));
}

proof fn lemma_listing<K: MapKey>(set: Set<K::Model>) -> (keys: Seq<K::Model>)
    requires
        set.finite(),
    ensures
        lists_ascending::<K>(keys, set),
    decreases set.len(),
{
    if set.len() == 0 {
        let keys = Seq::<K::Model>::empty();
        assert forall|k: K::Model| #[trigger] keys.contains(k) <==> set.contains(k) by {
            if set.contains(k) {
                assert(set.remove(k).len() < 0);
            }
        }
        keys
    } else {
        let least = lemma_least::<K>(set);
        let rest = lemma_listing::<K>(set.remove(least));
        let keys = seq![least] + rest;
        assert forall|k: K::Model| #[trigger] keys.contains(k) <==> set.contains(k) by {
            if keys.contains(k) {
                let i = choose|i: int| 0 <= i < keys.len() && keys[i] == k;
                if i > 0 {
                    assert(rest[i - 1] == k);
                    assert(rest.contains(k));
                }
            }
            if set.contains(k) {
                if k == least {
                    assert(keys[0] == k);
                } else {
                    assert(rest.contains(k));
                    let i = choose|i: int| 0 <= i < rest.len() && rest[i] == k;
                    assert(keys[i + 1] == k);
                }
            }
        }
        assert forall|i: int, j: int| 0 <= i < j < keys.len() implies K::before(
            #[trigger] keys[i],
            #[trigger] keys[j],
        ) by {
            assert(keys[j] == rest[j - 1]);
            if i == 0 {
                assert(rest.contains(rest[j - 1]));
            } else {
                assert(keys[i] == rest[i - 1]);
            }
        }
        keys
    }
}

proof fn lemma_least<K: MapKey>(set: Set<K::Model>) -> (least: K::Model)
    requires
        set.finite(),
        set.len() > 0,
    ensures
        set.contains(least),
        forall|k: K::Model| #[trigger] set.contains(k) ==> k == least || K::before(least, k),
    decreases set.len(),
{
    let some = set.choose();
    let rest = set.remove(some);
    if rest.len() == 0 {
        assert forall|k: K::Model| #[trigger] set.contains(k) implies k == some by {
            if k != some {
                assert(rest.contains(k));
                assert(rest.remove(k).len() < 0);
            }
        }
        some
    } else {
        let other = lemma_least::<K>(rest);
        K::order_is_total(some, other, some);
        let least = if K::before(some, other) {
            some
        } else {
            other
        };
        assert forall|k: K::Model| #[trigger] set.contains(k) implies k == least || K::before(
            least,
            k,
        ) by {
            if k != some {
                assert(rest.contains(k));
                K::order_is_total(some, other, k);
            }
        }
        least
    }
}

proof fn lemma_ascending_unique<K: MapKey>(
    x: Seq<K::Model>,
    y: Seq<K::Model>,
    set: Set<K::Model>,
)
    requires
        lists_ascending::<K>(x, set),
        lists_ascending::<K>(y, set),
    ensures
        x == y,
    decreases x.len(),
{
    if x.len() == 0 {
        if y.len() > 0 {
            assert(y.contains(y[0]));
            assert(x.contains(y[0]));
        }
        assert(x =~= y);
    } else {
        assert(x.contains(x[0]));
        assert(y.contains(x[0]));
        let at = choose|i: int| 0 <= i < y.len() && y[i] == x[0];
        assert(y.contains(y[0]));
        assert(x.contains(y[0]));
        let ax = choose|i: int| 0 <= i < x.len() && x[i] == y[0];
        K::order_is_total(x[0], y[0], x[0]);
        K::order_is_total(y[0], x[0], y[0]);
        if at > 0 {
            assert(K::before(y[0], y[at]));
        }
        if ax > 0 {
            assert(K::before(x[0], x[ax]));
        }
        assert(x[0] == y[0]);
        let rest = set.remove(x[0]);
        lemma_rest_ascending::<K>(x, set);
        lemma_rest_ascending::<K>(y, set);
        lemma_ascending_unique::<K>(x.drop_first(), y.drop_first(), rest);
        assert(x =~= seq![x[0]] + x.drop_first());
        assert(y =~= seq![y[0]] + y.drop_first());
    }
}

proof fn lemma_rest_ascending<K: MapKey>(x: Seq<K::Model>, set: Set<K::Model>)
    requires
        x.len() > 0,
        lists_ascending::<K>(x, set),
    ensures
        lists_ascending::<K>(x.drop_first(), set.remove(x[0])),
{
    let rest = x.drop_first();
    assert forall|i: int, j: int| 0 <= i < j < rest.len() implies K::before(
        #[trigger] rest[i],
        #[trigger] rest[j],
    ) by {
        assert(K::before(x[i + 1], x[j + 1]));
    }
    assert forall|k: K::Model| #[trigger] rest.contains(k) <==> set.remove(x[0]).contains(k) by {
        if rest.contains(k) {
            let i = choose|i: int| 0 <= i < rest.len() && rest[i] == k;
            assert(x[i + 1] == k);
            assert(x.contains(k));
            assert(K::before(x[0], x[i + 1]));
            K::order_is_total(k, k, k);
        }
        if set.remove(x[0]).contains(k) {
            assert(x.contains(k));
            let i = choose|i: int| 0 <= i < x.len() && x[i] == k;
            assert(rest[i - 1] == k);
        }
    }
}

/// Texts are ordered by the first character at which they differ, and a text that
/// goes on comes behind one that ends there.
pub proof fn law_first_difference_decides(
    common: Seq<char>,
    c: char,
    d: char,
    rest: Seq<char>,
    other: Seq<char>,
)
    ensures
        c < d ==> text_before(common + seq![c] + rest, common + seq![d] + other),
        c > d ==> !text_before(common + seq![c] + rest, common + seq![d] + other),
        text_before(common, common + seq![c] + rest),
        !text_before(common + seq![c] + rest, common),
    decreases common.len(),
{
    let a = common + seq![c] + rest;
    let b = common + seq![d] + other;
    if common.len() > 0 {
        let less = common.drop_first();
        assert(a.drop_first() =~= less + seq![c] + rest);
        assert(b.drop_first() =~= less + seq![d] + other);
        law_first_difference_decides(less, c, d, rest, other);
    }
}

} // verus!
