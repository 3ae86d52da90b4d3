//! The order of texts, and lists put in order.

use vstd::prelude::*;

verus! {

/// The order of texts by their characters.
pub open spec fn less(a: Seq<char>, b: Seq<char>) -> bool
    decreases a.len(),
{
    if b.len() == 0 {
        false
    } else if a.len() == 0 {
        true
    } else if a[0] != b[0] {
        a[0] < b[0]
    } else {
        less(a.drop_first(), b.drop_first())
    }
}

/// Two texts are equal, or exactly one of them comes first; and the order is transitive.
pub proof fn lemma_less_is_order(a: Seq<char>, b: Seq<char>, c: Seq<char>)
    ensures
        !less(a, a),
        a == b || less(a, b) || less(b, a),
        less(a, b) ==> !less(b, a),
        less(a, b) && less(b, c) ==> less(a, c),
    decreases a.len(),
{
    if a.len() == 0 {
        if b.len() == 0 {
            assert(a =~= b);
        }
    } else if b.len() > 0 && c.len() > 0 {
        lemma_less_is_order(a.drop_first(), b.drop_first(), c.drop_first());
        if a[0] == b[0] && a.drop_first() == b.drop_first() {
            assert(a =~= seq![a[0]] + a.drop_first());
            assert(b =~= seq![b[0]] + b.drop_first());
        }
    } else if b.len() > 0 {
        lemma_less_is_order(a.drop_first(), b.drop_first(), c);
        if a[0] == b[0] && a.drop_first() == b.drop_first() {
            assert(a =~= seq![a[0]] + a.drop_first());
            assert(b =~= seq![b[0]] + b.drop_first());
        }
    } else {
        lemma_less_is_order(a.drop_first(), b, c);
    }
}

proof fn lemma_less_skip(a: Seq<char>, b: Seq<char>, i: int)
    requires
        0 <= i <= a.len(),
        i <= b.len(),
        forall|j: int| 0 <= j < i ==> a[j] == b[j],
    ensures
        less(a, b) == less(a.skip(i), b.skip(i)),
    decreases i,
{
    if i == 0 {
        assert(a.skip(0) =~= a);
        assert(b.skip(0) =~= b);
    } else {
        lemma_less_skip(a.drop_first(), b.drop_first(), i - 1);
        assert(a.drop_first().skip(i - 1) =~= a.skip(i));
        assert(b.drop_first().skip(i - 1) =~= b.skip(i));
    }
}

/// Whether a text comes before another.
pub fn is_less(a: &[char], b: &[char]) -> (r: bool)
    ensures
        r == less(a@, b@),
{
    let mut i: usize = 0;
    while i < a.len() && i < b.len() && a[i] == b[i]
        invariant
            i <= a@.len(),
            i <= b@.len(),
            forall|j: int| 0 <= j < i ==> a@[j] == b@[j],
        decreases a@.len() - i,
    {
        i += 1;
    }
    proof {
        lemma_less_skip(a@, b@, i as int);
    }
    if i == b.len() {
        false
    } else if i == a.len() {
        true
    } else {
        a[i] < b[i]
    }
}

/// The order by name, and among equal names by identity.
pub open spec fn comes_before(a: (Seq<char>, Seq<char>), b: (Seq<char>, Seq<char>)) -> bool {
    less(a.0, b.0) || (a.0 == b.0 && less(a.1, b.1))
}

proof fn lemma_comes_before(
    a: (Seq<char>, Seq<char>),
    b: (Seq<char>, Seq<char>),
    c: (Seq<char>, Seq<char>),
)
    ensures
        !comes_before(a, a),
        comes_before(a, b) ==> !comes_before(b, a),
        !comes_before(b, a) && !comes_before(c, b) ==> !comes_before(c, a),
{
    lemma_less_is_order(a.0, b.0, c.0);
    lemma_less_is_order(c.0, b.0, a.0);
    lemma_less_is_order(c.0, a.0, b.0);
    lemma_less_is_order(b.0, a.0, c.0);
    lemma_less_is_order(b.0, c.0, a.0);
    lemma_less_is_order(a.1, b.1, c.1);
    lemma_less_is_order(c.1, b.1, a.1);
    lemma_less_is_order(c.1, a.1, b.1);
    lemma_less_is_order(b.1, a.1, c.1);
    lemma_less_is_order(b.1, c.1, a.1);
    lemma_less_is_order(a.0, c.0, b.0);
    lemma_less_is_order(a.1, c.1, b.1);
}

/// A name and an identity, by which a list is put in order.
pub struct SortKey {
    pub name: Vec<char>,
    pub id: Vec<char>,
}

impl SortKey {
    pub open spec fn view(&self) -> (Seq<char>, Seq<char>) {
        (self.name@, self.id@)
    }
}

fn key_before(a: &SortKey, b: &SortKey) -> (r: bool)
    ensures
        r == comes_before(a@, b@),
{
    if is_less(a.name.as_slice(), b.name.as_slice()) {
        return true;
    }
    if crate::text::same(a.name.as_slice(), b.name.as_slice()) {
        return is_less(a.id.as_slice(), b.id.as_slice());
    }
    false
}

/// A list of positions is an order of the keys: it holds every position once, and no key comes
/// before one that stands earlier.
pub open spec fn is_order(order: Seq<usize>, keys: Seq<(Seq<char>, Seq<char>)>) -> bool {
    &&& order.len() == keys.len()
    &&& forall|i: int| 0 <= i < order.len() ==> #[trigger] order[i] < keys.len()
    &&& forall|i: int, j: int| 0 <= i < j < order.len() ==> #[trigger] order[i] != #[trigger] order[j]
    &&& forall|i: int, j: int|
        0 <= i < j < order.len() ==> !comes_before(
            keys[#[trigger] order[j] as int],
            keys[#[trigger] order[i] as int],
        )
}

/// What the keys are.
pub open spec fn key_views(keys: Seq<SortKey>) -> Seq<(Seq<char>, Seq<char>)> {
    keys.map_values(|key: SortKey| key@)
}

/// Puts keys in order.
pub fn sort_keys(keys: &[SortKey]) -> (r: Vec<usize>)
    ensures
        is_order(r@, key_views(keys@)),
{
    let mut out: Vec<usize> = Vec::new();
    let mut n: usize = 0;
    while n < keys.len()
        invariant
            n <= keys@.len(),
            out@.len() == n,
            forall|i: int| 0 <= i < n ==> #[trigger] out@[i] < n,
            forall|i: int, j: int| 0 <= i < j < n ==> #[trigger] out@[i] != #[trigger] out@[j],
            forall|i: int, j: int|
                0 <= i < j < n ==> !comes_before(
                    keys@[#[trigger] out@[j] as int]@,
                    keys@[#[trigger] out@[i] as int]@,
                ),
        decreases keys@.len() - n,
    {
        let ghost before = out@;
        let ghost new = keys@[n as int]@;
        let mut at: usize = n;
        while at > 0 && key_before(&keys[n], &keys[out[at - 1]])
            invariant
                at <= n,
                n < keys@.len(),
                out@ == before,
                out@.len() == n,
                new == keys@[n as int]@,
                forall|i: int| 0 <= i < n ==> #[trigger] out@[i] < n,
                forall|i: int| at <= i < n ==> comes_before(new, keys@[#[trigger] out@[i] as int]@),
            decreases at,
        {
            at -= 1;
        }
        proof {
            assert forall|i: int| 0 <= i < at implies !comes_before(
                new,
                keys@[#[trigger] before[i] as int]@,
            ) by {
                if i < at - 1 {
                    lemma_comes_before(
                        keys@[before[i] as int]@,
                        keys@[before[at - 1] as int]@,
                        new,
                    );
                }
            }
            assert forall|i: int| at <= i < n implies !comes_before(
                keys@[#[trigger] before[i] as int]@,
                new,
            ) by {
                lemma_comes_before(new, keys@[before[i] as int]@, new);
            }
        }
        out.insert(at, n);
        proof {
            assert(out@ =~= before.insert(at as int, n));
            assert forall|i: int, j: int| 0 <= i < j < n + 1 implies !comes_before(
                keys@[#[trigger] out@[j] as int]@,
                keys@[#[trigger] out@[i] as int]@,
            ) by {
                if i < at {
                    assert(out@[i] == before[i]);
                } else if i > at {
                    assert(out@[i] == before[i - 1]);
                }
                if j < at {
                    assert(out@[j] == before[j]);
                } else if j > at {
                    assert(out@[j] == before[j - 1]);
                }
            }
            assert forall|i: int, j: int| 0 <= i < j < n + 1 implies #[trigger] out@[i]
                != #[trigger] out@[j] by {
                if i < at {
                    assert(out@[i] == before[i]);
                } else if i > at {
                    assert(out@[i] == before[i - 1]);
                }
                if j < at {
                    assert(out@[j] == before[j]);
                } else if j > at {
                    assert(out@[j] == before[j - 1]);
                }
            }
        }
        n += 1;
    }
    out
}

/// The order is that of a dictionary: the first difference decides, and a text comes before
/// whatever goes on from it. Of two pairs the first parts decide, and the second ones where those
/// are equal.
pub proof fn lemma_first_difference_decides(
    p: Seq<char>,
    x: char,
    a: Seq<char>,
    y: char,
    b: Seq<char>,
)
    ensures
        x != y ==> (less(p + seq![x] + a, p + seq![y] + b) <==> x < y),
        less(p, p + seq![x] + a),
        !less(p + seq![x] + a, p),
        less(a, b) ==> comes_before((a, p), (b, p)) && comes_before((p, a), (p, b)),
        less(a, b) ==> comes_before((a, b), (b, a)),
    decreases p.len(),
{
    if p.len() == 0 {
        assert(p + seq![x] + a =~= seq![x] + a);
        assert(p + seq![y] + b =~= seq![y] + b);
    } else {
        let q = p.drop_first();
        lemma_first_difference_decides(q, x, a, y, b);
        assert((p + seq![x] + a).drop_first() =~= q + seq![x] + a);
        assert((p + seq![y] + b).drop_first() =~= q + seq![y] + b);
    }
}

} // verus!
