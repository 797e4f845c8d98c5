//! Why the strategies of multi-scalar multiplication agree: wherever the
//! operations on points obey the laws of a commutative group, the strategies
//! with buckets give the sum that the naive strategy gives. The laws
//! themselves are laws of the curve arithmetic, which this library calls and
//! does not prove; here they are the hypothesis.
use crate::bytes::{
    be_bytes, lemma_be_bytes_len, lemma_be_nat_bound, lemma_be_nat_of_be_bytes, pow256,
};
use crate::group::{decode_point_spec, CurvePoint};
use crate::msm::{
    accumulate_spec, bucket_of, buckets_of, doubled_times, naive_sum, running_sum, running_total,
    small_multiple, weighted_total, window_sum, windows_sum, Strategy, WINDOW_BITS,
};
use crate::precompile::{multiexp_input_spec, term_len, term_spec, terms_spec};
use crate::records::lemma_records_all;
use crate::scalar::{lemma_shifted_bytes, shifted, window_digit, BUCKET_COUNT, WINDOW_COUNT};
use vstd::prelude::*;

verus! {

/// A point taken `n` times by repeated addition.
pub open spec fn multiple<G: CurvePoint>(a: G::Value, n: nat) -> G::Value
    decreases n,
{
    if n == 0 {
        G::identity_value()
    } else {
        G::sum(multiple::<G>(a, (n - 1) as nat), a)
    }
}

/// The laws of a commutative group on the points of `dom`: the set holds the
/// identity and is closed under addition; addition is commutative and
/// associative, and the identity is neutral; doubling is adding a point to
/// itself; and multiplying by a scalar below `2^256` is repeated addition.
#[verifier::opaque]
pub open spec fn group_laws<G: CurvePoint>(dom: spec_fn(G::Value) -> bool) -> bool {
    &&& dom(G::identity_value())
    &&& forall|a: G::Value, b: G::Value| dom(a) && dom(b) ==> dom(#[trigger] G::sum(a, b))
    &&& forall|a: G::Value, b: G::Value|
        dom(a) && dom(b) ==> #[trigger] G::sum(a, b) == G::sum(b, a)
    &&& forall|a: G::Value, b: G::Value, c: G::Value|
        dom(a) && dom(b) && dom(c) ==> #[trigger] G::sum(G::sum(a, b), c) == G::sum(
            a,
            G::sum(b, c),
        )
    &&& forall|a: G::Value| dom(a) ==> #[trigger] G::sum(a, G::identity_value()) == a
    &&& forall|a: G::Value| dom(a) ==> #[trigger] G::doubled(a) == G::sum(a, a)
    &&& forall|a: G::Value, k: nat|
        dom(a) && k < pow256(32) ==> #[trigger] G::product(a, k) == multiple::<G>(a, k)
}

/// Every point of the terms is in `dom`, and every scalar is below `2^256`.
pub open spec fn terms_within<G: CurvePoint>(
    dom: spec_fn(G::Value) -> bool,
    terms: Seq<(G::Value, nat)>,
) -> bool {
    forall|i: int| 0 <= i < terms.len() ==> dom((#[trigger] terms[i]).0) && terms[i].1 < pow256(32)
}

/// The sum over the terms of each point taken `f` of its scalar times.
pub open spec fn weighted_sum<G: CurvePoint>(
    terms: Seq<(G::Value, nat)>,
    f: spec_fn(nat) -> nat,
) -> G::Value
    decreases terms.len(),
{
    if terms.len() == 0 {
        G::identity_value()
    } else {
        G::sum(
            weighted_sum::<G>(terms.drop_last(), f),
            multiple::<G>(terms.last().0, f(terms.last().1)),
        )
    }
}

/// Sixteen buckets, every one in `dom`.
pub open spec fn buckets_within<G: CurvePoint>(
    dom: spec_fn(G::Value) -> bool,
    buckets: Seq<G::Value>,
) -> bool {
    &&& buckets.len() == BUCKET_COUNT
    &&& forall|j: int| 0 <= j < buckets.len() ==> dom(#[trigger] buckets[j])
}

/// The sum over the buckets from digit `d` on of each bucket taken as often
/// as its digit less `off` says.
pub open spec fn bucket_sum<G: CurvePoint>(buckets: Seq<G::Value>, d: nat, off: nat) -> G::Value
    decreases BUCKET_COUNT - d,
{
    if d >= BUCKET_COUNT {
        G::identity_value()
    } else {
        G::sum(
            bucket_sum::<G>(buckets, d + 1, off),
            multiple::<G>(buckets[d as int], (d - off) as nat),
        )
    }
}

/// The identity is in `dom`.
proof fn law_identity<G: CurvePoint>(dom: spec_fn(G::Value) -> bool)
    requires
        group_laws::<G>(dom),
    ensures
        dom(G::identity_value()),
{
    reveal(group_laws);
}

/// `dom` is closed under addition.
proof fn law_closed<G: CurvePoint>(dom: spec_fn(G::Value) -> bool, a: G::Value, b: G::Value)
    requires
        group_laws::<G>(dom),
        dom(a),
        dom(b),
    ensures
        dom(G::sum(a, b)),
{
    reveal(group_laws);
}

/// Addition commutes on `dom`.
proof fn law_commutes<G: CurvePoint>(dom: spec_fn(G::Value) -> bool, a: G::Value, b: G::Value)
    requires
        group_laws::<G>(dom),
        dom(a),
        dom(b),
    ensures
        G::sum(a, b) == G::sum(b, a),
{
    reveal(group_laws);
}

/// Addition is associative on `dom`.
proof fn law_associates<G: CurvePoint>(
    dom: spec_fn(G::Value) -> bool,
    a: G::Value,
    b: G::Value,
    c: G::Value,
)
    requires
        group_laws::<G>(dom),
        dom(a),
        dom(b),
        dom(c),
    ensures
        G::sum(G::sum(a, b), c) == G::sum(a, G::sum(b, c)),
        dom(G::sum(a, b)),
        dom(G::sum(b, c)),
        dom(G::sum(G::sum(a, b), c)),
{
    reveal(group_laws);
}

/// The identity is neutral on `dom`.
proof fn law_neutral<G: CurvePoint>(dom: spec_fn(G::Value) -> bool, a: G::Value)
    requires
        group_laws::<G>(dom),
        dom(a),
    ensures
        G::sum(a, G::identity_value()) == a,
        G::sum(G::identity_value(), a) == a,
        dom(G::identity_value()),
{
    reveal(group_laws);
    assert(G::sum(a, G::identity_value()) == G::sum(G::identity_value(), a));
}

/// Doubling is adding a point to itself.
proof fn law_doubles<G: CurvePoint>(dom: spec_fn(G::Value) -> bool, a: G::Value)
    requires
        group_laws::<G>(dom),
        dom(a),
    ensures
        G::doubled(a) == G::sum(a, a),
        dom(G::doubled(a)),
{
    reveal(group_laws);
}

/// Multiplying by a scalar below `2^256` is repeated addition.
proof fn law_product<G: CurvePoint>(dom: spec_fn(G::Value) -> bool, a: G::Value, k: nat)
    requires
        group_laws::<G>(dom),
        dom(a),
        k < pow256(32),
    ensures
        G::product(a, k) == multiple::<G>(a, k),
{
    reveal(group_laws);
}

/// `(w + x) + (y + z) = (w + y) + (x + z)`.
proof fn lemma_interchange<G: CurvePoint>(
    dom: spec_fn(G::Value) -> bool,
    w: G::Value,
    x: G::Value,
    y: G::Value,
    z: G::Value,
)
    requires
        group_laws::<G>(dom),
        dom(w),
        dom(x),
        dom(y),
        dom(z),
    ensures
        G::sum(G::sum(w, x), G::sum(y, z)) == G::sum(G::sum(w, y), G::sum(x, z)),
        dom(G::sum(G::sum(w, x), G::sum(y, z))),
{
    law_closed::<G>(dom, y, z);
    law_closed::<G>(dom, x, z);
    law_associates::<G>(dom, w, x, G::sum(y, z));
    law_associates::<G>(dom, x, y, z);
    law_commutes::<G>(dom, x, y);
    law_associates::<G>(dom, y, x, z);
    law_associates::<G>(dom, w, y, G::sum(x, z));
}

/// `(x + y) + z = (x + z) + y`.
proof fn lemma_swap<G: CurvePoint>(
    dom: spec_fn(G::Value) -> bool,
    x: G::Value,
    y: G::Value,
    z: G::Value,
)
    requires
        group_laws::<G>(dom),
        dom(x),
        dom(y),
        dom(z),
    ensures
        G::sum(G::sum(x, y), z) == G::sum(G::sum(x, z), y),
{
    law_associates::<G>(dom, x, y, z);
    law_commutes::<G>(dom, y, z);
    law_associates::<G>(dom, x, z, y);
}

/// A multiple of a point of `dom` is in `dom`.
proof fn lemma_multiple_dom<G: CurvePoint>(dom: spec_fn(G::Value) -> bool, a: G::Value, n: nat)
    requires
        group_laws::<G>(dom),
        dom(a),
    ensures
        dom(multiple::<G>(a, n)),
    decreases n,
{
    if n == 0 {
        law_identity::<G>(dom);
    } else {
        lemma_multiple_dom::<G>(dom, a, (n - 1) as nat);
        law_closed::<G>(dom, multiple::<G>(a, (n - 1) as nat), a);
    }
}

/// A point taken once is the point.
proof fn lemma_multiple_one<G: CurvePoint>(dom: spec_fn(G::Value) -> bool, a: G::Value)
    requires
        group_laws::<G>(dom),
        dom(a),
    ensures
        multiple::<G>(a, 1) == a,
{
    law_neutral::<G>(dom, a);
    assert(multiple::<G>(a, 0) == G::identity_value());
}

/// `(m + n) a = m a + n a`.
proof fn lemma_multiple_add<G: CurvePoint>(
    dom: spec_fn(G::Value) -> bool,
    a: G::Value,
    m: nat,
    n: nat,
)
    requires
        group_laws::<G>(dom),
        dom(a),
    ensures
        multiple::<G>(a, m + n) == G::sum(multiple::<G>(a, m), multiple::<G>(a, n)),
    decreases n,
{
    lemma_multiple_dom::<G>(dom, a, m);
    if n == 0 {
        law_neutral::<G>(dom, multiple::<G>(a, m));
    } else {
        let less = (n - 1) as nat;
        lemma_multiple_add::<G>(dom, a, m, less);
        lemma_multiple_dom::<G>(dom, a, less);
        law_associates::<G>(dom, multiple::<G>(a, m), multiple::<G>(a, less), a);
        assert(multiple::<G>(a, m + n) == G::sum(multiple::<G>(a, (m + n - 1) as nat), a));
        assert((m + n - 1) as nat == m + less);
    }
}

/// `n (a + b) = n a + n b`.
proof fn lemma_multiple_sum<G: CurvePoint>(
    dom: spec_fn(G::Value) -> bool,
    a: G::Value,
    b: G::Value,
    n: nat,
)
    requires
        group_laws::<G>(dom),
        dom(a),
        dom(b),
    ensures
        multiple::<G>(G::sum(a, b), n) == G::sum(multiple::<G>(a, n), multiple::<G>(b, n)),
    decreases n,
{
    if n == 0 {
        law_identity::<G>(dom);
        law_neutral::<G>(dom, G::identity_value());
    } else {
        let less = (n - 1) as nat;
        lemma_multiple_sum::<G>(dom, a, b, less);
        lemma_multiple_dom::<G>(dom, a, less);
        lemma_multiple_dom::<G>(dom, b, less);
        lemma_interchange::<G>(dom, multiple::<G>(a, less), multiple::<G>(b, less), a, b);
    }
}

/// `n (m a) = (m n) a`.
proof fn lemma_multiple_mul<G: CurvePoint>(
    dom: spec_fn(G::Value) -> bool,
    a: G::Value,
    m: nat,
    n: nat,
)
    requires
        group_laws::<G>(dom),
        dom(a),
    ensures
        multiple::<G>(multiple::<G>(a, m), n) == multiple::<G>(a, m * n),
    decreases n,
{
    if n == 0 {
        assert(m * n == 0);
    } else {
        let less = (n - 1) as nat;
        lemma_multiple_mul::<G>(dom, a, m, less);
        lemma_multiple_add::<G>(dom, a, m * less, m);
        assert(m * less + m == m * n) by (nonlinear_arith)
            requires
                less + 1 == n,
        ;
    }
}

/// Every multiple of the identity is the identity.
proof fn lemma_multiple_identity<G: CurvePoint>(dom: spec_fn(G::Value) -> bool, n: nat)
    requires
        group_laws::<G>(dom),
    ensures
        multiple::<G>(G::identity_value(), n) == G::identity_value(),
    decreases n,
{
    if n > 0 {
        lemma_multiple_identity::<G>(dom, (n - 1) as nat);
        law_identity::<G>(dom);
        law_neutral::<G>(dom, G::identity_value());
    }
}

/// Doubling a point takes it twice.
proof fn lemma_doubled<G: CurvePoint>(dom: spec_fn(G::Value) -> bool, a: G::Value)
    requires
        group_laws::<G>(dom),
        dom(a),
    ensures
        G::doubled(a) == multiple::<G>(a, 2),
        dom(G::doubled(a)),
{
    law_doubles::<G>(dom, a);
    lemma_multiple_one::<G>(dom, a);
    assert(multiple::<G>(a, 2) == G::sum(multiple::<G>(a, 1), a));
}

/// Doubling once for each bit of a window is taking sixteen times.
proof fn lemma_doubled_times<G: CurvePoint>(dom: spec_fn(G::Value) -> bool, a: G::Value)
    requires
        group_laws::<G>(dom),
        dom(a),
    ensures
        doubled_times::<G>(a, WINDOW_BITS as nat) == multiple::<G>(a, 16),
{
    let d1 = G::doubled(a);
    let d2 = G::doubled(d1);
    let d3 = G::doubled(d2);
    let d4 = G::doubled(d3);
    lemma_doubled::<G>(dom, a);
    lemma_doubled::<G>(dom, d1);
    lemma_doubled::<G>(dom, d2);
    lemma_doubled::<G>(dom, d3);
    lemma_multiple_mul::<G>(dom, a, 2, 2);
    lemma_multiple_mul::<G>(dom, a, 4, 2);
    lemma_multiple_mul::<G>(dom, a, 8, 2);
    assert(doubled_times::<G>(a, 4) == d4) by {
        reveal_with_fuel(doubled_times, 5);
    }
}

/// Doubling and adding along the bits of `d` takes a point `d` times.
proof fn lemma_small_multiple<G: CurvePoint>(dom: spec_fn(G::Value) -> bool, p: G::Value, d: nat)
    requires
        group_laws::<G>(dom),
        dom(p),
    ensures
        small_multiple::<G>(p, d) == multiple::<G>(p, d),
    decreases d,
{
    if d == 0 {
    } else if d == 1 {
        lemma_multiple_one::<G>(dom, p);
    } else {
        let half = d / 2;
        lemma_small_multiple::<G>(dom, p, half);
        lemma_multiple_dom::<G>(dom, p, half);
        lemma_doubled::<G>(dom, multiple::<G>(p, half));
        lemma_multiple_mul::<G>(dom, p, half, 2);
        if d % 2 == 0 {
            assert(half * 2 == d);
        } else {
            assert(half * 2 + 1 == d);
            assert(multiple::<G>(p, d) == G::sum(multiple::<G>(p, (d - 1) as nat), p));
        }
    }
}

/// A weighted sum of terms of `dom` is in `dom`.
proof fn lemma_weighted_sum_dom<G: CurvePoint>(
    dom: spec_fn(G::Value) -> bool,
    terms: Seq<(G::Value, nat)>,
    f: spec_fn(nat) -> nat,
)
    requires
        group_laws::<G>(dom),
        terms_within::<G>(dom, terms),
    ensures
        dom(weighted_sum::<G>(terms, f)),
    decreases terms.len(),
{
    if terms.len() == 0 {
        law_identity::<G>(dom);
    } else {
        lemma_terms_rest::<G>(dom, terms);
        lemma_weighted_sum_dom::<G>(dom, terms.drop_last(), f);
        lemma_multiple_dom::<G>(dom, terms.last().0, f(terms.last().1));
        law_closed::<G>(
            dom,
            weighted_sum::<G>(terms.drop_last(), f),
            multiple::<G>(terms.last().0, f(terms.last().1)),
        );
    }
}

/// All but the last of terms that are within are within, and so is the
/// last.
proof fn lemma_terms_rest<G: CurvePoint>(
    dom: spec_fn(G::Value) -> bool,
    terms: Seq<(G::Value, nat)>,
)
    requires
        terms_within::<G>(dom, terms),
        terms.len() > 0,
    ensures
        terms_within::<G>(dom, terms.drop_last()),
        dom(terms.last().0),
        terms.last().1 < pow256(32),
{
    let rest = terms.drop_last();
    assert forall|i: int| 0 <= i < rest.len() implies dom((#[trigger] rest[i]).0) && rest[i].1
        < pow256(32) by {
        assert(rest[i] == terms[i]);
    }
    assert(terms.last() == terms[terms.len() - 1]);
}

/// Where `h` is `f` and `g` added, on the scalars of the terms, the weighted
/// sums by `f` and by `g` add up to the weighted sum by `h`.
proof fn lemma_weighted_sum_add<G: CurvePoint>(
    dom: spec_fn(G::Value) -> bool,
    terms: Seq<(G::Value, nat)>,
    f: spec_fn(nat) -> nat,
    g: spec_fn(nat) -> nat,
    h: spec_fn(nat) -> nat,
)
    requires
        group_laws::<G>(dom),
        terms_within::<G>(dom, terms),
        forall|i: int| 0 <= i < terms.len() ==> h((#[trigger] terms[i]).1) == f(terms[i].1) + g(
            terms[i].1,
        ),
    ensures
        G::sum(weighted_sum::<G>(terms, f), weighted_sum::<G>(terms, g)) == weighted_sum::<G>(
            terms,
            h,
        ),
    decreases terms.len(),
{
    if terms.len() == 0 {
        law_identity::<G>(dom);
        law_neutral::<G>(dom, G::identity_value());
    } else {
        let rest = terms.drop_last();
        let p = terms.last().0;
        let k = terms.last().1;
        lemma_terms_rest::<G>(dom, terms);
        assert forall|i: int| 0 <= i < rest.len() implies h((#[trigger] rest[i]).1) == f(
            rest[i].1,
        ) + g(rest[i].1) by {
            assert(rest[i] == terms[i]);
        }
        assert(terms.last() == terms[terms.len() - 1]);
        lemma_weighted_sum_add::<G>(dom, rest, f, g, h);
        lemma_weighted_sum_dom::<G>(dom, rest, f);
        lemma_weighted_sum_dom::<G>(dom, rest, g);
        lemma_multiple_dom::<G>(dom, p, f(k));
        lemma_multiple_dom::<G>(dom, p, g(k));
        lemma_interchange::<G>(
            dom,
            weighted_sum::<G>(rest, f),
            multiple::<G>(p, f(k)),
            weighted_sum::<G>(rest, g),
            multiple::<G>(p, g(k)),
        );
        lemma_multiple_add::<G>(dom, p, f(k), g(k));
    }
}

/// Where `h` is `c` times `f`, on the scalars of the terms, the weighted sum
/// by `f` taken `c` times is the weighted sum by `h`.
proof fn lemma_weighted_sum_scale<G: CurvePoint>(
    dom: spec_fn(G::Value) -> bool,
    terms: Seq<(G::Value, nat)>,
    f: spec_fn(nat) -> nat,
    c: nat,
    h: spec_fn(nat) -> nat,
)
    requires
        group_laws::<G>(dom),
        terms_within::<G>(dom, terms),
        forall|i: int| 0 <= i < terms.len() ==> h((#[trigger] terms[i]).1) == f(terms[i].1) * c,
    ensures
        multiple::<G>(weighted_sum::<G>(terms, f), c) == weighted_sum::<G>(terms, h),
    decreases terms.len(),
{
    if terms.len() == 0 {
        lemma_multiple_identity::<G>(dom, c);
    } else {
        let rest = terms.drop_last();
        let p = terms.last().0;
        let k = terms.last().1;
        lemma_terms_rest::<G>(dom, terms);
        assert forall|i: int| 0 <= i < rest.len() implies h((#[trigger] rest[i]).1) == f(
            rest[i].1,
        ) * c by {
            assert(rest[i] == terms[i]);
        }
        assert(terms.last() == terms[terms.len() - 1]);
        lemma_weighted_sum_scale::<G>(dom, rest, f, c, h);
        lemma_weighted_sum_dom::<G>(dom, rest, f);
        lemma_multiple_dom::<G>(dom, p, f(k));
        lemma_multiple_sum::<G>(dom, weighted_sum::<G>(rest, f), multiple::<G>(p, f(k)), c);
        lemma_multiple_mul::<G>(dom, p, f(k), c);
    }
}

/// Where `f` is zero on the scalars of the terms, the weighted sum by `f` is
/// the identity.
proof fn lemma_weighted_sum_zero<G: CurvePoint>(
    dom: spec_fn(G::Value) -> bool,
    terms: Seq<(G::Value, nat)>,
    f: spec_fn(nat) -> nat,
)
    requires
        group_laws::<G>(dom),
        forall|i: int| 0 <= i < terms.len() ==> f((#[trigger] terms[i]).1) == 0,
    ensures
        weighted_sum::<G>(terms, f) == G::identity_value(),
    decreases terms.len(),
{
    if terms.len() > 0 {
        let rest = terms.drop_last();
        assert forall|i: int| 0 <= i < rest.len() implies f((#[trigger] rest[i]).1) == 0 by {
            assert(rest[i] == terms[i]);
        }
        assert(terms.last() == terms[terms.len() - 1]);
        lemma_weighted_sum_zero::<G>(dom, rest, f);
        law_identity::<G>(dom);
        law_neutral::<G>(dom, G::identity_value());
    }
}

/// The naive sum is the weighted sum by the scalars themselves.
proof fn lemma_naive_is_weighted<G: CurvePoint>(
    dom: spec_fn(G::Value) -> bool,
    terms: Seq<(G::Value, nat)>,
    f: spec_fn(nat) -> nat,
)
    requires
        group_laws::<G>(dom),
        terms_within::<G>(dom, terms),
        forall|i: int| 0 <= i < terms.len() ==> f((#[trigger] terms[i]).1) == terms[i].1,
    ensures
        naive_sum::<G>(terms) == weighted_sum::<G>(terms, f),
    decreases terms.len(),
{
    if terms.len() > 0 {
        let rest = terms.drop_last();
        lemma_terms_rest::<G>(dom, terms);
        assert forall|i: int| 0 <= i < rest.len() implies f((#[trigger] rest[i]).1)
            == rest[i].1 by {
            assert(rest[i] == terms[i]);
        }
        assert(terms.last() == terms[terms.len() - 1]);
        lemma_naive_is_weighted::<G>(dom, rest, f);
        law_product::<G>(dom, terms.last().0, terms.last().1);
    }
}

/// A bucket of terms of `dom` is in `dom`.
proof fn lemma_bucket_of_dom<G: CurvePoint>(
    dom: spec_fn(G::Value) -> bool,
    terms: Seq<(G::Value, nat)>,
    w: nat,
    d: nat,
)
    requires
        group_laws::<G>(dom),
        terms_within::<G>(dom, terms),
    ensures
        dom(bucket_of::<G>(terms, w, d)),
    decreases terms.len(),
{
    if terms.len() == 0 {
        law_identity::<G>(dom);
    } else {
        lemma_terms_rest::<G>(dom, terms);
        lemma_bucket_of_dom::<G>(dom, terms.drop_last(), w, d);
        law_closed::<G>(dom, bucket_of::<G>(terms.drop_last(), w, d), terms.last().0);
    }
}

/// The buckets of a window of terms of `dom` are in `dom`.
proof fn lemma_buckets_dom<G: CurvePoint>(
    dom: spec_fn(G::Value) -> bool,
    terms: Seq<(G::Value, nat)>,
    w: nat,
)
    requires
        group_laws::<G>(dom),
        terms_within::<G>(dom, terms),
    ensures
        buckets_within::<G>(dom, buckets_of::<G>(terms, w)),
{
    let buckets = buckets_of::<G>(terms, w);
    assert forall|j: int| 0 <= j < buckets.len() implies dom(#[trigger] buckets[j]) by {
        if j == 0 {
            law_identity::<G>(dom);
        } else {
            lemma_bucket_of_dom::<G>(dom, terms, w, j as nat);
        }
    }
}

/// A running sum of buckets of `dom` is in `dom`.
proof fn lemma_running_sum_dom<G: CurvePoint>(
    dom: spec_fn(G::Value) -> bool,
    buckets: Seq<G::Value>,
    d: nat,
)
    requires
        group_laws::<G>(dom),
        buckets_within::<G>(dom, buckets),
    ensures
        dom(running_sum::<G>(buckets, d)),
    decreases BUCKET_COUNT - d,
{
    if d >= BUCKET_COUNT {
        law_identity::<G>(dom);
    } else {
        lemma_running_sum_dom::<G>(dom, buckets, d + 1);
        law_closed::<G>(dom, running_sum::<G>(buckets, d + 1), buckets[d as int]);
    }
}

/// A weighted sum of buckets of `dom` is in `dom`.
proof fn lemma_bucket_sum_dom<G: CurvePoint>(
    dom: spec_fn(G::Value) -> bool,
    buckets: Seq<G::Value>,
    d: nat,
    off: nat,
)
    requires
        group_laws::<G>(dom),
        buckets_within::<G>(dom, buckets),
    ensures
        dom(bucket_sum::<G>(buckets, d, off)),
    decreases BUCKET_COUNT - d,
{
    if d >= BUCKET_COUNT {
        law_identity::<G>(dom);
    } else {
        lemma_bucket_sum_dom::<G>(dom, buckets, d + 1, off);
        lemma_multiple_dom::<G>(dom, buckets[d as int], (d - off) as nat);
        law_closed::<G>(
            dom,
            bucket_sum::<G>(buckets, d + 1, off),
            multiple::<G>(buckets[d as int], (d - off) as nat),
        );
    }
}

/// Taking each bucket as often as its digit says, and passing over the
/// buckets that are the identity, gives the sum of the multiples.
proof fn lemma_weighted_total<G: CurvePoint>(
    dom: spec_fn(G::Value) -> bool,
    buckets: Seq<G::Value>,
    d: nat,
)
    requires
        group_laws::<G>(dom),
        buckets_within::<G>(dom, buckets),
    ensures
        weighted_total::<G>(buckets, d) == bucket_sum::<G>(buckets, d, 0),
    decreases BUCKET_COUNT - d,
{
    if d < BUCKET_COUNT {
        lemma_weighted_total::<G>(dom, buckets, d + 1);
        let bucket = buckets[d as int];
        if bucket == G::identity_value() {
            lemma_multiple_identity::<G>(dom, d);
            lemma_bucket_sum_dom::<G>(dom, buckets, d + 1, 0);
            law_neutral::<G>(dom, bucket_sum::<G>(buckets, d + 1, 0));
        } else {
            lemma_small_multiple::<G>(dom, bucket, d);
        }
    }
}

/// Adding the running sum from digit `e` on raises the weight of every
/// bucket from `e` on by one.
proof fn lemma_raise<G: CurvePoint>(
    dom: spec_fn(G::Value) -> bool,
    buckets: Seq<G::Value>,
    e: nat,
    off: nat,
)
    requires
        group_laws::<G>(dom),
        buckets_within::<G>(dom, buckets),
        off < e,
    ensures
        G::sum(bucket_sum::<G>(buckets, e, off + 1), running_sum::<G>(buckets, e)) == bucket_sum::<
            G,
        >(buckets, e, off),
    decreases BUCKET_COUNT - e,
{
    if e >= BUCKET_COUNT {
        law_identity::<G>(dom);
        law_neutral::<G>(dom, G::identity_value());
    } else {
        let bucket = buckets[e as int];
        let less = (e - off - 1) as nat;
        lemma_raise::<G>(dom, buckets, e + 1, off);
        lemma_bucket_sum_dom::<G>(dom, buckets, e + 1, off + 1);
        lemma_running_sum_dom::<G>(dom, buckets, e + 1);
        lemma_multiple_dom::<G>(dom, bucket, less);
        lemma_interchange::<G>(
            dom,
            bucket_sum::<G>(buckets, e + 1, off + 1),
            multiple::<G>(bucket, less),
            running_sum::<G>(buckets, e + 1),
            bucket,
        );
        assert(multiple::<G>(bucket, (e - off) as nat) == G::sum(multiple::<G>(bucket, less), bucket));
    }
}

/// The running sums add up to the sum of the multiples.
proof fn lemma_running_total<G: CurvePoint>(
    dom: spec_fn(G::Value) -> bool,
    buckets: Seq<G::Value>,
    d: nat,
)
    requires
        group_laws::<G>(dom),
        buckets_within::<G>(dom, buckets),
        1 <= d,
    ensures
        running_total::<G>(buckets, d) == bucket_sum::<G>(buckets, d, (d - 1) as nat),
    decreases BUCKET_COUNT - d,
{
    if d < BUCKET_COUNT {
        let bucket = buckets[d as int];
        lemma_running_total::<G>(dom, buckets, d + 1);
        lemma_raise::<G>(dom, buckets, d + 1, (d - 1) as nat);
        lemma_bucket_sum_dom::<G>(dom, buckets, d + 1, d);
        lemma_running_sum_dom::<G>(dom, buckets, d + 1);
        law_associates::<G>(
            dom,
            bucket_sum::<G>(buckets, d + 1, d),
            running_sum::<G>(buckets, d + 1),
            bucket,
        );
        lemma_multiple_one::<G>(dom, bucket);
    }
}

/// Buckets that agree from digit `e` on have the same sum from `e` on.
proof fn lemma_bucket_sum_agrees<G: CurvePoint>(
    before: Seq<G::Value>,
    after: Seq<G::Value>,
    e: nat,
)
    requires
        forall|j: int| e <= j < BUCKET_COUNT ==> before[j] == after[j],
    ensures
        bucket_sum::<G>(after, e, 0) == bucket_sum::<G>(before, e, 0),
    decreases BUCKET_COUNT - e,
{
    if e < BUCKET_COUNT {
        lemma_bucket_sum_agrees::<G>(before, after, e + 1);
    }
}

/// Adding a point to the bucket of digit `d` adds the point taken `d` times
/// to the sum of the multiples from any digit up to `d` on.
proof fn lemma_bucket_sum_grows<G: CurvePoint>(
    dom: spec_fn(G::Value) -> bool,
    before: Seq<G::Value>,
    after: Seq<G::Value>,
    e: nat,
    d: nat,
    p: G::Value,
)
    requires
        group_laws::<G>(dom),
        buckets_within::<G>(dom, before),
        buckets_within::<G>(dom, after),
        dom(p),
        1 <= e <= d < BUCKET_COUNT,
        after[d as int] == G::sum(before[d as int], p),
        forall|j: int| 1 <= j < BUCKET_COUNT && j != d ==> before[j] == after[j],
    ensures
        bucket_sum::<G>(after, e, 0) == G::sum(
            bucket_sum::<G>(before, e, 0),
            multiple::<G>(p, d),
        ),
    decreases d - e,
{
    lemma_multiple_dom::<G>(dom, p, d);
    lemma_bucket_sum_dom::<G>(dom, before, e + 1, 0);
    lemma_multiple_dom::<G>(dom, before[e as int], e);
    if e == d {
        lemma_bucket_sum_agrees::<G>(before, after, d + 1);
        lemma_multiple_sum::<G>(dom, before[d as int], p, d);
        law_associates::<G>(
            dom,
            bucket_sum::<G>(before, d + 1, 0),
            multiple::<G>(before[d as int], d),
            multiple::<G>(p, d),
        );
    } else {
        lemma_bucket_sum_grows::<G>(dom, before, after, e + 1, d, p);
        lemma_swap::<G>(
            dom,
            bucket_sum::<G>(before, e + 1, 0),
            multiple::<G>(p, d),
            multiple::<G>(before[e as int], e),
        );
    }
}

/// The buckets of a window, each taken as often as its digit says, add up to
/// the weighted sum by the digits of the window.
proof fn lemma_buckets_are_weighted<G: CurvePoint>(
    dom: spec_fn(G::Value) -> bool,
    terms: Seq<(G::Value, nat)>,
    w: nat,
    f: spec_fn(nat) -> nat,
)
    requires
        group_laws::<G>(dom),
        terms_within::<G>(dom, terms),
        forall|i: int| 0 <= i < terms.len() ==> f((#[trigger] terms[i]).1) == window_digit(
            terms[i].1,
            w,
        ),
    ensures
        bucket_sum::<G>(buckets_of::<G>(terms, w), 1, 0) == weighted_sum::<G>(terms, f),
    decreases terms.len(),
{
    let after = buckets_of::<G>(terms, w);
    if terms.len() == 0 {
        lemma_bucket_sum_identity::<G>(dom, after, 1);
    } else {
        let rest = terms.drop_last();
        let p = terms.last().0;
        let d = window_digit(terms.last().1, w);
        let before = buckets_of::<G>(rest, w);
        lemma_terms_rest::<G>(dom, terms);
        assert forall|i: int| 0 <= i < rest.len() implies f((#[trigger] rest[i]).1)
            == window_digit(rest[i].1, w) by {
            assert(rest[i] == terms[i]);
        }
        assert(terms.last() == terms[terms.len() - 1]);
        lemma_buckets_are_weighted::<G>(dom, rest, w, f);
        lemma_buckets_dom::<G>(dom, terms, w);
        lemma_buckets_dom::<G>(dom, rest, w);
        lemma_weighted_sum_dom::<G>(dom, rest, f);
        if d == 0 {
            lemma_bucket_sum_agrees::<G>(before, after, 1);
            law_neutral::<G>(dom, weighted_sum::<G>(rest, f));
        } else {
            lemma_bucket_sum_grows::<G>(dom, before, after, 1, d, p);
        }
    }
}

/// Buckets that are all the identity add up to the identity.
proof fn lemma_bucket_sum_identity<G: CurvePoint>(
    dom: spec_fn(G::Value) -> bool,
    buckets: Seq<G::Value>,
    e: nat,
)
    requires
        group_laws::<G>(dom),
        forall|j: int| e <= j < BUCKET_COUNT ==> buckets[j] == G::identity_value(),
    ensures
        bucket_sum::<G>(buckets, e, 0) == G::identity_value(),
    decreases BUCKET_COUNT - e,
{
    if e < BUCKET_COUNT {
        lemma_bucket_sum_identity::<G>(dom, buckets, e + 1);
        lemma_multiple_identity::<G>(dom, e);
        law_identity::<G>(dom);
        law_neutral::<G>(dom, G::identity_value());
    }
}

/// What a window contributes, under either strategy with buckets, is the
/// weighted sum by the digits of the window.
proof fn lemma_window_sum<G: CurvePoint>(
    dom: spec_fn(G::Value) -> bool,
    terms: Seq<(G::Value, nat)>,
    w: nat,
    strategy: Strategy,
    f: spec_fn(nat) -> nat,
)
    requires
        group_laws::<G>(dom),
        terms_within::<G>(dom, terms),
        forall|i: int| 0 <= i < terms.len() ==> f((#[trigger] terms[i]).1) == window_digit(
            terms[i].1,
            w,
        ),
    ensures
        window_sum::<G>(terms, w, strategy) == weighted_sum::<G>(terms, f),
{
    let buckets = buckets_of::<G>(terms, w);
    lemma_buckets_dom::<G>(dom, terms, w);
    lemma_buckets_are_weighted::<G>(dom, terms, w, f);
    lemma_weighted_total::<G>(dom, buckets, 1);
    lemma_running_total::<G>(dom, buckets, 1);
}

/// A scalar below `2^256` has no windows beyond the sixty-fourth.
proof fn lemma_shifted_out(k: nat)
    requires
        k < pow256(32),
    ensures
        shifted(k, WINDOW_COUNT as nat) == 0,
{
    let s = be_bytes(k, 32);
    lemma_be_bytes_len(k, 32);
    lemma_be_nat_of_be_bytes(k, 32);
    lemma_shifted_bytes(s, 32);
    assert(s.take(0) =~= Seq::<u8>::empty());
}

/// The accumulator after the windows from the most significant down to `w`
/// is the weighted sum by the scalars without their windows below `w`.
proof fn lemma_windows_sum<G: CurvePoint>(
    dom: spec_fn(G::Value) -> bool,
    terms: Seq<(G::Value, nat)>,
    w: nat,
    strategy: Strategy,
    f: spec_fn(nat) -> nat,
)
    requires
        group_laws::<G>(dom),
        terms_within::<G>(dom, terms),
        w <= WINDOW_COUNT,
        forall|i: int| 0 <= i < terms.len() ==> f((#[trigger] terms[i]).1) == shifted(
            terms[i].1,
            w,
        ),
    ensures
        windows_sum::<G>(terms, w, strategy) == weighted_sum::<G>(terms, f),
    decreases WINDOW_COUNT - w,
{
    if w >= WINDOW_COUNT {
        assert forall|i: int| 0 <= i < terms.len() implies f((#[trigger] terms[i]).1) == 0 by {
            lemma_shifted_out(terms[i].1);
        }
        lemma_weighted_sum_zero::<G>(dom, terms, f);
    } else {
        let upper = |k: nat| shifted(k, w + 1);
        let scaled = |k: nat| shifted(k, w + 1) * 16;
        let digit = |k: nat| window_digit(k, w);
        lemma_windows_sum::<G>(dom, terms, w + 1, strategy, upper);
        lemma_window_sum::<G>(dom, terms, w, strategy, digit);
        lemma_weighted_sum_dom::<G>(dom, terms, upper);
        lemma_doubled_times::<G>(dom, weighted_sum::<G>(terms, upper));
        lemma_weighted_sum_scale::<G>(dom, terms, upper, 16, scaled);
        assert forall|i: int| 0 <= i < terms.len() implies f((#[trigger] terms[i]).1) == scaled(
            terms[i].1,
        ) + digit(terms[i].1) by {
            let k = terms[i].1;
            assert(shifted(k, w + 1) == shifted(k, w) / 16);
        }
        lemma_weighted_sum_add::<G>(dom, terms, scaled, digit, f);
    }
}

/// The strategies agree. Where the operations obey the laws of a commutative
/// group on a set of points that holds the points of the terms, and the
/// scalars are below `2^256`, every strategy gives the sum that the naive
/// strategy gives.
pub proof fn lemma_strategies_agree<G: CurvePoint>(
    dom: spec_fn(G::Value) -> bool,
    terms: Seq<(G::Value, nat)>,
    strategy: Strategy,
)
    requires
        group_laws::<G>(dom),
        terms_within::<G>(dom, terms),
    ensures
        accumulate_spec::<G>(terms, strategy) == naive_sum::<G>(terms),
{
    if strategy != Strategy::Naive {
        let whole = |k: nat| k;
        lemma_naive_is_weighted::<G>(dom, terms, whole);
        lemma_windows_sum::<G>(dom, terms, 0, strategy, whole);
    }
}

/// The strategies agree on errors, whatever the operations on points do: an
/// input that one strategy refuses is refused by every strategy, with the
/// same error, and an input that one strategy answers is answered by every
/// strategy.
pub proof fn lemma_strategies_agree_on_errors<G: CurvePoint>(
    input: Seq<u8>,
    one: Strategy,
    other: Strategy,
)
    ensures
        multiexp_input_spec::<G>(input, one) is Ok <==> multiexp_input_spec::<G>(input, other) is Ok,
        multiexp_input_spec::<G>(input, one) is Err ==> multiexp_input_spec::<G>(input, one)
            == multiexp_input_spec::<G>(input, other),
{
}

/// The strategies agree on every input. Where the operations obey the laws
/// of a commutative group on a set of points that holds every point that
/// decoding with the subgroup test accepts, every strategy answers an input
/// as the naive strategy does, output or error.
pub proof fn lemma_strategies_agree_on_input<G: CurvePoint>(
    dom: spec_fn(G::Value) -> bool,
    input: Seq<u8>,
    strategy: Strategy,
)
    requires
        group_laws::<G>(dom),
        forall|s: Seq<u8>|
            (#[trigger] decode_point_spec::<G>(s, true)) is Ok ==> dom(
                decode_point_spec::<G>(s, true)->Ok_0,
            ),
    ensures
        multiexp_input_spec::<G>(input, strategy) == multiexp_input_spec::<G>(
            input,
            Strategy::Naive,
        ),
{
    let decode = |record: Seq<u8>| term_spec::<G>(record);
    let holds = |t: (G::Value, nat)| dom(t.0) && t.1 < pow256(32);
    let n = G::encoded_len();
    assert forall|record: Seq<u8>|
        record.len() == term_len::<G>() && (#[trigger] decode(record)) is Ok implies holds(
        decode(record)->Ok_0,
    ) by {
        assert(decode_point_spec::<G>(record.take(n as int), true) is Ok);
        lemma_be_nat_bound(record.skip(n as int));
    }
    lemma_records_all(input, term_len::<G>(), decode, holds);
    match terms_spec::<G>(input) {
        Ok(terms) => {
            assert(terms_within::<G>(dom, terms)) by {
                assert forall|i: int| 0 <= i < terms.len() implies dom((#[trigger] terms[i]).0)
                    && terms[i].1 < pow256(32) by {
                    assert(holds(terms[i]));
                }
            }
            lemma_strategies_agree::<G>(dom, terms, strategy);
            lemma_strategies_agree::<G>(dom, terms, Strategy::Naive);
        },
        Err(_) => {},
    }
}

} // verus!
