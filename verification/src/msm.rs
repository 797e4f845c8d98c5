//! Multi-scalar multiplication: the sum of `k_i * P_i` over a list of terms,
//! by three strategies that answer alike.
use crate::error::ErrorKind;
use crate::group::{validate_point, validate_point_spec, CurvePoint};
use crate::scalar::{window_digit, Scalar, BUCKET_COUNT, WINDOW_COUNT};
use vstd::prelude::*;

verus! {

/// Width of a window in bits, which is the number of doublings between two
/// windows.
pub const WINDOW_BITS: usize = 4;

/// How the sum is computed.
#[derive(Clone, Copy, Debug, PartialEq, Eq)]
pub enum Strategy {
    /// One scalar multiplication for each term.
    Naive,
    /// Windows of four bits, the points of a window gathered in buckets, the
    /// buckets combined by running sums.
    Bucket,
    /// The same windows and buckets, each bucket that holds a point taken as
    /// often as its digit says.
    ReferenceBucket,
}

/// The terms as mathematical values.
pub open spec fn terms_view<G: CurvePoint>(terms: Seq<(G, Scalar)>) -> Seq<(G::Value, nat)> {
    terms.map_values(|t: (G, Scalar)| (t.0.value(), t.1@))
}

/// The error of the first term whose point fails validation with the
/// subgroup test, if there is one.
pub open spec fn first_invalid<G: CurvePoint>(terms: Seq<(G::Value, nat)>) -> Option<ErrorKind>
    decreases terms.len(),
{
    if terms.len() == 0 {
        None
    } else {
        match first_invalid::<G>(terms.drop_last()) {
            Some(e) => Some(e),
            None => match validate_point_spec::<G>(terms.last().0, true) {
                Err(e) => Some(e),
                Ok(_) => None,
            },
        }
    }
}

/// The sum by the naive strategy: from the identity on, each term's product
/// is added in turn.
pub open spec fn naive_sum<G: CurvePoint>(terms: Seq<(G::Value, nat)>) -> G::Value
    decreases terms.len(),
{
    if terms.len() == 0 {
        G::identity_value()
    } else {
        G::sum(naive_sum::<G>(terms.drop_last()), G::product(terms.last().0, terms.last().1))
    }
}

/// The bucket of window `w` and digit `d`: the sum, from the identity on, of
/// the points whose scalar has digit `d` in window `w`.
pub open spec fn bucket_of<G: CurvePoint>(terms: Seq<(G::Value, nat)>, w: nat, d: nat) -> G::Value
    decreases terms.len(),
{
    if terms.len() == 0 {
        G::identity_value()
    } else if window_digit(terms.last().1, w) == d {
        G::sum(bucket_of::<G>(terms.drop_last(), w, d), terms.last().0)
    } else {
        bucket_of::<G>(terms.drop_last(), w, d)
    }
}

/// The buckets of window `w`. Digit zero contributes nothing, so its bucket
/// stays the identity.
pub open spec fn buckets_of<G: CurvePoint>(terms: Seq<(G::Value, nat)>, w: nat) -> Seq<G::Value> {
    Seq::new(
        BUCKET_COUNT as nat,
        |d: int|
            if d == 0 {
                G::identity_value()
            } else {
                bucket_of::<G>(terms, w, d as nat)
            },
    )
}

/// The sum of the buckets from the highest digit down to digit `d`.
pub open spec fn running_sum<G: CurvePoint>(buckets: Seq<G::Value>, d: nat) -> G::Value
    decreases BUCKET_COUNT - d,
{
    if d >= BUCKET_COUNT {
        G::identity_value()
    } else {
        G::sum(running_sum::<G>(buckets, d + 1), buckets[d as int])
    }
}

/// The sum of the running sums from the highest digit down to digit `d`. From
/// digit one on, it holds each bucket as often as its digit says.
pub open spec fn running_total<G: CurvePoint>(buckets: Seq<G::Value>, d: nat) -> G::Value
    decreases BUCKET_COUNT - d,
{
    if d >= BUCKET_COUNT {
        G::identity_value()
    } else {
        G::sum(running_total::<G>(buckets, d + 1), running_sum::<G>(buckets, d))
    }
}

/// A point taken `d` times, by doubling and adding along the bits of `d`.
pub open spec fn small_multiple<G: CurvePoint>(p: G::Value, d: nat) -> G::Value
    decreases d,
{
    if d == 0 {
        G::identity_value()
    } else if d == 1 {
        p
    } else if d % 2 == 0 {
        G::doubled(small_multiple::<G>(p, d / 2))
    } else {
        G::sum(G::doubled(small_multiple::<G>(p, d / 2)), p)
    }
}

/// The sum, from the highest digit down to digit `d`, of each bucket taken
/// as often as its digit says. A bucket that is the identity is passed over.
pub open spec fn weighted_total<G: CurvePoint>(buckets: Seq<G::Value>, d: nat) -> G::Value
    decreases BUCKET_COUNT - d,
{
    if d >= BUCKET_COUNT {
        G::identity_value()
    } else if buckets[d as int] == G::identity_value() {
        weighted_total::<G>(buckets, d + 1)
    } else {
        G::sum(weighted_total::<G>(buckets, d + 1), small_multiple::<G>(buckets[d as int], d))
    }
}

/// What one window contributes under a strategy with buckets.
pub open spec fn window_sum<G: CurvePoint>(
    terms: Seq<(G::Value, nat)>,
    w: nat,
    strategy: Strategy,
) -> G::Value {
    if strategy == Strategy::ReferenceBucket {
        weighted_total::<G>(buckets_of::<G>(terms, w), 1)
    } else {
        running_total::<G>(buckets_of::<G>(terms, w), 1)
    }
}

/// A point doubled `n` times.
pub open spec fn doubled_times<G: CurvePoint>(p: G::Value, n: nat) -> G::Value
    decreases n,
{
    if n == 0 {
        p
    } else {
        G::doubled(doubled_times::<G>(p, (n - 1) as nat))
    }
}

/// The accumulator after the windows from the most significant down to `w`:
/// between two windows it is doubled once for each bit of a window.
pub open spec fn windows_sum<G: CurvePoint>(
    terms: Seq<(G::Value, nat)>,
    w: nat,
    strategy: Strategy,
) -> G::Value
    decreases WINDOW_COUNT - w,
{
    if w >= WINDOW_COUNT {
        G::identity_value()
    } else {
        G::sum(
            doubled_times::<G>(windows_sum::<G>(terms, w + 1, strategy), WINDOW_BITS as nat),
            window_sum::<G>(terms, w, strategy),
        )
    }
}

/// The sum that a strategy computes.
pub open spec fn accumulate_spec<G: CurvePoint>(
    terms: Seq<(G::Value, nat)>,
    strategy: Strategy,
) -> G::Value {
    if strategy == Strategy::Naive {
        naive_sum::<G>(terms)
    } else {
        windows_sum::<G>(terms, 0, strategy)
    }
}

/// What multi-scalar multiplication answers: no terms is an error, and so is
/// the first term whose point fails validation; else the sum.
pub open spec fn multiexp_spec<G: CurvePoint>(
    terms: Seq<(G::Value, nat)>,
    strategy: Strategy,
) -> Result<G::Value, ErrorKind> {
    if terms.len() == 0 {
        Err(ErrorKind::EmptyInput)
    } else {
        match first_invalid::<G>(terms) {
            Some(e) => Err(e),
            None => Ok(accumulate_spec::<G>(terms, strategy)),
        }
    }
}

/// The views of the points in an array of buckets.
pub open spec fn bucket_values<G: CurvePoint>(buckets: Seq<G>) -> Seq<G::Value> {
    buckets.map_values(|b: G| b.value())
}

/// Sums the terms one by one: each product is added to the total in turn.
fn accumulate_naive<G: CurvePoint>(terms: &Vec<(G, Scalar)>) -> (total: G)
    ensures
        total.value() == naive_sum::<G>(terms_view::<G>(terms@)),
        G::reduced(total.value()),
{
    let ghost tv = terms_view::<G>(terms@);
    let mut total = G::identity();
    let mut i: usize = 0;
    while i < terms.len()
        invariant
            i <= terms.len(),
            tv == terms_view::<G>(terms@),
            total.value() == naive_sum::<G>(tv.take(i as int)),
            G::reduced(total.value()),
        decreases terms.len() - i,
    {
        proof {
            assert(tv.take(i + 1).drop_last() =~= tv.take(i as int));
            assert(tv.take(i + 1).last() == (terms@[i as int].0.value(), terms@[i as int].1@));
        }
        let product = terms[i].0.times(&terms[i].1);
        total = total.plus(&product);
        i += 1;
    }
    proof {
        assert(tv.take(i as int) =~= tv);
    }
    total
}

/// Gathers the points of one window in buckets by their digit. The buckets
/// are an array of fixed size: summing asks for no memory.
fn fill_buckets<G: CurvePoint>(terms: &Vec<(G, Scalar)>, w: usize) -> (buckets: [G; 16])
    requires
        w < WINDOW_COUNT,
    ensures
        bucket_values::<G>(buckets@) == buckets_of::<G>(terms_view::<G>(terms@), w as nat),
{
    let ghost tv = terms_view::<G>(terms@);
    let mut buckets: [G; 16] = [G::identity(); 16];
    let mut i: usize = 0;
    while i < terms.len()
        invariant
            i <= terms.len(),
            w < WINDOW_COUNT,
            tv == terms_view::<G>(terms@),
            buckets@[0].value() == G::identity_value(),
            forall|d: int|
                1 <= d < 16 ==> (#[trigger] buckets@[d]).value() == bucket_of::<G>(
                    tv.take(i as int),
                    w as nat,
                    d as nat,
                ),
        decreases terms.len() - i,
    {
        let digit: u8 = terms[i].1.digit(w);
        proof {
            assert(tv.take(i + 1).drop_last() =~= tv.take(i as int));
            assert(tv.take(i + 1).last() == (terms@[i as int].0.value(), terms@[i as int].1@));
        }
        if digit != 0 {
            let slot: usize = digit as usize;
            let sum = buckets[slot].plus(&terms[i].0);
            buckets[slot] = sum;
        }
        i += 1;
    }
    proof {
        assert(tv.take(i as int) =~= tv);
        assert(bucket_values::<G>(buckets@) =~= buckets_of::<G>(tv, w as nat));
    }
    buckets
}

/// Combines the buckets of a window by running sums: each bucket enters the
/// total as often as its digit says, by additions alone.
fn combine_running<G: CurvePoint>(buckets: &[G; 16]) -> (total: G)
    ensures
        total.value() == running_total::<G>(bucket_values::<G>(buckets@), 1),
        G::reduced(total.value()),
{
    let ghost values = bucket_values::<G>(buckets@);
    let mut running = G::identity();
    let mut total = G::identity();
    let mut d: usize = BUCKET_COUNT;
    while d > 1
        invariant
            1 <= d <= BUCKET_COUNT,
            values == bucket_values::<G>(buckets@),
            running.value() == running_sum::<G>(values, d as nat),
            total.value() == running_total::<G>(values, d as nat),
            G::reduced(total.value()),
        decreases d,
    {
        d -= 1;
        running = running.plus(&buckets[d]);
        total = total.plus(&running);
    }
    total
}

/// A point taken `d` times.
fn times_small<G: CurvePoint>(p: &G, d: u8) -> (multiple: G)
    ensures
        multiple.value() == small_multiple::<G>(p.value(), d as nat),
        G::reduced(multiple.value()),
    decreases d,
{
    if d == 0 {
        G::identity()
    } else if d == 1 {
        p.duplicate()
    } else {
        let twice_half = times_small(p, d / 2).twice();
        if d % 2 == 0 {
            twice_half
        } else {
            twice_half.plus(p)
        }
    }
}

/// Combines the buckets of a window by taking each as often as its digit
/// says.
fn combine_weighted<G: CurvePoint>(buckets: &[G; 16]) -> (total: G)
    ensures
        total.value() == weighted_total::<G>(bucket_values::<G>(buckets@), 1),
        G::reduced(total.value()),
{
    let ghost values = bucket_values::<G>(buckets@);
    let mut total = G::identity();
    let mut d: usize = BUCKET_COUNT;
    while d > 1
        invariant
            1 <= d <= BUCKET_COUNT,
            values == bucket_values::<G>(buckets@),
            total.value() == weighted_total::<G>(values, d as nat),
            G::reduced(total.value()),
        decreases d,
    {
        d -= 1;
        if !buckets[d].is_identity() {
            let weighted = times_small(&buckets[d], d as u8);
            total = total.plus(&weighted);
        }
    }
    total
}

/// Sums the terms window by window, from the most significant window down:
/// the total is doubled once for each bit of a window, then the window's
/// buckets are combined and added.
fn accumulate_windows<G: CurvePoint>(terms: &Vec<(G, Scalar)>, strategy: Strategy) -> (total: G)
    requires
        strategy != Strategy::Naive,
    ensures
        total.value() == windows_sum::<G>(terms_view::<G>(terms@), 0, strategy),
        G::reduced(total.value()),
{
    let ghost tv = terms_view::<G>(terms@);
    let mut total = G::identity();
    let mut w: usize = WINDOW_COUNT;
    while w > 0
        invariant
            w <= WINDOW_COUNT,
            strategy != Strategy::Naive,
            tv == terms_view::<G>(terms@),
            total.value() == windows_sum::<G>(tv, w as nat, strategy),
            G::reduced(total.value()),
        decreases w,
    {
        w -= 1;
        let ghost before = total.value();
        let mut bit: usize = 0;
        while bit < WINDOW_BITS
            invariant
                bit <= WINDOW_BITS,
                total.value() == doubled_times::<G>(before, bit as nat),
                G::reduced(total.value()),
            decreases WINDOW_BITS - bit,
        {
            total = total.twice();
            bit += 1;
        }
        let buckets = fill_buckets(terms, w);
        let window = match strategy {
            Strategy::ReferenceBucket => combine_weighted(&buckets),
            _ => combine_running(&buckets),
        };
        total = total.plus(&window);
    }
    total
}

/// Sums the terms by the given strategy, without looking at what the points
/// are.
pub fn accumulate<G: CurvePoint>(terms: &Vec<(G, Scalar)>, strategy: Strategy) -> (total: G)
    ensures
        total.value() == accumulate_spec::<G>(terms_view::<G>(terms@), strategy),
        G::reduced(total.value()),
{
    match strategy {
        Strategy::Naive => accumulate_naive(terms),
        Strategy::Bucket => accumulate_windows(terms, Strategy::Bucket),
        Strategy::ReferenceBucket => accumulate_windows(terms, Strategy::ReferenceBucket),
    }
}

/// Multi-scalar multiplication. Every point is validated, subgroup included,
/// before anything is summed; a term with scalar zero is validated like any
/// other.
pub fn multiexp<G: CurvePoint>(terms: &Vec<(G, Scalar)>, strategy: Strategy) -> (res: Result<
    G,
    ErrorKind,
>)
    ensures
        match res {
            Ok(total) => multiexp_spec::<G>(terms_view::<G>(terms@), strategy) == Ok::<
                G::Value,
                ErrorKind,
            >(total.value()) && G::reduced(total.value()),
            Err(e) => multiexp_spec::<G>(terms_view::<G>(terms@), strategy) == Err::<
                G::Value,
                ErrorKind,
            >(e),
        },
{
    if terms.len() == 0 {
        return Err(ErrorKind::EmptyInput);
    }
    let ghost tv = terms_view::<G>(terms@);
    let mut i: usize = 0;
    while i < terms.len()
        invariant
            i <= terms.len(),
            tv == terms_view::<G>(terms@),
            first_invalid::<G>(tv.take(i as int)) is None,
        decreases terms.len() - i,
    {
        proof {
            assert(tv.take(i + 1).drop_last() =~= tv.take(i as int));
            assert(tv.take(i + 1).last().0 == terms@[i as int].0.value());
            lemma_first_invalid_prefix::<G>(tv, i + 1);
        }
        match validate_point(&terms[i].0, true) {
            Ok(()) => {},
            Err(e) => {
                return Err(e);
            },
        }
        i += 1;
    }
    proof {
        assert(tv.take(i as int) =~= tv);
    }
    Ok(accumulate(terms, strategy))
}

/// An invalid term among the first `n` is the first invalid term of the
/// whole list.
pub proof fn lemma_first_invalid_prefix<G: CurvePoint>(terms: Seq<(G::Value, nat)>, n: int)
    requires
        0 <= n <= terms.len(),
    ensures
        first_invalid::<G>(terms.take(n)) is Some ==> first_invalid::<G>(terms) == first_invalid::<
            G,
        >(terms.take(n)),
    decreases terms.len() - n,
{
    if n < terms.len() {
        lemma_first_invalid_prefix::<G>(terms, n + 1);
        assert(terms.take(n + 1).drop_last() =~= terms.take(n));
    } else {
        assert(terms.take(n) =~= terms);
    }
}

} // verus!
