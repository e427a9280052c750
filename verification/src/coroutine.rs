//! How large the state of an `async fn` is.
//!
//! The body of an `async fn` becomes a state machine: a variant for the state
//! before the first poll, which holds what is captured, a variant for each
//! `.await`, which holds what is alive across it, two variants for the states
//! after the body has returned or panicked, which hold nothing, and a
//! discriminant. Only one variant is there at a time. What a variant holds is
//! taken to need no padding, and the discriminant one byte of its own.

use vstd::prelude::*;

verus! {

/// The size of the discriminant, in bytes.
pub const DISCRIMINANT_SIZE: u64 = 1;

/// Coroutines that are smaller, in bytes, are not worth a report.
pub const REPORT_THRESHOLD: u64 = 1000;

/// An `async fn`: the sizes of what it captures, its parameters among them, and
/// of each `.await` the sizes of what is alive across it, the future that is
/// awaited included.
#[derive(Debug)]
pub struct Coroutine {
    pub captured: Vec<u64>,
    pub awaits: Vec<Vec<u64>>,
}

/// The bytes that values of the sizes `live` take together.
pub open spec fn payload(live: Seq<u64>) -> nat
    decreases live.len(),
{
    if live.len() == 0 {
        0
    } else {
        payload(live.drop_last()) + live.last() as nat
    }
}

/// The bytes of the largest of `variants`.
pub open spec fn largest_payload(variants: Seq<Vec<u64>>) -> nat
    decreases variants.len(),
{
    if variants.len() == 0 {
        0
    } else {
        let rest = largest_payload(variants.drop_last());
        let last = payload(variants.last()@);
        if rest < last {
            last
        } else {
            rest
        }
    }
}

/// `value`, where that is a number of 64 bits.
pub open spec fn fits(value: nat) -> Option<u64> {
    if value <= u64::MAX {
        Some(value as u64)
    } else {
        None
    }
}

/// The bytes that `live` takes together, unless 64 bits cannot hold them.
fn sum(live: &Vec<u64>) -> (res: Option<u64>)
    ensures
        res == fits(payload(live@)),
{
    let mut total: u64 = 0;
    let mut i: usize = 0;
    while i < live.len()
        invariant
            i <= live.len(),
            total == payload(live@.take(i as int)),
        decreases live.len() - i,
    {
        proof {
            assert(live@.take(i + 1).drop_last() =~= live@.take(i as int));
            lemma_payload_grows(live@, i + 1);
        }
        match total.checked_add(live[i]) {
            Some(next) => {
                total = next;
            },
            None => {
                return None;
            },
        }
        i += 1;
    }
    assert(live@.take(i as int) =~= live@);
    Some(total)
}

proof fn lemma_payload_grows(live: Seq<u64>, n: int)
    requires
        0 <= n <= live.len(),
    ensures
        payload(live.take(n)) <= payload(live),
    decreases live.len(),
{
    if n < live.len() {
        assert(live.drop_last().take(n) =~= live.take(n));
        lemma_payload_grows(live.drop_last(), n);
    } else {
        assert(live.take(n) =~= live);
    }
}

proof fn lemma_largest_grows(variants: Seq<Vec<u64>>, n: int)
    requires
        0 <= n <= variants.len(),
    ensures
        largest_payload(variants.take(n)) <= largest_payload(variants),
    decreases variants.len(),
{
    if n < variants.len() {
        assert(variants.drop_last().take(n) =~= variants.take(n));
        lemma_largest_grows(variants.drop_last(), n);
    } else {
        assert(variants.take(n) =~= variants);
    }
}

impl Coroutine {
    /// The bytes of the largest variant.
    pub open spec fn largest_variant(self) -> nat {
        if payload(self.captured@) < largest_payload(self.awaits@) {
            largest_payload(self.awaits@)
        } else {
            payload(self.captured@)
        }
    }

    /// The size that is expected: the largest variant, and the discriminant.
    pub open spec fn expected_size(self) -> nat {
        self.largest_variant() + DISCRIMINANT_SIZE as nat
    }

    /// The least size that what lives across an `.await` implies, even where the
    /// discriminant is put where a variant has room for it: the most that is
    /// alive across one of them, and never nothing. What is captured does not
    /// count here unless it is alive across an `.await`.
    pub open spec fn least_size(self) -> nat {
        if largest_payload(self.awaits@) < DISCRIMINANT_SIZE {
            DISCRIMINANT_SIZE as nat
        } else {
            largest_payload(self.awaits@)
        }
    }

    /// The most that is alive across an `.await`, unless 64 bits cannot hold it.
    fn largest(&self) -> (res: Option<u64>)
        ensures
            res == fits(largest_payload(self.awaits@)),
    {
        let mut most: u64 = 0;
        let mut i: usize = 0;
        while i < self.awaits.len()
            invariant
                i <= self.awaits.len(),
                most == largest_payload(self.awaits@.take(i as int)),
            decreases self.awaits.len() - i,
        {
            proof {
                assert(self.awaits@.take(i + 1).drop_last() =~= self.awaits@.take(i as int));
                lemma_largest_grows(self.awaits@, i + 1);
            }
            match sum(&self.awaits[i]) {
                Some(size) => {
                    if most < size {
                        most = size;
                    }
                },
                None => {
                    return None;
                },
            }
            i += 1;
        }
        assert(self.awaits@.take(i as int) =~= self.awaits@);
        Some(most)
    }

    /// The size that is expected, unless 64 bits cannot hold it.
    pub fn predicted_size(&self) -> (res: Option<u64>)
        ensures
            res == fits(self.expected_size()),
            res is Some <==> self.expected_size() <= u64::MAX,
            res is Some ==> res->0 == self.expected_size(),
    {
        match (sum(&self.captured), self.largest()) {
            (Some(captured), Some(most)) => if captured < most {
                most.checked_add(DISCRIMINANT_SIZE)
            } else {
                captured.checked_add(DISCRIMINANT_SIZE)
            },
            _ => None,
        }
    }

    /// The least size that what lives across an `.await` implies, unless 64 bits
    /// cannot hold it.
    pub fn lower_bound(&self) -> (res: Option<u64>)
        ensures
            res == fits(self.least_size()),
            res is Some <==> self.least_size() <= u64::MAX,
            res is Some ==> res->0 == self.least_size(),
    {
        match self.largest() {
            Some(most) => if most < DISCRIMINANT_SIZE {
                Some(DISCRIMINANT_SIZE)
            } else {
                Some(most)
            },
            None => None,
        }
    }

    /// Whether `size` can be right: it is not below what is alive across an
    /// `.await`, and not above the expected size by more than `slack`.
    pub fn is_plausible(&self, size: u64, slack: u64) -> (res: bool)
        ensures
            res == (self.least_size() <= size <= self.expected_size() + slack),
    {
        match self.largest() {
            Some(most) => {
                let least: u64 = if most < DISCRIMINANT_SIZE {
                    DISCRIMINANT_SIZE
                } else {
                    most
                };
                let below = match sum(&self.captured) {
                    Some(captured) => {
                        let top: u64 = if captured < most {
                            most
                        } else {
                            captured
                        };
                        size <= top || size - top <= DISCRIMINANT_SIZE || size - top
                            - DISCRIMINANT_SIZE <= slack
                    },
                    None => true,
                };
                least <= size && below
            },
            None => false,
        }
    }
}

/// Whether a coroutine of `size` bytes is reported.
#[verifier::allow_in_spec]
pub fn is_reported(size: u64) -> bool
    returns
        size >= REPORT_THRESHOLD,
{
    size >= REPORT_THRESHOLD
}

/// The sizes in `sizes` that are reported, in their order.
pub fn reported(sizes: &Vec<u64>) -> (res: Vec<u64>)
    ensures
        res@ == sizes@.filter(|size: u64| size >= REPORT_THRESHOLD),
{
    let ghost large = |size: u64| size >= REPORT_THRESHOLD;
    let mut res: Vec<u64> = Vec::new();
    let mut i: usize = 0;
    proof {
        reveal(Seq::filter);
        assert(sizes@.take(0) =~= Seq::<u64>::empty());
    }
    while i < sizes.len()
        invariant
            i <= sizes.len(),
            large == (|size: u64| size >= REPORT_THRESHOLD),
            res@ == sizes@.take(i as int).filter(large),
        decreases sizes.len() - i,
    {
        proof {
            reveal(Seq::filter);
            assert(sizes@.take(i + 1).drop_last() =~= sizes@.take(i as int));
        }
        if is_reported(sizes[i]) {
            res.push(sizes[i]);
        }
        i += 1;
    }
    assert(sizes@.take(i as int) =~= sizes@);
    res
}

/// The places of the sizes in `sizes` that are reported, in increasing order: the
/// coroutines that are reported are those at these places.
pub fn reported_places(sizes: &Vec<u64>) -> (res: Vec<usize>)
    ensures
        forall|i: int, j: int| 0 <= i < j < res@.len() ==> res@[i] < res@[j],
        forall|place: usize| #[trigger]
            res@.contains(place) <==> place < sizes@.len() && sizes@[place as int]
                >= REPORT_THRESHOLD,
        res@.map_values(|place: usize| sizes@[place as int]) == sizes@.filter(
            |size: u64| size >= REPORT_THRESHOLD,
        ),
{
    let ghost large = |size: u64| size >= REPORT_THRESHOLD;
    let ghost size_at = |place: usize| sizes@[place as int];
    let mut res: Vec<usize> = Vec::new();
    let mut i: usize = 0;
    proof {
        reveal(Seq::filter);
        assert(sizes@.take(0) =~= Seq::<u64>::empty());
        assert(res@.map_values(size_at) =~= Seq::<u64>::empty());
    }
    while i < sizes.len()
        invariant
            i <= sizes.len(),
            large == (|size: u64| size >= REPORT_THRESHOLD),
            size_at == (|place: usize| sizes@[place as int]),
            forall|j: int, k: int| 0 <= j < k < res@.len() ==> res@[j] < res@[k],
            forall|place: usize| #[trigger]
                res@.contains(place) <==> place < i && sizes@[place as int] >= REPORT_THRESHOLD,
            res@.map_values(size_at) == sizes@.take(i as int).filter(large),
        decreases sizes.len() - i,
    {
        let ghost before = res@;
        proof {
            reveal(Seq::filter);
            assert(sizes@.take(i + 1).drop_last() =~= sizes@.take(i as int));
        }
        if is_reported(sizes[i]) {
            res.push(i);
            proof {
                assert forall|j: int| 0 <= j < before.len() implies before[j] < i by {
                    assert(before.contains(before[j]));
                }
                assert(before.push(i).map_values(size_at) =~= before.map_values(size_at).push(
                    sizes@[i as int],
                ));
                assert forall|place: usize| #[trigger]
                    res@.contains(place) <==> before.contains(place) || place == i by {
                    if before.contains(place) {
                        assert(res@[before.index_of(place)] == place);
                    }
                    assert(res@[before.len() as int] == i);
                }
            }
        }
        i += 1;
    }
    assert(sizes@.take(i as int) =~= sizes@);
    res
}

/// The expected size is plausible. It is above what any variant holds, and above
/// what one of them holds by one byte. It is above the least size by at most
/// that byte, unless more is captured than is alive across any `.await`.
pub proof fn expected_size_is_plausible(coroutine: Coroutine)
    ensures
        coroutine.least_size() <= coroutine.expected_size(),
        payload(coroutine.captured@) < coroutine.expected_size(),
        forall|i: int|
            0 <= i < coroutine.awaits@.len() ==> payload((#[trigger] coroutine.awaits@[i])@)
                < coroutine.expected_size(),
        payload(coroutine.captured@) + 1 == coroutine.expected_size() || exists|j: int|
            0 <= j < coroutine.awaits@.len() && payload((#[trigger] coroutine.awaits@[j])@) + 1
                == coroutine.expected_size(),
        payload(coroutine.captured@) <= largest_payload(coroutine.awaits@)
            ==> coroutine.expected_size() <= coroutine.least_size() + 1,
{
    if coroutine.awaits@.len() > 0 {
        lemma_largest_is_one(coroutine.awaits@);
    }
    assert forall|i: int| 0 <= i < coroutine.awaits@.len() implies payload(
        (#[trigger] coroutine.awaits@[i])@,
    ) < coroutine.expected_size() by {
        lemma_largest_grows(coroutine.awaits@, i + 1);
        assert(coroutine.awaits@.take(i + 1).last() == coroutine.awaits@[i]);
    }
}

proof fn lemma_largest_is_one(variants: Seq<Vec<u64>>)
    requires
        variants.len() > 0,
    ensures
        exists|j: int|
            0 <= j < variants.len() && payload((#[trigger] variants[j])@) == largest_payload(
                variants,
            ),
    decreases variants.len(),
{
    let front = variants.drop_last();
    if largest_payload(front) < payload(variants.last()@) || front.len() == 0 {
        assert(payload(variants[variants.len() - 1]@) == largest_payload(variants));
    } else {
        lemma_largest_is_one(front);
        let j = choose|j: int|
            0 <= j < front.len() && payload((#[trigger] front[j])@) == largest_payload(front);
        assert(variants[j] == front[j]);
    }
}

/// Without an `.await` nothing of the body is kept: there is only what is
/// captured, and the discriminant.
pub proof fn size_without_await(coroutine: Coroutine)
    requires
        coroutine.awaits@.len() == 0,
    ensures
        coroutine.expected_size() == payload(coroutine.captured@) + DISCRIMINANT_SIZE,
        coroutine.least_size() == DISCRIMINANT_SIZE,
{
}

/// A coroutine that does nothing but await another, and captures no more than
/// that one takes, is larger than that one by its own discriminant.
pub proof fn nested_size(inner: Coroutine, outer: Coroutine)
    requires
        outer.awaits@.len() == 1,
        outer.awaits@[0]@.len() == 1,
        outer.awaits@[0]@[0] == inner.expected_size(),
        payload(outer.captured@) <= inner.expected_size(),
    ensures
        outer.expected_size() == inner.expected_size() + DISCRIMINANT_SIZE,
{
    reveal_with_fuel(payload, 2);
    reveal_with_fuel(largest_payload, 2);
}

/// The bytes of a variant are the sum of all that it holds: nothing takes none,
/// one value takes its size, and two lists of values take what each of them takes.
pub proof fn payload_is_additive(a: Seq<u64>, b: Seq<u64>, size: u64)
    ensures
        payload(seq![]) == 0,
        payload(seq![size]) == size,
        payload(a + b) == payload(a) + payload(b),
    decreases b.len(),
{
    reveal_with_fuel(payload, 2);
    if b.len() == 0 {
        assert(a + b =~= a);
    } else {
        payload_is_additive(a, b.drop_last(), size);
        assert((a + b).drop_last() =~= a + b.drop_last());
        assert((a + b).last() == b.last());
    }
}

/// One more value makes a variant larger by its size, wherever it stands among the
/// others.
pub proof fn each_value_counts(a: Seq<u64>, size: u64, b: Seq<u64>)
    ensures
        payload(a + seq![size] + b) == payload(a + b) + size,
{
    payload_is_additive(a + seq![size], b, size);
    payload_is_additive(a, seq![size], size);
    payload_is_additive(a, b, size);
}

/// Of two lists of variants the one with the larger variant counts; one variant
/// counts with all that it holds, and without a variant there is nothing.
pub proof fn largest_payload_is_a_maximum(
    a: Seq<Vec<u64>>,
    b: Seq<Vec<u64>>,
    variant: Vec<u64>,
)
    ensures
        largest_payload(seq![]) == 0,
        largest_payload(seq![variant]) == payload(variant@),
        largest_payload(a + b) == if largest_payload(a) < largest_payload(b) {
            largest_payload(b)
        } else {
            largest_payload(a)
        },
    decreases b.len(),
{
    reveal_with_fuel(largest_payload, 2);
    if b.len() == 0 {
        assert(a + b =~= a);
    } else {
        largest_payload_is_a_maximum(a, b.drop_last(), variant);
        assert((a + b).drop_last() =~= a + b.drop_last());
        assert((a + b).last() == b.last());
    }
}

/// The least size is what is alive across one of the `.await`s or one byte, and
/// neither one byte nor what is alive across any of them is more. What is captured
/// has no part in it.
pub proof fn least_size_is_the_floor(coroutine: Coroutine, other: Coroutine)
    requires
        coroutine.awaits@ == other.awaits@,
    ensures
        1 <= coroutine.least_size(),
        forall|i: int|
            0 <= i < coroutine.awaits@.len() ==> payload((#[trigger] coroutine.awaits@[i])@)
                <= coroutine.least_size(),
        coroutine.least_size() == 1 || exists|j: int|
            0 <= j < coroutine.awaits@.len() && payload((#[trigger] coroutine.awaits@[j])@)
                == coroutine.least_size(),
        coroutine.least_size() == other.least_size(),
{
    if coroutine.awaits@.len() > 0 {
        lemma_largest_is_one(coroutine.awaits@);
    }
    assert forall|i: int| 0 <= i < coroutine.awaits@.len() implies payload(
        (#[trigger] coroutine.awaits@[i])@,
    ) <= coroutine.least_size() by {
        lemma_largest_grows(coroutine.awaits@, i + 1);
        assert(coroutine.awaits@.take(i + 1).last() == coroutine.awaits@[i]);
    }
}

/// A coroutine of a thousand bytes is the smallest that is reported.
pub proof fn reports_start_at_a_thousand(size: u64)
    ensures
        is_reported(size) <==> size >= 1000,
        REPORT_THRESHOLD == 1000,
{
}

/// A size is a number of 64 bits where it is not too large for one.
pub proof fn fits_unless_too_large(value: nat)
    ensures
        value <= u64::MAX ==> fits(value) == Some(value as u64),
        value > u64::MAX ==> fits(value) is None,
{
}

} // verus!
