//! The proportion-scaling estimator and transform.
//!
//! One category's observations (one per stacked series) are summed to a
//! total `T`; each observation `v` is later expressed as the exact fraction
//! `v / T` of that total. Fitting rejects a negative or non-finite
//! observation and a zero total; transforming rejects a negative or
//! non-finite value, whatever the scaler.

use vstd::prelude::*;

use crate::error::Error;
use crate::num::{Frac, Num};

verus! {

/// True when every observation is finite and non-negative.
pub open spec fn all_valid(obs: Seq<Num>) -> bool {
    forall|i: int| 0 <= i < obs.len() ==> obs[i].is_valid_observation()
}

/// The exact sum of the observations' magnitudes.
pub open spec fn total_of(obs: Seq<Num>) -> int
    decreases obs.len(),
{
    if obs.len() == 0 {
        0
    } else {
        total_of(obs.drop_last()) + obs.last().magnitude()
    }
}

/// The error reported for the leftmost invalid observation.
pub open spec fn first_invalid_error(obs: Seq<Num>) -> Error
    decreases obs.len(),
{
    if obs.len() == 0 {
        Error::ZeroTotal
    } else if !obs.first().is_valid_observation() {
        match obs.first() {
            Num::NotFinite => Error::NonFiniteObservation,
            Num::Finite(_) => Error::NegativeObservation,
        }
    } else {
        first_invalid_error(obs.drop_first())
    }
}

/// What fitting a scaler yields: the positive total, or the exact error.
/// Invalid observations are reported first (leftmost first); a total beyond
/// the machine range is an overflow; a zero total defines no proportion.
pub open spec fn fit_result(obs: Seq<Num>) -> Result<int, Error> {
    if !all_valid(obs) {
        Err(first_invalid_error(obs))
    } else if total_of(obs) > i64::MAX {
        Err(Error::Overflow)
    } else if total_of(obs) == 0 {
        Err(Error::ZeroTotal)
    } else {
        Ok(total_of(obs))
    }
}

/// What transforming `value` against a fitted total yields: the exact
/// fraction `(value, total)`, or the error for a negative or non-finite
/// value.
pub open spec fn transform_result(total: int, value: Num) -> Result<(int, int), Error> {
    match value {
        Num::Finite(v) => if v >= 0 {
            Ok((v as int, total))
        } else {
            Err(Error::NegativeObservation)
        },
        Num::NotFinite => Err(Error::NonFiniteObservation),
    }
}

/// One category's fitted normalization state: the positive total of that
/// category's observations. Immutable once fitted.
#[derive(Debug, Clone, Copy, PartialEq, Eq)]
pub struct ProportionScaler {
    total: i64,
}

/// Fits a [`ProportionScaler`] from one category's observations.
#[derive(Debug, Clone, Copy)]
pub struct ProportionScalingEstimator;

impl ProportionScaler {
    /// The total the scaler was fitted with.
    pub closed spec fn fitted_total(&self) -> int {
        self.total as int
    }

    /// A fitted scaler always carries a positive total.
    pub open spec fn wf(&self) -> bool {
        self.fitted_total() > 0
    }

    /// Expresses `value` as the exact fraction of the fitted total it
    /// contributes. Fails on a negative or non-finite value, whatever the
    /// scaler.
    pub fn transform(&self, value: Num) -> (r: Result<Frac, Error>)
        requires
            self.wf(),
        ensures
            match r {
                Ok(f) => f.wf() && transform_result(self.fitted_total(), value)
                    == Ok::<(int, int), Error>((f.num as int, f.den as int)),
                Err(e) => transform_result(self.fitted_total(), value)
                    == Err::<(int, int), Error>(e),
            },
    {
        match value {
            Num::Finite(v) => {
                if v < 0 {
                    Err(Error::NegativeObservation)
                } else {
                    Ok(Frac { num: v, den: self.total })
                }
            },
            Num::NotFinite => Err(Error::NonFiniteObservation),
        }
    }
}

impl ProportionScalingEstimator {
    /// Fits one category's scaler: validates every observation, sums them,
    /// and keeps the positive total. The result is exactly
    /// [`fit_result`] of the observations.
    pub fn fit(&self, observations: &Vec<Num>) -> (r: Result<ProportionScaler, Error>)
        ensures
            match r {
                Ok(sc) => sc.wf() && fit_result(observations@)
                    == Ok::<int, Error>(sc.fitted_total()),
                Err(e) => fit_result(observations@) == Err::<int, Error>(e),
            },
    {
        let n = observations.len();
        let mut i: usize = 0;
        while i < n
            invariant
                n == observations@.len(),
                0 <= i <= n,
                forall|j: int| 0 <= j < i ==> observations@[j].is_valid_observation(),
            decreases n - i,
        {
            match observations[i] {
                Num::Finite(v) => {
                    if v < 0 {
                        proof {
                            lemma_first_invalid(observations@, i as int);
                        }
                        return Err(Error::NegativeObservation);
                    }
                },
                Num::NotFinite => {
                    proof {
                        lemma_first_invalid(observations@, i as int);
                    }
                    return Err(Error::NonFiniteObservation);
                },
            }
            i += 1;
        }
        assert(all_valid(observations@));
        let mut total: i64 = 0;
        let mut i: usize = 0;
        while i < n
            invariant
                n == observations@.len(),
                0 <= i <= n,
                all_valid(observations@),
                0 <= total,
                total == total_of(observations@.take(i as int)),
            decreases n - i,
        {
            proof {
                lemma_total_of_step(observations@, i as int);
            }
            match observations[i] {
                Num::Finite(v) => {
                    proof {
                        assert(observations@[i as int].is_valid_observation());
                    }
                    if total > i64::MAX - v {
                        proof {
                            lemma_total_of_prefix_bound(observations@, i as int + 1);
                        }
                        return Err(Error::Overflow);
                    }
                    total = total + v;
                },
                Num::NotFinite => {
                    proof {
                        // Never reached: the first pass validated every
                        // observation.
                        assert(observations@[i as int].is_valid_observation());
                        assert(false);
                    }
                    return Err(Error::Overflow);
                },
            }
            i += 1;
        }
        proof {
            assert(observations@.take(n as int) =~= observations@);
        }
        if total == 0 {
            return Err(Error::ZeroTotal);
        }
        Ok(ProportionScaler { total })
    }
}

/// The scaler the label maps to, if any: the leftmost entry wins.
pub open spec fn find_in(
    entries: Seq<(Seq<char>, ProportionScaler)>,
    label: Seq<char>,
) -> Option<ProportionScaler>
    decreases entries.len(),
{
    if entries.len() == 0 {
        None
    } else if entries.first().0 == label {
        Some(entries.first().1)
    } else {
        find_in(entries.drop_first(), label)
    }
}

/// The fitted scalers of one chart request, keyed by category label and
/// looked up by the x-label of each data point. Built once, then only
/// read.
pub struct ScalerMap {
    entries: Vec<(String, ProportionScaler)>,
}

impl ScalerMap {
    /// The entries, in insertion order, as label characters and scalers.
    pub closed spec fn entries_view(self) -> Seq<(Seq<char>, ProportionScaler)> {
        self.entries@.map_values(|e: (String, ProportionScaler)| (e.0@, e.1))
    }

    /// Every held scaler is fitted.
    pub open spec fn wf(self) -> bool {
        forall|i: int|
            0 <= i < self.entries_view().len() ==> (#[trigger] self.entries_view()[i]).1.wf()
    }

    /// The scaler for `label`, if one was fitted.
    pub open spec fn find(self, label: Seq<char>) -> Option<ProportionScaler> {
        find_in(self.entries_view(), label)
    }

    /// An empty mapping.
    pub fn new() -> (r: ScalerMap)
        ensures
            r.entries_view() == Seq::<(Seq<char>, ProportionScaler)>::empty(),
            r.wf(),
    {
        let r = ScalerMap { entries: Vec::new() };
        proof {
            assert(r.entries_view() =~= Seq::<(Seq<char>, ProportionScaler)>::empty());
        }
        r
    }

    /// Adds one category's scaler under its label.
    pub fn insert(&mut self, label: String, scaler: ProportionScaler)
        requires
            old(self).wf(),
            scaler.wf(),
        ensures
            final(self).entries_view() == old(self).entries_view().push((label@, scaler)),
            final(self).wf(),
    {
        self.entries.push((label, scaler));
        proof {
            assert(self.entries_view() =~= old(self).entries_view().push((label@, scaler)));
        }
    }

    /// The scaler fitted for `label`, or nothing if the label is unknown.
    pub fn get(&self, label: &str) -> (r: Option<ProportionScaler>)
        ensures
            r == self.find(label@),
    {
        proof {
            lemma_find_in(self.entries_view(), label@);
        }
        let n = self.entries.len();
        let mut i: usize = 0;
        while i < n
            invariant
                n == self.entries@.len(),
                n == self.entries_view().len(),
                0 <= i <= n,
                forall|j: int| 0 <= j < i ==> (#[trigger] self.entries_view()[j]).0 != label@,
            decreases n - i,
        {
            proof {
                assert(self.entries_view()[i as int] == (
                    self.entries@[i as int].0@,
                    self.entries@[i as int].1,
                ));
            }
            if crate::text::str_eq(self.entries[i].0.as_str(), label) {
                proof {
                    lemma_find_in(self.entries_view(), label@);
                    match find_in(self.entries_view(), label@) {
                        None => {
                            assert(self.entries_view()[i as int].0 != label@);
                        },
                        Some(_) => {
                            let k = choose|k: int|
                                0 <= k < self.entries_view().len()
                                    && self.entries_view()[k].0 == label@ && find_in(
                                    self.entries_view(),
                                    label@,
                                ) == Some(self.entries_view()[k].1) && forall|j: int|
                                    0 <= j < k ==> (#[trigger] self.entries_view()[j]).0
                                        != label@;
                            if k < i {
                                assert(self.entries_view()[k].0 != label@);
                            } else if k > i {
                                assert(self.entries_view()[i as int].0 != label@);
                            }
                        },
                    }
                }
                return Some(self.entries[i].1);
            }
            i += 1;
        }
        proof {
            lemma_find_in(self.entries_view(), label@);
            if let Some(_) = find_in(self.entries_view(), label@) {
                let k = choose|k: int|
                    0 <= k < self.entries_view().len() && self.entries_view()[k].0 == label@
                        && find_in(self.entries_view(), label@) == Some(
                        self.entries_view()[k].1,
                    ) && forall|j: int|
                        0 <= j < k ==> (#[trigger] self.entries_view()[j]).0 != label@;
                assert(self.entries_view()[k].0 != label@);
            }
        }
        None
    }
}

/// What [`find_in`] means: `None` exactly when no entry bears the label,
/// else the leftmost entry that does.
pub proof fn lemma_find_in(entries: Seq<(Seq<char>, ProportionScaler)>, label: Seq<char>)
    ensures
        match find_in(entries, label) {
            None => forall|j: int| 0 <= j < entries.len() ==> (#[trigger] entries[j]).0 != label,
            Some(sc) => exists|k: int|
                0 <= k < entries.len() && (#[trigger] entries[k]).0 == label && find_in(
                    entries,
                    label,
                ) == Some(entries[k].1) && forall|j: int|
                    0 <= j < k ==> (#[trigger] entries[j]).0 != label,
        },
    decreases entries.len(),
{
    if entries.len() > 0 && entries.first().0 != label {
        let t = entries.drop_first();
        lemma_find_in(t, label);
        match find_in(t, label) {
            None => {
                assert forall|j: int| 0 <= j < entries.len() implies (#[trigger] entries[j]).0
                    != label by {
                    if j > 0 {
                        assert(t[j - 1] == entries[j]);
                    }
                }
            },
            Some(_) => {
                let k = choose|k: int|
                    0 <= k < t.len() && (#[trigger] t[k]).0 == label && find_in(t, label) == Some(
                        t[k].1,
                    ) && forall|j: int| 0 <= j < k ==> (#[trigger] t[j]).0 != label;
                assert(entries[k + 1] == t[k]);
                assert forall|j: int| 0 <= j < k + 1 implies (#[trigger] entries[j]).0
                    != label by {
                    if j > 0 {
                        assert(t[j - 1] == entries[j]);
                    }
                }
            },
        }
    }
}

/// Law: one category's proportions sum exactly to one. For a scaler fitted
/// from the observations with total `T`, every observation `v` transforms
/// to the fraction `(v, T)`; the fractions share the denominator `T` and
/// their numerators sum to exactly `T`.
pub proof fn lemma_proportions_sum_to_one(obs: Seq<Num>, total: int)
    requires
        fit_result(obs) == Ok::<int, Error>(total),
    ensures
        total > 0,
        total_of(obs) == total,
        forall|i: int| 0 <= i < obs.len() ==> transform_result(total, obs[i])
            == Ok::<(int, int), Error>((obs[i].magnitude(), total)),
{
    assert(all_valid(obs));
    lemma_total_of_prefix_bound(obs, 0);
    assert(obs.take(0) =~= Seq::<Num>::empty());
}

/// The sum over a prefix one longer grows by the added observation.
proof fn lemma_total_of_step(s: Seq<Num>, i: int)
    requires
        0 <= i < s.len(),
    ensures
        total_of(s.take(i + 1)) == total_of(s.take(i)) + s[i].magnitude(),
{
    assert(s.take(i + 1).drop_last() =~= s.take(i));
    assert(s.take(i + 1).last() == s[i]);
}

/// With every observation valid, a prefix sum never exceeds the full sum.
proof fn lemma_total_of_prefix_bound(s: Seq<Num>, i: int)
    requires
        all_valid(s),
        0 <= i <= s.len(),
    ensures
        total_of(s.take(i)) <= total_of(s),
    decreases s.len() - i,
{
    if i == s.len() {
        assert(s.take(i) =~= s);
    } else {
        lemma_total_of_step(s, i);
        assert(s[i].is_valid_observation());
        lemma_total_of_prefix_bound(s, i + 1);
    }
}

/// The leftmost invalid observation determines the reported error.
proof fn lemma_first_invalid(s: Seq<Num>, i: int)
    requires
        0 <= i < s.len(),
        forall|j: int| 0 <= j < i ==> s[j].is_valid_observation(),
        !s[i].is_valid_observation(),
    ensures
        !all_valid(s),
        first_invalid_error(s) == (match s[i] {
            Num::NotFinite => Error::NonFiniteObservation,
            Num::Finite(_) => Error::NegativeObservation,
        }),
    decreases i,
{
    if i == 0 {
        assert(s.first() == s[0]);
    } else {
        assert(s.first().is_valid_observation());
        let t = s.drop_first();
        assert forall|j: int| 0 <= j < i - 1 implies t[j].is_valid_observation() by {
            assert(t[j] == s[j + 1]);
        }
        assert(t[i - 1] == s[i]);
        lemma_first_invalid(t, i - 1);
    }
}

} // verus!
