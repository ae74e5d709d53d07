//! Properties of budgets that hold for every input, proved from the
//! definitions in [`crate::config`].

use vstd::prelude::*;
use vstd::arithmetic::power2::{
    pow2,
    lemma_pow2_adds,
    lemma_pow2_pos,
    lemma_pow2_strictly_increases,
    lemma_pow2_unfold,
    lemma2_to64,
};
use crate::binary32::{units_per_one, with_sign, Binary32, Decoded};
use crate::config::{corrected_threads, default_share, thread_issue, ConfigIssue, CpuConfig};

verus! {

/// A budget has no issue exactly when it is valid.
pub proof fn lemma_valid_iff_no_issue(config: CpuConfig)
    ensures
        config.is_valid() <==> config.issues().len() == 0,
{
}

/// Whenever `initialize` succeeds, in either mode, the budget it leaves is
/// valid: the share lies between zero and one and no override exceeds the
/// cores. Without strict mode it always succeeds.
pub proof fn lemma_success_leaves_valid_budget(config: CpuConfig, strict: bool)
    ensures
        !strict ==> config.report(strict) is Ok,
        config.report(strict) is Ok ==> config.initialized(strict).is_valid(),
{
    default_share().lemma_compared_with_one();
}

/// `initialize` never changes the number of cores.
pub proof fn lemma_cores_are_kept(config: CpuConfig, strict: bool)
    ensures
        config.initialized(strict).num_cpus == config.num_cpus,
{
}

/// A valid budget is left as it is, in either mode, and nothing is reported.
pub proof fn lemma_valid_budget_is_kept(config: CpuConfig, strict: bool)
    requires
        config.is_valid(),
    ensures
        config.initialized(strict) == config,
        config.report(strict) == Ok::<Seq<ConfigIssue>, ConfigIssue>(Seq::empty()),
{
}

/// Initializing twice is initializing once. The second call leaves the
/// budget of the first. Where the first succeeded the second succeeds with
/// nothing to report; where the first failed the second fails with the same
/// issue.
pub proof fn lemma_initialize_is_idempotent(config: CpuConfig, strict: bool)
    ensures
        config.initialized(strict).initialized(strict) == config.initialized(strict),
        config.report(strict) is Ok ==> config.initialized(strict).report(strict) == Ok::<
            Seq<ConfigIssue>,
            ConfigIssue,
        >(Seq::empty()),
        config.report(strict) is Err ==> config.initialized(strict).report(strict)
            == config.report(strict),
{
    lemma_success_leaves_valid_budget(config, strict);
}

/// Without overrides both pools get the same count: the share of the cores.
pub proof fn lemma_pools_agree_without_overrides(config: CpuConfig)
    requires
        config.threads is None,
        config.threads_batch is None,
    ensures
        config.thread_count() == config.thread_count_batch(),
        config.thread_count() == config.use_percentage@.truncated_product(config.num_cpus as nat),
{
}

/// An override that strict initialization accepts is the count of its pool,
/// and does not exceed the cores.
pub proof fn lemma_accepted_override_is_the_count(config: CpuConfig, requested: i16)
    requires
        config.threads == Some(requested),
        config.report(true) is Ok,
    ensures
        config.initialized(true).thread_count() == requested,
        requested <= config.num_cpus,
{
    assert(thread_issue(config.num_cpus, config.threads) is None);
}

/// The same for the batch pool.
pub proof fn lemma_accepted_batch_override_is_the_count(config: CpuConfig, requested: i16)
    requires
        config.threads_batch == Some(requested),
        config.report(true) is Ok,
    ensures
        config.initialized(true).thread_count_batch() == requested,
        requested <= config.num_cpus,
{
    assert(thread_issue(config.num_cpus, config.threads_batch) is None);
}

/// Correction clamps an override to the cores and keeps a smaller one;
/// without strict mode the pool then gets the smaller of the two.
pub proof fn lemma_corrected_override_is_clamped(config: CpuConfig, requested: i16)
    requires
        config.threads == Some(requested),
    ensures
        config.initialized(false).thread_count() == if requested > config.num_cpus {
            config.num_cpus as int
        } else {
            requested as int
        },
{
}

/// The pools of a valid budget never exceed the cores, and a pool without an
/// override is never negative.
pub proof fn lemma_valid_budget_stays_within_cores(config: CpuConfig)
    requires
        config.is_valid(),
    ensures
        config.thread_count() <= config.num_cpus,
        config.thread_count_batch() <= config.num_cpus,
        config.threads is None ==> 0 <= config.thread_count(),
        config.threads_batch is None ==> 0 <= config.thread_count_batch(),
{
    config.use_percentage@.lemma_share_is_bounded_by_count(config.num_cpus as nat);
}

/// Ten times the distance between a number and seven tenths, in units of
/// `2^-149`.
pub open spec fn tenfold_gap_to_seven_tenths(value: Decoded) -> int
    recommends
        value is Finite,
{
    let tenfold = 10 * with_sign(value->Finite_negative, value->magnitude as int);
    let target = 7 * units_per_one();
    if tenfold <= target {
        target - tenfold
    } else {
        tenfold - target
    }
}

/// The default share is the number `0xB33333 * 2^-24`, which lies below
/// seven tenths by a fifth of a unit in its last place.
pub proof fn lemma_default_share_is_below_seven_tenths()
    ensures
        default_share()@ == (Decoded::Finite { negative: false, magnitude: 0xB3_3333 * pow2(125) }),
        default_share()@.within_unit_interval(),
        10 * (0xB3_3333 * pow2(125)) <= 7 * units_per_one(),
        tenfold_gap_to_seven_tenths(default_share()@) == 2 * pow2(125),
{
    lemma2_to64();
    lemma_pow2_adds(24, 125);
}

/// No binary32 number is nearer to seven tenths than the default share.
pub proof fn lemma_default_share_is_nearest_to_seven_tenths(other: Binary32)
    requires
        other@ is Finite,
    ensures
        tenfold_gap_to_seven_tenths(default_share()@) <= tenfold_gap_to_seven_tenths(other@),
{
    let ulp = pow2(125);
    let significand = other.significand();
    let power = pow2(other.scale());
    lemma_default_share_is_below_seven_tenths();
    lemma_pow2_pos(125);
    if other@->Finite_negative {
        // A negative number is farther from seven tenths than zero is.
    } else if other.scale() >= 125 {
        // The magnitude is a whole number of last places of the default
        // share, and no multiple of ten is within two of `7 * 2^24`.
        let rest = pow2((other.scale() - 125) as nat);
        lemma_pow2_adds((other.scale() - 125) as nat, 125);
        let steps = significand * rest;
        assert(significand * (rest * ulp) == steps * ulp) by (nonlinear_arith)
            requires
                steps == significand * rest,
        ;
        let tenfold = 10 * steps - 7 * 0x100_0000;
        assert(10 * (steps * ulp) - 7 * (0x100_0000 * ulp) == tenfold * ulp) by (nonlinear_arith)
            requires
                tenfold == 10 * steps - 7 * 0x100_0000,
        ;
        assert(tenfold * ulp >= 2 * ulp || tenfold * ulp <= -2 * ulp) by (nonlinear_arith)
            requires
                tenfold >= 2 || tenfold <= -2,
                ulp > 0,
        ;
    } else {
        // The magnitude is below one half.
        lemma_pow2_unfold(125);
        if other.scale() < 124 {
            lemma_pow2_strictly_increases(other.scale(), 124);
        }
        assert(significand * power <= 0x100_0000 * pow2(124)) by (nonlinear_arith)
            requires
                significand <= 0x100_0000,
                power <= pow2(124),
        ;
    }
}

} // verus!
