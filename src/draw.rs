use vstd::prelude::*;
use proptest::prelude::RngExt;
use proptest::test_runner::TestRunner;

verus! {

#[verifier::external_type_specification]
#[verifier::external_body]
pub struct ExTestRunner(TestRunner);

/// Relies on proptest's `TestRunner::rng` and rand's `RngExt::random_range`: a number
/// drawn from `0..n`; the range must not be empty.
#[verifier::external_body]
pub(crate) fn draw_below(runner: &mut TestRunner, n: u64) -> (r: u64)
    requires
        n > 0,
    ensures
        r < n,
{
    runner.rng().random_range(0..n)
}

/// Relies on proptest's `TestRunner::rng` and rand's `RngExt::random`: any 128-bit number.
#[verifier::external_body]
pub(crate) fn draw_u128(runner: &mut TestRunner) -> (r: u128) {
    runner.rng().random::<u128>()
}

} // verus!
