use vstd::prelude::*;

verus! {

/// `rand`'s thread-local generator handle, declared so that it can appear in
/// signatures; its values are opaque to the verifier.
#[verifier::external_type_specification]
#[verifier::external_body]
pub struct ExThreadRng(rand::rngs::ThreadRng);

/// Relies on rand::thread_rng: returns a handle to the calling thread's
/// random-number generator. Nothing is assumed about the values it will yield.
#[verifier::external_body]
pub(crate) fn thread_rng_handle() -> rand::rngs::ThreadRng {
    rand::thread_rng()
}

/// Relies on Rng::gen_range over the half-open range `0..n`: the result is a
/// uniformly distributed value of the range, so always below `n`. The range
/// must be non-empty, since gen_range panics on an empty range.
#[verifier::external_body]
pub(crate) fn rand_below(generator: &mut rand::rngs::ThreadRng, n: usize) -> (r: usize)
    requires
        n >= 1,
    ensures
        r < n,
{
    rand::Rng::gen_range(generator, 0..n)
}

} // verus!
