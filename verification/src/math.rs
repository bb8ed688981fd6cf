use vstd::prelude::*;

use vstd::arithmetic::power2::pow2;

verus! {

/// Operation of the math channel.
#[derive(Debug, Clone, Copy, PartialEq, Eq, Structural)]
pub enum MathOp {
    Add,
    Subtract,
    Multiply,
    Fft,
}

/// Number of samples an element-wise math operation yields from sources of
/// `len_a` and `len_b` samples: the shorter of the two.
pub fn math_len(len_a: usize, len_b: usize) -> (n: usize)
    ensures
        n == vstd::math::min(len_a as int, len_b as int),
{
    if len_a < len_b {
        len_a
    } else {
        len_b
    }
}

/// `p` is the smallest power of two that is at least `n`.
pub open spec fn is_next_power_of_two(n: int, p: int) -> bool {
    &&& p >= n
    &&& p >= 1
    &&& p == 1 || p / 2 < n
    &&& exists|k: nat| p == pow2(k)
}

/// The FFT length for a signal of `n` samples: the smallest power of two that
/// is at least `n` (`usize::next_power_of_two`).
pub fn fft_size(n: usize) -> (p: usize)
    requires
        n <= usize::MAX / 2 + 1,
    ensures
        is_next_power_of_two(n as int, p as int),
{
    let mut p: usize = 1;
    let ghost mut k: nat = 0;
    proof {
        vstd::arithmetic::power2::lemma2_to64();
    }
    while p < n
        invariant
            p >= 1,
            p == pow2(k),
            p == 1 || p / 2 < n,
            n <= usize::MAX / 2 + 1,
        decreases usize::MAX - p,
    {
        proof {
            vstd::arithmetic::power2::lemma_pow2_unfold(k + 1);
        }
        p = p * 2;
        proof {
            k = k + 1;
        }
    }
    p
}

/// Number of bins of the magnitude spectrum of `n` samples: half the FFT
/// length plus one, covering 0 Hz to the Nyquist frequency; none for an empty signal.
pub fn spectrum_len(n: usize) -> (bins: usize)
    requires
        n <= usize::MAX / 2 + 1,
    ensures
        n == 0 ==> bins == 0,
        n > 0 ==> exists|p: int| #[trigger] is_next_power_of_two(n as int, p) && bins == p / 2 + 1,
{
    if n == 0 {
        return 0;
    }
    let p = fft_size(n);
    p / 2 + 1
}

} // verus!
