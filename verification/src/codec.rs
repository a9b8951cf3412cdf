//! Channel-order conversion between the captured 4-channel byte order and
//! the order the renderer expects: a per-pixel swap of the first and third
//! channel. The swap is its own inverse on whole pixels.

use vstd::prelude::*;

verus! {

/// What the conversion yields: within each complete 4-byte pixel the first
/// and third channel trade places; bytes of a trailing partial pixel are
/// left as zero.
pub open spec fn swap_channels(s: Seq<u8>) -> Seq<u8> {
    Seq::new(
        s.len(),
        |i: int|
            if i < s.len() - (s.len() % 4) {
                if i % 4 == 0 {
                    s[i + 2]
                } else if i % 4 == 2 {
                    s[i - 2]
                } else {
                    s[i]
                }
            } else {
                0u8
            },
    )
}

/// Convert a buffer of 4-channel pixels from capture order to render order.
pub fn rgba_from_bgra(bgra: &[u8]) -> (rgba: Vec<u8>)
    ensures
        rgba@ == swap_channels(bgra@),
{
    let n = bgra.len();
    let whole = n - (n % 4);
    let mut out: Vec<u8> = Vec::with_capacity(n);
    let mut i: usize = 0;
    while i < whole
        invariant
            i % 4 == 0,
            i <= whole,
            whole == n - (n % 4),
            n == bgra@.len(),
            out@.len() == i,
            forall|j: int| 0 <= j < i ==> out@[j] == swap_channels(bgra@)[j],
        decreases whole - i,
    {
        out.push(bgra[i + 2]);
        out.push(bgra[i + 1]);
        out.push(bgra[i]);
        out.push(bgra[i + 3]);
        i = i + 4;
    }
    while i < n
        invariant
            whole <= i <= n,
            whole == n - (n % 4),
            n == bgra@.len(),
            out@.len() == i,
            forall|j: int| 0 <= j < i ==> out@[j] == swap_channels(bgra@)[j],
        decreases n - i,
    {
        out.push(0u8);
        i = i + 1;
    }
    assert(out@ =~= swap_channels(bgra@));
    out
}

/// The conversion applied twice returns the original buffer, for any buffer
/// made of whole 4-byte pixels.
pub proof fn lemma_swap_channels_involution(s: Seq<u8>)
    requires
        s.len() % 4 == 0,
    ensures
        swap_channels(swap_channels(s)) == s,
{
    let t = swap_channels(s);
    assert forall|i: int| 0 <= i < s.len() implies swap_channels(t)[i] == s[i] by {
        if i % 4 == 0 {
            assert((i + 2) % 4 == 2);
        } else if i % 4 == 2 {
            assert((i - 2) % 4 == 0);
        }
    }
    assert(swap_channels(swap_channels(s)) =~= s);
}

} // verus!
