use vstd::prelude::*;
use vstd::string::StringSliceAdditionalSpecFns;

verus! {

/// The fixed-width slot that `pack_string` fills: the first `n` bytes of
/// `bytes` (at most), followed by zero bytes up to `n`.
pub open spec fn packed(bytes: Seq<u8>, n: nat) -> Seq<u8> {
    Seq::new(n, |i: int| if i < bytes.len() { bytes[i] } else { 0u8 })
}

/// The packed slot holds exactly `n` bytes: the input's bytes where it has
/// them, zeros after it.
pub proof fn lemma_packed(bytes: Seq<u8>, n: nat, i: int)
    requires
        0 <= i < n,
    ensures
        packed(bytes, n).len() == n,
        i < bytes.len() ==> packed(bytes, n)[i] == bytes[i],
        i >= bytes.len() ==> packed(bytes, n)[i] == 0u8,
{
}

/// Copies the UTF-8 bytes of `input` into an array of `N` bytes, truncating
/// input that is longer than `N` and zero-padding input that is shorter.
pub fn pack_string<const N: usize>(input: &str) -> (slot: [u8; N])
    ensures
        slot@ == packed(input.spec_bytes(), N as nat),
{
    let mut slot: [u8; N] = [0u8; N];
    let input_bytes = input.as_bytes();
    let input_size = input_bytes.len();
    let len: usize = if input_size < N { input_size } else { N };
    let mut i: usize = 0;
    while i < len
        invariant
            len <= N,
            len <= input_bytes@.len(),
            len == (if input_bytes@.len() < N { input_bytes@.len() } else { N as nat }),
            i <= len,
            slot@.len() == N,
            forall|j: int| 0 <= j < i ==> slot@[j] == input_bytes@[j],
            forall|j: int| i <= j < N ==> slot@[j] == 0u8,
        decreases len - i,
    {
        slot[i] = input_bytes[i];
        i = i + 1;
    }
    assert(slot@ =~= packed(input_bytes@, N as nat));
    slot
}

} // verus!
