//! Deterministic content for exercising the pipeline.
use vstd::prelude::*;

verus! {

/// The pair `(a, b)` after `i` steps of `(a, b) -> (b, (a + b) % 256)` from `(1, 1)`.
pub open spec fn mock_state(i: nat) -> (nat, nat)
    decreases i,
{
    if i == 0 {
        (1, 1)
    } else {
        let (a, b) = mock_state((i - 1) as nat);
        (b, (a + b) % 256)
    }
}

/// Byte `i` of the mock content: a Fibonacci sequence modulo 256.
pub open spec fn mock_byte(i: nat) -> u8 {
    mock_state(i + 1).1 as u8
}

proof fn lemma_mock_state_small(i: nat)
    ensures
        mock_state(i).0 < 256,
        mock_state(i).1 < 256,
    decreases i,
{
    if i > 0 {
        lemma_mock_state_small((i - 1) as nat);
    }
}

/// `len` bytes of a Fibonacci sequence modulo 256.
pub fn generate_test_file_content_for_test(len: usize) -> (r: Vec<u8>)
    ensures
        r@.len() == len,
        forall|i: int| 0 <= i < len ==> #[trigger] r@[i] == mock_byte(i as nat),
{
    let mut data: Vec<u8> = Vec::new();
    let mut a: u32 = 1;
    let mut b: u32 = 1;
    let mut i: usize = 0;
    while i < len
        invariant
            0 <= i <= len,
            data@.len() == i,
            (a as nat, b as nat) == mock_state(i as nat),
            forall|j: int| 0 <= j < i ==> #[trigger] data@[j] == mock_byte(j as nat),
        decreases len - i,
    {
        proof {
            lemma_mock_state_small(i as nat);
        }
        let c = (a + b) % 256;
        data.push(c as u8);
        a = b;
        b = c;
        i = i + 1;
    }
    data
}

} // verus!
