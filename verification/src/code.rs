//! Human-facing codes: short strings meant to be typed by hand (invite or
//! session codes). A code is 5 characters, each an independent uniform draw
//! from a curated 62-symbol alphabet. Codes carry no uniqueness guarantee and
//! have no binary relationship to the typed identifiers.
use vstd::prelude::*;

verus! {

/// Number of characters in a human-facing code.
pub const CODE_LEN: usize = 5;

/// The curated 62-symbol alphabet codes are drawn from: letters in a
/// deliberately non-alphabetic order, both cases, then the ten digits.
pub open spec fn code_alphabet() -> Seq<char> {
    seq![
        'A', 'Z', 'E', 'R', 'T', 'Y', 'U', 'I', 'O', 'P', 'Q', 'S', 'D', 'F', 'G', 'H', 'J',
        'K', 'L', 'M', 'W', 'X', 'C', 'V', 'B', 'N', 'a', 'z', 'e', 'r', 't', 'y', 'u', 'i',
        'o', 'p', 'q', 's', 'd', 'f', 'g', 'h', 'j', 'k', 'l', 'm', 'w', 'x', 'c', 'v', 'b',
        'n', '0', '1', '2', '3', '4', '5', '6', '7', '8', '9',
    ]
}

/// Relies on `Rng::gen_range` on the process-wide generator: the draw lies
/// within the given range.
#[verifier::external_body]
fn rand_index(bound: usize) -> (i: usize)
    requires
        bound > 0,
    ensures
        i < bound,
{
    rand::Rng::gen_range(&mut rand::thread_rng(), 0..bound)
}

/// Generate a human-facing code: exactly 5 characters, each sampled
/// independently and uniformly, with replacement, from the 62-symbol code
/// alphabet. Two calls may legitimately return the same code, and one code
/// may repeat characters; nothing decodes such a code back to anything.
pub fn rand_id_unsafe() -> (s: String)
    ensures
        s@.len() == CODE_LEN,
        forall|i: int| 0 <= i < s@.len() ==> code_alphabet().contains(#[trigger] s@[i]),
{
    let table: Vec<char> = vec![
        'A', 'Z', 'E', 'R', 'T', 'Y', 'U', 'I', 'O', 'P', 'Q', 'S', 'D', 'F', 'G', 'H', 'J',
        'K', 'L', 'M', 'W', 'X', 'C', 'V', 'B', 'N', 'a', 'z', 'e', 'r', 't', 'y', 'u', 'i',
        'o', 'p', 'q', 's', 'd', 'f', 'g', 'h', 'j', 'k', 'l', 'm', 'w', 'x', 'c', 'v', 'b',
        'n', '0', '1', '2', '3', '4', '5', '6', '7', '8', '9',
    ];
    proof {
        assert(table@ =~= code_alphabet());
    }
    let mut s = String::new();
    let mut k: usize = 0;
    while k < CODE_LEN
        invariant
            k <= CODE_LEN,
            s@.len() == k,
            table@ == code_alphabet(),
            forall|i: int| 0 <= i < k ==> code_alphabet().contains(#[trigger] s@[i]),
        decreases CODE_LEN - k,
    {
        let idx = rand_index(table.len());
        let c = table[idx];
        proof {
            assert(code_alphabet().contains(c)) by {
                assert(0 <= idx < code_alphabet().len());
                assert(code_alphabet()[idx as int] == c);
            }
        }
        crate::codec::push_char(&mut s, c);
        k = k + 1;
    }
    s
}

} // verus!
