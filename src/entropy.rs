//! Random draws from the operating system's random source.

use vstd::prelude::*;

verus! {

#[verifier::external_type_specification]
#[verifier::external_body]
pub struct ExRandomSourceError(getrandom::Error);

/// The random source could not supply bytes.
#[derive(PartialEq, Eq, Structural, Clone, Copy, Debug)]
pub enum EntropyError {
    Unavailable,
}

/// Relies on getrandom::getrandom to fill `buf` with bytes from the
/// operating system's random source, or to report that it could not.
#[verifier::external_body]
fn fill_random(buf: &mut [u8; 8]) -> (r: Result<(), getrandom::Error>) {
    getrandom::getrandom(buf)
}

/// The number that `bytes` spell in base 256, first byte highest.
pub open spec fn be_u64(bytes: Seq<u8>) -> nat
    decreases bytes.len(),
{
    if bytes.len() == 0 {
        0
    } else {
        (be_u64(bytes.drop_last()) * 256 + bytes.last()) as nat
    }
}

/// 256 to the power `n`.
pub open spec fn pow256(n: nat) -> nat
    decreases n,
{
    if n == 0 {
        1
    } else {
        256 * pow256((n - 1) as nat)
    }
}

/// `n` bytes spell a number below 256 to the power `n`.
proof fn lemma_be_u64_bound(bytes: Seq<u8>)
    ensures
        be_u64(bytes) < pow256(bytes.len()),
    decreases bytes.len(),
{
    if bytes.len() > 0 {
        let init = bytes.drop_last();
        lemma_be_u64_bound(init);
        let a = be_u64(init);
        let p = pow256(init.len());
        let l = bytes.last() as int;
        assert(a * 256 + l < 256 * p) by (nonlinear_arith)
            requires a < p, 0 <= l < 256;
    }
}

/// Powers of 256 grow with the exponent.
proof fn lemma_pow256_monotone(i: nat, j: nat)
    requires
        i <= j,
    ensures
        pow256(i) <= pow256(j),
    decreases j,
{
    if i < j {
        lemma_pow256_monotone(i, (j - 1) as nat);
    }
}

/// The number that eight bytes spell, first byte highest.
pub fn draw_from_bytes(bytes: &[u8; 8]) -> (r: u64)
    ensures
        r as nat == be_u64(bytes@),
{
    let mut draw: u64 = 0;
    let mut i: usize = 0;
    proof {
        reveal_with_fuel(pow256, 8);
        assert(bytes@.take(0) =~= Seq::<u8>::empty());
    }
    while i < 8
        invariant
            i <= 8,
            bytes@.len() == 8,
            draw as nat == be_u64(bytes@.take(i as int)),
            pow256(7) == 0x100000000000000,
        decreases 8 - i,
    {
        proof {
            lemma_be_u64_bound(bytes@.take(i as int));
            lemma_pow256_monotone(i as nat, 7);
            assert(bytes@.take(i as int + 1).drop_last() =~= bytes@.take(i as int));
            assert(draw * 256 + 255 <= u64::MAX) by (nonlinear_arith)
                requires draw < 0x100000000000000;
        }
        draw = draw * 256 + (bytes[i] as u64);
        i += 1;
    }
    proof {
        assert(bytes@.take(8) =~= bytes@);
    }
    draw
}

/// Eight random bytes read as one number, or the source's failure.
pub(crate) fn draw_random() -> (r: Result<u64, EntropyError>)
    ensures
        r matches Ok(v) ==> exists|b: Seq<u8>| b.len() == 8 && v as nat == be_u64(b),
        r matches Err(e) ==> e == EntropyError::Unavailable,
{
    let mut bytes: [u8; 8] = [0u8; 8];
    match fill_random(&mut bytes) {
        Ok(_) => {
            let draw = draw_from_bytes(&bytes);
            proof {
                assert(bytes@.len() == 8);
            }
            Ok(draw)
        },
        Err(_) => Err(EntropyError::Unavailable),
    }
}

} // verus!
