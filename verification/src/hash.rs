//! The XXH3 hash of the `xxhash-rust` crate, and the native byte order of lengths.

use vstd::prelude::*;
use vstd::endian::{endianness, Endian};

verus! {

/// The 64-bit XXH3 hash (default seed and secret) of `input`.
pub uninterp spec fn xxh3_64_spec(input: Seq<u8>) -> u64;

/// Calls `xxhash_rust::xxh3::xxh3_64`, the one-shot 64-bit XXH3 hash with the
/// default seed and secret. Its result is claimed to be `xxh3_64_spec` of the bytes,
/// that is, a function of the input alone; what that function is, is not stated.
#[verifier::external_body]
pub(crate) fn xxh3_64(input: &[u8]) -> (h: u64)
    ensures
        h == xxh3_64_spec(input@),
{
    xxhash_rust::xxh3::xxh3_64(input)
}

/// The `n` low bytes of `v`, least significant first.
pub open spec fn le_bytes(v: nat, n: nat) -> Seq<u8>
    decreases n,
{
    if n == 0 {
        Seq::empty()
    } else {
        seq![(v % 256) as u8] + le_bytes(v / 256, (n - 1) as nat)
    }
}

/// The bytes of a `usize` in the byte order of the machine that runs the code.
pub open spec fn usize_ne_bytes(v: usize) -> Seq<u8> {
    let le = le_bytes(v as nat, (usize::BITS / 8) as nat);
    match endianness() {
        Endian::Little => le,
        Endian::Big => le.reverse(),
    }
}

/// Calls `usize::to_ne_bytes`: the memory representation of `v` in the native byte
/// order, which is stated through vstd's `endianness()` of the running machine.
#[verifier::external_body]
pub(crate) fn usize_to_ne_bytes(v: usize) -> (b: Vec<u8>)
    ensures
        b@ == usize_ne_bytes(v),
{
    v.to_ne_bytes().to_vec()
}

/// `256` to the power `n`.
pub open spec fn pow256(n: nat) -> nat
    decreases n,
{
    if n == 0 {
        1
    } else {
        256 * pow256((n - 1) as nat)
    }
}

proof fn lemma_le_bytes_len(v: nat, n: nat)
    ensures
        le_bytes(v, n).len() == n,
    decreases n,
{
    if n > 0 {
        lemma_le_bytes_len(v / 256, (n - 1) as nat);
    }
}

proof fn lemma_le_bytes_inj(v: nat, w: nat, n: nat)
    requires
        v < pow256(n),
        w < pow256(n),
        le_bytes(v, n) == le_bytes(w, n),
    ensures
        v == w,
    decreases n,
{
    if n > 0 {
        let m = (n - 1) as nat;
        let p = pow256(m);
        assert(le_bytes(v, n)[0] == (v % 256) as u8);
        assert(le_bytes(w, n)[0] == (w % 256) as u8);
        assert(le_bytes(v, n).skip(1) =~= le_bytes(v / 256, m));
        assert(le_bytes(w, n).skip(1) =~= le_bytes(w / 256, m));
        assert(v / 256 < p) by (nonlinear_arith)
            requires
                v < 256 * p,
        ;
        assert(w / 256 < p) by (nonlinear_arith)
            requires
                w < 256 * p,
        ;
        lemma_le_bytes_inj(v / 256, w / 256, m);
    }
}

proof fn lemma_pow_is_pow256(n: nat)
    ensures
        vstd::arithmetic::power::pow(256, n) == pow256(n),
    decreases n,
{
    reveal(vstd::arithmetic::power::pow);
    if n > 0 {
        lemma_pow_is_pow256((n - 1) as nat);
    }
}

/// A `usize` in native byte order takes `usize::BITS / 8` bytes, and different values
/// give different bytes.
pub(crate) proof fn lemma_ne_bytes_inj(v: usize, w: usize)
    ensures
        usize_ne_bytes(v).len() == usize::BITS / 8,
        usize_ne_bytes(v) == usize_ne_bytes(w) ==> v == w,
{
    broadcast use vstd::layout::group_layout_axioms;
    let n = (usize::BITS / 8) as nat;
    vstd::layout::unsigned_int_max_values();
    assert(vstd::layout::size_of::<usize>() * 8 == usize::BITS);
    lemma_pow_is_pow256(vstd::layout::size_of::<usize>());
    lemma_le_bytes_len(v as nat, n);
    lemma_le_bytes_len(w as nat, n);
    if usize_ne_bytes(v) == usize_ne_bytes(w) {
        let lv = le_bytes(v as nat, n);
        let lw = le_bytes(w as nat, n);
        match endianness() {
            Endian::Little => {},
            Endian::Big => {
                assert(lv.reverse().reverse() =~= lv);
                assert(lw.reverse().reverse() =~= lw);
            },
        }
        lemma_le_bytes_inj(v as nat, w as nat, n);
    }
}

} // verus!
