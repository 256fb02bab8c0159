//! SipHash-1-3 over a byte buffer, with both keys zero.
//!
//! The memorable-name generator derives word indices from a hash of the
//! session id. The hash is implemented and verified here rather than taken
//! on trust; with zero keys and one compression round plus three
//! finalization rounds it computes the same function as the standard
//! library's default hasher, which the tests check against.

use vstd::prelude::*;

verus! {

/// One SipHash mixing round.
pub open spec fn spec_sip_round(v: (u64, u64, u64, u64)) -> (u64, u64, u64, u64) {
    let v0 = v.0.wrapping_add(v.1);
    let v1 = ((v.1 << 13) | (v.1 >> 51)) ^ v0;
    let v0 = (v0 << 32) | (v0 >> 32);
    let v2 = v.2.wrapping_add(v.3);
    let v3 = ((v.3 << 16) | (v.3 >> 48)) ^ v2;
    let v0 = v0.wrapping_add(v3);
    let v3 = ((v3 << 21) | (v3 >> 43)) ^ v0;
    let v2 = v2.wrapping_add(v1);
    let v1 = ((v1 << 17) | (v1 >> 47)) ^ v2;
    let v2 = (v2 << 32) | (v2 >> 32);
    (v0, v1, v2, v3)
}

/// The eight bytes at `i`, read little-endian.
pub open spec fn spec_le64_at(data: Seq<u8>, i: int) -> u64 {
    (data[i] as u64) | ((data[i + 1] as u64) << 8) | ((data[i + 2] as u64) << 16) | ((data[i
        + 3] as u64) << 24) | ((data[i + 4] as u64) << 32) | ((data[i + 5] as u64) << 40) | ((
    data[i + 6] as u64) << 48) | ((data[i + 7] as u64) << 56)
}

/// Fold one eight-byte word into the state.
pub open spec fn spec_sip_word(v: (u64, u64, u64, u64), w: u64) -> (u64, u64, u64, u64) {
    let v = (v.0, v.1, v.2, v.3 ^ w);
    let v = spec_sip_round(v);
    (v.0 ^ w, v.1, v.2, v.3)
}

/// Fold every full word from byte offset `i` on.
pub open spec fn spec_sip_words(data: Seq<u8>, i: int, v: (u64, u64, u64, u64)) -> (
    u64,
    u64,
    u64,
    u64,
)
    decreases data.len() - i,
{
    if 0 <= i && i + 8 <= data.len() {
        spec_sip_words(data, i + 8, spec_sip_word(v, spec_le64_at(data, i)))
    } else {
        v
    }
}

/// The `k` tail bytes starting at `i`, read little-endian.
pub open spec fn spec_tail_at(data: Seq<u8>, i: int, k: int) -> u64
    decreases k,
{
    if k <= 0 {
        0
    } else {
        spec_tail_at(data, i, k - 1) | ((data[i + k - 1] as u64) << (8 * (k - 1)))
    }
}

/// The initial state: the SipHash constants, both keys zero.
pub open spec fn spec_sip_init() -> (u64, u64, u64, u64) {
    (0x736f_6d65_7073_6575, 0x646f_7261_6e64_6f6d, 0x6c79_6765_6e65_7261, 0x7465_6462_7974_6573)
}

/// SipHash-1-3 of the whole buffer with zero keys.
pub open spec fn spec_siphash13(data: Seq<u8>) -> u64 {
    let n = data.len() as int;
    let words_end = n - (n % 8);
    let v = spec_sip_words(data, 0, spec_sip_init());
    let b = (((n as u64) & 0xff) << 56) | spec_tail_at(data, words_end, n % 8);
    let v = spec_sip_word(v, b);
    let v = (v.0, v.1, v.2 ^ 0xff, v.3);
    let v = spec_sip_round(spec_sip_round(spec_sip_round(v)));
    v.0 ^ v.1 ^ v.2 ^ v.3
}

fn sip_round(v: (u64, u64, u64, u64)) -> (r: (u64, u64, u64, u64))
    ensures
        r == spec_sip_round(v),
{
    let v0 = v.0.wrapping_add(v.1);
    let v1 = ((v.1 << 13) | (v.1 >> 51)) ^ v0;
    let v0 = (v0 << 32) | (v0 >> 32);
    let v2 = v.2.wrapping_add(v.3);
    let v3 = ((v.3 << 16) | (v.3 >> 48)) ^ v2;
    let v0 = v0.wrapping_add(v3);
    let v3 = ((v3 << 21) | (v3 >> 43)) ^ v0;
    let v2 = v2.wrapping_add(v1);
    let v1 = ((v1 << 17) | (v1 >> 47)) ^ v2;
    let v2 = (v2 << 32) | (v2 >> 32);
    (v0, v1, v2, v3)
}

fn sip_word(v: (u64, u64, u64, u64), w: u64) -> (r: (u64, u64, u64, u64))
    ensures
        r == spec_sip_word(v, w),
{
    let v = (v.0, v.1, v.2, v.3 ^ w);
    let v = sip_round(v);
    (v.0 ^ w, v.1, v.2, v.3)
}

fn le64_at(data: &Vec<u8>, i: usize) -> (r: u64)
    requires
        i + 8 <= data.len(),
    ensures
        r == spec_le64_at(data@, i as int),
{
    (data[i] as u64) | ((data[i + 1] as u64) << 8) | ((data[i + 2] as u64) << 16) | ((data[i
        + 3] as u64) << 24) | ((data[i + 4] as u64) << 32) | ((data[i + 5] as u64) << 40) | ((
    data[i + 6] as u64) << 48) | ((data[i + 7] as u64) << 56)
}

/// SipHash-1-3 of `data` with zero keys; the same function as the standard
/// library's default hasher applied to this byte stream.
pub fn siphash13(data: &Vec<u8>) -> (r: u64)
    ensures
        r == spec_siphash13(data@),
{
    let n = data.len();
    let mut v = (
        0x736f_6d65_7073_6575u64,
        0x646f_7261_6e64_6f6du64,
        0x6c79_6765_6e65_7261u64,
        0x7465_6462_7974_6573u64,
    );
    let mut i: usize = 0;
    while n - i >= 8
        invariant
            i <= n,
            i % 8 == 0,
            n == data@.len(),
            spec_sip_words(data@, 0, spec_sip_init()) == spec_sip_words(data@, i as int, v),
        decreases n - i,
    {
        let w = le64_at(data, i);
        v = sip_word(v, w);
        i = i + 8;
    }
    let mut tail: u64 = 0;
    let mut k: usize = 0;
    while k < n - i
        invariant
            i <= n,
            n == data@.len(),
            n - i < 8,
            k <= n - i,
            tail == spec_tail_at(data@, i as int, k as int),
        decreases n - i - k,
    {
        tail = tail | ((data[i + k] as u64) << ((8 * k) as u32));
        k = k + 1;
    }
    let b: u64 = (((n as u64) & 0xff) << 56) | tail;
    proof {
        vstd::arithmetic::div_mod::lemma_fundamental_div_mod(i as int, 8);
        assert(8 * (i as int / 8) == i as int);
        vstd::arithmetic::div_mod::lemma_fundamental_div_mod_converse(
            n as int,
            8,
            i as int / 8,
            n - i as int,
        );
        assert((n - i) as int == data@.len() as int % 8);
        assert(i as int == data@.len() as int - (data@.len() as int % 8));
    }
    let v = sip_word(v, b);
    let v = (v.0, v.1, v.2 ^ 0xff, v.3);
    let v = sip_round(sip_round(sip_round(v)));
    v.0 ^ v.1 ^ v.2 ^ v.3
}

} // verus!
