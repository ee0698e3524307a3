//! Letter codes packed four to the byte: the first code in the lowest two
//! bits, the next one above it.
use crate::encoding::{is_code, LetterState};
use vstd::prelude::*;

verus! {

/// The number that a sequence of codes packs to.
pub open spec fn pack(codes: Seq<u8>) -> nat
    decreases codes.len(),
{
    if codes.len() == 0 {
        0
    } else {
        codes[0] as nat + 4 * pack(codes.drop_first())
    }
}

/// The codes that a number unpacks to, lowest first, as far as the number
/// reaches: what lies above its highest code that is not zero is left out.
pub open spec fn unpack(n: nat) -> Seq<u8>
    decreases n,
{
    if n == 0 {
        Seq::empty()
    } else {
        seq![(n % 4) as u8] + unpack(n / 4)
    }
}

/// The codes of a sequence of states.
pub open spec fn codes_of(states: Seq<LetterState>) -> Seq<u8> {
    Seq::new(states.len(), |i: int| states[i].code())
}

/// Whether every item of the sequence is a two-bit code.
pub open spec fn all_codes(codes: Seq<u8>) -> bool {
    forall|i: int| 0 <= i < codes.len() ==> is_code(#[trigger] codes[i] as int)
}

/// Four to the power `k`.
pub open spec fn pow4(k: nat) -> nat
    decreases k,
{
    if k == 0 {
        1
    } else {
        4 * pow4((k - 1) as nat)
    }
}

/// Codes pack to a number below four to the power of their count.
pub proof fn lemma_pack_bound(codes: Seq<u8>)
    requires
        all_codes(codes),
    ensures
        pack(codes) < pow4(codes.len()),
    decreases codes.len(),
{
    if codes.len() > 0 {
        let rest = codes.drop_first();
        assert forall|i: int| 0 <= i < rest.len() implies is_code(#[trigger] rest[i] as int) by {
            assert(rest[i] == codes[i + 1]);
        }
        lemma_pack_bound(rest);
    }
}

/// Up to eight codes pack to a 16-bit number.
pub proof fn lemma_pack_fits(codes: Seq<u8>)
    requires
        all_codes(codes),
        codes.len() <= 8,
    ensures
        pack(codes) <= 0xFFFF,
{
    lemma_pack_bound(codes);
    lemma_pow4_grows(codes.len(), 8);
    reveal_with_fuel(pow4, 9);
}

/// Four to a higher power is no less.
pub proof fn lemma_pow4_grows(j: nat, k: nat)
    requires
        j <= k,
    ensures
        pow4(j) <= pow4(k),
        pow4(j) > 0,
    decreases k,
{
    if j < k {
        lemma_pow4_grows(j, (k - 1) as nat);
    } else if k > 0 {
        lemma_pow4_grows((j - 1) as nat, (k - 1) as nat);
    }
}

/// A number unpacks to two-bit codes, the last of which is not zero.
pub proof fn lemma_unpack_codes(n: nat)
    ensures
        all_codes(unpack(n)),
        n > 0 ==> unpack(n).len() > 0 && unpack(n).last() != 0,
        n == 0 <==> unpack(n).len() == 0,
    decreases n,
{
    if n > 0 {
        lemma_unpack_codes(n / 4);
        let rest = unpack(n / 4);
        let all = unpack(n);
        assert(all =~= seq![(n % 4) as u8] + rest);
        assert forall|i: int| 0 <= i < all.len() implies is_code(#[trigger] all[i] as int) by {
            if i > 0 {
                assert(all[i] == rest[i - 1]);
            }
        }
        if n / 4 > 0 {
            assert(all.last() == rest.last());
        }
    }
}

/// A number below four to the power `k` unpacks to at most `k` codes.
pub proof fn lemma_unpack_len(n: nat, k: nat)
    requires
        n < pow4(k),
    ensures
        unpack(n).len() <= k,
    decreases n,
{
    if n > 0 {
        lemma_unpack_len(n / 4, (k - 1) as nat);
    }
}

/// A 16-bit number unpacks to at most eight codes.
pub proof fn lemma_unpack_len_u16(n: u16)
    ensures
        unpack(n as nat).len() <= 8,
{
    reveal_with_fuel(pow4, 9);
    lemma_unpack_len(n as nat, 8);
}

/// Unpacking and packing again gives the number back.
pub proof fn lemma_pack_unpack(n: nat)
    ensures
        pack(unpack(n)) == n,
    decreases n,
{
    if n > 0 {
        lemma_pack_unpack(n / 4);
        let all = unpack(n);
        assert(all.drop_first() =~= unpack(n / 4));
    }
}

/// Packing and unpacking again gives the codes back, where the last of them
/// is not zero.
pub proof fn lemma_unpack_pack(codes: Seq<u8>)
    requires
        all_codes(codes),
        codes.len() > 0 ==> codes.last() != 0,
    ensures
        unpack(pack(codes)) == codes,
    decreases codes.len(),
{
    if codes.len() == 0 {
    } else {
        let rest = codes.drop_first();
        assert(is_code(codes[0] as int));
        assert forall|i: int| 0 <= i < rest.len() implies is_code(#[trigger] rest[i] as int) by {
            assert(rest[i] == codes[i + 1]);
        }
        if rest.len() > 0 {
            assert(rest.last() == codes.last());
        }
        lemma_unpack_pack(rest);
        let n = pack(codes);
        if rest.len() == 0 {
            assert(pack(rest) == 0);
            assert(n == codes[0]);
            assert(n / 4 == 0 && n % 4 == n);
            assert(unpack(n / 4) =~= Seq::<u8>::empty());
        } else {
            lemma_unpack_codes(pack(rest));
            assert(pack(rest) > 0) by {
                if pack(rest) == 0 {
                    assert(unpack(pack(rest)).len() == 0);
                }
            }
            assert(n / 4 == pack(rest) && n % 4 == codes[0] as nat);
        }
        assert(unpack(n) =~= seq![codes[0]] + rest);
        assert(seq![codes[0]] + rest =~= codes);
    }
}

} // verus!
