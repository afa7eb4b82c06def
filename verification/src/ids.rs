//! Entry identifiers.  Every file entry in a container is keyed by the
//! decimal string of its zero-based position in the walk order; one reserved,
//! non-numeric identifier keys the index entry itself.

use vstd::prelude::*;

verus! {

/// The decimal digits of `n`, as ASCII bytes, most significant first.
pub open spec fn dec_bytes(n: nat) -> Seq<u8>
    decreases n,
{
    if n < 10 {
        seq![(48 + n) as u8]
    } else {
        dec_bytes(n / 10).push((48 + n % 10) as u8)
    }
}

/// The value a digit string denotes.
pub open spec fn dec_val(s: Seq<u8>) -> int
    decreases s.len(),
{
    if s.len() == 0 {
        0
    } else {
        dec_val(s.drop_last()) * 10 + (s.last() - 48)
    }
}

/// The reserved identifier of the index entry, as raw bytes: the UTF-8
/// encoding of one card-index pictograph character, which no decimal
/// identifier can collide with.
pub open spec fn index_id() -> Seq<u8> {
    seq![240u8, 159u8, 147u8, 135u8]
}

/// An identifier this library ever hands to the container: the reserved index
/// identifier or a string of ASCII decimal digits.  Both are valid UTF-8.
pub open spec fn valid_entry_id(s: Seq<u8>) -> bool {
    s == index_id() || (forall|k: int| 0 <= k < s.len() ==> 48 <= #[trigger] s[k] <= 57)
}

/// Reading back the digits of `n` yields `n`: decimal formatting is injective.
pub proof fn lemma_dec_val_of_bytes(n: nat)
    ensures
        dec_val(dec_bytes(n)) == n,
    decreases n,
{
    let s = dec_bytes(n);
    if n < 10 {
        assert(s.drop_last() =~= Seq::<u8>::empty());
        assert(dec_val(Seq::<u8>::empty()) == 0);
        assert(s.last() == (48 + n) as u8);
        assert(((48 + n) as u8) as int == 48 + n);
        assert(dec_val(s) == (48 + n) - 48);
    } else {
        lemma_dec_val_of_bytes(n / 10);
        assert(s.drop_last() =~= dec_bytes(n / 10));
        assert(s.last() == (48 + n % 10) as u8);
        assert(dec_val(s) == (n / 10) * 10 + (n % 10));
        assert(n == (n / 10) * 10 + (n % 10)) by {
            vstd::arithmetic::div_mod::lemma_fundamental_div_mod(n as int, 10);
        }
    }
}

/// Decimal identifiers of distinct numbers differ.
pub proof fn lemma_dec_bytes_injective(m: nat, n: nat)
    requires
        m != n,
    ensures
        dec_bytes(m) != dec_bytes(n),
{
    if dec_bytes(m) == dec_bytes(n) {
        lemma_dec_val_of_bytes(m);
        lemma_dec_val_of_bytes(n);
        assert(false);
    }
}

/// Every byte of a decimal identifier is an ASCII digit.
pub proof fn lemma_dec_bytes_digits(n: nat)
    ensures
        dec_bytes(n).len() >= 1,
        forall|k: int| 0 <= k < dec_bytes(n).len() ==> 48 <= #[trigger] dec_bytes(n)[k] <= 57,
    decreases n,
{
    if n < 10 {
    } else {
        lemma_dec_bytes_digits(n / 10);
        let s = dec_bytes(n);
        assert forall|k: int| 0 <= k < s.len() implies 48 <= #[trigger] s[k] <= 57 by {
            if k < s.len() - 1 {
                assert(s[k] == dec_bytes(n / 10)[k]);
            } else {
                assert(s[k] == (48 + n % 10) as u8);
            }
        }
    }
}

/// Ten to the `k`.
pub open spec fn pow10(k: nat) -> nat
    decreases k,
{
    if k == 0 {
        1
    } else {
        10 * pow10((k - 1) as nat)
    }
}

/// A number below ten to the `k` has at most `k` decimal digits.
pub proof fn lemma_dec_bytes_len(n: nat, k: nat)
    requires
        k >= 1,
        n < pow10(k),
    ensures
        dec_bytes(n).len() <= k,
    decreases n,
{
    if n < 10 {
    } else {
        if k == 1 {
            assert(pow10(0) == 1);
            assert(pow10(1) == 10);
            assert(false);
        }
        vstd::arithmetic::div_mod::lemma_fundamental_div_mod(n as int, 10);
        assert(pow10(k) == 10 * pow10((k - 1) as nat));
        assert(n / 10 < pow10((k - 1) as nat));
        lemma_dec_bytes_len(n / 10, (k - 1) as nat);
    }
}

/// A decimal identifier never collides with the reserved index identifier.
pub proof fn lemma_dec_bytes_not_index_id(n: nat)
    ensures
        dec_bytes(n) != index_id(),
        valid_entry_id(dec_bytes(n)),
{
    lemma_dec_bytes_digits(n);
    if dec_bytes(n) == index_id() {
        assert(dec_bytes(n)[0] == 240u8);
        assert(false);
    }
}

/// Appends the decimal digits of `n`.
fn push_dec(n: usize, out: &mut Vec<u8>)
    ensures
        final(out)@ == old(out)@ + dec_bytes(n as nat),
    decreases n,
{
    if n < 10 {
        out.push(48 + n as u8);
        proof {
            assert(out@ =~= old(out)@ + dec_bytes(n as nat));
        }
    } else {
        push_dec(n / 10, out);
        out.push(48 + (n % 10) as u8);
        proof {
            assert(out@ =~= old(out)@ + dec_bytes(n as nat));
        }
    }
}

/// The entry identifier assigned to the file at zero-based position `n`.
pub fn format_entry_id(n: usize) -> (r: Vec<u8>)
    ensures
        r@ == dec_bytes(n as nat),
{
    let mut out: Vec<u8> = Vec::new();
    push_dec(n, &mut out);
    proof {
        assert(Seq::<u8>::empty() + dec_bytes(n as nat) =~= dec_bytes(n as nat));
    }
    out
}

/// The reserved identifier of the index entry.
pub fn index_entry_id() -> (r: Vec<u8>)
    ensures
        r@ == index_id(),
{
    let mut v: Vec<u8> = Vec::new();
    v.push(240);
    v.push(159);
    v.push(147);
    v.push(135);
    proof {
        assert(v@ =~= index_id());
    }
    v
}

} // verus!
