use vstd::prelude::*;
use crate::edge_code::BLTR;
use rand::Rng;

verus! {

/// Whether code `c` agrees with `required` on every bit set in `mask`.
pub open spec fn fits(c: u32, required: u32, mask: u32) -> bool {
    c & mask == required & mask
}

/// The codes below `k` that fit the constraint, in ascending order.
pub open spec fn eligible_below(required: u32, mask: u32, k: nat) -> Seq<u32>
    decreases k,
{
    if k == 0 {
        seq![]
    } else {
        let prev = eligible_below(required, mask, (k - 1) as nat);
        if fits((k - 1) as u32, required, mask) {
            prev.push((k - 1) as u32)
        } else {
            prev
        }
    }
}

/// All sixteen codes that fit the constraint, in ascending order: the
/// candidates among which a constrained tile is drawn.
pub open spec fn eligible(required: u32, mask: u32) -> Seq<u32> {
    eligible_below(required, mask, 16)
}

/// The codes below `k` that fit are listed once each, in ascending order, and
/// nothing else is listed.
proof fn lemma_eligible_below(required: u32, mask: u32, k: nat)
    requires
        k <= 16,
    ensures
        eligible_below(required, mask, k).len() <= k,
        forall|i: int|
            0 <= i < eligible_below(required, mask, k).len() ==> {
                &&& #[trigger] eligible_below(required, mask, k)[i] < k
                &&& fits(eligible_below(required, mask, k)[i], required, mask)
            },
        forall|i: int, j: int|
            0 <= i < j < eligible_below(required, mask, k).len() ==> #[trigger] eligible_below(
                required,
                mask,
                k,
            )[i] < #[trigger] eligible_below(required, mask, k)[j],
        forall|c: u32|
            c < k && fits(c, required, mask) ==> #[trigger] eligible_below(
                required,
                mask,
                k,
            ).contains(c),
    decreases k,
{
    if k > 0 {
        let kp = (k - 1) as nat;
        lemma_eligible_below(required, mask, kp);
        let prev = eligible_below(required, mask, kp);
        let cur = eligible_below(required, mask, k);
        assert forall|c: u32| c < k && fits(c, required, mask) implies #[trigger] cur.contains(c) by {
            if c < kp {
                assert(prev.contains(c));
                let i = choose|i: int| 0 <= i < prev.len() && prev[i] == c;
                assert(cur[i] == c);
            } else {
                assert(cur[cur.len() - 1] == c);
            }
        }
    }
}

/// The candidate list holds exactly the codes that fit, each once, in
/// ascending order, and is never empty for a valid constraint.
pub proof fn lemma_eligible_exact(required: u32, mask: u32)
    requires
        required < 16,
        mask < 16,
    ensures
        1 <= eligible(required, mask).len() <= 16,
        forall|i: int|
            0 <= i < eligible(required, mask).len() ==> {
                &&& #[trigger] eligible(required, mask)[i] < 16
                &&& fits(eligible(required, mask)[i], required, mask)
            },
        forall|i: int, j: int|
            0 <= i < j < eligible(required, mask).len() ==> #[trigger] eligible(required, mask)[i]
                < #[trigger] eligible(required, mask)[j],
        forall|c: u32|
            c < 16 && fits(c, required, mask) <==> #[trigger] eligible(required, mask).contains(c),
{
    lemma_eligible_below(required, mask, 16);
    let own = required & mask;
    assert(own < 16 && fits(own, required, mask)) by (bit_vector)
        requires
            required < 16,
            own == required & mask,
    ;
    assert(eligible(required, mask).contains(own));
}

/// With no constrained edge every code is a candidate: drawing index `c`
/// yields code `c`, so each of the sixteen codes can be selected.
pub proof fn lemma_free_choice_covers_all(required: u32)
    ensures
        eligible(required, 0) == Seq::new(16, |i: int| i as u32),
{
    lemma_free_below(required, 16);
}

/// Bits of the required value outside the mask are ignored: two values that
/// agree on the masked edges have the same candidates, so the same draw gives
/// the same tile.
pub proof fn lemma_only_masked_bits_matter(required1: u32, required2: u32, mask: u32)
    requires
        required1 & mask == required2 & mask,
    ensures
        eligible(required1, mask) == eligible(required2, mask),
{
    lemma_masked_below(required1, required2, mask, 16);
}

proof fn lemma_masked_below(required1: u32, required2: u32, mask: u32, k: nat)
    requires
        required1 & mask == required2 & mask,
    ensures
        eligible_below(required1, mask, k) == eligible_below(required2, mask, k),
    decreases k,
{
    if k > 0 {
        lemma_masked_below(required1, required2, mask, (k - 1) as nat);
    }
}

proof fn lemma_free_below(required: u32, k: nat)
    requires
        k <= 16,
    ensures
        eligible_below(required, 0, k) == Seq::new(k, |i: int| i as u32),
    decreases k,
{
    if k > 0 {
        let c = (k - 1) as u32;
        assert(fits(c, required, 0)) by (bit_vector);
        lemma_free_below(required, (k - 1) as nat);
        assert(eligible_below(required, 0, k) =~= Seq::new(k, |i: int| i as u32));
    }
}

/// The candidates for a tile whose edges under `position` must match
/// `value`: the fitting codes in ascending order, in the first `n` slots.
pub fn candidates(value: BLTR, position: BLTR) -> (r: ([BLTR; 16], usize))
    ensures
        r.1 == eligible(value.spec_bits(), position.spec_bits()).len(),
        1 <= r.1 <= 16,
        forall|i: int|
            0 <= i < r.1 ==> (#[trigger] r.0[i]).spec_bits() == eligible(
                value.spec_bits(),
                position.spec_bits(),
            )[i],
{
    let ghost required = value.spec_bits();
    let ghost mask = position.spec_bits();
    let v = value.bits();
    let m = position.bits();
    let mut cands = [BLTR::Empty; 16];
    let mut n: usize = 0;
    let mut c: u32 = 0;
    proof {
        lemma_eligible_exact(required, mask);
    }
    while c < 16
        invariant
            c <= 16,
            v == required,
            m == mask,
            required < 16,
            mask < 16,
            n == eligible_below(required, mask, c as nat).len(),
            n <= c,
            forall|i: int|
                0 <= i < n ==> (#[trigger] cands[i]).spec_bits() == eligible_below(
                    required,
                    mask,
                    c as nat,
                )[i],
        decreases 16 - c,
    {
        proof {
            lemma_eligible_below(required, mask, c as nat);
        }
        if (c & m) == (v & m) {
            cands[n] = BLTR::from_bits(c);
            n = n + 1;
        }
        c = c + 1;
    }
    (cands, n)
}

/// The tile drawn by index `draw` among the candidates for the constraint:
/// the `draw`-th fitting code in ascending order.
pub fn pick_tile(value: BLTR, position: BLTR, draw: usize) -> (r: BLTR)
    requires
        draw < eligible(value.spec_bits(), position.spec_bits()).len(),
    ensures
        r.spec_bits() == eligible(value.spec_bits(), position.spec_bits())[draw as int],
        fits(r.spec_bits(), value.spec_bits(), position.spec_bits()),
{
    proof {
        lemma_eligible_exact(value.spec_bits(), position.spec_bits());
    }
    let (cands, n) = candidates(value, position);
    cands[draw]
}

/// Relies on rand's `thread_rng().gen_range(0..n)`: a value in `0..n`; the
/// range must not be empty.
#[verifier::external_body]
fn random_below(n: usize) -> (r: usize)
    requires
        n > 0,
    ensures
        r < n,
{
    rand::thread_rng().gen_range(0..n)
}

/// A tile drawn uniformly at random among the sixteen codes that agree with
/// `value` on the edges set in `position`.
pub fn rand_tile(value: BLTR, position: BLTR) -> (r: BLTR)
    ensures
        fits(r.spec_bits(), value.spec_bits(), position.spec_bits()),
        eligible(value.spec_bits(), position.spec_bits()).contains(r.spec_bits()),
{
    proof {
        lemma_eligible_exact(value.spec_bits(), position.spec_bits());
    }
    let (_, n) = candidates(value, position);
    pick_tile(value, position, random_below(n))
}

} // verus!
