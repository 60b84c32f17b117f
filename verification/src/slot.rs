//! What a persistent context holds: tokens and image fingerprints.
use vstd::prelude::*;

verus! {

/// The FNV-1a hash of `bytes`: from the offset basis on, each byte is xored
/// into the hash, which is then multiplied by the FNV prime, modulo 2^64.
pub open spec fn fnv1a(bytes: Seq<u8>) -> u64
    decreases bytes.len(),
{
    if bytes.len() == 0 {
        0xcbf2_9ce4_8422_2325
    } else {
        (((fnv1a(bytes.drop_last()) ^ bytes.last() as u64) * 0x100_0000_01b3)
            % 0x1_0000_0000_0000_0000) as u64
    }
}

/// Computes [`fnv1a`].
pub fn fnv1a_64(bytes: &Vec<u8>) -> (hash: u64)
    ensures
        hash == fnv1a(bytes@),
{
    let mut hash: u64 = 0xcbf2_9ce4_8422_2325;
    let mut i: usize = 0;
    while i < bytes.len()
        invariant
            i <= bytes@.len(),
            hash == fnv1a(bytes@.take(i as int)),
        decreases bytes@.len() - i,
    {
        hash = (hash ^ bytes[i] as u64).wrapping_mul(0x100_0000_01b3);
        assert(bytes@.take(i + 1).drop_last() =~= bytes@.take(i as int));
        i = i + 1;
    }
    assert(bytes@.take(i as int) =~= bytes@);
    hash
}

/// One position of the cache: a text token, or an image by its hash.
#[derive(Clone, Copy, PartialEq, Eq, Structural)]
pub enum SlotEntry {
    /// A text token.
    Text(i32),
    /// An image, by the hash of its bytes.
    Image(u64),
}

/// A token in a batch that is to be decoded.
#[derive(Clone, Copy, PartialEq, Eq, Structural)]
pub struct BatchEntry {
    /// The token.
    pub token: i32,
    /// Its position in the context.
    pub position: i32,
    /// Whether its logits are wanted.
    pub logits: bool,
}

/// Whether the first `n` entries of both lists agree.
pub open spec fn agree(left: Seq<SlotEntry>, right: Seq<SlotEntry>, n: int) -> bool {
    &&& 0 <= n <= left.len()
    &&& n <= right.len()
    &&& left.take(n) == right.take(n)
}

/// The length of the longest prefix that both lists share.
pub open spec fn common_prefix(left: Seq<SlotEntry>, right: Seq<SlotEntry>) -> int
    decreases left.len(),
{
    if left.len() == 0 || right.len() == 0 || left[0] != right[0] {
        0
    } else {
        1 + common_prefix(left.drop_first(), right.drop_first())
    }
}

/// The lists agree up to their common prefix and no further.
pub proof fn law_common_prefix_is_longest(left: Seq<SlotEntry>, right: Seq<SlotEntry>)
    ensures
        agree(left, right, common_prefix(left, right)),
        forall|n: int| #[trigger] agree(left, right, n) ==> n <= common_prefix(left, right),
    decreases left.len(),
{
    let longest = common_prefix(left, right);
    if left.len() == 0 || right.len() == 0 || left[0] != right[0] {
        assert(left.take(0) =~= right.take(0));
        assert forall|n: int| #[trigger] agree(left, right, n) implies n <= 0 by {
            if n > 0 {
                assert(left.take(n)[0] == left[0]);
                assert(right.take(n)[0] == right[0]);
            }
        }
    } else {
        let l = left.drop_first();
        let r = right.drop_first();
        law_common_prefix_is_longest(l, r);
        assert(left.take(longest) =~= right.take(longest)) by {
            assert forall|i: int| 0 <= i < longest implies left[i] == right[i] by {
                if i > 0 {
                    assert(l.take(longest - 1)[i - 1] == left[i]);
                    assert(r.take(longest - 1)[i - 1] == right[i]);
                }
            }
        }
        assert forall|n: int| #[trigger] agree(left, right, n) implies n <= longest by {
            if n > 0 {
                assert(l.take(n - 1) =~= left.take(n).drop_first());
                assert(r.take(n - 1) =~= right.take(n).drop_first());
                assert(agree(l, r, n - 1));
            }
        }
    }
}

/// A prompt that goes on where the cache ends is served all that the cache holds.
pub proof fn law_a_continued_prompt_is_cached(cache: Seq<SlotEntry>, more: Seq<SlotEntry>)
    ensures
        common_prefix(cache, cache + more) == cache.len(),
    decreases cache.len(),
{
    if cache.len() > 0 {
        law_a_continued_prompt_is_cached(cache.drop_first(), more);
        assert((cache + more).drop_first() =~= cache.drop_first() + more);
    }
}

/// Measures the longest prefix that both lists share.
pub fn get_common_prefix(left: &Vec<SlotEntry>, right: &Vec<SlotEntry>) -> (n: usize)
    ensures
        n == common_prefix(left@, right@),
        n <= left.len(),
        n <= right.len(),
{
    let mut n: usize = 0;
    assert(left@.skip(0) =~= left@);
    assert(right@.skip(0) =~= right@);
    while n < left.len() && n < right.len() && left[n] == right[n]
        invariant
            n <= left@.len(),
            n <= right@.len(),
            common_prefix(left@, right@) == n + common_prefix(
                left@.skip(n as int),
                right@.skip(n as int),
            ),
        decreases left@.len() - n,
    {
        assert(left@.skip(n as int).drop_first() =~= left@.skip(n + 1));
        assert(right@.skip(n as int).drop_first() =~= right@.skip(n + 1));
        n = n + 1;
    }
    n
}

/// The hash starts from the offset basis; one more byte is xored into it, and
/// the result is multiplied by the prime, modulo two to the power of 64.
pub proof fn law_the_hash_takes_in_every_byte(bytes: Seq<u8>, byte: u8)
    ensures
        fnv1a(Seq::empty()) == 14695981039346656037u64,
        fnv1a(bytes.push(byte)) as int == ((fnv1a(bytes) ^ byte as u64) * 1099511628211)
            % 18446744073709551616,
{
    assert(bytes.push(byte).drop_last() =~= bytes);
}

/// Up to the common prefix the lists hold the same entries; right behind it
/// they differ, unless one of them ends there.
pub proof fn law_lists_differ_behind_the_common_prefix(left: Seq<SlotEntry>, right: Seq<SlotEntry>)
    ensures
        ({
            let n = common_prefix(left, right);
            &&& 0 <= n <= left.len()
            &&& n <= right.len()
            &&& forall|i: int| 0 <= i < n ==> #[trigger] left[i] == right[i]
            &&& n < left.len() && n < right.len() ==> left[n] != right[n]
        }),
    decreases left.len(),
{
    if left.len() > 0 && right.len() > 0 && left[0] == right[0] {
        law_lists_differ_behind_the_common_prefix(left.drop_first(), right.drop_first());
        assert(forall|i: int|
            1 <= i < left.len() ==> #[trigger] left[i] == left.drop_first()[i - 1]);
        assert(forall|i: int|
            1 <= i < right.len() ==> #[trigger] right[i] == right.drop_first()[i - 1]);
    }
}

}
