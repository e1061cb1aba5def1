use commonware_utils::bitmap::BitMap;
use vstd::prelude::*;

verus! {

/// `bitmap::BitMap`, known by the bits that it holds.
#[verifier::external_type_specification]
#[verifier::external_body]
pub struct ExBitMap<const N: usize>(BitMap<N>);

/// The bits that a bitmap holds, in index order.
pub uninterp spec fn bitmap_bits(bitmap: BitMap<1>) -> Seq<bool>;

/// `BitMap::zeroes`, for no more bits than the chunks of which can be
/// counted on every machine. Trusted: the result holds `size` bits, all
/// unset.
#[verifier::external_body]
pub(crate) fn bitmap_zeroes(size: u64) -> (bitmap: BitMap<1>)
    requires
        size <= u32::MAX,
    ensures
        bitmap_bits(bitmap) == Seq::new(size as nat, |i: int| false),
{
    BitMap::zeroes(size)
}

/// `BitMap::len`. Trusted: the result is the number of bits held.
#[verifier::external_body]
pub(crate) fn bitmap_len(bitmap: &BitMap<1>) -> (len: u64)
    ensures
        len == bitmap_bits(*bitmap).len(),
{
    bitmap.len()
}

/// `BitMap::get`, which panics on a bit that the bitmap does not hold.
/// Trusted: the result is the bit at that index.
#[verifier::external_body]
pub(crate) fn bitmap_get(bitmap: &BitMap<1>, bit: u64) -> (value: bool)
    requires
        bit < bitmap_bits(*bitmap).len(),
    ensures
        value == bitmap_bits(*bitmap)[bit as int],
{
    bitmap.get(bit)
}

/// `BitMap::set`, which panics on a bit that the bitmap does not hold.
/// Trusted: that bit takes the value and no other bit changes.
#[verifier::external_body]
pub(crate) fn bitmap_set(bitmap: &mut BitMap<1>, bit: u64, value: bool)
    requires
        bit < bitmap_bits(*old(bitmap)).len(),
    ensures
        bitmap_bits(*final(bitmap)) == bitmap_bits(*old(bitmap)).update(bit as int, value),
{
    bitmap.set(bit, value)
}

/// `Clone::clone` of `BitMap`. Trusted: the copy equals the bitmap copied.
pub assume_specification<const N: usize>[ <BitMap<N> as Clone>::clone ](bitmap: &BitMap<N>) -> (copy:
    BitMap<N>)
    ensures
        copy == *bitmap,
;

/// The indices of the set bits, in ascending order.
pub open spec fn set_indices(bits: Seq<bool>) -> Seq<int>
    decreases bits.len(),
{
    if bits.len() == 0 {
        Seq::empty()
    } else if bits.last() {
        set_indices(bits.drop_last()).push(bits.len() - 1)
    } else {
        set_indices(bits.drop_last())
    }
}

/// Every listed index is in range and names a set bit, and the list ascends.
pub proof fn lemma_set_indices(bits: Seq<bool>)
    ensures
        set_indices(bits).len() <= bits.len(),
        forall|k: int|
            0 <= k < set_indices(bits).len() ==> 0 <= #[trigger] set_indices(bits)[k] < bits.len()
                && bits[set_indices(bits)[k]],
        forall|j: int, k: int|
            0 <= j < k < set_indices(bits).len() ==> set_indices(bits)[j] < set_indices(bits)[k],
        forall|i: int| 0 <= i < bits.len() && bits[i] ==> set_indices(bits).contains(i),
    decreases bits.len(),
{
    if bits.len() > 0 {
        let front = bits.drop_last();
        lemma_set_indices(front);
        let all = set_indices(bits);
        assert forall|i: int| 0 <= i < bits.len() && bits[i] implies all.contains(i) by {
            if i < bits.len() - 1 {
                assert(front[i]);
                let k = choose|k: int| 0 <= k < set_indices(front).len() && set_indices(front)[k] == i;
                assert(all[k] == i);
            } else {
                assert(all[all.len() - 1] == i);
            }
        }
    }
}

/// One more bit adds its index to the set indices if it is set, and nothing
/// otherwise.
pub proof fn lemma_set_indices_step(bits: Seq<bool>, n: int)
    requires
        0 <= n < bits.len(),
    ensures
        set_indices(bits.take(n + 1)) == if bits[n] {
            set_indices(bits.take(n)).push(n)
        } else {
            set_indices(bits.take(n))
        },
{
    assert(bits.take(n + 1).drop_last() == bits.take(n));
    assert(bits.take(n + 1).last() == bits[n]);
}

/// The set indices of a prefix are a prefix of the set indices.
pub proof fn lemma_set_indices_prefix(bits: Seq<bool>, n: int)
    requires
        0 <= n <= bits.len(),
    ensures
        set_indices(bits.take(n)).len() <= set_indices(bits).len(),
        set_indices(bits.take(n)) == set_indices(bits).take(set_indices(bits.take(n)).len() as int),
    decreases bits.len() - n,
{
    if n == bits.len() {
        assert(bits.take(n) == bits);
    } else {
        lemma_set_indices_prefix(bits, n + 1);
        assert(bits.take(n + 1).drop_last() == bits.take(n));
    }
}

/// To set a bit that was not set adds one to the number of set bits.
pub proof fn lemma_set_one_more(bits: Seq<bool>, i: int)
    requires
        0 <= i < bits.len(),
        !bits[i],
    ensures
        set_indices(bits.update(i, true)).len() == set_indices(bits).len() + 1,
    decreases bits.len(),
{
    let after = bits.update(i, true);
    if i == bits.len() - 1 {
        assert(after.drop_last() == bits.drop_last());
    } else {
        assert(after.drop_last() == bits.drop_last().update(i, true));
        lemma_set_one_more(bits.drop_last(), i);
    }
}

} // verus!
