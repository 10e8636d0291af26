//! Small verified byte-sequence helpers shared by the codecs.

use vstd::prelude::*;

verus! {

/// The exclusive-or of every byte, as the LRC and the ATR check character use it.
pub open spec fn xor_all(bytes: Seq<u8>) -> u8
    decreases bytes.len(),
{
    if bytes.len() == 0 {
        0
    } else {
        xor_all(bytes.drop_last()) ^ bytes.last()
    }
}

/// Copy `source[start..end]` into a new vector.
pub fn copy_range(source: &[u8], start: usize, end: usize) -> (copy: Vec<u8>)
    requires
        start <= end <= source@.len(),
    ensures
        copy@ == source@.subrange(start as int, end as int),
{
    let mut copy: Vec<u8> = Vec::new();
    let mut index = start;
    while index < end
        invariant
            start <= index <= end <= source@.len(),
            copy@ == source@.subrange(start as int, index as int),
        decreases end - index,
    {
        copy.push(source[index]);
        index = index + 1;
        assert(copy@ =~= source@.subrange(start as int, index as int));
    }
    copy
}

/// Append every byte of `source` to `target`.
pub fn append_bytes(target: &mut Vec<u8>, source: &[u8])
    ensures
        final(target)@ == old(target)@ + source@,
{
    let mut index: usize = 0;
    while index < source.len()
        invariant
            index <= source@.len(),
            target@ == old(target)@ + source@.subrange(0, index as int),
        decreases source@.len() - index,
    {
        target.push(source[index]);
        index = index + 1;
        assert(target@ =~= old(target)@ + source@.subrange(0, index as int));
    }
    assert(source@.subrange(0, source@.len() as int) =~= source@);
}

/// Exclusive-or of every byte.
pub fn xor_fold(bytes: &[u8]) -> (value: u8)
    ensures
        value == xor_all(bytes@),
{
    let mut value: u8 = 0;
    let mut index: usize = 0;
    while index < bytes.len()
        invariant
            index <= bytes@.len(),
            value == xor_all(bytes@.subrange(0, index as int)),
        decreases bytes@.len() - index,
    {
        assert(bytes@.subrange(0, index as int + 1).drop_last() =~= bytes@.subrange(
            0,
            index as int,
        ));
        value = value ^ bytes[index];
        index = index + 1;
    }
    assert(bytes@.subrange(0, bytes@.len() as int) =~= bytes@);
    value
}

/// Whether two byte sequences are equal.
pub fn bytes_equal(left: &[u8], right: &[u8]) -> (equal: bool)
    ensures
        equal == (left@ == right@),
{
    if left.len() != right.len() {
        return false;
    }
    let mut index: usize = 0;
    while index < left.len()
        invariant
            index <= left@.len(),
            left@.len() == right@.len(),
            forall|i: int| 0 <= i < index ==> left@[i] == right@[i],
        decreases left@.len() - index,
    {
        if left[index] != right[index] {
            return false;
        }
        index = index + 1;
    }
    assert(left@ =~= right@);
    true
}

/// Whether `value` occurs in `bytes`.
pub fn contains_byte(bytes: &[u8], value: u8) -> (found: bool)
    ensures
        found == bytes@.contains(value),
{
    let mut index: usize = 0;
    while index < bytes.len()
        invariant
            index <= bytes@.len(),
            forall|i: int| 0 <= i < index ==> bytes@[i] != value,
        decreases bytes@.len() - index,
    {
        if bytes[index] == value {
            assert(bytes@[index as int] == value);
            return true;
        }
        index = index + 1;
    }
    false
}

/// Appending the exclusive-or of a sequence to it yields a sequence whose exclusive-or is zero.
pub proof fn lemma_xor_with_check(bytes: Seq<u8>)
    ensures
        xor_all(bytes.push(xor_all(bytes))) == 0,
{
    assert(bytes.push(xor_all(bytes)).drop_last() =~= bytes);
    let x = xor_all(bytes);
    assert(x ^ x == 0) by (bit_vector);
}

/// The exclusive-or of a concatenation.
pub proof fn lemma_xor_concat(left: Seq<u8>, right: Seq<u8>)
    ensures
        xor_all(left + right) == xor_all(left) ^ xor_all(right),
    decreases right.len(),
{
    if right.len() == 0 {
        assert(left + right =~= left);
        let x = xor_all(left);
        assert(x ^ 0 == x) by (bit_vector);
    } else {
        lemma_xor_concat(left, right.drop_last());
        assert((left + right).drop_last() =~= left + right.drop_last());
        let a = xor_all(left);
        let b = xor_all(right.drop_last());
        let c = right.last();
        assert((a ^ b) ^ c == a ^ (b ^ c)) by (bit_vector);
    }
}

} // verus!
