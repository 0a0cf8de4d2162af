use vstd::prelude::*;

verus! {

/// What a buffer or image asks of the memory it is bound to: the memory types it can
/// use, one bit per type.
pub struct MemoryRequirements {
    pub memory_type_bits: u32,
}

/// The memory types of a device: how many it reports, and the property flags of each.
pub struct MemoryProperties {
    pub memory_type_count: u32,
    pub property_flags: [u32; 32],
}

/// Whether memory type `index` is allowed by `type_bits` and has every flag of `flags`.
pub open spec fn memory_type_fits(type_bits: u32, type_flags: u32, flags: u32, index: int) -> bool {
    (1u32 << (index as u32)) & type_bits != 0 && type_flags & flags == flags
}

/// The first memory type among those the device reports that the requirements allow
/// and that has all the requested property flags.
pub fn find_memorytype_index(
    memory_req: &MemoryRequirements,
    memory_prop: &MemoryProperties,
    flags: u32,
) -> (r: Option<u32>)
    requires
        memory_prop.memory_type_count <= 32,
    ensures
        match r {
            Some(i) => {
                &&& i < memory_prop.memory_type_count
                &&& memory_prop.property_flags[i as int] & flags == flags
                &&& (1u32 << i) & memory_req.memory_type_bits != 0
                &&& forall|k: u32|
                    k < i && (1u32 << k) & memory_req.memory_type_bits != 0 ==> #[trigger] (
                    memory_prop.property_flags[k as int] & flags) != flags
                &&& memory_type_fits(
                    memory_req.memory_type_bits,
                    memory_prop.property_flags[i as int],
                    flags,
                    i as int,
                )
                &&& forall|k: int|
                    0 <= k < i ==> !memory_type_fits(
                        memory_req.memory_type_bits,
                        #[trigger] memory_prop.property_flags[k],
                        flags,
                        k,
                    )
            },
            None => (forall|k: u32|
                k < memory_prop.memory_type_count && (1u32 << k) & memory_req.memory_type_bits != 0
                    ==> #[trigger] (memory_prop.property_flags[k as int] & flags) != flags)
                && forall|k: int|
                0 <= k < memory_prop.memory_type_count ==> !memory_type_fits(
                    memory_req.memory_type_bits,
                    #[trigger] memory_prop.property_flags[k],
                    flags,
                    k,
                ),
        },
{
    let count = memory_prop.memory_type_count;
    let mut index: u32 = 0;
    while index < count
        invariant
            count == memory_prop.memory_type_count,
            count <= 32,
            index <= count,
            forall|k: int|
                0 <= k < index ==> !memory_type_fits(
                    memory_req.memory_type_bits,
                    #[trigger] memory_prop.property_flags[k],
                    flags,
                    k,
                ),
        decreases count - index,
    {
        let type_flags = memory_prop.property_flags[index as usize];
        if (1u32 << index) & memory_req.memory_type_bits != 0 && type_flags & flags == flags {
            return Some(index);
        }
        index = index + 1;
    }
    None
}

/// A memory type fits exactly when the requirements allow it (its bit is set in
/// `type_bits`) and it has every requested property flag: each bit set in `flags` is set
/// in `type_flags`. A type lacking one requested flag never fits, whatever other flags it
/// has.
pub proof fn lemma_fitting_type_has_every_flag(type_bits: u32, type_flags: u32, flags: u32, index: u32)
    requires
        index < 32,
    ensures
        memory_type_fits(type_bits, type_flags, flags, index as int) <==> ((type_bits >> index) & 1
            == 1 && forall|b: u32|
            #![trigger flags >> b]
            b < 32 && (flags >> b) & 1 == 1 ==> (type_flags >> b) & 1 == 1),
{
    assert(((1u32 << index) & type_bits != 0) == ((type_bits >> index) & 1 == 1)) by (bit_vector)
        requires
            index < 32,
    ;
    if type_flags & flags == flags {
        assert forall|b: u32| b < 32 && (flags >> b) & 1 == 1 implies (type_flags >> b) & 1 == 1 by {
            assert(type_flags & flags == flags && b < 32 && (flags >> b) & 1 == 1 ==> (type_flags
                >> b) & 1 == 1) by (bit_vector);
        }
    }
    if forall|b: u32|
        #![trigger flags >> b]
        b < 32 && (flags >> b) & 1 == 1 ==> (type_flags >> b) & 1 == 1 {
        assert((flags >> 0u32) & 1 == 1 ==> (type_flags >> 0u32) & 1 == 1);
        assert((flags >> 1u32) & 1 == 1 ==> (type_flags >> 1u32) & 1 == 1);
        assert((flags >> 2u32) & 1 == 1 ==> (type_flags >> 2u32) & 1 == 1);
        assert((flags >> 3u32) & 1 == 1 ==> (type_flags >> 3u32) & 1 == 1);
        assert((flags >> 4u32) & 1 == 1 ==> (type_flags >> 4u32) & 1 == 1);
        assert((flags >> 5u32) & 1 == 1 ==> (type_flags >> 5u32) & 1 == 1);
        assert((flags >> 6u32) & 1 == 1 ==> (type_flags >> 6u32) & 1 == 1);
        assert((flags >> 7u32) & 1 == 1 ==> (type_flags >> 7u32) & 1 == 1);
        assert((flags >> 8u32) & 1 == 1 ==> (type_flags >> 8u32) & 1 == 1);
        assert((flags >> 9u32) & 1 == 1 ==> (type_flags >> 9u32) & 1 == 1);
        assert((flags >> 10u32) & 1 == 1 ==> (type_flags >> 10u32) & 1 == 1);
        assert((flags >> 11u32) & 1 == 1 ==> (type_flags >> 11u32) & 1 == 1);
        assert((flags >> 12u32) & 1 == 1 ==> (type_flags >> 12u32) & 1 == 1);
        assert((flags >> 13u32) & 1 == 1 ==> (type_flags >> 13u32) & 1 == 1);
        assert((flags >> 14u32) & 1 == 1 ==> (type_flags >> 14u32) & 1 == 1);
        assert((flags >> 15u32) & 1 == 1 ==> (type_flags >> 15u32) & 1 == 1);
        assert((flags >> 16u32) & 1 == 1 ==> (type_flags >> 16u32) & 1 == 1);
        assert((flags >> 17u32) & 1 == 1 ==> (type_flags >> 17u32) & 1 == 1);
        assert((flags >> 18u32) & 1 == 1 ==> (type_flags >> 18u32) & 1 == 1);
        assert((flags >> 19u32) & 1 == 1 ==> (type_flags >> 19u32) & 1 == 1);
        assert((flags >> 20u32) & 1 == 1 ==> (type_flags >> 20u32) & 1 == 1);
        assert((flags >> 21u32) & 1 == 1 ==> (type_flags >> 21u32) & 1 == 1);
        assert((flags >> 22u32) & 1 == 1 ==> (type_flags >> 22u32) & 1 == 1);
        assert((flags >> 23u32) & 1 == 1 ==> (type_flags >> 23u32) & 1 == 1);
        assert((flags >> 24u32) & 1 == 1 ==> (type_flags >> 24u32) & 1 == 1);
        assert((flags >> 25u32) & 1 == 1 ==> (type_flags >> 25u32) & 1 == 1);
        assert((flags >> 26u32) & 1 == 1 ==> (type_flags >> 26u32) & 1 == 1);
        assert((flags >> 27u32) & 1 == 1 ==> (type_flags >> 27u32) & 1 == 1);
        assert((flags >> 28u32) & 1 == 1 ==> (type_flags >> 28u32) & 1 == 1);
        assert((flags >> 29u32) & 1 == 1 ==> (type_flags >> 29u32) & 1 == 1);
        assert((flags >> 30u32) & 1 == 1 ==> (type_flags >> 30u32) & 1 == 1);
        assert((flags >> 31u32) & 1 == 1 ==> (type_flags >> 31u32) & 1 == 1);
        assert(type_flags & flags == flags) by (bit_vector)
            requires
            (flags >> 0u32) & 1 == 1 ==> (type_flags >> 0u32) & 1 == 1,
            (flags >> 1u32) & 1 == 1 ==> (type_flags >> 1u32) & 1 == 1,
            (flags >> 2u32) & 1 == 1 ==> (type_flags >> 2u32) & 1 == 1,
            (flags >> 3u32) & 1 == 1 ==> (type_flags >> 3u32) & 1 == 1,
            (flags >> 4u32) & 1 == 1 ==> (type_flags >> 4u32) & 1 == 1,
            (flags >> 5u32) & 1 == 1 ==> (type_flags >> 5u32) & 1 == 1,
            (flags >> 6u32) & 1 == 1 ==> (type_flags >> 6u32) & 1 == 1,
            (flags >> 7u32) & 1 == 1 ==> (type_flags >> 7u32) & 1 == 1,
            (flags >> 8u32) & 1 == 1 ==> (type_flags >> 8u32) & 1 == 1,
            (flags >> 9u32) & 1 == 1 ==> (type_flags >> 9u32) & 1 == 1,
            (flags >> 10u32) & 1 == 1 ==> (type_flags >> 10u32) & 1 == 1,
            (flags >> 11u32) & 1 == 1 ==> (type_flags >> 11u32) & 1 == 1,
            (flags >> 12u32) & 1 == 1 ==> (type_flags >> 12u32) & 1 == 1,
            (flags >> 13u32) & 1 == 1 ==> (type_flags >> 13u32) & 1 == 1,
            (flags >> 14u32) & 1 == 1 ==> (type_flags >> 14u32) & 1 == 1,
            (flags >> 15u32) & 1 == 1 ==> (type_flags >> 15u32) & 1 == 1,
            (flags >> 16u32) & 1 == 1 ==> (type_flags >> 16u32) & 1 == 1,
            (flags >> 17u32) & 1 == 1 ==> (type_flags >> 17u32) & 1 == 1,
            (flags >> 18u32) & 1 == 1 ==> (type_flags >> 18u32) & 1 == 1,
            (flags >> 19u32) & 1 == 1 ==> (type_flags >> 19u32) & 1 == 1,
            (flags >> 20u32) & 1 == 1 ==> (type_flags >> 20u32) & 1 == 1,
            (flags >> 21u32) & 1 == 1 ==> (type_flags >> 21u32) & 1 == 1,
            (flags >> 22u32) & 1 == 1 ==> (type_flags >> 22u32) & 1 == 1,
            (flags >> 23u32) & 1 == 1 ==> (type_flags >> 23u32) & 1 == 1,
            (flags >> 24u32) & 1 == 1 ==> (type_flags >> 24u32) & 1 == 1,
            (flags >> 25u32) & 1 == 1 ==> (type_flags >> 25u32) & 1 == 1,
            (flags >> 26u32) & 1 == 1 ==> (type_flags >> 26u32) & 1 == 1,
            (flags >> 27u32) & 1 == 1 ==> (type_flags >> 27u32) & 1 == 1,
            (flags >> 28u32) & 1 == 1 ==> (type_flags >> 28u32) & 1 == 1,
            (flags >> 29u32) & 1 == 1 ==> (type_flags >> 29u32) & 1 == 1,
            (flags >> 30u32) & 1 == 1 ==> (type_flags >> 30u32) & 1 == 1,
            (flags >> 31u32) & 1 == 1 ==> (type_flags >> 31u32) & 1 == 1,
        ;
    }
}

/// The frame that follows `current_frame` when `max_frames_in_flight` frames are
/// recorded in turn.
pub fn next_frame_index(current_frame: usize, max_frames_in_flight: usize) -> (r: usize)
    requires
        max_frames_in_flight > 0,
        current_frame < usize::MAX,
    ensures
        r == (current_frame + 1) % (max_frames_in_flight as int),
        r < max_frames_in_flight,
{
    (current_frame + 1) % max_frames_in_flight
}

/// Byte `k` (from the least significant) of `x` as `to_le_bytes` writes it.
pub open spec fn le_byte(x: i32, k: int) -> u8 {
    ((x as u32) >> ((8 * k) as u32)) as u8
}

/// The push constants as the bytes handed to the device: each value's four
/// little-endian bytes, in order.
pub fn push_constant_bytes(push_constants: &[i32; 16]) -> (r: Vec<u8>)
    ensures
        r@.len() == 64,
        forall|i: int, k: int|
            0 <= i < 16 && 0 <= k < 4 ==> #[trigger] r@[4 * i + k] == le_byte(
                push_constants[i],
                k,
            ),
{
    let mut r: Vec<u8> = Vec::new();
    let mut i: usize = 0;
    while i < 16
        invariant
            i <= 16,
            r@.len() == 4 * i,
            forall|j: int, k: int|
                0 <= j < i && 0 <= k < 4 ==> #[trigger] r@[4 * j + k] == le_byte(
                    push_constants[j],
                    k,
                ),
        decreases 16 - i,
    {
        let x = push_constants[i] as u32;
        r.push(x as u8);
        r.push((x >> 8u32) as u8);
        r.push((x >> 16u32) as u8);
        r.push((x >> 24u32) as u8);
        proof {
            assert forall|j: int, k: int| 0 <= j < i + 1 && 0 <= k < 4 implies #[trigger] r@[4 * j
                + k] == le_byte(push_constants[j], k) by {
                if j == i {
                    assert(x >> 0u32 == x) by (bit_vector);
                    assert(r@[4 * j + k] == le_byte(push_constants[j], k));
                }
            }
        }
        i = i + 1;
    }
    r
}

/// The four bytes written for a value give the value back: read as a little-endian
/// `u32`, they are the value's bits.
pub proof fn lemma_le_bytes_give_value_back(x: i32)
    ensures
        (le_byte(x, 0) as u32) | ((le_byte(x, 1) as u32) << 8u32) | ((le_byte(x, 2) as u32) << 16u32)
            | ((le_byte(x, 3) as u32) << 24u32) == x as u32,
{
    let u = x as u32;
    assert(le_byte(x, 0) == (u >> 0u32) as u8);
    assert(le_byte(x, 1) == (u >> 8u32) as u8);
    assert(le_byte(x, 2) == (u >> 16u32) as u8);
    assert(le_byte(x, 3) == (u >> 24u32) as u8);
    assert(((u >> 0u32) as u8 as u32) | (((u >> 8u32) as u8 as u32) << 8u32) | (((u >> 16u32) as u8
        as u32) << 16u32) | (((u >> 24u32) as u8 as u32) << 24u32) == u) by (bit_vector);
}

} // verus!
