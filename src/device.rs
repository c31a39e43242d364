use vstd::prelude::*;

verus! {

/// Memory type `i` is among those that `bits` allows.
pub open spec fn type_allowed(bits: u32, i: int) -> bool {
    (bits >> (i as u32)) & 1 == 1
}

/// `have` holds every flag of `want`.
pub open spec fn has_flags(have: u32, want: u32) -> bool {
    have & want == want
}

/// Picks the first memory type that `bits` allows and whose property flags
/// hold all of `flags`. `memory_types` gives the property flags of each
/// memory type of the device, in order.
pub fn find_memory_type_index(bits: u32, memory_types: &Vec<u32>, flags: u32) -> (r: Option<u32>)
    requires
        memory_types@.len() <= 32,
    ensures
        match r {
            Some(i) => {
                &&& i < memory_types@.len()
                &&& type_allowed(bits, i as int) && has_flags(memory_types@[i as int], flags)
                &&& forall|j: int|
                    0 <= j < i ==> !(type_allowed(bits, j) && has_flags(memory_types@[j], flags))
            },
            None => forall|j: int|
                0 <= j < memory_types@.len() ==> !(type_allowed(bits, j) && has_flags(memory_types@[j], flags)),
        },
{
    let mut i: usize = 0;
    while i < memory_types.len()
        invariant
            0 <= i <= memory_types@.len() <= 32,
            forall|j: int|
                0 <= j < i ==> !(type_allowed(bits, j) && has_flags(memory_types@[j], flags)),
        decreases memory_types@.len() - i,
    {
        let shift = i as u32;
        if (bits >> shift) & 1 == 1 && memory_types[i] & flags == flags {
            return Some(i as u32);
        }
        i = i + 1;
    }
    None
}

/// Picks the first queue family whose capability flags hold `required`.
pub fn find_queue_family(families: &Vec<u32>, required: u32) -> (r: Option<u32>)
    requires
        families@.len() <= u32::MAX,
    ensures
        match r {
            Some(i) => {
                &&& i < families@.len()
                &&& has_flags(families@[i as int], required)
                &&& forall|j: int| 0 <= j < i ==> !has_flags(families@[j], required)
            },
            None => forall|j: int| 0 <= j < families@.len() ==> !has_flags(families@[j], required),
        },
{
    let mut i: usize = 0;
    while i < families.len()
        invariant
            0 <= i <= families@.len() <= u32::MAX,
            forall|j: int| 0 <= j < i ==> !has_flags(families@[j], required),
        decreases families@.len() - i,
    {
        if families[i] & required == required {
            return Some(i as u32);
        }
        i = i + 1;
    }
    None
}

/// A device can present when one of its queue families is a graphics
/// family that the surface supports. `graphics[i]` and `present[i]` say so
/// of family `i`.
pub fn supports_presentation(graphics: &Vec<bool>, present: &Vec<bool>) -> (r: bool)
    requires
        graphics@.len() == present@.len(),
    ensures
        r == exists|i: int| 0 <= i < graphics@.len() && graphics@[i] && present@[i],
{
    let mut i: usize = 0;
    while i < graphics.len()
        invariant
            graphics@.len() == present@.len(),
            0 <= i <= graphics@.len(),
            forall|j: int| 0 <= j < i ==> !(graphics@[j] && present@[j]),
        decreases graphics@.len() - i,
    {
        if graphics[i] && present[i] {
            return true;
        }
        i = i + 1;
    }
    false
}

fn bytes_equal(a: &Vec<u8>, b: &Vec<u8>) -> (r: bool)
    ensures
        r == (a@ == b@),
{
    if a.len() != b.len() {
        return false;
    }
    let mut i: usize = 0;
    while i < a.len()
        invariant
            a@.len() == b@.len(),
            0 <= i <= a@.len(),
            forall|j: int| 0 <= j < i ==> a@[j] == b@[j],
        decreases a@.len() - i,
    {
        if a[i] != b[i] {
            return false;
        }
        i = i + 1;
    }
    assert(a@ =~= b@);
    true
}

/// `name` is among the names of `supported`.
pub open spec fn is_supported(supported: Seq<Vec<u8>>, name: Seq<u8>) -> bool {
    exists|s: int| 0 <= s < supported.len() && supported[s]@ == name
}

/// The first extension of `required` (names as bytes) that `supported`
/// lacks, by its position in `required`.
pub fn first_missing_extension(required: &Vec<Vec<u8>>, supported: &Vec<Vec<u8>>) -> (r: Option<usize>)
    ensures
        match r {
            Some(k) => {
                &&& k < required@.len()
                &&& forall|s: int| 0 <= s < supported@.len() ==> supported@[s]@ != required@[k as int]@
                &&& forall|j: int|
                    0 <= j < k ==> is_supported(supported@, #[trigger] required@[j]@)
            },
            None => forall|j: int|
                0 <= j < required@.len() ==> is_supported(supported@, #[trigger] required@[j]@),
        },
{
    let mut k: usize = 0;
    while k < required.len()
        invariant
            0 <= k <= required@.len(),
            forall|j: int|
                0 <= j < k ==> is_supported(supported@, #[trigger] required@[j]@),
        decreases required@.len() - k,
    {
        let mut s: usize = 0;
        let mut found = false;
        while s < supported.len() && !found
            invariant
                0 <= s <= supported@.len(),
                0 <= k < required@.len(),
                found ==> exists|t: int| 0 <= t < supported@.len() && supported@[t]@ == required@[k as int]@,
                !found ==> forall|t: int| 0 <= t < s ==> supported@[t]@ != required@[k as int]@,
            decreases supported@.len() - s + if found { 0int } else { 1int },
        {
            if bytes_equal(&supported[s], &required[k]) {
                found = true;
            } else {
                s = s + 1;
            }
        }
        if !found {
            return Some(k);
        }
        k = k + 1;
    }
    None
}

/// Byte range of `count` elements of `elem_size` bytes, starting at element
/// `start`, in a buffer of `buffer_size` bytes: (offset, length), or `None`
/// when the range runs past the buffer.
pub fn mapped_range(start: u64, count: u64, elem_size: u64, buffer_size: u64) -> (r: Option<(u64, u64)>)
    ensures
        match r {
            Some((offset, length)) => (start + count) * elem_size <= buffer_size && offset == start
                * elem_size && length == count * elem_size,
            None => (start + count) * elem_size > buffer_size,
        },
{
    if elem_size == 0 {
        return Some((0, 0));
    }
    let end = start as u128 + count as u128;
    let room = (buffer_size / elem_size) as u128;
    proof {
        let q = buffer_size / elem_size;
        vstd::arithmetic::div_mod::lemma_fundamental_div_mod(buffer_size as int, elem_size as int);
        vstd::arithmetic::div_mod::lemma_mod_bound(buffer_size as int, elem_size as int);
        if end <= room {
            assert(end * elem_size <= q * elem_size) by (nonlinear_arith)
                requires
                    end <= q,
                    elem_size > 0,
            ;
            assert(start * elem_size <= end * elem_size) by (nonlinear_arith)
                requires
                    start <= end,
            ;
            assert(count * elem_size <= end * elem_size) by (nonlinear_arith)
                requires
                    count <= end,
            ;
            assert(q * elem_size == elem_size * q) by (nonlinear_arith);
        } else {
            assert(end * elem_size >= (q + 1) * elem_size) by (nonlinear_arith)
                requires
                    end >= q + 1,
                    elem_size > 0,
            ;
            assert((q + 1) * elem_size == elem_size * q + elem_size) by (nonlinear_arith);
        }
    }
    if end > room {
        None
    } else {
        Some((start * elem_size, count * elem_size))
    }
}

} // verus!
