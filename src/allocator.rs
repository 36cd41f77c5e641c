//! The allocator façade: reserve a block with room for the metadata in front of the payload,
//! and on release check the metadata, erase the whole block and give it back.
//!
//! The block reserved from the underlying allocator is an owned buffer of known length, and
//! the pointer handed to the caller is an offset into it.
use crate::metadata::{
    decode_meta, encode_meta, is_power_of_two, lemma_codec_round_trip, region_length, Metadata,
    META_LEN,
};
use vstd::arithmetic::power2::is_pow2;
use vstd::layout::valid_layout;
use vstd::prelude::*;

verus! {

/// Why a request cannot be served. Each of them ends a real process.
#[derive(Clone, Copy, Debug, PartialEq, Eq, Structural)]
pub enum Failure {
    /// The alignment is not a power of two, or the size and alignment make no valid layout.
    InvalidLayout,
    /// The enlarged request cannot be reserved.
    OutOfMemory,
    /// The metadata in front of a released pointer is missing or its checksum does not match.
    InvalidMetadata,
}

/// An allocation: the whole block reserved from the underlying allocator, and the offset in
/// it of the pointer handed to the caller. The null pointer is the empty block.
pub struct Region {
    pub memory: Vec<u8>,
    pub offset: usize,
}

impl View for Region {
    type V = (Seq<u8>, usize);

    open spec fn view(&self) -> (Seq<u8>, usize) {
        (self.memory@, self.offset)
    }
}

/// The null pointer: no memory, offset zero.
pub open spec fn null_view() -> (Seq<u8>, usize) {
    (Seq::empty(), 0)
}

/// `s` with the bytes at positions `from..to` set to zero.
pub open spec fn zeroed(s: Seq<u8>, from: int, to: int) -> Seq<u8> {
    Seq::new(s.len(), |i: int| if from <= i < to { 0u8 } else { s[i] })
}

/// The total length reserved for a payload of `size` bytes aligned to `align`.
pub open spec fn true_length(size: usize, align: usize) -> int {
    region_length(align) + size
}

/// What reserving `size` bytes aligned to `align` gives: the null pointer for a zero size;
/// a layout failure for an alignment that is not a power of two; running out of memory when
/// the enlarged request makes no valid layout; otherwise a block of the true length that
/// starts with the encoded metadata, is zero elsewhere, and is pointed into just past the
/// metadata region.
pub open spec fn reserve_spec(size: usize, align: usize) -> Result<(Seq<u8>, usize), Failure> {
    if size == 0 {
        Ok(null_view())
    } else if !is_pow2(align as int) {
        Err(Failure::InvalidLayout)
    } else if true_length(size, align) > usize::MAX || !valid_layout(
        true_length(size, align) as usize,
        align,
    ) {
        Err(Failure::OutOfMemory)
    } else {
        let t = true_length(size, align) as usize;
        Ok(
            (
                encode_meta(t) + Seq::new((t - META_LEN) as nat, |i: int| 0u8),
                region_length(align),
            ),
        )
    }
}

/// What releasing the pointer `v` that was reserved with `size` and `align` does, and what it
/// returns. The null pointer is left alone. Otherwise the metadata is read just before the
/// metadata region; when it is there and its checksum matches, the whole block it describes is
/// zeroed, and the true length is returned when it makes a valid layout with `align`.
pub open spec fn release_spec(v: (Seq<u8>, usize), size: usize, align: usize) -> (
    (Seq<u8>, usize),
    Result<usize, Failure>,
) {
    let (mem, off) = v;
    if mem.len() == 0 {
        (v, Ok(0))
    } else if !is_pow2(align as int) {
        (v, Err(Failure::InvalidLayout))
    } else if off < region_length(align) || off - region_length(align) + META_LEN > mem.len() {
        (v, Err(Failure::InvalidMetadata))
    } else {
        let base = off - region_length(align);
        match decode_meta(mem.subrange(base, base + META_LEN)) {
            None => (v, Err(Failure::InvalidMetadata)),
            Some(t) => if base + t > mem.len() {
                (v, Err(Failure::InvalidMetadata))
            } else {
                let erased = (zeroed(mem, base, base + t), off);
                if valid_layout(t, align) {
                    (erased, Ok(t))
                } else {
                    (erased, Err(Failure::InvalidLayout))
                }
            },
        }
    }
}

impl Region {
    /// The null pointer.
    pub fn null() -> (r: Region)
        ensures
            r@ == null_view(),
    {
        Region { memory: Vec::new(), offset: 0 }
    }

    /// Tells whether this is the null pointer.
    pub fn is_null(&self) -> (r: bool)
        ensures
            r == (self@.0.len() == 0),
    {
        self.memory.len() == 0
    }
}

/// Relies on `std::hint::black_box`: the bytes count as read after it, so the zeroing stores
/// before the call are kept by the optimiser (on a best-effort basis, as its documentation
/// says). Nothing is stated of it, as it returns nothing and changes nothing.
#[verifier::external_body]
fn observe(s: &[u8]) {
    std::hint::black_box(s);
}

/// Overwrites the bytes at positions `from..to` of `s` with zeros.
fn erase_range(s: &mut [u8], from: usize, to: usize)
    requires
        from <= to <= old(s)@.len(),
    ensures
        final(s)@ == zeroed(old(s)@, from as int, to as int),
{
    let mut i: usize = from;
    while i < to
        invariant
            from <= i <= to <= s@.len(),
            s@ == zeroed(old(s)@, from as int, i as int),
        decreases to - i,
    {
        s[i] = 0;
        i = i + 1;
    }
    observe(s);
    assert(s@ =~= zeroed(old(s)@, from as int, to as int));
}

/// Overwrites every byte of `s` with zero.
pub fn erase_slice(s: &mut [u8])
    ensures
        final(s)@ == Seq::new(old(s)@.len(), |i: int| 0u8),
{
    let n = s.len();
    erase_range(s, 0, n);
    assert(s@ =~= Seq::new(old(s)@.len(), |i: int| 0u8));
}

/// Tells whether `size` and `align` make a valid layout: `align` a power of two, and `size`
/// rounded up to a multiple of `align` no larger than `isize::MAX`.
fn layout_fits(size: usize, align: usize) -> (r: bool)
    ensures
        r == valid_layout(size, align),
{
    if !is_power_of_two(align) {
        return false;
    }
    proof {
        reveal(is_pow2);
    }
    let limit = isize::MAX as usize;
    assert(limit % align <= limit) by (nonlinear_arith)
        requires
            align > 0,
    ;
    size <= limit - limit % align
}

/// The allocator that erases what it hands out before giving it back.
pub struct MAProper;

impl MAProper {
    /// Reserves `size` bytes aligned to `align`, with the metadata block in front of them.
    pub fn reserve(&self, size: usize, align: usize) -> (r: Result<Region, Failure>)
        ensures
            match r {
                Ok(region) => reserve_spec(size, align) == Ok::<_, Failure>(region@),
                Err(e) => reserve_spec(size, align) == Err::<(Seq<u8>, usize), _>(e),
            },
            r matches Ok(region) ==> region.memory@.len() == (if size == 0 {
                0
            } else {
                true_length(size, align)
            }),
    {
        if size == 0 {
            return Ok(Region::null());
        }
        let meta_len = match Metadata::aligned_len(align) {
            Some(meta_len) => meta_len,
            None => return Err(Failure::InvalidLayout),
        };
        let to_allocate = match meta_len.checked_add(size) {
            Some(n) => n,
            None => return Err(Failure::OutOfMemory),
        };
        if !layout_fits(to_allocate, align) {
            return Err(Failure::OutOfMemory);
        }
        let mut memory: Vec<u8> = vec![0u8; to_allocate];
        proof {
            lemma_codec_round_trip(to_allocate);
        }
        Metadata::write(memory.as_mut_slice(), to_allocate);
        assert(memory@ =~= encode_meta(to_allocate) + Seq::new(
            (to_allocate - META_LEN) as nat,
            |i: int| 0u8,
        ));
        Ok(Region { memory, offset: meta_len })
    }

    /// Releases `ptr`, which was reserved with `size` and `align`: checks its metadata, erases
    /// the whole block, metadata included, and returns the number of bytes erased. The zeroed
    /// block stays in `ptr` until it is dropped, so that it can be inspected. `size` does not
    /// change the outcome: the true length comes from the metadata.
    pub fn release(&self, ptr: &mut Region, size: usize, align: usize) -> (r: Result<
        usize,
        Failure,
    >)
        ensures
            (final(ptr)@, r) == release_spec(old(ptr)@, size, align),
    {
        if ptr.is_null() {
            return Ok(0);
        }
        let meta_len = match Metadata::aligned_len(align) {
            Some(meta_len) => meta_len,
            None => return Err(Failure::InvalidLayout),
        };
        let len = ptr.memory.len();
        if ptr.offset < meta_len || ptr.offset - meta_len > len || len - (ptr.offset - meta_len)
            < META_LEN {
            return Err(Failure::InvalidMetadata);
        }
        let base = ptr.offset - meta_len;
        let allocated = match Metadata::read(&ptr.memory.as_slice()[base..base + META_LEN]) {
            Some(allocated) => allocated,
            None => return Err(Failure::InvalidMetadata),
        };
        if allocated > len - base {
            return Err(Failure::InvalidMetadata);
        }
        erase_range(ptr.memory.as_mut_slice(), base, base + allocated);
        if !layout_fits(allocated, align) {
            return Err(Failure::InvalidLayout);
        }
        Ok(allocated)
    }
}

/// Reserving a non-empty payload either runs out of memory or leaves, at the start of the
/// metadata region just before the returned pointer, a block that decodes to the true length.
pub proof fn lemma_reserve_writes_metadata(size: usize, align: usize)
    requires
        size > 0,
        is_pow2(align as int),
    ensures
        match reserve_spec(size, align) {
            Ok(v) => {
                &&& v.1 == region_length(align)
                &&& decode_meta(v.0.subrange(0, META_LEN as int)) == Some(
                    true_length(size, align) as usize,
                )
            },
            Err(e) => e == Failure::OutOfMemory,
        },
{
    if let Ok(v) = reserve_spec(size, align) {
        let t = true_length(size, align) as usize;
        lemma_codec_round_trip(t);
        assert(v.0.subrange(0, META_LEN as int) =~= encode_meta(t));
    }
}

/// Releasing what was just reserved, with the same size and alignment, succeeds: it erases
/// every byte of the block, metadata included, and reports the block's whole length. For a
/// zero size both steps do nothing. A non-zero size asks that the enlarged request make a
/// valid layout, as reserving it needs.
pub proof fn lemma_release_after_reserve(size: usize, align: usize)
    requires
        is_pow2(align as int),
        size == 0 || (true_length(size, align) <= usize::MAX && valid_layout(
            true_length(size, align) as usize,
            align,
        )),
    ensures
        reserve_spec(size, align) is Ok,
        ({
            let v = reserve_spec(size, align)->Ok_0;
            let (after, r) = release_spec(v, size, align);
            &&& after.0 == Seq::new(v.0.len(), |i: int| 0u8)
            &&& after.1 == v.1
            &&& r == Ok::<usize, Failure>(v.0.len() as usize)
        }),
{
    let v = reserve_spec(size, align)->Ok_0;
    if size == 0 {
        assert(v.0 =~= Seq::new(v.0.len(), |i: int| 0u8));
    } else {
        let t = true_length(size, align) as usize;
        lemma_codec_round_trip(t);
        assert(v.0.subrange(0, META_LEN as int) =~= encode_meta(t));
        assert(zeroed(v.0, 0, t as int) =~= Seq::new(v.0.len(), |i: int| 0u8));
    }
}

/// A successful release of a pointer other than null leaves every byte of the block it
/// describes, from the start of the metadata to the end of the payload, zero, and touches
/// nothing else.
pub proof fn lemma_release_erases(v: (Seq<u8>, usize), size: usize, align: usize)
    requires
        v.0.len() > 0,
        release_spec(v, size, align).1 is Ok,
    ensures
        ({
            let base = v.1 - region_length(align);
            let t = release_spec(v, size, align).1->Ok_0;
            let after = release_spec(v, size, align).0.0;
            &&& after.len() == v.0.len()
            &&& 0 <= base
            &&& base + t <= v.0.len()
            &&& forall|i: int| base <= i < base + t ==> after[i] == 0
            &&& forall|i: int|
                0 <= i < v.0.len() && !(base <= i < base + t) ==> after[i] == v.0[i]
        }),
{
}

/// A zero size reserves nothing and gives the null pointer, and releasing the null pointer
/// changes nothing, whatever the alignment.
pub proof fn lemma_zero_size_is_null(align: usize)
    ensures
        reserve_spec(0, align) == Ok::<_, Failure>(null_view()),
        release_spec(null_view(), 0, align) == (null_view(), Ok::<usize, Failure>(0)),
{
}

} // verus!
