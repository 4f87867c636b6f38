//! Guest memory: a flat byte arena standing in for the emulated process's
//! address space.
//!
//! A guest address is a `u32` offset into the arena, never a host pointer;
//! address `0` is the null sentinel and is never handed out nor accepted by
//! any access. The arena's size is fixed at construction and every access
//! is bounds-checked; an access that does not lie fully inside the arena
//! fails with `Error::OutOfBounds` instead of touching adjacent memory.

use crate::error::Error;
use vstd::prelude::*;

verus! {

/// The flat guest arena together with a bump allocator mark.
pub struct Mem {
    bytes: Vec<u8>,
    next_alloc: usize,
}

/// The arena contents after writing `data` at `addr`: the written range is
/// replaced, every other byte is kept.
pub open spec fn spec_write(bytes: Seq<u8>, addr: int, data: Seq<u8>) -> Seq<u8> {
    Seq::new(
        bytes.len(),
        |i: int|
            if addr <= i < addr + data.len() {
                data[i - addr]
            } else {
                bytes[i]
            },
    )
}

/// The `len` bytes of the arena starting at `addr`.
pub open spec fn spec_read(bytes: Seq<u8>, addr: int, len: int) -> Seq<u8> {
    bytes.subrange(addr, addr + len)
}

/// A non-null access of `len` bytes at `addr` lies fully inside an arena of
/// `size` bytes.
pub open spec fn in_bounds(addr: u32, len: int, size: int) -> bool {
    &&& addr != 0
    &&& addr + len <= size
}

/// `x` rounded up to the next multiple of `a`.
pub open spec fn align_up(x: int, a: int) -> int {
    x + (a - x % a) % a
}

/// The little-endian `u32` formed by the four bytes of the arena at `addr`.
pub open spec fn word_at(bytes: Seq<u8>, addr: int) -> int {
    bytes[addr] + bytes[addr + 1] * 0x100 + bytes[addr + 2] * 0x1_0000 + bytes[addr + 3]
        * 0x100_0000
}

/// The four little-endian bytes of `w`.
pub open spec fn word_bytes(w: u32) -> Seq<u8> {
    seq![
        (w % 0x100) as u8,
        ((w / 0x100) % 0x100) as u8,
        ((w / 0x1_0000) % 0x100) as u8,
        ((w / 0x100_0000) % 0x100) as u8,
    ]
}

impl Mem {
    /// The arena contents.
    pub closed spec fn view(&self) -> Seq<u8> {
        self.bytes@
    }

    /// The bump allocator's mark: every address below it is either null,
    /// reserved, or part of an earlier allocation; every address at or
    /// above it is still free.
    pub closed spec fn mark(&self) -> int {
        self.next_alloc as int
    }

    /// Internal consistency of the arena.
    pub open spec fn wf(&self) -> bool {
        &&& 1 <= self.mark()
        &&& self.view().len() <= 0xFFFF_FFFF
    }

    /// A fresh arena of `size` zero bytes. The first few addresses are
    /// reserved so that no allocation ever gets the null address.
    pub fn new(size: usize) -> (m: Mem)
        requires
            size <= 0xFFFF_FFFF,
        ensures
            m.wf(),
            m@.len() == size,
            m@ =~= Seq::new(size as nat, |i: int| 0u8),
            m.mark() == 8,
    {
        Mem { bytes: vec![0u8; size], next_alloc: 8 }
    }

    /// The arena's fixed size.
    pub fn size(&self) -> (s: usize)
        ensures
            s == self@.len(),
    {
        self.bytes.len()
    }

    /// Bounds-checked bulk read: the `len` bytes at `addr`, or
    /// `OutOfBounds` if the range is not fully inside the arena.
    pub fn read_bytes(&self, addr: u32, len: usize) -> (r: Result<Vec<u8>, Error>)
        ensures
            match r {
                Ok(v) => in_bounds(addr, len as int, self@.len() as int) && v@ == spec_read(
                    self@,
                    addr as int,
                    len as int,
                ),
                Err(e) => !in_bounds(addr, len as int, self@.len() as int) && e == (
                Error::OutOfBounds { addr, len }),
            },
    {
        let size = self.bytes.len();
        if addr == 0 || (addr as usize) > size || len > size - (addr as usize) {
            return Err(Error::OutOfBounds { addr, len });
        }
        let base = addr as usize;
        let mut out: Vec<u8> = Vec::new();
        let mut i: usize = 0;
        while i < len
            invariant
                i <= len,
                base + len <= size,
                size == self.bytes@.len(),
                out@.len() == i,
                forall|j: int| 0 <= j < i ==> out@[j] == self.bytes@[base + j],
            decreases len - i,
        {
            out.push(self.bytes[base + i]);
            i += 1;
        }
        assert(out@ =~= spec_read(self@, addr as int, len as int));
        Ok(out)
    }

    /// Bounds-checked bulk write: replaces the `data.len()` bytes at
    /// `addr`, leaving every other byte of the arena unchanged.
    pub fn write_bytes(&mut self, addr: u32, data: &Vec<u8>) -> (r: Result<(), Error>)
        ensures
            final(self)@.len() == old(self)@.len(),
            final(self).mark() == old(self).mark(),
            match r {
                Ok(()) => in_bounds(addr, data@.len() as int, old(self)@.len() as int) && final(self)@ == spec_write(old(self)@, addr as int, data@),
                Err(e) => !in_bounds(addr, data@.len() as int, old(self)@.len() as int) && final(self)@ == old(self)@ && e == (Error::OutOfBounds { addr, len: data.len() }),
            },
    {
        let size = self.bytes.len();
        let len = data.len();
        if addr == 0 || (addr as usize) > size || len > size - (addr as usize) {
            return Err(Error::OutOfBounds { addr, len });
        }
        let base = addr as usize;
        let mut i: usize = 0;
        while i < len
            invariant
                i <= len,
                base + len <= size,
                size == self.bytes@.len(),
                len == data@.len(),
                self.bytes@.len() == old(self).bytes@.len(),
                self.next_alloc == old(self).next_alloc,
                forall|j: int|
                    0 <= j < self.bytes@.len() ==> self.bytes@[j] == (if base <= j < base + i {
                        data@[j - base]
                    } else {
                        old(self).bytes@[j]
                    }),
            decreases len - i,
        {
            self.bytes[base + i] = data[i];
            i += 1;
        }
        assert(self@ =~= spec_write(old(self)@, addr as int, data@));
        Ok(())
    }

    /// Reads the little-endian `u32` at `addr`, bounds-checked.
    pub fn read_u32(&self, addr: u32) -> (r: Result<u32, Error>)
        ensures
            match r {
                Ok(w) => in_bounds(addr, 4, self@.len() as int) && w == word_at(self@, addr as int),
                Err(e) => !in_bounds(addr, 4, self@.len() as int) && e == (Error::OutOfBounds {
                    addr,
                    len: 4,
                }),
            },
    {
        let size = self.bytes.len();
        if addr == 0 || (addr as usize) > size || 4 > size - (addr as usize) {
            return Err(Error::OutOfBounds { addr, len: 4 });
        }
        let base = addr as usize;
        let b0 = self.bytes[base] as u32;
        let b1 = self.bytes[base + 1] as u32;
        let b2 = self.bytes[base + 2] as u32;
        let b3 = self.bytes[base + 3] as u32;
        Ok(b0 + b1 * 0x100 + b2 * 0x1_0000 + b3 * 0x100_0000)
    }

    /// Writes `w` at `addr` as four little-endian bytes, bounds-checked.
    pub fn write_u32(&mut self, addr: u32, w: u32) -> (r: Result<(), Error>)
        ensures
            final(self)@.len() == old(self)@.len(),
            final(self).mark() == old(self).mark(),
            match r {
                Ok(()) => in_bounds(addr, 4, old(self)@.len() as int) && final(self)@ == spec_write(
                    old(self)@,
                    addr as int,
                    word_bytes(w),
                ),
                Err(e) => !in_bounds(addr, 4, old(self)@.len() as int) && final(self)@ == old(self)@ && e == (Error::OutOfBounds { addr, len: 4 }),
            },
    {
        let bytes: Vec<u8> = vec![
            (w % 0x100) as u8,
            ((w / 0x100) % 0x100) as u8,
            ((w / 0x1_0000) % 0x100) as u8,
            ((w / 0x100_0000) % 0x100) as u8,
        ];
        assert(bytes@ =~= word_bytes(w));
        match self.write_bytes(addr, &bytes) {
            Ok(()) => Ok(()),
            Err(_) => Err(Error::OutOfBounds { addr, len: 4 }),
        }
    }

    /// The bytes of the null-terminated string at `addr`, without the
    /// terminator. Fails if `addr` is null or no terminator lies inside
    /// the arena.
    pub fn cstr_at(&self, addr: u32) -> (r: Result<Vec<u8>, Error>)
        ensures
            match r {
                Ok(v) => {
                    &&& in_bounds(addr, v@.len() as int + 1, self@.len() as int)
                    &&& v@ == spec_read(self@, addr as int, v@.len() as int)
                    &&& self@[addr + v@.len()] == 0
                    &&& forall|j: int| 0 <= j < v@.len() ==> v@[j] != 0
                },
                Err(e) => e == (Error::OutOfBounds { addr, len: 0 }) && (addr == 0 || forall|k: int|
                    addr <= k < self@.len() ==> self@[k] != 0),
            },
    {
        if addr == 0 || (addr as usize) >= self.bytes.len() {
            return Err(Error::OutOfBounds { addr, len: 0 });
        }
        let base = addr as usize;
        let size = self.bytes.len();
        let mut out: Vec<u8> = Vec::new();
        let mut i: usize = 0;
        while base + i < size
            invariant
                base + i <= size,
                size == self.bytes@.len(),
                base == addr as usize,
                0 < base < size,
                out@.len() == i,
                forall|j: int| 0 <= j < i ==> out@[j] == #[trigger] self.bytes@[base + j],
                forall|j: int| 0 <= j < i ==> #[trigger] self.bytes@[base + j] != 0,
            decreases size - i,
        {
            let b = self.bytes[base + i];
            if b == 0 {
                assert forall|j: int| 0 <= j < i implies out@[j] == self@[addr as int + j] by {
                    assert(self.bytes@[base + j] != 0);
                    assert(out@[j] == self.bytes@[base + j]);
                }
                assert(out@ =~= spec_read(self@, addr as int, i as int));
                assert forall|j: int| 0 <= j < out@.len() implies out@[j] != 0 by {
                    assert(self.bytes@[base + j] != 0);
                    assert(out@[j] == self.bytes@[base + j]);
                }
                return Ok(out);
            }
            out.push(b);
            i += 1;
        }
        assert forall|k: int| addr <= k < self@.len() implies self@[k] != 0 by {
            assert(self.bytes@[base + (k - base)] != 0);
        }
        Err(Error::OutOfBounds { addr, len: 0 })
    }

    /// Carves `size` bytes aligned to `align` out of the arena. Never
    /// returns the null address, never returns the same region twice, and
    /// fails with `OutOfMemory` (rather than panicking) when the arena is
    /// exhausted. The arena's contents are not touched.
    pub fn allocate(&mut self, size: u32, align: u32) -> (r: Result<u32, Error>)
        requires
            old(self).wf(),
            1 <= align,
        ensures
            final(self).wf(),
            final(self)@ == old(self)@,
            match r {
                Ok(a) => {
                    &&& a == align_up(old(self).mark(), align as int)
                    &&& a % (align as u32) == 0
                    &&& a != 0
                    &&& old(self).mark() <= a
                    &&& a + size <= final(self)@.len()
                    &&& final(self).mark() == a + size
                },
                Err(e) => {
                    &&& e == Error::OutOfMemory
                    &&& align_up(old(self).mark(), align as int) + size > final(self)@.len()
                    &&& final(self).mark() == old(self).mark()
                },
            },
    {
        let align_us = align as usize;
        let rem: usize = self.next_alloc % align_us;
        let pad: usize = if rem == 0 {
            0
        } else {
            align_us - rem
        };
        assert(pad as int == (align_us as int - (self.next_alloc as int) % (align_us as int)) % (
        align_us as int)) by {
            let a = align_us as int;
            let q = rem as int;
            if rem == 0 {
                vstd::arithmetic::div_mod::lemma_mod_self_0(a);
                vstd::arithmetic::div_mod::lemma_small_mod(0, align_us as nat);
            } else {
                assert(0 < a - q < a);
                vstd::arithmetic::div_mod::lemma_small_mod((a - q) as nat, align_us as nat);
            }
        };
        let base = match self.next_alloc.checked_add(pad) {
            Some(b) => b,
            None => {
                return Err(Error::OutOfMemory);
            },
        };
        assert(base as int == align_up(self.next_alloc as int, align as int));
        assert((base as int) % (align_us as int) == 0) by {
            let x = self.next_alloc as int;
            let a = align_us as int;
            assert((x + (a - x % a) % a) % a == 0) by (nonlinear_arith)
                requires
                    a >= 1,
                    x >= 0,
            ;
        };
        let top = match base.checked_add(size as usize) {
            Some(t) => t,
            None => {
                return Err(Error::OutOfMemory);
            },
        };
        if top > self.bytes.len() {
            return Err(Error::OutOfMemory);
        }
        let addr = base as u32;
        assert(addr % align == 0);
        self.next_alloc = top;
        Ok(addr)
    }
}

/// Writing a range and reading it back yields exactly the written bytes:
/// for every arena, every in-bounds address and every payload, the read
/// after the write returns the payload.
pub proof fn lemma_write_then_read(bytes: Seq<u8>, addr: int, data: Seq<u8>)
    requires
        0 <= addr,
        addr + data.len() <= bytes.len(),
    ensures
        spec_read(spec_write(bytes, addr, data), addr, data.len() as int) == data,
{
    assert(spec_read(spec_write(bytes, addr, data), addr, data.len() as int) =~= data);
}

/// A write leaves every byte outside the written range unchanged: reading
/// any range disjoint from the write returns what was there before.
pub proof fn lemma_write_frames_rest(bytes: Seq<u8>, addr: int, data: Seq<u8>, a2: int, l2: int)
    requires
        0 <= addr,
        addr + data.len() <= bytes.len(),
        0 <= a2,
        0 <= l2,
        a2 + l2 <= bytes.len(),
        a2 + l2 <= addr || addr + data.len() <= a2,
    ensures
        spec_read(spec_write(bytes, addr, data), a2, l2) == spec_read(bytes, a2, l2),
{
    assert(spec_read(spec_write(bytes, addr, data), a2, l2) =~= spec_read(bytes, a2, l2));
}

/// The four little-endian bytes of a word reassemble to that word.
pub proof fn lemma_word_roundtrip(w: u32)
    ensures
        word_bytes(w)[0] + word_bytes(w)[1] * 0x100 + word_bytes(w)[2] * 0x1_0000 + word_bytes(
            w,
        )[3] * 0x100_0000 == w,
{
    assert((w % 0x100) + ((w / 0x100) % 0x100) * 0x100 + ((w / 0x1_0000) % 0x100) * 0x1_0000 + ((w
        / 0x100_0000) % 0x100) * 0x100_0000 == w) by (bit_vector);
}

} // verus!
