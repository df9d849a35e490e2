//! Byte strings: borrowed views (`ngx_str_t`, `NgxStr`) and an owned string
//! whose buffer is a block of an arena (`NgxString`).
use crate::allocator::{AllocError, Allocator, Block, Layout};
use crate::collections::ordering::bytes_equal;
use vstd::arithmetic::power2::is_pow2;
use vstd::prelude::*;
use vstd::string::StringSliceAdditionalSpecFns;
use vstd::utf8::{decode_utf8, valid_utf8};

verus! {

/// The text of a byte string with every invalid sequence replaced by U+FFFD.
pub uninterp spec fn utf8_lossy(b: Seq<u8>) -> Seq<char>;

/// Relies on `std::str::from_utf8`: the text over the same bytes where they
/// are UTF-8, an error where they are not.
#[verifier::external_body]
fn from_utf8(b: &[u8]) -> (r: Option<&str>)
    ensures
        r is Some <==> valid_utf8(b@),
        r matches Some(s) ==> s.spec_bytes() == b@,
{
    std::str::from_utf8(b).ok()
}

/// Relies on `String::from_utf8_lossy`: valid UTF-8 comes back as its text.
#[verifier::external_body]
fn from_utf8_lossy(b: &[u8]) -> (r: String)
    ensures
        r@ == utf8_lossy(b@),
        valid_utf8(b@) ==> r@ == decode_utf8(b@),
{
    String::from_utf8_lossy(b).into_owned()
}

/// The bytes are not UTF-8.
#[derive(Clone, Copy, Debug, PartialEq, Eq)]
pub struct Utf8Error;

/// Whether `a` begins with `p`.
pub fn bytes_start_with(a: &[u8], p: &[u8]) -> (r: bool)
    ensures
        r == (p@.len() <= a@.len() && a@.subrange(0, p@.len() as int) == p@),
{
    if p.len() > a.len() {
        return false;
    }
    let mut i: usize = 0;
    while i < p.len()
        invariant
            p@.len() <= a@.len(),
            i <= p@.len(),
            forall|j: int| 0 <= j < i ==> a@[j] == p@[j],
        decreases p@.len() - i,
    {
        if a[i] != p[i] {
            assert(a@.subrange(0, p@.len() as int)[i as int] != p@[i as int]);
            return false;
        }
        i = i + 1;
    }
    assert(a@.subrange(0, p@.len() as int) =~= p@);
    true
}

/// Whether `a` ends with `s`.
pub fn bytes_end_with(a: &[u8], s: &[u8]) -> (r: bool)
    ensures
        r == (s@.len() <= a@.len() && a@.subrange(a@.len() - s@.len(), a@.len() as int) == s@),
{
    if s.len() > a.len() {
        return false;
    }
    let alen = a.len();
    let off = alen - s.len();
    let mut i: usize = 0;
    while i < s.len()
        invariant
            s@.len() <= a@.len(),
            alen == a@.len(),
            off + s@.len() == alen,
            off == a@.len() - s@.len(),
            i <= s@.len(),
            forall|j: int| 0 <= j < i ==> a@[off + j] == s@[j],
        decreases s@.len() - i,
    {
        if a[off + i] != s[i] {
            assert(a@.subrange(off as int, a@.len() as int)[i as int] != s@[i as int]);
            return false;
        }
        i = i + 1;
    }
    assert(a@.subrange(off as int, a@.len() as int) =~= s@);
    true
}

/// A borrowed byte string: a length and the bytes it spans.
#[derive(Clone, Copy, Debug)]
pub struct ngx_str_t<'a> {
    data: &'a [u8],
}

impl<'a> View for ngx_str_t<'a> {
    type V = Seq<u8>;

    closed spec fn view(&self) -> Seq<u8> {
        self.data@
    }
}

impl<'a> ngx_str_t<'a> {
    /// The string that spans `data`.
    pub fn new(data: &'a [u8]) -> (r: Self)
        ensures
            r@ == data@,
    {
        ngx_str_t { data }
    }

    /// The empty string.
    pub fn empty() -> (r: Self)
        ensures
            r@.len() == 0,
    {
        let data: &[u8] = &[];
        ngx_str_t { data }
    }

    pub fn len(&self) -> (r: usize)
        ensures
            r == self@.len(),
    {
        self.data.len()
    }

    pub fn is_empty(&self) -> (r: bool)
        ensures
            r == (self@.len() == 0),
    {
        self.data.len() == 0
    }

    pub fn as_bytes(&self) -> (r: &'a [u8])
        ensures
            r@ == self@,
    {
        self.data
    }

    /// The text of the string, where it is UTF-8.
    pub fn to_str(&self) -> (r: Result<&'a str, Utf8Error>)
        ensures
            r is Ok <==> valid_utf8(self@),
            r matches Ok(s) ==> s.spec_bytes() == self@,
    {
        match from_utf8(self.data) {
            Some(s) => Ok(s),
            None => Err(Utf8Error),
        }
    }

    /// The first `mid` bytes and the rest, or `None` where `mid` is past the
    /// end.
    pub fn split_at(&self, mid: usize) -> (r: Option<(Self, Self)>)
        ensures
            mid > self@.len() ==> r is None,
            mid <= self@.len() ==> (r matches Some((a, b)) && a@ == self@.subrange(0, mid as int)
                && b@ == self@.subrange(mid as int, self@.len() as int)),
    {
        if mid > self.data.len() {
            return None;
        }
        let head = &self.data[0..mid];
        let tail = &self.data[mid..self.data.len()];
        Some((ngx_str_t { data: head }, ngx_str_t { data: tail }))
    }

    /// The rest of the string after `prefix`, or `None` where it does not
    /// begin with `prefix`.
    pub fn strip_prefix(&self, prefix: &[u8]) -> (r: Option<Self>)
        ensures
            r is Some <==> (prefix@.len() <= self@.len() && self@.subrange(0, prefix@.len() as int)
                == prefix@),
            r matches Some(s) ==> s@ == self@.subrange(prefix@.len() as int, self@.len() as int),
    {
        if bytes_start_with(self.data, prefix) {
            match self.split_at(prefix.len()) {
                Some((_, rest)) => Some(rest),
                None => None,
            }
        } else {
            None
        }
    }

    /// The string before `suffix`, or `None` where it does not end with
    /// `suffix`.
    pub fn strip_suffix(&self, suffix: &[u8]) -> (r: Option<Self>)
        ensures
            r is Some <==> (suffix@.len() <= self@.len() && self@.subrange(
                self@.len() - suffix@.len(),
                self@.len() as int,
            ) == suffix@),
            r matches Some(s) ==> s@ == self@.subrange(0, self@.len() - suffix@.len()),
    {
        if bytes_end_with(self.data, suffix) {
            match self.split_at(self.data.len() - suffix.len()) {
                Some((head, _)) => Some(head),
                None => None,
            }
        } else {
            None
        }
    }
}

impl<'a> PartialEq for ngx_str_t<'a> {
    fn eq(&self, other: &Self) -> (r: bool) {
        bytes_equal(self.data, other.data)
    }
}

impl<'a> vstd::std_specs::cmp::PartialEqSpecImpl for ngx_str_t<'a> {
    open spec fn obeys_eq_spec() -> bool {
        true
    }

    open spec fn eq_spec(&self, other: &Self) -> bool {
        self@ == other@
    }
}

/// A borrowed byte string that need not be UTF-8.
#[derive(Clone, Copy, Debug)]
pub struct NgxStr<'a> {
    bytes: &'a [u8],
}

impl<'a> View for NgxStr<'a> {
    type V = Seq<u8>;

    closed spec fn view(&self) -> Seq<u8> {
        self.bytes@
    }
}

impl<'a> NgxStr<'a> {
    pub fn from_bytes(bytes: &'a [u8]) -> (r: Self)
        ensures
            r@ == bytes@,
    {
        NgxStr { bytes }
    }

    /// The bytes that `s` spans.
    pub fn from_ngx_str(s: ngx_str_t<'a>) -> (r: Self)
        ensures
            r@ == s@,
    {
        NgxStr { bytes: s.as_bytes() }
    }

    pub fn as_bytes(&self) -> (r: &'a [u8])
        ensures
            r@ == self@,
    {
        self.bytes
    }

    /// The text, where the bytes are UTF-8.
    pub fn to_str(&self) -> (r: Result<&'a str, Utf8Error>)
        ensures
            r is Ok <==> valid_utf8(self@),
            r matches Ok(s) ==> s.spec_bytes() == self@,
    {
        match from_utf8(self.bytes) {
            Some(s) => Ok(s),
            None => Err(Utf8Error),
        }
    }

    /// The text, with every invalid sequence replaced by U+FFFD.
    pub fn to_string_lossy(&self) -> (r: String)
        ensures
            r@ == utf8_lossy(self@),
    {
        from_utf8_lossy(self.bytes)
    }

    pub fn is_empty(&self) -> (r: bool)
        ensures
            r == (self@.len() == 0),
    {
        self.bytes.len() == 0
    }

    pub fn len(&self) -> (r: usize)
        ensures
            r == self@.len(),
    {
        self.bytes.len()
    }
}

impl<'a> PartialEq for NgxStr<'a> {
    fn eq(&self, other: &Self) -> (r: bool) {
        bytes_equal(self.bytes, other.bytes)
    }
}

impl<'a> vstd::std_specs::cmp::PartialEqSpecImpl for NgxStr<'a> {
    open spec fn obeys_eq_spec() -> bool {
        true
    }

    open spec fn eq_spec(&self, other: &Self) -> bool {
        self@ == other@
    }
}

/// Why a string's buffer could not grow.
#[derive(Clone, Copy, Debug, PartialEq, Eq)]
pub enum TryReserveError {
    /// The capacity asked for exceeds the largest size of a block.
    CapacityOverflow,
    /// The arena could not give the block.
    AllocError,
}

/// The layout of a buffer of `n` bytes.
pub open spec fn buffer_layout(n: nat) -> Layout {
    Layout { size: n as usize, align: 1 }
}

/// Whether a buffer of `n` bytes can be described by a layout.
pub open spec fn buffer_fits(n: nat) -> bool {
    n <= isize::MAX
}

/// The capacity that an amortized reservation grows to: the larger of the
/// size needed, twice the old capacity, and eight bytes.
pub open spec fn grown_capacity(need: nat, cap: nat) -> nat {
    let doubled = 2 * cap;
    let t = if need < doubled {
        doubled
    } else {
        need
    };
    if t < 8 {
        8
    } else {
        t
    }
}

/// An owned byte string whose buffer is one block of the arena `A`.
#[derive(Debug)]
pub struct NgxString<A: Allocator> {
    bytes: Vec<u8>,
    cap: usize,
    block: Option<Block>,
    alloc: A,
}

impl<A: Allocator> View for NgxString<A> {
    type V = Seq<u8>;

    closed spec fn view(&self) -> Seq<u8> {
        self.bytes@
    }
}

impl<A: Allocator> NgxString<A> {
    pub closed spec fn spec_capacity(&self) -> nat {
        self.cap as nat
    }

    pub closed spec fn spec_allocator(&self) -> A {
        self.alloc
    }

    /// The bytes fit in the buffer, and a buffer of positive capacity is a
    /// block of the arena.
    pub closed spec fn wf(&self) -> bool {
        &&& self.alloc.wf()
        &&& self.bytes@.len() <= self.cap
        &&& self.cap <= isize::MAX
        &&& (self.cap > 0 <==> self.block is Some)
        &&& (self.block matches Some(b) ==> b.size == self.cap && self.alloc.outstanding() > 0)
    }

    /// An empty string with no buffer.
    pub fn new_in(alloc: A) -> (r: Self)
        requires
            alloc.wf(),
        ensures
            r.wf(),
            r@.len() == 0,
            r.spec_capacity() == 0,
            r.spec_allocator() == alloc,
    {
        NgxString { bytes: Vec::new(), cap: 0, block: None, alloc }
    }

    pub fn allocator(&self) -> (r: &A)
        ensures
            *r == self.spec_allocator(),
    {
        &self.alloc
    }

    pub fn capacity(&self) -> (r: usize)
        ensures
            r == self.spec_capacity(),
    {
        self.cap
    }

    pub fn is_empty(&self) -> (r: bool)
        ensures
            r == (self@.len() == 0),
    {
        self.bytes.len() == 0
    }

    /// The count of bytes, which never exceeds the capacity.
    pub fn len(&self) -> (r: usize)
        requires
            self.wf(),
        ensures
            r == self@.len(),
            r <= self.spec_capacity(),
    {
        self.bytes.len()
    }

    /// A well-formed string never holds more bytes than its capacity.
    pub proof fn lemma_len_within_capacity(&self)
        requires
            self.wf(),
        ensures
            self@.len() <= self.spec_capacity(),
    {
    }

    pub fn as_bytes(&self) -> (r: &[u8])
        ensures
            r@ == self@,
    {
        self.bytes.as_slice()
    }

    /// The string as a borrowed byte string.
    pub fn as_ngx_str(&self) -> (r: NgxStr<'_>)
        ensures
            r@ == self@,
    {
        NgxStr::from_bytes(self.bytes.as_slice())
    }

    /// Makes room for at least `additional` more bytes, taking a block of
    /// exactly the size needed where the buffer is too small.
    pub fn try_reserve_exact(&mut self, additional: usize) -> (r: Result<(), TryReserveError>)
        requires
            old(self).wf(),
        ensures
            final(self).wf(),
            final(self)@ == old(self)@,
            ({
                let need = (old(self)@.len() + additional) as nat;
                &&& need <= old(self).spec_capacity() ==> r is Ok && *final(self) == *old(self)
                &&& need > old(self).spec_capacity() ==> {
                    &&& r == Err::<(), TryReserveError>(TryReserveError::CapacityOverflow)
                        <==> !buffer_fits(need)
                    &&& r == Err::<(), TryReserveError>(TryReserveError::AllocError) <==> buffer_fits(
                        need,
                    ) && !old(self).spec_allocator().can_allocate(buffer_layout(need))
                    &&& r is Ok ==> final(self).spec_capacity() == need
                }
            }),
            r is Err ==> *final(self) == *old(self),
    {
        let need = match self.bytes.len().checked_add(additional) {
            Some(n) => n,
            None => {
                return Err(TryReserveError::CapacityOverflow);
            },
        };
        if need <= self.cap {
            return Ok(());
        }
        self.grow_to(need)
    }

    /// Makes room for at least `additional` more bytes; where the buffer is
    /// too small it grows to the larger of the size needed, twice the old
    /// capacity, and eight bytes.
    pub fn try_reserve(&mut self, additional: usize) -> (r: Result<(), TryReserveError>)
        requires
            old(self).wf(),
        ensures
            final(self).wf(),
            final(self)@ == old(self)@,
            ({
                let need = (old(self)@.len() + additional) as nat;
                let target = grown_capacity(need, old(self).spec_capacity());
                &&& need <= old(self).spec_capacity() ==> r is Ok && *final(self) == *old(self)
                &&& need > old(self).spec_capacity() ==> {
                    &&& r == Err::<(), TryReserveError>(TryReserveError::CapacityOverflow)
                        <==> !buffer_fits(target)
                    &&& r == Err::<(), TryReserveError>(TryReserveError::AllocError) <==> buffer_fits(
                        target,
                    ) && !old(self).spec_allocator().can_allocate(buffer_layout(target))
                    &&& r is Ok ==> final(self).spec_capacity() == target
                }
            }),
            r is Err ==> *final(self) == *old(self),
    {
        let need = match self.bytes.len().checked_add(additional) {
            Some(n) => n,
            None => {
                return Err(TryReserveError::CapacityOverflow);
            },
        };
        if need <= self.cap {
            return Ok(());
        }
        let mut target = need;
        if target < 2 * self.cap {
            target = 2 * self.cap;
        }
        if target < 8 {
            target = 8;
        }
        self.grow_to(target)
    }

    /// Appends `other`, first making room for exactly its bytes; where no
    /// room can be made the string is unchanged and the error is returned.
    pub fn try_append(&mut self, other: &[u8]) -> (r: Result<(), TryReserveError>)
        requires
            old(self).wf(),
        ensures
            final(self).wf(),
            ({
                let need = (old(self)@.len() + other@.len()) as nat;
                &&& need <= old(self).spec_capacity() ==> r is Ok && final(self).spec_capacity()
                    == old(self).spec_capacity()
                &&& r is Ok && need > old(self).spec_capacity() ==> final(self).spec_capacity()
                    == need
                &&& need > old(self).spec_capacity() ==> {
                    &&& r == Err::<(), TryReserveError>(TryReserveError::CapacityOverflow)
                        <==> !buffer_fits(need)
                    &&& r == Err::<(), TryReserveError>(TryReserveError::AllocError) <==> buffer_fits(
                        need,
                    ) && !old(self).spec_allocator().can_allocate(buffer_layout(need))
                }
            }),
            r is Ok ==> final(self)@ == old(self)@ + other@,
            r is Err ==> *final(self) == *old(self),
    {
        match self.try_reserve_exact(other.len()) {
            Ok(()) => {},
            Err(e) => {
                return Err(e);
            },
        }
        self.push_within_capacity(other, other.len());
        Ok(())
    }

    /// Appends the first `n` bytes of `other`, for which there is room.
    fn push_within_capacity(&mut self, other: &[u8], n: usize)
        requires
            old(self).wf(),
            n <= other@.len(),
            old(self)@.len() + n <= old(self).spec_capacity(),
        ensures
            final(self).wf(),
            final(self)@ == old(self)@ + other@.subrange(0, n as int),
            final(self).spec_capacity() == old(self).spec_capacity(),
            final(self).spec_allocator() == old(self).spec_allocator(),
    {
        let mut i: usize = 0;
        while i < n
            invariant
                self.wf(),
                i <= n <= other@.len(),
                self@.len() == old(self)@.len() + i,
                old(self)@.len() + n <= self.spec_capacity(),
                self@ == old(self)@ + other@.subrange(0, i as int),
                self.spec_capacity() == old(self).spec_capacity(),
                self.spec_allocator() == old(self).spec_allocator(),
            decreases n - i,
        {
            self.bytes.push(other[i]);
            proof {
                assert(self@ =~= old(self)@ + other@.subrange(0, i + 1));
            }
            i = i + 1;
        }
    }

    /// Appends as much of `other` as the buffer has room for. A full buffer
    /// takes nothing and reports every byte of `other` as left over; else
    /// the bytes that did not fit are reported.
    pub fn append_within_capacity(&mut self, other: &[u8]) -> (r: Result<(), usize>)
        requires
            old(self).wf(),
        ensures
            final(self).wf(),
            final(self).spec_capacity() == old(self).spec_capacity(),
            old(self)@.len() == old(self).spec_capacity() ==> r == Err::<(), usize>(
                other@.len() as usize,
            ) && *final(self) == *old(self),
            old(self)@.len() < old(self).spec_capacity() ==> ({
                let room = old(self).spec_capacity() - old(self)@.len();
                let n = if other@.len() <= room {
                    other@.len() as int
                } else {
                    room
                };
                &&& final(self)@ == old(self)@ + other@.subrange(0, n)
                &&& other@.len() <= room ==> r is Ok
                &&& other@.len() > room ==> r == Err::<(), usize>((other@.len() - room) as usize)
            }),
    {
        if self.bytes.len() == self.cap {
            return Err(other.len());
        }
        let room = self.cap - self.bytes.len();
        let n = if other.len() <= room {
            other.len()
        } else {
            room
        };
        self.push_within_capacity(other, n);
        if other.len() - n == 0 {
            Ok(())
        } else {
            Err(other.len() - n)
        }
    }

    /// A string holding a copy of `bytes` in a block of exactly their size.
    pub fn try_from_bytes_in(bytes: &[u8], alloc: A) -> (r: Result<Self, TryReserveError>)
        requires
            alloc.wf(),
        ensures
            bytes@.len() == 0 ==> r is Ok,
            bytes@.len() > 0 ==> {
                &&& r == Err::<Self, TryReserveError>(TryReserveError::CapacityOverflow)
                    <==> !buffer_fits(bytes@.len())
                &&& r == Err::<Self, TryReserveError>(TryReserveError::AllocError) <==> buffer_fits(
                    bytes@.len(),
                ) && !alloc.can_allocate(buffer_layout(bytes@.len()))
            },
            r matches Ok(s) ==> s.wf() && s@ == bytes@ && s.spec_capacity() == bytes@.len(),
    {
        let mut this = Self::new_in(alloc);
        match this.try_append(bytes) {
            Ok(()) => {
                assert(this@ =~= bytes@);
                Ok(this)
            },
            Err(e) => Err(e),
        }
    }

    /// The bytes, their count, the capacity and the arena.
    pub fn into_raw_parts(self) -> (r: (Vec<u8>, usize, usize, A))
        ensures
            r.0@ == self@,
            r.1 == self@.len(),
            r.2 == self.spec_capacity(),
            r.3 == self.spec_allocator(),
    {
        let len = self.bytes.len();
        (self.bytes, len, self.cap, self.alloc)
    }

    /// Moves the buffer to a block of `target` bytes, giving the old block
    /// back to the arena.
    fn grow_to(&mut self, target: usize) -> (r: Result<(), TryReserveError>)
        requires
            old(self).wf(),
            target > old(self).spec_capacity(),
        ensures
            final(self).wf(),
            final(self)@ == old(self)@,
            r matches Err(e) ==> *final(self) == *old(self),
            r == Err::<(), TryReserveError>(TryReserveError::CapacityOverflow) <==> !buffer_fits(
                target as nat,
            ),
            r == Err::<(), TryReserveError>(TryReserveError::AllocError) <==> buffer_fits(
                target as nat,
            ) && !old(self).spec_allocator().can_allocate(buffer_layout(target as nat)),
            r is Ok ==> final(self).spec_capacity() == target,
            r is Ok && old(self).spec_capacity() == 0 ==> final(self).spec_allocator().outstanding()
                == old(self).spec_allocator().outstanding() + 1,
            r is Ok && old(self).spec_capacity() > 0 ==> final(self).spec_allocator().outstanding()
                == old(self).spec_allocator().outstanding(),
    {
        proof {
            reveal(is_pow2);
        }
        let layout = match Layout::from_size_align(target, 1) {
            Ok(l) => l,
            Err(_) => {
                return Err(TryReserveError::CapacityOverflow);
            },
        };
        assert(layout == buffer_layout(target as nat));
        match self.alloc.allocate(layout) {
            Ok(nb) => {
                match self.block {
                    Some(ob) => {
                        self.alloc.deallocate(ob, Layout { size: self.cap, align: 1 });
                    },
                    None => {},
                }
                self.block = Some(nb);
                self.cap = target;
                Ok(())
            },
            Err(_) => Err(TryReserveError::AllocError),
        }
    }
}

impl<A: Allocator> PartialEq for NgxString<A> {
    fn eq(&self, other: &Self) -> (r: bool) {
        bytes_equal(self.bytes.as_slice(), other.bytes.as_slice())
    }
}

impl<A: Allocator> vstd::std_specs::cmp::PartialEqSpecImpl for NgxString<A> {
    open spec fn obeys_eq_spec() -> bool {
        true
    }

    open spec fn eq_spec(&self, other: &Self) -> bool {
        self@ == other@
    }
}

impl<'a, 'b> PartialEq<&'b [u8]> for NgxStr<'a> {
    fn eq(&self, other: &&'b [u8]) -> (r: bool) {
        bytes_equal(self.bytes, *other)
    }
}

impl<'a, 'b> vstd::std_specs::cmp::PartialEqSpecImpl<&'b [u8]> for NgxStr<'a> {
    open spec fn obeys_eq_spec() -> bool {
        true
    }

    open spec fn eq_spec(&self, other: &&'b [u8]) -> bool {
        self@ == (*other)@
    }
}

impl<'a, 'b> PartialEq<&'b str> for NgxStr<'a> {
    fn eq(&self, other: &&'b str) -> (r: bool) {
        bytes_equal(self.bytes, other.as_bytes())
    }
}

impl<'a, 'b> vstd::std_specs::cmp::PartialEqSpecImpl<&'b str> for NgxStr<'a> {
    open spec fn obeys_eq_spec() -> bool {
        true
    }

    open spec fn eq_spec(&self, other: &&'b str) -> bool {
        self@ == (*other).spec_bytes()
    }
}

impl<'a, 'b> PartialEq<ngx_str_t<'b>> for NgxStr<'a> {
    fn eq(&self, other: &ngx_str_t<'b>) -> (r: bool) {
        bytes_equal(self.bytes, other.as_bytes())
    }
}

impl<'a, 'b> vstd::std_specs::cmp::PartialEqSpecImpl<ngx_str_t<'b>> for NgxStr<'a> {
    open spec fn obeys_eq_spec() -> bool {
        true
    }

    open spec fn eq_spec(&self, other: &ngx_str_t<'b>) -> bool {
        self@ == other@
    }
}

impl<'a, 'b> PartialEq<NgxStr<'b>> for ngx_str_t<'a> {
    fn eq(&self, other: &NgxStr<'b>) -> (r: bool) {
        bytes_equal(self.data, other.as_bytes())
    }
}

impl<'a, 'b> vstd::std_specs::cmp::PartialEqSpecImpl<NgxStr<'b>> for ngx_str_t<'a> {
    open spec fn obeys_eq_spec() -> bool {
        true
    }

    open spec fn eq_spec(&self, other: &NgxStr<'b>) -> bool {
        self@ == other@
    }
}

impl<'a, 'b> PartialEq<NgxStr<'a>> for &'b [u8] {
    fn eq(&self, other: &NgxStr<'a>) -> (r: bool) {
        bytes_equal(*self, other.as_bytes())
    }
}

impl<'a, 'b> vstd::std_specs::cmp::PartialEqSpecImpl<NgxStr<'a>> for &'b [u8] {
    open spec fn obeys_eq_spec() -> bool {
        true
    }

    open spec fn eq_spec(&self, other: &NgxStr<'a>) -> bool {
        (*self)@ == other@
    }
}

impl<'a, 'b> PartialEq<NgxStr<'a>> for &'b str {
    fn eq(&self, other: &NgxStr<'a>) -> (r: bool) {
        bytes_equal(self.as_bytes(), other.as_bytes())
    }
}

impl<'a, 'b> vstd::std_specs::cmp::PartialEqSpecImpl<NgxStr<'a>> for &'b str {
    open spec fn obeys_eq_spec() -> bool {
        true
    }

    open spec fn eq_spec(&self, other: &NgxStr<'a>) -> bool {
        (*self).spec_bytes() == other@
    }
}

impl<'b, A: Allocator> PartialEq<&'b [u8]> for NgxString<A> {
    fn eq(&self, other: &&'b [u8]) -> (r: bool) {
        bytes_equal(self.bytes.as_slice(), *other)
    }
}

impl<'b, A: Allocator> vstd::std_specs::cmp::PartialEqSpecImpl<&'b [u8]> for NgxString<A> {
    open spec fn obeys_eq_spec() -> bool {
        true
    }

    open spec fn eq_spec(&self, other: &&'b [u8]) -> bool {
        self@ == (*other)@
    }
}

impl<'b, A: Allocator> PartialEq<&'b str> for NgxString<A> {
    fn eq(&self, other: &&'b str) -> (r: bool) {
        bytes_equal(self.bytes.as_slice(), other.as_bytes())
    }
}

impl<'b, A: Allocator> vstd::std_specs::cmp::PartialEqSpecImpl<&'b str> for NgxString<A> {
    open spec fn obeys_eq_spec() -> bool {
        true
    }

    open spec fn eq_spec(&self, other: &&'b str) -> bool {
        self@ == (*other).spec_bytes()
    }
}

impl<'b, A: Allocator> PartialEq<NgxStr<'b>> for NgxString<A> {
    fn eq(&self, other: &NgxStr<'b>) -> (r: bool) {
        bytes_equal(self.bytes.as_slice(), other.as_bytes())
    }
}

impl<'b, A: Allocator> vstd::std_specs::cmp::PartialEqSpecImpl<NgxStr<'b>> for NgxString<A> {
    open spec fn obeys_eq_spec() -> bool {
        true
    }

    open spec fn eq_spec(&self, other: &NgxStr<'b>) -> bool {
        self@ == other@
    }
}

impl<'b, A: Allocator> PartialEq<ngx_str_t<'b>> for NgxString<A> {
    fn eq(&self, other: &ngx_str_t<'b>) -> (r: bool) {
        bytes_equal(self.bytes.as_slice(), other.as_bytes())
    }
}

impl<'b, A: Allocator> vstd::std_specs::cmp::PartialEqSpecImpl<ngx_str_t<'b>> for NgxString<A> {
    open spec fn obeys_eq_spec() -> bool {
        true
    }

    open spec fn eq_spec(&self, other: &ngx_str_t<'b>) -> bool {
        self@ == other@
    }
}

impl<'b, A: Allocator> PartialEq<NgxString<A>> for NgxStr<'b> {
    fn eq(&self, other: &NgxString<A>) -> (r: bool) {
        bytes_equal(self.bytes, other.as_bytes())
    }
}

impl<'b, A: Allocator> vstd::std_specs::cmp::PartialEqSpecImpl<NgxString<A>> for NgxStr<'b> {
    open spec fn obeys_eq_spec() -> bool {
        true
    }

    open spec fn eq_spec(&self, other: &NgxString<A>) -> bool {
        self@ == other@
    }
}

impl<'b, A: Allocator> PartialEq<NgxString<A>> for ngx_str_t<'b> {
    fn eq(&self, other: &NgxString<A>) -> (r: bool) {
        bytes_equal(self.data, other.as_bytes())
    }
}

impl<'b, A: Allocator> vstd::std_specs::cmp::PartialEqSpecImpl<NgxString<A>> for ngx_str_t<'b> {
    open spec fn obeys_eq_spec() -> bool {
        true
    }

    open spec fn eq_spec(&self, other: &NgxString<A>) -> bool {
        self@ == other@
    }
}

impl<'b, A: Allocator> PartialEq<NgxString<A>> for &'b [u8] {
    fn eq(&self, other: &NgxString<A>) -> (r: bool) {
        bytes_equal(*self, other.as_bytes())
    }
}

impl<'b, A: Allocator> vstd::std_specs::cmp::PartialEqSpecImpl<NgxString<A>> for &'b [u8] {
    open spec fn obeys_eq_spec() -> bool {
        true
    }

    open spec fn eq_spec(&self, other: &NgxString<A>) -> bool {
        (*self)@ == other@
    }
}

} // verus!
