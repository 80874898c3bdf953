//! Auxiliary data structures for instruction decoding: the operand-width
//! enum and a byte-oriented cursor over an immutable buffer.

use vstd::prelude::*;
use vstd::pervasive::cloned;
use vstd::pervasive::VecAdditionalExecFns;
use vstd::slice::slice_subrange;
use vstd::std_specs::cmp::PartialEqSpec;

verus! {

/// A fixed-capacity, in-place sequence with a tracked logical length.
///
/// All `S` slots are initialized at construction. The logical length is a
/// high-water mark: an indexed write at `i` raises it to at least `i + 1`,
/// and only `remove` lowers it. The observable contents are the prefix
/// `[0, length)`; equality deliberately compares the full backing storage,
/// trailing slots included.
///
/// The length is a plain integer, so writes take exclusive access and a
/// read through `get` does not extend the length. `remove` leaves the
/// removed element in the slot just past the new length.
#[derive(Debug)]
pub struct Array<T, const S: usize> {
    storage: Vec<T>,
    len: usize,
}

impl<T: Default, const S: usize> Array<T, S> {
    /// All slots default-initialized; length zero.
    pub fn new() -> (r: Self)
        ensures
            r.wf(),
            r.length() == 0,
            r.contents() == Seq::<T>::empty(),
            forall|i: int|
                0 <= i < S ==> call_ensures(T::default, (), #[trigger] r.full()[i]),
    {
        let mut storage: Vec<T> = Vec::new();
        let mut i: usize = 0;
        while i < S
            invariant
                i <= S,
                storage@.len() == i,
                forall|j: int|
                    0 <= j < i ==> call_ensures(T::default, (), #[trigger] storage@[j]),
            decreases S - i,
        {
            storage.push(T::default());
            i = i + 1;
        }
        let r = Array { storage, len: 0 };
        proof {
            assert(r.contents() =~= Seq::<T>::empty());
        }
        r
    }
}

impl<T, const S: usize> Array<T, S> {
    /// The full backing storage, trailing slots included.
    pub closed spec fn full(&self) -> Seq<T> {
        self.storage@
    }

    /// The logical length.
    pub closed spec fn length(&self) -> int {
        self.len as int
    }

    /// Exactly `S` slots, with the logical length inside them.
    pub open spec fn wf(&self) -> bool {
        self.full().len() == S && 0 <= self.length() <= S
    }

    /// The observable contents: the prefix `[0, length)`.
    pub open spec fn contents(&self) -> Seq<T> {
        self.full().subrange(0, self.length())
    }

    /// The current logical length.
    pub fn len(&self) -> (r: usize)
        ensures
            r == self.length(),
    {
        self.len
    }

    /// Writes `value` into slot `idx` and raises the logical length to at
    /// least `idx + 1`: afterwards `length() >= idx + 1` and the slot holds
    /// `value`.
    pub fn set(&mut self, idx: usize, value: T)
        requires
            old(self).wf(),
            idx < S,
        ensures
            final(self).wf(),
            final(self).full() == old(self).full().update(idx as int, value),
            final(self).length() == if idx + 1 > old(self).length() {
                idx + 1
            } else {
                old(self).length()
            },
            final(self).length() >= idx + 1,
            final(self).contents()[idx as int] == value,
    {
        self.storage.set(idx, value);
        if idx + 1 > self.len {
            self.len = idx + 1;
        }
    }

    /// A reference to slot `idx`, which may lie beyond the logical length.
    pub fn get(&self, idx: usize) -> (r: &T)
        requires
            self.wf(),
            idx < S,
        ensures
            *r == self.full()[idx as int],
    {
        vstd::slice::slice_index_get(self.storage.as_slice(), idx)
    }

    /// Removes slot `idx`, shifting `[idx + 1, length)` one slot left and
    /// decrementing the logical length; the removed element ends up in the
    /// slot just past the new length, and slots at or past the old length
    /// are untouched.
    pub fn remove(&mut self, idx: usize)
        requires
            old(self).wf(),
            idx < old(self).length(),
        ensures
            final(self).wf(),
            final(self).length() == old(self).length() - 1,
            final(self).contents() == old(self).contents().subrange(0, idx as int)
                + old(self).contents().subrange(idx + 1, old(self).length()),
            final(self).full()[old(self).length() - 1] == old(self).full()[idx as int],
            forall|j: int|
                old(self).length() <= j < S ==> final(self).full()[j] == old(self).full()[j],
    {
        let moved = self.storage.remove(idx);
        self.storage.insert(self.len - 1, moved);
        self.len = self.len - 1;
        proof {
            assert(self.contents() =~= old(self).contents().subrange(0, idx as int) + old(
                self,
            ).contents().subrange(idx + 1, old(self).length()));
        }
    }

    /// The observable contents, as a mutable slice: writes through it
    /// update the corresponding slots; the logical length and the slots at
    /// or past it are unchanged.
    pub fn as_mut_slice(&mut self) -> (r: &mut [T])
        requires
            old(self).wf(),
        ensures
            r@ == old(self).contents(),
            final(r)@.len() == old(self).length(),
            final(self).wf(),
            final(self).length() == old(self).length(),
            final(self).full() == final(r)@ + old(self).full().subrange(
                old(self).length(),
                S as int,
            ),
    {
        let len = self.len;
        slice_prefix_mut(self.storage.as_mut_slice(), len)
    }

    /// The observable contents, as a slice.
    pub fn as_slice(&self) -> (r: &[T])
        requires
            self.wf(),
        ensures
            r@ == self.contents(),
    {
        slice_subrange(self.storage.as_slice(), 0, self.len)
    }
}

/// Relies on the std mutable range index on slices: `&mut s[..mid]` is the
/// mutable prefix `[0, mid)`, and the suffix keeps its elements.
#[verifier::external_body]
fn slice_prefix_mut<'a, T>(s: &'a mut [T], mid: usize) -> (r: &'a mut [T])
    requires
        mid <= old(s)@.len(),
    ensures
        r@ == old(s)@.subrange(0, mid as int),
        final(r)@.len() == mid,
        final(s)@ == final(r)@ + old(s)@.subrange(mid as int, old(s)@.len() as int),
{
    &mut s[..mid]
}

impl<T: Clone, const S: usize> Clone for Array<T, S> {
    /// Deep element copy; the resulting logical length equals the source's
    /// at the moment of the snapshot.
    fn clone(&self) -> (r: Self)
        ensures
            r.length() == self.length(),
            r.full().len() == self.full().len(),
            forall|i: int|
                0 <= i < self.full().len() ==> cloned::<T>(
                    self.full()[i],
                    #[trigger] r.full()[i],
                ),
    {
        Array { storage: self.storage.clone(), len: self.len }
    }
}

impl<T: Default, const S: usize> Default for Array<T, S> {
    /// The same state as `new`: all slots default-initialized, length zero.
    fn default() -> (r: Self)
        ensures
            r.wf(),
            r.length() == 0,
            r.contents() == Seq::<T>::empty(),
    {
        Self::new()
    }
}

impl<T: PartialEqSpec, const S: usize> PartialEq for Array<T, S> {
    /// Compares the full backing storage, trailing slots included: two
    /// sequences with equal observable prefixes still differ if their
    /// trailing slots do.
    fn eq(&self, other: &Self) -> (r: bool) {
        if self.storage.len() != other.storage.len() {
            return false;
        }
        let n = self.storage.len();
        let mut i: usize = 0;
        while i < n
            invariant
                i <= n,
                n == self.full().len(),
                n == other.full().len(),
                T::obeys_eq_spec() ==> forall|j: int|
                    0 <= j < i ==> self.full()[j].eq_spec(&other.full()[j]),
            decreases n - i,
        {
            let a = vstd::slice::slice_index_get(self.storage.as_slice(), i);
            let b = vstd::slice::slice_index_get(other.storage.as_slice(), i);
            if !(a == b) {
                return false;
            }
            i = i + 1;
        }
        true
    }
}

impl<T: PartialEqSpec + Eq, const S: usize> Eq for Array<T, S> {

}

impl<T: PartialEqSpec, const S: usize> vstd::std_specs::cmp::PartialEqSpecImpl for Array<T, S> {
    open spec fn obeys_eq_spec() -> bool {
        T::obeys_eq_spec()
    }

    open spec fn eq_spec(&self, other: &Self) -> bool {
        self.full().len() == other.full().len() && forall|i: int|
            0 <= i < self.full().len() ==> self.full()[i].eq_spec(&other.full()[i])
    }
}

/// Operand widths understood by the instruction decoders that consume these
/// primitives.
#[derive(Debug, PartialEq, Eq, Structural, Clone, Copy)]
pub enum BitWidth {
    U128,
    U64,
    U32,
    U16,
}

/// A read-only view over a byte buffer with an advancing position.
///
/// Matching primitives that fail are non-destructive: they leave `pos`
/// unchanged. The single exception is `consume`, which always advances.
pub struct Reader<'a> {
    pub buf: &'a [u8],
    pub pos: usize,
}

/// Whether a `take` of `byte` at position `pos` of `buf` succeeds.
pub open spec fn take_succeeds(buf: Seq<u8>, pos: int, byte: u8) -> bool {
    pos < buf.len() && buf[pos] == byte
}

/// The full effect of `Reader::take`: how the post-state and the returned
/// flag relate to the pre-state.
pub open spec fn take_post(pre: Reader, post: Reader, byte: u8, ok: bool) -> bool {
    &&& post.buf@ == pre.buf@
    &&& ok == take_succeeds(pre.buf@, pre.pos as int, byte)
    &&& post.pos == if ok {
        pre.pos + 1
    } else {
        pre.pos as int
    }
}

impl<'a> Reader<'a> {
    pub fn new(buf: &'a [u8]) -> (r: Self)
        ensures
            r.buf@ == buf@,
            r.pos == 0,
    {
        Reader { buf, pos: 0 }
    }

    /// The bytes that have not been consumed yet.
    pub fn inner(&self) -> (r: &'a [u8])
        requires
            self.pos <= self.buf@.len(),
        ensures
            r@ == self.buf@.subrange(self.pos as int, self.buf@.len() as int),
    {
        slice_subrange(self.buf, self.pos, self.buf.len())
    }

    /// Moves the position by `num_bytes`, forwards or backwards, with no
    /// bounds check against the buffer: staying inside is the caller's
    /// responsibility.
    pub fn offset(&mut self, num_bytes: isize)
        requires
            old(self).pos <= isize::MAX,
            0 <= old(self).pos + num_bytes <= usize::MAX,
        ensures
            final(self).buf@ == old(self).buf@,
            final(self).pos == old(self).pos + num_bytes,
    {
        if num_bytes >= 0 {
            self.pos = self.pos + (num_bytes as usize);
        } else {
            self.pos = self.pos - ((-num_bytes) as usize);
        }
    }

    /// If the byte at the current position equals `byte`, advances past it
    /// and returns true; otherwise returns false and leaves the position
    /// unchanged.
    pub fn take(&mut self, byte: u8) -> (ok: bool)
        ensures
            take_post(*old(self), *final(self), byte, ok),
    {
        if self.pos < self.buf.len() {
            let b: u8 = *vstd::slice::slice_index_get(self.buf, self.pos);
            if b == byte {
                self.pos = self.pos + 1;
                return true;
            }
        }
        false
    }

    /// If the bytes at the current position start with `bytes`, advances
    /// past them and returns true; otherwise returns false and leaves the
    /// position unchanged.
    pub fn take_slice(&mut self, bytes: &[u8]) -> (ok: bool)
        ensures
            final(self).buf@ == old(self).buf@,
            ok == (old(self).pos + bytes@.len() <= old(self).buf@.len()
                && old(self).buf@.subrange(
                old(self).pos as int,
                old(self).pos + bytes@.len(),
            ) == bytes@),
            ok ==> final(self).pos == old(self).pos + bytes@.len(),
            !ok ==> final(self).pos == old(self).pos,
    {
        let n: usize = bytes.len();
        if n <= self.buf.len() && self.pos <= self.buf.len() - n {
            let mut i: usize = 0;
            while i < n
                invariant
                    i <= n,
                    n == bytes@.len(),
                    self.pos + n <= self.buf@.len(),
                    self.buf@.len() <= usize::MAX,
                    forall|j: int|
                        0 <= j < i ==> self.buf@[self.pos + j] == bytes@[j],
                decreases n - i,
            {
                let a: u8 = *vstd::slice::slice_index_get(self.buf, self.pos + i);
                let b: u8 = *vstd::slice::slice_index_get(bytes, i);
                if a != b {
                    proof {
                        assert(self.buf@.subrange(
                            self.pos as int,
                            self.pos + bytes@.len(),
                        )[i as int] != bytes@[i as int]);
                    }
                    return false;
                }
                i = i + 1;
            }
            proof {
                assert(self.buf@.subrange(self.pos as int, self.pos + bytes@.len())
                    =~= bytes@);
            }
            self.pos = self.pos + n;
            true
        } else {
            proof {
                if old(self).pos + bytes@.len() <= old(self).buf@.len() {
                    assert(false);
                }
            }
            false
        }
    }

    /// Returns the byte at the current position, or `None` past the end of
    /// the stream; the position is incremented by one in either case.
    pub fn consume(&mut self) -> (r: Option<u8>)
        requires
            old(self).pos < usize::MAX,
        ensures
            final(self).buf@ == old(self).buf@,
            final(self).pos == old(self).pos + 1,
            r == if old(self).pos < old(self).buf@.len() {
                Some(old(self).buf@[old(self).pos as int])
            } else {
                Option::<u8>::None
            },
    {
        let r: Option<u8> = if self.pos < self.buf.len() {
            Some(*vstd::slice::slice_index_get(self.buf, self.pos))
        } else {
            None
        };
        self.pos = self.pos + 1;
        r
    }

    /// Returns `None` if either the reader is at the end of the byte stream
    /// or the conditional fails; on success returns the byte at the current
    /// position and increments the position by one.
    pub fn consume_eq<F: FnOnce(u8) -> bool>(&mut self, f: F) -> (r: Option<u8>)
        requires
            forall|b: u8| #[trigger] f.requires((b,)),
        ensures
            final(self).buf@ == old(self).buf@,
            match r {
                Some(b) => {
                    &&& old(self).pos < old(self).buf@.len()
                    &&& b == old(self).buf@[old(self).pos as int]
                    &&& call_ensures(f, (b,), true)
                    &&& final(self).pos == old(self).pos + 1
                },
                None => {
                    &&& final(self).pos == old(self).pos
                    &&& old(self).pos < old(self).buf@.len() ==> call_ensures(
                        f,
                        (old(self).buf@[old(self).pos as int],),
                        false,
                    )
                },
            },
    {
        if self.pos < self.buf.len() {
            let b: u8 = *vstd::slice::slice_index_get(self.buf, self.pos);
            if f(b) {
                self.pos = self.pos + 1;
                Some(b)
            } else {
                None
            }
        } else {
            None
        }
    }
}

/// A failed `take` is idempotent: it leaves the position unchanged, so an
/// immediately repeated call with the same byte sees the same state and
/// fails again.
pub proof fn lemma_take_fail_idempotent<'a>(
    pre: Reader<'a>,
    mid: Reader<'a>,
    post: Reader<'a>,
    byte: u8,
    ok1: bool,
    ok2: bool,
)
    requires
        take_post(pre, mid, byte, ok1),
        !ok1,
        take_post(mid, post, byte, ok2),
    ensures
        mid.pos == pre.pos,
        mid.buf@ == pre.buf@,
        !ok2,
        post.pos == pre.pos,
{
}

/// How many of `k` successive `consume` calls, the first made at position
/// `start`, find a byte in a buffer of length `len`.
pub open spec fn present_count(len: int, start: int, k: nat) -> int
    decreases k,
{
    if k == 0 {
        0
    } else {
        present_count(len, start, (k - 1) as nat) + if start + k - 1 < len {
            1int
        } else {
            0int
        }
    }
}

/// `consume` advances the position by exactly one on every call, so the
/// i-th of `k` successive calls runs at position `start + i` and finds a
/// byte exactly when that position is inside the buffer: starting anywhere,
/// at most `len` of the calls return a byte.
pub proof fn lemma_consume_present_bound(len: int, start: int, k: nat)
    requires
        0 <= len,
        0 <= start,
    ensures
        present_count(len, start, k) <= len,
    decreases k,
{
    if k > 0 {
        lemma_consume_present_bound(len, start, (k - 1) as nat);
        if start + k - 1 < len {
            lemma_present_count_le(len, start, (k - 1) as nat);
        }
    }
}

/// Each call contributes at most one: `present_count` is bounded by `k`.
proof fn lemma_present_count_le(len: int, start: int, k: nat)
    ensures
        present_count(len, start, k) <= k,
    decreases k,
{
    if k > 0 {
        lemma_present_count_le(len, start, (k - 1) as nat);
    }
}

} // verus!
