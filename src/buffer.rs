use vstd::prelude::*;
use crate::raw_block::RawBlock;

verus! {

/// The smallest reservation a buffer ever holds.
pub const MIN_CAPACITY: usize = 64;

/// The reservation a buffer of `len` bytes and reservation `cap` holds after
/// `extra` more bytes are appended: unchanged while they fit, otherwise the
/// larger of one and a half times the old reservation and the bytes needed.
pub open spec fn grown_capacity(len: nat, cap: nat, extra: nat) -> nat {
    if len + extra <= cap {
        cap
    } else if cap * 3 / 2 >= len + extra {
        cap * 3 / 2
    } else {
        len + extra
    }
}

/// The largest reservation that can be made for a buffer of bytes.
pub open spec fn capacity_limit() -> nat {
    isize::MAX as nat
}

/// Relies on Vec::reserve_exact: it leaves the contents as they are; it
/// panics only where the new capacity would pass isize::MAX bytes.
#[verifier::external_body]
fn reserve_exact(v: &mut Vec<u8>, additional: usize)
    requires
        old(v)@.len() + additional <= isize::MAX,
    ensures
        final(v)@ == old(v)@,
{
    v.reserve_exact(additional)
}

/// Relies on Vec::shrink_to: it releases capacity and leaves the contents as
/// they are.
#[verifier::external_body]
pub(crate) fn shrink_to(v: &mut Vec<u8>, min_capacity: usize)
    ensures
        final(v)@ == old(v)@,
{
    v.shrink_to(min_capacity)
}

/// A growable byte buffer with an explicit reservation that is at least
/// `MIN_CAPACITY` and never smaller than its contents.
pub struct SafeBuffer {
    data: Vec<u8>,
    cap: usize,
}

impl View for SafeBuffer {
    type V = Seq<u8>;

    /// The bytes in use.
    closed spec fn view(&self) -> Seq<u8> {
        self.data@
    }
}

impl SafeBuffer {
    /// The number of bytes reserved.
    pub closed spec fn spec_capacity(&self) -> nat {
        self.cap as nat
    }

    /// The contents fit the reservation, which is at least `MIN_CAPACITY`
    /// and within what can be reserved.
    pub open spec fn wf(&self) -> bool {
        &&& self@.len() <= self.spec_capacity()
        &&& MIN_CAPACITY <= self.spec_capacity() <= capacity_limit()
    }

    /// Creates an empty buffer that reserves `max(initial_capacity, 64)` bytes.
    pub fn new(initial_capacity: usize) -> (r: Self)
        requires
            initial_capacity <= isize::MAX,
        ensures
            r.wf(),
            r@ == Seq::<u8>::empty(),
            r.spec_capacity() == if initial_capacity < MIN_CAPACITY {
                MIN_CAPACITY as nat
            } else {
                initial_capacity as nat
            },
    {
        let cap = if initial_capacity < MIN_CAPACITY {
            MIN_CAPACITY
        } else {
            initial_capacity
        };
        SafeBuffer { data: Vec::with_capacity(cap), cap }
    }

    /// Appends `data` after the contents, growing the reservation by the
    /// one-and-a-half rule when it does not fit. Fails, changing nothing,
    /// only where the grown reservation could not be made at all.
    pub fn append(&mut self, data: &[u8]) -> (r: Result<(), ()>)
        requires
            old(self).wf(),
        ensures
            final(self).wf(),
            r is Ok <==> grown_capacity(old(self)@.len(), old(self).spec_capacity(), data@.len())
                <= capacity_limit(),
            r is Ok ==> final(self)@ == old(self)@ + data@ && final(self).spec_capacity()
                == grown_capacity(old(self)@.len(), old(self).spec_capacity(), data@.len()),
            r is Err ==> final(self)@ == old(self)@ && final(self).spec_capacity()
                == old(self).spec_capacity(),
    {
        let len = self.data.len();
        let limit = isize::MAX as usize;
        if data.len() > limit - len {
            return Err(());
        }
        let needed = len + data.len();
        if needed > self.cap {
            let grown = self.cap + self.cap / 2;
            let target = if grown >= needed {
                grown
            } else {
                needed
            };
            assert(grown == self.cap * 3 / 2);
            if target > limit {
                return Err(());
            }
            reserve_exact(&mut self.data, target - len);
            self.cap = target;
        }
        self.data.extend_from_slice(data);
        assert(self.data@ =~= old(self)@ + data@);
        Ok(())
    }

    /// Appends `data` into the reservation the caller has already checked:
    /// the same effect as `append` where no growth is needed.
    pub fn append_unchecked(&mut self, data: &[u8])
        requires
            old(self).wf(),
            old(self)@.len() + data@.len() <= old(self).spec_capacity(),
        ensures
            final(self).wf(),
            final(self)@ == old(self)@ + data@,
            final(self).spec_capacity() == old(self).spec_capacity(),
    {
        self.data.extend_from_slice(data);
        assert(self.data@ =~= old(self)@ + data@);
    }

    /// The contents.
    pub fn as_slice(&self) -> (r: &[u8])
        ensures
            r@ == self@,
    {
        self.data.as_slice()
    }

    /// The number of bytes in use.
    pub fn len(&self) -> (r: usize)
        ensures
            r == self@.len(),
    {
        self.data.len()
    }

    /// The number of bytes reserved.
    pub fn capacity(&self) -> (r: usize)
        ensures
            r == self.spec_capacity(),
    {
        self.cap
    }

    /// True when no byte is in use.
    pub fn is_empty(&self) -> (r: bool)
        ensures
            r == (self@.len() == 0),
    {
        self.data.len() == 0
    }

    /// Empties the buffer and keeps its reservation.
    pub fn clear(&mut self)
        requires
            old(self).wf(),
        ensures
            final(self).wf(),
            final(self)@ == Seq::<u8>::empty(),
            final(self).spec_capacity() == old(self).spec_capacity(),
    {
        self.data.clear();
    }

    /// Releases the reservation beyond the contents, down to `MIN_CAPACITY`
    /// at least.
    pub fn shrink_to_fit(&mut self)
        requires
            old(self).wf(),
        ensures
            final(self).wf(),
            final(self)@ == old(self)@,
            final(self).spec_capacity() == if old(self)@.len() < MIN_CAPACITY {
                MIN_CAPACITY as nat
            } else {
                old(self)@.len()
            },
    {
        let len = self.data.len();
        let target = if len < MIN_CAPACITY {
            MIN_CAPACITY
        } else {
            len
        };
        shrink_to(&mut self.data, target);
        self.cap = target;
    }

    /// Gives up the contents as a block of exactly their size.
    pub fn into_raw_block(self) -> (r: RawBlock)
        ensures
            r@ == self@,
    {
        let mut data = self.data;
        let len = data.len();
        shrink_to(&mut data, len);
        RawBlock::from_bytes(data)
    }

    /// Appends as the foreign boundary does: through the unchecked path where
    /// the bytes already fit, through `append` otherwise. Returns 0 on
    /// success and -1 on failure, in which case nothing changed.
    pub fn append_status(&mut self, data: &[u8]) -> (r: i32)
        requires
            old(self).wf(),
        ensures
            final(self).wf(),
            r == 0 || r == -1,
            r == 0 <==> grown_capacity(old(self)@.len(), old(self).spec_capacity(), data@.len())
                <= capacity_limit(),
            r == 0 ==> final(self)@ == old(self)@ + data@ && final(self).spec_capacity()
                == grown_capacity(old(self)@.len(), old(self).spec_capacity(), data@.len()),
            r == -1 ==> final(self)@ == old(self)@ && final(self).spec_capacity()
                == old(self).spec_capacity(),
    {
        if data.len() <= self.cap - self.data.len() {
            self.append_unchecked(data);
            0
        } else {
            match self.append(data) {
                Ok(()) => 0,
                Err(()) => -1,
            }
        }
    }
}

/// Appending keeps the contents within the reservation, keeps the
/// reservation at `MIN_CAPACITY` or more, and never lowers it.
pub proof fn lemma_growth_invariant(len: nat, cap: nat, extra: nat)
    requires
        len <= cap,
        MIN_CAPACITY <= cap,
    ensures
        len + extra <= grown_capacity(len, cap, extra),
        cap <= grown_capacity(len, cap, extra),
        MIN_CAPACITY <= grown_capacity(len, cap, extra),
{
}

/// Appending `a` and then `b` leaves the contents followed by `a ++ b`; from
/// an empty buffer, exactly `a ++ b`.
pub proof fn lemma_appends_concatenate(start: Seq<u8>, a: Seq<u8>, b: Seq<u8>)
    ensures
        (start + a) + b == start + (a + b),
        (Seq::<u8>::empty() + a) + b == a + b,
{
    assert((start + a) + b =~= start + (a + b));
    assert((Seq::<u8>::empty() + a) + b =~= a + b);
}

/// Appending nothing leaves contents and reservation as they are, and
/// always succeeds.
pub proof fn lemma_empty_append_changes_nothing(contents: Seq<u8>, cap: nat)
    requires
        contents.len() <= cap <= capacity_limit(),
    ensures
        grown_capacity(contents.len(), cap, 0) == cap,
        grown_capacity(contents.len(), cap, 0) <= capacity_limit(),
        contents + Seq::<u8>::empty() == contents,
{
    assert(contents + Seq::<u8>::empty() =~= contents);
}

} // verus!
