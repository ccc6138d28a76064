use vstd::prelude::*;

use vstd::string::StringSliceAdditionalSpecFns;

use crate::error::Error;
use crate::utils::is_inside_boundary;

verus! {

broadcast use vstd::array::group_array_axioms;

/// Fixed-capacity byte buffer whose first `len` bytes hold the live text.
///
/// The bytes from `len` to `N` carry no meaning. Callers that move or write bytes
/// through the primitives of `utils` update `len` themselves with `set_len`.
pub struct StaticString<const N: usize> {
    array: [u8; N],
    size: usize,
}

/// A buffer of 63 bytes.
pub type SmallString = StaticString<63>;

impl<const N: usize> StaticString<N> {
    /// The whole buffer, live text and spare bytes alike.
    pub closed spec fn bytes(&self) -> Seq<u8> {
        self.array@
    }

    /// The logical length: how many leading bytes are live.
    pub closed spec fn spec_len(&self) -> nat {
        self.size as nat
    }

    /// The buffer holds `N` bytes and the logical length fits in it.
    pub open spec fn wf(&self) -> bool {
        self.bytes().len() == N && self.spec_len() <= N
    }

    /// The live text.
    pub open spec fn text(&self) -> Seq<u8> {
        self.bytes().subrange(0, self.spec_len() as int)
    }

    /// An empty buffer.
    pub fn new() -> (r: Self)
        ensures
            r.wf(),
            r.spec_len() == 0,
    {
        StaticString { array: [0u8; N], size: 0 }
    }

    /// A buffer that holds the bytes of `s`, or `OutOfBounds` when they do not fit.
    pub fn try_from_str(s: &str) -> (r: Result<Self, Error>)
        ensures
            r is Ok <==> s.spec_bytes().len() <= N,
            r is Err ==> r == Err::<Self, Error>(Error::OutOfBounds),
            r is Ok ==> r->Ok_0.wf() && r->Ok_0.text() == s.spec_bytes(),
    {
        let b = s.as_bytes();
        match is_inside_boundary(b.len(), N) {
            Err(e) => Err(e),
            Ok(()) => {
                let mut out = Self::new();
                let n = b.len();
                let mut i: usize = 0;
                while i < n
                    invariant
                        n == b@.len(),
                        n <= N,
                        i <= n,
                        out.wf(),
                        out.spec_len() == 0,
                        out.bytes().subrange(0, i as int) == b@.subrange(0, i as int),
                    decreases n - i,
                {
                    out.array[i] = b[i];
                    assert(out.bytes().subrange(0, i + 1) =~= b@.subrange(0, i + 1));
                    i = i + 1;
                }
                out.size = n;
                Ok(out)
            },
        }
    }

    /// The logical length.
    pub fn len(&self) -> (r: usize)
        ensures
            r == self.spec_len(),
    {
        self.size
    }

    /// The number of bytes the buffer can hold.
    pub fn capacity(&self) -> (r: usize)
        ensures
            r == N,
    {
        N
    }

    /// The live text as bytes.
    pub fn as_bytes(&self) -> (r: &[u8])
        requires
            self.wf(),
        ensures
            r@ == self.text(),
    {
        vstd::slice::slice_subrange(self.array.as_slice(), 0, self.size)
    }

    /// The whole buffer, for writing.
    pub fn as_mut_bytes(&mut self) -> (r: &mut [u8])
        ensures
            r@ == old(self).bytes(),
            final(self).bytes() == final(r)@,
            final(self).spec_len() == old(self).spec_len(),
    {
        &mut self.array
    }

    /// Sets the logical length, leaving every byte as it is.
    pub fn set_len(&mut self, new_len: usize)
        requires
            new_len <= N,
        ensures
            final(self).bytes() == old(self).bytes(),
            final(self).spec_len() == new_len,
    {
        self.size = new_len;
    }
}

impl<const N: usize> Default for StaticString<N> {
    fn default() -> (r: Self)
        ensures
            r.wf(),
            r.spec_len() == 0,
    {
        Self::new()
    }
}

} // verus!
