//! Reading bytes out of a borrowed slice.

use vstd::prelude::*;

use crate::context::{Context, Message};
use crate::value_visitor::ValueVisitor;

verus! {

/// The diagnostic for reading `n` bytes when only `remaining` are left.
pub open spec fn underflow(n: nat, remaining: nat) -> Message {
    Message::SliceUnderflow { n: n as usize, remaining: remaining as usize }
}

/// A reader over a slice of bytes, which hands out borrows of the slice.
pub struct SliceReader<'de> {
    rest: &'de [u8],
}

impl<'de> View for SliceReader<'de> {
    type V = Seq<u8>;

    /// The bytes that have not been read yet.
    closed spec fn view(&self) -> Seq<u8> {
        self.rest@
    }
}

impl<'de> SliceReader<'de> {
    /// A reader positioned at the start of `slice`.
    pub fn new(slice: &'de [u8]) -> (reader: SliceReader<'de>)
        ensures
            reader@ == slice@,
    {
        SliceReader { rest: slice }
    }

    /// The number of bytes left.
    pub fn remaining(&self) -> (n: usize)
        ensures
            n == self@.len(),
    {
        self.rest.len()
    }

    /// Read one byte.
    pub fn read_byte<C: Context>(&mut self, cx: &C) -> (r: Result<u8, C::Error>)
        ensures
            old(self)@.len() == 0 ==> r == Err::<u8, C::Error>(cx.message_error(underflow(1, 0)))
                && final(self)@ == old(self)@,
            old(self)@.len() > 0 ==> r == Ok::<u8, C::Error>(old(self)@[0])
                && final(self)@ == old(self)@.drop_first(),
    {
        if self.rest.len() == 0 {
            return Err(cx.message(Message::SliceUnderflow { n: 1, remaining: 0 }));
        }
        let b = self.rest[0];
        self.rest = vstd::slice::slice_subrange(self.rest, 1, self.rest.len());
        cx.advance(1);
        Ok(b)
    }

    /// Read `n` bytes as a borrow of the underlying slice.
    pub fn read_slice<C: Context>(&mut self, cx: &C, n: usize) -> (r: Result<&'de [u8], C::Error>)
        ensures
            n > old(self)@.len() ==> (r matches Err(e) && e == cx.message_error(
                underflow(n as nat, old(self)@.len()),
            )) && final(self)@ == old(self)@,
            n <= old(self)@.len() ==> (r matches Ok(s) && s@ == old(self)@.take(n as int))
                && final(self)@ == old(self)@.skip(n as int),
    {
        let len = self.rest.len();
        if n > len {
            return Err(cx.message(Message::SliceUnderflow { n, remaining: len }));
        }
        let head = vstd::slice::slice_subrange(self.rest, 0, n);
        self.rest = vstd::slice::slice_subrange(self.rest, n, len);
        cx.advance(n);
        Ok(head)
    }

    /// Read `n` bytes and hand them to `visitor` as a borrow of the underlying slice; the
    /// result is what the visitor returns.
    pub fn read_bytes<C: Context, V: ValueVisitor<'de, C, [u8]>>(
        &mut self,
        cx: &C,
        n: usize,
        visitor: V,
    ) -> (r: Result<V::Ok, C::Error>)
        ensures
            n > old(self)@.len() ==> (r matches Err(e) && e == cx.message_error(
                underflow(n as nat, old(self)@.len()),
            )) && final(self)@ == old(self)@,
            n <= old(self)@.len() ==> final(self)@ == old(self)@.skip(n as int),
            n <= old(self)@.len() ==> exists|bytes: &'de [u8]|
                bytes@ == old(self)@.take(n as int) && #[trigger] call_ensures(
                    V::visit_borrowed,
                    (visitor, cx, bytes),
                    r,
                ),
    {
        match self.read_slice(cx, n) {
            Ok(bytes) => visitor.visit_borrowed(cx, bytes),
            Err(e) => Err(e),
        }
    }

    /// Read exactly `N` bytes into an array.
    pub fn read_array<C: Context, const N: usize>(&mut self, cx: &C) -> (r: Result<
        [u8; N],
        C::Error,
    >)
        ensures
            N > old(self)@.len() ==> (r matches Err(e) && e == cx.message_error(
                underflow(N as nat, old(self)@.len()),
            )) && final(self)@ == old(self)@,
            N <= old(self)@.len() ==> (r matches Ok(a) && a@ == old(self)@.take(N as int))
                && final(self)@ == old(self)@.skip(N as int),
    {
        let bytes = match self.read_slice(cx, N) {
            Ok(bytes) => bytes,
            Err(e) => return Err(e),
        };
        let mut array = [0u8; N];
        let mut i: usize = 0;
        while i < N
            invariant
                i <= N,
                bytes@.len() == N,
                array@.len() == N,
                forall|j: int| 0 <= j < i ==> array@[j] == bytes@[j],
            decreases N - i,
        {
            array[i] = bytes[i];
            i = i + 1;
        }
        assert(array@ =~= bytes@);
        Ok(array)
    }
}

} // verus!
