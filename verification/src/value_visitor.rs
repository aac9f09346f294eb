//! Visitors for values that a decoder may be able to borrow.

use vstd::prelude::*;

use crate::context::{Context, Message, TypeHint};

verus! {

/// `Borrow::borrow` from an owned value (`Vec<u8>`, `String`) to its borrowed form
/// (`[u8]`, `str`); nothing is claimed of the result.
#[verifier::external_body]
fn borrow_owned<T: ?Sized + std::borrow::ToOwned>(value: &T::Owned) -> &T {
    std::borrow::Borrow::borrow(value)
}

/// A visitor for data where it might be possible to borrow it without copying
/// from the underlying decoder.
pub trait ValueVisitor<'de, C: Context, T: ?Sized + std::borrow::ToOwned>: Sized {
    /// The value produced.
    type Ok;

    /// Describe what was expected by this visitor.
    fn expecting(&self) -> String;

    /// Visit an owned value; by default handed on to [`ValueVisitor::visit_ref`].
    fn visit_owned(self, cx: &C, value: T::Owned) -> (r: Result<Self::Ok, C::Error>)
        default_ensures
            exists|borrowed: &T| call_ensures(Self::visit_ref, (self, cx, borrowed), r),
    {
        self.visit_ref(cx, borrow_owned::<T>(&value))
    }

    /// Visit a value that is borrowed directly from the source data; by default
    /// handed on to [`ValueVisitor::visit_ref`].
    fn visit_borrowed(self, cx: &C, value: &'de T) -> (r: Result<Self::Ok, C::Error>)
        default_ensures
            call_ensures(Self::visit_ref, (self, cx, value), r),
    {
        self.visit_ref(cx, value)
    }

    /// Visit a value reference; by default this visitor does not accept one.
    fn visit_ref(self, cx: &C, value: &T) -> (r: Result<Self::Ok, C::Error>)
        default_ensures
            (r matches Err(e) && exists|expecting: String|
                call_ensures(Self::expecting, (&self,), expecting) && e == cx.message_error(
                    Message::BadVisitorType { expecting },
                )),
    {
        let expecting = self.expecting();
        Err(cx.message(Message::BadVisitorType { expecting }))
    }

    /// Fallback used when the type is either not implemented for this visitor
    /// or the underlying format doesn't know which type to decode.
    fn visit_any<D>(self, cx: &C, decoder: D, hint: TypeHint) -> (r: Result<Self::Ok, C::Error>)
        default_ensures
            (r matches Err(e) && exists|expecting: String|
                call_ensures(Self::expecting, (&self,), expecting) && e == cx.message_error(
                    Message::UnsupportedType { hint, expecting },
                )),
    {
        let expecting = self.expecting();
        Err(cx.message(Message::UnsupportedType { hint, expecting }))
    }
}

} // verus!
