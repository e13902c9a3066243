//! A string of fixed capacity that lives in an array and never allocates.

use vstd::prelude::*;
use vstd::string::StringSliceAdditionalSpecFns;

verus! {

/// Why a push did not go through.
#[derive(Debug, Clone, Copy, PartialEq, Eq, Structural)]
pub enum FixedStringError {
    /// The buffer is full.
    NoCapacity,
}

/// At most `N` bytes of text.
pub struct FixedString<const N: usize> {
    buf: [u8; N],
    len: usize,
}

/// The bytes that a buffer shows as text: its own where they are valid
/// UTF-8, none where they are not.
pub open spec fn text_bytes(bytes: Seq<u8>) -> Seq<u8> {
    if vstd::utf8::valid_utf8(bytes) {
        bytes
    } else {
        Seq::empty()
    }
}

/// `core::str::from_utf8`: the text whose bytes are the given ones where
/// those are valid UTF-8, nothing where they are not.
#[verifier::external_body]
pub(crate) fn utf8_text(bytes: &[u8]) -> (text: Option<&str>)
    ensures
        text is Some <==> vstd::utf8::valid_utf8(bytes@),
        text is Some ==> text->0.spec_bytes() == bytes@,
{
    core::str::from_utf8(bytes).ok()
}

impl<const N: usize> View for FixedString<N> {
    type V = Seq<u8>;

    closed spec fn view(&self) -> Seq<u8> {
        self.buf@.take(self.len as int)
    }
}

impl<const N: usize> FixedString<N> {
    #[verifier::type_invariant]
    closed spec fn within_capacity(&self) -> bool {
        self.len <= N
    }

    /// An empty string.
    pub fn new() -> (string: Self)
        ensures
            string@ == Seq::<u8>::empty(),
    {
        let string = Self { buf: [0; N], len: 0 };
        assert(string@ =~= Seq::<u8>::empty());
        string
    }

    /// Length in bytes.
    pub fn len(&self) -> (len: usize)
        ensures
            len == self@.len(),
            len <= N,
    {
        proof {
            use_type_invariant(self);
        }
        self.len
    }

    /// How many bytes fit.
    pub fn capacity(&self) -> (capacity: usize)
        ensures
            capacity == N,
    {
        N
    }

    /// Empties the string; the capacity stays.
    pub fn clear(&mut self)
        ensures
            final(self)@ == Seq::<u8>::empty(),
    {
        self.len = 0;
        assert(self@ =~= Seq::<u8>::empty());
    }

    /// Appends one byte, or reports that the buffer is full and leaves the
    /// string as it is.
    pub fn push_byte(&mut self, byte: u8) -> (pushed: Result<(), FixedStringError>)
        ensures
            old(self)@.len() < N ==> pushed is Ok && final(self)@ == old(self)@.push(byte),
            old(self)@.len() >= N ==> pushed == Err::<(), FixedStringError>(
                FixedStringError::NoCapacity,
            ) && final(self)@ == old(self)@,
    {
        proof {
            use_type_invariant(&*self);
        }
        if self.len >= N {
            return Err(FixedStringError::NoCapacity);
        }
        self.buf[self.len] = byte;
        self.len += 1;
        assert(self@ =~= old(self)@.push(byte));
        Ok(())
    }

    /// Appends the bytes of `s` one by one until all are in or the buffer is
    /// full; in the second case the bytes that fitted stay and the push
    /// reports the lack of room.
    pub fn push_str(&mut self, s: &str) -> (pushed: Result<(), FixedStringError>)
        ensures
            old(self)@.len() + s.spec_bytes().len() <= N ==> pushed is Ok && final(self)@ == old(self)@
                + s.spec_bytes(),
            old(self)@.len() + s.spec_bytes().len() > N ==> pushed == Err::<(), FixedStringError>(
                FixedStringError::NoCapacity,
            ) && final(self)@ == old(self)@ + s.spec_bytes().take(N - old(self)@.len()),
    {
        let bytes = s.as_bytes();
        self.push_bytes(bytes)
    }

    /// Appends bytes one by one until all are in or the buffer is full.
    pub fn push_bytes(&mut self, bytes: &[u8]) -> (pushed: Result<(), FixedStringError>)
        ensures
            old(self)@.len() + bytes@.len() <= N ==> pushed is Ok && final(self)@ == old(self)@
                + bytes@,
            old(self)@.len() + bytes@.len() > N ==> pushed == Err::<(), FixedStringError>(
                FixedStringError::NoCapacity,
            ) && final(self)@ == old(self)@ + bytes@.take(N - old(self)@.len()),
    {
        proof {
            use_type_invariant(&*self);
        }
        let mut i: usize = 0;
        while i < bytes.len()
            invariant
                i <= bytes.len(),
                self@ == old(self)@ + bytes@.take(i as int),
                self@.len() <= N,
            decreases bytes.len() - i,
        {
            match self.push_byte(bytes[i]) {
                Err(e) => {
                    assert(bytes@.take(i as int) =~= bytes@.take(N - old(self)@.len()));
                    return Err(e);
                },
                Ok(_) => {},
            }
            assert(bytes@.take(i as int).push(bytes@[i as int]) =~= bytes@.take(i + 1));
            assert(self@ =~= old(self)@ + bytes@.take(i + 1));
            i += 1;
        }
        assert(bytes@.take(i as int) =~= bytes@);
        Ok(())
    }

    /// The bytes of the string.
    pub fn as_bytes(&self) -> (bytes: &[u8])
        ensures
            bytes@ == self@,
    {
        proof {
            use_type_invariant(self);
        }
        let all = self.buf.as_slice();
        let bytes = &all[0..self.len];
        assert(bytes@ =~= self@);
        bytes
    }

    /// The string as text; empty where the bytes are not valid UTF-8.
    pub fn as_str(&self) -> (text: &str)
        ensures
            text.spec_bytes() == text_bytes(self@),
    {
        match utf8_text(self.as_bytes()) {
            Some(text) => text,
            None => {
                let empty = "";
                proof {
                    reveal_strlit("");
                    assert(empty@ =~= Seq::<char>::empty());
                    assert(empty.spec_bytes() =~= Seq::<u8>::empty());
                }
                empty
            },
        }
    }
}

} // verus!
