//! Parsing of a head that arrives in pieces.

use crate::buffer::{advance, as_slice, contents};
use bytes::BytesMut;
use vstd::prelude::*;

verus! {

/// What parsing a head came to.
#[derive(Debug)]
pub enum ParseResult<R, O> {
    /// What the head comes to, and its length.
    Complete(O, usize),
    /// What has been read of a head that is not complete.
    Partial(R),
}

/// Something that reads a head.
pub trait Parser: Sized {
    /// What a head comes to.
    type Output;

    /// What a head is rejected for.
    type Error;

    /// Whether reading bytes may come to this: an output and the length of the head, nothing because
    /// the head is not complete, or a rejection.
    spec fn decodes(self, bytes: Seq<u8>, result: Result<Option<(Self::Output, usize)>, Self::Error>) -> bool;

    /// Reads a head.
    fn decode(&self, bytes: &[u8]) -> (result: Result<Option<(Self::Output, usize)>, Self::Error>)
        ensures
            self.decodes(bytes@, result),
            result matches Ok(Some((_, length))) ==> length <= bytes@.len(),
    ;
}

/// Whether a head at the front of bytes may come to an output, with the rest of the bytes left.
pub open spec fn takes_head<P: Parser>(
    parser: P,
    bytes: Seq<u8>,
    output: P::Output,
    rest: Seq<u8>,
) -> bool {
    exists|length: usize|
        length <= bytes.len() && rest == bytes.skip(length as int) && #[trigger] parser.decodes(
            bytes,
            Ok(Some((output, length))),
        )
}

/// Reads a head from bytes that arrive in pieces.
pub struct StreamingParser<P> {
    buffer: BytesMut,
    parser: P,
}

impl<P: Parser> StreamingParser<P> {
    /// The bytes that have been received and not been taken.
    pub closed spec fn buffered(self) -> Seq<u8> {
        contents(self.buffer)
    }

    /// What reads the head.
    pub closed spec fn inner(self) -> P {
        self.parser
    }

    /// A parser for a head of which the bytes in `buffer` have been received.
    pub fn new(buffer: BytesMut, parser: P) -> (streaming: StreamingParser<P>)
        ensures
            streaming.buffered() == contents(buffer),
            streaming.inner() == parser,
    {
        StreamingParser { buffer, parser }
    }

    /// Adds bytes that have been received.
    pub fn supply(&mut self, bytes: &[u8])
        ensures
            final(self).buffered() == old(self).buffered() + bytes@,
            final(self).inner() == old(self).inner(),
    {
        self.buffer.extend_from_slice(bytes);
    }

    /// Reads the head from the bytes that have been received. If it is complete, its bytes are taken
    /// and those behind it are left. If it is not, more bytes are to be supplied.
    pub fn parse(&mut self) -> (result: Result<Option<P::Output>, P::Error>)
        ensures
            final(self).inner() == old(self).inner(),
            match result {
                Ok(Some(output)) => takes_head(
                    old(self).inner(),
                    old(self).buffered(),
                    output,
                    final(self).buffered(),
                ),
                Ok(None) => old(self).inner().decodes(old(self).buffered(), Ok(None))
                    && final(self).buffered() == old(self).buffered(),
                Err(e) => old(self).inner().decodes(old(self).buffered(), Err(e))
                    && final(self).buffered() == old(self).buffered(),
            },
    {
        match self.parser.decode(as_slice(&self.buffer)) {
            Ok(Some((output, length))) => {
                advance(&mut self.buffer, length);
                assert(self.parser.decodes(old(self).buffered(), Ok(Some((output, length)))));
                assert(takes_head(
                    self.parser,
                    old(self).buffered(),
                    output,
                    self.buffered(),
                ));
                Ok(Some(output))
            },
            Ok(None) => Ok(None),
            Err(e) => Err(e),
        }
    }

    /// Takes what reads the head and the bytes that are left apart.
    pub fn into_parts(self) -> (parts: (P, BytesMut))
        ensures
            parts.0 == self.inner(),
            contents(parts.1) == self.buffered(),
    {
        (self.parser, self.buffer)
    }
}

} // verus!
