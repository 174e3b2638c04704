//! Frames on a byte stream: eight bytes that give a length, the most
//! significant first, and then that many bytes of data.

pub mod buffer;

use vstd::prelude::*;
use bytes::Bytes;
use bytes::BytesMut;
use crate::codec::buffer::{
    buffer_advance, buffer_byte, buffer_bytes, buffer_freeze, buffer_len, buffer_split_to,
    frozen_bytes, frozen_len,
};

verus! {

/// How many bytes the length of a frame takes.
pub const OFFSET: usize = 8;

/// The number that `bytes` spell, the most significant byte first.
pub open spec fn be_value(bytes: Seq<u8>) -> nat
    decreases bytes.len(),
{
    if bytes.len() == 0 {
        0
    } else {
        be_value(bytes.drop_last()) * 256 + bytes.last() as nat
    }
}

/// The reader of frames. Between calls it remembers the length of the frame
/// whose data it is waiting for, if it has read one.
#[derive(Debug)]
pub struct SizedDataCodec {
    current_length: Option<u64>,
}

/// A failure of the reader of frames.
#[derive(Debug)]
pub enum SizedDataCodecError {
    InvalidChunkSize(String),
    LengthOverflow(usize, usize),
}

/// The data of one frame.
pub struct DecoderItem {
    pub bytes: Bytes,
    pub length: usize,
}

impl SizedDataCodecError {
    /// The sentence that describes this failure.
    pub fn message(&self) -> (r: String)
        ensures
            self matches SizedDataCodecError::InvalidChunkSize(m) ==> r@ == "Invalid chunk decoded: "@
                + m@,
            self is LengthOverflow ==> r@
                == "The length of a frame is above what this machine can address"@,
    {
        match self {
            SizedDataCodecError::InvalidChunkSize(message) => {
                "Invalid chunk decoded: ".to_owned().concat(message.as_str())
            },
            SizedDataCodecError::LengthOverflow(_, _) => {
                "The length of a frame is above what this machine can address".to_owned()
            },
        }
    }
}

impl SizedDataCodec {
    /// The length of the frame whose data the reader is waiting for.
    pub closed spec fn pending(&self) -> Option<u64> {
        self.current_length
    }

    /// A reader that waits for the length of a frame.
    pub fn new() -> (r: Self)
        ensures
            r.pending() is None,
    {
        SizedDataCodec { current_length: None }
    }

    /// Reads the length of a frame, if the buffer holds all eight bytes of
    /// it, and takes them out of the buffer. It never yields an item.
    fn read_size(&mut self, src: &mut BytesMut) -> (r: Result<Option<DecoderItem>, SizedDataCodecError>)
        ensures
            r is Ok && r->Ok_0 is None,
            buffer_bytes(*old(src)).len() >= OFFSET ==> {
                &&& final(self).pending() == Some(be_value(buffer_bytes(*old(src)).subrange(0, 8)) as u64)
                &&& be_value(buffer_bytes(*old(src)).subrange(0, 8)) <= u64::MAX
                &&& buffer_bytes(*final(src)) == buffer_bytes(*old(src)).subrange(
                    8,
                    buffer_bytes(*old(src)).len() as int,
                )
            },
            buffer_bytes(*old(src)).len() < OFFSET ==> {
                &&& final(self).pending() == old(self).pending()
                &&& buffer_bytes(*final(src)) == buffer_bytes(*old(src))
            },
    {
        if buffer_len(src) >= OFFSET {
            let ghost head = buffer_bytes(*src).subrange(0, 8);
            let mut value: u64 = 0;
            let mut k: usize = 0;
            while k < OFFSET
                invariant
                    k <= OFFSET,
                    buffer_bytes(*src).len() >= OFFSET,
                    head == buffer_bytes(*src).subrange(0, 8),
                    value == be_value(head.subrange(0, k as int)),
                    k == 0 ==> value == 0,
                    k == 1 ==> value < 0x100,
                    k == 2 ==> value < 0x1_0000,
                    k == 3 ==> value < 0x100_0000,
                    k == 4 ==> value < 0x1_0000_0000,
                    k == 5 ==> value < 0x100_0000_0000,
                    k == 6 ==> value < 0x1_0000_0000_0000,
                    k == 7 ==> value < 0x100_0000_0000_0000,
                decreases OFFSET - k,
            {
                let byte = buffer_byte(src, k);
                assert(head.subrange(0, k + 1).drop_last() =~= head.subrange(0, k as int));
                assert(head.subrange(0, k + 1).last() == byte);
                value = value * 256 + byte as u64;
                k += 1;
            }
            assert(head.subrange(0, 8) =~= head);
            self.current_length = Some(value);
            buffer_advance(src, OFFSET);
        }
        Ok(None)
    }

    /// Takes the data of the frame out of the buffer, if the buffer holds
    /// all of it.
    fn read_in_data(&mut self, src: &mut BytesMut) -> (r: Result<
        Option<DecoderItem>,
        SizedDataCodecError,
    >)
        requires
            old(self).pending() is Some,
        ensures
            r is Ok,
            buffer_bytes(*old(src)).len() < old(self).pending()->0 ==> {
                &&& r->Ok_0 is None
                &&& final(self).pending() == old(self).pending()
                &&& buffer_bytes(*final(src)) == buffer_bytes(*old(src))
            },
            buffer_bytes(*old(src)).len() >= old(self).pending()->0 ==> {
                &&& r->Ok_0 is Some
                &&& frozen_bytes(r->Ok_0->0.bytes) == buffer_bytes(*old(src)).subrange(
                    0,
                    old(self).pending()->0 as int,
                )
                &&& r->Ok_0->0.length == old(self).pending()->0
                &&& final(self).pending() is None
                &&& buffer_bytes(*final(src)) == buffer_bytes(*old(src)).subrange(
                    old(self).pending()->0 as int,
                    buffer_bytes(*old(src)).len() as int,
                )
            },
    {
        let length = match self.current_length {
            Some(l) => l,
            None => 0,
        };
        if (buffer_len(src) as u64) < length {
            Ok(None)
        } else {
            let chunk = buffer_split_to(src, length as usize);
            self.current_length = None;
            let chunk = buffer_freeze(chunk);
            Ok(Some(DecoderItem { length: frozen_len(&chunk), bytes: chunk }))
        }
    }

    /// Reads what the buffer holds of the next frame: the length, if the
    /// reader waits for one, else the data. The data of a frame comes back
    /// once the buffer holds all of it; until then nothing comes back and
    /// the data stays in the buffer.
    pub fn decode(&mut self, src: &mut BytesMut) -> (r: Result<Option<DecoderItem>, SizedDataCodecError>)
        ensures
            r is Ok,
            old(self).pending() is None ==> r->Ok_0 is None,
            old(self).pending() is None && buffer_bytes(*old(src)).len() >= OFFSET ==> {
                &&& final(self).pending() == Some(be_value(buffer_bytes(*old(src)).subrange(0, 8)) as u64)
                &&& buffer_bytes(*final(src)) == buffer_bytes(*old(src)).subrange(
                    8,
                    buffer_bytes(*old(src)).len() as int,
                )
            },
            old(self).pending() is None && buffer_bytes(*old(src)).len() < OFFSET ==> {
                &&& final(self).pending() is None
                &&& buffer_bytes(*final(src)) == buffer_bytes(*old(src))
            },
            old(self).pending() is Some && buffer_bytes(*old(src)).len() < old(self).pending()->0 ==> {
                &&& r->Ok_0 is None
                &&& final(self).pending() == old(self).pending()
                &&& buffer_bytes(*final(src)) == buffer_bytes(*old(src))
            },
            old(self).pending() is Some && buffer_bytes(*old(src)).len() >= old(self).pending()->0 ==> {
                &&& r->Ok_0 is Some
                &&& frozen_bytes(r->Ok_0->0.bytes) == buffer_bytes(*old(src)).subrange(
                    0,
                    old(self).pending()->0 as int,
                )
                &&& r->Ok_0->0.length == old(self).pending()->0
                &&& final(self).pending() is None
                &&& buffer_bytes(*final(src)) == buffer_bytes(*old(src)).subrange(
                    old(self).pending()->0 as int,
                    buffer_bytes(*old(src)).len() as int,
                )
            },
    {
        match self.current_length {
            None => self.read_size(src),
            Some(_) => self.read_in_data(src),
        }
    }
}

impl Default for SizedDataCodec {
    fn default() -> (r: Self)
        ensures
            r.pending() is None,
    {
        SizedDataCodec::new()
    }
}

} // verus!
