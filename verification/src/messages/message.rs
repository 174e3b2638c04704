//! A message that carries the syntax trees of a program, and the frame that
//! an encoded message travels in.

use vstd::prelude::*;
use crate::messages::ast_node::AstNode;

verus! {

/// The syntax trees of a program. `methods` holds the positions in `nodes`
/// of the trees that are methods.
#[derive(Debug)]
pub struct Message<'a> {
    pub nodes: Vec<AstNode<'a>>,
    pub methods: Vec<u32>,
    pub program_id: &'a str,
}

/// A failure to frame an encoded message.
#[derive(Debug, PartialEq, Eq)]
pub enum MessageEncodingError {
    /// The message is longer than the largest length that a frame can give:
    /// the length of the message, then that largest length.
    Overflow(usize, usize),
}

/// The `width` low bytes of `value`, the most significant first.
pub open spec fn be_bytes(value: nat, width: nat) -> Seq<u8>
    decreases width,
{
    if width == 0 {
        Seq::empty()
    } else {
        be_bytes(value / 256, (width - 1) as nat).push((value % 256) as u8)
    }
}

/// Puts an encoded message into a frame: its length in four bytes, the most
/// significant first, and then the message. A message whose length does not
/// fit in four bytes is refused.
pub fn frame(data: Vec<u8>) -> (r: Result<Vec<u8>, MessageEncodingError>)
    ensures
        data@.len() > u32::MAX ==> r == Err::<Vec<u8>, MessageEncodingError>(
            MessageEncodingError::Overflow(data@.len() as usize, u32::MAX as usize),
        ),
        data@.len() <= u32::MAX ==> r is Ok && r->Ok_0@ == be_bytes(data@.len(), 4) + data@,
{
    let length = data.len();
    if length > u32::MAX as usize {
        Err(MessageEncodingError::Overflow(length, u32::MAX as usize))
    } else {
        let mut data = data;
        let mut result: Vec<u8> = Vec::new();
        result.push(((length / 0x100_0000) % 256) as u8);
        result.push(((length / 0x1_0000) % 256) as u8);
        result.push(((length / 0x100) % 256) as u8);
        result.push((length % 256) as u8);
        proof {
            reveal_with_fuel(be_bytes, 5);
            assert(result@ =~= be_bytes(length as nat, 4));
        }
        result.append(&mut data);
        Ok(result)
    }
}

} // verus!
