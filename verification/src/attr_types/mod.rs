//! The value types of the graph-tool file format and how each is written.

use vstd::prelude::*;

verus! {

/// The `width` low bytes of `value`, the lowest first.
pub open spec fn le_bytes(value: nat, width: nat) -> Seq<u8>
    decreases width,
{
    if width == 0 {
        Seq::empty()
    } else {
        seq![(value % 256) as u8] + le_bytes(value / 256, (width - 1) as nat)
    }
}

/// Appends the `width` low bytes of `value` to `out`, the lowest first.
pub fn push_le_bytes(out: &mut Vec<u8>, value: u64, width: usize)
    ensures
        final(out)@ == old(out)@ + le_bytes(value as nat, width as nat),
{
    let mut rest = value;
    let mut k: usize = 0;
    while k < width
        invariant
            k <= width,
            out@ + le_bytes(rest as nat, (width - k) as nat) == old(out)@ + le_bytes(
                value as nat,
                width as nat,
            ),
        decreases width - k,
    {
        let ghost before = out@;
        out.push((rest % 256) as u8);
        assert(before + le_bytes(rest as nat, (width - k) as nat) =~= before.push((rest % 256) as u8)
            + le_bytes((rest / 256) as nat, (width - k - 1) as nat));
        rest = rest / 256;
        k += 1;
    }
    assert(out@ + le_bytes(rest as nat, 0) =~= out@);
}

/// What every value type of the format can tell about itself.
pub trait GtTypes {
    /// The byte that names the type in a file.
    spec fn type_byte() -> u8;

    /// How many items the value holds, for a type that has a length.
    spec fn length(&self) -> Option<usize>;

    /// How many bytes the value takes in a file, its length field included.
    spec fn num_bytes(&self) -> nat;

    /// The bytes of the value itself.
    spec fn value_bytes(&self) -> Seq<u8>;

    /// Returns the byte that names the type in a file.
    fn get_type_byte() -> (r: u8)
        ensures
            r == Self::type_byte(),
    ;

    /// Returns how many items the value holds, if the type has a length.
    fn get_length(&self) -> (r: Option<usize>)
        ensures
            r == self.length(),
    ;

    /// Returns how many bytes the value takes in a file. The count must fit
    /// in 64 bits.
    fn get_num_bytes(&self) -> (r: u64)
        requires
            self.num_bytes() <= u64::MAX,
        ensures
            r == self.num_bytes(),
    ;

    /// Returns the bytes of the value itself.
    fn get_value_bytes(&self) -> (r: Vec<u8>)
        ensures
            r@ == self.value_bytes(),
    ;
}

/// A boolean.
#[derive(Copy, Clone, Debug)]
pub struct Bool(pub bool);

impl GtTypes for Bool {
    open spec fn type_byte() -> u8 {
        0x00
    }

    open spec fn length(&self) -> Option<usize> {
        None
    }

    open spec fn num_bytes(&self) -> nat {
        1
    }

    open spec fn value_bytes(&self) -> Seq<u8> {
        seq![if self.0 { 1u8 } else { 0u8 }]
    }

    fn get_type_byte() -> (r: u8) {
        0x00
    }

    fn get_length(&self) -> (r: Option<usize>) {
        None
    }

    fn get_num_bytes(&self) -> (r: u64) {
        1
    }

    fn get_value_bytes(&self) -> (r: Vec<u8>) {
        let mut out = Vec::new();
        out.push(if self.0 { 1u8 } else { 0u8 });
        assert(out@ =~= self.value_bytes());
        out
    }
}

/// A 16-bit integer.
#[derive(Copy, Clone, Debug)]
pub struct Int16(pub i16);

impl GtTypes for Int16 {
    open spec fn type_byte() -> u8 {
        0x01
    }

    open spec fn length(&self) -> Option<usize> {
        None
    }

    open spec fn num_bytes(&self) -> nat {
        2
    }

    open spec fn value_bytes(&self) -> Seq<u8> {
        le_bytes((self.0 as u16) as nat, 2)
    }

    fn get_type_byte() -> (r: u8) {
        0x01
    }

    fn get_length(&self) -> (r: Option<usize>) {
        None
    }

    fn get_num_bytes(&self) -> (r: u64) {
        2
    }

    fn get_value_bytes(&self) -> (r: Vec<u8>) {
        let mut out = Vec::new();
        push_le_bytes(&mut out, (self.0 as u16) as u64, 2);
        out
    }
}

/// A 32-bit integer.
#[derive(Copy, Clone, Debug)]
pub struct Int32(pub i32);

impl GtTypes for Int32 {
    open spec fn type_byte() -> u8 {
        0x02
    }

    open spec fn length(&self) -> Option<usize> {
        None
    }

    open spec fn num_bytes(&self) -> nat {
        4
    }

    open spec fn value_bytes(&self) -> Seq<u8> {
        le_bytes((self.0 as u32) as nat, 4)
    }

    fn get_type_byte() -> (r: u8) {
        0x02
    }

    fn get_length(&self) -> (r: Option<usize>) {
        None
    }

    fn get_num_bytes(&self) -> (r: u64) {
        4
    }

    fn get_value_bytes(&self) -> (r: Vec<u8>) {
        let mut out = Vec::new();
        push_le_bytes(&mut out, (self.0 as u32) as u64, 4);
        out
    }
}

/// A 64-bit integer.
#[derive(Copy, Clone, Debug)]
pub struct Int64(pub i64);

impl GtTypes for Int64 {
    open spec fn type_byte() -> u8 {
        0x03
    }

    open spec fn length(&self) -> Option<usize> {
        None
    }

    open spec fn num_bytes(&self) -> nat {
        8
    }

    open spec fn value_bytes(&self) -> Seq<u8> {
        le_bytes((self.0 as u64) as nat, 8)
    }

    fn get_type_byte() -> (r: u8) {
        0x03
    }

    fn get_length(&self) -> (r: Option<usize>) {
        None
    }

    fn get_num_bytes(&self) -> (r: u64) {
        8
    }

    fn get_value_bytes(&self) -> (r: Vec<u8>) {
        let mut out = Vec::new();
        push_le_bytes(&mut out, self.0 as u64, 8);
        out
    }
}

/// A text.
#[derive(Clone, Debug)]
pub struct GtString(pub String);

impl GtTypes for GtString {
    open spec fn type_byte() -> u8 {
        0x06
    }

    open spec fn length(&self) -> Option<usize> {
        Some(vstd::utf8::encode_utf8(self.0@).len() as usize)
    }

    open spec fn num_bytes(&self) -> nat {
        8 + vstd::utf8::encode_utf8(self.0@).len()
    }

    open spec fn value_bytes(&self) -> Seq<u8> {
        vstd::utf8::encode_utf8(self.0@)
    }

    fn get_type_byte() -> (r: u8) {
        0x06
    }

    fn get_length(&self) -> (r: Option<usize>) {
        Some(self.0.as_str().as_bytes().len())
    }

    fn get_num_bytes(&self) -> (r: u64) {
        8 + (self.0.as_str().as_bytes().len() as u64)
    }

    fn get_value_bytes(&self) -> (r: Vec<u8>) {
        vstd::slice::slice_to_vec(self.0.as_str().as_bytes())
    }
}

/// The bytes of a list of booleans: one byte each.
pub open spec fn bool_bytes(items: Seq<bool>) -> Seq<u8> {
    Seq::new(items.len(), |k: int| if items[k] { 1u8 } else { 0u8 })
}

/// A list of booleans.
#[derive(Clone, Debug)]
pub struct VecBool(pub Vec<bool>);

impl GtTypes for VecBool {
    open spec fn type_byte() -> u8 {
        0x07
    }

    open spec fn length(&self) -> Option<usize> {
        Some(self.0@.len() as usize)
    }

    open spec fn num_bytes(&self) -> nat {
        8 + self.0@.len()
    }

    open spec fn value_bytes(&self) -> Seq<u8> {
        bool_bytes(self.0@)
    }

    fn get_type_byte() -> (r: u8) {
        0x07
    }

    fn get_length(&self) -> (r: Option<usize>) {
        Some(self.0.len())
    }

    fn get_num_bytes(&self) -> (r: u64) {
        8 + (self.0.len() as u64)
    }

    fn get_value_bytes(&self) -> (r: Vec<u8>) {
        let mut out: Vec<u8> = Vec::new();
        let mut k: usize = 0;
        while k < self.0.len()
            invariant
                k <= self.0.len(),
                out@ == bool_bytes(self.0@.subrange(0, k as int)),
            decreases self.0.len() - k,
        {
            out.push(if self.0[k] { 1u8 } else { 0u8 });
            assert(out@ =~= bool_bytes(self.0@.subrange(0, k + 1)));
            k += 1;
        }
        assert(self.0@.subrange(0, k as int) =~= self.0@);
        out
    }
}

/// The bytes of a list of integers, each given as the unsigned number with
/// the same bits and written in `width` bytes, the lowest first.
pub open spec fn int_bytes(items: Seq<nat>, width: nat) -> Seq<u8>
    decreases items.len(),
{
    if items.len() == 0 {
        Seq::empty()
    } else {
        int_bytes(items.drop_last(), width) + le_bytes(items.last(), width)
    }
}

/// A list of 16-bit integers.
#[derive(Clone, Debug)]
pub struct VecInt16(pub Vec<i16>);

impl GtTypes for VecInt16 {
    open spec fn type_byte() -> u8 {
        0x08
    }

    open spec fn length(&self) -> Option<usize> {
        Some(self.0@.len() as usize)
    }

    open spec fn num_bytes(&self) -> nat {
        8 + 2 * self.0@.len()
    }

    open spec fn value_bytes(&self) -> Seq<u8> {
        int_bytes(self.0@.map_values(|i: i16| (i as u16) as nat), 2)
    }

    fn get_type_byte() -> (r: u8) {
        0x08
    }

    fn get_length(&self) -> (r: Option<usize>) {
        Some(self.0.len())
    }

    fn get_num_bytes(&self) -> (r: u64) {
        8 + 2 * (self.0.len() as u64)
    }

    fn get_value_bytes(&self) -> (r: Vec<u8>) {
        let ghost items = self.0@.map_values(|i: i16| (i as u16) as nat);
        let mut out: Vec<u8> = Vec::new();
        let mut k: usize = 0;
        while k < self.0.len()
            invariant
                k <= self.0.len(),
                items == self.0@.map_values(|i: i16| (i as u16) as nat),
                out@ == int_bytes(items.subrange(0, k as int), 2),
            decreases self.0.len() - k,
        {
            push_le_bytes(&mut out, (self.0[k] as u16) as u64, 2);
            assert(items.subrange(0, k + 1).drop_last() =~= items.subrange(0, k as int));
            k += 1;
        }
        assert(items.subrange(0, k as int) =~= items);
        out
    }
}

/// A list of 32-bit integers.
#[derive(Clone, Debug)]
pub struct VecInt32(pub Vec<i32>);

impl GtTypes for VecInt32 {
    open spec fn type_byte() -> u8 {
        0x09
    }

    open spec fn length(&self) -> Option<usize> {
        Some(self.0@.len() as usize)
    }

    open spec fn num_bytes(&self) -> nat {
        8 + 4 * self.0@.len()
    }

    open spec fn value_bytes(&self) -> Seq<u8> {
        int_bytes(self.0@.map_values(|i: i32| (i as u32) as nat), 4)
    }

    fn get_type_byte() -> (r: u8) {
        0x09
    }

    fn get_length(&self) -> (r: Option<usize>) {
        Some(self.0.len())
    }

    fn get_num_bytes(&self) -> (r: u64) {
        8 + 4 * (self.0.len() as u64)
    }

    fn get_value_bytes(&self) -> (r: Vec<u8>) {
        let ghost items = self.0@.map_values(|i: i32| (i as u32) as nat);
        let mut out: Vec<u8> = Vec::new();
        let mut k: usize = 0;
        while k < self.0.len()
            invariant
                k <= self.0.len(),
                items == self.0@.map_values(|i: i32| (i as u32) as nat),
                out@ == int_bytes(items.subrange(0, k as int), 4),
            decreases self.0.len() - k,
        {
            push_le_bytes(&mut out, (self.0[k] as u32) as u64, 4);
            assert(items.subrange(0, k + 1).drop_last() =~= items.subrange(0, k as int));
            k += 1;
        }
        assert(items.subrange(0, k as int) =~= items);
        out
    }
}

/// A list of 64-bit integers.
#[derive(Clone, Debug)]
pub struct VecInt64(pub Vec<i64>);

impl GtTypes for VecInt64 {
    open spec fn type_byte() -> u8 {
        0x0a
    }

    open spec fn length(&self) -> Option<usize> {
        Some(self.0@.len() as usize)
    }

    open spec fn num_bytes(&self) -> nat {
        8 + 8 * self.0@.len()
    }

    open spec fn value_bytes(&self) -> Seq<u8> {
        int_bytes(self.0@.map_values(|i: i64| (i as u64) as nat), 8)
    }

    fn get_type_byte() -> (r: u8) {
        0x0a
    }

    fn get_length(&self) -> (r: Option<usize>) {
        Some(self.0.len())
    }

    fn get_num_bytes(&self) -> (r: u64) {
        8 + 8 * (self.0.len() as u64)
    }

    fn get_value_bytes(&self) -> (r: Vec<u8>) {
        let ghost items = self.0@.map_values(|i: i64| (i as u64) as nat);
        let mut out: Vec<u8> = Vec::new();
        let mut k: usize = 0;
        while k < self.0.len()
            invariant
                k <= self.0.len(),
                items == self.0@.map_values(|i: i64| (i as u64) as nat),
                out@ == int_bytes(items.subrange(0, k as int), 8),
            decreases self.0.len() - k,
        {
            push_le_bytes(&mut out, self.0[k] as u64, 8);
            assert(items.subrange(0, k + 1).drop_last() =~= items.subrange(0, k as int));
            k += 1;
        }
        assert(items.subrange(0, k as int) =~= items);
        out
    }
}

/// The bytes of a list of texts, one after the other.
pub open spec fn text_bytes(items: Seq<String>) -> Seq<u8>
    decreases items.len(),
{
    if items.len() == 0 {
        Seq::empty()
    } else {
        text_bytes(items.drop_last()) + vstd::utf8::encode_utf8(items.last()@)
    }
}

/// A list of texts.
#[derive(Clone, Debug)]
pub struct VecString(pub Vec<String>);

impl GtTypes for VecString {
    open spec fn type_byte() -> u8 {
        0x0d
    }

    open spec fn length(&self) -> Option<usize> {
        Some(self.0@.len() as usize)
    }

    open spec fn num_bytes(&self) -> nat {
        8 + 8 * self.0@.len() + text_bytes(self.0@).len()
    }

    open spec fn value_bytes(&self) -> Seq<u8> {
        text_bytes(self.0@)
    }

    fn get_type_byte() -> (r: u8) {
        0x0d
    }

    fn get_length(&self) -> (r: Option<usize>) {
        Some(self.0.len())
    }

    fn get_num_bytes(&self) -> (r: u64) {
        let mut total: u64 = 0;
        let mut k: usize = 0;
        while k < self.0.len()
            invariant
                k <= self.0.len(),
                total == text_bytes(self.0@.subrange(0, k as int)).len(),
                8 + 8 * self.0@.len() + text_bytes(self.0@).len() <= u64::MAX,
                text_bytes(self.0@.subrange(0, k as int)).len() <= text_bytes(self.0@).len(),
            decreases self.0.len() - k,
        {
            proof {
                lemma_text_bytes_prefix(self.0@, k + 1);
                assert(self.0@.subrange(0, k + 1).drop_last() =~= self.0@.subrange(0, k as int));
            }
            total = total + (self.0[k].as_str().as_bytes().len() as u64);
            k += 1;
        }
        assert(self.0@.subrange(0, k as int) =~= self.0@);
        8 + 8 * (self.0.len() as u64) + total
    }

    fn get_value_bytes(&self) -> (r: Vec<u8>) {
        let mut out: Vec<u8> = Vec::new();
        let mut k: usize = 0;
        while k < self.0.len()
            invariant
                k <= self.0.len(),
                out@ == text_bytes(self.0@.subrange(0, k as int)),
            decreases self.0.len() - k,
        {
            let mut bytes = vstd::slice::slice_to_vec(self.0[k].as_str().as_bytes());
            out.append(&mut bytes);
            assert(self.0@.subrange(0, k + 1).drop_last() =~= self.0@.subrange(0, k as int));
            k += 1;
        }
        assert(self.0@.subrange(0, k as int) =~= self.0@);
        out
    }
}

/// The bytes of the first `n` texts are no more than the bytes of all.
pub proof fn lemma_text_bytes_prefix(items: Seq<String>, n: int)
    requires
        0 <= n <= items.len(),
    ensures
        text_bytes(items.subrange(0, n)).len() <= text_bytes(items).len(),
    decreases items.len() - n,
{
    if n < items.len() {
        lemma_text_bytes_prefix(items, n + 1);
        assert(items.subrange(0, n + 1).drop_last() =~= items.subrange(0, n));
    } else {
        assert(items.subrange(0, n) =~= items);
    }
}

/// A pickled Python object, as the bytes of the pickle.
#[derive(Clone, Debug)]
pub struct PickledPythonObject(pub Vec<u8>);

impl GtTypes for PickledPythonObject {
    open spec fn type_byte() -> u8 {
        0x0e
    }

    open spec fn length(&self) -> Option<usize> {
        Some(self.0@.len() as usize)
    }

    open spec fn num_bytes(&self) -> nat {
        8 + self.0@.len()
    }

    open spec fn value_bytes(&self) -> Seq<u8> {
        self.0@
    }

    fn get_type_byte() -> (r: u8) {
        0x0e
    }

    fn get_length(&self) -> (r: Option<usize>) {
        Some(self.0.len())
    }

    fn get_num_bytes(&self) -> (r: u64) {
        8 + (self.0.len() as u64)
    }

    fn get_value_bytes(&self) -> (r: Vec<u8>) {
        vstd::slice::slice_to_vec(self.0.as_slice())
    }
}


impl From<bool> for Bool {
    fn from(value: bool) -> (r: Bool) {
        Bool(value)
    }
}

impl vstd::std_specs::convert::FromSpecImpl<bool> for Bool {
    open spec fn obeys_from_spec() -> bool {
        true
    }

    open spec fn from_spec(value: bool) -> Bool {
        Bool(value)
    }
}

impl From<i16> for Int16 {
    fn from(value: i16) -> (r: Int16) {
        Int16(value)
    }
}

impl vstd::std_specs::convert::FromSpecImpl<i16> for Int16 {
    open spec fn obeys_from_spec() -> bool {
        true
    }

    open spec fn from_spec(value: i16) -> Int16 {
        Int16(value)
    }
}

impl From<i32> for Int32 {
    fn from(value: i32) -> (r: Int32) {
        Int32(value)
    }
}

impl vstd::std_specs::convert::FromSpecImpl<i32> for Int32 {
    open spec fn obeys_from_spec() -> bool {
        true
    }

    open spec fn from_spec(value: i32) -> Int32 {
        Int32(value)
    }
}

impl From<i64> for Int64 {
    fn from(value: i64) -> (r: Int64) {
        Int64(value)
    }
}

impl vstd::std_specs::convert::FromSpecImpl<i64> for Int64 {
    open spec fn obeys_from_spec() -> bool {
        true
    }

    open spec fn from_spec(value: i64) -> Int64 {
        Int64(value)
    }
}

impl From<String> for GtString {
    fn from(value: String) -> (r: GtString) {
        GtString(value)
    }
}

impl vstd::std_specs::convert::FromSpecImpl<String> for GtString {
    open spec fn obeys_from_spec() -> bool {
        true
    }

    open spec fn from_spec(value: String) -> GtString {
        GtString(value)
    }
}

impl From<Vec<bool>> for VecBool {
    fn from(value: Vec<bool>) -> (r: VecBool) {
        VecBool(value)
    }
}

impl vstd::std_specs::convert::FromSpecImpl<Vec<bool>> for VecBool {
    open spec fn obeys_from_spec() -> bool {
        true
    }

    open spec fn from_spec(value: Vec<bool>) -> VecBool {
        VecBool(value)
    }
}

impl From<Vec<i16>> for VecInt16 {
    fn from(value: Vec<i16>) -> (r: VecInt16) {
        VecInt16(value)
    }
}

impl vstd::std_specs::convert::FromSpecImpl<Vec<i16>> for VecInt16 {
    open spec fn obeys_from_spec() -> bool {
        true
    }

    open spec fn from_spec(value: Vec<i16>) -> VecInt16 {
        VecInt16(value)
    }
}

impl From<Vec<i32>> for VecInt32 {
    fn from(value: Vec<i32>) -> (r: VecInt32) {
        VecInt32(value)
    }
}

impl vstd::std_specs::convert::FromSpecImpl<Vec<i32>> for VecInt32 {
    open spec fn obeys_from_spec() -> bool {
        true
    }

    open spec fn from_spec(value: Vec<i32>) -> VecInt32 {
        VecInt32(value)
    }
}

impl From<Vec<i64>> for VecInt64 {
    fn from(value: Vec<i64>) -> (r: VecInt64) {
        VecInt64(value)
    }
}

impl vstd::std_specs::convert::FromSpecImpl<Vec<i64>> for VecInt64 {
    open spec fn obeys_from_spec() -> bool {
        true
    }

    open spec fn from_spec(value: Vec<i64>) -> VecInt64 {
        VecInt64(value)
    }
}

impl From<Vec<String>> for VecString {
    fn from(value: Vec<String>) -> (r: VecString) {
        VecString(value)
    }
}

impl vstd::std_specs::convert::FromSpecImpl<Vec<String>> for VecString {
    open spec fn obeys_from_spec() -> bool {
        true
    }

    open spec fn from_spec(value: Vec<String>) -> VecString {
        VecString(value)
    }
}

impl From<Vec<u8>> for PickledPythonObject {
    fn from(value: Vec<u8>) -> (r: PickledPythonObject) {
        PickledPythonObject(value)
    }
}

impl vstd::std_specs::convert::FromSpecImpl<Vec<u8>> for PickledPythonObject {
    open spec fn obeys_from_spec() -> bool {
        true
    }

    open spec fn from_spec(value: Vec<u8>) -> PickledPythonObject {
        PickledPythonObject(value)
    }
}

} // verus!
