//! A fixed-size page of raw bytes, with big-endian integer access.

use vstd::prelude::*;

verus! {

/// A page: an owned buffer of raw bytes.
#[derive(Debug, PartialEq)]
pub struct Page {
    data: Vec<u8>,
}

/// Failure to decode a value out of a page.
#[derive(Debug, Clone, PartialEq)]
pub enum PageDecodeError {
    UnexpectedEof,
    InvalidPageSize(String),
    InvalidBytes,
}

impl View for Page {
    type V = Seq<u8>;

    closed spec fn view(&self) -> Seq<u8> {
        self.data@
    }
}

impl Page {
    pub fn new(data: Vec<u8>) -> (p: Page)
        ensures
            p@ == data@,
    {
        Page { data }
    }

    pub fn zeros(page_size: usize) -> (p: Page)
        ensures
            p@.len() == page_size,
            forall|i: int| 0 <= i < page_size ==> p@[i] == 0u8,
    {
        Page::full(0, page_size)
    }

    pub fn full(value: u8, page_size: usize) -> (p: Page)
        ensures
            p@.len() == page_size,
            forall|i: int| 0 <= i < page_size ==> p@[i] == value,
    {
        let mut data: Vec<u8> = Vec::new();
        let mut i: usize = 0;
        while i < page_size
            invariant
                i <= page_size,
                data@.len() == i,
                forall|j: int| 0 <= j < i ==> data@[j] == value,
            decreases page_size - i,
        {
            data.push(value);
            i = i + 1;
        }
        Page { data }
    }

    pub fn as_bytes(&self) -> (r: &[u8])
        ensures
            r@ == self@,
    {
        self.data.as_slice()
    }

    /// Reads the big-endian 32-bit integer stored at `offset`, or
    /// `UnexpectedEof` exactly when the four bytes do not fit the page.
    pub fn read_u32(&self, offset: usize) -> (r: Result<u32, PageDecodeError>)
        ensures
            offset + 4 <= self@.len() ==> r == Result::<u32, PageDecodeError>::Ok(
                be_u32_at(self@, offset as int),
            ),
            offset + 4 > self@.len() ==> r == Result::<u32, PageDecodeError>::Err(
                PageDecodeError::UnexpectedEof,
            ),
    {
        if self.data.len() >= 4 && offset <= self.data.len() - 4 {
            Ok(be_read_u32(&self.data, offset))
        } else {
            Err(PageDecodeError::UnexpectedEof)
        }
    }

    /// Stores `value` as four big-endian bytes at `offset`, leaving every
    /// other byte unchanged, or fails with `UnexpectedEof` exactly when
    /// the four bytes do not fit the page.
    pub fn write_u32(&mut self, offset: usize, value: u32) -> (r: Result<(), PageDecodeError>)
        ensures
            offset + 4 <= old(self)@.len() ==> {
                &&& r is Ok
                &&& final(self)@.len() == old(self)@.len()
                &&& forall|i: int|
                    0 <= i < old(self)@.len() && !(offset <= i < offset + 4) ==> final(self)@[i]
                        == old(self)@[i]
                &&& forall|i: int| 0 <= i < 4 ==> final(self)@[offset + i] == be_byte(value, i)
                &&& be_u32_at(final(self)@, offset as int) == value
            },
            offset + 4 > old(self)@.len() ==> {
                &&& r == Result::<(), PageDecodeError>::Err(PageDecodeError::UnexpectedEof)
                &&& final(self)@ == old(self)@
            },
    {
        if self.data.len() >= 4 && offset <= self.data.len() - 4 {
            be_write_u32(&mut self.data, offset, value);
            proof {
                lemma_be_u32_roundtrip(self.data@, offset as int, value);
            }
            Ok(())
        } else {
            Err(PageDecodeError::UnexpectedEof)
        }
    }
}

/// The big-endian 32-bit integer formed by the four bytes at `off`.
pub open spec fn be_u32_at(b: Seq<u8>, off: int) -> u32 {
    ((b[off] as u32) << 24) | ((b[off + 1] as u32) << 16) | ((b[off + 2] as u32) << 8) | (b[off
        + 3] as u32)
}

/// Byte `i` of the big-endian representation of `v`, most significant
/// first.
pub open spec fn be_byte(v: u32, i: int) -> u8 {
    if i == 0 {
        (v >> 24) as u8
    } else if i == 1 {
        (v >> 16) as u8
    } else if i == 2 {
        (v >> 8) as u8
    } else {
        v as u8
    }
}

/// Reading back the four big-endian bytes of `v` yields `v` again.
pub proof fn lemma_be_u32_roundtrip(b: Seq<u8>, off: int, v: u32)
    requires
        0 <= off,
        off + 4 <= b.len(),
        forall|i: int| 0 <= i < 4 ==> b[off + i] == be_byte(v, i),
    ensures
        be_u32_at(b, off) == v,
{
    assert(b[off] == be_byte(v, 0));
    assert(b[off + 1] == be_byte(v, 1));
    assert(b[off + 2] == be_byte(v, 2));
    assert(b[off + 3] == be_byte(v, 3));
    assert((((v >> 24) as u8 as u32) << 24) | (((v >> 16) as u8 as u32) << 16) | (((v >> 8) as u8
        as u32) << 8) | (v as u8 as u32) == v) by (bit_vector);
}

/// Relies on byteorder's `BigEndian::read_u32`: it returns the first
/// four bytes of the slice as one big-endian unsigned 32-bit integer,
/// and panics when fewer than four bytes are given.
#[verifier::external_body]
fn be_read_u32(data: &Vec<u8>, offset: usize) -> (r: u32)
    requires
        offset + 4 <= data@.len(),
    ensures
        r == be_u32_at(data@, offset as int),
{
    <byteorder::BigEndian as byteorder::ByteOrder>::read_u32(&data[offset..])
}

/// Relies on byteorder's `BigEndian::write_u32`: it stores the four
/// big-endian bytes of `value` at the front of the slice, touches
/// nothing else, and panics when fewer than four bytes are given.
#[verifier::external_body]
fn be_write_u32(data: &mut Vec<u8>, offset: usize, value: u32)
    requires
        offset + 4 <= old(data)@.len(),
    ensures
        final(data)@.len() == old(data)@.len(),
        forall|i: int|
            0 <= i < old(data)@.len() && !(offset <= i < offset + 4) ==> final(data)@[i] == old(
                data,
            )@[i],
        forall|i: int| 0 <= i < 4 ==> final(data)@[offset + i] == be_byte(value, i),
{
    <byteorder::BigEndian as byteorder::ByteOrder>::write_u32(&mut data[offset..], value);
}

} // verus!
