//! Interned strings: the UTF-8 bytes with a trailing NUL for C, which is not
//! counted in the length.
use vstd::prelude::*;
use vstd::utf8::{decode_utf8, encode_utf8, valid_utf8};

verus! {

broadcast use vstd::utf8::group_utf8_lib;

/// Relies on `std::str::from_utf8`: it succeeds exactly on valid UTF-8, and
/// the string it gives has those bytes.
#[verifier::external_body]
fn str_from_utf8(bytes: &[u8]) -> (r: Option<&str>)
    ensures
        match r {
            Some(s) => valid_utf8(bytes@) && encode_utf8(s@) == bytes@,
            None => !valid_utf8(bytes@),
        },
{
    std::str::from_utf8(bytes).ok()
}

pub struct StringEntry {
    length: usize,
    data: Vec<u8>,
}

impl View for StringEntry {
    type V = Seq<char>;

    closed spec fn view(&self) -> Seq<char> {
        decode_utf8(self.data@.subrange(0, self.length as int))
    }
}

impl StringEntry {
    /// The stored bytes are the string's UTF-8 encoding and then a NUL.
    pub closed spec fn wf(&self) -> bool {
        &&& self.data@.len() == self.length + 1
        &&& self.data@[self.length as int] == 0
        &&& valid_utf8(self.data@.subrange(0, self.length as int))
    }

    /// The stored bytes, NUL included.
    pub closed spec fn c_bytes(&self) -> Seq<u8> {
        self.data@
    }

    /// Interns a copy of `string`.
    pub fn new(string: &str) -> (r: StringEntry)
        ensures
            r.wf(),
            r@ == string@,
            r.c_bytes() == encode_utf8(string@).push(0u8),
    {
        let bytes = string.as_bytes();
        let mut data: Vec<u8> = Vec::new();
        crate::wire::append_bytes(&mut data, bytes);
        data.push(0u8);
        let r = StringEntry { length: bytes.len(), data };
        assert(r.data@.subrange(0, r.length as int) =~= encode_utf8(string@));
        r
    }

    /// The length in bytes, without the NUL.
    pub fn len(&self) -> (r: usize)
        requires
            self.wf(),
        ensures
            r == self.c_bytes().len() - 1,
    {
        self.length
    }

    /// The interned string.
    pub fn as_str(&self) -> (r: &str)
        requires
            self.wf(),
        ensures
            r@ == self@,
    {
        let bytes = vstd::slice::slice_subrange(self.data.as_slice(), 0, self.length);
        match str_from_utf8(bytes) {
            Some(s) => {
                proof {
                    assert(encode_utf8(s@) == bytes@);
                    assert(decode_utf8(encode_utf8(s@)) == s@);
                }
                s
            },
            None => {
                proof {
                    assert(false);
                }
                ""
            },
        }
    }
}

} // verus!
