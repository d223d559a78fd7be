//! The type tag of a module file: a primitive type, or an object type named
//! by a string index.
use vstd::prelude::*;
use crate::wire::{consumed, extends, lemma_parse_u32_extends, lemma_short_input_fails, parse_u32, push_u32, read_u32, u32_at, u32_le, lemma_parse_u32_le, lemma_u32_le_parse};

verus! {

/// Index into the module's string table.
pub type StringIndex = u32;

/// Index into the module's bytecode table; a negative value stands for an
/// internal (native) body.
pub type BytecodeIndex = i32;

#[derive(Clone, Copy, Debug, PartialEq, Eq, Structural)]
pub enum MaruTypeTag {
    Unit,
    Bool,
    U8,
    I8,
    U16,
    I16,
    U32,
    I32,
    U64,
    I64,
    F32,
    F64,
    Object(StringIndex),
}

/// The tag byte of each primitive type.
pub open spec fn primitive_code(t: MaruTypeTag) -> u8 {
    match t {
        MaruTypeTag::Unit => 0,
        MaruTypeTag::Bool => 1,
        MaruTypeTag::U8 => 2,
        MaruTypeTag::I8 => 3,
        MaruTypeTag::U16 => 4,
        MaruTypeTag::I16 => 5,
        MaruTypeTag::U32 => 6,
        MaruTypeTag::I32 => 7,
        MaruTypeTag::U64 => 8,
        MaruTypeTag::I64 => 9,
        MaruTypeTag::F32 => 10,
        MaruTypeTag::F64 => 11,
        MaruTypeTag::Object(_) => 12,
    }
}

/// The primitive type whose tag byte is `c` (for `c <= 11`).
pub open spec fn primitive_of(c: u8) -> MaruTypeTag {
    if c == 0 {
        MaruTypeTag::Unit
    } else if c == 1 {
        MaruTypeTag::Bool
    } else if c == 2 {
        MaruTypeTag::U8
    } else if c == 3 {
        MaruTypeTag::I8
    } else if c == 4 {
        MaruTypeTag::U16
    } else if c == 5 {
        MaruTypeTag::I16
    } else if c == 6 {
        MaruTypeTag::U32
    } else if c == 7 {
        MaruTypeTag::I32
    } else if c == 8 {
        MaruTypeTag::U64
    } else if c == 9 {
        MaruTypeTag::I64
    } else if c == 10 {
        MaruTypeTag::F32
    } else {
        MaruTypeTag::F64
    }
}

/// The encoding of a tag: its tag byte, then for an object the `u32` string
/// index.
pub open spec fn tag_bytes(t: MaruTypeTag) -> Seq<u8> {
    match t {
        MaruTypeTag::Object(i) => seq![12u8] + u32_le(i),
        _ => seq![primitive_code(t)],
    }
}

/// Reads a tag off the front of `b`: the tag and what follows it.
pub open spec fn parse_type_tag(b: Seq<u8>) -> Option<(MaruTypeTag, Seq<u8>)> {
    if b.len() == 0 {
        None
    } else if b[0] <= 11 {
        Some((primitive_of(b[0]), b.subrange(1, b.len() as int)))
    } else if b[0] == 12 {
        match parse_u32(b.subrange(1, b.len() as int)) {
            Some((i, r)) => Some((MaruTypeTag::Object(i), r)),
            None => None,
        }
    } else {
        None
    }
}

pub open spec fn type_tag_parser() -> spec_fn(Seq<u8>) -> Option<(MaruTypeTag, Seq<u8>)> {
    |b: Seq<u8>| parse_type_tag(b)
}

pub open spec fn type_tag_encoder() -> spec_fn(MaruTypeTag) -> Seq<u8> {
    |t: MaruTypeTag| tag_bytes(t)
}

/// Every tag is read back from its encoding, with nothing consumed past it.
pub proof fn lemma_type_tag_round_trip(t: MaruTypeTag, rest: Seq<u8>)
    ensures
        parse_type_tag(tag_bytes(t) + rest) == Some((t, rest)),
{
    let b = tag_bytes(t) + rest;
    match t {
        MaruTypeTag::Object(i) => {
            assert(b.subrange(1, b.len() as int) =~= u32_le(i) + rest);
            lemma_parse_u32_le(i, rest);
        },
        _ => {
            assert(b.subrange(1, b.len() as int) =~= rest);
        },
    }
}

/// A tag read off `b` is written back as exactly the bytes it took.
pub proof fn lemma_type_tag_writes_back(b: Seq<u8>)
    ensures
        match parse_type_tag(b) {
            Some((t, r)) => tag_bytes(t) + r == b,
            None => true,
        },
{
    if b.len() > 0 && b[0] <= 11 {
        assert(tag_bytes(primitive_of(b[0])) + b.subrange(1, b.len() as int) =~= b);
    } else if b.len() > 0 && b[0] == 12 {
        let tail = b.subrange(1, b.len() as int);
        if tail.len() >= 4 {
            lemma_u32_le_parse(tail);
            assert(tag_bytes(MaruTypeTag::Object(u32_at(tail, 0))) + tail.subrange(4, tail.len() as int) =~= b);
        }
    }
}

pub proof fn lemma_type_tag_reads_back_all()
    ensures
        forall|t: MaruTypeTag| crate::wire::reads_back(type_tag_parser(), type_tag_encoder(), t),
{
    assert forall|t: MaruTypeTag| crate::wire::reads_back(type_tag_parser(), type_tag_encoder(), t) by {
        assert forall|rest: Seq<u8>| #[trigger] (type_tag_parser())((type_tag_encoder())(t) + rest) == Some((t, rest)) by {
            lemma_type_tag_round_trip(t, rest);
        }
    }
}

pub proof fn lemma_type_tag_writes_back_all()
    ensures
        forall|b: Seq<u8>| #[trigger] crate::wire::writes_back(type_tag_parser(), type_tag_encoder(), b),
{
    assert forall|b: Seq<u8>| #[trigger] crate::wire::writes_back(type_tag_parser(), type_tag_encoder(), b) by {
        lemma_type_tag_writes_back(b);
    }
}

/// Bytes appended after a tag do not change how it reads.
pub proof fn lemma_type_tag_extends(b: Seq<u8>, s: Seq<u8>)
    ensures
        extends(type_tag_parser(), b, s),
{
    if b.len() > 0 {
        assert((b + s)[0] == b[0]);
        let t = b.subrange(1, b.len() as int);
        assert((b + s).subrange(1, (b + s).len() as int) =~= t + s);
        lemma_parse_u32_extends(t, s);
    }
}

pub proof fn lemma_type_tag_extends_all()
    ensures
        forall|b: Seq<u8>, s: Seq<u8>| #[trigger] extends(type_tag_parser(), b, s),
{
    assert forall|b: Seq<u8>, s: Seq<u8>| #[trigger] extends(type_tag_parser(), b, s) by {
        lemma_type_tag_extends(b, s);
    }
}

/// A tag cut short of the bytes it takes does not decode.
pub proof fn lemma_type_tag_truncated(b: Seq<u8>, k: int)
    requires
        0 <= k < consumed(parse_type_tag(b), b),
    ensures
        parse_type_tag(b.subrange(0, k)) is None,
{
    lemma_type_tag_extends(b.subrange(0, k), b.subrange(k, b.len() as int));
    lemma_short_input_fails(type_tag_parser(), b, k);
}

/// The decimal digit `d`, for `0 <= d < 10`.
pub open spec fn digit_char(d: int) -> char {
    if d == 0 {
        '0'
    } else if d == 1 {
        '1'
    } else if d == 2 {
        '2'
    } else if d == 3 {
        '3'
    } else if d == 4 {
        '4'
    } else if d == 5 {
        '5'
    } else if d == 6 {
        '6'
    } else if d == 7 {
        '7'
    } else if d == 8 {
        '8'
    } else {
        '9'
    }
}

/// The decimal text of `n`, without leading zeros.
pub open spec fn decimal(n: u8) -> Seq<char> {
    let v = n as int;
    if v >= 100 {
        seq![digit_char(v / 100), digit_char((v / 10) % 10), digit_char(v % 10)]
    } else if v >= 10 {
        seq![digit_char(v / 10), digit_char(v % 10)]
    } else {
        seq![digit_char(v)]
    }
}

/// The message with which a tag fails to read off `b`: the input is empty,
/// an object tag is cut short, or the tag byte names no type.
pub open spec fn type_tag_error(b: Seq<u8>) -> Seq<char> {
    if b.len() == 0 {
        "Binary is too short to contain a valid MaruTypeTag"@
    } else if b[0] == 12 {
        "Binary is too short to contain a valid MaruTypeTag::Object"@
    } else {
        "Unknown MaruTypeTag tag: "@ + decimal(b[0])
    }
}

pub open spec fn type_tag_error_fn() -> spec_fn(Seq<u8>) -> Seq<char> {
    |b: Seq<u8>| type_tag_error(b)
}

/// The decimal text of `d`, a single digit.
fn digit_text(d: u8) -> (r: &'static str)
    requires
        d < 10,
    ensures
        r@ == seq![digit_char(d as int)],
{
    proof {
        reveal_strlit("0");
        reveal_strlit("1");
        reveal_strlit("2");
        reveal_strlit("3");
        reveal_strlit("4");
        reveal_strlit("5");
        reveal_strlit("6");
        reveal_strlit("7");
        reveal_strlit("8");
        reveal_strlit("9");
    }
    match d {
        0 => "0",
        1 => "1",
        2 => "2",
        3 => "3",
        4 => "4",
        5 => "5",
        6 => "6",
        7 => "7",
        8 => "8",
        _ => "9",
    }
}

/// The message for a tag byte that names no type.
fn unknown_tag_message(tag: u8) -> (r: String)
    ensures
        r@ == "Unknown MaruTypeTag tag: "@ + decimal(tag),
{
    let mut s = String::from_str("Unknown MaruTypeTag tag: ");
    let ghost prefix = s@;
    if tag >= 100 {
        s.append(digit_text(tag / 100));
    }
    if tag >= 10 {
        s.append(digit_text((tag / 10) % 10));
    }
    s.append(digit_text(tag % 10));
    assert(s@ =~= prefix + decimal(tag));
    s
}

impl MaruTypeTag {
    /// Appends the encoding of this tag.
    pub(crate) fn write_to(&self, out: &mut Vec<u8>)
        ensures
            final(out)@ == old(out)@ + tag_bytes(*self),
    {
        let ghost start = out@;
        match self {
            MaruTypeTag::Object(index) => {
                out.push(12u8);
                push_u32(out, *index);
                assert(out@ =~= start + tag_bytes(*self));
            },
            MaruTypeTag::Unit => out.push(0u8),
            MaruTypeTag::Bool => out.push(1u8),
            MaruTypeTag::U8 => out.push(2u8),
            MaruTypeTag::I8 => out.push(3u8),
            MaruTypeTag::U16 => out.push(4u8),
            MaruTypeTag::I16 => out.push(5u8),
            MaruTypeTag::U32 => out.push(6u8),
            MaruTypeTag::I32 => out.push(7u8),
            MaruTypeTag::U64 => out.push(8u8),
            MaruTypeTag::I64 => out.push(9u8),
            MaruTypeTag::F32 => out.push(10u8),
            MaruTypeTag::F64 => out.push(11u8),
        }
        assert(out@ =~= start + tag_bytes(*self));
    }

    /// The encoding of this tag.
    pub fn into_binary(self) -> (r: Vec<u8>)
        ensures
            r@ == tag_bytes(self),
    {
        let mut out = Vec::new();
        self.write_to(&mut out);
        assert(out@ =~= tag_bytes(self));
        out
    }

    /// Reads a tag off the front of `binary`, and returns it with the bytes
    /// that follow it. Fails on empty input, an unknown tag byte, or an
    /// object tag cut short.
    pub fn from_binary(binary: &[u8]) -> (r: Result<(MaruTypeTag, &[u8]), String>)
        ensures
            match r {
                Ok((t, rest)) => parse_type_tag(binary@) == Some((t, rest@)),
                Err(e) => parse_type_tag(binary@) is None && e@ == type_tag_error(binary@),
            },
    {
        if binary.len() == 0 {
            return Err(String::from_str("Binary is too short to contain a valid MaruTypeTag"));
        }
        let tag = binary[0];
        let t = match tag {
            0 => MaruTypeTag::Unit,
            1 => MaruTypeTag::Bool,
            2 => MaruTypeTag::U8,
            3 => MaruTypeTag::I8,
            4 => MaruTypeTag::U16,
            5 => MaruTypeTag::I16,
            6 => MaruTypeTag::U32,
            7 => MaruTypeTag::I32,
            8 => MaruTypeTag::U64,
            9 => MaruTypeTag::I64,
            10 => MaruTypeTag::F32,
            11 => MaruTypeTag::F64,
            12 => {
                if binary.len() < 5 {
                    return Err(
                        String::from_str("Binary is too short to contain a valid MaruTypeTag::Object"),
                    );
                }
                let index = read_u32(binary, 1);
                let rest = vstd::slice::slice_subrange(binary, 5, binary.len());
                proof {
                    let tail = binary@.subrange(1, binary@.len() as int);
                    assert(tail.subrange(4, tail.len() as int) =~= rest@);
                    assert(u32_at(tail, 0) == index);
                }
                return Ok((MaruTypeTag::Object(index), rest));
            },
            _ => return Err(unknown_tag_message(tag)),
        };
        let rest = vstd::slice::slice_subrange(binary, 1, binary.len());
        Ok((t, rest))
    }
}

} // verus!
