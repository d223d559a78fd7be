//! The records of a module file: object types with their variants,
//! functions, globals and source locations.
use vstd::prelude::*;
use crate::type_tag::{
    lemma_type_tag_reads_back_all, lemma_type_tag_round_trip, lemma_type_tag_writes_back,
    parse_type_tag, tag_bytes, type_tag_encoder, type_tag_parser, BytecodeIndex, MaruTypeTag,
    StringIndex,
};
use crate::wire::{
    encode_list, i32_le, lemma_encode_parse_list, lemma_i32_le_parse, lemma_parse_encode_list,
    lemma_parse_i32_le, lemma_parse_list_fails, lemma_parse_u32_le, lemma_u32_le_parse,
    parse_i32, parse_list, parse_u32, push_i32, push_u32, reads_back, take_i32, take_u32, u32_at,
    u32_le, writes_back, consumed, extends, lemma_parse_i32_extends,
    lemma_parse_list_extends, lemma_parse_u32_extends, lemma_short_input_fails, counted_error,
    lemma_list_error, list_error,
};
use crate::type_tag::{
    lemma_type_tag_extends, lemma_type_tag_extends_all, type_tag_error, type_tag_error_fn,
};

verus! {

/// A variant of a sum type.
pub struct MaruVariant {
    /// The name of the variant.
    pub name: StringIndex,
    /// The name of the variant once monomorphized.
    pub mono_name: StringIndex,
    /// The members in declaration order: each a name and a type.
    pub members: Vec<(StringIndex, MaruTypeTag)>,
}

/// What a [`MaruVariant`] holds.
pub struct VariantView {
    pub name: StringIndex,
    pub mono_name: StringIndex,
    pub members: Seq<(StringIndex, MaruTypeTag)>,
}

impl View for MaruVariant {
    type V = VariantView;

    open spec fn view(&self) -> VariantView {
        VariantView { name: self.name, mono_name: self.mono_name, members: self.members@ }
    }
}

/// A member: its name, then its type tag.
pub open spec fn member_bytes(m: (StringIndex, MaruTypeTag)) -> Seq<u8> {
    u32_le(m.0) + tag_bytes(m.1)
}

pub open spec fn parse_member(b: Seq<u8>) -> Option<((StringIndex, MaruTypeTag), Seq<u8>)> {
    match parse_u32(b) {
        Some((name, b1)) => match parse_type_tag(b1) {
            Some((t, r)) => Some(((name, t), r)),
            None => None,
        },
        None => None,
    }
}

pub open spec fn member_parser() -> spec_fn(Seq<u8>) -> Option<((StringIndex, MaruTypeTag), Seq<u8>)> {
    |b: Seq<u8>| parse_member(b)
}

pub open spec fn member_encoder() -> spec_fn((StringIndex, MaruTypeTag)) -> Seq<u8> {
    |m: (StringIndex, MaruTypeTag)| member_bytes(m)
}

/// A variant: name, monomorphized name, member count, then the members.
pub open spec fn variant_bytes(v: VariantView) -> Seq<u8> {
    u32_le(v.name) + u32_le(v.mono_name) + u32_le(v.members.len() as u32) + encode_list(
        member_encoder(),
        v.members,
    )
}

pub open spec fn parse_variant(b: Seq<u8>) -> Option<(VariantView, Seq<u8>)> {
    match parse_u32(b) {
        Some((name, b1)) => match parse_u32(b1) {
            Some((mono_name, b2)) => match parse_u32(b2) {
                Some((n, b3)) => match parse_list(member_parser(), b3, n as nat) {
                    Some((members, r)) => Some(
                        (VariantView { name, mono_name, members }, r),
                    ),
                    None => None,
                },
                None => None,
            },
            None => None,
        },
        None => None,
    }
}

/// A variant can be written: its member count fits the `u32` prefix.
pub open spec fn variant_fits(v: VariantView) -> bool {
    v.members.len() <= u32::MAX
}

pub open spec fn variant_parser() -> spec_fn(Seq<u8>) -> Option<(VariantView, Seq<u8>)> {
    |b: Seq<u8>| parse_variant(b)
}

pub open spec fn variant_encoder() -> spec_fn(VariantView) -> Seq<u8> {
    |v: VariantView| variant_bytes(v)
}

pub proof fn lemma_member_reads_back(m: (StringIndex, MaruTypeTag))
    ensures
        reads_back(member_parser(), member_encoder(), m),
{
    assert forall|rest: Seq<u8>| #[trigger]
        (member_parser())((member_encoder())(m) + rest) == Some((m, rest)) by {
        assert(member_bytes(m) + rest =~= u32_le(m.0) + (tag_bytes(m.1) + rest));
        lemma_parse_u32_le(m.0, tag_bytes(m.1) + rest);
        lemma_type_tag_round_trip(m.1, rest);
    }
}

pub proof fn lemma_member_writes_back(b: Seq<u8>)
    ensures
        writes_back(member_parser(), member_encoder(), b),
{
    if b.len() >= 4 {
        let b1 = b.subrange(4, b.len() as int);
        lemma_u32_le_parse(b);
        lemma_type_tag_writes_back(b1);
        match parse_type_tag(b1) {
            Some((t, r)) => {
                assert(member_bytes((u32_at(b, 0), t)) + r =~= u32_le(
                    u32_at(b, 0),
                ) + (tag_bytes(t) + r));
            },
            None => {},
        }
    }
}

/// Every variant that can be written is read back from its encoding.
pub proof fn lemma_variant_round_trip(v: VariantView, rest: Seq<u8>)
    requires
        variant_fits(v),
    ensures
        parse_variant(variant_bytes(v) + rest) == Some((v, rest)),
{
    let n = v.members.len() as u32;
    let ms = encode_list(member_encoder(), v.members);
    assert(variant_bytes(v) + rest =~= u32_le(v.name) + (u32_le(v.mono_name) + (u32_le(n) + (ms
        + rest))));
    lemma_parse_u32_le(v.name, u32_le(v.mono_name) + (u32_le(n) + (ms + rest)));
    lemma_parse_u32_le(v.mono_name, u32_le(n) + (ms + rest));
    lemma_parse_u32_le(n, ms + rest);
    assert forall|i: int| 0 <= i < v.members.len() implies reads_back(
        member_parser(),
        member_encoder(),
        #[trigger] v.members[i],
    ) by {
        lemma_member_reads_back(v.members[i]);
    }
    lemma_parse_encode_list(member_parser(), member_encoder(), v.members, rest);
}

/// A variant read off `b` is written back as exactly the bytes it took.
pub proof fn lemma_variant_writes_back(b: Seq<u8>)
    ensures
        writes_back(variant_parser(), variant_encoder(), b),
        match parse_variant(b) {
            Some((v, _)) => variant_fits(v),
            None => true,
        },
{
    if b.len() >= 12 {
        let b1 = b.subrange(4, b.len() as int);
        let b2 = b1.subrange(4, b1.len() as int);
        let b3 = b2.subrange(4, b2.len() as int);
        lemma_u32_le_parse(b);
        lemma_u32_le_parse(b1);
        lemma_u32_le_parse(b2);
        let n = u32_at(b2, 0);
        assert forall|b4: Seq<u8>| #[trigger] writes_back(member_parser(), member_encoder(), b4) by {
            lemma_member_writes_back(b4);
        }
        lemma_encode_parse_list(member_parser(), member_encoder(), b3, n as nat);
        match parse_list(member_parser(), b3, n as nat) {
            Some((members, r)) => {
                let v = VariantView { name: u32_at(b, 0), mono_name: u32_at(b1, 0), members };
                assert(variant_bytes(v) + r =~= u32_le(v.name) + (u32_le(v.mono_name) + (u32_le(n)
                    + (encode_list(member_encoder(), members) + r))));
            },
            None => {},
        }
    }
}

/// The message with which a member fails to read off `b`.
pub open spec fn member_error(b: Seq<u8>) -> Seq<char> {
    match parse_u32(b) {
        Some((_, b1)) => type_tag_error(b1),
        None => "Binary is too short to contain a valid MaruVariant member"@,
    }
}

pub open spec fn member_error_fn() -> spec_fn(Seq<u8>) -> Seq<char> {
    |b: Seq<u8>| member_error(b)
}

/// The message with which a variant fails to read off `b`: its header is
/// cut short, or that of its first member that fails.
pub open spec fn variant_error(b: Seq<u8>) -> Seq<char> {
    match parse_u32(b) {
        Some((_, b1)) => match parse_u32(b1) {
            Some((_, b2)) => counted_error(
                member_parser(),
                member_error_fn(),
                "Binary is too short to contain a valid MaruVariant"@,
                b2,
            ),
            None => "Binary is too short to contain a valid MaruVariant"@,
        },
        None => "Binary is too short to contain a valid MaruVariant"@,
    }
}

pub open spec fn variant_error_fn() -> spec_fn(Seq<u8>) -> Seq<char> {
    |b: Seq<u8>| variant_error(b)
}

impl MaruVariant {
    /// Appends the encoding of this variant.
    pub(crate) fn write_to(&self, out: &mut Vec<u8>)
        requires
            variant_fits(self@),
        ensures
            final(out)@ == old(out)@ + variant_bytes(self@),
    {
        let ghost start = out@;
        push_u32(out, self.name);
        push_u32(out, self.mono_name);
        push_u32(out, self.members.len() as u32);
        let ghost head = out@;
        let mut i: usize = 0;
        while i < self.members.len()
            invariant
                i <= self.members@.len(),
                out@ == head + encode_list(member_encoder(), self.members@.subrange(0, i as int)),
            decreases self.members@.len() - i,
        {
            let (name, tag) = self.members[i];
            push_u32(out, name);
            tag.write_to(out);
            proof {
                let xs = self.members@.subrange(0, i + 1);
                assert(xs.drop_last() =~= self.members@.subrange(0, i as int));
            }
            i = i + 1;
            assert(out@ =~= head + encode_list(member_encoder(), self.members@.subrange(0, i as int)));
        }
        assert(self.members@.subrange(0, i as int) =~= self.members@);
        assert(out@ =~= start + variant_bytes(self@));
    }

    /// The encoding of this variant. Its member count must fit the `u32`
    /// prefix.
    pub fn into_binary(self) -> (r: Vec<u8>)
        requires
            variant_fits(self@),
        ensures
            r@ == variant_bytes(self@),
    {
        let mut out = Vec::new();
        self.write_to(&mut out);
        assert(out@ =~= variant_bytes(self@));
        out
    }

    /// Reads a variant off the front of `binary`, and returns it with the
    /// bytes that follow it.
    pub fn from_binary(binary: &[u8]) -> (r: Result<(MaruVariant, &[u8]), String>)
        ensures
            match r {
                Ok((v, rest)) => parse_variant(binary@) == Some((v@, rest@)),
                Err(e) => parse_variant(binary@) is None && e@ == variant_error(binary@),
            },
    {
        if binary.len() < 12 {
            return Err(String::from_str("Binary is too short to contain a valid MaruVariant"));
        }
        let (name, b1) = take_u32(binary);
        let (mono_name, b2) = take_u32(b1);
        let (members_len, b3) = take_u32(b2);
        let mut cur = b3;
        let mut members: Vec<(StringIndex, MaruTypeTag)> = Vec::new();
        let mut i: u32 = 0;
        while i < members_len
            invariant
                i <= members_len,
                parse_u32(binary@) == Some((name, b1@)),
                parse_u32(b1@) == Some((mono_name, b2@)),
                parse_u32(b2@) == Some((members_len, b3@)),
                parse_list(member_parser(), b3@, i as nat) == Some((members@, cur@)),
            decreases members_len - i,
        {
            if cur.len() < 4 {
                proof {
                    lemma_list_error(member_parser(), member_error_fn(), b3@, i as nat, members_len as nat, cur@);
                }
                return Err(
                    String::from_str("Binary is too short to contain a valid MaruVariant member"),
                );
            }
            let (member_name, tail) = take_u32(cur);
            match MaruTypeTag::from_binary(tail) {
                Ok((tag, rest)) => {
                    members.push((member_name, tag));
                    cur = rest;
                },
                Err(e) => {
                    proof {
                        lemma_list_error(member_parser(), member_error_fn(), b3@, i as nat, members_len as nat, cur@);
                    }
                    return Err(e);
                },
            }
            i = i + 1;
        }
        Ok((MaruVariant { name, mono_name, members }, cur))
    }
}

/// An object type: a sum type with its variants.
pub struct MaruObject {
    /// The name of the type, such as `Option<T>`.
    pub name: StringIndex,
    /// The name of the type once monomorphized, such as `Option<i32>`; the
    /// same as `name` where nothing was substituted.
    pub mono_name: StringIndex,
    pub variants: Vec<MaruVariant>,
    /// `0` for a type of the program, any other value for an internal type.
    /// The exact value is kept.
    pub internal: u32,
}

/// What a [`MaruObject`] holds.
pub struct ObjectView {
    pub name: StringIndex,
    pub mono_name: StringIndex,
    pub variants: Seq<VariantView>,
    pub internal: u32,
}

impl View for MaruObject {
    type V = ObjectView;

    open spec fn view(&self) -> ObjectView {
        ObjectView {
            name: self.name,
            mono_name: self.mono_name,
            variants: self.variants@.map_values(|v: MaruVariant| v@),
            internal: self.internal,
        }
    }
}

/// An object: name, monomorphized name, variant count, the variants, then
/// the `internal` field.
pub open spec fn object_bytes(o: ObjectView) -> Seq<u8> {
    u32_le(o.name) + u32_le(o.mono_name) + u32_le(o.variants.len() as u32) + encode_list(
        variant_encoder(),
        o.variants,
    ) + u32_le(o.internal)
}

pub open spec fn parse_object(b: Seq<u8>) -> Option<(ObjectView, Seq<u8>)> {
    match parse_u32(b) {
        Some((name, b1)) => match parse_u32(b1) {
            Some((mono_name, b2)) => match parse_u32(b2) {
                Some((n, b3)) => match parse_list(variant_parser(), b3, n as nat) {
                    Some((variants, b4)) => match parse_u32(b4) {
                        Some((internal, r)) => Some(
                            (ObjectView { name, mono_name, variants, internal }, r),
                        ),
                        None => None,
                    },
                    None => None,
                },
                None => None,
            },
            None => None,
        },
        None => None,
    }
}

/// An object can be written: every count fits its `u32` prefix.
pub open spec fn object_fits(o: ObjectView) -> bool {
    &&& o.variants.len() <= u32::MAX
    &&& forall|i: int| 0 <= i < o.variants.len() ==> variant_fits(#[trigger] o.variants[i])
}

pub open spec fn object_parser() -> spec_fn(Seq<u8>) -> Option<(ObjectView, Seq<u8>)> {
    |b: Seq<u8>| parse_object(b)
}

pub open spec fn object_encoder() -> spec_fn(ObjectView) -> Seq<u8> {
    |o: ObjectView| object_bytes(o)
}

/// Every object that can be written is read back from its encoding.
pub proof fn lemma_object_round_trip(o: ObjectView, rest: Seq<u8>)
    requires
        object_fits(o),
    ensures
        parse_object(object_bytes(o) + rest) == Some((o, rest)),
{
    let n = o.variants.len() as u32;
    let vs = encode_list(variant_encoder(), o.variants);
    let tail = u32_le(o.internal) + rest;
    assert(object_bytes(o) + rest =~= u32_le(o.name) + (u32_le(o.mono_name) + (u32_le(n) + (vs
        + tail))));
    lemma_parse_u32_le(o.name, u32_le(o.mono_name) + (u32_le(n) + (vs + tail)));
    lemma_parse_u32_le(o.mono_name, u32_le(n) + (vs + tail));
    lemma_parse_u32_le(n, vs + tail);
    assert forall|i: int| 0 <= i < o.variants.len() implies reads_back(
        variant_parser(),
        variant_encoder(),
        #[trigger] o.variants[i],
    ) by {
        assert forall|r: Seq<u8>| #[trigger]
            (variant_parser())((variant_encoder())(o.variants[i]) + r) == Some((o.variants[i], r)) by {
            lemma_variant_round_trip(o.variants[i], r);
        }
    }
    lemma_parse_encode_list(variant_parser(), variant_encoder(), o.variants, tail);
    lemma_parse_u32_le(o.internal, rest);
}

/// An object read off `b` is written back as exactly the bytes it took.
pub proof fn lemma_object_writes_back(b: Seq<u8>)
    ensures
        writes_back(object_parser(), object_encoder(), b),
        match parse_object(b) {
            Some((o, _)) => object_fits(o),
            None => true,
        },
{
    if b.len() >= 12 {
        let b1 = b.subrange(4, b.len() as int);
        let b2 = b1.subrange(4, b1.len() as int);
        let b3 = b2.subrange(4, b2.len() as int);
        lemma_u32_le_parse(b);
        lemma_u32_le_parse(b1);
        lemma_u32_le_parse(b2);
        let n = u32_at(b2, 0);
        assert forall|b4: Seq<u8>| #[trigger] writes_back(variant_parser(), variant_encoder(), b4) by {
            lemma_variant_writes_back(b4);
        }
        lemma_encode_parse_list(variant_parser(), variant_encoder(), b3, n as nat);
        match parse_list(variant_parser(), b3, n as nat) {
            Some((variants, b4)) => {
                if b4.len() >= 4 {
                    lemma_u32_le_parse(b4);
                    let r = b4.subrange(4, b4.len() as int);
                    let o = ObjectView {
                        name: u32_at(b, 0),
                        mono_name: u32_at(b1, 0),
                        variants,
                        internal: u32_at(b4, 0),
                    };
                    assert(object_bytes(o) + r =~= u32_le(o.name) + (u32_le(o.mono_name) + (u32_le(
                        n,
                    ) + (encode_list(variant_encoder(), variants) + (u32_le(o.internal) + r)))));
                    assert forall|i: int| 0 <= i < variants.len() implies variant_fits(
                        #[trigger] variants[i],
                    ) by {
                        lemma_parse_list_items_fit(b3, n as nat, i);
                    }
                }
            },
            None => {},
        }
    }
}

/// Each variant of a variant list read off `b` can be written.
proof fn lemma_parse_list_items_fit(b: Seq<u8>, n: nat, i: int)
    ensures
        match parse_list(variant_parser(), b, n) {
            Some((vs, _)) => 0 <= i < vs.len() ==> variant_fits(vs[i]),
            None => true,
        },
    decreases n,
{
    if n > 0 {
        lemma_parse_list_items_fit(b, (n - 1) as nat, i);
        match parse_list(variant_parser(), b, (n - 1) as nat) {
            Some((xs, r)) => {
                lemma_variant_writes_back(r);
            },
            None => {},
        }
    }
}

/// The message with which an object fails to read off `b`: its header is
/// cut short, that of its first variant that fails, or its `internal` field
/// is cut short.
pub open spec fn object_error(b: Seq<u8>) -> Seq<char> {
    match parse_u32(b) {
        Some((_, b1)) => match parse_u32(b1) {
            Some((_, b2)) => match parse_u32(b2) {
                Some((n, b3)) => match parse_list(variant_parser(), b3, n as nat) {
                    Some(_) => "Binary is too short to contain a valid MaruObject internal field"@,
                    None => list_error(variant_parser(), variant_error_fn(), b3, n as nat),
                },
                None => "Binary is too short to contain a valid MaruObject"@,
            },
            None => "Binary is too short to contain a valid MaruObject"@,
        },
        None => "Binary is too short to contain a valid MaruObject"@,
    }
}

pub open spec fn object_error_fn() -> spec_fn(Seq<u8>) -> Seq<char> {
    |b: Seq<u8>| object_error(b)
}

impl MaruObject {
    /// Appends the encoding of this object.
    pub(crate) fn write_to(&self, out: &mut Vec<u8>)
        requires
            object_fits(self@),
        ensures
            final(out)@ == old(out)@ + object_bytes(self@),
    {
        let ghost start = out@;
        let ghost vs = self@.variants;
        push_u32(out, self.name);
        push_u32(out, self.mono_name);
        push_u32(out, self.variants.len() as u32);
        let ghost head = out@;
        let mut i: usize = 0;
        while i < self.variants.len()
            invariant
                i <= self.variants@.len(),
                vs == self@.variants,
                object_fits(self@),
                out@ == head + encode_list(variant_encoder(), vs.subrange(0, i as int)),
            decreases self.variants@.len() - i,
        {
            assert(vs[i as int] == self.variants@[i as int]@);
            self.variants[i].write_to(out);
            proof {
                let xs = vs.subrange(0, i + 1);
                assert(xs.drop_last() =~= vs.subrange(0, i as int));
            }
            i = i + 1;
            assert(out@ =~= head + encode_list(variant_encoder(), vs.subrange(0, i as int)));
        }
        assert(vs.subrange(0, i as int) =~= vs);
        push_u32(out, self.internal);
        assert(out@ =~= start + object_bytes(self@));
    }

    /// The encoding of this object. Every count in it must fit its `u32`
    /// prefix.
    pub fn into_binary(self) -> (r: Vec<u8>)
        requires
            object_fits(self@),
        ensures
            r@ == object_bytes(self@),
    {
        let mut out = Vec::new();
        self.write_to(&mut out);
        assert(out@ =~= object_bytes(self@));
        out
    }

    /// Reads an object off the front of `binary`, and returns it with the
    /// bytes that follow it.
    pub fn from_binary(binary: &[u8]) -> (r: Result<(MaruObject, &[u8]), String>)
        ensures
            match r {
                Ok((o, rest)) => parse_object(binary@) == Some((o@, rest@)),
                Err(e) => parse_object(binary@) is None && e@ == object_error(binary@),
            },
    {
        if binary.len() < 12 {
            return Err(String::from_str("Binary is too short to contain a valid MaruObject"));
        }
        let (name, b1) = take_u32(binary);
        let (mono_name, b2) = take_u32(b1);
        let (variants_len, b3) = take_u32(b2);
        let mut cur = b3;
        let mut variants: Vec<MaruVariant> = Vec::new();
        let mut i: u32 = 0;
        while i < variants_len
            invariant
                i <= variants_len,
                parse_u32(binary@) == Some((name, b1@)),
                parse_u32(b1@) == Some((mono_name, b2@)),
                parse_u32(b2@) == Some((variants_len, b3@)),
                parse_list(variant_parser(), b3@, i as nat) == Some(
                    (variants@.map_values(|v: MaruVariant| v@), cur@),
                ),
            decreases variants_len - i,
        {
            match MaruVariant::from_binary(cur) {
                Ok((v, rest)) => {
                    let ghost before = variants@;
                    variants.push(v);
                    assert(variants@.map_values(|v: MaruVariant| v@) =~= before.map_values(
                        |v: MaruVariant| v@,
                    ).push(v@));
                    cur = rest;
                },
                Err(e) => {
                    proof {
                        lemma_list_error(variant_parser(), variant_error_fn(), b3@, i as nat, variants_len as nat, cur@);
                    }
                    return Err(e);
                },
            }
            i = i + 1;
        }
        if cur.len() < 4 {
            return Err(
                String::from_str("Binary is too short to contain a valid MaruObject internal field"),
            );
        }
        let (internal, rest) = take_u32(cur);
        Ok((MaruObject { name, mono_name, variants, internal }, rest))
    }
}

/// A function of the module.
pub struct MaruFunction {
    /// The name of the function, such as `main`.
    pub name: StringIndex,
    /// The name of the function once monomorphized; the same as `name`
    /// where nothing was substituted.
    pub mono_name: StringIndex,
    pub parameters: Vec<MaruTypeTag>,
    pub return_type: MaruTypeTag,
    /// Index of the body in the bytecode table; negative for an internal
    /// function.
    pub bytecode_index: BytecodeIndex,
    /// Number of registers of a frame: parameters plus locals.
    pub variables: u32,
}

/// What a [`MaruFunction`] holds.
pub struct FunctionView {
    pub name: StringIndex,
    pub mono_name: StringIndex,
    pub parameters: Seq<MaruTypeTag>,
    pub return_type: MaruTypeTag,
    pub bytecode_index: BytecodeIndex,
    pub variables: u32,
}

impl View for MaruFunction {
    type V = FunctionView;

    open spec fn view(&self) -> FunctionView {
        FunctionView {
            name: self.name,
            mono_name: self.mono_name,
            parameters: self.parameters@,
            return_type: self.return_type,
            bytecode_index: self.bytecode_index,
            variables: self.variables,
        }
    }
}

/// A function: name, monomorphized name, parameter count, the parameter
/// tags, the return tag, the bytecode index and the register count.
pub open spec fn function_bytes(f: FunctionView) -> Seq<u8> {
    u32_le(f.name) + u32_le(f.mono_name) + u32_le(f.parameters.len() as u32) + encode_list(
        type_tag_encoder(),
        f.parameters,
    ) + tag_bytes(f.return_type) + i32_le(f.bytecode_index) + u32_le(f.variables)
}

pub open spec fn parse_function(b: Seq<u8>) -> Option<(FunctionView, Seq<u8>)> {
    match parse_u32(b) {
        Some((name, b1)) => match parse_u32(b1) {
            Some((mono_name, b2)) => match parse_u32(b2) {
                Some((n, b3)) => match parse_list(type_tag_parser(), b3, n as nat) {
                    Some((parameters, b4)) => match parse_type_tag(b4) {
                        Some((return_type, b5)) => match parse_i32(b5) {
                            Some((bytecode_index, b6)) => match parse_u32(b6) {
                                Some((variables, r)) => Some(
                                    (
                                        FunctionView {
                                            name,
                                            mono_name,
                                            parameters,
                                            return_type,
                                            bytecode_index,
                                            variables,
                                        },
                                        r,
                                    ),
                                ),
                                None => None,
                            },
                            None => None,
                        },
                        None => None,
                    },
                    None => None,
                },
                None => None,
            },
            None => None,
        },
        None => None,
    }
}

/// A function can be written: its parameter count fits the `u32` prefix.
pub open spec fn function_fits(f: FunctionView) -> bool {
    f.parameters.len() <= u32::MAX
}

pub open spec fn function_parser() -> spec_fn(Seq<u8>) -> Option<(FunctionView, Seq<u8>)> {
    |b: Seq<u8>| parse_function(b)
}

pub open spec fn function_encoder() -> spec_fn(FunctionView) -> Seq<u8> {
    |f: FunctionView| function_bytes(f)
}

/// Every function that can be written is read back from its encoding.
pub proof fn lemma_function_round_trip(f: FunctionView, rest: Seq<u8>)
    requires
        function_fits(f),
    ensures
        parse_function(function_bytes(f) + rest) == Some((f, rest)),
{
    let n = f.parameters.len() as u32;
    let ps = encode_list(type_tag_encoder(), f.parameters);
    let t3 = u32_le(f.variables) + rest;
    let t2 = i32_le(f.bytecode_index) + t3;
    let t1 = tag_bytes(f.return_type) + t2;
    assert(function_bytes(f) + rest =~= u32_le(f.name) + (u32_le(f.mono_name) + (u32_le(n) + (ps
        + t1))));
    lemma_parse_u32_le(f.name, u32_le(f.mono_name) + (u32_le(n) + (ps + t1)));
    lemma_parse_u32_le(f.mono_name, u32_le(n) + (ps + t1));
    lemma_parse_u32_le(n, ps + t1);
    lemma_type_tag_reads_back_all();
    assert(forall|i: int|
        0 <= i < f.parameters.len() ==> reads_back(
            type_tag_parser(),
            type_tag_encoder(),
            #[trigger] f.parameters[i],
        ));
    lemma_parse_encode_list(type_tag_parser(), type_tag_encoder(), f.parameters, t1);
    lemma_type_tag_round_trip(f.return_type, t2);
    lemma_parse_i32_le(f.bytecode_index, t3);
    lemma_parse_u32_le(f.variables, rest);
}

/// The fields after a function's parameters, read off `b`, are written
/// back as exactly the bytes they took.
proof fn lemma_function_tail_writes_back(b: Seq<u8>)
    ensures
        match parse_type_tag(b) {
            Some((return_type, b5)) => match parse_i32(b5) {
                Some((bytecode_index, b6)) => match parse_u32(b6) {
                    Some((variables, r)) => tag_bytes(return_type) + i32_le(bytecode_index)
                        + u32_le(variables) + r == b,
                    None => true,
                },
                None => true,
            },
            None => true,
        },
{
    lemma_type_tag_writes_back(b);
    match parse_type_tag(b) {
        Some((return_type, b5)) => {
            if b5.len() >= 8 {
                lemma_i32_le_parse(b5);
                let b6 = b5.subrange(4, b5.len() as int);
                lemma_u32_le_parse(b6);
                let r = b6.subrange(4, b6.len() as int);
                assert(tag_bytes(return_type) + i32_le(crate::wire::i32_at(b5, 0)) + u32_le(
                    u32_at(b6, 0),
                ) + r =~= tag_bytes(return_type) + (i32_le(crate::wire::i32_at(b5, 0)) + (u32_le(
                    u32_at(b6, 0),
                ) + r)));
            }
        },
        None => {},
    }
}

/// A function read off `b` is written back as exactly the bytes it took.
#[verifier::rlimit(40)]
pub proof fn lemma_function_writes_back(b: Seq<u8>)
    ensures
        writes_back(function_parser(), function_encoder(), b),
        match parse_function(b) {
            Some((f, _)) => function_fits(f),
            None => true,
        },
{
    if b.len() >= 12 {
        let b1 = b.subrange(4, b.len() as int);
        let b2 = b1.subrange(4, b1.len() as int);
        let b3 = b2.subrange(4, b2.len() as int);
        lemma_u32_le_parse(b);
        lemma_u32_le_parse(b1);
        lemma_u32_le_parse(b2);
        let n = u32_at(b2, 0);
        crate::type_tag::lemma_type_tag_writes_back_all();
        lemma_encode_parse_list(type_tag_parser(), type_tag_encoder(), b3, n as nat);
        match parse_list(type_tag_parser(), b3, n as nat) {
            Some((parameters, b4)) => {
                lemma_function_tail_writes_back(b4);
                match parse_function(b) {
                    Some((f, r)) => {
                        let tail = tag_bytes(f.return_type) + i32_le(f.bytecode_index) + u32_le(
                            f.variables,
                        ) + r;
                        assert(tail == b4);
                        assert(function_bytes(f) + r =~= u32_le(f.name) + (u32_le(f.mono_name) + (
                        u32_le(n) + (encode_list(type_tag_encoder(), parameters) + tail))));
                    },
                    None => {},
                }
            },
            None => {},
        }
    }
}

/// The message with which a function fails to read off `b`: its header is
/// cut short, that of its first parameter tag or of its return tag that
/// fails, or its last two fields are cut short.
pub open spec fn function_error(b: Seq<u8>) -> Seq<char> {
    match parse_u32(b) {
        Some((_, b1)) => match parse_u32(b1) {
            Some((_, b2)) => match parse_u32(b2) {
                Some((n, b3)) => match parse_list(type_tag_parser(), b3, n as nat) {
                    Some((_, b4)) => match parse_type_tag(b4) {
                        Some(_) => "Binary is too short to contain a valid MaruFunction trailing fields"@,
                        None => type_tag_error(b4),
                    },
                    None => list_error(type_tag_parser(), type_tag_error_fn(), b3, n as nat),
                },
                None => "Binary is too short to contain a valid MaruFunction"@,
            },
            None => "Binary is too short to contain a valid MaruFunction"@,
        },
        None => "Binary is too short to contain a valid MaruFunction"@,
    }
}

pub open spec fn function_error_fn() -> spec_fn(Seq<u8>) -> Seq<char> {
    |b: Seq<u8>| function_error(b)
}

impl MaruFunction {
    /// Appends the encoding of this function.
    pub(crate) fn write_to(&self, out: &mut Vec<u8>)
        requires
            function_fits(self@),
        ensures
            final(out)@ == old(out)@ + function_bytes(self@),
    {
        let ghost start = out@;
        let ghost ps = self@.parameters;
        push_u32(out, self.name);
        push_u32(out, self.mono_name);
        push_u32(out, self.parameters.len() as u32);
        let ghost head = out@;
        let mut i: usize = 0;
        while i < self.parameters.len()
            invariant
                i <= ps.len(),
                ps == self.parameters@,
                out@ == head + encode_list(type_tag_encoder(), ps.subrange(0, i as int)),
            decreases ps.len() - i,
        {
            self.parameters[i].write_to(out);
            proof {
                let xs = ps.subrange(0, i + 1);
                assert(xs.drop_last() =~= ps.subrange(0, i as int));
            }
            i = i + 1;
            assert(out@ =~= head + encode_list(type_tag_encoder(), ps.subrange(0, i as int)));
        }
        assert(ps.subrange(0, i as int) =~= ps);
        self.return_type.write_to(out);
        push_i32(out, self.bytecode_index);
        push_u32(out, self.variables);
        assert(out@ =~= start + function_bytes(self@));
    }

    /// The encoding of this function. Its parameter count must fit the
    /// `u32` prefix.
    pub fn into_binary(self) -> (r: Vec<u8>)
        requires
            function_fits(self@),
        ensures
            r@ == function_bytes(self@),
    {
        let mut out = Vec::new();
        self.write_to(&mut out);
        assert(out@ =~= function_bytes(self@));
        out
    }

    /// Reads a function off the front of `binary`, and returns it with the
    /// bytes that follow it.
    pub fn from_binary(binary: &[u8]) -> (r: Result<(MaruFunction, &[u8]), String>)
        ensures
            match r {
                Ok((f, rest)) => parse_function(binary@) == Some((f@, rest@)),
                Err(e) => parse_function(binary@) is None && e@ == function_error(binary@),
            },
    {
        if binary.len() < 12 {
            return Err(String::from_str("Binary is too short to contain a valid MaruFunction"));
        }
        let (name, b1) = take_u32(binary);
        let (mono_name, b2) = take_u32(b1);
        let (parameters_len, b3) = take_u32(b2);
        let mut cur = b3;
        let mut parameters: Vec<MaruTypeTag> = Vec::new();
        let mut i: u32 = 0;
        while i < parameters_len
            invariant
                i <= parameters_len,
                parse_u32(binary@) == Some((name, b1@)),
                parse_u32(b1@) == Some((mono_name, b2@)),
                parse_u32(b2@) == Some((parameters_len, b3@)),
                parse_list(type_tag_parser(), b3@, i as nat) == Some((parameters@, cur@)),
            decreases parameters_len - i,
        {
            match MaruTypeTag::from_binary(cur) {
                Ok((t, rest)) => {
                    parameters.push(t);
                    cur = rest;
                },
                Err(e) => {
                    proof {
                        lemma_list_error(type_tag_parser(), type_tag_error_fn(), b3@, i as nat, parameters_len as nat, cur@);
                    }
                    return Err(e);
                },
            }
            i = i + 1;
        }
        let (return_type, b5) = match MaruTypeTag::from_binary(cur) {
            Ok(x) => x,
            Err(e) => {
                return Err(e);
            },
        };
        if b5.len() < 8 {
            return Err(
                String::from_str(
                    "Binary is too short to contain a valid MaruFunction trailing fields",
                ),
            );
        }
        let (bytecode_index, b6) = take_i32(b5);
        let (variables, rest) = take_u32(b6);
        Ok((
            MaruFunction { name, mono_name, parameters, return_type, bytecode_index, variables },
            rest,
        ))
    }
}

/// A global variable of the module.
#[derive(Clone, Copy, Debug, PartialEq, Eq, Structural)]
pub struct MaruGlobal {
    pub name: StringIndex,
    pub type_tag: MaruTypeTag,
    /// Index of the initializer in the bytecode table; negative where the
    /// global is resolved outside the module.
    pub init_index: BytecodeIndex,
}

/// A global: name, type tag, initializer index.
pub open spec fn global_bytes(g: MaruGlobal) -> Seq<u8> {
    u32_le(g.name) + tag_bytes(g.type_tag) + i32_le(g.init_index)
}

pub open spec fn parse_global(b: Seq<u8>) -> Option<(MaruGlobal, Seq<u8>)> {
    match parse_u32(b) {
        Some((name, b1)) => match parse_type_tag(b1) {
            Some((type_tag, b2)) => match parse_i32(b2) {
                Some((init_index, r)) => Some((MaruGlobal { name, type_tag, init_index }, r)),
                None => None,
            },
            None => None,
        },
        None => None,
    }
}

pub open spec fn global_parser() -> spec_fn(Seq<u8>) -> Option<(MaruGlobal, Seq<u8>)> {
    |b: Seq<u8>| parse_global(b)
}

pub open spec fn global_encoder() -> spec_fn(MaruGlobal) -> Seq<u8> {
    |g: MaruGlobal| global_bytes(g)
}

/// Every global is read back from its encoding.
pub proof fn lemma_global_round_trip(g: MaruGlobal, rest: Seq<u8>)
    ensures
        parse_global(global_bytes(g) + rest) == Some((g, rest)),
{
    let t2 = i32_le(g.init_index) + rest;
    assert(global_bytes(g) + rest =~= u32_le(g.name) + (tag_bytes(g.type_tag) + t2));
    lemma_parse_u32_le(g.name, tag_bytes(g.type_tag) + t2);
    lemma_type_tag_round_trip(g.type_tag, t2);
    lemma_parse_i32_le(g.init_index, rest);
}

/// A global read off `b` is written back as exactly the bytes it took.
pub proof fn lemma_global_writes_back(b: Seq<u8>)
    ensures
        writes_back(global_parser(), global_encoder(), b),
{
    if b.len() >= 4 {
        let b1 = b.subrange(4, b.len() as int);
        lemma_u32_le_parse(b);
        lemma_type_tag_writes_back(b1);
        match parse_type_tag(b1) {
            Some((t, b2)) => {
                if b2.len() >= 4 {
                    lemma_i32_le_parse(b2);
                    let r = b2.subrange(4, b2.len() as int);
                    let g = MaruGlobal {
                        name: u32_at(b, 0),
                        type_tag: t,
                        init_index: crate::wire::i32_at(b2, 0),
                    };
                    assert(global_bytes(g) + r =~= u32_le(g.name) + (tag_bytes(t) + (i32_le(
                        g.init_index,
                    ) + r)));
                }
            },
            None => {},
        }
    }
}

/// The message with which a global fails to read off `b`: its name is cut
/// short, that of its type tag, or its initializer index is cut short.
pub open spec fn global_error(b: Seq<u8>) -> Seq<char> {
    match parse_u32(b) {
        Some((_, b1)) => match parse_type_tag(b1) {
            Some(_) => "Binary is too short to contain a valid MaruGlobal init_index"@,
            None => type_tag_error(b1),
        },
        None => "Binary is too short to contain a valid MaruGlobal"@,
    }
}

pub open spec fn global_error_fn() -> spec_fn(Seq<u8>) -> Seq<char> {
    |b: Seq<u8>| global_error(b)
}

impl MaruGlobal {
    /// Appends the encoding of this global.
    pub(crate) fn write_to(&self, out: &mut Vec<u8>)
        ensures
            final(out)@ == old(out)@ + global_bytes(*self),
    {
        let ghost start = out@;
        push_u32(out, self.name);
        self.type_tag.write_to(out);
        push_i32(out, self.init_index);
        assert(out@ =~= start + global_bytes(*self));
    }

    /// The encoding of this global.
    pub fn into_binary(self) -> (r: Vec<u8>)
        ensures
            r@ == global_bytes(self),
    {
        let mut out = Vec::new();
        self.write_to(&mut out);
        assert(out@ =~= global_bytes(self));
        out
    }

    /// Reads a global off the front of `binary`, and returns it with the
    /// bytes that follow it.
    pub fn from_binary(binary: &[u8]) -> (r: Result<(MaruGlobal, &[u8]), String>)
        ensures
            match r {
                Ok((g, rest)) => parse_global(binary@) == Some((g, rest@)),
                Err(e) => parse_global(binary@) is None && e@ == global_error(binary@),
            },
    {
        if binary.len() < 4 {
            return Err(String::from_str("Binary is too short to contain a valid MaruGlobal"));
        }
        let (name, b1) = take_u32(binary);
        let (type_tag, b2) = match MaruTypeTag::from_binary(b1) {
            Ok(x) => x,
            Err(e) => {
                return Err(e);
            },
        };
        if b2.len() < 4 {
            return Err(
                String::from_str("Binary is too short to contain a valid MaruGlobal init_index"),
            );
        }
        let (init_index, rest) = take_i32(b2);
        Ok((MaruGlobal { name, type_tag, init_index }, rest))
    }
}

/// The source locations of one bytecode entry.
pub struct MaruLocation {
    pub file: StringIndex,
    /// `(start, end)` spans, in order.
    pub locations: Vec<(u32, u32)>,
}

/// What a [`MaruLocation`] holds.
pub struct LocationView {
    pub file: StringIndex,
    pub locations: Seq<(u32, u32)>,
}

impl View for MaruLocation {
    type V = LocationView;

    open spec fn view(&self) -> LocationView {
        LocationView { file: self.file, locations: self.locations@ }
    }
}

pub open spec fn span_bytes(s: (u32, u32)) -> Seq<u8> {
    u32_le(s.0) + u32_le(s.1)
}

pub open spec fn parse_span(b: Seq<u8>) -> Option<((u32, u32), Seq<u8>)> {
    match parse_u32(b) {
        Some((start, b1)) => match parse_u32(b1) {
            Some((end, r)) => Some(((start, end), r)),
            None => None,
        },
        None => None,
    }
}

pub open spec fn span_parser() -> spec_fn(Seq<u8>) -> Option<((u32, u32), Seq<u8>)> {
    |b: Seq<u8>| parse_span(b)
}

pub open spec fn span_encoder() -> spec_fn((u32, u32)) -> Seq<u8> {
    |s: (u32, u32)| span_bytes(s)
}

/// A location: file, span count, then the spans.
pub open spec fn location_bytes(l: LocationView) -> Seq<u8> {
    u32_le(l.file) + u32_le(l.locations.len() as u32) + encode_list(span_encoder(), l.locations)
}

pub open spec fn parse_location(b: Seq<u8>) -> Option<(LocationView, Seq<u8>)> {
    match parse_u32(b) {
        Some((file, b1)) => match parse_u32(b1) {
            Some((n, b2)) => match parse_list(span_parser(), b2, n as nat) {
                Some((locations, r)) => Some((LocationView { file, locations }, r)),
                None => None,
            },
            None => None,
        },
        None => None,
    }
}

/// A location can be written: its span count fits the `u32` prefix.
pub open spec fn location_fits(l: LocationView) -> bool {
    l.locations.len() <= u32::MAX
}

pub open spec fn location_parser() -> spec_fn(Seq<u8>) -> Option<(LocationView, Seq<u8>)> {
    |b: Seq<u8>| parse_location(b)
}

pub open spec fn location_encoder() -> spec_fn(LocationView) -> Seq<u8> {
    |l: LocationView| location_bytes(l)
}

proof fn lemma_span_reads_back_all()
    ensures
        forall|s: (u32, u32)| reads_back(span_parser(), span_encoder(), s),
        forall|b: Seq<u8>| #[trigger] writes_back(span_parser(), span_encoder(), b),
{
    assert forall|s: (u32, u32)| reads_back(span_parser(), span_encoder(), s) by {
        assert forall|rest: Seq<u8>| #[trigger]
            (span_parser())((span_encoder())(s) + rest) == Some((s, rest)) by {
            assert(span_bytes(s) + rest =~= u32_le(s.0) + (u32_le(s.1) + rest));
            lemma_parse_u32_le(s.0, u32_le(s.1) + rest);
            lemma_parse_u32_le(s.1, rest);
        }
    }
    assert forall|b: Seq<u8>| #[trigger] writes_back(span_parser(), span_encoder(), b) by {
        if b.len() >= 8 {
            let b1 = b.subrange(4, b.len() as int);
            lemma_u32_le_parse(b);
            lemma_u32_le_parse(b1);
            let r = b1.subrange(4, b1.len() as int);
            assert(span_bytes((u32_at(b, 0), u32_at(b1, 0))) + r =~= u32_le(u32_at(b, 0)) + (
            u32_le(u32_at(b1, 0)) + r));
        }
    }
}

/// Every location that can be written is read back from its encoding.
pub proof fn lemma_location_round_trip(l: LocationView, rest: Seq<u8>)
    requires
        location_fits(l),
    ensures
        parse_location(location_bytes(l) + rest) == Some((l, rest)),
{
    let n = l.locations.len() as u32;
    let ss = encode_list(span_encoder(), l.locations);
    assert(location_bytes(l) + rest =~= u32_le(l.file) + (u32_le(n) + (ss + rest)));
    lemma_parse_u32_le(l.file, u32_le(n) + (ss + rest));
    lemma_parse_u32_le(n, ss + rest);
    lemma_span_reads_back_all();
    assert(forall|i: int|
        0 <= i < l.locations.len() ==> reads_back(
            span_parser(),
            span_encoder(),
            #[trigger] l.locations[i],
        ));
    lemma_parse_encode_list(span_parser(), span_encoder(), l.locations, rest);
}

/// A location read off `b` is written back as exactly the bytes it took.
pub proof fn lemma_location_writes_back(b: Seq<u8>)
    ensures
        writes_back(location_parser(), location_encoder(), b),
        match parse_location(b) {
            Some((l, _)) => location_fits(l),
            None => true,
        },
{
    if b.len() >= 8 {
        let b1 = b.subrange(4, b.len() as int);
        let b2 = b1.subrange(4, b1.len() as int);
        lemma_u32_le_parse(b);
        lemma_u32_le_parse(b1);
        let n = u32_at(b1, 0);
        lemma_span_reads_back_all();
        lemma_encode_parse_list(span_parser(), span_encoder(), b2, n as nat);
        match parse_list(span_parser(), b2, n as nat) {
            Some((locations, r)) => {
                let l = LocationView { file: u32_at(b, 0), locations };
                assert(location_bytes(l) + r =~= u32_le(l.file) + (u32_le(n) + (encode_list(
                    span_encoder(),
                    locations,
                ) + r)));
            },
            None => {},
        }
    }
}

impl MaruLocation {
    pub fn new(file: StringIndex, locations: Vec<(u32, u32)>) -> (r: MaruLocation)
        ensures
            r@ == (LocationView { file, locations: locations@ }),
    {
        MaruLocation { file, locations }
    }

    /// Adds the span `start..end` after the others.
    pub fn add_location(&mut self, start: u32, end: u32)
        ensures
            final(self)@ == (LocationView {
                file: old(self)@.file,
                locations: old(self)@.locations.push((start, end)),
            }),
    {
        self.locations.push((start, end));
    }

    /// Appends the encoding of this location.
    pub(crate) fn write_to(&self, out: &mut Vec<u8>)
        requires
            location_fits(self@),
        ensures
            final(out)@ == old(out)@ + location_bytes(self@),
    {
        let ghost start = out@;
        let ghost ss = self@.locations;
        push_u32(out, self.file);
        push_u32(out, self.locations.len() as u32);
        let ghost head = out@;
        let mut i: usize = 0;
        while i < self.locations.len()
            invariant
                i <= ss.len(),
                ss == self.locations@,
                out@ == head + encode_list(span_encoder(), ss.subrange(0, i as int)),
            decreases ss.len() - i,
        {
            let (s, e) = self.locations[i];
            push_u32(out, s);
            push_u32(out, e);
            proof {
                let xs = ss.subrange(0, i + 1);
                assert(xs.drop_last() =~= ss.subrange(0, i as int));
            }
            i = i + 1;
            assert(out@ =~= head + encode_list(span_encoder(), ss.subrange(0, i as int)));
        }
        assert(ss.subrange(0, i as int) =~= ss);
        assert(out@ =~= start + location_bytes(self@));
    }

    /// The encoding of this location. Its span count must fit the `u32`
    /// prefix.
    pub fn into_binary(self) -> (r: Vec<u8>)
        requires
            location_fits(self@),
        ensures
            r@ == location_bytes(self@),
    {
        let mut out = Vec::new();
        self.write_to(&mut out);
        assert(out@ =~= location_bytes(self@));
        out
    }

    /// Reads a location off the front of `binary`, and returns it with the
    /// bytes that follow it.
    pub fn from_binary(binary: &[u8]) -> (r: Result<(MaruLocation, &[u8]), String>)
        ensures
            match r {
                Ok((l, rest)) => parse_location(binary@) == Some((l@, rest@)),
                Err(e) => parse_location(binary@) is None && e@
                    == "Binary is too short to contain a valid MaruLocation"@,
            },
    {
        if binary.len() < 8 {
            return Err(String::from_str("Binary is too short to contain a valid MaruLocation"));
        }
        let (file, b1) = take_u32(binary);
        let (locations_len, b2) = take_u32(b1);
        let mut cur = b2;
        let mut locations: Vec<(u32, u32)> = Vec::new();
        let mut i: u32 = 0;
        while i < locations_len
            invariant
                i <= locations_len,
                parse_u32(binary@) == Some((file, b1@)),
                parse_u32(b1@) == Some((locations_len, b2@)),
                parse_list(span_parser(), b2@, i as nat) == Some((locations@, cur@)),
            decreases locations_len - i,
        {
            if cur.len() < 8 {
                proof {
                    lemma_parse_list_fails(span_parser(), b2@, (i + 1) as nat, locations_len as nat);
                }
                return Err(String::from_str("Binary is too short to contain a valid MaruLocation"));
            }
            let (start, c1) = take_u32(cur);
            let (end, rest) = take_u32(c1);
            locations.push((start, end));
            cur = rest;
            i = i + 1;
        }
        Ok((MaruLocation { file, locations }, cur))
    }
}

/// Bytes appended after a member do not change how it reads.
proof fn lemma_member_extends(b: Seq<u8>, s: Seq<u8>)
    ensures
        extends(member_parser(), b, s),
{
    lemma_parse_u32_extends(b, s);
    match parse_u32(b) {
        Some((_, b1)) => lemma_type_tag_extends(b1, s),
        None => {},
    }
}

/// Bytes appended after a variant do not change how it reads.
pub proof fn lemma_variant_extends(b: Seq<u8>, s: Seq<u8>)
    ensures
        extends(variant_parser(), b, s),
{
    assert forall|b2: Seq<u8>, s2: Seq<u8>| #[trigger] extends(member_parser(), b2, s2) by {
        lemma_member_extends(b2, s2);
    }
    lemma_parse_u32_extends(b, s);
    if let Some((_, b1)) = parse_u32(b) {
        lemma_parse_u32_extends(b1, s);
        if let Some((_, b2)) = parse_u32(b1) {
            lemma_parse_u32_extends(b2, s);
            if let Some((n, b3)) = parse_u32(b2) {
                lemma_parse_list_extends(member_parser(), b3, s, n as nat);
            }
        }
    }
}

/// Bytes appended after an object do not change how it reads.
pub proof fn lemma_object_extends(b: Seq<u8>, s: Seq<u8>)
    ensures
        extends(object_parser(), b, s),
{
    assert forall|b2: Seq<u8>, s2: Seq<u8>| #[trigger] extends(variant_parser(), b2, s2) by {
        lemma_variant_extends(b2, s2);
    }
    lemma_parse_u32_extends(b, s);
    if let Some((_, b1)) = parse_u32(b) {
        lemma_parse_u32_extends(b1, s);
        if let Some((_, b2)) = parse_u32(b1) {
            lemma_parse_u32_extends(b2, s);
            if let Some((n, b3)) = parse_u32(b2) {
                lemma_parse_list_extends(variant_parser(), b3, s, n as nat);
                if let Some((_, b4)) = parse_list(variant_parser(), b3, n as nat) {
                    lemma_parse_u32_extends(b4, s);
                }
            }
        }
    }
}

/// Bytes appended after a function do not change how it reads.
pub proof fn lemma_function_extends(b: Seq<u8>, s: Seq<u8>)
    ensures
        extends(function_parser(), b, s),
{
    lemma_type_tag_extends_all();
    lemma_parse_u32_extends(b, s);
    if let Some((_, b1)) = parse_u32(b) {
        lemma_parse_u32_extends(b1, s);
        if let Some((_, b2)) = parse_u32(b1) {
            lemma_parse_u32_extends(b2, s);
            if let Some((n, b3)) = parse_u32(b2) {
                lemma_parse_list_extends(type_tag_parser(), b3, s, n as nat);
                if let Some((_, b4)) = parse_list(type_tag_parser(), b3, n as nat) {
                    lemma_type_tag_extends(b4, s);
                    if let Some((_, b5)) = parse_type_tag(b4) {
                        lemma_parse_i32_extends(b5, s);
                        if let Some((_, b6)) = parse_i32(b5) {
                            lemma_parse_u32_extends(b6, s);
                        }
                    }
                }
            }
        }
    }
}

/// Bytes appended after a global do not change how it reads.
pub proof fn lemma_global_extends(b: Seq<u8>, s: Seq<u8>)
    ensures
        extends(global_parser(), b, s),
{
    lemma_parse_u32_extends(b, s);
    if let Some((_, b1)) = parse_u32(b) {
        lemma_type_tag_extends(b1, s);
        if let Some((_, b2)) = parse_type_tag(b1) {
            lemma_parse_i32_extends(b2, s);
        }
    }
}

/// Bytes appended after a location do not change how it reads.
pub proof fn lemma_location_extends(b: Seq<u8>, s: Seq<u8>)
    ensures
        extends(location_parser(), b, s),
{
    assert forall|b2: Seq<u8>, s2: Seq<u8>| #[trigger] extends(span_parser(), b2, s2) by {
        lemma_parse_u32_extends(b2, s2);
        if let Some((_, b3)) = parse_u32(b2) {
            lemma_parse_u32_extends(b3, s2);
        }
    }
    lemma_parse_u32_extends(b, s);
    if let Some((_, b1)) = parse_u32(b) {
        lemma_parse_u32_extends(b1, s);
        if let Some((n, b2)) = parse_u32(b1) {
            lemma_parse_list_extends(span_parser(), b2, s, n as nat);
        }
    }
}

/// A variant cut short of the bytes it takes does not decode.
pub proof fn lemma_variant_truncated(b: Seq<u8>, k: int)
    requires
        0 <= k < consumed(parse_variant(b), b),
    ensures
        parse_variant(b.subrange(0, k)) is None,
{
    lemma_variant_extends(b.subrange(0, k), b.subrange(k, b.len() as int));
    lemma_short_input_fails(variant_parser(), b, k);
}

/// An object cut short of the bytes it takes does not decode.
pub proof fn lemma_object_truncated(b: Seq<u8>, k: int)
    requires
        0 <= k < consumed(parse_object(b), b),
    ensures
        parse_object(b.subrange(0, k)) is None,
{
    lemma_object_extends(b.subrange(0, k), b.subrange(k, b.len() as int));
    lemma_short_input_fails(object_parser(), b, k);
}

/// A function cut short of the bytes it takes does not decode.
pub proof fn lemma_function_truncated(b: Seq<u8>, k: int)
    requires
        0 <= k < consumed(parse_function(b), b),
    ensures
        parse_function(b.subrange(0, k)) is None,
{
    lemma_function_extends(b.subrange(0, k), b.subrange(k, b.len() as int));
    lemma_short_input_fails(function_parser(), b, k);
}

/// A global cut short of the bytes it takes does not decode.
pub proof fn lemma_global_truncated(b: Seq<u8>, k: int)
    requires
        0 <= k < consumed(parse_global(b), b),
    ensures
        parse_global(b.subrange(0, k)) is None,
{
    lemma_global_extends(b.subrange(0, k), b.subrange(k, b.len() as int));
    lemma_short_input_fails(global_parser(), b, k);
}

/// A location cut short of the bytes it takes does not decode.
pub proof fn lemma_location_truncated(b: Seq<u8>, k: int)
    requires
        0 <= k < consumed(parse_location(b), b),
    ensures
        parse_location(b.subrange(0, k)) is None,
{
    lemma_location_extends(b.subrange(0, k), b.subrange(k, b.len() as int));
    lemma_short_input_fails(location_parser(), b, k);
}

} // verus!
