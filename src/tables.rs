//! The module file's tables: interned strings, bytecode bodies and the
//! source locations of each body.
use vstd::prelude::*;
use vstd::utf8::{decode_utf8, encode_scalar, encode_utf8, valid_utf8};
use crate::records::{
    lemma_location_round_trip, lemma_location_writes_back, location_encoder, location_fits,
    location_parser, LocationView, MaruLocation,
};
use crate::wire::{
    append_bytes, encode_counted, encode_list, lemma_encode_parse_counted,
    lemma_parse_encode_counted, lemma_parse_list_fails, lemma_parse_u32_le, lemma_u32_le_parse,
    parse_counted, parse_list, parse_u32, push_u32, reads_back, take_u32, u32_at, u32_le,
    writes_back, consumed, extends, lemma_parse_counted_extends, lemma_parse_u32_extends,
    counted_error, lemma_list_error,
};
use crate::records::lemma_location_extends;

verus! {

broadcast use vstd::utf8::group_utf8_lib;

/// Relies on `String::from_utf8`: it succeeds exactly on valid UTF-8, with
/// the characters that the bytes encode.
#[verifier::external_body]
fn string_from_utf8(bytes: Vec<u8>) -> (r: Option<String>)
    ensures
        match r {
            Some(s) => valid_utf8(bytes@) && s@ == decode_utf8(bytes@),
            None => !valid_utf8(bytes@),
        },
{
    String::from_utf8(bytes).ok()
}

/// Relies on `Vec::into_boxed_slice`: the same elements, boxed.
#[verifier::external_body]
fn into_boxed(v: Vec<u8>) -> (r: Box<[u8]>)
    ensures
        r@ == v@,
{
    v.into_boxed_slice()
}

/// The index of the first zero byte of `b`, or its length if it has none.
pub open spec fn nul_index(b: Seq<u8>) -> nat
    decreases b.len(),
{
    if b.len() == 0 {
        0
    } else if b[0] == 0 {
        0
    } else {
        1 + nul_index(b.subrange(1, b.len() as int))
    }
}

/// The UTF-8 encoding of `s` holds no zero byte, so that a NUL can end it.
pub open spec fn nul_free(s: Seq<char>) -> bool {
    forall|i: int| 0 <= i < encode_utf8(s).len() ==> #[trigger] encode_utf8(s)[i] != 0
}

/// `s` holds no NUL character.
pub open spec fn has_no_nul(s: Seq<char>) -> bool {
    forall|i: int| 0 <= i < s.len() ==> s[i] != '\0'
}

/// A character's UTF-8 bytes hold a zero byte exactly when it is NUL.
proof fn lemma_scalar_nul(c: char)
    ensures
        (c != '\0') <==> (forall|i: int|
            0 <= i < encode_scalar(c as u32).len() ==> #[trigger] encode_scalar(c as u32)[i] != 0),
{
    let v = c as u32;
    vstd::utf8::char_u32_cast(c, v);
    vstd::utf8::char_u32_cast('\0', 0u32);
    if v == 0 {
        assert(encode_scalar(v)[0] == 0) by {
            assert((0u32 & 0x7F) as u8 == 0) by (bit_vector);
        }
    } else if v <= 0x7F {
        assert((v & 0x7F) as u8 != 0) by (bit_vector)
            requires
                v != 0 && v <= 0x7F,
        ;
    } else {
        assert(forall|x: u8| #[trigger] (0xC0u8 | x) != 0) by (bit_vector);
        assert(forall|x: u8| #[trigger] (0xE0u8 | x) != 0) by (bit_vector);
        assert(forall|x: u8| #[trigger] (0xF0u8 | x) != 0) by (bit_vector);
        assert(forall|x: u8| #[trigger] (0x80u8 | x) != 0) by (bit_vector);
    }
}

/// A string's UTF-8 bytes hold no zero byte exactly when it holds no NUL.
pub proof fn lemma_nul_free_iff(s: Seq<char>)
    ensures
        nul_free(s) <==> has_no_nul(s),
    decreases s.len(),
{
    if s.len() > 0 {
        let head = encode_scalar(s[0] as u32);
        let t = s.drop_first();
        lemma_nul_free_iff(t);
        lemma_scalar_nul(s[0]);
        let e = encode_utf8(s);
        assert(e == head + encode_utf8(t));
        if has_no_nul(s) {
            assert(has_no_nul(t)) by {
                assert forall|i: int| 0 <= i < t.len() implies t[i] != '\0' by {
                    assert(t[i] == s[i + 1]);
                }
            }
            assert forall|i: int| 0 <= i < e.len() implies #[trigger] e[i] != 0 by {
                if i >= head.len() {
                    assert(e[i] == encode_utf8(t)[i - head.len()]);
                }
            }
        } else {
            let j = choose|j: int| 0 <= j < s.len() && s[j] == '\0';
            if j == 0 {
                let i = choose|i: int| 0 <= i < head.len() && head[i] == 0;
                assert(e[i] == 0);
            } else {
                assert(t[j - 1] == '\0');
                let i = choose|i: int| 0 <= i < encode_utf8(t).len() && encode_utf8(t)[i] == 0;
                assert(e[head.len() + i] == 0);
            }
        }
    }
}

/// A string: its UTF-8 bytes, then a NUL.
pub open spec fn string_bytes(s: Seq<char>) -> Seq<u8> {
    encode_utf8(s) + seq![0u8]
}

/// Reads a NUL-terminated UTF-8 string off the front of `b`.
pub open spec fn parse_string(b: Seq<u8>) -> Option<(Seq<char>, Seq<u8>)> {
    let k = nul_index(b) as int;
    if k < b.len() && valid_utf8(b.subrange(0, k)) {
        Some((decode_utf8(b.subrange(0, k)), b.subrange(k + 1, b.len() as int)))
    } else {
        None
    }
}

pub open spec fn string_parser() -> spec_fn(Seq<u8>) -> Option<(Seq<char>, Seq<u8>)> {
    |b: Seq<u8>| parse_string(b)
}

pub open spec fn string_encoder() -> spec_fn(Seq<char>) -> Seq<u8> {
    |s: Seq<char>| string_bytes(s)
}

/// The first zero byte of `b` is the one at `k`.
proof fn lemma_nul_index(b: Seq<u8>, k: int)
    requires
        0 <= k <= b.len(),
        forall|j: int| 0 <= j < k ==> b[j] != 0,
        k == b.len() || b[k] == 0,
    ensures
        nul_index(b) == k,
    decreases b.len(),
{
    if b.len() > 0 && k > 0 {
        let t = b.subrange(1, b.len() as int);
        assert forall|j: int| 0 <= j < k - 1 implies t[j] != 0 by {
            assert(t[j] == b[j + 1]);
        }
        if k < b.len() {
            assert(t[k - 1] == b[k]);
        }
        lemma_nul_index(t, k - 1);
    }
}

proof fn lemma_string_reads_back(s: Seq<char>)
    requires
        nul_free(s),
    ensures
        reads_back(string_parser(), string_encoder(), s),
{
    assert forall|rest: Seq<u8>| #[trigger]
        (string_parser())((string_encoder())(s) + rest) == Some((s, rest)) by {
        let e = encode_utf8(s);
        let b = string_bytes(s) + rest;
        assert(forall|j: int| 0 <= j < e.len() ==> b[j] == e[j]);
        assert(b[e.len() as int] == 0);
        lemma_nul_index(b, e.len() as int);
        assert(b.subrange(0, e.len() as int) =~= e);
        assert(b.subrange(e.len() as int + 1, b.len() as int) =~= rest);
    }
}

proof fn lemma_string_writes_back(b: Seq<u8>)
    ensures
        writes_back(string_parser(), string_encoder(), b),
        match parse_string(b) {
            Some((s, _)) => nul_free(s),
            None => true,
        },
    decreases b.len(),
{
    let k = nul_index(b) as int;
    lemma_nul_index_first(b);
    if k < b.len() && valid_utf8(b.subrange(0, k)) {
        let head = b.subrange(0, k);
        assert(encode_utf8(decode_utf8(head)) == head);
        assert(string_bytes(decode_utf8(head)) + b.subrange(k + 1, b.len() as int) =~= b);
    }
}

/// No zero byte comes before `nul_index(b)`, and one stands there unless it
/// is the end.
proof fn lemma_nul_index_first(b: Seq<u8>)
    ensures
        nul_index(b) <= b.len(),
        forall|j: int| 0 <= j < nul_index(b) ==> b[j] != 0,
        nul_index(b) < b.len() ==> b[nul_index(b) as int] == 0,
    decreases b.len(),
{
    if b.len() > 0 && b[0] != 0 {
        let t = b.subrange(1, b.len() as int);
        lemma_nul_index_first(t);
        assert forall|j: int| 0 <= j < nul_index(b) implies b[j] != 0 by {
            if j > 0 {
                assert(b[j] == t[j - 1]);
            }
        }
    }
}

/// A string table: the module's interned strings, indexed by `StringIndex`.
pub struct StringTable {
    pub entries: Vec<String>,
}

impl View for StringTable {
    type V = Seq<Seq<char>>;

    open spec fn view(&self) -> Seq<Seq<char>> {
        self.entries@.map_values(|s: String| s@)
    }
}

/// The string table: entry count, then each entry NUL-terminated.
pub open spec fn string_table_bytes(t: Seq<Seq<char>>) -> Seq<u8> {
    encode_counted(string_encoder(), t)
}

pub open spec fn parse_string_table(b: Seq<u8>) -> Option<(Seq<Seq<char>>, Seq<u8>)> {
    parse_counted(string_parser(), b)
}

/// A string table can be written: its count fits the `u32` prefix and no
/// entry holds a NUL, which would end it early.
pub open spec fn string_table_fits(t: Seq<Seq<char>>) -> bool {
    &&& t.len() <= u32::MAX
    &&& forall|i: int| 0 <= i < t.len() ==> has_no_nul(#[trigger] t[i])
}

/// Every string table that can be written is read back from its encoding.
pub proof fn lemma_string_table_round_trip(t: Seq<Seq<char>>, rest: Seq<u8>)
    requires
        string_table_fits(t),
    ensures
        parse_string_table(string_table_bytes(t) + rest) == Some((t, rest)),
{
    assert forall|i: int| 0 <= i < t.len() implies reads_back(
        string_parser(),
        string_encoder(),
        #[trigger] t[i],
    ) by {
        lemma_nul_free_iff(t[i]);
        lemma_string_reads_back(t[i]);
    }
    lemma_parse_encode_counted(string_parser(), string_encoder(), t, rest);
}

/// Each entry of a string list read off `b` can be written.
proof fn lemma_parsed_strings_fit(b: Seq<u8>, n: nat, i: int)
    ensures
        match parse_list(string_parser(), b, n) {
            Some((xs, _)) => 0 <= i < xs.len() ==> nul_free(xs[i]),
            None => true,
        },
    decreases n,
{
    if n > 0 {
        lemma_parsed_strings_fit(b, (n - 1) as nat, i);
        match parse_list(string_parser(), b, (n - 1) as nat) {
            Some((xs, r)) => {
                lemma_string_writes_back(r);
            },
            None => {},
        }
    }
}

/// A string table read off `b` is written back as exactly the bytes it
/// took.
pub proof fn lemma_string_table_writes_back(b: Seq<u8>)
    ensures
        match parse_string_table(b) {
            Some((t, r)) => string_table_fits(t) && string_table_bytes(t) + r == b,
            None => true,
        },
{
    assert forall|b2: Seq<u8>| #[trigger] writes_back(string_parser(), string_encoder(), b2) by {
        lemma_string_writes_back(b2);
    }
    lemma_encode_parse_counted(string_parser(), string_encoder(), b);
    if b.len() >= 4 {
        let b1 = b.subrange(4, b.len() as int);
        let n = u32_at(b, 0);
        match parse_list(string_parser(), b1, n as nat) {
            Some((t, r)) => {
                assert forall|i: int| 0 <= i < t.len() implies has_no_nul(#[trigger] t[i]) by {
                    lemma_parsed_strings_fit(b1, n as nat, i);
                    lemma_nul_free_iff(t[i]);
                }
            },
            None => {},
        }
    }
}

/// The message with which a string fails to read off `b`: it has no NUL,
/// or its bytes are not UTF-8.
pub open spec fn string_error(b: Seq<u8>) -> Seq<char> {
    if nul_index(b) < b.len() {
        "Invalid UTF-8 in string table"@
    } else {
        "Unterminated string in StringTable"@
    }
}

pub open spec fn string_error_fn() -> spec_fn(Seq<u8>) -> Seq<char> {
    |b: Seq<u8>| string_error(b)
}

/// The message with which a string table fails to read off `b`: its count
/// is cut short, or that of its first entry that fails.
pub open spec fn string_table_error(b: Seq<u8>) -> Seq<char> {
    counted_error(
        string_parser(),
        string_error_fn(),
        "Binary is too short to contain a valid StringTable"@,
        b,
    )
}

/// The number of zero bytes in `b`.
pub open spec fn zero_count(b: Seq<u8>) -> nat
    decreases b.len(),
{
    if b.len() == 0 {
        0
    } else {
        (if b[0] == 0 {
            1nat
        } else {
            0nat
        }) + zero_count(b.drop_first())
    }
}

proof fn lemma_zero_count_add(a: Seq<u8>, c: Seq<u8>)
    ensures
        zero_count(a + c) == zero_count(a) + zero_count(c),
    decreases a.len(),
{
    if a.len() == 0 {
        assert(a + c =~= c);
    } else {
        assert((a + c).drop_first() =~= a.drop_first() + c);
        lemma_zero_count_add(a.drop_first(), c);
    }
}

proof fn lemma_zero_count_none(a: Seq<u8>)
    requires
        forall|j: int| 0 <= j < a.len() ==> a[j] != 0,
    ensures
        zero_count(a) == 0,
    decreases a.len(),
{
    if a.len() > 0 {
        assert forall|j: int| 0 <= j < a.drop_first().len() implies a.drop_first()[j] != 0 by {
            assert(a.drop_first()[j] == a[j + 1]);
        }
        lemma_zero_count_none(a.drop_first());
    }
}

/// Each string read off `b` takes exactly one zero byte, its NUL.
proof fn lemma_string_takes_one_nul(b: Seq<u8>)
    ensures
        match parse_string(b) {
            Some((_, r)) => zero_count(b) == 1 + zero_count(r),
            None => true,
        },
{
    lemma_nul_index_first(b);
    let k = nul_index(b) as int;
    if k < b.len() {
        let head = b.subrange(0, k);
        let r = b.subrange(k + 1, b.len() as int);
        assert(b =~= head + (seq![0u8] + r));
        lemma_zero_count_none(head);
        lemma_zero_count_add(head, seq![0u8] + r);
        lemma_zero_count_add(seq![0u8], r);
        assert(seq![0u8].drop_first() =~= Seq::<u8>::empty());
        assert(zero_count(Seq::<u8>::empty()) == 0);
        assert(zero_count(seq![0u8]) == 1);
    }
}

proof fn lemma_strings_take_nuls(b: Seq<u8>, n: nat)
    ensures
        match parse_list(string_parser(), b, n) {
            Some((_, r)) => zero_count(b) == n + zero_count(r),
            None => true,
        },
    decreases n,
{
    if n > 0 {
        lemma_strings_take_nuls(b, (n - 1) as nat);
        if let Some((_, r)) = parse_list(string_parser(), b, (n - 1) as nat) {
            lemma_string_takes_one_nul(r);
        }
    }
}

/// A string table whose entries hold fewer NUL bytes than its count does
/// not decode.
pub proof fn lemma_string_table_needs_nuls(b: Seq<u8>)
    requires
        b.len() >= 4 ==> zero_count(b.subrange(4, b.len() as int)) < u32_at(b, 0),
    ensures
        parse_string_table(b) is None,
{
    if b.len() >= 4 {
        lemma_strings_take_nuls(b.subrange(4, b.len() as int), u32_at(b, 0) as nat);
    }
}

impl StringTable {
    /// Appends the encoding of this table.
    pub(crate) fn write_to(&self, out: &mut Vec<u8>)
        requires
            string_table_fits(self@),
        ensures
            final(out)@ == old(out)@ + string_table_bytes(self@),
    {
        let ghost start = out@;
        let ghost ss = self@;
        push_u32(out, self.entries.len() as u32);
        let ghost head = out@;
        let mut i: usize = 0;
        while i < self.entries.len()
            invariant
                i <= ss.len(),
                ss == self@,
                out@ == head + encode_list(string_encoder(), ss.subrange(0, i as int)),
            decreases ss.len() - i,
        {
            let bytes = self.entries[i].as_str().as_bytes();
            append_bytes(out, bytes);
            out.push(0u8);
            proof {
                let xs = ss.subrange(0, i + 1);
                assert(xs.drop_last() =~= ss.subrange(0, i as int));
            }
            i = i + 1;
            assert(out@ =~= head + encode_list(string_encoder(), ss.subrange(0, i as int)));
        }
        assert(ss.subrange(0, i as int) =~= ss);
        assert(out@ =~= start + string_table_bytes(self@));
    }

    /// The encoding of this table. Its count must fit the `u32` prefix and
    /// no entry may hold a NUL.
    pub fn into_binary(self) -> (r: Vec<u8>)
        requires
            string_table_fits(self@),
        ensures
            r@ == string_table_bytes(self@),
    {
        let mut out = Vec::new();
        self.write_to(&mut out);
        assert(out@ =~= string_table_bytes(self@));
        out
    }

    /// Reads a string table off the front of `binary`, and returns it with
    /// the bytes that follow it. Fails where the input ends early, an entry
    /// has no NUL, or an entry is not UTF-8.
    pub fn from_binary(binary: &[u8]) -> (r: Result<(StringTable, &[u8]), String>)
        ensures
            match r {
                Ok((t, rest)) => parse_string_table(binary@) == Some((t@, rest@)),
                Err(e) => parse_string_table(binary@) is None && e@ == string_table_error(binary@),
            },
    {
        if binary.len() < 4 {
            return Err(String::from_str("Binary is too short to contain a valid StringTable"));
        }
        let (entries_len, b1) = take_u32(binary);
        let mut cur = b1;
        let mut entries: Vec<String> = Vec::new();
        let mut i: u32 = 0;
        while i < entries_len
            invariant
                i <= entries_len,
                parse_u32(binary@) == Some((entries_len, b1@)),
                parse_list(string_parser(), b1@, i as nat) == Some(
                    (entries@.map_values(|s: String| s@), cur@),
                ),
            decreases entries_len - i,
        {
            let mut k: usize = 0;
            while k < cur.len() && cur[k] != 0
                invariant
                    k <= cur@.len(),
                    forall|j: int| 0 <= j < k ==> cur@[j] != 0,
                decreases cur@.len() - k,
            {
                k = k + 1;
            }
            proof {
                lemma_nul_index(cur@, k as int);
            }
            if k == cur.len() {
                proof {
                    lemma_list_error(string_parser(), string_error_fn(), b1@, i as nat, entries_len as nat, cur@);
                }
                return Err(String::from_str("Unterminated string in StringTable"));
            }
            let bytes = vstd::slice::slice_subrange(cur, 0, k);
            match string_from_utf8(vstd::slice::slice_to_vec(bytes)) {
                Some(s) => {
                    let ghost before = entries@;
                    entries.push(s);
                    assert(entries@.map_values(|s: String| s@) =~= before.map_values(
                        |s: String| s@,
                    ).push(decode_utf8(bytes@)));
                },
                None => {
                    proof {
                        lemma_list_error(string_parser(), string_error_fn(), b1@, i as nat, entries_len as nat, cur@);
                    }
                    return Err(String::from_str("Invalid UTF-8 in string table"));
                },
            }
            cur = vstd::slice::slice_subrange(cur, k + 1, cur.len());
            i = i + 1;
        }
        Ok((StringTable { entries }, cur))
    }
}

/// A bytecode body: its length, then its bytes.
pub open spec fn body_bytes(e: Seq<u8>) -> Seq<u8> {
    u32_le(e.len() as u32) + e
}

pub open spec fn parse_body(b: Seq<u8>) -> Option<(Seq<u8>, Seq<u8>)> {
    match parse_u32(b) {
        Some((n, b1)) => if n <= b1.len() {
            Some((b1.subrange(0, n as int), b1.subrange(n as int, b1.len() as int)))
        } else {
            None
        },
        None => None,
    }
}

pub open spec fn body_parser() -> spec_fn(Seq<u8>) -> Option<(Seq<u8>, Seq<u8>)> {
    |b: Seq<u8>| parse_body(b)
}

pub open spec fn body_encoder() -> spec_fn(Seq<u8>) -> Seq<u8> {
    |e: Seq<u8>| body_bytes(e)
}

/// A bytecode table: the bodies of the module's functions and global
/// initializers, indexed by `BytecodeIndex`.
pub struct BytecodeTable {
    pub entries: Vec<Box<[u8]>>,
}

impl View for BytecodeTable {
    type V = Seq<Seq<u8>>;

    open spec fn view(&self) -> Seq<Seq<u8>> {
        self.entries@.map_values(|e: Box<[u8]>| e@)
    }
}

/// The bytecode table: entry count, then each body with its length.
pub open spec fn bytecode_table_bytes(t: Seq<Seq<u8>>) -> Seq<u8> {
    encode_counted(body_encoder(), t)
}

pub open spec fn parse_bytecode_table(b: Seq<u8>) -> Option<(Seq<Seq<u8>>, Seq<u8>)> {
    parse_counted(body_parser(), b)
}

/// A bytecode table can be written: its count and each body's length fit
/// their `u32` prefixes.
pub open spec fn bytecode_table_fits(t: Seq<Seq<u8>>) -> bool {
    &&& t.len() <= u32::MAX
    &&& forall|i: int| 0 <= i < t.len() ==> (#[trigger] t[i]).len() <= u32::MAX
}

proof fn lemma_body_reads_back(e: Seq<u8>)
    requires
        e.len() <= u32::MAX,
    ensures
        reads_back(body_parser(), body_encoder(), e),
{
    assert forall|rest: Seq<u8>| #[trigger]
        (body_parser())((body_encoder())(e) + rest) == Some((e, rest)) by {
        assert(body_bytes(e) + rest =~= u32_le(e.len() as u32) + (e + rest));
        lemma_parse_u32_le(e.len() as u32, e + rest);
        assert((e + rest).subrange(0, e.len() as int) =~= e);
        assert((e + rest).subrange(e.len() as int, (e + rest).len() as int) =~= rest);
    }
}

proof fn lemma_body_writes_back(b: Seq<u8>)
    ensures
        writes_back(body_parser(), body_encoder(), b),
        match parse_body(b) {
            Some((e, _)) => e.len() <= u32::MAX,
            None => true,
        },
{
    if b.len() >= 4 {
        lemma_u32_le_parse(b);
        let b1 = b.subrange(4, b.len() as int);
        let n = u32_at(b, 0);
        if n <= b1.len() {
            let e = b1.subrange(0, n as int);
            assert(body_bytes(e) + b1.subrange(n as int, b1.len() as int) =~= u32_le(n) + b1);
        }
    }
}

/// Each body of a body list read off `b` has a length that fits a `u32`.
proof fn lemma_parsed_bodies_fit(b: Seq<u8>, n: nat, i: int)
    ensures
        match parse_list(body_parser(), b, n) {
            Some((xs, _)) => 0 <= i < xs.len() ==> xs[i].len() <= u32::MAX,
            None => true,
        },
    decreases n,
{
    if n > 0 {
        lemma_parsed_bodies_fit(b, (n - 1) as nat, i);
        match parse_list(body_parser(), b, (n - 1) as nat) {
            Some((xs, r)) => {
                lemma_body_writes_back(r);
            },
            None => {},
        }
    }
}

/// Every bytecode table that can be written is read back from its encoding.
pub proof fn lemma_bytecode_table_round_trip(t: Seq<Seq<u8>>, rest: Seq<u8>)
    requires
        bytecode_table_fits(t),
    ensures
        parse_bytecode_table(bytecode_table_bytes(t) + rest) == Some((t, rest)),
{
    assert forall|i: int| 0 <= i < t.len() implies reads_back(
        body_parser(),
        body_encoder(),
        #[trigger] t[i],
    ) by {
        lemma_body_reads_back(t[i]);
    }
    lemma_parse_encode_counted(body_parser(), body_encoder(), t, rest);
}

/// A bytecode table read off `b` is written back as exactly the bytes it
/// took.
pub proof fn lemma_bytecode_table_writes_back(b: Seq<u8>)
    ensures
        match parse_bytecode_table(b) {
            Some((t, r)) => bytecode_table_fits(t) && bytecode_table_bytes(t) + r == b,
            None => true,
        },
{
    assert forall|b2: Seq<u8>| #[trigger] writes_back(body_parser(), body_encoder(), b2) by {
        lemma_body_writes_back(b2);
    }
    lemma_encode_parse_counted(body_parser(), body_encoder(), b);
    if b.len() >= 4 {
        let b1 = b.subrange(4, b.len() as int);
        let n = u32_at(b, 0);
        match parse_list(body_parser(), b1, n as nat) {
            Some((t, r)) => {
                assert forall|i: int| 0 <= i < t.len() implies (#[trigger] t[i]).len()
                    <= u32::MAX by {
                    lemma_parsed_bodies_fit(b1, n as nat, i);
                }
            },
            None => {},
        }
    }
}

/// The message with which a bytecode table fails to read off `b`: its
/// count is cut short, or one of its entries is.
pub open spec fn bytecode_table_error(b: Seq<u8>) -> Seq<char> {
    if b.len() < 4 {
        "Binary is too short to contain a valid BytecodeTable"@
    } else {
        "Binary is too short to contain a valid BytecodeTable entry"@
    }
}

impl BytecodeTable {
    /// Appends the encoding of this table.
    pub(crate) fn write_to(&self, out: &mut Vec<u8>)
        requires
            bytecode_table_fits(self@),
        ensures
            final(out)@ == old(out)@ + bytecode_table_bytes(self@),
    {
        let ghost start = out@;
        let ghost es = self@;
        push_u32(out, self.entries.len() as u32);
        let ghost head = out@;
        let mut i: usize = 0;
        while i < self.entries.len()
            invariant
                i <= es.len(),
                es == self@,
                bytecode_table_fits(es),
                out@ == head + encode_list(body_encoder(), es.subrange(0, i as int)),
            decreases es.len() - i,
        {
            let entry: &[u8] = &self.entries[i];
            assert(entry@ == es[i as int]);
            push_u32(out, entry.len() as u32);
            append_bytes(out, entry);
            proof {
                let xs = es.subrange(0, i + 1);
                assert(xs.drop_last() =~= es.subrange(0, i as int));
            }
            i = i + 1;
            assert(out@ =~= head + encode_list(body_encoder(), es.subrange(0, i as int)));
        }
        assert(es.subrange(0, i as int) =~= es);
        assert(out@ =~= start + bytecode_table_bytes(self@));
    }

    /// The encoding of this table. Its count and each body's length must
    /// fit their `u32` prefixes.
    pub fn into_binary(self) -> (r: Vec<u8>)
        requires
            bytecode_table_fits(self@),
        ensures
            r@ == bytecode_table_bytes(self@),
    {
        let mut out = Vec::new();
        self.write_to(&mut out);
        assert(out@ =~= bytecode_table_bytes(self@));
        out
    }

    /// Reads a bytecode table off the front of `binary`, and returns it with
    /// the bytes that follow it. Fails where a length prefix or a body is
    /// cut short.
    pub fn from_binary(binary: &[u8]) -> (r: Result<(BytecodeTable, &[u8]), String>)
        ensures
            match r {
                Ok((t, rest)) => parse_bytecode_table(binary@) == Some((t@, rest@)),
                Err(e) => parse_bytecode_table(binary@) is None && e@ == bytecode_table_error(binary@),
            },
    {
        if binary.len() < 4 {
            return Err(String::from_str("Binary is too short to contain a valid BytecodeTable"));
        }
        let (entries_len, b1) = take_u32(binary);
        let mut cur = b1;
        let mut entries: Vec<Box<[u8]>> = Vec::new();
        let mut i: u32 = 0;
        while i < entries_len
            invariant
                i <= entries_len,
                parse_u32(binary@) == Some((entries_len, b1@)),
                parse_list(body_parser(), b1@, i as nat) == Some(
                    (entries@.map_values(|e: Box<[u8]>| e@), cur@),
                ),
            decreases entries_len - i,
        {
            if cur.len() < 4 {
                proof {
                    lemma_parse_list_fails(body_parser(), b1@, (i + 1) as nat, entries_len as nat);
                }
                return Err(
                    String::from_str("Binary is too short to contain a valid BytecodeTable entry"),
                );
            }
            let (entry_len, c1) = take_u32(cur);
            if c1.len() < entry_len as usize {
                proof {
                    lemma_parse_list_fails(body_parser(), b1@, (i + 1) as nat, entries_len as nat);
                }
                return Err(
                    String::from_str("Binary is too short to contain a valid BytecodeTable entry"),
                );
            }
            let body = vstd::slice::slice_subrange(c1, 0, entry_len as usize);
            let entry = into_boxed(vstd::slice::slice_to_vec(body));
            let ghost before = entries@;
            entries.push(entry);
            assert(entries@.map_values(|e: Box<[u8]>| e@) =~= before.map_values(
                |e: Box<[u8]>| e@,
            ).push(body@));
            cur = vstd::slice::slice_subrange(c1, entry_len as usize, c1.len());
            i = i + 1;
        }
        Ok((BytecodeTable { entries }, cur))
    }
}

/// The locations map: for each bytecode body, where its code came from.
pub struct LocationsMap {
    pub entries: Vec<MaruLocation>,
}

impl View for LocationsMap {
    type V = Seq<LocationView>;

    open spec fn view(&self) -> Seq<LocationView> {
        self.entries@.map_values(|l: MaruLocation| l@)
    }
}

/// The locations map: entry count, then each location.
pub open spec fn locations_map_bytes(t: Seq<LocationView>) -> Seq<u8> {
    encode_counted(location_encoder(), t)
}

pub open spec fn parse_locations_map(b: Seq<u8>) -> Option<(Seq<LocationView>, Seq<u8>)> {
    parse_counted(location_parser(), b)
}

/// A locations map can be written: every count fits its `u32` prefix.
pub open spec fn locations_map_fits(t: Seq<LocationView>) -> bool {
    &&& t.len() <= u32::MAX
    &&& forall|i: int| 0 <= i < t.len() ==> location_fits(#[trigger] t[i])
}

/// Every locations map that can be written is read back from its encoding.
pub proof fn lemma_locations_map_round_trip(t: Seq<LocationView>, rest: Seq<u8>)
    requires
        locations_map_fits(t),
    ensures
        parse_locations_map(locations_map_bytes(t) + rest) == Some((t, rest)),
{
    assert forall|i: int| 0 <= i < t.len() implies reads_back(
        location_parser(),
        location_encoder(),
        #[trigger] t[i],
    ) by {
        assert forall|r: Seq<u8>| #[trigger]
            (location_parser())((location_encoder())(t[i]) + r) == Some((t[i], r)) by {
            lemma_location_round_trip(t[i], r);
        }
    }
    lemma_parse_encode_counted(location_parser(), location_encoder(), t, rest);
}

/// Each location of a location list read off `b` can be written.
proof fn lemma_parsed_locations_fit(b: Seq<u8>, n: nat, i: int)
    ensures
        match parse_list(location_parser(), b, n) {
            Some((xs, _)) => 0 <= i < xs.len() ==> location_fits(xs[i]),
            None => true,
        },
    decreases n,
{
    if n > 0 {
        lemma_parsed_locations_fit(b, (n - 1) as nat, i);
        match parse_list(location_parser(), b, (n - 1) as nat) {
            Some((xs, r)) => {
                lemma_location_writes_back(r);
            },
            None => {},
        }
    }
}

/// A locations map read off `b` is written back as exactly the bytes it
/// took.
pub proof fn lemma_locations_map_writes_back(b: Seq<u8>)
    ensures
        match parse_locations_map(b) {
            Some((t, r)) => locations_map_fits(t) && locations_map_bytes(t) + r == b,
            None => true,
        },
{
    assert forall|b2: Seq<u8>| #[trigger] writes_back(location_parser(), location_encoder(), b2) by {
        lemma_location_writes_back(b2);
    }
    lemma_encode_parse_counted(location_parser(), location_encoder(), b);
    if b.len() >= 4 {
        let b1 = b.subrange(4, b.len() as int);
        let n = u32_at(b, 0);
        match parse_list(location_parser(), b1, n as nat) {
            Some((t, r)) => {
                assert forall|i: int| 0 <= i < t.len() implies location_fits(#[trigger] t[i]) by {
                    lemma_parsed_locations_fit(b1, n as nat, i);
                }
            },
            None => {},
        }
    }
}

/// The message with which a locations map fails to read off `b`: its
/// count is cut short, or one of its locations is.
pub open spec fn locations_map_error(b: Seq<u8>) -> Seq<char> {
    if b.len() < 4 {
        "Binary is too short to contain a valid LocationsMap"@
    } else {
        "Binary is too short to contain a valid MaruLocation"@
    }
}

impl LocationsMap {
    /// Appends the encoding of this map.
    pub(crate) fn write_to(&self, out: &mut Vec<u8>)
        requires
            locations_map_fits(self@),
        ensures
            final(out)@ == old(out)@ + locations_map_bytes(self@),
    {
        let ghost start = out@;
        let ghost ls = self@;
        push_u32(out, self.entries.len() as u32);
        let ghost head = out@;
        let mut i: usize = 0;
        while i < self.entries.len()
            invariant
                i <= ls.len(),
                ls == self@,
                locations_map_fits(ls),
                out@ == head + encode_list(location_encoder(), ls.subrange(0, i as int)),
            decreases ls.len() - i,
        {
            assert(ls[i as int] == self.entries@[i as int]@);
            self.entries[i].write_to(out);
            proof {
                let xs = ls.subrange(0, i + 1);
                assert(xs.drop_last() =~= ls.subrange(0, i as int));
            }
            i = i + 1;
            assert(out@ =~= head + encode_list(location_encoder(), ls.subrange(0, i as int)));
        }
        assert(ls.subrange(0, i as int) =~= ls);
        assert(out@ =~= start + locations_map_bytes(self@));
    }

    /// The encoding of this map. Every count in it must fit its `u32`
    /// prefix.
    pub fn into_binary(self) -> (r: Vec<u8>)
        requires
            locations_map_fits(self@),
        ensures
            r@ == locations_map_bytes(self@),
    {
        let mut out = Vec::new();
        self.write_to(&mut out);
        assert(out@ =~= locations_map_bytes(self@));
        out
    }

    /// Reads a locations map off the front of `binary`, and returns it with
    /// the bytes that follow it.
    pub fn from_binary(binary: &[u8]) -> (r: Result<(LocationsMap, &[u8]), String>)
        ensures
            match r {
                Ok((t, rest)) => parse_locations_map(binary@) == Some((t@, rest@)),
                Err(e) => parse_locations_map(binary@) is None && e@ == locations_map_error(binary@),
            },
    {
        if binary.len() < 4 {
            return Err(String::from_str("Binary is too short to contain a valid LocationsMap"));
        }
        let (entries_len, b1) = take_u32(binary);
        let mut cur = b1;
        let mut entries: Vec<MaruLocation> = Vec::new();
        let mut i: u32 = 0;
        while i < entries_len
            invariant
                i <= entries_len,
                parse_u32(binary@) == Some((entries_len, b1@)),
                parse_list(location_parser(), b1@, i as nat) == Some(
                    (entries@.map_values(|l: MaruLocation| l@), cur@),
                ),
            decreases entries_len - i,
        {
            match MaruLocation::from_binary(cur) {
                Ok((l, rest)) => {
                    let ghost before = entries@;
                    entries.push(l);
                    assert(entries@.map_values(|l: MaruLocation| l@) =~= before.map_values(
                        |l: MaruLocation| l@,
                    ).push(l@));
                    cur = rest;
                },
                Err(e) => {
                    proof {
                        lemma_parse_list_fails(location_parser(), b1@, (i + 1) as nat, entries_len as nat);
                    }
                    return Err(e);
                },
            }
            i = i + 1;
        }
        Ok((LocationsMap { entries }, cur))
    }
}

proof fn lemma_string_extends(b: Seq<u8>, s: Seq<u8>)
    ensures
        extends(string_parser(), b, s),
{
    lemma_nul_index_first(b);
    let k = nul_index(b) as int;
    if k < b.len() {
        let bs = b + s;
        assert forall|j: int| 0 <= j < k implies bs[j] != 0 by {
            assert(bs[j] == b[j]);
        }
        assert(bs[k] == b[k]);
        lemma_nul_index(bs, k);
        assert(bs.subrange(0, k) =~= b.subrange(0, k));
        assert(bs.subrange(k + 1, bs.len() as int) =~= b.subrange(k + 1, b.len() as int) + s);
    }
}

proof fn lemma_body_extends(b: Seq<u8>, s: Seq<u8>)
    ensures
        extends(body_parser(), b, s),
{
    lemma_parse_u32_extends(b, s);
    if let Some((n, b1)) = parse_u32(b) {
        if n <= b1.len() {
            assert((b1 + s).subrange(0, n as int) =~= b1.subrange(0, n as int));
            assert((b1 + s).subrange(n as int, (b1 + s).len() as int) =~= b1.subrange(
                n as int,
                b1.len() as int,
            ) + s);
        }
    }
}

/// Bytes appended after a string table do not change how it reads.
pub proof fn lemma_string_table_extends(b: Seq<u8>, s: Seq<u8>)
    ensures
        match parse_string_table(b) {
            Some((t, r)) => parse_string_table(b + s) == Some((t, r + s)),
            None => true,
        },
{
    assert forall|b2: Seq<u8>, s2: Seq<u8>| #[trigger] extends(string_parser(), b2, s2) by {
        lemma_string_extends(b2, s2);
    }
    lemma_parse_counted_extends(string_parser(), b, s);
}

/// Bytes appended after a bytecode table do not change how it reads.
pub proof fn lemma_bytecode_table_extends(b: Seq<u8>, s: Seq<u8>)
    ensures
        match parse_bytecode_table(b) {
            Some((t, r)) => parse_bytecode_table(b + s) == Some((t, r + s)),
            None => true,
        },
{
    assert forall|b2: Seq<u8>, s2: Seq<u8>| #[trigger] extends(body_parser(), b2, s2) by {
        lemma_body_extends(b2, s2);
    }
    lemma_parse_counted_extends(body_parser(), b, s);
}

/// Bytes appended after a locations map do not change how it reads.
pub proof fn lemma_locations_map_extends(b: Seq<u8>, s: Seq<u8>)
    ensures
        match parse_locations_map(b) {
            Some((t, r)) => parse_locations_map(b + s) == Some((t, r + s)),
            None => true,
        },
{
    assert forall|b2: Seq<u8>, s2: Seq<u8>| #[trigger] extends(location_parser(), b2, s2) by {
        lemma_location_extends(b2, s2);
    }
    lemma_parse_counted_extends(location_parser(), b, s);
}

/// A string table cut short of the bytes it takes does not decode.
pub proof fn lemma_string_table_truncated(b: Seq<u8>, k: int)
    requires
        0 <= k < consumed(parse_string_table(b), b),
    ensures
        parse_string_table(b.subrange(0, k)) is None,
{
    let head = b.subrange(0, k);
    let tail = b.subrange(k, b.len() as int);
    assert(head + tail =~= b);
    lemma_string_table_extends(head, tail);
}

/// A bytecode table cut short of the bytes it takes does not decode.
pub proof fn lemma_bytecode_table_truncated(b: Seq<u8>, k: int)
    requires
        0 <= k < consumed(parse_bytecode_table(b), b),
    ensures
        parse_bytecode_table(b.subrange(0, k)) is None,
{
    let head = b.subrange(0, k);
    let tail = b.subrange(k, b.len() as int);
    assert(head + tail =~= b);
    lemma_bytecode_table_extends(head, tail);
}

/// A locations map cut short of the bytes it takes does not decode.
pub proof fn lemma_locations_map_truncated(b: Seq<u8>, k: int)
    requires
        0 <= k < consumed(parse_locations_map(b), b),
    ensures
        parse_locations_map(b.subrange(0, k)) is None,
{
    let head = b.subrange(0, k);
    let tail = b.subrange(k, b.len() as int);
    assert(head + tail =~= b);
    lemma_locations_map_extends(head, tail);
}

} // verus!
