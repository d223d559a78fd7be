//! Little-endian integers on the wire, and the generic shape of a
//! count-prefixed list: how it is written and how it is read back.
use vstd::prelude::*;

verus! {

/// The four little-endian bytes of `x`.
pub open spec fn u32_le(x: u32) -> Seq<u8> {
    seq![
        (x & 0xff) as u8,
        ((x >> 8u32) & 0xff) as u8,
        ((x >> 16u32) & 0xff) as u8,
        ((x >> 24u32) & 0xff) as u8,
    ]
}

/// The `u32` whose little-endian bytes are `b0 b1 b2 b3`.
pub open spec fn u32_of(b0: u8, b1: u8, b2: u8, b3: u8) -> u32 {
    (b0 as u32) | ((b1 as u32) << 8u32) | ((b2 as u32) << 16u32) | ((b3 as u32) << 24u32)
}

/// The `u32` stored little-endian at `b[at..at + 4]`.
pub open spec fn u32_at(b: Seq<u8>, at: int) -> u32 {
    u32_of(b[at], b[at + 1], b[at + 2], b[at + 3])
}

/// The four little-endian bytes of `x` (two's complement).
pub open spec fn i32_le(x: i32) -> Seq<u8> {
    u32_le(x as u32)
}

/// The `i32` stored little-endian at `b[at..at + 4]`.
pub open spec fn i32_at(b: Seq<u8>, at: int) -> i32 {
    u32_at(b, at) as i32
}

/// The `u64` stored little-endian at `b[at..at + 8]`.
pub open spec fn u64_at(b: Seq<u8>, at: int) -> u64 {
    (u32_at(b, at) as u64) | ((u32_at(b, at + 4) as u64) << 32u64)
}

/// Reads a `u32` off the front of `b`: the value and what follows it.
pub open spec fn parse_u32(b: Seq<u8>) -> Option<(u32, Seq<u8>)> {
    if b.len() >= 4 {
        Some((u32_at(b, 0), b.subrange(4, b.len() as int)))
    } else {
        None
    }
}

/// Reads an `i32` off the front of `b`: the value and what follows it.
pub open spec fn parse_i32(b: Seq<u8>) -> Option<(i32, Seq<u8>)> {
    if b.len() >= 4 {
        Some((i32_at(b, 0), b.subrange(4, b.len() as int)))
    } else {
        None
    }
}

pub proof fn lemma_u32_le_bytes(x: u32)
    ensures
        u32_of(u32_le(x)[0], u32_le(x)[1], u32_le(x)[2], u32_le(x)[3]) == x,
{
    let b0 = (x & 0xff) as u8;
    let b1 = ((x >> 8u32) & 0xff) as u8;
    let b2 = ((x >> 16u32) & 0xff) as u8;
    let b3 = ((x >> 24u32) & 0xff) as u8;
    assert(u32_of(b0, b1, b2, b3) == x) by (bit_vector)
        requires
            b0 == (x & 0xff) as u8,
            b1 == ((x >> 8u32) & 0xff) as u8,
            b2 == ((x >> 16u32) & 0xff) as u8,
            b3 == ((x >> 24u32) & 0xff) as u8,
    ;
}

pub proof fn lemma_u32_of_bytes(b0: u8, b1: u8, b2: u8, b3: u8)
    ensures
        u32_le(u32_of(b0, b1, b2, b3)) == seq![b0, b1, b2, b3],
{
    let x = u32_of(b0, b1, b2, b3);
    assert((x & 0xff) as u8 == b0 && ((x >> 8u32) & 0xff) as u8 == b1 && ((x >> 16u32) & 0xff) as u8
        == b2 && ((x >> 24u32) & 0xff) as u8 == b3) by (bit_vector)
        requires
            x == (b0 as u32) | ((b1 as u32) << 8u32) | ((b2 as u32) << 16u32) | ((b3 as u32)
                << 24u32),
    ;
    assert(u32_le(x) =~= seq![b0, b1, b2, b3]);
}

/// Writing a `u32` and reading it back gives the value and the rest unchanged.
pub proof fn lemma_parse_u32_le(x: u32, rest: Seq<u8>)
    ensures
        parse_u32(u32_le(x) + rest) == Some((x, rest)),
{
    lemma_u32_le_bytes(x);
    let b = u32_le(x) + rest;
    assert(b.subrange(4, b.len() as int) =~= rest);
}

/// Reading a `u32` off `b` and writing it back restores `b`.
pub proof fn lemma_u32_le_parse(b: Seq<u8>)
    requires
        b.len() >= 4,
    ensures
        u32_le(u32_at(b, 0)) + b.subrange(4, b.len() as int) == b,
{
    lemma_u32_of_bytes(b[0], b[1], b[2], b[3]);
    assert(u32_le(u32_at(b, 0)) + b.subrange(4, b.len() as int) =~= b);
}

pub proof fn lemma_parse_i32_le(x: i32, rest: Seq<u8>)
    ensures
        parse_i32(i32_le(x) + rest) == Some((x, rest)),
{
    lemma_parse_u32_le(x as u32, rest);
    assert((x as u32) as i32 == x) by (bit_vector);
}

pub proof fn lemma_i32_le_parse(b: Seq<u8>)
    requires
        b.len() >= 4,
    ensures
        i32_le(i32_at(b, 0)) + b.subrange(4, b.len() as int) == b,
{
    let u = u32_at(b, 0);
    assert((u as i32) as u32 == u) by (bit_vector);
    lemma_u32_le_parse(b);
}

/// The `u32` at `b[at..at + 4]`.
pub fn read_u32(b: &[u8], at: usize) -> (r: u32)
    requires
        at + 4 <= b@.len(),
    ensures
        r == u32_at(b@, at as int),
{
    (b[at] as u32) | ((b[at + 1] as u32) << 8u32) | ((b[at + 2] as u32) << 16u32) | ((
    b[at + 3] as u32) << 24u32)
}

/// The `i32` at `b[at..at + 4]`.
pub fn read_i32(b: &[u8], at: usize) -> (r: i32)
    requires
        at + 4 <= b@.len(),
    ensures
        r == i32_at(b@, at as int),
{
    read_u32(b, at) as i32
}

/// Appends the little-endian bytes of `x`.
pub fn push_u32(out: &mut Vec<u8>, x: u32)
    ensures
        final(out)@ == old(out)@ + u32_le(x),
{
    out.push((x & 0xff) as u8);
    out.push(((x >> 8u32) & 0xff) as u8);
    out.push(((x >> 16u32) & 0xff) as u8);
    out.push(((x >> 24u32) & 0xff) as u8);
    assert(final(out)@ =~= old(out)@ + u32_le(x));
}

/// Appends the little-endian bytes of `x`.
pub fn push_i32(out: &mut Vec<u8>, x: i32)
    ensures
        final(out)@ == old(out)@ + i32_le(x),
{
    push_u32(out, x as u32);
}

/// Splits the `u32` off the front of `b`.
pub fn take_u32(b: &[u8]) -> (r: (u32, &[u8]))
    requires
        b@.len() >= 4,
    ensures
        parse_u32(b@) == Some((r.0, r.1@)),
{
    let x = read_u32(b, 0);
    let rest = vstd::slice::slice_subrange(b, 4, b.len());
    (x, rest)
}

/// Splits the `i32` off the front of `b`.
pub fn take_i32(b: &[u8]) -> (r: (i32, &[u8]))
    requires
        b@.len() >= 4,
    ensures
        parse_i32(b@) == Some((r.0, r.1@)),
{
    let x = read_i32(b, 0);
    let rest = vstd::slice::slice_subrange(b, 4, b.len());
    (x, rest)
}

/// Appends the bytes of `b`.
pub fn append_bytes(out: &mut Vec<u8>, b: &[u8])
    ensures
        final(out)@ == old(out)@ + b@,
{
    let ghost start = out@;
    let mut i: usize = 0;
    while i < b.len()
        invariant
            i <= b@.len(),
            out@ == start + b@.subrange(0, i as int),
        decreases b@.len() - i,
    {
        out.push(b[i]);
        i = i + 1;
        assert(out@ =~= start + b@.subrange(0, i as int));
    }
    assert(b@.subrange(0, b@.len() as int) =~= b@);
}

/// Reads `n` items off the front of `b`, one after the other, with `p`:
/// the items in order and what follows the last one.
pub open spec fn parse_list<T>(
    p: spec_fn(Seq<u8>) -> Option<(T, Seq<u8>)>,
    b: Seq<u8>,
    n: nat,
) -> Option<(Seq<T>, Seq<u8>)>
    decreases n,
{
    if n == 0 {
        Some((Seq::empty(), b))
    } else {
        match parse_list(p, b, (n - 1) as nat) {
            Some((xs, r)) => match p(r) {
                Some((x, r2)) => Some((xs.push(x), r2)),
                None => None,
            },
            None => None,
        }
    }
}

/// The items of `xs` written with `e`, one after the other.
pub open spec fn encode_list<T>(e: spec_fn(T) -> Seq<u8>, xs: Seq<T>) -> Seq<u8>
    decreases xs.len(),
{
    if xs.len() == 0 {
        Seq::empty()
    } else {
        encode_list(e, xs.drop_last()) + e(xs.last())
    }
}

/// `p` reads back what `e` wrote of `x`, whatever follows it.
pub open spec fn reads_back<T>(
    p: spec_fn(Seq<u8>) -> Option<(T, Seq<u8>)>,
    e: spec_fn(T) -> Seq<u8>,
    x: T,
) -> bool {
    forall|rest: Seq<u8>| #[trigger] p(e(x) + rest) == Some((x, rest))
}

/// Whatever `p` reads off `b`, `e` writes back as the bytes it consumed.
pub open spec fn writes_back<T>(
    p: spec_fn(Seq<u8>) -> Option<(T, Seq<u8>)>,
    e: spec_fn(T) -> Seq<u8>,
    b: Seq<u8>,
) -> bool {
    match p(b) {
        Some((x, r)) => e(x) + r == b,
        None => true,
    }
}

/// A list of items that `p` reads back is read back whole.
pub proof fn lemma_parse_encode_list<T>(
    p: spec_fn(Seq<u8>) -> Option<(T, Seq<u8>)>,
    e: spec_fn(T) -> Seq<u8>,
    xs: Seq<T>,
    rest: Seq<u8>,
)
    requires
        forall|i: int| 0 <= i < xs.len() ==> reads_back(p, e, #[trigger] xs[i]),
    ensures
        parse_list(p, encode_list(e, xs) + rest, xs.len()) == Some((xs, rest)),
    decreases xs.len(),
{
    if xs.len() > 0 {
        let ys = xs.drop_last();
        let l = xs.last();
        assert forall|i: int| 0 <= i < ys.len() implies reads_back(p, e, #[trigger] ys[i]) by {
            assert(ys[i] == xs[i]);
        }
        lemma_parse_encode_list(p, e, ys, e(l) + rest);
        assert(encode_list(e, xs) + rest =~= encode_list(e, ys) + (e(l) + rest));
        assert(reads_back(p, e, xs[xs.len() - 1]));
        assert(p(e(l) + rest) == Some((l, rest)));
        assert(ys.push(l) =~= xs);
    } else {
        assert(encode_list(e, xs) + rest =~= rest);
    }
}

/// A list that `p` reads off `b` is written back as the bytes it consumed.
pub proof fn lemma_encode_parse_list<T>(
    p: spec_fn(Seq<u8>) -> Option<(T, Seq<u8>)>,
    e: spec_fn(T) -> Seq<u8>,
    b: Seq<u8>,
    n: nat,
)
    requires
        forall|b2: Seq<u8>| #[trigger] writes_back(p, e, b2),
    ensures
        match parse_list(p, b, n) {
            Some((xs, r)) => xs.len() == n && encode_list(e, xs) + r == b,
            None => true,
        },
    decreases n,
{
    if n > 0 {
        lemma_encode_parse_list(p, e, b, (n - 1) as nat);
        match parse_list(p, b, (n - 1) as nat) {
            Some((xs, r)) => {
                assert(writes_back(p, e, r));
                match p(r) {
                    Some((x, r2)) => {
                        let ys = xs.push(x);
                        assert(ys.drop_last() =~= xs);
                        assert(encode_list(e, ys) + r2 =~= encode_list(e, xs) + (e(x) + r2));
                    },
                    None => {},
                }
            },
            None => {},
        }
    } else {
        assert(encode_list(e, Seq::<T>::empty()) + b =~= b);
    }
}

/// Once a list fails to read, every longer one fails too.
pub proof fn lemma_parse_list_fails<T>(
    p: spec_fn(Seq<u8>) -> Option<(T, Seq<u8>)>,
    b: Seq<u8>,
    k: nat,
    n: nat,
)
    requires
        k <= n,
        parse_list(p, b, k) is None,
    ensures
        parse_list(p, b, n) is None,
    decreases n,
{
    if n > k {
        lemma_parse_list_fails(p, b, k, (n - 1) as nat);
    }
}

/// A list preceded by its `u32` count.
pub open spec fn encode_counted<T>(e: spec_fn(T) -> Seq<u8>, xs: Seq<T>) -> Seq<u8> {
    u32_le(xs.len() as u32) + encode_list(e, xs)
}

/// Reads a `u32` count, then that many items with `p`.
pub open spec fn parse_counted<T>(
    p: spec_fn(Seq<u8>) -> Option<(T, Seq<u8>)>,
    b: Seq<u8>,
) -> Option<(Seq<T>, Seq<u8>)> {
    match parse_u32(b) {
        Some((n, b1)) => parse_list(p, b1, n as nat),
        None => None,
    }
}

/// A counted list whose items `p` reads back is read back whole.
pub proof fn lemma_parse_encode_counted<T>(
    p: spec_fn(Seq<u8>) -> Option<(T, Seq<u8>)>,
    e: spec_fn(T) -> Seq<u8>,
    xs: Seq<T>,
    rest: Seq<u8>,
)
    requires
        xs.len() <= u32::MAX,
        forall|i: int| 0 <= i < xs.len() ==> reads_back(p, e, #[trigger] xs[i]),
    ensures
        parse_counted(p, encode_counted(e, xs) + rest) == Some((xs, rest)),
{
    let n = xs.len() as u32;
    assert(encode_counted(e, xs) + rest =~= u32_le(n) + (encode_list(e, xs) + rest));
    lemma_parse_u32_le(n, encode_list(e, xs) + rest);
    lemma_parse_encode_list(p, e, xs, rest);
}

/// A counted list read off `b` is written back as exactly the bytes it took.
pub proof fn lemma_encode_parse_counted<T>(
    p: spec_fn(Seq<u8>) -> Option<(T, Seq<u8>)>,
    e: spec_fn(T) -> Seq<u8>,
    b: Seq<u8>,
)
    requires
        forall|b2: Seq<u8>| #[trigger] writes_back(p, e, b2),
    ensures
        match parse_counted(p, b) {
            Some((xs, r)) => xs.len() <= u32::MAX && encode_counted(e, xs) + r == b,
            None => true,
        },
{
    if b.len() >= 4 {
        let b1 = b.subrange(4, b.len() as int);
        let n = u32_at(b, 0);
        lemma_u32_le_parse(b);
        lemma_encode_parse_list(p, e, b1, n as nat);
        match parse_list(p, b1, n as nat) {
            Some((xs, r)) => {
                assert(encode_counted(e, xs) + r =~= u32_le(n) + (encode_list(e, xs) + r));
            },
            None => {},
        }
    }
}

/// The message of a list that fails to read: that of its first item that
/// fails, as `err` gives it for the bytes where that item starts.
pub open spec fn list_error<T>(
    p: spec_fn(Seq<u8>) -> Option<(T, Seq<u8>)>,
    err: spec_fn(Seq<u8>) -> Seq<char>,
    b: Seq<u8>,
    n: nat,
) -> Seq<char>
    decreases n,
{
    if n == 0 {
        Seq::empty()
    } else {
        match parse_list(p, b, (n - 1) as nat) {
            Some((_, r)) => err(r),
            None => list_error(p, err, b, (n - 1) as nat),
        }
    }
}

/// The message of a counted list that fails to read: `short` where the
/// count is cut short, else that of its first item that fails.
pub open spec fn counted_error<T>(
    p: spec_fn(Seq<u8>) -> Option<(T, Seq<u8>)>,
    err: spec_fn(Seq<u8>) -> Seq<char>,
    short: Seq<char>,
    b: Seq<u8>,
) -> Seq<char> {
    match parse_u32(b) {
        Some((n, b1)) => list_error(p, err, b1, n as nat),
        None => short,
    }
}

/// Where item `k` is the first to fail, a list of more than `k` items fails
/// with its message.
pub proof fn lemma_list_error<T>(
    p: spec_fn(Seq<u8>) -> Option<(T, Seq<u8>)>,
    err: spec_fn(Seq<u8>) -> Seq<char>,
    b: Seq<u8>,
    k: nat,
    n: nat,
    r: Seq<u8>,
)
    requires
        k < n,
        parse_list(p, b, k) matches Some((_, r0)) && r0 == r,
        p(r) is None,
    ensures
        list_error(p, err, b, n) == err(r),
        parse_list(p, b, n) is None,
    decreases n,
{
    lemma_parse_list_fails(p, b, k + 1, n);
    if n - 1 > k {
        lemma_list_error(p, err, b, k, (n - 1) as nat, r);
    }
}

/// Bytes appended after what `p` reads off `b` change nothing but its rest.
pub open spec fn extends<T>(p: spec_fn(Seq<u8>) -> Option<(T, Seq<u8>)>, b: Seq<u8>, s: Seq<u8>) -> bool {
    match p(b) {
        Some((x, r)) => p(b + s) == Some((x, r + s)),
        None => true,
    }
}

/// The number of bytes that a successful read of `b` consumed.
pub open spec fn consumed<T>(res: Option<(T, Seq<u8>)>, b: Seq<u8>) -> int {
    match res {
        Some((_, r)) => b.len() - r.len(),
        None => 0,
    }
}

/// A reader that appended bytes do not disturb fails on any input cut
/// short of what it consumed.
pub proof fn lemma_short_input_fails<T>(
    p: spec_fn(Seq<u8>) -> Option<(T, Seq<u8>)>,
    b: Seq<u8>,
    k: int,
)
    requires
        0 <= k < consumed(p(b), b),
        extends(p, b.subrange(0, k), b.subrange(k, b.len() as int)),
    ensures
        p(b.subrange(0, k)) is None,
{
    let head = b.subrange(0, k);
    let tail = b.subrange(k, b.len() as int);
    assert(head + tail =~= b);
    match p(head) {
        Some((x, r)) => {
            assert((r + tail).len() >= tail.len());
        },
        None => {},
    }
}

pub proof fn lemma_parse_u32_extends(b: Seq<u8>, s: Seq<u8>)
    ensures
        match parse_u32(b) {
            Some((x, r)) => parse_u32(b + s) == Some((x, r + s)),
            None => true,
        },
{
    if b.len() >= 4 {
        assert((b + s).subrange(4, (b + s).len() as int) =~= b.subrange(4, b.len() as int) + s);
        assert(u32_at(b + s, 0) == u32_at(b, 0));
    }
}

pub proof fn lemma_parse_i32_extends(b: Seq<u8>, s: Seq<u8>)
    ensures
        match parse_i32(b) {
            Some((x, r)) => parse_i32(b + s) == Some((x, r + s)),
            None => true,
        },
{
    if b.len() >= 4 {
        assert((b + s).subrange(4, (b + s).len() as int) =~= b.subrange(4, b.len() as int) + s);
        assert(u32_at(b + s, 0) == u32_at(b, 0));
    }
}

/// A list of items whose reader is not disturbed by appended bytes is not
/// disturbed either.
pub proof fn lemma_parse_list_extends<T>(
    p: spec_fn(Seq<u8>) -> Option<(T, Seq<u8>)>,
    b: Seq<u8>,
    s: Seq<u8>,
    n: nat,
)
    requires
        forall|b2: Seq<u8>, s2: Seq<u8>| #[trigger] extends(p, b2, s2),
    ensures
        match parse_list(p, b, n) {
            Some((xs, r)) => parse_list(p, b + s, n) == Some((xs, r + s)),
            None => true,
        },
    decreases n,
{
    if n > 0 {
        lemma_parse_list_extends(p, b, s, (n - 1) as nat);
        match parse_list(p, b, (n - 1) as nat) {
            Some((xs, r)) => {
                assert(extends(p, r, s));
            },
            None => {},
        }
    }
}

pub proof fn lemma_parse_counted_extends<T>(
    p: spec_fn(Seq<u8>) -> Option<(T, Seq<u8>)>,
    b: Seq<u8>,
    s: Seq<u8>,
)
    requires
        forall|b2: Seq<u8>, s2: Seq<u8>| #[trigger] extends(p, b2, s2),
    ensures
        match parse_counted(p, b) {
            Some((xs, r)) => parse_counted(p, b + s) == Some((xs, r + s)),
            None => true,
        },
{
    lemma_parse_u32_extends(b, s);
    match parse_u32(b) {
        Some((n, b1)) => {
            lemma_parse_list_extends(p, b1, s, n as nat);
        },
        None => {},
    }
}

} // verus!
