//! A whole module file: header, records and tables.
use vstd::prelude::*;
use crate::records::{
    function_encoder, function_fits, function_parser, global_encoder, global_parser,
    lemma_function_round_trip, lemma_function_writes_back, lemma_global_round_trip,
    lemma_global_writes_back, lemma_object_round_trip, lemma_object_writes_back, object_encoder,
    object_fits, object_parser, FunctionView, LocationView, MaruFunction, MaruGlobal, MaruLocation,
    MaruObject, ObjectView,
};
use crate::tables::{
    bytecode_table_bytes, bytecode_table_fits, lemma_bytecode_table_round_trip,
    lemma_bytecode_table_writes_back, lemma_locations_map_round_trip,
    lemma_locations_map_writes_back, lemma_string_table_round_trip,
    lemma_string_table_writes_back, locations_map_bytes, locations_map_fits,
    parse_bytecode_table, parse_locations_map, parse_string_table, string_table_bytes,
    string_table_fits, BytecodeTable, LocationsMap, StringTable,
};
use crate::type_tag::{BytecodeIndex, StringIndex};
use crate::wire::{
    encode_counted, encode_list, lemma_encode_parse_counted, lemma_parse_encode_counted,
    lemma_parse_u32_le, lemma_u32_le_parse, parse_counted, parse_list,
    parse_u32, push_u32, reads_back, take_u32, u32_at, u32_le, writes_back, extends,
    lemma_parse_counted_extends, counted_error, lemma_list_error,
};
use crate::records::{
    function_error_fn, global_error_fn, lemma_function_extends, lemma_global_extends,
    lemma_object_extends, object_error_fn,
};
use crate::tables::{
    bytecode_table_error, lemma_bytecode_table_extends, lemma_locations_map_extends,
    lemma_string_table_extends, locations_map_error, string_table_error,
};

verus! {

/// The first byte of every module file: ASCII `M`.
pub const MAGIC: u8 = 0x4D;

/// A loaded module file.
pub struct MaruFile {
    /// Always [`MAGIC`].
    pub magic: u8,
    pub major_version: u8,
    pub minor_version: u8,
    pub patch_version: u8,
    pub module_name: StringIndex,
    pub objects: Vec<MaruObject>,
    pub functions: Vec<MaruFunction>,
    pub globals: Vec<MaruGlobal>,
    pub string_table: StringTable,
    pub bytecode_table: BytecodeTable,
    pub locations_map: LocationsMap,
}

/// What a [`MaruFile`] holds.
pub struct FileView {
    pub magic: u8,
    pub major_version: u8,
    pub minor_version: u8,
    pub patch_version: u8,
    pub module_name: StringIndex,
    pub objects: Seq<ObjectView>,
    pub functions: Seq<FunctionView>,
    pub globals: Seq<MaruGlobal>,
    pub strings: Seq<Seq<char>>,
    pub bytecode: Seq<Seq<u8>>,
    pub locations: Seq<LocationView>,
}

impl View for MaruFile {
    type V = FileView;

    open spec fn view(&self) -> FileView {
        FileView {
            magic: self.magic,
            major_version: self.major_version,
            minor_version: self.minor_version,
            patch_version: self.patch_version,
            module_name: self.module_name,
            objects: self.objects@.map_values(|o: MaruObject| o@),
            functions: self.functions@.map_values(|f: MaruFunction| f@),
            globals: self.globals@,
            strings: self.string_table@,
            bytecode: self.bytecode_table@,
            locations: self.locations_map@,
        }
    }
}

/// The encoding of a module: magic, the three version bytes, the module
/// name, the counted objects, functions and globals, then the string table,
/// the bytecode table and the locations map.
pub open spec fn file_bytes(f: FileView) -> Seq<u8> {
    seq![f.magic, f.major_version, f.minor_version, f.patch_version] + u32_le(f.module_name)
        + encode_counted(object_encoder(), f.objects) + encode_counted(
        function_encoder(),
        f.functions,
    ) + encode_counted(global_encoder(), f.globals) + string_table_bytes(f.strings)
        + bytecode_table_bytes(f.bytecode) + locations_map_bytes(f.locations)
}

/// Reads a whole module file. Fails where the magic byte is wrong, where any
/// part is cut short or malformed, and where bytes follow the locations map.
pub open spec fn parse_file(b: Seq<u8>) -> Option<FileView> {
    if b.len() < 8 || b[0] != MAGIC {
        None
    } else {
        match parse_counted(object_parser(), b.subrange(8, b.len() as int)) {
            Some((objects, b2)) => match parse_counted(function_parser(), b2) {
                Some((functions, b3)) => match parse_counted(global_parser(), b3) {
                    Some((globals, b4)) => match parse_string_table(b4) {
                        Some((strings, b5)) => match parse_bytecode_table(b5) {
                            Some((bytecode, b6)) => match parse_locations_map(b6) {
                                Some((locations, r)) => if r.len() == 0 {
                                    Some(
                                        FileView {
                                            magic: b[0],
                                            major_version: b[1],
                                            minor_version: b[2],
                                            patch_version: b[3],
                                            module_name: u32_at(b, 4),
                                            objects,
                                            functions,
                                            globals,
                                            strings,
                                            bytecode,
                                            locations,
                                        },
                                    )
                                } else {
                                    None
                                },
                                None => None,
                            },
                            None => None,
                        },
                        None => None,
                    },
                    None => None,
                },
                None => None,
            },
            None => None,
        }
    }
}

/// The message with which a module file fails to read off `b`: it is too
/// short for a header, its magic byte is wrong, that of its first part that
/// fails, or bytes follow the locations map.
pub open spec fn file_error(b: Seq<u8>) -> Seq<char> {
    if b.len() < 8 {
        "Binary is too short to contain a valid Maru file"@
    } else if b[0] != MAGIC {
        "Invalid magic number"@
    } else {
        let b1 = b.subrange(8, b.len() as int);
        match parse_counted(object_parser(), b1) {
            None => counted_error(
                object_parser(),
                object_error_fn(),
                "Binary is too short to contain the object count"@,
                b1,
            ),
            Some((_, b2)) => match parse_counted(function_parser(), b2) {
                None => counted_error(
                    function_parser(),
                    function_error_fn(),
                    "Binary is too short to contain the function count"@,
                    b2,
                ),
                Some((_, b3)) => match parse_counted(global_parser(), b3) {
                    None => counted_error(
                        global_parser(),
                        global_error_fn(),
                        "Binary is too short to contain the global count"@,
                        b3,
                    ),
                    Some((_, b4)) => match parse_string_table(b4) {
                        None => string_table_error(b4),
                        Some((_, b5)) => match parse_bytecode_table(b5) {
                            None => bytecode_table_error(b5),
                            Some((_, b6)) => match parse_locations_map(b6) {
                                None => locations_map_error(b6),
                                Some(_) => "Unexpected bytes after the LocationsMap"@,
                            },
                        },
                    },
                },
            },
        }
    }
}

/// A module can be written and read back: its magic byte is [`MAGIC`],
/// every count fits its `u32` prefix and no string holds a NUL.
pub open spec fn file_fits(f: FileView) -> bool {
    &&& f.magic == MAGIC
    &&& f.objects.len() <= u32::MAX
    &&& forall|i: int| 0 <= i < f.objects.len() ==> object_fits(#[trigger] f.objects[i])
    &&& f.functions.len() <= u32::MAX
    &&& forall|i: int| 0 <= i < f.functions.len() ==> function_fits(#[trigger] f.functions[i])
    &&& f.globals.len() <= u32::MAX
    &&& string_table_fits(f.strings)
    &&& bytecode_table_fits(f.bytecode)
    &&& locations_map_fits(f.locations)
}

/// Decoding the encoding of a module gives back that module.
#[verifier::rlimit(40)]
pub proof fn lemma_decode_encode(f: FileView)
    requires
        file_fits(f),
    ensures
        parse_file(file_bytes(f)) == Some(f),
{
    let t6 = locations_map_bytes(f.locations);
    let t5 = bytecode_table_bytes(f.bytecode) + t6;
    let t4 = string_table_bytes(f.strings) + t5;
    let t3 = encode_counted(global_encoder(), f.globals) + t4;
    let t2 = encode_counted(function_encoder(), f.functions) + t3;
    let t1 = encode_counted(object_encoder(), f.objects) + t2;
    let b = file_bytes(f);
    assert(b =~= seq![f.magic, f.major_version, f.minor_version, f.patch_version] + (u32_le(
        f.module_name,
    ) + t1));
    let h = u32_le(f.module_name) + t1;
    assert(b.subrange(4, b.len() as int) =~= h);
    lemma_parse_u32_le(f.module_name, t1);
    assert(u32_at(b, 4) == u32_at(h, 0));
    assert(b.subrange(8, b.len() as int) =~= t1);
    assert forall|i: int| 0 <= i < f.objects.len() implies reads_back(
        object_parser(),
        object_encoder(),
        #[trigger] f.objects[i],
    ) by {
        assert forall|r: Seq<u8>| #[trigger]
            (object_parser())((object_encoder())(f.objects[i]) + r) == Some((f.objects[i], r)) by {
            lemma_object_round_trip(f.objects[i], r);
        }
    }
    lemma_parse_encode_counted(object_parser(), object_encoder(), f.objects, t2);
    assert forall|i: int| 0 <= i < f.functions.len() implies reads_back(
        function_parser(),
        function_encoder(),
        #[trigger] f.functions[i],
    ) by {
        assert forall|r: Seq<u8>| #[trigger]
            (function_parser())((function_encoder())(f.functions[i]) + r) == Some(
            (f.functions[i], r),
        ) by {
            lemma_function_round_trip(f.functions[i], r);
        }
    }
    lemma_parse_encode_counted(function_parser(), function_encoder(), f.functions, t3);
    assert forall|i: int| 0 <= i < f.globals.len() implies reads_back(
        global_parser(),
        global_encoder(),
        #[trigger] f.globals[i],
    ) by {
        assert forall|r: Seq<u8>| #[trigger]
            (global_parser())((global_encoder())(f.globals[i]) + r) == Some((f.globals[i], r)) by {
            lemma_global_round_trip(f.globals[i], r);
        }
    }
    lemma_parse_encode_counted(global_parser(), global_encoder(), f.globals, t4);
    lemma_string_table_round_trip(f.strings, t5);
    lemma_bytecode_table_round_trip(f.bytecode, t6);
    lemma_locations_map_round_trip(f.locations, Seq::empty());
    assert(t6 + Seq::<u8>::empty() =~= t6);
}

/// Every input that decodes is the encoding of what it decodes to, byte
/// for byte, and what it decodes to can be written again.
#[verifier::rlimit(40)]
pub proof fn lemma_encode_decode(b: Seq<u8>)
    ensures
        match parse_file(b) {
            Some(f) => file_fits(f) && file_bytes(f) == b,
            None => true,
        },
{
    if b.len() >= 8 && b[0] == MAGIC {
        let b1 = b.subrange(8, b.len() as int);
        assert forall|x: Seq<u8>| #[trigger] writes_back(object_parser(), object_encoder(), x) by {
            lemma_object_writes_back(x);
        }
        lemma_encode_parse_counted(object_parser(), object_encoder(), b1);
        match parse_counted(object_parser(), b1) {
            Some((objects, b2)) => {
                lemma_parsed_objects_fit(b1);
                assert forall|x: Seq<u8>| #[trigger]
                    writes_back(function_parser(), function_encoder(), x) by {
                    lemma_function_writes_back(x);
                }
                lemma_encode_parse_counted(function_parser(), function_encoder(), b2);
                match parse_counted(function_parser(), b2) {
                    Some((functions, b3)) => {
                        lemma_parsed_functions_fit(b2);
                        assert forall|x: Seq<u8>| #[trigger]
                            writes_back(global_parser(), global_encoder(), x) by {
                            lemma_global_writes_back(x);
                        }
                        lemma_encode_parse_counted(global_parser(), global_encoder(), b3);
                        match parse_counted(global_parser(), b3) {
                            Some((globals, b4)) => {
                                lemma_string_table_writes_back(b4);
                                match parse_string_table(b4) {
                                    Some((strings, b5)) => {
                                        lemma_bytecode_table_writes_back(b5);
                                        match parse_bytecode_table(b5) {
                                            Some((bytecode, b6)) => {
                                                lemma_locations_map_writes_back(b6);
                                                match parse_locations_map(b6) {
                                                    Some((locations, r)) => {
                                                        if r.len() == 0 {
                                                            assert(locations_map_bytes(locations)
                                                                + r =~= locations_map_bytes(
                                                                locations,
                                                            ));
                                                            let f = parse_file(b).unwrap();
                                                            lemma_file_bytes_split(
                                                                f,
                                                                b,
                                                                b2,
                                                                b3,
                                                                b4,
                                                                b5,
                                                                b6,
                                                            );
                                                        }
                                                    },
                                                    None => {},
                                                }
                                            },
                                            None => {},
                                        }
                                    },
                                    None => {},
                                }
                            },
                            None => {},
                        }
                    },
                    None => {},
                }
            },
            None => {},
        }
    }
}

/// A module whose parts were each written back from consecutive pieces of
/// `b` is written back as `b`.
proof fn lemma_file_bytes_split(
    f: FileView,
    b: Seq<u8>,
    b2: Seq<u8>,
    b3: Seq<u8>,
    b4: Seq<u8>,
    b5: Seq<u8>,
    b6: Seq<u8>,
)
    requires
        b.len() >= 8,
        f.magic == b[0],
        f.major_version == b[1],
        f.minor_version == b[2],
        f.patch_version == b[3],
        f.module_name == u32_at(b, 4),
        encode_counted(object_encoder(), f.objects) + b2 == b.subrange(8, b.len() as int),
        encode_counted(function_encoder(), f.functions) + b3 == b2,
        encode_counted(global_encoder(), f.globals) + b4 == b3,
        string_table_bytes(f.strings) + b5 == b4,
        bytecode_table_bytes(f.bytecode) + b6 == b5,
        locations_map_bytes(f.locations) == b6,
    ensures
        file_bytes(f) == b,
{
    let h = b.subrange(4, b.len() as int);
    lemma_u32_le_parse(h);
    assert(h.subrange(4, h.len() as int) =~= b.subrange(8, b.len() as int));
    assert(u32_at(h, 0) == u32_at(b, 4));
    assert(b =~= seq![b[0], b[1], b[2], b[3]] + h);
    let t1 = encode_counted(object_encoder(), f.objects);
    let t2 = encode_counted(function_encoder(), f.functions);
    let t3 = encode_counted(global_encoder(), f.globals);
    let t4 = string_table_bytes(f.strings);
    let t5 = bytecode_table_bytes(f.bytecode);
    let t6 = locations_map_bytes(f.locations);
    assert(file_bytes(f) =~= seq![b[0], b[1], b[2], b[3]] + (u32_le(f.module_name) + (t1 + (t2 + (
    t3 + (t4 + (t5 + t6)))))));
}

/// No input whose first byte is not [`MAGIC`] decodes.
pub proof fn lemma_wrong_magic_fails(b: Seq<u8>)
    requires
        b.len() == 0 || b[0] != MAGIC,
    ensures
        parse_file(b) is None,
{
}

/// No input cut short of a whole module file decodes: every strict prefix
/// of an input that decodes fails.
pub proof fn lemma_file_truncated(b: Seq<u8>, k: int)
    requires
        parse_file(b) is Some,
        0 <= k < b.len(),
    ensures
        parse_file(b.subrange(0, k)) is None,
{
    let head = b.subrange(0, k);
    let tail = b.subrange(k, b.len() as int);
    if head.len() >= 8 {
        assert(head[0] == b[0]);
        let h1 = head.subrange(8, head.len() as int);
        assert(h1 + tail =~= b.subrange(8, b.len() as int));
        assert forall|x: Seq<u8>, y: Seq<u8>| #[trigger] extends(object_parser(), x, y) by {
            lemma_object_extends(x, y);
        }
        assert forall|x: Seq<u8>, y: Seq<u8>| #[trigger] extends(function_parser(), x, y) by {
            lemma_function_extends(x, y);
        }
        assert forall|x: Seq<u8>, y: Seq<u8>| #[trigger] extends(global_parser(), x, y) by {
            lemma_global_extends(x, y);
        }
        lemma_parse_counted_extends(object_parser(), h1, tail);
        if let Some((_, h2)) = parse_counted(object_parser(), h1) {
            lemma_parse_counted_extends(function_parser(), h2, tail);
            if let Some((_, h3)) = parse_counted(function_parser(), h2) {
                lemma_parse_counted_extends(global_parser(), h3, tail);
                if let Some((_, h4)) = parse_counted(global_parser(), h3) {
                    lemma_string_table_extends(h4, tail);
                    if let Some((_, h5)) = parse_string_table(h4) {
                        lemma_bytecode_table_extends(h5, tail);
                        if let Some((_, h6)) = parse_bytecode_table(h5) {
                            lemma_locations_map_extends(h6, tail);
                            if let Some((_, r)) = parse_locations_map(h6) {
                                assert((r + tail).len() > 0);
                            }
                        }
                    }
                }
            }
        }
    }
}

/// Each object of an object list read off `b` can be written.
proof fn lemma_parsed_objects_fit(b: Seq<u8>)
    ensures
        match parse_counted(object_parser(), b) {
            Some((xs, _)) => forall|i: int| 0 <= i < xs.len() ==> object_fits(#[trigger] xs[i]),
            None => true,
        },
{
    if b.len() >= 4 {
        let b1 = b.subrange(4, b.len() as int);
        let n = u32_at(b, 0);
        match parse_list(object_parser(), b1, n as nat) {
            Some((xs, _)) => {
                assert forall|i: int| 0 <= i < xs.len() implies object_fits(#[trigger] xs[i]) by {
                    lemma_parsed_object_fits(b1, n as nat, i);
                }
            },
            None => {},
        }
    }
}

proof fn lemma_parsed_object_fits(b: Seq<u8>, n: nat, i: int)
    ensures
        match parse_list(object_parser(), b, n) {
            Some((xs, _)) => 0 <= i < xs.len() ==> object_fits(xs[i]),
            None => true,
        },
    decreases n,
{
    if n > 0 {
        lemma_parsed_object_fits(b, (n - 1) as nat, i);
        match parse_list(object_parser(), b, (n - 1) as nat) {
            Some((xs, r)) => {
                lemma_object_writes_back(r);
            },
            None => {},
        }
    }
}

/// Each function of a function list read off `b` can be written.
proof fn lemma_parsed_functions_fit(b: Seq<u8>)
    ensures
        match parse_counted(function_parser(), b) {
            Some((xs, _)) => forall|i: int| 0 <= i < xs.len() ==> function_fits(#[trigger] xs[i]),
            None => true,
        },
{
    if b.len() >= 4 {
        let b1 = b.subrange(4, b.len() as int);
        let n = u32_at(b, 0);
        match parse_list(function_parser(), b1, n as nat) {
            Some((xs, _)) => {
                assert forall|i: int| 0 <= i < xs.len() implies function_fits(#[trigger] xs[i]) by {
                    lemma_parsed_function_fits(b1, n as nat, i);
                }
            },
            None => {},
        }
    }
}

proof fn lemma_parsed_function_fits(b: Seq<u8>, n: nat, i: int)
    ensures
        match parse_list(function_parser(), b, n) {
            Some((xs, _)) => 0 <= i < xs.len() ==> function_fits(xs[i]),
            None => true,
        },
    decreases n,
{
    if n > 0 {
        lemma_parsed_function_fits(b, (n - 1) as nat, i);
        match parse_list(function_parser(), b, (n - 1) as nat) {
            Some((xs, r)) => {
                lemma_function_writes_back(r);
            },
            None => {},
        }
    }
}

/// Reads a counted list of objects off the front of `b`.
fn objects_from_binary(b: &[u8]) -> (r: Result<(Vec<MaruObject>, &[u8]), String>)
    ensures
        match r {
            Ok((xs, rest)) => parse_counted(object_parser(), b@) == Some(
                (xs@.map_values(|o: MaruObject| o@), rest@),
            ),
            Err(e) => parse_counted(object_parser(), b@) is None && e@ == counted_error(
                object_parser(),
                object_error_fn(),
                "Binary is too short to contain the object count"@,
                b@,
            ),
        },
{
    if b.len() < 4 {
        return Err(String::from_str("Binary is too short to contain the object count"));
    }
    let (n, b1) = take_u32(b);
    let mut cur = b1;
    let mut xs: Vec<MaruObject> = Vec::new();
    let mut i: u32 = 0;
    while i < n
        invariant
            i <= n,
            parse_u32(b@) == Some((n, b1@)),
            parse_list(object_parser(), b1@, i as nat) == Some(
                (xs@.map_values(|o: MaruObject| o@), cur@),
            ),
        decreases n - i,
    {
        match MaruObject::from_binary(cur) {
            Ok((o, rest)) => {
                let ghost before = xs@;
                xs.push(o);
                assert(xs@.map_values(|o: MaruObject| o@) =~= before.map_values(
                    |o: MaruObject| o@,
                ).push(o@));
                cur = rest;
            },
            Err(e) => {
                proof {
                    lemma_list_error(object_parser(), object_error_fn(), b1@, i as nat, n as nat, cur@);
                }
                return Err(e);
            },
        }
        i = i + 1;
    }
    Ok((xs, cur))
}

/// Reads a counted list of functions off the front of `b`.
fn functions_from_binary(b: &[u8]) -> (r: Result<(Vec<MaruFunction>, &[u8]), String>)
    ensures
        match r {
            Ok((xs, rest)) => parse_counted(function_parser(), b@) == Some(
                (xs@.map_values(|f: MaruFunction| f@), rest@),
            ),
            Err(e) => parse_counted(function_parser(), b@) is None && e@ == counted_error(
                function_parser(),
                function_error_fn(),
                "Binary is too short to contain the function count"@,
                b@,
            ),
        },
{
    if b.len() < 4 {
        return Err(String::from_str("Binary is too short to contain the function count"));
    }
    let (n, b1) = take_u32(b);
    let mut cur = b1;
    let mut xs: Vec<MaruFunction> = Vec::new();
    let mut i: u32 = 0;
    while i < n
        invariant
            i <= n,
            parse_u32(b@) == Some((n, b1@)),
            parse_list(function_parser(), b1@, i as nat) == Some(
                (xs@.map_values(|f: MaruFunction| f@), cur@),
            ),
        decreases n - i,
    {
        match MaruFunction::from_binary(cur) {
            Ok((f, rest)) => {
                let ghost before = xs@;
                xs.push(f);
                assert(xs@.map_values(|f: MaruFunction| f@) =~= before.map_values(
                    |f: MaruFunction| f@,
                ).push(f@));
                cur = rest;
            },
            Err(e) => {
                proof {
                    lemma_list_error(function_parser(), function_error_fn(), b1@, i as nat, n as nat, cur@);
                }
                return Err(e);
            },
        }
        i = i + 1;
    }
    Ok((xs, cur))
}

/// Reads a counted list of globals off the front of `b`.
fn globals_from_binary(b: &[u8]) -> (r: Result<(Vec<MaruGlobal>, &[u8]), String>)
    ensures
        match r {
            Ok((xs, rest)) => parse_counted(global_parser(), b@) == Some((xs@, rest@)),
            Err(e) => parse_counted(global_parser(), b@) is None && e@ == counted_error(
                global_parser(),
                global_error_fn(),
                "Binary is too short to contain the global count"@,
                b@,
            ),
        },
{
    if b.len() < 4 {
        return Err(String::from_str("Binary is too short to contain the global count"));
    }
    let (n, b1) = take_u32(b);
    let mut cur = b1;
    let mut xs: Vec<MaruGlobal> = Vec::new();
    let mut i: u32 = 0;
    while i < n
        invariant
            i <= n,
            parse_u32(b@) == Some((n, b1@)),
            parse_list(global_parser(), b1@, i as nat) == Some((xs@, cur@)),
        decreases n - i,
    {
        match MaruGlobal::from_binary(cur) {
            Ok((g, rest)) => {
                xs.push(g);
                cur = rest;
            },
            Err(e) => {
                proof {
                    lemma_list_error(global_parser(), global_error_fn(), b1@, i as nat, n as nat, cur@);
                }
                return Err(e);
            },
        }
        i = i + 1;
    }
    Ok((xs, cur))
}

impl MaruFile {
    /// An empty module: magic set, versions and module name zero, every
    /// list and table empty.
    pub fn new() -> (r: MaruFile)
        ensures
            r@ == (FileView {
                magic: MAGIC,
                major_version: 0,
                minor_version: 0,
                patch_version: 0,
                module_name: 0,
                objects: Seq::empty(),
                functions: Seq::empty(),
                globals: Seq::empty(),
                strings: Seq::empty(),
                bytecode: Seq::empty(),
                locations: Seq::empty(),
            }),
    {
        let r = MaruFile {
            magic: MAGIC,
            major_version: 0,
            minor_version: 0,
            patch_version: 0,
            module_name: 0,
            objects: Vec::new(),
            functions: Vec::new(),
            globals: Vec::new(),
            string_table: StringTable { entries: Vec::new() },
            bytecode_table: BytecodeTable { entries: Vec::new() },
            locations_map: LocationsMap { entries: Vec::new() },
        };
        assert(r@.objects =~= Seq::<ObjectView>::empty());
        assert(r@.functions =~= Seq::<FunctionView>::empty());
        assert(r@.strings =~= Seq::<Seq<char>>::empty());
        assert(r@.bytecode =~= Seq::<Seq<u8>>::empty());
        assert(r@.locations =~= Seq::<LocationView>::empty());
        r
    }

    /// Decodes a whole module file. Fails on a wrong magic byte, on input
    /// that ends early or is malformed anywhere, and on bytes left over
    /// after the locations map.
    pub fn from_binary(binary: &[u8]) -> (r: Result<MaruFile, String>)
        ensures
            match r {
                Ok(f) => parse_file(binary@) == Some(f@),
                Err(e) => parse_file(binary@) is None && e@ == file_error(binary@),
            },
    {
        if binary.len() < 8 {
            return Err(String::from_str("Binary is too short to contain a valid Maru file"));
        }
        let magic = binary[0];
        if magic != MAGIC {
            return Err(String::from_str("Invalid magic number"));
        }
        let major_version = binary[1];
        let minor_version = binary[2];
        let patch_version = binary[3];
        let module_name = crate::wire::read_u32(binary, 4);
        let b1 = vstd::slice::slice_subrange(binary, 8, binary.len());
        let (objects, b2) = match objects_from_binary(b1) {
            Ok(x) => x,
            Err(e) => {
                return Err(e);
            },
        };
        let (functions, b3) = match functions_from_binary(b2) {
            Ok(x) => x,
            Err(e) => {
                return Err(e);
            },
        };
        let (globals, b4) = match globals_from_binary(b3) {
            Ok(x) => x,
            Err(e) => {
                return Err(e);
            },
        };
        let (string_table, b5) = match StringTable::from_binary(b4) {
            Ok(x) => x,
            Err(e) => {
                return Err(e);
            },
        };
        let (bytecode_table, b6) = match BytecodeTable::from_binary(b5) {
            Ok(x) => x,
            Err(e) => {
                return Err(e);
            },
        };
        let (locations_map, rest) = match LocationsMap::from_binary(b6) {
            Ok(x) => x,
            Err(e) => {
                return Err(e);
            },
        };
        if rest.len() != 0 {
            return Err(String::from_str("Unexpected bytes after the LocationsMap"));
        }
        Ok(
            MaruFile {
                magic,
                major_version,
                minor_version,
                patch_version,
                module_name,
                objects,
                functions,
                globals,
                string_table,
                bytecode_table,
                locations_map,
            },
        )
    }

    pub fn add_object(&mut self, object: MaruObject)
        ensures
            final(self)@ == (FileView { objects: old(self)@.objects.push(object@), ..old(self)@ }),
    {
        let ghost before = self.objects@;
        self.objects.push(object);
        assert(self.objects@.map_values(|o: MaruObject| o@) =~= before.map_values(
            |o: MaruObject| o@,
        ).push(object@));
    }

    pub fn add_function(&mut self, function: MaruFunction)
        ensures
            final(self)@ == (FileView {
                functions: old(self)@.functions.push(function@),
                ..old(self)@
            }),
    {
        let ghost before = self.functions@;
        self.functions.push(function);
        assert(self.functions@.map_values(|f: MaruFunction| f@) =~= before.map_values(
            |f: MaruFunction| f@,
        ).push(function@));
    }

    pub fn add_global(&mut self, global: MaruGlobal)
        ensures
            final(self)@ == (FileView { globals: old(self)@.globals.push(global), ..old(self)@ }),
    {
        self.globals.push(global);
    }

    /// Adds a string at the end of the string table and returns its index.
    /// The index must fit a `StringIndex`.
    pub fn add_string(&mut self, string: String) -> (r: StringIndex)
        requires
            old(self)@.strings.len() <= u32::MAX,
        ensures
            r == old(self)@.strings.len(),
            final(self)@ == (FileView { strings: old(self)@.strings.push(string@), ..old(self)@ }),
    {
        let index = self.string_table.entries.len() as StringIndex;
        let ghost before = self.string_table.entries@;
        self.string_table.entries.push(string);
        assert(self.string_table.entries@.map_values(|s: String| s@) =~= before.map_values(
            |s: String| s@,
        ).push(string@));
        index
    }

    /// Adds a body at the end of the bytecode table and returns its index.
    /// The index must fit a non-negative `BytecodeIndex`.
    pub fn add_bytecode(&mut self, bytecode: Box<[u8]>) -> (r: BytecodeIndex)
        requires
            old(self)@.bytecode.len() <= i32::MAX,
        ensures
            r == old(self)@.bytecode.len(),
            final(self)@ == (FileView {
                bytecode: old(self)@.bytecode.push(bytecode@),
                ..old(self)@
            }),
    {
        let index = self.bytecode_table.entries.len() as BytecodeIndex;
        let ghost before = self.bytecode_table.entries@;
        let ghost body = bytecode@;
        self.bytecode_table.entries.push(bytecode);
        assert(self.bytecode_table.entries@.map_values(|e: Box<[u8]>| e@) =~= before.map_values(
            |e: Box<[u8]>| e@,
        ).push(body));
        index
    }

    /// Adds the locations of the next bytecode body and returns their index.
    /// The index must fit a non-negative `BytecodeIndex`.
    pub fn add_location(&mut self, location: MaruLocation) -> (r: BytecodeIndex)
        requires
            old(self)@.locations.len() <= i32::MAX,
        ensures
            r == old(self)@.locations.len(),
            final(self)@ == (FileView {
                locations: old(self)@.locations.push(location@),
                ..old(self)@
            }),
    {
        let index = self.locations_map.entries.len() as BytecodeIndex;
        let ghost before = self.locations_map.entries@;
        self.locations_map.entries.push(location);
        assert(self.locations_map.entries@.map_values(|l: MaruLocation| l@) =~= before.map_values(
            |l: MaruLocation| l@,
        ).push(location@));
        index
    }

    /// The string at `index`, which must be in range.
    pub fn get_string(&self, index: StringIndex) -> (r: &str)
        requires
            index < self@.strings.len(),
        ensures
            r@ == self@.strings[index as int],
    {
        self.string_table.entries[index as usize].as_str()
    }

    /// The bytecode body at `index`, which must be in range.
    pub fn get_bytecode(&self, index: BytecodeIndex) -> (r: &[u8])
        requires
            0 <= index < self@.bytecode.len(),
        ensures
            r@ == self@.bytecode[index as int],
    {
        &self.bytecode_table.entries[index as usize]
    }

    /// The locations of the bytecode body at `index`, which must be in range.
    pub fn get_location(&self, index: BytecodeIndex) -> (r: &MaruLocation)
        requires
            0 <= index < self@.locations.len(),
        ensures
            r@ == self@.locations[index as int],
    {
        &self.locations_map.entries[index as usize]
    }

    /// The first object named `name`, if any.
    pub fn get_object(&self, name: StringIndex) -> (r: Option<&MaruObject>)
        ensures
            match r {
                Some(o) => exists|i: int|
                    0 <= i < self.objects@.len() && self.objects@[i] == *o && o.name == name
                        && forall|j: int| 0 <= j < i ==> self.objects@[j].name != name,
                None => forall|i: int| 0 <= i < self.objects@.len() ==> self.objects@[i].name != name,
            },
    {
        let mut i: usize = 0;
        while i < self.objects.len()
            invariant
                i <= self.objects@.len(),
                forall|j: int| 0 <= j < i ==> self.objects@[j].name != name,
            decreases self.objects@.len() - i,
        {
            if self.objects[i].name == name {
                return Some(&self.objects[i]);
            }
            i = i + 1;
        }
        None
    }

    /// The first function named `name`, if any.
    pub fn get_function(&self, name: StringIndex) -> (r: Option<&MaruFunction>)
        ensures
            match r {
                Some(f) => exists|i: int|
                    0 <= i < self.functions@.len() && self.functions@[i] == *f && f.name == name
                        && forall|j: int| 0 <= j < i ==> self.functions@[j].name != name,
                None => forall|i: int|
                    0 <= i < self.functions@.len() ==> self.functions@[i].name != name,
            },
    {
        let mut i: usize = 0;
        while i < self.functions.len()
            invariant
                i <= self.functions@.len(),
                forall|j: int| 0 <= j < i ==> self.functions@[j].name != name,
            decreases self.functions@.len() - i,
        {
            if self.functions[i].name == name {
                return Some(&self.functions[i]);
            }
            i = i + 1;
        }
        None
    }

    /// The first global named `name`, if any.
    pub fn get_global(&self, name: StringIndex) -> (r: Option<&MaruGlobal>)
        ensures
            match r {
                Some(g) => exists|i: int|
                    0 <= i < self.globals@.len() && self.globals@[i] == *g && g.name == name
                        && forall|j: int| 0 <= j < i ==> self.globals@[j].name != name,
                None => forall|i: int| 0 <= i < self.globals@.len() ==> self.globals@[i].name != name,
            },
    {
        let mut i: usize = 0;
        while i < self.globals.len()
            invariant
                i <= self.globals@.len(),
                forall|j: int| 0 <= j < i ==> self.globals@[j].name != name,
            decreases self.globals@.len() - i,
        {
            if self.globals[i].name == name {
                return Some(&self.globals[i]);
            }
            i = i + 1;
        }
        None
    }

    /// The encoding of this module. It must be writable: see [`file_fits`].
    pub fn into_binary(self) -> (r: Vec<u8>)
        requires
            file_fits(self@),
        ensures
            r@ == file_bytes(self@),
    {
        let ghost f = self@;
        let mut out: Vec<u8> = Vec::new();
        out.push(self.magic);
        out.push(self.major_version);
        out.push(self.minor_version);
        out.push(self.patch_version);
        push_u32(&mut out, self.module_name);
        let ghost at_objects = out@;
        push_u32(&mut out, self.objects.len() as u32);
        let ghost h1 = out@;
        let mut i: usize = 0;
        while i < self.objects.len()
            invariant
                i <= self.objects@.len(),
                f == self@,
                file_fits(f),
                out@ == h1 + encode_list(object_encoder(), f.objects.subrange(0, i as int)),
            decreases self.objects@.len() - i,
        {
            assert(f.objects[i as int] == self.objects@[i as int]@);
            self.objects[i].write_to(&mut out);
            proof {
                let xs = f.objects.subrange(0, i + 1);
                assert(xs.drop_last() =~= f.objects.subrange(0, i as int));
            }
            i = i + 1;
            assert(out@ =~= h1 + encode_list(object_encoder(), f.objects.subrange(0, i as int)));
        }
        assert(f.objects.subrange(0, i as int) =~= f.objects);
        assert(out@ =~= at_objects + encode_counted(object_encoder(), f.objects));
        let ghost at_functions = out@;
        push_u32(&mut out, self.functions.len() as u32);
        let ghost h2 = out@;
        let mut i: usize = 0;
        while i < self.functions.len()
            invariant
                i <= self.functions@.len(),
                f == self@,
                file_fits(f),
                out@ == h2 + encode_list(function_encoder(), f.functions.subrange(0, i as int)),
            decreases self.functions@.len() - i,
        {
            assert(f.functions[i as int] == self.functions@[i as int]@);
            self.functions[i].write_to(&mut out);
            proof {
                let xs = f.functions.subrange(0, i + 1);
                assert(xs.drop_last() =~= f.functions.subrange(0, i as int));
            }
            i = i + 1;
            assert(out@ =~= h2 + encode_list(function_encoder(), f.functions.subrange(0, i as int)));
        }
        assert(f.functions.subrange(0, i as int) =~= f.functions);
        assert(out@ =~= at_functions + encode_counted(function_encoder(), f.functions));
        let ghost at_globals = out@;
        push_u32(&mut out, self.globals.len() as u32);
        let ghost h3 = out@;
        let mut i: usize = 0;
        while i < self.globals.len()
            invariant
                i <= self.globals@.len(),
                f == self@,
                out@ == h3 + encode_list(global_encoder(), f.globals.subrange(0, i as int)),
            decreases self.globals@.len() - i,
        {
            self.globals[i].write_to(&mut out);
            proof {
                let xs = f.globals.subrange(0, i + 1);
                assert(xs.drop_last() =~= f.globals.subrange(0, i as int));
            }
            i = i + 1;
            assert(out@ =~= h3 + encode_list(global_encoder(), f.globals.subrange(0, i as int)));
        }
        assert(f.globals.subrange(0, i as int) =~= f.globals);
        assert(out@ =~= at_globals + encode_counted(global_encoder(), f.globals));
        self.string_table.write_to(&mut out);
        self.bytecode_table.write_to(&mut out);
        self.locations_map.write_to(&mut out);
        assert(out@ =~= file_bytes(f));
        out
    }
}

} // verus!
