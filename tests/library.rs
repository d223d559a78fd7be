use maru::allocator::{AllocationGroup, Allocator};
use maru::bytecode::{
    decode_call_argument, decode_id, decode_instruction, decode_jump_branch, decode_length,
    decode_match_case, decode_switch_case, Instruction,
};
use maru::function_table::{Function, FunctionData, GetFunctionResult};
use maru::object_table::{ObjectDescTable, ObjectDescription, ObjectLayout, VariantDescription};
use maru::refcounter::RefCounter;
use maru::string_entry::StringEntry;
use maru::vm::{StackFrameCore, VmType};
use maru::{
    BytecodeTable, LocationsMap, MaruFile, MaruFunction, MaruGlobal, MaruLocation, MaruObject,
    MaruTypeTag, MaruVariant, StringTable,
};

fn sample_file() -> MaruFile {
    let mut file = MaruFile::new();
    file.major_version = 4;
    file.minor_version = 5;
    file.patch_version = 6;
    file.module_name = file.add_string("main".to_string());
    let s1 = file.add_string("Option".to_string());
    let s2 = file.add_string("héllo".to_string());
    let bc = file.add_bytecode(vec![1u8, 2, 3, 4].into_boxed_slice());
    file.add_location(MaruLocation::new(s2, vec![(5, 9)]));
    file.add_object(MaruObject {
        name: s1,
        mono_name: s1,
        variants: vec![MaruVariant { name: 1, mono_name: 2, members: vec![(3, MaruTypeTag::Object(7))] }],
        internal: 0,
    });
    file.add_function(MaruFunction {
        name: s2,
        mono_name: s2,
        parameters: vec![MaruTypeTag::I64, MaruTypeTag::F32],
        return_type: MaruTypeTag::Bool,
        bytecode_index: bc,
        variables: 3,
    });
    file.add_global(MaruGlobal { name: s1, type_tag: MaruTypeTag::U16, init_index: -2 });
    file
}

#[test]
fn opcode_round_trip_and_invalid_bytes() {
    for b in 0u8..=255 {
        match Instruction::from_byte(b) {
            Some(i) => {
                assert!(b < 80);
                assert_eq!(i.to_byte(), b);
                assert_eq!(decode_instruction(b), i);
            }
            None => assert!(b >= 80),
        }
    }
    assert_eq!(Instruction::from_byte(0), Some(Instruction::Load8));
    assert_eq!(Instruction::from_byte(39), Some(Instruction::ByteSwap));
    assert_eq!(Instruction::from_byte(79), Some(Instruction::StartBlock));
    assert_eq!(Instruction::CreateObject.to_byte(), 56);
    assert_eq!(Instruction::from_byte(80), None);
}

#[test]
fn operand_decoders_read_little_endian() {
    assert_eq!(decode_length(&[0x78, 0x56, 0x34, 0x12]), 0x12345678);
    assert_eq!(decode_id(&[1, 0, 0, 0, 99]), 1);
    let arg = decode_call_argument(&[2, 7, 0, 0, 0]);
    assert!(arg.increment_ref);
    assert_eq!(arg.register, 7);
    assert!(!decode_call_argument(&[0, 1, 1, 0, 0]).increment_ref);
    let branch = decode_jump_branch(&[3, 0, 0, 0, 0xFE, 0xFF, 0xFF, 0xFF]);
    assert_eq!(branch.block_id, 3);
    assert_eq!(branch.offset, -2);
    let mut sw = Vec::new();
    sw.extend_from_slice(&0x0102030405060708u64.to_le_bytes());
    sw.extend_from_slice(&9u32.to_le_bytes());
    sw.extend_from_slice(&(-40i32).to_le_bytes());
    let case = decode_switch_case(&sw);
    assert_eq!(case.value, 0x0102030405060708);
    assert_eq!(case.branch.block_id, 9);
    assert_eq!(case.branch.offset, -40);
    let mut m = Vec::new();
    m.extend_from_slice(&11u32.to_le_bytes());
    m.extend_from_slice(&12u32.to_le_bytes());
    m.extend_from_slice(&13i32.to_le_bytes());
    let mc = decode_match_case(&m);
    assert_eq!(mc.tag, 11);
    assert_eq!(mc.branch.block_id, 12);
    assert_eq!(mc.branch.offset, 13);
}

#[test]
fn object_type_tag_encodes_index_little_endian() {
    assert_eq!(MaruTypeTag::Object(42).into_binary(), vec![12, 42, 0, 0, 0]);
    assert_eq!(MaruTypeTag::Unit.into_binary(), vec![0]);
    assert_eq!(MaruTypeTag::F64.into_binary(), vec![11]);
    let (t, rest) = MaruTypeTag::from_binary(&[12, 1, 2, 0, 0, 9]).unwrap();
    assert_eq!(t, MaruTypeTag::Object(0x0201));
    assert_eq!(rest, &[9]);
}

#[test]
fn type_tag_errors() {
    assert!(MaruTypeTag::from_binary(&[12, 1, 2, 3]).is_err());
    let err = MaruTypeTag::from_binary(&[13]).err().unwrap();
    assert_eq!(err, "Unknown MaruTypeTag tag: 13");
    let err = MaruTypeTag::from_binary(&[255, 0]).err().unwrap();
    assert_eq!(err, "Unknown MaruTypeTag tag: 255");
}

#[test]
fn string_table_exact_bytes() {
    assert_eq!(StringTable { entries: vec![] }.into_binary(), vec![0, 0, 0, 0]);
    assert_eq!(StringTable { entries: vec!["".to_string()] }.into_binary(), vec![1, 0, 0, 0, 0]);
    assert_eq!(
        StringTable { entries: vec!["ab".to_string(), "é".to_string()] }.into_binary(),
        vec![2, 0, 0, 0, b'a', b'b', 0, 0xC3, 0xA9, 0]
    );
}

#[test]
fn string_table_decodes_utf8_entries() {
    let bytes = [2u8, 0, 0, 0, 0x68, 0xC3, 0xA9, 0, 0x7A, 0, 0xAA];
    let (t, rest) = StringTable::from_binary(&bytes).unwrap();
    assert_eq!(t.entries, vec!["hé".to_string(), "z".to_string()]);
    assert_eq!(rest, &[0xAA]);
}

#[test]
fn string_table_rejects_invalid_utf8_and_missing_nul() {
    let bad = [1u8, 0, 0, 0, 0xFF, 0xFE, 0];
    assert!(StringTable::from_binary(&bad).err().unwrap().contains("UTF-8"));
    let unterminated = [1u8, 0, 0, 0, b'a', b'b'];
    assert!(StringTable::from_binary(&unterminated).is_err());
}

#[test]
fn bytecode_table_keeps_bodies() {
    let bytes = [2u8, 0, 0, 0, 3, 0, 0, 0, 7, 8, 9, 0, 0, 0, 0, 5];
    let (t, rest) = BytecodeTable::from_binary(&bytes).unwrap();
    assert_eq!(t.entries.len(), 2);
    assert_eq!(&*t.entries[0], &[7u8, 8, 9]);
    assert_eq!(t.entries[1].len(), 0);
    assert_eq!(rest, &[5]);
}

#[test]
fn bytecode_table_truncated_body_is_an_error() {
    let mut v = Vec::new();
    v.extend_from_slice(&1u32.to_le_bytes());
    v.extend_from_slice(&10u32.to_le_bytes());
    v.extend_from_slice(&[1u8, 2u8]);
    let err = BytecodeTable::from_binary(&v).err().unwrap();
    assert!(err.contains("BytecodeTable"));
}

#[test]
fn variant_with_unknown_member_tag_is_an_error() {
    let mut v = Vec::new();
    v.extend_from_slice(&1u32.to_le_bytes());
    v.extend_from_slice(&2u32.to_le_bytes());
    v.extend_from_slice(&1u32.to_le_bytes());
    v.extend_from_slice(&10u32.to_le_bytes());
    v.push(255u8);
    let err = MaruVariant::from_binary(&v).err().unwrap();
    assert!(err.contains("Unknown MaruTypeTag tag"));
}

#[test]
fn object_with_two_variants_round_trips_with_internal() {
    let object = MaruObject {
        name: 1,
        mono_name: 2,
        variants: vec![
            MaruVariant { name: 3, mono_name: 4, members: vec![(5, MaruTypeTag::U32)] },
            MaruVariant { name: 6, mono_name: 7, members: vec![(8, MaruTypeTag::U32)] },
        ],
        internal: 3,
    };
    let bytes = object.into_binary();
    assert_eq!(bytes.len(), 12 + 2 * (12 + 5) + 4);
    let (back, rest) = MaruObject::from_binary(&bytes).unwrap();
    assert!(rest.is_empty());
    assert_eq!(back.name, 1);
    assert_eq!(back.mono_name, 2);
    assert_eq!(back.internal, 3);
    assert_eq!(back.variants.len(), 2);
    assert_eq!(back.variants[0].members, vec![(5, MaruTypeTag::U32)]);
    assert_eq!(back.variants[1].name, 6);
    assert_eq!(back.variants[1].members, vec![(8, MaruTypeTag::U32)]);
    assert_eq!(back.into_binary(), bytes);
}

#[test]
fn empty_module_header_round_trips() {
    let mut file = MaruFile::new();
    file.major_version = 1;
    file.minor_version = 2;
    file.patch_version = 3;
    let bytes = file.into_binary();
    let mut expected = vec![0x4D, 1, 2, 3, 0, 0, 0, 0];
    expected.extend_from_slice(&[0u8; 24]);
    assert_eq!(bytes, expected);
    let back = MaruFile::from_binary(&bytes).unwrap();
    assert_eq!(back.magic, 0x4D);
    assert_eq!((back.major_version, back.minor_version, back.patch_version), (1, 2, 3));
    assert!(back.objects.is_empty() && back.functions.is_empty() && back.globals.is_empty());
    assert_eq!(back.into_binary(), expected);
}

#[test]
fn module_round_trips_structurally() {
    let bytes = sample_file().into_binary();
    let back = MaruFile::from_binary(&bytes).unwrap();
    assert_eq!(back.get_string(0), "main");
    assert_eq!(back.get_string(2), "héllo");
    assert_eq!(back.get_bytecode(0), &[1u8, 2, 3, 4]);
    assert_eq!(back.get_location(0).locations, vec![(5, 9)]);
    let object = back.get_object(1).unwrap();
    assert_eq!(object.variants[0].members, vec![(3, MaruTypeTag::Object(7))]);
    let function = back.get_function(2).unwrap();
    assert_eq!(function.parameters, vec![MaruTypeTag::I64, MaruTypeTag::F32]);
    assert_eq!(function.return_type, MaruTypeTag::Bool);
    assert_eq!(function.variables, 3);
    assert_eq!(back.get_global(1), Some(&MaruGlobal { name: 1, type_tag: MaruTypeTag::U16, init_index: -2 }));
    assert!(back.get_global(9).is_none());
    assert_eq!(back.into_binary(), bytes);
}

#[test]
fn wrong_magic_fails() {
    let good = sample_file().into_binary();
    for first in [0u8, 0x4C, 0x4E, 0xFF] {
        let mut bad = good.clone();
        bad[0] = first;
        assert_eq!(MaruFile::from_binary(&bad).err().unwrap(), "Invalid magic number");
    }
}

#[test]
fn trailing_bytes_after_module_fail() {
    let mut bytes = sample_file().into_binary();
    bytes.push(0);
    assert!(MaruFile::from_binary(&bytes).is_err());
}

#[test]
fn every_strict_prefix_is_an_error() {
    let file = sample_file().into_binary();
    for n in 0..file.len() {
        assert!(MaruFile::from_binary(&file[..n]).is_err());
    }
    let tag = MaruTypeTag::Object(5).into_binary();
    for n in 0..tag.len() {
        assert!(MaruTypeTag::from_binary(&tag[..n]).is_err());
    }
    let variant = MaruVariant { name: 1, mono_name: 1, members: vec![(2, MaruTypeTag::U8)] }.into_binary();
    for n in 0..variant.len() {
        assert!(MaruVariant::from_binary(&variant[..n]).is_err());
    }
    let object = MaruObject { name: 1, mono_name: 1, variants: vec![], internal: 2 }.into_binary();
    for n in 0..object.len() {
        assert!(MaruObject::from_binary(&object[..n]).is_err());
    }
    let function = MaruFunction {
        name: 1,
        mono_name: 1,
        parameters: vec![MaruTypeTag::U8],
        return_type: MaruTypeTag::Object(3),
        bytecode_index: 0,
        variables: 1,
    }
    .into_binary();
    for n in 0..function.len() {
        assert!(MaruFunction::from_binary(&function[..n]).is_err());
    }
    let global = MaruGlobal { name: 1, type_tag: MaruTypeTag::I8, init_index: 0 }.into_binary();
    for n in 0..global.len() {
        assert!(MaruGlobal::from_binary(&global[..n]).is_err());
    }
    let strings = StringTable { entries: vec!["ab".to_string()] }.into_binary();
    for n in 0..strings.len() {
        assert!(StringTable::from_binary(&strings[..n]).is_err());
    }
    let bodies = BytecodeTable { entries: vec![vec![1u8, 2].into_boxed_slice()] }.into_binary();
    for n in 0..bodies.len() {
        assert!(BytecodeTable::from_binary(&bodies[..n]).is_err());
    }
    let location = MaruLocation::new(1, vec![(2, 3)]).into_binary();
    for n in 0..location.len() {
        assert!(MaruLocation::from_binary(&location[..n]).is_err());
    }
    let map = LocationsMap { entries: vec![MaruLocation::new(1, vec![(2, 3)])] }.into_binary();
    for n in 0..map.len() {
        assert!(LocationsMap::from_binary(&map[..n]).is_err());
    }
}

#[test]
fn add_location_appends_spans() {
    let mut loc = MaruLocation::new(4, vec![]);
    loc.add_location(1, 2);
    loc.add_location(3, 4);
    assert_eq!(loc.locations, vec![(1, 2), (3, 4)]);
    assert_eq!(loc.into_binary(), vec![4, 0, 0, 0, 2, 0, 0, 0, 1, 0, 0, 0, 2, 0, 0, 0, 3, 0, 0, 0, 4, 0, 0, 0]);
}

#[test]
fn refcounter_starting_values() {
    assert_eq!(RefCounter::new().fetch_value(), 1);
    assert_eq!(RefCounter::new_atomic().fetch_value(), -1);
}

#[test]
fn refcounter_shared_scenario() {
    let mut rc = RefCounter::new();
    rc.increment();
    rc.increment();
    assert_eq!(rc.fetch_value(), 3);
    rc.make_shared();
    rc.increment();
    rc.increment();
    assert_eq!(rc.fetch_value(), -5);
    assert_eq!(rc.decrement(), -4);
    assert_eq!(rc.decrement(), -3);
    assert_eq!(rc.decrement(), -2);
    assert_eq!(rc.decrement(), -1);
    assert_eq!(rc.decrement(), 0);
}

#[test]
fn refcounter_mode_switches() {
    let mut rc = RefCounter::new();
    rc.increment();
    rc.make_shared();
    assert_eq!(rc.fetch_value(), -2);
    rc.make_shared();
    assert_eq!(rc.fetch_value(), -2);
    assert!(!rc.make_unshared());
    assert_eq!(rc.fetch_value(), -2);
    assert_eq!(rc.decrement(), -1);
    assert!(rc.make_unshared());
    assert_eq!(rc.fetch_value(), 1);
    assert!(!rc.make_unshared());
    assert_eq!(rc.decrement(), 0);
}

#[test]
fn stack_frame_core_lifecycle() {
    let mut core = StackFrameCore::new(3);
    assert_eq!(core.variables_len, 3);
    assert_eq!(core.variables, Some(vec![0, 0, 0]));
    assert_eq!(core.variables_type, Some(vec![VmType::Unit; 3]));
    assert!(core.prev.is_none() && core.next.is_none());
    core.return_slot = 9;
    core.free_memory();
    assert!(core.variables.is_none() && core.variables_type.is_none());
    assert_eq!(core.return_slot, 9);
}

fn desc_table() -> ObjectDescTable {
    let mut table = ObjectDescTable::new(3);
    for (symbol, size) in [(0u32, 48usize), (1, 16), (2, 8)] {
        table.push_desc(ObjectDescription {
            name: symbol,
            mono_name: symbol,
            size,
            variants: vec![VariantDescription {
                variant_names: vec![10, 11].into_boxed_slice(),
                packing_offsets: vec![8, 0].into_boxed_slice(),
            }]
            .into_boxed_slice(),
            layout: ObjectLayout { size: size + 16, align: 8 },
        });
    }
    table
}

#[test]
fn object_table_lookup_and_offsets() {
    let table = desc_table();
    assert_eq!(table.len(), 3);
    assert_eq!(table.index(1).size, 16);
    assert_eq!(table.index(2).layout, ObjectLayout { size: 24, align: 8 });
    assert_eq!(table.index(1).field_offset(0, 0), 8);
    assert_eq!(table.index(1).field_offset(0, 1), 0);
}

#[test]
fn allocator_reuses_oldest_block_of_the_type() {
    let table = desc_table();
    let mut alloc = Allocator::new(3);
    let mut a = alloc.allocate(1, 0, &table);
    assert_eq!(a.data, vec![0u8; 16]);
    assert_eq!((a.metadata.type_id, a.metadata.variant_id), (1, 0));
    assert_eq!(a.metadata.refcount.fetch_value(), 1);
    a.data[0] = 7;
    let mut b = alloc.allocate(1, 0, &table);
    b.data[0] = 8;
    assert_eq!(a.metadata.refcount.decrement(), 0);
    assert_eq!(b.metadata.refcount.decrement(), 0);
    alloc.reuse_memory(a);
    alloc.reuse_memory(b);
    let mut c = alloc.allocate(1, 5, &table);
    assert_eq!(c.data[0], 7);
    assert_eq!(c.metadata.variant_id, 5);
    assert_eq!(c.metadata.refcount.fetch_value(), 1);
    let d = alloc.allocate(1, 0, &table);
    assert_eq!(d.data[0], 8);
    let e = alloc.allocate(2, 0, &table);
    assert_eq!(e.data, vec![0u8; 8]);
    Allocator::deallocate(e);
}

#[test]
fn allocator_stack_frames() {
    let mut alloc = Allocator::new(3);
    let frame = alloc.allocate_stack_frame(4);
    assert_eq!(frame.metadata.type_id, 0);
    assert_eq!(frame.core.variables_len, 4);
    alloc.reuse_stack_frame_memory(frame);
    let again = alloc.allocate_stack_frame(2);
    assert_eq!(again.core.variables, Some(vec![0, 0]));
    Allocator::deallocate_stack_frame(again);
}

#[test]
fn allocation_group_order() {
    let mut g: AllocationGroup<u32> = AllocationGroup::new();
    g.push_front(1);
    g.push_front(2);
    g.push_front(3);
    assert_eq!(g.pop_back(), Some(1));
    assert_eq!(g.pop_front(), Some(3));
    assert_eq!(g.pop_front(), Some(2));
    assert_eq!(g.pop_front(), None);
}

#[test]
fn function_binding_and_lookup() {
    let mut f: Function<u64> = Function::new(
        1,
        1,
        vec![VmType::U8].into_boxed_slice(),
        VmType::Unit,
        FunctionData::Bytecode(vec![3u8, 4].into_boxed_slice()),
        2,
    );
    match f.get_function() {
        GetFunctionResult::Bytecode(code) => assert_eq!(code, &[3u8, 4]),
        GetFunctionResult::Ptr(_) => panic!("no entry point was bound"),
    }
    f.set_function_ptr(77);
    match f.get_function() {
        GetFunctionResult::Ptr(p) => assert_eq!(p, 77),
        GetFunctionResult::Bytecode(_) => panic!("the bound entry point comes first"),
    }
    let mut native: Function<u64> =
        Function::new(2, 2, vec![].into_boxed_slice(), VmType::I32, FunctionData::Native, 0);
    native.set_function_ptr(5);
    assert!(matches!(native.get_function(), GetFunctionResult::Ptr(5)));
}

#[test]
fn string_entry_keeps_text_and_nul() {
    let e = StringEntry::new("héllo");
    assert_eq!(e.as_str(), "héllo");
    assert_eq!(e.len(), 6);
    let empty = StringEntry::new("");
    assert_eq!(empty.as_str(), "");
    assert_eq!(empty.len(), 0);
}

#[test]
fn decoder_error_messages() {
    assert_eq!(
        MaruTypeTag::from_binary(&[]).err().unwrap(),
        "Binary is too short to contain a valid MaruTypeTag"
    );
    assert_eq!(
        MaruTypeTag::from_binary(&[12, 1]).err().unwrap(),
        "Binary is too short to contain a valid MaruTypeTag::Object"
    );
    assert_eq!(MaruTypeTag::from_binary(&[100]).err().unwrap(), "Unknown MaruTypeTag tag: 100");
    assert_eq!(MaruTypeTag::from_binary(&[20]).err().unwrap(), "Unknown MaruTypeTag tag: 20");

    let variant = [1u8, 0, 0, 0, 2, 0, 0, 0, 1, 0, 0, 0, 10, 0, 0, 0, 255];
    assert_eq!(MaruVariant::from_binary(&variant).err().unwrap(), "Unknown MaruTypeTag tag: 255");
    assert_eq!(
        MaruVariant::from_binary(&variant[..14]).err().unwrap(),
        "Binary is too short to contain a valid MaruVariant member"
    );
    assert_eq!(
        MaruObject::from_binary(&[1u8, 0, 0, 0, 1, 0, 0, 0, 0, 0, 0, 0, 7]).err().unwrap(),
        "Binary is too short to contain a valid MaruObject internal field"
    );
    assert_eq!(
        MaruFunction::from_binary(&[1u8, 0, 0, 0, 1, 0, 0, 0, 0, 0, 0, 0, 2]).err().unwrap(),
        "Binary is too short to contain a valid MaruFunction trailing fields"
    );
    assert_eq!(
        MaruGlobal::from_binary(&[1u8, 0, 0]).err().unwrap(),
        "Binary is too short to contain a valid MaruGlobal"
    );
    assert_eq!(
        MaruGlobal::from_binary(&[1u8, 0, 0, 0, 2, 0]).err().unwrap(),
        "Binary is too short to contain a valid MaruGlobal init_index"
    );
    assert_eq!(
        MaruLocation::from_binary(&[1u8, 0, 0, 0, 1, 0, 0, 0, 5]).err().unwrap(),
        "Binary is too short to contain a valid MaruLocation"
    );
    assert_eq!(
        LocationsMap::from_binary(&[1u8, 0]).err().unwrap(),
        "Binary is too short to contain a valid LocationsMap"
    );
    assert_eq!(
        LocationsMap::from_binary(&[1u8, 0, 0, 0, 5]).err().unwrap(),
        "Binary is too short to contain a valid MaruLocation"
    );
    assert_eq!(
        StringTable::from_binary(&[1u8, 0, 0, 0, 0xFF, 0]).err().unwrap(),
        "Invalid UTF-8 in string table"
    );
    assert_eq!(
        StringTable::from_binary(&[2u8, 0, 0, 0, b'a', 0, b'b']).err().unwrap(),
        "Unterminated string in StringTable"
    );
    assert_eq!(
        BytecodeTable::from_binary(&[1u8, 0]).err().unwrap(),
        "Binary is too short to contain a valid BytecodeTable"
    );
    assert_eq!(
        BytecodeTable::from_binary(&[1u8, 0, 0, 0, 10, 0, 0, 0, 1, 2]).err().unwrap(),
        "Binary is too short to contain a valid BytecodeTable entry"
    );
    assert_eq!(
        MaruFile::from_binary(&[0x4D, 0, 0]).err().unwrap(),
        "Binary is too short to contain a valid Maru file"
    );
    assert_eq!(
        MaruFile::from_binary(&[0x4D, 0, 0, 0, 0, 0, 0, 0]).err().unwrap(),
        "Binary is too short to contain the object count"
    );
    let mut trailing = MaruFile::new().into_binary();
    trailing.push(1);
    assert_eq!(
        MaruFile::from_binary(&trailing).err().unwrap(),
        "Unexpected bytes after the LocationsMap"
    );
}
