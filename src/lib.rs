//! Runtime core of the Maru virtual machine: the module file codec, the
//! instruction catalog, the hybrid reference counter and a safe model of the
//! typed-pool allocator and the VM's descriptor tables.

pub mod wire;
pub mod type_tag;
pub mod records;
pub mod tables;
pub mod maru_file;
pub mod bytecode;
pub mod refcounter;
pub mod vm;
pub mod object_table;
pub mod allocator;
pub mod function_table;
pub mod string_entry;

pub use maru_file::MaruFile;
pub use records::{MaruFunction, MaruGlobal, MaruLocation, MaruObject, MaruVariant};
pub use tables::{BytecodeTable, LocationsMap, StringTable};
pub use type_tag::{BytecodeIndex, MaruTypeTag, StringIndex};
