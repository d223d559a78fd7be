//! Function entries as the VM holds them: the body as bytecode or native,
//! and a native entry point that the linker binds once.
use vstd::prelude::*;
use crate::vm::{StringSymbol, VmType};

verus! {

/// What [`Function::get_function`] hands out: the bound native entry point,
/// or the bytecode body.
pub enum GetFunctionResult<'a, P> {
    Ptr(P),
    Bytecode(&'a [u8]),
}

/// The body of a function as loaded.
pub enum FunctionData {
    Bytecode(Box<[u8]>),
    Native,
}

/// The native entry point of a function, bound at most once, and the count
/// of its calls.
pub struct NativeBinding<P> {
    call_counter: usize,
    function_ptr: Option<P>,
}

impl<P> NativeBinding<P> {
    /// The native entry point bound so far, if any.
    pub closed spec fn bound(&self) -> Option<P> {
        self.function_ptr
    }

    /// The calls counted so far.
    pub closed spec fn calls(&self) -> nat {
        self.call_counter as nat
    }
}

/// A function entry. `P` is the type of a native entry point.
pub struct Function<P> {
    pub name: StringSymbol,
    pub mono_name: StringSymbol,
    pub parameters: Box<[VmType]>,
    pub return_type: VmType,
    pub function: FunctionData,
    /// Registers of a frame: parameters plus locals.
    pub variable_count: u32,
    pub native: NativeBinding<P>,
}

impl<P: Copy> Function<P> {
    /// The native entry point bound so far, if any.
    pub open spec fn bound(&self) -> Option<P> {
        self.native.bound()
    }

    /// The calls counted so far.
    pub open spec fn calls(&self) -> nat {
        self.native.calls()
    }

    /// An entry with no native entry point bound and no call counted.
    pub fn new(
        name: StringSymbol,
        mono_name: StringSymbol,
        parameters: Box<[VmType]>,
        return_type: VmType,
        function: FunctionData,
        variable_count: u32,
    ) -> (r: Function<P>)
        ensures
            r.name == name,
            r.mono_name == mono_name,
            r.parameters == parameters,
            r.return_type == return_type,
            r.function == function,
            r.variable_count == variable_count,
            r.bound() is None,
            r.calls() == 0,
    {
        Function {
            name,
            mono_name,
            parameters,
            return_type,
            function,
            variable_count,
            native: NativeBinding { call_counter: 0, function_ptr: None },
        }
    }

    /// Binds the native entry point. It may be bound only once.
    pub fn set_function_ptr(&mut self, ptr: P)
        requires
            old(self).bound() is None,
        ensures
            final(self).bound() == Some(ptr),
            final(self).calls() == old(self).calls(),
            final(self).name == old(self).name,
            final(self).mono_name == old(self).mono_name,
            final(self).parameters == old(self).parameters,
            final(self).return_type == old(self).return_type,
            final(self).function == old(self).function,
            final(self).variable_count == old(self).variable_count,
    {
        self.native.function_ptr = Some(ptr);
    }

    /// What to run: the bound native entry point if there is one, else the
    /// bytecode body. A native body must have been bound first.
    pub fn get_function(&self) -> (r: GetFunctionResult<'_, P>)
        requires
            self.bound() is Some || self.function is Bytecode,
        ensures
            match self.bound() {
                Some(p) => r == GetFunctionResult::<'_, P>::Ptr(p),
                None => match (r, self.function) {
                    (GetFunctionResult::Bytecode(code), FunctionData::Bytecode(body)) => code@
                        == body@,
                    _ => false,
                },
            },
    {
        match self.native.function_ptr {
            Some(ptr) => GetFunctionResult::Ptr(ptr),
            None => match &self.function {
                FunctionData::Bytecode(code) => GetFunctionResult::Bytecode(code),
                FunctionData::Native => GetFunctionResult::Ptr(self.native.function_ptr.unwrap()),
            },
        }
    }
}

} // verus!
