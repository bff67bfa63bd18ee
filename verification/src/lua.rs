//! Type tags of the host's embedded scripting runtime.
//!
//! The runtime reports the dynamic type of an argument as a small integer
//! code; the interceptor only ever branches on the tag, never on the code
//! itself, so the code mapping lives here in one place.

use vstd::prelude::*;

verus! {

/// Dynamic type of a scripting-runtime value, as reported by the runtime's
/// get-argument-type operation.
#[allow(non_camel_case_types)]
#[derive(PartialEq, Eq, Structural, Clone, Copy, Debug)]
pub enum LuaType {
    LUATNONE,
    LUATNIL,
    LUATBOOLEAN,
    LUATLIGHTUSERDATA,
    LUATNUMBER,
    LUATSTRING,
    LUATTABLE,
    LUATFUNCTION,
    LUATUSERDATA,
    LUATTHREAD,
}

impl LuaType {
    /// The integer code the runtime uses for this tag.
    pub open spec fn code(self) -> int {
        match self {
            LuaType::LUATNONE => -1,
            LuaType::LUATNIL => 0,
            LuaType::LUATBOOLEAN => 1,
            LuaType::LUATLIGHTUSERDATA => 2,
            LuaType::LUATNUMBER => 3,
            LuaType::LUATSTRING => 4,
            LuaType::LUATTABLE => 5,
            LuaType::LUATFUNCTION => 6,
            LuaType::LUATUSERDATA => 7,
            LuaType::LUATTHREAD => 8,
        }
    }

    /// The integer code of this tag, as the runtime's calling convention
    /// carries it.
    pub fn type_code(&self) -> (c: i32)
        ensures
            c as int == self.code(),
    {
        match self {
            LuaType::LUATNONE => -1,
            LuaType::LUATNIL => 0,
            LuaType::LUATBOOLEAN => 1,
            LuaType::LUATLIGHTUSERDATA => 2,
            LuaType::LUATNUMBER => 3,
            LuaType::LUATSTRING => 4,
            LuaType::LUATTABLE => 5,
            LuaType::LUATFUNCTION => 6,
            LuaType::LUATUSERDATA => 7,
            LuaType::LUATTHREAD => 8,
        }
    }

    /// The tag for a code the runtime handed back; `None` for a code outside
    /// the runtime's tag range.
    pub fn from_code(c: i32) -> (t: Option<LuaType>)
        ensures
            -1 <= c <= 8 ==> (t matches Some(tag) && tag.code() == c as int),
            !(-1 <= c <= 8) ==> t is None,
    {
        match c {
            -1 => Some(LuaType::LUATNONE),
            0 => Some(LuaType::LUATNIL),
            1 => Some(LuaType::LUATBOOLEAN),
            2 => Some(LuaType::LUATLIGHTUSERDATA),
            3 => Some(LuaType::LUATNUMBER),
            4 => Some(LuaType::LUATSTRING),
            5 => Some(LuaType::LUATTABLE),
            6 => Some(LuaType::LUATFUNCTION),
            7 => Some(LuaType::LUATUSERDATA),
            8 => Some(LuaType::LUATTHREAD),
            _ => None,
        }
    }
}

} // verus!
