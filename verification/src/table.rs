//! Tables: an array part and a string-keyed record part. Table values
//! are shared by handle; the tables themselves live in an arena owned
//! by the runtime state, so mutation always goes through the state's
//! single owner.

use vstd::prelude::*;

use crate::value::Value;

verus! {

/// One table: a dense array part and a string-keyed part, plus an
/// optional parent table for future extension. The record part keeps
/// one entry per key.
#[derive(Debug)]
pub struct LuaTable {
    pub metatable: Option<usize>,
    pub vec: Vec<Value>,
    pub strdict: Vec<(String, Value)>,
}

impl LuaTable {
    pub fn empty() -> (t: LuaTable)
        ensures
            t.metatable is None,
            t.vec@ == Seq::<Value>::empty(),
            t.strdict@ == Seq::<(String, Value)>::empty(),
    {
        LuaTable { metatable: None, vec: Vec::new(), strdict: Vec::new() }
    }
}

} // verus!
