//! The pure part of the standard-library prelude: native functions
//! that need no host input or output, packaged as a verified
//! implementation of the host interface. Natives that print or read
//! belong to the embedding program, outside the engine.

use vstd::prelude::*;

use crate::function::LuaHost;
use crate::state::{LuaError, LuaState};
use crate::value::{msg_string, Value};

verus! {

/// The identifier `fib` is registered under.
pub const FIB_ID: u64 = 1;

/// The identifier `pairs` is registered under.
pub const PAIRS_ID: u64 = 2;

/// The identifier `next` is registered under.
pub const NEXT_ID: u64 = 3;

/// The identifier `setarray` is registered under.
pub const SETARRAY_ID: u64 = 4;

/// The identifier `updatearray` is registered under.
pub const UPDATEARRAY_ID: u64 = 5;

/// The computation-only prelude host: `fib`, `pairs`, `next`,
/// `setarray` and `updatearray`. An embedder that also wants printing
/// natives wraps this host with its own.
pub struct Prelude {}

/// Whether a global name is bound to the native function with this
/// host identifier.
pub open spec fn registered_native(l: LuaState, nm: Seq<char>, id: u64) -> bool {
    &&& l.globals().dom().contains(nm)
    &&& (match l.globals()[nm] {
        Value::Function(f) => f.luafn == Option::Some(id),
        _ => false,
    })
}

/// Register the prelude's native functions under their global names.
pub fn prelude(l: &mut LuaState)
    requires
        old(l).wf(),
    ensures
        final(l).wf(),
        final(l).reg == old(l).reg,
        final(l).frame_stack == old(l).frame_stack,
        final(l).budget == old(l).budget,
        registered_native(*final(l), "fib"@, FIB_ID),
        registered_native(*final(l), "pairs"@, PAIRS_ID),
        registered_native(*final(l), "next"@, NEXT_ID),
        registered_native(*final(l), "setarray"@, SETARRAY_ID),
        registered_native(*final(l), "updatearray"@, UPDATEARRAY_ID),
        forall|k: Seq<char>|
            #![auto]
            k != "fib"@ && k != "pairs"@ && k != "next"@ && k != "setarray"@ && k
                != "updatearray"@ ==> (final(l).globals().dom().contains(k)
                == old(l).globals().dom().contains(k) && (old(l).globals().dom().contains(k)
                ==> final(l).globals()[k] == old(l).globals()[k])),
    {
    proof {
        reveal_strlit("fib");
        reveal_strlit("pairs");
        reveal_strlit("next");
        reveal_strlit("setarray");
        reveal_strlit("updatearray");
        assert("fib"@.len() == 3);
        assert("pairs"@.len() == 5);
        assert("next"@.len() == 4);
        assert("setarray"@.len() == 8);
        assert("updatearray"@.len() == 11);
    }
    l.register_global_fn("fib", FIB_ID);
    l.register_global_fn("pairs", PAIRS_ID);
    l.register_global_fn("next", NEXT_ID);
    l.register_global_fn("setarray", SETARRAY_ID);
    l.register_global_fn("updatearray", UPDATEARRAY_ID);
}

/// The 1-indexed Fibonacci convention: fib(1) = fib(2) = 1.
pub open spec fn spec_fib(n: int) -> nat
    decreases n,
{
    if n <= 2 {
        1
    } else {
        spec_fib(n - 2) + spec_fib(n - 1)
    }
}

impl Prelude {
    /// fib(n): the n-th Fibonacci number, 1-indexed so that the first
    /// two are 1. Computed directly: a verified host cannot be defined
    /// by calling back through its own registration, so the recursion
    /// is unrolled into the loop it denotes. A result beyond the
    /// 64-bit range is a runtime error.
    #[verifier::loop_isolation(false)]
    fn lua_fib(&mut self, l: &mut LuaState) -> (r: Result<i32, LuaError>)
        requires
            old(l).wf(),
        ensures
            final(l).wf(),
            crate::state::same_frames_but_top(old(l).frame_stack@, final(l).frame_stack@),
            final(l).budget <= old(l).budget,
            old(l).reg.top <= final(l).reg.top,
            final(l).reg.array@.take(old(l).reg.top as int) == old(l).reg.array@.take(
                old(l).reg.top as int,
            ),
            r matches Ok(n) ==> 0 <= n && final(l).reg.top == old(l).reg.top + n,
    {
        let v = l.arg_int(1)?;
        let mut a: i64 = 1;
        let mut b: i64 = 1;
        let mut k: i64 = 2;
        while k < v
            invariant
                2 <= k,
                k <= v || v <= 2,
                1 <= a,
                1 <= b,
                *l == *old(l),
                2 <= k <= v ==> a == spec_fib(k - 1) && b == spec_fib(k as int),
            decreases v - k,
        {
            let c = match a.checked_add(b) {
                Some(c) => c,
                None => {
                    return Err(l.error("fib does not fit in 64 bits"));
                },
            };
            proof {
                assert(spec_fib(k as int + 1) == spec_fib(k as int - 1) + spec_fib(k as int));
            }
            a = b;
            b = c;
            k = k + 1;
        }
        l.push_return(Value::Number(b));
        proof {
            assert(l.reg.array@.take(old(l).reg.top as int) =~= old(l).reg.array@.take(
                old(l).reg.top as int,
            ));
        }
        Ok(1)
    }

    /// pairs(t): the iteration triple `next`, the table, and nil, as
    /// the generic-for protocol hands them out: always three values.
    fn lua_pairs(&mut self, l: &mut LuaState) -> (r: Result<i32, LuaError>)
        requires
            old(l).wf(),
        ensures
            final(l).wf(),
            crate::state::same_frames_but_top(old(l).frame_stack@, final(l).frame_stack@),
            final(l).budget <= old(l).budget,
            old(l).reg.top <= final(l).reg.top,
            final(l).reg.array@.take(old(l).reg.top as int) == old(l).reg.array@.take(
                old(l).reg.top as int,
            ),
            r matches Ok(n) ==> 0 <= n && final(l).reg.top == old(l).reg.top + n,
            r matches Ok(n) ==> n == 3,
    {
        let tbl = l.arg_value(1)?;
        let nextfn = match l.get_global("next") {
            Some(v) => v,
            None => {
                return Err(l.error("the iteration protocol needs a global next"));
            },
        };
        l.push_return(nextfn);
        l.push_return(tbl);
        l.push_return(Value::Nil);
        proof {
            assert(l.reg.array@.take(old(l).reg.top as int) =~= old(l).reg.array@.take(
                old(l).reg.top as int,
            ));
        }
        Ok(3)
    }

    /// next(t, k): the successor index and its element in the array
    /// part of a table (two values), or a single nil past the end.
    fn lua_next(&mut self, l: &mut LuaState) -> (r: Result<i32, LuaError>)
        requires
            old(l).wf(),
        ensures
            final(l).wf(),
            crate::state::same_frames_but_top(old(l).frame_stack@, final(l).frame_stack@),
            final(l).budget <= old(l).budget,
            old(l).reg.top <= final(l).reg.top,
            final(l).reg.array@.take(old(l).reg.top as int) == old(l).reg.array@.take(
                old(l).reg.top as int,
            ),
            r matches Ok(n) ==> 0 <= n && final(l).reg.top == old(l).reg.top + n,
            r matches Ok(n) ==> n == 1 || n == 2,
            final(l).globals() == old(l).globals(),
            final(l).tables == old(l).tables,
    {
        let tbl = l.arg_value(1)?;
        let th = tbl.ensure_table()?;
        if th >= l.tables.len() {
            return Err(l.error("dangling table handle"));
        }
        let index = l.arg_value(2)?;
        match index {
            Value::Nil => {
                if l.tables[th].vec.len() == 0 {
                    l.push_return(Value::Nil);
                    proof {
                        assert(l.reg.array@.take(old(l).reg.top as int) =~= old(
                            l,
                        ).reg.array@.take(old(l).reg.top as int));
                    }
                    Ok(1)
                } else {
                    let first = l.tables[th].vec[0].dup();
                    l.push_return(Value::Number(1));
                    l.push_return(first);
                    proof {
                        assert(l.reg.array@.take(old(l).reg.top as int) =~= old(
                            l,
                        ).reg.array@.take(old(l).reg.top as int));
                    }
                    Ok(2)
                }
            },
            Value::Number(i) => {
                let len = l.tables[th].vec.len();
                if i < 0 || (i as u64) >= (len as u64) {
                    l.push_return(Value::Nil);
                    proof {
                        assert(l.reg.array@.take(old(l).reg.top as int) =~= old(
                            l,
                        ).reg.array@.take(old(l).reg.top as int));
                    }
                    Ok(1)
                } else {
                    let succ = match i.checked_add(1) {
                        Some(n1) => n1,
                        None => {
                            return Err(l.error("table index out of range"));
                        },
                    };
                    let iu = i as usize;
                    let elem = l.tables[th].vec[iu].dup();
                    l.push_return(Value::Number(succ));
                    l.push_return(elem);
                    proof {
                        assert(l.reg.array@.take(old(l).reg.top as int) =~= old(
                            l,
                        ).reg.array@.take(old(l).reg.top as int));
                    }
                    Ok(2)
                }
            },
            _ => Err(l.error("invalid argument to next")),
        }
    }

    /// setarray(): bind the global `myarray` to a fresh table holding
    /// 1, 2, 3 in its array part.
    fn lua_setarray(&mut self, l: &mut LuaState) -> (r: Result<i32, LuaError>)
        requires
            old(l).wf(),
        ensures
            final(l).wf(),
            crate::state::same_frames_but_top(old(l).frame_stack@, final(l).frame_stack@),
            final(l).budget <= old(l).budget,
            old(l).reg.top <= final(l).reg.top,
            final(l).reg.array@.take(old(l).reg.top as int) == old(l).reg.array@.take(
                old(l).reg.top as int,
            ),
            r matches Ok(n) ==> 0 <= n && final(l).reg.top == old(l).reg.top + n,
            r is Ok ==> {
                &&& final(l).globals() == old(l).globals().insert(
                    "myarray"@,
                    Value::Table(old(l).tables@.len() as usize),
                )
                &&& final(l).tables@.len() == old(l).tables@.len() + 1
                &&& final(l).tables@.take(old(l).tables@.len() as int) == old(l).tables@
                &&& final(l).tables@.last().vec@ == seq![
                    Value::Number(1),
                    Value::Number(2),
                    Value::Number(3),
                ]
            },
    {
        let v = l.newtable();
        let th = match v {
            Value::Table(h) => h,
            _ => {
                return Err(l.error("newtable did not make a table"));
            },
        };
        if th >= l.tables.len() {
            return Err(l.error("dangling table handle"));
        }
        let t = &mut l.tables[th];
        t.vec.push(Value::Number(1));
        t.vec.push(Value::Number(2));
        t.vec.push(Value::Number(3));
        l.assign_global("myarray", v);
        Ok(0)
    }

    /// updatearray(): append 4, 5, 6 to the array part of the table
    /// bound to the global `myarray`; unset or non-table, an error.
    fn lua_updatearray(&mut self, l: &mut LuaState) -> (r: Result<i32, LuaError>)
        requires
            old(l).wf(),
        ensures
            final(l).wf(),
            crate::state::same_frames_but_top(old(l).frame_stack@, final(l).frame_stack@),
            final(l).budget <= old(l).budget,
            old(l).reg.top <= final(l).reg.top,
            final(l).reg.array@.take(old(l).reg.top as int) == old(l).reg.array@.take(
                old(l).reg.top as int,
            ),
            r matches Ok(n) ==> 0 <= n && final(l).reg.top == old(l).reg.top + n,
            !old(l).globals().dom().contains("myarray"@) ==> r is Err,
            r is Ok ==> (match old(l).globals()["myarray"@] {
                Value::Table(th) => {
                    &&& th < old(l).tables@.len()
                    &&& final(l).tables@.len() == old(l).tables@.len()
                    &&& final(l).tables@[th as int].vec@ == old(l).tables@[th as int].vec@ + seq![
                        Value::Number(4),
                        Value::Number(5),
                        Value::Number(6),
                    ]
                    &&& (forall|j: int|
                        #![auto]
                        0 <= j < old(l).tables@.len() && j != th ==> final(l).tables@[j] == old(
                            l,
                        ).tables@[j])
                    &&& final(l).globals() == old(l).globals()
                },
                _ => false,
            }),
    {
        let v = match l.get_global("myarray") {
            Some(v) => v,
            None => {
                return Err(l.error("myarray is not set"));
            },
        };
        let th = v.ensure_table()?;
        if th >= l.tables.len() {
            return Err(l.error("dangling table handle"));
        }
        let t = &mut l.tables[th];
        t.vec.push(Value::Number(4));
        t.vec.push(Value::Number(5));
        t.vec.push(Value::Number(6));
        Ok(0)
    }
}

impl LuaHost for Prelude {
    fn call_native(&mut self, fn_id: u64, l: &mut LuaState) -> (r: Result<i32, LuaError>) {
        if fn_id == FIB_ID {
            self.lua_fib(l)
        } else if fn_id == PAIRS_ID {
            self.lua_pairs(l)
        } else if fn_id == NEXT_ID {
            self.lua_next(l)
        } else if fn_id == SETARRAY_ID {
            self.lua_setarray(l)
        } else if fn_id == UPDATEARRAY_ID {
            self.lua_updatearray(l)
        } else {
            Err(LuaError { message: msg_string("no such native function") })
        }
    }
}

} // verus!
