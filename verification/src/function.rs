//! Function values and the calling convention.

use vstd::prelude::*;

use std::rc::Rc;

use crate::eval::eval_block;
use crate::parser::ast::Block;
use crate::state::{LuaError, LuaState};
use crate::value::{msg_string, share_rc, Value};

verus! {

/// The immutable backing of an interpreted function: its parameter
/// names and its body. Shared between the syntax tree it was built
/// from and the registry entries that refer to it.
#[derive(Debug, Clone)]
pub struct FunctionProto {
    pub parameters: Vec<String>,
    pub params_nr: i32,
    pub code: Rc<Block>,
}

/// One invocation record: the map from local names to absolute
/// registry slots, whether a `return` has been taken, the argument
/// and expected-return counts, and the base registry offset.
#[derive(Debug, Clone)]
pub struct CallFrame {
    pub env: Vec<(String, usize)>,
    pub to_return: bool,
    pub args_nr: usize,
    pub ret_nr: usize,
    pub local_base: usize,
}

/// A callable value: a native host function, named by the identifier
/// it was registered under, or an interpreted prototype.
#[derive(Debug, Clone)]
pub struct LuaFunction {
    pub proto: Rc<FunctionProto>,
    pub luafn: Option<u64>,
}

/// The host side of the runtime: runs native functions. The stdlib
/// prelude, and any embedder, implements this; the interpreter calls
/// through it whenever a registered native function is invoked.
///
/// An implementation receives the state with the callee's frame
/// already pushed. It must behave as the calling convention demands:
/// keep the state well formed, push and pop frames in pairs (only the
/// topmost frame may be left changed), never touch the registry below
/// the top it was given, never increase the evaluation budget, and
/// return exactly the number of values it pushed as results.
pub trait LuaHost {
    fn call_native(&mut self, fn_id: u64, l: &mut LuaState) -> (r: Result<i32, LuaError>)
        requires
            old(l).wf(),
        ensures
            final(l).wf(),
            crate::state::same_frames_but_top(old(l).frame_stack@, final(l).frame_stack@),
            final(l).budget <= old(l).budget,
            old(l).reg.top <= final(l).reg.top,
            final(l).reg.array@.take(old(l).reg.top as int) == old(l).reg.array@.take(
                old(l).reg.top as int,
            ),
            r matches Ok(n) ==> 0 <= n && final(l).reg.top == old(l).reg.top + n,
    ;
}

impl LuaFunction {
    /// A native function under its registered host identifier.
    pub fn from_fn(func: u64) -> (f: LuaFunction)
        ensures
            f.luafn == Option::Some(func),
    {
        let proto = FunctionProto { parameters: Vec::new(), params_nr: -1, code: Rc::new(Block(crate::parser::ast::Chunk(Vec::new(), None))) };
        LuaFunction { proto: Rc::new(proto), luafn: Some(func) }
    }

    /// An interpreted function from its parameter names and body.
    pub fn from_code(params: Vec<String>, block: Rc<Block>) -> (f: LuaFunction)
        requires
            params@.len() <= i32::MAX,
        ensures
            f.luafn is None,
            f.proto.parameters == params,
            f.proto.params_nr == params@.len(),
            f.proto.code == block,
    {
        let n = params.len() as i32;
        let proto = FunctionProto { parameters: params, params_nr: n, code: block };
        LuaFunction { proto: Rc::new(proto), luafn: None }
    }

    /// A copy of this function value, sharing the same prototype.
    pub fn dup(&self) -> (f: LuaFunction)
        ensures
            f == *self,
    {
        LuaFunction { proto: share_rc(&self.proto), luafn: self.luafn }
    }

    /// Invoke this function on the `args_n` values at the top of the
    /// registry. A new call frame is pushed for the callee and popped
    /// again on every path. On success the registry has grown by
    /// exactly the returned count: the callee's return values sit on
    /// top of the arguments.
    #[verifier::loop_isolation(false)]
pub fn do_call<H: LuaHost>(&self, l: &mut LuaState, h: &mut H, args_n: usize) -> (r: Result<
        i32,
        LuaError,
    >)
        requires
            old(l).wf(),
            args_n <= old(l).reg.top,
        ensures
            final(l).wf(),
            final(l).frame_stack@ == old(l).frame_stack@,
            final(l).budget <= old(l).budget,
            old(l).reg.top <= final(l).reg.top,
            final(l).reg.array@.take(old(l).reg.top - args_n) == old(l).reg.array@.take(
                old(l).reg.top - args_n,
            ),
            r matches Ok(n) ==> 0 <= n && final(l).reg.top == old(l).reg.top + n,
            old(l).budget == 0 ==> r is Err,
            (self.luafn is None && old(l).budget > 0 && self.proto.parameters@.len() > args_n)
                ==> r is Err,
            self.luafn is None ==> (match r {
                Ok(n) => n == 1,
                Err(_) => true,
            }),
        decreases l.budget, 0int, 0int,
    {
        if l.budget == 0 {
            return Err(LuaError { message: msg_string("evaluation budget exhausted") });
        }
        l.budget = l.budget - 1;
        let entry_top = l.reg.top;
        if let Some(fn_id) = self.luafn {
            let frame = CallFrame {
                args_nr: args_n,
                ret_nr: 1,
                env: Vec::new(),
                to_return: false,
                local_base: entry_top - args_n,
            };
            l.frame_stack.push(frame);
            let rn = h.call_native(fn_id, l);
            proof {
                assert(l.frame_stack@.drop_last() =~= old(l).frame_stack@);
            }
            l.pop_frame();
            proof {
                assert(l.reg.array@.take(old(l).reg.top - args_n) =~= l.reg.array@.take(
                    old(l).reg.top as int,
                ).take(old(l).reg.top - args_n));
                assert(old(l).reg.array@.take(old(l).reg.top - args_n) =~= old(
                    l,
                ).reg.array@.take(old(l).reg.top as int).take(old(l).reg.top - args_n));
            }
            rn
        } else {
            let params_n = self.proto.parameters.len();
            if params_n > args_n {
                return Err(
                    LuaError { message: msg_string("too few arguments for function call") },
                );
            }
            let mut frame = CallFrame {
                args_nr: args_n,
                ret_nr: 1,
                env: Vec::new(),
                to_return: false,
                local_base: entry_top - args_n,
            };
            // bind each declared parameter to its absolute slot: the
            // first parameter sits at the frame base, as the callers
            // push arguments and as the 1-based argument accessors read
            // them
            let base = entry_top - args_n;
            let mut i: usize = 0;
            while i < params_n
                invariant
                    i <= params_n,
                    params_n == self.proto.parameters@.len(),
                    params_n <= args_n <= entry_top,
                    base == entry_top - args_n,
                    frame.local_base == base,
                decreases params_n - i,
            {
                let name = self.proto.parameters[i].clone();
                let idx = base + i;
                frame.env.push((name, idx));
                i = i + 1;
            }
            l.frame_stack.push(frame);
            let code = share_rc(&self.proto.code);
            let ghost framed = *l;
            let v = match eval_block(l, h, rc_block_ref(&code)) {
                Ok(v) => v,
                Err(e) => {
                    proof {
                        lemma_floor_prefix_interpreted(framed, *l, entry_top as int, args_n as int);
                    }
                    l.pop_frame();
                    l.unwind_to(entry_top);
                    proof {
                        assert(l.reg.array@.take(entry_top - args_n) =~= l.reg.array@.take(
                            entry_top as int,
                        ).take(entry_top - args_n));
                    }
                    return Err(e);
                },
            };
            proof {
                lemma_floor_prefix_interpreted(framed, *l, entry_top as int, args_n as int);
            }
            l.pop_frame();
            // drop the callee's leftover locals, keep only the result
            l.unwind_to(entry_top);
            proof {
                assert(l.reg.array@.take(entry_top - args_n) =~= l.reg.array@.take(
                    entry_top as int,
                ).take(entry_top - args_n));
            }
            l.push_return(v);
            proof {
                assert(l.reg.array@.take(entry_top - args_n) =~= l.reg.array@.drop_last().take(
                    entry_top - args_n,
                ));
            }
            Ok(1)
        }
    }
}

/// Inside an interpreted call, the callee's evaluation leaves the
/// registry below its own frame base — the caller's stack below the
/// arguments — untouched.
proof fn lemma_floor_prefix_interpreted(framed: LuaState, after: LuaState, entry_top: int, args_n: int)
    requires
        crate::eval::evolves(framed, after),
        framed.frame_stack@.len() > 0,
        framed.frame_stack@.last().local_base == entry_top - args_n,
        0 <= args_n <= entry_top,
        framed.reg.top == entry_top,
    ensures
        after.reg.array@.take(entry_top - args_n) == framed.reg.array@.take(entry_top - args_n),
{
    assert(crate::eval::frame_floor(framed) == entry_top - args_n);
}

/// Relies on `Rc` dereference: the reference is to the shared value.
#[verifier::external_body]
pub(crate) fn rc_block_ref(rc: &Rc<Block>) -> (r: &Block)
    ensures
        *r == **rc,
{
    &**rc
}

} // verus!
