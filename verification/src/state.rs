//! The runtime state: the global table, the value stack ("registry"),
//! the call-frame stack, the table arena, and function dispatch.

use vstd::prelude::*;

use crate::function::{CallFrame, LuaFunction, LuaHost};
use crate::parser::ast::Block;
use crate::table::LuaTable;
use crate::value::{msg_string, Value};
use std::rc::Rc;

verus! {

/// A runtime failure: an undefined variable or function, a call target
/// that is not a function, a type mismatch in an operator, registry
/// underflow, or a statement form the evaluator does not implement.
/// It propagates up through the evaluator to the caller; the engine
/// itself never retries or recovers.
#[derive(Debug)]
pub struct LuaError {
    pub message: String,
}

pub type LuaResult<T> = Result<T, LuaError>;

/// The global name-to-value table, as an association list with one
/// entry per name.
#[derive(Debug)]
pub struct Global {
    pub global: Vec<(String, Value)>,
}

/// The name-to-value map an association list stands for: later entries
/// win, though well-formed lists hold each key once.
pub open spec fn assoc_map(s: Seq<(String, Value)>) -> Map<Seq<char>, Value>
    decreases s.len(),
{
    if s.len() == 0 {
        Map::empty()
    } else {
        assoc_map(s.drop_last()).insert(s.last().0@, s.last().1)
    }
}

/// Each key appears at most once.
pub open spec fn keys_unique(s: Seq<(String, Value)>) -> bool {
    forall|i: int, j: int| 0 <= i < j < s.len() ==> s[i].0@ != s[j].0@
}

proof fn lemma_assoc_map_index(s: Seq<(String, Value)>, i: int)
    requires
        keys_unique(s),
        0 <= i < s.len(),
    ensures
        assoc_map(s).dom().contains(s[i].0@),
        assoc_map(s)[s[i].0@] == s[i].1,
    decreases s.len(),
{
    if i + 1 == s.len() {
    } else {
        lemma_assoc_map_index(s.drop_last(), i);
        assert(s.drop_last()[i] == s[i]);
        assert(s[i].0@ != s.last().0@);
    }
}

proof fn lemma_assoc_map_absent(s: Seq<(String, Value)>, k: Seq<char>)
    requires
        forall|i: int| 0 <= i < s.len() ==> s[i].0@ != k,
    ensures
        !assoc_map(s).dom().contains(k),
    decreases s.len(),
{
    if s.len() > 0 {
        lemma_assoc_map_absent(s.drop_last(), k);
    }
}

proof fn lemma_assoc_map_update(s: Seq<(String, Value)>, i: int, p: (String, Value))
    requires
        keys_unique(s),
        0 <= i < s.len(),
        p.0@ == s[i].0@,
    ensures
        assoc_map(s.update(i, p)) == assoc_map(s).insert(p.0@, p.1),
        keys_unique(s.update(i, p)),
    decreases s.len(),
{
    let t = s.update(i, p);
    assert(keys_unique(t)) by {
        assert(forall|x: int, y: int| 0 <= x < y < t.len() ==> t[x].0@ != t[y].0@) by {
            assert(forall|x: int| 0 <= x < t.len() ==> t[x].0@ == s[x].0@);
        }
    }
    if i + 1 == s.len() {
        assert(t.drop_last() =~= s.drop_last());
        assert(assoc_map(s.update(i, p)) =~= assoc_map(s).insert(p.0@, p.1));
    } else {
        lemma_assoc_map_update(s.drop_last(), i, p);
        assert(t.drop_last() =~= s.drop_last().update(i, p));
        assert(t.last() == s.last());
        assert(s[i].0@ != s.last().0@);
        assert(assoc_map(t) == assoc_map(s.drop_last().update(i, p)).insert(s.last().0@, s.last().1));
        assert(assoc_map(s.drop_last()).insert(p.0@, p.1).insert(s.last().0@, s.last().1)
            =~= assoc_map(s.drop_last()).insert(s.last().0@, s.last().1).insert(p.0@, p.1));
    }
}

proof fn lemma_assoc_map_push(s: Seq<(String, Value)>, p: (String, Value))
    requires
        keys_unique(s),
        forall|i: int| 0 <= i < s.len() ==> s[i].0@ != p.0@,
    ensures
        assoc_map(s.push(p)) == assoc_map(s).insert(p.0@, p.1),
        keys_unique(s.push(p)),
{
    assert(s.push(p).drop_last() =~= s);
}

/// The growable value stack: argument passing and return values flow
/// through its top region. `top` always equals the number of values
/// held; `max_size` records the capacity the state was created with.
#[derive(Debug)]
pub struct Registry {
    pub array: Vec<Value>,
    pub top: usize,
    pub max_size: usize,
}

impl Registry {
    /// The cursor agrees with the stack contents.
    pub open spec fn wf(&self) -> bool {
        self.top == self.array@.len()
    }

    /// Push a value; the new `top` is returned.
    pub fn push(&mut self, value: Value) -> (r: usize)
        requires
            old(self).wf(),
        ensures
            final(self).wf(),
            final(self).array@ == old(self).array@.push(value),
            final(self).top == old(self).top + 1,
            r == final(self).top,
            final(self).max_size == old(self).max_size,
    {
        self.array.push(value);
        self.top = self.array.len();
        self.top
    }

    /// The value below the cursor, if any.
    pub fn last(&self) -> (r: Option<&Value>)
        requires
            self.wf(),
        ensures
            match r {
                Some(v) => self.top > 0 && *v == self.array@.last(),
                None => self.top == 0,
            },
    {
        if self.top == 0 {
            None
        } else {
            Some(&self.array[self.top - 1])
        }
    }

    /// Pop the topmost value; on an empty registry, nothing.
    pub fn pop(&mut self) -> (r: Option<Value>)
        requires
            old(self).wf(),
        ensures
            final(self).wf(),
            final(self).max_size == old(self).max_size,
            match r {
                Some(v) => old(self).top > 0 && v == old(self).array@.last() && final(self).array@
                    == old(self).array@.drop_last() && final(self).top == old(self).top - 1,
                None => old(self).top == 0 && *final(self) == *old(self),
            },
    {
        if self.top == 0 {
            return None;
        }
        self.top = self.top - 1;
        self.array.pop()
    }

    /// Pop the topmost value; an empty registry is a runtime error
    /// (registry underflow).
    pub fn ensure_pop(&mut self) -> (r: Result<Value, LuaError>)
        requires
            old(self).wf(),
        ensures
            final(self).wf(),
            final(self).max_size == old(self).max_size,
            match r {
                Ok(v) => old(self).top > 0 && v == old(self).array@.last() && final(self).array@
                    == old(self).array@.drop_last() && final(self).top == old(self).top - 1,
                Err(_) => old(self).top == 0 && *final(self) == *old(self),
            },
    {
        match self.pop() {
            Some(v) => Ok(v),
            None => Err(
                LuaError { message: msg_string("cannot take a value from the empty registry") },
            ),
        }
    }

    /// The number at a registry slot; a missing slot or a value of
    /// another type is a runtime error.
    pub fn to_int(&self, pos: usize) -> (r: Result<i64, LuaError>)
        requires
            self.wf(),
        ensures
            match r {
                Ok(n) => pos < self.array@.len() && self.array@[pos as int] == Value::Number(n),
                Err(_) => pos >= self.array@.len() || !(self.array@[pos as int] is Number),
            },
    {
        if pos >= self.array.len() {
            return Err(LuaError { message: msg_string("registry index out of range") });
        }
        match self.array[pos].to_int() {
            Some(n) => Ok(n),
            None => Err(LuaError { message: msg_string("type error: cannot cast into int") }),
        }
    }

    /// The text at a registry slot: a string's characters, or the
    /// decimal rendering of a number.
    pub fn to_string(&self, pos: usize) -> (r: Result<String, LuaError>)
        requires
            self.wf(),
        ensures
            pos < self.array@.len() ==> (match self.array@[pos as int] {
                Value::LuaString(t) => r matches Ok(s) && s@ == t@,
                Value::Number(n) => (match r {
                    Ok(s) => s@ == crate::value::spec_int_string(n as int),
                    Err(_) => false,
                }),
                _ => r is Err,
            }),
            pos >= self.array@.len() ==> r is Err,
    {
        if pos >= self.array.len() {
            return Err(LuaError { message: msg_string("registry index out of range") });
        }
        match self.array[pos].to_string() {
            Some(s) => Ok(s),
            None => Err(LuaError { message: msg_string("type error: cannot cast into str") }),
        }
    }

    /// The value at a registry slot.
    pub fn to_value(&self, pos: usize) -> (r: Result<Value, LuaError>)
        requires
            self.wf(),
        ensures
            match r {
                Ok(v) => pos < self.array@.len() && v == self.array@[pos as int],
                Err(_) => pos >= self.array@.len(),
            },
    {
        if pos >= self.array.len() {
            return Err(LuaError { message: msg_string("registry index out of range") });
        }
        Ok(self.array[pos].dup())
    }
}

/// Whether `post` is `pre` with at most the topmost call frame's
/// bindings changed: the calling convention lets a callee bind locals
/// in its own frame and set its return flag, and nothing else.
pub open spec fn same_frames_but_top(pre: Seq<CallFrame>, post: Seq<CallFrame>) -> bool {
    &&& post.len() == pre.len()
    &&& (pre.len() > 0 ==> {
        &&& post.drop_last() == pre.drop_last()
        &&& post.last().local_base == pre.last().local_base
        &&& post.last().args_nr == pre.last().args_nr
        &&& post.last().ret_nr == pre.last().ret_nr
    })
    &&& (pre.len() == 0 ==> post == pre)
}

/// The value a local name is bound to in a frame environment: the most
/// recent binding wins.
pub open spec fn lookup_env(env: Seq<(String, usize)>, name: Seq<char>) -> Option<usize>
    decreases env.len(),
{
    if env.len() == 0 {
        Option::None
    } else if env.last().0@ == name {
        Option::Some(env.last().1)
    } else {
        lookup_env(env.drop_last(), name)
    }
}

/// The whole interpreter state: globals, registry, call frames, the
/// table arena, and the remaining evaluation budget. Created once per
/// program run and threaded through scanning, parsing and evaluation
/// by reference.
pub struct LuaState {
    pub g: Global,
    pub reg: Registry,
    pub frame_stack: Vec<CallFrame>,
    pub tables: Vec<LuaTable>,
    pub budget: u64,
}

impl LuaState {
    /// The registry cursor is in step with its contents and the global
    /// table holds each name once.
    pub open spec fn wf(&self) -> bool {
        &&& self.reg.wf()
        &&& keys_unique(self.g.global@)
    }

    /// The map the global table stands for.
    pub open spec fn globals(&self) -> Map<Seq<char>, Value> {
        assoc_map(self.g.global@)
    }

    pub fn new(reg_size: usize) -> (l: LuaState)
        ensures
            l.wf(),
            l.globals() == Map::<Seq<char>, Value>::empty(),
            l.reg.top == 0,
            l.frame_stack@.len() == 0,
            l.tables@.len() == 0,
            l.reg.max_size == reg_size,
            l.budget == 1000000,
    {
        let l = LuaState {
            g: Global { global: Vec::new() },
            reg: Registry { array: Vec::with_capacity(reg_size), top: 0, max_size: reg_size },
            frame_stack: Vec::new(),
            tables: Vec::new(),
            budget: 1000000,
        };
        proof {
            assert(l.globals() =~= Map::<Seq<char>, Value>::empty());
        }
        l
    }

    /// A fresh, empty table in the arena; its handle as a value.
    pub fn newtable(&mut self) -> (v: Value)
        requires
            old(self).wf(),
        ensures
            final(self).wf(),
            v == Value::Table(old(self).tables@.len() as usize),
            final(self).tables@.len() == old(self).tables@.len() + 1,
            final(self).tables@.take(old(self).tables@.len() as int) == old(self).tables@,
            final(self).tables@.last().metatable is None,
            final(self).tables@.last().vec@ == Seq::<Value>::empty(),
            final(self).tables@.last().strdict@ == Seq::<(String, Value)>::empty(),
            final(self).g == old(self).g,
            final(self).reg == old(self).reg,
            final(self).frame_stack == old(self).frame_stack,
            final(self).budget == old(self).budget,
    {
        let h = self.tables.len();
        self.tables.push(LuaTable::empty());
        proof {
            assert(self.tables@.take(old(self).tables@.len() as int) =~= old(self).tables@);
        }
        Value::Table(h)
    }

    /// The absolute registry slot of a 1-based argument position in
    /// the current frame.
    pub fn arg_index2pos(&self, pos: usize) -> (r: LuaResult<usize>)
        requires
            self.wf(),
        ensures
            match r {
                Ok(i) => self.frame_stack@.len() > 0 && pos >= 1 && i == self.frame_stack@.last().local_base + pos
                    - 1,
                Err(_) => self.frame_stack@.len() == 0 || pos == 0 || self.frame_stack@.last().local_base + pos - 1
                    > usize::MAX,
            },
    {
        if pos == 0 {
            return Err(LuaError { message: msg_string("argument positions are 1-based") });
        }
        let f = self.ensure_current_frame()?;
        let base = f.local_base;
        if base > usize::MAX - (pos - 1) {
            return Err(LuaError { message: msg_string("argument position out of range") });
        }
        Ok(base + (pos - 1))
    }

    /// Whether a 1-based argument position names a live slot of the
    /// current frame: there is a frame, the position is at least one,
    /// its absolute slot does not overflow and lies inside the
    /// registry.
    pub open spec fn arg_slot(&self, pos: int) -> Option<int> {
        if self.frame_stack@.len() > 0 && pos >= 1 && self.frame_stack@.last().local_base + pos - 1
            <= usize::MAX && self.frame_stack@.last().local_base + pos - 1
            < self.reg.array@.len() {
            Option::Some(self.frame_stack@.last().local_base + pos - 1)
        } else {
            Option::None
        }
    }

    /// The integer argument at a 1-based position of the current
    /// frame: exactly the number in the argument's slot, and an error
    /// if and only if the position is bad or the slot holds no number.
    pub fn arg_int(&self, pos: usize) -> (r: Result<i64, LuaError>)
        requires
            self.wf(),
        ensures
            match self.arg_slot(pos as int) {
                Option::Some(i) => (match self.reg.array@[i] {
                    Value::Number(n) => r == Result::<i64, LuaError>::Ok(n),
                    _ => r is Err,
                }),
                Option::None => r is Err,
            },
    {
        let i = self.arg_index2pos(pos)?;
        self.reg.to_int(i)
    }

    /// The text argument at a 1-based position of the current frame:
    /// a string's characters, the decimal rendering of a number, and
    /// an error if and only if the position is bad or the slot holds
    /// neither.
    pub fn arg_string(&self, pos: usize) -> (r: Result<String, LuaError>)
        requires
            self.wf(),
        ensures
            match self.arg_slot(pos as int) {
                Option::Some(i) => (match self.reg.array@[i] {
                    Value::LuaString(t) => (match r {
                        Ok(s) => s@ == t@,
                        Err(_) => false,
                    }),
                    Value::Number(n) => (match r {
                        Ok(s) => s@ == crate::value::spec_int_string(n as int),
                        Err(_) => false,
                    }),
                    _ => r is Err,
                }),
                Option::None => r is Err,
            },
    {
        let i = self.arg_index2pos(pos)?;
        self.reg.to_string(i)
    }

    /// The argument value at a 1-based position of the current frame:
    /// exactly the value in the argument's slot, and an error if and
    /// only if the position is bad.
    pub fn arg_value(&self, pos: usize) -> (r: Result<Value, LuaError>)
        requires
            self.wf(),
        ensures
            match self.arg_slot(pos as int) {
                Option::Some(i) => r == Result::<Value, LuaError>::Ok(self.reg.array@[i]),
                Option::None => r is Err,
            },
    {
        let i = self.arg_index2pos(pos)?;
        self.reg.to_value(i)
    }

    /// Bind a global name to a value, replacing any previous binding.
    #[verifier::loop_isolation(false)]
    pub fn assign_global(&mut self, name: &str, value: Value)
        requires
            old(self).wf(),
        ensures
            final(self).wf(),
            final(self).globals() == old(self).globals().insert(name@, value),
            final(self).reg == old(self).reg,
            final(self).frame_stack == old(self).frame_stack,
            final(self).tables == old(self).tables,
            final(self).budget == old(self).budget,
    {
        let n = self.g.global.len();
        let mut i: usize = 0;
        while i < n
            invariant
                n == self.g.global@.len(),
                i <= n,
                forall|j: int| 0 <= j < i ==> self.g.global@[j].0@ != name@,
                self == old(self),
            decreases n - i,
        {
            if crate::scanner::str_eq(self.g.global[i].0.as_str(), name) {
                let p = (msg_string(name), value);
                proof {
                    lemma_assoc_map_update(self.g.global@, i as int, p);
                }
                self.g.global[i] = p;
                return ;
            }
            i = i + 1;
        }
        let p = (msg_string(name), value);
        proof {
            lemma_assoc_map_push(self.g.global@, p);
        }
        self.g.global.push(p);
    }

    /// The value bound to a global name, if any.
    #[verifier::loop_isolation(false)]
    pub fn get_global(&self, name: &str) -> (r: Option<Value>)
        requires
            self.wf(),
        ensures
            match r {
                Some(v) => self.globals().dom().contains(name@) && v == self.globals()[name@],
                None => !self.globals().dom().contains(name@),
            },
    {
        let n = self.g.global.len();
        let mut i: usize = 0;
        while i < n
            invariant
                self.wf(),
                n == self.g.global@.len(),
                i <= n,
                forall|j: int| 0 <= j < i ==> self.g.global@[j].0@ != name@,
            decreases n - i,
    {
            if crate::scanner::str_eq(self.g.global[i].0.as_str(), name) {
                proof {
                    lemma_assoc_map_index(self.g.global@, i as int);
                }
                return Some(self.g.global[i].1.dup());
            }
            i = i + 1;
        }
        proof {
            lemma_assoc_map_absent(self.g.global@, name@);
        }
        None
    }

    /// Register a native host function under a global name.
    pub fn register_global_fn(&mut self, name: &str, func: u64)
        requires
            old(self).wf(),
        ensures
            final(self).wf(),
            final(self).globals().dom().contains(name@),
            final(self).globals()[name@] matches Value::Function(f) && f.luafn == Option::Some(
                func,
            ),
            final(self).globals() == old(self).globals().insert(
                name@,
                final(self).globals()[name@],
            ),
            final(self).reg == old(self).reg,
            final(self).frame_stack == old(self).frame_stack,
            final(self).budget == old(self).budget,
    {
        let f = LuaFunction::from_fn(func);
        self.assign_global(name, Value::Function(f));
    }

    /// Register an interpreted function, from its parameter names and
    /// body, under a global name.
    pub fn register_global_code(&mut self, name: &str, params: Vec<String>, block: Rc<Block>)
        requires
            old(self).wf(),
            params@.len() <= i32::MAX,
        ensures
            final(self).wf(),
            final(self).globals().dom().contains(name@),
            final(self).globals()[name@] matches Value::Function(f) && f.luafn is None
                && f.proto.parameters == params && f.proto.code == block,
            final(self).globals() == old(self).globals().insert(
                name@,
                final(self).globals()[name@],
            ),
            final(self).reg == old(self).reg,
            final(self).frame_stack == old(self).frame_stack,
            final(self).budget == old(self).budget,
    {
        let f = LuaFunction::from_code(params, block);
        self.assign_global(name, Value::Function(f));
    }

    /// The topmost call frame, if any.
    pub fn current_frame(&self) -> (r: Option<&CallFrame>)
        ensures
            match r {
                Some(f) => self.frame_stack@.len() > 0 && *f == self.frame_stack@.last(),
                None => self.frame_stack@.len() == 0,
            },
    {
        if self.frame_stack.len() == 0 {
            None
        } else {
            Some(&self.frame_stack[self.frame_stack.len() - 1])
        }
    }

    /// The topmost call frame; running outside any function is a
    /// runtime error.
    pub fn ensure_current_frame(&self) -> (r: LuaResult<&CallFrame>)
        ensures
            match r {
                Ok(f) => self.frame_stack@.len() > 0 && *f == self.frame_stack@.last(),
                Err(_) => self.frame_stack@.len() == 0,
            },
    {
        match self.current_frame() {
            Some(f) => Ok(f),
            None => Err(LuaError { message: msg_string("not called in a function") }),
        }
    }

    /// Whether the current frame binds a local of this name.
    pub fn has_local_name(&self, name: &str) -> (r: bool)
        ensures
            r == (self.frame_stack@.len() > 0 && lookup_env(self.frame_stack@.last().env@, name@)
                is Some),
    {
        match self.current_frame() {
            None => false,
            Some(f) => {
                let idx = lookup_env_exec(&f.env, name);
                idx.is_some()
            },
        }
    }

    /// The value of a local of the current frame: the registry slot its
    /// name is bound to, read back from the stack.
    pub fn get_local(&self, name: &str) -> (r: Option<Value>)
        requires
            self.wf(),
        ensures
            match r {
                Some(v) => self.frame_stack@.len() > 0 && (match lookup_env(
                    self.frame_stack@.last().env@,
                    name@,
                ) {
                    Option::Some(idx) => idx < self.reg.array@.len() && v == self.reg.array@[idx as int],
                    Option::None => false,
                }),
                None => self.frame_stack@.len() == 0 || lookup_env(
                    self.frame_stack@.last().env@,
                    name@,
                ) is None || (lookup_env(self.frame_stack@.last().env@, name@) matches Option::Some(
                    idx,
                ) && idx >= self.reg.array@.len()),
            },
    {
        match self.current_frame() {
            None => None,
            Some(f) => {
                match lookup_env_exec(&f.env, name) {
                    None => None,
                    Some(idx) => {
                        if idx < self.reg.array.len() {
                            Some(self.reg.array[idx].dup())
                        } else {
                            None
                        }
                    },
                }
            },
        }
    }

    /// Declare a local in the current frame: the value is pushed onto
    /// the registry and the name bound to its slot. Outside a frame
    /// nothing happens, as at the top level of a program.
    pub fn assign_local(&mut self, name: &str, value: Value)
        requires
            old(self).wf(),
        ensures
            final(self).wf(),
            same_frames_but_top(old(self).frame_stack@, final(self).frame_stack@),
            final(self).g == old(self).g,
            final(self).tables == old(self).tables,
            final(self).budget == old(self).budget,
            old(self).reg.top <= final(self).reg.top,
            final(self).reg.array@.take(old(self).reg.top as int) == old(self).reg.array@.take(
                old(self).reg.top as int,
            ),
            final(self).reg.max_size == old(self).reg.max_size,
            old(self).frame_stack@.len() == 0 ==> *final(self) == *old(self),
            old(self).frame_stack@.len() > 0 ==> {
                &&& final(self).reg.array@ == old(self).reg.array@.push(value)
                &&& final(self).reg.top == old(self).reg.top + 1
                &&& lookup_env(final(self).frame_stack@.last().env@, name@) == Option::Some(
                    old(self).reg.top as usize,
                )
            },
    {
        if self.frame_stack.len() == 0 {
            return ;
        }
        let idx = self.reg.push(value) - 1;
        let fi = self.frame_stack.len() - 1;
        let nm = msg_string(name);
        let ghost pre_frames = self.frame_stack@;
        let fr = &mut self.frame_stack[fi];
        fr.env.push((nm, idx));
        proof {
            assert(self.frame_stack@.drop_last() =~= old(self).frame_stack@.drop_last());
            assert(self.reg.array@.take(old(self).reg.top as int) =~= old(self).reg.array@.take(
                old(self).reg.top as int,
            ));
        }
    }

    /// Store a value into the live registry slot a local of the
    /// current frame is bound to: the local store of an assignment to
    /// an already-declared local. Nothing is written — and false comes
    /// back — when there is no frame, the name is unbound, or the
    /// binding does not refer to a live slot of this frame.
    pub fn set_local(&mut self, name: &str, value: Value) -> (r: bool)
        requires
            old(self).wf(),
        ensures
            final(self).wf(),
            final(self).frame_stack == old(self).frame_stack,
            final(self).g == old(self).g,
            final(self).tables == old(self).tables,
            final(self).budget == old(self).budget,
            final(self).reg.top == old(self).reg.top,
            final(self).reg.max_size == old(self).reg.max_size,
            r == (old(self).frame_stack@.len() > 0 && (match lookup_env(
                old(self).frame_stack@.last().env@,
                name@,
            ) {
                Option::Some(idx) => old(self).frame_stack@.last().local_base <= idx && idx < old(
                    self,
                ).reg.array@.len(),
                Option::None => false,
            })),
            r ==> final(self).reg.array@ == old(self).reg.array@.update(
                lookup_env(old(self).frame_stack@.last().env@, name@)->0 as int,
                value,
            ),
            !r ==> final(self).reg == old(self).reg,
    {
        let (idx, base) = match self.current_frame() {
            None => {
                return false;
            },
            Some(f) => {
                match lookup_env_exec(&f.env, name) {
                    None => {
                        return false;
                    },
                    Some(idx) => (idx, f.local_base),
                }
            },
        };
        if idx < base || idx >= self.reg.array.len() {
            return false;
        }
        self.reg.array[idx] = value;
        true
    }

    /// Pop the topmost call frame, if any.
    pub fn pop_frame(&mut self)
        ensures
            old(self).frame_stack@.len() > 0 ==> final(self).frame_stack@ == old(
                self,
            ).frame_stack@.drop_last(),
            old(self).frame_stack@.len() == 0 ==> final(self).frame_stack@ == old(
                self,
            ).frame_stack@,
            final(self).g == old(self).g,
            final(self).reg == old(self).reg,
            final(self).tables == old(self).tables,
            final(self).budget == old(self).budget,
    {
        if self.frame_stack.len() > 0 {
            self.frame_stack.pop();
        }
    }

    /// Pop registry values until `top` is back at `target`.
    #[verifier::loop_isolation(false)]
    pub fn unwind_to(&mut self, target: usize)
        requires
            old(self).wf(),
        ensures
            final(self).wf(),
            final(self).reg.top == if target <= old(self).reg.top {
                target as int
            } else {
                old(self).reg.top as int
            },
            final(self).reg.array@ == old(self).reg.array@.take(final(self).reg.top as int),
            final(self).reg.max_size == old(self).reg.max_size,
            final(self).g == old(self).g,
            final(self).frame_stack == old(self).frame_stack,
            final(self).tables == old(self).tables,
            final(self).budget == old(self).budget,
    {
        proof {
            assert(old(self).reg.array@.take(old(self).reg.top as int) =~= old(self).reg.array@);
        }
        while target < self.reg.top
            invariant
                self.reg.wf(),
                target <= self.reg.top ==> self.reg.array@ == old(self).reg.array@.take(
                    self.reg.top as int,
                ),
                target > self.reg.top ==> self.reg.array@ == old(self).reg.array@,
                self.reg.top <= old(self).reg.top,
                self.reg.max_size == old(self).reg.max_size,
                self.g == old(self).g,
                self.frame_stack == old(self).frame_stack,
                self.tables == old(self).tables,
                self.budget == old(self).budget,
                keys_unique(self.g.global@),
            decreases self.reg.top,
        {
            let _ = self.reg.pop();
            proof {
                assert(old(self).reg.array@.take(self.reg.top as int + 1).drop_last() =~= old(
                    self,
                ).reg.array@.take(self.reg.top as int));
            }
        }
    }

    /// Set the return flag of the topmost frame; outside any frame
    /// nothing happens.
    pub fn set_to_return(&mut self, to_return: bool)
        ensures
            same_frames_but_top(old(self).frame_stack@, final(self).frame_stack@),
            old(self).frame_stack@.len() > 0 ==> final(self).frame_stack@.last().to_return
                == to_return && final(self).frame_stack@.last().env == old(
                self,
            ).frame_stack@.last().env,
            final(self).g == old(self).g,
            final(self).reg == old(self).reg,
            final(self).tables == old(self).tables,
            final(self).budget == old(self).budget,
    {
        let n = self.frame_stack.len();
        if n == 0 {
            return ;
        }
        let fr = &mut self.frame_stack[n - 1];
        fr.to_return = to_return;
        proof {
            assert(self.frame_stack@.drop_last() =~= old(self).frame_stack@.drop_last());
        }
    }

    /// The return flag of the topmost frame; false outside any frame.
    pub fn to_return(&mut self) -> (r: bool)
        ensures
            *final(self) == *old(self),
            r == (old(self).frame_stack@.len() > 0 && old(self).frame_stack@.last().to_return),
    {
        match self.current_frame() {
            Some(f) => f.to_return,
            None => false,
        }
    }

    /// Push a return value onto the registry.
    pub fn push_return(&mut self, retval: Value)
        requires
            old(self).wf(),
        ensures
            final(self).wf(),
            final(self).reg.array@ == old(self).reg.array@.push(retval),
            final(self).reg.top == old(self).reg.top + 1,
            final(self).reg.max_size == old(self).reg.max_size,
            final(self).g == old(self).g,
            final(self).frame_stack == old(self).frame_stack,
            final(self).tables == old(self).tables,
            final(self).budget == old(self).budget,
    {
        let _ = self.reg.push(retval);
    }

    /// A runtime error carrying the given message.
    pub fn error(&self, msg: &str) -> (e: LuaError)
        ensures
            e.message@ == msg@,
    {
        LuaError { message: msg_string(msg) }
    }
}

/// The most recent binding of a name in a frame environment.
#[verifier::loop_isolation(false)]
fn lookup_env_exec(env: &Vec<(String, usize)>, name: &str) -> (r: Option<usize>)
    ensures
        r == lookup_env(env@, name@),
{
    let n = env.len();
    let mut i: usize = n;
    proof {
        assert(env@.take(n as int) =~= env@);
    }
    while i > 0
        invariant
            i <= n,
            n == env@.len(),
            lookup_env(env@, name@) == lookup_env(env@.take(i as int), name@),
        decreases i,
    {
        i = i - 1;
        proof {
            assert(env@.take(i as int + 1).last() == env@[i as int]);
            assert(env@.take(i as int + 1).drop_last() =~= env@.take(i as int));
        }
        if crate::scanner::str_eq(env[i].0.as_str(), name) {
            return Some(env[i].1);
        }
    }
    proof {
        assert(env@.take(0) =~= Seq::<(String, usize)>::empty());
    }
    None
}


/// Truncating division, as the runtime's `/` computes it: the quotient
/// of the magnitudes, with the sign of the exact quotient.
pub open spec fn div_trunc(a: int, b: int) -> int {
    let m = abs_int(a) / abs_int(b);
    if (a < 0) != (b < 0) {
        -m
    } else {
        m
    }
}

pub open spec fn abs_int(a: int) -> int {
    if a < 0 {
        -a
    } else {
        a
    }
}

/// What a binary operator yields on two numbers, or nothing where the
/// result does not exist: an unsupported operator, division by zero,
/// or a result outside the 64-bit range.
pub open spec fn spec_op_number(op: char, a: i64, b: i64) -> Option<Value> {
    if op == '+' {
        if i64::MIN <= a + b <= i64::MAX {
            Option::Some(Value::Number((a + b) as i64))
        } else {
            Option::None
        }
    } else if op == '-' {
        if i64::MIN <= a - b <= i64::MAX {
            Option::Some(Value::Number((a - b) as i64))
        } else {
            Option::None
        }
    } else if op == '*' {
        if i64::MIN <= a * b <= i64::MAX {
            Option::Some(Value::Number((a * b) as i64))
        } else {
            Option::None
        }
    } else if op == '/' {
        if b == 0 || !(i64::MIN <= div_trunc(a as int, b as int) <= i64::MAX) {
            Option::None
        } else {
            Option::Some(Value::Number(div_trunc(a as int, b as int) as i64))
        }
    } else if op == 'l' {
        Option::Some(Value::Bool(a <= b))
    } else if op == '<' {
        Option::Some(Value::Bool(a < b))
    } else if op == 'g' {
        Option::Some(Value::Bool(a >= b))
    } else if op == '>' {
        Option::Some(Value::Bool(a > b))
    } else if op == 'e' {
        Option::Some(Value::Bool(a == b))
    } else if op == 'n' {
        Option::Some(Value::Bool(a != b))
    } else {
        Option::None
    }
}

/// What a binary operator yields on two booleans.
pub open spec fn spec_op_bool(op: char, a: bool, b: bool) -> Option<Value> {
    if op == '&' {
        Option::Some(Value::Bool(a && b))
    } else if op == '|' {
        Option::Some(Value::Bool(a || b))
    } else {
        Option::None
    }
}

/// What a binary operator yields on two strings.
pub open spec fn spec_op_str(op: char, a: Seq<char>, b: Seq<char>) -> Option<Value> {
    if op == 'e' {
        Option::Some(Value::Bool(a == b))
    } else if op == 'n' {
        Option::Some(Value::Bool(a != b))
    } else {
        Option::None
    }
}

/// What a binary operator yields on two values: the operands must be
/// two numbers, two booleans or two strings, and the operator must
/// apply to that type.
pub open spec fn spec_op(op: char, l: Value, r: Value) -> Option<Value> {
    match (l, r) {
        (Value::Number(a), Value::Number(b)) => spec_op_number(op, a, b),
        (Value::Bool(a), Value::Bool(b)) => spec_op_bool(op, a, b),
        (Value::LuaString(a), Value::LuaString(b)) => spec_op_str(op, a@, b@),
        _ => Option::None,
    }
}

impl LuaState {
    /// Apply a binary operator, dispatching on the runtime types of
    /// both operands; a type mismatch is a runtime error.
    pub fn process_op(&self, op: char, lvalue: Value, rvalue: Value) -> (r: Result<Value, LuaError>)
        ensures
            match spec_op(op, lvalue, rvalue) {
                Option::Some(v) => r == Result::<Value, LuaError>::Ok(v),
                Option::None => r is Err,
            },
    {
        match (lvalue, rvalue) {
            (Value::Number(a), Value::Number(b)) => self.process_op_number(op, a, b),
            (Value::Bool(a), Value::Bool(b)) => self.process_op_bool(op, a, b),
            (Value::LuaString(a), Value::LuaString(b)) => self.process_op_str(op, a.as_str(), b.as_str()),
            _ => Err(LuaError { message: msg_string("type error in binary operator") }),
        }
    }

    /// Arithmetic and comparison on two numbers. Arithmetic is checked:
    /// a result outside the 64-bit range, and division by zero, are
    /// runtime errors, never wrap-arounds.
    pub fn process_op_number(&self, op: char, l: i64, r: i64) -> (res: Result<Value, LuaError>)
        ensures
            match spec_op_number(op, l, r) {
                Option::Some(v) => res == Result::<Value, LuaError>::Ok(v),
                Option::None => res is Err,
            },
    {
        let ret = if op == '+' {
            match l.checked_add(r) {
                Some(v) => Value::Number(v),
                None => {
                    return Err(LuaError { message: msg_string("arithmetic overflow in +") });
                },
            }
        } else if op == '-' {
            match l.checked_sub(r) {
                Some(v) => Value::Number(v),
                None => {
                    return Err(LuaError { message: msg_string("arithmetic overflow in -") });
                },
            }
        } else if op == '*' {
            match l.checked_mul(r) {
                Some(v) => Value::Number(v),
                None => {
                    return Err(LuaError { message: msg_string("arithmetic overflow in *") });
                },
            }
        } else if op == '/' {
            match l.checked_div(r) {
                Some(v) => Value::Number(v),
                None => {
                    return Err(LuaError { message: msg_string("division by zero or overflow in /") });
                },
            }
        } else if op == 'l' {
            Value::Bool(l <= r)
        } else if op == '<' {
            Value::Bool(l < r)
        } else if op == 'g' {
            Value::Bool(l >= r)
        } else if op == '>' {
            Value::Bool(l > r)
        } else if op == 'e' {
            Value::Bool(l == r)
        } else if op == 'n' {
            Value::Bool(l != r)
        } else {
            return Err(LuaError { message: msg_string("unsupported operator on numbers") });
        };
        Ok(ret)
    }

    /// Boolean conjunction and disjunction.
    pub fn process_op_bool(&self, op: char, l: bool, r: bool) -> (res: Result<Value, LuaError>)
        ensures
            match spec_op_bool(op, l, r) {
                Option::Some(v) => res == Result::<Value, LuaError>::Ok(v),
                Option::None => res is Err,
            },
    {
        if op == '&' {
            Ok(Value::Bool(l && r))
        } else if op == '|' {
            Ok(Value::Bool(l || r))
        } else {
            Err(LuaError { message: msg_string("unsupported operator on booleans") })
        }
    }

    /// Equality and inequality of strings.
    pub fn process_op_str(&self, op: char, l: &str, r: &str) -> (res: Result<Value, LuaError>)
        ensures
            match spec_op_str(op, l@, r@) {
                Option::Some(v) => res == Result::<Value, LuaError>::Ok(v),
                Option::None => res is Err,
            },
    {
        if op == 'e' {
            Ok(Value::Bool(crate::scanner::str_eq(l, r)))
        } else if op == 'n' {
            Ok(Value::Bool(!crate::scanner::str_eq(l, r)))
        } else {
            Err(LuaError { message: msg_string("unsupported operator on strings") })
        }
    }

    /// Open an anonymous block frame at the current stack top; gives
    /// back the top to restore when the block ends.
    pub fn start_block_raw(&mut self) -> (r: usize)
        requires
            old(self).wf(),
        ensures
            final(self).wf(),
            r == old(self).reg.top,
            final(self).frame_stack@ == old(self).frame_stack@.push(
                final(self).frame_stack@.last(),
            ),
            final(self).frame_stack@.last().local_base == old(self).reg.top,
            final(self).frame_stack@.last().env@ == Seq::<(String, usize)>::empty(),
            final(self).g == old(self).g,
            final(self).reg == old(self).reg,
            final(self).tables == old(self).tables,
            final(self).budget == old(self).budget,
    {
        let oldtop = self.reg.top;
        let frame = CallFrame {
            args_nr: 0,
            ret_nr: 0,
            env: Vec::new(),
            to_return: false,
            local_base: oldtop,
        };
        self.frame_stack.push(frame);
        oldtop
    }

    /// Close an anonymous block frame: pop it and unwind the registry
    /// back to the top recorded when the block began.
    pub fn end_block_raw(&mut self, oldtop: usize) -> (r: LuaResult<()>)
        requires
            old(self).wf(),
        ensures
            final(self).wf(),
            old(self).frame_stack@.len() > 0 ==> final(self).frame_stack@ == old(
                self,
            ).frame_stack@.drop_last(),
            oldtop <= old(self).reg.top ==> final(self).reg.top == oldtop,
            final(self).g == old(self).g,
            final(self).tables == old(self).tables,
            final(self).budget == old(self).budget,
            r is Ok,
    {
        self.pop_frame();
        self.unwind_to(oldtop);
        Ok(())
    }

    /// Call a function value on a vector of arguments. The arguments
    /// are pushed in order, so the first comes to sit at the callee's
    /// base; the callee runs, its declared return values are taken
    /// off the stack, and the registry is unwound to where it stood:
    /// a successful call leaves `top` exactly as it found it.
    #[verifier::loop_isolation(false)]
pub fn funcall<H: LuaHost>(&mut self, h: &mut H, func: Value, params: Vec<Value>) -> (r: Result<
        Vec<Value>,
        LuaError,
    >)
        requires
            old(self).wf(),
        ensures
            final(self).wf(),
            final(self).frame_stack@ == old(self).frame_stack@,
            final(self).budget <= old(self).budget,
            old(self).reg.top <= final(self).reg.top,
            final(self).reg.array@.take(old(self).reg.top as int) == old(self).reg.array@.take(
                old(self).reg.top as int,
            ),
            r is Ok ==> final(self).reg.top == old(self).reg.top,
            !(func is Function) ==> r is Err,
            old(self).budget == 0 ==> r is Err,
            (match func {
                Value::Function(f) => f.luafn is None ==> (match r {
                    Ok(vs) => vs@.len() == 1,
                    Err(_) => true,
                }),
                _ => true,
            }),
        decreases self.budget, 0int, 1int,
    {
        let oldtop = self.reg.top;
        let params_n = params.len();
        let mut i: usize = 0;
        // in order: the first argument comes to sit at the callee's base
        while i < params_n
            invariant
                self.wf(),
                i <= params_n,
                params_n == params@.len(),
                self.reg.top == old(self).reg.top + i,
                self.reg.array@.take(old(self).reg.top as int) == old(self).reg.array@.take(
                    old(self).reg.top as int,
                ),
                self.reg.max_size == old(self).reg.max_size,
                self.frame_stack == old(self).frame_stack,
                self.g == old(self).g,
                self.tables == old(self).tables,
                self.budget == old(self).budget,
            decreases params_n - i,
        {
            let v = params[i].dup();
            let _ = self.reg.push(v);
            proof {
                assert(self.reg.array@.take(old(self).reg.top as int) =~= old(
                    self,
                ).reg.array@.take(old(self).reg.top as int));
            }
            i = i + 1;
        }
        let func = if let Value::Function(f) = func {
            f
        } else {
            return Err(self.error("the value called is not a function"));
        };
        let retnr = match func.do_call(self, h, params_n) {
            Ok(n) => n,
            Err(e) => {
                return Err(e);
            },
        };
        let retnr_us = retnr as usize;
        let mut ret: Vec<Value> = Vec::new();
        let mut j: usize = 0;
        while j < retnr_us
            invariant
                self.wf(),
                j <= retnr_us,
                ret@.len() == j,
                self.reg.top + j == old(self).reg.top + params_n + retnr_us,
                old(self).reg.top <= self.reg.top,
                self.reg.array@.take(old(self).reg.top as int) == old(self).reg.array@.take(
                    old(self).reg.top as int,
                ),
                self.frame_stack@ == old(self).frame_stack@,
                self.budget <= old(self).budget,
            decreases retnr_us - j,
        {
            let v = match self.reg.ensure_pop() {
                Ok(v) => v,
                Err(e) => {
                    return Err(e);
                },
            };
            proof {
                assert(self.reg.array@.take(old(self).reg.top as int) =~= old(
                    self,
                ).reg.array@.take(old(self).reg.top as int));
            }
            ret.push(v);
            j = j + 1;
        }
        // the values were popped newest-first; put them in call order
        let mut ret2: Vec<Value> = Vec::new();
        let mut k: usize = ret.len();
        while k > 0
            invariant
                k <= ret@.len(),
                ret2@.len() == ret@.len() - k,
            decreases k,
        {
            k = k - 1;
            let v = ret[k].dup();
            ret2.push(v);
        }
        self.unwind_to(oldtop);
        Ok(ret2)
    }

    /// Call the function bound to a global name on one argument. The
    /// argument is pushed, the callee runs, its single return value
    /// (or nil, if it declared none) is taken off the stack, and the
    /// registry is unwound to where it stood: a successful call leaves
    /// `top` exactly as it found it.
    #[verifier::loop_isolation(false)]
pub fn global_funcall1<H: LuaHost>(&mut self, h: &mut H, name: &str, arg1: Value) -> (r: Result<
        Value,
        LuaError,
    >)
        requires
            old(self).wf(),
        ensures
            final(self).wf(),
            final(self).frame_stack@ == old(self).frame_stack@,
            final(self).budget <= old(self).budget,
            old(self).reg.top <= final(self).reg.top,
            final(self).reg.array@.take(old(self).reg.top as int) == old(self).reg.array@.take(
                old(self).reg.top as int,
            ),
            r is Ok ==> final(self).reg.top == old(self).reg.top,
            old(self).budget == 0 ==> r is Err,
            !old(self).globals().dom().contains(name@) ==> (match r {
                Err(e) => e.message@ == "function is not defined: "@ + name@,
                Ok(_) => false,
            }),
            (old(self).globals().dom().contains(name@) && !(old(self).globals()[name@]
                is Function)) ==> (match r {
                Err(e) => e.message@ == "global is not a function: "@ + name@,
                Ok(_) => false,
            }),
        decreases self.budget, 0int, 1int,
    {
        let oldtop = self.reg.top;
        let func = {
            let val = match self.get_global(name) {
                Some(v) => v,
                None => {
                    // the error names the function that is missing
                    let mut m = msg_string("function is not defined: ");
                    m.append(name);
                    return Err(LuaError { message: m });
                },
            };
            if let Value::Function(f) = val {
                f
            } else {
                let mut m = msg_string("global is not a function: ");
                m.append(name);
                return Err(LuaError { message: m });
            }
        };
        let _ = self.reg.push(arg1);
        proof {
            assert(self.reg.array@.take(old(self).reg.top as int) =~= old(self).reg.array@.take(
                old(self).reg.top as int,
            ));
        }
        let retnr = match func.do_call(self, h, 1) {
            Ok(n) => n,
            Err(e) => {
                return Err(e);
            },
        };
        let vret = if retnr == 1 {
            match self.reg.ensure_pop() {
                Ok(v) => v,
                Err(e) => {
                    return Err(e);
                },
            }
        } else {
            Value::Nil
        };
        proof {
            assert(self.reg.array@.take(old(self).reg.top as int) =~= old(self).reg.array@.take(
                old(self).reg.top as int,
            ));
        }
        self.unwind_to(oldtop);
        Ok(vret)
    }
}

} // verus!
