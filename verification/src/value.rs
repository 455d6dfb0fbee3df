//! Runtime values: a closed tagged union. Only tables have shared
//! ownership, through an integer handle into the runtime's table
//! arena; every other variant is plain data.

use vstd::prelude::*;

use std::rc::Rc;

use crate::function::LuaFunction;
use crate::state::LuaError;

verus! {

/// A runtime value. `Table` holds a handle into the table arena of the
/// runtime state; `Number` is a 64-bit integer (the runtime has no
/// floating point).
#[derive(Debug, Clone)]
pub enum Value {
    Nil,
    Bool(bool),
    Number(i64),
    LuaString(String),
    Table(usize),
    Function(LuaFunction),
}

/// Relies on `Rc::clone`: the new handle refers to the same allocation,
/// so it carries the same value.
#[verifier::external_body]
pub(crate) fn share_rc<T>(rc: &Rc<T>) -> (r: Rc<T>)
    ensures
        r == *rc,
{
    Rc::clone(rc)
}

impl Value {
    /// A copy of this value, equal to it: the tagged data is copied,
    /// and a function value shares its prototype.
    pub fn dup(&self) -> (r: Value)
        ensures
            r == *self,
    {
        match self {
            Value::Nil => Value::Nil,
            Value::Bool(b) => Value::Bool(*b),
            Value::Number(n) => Value::Number(*n),
            Value::LuaString(s) => Value::LuaString(s.clone()),
            Value::Table(h) => Value::Table(*h),
            Value::Function(f) => Value::Function(f.dup()),
        }
    }

    /// The number a value stands for: only `Number` has one.
    pub fn to_int(&self) -> (r: Option<i64>)
        ensures
            r == (match *self {
                Value::Number(n) => Option::Some(n),
                _ => Option::<i64>::None,
            }),
    {
        match self {
            Value::Number(n) => Some(*n),
            _ => None,
        }
    }

    /// The text a value stands for: the characters of a string, or the
    /// decimal rendering of a number.
    pub fn to_string(&self) -> (r: Option<String>)
        ensures
            match *self {
                Value::LuaString(s) => r matches Some(t) && t@ == s@,
                Value::Number(n) => r matches Some(t) && t@ == spec_int_string(n as int),
                _ => r is None,
            },
    {
        match self {
            Value::LuaString(s) => Some(s.clone()),
            Value::Number(n) => Some(int_to_string(*n)),
            _ => None,
        }
    }

    /// The table handle a value carries, or an error for any other
    /// variant.
    pub fn ensure_table(&self) -> (r: Result<usize, LuaError>)
        ensures
            match *self {
                Value::Table(h) => r == Result::<usize, LuaError>::Ok(h),
                _ => r is Err,
            },
    {
        match self {
            Value::Table(h) => Ok(*h),
            _ => Err(LuaError { message: msg_string("not a table") }),
        }
    }
}

/// A `String` holding the given text.
pub(crate) fn msg_string(text: &str) -> (r: String)
    ensures
        r@ == text@,
{
    text.to_owned()
}

/// Relies on `String::push`: appends one character to the string.
#[verifier::external_body]
pub(crate) fn push_char(s: &mut String, c: char)
    ensures
        final(s)@ == old(s)@.push(c),
{
    s.push(c)
}

/// The character of one decimal digit.
pub open spec fn spec_digit_char(d: int) -> char {
    if d == 0 {
        '0'
    } else if d == 1 {
        '1'
    } else if d == 2 {
        '2'
    } else if d == 3 {
        '3'
    } else if d == 4 {
        '4'
    } else if d == 5 {
        '5'
    } else if d == 6 {
        '6'
    } else if d == 7 {
        '7'
    } else if d == 8 {
        '8'
    } else {
        '9'
    }
}

/// The decimal digits of a magnitude, most significant first; empty
/// for zero.
pub open spec fn dec_digits(m: nat) -> Seq<char>
    decreases m,
{
    if m == 0 {
        Seq::empty()
    } else {
        dec_digits(m / 10).push(spec_digit_char((m % 10) as int))
    }
}

/// The decimal rendering of an integer: `0` as itself, a negative
/// number as a minus sign before its magnitude's digits.
pub open spec fn spec_int_string(n: int) -> Seq<char> {
    if n == 0 {
        seq!['0']
    } else if n < 0 {
        seq!['-'] + dec_digits((-n) as nat)
    } else {
        dec_digits(n as nat)
    }
}

/// A sequence reversed.
pub open spec fn rseq(s: Seq<char>) -> Seq<char>
    decreases s.len(),
{
    if s.len() == 0 {
        Seq::empty()
    } else {
        seq![s.last()] + rseq(s.drop_last())
    }
}

proof fn lemma_rseq_cons(x: char, s: Seq<char>)
    ensures
        rseq(seq![x] + s) == rseq(s).push(x),
    decreases s.len(),
{
    let t = seq![x] + s;
    if s.len() == 0 {
        assert(t =~= seq![x]);
        assert(rseq(Seq::<char>::empty()) =~= Seq::<char>::empty());
        assert(seq![x].drop_last() =~= Seq::<char>::empty());
        assert(rseq(seq![x]) =~= Seq::<char>::empty().push(x));
        assert(rseq(s) =~= Seq::<char>::empty());
    } else {
        lemma_rseq_cons(x, s.drop_last());
        assert(t.drop_last() =~= seq![x] + s.drop_last());
        assert(t.last() == s.last());
        assert(seq![s.last()] + rseq(s.drop_last()).push(x) =~= (seq![s.last()] + rseq(
            s.drop_last(),
        )).push(x));
    }
}

/// The character for one decimal digit.
fn digit_char(d: u64) -> (c: char)
    requires
        d < 10,
    ensures
        c == spec_digit_char(d as int),
{
    match d {
        0 => '0',
        1 => '1',
        2 => '2',
        3 => '3',
        4 => '4',
        5 => '5',
        6 => '6',
        7 => '7',
        8 => '8',
        _ => '9',
    }
}

/// The decimal rendering of an integer.
#[verifier::loop_isolation(false)]
pub fn int_to_string(n: i64) -> (r: String)
    ensures
        r@ == spec_int_string(n as int),
{
    let mut digits: Vec<char> = Vec::new();
    let negative = n < 0;
    // magnitude, safe also for the smallest integer
    let mut m: u64 = if n >= 0 {
        n as u64
    } else if n == i64::MIN {
        9223372036854775808u64
    } else {
        (-n) as u64
    };
    let ghost m0 = m as nat;
    if m == 0 {
        digits.push('0');
    }
    proof {
        assert(rseq(Seq::<char>::empty()) =~= Seq::<char>::empty());
        if m0 == 0 {
            assert(digits@ =~= seq!['0']);
            assert(digits@.drop_last() =~= Seq::<char>::empty());
            assert(rseq(digits@) =~= seq!['0']);
            assert(dec_digits(0) + rseq(digits@) =~= seq!['0']);
        } else {
            assert(digits@ =~= Seq::<char>::empty());
            assert(rseq(digits@) =~= Seq::<char>::empty());
            assert(dec_digits(m0) + rseq(digits@) =~= dec_digits(m0));
        }
    }
    while m > 0
        invariant
            m as nat <= m0,
            m0 == 0 ==> dec_digits(m as nat) + rseq(digits@) == seq!['0'],
            m0 > 0 ==> dec_digits(m as nat) + rseq(digits@) == dec_digits(m0),
        decreases m,
    {
        let d = m % 10;
        let ghost mpre = m as nat;
        let ghost dpre = digits@;
        digits.push(digit_char(d));
        m = m / 10;
        proof {
            assert(digits@ =~= dpre.push(spec_digit_char(d as int)));
            assert(digits@.drop_last() =~= dpre);
            assert(rseq(digits@) == seq![spec_digit_char(d as int)] + rseq(dpre));
            assert(dec_digits(mpre) == dec_digits(mpre / 10).push(spec_digit_char((mpre % 10) as int)));
            assert(dec_digits(m as nat) + rseq(digits@) =~= dec_digits(m as nat).push(
                spec_digit_char(d as int),
            ) + rseq(dpre));
        }
    }
    if negative {
        let ghost dpre = digits@;
        digits.push('-');
        proof {
            assert(digits@ =~= dpre.push('-'));
            assert(digits@.drop_last() =~= dpre);
            assert(rseq(digits@) == seq!['-'] + rseq(dpre));
        }
    }
    let mut out = String::new();
    let mut i = digits.len();
    proof {
        assert(digits@.skip(i as int) =~= Seq::<char>::empty());
    }
    while i > 0
        invariant
            i <= digits.len(),
            out@ == rseq(digits@.skip(i as int)),
        decreases i,
    {
        i = i - 1;
        push_char(&mut out, digits[i]);
        proof {
            assert(digits@.skip(i as int) =~= seq![digits@[i as int]] + digits@.skip(i as int + 1));
            lemma_rseq_cons(digits@[i as int], digits@.skip(i as int + 1));
        }
    }
    proof {
        assert(digits@.skip(0) =~= digits@);
    }
    out
}

} // verus!
