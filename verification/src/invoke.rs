//! Type-directed invocation planning.
//!
//! The invoker must pick, purely from the arity and the return type of a
//! signature, one native call shape out of a small closed set, and
//! synthesize one placeholder argument value per declared position. The
//! foreign call itself is out of reach here; everything that decides what
//! that call looks like is planned and verified in this module.

use vstd::prelude::*;
use vstd::string::*;

use crate::dtype::DType;
use crate::error::PluginError;
use crate::header::Meta;

verus! {

/// One native call shape: an arity in {0, 1, 2} crossed with a return
/// type. Scalar argument values are all passed as opaque machine-word
/// handles, so their types do not change the shape — only their count and
/// the return type do.
#[derive(Clone, Copy, Debug, PartialEq, Eq, Structural)]
pub enum CallShape {
    Args0RetStr,
    Args0RetU64,
    Args1RetStr,
    Args1RetU64,
    Args2RetStr,
    Args2RetU64,
}

/// The shape selected for a supported arity and return type.
pub open spec fn shape_of(arity: int, ret: DType) -> CallShape {
    if arity == 0 {
        if ret == DType::Str {
            CallShape::Args0RetStr
        } else {
            CallShape::Args0RetU64
        }
    } else if arity == 1 {
        if ret == DType::Str {
            CallShape::Args1RetStr
        } else {
            CallShape::Args1RetU64
        }
    } else {
        if ret == DType::Str {
            CallShape::Args2RetStr
        } else {
            CallShape::Args2RetU64
        }
    }
}

impl CallShape {
    /// Number of declared plugin arguments in this shape.
    pub open spec fn spec_arity(self) -> int {
        match self {
            CallShape::Args0RetStr => 0,
            CallShape::Args0RetU64 => 0,
            CallShape::Args1RetStr => 1,
            CallShape::Args1RetU64 => 1,
            CallShape::Args2RetStr => 2,
            CallShape::Args2RetU64 => 2,
        }
    }

    /// Return type of this shape.
    pub open spec fn spec_ret(self) -> DType {
        match self {
            CallShape::Args0RetStr => DType::Str,
            CallShape::Args0RetU64 => DType::U64,
            CallShape::Args1RetStr => DType::Str,
            CallShape::Args1RetU64 => DType::U64,
            CallShape::Args2RetStr => DType::Str,
            CallShape::Args2RetU64 => DType::U64,
        }
    }

    /// A text-shaped result is not a machine word, so it is written
    /// through a caller-supplied output location; an integer result is
    /// returned directly.
    pub open spec fn spec_out_param(self) -> bool {
        self.spec_ret() == DType::Str
    }

    pub fn arity(&self) -> (k: usize)
        ensures
            k as int == self.spec_arity(),
    {
        match self {
            CallShape::Args0RetStr => 0,
            CallShape::Args0RetU64 => 0,
            CallShape::Args1RetStr => 1,
            CallShape::Args1RetU64 => 1,
            CallShape::Args2RetStr => 2,
            CallShape::Args2RetU64 => 2,
        }
    }

    pub fn ret_type(&self) -> (t: DType)
        ensures
            t == self.spec_ret(),
    {
        match self {
            CallShape::Args0RetStr => DType::Str,
            CallShape::Args0RetU64 => DType::U64,
            CallShape::Args1RetStr => DType::Str,
            CallShape::Args1RetU64 => DType::U64,
            CallShape::Args2RetStr => DType::Str,
            CallShape::Args2RetU64 => DType::U64,
        }
    }

    /// Whether the native call takes a caller-supplied output address for
    /// its result instead of returning it directly.
    pub fn uses_out_param(&self) -> (b: bool)
        ensures
            b == self.spec_out_param(),
    {
        match self.ret_type() {
            DType::Str => true,
            DType::U64 => false,
        }
    }

    /// Number of parameter slots of the native function pointer: one per
    /// declared argument, plus the output slot when the result is passed
    /// by out-parameter.
    pub fn native_param_count(&self) -> (k: usize)
        ensures
            k as int == self.spec_arity() + (if self.spec_out_param() {
                1int
            } else {
                0int
            }),
    {
        let base = self.arity();
        if self.uses_out_param() {
            base + 1
        } else {
            base
        }
    }
}

/// Select the call shape for a signature. The invoker implements arities
/// 0, 1 and 2 and nothing beyond: a higher arity is an explicit
/// unsupported-capability error, never a truncation.
pub fn select_shape(m: &Meta) -> (r: Result<CallShape, PluginError>)
    ensures
        m@.args.len() <= 2 ==> r == Result::<CallShape, PluginError>::Ok(
            shape_of(m@.args.len() as int, m@.ret),
        ),
        m@.args.len() > 2 ==> r == Result::<CallShape, PluginError>::Err(
            PluginError::UnsupportedArity(m@.args.len() as usize),
        ),
        r is Ok <==> m@.args.len() <= 2,
{
    let arity = m.arg_types.len();
    if arity > 2 {
        return Err(PluginError::UnsupportedArity(arity));
    }
    let ret = m.return_type;
    let shape = if arity == 0 {
        match ret {
            DType::Str => CallShape::Args0RetStr,
            DType::U64 => CallShape::Args0RetU64,
        }
    } else if arity == 1 {
        match ret {
            DType::Str => CallShape::Args1RetStr,
            DType::U64 => CallShape::Args1RetU64,
        }
    } else {
        match ret {
            DType::Str => CallShape::Args2RetStr,
            DType::U64 => CallShape::Args2RetU64,
        }
    };
    Ok(shape)
}

/// A synthetic scalar argument or result value: an owned text buffer or an
/// unsigned 64-bit integer, mirroring the scalar type system.
#[derive(Debug, PartialEq, Eq)]
pub enum Value {
    Str(String),
    U64(u64),
}

/// `v` is the fixed placeholder value of scalar type `t`.
pub open spec fn is_sample_for(t: DType, v: Value) -> bool {
    match v {
        Value::Str(s) => t == DType::Str && s@ == "foo"@,
        Value::U64(n) => t == DType::U64 && n == 42u64,
    }
}

/// Synthesize the fixed placeholder value for one declared argument
/// position: a constant sample string for `Str`, a constant sample integer
/// for `U64`. The host feeds these to the plugin to exercise its calling
/// convention, not to give it meaningful input.
pub fn generate_value(t: DType) -> (v: Value)
    ensures
        is_sample_for(t, v),
{
    match t {
        DType::Str => Value::Str("foo".to_owned()),
        DType::U64 => Value::U64(42),
    }
}

/// Everything the unverified foreign-call layer needs to perform one
/// invocation: the selected native shape and the synthesized argument
/// values, one per declared position, in declaration order.
#[derive(Debug)]
pub struct InvocationPlan {
    pub shape: CallShape,
    pub args: Vec<Value>,
}

/// Plan one invocation of a plugin with signature `m`: select the call
/// shape from the arity and the return type, and synthesize the
/// placeholder arguments. Fails exactly on arities above two.
pub fn plan_invocation(m: &Meta) -> (r: Result<InvocationPlan, PluginError>)
    ensures
        m@.args.len() > 2 ==> r == Result::<InvocationPlan, PluginError>::Err(
            PluginError::UnsupportedArity(m@.args.len() as usize),
        ),
        r is Ok <==> m@.args.len() <= 2,
        r matches Ok(p) ==> {
            &&& p.shape == shape_of(m@.args.len() as int, m@.ret)
            &&& p.args@.len() == m@.args.len()
            &&& forall|i: int|
                0 <= i < m@.args.len() ==> is_sample_for(m@.args[i], #[trigger] p.args@[i])
        },
{
    let shape = match select_shape(m) {
        Ok(shape) => shape,
        Err(e) => {
            return Err(e);
        },
    };
    let mut args: Vec<Value> = Vec::new();
    let mut i: usize = 0;
    while i < m.arg_types.len()
        invariant
            i <= m.arg_types.len(),
            args@.len() == i,
            forall|j: int| 0 <= j < i ==> is_sample_for(m.arg_types@[j], #[trigger] args@[j]),
        decreases m.arg_types.len() - i,
    {
        args.push(generate_value(m.arg_types[i]));
        i = i + 1;
    }
    Ok(InvocationPlan { shape, args })
}

// ------------------------------------------------------------------
// result rendering
// ------------------------------------------------------------------

/// The decimal digit characters, least significant last.
pub open spec fn dec_digit(d: int) -> char {
    if d == 0 {
        '0'
    } else if d == 1 {
        '1'
    } else if d == 2 {
        '2'
    } else if d == 3 {
        '3'
    } else if d == 4 {
        '4'
    } else if d == 5 {
        '5'
    } else if d == 6 {
        '6'
    } else if d == 7 {
        '7'
    } else if d == 8 {
        '8'
    } else {
        '9'
    }
}

/// Canonical decimal representation of a natural number, no leading
/// zeros (a single `'0'` for zero).
pub open spec fn dec_seq(n: nat) -> Seq<char>
    decreases n,
{
    if n < 10 {
        seq![dec_digit(n as int)]
    } else {
        dec_seq(n / 10) + seq![dec_digit((n % 10) as int)]
    }
}

/// Render an unsigned 64-bit integer in decimal.
pub fn u64_to_decimal(x: u64) -> (r: String)
    ensures
        r@ == dec_seq(x as nat),
    decreases x,
{
    let digits: &str = "0123456789";
    proof {
        reveal_strlit("0123456789");
    }
    let d = (x % 10) as usize;
    let ds = digits.substring_char(d, d + 1);
    proof {
        assert(ds@ =~= seq![dec_digit(d as int)]);
    }
    if x < 10 {
        ds.to_owned()
    } else {
        let mut r = u64_to_decimal(x / 10);
        r.append(ds);
        r
    }
}

/// The text a result value renders to: the string itself for text, the
/// decimal representation for an integer.
pub open spec fn value_text(v: Value) -> Seq<char> {
    match v {
        Value::Str(s) => s@,
        Value::U64(n) => dec_seq(n as nat),
    }
}

/// The operator-visible result line: the fixed result marker followed by
/// the rendered value.
pub open spec fn result_line_seq(v: Value) -> Seq<char> {
    seq!['>', '>', '>', ' '] + value_text(v)
}

/// Render a result value to its operator-visible output line.
pub fn render_result_line(v: &Value) -> (r: String)
    ensures
        r@ == result_line_seq(*v),
{
    let mut out: String = ">>> ".to_owned();
    proof {
        reveal_strlit(">>> ");
        assert(">>> "@ =~= seq!['>', '>', '>', ' ']);
    }
    match v {
        Value::Str(s) => {
            out.append(s.as_str());
        },
        Value::U64(n) => {
            let d = u64_to_decimal(*n);
            out.append(d.as_str());
        },
    }
    out
}

} // verus!
