//! The boundary to the external build-language evaluator. The engine never
//! interprets a callback itself: a definition stores opaque callback handles,
//! and an implementation of [`TransitiveSetEvaluator`] runs them. Nothing is
//! assumed about what a callback returns; every contract of the engine holds
//! for every possible evaluator answer. The concrete [`IntEvaluator`] shipped
//! here interprets its two handles by the contracted helpers below.

use vstd::prelude::*;

use crate::value::Value;

verus! {

/// Runs projection and reduction callbacks on behalf of the engine. The
/// original collaborator is the host-language evaluator; implementations may
/// have side effects and may fail.
pub trait TransitiveSetEvaluator {
    /// Runs the projection callback `callback` on a node's own value.
    fn eval_projection(&mut self, callback: u64, value: &Value) -> Result<Value, String>;

    /// Runs the reduce callback `callback` on the children's already-computed
    /// reduction values (in child order) and the node's own value, or `None`
    /// for a set that carries no value.
    fn eval_reduction(&mut self, callback: u64, children: &Vec<&Value>, value: Option<&Value>)
        -> Result<Value, String>;
}

/// The callback handle [`IntEvaluator`] interprets as the identity projection.
pub const IDENTITY_CALLBACK: u64 = 0;

/// The callback handle [`IntEvaluator`] interprets as an integer sum
/// reduction.
pub const SUM_CALLBACK: u64 = 0;

/// Whether every element is an integer value.
pub open spec fn spec_all_ints(children: Seq<&Value>) -> bool {
    forall|k: int| 0 <= k < children.len() ==> (#[trigger] children[k]) is Int
}

/// The sum of the first `i` elements' integers, over mathematical integers.
pub open spec fn spec_int_sum_upto(children: Seq<&Value>, i: int) -> int
    decreases i,
{
    if i <= 0 || i > children.len() {
        0
    } else {
        spec_int_sum_upto(children, i - 1) + children[i - 1]->Int_0
    }
}

/// Whether the value handed to the sum reduction is an acceptable addend: an
/// integer, the nil value, or absent.
pub open spec fn spec_value_addend_ok(value: Option<&Value>) -> bool {
    match value {
        None => true,
        Some(v) => *v is Nil || *v is Int,
    }
}

/// What the value contributes to the sum: its integer, or zero when absent
/// or nil.
pub open spec fn spec_value_addend(value: Option<&Value>) -> int {
    match value {
        Some(v) => if *v is Int {
            v->Int_0 as int
        } else {
            0
        },
        None => 0,
    }
}

/// Whether the left-to-right fold of the sum stays within the machine
/// integer range: every prefix sum and the final total with the value's
/// addend.
pub open spec fn spec_sum_fits(children: Seq<&Value>, value: Option<&Value>) -> bool {
    &&& (forall|i: int| 0 <= i <= children.len() ==> i64::MIN <= #[trigger] spec_int_sum_upto(
        children, i) <= i64::MAX)
    &&& i64::MIN <= spec_int_sum_upto(children, children.len() as int) + spec_value_addend(value)
        <= i64::MAX
}

/// The identity projection over simple values: hands the value back
/// unchanged; lists are outside its domain.
pub fn eval_identity_projection(value: &Value) -> (r: Result<Value, String>)
    ensures
        match r {
            Ok(v) => !(*value is List) && v == *value,
            Err(_) => *value is List,
        },
{
    match value {
        Value::Nil => Ok(Value::Nil),
        Value::Bool(b) => Ok(Value::Bool(*b)),
        Value::Int(i) => Ok(Value::Int(*i)),
        Value::Str(s) => Ok(Value::Str(s.clone())),
        Value::Artifact(a) => Ok(Value::Artifact(*a)),
        Value::SetRef(k) => Ok(Value::SetRef(*k)),
        Value::List(_) => Err("identity projection does not accept lists".to_owned()),
    }
}

/// The integer sum reduction: the children's integers plus the node's own
/// integer, an absent or nil value counting as zero. Succeeds exactly when
/// every input has an acceptable shape and the left-to-right fold stays in
/// range, and then returns exactly the fold's total.
#[verifier::loop_isolation(false)]
pub fn eval_sum_reduction(children: &Vec<&Value>, value: Option<&Value>) -> (r: Result<
    Value,
    String,
>)
    ensures
        (r is Ok <==> spec_all_ints(children@) && spec_value_addend_ok(value) && spec_sum_fits(
            children@, value)),
        (r matches Ok(v) ==> v == Value::Int(
            (spec_int_sum_upto(children@, children@.len() as int) + spec_value_addend(
                value)) as i64)),
{
    let mut total: i64 = 0;
    let mut i: usize = 0;
    while i < children.len()
        invariant
            i <= children@.len(),
            forall|k: int| 0 <= k < i ==> (#[trigger] children@[k]) is Int,
            forall|k: int| 0 <= k <= i ==> i64::MIN <= #[trigger] spec_int_sum_upto(children@, k)
                <= i64::MAX,
            total == spec_int_sum_upto(children@, i as int),
        decreases children@.len() - i,
    {
        match children[i] {
            Value::Int(c) => {
                match total.checked_add(*c) {
                    Some(t) => {
                        total = t;
                    },
                    None => {
                        proof {
                            assert(spec_int_sum_upto(children@, i + 1) == total + *c);
                            assert(!spec_sum_fits(children@, value));
                        }
                        return Err("sum overflowed".to_owned());
                    },
                }
            },
            _ => {
                return Err("sum expects integer children".to_owned());
            },
        }
        i = i + 1;
    }
    match value {
        None => Ok(Value::Int(total)),
        Some(Value::Nil) => Ok(Value::Int(total)),
        Some(Value::Int(v)) => {
            match total.checked_add(*v) {
                Some(t) => Ok(Value::Int(t)),
                None => Err("sum overflowed".to_owned()),
            }
        },
        Some(_) => Err("sum expects an integer value".to_owned()),
    }
}

/// A small arithmetic evaluator: callback handle [`IDENTITY_CALLBACK`] names
/// [`eval_identity_projection`], and [`SUM_CALLBACK`] names
/// [`eval_sum_reduction`], so the fold it computes is fixed by those
/// helpers' contracts. Every other handle fails.
pub struct IntEvaluator;

impl TransitiveSetEvaluator for IntEvaluator {
    fn eval_projection(&mut self, callback: u64, value: &Value) -> Result<Value, String> {
        if callback != IDENTITY_CALLBACK {
            return Err("unknown projection callback".to_owned());
        }
        eval_identity_projection(value)
    }

    fn eval_reduction(&mut self, callback: u64, children: &Vec<&Value>, value: Option<&Value>)
        -> Result<Value, String> {
        if callback != SUM_CALLBACK {
            return Err("unknown reduce callback".to_owned());
        }
        eval_sum_reduction(children, value)
    }
}

} // verus!
