//! The built-in primitive procedures: integer arithmetic, comparison
//! chains, and list operations, with exact specifications; and the functor
//! layer through which a host wires plain computations into the value
//! domain.

use vstd::prelude::*;

use crate::errors::{ErrorKind, SteelErr};
use crate::values::{clone_value, vsize, Prim, Value, ValueKind, ValueModel};

verus! {

broadcast use vstd::seq::group_seq_axioms, vstd::std_specs::vec::group_vec_axioms;

/// The integers carried by a value sequence, when every element is an
/// integer.
pub open spec fn ints_of(args: Seq<ValueModel>) -> Option<Seq<i64>>
    decreases args.len(),
{
    if args.len() == 0 {
        Some(Seq::empty())
    } else {
        match args[0] {
            ValueModel::Int(n) => match ints_of(args.skip(1)) {
                Some(rest) => Some(seq![n] + rest),
                None => None,
            },
            _ => None,
        }
    }
}

/// Left fold of checked addition over `s[i..]`; `None` on overflow.
pub open spec fn fold_add(s: Seq<i64>, i: int, acc: i64) -> Option<i64>
    decreases s.len() - i,
{
    if i < 0 || i >= s.len() {
        Some(acc)
    } else {
        match acc.checked_add(s[i]) {
            Some(a) => fold_add(s, i + 1, a),
            None => None,
        }
    }
}

/// Left fold of checked multiplication over `s[i..]`; `None` on overflow.
pub open spec fn fold_mul(s: Seq<i64>, i: int, acc: i64) -> Option<i64>
    decreases s.len() - i,
{
    if i < 0 || i >= s.len() {
        Some(acc)
    } else {
        match acc.checked_mul(s[i]) {
            Some(a) => fold_mul(s, i + 1, a),
            None => None,
        }
    }
}

/// Left fold of checked subtraction over `s[i..]`; `None` on overflow.
pub open spec fn fold_sub(s: Seq<i64>, i: int, acc: i64) -> Option<i64>
    decreases s.len() - i,
{
    if i < 0 || i >= s.len() {
        Some(acc)
    } else {
        match acc.checked_sub(s[i]) {
            Some(a) => fold_sub(s, i + 1, a),
            None => None,
        }
    }
}

/// Left fold of checked (truncating) division over `s[i..]`; `None` on a
/// zero divisor or overflow.
pub open spec fn fold_div(s: Seq<i64>, i: int, acc: i64) -> Option<i64>
    decreases s.len() - i,
{
    if i < 0 || i >= s.len() {
        Some(acc)
    } else {
        match acc.checked_div(s[i]) {
            Some(a) => fold_div(s, i + 1, a),
            None => None,
        }
    }
}

/// One comparison step of a chain primitive.
pub open spec fn cmp_step(p: Prim, a: i64, b: i64) -> bool {
    match p {
        Prim::NumEq => a == b,
        Prim::Lt => a < b,
        Prim::Gt => a > b,
        Prim::Leq => a <= b,
        Prim::Geq => a >= b,
        _ => false,
    }
}

/// Whether each adjacent pair of `s[i..]` satisfies the chain primitive.
pub open spec fn chain_from(p: Prim, s: Seq<i64>, i: int) -> bool
    decreases s.len() - i,
{
    if i < 0 || i + 1 >= s.len() {
        true
    } else {
        cmp_step(p, s[i], s[i + 1]) && chain_from(p, s, i + 1)
    }
}

/// The proper list holding the given values in order.
pub open spec fn list_of(vs: Seq<ValueModel>) -> ValueModel
    decreases vs.len(),
{
    if vs.len() == 0 {
        ValueModel::Void
    } else {
        ValueModel::Pair(Box::new(vs[0]), Box::new(list_of(vs.skip(1))))
    }
}

/// The elements a pair chain yields when iterated: cells in order until a
/// non-pair tail; a dotted tail surfaces as the last element.
pub open spec fn iter_vals(v: ValueModel) -> Seq<ValueModel>
    decreases vsize(v),
{
    match v {
        ValueModel::Void => Seq::empty(),
        ValueModel::Pair(h, t) => seq![*h] + iter_vals(*t),
        other => seq![other],
    }
}

/// Whether the value is a proper list (a pair chain ending in the empty
/// list).
pub open spec fn is_proper_list(v: ValueModel) -> bool
    decreases vsize(v),
{
    match v {
        ValueModel::Void => true,
        ValueModel::Pair(_, t) => is_proper_list(*t),
        _ => false,
    }
}

/// A proper list of `n` values has `n` elements, and `list_of` always
/// builds a proper list.
pub proof fn lemma_list_of_iter(vs: Seq<ValueModel>)
    ensures
        is_proper_list(list_of(vs)),
        iter_vals(list_of(vs)) == vs,
    decreases vs.len(),
{
    if vs.len() == 0 {
        assert(iter_vals(list_of(vs)) =~= vs);
    } else {
        lemma_list_of_iter(vs.skip(1));
        assert(iter_vals(list_of(vs)) =~= vs);
    }
}

/// The shape of a value, as registered type predicates see it.
pub open spec fn kind_of(v: ValueModel) -> ValueKind {
    match v {
        ValueModel::Void => ValueKind::VoidK,
        ValueModel::Bool(_) => ValueKind::BoolK,
        ValueModel::Int(_) => ValueKind::IntK,
        ValueModel::Char(_) => ValueKind::CharK,
        ValueModel::Str(_) => ValueKind::StringK,
        ValueModel::Sym(_) => ValueKind::SymbolK,
        ValueModel::Pair(_, _) => ValueKind::PairK,
        ValueModel::Func(_) => ValueKind::FuncK,
        ValueModel::Lambda(_) => ValueKind::LambdaK,
        ValueModel::Macro(_) => ValueKind::MacroK,
        ValueModel::StructFactory(_) => ValueKind::StructK,
        ValueModel::StructClosure(_, _) => ValueKind::StructK,
        ValueModel::Struct(_, _) => ValueKind::StructK,
    }
}

/// What applying a primitive to evaluated arguments returns: the complete
/// input/output relation of every built-in.
pub open spec fn prim_apply_model(p: Prim, args: Seq<ValueModel>) -> Result<ValueModel, ErrorKind> {
    match p {
        Prim::Add => match ints_of(args) {
            Some(s) => match fold_add(s, 0, 0) {
                Some(x) => Ok(ValueModel::Int(x)),
                None => Err(ErrorKind::Generic),
            },
            None => Err(ErrorKind::TypeMismatch),
        },
        Prim::Mul => match ints_of(args) {
            Some(s) => match fold_mul(s, 0, 1) {
                Some(x) => Ok(ValueModel::Int(x)),
                None => Err(ErrorKind::Generic),
            },
            None => Err(ErrorKind::TypeMismatch),
        },
        Prim::Sub => match ints_of(args) {
            Some(s) => if s.len() == 0 {
                Err(ErrorKind::ArityMismatch)
            } else {
                match fold_sub(s, 1, s[0]) {
                    Some(x) => Ok(ValueModel::Int(x)),
                    None => Err(ErrorKind::Generic),
                }
            },
            None => Err(ErrorKind::TypeMismatch),
        },
        Prim::Div => match ints_of(args) {
            Some(s) => if s.len() == 0 {
                Err(ErrorKind::ArityMismatch)
            } else {
                match fold_div(s, 1, s[0]) {
                    Some(x) => Ok(ValueModel::Int(x)),
                    None => Err(ErrorKind::Generic),
                }
            },
            None => Err(ErrorKind::TypeMismatch),
        },
        Prim::NumEq | Prim::Lt | Prim::Gt | Prim::Leq | Prim::Geq => match ints_of(args) {
            Some(s) => Ok(ValueModel::Bool(chain_from(p, s, 0))),
            None => Err(ErrorKind::TypeMismatch),
        },
        Prim::ListNew => Ok(list_of(args)),
        Prim::Cons => if args.len() == 2 {
            Ok(ValueModel::Pair(Box::new(args[0]), Box::new(args[1])))
        } else {
            Err(ErrorKind::ArityMismatch)
        },
        Prim::Car => if args.len() == 1 {
            match args[0] {
                ValueModel::Pair(h, _) => Ok(*h),
                _ => Err(ErrorKind::TypeMismatch),
            }
        } else {
            Err(ErrorKind::ArityMismatch)
        },
        Prim::Cdr => if args.len() == 1 {
            match args[0] {
                ValueModel::Pair(_, t) => Ok(*t),
                _ => Err(ErrorKind::TypeMismatch),
            }
        } else {
            Err(ErrorKind::ArityMismatch)
        },
        Prim::IsNull => if args.len() == 1 {
            Ok(ValueModel::Bool(args[0] == ValueModel::Void))
        } else {
            Err(ErrorKind::ArityMismatch)
        },
        Prim::KindPred(k) => if args.len() == 1 {
            Ok(ValueModel::Bool(kind_of(args[0]) == k))
        } else {
            Err(ErrorKind::ArityMismatch)
        },
    }
}

/// Extracts the integers of an argument vector, or reports which failure
/// `ints_of` sees.
fn to_ints(args: &Vec<Value>) -> (r: Option<Vec<i64>>)
    ensures
        (match ints_of(args.deep_view()) {
            Some(s) => r matches Some(v) && v@ == s,
            None => r is None,
        }),
{
    let ghost m = args.deep_view();
    let mut out: Vec<i64> = Vec::new();
    let mut i: usize = 0;
    proof {
        assert(m.skip(0) =~= m);
        if let Some(s0) = ints_of(m) {
            assert(out@ + s0 =~= s0);
        }
    }
    while i < args.len()
        invariant
            i <= args@.len(),
            m == args.deep_view(),
            m.len() == args@.len(),
            out@.len() == i as int,
            forall|j: int| 0 <= j < i as int ==> m[j] == ValueModel::Int(#[trigger] out@[j]),
            (match ints_of(m) {
                Some(s) => ints_of(m.skip(i as int)) matches Some(rest) && s =~= out@ + rest,
                None => ints_of(m.skip(i as int)) is None,
            }),
        decreases args@.len() - i,
    {
        let ghost pre = out@;
        match &args[i] {
            Value::IntV(n) => {
                out.push(*n);
            },
            _ => {
                proof {
                    assert(m.skip(i as int)[0] == m[i as int]);
                    lemma_ints_prefix_none(m, i as int);
                }
                return None;
            },
        }
        proof {
            let k: int = i as int;
            assert(m.skip(k)[0] == m[k]);
            assert(m.skip(k).skip(1) =~= m.skip(k + 1));
            if let Some(s) = ints_of(m) {
                if let Some(rest) = ints_of(m.skip(k)) {
                    assert(rest == seq![out@[k]] + ints_of(m.skip(k + 1)).unwrap());
                    assert(pre + rest =~= out@ + ints_of(m.skip(k + 1)).unwrap());
                }
            }
        }
        i = i + 1;
    }
    proof {
        assert(m.skip(i as int) =~= Seq::<ValueModel>::empty());
        if let Some(s) = ints_of(m) {
            assert(s =~= out@);
        }
    }
    Some(out)
}

/// When a prefix element is already a non-integer, the whole sequence has
/// no integer reading.
proof fn lemma_ints_prefix_none(m: Seq<ValueModel>, i: int)
    requires
        0 <= i < m.len(),
        !(m[i] is Int),
    ensures
        ints_of(m) is None,
    decreases i,
{
    if i > 0 {
        lemma_ints_prefix_none(m.skip(1), i - 1);
        assert(m.skip(1)[i - 1] == m[i]);
    }
}

/// Runs a checked left fold in a loop. One loop per operation keeps each
/// correspondence proof immediate.
fn run_fold_add(s: &Vec<i64>, start: usize, acc0: i64) -> (r: Option<i64>)
    requires
        start <= s@.len(),
    ensures
        r == fold_add(s@, start as int, acc0),
{
    let mut acc = acc0;
    let mut i = start;
    while i < s.len()
        invariant
            start as int <= i as int <= s@.len(),
            fold_add(s@, start as int, acc0) == fold_add(s@, i as int, acc),
        decreases s@.len() - i,
    {
        match acc.checked_add(s[i]) {
            Some(a) => {
                acc = a;
                i = i + 1;
            },
            None => {
                return None;
            },
        }
    }
    Some(acc)
}

fn run_fold_mul(s: &Vec<i64>, start: usize, acc0: i64) -> (r: Option<i64>)
    requires
        start <= s@.len(),
    ensures
        r == fold_mul(s@, start as int, acc0),
{
    let mut acc = acc0;
    let mut i = start;
    while i < s.len()
        invariant
            start as int <= i as int <= s@.len(),
            fold_mul(s@, start as int, acc0) == fold_mul(s@, i as int, acc),
        decreases s@.len() - i,
    {
        match acc.checked_mul(s[i]) {
            Some(a) => {
                acc = a;
                i = i + 1;
            },
            None => {
                return None;
            },
        }
    }
    Some(acc)
}

fn run_fold_sub(s: &Vec<i64>, start: usize, acc0: i64) -> (r: Option<i64>)
    requires
        start <= s@.len(),
    ensures
        r == fold_sub(s@, start as int, acc0),
{
    let mut acc = acc0;
    let mut i = start;
    while i < s.len()
        invariant
            start as int <= i as int <= s@.len(),
            fold_sub(s@, start as int, acc0) == fold_sub(s@, i as int, acc),
        decreases s@.len() - i,
    {
        match acc.checked_sub(s[i]) {
            Some(a) => {
                acc = a;
                i = i + 1;
            },
            None => {
                return None;
            },
        }
    }
    Some(acc)
}

fn run_fold_div(s: &Vec<i64>, start: usize, acc0: i64) -> (r: Option<i64>)
    requires
        start <= s@.len(),
    ensures
        r == fold_div(s@, start as int, acc0),
{
    let mut acc = acc0;
    let mut i = start;
    while i < s.len()
        invariant
            start as int <= i as int <= s@.len(),
            fold_div(s@, start as int, acc0) == fold_div(s@, i as int, acc),
        decreases s@.len() - i,
    {
        match acc.checked_div(s[i]) {
            Some(a) => {
                acc = a;
                i = i + 1;
            },
            None => {
                return None;
            },
        }
    }
    Some(acc)
}

/// Whether every adjacent pair of the vector satisfies the chain primitive.
fn run_chain(p: Prim, s: &Vec<i64>) -> (r: bool)
    ensures
        r == chain_from(p, s@, 0),
{
    if s.len() < 2 {
        return true;
    }
    let mut i: usize = 0;
    while i < s.len() - 1
        invariant
            s@.len() >= 2,
            i as int <= s@.len(),
            chain_from(p, s@, 0) == chain_from(p, s@, i as int),
        decreases s@.len() - i,
    {
        let a = s[i];
        let b = s[i + 1];
        let ok = match p {
            Prim::NumEq => a == b,
            Prim::Lt => a < b,
            Prim::Gt => a > b,
            Prim::Leq => a <= b,
            Prim::Geq => a >= b,
            _ => false,
        };
        if !ok {
            return false;
        }
        i = i + 1;
    }
    true
}

/// Builds the proper list holding the values in order.
pub fn make_list(items: Vec<Value>) -> (r: Value)
    ensures
        r@ == list_of(items.deep_view()),
{
    let ghost s = items.deep_view();
    let mut items = items;
    let mut acc = Value::Void;
    proof {
        assert(s.skip(items@.len() as int) =~= Seq::<ValueModel>::empty());
    }
    while items.len() > 0
        invariant
            items@.len() <= s.len(),
            forall|j: int| 0 <= j < items@.len() ==> #[trigger] items@[j]@ == s[j],
            acc@ == list_of(s.skip(items@.len() as int)),
        decreases items@.len(),
    {
        let ghost k: int = items@.len() - 1;
        let ghost acc0 = acc@;
        let x = items.pop().unwrap();
        proof {
            assert(x@ == s[k]);
        }
        acc = Value::Pair(Box::new(x), Box::new(acc));
        proof {
            assert(items@.len() == k);
            assert(s.skip(k)[0] == s[k]);
            assert(s.skip(k).skip(1) =~= s.skip(k + 1));
            assert(acc@ == ValueModel::Pair(Box::new(s[k]), Box::new(acc0)));
            assert(list_of(s.skip(k)) == ValueModel::Pair(
                Box::new(s[k]),
                Box::new(list_of(s.skip(k + 1))),
            ));
        }
    }
    proof {
        assert(s.skip(0) =~= s);
    }
    acc
}

/// Collects the elements a pair chain yields: cells in order, a dotted
/// tail as the last element.
pub fn collect_list_items(v: &Value) -> (r: Vec<Value>)
    ensures
        r.deep_view() == iter_vals(v@),
{
    let mut out: Vec<Value> = Vec::new();
    let mut cur: &Value = v;
    loop
        invariant_except_break
            iter_vals(v@) =~= out.deep_view() + iter_vals(cur@),
        ensures
            out.deep_view() == iter_vals(v@),
        decreases vsize(cur@),
    {
        match cur {
            Value::Void => {
                proof {
                    assert(iter_vals(v@) =~= out.deep_view());
                }
                break ;
            },
            Value::Pair(h, t) => {
                let ghost pre = out.deep_view();
                out.push(clone_value(h));
                cur = t;
                proof {
                    assert(out.deep_view() =~= pre + seq![(**h)@]);
                }
            },
            other => {
                let ghost pre = out.deep_view();
                out.push(clone_value(other));
                proof {
                    assert(out.deep_view() =~= pre + seq![other@]);
                }
                proof {
                    assert(iter_vals(v@) =~= out.deep_view());
                }
                break ;
            },
        }
    }
    out
}

/// Applies a primitive to its evaluated arguments; the result is exactly
/// what `prim_apply_model` states.
pub fn apply_prim(p: Prim, args: Vec<Value>) -> (r: Result<Value, SteelErr>)
    ensures
        (match prim_apply_model(p, args.deep_view()) {
            Ok(v) => r matches Ok(rv) && rv@ == v,
            Err(k) => r matches Err(e) && e@ == k,
        }),
{
    match p {
        Prim::Add | Prim::Mul | Prim::Sub | Prim::Div => {
            let s = match to_ints(&args) {
                Some(s) => s,
                None => {
                    return Err(SteelErr::new(ErrorKind::TypeMismatch, "expected a number".to_owned()));
                },
            };
            let folded: Option<i64> = match p {
                Prim::Add => run_fold_add(&s, 0, 0),
                Prim::Mul => run_fold_mul(&s, 0, 1),
                Prim::Sub | Prim::Div => {
                    if s.len() == 0 {
                        return Err(
                            SteelErr::new(
                                ErrorKind::ArityMismatch,
                                "expected at least one number".to_owned(),
                            ),
                        );
                    }
                    let first = s[0];
                    if matches!(p, Prim::Sub) {
                        run_fold_sub(&s, 1, first)
                    } else {
                        run_fold_div(&s, 1, first)
                    }
                },
                _ => None,
            };
            match folded {
                Some(x) => Ok(Value::IntV(x)),
                None => Err(SteelErr::new(ErrorKind::Generic, "arithmetic failure".to_owned())),
            }
        },
        Prim::NumEq | Prim::Lt | Prim::Gt | Prim::Leq | Prim::Geq => {
            let s = match to_ints(&args) {
                Some(s) => s,
                None => {
                    return Err(SteelErr::new(ErrorKind::TypeMismatch, "expected a number".to_owned()));
                },
            };
            Ok(Value::BoolV(run_chain(p, &s)))
        },
        Prim::ListNew => Ok(make_list(args)),
        Prim::Cons => {
            if args.len() != 2 {
                return Err(SteelErr::new(ErrorKind::ArityMismatch, "cons expects 2 arguments".to_owned()));
            }
            let a = clone_value(&args[0]);
            let d = clone_value(&args[1]);
            Ok(Value::Pair(Box::new(a), Box::new(d)))
        },
        Prim::Car => {
            if args.len() != 1 {
                return Err(SteelErr::new(ErrorKind::ArityMismatch, "car expects 1 argument".to_owned()));
            }
            match &args[0] {
                Value::Pair(h, _) => Ok(clone_value(h)),
                _ => Err(SteelErr::new(ErrorKind::TypeMismatch, "car expects a pair".to_owned())),
            }
        },
        Prim::Cdr => {
            if args.len() != 1 {
                return Err(SteelErr::new(ErrorKind::ArityMismatch, "cdr expects 1 argument".to_owned()));
            }
            match &args[0] {
                Value::Pair(_, t) => Ok(clone_value(t)),
                _ => Err(SteelErr::new(ErrorKind::TypeMismatch, "cdr expects a pair".to_owned())),
            }
        },
        Prim::IsNull => {
            if args.len() != 1 {
                return Err(SteelErr::new(ErrorKind::ArityMismatch, "null? expects 1 argument".to_owned()));
            }
            let b = matches!(&args[0], Value::Void);
            Ok(Value::BoolV(b))
        },
        Prim::KindPred(k) => {
            if args.len() != 1 {
                return Err(SteelErr::new(ErrorKind::ArityMismatch, "predicate expects 1 argument".to_owned()));
            }
            let kv = value_kind(&args[0]);
            Ok(Value::BoolV(kv == k))
        },
    }
}

/// The kind tag of a value.
pub fn value_kind(v: &Value) -> (r: ValueKind)
    ensures
        r == kind_of(v@),
{
    match v {
        Value::Void => ValueKind::VoidK,
        Value::BoolV(_) => ValueKind::BoolK,
        Value::IntV(_) => ValueKind::IntK,
        Value::CharV(_) => ValueKind::CharK,
        Value::StringV(_) => ValueKind::StringK,
        Value::SymbolV(_) => ValueKind::SymbolK,
        Value::Pair(_, _) => ValueKind::PairK,
        Value::FuncV(_) => ValueKind::FuncK,
        Value::LambdaV(_) => ValueKind::LambdaK,
        Value::MacroV(_) => ValueKind::MacroK,
        Value::StructFactoryV(_) => ValueKind::StructK,
        Value::StructClosureV(_, _) => ValueKind::StructK,
        Value::StructV(_, _) => ValueKind::StructK,
    }
}

/// The conversion layer for host-supplied computations: arguments come in
/// as values, are converted to `U`, computed on, and the `V` result goes
/// back into the value domain.
pub trait RucketFunctor<U, V> {
    /// What the computation returns for a converted input.
    spec fn call_model(input: &U) -> Result<V, ErrorKind>;

    /// Runs the computation; the result is what `call_model` states.
    fn call(input: U) -> (r: Result<V, SteelErr>)
        ensures
            (match Self::call_model(&input) {
                Ok(v) => r matches Ok(rv) && rv == v,
                Err(k) => r matches Err(e) && e@ == k,
            }),
    ;

    /// Converts the raw argument vector to the computation's input type.
    fn in_convert(input: Vec<Value>) -> Result<U, SteelErr>;
}

/// An argument vector whose values were all integers.
pub struct VecNumbers(pub Vec<i64>);

impl VecNumbers {
    /// Conversion from raw arguments; fails with `TypeMismatch` when any
    /// argument is not an integer.
    pub fn try_from_values(value: Vec<Value>) -> (r: Result<VecNumbers, SteelErr>)
        ensures
            (match ints_of(value.deep_view()) {
                Some(s) => r matches Ok(v) && v.0@ == s,
                None => r matches Err(e) && e@ == ErrorKind::TypeMismatch,
            }),
    {
        match to_ints(&value) {
            Some(s) => Ok(VecNumbers(s)),
            None => Err(SteelErr::new(ErrorKind::TypeMismatch, "expected a number".to_owned())),
        }
    }
}

/// Variadic addition over integer arguments.
pub struct Adder;

impl RucketFunctor<VecNumbers, i64> for Adder {
    open spec fn call_model(input: &VecNumbers) -> Result<i64, ErrorKind> {
        match fold_add(input.0@, 0, 0) {
            Some(x) => Ok(x),
            None => Err(ErrorKind::Generic),
        }
    }

    fn call(input: VecNumbers) -> (r: Result<i64, SteelErr>) {
        match run_fold_add(&input.0, 0, 0) {
            Some(x) => Ok(x),
            None => Err(SteelErr::new(ErrorKind::Generic, "addition overflowed".to_owned())),
        }
    }

    fn in_convert(input: Vec<Value>) -> Result<VecNumbers, SteelErr> {
        VecNumbers::try_from_values(input)
    }
}

/// Variadic multiplication over integer arguments.
pub struct Multiplier;

impl RucketFunctor<VecNumbers, i64> for Multiplier {
    open spec fn call_model(input: &VecNumbers) -> Result<i64, ErrorKind> {
        match fold_mul(input.0@, 0, 1) {
            Some(x) => Ok(x),
            None => Err(ErrorKind::Generic),
        }
    }

    fn call(input: VecNumbers) -> (r: Result<i64, SteelErr>) {
        match run_fold_mul(&input.0, 0, 1) {
            Some(x) => Ok(x),
            None => Err(SteelErr::new(ErrorKind::Generic, "multiplication overflowed".to_owned())),
        }
    }

    fn in_convert(input: Vec<Value>) -> Result<VecNumbers, SteelErr> {
        VecNumbers::try_from_values(input)
    }
}

/// Variadic subtraction folding from the first argument; at least one
/// argument is required.
pub struct Subtractor;

impl RucketFunctor<VecNumbers, i64> for Subtractor {
    open spec fn call_model(input: &VecNumbers) -> Result<i64, ErrorKind> {
        if input.0@.len() == 0 {
            Err(ErrorKind::ArityMismatch)
        } else {
            match fold_sub(input.0@, 1, input.0@[0]) {
                Some(x) => Ok(x),
                None => Err(ErrorKind::Generic),
            }
        }
    }

    fn call(input: VecNumbers) -> (r: Result<i64, SteelErr>) {
        if input.0.len() == 0 {
            return Err(
                SteelErr::new(ErrorKind::ArityMismatch, "'-' expects at least one number".to_owned()),
            );
        }
        let first = input.0[0];
        match run_fold_sub(&input.0, 1, first) {
            Some(x) => Ok(x),
            None => Err(SteelErr::new(ErrorKind::Generic, "subtraction overflowed".to_owned())),
        }
    }

    fn in_convert(input: Vec<Value>) -> Result<VecNumbers, SteelErr> {
        VecNumbers::try_from_values(input)
    }
}

/// Variadic division folding from the first argument; at least one
/// argument is required, and a zero divisor is an error.
pub struct Divider;

impl RucketFunctor<VecNumbers, i64> for Divider {
    open spec fn call_model(input: &VecNumbers) -> Result<i64, ErrorKind> {
        if input.0@.len() == 0 {
            Err(ErrorKind::ArityMismatch)
        } else {
            match fold_div(input.0@, 1, input.0@[0]) {
                Some(x) => Ok(x),
                None => Err(ErrorKind::Generic),
            }
        }
    }

    fn call(input: VecNumbers) -> (r: Result<i64, SteelErr>) {
        if input.0.len() == 0 {
            return Err(
                SteelErr::new(ErrorKind::ArityMismatch, "'/' expects at least one number".to_owned()),
            );
        }
        let first = input.0[0];
        match run_fold_div(&input.0, 1, first) {
            Some(x) => Ok(x),
            None => Err(SteelErr::new(ErrorKind::Generic, "division failed".to_owned())),
        }
    }

    fn in_convert(input: Vec<Value>) -> Result<VecNumbers, SteelErr> {
        VecNumbers::try_from_values(input)
    }
}

} // verus!
