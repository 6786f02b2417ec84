//! The tree-walking evaluator with proper tail calls, and its mathematical
//! meaning: a fuel-indexed big-step interpreter over the view types.
//!
//! The executable evaluator is a single loop over an (expression, frame)
//! pair. Tail positions — `if` branches, the last form of a `begin`, a
//! `try!` handler, a lambda body entered by application — rebind the loop
//! state instead of recursing; the host stack is only used for operand and
//! argument evaluation. Fuel is spent when control enters a lambda body, a
//! macro expansion, a `let` desugaring or an `eval`; structural steps are
//! free, so an unbounded chain of tail calls costs constant host stack and
//! fuel linear in the number of calls.
//!
//! Every clause of the executable evaluator is proved to return exactly
//! what `eval_model` states, including the environment left behind on
//! error exits (which a surrounding `try!` observes).

use vstd::prelude::*;
use vstd::string::StrSliceExecFns;
use vstd::string::StringExecFns;

use crate::ast::{
    clone_expr, esize, esize_prefix, esize_seq, expr_is_ident, lemma_esize_seq_elem,
    lemma_esize_seq_split, lemma_vector_val_view, model_is_ident, str_eq, Expr, ExprModel, Token,
    TokenModel,
};
use crate::env::{lookup_model, set_model, Env, EnvModel, FrameModel};
use crate::errors::{ErrorKind, SteelErr};
use crate::expander::{
    idents_of, idents_of_model, macro_expand_model, parse_macro_model, parse_syntax_rules,
};
use crate::primitives::{
    apply_prim, collect_list_items, is_proper_list, iter_vals, list_of, make_list,
    prim_apply_model, value_kind,
};
use crate::values::{
    clone_value, quote_list_model, quote_model, vsize, CapturedEnv, LambdaModel, MacroModel, Prim, SteelLambda,
    SteelMacro, StructDecl, StructDeclModel, StructOp, Value, ValueModel,
};

verus! {

broadcast use vstd::seq::group_seq_axioms, vstd::std_specs::vec::group_vec_axioms;

/// The registry of loadable modules: a path and the frame already holding
/// the module's exports.
pub type ModulesModel = Seq<(Seq<char>, usize)>;

/// The frame registered for `path`, scanning in registration order.
pub open spec fn mod_find(ms: ModulesModel, path: Seq<char>) -> Option<usize>
    decreases ms.len(),
{
    if ms.len() == 0 {
        None
    } else if ms[0].0 == path {
        Some(ms[0].1)
    } else {
        mod_find(ms.skip(1), path)
    }
}

/// Outcome of evaluating one expression: the environment left behind and
/// the value or error kind produced. The environment is meaningful on both
/// branches: a surrounding `try!` continues in the post-error environment.
#[verifier::ext_equal]
pub struct EOut {
    pub env: EnvModel,
    pub res: Result<ValueModel, ErrorKind>,
}

/// Outcome of evaluating a run of expressions left-to-right.
#[verifier::ext_equal]
pub struct SeqOut {
    pub env: EnvModel,
    pub res: Result<Seq<ValueModel>, ErrorKind>,
}

/// Outcome of a step that produces the next expression for the tail loop.
pub struct StepOut {
    pub env: EnvModel,
    pub res: Result<ExprModel, ErrorKind>,
}

/// The reserved words, in dispatch order.
pub open spec fn head_is(es: Seq<ExprModel>, kw: Seq<char>) -> bool {
    es.len() > 0 && model_is_ident(es[0], kw)
}

/// The environment after binding `params[i..]` to `args[i..]` in frame
/// `idx`, pairwise in order.
pub open spec fn bind_from(
    st: EnvModel,
    idx: int,
    params: Seq<Seq<char>>,
    args: Seq<ValueModel>,
    i: int,
) -> EnvModel
    decreases params.len() - i,
{
    if i < 0 || i >= params.len() || i >= args.len() {
        st
    } else {
        bind_from(st.define_at(idx, params[i], args[i]), idx, params, args, i + 1)
    }
}

/// The value a lambda form yields: its parameter names, its body wrapped
/// in a `begin` and macro-expanded, and the frame it captures — the root
/// frame by an owned reference, any other frame by a back-reference.
pub open spec fn make_lambda_model(
    ts: Seq<ExprModel>,
    env: int,
    st: EnvModel,
    fuel: nat,
) -> Result<ValueModel, ErrorKind> {
    if ts.len() <= 1 {
        Err(ErrorKind::ArityMismatch)
    } else {
        match ts[0] {
            ExprModel::List(ids) => match idents_of_model(ids) {
                Some(params) => {
                    let body = ExprModel::List(
                        seq![ExprModel::Atom(TokenModel::Identifier("begin"@))] + ts.skip(1),
                    );
                    match expand_model(body, env, st, fuel) {
                        Ok(expanded) => {
                            let captured = if 0 <= env < st.frames.len() && st.frames[env].parent
                                is None {
                                CapturedEnv::Owned(env as usize)
                            } else {
                                CapturedEnv::Enclosed(env as usize)
                            };
                            Ok(
                                ValueModel::Lambda(
                                    LambdaModel { params, body: expanded, captured },
                                ),
                            )
                        },
                        Err(k) => Err(k),
                    }
                },
                None => Err(ErrorKind::TypeMismatch),
            },
            _ => Err(ErrorKind::TypeMismatch),
        }
    }
}

/// Recursive macro expansion of an expression: an application whose head
/// identifier is bound to a macro is rewritten by that macro and the
/// result expanded again (spending fuel); otherwise the children are
/// expanded in place.
pub open spec fn expand_model(e: ExprModel, env: int, st: EnvModel, fuel: nat) -> Result<
    ExprModel,
    ErrorKind,
>
    decreases fuel, esize(e), 0nat,
{
    match e {
        ExprModel::Atom(_) => Ok(e),
        ExprModel::List(l) => {
            if l.len() == 0 {
                Ok(e)
            } else {
                let head_macro = match l[0] {
                    ExprModel::Atom(TokenModel::Identifier(s)) => match lookup_model(st, env, s) {
                        Some(ValueModel::Macro(m)) => Some(m),
                        _ => None,
                    },
                    _ => None,
                };
                match head_macro {
                    Some(m) => match macro_expand_model(m, e) {
                        Ok(e2) => if fuel == 0 {
                            Err(ErrorKind::Generic)
                        } else {
                            expand_model(e2, env, st, (fuel - 1) as nat)
                        },
                        Err(k) => Err(k),
                    },
                    None => match expand_list_model(l, 0, env, st, fuel) {
                        Ok(l2) => Ok(ExprModel::List(l2)),
                        Err(k) => Err(k),
                    },
                }
            }
        },
    }
}

/// Expands `l[i..]` elementwise.
pub open spec fn expand_list_model(
    l: Seq<ExprModel>,
    i: int,
    env: int,
    st: EnvModel,
    fuel: nat,
) -> Result<Seq<ExprModel>, ErrorKind>
    decreases fuel, esize_seq(l), (l.len() - i + 1) as nat,
    via expand_list_model_dec
{
    if i < 0 || i >= l.len() {
        Ok(Seq::empty())
    } else {
        match expand_model(l[i], env, st, fuel) {
            Ok(e2) => match expand_list_model(l, i + 1, env, st, fuel) {
                Ok(rest) => Ok(seq![e2] + rest),
                Err(k) => Err(k),
            },
            Err(k) => Err(k),
        }
    }
}

#[via_fn]
proof fn expand_list_model_dec(l: Seq<ExprModel>, i: int, env: int, st: EnvModel, fuel: nat) {
    if 0 <= i < l.len() {
        lemma_esize_seq_elem(l, i);
    }
}

/// The value an atom denotes: literals denote themselves; an identifier
/// denotes its binding, or fails as a free identifier.
pub open spec fn eval_atom_model(t: TokenModel, env: int, st: EnvModel) -> Result<
    ValueModel,
    ErrorKind,
> {
    match t {
        TokenModel::BooleanLiteral(b) => Ok(ValueModel::Bool(b)),
        TokenModel::IntegerLiteral(n) => Ok(ValueModel::Int(n)),
        TokenModel::StringLiteral(s) => Ok(ValueModel::Str(s)),
        TokenModel::CharacterLiteral(c) => Ok(ValueModel::Char(c)),
        TokenModel::Identifier(x) => match lookup_model(st, env, x) {
            Some(v) => Ok(v),
            None => Err(ErrorKind::FreeIdentifier),
        },
    }
}

/// The expression a value converts back to under `eval`: scalars to their
/// atoms, proper lists elementwise; procedures, macros and improper lists
/// do not convert.
pub open spec fn unquote_model(v: ValueModel) -> Option<ExprModel>
    decreases vsize(v), 1int,
{
    match v {
        ValueModel::Bool(b) => Some(ExprModel::Atom(TokenModel::BooleanLiteral(b))),
        ValueModel::Int(n) => Some(ExprModel::Atom(TokenModel::IntegerLiteral(n))),
        ValueModel::Char(c) => Some(ExprModel::Atom(TokenModel::CharacterLiteral(c))),
        ValueModel::Str(s) => Some(ExprModel::Atom(TokenModel::StringLiteral(s))),
        ValueModel::Sym(s) => Some(ExprModel::Atom(TokenModel::Identifier(s))),
        ValueModel::Pair(_, _) => match unquote_list_model(v) {
            Some(es) => Some(ExprModel::List(es)),
            None => None,
        },
        _ => None,
    }
}

/// The expression list a proper list converts back to.
pub open spec fn unquote_list_model(v: ValueModel) -> Option<Seq<ExprModel>>
    decreases vsize(v), 0int,
{
    match v {
        ValueModel::Void => Some(Seq::empty()),
        ValueModel::Pair(h, t) => match unquote_model(*h) {
            Some(e) => match unquote_list_model(*t) {
                Some(rest) => Some(seq![e] + rest),
                None => None,
            },
            None => None,
        },
        _ => None,
    }
}

/// The `let` desugaring: `(let ((a e) ...) body)` becomes
/// `((lambda (a ...) body) e ...)`; malformed bindings are `BadSyntax`.
pub open spec fn let_desugar_model(ts: Seq<ExprModel>) -> Result<ExprModel, ErrorKind> {
    if ts.len() != 2 {
        Err(ErrorKind::ArityMismatch)
    } else {
        match ts[0] {
            ExprModel::List(pairs) => match split_pairs_model(pairs, 0) {
                Some((names, exprs)) => Ok(
                    ExprModel::List(
                        seq![
                            ExprModel::List(
                                seq![
                                    ExprModel::Atom(TokenModel::Identifier("lambda"@)),
                                    ExprModel::List(names),
                                    ts[1],
                                ],
                            ),
                        ] + exprs,
                    ),
                ),
                None => Err(ErrorKind::BadSyntax),
            },
            _ => Err(ErrorKind::BadSyntax),
        }
    }
}

/// Splits binding pairs into names and right-hand sides.
pub open spec fn split_pairs_model(pairs: Seq<ExprModel>, i: int) -> Option<
    (Seq<ExprModel>, Seq<ExprModel>),
>
    decreases pairs.len() - i,
{
    if i < 0 || i >= pairs.len() {
        Some((Seq::empty(), Seq::empty()))
    } else {
        match pairs[i] {
            ExprModel::List(p) => if p.len() == 2 {
                match split_pairs_model(pairs, i + 1) {
                    Some((ns, es)) => Some((seq![p[0]] + ns, seq![p[1]] + es)),
                    None => None,
                }
            } else {
                None
            },
            _ => None,
        }
    }
}

/// The record definitions a `struct` form installs: the factory under the
/// type name, a predicate under `name?`, and a getter `name-field` and
/// setter `set-name-field!` for each field.
pub open spec fn struct_defs_model(ts: Seq<ExprModel>) -> Result<
    Seq<(Seq<char>, ValueModel)>,
    ErrorKind,
> {
    if ts.len() != 2 {
        Err(ErrorKind::ArityMismatch)
    } else {
        match (ts[0], ts[1]) {
            (ExprModel::Atom(TokenModel::Identifier(name)), ExprModel::List(fl)) => {
                match idents_of_model(fl) {
                    Some(fields) => {
                        let d = StructDeclModel { name, fields };
                        Ok(
                            seq![
                                (name, ValueModel::StructFactory(d)),
                                (name + "?"@, ValueModel::StructClosure(d, StructOp::Predicate)),
                            ] + accessor_defs_model(d, 0),
                        )
                    },
                    None => Err(ErrorKind::TypeMismatch),
                }
            },
            _ => Err(ErrorKind::TypeMismatch),
        }
    }
}

/// Getter and setter bindings for `d.fields[i..]`.
pub open spec fn accessor_defs_model(d: StructDeclModel, i: int) -> Seq<(Seq<char>, ValueModel)>
    decreases d.fields.len() - i,
{
    if i < 0 || i >= d.fields.len() {
        Seq::empty()
    } else {
        seq![
            (d.name + "-"@ + d.fields[i], ValueModel::StructClosure(d, StructOp::Getter(i as usize))),
            (
                "set-"@ + d.name + "-"@ + d.fields[i] + "!"@,
                ValueModel::StructClosure(d, StructOp::Setter(i as usize)),
            ),
        ] + accessor_defs_model(d, i + 1)
    }
}

/// The environment after defining each name/value pair in frame `env`.
pub open spec fn define_defs(st: EnvModel, env: int, defs: Seq<(Seq<char>, ValueModel)>, i: int) -> EnvModel
    decreases defs.len() - i,
{
    if i < 0 || i >= defs.len() {
        st
    } else {
        define_defs(st.define_at(env, defs[i].0, defs[i].1), env, defs, i + 1)
    }
}

/// What a struct dispatch closure returns for evaluated arguments.
pub open spec fn struct_apply_model(d: StructDeclModel, op: StructOp, args: Seq<ValueModel>) -> Result<
    ValueModel,
    ErrorKind,
> {
    match op {
        StructOp::Construct => if args.len() == d.fields.len() {
            Ok(ValueModel::Struct(d.name, args))
        } else {
            Err(ErrorKind::ArityMismatch)
        },
        StructOp::Predicate => if args.len() == 1 {
            Ok(
                ValueModel::Bool(
                    match args[0] {
                        ValueModel::Struct(n, _) => n == d.name,
                        _ => false,
                    },
                ),
            )
        } else {
            Err(ErrorKind::ArityMismatch)
        },
        StructOp::Getter(i) => if args.len() == 1 {
            match args[0] {
                ValueModel::Struct(n, fs) => if n == d.name && (i as int) < fs.len() {
                    Ok(fs[i as int])
                } else {
                    Err(ErrorKind::TypeMismatch)
                },
                _ => Err(ErrorKind::TypeMismatch),
            }
        } else {
            Err(ErrorKind::ArityMismatch)
        },
        StructOp::Setter(i) => if args.len() == 2 {
            match args[0] {
                ValueModel::Struct(n, fs) => if n == d.name && (i as int) < fs.len() {
                    Ok(ValueModel::Struct(n, fs.update(i as int, args[1])))
                } else {
                    Err(ErrorKind::TypeMismatch)
                },
                _ => Err(ErrorKind::TypeMismatch),
            }
        } else {
            Err(ErrorKind::ArityMismatch)
        },
    }
}

/// The meaning of one expression, with `fuel` bounding the depth of
/// non-structural control transfers. Fuel exhaustion is the `Generic`
/// error. Dispatch is on the head identifier, in the evaluator's order;
/// any other head is an application.
#[verifier::opaque]
pub open spec fn eval_model(
    e: ExprModel,
    env: int,
    st: EnvModel,
    ms: ModulesModel,
    fuel: nat,
) -> EOut
    decreases fuel, esize(e), 0nat,
    via eval_model_dec
{
    match e {
        ExprModel::Atom(t) => EOut { env: st, res: eval_atom_model(t, env, st) },
        ExprModel::List(l) => {
            if l.len() == 0 {
                EOut { env: st, res: Err(ErrorKind::TypeMismatch) }
            } else if head_is(l, "quote"@) {
                if l.len() == 2 {
                    EOut { env: st, res: Ok(quote_model(l[1])) }
                } else {
                    EOut { env: st, res: Err(ErrorKind::ArityMismatch) }
                }
            } else if head_is(l, "if"@) {
                if l.len() == 4 {
                    let t_out = eval_model(l[1], env, st, ms, fuel);
                    match t_out.res {
                        Ok(tv) => if tv != ValueModel::Bool(false) {
                            eval_model(l[2], env, t_out.env, ms, fuel)
                        } else {
                            eval_model(l[3], env, t_out.env, ms, fuel)
                        },
                        Err(k) => EOut { env: t_out.env, res: Err(k) },
                    }
                } else {
                    EOut { env: st, res: Err(ErrorKind::ArityMismatch) }
                }
            } else if head_is(l, "define"@) {
                eval_define_model(l.skip(1), env, st, ms, fuel)
            } else if head_is(l, "define-syntax"@) {
                match parse_macro_model(l.skip(1)) {
                    Ok(m) => EOut {
                        env: st.define_at(env, m.name, ValueModel::Macro(m)),
                        res: Ok(ValueModel::Void),
                    },
                    Err(k) => EOut { env: st, res: Err(k) },
                }
            } else if head_is(l, "lambda"@) {
                EOut { env: st, res: make_lambda_model(l.skip(1), env, st, fuel) }
            } else if head_is(l, "eval"@) {
                if l.len() == 2 {
                    let a_out = eval_model(l[1], env, st, ms, fuel);
                    match a_out.res {
                        Ok(v) => match unquote_model(v) {
                            Some(e2) => if fuel == 0 {
                                EOut { env: a_out.env, res: Err(ErrorKind::Generic) }
                            } else {
                                eval_model(e2, env, a_out.env, ms, (fuel - 1) as nat)
                            },
                            None => EOut { env: a_out.env, res: Err(ErrorKind::ContractViolation) },
                        },
                        Err(k) => EOut { env: a_out.env, res: Err(k) },
                    }
                } else {
                    EOut { env: st, res: Err(ErrorKind::ArityMismatch) }
                }
            } else if head_is(l, "set!"@) {
                if l.len() == 3 {
                    let v_out = eval_model(l[2], env, st, ms, fuel);
                    match v_out.res {
                        Ok(v) => match l[1] {
                            ExprModel::Atom(TokenModel::Identifier(x)) => match set_model(
                                v_out.env,
                                env,
                                x,
                                v,
                            ) {
                                Some(st2) => EOut { env: st2, res: Ok(ValueModel::Void) },
                                None => EOut { env: v_out.env, res: Err(ErrorKind::FreeIdentifier) },
                            },
                            _ => EOut { env: v_out.env, res: Err(ErrorKind::TypeMismatch) },
                        },
                        Err(k) => EOut { env: v_out.env, res: Err(k) },
                    }
                } else {
                    EOut { env: st, res: Err(ErrorKind::ArityMismatch) }
                }
            } else if head_is(l, "let"@) {
                match let_desugar_model(l.skip(1)) {
                    Ok(d) => if fuel == 0 {
                        EOut { env: st, res: Err(ErrorKind::Generic) }
                    } else {
                        eval_model(d, env, st, ms, (fuel - 1) as nat)
                    },
                    Err(k) => EOut { env: st, res: Err(k) },
                }
            } else if head_is(l, "begin"@) {
                if l.len() == 1 {
                    EOut { env: st, res: Err(ErrorKind::ArityMismatch) }
                } else {
                    eval_begin_model(l, 1, env, st, ms, fuel)
                }
            } else if head_is(l, "apply"@) {
                eval_apply_model(l.skip(1), env, st, ms, fuel)
            } else if head_is(l, "try!"@) {
                if l.len() == 3 {
                    let t_out = eval_model(l[1], env, st, ms, fuel);
                    match t_out.res {
                        Ok(v) => EOut { env: t_out.env, res: Ok(v) },
                        Err(_) => eval_model(l[2], env, t_out.env, ms, fuel),
                    }
                } else {
                    EOut { env: st, res: Err(ErrorKind::ArityMismatch) }
                }
            } else if head_is(l, "require"@) {
                require_model(l.skip(1), 0, env, st, ms)
            } else if head_is(l, "map'"@) {
                eval_map_model(l.skip(1), true, env, st, ms, fuel)
            } else if head_is(l, "filter'"@) {
                eval_map_model(l.skip(1), false, env, st, ms, fuel)
            } else if head_is(l, "struct"@) {
                match struct_defs_model(l.skip(1)) {
                    Ok(defs) => EOut {
                        env: define_defs(st, env, defs, 0),
                        res: Ok(ValueModel::Void),
                    },
                    Err(k) => EOut { env: st, res: Err(k) },
                }
            } else {
                // Application: evaluate the operator, dispatch on its tag.
                let f_out = eval_model(l[0], env, st, ms, fuel);
                match f_out.res {
                    Ok(fv) => match fv {
                        ValueModel::Macro(m) => match macro_expand_model(m, e) {
                            Ok(e2) => if fuel == 0 {
                                EOut { env: f_out.env, res: Err(ErrorKind::Generic) }
                            } else {
                                eval_model(e2, env, f_out.env, ms, (fuel - 1) as nat)
                            },
                            Err(k) => EOut { env: f_out.env, res: Err(k) },
                        },
                        ValueModel::Func(_) | ValueModel::Lambda(_) | ValueModel::StructFactory(_)
                            | ValueModel::StructClosure(_, _) => {
                            let a_out = eval_args_model(l, 1, env, f_out.env, ms, fuel);
                            match a_out.res {
                                Ok(args) => apply_value_model(fv, args, a_out.env, ms, fuel),
                                Err(k) => EOut { env: a_out.env, res: Err(k) },
                            }
                        },
                        _ => EOut { env: f_out.env, res: Err(ErrorKind::TypeMismatch) },
                    },
                    Err(k) => EOut { env: f_out.env, res: Err(k) },
                }
            }
        },
    }
}

/// Evaluates `es[i..]` left-to-right, threading the environment.
pub open spec fn eval_args_model(
    es: Seq<ExprModel>,
    i: int,
    env: int,
    st: EnvModel,
    ms: ModulesModel,
    fuel: nat,
) -> SeqOut
    decreases fuel, esize_seq(es), (es.len() - i + 2) as nat,
    via eval_args_model_dec
{
    if i < 0 || i >= es.len() {
        SeqOut { env: st, res: Ok(Seq::empty()) }
    } else {
        let first = eval_model(es[i], env, st, ms, fuel);
        match first.res {
            Ok(v) => {
                let rest = eval_args_model(es, i + 1, env, first.env, ms, fuel);
                match rest.res {
                    Ok(vs) => SeqOut { env: rest.env, res: Ok(seq![v] + vs) },
                    Err(k) => SeqOut { env: rest.env, res: Err(k) },
                }
            },
            Err(k) => SeqOut { env: first.env, res: Err(k) },
        }
    }
}

#[via_fn]
proof fn eval_args_model_dec(
    es: Seq<ExprModel>,
    i: int,
    env: int,
    st: EnvModel,
    ms: ModulesModel,
    fuel: nat,
) {
    if 0 <= i < es.len() {
        lemma_esize_seq_elem(es, i);
    }
}

/// Evaluates `l[i..]` in sequence, discarding all but the last value,
/// whose evaluation is the tail position.
pub open spec fn eval_begin_model(
    l: Seq<ExprModel>,
    i: int,
    env: int,
    st: EnvModel,
    ms: ModulesModel,
    fuel: nat,
) -> EOut
    decreases fuel, esize_seq(l), (l.len() - i + 2) as nat,
    via eval_begin_model_dec
{
    if i < 0 || i >= l.len() {
        EOut { env: st, res: Err(ErrorKind::ArityMismatch) }
    } else if i == l.len() - 1 {
        eval_model(l[i], env, st, ms, fuel)
    } else {
        let first = eval_model(l[i], env, st, ms, fuel);
        match first.res {
            Ok(_) => eval_begin_model(l, i + 1, env, first.env, ms, fuel),
            Err(k) => EOut { env: first.env, res: Err(k) },
        }
    }
}

#[via_fn]
proof fn eval_begin_model_dec(
    l: Seq<ExprModel>,
    i: int,
    env: int,
    st: EnvModel,
    ms: ModulesModel,
    fuel: nat,
) {
    if 0 <= i < l.len() {
        lemma_esize_seq_elem(l, i);
    }
}

/// Applies an already-evaluated procedure value to evaluated arguments.
/// Entering a lambda body costs one unit of fuel; primitives and struct
/// closures are pure.
pub open spec fn apply_value_model(
    f: ValueModel,
    args: Seq<ValueModel>,
    st: EnvModel,
    ms: ModulesModel,
    fuel: nat,
) -> EOut
    decreases fuel, 0nat, 1nat,
{
    match f {
        ValueModel::Func(p) => EOut { env: st, res: prim_apply_model(p, args) },
        ValueModel::Lambda(lam) => {
            if lam.params.len() != args.len() {
                EOut { env: st, res: Err(ErrorKind::ArityMismatch) }
            } else if !(0 <= lam.captured.index() < st.frames.len()) {
                EOut { env: st, res: Err(ErrorKind::Generic) }
            } else if fuel == 0 {
                EOut { env: st, res: Err(ErrorKind::Generic) }
            } else {
                let idx = st.frames.len() as int;
                let st2 = bind_from(
                    st.push_frame(lam.captured.index() as int),
                    idx,
                    lam.params,
                    args,
                    0,
                );
                eval_model(lam.body, idx, st2, ms, (fuel - 1) as nat)
            }
        },
        ValueModel::StructFactory(d) => EOut {
            env: st,
            res: struct_apply_model(d, StructOp::Construct, args),
        },
        ValueModel::StructClosure(d, op) => EOut { env: st, res: struct_apply_model(d, op, args) },
        _ => EOut { env: st, res: Err(ErrorKind::TypeMismatch) },
    }
}

/// The `define` form, given the tokens after the keyword: a plain define
/// evaluates its right-hand side and binds it; a function define builds
/// the lambda directly. The frame is marked as a binding context first.
pub open spec fn eval_define_model(
    ts: Seq<ExprModel>,
    env: int,
    st: EnvModel,
    ms: ModulesModel,
    fuel: nat,
) -> EOut
    decreases fuel, esize_seq(ts), 2nat,
    via eval_define_model_dec
{
    let st1 = set_bctx_model(st, env, true);
    if ts.len() <= 1 {
        EOut { env: st1, res: Err(ErrorKind::ArityMismatch) }
    } else {
        match ts[0] {
            ExprModel::Atom(TokenModel::Identifier(x)) => {
                if ts.len() != 2 {
                    EOut { env: st1, res: Err(ErrorKind::ArityMismatch) }
                } else {
                    let b_out = eval_model(ts[1], env, st1, ms, fuel);
                    match b_out.res {
                        Ok(v) => EOut {
                            env: b_out.env.define_at(env, x, v),
                            res: Ok(ValueModel::Void),
                        },
                        Err(k) => EOut { env: b_out.env, res: Err(k) },
                    }
                }
            },
            ExprModel::List(ids) => {
                if ids.len() == 0 {
                    EOut { env: st1, res: Err(ErrorKind::TypeMismatch) }
                } else {
                    match ids[0] {
                        ExprModel::Atom(TokenModel::Identifier(x)) => {
                            let lam_ts = seq![ExprModel::List(ids.skip(1))] + ts.skip(1);
                            match make_lambda_model(lam_ts, env, st1, fuel) {
                                Ok(lam) => EOut {
                                    env: st1.define_at(env, x, lam),
                                    res: Ok(ValueModel::Void),
                                },
                                Err(k) => EOut { env: st1, res: Err(k) },
                            }
                        },
                        _ => EOut { env: st1, res: Err(ErrorKind::TypeMismatch) },
                    }
                }
            },
            _ => EOut { env: st1, res: Err(ErrorKind::TypeMismatch) },
        }
    }
}

#[via_fn]
proof fn eval_define_model_dec(
    ts: Seq<ExprModel>,
    env: int,
    st: EnvModel,
    ms: ModulesModel,
    fuel: nat,
) {
    if ts.len() > 1 {
        lemma_esize_seq_elem(ts, 1);
    }
}

/// A frame with its binding-context flag set.
pub open spec fn set_bctx_model(st: EnvModel, i: int, b: bool) -> EnvModel {
    if 0 <= i < st.frames.len() {
        EnvModel {
            frames: st.frames.update(i, FrameModel { binding_context: b, ..st.frames[i] }),
        }
    } else {
        st
    }
}

/// A frame with one more imported module.
pub open spec fn add_module_model(st: EnvModel, i: int, m: int) -> EnvModel {
    if 0 <= i < st.frames.len() {
        EnvModel {
            frames: st.frames.update(
                i,
                FrameModel { modules: st.frames[i].modules.push(m), ..st.frames[i] },
            ),
        }
    } else {
        st
    }
}

/// The `require` form: each string-literal token names a registered
/// module, whose export frame is spliced into the current frame's module
/// list; other tokens are ignored. An unregistered path is the `Generic`
/// error, raised where it is met.
pub open spec fn require_model(l: Seq<ExprModel>, i: int, env: int, st: EnvModel, ms: ModulesModel) -> EOut
    decreases l.len() - i,
{
    if i < 0 || i >= l.len() {
        EOut { env: st, res: Ok(ValueModel::Void) }
    } else {
        match l[i] {
            ExprModel::Atom(TokenModel::StringLiteral(path)) => match mod_find(ms, path) {
                Some(fidx) => require_model(l, i + 1, env, add_module_model(st, env, fidx as int), ms),
                None => EOut { env: st, res: Err(ErrorKind::Generic) },
            },
            _ => require_model(l, i + 1, env, st, ms),
        }
    }
}

/// The `apply` form, given the tokens after the keyword: the last operand
/// is evaluated first and must be a pair chain; then the leading operands,
/// then the operator, which is applied to the spliced argument list.
pub open spec fn eval_apply_model(
    ts: Seq<ExprModel>,
    env: int,
    st: EnvModel,
    ms: ModulesModel,
    fuel: nat,
) -> EOut
    decreases fuel, esize_seq(ts), 2nat,
    via eval_apply_model_dec
{
    if ts.len() < 2 {
        EOut { env: st, res: Err(ErrorKind::TypeMismatch) }
    } else {
        let last = ts[ts.len() - 1];
        let l_out = eval_model(last, env, st, ms, fuel);
        match l_out.res {
            Ok(lv) => {
                if !(lv is Pair) {
                    EOut { env: l_out.env, res: Err(ErrorKind::TypeMismatch) }
                } else {
                    let items = iter_vals(lv);
                    let mid = ts.subrange(1, ts.len() - 1);
                    let a_out = eval_args_model(mid, 0, env, l_out.env, ms, fuel);
                    match a_out.res {
                        Ok(optional) => {
                            let f_out = eval_model(ts[0], env, a_out.env, ms, fuel);
                            match f_out.res {
                                Ok(fv) => apply_value_model(
                                    fv,
                                    optional + items,
                                    f_out.env,
                                    ms,
                                    fuel,
                                ),
                                Err(k) => EOut { env: f_out.env, res: Err(k) },
                            }
                        },
                        Err(k) => EOut { env: a_out.env, res: Err(k) },
                    }
                }
            },
            Err(k) => EOut { env: l_out.env, res: Err(k) },
        }
    }
}

#[via_fn]
proof fn eval_apply_model_dec(
    ts: Seq<ExprModel>,
    env: int,
    st: EnvModel,
    ms: ModulesModel,
    fuel: nat,
) {
    if ts.len() >= 2 {
        let n = ts.len() as int;
        lemma_esize_seq_elem(ts, 0);
        lemma_esize_seq_elem(ts, n - 1);
        lemma_esize_seq_split(ts, 1);
        let s1 = ts.subrange(1, n);
        lemma_esize_take(s1, s1.len() - 1);
        assert(esize_prefix(s1, s1.len() as int) == esize_prefix(s1, s1.len() - 1) + esize(
            s1[s1.len() - 1],
        ));
        assert(s1.take(s1.len() - 1) =~= ts.subrange(1, n - 1));
        crate::ast::lemma_esize_pos(s1[s1.len() - 1]);
        crate::ast::lemma_esize_pos(ts[0]);
        assert(esize_seq(ts.subrange(1, n - 1)) + 2 <= esize_seq(ts));
    }
}

/// A shorter subrange weighs no more than a longer one at the same start.
pub proof fn lemma_esize_subrange_prefix(ts: Seq<ExprModel>, a: int, b: int)
    requires
        0 <= a <= b <= ts.len(),
    ensures
        esize_seq(ts.subrange(a, b)) <= esize_seq(ts),
    decreases ts.len() - b,
{
    if b == ts.len() {
        lemma_esize_seq_split(ts, a);
    } else {
        lemma_esize_subrange_prefix(ts.subrange(0, ts.len() - 1), a, b);
        assert(ts.subrange(0, ts.len() - 1).subrange(a, b) =~= ts.subrange(a, b));
        lemma_esize_drop_last(ts);
    }
}

/// Dropping the last element cannot grow the size.
pub proof fn lemma_esize_drop_last(ts: Seq<ExprModel>)
    requires
        ts.len() > 0,
    ensures
        esize_seq(ts.subrange(0, ts.len() - 1)) <= esize_seq(ts),
{
    assert(ts.subrange(0, ts.len() - 1) =~= ts.take(ts.len() - 1));
    assert(esize_prefix(ts, ts.len() as int) == esize_prefix(ts, ts.len() - 1) + esize(
        ts[ts.len() - 1],
    ));
    lemma_esize_take(ts, ts.len() - 1);
}

/// The size of a take-prefix is the prefix sum.
pub proof fn lemma_esize_take(ts: Seq<ExprModel>, n: int)
    requires
        0 <= n <= ts.len(),
    ensures
        esize_seq(ts.take(n)) == esize_prefix(ts, n),
    decreases n,
{
    if n > 0 {
        lemma_esize_take(ts, n - 1);
        assert(ts.take(n).take(n - 1) =~= ts.take(n - 1));
        assert(esize_prefix(ts.take(n), n) == esize_prefix(ts.take(n), n - 1) + esize(ts[n - 1]));
        lemma_esize_prefix_congruence(ts.take(n), ts.take(n - 1), n - 1);
    }
}

/// Prefix sums agree on a common prefix.
pub proof fn lemma_esize_prefix_congruence(a: Seq<ExprModel>, b: Seq<ExprModel>, n: int)
    requires
        0 <= n <= a.len(),
        n <= b.len(),
        forall|j: int| 0 <= j < n ==> a[j] == b[j],
    ensures
        esize_prefix(a, n) == esize_prefix(b, n),
    decreases n,
{
    if n > 0 {
        lemma_esize_prefix_congruence(a, b, n - 1);
    }
}

/// The `map'`/`filter'` forms, given the tokens after the keyword: the
/// procedure and the list are evaluated, the list must be a pair chain,
/// and the procedure is applied to each element in order. `map'` collects
/// every result; `filter'` keeps the elements whose test returns `#t`.
pub open spec fn eval_map_model(
    ts: Seq<ExprModel>,
    is_map: bool,
    env: int,
    st: EnvModel,
    ms: ModulesModel,
    fuel: nat,
) -> EOut
    decreases fuel, esize_seq(ts), 2nat,
    via eval_map_model_dec
{
    if ts.len() != 2 {
        EOut { env: st, res: Err(ErrorKind::ArityMismatch) }
    } else {
        let f_out = eval_model(ts[0], env, st, ms, fuel);
        match f_out.res {
            Ok(fv) => {
                let l_out = eval_model(ts[1], env, f_out.env, ms, fuel);
                match l_out.res {
                    Ok(lv) => {
                        if !(lv is Pair) {
                            EOut { env: l_out.env, res: Err(ErrorKind::TypeMismatch) }
                        } else {
                            let run = map_run_model(fv, iter_vals(lv), 0, is_map, l_out.env, ms, fuel);
                            match run.res {
                                Ok(collected) => EOut {
                                    env: run.env,
                                    res: Ok(list_of(collected)),
                                },
                                Err(k) => EOut { env: run.env, res: Err(k) },
                            }
                        }
                    },
                    Err(k) => EOut { env: l_out.env, res: Err(k) },
                }
            },
            Err(k) => EOut { env: f_out.env, res: Err(k) },
        }
    }
}

#[via_fn]
proof fn eval_map_model_dec(
    ts: Seq<ExprModel>,
    is_map: bool,
    env: int,
    st: EnvModel,
    ms: ModulesModel,
    fuel: nat,
) {
    if ts.len() == 2 {
        lemma_esize_seq_elem(ts, 0);
        lemma_esize_seq_elem(ts, 1);
    }
}

/// Applies the procedure to `items[i..]` in order, collecting results
/// (`map'`) or the elements whose test is `#t` (`filter'`).
pub open spec fn map_run_model(
    f: ValueModel,
    items: Seq<ValueModel>,
    i: int,
    is_map: bool,
    st: EnvModel,
    ms: ModulesModel,
    fuel: nat,
) -> SeqOut
    decreases fuel, 0nat, (items.len() - i + 2) as nat,
{
    if i < 0 || i >= items.len() {
        SeqOut { env: st, res: Ok(Seq::empty()) }
    } else {
        let one = apply_value_model(f, seq![items[i]], st, ms, fuel);
        match one.res {
            Ok(v) => {
                let rest = map_run_model(f, items, i + 1, is_map, one.env, ms, fuel);
                match rest.res {
                    Ok(vs) => SeqOut {
                        env: rest.env,
                        res: Ok(
                            if is_map {
                                seq![v] + vs
                            } else if v == ValueModel::Bool(true) {
                                seq![items[i]] + vs
                            } else {
                                vs
                            },
                        ),
                    },
                    Err(k) => SeqOut { env: rest.env, res: Err(k) },
                }
            },
            Err(k) => SeqOut { env: one.env, res: Err(k) },
        }
    }
}

#[via_fn]
proof fn eval_model_dec(e: ExprModel, env: int, st: EnvModel, ms: ModulesModel, fuel: nat) {
    if let ExprModel::List(l) = e {
        assert(esize(e) == 1 + esize_seq(l));
        if l.len() >= 1 {
            lemma_esize_seq_split(l, 1);
        }
        assert forall|j: int| 0 <= j < l.len() implies esize(#[trigger] l[j]) <= esize_seq(l) by {
            lemma_esize_seq_elem(l, j);
        }
    }
}


/// Diagnostic state: the bounded trace of expressions entered and the most
/// recent macro application, kept for error reporting only.
#[derive(Debug)]
pub struct Diag {
    /// Expressions entered, oldest first; capacity about 200, the oldest
    /// half drained on overflow.
    pub expr_stack: Vec<Expr>,
    /// The most recent pre-expansion macro application.
    pub last_macro: Option<Expr>,
}

/// The module registry: path and export-frame index pairs.
pub type Modules = Vec<(String, usize)>;

/// Every registered module frame exists in the environment.
pub open spec fn mods_ok(ms: ModulesModel, st: EnvModel) -> bool {
    forall|k: int| 0 <= k < ms.len() ==> (#[trigger] ms[k]).1 < st.frames.len()
}

impl Diag {
    /// A fresh diagnostic state.
    pub fn new() -> (r: Diag)
        ensures
            r.expr_stack@.len() == 0,
            r.last_macro is None,
    {
        Diag { expr_stack: Vec::new(), last_macro: None }
    }

    /// Records an expression on the trace: it is appended, and when the
    /// capacity of 200 is exceeded the oldest 100 entries are drained.
    fn push_trace(&mut self, e: &Expr)
        requires
            old(self).expr_stack@.len() <= 200,
        ensures
            final(self).expr_stack@.len() <= 200,
            ({
                let grown = old(self).expr_stack.deep_view().push(e@);
                if grown.len() > 200 {
                    final(self).expr_stack.deep_view() =~= grown.skip(100)
                } else {
                    final(self).expr_stack.deep_view() =~= grown
                }
            }),
            final(self).last_macro == old(self).last_macro,
    {
        let ghost pre = self.expr_stack.deep_view();
        self.expr_stack.push(clone_expr(e));
        proof {
            assert(self.expr_stack.deep_view() =~= pre.push(e@));
        }
        if self.expr_stack.len() > 200 {
            let ghost grown = self.expr_stack.deep_view();
            let tail = self.expr_stack.split_off(100);
            proof {
                assert(tail.deep_view() =~= grown.skip(100));
            }
            self.expr_stack = tail;
        }
    }
}

/// Returns `Ok` exactly when the token count is the expected one; the
/// error message names the form with the expected and actual counts.
pub fn check_length(what: &str, tokens: &[Expr], expected: usize) -> (r: Result<(), SteelErr>)
    ensures
        tokens@.len() == expected ==> (r is Ok),
        tokens@.len() != expected ==> (r matches Err(e) && e@ == ErrorKind::ArityMismatch),
{
    if tokens.len() == expected {
        Ok(())
    } else {
        let msg = what.to_owned().concat(": expected ").concat(
            crate::parser::usize_to_string(expected).as_str(),
        ).concat(" args got ").concat(crate::parser::usize_to_string(tokens.len()).as_str());
        Err(SteelErr::new(ErrorKind::ArityMismatch, msg))
    }
}

/// The parameter names of a lambda form: the expression must be a list of
/// identifier atoms.
pub fn parse_list_of_identifiers(identifiers: &Expr) -> (r: Result<Vec<String>, SteelErr>)
    ensures
        (match identifiers@ {
            ExprModel::List(ids) => match idents_of_model(ids) {
                Some(xs) => r matches Ok(v) && v.deep_view() == xs,
                None => r matches Err(e) && e@ == ErrorKind::TypeMismatch,
            },
            _ => r matches Err(e) && e@ == ErrorKind::TypeMismatch,
        }),
{
    match identifiers {
        Expr::VectorVal(l) => {
            proof {
                assert(*identifiers == Expr::VectorVal(*l));
                lemma_vector_val_view(*l);
            }
            match idents_of(l) {
                Some(v) => Ok(v),
                None => Err(
                    SteelErr::new(
                        ErrorKind::TypeMismatch,
                        "Lambda must have symbols as arguments".to_owned(),
                    ),
                ),
            }
        },
        _ => Err(SteelErr::new(ErrorKind::TypeMismatch, "List of Identifiers".to_owned())),
    }
}

/// Evaluates an atom in the given frame.
fn eval_atom(t: &Token, heap: &Env, env: usize) -> (r: Result<Value, SteelErr>)
    requires
        heap@.wf(),
        env < heap@.frames.len(),
    ensures
        (match eval_atom_model(t@, env as int, heap@) {
            Ok(v) => r matches Ok(rv) && rv@ == v,
            Err(k) => r matches Err(e) && e@ == k,
        }),
{
    match t {
        Token::BooleanLiteral(b) => Ok(Value::BoolV(*b)),
        Token::IntegerLiteral(n) => Ok(Value::IntV(*n)),
        Token::StringLiteral(s) => Ok(Value::StringV(s.clone())),
        Token::CharacterLiteral(c) => Ok(Value::CharV(*c)),
        Token::Identifier(x) => heap.lookup(env, x),
    }
}

/// Recursive macro expansion; relies only on reading the environment.
pub fn expand(expr: &Expr, heap: &Env, env: usize, fuel: usize) -> (r: Result<Expr, SteelErr>)
    requires
        heap@.wf(),
        env < heap@.frames.len(),
    ensures
        (match expand_model(expr@, env as int, heap@, fuel as nat) {
            Ok(e2) => r matches Ok(re) && re@ == e2,
            Err(k) => r matches Err(e) && e@ == k,
        }),
    decreases fuel, esize(expr@), 0nat,
{
    match expr {
        Expr::Atom(_) => Ok(clone_expr(expr)),
        Expr::VectorVal(l) => {
            proof {
                assert(*expr == Expr::VectorVal(*l));
                lemma_vector_val_view(*l);
            }
            let ghost lm = l.deep_view();
            if l.len() == 0 {
                return Ok(clone_expr(expr));
            }
            // An application whose head identifier is bound to a macro is
            // rewritten by that macro and expanded again.
            if let Expr::Atom(Token::Identifier(s)) = &l[0] {
                if let Ok(v) = heap.lookup(env, s) {
                    if let Value::MacroV(m) = v {
                        match m.expand(expr) {
                            Ok(e2) => {
                                if fuel == 0 {
                                    return Err(
                                        SteelErr::new(
                                            ErrorKind::Generic,
                                            "macro expansion budget exhausted".to_owned(),
                                        ),
                                    );
                                }
                                return expand(&e2, heap, env, fuel - 1);
                            },
                            Err(e) => {
                                return Err(e);
                            },
                        }
                    }
                }
            }
            proof {
                assert(expand_model(expr@, env as int, heap@, fuel as nat) == (
                match expand_list_model(lm, 0, env as int, heap@, fuel as nat) {
                    Ok(l2) => Ok::<ExprModel, ErrorKind>(ExprModel::List(l2)),
                    Err(k) => Err(k),
                }));
            }
            let mut out: Vec<Expr> = Vec::new();
            let mut i: usize = 0;
            loop
                invariant_except_break
                    heap@.wf(),
                    env < heap@.frames.len(),
                    expand_model(expr@, env as int, heap@, fuel as nat) == (
                    match expand_list_model(lm, 0, env as int, heap@, fuel as nat) {
                        Ok(l2) => Ok::<ExprModel, ErrorKind>(ExprModel::List(l2)),
                        Err(k) => Err(k),
                    }),
                    expr@ == ExprModel::List(lm),
                    lm == l.deep_view(),
                    lm.len() == l@.len(),
                    i <= lm.len(),
                    out@.len() == i as int,
                    (match expand_list_model(lm, 0, env as int, heap@, fuel as nat) {
                        Ok(all) => expand_list_model(lm, i as int, env as int, heap@, fuel as nat)
                            matches Ok(rest) && all =~= out.deep_view() + rest,
                        Err(k) => expand_list_model(lm, i as int, env as int, heap@, fuel as nat)
                            matches Err(k2) && k == k2,
                    }),
                ensures
                    expand_model(expr@, env as int, heap@, fuel as nat) == (
                    match expand_list_model(lm, 0, env as int, heap@, fuel as nat) {
                        Ok(l2) => Ok::<ExprModel, ErrorKind>(ExprModel::List(l2)),
                        Err(k) => Err(k),
                    }),
                    expand_list_model(lm, 0, env as int, heap@, fuel as nat) matches Ok(all)
                        && out.deep_view() == all,
                decreases lm.len() - i,
            {
                if i >= l.len() {
                    proof {
                        if let Ok(all) = expand_list_model(lm, 0, env as int, heap@, fuel as nat) {
                            assert(all =~= out.deep_view());
                        }
                    }
                    break ;
                }
                proof {
                    lemma_esize_seq_elem(lm, i as int);
                    assert(lm[i as int] == l@[i as int]@);
                }
                let ghost pre = out.deep_view();
                match expand(&l[i], heap, env, fuel) {
                    Ok(e2) => {
                        out.push(e2);
                        proof {
                            assert(out.deep_view() =~= pre.push(out@[i as int]@));
                            if let Ok(all) = expand_list_model(
                                lm,
                                0,
                                env as int,
                                heap@,
                                fuel as nat,
                            ) {
                                if let Ok(rest) = expand_list_model(
                                    lm,
                                    i as int,
                                    env as int,
                                    heap@,
                                    fuel as nat,
                                ) {
                                    assert(pre + rest =~= out.deep_view() + expand_list_model(
                                        lm,
                                        i as int + 1,
                                        env as int,
                                        heap@,
                                        fuel as nat,
                                    ).unwrap());
                                }
                            }
                        }
                        i = i + 1;
                    },
                    Err(e) => {
                        return Err(e);
                    },
                }
            }
            let r = Expr::VectorVal(out);
            proof {
                lemma_vector_val_view(r->VectorVal_0);
            }
            Ok(r)
        },
    }
}

/// Builds a closure from the tokens after the `lambda` keyword: the
/// parameter list, then the body forms, which are wrapped in a `begin` and
/// macro-expanded at closure-creation time. A closure made in the root
/// frame owns it; one made anywhere else holds a back-reference.
pub fn eval_make_lambda(list_of_tokens: &[Expr], heap: &Env, env: usize, fuel: usize) -> (r:
    Result<Value, SteelErr>)
    requires
        heap@.wf(),
        env < heap@.frames.len(),
    ensures
        (match make_lambda_model(list_of_tokens.deep_view(), env as int, heap@, fuel as nat) {
            Ok(v) => r matches Ok(rv) && rv@ == v,
            Err(k) => r matches Err(e) && e@ == k,
        }),
{
    let ghost ts = list_of_tokens.deep_view();
    if list_of_tokens.len() <= 1 {
        return Err(
            SteelErr::new(ErrorKind::ArityMismatch, "Lambda: expected at least 1 args".to_owned()),
        );
    }
    let parsed_list = match parse_list_of_identifiers(&list_of_tokens[0]) {
        Ok(v) => v,
        Err(e) => {
            return Err(e);
        },
    };
    let mut begin_body: Vec<Expr> = Vec::new();
    begin_body.push(Expr::Atom(Token::Identifier("begin".to_owned())));
    let mut i: usize = 1;
    while i < list_of_tokens.len()
        invariant
            ts == list_of_tokens.deep_view(),
            ts.len() == list_of_tokens@.len(),
            1 <= i as int <= ts.len(),
            begin_body@.len() == i as int,
            begin_body.deep_view()[0] == ExprModel::Atom(TokenModel::Identifier("begin"@)),
            forall|j: int|
                1 <= j < i as int ==> begin_body.deep_view()[j] == ts[j],
        decreases ts.len() - i,
    {
        begin_body.push(clone_expr(&list_of_tokens[i]));
        i = i + 1;
    }
    let new_expr = Expr::VectorVal(begin_body);
    proof {
        lemma_vector_val_view(new_expr->VectorVal_0);
        if let ExprModel::List(bm) = new_expr@ {
            assert(bm =~= seq![ExprModel::Atom(TokenModel::Identifier("begin"@))] + ts.skip(1));
        }
    }
    let expanded = match expand(&new_expr, heap, env, fuel) {
        Ok(e) => e,
        Err(e) => {
            return Err(e);
        },
    };
    let captured = if heap.is_root(env) {
        CapturedEnv::Owned(env)
    } else {
        CapturedEnv::Enclosed(env)
    };
    Ok(Value::LambdaV(SteelLambda::new(parsed_list, expanded, captured)))
}

/// Binds parameter names to argument values, pairwise, in frame `idx`.
fn bind_params(heap: &mut Env, idx: usize, params: &Vec<String>, args: Vec<Value>)
    requires
        old(heap)@.wf(),
        idx < old(heap)@.frames.len(),
        params@.len() == args@.len(),
    ensures
        final(heap)@ == bind_from(
            old(heap)@,
            idx as int,
            params.deep_view(),
            args.deep_view(),
            0,
        ),
        final(heap)@.wf(),
        final(heap)@.frames.len() == old(heap)@.frames.len(),
{
    let ghost pm = params.deep_view();
    let ghost am = args.deep_view();
    let mut args = args;
    let mut i: usize = 0;
    proof {
        assert(am.len() == args@.len());
    }
    while i < params.len()
        invariant
            heap@.wf(),
            idx < heap@.frames.len(),
            heap@.frames.len() == old(heap)@.frames.len(),
            pm == params.deep_view(),
            pm.len() == params@.len(),
            am.len() == pm.len(),
            i <= pm.len(),
            args@.len() == pm.len() - i,
            forall|j: int| 0 <= j < args@.len() ==> #[trigger] args@[j]@ == am[i + j],
            bind_from(old(heap)@, idx as int, pm, am, 0) == bind_from(heap@, idx as int, pm, am, i as int),
        decreases pm.len() - i,
    {
        let v = args.remove(0);
        proof {
            assert(v@ == am[i as int]);
            assert(pm[i as int] == params@[i as int]@);
        }
        heap.define(idx, params[i].clone(), v);
        i = i + 1;
    }
}


/// Evaluates `l[start..]` left-to-right, threading the environment.
fn eval_args(
    l: &Vec<Expr>,
    start: usize,
    heap: &mut Env,
    env: usize,
    ms: &Modules,
    diag: &mut Diag,
    fuel: usize,
) -> (r: Result<Vec<Value>, SteelErr>)
    requires
        old(heap)@.wf(),
        env < old(heap)@.frames.len(),
        mods_ok(ms.deep_view(), old(heap)@),
        old(diag).expr_stack@.len() <= 200,
        start <= l@.len(),
    ensures
        final(heap)@.wf(),
        final(heap)@.frames.len() >= old(heap)@.frames.len(),
        final(diag).expr_stack@.len() <= 200,
        ({
            let out = eval_args_model(
                l.deep_view(),
                start as int,
                env as int,
                old(heap)@,
                ms.deep_view(),
                fuel as nat,
            );
            final(heap)@ == out.env && (match out.res {
                Ok(vs) => r matches Ok(rv) && rv.deep_view() == vs,
                Err(k) => r matches Err(e) && e@ == k,
            })
        }),
    decreases fuel, esize_seq(l.deep_view()), 5nat,
{
    let ghost lm = l.deep_view();
    let ghost st0 = heap@;
    let ghost msv = ms.deep_view();
    let mut out: Vec<Value> = Vec::new();
    let mut i: usize = start;
    while i < l.len()
        invariant
            heap@.wf(),
            env < heap@.frames.len(),
            mods_ok(msv, heap@),
            st0 == old(heap)@,
            heap@.frames.len() >= st0.frames.len(),
            diag.expr_stack@.len() <= 200,
            msv == ms.deep_view(),
            lm == l.deep_view(),
            lm.len() == l@.len(),
            start as int <= i as int <= lm.len(),
            ({
                let whole = eval_args_model(lm, start as int, env as int, st0, msv, fuel as nat);
                let cont = eval_args_model(lm, i as int, env as int, heap@, msv, fuel as nat);
                whole.env == cont.env && (match cont.res {
                    Ok(vs) => whole.res matches Ok(ws) && ws =~= out.deep_view() + vs,
                    Err(k) => whole.res matches Err(k2) && k2 == k,
                })
            }),
        decreases lm.len() - i,
    {
        let ghost hsnap = heap@;
        proof {
            lemma_esize_seq_elem(lm, i as int);
            assert(lm[i as int] == l@[i as int]@);
        }
        let ghost pre = out.deep_view();
        match evaluate(&l[i], heap, env, ms, diag, fuel) {
            Ok(v) => {
                let ghost vv = v@;
                out.push(v);
                proof {
                    lemma_eval_args_step(lm, i as int, env as int, hsnap, msv, fuel as nat);
                    let first = eval_model(lm[i as int], env as int, hsnap, msv, fuel as nat);
                    assert(first.env == heap@);
                    assert(first.res matches Ok(v0) && v0 == vv);
                    let conta = eval_args_model(lm, i as int, env as int, hsnap, msv, fuel as nat);
                    let contb = eval_args_model(
                        lm,
                        i as int + 1,
                        env as int,
                        heap@,
                        msv,
                        fuel as nat,
                    );
                    assert(conta.env == contb.env);
                    assert(out.deep_view() =~= pre.push(vv));
                    if let Ok(vs) = contb.res {
                        assert(conta.res matches Ok(w) && w == seq![vv] + vs);
                        assert(pre + (seq![vv] + vs) =~= out.deep_view() + vs);
                    }
                }
                i = i + 1;
            },
            Err(e) => {
                proof {
                    lemma_eval_args_step(lm, i as int, env as int, hsnap, msv, fuel as nat);
                    let first = eval_model(lm[i as int], env as int, hsnap, msv, fuel as nat);
                    assert(first.env == heap@);
                    let conta = eval_args_model(lm, i as int, env as int, hsnap, msv, fuel as nat);
                    assert(conta.env == heap@ && (conta.res matches Err(k) && k == e@));
                }
                return Err(e);
            },
        }
    }
    proof {
        let cont = eval_args_model(lm, i as int, env as int, heap@, msv, fuel as nat);
        if let Ok(vs) = cont.res {
            assert(out.deep_view() + vs =~= out.deep_view());
        }
    }
    Ok(out)
}

/// Applies a struct dispatch closure to evaluated arguments.
fn struct_apply(d: &StructDecl, op: StructOp, args: Vec<Value>) -> (r: Result<Value, SteelErr>)
    ensures
        (match struct_apply_model(d@, op, args.deep_view()) {
            Ok(v) => r matches Ok(rv) && rv@ == v,
            Err(k) => r matches Err(e) && e@ == k,
        }),
{
    let ghost am = args.deep_view();
    match op {
        StructOp::Construct => {
            if args.len() == d.fields.len() {
                let r = Value::StructV(d.name.clone(), args);
                proof {
                    crate::values::lemma_struct_v_view(r->StructV_0, r->StructV_1);
                }
                Ok(r)
            } else {
                Err(SteelErr::new(ErrorKind::ArityMismatch, "struct constructor arity".to_owned()))
            }
        },
        StructOp::Predicate => {
            if args.len() != 1 {
                return Err(SteelErr::new(ErrorKind::ArityMismatch, "predicate expects 1 argument".to_owned()));
            }
            match &args[0] {
                Value::StructV(n, fs) => {
                    proof {
                        assert(args@[0] == Value::StructV(*n, *fs));
                        crate::values::lemma_struct_v_view(*n, *fs);
                    }
                    Ok(Value::BoolV(str_eq(n, d.name.as_str())))
                },
                _ => Ok(Value::BoolV(false)),
            }
        },
        StructOp::Getter(i) => {
            if args.len() != 1 {
                return Err(SteelErr::new(ErrorKind::ArityMismatch, "getter expects 1 argument".to_owned()));
            }
            match &args[0] {
                Value::StructV(n, fs) => {
                    proof {
                        assert(args@[0] == Value::StructV(*n, *fs));
                        crate::values::lemma_struct_v_view(*n, *fs);
                    }
                    if str_eq(n, d.name.as_str()) && i < fs.len() {
                        Ok(clone_value(&fs[i]))
                    } else {
                        Err(SteelErr::new(ErrorKind::TypeMismatch, "getter applied to wrong struct".to_owned()))
                    }
                },
                _ => Err(SteelErr::new(ErrorKind::TypeMismatch, "getter expects a struct".to_owned())),
            }
        },
        StructOp::Setter(i) => {
            if args.len() != 2 {
                return Err(SteelErr::new(ErrorKind::ArityMismatch, "setter expects 2 arguments".to_owned()));
            }
            let nv = clone_value(&args[1]);
            match &args[0] {
                Value::StructV(n, fs) => {
                    proof {
                        assert(args@[0] == Value::StructV(*n, *fs));
                        crate::values::lemma_struct_v_view(*n, *fs);
                    }
                    if str_eq(n, d.name.as_str()) && i < fs.len() {
                        let mut fs2: Vec<Value> = Vec::new();
                        let mut j: usize = 0;
                        while j < fs.len()
                            invariant
                                i < fs@.len(),
                                j <= fs@.len(),
                                fs2@.len() == j as int,
                                forall|k: int|
                                    0 <= k < j as int ==> #[trigger] fs2@[k]@ == (if k == i as int {
                                        am[1]
                                    } else {
                                        fs@[k]@
                                    }),
                                nv@ == am[1],
                            decreases fs@.len() - j,
                        {
                            if j == i {
                                fs2.push(clone_value(&nv));
                            } else {
                                fs2.push(clone_value(&fs[j]));
                            }
                            j = j + 1;
                        }
                        let r = Value::StructV(n.clone(), fs2);
                        proof {
                            crate::values::lemma_struct_v_view(r->StructV_0, r->StructV_1);
                            crate::values::lemma_struct_v_view(*n, *fs);
                            if let (ValueModel::Struct(_, a), ValueModel::Struct(_, b)) = (
                                r@,
                                args@[0]@,
                            ) {
                                assert(a =~= b.update(i as int, am[1]));
                            }
                        }
                        Ok(r)
                    } else {
                        Err(SteelErr::new(ErrorKind::TypeMismatch, "setter applied to wrong struct".to_owned()))
                    }
                },
                _ => Err(SteelErr::new(ErrorKind::TypeMismatch, "setter expects a struct".to_owned())),
            }
        },
    }
}

/// Applies an evaluated procedure value to evaluated arguments; a lambda
/// body is entered by ordinary recursion here (the tail-call path lives in
/// the evaluator loop).
fn apply_fn(
    f: &Value,
    args: Vec<Value>,
    heap: &mut Env,
    ms: &Modules,
    diag: &mut Diag,
    fuel: usize,
) -> (r: Result<Value, SteelErr>)
    requires
        old(heap)@.wf(),
        mods_ok(ms.deep_view(), old(heap)@),
        old(diag).expr_stack@.len() <= 200,
    ensures
        final(heap)@.wf(),
        final(heap)@.frames.len() >= old(heap)@.frames.len(),
        final(diag).expr_stack@.len() <= 200,
        ({
            let out = apply_value_model(f@, args.deep_view(), old(heap)@, ms.deep_view(), fuel as nat);
            final(heap)@ == out.env && (match out.res {
                Ok(v) => r matches Ok(rv) && rv@ == v,
                Err(k) => r matches Err(e) && e@ == k,
            })
        }),
    decreases fuel, 0nat, 0nat,
{
    proof {
        reveal(eval_model);
    }
    match f {
        Value::FuncV(p) => {
            proof {
                assert(*f == Value::FuncV(*p));
            }
            apply_prim(*p, args)
        },
        Value::LambdaV(lam) => {
            proof {
                assert(*f == Value::LambdaV(*lam));
            }
            if lam.params.len() != args.len() {
                return Err(SteelErr::new(ErrorKind::ArityMismatch, "arity mismatch".to_owned()));
            }
            let cap = match lam.captured {
                CapturedEnv::Owned(i) => i,
                CapturedEnv::Enclosed(i) => i,
            };
            if cap >= heap.frame_count() {
                return Err(SteelErr::new(ErrorKind::Generic, "Root env is missing!".to_owned()));
            }
            if fuel == 0 {
                return Err(SteelErr::new(ErrorKind::Generic, "evaluation budget exhausted".to_owned()));
            }
            let idx = heap.new_frame(cap);
            bind_params(heap, idx, &lam.params, args);
            evaluate(&lam.body, heap, idx, ms, diag, fuel - 1)
        },
        Value::StructFactoryV(d) => {
            proof {
                assert(*f == Value::StructFactoryV(*d));
            }
            struct_apply(d, StructOp::Construct, args)
        },
        Value::StructClosureV(d, op) => {
            proof {
                assert(*f == Value::StructClosureV(*d, *op));
            }
            struct_apply(d, *op, args)
        },
        _ => Err(
            SteelErr::new(
                ErrorKind::TypeMismatch,
                "Application not a procedure - expected a function".to_owned(),
            ),
        ),
    }
}

/// Converts a value back to an expression for `eval`; `None` when the
/// value has no expression form.
fn value_to_expr(v: &Value) -> (r: Option<Expr>)
    ensures
        (match unquote_model(v@) {
            Some(e) => r matches Some(re) && re@ == e,
            None => r is None,
        }),
    decreases vsize(v@), 1int,
{
    match v {
        Value::BoolV(b) => Some(Expr::Atom(Token::BooleanLiteral(*b))),
        Value::IntV(n) => Some(Expr::Atom(Token::IntegerLiteral(*n))),
        Value::CharV(c) => Some(Expr::Atom(Token::CharacterLiteral(*c))),
        Value::StringV(s) => Some(Expr::Atom(Token::StringLiteral(s.clone()))),
        Value::SymbolV(s) => Some(Expr::Atom(Token::Identifier(s.clone()))),
        Value::Pair(_, _) => {
            let mut out: Vec<Expr> = Vec::new();
            let mut cur: &Value = v;
            loop
                invariant_except_break
                    v@ is Pair,
                    vsize(cur@) <= vsize(v@),
                    (match unquote_list_model(v@) {
                        Some(all) => unquote_list_model(cur@) matches Some(rest) && all
                            =~= out.deep_view() + rest,
                        None => unquote_list_model(cur@) is None,
                    }),
                ensures
                    unquote_list_model(v@) matches Some(all) && out.deep_view() == all,
                decreases vsize(cur@),
            {
                match cur {
                    Value::Void => {
                        proof {
                            if let Some(all) = unquote_list_model(v@) {
                                assert(all =~= out.deep_view());
                            }
                        }
                        break ;
                    },
                    Value::Pair(h, t) => {
                        proof {
                            assert(*cur == Value::Pair(*h, *t));
                        }
                        let ghost pre = out.deep_view();
                        match value_to_expr(h) {
                            Some(e) => {
                                out.push(e);
                                proof {
                                    assert(out.deep_view() =~= pre.push(out@[out@.len() - 1]@));
                                    if let Some(all) = unquote_list_model(v@) {
                                        if let Some(rest) = unquote_list_model(cur@) {
                                            if let Some(r2) = unquote_list_model((**t)@) {
                                                assert(pre + rest =~= out.deep_view() + r2);
                                            }
                                        }
                                    }
                                }
                                cur = t;
                            },
                            None => {
                                return None;
                            },
                        }
                    },
                    _ => {
                        return None;
                    },
                }
            }
            let r = Expr::VectorVal(out);
            proof {
                lemma_vector_val_view(r->VectorVal_0);
            }
            Some(r)
        },
        _ => None,
    }
}


/// The value a quoted expression denotes.
pub fn expr_to_value(e: &Expr) -> (r: Value)
    ensures
        r@ == quote_model(e@),
    decreases esize(e@), 0int,
{
    match e {
        Expr::Atom(t) => match t {
            Token::Identifier(x) => Value::SymbolV(x.clone()),
            Token::BooleanLiteral(b) => Value::BoolV(*b),
            Token::IntegerLiteral(n) => Value::IntV(*n),
            Token::CharacterLiteral(c) => Value::CharV(*c),
            Token::StringLiteral(x) => Value::StringV(x.clone()),
        },
        Expr::VectorVal(l) => {
            proof {
                assert(*e == Expr::VectorVal(*l));
                lemma_vector_val_view(*l);
            }
            let ghost lm = l.deep_view();
            let mut acc = Value::Void;
            let mut k: usize = l.len();
            while k > 0
                invariant
                    e@ == ExprModel::List(lm),
                    lm == l.deep_view(),
                    lm.len() == l@.len(),
                    k <= lm.len(),
                    acc@ == quote_list_model(lm, k as int),
                decreases k,
            {
                k = k - 1;
                proof {
                    lemma_esize_seq_elem(lm, k as int);
                    assert(lm[k as int] == l@[k as int]@);
                }
                let h = expr_to_value(&l[k]);
                acc = Value::Pair(Box::new(h), Box::new(acc));
            }
            acc
        },
    }
}

/// Evaluates `(test then else)` to the branch the test picks; everything
/// but `#f` is truthy.
fn eval_if(
    list_of_tokens: &[Expr],
    heap: &mut Env,
    env: usize,
    ms: &Modules,
    diag: &mut Diag,
    fuel: usize,
) -> (r: Result<Expr, SteelErr>)
    requires
        old(heap)@.wf(),
        env < old(heap)@.frames.len(),
        mods_ok(ms.deep_view(), old(heap)@),
        old(diag).expr_stack@.len() <= 200,
    ensures
        final(heap)@.wf(),
        final(heap)@.frames.len() >= old(heap)@.frames.len(),
        final(diag).expr_stack@.len() <= 200,
        ({
            let ts = list_of_tokens.deep_view();
            if ts.len() != 3 {
                final(heap)@ == old(heap)@ && (r matches Err(e) && e@ == ErrorKind::ArityMismatch)
            } else {
                let t_out = eval_model(ts[0], env as int, old(heap)@, ms.deep_view(), fuel as nat);
                final(heap)@ == t_out.env && (match t_out.res {
                    Ok(tv) => r matches Ok(b) && b@ == (if tv != ValueModel::Bool(false) {
                        ts[1]
                    } else {
                        ts[2]
                    }),
                    Err(k) => r matches Err(e) && e@ == k,
                })
            }
        }),
    decreases fuel, esize_seq(list_of_tokens.deep_view()), 6nat,
{
    let ghost ts = list_of_tokens.deep_view();
    if list_of_tokens.len() != 3 {
        return Err(SteelErr::new(ErrorKind::ArityMismatch, "If: expected 3 args".to_owned()));
    }
    proof {
        lemma_esize_seq_elem(ts, 0);
        assert(ts[0] == list_of_tokens@[0]@);
    }
    match evaluate(&list_of_tokens[0], heap, env, ms, diag, fuel) {
        Ok(tv) => {
            let is_false = matches!(&tv, Value::BoolV(false));
            if !is_false {
                Ok(clone_expr(&list_of_tokens[1]))
            } else {
                Ok(clone_expr(&list_of_tokens[2]))
            }
        },
        Err(e) => Err(e),
    }
}

/// Evaluates `l[start..len-1]` for effect and returns the last form,
/// which is the tail position.
fn eval_begin(
    l: &Vec<Expr>,
    start: usize,
    heap: &mut Env,
    env: usize,
    ms: &Modules,
    diag: &mut Diag,
    fuel: usize,
) -> (r: Result<Expr, SteelErr>)
    requires
        old(heap)@.wf(),
        env < old(heap)@.frames.len(),
        mods_ok(ms.deep_view(), old(heap)@),
        old(diag).expr_stack@.len() <= 200,
        1 <= start,
    ensures
        final(heap)@.wf(),
        final(heap)@.frames.len() >= old(heap)@.frames.len(),
        final(diag).expr_stack@.len() <= 200,
        ({
            let lm = l.deep_view();
            let whole = eval_begin_model(lm, start as int, env as int, old(heap)@, ms.deep_view(), fuel as nat);
            match r {
                Ok(e) => lm.len() > start && e@ == lm[lm.len() - 1] && whole == eval_model(
                    lm[lm.len() - 1],
                    env as int,
                    final(heap)@,
                    ms.deep_view(),
                    fuel as nat,
                ),
                Err(err) => whole == (EOut { env: final(heap)@, res: Err(err@) }),
            }
        }),
    decreases fuel, esize_seq(l.deep_view()), 6nat,
{
    let ghost lm = l.deep_view();
    let ghost st0 = heap@;
    let ghost msv = ms.deep_view();
    if start >= l.len() {
        return Err(
            SteelErr::new(ErrorKind::ArityMismatch, "begin requires at least one argument".to_owned()),
        );
    }
    let mut k: usize = start;
    while k < l.len() - 1
        invariant
            heap@.wf(),
            env < heap@.frames.len(),
            mods_ok(msv, heap@),
            st0 == old(heap)@,
            heap@.frames.len() >= st0.frames.len(),
            diag.expr_stack@.len() <= 200,
            msv == ms.deep_view(),
            lm == l.deep_view(),
            lm.len() == l@.len(),
            start as int <= k as int <= lm.len() - 1,
            lm.len() > start,
            eval_begin_model(lm, start as int, env as int, st0, msv, fuel as nat)
                == eval_begin_model(lm, k as int, env as int, heap@, msv, fuel as nat),
        decreases lm.len() - k,
    {
        let ghost hsnap = heap@;
        proof {
            lemma_esize_seq_elem(lm, k as int);
            assert(lm[k as int] == l@[k as int]@);
            lemma_eval_begin_step(lm, k as int, env as int, hsnap, msv, fuel as nat);
        }
        match evaluate(&l[k], heap, env, ms, diag, fuel) {
            Ok(_) => {
                k = k + 1;
            },
            Err(e) => {
                return Err(e);
            },
        }
    }
    proof {
        lemma_esize_seq_elem(lm, lm.len() - 1);
        assert(lm[lm.len() - 1] == l@[l@.len() - 1]@);
        lemma_eval_begin_step(lm, lm.len() - 1, env as int, heap@, msv, fuel as nat);
    }
    Ok(clone_expr(&l[l.len() - 1]))
}

/// Desugars `(let ((a e) ...) body)` to the immediate application
/// `((lambda (a ...) body) e ...)`.
fn eval_let(list_of_tokens: &[Expr]) -> (r: Result<Expr, SteelErr>)
    ensures
        (match let_desugar_model(list_of_tokens.deep_view()) {
            Ok(d) => r matches Ok(e) && e@ == d,
            Err(k) => r matches Err(e) && e@ == k,
        }),
{
    let ghost ts = list_of_tokens.deep_view();
    if list_of_tokens.len() != 2 {
        return Err(SteelErr::new(ErrorKind::ArityMismatch, "Let: expected 2 args".to_owned()));
    }
    match &list_of_tokens[0] {
        Expr::VectorVal(pairs) => {
            proof {
                assert(list_of_tokens@[0] == Expr::VectorVal(*pairs));
                lemma_vector_val_view(*pairs);
            }
            let ghost pm = pairs.deep_view();
            let mut bindings_to_check: Vec<Expr> = Vec::new();
            let mut args_to_check: Vec<Expr> = Vec::new();
            let mut i: usize = 0;
            while i < pairs.len()
                invariant
                    ts == list_of_tokens.deep_view(),
                    ts.len() == 2,
                    ts[0] == ExprModel::List(pm),
                    pm == pairs.deep_view(),
                    pm.len() == pairs@.len(),
                    i <= pm.len(),
                    (match split_pairs_model(pm, 0) {
                        Some((ns, es)) => split_pairs_model(pm, i as int) matches Some(pr) && ns
                            =~= bindings_to_check.deep_view() + pr.0 && es
                            =~= args_to_check.deep_view() + pr.1,
                        None => split_pairs_model(pm, i as int) is None,
                    }),
                decreases pm.len() - i,
            {
                let ghost preb = bindings_to_check.deep_view();
                let ghost prea = args_to_check.deep_view();
                match &pairs[i] {
                    Expr::VectorVal(p) => {
                        proof {
                            assert(pairs@[i as int] == Expr::VectorVal(*p));
                            lemma_vector_val_view(*p);
                        }
                        if p.len() != 2 {
                            proof {
                                lemma_split_pairs_none(pm, i as int);
                            }
                            return Err(
                                SteelErr::new(ErrorKind::BadSyntax, "Let requires pairs for binding".to_owned()),
                            );
                        }
                        bindings_to_check.push(clone_expr(&p[0]));
                        args_to_check.push(clone_expr(&p[1]));
                        proof {
                            let k: int = i as int;
                            assert(bindings_to_check.deep_view() =~= preb.push(pm[k]->List_0[0]));
                            assert(args_to_check.deep_view() =~= prea.push(pm[k]->List_0[1]));
                            if let Some((ns, es)) = split_pairs_model(pm, 0) {
                                if let Some(pr) = split_pairs_model(pm, k) {
                                    if let Some(pr2) = split_pairs_model(pm, k + 1) {
                                        assert(preb + pr.0 =~= bindings_to_check.deep_view() + pr2.0);
                                        assert(prea + pr.1 =~= args_to_check.deep_view() + pr2.1);
                                    }
                                }
                            }
                        }
                    },
                    _ => {
                        proof {
                            lemma_split_pairs_none(pm, i as int);
                        }
                        return Err(SteelErr::new(ErrorKind::BadSyntax, "Let: Missing body".to_owned()));
                    },
                }
                i = i + 1;
            }
            proof {
                if let Some((ns, es)) = split_pairs_model(pm, 0) {
                    assert(split_pairs_model(pm, pm.len() as int) matches Some(pr) && pr.0
                        =~= Seq::<ExprModel>::empty() && pr.1 =~= Seq::<ExprModel>::empty());
                    assert(ns =~= bindings_to_check.deep_view());
                    assert(es =~= args_to_check.deep_view());
                }
            }
            let ghost bm = bindings_to_check.deep_view();
            let names_expr = Expr::VectorVal(bindings_to_check);
            proof {
                lemma_vector_val_view(names_expr->VectorVal_0);
                assert(names_expr@ == ExprModel::List(bm));
            }
            let mut lambda_parts: Vec<Expr> = Vec::new();
            lambda_parts.push(Expr::Atom(Token::Identifier("lambda".to_owned())));
            lambda_parts.push(names_expr);
            lambda_parts.push(clone_expr(&list_of_tokens[1]));
            let ghost lpm = lambda_parts.deep_view();
            let lambda_expr = Expr::VectorVal(lambda_parts);
            proof {
                lemma_vector_val_view(lambda_expr->VectorVal_0);
                assert(lpm =~= seq![
                    ExprModel::Atom(TokenModel::Identifier("lambda"@)),
                    ExprModel::List(bm),
                    ts[1],
                ]);
                assert(lambda_expr@ == ExprModel::List(lpm));
            }
            let ghost lem = lambda_expr@;
            let mut combined: Vec<Expr> = Vec::new();
            combined.push(lambda_expr);
            let mut args_to_check = args_to_check;
            let ghost am = args_to_check.deep_view();
            combined.append(&mut args_to_check);
            proof {
                assert(combined.deep_view() =~= seq![lem] + am);
            }
            let application = Expr::VectorVal(combined);
            proof {
                lemma_vector_val_view(application->VectorVal_0);
                if let Ok(d) = let_desugar_model(ts) {
                    if let (ExprModel::List(cm), ExprModel::List(dm)) = (application@, d) {
                        assert(cm =~= dm);
                    }
                }
            }
            Ok(application)
        },
        _ => Err(SteelErr::new(ErrorKind::BadSyntax, "Let: Missing name or binding pairs".to_owned())),
    }
}

/// When a binding entry is malformed, no split exists from any position at
/// or before it.
proof fn lemma_split_pairs_none(pm: Seq<ExprModel>, i: int)
    requires
        0 <= i < pm.len(),
        !(pm[i] matches ExprModel::List(p) && p.len() == 2),
    ensures
        forall|k: int| 0 <= k <= i ==> split_pairs_model(pm, k) is None,
{
    assert forall|k: int| 0 <= k <= i implies split_pairs_model(pm, k) is None by {
        lemma_split_pairs_none_up(pm, k, i);
    }
}

proof fn lemma_split_pairs_none_up(pm: Seq<ExprModel>, k: int, i: int)
    requires
        0 <= k <= i < pm.len(),
        !(pm[i] matches ExprModel::List(p) && p.len() == 2),
    ensures
        split_pairs_model(pm, k) is None,
    decreases i - k,
{
    if k < i {
        lemma_split_pairs_none_up(pm, k + 1, i);
    }
}

/// Evaluates the right-hand side, then rebinds the nearest binding of the
/// named identifier; the result is void.
fn eval_set(
    list_of_tokens: &[Expr],
    heap: &mut Env,
    env: usize,
    ms: &Modules,
    diag: &mut Diag,
    fuel: usize,
) -> (r: Result<Value, SteelErr>)
    requires
        old(heap)@.wf(),
        env < old(heap)@.frames.len(),
        mods_ok(ms.deep_view(), old(heap)@),
        old(diag).expr_stack@.len() <= 200,
    ensures
        final(heap)@.wf(),
        final(heap)@.frames.len() >= old(heap)@.frames.len(),
        final(diag).expr_stack@.len() <= 200,
        ({
            let ts = list_of_tokens.deep_view();
            if ts.len() != 2 {
                final(heap)@ == old(heap)@ && (r matches Err(e) && e@ == ErrorKind::ArityMismatch)
            } else {
                let v_out = eval_model(ts[1], env as int, old(heap)@, ms.deep_view(), fuel as nat);
                match v_out.res {
                    Ok(v) => match ts[0] {
                        ExprModel::Atom(TokenModel::Identifier(x)) => match set_model(
                            v_out.env,
                            env as int,
                            x,
                            v,
                        ) {
                            Some(st2) => final(heap)@ == st2 && (r matches Ok(rv) && rv@
                                == ValueModel::Void),
                            None => final(heap)@ == v_out.env && (r matches Err(e) && e@
                                == ErrorKind::FreeIdentifier),
                        },
                        _ => final(heap)@ == v_out.env && (r matches Err(e) && e@
                            == ErrorKind::TypeMismatch),
                    },
                    Err(k) => final(heap)@ == v_out.env && (r matches Err(e) && e@ == k),
                }
            }
        }),
    decreases fuel, esize_seq(list_of_tokens.deep_view()), 6nat,
{
    let ghost ts = list_of_tokens.deep_view();
    if list_of_tokens.len() != 2 {
        return Err(SteelErr::new(ErrorKind::ArityMismatch, "Set: expected 2 args".to_owned()));
    }
    proof {
        lemma_esize_seq_elem(ts, 1);
        assert(ts[1] == list_of_tokens@[1]@);
        assert(ts[0] == list_of_tokens@[0]@);
    }
    let value = match evaluate(&list_of_tokens[1], heap, env, ms, diag, fuel) {
        Ok(v) => v,
        Err(e) => {
            return Err(e);
        },
    };
    match &list_of_tokens[0] {
        Expr::Atom(Token::Identifier(x)) => match heap.set(env, x.clone(), value) {
            Ok(_) => Ok(Value::Void),
            Err(e) => Err(e),
        },
        _ => Err(SteelErr::new(ErrorKind::TypeMismatch, "set! expects an identifier".to_owned())),
    }
}


/// Evaluates the guarded expression; on success its value comes back, on
/// any error the handler expression is returned for the tail loop together
/// with the error.
fn eval_try(
    list_of_tokens: &[Expr],
    heap: &mut Env,
    env: usize,
    ms: &Modules,
    diag: &mut Diag,
    fuel: usize,
) -> (r: Result<(Option<Expr>, Result<Value, SteelErr>), SteelErr>)
    requires
        old(heap)@.wf(),
        env < old(heap)@.frames.len(),
        mods_ok(ms.deep_view(), old(heap)@),
        old(diag).expr_stack@.len() <= 200,
    ensures
        final(heap)@.wf(),
        final(heap)@.frames.len() >= old(heap)@.frames.len(),
        final(diag).expr_stack@.len() <= 200,
        ({
            let ts = list_of_tokens.deep_view();
            if ts.len() != 2 {
                final(heap)@ == old(heap)@ && (r matches Err(e) && e@ == ErrorKind::ArityMismatch)
            } else {
                let t_out = eval_model(ts[0], env as int, old(heap)@, ms.deep_view(), fuel as nat);
                final(heap)@ == t_out.env && (match t_out.res {
                    Ok(v) => r matches Ok(p) && p.0 is None && (p.1 matches Ok(rv) && rv@ == v),
                    Err(k) => r matches Ok(p) && (p.0 matches Some(h) && h@ == ts[1]) && (
                    p.1 matches Err(e) && e@ == k),
                })
            }
        }),
    decreases fuel, esize_seq(list_of_tokens.deep_view()), 6nat,
{
    let ghost ts = list_of_tokens.deep_view();
    if list_of_tokens.len() != 2 {
        return Err(SteelErr::new(ErrorKind::ArityMismatch, "try!: expected 2 args".to_owned()));
    }
    proof {
        lemma_esize_seq_elem(ts, 0);
        assert(ts[0] == list_of_tokens@[0]@);
        assert(ts[1] == list_of_tokens@[1]@);
    }
    match evaluate(&list_of_tokens[0], heap, env, ms, diag, fuel) {
        Ok(v) => Ok((None, Ok(v))),
        Err(e) => Ok((Some(clone_expr(&list_of_tokens[1])), Err(e))),
    }
}

/// Evaluates the argument, requires it to convert back to an expression,
/// and hands that expression on for evaluation.
fn eval_eval_expr(
    list_of_tokens: &[Expr],
    heap: &mut Env,
    env: usize,
    ms: &Modules,
    diag: &mut Diag,
    fuel: usize,
) -> (r: Result<Value, SteelErr>)
    requires
        old(heap)@.wf(),
        env < old(heap)@.frames.len(),
        mods_ok(ms.deep_view(), old(heap)@),
        old(diag).expr_stack@.len() <= 200,
    ensures
        final(heap)@.wf(),
        final(heap)@.frames.len() >= old(heap)@.frames.len(),
        final(diag).expr_stack@.len() <= 200,
        ({
            let ts = list_of_tokens.deep_view();
            if ts.len() != 1 {
                final(heap)@ == old(heap)@ && (r matches Err(e) && e@ == ErrorKind::ArityMismatch)
            } else {
                let a_out = eval_model(ts[0], env as int, old(heap)@, ms.deep_view(), fuel as nat);
                match a_out.res {
                    Ok(v) => match unquote_model(v) {
                        Some(e2) => if fuel == 0 {
                            final(heap)@ == a_out.env && (r matches Err(e) && e@
                                == ErrorKind::Generic)
                        } else {
                            let out = eval_model(
                                e2,
                                env as int,
                                a_out.env,
                                ms.deep_view(),
                                (fuel - 1) as nat,
                            );
                            final(heap)@ == out.env && (match out.res {
                                Ok(v2) => r matches Ok(rv) && rv@ == v2,
                                Err(k) => r matches Err(e) && e@ == k,
                            })
                        },
                        None => final(heap)@ == a_out.env && (r matches Err(e) && e@
                            == ErrorKind::ContractViolation),
                    },
                    Err(k) => final(heap)@ == a_out.env && (r matches Err(e) && e@ == k),
                }
            }
        }),
    decreases fuel, esize_seq(list_of_tokens.deep_view()), 6nat,
{
    let ghost ts = list_of_tokens.deep_view();
    if list_of_tokens.len() != 1 {
        return Err(SteelErr::new(ErrorKind::ArityMismatch, "Eval: expected 1 args".to_owned()));
    }
    proof {
        lemma_esize_seq_elem(ts, 0);
        assert(ts[0] == list_of_tokens@[0]@);
    }
    let res_expr = match evaluate(&list_of_tokens[0], heap, env, ms, diag, fuel) {
        Ok(v) => v,
        Err(e) => {
            return Err(e);
        },
    };
    match value_to_expr(&res_expr) {
        Some(e2) => {
            if fuel == 0 {
                return Err(SteelErr::new(ErrorKind::Generic, "evaluation budget exhausted".to_owned()));
            }
            evaluate(&e2, heap, env, ms, diag, fuel - 1)
        },
        None => Err(SteelErr::new(ErrorKind::ContractViolation, "Eval not given an expression".to_owned())),
    }
}

/// The `define` form: marks the frame as a binding context, then binds the
/// name to the evaluated right-hand side, or builds the function sugar's
/// lambda and binds it.
pub fn eval_define(
    list_of_tokens: &[Expr],
    heap: &mut Env,
    env: usize,
    ms: &Modules,
    diag: &mut Diag,
    fuel: usize,
) -> (r: Result<(), SteelErr>)
    requires
        old(heap)@.wf(),
        env < old(heap)@.frames.len(),
        mods_ok(ms.deep_view(), old(heap)@),
        old(diag).expr_stack@.len() <= 200,
    ensures
        final(heap)@.wf(),
        final(heap)@.frames.len() >= old(heap)@.frames.len(),
        final(diag).expr_stack@.len() <= 200,
        ({
            let out = eval_define_model(
                list_of_tokens.deep_view(),
                env as int,
                old(heap)@,
                ms.deep_view(),
                fuel as nat,
            );
            final(heap)@ == out.env && (match out.res {
                Ok(_) => r is Ok,
                Err(k) => r matches Err(e) && e@ == k,
            })
        }),
    decreases fuel, esize_seq(list_of_tokens.deep_view()), 6nat,
{
    let ghost ts = list_of_tokens.deep_view();
    let ghost st0 = heap@;
    proof {
        reveal(eval_model);
    }
    heap.set_binding_context(env, true);
    proof {
        assert(heap@.frames =~= set_bctx_model(st0, env as int, true).frames);
        assert(heap@ == set_bctx_model(st0, env as int, true));
    }
    let ghost st1 = heap@;
    if list_of_tokens.len() <= 1 {
        return Err(SteelErr::new(ErrorKind::ArityMismatch, "Define: expected at least 2 args".to_owned()));
    }
    proof {
        lemma_esize_seq_elem(ts, 0);
        lemma_esize_seq_elem(ts, 1);
        assert(ts[0] == list_of_tokens@[0]@);
        assert(ts[1] == list_of_tokens@[1]@);
    }
    match &list_of_tokens[0] {
        Expr::Atom(Token::Identifier(x)) => {
            if list_of_tokens.len() != 2 {
                return Err(
                    SteelErr::new(
                        ErrorKind::ArityMismatch,
                        "Define: multiple expressions after the identifier".to_owned(),
                    ),
                );
            }
            let eval_body = match evaluate(&list_of_tokens[1], heap, env, ms, diag, fuel) {
                Ok(v) => v,
                Err(e) => {
                    return Err(e);
                },
            };
            heap.define(env, x.clone(), eval_body);
            Ok(())
        },
        Expr::VectorVal(ids) => {
            proof {
                assert(list_of_tokens@[0] == Expr::VectorVal(*ids));
                lemma_vector_val_view(*ids);
            }
            if ids.len() == 0 {
                return Err(
                    SteelErr::new(
                        ErrorKind::TypeMismatch,
                        "define expected an identifier, got empty list".to_owned(),
                    ),
                );
            }
            match &ids[0] {
                Expr::Atom(Token::Identifier(x)) => {
                    // Assemble the lambda form's tokens: the remaining
                    // parameter names, then the body forms.
                    let ghost im = ids.deep_view();
                    let mut lam_tokens: Vec<Expr> = Vec::new();
                    let mut params: Vec<Expr> = Vec::new();
                    let mut i: usize = 1;
                    while i < ids.len()
                        invariant
                            im == ids.deep_view(),
                            im.len() == ids@.len(),
                            1 <= i as int <= im.len(),
                            params@.len() == i - 1,
                            forall|j: int|
                                0 <= j < i - 1 ==> #[trigger] params.deep_view()[j] == im[j + 1],
                        decreases im.len() - i,
                    {
                        let ghost prev = params.deep_view();
                        params.push(clone_expr(&ids[i]));
                        proof {
                            assert(params.deep_view() =~= prev.push(im[i as int]));
                        }
                        i = i + 1;
                    }
                    proof {
                        assert(params.deep_view() =~= im.skip(1));
                    }
                    let params_expr = Expr::VectorVal(params);
                    proof {
                        lemma_vector_val_view(params_expr->VectorVal_0);
                        assert(params_expr@ == ExprModel::List(im.skip(1)));
                    }
                    lam_tokens.push(params_expr);
                    let mut j: usize = 1;
                    while j < list_of_tokens.len()
                        invariant
                            ts == list_of_tokens.deep_view(),
                            ts.len() == list_of_tokens@.len(),
                            1 <= j as int <= ts.len(),
                            im == ids.deep_view(),
                            lam_tokens@.len() == j as int,
                            lam_tokens.deep_view()[0] == ExprModel::List(im.skip(1)),
                            forall|k: int|
                                1 <= k < j as int ==> #[trigger] lam_tokens.deep_view()[k]
                                    == ts[k],
                        decreases ts.len() - j,
                    {
                        let ghost prev = lam_tokens.deep_view();
                        lam_tokens.push(clone_expr(&list_of_tokens[j]));
                        proof {
                            assert(lam_tokens.deep_view() =~= prev.push(ts[j as int]));
                        }
                        j = j + 1;
                    }
                    proof {
                        assert(lam_tokens.deep_view() =~= seq![ExprModel::List(im.skip(1))]
                            + ts.skip(1));
                    }
                    let lam = match eval_make_lambda(lam_tokens.as_slice(), heap, env, fuel) {
                        Ok(v) => v,
                        Err(e) => {
                            return Err(e);
                        },
                    };
                    heap.define(env, x.clone(), lam);
                    Ok(())
                },
                _ => Err(
                    SteelErr::new(ErrorKind::TypeMismatch, "Define expected identifier".to_owned()),
                ),
            }
        },
        _ => Err(SteelErr::new(ErrorKind::TypeMismatch, "Define expects an identifier".to_owned())),
    }
}

/// Parses a `define-syntax` form's rules and binds the macro under its
/// name in the given frame.
pub fn eval_macro_def(list_of_tokens: &[Expr], heap: &mut Env, env: usize) -> (r: Result<
    (),
    SteelErr,
>)
    requires
        old(heap)@.wf(),
        env < old(heap)@.frames.len(),
    ensures
        final(heap)@.wf(),
        final(heap)@.frames.len() == old(heap)@.frames.len(),
        ({
            match parse_macro_model(list_of_tokens.deep_view()) {
                Ok(m) => final(heap)@ == old(heap)@.define_at(
                    env as int,
                    m.name,
                    ValueModel::Macro(m),
                ) && r is Ok,
                Err(k) => final(heap)@ == old(heap)@ && (r matches Err(e) && e@ == k),
            }
        }),
{
    match parse_syntax_rules(list_of_tokens) {
        Ok(parsed_macro) => {
            let name = parsed_macro.name.clone();
            heap.define(env, name, Value::MacroV(parsed_macro));
            Ok(())
        },
        Err(e) => Err(e),
    }
}

/// The `require` form: splices each named module's export frame into the
/// current frame's module list.
pub fn eval_require(list_of_tokens: &[Expr], heap: &mut Env, env: usize, ms: &Modules) -> (r:
    Result<(), SteelErr>)
    requires
        old(heap)@.wf(),
        env < old(heap)@.frames.len(),
        mods_ok(ms.deep_view(), old(heap)@),
    ensures
        final(heap)@.wf(),
        final(heap)@.frames.len() == old(heap)@.frames.len(),
        ({
            let out = require_model(
                list_of_tokens.deep_view(),
                0,
                env as int,
                old(heap)@,
                ms.deep_view(),
            );
            final(heap)@ == out.env && (match out.res {
                Ok(_) => r is Ok,
                Err(k) => r matches Err(e) && e@ == k,
            })
        }),
{
    let ghost ts = list_of_tokens.deep_view();
    let ghost st0 = heap@;
    let ghost msv = ms.deep_view();
    let mut i: usize = 0;
    while i < list_of_tokens.len()
        invariant
            heap@.wf(),
            env < heap@.frames.len(),
            st0 == old(heap)@,
            heap@.frames.len() == st0.frames.len(),
            mods_ok(msv, heap@),
            msv == ms.deep_view(),
            ts == list_of_tokens.deep_view(),
            ts.len() == list_of_tokens@.len(),
            i <= ts.len(),
            require_model(ts, 0, env as int, st0, msv) == require_model(
                ts,
                i as int,
                env as int,
                heap@,
                msv,
            ),
        decreases ts.len() - i,
    {
        proof {
            assert(ts[i as int] == list_of_tokens@[i as int]@);
        }
        if let Expr::Atom(Token::StringLiteral(path)) = &list_of_tokens[i] {
            match find_module(ms, path) {
                Some(fidx) => {
                    proof {
                        lemma_mod_find_in(msv, path@);
                    }
                    let ghost pre = heap@;
                    heap.add_module(env, fidx);
                    proof {
                        assert(heap@.frames =~= add_module_model(pre, env as int, fidx as int).frames);
                        assert(heap@ == add_module_model(pre, env as int, fidx as int));
                    }
                },
                None => {
                    return Err(SteelErr::new(ErrorKind::Generic, "module not registered".to_owned()));
                },
            }
        }
        i = i + 1;
    }
    Ok(())
}

/// `mod_find`'s result is one of the registered frames.
proof fn lemma_mod_find_in(ms: ModulesModel, path: Seq<char>)
    ensures
        mod_find(ms, path) matches Some(f) ==> exists|k: int|
            0 <= k < ms.len() && (#[trigger] ms[k]).1 == f,
    decreases ms.len(),
{
    if ms.len() > 0 && ms[0].0 != path {
        lemma_mod_find_in(ms.skip(1), path);
        if let Some(f) = mod_find(ms.skip(1), path) {
            let k = choose|k: int| 0 <= k < ms.skip(1).len() && (#[trigger] ms.skip(1)[k]).1 == f;
            assert(ms[k + 1].1 == f);
        }
    }
}

/// Finds the export frame registered for a path.
fn find_module(ms: &Modules, path: &String) -> (r: Option<usize>)
    ensures
        r == mod_find(ms.deep_view(), path@),
{
    let ghost msv = ms.deep_view();
    let mut i: usize = 0;
    proof {
        assert(msv.skip(0) =~= msv);
    }
    while i < ms.len()
        invariant
            msv == ms.deep_view(),
            msv.len() == ms@.len(),
            i <= msv.len(),
            mod_find(msv, path@) == mod_find(msv.skip(i as int), path@),
        decreases msv.len() - i,
    {
        proof {
            assert(msv.skip(i as int)[0] == msv[i as int]);
            assert(msv.skip(i as int).skip(1) =~= msv.skip(i as int + 1));
        }
        if str_eq(&ms[i].0, path.as_str()) {
            return Some(ms[i].1);
        }
        i = i + 1;
    }
    proof {
        assert(msv.skip(i as int) =~= Seq::<(Seq<char>, usize)>::empty());
    }
    None
}


/// Shared engine of the `map'`/`filter'` fast paths.
fn eval_map_filter(
    list_of_tokens: &[Expr],
    is_map: bool,
    heap: &mut Env,
    env: usize,
    ms: &Modules,
    diag: &mut Diag,
    fuel: usize,
) -> (r: Result<Value, SteelErr>)
    requires
        old(heap)@.wf(),
        env < old(heap)@.frames.len(),
        mods_ok(ms.deep_view(), old(heap)@),
        old(diag).expr_stack@.len() <= 200,
    ensures
        final(heap)@.wf(),
        final(heap)@.frames.len() >= old(heap)@.frames.len(),
        final(diag).expr_stack@.len() <= 200,
        ({
            let out = eval_map_model(
                list_of_tokens.deep_view(),
                is_map,
                env as int,
                old(heap)@,
                ms.deep_view(),
                fuel as nat,
            );
            final(heap)@ == out.env && (match out.res {
                Ok(v) => r matches Ok(rv) && rv@ == v,
                Err(k) => r matches Err(e) && e@ == k,
            })
        }),
    decreases fuel, esize_seq(list_of_tokens.deep_view()), 6nat,
{
    let ghost ts = list_of_tokens.deep_view();
    let ghost msv = ms.deep_view();
    if list_of_tokens.len() != 2 {
        return Err(SteelErr::new(ErrorKind::ArityMismatch, "map: expected 2 args".to_owned()));
    }
    proof {
        lemma_esize_seq_elem(ts, 0);
        lemma_esize_seq_elem(ts, 1);
        assert(ts[0] == list_of_tokens@[0]@);
        assert(ts[1] == list_of_tokens@[1]@);
    }
    let func_res = match evaluate(&list_of_tokens[0], heap, env, ms, diag, fuel) {
        Ok(v) => v,
        Err(e) => {
            proof {
                lemma_eval_map_open(ts, is_map, env as int, old(heap)@, msv, fuel as nat);
            }
            return Err(e);
        },
    };
    let list_res = match evaluate(&list_of_tokens[1], heap, env, ms, diag, fuel) {
        Ok(v) => v,
        Err(e) => {
            proof {
                lemma_eval_map_open(ts, is_map, env as int, old(heap)@, msv, fuel as nat);
            }
            return Err(e);
        },
    };
    if !matches!(&list_res, Value::Pair(_, _)) {
        proof {
            lemma_eval_map_open(ts, is_map, env as int, old(heap)@, msv, fuel as nat);
        }
        return Err(SteelErr::new(ErrorKind::TypeMismatch, "expected a list".to_owned()));
    }
    let items = collect_list_items(&list_res);
    let ghost im = items.deep_view();
    let ghost st1 = heap@;
    let ghost fm = func_res@;
    proof {
        lemma_eval_map_open(ts, is_map, env as int, old(heap)@, msv, fuel as nat);
    }
    let mut collected: Vec<Value> = Vec::new();
    let mut k: usize = 0;
    while k < items.len()
        invariant
            heap@.wf(),
            mods_ok(msv, heap@),
            st1.frames.len() >= old(heap)@.frames.len(),
            heap@.frames.len() >= st1.frames.len(),
            diag.expr_stack@.len() <= 200,
            msv == ms.deep_view(),
            im == items.deep_view(),
            im.len() == items@.len(),
            fm == func_res@,
            k <= im.len(),
            ts == list_of_tokens.deep_view(),
            ({
                let whole = eval_map_model(ts, is_map, env as int, old(heap)@, msv, fuel as nat);
                let run = map_run_model(fm, im, 0, is_map, st1, msv, fuel as nat);
                whole == (match run.res {
                    Ok(c) => EOut { env: run.env, res: Ok(list_of(c)) },
                    Err(k2) => EOut { env: run.env, res: Err(k2) },
                })
            }),
            ({
                let whole = map_run_model(fm, im, 0, is_map, st1, msv, fuel as nat);
                let cont = map_run_model(fm, im, k as int, is_map, heap@, msv, fuel as nat);
                whole.env == cont.env && (match cont.res {
                    Ok(vs) => whole.res matches Ok(ws) && ws =~= collected.deep_view() + vs,
                    Err(k2) => whole.res matches Err(k3) && k3 == k2,
                })
            }),
        decreases im.len() - k,
    {
        let ghost hsnap = heap@;
        proof {
            assert(im[k as int] == items@[k as int]@);
            lemma_map_run_step(fm, im, k as int, is_map, hsnap, msv, fuel as nat);
        }
        let mut one_arg: Vec<Value> = Vec::new();
        one_arg.push(clone_value(&items[k]));
        proof {
            assert(one_arg.deep_view() =~= seq![im[k as int]]);
        }
        let ghost pre = collected.deep_view();
        match apply_fn(&func_res, one_arg, heap, ms, diag, fuel) {
            Ok(v) => {
                let keep_item = !is_map && matches!(&v, Value::BoolV(true));
                if is_map {
                    collected.push(v);
                    proof {
                        assert(collected.deep_view() =~= pre.push(
                            collected@[collected@.len() - 1]@,
                        ));
                    }
                } else if keep_item {
                    collected.push(clone_value(&items[k]));
                    proof {
                        assert(collected.deep_view() =~= pre.push(im[k as int]));
                    }
                }
                proof {
                    let whole = map_run_model(fm, im, 0, is_map, st1, msv, fuel as nat);
                    let cont = map_run_model(fm, im, k as int + 1, is_map, heap@, msv, fuel as nat);
                    if let Ok(vs) = cont.res {
                        if is_map {
                            assert(pre + (seq![v@] + vs) =~= collected.deep_view() + vs);
                        } else if v@ == ValueModel::Bool(true) {
                            assert(pre + (seq![im[k as int]] + vs) =~= collected.deep_view() + vs);
                        } else {
                            assert(pre + vs =~= collected.deep_view() + vs);
                        }
                    }
                }
                k = k + 1;
            },
            Err(e) => {
                return Err(e);
            },
        }
    }
    proof {
        let cont = map_run_model(fm, im, k as int, is_map, heap@, msv, fuel as nat);
        if let Ok(vs) = cont.res {
            assert(collected.deep_view() + vs =~= collected.deep_view());
        }
    }
    Ok(make_list(collected))
}

/// The `map'` fast path: evaluates the procedure and the list, applies the
/// procedure to every element, and returns the proper list of results.
fn eval_map(
    list_of_tokens: &[Expr],
    heap: &mut Env,
    env: usize,
    ms: &Modules,
    diag: &mut Diag,
    fuel: usize,
) -> (r: Result<Value, SteelErr>)
    requires
        old(heap)@.wf(),
        env < old(heap)@.frames.len(),
        mods_ok(ms.deep_view(), old(heap)@),
        old(diag).expr_stack@.len() <= 200,
    ensures
        final(heap)@.wf(),
        final(heap)@.frames.len() >= old(heap)@.frames.len(),
        final(diag).expr_stack@.len() <= 200,
        ({
            let out = eval_map_model(
                list_of_tokens.deep_view(),
                true,
                env as int,
                old(heap)@,
                ms.deep_view(),
                fuel as nat,
            );
            final(heap)@ == out.env && (match out.res {
                Ok(v) => r matches Ok(rv) && rv@ == v,
                Err(k) => r matches Err(e) && e@ == k,
            })
        }),
    decreases fuel, esize_seq(list_of_tokens.deep_view()), 7nat,
{
    eval_map_filter(list_of_tokens, true, heap, env, ms, diag, fuel)
}

/// The `filter'` fast path: keeps the elements whose test returns `#t`.
fn eval_filter(
    list_of_tokens: &[Expr],
    heap: &mut Env,
    env: usize,
    ms: &Modules,
    diag: &mut Diag,
    fuel: usize,
) -> (r: Result<Value, SteelErr>)
    requires
        old(heap)@.wf(),
        env < old(heap)@.frames.len(),
        mods_ok(ms.deep_view(), old(heap)@),
        old(diag).expr_stack@.len() <= 200,
    ensures
        final(heap)@.wf(),
        final(heap)@.frames.len() >= old(heap)@.frames.len(),
        final(diag).expr_stack@.len() <= 200,
        ({
            let out = eval_map_model(
                list_of_tokens.deep_view(),
                false,
                env as int,
                old(heap)@,
                ms.deep_view(),
                fuel as nat,
            );
            final(heap)@ == out.env && (match out.res {
                Ok(v) => r matches Ok(rv) && rv@ == v,
                Err(k) => r matches Err(e) && e@ == k,
            })
        }),
    decreases fuel, esize_seq(list_of_tokens.deep_view()), 7nat,
{
    eval_map_filter(list_of_tokens, false, heap, env, ms, diag, fuel)
}

/// Evaluates the argument positions of an application and hands the values
/// to a primitive.
fn eval_func(
    func: Prim,
    l: &Vec<Expr>,
    heap: &mut Env,
    env: usize,
    ms: &Modules,
    diag: &mut Diag,
    fuel: usize,
) -> (r: Result<Value, SteelErr>)
    requires
        old(heap)@.wf(),
        env < old(heap)@.frames.len(),
        mods_ok(ms.deep_view(), old(heap)@),
        old(diag).expr_stack@.len() <= 200,
        l@.len() >= 1,
    ensures
        final(heap)@.wf(),
        final(heap)@.frames.len() >= old(heap)@.frames.len(),
        final(diag).expr_stack@.len() <= 200,
        ({
            let a_out = eval_args_model(
                l.deep_view(),
                1,
                env as int,
                old(heap)@,
                ms.deep_view(),
                fuel as nat,
            );
            final(heap)@ == a_out.env && (match a_out.res {
                Ok(args) => (match prim_apply_model(func, args) {
                    Ok(v) => r matches Ok(rv) && rv@ == v,
                    Err(k) => r matches Err(e) && e@ == k,
                }),
                Err(k) => r matches Err(e) && e@ == k,
            })
        }),
    decreases fuel, esize_seq(l.deep_view()), 6nat,
{
    let args_eval = match eval_args(l, 1, heap, env, ms, diag, fuel) {
        Ok(v) => v,
        Err(e) => {
            return Err(e);
        },
    };
    apply_prim(func, args_eval)
}

/// The `apply` form: the last operand must evaluate to a pair chain, whose
/// elements are appended to the evaluated leading operands before the
/// operator is applied.
fn eval_apply(
    list_of_tokens: &[Expr],
    heap: &mut Env,
    env: usize,
    ms: &Modules,
    diag: &mut Diag,
    fuel: usize,
) -> (r: Result<Value, SteelErr>)
    requires
        old(heap)@.wf(),
        env < old(heap)@.frames.len(),
        mods_ok(ms.deep_view(), old(heap)@),
        old(diag).expr_stack@.len() <= 200,
    ensures
        final(heap)@.wf(),
        final(heap)@.frames.len() >= old(heap)@.frames.len(),
        final(diag).expr_stack@.len() <= 200,
        ({
            let out = eval_apply_model(
                list_of_tokens.deep_view(),
                env as int,
                old(heap)@,
                ms.deep_view(),
                fuel as nat,
            );
            final(heap)@ == out.env && (match out.res {
                Ok(v) => r matches Ok(rv) && rv@ == v,
                Err(k) => r matches Err(e) && e@ == k,
            })
        }),
    decreases fuel, esize_seq(list_of_tokens.deep_view()), 6nat,
{
    let ghost ts = list_of_tokens.deep_view();
    let ghost msv = ms.deep_view();
    proof {
        reveal(eval_model);
    }
    if list_of_tokens.len() < 2 {
        return Err(
            SteelErr::new(ErrorKind::TypeMismatch, "apply expects at least 2 arguments".to_owned()),
        );
    }
    let n = list_of_tokens.len();
    proof {
        lemma_esize_seq_elem(ts, 0);
        lemma_esize_seq_elem(ts, ts.len() - 1);
        assert(ts[ts.len() - 1] == list_of_tokens@[ts.len() - 1]@);
        assert(ts[0] == list_of_tokens@[0]@);
    }
    let list_res = match evaluate(&list_of_tokens[n - 1], heap, env, ms, diag, fuel) {
        Ok(v) => v,
        Err(e) => {
            return Err(e);
        },
    };
    if !matches!(&list_res, Value::Pair(_, _)) {
        return Err(
            SteelErr::new(ErrorKind::TypeMismatch, "apply expected a list in the last position".to_owned()),
        );
    }
    let vec_of_vals = collect_list_items(&list_res);
    let mid = &list_of_tokens[1..n - 1];
    proof {
        let s1 = ts.subrange(1, ts.len() as int);
        crate::ast::lemma_esize_seq_split(ts, 1);
        lemma_esize_take(s1, s1.len() - 1);
        assert(esize_prefix(s1, s1.len() as int) == esize_prefix(s1, s1.len() - 1) + esize(
            s1[s1.len() - 1],
        ));
        assert(s1.take(s1.len() - 1) =~= ts.subrange(1, ts.len() - 1));
        crate::ast::lemma_esize_pos(s1[s1.len() - 1]);
        crate::ast::lemma_esize_pos(ts[0]);
        assert(mid.deep_view() =~= ts.subrange(1, ts.len() - 1));
        assert(esize_seq(mid.deep_view()) + 2 <= esize_seq(ts));
    }
    let mut optional_args = match eval_args_slice(mid, heap, env, ms, diag, fuel) {
        Ok(v) => v,
        Err(e) => {
            return Err(e);
        },
    };
    let func = match evaluate(&list_of_tokens[0], heap, env, ms, diag, fuel) {
        Ok(v) => v,
        Err(e) => {
            return Err(e);
        },
    };
    let ghost om = optional_args.deep_view();
    let mut vec_of_vals = vec_of_vals;
    let ghost vm = vec_of_vals.deep_view();
    optional_args.append(&mut vec_of_vals);
    proof {
        assert(optional_args.deep_view() =~= om + vm);
    }
    apply_fn(&func, optional_args, heap, ms, diag, fuel)
}

/// Evaluates every expression of a slice left-to-right.
fn eval_args_slice(
    l: &[Expr],
    heap: &mut Env,
    env: usize,
    ms: &Modules,
    diag: &mut Diag,
    fuel: usize,
) -> (r: Result<Vec<Value>, SteelErr>)
    requires
        old(heap)@.wf(),
        env < old(heap)@.frames.len(),
        mods_ok(ms.deep_view(), old(heap)@),
        old(diag).expr_stack@.len() <= 200,
    ensures
        final(heap)@.wf(),
        final(heap)@.frames.len() >= old(heap)@.frames.len(),
        final(diag).expr_stack@.len() <= 200,
        ({
            let out = eval_args_model(
                l.deep_view(),
                0,
                env as int,
                old(heap)@,
                ms.deep_view(),
                fuel as nat,
            );
            final(heap)@ == out.env && (match out.res {
                Ok(vs) => r matches Ok(rv) && rv.deep_view() == vs,
                Err(k) => r matches Err(e) && e@ == k,
            })
        }),
    decreases fuel, esize_seq(l.deep_view()), 5nat,
{
    let ghost lm = l.deep_view();
    let ghost st0 = heap@;
    let ghost msv = ms.deep_view();
    let mut out: Vec<Value> = Vec::new();
    let mut i: usize = 0;
    while i < l.len()
        invariant
            heap@.wf(),
            env < heap@.frames.len(),
            mods_ok(msv, heap@),
            st0 == old(heap)@,
            heap@.frames.len() >= st0.frames.len(),
            diag.expr_stack@.len() <= 200,
            msv == ms.deep_view(),
            lm == l.deep_view(),
            lm.len() == l@.len(),
            i as int <= lm.len(),
            ({
                let whole = eval_args_model(lm, 0, env as int, st0, msv, fuel as nat);
                let cont = eval_args_model(lm, i as int, env as int, heap@, msv, fuel as nat);
                whole.env == cont.env && (match cont.res {
                    Ok(vs) => whole.res matches Ok(ws) && ws =~= out.deep_view() + vs,
                    Err(k) => whole.res matches Err(k2) && k2 == k,
                })
            }),
        decreases lm.len() - i,
    {
        let ghost hsnap = heap@;
        proof {
            lemma_esize_seq_elem(lm, i as int);
            assert(lm[i as int] == l@[i as int]@);
        }
        let ghost pre = out.deep_view();
        match evaluate(&l[i], heap, env, ms, diag, fuel) {
            Ok(v) => {
                let ghost vv = v@;
                out.push(v);
                proof {
                    lemma_eval_args_step(lm, i as int, env as int, hsnap, msv, fuel as nat);
                    let first = eval_model(lm[i as int], env as int, hsnap, msv, fuel as nat);
                    assert(first.env == heap@);
                    assert(first.res matches Ok(v0) && v0 == vv);
                    let conta = eval_args_model(lm, i as int, env as int, hsnap, msv, fuel as nat);
                    let contb = eval_args_model(
                        lm,
                        i as int + 1,
                        env as int,
                        heap@,
                        msv,
                        fuel as nat,
                    );
                    assert(conta.env == contb.env);
                    assert(out.deep_view() =~= pre.push(vv));
                    if let Ok(vs) = contb.res {
                        assert(conta.res matches Ok(w) && w == seq![vv] + vs);
                        assert(pre + (seq![vv] + vs) =~= out.deep_view() + vs);
                    }
                }
                i = i + 1;
            },
            Err(e) => {
                proof {
                    lemma_eval_args_step(lm, i as int, env as int, hsnap, msv, fuel as nat);
                    let first = eval_model(lm[i as int], env as int, hsnap, msv, fuel as nat);
                    assert(first.env == heap@);
                    let conta = eval_args_model(lm, i as int, env as int, hsnap, msv, fuel as nat);
                    assert(conta.env == heap@ && (conta.res matches Err(k) && k == e@));
                }
                return Err(e);
            },
        }
    }
    proof {
        lemma_eval_args_nil(lm, i as int, env as int, heap@, msv, fuel as nat);
        let cont = eval_args_model(lm, i as int, env as int, heap@, msv, fuel as nat);
        if let Ok(vs) = cont.res {
            assert(out.deep_view() + vs =~= out.deep_view());
        }
    }
    Ok(out)
}

/// Evaluates the arguments of a struct-closure application and dispatches
/// on the closure's operation.
pub fn eval_struct_constructor(
    list_of_tokens: &[Expr],
    factory: &StructDecl,
    op: StructOp,
    heap: &mut Env,
    env: usize,
    ms: &Modules,
    diag: &mut Diag,
    fuel: usize,
) -> (r: Result<Value, SteelErr>)
    requires
        old(heap)@.wf(),
        env < old(heap)@.frames.len(),
        mods_ok(ms.deep_view(), old(heap)@),
        old(diag).expr_stack@.len() <= 200,
    ensures
        final(heap)@.wf(),
        final(heap)@.frames.len() >= old(heap)@.frames.len(),
        final(diag).expr_stack@.len() <= 200,
        ({
            let a_out = eval_args_model(
                list_of_tokens.deep_view(),
                0,
                env as int,
                old(heap)@,
                ms.deep_view(),
                fuel as nat,
            );
            final(heap)@ == a_out.env && (match a_out.res {
                Ok(args) => (match struct_apply_model(factory@, op, args) {
                    Ok(v) => r matches Ok(rv) && rv@ == v,
                    Err(k) => r matches Err(e) && e@ == k,
                }),
                Err(k) => r matches Err(e) && e@ == k,
            })
        }),
    decreases fuel, esize_seq(list_of_tokens.deep_view()), 6nat,
{
    let args_eval = match eval_args_slice(list_of_tokens, heap, env, ms, diag, fuel) {
        Ok(v) => v,
        Err(e) => {
            return Err(e);
        },
    };
    struct_apply(factory, op, args_eval)
}

/// Builds the bindings a `struct` form installs.
fn struct_defs(list_of_tokens: &[Expr]) -> (r: Result<Vec<(String, Value)>, SteelErr>)
    ensures
        (match struct_defs_model(list_of_tokens.deep_view()) {
            Ok(defs) => r matches Ok(v) && v.deep_view() == defs,
            Err(k) => r matches Err(e) && e@ == k,
        }),
{
    let ghost ts = list_of_tokens.deep_view();
    if list_of_tokens.len() != 2 {
        return Err(SteelErr::new(ErrorKind::ArityMismatch, "struct expects a name and fields".to_owned()));
    }
    let name = match &list_of_tokens[0] {
        Expr::Atom(Token::Identifier(n)) => n.clone(),
        _ => {
            return Err(SteelErr::new(ErrorKind::TypeMismatch, "struct expects an identifier".to_owned()));
        },
    };
    let fields = match &list_of_tokens[1] {
        Expr::VectorVal(fl) => {
            proof {
                assert(list_of_tokens@[1] == Expr::VectorVal(*fl));
                lemma_vector_val_view(*fl);
            }
            match idents_of(fl) {
                Some(fields) => fields,
                None => {
                    return Err(SteelErr::new(ErrorKind::TypeMismatch, "struct fields must be identifiers".to_owned()));
                },
            }
        },
        _ => {
            return Err(SteelErr::new(ErrorKind::TypeMismatch, "struct expects a field list".to_owned()));
        },
    };
    let decl = StructDecl { name: name.clone(), fields };
    let ghost dm = decl@;
    let mut defs: Vec<(String, Value)> = Vec::new();
    defs.push((name.clone(), Value::StructFactoryV(decl.clone())));
    let qname = name.clone().concat("?");
    defs.push((qname, Value::StructClosureV(decl.clone(), StructOp::Predicate)));
    let mut i: usize = 0;
    proof {
        lemma_accessor_defs_len(dm, 0);
        assert(accessor_defs_model(dm, 0).take(0) =~= Seq::<(Seq<char>, ValueModel)>::empty());
        assert(defs.deep_view() =~= seq![
            (dm.name, ValueModel::StructFactory(dm)),
            (dm.name + "?"@, ValueModel::StructClosure(dm, StructOp::Predicate)),
        ]);
    }
    while i < decl.fields.len()
        invariant
            dm == decl@,
            dm.fields.len() == decl.fields@.len(),
            i <= dm.fields.len(),
            defs.deep_view() =~= seq![
                (dm.name, ValueModel::StructFactory(dm)),
                (dm.name + "?"@, ValueModel::StructClosure(dm, StructOp::Predicate)),
            ] + accessor_defs_model(dm, 0).take(2 * i as int),
            accessor_defs_model(dm, 0).len() == 2 * dm.fields.len(),
        decreases dm.fields.len() - i,
    {
        proof {
            lemma_accessor_defs_len(dm, 0);
            lemma_accessor_defs_index(dm, 0, i as int);
            assert(dm.fields[i as int] == decl.fields@[i as int]@);
        }
        let getter_name = decl.name.clone().concat("-").concat(decl.fields[i].as_str());
        let setter_name = String::from_str("set-").concat(decl.name.as_str()).concat("-").concat(
            decl.fields[i].as_str(),
        ).concat("!");
        let ghost pre = defs.deep_view();
        defs.push((getter_name, Value::StructClosureV(decl.clone(), StructOp::Getter(i))));
        defs.push((setter_name, Value::StructClosureV(decl.clone(), StructOp::Setter(i))));
        proof {
            assert(defs.deep_view() =~= pre + seq![
                (
                    dm.name + "-"@ + dm.fields[i as int],
                    ValueModel::StructClosure(dm, StructOp::Getter(i)),
                ),
                (
                    "set-"@ + dm.name + "-"@ + dm.fields[i as int] + "!"@,
                    ValueModel::StructClosure(dm, StructOp::Setter(i)),
                ),
            ]);
            assert(accessor_defs_model(dm, 0).take(2 * (i + 1) as int) =~= accessor_defs_model(
                dm,
                0,
            ).take(2 * i as int) + seq![
                accessor_defs_model(dm, 0)[2 * i as int],
                accessor_defs_model(dm, 0)[2 * i as int + 1],
            ]);
        }
        i = i + 1;
    }
    proof {
        lemma_accessor_defs_len(dm, 0);
        assert(accessor_defs_model(dm, 0).take(2 * i as int) =~= accessor_defs_model(dm, 0));
        if let Ok(m) = struct_defs_model(ts) {
            assert(defs.deep_view() =~= m);
        }
    }
    Ok(defs)
}

/// The accessor list for `d.fields[i..]` has two entries per field.
proof fn lemma_accessor_defs_len(d: StructDeclModel, i: int)
    requires
        0 <= i <= d.fields.len(),
    ensures
        accessor_defs_model(d, i).len() == 2 * (d.fields.len() - i),
    decreases d.fields.len() - i,
{
    if i < d.fields.len() {
        lemma_accessor_defs_len(d, i + 1);
    }
}

/// The accessor list's entries at positions `2k` and `2k+1` are field
/// `i + k`'s getter and setter.
proof fn lemma_accessor_defs_index(d: StructDeclModel, i: int, k: int)
    requires
        0 <= i <= k < d.fields.len(),
    ensures
        accessor_defs_model(d, i).len() == 2 * (d.fields.len() - i),
        accessor_defs_model(d, i)[2 * (k - i)] == (
            d.name + "-"@ + d.fields[k],
            ValueModel::StructClosure(d, StructOp::Getter(k as usize)),
        ),
        accessor_defs_model(d, i)[2 * (k - i) + 1] == (
            "set-"@ + d.name + "-"@ + d.fields[k] + "!"@,
            ValueModel::StructClosure(d, StructOp::Setter(k as usize)),
        ),
    decreases k - i,
{
    lemma_accessor_defs_len(d, i);
    if i < k {
        lemma_accessor_defs_index(d, i + 1, k);
        lemma_accessor_defs_len(d, i + 1);
    }
}


/// Argument evaluation from position `k + j` of a sequence is argument
/// evaluation from position `j` of the sequence with `k` dropped.
proof fn lemma_eval_args_shift(
    es: Seq<ExprModel>,
    k: int,
    j: int,
    env: int,
    st: EnvModel,
    ms: ModulesModel,
    fuel: nat,
)
    requires
        0 <= k,
        0 <= j,
        k <= es.len(),
    ensures
        eval_args_model(es, k + j, env, st, ms, fuel) == eval_args_model(
            es.skip(k),
            j,
            env,
            st,
            ms,
            fuel,
        ),
    decreases es.len() - (k + j),
{
    if k + j < es.len() {
        assert(es.skip(k)[j] == es[k + j]);
        lemma_eval_args_step(es, k + j, env, st, ms, fuel);
        lemma_eval_args_step(es.skip(k), j, env, st, ms, fuel);
        let first = eval_model(es[k + j], env, st, ms, fuel);
        if let Ok(v) = first.res {
            lemma_eval_args_shift(es, k, j + 1, env, first.env, ms, fuel);
        }
    } else {
        lemma_eval_args_nil(es, k + j, env, st, ms, fuel);
        lemma_eval_args_nil(es.skip(k), j, env, st, ms, fuel);
    }
}

/// Evaluates one expression in the given frame. This is the tail-call
/// loop: the host stack is used only for operand, argument and nested
/// (non-tail) evaluation; tail positions rebind the loop state. The result
/// and the environment left behind are exactly `eval_model`'s.
#[verifier::rlimit(100)]
pub fn evaluate(
    expr: &Expr,
    heap: &mut Env,
    env: usize,
    ms: &Modules,
    diag: &mut Diag,
    fuel: usize,
) -> (r: Result<Value, SteelErr>)
    requires
        old(heap)@.wf(),
        env < old(heap)@.frames.len(),
        mods_ok(ms.deep_view(), old(heap)@),
        old(diag).expr_stack@.len() <= 200,
    ensures
        final(heap)@.wf(),
        final(heap)@.frames.len() >= old(heap)@.frames.len(),
        final(diag).expr_stack@.len() <= 200,
        ({
            let out = eval_model(expr@, env as int, old(heap)@, ms.deep_view(), fuel as nat);
            final(heap)@ == out.env && (match out.res {
                Ok(v) => r matches Ok(rv) && rv@ == v,
                Err(k) => r matches Err(e) && e@ == k,
            })
        }),
    decreases fuel, esize(expr@), 4nat,
{
    let ghost msv = ms.deep_view();
    let ghost out0 = eval_model(expr@, env as int, old(heap)@, msv, fuel as nat);
    let mut cur: Expr = clone_expr(expr);
    let mut cenv: usize = env;
    let mut cfuel: usize = fuel;
    loop
        invariant
            heap@.wf(),
            cenv < heap@.frames.len(),
            mods_ok(msv, heap@),
            msv == ms.deep_view(),
            heap@.frames.len() >= old(heap)@.frames.len(),
            diag.expr_stack@.len() <= 200,
            cfuel <= fuel,
            cfuel < fuel || esize(cur@) <= esize(expr@),
            eval_model(cur@, cenv as int, heap@, msv, cfuel as nat) == out0,
            out0 == eval_model(expr@, env as int, old(heap)@, msv, fuel as nat),
        decreases cfuel, esize(cur@),
    {
        diag.push_trace(&cur);
        let ghost pre_st = heap@;
        let ghost cm = cur@;
        let c = cur;
        match c {
            Expr::Atom(t) => {
                proof {
                    lemma_eval_model_open(cm, cenv as int, pre_st, msv, cfuel as nat);
                    assert(cm == ExprModel::Atom(t@));
                }
                return eval_atom(&t, heap, cenv);
            },
            Expr::VectorVal(l) => {
                proof {
                    lemma_vector_val_view(l);
                    assert(cm == ExprModel::List(l.deep_view()));
                }
                match eval_step(l, heap, cenv, ms, diag, cfuel) {
                    Ok(EvalStep::Done(v)) => {
                        return Ok(v);
                    },
                    Ok(EvalStep::Tail(e2, env2, fuel2)) => {
                        cur = e2;
                        cenv = env2;
                        cfuel = fuel2;
                    },
                    Err(e) => {
                        return Err(e);
                    },
                }
            },
        }
    }
}

/// One dispatch step on a list form: either a final value or error, or
/// the next (expression, frame, fuel) triple for the tail loop, whose
/// meaning under `eval_model` is unchanged.
pub enum EvalStep {
    Done(Value),
    Tail(Expr, usize, usize),
}

#[verifier::rlimit(100)]
fn eval_step(
    l: Vec<Expr>,
    heap: &mut Env,
    cenv: usize,
    ms: &Modules,
    diag: &mut Diag,
    cfuel: usize,
) -> (r: Result<EvalStep, SteelErr>)
    requires
        old(heap)@.wf(),
        cenv < old(heap)@.frames.len(),
        mods_ok(ms.deep_view(), old(heap)@),
        old(diag).expr_stack@.len() <= 200,
    ensures
        final(heap)@.wf(),
        final(heap)@.frames.len() >= old(heap)@.frames.len(),
        final(diag).expr_stack@.len() <= 200,
        ({
            let out = eval_model(
                ExprModel::List(l.deep_view()),
                cenv as int,
                old(heap)@,
                ms.deep_view(),
                cfuel as nat,
            );
            match r {
                Ok(EvalStep::Done(v)) => final(heap)@ == out.env && (out.res matches Ok(v2) && v2
                    == v@),
                Ok(EvalStep::Tail(e2, env2, fuel2)) => {
                    &&& out == eval_model(
                        e2@,
                        env2 as int,
                        final(heap)@,
                        ms.deep_view(),
                        fuel2 as nat,
                    )
                    &&& env2 < final(heap)@.frames.len()
                    &&& (fuel2 < cfuel || (fuel2 == cfuel && esize(e2@) < esize(
                        ExprModel::List(l.deep_view()),
                    )))
                    &&& fuel2 <= cfuel
                },
                Err(e) => final(heap)@ == out.env && (out.res matches Err(k) && k == e@),
            }
        }),
    decreases cfuel, esize(ExprModel::List(l.deep_view())), 3nat,
{
    let ghost msv = ms.deep_view();
    let ghost cm = ExprModel::List(l.deep_view());
    let ghost out0 = eval_model(cm, cenv as int, old(heap)@, msv, cfuel as nat);
    {

                proof {
                    lemma_vector_val_view(l);
                }
                let ghost lm = l.deep_view();
                if l.len() == 0 {
                    proof {
                        lemma_eval_model_open(cm, cenv as int, old(heap)@, msv, cfuel as nat);
                    }
                    return Err(SteelErr::new(ErrorKind::TypeMismatch, "Given empty list".to_owned()));
                }
                let nlen = l.len();
                let rest: &[Expr] = &l[1..nlen];
                proof {
                    lemma_eval_model_open(cm, cenv as int, old(heap)@, msv, cfuel as nat);
                    assert(cm == ExprModel::List(lm));
                    assert(lm[0] == l@[0]@);
                    assert(rest.deep_view() =~= lm.skip(1));
                    assert(forall|j: int|
                        0 <= j < lm.len() - 1 ==> #[trigger] lm.skip(1)[j] == lm[j + 1]);
                    lemma_esize_seq_split(lm, 1);
                    assert forall|j: int| 0 <= j < lm.len() implies esize(#[trigger] lm[j])
                        <= esize_seq(lm) by {
                        lemma_esize_seq_elem(lm, j);
                    }
                }
                if expr_is_ident(&l[0], "quote") {
                    if l.len() != 2 {
                        return Err(SteelErr::new(ErrorKind::ArityMismatch, "Quote: expected 2 args".to_owned()));
                    }
                    return Ok(EvalStep::Done(expr_to_value(&l[1])));
                } else if expr_is_ident(&l[0], "if") {
                    return (match eval_if(rest, heap, cenv, ms, diag, cfuel) {
                        Ok(branch) => Ok(EvalStep::Tail(branch, cenv, cfuel)),
                        Err(e) => Err(e),
                    });
                } else if expr_is_ident(&l[0], "define") {
                    return (match eval_define(rest, heap, cenv, ms, diag, cfuel) {
                        Ok(_) => Ok(EvalStep::Done(Value::Void)),
                        Err(e) => Err(e),
                    });
                } else if expr_is_ident(&l[0], "define-syntax") {
                    return (match eval_macro_def(rest, heap, cenv) {
                        Ok(_) => Ok(EvalStep::Done(Value::Void)),
                        Err(e) => Err(e),
                    });
                } else if expr_is_ident(&l[0], "lambda") {
                    return (match eval_make_lambda(rest, heap, cenv, cfuel) {
                        Ok(v) => Ok(EvalStep::Done(v)),
                        Err(e) => Err(e),
                    });
                } else if expr_is_ident(&l[0], "eval") {
                    return (match eval_eval_expr(rest, heap, cenv, ms, diag, cfuel) {
                        Ok(v) => Ok(EvalStep::Done(v)),
                        Err(e) => Err(e),
                    });
                } else if expr_is_ident(&l[0], "set!") {
                    return (match eval_set(rest, heap, cenv, ms, diag, cfuel) {
                        Ok(v) => Ok(EvalStep::Done(v)),
                        Err(e) => Err(e),
                    });
                } else {
                    proof {
                        assert(!head_is(lm, "quote"@) && !head_is(lm, "if"@) && !head_is(
                            lm,
                            "define"@,
                        ) && !head_is(lm, "define-syntax"@) && !head_is(lm, "lambda"@) && !head_is(
                            lm,
                            "eval"@,
                        ) && !head_is(lm, "set!"@));
                    }
                    return eval_step_more(l, heap, cenv, ms, diag, cfuel);
                }
    }
}

/// Argument evaluation past the end yields the empty sequence.
proof fn lemma_eval_args_nil(
    lm: Seq<ExprModel>,
    i: int,
    env: int,
    st: EnvModel,
    msv: ModulesModel,
    fuel: nat,
)
    requires
        i >= lm.len(),
    ensures
        eval_args_model(lm, i, env, st, msv, fuel) == (SeqOut {
            env: st,
            res: Ok(Seq::<ValueModel>::empty()),
        }),
{
    assert(eval_args_model(lm, i, env, st, msv, fuel) == (SeqOut {
        env: st,
        res: Ok(Seq::<ValueModel>::empty()),
    }));
}



/// The remaining special forms of a dispatch step, after the first half of
/// the keyword chain has been ruled out.
#[verifier::rlimit(100)]
fn eval_step_more(
    l: Vec<Expr>,
    heap: &mut Env,
    cenv: usize,
    ms: &Modules,
    diag: &mut Diag,
    cfuel: usize,
) -> (r: Result<EvalStep, SteelErr>)
    requires
        old(heap)@.wf(),
        cenv < old(heap)@.frames.len(),
        mods_ok(ms.deep_view(), old(heap)@),
        old(diag).expr_stack@.len() <= 200,
        l.deep_view().len() > 0,
        !head_is(l.deep_view(), "quote"@),
        !head_is(l.deep_view(), "if"@),
        !head_is(l.deep_view(), "define"@),
        !head_is(l.deep_view(), "define-syntax"@),
        !head_is(l.deep_view(), "lambda"@),
        !head_is(l.deep_view(), "eval"@),
        !head_is(l.deep_view(), "set!"@),
    ensures
        final(heap)@.wf(),
        final(heap)@.frames.len() >= old(heap)@.frames.len(),
        final(diag).expr_stack@.len() <= 200,
        ({
            let out = eval_model(
                ExprModel::List(l.deep_view()),
                cenv as int,
                old(heap)@,
                ms.deep_view(),
                cfuel as nat,
            );
            match r {
                Ok(EvalStep::Done(v)) => final(heap)@ == out.env && (out.res matches Ok(v2) && v2
                    == v@),
                Ok(EvalStep::Tail(e2, env2, fuel2)) => {
                    &&& out == eval_model(
                        e2@,
                        env2 as int,
                        final(heap)@,
                        ms.deep_view(),
                        fuel2 as nat,
                    )
                    &&& env2 < final(heap)@.frames.len()
                    &&& (fuel2 < cfuel || (fuel2 == cfuel && esize(e2@) < esize(
                        ExprModel::List(l.deep_view()),
                    )))
                    &&& fuel2 <= cfuel
                },
                Err(e) => final(heap)@ == out.env && (out.res matches Err(k) && k == e@),
            }
        }),
    decreases cfuel, esize(ExprModel::List(l.deep_view())), 2nat,
{
    let ghost msv = ms.deep_view();
    let ghost cm = ExprModel::List(l.deep_view());
    let ghost out0 = eval_model(cm, cenv as int, old(heap)@, msv, cfuel as nat);
    let ghost lm = l.deep_view();
    let nlen = l.len();
    proof {
        lemma_vector_val_view(l);
        assert(lm.len() == l@.len());
        lemma_eval_model_open(cm, cenv as int, old(heap)@, msv, cfuel as nat);
        assert(lm[0] == l@[0]@);
        lemma_esize_seq_split(lm, 1);
        assert forall|j: int| 0 <= j < lm.len() implies esize(#[trigger] lm[j]) <= esize_seq(lm)
            by {
            lemma_esize_seq_elem(lm, j);
        }
        assert(forall|j: int| 0 <= j < lm.len() - 1 ==> #[trigger] lm.skip(1)[j] == lm[j + 1]);
    }
    let rest: &[Expr] = &l[1..nlen];
    proof {
        assert(rest.deep_view() =~= lm.skip(1));
    }
    {
        if expr_is_ident(&l[0], "let") {

                    match eval_let(rest) {
                        Ok(d) => {
                            if cfuel == 0 {
                                return Err(
                                    SteelErr::new(ErrorKind::Generic, "evaluation budget exhausted".to_owned()),
                                );
                            }
                            return Ok(EvalStep::Tail(d, cenv, cfuel - 1));
                        },
                        Err(e) => {
                            return Err(e);
                        },
                    }
                } else if expr_is_ident(&l[0], "begin") {
                    return (match eval_begin(&l, 1, heap, cenv, ms, diag, cfuel) {
                        Ok(last) => Ok(EvalStep::Tail(last, cenv, cfuel)),
                        Err(e) => Err(e),
                    });
                } else if expr_is_ident(&l[0], "apply") {
                    return (match eval_apply(rest, heap, cenv, ms, diag, cfuel) {
                        Ok(v) => Ok(EvalStep::Done(v)),
                        Err(e) => Err(e),
                    });
                } else if expr_is_ident(&l[0], "try!") {
                    match eval_try(rest, heap, cenv, ms, diag, cfuel) {
                        Ok((Some(handler), _)) => {
                            return Ok(EvalStep::Tail(handler, cenv, cfuel));
                        },
                        Ok((None, res)) => {
                            return (match res {
                                Ok(v) => Ok(EvalStep::Done(v)),
                                Err(e) => Err(e),
                            });
                        },
                        Err(e) => {
                            return Err(e);
                        },
                    }
                } else if expr_is_ident(&l[0], "require") {
                    proof {
                        assert(out0 == require_model(rest.deep_view(), 0, cenv as int, heap@, msv));
                        lemma_require_void(rest.deep_view(), 0, cenv as int, heap@, msv);
                    }
                    return (match eval_require(rest, heap, cenv, ms) {
                        Ok(_) => Ok(EvalStep::Done(Value::Void)),
                        Err(e) => Err(e),
                    });
                } else if expr_is_ident(&l[0], "map'") {
                    return (match eval_map(rest, heap, cenv, ms, diag, cfuel) {
                        Ok(v) => Ok(EvalStep::Done(v)),
                        Err(e) => Err(e),
                    });
                } else if expr_is_ident(&l[0], "filter'") {
                    return (match eval_filter(rest, heap, cenv, ms, diag, cfuel) {
                        Ok(v) => Ok(EvalStep::Done(v)),
                        Err(e) => Err(e),
                    });
                } else if expr_is_ident(&l[0], "struct") {
                    let defs = match struct_defs(rest) {
                        Ok(d) => d,
                        Err(e) => {
                            return Err(e);
                        },
                    };
                    let ghost dm = defs.deep_view();
                    let mut defs = defs;
                    let dcount = defs.len();
                    let mut di: usize = 0;
                    proof {
                        assert(dm.len() == dcount as int);
                    }
                    while defs.len() > 0
                        invariant
                            heap@.wf(),
                            cenv < heap@.frames.len(),
                            mods_ok(msv, heap@),
                            heap@.frames.len() >= old(heap)@.frames.len(),
                            heap@.frames.len() >= old(heap)@.frames.len(),
                            dm.len() == dcount as int,
                            di as int + defs@.len() == dm.len(),
                            forall|j: int|
                                0 <= j < defs@.len() ==> #[trigger] defs.deep_view()[j] == dm[di + j],
                            define_defs(old(heap)@, cenv as int, dm, 0) == define_defs(
                                heap@,
                                cenv as int,
                                dm,
                                di as int,
                            ),
                        decreases defs@.len(),
                    {
                        proof {
                            assert(defs.deep_view()[0] == dm[di as int]);
                        }
                        let ghost dpre = defs.deep_view();
                        let (nm, v) = defs.remove(0);
                        proof {
                            assert((nm@, v@) == dm[di as int]);
                            assert(forall|j: int|
                                0 <= j < defs@.len() ==> #[trigger] defs.deep_view()[j] == dpre[
                                    j + 1
                                ]);
                        }
                        heap.define(cenv, nm, v);
                        di = di + 1;
                    }
                    return Ok(EvalStep::Done(Value::Void));
                } else {
                    proof {
                        assert(!head_is(lm, "quote"@) && !head_is(lm, "if"@) && !head_is(
                            lm,
                            "define"@,
                        ) && !head_is(lm, "define-syntax"@) && !head_is(lm, "lambda"@) && !head_is(
                            lm,
                            "eval"@,
                        ) && !head_is(lm, "set!"@) && !head_is(lm, "let"@) && !head_is(
                            lm,
                            "begin"@,
                        ) && !head_is(lm, "apply"@) && !head_is(lm, "try!"@) && !head_is(
                            lm,
                            "require"@,
                        ) && !head_is(lm, "map'"@) && !head_is(lm, "filter'"@) && !head_is(
                            lm,
                            "struct"@,
                        ));
                    }
                    return eval_step_apply(l, heap, cenv, ms, diag, cfuel);
                }
    }
}

/// The application case of a dispatch step: the operator is evaluated and
/// the application is carried out or handed back as a tail transition.
#[verifier::rlimit(100)]
fn eval_step_apply(
    l: Vec<Expr>,
    heap: &mut Env,
    cenv: usize,
    ms: &Modules,
    diag: &mut Diag,
    cfuel: usize,
) -> (r: Result<EvalStep, SteelErr>)
    requires
        old(heap)@.wf(),
        cenv < old(heap)@.frames.len(),
        mods_ok(ms.deep_view(), old(heap)@),
        old(diag).expr_stack@.len() <= 200,
        l.deep_view().len() > 0,
        !head_is(l.deep_view(), "quote"@),
        !head_is(l.deep_view(), "if"@),
        !head_is(l.deep_view(), "define"@),
        !head_is(l.deep_view(), "define-syntax"@),
        !head_is(l.deep_view(), "lambda"@),
        !head_is(l.deep_view(), "eval"@),
        !head_is(l.deep_view(), "set!"@),
        !head_is(l.deep_view(), "let"@),
        !head_is(l.deep_view(), "begin"@),
        !head_is(l.deep_view(), "apply"@),
        !head_is(l.deep_view(), "try!"@),
        !head_is(l.deep_view(), "require"@),
        !head_is(l.deep_view(), "map'"@),
        !head_is(l.deep_view(), "filter'"@),
        !head_is(l.deep_view(), "struct"@),
    ensures
        final(heap)@.wf(),
        final(heap)@.frames.len() >= old(heap)@.frames.len(),
        final(diag).expr_stack@.len() <= 200,
        ({
            let out = eval_model(
                ExprModel::List(l.deep_view()),
                cenv as int,
                old(heap)@,
                ms.deep_view(),
                cfuel as nat,
            );
            match r {
                Ok(EvalStep::Done(v)) => final(heap)@ == out.env && (out.res matches Ok(v2) && v2
                    == v@),
                Ok(EvalStep::Tail(e2, env2, fuel2)) => {
                    &&& out == eval_model(
                        e2@,
                        env2 as int,
                        final(heap)@,
                        ms.deep_view(),
                        fuel2 as nat,
                    )
                    &&& env2 < final(heap)@.frames.len()
                    &&& (fuel2 < cfuel || (fuel2 == cfuel && esize(e2@) < esize(
                        ExprModel::List(l.deep_view()),
                    )))
                    &&& fuel2 <= cfuel
                },
                Err(e) => final(heap)@ == out.env && (out.res matches Err(k) && k == e@),
            }
        }),
    decreases cfuel, esize(ExprModel::List(l.deep_view())), 1nat,
{
    let ghost msv = ms.deep_view();
    let ghost cm = ExprModel::List(l.deep_view());
    let ghost out0 = eval_model(cm, cenv as int, old(heap)@, msv, cfuel as nat);
    let ghost lm = l.deep_view();
    let nlen = l.len();
    proof {
        lemma_vector_val_view(l);
        assert(lm.len() == l@.len());
        lemma_eval_model_open(cm, cenv as int, old(heap)@, msv, cfuel as nat);
        assert(lm[0] == l@[0]@);
        lemma_esize_seq_split(lm, 1);
        assert forall|j: int| 0 <= j < lm.len() implies esize(#[trigger] lm[j]) <= esize_seq(lm)
            by {
            lemma_esize_seq_elem(lm, j);
        }
        assert(forall|j: int| 0 <= j < lm.len() - 1 ==> #[trigger] lm.skip(1)[j] == lm[j + 1]);
    }
    let rest: &[Expr] = &l[1..nlen];
    proof {
        assert(rest.deep_view() =~= lm.skip(1));
    }
    {

                    let f_res = match evaluate(&l[0], heap, cenv, ms, diag, cfuel) {
                        Ok(v) => v,
                        Err(e) => {
                            return Err(e);
                        },
                    };
                    let ghost fvm = f_res@;
                    let ghost st_f = heap@;
                    match &f_res {
                        Value::MacroV(m) => {
                            proof {
                                assert(f_res == Value::MacroV(*m));
                            }
                            let m = m.clone();
                            let whole = Expr::VectorVal(l);
                            proof {
                                lemma_vector_val_view(whole->VectorVal_0);
                                assert(whole@ == cm);
                            }
                            let e2 = match m.expand(&whole) {
                                Ok(x) => x,
                                Err(e) => {
                                    return Err(e);
                                },
                            };
                            diag.last_macro = Some(whole);
                            if cfuel == 0 {
                                return Err(
                                    SteelErr::new(ErrorKind::Generic, "evaluation budget exhausted".to_owned()),
                                );
                            }
                            proof {
                                assert(eval_model(e2@, cenv as int, heap@, msv, (cfuel - 1) as nat)
                                    == out0) by {
                                    reveal(eval_model);
                                };
                            }
                            return Ok(EvalStep::Tail(e2, cenv, cfuel - 1));
                        },
                        Value::FuncV(p) => {
                            proof {
                                assert(f_res == Value::FuncV(*p));
                                assert(fvm == ValueModel::Func(*p));
                                reveal(eval_model);
                            }
                            return (match eval_func(*p, &l, heap, cenv, ms, diag, cfuel) {
                                Ok(v) => Ok(EvalStep::Done(v)),
                                Err(e) => Err(e),
                            });
                        },
                        Value::LambdaV(lam0) => {
                            proof {
                                assert(f_res == Value::LambdaV(*lam0));
                            }
                            let lam = lam0.clone();
                            let args = match eval_args(&l, 1, heap, cenv, ms, diag, cfuel) {
                                Ok(a) => a,
                                Err(e) => {
                                    proof {
                                        reveal(eval_model);
                                    }
                                    return Err(e);
                                },
                            };
                            let ghost argsm = args.deep_view();
                            let ghost st_a = heap@;
                            if lam.params.len() != args.len() {
                                proof {
                                    reveal(eval_model);
                                }
                                return Err(
                                    SteelErr::new(ErrorKind::ArityMismatch, "arity mismatch".to_owned()),
                                );
                            }
                            let cap = match lam.captured {
                                CapturedEnv::Owned(i) => i,
                                CapturedEnv::Enclosed(i) => i,
                            };
                            proof {
                                assert(lam@.captured.index() == cap as nat);
                            }
                            if cap >= heap.frame_count() {
                                proof {
                                    reveal(eval_model);
                                }
                                return Err(
                                    SteelErr::new(ErrorKind::Generic, "Root env is missing!".to_owned()),
                                );
                            }
                            if cfuel == 0 {
                                proof {
                                    reveal(eval_model);
                                }
                                return Err(
                                    SteelErr::new(ErrorKind::Generic, "evaluation budget exhausted".to_owned()),
                                );
                            }
                            let idx = heap.new_frame(cap);
                            bind_params(heap, idx, &lam.params, args);
                            proof {
                                assert(heap@ == bind_from(
                                    st_a.push_frame(cap as int),
                                    idx as int,
                                    lam@.params,
                                    argsm,
                                    0,
                                ));
                                assert(eval_model(
                                    lam@.body,
                                    idx as int,
                                    heap@,
                                    msv,
                                    (cfuel - 1) as nat,
                                ) == out0) by {
                                    reveal(eval_model);
                                };
                            }
                            return Ok(EvalStep::Tail(lam.body, idx, cfuel - 1));
                        },
                        Value::StructFactoryV(d) => {
                            proof {
                                assert(f_res == Value::StructFactoryV(*d));
                                lemma_eval_args_shift(
                                    lm,
                                    1,
                                    0,
                                    cenv as int,
                                    heap@,
                                    msv,
                                    cfuel as nat,
                                );
                                reveal(eval_model);
                            }
                            let d = d.clone();
                            return (match eval_struct_constructor(
                                rest,
                                &d,
                                StructOp::Construct,
                                heap,
                                cenv,
                                ms,
                                diag,
                                cfuel,
                            ) {
                                Ok(v) => Ok(EvalStep::Done(v)),
                                Err(e) => Err(e),
                            });
                        },
                        Value::StructClosureV(d, op) => {
                            proof {
                                assert(f_res == Value::StructClosureV(*d, *op));
                                lemma_eval_args_shift(
                                    lm,
                                    1,
                                    0,
                                    cenv as int,
                                    heap@,
                                    msv,
                                    cfuel as nat,
                                );
                                reveal(eval_model);
                            }
                            let d = d.clone();
                            let op = *op;
                            return (match eval_struct_constructor(
                                rest,
                                &d,
                                op,
                                heap,
                                cenv,
                                ms,
                                diag,
                                cfuel,
                            ) {
                                Ok(v) => Ok(EvalStep::Done(v)),
                                Err(e) => Err(e),
                            });
                        },
                        _ => {
                            return Err(
                                SteelErr::new(
                                    ErrorKind::TypeMismatch,
                                    "Application not a procedure - expected a function".to_owned(),
                                ),
                            );
                        },
                    }
                
    }
}

/// A successful `require` always yields the void value.
proof fn lemma_require_void(ts: Seq<ExprModel>, i: int, env: int, st: EnvModel, msv: ModulesModel)
    ensures
        require_model(ts, i, env, st, msv).res matches Ok(v) ==> v == ValueModel::Void,
    decreases ts.len() - i,
{
    if 0 <= i < ts.len() {
        match ts[i] {
            ExprModel::Atom(TokenModel::StringLiteral(path)) => {
                if let Some(fidx) = mod_find(msv, path) {
                    lemma_require_void(ts, i + 1, env, add_module_model(st, env, fidx as int), msv);
                }
            },
            _ => {
                lemma_require_void(ts, i + 1, env, st, msv);
            },
        }
    }
}


/// A successful `map'`/`filter'` run collects at most one value per
/// element of `items[i..]`.
proof fn lemma_map_run_bounded(
    f: ValueModel,
    items: Seq<ValueModel>,
    i: int,
    is_map: bool,
    st: EnvModel,
    msv: ModulesModel,
    fuel: nat,
)
    requires
        0 <= i <= items.len(),
    ensures
        map_run_model(f, items, i, is_map, st, msv, fuel).res matches Ok(vs) ==> vs.len()
            <= items.len() - i,
    decreases items.len() - i,
{
    if i < items.len() {
        let one = apply_value_model(f, seq![items[i]], st, msv, fuel);
        if let Ok(v) = one.res {
            lemma_map_run_bounded(f, items, i + 1, is_map, one.env, msv, fuel);
        }
    }
}

/// The `map'` and `filter'` forms return a proper list whose length is at
/// most the input list's length: whenever the two operand positions
/// evaluate (the second to the list value `lv`) and the run succeeds with
/// the value `v`, then `v` is a proper list and yields no more elements
/// than `lv` does.
pub proof fn lemma_map_filter_list_bound(
    ts: Seq<ExprModel>,
    is_map: bool,
    env: int,
    st: EnvModel,
    msv: ModulesModel,
    fuel: nat,
)
    requires
        ts.len() == 2,
    ensures
        ({
            let out = eval_map_model(ts, is_map, env, st, msv, fuel);
            let f_out = eval_model(ts[0], env, st, msv, fuel);
            match f_out.res {
                Ok(fv) => {
                    let l_out = eval_model(ts[1], env, f_out.env, msv, fuel);
                    match l_out.res {
                        Ok(lv) => (out.res matches Ok(v) ==> is_proper_list(v) && iter_vals(
                            v,
                        ).len() <= iter_vals(lv).len()),
                        Err(_) => out.res is Err,
                    }
                },
                Err(_) => out.res is Err,
            }
        }),
{
    lemma_eval_map_open(ts, is_map, env, st, msv, fuel);
    let f_out = eval_model(ts[0], env, st, msv, fuel);
    if let Ok(fv) = f_out.res {
        let l_out = eval_model(ts[1], env, f_out.env, msv, fuel);
        if let Ok(lv) = l_out.res {
            if lv is Pair {
                let run = map_run_model(fv, iter_vals(lv), 0, is_map, l_out.env, msv, fuel);
                lemma_map_run_bounded(fv, iter_vals(lv), 0, is_map, l_out.env, msv, fuel);
                if let Ok(c) = run.res {
                    crate::primitives::lemma_list_of_iter(c);
                }
            }
        }
    }
}


/// One unfolding step of argument-sequence evaluation.
proof fn lemma_eval_args_step(
    lm: Seq<ExprModel>,
    i: int,
    env: int,
    st: EnvModel,
    msv: ModulesModel,
    fuel: nat,
)
    requires
        0 <= i < lm.len(),
    ensures
        ({
            let first = eval_model(lm[i], env, st, msv, fuel);
            let conta = eval_args_model(lm, i, env, st, msv, fuel);
            match first.res {
                Ok(v0) => {
                    let contb = eval_args_model(lm, i + 1, env, first.env, msv, fuel);
                    conta == (match contb.res {
                        Ok(vs0) => SeqOut { env: contb.env, res: Ok(seq![v0] + vs0) },
                        Err(k0) => SeqOut { env: contb.env, res: Err(k0) },
                    })
                },
                Err(k0) => conta == SeqOut { env: first.env, res: Err(k0) },
            }
        }),
{
    reveal(eval_model);
    let first = eval_model(lm[i], env, st, msv, fuel);
    let conta = eval_args_model(lm, i, env, st, msv, fuel);
    if let Ok(v0) = first.res {
        let contb = eval_args_model(lm, i + 1, env, first.env, msv, fuel);
        assert(conta == (match contb.res {
            Ok(vs0) => SeqOut { env: contb.env, res: Ok(seq![v0] + vs0) },
            Err(k0) => SeqOut { env: contb.env, res: Err(k0) },
        }));
    } else if let Err(k0) = first.res {
        assert(conta == SeqOut { env: first.env, res: Err(k0) });
    }
}


/// One unfolding step of the `begin` run.
proof fn lemma_eval_begin_step(
    lm: Seq<ExprModel>,
    i: int,
    env: int,
    st: EnvModel,
    msv: ModulesModel,
    fuel: nat,
)
    requires
        0 <= i < lm.len(),
    ensures
        ({
            let first = eval_model(lm[i], env, st, msv, fuel);
            let whole = eval_begin_model(lm, i, env, st, msv, fuel);
            if i == lm.len() - 1 {
                whole == first
            } else {
                match first.res {
                    Ok(_) => whole == eval_begin_model(lm, i + 1, env, first.env, msv, fuel),
                    Err(k) => whole == EOut { env: first.env, res: Err(k) },
                }
            }
        }),
{
    reveal(eval_model);
    let first = eval_model(lm[i], env, st, msv, fuel);
    let whole = eval_begin_model(lm, i, env, st, msv, fuel);
    if i == lm.len() - 1 {
        assert(whole == first);
    } else if let Ok(v0) = first.res {
        assert(whole == eval_begin_model(lm, i + 1, env, first.env, msv, fuel));
    } else if let Err(k0) = first.res {
        assert(whole == EOut { env: first.env, res: Err(k0) });
    }
}

/// One unfolding step of the `map'`/`filter'` run.
proof fn lemma_map_run_step(
    f: ValueModel,
    im: Seq<ValueModel>,
    i: int,
    is_map: bool,
    st: EnvModel,
    msv: ModulesModel,
    fuel: nat,
)
    requires
        0 <= i < im.len(),
    ensures
        ({
            let one = apply_value_model(f, seq![im[i]], st, msv, fuel);
            let whole = map_run_model(f, im, i, is_map, st, msv, fuel);
            match one.res {
                Ok(v) => {
                    let rest = map_run_model(f, im, i + 1, is_map, one.env, msv, fuel);
                    whole == (match rest.res {
                        Ok(vs) => SeqOut {
                            env: rest.env,
                            res: Ok(
                                if is_map {
                                    seq![v] + vs
                                } else if v == ValueModel::Bool(true) {
                                    seq![im[i]] + vs
                                } else {
                                    vs
                                },
                            ),
                        },
                        Err(k) => SeqOut { env: rest.env, res: Err(k) },
                    })
                },
                Err(k) => whole == SeqOut { env: one.env, res: Err(k) },
            }
        }),
{
    reveal(eval_model);
    let one = apply_value_model(f, seq![im[i]], st, msv, fuel);
    let whole = map_run_model(f, im, i, is_map, st, msv, fuel);
    if let Ok(v) = one.res {
        let rest = map_run_model(f, im, i + 1, is_map, one.env, msv, fuel);
        assert(whole == (match rest.res {
            Ok(vs) => SeqOut {
                env: rest.env,
                res: Ok(
                    if is_map {
                        seq![v] + vs
                    } else if v == ValueModel::Bool(true) {
                        seq![im[i]] + vs
                    } else {
                        vs
                    },
                ),
            },
            Err(k) => SeqOut { env: rest.env, res: Err(k) },
        }));
    } else if let Err(k0) = one.res {
        assert(whole == SeqOut { env: one.env, res: Err(k0) });
    }
}

/// The opening of the `map'`/`filter'` form's meaning.
proof fn lemma_eval_map_open(
    ts: Seq<ExprModel>,
    is_map: bool,
    env: int,
    st: EnvModel,
    msv: ModulesModel,
    fuel: nat,
)
    requires
        ts.len() == 2,
    ensures
        ({
            let out = eval_map_model(ts, is_map, env, st, msv, fuel);
            let f_out = eval_model(ts[0], env, st, msv, fuel);
            match f_out.res {
                Ok(fv) => {
                    let l_out = eval_model(ts[1], env, f_out.env, msv, fuel);
                    match l_out.res {
                        Ok(lv) => if !(lv is Pair) {
                            out == EOut { env: l_out.env, res: Err(ErrorKind::TypeMismatch) }
                        } else {
                            let run = map_run_model(
                                fv,
                                iter_vals(lv),
                                0,
                                is_map,
                                l_out.env,
                                msv,
                                fuel,
                            );
                            out == (match run.res {
                                Ok(c) => EOut { env: run.env, res: Ok(list_of(c)) },
                                Err(k) => EOut { env: run.env, res: Err(k) },
                            })
                        },
                        Err(k) => out == EOut { env: l_out.env, res: Err(k) },
                    }
                },
                Err(k) => out == EOut { env: f_out.env, res: Err(k) },
            }
        }),
{
    reveal(eval_model);
    let out = eval_map_model(ts, is_map, env, st, msv, fuel);
    let f_out = eval_model(ts[0], env, st, msv, fuel);
    if let Ok(fv) = f_out.res {
        let l_out = eval_model(ts[1], env, f_out.env, msv, fuel);
        if let Ok(lv) = l_out.res {
            if !(lv is Pair) {
                assert(out == EOut { env: l_out.env, res: Err(ErrorKind::TypeMismatch) });
            } else {
                let run = map_run_model(fv, iter_vals(lv), 0, is_map, l_out.env, msv, fuel);
                assert(out == (match run.res {
                    Ok(c) => EOut { env: run.env, res: Ok(list_of(c)) },
                    Err(k) => EOut { env: run.env, res: Err(k) },
                }));
            }
        } else if let Err(k0) = l_out.res {
            assert(out == EOut { env: l_out.env, res: Err(k0) });
        }
    } else if let Err(k0) = f_out.res {
        assert(out == EOut { env: f_out.env, res: Err(k0) });
    }
}



/// The defining equation of `eval_model`, one unfolding.
proof fn lemma_eval_model_open(e: ExprModel, env: int, st: EnvModel, ms: ModulesModel, fuel: nat)
    ensures
        eval_model(e, env, st, ms, fuel) == (
    match e {
        ExprModel::Atom(t) => EOut { env: st, res: eval_atom_model(t, env, st) },
        ExprModel::List(l) => {
            if l.len() == 0 {
                EOut { env: st, res: Err(ErrorKind::TypeMismatch) }
            } else if head_is(l, "quote"@) {
                if l.len() == 2 {
                    EOut { env: st, res: Ok(quote_model(l[1])) }
                } else {
                    EOut { env: st, res: Err(ErrorKind::ArityMismatch) }
                }
            } else if head_is(l, "if"@) {
                if l.len() == 4 {
                    let t_out = eval_model(l[1], env, st, ms, fuel);
                    match t_out.res {
                        Ok(tv) => if tv != ValueModel::Bool(false) {
                            eval_model(l[2], env, t_out.env, ms, fuel)
                        } else {
                            eval_model(l[3], env, t_out.env, ms, fuel)
                        },
                        Err(k) => EOut { env: t_out.env, res: Err(k) },
                    }
                } else {
                    EOut { env: st, res: Err(ErrorKind::ArityMismatch) }
                }
            } else if head_is(l, "define"@) {
                eval_define_model(l.skip(1), env, st, ms, fuel)
            } else if head_is(l, "define-syntax"@) {
                match parse_macro_model(l.skip(1)) {
                    Ok(m) => EOut {
                        env: st.define_at(env, m.name, ValueModel::Macro(m)),
                        res: Ok(ValueModel::Void),
                    },
                    Err(k) => EOut { env: st, res: Err(k) },
                }
            } else if head_is(l, "lambda"@) {
                EOut { env: st, res: make_lambda_model(l.skip(1), env, st, fuel) }
            } else if head_is(l, "eval"@) {
                if l.len() == 2 {
                    let a_out = eval_model(l[1], env, st, ms, fuel);
                    match a_out.res {
                        Ok(v) => match unquote_model(v) {
                            Some(e2) => if fuel == 0 {
                                EOut { env: a_out.env, res: Err(ErrorKind::Generic) }
                            } else {
                                eval_model(e2, env, a_out.env, ms, (fuel - 1) as nat)
                            },
                            None => EOut { env: a_out.env, res: Err(ErrorKind::ContractViolation) },
                        },
                        Err(k) => EOut { env: a_out.env, res: Err(k) },
                    }
                } else {
                    EOut { env: st, res: Err(ErrorKind::ArityMismatch) }
                }
            } else if head_is(l, "set!"@) {
                if l.len() == 3 {
                    let v_out = eval_model(l[2], env, st, ms, fuel);
                    match v_out.res {
                        Ok(v) => match l[1] {
                            ExprModel::Atom(TokenModel::Identifier(x)) => match set_model(
                                v_out.env,
                                env,
                                x,
                                v,
                            ) {
                                Some(st2) => EOut { env: st2, res: Ok(ValueModel::Void) },
                                None => EOut { env: v_out.env, res: Err(ErrorKind::FreeIdentifier) },
                            },
                            _ => EOut { env: v_out.env, res: Err(ErrorKind::TypeMismatch) },
                        },
                        Err(k) => EOut { env: v_out.env, res: Err(k) },
                    }
                } else {
                    EOut { env: st, res: Err(ErrorKind::ArityMismatch) }
                }
            } else if head_is(l, "let"@) {
                match let_desugar_model(l.skip(1)) {
                    Ok(d) => if fuel == 0 {
                        EOut { env: st, res: Err(ErrorKind::Generic) }
                    } else {
                        eval_model(d, env, st, ms, (fuel - 1) as nat)
                    },
                    Err(k) => EOut { env: st, res: Err(k) },
                }
            } else if head_is(l, "begin"@) {
                if l.len() == 1 {
                    EOut { env: st, res: Err(ErrorKind::ArityMismatch) }
                } else {
                    eval_begin_model(l, 1, env, st, ms, fuel)
                }
            } else if head_is(l, "apply"@) {
                eval_apply_model(l.skip(1), env, st, ms, fuel)
            } else if head_is(l, "try!"@) {
                if l.len() == 3 {
                    let t_out = eval_model(l[1], env, st, ms, fuel);
                    match t_out.res {
                        Ok(v) => EOut { env: t_out.env, res: Ok(v) },
                        Err(_) => eval_model(l[2], env, t_out.env, ms, fuel),
                    }
                } else {
                    EOut { env: st, res: Err(ErrorKind::ArityMismatch) }
                }
            } else if head_is(l, "require"@) {
                require_model(l.skip(1), 0, env, st, ms)
            } else if head_is(l, "map'"@) {
                eval_map_model(l.skip(1), true, env, st, ms, fuel)
            } else if head_is(l, "filter'"@) {
                eval_map_model(l.skip(1), false, env, st, ms, fuel)
            } else if head_is(l, "struct"@) {
                match struct_defs_model(l.skip(1)) {
                    Ok(defs) => EOut {
                        env: define_defs(st, env, defs, 0),
                        res: Ok(ValueModel::Void),
                    },
                    Err(k) => EOut { env: st, res: Err(k) },
                }
            } else {
                // Application: evaluate the operator, dispatch on its tag.
                let f_out = eval_model(l[0], env, st, ms, fuel);
                match f_out.res {
                    Ok(fv) => match fv {
                        ValueModel::Macro(m) => match macro_expand_model(m, e) {
                            Ok(e2) => if fuel == 0 {
                                EOut { env: f_out.env, res: Err(ErrorKind::Generic) }
                            } else {
                                eval_model(e2, env, f_out.env, ms, (fuel - 1) as nat)
                            },
                            Err(k) => EOut { env: f_out.env, res: Err(k) },
                        },
                        ValueModel::Func(_) | ValueModel::Lambda(_) | ValueModel::StructFactory(_)
                            | ValueModel::StructClosure(_, _) => {
                            let a_out = eval_args_model(l, 1, env, f_out.env, ms, fuel);
                            match a_out.res {
                                Ok(args) => apply_value_model(fv, args, a_out.env, ms, fuel),
                                Err(k) => EOut { env: a_out.env, res: Err(k) },
                            }
                        },
                        _ => EOut { env: f_out.env, res: Err(ErrorKind::TypeMismatch) },
                    },
                    Err(k) => EOut { env: f_out.env, res: Err(k) },
                }
            }
        },
    }
),
{
    reveal(eval_model);
}


} // verus!
