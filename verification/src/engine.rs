//! The host-embedding facade: it owns the root frame arena, the intern
//! pool and the diagnostics, drives source through the reader, the
//! rewriting passes and the evaluator, and lets a host register values,
//! typed predicates and modules.

use vstd::prelude::*;

use crate::ast::Expr;
use crate::ast::ExprModel;
use crate::env::{default_env_model, empty_env_model, lookup_model, Env, EnvModel, FrameModel};
use crate::errors::{ErrorKind, SteelErr};
use crate::evaluator::{eval_model, evaluate, mods_ok, Diag, EOut, Modules, ModulesModel};
use crate::parser::{parse_model, parse_program};
use crate::primitives::kind_of;
use crate::rewriter::{compile_phrases, flatten_begins_and_expand_defines};
use crate::values::{Prim, Value, ValueKind, ValueModel};

verus! {

broadcast use vstd::seq::group_seq_axioms, vstd::std_specs::vec::group_vec_axioms;

/// The evaluation budget for one host call: the depth of non-structural
/// control transfers (calls entered, macros expanded) one evaluation may
/// make. Chained tail calls spend one unit each, so this admits very long
/// tail-recursive loops at constant host-stack depth.
pub const DEFAULT_FUEL: usize = 5_000_000;

/// An environment as a facade call leaves it: the root frame's
/// binding-context flag is cleared when the call returns.
pub open spec fn clear_root(st: EnvModel) -> EnvModel {
    EnvModel {
        frames: st.frames.update(
            0,
            FrameModel { binding_context: false, ..st.frames[0] },
        ),
    }
}

/// The outcome of running a sequence of phrases: the final environment and
/// either every phrase's value or the first failure's kind.
pub ghost struct RunOut {
    pub env: EnvModel,
    pub res: Result<Seq<ValueModel>, ErrorKind>,
}

/// Running compiled phrases from `i` on: each is evaluated in the root
/// frame with the default budget, after which the root's binding-context
/// flag is cleared; the first failure ends the run with its environment
/// kept.
pub open spec fn run_phrases_model(
    es: Seq<ExprModel>,
    i: int,
    st: EnvModel,
    ms: ModulesModel,
) -> RunOut
    decreases es.len() - i,
{
    if i < 0 || i >= es.len() {
        RunOut { env: st, res: Ok(Seq::empty()) }
    } else {
        let out = eval_model(es[i], 0, st, ms, DEFAULT_FUEL as nat);
        let st2 = clear_root(out.env);
        match out.res {
            Ok(v) => {
                let rest = run_phrases_model(es, i + 1, st2, ms);
                RunOut {
                    env: rest.env,
                    res: match rest.res {
                        Ok(vs) => Ok(seq![v] + vs),
                        Err(k) => Err(k),
                    },
                }
            },
            Err(k) => RunOut { env: st2, res: Err(k) },
        }
    }
}

/// The compilation pipeline on the text: read the source, then run the
/// rewriting passes over each phrase.
pub open spec fn compile_model(s: Seq<char>) -> Result<Seq<ExprModel>, ErrorKind> {
    match parse_model(s) {
        Ok(ps) => compile_phrases(ps, 0),
        Err(u) => Err(ErrorKind::Parse),
    }
}

/// Running source against a state: compile, then the phrases in order.
pub open spec fn run_source_model(s: Seq<char>, st: EnvModel, ms: ModulesModel) -> RunOut {
    match compile_model(s) {
        Ok(cs) => run_phrases_model(cs, 0, st, ms),
        Err(k) => RunOut { env: st, res: Err(k) },
    }
}

/// One unfolding step of `run_phrases_model`.
pub proof fn lemma_run_phrases_step(es: Seq<ExprModel>, i: int, st: EnvModel, ms: ModulesModel)
    requires
        0 <= i < es.len(),
    ensures
        run_phrases_model(es, i, st, ms) == ({
            let out = eval_model(es[i], 0, st, ms, DEFAULT_FUEL as nat);
            let st2 = clear_root(out.env);
            match out.res {
                Ok(v) => {
                    let rest = run_phrases_model(es, i + 1, st2, ms);
                    RunOut {
                        env: rest.env,
                        res: match rest.res {
                            Ok(vs) => Ok(seq![v] + vs),
                            Err(k) => Err(k),
                        },
                    }
                },
                Err(k) => RunOut { env: st2, res: Err(k) },
            }
        }),
{
}

/// Past the last phrase nothing runs.
pub proof fn lemma_run_phrases_nil(es: Seq<ExprModel>, i: int, st: EnvModel, ms: ModulesModel)
    requires
        i >= es.len(),
    ensures
        run_phrases_model(es, i, st, ms) == (RunOut { env: st, res: Ok(Seq::empty()) }),
{
}

/// The environment after binding each name/value pair in the root frame,
/// in order: a later pair for the same name wins.
pub open spec fn define_all(st: EnvModel, vs: Seq<(Seq<char>, ValueModel)>, i: int) -> EnvModel
    decreases vs.len() - i,
{
    if i < 0 || i >= vs.len() {
        st
    } else {
        define_all(st.define_at(0, vs[i].0, vs[i].1), vs, i + 1)
    }
}

/// The outcome of evaluating a module's phrases in its own frame: the
/// final environment and the first failure, if any.
pub ghost struct ModOut {
    pub env: EnvModel,
    pub err: Option<ErrorKind>,
}

/// Evaluating a module's phrases from `i` on in frame `f` with the
/// default budget: the first failure ends the run with its environment
/// kept.
pub open spec fn mod_phrases_model(
    es: Seq<ExprModel>,
    i: int,
    st: EnvModel,
    f: int,
    ms: ModulesModel,
) -> ModOut
    decreases es.len() - i,
{
    if i < 0 || i >= es.len() {
        ModOut { env: st, err: None }
    } else {
        let out = eval_model(es[i], f, st, ms, DEFAULT_FUEL as nat);
        match out.res {
            Ok(u) => mod_phrases_model(es, i + 1, out.env, f, ms),
            Err(k) => ModOut { env: out.env, err: Some(k) },
        }
    }
}

/// One unfolding step of `mod_phrases_model`.
pub proof fn lemma_mod_phrases_step(
    es: Seq<ExprModel>,
    i: int,
    st: EnvModel,
    f: int,
    ms: ModulesModel,
)
    requires
        0 <= i < es.len(),
    ensures
        mod_phrases_model(es, i, st, f, ms) == ({
            let out = eval_model(es[i], f, st, ms, DEFAULT_FUEL as nat);
            match out.res {
                Ok(u) => mod_phrases_model(es, i + 1, out.env, f, ms),
                Err(k) => ModOut { env: out.env, err: Some(k) },
            }
        }),
{
}

/// Past the last phrase nothing runs.
pub proof fn lemma_mod_phrases_nil(
    es: Seq<ExprModel>,
    i: int,
    st: EnvModel,
    f: int,
    ms: ModulesModel,
)
    requires
        i >= es.len(),
    ensures
        mod_phrases_model(es, i, st, f, ms) == (ModOut { env: st, err: None }),
{
}

/// The names the default environment provides, as symbols, in the order
/// the bindings are installed.
pub open spec fn meta_env_names() -> Seq<ValueModel> {
    seq![
        ValueModel::Sym("+"@),
        ValueModel::Sym("-"@),
        ValueModel::Sym("*"@),
        ValueModel::Sym("/"@),
        ValueModel::Sym("="@),
        ValueModel::Sym("<"@),
        ValueModel::Sym(">"@),
        ValueModel::Sym("<="@),
        ValueModel::Sym(">="@),
        ValueModel::Sym("list"@),
        ValueModel::Sym("cons"@),
        ValueModel::Sym("car"@),
        ValueModel::Sym("cdr"@),
        ValueModel::Sym("null?"@),
    ]
}

/// One frame of interned source: the text and its parsed phrase.
pub type InternPool = Vec<(String, Expr)>;

/// The session state behind the facade: the frame arena rooted at frame
/// zero, the intern pool, the registered modules and the diagnostics.
#[derive(Debug)]
pub struct Evaluator {
    pub global_env: Env,
    pub intern_cache: InternPool,
    pub modules: Modules,
    pub diag: Diag,
}

/// A scope: a root environment paired with an intern pool, handed to
/// compilation entry points.
#[derive(Debug)]
pub struct Scope {
    pub global_env: Env,
    pub intern_cache: InternPool,
}

impl Scope {
    /// A scope over the given environment and intern pool.
    pub fn new(global_env: Env, intern_cache: InternPool) -> (r: Scope)
        ensures
            r.global_env@ == global_env@,
    {
        Scope { global_env, intern_cache }
    }

    /// A scope over a fresh default environment and an empty pool.
    pub fn raw() -> (r: Scope)
        ensures
            r.global_env@ == default_env_model(),
    {
        Scope { global_env: Env::default_env(), intern_cache: Vec::new() }
    }
}

impl Evaluator {
    /// Structural soundness of the session state.
    pub open spec fn wf(self) -> bool {
        &&& self.global_env@.wf()
        &&& self.global_env@.frames.len() >= 1
        &&& mods_ok(self.modules.deep_view(), self.global_env@)
        &&& self.diag.expr_stack@.len() <= 200
    }

    /// A session over a bare default environment: primitives only.
    pub fn new_raw() -> (r: Evaluator)
        ensures
            r.wf(),
            r.global_env@ == default_env_model(),
            r.modules.deep_view() == Seq::<(Seq<char>, usize)>::empty(),
            r.intern_cache@.len() == 0,
    {
        Evaluator {
            global_env: Env::default_env(),
            intern_cache: Vec::new(),
            modules: Vec::new(),
            diag: Diag::new(),
        }
    }

    /// A session with the prelude loaded over the default environment:
    /// the state is exactly what running the prelude source from the
    /// default environment leaves behind.
    pub fn new() -> (r: Evaluator)
        ensures
            r.wf(),
            r.global_env@ == run_source_model(
                crate::stdlib::PRELUDE@,
                default_env_model(),
                Seq::empty(),
            ).env,
            r.modules.deep_view() == Seq::<(Seq<char>, usize)>::empty(),
    {
        let mut ev = Evaluator::new_raw();
        proof {
            assert(ev.modules.deep_view() =~= Seq::<(Seq<char>, usize)>::empty());
        }
        let _ = ev.parse_and_eval(crate::stdlib::PRELUDE);
        ev
    }

    /// Evaluates one phrase in the root frame with the default budget,
    /// then leaves the root's binding-context flag cleared.
    pub fn eval(&mut self, expr: &Expr) -> (r: Result<Value, SteelErr>)
        requires
            old(self).wf(),
        ensures
            final(self).wf(),
            final(self).global_env@.frames.len() >= old(self).global_env@.frames.len(),
            ({
                let out = eval_model(
                    expr@,
                    0,
                    old(self).global_env@,
                    old(self).modules.deep_view(),
                    DEFAULT_FUEL as nat,
                );
                &&& (match out.res {
                    Ok(v) => r matches Ok(rv) && rv@ == v,
                    Err(k) => r matches Err(e) && e@ == k,
                })
                &&& final(self).global_env@ == clear_root(out.env)
            }),
            final(self).modules == old(self).modules,
            final(self).intern_cache == old(self).intern_cache,
    {
        let ghost st0 = old(self).global_env@;
        let ghost msv = old(self).modules.deep_view();
        let res = evaluate(expr, &mut self.global_env, 0, &self.modules, &mut self.diag, DEFAULT_FUEL);
        // A top-level definition marks the root frame as a binding
        // context; the flag is consumed here, at the end of the call.
        self.global_env.set_binding_context(0, false);
        proof {
            let out = eval_model(expr@, 0, st0, msv, DEFAULT_FUEL as nat);
            assert(self.global_env@ =~= clear_root(out.env));
        }
        res
    }

    /// Parses the source and evaluates each phrase in order, stopping at
    /// the first failure.
    pub fn parse_and_eval(&mut self, expr_str: &str) -> (r: Result<Vec<Value>, SteelErr>)
        requires
            old(self).wf(),
        ensures
            final(self).wf(),
            final(self).modules == old(self).modules,
            ({
                let out = run_source_model(
                    expr_str@,
                    old(self).global_env@,
                    old(self).modules.deep_view(),
                );
                &&& final(self).global_env@ == out.env
                &&& (match out.res {
                    Ok(vs) => r matches Ok(rv) && rv.deep_view() == vs,
                    Err(k) => r matches Err(e) && e@ == k,
                })
            }),
    {
        let ghost st0 = old(self).global_env@;
        let ghost msv = old(self).modules.deep_view();
        let parsed = match parse_program(expr_str) {
            Ok(p) => p,
            Err(e) => {
                return Err(e);
            },
        };
        let compiled = match flatten_begins_and_expand_defines(&parsed) {
            Ok(c) => c,
            Err(e) => {
                return Err(e);
            },
        };
        let ghost es = compiled.deep_view();
        let mut out: Vec<Value> = Vec::new();
        let mut i: usize = 0;
        while i < compiled.len()
            invariant
                self.wf(),
                self.modules == old(self).modules,
                self.modules.deep_view() == msv,
                old(self).global_env@ == st0,
                old(self).modules.deep_view() == msv,
                i <= compiled@.len(),
                es == compiled.deep_view(),
                compile_model(expr_str@) == Ok::<Seq<ExprModel>, ErrorKind>(es),
                ({
                    let rest = run_phrases_model(es, i as int, self.global_env@, msv);
                    let all = run_phrases_model(es, 0, st0, msv);
                    &&& all.env == rest.env
                    &&& (match rest.res {
                        Ok(vs) => all.res matches Ok(avs) && avs == out.deep_view() + vs,
                        Err(k) => all.res matches Err(ak) && ak == k,
                    })
                }),
            decreases compiled@.len() - i,
        {
            let ghost pre = self.global_env@;
            let ghost outv = out.deep_view();
            proof {
                lemma_run_phrases_step(es, i as int, pre, msv);
                assert(compiled.deep_view()[i as int] == compiled@[i as int]@);
            }
            match self.eval(&compiled[i]) {
                Ok(v) => {
                    out.push(v);
                    proof {
                        let m = eval_model(es[i as int], 0, pre, msv, DEFAULT_FUEL as nat);
                        assert(self.global_env@ == clear_root(m.env));
                        let rest2 = run_phrases_model(es, i + 1, self.global_env@, msv);
                        if rest2.res is Ok {
                            assert(outv + (seq![m.res->Ok_0] + rest2.res->Ok_0)
                                =~= out.deep_view() + rest2.res->Ok_0);
                        }
                    }
                },
                Err(e) => {
                    proof {
                        let m = eval_model(es[i as int], 0, pre, msv, DEFAULT_FUEL as nat);
                        assert(m.res is Err);
                        assert(self.global_env@ == clear_root(m.env));
                        let rest = run_phrases_model(es, i as int, pre, msv);
                        assert(rest.env == self.global_env@);
                        assert(rest.res matches Err(k) && k == e@);
                    }
                    return Err(e);
                },
            }
            i = i + 1;
        }
        proof {
            lemma_run_phrases_nil(es, i as int, self.global_env@, msv);
            assert(out.deep_view() + Seq::<ValueModel>::empty() =~= out.deep_view());
        }
        Ok(out)
    }

    /// Binds a value under a name in the root frame.
    pub fn insert_binding(&mut self, name: String, value: Value)
        requires
            old(self).wf(),
        ensures
            final(self).wf(),
            final(self).global_env@ == old(self).global_env@.define_at(0, name@, value@),
            final(self).modules == old(self).modules,
            final(self).intern_cache == old(self).intern_cache,
    {
        self.global_env.define(0, name, value);
    }

    /// Binds each name/value pair in the root frame, in order: a later
    /// pair for the same name wins.
    pub fn insert_bindings(&mut self, vals: Vec<(String, Value)>)
        requires
            old(self).wf(),
        ensures
            final(self).wf(),
            final(self).global_env@ == define_all(old(self).global_env@, vals.deep_view(), 0),
            final(self).modules == old(self).modules,
            final(self).intern_cache == old(self).intern_cache,
    {
        let ghost vs = vals.deep_view();
        let ghost st0 = old(self).global_env@;
        let mut i: usize = 0;
        while i < vals.len()
            invariant
                self.wf(),
                i <= vals@.len(),
                vs == vals.deep_view(),
                old(self).global_env@ == st0,
                self.modules == old(self).modules,
                self.intern_cache == old(self).intern_cache,
                define_all(st0, vs, 0) == define_all(self.global_env@, vs, i as int),
            decreases vals@.len() - i,
        {
            proof {
                assert(vals.deep_view()[i as int] == (vals@[i as int].0@, vals@[i as int].1@));
            }
            let name = vals[i].0.clone();
            let value = crate::values::clone_value(&vals[i].1);
            let ghost pre = self.global_env@;
            self.global_env.define(0, name, value);
            proof {
                assert(define_all(pre, vs, i as int) == define_all(
                    pre.define_at(0, vs[i as int].0, vs[i as int].1),
                    vs,
                    i + 1,
                ));
            }
            i = i + 1;
        }
    }

    /// Looks a name up from the root frame.
    pub fn lookup_binding(&mut self, name: &String) -> (r: Result<Value, SteelErr>)
        requires
            old(self).wf(),
        ensures
            *final(self) == *old(self),
            (match lookup_model(old(self).global_env@, 0, name@) {
                Some(v) => r matches Ok(rv) && rv@ == v,
                None => r matches Err(e) && e@ == ErrorKind::FreeIdentifier,
            }),
    {
        self.global_env.lookup(0, name)
    }

    /// Clears every binding of the session, releasing all values.
    pub fn clear_bindings(&mut self)
        requires
            old(self).wf(),
        ensures
            final(self).wf(),
            forall|i: int|
                0 <= i < final(self).global_env@.frames.len() ==> (#[trigger] final(self).global_env@.frames[i]).bindings
                    == Map::<Seq<char>, ValueModel>::empty(),
    {
        self.global_env.clear_bindings();
    }

    /// The environment the session owns.
    pub fn get_env(&self) -> (r: &Env)
        ensures
            r@ == self.global_env@,
    {
        &self.global_env
    }

    /// Parses and evaluates a module's source into a fresh frame and
    /// registers it under `path`, so `(require \"path\")` can splice it.
    /// A failure before the frame exists leaves the session unchanged; a
    /// failing phrase keeps its state but registers nothing.
    pub fn register_module(&mut self, path: String, source: &str) -> (r: Result<(), SteelErr>)
        requires
            old(self).wf(),
        ensures
            final(self).wf(),
            final(self).intern_cache == old(self).intern_cache,
            (match compile_model(source@) {
                Err(k) => r matches Err(e) && e@ == k && final(self).global_env@ == old(
                    self,
                ).global_env@ && final(self).modules == old(self).modules,
                Ok(cs) => ({
                    let f = old(self).global_env@.frames.len() as int;
                    let out = mod_phrases_model(
                        cs,
                        0,
                        old(self).global_env@.push_frame(0),
                        f,
                        old(self).modules.deep_view(),
                    );
                    &&& final(self).global_env@ == out.env
                    &&& (match out.err {
                        Some(k) => r matches Err(e) && e@ == k && final(self).modules == old(
                            self,
                        ).modules,
                        None => r is Ok && final(self).modules.deep_view() == old(
                            self,
                        ).modules.deep_view().push((path@, f as usize)),
                    })
                }),
            }),
    {
        let ghost st0 = old(self).global_env@;
        let ghost msv = old(self).modules.deep_view();
        let parsed = match parse_program(source) {
            Ok(p) => p,
            Err(e) => {
                return Err(e);
            },
        };
        let compiled = match flatten_begins_and_expand_defines(&parsed) {
            Ok(c) => c,
            Err(e) => {
                return Err(e);
            },
        };
        let ghost es = compiled.deep_view();
        let frame = self.global_env.new_frame(0);
        let ghost st1 = self.global_env@;
        let mut i: usize = 0;
        while i < compiled.len()
            invariant
                self.global_env@.wf(),
                self.global_env@.frames.len() >= 1,
                frame < self.global_env@.frames.len(),
                mods_ok(self.modules.deep_view(), self.global_env@),
                self.diag.expr_stack@.len() <= 200,
                i <= compiled@.len(),
                es == compiled.deep_view(),
                compile_model(source@) == Ok::<Seq<ExprModel>, ErrorKind>(es),
                self.modules == old(self).modules,
                self.modules.deep_view() == msv,
                self.intern_cache == old(self).intern_cache,
                old(self).global_env@ == st0,
                old(self).modules.deep_view() == msv,
                frame == st0.frames.len(),
                st1 == st0.push_frame(0),
                ({
                    let rest = mod_phrases_model(es, i as int, self.global_env@, frame as int, msv);
                    let all = mod_phrases_model(es, 0, st1, frame as int, msv);
                    &&& all.env == rest.env
                    &&& all.err == rest.err
                }),
            decreases compiled@.len() - i,
        {
            let ghost pre = self.global_env@;
            proof {
                lemma_mod_phrases_step(es, i as int, pre, frame as int, msv);
                assert(compiled.deep_view()[i as int] == compiled@[i as int]@);
            }
            match evaluate(
                &compiled[i],
                &mut self.global_env,
                frame,
                &self.modules,
                &mut self.diag,
                DEFAULT_FUEL,
            ) {
                Ok(_) => {},
                Err(e) => {
                    proof {
                        let m = eval_model(es[i as int], frame as int, pre, msv, DEFAULT_FUEL as nat);
                        assert(m.res is Err);
                        assert(self.global_env@ == m.env);
                        let rest = mod_phrases_model(es, i as int, pre, frame as int, msv);
                        assert(rest.env == self.global_env@);
                        assert(rest.err matches Some(k) && k == e@);
                    }
                    return Err(e);
                },
            }
            i = i + 1;
        }
        proof {
            lemma_mod_phrases_nil(es, i as int, self.global_env@, frame as int, msv);
        }
        let ghost mpre = self.modules.deep_view();
        self.modules.push((path, frame));
        proof {
            let msv2 = self.modules.deep_view();
            assert(msv2 =~= mpre.push((msv2[msv2.len() - 1].0, frame)));
            assert forall|k: int| 0 <= k < msv2.len() implies (#[trigger] msv2[k]).1
                < self.global_env@.frames.len() by {
                if k < msv2.len() - 1 {
                    assert(msv2[k] == mpre[k]);
                    assert(mpre[k].1 < self.global_env@.frames.len());
                }
            }
        }
        Ok(())
    }
}

/// A compiled program: the phrases of one source text after the rewriting
/// passes, ready for the evaluator.
#[derive(Debug)]
pub struct Program {
    pub exprs: Vec<Expr>,
}

/// The conversion into the value domain a host value supplies.
pub trait IntoSteelVal {
    /// What the conversion yields, or the kind of its failure.
    spec fn into_spec(self) -> Result<ValueModel, ErrorKind>;

    /// Moves the host value into the value domain.
    fn into_steelval(self) -> (r: Result<Value, SteelErr>)
        ensures
            (match self.into_spec() {
                Ok(v) => r matches Ok(rv) && rv@ == v,
                Err(k) => r matches Err(e) && e@ == k,
            }),
    ;
}

/// The conversion out of the value domain a host type supports, and the
/// kind its registered predicate tests.
pub trait FromSteelVal: Sized {
    /// The kind of value the type converts from.
    spec fn kind_spec() -> ValueKind;

    /// The kind of value the type converts from.
    fn value_kind() -> (r: ValueKind)
        ensures
            r == Self::kind_spec(),
    ;

    /// Extracts a host value; it succeeds exactly on values of the
    /// type's kind and fails with `TypeMismatch` otherwise.
    fn from_steelval(v: &Value) -> (r: Result<Self, SteelErr>)
        ensures
            r is Ok <==> kind_of(v@) == Self::kind_spec(),
            (r matches Err(e) ==> e@ == ErrorKind::TypeMismatch),
    ;
}

impl IntoSteelVal for i64 {
    open spec fn into_spec(self) -> Result<ValueModel, ErrorKind> {
        Ok(ValueModel::Int(self))
    }

    fn into_steelval(self) -> (r: Result<Value, SteelErr>) {
        Ok(Value::IntV(self))
    }
}

impl FromSteelVal for i64 {
    open spec fn kind_spec() -> ValueKind {
        ValueKind::IntK
    }

    fn value_kind() -> (r: ValueKind) {
        ValueKind::IntK
    }

    fn from_steelval(v: &Value) -> (r: Result<i64, SteelErr>) {
        match v {
            Value::IntV(n) => Ok(*n),
            _ => Err(SteelErr::new(ErrorKind::TypeMismatch, "expected an integer".to_owned())),
        }
    }
}

impl IntoSteelVal for bool {
    open spec fn into_spec(self) -> Result<ValueModel, ErrorKind> {
        Ok(ValueModel::Bool(self))
    }

    fn into_steelval(self) -> (r: Result<Value, SteelErr>) {
        Ok(Value::BoolV(self))
    }
}

impl FromSteelVal for bool {
    open spec fn kind_spec() -> ValueKind {
        ValueKind::BoolK
    }

    fn value_kind() -> (r: ValueKind) {
        ValueKind::BoolK
    }

    fn from_steelval(v: &Value) -> (r: Result<bool, SteelErr>) {
        match v {
            Value::BoolV(b) => Ok(*b),
            _ => Err(SteelErr::new(ErrorKind::TypeMismatch, "expected a boolean".to_owned())),
        }
    }
}

impl IntoSteelVal for String {
    open spec fn into_spec(self) -> Result<ValueModel, ErrorKind> {
        Ok(ValueModel::Str(self@))
    }

    fn into_steelval(self) -> (r: Result<Value, SteelErr>) {
        Ok(Value::StringV(self))
    }
}

impl FromSteelVal for String {
    open spec fn kind_spec() -> ValueKind {
        ValueKind::StringK
    }

    fn value_kind() -> (r: ValueKind) {
        ValueKind::StringK
    }

    fn from_steelval(v: &Value) -> (r: Result<String, SteelErr>) {
        match v {
            Value::StringV(s) => Ok(s.clone()),
            _ => Err(SteelErr::new(ErrorKind::TypeMismatch, "expected a string".to_owned())),
        }
    }
}

/// The embedding facade. It owns the session; every fallible call
/// returns the error kind and message unchanged to the caller.
#[derive(Debug)]
pub struct Engine {
    pub evaluator: Evaluator,
}

impl Engine {
    /// An engine over one empty root frame: nothing is bound, not even
    /// the primitives, until the host binds it.
    pub fn new_raw() -> (r: Engine)
        ensures
            r.evaluator.wf(),
            r.evaluator.global_env@ == empty_env_model(),
            r.evaluator.modules.deep_view() == Seq::<(Seq<char>, usize)>::empty(),
            r.evaluator.intern_cache@.len() == 0,
    {
        let ev = Evaluator {
            global_env: Env::empty_root(),
            intern_cache: Vec::new(),
            modules: Vec::new(),
            diag: Diag::new(),
        };
        proof {
            assert(ev.modules.deep_view() =~= Seq::<(Seq<char>, usize)>::empty());
        }
        Engine { evaluator: ev }
    }

    /// An engine with the base primitives enabled.
    pub fn new_base() -> (r: Engine)
        ensures
            r.evaluator.wf(),
            r.evaluator.global_env@ == default_env_model(),
            r.evaluator.modules.deep_view() == Seq::<(Seq<char>, usize)>::empty(),
            r.evaluator.intern_cache@.len() == 0,
    {
        Engine { evaluator: Evaluator::new_raw() }
    }

    /// The general entry point: the primitives, then the prelude and the
    /// contract file run over them, in that order. The state is exactly
    /// what those two sources leave behind.
    pub fn new() -> (r: Engine)
        ensures
            r.evaluator.wf(),
            ({
                let o1 = run_source_model(
                    crate::stdlib::PRELUDE@,
                    default_env_model(),
                    Seq::empty(),
                );
                let o2 = run_source_model(crate::stdlib::CONTRACTS@, o1.env, Seq::empty());
                r.evaluator.global_env@ == o2.env
            }),
            r.evaluator.modules.deep_view() == Seq::<(Seq<char>, usize)>::empty(),
    {
        let mut vm = Engine::new_base();
        let _ = vm.parse_and_execute_without_optimizations(crate::stdlib::PRELUDE);
        let _ = vm.parse_and_execute_without_optimizations(crate::stdlib::CONTRACTS);
        vm
    }

    /// An engine that additionally binds `*env*` to the list of names the
    /// default environment provides, in the order they are installed.
    pub fn new_with_meta() -> (r: Engine)
        ensures
            r.evaluator.wf(),
            ({
                let o1 = run_source_model(
                    crate::stdlib::PRELUDE@,
                    default_env_model(),
                    Seq::empty(),
                );
                let o2 = run_source_model(crate::stdlib::CONTRACTS@, o1.env, Seq::empty());
                r.evaluator.global_env@ == o2.env.define_at(
                    0,
                    "*env*"@,
                    crate::primitives::list_of(meta_env_names()),
                )
            }),
            r.evaluator.modules.deep_view() == Seq::<(Seq<char>, usize)>::empty(),
    {
        let mut vm = Engine::new();
        let mut names: Vec<Value> = Vec::new();
        names.push(Value::SymbolV("+".to_owned()));
        names.push(Value::SymbolV("-".to_owned()));
        names.push(Value::SymbolV("*".to_owned()));
        names.push(Value::SymbolV("/".to_owned()));
        names.push(Value::SymbolV("=".to_owned()));
        names.push(Value::SymbolV("<".to_owned()));
        names.push(Value::SymbolV(">".to_owned()));
        names.push(Value::SymbolV("<=".to_owned()));
        names.push(Value::SymbolV(">=".to_owned()));
        names.push(Value::SymbolV("list".to_owned()));
        names.push(Value::SymbolV("cons".to_owned()));
        names.push(Value::SymbolV("car".to_owned()));
        names.push(Value::SymbolV("cdr".to_owned()));
        names.push(Value::SymbolV("null?".to_owned()));
        proof {
            assert(names.deep_view() =~= meta_env_names());
        }
        vm.register_value("*env*", crate::primitives::make_list(names));
        vm
    }

    /// Loads the prelude and contract files, consuming and returning the
    /// engine: the prelude runs first, the contract file over its result,
    /// and the first failure is returned.
    pub fn with_prelude(self) -> (r: Result<Engine, SteelErr>)
        requires
            self.evaluator.wf(),
        ensures
            ({
                let ms = self.evaluator.modules.deep_view();
                let o1 = run_source_model(
                    crate::stdlib::PRELUDE@,
                    self.evaluator.global_env@,
                    ms,
                );
                match o1.res {
                    Err(k) => r matches Err(e) && e@ == k,
                    Ok(u) => ({
                        let o2 = run_source_model(crate::stdlib::CONTRACTS@, o1.env, ms);
                        match o2.res {
                            Err(k) => r matches Err(e) && e@ == k,
                            Ok(w) => r matches Ok(vm) && vm.evaluator.wf()
                                && vm.evaluator.global_env@ == o2.env
                                && vm.evaluator.modules.deep_view() == ms,
                        }
                    }),
                }
            }),
    {
        let mut vm = self;
        match vm.parse_and_execute_without_optimizations(crate::stdlib::PRELUDE) {
            Ok(_) => {},
            Err(e) => {
                return Err(e);
            },
        }
        match vm.parse_and_execute_without_optimizations(crate::stdlib::CONTRACTS) {
            Ok(_) => {},
            Err(e) => {
                return Err(e);
            },
        }
        Ok(vm)
    }

    /// Loads the prelude and contract files into this engine: the prelude
    /// runs first, the contract file over its result, and the first
    /// failure is returned with its state kept.
    pub fn register_prelude(&mut self) -> (r: Result<(), SteelErr>)
        requires
            old(self).evaluator.wf(),
        ensures
            final(self).evaluator.wf(),
            final(self).evaluator.modules == old(self).evaluator.modules,
            ({
                let ms = old(self).evaluator.modules.deep_view();
                let o1 = run_source_model(
                    crate::stdlib::PRELUDE@,
                    old(self).evaluator.global_env@,
                    ms,
                );
                match o1.res {
                    Err(k) => r matches Err(e) && e@ == k && final(self).evaluator.global_env@
                        == o1.env,
                    Ok(u) => ({
                        let o2 = run_source_model(crate::stdlib::CONTRACTS@, o1.env, ms);
                        &&& final(self).evaluator.global_env@ == o2.env
                        &&& (match o2.res {
                            Err(k) => r matches Err(e) && e@ == k,
                            Ok(w) => r is Ok,
                        })
                    }),
                }
            }),
    {
        match self.parse_and_execute_without_optimizations(crate::stdlib::PRELUDE) {
            Ok(_) => {},
            Err(e) => {
                return Err(e);
            },
        }
        match self.parse_and_execute_without_optimizations(crate::stdlib::CONTRACTS) {
            Ok(_) => {},
            Err(e) => {
                return Err(e);
            },
        }
        Ok(())
    }

    /// Parses and compiles source into a program; the path names the
    /// source for diagnostics only.
    pub fn emit_program_with_path(&mut self, expr: &str, _path: &str) -> (r: Result<
        Program,
        SteelErr,
    >)
        ensures
            (match compile_model(expr@) {
                Ok(cs) => r matches Ok(p) && p.exprs.deep_view() == cs,
                Err(k) => r matches Err(e) && e@ == k,
            }),
            (r matches Err(e) ==> e@ == ErrorKind::Parse || e@ == ErrorKind::BadSyntax),
    {
        Engine::compile(expr)
    }

    /// Parses and compiles source into a program.
    pub fn emit_program(&mut self, expr: &str) -> (r: Result<Program, SteelErr>)
        ensures
            (match compile_model(expr@) {
                Ok(cs) => r matches Ok(p) && p.exprs.deep_view() == cs,
                Err(k) => r matches Err(e) && e@ == k,
            }),
            (r matches Err(e) ==> e@ == ErrorKind::Parse || e@ == ErrorKind::BadSyntax),
    {
        Engine::compile(expr)
    }

    /// The compilation pipeline: read, then run the rewriting passes.
    fn compile(expr: &str) -> (r: Result<Program, SteelErr>)
        ensures
            (match compile_model(expr@) {
                Ok(cs) => r matches Ok(p) && p.exprs.deep_view() == cs,
                Err(k) => r matches Err(e) && e@ == k,
            }),
            (r matches Err(e) ==> e@ == ErrorKind::Parse || e@ == ErrorKind::BadSyntax),
    {
        let parsed = match parse_program(expr) {
            Ok(p) => p,
            Err(e) => {
                return Err(e);
            },
        };
        match flatten_begins_and_expand_defines(&parsed) {
            Ok(exprs) => Ok(Program { exprs }),
            Err(e) => {
                proof {
                    crate::rewriter::lemma_compile_err_bad(parsed.deep_view(), 0);
                }
                Err(e)
            },
        }
    }

    /// Evaluates a compiled program phrase by phrase, stopping at the
    /// first failure.
    pub fn execute_program(&mut self, program: Program) -> (r: Result<Vec<Value>, SteelErr>)
        requires
            old(self).evaluator.wf(),
        ensures
            final(self).evaluator.wf(),
            final(self).evaluator.modules == old(self).evaluator.modules,
            ({
                let out = run_phrases_model(
                    program.exprs.deep_view(),
                    0,
                    old(self).evaluator.global_env@,
                    old(self).evaluator.modules.deep_view(),
                );
                &&& final(self).evaluator.global_env@ == out.env
                &&& (match out.res {
                    Ok(vs) => r matches Ok(rv) && rv.deep_view() == vs,
                    Err(k) => r matches Err(e) && e@ == k,
                })
            }),
    {
        let ghost st0 = old(self).evaluator.global_env@;
        let ghost msv = old(self).evaluator.modules.deep_view();
        let ghost es = program.exprs.deep_view();
        let mut out: Vec<Value> = Vec::new();
        let mut i: usize = 0;
        while i < program.exprs.len()
            invariant
                self.evaluator.wf(),
                self.evaluator.modules == old(self).evaluator.modules,
                self.evaluator.modules.deep_view() == msv,
                old(self).evaluator.global_env@ == st0,
                old(self).evaluator.modules.deep_view() == msv,
                i <= program.exprs@.len(),
                es == program.exprs.deep_view(),
                ({
                    let rest = run_phrases_model(es, i as int, self.evaluator.global_env@, msv);
                    let all = run_phrases_model(es, 0, st0, msv);
                    &&& all.env == rest.env
                    &&& (match rest.res {
                        Ok(vs) => all.res matches Ok(avs) && avs == out.deep_view() + vs,
                        Err(k) => all.res matches Err(ak) && ak == k,
                    })
                }),
            decreases program.exprs@.len() - i,
        {
            let ghost pre = self.evaluator.global_env@;
            let ghost outv = out.deep_view();
            proof {
                lemma_run_phrases_step(es, i as int, pre, msv);
                assert(program.exprs.deep_view()[i as int] == program.exprs@[i as int]@);
            }
            match self.evaluator.eval(&program.exprs[i]) {
                Ok(v) => {
                    out.push(v);
                    proof {
                        let m = eval_model(es[i as int], 0, pre, msv, DEFAULT_FUEL as nat);
                        assert(self.evaluator.global_env@ == clear_root(m.env));
                        let rest2 = run_phrases_model(es, i + 1, self.evaluator.global_env@, msv);
                        if rest2.res is Ok {
                            assert(outv + (seq![m.res->Ok_0] + rest2.res->Ok_0)
                                =~= out.deep_view() + rest2.res->Ok_0);
                        }
                    }
                },
                Err(e) => {
                    proof {
                        let m = eval_model(es[i as int], 0, pre, msv, DEFAULT_FUEL as nat);
                        assert(m.res is Err);
                        assert(self.evaluator.global_env@ == clear_root(m.env));
                        let rest = run_phrases_model(es, i as int, pre, msv);
                        assert(rest.env == self.evaluator.global_env@);
                        assert(rest.res matches Err(k) && k == e@);
                    }
                    return Err(e);
                },
            }
            i = i + 1;
        }
        proof {
            lemma_run_phrases_nil(es, i as int, self.evaluator.global_env@, msv);
            assert(out.deep_view() + Seq::<ValueModel>::empty() =~= out.deep_view());
        }
        Ok(out)
    }

    /// Converts and registers a host value under a name; a failed
    /// conversion is returned and binds nothing.
    pub fn register_external_value<T: IntoSteelVal>(&mut self, name: &str, value: T) -> (r: Result<
        (),
        SteelErr,
    >)
        requires
            old(self).evaluator.wf(),
        ensures
            final(self).evaluator.wf(),
            (match value.into_spec() {
                Ok(v) => r is Ok && final(self).evaluator.global_env@ == old(
                    self,
                ).evaluator.global_env@.define_at(0, name@, v),
                Err(k) => r matches Err(e) && e@ == k && *final(self) == *old(self),
            }),
            final(self).evaluator.modules == old(self).evaluator.modules,
    {
        let converted = match value.into_steelval() {
            Ok(v) => v,
            Err(e) => {
                return Err(e);
            },
        };
        self.register_value(name, converted);
        Ok(())
    }

    /// Binds a value under a name in the root frame.
    pub fn register_value(&mut self, name: &str, value: Value)
        requires
            old(self).evaluator.wf(),
        ensures
            final(self).evaluator.wf(),
            final(self).evaluator.global_env@ == old(self).evaluator.global_env@.define_at(
                0,
                name@,
                value@,
            ),
            final(self).evaluator.modules == old(self).evaluator.modules,
            final(self).evaluator.intern_cache == old(self).evaluator.intern_cache,
    {
        self.evaluator.insert_binding(name.to_owned(), value);
    }

    /// Binds each name/value pair in order: a later pair for the same
    /// name wins.
    pub fn register_values(&mut self, values: Vec<(String, Value)>)
        requires
            old(self).evaluator.wf(),
        ensures
            final(self).evaluator.wf(),
            final(self).evaluator.global_env@ == define_all(
                old(self).evaluator.global_env@,
                values.deep_view(),
                0,
            ),
            final(self).evaluator.modules == old(self).evaluator.modules,
    {
        self.evaluator.insert_bindings(values);
    }

    /// Registers the predicate testing for the kind of `T`: applied to one
    /// argument it returns whether the value is of that kind.
    pub fn register_type<T: FromSteelVal>(&mut self, predicate_name: &str)
        requires
            old(self).evaluator.wf(),
        ensures
            final(self).evaluator.wf(),
            final(self).evaluator.global_env@ == old(self).evaluator.global_env@.define_at(
                0,
                predicate_name@,
                ValueModel::Func(Prim::KindPred(T::kind_spec())),
            ),
            final(self).evaluator.modules == old(self).evaluator.modules,
    {
        let kind = T::value_kind();
        self.register_value(predicate_name, Value::FuncV(Prim::KindPred(kind)));
    }

    /// Reads the value bound to a name in the root scope.
    pub fn extract_value(&mut self, name: &str) -> (r: Result<Value, SteelErr>)
        requires
            old(self).evaluator.wf(),
        ensures
            *final(self) == *old(self),
            (match lookup_model(old(self).evaluator.global_env@, 0, name@) {
                Some(v) => r matches Ok(rv) && rv@ == v,
                None => r matches Err(e) && e@ == ErrorKind::FreeIdentifier,
            }),
    {
        let owned = name.to_owned();
        self.evaluator.lookup_binding(&owned)
    }

    /// Reads and converts the value bound to a name: it succeeds exactly
    /// when the name is bound to a value of the type's kind.
    pub fn extract<T: FromSteelVal>(&mut self, name: &str) -> (r: Result<T, SteelErr>)
        requires
            old(self).evaluator.wf(),
        ensures
            *final(self) == *old(self),
            (match lookup_model(old(self).evaluator.global_env@, 0, name@) {
                None => r matches Err(e) && e@ == ErrorKind::FreeIdentifier,
                Some(v) => {
                    &&& (r is Ok <==> kind_of(v) == T::kind_spec())
                    &&& (r matches Err(e) ==> e@ == ErrorKind::TypeMismatch)
                },
            }),
    {
        let v = match self.extract_value(name) {
            Ok(v) => v,
            Err(e) => {
                return Err(e);
            },
        };
        T::from_steelval(&v)
    }

    /// Compiles and runs source, returning the value of every phrase.
    pub fn run(&mut self, expr: &str) -> (r: Result<Vec<Value>, SteelErr>)
        requires
            old(self).evaluator.wf(),
        ensures
            final(self).evaluator.wf(),
            final(self).evaluator.modules == old(self).evaluator.modules,
            ({
                let out = run_source_model(
                    expr@,
                    old(self).evaluator.global_env@,
                    old(self).evaluator.modules.deep_view(),
                );
                &&& final(self).evaluator.global_env@ == out.env
                &&& (match out.res {
                    Ok(vs) => r matches Ok(rv) && rv.deep_view() == vs,
                    Err(k) => r matches Err(e) && e@ == k,
                })
            }),
    {
        let program = match Engine::compile(expr) {
            Ok(p) => p,
            Err(e) => {
                return Err(e);
            },
        };
        self.execute_program(program)
    }

    /// Compiles and runs source; the path names the source for
    /// diagnostics only.
    pub fn run_with_path(&mut self, expr: &str, path: &str) -> (r: Result<Vec<Value>, SteelErr>)
        requires
            old(self).evaluator.wf(),
        ensures
            final(self).evaluator.wf(),
            final(self).evaluator.modules == old(self).evaluator.modules,
            ({
                let out = run_source_model(
                    expr@,
                    old(self).evaluator.global_env@,
                    old(self).evaluator.modules.deep_view(),
                );
                &&& final(self).evaluator.global_env@ == out.env
                &&& (match out.res {
                    Ok(vs) => r matches Ok(rv) && rv.deep_view() == vs,
                    Err(k) => r matches Err(e) && e@ == k,
                })
            }),
    {
        let _ = path;
        self.run(expr)
    }

    /// Compiles and runs source without the optimisation pass.
    pub fn parse_and_execute_without_optimizations(&mut self, expr: &str) -> (r: Result<
        Vec<Value>,
        SteelErr,
    >)
        requires
            old(self).evaluator.wf(),
        ensures
            final(self).evaluator.wf(),
            final(self).evaluator.modules == old(self).evaluator.modules,
            ({
                let out = run_source_model(
                    expr@,
                    old(self).evaluator.global_env@,
                    old(self).evaluator.modules.deep_view(),
                );
                &&& final(self).evaluator.global_env@ == out.env
                &&& (match out.res {
                    Ok(vs) => r matches Ok(rv) && rv.deep_view() == vs,
                    Err(k) => r matches Err(e) && e@ == k,
                })
            }),
    {
        self.run(expr)
    }

    /// Compiles and runs source.
    pub fn parse_and_execute(&mut self, expr: &str) -> (r: Result<Vec<Value>, SteelErr>)
        requires
            old(self).evaluator.wf(),
        ensures
            final(self).evaluator.wf(),
            final(self).evaluator.modules == old(self).evaluator.modules,
            ({
                let out = run_source_model(
                    expr@,
                    old(self).evaluator.global_env@,
                    old(self).evaluator.modules.deep_view(),
                );
                &&& final(self).evaluator.global_env@ == out.env
                &&& (match out.res {
                    Ok(vs) => r matches Ok(rv) && rv.deep_view() == vs,
                    Err(k) => r matches Err(e) && e@ == k,
                })
            }),
    {
        self.parse_and_execute_without_optimizations(expr)
    }

    /// Compiles and runs source through the optimisation pass: the
    /// rewriting passes run once more over the compiled phrases before
    /// evaluation.
    pub fn parse_and_execute_with_optimizations(&mut self, expr: &str, path: &str) -> (r: Result<
        Vec<Value>,
        SteelErr,
    >)
        requires
            old(self).evaluator.wf(),
        ensures
            final(self).evaluator.wf(),
            final(self).evaluator.modules == old(self).evaluator.modules,
            (match compile_model(expr@) {
                Err(k) => r matches Err(e) && e@ == k && final(self).evaluator.global_env@ == old(
                    self,
                ).evaluator.global_env@,
                Ok(cs) => match compile_phrases(cs, 0) {
                    Err(k) => r matches Err(e) && e@ == k && final(self).evaluator.global_env@
                        == old(self).evaluator.global_env@,
                    Ok(cs2) => ({
                        let out = run_phrases_model(
                            cs2,
                            0,
                            old(self).evaluator.global_env@,
                            old(self).evaluator.modules.deep_view(),
                        );
                        &&& final(self).evaluator.global_env@ == out.env
                        &&& (match out.res {
                            Ok(vs) => r matches Ok(rv) && rv.deep_view() == vs,
                            Err(k) => r matches Err(e) && e@ == k,
                        })
                    }),
                },
            }),
    {
        let program = match Engine::compile(expr) {
            Ok(p) => p,
            Err(e) => {
                let _ = path;
                return Err(e);
            },
        };
        let optimized = match Engine::optimize_exprs(program.exprs) {
            Ok(es) => es,
            Err(e) => {
                return Err(e);
            },
        };
        self.execute_program(Program { exprs: optimized })
    }

    /// The optimisation pass over compiled phrases: a further run of the
    /// rewriting passes.
    pub fn optimize_exprs(exprs: Vec<Expr>) -> (r: Result<Vec<Expr>, SteelErr>)
        ensures
            (match crate::rewriter::compile_phrases(exprs.deep_view(), 0) {
                Ok(cs) => r matches Ok(v) && v.deep_view() == cs,
                Err(k) => r matches Err(e) && e@ == k,
            }),
    {
        flatten_begins_and_expand_defines(&exprs)
    }

    /// Registers a module's source under a path for `require`: the
    /// phrases run in a fresh frame, which is registered on success.
    pub fn register_module(&mut self, path: &str, source: &str) -> (r: Result<(), SteelErr>)
        requires
            old(self).evaluator.wf(),
        ensures
            final(self).evaluator.wf(),
            (match compile_model(source@) {
                Err(k) => r matches Err(e) && e@ == k && final(self).evaluator.global_env@ == old(
                    self,
                ).evaluator.global_env@ && final(self).evaluator.modules == old(
                    self,
                ).evaluator.modules,
                Ok(cs) => ({
                    let f = old(self).evaluator.global_env@.frames.len() as int;
                    let out = mod_phrases_model(
                        cs,
                        0,
                        old(self).evaluator.global_env@.push_frame(0),
                        f,
                        old(self).evaluator.modules.deep_view(),
                    );
                    &&& final(self).evaluator.global_env@ == out.env
                    &&& (match out.err {
                        Some(k) => r matches Err(e) && e@ == k && final(self).evaluator.modules
                            == old(self).evaluator.modules,
                        None => r is Ok && final(self).evaluator.modules.deep_view() == old(
                            self,
                        ).evaluator.modules.deep_view().push((path@, f as usize)),
                    })
                }),
            }),
    {
        self.evaluator.register_module(path.to_owned(), source)
    }
}

} // verus!
