//! The runtime value domain: a tagged variant shared by the evaluator and
//! the host facade, with its mathematical view.
//!
//! Proper lists are chains of `Pair` cells terminating in `Void`. Procedures
//! are either built-in primitives (an enum, dispatched by verified code) or
//! user `Lambda` closures capturing a frame of the environment arena.

use vstd::prelude::*;

use crate::ast::{esize, esize_seq, lemma_esize_seq_elem, Expr, ExprModel, TokenModel};

verus! {

broadcast use vstd::seq::group_seq_axioms, vstd::std_specs::vec::group_vec_axioms;

/// The built-in primitive procedures.
#[derive(Debug, Clone, Copy, PartialEq, Eq, Structural)]
pub enum Prim {
    Add,
    Sub,
    Mul,
    Div,
    NumEq,
    Lt,
    Gt,
    Leq,
    Geq,
    ListNew,
    Cons,
    Car,
    Cdr,
    IsNull,
    /// A registered type predicate: true when the argument has the kind.
    KindPred(ValueKind),
}

/// The shape of a value, as tested by registered type predicates.
#[derive(Debug, Clone, Copy, PartialEq, Eq, Structural)]
pub enum ValueKind {
    VoidK,
    BoolK,
    IntK,
    CharK,
    StringK,
    SymbolK,
    PairK,
    FuncK,
    LambdaK,
    MacroK,
    StructK,
}

/// Which frame a closure captured: the root frame is held as an owned
/// reference, an enclosed frame as a back-reference kept alive by the arena.
/// A closure holds exactly one of the two.
#[derive(Debug, Clone, Copy, PartialEq, Eq, Structural)]
pub enum CapturedEnv {
    Owned(usize),
    Enclosed(usize),
}

impl CapturedEnv {
    /// The frame index, whichever way it is held.
    pub open spec fn index(self) -> nat {
        match self {
            CapturedEnv::Owned(i) => i as nat,
            CapturedEnv::Enclosed(i) => i as nat,
        }
    }
}

/// Dispatch tag of a struct accessor closure.
#[derive(Debug, Clone, Copy, PartialEq, Eq, Structural)]
pub enum StructOp {
    Construct,
    Predicate,
    Getter(usize),
    Setter(usize),
}

/// Copy of a vector of strings; the copy has the same deep view.
pub fn clone_strings(v: &Vec<String>) -> (r: Vec<String>)
    ensures
        r.deep_view() == v.deep_view(),
{
    let mut out: Vec<String> = Vec::new();
    let mut i: usize = 0;
    while i < v.len()
        invariant
            i <= v@.len(),
            out@.len() == i as int,
            forall|j: int| 0 <= j < i as int ==> #[trigger] out@[j]@ == v@[j]@,
        decreases v@.len() - i,
    {
        out.push(v[i].clone());
        i = i + 1;
    }
    proof {
        assert(out.deep_view() =~= v.deep_view());
    }
    out
}

/// A record type declaration: its name and field names.
#[derive(Debug)]
pub struct StructDecl {
    pub name: String,
    pub fields: Vec<String>,
}

impl Clone for StructDecl {
    /// Cloning preserves the declaration's view.
    fn clone(&self) -> (r: Self)
        ensures
            r@ == self@,
    {
        StructDecl { name: self.name.clone(), fields: clone_strings(&self.fields) }
    }
}

/// View of a struct declaration.
#[verifier::ext_equal]
pub struct StructDeclModel {
    pub name: Seq<char>,
    pub fields: Seq<Seq<char>>,
}

impl View for StructDecl {
    type V = StructDeclModel;

    open spec fn view(&self) -> StructDeclModel {
        StructDeclModel { name: self.name@, fields: self.fields.deep_view() }
    }
}

/// One rewrite rule of a macro: a pattern and its template.
#[derive(Debug)]
pub struct MacroRule {
    pub pattern: Expr,
    pub template: Expr,
}

impl Clone for MacroRule {
    /// Cloning preserves both sides of the rule.
    fn clone(&self) -> (r: Self)
        ensures
            r.pattern@ == self.pattern@,
            r.template@ == self.template@,
    {
        MacroRule { pattern: self.pattern.clone(), template: self.template.clone() }
    }
}

/// A user macro bound by `define-syntax`: its name, the literal identifiers
/// of its `syntax-rules`, and the rewrite rules in order.
#[derive(Debug)]
pub struct SteelMacro {
    pub name: String,
    pub literals: Vec<String>,
    pub rules: Vec<MacroRule>,
}

impl Clone for SteelMacro {
    /// Cloning preserves the macro's view.
    fn clone(&self) -> (r: Self)
        ensures
            r@ == self@,
    {
        let mut rules: Vec<MacroRule> = Vec::new();
        let mut i: usize = 0;
        while i < self.rules.len()
            invariant
                i <= self.rules@.len(),
                rules@.len() == i as int,
                forall|j: int| 0 <= j < i as int ==> #[trigger] rules@[j].pattern@
                    == self.rules@[j].pattern@ && rules@[j].template@ == self.rules@[j].template@,
            decreases self.rules@.len() - i,
        {
            rules.push(self.rules[i].clone());
            i = i + 1;
        }
        let r = SteelMacro {
            name: self.name.clone(),
            literals: clone_strings(&self.literals),
            rules,
        };
        proof {
            assert(r@.rules =~= self@.rules);
        }
        r
    }
}

/// View of a macro: rules as pairs of expression models.
#[verifier::ext_equal]
pub struct MacroModel {
    pub name: Seq<char>,
    pub literals: Seq<Seq<char>>,
    pub rules: Seq<(ExprModel, ExprModel)>,
}

impl View for SteelMacro {
    type V = MacroModel;

    open spec fn view(&self) -> MacroModel {
        MacroModel {
            name: self.name@,
            literals: self.literals.deep_view(),
            rules: Seq::new(self.rules@.len(), |i: int| (self.rules@[i].pattern@, self.rules@[i].template@)),
        }
    }
}

/// A user-defined procedure: parameter names, body, and the captured frame.
#[derive(Debug)]
pub struct SteelLambda {
    pub params: Vec<String>,
    pub body: Expr,
    pub captured: CapturedEnv,
}

impl Clone for SteelLambda {
    /// Cloning preserves the closure's view.
    fn clone(&self) -> (r: Self)
        ensures
            r@ == self@,
    {
        SteelLambda {
            params: clone_strings(&self.params),
            body: self.body.clone(),
            captured: self.captured,
        }
    }
}

/// View of a closure.
#[verifier::ext_equal]
pub struct LambdaModel {
    pub params: Seq<Seq<char>>,
    pub body: ExprModel,
    pub captured: CapturedEnv,
}

impl View for SteelLambda {
    type V = LambdaModel;

    open spec fn view(&self) -> LambdaModel {
        LambdaModel { params: self.params.deep_view(), body: self.body@, captured: self.captured }
    }
}

impl SteelLambda {
    /// Builds a closure from its parts.
    pub fn new(params: Vec<String>, body: Expr, captured: CapturedEnv) -> (r: SteelLambda)
        ensures
            r@.params == params.deep_view(),
            r@.body == body@,
            r@.captured == captured,
    {
        SteelLambda { params, body, captured }
    }

    /// The captured frame when it is the owned root frame.
    pub fn parent_env(&self) -> (r: Option<usize>)
        ensures
            r matches Some(i) ==> self@.captured == CapturedEnv::Owned(i),
            r is None ==> self@.captured is Enclosed,
    {
        match self.captured {
            CapturedEnv::Owned(i) => Some(i),
            CapturedEnv::Enclosed(_) => None,
        }
    }

    /// The captured frame when it is an enclosed (back-referenced) frame.
    pub fn sub_expression_env(&self) -> (r: Option<usize>)
        ensures
            r matches Some(i) ==> self@.captured == CapturedEnv::Enclosed(i),
            r is None ==> self@.captured is Owned,
    {
        match self.captured {
            CapturedEnv::Enclosed(i) => Some(i),
            CapturedEnv::Owned(_) => None,
        }
    }
}

/// A runtime value.
#[derive(Debug)]
pub enum Value {
    /// The printable-void sentinel; also the empty-list terminator.
    Void,
    BoolV(bool),
    IntV(i64),
    CharV(char),
    StringV(String),
    /// A symbol as a data value, distinct from identifier atoms in the AST.
    SymbolV(String),
    /// A cons cell.
    Pair(Box<Value>, Box<Value>),
    /// A built-in primitive procedure.
    FuncV(Prim),
    /// A user-defined procedure.
    LambdaV(SteelLambda),
    /// A first-class macro binding, living in the value namespace.
    MacroV(SteelMacro),
    /// A record constructor.
    StructFactoryV(StructDecl),
    /// A record predicate/accessor/mutator with its dispatch tag.
    StructClosureV(StructDecl, StructOp),
    /// A record instance: the type name and the field values.
    StructV(String, Vec<Value>),
}

/// The mathematical view of a value.
#[verifier::ext_equal]
pub enum ValueModel {
    Void,
    Bool(bool),
    Int(i64),
    Char(char),
    Str(Seq<char>),
    Sym(Seq<char>),
    Pair(Box<ValueModel>, Box<ValueModel>),
    Func(Prim),
    Lambda(LambdaModel),
    Macro(MacroModel),
    StructFactory(StructDeclModel),
    StructClosure(StructDeclModel, StructOp),
    Struct(Seq<char>, Seq<ValueModel>),
}

/// The views of the first `n` values of a sequence, in order.
pub open spec fn vview_list(l: Seq<Value>, n: int) -> Seq<ValueModel>
    decreases l, n,
{
    if n <= 0 || n > l.len() {
        Seq::empty()
    } else {
        vview_list(l, n - 1).push(l[n - 1]@)
    }
}

impl View for Value {
    type V = ValueModel;

    open spec fn view(&self) -> ValueModel
        decreases self,
    {
        match self {
            Value::Void => ValueModel::Void,
            Value::BoolV(b) => ValueModel::Bool(*b),
            Value::IntV(n) => ValueModel::Int(*n),
            Value::CharV(c) => ValueModel::Char(*c),
            Value::StringV(s) => ValueModel::Str(s@),
            Value::SymbolV(s) => ValueModel::Sym(s@),
            Value::Pair(a, d) => ValueModel::Pair(Box::new((**a)@), Box::new((**d)@)),
            Value::FuncV(p) => ValueModel::Func(*p),
            Value::LambdaV(l) => ValueModel::Lambda(l@),
            Value::MacroV(m) => ValueModel::Macro(m@),
            Value::StructFactoryV(d) => ValueModel::StructFactory(d@),
            Value::StructClosureV(d, op) => ValueModel::StructClosure(d@, *op),
            Value::StructV(n, fs) => ValueModel::Struct(n@, vview_list(fs@, fs@.len() as int)),
        }
    }
}

/// `vview_list` is the pointwise view of the sequence.
pub proof fn lemma_vview_list(l: Seq<Value>, n: int)
    requires
        0 <= n <= l.len(),
    ensures
        vview_list(l, n).len() == n,
        forall|i: int| 0 <= i < n ==> #[trigger] vview_list(l, n)[i] == l[i]@,
    decreases n,
{
    if n > 0 {
        lemma_vview_list(l, n - 1);
        assert(vview_list(l, n) == vview_list(l, n - 1).push(l[n - 1]@));
        assert(forall|i: int| 0 <= i < n ==> #[trigger] vview_list(l, n)[i] == l[i]@);
    } else {
        assert(vview_list(l, n).len() == 0);
    }
}

impl DeepView for Value {
    type V = ValueModel;

    open spec fn deep_view(&self) -> ValueModel {
        self@
    }
}

/// The view of a struct value: elementwise views of its fields.
pub broadcast proof fn lemma_struct_v_view(n: String, fs: Vec<Value>)
    ensures
        #![trigger Value::StructV(n, fs)@]
        Value::StructV(n, fs)@ == ValueModel::Struct(n@, fs.deep_view()),
        Value::StructV(n, fs)@ matches ValueModel::Struct(nm, m) && nm == n@ && m.len()
            == fs@.len() && (forall|i: int| 0 <= i < fs@.len() ==> m[i] == #[trigger] fs@[i]@),
{
    lemma_vview_list(fs@, fs@.len() as int);
    assert(vview_list(fs@, fs@.len() as int) =~= fs.deep_view());
}

/// Structural size of a value model, used as a termination measure.
pub open spec fn vsize(v: ValueModel) -> nat
    decreases v, 0int,
{
    match v {
        ValueModel::Pair(a, d) => 1 + vsize(*a) + vsize(*d),
        ValueModel::Struct(_, fs) => 1 + vsize_prefix(fs, fs.len() as int),
        _ => 1,
    }
}

/// Total size of the first `n` elements of a sequence of value models.
pub open spec fn vsize_prefix(vs: Seq<ValueModel>, n: int) -> nat
    decreases vs, n,
{
    if n <= 0 || n > vs.len() {
        0
    } else {
        vsize_prefix(vs, n - 1) + vsize(vs[n - 1])
    }
}

pub proof fn lemma_vsize_seq_elem(vs: Seq<ValueModel>, i: int, n: int)
    requires
        0 <= i < n <= vs.len(),
    ensures
        vsize(vs[i]) <= vsize_prefix(vs, n),
    decreases n,
{
    if i < n - 1 {
        lemma_vsize_seq_elem(vs, i, n - 1);
    }
}

/// Deep copy of a value; the copy has the same view.
pub fn clone_value(v: &Value) -> (r: Value)
    ensures
        r@ == v@,
    decreases vsize(v@),
{
    match v {
        Value::Void => Value::Void,
        Value::BoolV(b) => Value::BoolV(*b),
        Value::IntV(n) => Value::IntV(*n),
        Value::CharV(c) => Value::CharV(*c),
        Value::StringV(s) => Value::StringV(s.clone()),
        Value::SymbolV(s) => Value::SymbolV(s.clone()),
        Value::Pair(a, d) => {
            proof {
                assert(*v == Value::Pair(*a, *d));
            }
            let ca = clone_value(a);
            let cd = clone_value(d);
            Value::Pair(Box::new(ca), Box::new(cd))
        },
        Value::FuncV(p) => Value::FuncV(*p),
        Value::LambdaV(l) => Value::LambdaV(l.clone()),
        Value::MacroV(m) => Value::MacroV(m.clone()),
        Value::StructFactoryV(d) => Value::StructFactoryV(d.clone()),
        Value::StructClosureV(d, op) => Value::StructClosureV(d.clone(), *op),
        Value::StructV(n, fs) => {
            proof {
                assert(*v == Value::StructV(*n, *fs));
            }
            let mut out: Vec<Value> = Vec::new();
            let mut i: usize = 0;
            while i < fs.len()
                invariant
                    *v == Value::StructV(*n, *fs),
                    i <= fs@.len(),
                    out@.len() == i as int,
                    forall|j: int| 0 <= j < i as int ==> #[trigger] out@[j]@ == fs@[j]@,
                decreases fs@.len() - i,
            {
                proof {
                    lemma_struct_v_view(*n, *fs);
                    if let ValueModel::Struct(_, m) = v@ {
                        lemma_vsize_seq_elem(m, i as int, m.len() as int);
                    }
                }
                let c = clone_value(&fs[i]);
                out.push(c);
                i = i + 1;
            }
            let name2 = n.clone();
            proof {
                lemma_struct_v_view(*n, *fs);
                lemma_struct_v_view(name2, out);
            }
            let res = Value::StructV(name2, out);
            proof {
                if let (ValueModel::Struct(_, a), ValueModel::Struct(_, b)) = (res@, v@) {
                    assert forall|j: int| 0 <= j < a.len() implies a[j] == b[j] by {
                        assert(res->StructV_1@[j]@ == fs@[j]@);
                    }
                    assert(a =~= b);
                }
            }
            res
        },
    }
}

impl Clone for Value {
    /// Cloning preserves the value's view.
    fn clone(&self) -> (r: Self)
        ensures
            r@ == self@,
    {
        clone_value(self)
    }
}

/// The truthiness rule: every value but `#f` is truthy.
pub open spec fn truthy(v: ValueModel) -> bool {
    !(v == ValueModel::Bool(false))
}

/// The value a quoted expression denotes: atoms become scalars (identifiers
/// become symbols), sequences become proper lists.
pub open spec fn quote_model(e: ExprModel) -> ValueModel
    decreases esize(e), 0int, 0int,
{
    match e {
        ExprModel::Atom(t) => match t {
            TokenModel::Identifier(s) => ValueModel::Sym(s),
            TokenModel::BooleanLiteral(b) => ValueModel::Bool(b),
            TokenModel::IntegerLiteral(n) => ValueModel::Int(n),
            TokenModel::CharacterLiteral(c) => ValueModel::Char(c),
            TokenModel::StringLiteral(s) => ValueModel::Str(s),
        },
        ExprModel::List(l) => quote_list_model(l, 0),
    }
}

/// The proper list denoted by the tail `l[i..]` of a quoted sequence.
pub open spec fn quote_list_model(l: Seq<ExprModel>, i: int) -> ValueModel
    decreases esize_seq(l), l.len() - i, 1int,
    via quote_list_model_dec
{
    if i < 0 || i >= l.len() {
        ValueModel::Void
    } else {
        ValueModel::Pair(Box::new(quote_model(l[i])), Box::new(quote_list_model(l, i + 1)))
    }
}

#[via_fn]
proof fn quote_list_model_dec(l: Seq<ExprModel>, i: int) {
    if 0 <= i < l.len() {
        lemma_esize_seq_elem(l, i);
    }
}

} // verus!
