//! The abstract syntax: tokens and expressions, with their mathematical views.
//!
//! An expression is either a leaf atom holding one token or a sequence of
//! sub-expressions. Identifiers compare by textual equality; the reserved
//! words are ordinary identifier tokens recognised by spelling.

use vstd::prelude::*;

verus! {

broadcast use vstd::seq::group_seq_axioms, vstd::std_specs::vec::group_vec_axioms;

/// A lexical token. Reserved words are carried as `Identifier` tokens and
/// recognised by their spelling.
#[derive(Debug)]
pub enum Token {
    Identifier(String),
    BooleanLiteral(bool),
    IntegerLiteral(i64),
    CharacterLiteral(char),
    StringLiteral(String),
}

/// The mathematical view of a token: strings become character sequences.
#[verifier::ext_equal]
pub enum TokenModel {
    Identifier(Seq<char>),
    BooleanLiteral(bool),
    IntegerLiteral(i64),
    CharacterLiteral(char),
    StringLiteral(Seq<char>),
}

impl View for Token {
    type V = TokenModel;

    open spec fn view(&self) -> TokenModel {
        match self {
            Token::Identifier(s) => TokenModel::Identifier(s@),
            Token::BooleanLiteral(b) => TokenModel::BooleanLiteral(*b),
            Token::IntegerLiteral(n) => TokenModel::IntegerLiteral(*n),
            Token::CharacterLiteral(c) => TokenModel::CharacterLiteral(*c),
            Token::StringLiteral(s) => TokenModel::StringLiteral(s@),
        }
    }
}

/// An AST node: a leaf atom or a parenthesised sequence.
#[derive(Debug)]
pub enum Expr {
    Atom(Token),
    VectorVal(Vec<Expr>),
}

impl Clone for Token {
    /// Cloning preserves the token's view.
    fn clone(&self) -> (r: Self)
        ensures
            r@ == self@,
    {
        match self {
            Token::Identifier(s) => Token::Identifier(s.clone()),
            Token::BooleanLiteral(b) => Token::BooleanLiteral(*b),
            Token::IntegerLiteral(n) => Token::IntegerLiteral(*n),
            Token::CharacterLiteral(c) => Token::CharacterLiteral(*c),
            Token::StringLiteral(s) => Token::StringLiteral(s.clone()),
        }
    }
}

/// Deep copy of an expression; the copy has the same view.
pub fn clone_expr(e: &Expr) -> (r: Expr)
    ensures
        r@ == e@,
    decreases esize(e@),
{
    match e {
        Expr::Atom(t) => Expr::Atom(t.clone()),
        Expr::VectorVal(l) => {
            proof {
                assert(*e == Expr::VectorVal(*l));
            }
            let mut out: Vec<Expr> = Vec::new();
            let mut i: usize = 0;
            while i < l.len()
                invariant
                    *e == Expr::VectorVal(*l),
                    i <= l@.len(),
                    out@.len() == i as int,
                    forall|j: int| 0 <= j < i as int ==> #[trigger] out@[j]@ == l@[j]@,
                decreases l@.len() - i,
            {
                proof {
                    lemma_vector_val_view(*l);
                    if let ExprModel::List(m) = e@ {
                        lemma_esize_seq_elem(m, i as int);
                    }
                }
                let c = clone_expr(&l[i]);
                out.push(c);
                i = i + 1;
            }
            proof {
                lemma_vector_val_view(out);
                lemma_vector_val_view(*l);
                if let (ExprModel::List(a), ExprModel::List(b)) = (Expr::VectorVal(out)@, e@) {
                    assert forall|j: int| 0 <= j < a.len() implies a[j] == b[j] by {
                        assert(out@[j]@ == l@[j]@);
                    }
                    assert(a =~= b);
                }
            }
            Expr::VectorVal(out)
        },
    }
}

impl Clone for Expr {
    /// Cloning preserves the expression's view.
    fn clone(&self) -> (r: Self)
        ensures
            r@ == self@,
    {
        clone_expr(self)
    }
}

/// The mathematical view of an expression.
#[verifier::ext_equal]
pub enum ExprModel {
    Atom(TokenModel),
    List(Seq<ExprModel>),
}

/// The views of the first `n` expressions of a sequence, in order.
pub open spec fn view_list(l: Seq<Expr>, n: int) -> Seq<ExprModel>
    decreases l, n,
{
    if n <= 0 || n > l.len() {
        Seq::empty()
    } else {
        view_list(l, n - 1).push(l[n - 1]@)
    }
}

impl View for Expr {
    type V = ExprModel;

    open spec fn view(&self) -> ExprModel
        decreases self,
    {
        match self {
            Expr::Atom(t) => ExprModel::Atom(t@),
            Expr::VectorVal(l) => ExprModel::List(view_list(l@, l@.len() as int)),
        }
    }
}

/// `view_list` is the pointwise view of the sequence.
pub proof fn lemma_view_list(l: Seq<Expr>, n: int)
    requires
        0 <= n <= l.len(),
    ensures
        view_list(l, n).len() == n,
        forall|i: int| 0 <= i < n ==> #[trigger] view_list(l, n)[i] == l[i]@,
    decreases n,
{
    if n > 0 {
        lemma_view_list(l, n - 1);
        assert(view_list(l, n) == view_list(l, n - 1).push(l[n - 1]@));
        assert(view_list(l, n).len() == n);
        assert(forall|i: int| 0 <= i < n ==> #[trigger] view_list(l, n)[i] == l[i]@);
    } else {
        assert(view_list(l, n).len() == 0);
    }
}

impl DeepView for Expr {
    type V = ExprModel;

    open spec fn deep_view(&self) -> ExprModel {
        self@
    }
}

/// The view of a list node: elementwise views of its children.
pub broadcast proof fn lemma_vector_val_view(l: Vec<Expr>)
    ensures
        #![trigger Expr::VectorVal(l)@]
        Expr::VectorVal(l)@ == ExprModel::List(l.deep_view()),
        Expr::VectorVal(l)@ matches ExprModel::List(m) && m.len() == l@.len() && (forall|i: int|
            0 <= i < l@.len() ==> m[i] == #[trigger] l@[i]@),
{
    lemma_view_list(l@, l@.len() as int);
    assert(view_list(l@, l@.len() as int) =~= l.deep_view());
}

/// Structural size of an expression model: one per node. Used as a
/// termination measure; every expression has positive size.
pub open spec fn esize(e: ExprModel) -> nat
    decreases e, 0int,
{
    match e {
        ExprModel::Atom(_) => 1,
        ExprModel::List(l) => 1 + esize_prefix(l, l.len() as int),
    }
}

/// Total size of the first `n` elements of a sequence of expression models.
pub open spec fn esize_prefix(es: Seq<ExprModel>, n: int) -> nat
    decreases es, n,
{
    if n <= 0 || n > es.len() {
        0
    } else {
        esize_prefix(es, n - 1) + esize(es[n - 1])
    }
}

/// Total size of a sequence of expression models.
pub open spec fn esize_seq(es: Seq<ExprModel>) -> nat {
    esize_prefix(es, es.len() as int)
}

pub proof fn lemma_esize_pos(e: ExprModel)
    ensures
        esize(e) >= 1,
{
}

/// Each element weighs no more than any prefix that covers it.
pub proof fn lemma_esize_elem_le_prefix(es: Seq<ExprModel>, i: int, n: int)
    requires
        0 <= i < n <= es.len(),
    ensures
        esize(es[i]) <= esize_prefix(es, n),
    decreases n,
{
    if i < n - 1 {
        lemma_esize_elem_le_prefix(es, i, n - 1);
    }
}

/// Each element of a sequence weighs no more than the whole sequence.
pub proof fn lemma_esize_seq_elem(es: Seq<ExprModel>, i: int)
    requires
        0 <= i < es.len(),
    ensures
        esize(es[i]) <= esize_seq(es),
{
    lemma_esize_elem_le_prefix(es, i, es.len() as int);
}

/// A prefix of a tail subrange lines up with a prefix of the whole.
pub proof fn lemma_esize_prefix_offset(es: Seq<ExprModel>, a: int, m: int)
    requires
        0 <= a,
        0 <= m,
        a + m <= es.len(),
    ensures
        esize_prefix(es.subrange(a, es.len() as int), m) + esize_prefix(es, a) == esize_prefix(
            es,
            a + m,
        ),
    decreases m,
{
    if m > 0 {
        lemma_esize_prefix_offset(es, a, m - 1);
        assert(es.subrange(a, es.len() as int)[m - 1] == es[a + m - 1]);
    }
}

/// Splitting off the first `a` elements splits the size.
pub proof fn lemma_esize_seq_split(es: Seq<ExprModel>, a: int)
    requires
        0 <= a <= es.len(),
    ensures
        esize_seq(es.subrange(a, es.len() as int)) + esize_prefix(es, a) == esize_seq(es),
        esize_seq(es.subrange(a, es.len() as int)) <= esize_seq(es),
{
    lemma_esize_prefix_offset(es, a, es.len() - a);
}

impl Expr {
    /// True when this node is the identifier atom spelled `s`.
    pub open spec fn is_ident_model(self, s: Seq<char>) -> bool {
        match self@ {
            ExprModel::Atom(TokenModel::Identifier(t)) => t == s,
            _ => false,
        }
    }
}

/// True when the model is an identifier atom with the given spelling.
pub open spec fn model_is_ident(e: ExprModel, s: Seq<char>) -> bool {
    match e {
        ExprModel::Atom(TokenModel::Identifier(t)) => t == s,
        _ => false,
    }
}

/// Compares an identifier string against a literal spelling.
pub fn str_eq(a: &String, b: &str) -> (r: bool)
    ensures
        r == (a@ == b@),
{
    let bs: String = b.to_owned();
    a.eq(&bs)
}

/// True when the expression is the identifier atom spelled like `s`.
pub fn expr_is_ident(e: &Expr, s: &str) -> (r: bool)
    ensures
        r == model_is_ident(e@, s@),
{
    match e {
        Expr::Atom(Token::Identifier(t)) => str_eq(t, s),
        _ => false,
    }
}

} // verus!
