//! The source-to-AST rewriting passes run once per phrase before
//! evaluation: begin-flattening, then internal-define lowering.
//!
//! Flattening replaces, inside every `begin`, each directly nested `begin`
//! child by that child's (already flattened) forms, bottom-up, so the
//! result has no `begin` as a direct child of a `begin`. Quoted data and
//! `define-syntax` forms are inert syntax and both passes leave them
//! untouched.
//!
//! The lowering hoists a run of `define` forms inside a procedure body to
//! a recursive binding form: the original names are bound to placeholder
//! literals by an outer lambda, the right-hand sides are evaluated against
//! those now-visible names and bound to fresh `#####`-prefixed names by an
//! inner lambda, and a prefix of `set!` forms rebinds each original name
//! before the trailing body runs. Source text cannot collide with the
//! fresh names: the reader rejects every token that begins with `#`
//! except the boolean and character literals.

use vstd::prelude::*;

use crate::ast::{
    clone_expr, esize, esize_seq, expr_is_ident, lemma_esize_seq_elem, lemma_esize_seq_split,
    lemma_vector_val_view, model_is_ident, Expr, ExprModel, Token, TokenModel,
};
use crate::errors::{ErrorKind, SteelErr};
use crate::parser::dec_seq;

verus! {

broadcast use vstd::seq::group_seq_axioms, vstd::std_specs::vec::group_vec_axioms;

/// Whether the model is a list form whose head is the given keyword.
pub open spec fn is_form(e: ExprModel, kw: Seq<char>) -> bool {
    e matches ExprModel::List(l) && l.len() > 0 && model_is_ident(l[0], kw)
}

/// Whether flattening leaves this node alone: atoms, empty lists, quoted
/// data and macro definitions.
pub open spec fn flatten_inert(e: ExprModel) -> bool {
    match e {
        ExprModel::Atom(_) => true,
        ExprModel::List(l) => l.len() == 0 || model_is_ident(l[0], "quote"@) || model_is_ident(
            l[0],
            "define-syntax"@,
        ),
    }
}

/// The begin-flattening of one expression.
pub open spec fn flatten_model(e: ExprModel) -> ExprModel
    decreases esize(e), 0int, 0int,
    via flatten_model_dec
{
    if flatten_inert(e) {
        e
    } else {
        match e {
            ExprModel::List(l) => {
                if model_is_ident(l[0], "begin"@) {
                    ExprModel::List(seq![l[0]] + splice_model(l, 1))
                } else {
                    ExprModel::List(flatten_children(l, 0))
                }
            },
            _ => e,
        }
    }
}

/// Flattens `l[i..]` elementwise.
pub open spec fn flatten_children(l: Seq<ExprModel>, i: int) -> Seq<ExprModel>
    decreases esize_seq(l), l.len() - i, 0int,
    via flatten_children_dec
{
    if i < 0 || i >= l.len() {
        Seq::empty()
    } else {
        seq![flatten_model(l[i])] + flatten_children(l, i + 1)
    }
}

/// Flattens each of `l[i..]` and splices the forms of those that flatten
/// to a `begin`.
pub open spec fn splice_model(l: Seq<ExprModel>, i: int) -> Seq<ExprModel>
    decreases esize_seq(l), l.len() - i, 0int,
    via splice_model_dec
{
    if i < 0 || i >= l.len() {
        Seq::empty()
    } else {
        let f = flatten_model(l[i]);
        let part = if is_form(f, "begin"@) {
            f->List_0.skip(1)
        } else {
            seq![f]
        };
        part + splice_model(l, i + 1)
    }
}

#[via_fn]
proof fn flatten_model_dec(e: ExprModel) {
    if let ExprModel::List(l) = e {
        assert(esize(e) == 1 + esize_seq(l));
    }
}

#[via_fn]
proof fn flatten_children_dec(l: Seq<ExprModel>, i: int) {
    if 0 <= i < l.len() {
        lemma_esize_seq_elem(l, i);
    }
}

#[via_fn]
proof fn splice_model_dec(l: Seq<ExprModel>, i: int) {
    if 0 <= i < l.len() {
        lemma_esize_seq_elem(l, i);
    }
}

/// A flattened expression: flattening it again changes nothing.
pub open spec fn is_flat(e: ExprModel) -> bool {
    flatten_model(e) == e
}

/// Flatten-begin is idempotent: applying it twice yields the same tree as
/// applying it once. Moreover, when the result is a `begin`, every form
/// after the keyword is itself flat and is not a `begin`, which is the
/// no-nested-`begin` invariant of the pass.
pub proof fn lemma_flatten_idempotent_expr(e: ExprModel)
    ensures
        flatten_model(flatten_model(e)) == flatten_model(e),
        is_form(flatten_model(e), "begin"@) ==> (forall|j: int|
            1 <= j < flatten_model(e)->List_0.len() ==> is_flat(
                #[trigger] flatten_model(e)->List_0[j],
            ) && !is_form(flatten_model(e)->List_0[j], "begin"@)),
    decreases esize(e), 0int, 0int,
{
    reveal_strlit("begin");
    reveal_strlit("quote");
    reveal_strlit("define-syntax");
    assert("begin"@[0] == 'b' && "quote"@[0] == 'q' && "define-syntax"@[0] == 'd');
    assert("begin"@ != "quote"@ && "begin"@ != "define-syntax"@);
    if flatten_inert(e) {
    } else if let ExprModel::List(l) = e {
        if model_is_ident(l[0], "begin"@) {
            let r = seq![l[0]] + splice_model(l, 1);
            lemma_splice_elems(l, 1);
            assert(forall|j: int|
                1 <= j < r.len() ==> r[j] == #[trigger] splice_model(l, 1)[j - 1]);
            lemma_splice_flat(r, 1);
            assert(splice_model(r, 1) =~= r.skip(1));
            assert(seq![r[0]] + r.skip(1) =~= r);
        } else {
            lemma_flatten_children_facts(l, 0);
            let fc = flatten_children(l, 0);
            assert(ExprModel::List(fc) == flatten_model(e));
            assert(fc[0] == flatten_model(l[0]));
            if l[0] is Atom {
                assert(flatten_model(l[0]) == l[0]);
            } else {
                assert(!(flatten_model(l[0]) is Atom));
            }
            assert(!model_is_ident(fc[0], "begin"@));
            assert(!model_is_ident(fc[0], "quote"@));
            assert(!model_is_ident(fc[0], "define-syntax"@));
            assert(flatten_model(ExprModel::List(fc)) == ExprModel::List(
                flatten_children(fc, 0),
            ));
            lemma_children_flat_fix(fc, 0);
            assert(flatten_children(fc, 0) =~= fc.skip(0));
            assert(fc.skip(0) =~= fc);
        }
    }
}

/// Pointwise flattening of already-flat forms changes nothing.
proof fn lemma_children_flat_fix(fc: Seq<ExprModel>, i: int)
    requires
        0 <= i <= fc.len(),
        forall|j: int| 0 <= j < fc.len() ==> is_flat(#[trigger] fc[j]),
    ensures
        flatten_children(fc, i) =~= fc.skip(i),
    decreases fc.len() - i,
{
    if i < fc.len() {
        lemma_children_flat_fix(fc, i + 1);
        assert(flatten_model(fc[i]) == fc[i]);
        assert(fc.skip(i) =~= seq![fc[i]] + fc.skip(i + 1));
    } else {
        assert(fc.skip(i) =~= Seq::<ExprModel>::empty());
    }
}

/// The elements a splice emits are flat and are not `begin` forms.
proof fn lemma_splice_elems(l: Seq<ExprModel>, i: int)
    requires
        1 <= i,
    ensures
        forall|j: int|
            0 <= j < splice_model(l, i).len() ==> is_flat(#[trigger] splice_model(l, i)[j])
                && !is_form(splice_model(l, i)[j], "begin"@),
    decreases esize_seq(l), l.len() - i, 1int,
{
    if i < l.len() {
        lemma_esize_seq_elem(l, i);
        lemma_splice_elems(l, i + 1);
        lemma_flatten_idempotent_expr(l[i]);
        let f = flatten_model(l[i]);
        let part = if is_form(f, "begin"@) {
            f->List_0.skip(1)
        } else {
            seq![f]
        };
        if is_form(f, "begin"@) {
            let fl = f->List_0;
            assert(forall|j: int|
                0 <= j < fl.len() - 1 ==> #[trigger] fl.skip(1)[j] == fl[j + 1]);
        }
        assert(splice_model(l, i) == part + splice_model(l, i + 1));
        assert forall|j: int| 0 <= j < splice_model(l, i).len() implies is_flat(
            #[trigger] splice_model(l, i)[j],
        ) && !is_form(splice_model(l, i)[j], "begin"@) by {
            if j < part.len() {
                assert(splice_model(l, i)[j] == part[j]);
            } else {
                assert(splice_model(l, i)[j] == splice_model(l, i + 1)[j - part.len()]);
            }
        }
    }
}

/// A splice over forms that are already flat non-`begin`s emits them
/// unchanged.
proof fn lemma_splice_flat(r: Seq<ExprModel>, i: int)
    requires
        1 <= i <= r.len(),
        forall|j: int| 1 <= j < r.len() ==> is_flat(#[trigger] r[j]) && !is_form(r[j], "begin"@),
    ensures
        splice_model(r, i) =~= r.skip(i),
    decreases r.len() - i,
{
    if i < r.len() {
        lemma_splice_flat(r, i + 1);
        assert(flatten_model(r[i]) == r[i]);
        assert(splice_model(r, i) =~= seq![r[i]] + splice_model(r, i + 1));
        assert(r.skip(i) =~= seq![r[i]] + r.skip(i + 1));
    } else {
        assert(r.skip(i) =~= Seq::<ExprModel>::empty());
    }
}

/// Pointwise flattening: length, positions, and idempotence of the
/// elements.
proof fn lemma_flatten_children_facts(l: Seq<ExprModel>, i: int)
    requires
        0 <= i,
    ensures
        flatten_children(l, i).len() == if i <= l.len() {
            l.len() - i
        } else {
            0
        },
        forall|j: int|
            0 <= j < flatten_children(l, i).len() ==> #[trigger] flatten_children(l, i)[j]
                == flatten_model(l[i + j]) && is_flat(flatten_children(l, i)[j]),
    decreases esize_seq(l), l.len() - i, 1int,
{
    if i < l.len() {
        lemma_esize_seq_elem(l, i);
        lemma_flatten_children_facts(l, i + 1);
        lemma_flatten_idempotent_expr(l[i]);
    }
}


/// An identifier atom model.
pub open spec fn ident_model(s: Seq<char>) -> ExprModel {
    ExprModel::Atom(TokenModel::Identifier(s))
}

/// Whether the form is a `define`.
pub open spec fn is_define_form(e: ExprModel) -> bool {
    is_form(e, "define"@)
}

/// The name a `define` binds and the expression producing its value: for
/// `(define x e)` the pair `(x, e)`; for `(define (f ps...) body...)` the
/// pair `(f, (lambda (ps...) body...))`. Anything else is the malformed
/// define block error.
pub open spec fn define_parts(e: ExprModel) -> Result<(Seq<char>, ExprModel), ErrorKind> {
    match e {
        ExprModel::List(l) => {
            if l.len() == 3 && (l[1] matches ExprModel::Atom(TokenModel::Identifier(_))) {
                Ok((l[1]->Atom_0->Identifier_0, l[2]))
            } else if l.len() >= 3 && (l[1] matches ExprModel::List(ids) && ids.len() >= 1
                && (ids[0] matches ExprModel::Atom(TokenModel::Identifier(_)))) {
                Ok(
                    (
                        l[1]->List_0[0]->Atom_0->Identifier_0,
                        ExprModel::List(
                            seq![ident_model("lambda"@), ExprModel::List(l[1]->List_0.skip(1))]
                                + l.skip(2),
                        ),
                    ),
                )
            } else {
                Err(ErrorKind::BadSyntax)
            }
        },
        _ => Err(ErrorKind::BadSyntax),
    }
}

/// The fresh name for the define at block position `i` binding `name`.
pub open spec fn fresh_name(name: Seq<char>, i: int) -> Seq<char> {
    "#####"@ + name + dec_seq(i as nat)
}

/// The dummy name for the interleaved expression at block position `i`.
pub open spec fn dummy_name(i: int) -> Seq<char> {
    "#####define-conversion"@ + dec_seq(i as nat)
}

/// Whether any of `cs[i..]` is a `define` form.
pub open spec fn has_define(cs: Seq<ExprModel>, i: int) -> bool {
    exists|j: int| i <= j < cs.len() && is_define_form(#[trigger] cs[j])
}

/// The greatest index of a `define` form in `cs`.
pub open spec fn last_define(cs: Seq<ExprModel>) -> int
    decreases cs.len(),
{
    if cs.len() == 0 {
        -1
    } else if is_define_form(cs.last()) {
        cs.len() - 1
    } else {
        last_define(cs.drop_last())
    }
}


/// The defines-only hard error does not apply: either a form follows the
/// last define, or some block member is not a define.
pub open spec fn block_has_expression(cs: Seq<ExprModel>, k: int) -> bool {
    k < cs.len() - 1 || exists|j: int| 0 <= j < cs.len() && !is_define_form(#[trigger] cs[j])
}

/// The per-position pieces of the lowered block, for `prefix[i..]`:
/// outer-lambda parameters (original names and dummies), inner-lambda
/// parameters (fresh names and dummies), the argument expressions, the
/// `set!` prefix, and one placeholder literal per position.
pub struct BlockParts {
    pub outer: Seq<ExprModel>,
    pub inner: Seq<ExprModel>,
    pub args: Seq<ExprModel>,
    pub sets: Seq<ExprModel>,
    pub dummies: Seq<ExprModel>,
}

pub open spec fn build_parts(prefix: Seq<ExprModel>, i: int) -> Result<BlockParts, ErrorKind>
    decreases prefix.len() - i,
{
    if i < 0 || i >= prefix.len() {
        Ok(
            BlockParts {
                outer: Seq::empty(),
                inner: Seq::empty(),
                args: Seq::empty(),
                sets: Seq::empty(),
                dummies: Seq::empty(),
            },
        )
    } else {
        let rest = build_parts(prefix, i + 1);
        match rest {
            Ok(r) => {
                if is_define_form(prefix[i]) {
                    match define_parts(prefix[i]) {
                        Ok((name, rhs)) => Ok(
                            BlockParts {
                                outer: seq![ident_model(name)] + r.outer,
                                inner: seq![ident_model(fresh_name(name, i))] + r.inner,
                                args: seq![rhs] + r.args,
                                sets: seq![
                                    ExprModel::List(
                                        seq![
                                            ident_model("set!"@),
                                            ident_model(name),
                                            ident_model(fresh_name(name, i)),
                                        ],
                                    ),
                                ] + r.sets,
                                dummies: seq![
                                    ExprModel::Atom(TokenModel::IntegerLiteral(123)),
                                ] + r.dummies,
                            },
                        ),
                        Err(k) => Err(k),
                    }
                } else {
                    Ok(
                        BlockParts {
                            outer: seq![ident_model(dummy_name(i))] + r.outer,
                            inner: seq![ident_model(dummy_name(i))] + r.inner,
                            args: seq![prefix[i]] + r.args,
                            sets: r.sets,
                            dummies: seq![ExprModel::Atom(TokenModel::IntegerLiteral(123))]
                                + r.dummies,
                        },
                    )
                }
            },
            Err(k) => Err(k),
        }
    }
}

/// The letrec-shaped application replacing a lowered block: the outer
/// lambda of the original names applied to placeholders; its body the
/// inner lambda of the fresh names applied to the right-hand sides; the
/// inner body the `set!` prefix followed by the trailing forms.
pub open spec fn assemble_block(parts: BlockParts, trailing: Seq<ExprModel>) -> ExprModel {
    let inner_body = ExprModel::List(seq![ident_model("begin"@)] + parts.sets + trailing);
    let inner_lambda = ExprModel::List(
        seq![ident_model("lambda"@), ExprModel::List(parts.inner), inner_body],
    );
    let inner_app = ExprModel::List(seq![inner_lambda] + parts.args);
    let outer_lambda = ExprModel::List(
        seq![ident_model("lambda"@), ExprModel::List(parts.outer), inner_app],
    );
    ExprModel::List(seq![outer_lambda] + parts.dummies)
}

/// Lowers one (already converted) block of body forms. A block without
/// defines is unchanged; a block of only defines is the malformed define
/// block error; otherwise the block becomes the single letrec-shaped
/// application. The flag says whether lowering happened.
pub open spec fn lower_block(cs: Seq<ExprModel>) -> Result<(Seq<ExprModel>, bool), ErrorKind> {
    if !has_define(cs, 0) {
        Ok((cs, false))
    } else {
        let k = last_define(cs);
        if k == cs.len() - 1 && !(exists|j: int|
            0 <= j < cs.len() && !is_define_form(#[trigger] cs[j])) {
            Err(ErrorKind::BadSyntax)
        } else {
            match build_parts(cs.take(k + 1), 0) {
                Ok(parts) => Ok((seq![assemble_block(parts, cs.skip(k + 1))], true)),
                Err(kk) => Err(kk),
            }
        }
    }
}

/// The internal-define lowering of one expression. Lambda bodies (and the
/// bodies of function defines) are converted one level deeper; a `begin`
/// at depth zero is left alone; quoted data and macro definitions are
/// inert.
pub open spec fn convert_defines_model(e: ExprModel, depth: nat) -> Result<ExprModel, ErrorKind>
    decreases esize(e), 0int, 3int,
    via convert_defines_model_dec
{
    match e {
        ExprModel::Atom(_) => Ok(e),
        ExprModel::List(l) => {
            if l.len() == 0 || model_is_ident(l[0], "quote"@) || model_is_ident(
                l[0],
                "define-syntax"@,
            ) {
                Ok(e)
            } else if model_is_ident(l[0], "lambda"@) && l.len() >= 3 {
                match convert_block_model(l.skip(2), (depth + 1) as nat) {
                    Ok((block, _)) => Ok(ExprModel::List(seq![l[0], l[1]] + block)),
                    Err(k) => Err(k),
                }
            } else if model_is_ident(l[0], "define"@) && l.len() >= 3 && l[1] is List {
                match convert_block_model(l.skip(2), (depth + 1) as nat) {
                    Ok((block, _)) => Ok(ExprModel::List(seq![l[0], l[1]] + block)),
                    Err(k) => Err(k),
                }
            } else if model_is_ident(l[0], "begin"@) {
                if depth == 0 {
                    Ok(e)
                } else {
                    match convert_block_model(l.skip(1), depth) {
                        Ok((block, lowered)) => if lowered {
                            Ok(block[0])
                        } else {
                            Ok(ExprModel::List(seq![l[0]] + block))
                        },
                        Err(k) => Err(k),
                    }
                }
            } else {
                match conv_each(l, 0, depth) {
                    Ok(cs) => Ok(ExprModel::List(cs)),
                    Err(k) => Err(k),
                }
            }
        },
    }
}

/// Converts `l[i..]` elementwise at the given depth.
pub open spec fn conv_each(l: Seq<ExprModel>, i: int, depth: nat) -> Result<
    Seq<ExprModel>,
    ErrorKind,
>
    decreases esize_seq(l), l.len() - i, 1int,
    via conv_each_dec
{
    if i < 0 || i >= l.len() {
        Ok(Seq::empty())
    } else {
        match convert_defines_model(l[i], depth) {
            Ok(c) => match conv_each(l, i + 1, depth) {
                Ok(rest) => Ok(seq![c] + rest),
                Err(k) => Err(k),
            },
            Err(k) => Err(k),
        }
    }
}

/// Converts a block of body forms elementwise, then lowers it.
pub open spec fn convert_block_model(fs: Seq<ExprModel>, depth: nat) -> Result<
    (Seq<ExprModel>, bool),
    ErrorKind,
>
    decreases esize_seq(fs), fs.len(), 2int,
{
    match conv_each(fs, 0, depth) {
        Ok(cs) => lower_block(cs),
        Err(k) => Err(k),
    }
}

#[via_fn]
proof fn convert_defines_model_dec(e: ExprModel, depth: nat) {
    if let ExprModel::List(l) = e {
        assert(esize(e) == 1 + esize_seq(l));
        if l.len() >= 1 {
            lemma_esize_seq_split(l, 1);
        }
        if l.len() >= 2 {
            lemma_esize_seq_split(l, 2);
        }
    }
}

#[via_fn]
proof fn conv_each_dec(l: Seq<ExprModel>, i: int, depth: nat) {
    if 0 <= i < l.len() {
        lemma_esize_seq_elem(l, i);
    }
}

/// The begin-flattening pass.
pub struct FlattenBegin {}

impl FlattenBegin {
    /// Flattens one expression bottom-up.
    pub fn flatten(expr: &Expr) -> (r: Expr)
        ensures
            r@ == flatten_model(expr@),
        decreases esize(expr@),
    {
        match expr {
            Expr::Atom(_) => clone_expr(expr),
            Expr::VectorVal(l) => {
                proof {
                    assert(*expr == Expr::VectorVal(*l));
                    lemma_vector_val_view(*l);
                }
                let ghost lm = l.deep_view();
                if l.len() == 0 || expr_is_ident(&l[0], "quote") || expr_is_ident(
                    &l[0],
                    "define-syntax",
                ) {
                    return clone_expr(expr);
                }
                if expr_is_ident(&l[0], "begin") {
                    let mut out: Vec<Expr> = Vec::new();
                    out.push(clone_expr(&l[0]));
                    let ghost mut done: Seq<ExprModel> = Seq::empty();
                    let mut i: usize = 1;
                    proof {
                        assert(out.deep_view() =~= seq![lm[0]] + done);
                    }
                    while i < l.len()
                        invariant
                            expr@ == ExprModel::List(lm),
                            lm == l.deep_view(),
                            lm.len() == l@.len(),
                            lm.len() > 0,
                            1 <= i as int <= lm.len(),
                            out.deep_view() =~= seq![lm[0]] + done,
                            done + splice_model(lm, i as int) =~= splice_model(lm, 1),
                        decreases lm.len() - i,
                    {
                        proof {
                            lemma_esize_seq_elem(lm, i as int);
                            assert(lm[i as int] == l@[i as int]@);
                        }
                        let f = FlattenBegin::flatten(&l[i]);
                        let ghost fm = f@;
                        let ghost pre = out.deep_view();
                        let mut is_begin_form = false;
                        if let Expr::VectorVal(fl) = &f {
                            proof {
                                assert(f == Expr::VectorVal(*fl));
                                lemma_vector_val_view(*fl);
                            }
                            if fl.len() > 0 && expr_is_ident(&fl[0], "begin") {
                                is_begin_form = true;
                                let mut k: usize = 1;
                                while k < fl.len()
                                    invariant
                                        fm == ExprModel::List(fl.deep_view()),
                                        fl.deep_view().len() == fl@.len(),
                                        1 <= k as int <= fl@.len(),
                                        out.deep_view() =~= pre + fl.deep_view().subrange(
                                            1,
                                            k as int,
                                        ),
                                    decreases fl@.len() - k,
                                {
                                    let ghost p2 = out.deep_view();
                                    out.push(clone_expr(&fl[k]));
                                    proof {
                                        assert(out.deep_view() =~= p2.push(
                                            fl.deep_view()[k as int],
                                        ));
                                        assert(pre + fl.deep_view().subrange(1, k as int + 1)
                                            =~= p2.push(fl.deep_view()[k as int]));
                                    }
                                    k = k + 1;
                                }
                                proof {
                                    assert(fl.deep_view().subrange(1, fl@.len() as int)
                                        =~= fm->List_0.skip(1));
                                    done = done + fm->List_0.skip(1);
                                    assert(out.deep_view() =~= seq![lm[0]] + done);
                                }
                            }
                        }
                        if !is_begin_form {
                            out.push(f);
                            proof {
                                done = done + seq![fm];
                                assert(out.deep_view() =~= pre.push(fm));
                                assert(out.deep_view() =~= seq![lm[0]] + done);
                            }
                        }
                        proof {
                            let part = if is_form(fm, "begin"@) {
                                fm->List_0.skip(1)
                            } else {
                                seq![fm]
                            };
                            assert(splice_model(lm, i as int) == part + splice_model(
                                lm,
                                i as int + 1,
                            ));
                            assert(done + splice_model(lm, i as int + 1) =~= splice_model(lm, 1));
                        }
                        i = i + 1;
                    }
                    proof {
                        assert(splice_model(lm, lm.len() as int) =~= Seq::<ExprModel>::empty());
                        assert(done =~= splice_model(lm, 1));
                    }
                    let r = Expr::VectorVal(out);
                    proof {
                        lemma_vector_val_view(r->VectorVal_0);
                        if let ExprModel::List(m) = r@ {
                            assert(m =~= seq![lm[0]] + splice_model(lm, 1));
                        }
                    }
                    r
                } else {
                    let mut out: Vec<Expr> = Vec::new();
                    let mut i: usize = 0;
                    while i < l.len()
                        invariant
                            expr@ == ExprModel::List(lm),
                            lm == l.deep_view(),
                            lm.len() == l@.len(),
                            lm.len() > 0,
                            !model_is_ident(lm[0], "begin"@),
                            !model_is_ident(lm[0], "quote"@),
                            !model_is_ident(lm[0], "define-syntax"@),
                            i <= lm.len(),
                            out@.len() == i as int,
                            forall|j: int|
                                0 <= j < i as int ==> #[trigger] out.deep_view()[j]
                                    == flatten_model(lm[j]),
                        decreases lm.len() - i,
                    {
                        proof {
                            lemma_esize_seq_elem(lm, i as int);
                            assert(lm[i as int] == l@[i as int]@);
                        }
                        let ghost pre = out.deep_view();
                        let f = FlattenBegin::flatten(&l[i]);
                        out.push(f);
                        proof {
                            assert(out.deep_view() =~= pre.push(flatten_model(lm[i as int])));
                        }
                        i = i + 1;
                    }
                    let r = Expr::VectorVal(out);
                    proof {
                        lemma_vector_val_view(r->VectorVal_0);
                        lemma_flatten_children_facts(lm, 0);
                        if let ExprModel::List(m) = r@ {
                            assert(m =~= flatten_children(lm, 0));
                        }
                    }
                    r
                }
            },
        }
    }
}

/// The compilation of one phrase: begin-flattening, then internal-define
/// lowering at top level.
pub open spec fn compile_phrase(e: ExprModel) -> Result<ExprModel, ErrorKind> {
    convert_defines_model(flatten_model(e), 0)
}

/// The compilation of a phrase list, stopping at the first failure.
pub open spec fn compile_phrases(es: Seq<ExprModel>, i: int) -> Result<Seq<ExprModel>, ErrorKind>
    decreases es.len() - i,
{
    if i < 0 || i >= es.len() {
        Ok(Seq::empty())
    } else {
        match compile_phrase(es[i]) {
            Ok(c) => match compile_phrases(es, i + 1) {
                Ok(rest) => Ok(seq![c] + rest),
                Err(k) => Err(k),
            },
            Err(k) => Err(k),
        }
    }
}

/// One unfolding step of phrase compilation.
proof fn lemma_compile_step(es: Seq<ExprModel>, i: int)
    requires
        0 <= i < es.len(),
    ensures
        (match compile_phrase(es[i]) {
            Ok(c) => compile_phrases(es, i) == (match compile_phrases(es, i + 1) {
                Ok(rest) => Ok::<Seq<ExprModel>, ErrorKind>(seq![c] + rest),
                Err(k) => Err(k),
            }),
            Err(k) => compile_phrases(es, i) == Err::<Seq<ExprModel>, ErrorKind>(k),
        }),
{
}


/// Every error of the lowering is the malformed define block error.
pub proof fn lemma_convert_err_bad(e: ExprModel, depth: nat)
    ensures
        convert_defines_model(e, depth) matches Err(k) ==> k == ErrorKind::BadSyntax,
    decreases esize(e), 0int, 3int,
{
    if let ExprModel::List(l) = e {
        if l.len() == 0 || model_is_ident(l[0], "quote"@) || model_is_ident(
            l[0],
            "define-syntax"@,
        ) {
        } else if model_is_ident(l[0], "lambda"@) && l.len() >= 3 {
            lemma_esize_split_guard(e);
            lemma_convert_block_err_bad(l.skip(2), (depth + 1) as nat);
        } else if model_is_ident(l[0], "define"@) && l.len() >= 3 && l[1] is List {
            lemma_esize_split_guard(e);
            lemma_convert_block_err_bad(l.skip(2), (depth + 1) as nat);
        } else if model_is_ident(l[0], "begin"@) {
            if depth != 0 {
                lemma_esize_split_guard(e);
                lemma_convert_block_err_bad(l.skip(1), depth);
            }
        } else {
            lemma_conv_each_err_bad(l, 0, depth);
        }
    }
}

/// Size facts for the recursion guards.
proof fn lemma_esize_split_guard(e: ExprModel)
    ensures
        e matches ExprModel::List(l) ==> esize(e) == 1 + esize_seq(l) && (l.len() >= 1
            ==> esize_seq(l.skip(1)) <= esize_seq(l)) && (l.len() >= 2 ==> esize_seq(l.skip(2))
            <= esize_seq(l)),
{
    if let ExprModel::List(l) = e {
        if l.len() >= 1 {
            lemma_esize_seq_split(l, 1);
        }
        if l.len() >= 2 {
            lemma_esize_seq_split(l, 2);
        }
    }
}

proof fn lemma_conv_each_err_bad(l: Seq<ExprModel>, i: int, depth: nat)
    ensures
        conv_each(l, i, depth) matches Err(k) ==> k == ErrorKind::BadSyntax,
    decreases esize_seq(l), l.len() - i, 1int,
{
    if 0 <= i < l.len() {
        lemma_esize_seq_elem(l, i);
        lemma_convert_err_bad(l[i], depth);
        lemma_conv_each_err_bad(l, i + 1, depth);
    }
}

proof fn lemma_convert_block_err_bad(fs: Seq<ExprModel>, depth: nat)
    ensures
        convert_block_model(fs, depth) matches Err(k) ==> k == ErrorKind::BadSyntax,
    decreases esize_seq(fs), fs.len(), 2int,
{
    lemma_conv_each_err_bad(fs, 0, depth);
    if let Ok(cs) = conv_each(fs, 0, depth) {
        if has_define(cs, 0) {
            lemma_build_parts_err_bad(cs.take(last_define(cs) + 1), 0);
        }
    }
}

/// Every error of the whole compilation pass is the malformed define
/// block error.
pub proof fn lemma_compile_err_bad(es: Seq<ExprModel>, i: int)
    ensures
        compile_phrases(es, i) matches Err(k) ==> k == ErrorKind::BadSyntax,
    decreases es.len() - i,
{
    if 0 <= i < es.len() {
        lemma_convert_err_bad(flatten_model(es[i]), 0);
        lemma_compile_err_bad(es, i + 1);
    }
}

/// Runs the rewriting passes over a phrase list: each expression is
/// begin-flattened and its internal defines lowered, in order, stopping
/// at the first malformed define block.
pub fn flatten_begins_and_expand_defines(exprs: &Vec<Expr>) -> (r: Result<Vec<Expr>, SteelErr>)
    ensures
        (match compile_phrases(exprs.deep_view(), 0) {
            Ok(cs) => r matches Ok(v) && v.deep_view() == cs,
            Err(k) => r matches Err(e) && e@ == k,
        }),
{
    let ghost em = exprs.deep_view();
    let mut out: Vec<Expr> = Vec::new();
    let mut i: usize = 0;
    while i < exprs.len()
        invariant
            em == exprs.deep_view(),
            em.len() == exprs@.len(),
            i <= em.len(),
            (match compile_phrases(em, i as int) {
                Ok(rest) => compile_phrases(em, 0) matches Ok(all) && all =~= out.deep_view()
                    + rest,
                Err(k) => compile_phrases(em, 0) matches Err(k2) && k2 == k,
            }),
        decreases em.len() - i,
    {
        proof {
            assert(em[i as int] == exprs@[i as int]@);
            lemma_compile_step(em, i as int);
        }
        let ghost pre = out.deep_view();
        let f = FlattenBegin::flatten(&exprs[i]);
        match ConvertDefinesToLets::convert_defines(&f) {
            Ok(c) => {
                out.push(c);
                proof {
                    assert(out.deep_view() =~= pre.push(out@[out@.len() - 1]@));
                    if let Ok(rest) = compile_phrases(em, i as int) {
                        if let Ok(r2) = compile_phrases(em, i as int + 1) {
                            assert(pre + rest =~= out.deep_view() + r2);
                        }
                    }
                }
                i = i + 1;
            },
            Err(e) => {
                return Err(e);
            },
        }
    }
    proof {
        if let Ok(all) = compile_phrases(em, 0) {
            assert(compile_phrases(em, i as int) matches Ok(r0) && r0 =~= Seq::<
                ExprModel,
            >::empty());
            assert(all =~= out.deep_view());
        }
    }
    Ok(out)
}



/// A lowered block is the single letrec-shaped application.
proof fn lemma_lowered_single(fs: Seq<ExprModel>, depth: nat)
    ensures
        convert_block_model(fs, depth) matches Ok((out, true)) ==> out.len() == 1,
{
}


/// One unfolding step of elementwise conversion.
proof fn lemma_conv_each_step(l: Seq<ExprModel>, i: int, depth: nat)
    requires
        0 <= i < l.len(),
    ensures
        (match convert_defines_model(l[i], depth) {
            Ok(c) => conv_each(l, i, depth) == (match conv_each(l, i + 1, depth) {
                Ok(rest) => Ok::<Seq<ExprModel>, ErrorKind>(seq![c] + rest),
                Err(k) => Err(k),
            }),
            Err(k) => conv_each(l, i, depth) == Err::<Seq<ExprModel>, ErrorKind>(k),
        }),
{
    if let Ok(c) = convert_defines_model(l[i], depth) {
        if let Ok(rest) = conv_each(l, i + 1, depth) {
            assert(conv_each(l, i, depth) == Ok::<Seq<ExprModel>, ErrorKind>(seq![c] + rest));
        } else if let Err(k) = conv_each(l, i + 1, depth) {
            assert(conv_each(l, i, depth) == Err::<Seq<ExprModel>, ErrorKind>(k));
        }
    } else if let Err(k) = convert_defines_model(l[i], depth) {
        assert(conv_each(l, i, depth) == Err::<Seq<ExprModel>, ErrorKind>(k));
    }
}

/// Elementwise conversion past the end yields the empty sequence.
proof fn lemma_conv_each_nil(l: Seq<ExprModel>, i: int, depth: nat)
    requires
        i >= l.len(),
    ensures
        conv_each(l, i, depth) == Ok::<Seq<ExprModel>, ErrorKind>(Seq::empty()),
{
}


/// Every error of the part builder is the malformed define block error.
proof fn lemma_build_parts_err_bad(prefix: Seq<ExprModel>, i: int)
    ensures
        build_parts(prefix, i) matches Err(k) ==> k == ErrorKind::BadSyntax,
    decreases prefix.len() - i,
{
    if 0 <= i < prefix.len() {
        lemma_build_parts_err_bad(prefix, i + 1);
    }
}

/// One unfolding step of the block-part builder.
proof fn lemma_build_parts_step(prefix: Seq<ExprModel>, i: int)
    requires
        0 <= i < prefix.len(),
    ensures
        (match build_parts(prefix, i + 1) {
            Ok(r) => {
                if is_define_form(prefix[i]) {
                    match define_parts(prefix[i]) {
                        Ok((name, rhs)) => build_parts(prefix, i) matches Ok(w) && w.outer
                            == seq![ident_model(name)] + r.outer && w.inner == seq![
                            ident_model(fresh_name(name, i)),
                        ] + r.inner && w.args == seq![rhs] + r.args && w.sets == seq![
                            ExprModel::List(
                                seq![
                                    ident_model("set!"@),
                                    ident_model(name),
                                    ident_model(fresh_name(name, i)),
                                ],
                            ),
                        ] + r.sets && w.dummies == seq![
                            ExprModel::Atom(TokenModel::IntegerLiteral(123)),
                        ] + r.dummies,
                        Err(k) => build_parts(prefix, i) matches Err(k2) && k2 == k,
                    }
                } else {
                    build_parts(prefix, i) matches Ok(w) && w.outer == seq![
                        ident_model(dummy_name(i)),
                    ] + r.outer && w.inner == seq![ident_model(dummy_name(i))] + r.inner && w.args
                        == seq![prefix[i]] + r.args && w.sets == r.sets && w.dummies == seq![
                        ExprModel::Atom(TokenModel::IntegerLiteral(123)),
                    ] + r.dummies
                }
            },
            Err(k) => build_parts(prefix, i) matches Err(k2) && k2 == k,
        }),
{
}

/// The internal-define lowering pass.
pub struct ConvertDefinesToLets {}

/// An identifier atom.
fn make_ident(s: String) -> (r: Expr)
    ensures
        r@ == ident_model(s@),
{
    Expr::Atom(Token::Identifier(s))
}

/// Whether the expression is a `define` form.
fn is_define_exec(e: &Expr) -> (r: bool)
    ensures
        r == is_define_form(e@),
{
    match e {
        Expr::VectorVal(l) => {
            proof {
                assert(*e == Expr::VectorVal(*l));
                lemma_vector_val_view(*l);
            }
            l.len() > 0 && expr_is_ident(&l[0], "define")
        },
        _ => false,
    }
}

/// Extracts the bound name and value expression of a `define` form.
fn define_parts_exec(e: &Expr) -> (r: Result<(String, Expr), SteelErr>)
    requires
        is_define_form(e@),
    ensures
        (match define_parts(e@) {
            Ok((name, rhs)) => r matches Ok(p) && p.0@ == name && p.1@ == rhs,
            Err(k) => r matches Err(err) && err@ == k,
        }),
{
    let bad = ErrorKind::BadSyntax;
    match e {
        Expr::VectorVal(l) => {
            proof {
                assert(*e == Expr::VectorVal(*l));
                lemma_vector_val_view(*l);
            }
            let ghost lm = l.deep_view();
            if l.len() == 3 {
                if let Expr::Atom(Token::Identifier(x)) = &l[1] {
                    proof {
                        assert(lm[1] == l@[1]@);
                        assert(lm[2] == l@[2]@);
                    }
                    return Ok((x.clone(), clone_expr(&l[2])));
                }
            }
            if l.len() >= 3 {
                if let Expr::VectorVal(ids) = &l[1] {
                    proof {
                        assert(l@[1] == Expr::VectorVal(*ids));
                        lemma_vector_val_view(*ids);
                        assert(lm[1] == l@[1]@);
                    }
                    if ids.len() >= 1 {
                        if let Expr::Atom(Token::Identifier(f)) = &ids[0] {
                            // Reassemble the function sugar's lambda.
                            let mut params: Vec<Expr> = Vec::new();
                            let mut i: usize = 1;
                            while i < ids.len()
                                invariant
                                    1 <= i as int <= ids@.len(),
                                    params@.len() == i - 1,
                                    forall|j: int|
                                        0 <= j < i - 1 ==> #[trigger] params.deep_view()[j]
                                            == ids.deep_view()[j + 1],
                                decreases ids@.len() - i,
                            {
                                let ghost pre = params.deep_view();
                                params.push(clone_expr(&ids[i]));
                                proof {
                                    assert(params.deep_view() =~= pre.push(
                                        ids.deep_view()[i as int],
                                    ));
                                }
                                i = i + 1;
                            }
                            proof {
                                assert(params.deep_view() =~= ids.deep_view().skip(1));
                            }
                            let params_expr = Expr::VectorVal(params);
                            proof {
                                lemma_vector_val_view(params_expr->VectorVal_0);
                            }
                            let mut lam: Vec<Expr> = Vec::new();
                            lam.push(make_ident("lambda".to_owned()));
                            lam.push(params_expr);
                            let mut j: usize = 2;
                            while j < l.len()
                                invariant
                                    lm == l.deep_view(),
                                    lm.len() == l@.len(),
                                    2 <= j as int <= lm.len(),
                                    lam@.len() == j as int,
                                    lam.deep_view()[0] == ident_model("lambda"@),
                                    lam.deep_view()[1] == ExprModel::List(
                                        lm[1]->List_0.skip(1),
                                    ),
                                    forall|k: int|
                                        2 <= k < j as int ==> #[trigger] lam.deep_view()[k]
                                            == lm[k],
                                decreases lm.len() - j,
                            {
                                let ghost pre = lam.deep_view();
                                lam.push(clone_expr(&l[j]));
                                proof {
                                    assert(lam.deep_view() =~= pre.push(lm[j as int]));
                                }
                                j = j + 1;
                            }
                            let lam_expr = Expr::VectorVal(lam);
                            proof {
                                lemma_vector_val_view(lam_expr->VectorVal_0);
                                if let Ok((name, rhs)) = define_parts(e@) {
                                    if let (ExprModel::List(a), ExprModel::List(b)) = (
                                        lam_expr@,
                                        rhs,
                                    ) {
                                        assert(a =~= b);
                                    }
                                }
                            }
                            return Ok((f.clone(), lam_expr));
                        }
                    }
                }
            }
            Err(SteelErr::new(bad, "define without a legal name".to_owned()))
        },
        _ => Err(SteelErr::new(bad, "define without a legal name".to_owned())),
    }
}

/// The greatest index of a `define` form, or that none exists.
fn find_last_define(cs: &Vec<Expr>) -> (r: Option<usize>)
    ensures
        (match r {
            Some(k) => has_define(cs.deep_view(), 0) && last_define(cs.deep_view()) == k as int
                && (k as int) < cs.deep_view().len(),
            None => !has_define(cs.deep_view(), 0),
        }),
{
    let ghost cm = cs.deep_view();
    let mut j: usize = cs.len();
    proof {
        assert(cm.take(cm.len() as int) =~= cm);
    }
    while j > 0
        invariant
            cm == cs.deep_view(),
            cm.len() == cs@.len(),
            j <= cm.len(),
            last_define(cm) == last_define(cm.take(j as int)),
            forall|i: int| j <= i < cm.len() ==> !is_define_form(#[trigger] cm[i]),
        decreases j,
    {
        j = j - 1;
        proof {
            assert(cm[j as int] == cs@[j as int]@);
            assert(cm.take(j as int + 1).last() == cm[j as int]);
            assert(cm.take(j as int + 1).drop_last() =~= cm.take(j as int));
        }
        if is_define_exec(&cs[j]) {
            return Some(j);
        }
    }
    proof {
        assert(cm.take(0) =~= Seq::<ExprModel>::empty());
    }
    None
}



/// Lowers one already-converted block of body forms.
fn lower_block_exec(cs: Vec<Expr>) -> (r: Result<(Vec<Expr>, bool), SteelErr>)
    ensures
        (match lower_block(cs.deep_view()) {
            Ok((out, low)) => r matches Ok(p) && p.0.deep_view() == out && p.1 == low,
            Err(k) => r matches Err(e) && e@ == k,
        }),
{
    let ghost cm = cs.deep_view();
    let k = match find_last_define(&cs) {
        None => {
            return Ok((cs, false));
        },
        Some(k) => k,
    };
    if k == cs.len() - 1 {
        // The hard error: a body of only defines, with no trailing form.
        let mut any_expr = false;
        let mut i: usize = 0;
        while i < cs.len()
            invariant
                cm == cs.deep_view(),
                cm.len() == cs@.len(),
                i <= cm.len(),
                any_expr == (exists|j: int|
                    0 <= j < i as int && !is_define_form(#[trigger] cm[j])),
            decreases cm.len() - i,
        {
            proof {
                assert(cm[i as int] == cs@[i as int]@);
            }
            if !is_define_exec(&cs[i]) {
                any_expr = true;
            }
            i = i + 1;
        }
        if !any_expr {
            return Err(
                SteelErr::new(ErrorKind::BadSyntax, "define block has no trailing expression".to_owned()),
            );
        }
    }
    let ghost pm = cm.take(k as int + 1);
    proof {
        assert(block_has_expression(cm, k as int));
    }
    let mut outer: Vec<Expr> = Vec::new();
    let mut inner: Vec<Expr> = Vec::new();
    let mut args: Vec<Expr> = Vec::new();
    let mut sets: Vec<Expr> = Vec::new();
    let mut dummies: Vec<Expr> = Vec::new();
    let mut i: usize = 0;
    proof {
        if let Ok(whole) = build_parts(pm, 0) {
            assert(whole.outer =~= outer.deep_view() + whole.outer);
            assert(whole.inner =~= inner.deep_view() + whole.inner);
            assert(whole.args =~= args.deep_view() + whole.args);
            assert(whole.sets =~= sets.deep_view() + whole.sets);
            assert(whole.dummies =~= dummies.deep_view() + whole.dummies);
        }
    }
    while i <= k
        invariant
            cm == cs.deep_view(),
            cm.len() == cs@.len(),
            pm == cm.take(k as int + 1),
            (k as int) < cm.len(),
            i <= k + 1,
            k < usize::MAX,
            has_define(cm, 0),
            last_define(cm) == k as int,
            block_has_expression(cm, k as int),
            ({
                match build_parts(pm, i as int) {
                    Ok(rest) => build_parts(pm, 0) matches Ok(whole) && whole.outer
                        =~= outer.deep_view() + rest.outer && whole.inner =~= inner.deep_view()
                        + rest.inner && whole.args =~= args.deep_view() + rest.args && whole.sets
                        =~= sets.deep_view() + rest.sets && whole.dummies =~= dummies.deep_view()
                        + rest.dummies,
                    Err(kk) => build_parts(pm, 0) matches Err(kk2) && kk2 == kk,
                }
            }),
        decreases k + 1 - i,
    {
        proof {
            assert(pm[i as int] == cm[i as int]);
            assert(cm[i as int] == cs@[i as int]@);
            lemma_build_parts_step(pm, i as int);
        }
        let ghost po = outer.deep_view();
        let ghost pi = inner.deep_view();
        let ghost pa = args.deep_view();
        let ghost ps = sets.deep_view();
        let ghost pd = dummies.deep_view();
        if is_define_exec(&cs[i]) {
            let (name, rhs) = match define_parts_exec(&cs[i]) {
                Ok(p) => p,
                Err(e) => {
                    // A later define may be the one that errs in the
                    // model's fold, but every such error is `BadSyntax`.
                    proof {
                        assert(define_parts(pm[i as int]) matches Err(k) && k == e@);
                        assert(build_parts(pm, i as int) is Err);
                        lemma_build_parts_err_bad(pm, 0);
                        assert(build_parts(pm, 0) matches Err(k) && k == e@);
                        assert(lower_block(cm) matches Err(k) && k == e@);
                    }
                    return Err(e);
                },
            };
            let fresh = String::from_str("#####").concat(name.as_str()).concat(
                crate::parser::usize_to_string(i).as_str(),
            );
            let ghost fm = fresh@;
            proof {
                assert(fm == fresh_name(name@, i as int));
            }
            let mut set_form: Vec<Expr> = Vec::new();
            set_form.push(make_ident("set!".to_owned()));
            set_form.push(make_ident(name.clone()));
            set_form.push(make_ident(fresh.clone()));
            let set_expr = Expr::VectorVal(set_form);
            proof {
                lemma_vector_val_view(set_expr->VectorVal_0);
                if let Ok((nm, _)) = define_parts(pm[i as int]) {
                    if let (ExprModel::List(a), ExprModel::List(b)) = (
                        set_expr@,
                        ExprModel::List(
                            seq![
                                ident_model("set!"@),
                                ident_model(nm),
                                ident_model(fresh_name(nm, i as int)),
                            ],
                        ),
                    ) {
                        assert(a =~= b);
                    }
                }
            }
            outer.push(make_ident(name.clone()));
            inner.push(make_ident(fresh));
            args.push(rhs);
            sets.push(set_expr);
            dummies.push(Expr::Atom(Token::IntegerLiteral(123)));
            proof {
                assert(outer.deep_view() =~= po.push(outer@[outer@.len() - 1]@));
                assert(inner.deep_view() =~= pi.push(inner@[inner@.len() - 1]@));
                assert(args.deep_view() =~= pa.push(args@[args@.len() - 1]@));
                assert(sets.deep_view() =~= ps.push(sets@[sets@.len() - 1]@));
                assert(dummies.deep_view() =~= pd.push(dummies@[dummies@.len() - 1]@));
                if let Ok(rest) = build_parts(pm, i as int) {
                    if let Ok(r2) = build_parts(pm, i as int + 1) {
                        assert(po + rest.outer =~= outer.deep_view() + r2.outer);
                        assert(pi + rest.inner =~= inner.deep_view() + r2.inner);
                        assert(pa + rest.args =~= args.deep_view() + r2.args);
                        assert(ps + rest.sets =~= sets.deep_view() + r2.sets);
                        assert(pd + rest.dummies =~= dummies.deep_view() + r2.dummies);
                    }
                }
            }
        } else {
            let dummy = String::from_str("#####define-conversion").concat(
                crate::parser::usize_to_string(i).as_str(),
            );
            proof {
                assert(dummy@ == dummy_name(i as int));
            }
            outer.push(make_ident(dummy.clone()));
            inner.push(make_ident(dummy));
            args.push(clone_expr(&cs[i]));
            dummies.push(Expr::Atom(Token::IntegerLiteral(123)));
            proof {
                assert(outer.deep_view() =~= po.push(outer@[outer@.len() - 1]@));
                assert(inner.deep_view() =~= pi.push(inner@[inner@.len() - 1]@));
                assert(args.deep_view() =~= pa.push(args@[args@.len() - 1]@));
                assert(dummies.deep_view() =~= pd.push(dummies@[dummies@.len() - 1]@));
                if let Ok(rest) = build_parts(pm, i as int) {
                    if let Ok(r2) = build_parts(pm, i as int + 1) {
                        assert(po + rest.outer =~= outer.deep_view() + r2.outer);
                        assert(pi + rest.inner =~= inner.deep_view() + r2.inner);
                        assert(pa + rest.args =~= args.deep_view() + r2.args);
                        assert(ps + rest.sets =~= sets.deep_view() + r2.sets);
                        assert(pd + rest.dummies =~= dummies.deep_view() + r2.dummies);
                    }
                }
            }
        }
        i = i + 1;
    }
    proof {
        if let Ok(whole) = build_parts(pm, 0) {
            assert(build_parts(pm, i as int) matches Ok(r0) && r0.outer =~= Seq::<
                ExprModel,
            >::empty() && r0.inner =~= Seq::<ExprModel>::empty() && r0.args =~= Seq::<
                ExprModel,
            >::empty() && r0.sets =~= Seq::<ExprModel>::empty() && r0.dummies =~= Seq::<
                ExprModel,
            >::empty());
            assert(whole.outer =~= outer.deep_view());
            assert(whole.inner =~= inner.deep_view());
            assert(whole.args =~= args.deep_view());
            assert(whole.sets =~= sets.deep_view());
            assert(whole.dummies =~= dummies.deep_view());
        }
    }
    // Assemble the letrec-shaped application.
    let ghost ov = outer.deep_view();
    let ghost iv = inner.deep_view();
    let ghost av0 = args.deep_view();
    let ghost dv = dummies.deep_view();
    let mut inner_body: Vec<Expr> = Vec::new();
    inner_body.push(make_ident("begin".to_owned()));
    let ghost sv = sets.deep_view();
    let mut sets = sets;
    inner_body.append(&mut sets);
    let mut t = k + 1;
    while t < cs.len()
        invariant
            cm == cs.deep_view(),
            cm.len() == cs@.len(),
            k as int + 1 <= t as int <= cm.len(),
            inner_body.deep_view() =~= seq![ident_model("begin"@)] + sv + cm.subrange(
                k as int + 1,
                t as int,
            ),
        decreases cm.len() - t,
    {
        proof {
            assert(cm[t as int] == cs@[t as int]@);
        }
        let ghost pre = inner_body.deep_view();
        inner_body.push(clone_expr(&cs[t]));
        proof {
            assert(inner_body.deep_view() =~= pre.push(cm[t as int]));
            assert(cm.subrange(k as int + 1, t as int + 1) =~= cm.subrange(
                k as int + 1,
                t as int,
            ).push(cm[t as int]));
        }
        t = t + 1;
    }
    proof {
        assert(cm.subrange(k as int + 1, cm.len() as int) =~= cm.skip(k as int + 1));
    }
    let inner_body_expr = Expr::VectorVal(inner_body);
    let ghost ibv = inner_body_expr@;
    proof {
        lemma_vector_val_view(inner_body_expr->VectorVal_0);
        if let Ok(whole) = build_parts(pm, 0) {
            assert(inner_body_expr->VectorVal_0.deep_view() =~= seq![ident_model("begin"@)]
                + whole.sets + cm.skip(k as int + 1));
            assert(ibv == ExprModel::List(
                seq![ident_model("begin"@)] + whole.sets + cm.skip(k as int + 1),
            ));
        }
    }
    let inner_params = Expr::VectorVal(inner);
    let ghost ipv = inner_params@;
    proof {
        lemma_vector_val_view(inner_params->VectorVal_0);
        if let Ok(whole) = build_parts(pm, 0) {
            assert(inner_params->VectorVal_0.deep_view() =~= whole.inner);
            assert(ipv == ExprModel::List(whole.inner));
        }
    }
    let mut inner_lambda: Vec<Expr> = Vec::new();
    inner_lambda.push(make_ident("lambda".to_owned()));
    inner_lambda.push(inner_params);
    inner_lambda.push(inner_body_expr);
    let inner_lambda_expr = Expr::VectorVal(inner_lambda);
    let ghost ilv = inner_lambda_expr@;
    proof {
        lemma_vector_val_view(inner_lambda_expr->VectorVal_0);
        assert(inner_lambda_expr->VectorVal_0.deep_view() =~= seq![
            ident_model("lambda"@),
            ipv,
            ibv,
        ]);
        assert(ilv == ExprModel::List(seq![ident_model("lambda"@), ipv, ibv]));
    }
    let mut inner_app: Vec<Expr> = Vec::new();
    inner_app.push(inner_lambda_expr);
    let mut args = args;
    inner_app.append(&mut args);
    let inner_app_expr = Expr::VectorVal(inner_app);
    let ghost iav = inner_app_expr@;
    proof {
        lemma_vector_val_view(inner_app_expr->VectorVal_0);
        assert(inner_app_expr->VectorVal_0.deep_view() =~= seq![ilv] + av0);
        assert(iav == ExprModel::List(seq![ilv] + av0));
    }
    let outer_params = Expr::VectorVal(outer);
    let ghost opv = outer_params@;
    proof {
        lemma_vector_val_view(outer_params->VectorVal_0);
        if let Ok(whole) = build_parts(pm, 0) {
            assert(outer_params->VectorVal_0.deep_view() =~= whole.outer);
            assert(opv == ExprModel::List(whole.outer));
        }
    }
    let mut outer_lambda: Vec<Expr> = Vec::new();
    outer_lambda.push(make_ident("lambda".to_owned()));
    outer_lambda.push(outer_params);
    outer_lambda.push(inner_app_expr);
    let outer_lambda_expr = Expr::VectorVal(outer_lambda);
    let ghost olv = outer_lambda_expr@;
    proof {
        lemma_vector_val_view(outer_lambda_expr->VectorVal_0);
        assert(outer_lambda_expr->VectorVal_0.deep_view() =~= seq![
            ident_model("lambda"@),
            opv,
            iav,
        ]);
        assert(olv == ExprModel::List(seq![ident_model("lambda"@), opv, iav]));
    }
    let mut app: Vec<Expr> = Vec::new();
    app.push(outer_lambda_expr);
    let mut dummies = dummies;
    app.append(&mut dummies);
    let app_expr = Expr::VectorVal(app);
    proof {
        lemma_vector_val_view(app_expr->VectorVal_0);
        assert(app_expr->VectorVal_0.deep_view() =~= seq![olv] + dv);
        if let Ok(whole) = build_parts(pm, 0) {
            assert(whole.args == av0 && whole.dummies == dv && whole.inner == iv && whole.outer
                == ov);
            let model = assemble_block(whole, cm.skip(k as int + 1));
            assert(app_expr@ == ExprModel::List(seq![olv] + dv));
            assert(app_expr@ == model);
        }
    }
    let mut result: Vec<Expr> = Vec::new();
    result.push(app_expr);
    proof {
        if let Ok((out, low)) = lower_block(cm) {
            assert(result.deep_view() =~= out);
        }
    }
    Ok((result, true))
}

/// Converts one expression at the given depth; `top` mirrors whether the
/// depth is zero.
fn convert_expr(expr: &Expr, top: bool, Ghost(depth): Ghost<nat>) -> (r: Result<Expr, SteelErr>)
    requires
        top == (depth == 0),
    ensures
        (match convert_defines_model(expr@, depth) {
            Ok(c) => r matches Ok(e) && e@ == c,
            Err(k) => r matches Err(e) && e@ == k,
        }),
    decreases esize(expr@), 0int,
{
    match expr {
        Expr::Atom(_) => Ok(clone_expr(expr)),
        Expr::VectorVal(l) => {
            proof {
                assert(*expr == Expr::VectorVal(*l));
                lemma_vector_val_view(*l);
            }
            let ghost lm = l.deep_view();
            let nlen = l.len();
            if nlen == 0 || expr_is_ident(&l[0], "quote") || expr_is_ident(&l[0], "define-syntax")
                {
                return Ok(clone_expr(expr));
            }
            proof {
                assert(lm[0] == l@[0]@);
                if lm.len() >= 2 {
                    assert(lm[1] == l@[1]@);
                }
                lemma_esize_seq_split(lm, 1);
                if lm.len() >= 2 {
                    lemma_esize_seq_split(lm, 2);
                }
            }
            let is_lambda = expr_is_ident(&l[0], "lambda") && nlen >= 3;
            let is_fn_define = expr_is_ident(&l[0], "define") && nlen >= 3 && matches!(
                &l[1],
                Expr::VectorVal(_),
            );
            if is_lambda || is_fn_define {
                let body: &[Expr] = &l[2..nlen];
                proof {
                    if l@[1] is VectorVal {
                        lemma_vector_val_view(l@[1]->VectorVal_0);
                    }
                    assert(body.deep_view() =~= lm.skip(2));
                }
                let (block, _) = match convert_block(body, Ghost((depth + 1) as nat)) {
                    Ok(b) => b,
                    Err(e) => {
                        return Err(e);
                    },
                };
                let mut out: Vec<Expr> = Vec::new();
                out.push(clone_expr(&l[0]));
                out.push(clone_expr(&l[1]));
                let ghost bv = block.deep_view();
                let mut block = block;
                out.append(&mut block);
                let r = Expr::VectorVal(out);
                proof {
                    lemma_vector_val_view(r->VectorVal_0);
                    if let Ok(c) = convert_defines_model(expr@, depth) {
                        if let (ExprModel::List(a), ExprModel::List(b)) = (r@, c) {
                            assert(a =~= b);
                        }
                    }
                }
                return Ok(r);
            }
            if expr_is_ident(&l[0], "begin") {
                if top {
                    return Ok(clone_expr(expr));
                }
                let body: &[Expr] = &l[1..nlen];
                proof {
                    assert(body.deep_view() =~= lm.skip(1));
                }
                let (block, lowered) = match convert_block(body, Ghost(depth)) {
                    Ok(b) => b,
                    Err(e) => {
                        return Err(e);
                    },
                };
                if lowered {
                    proof {
                        lemma_lowered_single(body.deep_view(), depth);
                    }
                    let mut block = block;
                    let app = block.remove(0);
                    return Ok(app);
                }
                let mut out: Vec<Expr> = Vec::new();
                out.push(clone_expr(&l[0]));
                let mut block = block;
                out.append(&mut block);
                let r = Expr::VectorVal(out);
                proof {
                    lemma_vector_val_view(r->VectorVal_0);
                    if let Ok(c) = convert_defines_model(expr@, depth) {
                        if let (ExprModel::List(a), ExprModel::List(b)) = (r@, c) {
                            assert(a =~= b);
                        }
                    }
                }
                return Ok(r);
            }
            // An ordinary list: convert the children in place.
            let mut out: Vec<Expr> = Vec::new();
            let mut i: usize = 0;
            while i < l.len()
                invariant
                    top == (depth == 0),
                    expr@ == ExprModel::List(lm),
                    lm == l.deep_view(),
                    lm.len() == l@.len(),
                    lm.len() > 0,
                    !model_is_ident(lm[0], "quote"@),
                    !model_is_ident(lm[0], "define-syntax"@),
                    !model_is_ident(lm[0], "begin"@),
                    !(model_is_ident(lm[0], "lambda"@) && lm.len() >= 3),
                    !(model_is_ident(lm[0], "define"@) && lm.len() >= 3 && lm[1] is List),
                    i <= lm.len(),
                    (match conv_each(lm, i as int, depth) {
                        Ok(rest) => conv_each(lm, 0, depth) matches Ok(all) && all
                            =~= out.deep_view() + rest,
                        Err(k) => conv_each(lm, 0, depth) matches Err(k2) && k2 == k,
                    }),
                decreases lm.len() - i,
            {
                proof {
                    lemma_esize_seq_elem(lm, i as int);
                    assert(lm[i as int] == l@[i as int]@);
                    lemma_conv_each_step(lm, i as int, depth);
                }
                let ghost pre = out.deep_view();
                match convert_expr(&l[i], top, Ghost(depth)) {
                    Ok(c) => {
                        out.push(c);
                        proof {
                            assert(out.deep_view() =~= pre.push(out@[out@.len() - 1]@));
                            if let Ok(rest) = conv_each(lm, i as int, depth) {
                                if let Ok(r2) = conv_each(lm, i as int + 1, depth) {
                                    assert(pre + rest =~= out.deep_view() + r2);
                                }
                            }
                        }
                        i = i + 1;
                    },
                    Err(e) => {
                        return Err(e);
                    },
                }
            }
            let r = Expr::VectorVal(out);
            proof {
                lemma_vector_val_view(r->VectorVal_0);
                lemma_conv_each_nil(lm, i as int, depth);
                if let Ok(all) = conv_each(lm, 0, depth) {
                    assert(conv_each(lm, i as int, depth) matches Ok(r0) && r0 =~= Seq::<
                        ExprModel,
                    >::empty());
                    if let (ExprModel::List(a), _) = (r@, 0int) {
                        assert(a =~= all);
                    }
                }
            }
            Ok(r)
        },
    }
}

/// Converts each form of a body block, then lowers the block.
fn convert_block(tokens: &[Expr], Ghost(depth): Ghost<nat>) -> (r: Result<
    (Vec<Expr>, bool),
    SteelErr,
>)
    requires
        depth >= 1,
    ensures
        (match convert_block_model(tokens.deep_view(), depth) {
            Ok((out, low)) => r matches Ok(p) && p.0.deep_view() == out && p.1 == low,
            Err(k) => r matches Err(e) && e@ == k,
        }),
    decreases esize_seq(tokens.deep_view()), 1int,
{
    let ghost tm = tokens.deep_view();
    let mut cs: Vec<Expr> = Vec::new();
    let mut i: usize = 0;
    while i < tokens.len()
        invariant
            depth >= 1,
            tm == tokens.deep_view(),
            tm.len() == tokens@.len(),
            i <= tm.len(),
            (match conv_each(tm, i as int, depth) {
                Ok(rest) => conv_each(tm, 0, depth) matches Ok(all) && all =~= cs.deep_view()
                    + rest,
                Err(k) => conv_each(tm, 0, depth) matches Err(k2) && k2 == k,
            }),
        decreases tm.len() - i,
    {
        proof {
            lemma_esize_seq_elem(tm, i as int);
            assert(tm[i as int] == tokens@[i as int]@);
            lemma_conv_each_step(tm, i as int, depth);
        }
        let ghost pre = cs.deep_view();
        match convert_expr(&tokens[i], false, Ghost(depth)) {
            Ok(c) => {
                cs.push(c);
                proof {
                    assert(cs.deep_view() =~= pre.push(cs@[cs@.len() - 1]@));
                    if let Ok(rest) = conv_each(tm, i as int, depth) {
                        if let Ok(r2) = conv_each(tm, i as int + 1, depth) {
                            assert(pre + rest =~= cs.deep_view() + r2);
                        }
                    }
                }
                i = i + 1;
            },
            Err(e) => {
                return Err(e);
            },
        }
    }
    proof {
        lemma_conv_each_nil(tm, i as int, depth);
        if let Ok(all) = conv_each(tm, 0, depth) {
            assert(conv_each(tm, i as int, depth) matches Ok(r0) && r0 =~= Seq::<
                ExprModel,
            >::empty());
            assert(all =~= cs.deep_view());
        }
    }
    lower_block_exec(cs)
}

impl ConvertDefinesToLets {
    /// The pass, ready to fold over phrases.
    pub fn new() -> (r: ConvertDefinesToLets)
        ensures
            true,
    {
        ConvertDefinesToLets {}
    }

    /// Lowers the internal defines of one phrase; `BadSyntax` exactly when
    /// some body block is malformed (a block of only defines, or a define
    /// without a legal shape).
    pub fn convert_defines(expr: &Expr) -> (r: Result<Expr, SteelErr>)
        ensures
            (match convert_defines_model(expr@, 0) {
                Ok(c) => r matches Ok(e) && e@ == c,
                Err(k) => r matches Err(e) && e@ == k,
            }),
    {
        convert_expr(expr, true, Ghost(0))
    }
}

/// Lowers one block of body forms (the forms after a lambda's parameter
/// list): the converted block and whether lowering replaced it.
pub fn convert_exprs_to_let(list_of_tokens: &[Expr]) -> (r: Result<(Vec<Expr>, bool), SteelErr>)
    ensures
        (match convert_block_model(list_of_tokens.deep_view(), 1) {
            Ok((out, low)) => r matches Ok(p) && p.0.deep_view() == out && p.1 == low,
            Err(k) => r matches Err(e) && e@ == k,
        }),
{
    convert_block(list_of_tokens, Ghost(1))
}

} // verus!
