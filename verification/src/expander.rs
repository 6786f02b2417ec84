//! The `syntax-rules` macro expander.
//!
//! A macro is a list of pattern/template rules. Expansion of an application
//! finds the first pattern whose shape matches, binds the pattern variables
//! to sub-expressions, and instantiates the template with those bindings.
//! Substitution is textual at the AST level: no alpha-renaming is done.

use vstd::prelude::*;

use crate::ast::{
    clone_expr, esize, esize_seq, expr_is_ident, lemma_esize_seq_elem, lemma_vector_val_view,
    model_is_ident, str_eq, Expr, ExprModel, Token, TokenModel,
};
use crate::errors::{ErrorKind, SteelErr};
use crate::values::{MacroModel, MacroRule, SteelMacro};

verus! {

broadcast use vstd::seq::group_seq_axioms, vstd::std_specs::vec::group_vec_axioms;

/// Pattern-variable bindings collected while matching, in match order.
pub type BindingsModel = Seq<(Seq<char>, ExprModel)>;

/// The first binding of `x`, scanning from the start.
pub open spec fn binding_of(bs: BindingsModel, x: Seq<char>) -> Option<ExprModel>
    decreases bs.len(),
{
    if bs.len() == 0 {
        None
    } else if bs[0].0 == x {
        Some(bs[0].1)
    } else {
        binding_of(bs.skip(1), x)
    }
}

/// Whether `x` occurs among the macro's literal identifiers.
pub open spec fn is_literal(lits: Seq<Seq<char>>, x: Seq<char>) -> bool {
    exists|i: int| 0 <= i < lits.len() && lits[i] == x
}

/// Matches a pattern against an argument, extending `acc` with the pattern
/// variables bound; `None` when the shapes disagree.
///
/// An identifier pattern that is a literal, or the underscore, matches
/// without binding (a literal only matches itself); any other identifier
/// binds. Other atoms match equal atoms. A list pattern matches a list of
/// the same length elementwise.
pub open spec fn match_pattern_model(
    lits: Seq<Seq<char>>,
    pat: ExprModel,
    arg: ExprModel,
    acc: BindingsModel,
) -> Option<BindingsModel>
    decreases esize(pat), 0int,
{
    match pat {
        ExprModel::Atom(TokenModel::Identifier(x)) => {
            if x == "_"@ {
                Some(acc)
            } else if is_literal(lits, x) {
                if model_is_ident(arg, x) {
                    Some(acc)
                } else {
                    None
                }
            } else {
                Some(acc.push((x, arg)))
            }
        },
        ExprModel::Atom(t) => {
            if arg == ExprModel::Atom(t) {
                Some(acc)
            } else {
                None
            }
        },
        ExprModel::List(ps) => match arg {
            ExprModel::List(es) => {
                if ps.len() == es.len() {
                    match_list_model(lits, ps, es, 0, acc)
                } else {
                    None
                }
            },
            _ => None,
        },
    }
}

/// Matches `ps[i..]` against `es[i..]` elementwise.
pub open spec fn match_list_model(
    lits: Seq<Seq<char>>,
    ps: Seq<ExprModel>,
    es: Seq<ExprModel>,
    i: int,
    acc: BindingsModel,
) -> Option<BindingsModel>
    decreases esize_seq(ps), ps.len() - i, 1int,
    via match_list_model_dec
{
    if i < 0 || i >= ps.len() || ps.len() != es.len() {
        Some(acc)
    } else {
        match match_pattern_model(lits, ps[i], es[i], acc) {
            Some(acc2) => match_list_model(lits, ps, es, i + 1, acc2),
            None => None,
        }
    }
}

#[via_fn]
proof fn match_list_model_dec(
    lits: Seq<Seq<char>>,
    ps: Seq<ExprModel>,
    es: Seq<ExprModel>,
    i: int,
    acc: BindingsModel,
) {
    if 0 <= i < ps.len() {
        lemma_esize_seq_elem(ps, i);
    }
}

/// Instantiates a template under bindings: bound identifiers are replaced
/// by the expressions they matched; everything else is kept.
pub open spec fn subst_model(tmpl: ExprModel, bs: BindingsModel) -> ExprModel
    decreases esize(tmpl), 0int,
{
    match tmpl {
        ExprModel::Atom(TokenModel::Identifier(x)) => match binding_of(bs, x) {
            Some(e) => e,
            None => tmpl,
        },
        ExprModel::Atom(_) => tmpl,
        ExprModel::List(ts) => ExprModel::List(subst_list_model(ts, bs, 0)),
    }
}

/// Instantiates `ts[i..]` under bindings.
pub open spec fn subst_list_model(ts: Seq<ExprModel>, bs: BindingsModel, i: int) -> Seq<ExprModel>
    decreases esize_seq(ts), ts.len() - i, 1int,
    via subst_list_model_dec
{
    if i < 0 || i >= ts.len() {
        Seq::empty()
    } else {
        seq![subst_model(ts[i], bs)] + subst_list_model(ts, bs, i + 1)
    }
}

#[via_fn]
proof fn subst_list_model_dec(ts: Seq<ExprModel>, bs: BindingsModel, i: int) {
    if 0 <= i < ts.len() {
        lemma_esize_seq_elem(ts, i);
    }
}

/// One expansion step of a macro applied to the whole form `tokens`:
/// the first rule whose pattern matches instantiates its template;
/// `BadSyntax` when no rule matches.
pub open spec fn macro_expand_model(m: MacroModel, form: ExprModel) -> Result<
    ExprModel,
    ErrorKind,
> {
    match first_match(m, form, 0) {
        Some((tmpl, bs)) => Ok(subst_model(tmpl, bs)),
        None => Err(ErrorKind::BadSyntax),
    }
}

/// The template and bindings of the first rule at or after `k` that
/// matches.
pub open spec fn first_match(m: MacroModel, form: ExprModel, k: int) -> Option<
    (ExprModel, BindingsModel),
>
    decreases m.rules.len() - k,
{
    if k < 0 || k >= m.rules.len() {
        None
    } else {
        match match_pattern_model(m.literals, m.rules[k].0, form, Seq::empty()) {
            Some(bs) => Some((m.rules[k].1, bs)),
            None => first_match(m, form, k + 1),
        }
    }
}

/// Exec bindings: name/expression pairs in match order.
pub struct Bindings {
    pub items: Vec<(String, Expr)>,
}

impl View for Bindings {
    type V = BindingsModel;

    open spec fn view(&self) -> BindingsModel {
        self.items.deep_view()
    }
}

/// Finds the first binding of `x`.
fn find_bound(bs: &Bindings, x: &String) -> (r: Option<Expr>)
    ensures
        (match binding_of(bs@, x@) {
            Some(e) => r matches Some(re) && re@ == e,
            None => r is None,
        }),
{
    let ghost s = bs@;
    let mut i: usize = 0;
    proof {
        assert(s.skip(0) =~= s);
    }
    while i < bs.items.len()
        invariant
            i <= bs.items@.len(),
            s == bs@,
            s.len() == bs.items@.len(),
            binding_of(s, x@) == binding_of(s.skip(i as int), x@),
        decreases bs.items@.len() - i,
    {
        proof {
            assert(s.skip(i as int)[0] == s[i as int]);
            assert(s.skip(i as int).skip(1) =~= s.skip(i as int + 1));
        }
        if str_eq(&bs.items[i].0, x) {
            return Some(clone_expr(&bs.items[i].1));
        }
        i = i + 1;
    }
    proof {
        assert(s.skip(i as int) =~= Seq::<(Seq<char>, ExprModel)>::empty());
    }
    None
}

/// Whether `x` occurs among the literal identifiers.
fn is_literal_exec(lits: &Vec<String>, x: &String) -> (r: bool)
    ensures
        r == is_literal(lits.deep_view(), x@),
{
    let mut i: usize = 0;
    while i < lits.len()
        invariant
            i <= lits@.len(),
            forall|j: int| 0 <= j < i as int ==> lits.deep_view()[j] != x@,
        decreases lits@.len() - i,
    {
        if str_eq(&lits[i], x) {
            proof {
                assert(lits.deep_view()[i as int] == x@);
            }
            return true;
        }
        i = i + 1;
    }
    proof {
        assert(!is_literal(lits.deep_view(), x@)) by {
            assert(forall|j: int| 0 <= j < lits.deep_view().len() ==> lits.deep_view()[j] != x@);
        }
    }
    false
}

/// Matches a pattern against an argument, pushing bindings onto `acc`.
fn match_pattern(lits: &Vec<String>, pat: &Expr, arg: &Expr, acc: &mut Bindings) -> (r: bool)
    ensures
        (match match_pattern_model(lits.deep_view(), pat@, arg@, old(acc)@) {
            Some(bs) => r && final(acc)@ == bs,
            None => !r,
        }),
    decreases esize(pat@), 0int,
{
    match pat {
        Expr::Atom(Token::Identifier(x)) => {
            if str_eq(x, "_") {
                return true;
            }
            if is_literal_exec(lits, x) {
                if let Expr::Atom(Token::Identifier(y)) = arg {
                    if str_eq(y, x) {
                        return true;
                    }
                }
                return false;
            }
            acc.items.push((x.clone(), clone_expr(arg)));
            proof {
                assert(acc@ =~= old(acc)@.push((x@, arg@)));
            }
            true
        },
        Expr::Atom(t) => {
            let same = match (t, arg) {
                (Token::BooleanLiteral(a), Expr::Atom(Token::BooleanLiteral(b))) => *a == *b,
                (Token::IntegerLiteral(a), Expr::Atom(Token::IntegerLiteral(b))) => *a == *b,
                (Token::CharacterLiteral(a), Expr::Atom(Token::CharacterLiteral(b))) => *a == *b,
                (Token::StringLiteral(a), Expr::Atom(Token::StringLiteral(b))) => str_eq(a, b),
                _ => false,
            };
            proof {
                assert(pat@ == ExprModel::Atom(t@));
            }
            same
        },
        Expr::VectorVal(ps) => {
            proof {
                assert(*pat == Expr::VectorVal(*ps));
                lemma_vector_val_view(*ps);
            }
            match arg {
                Expr::VectorVal(es) => {
                    proof {
                        assert(*arg == Expr::VectorVal(*es));
                        lemma_vector_val_view(*es);
                    }
                    if ps.len() != es.len() {
                        return false;
                    }
                    let ghost pm = ps.deep_view();
                    let ghost em = es.deep_view();
                    let mut i: usize = 0;
                    loop
                        invariant_except_break
                            pat@ == ExprModel::List(pm),
                            arg@ == ExprModel::List(em),
                            pm == ps.deep_view(),
                            em == es.deep_view(),
                            pm.len() == ps@.len(),
                            em.len() == es@.len(),
                            pm.len() == em.len(),
                            i <= pm.len(),
                            match_list_model(lits.deep_view(), pm, em, 0, old(acc)@)
                                == match_list_model(lits.deep_view(), pm, em, i as int, acc@),
                        ensures
                            match_list_model(lits.deep_view(), pm, em, 0, old(acc)@) matches Some(
                                bs,
                            ) && acc@ == bs,
                        decreases pm.len() - i,
                    {
                        if i >= ps.len() {
                            break ;
                        }
                        proof {
                            lemma_esize_seq_elem(pm, i as int);
                            assert(pm[i as int] == ps@[i as int]@);
                            assert(em[i as int] == es@[i as int]@);
                        }
                        let ok = match_pattern(lits, &ps[i], &es[i], acc);
                        if !ok {
                            return false;
                        }
                        i = i + 1;
                    }
                    true
                },
                _ => false,
            }
        },
    }
}

/// Instantiates a template under the given bindings.
pub fn subst_expr(tmpl: &Expr, bs: &Bindings) -> (r: Expr)
    ensures
        r@ == subst_model(tmpl@, bs@),
    decreases esize(tmpl@), 0int,
{
    match tmpl {
        Expr::Atom(Token::Identifier(x)) => match find_bound(bs, x) {
            Some(e) => e,
            None => Expr::Atom(Token::Identifier(x.clone())),
        },
        Expr::Atom(t) => Expr::Atom(t.clone()),
        Expr::VectorVal(ts) => {
            proof {
                assert(*tmpl == Expr::VectorVal(*ts));
                lemma_vector_val_view(*ts);
            }
            let ghost tm = ts.deep_view();
            let mut out: Vec<Expr> = Vec::new();
            let mut i: usize = 0;
            while i < ts.len()
                invariant
                    tmpl@ == ExprModel::List(tm),
                    tm == ts.deep_view(),
                    tm.len() == ts@.len(),
                    i <= tm.len(),
                    out@.len() == i as int,
                    forall|j: int|
                        0 <= j < i as int ==> #[trigger] out@[j]@ == subst_model(tm[j], bs@),
                decreases tm.len() - i,
            {
                proof {
                    lemma_esize_seq_elem(tm, i as int);
                    assert(tm[i as int] == ts@[i as int]@);
                }
                let c = subst_expr(&ts[i], bs);
                out.push(c);
                i = i + 1;
            }
            let r = Expr::VectorVal(out);
            proof {
                lemma_vector_val_view(r->VectorVal_0);
                lemma_subst_list_index(tm, bs@);
                if let ExprModel::List(sm) = r@ {
                    assert(sm =~= subst_list_model(tm, bs@, 0));
                }
            }
            r
        },
    }
}

/// `subst_list_model` from 0 is the pointwise substitution.
pub proof fn lemma_subst_list_index(ts: Seq<ExprModel>, bs: BindingsModel)
    ensures
        subst_list_model(ts, bs, 0).len() == ts.len(),
        forall|j: int|
            0 <= j < ts.len() ==> #[trigger] subst_list_model(ts, bs, 0)[j] == subst_model(
                ts[j],
                bs,
            ),
{
    lemma_subst_list_from(ts, bs, 0);
}

proof fn lemma_subst_list_from(ts: Seq<ExprModel>, bs: BindingsModel, i: int)
    requires
        0 <= i <= ts.len(),
    ensures
        subst_list_model(ts, bs, i).len() == ts.len() - i,
        forall|j: int|
            0 <= j < ts.len() - i ==> #[trigger] subst_list_model(ts, bs, i)[j] == subst_model(
                ts[i + j],
                bs,
            ),
    decreases ts.len() - i,
{
    if i < ts.len() {
        lemma_subst_list_from(ts, bs, i + 1);
    }
}

impl SteelMacro {
    /// Expands one application of this macro: the first rule whose pattern
    /// matches the whole form instantiates its template; `BadSyntax` when
    /// no rule matches.
    pub fn expand(&self, form: &Expr) -> (r: Result<Expr, SteelErr>)
        ensures
            (match macro_expand_model(self@, form@) {
                Ok(e) => r matches Ok(re) && re@ == e,
                Err(k) => r matches Err(e2) && e2@ == k,
            }),
    {
        let ghost m = self@;
        let mut k: usize = 0;
        while k < self.rules.len()
            invariant
                m == self@,
                k <= self.rules@.len(),
                m.rules.len() == self.rules@.len(),
                first_match(m, form@, 0) == first_match(m, form@, k as int),
            decreases self.rules@.len() - k,
        {
            let mut acc = Bindings { items: Vec::new() };
            proof {
                assert(acc@ =~= Seq::<(Seq<char>, ExprModel)>::empty());
                assert(m.rules[k as int] == (self.rules@[k as int].pattern@, self.rules@[k as int].template@));
            }
            let ok = match_pattern(&self.literals, &self.rules[k].pattern, form, &mut acc);
            if ok {
                return Ok(subst_expr(&self.rules[k].template, &acc));
            }
            k = k + 1;
        }
        Err(SteelErr::new(ErrorKind::BadSyntax, "no matching syntax rule".to_owned()))
    }
}

/// The identifier spellings of a sequence of identifier atoms, when every
/// element is one.
pub open spec fn idents_of_model(es: Seq<ExprModel>) -> Option<Seq<Seq<char>>>
    decreases es.len(),
{
    if es.len() == 0 {
        Some(Seq::empty())
    } else {
        match es[0] {
            ExprModel::Atom(TokenModel::Identifier(x)) => match idents_of_model(es.skip(1)) {
                Some(rest) => Some(seq![x] + rest),
                None => None,
            },
            _ => None,
        }
    }
}

/// Extracts the identifier spellings of a vector of identifier atoms.
pub fn idents_of(es: &Vec<Expr>) -> (r: Option<Vec<String>>)
    ensures
        (match idents_of_model(es.deep_view()) {
            Some(xs) => r matches Some(v) && v.deep_view() == xs,
            None => r is None,
        }),
{
    let ghost m = es.deep_view();
    let mut out: Vec<String> = Vec::new();
    let mut i: usize = 0;
    proof {
        assert(m.skip(0) =~= m);
        if let Some(xs) = idents_of_model(m) {
            assert(out.deep_view() + xs =~= xs);
        }
    }
    while i < es.len()
        invariant
            i <= es@.len(),
            m == es.deep_view(),
            m.len() == es@.len(),
            out@.len() == i as int,
            (match idents_of_model(m) {
                Some(xs) => idents_of_model(m.skip(i as int)) matches Some(rest) && xs
                    =~= out.deep_view() + rest,
                None => idents_of_model(m.skip(i as int)) is None,
            }),
        decreases es@.len() - i,
    {
        let ghost pre = out.deep_view();
        match &es[i] {
            Expr::Atom(Token::Identifier(x)) => {
                out.push(x.clone());
            },
            _ => {
                proof {
                    assert(m.skip(i as int)[0] == m[i as int]);
                    lemma_idents_prefix_none(m, i as int);
                }
                return None;
            },
        }
        proof {
            let k: int = i as int;
            assert(m.skip(k)[0] == m[k]);
            assert(m.skip(k).skip(1) =~= m.skip(k + 1));
            assert(out.deep_view() =~= pre + seq![es@[k]@->Atom_0->Identifier_0]);
            if let Some(xs) = idents_of_model(m) {
                if let Some(rest) = idents_of_model(m.skip(k)) {
                    assert(pre + rest =~= out.deep_view() + idents_of_model(m.skip(k + 1)).unwrap());
                }
            }
        }
        i = i + 1;
    }
    proof {
        assert(m.skip(i as int) =~= Seq::<ExprModel>::empty());
        if let Some(xs) = idents_of_model(m) {
            assert(xs =~= out.deep_view());
        }
    }
    Some(out)
}

/// When a prefix element is not an identifier atom, the whole sequence has
/// no identifier reading.
proof fn lemma_idents_prefix_none(m: Seq<ExprModel>, i: int)
    requires
        0 <= i < m.len(),
        !(m[i] matches ExprModel::Atom(TokenModel::Identifier(_))),
    ensures
        idents_of_model(m) is None,
    decreases i,
{
    if i > 0 {
        lemma_idents_prefix_none(m.skip(1), i - 1);
        assert(m.skip(1)[i - 1] == m[i]);
    }
}

/// The rules of a `syntax-rules` body: each of `rs[i..]` must be a
/// two-element list holding a pattern and a template.
pub open spec fn rules_of_model(rs: Seq<ExprModel>, i: int) -> Option<Seq<(ExprModel, ExprModel)>>
    decreases rs.len() - i,
{
    if i < 0 || i >= rs.len() {
        Some(Seq::empty())
    } else {
        match rs[i] {
            ExprModel::List(pr) => if pr.len() == 2 {
                match rules_of_model(rs, i + 1) {
                    Some(rest) => Some(seq![(pr[0], pr[1])] + rest),
                    None => None,
                }
            } else {
                None
            },
            _ => None,
        }
    }
}

/// What parsing `(define-syntax name (syntax-rules (lits ...) (pat tmpl)
/// ...))` arguments yields: the macro's name, literals and rules, or the
/// error the malformed form raises.
pub open spec fn parse_macro_model(ts: Seq<ExprModel>) -> Result<MacroModel, ErrorKind> {
    if ts.len() != 2 {
        Err(ErrorKind::ArityMismatch)
    } else {
        match ts[0] {
            ExprModel::Atom(TokenModel::Identifier(name)) => match ts[1] {
                ExprModel::List(rs) => {
                    if rs.len() >= 2 && model_is_ident(rs[0], "syntax-rules"@) {
                        match rs[1] {
                            ExprModel::List(litl) => match idents_of_model(litl) {
                                Some(lits) => match rules_of_model(rs, 2) {
                                    Some(rules) => Ok(MacroModel { name, literals: lits, rules }),
                                    None => Err(ErrorKind::BadSyntax),
                                },
                                None => Err(ErrorKind::BadSyntax),
                            },
                            _ => Err(ErrorKind::BadSyntax),
                        }
                    } else {
                        Err(ErrorKind::BadSyntax)
                    }
                },
                _ => Err(ErrorKind::BadSyntax),
            },
            _ => Err(ErrorKind::TypeMismatch),
        }
    }
}

/// Parses the arguments of a `define-syntax` form into a macro.
pub fn parse_syntax_rules(tokens: &[Expr]) -> (r: Result<SteelMacro, SteelErr>)
    ensures
        (match parse_macro_model(tokens.deep_view()) {
            Ok(m) => r matches Ok(sm) && sm@ == m,
            Err(k) => r matches Err(e) && e@ == k,
        }),
{
    let ghost ts = tokens.deep_view();
    if tokens.len() != 2 {
        return Err(SteelErr::new(ErrorKind::ArityMismatch, "define-syntax expects a name and rules".to_owned()));
    }
    let name = match &tokens[0] {
        Expr::Atom(Token::Identifier(n)) => n.clone(),
        _ => {
            return Err(SteelErr::new(ErrorKind::TypeMismatch, "define-syntax expects an identifier".to_owned()));
        },
    };
    let bad = || SteelErr::new(ErrorKind::BadSyntax, String::new());
    match &tokens[1] {
        Expr::VectorVal(rs) => {
            proof {
                assert(tokens@[1] == Expr::VectorVal(*rs));
                lemma_vector_val_view(*rs);
            }
            let ghost rm = rs.deep_view();
            if rs.len() < 2 || !expr_is_ident(&rs[0], "syntax-rules") {
                return Err(SteelErr::new(ErrorKind::BadSyntax, "expected syntax-rules".to_owned()));
            }
            let lits = match &rs[1] {
                Expr::VectorVal(litl) => {
                    proof {
                        assert(rs@[1] == Expr::VectorVal(*litl));
                        lemma_vector_val_view(*litl);
                    }
                    match idents_of(litl) {
                        Some(lits) => lits,
                        None => {
                            return Err(SteelErr::new(ErrorKind::BadSyntax, "literals must be identifiers".to_owned()));
                        },
                    }
                },
                _ => {
                    return Err(SteelErr::new(ErrorKind::BadSyntax, "expected a literals list".to_owned()));
                },
            };
            let mut rules: Vec<MacroRule> = Vec::new();
            let mut i: usize = 2;
            while i < rs.len()
                invariant
                    2 <= i as int <= rm.len(),
                    ts == tokens.deep_view(),
                    rm == rs.deep_view(),
                    rm.len() == rs@.len(),
                    (match rules_of_model(rm, 2) {
                        Some(all) => parse_macro_model(ts) == Ok::<MacroModel, ErrorKind>(
                            MacroModel { name: name@, literals: lits.deep_view(), rules: all },
                        ),
                        None => parse_macro_model(ts) == Err::<MacroModel, ErrorKind>(
                            ErrorKind::BadSyntax,
                        ),
                    }),
                    (match rules_of_model(rm, 2) {
                        Some(all) => rules_of_model(rm, i as int) matches Some(rest) && all
                            =~= Seq::new(rules@.len(), |j: int| (rules@[j].pattern@, rules@[j].template@)) + rest,
                        None => rules_of_model(rm, i as int) is None,
                    }),
                decreases rm.len() - i,
            {
                let ghost pre = Seq::new(rules@.len(), |j: int| (rules@[j].pattern@, rules@[j].template@));
                match &rs[i] {
                    Expr::VectorVal(pr) => {
                        proof {
                            assert(rs@[i as int] == Expr::VectorVal(*pr));
                            lemma_vector_val_view(*pr);
                        }
                        if pr.len() != 2 {
                            proof {
                                lemma_rules_prefix_none(rm, i as int);
                            }
                            return Err(SteelErr::new(ErrorKind::BadSyntax, "a rule is a pattern and a template".to_owned()));
                        }
                        let pat = clone_expr(&pr[0]);
                        let tmpl = clone_expr(&pr[1]);
                        rules.push(MacroRule { pattern: pat, template: tmpl });
                        proof {
                            let k: int = i as int;
                            let cur = Seq::new(rules@.len(), |j: int| (rules@[j].pattern@, rules@[j].template@));
                            assert(cur =~= pre + seq![(rm[k]->List_0[0], rm[k]->List_0[1])]);
                            if let Some(all) = rules_of_model(rm, 2) {
                                if let Some(rest) = rules_of_model(rm, k) {
                                    assert(pre + rest =~= cur + rules_of_model(rm, k + 1).unwrap());
                                }
                            }
                        }
                    },
                    _ => {
                        proof {
                            lemma_rules_prefix_none(rm, i as int);
                        }
                        return Err(SteelErr::new(ErrorKind::BadSyntax, "a rule is a pattern and a template".to_owned()));
                    },
                }
                i = i + 1;
            }
            let m = SteelMacro { name, literals: lits, rules };
            proof {
                if let Some(all) = rules_of_model(rm, 2) {
                    assert(rules_of_model(rm, rm.len() as int) matches Some(e2) && e2 =~= Seq::<(
                        ExprModel,
                        ExprModel,
                    )>::empty());
                    assert(m@.rules =~= all);
                }
            }
            Ok(m)
        },
        _ => Err(SteelErr::new(ErrorKind::BadSyntax, "expected syntax rules".to_owned())),
    }
}

/// When a rule at or after position 2 is malformed, there is no rules
/// reading from any earlier position down to it.
proof fn lemma_rules_prefix_none(rm: Seq<ExprModel>, i: int)
    requires
        2 <= i < rm.len(),
        !(rm[i] matches ExprModel::List(pr) && pr.len() == 2),
    ensures
        forall|k: int| 2 <= k <= i ==> rules_of_model(rm, k) is None,
    decreases rm.len() - 2,
{
    assert forall|k: int| 2 <= k <= i implies rules_of_model(rm, k) is None by {
        lemma_rules_none_up(rm, k, i);
    }
}

proof fn lemma_rules_none_up(rm: Seq<ExprModel>, k: int, i: int)
    requires
        0 <= k <= i < rm.len(),
        !(rm[i] matches ExprModel::List(pr) && pr.len() == 2),
    ensures
        rules_of_model(rm, k) is None,
    decreases i - k,
{
    if k < i {
        lemma_rules_none_up(rm, k + 1, i);
    }
}

} // verus!
