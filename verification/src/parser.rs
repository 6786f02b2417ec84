//! The reader: S-expression surface syntax to AST nodes.
//!
//! Tokens: parentheses, the quote shorthand, double-quoted strings with
//! backslash escapes for quote and backslash, `#t`/`#f` booleans (long
//! spellings included), `#\\` character literals with the named `space`
//! and `newline` forms, decimal integers, and identifiers delimited by
//! whitespace, parentheses, a string quote or a comment (a `'` inside a
//! word stays part of the word, as in `map'`). `;` comments run to the
//! end of the line. Malformed source is the `Parse` error.

use vstd::prelude::*;

use crate::ast::{Expr, ExprModel, Token, TokenModel};
use crate::errors::{ErrorKind, SteelErr};

verus! {

broadcast use vstd::seq::group_seq_axioms, vstd::std_specs::vec::group_vec_axioms;

/// Relies on `str::chars` and `Iterator::collect`: the characters of the
/// string, in order.
#[verifier::external_body]
fn chars_of(s: &str) -> (r: Vec<char>)
    ensures
        r@ == s@,
{
    s.chars().collect()
}

/// Relies on `Iterator::collect` for `String`: the string holding exactly
/// the given characters, in order.
#[verifier::external_body]
pub fn string_from_chars(v: &Vec<char>) -> (r: String)
    ensures
        r@ == v@,
{
    v.iter().collect()
}


/// Whether the character ends an atom (model).
pub open spec fn delim_char(c: char) -> bool {
    c == ' ' || c == '\t' || c == '\n' || c == '\r' || c == '(' || c == ')' || c == '"' || c
        == ';'
}

/// Whether the character is layout.
pub open spec fn ws_char(c: char) -> bool {
    c == ' ' || c == '\t' || c == '\n' || c == '\r'
}

/// The decimal value of a digit character, if it is one.
pub open spec fn digit_model(c: char) -> Option<u32> {
    if c >= '0' && c <= '9' {
        Some((c as u32 - '0' as u32) as u32)
    } else {
        None
    }
}

/// The position of the line end at or after `pos`.
pub open spec fn line_end_model(cs: Seq<char>, pos: int) -> int
    decreases cs.len() - pos,
{
    if pos < 0 || pos >= cs.len() || cs[pos] == '\n' {
        pos
    } else {
        line_end_model(cs, pos + 1)
    }
}

proof fn lemma_line_end_bounds(cs: Seq<char>, pos: int)
    requires
        0 <= pos <= cs.len(),
    ensures
        pos <= line_end_model(cs, pos) <= cs.len(),
    decreases cs.len() - pos,
{
    if pos < cs.len() && cs[pos] != '\n' {
        lemma_line_end_bounds(cs, pos + 1);
    }
}

/// The first position at or after `pos` that is neither layout nor inside
/// a comment.
pub open spec fn skip_ws_model(cs: Seq<char>, pos: int) -> int
    decreases cs.len() - pos, 1int,
    via skip_ws_model_dec
{
    if pos < 0 || pos >= cs.len() {
        pos
    } else if ws_char(cs[pos]) {
        skip_ws_model(cs, pos + 1)
    } else if cs[pos] == ';' {
        skip_ws_model(cs, line_end_model(cs, pos))
    } else {
        pos
    }
}

#[via_fn]
proof fn skip_ws_model_dec(cs: Seq<char>, pos: int) {
    if 0 <= pos < cs.len() && cs[pos] == ';' {
        assert(line_end_model(cs, pos) == line_end_model(cs, pos + 1));
        lemma_line_end_bounds(cs, pos + 1);
    }
}

proof fn lemma_skip_ws_bounds(cs: Seq<char>, pos: int)
    requires
        0 <= pos <= cs.len(),
    ensures
        pos <= skip_ws_model(cs, pos) <= cs.len(),
    decreases cs.len() - pos, 1int,
{
    if pos < cs.len() {
        if ws_char(cs[pos]) {
            lemma_skip_ws_bounds(cs, pos + 1);
        } else if cs[pos] == ';' {
            assert(line_end_model(cs, pos) == line_end_model(cs, pos + 1));
            lemma_line_end_bounds(cs, pos + 1);
            lemma_skip_ws_bounds(cs, line_end_model(cs, pos));
        }
    }
}

/// The end of the word starting at `pos`.
pub open spec fn word_end_model(cs: Seq<char>, pos: int) -> int
    decreases cs.len() - pos,
{
    if pos < 0 || pos >= cs.len() || delim_char(cs[pos]) {
        pos
    } else {
        word_end_model(cs, pos + 1)
    }
}

proof fn lemma_word_end_bounds(cs: Seq<char>, pos: int)
    requires
        0 <= pos <= cs.len(),
    ensures
        pos <= word_end_model(cs, pos) <= cs.len(),
    decreases cs.len() - pos,
{
    if pos < cs.len() && !delim_char(cs[pos]) {
        lemma_word_end_bounds(cs, pos + 1);
    }
}

/// The integer reading of a word from position `i` with accumulator
/// `acc`, negated digits.
pub open spec fn parse_int_rec(w: Seq<char>, i: int, acc: i64) -> Option<i64>
    decreases w.len() - i,
{
    if i < 0 || i >= w.len() {
        Some(acc)
    } else {
        match digit_model(w[i]) {
            Some(d) => match acc.checked_mul(10) {
                Some(a) => match a.checked_sub(d as i64) {
                    Some(a2) => parse_int_rec(w, i + 1, a2),
                    None => None,
                },
                None => None,
            },
            None => None,
        }
    }
}

/// The integer a word denotes: an optional leading minus, then decimal
/// digits; `None` on a stray character or out of range.
pub open spec fn parse_int_model(w: Seq<char>) -> Option<i64> {
    if w.len() == 0 {
        None
    } else {
        let negative = w[0] == '-';
        let start: int = if negative {
            1
        } else {
            0
        };
        if start >= w.len() {
            None
        } else {
            match parse_int_rec(w, start, 0) {
                Some(acc) => if negative {
                    Some(acc)
                } else if acc == i64::MIN {
                    None
                } else {
                    Some((-acc) as i64)
                },
                None => None,
            }
        }
    }
}

/// The body of a string literal from `i` (after the opening quote): the
/// unescaped characters and the position after the closing quote.
pub open spec fn string_body_model(cs: Seq<char>, i: int) -> Result<(Seq<char>, int), ()>
    decreases cs.len() - i,
{
    if i < 0 || i >= cs.len() {
        Err(())
    } else if cs[i] == '"' {
        Ok((Seq::empty(), i + 1))
    } else if cs[i] == '\\' {
        if i + 1 >= cs.len() {
            Err(())
        } else if cs[i + 1] == '"' || cs[i + 1] == '\\' {
            match string_body_model(cs, i + 2) {
                Ok((rest, p)) => Ok((seq![cs[i + 1]] + rest, p)),
                Err(u) => Err(u),
            }
        } else {
            Err(())
        }
    } else {
        match string_body_model(cs, i + 1) {
            Ok((rest, p)) => Ok((seq![cs[i]] + rest, p)),
            Err(u) => Err(u),
        }
    }
}

/// What one expression starting at `pos` reads to: the expression model
/// and the position after it. `Err` is malformed source.
pub open spec fn parse_expr_model(cs: Seq<char>, pos: int, depth: nat) -> Result<
    (ExprModel, int),
    (),
>
    decreases cs.len() - pos, depth, 0int,
    via parse_expr_model_dec
{
    let start = skip_ws_model(cs, pos);
    if pos < 0 || pos > cs.len() || start >= cs.len() {
        Err(())
    } else {
        let c = cs[start];
        if c == '(' {
            match parse_list_model(cs, start + 1, depth) {
                Ok((items, p)) => Ok((ExprModel::List(items), p)),
                Err(u) => Err(u),
            }
        } else if c == ')' {
            Err(())
        } else if c == '\'' {
            if depth == 0 {
                Err(())
            } else {
                match parse_expr_model(cs, start + 1, (depth - 1) as nat) {
                    Ok((e, p)) => Ok(
                        (
                            ExprModel::List(
                                seq![
                                    ExprModel::Atom(TokenModel::Identifier("quote"@)),
                                    e,
                                ],
                            ),
                            p,
                        ),
                    ),
                    Err(u) => Err(u),
                }
            }
        } else if c == '"' {
            match string_body_model(cs, start + 1) {
                Ok((body, p)) => Ok((ExprModel::Atom(TokenModel::StringLiteral(body)), p)),
                Err(u) => Err(u),
            }
        } else if c == '#' {
            if start + 1 >= cs.len() {
                Err(())
            } else if cs[start + 1] == '\\' {
                if start + 2 >= cs.len() {
                    Err(())
                } else {
                    let wend = word_end_model(cs, start + 2);
                    let word = cs.subrange(start + 2, wend);
                    if word.len() > 1 {
                        if word == "space"@ {
                            Ok((ExprModel::Atom(TokenModel::CharacterLiteral(' ')), wend))
                        } else if word == "newline"@ {
                            Ok((ExprModel::Atom(TokenModel::CharacterLiteral('\n')), wend))
                        } else {
                            Err(())
                        }
                    } else {
                        Ok(
                            (
                                ExprModel::Atom(TokenModel::CharacterLiteral(cs[start + 2])),
                                start + 3,
                            ),
                        )
                    }
                }
            } else {
                let wend = word_end_model(cs, start + 1);
                let word = cs.subrange(start + 1, wend);
                if word == "t"@ || word == "true"@ {
                    Ok((ExprModel::Atom(TokenModel::BooleanLiteral(true)), wend))
                } else if word == "f"@ || word == "false"@ {
                    Ok((ExprModel::Atom(TokenModel::BooleanLiteral(false)), wend))
                } else {
                    Err(())
                }
            }
        } else {
            let wend = word_end_model(cs, start);
            let word = cs.subrange(start, wend);
            if word.len() == 0 {
                Err(())
            } else {
                let is_int = digit_model(word[0]) is Some || (word[0] == '-' && word.len() > 1
                    && digit_model(word[1]) is Some);
                if is_int {
                    match parse_int_model(word) {
                        Some(n) => Ok((ExprModel::Atom(TokenModel::IntegerLiteral(n)), wend)),
                        None => Err(()),
                    }
                } else {
                    Ok((ExprModel::Atom(TokenModel::Identifier(word)), wend))
                }
            }
        }
    }
}

/// What the elements of a parenthesised list starting at `pos` read to,
/// up to and past the closing parenthesis.
pub open spec fn parse_list_model(cs: Seq<char>, pos: int, depth: nat) -> Result<
    (Seq<ExprModel>, int),
    (),
>
    decreases cs.len() - pos, depth, 1int,
    via parse_list_model_dec
{
    if pos < 0 || pos > cs.len() {
        Err(())
    } else {
        let next = skip_ws_model(cs, pos);
        if next >= cs.len() {
            Err(())
        } else if cs[next] == ')' {
            Ok((Seq::empty(), next + 1))
        } else {
            match parse_expr_model(cs, next, depth) {
                Ok((e, p)) => if p > pos && p <= cs.len() {
                    match parse_list_model(cs, p, depth) {
                        Ok((rest, p2)) => Ok((seq![e] + rest, p2)),
                        Err(u) => Err(u),
                    }
                } else {
                    Err(())
                },
                Err(u) => Err(u),
            }
        }
    }
}

#[via_fn]
proof fn parse_expr_model_dec(cs: Seq<char>, pos: int, depth: nat) {
    if 0 <= pos <= cs.len() {
        lemma_skip_ws_bounds(cs, pos);
    }
}

#[via_fn]
proof fn parse_list_model_dec(cs: Seq<char>, pos: int, depth: nat) {
    if 0 <= pos <= cs.len() {
        lemma_skip_ws_bounds(cs, pos);
    }
}

/// A successful read advances past `pos` and stays in the text.
proof fn lemma_parse_progress(cs: Seq<char>, pos: int, depth: nat)
    ensures
        parse_expr_model(cs, pos, depth) matches Ok((e, p)) ==> pos < p <= cs.len(),
        parse_list_model(cs, pos, depth) matches Ok((es, p)) ==> pos < p <= cs.len(),
    decreases cs.len() - pos, depth, 2int,
{
    if 0 <= pos <= cs.len() {
        lemma_skip_ws_bounds(cs, pos);
        let start = skip_ws_model(cs, pos);
        if start < cs.len() {
            let c = cs[start];
            if c == '(' {
                lemma_parse_progress(cs, start + 1, depth);
            } else if c == '\'' {
                if depth > 0 {
                    lemma_parse_progress(cs, start + 1, (depth - 1) as nat);
                }
            } else if c == '"' {
                lemma_string_body_bounds(cs, start + 1);
            } else if c == '#' {
                if start + 2 < cs.len() {
                    lemma_word_end_bounds(cs, start + 2);
                }
                if start + 1 < cs.len() {
                    lemma_word_end_bounds(cs, start + 1);
                }
            } else {
                lemma_word_end_bounds(cs, start);
            }
            // The list case of the second conclusion.
            let next = skip_ws_model(cs, pos);
            if next < cs.len() && cs[next] != ')' {
                if let Ok((e, p)) = parse_expr_model(cs, next, depth) {
                    if p > pos && p <= cs.len() {
                        lemma_parse_progress(cs, p, depth);
                    }
                }
            }
        }
    }
}

proof fn lemma_string_body_bounds(cs: Seq<char>, i: int)
    ensures
        string_body_model(cs, i) matches Ok((b, p)) ==> i < p <= cs.len(),
    decreases cs.len() - i,
{
    if 0 <= i < cs.len() {
        if cs[i] == '\\' {
            if i + 1 < cs.len() {
                lemma_string_body_bounds(cs, i + 2);
            }
        } else if cs[i] != '"' {
            lemma_string_body_bounds(cs, i + 1);
        }
    }
}

/// What a whole source text reads to: every expression in order, or that
/// the source is malformed.
pub open spec fn parse_program_rec(cs: Seq<char>, pos: int) -> Result<Seq<ExprModel>, ()>
    decreases cs.len() - pos, 3int,
    via parse_program_rec_dec
{
    if pos < 0 || pos > cs.len() {
        Err(())
    } else {
        let next = skip_ws_model(cs, pos);
        if next >= cs.len() {
            Ok(Seq::empty())
        } else {
            match parse_expr_model(cs, next, MAX_QUOTE_DEPTH as nat) {
                Ok((e, p)) => if p > pos && p <= cs.len() {
                    match parse_program_rec(cs, p) {
                        Ok(rest) => Ok(seq![e] + rest),
                        Err(u) => Err(u),
                    }
                } else {
                    Err(())
                },
                Err(u) => Err(u),
            }
        }
    }
}

#[via_fn]
proof fn parse_program_rec_dec(cs: Seq<char>, pos: int) {
}

/// The reader model: what the source text parses to.
pub open spec fn parse_model(s: Seq<char>) -> Result<Seq<ExprModel>, ()> {
    parse_program_rec(s, 0)
}


/// One unfolding step of the list reader.
proof fn lemma_parse_list_step(cs: Seq<char>, pos: int, depth: nat)
    requires
        0 <= pos <= cs.len(),
    ensures
        ({
            let next = skip_ws_model(cs, pos);
            if next >= cs.len() {
                parse_list_model(cs, pos, depth) == Err::<(Seq<ExprModel>, int), ()>(())
            } else if cs[next] == ')' {
                parse_list_model(cs, pos, depth) == Ok::<(Seq<ExprModel>, int), ()>(
                    (Seq::empty(), next + 1),
                )
            } else {
                match parse_expr_model(cs, next, depth) {
                    Ok((e, p)) => if p > pos && p <= cs.len() {
                        parse_list_model(cs, pos, depth) == (match parse_list_model(
                            cs,
                            p,
                            depth,
                        ) {
                            Ok((rest, p2)) => Ok::<(Seq<ExprModel>, int), ()>(
                                (seq![e] + rest, p2),
                            ),
                            Err(u) => Err(u),
                        })
                    } else {
                        parse_list_model(cs, pos, depth) == Err::<(Seq<ExprModel>, int), ()>(())
                    },
                    Err(u) => parse_list_model(cs, pos, depth) == Err::<
                        (Seq<ExprModel>, int),
                        (),
                    >(()),
                }
            }
        }),
{
}

/// One unfolding step of the string-body reader.
proof fn lemma_string_body_step(cs: Seq<char>, i: int)
    requires
        0 <= i,
    ensures
        ({
            if i >= cs.len() {
                string_body_model(cs, i) == Err::<(Seq<char>, int), ()>(())
            } else if cs[i] == '"' {
                string_body_model(cs, i) == Ok::<(Seq<char>, int), ()>((Seq::empty(), i + 1))
            } else if cs[i] == '\\' {
                if i + 1 >= cs.len() || !(cs[i + 1] == '"' || cs[i + 1] == '\\') {
                    string_body_model(cs, i) == Err::<(Seq<char>, int), ()>(())
                } else {
                    string_body_model(cs, i) == (match string_body_model(cs, i + 2) {
                        Ok((rest, p)) => Ok::<(Seq<char>, int), ()>((seq![cs[i + 1]] + rest, p)),
                        Err(u) => Err(u),
                    })
                }
            } else {
                string_body_model(cs, i) == (match string_body_model(cs, i + 1) {
                    Ok((rest, p)) => Ok::<(Seq<char>, int), ()>((seq![cs[i]] + rest, p)),
                    Err(u) => Err(u),
                })
            }
        }),
{
}

/// One unfolding step of the program reader.
proof fn lemma_parse_program_step(cs: Seq<char>, pos: int)
    requires
        0 <= pos <= cs.len(),
    ensures
        ({
            let next = skip_ws_model(cs, pos);
            if next >= cs.len() {
                parse_program_rec(cs, pos) == Ok::<Seq<ExprModel>, ()>(Seq::empty())
            } else {
                match parse_expr_model(cs, next, MAX_QUOTE_DEPTH as nat) {
                    Ok((e, p)) => if p > pos && p <= cs.len() {
                        parse_program_rec(cs, pos) == (match parse_program_rec(cs, p) {
                            Ok(rest) => Ok::<Seq<ExprModel>, ()>(seq![e] + rest),
                            Err(u) => Err(u),
                        })
                    } else {
                        parse_program_rec(cs, pos) == Err::<Seq<ExprModel>, ()>(())
                    },
                    Err(u) => parse_program_rec(cs, pos) == Err::<Seq<ExprModel>, ()>(()),
                }
            }
        }),
{
}

/// The exported progress fact of the reader.
proof fn lemma_expr_progress(cs: Seq<char>, pos: int, depth: nat)
    ensures
        parse_expr_model(cs, pos, depth) matches Ok((e, p)) ==> pos < p <= cs.len(),
{
    lemma_parse_progress(cs, pos, depth);
}


/// The defining equation of the expression reader, one unfolding.
proof fn lemma_parse_expr_open(cs: Seq<char>, pos: int, depth: nat)
    ensures
        parse_expr_model(cs, pos, depth) == ({
    let start = skip_ws_model(cs, pos);
    if pos < 0 || pos > cs.len() || start >= cs.len() {
        Err(())
    } else {
        let c = cs[start];
        if c == '(' {
            match parse_list_model(cs, start + 1, depth) {
                Ok((items, p)) => Ok((ExprModel::List(items), p)),
                Err(u) => Err(u),
            }
        } else if c == ')' {
            Err(())
        } else if c == '\'' {
            if depth == 0 {
                Err(())
            } else {
                match parse_expr_model(cs, start + 1, (depth - 1) as nat) {
                    Ok((e, p)) => Ok(
                        (
                            ExprModel::List(
                                seq![
                                    ExprModel::Atom(TokenModel::Identifier("quote"@)),
                                    e,
                                ],
                            ),
                            p,
                        ),
                    ),
                    Err(u) => Err(u),
                }
            }
        } else if c == '"' {
            match string_body_model(cs, start + 1) {
                Ok((body, p)) => Ok((ExprModel::Atom(TokenModel::StringLiteral(body)), p)),
                Err(u) => Err(u),
            }
        } else if c == '#' {
            if start + 1 >= cs.len() {
                Err(())
            } else if cs[start + 1] == '\\' {
                if start + 2 >= cs.len() {
                    Err(())
                } else {
                    let wend = word_end_model(cs, start + 2);
                    let word = cs.subrange(start + 2, wend);
                    if word.len() > 1 {
                        if word == "space"@ {
                            Ok((ExprModel::Atom(TokenModel::CharacterLiteral(' ')), wend))
                        } else if word == "newline"@ {
                            Ok((ExprModel::Atom(TokenModel::CharacterLiteral('\n')), wend))
                        } else {
                            Err(())
                        }
                    } else {
                        Ok(
                            (
                                ExprModel::Atom(TokenModel::CharacterLiteral(cs[start + 2])),
                                start + 3,
                            ),
                        )
                    }
                }
            } else {
                let wend = word_end_model(cs, start + 1);
                let word = cs.subrange(start + 1, wend);
                if word == "t"@ || word == "true"@ {
                    Ok((ExprModel::Atom(TokenModel::BooleanLiteral(true)), wend))
                } else if word == "f"@ || word == "false"@ {
                    Ok((ExprModel::Atom(TokenModel::BooleanLiteral(false)), wend))
                } else {
                    Err(())
                }
            }
        } else {
            let wend = word_end_model(cs, start);
            let word = cs.subrange(start, wend);
            if word.len() == 0 {
                Err(())
            } else {
                let is_int = digit_model(word[0]) is Some || (word[0] == '-' && word.len() > 1
                    && digit_model(word[1]) is Some);
                if is_int {
                    match parse_int_model(word) {
                        Some(n) => Ok((ExprModel::Atom(TokenModel::IntegerLiteral(n)), wend)),
                        None => Err(()),
                    }
                } else {
                    Ok((ExprModel::Atom(TokenModel::Identifier(word)), wend))
                }
            }
        }
    }
}),
{
}

/// Whether the character ends an atom.
fn is_delimiter(c: char) -> (r: bool)
    ensures
        r == delim_char(c),
{
    c == ' ' || c == '\t' || c == '\n' || c == '\r' || c == '(' || c == ')' || c == '"' || c
        == ';'
}

/// Whether the character is a decimal digit; its value if so.
fn digit_value(c: char) -> (r: Option<u32>)
    ensures
        r == digit_model(c),
{
    if c >= '0' && c <= '9' {
        Some(c as u32 - '0' as u32)
    } else {
        None
    }
}

/// Skips whitespace and `;` comments.
fn skip_ws(cs: &Vec<char>, pos: usize) -> (r: usize)
    requires
        pos <= cs@.len(),
    ensures
        pos <= r <= cs@.len(),
        r as int == skip_ws_model(cs@, pos as int),
    decreases cs@.len() - pos,
{
    proof {
        lemma_skip_ws_bounds(cs@, pos as int);
    }
    if pos >= cs.len() {
        return pos;
    }
    let c = cs[pos];
    if c == ' ' || c == '\t' || c == '\n' || c == '\r' {
        skip_ws(cs, pos + 1)
    } else if c == ';' {
        let mut i = pos;
        while i < cs.len() && cs[i] != '\n'
            invariant
                pos <= i as int <= cs@.len(),
                line_end_model(cs@, pos as int) == line_end_model(cs@, i as int),
            decreases cs@.len() - i,
        {
            i = i + 1;
        }
        proof {
            assert(line_end_model(cs@, i as int) == i as int);
        }
        skip_ws(cs, i)
    } else {
        pos
    }
}

/// Reads one expression starting at `pos`: exactly what the reader model
/// states, with strict progress on success. The token classes are read by
/// one helper each, keeping every proof obligation small.
fn parse_expr(cs: &Vec<char>, pos: usize, depth: usize) -> (r: Result<(Expr, usize), SteelErr>)
    requires
        pos <= cs@.len(),
    ensures
        (r matches Ok(p) ==> pos < p.1 <= cs@.len()),
        (r matches Err(e) ==> e@ == ErrorKind::Parse),
        (match parse_expr_model(cs@, pos as int, depth as nat) {
            Ok((em, p)) => r matches Ok(pr) && pr.0@ == em && pr.1 as int == p,
            Err(u) => r is Err,
        }),
    decreases cs@.len() - pos, depth, 1int,
{
    proof {
        lemma_parse_expr_open(cs@, pos as int, depth as nat);
        lemma_parse_progress(cs@, pos as int, depth as nat);
    }
    let ghost target = parse_expr_model(cs@, pos as int, depth as nat);
    let start = skip_ws(cs, pos);
    if start >= cs.len() {
        return Err(SteelErr::new(ErrorKind::Parse, "unexpected end of input".to_owned()));
    }
    let c = cs[start];
    if c == '(' {
        parse_list_tail(cs, pos, start, depth)
    } else if c == ')' {
        Err(SteelErr::new(ErrorKind::Parse, "unexpected closing parenthesis".to_owned()))
    } else if c == '\'' {
        if depth == 0 {
            return Err(SteelErr::new(ErrorKind::Parse, "quote nesting too deep".to_owned()));
        }
        match parse_expr(cs, start + 1, depth - 1) {
            Ok((e, p2)) => {
                let mut items: Vec<Expr> = Vec::new();
                items.push(Expr::Atom(Token::Identifier("quote".to_owned())));
                items.push(e);
                let r = Expr::VectorVal(items);
                proof {
                    crate::ast::lemma_vector_val_view(r->VectorVal_0);
                    if let Ok((em, p)) = target {
                        if let (ExprModel::List(a), ExprModel::List(b)) = (r@, em) {
                            assert(a =~= b);
                        }
                    }
                    assert(target matches Ok(tp) && r@ == tp.0 && tp.1 == p2 as int);
                }
                Ok((r, p2))
            },
            Err(e) => Err(e),
        }
    } else if c == '"' {
        parse_string_tail(cs, pos, start, depth)
    } else if c == '#' {
        parse_hash_tail(cs, pos, start, depth)
    } else {
        parse_word_tail(cs, pos, start, depth)
    }
}

/// Reads a parenthesised list whose opening parenthesis stands at `start`.
fn parse_list_tail(cs: &Vec<char>, pos: usize, start: usize, depth: usize) -> (r: Result<
    (Expr, usize),
    SteelErr,
>)
    requires
        pos <= cs@.len(),
        pos <= start < cs@.len(),
        start as int == skip_ws_model(cs@, pos as int),
        cs@[start as int] == '(',
    ensures
        (r matches Ok(p) ==> pos < p.1 <= cs@.len()),
        (r matches Err(e) ==> e@ == ErrorKind::Parse),
        (match parse_expr_model(cs@, pos as int, depth as nat) {
            Ok((em, p)) => r matches Ok(pr) && pr.0@ == em && pr.1 as int == p,
            Err(u) => r is Err,
        }),
    decreases cs@.len() - pos, depth, 0int,
{
    proof {
        lemma_parse_expr_open(cs@, pos as int, depth as nat);
        lemma_parse_progress(cs@, pos as int, depth as nat);
    }
    let ghost target = parse_expr_model(cs@, pos as int, depth as nat);
    let n = cs.len();
    proof {
        assert(start < n);
    }
    let mut items: Vec<Expr> = Vec::new();
    let mut cur = start + 1;
    proof {
        assert(target == (match parse_list_model(cs@, start as int + 1, depth as nat) {
            Ok((its, p)) => Ok::<(ExprModel, int), ()>((ExprModel::List(its), p)),
            Err(u) => Err(u),
        }));
    }
    loop
        invariant_except_break
            pos <= start,
            start < cur <= cs@.len(),
            start as int == skip_ws_model(cs@, pos as int),
            target == parse_expr_model(cs@, pos as int, depth as nat),
            target == (match parse_list_model(cs@, start as int + 1, depth as nat) {
                Ok((its, p)) => Ok::<(ExprModel, int), ()>((ExprModel::List(its), p)),
                Err(u) => Err(u),
            }),
            (match parse_list_model(cs@, cur as int, depth as nat) {
                Ok((es, p)) => parse_list_model(cs@, start as int + 1, depth as nat) matches Ok(
                    whole,
                ) && whole.0 =~= items.deep_view() + es && whole.1 == p,
                Err(u) => parse_list_model(cs@, start as int + 1, depth as nat) is Err,
            }),
        ensures
            pos < cur <= cs@.len(),
            target matches Ok(tp) && tp.0 == ExprModel::List(items.deep_view()) && tp.1
                == cur as int,
        decreases cs@.len() - cur,
    {
        proof {
            lemma_parse_list_step(cs@, cur as int, depth as nat);
        }
        let next = skip_ws(cs, cur);
        if next >= cs.len() {
            return Err(SteelErr::new(ErrorKind::Parse, "unbalanced parenthesis".to_owned()));
        }
        if cs[next] == ')' {
            proof {
                if let Ok((es, p)) = parse_list_model(cs@, cur as int, depth as nat) {
                    assert(items.deep_view() + es =~= items.deep_view());
                }
            }
            cur = next + 1;
            break ;
        }
        proof {
            lemma_parse_progress(cs@, next as int, depth as nat);
        }
        let ghost pre = items.deep_view();
        match parse_expr(cs, next, depth) {
            Ok((e, p2)) => {
                items.push(e);
                proof {
                    assert(items.deep_view() =~= pre.push(items@[items@.len() - 1]@));
                    if let Ok((es, p)) = parse_list_model(cs@, p2 as int, depth as nat) {
                        if let Ok((es0, _)) = parse_list_model(cs@, cur as int, depth as nat) {
                            assert(pre + es0 =~= items.deep_view() + es);
                        }
                    }
                }
                cur = p2;
            },
            Err(e) => {
                return Err(e);
            },
        }
    }
    let r = Expr::VectorVal(items);
    proof {
        crate::ast::lemma_vector_val_view(r->VectorVal_0);
        assert(target matches Ok(tp) && r@ == tp.0 && tp.1 == cur as int);
    }
    Ok((r, cur))
}

/// Reads a string literal whose opening quote stands at `start`.
fn parse_string_tail(cs: &Vec<char>, pos: usize, start: usize, depth: usize) -> (r:
    Result<(Expr, usize), SteelErr>)
    requires
        pos <= cs@.len(),
        pos <= start < cs@.len(),
        start as int == skip_ws_model(cs@, pos as int),
        cs@[start as int] == '"',
    ensures
        (r matches Ok(p) ==> pos < p.1 <= cs@.len()),
        (r matches Err(e) ==> e@ == ErrorKind::Parse),
        (match parse_expr_model(cs@, pos as int, depth as nat) {
            Ok((em, p)) => r matches Ok(pr) && pr.0@ == em && pr.1 as int == p,
            Err(u) => r is Err,
        }),
{
    proof {
        lemma_parse_expr_open(cs@, pos as int, depth as nat);
        lemma_parse_progress(cs@, pos as int, depth as nat);
    }
    let ghost target = parse_expr_model(cs@, pos as int, depth as nat);
    let n = cs.len();
    proof {
        assert(start < n);
    }
    let mut buf: Vec<char> = Vec::new();
    let mut i = start + 1;
    loop
        invariant_except_break
            pos <= start,
            start < i <= cs@.len(),
            start as int == skip_ws_model(cs@, pos as int),
            start < cs@.len(),
            cs@[start as int] == '"',
            target == parse_expr_model(cs@, pos as int, depth as nat),
            target == (match string_body_model(cs@, start as int + 1) {
                Ok((body, p)) => Ok::<(ExprModel, int), ()>(
                    (ExprModel::Atom(TokenModel::StringLiteral(body)), p),
                ),
                Err(u) => Err(u),
            }),
            (match string_body_model(cs@, i as int) {
                Ok((rest, p)) => string_body_model(cs@, start as int + 1) matches Ok(whole)
                    && whole.0 =~= buf@ + rest && whole.1 == p,
                Err(u) => string_body_model(cs@, start as int + 1) is Err,
            }),
        ensures
            pos < i <= cs@.len(),
            string_body_model(cs@, start as int + 1) matches Ok(whole) && whole.0 == buf@
                && whole.1 == i as int,
        decreases cs@.len() - i,
    {
        proof {
            lemma_string_body_step(cs@, i as int);
        }
        if i >= cs.len() {
            return Err(SteelErr::new(ErrorKind::Parse, "unterminated string".to_owned()));
        }
        let ch = cs[i];
        if ch == '"' {
            proof {
                if let Ok((rest, p)) = string_body_model(cs@, i as int) {
                    assert(buf@ + rest =~= buf@);
                }
            }
            i = i + 1;
            break ;
        }
        if ch == '\\' {
            if i + 1 >= cs.len() {
                return Err(SteelErr::new(ErrorKind::Parse, "unterminated escape".to_owned()));
            }
            let e = cs[i + 1];
            if e == '"' || e == '\\' {
                let ghost pre = buf@;
                buf.push(e);
                proof {
                    if let Ok((rest, p)) = string_body_model(cs@, i as int + 2) {
                        assert(pre + (seq![cs@[i as int + 1]] + rest) =~= buf@ + rest);
                    }
                }
                i = i + 2;
            } else {
                return Err(SteelErr::new(ErrorKind::Parse, "unknown escape".to_owned()));
            }
        } else {
            let ghost pre = buf@;
            buf.push(ch);
            proof {
                if let Ok((rest, p)) = string_body_model(cs@, i as int + 1) {
                    assert(pre + (seq![cs@[i as int]] + rest) =~= buf@ + rest);
                }
            }
            i = i + 1;
        }
    }
    let sr = Expr::Atom(Token::StringLiteral(string_from_chars(&buf)));
    proof {
        assert(target matches Ok(tp) && sr@ == tp.0 && tp.1 == i as int);
    }
    Ok((sr, i))
}

/// Reads a boolean or character literal whose hash stands at `start`.
#[verifier::rlimit(100)]
fn parse_hash_tail(cs: &Vec<char>, pos: usize, start: usize, depth: usize) -> (r:
    Result<(Expr, usize), SteelErr>)
    requires
        pos <= cs@.len(),
        pos <= start < cs@.len(),
        start as int == skip_ws_model(cs@, pos as int),
        cs@[start as int] == '#',
    ensures
        (r matches Ok(p) ==> pos < p.1 <= cs@.len()),
        (r matches Err(e) ==> e@ == ErrorKind::Parse),
        (parse_expr_model(cs@, pos as int, depth as nat) matches Ok(okp) ==> (r matches Ok(pr)
            && pr.0@ == okp.0 && pr.1 as int == okp.1)),
        (parse_expr_model(cs@, pos as int, depth as nat) is Err ==> r is Err),
{
    proof {
        lemma_parse_expr_open(cs@, pos as int, depth as nat);
        lemma_parse_progress(cs@, pos as int, depth as nat);
    }
    let ghost target = parse_expr_model(cs@, pos as int, depth as nat);
    let n = cs.len();
    proof {
        assert(start < n);
    }
    if start + 1 >= cs.len() {
        proof {
            assert(target is Err);
        }
        return Err(SteelErr::new(ErrorKind::Parse, "lone hash".to_owned()));
    }
    let c2 = cs[start + 1];
    if c2 == '\\' {
        parse_char_tail(cs, pos, start, depth)
    } else {
        parse_bool_tail(cs, pos, start, depth)
    }
}


/// The reader's meaning on a character literal: the `#\\` form at the
/// first token position.
proof fn lemma_parse_hash_char(cs: Seq<char>, pos: int, depth: nat)
    requires
        0 <= pos <= cs.len(),
        skip_ws_model(cs, pos) < cs.len(),
        cs[skip_ws_model(cs, pos)] == '#',
        skip_ws_model(cs, pos) + 1 < cs.len(),
        cs[skip_ws_model(cs, pos) + 1] == '\\',
    ensures
        ({
            let start = skip_ws_model(cs, pos);
            if start + 2 >= cs.len() {
                parse_expr_model(cs, pos, depth) == Err::<(ExprModel, int), ()>(())
            } else {
                let wend = word_end_model(cs, start + 2);
                let word = cs.subrange(start + 2, wend);
                if word.len() > 1 {
                    if word == "space"@ {
                        parse_expr_model(cs, pos, depth) == Ok::<(ExprModel, int), ()>(
                            (ExprModel::Atom(TokenModel::CharacterLiteral(' ')), wend),
                        )
                    } else if word == "newline"@ {
                        parse_expr_model(cs, pos, depth) == Ok::<(ExprModel, int), ()>(
                            (ExprModel::Atom(TokenModel::CharacterLiteral('\n')), wend),
                        )
                    } else {
                        parse_expr_model(cs, pos, depth) == Err::<(ExprModel, int), ()>(())
                    }
                } else {
                    parse_expr_model(cs, pos, depth) == Ok::<(ExprModel, int), ()>(
                        (ExprModel::Atom(TokenModel::CharacterLiteral(cs[start + 2])), start + 3),
                    )
                }
            }
        }),
{
}

/// Reads a character literal whose hash stands at `start`.
fn parse_char_tail(cs: &Vec<char>, pos: usize, start: usize, depth: usize) -> (r: Result<
    (Expr, usize),
    SteelErr,
>)
    requires
        pos <= cs@.len(),
        pos <= start < cs@.len(),
        start as int == skip_ws_model(cs@, pos as int),
        cs@[start as int] == '#',
        start as int + 1 < cs@.len(),
        cs@[start as int + 1] == '\\',
    ensures
        (r matches Ok(p) ==> pos < p.1 <= cs@.len()),
        (r matches Err(e) ==> e@ == ErrorKind::Parse),
        (parse_expr_model(cs@, pos as int, depth as nat) matches Ok(okp) ==> (r matches Ok(pr)
            && pr.0@ == okp.0 && pr.1 as int == okp.1)),
        (parse_expr_model(cs@, pos as int, depth as nat) is Err ==> r is Err),
{
    proof {
        lemma_skip_ws_bounds(cs@, pos as int);
        lemma_parse_hash_char(cs@, pos as int, depth as nat);
    }
    let ghost target = parse_expr_model(cs@, pos as int, depth as nat);
    let n = cs.len();
    proof {
        assert(start < n);
    }
    if start + 2 >= cs.len() {
        return Err(SteelErr::new(ErrorKind::Parse, "missing character".to_owned()));
    }
    // A named character or a single glyph.
    let (word, wend) = read_word(cs, start + 2);
    if word.len() > 1 {
        let ws = string_from_chars(&word);
        if crate::ast::str_eq(&ws, "space") {
            return Ok((char_atom(' '), wend));
        }
        if crate::ast::str_eq(&ws, "newline") {
            return Ok((char_atom('\n'), wend));
        }
        return Err(SteelErr::new(ErrorKind::Parse, "unknown character name".to_owned()));
    }
    let ch = cs[start + 2];
    Ok((char_atom(ch), start + 3))
}

/// Reads a boolean literal whose hash stands at `start`.
fn parse_bool_tail(cs: &Vec<char>, pos: usize, start: usize, depth: usize) -> (r: Result<
    (Expr, usize),
    SteelErr,
>)
    requires
        pos <= cs@.len(),
        pos <= start < cs@.len(),
        start as int == skip_ws_model(cs@, pos as int),
        cs@[start as int] == '#',
        start as int + 1 < cs@.len(),
        cs@[start as int + 1] != '\\',
    ensures
        (r matches Ok(p) ==> pos < p.1 <= cs@.len()),
        (r matches Err(e) ==> e@ == ErrorKind::Parse),
        (parse_expr_model(cs@, pos as int, depth as nat) matches Ok(okp) ==> (r matches Ok(pr)
            && pr.0@ == okp.0 && pr.1 as int == okp.1)),
        (parse_expr_model(cs@, pos as int, depth as nat) is Err ==> r is Err),
{
    proof {
        lemma_parse_expr_open(cs@, pos as int, depth as nat);
        lemma_parse_progress(cs@, pos as int, depth as nat);
    }
    let ghost target = parse_expr_model(cs@, pos as int, depth as nat);
    let n = cs.len();
    proof {
        assert(start < n);
    }
    let (word, wend) = read_word(cs, start + 1);
    let ws = string_from_chars(&word);
    if crate::ast::str_eq(&ws, "t") || crate::ast::str_eq(&ws, "true") {
        proof {
            assert(target matches Ok(tp) && tp.0 == ExprModel::Atom(
                TokenModel::BooleanLiteral(true),
            ) && tp.1 == wend as int);
        }
        Ok((Expr::Atom(Token::BooleanLiteral(true)), wend))
    } else if crate::ast::str_eq(&ws, "f") || crate::ast::str_eq(&ws, "false") {
        proof {
            assert(target matches Ok(tp) && tp.0 == ExprModel::Atom(
                TokenModel::BooleanLiteral(false),
            ) && tp.1 == wend as int);
        }
        Ok((Expr::Atom(Token::BooleanLiteral(false)), wend))
    } else {
        proof {
            assert(target is Err);
        }
        Err(SteelErr::new(ErrorKind::Parse, "unknown hash syntax".to_owned()))
    }
}

/// Reads an identifier or integer word starting at `start`.
fn parse_word_tail(cs: &Vec<char>, pos: usize, start: usize, depth: usize) -> (r:
    Result<(Expr, usize), SteelErr>)
    requires
        pos <= cs@.len(),
        pos <= start < cs@.len(),
        start as int == skip_ws_model(cs@, pos as int),
        cs@[start as int] != '(',
        cs@[start as int] != ')',
        cs@[start as int] != '\'',
        cs@[start as int] != '"',
        cs@[start as int] != '#',
    ensures
        (r matches Ok(p) ==> pos < p.1 <= cs@.len()),
        (r matches Err(e) ==> e@ == ErrorKind::Parse),
        (match parse_expr_model(cs@, pos as int, depth as nat) {
            Ok((em, p)) => r matches Ok(pr) && pr.0@ == em && pr.1 as int == p,
            Err(u) => r is Err,
        }),
{
    proof {
        lemma_parse_expr_open(cs@, pos as int, depth as nat);
        lemma_parse_progress(cs@, pos as int, depth as nat);
    }
    let ghost target = parse_expr_model(cs@, pos as int, depth as nat);
    let (word, wend) = read_word(cs, start);
    let ghost wm = cs@.subrange(start as int, wend as int);
    proof {
        assert(word@ == wm);
    }
    if word.len() == 0 {
        return Err(SteelErr::new(ErrorKind::Parse, "empty token".to_owned()));
    }
    // A sign followed by a digit, or a digit, begins an integer.
    let first = word[0];
    let is_int = digit_value(first).is_some() || (first == '-' && word.len() > 1 && digit_value(
        word[1],
    ).is_some());
    proof {
        assert(first == wm[0]);
        assert(is_int == (digit_model(wm[0]) is Some || (wm[0] == '-' && wm.len() > 1
            && digit_model(wm[1]) is Some)));
    }
    if is_int {
        match parse_integer(&word) {
            Some(n) => {
                proof {
                    assert(target == Ok::<(ExprModel, int), ()>(
                        (ExprModel::Atom(TokenModel::IntegerLiteral(n)), wend as int),
                    ));
                }
                Ok((Expr::Atom(Token::IntegerLiteral(n)), wend))
            },
            None => Err(SteelErr::new(ErrorKind::Parse, "malformed number".to_owned())),
        }
    } else {
        proof {
            assert(target == Ok::<(ExprModel, int), ()>(
                (ExprModel::Atom(TokenModel::Identifier(wm)), wend as int),
            ));
        }
        Ok((Expr::Atom(Token::Identifier(string_from_chars(&word))), wend))
    }
}

/// Reads characters up to the next delimiter.
fn read_word(cs: &Vec<char>, pos: usize) -> (r: (Vec<char>, usize))
    requires
        pos <= cs@.len(),
    ensures
        pos <= r.1 <= cs@.len(),
        r.1 - pos == r.0@.len(),
        r.1 as int == word_end_model(cs@, pos as int),
        r.0@ == cs@.subrange(pos as int, r.1 as int),
    decreases cs@.len() - pos,
{
    let mut out: Vec<char> = Vec::new();
    let mut i = pos;
    while i < cs.len() && !is_delimiter(cs[i])
        invariant
            pos <= i as int <= cs@.len(),
            i - pos == out@.len(),
            word_end_model(cs@, pos as int) == word_end_model(cs@, i as int),
            out@ =~= cs@.subrange(pos as int, i as int),
        decreases cs@.len() - i,
    {
        out.push(cs[i]);
        proof {
            assert(out@ =~= cs@.subrange(pos as int, i as int + 1));
        }
        i = i + 1;
    }
    proof {
        assert(word_end_model(cs@, i as int) == i as int);
    }
    (out, i)
}

/// Reads a decimal integer with an optional leading minus; `None` when a
/// character is not a digit or the value leaves the integer range.
fn parse_integer(word: &Vec<char>) -> (r: Option<i64>)
    requires
        word@.len() > 0,
    ensures
        r == parse_int_model(word@),
{
    let negative = word[0] == '-';
    let ghost start: int = if negative {
        1int
    } else {
        0int
    };
    let mut i: usize = if negative {
        1
    } else {
        0
    };
    if i >= word.len() {
        return None;
    }
    let mut acc: i64 = 0;
    while i < word.len()
        invariant
            start <= i as int <= word@.len(),
            start < word@.len(),
            word@.len() > 0,
            negative == (word@[0] == '-'),
            start == (if negative {
                1int
            } else {
                0int
            }),
            parse_int_rec(word@, start, 0) == parse_int_rec(word@, i as int, acc),
        decreases word@.len() - i,
    {
        let d = match digit_value(word[i]) {
            Some(d) => d,
            None => {
                return None;
            },
        };
        // Accumulate negatively so the minimum integer is representable.
        acc = match acc.checked_mul(10) {
            Some(a) => a,
            None => {
                return None;
            },
        };
        acc = match acc.checked_sub(d as i64) {
            Some(a) => a,
            None => {
                return None;
            },
        };
        i = i + 1;
    }
    if negative {
        Some(acc)
    } else if acc == i64::MIN {
        None
    } else {
        Some(-acc)
    }
}

/// The quote-shorthand nesting allowed while reading one phrase.
pub const MAX_QUOTE_DEPTH: usize = 255;

/// Reads every expression of the source text; `Parse` on malformed
/// source, including unbalanced or unterminated forms.
pub fn parse_program(src: &str) -> (r: Result<Vec<Expr>, SteelErr>)
    ensures
        (match parse_model(src@) {
            Ok(es) => r matches Ok(v) && v.deep_view() == es,
            Err(u) => r matches Err(e) && e@ == ErrorKind::Parse,
        }),
{
    let cs = chars_of(src);
    let mut out: Vec<Expr> = Vec::new();
    let mut pos: usize = 0;
    loop
        invariant_except_break
            pos <= cs@.len(),
            cs@ == src@,
            (match parse_program_rec(cs@, pos as int) {
                Ok(rest) => parse_program_rec(cs@, 0) matches Ok(all) && all =~= out.deep_view()
                    + rest,
                Err(u) => parse_program_rec(cs@, 0) is Err,
            }),
        ensures
            parse_program_rec(cs@, 0) matches Ok(all) && all == out.deep_view() && cs@ == src@,
        decreases cs@.len() - pos,
    {
        proof {
            lemma_parse_program_step(cs@, pos as int);
        }
        let next = skip_ws(&cs, pos);
        if next >= cs.len() {
            proof {
                if let Ok(rest) = parse_program_rec(cs@, pos as int) {
                    assert(out.deep_view() + rest =~= out.deep_view());
                }
            }
            break ;
        }
        proof {
            lemma_parse_progress(cs@, next as int, MAX_QUOTE_DEPTH as nat);
        }
        let ghost pre = out.deep_view();
        match parse_expr(&cs, next, MAX_QUOTE_DEPTH) {
            Ok((e, p2)) => {
                out.push(e);
                proof {
                    assert(out.deep_view() =~= pre.push(out@[out@.len() - 1]@));
                    if let Ok(rest) = parse_program_rec(cs@, pos as int) {
                        if let Ok(r2) = parse_program_rec(cs@, p2 as int) {
                            assert(pre + rest =~= out.deep_view() + r2);
                        }
                    }
                }
                pos = p2;
            },
            Err(e) => {
                return Err(e);
            },
        }
    }
    Ok(out)
}


/// The decimal digit character for `d`.
pub open spec fn dec_digit(d: nat) -> char {
    if d == 0 {
        '0'
    } else if d == 1 {
        '1'
    } else if d == 2 {
        '2'
    } else if d == 3 {
        '3'
    } else if d == 4 {
        '4'
    } else if d == 5 {
        '5'
    } else if d == 6 {
        '6'
    } else if d == 7 {
        '7'
    } else if d == 8 {
        '8'
    } else {
        '9'
    }
}

/// The decimal spelling of a natural number.
pub open spec fn dec_seq(n: nat) -> Seq<char>
    decreases n,
{
    if n < 10 {
        seq![dec_digit(n)]
    } else {
        dec_seq(n / 10).push(dec_digit(n % 10))
    }
}

/// One decimal digit, as a character.
fn dec_digit_char(d: usize) -> (c: char)
    requires
        d < 10,
    ensures
        c == dec_digit(d as nat),
{
    if d == 0 {
        '0'
    } else if d == 1 {
        '1'
    } else if d == 2 {
        '2'
    } else if d == 3 {
        '3'
    } else if d == 4 {
        '4'
    } else if d == 5 {
        '5'
    } else if d == 6 {
        '6'
    } else if d == 7 {
        '7'
    } else if d == 8 {
        '8'
    } else {
        '9'
    }
}

/// The decimal digits of `n`, most significant first.
fn dec_chars(n: usize) -> (r: Vec<char>)
    ensures
        r@ == dec_seq(n as nat),
    decreases n,
{
    if n < 10 {
        let mut v: Vec<char> = Vec::new();
        v.push(dec_digit_char(n));
        proof {
            assert(v@ =~= dec_seq(n as nat));
        }
        v
    } else {
        let mut v = dec_chars(n / 10);
        v.push(dec_digit_char(n % 10));
        v
    }
}

/// The decimal spelling of `n` as a string.
pub fn usize_to_string(n: usize) -> (r: String)
    ensures
        r@ == dec_seq(n as nat),
{
    let v = dec_chars(n);
    string_from_chars(&v)
}



/// A character-literal leaf.
fn char_atom(ch: char) -> (r: Expr)
    ensures
        r@ == ExprModel::Atom(TokenModel::CharacterLiteral(ch)),
{
    Expr::Atom(Token::CharacterLiteral(ch))
}


} // verus!
