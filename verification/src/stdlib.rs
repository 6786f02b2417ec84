//! The bundled source files loaded into a fresh engine, in order: the
//! prelude of derived list helpers, then the contract helpers.

use vstd::prelude::*;

verus! {

/// Derived forms available to every program run with the prelude.
pub const PRELUDE: &'static str = "
(define (caar p) (car (car p)))
(define (cadr p) (car (cdr p)))
(define (cddr p) (cdr (cdr p)))
(define (id x) x)
(define (not b) (if b #f #t))
(define nil (quote ()))
";

/// Contract helpers layered over the prelude.
pub const CONTRACTS: &'static str = "
(define (assert-true b) (if b b (/ 1 0)))
";

} // verus!
