//! Rounding arithmetic that the caller supplies.
//!
//! Sums, products, roots and trigonometry round, so they are not carried out
//! on [`Scalar`](crate::scalar::Scalar)s here: functions that need them take
//! them as closures.  Such a closure has to be a function in the mathematical
//! sense, callable everywhere and always giving the same result on the same
//! arguments.

use vstd::prelude::*;

verus! {

/// `f` is a total function of one argument.
pub open spec fn function1<A, R, F: Fn(A) -> R>(f: F) -> bool {
    &&& forall|a: A| #[trigger] call_requires(f, (a,))
    &&& forall|a: A, r: R, s: R|
        #[trigger] call_ensures(f, (a,), r) && #[trigger] call_ensures(f, (a,), s) ==> r == s
}

/// What `f` returns for `a`.
pub open spec fn image1<A, R, F: Fn(A) -> R>(f: F, a: A) -> R {
    choose|r: R| call_ensures(f, (a,), r)
}

/// `f` as a mathematical function.
pub open spec fn model1<A, R, F: Fn(A) -> R>(f: F) -> spec_fn(A) -> R {
    |a: A| image1(f, a)
}

/// `f` is a total function of two arguments.
pub open spec fn function2<A, B, R, F: Fn(A, B) -> R>(f: F) -> bool {
    &&& forall|a: A, b: B| #[trigger] call_requires(f, (a, b))
    &&& forall|a: A, b: B, r: R, s: R|
        #[trigger] call_ensures(f, (a, b), r) && #[trigger] call_ensures(f, (a, b), s) ==> r == s
}

/// What `f` returns for `a` and `b`.
pub open spec fn image2<A, B, R, F: Fn(A, B) -> R>(f: F, a: A, b: B) -> R {
    choose|r: R| call_ensures(f, (a, b), r)
}

/// `f` as a mathematical function.
pub open spec fn model2<A, B, R, F: Fn(A, B) -> R>(f: F) -> spec_fn(A, B) -> R {
    |a: A, b: B| image2(f, a, b)
}

/// `f` is a total function of three arguments.
pub open spec fn function3<A, B, C, R, F: Fn(A, B, C) -> R>(f: F) -> bool {
    &&& forall|a: A, b: B, c: C| #[trigger] call_requires(f, (a, b, c))
    &&& forall|a: A, b: B, c: C, r: R, s: R|
        #[trigger] call_ensures(f, (a, b, c), r) && #[trigger] call_ensures(f, (a, b, c), s)
            ==> r == s
}

/// What `f` returns for `a`, `b` and `c`.
pub open spec fn image3<A, B, C, R, F: Fn(A, B, C) -> R>(f: F, a: A, b: B, c: C) -> R {
    choose|r: R| call_ensures(f, (a, b, c), r)
}

} // verus!
