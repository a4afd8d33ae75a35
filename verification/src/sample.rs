//! From the evaluator's answers to the points of a line.

use vstd::prelude::*;
use crate::text::same_text;

verus! {

/// The message with which the evaluator refuses one argument for an expression that has no
/// variable.
pub const ARITY_MISMATCH: &'static str =
    "parsed expression contains 0 vars but passed slice has 1 elements";

/// Whether `message` is the evaluator's refusal of an argument for a constant expression.
pub open spec fn is_arity_message(message: Seq<char>) -> bool {
    message == ARITY_MISMATCH@
}

/// Says whether the evaluator refused its argument because the expression is a constant.
pub fn is_arity_mismatch(message: &str) -> (constant: bool)
    ensures
        constant <==> is_arity_message(message@),
{
    same_text(message, ARITY_MISMATCH)
}

/// The height of a line at one sample. A value that the evaluator computed stands. Where it
/// refused its argument because the expression has no variable, the line is level at
/// `constant`, the number that the entry text itself spells, if it spells one. Every other
/// failure, and a constant that the text does not spell, gives `zero`.
pub open spec fn height<Y>(result: Result<Y, String>, constant: Option<Y>, zero: Y) -> Y {
    match result {
        Ok(y) => y,
        Err(message) => if is_arity_message(message@) {
            match constant {
                Some(c) => c,
                None => zero,
            }
        } else {
            zero
        },
    }
}

/// The points of a line: each sampled `x` with the height of the line there.
pub open spec fn sampled<X, Y>(
    evaluated: Seq<(X, Result<Y, String>)>,
    constant: Option<Y>,
    zero: Y,
) -> Seq<(X, Y)> {
    Seq::new(
        evaluated.len(),
        |i: int| (evaluated[i].0, height(evaluated[i].1, constant, zero)),
    )
}

/// Decides the height of a line at one sample from the evaluator's answer.
pub fn resolve<Y: Copy>(result: &Result<Y, String>, constant: Option<Y>, zero: Y) -> (y: Y)
    ensures
        y == height(*result, constant, zero),
{
    match result {
        Ok(y) => *y,
        Err(message) => {
            if is_arity_mismatch(message.as_str()) {
                match constant {
                    Some(c) => c,
                    None => zero,
                }
            } else {
                zero
            }
        },
    }
}

/// Turns the evaluator's answers at the sampled places into the points of a line, one point
/// for each place and in the same order.
pub fn sample<X: Copy, Y: Copy>(
    evaluated: &Vec<(X, Result<Y, String>)>,
    constant: Option<Y>,
    zero: Y,
) -> (points: Vec<(X, Y)>)
    ensures
        points@ == sampled(evaluated@, constant, zero),
        points@.len() == evaluated@.len(),
{
    let mut points: Vec<(X, Y)> = Vec::new();
    let mut i: usize = 0;
    while i < evaluated.len()
        invariant
            i <= evaluated.len(),
            points@ == sampled(evaluated@.take(i as int), constant, zero),
        decreases evaluated.len() - i,
    {
        let y = resolve(&evaluated[i].1, constant, zero);
        points.push((evaluated[i].0, y));
        i += 1;
        assert(points@ =~= sampled(evaluated@.take(i as int), constant, zero));
    }
    assert(evaluated@.take(i as int) == evaluated@);
    points
}

/// A line has as many points as places were sampled, and each point stands at its place.
pub proof fn lemma_sampled_places<X, Y>(
    evaluated: Seq<(X, Result<Y, String>)>,
    constant: Option<Y>,
    zero: Y,
)
    ensures
        sampled(evaluated, constant, zero).len() == evaluated.len(),
        forall|i: int|
            0 <= i < evaluated.len() ==> (#[trigger] sampled(evaluated, constant, zero)[i]).0
                == evaluated[i].0,
{
}

/// The line of a constant expression is level: where the evaluator refuses every argument
/// because the expression has no variable, and the entry text spells the number `c`, every
/// point has the height `c`.
pub proof fn lemma_constant_line<X, Y>(evaluated: Seq<(X, Result<Y, String>)>, c: Y, zero: Y)
    requires
        forall|i: int|
            0 <= i < evaluated.len() ==> (#[trigger] evaluated[i]).1 is Err && is_arity_message(
                evaluated[i].1->Err_0@,
            ),
    ensures
        forall|i: int|
            0 <= i < evaluated.len() ==> (#[trigger] sampled(evaluated, Some(c), zero)[i]).1 == c,
{
    assert forall|i: int| 0 <= i < evaluated.len() implies (#[trigger] sampled(
        evaluated,
        Some(c),
        zero,
    )[i]).1 == c by {
        assert(evaluated[i].1 is Err);
    }
}

/// A failure of the evaluator never shows: where it computes no value and the expression is
/// no constant that the text spells, the point lies at `zero`.
pub proof fn lemma_failure_is_zero<Y>(result: Result<Y, String>, constant: Option<Y>, zero: Y)
    requires
        result is Err,
        !is_arity_message(result->Err_0@) || constant is None,
    ensures
        height(result, constant, zero) == zero,
{
}

} // verus!
