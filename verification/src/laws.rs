//! What holds of the calculator in every state, proved over its view.

use vstd::prelude::*;
use crate::entry::EntryView;
use crate::euler::parse_source;
use crate::grapher::{
    lemma_first_failure, lemma_no_failure, GrapherView, MAX_ENTRIES, MAX_POINTS,
    MIN_POINTS,
};
use crate::sample::sampled;
use crate::url::{lemma_url_round_trip, plain_texts, unparsed_entries, url_string, url_texts};

verus! {

/// The calculator starts well formed, and every action keeps it so.
pub proof fn lemma_actions_keep_wf<F>(
    state: GrapherView<F>,
    index: int,
    text: Seq<char>,
    outcome: Result<F, Seq<char>>,
    points: nat,
)
    requires
        state.wf(),
    ensures
        GrapherView::<F>::initial().wf(),
        state.with_text(index, text).wf(),
        state.with_outcome(index, outcome).wf(),
        state.with_row_added().wf(),
        state.with_row_removed().wf(),
        state.with_points(points).wf(),
{
}

/// The sidebar never has fewer rows than one, and the buttons never bring it above the
/// most it offers.
pub proof fn lemma_rows_stay_in_bounds<F>(
    state: GrapherView<F>,
    index: int,
    text: Seq<char>,
    outcome: Result<F, Seq<char>>,
)
    requires
        1 <= state.entries.len() <= MAX_ENTRIES,
    ensures
        1 <= state.with_row_added().entries.len() <= MAX_ENTRIES,
        1 <= state.with_row_removed().entries.len() <= MAX_ENTRIES,
        state.with_text(index, text).entries.len() == state.entries.len(),
        state.with_outcome(index, outcome).entries.len() == state.entries.len(),
{
}

/// Rows do not touch each other: an action on one row leaves every other row as it was,
/// with its function and with its failure.
pub proof fn lemma_rows_are_independent<F>(
    state: GrapherView<F>,
    index: int,
    other: int,
    text: Seq<char>,
    outcome: Result<F, Seq<char>>,
)
    requires
        state.failures.len() == state.entries.len(),
        0 <= other < state.entries.len(),
        other != index,
    ensures
        state.with_text(index, text).entries[other] == state.entries[other],
        state.with_text(index, text).failures[other] == state.failures[other],
        state.with_outcome(index, outcome).entries[other] == state.entries[other],
        state.with_outcome(index, outcome).failures[other] == state.failures[other],
{
}

/// A row has a function exactly when the last parse in it succeeded, and a failure
/// exactly when it failed. A new text that is not empty changes neither until the parser
/// answers; a success then brings the compiled function, a failure brings its message and
/// takes the function away.
pub proof fn lemma_function_follows_last_parse<F>(
    state: GrapherView<F>,
    index: int,
    text: Seq<char>,
    f: F,
    message: Seq<char>,
)
    requires
        state.failures.len() == state.entries.len(),
        0 <= index < state.entries.len(),
        text.len() > 0,
    ensures
        state.with_text(index, text).entries[index] == (EntryView {
            text,
            func: state.entries[index].func,
        }),
        state.with_text(index, text).failures[index] == state.failures[index],
        state.with_text(index, text).with_outcome(index, Ok(f)).entries[index] == (EntryView {
            text,
            func: Some(f),
        }),
        state.with_text(index, text).with_outcome(index, Ok(f)).failures[index] is None,
        state.with_text(index, text).with_outcome(index, Err(message)).entries[index]
            == EntryView::<F>::unparsed(text),
        state.with_text(index, text).with_outcome(index, Err(message)).failures[index] == Some(
            message,
        ),
{
}

/// An error is shown exactly while some row holds a text whose last parse failed.
pub proof fn lemma_error_means_a_failed_row<F>(state: GrapherView<F>)
    ensures
        state.error() is Some <==> exists|i: int|
            0 <= i < state.failures.len() && state.failures[i] is Some,
{
    lemma_no_failure(state.failures);
}

/// The error that is shown is the message of the first row, from the top, that failed.
pub proof fn lemma_error_is_of_first_failed_row<F>(state: GrapherView<F>, row: int)
    requires
        0 <= row < state.failures.len(),
        state.failures[row] is Some,
        forall|i: int| 0 <= i < row ==> state.failures[i] is None,
    ensures
        state.error() == state.failures[row],
{
    lemma_first_failure(state.failures, row);
}

/// While an error is shown no line is drawn, whatever the rows hold.
pub proof fn lemma_error_hides_every_line<F>(state: GrapherView<F>)
    requires
        state.error() is Some,
    ensures
        state.drawn().len() == 0,
{
}

/// A text that is not parsed because it is empty leaves its row without a function, and
/// the parser is not asked. The error stays as it was unless it was this row that failed.
pub proof fn lemma_empty_text<F>(state: GrapherView<F>, index: int)
    requires
        state.failures.len() == state.entries.len(),
        0 <= index < state.entries.len(),
    ensures
        parse_source(Seq::<char>::empty()) is None,
        state.with_text(index, Seq::empty()).entries[index] == EntryView::<F>::empty(),
        state.failures[index] is None ==> state.with_text(index, Seq::empty()).error()
            == state.error(),
{
    if state.failures[index] is None {
        assert(state.failures.update(index, None) =~= state.failures);
    }
}

/// A text that fails to parse takes every line away and an error is shown: the message of
/// this failure, unless a row above has failed too.
pub proof fn lemma_failure_shows_error<F>(state: GrapherView<F>, index: int, message: Seq<char>)
    requires
        state.failures.len() == state.entries.len(),
        0 <= index < state.entries.len(),
        state.entries[index].text.len() > 0,
    ensures
        state.with_outcome(index, Err(message)).failures[index] == Some(message),
        state.with_outcome(index, Err(message)).error() is Some,
        state.with_outcome(index, Err(message)).drawn().len() == 0,
        (forall|i: int| 0 <= i < index ==> state.failures[i] is None) ==> state.with_outcome(
            index,
            Err(message),
        ).error() == Some(message),
        !state.proceeds(index, Err(message)),
{
    let after = state.with_outcome(index, Err(message));
    lemma_no_failure(after.failures);
    if forall|i: int| 0 <= i < index ==> state.failures[i] is None {
        lemma_first_failure(after.failures, index);
    }
}

/// The error of a row lasts until that row is mended or cleared: whatever is done to
/// another row, and whatever the parser answers for it, the failed row stays failed, the
/// error stays shown and no line is drawn.
pub proof fn lemma_error_outlasts_other_rows<F>(
    state: GrapherView<F>,
    failed: int,
    index: int,
    text: Seq<char>,
    outcome: Result<F, Seq<char>>,
)
    requires
        state.failures.len() == state.entries.len(),
        0 <= failed < state.entries.len(),
        state.failures[failed] is Some,
        index != failed,
    ensures
        state.with_text(index, text).failures[failed] == state.failures[failed],
        state.with_text(index, text).error() is Some,
        state.with_text(index, text).drawn().len() == 0,
        state.with_text(index, text).with_outcome(index, outcome).failures[failed]
            == state.failures[failed],
        state.with_text(index, text).with_outcome(index, outcome).error() is Some,
        state.with_text(index, text).with_outcome(index, outcome).drawn().len() == 0,
        (forall|i: int| 0 <= i < failed ==> state.failures[i] is None) && outcome is Ok
            ==> state.with_text(index, text).with_outcome(index, outcome).error()
            == state.failures[failed],
{
    let edited = state.with_text(index, text);
    let answered = edited.with_outcome(index, outcome);
    lemma_no_failure(edited.failures);
    lemma_no_failure(answered.failures);
    if (forall|i: int| 0 <= i < failed ==> state.failures[i] is None) && outcome is Ok {
        lemma_first_failure(answered.failures, failed);
    }
}

/// The error ends when the row that failed is edited into a text that parses, where no
/// other row has failed, and the row is then drawn.
pub proof fn lemma_valid_edit_ends_error<F>(
    state: GrapherView<F>,
    index: int,
    text: Seq<char>,
    f: F,
)
    requires
        state.failures.len() == state.entries.len(),
        0 <= index < state.entries.len(),
        text.len() > 0,
        forall|i: int| 0 <= i < state.failures.len() && i != index ==> state.failures[i] is None,
    ensures
        state.with_text(index, text).with_outcome(index, Ok(f)).error() is None,
        state.with_text(index, text).with_outcome(index, Ok(f)).drawn().contains(index),
{
    let after = state.with_text(index, text).with_outcome(index, Ok(f));
    lemma_no_failure(after.failures);
    lemma_compiled_rows(after, after.entries.len(), index);
}

/// The error ends when the row that failed is cleared, where no other row has failed.
pub proof fn lemma_cleared_row_ends_error<F>(state: GrapherView<F>, index: int)
    requires
        state.failures.len() == state.entries.len(),
        0 <= index < state.entries.len(),
        forall|i: int| 0 <= i < state.failures.len() && i != index ==> state.failures[i] is None,
    ensures
        state.with_text(index, Seq::empty()).error() is None,
        state.with_text(index, Seq::empty()).entries[index] == EntryView::<F>::empty(),
{
    lemma_no_failure(state.with_text(index, Seq::empty()).failures);
}

/// The rows among the first `n` that have a function are listed, and no others.
pub proof fn lemma_compiled_rows<F>(state: GrapherView<F>, n: nat, row: int)
    requires
        n <= state.entries.len(),
    ensures
        state.compiled_among(n).contains(row) <==> 0 <= row < n && state.entries[row].func
            is Some,
    decreases n,
{
    if n > 0 {
        let before = state.compiled_among((n - 1) as nat);
        lemma_compiled_rows(state, (n - 1) as nat, row);
        if state.entries[n - 1].func is Some {
            let now = before.push(n - 1);
            assert(now[now.len() - 1] == n - 1);
            if before.contains(row) {
                let i = choose|i: int| 0 <= i < before.len() && before[i] == row;
                assert(now[i] == row);
            }
            if now.contains(row) {
                let i = choose|i: int| 0 <= i < now.len() && now[i] == row;
                if i < before.len() {
                    assert(before[i] == row);
                }
            }
        }
    }
}

/// With no error shown, the rows drawn are exactly those that have a function.
pub proof fn lemma_drawn_rows<F>(state: GrapherView<F>, row: int)
    requires
        state.error() is None,
    ensures
        state.drawn().contains(row) <==> 0 <= row < state.entries.len()
            && state.entries[row].func is Some,
{
    lemma_compiled_rows(state, state.entries.len(), row);
}

/// The rows that have a function are listed from the top of the sidebar down.
pub proof fn lemma_compiled_in_order<F>(state: GrapherView<F>, n: nat)
    requires
        n <= state.entries.len(),
    ensures
        forall|a: int|
            0 <= a < state.compiled_among(n).len() ==> 0 <= #[trigger] state.compiled_among(n)[a]
                < n,
        forall|a: int, b: int|
            0 <= a < b < state.compiled_among(n).len() ==> state.compiled_among(n)[a]
                < state.compiled_among(n)[b],
    decreases n,
{
    if n > 0 {
        lemma_compiled_in_order(state, (n - 1) as nat);
        let before = state.compiled_among((n - 1) as nat);
        let now = state.compiled_among(n);
        assert forall|a: int| 0 <= a < now.len() implies 0 <= #[trigger] now[a] < n by {
            if a < before.len() {
                assert(now[a] == before[a]);
            }
        }
        assert forall|a: int, b: int| 0 <= a < b < now.len() implies now[a] < now[b] by {
            assert(now[a] == before[a]);
            if b < before.len() {
                assert(now[b] == before[b]);
            }
        }
    }
}

/// A pass without an edit changes nothing: nothing is parsed unless a text was edited.
pub proof fn lemma_pass_without_edits<F>(state: GrapherView<F>)
    ensures
        state.after_pass(Seq::empty()) == state,
        state.pass(Seq::empty()).1,
{
}

/// A pass adds and deletes no row and leaves the resolution as it was.
pub proof fn lemma_pass_keeps_rows<F>(
    state: GrapherView<F>,
    edits: Seq<(int, Seq<char>, Option<Result<F, Seq<char>>>)>,
)
    requires
        state.failures.len() == state.entries.len(),
    ensures
        state.after_pass(edits).entries.len() == state.entries.len(),
        state.after_pass(edits).failures.len() == state.entries.len(),
        state.after_pass(edits).points == state.points,
    decreases edits.len(),
{
    if edits.len() > 0 {
        lemma_pass_keeps_rows(state, edits.drop_last());
    }
}

/// A pass leaves every row that was not edited as it was: its text, its function and its
/// failure.
pub proof fn lemma_pass_leaves_unedited_rows<F>(
    state: GrapherView<F>,
    edits: Seq<(int, Seq<char>, Option<Result<F, Seq<char>>>)>,
    row: int,
)
    requires
        state.failures.len() == state.entries.len(),
        0 <= row < state.entries.len(),
        forall|k: int| 0 <= k < edits.len() ==> (#[trigger] edits[k]).0 != row,
    ensures
        state.after_pass(edits).entries[row] == state.entries[row],
        state.after_pass(edits).failures[row] == state.failures[row],
    decreases edits.len(),
{
    if edits.len() > 0 {
        let front = edits.drop_last();
        assert forall|k: int| 0 <= k < front.len() implies (#[trigger] front[k]).0 != row by {
            assert(front[k] == edits[k]);
        }
        lemma_pass_leaves_unedited_rows(state, front, row);
        lemma_pass_keeps_rows(state, front);
        assert(edits.last() == edits[edits.len() - 1]);
    }
}

/// A pass that has stopped stays stopped.
pub proof fn lemma_pass_stays_stopped<F>(
    state: GrapherView<F>,
    edits: Seq<(int, Seq<char>, Option<Result<F, Seq<char>>>)>,
    k: int,
)
    requires
        0 <= k <= edits.len(),
        !state.pass(edits.take(k)).1,
    ensures
        !state.pass(edits).1,
    decreases edits.len() - k,
{
    if k < edits.len() {
        assert(edits.take(k + 1).drop_last() == edits.take(k));
        lemma_pass_stays_stopped(state, edits, k + 1);
    } else {
        assert(edits.take(k) == edits);
    }
}

/// Whether no row is edited twice in a pass.
pub open spec fn edited_once<F>(
    edits: Seq<(int, Seq<char>, Option<Result<F, Seq<char>>>)>,
) -> bool {
    forall|a: int, b: int|
        0 <= a < b < edits.len() ==> (#[trigger] edits[a]).0 != (#[trigger] edits[b]).0
}

/// Up to the first failure every edit is taken with its answer: the row of an edit before
/// which the pass had not stopped is as its new text and the parser's answer leave it.
pub proof fn lemma_pass_takes_answers_while_going<F>(
    state: GrapherView<F>,
    edits: Seq<(int, Seq<char>, Option<Result<F, Seq<char>>>)>,
    k: int,
)
    requires
        state.failures.len() == state.entries.len(),
        edited_once(edits),
        0 <= k < edits.len(),
        0 <= edits[k].0 < state.entries.len(),
        state.pass(edits.take(k)).1,
    ensures
        edits[k].2 is Some ==> state.after_pass(edits).entries[edits[k].0] == state.with_text(
            edits[k].0,
            edits[k].1,
        ).with_outcome(edits[k].0, edits[k].2->Some_0).entries[edits[k].0],
        edits[k].2 is Some ==> state.after_pass(edits).failures[edits[k].0] == state.with_text(
            edits[k].0,
            edits[k].1,
        ).with_outcome(edits[k].0, edits[k].2->Some_0).failures[edits[k].0],
        edits[k].2 is None ==> state.after_pass(edits).entries[edits[k].0] == state.with_text(
            edits[k].0,
            edits[k].1,
        ).entries[edits[k].0],
        edits[k].2 is None ==> state.after_pass(edits).failures[edits[k].0] == state.with_text(
            edits[k].0,
            edits[k].1,
        ).failures[edits[k].0],
    decreases edits.len(),
{
    let row = edits[k].0;
    let front = edits.drop_last();
    lemma_pass_keeps_rows(state, front);
    if k == edits.len() - 1 {
        assert(edits.take(k) == front);
        assert forall|j: int| 0 <= j < front.len() implies (#[trigger] front[j]).0 != row by {
            assert(front[j] == edits[j]);
        }
        lemma_pass_leaves_unedited_rows(state, front, row);
    } else {
        assert(front[k] == edits[k]);
        assert(front.take(k) == edits.take(k));
        assert(edited_once(front)) by {
            assert forall|a: int, b: int| 0 <= a < b < front.len() implies (#[trigger] front[a]).0
                != (#[trigger] front[b]).0 by {
                assert(front[a] == edits[a]);
                assert(front[b] == edits[b]);
            }
        }
        lemma_pass_takes_answers_while_going(state, front, k);
        assert(edits[edits.len() - 1].0 != edits[k].0);
    }
}

/// Behind the first failure no answer is taken: a row edited after the pass has stopped
/// keeps the function and the failure it had before the pass, and has its new text. Only
/// a text that became empty leaves its row empty.
pub proof fn lemma_pass_stops_at_first_failure<F>(
    state: GrapherView<F>,
    edits: Seq<(int, Seq<char>, Option<Result<F, Seq<char>>>)>,
    k: int,
)
    requires
        state.failures.len() == state.entries.len(),
        edited_once(edits),
        0 <= k < edits.len(),
        0 <= edits[k].0 < state.entries.len(),
        !state.pass(edits.take(k)).1,
    ensures
        !state.pass(edits).1,
        state.after_pass(edits).entries[edits[k].0] == state.with_text(
            edits[k].0,
            edits[k].1,
        ).entries[edits[k].0],
        state.after_pass(edits).failures[edits[k].0] == state.with_text(
            edits[k].0,
            edits[k].1,
        ).failures[edits[k].0],
        edits[k].1.len() > 0 ==> state.after_pass(edits).entries[edits[k].0].func
            == state.entries[edits[k].0].func && state.after_pass(edits).failures[edits[k].0]
            == state.failures[edits[k].0],
    decreases edits.len(),
{
    let row = edits[k].0;
    let front = edits.drop_last();
    lemma_pass_stays_stopped(state, edits, k);
    lemma_pass_keeps_rows(state, front);
    if k == edits.len() - 1 {
        assert(edits.take(k) == front);
        assert forall|j: int| 0 <= j < front.len() implies (#[trigger] front[j]).0 != row by {
            assert(front[j] == edits[j]);
        }
        lemma_pass_leaves_unedited_rows(state, front, row);
    } else {
        assert(front[k] == edits[k]);
        assert(front.take(k) == edits.take(k));
        assert(edited_once(front)) by {
            assert forall|a: int, b: int| 0 <= a < b < front.len() implies (#[trigger] front[a]).0
                != (#[trigger] front[b]).0 by {
                assert(front[a] == edits[a]);
                assert(front[b] == edits[b]);
            }
        }
        lemma_pass_stops_at_first_failure(state, front, k);
        assert(edits[edits.len() - 1].0 != edits[k].0);
    }
}

/// The first text of a pass that fails to parse gives the error: where no error was shown
/// before the pass and no row is edited twice, the message of the first failure is the
/// error after the pass, and no line is drawn.
pub proof fn lemma_first_failure_of_pass_is_the_error<F>(
    state: GrapherView<F>,
    edits: Seq<(int, Seq<char>, Option<Result<F, Seq<char>>>)>,
    k: int,
    message: Seq<char>,
)
    requires
        state.failures.len() == state.entries.len(),
        state.error() is None,
        edited_once(edits),
        0 <= k < edits.len(),
        0 <= edits[k].0 < state.entries.len(),
        state.pass(edits.take(k)).1,
        edits[k].1.len() > 0,
        edits[k].2 == Some(Err::<F, Seq<char>>(message)),
    ensures
        !state.pass(edits).1,
        state.after_pass(edits).error() == Some(message),
        state.after_pass(edits).drawn().len() == 0,
        state.after_pass(edits).entries[edits[k].0].func is None,
{
    let after = state.after_pass(edits);
    let failed = edits[k].0;
    lemma_no_failure(state.failures);
    lemma_pass_keeps_rows(state, edits);
    lemma_pass_takes_answers_while_going(state, edits, k);
    assert(edits.take(k + 1).drop_last() == edits.take(k));
    lemma_pass_keeps_rows(state, edits.take(k));
    assert(!state.pass(edits.take(k + 1)).1);
    lemma_pass_stays_stopped(state, edits, k + 1);
    assert forall|r: int| 0 <= r < after.failures.len() && r != failed implies after.failures[r]
        is None by {
        if exists|j: int| 0 <= j < edits.len() && (#[trigger] edits[j]).0 == r {
            let j = choose|j: int| 0 <= j < edits.len() && (#[trigger] edits[j]).0 == r;
            if state.pass(edits.take(j)).1 {
                lemma_pass_takes_answers_while_going(state, edits, j);
                if j > k {
                    assert(edits.take(j).take(k + 1) == edits.take(k + 1));
                    lemma_pass_stays_stopped(state, edits.take(j), k + 1);
                }
                if edits[j].2 is Some && edits[j].2->Some_0 is Err && edits[j].1.len() > 0 {
                    assert(edits.take(j + 1).drop_last() == edits.take(j));
                    lemma_pass_keeps_rows(state, edits.take(j));
                    assert(!state.pass(edits.take(j + 1)).1);
                    if j < k {
                        assert(edits.take(k).take(j + 1) == edits.take(j + 1));
                        lemma_pass_stays_stopped(state, edits.take(k), j + 1);
                    }
                }
            } else {
                lemma_pass_stops_at_first_failure(state, edits, j);
            }
        } else {
            lemma_pass_leaves_unedited_rows(state, edits, r);
        }
    }
    lemma_first_failure(after.failures, failed);
}

/// Taking the parser's answers changes no text and no number of rows.
pub proof fn lemma_answers_keep_texts<F>(
    state: GrapherView<F>,
    answers: Seq<(int, Result<F, Seq<char>>)>,
)
    requires
        state.failures.len() == state.entries.len(),
    ensures
        state.after_answers(answers).entries.len() == state.entries.len(),
        state.after_answers(answers).failures.len() == state.entries.len(),
        state.after_answers(answers).texts() == state.texts(),
    decreases answers.len(),
{
    if answers.len() > 0 {
        lemma_answers_keep_texts(state, answers.drop_last());
        let before = state.after_answers(answers.drop_last());
        let after = state.after_answers(answers);
        assert(after.texts() =~= before.texts()) by {
            assert forall|i: int| 0 <= i < before.entries.len() implies after.texts()[i]
                == before.texts()[i] by {
                assert(after.entries[i].text == before.entries[i].text);
            }
        }
    }
}

/// A row for which no answer came stays as it was.
pub proof fn lemma_unanswered_row_stays<F>(
    state: GrapherView<F>,
    answers: Seq<(int, Result<F, Seq<char>>)>,
    row: int,
)
    requires
        state.failures.len() == state.entries.len(),
        0 <= row < state.entries.len(),
        forall|k: int| 0 <= k < answers.len() ==> (#[trigger] answers[k]).0 != row,
    ensures
        state.after_answers(answers).entries[row] == state.entries[row],
        state.after_answers(answers).failures[row] == state.failures[row],
    decreases answers.len(),
{
    if answers.len() > 0 {
        let front = answers.drop_last();
        assert forall|k: int| 0 <= k < front.len() implies (#[trigger] front[k]).0 != row by {
            assert(front[k] == answers[k]);
        }
        lemma_unanswered_row_stays(state, front, row);
        lemma_answers_keep_texts(state, front);
        assert(answers.last() == answers[answers.len() - 1]);
    }
}

/// Every answer reaches its row, also behind a failure: where each row is answered for at
/// most once, a row whose text was parsed has a function exactly if its parse succeeded,
/// and holds the message of its failure if it did not.
pub proof fn lemma_each_row_gets_its_answer<F>(
    state: GrapherView<F>,
    answers: Seq<(int, Result<F, Seq<char>>)>,
    k: int,
)
    requires
        state.failures.len() == state.entries.len(),
        forall|a: int, b: int|
            0 <= a < b < answers.len() ==> (#[trigger] answers[a]).0 != (#[trigger] answers[b]).0,
        0 <= k < answers.len(),
        0 <= answers[k].0 < state.entries.len(),
        state.entries[answers[k].0].text.len() > 0,
    ensures
        state.after_answers(answers).entries[answers[k].0].text
            == state.entries[answers[k].0].text,
        match answers[k].1 {
            Ok(f) => state.after_answers(answers).entries[answers[k].0].func == Some(f)
                && state.after_answers(answers).failures[answers[k].0] is None,
            Err(message) => state.after_answers(answers).entries[answers[k].0].func is None
                && state.after_answers(answers).failures[answers[k].0] == Some(message),
        },
    decreases answers.len(),
{
    let row = answers[k].0;
    let front = answers.drop_last();
    lemma_answers_keep_texts(state, front);
    let before = state.after_answers(front);
    assert(before.texts()[row] == state.texts()[row]);
    assert(before.entries[row].text == state.entries[row].text);
    if k < answers.len() - 1 {
        assert(front[k] == answers[k]);
        assert forall|a: int, b: int| 0 <= a < b < front.len() implies (#[trigger] front[a]).0 != (
        #[trigger] front[b]).0 by {
            assert(front[a] == answers[a]);
            assert(front[b] == answers[b]);
        }
        lemma_each_row_gets_its_answer(state, front, k);
        assert(answers[answers.len() - 1].0 != answers[k].0);
    }
}

/// After the answers are taken the error is the message of the first row, from the top,
/// whose parse failed: where no row had failed before, each row is answered for at most
/// once, and every answer is for a row with a text, the answer `k` that is a failure gives
/// the error if every answer for a row above it is a success.
pub proof fn lemma_first_failed_answer_is_the_error<F>(
    state: GrapherView<F>,
    answers: Seq<(int, Result<F, Seq<char>>)>,
    k: int,
)
    requires
        state.failures.len() == state.entries.len(),
        state.error() is None,
        forall|a: int, b: int|
            0 <= a < b < answers.len() ==> (#[trigger] answers[a]).0 != (#[trigger] answers[b]).0,
        forall|j: int|
            0 <= j < answers.len() ==> 0 <= (#[trigger] answers[j]).0 < state.entries.len()
                && state.entries[answers[j].0].text.len() > 0,
        0 <= k < answers.len(),
        answers[k].1 is Err,
        forall|j: int|
            0 <= j < answers.len() && (#[trigger] answers[j]).0 < answers[k].0 ==> answers[j].1
                is Ok,
    ensures
        state.after_answers(answers).error() == Some(answers[k].1->Err_0),
{
    let after = state.after_answers(answers);
    let row = answers[k].0;
    lemma_no_failure(state.failures);
    lemma_answers_keep_texts(state, answers);
    lemma_each_row_gets_its_answer(state, answers, k);
    assert forall|r: int| 0 <= r < row implies after.failures[r] is None by {
        if exists|j: int| 0 <= j < answers.len() && (#[trigger] answers[j]).0 == r {
            let j = choose|j: int| 0 <= j < answers.len() && (#[trigger] answers[j]).0 == r;
            lemma_each_row_gets_its_answer(state, answers, j);
        } else {
            lemma_unanswered_row_stays(state, answers, r);
        }
    }
    lemma_first_failure(after.failures, row);
}

/// Answers that are all successes show no error where none was shown.
pub proof fn lemma_successes_show_no_error<F>(
    state: GrapherView<F>,
    answers: Seq<(int, Result<F, Seq<char>>)>,
)
    requires
        state.failures.len() == state.entries.len(),
        state.error() is None,
        forall|k: int| 0 <= k < answers.len() ==> (#[trigger] answers[k]).1 is Ok,
    ensures
        state.after_answers(answers).error() is None,
    decreases answers.len(),
{
    lemma_no_failure(state.failures);
    if answers.len() > 0 {
        let front = answers.drop_last();
        assert forall|k: int| 0 <= k < front.len() implies (#[trigger] front[k]).1 is Ok by {
            assert(front[k] == answers[k]);
        }
        lemma_successes_show_no_error(state, front);
        lemma_answers_keep_texts(state, front);
        let before = state.after_answers(front);
        lemma_no_failure(before.failures);
        assert(answers.last().1 is Ok) by {
            assert(answers.last() == answers[answers.len() - 1]);
        }
        lemma_no_failure(state.after_answers(answers).failures);
    }
}

/// A line sampled at as many places as the resolution has exactly that many points, and
/// their number lies in the range of the resolution.
pub proof fn lemma_line_has_resolution_points<F, X, Y>(
    state: GrapherView<F>,
    evaluated: Seq<(X, Result<Y, String>)>,
    constant: Option<Y>,
    zero: Y,
)
    requires
        state.wf(),
        evaluated.len() == state.points,
    ensures
        sampled(evaluated, constant, zero).len() == state.points,
        MIN_POINTS <= sampled(evaluated, constant, zero).len() <= MAX_POINTS,
{
}

/// The rows come back from the address they were written to: a calculator started from the
/// fragment of its texts has the same texts, as long as none holds a comma or a `#`.
pub proof fn lemma_texts_survive_the_url<F>(state: GrapherView<F>, before: Seq<char>)
    requires
        state.wf(),
        plain_texts(state.texts()),
    ensures
        GrapherView::<F>::from_texts(url_texts(before + url_string(state.texts()))).texts()
            == state.texts(),
{
    let texts = state.texts();
    lemma_url_round_trip(before, texts);
    if texts.len() == 1 && texts[0].len() == 0 {
        let fresh = GrapherView::<F>::from_texts(Seq::empty());
        assert(fresh.entries[0] == EntryView::<F>::empty());
        assert(texts[0] =~= Seq::<char>::empty());
        assert(fresh.texts()[0] == texts[0]);
        assert(fresh.texts() =~= texts);
    } else {
        assert(unparsed_entries::<F>(texts).map_values(|e: EntryView<F>| e.text) =~= texts);
    }
}

} // verus!
