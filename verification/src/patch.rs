//! Applying a patch: the summary of what happened, the session that
//! decides, hunk by hunk, which file operations to perform, and the loop
//! that hands each operation to the caller's performer.

use crate::content::Planning;
use crate::path_expansion::PathEnvironment;
use crate::parser::HunkView;
use crate::patch::session::{
    action_spec, advance_spec, after_records, begin_next, file_failure, first_step, lemma_advance_after_records,
    lemma_advance_keeps_records_owed, lemma_advance_with_remaining, lemma_start_owes_records, records_owed,
    stays_in_hunk, with_remaining, work_left,
    outcome_view, start_spec, ActionView, FileAction, PatchSession, SessionView,
};
use crate::patch::performer::Performer;
use crate::patch::summary::{law_output_shape, FileFailureView, OperationKind, SuccessView};
use crate::path_expansion::VarView;
use crate::parser::grammar::parse_spec;
use crate::parser::FailureView;
use crate::text::{has_prefix, has_suffix, trim};
use crate::patch::summary::render_spec;
use vstd::prelude::*;

pub mod performer;
pub mod session;
pub mod summary;

verus! {

/// The outcome of applying a patch: the rendered summary, and whether
/// nothing failed.
#[derive(Debug, Clone, PartialEq, Eq)]
pub struct ApplyResult {
    pub output: String,
    pub succeeded: bool,
}

/// The session after `outcomes`, each handed in turn to the session while
/// it is unfinished, update chunks planned as `planning` says.
pub open spec fn run_spec(
    s: SessionView,
    outcomes: Seq<Result<Seq<char>, Seq<char>>>,
    planning: Planning,
) -> SessionView
    decreases outcomes.len(),
{
    if outcomes.len() == 0 || s.step is Finished {
        s
    } else {
        run_spec(advance_spec(s, outcomes[0], planning), outcomes.drop_first(), planning)
    }
}

/// Each of `outcomes` is what `perform` returned for the action of the
/// session it was handed to, the run having begun at `s`.
pub open spec fn performed_by<F: Fn(FileAction) -> Result<String, String>>(
    perform: F,
    s: SessionView,
    outcomes: Seq<Result<Seq<char>, Seq<char>>>,
    planning: Planning,
) -> bool {
    forall|i: int|
        0 <= i < outcomes.len() ==> exists|a: FileAction, o: Result<String, String>|
            #![trigger call_ensures(perform, (a,), o)]
            {
                &&& a.view() == action_spec(run_spec(s, outcomes.take(i), planning).step)
                &&& call_ensures(perform, (a,), o)
                &&& outcome_view(o) == #[trigger] outcomes[i]
            }
}

/// The actions a run from `s` asks for, one per outcome: the action of
/// each session that an outcome is handed to.
pub open spec fn run_actions(
    s: SessionView,
    outcomes: Seq<Result<Seq<char>, Seq<char>>>,
    planning: Planning,
) -> Seq<ActionView> {
    Seq::new(outcomes.len(), |i: int| action_spec(run_spec(s, outcomes.take(i), planning).step))
}

/// What `apply_patch_text` reports of a finished session.
pub open spec fn reported(r: ApplyResult, s: SessionView) -> bool {
    &&& r.succeeded == (s.failures.len() == 0)
    &&& r.output@ == render_spec(s.successes, s.failures)
}

/// The result of a run from `s` whose outcomes `perform` returned, until
/// the session finished: its rendered summary.  The operations performed
/// went from `before` to `after`: exactly the actions of the run were
/// added, in order.
pub open spec fn applied_as<F: Fn(FileAction) -> Result<String, String>>(
    r: ApplyResult,
    perform: F,
    s: SessionView,
    planning: Planning,
    before: Seq<ActionView>,
    after: Seq<ActionView>,
) -> bool {
    exists|outcomes: Seq<Result<Seq<char>, Seq<char>>>|
        #![trigger run_spec(s, outcomes, planning)]
        {
            &&& performed_by(perform, s, outcomes, planning)
            &&& after == before + run_actions(s, outcomes, planning)
            &&& run_spec(s, outcomes, planning).step is Finished
            &&& reported(r, run_spec(s, outcomes, planning))
        }
}

/// Handing one more outcome to an unfinished run advances it once.
proof fn lemma_run_push(
    s: SessionView,
    outcomes: Seq<Result<Seq<char>, Seq<char>>>,
    o: Result<Seq<char>, Seq<char>>,
    planning: Planning,
)
    requires
        !(run_spec(s, outcomes, planning).step is Finished),
    ensures
        run_spec(s, outcomes.push(o), planning) == advance_spec(run_spec(s, outcomes, planning), o, planning),
    decreases outcomes.len(),
{
    if outcomes.len() == 0 {
        assert(outcomes.push(o).drop_first() =~= Seq::<Result<Seq<char>, Seq<char>>>::empty());
        assert(outcomes.push(o)[0] == o);
        assert(run_spec(advance_spec(s, o, planning), Seq::<Result<Seq<char>, Seq<char>>>::empty(), planning)
            == advance_spec(s, o, planning));
    } else {
        assert(outcomes.push(o).drop_first() =~= outcomes.drop_first().push(o));
        assert(outcomes.push(o)[0] == outcomes[0]);
        lemma_run_push(advance_spec(s, outcomes[0], planning), outcomes.drop_first(), o, planning);
    }
}

/// Applies `patch`, its paths expanded in `env`: each file operation that
/// the session asks for is handed to `performer`, whose outcome (the
/// contents of a file that was read, or why the operation failed) goes back
/// to the session, until every hunk has been handled; no other operation is
/// handed to it.  Update chunks are planned directly (`Planning::Direct`):
/// a chunk that cannot be located is reported with its old lines.  The
/// result is the rendered summary of the finished session, whatever the
/// outcomes were.
pub fn apply_patch_text<F: Fn(FileAction) -> Result<String, String>>(
    patch: &str,
    env: &PathEnvironment,
    performer: &mut Performer<F>,
) -> (r: ApplyResult)
    requires
        old(performer).ready(),
    ensures
        final(performer).function() == old(performer).function(),
        applied_as(
            r,
            old(performer).function(),
            start_spec(patch@, env.home.view(), env.vars_view()),
            Planning::Direct,
            old(performer).log(),
            final(performer).log(),
        ),
{
    run_patch(patch, env, Planning::Direct, performer)
}

/// Runs the session of `patch` (see `apply_patch_text`), update chunks
/// planned as `planning` says.
pub(crate) fn run_patch<F: Fn(FileAction) -> Result<String, String>>(
    patch: &str,
    env: &PathEnvironment,
    planning: Planning,
    performer: &mut Performer<F>,
) -> (r: ApplyResult)
    requires
        old(performer).ready(),
    ensures
        final(performer).function() == old(performer).function(),
        applied_as(
            r,
            old(performer).function(),
            start_spec(patch@, env.home.view(), env.vars_view()),
            planning,
            old(performer).log(),
            final(performer).log(),
        ),
{
    let ghost perform = performer.function();
    let ghost log0 = performer.log();
    let mut session = PatchSession::start(patch, env);
    let ghost start = session.view();
    let ghost mut outcomes: Seq<Result<Seq<char>, Seq<char>>> = Seq::empty();
    while !session.is_finished()
        invariant
            performer.function() == perform,
            performer.ready(),
            performer.log() == log0 + run_actions(start, outcomes, planning),
            session.view() == run_spec(start, outcomes, planning),
            performed_by(perform, start, outcomes, planning),
        decreases crate::patch::session::work_left(session.view()),
    {
        let action = session.action();
        let ghost handed = action;
        let ghost log1 = performer.log();
        let outcome = performer.perform(action);
        proof {
            lemma_run_push(start, outcomes, outcome_view(outcome), planning);
            crate::patch::session::law_advance_makes_progress(session.view(), outcome_view(outcome), planning);
            let old_outcomes = outcomes;
            outcomes = outcomes.push(outcome_view(outcome));
            assert(outcomes.take(old_outcomes.len() as int) =~= old_outcomes);
            assert(run_actions(start, outcomes, planning) =~= run_actions(start, old_outcomes, planning).push(
                handed.view(),
            )) by {
                assert forall|i: int| 0 <= i < old_outcomes.len() implies #[trigger] outcomes.take(i)
                    == old_outcomes.take(i) by {
                    assert(outcomes.take(i) =~= old_outcomes.take(i));
                }
            }
            assert(performer.log() =~= log0 + run_actions(start, outcomes, planning));
            assert forall|i: int| 0 <= i < outcomes.len() implies exists|a: FileAction, o: Result<String, String>|
                #![trigger call_ensures(perform, (a,), o)]
                {
                    &&& a.view() == action_spec(run_spec(start, outcomes.take(i), planning).step)
                    &&& call_ensures(perform, (a,), o)
                    &&& outcome_view(o) == #[trigger] outcomes[i]
                } by {
                if i < old_outcomes.len() {
                    assert(outcomes.take(i) =~= old_outcomes.take(i));
                    assert(outcomes[i] == old_outcomes[i]);
                } else {
                    assert(call_ensures(perform, (handed,), outcome));
                }
            }
        }
        session = session.advance(outcome, planning);
    }
    let r = session.result();
    assert(reported(r, run_spec(start, outcomes, planning)));
    assert(performed_by(perform, start, outcomes, planning));
    r
}

/// Records made before a run are kept in front and change nothing else.
pub proof fn lemma_run_after_records(
    s: SessionView,
    outcomes: Seq<Result<Seq<char>, Seq<char>>>,
    planning: Planning,
    successes: Seq<SuccessView>,
    failures: Seq<FileFailureView>,
)
    ensures
        run_spec(after_records(s, successes, failures), outcomes, planning) == after_records(
            run_spec(s, outcomes, planning),
            successes,
            failures,
        ),
    decreases outcomes.len(),
{
    if outcomes.len() > 0 && !(s.step is Finished) {
        lemma_advance_after_records(s, outcomes[0], planning, successes, failures);
        lemma_run_after_records(
            advance_spec(s, outcomes[0], planning),
            outcomes.drop_first(),
            planning,
            successes,
            failures,
        );
    }
}

/// Partial success: a hunk whose file operation fails only adds its
/// failure record.  Once the hunk that begins after the records
/// `successes` and `failures` fails with `message`, the rest of the patch
/// runs as the same patch without that hunk does: for any outcomes of the
/// hunks that follow, both runs reach the same steps (so the same file
/// operations are asked for) and make the same records, the failure of the
/// hunk kept between the earlier records and the later ones.
pub proof fn law_failed_hunk_only_adds_its_failure(
    hunk: HunkView,
    remaining: Seq<HunkView>,
    successes: Seq<SuccessView>,
    failures: Seq<FileFailureView>,
    message: Seq<char>,
    outcomes: Seq<Result<Seq<char>, Seq<char>>>,
    planning: Planning,
)
    ensures
        exists|kind: OperationKind, path: Seq<char>|
            #![trigger file_failure(kind, path, message)]
            {
                let failed = advance_spec(
                    SessionView { remaining, step: first_step(hunk), successes, failures },
                    Err(message),
                    planning,
                );
                let rest = run_spec(begin_next(remaining, seq![], seq![]), outcomes, planning);
                &&& run_spec(begin_next(remaining, successes, failures), outcomes, planning)
                    == after_records(rest, successes, failures)
                &&& run_spec(failed, outcomes, planning) == after_records(
                    rest,
                    successes,
                    failures.push(file_failure(kind, path, message)),
                )
            },
{
    let s = SessionView { remaining, step: first_step(hunk), successes, failures };
    crate::patch::session::law_failure_moves_to_next_hunk(s, message, planning);
    let (kind, path) = choose|kind: OperationKind, path: Seq<char>|
        advance_spec(s, Err(message), planning) == begin_next(
            remaining,
            successes,
            failures.push(file_failure(kind, path, message)),
        );
    let core = begin_next(remaining, seq![], seq![]);
    let f = failures.push(file_failure(kind, path, message));
    assert(begin_next(remaining, successes, failures) == after_records(core, successes, failures)) by {
        assert(successes + Seq::<SuccessView>::empty() =~= successes);
        assert(failures + Seq::<FileFailureView>::empty() =~= failures);
    }
    assert(begin_next(remaining, successes, f) == after_records(core, successes, f)) by {
        assert(successes + Seq::<SuccessView>::empty() =~= successes);
        assert(f + Seq::<FileFailureView>::empty() =~= f);
    }
    lemma_run_after_records(core, outcomes, planning, successes, failures);
    lemma_run_after_records(core, outcomes, planning, successes, f);
}

/// A run keeps `records_owed`.
proof fn lemma_run_keeps_records_owed(
    s: SessionView,
    outcomes: Seq<Result<Seq<char>, Seq<char>>>,
    planning: Planning,
)
    requires
        records_owed(s),
    ensures
        records_owed(run_spec(s, outcomes, planning)),
    decreases outcomes.len(),
{
    if outcomes.len() > 0 && !(s.step is Finished) {
        lemma_advance_keeps_records_owed(s, outcomes[0], planning);
        lemma_run_keeps_records_owed(advance_spec(s, outcomes[0], planning), outcomes.drop_first(), planning);
    }
}

/// The output of applying a patch is never empty; the patch succeeded
/// exactly when the output starts with "<SUCCEEDED>\n" and ends with
/// "</SUCCEEDED>", and otherwise the output ends with "</FAILED>".
pub proof fn law_applied_output_shape<F: Fn(FileAction) -> Result<String, String>>(
    r: ApplyResult,
    perform: F,
    patch: Seq<char>,
    home: VarView,
    vars: Seq<(Seq<char>, VarView)>,
    planning: Planning,
    before: Seq<ActionView>,
    after: Seq<ActionView>,
)
    requires
        applied_as(r, perform, start_spec(patch, home, vars), planning, before, after),
    ensures
        r.output@.len() > 0,
        r.succeeded <==> (has_prefix(r.output@, "<SUCCEEDED>\n"@) && has_suffix(r.output@, "</SUCCEEDED>"@)),
        !r.succeeded ==> has_suffix(r.output@, "</FAILED>"@),
{
    let start = start_spec(patch, home, vars);
    let outcomes = choose|outcomes: Seq<Result<Seq<char>, Seq<char>>>|
        {
            &&& performed_by(perform, start, outcomes, planning)
            &&& after == before + run_actions(start, outcomes, planning)
            &&& #[trigger] run_spec(start, outcomes, planning).step is Finished
            &&& reported(r, run_spec(start, outcomes, planning))
        };
    let end = run_spec(start, outcomes, planning);
    lemma_start_owes_records(patch, home, vars);
    lemma_run_keeps_records_owed(start, outcomes, planning);
    assert(end.successes.len() + end.failures.len() > 0);
    law_output_shape(end.successes, end.failures);
}

/// Running over `pre` then `post` is running over `pre + post`.
pub proof fn lemma_run_concat(
    s: SessionView,
    pre: Seq<Result<Seq<char>, Seq<char>>>,
    post: Seq<Result<Seq<char>, Seq<char>>>,
    planning: Planning,
)
    ensures
        run_spec(s, pre + post, planning) == run_spec(run_spec(s, pre, planning), post, planning),
    decreases pre.len(),
{
    if pre.len() == 0 {
        assert(pre + post =~= post);
    } else if !(s.step is Finished) {
        assert((pre + post).drop_first() =~= pre.drop_first() + post);
        assert((pre + post)[0] == pre[0]);
        lemma_run_concat(advance_spec(s, pre[0], planning), pre.drop_first(), post, planning);
    } else {
        lemma_run_finished(s, post, planning);
    }
}

proof fn lemma_run_finished(s: SessionView, outcomes: Seq<Result<Seq<char>, Seq<char>>>, planning: Planning)
    requires
        s.step is Finished,
    ensures
        run_spec(s, outcomes, planning) == s,
{
}

/// A run never adds work, and an unfinished session handed an outcome
/// loses some.
proof fn lemma_run_work_left(s: SessionView, outcomes: Seq<Result<Seq<char>, Seq<char>>>, planning: Planning)
    ensures
        work_left(run_spec(s, outcomes, planning)) <= work_left(s),
        outcomes.len() > 0 && !(s.step is Finished) ==> work_left(run_spec(s, outcomes, planning))
            < work_left(s),
    decreases outcomes.len(),
{
    if outcomes.len() > 0 && !(s.step is Finished) {
        crate::patch::session::law_advance_makes_progress(s, outcomes[0], planning);
        lemma_run_work_left(advance_spec(s, outcomes[0], planning), outcomes.drop_first(), planning);
    }
}

/// Hunk `i` of `hunks` has just begun: its first step is under way and
/// the hunks after it are left.
pub open spec fn hunk_begun(s: SessionView, hunks: Seq<HunkView>, i: int) -> bool {
    &&& s.remaining == hunks.skip(i + 1)
    &&& s.step == first_step(hunks[i])
}

/// The run over `hunks` (session `a`) and over the same hunks without hunk
/// `i` (session `b`) before hunk `i` begins: the first `k` hunks are begun
/// in both, at the same step with the same records.
pub open spec fn runs_before_hunk(a: SessionView, b: SessionView, hunks: Seq<HunkView>, i: int, k: int) -> bool {
    &&& 0 <= k <= i < hunks.len()
    &&& a.remaining == hunks.skip(k)
    &&& b == with_remaining(a, hunks.remove(i).skip(k))
}

proof fn lemma_runs_before_hunk(
    a: SessionView,
    b: SessionView,
    hunks: Seq<HunkView>,
    i: int,
    k: int,
    outcomes: Seq<Result<Seq<char>, Seq<char>>>,
    planning: Planning,
)
    requires
        runs_before_hunk(a, b, hunks, i, k),
        hunk_begun(run_spec(a, outcomes, planning), hunks, i),
    ensures
        run_spec(b, outcomes, planning) == begin_next(
            hunks.skip(i + 1),
            run_spec(a, outcomes, planning).successes,
            run_spec(a, outcomes, planning).failures,
        ),
    decreases outcomes.len(),
{
    let end = run_spec(a, outcomes, planning);
    if outcomes.len() == 0 || a.step is Finished {
        if a.step is Finished {
            lemma_run_finished(a, outcomes, planning);
        }
        assert(a.remaining.len() == hunks.len() - k);
        assert(end.remaining.len() == hunks.len() - (i + 1));
        assert(false);
    } else {
        let o = outcomes[0];
        let rest = outcomes.drop_first();
        let rb = hunks.remove(i).skip(k);
        lemma_advance_with_remaining(a, o, planning, rb);
        let a1 = advance_spec(a, o, planning);
        let b1 = advance_spec(b, o, planning);
        if stays_in_hunk(a, o, planning) {
            lemma_runs_before_hunk(a1, b1, hunks, i, k, rest, planning);
        } else if k < i {
            assert(hunks.skip(k).drop_first() =~= hunks.skip(k + 1));
            assert(rb.drop_first() =~= hunks.remove(i).skip(k + 1));
            assert(hunks.skip(k)[0] == hunks[k]);
            assert(rb[0] == hunks[k]);
            lemma_runs_before_hunk(a1, b1, hunks, i, k + 1, rest, planning);
        } else {
            assert(hunks.skip(i).drop_first() =~= hunks.skip(i + 1));
            assert(hunks.skip(i)[0] == hunks[i]);
            assert(rb =~= hunks.skip(i + 1));
            assert(hunk_begun(a1, hunks, i));
            if rest.len() > 0 {
                lemma_run_work_left(a1, rest, planning);
                assert(false);
            }
        }
    }
}

/// Partial success, for a whole patch: take a patch whose hunks are
/// `hunks` and the same patch without hunk `i`.  Run both on the same
/// outcomes up to where hunk `i` begins (`pre`): the patch without the hunk
/// is then where the next hunk begins, with the same records.  When the
/// first file operation of hunk `i` fails, the rest of the patch (for any
/// later outcomes `post`) runs as the patch without the hunk does: the same
/// file operations and the same records, with the failure of hunk `i`
/// between the earlier records and the later ones.
pub proof fn law_failed_hunk_only_adds_its_failure_to_the_patch(
    hunks: Seq<HunkView>,
    i: int,
    pre: Seq<Result<Seq<char>, Seq<char>>>,
    message: Seq<char>,
    post: Seq<Result<Seq<char>, Seq<char>>>,
    planning: Planning,
)
    requires
        0 <= i < hunks.len(),
        hunk_begun(run_spec(begin_next(hunks, seq![], seq![]), pre, planning), hunks, i),
    ensures
        ({
            let at = run_spec(begin_next(hunks, seq![], seq![]), pre, planning);
            let rest = run_spec(begin_next(hunks.skip(i + 1), seq![], seq![]), post, planning);
            &&& run_spec(begin_next(hunks.remove(i), seq![], seq![]), pre + post, planning)
                == after_records(rest, at.successes, at.failures)
            &&& exists|kind: OperationKind, path: Seq<char>|
                #![trigger file_failure(kind, path, message)]
                run_spec(begin_next(hunks, seq![], seq![]), pre.push(Err(message)) + post, planning)
                    == after_records(rest, at.successes, at.failures.push(file_failure(kind, path, message)))
        }),
{
    let a = begin_next(hunks, seq![], seq![]);
    let b = begin_next(hunks.remove(i), seq![], seq![]);
    let at = run_spec(a, pre, planning);
    if i == 0 {
        assert(hunks.remove(0) =~= hunks.skip(1));
    } else {
        assert(hunks.drop_first() =~= hunks.skip(1));
        assert(hunks.remove(i).drop_first() =~= hunks.remove(i).skip(1));
        assert(hunks.remove(i)[0] == hunks[0]);
    }
    if i > 0 {
        assert(runs_before_hunk(a, b, hunks, i, 1));
        lemma_runs_before_hunk(a, b, hunks, i, 1, pre, planning);
    } else {
        assert(hunk_begun(a, hunks, 0));
        if pre.len() > 0 {
            lemma_run_work_left(a, pre, planning);
            assert(false);
        }
    }
    let next = begin_next(hunks.skip(i + 1), at.successes, at.failures);
    assert(run_spec(b, pre, planning) == next);
    lemma_run_concat(b, pre, post, planning);
    assert(next == after_records(begin_next(hunks.skip(i + 1), seq![], seq![]), at.successes, at.failures)) by {
        assert(at.successes + Seq::<SuccessView>::empty() =~= at.successes);
        assert(at.failures + Seq::<FileFailureView>::empty() =~= at.failures);
    }
    lemma_run_after_records(begin_next(hunks.skip(i + 1), seq![], seq![]), post, planning, at.successes, at.failures);
    lemma_run_concat(a, pre.push(Err(message)), post, planning);
    lemma_run_concat(a, pre, seq![Err(message)], planning);
    assert(pre + seq![Err(message)] =~= pre.push(Err(message)));
    law_failed_hunk_only_adds_its_failure(hunks[i], hunks.skip(i + 1), at.successes, at.failures, message, post, planning);
    let failed = advance_spec(at, Err(message), planning);
    assert(run_spec(at, seq![Err(message)], planning) == failed) by {
        let one = seq![Err::<Seq<char>, Seq<char>>(message)];
        assert(!(at.step is Finished));
        assert(one[0] == Err::<Seq<char>, Seq<char>>(message));
        assert(one.drop_first() =~= Seq::<Result<Seq<char>, Seq<char>>>::empty());
        assert(run_spec(failed, Seq::<Result<Seq<char>, Seq<char>>>::empty(), planning) == failed);
    }
}

/// Partial success, as `apply_patch_text` runs it: `shorter` is `patch`
/// without hunk `i` (both parse, and `shorter` keeps at least one hunk).
/// On the same outcomes up to where hunk `i` begins, and then on any later
/// outcomes, the run of `patch` whose hunk `i` fails at its first file
/// operation makes exactly the records of the run of `shorter`, with the
/// failure of hunk `i` added between the earlier and the later ones, and
/// asks for the same file operations after it.
pub proof fn law_failed_hunk_leaves_the_rest_of_the_patch(
    patch: Seq<char>,
    shorter: Seq<char>,
    home: VarView,
    vars: Seq<(Seq<char>, VarView)>,
    hunks: Seq<HunkView>,
    i: int,
    pre: Seq<Result<Seq<char>, Seq<char>>>,
    message: Seq<char>,
    post: Seq<Result<Seq<char>, Seq<char>>>,
    planning: Planning,
)
    requires
        trim(patch).len() > 0,
        trim(shorter).len() > 0,
        parse_spec(patch, home, vars) == Ok::<Seq<HunkView>, FailureView>(hunks),
        0 <= i < hunks.len(),
        hunks.len() > 1,
        parse_spec(shorter, home, vars) == Ok::<Seq<HunkView>, FailureView>(hunks.remove(i)),
        hunk_begun(run_spec(start_spec(patch, home, vars), pre, planning), hunks, i),
    ensures
        ({
            let at = run_spec(start_spec(patch, home, vars), pre, planning);
            let rest = run_spec(begin_next(hunks.skip(i + 1), seq![], seq![]), post, planning);
            &&& run_spec(start_spec(shorter, home, vars), pre + post, planning) == after_records(
                rest,
                at.successes,
                at.failures,
            )
            &&& exists|kind: OperationKind, path: Seq<char>|
                #![trigger file_failure(kind, path, message)]
                run_spec(start_spec(patch, home, vars), pre.push(Err(message)) + post, planning)
                    == after_records(rest, at.successes, at.failures.push(file_failure(kind, path, message)))
        }),
{
    assert(start_spec(patch, home, vars) == begin_next(hunks, seq![], seq![]));
    assert(hunks.remove(i).len() == hunks.len() - 1);
    assert(start_spec(shorter, home, vars) == begin_next(hunks.remove(i), seq![], seq![]));
    law_failed_hunk_only_adds_its_failure_to_the_patch(hunks, i, pre, message, post, planning);
}

} // verus!
