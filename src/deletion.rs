//! Removal of a batch of artifact directories inside one project.
//!
//! The host removes each directory that `is_safe_entry_name` admits and
//! reports what happened as a `RemovalOutcome`; `deletion_report` turns the
//! whole batch into one result. A failure never stops the batch.
use vstd::prelude::*;
use vstd::string::*;
use crate::text::{same_text, text_seq};

verus! {

/// What became of one requested directory.
#[derive(Clone, Debug, PartialEq, Eq)]
pub enum RemovalOutcome {
    /// Nothing by that name existed, so nothing was done.
    Absent,
    /// It existed and was removed with everything under it.
    Removed,
    /// Removing it failed, for the reason given.
    Failed(String),
}

/// A requested name denotes an entry directly inside the project: it is not
/// empty, not `.` or `..`, and holds no path separator.
pub open spec fn safe_name(name: Seq<char>) -> bool {
    &&& name.len() > 0
    &&& name != "."@
    &&& name != ".."@
    &&& forall|i: int| 0 <= i < name.len() ==> #[trigger] name[i] != '/' && name[i] != '\\'
}

/// Whether removing `name` inside the project stays inside the project.
pub fn is_safe_entry_name(name: &str) -> (r: bool)
    ensures
        r == safe_name(name@),
{
    let n = name.unicode_len();
    if n == 0 || same_text(name, ".") || same_text(name, "..") {
        return false;
    }
    let mut i: usize = 0;
    while i < n
        invariant
            n == name@.len(),
            0 <= i <= n,
            forall|j: int| 0 <= j < i ==> #[trigger] name@[j] != '/' && name@[j] != '\\',
        decreases n - i,
    {
        let c = name.get_char(i);
        if c == '/' || c == '\\' {
            return false;
        }
        i += 1;
    }
    true
}

/// The message recorded for a directory that could not be removed.
pub open spec fn failure_text(name: Seq<char>, reason: Seq<char>) -> Seq<char> {
    "Failed to delete "@ + name + ": "@ + reason
}

/// The reason recorded for a name that `is_safe_entry_name` refuses.
pub open spec fn refusal_reason() -> Seq<char> {
    "not a directory inside the project"@
}

pub fn failure_message(name: &str, reason: &str) -> (r: String)
    ensures
        r@ == failure_text(name@, reason@),
{
    let mut r = String::from_str("Failed to delete ");
    r.append(name);
    r.append(": ");
    r.append(reason);
    r
}

/// The error recorded for one requested name, if any. The outcome of a
/// refused name is not read: such a name is never acted on.
pub open spec fn outcome_error(name: Seq<char>, outcome: RemovalOutcome) -> Option<Seq<char>> {
    if !safe_name(name) {
        Some(failure_text(name, refusal_reason()))
    } else {
        match outcome {
            RemovalOutcome::Failed(reason) => Some(failure_text(name, reason@)),
            _ => None,
        }
    }
}

/// The errors recorded for the first `n` requested names, in order.
pub open spec fn errors_upto(
    names: Seq<Seq<char>>,
    outcomes: Seq<RemovalOutcome>,
    n: nat,
) -> Seq<Seq<char>>
    decreases n,
{
    if n == 0 {
        Seq::empty()
    } else {
        let rest = errors_upto(names, outcomes, (n - 1) as nat);
        match outcome_error(names[n - 1], outcomes[n - 1]) {
            Some(m) => rest.push(m),
            None => rest,
        }
    }
}

/// Messages joined with a separator between each two.
pub open spec fn joined(msgs: Seq<Seq<char>>, sep: Seq<char>) -> Seq<char>
    decreases msgs.len(),
{
    if msgs.len() == 0 {
        Seq::empty()
    } else if msgs.len() == 1 {
        msgs[0]
    } else {
        joined(msgs.drop_last(), sep) + sep + msgs.last()
    }
}

/// The result of a batch: success when no error was recorded, else every
/// recorded message, in request order, joined by `", "`.
pub open spec fn report_model(names: Seq<Seq<char>>, outcomes: Seq<RemovalOutcome>) -> Result<
    (),
    Seq<char>,
> {
    let errs = errors_upto(names, outcomes, names.len());
    if errs.len() == 0 {
        Ok(())
    } else {
        Err(joined(errs, ", "@))
    }
}

pub open spec fn report_view(r: Result<(), String>) -> Result<(), Seq<char>> {
    match r {
        Ok(()) => Ok(()),
        Err(s) => Err(s@),
    }
}

/// The result of removing `names` inside a project, where `outcomes[i]`
/// tells what became of `names[i]`.
pub fn deletion_report(names: &Vec<String>, outcomes: &Vec<RemovalOutcome>) -> (r: Result<
    (),
    String,
>)
    requires
        names.len() == outcomes.len(),
    ensures
        report_view(r) == report_model(text_seq(names@), outcomes@),
{
    let ghost ns = text_seq(names@);
    let mut msg = String::new();
    let mut count: usize = 0;
    let mut i: usize = 0;
    while i < names.len()
        invariant
            names.len() == outcomes.len(),
            ns == text_seq(names@),
            0 <= i <= names.len(),
            count as int == errors_upto(ns, outcomes@, i as nat).len(),
            count <= i,
            msg@ == joined(errors_upto(ns, outcomes@, i as nat), ", "@),
        decreases names.len() - i,
    {
        let ghost before = errors_upto(ns, outcomes@, i as nat);
        let name = names[i].as_str();
        assert(name@ == ns[i as int]);
        let recorded: Option<String> = if !is_safe_entry_name(name) {
            Some(failure_message(name, "not a directory inside the project"))
        } else {
            match &outcomes[i] {
                RemovalOutcome::Failed(reason) => Some(failure_message(name, reason.as_str())),
                _ => None,
            }
        };
        match recorded {
            Some(m) => {
                proof {
                    let after = before.push(m@);
                    assert(after.drop_last() =~= before);
                }
                if count > 0 {
                    msg.append(", ");
                    msg.append(m.as_str());
                } else {
                    msg = m;
                }
                count += 1;
            },
            None => {},
        }
        i += 1;
    }
    if count == 0 {
        Ok(())
    } else {
        Err(msg)
    }
}

/// After the outcome, nothing by the requested name remains.
pub open spec fn target_gone(outcome: RemovalOutcome) -> bool {
    outcome is Absent || outcome is Removed
}

pub open spec fn splits(s: Seq<char>, before: Seq<char>, part: Seq<char>, after: Seq<char>) -> bool {
    s == before + part + after
}

/// `part` occurs in `s`.
pub open spec fn contains(s: Seq<char>, part: Seq<char>) -> bool {
    exists|before: Seq<char>, after: Seq<char>| #[trigger] splits(s, before, part, after)
}

proof fn lemma_error_recorded(
    names: Seq<Seq<char>>,
    outcomes: Seq<RemovalOutcome>,
    n: nat,
    i: int,
)
    requires
        0 <= i < n,
        outcome_error(names[i], outcomes[i]) is Some,
    ensures
        exists|k: int|
            0 <= k < errors_upto(names, outcomes, n).len() && #[trigger] errors_upto(
                names,
                outcomes,
                n,
            )[k] == outcome_error(names[i], outcomes[i])->0,
    decreases n,
{
    let errs = errors_upto(names, outcomes, n);
    let rest = errors_upto(names, outcomes, (n - 1) as nat);
    if i == n - 1 {
        assert(errs[errs.len() - 1] == outcome_error(names[i], outcomes[i])->0);
    } else {
        lemma_error_recorded(names, outcomes, (n - 1) as nat, i);
        let k = choose|k: int| 0 <= k < rest.len() && #[trigger] rest[k] == outcome_error(
            names[i],
            outcomes[i],
        )->0;
        assert(errs[k] == rest[k]);
    }
}

proof fn lemma_no_errors(names: Seq<Seq<char>>, outcomes: Seq<RemovalOutcome>, n: nat)
    requires
        forall|i: int| 0 <= i < n ==> #[trigger] outcome_error(names[i], outcomes[i]) is None,
    ensures
        errors_upto(names, outcomes, n).len() == 0,
    decreases n,
{
    if n > 0 {
        lemma_no_errors(names, outcomes, (n - 1) as nat);
    }
}

proof fn lemma_joined_contains(msgs: Seq<Seq<char>>, sep: Seq<char>, k: int)
    requires
        0 <= k < msgs.len(),
    ensures
        contains(joined(msgs, sep), msgs[k]),
    decreases msgs.len(),
{
    let j = joined(msgs, sep);
    if msgs.len() == 1 {
        assert(splits(j, Seq::empty(), msgs[k], Seq::empty())) by {
            assert(j =~= Seq::<char>::empty() + msgs[k] + Seq::<char>::empty());
        }
    } else if k == msgs.len() - 1 {
        let before = joined(msgs.drop_last(), sep) + sep;
        assert(splits(j, before, msgs[k], Seq::empty())) by {
            assert(j =~= before + msgs[k] + Seq::<char>::empty());
        }
    } else {
        let init = msgs.drop_last();
        lemma_joined_contains(init, sep, k);
        assert(init[k] == msgs[k]);
        let (before, after) = choose|before: Seq<char>, after: Seq<char>|
            #[trigger] splits(joined(init, sep), before, msgs[k], after);
        let tail = after + sep + msgs.last();
        assert(splits(j, before, msgs[k], tail)) by {
            assert(j =~= before + msgs[k] + tail);
        }
    }
}

/// The reason recorded for a requested name whose directory remains.
pub open spec fn recorded_reason(name: Seq<char>, outcome: RemovalOutcome) -> Seq<char> {
    if !safe_name(name) {
        refusal_reason()
    } else {
        outcome->Failed_0@
    }
}

/// Batch completeness: once a batch is reported, each requested directory
/// is gone, or the error names it with the message recorded for it.
pub proof fn law_batch_complete(names: Seq<Seq<char>>, outcomes: Seq<RemovalOutcome>, i: int)
    requires
        names.len() == outcomes.len(),
        0 <= i < names.len(),
    ensures
        (safe_name(names[i]) && target_gone(outcomes[i])) || (report_model(names, outcomes) is Err
            && contains(
            report_model(names, outcomes)->Err_0,
            failure_text(names[i], recorded_reason(names[i], outcomes[i])),
        )),
{
    if !(safe_name(names[i]) && target_gone(outcomes[i])) {
        let m = outcome_error(names[i], outcomes[i])->0;
        let reason = recorded_reason(names[i], outcomes[i]);
        assert(m == failure_text(names[i], reason));
        lemma_error_recorded(names, outcomes, names.len(), i);
        let errs = errors_upto(names, outcomes, names.len());
        let k = choose|k: int| 0 <= k < errs.len() && #[trigger] errs[k] == m;
        lemma_joined_contains(errs, ", "@, k);
        assert(contains(joined(errs, ", "@), failure_text(names[i], reason)));
        assert(errs.len() > 0);
        assert(report_model(names, outcomes) == Err::<(), Seq<char>>(joined(errs, ", "@)));
    }
}

/// Idempotence: after a batch that succeeded, the same batch again, which
/// finds every directory it removed or missed still absent, succeeds too.
pub proof fn law_repeat_delete(
    names: Seq<Seq<char>>,
    first: Seq<RemovalOutcome>,
    second: Seq<RemovalOutcome>,
)
    requires
        names.len() == first.len(),
        names.len() == second.len(),
        report_model(names, first) is Ok,
        forall|i: int| 0 <= i < names.len() && target_gone(first[i]) ==> #[trigger] second[i] is Absent,
    ensures
        report_model(names, second) is Ok,
{
    assert forall|i: int| 0 <= i < names.len() implies #[trigger] outcome_error(
        names[i],
        second[i],
    ) is None by {
        if outcome_error(names[i], first[i]) is Some {
            lemma_error_recorded(names, first, names.len(), i);
        }
        assert(target_gone(first[i]));
    }
    lemma_no_errors(names, second, names.len());
}

} // verus!
