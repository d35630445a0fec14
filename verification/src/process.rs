//! Which processes run, and the plan of actions to take on other programs.

use vstd::prelude::*;
use vstd::multiset::Multiset;
use vstd::utf8::encode_utf8;
use sysinfo::System;
use crate::config::{ActionTable, ActionType};

verus! {

/// The process table that `sysinfo` read from the machine.
#[verifier::external_type_specification]
#[verifier::external_body]
pub struct ExSystem(sysinfo::System);

/// The names of the processes in a `sysinfo::System` table, each as the
/// encoded bytes of its `OsStr` (`Process::name().as_encoded_bytes()`), one per
/// process.
pub uninterp spec fn process_names(sys: System) -> Multiset<Seq<u8>>;

/// `needle` occurs in `hay` from position `i` on.
pub open spec fn occurs_at(hay: Seq<u8>, needle: Seq<u8>, i: int) -> bool {
    0 <= i && i + needle.len() <= hay.len() && hay.subrange(i, i + needle.len()) == needle
}

/// `needle` occurs in `hay` as a run of consecutive bytes.
pub open spec fn contains_bytes(hay: Seq<u8>, needle: Seq<u8>) -> bool {
    exists|i: int| occurs_at(hay, needle, i)
}

/// The empty name occurs in every name; a name occurs in itself; a longer
/// name never occurs in a shorter one; and a name occurs in any name that
/// extends it on either side.
pub proof fn lemma_contains_bytes(hay: Seq<u8>, needle: Seq<u8>, before: Seq<u8>, after: Seq<u8>)
    ensures
        contains_bytes(hay, Seq::empty()),
        contains_bytes(hay, hay),
        contains_bytes(hay, needle) ==> needle.len() <= hay.len(),
        contains_bytes(before + needle + after, needle),
{
    assert(hay.subrange(0, 0) =~= Seq::<u8>::empty());
    assert(occurs_at(hay, Seq::empty(), 0));
    assert(hay.subrange(0, hay.len() as int) =~= hay);
    assert(occurs_at(hay, hay, 0));
    let whole = before + needle + after;
    assert(whole.subrange(before.len() as int, before.len() + needle.len() as int) =~= needle);
    assert(occurs_at(whole, needle, before.len() as int));
}

/// Some process of the table has a name that contains `name`.
pub open spec fn runs_process_named(names: Multiset<Seq<u8>>, name: Seq<char>) -> bool {
    exists|n: Seq<u8>| names.contains(n) && contains_bytes(n, encode_utf8(name))
}

/// Calls `System::processes_by_name`, which keeps the processes of the table
/// whose name contains `process_name` (a `memchr` substring search on the
/// encoded bytes), and asks whether any is left. The contract takes the
/// encoded bytes of the `OsStr` made from a `str` to be its UTF-8 bytes, as
/// they are on both the Unix and the Windows encoding.
#[verifier::external_body]
pub fn is_process_running(sys: &System, process_name: &str) -> (r: bool)
    ensures
        r == runs_process_named(process_names(*sys), process_name@),
{
    sys.processes_by_name(process_name.as_ref()).next().is_some()
}

/// One step of carrying out the actions of a watched process.
#[derive(Debug, PartialEq, Eq)]
pub enum PlannedAction {
    /// The program runs: force it to close.
    Close(String),
    /// The program does not run: nothing to close.
    SkipClose(String),
    /// Start the program.
    Start(String),
}

/// A planned step, by the kind of step and the program's name.
pub enum StepView {
    Close(Seq<char>),
    SkipClose(Seq<char>),
    Start(Seq<char>),
}

impl View for PlannedAction {
    type V = StepView;

    open spec fn view(&self) -> StepView {
        match self {
            PlannedAction::Close(n) => StepView::Close(n@),
            PlannedAction::SkipClose(n) => StepView::SkipClose(n@),
            PlannedAction::Start(n) => StepView::Start(n@),
        }
    }
}

/// `step` is what the action `action` on the program `name` comes to when
/// `running` tells whether a process of that name runs.
pub open spec fn plans(step: PlannedAction, name: Seq<char>, action: ActionType, running: bool) -> bool {
    match action {
        ActionType::Close => if running {
            step matches PlannedAction::Close(n) && n@ == name
        } else {
            step matches PlannedAction::SkipClose(n) && n@ == name
        },
        ActionType::Start => step matches PlannedAction::Start(n) && n@ == name,
    }
}

/// What closing a program comes to: close it if a process of that name runs,
/// else skip it.
pub fn plan_close(sys: &System, process_name: &String) -> (r: PlannedAction)
    ensures
        plans(
            r,
            process_name@,
            ActionType::Close,
            runs_process_named(process_names(*sys), process_name@),
        ),
        runs_process_named(process_names(*sys), process_name@) ==> r@ == StepView::Close(
            process_name@,
        ),
        !runs_process_named(process_names(*sys), process_name@) ==> r@ == StepView::SkipClose(
            process_name@,
        ),
{
    if is_process_running(sys, process_name.as_str()) {
        PlannedAction::Close(process_name.clone())
    } else {
        PlannedAction::SkipClose(process_name.clone())
    }
}

/// What a table of actions comes to, in the table's order: each program to
/// close is closed if it runs and skipped if not; each program to start is
/// started.
pub fn plan_actions(sys: &System, table: &ActionTable) -> (r: Vec<PlannedAction>)
    ensures
        r@.len() == table@.len(),
        forall|i: int|
            0 <= i < table@.len() ==> plans(
                #[trigger] r@[i],
                table@[i].0@,
                table@[i].1,
                runs_process_named(process_names(*sys), table@[i].0@),
            ),
        forall|i: int|
            0 <= i < table@.len() && table@[i].1 == ActionType::Start ==> #[trigger] r@[i]@
                == StepView::Start(table@[i].0@),
        forall|i: int|
            0 <= i < table@.len() && table@[i].1 == ActionType::Close ==> #[trigger] r@[i]@ == (
            if runs_process_named(process_names(*sys), table@[i].0@) {
                StepView::Close(table@[i].0@)
            } else {
                StepView::SkipClose(table@[i].0@)
            }),
{
    let actions = table.entries();
    let mut r: Vec<PlannedAction> = Vec::new();
    let mut i: usize = 0;
    while i < actions.len()
        invariant
            0 <= i <= actions@.len(),
            r@.len() == i,
            forall|k: int|
                0 <= k < i ==> plans(
                    #[trigger] r@[k],
                    actions@[k].0@,
                    actions@[k].1,
                    runs_process_named(process_names(*sys), actions@[k].0@),
                ),
            forall|k: int|
                0 <= k < i && actions@[k].1 == ActionType::Start ==> #[trigger] r@[k]@
                    == StepView::Start(actions@[k].0@),
            forall|k: int|
                0 <= k < i && actions@[k].1 == ActionType::Close ==> #[trigger] r@[k]@ == (
                if runs_process_named(process_names(*sys), actions@[k].0@) {
                    StepView::Close(actions@[k].0@)
                } else {
                    StepView::SkipClose(actions@[k].0@)
                }),
        decreases actions@.len() - i,
    {
        let step = match actions[i].1 {
            ActionType::Close => plan_close(sys, &actions[i].0),
            ActionType::Start => PlannedAction::Start(actions[i].0.clone()),
        };
        r.push(step);
        i = i + 1;
    }
    r
}

/// What closing a list of programs comes to, in order: each one is closed if
/// it runs and skipped if not.
pub fn plan_closes(sys: &System, process_names_to_close: &Vec<String>) -> (r: Vec<PlannedAction>)
    ensures
        r@.len() == process_names_to_close@.len(),
        forall|i: int|
            0 <= i < process_names_to_close@.len() ==> plans(
                #[trigger] r@[i],
                process_names_to_close@[i]@,
                ActionType::Close,
                runs_process_named(process_names(*sys), process_names_to_close@[i]@),
            ),
        forall|i: int|
            0 <= i < process_names_to_close@.len() ==> #[trigger] r@[i]@ == (
            if runs_process_named(process_names(*sys), process_names_to_close@[i]@) {
                StepView::Close(process_names_to_close@[i]@)
            } else {
                StepView::SkipClose(process_names_to_close@[i]@)
            }),
{
    let mut r: Vec<PlannedAction> = Vec::new();
    let mut i: usize = 0;
    while i < process_names_to_close.len()
        invariant
            0 <= i <= process_names_to_close@.len(),
            r@.len() == i,
            forall|k: int|
                0 <= k < i ==> plans(
                    #[trigger] r@[k],
                    process_names_to_close@[k]@,
                    ActionType::Close,
                    runs_process_named(process_names(*sys), process_names_to_close@[k]@),
                ),
            forall|k: int|
                0 <= k < i ==> #[trigger] r@[k]@ == (
                if runs_process_named(process_names(*sys), process_names_to_close@[k]@) {
                    StepView::Close(process_names_to_close@[k]@)
                } else {
                    StepView::SkipClose(process_names_to_close@[k]@)
                }),
        decreases process_names_to_close@.len() - i,
    {
        r.push(plan_close(sys, &process_names_to_close[i]));
        i = i + 1;
    }
    r
}

/// `step` is, as a view, one of the steps of `plan`.
pub open spec fn step_in(step: PlannedAction, plan: Seq<PlannedAction>) -> bool {
    exists|j: int| 0 <= j < plan.len() && #[trigger] plan[j]@ === step@
}

/// A program given `start` is started, whether or not a process of that
/// name already runs.
pub proof fn lemma_start_ignores_running(step: PlannedAction, name: Seq<char>, running: bool)
    requires
        plans(step, name, ActionType::Start, running),
    ensures
        step@ == StepView::Start(name),
{
}

/// Only a program given `close` is closed or skipped; it is closed only when
/// a process of that name runs and skipped only when none does; and every
/// step names the program of its action.
pub proof fn lemma_steps_follow_actions(
    step: PlannedAction,
    name: Seq<char>,
    action: ActionType,
    running: bool,
)
    requires
        plans(step, name, action, running),
    ensures
        step@ is Close ==> action == ActionType::Close && running,
        step@ is SkipClose ==> action == ActionType::Close && !running,
        step@ is Start ==> action == ActionType::Start,
        step@ == StepView::Close(name) || step@ == StepView::SkipClose(name) || step@
            == StepView::Start(name),
{
}

/// The step planned for an action is fixed by the program's name, the action
/// and whether the program runs.
pub proof fn lemma_plan_is_determined(
    a: PlannedAction,
    b: PlannedAction,
    name: Seq<char>,
    action: ActionType,
    running: bool,
)
    requires
        plans(a, name, action, running),
        plans(b, name, action, running),
    ensures
        a@ == b@,
{
}

/// Closing a list of programs plans the same steps as carrying out a table
/// that gives `close` to each of those programs, whatever the table's order:
/// each program gets the same step from both, and the two plans hold the same
/// steps.
pub proof fn lemma_closing_a_list_is_a_close_table(
    sys: System,
    names: Seq<String>,
    table: Seq<(String, ActionType)>,
    closes: Seq<PlannedAction>,
    actions: Seq<PlannedAction>,
)
    requires
        closes.len() == names.len(),
        forall|i: int|
            0 <= i < names.len() ==> plans(
                #[trigger] closes[i],
                names[i]@,
                ActionType::Close,
                runs_process_named(process_names(sys), names[i]@),
            ),
        actions.len() == table.len(),
        forall|j: int|
            0 <= j < table.len() ==> plans(
                #[trigger] actions[j],
                table[j].0@,
                table[j].1,
                runs_process_named(process_names(sys), table[j].0@),
            ),
        forall|j: int| 0 <= j < table.len() ==> #[trigger] table[j].1 == ActionType::Close,
        forall|i: int|
            #![trigger names[i]]
            0 <= i < names.len() ==> exists|j: int|
                #![trigger table[j]]
                0 <= j < table.len() && table[j].0@ == names[i]@,
        forall|j: int|
            #![trigger table[j]]
            0 <= j < table.len() ==> exists|i: int|
                #![trigger names[i]]
                0 <= i < names.len() && names[i]@ == table[j].0@,
    ensures
        forall|i: int, j: int|
            0 <= i < names.len() && 0 <= j < table.len() && names[i]@ == table[j].0@
                ==> #[trigger] closes[i]@ == #[trigger] actions[j]@,
        forall|i: int| 0 <= i < closes.len() ==> step_in(#[trigger] closes[i], actions),
        forall|j: int| 0 <= j < actions.len() ==> step_in(#[trigger] actions[j], closes),
{
    assert forall|i: int, j: int|
        0 <= i < names.len() && 0 <= j < table.len() && names[i]@ == table[j].0@
            implies #[trigger] closes[i]@ == #[trigger] actions[j]@ by {
        let running = runs_process_named(process_names(sys), names[i]@);
        assert(plans(closes[i], names[i]@, ActionType::Close, running));
        assert(plans(actions[j], table[j].0@, table[j].1, running));
        assert(table[j].1 == ActionType::Close);
        lemma_plan_is_determined(closes[i], actions[j], names[i]@, ActionType::Close, running);
    }
    assert forall|i: int| 0 <= i < closes.len() implies step_in(#[trigger] closes[i], actions) by {
        assert(names[i] == names[i]);
        let j = choose|j: int| 0 <= j < table.len() && table[j].0@ == names[i]@;
        assert(actions[j]@ === closes[i]@);
    }
    assert forall|j: int| 0 <= j < actions.len() implies step_in(#[trigger] actions[j], closes) by {
        assert(table[j] == table[j]);
        let i = choose|i: int| 0 <= i < names.len() && names[i]@ == table[j].0@;
        assert(closes[i]@ === actions[j]@);
    }
}

} // verus!
