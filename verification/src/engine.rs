//! The memoized task-execution engine.
//!
//! A task is identified by a function identifier plus its ordered, erased
//! argument list; one task record exists per distinct identity, owning its
//! cell store and execution state. Handles locate values without owning
//! them; reads record dependency edges; invalidation marks dependents stale,
//! and a stale task is re-run only when its output is demanded again. If a
//! re-execution produces a value equal to the previous one, existing readers
//! are not marked stale.

use vstd::prelude::*;
use crate::erased::{
    ErasedValue,
    ErasedView,
    Vc,
    views_of,
    ev_view,
    eq_erased,
    eq_value_lists,
    clone_erased,
    lemma_views_of,
};
use crate::errors::{EngineError, ErrorView, eq_error};

verus! {

broadcast use vstd::std_specs::vec::group_vec_axioms, vstd::seq_lib::lemma_seq_contains_after_push;

/// The completed result of one task execution: a value, or the error the
/// body reported, forwarded verbatim to every reader.
pub type Outcome = Result<ErasedValue, EngineError>;

/// The mathematical shape of an outcome.
pub type OutcomeView = Result<ErasedView, ErrorView>;

/// The view of an outcome.
pub open spec fn outcome_view(o: Outcome) -> OutcomeView {
    match o {
        Result::Ok(v) => Result::Ok(ev_view(v)),
        Result::Err(e) => Result::Err(e@),
    }
}

/// Structural equality of two outcomes.
pub fn eq_outcome(a: &Outcome, b: &Outcome) -> (r: bool)
    ensures
        r == (outcome_view(*a) == outcome_view(*b)),
{
    match a {
        Result::Ok(va) => match b {
            Result::Ok(vb) => eq_erased(va, vb),
            _ => false,
        },
        Result::Err(ea) => match b {
            Result::Err(eb) => eq_error(ea, eb),
            _ => false,
        },
    }
}

/// The execution state of a task. `Done` and `Failed` move back to
/// `Pending` only through invalidation of one of the task's recorded
/// dependencies, never spontaneously.
#[derive(Clone, Copy, Debug, PartialEq, Eq, Structural)]
pub enum TaskState {
    Pending,
    Running,
    Done,
    Failed,
}

/// A task identity: a function identifier plus the ordered erased
/// arguments. Identity equality is function-id equality plus elementwise
/// structural equality of the arguments.
struct TaskKey {
    function_id: u64,
    args: Vec<ErasedValue>,
}

/// One storage slot of a task: the value it holds and the tasks that have
/// read it since the current value was produced.
struct CellSlot {
    value: ErasedValue,
    readers: Vec<usize>,
}

/// One recorded dependency edge of a task: the handle it read and the
/// outcome it observed.
struct Dep {
    vc: Vc,
    seen: Outcome,
}

struct Task {
    key: TaskKey,
    state: TaskState,
    cells: Vec<CellSlot>,
    outcome: Option<Outcome>,
    out_readers: Vec<usize>,
    deps: Vec<Dep>,
    exec_count: u64,
}

/// The shape of one cell slot.
#[verifier::ext_equal]
pub struct CellSlotView {
    pub value: ErasedView,
    pub readers: Seq<usize>,
}

/// The shape of one recorded dependency.
#[verifier::ext_equal]
pub struct DepView {
    pub vc: Vc,
    pub seen: OutcomeView,
}

/// The shape of one task record.
#[verifier::ext_equal]
pub struct TaskView {
    pub function_id: u64,
    pub args: Seq<ErasedView>,
    pub state: TaskState,
    pub cells: Seq<CellSlotView>,
    pub outcome: Option<OutcomeView>,
    pub out_readers: Seq<usize>,
    pub deps: Seq<DepView>,
    pub exec_count: u64,
}

/// The shape of the whole engine: the task arena and the registered
/// function identifiers.
#[verifier::ext_equal]
pub struct EngineView {
    pub tasks: Seq<TaskView>,
    pub registered: Seq<u64>,
}

spec fn cell_view(c: CellSlot) -> CellSlotView {
    CellSlotView { value: ev_view(c.value), readers: c.readers@ }
}

spec fn dep_view(d: Dep) -> DepView {
    DepView { vc: d.vc, seen: outcome_view(d.seen) }
}

spec fn task_view(t: Task) -> TaskView {
    TaskView {
        function_id: t.key.function_id,
        args: views_of(t.key.args@),
        state: t.state,
        cells: Seq::new(t.cells@.len(), |i: int| cell_view(t.cells@[i])),
        outcome: match t.outcome {
            Option::Some(o) => Option::Some(outcome_view(o)),
            Option::None => Option::None,
        },
        out_readers: t.out_readers@,
        deps: Seq::new(t.deps@.len(), |i: int| dep_view(t.deps@[i])),
        exec_count: t.exec_count,
    }
}

/// The memoized task-execution engine: the identity-keyed task arena and
/// the registry of known function identifiers. One engine instance owns all
/// of its tasks' storage; nothing escapes its scope.
pub struct Engine {
    tasks: Vec<Task>,
    registered: Vec<u64>,
}

impl View for Engine {
    type V = EngineView;

    closed spec fn view(&self) -> EngineView {
        EngineView {
            tasks: Seq::new(self.tasks@.len(), |i: int| task_view(self.tasks@[i])),
            registered: self.registered@,
        }
    }
}

/// Whether a task record carries the given identity.
pub open spec fn key_matches(t: TaskView, function_id: u64, args: Seq<ErasedView>) -> bool {
    t.function_id == function_id && t.args == args
}

/// The index of the first task with the given identity, if any.
pub open spec fn spec_find(tasks: Seq<TaskView>, function_id: u64, args: Seq<ErasedView>) -> Option<
    int,
>
    decreases tasks.len(),
{
    if tasks.len() == 0 {
        Option::None
    } else if key_matches(tasks[0], function_id, args) {
        Option::Some(0)
    } else {
        match spec_find(tasks.drop_first(), function_id, args) {
            Option::Some(i) => Option::Some(i + 1),
            Option::None => Option::None,
        }
    }
}

proof fn lemma_spec_find_some(
    tasks: Seq<TaskView>,
    function_id: u64,
    args: Seq<ErasedView>,
    i: int,
)
    requires
        0 <= i < tasks.len(),
        key_matches(tasks[i], function_id, args),
        forall|j: int| 0 <= j < i ==> !key_matches(#[trigger] tasks[j], function_id, args),
    ensures
        spec_find(tasks, function_id, args) == Option::Some(i),
    decreases i,
{
    if i > 0 {
        lemma_spec_find_some(tasks.drop_first(), function_id, args, i - 1);
    }
}

proof fn lemma_spec_find_none(tasks: Seq<TaskView>, function_id: u64, args: Seq<ErasedView>)
    requires
        forall|j: int| 0 <= j < tasks.len() ==> !key_matches(#[trigger] tasks[j], function_id, args),
    ensures
        spec_find(tasks, function_id, args) == Option::<int>::None,
    decreases tasks.len(),
{
    if tasks.len() > 0 {
        lemma_spec_find_none(tasks.drop_first(), function_id, args);
    }
}

/// The record a fresh call creates: pending, with empty storage, no
/// recorded dependencies and no executions yet.
pub open spec fn fresh_task_view(function_id: u64, args: Seq<ErasedView>) -> TaskView {
    TaskView {
        function_id,
        args,
        state: TaskState::Pending,
        cells: Seq::empty(),
        outcome: Option::None,
        out_readers: Seq::empty(),
        deps: Seq::empty(),
        exec_count: 0,
    }
}

/// Well-formedness of the engine between operations: task identities are
/// unique — at most one record per identity — and no execution is in
/// flight.
pub open spec fn wf(e: EngineView) -> bool {
    &&& forall|i: int, j: int|
        0 <= i < e.tasks.len() && 0 <= j < e.tasks.len() && key_matches(
            #[trigger] e.tasks[i],
            (#[trigger] e.tasks[j]).function_id,
            e.tasks[j].args,
        ) ==> i == j
    &&& forall|i: int| 0 <= i < e.tasks.len() ==> (#[trigger] e.tasks[i].state) != TaskState::Running
}

/// Whether a task is settled: its record holds a completed outcome.
pub open spec fn settled(e: EngineView, t: int) -> bool {
    e.tasks[t].state == TaskState::Done || e.tasks[t].state == TaskState::Failed
}

/// A task record marked stale: only its state moves to `Pending`.
pub open spec fn pended(t: TaskView) -> TaskView {
    TaskView { state: TaskState::Pending, ..t }
}

/// Whether invalidation touches a task: only a settled task becomes stale;
/// a pending one already is.
pub open spec fn should_pend(t: TaskView) -> bool {
    t.state == TaskState::Done || t.state == TaskState::Failed
}

/// Whether a readers list names the task with index `j`.
pub open spec fn names_task(readers: Seq<usize>, j: int) -> bool {
    exists|k: int| 0 <= k < readers.len() && readers[k] == j
}

proof fn lemma_names_task_push(s: Seq<usize>, v: usize, j: int)
    ensures
        names_task(s.push(v), j) <==> (v == j || names_task(s, j)),
{
    if names_task(s.push(v), j) {
        let k = choose|k: int| 0 <= k < s.push(v).len() && s.push(v)[k] == j;
        if k < s.len() {
            assert(s[k] == j);
        }
    }
    if v == j {
        assert(s.push(v)[s.len() as int] == j);
    }
    if names_task(s, j) {
        let k = choose|k: int| 0 <= k < s.len() && s[k] == j;
        assert(s.push(v)[k] == j);
    }
}

/// Whether a new outcome differs from the one a task record holds.
pub open spec fn out_changed(t: TaskView, out: OutcomeView) -> bool {
    !(t.outcome matches Some(o) && o == out)
}

/// Whether re-execution changed the cell written at `i`: the slot
/// disappeared, or its value is not structurally equal to the previous one.
pub open spec fn cell_changed(t: TaskView, new_cells: Seq<ErasedView>, i: int) -> bool {
    i >= new_cells.len() || t.cells[i].value != new_cells[i]
}

/// The readers that a completed re-execution of `t` invalidates: the
/// readers of its output if the outcome changed, and the readers of every
/// cell whose value changed. Readers of slots whose values are equal to the
/// previous ones are not among them: an equal write is not a change.
pub open spec fn finish_marks(t: TaskView, new_cells: Seq<ErasedView>, out: OutcomeView, j: int) -> bool {
    ||| (out_changed(t, out) && names_task(t.out_readers, j))
    ||| exists|i: int|
        0 <= i < t.cells.len() && cell_changed(t, new_cells, i) && names_task(
            (#[trigger] t.cells[i]).readers,
            j,
        )
}

/// The readers invalidated by the output change and by the changed cells
/// among the first `i`.
pub open spec fn marks_upto(
    t: TaskView,
    new_cells: Seq<ErasedView>,
    out: OutcomeView,
    i: int,
    j: int,
) -> bool {
    ||| (out_changed(t, out) && names_task(t.out_readers, j))
    ||| exists|c: int|
        0 <= c < i && c < t.cells.len() && cell_changed(t, new_cells, c) && names_task(
            (#[trigger] t.cells[c]).readers,
            j,
        )
}

proof fn lemma_marks_upto_step(t: TaskView, new_cells: Seq<ErasedView>, out: OutcomeView, i: int, j: int)
    ensures
        marks_upto(t, new_cells, out, i + 1, j) <==> (marks_upto(t, new_cells, out, i, j) || (0
            <= i < t.cells.len() && cell_changed(t, new_cells, i) && names_task(
            t.cells[i].readers,
            j,
        ))),
{
    if marks_upto(t, new_cells, out, i + 1, j) && !(out_changed(t, out) && names_task(
        t.out_readers,
        j,
    )) {
        let c = choose|c: int|
            0 <= c < i + 1 && c < t.cells.len() && cell_changed(t, new_cells, c) && names_task(
                (#[trigger] t.cells[c]).readers,
                j,
            );
        if c < i {
            assert(marks_upto(t, new_cells, out, i, j));
        }
    }
    if marks_upto(t, new_cells, out, i, j) && !(out_changed(t, out) && names_task(
        t.out_readers,
        j,
    )) {
        let c = choose|c: int|
            0 <= c < i && c < t.cells.len() && cell_changed(t, new_cells, c) && names_task(
                (#[trigger] t.cells[c]).readers,
                j,
            );
        assert(0 <= c < i + 1 && c < t.cells.len() && cell_changed(t, new_cells, c) && names_task(
            t.cells[c].readers,
            j,
        ));
    }
    if 0 <= i < t.cells.len() && cell_changed(t, new_cells, i) && names_task(t.cells[i].readers, j) {
        assert(0 <= i < i + 1 && i < t.cells.len() && cell_changed(t, new_cells, i) && names_task(
            t.cells[i].readers,
            j,
        ));
    }
}

proof fn lemma_marks_upto_full(t: TaskView, new_cells: Seq<ErasedView>, out: OutcomeView, i: int, j: int)
    requires
        i >= t.cells.len(),
    ensures
        marks_upto(t, new_cells, out, i, j) <==> finish_marks(t, new_cells, out, j),
{
    if marks_upto(t, new_cells, out, i, j) && !(out_changed(t, out) && names_task(
        t.out_readers,
        j,
    )) {
        let c = choose|c: int|
            0 <= c < i && c < t.cells.len() && cell_changed(t, new_cells, c) && names_task(
                (#[trigger] t.cells[c]).readers,
                j,
            );
        assert(0 <= c < t.cells.len() && cell_changed(t, new_cells, c) && names_task(
            t.cells[c].readers,
            j,
        ));
    }
    if finish_marks(t, new_cells, out, j) && !(out_changed(t, out) && names_task(
        t.out_readers,
        j,
    )) {
        let c = choose|c: int|
            0 <= c < t.cells.len() && cell_changed(t, new_cells, c) && names_task(
                (#[trigger] t.cells[c]).readers,
                j,
            );
        assert(0 <= c < i && c < t.cells.len() && cell_changed(t, new_cells, c) && names_task(
            t.cells[c].readers,
            j,
        ));
    }
}

/// The record of `t` after a completed execution: the new cells and
/// outcome, `Done` or `Failed` by the outcome, keeping the readers of every
/// slot whose value did not change and dropping the edges of those that
/// did.
pub open spec fn finished_task(t: TaskView, new_cells: Seq<ErasedView>, out: OutcomeView) -> TaskView {
    TaskView {
        state: if out is Ok {
            TaskState::Done
        } else {
            TaskState::Failed
        },
        cells: Seq::new(
            new_cells.len(),
            |i: int|
                CellSlotView {
                    value: new_cells[i],
                    readers: if i < t.cells.len() && !cell_changed(t, new_cells, i) {
                        t.cells[i].readers
                    } else {
                        Seq::empty()
                    },
                },
        ),
        outcome: Some(out),
        out_readers: if out_changed(t, out) {
            Seq::empty()
        } else {
            t.out_readers
        },
        ..t
    }
}

/// The whole engine after a completed execution of `t`: the record of `t`
/// replaced, the invalidated readers marked stale, everything else — other
/// tasks, the registry — untouched.
pub open spec fn finish_effect(e: EngineView, t: int, new_cells: Seq<ErasedView>, out: OutcomeView) -> EngineView {
    EngineView {
        tasks: Seq::new(
            e.tasks.len(),
            |j: int|
                if j == t {
                    finished_task(e.tasks[t], new_cells, out)
                } else if finish_marks(e.tasks[t], new_cells, out, j) && should_pend(
                    e.tasks[j],
                ) {
                    pended(e.tasks[j])
                } else {
                    e.tasks[j]
                },
        ),
        registered: e.registered,
    }
}

/// Equal-output short-circuit: if an execution of `t` writes an outcome and
/// cells all equal to the previous ones, no reader of `t` is marked stale —
/// every other task record is untouched, so no dependent is re-executed on
/// the next demand.
pub proof fn lemma_equal_output_short_circuit(
    e: EngineView,
    t: int,
    new_cells: Seq<ErasedView>,
    out: OutcomeView,
)
    requires
        0 <= t < e.tasks.len(),
        !out_changed(e.tasks[t], out),
        new_cells.len() == e.tasks[t].cells.len(),
        forall|i: int| 0 <= i < new_cells.len() ==> (#[trigger] e.tasks[t].cells[i]).value
            == new_cells[i],
    ensures
        forall|j: int|
            0 <= j < e.tasks.len() && j != t ==> #[trigger] finish_effect(
                e,
                t,
                new_cells,
                out,
            ).tasks[j] == e.tasks[j],
        finish_effect(e, t, new_cells, out).tasks[t].out_readers == e.tasks[t].out_readers,
{
    assert forall|j: int| 0 <= j < e.tasks.len() && j != t implies #[trigger] finish_effect(
        e,
        t,
        new_cells,
        out,
    ).tasks[j] == e.tasks[j] by {
        assert(!finish_marks(e.tasks[t], new_cells, out, j));
    }
}

/// Change propagation: if an execution of `t` writes a changed outcome,
/// every settled task that read `t`'s output is marked stale, so it is
/// recomputed on its next demand.
pub proof fn lemma_change_propagation(
    e: EngineView,
    t: int,
    new_cells: Seq<ErasedView>,
    out: OutcomeView,
)
    requires
        0 <= t < e.tasks.len(),
        out_changed(e.tasks[t], out),
    ensures
        forall|j: int|
            0 <= j < e.tasks.len() && j != t && names_task(e.tasks[t].out_readers, j)
                && should_pend(#[trigger] e.tasks[j]) ==> finish_effect(
                e,
                t,
                new_cells,
                out,
            ).tasks[j].state == TaskState::Pending,
{
}

/// One step of a task body's execution, reported back to the scheduler.
///
/// A body is a pure function of its arguments and of the outcomes of the
/// reads it has made so far: it either asks for one more read — the only
/// suspension point — or finishes with its cell writes and its output.
/// Because it is pure, the scheduler replays it from the start with the
/// accumulated read outcomes whenever it resumes.
pub enum BodyStep {
    /// The body needs the value of this handle before it can continue.
    NeedsRead(Vc),
    /// The body is done: the cell values it wrote, in write order, and its
    /// designated output — a value, possibly itself a handle, or the error
    /// to cache and forward verbatim.
    Finish { cells: Vec<ErasedValue>, outcome: Outcome },
}

/// The registered task bodies: one pure function per registered function
/// identifier, dispatched by the engine when a task must run. Implementors
/// supply the bodies; the engine states what holds of its own store whatever
/// a step returns.
pub trait TaskBody {
    /// Resume the body of `function_id` applied to `args`, given the
    /// outcomes of the `reads` it has requested so far, in request order.
    fn step(&self, function_id: u64, args: &Vec<ErasedValue>, reads: &Vec<Outcome>) -> BodyStep;
}

/// A copy of an outcome, structurally equal to what it copies.
pub fn clone_outcome(o: &Outcome) -> (r: Outcome)
    ensures
        outcome_view(r) == outcome_view(*o),
{
    match o {
        Result::Ok(v) => Ok(clone_erased(v)),
        Result::Err(e) => Err(e.clone()),
    }
}

/// What one slot lookup yields: a terminal outcome, or the handle stored as
/// a task's designated output, to be followed one further step.
enum Resolved {
    Value(Outcome),
    Alias(Vc),
}

/// The shape of a slot lookup's result.
pub enum ResolvedView {
    Value(OutcomeView),
    Alias(Vc),
}

spec fn resolved_view(r: Resolved) -> ResolvedView {
    match r {
        Resolved::Value(o) => ResolvedView::Value(outcome_view(o)),
        Resolved::Alias(h) => ResolvedView::Alias(h),
    }
}

/// The task a handle refers to.
pub open spec fn vc_task(vc: Vc) -> usize {
    match vc {
        Vc::Output { task } => task,
        Vc::Cell { task, .. } => task,
    }
}

/// One level of handle resolution against the store, with no recomputation:
/// a handle to an unknown task or to a slot the task never wrote is not
/// recognized; a cached error is returned verbatim to any read of the task;
/// an output holding a handle is an alias to follow.
pub open spec fn spec_resolve_slot(e: EngineView, vc: Vc) -> ResolvedView {
    if vc_task(vc) >= e.tasks.len() {
        ResolvedView::Value(Result::Err(ErrorView::UnknownVariant))
    } else {
        let t = e.tasks[vc_task(vc) as int];
        match t.outcome {
            Option::Some(Result::Err(er)) => ResolvedView::Value(Result::Err(er)),
            Option::Some(Result::Ok(v)) => match vc {
                Vc::Output { .. } => match v {
                    ErasedView::Output { task } => ResolvedView::Alias(Vc::Output { task }),
                    ErasedView::Cell { task, index } => ResolvedView::Alias(
                        Vc::Cell { task, index },
                    ),
                    _ => ResolvedView::Value(Result::Ok(v)),
                },
                Vc::Cell { index, .. } => if index < t.cells.len() {
                    ResolvedView::Value(Result::Ok(t.cells[index as int].value))
                } else {
                    ResolvedView::Value(Result::Err(ErrorView::UnknownVariant))
                },
            },
            Option::None => ResolvedView::Value(Result::Err(ErrorView::UnknownVariant)),
        }
    }
}

/// What a read of `vc` returns against a settled store: the slot's value or
/// cached error, following exactly one output alias; a longer chain is a
/// misuse and is not recognized.
pub open spec fn spec_read_result(e: EngineView, vc: Vc) -> OutcomeView {
    match spec_resolve_slot(e, vc) {
        ResolvedView::Value(o) => o,
        ResolvedView::Alias(h) => match spec_resolve_slot(e, h) {
            ResolvedView::Value(o) => o,
            ResolvedView::Alias(_) => Result::Err(ErrorView::UnknownVariant),
        },
    }
}

/// Two task records equal except for the reader edges on their slots.
pub open spec fn eq_mod_readers(a: TaskView, b: TaskView) -> bool {
    &&& a.function_id == b.function_id
    &&& a.args == b.args
    &&& a.state == b.state
    &&& a.outcome == b.outcome
    &&& a.deps == b.deps
    &&& a.exec_count == b.exec_count
    &&& a.cells.len() == b.cells.len()
    &&& forall|i: int| 0 <= i < a.cells.len() ==> (#[trigger] a.cells[i]).value == b.cells[i].value
}

/// Well-formedness survives any change that keeps every task's identity and
/// leaves no execution in flight.
proof fn lemma_wf_preserved(e0: EngineView, e1: EngineView)
    requires
        wf(e0),
        e1.tasks.len() == e0.tasks.len(),
        forall|j: int|
            0 <= j < e1.tasks.len() ==> (#[trigger] e1.tasks[j]).function_id
                == e0.tasks[j].function_id && e1.tasks[j].args == e0.tasks[j].args
                && e1.tasks[j].state != TaskState::Running,
    ensures
        wf(e1),
{
    assert forall|i: int, j: int|
        0 <= i < e1.tasks.len() && 0 <= j < e1.tasks.len() && key_matches(
            #[trigger] e1.tasks[i],
            (#[trigger] e1.tasks[j]).function_id,
            e1.tasks[j].args,
        ) implies i == j by {
        assert(key_matches(e0.tasks[i], e0.tasks[j].function_id, e0.tasks[j].args));
    }
}

/// Memoization: a lookup made after a call that created the record for an
/// identity finds exactly that record — so any number of calls with
/// structurally equal arguments resolve to the same task, only the first
/// can create a record, and a later read of a settled record does not run
/// the body again.
pub proof fn lemma_call_memoized(e: EngineView, function_id: u64, args: Seq<ErasedView>)
    requires
        spec_find(e.tasks, function_id, args) is None,
    ensures
        spec_find(
            e.tasks.push(fresh_task_view(function_id, args)),
            function_id,
            args,
        ) == Some(e.tasks.len() as int),
{
    lemma_spec_find_unmatched(e.tasks, function_id, args);
    let pushed = e.tasks.push(fresh_task_view(function_id, args));
    assert(key_matches(pushed[e.tasks.len() as int], function_id, args));
    lemma_spec_find_some(pushed, function_id, args, e.tasks.len() as int);
}

proof fn lemma_spec_find_unmatched(tasks: Seq<TaskView>, function_id: u64, args: Seq<ErasedView>)
    requires
        spec_find(tasks, function_id, args) is None,
    ensures
        forall|j: int| 0 <= j < tasks.len() ==> !key_matches(#[trigger] tasks[j], function_id, args),
    decreases tasks.len(),
{
    if tasks.len() > 0 {
        lemma_spec_find_unmatched(tasks.drop_first(), function_id, args);
        assert forall|j: int| 0 <= j < tasks.len() implies !key_matches(
            #[trigger] tasks[j],
            function_id,
            args,
        ) by {
            if j > 0 {
                assert(tasks.drop_first()[j - 1] == tasks[j]);
            }
        }
    }
}

fn has_u64(v: &Vec<u64>, x: u64) -> (r: bool)
    ensures
        r == v@.contains(x),
{
    let n = v.len();
    let mut i: usize = 0;
    while i < n
        invariant
            n == v@.len(),
            0 <= i <= n,
            forall|j: int| 0 <= j < i ==> v@[j] != x,
        decreases n - i,
    {
        if v[i] == x {
            return true;
        }
        i = i + 1;
    }
    false
}

impl Engine {
    /// A fresh engine: no tasks, no registered functions.
    pub fn new() -> (r: Engine)
        ensures
            r@.tasks == Seq::<TaskView>::empty(),
            r@.registered == Seq::<u64>::empty(),
            wf(r@),
    {
        let r = Engine { tasks: Vec::new(), registered: Vec::new() };
        proof {
            assert(r@.tasks =~= Seq::<TaskView>::empty());
            assert(r@.registered =~= Seq::<u64>::empty());
        }
        r
    }

    /// The number of task records the engine holds.
    pub fn task_count(&self) -> (r: usize)
        ensures
            r == self@.tasks.len(),
    {
        self.tasks.len()
    }

    /// The execution state of a task, or `None` for an unknown identifier.
    pub fn task_state(&self, id: usize) -> (r: Option<TaskState>)
        ensures
            id < self@.tasks.len() ==> r == Option::Some(self@.tasks[id as int].state),
            id >= self@.tasks.len() ==> r is None,
    {
        if id < self.tasks.len() {
            Some(self.tasks[id].state)
        } else {
            None
        }
    }

    /// How many times a task's body has been run, or `None` for an unknown
    /// identifier.
    pub fn execution_count(&self, id: usize) -> (r: Option<u64>)
        ensures
            id < self@.tasks.len() ==> r == Option::Some(self@.tasks[id as int].exec_count),
            id >= self@.tasks.len() ==> r is None,
    {
        if id < self.tasks.len() {
            Some(self.tasks[id].exec_count)
        } else {
            None
        }
    }

    /// Whether a function identifier has been registered.
    pub fn is_registered(&self, function_id: u64) -> (r: bool)
        ensures
            r == self@.registered.contains(function_id),
    {
        has_u64(&self.registered, function_id)
    }

    /// Associate a function identifier with the engine; the body it names
    /// is supplied by the `TaskBody` value handed to `read`. Registration is
    /// idempotent: registering an identifier twice changes nothing.
    pub fn register(&mut self, function_id: u64)
        requires
            wf(old(self)@),
        ensures
            wf(final(self)@),
            final(self)@.tasks == old(self)@.tasks,
            old(self)@.registered.contains(function_id) ==> final(self)@.registered == old(
                self,
            )@.registered,
            !old(self)@.registered.contains(function_id) ==> final(self)@.registered == old(
                self,
            )@.registered.push(function_id),
            final(self)@.registered.contains(function_id),
    {
        if !has_u64(&self.registered, function_id) {
            self.registered.push(function_id);
            proof {
                assert(self@.registered.last() == function_id);
            }
        }
        proof {
            assert(self@.tasks =~= old(self)@.tasks);
        }
    }

    /// Look up or create the task with the given identity and return a
    /// handle to its output. The handle is returned immediately; nothing is
    /// executed. Two calls with structurally equal arguments resolve to the
    /// same task, and a call whose identity already exists changes nothing.
    pub fn call(&mut self, function_id: u64, args: Vec<ErasedValue>) -> (r: Vc)
        requires
            wf(old(self)@),
        ensures
            wf(final(self)@),
            match spec_find(old(self)@.tasks, function_id, views_of(args@)) {
                Option::Some(i) => final(self)@ == old(self)@ && r == (Vc::Output {
                    task: i as usize,
                }),
                Option::None => {
                    &&& final(self)@.tasks == old(self)@.tasks.push(
                        fresh_task_view(function_id, views_of(args@)),
                    )
                    &&& final(self)@.registered == old(self)@.registered
                    &&& r == (Vc::Output { task: old(self)@.tasks.len() as usize })
                },
            },
            r matches Vc::Output { task } && task < final(self)@.tasks.len() && key_matches(
                final(self)@.tasks[r->Output_task as int],
                function_id,
                views_of(args@),
            ),
    {
        let n = self.tasks.len();
        let ghost key_args = views_of(args@);
        let mut i: usize = 0;
        while i < n
            invariant
                wf(self@),
                self@ == old(self)@,
                n == self@.tasks.len(),
                0 <= i <= n,
                key_args == views_of(args@),
                forall|j: int| 0 <= j < i ==> !key_matches(#[trigger] self@.tasks[j], function_id, key_args),
            decreases n - i,
        {
            let t = &self.tasks[i];
            if t.key.function_id == function_id && eq_value_lists(&t.key.args, &args) {
                proof {
                    lemma_spec_find_some(self@.tasks, function_id, key_args, i as int);
                }
                return Vc::Output { task: i };
            }
            i = i + 1;
        }
        proof {
            lemma_spec_find_none(self@.tasks, function_id, key_args);
        }
        let task = Task {
            key: TaskKey { function_id, args },
            state: TaskState::Pending,
            cells: Vec::new(),
            outcome: None,
            out_readers: Vec::new(),
            deps: Vec::new(),
            exec_count: 0,
        };
        self.tasks.push(task);
        proof {
            assert(self@.tasks[n as int].cells =~= Seq::<CellSlotView>::empty());
            assert(self@.tasks[n as int].deps =~= Seq::<DepView>::empty());
            assert(self@.tasks[n as int] == fresh_task_view(function_id, key_args));
            assert(self@.tasks =~= old(self)@.tasks.push(fresh_task_view(function_id, key_args)));
        }
        Vc::Output { task: n }
    }

    /// One scheduler step of a running activation: feed the body its reads,
    /// or service the read it asked for.
    #[verifier::rlimit(100)]
    fn step_run<B: TaskBody>(
        &mut self,
        bodies: &B,
        frames: &mut Vec<Frame>,
        fr: Frame,
        Ghost(e0): Ghost<EngineView>,
        Ghost(root): Ghost<usize>,
    )
        requires
            fr.mode matches FrameMode::Run { .. },
            machine_inv(e0, old(self)@, old(frames)@.push(fr), root),
        ensures
            machine_inv(e0, final(self)@, final(frames)@, root),
    {
        let ghost fs0 = old(frames)@.push(fr);
        let t = fr.task;
        proof {
            assert(fs0[fs0.len() - 1] == fr);
            assert(fr.task < self@.tasks.len());
        }
        match fr.mode {
            FrameMode::Run { reads, req } => match req {
                None => {
                    let step = {
                        let task = &self.tasks[t];
                        bodies.step(task.key.function_id, &task.key.args, &reads)
                    };
                    match step {
                        BodyStep::NeedsRead(vc) => {
                            frames.push(
                                Frame {
                                    task: t,
                                    mode: FrameMode::Run {
                                        reads,
                                        req: Some(
                                            ReadReq {
                                                orig: vc,
                                                cur: vc,
                                                hopped: false,
                                                verified: false,
                                            },
                                        ),
                                    },
                                },
                            );
                        },
                        BodyStep::Finish { cells, outcome } => {
                            self.finish_task(t, cells, outcome);
                        },
                    }
                },
                Some(rq) => {
                    if rq.verified {
                        match self.resolve_slot(rq.cur) {
                            Resolved::Value(o) => {
                                self.record_edge(rq.cur, t);
                                let seen = clone_outcome(&o);
                                self.record_dep(t, rq.orig, seen);
                                let mut reads2 = reads;
                                reads2.push(o);
                                frames.push(
                                    Frame {
                                        task: t,
                                        mode: FrameMode::Run { reads: reads2, req: None },
                                    },
                                );
                            },
                            Resolved::Alias(h) => {
                                self.record_edge(rq.cur, t);
                                if rq.hopped {
                                    let o: Outcome = Err(EngineError::UnknownVariant);
                                    let seen = clone_outcome(&o);
                                    self.record_dep(t, rq.orig, seen);
                                    let mut reads2 = reads;
                                    reads2.push(o);
                                    frames.push(
                                        Frame {
                                            task: t,
                                            mode: FrameMode::Run { reads: reads2, req: None },
                                        },
                                    );
                                } else {
                                    frames.push(
                                        Frame {
                                            task: t,
                                            mode: FrameMode::Run {
                                                reads,
                                                req: Some(
                                                    ReadReq {
                                                        orig: rq.orig,
                                                        cur: h,
                                                        hopped: true,
                                                        verified: false,
                                                    },
                                                ),
                                            },
                                        },
                                    );
                                }
                            },
                        }
                    } else {
                        let u = match rq.cur {
                            Vc::Output { task } => task,
                            Vc::Cell { task, .. } => task,
                        };
                        if u >= self.tasks.len() || u == t || in_frames(&frames, u) {
                            let o: Outcome = if u >= self.tasks.len() {
                                Err(EngineError::UnknownVariant)
                            } else {
                                Err(EngineError::CycleDetected)
                            };
                            let seen = clone_outcome(&o);
                            self.record_dep(t, rq.orig, seen);
                            let mut reads2 = reads;
                            reads2.push(o);
                            frames.push(
                                Frame {
                                    task: t,
                                    mode: FrameMode::Run { reads: reads2, req: None },
                                },
                            );
                        } else {
                            let st = self.tasks[u].state;
                            match st {
                                TaskState::Pending => {
                                    self.start_run(u);
                                    frames.push(
                                        Frame {
                                            task: t,
                                            mode: FrameMode::Run {
                                                reads,
                                                req: Some(ReadReq { verified: true, ..rq }),
                                            },
                                        },
                                    );
                                    frames.push(
                                        Frame {
                                            task: u,
                                            mode: FrameMode::Run { reads: Vec::new(), req: None },
                                        },
                                    );
                                },
                                TaskState::Running => {
                                    let o: Outcome = Err(EngineError::CycleDetected);
                                    let seen = clone_outcome(&o);
                                    self.record_dep(t, rq.orig, seen);
                                    let mut reads2 = reads;
                                    reads2.push(o);
                                    frames.push(
                                        Frame {
                                            task: t,
                                            mode: FrameMode::Run { reads: reads2, req: None },
                                        },
                                    );
                                },
                                _ => {
                                    frames.push(
                                        Frame {
                                            task: t,
                                            mode: FrameMode::Run {
                                                reads,
                                                req: Some(ReadReq { verified: true, ..rq }),
                                            },
                                        },
                                    );
                                    frames.push(
                                        Frame {
                                            task: u,
                                            mode: FrameMode::Verify { next_dep: 0, req: None },
                                        },
                                    );
                                },
                            }
                        }
                    }
                },
            },
            FrameMode::Verify { .. } => {
                proof {
                    assert(false);
                }
            },
        }
        proof {
            assert forall|i: int| 0 <= i < frames@.len() implies (#[trigger] frames@[i]).task
                < self@.tasks.len() by {
                if i < old(frames)@.len() {
                    assert(old(frames)@[i] == fs0[i]);
                    assert(fs0[i].task < e0.tasks.len());
                }
            }
        }
    }

    /// One scheduler step of a verification: re-check the next recorded
    /// dependency, settle the task if all held, or start a run if one
    /// changed.
    #[verifier::rlimit(100)]
    fn step_verify(
        &mut self,
        frames: &mut Vec<Frame>,
        fr: Frame,
        Ghost(e0): Ghost<EngineView>,
        Ghost(root): Ghost<usize>,
    )
        requires
            fr.mode matches FrameMode::Verify { .. },
            machine_inv(e0, old(self)@, old(frames)@.push(fr), root),
        ensures
            machine_inv(e0, final(self)@, final(frames)@, root),
    {
        let ghost fs0 = old(frames)@.push(fr);
        let t = fr.task;
        proof {
            assert(fs0[fs0.len() - 1] == fr);
            assert(fr.task < self@.tasks.len());
        }
        match fr.mode {
            FrameMode::Verify { next_dep, req } => match req {
                None => {
                    if next_dep >= self.tasks[t].deps.len() {
                        self.settle_by_outcome(t, "task record holds no outcome");
                    } else {
                        let dvc = self.tasks[t].deps[next_dep].vc;
                        frames.push(
                            Frame {
                                task: t,
                                mode: FrameMode::Verify {
                                    next_dep,
                                    req: Some(
                                        ReadReq {
                                            orig: dvc,
                                            cur: dvc,
                                            hopped: false,
                                            verified: false,
                                        },
                                    ),
                                },
                            },
                        );
                    }
                },
                Some(rq) => {
                    if rq.verified {
                        match self.resolve_slot(rq.cur) {
                            Resolved::Value(o) => {
                                let equal = if next_dep < self.tasks[t].deps.len() {
                                    eq_outcome(&o, &self.tasks[t].deps[next_dep].seen)
                                } else {
                                    false
                                };
                                if equal {
                                    frames.push(
                                        Frame {
                                            task: t,
                                            mode: FrameMode::Verify {
                                                next_dep: next_dep + 1,
                                                req: None,
                                            },
                                        },
                                    );
                                } else {
                                    self.start_run(t);
                                    frames.push(
                                        Frame {
                                            task: t,
                                            mode: FrameMode::Run { reads: Vec::new(), req: None },
                                        },
                                    );
                                }
                            },
                            Resolved::Alias(h) => {
                                if rq.hopped {
                                    self.start_run(t);
                                    frames.push(
                                        Frame {
                                            task: t,
                                            mode: FrameMode::Run { reads: Vec::new(), req: None },
                                        },
                                    );
                                } else {
                                    frames.push(
                                        Frame {
                                            task: t,
                                            mode: FrameMode::Verify {
                                                next_dep,
                                                req: Some(
                                                    ReadReq {
                                                        orig: rq.orig,
                                                        cur: h,
                                                        hopped: true,
                                                        verified: false,
                                                    },
                                                ),
                                            },
                                        },
                                    );
                                }
                            },
                        }
                    } else {
                        let u = match rq.cur {
                            Vc::Output { task } => task,
                            Vc::Cell { task, .. } => task,
                        };
                        if u >= self.tasks.len() || u == t || in_frames(&frames, u) {
                            let o: Outcome = if u >= self.tasks.len() {
                                Err(EngineError::UnknownVariant)
                            } else {
                                Err(EngineError::CycleDetected)
                            };
                            let equal = if next_dep < self.tasks[t].deps.len() {
                                eq_outcome(&o, &self.tasks[t].deps[next_dep].seen)
                            } else {
                                false
                            };
                            if equal {
                                frames.push(
                                    Frame {
                                        task: t,
                                        mode: FrameMode::Verify {
                                            next_dep: next_dep + 1,
                                            req: None,
                                        },
                                    },
                                );
                            } else {
                                self.start_run(t);
                                frames.push(
                                    Frame {
                                        task: t,
                                        mode: FrameMode::Run { reads: Vec::new(), req: None },
                                    },
                                );
                            }
                        } else {
                            let st = self.tasks[u].state;
                            match st {
                                TaskState::Pending => {
                                    self.start_run(u);
                                    frames.push(
                                        Frame {
                                            task: t,
                                            mode: FrameMode::Verify {
                                                next_dep,
                                                req: Some(ReadReq { verified: true, ..rq }),
                                            },
                                        },
                                    );
                                    frames.push(
                                        Frame {
                                            task: u,
                                            mode: FrameMode::Run { reads: Vec::new(), req: None },
                                        },
                                    );
                                },
                                TaskState::Running => {
                                    self.start_run(t);
                                    frames.push(
                                        Frame {
                                            task: t,
                                            mode: FrameMode::Run { reads: Vec::new(), req: None },
                                        },
                                    );
                                },
                                _ => {
                                    frames.push(
                                        Frame {
                                            task: t,
                                            mode: FrameMode::Verify {
                                                next_dep,
                                                req: Some(ReadReq { verified: true, ..rq }),
                                            },
                                        },
                                    );
                                    frames.push(
                                        Frame {
                                            task: u,
                                            mode: FrameMode::Verify { next_dep: 0, req: None },
                                        },
                                    );
                                },
                            }
                        }
                    }
                },
            },
            FrameMode::Run { .. } => {
                proof {
                    assert(false);
                }
            },
        }
        proof {
            assert forall|i: int| 0 <= i < frames@.len() implies (#[trigger] frames@[i]).task
                < self@.tasks.len() by {
                if i < old(frames)@.len() {
                    assert(old(frames)@[i] == fs0[i]);
                    assert(fs0[i].task < e0.tasks.len());
                }
            }
        }
    }

    /// Bring one task up to date, executing it — and, as needed, the tasks
    /// it reads — until it is settled. A settled task whose recorded
    /// dependencies still hold their observed values is not re-run; one
    /// whose dependencies changed, or that was marked stale, runs again.
    #[verifier::rlimit(100)]
    fn demand<B: TaskBody>(&mut self, bodies: &B, root: usize)
        requires
            wf(old(self)@),
            root < old(self)@.tasks.len(),
        ensures
            wf(final(self)@),
            final(self)@.tasks.len() == old(self)@.tasks.len(),
            final(self)@.registered == old(self)@.registered,
            forall|j: int|
                0 <= j < old(self)@.tasks.len() ==> (#[trigger] final(self)@.tasks[j]).function_id
                    == old(self)@.tasks[j].function_id && final(self)@.tasks[j].args == old(
                    self,
                )@.tasks[j].args,
            settled(final(self)@, root as int),
            settled(old(self)@, root as int) && old(self)@.tasks[root as int].deps.len() == 0
                && old(self)@.tasks[root as int].outcome is Some ==> final(self)@ == old(self)@,
    {
        let fast = {
            let task = &self.tasks[root];
            let st_ok = match task.state {
                TaskState::Done => true,
                TaskState::Failed => true,
                _ => false,
            };
            st_ok && task.deps.len() == 0 && task.outcome.is_some()
        };
        if fast {
            return;
        }
        let ghost e0 = self@;
        let mut frames: Vec<Frame> = Vec::new();
        let start_state = self.tasks[root].state;
        match start_state {
            TaskState::Pending => {
                self.start_run(root);
                frames.push(
                    Frame { task: root, mode: FrameMode::Run { reads: Vec::new(), req: None } },
                );
            },
            _ => {
                frames.push(Frame { task: root, mode: FrameMode::Verify { next_dep: 0, req: None } });
            },
        }
        proof {
            assert(machine_inv(e0, self@, frames@, root));
        }
        let mut budget: u64 = 0x1000_0000_0000_0000;
        while frames.len() > 0 && budget > 0
            invariant
                machine_inv(e0, self@, frames@, root),
            decreases budget,
        {
            budget = budget - 1;
            let ghost fs0 = frames@;
            let fr = frames.pop().unwrap();
            proof {
                assert(frames@.push(fr) =~= fs0);
            }
            let is_run = match &fr.mode {
                FrameMode::Run { .. } => true,
                FrameMode::Verify { .. } => false,
            };
            if is_run {
                self.step_run(bodies, &mut frames, fr, Ghost(e0), Ghost(root));
            } else {
                self.step_verify(&mut frames, fr, Ghost(e0), Ghost(root));
            }
        }
        // The step bound was exceeded with work in flight: settle what is
        // left — a task whose run was cut short caches a failure.
        while frames.len() > 0
            invariant
                machine_inv(e0, self@, frames@, root),
            decreases frames@.len(),
        {
            let fr = frames.pop().unwrap();
            let is_run = match &fr.mode {
                FrameMode::Run { .. } => true,
                FrameMode::Verify { .. } => false,
            };
            if is_run {
                self.force_fail(fr.task, "step budget exhausted");
            } else {
                self.settle_by_outcome(fr.task, "step budget exhausted");
            }
        }
        // Settle any record still marked in flight, so that no execution
        // appears to be running between operations of the engine.
        let n = self.tasks.len();
        let mut sw: usize = 0;
        while sw < n
            invariant
                n == self@.tasks.len(),
                0 <= sw <= n,
                self@.tasks.len() == old(self)@.tasks.len(),
                self@.registered == old(self)@.registered,
                forall|j: int|
                    0 <= j < self@.tasks.len() ==> (#[trigger] self@.tasks[j]).function_id == old(
                        self,
                    )@.tasks[j].function_id && self@.tasks[j].args == old(self)@.tasks[j].args,
                root < self@.tasks.len(),
                settled(self@, root as int),
                forall|j: int|
                    0 <= j < sw ==> (#[trigger] self@.tasks[j]).state != TaskState::Running,
            decreases n - sw,
        {
            let running = match self.tasks[sw].state {
                TaskState::Running => true,
                _ => false,
            };
            if running {
                self.force_fail(sw, "execution left in flight");
            }
            sw = sw + 1;
        }
        proof {
            lemma_wf_preserved(old(self)@, self@);
        }
    }

    /// Resolve a handle: bring its task — and, for an output that aliases
    /// another handle, the alias's task — up to date, and return the located
    /// value, the cached error, or the report that the handle names nothing.
    /// A read made while no task is executing records no dependency edge. A
    /// resolution that does not stabilize within the engine's step bound is
    /// reported as not recognized.
    pub fn read<B: TaskBody>(&mut self, bodies: &B, vc: Vc) -> (r: Result<ErasedValue, EngineError>)
        requires
            wf(old(self)@),
        ensures
            wf(final(self)@),
            final(self)@.tasks.len() == old(self)@.tasks.len(),
            final(self)@.registered == old(self)@.registered,
            forall|j: int|
                0 <= j < old(self)@.tasks.len() ==> (#[trigger] final(self)@.tasks[j]).function_id
                    == old(self)@.tasks[j].function_id && final(self)@.tasks[j].args == old(
                    self,
                )@.tasks[j].args,
            vc_task(vc) >= old(self)@.tasks.len() ==> final(self)@ == old(self)@ && outcome_view(r)
                == Result::<ErasedView, ErrorView>::Err(ErrorView::UnknownVariant),
            outcome_view(r) == spec_read_result(final(self)@, vc) || outcome_view(r)
                == Result::<ErasedView, ErrorView>::Err(ErrorView::UnknownVariant),
            vc_task(vc) < old(self)@.tasks.len() && settled(old(self)@, vc_task(vc) as int) && old(
                self,
            )@.tasks[vc_task(vc) as int].deps.len() == 0 && old(
                self,
            )@.tasks[vc_task(vc) as int].outcome is Some && (spec_resolve_slot(old(self)@, vc)
                matches ResolvedView::Value(_)) ==> final(self)@ == old(self)@ && outcome_view(r)
                == spec_read_result(old(self)@, vc),
    {
        let t = match vc {
            Vc::Output { task } => task,
            Vc::Cell { task, .. } => task,
        };
        if t >= self.tasks.len() {
            return Err(EngineError::UnknownVariant);
        }
        self.demand(bodies, t);
        match self.resolve_slot(vc) {
            Resolved::Value(o) => o,
            Resolved::Alias(h) => {
                let u = match h {
                    Vc::Output { task } => task,
                    Vc::Cell { task, .. } => task,
                };
                if u >= self.tasks.len() {
                    return Err(EngineError::UnknownVariant);
                }
                self.demand(bodies, u);
                // Settling the alias target may have re-run tasks and moved
                // the output; resolve against the final store.
                match self.resolve_slot(vc) {
                    Resolved::Value(o) => o,
                    Resolved::Alias(h2) => {
                        if h2 == h {
                            match self.resolve_slot(h) {
                                Resolved::Value(o) => o,
                                Resolved::Alias(_) => Err(EngineError::UnknownVariant),
                            }
                        } else {
                            Err(EngineError::UnknownVariant)
                        }
                    },
                }
            },
        }
    }

    /// Mark every task named in `readers` (other than `except`) stale:
    /// settled records move to `Pending`; running or already-pending ones,
    /// and identifiers that name no record, are left alone.
    fn mark_pending_all(&mut self, except: usize, readers: &Vec<usize>)
        ensures
            final(self)@.tasks.len() == old(self)@.tasks.len(),
            final(self)@.registered == old(self)@.registered,
            forall|j: int|
                0 <= j < old(self)@.tasks.len() ==> (#[trigger] final(self)@.tasks[j]) == (
                if j != except && names_task(readers@, j) && should_pend(old(self)@.tasks[j]) {
                    pended(old(self)@.tasks[j])
                } else {
                    old(self)@.tasks[j]
                }),
    {
        let m = readers.len();
        let mut k: usize = 0;
        while k < m
            invariant
                m == readers@.len(),
                0 <= k <= m,
                self@.tasks.len() == old(self)@.tasks.len(),
                self@.registered == old(self)@.registered,
                forall|j: int|
                    0 <= j < old(self)@.tasks.len() ==> (#[trigger] self@.tasks[j]) == (
                    if j != except && names_task(readers@.take(k as int), j) && should_pend(
                        old(self)@.tasks[j],
                    ) {
                        pended(old(self)@.tasks[j])
                    } else {
                        old(self)@.tasks[j]
                    }),
            decreases m - k,
        {
            let ghost pre = self@;
            let r = readers[k];
            if r < self.tasks.len() && r != except {
                let needs = match self.tasks[r].state {
                    TaskState::Done => true,
                    TaskState::Failed => true,
                    _ => false,
                };
                if needs {
                    let task = &mut self.tasks[r];
                    task.state = TaskState::Pending;
                    proof {
                        assert forall|j: int| 0 <= j < pre.tasks.len() implies self@.tasks[j] == (
                        if j == r {
                            pended(pre.tasks[j])
                        } else {
                            pre.tasks[j]
                        }) by {
                            if j == r {
                                assert(self@.tasks[j].cells =~= pended(pre.tasks[j]).cells);
                                assert(self@.tasks[j].deps =~= pended(pre.tasks[j]).deps);
                                assert(self@.tasks[j] =~= pended(pre.tasks[j]));
                            } else {
                                assert(self@.tasks[j] =~= pre.tasks[j]);
                            }
                        }
                    }
                }
            }
            proof {
                assert(readers@.take(k as int + 1) =~= readers@.take(k as int).push(
                    readers@[k as int],
                ));
                assert forall|j: int| 0 <= j < old(self)@.tasks.len() implies self@.tasks[j] == (
                if j != except && names_task(readers@.take(k as int + 1), j) && should_pend(
                    old(self)@.tasks[j],
                ) {
                    pended(old(self)@.tasks[j])
                } else {
                    old(self)@.tasks[j]
                }) by {
                    lemma_names_task_push(readers@.take(k as int), readers@[k as int], j);
                }
            }
            k = k + 1;
        }
        proof {
            assert(readers@.take(m as int) =~= readers@);
        }
    }

    /// Overwrite the designated output of a task with an externally supplied
    /// value, as a file-change notifier or another event source does.
    ///
    /// If the new value is structurally equal to the stored outcome, nothing
    /// changes at all: the cell is not treated as changed and no reader is
    /// marked stale. Otherwise the value is stored, the task is settled
    /// `Done`, and every settled reader of its output is marked stale — to
    /// be recomputed on its next demand — with the edges removed.
    pub fn set_output_value(&mut self, id: usize, value: ErasedValue) -> (r: Result<
        (),
        EngineError,
    >)
        requires
            wf(old(self)@),
        ensures
            wf(final(self)@),
            final(self)@.registered == old(self)@.registered,
            final(self)@.tasks.len() == old(self)@.tasks.len(),
            id >= old(self)@.tasks.len() ==> {
                &&& r == Result::<(), EngineError>::Err(EngineError::UnknownVariant)
                &&& final(self)@ == old(self)@
            },
            id < old(self)@.tasks.len() && !out_changed(
                old(self)@.tasks[id as int],
                Result::Ok(value@),
            ) ==> {
                &&& r == Result::<(), EngineError>::Ok(())
                &&& final(self)@ == old(self)@
            },
            id < old(self)@.tasks.len() && out_changed(
                old(self)@.tasks[id as int],
                Result::Ok(value@),
            ) ==> {
                &&& r == Result::<(), EngineError>::Ok(())
                &&& final(self)@.tasks[id as int] == (TaskView {
                    state: TaskState::Done,
                    outcome: Some(Result::Ok(value@)),
                    out_readers: Seq::empty(),
                    ..old(self)@.tasks[id as int]
                })
                &&& forall|j: int|
                    0 <= j < old(self)@.tasks.len() && j != id ==> (#[trigger] final(self)@.tasks[j]) == (
                    if names_task(old(self)@.tasks[id as int].out_readers, j) && should_pend(
                        old(self)@.tasks[j],
                    ) {
                        pended(old(self)@.tasks[j])
                    } else {
                        old(self)@.tasks[j]
                    })
            },
    {
        if id >= self.tasks.len() {
            return Err(EngineError::UnknownVariant);
        }
        let unchanged = match &self.tasks[id].outcome {
            Some(o) => match o {
                Result::Ok(v) => eq_erased(v, &value),
                Result::Err(_) => false,
            },
            None => false,
        };
        if unchanged {
            return Ok(());
        }
        let ghost e0 = self@;
        let mut readers: Vec<usize> = Vec::new();
        {
            let task = &mut self.tasks[id];
            core::mem::swap(&mut task.out_readers, &mut readers);
            task.outcome = Some(Ok(value));
            task.state = TaskState::Done;
        }
        proof {
            assert(readers@ == e0.tasks[id as int].out_readers);
            assert forall|j: int| 0 <= j < e0.tasks.len() implies self@.tasks[j] == (
            if j == id {
                TaskView {
                    state: TaskState::Done,
                    outcome: Some(Result::Ok(value@)),
                    out_readers: Seq::empty(),
                    ..e0.tasks[id as int]
                }
            } else {
                e0.tasks[j]
            }) by {
                if j == id {
                    assert(self@.tasks[j].cells =~= e0.tasks[id as int].cells);
                    assert(self@.tasks[j].deps =~= e0.tasks[id as int].deps);
                    assert(self@.tasks[j].out_readers =~= Seq::<usize>::empty());
                    assert(self@.tasks[j] =~= (TaskView {
                        state: TaskState::Done,
                        outcome: Some(Result::Ok(value@)),
                        out_readers: Seq::empty(),
                        ..e0.tasks[id as int]
                    }));
                } else {
                    assert(self@.tasks[j] =~= e0.tasks[j]);
                }
            }
        }
        self.mark_pending_all(id, &readers);
        proof {
            let e1 = self@;
            assert(self@.tasks[id as int] == (TaskView {
                state: TaskState::Done,
                outcome: Some(Result::Ok(value@)),
                out_readers: Seq::empty(),
                ..e0.tasks[id as int]
            }));
            assert forall|j: int|
                0 <= j < e1.tasks.len() implies (#[trigger] e1.tasks[j]).function_id
                == e0.tasks[j].function_id && e1.tasks[j].args == e0.tasks[j].args
                && e1.tasks[j].state != TaskState::Running by {
                if j != id {
                    assert(e1.tasks[j] == (if names_task(readers@, j) && should_pend(
                        e0.tasks[j],
                    ) {
                        pended(e0.tasks[j])
                    } else {
                        e0.tasks[j]
                    }));
                }
            }
            lemma_wf_preserved(e0, e1);
        }
        Ok(())
    }

    /// Overwrite one intermediate cell of a task with an externally supplied
    /// value. As with the output: an equal value changes nothing; a
    /// different one is stored, its settled readers are marked stale and
    /// their edges removed. An identifier or index that names no slot is
    /// reported.
    pub fn set_cell_value(&mut self, id: usize, index: usize, value: ErasedValue) -> (r: Result<
        (),
        EngineError,
    >)
        requires
            wf(old(self)@),
        ensures
            wf(final(self)@),
            final(self)@.registered == old(self)@.registered,
            final(self)@.tasks.len() == old(self)@.tasks.len(),
            id >= old(self)@.tasks.len() || index >= old(self)@.tasks[id as int].cells.len() ==> {
                &&& r == Result::<(), EngineError>::Err(EngineError::UnknownVariant)
                &&& final(self)@ == old(self)@
            },
            id < old(self)@.tasks.len() && index < old(self)@.tasks[id as int].cells.len()
                && old(self)@.tasks[id as int].cells[index as int].value == value@ ==> {
                &&& r == Result::<(), EngineError>::Ok(())
                &&& final(self)@ == old(self)@
            },
            id < old(self)@.tasks.len() && index < old(self)@.tasks[id as int].cells.len()
                && old(self)@.tasks[id as int].cells[index as int].value != value@ ==> {
                &&& r == Result::<(), EngineError>::Ok(())
                &&& final(self)@.tasks[id as int] == (TaskView {
                    cells: old(self)@.tasks[id as int].cells.update(
                        index as int,
                        CellSlotView { value: value@, readers: Seq::empty() },
                    ),
                    ..old(self)@.tasks[id as int]
                })
                &&& forall|j: int|
                    0 <= j < old(self)@.tasks.len() && j != id ==> (#[trigger] final(self)@.tasks[j]) == (
                    if names_task(old(self)@.tasks[id as int].cells[index as int].readers, j)
                        && should_pend(old(self)@.tasks[j]) {
                        pended(old(self)@.tasks[j])
                    } else {
                        old(self)@.tasks[j]
                    })
            },
    {
        if id >= self.tasks.len() {
            return Err(EngineError::UnknownVariant);
        }
        if index >= self.tasks[id].cells.len() {
            return Err(EngineError::UnknownVariant);
        }
        if eq_erased(&self.tasks[id].cells[index].value, &value) {
            return Ok(());
        }
        let ghost e0 = self@;
        let mut readers: Vec<usize> = Vec::new();
        {
            let task = &mut self.tasks[id];
            let cell = &mut task.cells[index];
            core::mem::swap(&mut cell.readers, &mut readers);
            cell.value = value;
        }
        proof {
            assert(readers@ == e0.tasks[id as int].cells[index as int].readers);
            assert forall|j: int| 0 <= j < e0.tasks.len() implies self@.tasks[j] == (
            if j == id {
                TaskView {
                    cells: e0.tasks[id as int].cells.update(
                        index as int,
                        CellSlotView { value: value@, readers: Seq::empty() },
                    ),
                    ..e0.tasks[id as int]
                }
            } else {
                e0.tasks[j]
            }) by {
                if j == id {
                    assert(self@.tasks[j].cells =~= e0.tasks[id as int].cells.update(
                        index as int,
                        CellSlotView { value: value@, readers: Seq::empty() },
                    ));
                    assert(self@.tasks[j].deps =~= e0.tasks[id as int].deps);
                    assert(self@.tasks[j] =~= (TaskView {
                        cells: e0.tasks[id as int].cells.update(
                            index as int,
                            CellSlotView { value: value@, readers: Seq::empty() },
                        ),
                        ..e0.tasks[id as int]
                    }));
                } else {
                    assert(self@.tasks[j] =~= e0.tasks[j]);
                }
            }
        }
        self.mark_pending_all(id, &readers);
        proof {
            let e1 = self@;
            assert(self@.tasks[id as int] == (TaskView {
                cells: e0.tasks[id as int].cells.update(
                    index as int,
                    CellSlotView { value: value@, readers: Seq::empty() },
                ),
                ..e0.tasks[id as int]
            }));
            assert forall|j: int|
                0 <= j < e1.tasks.len() implies (#[trigger] e1.tasks[j]).function_id
                == e0.tasks[j].function_id && e1.tasks[j].args == e0.tasks[j].args
                && e1.tasks[j].state != TaskState::Running by {
                if j != id {
                    assert(e1.tasks[j] == (if names_task(readers@, j) && should_pend(
                        e0.tasks[j],
                    ) {
                        pended(e0.tasks[j])
                    } else {
                        e0.tasks[j]
                    }));
                }
            }
            lemma_wf_preserved(e0, e1);
        }
        Ok(())
    }

    /// Mark one task stale without recomputing anything: its cached value
    /// stays until its output is demanded again. Usable by external event
    /// sources. An identifier that names no record is reported, and a task
    /// that is not settled is left alone.
    pub fn invalidate_task(&mut self, id: usize) -> (r: Result<(), EngineError>)
        requires
            wf(old(self)@),
        ensures
            wf(final(self)@),
            id >= old(self)@.tasks.len() ==> {
                &&& r == Result::<(), EngineError>::Err(EngineError::UnknownVariant)
                &&& final(self)@ == old(self)@
            },
            id < old(self)@.tasks.len() ==> {
                &&& r == Result::<(), EngineError>::Ok(())
                &&& final(self)@.registered == old(self)@.registered
                &&& final(self)@.tasks == old(self)@.tasks.update(
                    id as int,
                    if should_pend(old(self)@.tasks[id as int]) {
                        pended(old(self)@.tasks[id as int])
                    } else {
                        old(self)@.tasks[id as int]
                    },
                )
            },
    {
        if id >= self.tasks.len() {
            return Err(EngineError::UnknownVariant);
        }
        let needs = match self.tasks[id].state {
            TaskState::Done => true,
            TaskState::Failed => true,
            _ => false,
        };
        if needs {
            let task = &mut self.tasks[id];
            task.state = TaskState::Pending;
            proof {
                assert(self@.tasks[id as int].cells =~= pended(old(self)@.tasks[id as int]).cells);
                assert(self@.tasks[id as int].deps =~= pended(old(self)@.tasks[id as int]).deps);
                assert(self@.tasks[id as int] =~= pended(old(self)@.tasks[id as int]));
                assert(self@.tasks =~= old(self)@.tasks.update(
                    id as int,
                    pended(old(self)@.tasks[id as int]),
                ));
            }
        } else {
            proof {
                assert(self@.tasks =~= old(self)@.tasks.update(
                    id as int,
                    old(self)@.tasks[id as int],
                ));
            }
        }
        Ok(())
    }

    /// Install the results of a completed execution of `t` and mark stale
    /// exactly the readers of the slots whose values changed: an equal
    /// rewrite is not a change and leaves its readers attached.
    fn finish_task(&mut self, t: usize, new_values: Vec<ErasedValue>, outcome: Outcome)
        requires
            t < old(self)@.tasks.len(),
        ensures
            final(self)@ == finish_effect(
                old(self)@,
                t as int,
                views_of(new_values@),
                outcome_view(outcome),
            ),
    {
        let ghost e0 = self@;
        let ghost old_t = e0.tasks[t as int];
        let ghost ncells = views_of(new_values@);
        let ghost out = outcome_view(outcome);
        proof {
            lemma_views_of(new_values@);
        }
        let out_ch = match &self.tasks[t].outcome {
            Some(o) => !eq_outcome(o, &outcome),
            None => true,
        };
        proof {
            assert(out_ch == out_changed(old_t, out));
        }
        let is_ok = match &outcome {
            Result::Ok(_) => true,
            Result::Err(_) => false,
        };
        let mut old_cells: Vec<CellSlot> = Vec::new();
        let mut dropped_out_readers: Vec<usize> = Vec::new();
        {
            let task = &mut self.tasks[t];
            core::mem::swap(&mut task.cells, &mut old_cells);
            task.outcome = Some(outcome);
            task.state = if is_ok {
                TaskState::Done
            } else {
                TaskState::Failed
            };
            if out_ch {
                core::mem::swap(&mut task.out_readers, &mut dropped_out_readers);
            }
        }
        proof {
            assert(old_t.cells.len() == old_cells@.len());
            assert forall|k: int| 0 <= k < old_cells@.len() implies cell_view(#[trigger] old_cells@[k])
                == old_t.cells[k] by {}
            assert forall|j: int| 0 <= j < e0.tasks.len() && j != t implies #[trigger] self@.tasks[j]
                == e0.tasks[j] by {
                assert(self@.tasks[j] =~= e0.tasks[j]);
            }
            assert(self@.tasks[t as int].deps =~= old_t.deps);
            if out_ch {
                assert(dropped_out_readers@ == old_t.out_readers);
                assert(self@.tasks[t as int].out_readers =~= Seq::<usize>::empty());
            }
        }
        let mut to_mark: Vec<usize> = Vec::new();
        if out_ch {
            append_ids(&mut to_mark, &dropped_out_readers);
        }
        proof {
            assert forall|j: int|
                names_task(to_mark@, j) <==> marks_upto(old_t, ncells, out, 0, j) by {
                if marks_upto(old_t, ncells, out, 0, j) && !(out_changed(old_t, out) && names_task(
                    old_t.out_readers,
                    j,
                )) {
                    let c = choose|c: int|
                        0 <= c < 0 && c < old_t.cells.len() && cell_changed(old_t, ncells, c)
                            && names_task((#[trigger] old_t.cells[c]).readers, j);
                    assert(false);
                }
            }
        }
        proof {
            assert forall|j: int|
                names_task(to_mark@, j) <==> (out_changed(old_t, out) && names_task(
                    old_t.out_readers,
                    j,
                )) by {}
        }
        let n_new = new_values.len();
        let n_old = old_cells.len();
        let mut new_slots: Vec<CellSlot> = Vec::new();
        let mut i: usize = 0;
        while i < n_new
            invariant
                n_new == new_values@.len(),
                n_old == old_cells@.len(),
                n_old == old_t.cells.len(),
                0 <= i <= n_new,
                ncells == views_of(new_values@),
                ncells.len() == n_new,
                forall|k: int| 0 <= k < n_new ==> ncells[k] == new_values@[k]@,
                forall|k: int|
                    0 <= k < old_cells@.len() ==> ev_view((#[trigger] old_cells@[k]).value)
                        == old_t.cells[k].value,
                forall|k: int|
                    i <= k < old_cells@.len() ==> (#[trigger] old_cells@[k]).readers@
                        == old_t.cells[k].readers,
                new_slots@.len() == i,
                forall|k: int|
                    0 <= k < i ==> cell_view(#[trigger] new_slots@[k]) == (CellSlotView {
                        value: ncells[k],
                        readers: if k < old_t.cells.len() && !cell_changed(old_t, ncells, k) {
                            old_t.cells[k].readers
                        } else {
                            Seq::empty()
                        },
                    }),
                forall|j: int|
                    names_task(to_mark@, j) <==> marks_upto(old_t, ncells, out, i as int, j),
            decreases n_new - i,
        {
            let ghost premark = to_mark@;
            let changed = i >= old_cells.len() || !eq_erased(&old_cells[i].value, &new_values[i]);
            proof {
                if (i as int) < old_cells@.len() {
                    assert(changed == cell_changed(old_t, ncells, i as int));
                }
            }
            let mut keep: Vec<usize> = Vec::new();
            if !changed {
                proof {
                    assert(old_cells@[i as int].readers@ == old_t.cells[i as int].readers);
                }
                let oc = &mut old_cells[i];
                core::mem::swap(&mut oc.readers, &mut keep);
            } else {
                if i < old_cells.len() {
                    proof {
                        assert(old_cells@[i as int].readers@ == old_t.cells[i as int].readers);
                    }
                    append_ids(&mut to_mark, &old_cells[i].readers);
                }
            }
            new_slots.push(CellSlot { value: clone_erased(&new_values[i]), readers: keep });
            proof {
                assert forall|j: int|
                    names_task(to_mark@, j) <==> marks_upto(old_t, ncells, out, i as int + 1, j) by {
                    lemma_marks_upto_step(old_t, ncells, out, i as int, j);
                    assert(names_task(premark, j) <==> marks_upto(old_t, ncells, out, i as int, j));
                    if changed && i < old_cells.len() {
                        assert(names_task(to_mark@, j) <==> (names_task(premark, j) || names_task(
                            old_t.cells[i as int].readers,
                            j,
                        )));
                    } else {
                        assert(to_mark@ == premark);
                    }
                }
            }
            i = i + 1;
        }
        let mut i2: usize = n_new;
        while i2 < n_old
            invariant
                n_new == new_values@.len(),
                n_old == old_cells@.len(),
                n_old == old_t.cells.len(),
                n_new <= i2 <= n_old || (n_old <= n_new && i2 == n_new),
                ncells == views_of(new_values@),
                ncells.len() == n_new,
                forall|k: int|
                    i2 <= k < old_cells@.len() ==> (#[trigger] old_cells@[k]).readers@
                        == old_t.cells[k].readers,
                forall|j: int|
                    names_task(to_mark@, j) <==> marks_upto(old_t, ncells, out, i2 as int, j),
            decreases n_old - i2,
        {
            let ghost premark = to_mark@;
            proof {
                assert(old_cells@[i2 as int].readers@ == old_t.cells[i2 as int].readers);
            }
            append_ids(&mut to_mark, &old_cells[i2].readers);
            proof {
                assert(cell_changed(old_t, ncells, i2 as int));
                assert forall|j: int|
                    names_task(to_mark@, j) <==> marks_upto(old_t, ncells, out, i2 as int + 1, j) by {
                    lemma_marks_upto_step(old_t, ncells, out, i2 as int, j);
                    assert(names_task(premark, j) <==> marks_upto(old_t, ncells, out, i2 as int, j));
                }
            }
            i2 = i2 + 1;
        }
        proof {
            assert forall|j: int|
                names_task(to_mark@, j) <==> finish_marks(old_t, ncells, out, j) by {
                lemma_marks_upto_full(old_t, ncells, out, i2 as int, j);
            }
        }
        {
            let task = &mut self.tasks[t];
            core::mem::swap(&mut task.cells, &mut new_slots);
        }
        proof {
            let ft = finished_task(old_t, ncells, out);
            assert(self@.tasks[t as int].cells =~= ft.cells);
            assert(self@.tasks[t as int].deps =~= ft.deps);
            assert(self@.tasks[t as int] =~= ft);
            assert forall|j: int| 0 <= j < e0.tasks.len() && j != t implies #[trigger] self@.tasks[j]
                == e0.tasks[j] by {
                assert(self@.tasks[j] =~= e0.tasks[j]);
            }
        }
        self.mark_pending_all(t, &to_mark);
        proof {
            let eff = finish_effect(e0, t as int, ncells, out);
            assert forall|j: int| 0 <= j < e0.tasks.len() implies self@.tasks[j] == eff.tasks[j] by {
                if j != t {
                    assert(names_task(to_mark@, j) <==> finish_marks(old_t, ncells, out, j));
                }
            }
            assert(self@.tasks =~= eff.tasks);
            assert(self@ =~= eff);
        }
    }

    /// Record only a state change on one task.
    fn set_state(&mut self, t: usize, st: TaskState)
        requires
            t < old(self)@.tasks.len(),
        ensures
            final(self)@.tasks.len() == old(self)@.tasks.len(),
            final(self)@.registered == old(self)@.registered,
            forall|j: int|
                0 <= j < old(self)@.tasks.len() && j != t ==> #[trigger] final(self)@.tasks[j]
                    == old(self)@.tasks[j],
            final(self)@.tasks[t as int] == (TaskView {
                state: st,
                ..old(self)@.tasks[t as int]
            }),
    {
        let ghost e0 = self@;
        let task = &mut self.tasks[t];
        task.state = st;
        proof {
            assert forall|j: int| 0 <= j < e0.tasks.len() implies self@.tasks[j] == (
            if j == t {
                TaskView { state: st, ..e0.tasks[t as int] }
            } else {
                e0.tasks[j]
            }) by {
                if j == t {
                    assert(self@.tasks[j].cells =~= e0.tasks[j].cells);
                    assert(self@.tasks[j].deps =~= e0.tasks[j].deps);
                    assert(self@.tasks[j] =~= (TaskView { state: st, ..e0.tasks[t as int] }));
                } else {
                    assert(self@.tasks[j] =~= e0.tasks[j]);
                }
            }
        }
    }

    /// Cache a failure on a task whose execution could not be completed, and
    /// settle it.
    fn force_fail(&mut self, t: usize, msg: &str)
        requires
            t < old(self)@.tasks.len(),
        ensures
            final(self)@.tasks.len() == old(self)@.tasks.len(),
            final(self)@.registered == old(self)@.registered,
            forall|j: int|
                0 <= j < old(self)@.tasks.len() && j != t ==> #[trigger] final(self)@.tasks[j]
                    == old(self)@.tasks[j],
            final(self)@.tasks[t as int].state == TaskState::Failed,
            final(self)@.tasks[t as int].function_id == old(self)@.tasks[t as int].function_id,
            final(self)@.tasks[t as int].args == old(self)@.tasks[t as int].args,
    {
        let ghost e0 = self@;
        let task = &mut self.tasks[t];
        task.state = TaskState::Failed;
        task.outcome = Some(Err(EngineError::TaskExecutionError(msg.to_owned())));
        proof {
            assert forall|j: int| 0 <= j < e0.tasks.len() && j != t implies #[trigger] self@.tasks[j]
                == e0.tasks[j] by {
                assert(self@.tasks[j] =~= e0.tasks[j]);
            }
        }
    }

    /// Settle a task by what its record holds: a stored value makes it
    /// `Done`, a stored error `Failed`, and a record with no outcome at all
    /// caches a failure.
    fn settle_by_outcome(&mut self, t: usize, msg: &str)
        requires
            t < old(self)@.tasks.len(),
        ensures
            final(self)@.tasks.len() == old(self)@.tasks.len(),
            final(self)@.registered == old(self)@.registered,
            forall|j: int|
                0 <= j < old(self)@.tasks.len() && j != t ==> #[trigger] final(self)@.tasks[j]
                    == old(self)@.tasks[j],
            settled(final(self)@, t as int),
            final(self)@.tasks[t as int].function_id == old(self)@.tasks[t as int].function_id,
            final(self)@.tasks[t as int].args == old(self)@.tasks[t as int].args,
    {
        let kind: u8 = match &self.tasks[t].outcome {
            Some(Result::Ok(_)) => 0,
            Some(Result::Err(_)) => 1,
            None => 2,
        };
        if kind == 0 {
            self.set_state(t, TaskState::Done);
        } else if kind == 1 {
            self.set_state(t, TaskState::Failed);
        } else {
            self.force_fail(t, msg);
        }
    }

    /// Look one slot up, with no recomputation.
    fn resolve_slot(&self, vc: Vc) -> (r: Resolved)
        ensures
            resolved_view(r) == spec_resolve_slot(self@, vc),
    {
        let t = match vc {
            Vc::Output { task } => task,
            Vc::Cell { task, .. } => task,
        };
        if t >= self.tasks.len() {
            return Resolved::Value(Err(EngineError::UnknownVariant));
        }
        match &self.tasks[t].outcome {
            Some(Result::Err(er)) => Resolved::Value(Err(er.clone())),
            Some(Result::Ok(v)) => match vc {
                Vc::Output { .. } => match v {
                    ErasedValue::Output { task } => Resolved::Alias(Vc::Output { task: *task }),
                    ErasedValue::Cell { task, index } => Resolved::Alias(
                        Vc::Cell { task: *task, index: *index },
                    ),
                    _ => Resolved::Value(Ok(clone_erased(v))),
                },
                Vc::Cell { index, .. } => {
                    if index < self.tasks[t].cells.len() {
                        Resolved::Value(Ok(clone_erased(&self.tasks[t].cells[index].value)))
                    } else {
                        Resolved::Value(Err(EngineError::UnknownVariant))
                    }
                },
            },
            None => Resolved::Value(Err(EngineError::UnknownVariant)),
        }
    }

    /// Record that `reader` read the slot `vc` names, so that a later change
    /// of that slot marks `reader` stale. Nothing but reader edges changes.
    fn record_edge(&mut self, vc: Vc, reader: usize)
        ensures
            final(self)@.tasks.len() == old(self)@.tasks.len(),
            final(self)@.registered == old(self)@.registered,
            forall|j: int|
                0 <= j < old(self)@.tasks.len() ==> eq_mod_readers(
                    #[trigger] final(self)@.tasks[j],
                    old(self)@.tasks[j],
                ),
    {
        let ghost e0 = self@;
        let t = match vc {
            Vc::Output { task } => task,
            Vc::Cell { task, .. } => task,
        };
        if t >= self.tasks.len() {
            return;
        }
        match vc {
            Vc::Output { .. } => {
                if !has_usize(&self.tasks[t].out_readers, reader) {
                    let task = &mut self.tasks[t];
                    task.out_readers.push(reader);
                }
            },
            Vc::Cell { index, .. } => {
                if index < self.tasks[t].cells.len() {
                    if !has_usize(&self.tasks[t].cells[index].readers, reader) {
                        let task = &mut self.tasks[t];
                        let cell = &mut task.cells[index];
                        cell.readers.push(reader);
                    }
                }
            },
        }
        proof {
            assert forall|j: int| 0 <= j < e0.tasks.len() implies eq_mod_readers(
                #[trigger] self@.tasks[j],
                e0.tasks[j],
            ) by {
                if j != t {
                    assert(self@.tasks[j] =~= e0.tasks[j]);
                }
            }
        }
    }

    /// Record which outcome the running task `reader` observed for the
    /// handle it asked to read: one dependency edge, for later verification.
    fn record_dep(&mut self, reader: usize, vc: Vc, seen: Outcome)
        requires
            reader < old(self)@.tasks.len(),
        ensures
            final(self)@.tasks.len() == old(self)@.tasks.len(),
            final(self)@.registered == old(self)@.registered,
            forall|j: int|
                0 <= j < old(self)@.tasks.len() && j != reader ==> #[trigger] final(self)@.tasks[j]
                    == old(self)@.tasks[j],
            final(self)@.tasks[reader as int] == (TaskView {
                deps: old(self)@.tasks[reader as int].deps.push(
                    DepView { vc, seen: outcome_view(seen) },
                ),
                ..old(self)@.tasks[reader as int]
            }),
    {
        let ghost e0 = self@;
        let ghost sv = outcome_view(seen);
        let task = &mut self.tasks[reader];
        task.deps.push(Dep { vc, seen });
        proof {
            assert forall|j: int| 0 <= j < e0.tasks.len() implies self@.tasks[j] == (
            if j == reader {
                TaskView { deps: e0.tasks[reader as int].deps.push(DepView { vc, seen: sv }), ..e0.tasks[reader as int] }
            } else {
                e0.tasks[j]
            }) by {
                if j == reader {
                    assert(self@.tasks[j].cells =~= e0.tasks[j].cells);
                    assert(self@.tasks[j].deps =~= e0.tasks[reader as int].deps.push(
                        DepView { vc, seen: sv },
                    ));
                    assert(self@.tasks[j] =~= (TaskView {
                        deps: e0.tasks[reader as int].deps.push(DepView { vc, seen: sv }),
                        ..e0.tasks[reader as int]
                    }));
                } else {
                    assert(self@.tasks[j] =~= e0.tasks[j]);
                }
            }
        }
    }

    /// Begin an execution of `t`: mark it running, count the execution, and
    /// drop its previously recorded dependencies together with the reader
    /// edges they put on other tasks' slots. Its cells and outcome stay for
    /// the equality comparison when the run finishes.
    fn start_run(&mut self, t: usize)
        requires
            t < old(self)@.tasks.len(),
        ensures
            final(self)@.tasks.len() == old(self)@.tasks.len(),
            final(self)@.registered == old(self)@.registered,
            forall|j: int|
                0 <= j < old(self)@.tasks.len() && j != t ==> eq_mod_readers(
                    #[trigger] final(self)@.tasks[j],
                    old(self)@.tasks[j],
                ),
            final(self)@.tasks[t as int].function_id == old(self)@.tasks[t as int].function_id,
            final(self)@.tasks[t as int].args == old(self)@.tasks[t as int].args,
            final(self)@.tasks[t as int].state == TaskState::Running,
            final(self)@.tasks[t as int].deps == Seq::<DepView>::empty(),
            final(self)@.tasks[t as int].outcome == old(self)@.tasks[t as int].outcome,
            final(self)@.tasks[t as int].exec_count == (
            if old(self)@.tasks[t as int].exec_count < u64::MAX {
                (old(self)@.tasks[t as int].exec_count + 1) as u64
            } else {
                old(self)@.tasks[t as int].exec_count
            }),
            forall|i: int|
                0 <= i < old(self)@.tasks[t as int].cells.len() ==> (
                #[trigger] final(self)@.tasks[t as int].cells[i]).value == old(
                    self,
                )@.tasks[t as int].cells[i].value,
            final(self)@.tasks[t as int].cells.len() == old(self)@.tasks[t as int].cells.len(),
    {
        let ghost e0 = self@;
        let mut old_deps: Vec<Dep> = Vec::new();
        {
            let task = &mut self.tasks[t];
            core::mem::swap(&mut task.deps, &mut old_deps);
            task.state = TaskState::Running;
            if task.exec_count < u64::MAX {
                task.exec_count = task.exec_count + 1;
            }
        }
        proof {
            assert forall|j: int| 0 <= j < e0.tasks.len() implies eq_mod_readers(
                #[trigger] self@.tasks[j],
                e0.tasks[j],
            ) || j == t by {
                if j != t {
                    assert(self@.tasks[j] =~= e0.tasks[j]);
                }
            }
            assert(self@.tasks[t as int].deps =~= Seq::<DepView>::empty());
            assert(self@.tasks[t as int].cells =~= e0.tasks[t as int].cells);
        }
        let ghost e1 = self@;
        let n_deps = old_deps.len();
        let mut k: usize = 0;
        while k < n_deps
            invariant
                n_deps == old_deps@.len(),
                0 <= k <= n_deps,
                self@.tasks.len() == e1.tasks.len(),
                self@.registered == e1.registered,
                forall|j: int|
                    0 <= j < e1.tasks.len() ==> eq_mod_readers(
                        #[trigger] self@.tasks[j],
                        e1.tasks[j],
                    ),
            decreases n_deps - k,
        {
            let ghost pre = self@;
            let dvc = old_deps[k].vc;
            let u = match dvc {
                Vc::Output { task } => task,
                Vc::Cell { task, .. } => task,
            };
            if u < self.tasks.len() {
                match dvc {
                    Vc::Output { .. } => {
                        let task = &mut self.tasks[u];
                        remove_usize(&mut task.out_readers, t);
                    },
                    Vc::Cell { index, .. } => {
                        if index < self.tasks[u].cells.len() {
                            let task = &mut self.tasks[u];
                            let cell = &mut task.cells[index];
                            remove_usize(&mut cell.readers, t);
                        }
                    },
                }
                proof {
                    assert forall|j: int| 0 <= j < pre.tasks.len() implies eq_mod_readers(
                        #[trigger] self@.tasks[j],
                        pre.tasks[j],
                    ) by {
                        if j != u {
                            assert(self@.tasks[j] =~= pre.tasks[j]);
                        }
                    }
                }
            }
            k = k + 1;
        }
    }
}

/// A read in flight: the handle the reader asked for, the handle currently
/// being resolved (after following an output alias they differ), whether the
/// one allowed indirection has been taken, and whether the current target
/// has been brought up to date.
#[derive(Clone, Copy)]
struct ReadReq {
    orig: Vc,
    cur: Vc,
    hopped: bool,
    verified: bool,
}

/// What one suspended activation is doing: re-checking its recorded
/// dependencies one by one, or running its body with the read outcomes
/// gathered so far.
enum FrameMode {
    Verify { next_dep: usize, req: Option<ReadReq> },
    Run { reads: Vec<Outcome>, req: Option<ReadReq> },
}

/// One activation on the scheduler's stack.
struct Frame {
    task: usize,
    mode: FrameMode,
}

spec fn frame_is_run(f: Frame) -> bool {
    f.mode matches FrameMode::Run { .. }
}

/// The scheduler's invariant while activations are stacked: the arena keeps
/// its size and identities, the stack serves one root demand, and stacked
/// activations name real records.
spec fn machine_inv(e0: EngineView, e: EngineView, frames: Seq<Frame>, root: usize) -> bool {
    &&& e.tasks.len() == e0.tasks.len()
    &&& e.registered == e0.registered
    &&& forall|j: int|
        0 <= j < e.tasks.len() ==> (#[trigger] e.tasks[j]).function_id == e0.tasks[j].function_id
            && e.tasks[j].args == e0.tasks[j].args
    &&& frames.len() > 0 ==> frames[0].task == root
    &&& frames.len() == 0 ==> settled(e, root as int)
    &&& forall|i: int| 0 <= i < frames.len() ==> (#[trigger] frames[i]).task < e.tasks.len()
}

fn in_frames(frames: &Vec<Frame>, u: usize) -> (r: bool)
    ensures
        r == exists|i: int| 0 <= i < frames@.len() && (#[trigger] frames@[i]).task == u,
{
    let n = frames.len();
    let mut i: usize = 0;
    while i < n
        invariant
            n == frames@.len(),
            0 <= i <= n,
            forall|k: int| 0 <= k < i ==> (#[trigger] frames@[k]).task != u,
        decreases n - i,
    {
        if frames[i].task == u {
            proof {
                assert(frames@[i as int].task == u);
            }
            return true;
        }
        i = i + 1;
    }
    false
}

/// Collect reader identifiers: afterwards `dst` names a task exactly when
/// it did before or `src` does.
fn append_ids(dst: &mut Vec<usize>, src: &Vec<usize>)
    ensures
        forall|j: int|
            #![trigger names_task(final(dst)@, j)]
            names_task(final(dst)@, j) <==> (names_task(old(dst)@, j) || names_task(src@, j)),
{
    let n = src.len();
    let mut i: usize = 0;
    while i < n
        invariant
            n == src@.len(),
            0 <= i <= n,
            forall|j: int|
                #![trigger names_task(dst@, j)]
                names_task(dst@, j) <==> (names_task(old(dst)@, j) || names_task(
                    src@.take(i as int),
                    j,
                )),
        decreases n - i,
    {
        let ghost pre = dst@;
        dst.push(src[i]);
        proof {
            assert(src@.take(i as int + 1) =~= src@.take(i as int).push(src@[i as int]));
            assert(dst@ =~= pre.push(src@[i as int]));
            assert forall|j: int|
                #![trigger names_task(dst@, j)]
                names_task(dst@, j) <==> (names_task(old(dst)@, j) || names_task(
                    src@.take(i as int + 1),
                    j,
                )) by {
                lemma_names_task_push(pre, src@[i as int], j);
                lemma_names_task_push(src@.take(i as int), src@[i as int], j);
            }
        }
        i = i + 1;
    }
    proof {
        assert(src@.take(n as int) =~= src@);
    }
}

fn has_usize(v: &Vec<usize>, x: usize) -> (r: bool)
    ensures
        r == v@.contains(x),
{
    let n = v.len();
    let mut i: usize = 0;
    while i < n
        invariant
            n == v@.len(),
            0 <= i <= n,
            forall|j: int| 0 <= j < i ==> v@[j] != x,
        decreases n - i,
    {
        if v[i] == x {
            return true;
        }
        i = i + 1;
    }
    false
}

/// Remove every occurrence of `x` from a reader list.
fn remove_usize(v: &mut Vec<usize>, x: usize)
    ensures
        forall|k: int| 0 <= k < final(v)@.len() ==> final(v)@[k] != x,
{
    let n = v.len();
    let mut kept: Vec<usize> = Vec::new();
    let mut i: usize = 0;
    while i < n
        invariant
            n == v@.len(),
            0 <= i <= n,
            forall|k: int| 0 <= k < kept@.len() ==> kept@[k] != x,
        decreases n - i,
    {
        let y = v[i];
        if y != x {
            kept.push(y);
        }
        i = i + 1;
    }
    core::mem::swap(v, &mut kept);
}

} // verus!
