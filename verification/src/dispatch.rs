//! The dispatcher of a collect: many independent transfers, one batch result.
//!
//! Every instruction of a batch becomes one task. All tasks are launched
//! before any is waited for, and they are waited for in the order of the
//! instructions, whatever the order in which they end. A transfer that fails
//! stops nothing: the others run to their end, and what they moved stays
//! moved. Only then is the batch judged, and it has succeeded only if every
//! transfer has.
//!
//! The dispatcher itself launches nothing and waits for nothing. It says what
//! is to be done next, and is told what came of it.

use vstd::prelude::*;
use crate::address::{all_zero, Address};
use crate::amount::Amount;
use crate::hexadecimal::{encode_hex, hex_text};

verus! {

/// One transfer of a collect: who signs, which token, where to, how much.
#[derive(Clone, Debug, PartialEq, Eq)]
pub struct TransferInstruction {
    pub private_key: String,
    pub token: Address,
    pub destination: Address,
    pub amount: Amount,
}

/// What a transfer instruction is, as plain values.
pub struct InstructionView {
    pub private_key: Seq<char>,
    pub token: Seq<u8>,
    pub destination: Seq<u8>,
    pub amount: nat,
}

impl View for TransferInstruction {
    type V = InstructionView;

    open spec fn view(&self) -> InstructionView {
        InstructionView {
            private_key: self.private_key@,
            token: self.token@,
            destination: self.destination@,
            amount: self.amount@,
        }
    }
}

/// The views of a run of instructions, in order.
pub open spec fn instruction_views(instructions: Seq<TransferInstruction>) -> Seq<
    InstructionView,
> {
    instructions.map_values(|i: TransferInstruction| i@)
}

/// The two shapes that a transfer can take on the ledger.
#[derive(Clone, Copy, Debug, PartialEq, Eq)]
pub enum TransferShape {
    /// A plain transfer of the ledger's native coin.
    Native { to: Address, value: Amount },
    /// A call of a token contract that moves the token.
    Token { contract: Address, to: Address, amount: Amount },
}

/// Why a transfer failed.
#[derive(Clone, Copy, Debug, PartialEq, Eq)]
pub enum FailureReason {
    /// No signing identity could be derived from the key.
    InvalidKey,
    /// The network did not accept the transfer.
    Rejected,
    /// The network did not answer in time.
    TimedOut,
}

/// What came of waiting for one task.
#[derive(Clone, Debug, PartialEq, Eq)]
pub enum TaskReport {
    /// The transfer was included in the ledger under this transaction hash.
    Included { tx_hash: Vec<u8> },
    /// The transfer failed.
    Failed { reason: FailureReason },
    /// The task itself was lost: it ended without a report.
    Lost,
}

/// How one transfer ended.
#[derive(Clone, Debug, PartialEq, Eq)]
pub enum TransferOutcome {
    /// The transfer is in the ledger under this identifier.
    Submitted { tx_id: String },
    /// The transfer failed.
    Failed { reason: FailureReason },
}

/// How a transfer ended, as plain values.
pub enum OutcomeView {
    Submitted { tx_id: Seq<char> },
    Failed { reason: FailureReason },
}

impl View for TransferOutcome {
    type V = OutcomeView;

    open spec fn view(&self) -> OutcomeView {
        match *self {
            TransferOutcome::Submitted { tx_id } => OutcomeView::Submitted { tx_id: tx_id@ },
            TransferOutcome::Failed { reason } => OutcomeView::Failed { reason },
        }
    }
}

/// The views of a run of outcomes, in order.
pub open spec fn outcome_views(outcomes: Seq<TransferOutcome>) -> Seq<OutcomeView> {
    outcomes.map_values(|o: TransferOutcome| o@)
}

/// The verdict on a batch.
#[derive(Clone, Copy, Debug, PartialEq, Eq)]
pub enum BatchStatus {
    /// Every transfer was submitted.
    AllSucceeded,
    /// At least one transfer failed. The others may well be in the ledger.
    BatchFailed,
}

/// The outcomes of a batch, one for each instruction and in the same order,
/// with the verdict on the batch as a whole.
#[derive(Clone, Debug, PartialEq, Eq)]
pub struct BatchResult {
    pub outcomes: Vec<TransferOutcome>,
    pub status: BatchStatus,
}

/// Why a batch has no result.
#[derive(Clone, Copy, Debug, PartialEq, Eq)]
pub enum DispatchError {
    /// A task was lost, so the outcome of its transfer is not known.
    InternalError,
}

/// Whether every outcome of the run is a submission.
pub open spec fn all_submitted(outcomes: Seq<OutcomeView>) -> bool {
    forall|i: int| 0 <= i < outcomes.len() ==> #[trigger] outcomes[i] is Submitted
}

/// The verdict on a run of outcomes.
pub open spec fn status_of(outcomes: Seq<OutcomeView>) -> BatchStatus {
    if all_submitted(outcomes) {
        BatchStatus::AllSucceeded
    } else {
        BatchStatus::BatchFailed
    }
}

/// The shape of the transfer that an instruction asks for: a plain transfer
/// where the token is the reserved zero address, a contract call elsewhere.
pub open spec fn shape_of(instruction: TransferInstruction) -> TransferShape {
    if all_zero(instruction.token@) {
        TransferShape::Native { to: instruction.destination, value: instruction.amount }
    } else {
        TransferShape::Token {
            contract: instruction.token,
            to: instruction.destination,
            amount: instruction.amount,
        }
    }
}

/// The outcome that a report stands for. A lost task has none.
pub open spec fn outcome_of_report(report: TaskReport) -> Option<OutcomeView> {
    match report {
        TaskReport::Included { tx_hash } => Some(OutcomeView::Submitted { tx_id: hex_text(tx_hash@) }),
        TaskReport::Failed { reason } => Some(OutcomeView::Failed { reason }),
        TaskReport::Lost => None,
    }
}

impl TransferInstruction {
    /// The shape of the transfer that this instruction asks for.
    pub fn shape(&self) -> (shape: TransferShape)
        ensures
            shape == shape_of(*self),
            shape is Native <==> all_zero(self.token@),
    {
        if self.token.is_zero() {
            TransferShape::Native { to: self.destination, value: self.amount }
        } else {
            TransferShape::Token {
                contract: self.token,
                to: self.destination,
                amount: self.amount,
            }
        }
    }
}

impl TaskReport {
    /// The outcome that this report stands for. The identifier of a
    /// transfer is its transaction hash in lower-case hexadecimal digits.
    pub fn outcome(&self) -> (outcome: Option<TransferOutcome>)
        ensures
            outcome is Some <==> !(*self is Lost),
            outcome matches Some(o) ==> outcome_of_report(*self) == Some(o@),
            outcome is None ==> outcome_of_report(*self) is None,
    {
        match self {
            TaskReport::Included { tx_hash } => Some(
                TransferOutcome::Submitted { tx_id: encode_hex(tx_hash.as_slice()) },
            ),
            TaskReport::Failed { reason } => Some(TransferOutcome::Failed { reason: *reason }),
            TaskReport::Lost => None,
        }
    }
}

/// Whether a run of outcomes is all submissions can be told outcome by
/// outcome.
proof fn lemma_all_submitted_step(outcomes: Seq<OutcomeView>, k: int)
    requires
        0 <= k < outcomes.len(),
    ensures
        all_submitted(outcomes.take(k + 1)) <==> all_submitted(outcomes.take(k))
            && outcomes[k] is Submitted,
{
    let shorter = outcomes.take(k);
    let longer = outcomes.take(k + 1);
    if all_submitted(longer) {
        assert forall|j: int| 0 <= j < shorter.len() implies #[trigger] shorter[j] is Submitted by {
            assert(longer[j] is Submitted);
        }
        assert(longer[k] is Submitted);
    }
    if all_submitted(shorter) && outcomes[k] is Submitted {
        assert forall|j: int| 0 <= j < longer.len() implies #[trigger] longer[j] is Submitted by {
            if j < k {
                assert(shorter[j] is Submitted);
            }
        }
    }
}

/// Judges a batch by its outcomes: it has succeeded if every transfer was
/// submitted, and failed if any one was not. The outcomes come back as they
/// went in, those of the transfers that did succeed among them.
pub fn aggregate(outcomes: Vec<TransferOutcome>) -> (result: BatchResult)
    ensures
        result.outcomes == outcomes,
        result.status == status_of(outcome_views(outcomes@)),
{
    let ghost views = outcome_views(outcomes@);
    let mut status = BatchStatus::AllSucceeded;
    let mut i: usize = 0;
    while i < outcomes.len()
        invariant
            i <= outcomes.len(),
            views == outcome_views(outcomes@),
            status == status_of(views.take(i as int)),
        decreases outcomes.len() - i,
    {
        proof {
            lemma_all_submitted_step(views, i as int);
        }
        match &outcomes[i] {
            TransferOutcome::Submitted { .. } => {},
            TransferOutcome::Failed { .. } => {
                status = BatchStatus::BatchFailed;
            },
        }
        i += 1;
    }
    assert(views.take(outcomes.len() as int) =~= views);
    BatchResult { outcomes, status }
}

impl BatchResult {
    /// The identifiers of the transfers, in the order of the instructions,
    /// where every transfer was submitted; nothing where one failed.
    pub fn transaction_ids(&self) -> (ids: Option<Vec<String>>)
        ensures
            ids is Some <==> all_submitted(outcome_views(self.outcomes@)),
            ids matches Some(texts) ==> texts@.len() == self.outcomes@.len() && forall|i: int|
                0 <= i < texts@.len() ==> self.outcomes@[i]@ == (OutcomeView::Submitted {
                    tx_id: (#[trigger] texts@[i])@,
                }),
    {
        let ghost views = outcome_views(self.outcomes@);
        let mut texts: Vec<String> = Vec::new();
        let mut i: usize = 0;
        while i < self.outcomes.len()
            invariant
                i <= self.outcomes.len(),
                views == outcome_views(self.outcomes@),
                texts@.len() == i,
                forall|j: int|
                    0 <= j < i ==> self.outcomes@[j]@ == (OutcomeView::Submitted {
                        tx_id: (#[trigger] texts@[j])@,
                    }),
            decreases self.outcomes.len() - i,
        {
            match &self.outcomes[i] {
                TransferOutcome::Submitted { tx_id } => {
                    texts.push(tx_id.clone());
                },
                TransferOutcome::Failed { .. } => {
                    assert(!(views[i as int] is Submitted));
                    return None;
                },
            }
            i += 1;
        }
        assert forall|j: int| 0 <= j < views.len() implies #[trigger] views[j] is Submitted by {
            assert(self.outcomes@[j]@ == (OutcomeView::Submitted { tx_id: texts@[j]@ }));
        }
        Some(texts)
    }
}

/// What the dispatcher waits for.
pub enum Awaited {
    /// The task of the instruction at `index` is to be launched.
    Launch { index: nat },
    /// The task of the instruction at `index` is to be waited for.
    Join { index: nat },
    /// Nothing more: the batch can be judged.
    Nothing,
}

/// The state of a dispatch, as plain values: the instructions, how many
/// tasks have been launched, the outcomes of the tasks waited for so far, and
/// whether a task was lost.
pub struct DispatchState {
    pub instructions: Seq<TransferInstruction>,
    pub launched: nat,
    pub outcomes: Seq<OutcomeView>,
    pub lost: bool,
}

/// What the caller tells the dispatcher.
#[derive(Clone, Debug, PartialEq, Eq)]
pub enum DispatchEvent {
    /// The task asked for has been launched.
    Launched,
    /// The task asked for has been waited for, with this report.
    Joined { report: TaskReport },
}

/// What the dispatcher asks of the caller.
#[derive(Clone, Debug, PartialEq, Eq)]
pub enum DispatchAction {
    /// Launch a task that derives the signing identity from `private_key` and
    /// submits a transfer of `shape`. It is the task of instruction `index`.
    Launch { index: usize, private_key: String, shape: TransferShape },
    /// Wait for the task of instruction `index` and report how it ended.
    Join { index: usize },
    /// Nothing more is to be done: ask for the result.
    Finish,
}

impl DispatchState {
    /// The state before anything has happened.
    pub open spec fn start(instructions: Seq<TransferInstruction>) -> DispatchState {
        DispatchState { instructions, launched: 0, outcomes: Seq::empty(), lost: false }
    }

    /// Whether this is a state that a dispatch can be in: no task is waited
    /// for before all are launched, and none is counted twice.
    pub open spec fn well_formed(self) -> bool {
        &&& self.launched <= self.instructions.len()
        &&& self.outcomes.len() <= self.instructions.len()
        &&& (self.outcomes.len() > 0 || self.lost) ==> self.launched == self.instructions.len()
    }

    /// What the dispatcher waits for in this state. Every task is launched
    /// before the first is waited for; tasks are waited for in the order of
    /// their instructions; a lost task ends the waiting.
    pub open spec fn awaited(self) -> Awaited {
        if self.launched < self.instructions.len() {
            Awaited::Launch { index: self.launched }
        } else if !self.lost && self.outcomes.len() < self.instructions.len() {
            Awaited::Join { index: self.outcomes.len() }
        } else {
            Awaited::Nothing
        }
    }

    /// The state after an event. An event that is not waited for changes
    /// nothing. The report of a failed transfer is recorded like any other:
    /// it ends nothing.
    pub open spec fn after(self, event: DispatchEvent) -> DispatchState {
        match (self.awaited(), event) {
            (Awaited::Launch { .. }, DispatchEvent::Launched) => DispatchState {
                launched: self.launched + 1,
                ..self
            },
            (Awaited::Join { .. }, DispatchEvent::Joined { report }) => match outcome_of_report(
                report,
            ) {
                Some(outcome) => DispatchState { outcomes: self.outcomes.push(outcome), ..self },
                None => DispatchState { lost: true, ..self },
            },
            _ => self,
        }
    }

    /// The state after a run of events, taken in order.
    pub open spec fn after_all(self, events: Seq<DispatchEvent>) -> DispatchState
        decreases events.len(),
    {
        if events.len() == 0 {
            self
        } else {
            self.after_all(events.drop_last()).after(events.last())
        }
    }

    /// The result of the dispatch in this state: none while something is
    /// waited for, an error once a task was lost, and else the outcomes with
    /// the verdict on them.
    pub open spec fn result(self) -> Option<Result<(Seq<OutcomeView>, BatchStatus), DispatchError>> {
        if !(self.awaited() is Nothing) {
            None
        } else if self.lost {
            Some(Err(DispatchError::InternalError))
        } else {
            Some(Ok((self.outcomes, status_of(self.outcomes))))
        }
    }
}

/// The dispatcher of one batch.
pub struct Dispatcher {
    instructions: Vec<TransferInstruction>,
    launched: usize,
    outcomes: Vec<TransferOutcome>,
    lost: bool,
}

impl View for Dispatcher {
    type V = DispatchState;

    closed spec fn view(&self) -> DispatchState {
        DispatchState {
            instructions: self.instructions@,
            launched: self.launched as nat,
            outcomes: outcome_views(self.outcomes@),
            lost: self.lost,
        }
    }
}

impl Dispatcher {
    #[verifier::type_invariant]
    spec fn sound(&self) -> bool {
        self@.well_formed()
    }

    /// A dispatcher for `instructions`, with nothing launched yet.
    pub fn new(instructions: Vec<TransferInstruction>) -> (dispatcher: Dispatcher)
        ensures
            dispatcher@ == DispatchState::start(instructions@),
    {
        let dispatcher = Dispatcher {
            instructions,
            launched: 0,
            outcomes: Vec::new(),
            lost: false,
        };
        assert(outcome_views(dispatcher.outcomes@) =~= Seq::<OutcomeView>::empty());
        dispatcher
    }

    /// What is to be done next.
    pub fn next_action(&self) -> (action: DispatchAction)
        ensures
            self@.well_formed(),
            match action {
                DispatchAction::Launch { index, private_key, shape } => {
                    &&& self@.awaited() == Awaited::Launch { index: index as nat }
                    &&& private_key@ == self@.instructions[index as int].private_key@
                    &&& shape == shape_of(self@.instructions[index as int])
                },
                DispatchAction::Join { index } => self@.awaited() == Awaited::Join {
                    index: index as nat,
                },
                DispatchAction::Finish => self@.awaited() is Nothing,
            },
    {
        proof {
            use_type_invariant(self);
        }
        if self.launched < self.instructions.len() {
            let instruction = &self.instructions[self.launched];
            DispatchAction::Launch {
                index: self.launched,
                private_key: instruction.private_key.clone(),
                shape: instruction.shape(),
            }
        } else if !self.lost && self.outcomes.len() < self.instructions.len() {
            DispatchAction::Join { index: self.outcomes.len() }
        } else {
            DispatchAction::Finish
        }
    }

    /// The dispatcher after an event. An event that was not asked for
    /// changes nothing.
    pub fn record(self, event: DispatchEvent) -> (next: Dispatcher)
        ensures
            next@ == self@.after(event),
    {
        proof {
            use_type_invariant(&self);
        }
        let Dispatcher { instructions, launched, outcomes, lost } = self;
        let mut outcomes = outcomes;
        match event {
            DispatchEvent::Launched => {
                if launched < instructions.len() {
                    Dispatcher { instructions, launched: launched + 1, outcomes, lost }
                } else {
                    Dispatcher { instructions, launched, outcomes, lost }
                }
            },
            DispatchEvent::Joined { report } => {
                if launched == instructions.len() && !lost && outcomes.len() < instructions.len() {
                    match report.outcome() {
                        Some(outcome) => {
                            proof {
                                assert(outcome_views(outcomes@.push(outcome)) =~= outcome_views(
                                    outcomes@,
                                ).push(outcome@));
                            }
                            outcomes.push(outcome);
                            Dispatcher { instructions, launched, outcomes, lost }
                        },
                        None => Dispatcher { instructions, launched, outcomes, lost: true },
                    }
                } else {
                    Dispatcher { instructions, launched, outcomes, lost }
                }
            },
        }
    }

    /// The result of the dispatch: none while a task is still to be launched
    /// or waited for.
    pub fn result(self) -> (result: Option<Result<BatchResult, DispatchError>>)
        ensures
            result is Some <==> self@.awaited() is Nothing,
            match result {
                None => self@.result() is None,
                Some(Err(error)) => self@.result() == Some(
                    Err::<(Seq<OutcomeView>, BatchStatus), DispatchError>(error),
                ),
                Some(Ok(batch)) => self@.result() == Some(
                    Ok::<(Seq<OutcomeView>, BatchStatus), DispatchError>(
                        (outcome_views(batch.outcomes@), batch.status),
                    ),
                ),
            },
    {
        proof {
            use_type_invariant(&self);
        }
        if self.launched < self.instructions.len() {
            None
        } else if self.lost {
            Some(Err(DispatchError::InternalError))
        } else if self.outcomes.len() < self.instructions.len() {
            None
        } else {
            Some(Ok(aggregate(self.outcomes)))
        }
    }
}

/// The events of launching `count` tasks.
pub open spec fn launches(count: nat) -> Seq<DispatchEvent> {
    Seq::new(count, |i: int| DispatchEvent::Launched)
}

/// The events of waiting for tasks that end with `reports`, in order.
pub open spec fn joins(reports: Seq<TaskReport>) -> Seq<DispatchEvent> {
    reports.map_values(|report: TaskReport| DispatchEvent::Joined { report })
}

proof fn lemma_after_launches(instructions: Seq<TransferInstruction>, k: nat)
    requires
        k <= instructions.len(),
    ensures
        DispatchState::start(instructions).after_all(launches(k)) == (DispatchState {
            launched: k,
            ..DispatchState::start(instructions)
        }),
    decreases k,
{
    if k > 0 {
        lemma_after_launches(instructions, (k - 1) as nat);
        assert(launches(k).drop_last() =~= launches((k - 1) as nat));
    }
}

proof fn lemma_after_joins(
    instructions: Seq<TransferInstruction>,
    reports: Seq<TaskReport>,
    k: int,
)
    requires
        reports.len() == instructions.len(),
        0 <= k <= reports.len(),
        forall|i: int| 0 <= i < reports.len() ==> !(#[trigger] reports[i] is Lost),
    ensures
        ({
            let state = DispatchState::start(instructions).after_all(
                launches(instructions.len()) + joins(reports.take(k)),
            );
            &&& state.instructions == instructions
            &&& state.launched == instructions.len()
            &&& !state.lost
            &&& state.outcomes.len() == k
            &&& forall|i: int|
                0 <= i < k ==> Some(#[trigger] state.outcomes[i]) == outcome_of_report(reports[i])
        }),
    decreases k,
{
    let count = instructions.len();
    if k == 0 {
        lemma_after_launches(instructions, count);
    } else {
        lemma_after_joins(instructions, reports, k - 1);
        let events = launches(count) + joins(reports.take(k));
        assert(events.drop_last() =~= launches(count) + joins(reports.take(k - 1)));
    }
}

/// Outcomes keep the order of the instructions. Where every task is launched
/// and then waited for, and none is lost, outcome `i` is the outcome of the
/// report on task `i`, whether that transfer succeeded or failed, and the
/// dispatch ends with all of them and the verdict on them.
pub proof fn lemma_outcomes_keep_order(
    instructions: Seq<TransferInstruction>,
    reports: Seq<TaskReport>,
)
    requires
        reports.len() == instructions.len(),
        forall|i: int| 0 <= i < reports.len() ==> !(#[trigger] reports[i] is Lost),
    ensures
        ({
            let end = DispatchState::start(instructions).after_all(
                launches(instructions.len()) + joins(reports),
            );
            &&& end.outcomes.len() == reports.len()
            &&& forall|i: int|
                0 <= i < reports.len() ==> Some(#[trigger] end.outcomes[i]) == outcome_of_report(
                    reports[i],
                )
            &&& end.result() == Some(
                Ok::<(Seq<OutcomeView>, BatchStatus), DispatchError>(
                    (end.outcomes, status_of(end.outcomes)),
                ),
            )
        }),
{
    lemma_after_joins(instructions, reports, reports.len() as int);
    assert(reports.take(reports.len() as int) =~= reports);
}

/// One failed transfer fails the batch, wherever it stands among the others.
pub proof fn lemma_one_failure_fails_the_batch(outcomes: Seq<OutcomeView>, failed: int)
    requires
        0 <= failed < outcomes.len(),
        outcomes[failed] is Failed,
    ensures
        status_of(outcomes) == BatchStatus::BatchFailed,
{
}

/// A lost task ends the dispatch in an internal error, whatever the other
/// tasks have done.
pub proof fn lemma_lost_task_is_internal_error(state: DispatchState)
    requires
        state.well_formed(),
        state.awaited() is Join,
    ensures
        state.after(DispatchEvent::Joined { report: TaskReport::Lost }).result() == Some(
            Err::<(Seq<OutcomeView>, BatchStatus), DispatchError>(DispatchError::InternalError),
        ),
{
}

/// Every state that a dispatch reaches is well formed.
pub proof fn lemma_after_keeps_well_formed(state: DispatchState, event: DispatchEvent)
    requires
        state.well_formed(),
    ensures
        state.after(event).well_formed(),
{
}

} // verus!
