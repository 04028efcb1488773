//! Tasks, their lifecycle, and the order of the processing pipeline.

use vstd::prelude::*;
use vstd::string::StringExecFns;

use crate::error::{Error, ErrorKind};

verus! {

/// Whether a dictionary's phrases were found in a task's transcript.
#[derive(Clone, Copy, Debug, PartialEq, Eq, Structural)]
pub struct TaskToDict {
    pub task_id: u128,
    pub dictionary_id: i32,
    pub contains: bool,
}

/// Where a task stands.
#[derive(Clone, Copy, Debug, PartialEq, Eq, Structural)]
pub enum TaskResultKind {
    Processing,
    Ready,
    Failed,
}

/// One recorded call going through the pipeline.
#[derive(Clone, Debug)]
pub struct Task {
    pub id: u128,
    pub call_metadata_id: u128,
    pub status: TaskResultKind,
    pub failed_reason: Option<String>,
    pub project_id: u128,
}

impl Task {
    /// The pipeline finished: the task is ready and carries no failure reason.
    pub fn complete(&mut self)
        ensures
            final(self).status == TaskResultKind::Ready,
            final(self).failed_reason is None,
            final(self).id == old(self).id,
            final(self).call_metadata_id == old(self).call_metadata_id,
            final(self).project_id == old(self).project_id,
    {
        self.status = TaskResultKind::Ready;
        self.failed_reason = None;
    }

    /// The pipeline failed: the task is failed with the reason given.
    pub fn fail(&mut self, reason: String)
        ensures
            final(self).status == TaskResultKind::Failed,
            final(self).failed_reason == Some(reason),
            final(self).id == old(self).id,
            final(self).call_metadata_id == old(self).call_metadata_id,
            final(self).project_id == old(self).project_id,
    {
        self.status = TaskResultKind::Failed;
        self.failed_reason = Some(reason);
    }

    /// Puts a ready or failed task back into processing, clearing its failure
    /// reason. A task that is still processing is refused and left as it is.
    pub fn reprocess(&mut self) -> (r: Result<(), Error>)
        ensures
            old(self).status == TaskResultKind::Processing <==> r is Err,
            r matches Err(e) ==> e.kind == ErrorKind::TaskAlreadyProcessing && *final(self)
                == *old(self),
            r is Ok ==> final(self).status == TaskResultKind::Processing
                && final(self).failed_reason is None && final(self).id == old(self).id
                && final(self).call_metadata_id == old(self).call_metadata_id
                && final(self).project_id == old(self).project_id,
    {
        if self.status == TaskResultKind::Processing {
            let mut reason = String::new();
            reason.append("task is already processing");
            return Err(Error::new(ErrorKind::TaskAlreadyProcessing, reason));
        }
        self.status = TaskResultKind::Processing;
        self.failed_reason = None;
        Ok(())
    }
}

/// The stages of processing one task, in the order they run.
#[derive(Clone, Copy, Debug, PartialEq, Eq, Structural)]
pub enum PipelineStage {
    /// Load the task and its call metadata.
    LoadTask,
    /// Obtain the recognition data.
    Transcribe,
    /// Compute the behavioural metrics.
    ComputeMetrics,
    /// Commit the transcript to the search index.
    Index,
    /// Look the dictionaries up in the index.
    MatchDictionaries,
    /// Score the metrics against the project's rubric.
    Score,
    /// Store metrics, dictionary matches and the ready status in one transaction.
    Persist,
}

/// What the dispatcher does next for a task.
#[derive(Clone, Copy, Debug, PartialEq, Eq, Structural)]
pub enum PipelineAction {
    /// Run this stage.
    Run(PipelineStage),
    /// Every stage succeeded: acknowledge the queue message.
    Acknowledge,
    /// A stage failed: record the failure on the task and reject the message
    /// without requeueing it.
    FailAndReject,
}

/// The stage that follows `stage`, if any.
pub open spec fn stage_after(stage: PipelineStage) -> Option<PipelineStage> {
    match stage {
        PipelineStage::LoadTask => Some(PipelineStage::Transcribe),
        PipelineStage::Transcribe => Some(PipelineStage::ComputeMetrics),
        PipelineStage::ComputeMetrics => Some(PipelineStage::Index),
        PipelineStage::Index => Some(PipelineStage::MatchDictionaries),
        PipelineStage::MatchDictionaries => Some(PipelineStage::Score),
        PipelineStage::Score => Some(PipelineStage::Persist),
        PipelineStage::Persist => None,
    }
}

/// Position of a stage in the pipeline.
pub open spec fn stage_rank(stage: PipelineStage) -> nat {
    match stage {
        PipelineStage::LoadTask => 0,
        PipelineStage::Transcribe => 1,
        PipelineStage::ComputeMetrics => 2,
        PipelineStage::Index => 3,
        PipelineStage::MatchDictionaries => 4,
        PipelineStage::Score => 5,
        PipelineStage::Persist => 6,
    }
}

/// The stage a task starts with.
pub fn first_stage() -> (r: PipelineStage)
    ensures
        r == PipelineStage::LoadTask,
        stage_rank(r) == 0,
{
    PipelineStage::LoadTask
}

/// The next action after `stage` ran: the following stage on success,
/// acknowledgement after the last one, failure handling on any error.
pub fn next_action(stage: PipelineStage, succeeded: bool) -> (r: PipelineAction)
    ensures
        !succeeded ==> r == PipelineAction::FailAndReject,
        succeeded ==> r == match stage_after(stage) {
            Some(next) => PipelineAction::Run(next),
            None => PipelineAction::Acknowledge,
        },
{
    if !succeeded {
        return PipelineAction::FailAndReject;
    }
    match stage {
        PipelineStage::LoadTask => PipelineAction::Run(PipelineStage::Transcribe),
        PipelineStage::Transcribe => PipelineAction::Run(PipelineStage::ComputeMetrics),
        PipelineStage::ComputeMetrics => PipelineAction::Run(PipelineStage::Index),
        PipelineStage::Index => PipelineAction::Run(PipelineStage::MatchDictionaries),
        PipelineStage::MatchDictionaries => PipelineAction::Run(PipelineStage::Score),
        PipelineStage::Score => PipelineAction::Run(PipelineStage::Persist),
        PipelineStage::Persist => PipelineAction::Acknowledge,
    }
}

/// Stages run strictly in sequence, each at most once: every successor is one
/// rank further on, and only the last stage has none.
pub proof fn lemma_stages_run_once(stage: PipelineStage)
    ensures
        stage_after(stage) matches Some(next) ==> stage_rank(next) == stage_rank(stage) + 1,
        stage_after(stage) is None <==> stage == PipelineStage::Persist,
{
}

} // verus!
