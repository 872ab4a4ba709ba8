//! The decisions of the AI inference pipeline. A run goes through fixed
//! steps: register the task, turn the input into PNG bytes, check for
//! cancellation, call the backend for the kind of task, decode its answer
//! as an image or a mask, and clear the task. The calls themselves are made
//! by the caller, which hands back what each step gave as an event.
use vstd::prelude::*;

use crate::bits::{F32Bits, F32_ONE, F32_ZERO};
use crate::error::RasaError;
use crate::geometry::Rect;
use crate::models::ModelId;
use crate::text::str_eq;

verus! {

/// Progress reported once the input is encoded: `0.1` as an `f32`.
pub const PROGRESS_ENCODED: F32Bits = 0x3dcc_cccd;

/// Progress reported once the backend has answered: `0.8` as an `f32`.
pub const PROGRESS_ANSWERED: F32Bits = 0x3f4c_cccd;

/// Kind of AI task.
#[derive(Debug, Clone, Copy, PartialEq, Eq, Structural)]
pub enum TaskKind {
    Inpaint,
    Upscale,
    Segment,
    Generate,
    RemoveBackground,
}

/// A running AI task, for progress tracking and cancellation.
#[derive(Debug, Clone)]
pub struct TaskHandle {
    pub id: String,
    pub kind: TaskKind,
    /// Progress, as the bit pattern of an `f32`.
    pub progress: F32Bits,
    pub cancelled: bool,
}

/// What the pipeline keeps between steps: the task that is running, if any.
#[derive(Debug)]
pub struct PipelineState {
    pub active_task: Option<TaskHandle>,
}

/// Parameters of an AI operation.
#[derive(Debug, Clone)]
pub enum AiRequest {
    Inpaint { model: ModelId, prompt: Option<String>, mask_region: Rect },
    Upscale { model: ModelId, scale_factor: u32 },
    Segment { model: ModelId },
    Generate {
        model: ModelId,
        prompt: String,
        negative_prompt: Option<String>,
        width: u32,
        height: u32,
        steps: u32,
        /// Guidance scale, as the bit pattern of an `f32`.
        cfg_scale: F32Bits,
        seed: Option<u64>,
    },
    RemoveBackground { model: ModelId },
}

/// What the caller reports of the step it was asked to take.
#[derive(Debug)]
pub enum PipelineEvent {
    /// A run of the task `task_id` begins.
    Start { task_id: String },
    /// The input of the task `task_id` is encoded as PNG bytes.
    Encoded { task_id: String },
    /// The backend answered.
    Answered,
    /// The answer is decoded.
    Decoded,
    /// The step failed with this error.
    Failed { error: RasaError },
}

/// The next step of a run.
#[derive(Debug)]
pub enum PipelineStep {
    /// Encode the input as PNG bytes.
    Encode,
    /// Call the backend for this kind of task.
    Call { kind: TaskKind },
    /// Decode the answer as an image.
    DecodeImage,
    /// Decode the answer as a segmentation mask of the input's size.
    DecodeMask,
    /// The result is ready.
    Finish,
    /// The run ends with this error.
    Fail { error: RasaError },
}

/// What the caller does next: report `progress` when there is one, then take `step`.
#[derive(Debug)]
pub struct PipelineAction {
    pub progress: Option<F32Bits>,
    pub step: PipelineStep,
}

/// The kind of task a request asks for.
pub open spec fn kind_of(request: AiRequest) -> TaskKind {
    match request {
        AiRequest::Inpaint { .. } => TaskKind::Inpaint,
        AiRequest::Upscale { .. } => TaskKind::Upscale,
        AiRequest::Segment { .. } => TaskKind::Segment,
        AiRequest::Generate { .. } => TaskKind::Generate,
        AiRequest::RemoveBackground { .. } => TaskKind::RemoveBackground,
    }
}

/// The task `task_id` is the running task, and it was cancelled.
pub open spec fn cancelled_task(state: PipelineState, task_id: Seq<char>) -> bool {
    state.active_task matches Some(t) && t.id@ == task_id && t.cancelled
}

/// The kind of task a request asks for.
pub fn task_kind(request: &AiRequest) -> (r: TaskKind)
    ensures
        r == kind_of(*request),
{
    match request {
        AiRequest::Inpaint { .. } => TaskKind::Inpaint,
        AiRequest::Upscale { .. } => TaskKind::Upscale,
        AiRequest::Segment { .. } => TaskKind::Segment,
        AiRequest::Generate { .. } => TaskKind::Generate,
        AiRequest::RemoveBackground { .. } => TaskKind::RemoveBackground,
    }
}

impl PipelineState {
    /// No task running.
    pub fn new() -> (r: PipelineState)
        ensures
            r.active_task is None,
    {
        PipelineState { active_task: None }
    }

    /// Mark the running task, if any, as cancelled.
    pub fn cancel(&mut self)
        ensures
            match old(self).active_task {
                Some(t) => final(self).active_task == Some(TaskHandle { cancelled: true, ..t }),
                None => final(self).active_task is None,
            },
    {
        match self.active_task.take() {
            Some(mut t) => {
                t.cancelled = true;
                self.active_task = Some(t);
            },
            None => {},
        }
    }

    /// Whether a task is running.
    pub fn is_busy(&self) -> (r: bool)
        ensures
            r == self.active_task is Some,
    {
        self.active_task.is_some()
    }

    /// Whether the task `task_id` is the running task and was cancelled.
    pub fn is_cancelled(&self, task_id: &str) -> (r: bool)
        ensures
            r == cancelled_task(*self, task_id@),
    {
        match &self.active_task {
            Some(t) => str_eq(t.id.as_str(), task_id) && t.cancelled,
            None => false,
        }
    }
}

/// One step of a run of a task of kind `kind`: the state after `event`,
/// and what to do next.
///
/// A run starts with `Start`, which registers the task (progress 0.0, not
/// cancelled), reports 0.0 and asks for the input to be encoded. `Encoded`
/// reports 0.1 and, unless the task was cancelled (which ends the run with
/// `"task cancelled"`), asks for the backend call of the kind. `Answered`
/// reports 0.8 and asks to decode a mask for segmentation, an image
/// otherwise. `Decoded` reports 1.0, clears the task and finishes. A
/// `Failed` step ends the run with its error, the task left registered.
pub fn pipeline_step(kind: TaskKind, state: PipelineState, event: PipelineEvent) -> (r: (
    PipelineState,
    PipelineAction,
))
    ensures
        match event {
            PipelineEvent::Start { task_id } => {
                &&& r.0.active_task matches Some(t) && t.id@ == task_id@ && t.kind == kind && t.progress == F32_ZERO
                    && !t.cancelled
                &&& r.1.progress == Some(F32_ZERO)
                &&& r.1.step is Encode
            },
            PipelineEvent::Encoded { task_id } => {
                &&& r.0 == state
                &&& r.1.progress == Some(PROGRESS_ENCODED)
                &&& if cancelled_task(state, task_id@) {
                    r.1.step matches PipelineStep::Fail { error: RasaError::Other(m) } && m@ == "task cancelled"@
                } else {
                    r.1.step == (PipelineStep::Call { kind })
                }
            },
            PipelineEvent::Answered => {
                &&& r.0 == state
                &&& r.1.progress == Some(PROGRESS_ANSWERED)
                &&& if kind == TaskKind::Segment {
                    r.1.step is DecodeMask
                } else {
                    r.1.step is DecodeImage
                }
            },
            PipelineEvent::Decoded => {
                &&& r.0.active_task is None
                &&& r.1.progress == Some(F32_ONE)
                &&& r.1.step is Finish
            },
            PipelineEvent::Failed { error } => {
                &&& r.0 == state
                &&& r.1.progress is None
                &&& r.1.step == (PipelineStep::Fail { error })
            },
        },
{
    match event {
        PipelineEvent::Start { task_id } => {
            let t = TaskHandle { id: task_id, kind, progress: F32_ZERO, cancelled: false };
            (PipelineState { active_task: Some(t) }, PipelineAction { progress: Some(F32_ZERO), step: PipelineStep::Encode })
        },
        PipelineEvent::Encoded { task_id } => {
            let step = if state.is_cancelled(task_id.as_str()) {
                PipelineStep::Fail { error: RasaError::Other("task cancelled".to_owned()) }
            } else {
                PipelineStep::Call { kind }
            };
            (state, PipelineAction { progress: Some(PROGRESS_ENCODED), step })
        },
        PipelineEvent::Answered => {
            let step = if kind == TaskKind::Segment {
                PipelineStep::DecodeMask
            } else {
                PipelineStep::DecodeImage
            };
            (state, PipelineAction { progress: Some(PROGRESS_ANSWERED), step })
        },
        PipelineEvent::Decoded => (PipelineState { active_task: None }, PipelineAction {
            progress: Some(F32_ONE),
            step: PipelineStep::Finish,
        }),
        PipelineEvent::Failed { error } => (state, PipelineAction { progress: None, step: PipelineStep::Fail { error } }),
    }
}

} // verus!
