//! The task taxonomy: the tagged union of work-item kinds carried by every
//! transport, and the mathematical views the contracts speak of.
use vstd::prelude::*;

use crate::hexnum::pow16;

verus! {

use vstd::std_specs::cmp::PartialEqSpec;

/// Why a delivery attempt was started.
#[derive(Clone, Copy, Debug, PartialEq, Eq, Structural)]
pub enum MessageAttemptTriggerType {
    Scheduled,
    Manual,
}

/// One delivery attempt for a single endpoint.
#[derive(Clone, Debug)]
pub struct MessageTask {
    pub msg_id: String,
    pub app_id: String,
    pub endpoint_id: String,
    pub trigger_type: MessageAttemptTriggerType,
    pub attempt_count: u16,
}

/// One fan-out unit: delivery to all subscribed endpoints of an application,
/// or to one forced endpoint override.
#[derive(Clone, Debug)]
pub struct MessageTaskBatch {
    pub msg_id: String,
    pub app_id: String,
    pub force_endpoint: Option<String>,
    pub trigger_type: MessageAttemptTriggerType,
}

/// The tagged union of work-item kinds.
#[derive(Clone, Debug)]
pub enum QueueTask {
    HealthCheck,
    MessageV1(MessageTask),
    MessageBatch(MessageTaskBatch),
}

#[verifier::ext_equal]
pub struct MessageTaskV {
    pub msg_id: Seq<char>,
    pub app_id: Seq<char>,
    pub endpoint_id: Seq<char>,
    pub trigger_type: MessageAttemptTriggerType,
    pub attempt_count: u16,
}

#[verifier::ext_equal]
pub struct MessageTaskBatchV {
    pub msg_id: Seq<char>,
    pub app_id: Seq<char>,
    pub force_endpoint: Option<Seq<char>>,
    pub trigger_type: MessageAttemptTriggerType,
}

#[verifier::ext_equal]
pub enum TaskV {
    HealthCheck,
    MessageV1(MessageTaskV),
    MessageBatch(MessageTaskBatchV),
}

impl TaskV {
    /// Every identifier short enough for a fixed-width length prefix; true
    /// of the view of every task a program can build.
    pub open spec fn wf(self) -> bool {
        match self {
            TaskV::HealthCheck => true,
            TaskV::MessageV1(m) => m.msg_id.len() < pow16(16) && m.app_id.len() < pow16(16)
                && m.endpoint_id.len() < pow16(16),
            TaskV::MessageBatch(b) => b.msg_id.len() < pow16(16) && b.app_id.len() < pow16(16)
                && (b.force_endpoint matches Some(e) ==> e.len() < pow16(16)),
        }
    }
}

impl View for MessageTask {
    type V = MessageTaskV;

    open spec fn view(&self) -> MessageTaskV {
        MessageTaskV {
            msg_id: self.msg_id@,
            app_id: self.app_id@,
            endpoint_id: self.endpoint_id@,
            trigger_type: self.trigger_type,
            attempt_count: self.attempt_count,
        }
    }
}

impl View for MessageTaskBatch {
    type V = MessageTaskBatchV;

    open spec fn view(&self) -> MessageTaskBatchV {
        MessageTaskBatchV {
            msg_id: self.msg_id@,
            app_id: self.app_id@,
            force_endpoint: match self.force_endpoint {
                Some(e) => Some(e@),
                None => None,
            },
            trigger_type: self.trigger_type,
        }
    }
}

impl View for QueueTask {
    type V = TaskV;

    open spec fn view(&self) -> TaskV {
        match self {
            QueueTask::HealthCheck => TaskV::HealthCheck,
            QueueTask::MessageV1(m) => TaskV::MessageV1(m@),
            QueueTask::MessageBatch(b) => TaskV::MessageBatch(b@),
        }
    }
}

impl PartialEq for MessageTask {
    fn eq(&self, other: &MessageTask) -> bool {
        self.msg_id == other.msg_id && self.app_id == other.app_id && self.endpoint_id
            == other.endpoint_id && self.trigger_type == other.trigger_type && self.attempt_count
            == other.attempt_count
    }
}

impl vstd::std_specs::cmp::PartialEqSpecImpl for MessageTask {
    open spec fn obeys_eq_spec() -> bool {
        true
    }

    open spec fn eq_spec(&self, other: &MessageTask) -> bool {
        self.msg_id@ == other.msg_id@ && self.app_id@ == other.app_id@ && self.endpoint_id@
            == other.endpoint_id@ && self.trigger_type == other.trigger_type && self.attempt_count
            == other.attempt_count
    }
}

impl PartialEq for MessageTaskBatch {
    fn eq(&self, other: &MessageTaskBatch) -> bool {
        let fe_eq: bool = match (&self.force_endpoint, &other.force_endpoint) {
            (None, None) => true,
            (Some(a), Some(b)) => *a == *b,
            _ => false,
        };
        self.msg_id == other.msg_id && self.app_id == other.app_id && fe_eq && self.trigger_type
            == other.trigger_type
    }
}

impl vstd::std_specs::cmp::PartialEqSpecImpl for MessageTaskBatch {
    open spec fn obeys_eq_spec() -> bool {
        true
    }

    open spec fn eq_spec(&self, other: &MessageTaskBatch) -> bool {
        self.msg_id@ == other.msg_id@ && self.app_id@ == other.app_id@ && (match (
            self.force_endpoint,
            other.force_endpoint,
        ) {
            (None, None) => true,
            (Some(a), Some(b)) => a@ == b@,
            _ => false,
        }) && self.trigger_type == other.trigger_type
    }
}

impl PartialEq for QueueTask {
    fn eq(&self, other: &QueueTask) -> bool {
        match (self, other) {
            (QueueTask::HealthCheck, QueueTask::HealthCheck) => true,
            (QueueTask::MessageV1(a), QueueTask::MessageV1(b)) => a == b,
            (QueueTask::MessageBatch(a), QueueTask::MessageBatch(b)) => a == b,
            _ => false,
        }
    }
}

impl vstd::std_specs::cmp::PartialEqSpecImpl for QueueTask {
    open spec fn obeys_eq_spec() -> bool {
        true
    }

    open spec fn eq_spec(&self, other: &QueueTask) -> bool {
        match (self, other) {
            (QueueTask::HealthCheck, QueueTask::HealthCheck) => true,
            (QueueTask::MessageV1(a), QueueTask::MessageV1(b)) => PartialEqSpec::eq_spec(a, b),
            (QueueTask::MessageBatch(a), QueueTask::MessageBatch(b)) => PartialEqSpec::eq_spec(a, b),
            _ => false,
        }
    }
}

impl MessageTask {
    /// A first delivery attempt for one endpoint; the attempt count starts
    /// at zero and is advanced by the consumer-side processor, not here.
    pub fn new_task(
        msg_id: String,
        app_id: String,
        endpoint_id: String,
        trigger_type: MessageAttemptTriggerType,
    ) -> (t: QueueTask)
        ensures
            t@ == TaskV::MessageV1(
                MessageTaskV {
                    msg_id: msg_id@,
                    app_id: app_id@,
                    endpoint_id: endpoint_id@,
                    trigger_type,
                    attempt_count: 0u16,
                },
            ),
    {
        QueueTask::MessageV1(
            MessageTask { msg_id, app_id, endpoint_id, attempt_count: 0, trigger_type },
        )
    }
}

impl MessageTaskBatch {
    /// A fan-out task for an application, optionally pinned to one endpoint.
    pub fn new_task(
        msg_id: String,
        app_id: String,
        force_endpoint: Option<String>,
        trigger_type: MessageAttemptTriggerType,
    ) -> (t: QueueTask)
        ensures
            t matches QueueTask::MessageBatch(b) && b.msg_id == msg_id && b.app_id == app_id
                && b.force_endpoint == force_endpoint && b.trigger_type == trigger_type,
    {
        QueueTask::MessageBatch(MessageTaskBatch { msg_id, app_id, force_endpoint, trigger_type })
    }
}

impl QueueTask {
    /// Returns a stable type string, for logging.
    pub fn task_type(&self) -> (r: &'static str)
        ensures
            self is HealthCheck ==> r@ == "HealthCheck"@,
            self is MessageV1 ==> r@ == "MessageV1"@,
            self is MessageBatch ==> r@ == "MessageBatch"@,
    {
        match self {
            QueueTask::HealthCheck => "HealthCheck",
            QueueTask::MessageV1(_) => "MessageV1",
            QueueTask::MessageBatch(_) => "MessageBatch",
        }
    }
}

} // verus!
