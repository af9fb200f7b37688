use task_queue::{
    broker_ack_options, broker_nack_options, decode_task, effective_prefetch_size, encode_task,
    new_pair, rabbit_queue_name, retry_schedule_ms, should_retry, Configuration, Error,
    FaultScript, MessageAttemptTriggerType, MessageTask, MessageTaskBatch, QueueBackend, QueueOp,
    QueueTask, TaskQueueConsumer, TaskQueueProducer,
};

fn sample_v1() -> QueueTask {
    QueueTask::MessageV1(MessageTask {
        msg_id: String::from("M1"),
        app_id: String::from("A1"),
        endpoint_id: String::from("E1"),
        trigger_type: MessageAttemptTriggerType::Scheduled,
        attempt_count: 0,
    })
}

fn mem_pair() -> (TaskQueueProducer, TaskQueueConsumer) {
    let cfg = Configuration {
        queue_backend: QueueBackend::Memory,
        rabbit_consumer_prefetch_size: None,
    };
    new_pair(&cfg, None).expect("in-process pair")
}

#[test]
fn round_trip_health_check() {
    let t = QueueTask::HealthCheck;
    let wire = encode_task(&t);
    assert_eq!(decode_task(&wire).unwrap(), t);
}

#[test]
fn round_trip_message_v1() {
    let t = QueueTask::MessageV1(MessageTask {
        msg_id: String::from("msg_2KWPBgLlAfxdpyHjiFh5l05RoQw"),
        app_id: String::from("app_1"),
        endpoint_id: String::from("ep-\u{00e9}\u{4e16}"),
        trigger_type: MessageAttemptTriggerType::Manual,
        attempt_count: 7,
    });
    let wire = encode_task(&t);
    assert_eq!(decode_task(&wire).unwrap(), t);
}

#[test]
fn round_trip_message_batch_forced_endpoint() {
    let t = QueueTask::MessageBatch(MessageTaskBatch {
        msg_id: String::from("m"),
        app_id: String::from(""),
        force_endpoint: Some(String::from("ep_9")),
        trigger_type: MessageAttemptTriggerType::Scheduled,
    });
    let wire = encode_task(&t);
    assert_eq!(decode_task(&wire).unwrap(), t);
}

#[test]
fn round_trip_message_batch_no_endpoint() {
    let t = QueueTask::MessageBatch(MessageTaskBatch {
        msg_id: String::from("m2"),
        app_id: String::from("a2"),
        force_endpoint: None,
        trigger_type: MessageAttemptTriggerType::Manual,
    });
    let wire = encode_task(&t);
    assert_eq!(decode_task(&wire).unwrap(), t);
}

#[test]
fn unknown_tag_is_decode_error() {
    assert_eq!(decode_task("Zanything"), Err(Error::Decode));
    assert_eq!(decode_task(""), Err(Error::Decode));
    assert_eq!(decode_task("Hx"), Err(Error::Decode));
    assert_eq!(decode_task("1short"), Err(Error::Decode));
}

#[test]
fn task_type_labels() {
    assert_eq!(QueueTask::HealthCheck.task_type(), "HealthCheck");
    assert_eq!(sample_v1().task_type(), "MessageV1");
    let b = MessageTaskBatch::new_task(
        String::from("m"),
        String::from("a"),
        None,
        MessageAttemptTriggerType::Manual,
    );
    assert_eq!(b.task_type(), "MessageBatch");
}

#[test]
fn new_task_constructors() {
    let t = MessageTask::new_task(
        String::from("M1"),
        String::from("A1"),
        String::from("E1"),
        MessageAttemptTriggerType::Scheduled,
    );
    assert_eq!(t, sample_v1());
    let b = MessageTaskBatch::new_task(
        String::from("M1"),
        String::from("A1"),
        Some(String::from("E1")),
        MessageAttemptTriggerType::Manual,
    );
    match b {
        QueueTask::MessageBatch(ref inner) => {
            assert_eq!(inner.force_endpoint, Some(String::from("E1")));
        }
        _ => panic!("expected a batch task"),
    }
}

#[test]
fn send_receive_ack() {
    let (producer, mut consumer) = mem_pair();
    producer.send(sample_v1(), None).0.unwrap();
    let batch = consumer.receive_all().0.unwrap();
    assert_eq!(batch.len(), 1);
    let mut batch = batch;
    let delivery = batch.pop().unwrap().unwrap();
    assert_eq!(delivery.task, sample_v1());
    delivery.ack().0.unwrap();
    let later = consumer.receive_all().0.unwrap();
    assert!(later.is_empty());
}

#[test]
fn delayed_task_not_visible_before_delay() {
    let (producer, mut consumer) = mem_pair();
    producer.send(sample_v1(), Some(5000)).0.unwrap();
    assert!(consumer.receive_all().0.unwrap().is_empty());
    producer.advance_clock(4999);
    assert!(consumer.receive_all().0.unwrap().is_empty());
    producer.advance_clock(1);
    let batch = consumer.receive_all().0.unwrap();
    assert_eq!(batch.len(), 1);
    assert_eq!(batch.into_iter().next().unwrap().unwrap().task, sample_v1());
}

#[test]
fn nack_requeues_task() {
    let (producer, mut consumer) = mem_pair();
    producer.send(sample_v1(), None).0.unwrap();
    let mut batch = consumer.receive_all().0.unwrap();
    let delivery = batch.pop().unwrap().unwrap();
    delivery.nack().0.unwrap();
    let mut again = consumer.receive_all().0.unwrap();
    assert_eq!(again.len(), 1);
    let redelivered = again.pop().unwrap().unwrap();
    assert_eq!(redelivered.task, sample_v1());
    redelivered.ack().0.unwrap();
}

#[test]
fn ack_retries_through_two_transport_failures() {
    let (producer, mut consumer) = mem_pair();
    producer.send(sample_v1(), None).0.unwrap();
    let mut batch = consumer.receive_all().0.unwrap();
    let delivery = batch.pop().unwrap().unwrap();
    producer.inject_fault(Some(FaultScript {
        op: QueueOp::Ack,
        kind: Error::Queue,
        remaining: 2,
    }));
    delivery.ack().0.unwrap();
    assert!(consumer.receive_all().0.unwrap().is_empty());
}

#[test]
fn ack_fails_after_schedule_exhausted() {
    let (producer, mut consumer) = mem_pair();
    producer.send(sample_v1(), None).0.unwrap();
    let mut batch = consumer.receive_all().0.unwrap();
    let delivery = batch.pop().unwrap().unwrap();
    producer.inject_fault(Some(FaultScript {
        op: QueueOp::Ack,
        kind: Error::Queue,
        remaining: 3,
    }));
    assert_eq!(delivery.ack().0, Err(Error::Queue));
}

#[test]
fn send_retry_classification() {
    let (producer, _consumer) = mem_pair();
    producer.inject_fault(Some(FaultScript {
        op: QueueOp::Send,
        kind: Error::Queue,
        remaining: 2,
    }));
    assert_eq!(producer.send(sample_v1(), None).0, Ok(()));
    producer.inject_fault(Some(FaultScript {
        op: QueueOp::Send,
        kind: Error::Queue,
        remaining: 3,
    }));
    assert_eq!(producer.send(sample_v1(), None).0, Err(Error::Queue));
    producer.inject_fault(None);
    assert_eq!(producer.send(sample_v1(), None).0, Ok(()));
}

#[test]
fn non_transport_failure_is_not_retried() {
    let (producer, _consumer) = mem_pair();
    producer.inject_fault(Some(FaultScript {
        op: QueueOp::Send,
        kind: Error::Decode,
        remaining: 1,
    }));
    // A single scripted failure: with even one retry the send would
    // succeed, so an error here shows zero retries were attempted.
    assert_eq!(producer.send(sample_v1(), None).0, Err(Error::Decode));
    assert_eq!(producer.send(sample_v1(), None).0, Ok(()));
}

#[test]
fn receive_all_caps_batch_at_128() {
    let (producer, mut consumer) = mem_pair();
    for _ in 0..130 {
        producer.send(QueueTask::HealthCheck, None).0.unwrap();
    }
    let first = consumer.receive_all().0.unwrap();
    assert_eq!(first.len(), 128);
    let second = consumer.receive_all().0.unwrap();
    assert_eq!(second.len(), 2);
}

#[test]
fn delivery_ids_sort_by_visibility_time() {
    let (producer, mut consumer) = mem_pair();
    producer.send(sample_v1(), None).0.unwrap();
    producer.advance_clock(1);
    producer.send(sample_v1(), None).0.unwrap();
    let batch = consumer.receive_all().0.unwrap();
    assert_eq!(batch.len(), 2);
    let ids: Vec<String> = batch
        .into_iter()
        .map(|d| d.unwrap().id)
        .collect();
    assert!(ids[0] < ids[1], "{} should sort before {}", ids[0], ids[1]);
    assert_eq!(ids[0].len(), 48);
}

#[test]
fn bad_item_does_not_abort_batch() {
    let (producer, mut consumer) = mem_pair();
    producer.send(sample_v1(), None).0.unwrap();
    producer.send_raw(Some(String::from("Z-not-a-task")), None).0.unwrap();
    producer.send(QueueTask::HealthCheck, None).0.unwrap();
    let batch = consumer.receive_all().0.unwrap();
    assert_eq!(batch.len(), 3);
    assert_eq!(batch[0].as_ref().unwrap().task, sample_v1());
    assert_eq!(batch[1].as_ref().err(), Some(&Error::Decode));
    assert_eq!(batch[2].as_ref().unwrap().task, QueueTask::HealthCheck);
}

#[test]
fn empty_payload_is_empty_delivery_error() {
    let (producer, mut consumer) = mem_pair();
    producer.send_raw(None, None).0.unwrap();
    let batch = consumer.receive_all().0.unwrap();
    assert_eq!(batch.len(), 1);
    assert_eq!(batch[0].as_ref().err(), Some(&Error::EmptyDelivery));
}

#[test]
fn transport_failure_on_receive() {
    let (producer, mut consumer) = mem_pair();
    producer.send(sample_v1(), None).0.unwrap();
    producer.inject_fault(Some(FaultScript {
        op: QueueOp::Receive,
        kind: Error::Queue,
        remaining: 1,
    }));
    assert_eq!(consumer.receive_all().0.err(), Some(Error::Queue));
    assert_eq!(consumer.receive_all().0.unwrap().len(), 1);
}

#[test]
fn non_memory_backends_fail_construction_here() {
    let cfg = Configuration {
        queue_backend: QueueBackend::Redis(String::from("SECRET-REDACTED")),
        rabbit_consumer_prefetch_size: None,
    };
    assert!(matches!(new_pair(&cfg, None), Err(Error::Startup)));
    let cfg = Configuration {
        queue_backend: QueueBackend::RabbitMq(String::from("SECRET-REDACTED")),
        rabbit_consumer_prefetch_size: Some(10),
    };
    assert!(matches!(new_pair(&cfg, Some("v1")), Err(Error::Startup)));
}

#[test]
fn broker_decisions() {
    assert_eq!(rabbit_queue_name(Some("v1")), "v1-message-queue");
    assert_eq!(rabbit_queue_name(None), "-message-queue");
    assert_eq!(effective_prefetch_size(None), 1);
    assert_eq!(effective_prefetch_size(Some(17)), 17);
    assert!(!broker_ack_options().multiple);
    let nack = broker_nack_options();
    assert!(nack.requeue && !nack.multiple);
}

#[test]
fn retry_schedule_and_classification() {
    assert_eq!(retry_schedule_ms(), vec![10u64, 20, 40]);
    assert!(should_retry(&Error::Queue));
    assert!(!should_retry(&Error::Decode));
    assert!(!should_retry(&Error::EmptyDelivery));
    assert!(!should_retry(&Error::Startup));
}

#[test]
fn error_labels() {
    assert_eq!(Error::Queue.label(), "queue transport failure");
    assert_eq!(Error::Decode.label(), "payload decode failure");
    assert_eq!(Error::EmptyDelivery.label(), "empty delivery");
    assert_eq!(Error::Startup.label(), "transport construction failure");
}

#[test]
fn producer_clones_share_the_queue() {
    let (producer, mut consumer) = mem_pair();
    let other = producer.clone();
    other.send(QueueTask::HealthCheck, None).0.unwrap();
    producer.send(sample_v1(), None).0.unwrap();
    assert_eq!(consumer.receive_all().0.unwrap().len(), 2);
}
