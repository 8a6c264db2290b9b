use ddshow::event::{
    ApplicationEvent, BatchEvent, CommChannelsEvent, DifferentialEvent, DropEvent,
    GuardedMessageEvent, GuardedProgressEvent, InputEvent, MergeEvent, MergeShortfallEvent,
    MessagesEvent, OperatesEvent, ParkEvent, PushProgressEvent, ScheduleEvent, ShutdownEvent,
    StartStop, TimelyEvent, TraceShareEvent,
};

fn sample_schedule() -> TimelyEvent {
    TimelyEvent::Schedule(ScheduleEvent {
        id: 4,
        start_stop: StartStop::Start,
    })
}

#[test]
fn narrowing_identifies_each_control_variant() {
    let operates = TimelyEvent::Operates(OperatesEvent {
        id: 1,
        addr: vec![0, 1],
        name: String::from("map"),
    });
    assert!(operates.is_operates());
    assert!(!operates.is_channels());

    let channels = TimelyEvent::Channels(ddshow::event::ChannelsEvent {
        id: 2,
        scope_addr: vec![0],
        source_node: 1,
        source_port: 0,
        target_node: 2,
        target_port: 0,
    });
    assert!(channels.is_channels());
    assert!(!channels.is_operates());

    let push_progress = TimelyEvent::PushProgress(PushProgressEvent { op_id: 3 });
    assert!(push_progress.is_push_progress());

    let messages = TimelyEvent::Messages(MessagesEvent {
        is_send: true,
        channel: 1,
        source: 0,
        target: 1,
        seq_no: 7,
        length: 32,
    });
    assert!(messages.is_messages());

    let schedule = sample_schedule();
    assert!(schedule.is_schedule());
    assert!(!schedule.is_shutdown());

    let shutdown = TimelyEvent::Shutdown(ShutdownEvent { id: 5 });
    assert!(shutdown.is_shutdown());

    let application = TimelyEvent::Application(ApplicationEvent {
        id: 6,
        is_start: true,
    });
    assert!(application.is_application());

    let guarded_message = TimelyEvent::GuardedMessage(GuardedMessageEvent { is_start: false });
    assert!(guarded_message.is_guarded_message());

    let guarded_progress = TimelyEvent::GuardedProgress(GuardedProgressEvent { is_start: true });
    assert!(guarded_progress.is_guarded_progress());

    let comm_channels = TimelyEvent::CommChannels(CommChannelsEvent {
        identifier: 8,
        is_progress: true,
    });
    assert!(comm_channels.is_comm_channels());

    let input = TimelyEvent::Input(InputEvent {
        start_stop: StartStop::Stop,
    });
    assert!(input.is_input());

    let park = TimelyEvent::Park(ParkEvent::Park(Some(250)));
    assert!(park.is_park());
    assert!(!park.is_text());

    let text = TimelyEvent::Text(String::from("note"));
    assert!(text.is_text());
    assert!(!text.is_park());
}

#[test]
fn as_accessors_narrow_without_consuming() {
    let schedule = sample_schedule();
    let payload = schedule.as_schedule().expect("schedule payload");
    assert_eq!(payload.id, 4);
    assert_eq!(payload.start_stop, StartStop::Start);
    assert!(schedule.as_shutdown().is_none());
    assert!(schedule.as_text().is_none());
    // The event is still usable afterwards.
    assert!(schedule.is_schedule());
}

#[test]
fn try_into_extracts_payload() {
    let shutdown = TimelyEvent::Shutdown(ShutdownEvent { id: 9 });
    assert_eq!(
        shutdown.try_into_shutdown(),
        Ok(ShutdownEvent { id: 9 })
    );
}

#[test]
fn try_into_returns_event_unchanged_on_mismatch() {
    let text = TimelyEvent::Text(String::from("hello"));
    let back = text.try_into_schedule().expect_err("kind mismatch");
    assert_eq!(back, TimelyEvent::Text(String::from("hello")));
    // It can be retried with the right extractor.
    assert_eq!(back.try_into_text(), Ok(String::from("hello")));
}

#[test]
fn narrowing_identifies_each_arrangement_variant() {
    let batch = DifferentialEvent::Batch(BatchEvent {
        operator: 1,
        length: 10,
    });
    assert!(batch.is_batch());
    assert!(!batch.is_merge());

    let merge = DifferentialEvent::Merge(MergeEvent {
        operator: 1,
        scale: 2,
        length1: 4,
        length2: 6,
        complete: Some(10),
    });
    assert!(merge.is_merge());
    assert!(!merge.is_batch());

    let shortfall = DifferentialEvent::MergeShortfall(MergeShortfallEvent {
        operator: 1,
        scale: 2,
        shortfall: 3,
    });
    assert!(shortfall.is_merge_shortfall());

    let dropped = DifferentialEvent::Drop(DropEvent {
        operator: 1,
        length: 5,
    });
    assert!(dropped.is_drop());

    let share = DifferentialEvent::TraceShare(TraceShareEvent {
        operator: 1,
        diff: -1,
    });
    assert!(share.is_trace_share());
}

#[test]
fn arrangement_accessors_extract_and_hand_back() {
    let merge = DifferentialEvent::Merge(MergeEvent {
        operator: 3,
        scale: 2,
        length1: 15,
        length2: 25,
        complete: Some(40),
    });
    let payload = merge.as_merge().expect("merge payload");
    assert_eq!(payload.complete, Some(40));
    assert!(merge.as_batch().is_none());

    let extracted = merge.try_into_merge().expect("merge payload");
    assert_eq!(extracted.scale, 2);

    let batch = DifferentialEvent::Batch(BatchEvent {
        operator: 3,
        length: 10,
    });
    let back = batch.try_into_trace_share().expect_err("kind mismatch");
    assert_eq!(
        back,
        DifferentialEvent::Batch(BatchEvent {
            operator: 3,
            length: 10,
        })
    );
}

#[test]
fn from_wraps_payloads_in_their_variant() {
    assert_eq!(
        TimelyEvent::from(ShutdownEvent { id: 3 }),
        TimelyEvent::Shutdown(ShutdownEvent { id: 3 })
    );
    assert_eq!(
        TimelyEvent::from(ScheduleEvent {
            id: 1,
            start_stop: StartStop::Stop,
        }),
        TimelyEvent::Schedule(ScheduleEvent {
            id: 1,
            start_stop: StartStop::Stop,
        })
    );
    assert_eq!(
        TimelyEvent::from(ParkEvent::Unpark),
        TimelyEvent::Park(ParkEvent::Unpark)
    );
    assert_eq!(
        TimelyEvent::from(InputEvent {
            start_stop: StartStop::Start,
        }),
        TimelyEvent::Input(InputEvent {
            start_stop: StartStop::Start,
        })
    );
}
