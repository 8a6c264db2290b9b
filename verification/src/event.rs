//! The closed event schema: two tagged-union families of log events, with
//! non-destructive narrowing accessors (`is_*`, `as_*`) and consuming
//! extractors (`try_into_*`) that hand the value back unchanged on a kind
//! mismatch, so they compose with filtering pipelines.

use vstd::prelude::*;

verus! {

/// Whether a paired event opens or closes an activity interval.
#[derive(Debug, Clone, Copy, PartialEq, Eq, Hash, Structural)]
pub enum StartStop {
    Start,
    Stop,
}

/// An operator was created: its id, its address in the dataflow graph and a
/// human-readable name.
#[derive(Debug, Clone, PartialEq, Eq, Hash)]
pub struct OperatesEvent {
    pub id: usize,
    pub addr: Vec<usize>,
    pub name: String,
}

/// A channel was created between two (node, port) endpoints.
#[derive(Debug, Clone, PartialEq, Eq, Hash)]
pub struct ChannelsEvent {
    pub id: usize,
    pub scope_addr: Vec<usize>,
    pub source_node: usize,
    pub source_port: usize,
    pub target_node: usize,
    pub target_port: usize,
}

/// An operator pushed progress information.
#[derive(Debug, Clone, Copy, PartialEq, Eq, Hash, Structural)]
pub struct PushProgressEvent {
    pub op_id: usize,
}

/// A batch of messages was sent or received on a channel.
#[derive(Debug, Clone, Copy, PartialEq, Eq, Hash, Structural)]
pub struct MessagesEvent {
    pub is_send: bool,
    pub channel: usize,
    pub source: usize,
    pub target: usize,
    pub seq_no: usize,
    pub length: usize,
}

/// An operator was scheduled (start) or yielded back (stop).
#[derive(Debug, Clone, Copy, PartialEq, Eq, Hash, Structural)]
pub struct ScheduleEvent {
    pub id: usize,
    pub start_stop: StartStop,
}

/// An operator was shut down.
#[derive(Debug, Clone, Copy, PartialEq, Eq, Hash, Structural)]
pub struct ShutdownEvent {
    pub id: usize,
}

/// An application-defined interval opened or closed.
#[derive(Debug, Clone, Copy, PartialEq, Eq, Hash, Structural)]
pub struct ApplicationEvent {
    pub id: usize,
    pub is_start: bool,
}

/// A message-delivery guard was entered or left.
#[derive(Debug, Clone, Copy, PartialEq, Eq, Hash, Structural)]
pub struct GuardedMessageEvent {
    pub is_start: bool,
}

/// A progress-delivery guard was entered or left.
#[derive(Debug, Clone, Copy, PartialEq, Eq, Hash, Structural)]
pub struct GuardedProgressEvent {
    pub is_start: bool,
}

/// A communication channel was set up; `is_progress` tells progress channels
/// from data channels.
#[derive(Debug, Clone, Copy, PartialEq, Eq, Hash, Structural)]
pub struct CommChannelsEvent {
    pub identifier: usize,
    pub is_progress: bool,
}

/// An input handle opened (start) or closed (stop) a round of input.
#[derive(Debug, Clone, Copy, PartialEq, Eq, Hash, Structural)]
pub struct InputEvent {
    pub start_stop: StartStop,
}

/// A worker parked (with an optional timeout, in nanoseconds) or unparked.
#[derive(Debug, Clone, Copy, PartialEq, Eq, Hash, Structural)]
pub enum ParkEvent {
    Park(Option<u64>),
    Unpark,
}

/// The control-plane event family: a closed tagged union, exhaustively
/// matched by every consumer so that a new kind forces compile-time updates.
#[derive(Debug, Clone, PartialEq, Eq, Hash)]
pub enum TimelyEvent {
    Operates(OperatesEvent),
    Channels(ChannelsEvent),
    PushProgress(PushProgressEvent),
    Messages(MessagesEvent),
    Schedule(ScheduleEvent),
    Shutdown(ShutdownEvent),
    Application(ApplicationEvent),
    GuardedMessage(GuardedMessageEvent),
    GuardedProgress(GuardedProgressEvent),
    CommChannels(CommChannelsEvent),
    Input(InputEvent),
    Park(ParkEvent),
    Text(String),
}

impl TimelyEvent {
    /// Returns `true` if the event is [`TimelyEvent::Operates`].
    pub fn is_operates(&self) -> (r: bool)
        ensures
            r == (self is Operates),
    {
        matches!(self, Self::Operates(..))
    }

    /// Narrows to the [`TimelyEvent::Operates`] payload without consuming the event.
    pub fn as_operates(&self) -> (r: Option<&OperatesEvent>)
        ensures
            match self {
                TimelyEvent::Operates(v) => r == Some(v),
                _ => r is None,
            },
    {
        if let Self::Operates(v) = self {
            Some(v)
        } else {
            None
        }
    }

    /// Extracts the [`TimelyEvent::Operates`] payload, handing the event back
    /// unchanged on a kind mismatch.
    pub fn try_into_operates(self) -> (r: Result<OperatesEvent, TimelyEvent>)
        ensures
            match self {
                TimelyEvent::Operates(v) => r == Ok::<OperatesEvent, TimelyEvent>(v),
                _ => r == Err::<OperatesEvent, TimelyEvent>(self),
            },
    {
        if let Self::Operates(v) = self {
            Ok(v)
        } else {
            Err(self)
        }
    }

    /// Returns `true` if the event is [`TimelyEvent::Channels`].
    pub fn is_channels(&self) -> (r: bool)
        ensures
            r == (self is Channels),
    {
        matches!(self, Self::Channels(..))
    }

    /// Narrows to the [`TimelyEvent::Channels`] payload without consuming the event.
    pub fn as_channels(&self) -> (r: Option<&ChannelsEvent>)
        ensures
            match self {
                TimelyEvent::Channels(v) => r == Some(v),
                _ => r is None,
            },
    {
        if let Self::Channels(v) = self {
            Some(v)
        } else {
            None
        }
    }

    /// Extracts the [`TimelyEvent::Channels`] payload, handing the event back
    /// unchanged on a kind mismatch.
    pub fn try_into_channels(self) -> (r: Result<ChannelsEvent, TimelyEvent>)
        ensures
            match self {
                TimelyEvent::Channels(v) => r == Ok::<ChannelsEvent, TimelyEvent>(v),
                _ => r == Err::<ChannelsEvent, TimelyEvent>(self),
            },
    {
        if let Self::Channels(v) = self {
            Ok(v)
        } else {
            Err(self)
        }
    }

    /// Returns `true` if the event is [`TimelyEvent::PushProgress`].
    pub fn is_push_progress(&self) -> (r: bool)
        ensures
            r == (self is PushProgress),
    {
        matches!(self, Self::PushProgress(..))
    }

    /// Narrows to the [`TimelyEvent::PushProgress`] payload without consuming the event.
    pub fn as_push_progress(&self) -> (r: Option<&PushProgressEvent>)
        ensures
            match self {
                TimelyEvent::PushProgress(v) => r == Some(v),
                _ => r is None,
            },
    {
        if let Self::PushProgress(v) = self {
            Some(v)
        } else {
            None
        }
    }

    /// Extracts the [`TimelyEvent::PushProgress`] payload, handing the event back
    /// unchanged on a kind mismatch.
    pub fn try_into_push_progress(self) -> (r: Result<PushProgressEvent, TimelyEvent>)
        ensures
            match self {
                TimelyEvent::PushProgress(v) => r == Ok::<PushProgressEvent, TimelyEvent>(v),
                _ => r == Err::<PushProgressEvent, TimelyEvent>(self),
            },
    {
        if let Self::PushProgress(v) = self {
            Ok(v)
        } else {
            Err(self)
        }
    }

    /// Returns `true` if the event is [`TimelyEvent::Messages`].
    pub fn is_messages(&self) -> (r: bool)
        ensures
            r == (self is Messages),
    {
        matches!(self, Self::Messages(..))
    }

    /// Narrows to the [`TimelyEvent::Messages`] payload without consuming the event.
    pub fn as_messages(&self) -> (r: Option<&MessagesEvent>)
        ensures
            match self {
                TimelyEvent::Messages(v) => r == Some(v),
                _ => r is None,
            },
    {
        if let Self::Messages(v) = self {
            Some(v)
        } else {
            None
        }
    }

    /// Extracts the [`TimelyEvent::Messages`] payload, handing the event back
    /// unchanged on a kind mismatch.
    pub fn try_into_messages(self) -> (r: Result<MessagesEvent, TimelyEvent>)
        ensures
            match self {
                TimelyEvent::Messages(v) => r == Ok::<MessagesEvent, TimelyEvent>(v),
                _ => r == Err::<MessagesEvent, TimelyEvent>(self),
            },
    {
        if let Self::Messages(v) = self {
            Ok(v)
        } else {
            Err(self)
        }
    }

    /// Returns `true` if the event is [`TimelyEvent::Schedule`].
    pub fn is_schedule(&self) -> (r: bool)
        ensures
            r == (self is Schedule),
    {
        matches!(self, Self::Schedule(..))
    }

    /// Narrows to the [`TimelyEvent::Schedule`] payload without consuming the event.
    pub fn as_schedule(&self) -> (r: Option<&ScheduleEvent>)
        ensures
            match self {
                TimelyEvent::Schedule(v) => r == Some(v),
                _ => r is None,
            },
    {
        if let Self::Schedule(v) = self {
            Some(v)
        } else {
            None
        }
    }

    /// Extracts the [`TimelyEvent::Schedule`] payload, handing the event back
    /// unchanged on a kind mismatch.
    pub fn try_into_schedule(self) -> (r: Result<ScheduleEvent, TimelyEvent>)
        ensures
            match self {
                TimelyEvent::Schedule(v) => r == Ok::<ScheduleEvent, TimelyEvent>(v),
                _ => r == Err::<ScheduleEvent, TimelyEvent>(self),
            },
    {
        if let Self::Schedule(v) = self {
            Ok(v)
        } else {
            Err(self)
        }
    }

    /// Returns `true` if the event is [`TimelyEvent::Shutdown`].
    pub fn is_shutdown(&self) -> (r: bool)
        ensures
            r == (self is Shutdown),
    {
        matches!(self, Self::Shutdown(..))
    }

    /// Narrows to the [`TimelyEvent::Shutdown`] payload without consuming the event.
    pub fn as_shutdown(&self) -> (r: Option<&ShutdownEvent>)
        ensures
            match self {
                TimelyEvent::Shutdown(v) => r == Some(v),
                _ => r is None,
            },
    {
        if let Self::Shutdown(v) = self {
            Some(v)
        } else {
            None
        }
    }

    /// Extracts the [`TimelyEvent::Shutdown`] payload, handing the event back
    /// unchanged on a kind mismatch.
    pub fn try_into_shutdown(self) -> (r: Result<ShutdownEvent, TimelyEvent>)
        ensures
            match self {
                TimelyEvent::Shutdown(v) => r == Ok::<ShutdownEvent, TimelyEvent>(v),
                _ => r == Err::<ShutdownEvent, TimelyEvent>(self),
            },
    {
        if let Self::Shutdown(v) = self {
            Ok(v)
        } else {
            Err(self)
        }
    }

    /// Returns `true` if the event is [`TimelyEvent::Application`].
    pub fn is_application(&self) -> (r: bool)
        ensures
            r == (self is Application),
    {
        matches!(self, Self::Application(..))
    }

    /// Narrows to the [`TimelyEvent::Application`] payload without consuming the event.
    pub fn as_application(&self) -> (r: Option<&ApplicationEvent>)
        ensures
            match self {
                TimelyEvent::Application(v) => r == Some(v),
                _ => r is None,
            },
    {
        if let Self::Application(v) = self {
            Some(v)
        } else {
            None
        }
    }

    /// Extracts the [`TimelyEvent::Application`] payload, handing the event back
    /// unchanged on a kind mismatch.
    pub fn try_into_application(self) -> (r: Result<ApplicationEvent, TimelyEvent>)
        ensures
            match self {
                TimelyEvent::Application(v) => r == Ok::<ApplicationEvent, TimelyEvent>(v),
                _ => r == Err::<ApplicationEvent, TimelyEvent>(self),
            },
    {
        if let Self::Application(v) = self {
            Ok(v)
        } else {
            Err(self)
        }
    }

    /// Returns `true` if the event is [`TimelyEvent::GuardedMessage`].
    pub fn is_guarded_message(&self) -> (r: bool)
        ensures
            r == (self is GuardedMessage),
    {
        matches!(self, Self::GuardedMessage(..))
    }

    /// Narrows to the [`TimelyEvent::GuardedMessage`] payload without consuming the event.
    pub fn as_guarded_message(&self) -> (r: Option<&GuardedMessageEvent>)
        ensures
            match self {
                TimelyEvent::GuardedMessage(v) => r == Some(v),
                _ => r is None,
            },
    {
        if let Self::GuardedMessage(v) = self {
            Some(v)
        } else {
            None
        }
    }

    /// Extracts the [`TimelyEvent::GuardedMessage`] payload, handing the event back
    /// unchanged on a kind mismatch.
    pub fn try_into_guarded_message(self) -> (r: Result<GuardedMessageEvent, TimelyEvent>)
        ensures
            match self {
                TimelyEvent::GuardedMessage(v) => r == Ok::<GuardedMessageEvent, TimelyEvent>(v),
                _ => r == Err::<GuardedMessageEvent, TimelyEvent>(self),
            },
    {
        if let Self::GuardedMessage(v) = self {
            Ok(v)
        } else {
            Err(self)
        }
    }

    /// Returns `true` if the event is [`TimelyEvent::GuardedProgress`].
    pub fn is_guarded_progress(&self) -> (r: bool)
        ensures
            r == (self is GuardedProgress),
    {
        matches!(self, Self::GuardedProgress(..))
    }

    /// Narrows to the [`TimelyEvent::GuardedProgress`] payload without consuming the event.
    pub fn as_guarded_progress(&self) -> (r: Option<&GuardedProgressEvent>)
        ensures
            match self {
                TimelyEvent::GuardedProgress(v) => r == Some(v),
                _ => r is None,
            },
    {
        if let Self::GuardedProgress(v) = self {
            Some(v)
        } else {
            None
        }
    }

    /// Extracts the [`TimelyEvent::GuardedProgress`] payload, handing the event back
    /// unchanged on a kind mismatch.
    pub fn try_into_guarded_progress(self) -> (r: Result<GuardedProgressEvent, TimelyEvent>)
        ensures
            match self {
                TimelyEvent::GuardedProgress(v) => r == Ok::<GuardedProgressEvent, TimelyEvent>(v),
                _ => r == Err::<GuardedProgressEvent, TimelyEvent>(self),
            },
    {
        if let Self::GuardedProgress(v) = self {
            Ok(v)
        } else {
            Err(self)
        }
    }

    /// Returns `true` if the event is [`TimelyEvent::CommChannels`].
    pub fn is_comm_channels(&self) -> (r: bool)
        ensures
            r == (self is CommChannels),
    {
        matches!(self, Self::CommChannels(..))
    }

    /// Narrows to the [`TimelyEvent::CommChannels`] payload without consuming the event.
    pub fn as_comm_channels(&self) -> (r: Option<&CommChannelsEvent>)
        ensures
            match self {
                TimelyEvent::CommChannels(v) => r == Some(v),
                _ => r is None,
            },
    {
        if let Self::CommChannels(v) = self {
            Some(v)
        } else {
            None
        }
    }

    /// Extracts the [`TimelyEvent::CommChannels`] payload, handing the event back
    /// unchanged on a kind mismatch.
    pub fn try_into_comm_channels(self) -> (r: Result<CommChannelsEvent, TimelyEvent>)
        ensures
            match self {
                TimelyEvent::CommChannels(v) => r == Ok::<CommChannelsEvent, TimelyEvent>(v),
                _ => r == Err::<CommChannelsEvent, TimelyEvent>(self),
            },
    {
        if let Self::CommChannels(v) = self {
            Ok(v)
        } else {
            Err(self)
        }
    }

    /// Returns `true` if the event is [`TimelyEvent::Input`].
    pub fn is_input(&self) -> (r: bool)
        ensures
            r == (self is Input),
    {
        matches!(self, Self::Input(..))
    }

    /// Narrows to the [`TimelyEvent::Input`] payload without consuming the event.
    pub fn as_input(&self) -> (r: Option<&InputEvent>)
        ensures
            match self {
                TimelyEvent::Input(v) => r == Some(v),
                _ => r is None,
            },
    {
        if let Self::Input(v) = self {
            Some(v)
        } else {
            None
        }
    }

    /// Extracts the [`TimelyEvent::Input`] payload, handing the event back
    /// unchanged on a kind mismatch.
    pub fn try_into_input(self) -> (r: Result<InputEvent, TimelyEvent>)
        ensures
            match self {
                TimelyEvent::Input(v) => r == Ok::<InputEvent, TimelyEvent>(v),
                _ => r == Err::<InputEvent, TimelyEvent>(self),
            },
    {
        if let Self::Input(v) = self {
            Ok(v)
        } else {
            Err(self)
        }
    }

    /// Returns `true` if the event is [`TimelyEvent::Park`].
    pub fn is_park(&self) -> (r: bool)
        ensures
            r == (self is Park),
    {
        matches!(self, Self::Park(..))
    }

    /// Narrows to the [`TimelyEvent::Park`] payload without consuming the event.
    pub fn as_park(&self) -> (r: Option<&ParkEvent>)
        ensures
            match self {
                TimelyEvent::Park(v) => r == Some(v),
                _ => r is None,
            },
    {
        if let Self::Park(v) = self {
            Some(v)
        } else {
            None
        }
    }

    /// Extracts the [`TimelyEvent::Park`] payload, handing the event back
    /// unchanged on a kind mismatch.
    pub fn try_into_park(self) -> (r: Result<ParkEvent, TimelyEvent>)
        ensures
            match self {
                TimelyEvent::Park(v) => r == Ok::<ParkEvent, TimelyEvent>(v),
                _ => r == Err::<ParkEvent, TimelyEvent>(self),
            },
    {
        if let Self::Park(v) = self {
            Ok(v)
        } else {
            Err(self)
        }
    }

    /// Returns `true` if the event is [`TimelyEvent::Text`].
    pub fn is_text(&self) -> (r: bool)
        ensures
            r == (self is Text),
    {
        matches!(self, Self::Text(..))
    }

    /// Narrows to the [`TimelyEvent::Text`] payload without consuming the event.
    pub fn as_text(&self) -> (r: Option<&String>)
        ensures
            match self {
                TimelyEvent::Text(v) => r == Some(v),
                _ => r is None,
            },
    {
        if let Self::Text(v) = self {
            Some(v)
        } else {
            None
        }
    }

    /// Extracts the [`TimelyEvent::Text`] payload, handing the event back
    /// unchanged on a kind mismatch.
    pub fn try_into_text(self) -> (r: Result<String, TimelyEvent>)
        ensures
            match self {
                TimelyEvent::Text(v) => r == Ok::<String, TimelyEvent>(v),
                _ => r == Err::<String, TimelyEvent>(self),
            },
    {
        if let Self::Text(v) = self {
            Ok(v)
        } else {
            Err(self)
        }
    }

}


/// A batch of updates was added to an arrangement.
#[derive(Debug, Clone, Copy, PartialEq, Eq, Hash, Structural)]
pub struct BatchEvent {
    pub operator: usize,
    pub length: usize,
}

/// Two arrangement batches at a scale were merged; `complete` holds the
/// resulting size once the merge has finished, and is `None` while the merge
/// is still in progress.
#[derive(Debug, Clone, Copy, PartialEq, Eq, Hash, Structural)]
pub struct MergeEvent {
    pub operator: usize,
    pub scale: usize,
    pub length1: usize,
    pub length2: usize,
    pub complete: Option<usize>,
}

/// A merge at a scale fell short of its target by `shortfall` updates.
#[derive(Debug, Clone, Copy, PartialEq, Eq, Hash, Structural)]
pub struct MergeShortfallEvent {
    pub operator: usize,
    pub scale: usize,
    pub shortfall: usize,
}

/// A batch of updates was dropped from an arrangement.
#[derive(Debug, Clone, Copy, PartialEq, Eq, Hash, Structural)]
pub struct DropEvent {
    pub operator: usize,
    pub length: usize,
}

/// An arrangement trace handle was shared with or returned by another
/// operator.
#[derive(Debug, Clone, Copy, PartialEq, Eq, Hash, Structural)]
pub struct TraceShareEvent {
    pub operator: usize,
    pub diff: isize,
}

/// The arrangement-plane event family: a closed tagged union, exhaustively
/// matched by every consumer so that a new kind forces compile-time updates.
#[derive(Debug, Clone, Copy, PartialEq, Eq, Hash, Structural)]
pub enum DifferentialEvent {
    Batch(BatchEvent),
    Merge(MergeEvent),
    MergeShortfall(MergeShortfallEvent),
    Drop(DropEvent),
    TraceShare(TraceShareEvent),
}

impl DifferentialEvent {
    /// Returns `true` if the event is [`DifferentialEvent::Batch`].
    pub fn is_batch(&self) -> (r: bool)
        ensures
            r == (self is Batch),
    {
        matches!(self, Self::Batch(..))
    }

    /// Narrows to the [`DifferentialEvent::Batch`] payload without consuming the event.
    pub fn as_batch(&self) -> (r: Option<&BatchEvent>)
        ensures
            match self {
                DifferentialEvent::Batch(v) => r == Some(v),
                _ => r is None,
            },
    {
        if let Self::Batch(v) = self {
            Some(v)
        } else {
            None
        }
    }

    /// Extracts the [`DifferentialEvent::Batch`] payload, handing the event
    /// back unchanged on a kind mismatch.
    pub fn try_into_batch(self) -> (r: Result<BatchEvent, DifferentialEvent>)
        ensures
            match self {
                DifferentialEvent::Batch(v) => r == Ok::<BatchEvent, DifferentialEvent>(v),
                _ => r == Err::<BatchEvent, DifferentialEvent>(self),
            },
    {
        if let Self::Batch(v) = self {
            Ok(v)
        } else {
            Err(self)
        }
    }

    /// Returns `true` if the event is [`DifferentialEvent::Merge`].
    pub fn is_merge(&self) -> (r: bool)
        ensures
            r == (self is Merge),
    {
        matches!(self, Self::Merge(..))
    }

    /// Narrows to the [`DifferentialEvent::Merge`] payload without consuming the event.
    pub fn as_merge(&self) -> (r: Option<&MergeEvent>)
        ensures
            match self {
                DifferentialEvent::Merge(v) => r == Some(v),
                _ => r is None,
            },
    {
        if let Self::Merge(v) = self {
            Some(v)
        } else {
            None
        }
    }

    /// Extracts the [`DifferentialEvent::Merge`] payload, handing the event
    /// back unchanged on a kind mismatch.
    pub fn try_into_merge(self) -> (r: Result<MergeEvent, DifferentialEvent>)
        ensures
            match self {
                DifferentialEvent::Merge(v) => r == Ok::<MergeEvent, DifferentialEvent>(v),
                _ => r == Err::<MergeEvent, DifferentialEvent>(self),
            },
    {
        if let Self::Merge(v) = self {
            Ok(v)
        } else {
            Err(self)
        }
    }

    /// Returns `true` if the event is [`DifferentialEvent::MergeShortfall`].
    pub fn is_merge_shortfall(&self) -> (r: bool)
        ensures
            r == (self is MergeShortfall),
    {
        matches!(self, Self::MergeShortfall(..))
    }

    /// Narrows to the [`DifferentialEvent::MergeShortfall`] payload without consuming the event.
    pub fn as_merge_shortfall(&self) -> (r: Option<&MergeShortfallEvent>)
        ensures
            match self {
                DifferentialEvent::MergeShortfall(v) => r == Some(v),
                _ => r is None,
            },
    {
        if let Self::MergeShortfall(v) = self {
            Some(v)
        } else {
            None
        }
    }

    /// Extracts the [`DifferentialEvent::MergeShortfall`] payload, handing the event
    /// back unchanged on a kind mismatch.
    pub fn try_into_merge_shortfall(self) -> (r: Result<MergeShortfallEvent, DifferentialEvent>)
        ensures
            match self {
                DifferentialEvent::MergeShortfall(v) => r == Ok::<MergeShortfallEvent, DifferentialEvent>(v),
                _ => r == Err::<MergeShortfallEvent, DifferentialEvent>(self),
            },
    {
        if let Self::MergeShortfall(v) = self {
            Ok(v)
        } else {
            Err(self)
        }
    }

    /// Returns `true` if the event is [`DifferentialEvent::Drop`].
    pub fn is_drop(&self) -> (r: bool)
        ensures
            r == (self is Drop),
    {
        matches!(self, Self::Drop(..))
    }

    /// Narrows to the [`DifferentialEvent::Drop`] payload without consuming the event.
    pub fn as_drop(&self) -> (r: Option<&DropEvent>)
        ensures
            match self {
                DifferentialEvent::Drop(v) => r == Some(v),
                _ => r is None,
            },
    {
        if let Self::Drop(v) = self {
            Some(v)
        } else {
            None
        }
    }

    /// Extracts the [`DifferentialEvent::Drop`] payload, handing the event
    /// back unchanged on a kind mismatch.
    pub fn try_into_drop(self) -> (r: Result<DropEvent, DifferentialEvent>)
        ensures
            match self {
                DifferentialEvent::Drop(v) => r == Ok::<DropEvent, DifferentialEvent>(v),
                _ => r == Err::<DropEvent, DifferentialEvent>(self),
            },
    {
        if let Self::Drop(v) = self {
            Ok(v)
        } else {
            Err(self)
        }
    }

    /// Returns `true` if the event is [`DifferentialEvent::TraceShare`].
    pub fn is_trace_share(&self) -> (r: bool)
        ensures
            r == (self is TraceShare),
    {
        matches!(self, Self::TraceShare(..))
    }

    /// Narrows to the [`DifferentialEvent::TraceShare`] payload without consuming the event.
    pub fn as_trace_share(&self) -> (r: Option<&TraceShareEvent>)
        ensures
            match self {
                DifferentialEvent::TraceShare(v) => r == Some(v),
                _ => r is None,
            },
    {
        if let Self::TraceShare(v) = self {
            Some(v)
        } else {
            None
        }
    }

    /// Extracts the [`DifferentialEvent::TraceShare`] payload, handing the event
    /// back unchanged on a kind mismatch.
    pub fn try_into_trace_share(self) -> (r: Result<TraceShareEvent, DifferentialEvent>)
        ensures
            match self {
                DifferentialEvent::TraceShare(v) => r == Ok::<TraceShareEvent, DifferentialEvent>(v),
                _ => r == Err::<TraceShareEvent, DifferentialEvent>(self),
            },
    {
        if let Self::TraceShare(v) = self {
            Ok(v)
        } else {
            Err(self)
        }
    }

}

impl From<OperatesEvent> for TimelyEvent {
    fn from(v: OperatesEvent) -> TimelyEvent {
        TimelyEvent::Operates(v)
    }
}

impl vstd::std_specs::convert::FromSpecImpl<OperatesEvent> for TimelyEvent {
    open spec fn obeys_from_spec() -> bool {
        true
    }

    open spec fn from_spec(v: OperatesEvent) -> TimelyEvent {
        TimelyEvent::Operates(v)
    }
}

impl From<ChannelsEvent> for TimelyEvent {
    fn from(v: ChannelsEvent) -> TimelyEvent {
        TimelyEvent::Channels(v)
    }
}

impl vstd::std_specs::convert::FromSpecImpl<ChannelsEvent> for TimelyEvent {
    open spec fn obeys_from_spec() -> bool {
        true
    }

    open spec fn from_spec(v: ChannelsEvent) -> TimelyEvent {
        TimelyEvent::Channels(v)
    }
}

impl From<PushProgressEvent> for TimelyEvent {
    fn from(v: PushProgressEvent) -> TimelyEvent {
        TimelyEvent::PushProgress(v)
    }
}

impl vstd::std_specs::convert::FromSpecImpl<PushProgressEvent> for TimelyEvent {
    open spec fn obeys_from_spec() -> bool {
        true
    }

    open spec fn from_spec(v: PushProgressEvent) -> TimelyEvent {
        TimelyEvent::PushProgress(v)
    }
}

impl From<MessagesEvent> for TimelyEvent {
    fn from(v: MessagesEvent) -> TimelyEvent {
        TimelyEvent::Messages(v)
    }
}

impl vstd::std_specs::convert::FromSpecImpl<MessagesEvent> for TimelyEvent {
    open spec fn obeys_from_spec() -> bool {
        true
    }

    open spec fn from_spec(v: MessagesEvent) -> TimelyEvent {
        TimelyEvent::Messages(v)
    }
}

impl From<ScheduleEvent> for TimelyEvent {
    fn from(v: ScheduleEvent) -> TimelyEvent {
        TimelyEvent::Schedule(v)
    }
}

impl vstd::std_specs::convert::FromSpecImpl<ScheduleEvent> for TimelyEvent {
    open spec fn obeys_from_spec() -> bool {
        true
    }

    open spec fn from_spec(v: ScheduleEvent) -> TimelyEvent {
        TimelyEvent::Schedule(v)
    }
}

impl From<ShutdownEvent> for TimelyEvent {
    fn from(v: ShutdownEvent) -> TimelyEvent {
        TimelyEvent::Shutdown(v)
    }
}

impl vstd::std_specs::convert::FromSpecImpl<ShutdownEvent> for TimelyEvent {
    open spec fn obeys_from_spec() -> bool {
        true
    }

    open spec fn from_spec(v: ShutdownEvent) -> TimelyEvent {
        TimelyEvent::Shutdown(v)
    }
}

impl From<ApplicationEvent> for TimelyEvent {
    fn from(v: ApplicationEvent) -> TimelyEvent {
        TimelyEvent::Application(v)
    }
}

impl vstd::std_specs::convert::FromSpecImpl<ApplicationEvent> for TimelyEvent {
    open spec fn obeys_from_spec() -> bool {
        true
    }

    open spec fn from_spec(v: ApplicationEvent) -> TimelyEvent {
        TimelyEvent::Application(v)
    }
}

impl From<GuardedMessageEvent> for TimelyEvent {
    fn from(v: GuardedMessageEvent) -> TimelyEvent {
        TimelyEvent::GuardedMessage(v)
    }
}

impl vstd::std_specs::convert::FromSpecImpl<GuardedMessageEvent> for TimelyEvent {
    open spec fn obeys_from_spec() -> bool {
        true
    }

    open spec fn from_spec(v: GuardedMessageEvent) -> TimelyEvent {
        TimelyEvent::GuardedMessage(v)
    }
}

impl From<GuardedProgressEvent> for TimelyEvent {
    fn from(v: GuardedProgressEvent) -> TimelyEvent {
        TimelyEvent::GuardedProgress(v)
    }
}

impl vstd::std_specs::convert::FromSpecImpl<GuardedProgressEvent> for TimelyEvent {
    open spec fn obeys_from_spec() -> bool {
        true
    }

    open spec fn from_spec(v: GuardedProgressEvent) -> TimelyEvent {
        TimelyEvent::GuardedProgress(v)
    }
}

impl From<CommChannelsEvent> for TimelyEvent {
    fn from(v: CommChannelsEvent) -> TimelyEvent {
        TimelyEvent::CommChannels(v)
    }
}

impl vstd::std_specs::convert::FromSpecImpl<CommChannelsEvent> for TimelyEvent {
    open spec fn obeys_from_spec() -> bool {
        true
    }

    open spec fn from_spec(v: CommChannelsEvent) -> TimelyEvent {
        TimelyEvent::CommChannels(v)
    }
}

impl From<InputEvent> for TimelyEvent {
    fn from(v: InputEvent) -> TimelyEvent {
        TimelyEvent::Input(v)
    }
}

impl vstd::std_specs::convert::FromSpecImpl<InputEvent> for TimelyEvent {
    open spec fn obeys_from_spec() -> bool {
        true
    }

    open spec fn from_spec(v: InputEvent) -> TimelyEvent {
        TimelyEvent::Input(v)
    }
}

impl From<ParkEvent> for TimelyEvent {
    fn from(v: ParkEvent) -> TimelyEvent {
        TimelyEvent::Park(v)
    }
}

impl vstd::std_specs::convert::FromSpecImpl<ParkEvent> for TimelyEvent {
    open spec fn obeys_from_spec() -> bool {
        true
    }

    open spec fn from_spec(v: ParkEvent) -> TimelyEvent {
        TimelyEvent::Park(v)
    }
}

} // verus!
