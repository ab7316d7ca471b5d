//! The shipper: its configuration, its buffer, and the decisions of its
//! flush loop.

use vstd::prelude::*;
use crate::buffer::{drained, law_drain_keeps_every_event, retained, EventBuffer};
use crate::connection_string::{
    key_part, law_resolved_settings_are_complete, parse_connection_string, resolve, split_item,
    value_part, ConfigError, SettingsView, DEFAULT_FLUSH_CHUNK, DEFAULT_FLUSH_SLEEP,
};
use crate::event::LogEvent;
use crate::sdk::{DeliveryOutcome, IngestRoute};

verus! {

/// Where the flush loop of a shipper stands.
#[derive(Clone, Copy, Debug, PartialEq, Eq, Structural)]
pub enum FlushState {
    /// The loop was not started yet.
    NotStarted,
    /// The loop runs, and no batch is on its way.
    Idle,
    /// The loop runs, and a batch of this many events is on its way.
    Flushing { events_amount: usize },
}

/// What the owner of the flush loop has to do next.
#[derive(Clone, Debug, PartialEq, Eq)]
pub enum FlushAction {
    /// Nothing was pending: sleep, then read again.
    Sleep { seconds: u64 },
    /// Deliver this batch, tell the outcome, then read again at once.
    Deliver { events: Vec<LogEvent> },
    /// A batch is still on its way: tell its outcome first.
    AwaitDelivery,
    /// The loop was not started: nothing is read before it is.
    AwaitStart,
}

/// A batch that was dropped because its delivery failed.
#[derive(Clone, Copy, Debug, PartialEq, Eq, Structural)]
pub struct SkippedBatch {
    pub events_amount: usize,
}

/// A shipper: where to send, how much at once, how long to rest, what is
/// pending, and where its one flush loop stands.
///
/// The buffer and the loop's state are the shipper's own: events enter
/// through `write_log` and leave through `read_log`, and the loop is
/// started by `start` alone.
#[derive(Debug)]
pub struct SeqLogger {
    pub url: String,
    pub api_key: Option<String>,
    pub max_logs_flush_chunk: usize,
    /// Seconds to sleep after the buffer was found empty.
    pub flush_delay: u64,
    pub app: String,
    pub route: IngestRoute,
    log_events: EventBuffer,
    flush_state: FlushState,
}

/// A shipper as mathematical values.
pub struct SeqLoggerView {
    pub url: Seq<char>,
    pub api_key: Option<Seq<char>>,
    pub max_logs_flush_chunk: nat,
    pub flush_delay: nat,
    pub app: Seq<char>,
    pub route: IngestRoute,
    /// The pending events, oldest first.
    pub pending: Seq<LogEvent>,
    pub flush_state: FlushState,
}

/// The shipper that resolved `settings` give for the application `app`:
/// nothing pending, events sent to the raw-events route, the loop not
/// started.
pub open spec fn configured(settings: SettingsView, app: Seq<char>) -> SeqLoggerView
    recommends
        settings.url is Some,
{
    SeqLoggerView {
        url: settings.url->Some_0,
        api_key: settings.api_key,
        max_logs_flush_chunk: settings.max_logs_flush_chunk,
        flush_delay: settings.flush_delay,
        app,
        route: IngestRoute::RawEvents,
        pending: Seq::empty(),
        flush_state: FlushState::NotStarted,
    }
}

/// The shipper after `start`: a loop that was not started is idle now, one
/// that runs is left as it is. Nothing else changes.
pub open spec fn after_start(logger: SeqLoggerView) -> SeqLoggerView {
    SeqLoggerView {
        flush_state: if logger.flush_state == FlushState::NotStarted {
            FlushState::Idle
        } else {
            logger.flush_state
        },
        ..logger
    }
}

/// The batch that a read takes: the oldest events, up to the shipper's
/// batch size.
pub open spec fn next_batch(logger: SeqLoggerView) -> Seq<LogEvent> {
    drained(logger.pending, logger.max_logs_flush_chunk)
}

/// The shipper after a read. Only an idle loop that finds events takes
/// them and is flushing then; in every other state nothing changes.
pub open spec fn after_read(logger: SeqLoggerView) -> SeqLoggerView {
    if logger.flush_state == FlushState::Idle && logger.pending.len() > 0 {
        SeqLoggerView {
            pending: retained(logger.pending, logger.max_logs_flush_chunk),
            flush_state: FlushState::Flushing { events_amount: next_batch(logger).len() as usize },
            ..logger
        }
    } else {
        logger
    }
}

/// The shipper after the end of a delivery: a flushing loop is idle again,
/// whatever the outcome. Nothing else changes; the buffer least of all.
pub open spec fn after_delivery(logger: SeqLoggerView) -> SeqLoggerView {
    SeqLoggerView {
        flush_state: if logger.flush_state is Flushing {
            FlushState::Idle
        } else {
            logger.flush_state
        },
        ..logger
    }
}

/// The report on a delivery that ended with `outcome` in state `state`.
pub open spec fn report_of(state: FlushState, outcome: DeliveryOutcome) -> Option<SkippedBatch> {
    match state {
        FlushState::Flushing { events_amount } => if outcome == DeliveryOutcome::Failed {
            Some(SkippedBatch { events_amount })
        } else {
            None
        },
        _ => None,
    }
}

/// A shipper has one flush loop: the first `start` starts it, and every
/// later one finds it started and changes nothing.
pub proof fn law_one_loop_per_shipper(logger: SeqLoggerView)
    ensures
        after_start(logger).flush_state != FlushState::NotStarted,
        after_start(after_start(logger)) == after_start(logger),
        after_read(logger).flush_state == FlushState::NotStarted <==> logger.flush_state
            == FlushState::NotStarted,
        after_delivery(logger).flush_state == FlushState::NotStarted <==> logger.flush_state
            == FlushState::NotStarted,
{
}

/// At most one batch is on its way: while the loop is flushing, a read
/// takes nothing and leaves the shipper as it is, however often `start` was
/// called in between.
pub proof fn law_one_batch_in_flight(logger: SeqLoggerView)
    requires
        logger.flush_state is Flushing,
    ensures
        after_read(logger) == logger,
        after_start(logger) == logger,
        after_read(after_start(logger)) == logger,
{
}

/// A batch leaves the buffer when it is read, before its delivery starts,
/// and no outcome brings it back: a failure is reported with the batch's
/// size, a delivery is not reported, and either way the buffer holds what
/// the read left and the loop is idle.
pub proof fn law_failed_batch_is_dropped(logger: SeqLoggerView, outcome: DeliveryOutcome)
    requires
        logger.flush_state == FlushState::Idle,
        logger.pending.len() > 0,
    ensures
        after_read(logger).flush_state == (FlushState::Flushing {
            events_amount: next_batch(logger).len() as usize,
        }),
        next_batch(logger) + after_read(logger).pending == logger.pending,
        after_delivery(after_read(logger)).pending == retained(
            logger.pending,
            logger.max_logs_flush_chunk,
        ),
        after_delivery(after_read(logger)).flush_state == FlushState::Idle,
        report_of(after_read(logger).flush_state, DeliveryOutcome::Failed) == Some(
            SkippedBatch { events_amount: next_batch(logger).len() as usize },
        ),
        report_of(after_read(logger).flush_state, DeliveryOutcome::Delivered) == None::<
            SkippedBatch,
        >,
{
    law_drain_keeps_every_event(logger.pending, logger.max_logs_flush_chunk);
}

impl View for SeqLogger {
    type V = SeqLoggerView;

    closed spec fn view(&self) -> SeqLoggerView {
        SeqLoggerView {
            url: self.url@,
            api_key: match self.api_key {
                Some(key) => Some(key@),
                None => None,
            },
            max_logs_flush_chunk: self.max_logs_flush_chunk as nat,
            flush_delay: self.flush_delay as nat,
            app: self.app@,
            route: self.route,
            pending: self.log_events@,
            flush_state: self.flush_state,
        }
    }
}

impl SeqLogger {
    /// A shipper for `url` with the default batch size and flush delay,
    /// nothing pending and its loop not started.
    pub fn new(url: String, api_key: Option<String>, app: String) -> (logger: Self)
        ensures
            logger@ == (SeqLoggerView {
                url: url@,
                api_key: match api_key {
                    Some(key) => Some(key@),
                    None => None,
                },
                max_logs_flush_chunk: DEFAULT_FLUSH_CHUNK as nat,
                flush_delay: DEFAULT_FLUSH_SLEEP as nat,
                app: app@,
                route: IngestRoute::RawEvents,
                pending: Seq::empty(),
                flush_state: FlushState::NotStarted,
            }),
    {
        Self {
            url,
            api_key,
            max_logs_flush_chunk: DEFAULT_FLUSH_CHUNK,
            flush_delay: DEFAULT_FLUSH_SLEEP,
            app,
            route: IngestRoute::RawEvents,
            log_events: EventBuffer::new(),
            flush_state: FlushState::NotStarted,
        }
    }

    /// A shipper for what the descriptor resolves to.
    ///
    /// Fails exactly where the descriptor does not resolve, with the reason.
    pub fn from_connection_string(connection_string: &str, app: String) -> (outcome: Result<
        Self,
        ConfigError,
    >)
        ensures
            match outcome {
                Ok(logger) => resolve(connection_string@) matches Ok(settings) && logger@
                    == configured(settings, app@),
                Err(error) => resolve(connection_string@) == Err::<SettingsView, ConfigError>(
                    error,
                ),
            },
            outcome matches Ok(logger) ==> logger@.max_logs_flush_chunk >= 1
                && logger@.flush_delay >= 1,
    {
        proof {
            law_resolved_settings_are_complete(connection_string@);
        }
        match parse_connection_string(connection_string) {
            Err(error) => Err(error),
            Ok(settings) => {
                Ok(
                    Self {
                        url: settings.url.unwrap(),
                        api_key: settings.api_key,
                        max_logs_flush_chunk: settings.max_logs_flush_chunk,
                        flush_delay: settings.flush_delay,
                        app,
                        route: IngestRoute::RawEvents,
                        log_events: EventBuffer::new(),
                        flush_state: FlushState::NotStarted,
                    },
                )
            },
        }
    }

    /// The same shipper, sending to `route`.
    pub fn with_route(self, route: IngestRoute) -> (logger: Self)
        ensures
            logger@ == (SeqLoggerView { route, ..self@ }),
    {
        let mut logger = self;
        logger.route = route;
        logger
    }

    /// The number of pending events.
    pub fn pending_len(&self) -> (len: usize)
        ensures
            len == self@.pending.len(),
    {
        self.log_events.len()
    }

    /// Where the flush loop stands.
    pub fn flush_state(&self) -> (state: FlushState)
        ensures
            state == self@.flush_state,
    {
        self.flush_state
    }

    /// Puts `log_event` behind everything that is pending. Never fails.
    pub fn write_log(&mut self, log_event: LogEvent)
        ensures
            final(self)@ == (SeqLoggerView {
                pending: old(self)@.pending.push(log_event),
                ..old(self)@
            }),
    {
        self.log_events.append(log_event);
    }

    /// Starts the shipper's flush loop, unless it was started before.
    ///
    /// Returns whether this call started it: the caller that gets `true` is
    /// the one owner of the loop and runs it; a caller that gets `false`
    /// runs nothing. The settings and the buffer are left as they are.
    pub fn start(&mut self) -> (started: bool)
        ensures
            started <==> old(self)@.flush_state == FlushState::NotStarted,
            final(self)@ == after_start(old(self)@),
    {
        match self.flush_state {
            FlushState::NotStarted => {
                self.flush_state = FlushState::Idle;
                true
            },
            _ => false,
        }
    }

    /// One read of the buffer by the flush loop.
    ///
    /// An idle loop takes up to `max_logs_flush_chunk` of the oldest
    /// events: where there are none it stays idle and asks for a sleep of
    /// `flush_delay` seconds, else it asks for their delivery and is
    /// flushing. While a batch is on its way, and before the loop was
    /// started, nothing is read.
    pub fn read_log(&mut self) -> (action: FlushAction)
        ensures
            final(self)@ == after_read(old(self)@),
            match action {
                FlushAction::Sleep { seconds } => old(self)@.flush_state == FlushState::Idle
                    && old(self)@.pending.len() == 0 && seconds == old(self)@.flush_delay,
                FlushAction::Deliver { events } => old(self)@.flush_state == FlushState::Idle
                    && old(self)@.pending.len() > 0 && events@ == next_batch(old(self)@),
                FlushAction::AwaitDelivery => old(self)@.flush_state is Flushing,
                FlushAction::AwaitStart => old(self)@.flush_state == FlushState::NotStarted,
            },
    {
        match self.flush_state {
            FlushState::NotStarted => FlushAction::AwaitStart,
            FlushState::Flushing { .. } => FlushAction::AwaitDelivery,
            FlushState::Idle => match self.log_events.drain(self.max_logs_flush_chunk) {
                None => {
                    assert(self.log_events@ =~= old(self).log_events@);
                    FlushAction::Sleep { seconds: self.flush_delay }
                },
                Some(events) => {
                    self.flush_state = FlushState::Flushing { events_amount: events.len() };
                    FlushAction::Deliver { events }
                },
            },
        }
    }

    /// The end of a delivery.
    ///
    /// A flushing loop is idle again whatever the outcome: a batch whose
    /// delivery failed is dropped, and reported so that the owner can say
    /// so. The buffer is not touched.
    pub fn flush_events(&mut self, outcome: DeliveryOutcome) -> (report: Option<SkippedBatch>)
        ensures
            final(self)@ == after_delivery(old(self)@),
            report == report_of(old(self)@.flush_state, outcome),
    {
        match self.flush_state {
            FlushState::Flushing { events_amount } => {
                self.flush_state = FlushState::Idle;
                match outcome {
                    DeliveryOutcome::Failed => Some(SkippedBatch { events_amount }),
                    DeliveryOutcome::Delivered => None,
                }
            },
            _ => None,
        }
    }
}

/// Splits an item at its first `=` into key and value.
pub fn spit_key_value(item: &str) -> (pair: (&str, &str))
    requires
        item@.contains('='),
    ensures
        pair.0@ == key_part(item@),
        pair.1@ == value_part(item@),
        !pair.0@.contains('='),
        item@ == pair.0@ + seq!['='] + pair.1@,
{
    proof {
        crate::text::lemma_first_index(item@, '=');
        crate::text::lemma_first_index(key_part(item@), '=');
        assert(item@ =~= key_part(item@) + seq!['='] + value_part(item@));
    }
    split_item(item).unwrap()
}

} // verus!
