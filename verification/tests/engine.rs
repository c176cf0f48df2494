//! Engine behaviour a worker depends on: streaming, cancellation, backpressure,
//! and that whatever ends a request leaves the engine able to serve the next.
//!
//! The model here is a script: each prompt is a number of tokens and the pieces
//! that follow it.

use std::collections::{HashMap, HashSet, VecDeque};
use std::path::PathBuf;

use llm_worker::engine::{
    plan_prompt, Admission, Admit, Arrival, Capacity, ContextPlan, Engine, EngineConfig, Enqueue,
    Event, Float32, Flush, GenerateRequest, Message, ModelInfo, ModelSource, PieceDecoder,
    PrefillError, Prefilled, PromptRow, Report, Runtime, Sampled, Sampling, SendOutcome, Slot, Stop,
    SubmitError, Task,
};

const SECOND_NS: u64 = 1_000_000_000;

fn config(slots: usize, n_ctx: u32) -> EngineConfig {
    EngineConfig { max_inflight: slots, n_ctx, ..EngineConfig::default() }
}

fn info(n_ctx: u32) -> ModelInfo {
    ModelInfo { path: PathBuf::from("model.gguf"), n_params: 800, n_layer: 24, n_ctx }
}

/// What the model does with one prompt.
#[derive(Clone)]
struct Script {
    prompt_tokens: u32,
    max_tokens: i32,
    /// One entry per token; the model ends its generation after the last.
    pieces: Vec<&'static [u8]>,
}

/// A caller: what it received, and whether it reads.
#[derive(Default)]
struct Caller {
    events: Vec<Event>,
    full: bool,
    closed: bool,
    cancelled: bool,
    next: usize,
}

struct Desk {
    runtime: Runtime,
    config: EngineConfig,
    queue: VecDeque<u64>,
    closed: bool,
    scripts: HashMap<u64, Script>,
    callers: HashMap<u64, Caller>,
    /// Sequences the model holds state for.
    resident: HashSet<u32>,
    /// Slots whose row the batch refuses.
    refused: HashSet<usize>,
    /// Whether the next decode fails.
    broken: bool,
    claimed: Option<u64>,
    now_us: i64,
    /// Rows of the last step.
    last_rows: Vec<usize>,
}

impl Desk {
    fn new(slots: usize, n_ctx: u32) -> Desk {
        let config = config(slots, n_ctx);
        Desk {
            runtime: Runtime::new(&config, info(n_ctx)),
            config,
            queue: VecDeque::new(),
            closed: false,
            scripts: HashMap::new(),
            callers: HashMap::new(),
            resident: HashSet::new(),
            refused: HashSet::new(),
            broken: false,
            claimed: None,
            now_us: 5_000,
            last_rows: Vec::new(),
        }
    }

    fn capacity(&self) -> Capacity {
        self.runtime.engine().capacity()
    }

    fn submit(&mut self, job: u64, script: Script) -> Result<(), SubmitError> {
        let outcome = if self.closed {
            Enqueue::Closed
        } else if self.queue.len() == self.config.waiting_room() {
            Enqueue::Full
        } else {
            self.queue.push_back(job);
            self.scripts.insert(job, script);
            self.callers.insert(job, Caller::default());
            Enqueue::Accepted
        };
        self.runtime.submit(outcome)
    }

    fn offer(&mut self, job: u64, event: Event) -> SendOutcome {
        let caller = self.callers.get_mut(&job).unwrap();
        if caller.closed {
            SendOutcome::Closed
        } else if caller.full {
            SendOutcome::Full
        } else {
            caller.events.push(event);
            SendOutcome::Sent
        }
    }

    fn sample(&mut self, job: u64) -> Sampled {
        let caller = self.callers.get_mut(&job).unwrap();
        let pieces = &self.scripts[&job].pieces;
        let at = caller.next;
        caller.next += 1;
        match pieces.get(at) {
            Some(bytes) if *bytes == b"!" => Sampled::Unprintable { error: "no such token".into() },
            Some(bytes) => Sampled::Token { token: at as i32, bytes: bytes.to_vec() },
            None => Sampled::EndOfGeneration,
        }
    }

    fn arrival(&mut self) -> Arrival {
        self.claimed = self.queue.pop_front();
        match self.claimed {
            Some(job) => Arrival::Job { job, cancelled: self.callers[&job].cancelled },
            None if self.closed => Arrival::Disconnected,
            None => Arrival::Empty,
        }
    }

    fn carry_out(&mut self, task: Task) -> Report {
        match task {
            Task::Deliver { index } => {
                let (job, event) = self.runtime.engine().outbox_entry(index);
                let event = event.clone();
                Report::Delivered(self.offer(job, event))
            }
            Task::Offer { index } => {
                let (job, event) = self.runtime.engine().pending(index).expect("a piece");
                let event = event.clone();
                Report::Offered {
                    outcome: self.offer(job, event),
                    now_ns: self.now_us as u64 * 1_000,
                    now_us: self.now_us,
                }
            }
            Task::Wait => {
                assert_eq!(self.capacity().decoding, 0);
                assert_eq!(self.runtime.engine().outbox_len(), 0);
                Report::Arrived(self.arrival())
            }
            Task::Poll => Report::Arrived(self.arrival()),
            Task::Prefill { seq_id } => {
                assert!(self.resident.insert(seq_id), "sequence {seq_id} is in use");
                let job = self.claimed.take().unwrap();
                Report::Ingested { outcome: self.prefill(job, seq_id), now_us: self.now_us }
            }
            Task::Survey => {
                self.last_rows.clear();
                let engine = self.runtime.engine();
                let cancelled = (0..engine.slot_count())
                    .map(|index| engine.job_at(index).is_some_and(|job| self.callers[&job].cancelled))
                    .collect();
                Report::Surveyed { cancelled, now_us: self.now_us }
            }
            Task::Feed { row } => {
                assert!(self.resident.contains(&row.seq_id));
                if self.refused.contains(&row.index) {
                    return Report::Fed(Err("batch is full".to_string()));
                }
                self.last_rows.push(row.index);
                Report::Fed(Ok(()))
            }
            Task::Decode => {
                assert!(!self.last_rows.is_empty());
                Report::Decoded(if self.broken { Err("decode failed".to_string()) } else { Ok(()) })
            }
            Task::Sample { index, row } => {
                assert_eq!(self.last_rows[row], index);
                let job = self.runtime.engine().job_at(index).unwrap();
                Report::Sampled { sampled: self.sample(job), now_us: self.now_us }
            }
            Task::Rest => {
                assert!(self.last_rows.is_empty());
                Report::Rested
            }
            Task::Stop => unreachable!("there is nothing to do"),
        }
    }

    /// One turn of the engine loop. Returns whether it is over.
    fn turn(&mut self) -> bool {
        loop {
            let task = self.runtime.task();
            if task == Task::Stop {
                return true;
            }
            let report = self.carry_out(task);
            for seq_id in self.runtime.report(report) {
                assert!(self.resident.remove(&seq_id), "sequence {seq_id} was not in use");
            }
            let over = match task {
                Task::Rest => true,
                Task::Decode | Task::Sample { .. } => {
                    !matches!(self.runtime.task(), Task::Sample { .. })
                }
                _ => false,
            };
            if over {
                self.now_us += 1_000;
                return false;
            }
        }
    }

    fn prefill(&mut self, job: u64, seq_id: u32) -> Result<Prefilled, String> {
        let script = self.scripts[&job].clone();
        let tokens: Vec<i32> = (0..script.prompt_tokens as i32).collect();
        let rows = plan_prompt(&tokens, seq_id, self.config.n_ctx)
            .map_err(|error| error.message())?;
        Ok(Prefilled {
            prompt_tokens: rows.len() as u32,
            max_tokens: script.max_tokens,
            first: self.sample(job),
            elapsed_ms: 3,
        })
    }

    fn run(&mut self, turns: usize) {
        for _ in 0..turns {
            self.turn();
        }
    }

    fn text(&self, job: u64) -> String {
        self.callers[&job]
            .events
            .iter()
            .filter_map(|event| match event {
                Event::Token(piece) => Some(piece.as_str()),
                _ => None,
            })
            .collect()
    }

    /// The one terminal event of `job`, which is its last.
    fn last(&self, job: u64) -> &Event {
        let events = &self.callers[&job].events;
        let terminals = events.iter().filter(|event| !matches!(event, Event::Token(_))).count();
        assert_eq!(terminals, 1, "a generation ends once: {events:?}");
        events.last().unwrap()
    }

    fn done(&self, job: u64) -> (Stop, u32, u32) {
        match self.last(job) {
            Event::Done { stop, prompt_tokens, tokens, .. } => (*stop, *prompt_tokens, *tokens),
            other => panic!("expected an end, got {other:?}"),
        }
    }
}

fn ask(pieces: &[&'static str], max_tokens: i32) -> Script {
    Script {
        prompt_tokens: 10,
        max_tokens,
        pieces: pieces.iter().map(|piece| piece.as_bytes()).collect(),
    }
}

fn forever(max_tokens: i32) -> Script {
    Script { prompt_tokens: 10, max_tokens, pieces: vec![b"x"; 1_000] }
}

#[test]
fn streams_to_completion() {
    let mut desk = Desk::new(1, 512);
    desk.submit(1, ask(&["Hi", " there", "."], 64)).unwrap();
    desk.run(10);
    assert_eq!(desk.done(1), (Stop::EndOfGeneration, 10, 3));
    assert_eq!(desk.text(1), "Hi there.");
    assert!(desk.resident.is_empty());
}

#[test]
fn stops_at_the_token_limit() {
    let mut desk = Desk::new(1, 512);
    desk.submit(1, forever(8)).unwrap();
    desk.run(20);
    assert_eq!(desk.done(1), (Stop::Limit, 10, 8));
    assert_eq!(desk.text(1), "xxxxxxxx");
}

/// Asking for more tokens than the context can hold must end the generation,
/// not fail it.
#[test]
fn stops_at_the_edge_of_the_context() {
    let mut desk = Desk::new(1, 512);
    desk.submit(1, forever(4000)).unwrap();
    desk.run(600);
    assert_eq!(desk.done(1), (Stop::ContextFull, 10, 502));
    assert_eq!(desk.text(1).len(), 502);
}

/// A prompt too long to decode should say that, rather than failing somewhere
/// inside the first forward pass.
#[test]
fn rejects_a_prompt_larger_than_the_context() {
    let mut desk = Desk::new(1, 64);
    desk.submit(1, Script { prompt_tokens: 200, ..forever(16) }).unwrap();
    desk.run(3);
    match desk.last(1) {
        Event::Failed(error) => {
            assert!(error.contains("context"), "unhelpful error: {error}");
            assert_eq!(error, "prompt is 200 tokens and a slot's context is 64");
        }
        other => panic!("expected a failure, got {other:?}"),
    }
    assert_eq!(desk.capacity().inflight, 0);
}

#[test]
fn explicit_cancel_stops_generation() {
    let mut desk = Desk::new(1, 8192);
    desk.submit(1, forever(500)).unwrap();
    while desk.callers[&1].events.len() < 3 {
        desk.turn();
    }
    desk.callers.get_mut(&1).unwrap().cancelled = true;
    desk.run(3);
    let (stop, _, tokens) = desk.done(1);
    assert_eq!(stop, Stop::Cancelled);
    assert!(tokens < 500, "cancel did not take effect: {tokens} tokens");
    // What was generated before it was seen still arrives, ahead of the end.
    assert_eq!(desk.text(1).len() as u32, tokens);
}

/// The disconnected-client case: dropping the handle must free the slot, and
/// the engine must go on to serve the next request.
#[test]
fn dropping_the_handle_cancels_and_the_engine_recovers() {
    let mut desk = Desk::new(1, 8192);
    desk.submit(1, forever(500)).unwrap();
    desk.submit(2, ask(&["Hi"], 32)).unwrap();
    while desk.callers[&1].events.len() < 3 {
        desk.turn();
    }
    let abandoned = desk.callers.get_mut(&1).unwrap();
    abandoned.closed = true;
    abandoned.cancelled = true;
    desk.run(5);
    assert_eq!(desk.done(2), (Stop::EndOfGeneration, 10, 1));
    assert_eq!(desk.text(2), "Hi");
    assert_eq!(desk.runtime.engine().outbox_len(), 0);
}

#[test]
fn capacity_reports_inflight_work() {
    let mut desk = Desk::new(1, 512);
    let idle = desk.capacity();
    assert_eq!(idle.inflight, 0);
    assert_eq!(idle.available_slots, idle.max_inflight);

    desk.submit(1, ask(&["Hi"], 32)).unwrap();
    assert_eq!(desk.capacity().inflight, 1);

    desk.run(5);
    assert_eq!(desk.done(1).0, Stop::EndOfGeneration);
    assert_eq!(desk.capacity().inflight, 0, "slot was not released");
}

#[test]
fn waiting_requests_count_as_occupancy() {
    let mut desk = Desk::new(2, 512);
    for job in 0..5 {
        desk.submit(job, forever(100)).unwrap();
    }
    let capacity = desk.capacity();
    assert_eq!(
        capacity,
        Capacity { inflight: 5, max_inflight: 2, available_slots: 0, decoding: 0 }
    );
    desk.turn();
    assert_eq!(
        desk.capacity(),
        Capacity { inflight: 5, max_inflight: 2, available_slots: 0, decoding: 2 }
    );
    assert_eq!(desk.runtime.engine().active(), 2);
}

#[test]
fn a_full_queue_refuses_and_counts_nothing() {
    let mut desk = Desk::new(1, 512);
    desk.config.queue_depth = 0;
    desk.submit(1, forever(8)).unwrap();
    assert_eq!(desk.submit(2, forever(8)), Err(SubmitError::QueueFull));
    assert_eq!(desk.capacity().inflight, 1);
    assert_eq!(SubmitError::QueueFull.message(), "engine queue is full");

    desk.closed = true;
    assert_eq!(desk.submit(3, forever(8)), Err(SubmitError::ShutDown));
    assert_eq!(SubmitError::ShutDown.message(), "engine has shut down");
}

#[test]
fn a_request_cancelled_while_queued_never_reaches_the_model() {
    let mut desk = Desk::new(1, 512);
    desk.submit(1, forever(8)).unwrap();
    desk.callers.get_mut(&1).unwrap().cancelled = true;
    desk.run(2);
    assert_eq!(desk.done(1), (Stop::Cancelled, 0, 0));
    assert_eq!(desk.callers[&1].next, 0);
    assert_eq!(desk.capacity().inflight, 0);
}

#[test]
fn one_slow_reader_holds_up_nobody_else() {
    let mut desk = Desk::new(2, 8192);
    desk.submit(1, forever(100)).unwrap();
    desk.submit(2, ask(&["a", "b", "c"], 100)).unwrap();
    desk.callers.get_mut(&1).unwrap().full = true;
    desk.run(2);
    assert_eq!(desk.last_rows, [1]);
    desk.run(4);
    assert_eq!(desk.text(2), "abc");
    assert!(desk.callers[&1].events.is_empty());
    // The slow one goes on where it stopped.
    desk.callers.get_mut(&1).unwrap().full = false;
    desk.run(3);
    assert_eq!(desk.text(1), "xxx");
}

#[test]
fn a_caller_that_stops_reading_loses_its_slot() {
    let mut desk = Desk::new(1, 8192);
    desk.submit(1, forever(100)).unwrap();
    desk.submit(2, ask(&["Hi"], 32)).unwrap();
    desk.callers.get_mut(&1).unwrap().full = true;
    desk.run(2);
    desk.now_us += 30 * 1_000_000 - 1_000;
    desk.turn();
    assert_eq!(desk.runtime.engine().job_at(0), Some(1), "thirty seconds are allowed");
    desk.now_us += 1_000;
    desk.run(4);
    assert_eq!(desk.text(2), "Hi");
    // Its piece and its end are kept for it, in order.
    assert_eq!(desk.runtime.engine().outbox_len(), 2);
    desk.callers.get_mut(&1).unwrap().full = false;
    desk.turn();
    assert_eq!(desk.text(1), "x");
    assert_eq!(desk.done(1), (Stop::Cancelled, 10, 1));
}

#[test]
fn a_model_with_nothing_to_say_is_answered_at_once() {
    let mut desk = Desk::new(1, 512);
    desk.submit(1, ask(&[], 8)).unwrap();
    desk.run(2);
    assert_eq!(desk.done(1), (Stop::EndOfGeneration, 10, 0));
    assert!(matches!(desk.last(1), Event::Done { elapsed_ms: 3, .. }));
    assert!(desk.resident.is_empty());
}

#[test]
fn a_request_for_no_tokens_gets_none() {
    for max_tokens in [0, -5] {
        let mut desk = Desk::new(1, 512);
        desk.submit(1, forever(max_tokens)).unwrap();
        desk.run(2);
        assert_eq!(desk.done(1), (Stop::Limit, 10, 0));
        assert_eq!(desk.text(1), "");
        assert!(desk.resident.is_empty());
    }
}

/// A single token is all there is, whether that is what was asked for or all
/// that the context has room for.
#[test]
fn a_budget_of_one_is_one_token() {
    let mut desk = Desk::new(1, 512);
    desk.submit(1, forever(1)).unwrap();
    desk.run(3);
    assert_eq!(desk.done(1), (Stop::Limit, 10, 1));
    assert_eq!(desk.text(1), "x");
    assert!(matches!(desk.last(1), Event::Done { elapsed_ms: 3, .. }));
    assert!(desk.resident.is_empty());
    assert_eq!(desk.capacity().inflight, 0);

    let mut desk = Desk::new(1, 11);
    desk.submit(1, forever(50)).unwrap();
    desk.run(3);
    assert_eq!(desk.done(1), (Stop::ContextFull, 10, 1));
    assert_eq!(desk.text(1), "x");

    let mut desk = Desk::new(1, 11);
    desk.submit(1, forever(1)).unwrap();
    desk.run(3);
    assert_eq!(desk.done(1), (Stop::Limit, 10, 1));
}

/// Never more tokens than asked for, and never more than fit.
#[test]
fn every_budget_is_kept() {
    for max_tokens in 1..12 {
        let mut desk = Desk::new(1, 18);
        desk.submit(1, forever(max_tokens)).unwrap();
        desk.run(20);
        let tokens = max_tokens.min(8) as u32;
        let stop = if max_tokens <= 8 { Stop::Limit } else { Stop::ContextFull };
        assert_eq!(desk.done(1), (stop, 10, tokens));
        assert_eq!(desk.text(1).len() as u32, tokens);
    }
}

/// An entry whose caller has no room holds up the same caller's next ones, and
/// nobody else's.
#[test]
fn a_last_event_never_overtakes_its_last_piece() {
    let mut runtime = Runtime::new(&config(2, 64), info(64));
    for job in [1, 2] {
        runtime.submit(Enqueue::Accepted).unwrap();
        runtime.report(Report::Arrived(Arrival::Job { job, cancelled: false }));
        let prefilled = Prefilled {
            prompt_tokens: 10,
            max_tokens: 1,
            first: Sampled::Token { token: 1, bytes: b"x".to_vec() },
            elapsed_ms: 1,
        };
        let freed = runtime.report(Report::Ingested { outcome: Ok(prefilled), now_us: 0 });
        assert_eq!(freed, [0]);
    }
    runtime.report(Report::Arrived(Arrival::Empty));
    runtime.report(Report::Surveyed { cancelled: vec![false, false], now_us: 0 });
    runtime.report(Report::Rested);

    assert_eq!(runtime.engine().outbox_len(), 4);
    assert_eq!(runtime.task(), Task::Deliver { index: 0 });
    runtime.report(Report::Delivered(SendOutcome::Full));
    // The first caller's end is not offered while its piece has to wait.
    assert_eq!(runtime.task(), Task::Deliver { index: 2 });
    runtime.report(Report::Delivered(SendOutcome::Sent));
    assert_eq!(runtime.task(), Task::Deliver { index: 3 });
    runtime.report(Report::Delivered(SendOutcome::Sent));

    let engine = runtime.engine();
    assert_eq!(engine.outbox_len(), 2);
    assert!(matches!(engine.outbox_entry(0), (1, Event::Token(piece)) if piece == "x"));
    assert!(matches!(engine.outbox_entry(1), (1, Event::Done { stop: Stop::Limit, .. })));
}

#[test]
fn a_token_that_cannot_be_rendered_fails_its_generation_alone() {
    let mut desk = Desk::new(2, 512);
    desk.submit(1, ask(&["a", "!"], 8)).unwrap();
    desk.submit(2, ask(&["b", "c"], 8)).unwrap();
    desk.submit(3, ask(&["!"], 8)).unwrap();
    desk.run(10);
    assert!(matches!(desk.last(1), Event::Failed(error) if error == "no such token"));
    assert_eq!(desk.text(1), "a");
    assert_eq!(desk.text(2), "bc");
    assert!(matches!(desk.last(3), Event::Failed(error) if error == "no such token"));
    assert_eq!(desk.capacity().inflight, 0);
}

#[test]
fn a_failed_decode_fails_every_row_of_its_batch() {
    let mut desk = Desk::new(3, 512);
    for job in 0..3 {
        desk.submit(job, forever(100)).unwrap();
    }
    desk.callers.get_mut(&1).unwrap().full = true;
    desk.turn();
    desk.broken = true;
    desk.turn();
    assert_eq!(desk.last_rows, [0, 2]);
    assert_eq!(desk.capacity().inflight, 1);
    assert_eq!(desk.runtime.engine().job_at(1), Some(1));
    assert_eq!(desk.resident, HashSet::from([1]));
    desk.turn();
    assert!(matches!(desk.last(0), Event::Failed(error) if error == "decode failed"));
    assert!(matches!(desk.last(2), Event::Failed(_)));
}

#[test]
fn a_row_that_does_not_fit_fails_its_slot_alone() {
    let mut desk = Desk::new(2, 512);
    desk.submit(1, forever(100)).unwrap();
    desk.submit(2, forever(100)).unwrap();
    desk.refused.insert(0);
    desk.run(3);
    assert!(matches!(desk.last(1), Event::Failed(error) if error == "batch is full"));
    assert_eq!(desk.last_rows, [1]);
    assert_eq!(desk.capacity().inflight, 1);
}

/// The books can be kept without the loop, one event at a time.
#[test]
fn the_books_can_be_kept_by_hand() {
    let mut engine = Engine::new(&config(1, 64), info(64));
    assert_eq!(engine.admission(), Admission::Wait);
    engine.submit(Enqueue::Accepted).unwrap();
    let next = engine.arrive(Arrival::Job { job: 9, cancelled: false });
    assert_eq!(next, Admit::Prefill { seq_id: 0 });
    assert_eq!(engine.prefilling_seq(), 0);
    let prefilled = Prefilled {
        prompt_tokens: 60,
        max_tokens: 50,
        first: Sampled::Token { token: 1, bytes: b"a".to_vec() },
        elapsed_ms: 1,
    };
    assert_eq!(engine.prefilled(Ok(prefilled), 0), None);
    assert_eq!(engine.admission(), Admission::Full);
    assert_eq!(engine.pending(0).map(|(job, _)| job), Some(9));
    assert_eq!(engine.flush(0, SendOutcome::Sent, 0, 0), None);
    let plan = engine.begin_step(&vec![false], 0);
    assert_eq!((plan.rows.len(), plan.rows[0].position, plan.rows[0].token), (1, 60, 1));
    assert!(plan.freed.is_empty());
    assert_eq!(engine.decode_failed(&vec![0, 0], "broken"), [0]);
    assert_eq!(engine.fail(0, "again".to_string()), None);
    assert_eq!(engine.arrive(Arrival::Disconnected), Admit::Leave);
    assert!(!engine.finished());
    engine.sweep(&vec![SendOutcome::Sent]);
    assert!(engine.finished());
}

#[test]
fn a_closed_engine_finishes_what_it_has() {
    let mut desk = Desk::new(1, 512);
    desk.submit(1, ask(&["a"], 8)).unwrap();
    desk.submit(2, ask(&["b"], 8)).unwrap();
    desk.closed = true;
    let mut turns = 0;
    while !desk.turn() {
        turns += 1;
        assert!(turns < 20, "the engine never finished");
    }
    assert_eq!(desk.text(1), "a");
    assert_eq!(desk.text(2), "b");
    assert_eq!(desk.capacity().inflight, 0);
}

#[test]
fn work_is_waited_for_only_when_there_is_nothing_else() {
    let mut runtime = Runtime::new(&config(2, 64), info(64));
    assert_eq!(runtime.task(), Task::Wait);
    runtime.submit(Enqueue::Accepted).unwrap();
    assert_eq!(runtime.engine().waiting(), 1);
    runtime.report(Report::Arrived(Arrival::Job { job: 1, cancelled: true }));
    assert_eq!(runtime.engine().waiting(), 0);
    // Its last event has to go out, so the queue is only looked at.
    assert_eq!(runtime.task(), Task::Poll);
    runtime.report(Report::Arrived(Arrival::Empty));
    assert_eq!(runtime.task(), Task::Survey);
    runtime.report(Report::Surveyed { cancelled: vec![false, false], now_us: 0 });
    assert_eq!(runtime.task(), Task::Rest);
    runtime.report(Report::Rested);
    assert_eq!(runtime.task(), Task::Deliver { index: 0 });
    runtime.report(Report::Delivered(SendOutcome::Sent));
    assert_eq!(runtime.task(), Task::Wait);
    assert!(!runtime.engine().is_closed());
    runtime.report(Report::Arrived(Arrival::Disconnected));
    assert!(runtime.engine().is_closed());
    assert_eq!(runtime.task(), Task::Stop);
}

/// Every accepted request is answered once, whatever the others do.
#[test]
fn many_callers_are_all_answered() {
    let mut desk = Desk::new(4, 64);
    for job in 0..30 {
        let script = match job % 5 {
            0 => forever(1_000),
            1 => ask(&["a", "!"], 9),
            2 => ask(&["a", "b", "c"], 9),
            3 => Script { prompt_tokens: 64, ..forever(5) },
            _ => forever(7),
        };
        desk.submit(job, script).unwrap();
        if job % 7 == 3 {
            desk.callers.get_mut(&job).unwrap().cancelled = true;
        }
    }
    desk.closed = true;
    let mut turns = 0;
    while !desk.turn() {
        turns += 1;
        assert!(turns < 2_000, "the engine never finished");
    }
    for job in 0..30 {
        desk.last(job);
    }
    assert!(desk.resident.is_empty());
    assert_eq!(desk.capacity().inflight, 0);
    assert_eq!(desk.runtime.engine().model_info().n_ctx, 64);
}

/// A multi-byte character may straddle two tokens.
#[test]
fn pieces_are_whole_characters() {
    let mut desk = Desk::new(1, 512);
    let script = Script {
        prompt_tokens: 10,
        max_tokens: 64,
        pieces: vec![b"a\xf0\x9f", b"\x98", b"\x80b", b"\xc3", b"\xa9"],
    };
    desk.submit(1, script).unwrap();
    desk.run(10);
    assert_eq!(desk.text(1), "a\u{1f600}b\u{e9}");
    let pieces: Vec<String> = desk.callers[&1]
        .events
        .iter()
        .filter_map(|event| match event {
            Event::Token(piece) => Some(piece.clone()),
            _ => None,
        })
        .collect();
    assert_eq!(pieces, ["a", "", "\u{1f600}b", "", "\u{e9}"]);
}

#[test]
fn a_decoder_replaces_what_is_no_text() {
    let mut decoder = PieceDecoder::new();
    assert_eq!(decoder.push(b"ok"), "ok");
    assert_eq!(decoder.push(b"\xff"), "\u{fffd}");
    assert_eq!(decoder.push(b"\xe2\x82"), "");
    assert_eq!(decoder.push(b"z"), "\u{fffd}z");
}

#[test]
fn a_slot_settles_its_piece() {
    let bytes = b"x".to_vec();
    let mut slot = Slot::open(7, 2, 10, 40, 32, 5, &bytes, 1_000_000);
    assert_eq!(slot.budget, 22);
    assert!(slot.context_bound);
    assert_eq!(slot.n_cur, 10);
    assert_eq!(slot.n_decoded, 1);
    assert!(matches!(&slot.pending, Some(Event::Token(piece)) if piece == "x"));

    let start = 50 * SECOND_NS;
    assert_eq!(slot.flush(SendOutcome::Full, start), Flush::Stalled);
    assert_eq!(slot.flush(SendOutcome::Full, start + 30 * SECOND_NS), Flush::Stalled);
    assert_eq!(slot.flush(SendOutcome::Full, start + 30 * SECOND_NS + 1), Flush::Abandoned);
    assert!(slot.pending.is_some());
    assert_eq!(slot.flush(SendOutcome::Sent, start), Flush::Ready);
    assert!(slot.pending.is_none() && slot.stalled_since.is_none());
    assert_eq!(slot.flush(SendOutcome::Full, start), Flush::Ready);

    slot.extend(6, &bytes);
    assert_eq!((slot.n_cur, slot.n_decoded, slot.next_input), (11, 2, 6));
    assert_eq!(slot.flush(SendOutcome::Closed, start), Flush::Abandoned);
    assert!(slot.pending.is_none());

    assert_eq!(slot.elapsed_ms(1_000_000), 0);
    assert_eq!(slot.elapsed_ms(999), 0);
    assert_eq!(slot.elapsed_ms(1_002_999), 2);

    let asked = Slot::open(7, 2, 10, 22, 32, 5, &bytes, 0);
    assert_eq!(asked.budget, 22);
    assert!(!asked.context_bound);
}

#[test]
fn the_context_is_per_slot() {
    assert_eq!(
        config(8, 4096).context_plan(),
        ContextPlan { total_ctx: 32768, n_seq_max: 8, n_batch: 4096 }
    );
    assert_eq!(
        config(0, 64).context_plan(),
        ContextPlan { total_ctx: 64, n_seq_max: 1, n_batch: 512 }
    );
    assert_eq!(config(2, u32::MAX).context_plan().total_ctx, u32::MAX);
}

#[test]
fn the_queue_is_at_least_as_deep_as_the_engine_is_wide() {
    assert_eq!(config(1, 64).waiting_room(), 32);
    assert_eq!(config(40, 64).waiting_room(), 40);
    assert_eq!(config(0, 64).slots(), 1);
    assert_eq!(config(40, 64).slots(), 40);
}

#[test]
fn an_engine_starts_from_its_defaults() {
    let config = EngineConfig::default();
    assert!(matches!(
        &config.model,
        ModelSource::HuggingFace { repo, file }
            if repo == "unsloth/Qwen3.5-0.8B-GGUF" && file == "Qwen3.5-0.8B-Q4_K_M.gguf"
    ));
    assert_eq!(config.n_ctx, 8192);
    assert_eq!(config.n_gpu_layers, 99);
    assert_eq!(config.max_inflight, 1);
    assert_eq!(config.queue_depth, 32);
    assert!(config.native_logs);

    let local = ModelSource::select(Some(PathBuf::from("m.gguf")), "r".into(), "f".into());
    assert!(matches!(local, ModelSource::Local(path) if path == PathBuf::from("m.gguf")));
    let hub = ModelSource::select(None, "r".into(), "f".into());
    assert!(matches!(hub, ModelSource::HuggingFace { repo, file } if repo == "r" && file == "f"));
}

#[test]
fn messages_carry_their_role() {
    assert_eq!(Message::system("a").role, "system");
    assert_eq!(Message::user("b").role, "user");
    assert_eq!(Message::assistant("c").role, "assistant");
    assert_eq!(Message::assistant("c").content, "c");

    let request = GenerateRequest::user("Say hi.");
    assert_eq!(request.messages.len(), 1);
    assert_eq!(request.messages[0].role, "user");
    assert_eq!(request.messages[0].content, "Say hi.");
    assert_eq!(request.max_tokens, 128);
}

#[test]
fn prompts_are_checked_and_closed() {
    let empty = GenerateRequest::default();
    let error = empty.require_messages().unwrap_err();
    assert_eq!(error, PrefillError::NoMessages);
    assert_eq!(error.message(), "request has no messages");

    let mut request = GenerateRequest::user("hi");
    assert!(request.require_messages().is_ok());
    assert_eq!(request.finish_prompt("P".to_string()), "P<think>\n\n</think>\n\n");
    request.think = true;
    assert_eq!(request.finish_prompt("P".to_string()), "P");
}

#[test]
fn prompts_are_laid_out_from_zero() {
    let rows = plan_prompt(&vec![7, 8], 3, 3).unwrap();
    assert_eq!(
        rows,
        [
            PromptRow { token: 7, position: 0, seq_id: 3, logits: false },
            PromptRow { token: 8, position: 1, seq_id: 3, logits: true },
        ]
    );
    let error = plan_prompt(&vec![7, 8], 3, 2).unwrap_err();
    assert_eq!(error, PrefillError::PromptTooLong { tokens: 2, n_ctx: 2 });
}

#[test]
fn a_temperature_above_zero_draws() {
    let mut request = GenerateRequest::user("hi");
    assert_eq!(request.sampling(), Sampling::Greedy);
    for cold in [0.0f32, -0.0, -1.0, f32::NAN, f32::NEG_INFINITY] {
        request.temperature = Float32 { bits: cold.to_bits() };
        assert_eq!(request.sampling(), Sampling::Greedy, "{cold}");
    }
    for warm in [0.7f32, f32::MIN_POSITIVE, f32::from_bits(1), f32::INFINITY] {
        request.temperature = Float32 { bits: warm.to_bits() };
        assert_eq!(
            request.sampling(),
            Sampling::Nucleus {
                temperature: Float32 { bits: warm.to_bits() },
                top_p: Float32 { bits: 0.9f32.to_bits() },
                min_keep: 1,
                seed: 42,
            }
        );
    }
}
