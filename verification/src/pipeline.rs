//! The agent pipeline as a state machine.
//!
//! A run plans first (a small model picks tools), executes the planned tools,
//! then lets the reasoner answer; a reply that asks for more tools starts a
//! reactive round, at most `MAX_REACTIVE_ROUNDS` of them. The caller performs
//! the work each step asks for and hands back what came of it.

use vstd::prelude::*;
use crate::agent::{
    call_views, format_tool_results, result_blocks, scan_calls, scan_tool_calls, summary_of,
    summary_ok, tool_summary, AgentEvent, CallView, ToolCall,
};
use crate::ai::{copy_messages, message_views, Message, MessageView, Role, StreamChunk};
use crate::planner::{copy_planned, planned_views, PlannedCall};
use crate::text::{join, push_str, string_of};

verus! {

/// The most reasoner turns that may ask for tools in one run.
pub const MAX_REACTIVE_ROUNDS: u32 = 6;

/// Where a run stands.
#[derive(Debug, Clone, Copy, PartialEq, Eq, Structural)]
pub enum Stage {
    /// Waiting for the planner's calls.
    Planning,
    /// Waiting for the results of the planned tools.
    PlannedTools,
    /// Waiting for the reasoner's streamed reply.
    Streaming,
    /// Waiting for the results of tools the reasoner asked for.
    ReactiveTools,
    /// The run is over.
    Finished,
}

/// The work a step asks the caller to perform next.
#[derive(Debug)]
pub enum Work {
    /// Ask the planner about this user message.
    Plan { user_message: String },
    /// Run these tools (all of them, results in the same order).
    RunTools { calls: Vec<ToolCall>, iteration: u32 },
    /// Start the reasoner on these messages.
    Reason { messages: Vec<Message> },
    /// Keep feeding the reasoner's stream.
    Listen,
    /// Nothing more: the run is over.
    Stop,
}

/// Events to emit, then the next work.
#[derive(Debug)]
pub struct Step {
    pub events: Vec<AgentEvent>,
    pub work: Work,
}

/// The state of one agent run.
#[derive(Debug)]
pub struct AgentRun {
    /// The reasoner's context: the conversation plus injected tool results.
    pub messages: Vec<Message>,
    /// The reactive round in progress.
    pub round: u32,
    /// The reply streamed so far in this round.
    pub reply: String,
    pub stage: Stage,
}

/// The content of the last user message, empty when there is none.
pub open spec fn last_user(ms: Seq<MessageView>) -> Seq<char>
    decreases ms.len(),
{
    if ms.len() == 0 {
        seq![]
    } else if ms.last().0 == Role::User {
        ms.last().1
    } else {
        last_user(ms.drop_last())
    }
}

/// The message that hands the planned tools' results to the reasoner.
pub open spec fn gathered_text(results: Seq<(String, String, bool)>) -> Seq<char> {
    "I gathered this information for you before answering:\n\n"@ + join(result_blocks(results), "\n"@)
        + "\nUse it to give a thorough, accurate response."@
}

/// The message that hands a reactive round's results to the reasoner.
pub open spec fn reactive_text(results: Seq<(String, String, bool)>) -> Seq<char> {
    "Tool results:\n"@ + join(result_blocks(results), "\n"@) + "\n\nContinue your response."@
}

/// The error that ends a run after its last reactive round.
pub open spec fn limit_text() -> Seq<char> {
    "Agent hit the reactive round limit (6). Stopping."@
}

/// The calls a plan asks for.
pub open spec fn plan_calls(p: Seq<PlannedCall>) -> Seq<CallView> {
    p.map_values(|c: PlannedCall| (c.tool@, c.args.pairs()))
}

pub open spec fn is_tool_start(ev: AgentEvent, iteration: u32, name: Seq<char>, summary: Seq<char>) -> bool {
    ev matches AgentEvent::ToolStart { iteration: it, name: n, summary: s } && it == iteration
        && n@ == name && s@ == summary
}

pub open spec fn is_tool_done(
    ev: AgentEvent,
    iteration: u32,
    name: Seq<char>,
    output: Seq<char>,
    success: bool,
) -> bool {
    ev matches AgentEvent::ToolDone { iteration: it, name: n, output: o, success: ok } && it
        == iteration && n@ == name && o@ == output && ok == success
}

pub open spec fn event_is_error(ev: AgentEvent, msg: Seq<char>) -> bool {
    ev matches AgentEvent::Error(e) && e@ == msg
}

/// The content of the last user message in `messages`, empty when there is none.
pub fn latest_user_message(messages: &[Message]) -> (r: String)
    ensures
        r@ == last_user(message_views(messages@)),
{
    let ghost ms = message_views(messages@);
    let mut i = messages.len();
    assert(ms.take(i as int) =~= ms);
    while i > 0
        invariant
            i <= messages@.len(),
            ms == message_views(messages@),
            last_user(ms) == last_user(ms.take(i as int)),
        decreases i,
    {
        assert(ms.take(i as int).drop_last() =~= ms.take(i - 1));
        assert(ms[i - 1] == messages@[i - 1].view_msg());
        if let Role::User = messages[i - 1].role {
            return messages[i - 1].content.clone();
        }
        i = i - 1;
    }
    String::new()
}

impl AgentRun {
    /// The invariant of a run: rounds stay within the limit.
    pub open spec fn wf(&self) -> bool {
        &&& self.round <= MAX_REACTIVE_ROUNDS
        &&& self.stage != Stage::Finished ==> self.round < MAX_REACTIVE_ROUNDS
    }

    /// A run over `messages`: it first asks the planner about the latest user message.
    pub fn start(messages: Vec<Message>) -> (r: (AgentRun, Step))
        ensures
            r.0.wf(),
            r.0.stage == Stage::Planning,
            r.0.round == 0,
            r.0.reply@ == Seq::<char>::empty(),
            message_views(r.0.messages@) == message_views(messages@),
            r.1.events@.len() == 1,
            r.1.events@[0] is PlannerStarted,
            r.1.work matches Work::Plan { user_message } && user_message@ == last_user(
                message_views(messages@),
            ),
    {
        let user_message = latest_user_message(messages.as_slice());
        let mut events: Vec<AgentEvent> = Vec::new();
        events.push(AgentEvent::PlannerStarted);
        let run = AgentRun { messages, round: 0, reply: String::new(), stage: Stage::Planning };
        (run, Step { events, work: Work::Plan { user_message } })
    }

    /// The planner returned `planned`: run those tools first, or start the reasoner.
    pub fn on_plan(&mut self, planned: Vec<PlannedCall>) -> (step: Step)
        requires
            old(self).wf(),
            old(self).stage == Stage::Planning,
        ensures
            final(self).wf(),
            message_views(final(self).messages@) == message_views(old(self).messages@),
            final(self).round == old(self).round,
            step.events@.len() >= 1,
            step.events@[0] matches AgentEvent::PlannerDone { calls } && planned_views(calls@)
                == planned_views(planned@),
            planned@.len() > 0 ==> {
                &&& final(self).stage == Stage::PlannedTools
                &&& step.events@.len() == 1
                &&& step.work matches Work::RunTools { calls, iteration } && iteration == 0
                    && call_views(calls@) == plan_calls(planned@)
            },
            planned@.len() == 0 ==> {
                &&& final(self).stage == Stage::Streaming
                &&& final(self).reply@ == Seq::<char>::empty()
                &&& step.events@.len() == 2
                &&& step.events@[1] is ReasonerStarted
                &&& step.work matches Work::Reason { messages } && message_views(messages@)
                    == message_views(old(self).messages@)
            },
    {
        let mut events: Vec<AgentEvent> = Vec::new();
        let shown = copy_planned(&planned);
        events.push(AgentEvent::PlannerDone { calls: shown });
        if planned.len() > 0 {
            let ghost pv = plan_calls(planned@);
            let mut calls: Vec<ToolCall> = Vec::new();
            for i in 0..planned.len()
                invariant
                    pv == plan_calls(planned@),
                    call_views(calls@) == pv.take(i as int),
            {
                let ghost before = call_views(calls@);
                let c = ToolCall { name: planned[i].tool.clone(), args: planned[i].args.duplicate() };
                calls.push(c);
                assert(call_views(calls@) =~= before.push(pv[i as int]));
                assert(pv.take(i + 1) =~= pv.take(i as int).push(pv[i as int]));
            }
            assert(pv.take(planned@.len() as int) =~= pv);
            self.stage = Stage::PlannedTools;
            Step { events, work: Work::RunTools { calls, iteration: 0 } }
        } else {
            events.push(AgentEvent::ReasonerStarted);
            self.stage = Stage::Streaming;
            self.reply = String::new();
            Step { events, work: Work::Reason { messages: copy_messages(&self.messages) } }
        }
    }

    /// The tools asked for finished with `results` (name, output, success), in order.
    pub fn on_tools_done(&mut self, results: Vec<(String, String, bool)>) -> (step: Step)
        requires
            old(self).wf(),
            old(self).stage == Stage::PlannedTools || old(self).stage == Stage::ReactiveTools,
        ensures
            final(self).wf(),
            final(self).reply@ == Seq::<char>::empty(),
            old(self).stage == Stage::PlannedTools ==> {
                &&& message_views(final(self).messages@) == message_views(old(self).messages@)
                    + (if results@.len() > 0 {
                    seq![(Role::User, gathered_text(results@))]
                } else {
                    seq![]
                })
                &&& final(self).round == old(self).round
                &&& final(self).stage == Stage::Streaming
                &&& step.events@.len() == 1
                &&& step.events@[0] is ReasonerStarted
                &&& step.work matches Work::Reason { messages } && message_views(messages@)
                    == message_views(final(self).messages@)
            },
            old(self).stage == Stage::ReactiveTools ==> {
                &&& message_views(final(self).messages@) == message_views(old(self).messages@).push(
                    (Role::User, reactive_text(results@)),
                )
                &&& final(self).round == old(self).round + 1
                &&& final(self).round == MAX_REACTIVE_ROUNDS ==> {
                    &&& final(self).stage == Stage::Finished
                    &&& step.events@.len() == 1
                    &&& event_is_error(step.events@[0], limit_text())
                    &&& step.work is Stop
                }
                &&& final(self).round < MAX_REACTIVE_ROUNDS ==> {
                    &&& final(self).stage == Stage::Streaming
                    &&& step.events@.len() == 0
                    &&& step.work matches Work::Reason { messages } && message_views(messages@)
                        == message_views(final(self).messages@)
                }
            },
    {
        let mut events: Vec<AgentEvent> = Vec::new();
        let text = format_tool_results(results.as_slice());
        self.reply = String::new();
        if self.stage == Stage::PlannedTools {
            if results.len() > 0 {
                let mut v: Vec<char> = Vec::new();
                push_str(&mut v, "I gathered this information for you before answering:\n\n");
                push_str(&mut v, text.as_str());
                push_str(&mut v, "\nUse it to give a thorough, accurate response.");
                let ghost before = message_views(self.messages@);
                self.messages.push(Message::user(string_of(v.as_slice())));
                assert(message_views(self.messages@) =~= before + seq![
                    (Role::User, gathered_text(results@)),
                ]);
            } else {
                assert(message_views(self.messages@) =~= message_views(self.messages@) + seq![]);
            }
            events.push(AgentEvent::ReasonerStarted);
            self.stage = Stage::Streaming;
            Step { events, work: Work::Reason { messages: copy_messages(&self.messages) } }
        } else {
            let mut v: Vec<char> = Vec::new();
            push_str(&mut v, "Tool results:\n");
            push_str(&mut v, text.as_str());
            push_str(&mut v, "\n\nContinue your response.");
            let ghost before = message_views(self.messages@);
            self.messages.push(Message::user(string_of(v.as_slice())));
            assert(message_views(self.messages@) =~= before.push(
                (Role::User, reactive_text(results@)),
            ));
            self.round = self.round + 1;
            if self.round >= MAX_REACTIVE_ROUNDS {
                events.push(
                    AgentEvent::Error(
                        "Agent hit the reactive round limit (6). Stopping.".to_owned(),
                    ),
                );
                self.stage = Stage::Finished;
                Step { events, work: Work::Stop }
            } else {
                self.stage = Stage::Streaming;
                Step { events, work: Work::Reason { messages: copy_messages(&self.messages) } }
            }
        }
    }

    /// No reasoner backend could be built: the run ends with `error`.
    pub fn on_backend_error(&mut self, error: String) -> (step: Step)
        requires
            old(self).wf(),
            old(self).stage == Stage::Streaming,
        ensures
            final(self).wf(),
            final(self).stage == Stage::Finished,
            final(self).round == old(self).round,
            message_views(final(self).messages@) == message_views(old(self).messages@),
            step.events@.len() == 1,
            event_is_error(step.events@[0], error@),
            step.work is Stop,
    {
        let mut events: Vec<AgentEvent> = Vec::new();
        events.push(AgentEvent::Error(error));
        self.stage = Stage::Finished;
        Step { events, work: Work::Stop }
    }

    /// The reasoner's stream gave `chunk`. A finished reply that asks for
    /// tools starts the next reactive round; one that does not ends the run.
    pub fn on_chunk(&mut self, chunk: StreamChunk) -> (step: Step)
        requires
            old(self).wf(),
            old(self).stage == Stage::Streaming,
            chunk is Done ==> scan_calls(old(self).reply@) is Some,
        ensures
            final(self).wf(),
            final(self).round == old(self).round,
            match chunk {
                StreamChunk::Token(t) => {
                    &&& final(self).stage == Stage::Streaming
                    &&& final(self).reply@ == old(self).reply@ + t@
                    &&& message_views(final(self).messages@) == message_views(old(self).messages@)
                    &&& step.events@.len() == 1
                    &&& step.events@[0] matches AgentEvent::Token(x) && x@ == t@
                    &&& step.work is Listen
                },
                StreamChunk::Error(e) => {
                    &&& final(self).stage == Stage::Finished
                    &&& message_views(final(self).messages@) == message_views(old(self).messages@)
                    &&& step.events@.len() == 1
                    &&& event_is_error(step.events@[0], e@)
                    &&& step.work is Stop
                },
                StreamChunk::Done => {
                    let calls = scan_calls(old(self).reply@).unwrap();
                    &&& step.events@.len() >= 1
                    &&& step.events@[0] matches AgentEvent::TurnComplete(x) && x@ == old(self).reply@
                    &&& calls.len() == 0 ==> {
                        &&& final(self).stage == Stage::Finished
                        &&& message_views(final(self).messages@) == message_views(old(self).messages@)
                        &&& step.events@.len() == 2
                        &&& step.events@[1] is Done
                        &&& step.work is Stop
                    }
                    &&& calls.len() > 0 ==> {
                        &&& final(self).stage == Stage::ReactiveTools
                        &&& final(self).reply@ == Seq::<char>::empty()
                        &&& message_views(final(self).messages@) == message_views(
                            old(self).messages@,
                        ).push((Role::Assistant, old(self).reply@))
                        &&& step.events@.len() == 1
                        &&& step.work matches Work::RunTools { calls: cs, iteration } && iteration
                            == old(self).round + 1 && call_views(cs@) == calls
                    }
                },
            },
    {
        let mut events: Vec<AgentEvent> = Vec::new();
        match chunk {
            StreamChunk::Token(t) => {
                let mut v: Vec<char> = crate::text::chars_of(self.reply.as_str());
                push_str(&mut v, t.as_str());
                self.reply = string_of(v.as_slice());
                events.push(AgentEvent::Token(t));
                Step { events, work: Work::Listen }
            },
            StreamChunk::Error(e) => {
                events.push(AgentEvent::Error(e));
                self.stage = Stage::Finished;
                Step { events, work: Work::Stop }
            },
            StreamChunk::Done => {
                let full = self.reply.clone();
                events.push(AgentEvent::TurnComplete(self.reply.clone()));
                let calls = match scan_tool_calls(full.as_str()) {
                    Some(c) => c,
                    None => Vec::new(),
                };
                if calls.len() == 0 {
                    events.push(AgentEvent::Done);
                    self.stage = Stage::Finished;
                    Step { events, work: Work::Stop }
                } else {
                    let ghost before = message_views(self.messages@);
                    self.messages.push(Message::assistant(full));
                    assert(message_views(self.messages@) =~= before.push(
                        (Role::Assistant, old(self).reply@),
                    ));
                    self.reply = String::new();
                    self.stage = Stage::ReactiveTools;
                    Step { events, work: Work::RunTools { calls, iteration: self.round + 1 } }
                }
            },
        }
    }
}

// ── Tool batches ─────────────────────────────────────────────────────────────

/// The `ToolStart` events of a batch, one per call in order.
pub fn tool_start_events(calls: &[ToolCall], iteration: u32) -> (r: Vec<AgentEvent>)
    requires
        forall|i: int| 0 <= i < calls@.len() ==> summary_ok(#[trigger] calls@[i].name@, calls@[i].args.map()),
    ensures
        r@.len() == calls@.len(),
        forall|i: int| 0 <= i < r@.len() ==> is_tool_start(#[trigger] r@[i], iteration, calls@[i].name@, summary_of(calls@[i].name@, calls@[i].args.map())),
{
    let mut r: Vec<AgentEvent> = Vec::new();
    for i in 0..calls.len()
        invariant
            r@.len() == i,
            forall|i: int| 0 <= i < calls@.len() ==> summary_ok(#[trigger] calls@[i].name@, calls@[i].args.map()),
            forall|j: int| 0 <= j < i ==> is_tool_start(#[trigger] r@[j], iteration, calls@[j].name@, summary_of(calls@[j].name@, calls@[j].args.map())),
    {
        let summary = tool_summary(&calls[i]);
        r.push(AgentEvent::ToolStart { iteration, name: calls[i].name.clone(), summary });
    }
    r
}

/// The `ToolDone` events of a batch and its `(name, output, success)` results,
/// pairing each call with its outcome in order.
pub fn tool_done_events(calls: &[ToolCall], outcomes: Vec<(String, bool)>, iteration: u32) -> (r: (
    Vec<AgentEvent>,
    Vec<(String, String, bool)>,
))
    requires
        outcomes@.len() == calls@.len(),
    ensures
        r.0@.len() == calls@.len(),
        r.1@.len() == calls@.len(),
        forall|i: int| 0 <= i < r.0@.len() ==> is_tool_done(#[trigger] r.0@[i], iteration, calls@[i].name@, outcomes@[i].0@, outcomes@[i].1),
        forall|i: int| 0 <= i < r.1@.len() ==> (#[trigger] r.1@[i]).0@ == calls@[i].name@ && r.1@[i].1@
            == outcomes@[i].0@ && r.1@[i].2 == outcomes@[i].1,
{
    let mut evs: Vec<AgentEvent> = Vec::new();
    let mut out: Vec<(String, String, bool)> = Vec::new();
    for i in 0..calls.len()
        invariant
            outcomes@.len() == calls@.len(),
            evs@.len() == i,
            out@.len() == i,
            forall|j: int| 0 <= j < i ==> is_tool_done(#[trigger] evs@[j], iteration, calls@[j].name@, outcomes@[j].0@, outcomes@[j].1),
            forall|j: int| 0 <= j < i ==> (#[trigger] out@[j]).0@ == calls@[j].name@ && out@[j].1@
                == outcomes@[j].0@ && out@[j].2 == outcomes@[j].1,
    {
        evs.push(
            AgentEvent::ToolDone {
                iteration,
                name: calls[i].name.clone(),
                output: outcomes[i].0.clone(),
                success: outcomes[i].1,
            },
        );
        out.push((calls[i].name.clone(), outcomes[i].0.clone(), outcomes[i].1));
    }
    (evs, out)
}

} // verus!
