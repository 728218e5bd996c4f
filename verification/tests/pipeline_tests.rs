use ocode::agent::{AgentEvent, ToolCall};
use ocode::ai::{Message, Role, StreamChunk};
use ocode::args::ToolArgs;
use ocode::pipeline::{
    latest_user_message, tool_done_events, tool_start_events, AgentRun, Stage, Work, MAX_REACTIVE_ROUNDS,
};
use ocode::planner::PlannedCall;

fn convo() -> Vec<Message> {
    vec![
        Message::system("sys".to_string()),
        Message::user("first".to_string()),
        Message::assistant("reply".to_string()),
        Message::user("second".to_string()),
    ]
}

fn feed(run: &mut AgentRun, text: &str) {
    let step = run.on_chunk(StreamChunk::Token(text.to_string()));
    assert!(matches!(step.work, Work::Listen));
}

const CALL: &str = "<tool_call name=\"read_file\"><path>a.rs</path></tool_call>";

#[test]
fn latest_user_message_is_last_user_turn() {
    assert_eq!(latest_user_message(&convo()), "second");
    assert_eq!(latest_user_message(&[Message::system("s".to_string())]), "");
}

#[test]
fn run_with_empty_plan_answers_directly() {
    let (mut run, step) = AgentRun::start(convo());
    assert!(matches!(step.events[0], AgentEvent::PlannerStarted));
    match &step.work {
        Work::Plan { user_message } => assert_eq!(user_message, "second"),
        other => panic!("{:?}", other),
    }
    let step = run.on_plan(Vec::new());
    assert_eq!(step.events.len(), 2);
    assert!(matches!(step.events[1], AgentEvent::ReasonerStarted));
    match &step.work {
        Work::Reason { messages } => assert_eq!(messages.len(), 4),
        other => panic!("{:?}", other),
    }
    assert_eq!(run.stage, Stage::Streaming);
    feed(&mut run, "All ");
    feed(&mut run, "good.");
    let step = run.on_chunk(StreamChunk::Done);
    match &step.events[0] {
        AgentEvent::TurnComplete(t) => assert_eq!(t, "All good."),
        other => panic!("{:?}", other),
    }
    assert!(matches!(step.events[1], AgentEvent::Done));
    assert!(matches!(step.work, Work::Stop));
    assert_eq!(run.stage, Stage::Finished);
}

#[test]
fn planned_tools_feed_the_reasoner() {
    let (mut run, _) = AgentRun::start(convo());
    let mut args = ToolArgs::new();
    args.insert("path".to_string(), "src".to_string());
    let plan = vec![PlannedCall { tool: "list_dir".to_string(), args, reason: "look".to_string() }];
    let step = run.on_plan(plan);
    assert_eq!(run.stage, Stage::PlannedTools);
    let calls = match step.work {
        Work::RunTools { calls, iteration } => {
            assert_eq!(iteration, 0);
            calls
        }
        other => panic!("{:?}", other),
    };
    assert_eq!(calls.len(), 1);
    assert_eq!(calls[0].name, "list_dir");
    let step = run.on_tools_done(vec![("list_dir".to_string(), "main.rs".to_string(), true)]);
    assert!(matches!(step.events[0], AgentEvent::ReasonerStarted));
    assert_eq!(run.messages.len(), 5);
    assert_eq!(run.messages[4].role, Role::User);
    assert_eq!(
        run.messages[4].content,
        "I gathered this information for you before answering:\n\n=== list_dir [ok] ===\nmain.rs\n\nUse it to give a thorough, accurate response."
    );
    assert_eq!(run.stage, Stage::Streaming);
}

#[test]
fn reactive_rounds_stop_at_the_limit() {
    let (mut run, _) = AgentRun::start(convo());
    run.on_plan(Vec::new());
    for round in 1..=MAX_REACTIVE_ROUNDS {
        feed(&mut run, "Need more. ");
        feed(&mut run, CALL);
        let step = run.on_chunk(StreamChunk::Done);
        assert_eq!(step.events.len(), 1);
        match step.work {
            Work::RunTools { calls, iteration } => {
                assert_eq!(iteration, round);
                assert_eq!(calls.len(), 1);
                assert_eq!(calls[0].args.get_or("path", ""), "a.rs");
            }
            other => panic!("{:?}", other),
        }
        assert_eq!(run.stage, Stage::ReactiveTools);
        assert_eq!(run.messages.last().unwrap().role, Role::Assistant);
        let step = run.on_tools_done(vec![("read_file".to_string(), "text".to_string(), false)]);
        assert_eq!(run.round, round);
        assert_eq!(
            run.messages.last().unwrap().content,
            "Tool results:\n=== read_file [error] ===\ntext\n\n\nContinue your response."
        );
        if round < MAX_REACTIVE_ROUNDS {
            assert!(step.events.is_empty());
            assert!(matches!(step.work, Work::Reason { .. }));
        } else {
            match &step.events[0] {
                AgentEvent::Error(e) => assert_eq!(e, "Agent hit the reactive round limit (6). Stopping."),
                other => panic!("{:?}", other),
            }
            assert!(matches!(step.work, Work::Stop));
            assert_eq!(run.stage, Stage::Finished);
        }
    }
}

#[test]
fn stream_errors_end_the_run() {
    let (mut run, _) = AgentRun::start(convo());
    run.on_plan(Vec::new());
    let step = run.on_chunk(StreamChunk::Error("connection reset".to_string()));
    match &step.events[0] {
        AgentEvent::Error(e) => assert_eq!(e, "connection reset"),
        other => panic!("{:?}", other),
    }
    assert!(matches!(step.work, Work::Stop));
    assert_eq!(run.stage, Stage::Finished);
}

#[test]
fn backend_errors_end_the_run() {
    let (mut run, _) = AgentRun::start(convo());
    run.on_plan(Vec::new());
    let step = run.on_backend_error("NIM API key not set".to_string());
    assert!(matches!(step.work, Work::Stop));
    match &step.events[0] {
        AgentEvent::Error(e) => assert_eq!(e, "NIM API key not set"),
        other => panic!("{:?}", other),
    }
}

#[test]
fn batch_events_pair_calls_with_outcomes() {
    let mut a = ToolArgs::new();
    a.insert("command".to_string(), "ls".to_string());
    let calls = vec![
        ToolCall { name: "run_shell".to_string(), args: a },
        ToolCall { name: "web_search".to_string(), args: ToolArgs::new() },
    ];
    let starts = tool_start_events(&calls, 2);
    match &starts[0] {
        AgentEvent::ToolStart { iteration, name, summary } => {
            assert_eq!((*iteration, name.as_str(), summary.as_str()), (2, "run_shell", "$ ls"));
        }
        other => panic!("{:?}", other),
    }
    match &starts[1] {
        AgentEvent::ToolStart { summary, .. } => assert_eq!(summary, "search: ?"),
        other => panic!("{:?}", other),
    }
    let outcomes = vec![("a\nb".to_string(), true), ("Error: missing query arg".to_string(), false)];
    let (done, results) = tool_done_events(&calls, outcomes, 2);
    assert_eq!(done.len(), 2);
    match &done[1] {
        AgentEvent::ToolDone { iteration, name, output, success } => {
            assert_eq!((*iteration, name.as_str(), output.as_str(), *success), (2, "web_search", "Error: missing query arg", false));
        }
        other => panic!("{:?}", other),
    }
    assert_eq!(results, vec![
        ("run_shell".to_string(), "a\nb".to_string(), true),
        ("web_search".to_string(), "Error: missing query arg".to_string(), false),
    ]);
}
