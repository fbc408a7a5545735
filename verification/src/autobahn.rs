//! Decisions of the programs that run the Autobahn test suite.

use crate::handshake::subprotocols::texts_of;
use crate::protocol::{Message, PayloadType};
use crate::text::{decimal, eq_text, numbered};
use vstd::prelude::*;

verus! {

/// The message of results that are not in the form that the test suite writes.
pub const INVALID_RESULTS: &'static str = "Invalid results structure";

/// The result of one test.
#[derive(Debug)]
pub enum TestOutcome {
    /// How the test went.
    Behavior(String),
    /// The result is not in the form that the test suite writes.
    Malformed,
}

/// What the results of tests come to.
#[derive(Debug, PartialEq, Eq)]
pub enum Verdict {
    /// All tests passed.
    Passed,
    /// The tests that did not pass, in words.
    Failed(Vec<String>),
    /// A result is not in the form that the test suite writes.
    Invalid,
}

/// Whether a test that went like this has passed.
pub open spec fn passed(behavior: Seq<char>) -> bool {
    behavior == "OK"@ || behavior == "INFORMATIONAL"@ || behavior == "NON-STRICT"@
}

/// The words for a test that did not pass.
pub open spec fn failure_text(id: Seq<char>, behavior: Seq<char>) -> Seq<char> {
    "Test "@ + id + " failed with: "@ + behavior
}

/// The words for the tests that did not pass.
pub open spec fn failures_of(tests: Seq<(String, TestOutcome)>) -> Seq<Seq<char>>
    decreases tests.len(),
{
    if tests.len() == 0 {
        Seq::empty()
    } else {
        let before = failures_of(tests.drop_last());
        match tests.last().1 {
            TestOutcome::Behavior(behavior) => if passed(behavior@) {
                before
            } else {
                before.push(failure_text(tests.last().0@, behavior@))
            },
            TestOutcome::Malformed => before,
        }
    }
}

/// Whether every result is in the form that the test suite writes.
pub open spec fn well_formed(tests: Seq<(String, TestOutcome)>) -> bool {
    forall|i: int| 0 <= i < tests.len() ==> !((#[trigger] tests[i]).1 is Malformed)
}

/// Judges the results of tests, each with the name of its test.
pub fn validate_results(tests: &[(String, TestOutcome)]) -> (verdict: Verdict)
    ensures
        match verdict {
            Verdict::Passed => well_formed(tests@) && failures_of(tests@).len() == 0,
            Verdict::Failed(failures) => well_formed(tests@) && texts_of(failures@) == failures_of(
                tests@,
            ) && failures@.len() > 0,
            Verdict::Invalid => !well_formed(tests@),
        },
{
    let mut failures: Vec<String> = Vec::new();
    let mut i: usize = 0;
    assert(tests@.take(0) =~= Seq::empty());
    assert(texts_of(failures@) =~= Seq::empty());
    while i < tests.len()
        invariant
            i <= tests@.len(),
            texts_of(failures@) == failures_of(tests@.take(i as int)),
            forall|j: int| 0 <= j < i ==> !((#[trigger] tests@[j]).1 is Malformed),
        decreases tests@.len() - i,
    {
        let ghost before = failures@;
        proof {
            assert(tests@.take(i + 1).drop_last() =~= tests@.take(i as int));
            assert(tests@.take(i + 1).last() == tests@[i as int]);
        }
        match &tests[i].1 {
            TestOutcome::Behavior(behavior) => {
                let text = behavior.as_str();
                if !eq_text(text, "OK") && !eq_text(text, "INFORMATIONAL") && !eq_text(
                    text,
                    "NON-STRICT",
                ) {
                    let mut words = "Test ".to_string();
                    words.append(tests[i].0.as_str());
                    words.append(" failed with: ");
                    words.append(text);
                    failures.push(words);
                    assert(texts_of(failures@) =~= texts_of(before).push(
                        failure_text(tests@[i as int].0@, behavior@),
                    ));
                }
            },
            TestOutcome::Malformed => {
                assert(tests@[i as int].1 is Malformed);
                return Verdict::Invalid;
            },
        }
        i = i + 1;
    }
    assert(tests@.take(tests@.len() as int) =~= tests@);
    assert(texts_of(failures@).len() == failures@.len());
    if failures.len() == 0 {
        Verdict::Passed
    } else {
        Verdict::Failed(failures)
    }
}

/// How long a server may take to start, in seconds.
pub const START_TIMEOUT: u64 = 30;

/// What to do after an attempt to connect.
#[derive(Debug, PartialEq, Eq)]
pub enum Attempt {
    /// The server has started.
    Started,
    /// The server has not started in time: the reason, in words.
    TimedOut(String),
    /// Try again after this many seconds.
    Retry(u64),
}

/// Decides what to do after an attempt to connect, given whether it succeeded and how much time has
/// passed since the first one.
pub fn await_server_start(connected: bool, seconds: u64, nanos: u32) -> (attempt: Attempt)
    ensures
        match attempt {
            Attempt::Started => connected,
            Attempt::TimedOut(reason) => {
                &&& !connected
                &&& seconds > START_TIMEOUT || seconds == START_TIMEOUT && nanos > 0
                &&& reason@ == "Autobahn Server failed to start within "@ + decimal(30)
                    + " seconds"@
            },
            Attempt::Retry(wait) => {
                &&& !connected
                &&& seconds < START_TIMEOUT || seconds == START_TIMEOUT && nanos == 0
                &&& wait == 1
            },
        },
{
    if connected {
        Attempt::Started
    } else if seconds > START_TIMEOUT || seconds == START_TIMEOUT && nanos > 0 {
        Attempt::TimedOut(
            numbered("Autobahn Server failed to start within ", START_TIMEOUT, " seconds"),
        )
    } else {
        Attempt::Retry(1)
    }
}

/// The address of a server on this machine.
pub fn local_address(port: u64) -> (address: String)
    ensures
        address@ == "127.0.0.1:"@ + decimal(port as nat) + ""@,
{
    numbered("127.0.0.1:", port, "")
}

/// The target that tells how many tests there are.
pub fn case_count_target(port: u64) -> (target: String)
    ensures
        target@ == "ws://localhost:"@ + decimal(port as nat) + "/getCaseCount"@,
{
    numbered("ws://localhost:", port, "/getCaseCount")
}

/// The target that runs a test for an agent.
pub fn run_case_target(port: u64, case: u32, agent: &str) -> (target: String)
    ensures
        target@ == "ws://localhost:"@ + decimal(port as nat) + "/runCase?case="@ + decimal(
            case as nat,
        ) + "&agent="@ + agent@,
{
    let mut target = numbered("ws://localhost:", port, "/runCase?case=");
    target.append(numbered("", case as u64, "&agent=").as_str());
    target.append(agent);
    proof {
        reveal_strlit("");
        assert(""@ =~= Seq::empty());
        assert(target@ =~= "ws://localhost:"@ + decimal(port as nat) + "/runCase?case="@ + decimal(
            case as nat,
        ) + "&agent="@ + agent@);
    }
    target
}

/// The target that has the reports for an agent written.
pub fn update_reports_target(port: u64, agent: &str) -> (target: String)
    ensures
        target@ == "ws://localhost:"@ + decimal(port as nat) + "/updateReports?agent="@ + agent@,
{
    let mut target = numbered("ws://localhost:", port, "/updateReports?agent=");
    target.append(agent);
    target
}

/// How a message is answered while a test runs.
#[derive(Copy, Clone, Debug, PartialEq, Eq, Structural)]
pub enum Echo {
    /// The payload is sent back.
    Payload(PayloadType),
    /// Nothing is sent.
    Nothing,
    /// The test is over.
    Over,
}

/// Decides how a message is answered while a test runs.
pub fn echo(message: &Message) -> (echo: Echo)
    ensures
        echo == match *message {
            Message::Text => Echo::Payload(PayloadType::Text),
            Message::Binary => Echo::Payload(PayloadType::Binary),
            Message::Ping(_) => Echo::Nothing,
            Message::Pong(_) => Echo::Nothing,
            Message::Close(_) => Echo::Over,
        },
{
    match message {
        Message::Text => Echo::Payload(PayloadType::Text),
        Message::Binary => Echo::Payload(PayloadType::Binary),
        Message::Ping(_) => Echo::Nothing,
        Message::Pong(_) => Echo::Nothing,
        Message::Close(_) => Echo::Over,
    }
}

/// The arguments with which `cargo` runs an example.
pub fn cargo_command(example: &str) -> (args: Vec<String>)
    ensures
        texts_of(args@) == seq!["run"@, "--release"@, "--example"@, example@, "--all-features"@],
{
    let mut args: Vec<String> = Vec::new();
    args.push("run".to_string());
    args.push("--release".to_string());
    args.push("--example".to_string());
    args.push(example.to_string());
    args.push("--all-features".to_string());
    assert(texts_of(args@) =~= seq![
        "run"@,
        "--release"@,
        "--example"@,
        example@,
        "--all-features"@,
    ]);
    args
}

/// Adds an argument.
fn push_arg(args: &mut Vec<String>, arg: &str)
    ensures
        texts_of(final(args)@) == texts_of(old(args)@).push(arg@),
{
    args.push(arg.to_string());
    assert(texts_of(args@) =~= texts_of(old(args)@).push(arg@));
}

/// The arguments with which `docker` runs the suite's server, which tests a client: a volume is
/// mounted, and a port is opened for the container.
pub fn docker_server_command(volume: &str, port: u64, container: &str) -> (args: Vec<String>)
    ensures
        texts_of(args@) == seq![
            "run"@,
            "-d"@,
            "--rm"@,
            "-v"@,
            volume@,
            "-p"@,
            decimal(port as nat) + ":"@ + decimal(port as nat),
            "--init"@,
            "--platform"@,
            "linux/amd64"@,
            "--name"@,
            container@,
            "crossbario/autobahn-testsuite:0.8.2"@,
            "wstest"@,
            "-m"@,
            "fuzzingserver"@,
            "-s"@,
            "autobahn/fuzzingserver.json"@,
        ],
{
    let mut ports = numbered("", port, ":");
    ports.append(numbered("", port, "").as_str());
    proof {
        reveal_strlit("");
        assert(""@ =~= Seq::empty());
        assert(ports@ =~= decimal(port as nat) + ":"@ + decimal(port as nat));
    }
    let mut args: Vec<String> = Vec::new();
    push_arg(&mut args, "run");
    push_arg(&mut args, "-d");
    push_arg(&mut args, "--rm");
    push_arg(&mut args, "-v");
    push_arg(&mut args, volume);
    push_arg(&mut args, "-p");
    push_arg(&mut args, ports.as_str());
    push_arg(&mut args, "--init");
    push_arg(&mut args, "--platform");
    push_arg(&mut args, "linux/amd64");
    push_arg(&mut args, "--name");
    push_arg(&mut args, container);
    push_arg(&mut args, "crossbario/autobahn-testsuite:0.8.2");
    push_arg(&mut args, "wstest");
    push_arg(&mut args, "-m");
    push_arg(&mut args, "fuzzingserver");
    push_arg(&mut args, "-s");
    push_arg(&mut args, "autobahn/fuzzingserver.json");
    args
}

/// The arguments with which `docker` runs the suite's client, which tests a server: a volume is
/// mounted, and the container uses the network of the host.
pub fn docker_client_command(volume: &str) -> (args: Vec<String>)
    ensures
        texts_of(args@) == seq![
            "run"@,
            "--rm"@,
            "-v"@,
            volume@,
            "--network"@,
            "host"@,
            "--platform"@,
            "linux/amd64"@,
            "crossbario/autobahn-testsuite:0.8.2"@,
            "wstest"@,
            "-m"@,
            "fuzzingclient"@,
            "-s"@,
            "autobahn/fuzzingclient.json"@,
        ],
{
    let mut args: Vec<String> = Vec::new();
    push_arg(&mut args, "run");
    push_arg(&mut args, "--rm");
    push_arg(&mut args, "-v");
    push_arg(&mut args, volume);
    push_arg(&mut args, "--network");
    push_arg(&mut args, "host");
    push_arg(&mut args, "--platform");
    push_arg(&mut args, "linux/amd64");
    push_arg(&mut args, "crossbario/autobahn-testsuite:0.8.2");
    push_arg(&mut args, "wstest");
    push_arg(&mut args, "-m");
    push_arg(&mut args, "fuzzingclient");
    push_arg(&mut args, "-s");
    push_arg(&mut args, "autobahn/fuzzingclient.json");
    args
}

} // verus!
