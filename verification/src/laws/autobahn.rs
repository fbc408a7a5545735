//! What a run of the test suite comes to.

use crate::autobahn::{
    await_server_start, echo, failures_of, run_case_target, update_reports_target, validate_results,
    well_formed, Attempt, Echo, TestOutcome, Verdict,
};
use crate::handshake::subprotocols::texts_of;
use crate::protocol::{Message, PayloadType};
use crate::text::decimal;
use vstd::prelude::*;

verus! {

/// Whether a test has passed: its result is one of the three that are no failure.
pub open spec fn fine(test: (String, TestOutcome)) -> bool {
    test.1 matches TestOutcome::Behavior(behavior) && (behavior@ == "OK"@ || behavior@
        == "INFORMATIONAL"@ || behavior@ == "NON-STRICT"@)
}

/// The words for a test that has failed.
pub open spec fn complaint(test: (String, TestOutcome)) -> Seq<char> {
    match test.1 {
        TestOutcome::Behavior(behavior) => "Test "@ + test.0@ + " failed with: "@ + behavior@,
        TestOutcome::Malformed => Seq::empty(),
    }
}

/// The tests that have failed.
proof fn lemma_failures(tests: Seq<(String, TestOutcome)>)
    requires
        well_formed(tests),
    ensures
        failures_of(tests).len() == 0 <==> forall|i: int|
            0 <= i < tests.len() ==> fine(#[trigger] tests[i]),
        forall|i: int|
            0 <= i < tests.len() && !fine(#[trigger] tests[i]) ==> failures_of(tests).contains(
                complaint(tests[i]),
            ),
        forall|words: Seq<char>| #[trigger]
            failures_of(tests).contains(words) ==> exists|i: int|
                0 <= i < tests.len() && !fine(#[trigger] tests[i]) && words == complaint(tests[i]),
    decreases tests.len(),
{
    if tests.len() > 0 {
        let fewer = tests.drop_last();
        let last = tests.last();
        let before = failures_of(fewer);
        let all = failures_of(tests);
        assert(tests[tests.len() - 1] == last);
        assert(well_formed(fewer)) by {
            assert forall|i: int| 0 <= i < fewer.len() implies !((#[trigger] fewer[i]).1
                is Malformed) by {
                assert(tests[i] == fewer[i]);
            }
        }
        lemma_failures(fewer);
        assert forall|i: int| 0 <= i < tests.len() && !fine(
            #[trigger] tests[i],
        ) implies all.contains(complaint(tests[i])) by {
            if i < fewer.len() {
                assert(fewer[i] == tests[i]);
                assert(before.contains(complaint(fewer[i])));
                let k = choose|k: int| 0 <= k < before.len() && before[k] == complaint(fewer[i]);
                assert(all[k] == before[k]);
            } else {
                assert(all[all.len() - 1] == complaint(last));
            }
        }
        assert forall|words: Seq<char>| #[trigger] all.contains(words) implies exists|i: int|
            0 <= i < tests.len() && !fine(#[trigger] tests[i]) && words == complaint(tests[i]) by {
            let k = choose|k: int| 0 <= k < all.len() && all[k] == words;
            if k < before.len() {
                assert(before[k] == words);
                assert(before.contains(words));
                let i = choose|i: int|
                    0 <= i < fewer.len() && !fine(#[trigger] fewer[i]) && words == complaint(
                        fewer[i],
                    );
                assert(tests[i] == fewer[i]);
            } else {
                assert(words == complaint(last));
            }
        }
        if all.len() == 0 {
            assert forall|i: int| 0 <= i < tests.len() implies fine(#[trigger] tests[i]) by {
                if i < fewer.len() {
                    assert(fewer[i] == tests[i]);
                }
            }
        } else {
            assert(all.contains(all[0]));
        }
    }
}

/// A run has passed if every test has. Otherwise the words for each test that has failed are given,
/// and for no other. A result that is not in the form that the suite writes makes the run invalid.
pub proof fn law_run_judged(tests: &[(String, TestOutcome)], verdict: Verdict)
    requires
        call_ensures(validate_results, (tests,), verdict),
    ensures
        verdict is Invalid <==> exists|i: int|
            0 <= i < tests@.len() && (#[trigger] tests@[i]).1 is Malformed,
        verdict is Passed <==> forall|i: int| 0 <= i < tests@.len() ==> fine(#[trigger] tests@[i]),
        verdict matches Verdict::Failed(failures) ==> {
            &&& forall|i: int|
                0 <= i < tests@.len() && !fine(#[trigger] tests@[i]) ==> texts_of(
                    failures@,
                ).contains(complaint(tests@[i]))
            &&& forall|words: Seq<char>| #[trigger]
                texts_of(failures@).contains(words) ==> exists|i: int|
                    0 <= i < tests@.len() && !fine(#[trigger] tests@[i]) && words == complaint(
                        tests@[i],
                    )
        },
{
    if well_formed(tests@) {
        lemma_failures(tests@);
    } else {
        let i = choose|i: int| 0 <= i < tests@.len() && (#[trigger] tests@[i]).1 is Malformed;
        assert(!fine(tests@[i]));
    }
}

/// A server that does not start is waited for, a second at a time and for thirty seconds at most.
pub proof fn law_server_awaited(connected: bool, seconds: u64, nanos: u32, attempt: Attempt)
    requires
        call_ensures(await_server_start, (connected, seconds, nanos), attempt),
    ensures
        attempt is Started <==> connected,
        attempt is TimedOut <==> !connected && (seconds > 30 || seconds == 30 && nanos > 0),
        attempt matches Attempt::Retry(wait) ==> wait == 1,
{
}

/// Messages are sent back as what they are. Pings and pongs are not, and a close frame ends the test.
pub proof fn law_echoed(message: &Message, answer: Echo)
    requires
        call_ensures(echo, (message,), answer),
    ensures
        answer == Echo::Payload(PayloadType::Text) <==> *message is Text,
        answer == Echo::Payload(PayloadType::Binary) <==> *message is Binary,
        answer is Nothing <==> *message is Ping || *message is Pong,
        answer is Over <==> *message is Close,
{
}

/// The targets of the suite name the port, the test and the agent.
pub proof fn law_targets(port: u64, case: u32, agent: &str, run: String, update: String)
    requires
        call_ensures(run_case_target, (port, case, agent), run),
        call_ensures(update_reports_target, (port, agent), update),
    ensures
        run@ == "ws://localhost:"@ + decimal(port as nat) + "/runCase?case="@ + decimal(
            case as nat,
        ) + "&agent="@ + agent@,
        update@ == "ws://localhost:"@ + decimal(port as nat) + "/updateReports?agent="@ + agent@,
{
}

} // verus!
