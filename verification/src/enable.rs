//! The course of the `enable` command: what is asked of the system, and what is said and logged, as
//! the answers come in.
use crate::adapter::{AdapterView, PhysicalAdapter};
use crate::cidr::Cidr;
use crate::ipv4::Ipv4;
use crate::messages::{
    already_active_message, already_active_text, applied_message, applied_text, applying_message,
    applying_text, detected_message, detected_text, migration_message, migration_text,
    sync_ok_message, sync_ok_text, NO_UPLINK_LOG, NO_UPLINK_WARNING,
};
use crate::route::{
    law_written_sample_is_active, routes_to, sample_cidr, shows_route, RouteRow, NO_ERROR,
};
use crate::text::texts;
use vstd::prelude::*;

verus! {

/// The code of a mutex that another process has created.
pub const ERROR_ALREADY_EXISTS: u32 = 183;

/// What came of asking for the mutex that only one silent run holds at a time.
#[derive(Clone, Copy, Debug, PartialEq, Eq, Structural)]
pub enum GuardOutcome {
    /// This run holds it.
    Held,
    /// There is no mutex to hold.
    Unavailable,
    /// Another run holds it; the handle that came back is to be closed.
    Taken,
}

/// Judges the handle that came back, and the error that was left with it. That no two runs hold the
/// mutex at a time is the system's part.
pub fn try_acquire(handle_is_null: bool, last_error: u32) -> (r: GuardOutcome)
    ensures
        r == (if handle_is_null {
            GuardOutcome::Unavailable
        } else if last_error == ERROR_ALREADY_EXISTS {
            GuardOutcome::Taken
        } else {
            GuardOutcome::Held
        }),
{
    if handle_is_null {
        GuardOutcome::Unavailable
    } else if last_error == ERROR_ALREADY_EXISTS {
        GuardOutcome::Taken
    } else {
        GuardOutcome::Held
    }
}

/// What the command waits for.
#[derive(Clone, Copy, Debug, PartialEq, Eq, Structural)]
pub enum Stage {
    Guard,
    Gateway,
    Policy,
    Sample,
    Routes,
    Finished,
}

/// What the command asks of the system.
#[derive(Clone, Copy, Debug, PartialEq, Eq, Structural)]
pub enum EnableRequest {
    /// Take the mutex of silent runs.
    AcquireGuard,
    /// Search for the physical gateway.
    FindGateway { settle: bool },
    /// Bring the name resolution policy into force and up to date.
    EnsurePolicy,
    /// Look up the route of the sample subnet.
    QuerySample { gateway_ip: Ipv4, if_index: u32 },
    /// Remove the routes of all subnets, write them anew through the gateway, and remove the
    /// persistent ones.
    RewriteRoutes { gateway_ip: Ipv4, if_index: u32 },
    /// Run the connectivity test; the command then ends.
    Benchmark,
    /// Nothing; the command ends.
    Stop,
}

/// An answer of the system.
pub enum EnableEvent {
    Guard { outcome: GuardOutcome },
    Gateway { found: Option<PhysicalAdapter> },
    PolicyEnsured,
    Sample { active: bool },
    RoutesWritten { applied: usize, elapsed: String },
}

/// An answer of the system, with its texts as sequences.
pub enum EventView {
    Guard { outcome: GuardOutcome },
    Gateway { found: Option<AdapterView> },
    PolicyEnsured,
    Sample { active: bool },
    RoutesWritten { applied: nat, elapsed: Seq<char> },
}

/// An adapter that there may be none of.
pub open spec fn adapter_view(a: Option<PhysicalAdapter>) -> Option<AdapterView> {
    match a {
        Some(ad) => Some(ad@),
        None => None,
    }
}

/// A string that there may be none of.
pub open spec fn text_view(s: Option<String>) -> Option<Seq<char>> {
    match s {
        Some(t) => Some(t@),
        None => None,
    }
}

impl View for EnableEvent {
    type V = EventView;

    open spec fn view(&self) -> EventView {
        match *self {
            EnableEvent::Guard { outcome } => EventView::Guard { outcome },
            EnableEvent::Gateway { found } => EventView::Gateway { found: adapter_view(found) },
            EnableEvent::PolicyEnsured => EventView::PolicyEnsured,
            EnableEvent::Sample { active } => EventView::Sample { active },
            EnableEvent::RoutesWritten { applied, elapsed } => EventView::RoutesWritten {
                applied: applied as nat,
                elapsed: elapsed@,
            },
        }
    }
}

/// What to do upon an answer, in this order: write the log line, print the warning, print the
/// lines, make the request.
pub struct EnableStep {
    pub log: Option<String>,
    pub warn: Option<String>,
    pub say: Vec<String>,
    pub request: EnableRequest,
}

/// What to do upon an answer, with its texts as sequences.
pub struct StepView {
    pub log: Option<Seq<char>>,
    pub warn: Option<Seq<char>>,
    pub say: Seq<Seq<char>>,
    pub request: EnableRequest,
}

impl View for EnableStep {
    type V = StepView;

    open spec fn view(&self) -> StepView {
        StepView {
            log: text_view(self.log),
            warn: text_view(self.warn),
            say: texts(self.say@),
            request: self.request,
        }
    }
}

/// A run of the command.
pub struct EnableRun {
    pub silent: bool,
    pub force: bool,
    /// The number of subnets.
    pub subnets: usize,
    pub stage: Stage,
    /// The adapter, once it is known.
    pub adapter: Option<PhysicalAdapter>,
}

/// A run of the command, with its texts as sequences.
pub struct RunView {
    pub silent: bool,
    pub force: bool,
    pub subnets: nat,
    pub stage: Stage,
    pub adapter: Option<AdapterView>,
}

impl View for EnableRun {
    type V = RunView;

    open spec fn view(&self) -> RunView {
        RunView {
            silent: self.silent,
            force: self.force,
            subnets: self.subnets as nat,
            stage: self.stage,
            adapter: adapter_view(self.adapter),
        }
    }
}

impl RunView {
    /// The adapter is known wherever the stage needs it.
    pub open spec fn wf(self) -> bool {
        self.stage == Stage::Policy || self.stage == Stage::Sample || self.stage == Stage::Routes
            ==> self.adapter is Some
    }

    /// The run at another stage.
    pub open spec fn at(self, stage: Stage) -> RunView {
        RunView { stage, ..self }
    }

    /// How many answers are still to come, at most.
    pub open spec fn left(self) -> nat {
        match self.stage {
            Stage::Guard => 5,
            Stage::Gateway => 4,
            Stage::Policy => 3,
            Stage::Sample => 2,
            Stage::Routes => 1,
            Stage::Finished => 0,
        }
    }
}

/// A step that only makes a request.
pub open spec fn quiet(request: EnableRequest) -> StepView {
    StepView { log: None, warn: None, say: seq![], request }
}

/// The start of a run: a silent one asks for the mutex first, another for the gateway.
pub open spec fn started(silent: bool, force: bool, subnets: nat) -> (RunView, EnableRequest) {
    let run: RunView = RunView { silent, force, subnets, stage: Stage::Gateway, adapter: None };
    if silent {
        (run.at(Stage::Guard), EnableRequest::AcquireGuard)
    } else {
        (run, EnableRequest::FindGateway { settle: false })
    }
}

/// The step before routes are written through the adapter `ad`.
pub open spec fn rewriting(run: RunView, ad: AdapterView) -> (RunView, StepView) {
    (
        run.at(Stage::Routes),
        StepView {
            log: None,
            warn: None,
            say: if run.silent {
                seq![]
            } else {
                seq![detected_text(ad), applying_text(run.subnets)]
            },
            request: EnableRequest::RewriteRoutes {
                gateway_ip: ad.gateway_ip,
                if_index: ad.if_index,
            },
        },
    )
}

/// How a run goes on upon an answer. An answer that it does not wait for ends it.
pub open spec fn advanced(run: RunView, event: EventView) -> (RunView, StepView) {
    let end: RunView = run.at(Stage::Finished);
    match (run.stage, event) {
        (Stage::Guard, EventView::Guard { outcome }) => if outcome == GuardOutcome::Held {
            (run.at(Stage::Gateway), quiet(EnableRequest::FindGateway { settle: run.silent }))
        } else {
            (end, quiet(EnableRequest::Stop))
        },
        (Stage::Gateway, EventView::Gateway { found }) => match found {
            Some(ad) => (
                RunView { stage: Stage::Policy, adapter: Some(ad), ..run },
                quiet(EnableRequest::EnsurePolicy),
            ),
            None => (
                end,
                StepView {
                    log: Some(NO_UPLINK_LOG@),
                    warn: if run.silent {
                        None
                    } else {
                        Some(NO_UPLINK_WARNING@)
                    },
                    say: seq![],
                    request: EnableRequest::Stop,
                },
            ),
        },
        (Stage::Policy, EventView::PolicyEnsured) => match run.adapter {
            Some(ad) => if run.force {
                rewriting(run, ad)
            } else {
                (
                    run.at(Stage::Sample),
                    quiet(
                        EnableRequest::QuerySample {
                            gateway_ip: ad.gateway_ip,
                            if_index: ad.if_index,
                        },
                    ),
                )
            },
            None => (end, quiet(EnableRequest::Stop)),
        },
        (Stage::Sample, EventView::Sample { active }) => match run.adapter {
            Some(ad) => if active {
                (
                    end,
                    StepView {
                        log: Some(sync_ok_text(ad)),
                        warn: None,
                        say: if run.silent {
                            seq![]
                        } else {
                            seq![already_active_text(ad)]
                        },
                        request: EnableRequest::Stop,
                    },
                )
            } else {
                rewriting(run, ad)
            },
            None => (end, quiet(EnableRequest::Stop)),
        },
        (Stage::Routes, EventView::RoutesWritten { applied, elapsed }) => match run.adapter {
            Some(ad) => (
                end,
                StepView {
                    log: Some(migration_text(applied, ad, elapsed)),
                    warn: None,
                    say: if run.silent {
                        seq![]
                    } else {
                        seq![applied_text(applied, elapsed)]
                    },
                    request: if run.silent {
                        EnableRequest::Stop
                    } else {
                        EnableRequest::Benchmark
                    },
                },
            ),
            None => (end, quiet(EnableRequest::Stop)),
        },
        _ => (end, quiet(EnableRequest::Stop)),
    }
}

/// A step that only makes a request.
fn quiet_step(request: EnableRequest) -> (r: EnableStep)
    ensures
        r@ == quiet(request),
{
    let r: EnableStep = EnableStep { log: None, warn: None, say: Vec::new(), request };
    assert(r@.say =~= seq![]);
    r
}

impl EnableRun {
    /// Starts a run, and says what to ask first.
    pub fn start(silent: bool, force: bool, subnets: usize) -> (r: (EnableRun, EnableRequest))
        ensures
            (r.0@, r.1) == started(silent, force, subnets as nat),
            r.0@.wf(),
    {
        if silent {
            (
                EnableRun { silent, force, subnets, stage: Stage::Guard, adapter: None },
                EnableRequest::AcquireGuard,
            )
        } else {
            (
                EnableRun { silent, force, subnets, stage: Stage::Gateway, adapter: None },
                EnableRequest::FindGateway { settle: false },
            )
        }
    }

    /// The step before routes are written through the adapter.
    fn rewrite_step(&self, ad: &PhysicalAdapter) -> (r: EnableStep)
        ensures
            r@ == rewriting(self@, ad@).1,
    {
        let mut say: Vec<String> = Vec::new();
        if !self.silent {
            say.push(detected_message(ad));
            say.push(applying_message(self.subnets));
        }
        let r: EnableStep = EnableStep {
            log: None,
            warn: None,
            say,
            request: EnableRequest::RewriteRoutes {
                gateway_ip: ad.gateway_ip,
                if_index: ad.if_index,
            },
        };
        assert(r@.say =~= rewriting(self@, ad@).1.say);
        r
    }

    /// Takes an answer of the system and says how to go on.
    pub fn step(&mut self, event: EnableEvent) -> (r: EnableStep)
        ensures
            (final(self)@, r@) == advanced(old(self)@, event@),
    {
        let stage: Stage = self.stage;
        match (stage, event) {
            (Stage::Guard, EnableEvent::Guard { outcome }) => {
                if outcome == GuardOutcome::Held {
                    self.stage = Stage::Gateway;
                    quiet_step(EnableRequest::FindGateway { settle: self.silent })
                } else {
                    self.stage = Stage::Finished;
                    quiet_step(EnableRequest::Stop)
                }
            },
            (Stage::Gateway, EnableEvent::Gateway { found }) => {
                if found.is_some() {
                    self.adapter = found;
                    self.stage = Stage::Policy;
                    quiet_step(EnableRequest::EnsurePolicy)
                } else {
                    self.stage = Stage::Finished;
                    let r: EnableStep = EnableStep {
                        log: Some(NO_UPLINK_LOG.to_owned()),
                        warn: if self.silent {
                            None
                        } else {
                            Some(NO_UPLINK_WARNING.to_owned())
                        },
                        say: Vec::new(),
                        request: EnableRequest::Stop,
                    };
                    assert(r@.say =~= seq![]);
                    r
                }
            },
            (Stage::Policy, EnableEvent::PolicyEnsured) => {
                let step: EnableStep = match &self.adapter {
                    Some(ad) => {
                        if self.force {
                            self.rewrite_step(ad)
                        } else {
                            quiet_step(
                                EnableRequest::QuerySample {
                                    gateway_ip: ad.gateway_ip,
                                    if_index: ad.if_index,
                                },
                            )
                        }
                    },
                    None => quiet_step(EnableRequest::Stop),
                };
                self.stage = if self.adapter.is_none() {
                    Stage::Finished
                } else if self.force {
                    Stage::Routes
                } else {
                    Stage::Sample
                };
                step
            },
            (Stage::Sample, EnableEvent::Sample { active }) => {
                let step: EnableStep = match &self.adapter {
                    Some(ad) => {
                        if active {
                            let mut say: Vec<String> = Vec::new();
                            if !self.silent {
                                say.push(already_active_message(ad));
                            }
                            let r: EnableStep = EnableStep {
                                log: Some(sync_ok_message(ad)),
                                warn: None,
                                say,
                                request: EnableRequest::Stop,
                            };
                            assert(r@.say =~= advanced(old(self)@, event@).1.say);
                            r
                        } else {
                            self.rewrite_step(ad)
                        }
                    },
                    None => quiet_step(EnableRequest::Stop),
                };
                self.stage = if self.adapter.is_none() || active {
                    Stage::Finished
                } else {
                    Stage::Routes
                };
                step
            },
            (Stage::Routes, EnableEvent::RoutesWritten { applied, elapsed }) => {
                let step: EnableStep = match &self.adapter {
                    Some(ad) => {
                        let mut say: Vec<String> = Vec::new();
                        if !self.silent {
                            say.push(applied_message(applied, elapsed.as_str()));
                        }
                        let r: EnableStep = EnableStep {
                            log: Some(migration_message(applied, ad, elapsed.as_str())),
                            warn: None,
                            say,
                            request: if self.silent {
                                EnableRequest::Stop
                            } else {
                                EnableRequest::Benchmark
                            },
                        };
                        assert(r@.say =~= advanced(old(self)@, event@).1.say);
                        r
                    },
                    None => quiet_step(EnableRequest::Stop),
                };
                self.stage = Stage::Finished;
                step
            },
            _ => {
                self.stage = Stage::Finished;
                quiet_step(EnableRequest::Stop)
            },
        }
    }
}

/// Every step keeps the adapter known wherever the stage needs it.
pub proof fn law_run_stays_well_formed(run: RunView, event: EventView)
    requires
        run.wf(),
    ensures
        advanced(run, event).0.wf(),
{
}

/// Every answer brings a run closer to its end, and a run has ended exactly when it asks for nothing
/// more that is to be answered.
pub proof fn law_run_ends(run: RunView, event: EventView)
    ensures
        run.stage != Stage::Finished ==> advanced(run, event).0.left() < run.left(),
        advanced(run, event).0.stage == Stage::Finished <==> advanced(run, event).1.request
            == EnableRequest::Stop || advanced(run, event).1.request == EnableRequest::Benchmark,
{
}

/// A silent run prints nothing, whatever the answers.
pub proof fn law_silent_run_prints_nothing(run: RunView, event: EventView)
    requires
        run.silent,
    ensures
        advanced(run, event).1.say.len() == 0,
        advanced(run, event).1.warn is None,
        advanced(run, event).1.request != EnableRequest::Benchmark,
{
}

/// The answers that the system has for one run.
pub struct Answers {
    pub outcome: GuardOutcome,
    pub found: Option<AdapterView>,
    pub active: bool,
    pub applied: nat,
    pub elapsed: Seq<char>,
}

/// The answer to what a run waits for at a stage.
pub open spec fn answer(stage: Stage, answers: Answers) -> EventView {
    match stage {
        Stage::Guard => EventView::Guard { outcome: answers.outcome },
        Stage::Gateway => EventView::Gateway { found: answers.found },
        Stage::Policy => EventView::PolicyEnsured,
        Stage::Sample => EventView::Sample { active: answers.active },
        _ => EventView::RoutesWritten { applied: answers.applied, elapsed: answers.elapsed },
    }
}

/// What a run comes to: whether it asked for the policy, through which gateway and interface it
/// asked for routes, and what it logged.
pub struct Report {
    pub ensured: bool,
    pub rewrote: Option<(Ipv4, u32)>,
    pub logged: Seq<Seq<char>>,
}

/// What becomes of a run that gets the given answers.
pub open spec fn report(run: RunView, answers: Answers) -> Report
    decreases run.left(),
{
    if run.stage == Stage::Finished {
        Report { ensured: false, rewrote: None, logged: seq![] }
    } else {
        let (next, step) = advanced(run, answer(run.stage, answers));
        let rest: Report = report(next, answers);
        Report {
            ensured: rest.ensured || step.request == EnableRequest::EnsurePolicy,
            rewrote: match step.request {
                EnableRequest::RewriteRoutes { gateway_ip, if_index } => Some(
                    (gateway_ip, if_index),
                ),
                _ => rest.rewrote,
            },
            logged: match step.log {
                Some(line) => seq![line] + rest.logged,
                None => rest.logged,
            },
        }
    }
}

/// What `enable` comes to. A silent run that does not get the mutex does nothing and logs nothing.
/// Any other searches for the gateway; without one it logs that and does nothing. With one it
/// brings the policy into force, and writes the routes through it if it is forced to, or if they
/// are not in place. It logs one line.
pub proof fn law_enable_report(silent: bool, force: bool, subnets: nat, answers: Answers)
    ensures
        ({
            let done: Report = report(started(silent, force, subnets).0, answers);
            let admitted: bool = !silent || answers.outcome == GuardOutcome::Held;
            &&& done.ensured <==> admitted && answers.found is Some
            &&& done.rewrote == (if admitted && answers.found is Some && (force
                || !answers.active) {
                Some((answers.found->0.gateway_ip, answers.found->0.if_index))
            } else {
                None
            })
            &&& done.logged == (if !admitted {
                seq![]
            } else if answers.found is None {
                seq![NO_UPLINK_LOG@]
            } else if !force && answers.active {
                seq![sync_ok_text(answers.found->0)]
            } else {
                seq![migration_text(answers.applied, answers.found->0, answers.elapsed)]
            })
        }),
{
    reveal_with_fuel(report, 6);
    let done: Report = report(started(silent, force, subnets).0, answers);
    let admitted: bool = !silent || answers.outcome == GuardOutcome::Held;
    if !admitted {
        assert(done.logged =~= seq![]);
    } else if answers.found is None {
        assert(done.logged =~= seq![NO_UPLINK_LOG@]);
    } else if !force && answers.active {
        assert(done.logged =~= seq![sync_ok_text(answers.found->0)]);
    } else {
        assert(done.logged =~= seq![
            migration_text(answers.applied, answers.found->0, answers.elapsed),
        ]);
    }
}

/// Once a run has written the routes, a later run that is not forced changes no route if it finds
/// the same gateway and the route that was written for the sample subnet, and writes all routes
/// through the new gateway if it finds another one.
pub proof fn law_later_run_follows_the_gateway(
    silent: bool,
    subnets: nat,
    cidrs: Seq<Cidr>,
    i: int,
    written: AdapterView,
    answers: Answers,
)
    requires
        0 <= i < cidrs.len(),
        cidrs[i] == sample_cidr(),
        !silent || answers.outcome == GuardOutcome::Held,
        answers.found is Some,
        ({
            let row: RouteRow = routes_to(written.gateway_ip, written.if_index, cidrs)[i];
            answers.active == shows_route(
                NO_ERROR,
                row.next_hop,
                row.if_index,
                answers.found->0.gateway_ip,
                answers.found->0.if_index,
            )
        }),
    ensures
        ({
            let now: AdapterView = answers.found->0;
            let done: Report = report(started(silent, false, subnets).0, answers);
            &&& now.gateway_ip == written.gateway_ip && now.if_index == written.if_index
                ==> done.rewrote is None && done.logged == seq![sync_ok_text(now)]
            &&& now.gateway_ip != written.gateway_ip || now.if_index != written.if_index
                ==> done.rewrote == Some((now.gateway_ip, now.if_index))
        }),
{
    let now: AdapterView = answers.found->0;
    law_written_sample_is_active(
        written.gateway_ip,
        written.if_index,
        cidrs,
        i,
        now.gateway_ip,
        now.if_index,
    );
    law_enable_report(silent, false, subnets, answers);
}

/// All that a run asks for from some point on, and all that it prints and warns of.
pub struct Course {
    pub asked: Seq<EnableRequest>,
    pub said: Seq<Seq<char>>,
    pub warned: Seq<Seq<char>>,
}

/// The course of a run that gets the given answers.
pub open spec fn course(run: RunView, answers: Answers) -> Course
    decreases run.left(),
{
    if run.stage == Stage::Finished {
        Course { asked: seq![], said: seq![], warned: seq![] }
    } else {
        let (next, step) = advanced(run, answer(run.stage, answers));
        let rest: Course = course(next, answers);
        Course {
            asked: seq![step.request] + rest.asked,
            said: step.say + rest.said,
            warned: (match step.warn {
                Some(line) => seq![line],
                None => seq![],
            }) + rest.warned,
        }
    }
}

/// The course of `enable`. A silent run asks for the mutex first, and stops without it. Then the
/// gateway is searched for, and only a silent run lets the network settle. Without a gateway the run
/// stops, with a warning unless it is silent. With one the policy is brought into force, then the
/// route of the sample subnet is looked up unless the run is forced, and then the routes are written
/// through that gateway unless the lookup showed them; a run that is not silent ends with the
/// connectivity test.
pub proof fn law_enable_course(silent: bool, force: bool, subnets: nat, answers: Answers)
    ensures
        ({
            let (run, first) = started(silent, force, subnets);
            let c: Course = course(run, answers);
            let asked: Seq<EnableRequest> = seq![first] + c.asked;
            let search: Seq<EnableRequest> = if silent {
                seq![
                    EnableRequest::AcquireGuard,
                    EnableRequest::FindGateway { settle: true },
                ]
            } else {
                seq![EnableRequest::FindGateway { settle: false }]
            };
            let gateway_ip: Ipv4 = answers.found->0.gateway_ip;
            let if_index: u32 = answers.found->0.if_index;
            let lookup: EnableRequest = EnableRequest::QuerySample { gateway_ip, if_index };
            let rewrite: EnableRequest = EnableRequest::RewriteRoutes { gateway_ip, if_index };
            if silent && answers.outcome != GuardOutcome::Held {
                &&& asked == seq![EnableRequest::AcquireGuard, EnableRequest::Stop]
                &&& c.said.len() == 0
                &&& c.warned.len() == 0
            } else if answers.found is None {
                &&& asked == search + seq![EnableRequest::Stop]
                &&& c.said.len() == 0
                &&& silent ==> c.warned.len() == 0
                &&& !silent ==> c.warned == seq![
                    "\x1b[1;31m[-] Could not detect active physical gateway. Network adapter may still be initializing.\x1b[0m"@,
                ]
            } else if !force && answers.active {
                &&& asked == search + seq![EnableRequest::EnsurePolicy, lookup, EnableRequest::Stop]
                &&& silent ==> c.said.len() == 0
                &&& !silent ==> c.said == seq![already_active_text(answers.found->0)]
                &&& c.warned.len() == 0
            } else {
                &&& asked == search + seq![EnableRequest::EnsurePolicy] + (if force {
                    seq![]
                } else {
                    seq![lookup]
                }) + seq![
                    rewrite,
                    if silent {
                        EnableRequest::Stop
                    } else {
                        EnableRequest::Benchmark
                    },
                ]
                &&& silent ==> c.said.len() == 0
                &&& !silent ==> c.said == seq![
                    detected_text(answers.found->0),
                    applying_text(subnets),
                    applied_text(answers.applied, answers.elapsed),
                ]
                &&& c.warned.len() == 0
            }
        }),
{
    let (run, first) = started(silent, force, subnets);
    let c: Course = course(run, answers);
    let asked: Seq<EnableRequest> = seq![first] + c.asked;
    let after: RunView = run.at(Stage::Gateway);
    if silent && answers.outcome != GuardOutcome::Held {
        let end: RunView = run.at(Stage::Finished);
        assert(course(end, answers).asked =~= seq![]);
        assert(asked =~= seq![EnableRequest::AcquireGuard, EnableRequest::Stop]);
    } else {
        lemma_course_of_search(after, answers);
        let rest: Course = course(after, answers);
        if silent {
            assert(c.asked =~= seq![EnableRequest::FindGateway { settle: true }] + rest.asked);
            assert(c.said =~= rest.said);
            assert(c.warned =~= rest.warned);
        } else {
            assert(after == run);
        }
        let search: Seq<EnableRequest> = if silent {
            seq![EnableRequest::AcquireGuard, EnableRequest::FindGateway { settle: true }]
        } else {
            seq![EnableRequest::FindGateway { settle: false }]
        };
        assert(asked =~= search + rest.asked);
        if answers.found is Some && (force || !answers.active) {
            let ad: AdapterView = answers.found->0;
            let lookup: EnableRequest = EnableRequest::QuerySample {
                gateway_ip: ad.gateway_ip,
                if_index: ad.if_index,
            };
            let (x, y, z) = (
                seq![EnableRequest::EnsurePolicy],
                if force {
                    seq![]
                } else {
                    seq![lookup]
                },
                seq![
                    EnableRequest::RewriteRoutes {
                        gateway_ip: ad.gateway_ip,
                        if_index: ad.if_index,
                    },
                    if silent {
                        EnableRequest::Stop
                    } else {
                        EnableRequest::Benchmark
                    },
                ],
            );
            assert(rest.asked == x + y + z);
            assert(search + (x + y + z) =~= search + x + y + z);
        }
    }
}

/// The end of a run that writes routes.
proof fn lemma_course_of_writing(run: RunView, ad: AdapterView, answers: Answers)
    requires
        run.stage == Stage::Routes,
        run.adapter == Some(ad),
    ensures
        ({
            let c: Course = course(run, answers);
            &&& c.asked == seq![
                if run.silent {
                    EnableRequest::Stop
                } else {
                    EnableRequest::Benchmark
                },
            ]
            &&& run.silent ==> c.said.len() == 0
            &&& !run.silent ==> c.said == seq![applied_text(answers.applied, answers.elapsed)]
            &&& c.warned.len() == 0
        }),
{
    let end: RunView = run.at(Stage::Finished);
    let c: Course = course(run, answers);
    assert(course(end, answers).asked =~= seq![] && course(end, answers).said =~= seq![]);
    assert(c.asked =~= seq![
        if run.silent {
            EnableRequest::Stop
        } else {
            EnableRequest::Benchmark
        },
    ]);
    if !run.silent {
        assert(c.said =~= seq![applied_text(answers.applied, answers.elapsed)]);
    }
}

/// What a run comes to once its search has an answer.
proof fn lemma_course_of_search(run: RunView, answers: Answers)
    requires
        run.stage == Stage::Gateway,
    ensures
        ({
            let c: Course = course(run, answers);
            let gateway_ip: Ipv4 = answers.found->0.gateway_ip;
            let if_index: u32 = answers.found->0.if_index;
            let lookup: EnableRequest = EnableRequest::QuerySample { gateway_ip, if_index };
            let rewrite: EnableRequest = EnableRequest::RewriteRoutes { gateway_ip, if_index };
            if answers.found is None {
                &&& c.asked == seq![EnableRequest::Stop]
                &&& c.said.len() == 0
                &&& run.silent ==> c.warned.len() == 0
                &&& !run.silent ==> c.warned == seq![NO_UPLINK_WARNING@]
            } else if !run.force && answers.active {
                &&& c.asked == seq![EnableRequest::EnsurePolicy, lookup, EnableRequest::Stop]
                &&& run.silent ==> c.said.len() == 0
                &&& !run.silent ==> c.said == seq![already_active_text(answers.found->0)]
                &&& c.warned.len() == 0
            } else {
                &&& c.asked == seq![EnableRequest::EnsurePolicy] + (if run.force {
                    seq![]
                } else {
                    seq![lookup]
                }) + seq![
                    rewrite,
                    if run.silent {
                        EnableRequest::Stop
                    } else {
                        EnableRequest::Benchmark
                    },
                ]
                &&& run.silent ==> c.said.len() == 0
                &&& !run.silent ==> c.said == seq![
                    detected_text(answers.found->0),
                    applying_text(run.subnets),
                    applied_text(answers.applied, answers.elapsed),
                ]
                &&& c.warned.len() == 0
            }
        }),
{
    let c: Course = course(run, answers);
    let end: RunView = run.at(Stage::Finished);
    let done: Course = course(end, answers);
    assert(done.asked =~= seq![] && done.said =~= seq![] && done.warned =~= seq![]);
    if answers.found is None {
        assert(c.asked =~= seq![EnableRequest::Stop]);
        if !run.silent {
            assert(c.warned =~= seq![NO_UPLINK_WARNING@]);
        }
    } else {
        let ad: AdapterView = answers.found->0;
        let known: RunView = RunView { stage: Stage::Policy, adapter: Some(ad), ..run };
        let writing: RunView = known.at(Stage::Routes);
        let looking: RunView = known.at(Stage::Sample);
        let lookup: EnableRequest = EnableRequest::QuerySample {
            gateway_ip: ad.gateway_ip,
            if_index: ad.if_index,
        };
        let rewrite: EnableRequest = EnableRequest::RewriteRoutes {
            gateway_ip: ad.gateway_ip,
            if_index: ad.if_index,
        };
        let last: EnableRequest = if run.silent {
            EnableRequest::Stop
        } else {
            EnableRequest::Benchmark
        };
        lemma_course_of_writing(writing, ad, answers);
        let k: Course = course(known, answers);
        let l: Course = course(looking, answers);
        let w: Course = course(writing, answers);
        assert(c.asked =~= seq![EnableRequest::EnsurePolicy] + k.asked);
        assert(c.said =~= k.said);
        assert(c.warned =~= k.warned);
        if run.force {
            assert(k.asked =~= seq![rewrite] + w.asked);
            assert(c.asked =~= seq![EnableRequest::EnsurePolicy] + seq![] + seq![rewrite, last]);
        } else {
            assert(k.asked =~= seq![lookup] + l.asked);
            assert(k.said =~= l.said);
            if answers.active {
                assert(looking.at(Stage::Finished).stage == Stage::Finished);
                let e: Course = course(looking.at(Stage::Finished), answers);
                assert(e.asked =~= seq![] && e.said =~= seq![]);
                assert(l.asked =~= seq![EnableRequest::Stop]);
                assert(c.asked =~= seq![EnableRequest::EnsurePolicy, lookup, EnableRequest::Stop]);
                if !run.silent {
                    assert(c.said =~= seq![already_active_text(ad)]);
                }
            } else {
                assert(looking.at(Stage::Routes) == writing);
                assert(l.asked =~= seq![rewrite] + w.asked);
                assert(c.asked =~= seq![EnableRequest::EnsurePolicy] + seq![lookup] + seq![
                    rewrite,
                    last,
                ]);
            }
        }
        if !run.silent && (run.force || !answers.active) {
            assert(c.said =~= seq![detected_text(ad), applying_text(run.subnets)] + w.said);
            assert(c.said =~= seq![
                detected_text(ad),
                applying_text(run.subnets),
                applied_text(answers.applied, answers.elapsed),
            ]);
        }
    }
}

/// A run is never told of another gateway than the one that it found, keeps how it was started, and
/// logs that there is none in fixed words. An answer that it does not wait for ends it without a word.
pub proof fn law_run_keeps_what_it_knows(run: RunView, event: EventView)
    ensures
        ({
            let (next, step) = advanced(run, event);
            let fits: bool = match run.stage {
                Stage::Guard => event is Guard,
                Stage::Gateway => event is Gateway,
                Stage::Policy => event is PolicyEnsured,
                Stage::Sample => event is Sample,
                Stage::Routes => event is RoutesWritten,
                Stage::Finished => false,
            };
            &&& next.silent == run.silent && next.force == run.force && next.subnets == run.subnets
            &&& next.adapter == (match (run.stage, event) {
                (Stage::Gateway, EventView::Gateway { found: Some(ad) }) => Some(ad),
                _ => run.adapter,
            })
            &&& !fits ==> next.stage == Stage::Finished && step.request == EnableRequest::Stop
                && step.log is None && step.warn is None && step.say.len() == 0
            &&& run.stage == Stage::Gateway && event == (EventView::Gateway { found: None })
                ==> step.log
                == Some("NO_UPLINK: Physical gateway not detected after DHCP settle window."@)
        }),
{
}

/// The parts of a run, an answer and a step that contracts speak of are their fields.
pub proof fn law_enable_views(run: EnableRun, event: EnableEvent, step: EnableStep)
    ensures
        run@.silent == run.silent && run@.force == run.force && run@.subnets == run.subnets,
        run@.stage == run.stage,
        run.adapter matches Some(ad) ==> run@.adapter == Some(ad@),
        run.adapter is None ==> run@.adapter is None,
        match event {
            EnableEvent::Guard { outcome } => event@ == (EventView::Guard { outcome }),
            EnableEvent::Gateway { found: Some(ad) } => event@ == (EventView::Gateway {
                found: Some(ad@),
            }),
            EnableEvent::Gateway { found: None } => event@ == (EventView::Gateway { found: None }),
            EnableEvent::PolicyEnsured => event@ == EventView::PolicyEnsured,
            EnableEvent::Sample { active } => event@ == (EventView::Sample { active }),
            EnableEvent::RoutesWritten { applied, elapsed } => event@ == (
            EventView::RoutesWritten { applied: applied as nat, elapsed: elapsed@ }),
        },
        step.log matches Some(s) ==> step@.log == Some(s@),
        step.log is None ==> step@.log is None,
        step.warn matches Some(s) ==> step@.warn == Some(s@),
        step.warn is None ==> step@.warn is None,
        step@.say.len() == step.say@.len(),
        forall|i: int| 0 <= i < step.say@.len() ==> #[trigger] step@.say[i] == step.say@[i]@,
        step@.request == step.request,
{
}

} // verus!
