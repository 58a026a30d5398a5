//! Detection of well-known services on a remote host.
//!
//! A probe is a short dialogue: it names a command, is told how the command
//! ended, and either names the next command or reports what it found. The
//! caller runs the commands over SSH; nothing here waits or talks to a host.

use vstd::prelude::*;
use crate::text::chars_of;
use crate::text::contains_seq;
use crate::text::first_line;
use crate::text::first_line_end;
use crate::text::ranges_view;
use crate::text::split_words;
use crate::text::str_contains;
use crate::text::string_of;
use crate::text::strip_trailing;
use crate::text::strip_trailing_end;
use crate::text::words;

verus! {

/// Whether a detected service runs.
#[derive(Debug, Clone, Copy, PartialEq, Eq, Structural)]
pub enum ServiceStatus {
    /// Proof was found that the service runs.
    Running,
    /// The binary is there, and nothing shows that the service runs.
    Stopped,
    /// The binary is there; whether it runs was not looked into.
    Installed,
}

impl ServiceStatus {
    /// The name of the status in lower case.
    pub fn as_str(&self) -> (name: &'static str)
        ensures
            name@ == match *self {
                ServiceStatus::Running => "running"@,
                ServiceStatus::Stopped => "stopped"@,
                ServiceStatus::Installed => "installed"@,
            },
    {
        match self {
            ServiceStatus::Running => "running",
            ServiceStatus::Stopped => "stopped",
            ServiceStatus::Installed => "installed",
        }
    }
}

/// A service found on the remote host.
#[derive(Debug, Clone)]
pub struct DetectedService {
    pub name: String,
    pub version: String,
    pub status: ServiceStatus,
    /// The port that the service usually listens on, 0 where it has none.
    pub port: u16,
}

/// A word without the commas at its end, and then without the semicolons
/// at its end.
pub open spec fn version_token(word: Seq<char>) -> Seq<char> {
    strip_trailing(strip_trailing(word, ','), ';')
}

/// Whether a token looks like a version: it starts with a digit and holds a
/// dot.
pub open spec fn is_version_like(token: Seq<char>) -> bool {
    token.len() > 0 && '0' <= token[0] <= '9' && token.contains('.')
}

/// The token of the first word at or after `from` that looks like a
/// version.
pub open spec fn first_version(all: Seq<Seq<char>>, from: int) -> Option<Seq<char>>
    decreases all.len() - from,
{
    if from < 0 || from >= all.len() {
        None
    } else if is_version_like(version_token(all[from])) {
        Some(version_token(all[from]))
    } else {
        first_version(all, from + 1)
    }
}

/// The version that a tool's output names: the first word that, with the
/// commas and semicolons at its end taken off, starts with a digit and holds
/// a dot; failing that the first line of the output; `unknown` where the
/// output is empty.
pub open spec fn parsed_version(output: Seq<char>) -> Seq<char> {
    match first_version(words(output), 0) {
        Some(version) => version,
        None => match first_line(output) {
            Some(line) => line,
            None => "unknown"@,
        },
    }
}

fn looks_like_version(chars: &Vec<char>, from: usize, to: usize) -> (like: bool)
    requires
        from <= to <= chars@.len(),
    ensures
        like == is_version_like(chars@.subrange(from as int, to as int)),
{
    let ghost token = chars@.subrange(from as int, to as int);
    if from == to {
        return false;
    }
    let first: char = chars[from];
    assert(token[0] == first);
    if !('0' <= first && first <= '9') {
        return false;
    }
    let mut k: usize = from;
    while k < to
        invariant
            from <= k <= to <= chars@.len(),
            token == chars@.subrange(from as int, to as int),
            token.len() > 0 && '0' <= token[0] <= '9',
            forall|j: int| 0 <= j < k - from ==> token[j] != '.',
        decreases to - k,
    {
        if chars[k] == '.' {
            assert(token[k - from] == '.');
            assert(token.contains('.'));
            return true;
        }
        k += 1;
    }
    assert(!token.contains('.'));
    false
}

/// Extracts the version from the output of a tool's version command.
pub fn parse_version(output: &str, _tool: &str) -> (version: String)
    ensures
        version@ == parsed_version(output@),
{
    let chars = chars_of(output);
    let ranges = split_words(&chars);
    let ghost all = words(chars@);
    let mut w: usize = 0;
    while w < ranges.len()
        invariant
            w <= ranges@.len(),
            chars@ == output@,
            all == words(chars@),
            ranges_view(chars@, ranges@) == all,
            forall|i: int|
                0 <= i < ranges@.len() ==> (#[trigger] ranges@[i]).0 <= ranges@[i].1
                    <= chars@.len(),
            first_version(all, 0) == first_version(all, w as int),
        decreases ranges@.len() - w,
    {
        let from: usize = ranges[w].0;
        let to: usize = ranges[w].1;
        assert(all[w as int] == chars@.subrange(from as int, to as int));
        let no_commas: usize = strip_trailing_end(&chars, from, to, ',');
        let end: usize = strip_trailing_end(&chars, from, no_commas, ';');
        assert(chars@.subrange(from as int, end as int) == version_token(all[w as int]));
        if looks_like_version(&chars, from, end) {
            assert(first_version(all, w as int) == Some(version_token(all[w as int])));
            return string_of(&chars, from, end);
        }
        w += 1;
    }
    match first_line_end(&chars) {
        Some(end) => {
            assert(chars@.take(end as int) =~= chars@.subrange(0, end as int));
            string_of(&chars, 0, end)
        },
        None => {
            let fallback = chars_of("unknown");
            assert(fallback@.subrange(0, fallback@.len() as int) =~= fallback@);
            string_of(&fallback, 0, fallback.len())
        },
    }
}

/// The services that are looked for.
#[derive(Debug, Clone, Copy, PartialEq, Eq, Structural)]
pub enum ServiceKind {
    Mysql,
    Redis,
    Postgresql,
    Docker,
}

/// Where a probe stands.
#[derive(Debug, Clone, Copy, PartialEq, Eq, Structural)]
pub enum ProbeStage {
    /// Asking whether the binary is there.
    Which,
    /// Asking for the version.
    Version,
    /// Asking the service itself whether it runs.
    Liveness,
    /// Asking the system whether the service runs, with the check of this
    /// number.
    Status(usize),
}

/// The name under which a service is reported.
pub open spec fn service_name(kind: ServiceKind) -> Seq<char> {
    match kind {
        ServiceKind::Mysql => "mysql"@,
        ServiceKind::Redis => "redis"@,
        ServiceKind::Postgresql => "postgresql"@,
        ServiceKind::Docker => "docker"@,
    }
}

/// The port under which a service is reported.
pub open spec fn service_port(kind: ServiceKind) -> u16 {
    match kind {
        ServiceKind::Mysql => 3306,
        ServiceKind::Redis => 6379,
        ServiceKind::Postgresql => 5432,
        ServiceKind::Docker => 0,
    }
}

/// Whether a service can be asked itself if it runs.
pub open spec fn has_liveness(kind: ServiceKind) -> bool {
    kind == ServiceKind::Redis || kind == ServiceKind::Docker
}

/// How many checks with the system a service has.
pub open spec fn status_checks(kind: ServiceKind) -> int {
    if kind == ServiceKind::Docker {
        1
    } else {
        2
    }
}

/// Whether a probe of this kind can stand at this stage.
pub open spec fn stage_wf(kind: ServiceKind, stage: ProbeStage) -> bool {
    match stage {
        ProbeStage::Which => true,
        ProbeStage::Version => true,
        ProbeStage::Liveness => has_liveness(kind),
        ProbeStage::Status(i) => i < status_checks(kind),
    }
}

/// The command that a probe runs at a stage.
pub open spec fn command_text(kind: ServiceKind, stage: ProbeStage) -> Seq<char> {
    match stage {
        ProbeStage::Which => match kind {
            ServiceKind::Mysql => "which mysql 2>/dev/null || which mysqld 2>/dev/null"@,
            ServiceKind::Redis => "which redis-server 2>/dev/null || which redis-cli 2>/dev/null"@,
            ServiceKind::Postgresql => "which psql 2>/dev/null"@,
            ServiceKind::Docker => "which docker 2>/dev/null"@,
        },
        ProbeStage::Version => match kind {
            ServiceKind::Mysql => "mysql --version 2>/dev/null"@,
            ServiceKind::Redis => "redis-cli --version 2>/dev/null"@,
            ServiceKind::Postgresql => "psql --version 2>/dev/null"@,
            ServiceKind::Docker => "docker --version 2>/dev/null"@,
        },
        ProbeStage::Liveness => match kind {
            ServiceKind::Redis => "redis-cli ping 2>/dev/null"@,
            _ => "docker info >/dev/null 2>&1"@,
        },
        ProbeStage::Status(i) => match kind {
            ServiceKind::Mysql => if i == 0 {
                "systemctl is-active mysql 2>/dev/null || systemctl is-active mysqld 2>/dev/null || systemctl is-active mariadb 2>/dev/null"@
            } else {
                "pgrep -x mysqld >/dev/null 2>&1 && echo active"@
            },
            ServiceKind::Redis => if i == 0 {
                "systemctl is-active redis 2>/dev/null || systemctl is-active redis-server 2>/dev/null"@
            } else {
                "pgrep -x redis-server >/dev/null 2>&1 && echo active"@
            },
            ServiceKind::Postgresql => if i == 0 {
                "systemctl is-active postgresql 2>/dev/null"@
            } else {
                "pgrep -x postgres >/dev/null 2>&1 && echo active"@
            },
            ServiceKind::Docker => "systemctl is-active docker 2>/dev/null"@,
        },
    }
}

/// What a probe does next.
pub enum ProbePlan {
    /// Go on at this stage, with this version noted.
    Continue { stage: ProbeStage, version: Seq<char> },
    /// Report the service, with this version and status.
    Report { version: Seq<char>, status: ServiceStatus },
    /// Report nothing: the service is not there.
    Absent,
}

/// How a command ended: its exit code and its output; `None` where it
/// could not be run.
pub type Outcome = Option<(i32, Seq<char>)>;

/// Whether a command ended with exit code 0 and `mark` in its output.
pub open spec fn succeeded_with(outcome: Outcome, mark: Seq<char>) -> bool {
    outcome matches Some(o) && o.0 == 0 && contains_seq(o.1, mark)
}

/// The stage at which a probe asks the system whether the service runs,
/// from check `index` on: that check, or, where there is none left, the
/// report that the service is stopped.
pub open spec fn status_plan(kind: ServiceKind, index: int, version: Seq<char>) -> ProbePlan {
    if index < status_checks(kind) {
        ProbePlan::Continue { stage: ProbeStage::Status(index as usize), version }
    } else {
        ProbePlan::Report { version, status: ServiceStatus::Stopped }
    }
}

/// What a probe does when the command of its stage has ended.
///
/// - The binary is there only where `which` ends with exit code 0;
///   else nothing is reported.
/// - The version is parsed from the output of the version command (from
///   empty output where the command could not be run).
/// - Redis runs where `ping` ends with 0 and answers `PONG`, Docker where
///   `info` ends with 0.
/// - Otherwise the checks with the system are tried in turn; the service
///   runs where one ends with 0 and says `active`, and is stopped where
///   none does.
pub open spec fn probe_plan(
    kind: ServiceKind,
    stage: ProbeStage,
    version: Seq<char>,
    outcome: Outcome,
) -> ProbePlan {
    match stage {
        ProbeStage::Which => if outcome matches Some(o) && o.0 == 0 {
            ProbePlan::Continue { stage: ProbeStage::Version, version }
        } else {
            ProbePlan::Absent
        },
        ProbeStage::Version => {
            let found = parsed_version(
                match outcome {
                    Some(o) => o.1,
                    None => Seq::empty(),
                },
            );
            if has_liveness(kind) {
                ProbePlan::Continue { stage: ProbeStage::Liveness, version: found }
            } else {
                status_plan(kind, 0, found)
            }
        },
        ProbeStage::Liveness => {
            let alive = if kind == ServiceKind::Redis {
                succeeded_with(outcome, "PONG"@)
            } else {
                outcome matches Some(o) && o.0 == 0
            };
            if alive {
                ProbePlan::Report { version, status: ServiceStatus::Running }
            } else {
                status_plan(kind, 0, version)
            }
        },
        ProbeStage::Status(i) => if succeeded_with(outcome, "active"@) {
            ProbePlan::Report { version, status: ServiceStatus::Running }
        } else {
            status_plan(kind, i + 1, version)
        },
    }
}

/// A probe under way.
#[derive(Debug)]
pub struct ServiceProbe {
    pub kind: ServiceKind,
    pub stage: ProbeStage,
    /// The version found so far; empty until the version command has run.
    pub version: String,
}

/// What a probe says when it has been told how its command ended.
#[derive(Debug)]
pub enum ProbeStep {
    /// Run the command of this probe next.
    Continue(ServiceProbe),
    /// The probe is over, with this finding.
    Finished(Option<DetectedService>),
}

/// Whether a step carries out a plan.
pub open spec fn step_follows(step: ProbeStep, kind: ServiceKind, plan: ProbePlan) -> bool {
    match plan {
        ProbePlan::Continue { stage, version } => step matches ProbeStep::Continue(p) && p.kind
            == kind && p.stage == stage && p.version@ == version && stage_wf(kind, stage),
        ProbePlan::Report { version, status } => step matches ProbeStep::Finished(Some(s))
            && s.name@ == service_name(kind) && s.version@ == version && s.status == status
            && s.port == service_port(kind),
        ProbePlan::Absent => step matches ProbeStep::Finished(None),
    }
}

/// The outcome of a command as a value.
pub open spec fn outcome_view(outcome: Option<(i32, String)>) -> Outcome {
    match outcome {
        Some(o) => Some((o.0, o.1@)),
        None => None,
    }
}

fn name_of(kind: ServiceKind) -> (name: String)
    ensures
        name@ == service_name(kind),
{
    let name: &'static str = match kind {
        ServiceKind::Mysql => "mysql",
        ServiceKind::Redis => "redis",
        ServiceKind::Postgresql => "postgresql",
        ServiceKind::Docker => "docker",
    };
    String::from_str(name)
}

fn port_of(kind: ServiceKind) -> (port: u16)
    ensures
        port == service_port(kind),
{
    match kind {
        ServiceKind::Mysql => 3306,
        ServiceKind::Redis => 6379,
        ServiceKind::Postgresql => 5432,
        ServiceKind::Docker => 0,
    }
}

fn report(kind: ServiceKind, version: String, status: ServiceStatus) -> (step: ProbeStep)
    ensures
        step_follows(step, kind, ProbePlan::Report { version: version@, status }),
{
    ProbeStep::Finished(
        Some(DetectedService { name: name_of(kind), version, status, port: port_of(kind) }),
    )
}

fn status_step(kind: ServiceKind, index: usize, version: String) -> (step: ProbeStep)
    ensures
        step_follows(step, kind, status_plan(kind, index as int, version@)),
{
    let checks: usize = match kind {
        ServiceKind::Docker => 1,
        _ => 2,
    };
    if index < checks {
        ProbeStep::Continue(ServiceProbe { kind, stage: ProbeStage::Status(index), version })
    } else {
        report(kind, version, ServiceStatus::Stopped)
    }
}

fn ended_well_with(outcome: &Option<(i32, String)>, mark: &str) -> (ok: bool)
    ensures
        ok == succeeded_with(outcome_view(*outcome), mark@),
{
    match outcome {
        Some(o) => o.0 == 0 && str_contains(o.1.as_str(), mark),
        None => false,
    }
}

impl ServiceProbe {
    /// A probe for a service, about to ask whether the binary is there.
    pub fn start(kind: ServiceKind) -> (probe: Self)
        ensures
            probe.kind == kind,
            probe.stage == ProbeStage::Which,
            probe.version@ == Seq::<char>::empty(),
            probe.wf(),
    {
        ServiceProbe { kind, stage: ProbeStage::Which, version: String::new() }
    }

    /// Whether the probe stands at a stage that its kind has.
    pub open spec fn wf(&self) -> bool {
        stage_wf(self.kind, self.stage)
    }

    /// The command to run next.
    pub fn command(&self) -> (command: &'static str)
        ensures
            command@ == command_text(self.kind, self.stage),
    {
        match self.stage {
            ProbeStage::Which => match self.kind {
                ServiceKind::Mysql => "which mysql 2>/dev/null || which mysqld 2>/dev/null",
                ServiceKind::Redis => "which redis-server 2>/dev/null || which redis-cli 2>/dev/null",
                ServiceKind::Postgresql => "which psql 2>/dev/null",
                ServiceKind::Docker => "which docker 2>/dev/null",
            },
            ProbeStage::Version => match self.kind {
                ServiceKind::Mysql => "mysql --version 2>/dev/null",
                ServiceKind::Redis => "redis-cli --version 2>/dev/null",
                ServiceKind::Postgresql => "psql --version 2>/dev/null",
                ServiceKind::Docker => "docker --version 2>/dev/null",
            },
            ProbeStage::Liveness => match self.kind {
                ServiceKind::Redis => "redis-cli ping 2>/dev/null",
                _ => "docker info >/dev/null 2>&1",
            },
            ProbeStage::Status(i) => match self.kind {
                ServiceKind::Mysql => if i == 0 {
                    "systemctl is-active mysql 2>/dev/null || systemctl is-active mysqld 2>/dev/null || systemctl is-active mariadb 2>/dev/null"
                } else {
                    "pgrep -x mysqld >/dev/null 2>&1 && echo active"
                },
                ServiceKind::Redis => if i == 0 {
                    "systemctl is-active redis 2>/dev/null || systemctl is-active redis-server 2>/dev/null"
                } else {
                    "pgrep -x redis-server >/dev/null 2>&1 && echo active"
                },
                ServiceKind::Postgresql => if i == 0 {
                    "systemctl is-active postgresql 2>/dev/null"
                } else {
                    "pgrep -x postgres >/dev/null 2>&1 && echo active"
                },
                ServiceKind::Docker => "systemctl is-active docker 2>/dev/null",
            },
        }
    }

    /// Takes how the command of the current stage ended (`None` where it
    /// could not be run) and says what comes next.
    ///
    /// A probe whose `which` does not end with exit code 0 finishes with no
    /// finding.
    pub fn advance(self, outcome: Option<(i32, String)>) -> (step: ProbeStep)
        requires
            self.wf(),
        ensures
            step_follows(
                step,
                self.kind,
                probe_plan(self.kind, self.stage, self.version@, outcome_view(outcome)),
            ),
            self.stage == ProbeStage::Which && !(outcome matches Some(o) && o.0 == 0)
                ==> step matches ProbeStep::Finished(None),
    {
        let kind = self.kind;
        match self.stage {
            ProbeStage::Which => {
                let found = match &outcome {
                    Some(o) => o.0 == 0,
                    None => false,
                };
                if found {
                    ProbeStep::Continue(
                        ServiceProbe { kind, stage: ProbeStage::Version, version: self.version },
                    )
                } else {
                    ProbeStep::Finished(None)
                }
            },
            ProbeStage::Version => {
                let version = match &outcome {
                    Some(o) => parse_version(o.1.as_str(), ""),
                    None => parse_version("", ""),
                };
                proof {
                    reveal_strlit("");
                    assert(""@ =~= Seq::<char>::empty());
                }
                match kind {
                    ServiceKind::Redis | ServiceKind::Docker => ProbeStep::Continue(
                        ServiceProbe { kind, stage: ProbeStage::Liveness, version },
                    ),
                    _ => status_step(kind, 0, version),
                }
            },
            ProbeStage::Liveness => {
                let alive = match kind {
                    ServiceKind::Redis => ended_well_with(&outcome, "PONG"),
                    _ => match &outcome {
                        Some(o) => o.0 == 0,
                        None => false,
                    },
                };
                if alive {
                    report(kind, self.version, ServiceStatus::Running)
                } else {
                    status_step(kind, 0, self.version)
                }
            },
            ProbeStage::Status(i) => {
                if ended_well_with(&outcome, "active") {
                    report(kind, self.version, ServiceStatus::Running)
                } else {
                    status_step(kind, i + 1, self.version)
                }
            },
        }
    }
}

/// The findings that are there, in order.
pub open spec fn present(findings: Seq<Option<DetectedService>>) -> Seq<DetectedService>
    decreases findings.len(),
{
    if findings.len() == 0 {
        Seq::empty()
    } else {
        let before = present(findings.drop_last());
        match findings.last() {
            Some(service) => before.push(service),
            None => before,
        }
    }
}

/// Gathers the findings of the probes: the services that were found, in
/// the order of the probes. A probe without a finding adds nothing.
pub fn collect_detected(findings: Vec<Option<DetectedService>>) -> (services: Vec<DetectedService>)
    ensures
        services@ == present(findings@),
        services@.len() <= findings@.len(),
{
    let mut findings = findings;
    let ghost all = findings@;
    let mut reversed: Vec<DetectedService> = Vec::new();
    let mut services: Vec<DetectedService> = Vec::new();
    proof {
        lemma_present_len(all);
    }
    while findings.len() > 0
        invariant
            findings@.len() <= all.len(),
            findings@ == all.take(findings@.len() as int),
            present(all) == present(findings@) + reversed@.reverse(),
        decreases findings@.len(),
    {
        let ghost before = findings@;
        let last = findings.pop();
        proof {
            assert(findings@ =~= before.drop_last());
            assert(findings@ =~= all.take(findings@.len() as int));
        }
        match last {
            Some(Some(service)) => {
                let ghost old_rev = reversed@;
                reversed.push(service);
                assert(reversed@.reverse() =~= seq![service] + old_rev.reverse());
                assert(present(before) == present(findings@).push(service));
                assert(present(all) =~= present(findings@) + reversed@.reverse());
            },
            _ => {
                assert(present(before) == present(findings@));
            },
        }
    }
    assert(present(findings@) =~= Seq::empty());
    assert(present(all) =~= reversed@.reverse());
    while reversed.len() > 0
        invariant
            present(all) == services@ + reversed@.reverse(),
        decreases reversed@.len(),
    {
        let ghost before = reversed@;
        let ghost done = services@;
        let item = reversed.pop();
        match item {
            Some(service) => {
                services.push(service);
                assert(before.reverse() =~= seq![service] + reversed@.reverse());
                assert(services@ + reversed@.reverse() =~= done + before.reverse());
            },
            None => {},
        }
    }
    assert(reversed@.reverse() =~= Seq::empty());
    assert(present(all) =~= services@);
    services
}

/// There are no more findings present than findings.
pub proof fn lemma_present_len(findings: Seq<Option<DetectedService>>)
    ensures
        present(findings).len() <= findings.len(),
    decreases findings.len(),
{
    if findings.len() > 0 {
        lemma_present_len(findings.drop_last());
    }
}

/// A service whose binary is not there is not reported: where `which`
/// could not be run or ends with another exit code than 0, the probe
/// reports nothing.
pub proof fn lemma_missing_binary_reports_nothing(
    kind: ServiceKind,
    version: Seq<char>,
    outcome: Outcome,
)
    requires
        !(outcome matches Some(o) && o.0 == 0),
    ensures
        probe_plan(kind, ProbeStage::Which, version, outcome) == ProbePlan::Absent,
{
}

} // verus!
