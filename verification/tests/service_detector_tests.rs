use pier_core::ssh::service_detector::{
    collect_detected, parse_version, DetectedService, ProbeStage, ProbeStep, ServiceKind,
    ServiceProbe, ServiceStatus,
};

#[test]
fn test_parse_version_mysql() {
    let output = "mysql  Ver 8.0.35 Distrib 8.0.35, for Linux on x86_64";
    assert_eq!(parse_version(output, "mysql"), "8.0.35");
}

#[test]
fn test_parse_version_redis() {
    let output = "redis-cli 7.0.11";
    assert_eq!(parse_version(output, "redis"), "7.0.11");
}

#[test]
fn test_parse_version_docker() {
    let output = "Docker version 24.0.5, build ced0996";
    assert_eq!(parse_version(output, "docker"), "24.0.5");
}

#[test]
fn test_parse_version_psql() {
    let output = "psql (PostgreSQL) 15.4";
    assert_eq!(parse_version(output, "psql"), "15.4");
}

#[test]
fn parse_version_falls_back_to_the_first_line() {
    assert_eq!(parse_version("", "x"), "unknown");
    assert_eq!(parse_version("no version here\nsecond line", "x"), "no version here");
    assert_eq!(parse_version("first\r\nsecond", "x"), "first");
    assert_eq!(parse_version("\nsecond", "x"), "");
    assert_eq!(parse_version("   ", "x"), "   ");
    assert_eq!(parse_version("bare\r", "x"), "bare\r");
    assert_eq!(parse_version("v1.2 build 7", "x"), "v1.2 build 7");
}

#[test]
fn parse_version_strips_commas_then_semicolons() {
    assert_eq!(parse_version("tool 1.2,,", "x"), "1.2");
    assert_eq!(parse_version("tool 1.2;;", "x"), "1.2");
    assert_eq!(parse_version("tool 1.2;,", "x"), "1.2");
    assert_eq!(parse_version("tool 1.2,;", "x"), "1.2,");
    assert_eq!(parse_version("tool 12 3.4", "x"), "3.4");
    assert_eq!(parse_version("tool .5 6.", "x"), "6.");
    assert_eq!(parse_version("a\t2.0\u{a0}b", "x"), "2.0");
    assert_eq!(parse_version("٣.1 4.1", "x"), "4.1");
}

fn next(step: ProbeStep) -> ServiceProbe {
    match step {
        ProbeStep::Continue(probe) => probe,
        ProbeStep::Finished(_) => panic!("the probe ended early"),
    }
}

fn done(step: ProbeStep) -> Option<DetectedService> {
    match step {
        ProbeStep::Finished(found) => found,
        ProbeStep::Continue(_) => panic!("the probe goes on"),
    }
}

fn ok(code: i32, out: &str) -> Option<(i32, String)> {
    Some((code, out.to_string()))
}

#[test]
fn missing_binary_reports_nothing() {
    for kind in [ServiceKind::Mysql, ServiceKind::Redis, ServiceKind::Postgresql, ServiceKind::Docker] {
        assert!(done(ServiceProbe::start(kind).advance(ok(1, ""))).is_none());
        assert!(done(ServiceProbe::start(kind).advance(ok(-1, "/usr/bin/x"))).is_none());
        assert!(done(ServiceProbe::start(kind).advance(None)).is_none());
    }
}

#[test]
fn mysql_probe_runs_its_commands_in_turn() {
    let probe = ServiceProbe::start(ServiceKind::Mysql);
    assert_eq!(probe.command(), "which mysql 2>/dev/null || which mysqld 2>/dev/null");
    let probe = next(probe.advance(ok(0, "/usr/bin/mysql")));
    assert_eq!(probe.stage, ProbeStage::Version);
    assert_eq!(probe.command(), "mysql --version 2>/dev/null");
    let probe = next(probe.advance(ok(0, "mysql  Ver 8.0.35 Distrib 8.0.35, for Linux")));
    assert_eq!(probe.version, "8.0.35");
    assert_eq!(probe.stage, ProbeStage::Status(0));
    assert_eq!(
        probe.command(),
        "systemctl is-active mysql 2>/dev/null || systemctl is-active mysqld 2>/dev/null || systemctl is-active mariadb 2>/dev/null"
    );
    let probe = next(probe.advance(ok(3, "inactive")));
    assert_eq!(probe.stage, ProbeStage::Status(1));
    assert_eq!(probe.command(), "pgrep -x mysqld >/dev/null 2>&1 && echo active");
    let found = done(probe.advance(ok(0, "active"))).unwrap();
    assert_eq!(found.name, "mysql");
    assert_eq!(found.version, "8.0.35");
    assert_eq!(found.status, ServiceStatus::Running);
    assert_eq!(found.port, 3306);
}

#[test]
fn service_without_proof_of_life_is_stopped() {
    let probe = next(ServiceProbe::start(ServiceKind::Postgresql).advance(ok(0, "")));
    assert_eq!(probe.command(), "psql --version 2>/dev/null");
    let probe = next(probe.advance(None));
    assert_eq!(probe.version, "unknown");
    assert_eq!(probe.command(), "systemctl is-active postgresql 2>/dev/null");
    // "inactive" holds "active", but the exit code is not 0.
    let probe = next(probe.advance(ok(3, "inactive")));
    assert_eq!(probe.command(), "pgrep -x postgres >/dev/null 2>&1 && echo active");
    let found = done(probe.advance(None)).unwrap();
    assert_eq!(found.name, "postgresql");
    assert_eq!(found.status, ServiceStatus::Stopped);
    assert_eq!(found.port, 5432);
}

#[test]
fn redis_answers_for_itself() {
    let probe = ServiceProbe::start(ServiceKind::Redis);
    assert_eq!(probe.command(), "which redis-server 2>/dev/null || which redis-cli 2>/dev/null");
    let probe = next(probe.advance(ok(0, "/usr/bin/redis-cli")));
    assert_eq!(probe.command(), "redis-cli --version 2>/dev/null");
    let probe = next(probe.advance(ok(0, "redis-cli 7.0.11")));
    assert_eq!(probe.stage, ProbeStage::Liveness);
    assert_eq!(probe.command(), "redis-cli ping 2>/dev/null");
    let found = done(probe.advance(ok(0, "PONG"))).unwrap();
    assert_eq!((found.name.as_str(), found.version.as_str()), ("redis", "7.0.11"));
    assert_eq!(found.status, ServiceStatus::Running);
    assert_eq!(found.port, 6379);
}

#[test]
fn redis_falls_back_to_the_system() {
    let probe = next(ServiceProbe::start(ServiceKind::Redis).advance(ok(0, "")));
    let probe = next(probe.advance(ok(0, "redis-cli 7.0.11")));
    // The exit code is 0 but the answer is not PONG.
    let probe = next(probe.advance(ok(0, "Could not connect")));
    assert_eq!(probe.stage, ProbeStage::Status(0));
    assert_eq!(
        probe.command(),
        "systemctl is-active redis 2>/dev/null || systemctl is-active redis-server 2>/dev/null"
    );
    let probe = next(probe.advance(ok(0, "unknown")));
    assert_eq!(probe.command(), "pgrep -x redis-server >/dev/null 2>&1 && echo active");
    let found = done(probe.advance(ok(1, ""))).unwrap();
    assert_eq!(found.status, ServiceStatus::Stopped);

    let probe = next(ServiceProbe::start(ServiceKind::Redis).advance(ok(0, "")));
    let probe = next(probe.advance(ok(0, "redis-cli 7.0.11")));
    let probe = next(probe.advance(ok(1, "PONG")));
    let found = done(probe.advance(ok(0, "active"))).unwrap();
    assert_eq!(found.status, ServiceStatus::Running);
}

#[test]
fn docker_has_one_check_with_the_system() {
    let probe = ServiceProbe::start(ServiceKind::Docker);
    assert_eq!(probe.command(), "which docker 2>/dev/null");
    let probe = next(probe.advance(ok(0, "/usr/bin/docker")));
    assert_eq!(probe.command(), "docker --version 2>/dev/null");
    let probe = next(probe.advance(ok(0, "Docker version 24.0.5, build ced0996")));
    assert_eq!(probe.command(), "docker info >/dev/null 2>&1");
    let probe = next(probe.advance(ok(1, "")));
    assert_eq!(probe.command(), "systemctl is-active docker 2>/dev/null");
    let found = done(probe.advance(ok(3, "inactive"))).unwrap();
    assert_eq!(found.name, "docker");
    assert_eq!(found.version, "24.0.5");
    assert_eq!(found.status, ServiceStatus::Stopped);
    assert_eq!(found.port, 0);

    let probe = next(ServiceProbe::start(ServiceKind::Docker).advance(ok(0, "")));
    let probe = next(probe.advance(ok(0, "Docker version 24.0.5, build ced0996")));
    let found = done(probe.advance(ok(0, ""))).unwrap();
    assert_eq!(found.status, ServiceStatus::Running);
}

fn service(name: &str) -> DetectedService {
    DetectedService {
        name: name.to_string(),
        version: "1.0".to_string(),
        status: ServiceStatus::Installed,
        port: 1,
    }
}

#[test]
fn only_services_that_were_found_are_collected() {
    let found = collect_detected(vec![Some(service("mysql")), None, Some(service("postgresql")), None]);
    let names: Vec<&str> = found.iter().map(|s| s.name.as_str()).collect();
    assert_eq!(names, vec!["mysql", "postgresql"]);
    assert!(collect_detected(vec![None, None, None, None]).is_empty());
    assert!(collect_detected(Vec::new()).is_empty());
}

#[test]
fn status_names() {
    assert_eq!(ServiceStatus::Running.as_str(), "running");
    assert_eq!(ServiceStatus::Stopped.as_str(), "stopped");
    assert_eq!(ServiceStatus::Installed.as_str(), "installed");
}
