use charm::app::{
    assign_ip, build_dir, checkout, compose_candidates, compose_container, compose_ps,
    compose_status_container, compose_up, container, container_exists, container_state,
    deploy_branch, deployed_state, detect_compose, docker_build, ensure_state_access,
    first_line_trimmed, image_tag, inspect_state, ip_file, kind_str, list_states, load_plan,
    logs_command, network_connect, network_disconnect, parse_service_port, project, publish,
    reject_container_name, restart, rm, rm_container, run_dockerfile, short_sha, start,
    state_file, state_text, status, stem_with_extension, stop, summaries, sync, sync_next, unpublish,
    AppError, SyncStep,
    AppState, AppStatus, CharmConfig, DirAccess, Health, Plan, Runtime, StateError, TomlValue,
};
use charm::domains::DomainError;
use charm::util::{Cmd, FileRead};

fn docker_app() -> AppState {
    AppState {
        host: "blog.example.com".into(),
        port: 8080,
        ip: "172.20.0.2".into(),
        runtime: Runtime::Dockerfile { image: "charm_blog:abc1234".into() },
    }
}

fn compose_app() -> AppState {
    AppState {
        host: "shop.example.com".into(),
        port: 3000,
        ip: "172.20.0.3".into(),
        runtime: Runtime::Compose { compose_file: "/b/shop/compose.yml".into(), service: "web".into() },
    }
}

fn argv(c: &Cmd) -> Vec<String> {
    let mut v = vec![c.bin.clone()];
    v.extend(c.args.iter().cloned());
    v
}

fn status_of(state: &str, routed: bool) -> AppStatus {
    status("blog", docker_app(), state.into(), routed)
}

#[test]
fn health_verdicts() {
    assert_eq!(status_of("missing", true).health(), Health::Missing);
    assert_eq!(status_of("exited", true).health(), Health::Stopped);
    assert_eq!(status_of("running", false).health(), Health::NotRouted);
    assert_eq!(status_of("running", true).health(), Health::Healthy);
}

#[test]
fn names_and_kinds() {
    assert_eq!(container("blog"), "charm_blog");
    assert_eq!(project("blog"), "charm_blog");
    assert_eq!(kind_str(&docker_app().runtime), "docker");
    assert_eq!(kind_str(&compose_app().runtime), "compose");
    assert_eq!(state_file("blog"), "/home/charm/state/blog.json");
    assert_eq!(ip_file("blog"), "/home/charm/state/blog.ip");
    assert_eq!(build_dir("blog"), "/home/charm/builds/blog");
}

#[test]
fn lifecycle_commands() {
    let s = stop("blog", &docker_app());
    assert!(s.quiet);
    assert_eq!(argv(&s.cmd), vec!["docker", "stop", "charm_blog"]);
    let s = stop("shop", &compose_app());
    assert_eq!(argv(&s.cmd), vec!["docker", "compose", "-p", "charm_shop", "-f", "/b/shop/compose.yml", "stop"]);
    let s = start("blog", &docker_app(), true);
    assert!(s.quiet);
    assert_eq!(argv(&s.cmd), vec!["docker", "start", "charm_blog"]);
    let s = start("blog", &docker_app(), false);
    assert!(!s.quiet);
    assert_eq!(
        argv(&s.cmd),
        vec!["docker", "run", "-d", "--name", "charm_blog", "--network", "charm", "--ip", "172.20.0.2",
             "--restart", "unless-stopped", "charm_blog:abc1234"]
    );
    let s = restart("blog", &docker_app(), true);
    assert_eq!(argv(&s.cmd), vec!["docker", "restart", "charm_blog"]);
    let s = restart("shop", &compose_app(), false);
    assert_eq!(argv(&s.cmd), vec!["docker", "compose", "-p", "charm_shop", "-f", "/b/shop/compose.yml", "restart"]);
}

#[test]
fn publish_routes_to_ip_and_port() {
    let r = publish("blog", &docker_app(), &vec![]).ok().unwrap();
    assert_eq!(r.id, "charm_blog");
    assert_eq!(r.host, "blog.example.com");
    assert_eq!(r.dial, "172.20.0.2:8080");
}

#[test]
fn unpublish_deletes_the_route_by_id() {
    assert_eq!(unpublish("blog", &docker_app()), "http://127.0.0.1:2019/id/charm_blog");
}

#[test]
fn logs_commands() {
    let (prog, args) = logs_command("blog", &docker_app());
    assert_eq!(prog, "docker");
    assert_eq!(args, vec!["logs", "-f", "--tail", "100", "charm_blog"]);
    let (_, args) = logs_command("shop", &compose_app());
    assert_eq!(args, vec!["compose", "-p", "charm_shop", "-f", "/b/shop/compose.yml", "logs", "-f", "--tail", "100"]);
}

#[test]
fn removal_plans() {
    let r = rm("blog", &docker_app(), true);
    assert_eq!(r.commands.len(), 2);
    assert_eq!(argv(&r.commands[0]), vec!["docker", "rm", "-f", "-v", "charm_blog"]);
    assert_eq!(
        argv(&r.commands[1]),
        vec!["sh", "-c", "docker image ls -q 'charm_blog:*' | xargs -r docker image rm -f"]
    );
    assert_eq!(r.files, vec!["/home/charm/state/blog.json", "/home/charm/state/blog.ip"]);
    assert_eq!(r.dir, "/home/charm/builds/blog");
    let r = rm("blog", &docker_app(), false);
    assert_eq!(argv(&r.commands[0]), vec!["docker", "rm", "-f", "charm_blog"]);
    let r = rm("shop", &compose_app(), true);
    assert_eq!(r.commands.len(), 1);
    assert_eq!(argv(&r.commands[0]), vec!["docker", "compose", "-p", "charm_shop", "-f", "/b/shop/compose.yml", "down", "--volumes"]);
    let r = rm("shop", &compose_app(), false);
    assert_eq!(argv(&r.commands[0]), vec!["docker", "compose", "-p", "charm_shop", "-f", "/b/shop/compose.yml", "down"]);
}

#[test]
fn status_carries_state_and_observations() {
    let s = status("blog", docker_app(), "running".into(), true);
    assert_eq!(s.name, "blog");
    assert_eq!(s.kind, "docker");
    assert_eq!(s.image, Some("charm_blog:abc1234".to_string()));
    assert_eq!(s.port, 8080);
    let s = status("shop", compose_app(), "exited".into(), false);
    assert_eq!(s.kind, "compose");
    assert_eq!(s.image, None);
    assert!(!s.routed);
}

#[test]
fn container_states() {
    assert_eq!(container_state(true, "running\n"), "running");
    assert_eq!(container_state(true, "  \n"), "missing");
    assert_eq!(container_state(false, "running"), "missing");
    assert_eq!(first_line_trimmed(" abc \ndef\n"), "abc");
    assert_eq!(first_line_trimmed(""), "");
    assert!(matches!(compose_container("cid1\ncid2\n", "web"), Ok(c) if c == "cid1"));
    match compose_container("\n", "web") {
        Err(e @ AppError::NoRunningContainer(_)) => {
            assert_eq!(e.message(), "compose service 'web' has no running container")
        }
        _ => panic!(),
    }
    assert_eq!(compose_status_container(Some("x\n")), Some("x".to_string()));
    assert_eq!(compose_status_container(Some("")), None);
    assert_eq!(compose_status_container(None), None);
}

#[test]
fn service_port_parsing() {
    assert!(matches!(parse_service_port("web:8080"), Ok((s, 8080)) if s == "web"));
    assert!(matches!(parse_service_port(":80"), Ok((s, 80)) if s.is_empty()));
    assert!(matches!(parse_service_port("a:b:80"), Err(AppError::BadPort(v)) if v == "a:b:80"));
    assert!(matches!(parse_service_port("web"), Err(AppError::NoColon(v)) if v == "web"));
    assert!(matches!(parse_service_port("web:70000"), Err(AppError::BadPort(_))));
    assert_eq!(AppError::NoColon("web".into()).message(), "expected \"service:port\", got 'web'");
    assert_eq!(AppError::BadPort("w:x".into()).message(), "invalid port in 'w:x'");
}

#[test]
fn service_port_round_trip() {
    let r = publish("blog", &docker_app(), &vec![("blog".to_string(), docker_app())]).ok().unwrap();
    let value = format!("web:{}", r.dial.rsplit(':').next().unwrap());
    assert!(matches!(parse_service_port(&value), Ok((s, 8080)) if s == "web"));
}

#[test]
fn container_name_is_refused_with_its_line() {
    assert!(reject_container_name("services:\n  web:\n    image: x\n").is_ok());
    match reject_container_name("services:\n  web:\n    container_name: x\n  db:\n container_name: y") {
        Err(e @ AppError::ContainerName(3)) => assert_eq!(
            e.message(),
            "compose: `container_name:` (line 3) is not allowed - it's a global name that can collide across apps. Remove it; Charm names containers per app."
        ),
        _ => panic!("expected line 3"),
    }
    assert!(reject_container_name("  # container_name: x").is_ok());
}

fn config(routes: Option<Vec<(&str, TomlValue)>>, compose: Option<&str>) -> CharmConfig {
    CharmConfig {
        routes: routes.map(|r| r.into_iter().map(|(k, v)| (k.to_string(), v)).collect()),
        compose: compose.map(String::from),
    }
}

fn domains() -> Vec<String> {
    vec!["example.com".to_string()]
}

#[test]
fn plan_for_a_dockerfile_app() {
    let c = config(Some(vec![("blog.example.com", TomlValue::Integer(8080))]), None);
    match load_plan("/b/blog", &c, &domains(), None) {
        Ok(Plan::Dockerfile { host, port }) => {
            assert_eq!(host, "blog.example.com");
            assert_eq!(port, 8080);
        }
        _ => panic!(),
    }
    let c = config(Some(vec![("blog.example.com", TomlValue::Integer(70000))]), None);
    match load_plan("/b", &c, &domains(), None) {
        Err(e @ AppError::PortOutOfRange(70000)) => {
            assert_eq!(e.message(), "port 70000 is out of range (a port is 0 to 65535)")
        }
        _ => panic!(),
    }
    let c = config(Some(vec![("blog.example.com", TomlValue::Integer(-1))]), None);
    match load_plan("/b", &c, &domains(), None) {
        Err(e @ AppError::PortOutOfRange(-1)) => assert_eq!(e.message(), "port -1 is out of range (a port is 0 to 65535)"),
        _ => panic!(),
    }
    let c = config(Some(vec![("blog.example.com", TomlValue::Integer(65535))]), None);
    assert!(matches!(load_plan("/b", &c, &domains(), None), Ok(Plan::Dockerfile { port: 65535, .. })));
    let c = config(Some(vec![("blog.example.com", TomlValue::Text("8080".into()))]), None);
    assert!(matches!(load_plan("/b", &c, &domains(), None), Err(AppError::NeedIntegerPort)));
}

#[test]
fn plan_for_a_compose_app() {
    let c = config(Some(vec![("shop.example.com", TomlValue::Text("web:3000".into()))]), Some("docker/c.yml"));
    match load_plan("/b/shop", &c, &domains(), Some("compose.yml".into())) {
        Ok(Plan::Compose { host, compose_file, service, port }) => {
            assert_eq!(host, "shop.example.com");
            assert_eq!(compose_file, "/b/shop/docker/c.yml");
            assert_eq!(service, "web");
            assert_eq!(port, 3000);
        }
        _ => panic!(),
    }
    let c = config(Some(vec![("shop.example.com", TomlValue::Text("web:3000".into()))]), None);
    assert!(matches!(load_plan("/b/shop", &c, &domains(), Some("compose.yml".into())),
        Ok(Plan::Compose { compose_file, .. }) if compose_file == "/b/shop/compose.yml"));
    let c = config(Some(vec![("shop.example.com", TomlValue::Integer(3000))]), None);
    assert!(matches!(load_plan("/b", &c, &domains(), Some("compose.yml".into())), Err(AppError::NeedServicePort)));
    let c = config(Some(vec![("shop.example.com", TomlValue::Text("web".into()))]), Some("c.yml"));
    assert!(matches!(load_plan("/b", &c, &domains(), None), Err(AppError::NoColon(v)) if v == "web"));
}

#[test]
fn plan_errors() {
    assert!(matches!(load_plan("/b", &config(None, None), &domains(), None), Err(AppError::NoRoutesTable)));
    assert!(matches!(load_plan("/b", &config(Some(vec![]), None), &domains(), None), Err(AppError::EmptyRoutes)));
    let c = config(Some(vec![("Blog.Other.org", TomlValue::Integer(1))]), None);
    assert!(matches!(load_plan("/b", &c, &domains(), None),
        Err(AppError::Domain(DomainError::NotAllowed(h))) if h == "blog.other.org"));
    assert!(matches!(load_plan("/b", &c, &vec![], None), Err(AppError::Domain(DomainError::NoDomains(_)))));
    assert_eq!(AppError::NoRoutesTable.message(), "Charm.toml needs a [routes] table");
    assert_eq!(AppError::EmptyRoutes.message(), "[routes] is empty");
    assert_eq!(AppError::NeedServicePort.message(), "compose apps need a \"service:port\" route value");
    assert_eq!(AppError::NeedIntegerPort.message(), "Dockerfile apps need an integer port route (e.g. \"app\" = 8080)");
    assert_eq!(
        AppError::Domain(DomainError::NoDomains("h.io".into())).message(),
        "no domains registered - run `charm domain add <domain>` first (for 'h.io')"
    );
}

#[test]
fn compose_detection_order() {
    assert_eq!(compose_candidates(), vec!["docker-compose.yml", "docker-compose.yaml", "compose.yml", "compose.yaml"]);
    assert_eq!(detect_compose([false, true, true, false]), Some("docker-compose.yaml".to_string()));
    assert_eq!(detect_compose([false, false, false, true]), Some("compose.yaml".to_string()));
    assert_eq!(detect_compose([false; 4]), None);
}

#[test]
fn ip_assignment() {
    assert!(matches!(assign_ip(Some(" 172.20.0.9\n"), &vec![]), Ok((ip, false)) if ip == "172.20.0.9"));
    let used = vec!["172.20.0.2\n".to_string(), "172.20.0.3".to_string()];
    assert!(matches!(assign_ip(Some("  "), &used), Ok((ip, true)) if ip == "172.20.0.4"));
    assert!(matches!(assign_ip(None, &vec![]), Ok((ip, true)) if ip == "172.20.0.2"));
    let full: Vec<String> = (2..=254).map(|n| format!("172.20.0.{n}")).collect();
    assert!(matches!(assign_ip(None, &full), Err(AppError::NoFreeIp)));
    assert_eq!(AppError::NoFreeIp.message(), "no free IPs left in 172.20.0.0/24");
}

#[test]
fn assigned_ip_is_reused_on_the_next_deploy() {
    let used = vec!["172.20.0.2".to_string()];
    let (ip, fresh) = assign_ip(None, &used).ok().unwrap();
    assert_eq!((ip.as_str(), fresh), ("172.20.0.3", true));
    let mut recorded = used.clone();
    recorded.push(ip.clone());
    assert!(matches!(assign_ip(Some(&ip), &recorded), Ok((again, false)) if again == ip));
}

#[test]
fn state_file_names() {
    assert_eq!(stem_with_extension("blog.json", "json"), Some("blog".to_string()));
    assert_eq!(stem_with_extension("a.b.json", "json"), Some("a.b".to_string()));
    assert_eq!(stem_with_extension("blog.ip", "json"), None);
    assert_eq!(stem_with_extension(".json", "json"), None);
    assert_eq!(stem_with_extension("json", "json"), None);
    assert_eq!(stem_with_extension("..", ""), None);
    assert_eq!(stem_with_extension("x.", ""), Some("x".to_string()));
    assert_eq!(stem_with_extension("blog.ip", "ip"), Some("blog".to_string()));
}

fn named(n: &str, port: u16) -> (String, AppState) {
    let mut s = docker_app();
    s.port = port;
    (n.to_string(), s)
}

#[test]
fn listing_is_sorted_by_name() {
    let sorted = list_states(vec![named("zeta", 1), named("Alpha", 2), named("beta", 3), named("alpha", 4)]);
    let names: Vec<&str> = sorted.iter().map(|(n, _)| n.as_str()).collect();
    assert_eq!(names, vec!["Alpha", "alpha", "beta", "zeta"]);
    let sums = summaries(vec![named("b", 1), compose_named("a")]);
    assert_eq!(sums.len(), 2);
    assert_eq!(sums[0].name, "a");
    assert_eq!(sums[0].kind, "compose");
    assert_eq!(sums[1].name, "b");
    assert_eq!(sums[1].port, 1);
    assert_eq!(sums[1].ip, "172.20.0.2");
}

fn compose_named(n: &str) -> (String, AppState) {
    (n.to_string(), compose_app())
}

#[test]
fn listing_keeps_equal_names_in_order() {
    let sorted = list_states(vec![named("x", 1), named("a", 2), named("x", 3)]);
    let ports: Vec<u16> = sorted.iter().map(|(_, s)| s.port).collect();
    assert_eq!(ports, vec![2, 1, 3]);
}

#[test]
fn sync_publishes_every_app_in_name_order() {
    let routes = sync(vec![named("b", 81), named("a", 80)]);
    assert_eq!(routes.len(), 2);
    assert_eq!(routes[0].0, "a");
    assert_eq!(routes[0].1.id, "charm_a");
    assert_eq!(routes[0].1.dial, "172.20.0.2:80");
    assert_eq!(routes[1].0, "b");
    assert!(sync(vec![]).is_empty());
}

#[test]
fn only_main_or_master_deploys() {
    assert_eq!(deploy_branch("refs/heads/main"), Some("main".to_string()));
    assert_eq!(deploy_branch("refs/heads/master"), Some("master".to_string()));
    assert_eq!(deploy_branch("refs/heads/dev"), None);
    assert_eq!(deploy_branch("refs/tags/main"), None);
    assert_eq!(deploy_branch("main"), None);
}

#[test]
fn short_commit_ids() {
    assert_eq!(short_sha("0123456789abcdef"), "0123456");
    assert_eq!(short_sha("abc"), "abc");
    assert_eq!(short_sha("abcdefg"), "abcdefg");
    assert_eq!(short_sha("abcdeé"), "abcdeé");
    assert_eq!(short_sha("abcdeéx"), "abcdeé");
    assert_eq!(short_sha("abcdefé"), "abcdefé");
}

#[test]
fn deploy_commands() {
    assert_eq!(image_tag("blog", "abc1234"), "charm_blog:abc1234");
    assert_eq!(argv(&checkout("/r/blog.git", "/b/blog", "main")),
        vec!["git", "--git-dir", "/r/blog.git", "--work-tree", "/b/blog", "checkout", "-f", "main"]);
    assert_eq!(argv(&docker_build("img", "/b")), vec!["docker", "build", "-t", "img", "/b"]);
    assert_eq!(argv(&rm_container("blog")), vec!["docker", "rm", "-f", "charm_blog"]);
    assert_eq!(argv(&container_exists("blog")), vec!["docker", "inspect", "charm_blog"]);
    assert_eq!(argv(&inspect_state("cid")), vec!["docker", "inspect", "-f", "{{.State.Status}}", "cid"]);
    assert_eq!(argv(&compose_up("shop", "c.yml")),
        vec!["docker", "compose", "-p", "charm_shop", "-f", "c.yml", "up", "-d", "--build"]);
    assert_eq!(argv(&compose_ps("shop", "c.yml", "web", true)),
        vec!["docker", "compose", "-p", "charm_shop", "-f", "c.yml", "ps", "-a", "-q", "web"]);
    assert_eq!(argv(&compose_ps("shop", "c.yml", "web", false)),
        vec!["docker", "compose", "-p", "charm_shop", "-f", "c.yml", "ps", "-q", "web"]);
    assert_eq!(argv(&network_disconnect("cid")), vec!["docker", "network", "disconnect", "charm", "cid"]);
    assert_eq!(argv(&network_connect("172.20.0.5", "cid")),
        vec!["docker", "network", "connect", "--ip", "172.20.0.5", "charm", "cid"]);
    assert_eq!(argv(&run_dockerfile("a", "1.2.3.4", "img")),
        vec!["docker", "run", "-d", "--name", "charm_a", "--network", "charm", "--ip", "1.2.3.4",
             "--restart", "unless-stopped", "img"]);
}

#[test]
fn deployed_state_records_the_runtime() {
    let st = deployed_state(Plan::Dockerfile { host: "h.example.com".into(), port: 80 }, "172.20.0.2".into(), "charm_a:1".into());
    assert!(matches!(st.runtime, Runtime::Dockerfile { ref image } if image == "charm_a:1"));
    assert_eq!(st.port, 80);
    let st = deployed_state(
        Plan::Compose { host: "h".into(), compose_file: "f".into(), service: "web".into(), port: 3 },
        "ip".into(),
        "unused".into(),
    );
    assert!(matches!(st.runtime, Runtime::Compose { ref service, .. } if service == "web"));
    assert_eq!(st.ip, "ip");
}

#[test]
fn reading_state() {
    assert!(matches!(state_text("a", FileRead::Content("{}".into())), Ok(t) if t == "{}"));
    match state_text("blog", FileRead::NotFound) {
        Err(e @ StateError::NoSuchApp(_)) => assert_eq!(e.message(), "no deployed app 'blog'"),
        _ => panic!(),
    }
    assert!(matches!(state_text("a", FileRead::PermissionDenied), Err(StateError::CannotRead)));
    assert!(ensure_state_access(DirAccess::Readable).is_ok());
    match ensure_state_access(DirAccess::NotFound) {
        Err(e) => assert_eq!(e.message(), "Charm isn't installed (no /home/charm/state). Run `charm install` first."),
        Ok(()) => panic!(),
    }
    match ensure_state_access(DirAccess::PermissionDenied) {
        Err(e) => assert_eq!(
            e.message(),
            "cannot read Charm state at /home/charm/state - run as root (sudo charm ...) or the charm user"
        ),
        Ok(()) => panic!(),
    }
}

#[test]
fn publish_refuses_a_host_another_app_serves() {
    let mut other = docker_app();
    other.ip = "172.20.0.9".into();
    let apps = vec![("api".to_string(), compose_app()), ("blog2".to_string(), other), ("blog".to_string(), docker_app())];
    match publish("blog", &docker_app(), &apps) {
        Err(e @ AppError::HostTaken { .. }) => {
            assert_eq!(e.message(), "host 'blog.example.com' is already served by 'blog2'")
        }
        _ => panic!(),
    }
    let apps = vec![("api".to_string(), compose_app()), ("blog".to_string(), docker_app())];
    assert!(publish("blog", &docker_app(), &apps).is_ok());
}

#[test]
fn sync_stops_at_the_first_failed_publish() {
    let apps = vec![("b".to_string(), compose_app()), ("a".to_string(), docker_app()), ("c".to_string(), docker_app())];
    let routes = sync(apps);
    assert!(matches!(sync_next(&routes, &vec![]), SyncStep::Publish(0)));
    assert!(matches!(sync_next(&routes, &vec![true]), SyncStep::Publish(1)));
    match sync_next(&routes, &vec![true, false]) {
        SyncStep::Failed(c) => assert_eq!(c, "syncing 'b'"),
        _ => panic!(),
    }
    match sync_next(&routes, &vec![true, true, true]) {
        SyncStep::Done(names) => assert_eq!(names, vec!["a", "b", "c"]),
        _ => panic!(),
    }
    assert!(matches!(sync_next(&vec![], &vec![]), SyncStep::Done(n) if n.is_empty()));
}

#[test]
fn removed_app_is_not_found_again() {
    let r = rm("blog", &docker_app(), false);
    assert!(r.files.contains(&state_file("blog")));
    assert!(matches!(state_text("blog", FileRead::NotFound), Err(StateError::NoSuchApp(a)) if a == "blog"));
    let left = summaries(vec![("shop".to_string(), compose_app())]);
    assert!(left.iter().all(|s| s.name != "blog"));
}
