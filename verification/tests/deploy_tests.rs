use charm::app::{
    after_step, before_step, restart, rm, start, stop, AppError, AppState, Plan, RouteChange, Runtime,
};
use charm::deploy::{deploy_next, DeployAction, DeployEvent, DeployStage};
use charm::util::Cmd;

fn docker_app() -> AppState {
    AppState {
        host: "blog.example.com".into(),
        port: 8080,
        ip: "172.20.0.2".into(),
        runtime: Runtime::Dockerfile { image: "charm_blog:abc1234".into() },
    }
}

fn argv(c: &Cmd) -> Vec<String> {
    let mut v = vec![c.bin.clone()];
    v.extend(c.args.iter().cloned());
    v
}

const SHA: &str = "abc1234def";

fn step(stage: DeployStage, ev: DeployEvent) -> (DeployStage, DeployAction) {
    deploy_next("blog", "/r/blog.git", "refs/heads/main", SHA, stage, ev)
}

fn plan() -> Plan {
    Plan::Dockerfile { host: "blog.example.com".into(), port: 8080 }
}

#[test]
fn stop_takes_the_route_down_first() {
    let s = stop("blog", &docker_app());
    assert_eq!(before_step(&s), Some("http://127.0.0.1:2019/id/charm_blog".to_string()));
    assert!(after_step(true, &s).is_none());
    let r = rm("blog", &docker_app(), false);
    assert!(matches!(&r.route, RouteChange::Remove(u) if u == "http://127.0.0.1:2019/id/charm_blog"));
}

#[test]
fn start_and_restart_route_only_after_success() {
    for s in [start("blog", &docker_app(), true), restart("blog", &docker_app(), false)] {
        assert!(before_step(&s).is_none());
        assert!(after_step(false, &s).is_none());
        let r = after_step(true, &s).unwrap();
        assert_eq!((r.id.as_str(), r.host.as_str(), r.dial.as_str()), ("charm_blog", "blog.example.com", "172.20.0.2:8080"));
    }
}

#[test]
fn pushes_to_other_branches_are_ignored() {
    let (next, act) = deploy_next("blog", "/r", "refs/heads/dev", SHA, DeployStage::Start, DeployEvent::Pushed);
    assert!(matches!(next, DeployStage::Done));
    assert!(matches!(act, DeployAction::Ignore(m) if m == "charm: ignoring push to refs/heads/dev (only main/master deploy)"));
}

#[test]
fn a_dockerfile_deploy_in_order() {
    let (s, a) = step(DeployStage::Start, DeployEvent::Pushed);
    assert!(matches!(a, DeployAction::Prepare { ref note, ref dir }
        if note == "charm: deploying 'blog' (main @ abc1234)" && dir == "/home/charm/builds/blog"));
    let (s, a) = step(s, DeployEvent::StepOk);
    assert!(matches!(a, DeployAction::Run(ref c) if argv(c) == vec!["git", "--git-dir", "/r/blog.git", "--work-tree", "/home/charm/builds/blog", "checkout", "-f", "main"]));
    let (s, a) = step(s, DeployEvent::StepOk);
    assert!(matches!(a, DeployAction::MakePlan { .. }));
    let (s, a) = step(s, DeployEvent::Planned(Ok(plan())));
    assert!(matches!(a, DeployAction::AssignIp));
    let (s, a) = step(s, DeployEvent::Ip(Ok(("172.20.0.5".into(), true))));
    assert!(matches!(a, DeployAction::WriteIp { ref path, ref ip } if path == "/home/charm/state/blog.ip" && ip == "172.20.0.5"));
    let (s, a) = step(s, DeployEvent::StepOk);
    assert!(matches!(a, DeployAction::Run(ref c) if argv(c) == vec!["docker", "build", "-t", "charm_blog:abc1234", "/home/charm/builds/blog"]));
    let (s, a) = step(s, DeployEvent::StepOk);
    assert!(matches!(a, DeployAction::Attempt(ref c) if argv(c) == vec!["docker", "rm", "-f", "charm_blog"]));
    // The old container's removal may fail; the deploy goes on.
    let (s, a) = step(s, DeployEvent::StepFailed("no such container".into()));
    assert!(matches!(a, DeployAction::Run(ref c) if argv(c)[1] == "run"));
    let (s, a) = step(s, DeployEvent::StepOk);
    match &a {
        DeployAction::SaveState(st) => {
            assert_eq!((st.host.as_str(), st.ip.as_str(), st.port), ("blog.example.com", "172.20.0.5", 8080));
            assert!(matches!(&st.runtime, Runtime::Dockerfile { image } if image == "charm_blog:abc1234"));
        }
        _ => panic!(),
    }
    let (s, a) = step(s, DeployEvent::StepOk);
    assert!(matches!(a, DeployAction::Publish(ref r) if r.id == "charm_blog" && r.dial == "172.20.0.5:8080"));
    let (s, a) = step(s, DeployEvent::StepOk);
    assert!(matches!(s, DeployStage::Done));
    assert!(matches!(a, DeployAction::Finish(m) if m == "charm: 'blog' is live at https://blog.example.com"));
}

#[test]
fn a_failed_build_stops_before_saving() {
    let (s, a) = step(DeployStage::Building(plan(), "172.20.0.5".into()), DeployEvent::StepFailed("build failed".into()));
    assert!(matches!(s, DeployStage::Done));
    assert!(matches!(a, DeployAction::Fail(m) if m == "build failed"));
    let (_, a) = step(DeployStage::Done, DeployEvent::StepOk);
    assert!(matches!(a, DeployAction::Fail(_)));
    let (_, a) = step(DeployStage::CheckedOut, DeployEvent::Planned(Err(AppError::EmptyRoutes)));
    assert!(matches!(a, DeployAction::Fail(m) if m == "[routes] is empty"));
}

#[test]
fn a_compose_deploy_attaches_its_service() {
    let p = Plan::Compose {
        host: "shop.example.com".into(),
        compose_file: "/home/charm/builds/blog/compose.yml".into(),
        service: "web".into(),
        port: 3000,
    };
    let (s, a) = step(DeployStage::CheckedOut, DeployEvent::Planned(Ok(p)));
    assert!(matches!(a, DeployAction::CheckCompose(ref f) if f == "/home/charm/builds/blog/compose.yml"));
    let (s, a) = step(s, DeployEvent::Checked(Ok(())));
    assert!(matches!(a, DeployAction::AssignIp));
    let (s, a) = step(s, DeployEvent::Ip(Ok(("172.20.0.7".into(), false))));
    assert!(matches!(a, DeployAction::Run(ref c) if argv(c)[3] == "charm_blog" && argv(c)[6] == "up"));
    let (s, a) = step(s, DeployEvent::StepOk);
    assert!(matches!(a, DeployAction::Capture(ref c) if argv(c).ends_with(&["ps".to_string(), "-q".to_string(), "web".to_string()])));
    let (s, a) = step(s, DeployEvent::Output("abc123\n".into()));
    assert!(matches!(a, DeployAction::Attempt(ref c) if argv(c) == vec!["docker", "network", "disconnect", "charm", "abc123"]));
    let (s, a) = step(s, DeployEvent::StepOk);
    assert!(matches!(a, DeployAction::Run(ref c) if argv(c) == vec!["docker", "network", "connect", "--ip", "172.20.0.7", "charm", "abc123"]));
    let (_, a) = step(s, DeployEvent::StepOk);
    assert!(matches!(a, DeployAction::SaveState(ref st) if matches!(&st.runtime, Runtime::Compose { service, .. } if service == "web")));
    let (_, a) = step(
        DeployStage::Listing(
            Plan::Compose { host: "h".into(), compose_file: "f".into(), service: "web".into(), port: 1 },
            "172.20.0.7".into(),
        ),
        DeployEvent::Output("\n".into()),
    );
    assert!(matches!(a, DeployAction::Fail(m) if m == "compose service 'web' has no running container"));
}
