use ikki::builder::{
    report_build_result, report_run_result, report_stop_result, BuildResult, Builder, Command,
    ContainerRegistry, EngineReply, LayeredWork, RunResult, StopAll, StopResult, StopStep, Work,
};
use ikki::config::{IkkiConfig, Image, ImageConfig, Images, Service};
use ikki::deps::DependencyNode;
use ikki::docker::{DockerError, JobKind};
use ikki::error::IkkiError;

fn plain_image(name: &str) -> Image {
    Image {
        path: None,
        file: None,
        output: None,
        pull: None,
        build_args: vec![],
        service: None,
        secret: None,
        name: name.to_string(),
    }
}

fn built(name: &str) -> Image {
    let mut image = plain_image(name);
    image.path = Some(format!("./{}", name));
    image
}

fn pulled(name: &str, reference: &str) -> Image {
    let mut image = plain_image(name);
    image.pull = Some(reference.to_string());
    image
}

fn with_service(mut image: Image, user: &str) -> Image {
    image.service = Some(Service {
        ports: None,
        env: vec![],
        user: Some(user.to_string()),
        mounts: vec![],
        networks: None,
    });
    image
}

fn node(name: &str, children: Vec<DependencyNode>) -> DependencyNode {
    DependencyNode {
        name: name.to_string(),
        children,
    }
}

fn strings(names: &[&str]) -> Vec<String> {
    names.iter().map(|name| name.to_string()).collect()
}

fn sorted(mut order: Vec<Vec<String>>) -> Vec<Vec<String>> {
    for layer in order.iter_mut() {
        layer.sort();
    }
    order
}

/// Edges a -> b, c -> b, d -> b and b -> e: the layers are {a, c, d}, {b}, {e}.
fn fan_in() -> Builder {
    let section = node(
        "dependencies",
        vec![
            node("a", vec![node("b", vec![node("e", vec![])])]),
            node("c", vec![node("b", vec![])]),
            node("d", vec![node("b", vec![])]),
        ],
    );
    let images = vec![
        built("a"),
        with_service(built("b"), "b-user"),
        with_service(pulled("c", "registry/c:1"), "c-user"),
        pulled("d", "registry/d:1"),
        with_service(built("e"), "e-user"),
    ];
    let config = IkkiConfig::new(ImageConfig { images: Images { images } }, Some(&section)).unwrap();
    Builder::new(config)
}

#[test]
fn incremental() {
    let section = node(
        "dependencies",
        vec![
            node("a", vec![node("b", vec![])]),
            node("c", vec![node("b", vec![])]),
            node("d", vec![node("b", vec![])]),
        ],
    );
    let images = vec![built("a"), built("b"), built("c"), built("d")];
    let config = IkkiConfig::new(ImageConfig { images: Images { images } }, Some(&section)).unwrap();
    assert_eq!(
        sorted(config.build_order()),
        vec![strings(&["a", "c", "d"]), strings(&["b"])]
    );
    let builder = Builder::new(config);
    assert_eq!(
        builder.dependent_images_of("a").unwrap(),
        vec![strings(&["a"]), strings(&["b"])]
    );
}

#[test]
fn change_of_an_image_leaves_out_its_layer_and_what_comes_before() {
    let builder = fan_in();
    assert_eq!(
        builder.dependent_images_of("c").unwrap(),
        vec![strings(&["c"]), strings(&["b"]), strings(&["e"])]
    );
    assert_eq!(
        builder.dependent_images_of("b").unwrap(),
        vec![strings(&["b"]), strings(&["e"])]
    );
    assert_eq!(builder.dependent_images_of("e").unwrap(), vec![strings(&["e"])]);
}

#[test]
fn change_of_an_unknown_image_is_refused() {
    let builder = fan_in();
    match builder.dependent_images_of("zebra") {
        Err(IkkiError::NoSuchImage(name)) => assert_eq!(name, "zebra"),
        other => panic!("unexpected: {:?}", other),
    }
}

#[test]
fn plan_of_each_command() {
    let builder = fan_in();
    let full = sorted(builder.configuration().build_order());
    assert_eq!(
        full,
        vec![strings(&["a", "c", "d"]), strings(&["b"]), strings(&["e"])]
    );
    match builder.plan(Command::BuildAll) {
        Ok(Work::Build(order)) => assert_eq!(sorted(order), full),
        other => panic!("unexpected: {:?}", other),
    }
    match builder.plan(Command::RunAll) {
        Ok(Work::Run(order)) => assert_eq!(sorted(order), full),
        other => panic!("unexpected: {:?}", other),
    }
    match builder.plan(Command::Build("d".to_string())) {
        Ok(Work::Build(order)) => {
            assert_eq!(order, vec![strings(&["d"]), strings(&["b"]), strings(&["e"])])
        }
        other => panic!("unexpected: {:?}", other),
    }
    match builder.plan(Command::Run("b".to_string())) {
        Ok(Work::Run(order)) => assert_eq!(order, vec![strings(&["b"]), strings(&["e"])]),
        other => panic!("unexpected: {:?}", other),
    }
    match builder.plan(Command::Build("nope".to_string())) {
        Err(IkkiError::NoSuchImage(name)) => assert_eq!(name, "nope"),
        other => panic!("unexpected: {:?}", other),
    }
    match builder.plan(Command::Run("nope".to_string())) {
        Err(IkkiError::NoSuchImage(name)) => assert_eq!(name, "nope"),
        other => panic!("unexpected: {:?}", other),
    }
    match builder.plan(Command::StopAll(strings(&["1", "2"]))) {
        Ok(Work::Stop(ids)) => assert_eq!(ids, strings(&["1", "2"])),
        other => panic!("unexpected: {:?}", other),
    }
}

#[test]
fn build_jobs_of_a_layer() {
    let builder = fan_in();
    let jobs = builder.build_jobs(&strings(&["d", "a", "c"])).unwrap();
    assert_eq!(jobs.len(), 3);
    assert_eq!(jobs[0].image.name, "d");
    assert_eq!(jobs[0].kind, JobKind::Pull);
    assert_eq!(jobs[1].image.name, "a");
    assert_eq!(jobs[1].kind, JobKind::Build);
    assert_eq!(jobs[2].image.name, "c");
    assert_eq!(jobs[2].kind, JobKind::Pull);
    assert!(builder.build_jobs(&vec![]).unwrap().is_empty());
}

#[test]
fn build_jobs_name_the_first_unknown_image() {
    let builder = fan_in();
    match builder.build_jobs(&strings(&["a", "x", "b", "y"])) {
        Err(IkkiError::NoSuchImage(name)) => assert_eq!(name, "x"),
        other => panic!("unexpected: {:?}", other),
    }
}

#[test]
fn run_jobs_of_a_layer() {
    let builder = fan_in();
    let jobs = builder.run_jobs(&strings(&["a", "c", "d", "b"])).unwrap();
    assert_eq!(jobs.len(), 2);
    assert_eq!(jobs[0].container_name, "c");
    assert_eq!(jobs[0].image_name, "registry/c:1");
    assert_eq!(jobs[0].service.user.as_deref(), Some("c-user"));
    assert_eq!(jobs[1].container_name, "b");
    assert_eq!(jobs[1].image_name, "b");
    assert_eq!(jobs[1].service.user.as_deref(), Some("b-user"));
    assert!(builder.run_jobs(&strings(&["a", "d"])).unwrap().is_empty());
}

#[test]
fn run_jobs_name_the_first_unknown_image() {
    let builder = fan_in();
    match builder.run_jobs(&strings(&["b", "y", "x"])) {
        Err(IkkiError::NoSuchImage(name)) => assert_eq!(name, "y"),
        other => panic!("unexpected: {:?}", other),
    }
}

#[test]
fn results_are_reported_as_replies() {
    assert!(matches!(report_build_result(Ok(())), BuildResult::Success));
    assert!(matches!(
        report_build_result(Err(IkkiError::FileWatcher)),
        BuildResult::Error(IkkiError::FileWatcher)
    ));
    match report_run_result(Ok(strings(&["1", "2"]))) {
        RunResult::Success(ids) => assert_eq!(ids, strings(&["1", "2"])),
        other => panic!("unexpected: {:?}", other),
    }
    match report_run_result(Err(IkkiError::NoSuchImage("x".to_string()))) {
        RunResult::Error(IkkiError::NoSuchImage(name)) => assert_eq!(name, "x"),
        other => panic!("unexpected: {:?}", other),
    }
    assert!(matches!(report_stop_result(Ok(())), StopResult::Success));
    match report_stop_result(Err(IkkiError::Other("closed".to_string()))) {
        StopResult::Error(IkkiError::Other(text)) => assert_eq!(text, "closed"),
        other => panic!("unexpected: {:?}", other),
    }
}

fn expect_stop(work: &StopAll, id: &str) {
    match work.step() {
        StopStep::Stop(found) => assert_eq!(found, id),
        other => panic!("unexpected: {:?}", other),
    }
}

fn expect_remove(work: &StopAll, id: &str) {
    match work.step() {
        StopStep::Remove(found) => assert_eq!(found, id),
        other => panic!("unexpected: {:?}", other),
    }
}

#[test]
fn containers_are_stopped_then_removed_in_order() {
    let mut work = StopAll::new(strings(&["one", "two"]));
    expect_stop(&work, "one");
    expect_stop(&work, "one");
    work.advance(EngineReply::Done);
    expect_remove(&work, "one");
    work.advance(EngineReply::Done);
    expect_stop(&work, "two");
    work.advance(EngineReply::Done);
    expect_remove(&work, "two");
    work.advance(EngineReply::Done);
    assert!(matches!(work.step(), StopStep::Finished(Ok(()))));
    work.advance(EngineReply::Failed("late".to_string()));
    assert!(matches!(work.step(), StopStep::Finished(Ok(()))));
}

#[test]
fn unknown_container_does_not_end_the_stopping() {
    let mut work = StopAll::new(strings(&["gone", "here"]));
    work.advance(EngineReply::NotFound);
    expect_remove(&work, "gone");
    work.advance(EngineReply::NotFound);
    expect_stop(&work, "here");
    work.advance(EngineReply::Done);
    work.advance(EngineReply::NotFound);
    assert!(matches!(work.step(), StopStep::Finished(Ok(()))));
}

#[test]
fn other_failure_ends_the_stopping() {
    let mut work = StopAll::new(strings(&["one", "two"]));
    work.advance(EngineReply::Done);
    work.advance(EngineReply::Failed("engine is down".to_string()));
    for _ in 0..3 {
        match work.step() {
            StopStep::Finished(Err(IkkiError::Build(DockerError::DockerDaemonError(text)))) => {
                assert_eq!(text, "engine is down")
            }
            other => panic!("unexpected: {:?}", other),
        }
        work.advance(EngineReply::Done);
    }
}

#[test]
fn stopping_nothing_is_finished_at_once() {
    let work = StopAll::new(vec![]);
    assert!(matches!(work.step(), StopStep::Finished(Ok(()))));
}

#[test]
fn registry_keeps_the_most_recent_run_until_it_is_drained() {
    let mut registry = ContainerRegistry::new();
    assert!(registry.drain().is_empty());
    registry.record(strings(&["1", "2"]));
    registry.record(strings(&["3", "4", "5"]));
    assert_eq!(registry.drain(), strings(&["3", "4", "5"]));
    assert!(registry.drain().is_empty());
}

#[test]
fn status_404_means_not_found() {
    assert!(matches!(
        EngineReply::of_failure(Some(404), "no such container".to_string()),
        EngineReply::NotFound
    ));
    assert!(matches!(
        EngineReply::of_failure(Some(500), "down".to_string()),
        EngineReply::Failed(text) if text == "down"
    ));
    assert!(matches!(
        EngineReply::of_failure(Some(304), "not modified".to_string()),
        EngineReply::Failed(text) if text == "not modified"
    ));
    assert!(matches!(
        EngineReply::of_failure(None, "timeout".to_string()),
        EngineReply::Failed(text) if text == "timeout"
    ));
}

#[test]
fn layers_are_run_one_after_the_other() {
    let order = vec![strings(&["a", "c"]), strings(&["b"]), strings(&["e"])];
    let mut work = LayeredWork::new(order);
    assert_eq!(work.layer(), Some(&strings(&["a", "c"])));
    assert_eq!(work.layer(), Some(&strings(&["a", "c"])));
    work.advance(Ok(strings(&["id-c", "id-a"])));
    assert_eq!(work.layer(), Some(&strings(&["b"])));
    work.advance(Ok(vec![]));
    assert_eq!(work.layer(), Some(&strings(&["e"])));
    work.advance(Ok(strings(&["id-e"])));
    assert_eq!(work.layer(), None);
    work.advance(Ok(strings(&["late"])));
    assert_eq!(work.finish().unwrap(), strings(&["id-c", "id-a", "id-e"]));
}

#[test]
fn failed_layer_ends_the_work() {
    let order = vec![strings(&["a"]), strings(&["b"]), strings(&["c"])];
    let mut work = LayeredWork::new(order);
    work.advance(Ok(strings(&["id-a"])));
    work.advance(Err(IkkiError::NoSuchImage("b".to_string())));
    assert_eq!(work.layer(), None);
    work.advance(Ok(strings(&["id-c"])));
    work.advance(Err(IkkiError::FileWatcher));
    match work.finish() {
        Err(IkkiError::NoSuchImage(name)) => assert_eq!(name, "b"),
        other => panic!("unexpected: {:?}", other),
    }
}

#[test]
fn empty_order_is_finished_at_once() {
    let work = LayeredWork::new(vec![]);
    assert_eq!(work.layer(), None);
    assert!(work.finish().unwrap().is_empty());
}
