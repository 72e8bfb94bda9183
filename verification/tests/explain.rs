use ikki::config::{IkkiConfig, Image, ImageConfig, Images, KeyValue, Service};
use ikki::docker::DockerError;
use ikki::docker_config::{build_options, BuildOptions, RunOptions};
use ikki::explain::explain_lines;

fn plain_image(name: &str) -> Image {
    Image {
        path: None,
        file: None,
        output: None,
        pull: None,
        build_args: vec![],
        service: None,
        secret: None,
        name: name.to_string(),
    }
}

fn service(ports: Option<Vec<&str>>, env: Vec<(&str, &str)>) -> Service {
    Service {
        ports: ports.map(|ports| ports.into_iter().map(String::from).collect()),
        env: env
            .into_iter()
            .map(|(k, v)| KeyValue(k.to_string(), v.to_string()))
            .collect(),
        user: None,
        mounts: vec![],
        networks: None,
    }
}

fn config(images: Vec<Image>) -> IkkiConfig {
    IkkiConfig::new(ImageConfig { images: Images { images } }, None).unwrap()
}

#[test]
fn explain_output() {
    let mut web = plain_image("web");
    web.pull = Some("nginx:1".to_string());
    web.service = Some(service(Some(vec!["80:80"]), vec![]));
    let lines = explain_lines(&config(vec![web])).unwrap();
    assert_eq!(
        lines,
        vec![
            "docker pull nginx:1",
            "docker run --name web --publish 80:80 nginx:1"
        ]
    );
}

#[test]
fn explain_pull() {
    let options = BuildOptions {
        path: None,
        pull: Some("postgres:15".to_string()),
        build_args: vec![("IGNORED".to_string(), "1".to_string())],
        tag: "db".to_string(),
    };
    assert_eq!(options.explain(), "docker pull postgres:15");
}

#[test]
fn explain_build_with_arguments() {
    let options = BuildOptions {
        path: Some("./api".to_string()),
        pull: None,
        build_args: vec![
            ("RUST".to_string(), "1.70".to_string()),
            ("MODE".to_string(), "release".to_string()),
        ],
        tag: "api".to_string(),
    };
    assert_eq!(
        options.explain(),
        "docker build --build-arg RUST=1.70 --build-arg MODE=release --tag api ./api"
    );
}

#[test]
fn explain_build_without_arguments() {
    let options = BuildOptions {
        path: Some(".".to_string()),
        pull: None,
        build_args: vec![],
        tag: "web".to_string(),
    };
    assert_eq!(options.explain(), "docker build --tag web .");
}

#[test]
fn explain_builds_where_path_and_pull_are_both_set() {
    let mut image = plain_image("both");
    image.path = Some("./src".to_string());
    image.pull = Some("registry/both".to_string());
    let options = build_options(&image).unwrap();
    assert_eq!(options.explain(), "docker build --tag both ./src");
}

#[test]
fn explain_run_with_env_and_ports() {
    let options = RunOptions {
        container_name: "api".to_string(),
        image_name: "api".to_string(),
        env: vec!["A=1".to_string(), "B=2".to_string()],
        ports: vec!["8080:80".to_string(), "53/udp".to_string()],
    };
    assert_eq!(
        options.explain(),
        "docker run --name api --env A=1 --env B=2 --publish 8080:80 --publish 53/udp api"
    );
}

#[test]
fn explain_run_without_env_and_ports() {
    let options = RunOptions {
        container_name: "c".to_string(),
        image_name: "i".to_string(),
        env: vec![],
        ports: vec![],
    };
    assert_eq!(options.explain(), "docker run --name c i");
}

#[test]
fn explain_lists_builds_then_runs_in_config_order() {
    let mut api = plain_image("api");
    api.path = Some("./api".to_string());
    api.build_args = vec![KeyValue("V".to_string(), "1".to_string())];
    api.service = Some(service(None, vec![("MODE", "dev")]));
    let mut tool = plain_image("tool");
    tool.path = Some("./tool".to_string());
    let mut db = plain_image("db");
    db.pull = Some("postgres:15".to_string());
    db.service = Some(service(Some(vec!["5432:5432"]), vec![]));
    let lines = explain_lines(&config(vec![api, tool, db])).unwrap();
    assert_eq!(
        lines,
        vec![
            "docker build --build-arg V=1 --tag api ./api",
            "docker build --tag tool ./tool",
            "docker pull postgres:15",
            "docker run --name api --env MODE=dev api",
            "docker run --name db --publish 5432:5432 postgres:15",
        ]
    );
}

#[test]
fn explain_refuses_an_image_without_source() {
    let mut good = plain_image("good");
    good.pull = Some("x".to_string());
    let refused = explain_lines(&config(vec![good, plain_image("bad")]));
    match refused {
        Err(DockerError::Settings(text)) => {
            assert_eq!(text, "missing either `path` or `pull` parameter")
        }
        other => panic!("unexpected: {:?}", other),
    }
}

#[test]
fn explain_of_no_images_is_empty() {
    assert!(explain_lines(&config(vec![])).unwrap().is_empty());
}
