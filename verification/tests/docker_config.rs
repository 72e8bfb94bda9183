use ikki::config::{Image, KeyValue, Service};
use ikki::docker::DockerError;
use ikki::docker_config::{
    build_options, create_container_config, create_env_config, create_ports_config,
    create_run_options, parse_port_binding, run_options_of,
};

fn kv(key: &str, value: &str) -> KeyValue {
    KeyValue(key.to_string(), value.to_string())
}

fn plain_image(name: &str) -> Image {
    Image {
        path: None,
        file: None,
        output: None,
        pull: None,
        build_args: vec![],
        service: None,
        secret: None,
        name: name.to_string(),
    }
}

fn service(ports: Option<Vec<&str>>, env: Vec<KeyValue>) -> Service {
    Service {
        ports: ports.map(|ports| ports.into_iter().map(String::from).collect()),
        env,
        user: None,
        mounts: vec![],
        networks: None,
    }
}

fn pairs(entries: &[(&str, &str)]) -> Vec<(String, String)> {
    entries
        .iter()
        .map(|(k, v)| (k.to_string(), v.to_string()))
        .collect()
}

#[test]
fn build_options_takes_over_the_image() {
    let mut image = plain_image("api");
    image.path = Some("./api".to_string());
    image.pull = Some("registry/api:1".to_string());
    image.build_args = vec![kv("RUST", "1.70"), kv("MODE", "release")];
    let options = build_options(&image).unwrap();
    assert_eq!(options.path.as_deref(), Some("./api"));
    assert_eq!(options.pull.as_deref(), Some("registry/api:1"));
    assert_eq!(options.tag, "api");
    assert_eq!(
        options.build_args,
        pairs(&[("RUST", "1.70"), ("MODE", "release")])
    );
}

#[test]
fn build_options_needs_a_path_or_a_pull_reference() {
    let refused = build_options(&plain_image("api"));
    match refused {
        Err(DockerError::Settings(text)) => {
            assert_eq!(text, "missing either `path` or `pull` parameter")
        }
        other => panic!("unexpected: {:?}", other),
    }
    let mut pulled = plain_image("db");
    pulled.pull = Some("postgres:15".to_string());
    assert!(build_options(&pulled).is_ok());
    let mut built = plain_image("web");
    built.path = Some(".".to_string());
    assert!(build_options(&built).is_ok());
}

#[test]
fn later_build_argument_replaces_the_value_in_place() {
    let mut image = plain_image("api");
    image.path = Some(".".to_string());
    image.build_args = vec![kv("A", "1"), kv("B", "2"), kv("A", "3"), kv("C", "4"), kv("B", "5")];
    let options = build_options(&image).unwrap();
    assert_eq!(
        options.build_args,
        pairs(&[("A", "3"), ("B", "5"), ("C", "4")])
    );
}

#[test]
fn port_binding_with_host_port() {
    let (container, host) = parse_port_binding("8080:80".to_string());
    assert_eq!(container, "80/tcp");
    assert_eq!(host.host_ip.as_deref(), Some("127.0.0.1"));
    assert_eq!(host.host_port.as_deref(), Some("8080"));
}

#[test]
fn port_binding_with_protocol() {
    let (container, host) = parse_port_binding("5353:53/udp".to_string());
    assert_eq!(container, "53/udp");
    assert_eq!(host.host_ip.as_deref(), Some("127.0.0.1"));
    assert_eq!(host.host_port.as_deref(), Some("5353"));
}

#[test]
fn port_binding_without_host_port() {
    let (container, host) = parse_port_binding("8080".to_string());
    assert_eq!(container, "8080/tcp");
    assert_eq!(host.host_ip, None);
    assert_eq!(host.host_port, None);

    let (container, host) = parse_port_binding("53/udp".to_string());
    assert_eq!(container, "53/udp");
    assert_eq!(host.host_ip, None);
    assert_eq!(host.host_port, None);
}

#[test]
fn port_binding_splits_at_the_first_colon_and_the_first_slash() {
    let (container, host) = parse_port_binding("1:2:3/a/b".to_string());
    assert_eq!(container, "2:3/a/b");
    assert_eq!(host.host_port.as_deref(), Some("1"));

    let (container, host) = parse_port_binding(":80".to_string());
    assert_eq!(container, "80/tcp");
    assert_eq!(host.host_ip, None);
    assert_eq!(host.host_port, None);

    let (container, host) = parse_port_binding("".to_string());
    assert_eq!(container, "/tcp");
    assert_eq!(host.host_port, None);

    let (container, _) = parse_port_binding("80/".to_string());
    assert_eq!(container, "80/");
}

#[test]
fn port_binding_counts_characters_not_bytes() {
    let (container, host) = parse_port_binding("héé:pört/ü".to_string());
    assert_eq!(container, "pört/ü");
    assert_eq!(host.host_port.as_deref(), Some("héé"));
}

#[test]
fn env_config_joins_key_and_value() {
    let env = vec![kv("A", "1"), kv("EMPTY", ""), kv("URL", "a=b")];
    assert_eq!(create_env_config(env), vec!["A=1", "EMPTY=", "URL=a=b"]);
    assert!(create_env_config(vec![]).is_empty());
}

#[test]
fn run_options_take_over_names_env_and_ports() {
    let options = create_run_options((
        "web".to_string(),
        "nginx:1".to_string(),
        service(Some(vec!["80:80", "443"]), vec![kv("MODE", "prod")]),
    ));
    assert_eq!(options.container_name, "web");
    assert_eq!(options.image_name, "nginx:1");
    assert_eq!(options.env, vec!["MODE=prod"]);
    assert_eq!(options.ports, vec!["80:80", "443"]);
}

#[test]
fn run_options_without_ports() {
    let options = create_run_options(("a".to_string(), "b".to_string(), service(None, vec![])));
    assert!(options.ports.is_empty());
    assert!(options.env.is_empty());
    let kept = service(Some(vec!["1:1"]), vec![kv("K", "V")]);
    let options = run_options_of("a".to_string(), "b".to_string(), &kept);
    assert_eq!(options.ports, vec!["1:1"]);
    assert_eq!(options.env, vec!["K=V"]);
    assert_eq!(kept.ports.unwrap(), vec!["1:1"]);
}

#[test]
fn ports_config_maps_container_port_to_host_side() {
    let config = create_ports_config(vec![
        "8080:80".to_string(),
        "53/udp".to_string(),
        "9090:80".to_string(),
    ]);
    assert_eq!(config.len(), 2);
    assert_eq!(config[0].0, "80/tcp");
    assert_eq!(config[0].1.host_port.as_deref(), Some("9090"));
    assert_eq!(config[0].1.host_ip.as_deref(), Some("127.0.0.1"));
    assert_eq!(config[1].0, "53/udp");
    assert_eq!(config[1].1.host_port, None);
    assert_eq!(config[1].1.host_ip, None);
}

#[test]
fn container_config_holds_image_env_and_ports() {
    let config = create_container_config(
        "web",
        "nginx:1",
        service(Some(vec!["80:80"]), vec![kv("A", "1"), kv("B", "2")]),
    );
    assert_eq!(config.image, "nginx:1");
    assert_eq!(config.env, vec!["A=1", "B=2"]);
    assert_eq!(config.port_bindings.len(), 1);
    assert_eq!(config.port_bindings[0].0, "80/tcp");
    assert_eq!(config.port_bindings[0].1.host_port.as_deref(), Some("80"));
}
