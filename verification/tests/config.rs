use ikki::config::{IkkiConfig, IkkiConfigError, Image, ImageConfig, Images, KeyValue, Service};
use ikki::deps::{parse_deps, DependencyNode};
use ikki::toposort::Toposort;
use kdl::{KdlDocument, KdlNode};

fn image(name: &str) -> Image {
    Image {
        path: Some(format!("./{}", name)),
        file: None,
        output: None,
        pull: None,
        build_args: vec![],
        service: None,
        secret: None,
        name: name.to_string(),
    }
}

fn image_config(names: &[&str]) -> ImageConfig {
    ImageConfig {
        images: Images {
            images: names.iter().map(|name| image(name)).collect(),
        },
    }
}

fn node(name: &str, children: Vec<DependencyNode>) -> DependencyNode {
    DependencyNode {
        name: name.to_string(),
        children,
    }
}

fn leaf(name: &str) -> DependencyNode {
    node(name, vec![])
}

fn sorted(mut order: Vec<Vec<String>>) -> Vec<Vec<String>> {
    for suborder in order.iter_mut() {
        suborder.sort();
    }
    order
}

const DEPENDENCIES: &str = r#"
dependencies {
    grape {
        watermelon {
            apple {
                banana
            }
        }
    }
    mango {
        watermelon
    }
    melon {
        peach {
            orange {
                banana
            }
        }
    }
    tangerine {
        peach
    }
    papaiya {
        peach
    }
}
"#;

fn dependency_node(kdl_node: &KdlNode) -> DependencyNode {
    let children = kdl_node
        .children()
        .map(KdlDocument::nodes)
        .unwrap_or_default();
    node(
        kdl_node.name().value(),
        children.iter().map(dependency_node).collect(),
    )
}

fn parse_deps_from_string(input: &str) -> ikki::toposort::Dag {
    let doc: KdlDocument = input.parse().expect("failed to parse");
    let dependencies = doc.get("dependencies").expect("no dependencies");
    parse_deps(&dependency_node(dependencies))
}

#[test]
fn correct_dependency_order() {
    let order = parse_deps_from_string(DEPENDENCIES);
    let order = order.toposort();

    assert!(order.is_some());

    let mut expected = vec![
        vec!["grape", "mango", "melon", "tangerine", "papaiya"],
        vec!["watermelon", "peach"],
        vec!["apple", "orange"],
        vec!["banana"],
    ];

    let mut order = order.unwrap();
    for suborder in order.iter_mut() {
        suborder.sort();
    }
    for suborder in expected.iter_mut() {
        suborder.sort();
    }

    assert_eq!(order, expected);
}

#[test]
fn no_depedencies() {
    let order = IkkiConfig::new(image_config(&["frontend", "backend", "cli"]), None).unwrap();

    let expected = vec![vec![
        "frontend".to_string(),
        "backend".to_string(),
        "cli".to_string(),
    ]];

    assert_eq!(order.build_order(), expected);
}

#[test]
fn image_names_keep_the_declared_order() {
    let config = image_config(&["b", "a", "c"]);
    assert_eq!(config.image_names(), vec!["b", "a", "c"]);
    assert!(image_config(&[]).image_names().is_empty());
}

#[test]
fn no_images_and_no_dependencies_give_one_empty_layer() {
    let config = IkkiConfig::new(image_config(&[]), None).unwrap();
    assert_eq!(config.build_order(), vec![Vec::<String>::new()]);
    assert!(config.images().is_empty());
}

#[test]
fn parent_is_built_before_what_is_nested_in_it() {
    let section = node("dependencies", vec![node("base", vec![leaf("api"), leaf("web")])]);
    let config = IkkiConfig::new(image_config(&["api", "base", "web"]), Some(&section)).unwrap();
    assert_eq!(
        sorted(config.build_order()),
        vec![vec!["base".to_string()], vec!["api".to_string(), "web".to_string()]]
    );
}

#[test]
fn declared_cycle_is_refused() {
    let section = node(
        "dependencies",
        vec![node("a", vec![node("b", vec![leaf("a")])])],
    );
    let refused = IkkiConfig::new(image_config(&["a", "b"]), Some(&section));
    assert!(matches!(refused, Err(IkkiConfigError::CycleDetected)));
}

#[test]
fn empty_dependency_section_gives_an_empty_order() {
    let section = leaf("dependencies");
    let config = IkkiConfig::new(image_config(&["a"]), Some(&section)).unwrap();
    assert!(config.build_order().is_empty());
    assert_eq!(config.images().len(), 1);
}

#[test]
fn root_without_nested_nodes_adds_no_edge() {
    let section = node("dependencies", vec![leaf("alone"), node("a", vec![leaf("b")])]);
    let order = parse_deps(&section).toposort().unwrap();
    assert_eq!(order, vec![vec!["a".to_string()], vec!["b".to_string()]]);
}

#[test]
fn find_image_gives_the_first_of_a_name() {
    let mut images = vec![image("a"), image("b"), image("b")];
    images[1].pull = Some("first".to_string());
    images[2].pull = Some("second".to_string());
    let config = IkkiConfig::new(ImageConfig { images: Images { images } }, None).unwrap();
    let found = config.find_image("b").unwrap();
    assert_eq!(found.name, "b");
    assert_eq!(found.pull.as_deref(), Some("first"));
    assert!(config.find_image("c").is_none());
    assert!(config.find_image("").is_none());
    assert_eq!(config.images().len(), 3);
    assert_eq!(config.images()[0].name, "a");
}

#[test]
fn config_error_messages() {
    assert_eq!(
        IkkiConfigError::InvalidConfiguration("missing `images` configuration".to_string())
            .message(),
        "Invalid Ikki configuration: missing `images` configuration"
    );
    assert_eq!(
        IkkiConfigError::Knuffel("bad".to_string()).message(),
        "Configuration deserialization failed: bad"
    );
    assert_eq!(
        IkkiConfigError::CycleDetected.message(),
        "Invalid Ikki configuration: dependency cycle"
    );
}

#[test]
fn records_can_be_cloned() {
    let mut web = image("web");
    web.build_args = vec![KeyValue("k".to_string(), "v".to_string())];
    web.service = Some(Service {
        ports: Some(vec!["80:80".to_string()]),
        env: vec![],
        user: Some("root".to_string()),
        mounts: vec![],
        networks: None,
    });
    let copy = web.clone();
    assert_eq!(copy.name, "web");
    assert_eq!(copy.build_args[0].1, "v");
    assert_eq!(copy.service.unwrap().user.as_deref(), Some("root"));
}

#[test]
fn document_without_images_is_refused() {
    let section = node("dependencies", vec![node("a", vec![leaf("b")])]);
    for dependencies in [None, Some(&section)] {
        match IkkiConfig::from_sections(None, dependencies) {
            Err(IkkiConfigError::InvalidConfiguration(text)) => {
                assert_eq!(text, "missing `images` configuration")
            }
            other => panic!("unexpected: {:?}", other),
        }
    }
}

#[test]
fn document_with_images_is_configured() {
    let config = IkkiConfig::from_sections(Some(image_config(&["a", "b"])), None).unwrap();
    assert_eq!(config.build_order(), vec![vec!["a".to_string(), "b".to_string()]]);
    let section = node("dependencies", vec![node("b", vec![leaf("a")])]);
    let config = IkkiConfig::from_sections(Some(image_config(&["a", "b"])), Some(&section)).unwrap();
    assert_eq!(
        config.build_order(),
        vec![vec!["b".to_string()], vec!["a".to_string()]]
    );
    let cycle = node("dependencies", vec![node("a", vec![leaf("a")])]);
    assert!(matches!(
        IkkiConfig::from_sections(Some(image_config(&["a"])), Some(&cycle)),
        Err(IkkiConfigError::CycleDetected)
    ));
}
