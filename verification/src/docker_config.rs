//! From image and service records to the option records of the engine.

use crate::config::{Image, KeyValue, KeyValueModel, Service};
use crate::docker::DockerError;
use crate::mapping::{merged, put_entry, unique_keys};
use crate::names::copy_names;
use vstd::prelude::*;
use vstd::string::*;

verus! {

/// Model of a [`BuildOptions`].
pub struct BuildOptionsModel {
    pub path: Option<Seq<char>>,
    pub pull: Option<Seq<char>>,
    pub build_args: Seq<(Seq<char>, Seq<char>)>,
    pub tag: Seq<char>,
}

/// What the engine needs to build or pull an image. The build arguments
/// are a mapping: no name occurs twice.
#[derive(Debug)]
pub struct BuildOptions {
    pub path: Option<String>,
    pub pull: Option<String>,
    pub build_args: Vec<(String, String)>,
    pub tag: String,
}

impl View for BuildOptions {
    type V = BuildOptionsModel;

    open spec fn view(&self) -> BuildOptionsModel {
        BuildOptionsModel {
            path: self.path.deep_view(),
            pull: self.pull.deep_view(),
            build_args: self.build_args.deep_view(),
            tag: self.tag@,
        }
    }
}

/// Model of a [`RunOptions`].
pub struct RunOptionsModel {
    pub container_name: Seq<char>,
    pub image_name: Seq<char>,
    pub env: Seq<Seq<char>>,
    pub ports: Seq<Seq<char>>,
}

/// What the engine needs to run a container.
#[derive(Debug)]
pub struct RunOptions {
    pub container_name: String,
    pub image_name: String,
    pub env: Vec<String>,
    pub ports: Vec<String>,
}

impl View for RunOptions {
    type V = RunOptionsModel;

    open spec fn view(&self) -> RunOptionsModel {
        RunOptionsModel {
            container_name: self.container_name@,
            image_name: self.image_name@,
            env: self.env.deep_view(),
            ports: self.ports.deep_view(),
        }
    }
}

/// The text of the error for an image with neither a path nor a pull
/// reference.
pub open spec fn missing_source() -> Seq<char> {
    "missing either `path` or `pull` parameter"@
}

/// The build options of an image: its path, pull reference and name, and
/// its build arguments as a mapping. An image with neither a path nor a
/// pull reference is refused.
pub fn build_options(image: &Image) -> (r: Result<BuildOptions, DockerError>)
    ensures
        r is Err <==> image@.pull is None && image@.path is None,
        r matches Err(e) ==> e matches DockerError::Settings(text) && text@ == missing_source(),
        r matches Ok(options) ==> options@ == (BuildOptionsModel {
            path: image@.path,
            pull: image@.pull,
            build_args: merged(image@.build_args),
            tag: image@.name,
        }),
{
    let ghost declared = image@.build_args;
    let mut build_args: Vec<(String, String)> = Vec::new();
    let mut i: usize = 0;
    while i < image.build_args.len()
        invariant
            i <= image.build_args.len(),
            declared == image.build_args.deep_view(),
            unique_keys(build_args.deep_view()),
            build_args.deep_view() == merged(declared.take(i as int)),
        decreases image.build_args.len() - i,
    {
        let kv = &image.build_args[i];
        assert(declared[i as int] == kv@);
        assert(declared.take(i + 1).drop_last() =~= declared.take(i as int));
        put_entry(&mut build_args, kv.0.clone(), kv.1.clone());
        i += 1;
    }
    assert(declared.take(i as int) =~= declared);
    if image.pull.is_none() && image.path.is_none() {
        return Err(DockerError::Settings("missing either `path` or `pull` parameter".to_owned()));
    }
    Ok(
        BuildOptions {
            build_args,
            pull: image.pull.clone(),
            path: image.path.clone(),
            tag: image.name.clone(),
        },
    )
}

/// Model of a [`PortBinding`].
pub struct PortBindingModel {
    pub host_ip: Option<Seq<char>>,
    pub host_port: Option<Seq<char>>,
}

/// The host side of a published port. Without a host port the engine
/// chooses one.
#[derive(Debug)]
pub struct PortBinding {
    pub host_ip: Option<String>,
    pub host_port: Option<String>,
}

impl View for PortBinding {
    type V = PortBindingModel;

    open spec fn view(&self) -> PortBindingModel {
        PortBindingModel {
            host_ip: self.host_ip.deep_view(),
            host_port: self.host_port.deep_view(),
        }
    }
}

impl DeepView for PortBinding {
    type V = PortBindingModel;

    open spec fn deep_view(&self) -> PortBindingModel {
        self@
    }
}

/// `i` is the first position of `c` in `s`.
pub open spec fn is_first(s: Seq<char>, c: char, i: int) -> bool {
    0 <= i < s.len() && s[i] == c && forall|j: int| 0 <= j < i ==> s[j] != c
}

/// What stands before and behind the first `c` in `s`, where `s` holds
/// one.
pub open spec fn split_once(s: Seq<char>, c: char) -> Option<(Seq<char>, Seq<char>)> {
    if exists|i: int| is_first(s, c, i) {
        let i = choose|i: int| is_first(s, c, i);
        Some((s.take(i), s.skip(i + 1)))
    } else {
        None
    }
}

/// The host port of a binding: what stands before its first colon, and
/// nothing where it has none.
pub open spec fn host_part(binding: Seq<char>) -> Seq<char> {
    match split_once(binding, ':') {
        Some(parts) => parts.0,
        None => Seq::empty(),
    }
}

/// The container side of a binding: what stands behind its first colon,
/// and all of it where it has none.
pub open spec fn container_part(binding: Seq<char>) -> Seq<char> {
    match split_once(binding, ':') {
        Some(parts) => parts.1,
        None => binding,
    }
}

/// The container port of a binding with its protocol, `tcp` where the
/// binding names none.
pub open spec fn container_port(binding: Seq<char>) -> Seq<char> {
    match split_once(container_part(binding), '/') {
        Some(parts) => parts.0 + "/"@ + parts.1,
        None => container_part(binding) + "/"@ + "tcp"@,
    }
}

/// The host side of a binding: the loopback address with the host port,
/// or nothing where the binding has no host port.
pub open spec fn host_binding(binding: Seq<char>) -> PortBindingModel {
    if host_part(binding).len() == 0 {
        PortBindingModel { host_ip: None, host_port: None }
    } else {
        PortBindingModel { host_ip: Some("127.0.0.1"@), host_port: Some(host_part(binding)) }
    }
}

/// `s` is a decimal number: one digit or more.
pub open spec fn is_number(s: Seq<char>) -> bool {
    s.len() > 0 && forall|i: int| 0 <= i < s.len() ==> 48 <= (#[trigger] s[i]) as u32 <= 57
}

/// The text of a port binding: the host port with a colon where there is
/// one, the container port, and a slash with the protocol where there is
/// one.
pub open spec fn binding_text(
    host: Option<Seq<char>>,
    port: Seq<char>,
    protocol: Option<Seq<char>>,
) -> Seq<char> {
    (match host {
        Some(h) => h + ":"@,
        None => Seq::empty(),
    }) + port + (match protocol {
        Some(p) => "/"@ + p,
        None => Seq::empty(),
    })
}

/// `split_once` splits at the position that is the first of `c`.
pub proof fn lemma_split_once(s: Seq<char>, c: char, i: int)
    requires
        is_first(s, c, i),
    ensures
        split_once(s, c) == Some((s.take(i), s.skip(i + 1))),
{
    let k = choose|k: int| is_first(s, c, k);
    if k < i {
        assert(s[k] != c);
    }
    if i < k {
        assert(s[i] != c);
    }
}

/// A port binding that is made of numbers, with `tcp` or `udp` as its
/// protocol, is taken apart into what it was made of: the container port
/// is the port with the protocol, `tcp` where none was given, and a host
/// port is bound exactly where one was given.
pub proof fn port_binding_round_trip(
    host: Option<Seq<char>>,
    port: Seq<char>,
    protocol: Option<Seq<char>>,
)
    requires
        host matches Some(h) ==> is_number(h),
        is_number(port),
        protocol matches Some(p) ==> p == "tcp"@ || p == "udp"@,
    ensures
        container_port(binding_text(host, port, protocol)) == port + "/"@ + (match protocol {
            Some(p) => p,
            None => "tcp"@,
        }),
        host_binding(binding_text(host, port, protocol)).host_port == host,
        host_binding(binding_text(host, port, protocol)).host_ip == (match host {
            Some(_) => Some("127.0.0.1"@),
            None => None,
        }),
{
    reveal_strlit(":");
    reveal_strlit("/");
    reveal_strlit("tcp");
    reveal_strlit("udp");
    let text = binding_text(host, port, protocol);
    let tail: Seq<char> = match protocol {
        Some(p) => "/"@ + p,
        None => Seq::empty(),
    };
    let address = port + tail;
    assert forall|i: int| 0 <= i < address.len() implies address[i] != ':' by {
        if i < port.len() {
            assert(address[i] == port[i]);
        } else {
            assert(address[i] == tail[i - port.len()]);
            if i - port.len() > 0 {
                assert(tail[i - port.len()] == protocol->Some_0[i - port.len() - 1]);
            }
        }
    }
    match host {
        Some(h) => {
            assert(text =~= h + ":"@ + address);
            assert(text[h.len() as int] == ':');
            assert forall|j: int| 0 <= j < h.len() implies text[j] != ':' by {
                assert(text[j] == h[j]);
            }
            lemma_split_once(text, ':', h.len() as int);
            assert(text.take(h.len() as int) =~= h);
            assert(text.skip(h.len() as int + 1) =~= address);
        },
        None => {
            assert(text =~= address);
            assert(forall|i: int| !is_first(text, ':', i));
        },
    }
    assert(container_part(text) == address);
    match protocol {
        Some(p) => {
            assert(address[port.len() as int] == '/');
            assert forall|j: int| 0 <= j < port.len() implies address[j] != '/' by {
                assert(address[j] == port[j]);
            }
            lemma_split_once(address, '/', port.len() as int);
            assert(address.take(port.len() as int) =~= port);
            assert(address.skip(port.len() as int + 1) =~= p);
        },
        None => {
            assert(address =~= port);
            assert forall|i: int| !is_first(address, '/', i) by {
                if 0 <= i < address.len() {
                    assert(48 <= port[i] as u32 <= 57);
                }
            }
        },
    }
}

/// The first position of `c` in `s`.
fn find_char(s: &str, c: char) -> (r: Option<usize>)
    ensures
        r matches Some(i) ==> is_first(s@, c, i as int),
        r is None ==> forall|j: int| 0 <= j < s@.len() ==> s@[j] != c,
{
    let n = s.unicode_len();
    let mut i: usize = 0;
    while i < n
        invariant
            i <= n,
            n == s@.len(),
            forall|j: int| 0 <= j < i ==> s@[j] != c,
        decreases n - i,
    {
        if s.get_char(i) == c {
            return Some(i);
        }
        i += 1;
    }
    None
}

/// Splits `s` at its first `c`.
fn split_str<'a>(s: &'a str, c: char) -> (r: Option<(&'a str, &'a str)>)
    ensures
        r.deep_view() == split_once(s@, c),
{
    match find_char(s, c) {
        Some(i) => {
            let n = s.unicode_len();
            let parts = (s.substring_char(0, i), s.substring_char(i + 1, n));
            proof {
                lemma_split_once(s@, c, i as int);
                assert(s@.subrange(0, i as int) =~= s@.take(i as int));
                assert(s@.subrange(i + 1, n as int) =~= s@.skip(i + 1));
            }
            Some(parts)
        },
        None => None,
    }
}

/// The container port and the host side of a port binding, written
/// `host:container/protocol`, where the host port with its colon and the
/// protocol with its slash may be left out.
pub fn parse_port_binding(binding: String) -> (r: (String, PortBinding))
    ensures
        r.0@ == container_port(binding@),
        r.1@ == host_binding(binding@),
{
    let text = binding.as_str();
    let (host_port, container_address) = match split_str(text, ':') {
        Some(parts) => parts,
        None => ("", text),
    };
    let (container_port, protocol) = match split_str(container_address, '/') {
        Some(parts) => parts,
        None => (container_address, "tcp"),
    };
    proof {
        reveal_strlit("");
    }
    let (host_ip, host_port) = if host_port.unicode_len() == 0 {
        (None, None)
    } else {
        (Some("127.0.0.1".to_owned()), Some(host_port.to_owned()))
    };
    let mut container = container_port.to_owned();
    container.append("/");
    container.append(protocol);
    (container, PortBinding { host_ip, host_port })
}

/// The environment entry `key=value`.
pub open spec fn env_entry(kv: KeyValueModel) -> Seq<char> {
    kv.0 + "="@ + kv.1
}

/// The environment entries of `env`, in its order.
pub open spec fn env_entries(env: Seq<KeyValueModel>) -> Seq<Seq<char>> {
    env.map_values(|kv: KeyValueModel| env_entry(kv))
}

fn env_config(env: &Vec<KeyValue>) -> (entries: Vec<String>)
    ensures
        entries.deep_view() == env_entries(env.deep_view()),
{
    let mut entries: Vec<String> = Vec::new();
    let mut i: usize = 0;
    while i < env.len()
        invariant
            i <= env.len(),
            entries.len() == i,
            forall|j: int| 0 <= j < i ==> entries.deep_view()[j] == env_entry(env.deep_view()[j]),
        decreases env.len() - i,
    {
        let kv = &env[i];
        let mut entry = kv.0.clone();
        entry.append("=");
        entry.append(kv.1.as_str());
        let ghost before = entries.deep_view();
        entries.push(entry);
        assert(entries.deep_view() =~= before.push(env_entry(kv@)));
        assert(env.deep_view()[i as int] == kv@);
        i += 1;
    }
    assert(entries.deep_view() =~= env_entries(env.deep_view()));
    entries
}

/// The environment of a service as `key=value` entries, in its order.
pub fn create_env_config(env: Vec<KeyValue>) -> (entries: Vec<String>)
    ensures
        entries.deep_view() == env_entries(env.deep_view()),
{
    env_config(&env)
}

/// The ports of a service, none where it declares none.
pub open spec fn declared_ports(service: crate::config::ServiceModel) -> Seq<Seq<char>> {
    match service.ports {
        Some(ports) => ports,
        None => Seq::empty(),
    }
}

/// The run options of the container `container_name` that runs
/// `image_name` with a service.
pub open spec fn run_options_model(
    container_name: Seq<char>,
    image_name: Seq<char>,
    service: crate::config::ServiceModel,
) -> RunOptionsModel {
    RunOptionsModel {
        container_name,
        image_name,
        env: env_entries(service.env),
        ports: declared_ports(service),
    }
}

/// As [`create_run_options`], for a service that stays with its owner.
pub fn run_options_of(container_name: String, image_name: String, service: &Service) -> (options:
    RunOptions)
    ensures
        options@ == run_options_model(container_name@, image_name@, service@),
{
    let ports = match &service.ports {
        Some(ports) => copy_names(ports),
        None => Vec::new(),
    };
    proof {
        assert(ports.deep_view() =~= declared_ports(service@));
    }
    RunOptions { container_name, env: env_config(&service.env), ports, image_name }
}

/// The run options of a container: its name, the image to run, the
/// environment of the service as `key=value` entries and its port
/// bindings as they were declared.
pub fn create_run_options(args: (String, String, Service)) -> (options: RunOptions)
    ensures
        options@ == run_options_model(args.0@, args.1@, args.2@),
{
    let (container_name, image_name, service) = args;
    run_options_of(container_name, image_name, &service)
}

/// One published port: the container port with its protocol, and the
/// host side.
pub open spec fn port_entry(binding: Seq<char>) -> (Seq<char>, PortBindingModel) {
    (container_port(binding), host_binding(binding))
}

/// The published ports of a container as a mapping from container port
/// to host side: of two bindings for one container port the later one
/// stands.
pub fn create_ports_config(ports: Vec<String>) -> (bindings: Vec<(String, PortBinding)>)
    ensures
        bindings.deep_view() == merged(
            ports.deep_view().map_values(|binding: Seq<char>| port_entry(binding)),
        ),
        unique_keys(bindings.deep_view()),
{
    let ghost parsed = ports.deep_view().map_values(|binding: Seq<char>| port_entry(binding));
    let mut port_bindings: Vec<(String, PortBinding)> = Vec::new();
    let mut i: usize = 0;
    while i < ports.len()
        invariant
            i <= ports.len(),
            parsed == ports.deep_view().map_values(|binding: Seq<char>| port_entry(binding)),
            unique_keys(port_bindings.deep_view()),
            port_bindings.deep_view() == merged(parsed.take(i as int)),
        decreases ports.len() - i,
    {
        let (container, host) = parse_port_binding(ports[i].clone());
        assert(parsed[i as int] == port_entry(ports.deep_view()[i as int]));
        assert(parsed.take(i + 1).drop_last() =~= parsed.take(i as int));
        put_entry(&mut port_bindings, container, host);
        i += 1;
    }
    assert(parsed.take(i as int) =~= parsed);
    port_bindings
}

/// Model of a [`ContainerSettings`].
pub struct ContainerSettingsModel {
    pub image: Seq<char>,
    pub env: Seq<Seq<char>>,
    pub port_bindings: Seq<(Seq<char>, PortBindingModel)>,
}

/// What is handed to the engine to create a container: the image to run,
/// the environment and the published ports.
#[derive(Debug)]
pub struct ContainerSettings {
    pub image: String,
    pub env: Vec<String>,
    pub port_bindings: Vec<(String, PortBinding)>,
}

impl View for ContainerSettings {
    type V = ContainerSettingsModel;

    open spec fn view(&self) -> ContainerSettingsModel {
        ContainerSettingsModel {
            image: self.image@,
            env: self.env.deep_view(),
            port_bindings: self.port_bindings.deep_view(),
        }
    }
}

/// The settings of the container that runs `image_name` as
/// `container_name` with `service`.
pub fn create_container_config(container_name: &str, image_name: &str, service: Service) -> (config:
    ContainerSettings)
    ensures
        config@ == (ContainerSettingsModel {
            image: image_name@,
            env: env_entries(service@.env),
            port_bindings: merged(
                declared_ports(service@).map_values(|binding: Seq<char>| port_entry(binding)),
            ),
        }),
{
    let options = create_run_options((container_name.to_owned(), image_name.to_owned(), service));
    ContainerSettings {
        image: options.image_name,
        env: options.env,
        port_bindings: create_ports_config(options.ports),
    }
}

} // verus!
