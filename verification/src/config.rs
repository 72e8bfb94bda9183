//! The configuration records: images, their services, and the build order.
//!
//! Each record has a model made of sequences and options, its view, over
//! which the contracts of the rest of the library are stated. Paths are
//! held as text.

use crate::deps::{forest_edges, parse_deps, DependencyNode};
use crate::names::copy_order;
use crate::precedence::{has_cycle, is_schedule};
use crate::toposort::Toposort;
use vstd::prelude::*;
use vstd::string::*;

verus! {

/// Model of a [`KeyValue`]: the key, then the value.
pub type KeyValueModel = (Seq<char>, Seq<char>);

/// A key with its value, as in a build argument or an environment entry.
#[derive(Debug, Clone)]
pub struct KeyValue(pub String, pub String);

impl View for KeyValue {
    type V = KeyValueModel;

    open spec fn view(&self) -> KeyValueModel {
        (self.0@, self.1@)
    }
}

impl DeepView for KeyValue {
    type V = KeyValueModel;

    open spec fn deep_view(&self) -> KeyValueModel {
        self@
    }
}

/// Model of a [`Secret`].
pub struct SecretModel {
    pub id: Seq<char>,
    pub src: Seq<char>,
}

/// A build secret: its id and the file that holds it.
#[derive(Debug, Clone)]
pub struct Secret {
    pub id: String,
    pub src: String,
}

impl View for Secret {
    type V = SecretModel;

    open spec fn view(&self) -> SecretModel {
        SecretModel { id: self.id@, src: self.src@ }
    }
}

impl DeepView for Secret {
    type V = SecretModel;

    open spec fn deep_view(&self) -> SecretModel {
        self@
    }
}

/// Model of a [`Mount`].
pub struct MountModel {
    pub mount_type: Seq<char>,
    pub src: Seq<char>,
    pub dest: Seq<char>,
}

/// A mount of a service: its kind, source path and destination path.
#[derive(Debug, Clone)]
pub struct Mount {
    pub mount_type: String,
    pub src: String,
    pub dest: String,
}

impl View for Mount {
    type V = MountModel;

    open spec fn view(&self) -> MountModel {
        MountModel { mount_type: self.mount_type@, src: self.src@, dest: self.dest@ }
    }
}

impl DeepView for Mount {
    type V = MountModel;

    open spec fn deep_view(&self) -> MountModel {
        self@
    }
}

/// Model of a [`Service`].
pub struct ServiceModel {
    pub ports: Option<Seq<Seq<char>>>,
    pub env: Seq<KeyValueModel>,
    pub user: Option<Seq<char>>,
    pub mounts: Seq<MountModel>,
    pub networks: Option<Seq<Seq<char>>>,
}

/// What makes an image a container to launch.
#[derive(Debug, Clone)]
pub struct Service {
    pub ports: Option<Vec<String>>,
    pub env: Vec<KeyValue>,
    pub user: Option<String>,
    pub mounts: Vec<Mount>,
    pub networks: Option<Vec<String>>,
}

impl View for Service {
    type V = ServiceModel;

    open spec fn view(&self) -> ServiceModel {
        ServiceModel {
            ports: self.ports.deep_view(),
            env: self.env.deep_view(),
            user: self.user.deep_view(),
            mounts: self.mounts.deep_view(),
            networks: self.networks.deep_view(),
        }
    }
}

impl DeepView for Service {
    type V = ServiceModel;

    open spec fn deep_view(&self) -> ServiceModel {
        self@
    }
}

/// The values of one `build-arg` entry.
#[derive(Debug)]
pub struct BuildArg {
    pub values: Vec<String>,
}

impl View for BuildArg {
    type V = Seq<Seq<char>>;

    open spec fn view(&self) -> Seq<Seq<char>> {
        self.values.deep_view()
    }
}

/// Model of an [`Image`].
pub struct ImageModel {
    pub path: Option<Seq<char>>,
    pub file: Option<Seq<char>>,
    pub output: Option<Seq<char>>,
    pub pull: Option<Seq<char>>,
    pub build_args: Seq<KeyValueModel>,
    pub service: Option<ServiceModel>,
    pub secret: Option<SecretModel>,
    pub name: Seq<char>,
}

/// An image: built from `path`, or pulled as `pull`.
#[derive(Debug, Clone)]
pub struct Image {
    pub path: Option<String>,
    pub file: Option<String>,
    pub output: Option<String>,
    pub pull: Option<String>,
    pub build_args: Vec<KeyValue>,
    pub service: Option<Service>,
    pub secret: Option<Secret>,
    pub name: String,
}

impl View for Image {
    type V = ImageModel;

    open spec fn view(&self) -> ImageModel {
        ImageModel {
            path: self.path.deep_view(),
            file: self.file.deep_view(),
            output: self.output.deep_view(),
            pull: self.pull.deep_view(),
            build_args: self.build_args.deep_view(),
            service: self.service.deep_view(),
            secret: self.secret.deep_view(),
            name: self.name@,
        }
    }
}

impl DeepView for Image {
    type V = ImageModel;

    open spec fn deep_view(&self) -> ImageModel {
        self@
    }
}

/// The `images` section.
#[derive(Debug)]
pub struct Images {
    pub images: Vec<Image>,
}

impl View for Images {
    type V = Seq<ImageModel>;

    open spec fn view(&self) -> Seq<ImageModel> {
        self.images.deep_view()
    }
}

/// The image part of a configuration.
#[derive(Debug)]
pub struct ImageConfig {
    pub images: Images,
}

impl View for ImageConfig {
    type V = Seq<ImageModel>;

    open spec fn view(&self) -> Seq<ImageModel> {
        self.images@
    }
}

/// The names of the images, in their order.
pub open spec fn names_of(images: Seq<ImageModel>) -> Seq<Seq<char>> {
    images.map_values(|image: ImageModel| image.name)
}

/// The image that the container of `image` runs: the pull reference where
/// it has one, else the image built under its own name.
pub open spec fn image_to_run(image: ImageModel) -> Seq<char> {
    match image.pull {
        Some(pull) => pull,
        None => image.name,
    }
}

/// `i` is the first position in `images` of an image called `name`.
pub open spec fn is_first_named(images: Seq<ImageModel>, name: Seq<char>, i: int) -> bool {
    0 <= i < images.len() && images[i].name == name && forall|j: int|
        0 <= j < i ==> (#[trigger] images[j]).name != name
}

/// The first image called `name`, if there is one.
pub open spec fn find_model(images: Seq<ImageModel>, name: Seq<char>) -> Option<ImageModel> {
    if exists|i: int| is_first_named(images, name, i) {
        Some(images[choose|i: int| is_first_named(images, name, i)])
    } else {
        None
    }
}

/// Where `i` is the first position of an image called `name`, that image
/// is the one that `find_model` gives.
pub proof fn lemma_find_model(images: Seq<ImageModel>, name: Seq<char>, i: int)
    requires
        is_first_named(images, name, i),
    ensures
        find_model(images, name) == Some(images[i]),
{
    let k = choose|k: int| is_first_named(images, name, k);
    if k < i {
        assert(images[k].name != name);
    }
    if i < k {
        assert(images[i].name != name);
    }
}

impl ImageConfig {
    /// The names of the images, in their order.
    pub fn image_names(&self) -> (names: Vec<String>)
        ensures
            names.deep_view() == names_of(self@),
    {
        let images = &self.images.images;
        let mut names: Vec<String> = Vec::new();
        let mut i: usize = 0;
        while i < images.len()
            invariant
                i <= images.len(),
                images.deep_view() == self@,
                names.len() == i,
                forall|j: int| 0 <= j < i ==> names.deep_view()[j] == self@[j].name,
            decreases images.len() - i,
        {
            let ghost before = names.deep_view();
            names.push(images[i].name.clone());
            assert(names.deep_view() =~= before.push(images[i as int].name@));
            assert(images.deep_view()[i as int] == images[i as int]@);
            i += 1;
        }
        assert(names.deep_view() =~= names_of(self@));
        names
    }
}

/// A sequence of layers of image names: the images of a layer can be
/// built side by side, the layers one after the other.
pub type BuildOrder = Vec<Vec<String>>;

/// Why a configuration was refused.
#[derive(Debug)]
pub enum IkkiConfigError {
    /// The document is malformed or lacks its `images` section.
    InvalidConfiguration(String),
    /// The `images` section could not be decoded.
    Knuffel(String),
    /// The declared dependencies hold a cycle.
    CycleDetected,
}

/// Another name of [`IkkiConfigError`].
pub type UnisonConfigError = IkkiConfigError;

/// The text that tells a user of a refused configuration.
pub open spec fn config_error_text(e: IkkiConfigError) -> Seq<char> {
    match e {
        IkkiConfigError::InvalidConfiguration(text) => "Invalid Ikki configuration: "@ + text@,
        IkkiConfigError::Knuffel(text) => "Configuration deserialization failed: "@ + text@,
        IkkiConfigError::CycleDetected => "Invalid Ikki configuration: dependency cycle"@,
    }
}

impl IkkiConfigError {
    /// The text that tells a user of this error.
    pub fn message(&self) -> (text: String)
        ensures
            text@ == config_error_text(*self),
    {
        match self {
            IkkiConfigError::InvalidConfiguration(text) => "Invalid Ikki configuration: ".to_owned().concat(
                text.as_str(),
            ),
            IkkiConfigError::Knuffel(text) => "Configuration deserialization failed: ".to_owned().concat(
                text.as_str(),
            ),
            IkkiConfigError::CycleDetected => "Invalid Ikki configuration: dependency cycle".to_owned(),
        }
    }
}

/// The text of the error for a document without an `images` section.
pub open spec fn missing_images() -> Seq<char> {
    "missing `images` configuration"@
}

/// Model of an [`IkkiConfig`].
pub struct IkkiConfigModel {
    pub images: Seq<ImageModel>,
    pub build_order: Seq<Seq<Seq<char>>>,
}

/// The images of a project and the order in which to build them.
#[derive(Debug)]
pub struct IkkiConfig {
    image_config: ImageConfig,
    build_order: Vec<Vec<String>>,
}

impl View for IkkiConfig {
    type V = IkkiConfigModel;

    closed spec fn view(&self) -> IkkiConfigModel {
        IkkiConfigModel {
            images: self.image_config@,
            build_order: self.build_order.deep_view(),
        }
    }
}

impl IkkiConfig {
    /// The configuration of `image_config` with the build order that
    /// `dependencies` declares. Without a dependency section the order is
    /// one layer of all images, as they were declared. With one, it is the
    /// layered schedule of the declared graph; a cycle is refused.
    pub fn new(image_config: ImageConfig, dependencies: Option<&DependencyNode>) -> (r: Result<
        IkkiConfig,
        IkkiConfigError,
    >)
        ensures
            r matches Ok(config) ==> config@.images == image_config@,
            dependencies is None ==> r is Ok && r->Ok_0@.build_order == seq![
                names_of(image_config@),
            ],
            dependencies matches Some(section) ==> ({
                let g = forest_edges(section.children@, section.children.len() as int);
                &&& has_cycle(g) <==> r is Err
                &&& r matches Err(e) ==> e is CycleDetected
                &&& r matches Ok(config) ==> is_schedule(g, config@.build_order)
            }),
    {
        let build_order = match dependencies {
            Some(section) => {
                let dag = parse_deps(section);
                match dag.toposort() {
                    Some(order) => order,
                    None => {
                        return Err(IkkiConfigError::CycleDetected);
                    },
                }
            },
            None => {
                let mut single: Vec<Vec<String>> = Vec::new();
                single.push(image_config.image_names());
                assert(single.deep_view() =~= seq![names_of(image_config@)]);
                single
            },
        };
        Ok(IkkiConfig { image_config, build_order })
    }

    /// The configuration of a document, given its `images` section and its
    /// `dependencies` section where it has them. A document without an
    /// `images` section is refused; else the result is that of
    /// [`IkkiConfig::new`].
    pub fn from_sections(images: Option<ImageConfig>, dependencies: Option<&DependencyNode>) -> (r:
        Result<IkkiConfig, IkkiConfigError>)
        ensures
            images is None ==> (r matches Err(IkkiConfigError::InvalidConfiguration(text)) && text@
                == missing_images()),
            images matches Some(image_config) ==> {
                &&& r matches Ok(config) ==> config@.images == image_config@
                &&& dependencies is None ==> r is Ok && r->Ok_0@.build_order == seq![
                    names_of(image_config@),
                ]
                &&& dependencies matches Some(section) ==> ({
                    let g = forest_edges(section.children@, section.children.len() as int);
                    &&& has_cycle(g) <==> r is Err
                    &&& r matches Err(e) ==> e is CycleDetected
                    &&& r matches Ok(config) ==> is_schedule(g, config@.build_order)
                })
            },
    {
        match images {
            Some(image_config) => IkkiConfig::new(image_config, dependencies),
            None => Err(
                IkkiConfigError::InvalidConfiguration("missing `images` configuration".to_owned()),
            ),
        }
    }

    /// The images, as they were declared.
    pub fn images(&self) -> (images: &Vec<Image>)
        ensures
            images.deep_view() == self@.images,
    {
        &self.image_config.images.images
    }

    /// The first image called `name`.
    pub fn find_image(&self, name: &str) -> (found: Option<&Image>)
        ensures
            found.deep_view() == find_model(self@.images, name@),
            found matches Some(image) ==> image.name@ == name@,
    {
        let images = &self.image_config.images.images;
        let wanted = name.to_owned();
        let mut i: usize = 0;
        while i < images.len()
            invariant
                i <= images.len(),
                wanted@ == name@,
                images.deep_view() == self@.images,
                forall|j: int| 0 <= j < i ==> (#[trigger] self@.images[j]).name != name@,
            decreases images.len() - i,
        {
            assert(images.deep_view()[i as int] == images[i as int]@);
            if images[i].name == wanted {
                proof {
                    lemma_find_model(self@.images, name@, i as int);
                }
                return Some(&images[i]);
            }
            i += 1;
        }
        None
    }

    /// The build order.
    pub fn build_order(&self) -> (order: BuildOrder)
        ensures
            order.deep_view() == self@.build_order,
    {
        copy_order(&self.build_order)
    }
}

/// Another name of [`IkkiConfig`].
pub type UnisonConfig = IkkiConfig;

} // verus!
