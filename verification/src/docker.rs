//! What a build or pull job decides: its errors, the request it makes of
//! the engine, whether an image is already present, and the totals of a
//! download.

use crate::config::{Image, ImageModel};
use crate::docker_config::{build_options, missing_source, BuildOptions};
use crate::mapping::merged;
use vstd::prelude::*;
use vstd::string::*;

verus! {

/// Why a job failed.
#[derive(Debug)]
pub enum DockerError {
    /// The image record cannot be turned into engine options.
    Settings(String),
    /// The build context could not be archived.
    Archive(String),
    /// The container engine reported a failure.
    DockerDaemonError(String),
}

/// The text that tells a user of a failed job.
pub open spec fn docker_error_text(e: DockerError) -> Seq<char> {
    match e {
        DockerError::Settings(text) => "Invalid settings: "@ + text@,
        DockerError::Archive(_) => "Failed to archive a directory"@,
        DockerError::DockerDaemonError(text) => "Docker daemon error: "@ + text@,
    }
}

impl DockerError {
    /// The text that tells a user of this error.
    pub fn message(&self) -> (text: String)
        ensures
            text@ == docker_error_text(*self),
    {
        match self {
            DockerError::Settings(text) => "Invalid settings: ".to_owned().concat(text.as_str()),
            DockerError::Archive(_) => "Failed to archive a directory".to_owned(),
            DockerError::DockerDaemonError(text) => "Docker daemon error: ".to_owned().concat(
                text.as_str(),
            ),
        }
    }
}

/// Which job an image needs.
#[derive(Debug, PartialEq, Eq, Structural, Clone, Copy)]
pub enum JobKind {
    /// Pull the image from its registry.
    Pull,
    /// Build the image from its source directory.
    Build,
    /// The image has neither a pull reference nor a path: nothing to do.
    Nothing,
}

/// The job of an image: a pull where it has a pull reference, else a
/// build where it has a path.
pub open spec fn job_of(image: ImageModel) -> JobKind {
    if image.pull is Some {
        JobKind::Pull
    } else if image.path is Some {
        JobKind::Build
    } else {
        JobKind::Nothing
    }
}

/// The job that `image` needs.
pub fn job_kind(image: &Image) -> (kind: JobKind)
    ensures
        kind == job_of(image@),
{
    if image.pull.is_some() {
        JobKind::Pull
    } else if image.path.is_some() {
        JobKind::Build
    } else {
        JobKind::Nothing
    }
}

/// Model of a [`BuildRequest`].
pub struct BuildRequestModel {
    pub context: Seq<char>,
    pub dockerfile: Seq<char>,
    pub tag: Seq<char>,
    pub build_args: Seq<(Seq<char>, Seq<char>)>,
    pub remove_intermediate: bool,
}

/// What a build asks of the engine: the directory to archive as build
/// context, the name of the dockerfile inside it, the tag of the result,
/// the build arguments, and whether intermediate containers are removed.
#[derive(Debug)]
pub struct BuildRequest {
    pub context: String,
    pub dockerfile: String,
    pub tag: String,
    pub build_args: Vec<(String, String)>,
    pub remove_intermediate: bool,
}

impl View for BuildRequest {
    type V = BuildRequestModel;

    open spec fn view(&self) -> BuildRequestModel {
        BuildRequestModel {
            context: self.context@,
            dockerfile: self.dockerfile@,
            tag: self.tag@,
            build_args: self.build_args.deep_view(),
            remove_intermediate: self.remove_intermediate,
        }
    }
}

/// The text of the error for a build of an image without a path.
pub open spec fn missing_build_path(name: Seq<char>) -> Seq<char> {
    "missing image build path for image `"@ + name + "`"@
}

/// The request that builds `image`: its path as context, `Dockerfile`,
/// its name as tag, its build arguments as a mapping. An image without a
/// path is refused.
pub fn build_request(image: &Image) -> (r: Result<BuildRequest, DockerError>)
    ensures
        r is Ok <==> image@.path is Some,
        r matches Ok(request) ==> request@ == (BuildRequestModel {
            context: image@.path->Some_0,
            dockerfile: "Dockerfile"@,
            tag: image@.name,
            build_args: merged(image@.build_args),
            remove_intermediate: true,
        }),
        r matches Err(e) ==> e matches DockerError::Settings(text) && text@ == (if image@.pull
            is None {
            missing_source()
        } else {
            missing_build_path(image@.name)
        }),
{
    let options = match build_options(image) {
        Ok(options) => options,
        Err(e) => {
            return Err(e);
        },
    };
    let BuildOptions { path, pull: _, build_args, tag } = options;
    match path {
        Some(context) => Ok(
            BuildRequest {
                context,
                dockerfile: "Dockerfile".to_owned(),
                tag,
                build_args,
                remove_intermediate: true,
            },
        ),
        None => {
            let mut text = "missing image build path for image `".to_owned();
            text.append(image.name.as_str());
            text.append("`");
            Err(DockerError::Settings(text))
        },
    }
}

/// The reference that a pull asks for: the pull reference of the image,
/// and `<unknown>` where it has none.
pub open spec fn pull_reference_of(image: ImageModel) -> Seq<char> {
    match image.pull {
        Some(pull) => pull,
        None => "<unknown>"@,
    }
}

/// The reference that a pull of `image` asks for.
pub fn pull_reference(image: &Image) -> (name: String)
    ensures
        name@ == pull_reference_of(image@),
{
    match &image.pull {
        Some(pull) => pull.clone(),
        None => "<unknown>".to_owned(),
    }
}

/// `needle` stands in `hay` from position `i` on.
pub open spec fn occurs_at(hay: Seq<char>, needle: Seq<char>, i: int) -> bool {
    0 <= i && i + needle.len() <= hay.len() && hay.subrange(i, i + needle.len()) == needle
}

/// `needle` is a part of `hay`, letter for letter.
pub open spec fn contains_text(hay: Seq<char>, needle: Seq<char>) -> bool {
    exists|i: int| occurs_at(hay, needle, i)
}

/// The characters of `s`.
fn chars_of(s: &str) -> (chars: Vec<char>)
    ensures
        chars@ == s@,
{
    let mut chars: Vec<char> = Vec::new();
    for c in it: s.chars()
        invariant
            it.seq() == s@,
            chars@ == s@.take(it.index() as int),
    {
        chars.push(c);
        assert(s@.take(it.index() + 1) =~= s@.take(it.index() as int).push(c));
    }
    assert(s@.take(s@.len() as int) =~= s@);
    chars
}

/// `needle` is a part of `hay`.
pub fn text_contains(hay: &str, needle: &str) -> (found: bool)
    ensures
        found == contains_text(hay@, needle@),
{
    let text = chars_of(hay);
    let part = chars_of(needle);
    let n = text.len();
    let m = part.len();
    if m > n {
        return false;
    }
    let mut i: usize = 0;
    while i <= n - m
        invariant
            text@ == hay@,
            part@ == needle@,
            m <= n,
            n == text.len(),
            m == part.len(),
            i <= n - m + 1,
            forall|k: int| 0 <= k < i ==> !occurs_at(hay@, needle@, k),
        decreases n - m + 1 - i,
    {
        let mut j: usize = 0;
        let mut same = true;
        while j < m
            invariant
                m <= n,
                n == text.len(),
                m == part.len(),
                i <= n - m,
                j <= m,
                same <==> forall|k: int| 0 <= k < j ==> text@[i + k] == part@[k],
            decreases m - j,
        {
            if text[i + j] != part[j] {
                same = false;
            }
            j += 1;
        }
        if same {
            assert(hay@.subrange(i as int, i + m) =~= needle@);
            assert(occurs_at(hay@, needle@, i as int));
            return true;
        }
        proof {
            if occurs_at(hay@, needle@, i as int) {
                let k = choose|k: int| 0 <= k < m && text@[i + k] != part@[k];
                assert(hay@.subrange(i as int, i + m)[k] == needle@[k]);
            }
        }
        i += 1;
    }
    false
}

/// Some tag of some image holds `name` as a part.
pub open spec fn present_in(repo_tags: Seq<Seq<Seq<char>>>, name: Seq<char>) -> bool {
    exists|i: int, j: int|
        0 <= i < repo_tags.len() && 0 <= j < repo_tags[i].len() && contains_text(
            #[trigger] repo_tags[i][j],
            name,
        )
}

/// Whether the engine already holds the image `name`: whether `name` is a
/// part of any tag of any of the engine's images, given as one list of
/// tags for each image.
pub fn image_present(repo_tags: &Vec<Vec<String>>, name: &str) -> (present: bool)
    ensures
        present == present_in(repo_tags.deep_view(), name@),
{
    let ghost all = repo_tags.deep_view();
    let mut i: usize = 0;
    while i < repo_tags.len()
        invariant
            i <= repo_tags.len(),
            all == repo_tags.deep_view(),
            forall|a: int, b: int|
                0 <= a < i && 0 <= b < all[a].len() ==> !contains_text(#[trigger] all[a][b], name@),
        decreases repo_tags.len() - i,
    {
        let tags = &repo_tags[i];
        assert(all[i as int] == tags.deep_view());
        let mut j: usize = 0;
        while j < tags.len()
            invariant
                j <= tags.len(),
                i < repo_tags.len(),
                all == repo_tags.deep_view(),
                all[i as int] == tags.deep_view(),
                forall|b: int| 0 <= b < j ==> !contains_text(#[trigger] all[i as int][b], name@),
            decreases tags.len() - j,
        {
            assert(all[i as int][j as int] == tags[j as int]@);
            if text_contains(tags[j].as_str(), name) {
                return true;
            }
            j += 1;
        }
        i += 1;
    }
    false
}

} // verus!
