//! The command lines that stand for the option records.

use crate::config::{image_to_run, IkkiConfig, ImageModel};
use crate::docker::DockerError;
use crate::docker_config::{
    build_options, missing_source, run_options_model, run_options_of, BuildOptions,
    BuildOptionsModel, RunOptions, RunOptionsModel,
};
use crate::mapping::merged;
use vstd::prelude::*;
use vstd::string::*;

verus! {

/// The flags of the build arguments: for each `--build-arg name=value `.
pub open spec fn build_arg_flags(args: Seq<(Seq<char>, Seq<char>)>) -> Seq<char>
    decreases args.len(),
{
    if args.len() == 0 {
        Seq::empty()
    } else {
        build_arg_flags(args.drop_last()) + "--build-arg "@ + args.last().0 + "="@ + args.last().1
            + " "@
    }
}

/// The command line that builds or pulls an image: a pull where the
/// options have no path, a build with the arguments, the tag and the path
/// else.
pub open spec fn build_line(options: BuildOptionsModel) -> Seq<char> {
    match options.path {
        None => "docker pull "@ + options.pull->Some_0,
        Some(path) => "docker build "@ + build_arg_flags(options.build_args) + "--tag "@
            + options.tag + " "@ + path,
    }
}

/// `flag` and an item, for each item.
pub open spec fn flags(flag: Seq<char>, items: Seq<Seq<char>>) -> Seq<char>
    decreases items.len(),
{
    if items.len() == 0 {
        Seq::empty()
    } else {
        flags(flag, items.drop_last()) + flag + items.last()
    }
}

/// The command line that runs a container: its name, the environment
/// entries, the published ports, then the image.
pub open spec fn run_line(options: RunOptionsModel) -> Seq<char> {
    "docker run"@ + " --name "@ + options.container_name + flags(" --env "@, options.env) + flags(
        " --publish "@,
        options.ports,
    ) + " "@ + options.image_name
}

/// Appends `flag` and an item for each item.
fn push_flags(s: &mut String, flag: &str, items: &Vec<String>)
    ensures
        final(s)@ == old(s)@ + flags(flag@, items.deep_view()),
{
    let ghost start = s@;
    let ghost all = items.deep_view();
    let mut i: usize = 0;
    while i < items.len()
        invariant
            i <= items.len(),
            all == items.deep_view(),
            s@ == start + flags(flag@, all.take(i as int)),
        decreases items.len() - i,
    {
        let ghost before = s@;
        s.append(flag);
        s.append(items[i].as_str());
        proof {
            assert(all.take(i + 1).drop_last() =~= all.take(i as int));
            assert(all.take(i + 1).last() == items[i as int]@);
            assert(s@ =~= start + flags(flag@, all.take(i + 1)));
        }
        i += 1;
    }
    assert(all.take(i as int) =~= all);
}

impl BuildOptions {
    /// The options hold a path or a pull reference.
    pub open spec fn has_source(&self) -> bool {
        self@.path is Some || self@.pull is Some
    }

    /// The command line that these options stand for.
    pub fn explain(&self) -> (line: String)
        requires
            self.has_source(),
        ensures
            line@ == build_line(self@),
    {
        let mut s = String::new();
        match &self.path {
            None => {
                s.append("docker pull ");
                match &self.pull {
                    Some(pull) => {
                        s.append(pull.as_str());
                    },
                    None => {},
                }
                assert(s@ =~= build_line(self@));
                s
            },
            Some(path) => {
                s.append("docker build ");
                let ghost start = s@;
                let ghost args = self.build_args.deep_view();
                let mut i: usize = 0;
                while i < self.build_args.len()
                    invariant
                        i <= self.build_args.len(),
                        args == self.build_args.deep_view(),
                        s@ == start + build_arg_flags(args.take(i as int)),
                    decreases self.build_args.len() - i,
                {
                    let arg = &self.build_args[i];
                    s.append("--build-arg ");
                    s.append(arg.0.as_str());
                    s.append("=");
                    s.append(arg.1.as_str());
                    s.append(" ");
                    proof {
                        assert(args.take(i + 1).drop_last() =~= args.take(i as int));
                        assert(args.take(i + 1).last() == (arg.0@, arg.1@));
                        assert(s@ =~= start + build_arg_flags(args.take(i + 1)));
                    }
                    i += 1;
                }
                assert(args.take(i as int) =~= args);
                s.append("--tag ");
                s.append(self.tag.as_str());
                s.append(" ");
                s.append(path.as_str());
                assert(s@ =~= build_line(self@));
                s
            },
        }
    }
}

impl RunOptions {
    /// The command line that these options stand for.
    pub fn explain(&self) -> (line: String)
        ensures
            line@ == run_line(self@),
    {
        let mut s = String::new();
        s.append("docker run");
        s.append(" --name ");
        s.append(self.container_name.as_str());
        push_flags(&mut s, " --env ", &self.env);
        push_flags(&mut s, " --publish ", &self.ports);
        s.append(" ");
        s.append(self.image_name.as_str());
        assert(s@ =~= run_line(self@));
        s
    }
}

/// The image has neither a path nor a pull reference.
pub open spec fn lacks_source(image: ImageModel) -> bool {
    image.pull is None && image.path is None
}

/// The build options of an image that has a path or a pull reference.
pub open spec fn build_options_model(image: ImageModel) -> BuildOptionsModel {
    BuildOptionsModel {
        path: image.path,
        pull: image.pull,
        build_args: merged(image.build_args),
        tag: image.name,
    }
}

/// The build or pull line of each image, in order.
pub open spec fn build_lines(images: Seq<ImageModel>) -> Seq<Seq<char>> {
    images.map_values(|image: ImageModel| build_line(build_options_model(image)))
}

/// The run line of each image with a service, in order.
pub open spec fn run_lines(images: Seq<ImageModel>) -> Seq<Seq<char>>
    decreases images.len(),
{
    if images.len() == 0 {
        Seq::empty()
    } else {
        let image = images.last();
        match image.service {
            Some(service) => run_lines(images.drop_last()).push(
                run_line(run_options_model(image.name, image_to_run(image), service)),
            ),
            None => run_lines(images.drop_last()),
        }
    }
}

/// What `explain` prints: the build or pull line of every image, then the
/// run line of every image with a service, both in the order of the
/// configuration. It fails where an image has neither a path nor a pull
/// reference.
pub fn explain_lines(config: &IkkiConfig) -> (r: Result<Vec<String>, DockerError>)
    ensures
        r is Err <==> exists|i: int|
            0 <= i < config@.images.len() && lacks_source(#[trigger] config@.images[i]),
        r matches Err(e) ==> e matches DockerError::Settings(text) && text@ == missing_source(),
        r matches Ok(lines) ==> lines.deep_view() == build_lines(config@.images) + run_lines(
            config@.images,
        ),
{
    let images = config.images();
    let ghost all = config@.images;
    let mut lines: Vec<String> = Vec::new();
    let mut i: usize = 0;
    while i < images.len()
        invariant
            i <= images.len(),
            all == images.deep_view(),
            all == config@.images,
            forall|j: int| 0 <= j < i ==> !lacks_source(#[trigger] all[j]),
            lines.deep_view() == build_lines(all.take(i as int)),
        decreases images.len() - i,
    {
        assert(all[i as int] == images[i as int]@);
        match build_options(&images[i]) {
            Ok(options) => {
                let ghost before = lines.deep_view();
                lines.push(options.explain());
                proof {
                    assert(options@ == build_options_model(all[i as int]));
                    assert(lines.deep_view() =~= before.push(build_line(options@)));
                    assert(lines.deep_view() =~= build_lines(all.take(i + 1)));
                }
            },
            Err(e) => {
                assert(lacks_source(all[i as int]));
                return Err(e);
            },
        }
        i += 1;
    }
    assert(all.take(i as int) =~= all);
    let ghost built = lines.deep_view();
    let mut k: usize = 0;
    while k < images.len()
        invariant
            k <= images.len(),
            all == images.deep_view(),
            built == build_lines(all),
            lines.deep_view() == built + run_lines(all.take(k as int)),
        decreases images.len() - k,
    {
        let image = &images[k];
        proof {
            assert(all[k as int] == image@);
            assert(all.take(k + 1).drop_last() =~= all.take(k as int));
            assert(all.take(k + 1).last() == image@);
        }
        if let Some(service) = &image.service {
            let image_name = match &image.pull {
                Some(pull) => pull.clone(),
                None => image.name.clone(),
            };
            let options = run_options_of(image.name.clone(), image_name, service);
            let ghost before = lines.deep_view();
            lines.push(options.explain());
            proof {
                assert(lines.deep_view() =~= before.push(run_line(options@)));
                assert(lines.deep_view() =~= built + run_lines(all.take(k + 1)));
            }
        }
        k += 1;
    }
    assert(all.take(k as int) =~= all);
    Ok(lines)
}

} // verus!
