//! The decisions of the builder actor: the schedule of a command, the
//! jobs of a layer, and the calls that stop the containers.

use crate::config::{
    find_model, image_to_run, BuildOrder, IkkiConfig, Image, ImageModel, Service, ServiceModel,
};
use crate::docker::{job_kind, job_of, DockerError, JobKind};
use crate::names::{copy_names, holds};
use crate::error::IkkiError;
use crate::precedence::{edge, has_cycle, is_path, is_schedule, scheduled, Name, Precedence};
use crate::schedule_laws::schedule_respects_edges;
use vstd::prelude::*;

verus! {

/// The ids of containers, in the order in which they were started.
pub type ContainerIds = Vec<String>;

/// The reply to a build command.
#[derive(Debug)]
pub enum BuildResult {
    Success,
    Error(IkkiError),
}

/// The reply to a run command: the ids of the containers it started.
#[derive(Debug)]
pub enum RunResult {
    Success(ContainerIds),
    Error(IkkiError),
}

/// The reply to a stop command.
#[derive(Debug)]
pub enum StopResult {
    Success,
    Error(IkkiError),
}

/// A command to the builder.
#[derive(Debug)]
pub enum Command {
    /// Build the image of this name and what depends on it.
    Build(String),
    /// Run the image of this name and what depends on it.
    Run(String),
    /// Build every image.
    BuildAll,
    /// Run every image that has a service.
    RunAll,
    /// Stop and remove the containers of these ids.
    StopAll(ContainerIds),
}

/// What a command asks the builder to do.
#[derive(Debug)]
pub enum Work {
    /// Build the images of these layers, layer after layer.
    Build(BuildOrder),
    /// Run the images of these layers, layer after layer.
    Run(BuildOrder),
    /// Stop and remove these containers, one after the other.
    Stop(ContainerIds),
}

/// The reply that reports the outcome of a build.
pub fn report_build_result(result: Result<(), IkkiError>) -> (reply: BuildResult)
    ensures
        result is Ok ==> reply is Success,
        result matches Err(e) ==> reply == BuildResult::Error(e),
{
    match result {
        Ok(()) => BuildResult::Success,
        Err(e) => BuildResult::Error(e),
    }
}

/// The reply that reports the outcome of a run.
pub fn report_run_result(result: Result<ContainerIds, IkkiError>) -> (reply: RunResult)
    ensures
        result matches Ok(ids) ==> reply == RunResult::Success(ids),
        result matches Err(e) ==> reply == RunResult::Error(e),
{
    match result {
        Ok(ids) => RunResult::Success(ids),
        Err(e) => RunResult::Error(e),
    }
}

/// The reply that reports the outcome of a stop.
pub fn report_stop_result(result: Result<(), IkkiError>) -> (reply: StopResult)
    ensures
        result is Ok ==> reply is Success,
        result matches Err(e) ==> reply == StopResult::Error(e),
{
    match result {
        Ok(()) => StopResult::Success,
        Err(e) => StopResult::Error(e),
    }
}

/// `k` is the first layer of `order` that holds `name`.
pub open spec fn is_first_layer_with(order: Seq<Seq<Seq<char>>>, name: Seq<char>, k: int) -> bool {
    0 <= k < order.len() && order[k].contains(name) && forall|j: int|
        0 <= j < k ==> !(#[trigger] order[j]).contains(name)
}

/// The schedule for a change of `name`, whose layer in `order` is `k`:
/// `name` alone, then the layers behind `k`.
pub open spec fn restricted(order: Seq<Seq<Seq<char>>>, name: Seq<char>, k: int) -> Seq<
    Seq<Seq<char>>,
> {
    seq![seq![name]] + order.skip(k + 1)
}

/// `to` can be reached from `from` along one edge or more.
pub open spec fn depends_on(g: Precedence, to: Name, from: Name) -> bool {
    exists|p: Seq<Name>| is_path(g, p) && p.len() >= 2 && p.first() == from && p.last() == to
}

proof fn lemma_path_goes_down(g: Precedence, s: Seq<Seq<Name>>, p: Seq<Name>, k: int, i: int)
    requires
        g.dom().finite(),
        !has_cycle(g),
        is_schedule(g, s),
        is_path(g, p),
        0 <= k < s.len(),
        s[k].contains(p[0]),
        1 <= i < p.len(),
    ensures
        exists|j: int| k < j < s.len() && (#[trigger] s[j]).contains(p[i]),
    decreases i,
{
    assert(edge(g, p[i - 1], p[i - 1 + 1]));
    schedule_respects_edges(g, s, p[i - 1], p[i]);
    let j = choose|j: int| 0 <= j < s.len() && (#[trigger] s[j]).contains(p[i]);
    if i == 1 {
        assert(k < j);
    } else {
        lemma_path_goes_down(g, s, p, k, i - 1);
        let before = choose|b: int| k < b < s.len() && (#[trigger] s[b]).contains(p[i - 1]);
        assert(before < j);
    }
}

/// The schedule for a change of an image holds every image that depends
/// on it, directly or through others.
pub proof fn restricted_holds_dependents(
    g: Precedence,
    s: Seq<Seq<Name>>,
    name: Name,
    k: int,
    dependent: Name,
)
    requires
        g.dom().finite(),
        !has_cycle(g),
        is_schedule(g, s),
        is_first_layer_with(s, name, k),
        depends_on(g, dependent, name),
    ensures
        scheduled(restricted(s, name, k), name),
        scheduled(restricted(s, name, k), dependent),
{
    let r = restricted(s, name, k);
    assert(r[0] == seq![name]);
    assert(r[0][0] == name);
    assert(r[0].contains(name));
    let p = choose|p: Seq<Name>|
        is_path(g, p) && p.len() >= 2 && p.first() == name && p.last() == dependent;
    lemma_path_goes_down(g, s, p, k, p.len() - 1);
    let j = choose|j: int| k < j < s.len() && (#[trigger] s[j]).contains(dependent);
    assert(r[j - k] == s[j]);
    assert(r[j - k].contains(dependent));
}

/// The job that builds or pulls one image.
#[derive(Debug)]
pub struct BuildJob<'a> {
    pub image: &'a Image,
    pub kind: JobKind,
}

/// Model of a [`RunJob`].
pub struct RunJobModel {
    pub container_name: Seq<char>,
    pub image_name: Seq<char>,
    pub service: ServiceModel,
}

/// The job that creates and starts the container of one image.
#[derive(Debug)]
pub struct RunJob<'a> {
    pub container_name: String,
    pub image_name: String,
    pub service: &'a Service,
}

impl<'a> View for RunJob<'a> {
    type V = RunJobModel;

    open spec fn view(&self) -> RunJobModel {
        RunJobModel {
            container_name: self.container_name@,
            image_name: self.image_name@,
            service: self.service@,
        }
    }
}

impl<'a> DeepView for RunJob<'a> {
    type V = RunJobModel;

    open spec fn deep_view(&self) -> RunJobModel {
        self@
    }
}

/// Every name of `layer` is the name of an image.
pub open spec fn all_known(images: Seq<ImageModel>, layer: Seq<Seq<char>>) -> bool {
    forall|i: int| 0 <= i < layer.len() ==> find_model(images, #[trigger] layer[i]) is Some
}

/// `i` is the first position in `layer` of a name that no image has.
pub open spec fn is_first_unknown(images: Seq<ImageModel>, layer: Seq<Seq<char>>, i: int) -> bool {
    0 <= i < layer.len() && find_model(images, layer[i]) is None && forall|j: int|
        0 <= j < i ==> find_model(images, #[trigger] layer[j]) is Some
}

/// The images that the names of `layer` stand for.
pub open spec fn images_of(images: Seq<ImageModel>, layer: Seq<Seq<char>>) -> Seq<ImageModel> {
    layer.map_values(|name: Seq<char>| find_model(images, name)->Some_0)
}

/// The run jobs of the images that have a service, in order: the
/// container is named after the image, and runs the pull reference where
/// the image has one, else the image built under its name.
pub open spec fn run_jobs_of(images: Seq<ImageModel>) -> Seq<RunJobModel>
    decreases images.len(),
{
    if images.len() == 0 {
        Seq::empty()
    } else {
        let image = images.last();
        match image.service {
            Some(service) => run_jobs_of(images.drop_last()).push(
                RunJobModel {
                    container_name: image.name,
                    image_name: image_to_run(image),
                    service,
                },
            ),
            None => run_jobs_of(images.drop_last()),
        }
    }
}

/// The builder's view of the configuration: what each command makes it
/// do.
#[derive(Debug)]
pub struct Builder {
    config: IkkiConfig,
}

impl Builder {
    /// A builder for `config`.
    pub fn new(config: IkkiConfig) -> (builder: Builder)
        ensures
            builder.config() == config,
    {
        Builder { config }
    }

    /// The configuration.
    pub closed spec fn config(&self) -> IkkiConfig {
        self.config
    }

    /// The configuration.
    pub fn configuration(&self) -> (config: &IkkiConfig)
        ensures
            *config == self.config(),
    {
        &self.config
    }

    /// The schedule for a change of the image `name`: `name` alone, then
    /// every layer behind the first layer that holds `name`. The other
    /// images of that layer do not depend on `name` and are left out. A
    /// name that no layer holds is refused.
    pub fn dependent_images_of(&self, name: &str) -> (r: Result<BuildOrder, IkkiError>)
        ensures
            r is Ok <==> exists|k: int|
                0 <= k < self.config()@.build_order.len() && (
                #[trigger] self.config()@.build_order[k]).contains(name@),
            r matches Ok(rest) ==> exists|k: int|
                is_first_layer_with(self.config()@.build_order, name@, k) && rest.deep_view()
                    == restricted(self.config()@.build_order, name@, k),
            r matches Err(e) ==> e matches IkkiError::NoSuchImage(unknown) && unknown@ == name@,
    {
        let order = self.config.build_order();
        let ghost layers = self.config()@.build_order;
        let wanted = name.to_owned();
        let mut k: usize = 0;
        while k < order.len()
            invariant
                k <= order.len(),
                wanted@ == name@,
                order.deep_view() == layers,
                layers == self.config()@.build_order,
                forall|j: int| 0 <= j < k ==> !(#[trigger] layers[j]).contains(name@),
            decreases order.len() - k,
        {
            assert(layers[k as int] == order[k as int].deep_view());
            if holds(&order[k], &wanted) {
                let mut dependent_images: Vec<Vec<String>> = Vec::new();
                let mut first: Vec<String> = Vec::new();
                first.push(wanted);
                assert(first.deep_view() =~= seq![name@]);
                dependent_images.push(first);
                assert(dependent_images.deep_view() =~= seq![seq![name@]]);
                assert(is_first_layer_with(layers, name@, k as int));
                let mut i: usize = k + 1;
                while i < order.len()
                    invariant
                        k < i <= order.len(),
                        order.deep_view() == layers,
                        layers == self.config()@.build_order,
                        is_first_layer_with(layers, name@, k as int),
                        dependent_images.deep_view() == seq![seq![name@]] + layers.subrange(
                            k + 1,
                            i as int,
                        ),
                    decreases order.len() - i,
                {
                    let ghost before = dependent_images.deep_view();
                    dependent_images.push(copy_names(&order[i]));
                    proof {
                        assert(layers[i as int] == order[i as int].deep_view());
                        assert(dependent_images.deep_view() =~= before.push(layers[i as int]));
                        assert(before.push(layers[i as int]) =~= seq![seq![name@]]
                            + layers.subrange(k + 1, i + 1));
                    }
                    i += 1;
                }
                proof {
                    assert(layers.subrange(k + 1, i as int) =~= layers.skip(k + 1));
                }
                return Ok(dependent_images);
            }
            k += 1;
        }
        Err(IkkiError::NoSuchImage(wanted))
    }

    /// What `command` makes the builder do: a full build or run goes
    /// through the whole build order, a build or run of one image through
    /// the schedule for a change of that image.
    pub fn plan(&self, command: Command) -> (r: Result<Work, IkkiError>)
        ensures
            command is BuildAll ==> (r matches Ok(Work::Build(order)) && order.deep_view()
                == self.config()@.build_order),
            command is RunAll ==> (r matches Ok(Work::Run(order)) && order.deep_view()
                == self.config()@.build_order),
            command matches Command::StopAll(ids) ==> r == Ok::<Work, IkkiError>(Work::Stop(ids)),
            command matches Command::Build(name) ==> {
                &&& r is Ok <==> exists|k: int|
                    0 <= k < self.config()@.build_order.len() && (
                    #[trigger] self.config()@.build_order[k]).contains(name@)
                &&& r matches Ok(work) ==> work matches Work::Build(order) && exists|k: int|
                    is_first_layer_with(self.config()@.build_order, name@, k) && order.deep_view()
                        == restricted(self.config()@.build_order, name@, k)
                &&& r matches Err(e) ==> e matches IkkiError::NoSuchImage(unknown) && unknown@
                    == name@
            },
            command matches Command::Run(name) ==> {
                &&& r is Ok <==> exists|k: int|
                    0 <= k < self.config()@.build_order.len() && (
                    #[trigger] self.config()@.build_order[k]).contains(name@)
                &&& r matches Ok(work) ==> work matches Work::Run(order) && exists|k: int|
                    is_first_layer_with(self.config()@.build_order, name@, k) && order.deep_view()
                        == restricted(self.config()@.build_order, name@, k)
                &&& r matches Err(e) ==> e matches IkkiError::NoSuchImage(unknown) && unknown@
                    == name@
            },
    {
        match command {
            Command::BuildAll => Ok(Work::Build(self.config.build_order())),
            Command::RunAll => Ok(Work::Run(self.config.build_order())),
            Command::Build(image_name) => match self.dependent_images_of(image_name.as_str()) {
                Ok(order) => Ok(Work::Build(order)),
                Err(e) => Err(e),
            },
            Command::Run(image_name) => match self.dependent_images_of(image_name.as_str()) {
                Ok(order) => Ok(Work::Run(order)),
                Err(e) => Err(e),
            },
            Command::StopAll(ids) => Ok(Work::Stop(ids)),
        }
    }

    /// The jobs that build one layer: for each name, in order, the image
    /// of that name with the job it needs. A name that no image has is
    /// refused before any job of the layer is made.
    pub fn build_jobs<'a>(&'a self, layer: &Vec<String>) -> (r: Result<
        Vec<BuildJob<'a>>,
        IkkiError,
    >)
        ensures
            r is Ok <==> all_known(self.config()@.images, layer.deep_view()),
            r matches Ok(jobs) ==> jobs.len() == layer.len() && forall|i: int|
                0 <= i < jobs.len() ==> Some((#[trigger] jobs[i]).image@) == find_model(
                    self.config()@.images,
                    layer.deep_view()[i],
                ) && jobs[i].kind == job_of(jobs[i].image@),
            r matches Err(e) ==> e matches IkkiError::NoSuchImage(unknown) && exists|i: int|
                is_first_unknown(self.config()@.images, layer.deep_view(), i) && unknown@
                    == layer.deep_view()[i],
    {
        let ghost images = self.config()@.images;
        let ghost names = layer.deep_view();
        let mut jobs: Vec<BuildJob<'a>> = Vec::new();
        let mut i: usize = 0;
        while i < layer.len()
            invariant
                i <= layer.len(),
                images == self.config()@.images,
                names == layer.deep_view(),
                jobs.len() == i,
                forall|j: int|
                    0 <= j < i ==> Some((#[trigger] jobs[j]).image@) == find_model(images, names[j])
                        && jobs[j].kind == job_of(jobs[j].image@),
                forall|j: int| 0 <= j < i ==> find_model(images, #[trigger] names[j]) is Some,
            decreases layer.len() - i,
        {
            assert(names[i as int] == layer[i as int]@);
            match self.config.find_image(layer[i].as_str()) {
                Some(image) => {
                    jobs.push(BuildJob { image, kind: job_kind(image) });
                },
                None => {
                    assert(is_first_unknown(images, names, i as int));
                    return Err(IkkiError::NoSuchImage(layer[i].clone()));
                },
            }
            i += 1;
        }
        Ok(jobs)
    }

    /// The jobs that run one layer: for each name, in order, that stands
    /// for an image with a service, the job that starts its container. A
    /// name that no image has is refused before any job of the layer is
    /// made.
    pub fn run_jobs<'a>(&'a self, layer: &Vec<String>) -> (r: Result<Vec<RunJob<'a>>, IkkiError>)
        ensures
            r is Ok <==> all_known(self.config()@.images, layer.deep_view()),
            r matches Ok(jobs) ==> jobs.deep_view() == run_jobs_of(
                images_of(self.config()@.images, layer.deep_view()),
            ),
            r matches Err(e) ==> e matches IkkiError::NoSuchImage(unknown) && exists|i: int|
                is_first_unknown(self.config()@.images, layer.deep_view(), i) && unknown@
                    == layer.deep_view()[i],
    {
        let ghost images = self.config()@.images;
        let ghost names = layer.deep_view();
        let ghost found = images_of(images, names);
        let mut jobs: Vec<RunJob<'a>> = Vec::new();
        let mut i: usize = 0;
        while i < layer.len()
            invariant
                i <= layer.len(),
                images == self.config()@.images,
                names == layer.deep_view(),
                found == images_of(images, names),
                jobs.deep_view() == run_jobs_of(found.take(i as int)),
                forall|j: int| 0 <= j < i ==> find_model(images, #[trigger] names[j]) is Some,
            decreases layer.len() - i,
        {
            assert(names[i as int] == layer[i as int]@);
            match self.config.find_image(layer[i].as_str()) {
                Some(image) => {
                    proof {
                        assert(found.take(i + 1).drop_last() =~= found.take(i as int));
                        assert(found.take(i + 1).last() == image@);
                    }
                    if let Some(service) = &image.service {
                        let image_name = match &image.pull {
                            Some(name) => name.clone(),
                            None => image.name.clone(),
                        };
                        let container_name = image.name.clone();
                        let ghost before = jobs.deep_view();
                        let job = RunJob { container_name, image_name, service };
                        jobs.push(job);
                        assert(jobs.deep_view() =~= before.push(job@));
                    }
                },
                None => {
                    assert(is_first_unknown(images, names, i as int));
                    return Err(IkkiError::NoSuchImage(layer[i].clone()));
                },
            }
            i += 1;
        }
        assert(found.take(i as int) =~= found);
        Ok(jobs)
    }
}

/// Model of a [`LayeredWork`]: the layers, how many of them are done, the
/// containers that they have started, and the failure that ended the
/// work.
pub struct LayeredWorkModel {
    pub order: Seq<Seq<Seq<char>>>,
    pub done: nat,
    pub ids: Seq<Seq<char>>,
    pub failure: Option<IkkiError>,
}

/// The layer that a state asks to run: the first one that is not done,
/// and none once a layer has failed or all are done.
pub open spec fn layer_at_hand(state: LayeredWorkModel) -> Option<Seq<Seq<char>>> {
    if state.failure is None && state.done < state.order.len() {
        Some(state.order[state.done as int])
    } else {
        None
    }
}

/// The state after the layer at hand has ended with `outcome`: a failure
/// ends the work; else the containers that the layer started are added
/// behind those of the layers before, and the next layer is at hand.
pub open spec fn after_layer(
    state: LayeredWorkModel,
    outcome: Result<Seq<Seq<char>>, IkkiError>,
) -> LayeredWorkModel {
    if layer_at_hand(state) is None {
        state
    } else {
        match outcome {
            Ok(ids) => LayeredWorkModel { done: state.done + 1, ids: state.ids + ids, ..state },
            Err(e) => LayeredWorkModel { failure: Some(e), ..state },
        }
    }
}

/// The outcome of the work as far as it has come: the failure of the
/// layer that failed, else the containers started.
pub open spec fn outcome_of(state: LayeredWorkModel) -> Result<Seq<Seq<char>>, IkkiError> {
    match state.failure {
        Some(e) => Err(e),
        None => Ok(state.ids),
    }
}

/// The work of going through the layers of a schedule: a layer is begun
/// only when the layer before it has ended without a failure.
#[derive(Debug)]
pub struct LayeredWork {
    order: BuildOrder,
    done: usize,
    ids: ContainerIds,
    failure: Option<IkkiError>,
}

impl View for LayeredWork {
    type V = LayeredWorkModel;

    closed spec fn view(&self) -> LayeredWorkModel {
        LayeredWorkModel {
            order: self.order.deep_view(),
            done: self.done as nat,
            ids: self.ids.deep_view(),
            failure: self.failure,
        }
    }
}

impl LayeredWork {
    /// The work of going through `order`, with nothing done yet.
    pub fn new(order: BuildOrder) -> (work: LayeredWork)
        ensures
            work@ == (LayeredWorkModel {
                order: order.deep_view(),
                done: 0,
                ids: Seq::empty(),
                failure: None,
            }),
    {
        let work = LayeredWork { order, done: 0, ids: Vec::new(), failure: None };
        assert(work.ids.deep_view() =~= Seq::empty());
        work
    }

    /// The layer to run now, if the work goes on.
    pub fn layer(&self) -> (layer: Option<&Vec<String>>)
        ensures
            layer.deep_view() == layer_at_hand(self@),
    {
        if self.failure.is_none() && self.done < self.order.len() {
            assert(self.order.deep_view()[self.done as int] == self.order[self.done as int].deep_view());
            Some(&self.order[self.done])
        } else {
            None
        }
    }

    /// Takes the outcome of the layer at hand into account: the
    /// containers that it has started, or its failure. Once the work has
    /// ended an outcome changes nothing.
    pub fn advance(&mut self, outcome: Result<ContainerIds, IkkiError>)
        ensures
            final(self)@ == after_layer(
                old(self)@,
                match outcome {
                    Ok(ids) => Ok(ids.deep_view()),
                    Err(e) => Err(e),
                },
            ),
    {
        if self.failure.is_some() || self.done >= self.order.len() {
            return ;
        }
        match outcome {
            Ok(ids) => {
                let ghost before = self.ids.deep_view();
                let mut i: usize = 0;
                while i < ids.len()
                    invariant
                        i <= ids.len(),
                        self.ids.deep_view() == before + ids.deep_view().take(i as int),
                        self.order == old(self).order,
                        self.done == old(self).done,
                        self.failure == old(self).failure,
                    decreases ids.len() - i,
                {
                    let ghost so_far = self.ids.deep_view();
                    self.ids.push(ids[i].clone());
                    assert(self.ids.deep_view() =~= so_far.push(ids[i as int]@));
                    assert(so_far.push(ids[i as int]@) =~= before + ids.deep_view().take(i + 1));
                    i += 1;
                }
                assert(ids.deep_view().take(i as int) =~= ids.deep_view());
                self.done = self.done + 1;
            },
            Err(e) => {
                self.failure = Some(e);
            },
        }
    }

    /// The outcome of the work as far as it has come.
    pub fn finish(self) -> (outcome: Result<ContainerIds, IkkiError>)
        ensures
            outcome is Ok <==> self@.failure is None,
            outcome matches Ok(ids) ==> ids.deep_view() == self@.ids,
            outcome matches Err(e) ==> Some(e) == self@.failure,
    {
        match self.failure {
            Some(e) => Err(e),
            None => Ok(self.ids),
        }
    }
}

/// How the engine answered one call.
#[derive(Debug)]
pub enum EngineReply {
    /// The call succeeded.
    Done,
    /// The engine does not know the container.
    NotFound,
    /// The call failed for another reason.
    Failed(String),
}

impl EngineReply {
    /// The reply that a failed call stands for: "not found" where the
    /// engine answered with status 404, a failure with the text of the
    /// error else.
    pub fn of_failure(status_code: Option<u16>, text: String) -> (reply: EngineReply)
        ensures
            status_code == Some(404u16) ==> reply is NotFound,
            status_code != Some(404u16) ==> reply == EngineReply::Failed(text),
    {
        match status_code {
            Some(code) => {
                if code == 404 {
                    EngineReply::NotFound
                } else {
                    EngineReply::Failed(text)
                }
            },
            None => EngineReply::Failed(text),
        }
    }
}

/// The next thing to do while containers are stopped.
#[derive(Debug)]
pub enum StopStep {
    /// Ask the engine to stop this container.
    Stop(String),
    /// Ask the engine to remove this container.
    Remove(String),
    /// Nothing is left to do; this is the outcome.
    Finished(Result<(), IkkiError>),
}

/// Model of a [`StopStep`].
pub enum StopStepModel {
    Stop(Seq<char>),
    Remove(Seq<char>),
    Succeeded,
    /// Finished with the failure that the engine reported.
    Failed(Seq<char>),
    /// Finished with any other error.
    Unexpected,
}

impl View for StopStep {
    type V = StopStepModel;

    open spec fn view(&self) -> StopStepModel {
        match *self {
            StopStep::Stop(id) => StopStepModel::Stop(id@),
            StopStep::Remove(id) => StopStepModel::Remove(id@),
            StopStep::Finished(Ok(_)) => StopStepModel::Succeeded,
            StopStep::Finished(Err(IkkiError::Build(DockerError::DockerDaemonError(text)))) =>
            StopStepModel::Failed(text@),
            StopStep::Finished(Err(_)) => StopStepModel::Unexpected,
        }
    }
}

/// Model of a [`StopAll`]: the containers, how many of them are done with,
/// whether the one at hand has been stopped and awaits removal, and the
/// failure that ended the work.
pub struct StopAllModel {
    pub ids: Seq<Seq<char>>,
    pub done: nat,
    pub stopped: bool,
    pub failure: Option<Seq<char>>,
}

/// The step that a state asks for: the failure where there is one; else
/// for the container at hand first its stop, then its removal; success
/// once every container is done with.
pub open spec fn step_of(state: StopAllModel) -> StopStepModel {
    match state.failure {
        Some(text) => StopStepModel::Failed(text),
        None => if state.done >= state.ids.len() {
            StopStepModel::Succeeded
        } else if state.stopped {
            StopStepModel::Remove(state.ids[state.done as int])
        } else {
            StopStepModel::Stop(state.ids[state.done as int])
        },
    }
}

/// The state after the engine has answered the step of `state`: a
/// failure other than "not found" ends the work; after any other answer
/// to a stop the removal follows, and after any other answer to a removal
/// the next container.
pub open spec fn after_reply(state: StopAllModel, failure: Option<Seq<char>>) -> StopAllModel {
    if state.failure is Some || state.done >= state.ids.len() {
        state
    } else if failure is Some {
        StopAllModel { failure, ..state }
    } else if state.stopped {
        StopAllModel { done: state.done + 1, stopped: false, ..state }
    } else {
        StopAllModel { stopped: true, ..state }
    }
}

/// The state in which the first `calls` calls for `ids` have been
/// answered without a failure.
pub open spec fn state_after(ids: Seq<Seq<char>>, calls: nat) -> StopAllModel {
    StopAllModel { ids, done: calls / 2, stopped: calls % 2 == 1, failure: None }
}

/// While no call fails, the containers are taken in their order, each
/// stopped and then removed, and the work succeeds after the last
/// removal.
pub proof fn lemma_stop_all_order(ids: Seq<Seq<char>>, calls: nat)
    ensures
        calls < 2 * ids.len() ==> after_reply(state_after(ids, calls), None) == state_after(
            ids,
            calls + 1,
        ),
        step_of(state_after(ids, calls)) == (if calls >= 2 * ids.len() {
            StopStepModel::Succeeded
        } else if calls % 2 == 0 {
            StopStepModel::Stop(ids[calls as int / 2])
        } else {
            StopStepModel::Remove(ids[calls as int / 2])
        }),
{
}

/// The failure that a reply stands for: none for success and for "not
/// found".
pub open spec fn failure_of(reply: EngineReply) -> Option<Seq<char>> {
    match reply {
        EngineReply::Failed(text) => Some(text@),
        _ => None,
    }
}

/// The work of stopping and removing a list of containers, one call to
/// the engine at a time.
#[derive(Debug)]
pub struct StopAll {
    ids: ContainerIds,
    done: usize,
    stopped: bool,
    failure: Option<String>,
}

impl View for StopAll {
    type V = StopAllModel;

    closed spec fn view(&self) -> StopAllModel {
        StopAllModel {
            ids: self.ids.deep_view(),
            done: self.done as nat,
            stopped: self.stopped,
            failure: self.failure.deep_view(),
        }
    }
}

impl StopAll {
    /// The work of stopping `ids`, in their order, with nothing done yet.
    pub fn new(ids: ContainerIds) -> (work: StopAll)
        ensures
            work@ == (StopAllModel {
                ids: ids.deep_view(),
                done: 0,
                stopped: false,
                failure: None,
            }),
    {
        StopAll { ids, done: 0, stopped: false, failure: None }
    }

    /// What to do next.
    pub fn step(&self) -> (step: StopStep)
        ensures
            step@ == step_of(self@),
    {
        match &self.failure {
            Some(text) => StopStep::Finished(
                Err(IkkiError::Build(DockerError::DockerDaemonError(text.clone()))),
            ),
            None => {
                if self.done >= self.ids.len() {
                    StopStep::Finished(Ok(()))
                } else {
                    assert(self.ids.deep_view()[self.done as int] == self.ids[self.done as int]@);
                    if self.stopped {
                        StopStep::Remove(self.ids[self.done].clone())
                    } else {
                        StopStep::Stop(self.ids[self.done].clone())
                    }
                }
            },
        }
    }

    /// Takes the engine's answer to the step at hand into account. Once
    /// the work is finished an answer changes nothing.
    pub fn advance(&mut self, reply: EngineReply)
        ensures
            final(self)@ == after_reply(old(self)@, failure_of(reply)),
    {
        if self.failure.is_some() || self.done >= self.ids.len() {
            return ;
        }
        match reply {
            EngineReply::Failed(text) => {
                self.failure = Some(text);
            },
            _ => {
                if self.stopped {
                    self.done = self.done + 1;
                    self.stopped = false;
                } else {
                    self.stopped = true;
                }
            },
        }
    }
}

/// The containers of the most recent full run, kept until shutdown.
#[derive(Debug)]
pub struct ContainerRegistry {
    ids: ContainerIds,
}

impl View for ContainerRegistry {
    type V = Seq<Seq<char>>;

    closed spec fn view(&self) -> Seq<Seq<char>> {
        self.ids.deep_view()
    }
}

impl ContainerRegistry {
    /// A registry without containers.
    pub fn new() -> (registry: ContainerRegistry)
        ensures
            registry@ == Seq::<Seq<char>>::empty(),
    {
        ContainerRegistry { ids: Vec::new() }
    }

    /// Keeps the containers of a full run in place of those of the run
    /// before.
    pub fn record(&mut self, ids: ContainerIds)
        ensures
            final(self)@ == ids.deep_view(),
    {
        self.ids = ids;
    }

    /// Hands out the containers to stop and leaves the registry empty.
    pub fn drain(&mut self) -> (ids: ContainerIds)
        ensures
            ids.deep_view() == old(self)@,
            final(self)@ == Seq::<Seq<char>>::empty(),
    {
        let mut ids: Vec<String> = Vec::new();
        core::mem::swap(&mut self.ids, &mut ids);
        ids
    }
}

} // verus!
