//! The deployment pipeline: render every enabled application, stage the
//! texts in temporary files, commit them by renaming, and ask each running
//! program once to reload.
//!
//! The pipeline decides; whoever drives it acts. `next_action` says what to
//! do next, `record` takes what came of it.

use vstd::prelude::*;
use crate::config::{App, AppView, ReloadSignal, SignalKey, SlateConfig, app_views};
use crate::path::{join_path, joined, temp_path, temp_sibling};
use crate::template::RenderError;
use crate::text::{same_text, texts};

verus! {

/// Where a deployment stands.
#[derive(Clone, Copy, Debug, PartialEq, Eq, Structural)]
pub enum Stage {
    Idle,
    Rendering,
    Aborted,
    Rendered,
    DryRunDone,
    Staging,
    Staged,
    Committing,
    Committed,
    SignalDispatch,
    Done,
}

/// The temporary file of one application and the destination it is renamed
/// to.
#[derive(Debug)]
pub struct StagedWrite {
    pub temp_path: String,
    pub final_path: String,
}

/// An application with the text rendered for it.
#[derive(Debug)]
pub struct RenderedOutput {
    pub app: App,
    pub content: String,
}

/// Why files could not be deployed.
#[derive(Debug)]
pub enum DeploymentError {
    /// The temporary file of this destination could not be written, or it
    /// would have been a destination or the temporary file of another
    /// application, so that nothing was written at all. No destination was
    /// touched.
    StageWriteFailed { destination: String, reason: String },
    /// A temporary file could not be renamed onto its destination. The
    /// destinations in `committed` hold the new text; `failed` and those in
    /// `pending` hold what they held before.
    CommitRenameFailed {
        committed: Vec<String>,
        failed: String,
        pending: Vec<String>,
        reason: String,
    },
}

/// Why a deployment was aborted.
#[derive(Debug)]
pub enum PipelineError {
    Render(RenderError),
    Deployment(DeploymentError),
}

/// What the driver of a pipeline has to do next.
#[derive(Debug)]
pub enum Action {
    /// Render the template and record the text.
    Render { template_path: String },
    /// Show the text that would be written for a destination.
    Print { config_path: String, content: String },
    /// Write the text to the temporary file, making its directory first.
    WriteTemp { temp_path: String, content: String },
    /// Rename the temporary file onto the destination.
    Rename { temp_path: String, final_path: String },
    /// Ask the program to reload.
    Notify { signal: ReloadSignal },
    /// Nothing: the deployment has ended.
    Finish,
}

/// What came of an action.
#[derive(Debug)]
pub enum Outcome {
    /// The template gave this text.
    Rendered(String),
    /// The template could not be rendered.
    RenderFailed(RenderError),
    /// The action was done.
    Succeeded,
    /// The action failed, for this reason.
    Failed(String),
}

pub struct StagedView {
    pub temp_path: Seq<char>,
    pub final_path: Seq<char>,
}

pub enum FailureView {
    Render { missing: bool, template: Seq<char>, detail: Seq<char> },
    StageWrite { destination: Seq<char>, reason: Seq<char> },
    CommitRename {
        committed: Seq<Seq<char>>,
        failed: Seq<char>,
        pending: Seq<Seq<char>>,
        reason: Seq<char>,
    },
}

pub enum ActionView {
    Render { template_path: Seq<char> },
    Print { config_path: Seq<char>, content: Seq<char> },
    WriteTemp { temp_path: Seq<char>, content: Seq<char> },
    Rename { temp_path: Seq<char>, final_path: Seq<char> },
    Notify { signal: SignalKey },
    Finish,
}

pub enum OutcomeView {
    Rendered(Seq<char>),
    RenderFailed { missing: bool, template: Seq<char>, detail: Seq<char> },
    Succeeded,
    Failed(Seq<char>),
}

/// A deployment as plain values.
pub struct PipelineView {
    pub stage: Stage,
    pub dry_run: bool,
    /// The enabled applications, in the order of the configuration.
    pub apps: Seq<AppView>,
    /// For each application its temporary file and its destination.
    pub paths: Seq<StagedView>,
    /// The destination of every application of the configuration, enabled
    /// or not: the files that no temporary file may be.
    pub reserved: Seq<Seq<char>>,
    /// The reload actions to dispatch, each once, in the order in which the
    /// applications first ask for them.
    pub signals: Seq<SignalKey>,
    /// The texts rendered so far, for the first applications.
    pub renders: Seq<Seq<char>>,
    /// How much of the current stage is done.
    pub cursor: nat,
    pub failure: Option<FailureView>,
    /// The reload actions that could not be delivered.
    pub unnotified: Seq<SignalKey>,
}

impl View for StagedWrite {
    type V = StagedView;

    open spec fn view(&self) -> StagedView {
        StagedView { temp_path: self.temp_path@, final_path: self.final_path@ }
    }
}

impl View for RenderError {
    type V = FailureView;

    open spec fn view(&self) -> FailureView {
        match *self {
            RenderError::TemplateMissing { template, detail } => FailureView::Render {
                missing: true,
                template: template@,
                detail: detail@,
            },
            RenderError::FilterInputInvalid { template, detail } => FailureView::Render {
                missing: false,
                template: template@,
                detail: detail@,
            },
        }
    }
}

impl View for DeploymentError {
    type V = FailureView;

    open spec fn view(&self) -> FailureView {
        match *self {
            DeploymentError::StageWriteFailed { destination, reason } => FailureView::StageWrite {
                destination: destination@,
                reason: reason@,
            },
            DeploymentError::CommitRenameFailed {
                committed,
                failed,
                pending,
                reason,
            } => FailureView::CommitRename {
                committed: texts(committed@),
                failed: failed@,
                pending: texts(pending@),
                reason: reason@,
            },
        }
    }
}

impl View for PipelineError {
    type V = FailureView;

    open spec fn view(&self) -> FailureView {
        match *self {
            PipelineError::Render(e) => e@,
            PipelineError::Deployment(e) => e@,
        }
    }
}

impl View for Action {
    type V = ActionView;

    open spec fn view(&self) -> ActionView {
        match *self {
            Action::Render { template_path } => ActionView::Render { template_path: template_path@ },
            Action::Print { config_path, content } => ActionView::Print {
                config_path: config_path@,
                content: content@,
            },
            Action::WriteTemp { temp_path, content } => ActionView::WriteTemp {
                temp_path: temp_path@,
                content: content@,
            },
            Action::Rename { temp_path, final_path } => ActionView::Rename {
                temp_path: temp_path@,
                final_path: final_path@,
            },
            Action::Notify { signal } => ActionView::Notify { signal: signal@ },
            Action::Finish => ActionView::Finish,
        }
    }
}

impl View for Outcome {
    type V = OutcomeView;

    open spec fn view(&self) -> OutcomeView {
        match *self {
            Outcome::Rendered(text) => OutcomeView::Rendered(text@),
            Outcome::RenderFailed(e) => match e {
                RenderError::TemplateMissing { template, detail } => OutcomeView::RenderFailed {
                    missing: true,
                    template: template@,
                    detail: detail@,
                },
                RenderError::FilterInputInvalid { template, detail } => OutcomeView::RenderFailed {
                    missing: false,
                    template: template@,
                    detail: detail@,
                },
            },
            Outcome::Succeeded => OutcomeView::Succeeded,
            Outcome::Failed(reason) => OutcomeView::Failed(reason@),
        }
    }
}

/// The applications that are enabled, in their order.
pub open spec fn enabled_apps(apps: Seq<AppView>) -> Seq<AppView>
    decreases apps.len(),
{
    if apps.len() == 0 {
        Seq::empty()
    } else if apps.last().enabled {
        enabled_apps(apps.drop_last()).push(apps.last())
    } else {
        enabled_apps(apps.drop_last())
    }
}

/// The reload signal of each application.
pub open spec fn signal_keys(apps: Seq<AppView>) -> Seq<SignalKey> {
    Seq::new(apps.len(), |i: int| apps[i].reload_signal)
}

/// The keys of a list without `Nothing` and without repetition: each key
/// stands where it first occurs.
pub open spec fn unique_keys(keys: Seq<SignalKey>) -> Seq<SignalKey>
    decreases keys.len(),
{
    if keys.len() == 0 {
        Seq::empty()
    } else if keys.last() is Nothing || unique_keys(keys.drop_last()).contains(keys.last()) {
        unique_keys(keys.drop_last())
    } else {
        unique_keys(keys.drop_last()).push(keys.last())
    }
}

/// The destination of an application below the configuration root, and the
/// temporary file beside it.
pub open spec fn staged_for(root: Seq<char>, app: AppView) -> StagedView {
    StagedView {
        temp_path: temp_sibling(joined(root, app.config_path)),
        final_path: joined(root, app.config_path),
    }
}

/// The destinations of a list of staged writes.
pub open spec fn destinations(paths: Seq<StagedView>) -> Seq<Seq<char>> {
    Seq::new(paths.len(), |i: int| paths[i].final_path)
}

/// The destination of every application, enabled or not.
pub open spec fn all_destinations(root: Seq<char>, apps: Seq<AppView>) -> Seq<Seq<char>> {
    Seq::new(apps.len(), |i: int| joined(root, apps[i].config_path))
}

/// The temporary files are kept apart: no two applications share one, and
/// none is a destination.
pub open spec fn paths_apart(paths: Seq<StagedView>, destinations: Seq<Seq<char>>) -> bool {
    &&& forall|i: int, j: int|
        0 <= i < j < paths.len() ==> paths[i].temp_path != paths[j].temp_path
    &&& forall|i: int, j: int|
        0 <= i < paths.len() && 0 <= j < destinations.len() ==> paths[i].temp_path
            != destinations[j]
}

/// The temporary file of the `i`-th application is that of an earlier one,
/// or a destination.
pub open spec fn clashes(paths: Seq<StagedView>, destinations: Seq<Seq<char>>, i: int) -> bool {
    (exists|j: int| 0 <= j < i && paths[j].temp_path == paths[i].temp_path) || (exists|j: int|
        0 <= j < destinations.len() && paths[i].temp_path == destinations[j])
}

/// The first application at or behind `from` whose temporary file clashes.
pub open spec fn first_clash(paths: Seq<StagedView>, destinations: Seq<Seq<char>>, from: int) -> Option<
    int,
>
    decreases paths.len() - from,
{
    if 0 <= from < paths.len() {
        if clashes(paths, destinations, from) {
            Some(from)
        } else {
            first_clash(paths, destinations, from + 1)
        }
    } else {
        None
    }
}

/// Why a deployment whose temporary files clash writes nothing.
pub open spec fn clash_reason() -> Seq<char> {
    "its temporary file is a destination or the temporary file of another application"@
}

/// A deployment of the enabled applications of a configuration, before its
/// first step.
pub open spec fn initial(apps: Seq<AppView>, root: Seq<char>, dry_run: bool) -> PipelineView {
    PipelineView {
        stage: Stage::Idle,
        dry_run,
        apps: enabled_apps(apps),
        paths: Seq::new(
            enabled_apps(apps).len(),
            |i: int| staged_for(root, enabled_apps(apps)[i]),
        ),
        reserved: all_destinations(root, apps),
        signals: unique_keys(signal_keys(enabled_apps(apps))),
        renders: Seq::empty(),
        cursor: 0,
        failure: None,
        unnotified: Seq::empty(),
    }
}

/// No temporary file clashes exactly if the temporary files are kept apart;
/// and the first clash is a clash before which there is none.
pub proof fn lemma_first_clash(paths: Seq<StagedView>, destinations: Seq<Seq<char>>, from: int)
    requires
        0 <= from <= paths.len(),
        forall|i: int| 0 <= i < from ==> !clashes(paths, destinations, i),
    ensures
        first_clash(paths, destinations, from) is None <==> paths_apart(paths, destinations),
        first_clash(paths, destinations, from) matches Some(at) ==> from <= at < paths.len()
            && clashes(paths, destinations, at) && forall|i: int|
            0 <= i < at ==> !clashes(paths, destinations, i),
    decreases paths.len() - from,
{
    if from < paths.len() {
        if clashes(paths, destinations, from) {
            assert(!paths_apart(paths, destinations));
        } else {
            lemma_first_clash(paths, destinations, from + 1);
        }
    } else {
        assert forall|i: int, j: int| 0 <= i < j < paths.len() implies paths[i].temp_path
            != paths[j].temp_path by {
            assert(!clashes(paths, destinations, j));
        }
        assert forall|i: int, j: int|
            0 <= i < paths.len() && 0 <= j < destinations.len() implies paths[i].temp_path
            != destinations[j] by {
            assert(!clashes(paths, destinations, i));
        }
    }
}

impl ActionView {
    /// The action changes something outside the pipeline: a file, or a
    /// running program.
    pub open spec fn acts_outside(self) -> bool {
        self is WriteTemp || self is Rename || self is Notify
    }
}

impl PipelineView {
    /// The deployment is at staging or past it.
    pub open spec fn writes(self) -> bool {
        self.stage is Staging || self.stage is Staged || self.stage is Committing
            || self.stage is Committed || self.stage is SignalDispatch || self.stage is Done
    }

    /// The parts of a deployment fit each other and its stage. A deployment
    /// that has come to staging is no dry run, and its temporary files are
    /// kept apart.
    pub open spec fn wf(self) -> bool {
        &&& self.paths.len() == self.apps.len()
        &&& self.renders.len() <= self.apps.len()
        &&& (self.apps.len() == 0 ==> self.signals.len() == 0)
        &&& (self.writes() ==> !self.dry_run && paths_apart(self.paths, self.reserved))
        &&& (self.stage is DryRunDone ==> self.dry_run)
        &&& match self.stage {
            Stage::Idle => self.renders.len() == 0,
            Stage::Rendering => self.renders.len() < self.apps.len(),
            Stage::Aborted => self.failure is Some,
            Stage::Rendered => self.renders.len() == self.apps.len() && self.apps.len() > 0 && (
            self.dry_run ==> self.cursor < self.apps.len()),
            Stage::Staging | Stage::Committing => self.renders.len() == self.apps.len()
                && self.cursor < self.apps.len(),
            Stage::Staged => self.renders.len() == self.apps.len() && self.apps.len() > 0,
            Stage::SignalDispatch => self.cursor < self.signals.len(),
            _ => true,
        }
    }

    /// The deployment once the steps are taken that need no action: out of
    /// `Idle` into rendering, out of `Rendered` into staging unless this is
    /// a dry run, out of `Staged` into committing, out of `Committed` into
    /// the dispatch of signals. Where a stage has nothing to do, the
    /// deployment goes on to its end. Staging does not begin where the
    /// temporary file of an application is that of another or is a
    /// destination of the configuration: the deployment is then aborted
    /// with `StageWrite` for the first such application, and nothing is
    /// written.
    pub open spec fn settle(self) -> PipelineView {
        match self.stage {
            Stage::Idle => if self.apps.len() > 0 {
                PipelineView { stage: Stage::Rendering, ..self }
            } else if self.dry_run {
                PipelineView { stage: Stage::DryRunDone, ..self }
            } else {
                PipelineView { stage: Stage::Done, ..self }
            },
            Stage::Rendered => if self.dry_run {
                self
            } else {
                match first_clash(self.paths, self.reserved, 0) {
                    None => PipelineView { stage: Stage::Staging, cursor: 0, ..self },
                    Some(at) => PipelineView {
                        stage: Stage::Aborted,
                        failure: Some(
                            FailureView::StageWrite {
                                destination: self.paths[at].final_path,
                                reason: clash_reason(),
                            },
                        ),
                        ..self
                    },
                }
            },
            Stage::Staged => PipelineView { stage: Stage::Committing, cursor: 0, ..self },
            Stage::Committed => if self.signals.len() > 0 {
                PipelineView { stage: Stage::SignalDispatch, cursor: 0, ..self }
            } else {
                PipelineView { stage: Stage::Done, ..self }
            },
            _ => self,
        }
    }

    /// The action that a settled deployment is waiting for.
    pub open spec fn pending(self) -> ActionView {
        match self.stage {
            Stage::Rendering => ActionView::Render {
                template_path: self.apps[self.renders.len() as int].template_path,
            },
            Stage::Rendered => if self.dry_run {
                ActionView::Print {
                    config_path: self.apps[self.cursor as int].config_path,
                    content: self.renders[self.cursor as int],
                }
            } else {
                ActionView::Finish
            },
            Stage::Staging => ActionView::WriteTemp {
                temp_path: self.paths[self.cursor as int].temp_path,
                content: self.renders[self.cursor as int],
            },
            Stage::Committing => ActionView::Rename {
                temp_path: self.paths[self.cursor as int].temp_path,
                final_path: self.paths[self.cursor as int].final_path,
            },
            Stage::SignalDispatch => ActionView::Notify { signal: self.signals[self.cursor as int] },
            _ => ActionView::Finish,
        }
    }

    /// The deployment with one more item of the current stage done: at the
    /// last item the stage becomes `then`.
    pub open spec fn step(self, items: nat, then: Stage) -> PipelineView {
        if self.cursor + 1 >= items {
            PipelineView { stage: then, cursor: 0, ..self }
        } else {
            PipelineView { cursor: self.cursor + 1, ..self }
        }
    }

    /// The deployment after the outcome of its pending action. An outcome
    /// that answers no pending action changes nothing.
    pub open spec fn recorded(self, outcome: OutcomeView) -> PipelineView {
        match self.stage {
            Stage::Rendering => match outcome {
                OutcomeView::Rendered(text) => if self.renders.len() + 1 >= self.apps.len() {
                    PipelineView {
                        stage: Stage::Rendered,
                        renders: self.renders.push(text),
                        cursor: 0,
                        ..self
                    }
                } else {
                    PipelineView { renders: self.renders.push(text), ..self }
                },
                OutcomeView::RenderFailed { missing, template, detail } => PipelineView {
                    stage: Stage::Aborted,
                    failure: Some(FailureView::Render { missing, template, detail }),
                    ..self
                },
                _ => self,
            },
            Stage::Rendered => if self.dry_run && (outcome is Succeeded || outcome is Failed) {
                self.step(self.apps.len(), Stage::DryRunDone)
            } else {
                self
            },
            Stage::Staging => match outcome {
                OutcomeView::Succeeded => self.step(self.apps.len(), Stage::Staged),
                OutcomeView::Failed(reason) => PipelineView {
                    stage: Stage::Aborted,
                    failure: Some(
                        FailureView::StageWrite {
                            destination: self.paths[self.cursor as int].final_path,
                            reason,
                        },
                    ),
                    ..self
                },
                _ => self,
            },
            Stage::Committing => match outcome {
                OutcomeView::Succeeded => self.step(self.apps.len(), Stage::Committed),
                OutcomeView::Failed(reason) => PipelineView {
                    stage: Stage::Aborted,
                    failure: Some(
                        FailureView::CommitRename {
                            committed: destinations(self.paths).take(self.cursor as int),
                            failed: self.paths[self.cursor as int].final_path,
                            pending: destinations(self.paths).skip(self.cursor + 1 as int),
                            reason,
                        },
                    ),
                    ..self
                },
                _ => self,
            },
            Stage::SignalDispatch => match outcome {
                OutcomeView::Succeeded => self.step(self.signals.len(), Stage::Done),
                OutcomeView::Failed(reason) => PipelineView {
                    unnotified: self.unnotified.push(self.signals[self.cursor as int]),
                    ..self
                }.step(self.signals.len(), Stage::Done),
                _ => self,
            },
            _ => self,
        }
    }
}


/// The keys of a list of reload signals.
pub open spec fn signal_views(signals: Seq<ReloadSignal>) -> Seq<SignalKey> {
    Seq::new(signals.len(), |i: int| signals[i]@)
}

/// The views of a list of staged writes.
pub open spec fn staged_views(paths: Seq<StagedWrite>) -> Seq<StagedView> {
    Seq::new(paths.len(), |i: int| paths[i]@)
}

/// A deployment in progress.
pub struct DeploymentPipeline {
    stage: Stage,
    dry_run: bool,
    apps: Vec<App>,
    paths: Vec<StagedWrite>,
    reserved: Vec<String>,
    signals: Vec<ReloadSignal>,
    renders: Vec<String>,
    cursor: usize,
    failure: Option<PipelineError>,
    unnotified: Vec<ReloadSignal>,
}

impl View for DeploymentPipeline {
    type V = PipelineView;

    closed spec fn view(&self) -> PipelineView {
        PipelineView {
            stage: self.stage,
            dry_run: self.dry_run,
            apps: app_views(self.apps@),
            paths: staged_views(self.paths@),
            reserved: texts(self.reserved@),
            signals: signal_views(self.signals@),
            renders: texts(self.renders@),
            cursor: self.cursor as nat,
            failure: match self.failure {
                Some(e) => Some(e@),
                None => None,
            },
            unnotified: signal_views(self.unnotified@),
        }
    }
}

/// Whether two reload signals have the same key.
pub fn same_signal(a: &ReloadSignal, b: &ReloadSignal) -> (r: bool)
    ensures
        r == (a@ == b@),
{
    match (a, b) {
        (ReloadSignal::Hyprctl, ReloadSignal::Hyprctl) => true,
        (ReloadSignal::Hyprpaper, ReloadSignal::Hyprpaper) => true,
        (ReloadSignal::Makoctl, ReloadSignal::Makoctl) => true,
        (ReloadSignal::Nothing, ReloadSignal::Nothing) => true,
        (ReloadSignal::Signal { signal: x }, ReloadSignal::Signal { signal: y }) => {
            crate::text::same_text(x.as_str(), y.as_str())
        },
        _ => false,
    }
}

/// The applications that are enabled, in their order.
pub fn enabled(apps: &Vec<App>) -> (r: Vec<App>)
    ensures
        app_views(r@) == enabled_apps(app_views(apps@)),
{
    let ghost all = app_views(apps@);
    let mut out: Vec<App> = Vec::new();
    let mut i: usize = 0;
    assert(all.take(0) =~= Seq::<AppView>::empty());
    while i < apps.len()
        invariant
            i <= apps.len(),
            all == app_views(apps@),
            app_views(out@) == enabled_apps(all.take(i as int)),
        decreases apps.len() - i,
    {
        proof {
            assert(all.take(i + 1).drop_last() == all.take(i as int));
            assert(all.take(i + 1).last() == apps@[i as int]@);
        }
        if apps[i].enabled {
            let ghost before = out@;
            out.push(apps[i].clone());
            assert(app_views(out@) =~= app_views(before).push(apps@[i as int]@));
        }
        i += 1;
    }
    assert(all.take(apps.len() as int) == all);
    out
}

/// The reload signals that a list of applications asks for, each once, in
/// the order in which they first occur; `Nothing` is left out. The signals
/// seen are kept in a list that is searched from its front: the list is the
/// order of dispatch, and a signal is known by its tag and target, not by a
/// hash of them.
pub fn unique_signals(apps: &Vec<App>) -> (r: Vec<ReloadSignal>)
    ensures
        signal_views(r@) == unique_keys(signal_keys(app_views(apps@))),
{
    let ghost keys = signal_keys(app_views(apps@));
    let mut out: Vec<ReloadSignal> = Vec::new();
    let mut i: usize = 0;
    assert(keys.take(0) =~= Seq::<SignalKey>::empty());
    while i < apps.len()
        invariant
            i <= apps.len(),
            keys == signal_keys(app_views(apps@)),
            signal_views(out@) == unique_keys(keys.take(i as int)),
        decreases apps.len() - i,
    {
        proof {
            assert(keys.take(i + 1).drop_last() == keys.take(i as int));
            assert(keys.take(i + 1).last() == apps@[i as int].reload_signal@);
        }
        let signal = &apps[i].reload_signal;
        let mut known = false;
        let mut j: usize = 0;
        while j < out.len()
            invariant
                j <= out.len(),
                known == signal_views(out@).take(j as int).contains(signal@),
            decreases out.len() - j,
        {
            let ghost before = signal_views(out@).take(j as int);
            let ghost now = signal_views(out@).take(j + 1);
            proof {
                assert(now =~= before.push(out@[j as int]@));
                if before.contains(signal@) {
                    let k = choose|k: int| 0 <= k < before.len() && before[k] == signal@;
                    assert(now[k] == signal@);
                }
                if now.contains(signal@) && out@[j as int]@ != signal@ {
                    let k = choose|k: int| 0 <= k < now.len() && now[k] == signal@;
                    assert(before[k] == signal@);
                }
                if out@[j as int]@ == signal@ {
                    assert(now[j as int] == signal@);
                }
            }
            if same_signal(&out[j], signal) {
                known = true;
            }
            j += 1;
        }
        assert(signal_views(out@).take(out@.len() as int) == signal_views(out@));
        let nothing = match signal {
            ReloadSignal::Nothing => true,
            _ => false,
        };
        if !nothing && !known {
            let ghost before = out@;
            out.push(signal.clone());
            assert(signal_views(out@) =~= signal_views(before).push(signal@));
        }
        i += 1;
    }
    assert(keys.take(apps.len() as int) == keys);
    out
}

fn destinations_between(paths: &Vec<StagedWrite>, from: usize, to: usize) -> (r: Vec<String>)
    requires
        from <= to <= paths.len(),
    ensures
        texts(r@) == destinations(staged_views(paths@)).subrange(from as int, to as int),
{
    let mut out: Vec<String> = Vec::new();
    let mut i: usize = from;
    while i < to
        invariant
            from <= i <= to <= paths.len(),
            texts(out@) == destinations(staged_views(paths@)).subrange(from as int, i as int),
        decreases to - i,
    {
        let ghost before = out@;
        out.push(paths[i].final_path.clone());
        assert(texts(out@) =~= texts(before).push(paths@[i as int].final_path@));
        i += 1;
    }
    out
}

/// The first application whose temporary file is that of an earlier one or
/// a destination.
fn find_clash(paths: &Vec<StagedWrite>, reserved: &Vec<String>) -> (r: Option<usize>)
    ensures
        match r {
            Some(at) => first_clash(staged_views(paths@), texts(reserved@), 0) == Some(at as int)
                && at < paths.len(),
            None => first_clash(staged_views(paths@), texts(reserved@), 0) is None,
        },
{
    let ghost p = staged_views(paths@);
    let ghost d = texts(reserved@);
    let mut i: usize = 0;
    while i < paths.len()
        invariant
            i <= paths.len(),
            p == staged_views(paths@),
            d == texts(reserved@),
            first_clash(p, d, 0) == first_clash(p, d, i as int),
        decreases paths.len() - i,
    {
        let mut clash = false;
        let mut j: usize = 0;
        while j < i
            invariant
                j <= i < paths.len(),
                p == staged_views(paths@),
                clash == (exists|k: int| 0 <= k < j && p[k].temp_path == p[i as int].temp_path),
            decreases i - j,
        {
            if same_text(paths[j].temp_path.as_str(), paths[i].temp_path.as_str()) {
                assert(p[j as int].temp_path == p[i as int].temp_path);
                clash = true;
            }
            j += 1;
        }
        let mut k: usize = 0;
        let mut taken = false;
        while k < reserved.len()
            invariant
                k <= reserved.len(),
                i < paths.len(),
                p == staged_views(paths@),
                d == texts(reserved@),
                taken == (exists|m: int| 0 <= m < k && p[i as int].temp_path == d[m]),
            decreases reserved.len() - k,
        {
            if same_text(paths[i].temp_path.as_str(), reserved[k].as_str()) {
                assert(p[i as int].temp_path == d[k as int]);
                taken = true;
            }
            k += 1;
        }
        if clash || taken {
            return Some(i);
        }
        i += 1;
    }
    None
}

impl DeploymentPipeline {
    /// The parts of the deployment fit each other and its stage.
    pub open spec fn wf(&self) -> bool {
        self@.wf()
    }

    /// A deployment of the enabled applications of `config` into the
    /// directory `config_root`, before its first step.
    pub fn new(config: &SlateConfig, config_root: &str, dry_run: bool) -> (r: DeploymentPipeline)
        ensures
            r@ == initial(config@.apps, config_root@, dry_run),
            r.wf(),
    {
        let apps = enabled(&config.apps);
        let signals = unique_signals(&apps);
        let mut paths: Vec<StagedWrite> = Vec::new();
        let mut i: usize = 0;
        while i < apps.len()
            invariant
                i <= apps.len(),
                paths.len() == i,
                forall|k: int|
                    0 <= k < i ==> (#[trigger] paths@[k])@ == staged_for(config_root@, apps@[k]@),
            decreases apps.len() - i,
        {
            let final_path = join_path(config_root, apps[i].config_path.as_str());
            let temp = temp_path(final_path.as_str());
            paths.push(StagedWrite { temp_path: temp, final_path });
            i += 1;
        }
        let mut reserved: Vec<String> = Vec::new();
        let mut j: usize = 0;
        while j < config.apps.len()
            invariant
                j <= config.apps.len(),
                reserved.len() == j,
                forall|k: int|
                    0 <= k < j ==> (#[trigger] reserved@[k])@ == joined(
                        config_root@,
                        config.apps@[k].config_path@,
                    ),
            decreases config.apps.len() - j,
        {
            reserved.push(join_path(config_root, config.apps[j].config_path.as_str()));
            j += 1;
        }
        let ghost want = initial(config@.apps, config_root@, dry_run);
        let r = DeploymentPipeline {
            stage: Stage::Idle,
            dry_run,
            apps,
            paths,
            reserved,
            signals,
            renders: Vec::new(),
            cursor: 0,
            failure: None,
            unnotified: Vec::new(),
        };
        proof {
            assert(r@.paths =~= want.paths);
            assert(r@.reserved =~= want.reserved);
            assert(r@.renders =~= want.renders);
            assert(r@.unnotified =~= want.unnotified);
            if r@.apps.len() == 0 {
                assert(signal_keys(r@.apps) =~= Seq::<SignalKey>::empty());
            }
        }
        r
    }

    /// Whether the parts of the deployment fit each other and its stage. A
    /// deployment made by `new` and changed by its own methods always does.
    pub fn is_wf(&self) -> (r: bool)
        ensures
            r == self.wf(),
    {
        let n = self.apps.len();
        let fits = self.paths.len() == n && self.renders.len() <= n && (n > 0
            || self.signals.len() == 0);
        let apart = match self.stage {
            Stage::Staging | Stage::Staged | Stage::Committing | Stage::Committed
            | Stage::SignalDispatch | Stage::Done => {
                proof {
                    lemma_first_clash(staged_views(self.paths@), texts(self.reserved@), 0);
                }
                !self.dry_run && find_clash(&self.paths, &self.reserved).is_none()
            },
            _ => true,
        };
        let dry = match self.stage {
            Stage::DryRunDone => self.dry_run,
            _ => true,
        };
        let staged = match self.stage {
            Stage::Idle => self.renders.len() == 0,
            Stage::Rendering => self.renders.len() < n,
            Stage::Aborted => self.failure.is_some(),
            Stage::Rendered => self.renders.len() == n && n > 0 && (!self.dry_run || self.cursor < n),
            Stage::Staging | Stage::Committing => self.renders.len() == n && self.cursor < n,
            Stage::Staged => self.renders.len() == n && n > 0,
            Stage::SignalDispatch => self.cursor < self.signals.len(),
            _ => true,
        };
        fits && apart && dry && staged
    }

    /// The stage of the deployment.
    pub fn stage(&self) -> (r: Stage)
        ensures
            r == self@.stage,
    {
        self.stage
    }

    /// Why the deployment was aborted, if it was.
    pub fn failure(&self) -> (r: &Option<PipelineError>)
        ensures
            match *r {
                Some(e) => self@.failure == Some(e@),
                None => self@.failure is None,
            },
    {
        &self.failure
    }

    /// The reload signals that could not be delivered so far.
    pub fn unnotified(&self) -> (r: &Vec<ReloadSignal>)
        ensures
            signal_views(r@) == self@.unnotified,
    {
        &self.unnotified
    }

    /// Takes the steps that need no action and says what has to be done
    /// next. The same action is named again until its outcome is recorded.
    pub fn next_action(&mut self) -> (action: Action)
        requires
            old(self).wf(),
        ensures
            final(self)@ == old(self)@.settle(),
            action@ == final(self)@.pending(),
            final(self).wf(),
    {
        match self.stage {
            Stage::Idle => {
                if self.apps.len() > 0 {
                    self.stage = Stage::Rendering;
                } else if self.dry_run {
                    self.stage = Stage::DryRunDone;
                } else {
                    self.stage = Stage::Done;
                }
            },
            Stage::Rendered => {
                if !self.dry_run {
                    proof {
                        lemma_first_clash(staged_views(self.paths@), texts(self.reserved@), 0);
                    }
                    match find_clash(&self.paths, &self.reserved) {
                        None => {
                            self.stage = Stage::Staging;
                            self.cursor = 0;
                        },
                        Some(at) => {
                            let destination = self.paths[at].final_path.clone();
                            self.stage = Stage::Aborted;
                            self.failure = Some(
                                PipelineError::Deployment(
                                    DeploymentError::StageWriteFailed {
                                        destination,
                                        reason:
                                            "its temporary file is a destination or the temporary file of another application".to_owned(),
                                    },
                                ),
                            );
                        },
                    }
                }
            },
            Stage::Staged => {
                self.stage = Stage::Committing;
                self.cursor = 0;
            },
            Stage::Committed => {
                if self.signals.len() > 0 {
                    self.stage = Stage::SignalDispatch;
                    self.cursor = 0;
                } else {
                    self.stage = Stage::Done;
                }
            },
            _ => {},
        }
        match self.stage {
            Stage::Rendering => Action::Render {
                template_path: self.apps[self.renders.len()].template_path.clone(),
            },
            Stage::Rendered => Action::Print {
                config_path: self.apps[self.cursor].config_path.clone(),
                content: self.renders[self.cursor].clone(),
            },
            Stage::Staging => Action::WriteTemp {
                temp_path: self.paths[self.cursor].temp_path.clone(),
                content: self.renders[self.cursor].clone(),
            },
            Stage::Committing => Action::Rename {
                temp_path: self.paths[self.cursor].temp_path.clone(),
                final_path: self.paths[self.cursor].final_path.clone(),
            },
            Stage::SignalDispatch => Action::Notify { signal: self.signals[self.cursor].clone() },
            _ => Action::Finish,
        }
    }

    fn advance(&mut self, items: usize, then: Stage)
        requires
            old(self).cursor < items,
        ensures
            final(self)@ == old(self)@.step(items as nat, then),
    {
        if self.cursor + 1 >= items {
            self.stage = then;
            self.cursor = 0;
        } else {
            self.cursor = self.cursor + 1;
        }
    }

    /// Records what came of the pending action. An outcome that answers no
    /// pending action changes nothing.
    pub fn record(&mut self, outcome: Outcome)
        requires
            old(self).wf(),
        ensures
            final(self)@ == old(self)@.recorded(outcome@),
            final(self).wf(),
    {
        match self.stage {
            Stage::Rendering => match outcome {
                Outcome::Rendered(text) => {
                    let ghost before = self.renders@;
                    self.renders.push(text);
                    assert(texts(self.renders@) =~= texts(before).push(text@));
                    if self.renders.len() >= self.apps.len() {
                        self.stage = Stage::Rendered;
                        self.cursor = 0;
                    }
                },
                Outcome::RenderFailed(e) => {
                    self.stage = Stage::Aborted;
                    self.failure = Some(PipelineError::Render(e));
                },
                _ => {},
            },
            Stage::Rendered => {
                if self.dry_run {
                    match outcome {
                        Outcome::Succeeded | Outcome::Failed(_) => {
                            let n = self.apps.len();
                            self.advance(n, Stage::DryRunDone);
                        },
                        _ => {},
                    }
                }
            },
            Stage::Staging => match outcome {
                Outcome::Succeeded => {
                    let n = self.apps.len();
                    self.advance(n, Stage::Staged);
                },
                Outcome::Failed(reason) => {
                    let destination = self.paths[self.cursor].final_path.clone();
                    self.stage = Stage::Aborted;
                    self.failure = Some(
                        PipelineError::Deployment(
                            DeploymentError::StageWriteFailed { destination, reason },
                        ),
                    );
                },
                _ => {},
            },
            Stage::Committing => match outcome {
                Outcome::Succeeded => {
                    let n = self.apps.len();
                    self.advance(n, Stage::Committed);
                },
                Outcome::Failed(reason) => {
                    assert(self.cursor < self.paths@.len()) by {
                        assert(self@.paths.len() == self.paths@.len());
                    }
                    let at: usize = self.cursor;
                    let committed = destinations_between(&self.paths, 0, at);
                    let failed = self.paths[at].final_path.clone();
                    let n: usize = self.paths.len();
                    let pending = destinations_between(&self.paths, at + 1, n);
                    self.stage = Stage::Aborted;
                    self.failure = Some(
                        PipelineError::Deployment(
                            DeploymentError::CommitRenameFailed { committed, failed, pending, reason },
                        ),
                    );
                },
                _ => {},
            },
            Stage::SignalDispatch => match outcome {
                Outcome::Succeeded => {
                    let n = self.signals.len();
                    self.advance(n, Stage::Done);
                },
                Outcome::Failed(_) => {
                    let ghost before = self.unnotified@;
                    let signal = self.signals[self.cursor].clone();
                    self.unnotified.push(signal);
                    assert(signal_views(self.unnotified@) =~= signal_views(before).push(signal@));
                    let n = self.signals.len();
                    self.advance(n, Stage::Done);
                },
                _ => {},
            },
            _ => {},
        }
    }
}

/// What the driver of a deployment does in one step: it asks for the next
/// action, or it records an outcome.
pub enum Op {
    Next,
    Record(OutcomeView),
}

impl PipelineView {
    /// The deployment after one step of its driver.
    pub open spec fn apply(self, op: Op) -> PipelineView {
        match op {
            Op::Next => self.settle(),
            Op::Record(outcome) => self.recorded(outcome),
        }
    }

    /// The deployment after a sequence of steps.
    pub open spec fn run(self, ops: Seq<Op>) -> PipelineView
        decreases ops.len(),
    {
        if ops.len() == 0 {
            self
        } else {
            self.run(ops.drop_last()).apply(ops.last())
        }
    }

    /// The actions that the deployment asks for in the course of a sequence
    /// of steps, one for each time it is asked.
    pub open spec fn actions(self, ops: Seq<Op>) -> Seq<ActionView>
        decreases ops.len(),
    {
        if ops.len() == 0 {
            Seq::empty()
        } else {
            match ops.last() {
                Op::Next => self.actions(ops.drop_last()).push(self.run(ops).pending()),
                Op::Record(_) => self.actions(ops.drop_last()),
            }
        }
    }

    /// No file was asked to be touched yet, and none will be unless every
    /// application renders: the deployment has not got past rendering, or
    /// rendering has failed.
    pub open spec fn before_staging(self) -> bool {
        self.stage is Idle || self.stage is Rendering || (self.stage is Aborted
            && self.failure matches Some(FailureView::Render { .. }))
    }

    /// No file was asked to be renamed yet and no program to be notified,
    /// and none will be unless every temporary file is written: the
    /// deployment has not got past staging, or rendering or staging has
    /// failed.
    pub open spec fn before_commit(self) -> bool {
        self.stage is Idle || self.stage is Rendering || self.stage is Rendered
            || self.stage is DryRunDone || self.stage is Staging || self.stage is Staged || (
        self.stage is Aborted && (self.failure matches Some(FailureView::Render { .. })
            || self.failure matches Some(FailureView::StageWrite { .. })))
    }

    /// The stages of a dry run.
    pub open spec fn in_dry_run(self) -> bool {
        self.dry_run && (self.stage is Idle || self.stage is Rendering || self.stage is Rendered
            || self.stage is DryRunDone || self.stage is Aborted)
    }
}

/// A deployment that starts well-formed stays so, whatever its driver does.
pub proof fn lemma_wf_preserved(v: PipelineView, op: Op)
    requires
        v.wf(),
    ensures
        v.apply(op).wf(),
{
    lemma_first_clash(v.paths, v.reserved, 0);
}

/// A deployment before its first step is well-formed.
pub proof fn lemma_initial_wf(apps: Seq<AppView>, root: Seq<char>, dry_run: bool)
    ensures
        initial(apps, root, dry_run).wf(),
{
    let v = initial(apps, root, dry_run);
    lemma_first_clash(v.paths, v.reserved, 0);
    if enabled_apps(apps).len() == 0 {
        assert(signal_keys(enabled_apps(apps)) =~= Seq::<SignalKey>::empty());
    }
}

/// A deployment that has ended stays as it is and asks for nothing more.
pub proof fn lemma_ended_is_final(v: PipelineView, op: Op)
    requires
        v.stage is Aborted || v.stage is DryRunDone || v.stage is Done,
    ensures
        v.apply(op) == v,
        v.settle().pending() is Finish,
{
}

/// Whenever a deployment asks for a file to be written or renamed, its
/// temporary files are kept apart: no two applications share one, and none
/// is a destination of the configuration, enabled or not.
pub proof fn lemma_writes_are_apart(v: PipelineView)
    requires
        v.wf(),
    ensures
        v.settle().pending() is WriteTemp || v.settle().pending() is Rename ==> paths_apart(
            v.paths,
            v.reserved,
        ),
{
    lemma_first_clash(v.paths, v.reserved, 0);
}

/// A deployment whose temporary files are not kept apart writes nothing,
/// whatever its driver does: it asks for no file to be written or renamed
/// and for no program to be notified.
pub proof fn lemma_clash_writes_nothing(v: PipelineView, ops: Seq<Op>)
    requires
        v.wf(),
        !paths_apart(v.paths, v.reserved),
    ensures
        v.run(ops).wf(),
        v.run(ops).paths == v.paths,
        v.run(ops).reserved == v.reserved,
        forall|i: int| 0 <= i < v.actions(ops).len() ==> !(#[trigger] v.actions(ops)[i]).acts_outside(),
    decreases ops.len(),
{
    if ops.len() > 0 {
        lemma_clash_writes_nothing(v, ops.drop_last());
        let before = v.run(ops.drop_last());
        lemma_wf_preserved(before, ops.last());
        let earlier = v.actions(ops.drop_last());
        assert forall|i: int| 0 <= i < v.actions(ops).len() implies !(#[trigger] v.actions(
            ops,
        )[i]).acts_outside() by {
            if i < earlier.len() {
                assert(v.actions(ops)[i] == earlier[i]);
            }
        }
    }
}

/// Where every application renders and the temporary files are not kept
/// apart, the deployment is aborted as staging would begin: it has asked
/// for the renderings and nothing else, and it names the first application
/// whose temporary file is that of an earlier one or a destination.
pub proof fn lemma_clash_is_reported(v: PipelineView, rendered: Seq<Seq<char>>)
    requires
        v.wf(),
        v.stage is Idle,
        !v.dry_run,
        v.cursor == 0,
        rendered.len() == v.apps.len(),
        !paths_apart(v.paths, v.reserved),
    ensures
        ({
            let ops = answered(all_succeed(v, rendered).take(v.apps.len() as int)).push(Op::Next);
            &&& first_clash(v.paths, v.reserved, 0) matches Some(at) && v.run(ops).failure == Some(
                FailureView::StageWrite {
                    destination: v.paths[at].final_path,
                    reason: clash_reason(),
                },
            )
            &&& v.run(ops).stage is Aborted
            &&& v.actions(ops) == actions_in_order(v, rendered).take(v.apps.len() as int).push(
                ActionView::Finish,
            )
        }),
{
    let n = v.apps.len() as int;
    lemma_first_clash(v.paths, v.reserved, 0);
    lemma_in_order(v, rendered, n);
    let earlier = answered(all_succeed(v, rendered).take(n));
    let ops = earlier.push(Op::Next);
    assert(ops.drop_last() =~= earlier);
    assert(v.renders =~= Seq::<Seq<char>>::empty());
    let before = state_after(v, rendered, n);
    assert(v.run(ops) == before.settle());
}

/// A deployment that is aborted asks for nothing more, whatever its driver
/// does.
pub proof fn lemma_aborted_asks_for_nothing(v: PipelineView, ops: Seq<Op>)
    requires
        v.stage is Aborted,
    ensures
        v.run(ops) == v,
        forall|i: int| 0 <= i < v.actions(ops).len() ==> (#[trigger] v.actions(ops)[i]) is Finish,
    decreases ops.len(),
{
    if ops.len() > 0 {
        lemma_aborted_asks_for_nothing(v, ops.drop_last());
        let earlier = v.actions(ops.drop_last());
        assert forall|i: int| 0 <= i < v.actions(ops).len() implies (#[trigger] v.actions(
            ops,
        )[i]) is Finish by {
            if i < earlier.len() {
                assert(v.actions(ops)[i] == earlier[i]);
            }
        }
    }
}

/// A dry run asks for nothing but rendering and showing, whatever the
/// outcomes and however many applications are enabled: no file is written
/// or renamed and no program is notified.
pub proof fn lemma_dry_run_acts_on_nothing(v: PipelineView, ops: Seq<Op>)
    requires
        v.in_dry_run(),
    ensures
        v.run(ops).in_dry_run(),
        forall|i: int| 0 <= i < v.actions(ops).len() ==> !(#[trigger] v.actions(ops)[i]).acts_outside(),
    decreases ops.len(),
{
    if ops.len() > 0 {
        lemma_dry_run_acts_on_nothing(v, ops.drop_last());
        let earlier = v.actions(ops.drop_last());
        assert forall|i: int| 0 <= i < v.actions(ops).len() implies !(#[trigger] v.actions(
            ops,
        )[i]).acts_outside() by {
            if i < earlier.len() {
                assert(v.actions(ops)[i] == earlier[i]);
            }
        }
    }
}

/// Once the rendering of an application has failed, the whole run of the
/// deployment, before the failure and after it, asks for no file to be
/// written or renamed and for no program to be notified: the texts that were
/// rendered before are never used.
pub proof fn lemma_render_failure_acts_on_nothing(v: PipelineView, ops: Seq<Op>)
    requires
        v.stage is Idle,
        v.failure is None,
    ensures
        v.run(ops).failure is None || v.run(ops).stage is Aborted,
        v.run(ops).before_staging() ==> forall|i: int|
            0 <= i < v.actions(ops).len() ==> !(#[trigger] v.actions(ops)[i]).acts_outside(),
        v.run(ops).failure matches Some(FailureView::Render { .. }) ==> v.run(
            ops,
        ).before_staging(),
    decreases ops.len(),
{
    if ops.len() > 0 {
        lemma_render_failure_acts_on_nothing(v, ops.drop_last());
        let earlier = v.actions(ops.drop_last());
        if v.run(ops).before_staging() {
            assert(v.run(ops.drop_last()).before_staging());
            assert forall|i: int| 0 <= i < v.actions(ops).len() implies !(#[trigger] v.actions(
                ops,
            )[i]).acts_outside() by {
                if i < earlier.len() {
                    assert(v.actions(ops)[i] == earlier[i]);
                }
            }
        }
    }
}

impl ActionView {
    /// The action replaces a destination or reaches a running program.
    pub open spec fn commits(self) -> bool {
        self is Rename || self is Notify
    }
}

/// Once a temporary file could not be written, the whole run of the
/// deployment asks for no file to be renamed and for no program to be
/// notified: every destination stays as it was.
pub proof fn lemma_stage_failure_commits_nothing(v: PipelineView, ops: Seq<Op>)
    requires
        v.stage is Idle,
        v.failure is None,
    ensures
        v.run(ops).failure is None || v.run(ops).stage is Aborted,
        v.run(ops).before_commit() ==> forall|i: int|
            0 <= i < v.actions(ops).len() ==> !(#[trigger] v.actions(ops)[i]).commits(),
        v.run(ops).failure matches Some(FailureView::StageWrite { .. }) ==> v.run(
            ops,
        ).before_commit(),
    decreases ops.len(),
{
    if ops.len() > 0 {
        lemma_stage_failure_commits_nothing(v, ops.drop_last());
        let earlier = v.actions(ops.drop_last());
        if v.run(ops).before_commit() {
            assert(v.run(ops.drop_last()).before_commit());
            assert forall|i: int| 0 <= i < v.actions(ops).len() implies !(#[trigger] v.actions(
                ops,
            )[i]).commits() by {
                if i < earlier.len() {
                    assert(v.actions(ops)[i] == earlier[i]);
                }
            }
        }
    }
}

/// The steps of a driver that asks for each action and records an outcome
/// for it, one outcome after the other.
pub open spec fn answered(outcomes: Seq<OutcomeView>) -> Seq<Op>
    decreases outcomes.len(),
{
    if outcomes.len() == 0 {
        Seq::empty()
    } else {
        answered(outcomes.drop_last()).push(Op::Next).push(Op::Record(outcomes.last()))
    }
}

/// The outcomes of a deployment in which nothing fails: a text for each
/// application, then success for each write, each rename and each
/// notification.
pub open spec fn all_succeed(v: PipelineView, rendered: Seq<Seq<char>>) -> Seq<OutcomeView> {
    Seq::new(
        3 * v.apps.len() + v.signals.len(),
        |k: int|
            if k < v.apps.len() {
                OutcomeView::Rendered(rendered[k])
            } else {
                OutcomeView::Succeeded
            },
    )
}

/// The action that a deployment in which nothing fails asks for at its
/// `k`-th step: it renders every application, then writes every temporary
/// file, then renames each onto its destination, then dispatches every
/// signal, and then it is finished.
pub open spec fn action_in_order(v: PipelineView, rendered: Seq<Seq<char>>, k: int) -> ActionView {
    let n = v.apps.len() as int;
    let m = v.signals.len() as int;
    if k < n {
        ActionView::Render { template_path: v.apps[k].template_path }
    } else if k < 2 * n {
        ActionView::WriteTemp { temp_path: v.paths[k - n].temp_path, content: rendered[k - n] }
    } else if k < 3 * n {
        ActionView::Rename {
            temp_path: v.paths[k - 2 * n].temp_path,
            final_path: v.paths[k - 2 * n].final_path,
        }
    } else if k < 3 * n + m {
        ActionView::Notify { signal: v.signals[k - 3 * n] }
    } else {
        ActionView::Finish
    }
}

/// All that a deployment in which nothing fails asks for, in order.
pub open spec fn actions_in_order(v: PipelineView, rendered: Seq<Seq<char>>) -> Seq<ActionView> {
    Seq::new(
        3 * v.apps.len() + v.signals.len() + 1,
        |k: int| action_in_order(v, rendered, k),
    )
}

spec fn state_after(v: PipelineView, rendered: Seq<Seq<char>>, k: int) -> PipelineView {
    let n = v.apps.len() as int;
    let m = v.signals.len() as int;
    if k <= 0 {
        v
    } else if k < n {
        PipelineView { stage: Stage::Rendering, renders: rendered.take(k), ..v }
    } else if k == n {
        PipelineView { stage: Stage::Rendered, renders: rendered, cursor: 0, ..v }
    } else if k < 2 * n {
        PipelineView { stage: Stage::Staging, renders: rendered, cursor: (k - n) as nat, ..v }
    } else if k == 2 * n {
        PipelineView { stage: Stage::Staged, renders: rendered, cursor: 0, ..v }
    } else if k < 3 * n {
        PipelineView { stage: Stage::Committing, renders: rendered, cursor: (k - 2 * n) as nat, ..v }
    } else if k == 3 * n {
        PipelineView { stage: Stage::Committed, renders: rendered, cursor: 0, ..v }
    } else if k < 3 * n + m {
        PipelineView {
            stage: Stage::SignalDispatch,
            renders: rendered,
            cursor: (k - 3 * n) as nat,
            ..v
        }
    } else {
        PipelineView { stage: Stage::Done, renders: rendered, cursor: 0, ..v }
    }
}

proof fn lemma_in_order(v: PipelineView, rendered: Seq<Seq<char>>, k: int)
    requires
        v.wf(),
        v.stage is Idle,
        !v.dry_run,
        k > v.apps.len() ==> paths_apart(v.paths, v.reserved),
        v.cursor == 0,
        rendered.len() == v.apps.len(),
        0 <= k <= 3 * v.apps.len() + v.signals.len(),
    ensures
        v.run(answered(all_succeed(v, rendered).take(k))) == state_after(v, rendered, k),
        v.actions(answered(all_succeed(v, rendered).take(k))) == actions_in_order(v, rendered).take(
            k,
        ),
    decreases k,
{
    lemma_first_clash(v.paths, v.reserved, 0);
    let outcomes = all_succeed(v, rendered);
    let ops = answered(outcomes.take(k));
    if k == 0 {
        assert(v.actions(ops) =~= actions_in_order(v, rendered).take(k));
    } else {
        lemma_in_order(v, rendered, k - 1);
        let earlier = answered(outcomes.take(k - 1));
        let asked = earlier.push(Op::Next);
        assert(outcomes.take(k).drop_last() =~= outcomes.take(k - 1));
        assert(outcomes.take(k).last() == outcomes[k - 1]);
        assert(ops == asked.push(Op::Record(outcomes[k - 1])));
        assert(ops.drop_last() =~= asked);
        assert(asked.drop_last() =~= earlier);
        let before = state_after(v, rendered, k - 1);
        assert(v.renders =~= Seq::<Seq<char>>::empty());
        assert(rendered.take(0) =~= Seq::<Seq<char>>::empty());
        assert(v.run(asked) == before.settle());
        assert(v.actions(asked) == v.actions(earlier).push(before.settle().pending()));
        assert(v.run(ops) == before.settle().recorded(outcomes[k - 1]));
        assert(v.actions(ops) == v.actions(asked));
        let n = v.apps.len() as int;
        if k - 1 < n {
            assert(rendered.take(k - 1).push(rendered[k - 1]) =~= rendered.take(k));
            assert(rendered.take(n) =~= rendered);
        }
        assert(before.settle().pending() == action_in_order(v, rendered, k - 1));
        assert(before.settle().recorded(outcomes[k - 1]) == state_after(v, rendered, k));
        assert(v.actions(ops) =~= actions_in_order(v, rendered).take(k));
    }
}

/// A deployment in which nothing fails renders every application, then
/// writes every temporary file, then renames each onto its destination, then
/// dispatches each signal once, all in the order of the configuration, and
/// ends `Done`.
pub proof fn lemma_deployment_in_order(v: PipelineView, rendered: Seq<Seq<char>>)
    requires
        v.wf(),
        v.stage is Idle,
        !v.dry_run,
        paths_apart(v.paths, v.reserved),
        v.cursor == 0,
        rendered.len() == v.apps.len(),
    ensures
        v.actions(answered(all_succeed(v, rendered)).push(Op::Next)) == actions_in_order(v, rendered),
        v.run(answered(all_succeed(v, rendered)).push(Op::Next)).stage is Done,
        v.run(answered(all_succeed(v, rendered)).push(Op::Next)).failure == v.failure,
{
    lemma_first_clash(v.paths, v.reserved, 0);
    let outcomes = all_succeed(v, rendered);
    let total = 3 * v.apps.len() + v.signals.len();
    lemma_in_order(v, rendered, total as int);
    assert(outcomes.take(total as int) =~= outcomes);
    let ops = answered(outcomes);
    let last = ops.push(Op::Next);
    assert(last.drop_last() =~= ops);
    assert(v.renders =~= Seq::<Seq<char>>::empty());
    let before = state_after(v, rendered, total as int);
    assert(v.run(last) == before.settle());
    assert(before.settle().pending() == action_in_order(v, rendered, total as int));
    assert(v.actions(last) =~= actions_in_order(v, rendered));
}

/// Where the writing of the `j`-th temporary file fails after all before
/// it went well, the deployment is aborted with `StageWrite` for the
/// `j`-th destination, and it has asked for the renderings and for `j + 1`
/// writes, no more.
pub proof fn lemma_stage_failure_report(
    v: PipelineView,
    rendered: Seq<Seq<char>>,
    j: int,
    reason: Seq<char>,
)
    requires
        v.wf(),
        v.stage is Idle,
        !v.dry_run,
        paths_apart(v.paths, v.reserved),
        v.cursor == 0,
        rendered.len() == v.apps.len(),
        0 <= j < v.apps.len(),
    ensures
        ({
            let ops = answered(all_succeed(v, rendered).take(v.apps.len() + j)).push(
                Op::Next,
            ).push(Op::Record(OutcomeView::Failed(reason)));
            &&& v.run(ops).stage is Aborted
            &&& v.run(ops).failure == Some(
                FailureView::StageWrite { destination: v.paths[j].final_path, reason },
            )
            &&& v.actions(ops) == actions_in_order(v, rendered).take(v.apps.len() + j + 1)
        }),
{
    lemma_first_clash(v.paths, v.reserved, 0);
    let k = v.apps.len() + j;
    lemma_in_order(v, rendered, k);
    let earlier = answered(all_succeed(v, rendered).take(k));
    let asked = earlier.push(Op::Next);
    let ops = asked.push(Op::Record(OutcomeView::Failed(reason)));
    assert(ops.drop_last() =~= asked);
    assert(asked.drop_last() =~= earlier);
    assert(v.renders =~= Seq::<Seq<char>>::empty());
    let before = state_after(v, rendered, k);
    assert(v.run(asked) == before.settle());
    assert(before.settle().pending() == action_in_order(v, rendered, k));
    assert(v.actions(asked) =~= actions_in_order(v, rendered).take(k + 1));
    assert(v.actions(ops) == v.actions(asked));
}

/// Where the renaming of the `j`-th file fails after all before it went
/// well, the deployment is aborted with a report that names the first `j`
/// destinations as committed, the `j`-th as failed and all behind it as
/// pending: together, every destination, each once.
pub proof fn lemma_commit_failure_report(
    v: PipelineView,
    rendered: Seq<Seq<char>>,
    j: int,
    reason: Seq<char>,
)
    requires
        v.wf(),
        v.stage is Idle,
        !v.dry_run,
        paths_apart(v.paths, v.reserved),
        v.cursor == 0,
        rendered.len() == v.apps.len(),
        0 <= j < v.apps.len(),
    ensures
        ({
            let ops = answered(all_succeed(v, rendered).take(2 * v.apps.len() + j)).push(
                Op::Next,
            ).push(Op::Record(OutcomeView::Failed(reason)));
            &&& v.run(ops).stage is Aborted
            &&& v.run(ops).failure == Some(
                FailureView::CommitRename {
                    committed: destinations(v.paths).take(j),
                    failed: destinations(v.paths)[j],
                    pending: destinations(v.paths).skip(j + 1),
                    reason,
                },
            )
            &&& v.actions(ops) == actions_in_order(v, rendered).take(2 * v.apps.len() + j + 1)
            &&& destinations(v.paths).take(j).push(destinations(v.paths)[j]) + destinations(
                v.paths,
            ).skip(j + 1) == destinations(v.paths)
        }),
{
    lemma_first_clash(v.paths, v.reserved, 0);
    let k = 2 * v.apps.len() + j;
    lemma_in_order(v, rendered, k);
    let earlier = answered(all_succeed(v, rendered).take(k));
    let asked = earlier.push(Op::Next);
    let ops = asked.push(Op::Record(OutcomeView::Failed(reason)));
    assert(ops.drop_last() =~= asked);
    assert(asked.drop_last() =~= earlier);
    assert(v.renders =~= Seq::<Seq<char>>::empty());
    let before = state_after(v, rendered, k);
    assert(v.run(asked) == before.settle());
    assert(before.settle().pending() == action_in_order(v, rendered, k));
    assert(v.actions(asked) =~= actions_in_order(v, rendered).take(k + 1));
    assert(v.actions(ops) == v.actions(asked));
    assert(destinations(v.paths).take(j).push(destinations(v.paths)[j]) + destinations(
        v.paths,
    ).skip(j + 1) =~= destinations(v.paths));
}

impl PipelineView {
    /// Each temporary file is the one beside its destination, and each
    /// destination is one of those of the configuration.
    pub open spec fn paths_fit(self) -> bool {
        &&& forall|i: int|
            0 <= i < self.paths.len() ==> (#[trigger] self.paths[i]).temp_path == temp_sibling(
                self.paths[i].final_path,
            )
        &&& forall|i: int|
            0 <= i < self.paths.len() ==> self.reserved.contains(
                (#[trigger] self.paths[i]).final_path,
            )
    }
}

proof fn lemma_enabled_are_apps(apps: Seq<AppView>, i: int)
    requires
        0 <= i < enabled_apps(apps).len(),
    ensures
        apps.contains(enabled_apps(apps)[i]),
    decreases apps.len(),
{
    if apps.len() > 0 {
        let init = apps.drop_last();
        if apps.last().enabled && i == enabled_apps(init).len() {
            assert(apps[apps.len() - 1] == enabled_apps(apps)[i]);
        } else {
            lemma_enabled_are_apps(init, i);
            let at = choose|at: int| 0 <= at < init.len() && init[at] == enabled_apps(init)[i];
            assert(apps[at] == enabled_apps(apps)[i]);
        }
    }
}

/// In a deployment before its first step each temporary file is the one
/// beside its destination, and each destination is one of those of the
/// configuration.
pub proof fn lemma_initial_paths_fit(apps: Seq<AppView>, root: Seq<char>, dry_run: bool)
    ensures
        initial(apps, root, dry_run).paths_fit(),
{
    let v = initial(apps, root, dry_run);
    assert forall|i: int| 0 <= i < v.paths.len() implies v.reserved.contains(
        (#[trigger] v.paths[i]).final_path,
    ) by {
        lemma_enabled_are_apps(apps, i);
        let at = choose|at: int| 0 <= at < apps.len() && apps[at] == enabled_apps(apps)[i];
        assert(v.reserved[at] == v.paths[i].final_path);
    }
}

impl ActionView {
    /// The files once the action is done, each path that exists with its
    /// text: a write puts the text at the temporary file, a rename moves
    /// what is at the temporary file onto the destination, and no other
    /// action changes a file.
    pub open spec fn done_on(self, files: Map<Seq<char>, Seq<char>>) -> Map<Seq<char>, Seq<char>> {
        match self {
            ActionView::WriteTemp { temp_path, content } => files.insert(temp_path, content),
            ActionView::Rename { temp_path, final_path } => if files.dom().contains(temp_path) {
                files.remove(temp_path).insert(final_path, files[temp_path])
            } else {
                files
            },
            _ => files,
        }
    }
}

/// The files once a sequence of actions is done, one after the other.
pub open spec fn files_after(files: Map<Seq<char>, Seq<char>>, actions: Seq<ActionView>) -> Map<
    Seq<char>,
    Seq<char>,
>
    decreases actions.len(),
{
    if actions.len() == 0 {
        files
    } else {
        actions.last().done_on(files_after(files, actions.drop_last()))
    }
}

/// A path holds in `now` what it held in `before`.
pub open spec fn unchanged(
    before: Map<Seq<char>, Seq<char>>,
    now: Map<Seq<char>, Seq<char>>,
    path: Seq<char>,
) -> bool {
    (now.dom().contains(path) <==> before.dom().contains(path)) && now[path] == before[path]
}

/// The files of a deployment of which `written` temporary files are
/// written and `renamed` of them renamed: the destinations of the renamed
/// hold their texts, the other written temporary files hold theirs, the
/// renamed temporary files are gone, and every other path is as it was.
pub open spec fn files_staged(
    v: PipelineView,
    rendered: Seq<Seq<char>>,
    before: Map<Seq<char>, Seq<char>>,
    now: Map<Seq<char>, Seq<char>>,
    written: int,
    renamed: int,
) -> bool {
    &&& forall|i: int|
        0 <= i < renamed ==> now.dom().contains((#[trigger] v.paths[i]).final_path)
            && now[v.paths[i].final_path] == rendered[i]
    &&& forall|i: int|
        renamed <= i < written ==> now.dom().contains((#[trigger] v.paths[i]).temp_path)
            && now[v.paths[i].temp_path] == rendered[i]
    &&& forall|i: int| 0 <= i < renamed ==> !now.dom().contains((#[trigger] v.paths[i]).temp_path)
    &&& forall|path: Seq<char>|
        (forall|i: int| 0 <= i < renamed ==> path != (#[trigger] v.paths[i]).final_path) && (
        forall|i: int| 0 <= i < written ==> path != (#[trigger] v.paths[i]).temp_path)
            ==> #[trigger] unchanged(before, now, path)
}

proof fn lemma_paths_differ(v: PipelineView)
    requires
        v.paths_fit(),
        paths_apart(v.paths, v.reserved),
    ensures
        forall|i: int, j: int|
            0 <= i < v.paths.len() && 0 <= j < v.paths.len() && i != j ==> (#[trigger] v.paths[i]).temp_path
                != (#[trigger] v.paths[j]).temp_path,
        forall|i: int, j: int|
            0 <= i < v.paths.len() && 0 <= j < v.paths.len() && i != j ==> (#[trigger] v.paths[i]).final_path
                != (#[trigger] v.paths[j]).final_path,
        forall|i: int, j: int|
            0 <= i < v.paths.len() && 0 <= j < v.paths.len() ==> (#[trigger] v.paths[i]).temp_path
                != (#[trigger] v.paths[j]).final_path,
{
    assert forall|i: int, j: int|
        0 <= i < v.paths.len() && 0 <= j < v.paths.len() && i != j implies (#[trigger] v.paths[i]).temp_path
        != (#[trigger] v.paths[j]).temp_path by {
        if i < j {
            assert(v.paths[i].temp_path != v.paths[j].temp_path);
        } else {
            assert(v.paths[j].temp_path != v.paths[i].temp_path);
        }
    }
    assert forall|i: int, j: int|
        0 <= i < v.paths.len() && 0 <= j < v.paths.len() && i != j implies (#[trigger] v.paths[i]).final_path
        != (#[trigger] v.paths[j]).final_path by {
        crate::path::lemma_temp_sibling_apart(v.paths[i].final_path, v.paths[j].final_path);
        assert(v.paths[i].temp_path != v.paths[j].temp_path);
    }
    assert forall|i: int, j: int|
        0 <= i < v.paths.len() && 0 <= j < v.paths.len() implies (#[trigger] v.paths[i]).temp_path
        != (#[trigger] v.paths[j]).final_path by {
        assert(v.reserved.contains(v.paths[j].final_path));
        let at = choose|at: int| 0 <= at < v.reserved.len() && v.reserved[at] == v.paths[j].final_path;
        assert(v.paths[i].temp_path != v.reserved[at]);
    }
}

spec fn clamp(x: int, n: int) -> int {
    if x < 0 {
        0
    } else if x > n {
        n
    } else {
        x
    }
}

proof fn lemma_files_in_order(
    v: PipelineView,
    rendered: Seq<Seq<char>>,
    files: Map<Seq<char>, Seq<char>>,
    k: int,
)
    requires
        v.wf(),
        v.paths_fit(),
        v.stage is Idle,
        !v.dry_run,
        paths_apart(v.paths, v.reserved),
        rendered.len() == v.apps.len(),
        0 <= k <= 3 * v.apps.len() + v.signals.len() + 1,
    ensures
        files_staged(
            v,
            rendered,
            files,
            files_after(files, actions_in_order(v, rendered).take(k)),
            clamp(k - v.apps.len(), v.apps.len() as int),
            clamp(k - 2 * v.apps.len(), v.apps.len() as int),
        ),
    decreases k,
{
    let n = v.apps.len() as int;
    let all = actions_in_order(v, rendered);
    let now = files_after(files, all.take(k));
    if k == 0 {
        assert(now == files);
    } else {
        lemma_files_in_order(v, rendered, files, k - 1);
        lemma_paths_differ(v);
        let earlier = files_after(files, all.take(k - 1));
        assert(all.take(k).drop_last() =~= all.take(k - 1));
        assert(all.take(k).last() == action_in_order(v, rendered, k - 1));
        assert(now == action_in_order(v, rendered, k - 1).done_on(earlier));
        let w0 = clamp(k - 1 - n, n);
        let r0 = clamp(k - 1 - 2 * n, n);
        let w = clamp(k - n, n);
        let r = clamp(k - 2 * n, n);
        if k - 1 < n {
            assert(now == earlier);
        } else if k - 1 < 2 * n {
            let j = k - 1 - n;
            assert(now == earlier.insert(v.paths[j].temp_path, rendered[j]));
            assert(w == j + 1 && w0 == j && r == 0 && r0 == 0);
            assert forall|path: Seq<char>|
                (forall|i: int| 0 <= i < r ==> path != (#[trigger] v.paths[i]).final_path) && (
                forall|i: int|
                    0 <= i < w ==> path != (#[trigger] v.paths[i]).temp_path) implies #[trigger] unchanged(
                files,
                now,
                path,
            ) by {
                assert(path != v.paths[j].temp_path);
                assert(unchanged(files, earlier, path));
            }
        } else if k - 1 < 3 * n {
            let j = k - 1 - 2 * n;
            assert(w0 == n && w == n && r0 == j && r == j + 1);
            assert(earlier.dom().contains(v.paths[j].temp_path));
            assert(earlier[v.paths[j].temp_path] == rendered[j]);
            assert(now == earlier.remove(v.paths[j].temp_path).insert(
                v.paths[j].final_path,
                rendered[j],
            ));
            assert forall|i: int| 0 <= i < r implies now.dom().contains(
                (#[trigger] v.paths[i]).final_path,
            ) && now[v.paths[i].final_path] == rendered[i] by {
                if i < j {
                    assert(v.paths[i].final_path != v.paths[j].final_path);
                    assert(v.paths[j].temp_path != v.paths[i].final_path);
                }
            }
            assert forall|i: int| r <= i < w implies now.dom().contains(
                (#[trigger] v.paths[i]).temp_path,
            ) && now[v.paths[i].temp_path] == rendered[i] by {
                assert(v.paths[i].temp_path != v.paths[j].temp_path);
                assert(v.paths[i].temp_path != v.paths[j].final_path);
            }
            assert forall|i: int| 0 <= i < r implies !now.dom().contains(
                (#[trigger] v.paths[i]).temp_path,
            ) by {
                assert(v.paths[i].temp_path != v.paths[j].final_path);
            }
            assert forall|path: Seq<char>|
                (forall|i: int| 0 <= i < r ==> path != (#[trigger] v.paths[i]).final_path) && (
                forall|i: int|
                    0 <= i < w ==> path != (#[trigger] v.paths[i]).temp_path) implies #[trigger] unchanged(
                files,
                now,
                path,
            ) by {
                assert(path != v.paths[j].final_path);
                assert(path != v.paths[j].temp_path);
                assert(unchanged(files, earlier, path));
            }
        } else {
            assert(now == earlier);
        }
    }
}

/// Where nothing fails, every destination holds the text rendered for its
/// application once the last file is renamed, no temporary file is left,
/// and every other path, the destination of a disabled application among
/// them, is as it was.
pub proof fn lemma_files_after_deployment(
    v: PipelineView,
    rendered: Seq<Seq<char>>,
    files: Map<Seq<char>, Seq<char>>,
)
    requires
        v.wf(),
        v.paths_fit(),
        v.stage is Idle,
        !v.dry_run,
        paths_apart(v.paths, v.reserved),
        rendered.len() == v.apps.len(),
    ensures
        files_staged(
            v,
            rendered,
            files,
            files_after(files, actions_in_order(v, rendered)),
            v.apps.len() as int,
            v.apps.len() as int,
        ),
        forall|d: int|
            0 <= d < v.reserved.len() && !destinations(v.paths).contains(#[trigger] v.reserved[d])
                ==> unchanged(files, files_after(files, actions_in_order(v, rendered)), v.reserved[d]),
{
    let all = actions_in_order(v, rendered);
    lemma_files_in_order(v, rendered, files, all.len() as int);
    assert(all.take(all.len() as int) =~= all);
    let now = files_after(files, all);
    assert forall|d: int|
        0 <= d < v.reserved.len() && !destinations(v.paths).contains(
            #[trigger] v.reserved[d],
        ) implies unchanged(files, now, v.reserved[d]) by {
        let path = v.reserved[d];
        assert forall|i: int| 0 <= i < v.paths.len() implies path != (#[trigger] v.paths[i]).final_path by {
            assert(destinations(v.paths)[i] == v.paths[i].final_path);
        }
        assert forall|i: int| 0 <= i < v.paths.len() implies path != (#[trigger] v.paths[i]).temp_path by {
            assert(v.paths[i].temp_path != v.reserved[d]);
        }
        assert(unchanged(files, now, path));
    }
}

/// Where the renaming of the `j`-th file fails after all before it went
/// well, the first `j` destinations hold their new texts, and every other
/// destination of the configuration holds what it held.
pub proof fn lemma_files_after_commit_failure(
    v: PipelineView,
    rendered: Seq<Seq<char>>,
    files: Map<Seq<char>, Seq<char>>,
    j: int,
)
    requires
        v.wf(),
        v.paths_fit(),
        v.stage is Idle,
        !v.dry_run,
        paths_apart(v.paths, v.reserved),
        rendered.len() == v.apps.len(),
        0 <= j < v.apps.len(),
    ensures
        ({
            let now = files_after(
                files,
                actions_in_order(v, rendered).take(2 * v.apps.len() + j),
            );
            &&& forall|i: int|
                0 <= i < j ==> now.dom().contains((#[trigger] v.paths[i]).final_path)
                    && now[v.paths[i].final_path] == rendered[i]
            &&& forall|d: int|
                0 <= d < v.reserved.len() && !destinations(v.paths).take(j).contains(
                    #[trigger] v.reserved[d],
                ) ==> unchanged(files, now, v.reserved[d])
        }),
{
    let k = 2 * v.apps.len() + j;
    lemma_files_in_order(v, rendered, files, k);
    let now = files_after(files, actions_in_order(v, rendered).take(k));
    assert forall|d: int|
        0 <= d < v.reserved.len() && !destinations(v.paths).take(j).contains(
            #[trigger] v.reserved[d],
        ) implies unchanged(files, now, v.reserved[d]) by {
        let path = v.reserved[d];
        assert forall|i: int| 0 <= i < j implies path != (#[trigger] v.paths[i]).final_path by {
            assert(destinations(v.paths).take(j)[i] == v.paths[i].final_path);
        }
        assert forall|i: int| 0 <= i < v.paths.len() implies path != (#[trigger] v.paths[i]).temp_path by {
            assert(v.paths[i].temp_path != v.reserved[d]);
        }
        assert(unchanged(files, now, path));
    }
}

/// Where the writing of the `j`-th temporary file fails after all before
/// it went well, every destination of the configuration holds what it
/// held, whatever the failed write left at its temporary file.
pub proof fn lemma_files_after_stage_failure(
    v: PipelineView,
    rendered: Seq<Seq<char>>,
    files: Map<Seq<char>, Seq<char>>,
    j: int,
    left: Map<Seq<char>, Seq<char>>,
)
    requires
        v.wf(),
        v.paths_fit(),
        v.stage is Idle,
        !v.dry_run,
        paths_apart(v.paths, v.reserved),
        rendered.len() == v.apps.len(),
        0 <= j < v.apps.len(),
        forall|path: Seq<char>|
            path != v.paths[j].temp_path ==> #[trigger] unchanged(
                files_after(files, actions_in_order(v, rendered).take(v.apps.len() + j)),
                left,
                path,
            ),
    ensures
        forall|d: int| 0 <= d < v.reserved.len() ==> unchanged(files, left, #[trigger] v.reserved[d]),
{
    let k = v.apps.len() + j;
    lemma_files_in_order(v, rendered, files, k);
    let now = files_after(files, actions_in_order(v, rendered).take(k));
    assert forall|d: int| 0 <= d < v.reserved.len() implies unchanged(
        files,
        left,
        #[trigger] v.reserved[d],
    ) by {
        let path = v.reserved[d];
        assert forall|i: int| 0 <= i < v.paths.len() implies path != (#[trigger] v.paths[i]).temp_path by {
            assert(v.paths[i].temp_path != v.reserved[d]);
        }
        assert(unchanged(files, now, path));
        assert(unchanged(now, left, path));
    }
}

/// Where a key first stands in a list.
pub open spec fn first_at(keys: Seq<SignalKey>, key: SignalKey, at: int) -> bool {
    0 <= at < keys.len() && keys[at] == key && forall|j: int| 0 <= j < at ==> keys[j] != key
}

/// The unique keys of a list hold no key twice and never `Nothing`, and
/// they hold a key exactly if the list holds it.
pub proof fn lemma_unique_keys(keys: Seq<SignalKey>)
    ensures
        unique_keys(keys).no_duplicates(),
        forall|k: SignalKey|
            #[trigger] unique_keys(keys).contains(k) <==> keys.contains(k) && !(k is Nothing),
    decreases keys.len(),
{
    if keys.len() > 0 {
        let init = keys.drop_last();
        let last = keys.last();
        lemma_unique_keys(init);
        let u = unique_keys(init);
        assert forall|k: SignalKey| #[trigger]
            unique_keys(keys).contains(k) <==> keys.contains(k) && !(k is Nothing) by {
            if keys.contains(k) {
                let i = choose|i: int| 0 <= i < keys.len() && keys[i] == k;
                if i < keys.len() - 1 {
                    assert(init[i] == k);
                }
            }
            if init.contains(k) {
                let i = choose|i: int| 0 <= i < init.len() && init[i] == k;
                assert(keys[i] == k);
            }
            if u.contains(k) {
                let i = choose|i: int| 0 <= i < u.len() && u[i] == k;
                if unique_keys(keys) != u {
                    assert(unique_keys(keys)[i] == k);
                }
            }
            if unique_keys(keys).contains(k) && unique_keys(keys) != u {
                let i = choose|i: int| 0 <= i < unique_keys(keys).len() && unique_keys(keys)[i] == k;
                if i < u.len() {
                    assert(u[i] == k);
                } else {
                    assert(k == last);
                    assert(keys[keys.len() - 1] == k);
                }
            }
            if k == last && !(k is Nothing) && !u.contains(k) {
                assert(unique_keys(keys)[u.len() as int] == k);
            }
        }
    }
}

/// Applications that ask for the same reload share one dispatch: the key
/// they share stands at exactly one place among the unique keys.
pub proof fn lemma_shared_signal_once(keys: Seq<SignalKey>, i: int, j: int)
    requires
        0 <= i < j < keys.len(),
        keys[i] == keys[j],
        !(keys[i] is Nothing),
    ensures
        exists|at: int|
            0 <= at < unique_keys(keys).len() && #[trigger] unique_keys(keys)[at] == keys[i]
                && forall|other: int|
                0 <= other < unique_keys(keys).len() && unique_keys(keys)[other] == keys[i] ==> other
                    == at,
{
    lemma_unique_keys(keys);
    let u = unique_keys(keys);
    assert(keys.contains(keys[i]));
    assert(u.contains(keys[i]));
    let at = choose|at: int| 0 <= at < u.len() && u[at] == keys[i];
    assert(u[at] == keys[i]);
}

/// The unique keys stand in the order in which the list first names them.
pub proof fn lemma_unique_keys_order(keys: Seq<SignalKey>, a: int, b: int)
    requires
        0 <= a < b < unique_keys(keys).len(),
    ensures
        exists|x: int, y: int|
            x < y && #[trigger] first_at(keys, unique_keys(keys)[a], x) && #[trigger] first_at(
                keys,
                unique_keys(keys)[b],
                y,
            ),
    decreases keys.len(),
{
    if keys.len() > 0 {
        let init = keys.drop_last();
        let last = keys.last();
        let u = unique_keys(init);
        lemma_unique_keys(init);
        if b < u.len() {
            lemma_unique_keys_order(init, a, b);
            let (x, y) = choose|x: int, y: int|
                x < y && #[trigger] first_at(init, u[a], x) && #[trigger] first_at(init, u[b], y);
            lemma_first_at_longer(keys, u[a], x);
            lemma_first_at_longer(keys, u[b], y);
            assert(first_at(keys, unique_keys(keys)[a], x));
            assert(first_at(keys, unique_keys(keys)[b], y));
        } else {
            assert(unique_keys(keys)[b] == last);
            assert(!init.contains(last));
            assert(first_at(keys, last, keys.len() - 1)) by {
                assert forall|j: int| 0 <= j < keys.len() - 1 implies keys[j] != last by {
                    assert(init[j] == keys[j]);
                }
            }
            assert(u.contains(u[a]));
            assert(init.contains(u[a]));
            lemma_first_exists(init, u[a]);
            let x = choose|x: int| first_at(init, u[a], x);
            lemma_first_at_longer(keys, u[a], x);
            assert(first_at(keys, unique_keys(keys)[a], x));
        }
    }
}

proof fn lemma_first_at_longer(keys: Seq<SignalKey>, key: SignalKey, x: int)
    requires
        keys.len() > 0,
        first_at(keys.drop_last(), key, x),
    ensures
        first_at(keys, key, x),
{
    let init = keys.drop_last();
    assert(keys[x] == init[x]);
    assert forall|j: int| 0 <= j < x implies keys[j] != key by {
        assert(init[j] == keys[j]);
    }
}

proof fn lemma_first_exists(keys: Seq<SignalKey>, key: SignalKey)
    requires
        keys.contains(key),
    ensures
        exists|x: int| first_at(keys, key, x),
    decreases keys.len(),
{
    let init = keys.drop_last();
    if init.contains(key) {
        lemma_first_exists(init, key);
        let x = choose|x: int| first_at(init, key, x);
        lemma_first_at_longer(keys, key, x);
    } else {
        let i = choose|i: int| 0 <= i < keys.len() && keys[i] == key;
        if i < keys.len() - 1 {
            assert(init[i] == key);
        }
        assert(first_at(keys, key, keys.len() - 1)) by {
            assert forall|j: int| 0 <= j < keys.len() - 1 implies keys[j] != key by {
                assert(init[j] == keys[j]);
            }
        }
    }
}


/// One program to run for a reload.
#[derive(Debug)]
pub struct Command {
    pub program: String,
    pub args: Vec<String>,
    /// Milliseconds to wait before the program is started.
    pub delay_ms: u64,
    /// Whether to wait for the program to end; one that is not waited for
    /// keeps running.
    pub wait: bool,
}

pub struct CommandView {
    pub program: Seq<char>,
    pub args: Seq<Seq<char>>,
    pub delay_ms: u64,
    pub wait: bool,
}

impl View for Command {
    type V = CommandView;

    open spec fn view(&self) -> CommandView {
        CommandView {
            program: self.program@,
            args: texts(self.args@),
            delay_ms: self.delay_ms,
            wait: self.wait,
        }
    }
}

/// The views of a list of commands.
pub open spec fn command_views(commands: Seq<Command>) -> Seq<CommandView> {
    Seq::new(commands.len(), |i: int| commands[i]@)
}

/// The programs that deliver a reload signal, in the order in which they
/// run: the compositor and the notification daemon reload on request, the
/// wallpaper daemon is stopped and, half a second later, started again, and
/// a named program is sent the second user signal.
pub open spec fn commands_for(signal: SignalKey) -> Seq<CommandView> {
    match signal {
        SignalKey::Hyprctl => seq![
            CommandView { program: "hyprctl"@, args: seq!["reload"@], delay_ms: 0, wait: true },
        ],
        SignalKey::Hyprpaper => seq![
            CommandView { program: "pkill"@, args: seq!["hyprpaper"@], delay_ms: 0, wait: true },
            CommandView { program: "hyprpaper"@, args: Seq::empty(), delay_ms: 500, wait: false },
        ],
        SignalKey::Signal(target) => seq![
            CommandView { program: "pkill"@, args: seq!["-SIGUSR2"@, target], delay_ms: 0, wait: true },
        ],
        SignalKey::Makoctl => seq![
            CommandView { program: "makoctl"@, args: seq!["reload"@], delay_ms: 0, wait: true },
        ],
        SignalKey::Nothing => Seq::empty(),
    }
}

fn command(program: &str, first: Option<&str>, second: Option<&str>, delay_ms: u64, wait: bool) -> (r:
    Command)
    ensures
        r@ == (CommandView {
            program: program@,
            args: match (first, second) {
                (Some(a), Some(b)) => seq![a@, b@],
                (Some(a), None) => seq![a@],
                (None, Some(b)) => seq![b@],
                (None, None) => Seq::empty(),
            },
            delay_ms,
            wait,
        }),
{
    let mut args: Vec<String> = Vec::new();
    match first {
        Some(a) => {
            args.push(a.to_owned());
        },
        None => {},
    }
    match second {
        Some(b) => {
            args.push(b.to_owned());
        },
        None => {},
    }
    let r = Command { program: program.to_owned(), args, delay_ms, wait };
    assert(r@.args =~= match (first, second) {
        (Some(a), Some(b)) => seq![a@, b@],
        (Some(a), None) => seq![a@],
        (None, Some(b)) => seq![b@],
        (None, None) => Seq::empty(),
    });
    r
}

/// The programs that deliver a reload signal, in the order in which they
/// run.
pub fn send_reload_signal(signal: &ReloadSignal) -> (r: Vec<Command>)
    ensures
        command_views(r@) == commands_for(signal@),
{
    let mut out: Vec<Command> = Vec::new();
    match signal {
        ReloadSignal::Hyprctl => {
            out.push(command("hyprctl", Some("reload"), None, 0, true));
        },
        ReloadSignal::Hyprpaper => {
            out.push(command("pkill", Some("hyprpaper"), None, 0, true));
            out.push(command("hyprpaper", None, None, 500, false));
        },
        ReloadSignal::Signal { signal } => {
            out.push(command("pkill", Some("-SIGUSR2"), Some(signal.as_str()), 0, true));
        },
        ReloadSignal::Makoctl => {
            out.push(command("makoctl", Some("reload"), None, 0, true));
        },
        ReloadSignal::Nothing => {},
    }
    assert(command_views(out@) =~= commands_for(signal@));
    out
}

/// The applications with the texts rendered for them.
pub open spec fn output_views(outputs: Seq<RenderedOutput>) -> Seq<(AppView, Seq<char>)> {
    Seq::new(outputs.len(), |i: int| (outputs[i].app@, outputs[i].content@))
}

impl DeploymentPipeline {
    /// The applications rendered so far, each with its text, in the order
    /// of the configuration.
    pub fn outputs(&self) -> (r: Vec<RenderedOutput>)
        requires
            self.wf(),
        ensures
            r.len() == self@.renders.len(),
            forall|i: int|
                0 <= i < r.len() ==> (#[trigger] output_views(r@)[i]) == (
                    self@.apps[i],
                    self@.renders[i],
                ),
    {
        let mut out: Vec<RenderedOutput> = Vec::new();
        let mut i: usize = 0;
        assert(self@.renders.len() == self.renders@.len());
        assert(self@.apps.len() == self.apps@.len());
        while i < self.renders.len()
            invariant
                i <= self.renders.len(),
                self.renders@.len() <= self.apps@.len(),
                out.len() == i,
                forall|k: int|
                    0 <= k < i ==> (#[trigger] output_views(out@)[k]) == (
                        self@.apps[k],
                        self@.renders[k],
                    ),
            decreases self.renders.len() - i,
        {
            let ghost before = out@;
            out.push(RenderedOutput { app: self.apps[i].clone(), content: self.renders[i].clone() });
            assert forall|k: int| 0 <= k < i + 1 implies (#[trigger] output_views(out@)[k]) == (
                self@.apps[k],
                self@.renders[k],
            ) by {
                if k < i {
                    assert(output_views(out@)[k] == output_views(before)[k]);
                }
            }
            i += 1;
        }
        out
    }
}

} // verus!
