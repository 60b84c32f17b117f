//! Loading: the decisions on the way from a path to a model.
use crate::text::{lower, lower_text, same_text, views};
use crate::types::{FitParams, LoadError, LoadErrorView};
use vstd::prelude::*;
use vstd::string::*;

verus! {

/// A device that a model can be offloaded to.
pub struct Device {
    /// The index of the device.
    pub index: usize,
    /// The name of the backend that runs it.
    pub backend: String,
}

/// The view of a [`Device`].
pub struct DeviceView {
    pub index: usize,
    pub backend: Seq<char>,
}

impl View for Device {
    type V = DeviceView;

    open spec fn view(&self) -> DeviceView {
        DeviceView { index: self.index, backend: self.backend@ }
    }
}

/// The indices of the devices that the Vulkan backend runs, however its name is
/// cased, in order.
pub open spec fn vulkan_indices(devices: Seq<DeviceView>) -> Seq<usize>
    decreases devices.len(),
{
    if devices.len() == 0 {
        Seq::empty()
    } else {
        let before = vulkan_indices(devices.drop_last());
        if lower(devices.last().backend) == lower("vulkan"@) {
            before.push(devices.last().index)
        } else {
            before
        }
    }
}

/// Lists [`vulkan_indices`].
pub fn vulkan_devices(devices: &Vec<Device>) -> (indices: Vec<usize>)
    ensures
        indices@ == vulkan_indices(views(devices@)),
{
    let ghost all = views(devices@);
    let vulkan = lower_text("vulkan");
    let mut indices: Vec<usize> = Vec::new();
    let mut i: usize = 0;
    while i < devices.len()
        invariant
            i <= devices@.len(),
            all == views(devices@),
            vulkan@ == lower("vulkan"@),
            indices@ == vulkan_indices(all.take(i as int)),
        decreases devices@.len() - i,
    {
        assert(all.take(i + 1).drop_last() =~= all.take(i as int));
        assert(all.take(i + 1).last() == devices@[i as int]@);
        let backend = lower_text(devices[i].backend.as_str());
        if same_text(backend.as_str(), vulkan.as_str()) {
            indices.push(devices[i].index);
        }
        i = i + 1;
    }
    assert(all.take(i as int) =~= all);
    indices
}

/// The memory that is left free on a device, in bytes, where nothing is said: 1 GiB.
pub const DEFAULT_MARGIN: usize = 1073741824;

/// The margin of each of `max_devices` devices: what is given for it, or the default.
pub open spec fn device_margins(margins: Option<Seq<usize>>, max_devices: usize) -> Seq<usize> {
    Seq::new(
        max_devices as nat,
        |i: int|
            if margins is Some && i < margins->0.len() {
                margins->0[i]
            } else {
                DEFAULT_MARGIN
            },
    )
}

/// Lists [`device_margins`].
pub fn fit_margins(margins: Option<&Vec<usize>>, max_devices: usize) -> (all: Vec<usize>)
    ensures
        all@ == device_margins(
            match margins {
                Some(margins) => Some(margins@),
                None => None,
            },
            max_devices,
        ),
{
    let ghost wanted = device_margins(
        match margins {
            Some(margins) => Some(margins@),
            None => None,
        },
        max_devices,
    );
    let mut all: Vec<usize> = Vec::new();
    let mut i: usize = 0;
    while i < max_devices
        invariant
            i <= max_devices,
            wanted == device_margins(
                match margins {
                    Some(margins) => Some(margins@),
                    None => None,
                },
                max_devices,
            ),
            all@ == wanted.take(i as int),
        decreases max_devices - i,
    {
        let margin: usize = match margins {
            Some(margins) if i < margins.len() => margins[i],
            _ => DEFAULT_MARGIN,
        };
        all.push(margin);
        assert(wanted.take(i + 1) =~= wanted.take(i as int).push(wanted[i as int]));
        i = i + 1;
    }
    assert(wanted.take(i as int) =~= wanted);
    all
}

/// Why the parameters of a model could not be fitted to the memory.
pub enum FitFailure {
    /// No parameters fit; the text is the error in words.
    Failure(String),
    /// Fitting went wrong; the text is the error in words.
    Error(String),
}

/// What loading does next.
pub enum LoadAction {
    /// Restrict the model to these devices.
    Configure(Vec<usize>),
    /// Turn the path into a C string.
    CheckPath,
    /// Fit the parameters to the memory, with these margins, for a context of
    /// the size `n_ctx`, which is chosen where it is 0, but of no fewer than
    /// `n_ctx_min` tokens.
    Fit { margins: Vec<usize>, n_ctx: u32, n_ctx_min: u32 },
    /// Load the model.
    Load,
    /// Load the multimodal projector.
    Project,
    /// The model is loaded, with a context of this size.
    Done { n_ctx: u32 },
    /// Give up.
    Fail(LoadError),
}

/// The view of a [`LoadAction`].
pub enum LoadActionView {
    Configure(Seq<usize>),
    CheckPath,
    Fit { margins: Seq<usize>, n_ctx: u32, n_ctx_min: u32 },
    Load,
    Project,
    Done { n_ctx: u32 },
    Fail(LoadErrorView),
}

impl View for LoadAction {
    type V = LoadActionView;

    open spec fn view(&self) -> LoadActionView {
        match self {
            LoadAction::Configure(devices) => LoadActionView::Configure(devices@),
            LoadAction::CheckPath => LoadActionView::CheckPath,
            LoadAction::Fit { margins, n_ctx, n_ctx_min } => LoadActionView::Fit {
                margins: margins@,
                n_ctx: *n_ctx,
                n_ctx_min: *n_ctx_min,
            },
            LoadAction::Load => LoadActionView::Load,
            LoadAction::Project => LoadActionView::Project,
            LoadAction::Done { n_ctx } => LoadActionView::Done { n_ctx: *n_ctx },
            LoadAction::Fail(error) => LoadActionView::Fail(error@),
        }
    }
}

/// What came of an action; an error comes with its text.
pub enum LoadEvent {
    /// The devices were configured, or were not.
    Configured(Result<(), String>),
    /// The path is a valid C string, or is not.
    PathChecked(Result<(), String>),
    /// The parameters were fitted, with a context of this size, or were not.
    Fitted(Result<u32, FitFailure>),
    /// The model was loaded, or was not.
    Loaded(Result<(), String>),
    /// The projector was loaded, or was not.
    Projected(Result<(), String>),
}

/// Where loading stands: which event it waits for.
#[derive(Clone, Copy, PartialEq, Eq, Structural)]
pub enum LoadPhase {
    /// The devices are being configured.
    Configuring,
    /// The path is being turned into a C string.
    CheckingPath,
    /// The parameters are being fitted.
    Fitting,
    /// The model is being loaded.
    Loading,
    /// The projector is being loaded.
    Projecting,
    /// Nothing is left to do.
    Ended,
}

/// A model that is being loaded.
pub struct ModelLoad {
    phase: LoadPhase,
    margins: Option<Vec<usize>>,
    max_devices: usize,
    has_projector: bool,
    n_ctx: u32,
    n_ctx_min: u32,
}

/// The view of a [`ModelLoad`].
pub struct ModelLoadView {
    /// Where loading stands.
    pub phase: LoadPhase,
    /// The margins that were asked for.
    pub margins: Option<Seq<usize>>,
    /// The number of devices that there can be.
    pub max_devices: usize,
    /// Whether the model comes with a projector.
    pub has_projector: bool,
    /// The size of the context: what was asked for, and once the parameters are
    /// fitted, what was chosen.
    pub n_ctx: u32,
    /// The least size of the context that was asked for.
    pub n_ctx_min: u32,
}

impl View for ModelLoad {
    type V = ModelLoadView;

    closed spec fn view(&self) -> ModelLoadView {
        ModelLoadView {
            phase: self.phase,
            margins: match self.margins {
                Some(margins) => Some(margins@),
                None => None,
            },
            max_devices: self.max_devices,
            has_projector: self.has_projector,
            n_ctx: self.n_ctx,
            n_ctx_min: self.n_ctx_min,
        }
    }
}

impl ModelLoadView {
    /// Whether loading waits for such an event.
    pub open spec fn expects(self, event: LoadEvent) -> bool {
        match self.phase {
            LoadPhase::Configuring => event is Configured,
            LoadPhase::CheckingPath => event is PathChecked,
            LoadPhase::Fitting => event is Fitted,
            LoadPhase::Loading => event is Loaded,
            LoadPhase::Projecting => event is Projected,
            LoadPhase::Ended => false,
        }
    }

    /// Loading at another phase.
    pub open spec fn at(self, phase: LoadPhase) -> ModelLoadView {
        ModelLoadView { phase, ..self }
    }

    /// Loading that ended with an error.
    pub open spec fn failed(self, error: LoadErrorView) -> (ModelLoadView, LoadActionView) {
        (self.at(LoadPhase::Ended), LoadActionView::Fail(error))
    }

    /// Loading that ended well.
    pub open spec fn done(self) -> (ModelLoadView, LoadActionView) {
        (self.at(LoadPhase::Ended), LoadActionView::Done { n_ctx: self.n_ctx })
    }

    /// Loading after `event`, and what to do next: the devices, the path, the
    /// parameters, the model and the projector, where there is one, come in
    /// this order, and the first error ends it.
    pub open spec fn after(self, event: LoadEvent) -> (ModelLoadView, LoadActionView) {
        match event {
            LoadEvent::Configured(Ok(_)) => (
                self.at(LoadPhase::CheckingPath),
                LoadActionView::CheckPath,
            ),
            LoadEvent::Configured(Err(text)) => self.failed(LoadErrorView::ConfigureDevices(text@)),
            LoadEvent::PathChecked(Ok(_)) => (
                self.at(LoadPhase::Fitting),
                LoadActionView::Fit {
                    margins: device_margins(self.margins, self.max_devices),
                    n_ctx: self.n_ctx,
                    n_ctx_min: self.n_ctx_min,
                },
            ),
            LoadEvent::PathChecked(Err(text)) => self.failed(LoadErrorView::InvalidPath(text@)),
            LoadEvent::Fitted(Ok(n_ctx)) => (
                ModelLoadView { n_ctx, ..self.at(LoadPhase::Loading) },
                LoadActionView::Load,
            ),
            LoadEvent::Fitted(Err(FitFailure::Failure(text))) => self.failed(
                LoadErrorView::Fit("Failure: "@ + text@),
            ),
            LoadEvent::Fitted(Err(FitFailure::Error(text))) => self.failed(
                LoadErrorView::Fit("Error: "@ + text@),
            ),
            LoadEvent::Loaded(Ok(_)) => if self.has_projector {
                (self.at(LoadPhase::Projecting), LoadActionView::Project)
            } else {
                self.done()
            },
            LoadEvent::Loaded(Err(text)) => self.failed(LoadErrorView::ModelLoad(text@)),
            LoadEvent::Projected(Ok(_)) => self.done(),
            LoadEvent::Projected(Err(text)) => self.failed(LoadErrorView::MmprojInit(text@)),
        }
    }
}

/// How loading starts, where the model is asked for with these settings.
pub open spec fn load_start(
    gpu_offload: bool,
    devices: Seq<DeviceView>,
    n_ctx: u32,
    margins: Option<Seq<usize>>,
    n_ctx_min: u32,
    max_devices: usize,
    has_projector: bool,
) -> (ModelLoadView, LoadActionView) {
    let load = ModelLoadView {
        phase: LoadPhase::CheckingPath,
        margins,
        max_devices,
        has_projector,
        n_ctx,
        n_ctx_min,
    };
    if gpu_offload && vulkan_indices(devices).len() > 0 {
        (load.at(LoadPhase::Configuring), LoadActionView::Configure(vulkan_indices(devices)))
    } else {
        (load, LoadActionView::CheckPath)
    }
}

/// Loading is restricted to the Vulkan devices, all of them, exactly where the
/// backend offloads and there are any; either way it keeps what was asked for,
/// and waits for what came of its first action.
pub proof fn law_loading_starts_with_the_devices(
    gpu_offload: bool,
    devices: Seq<DeviceView>,
    n_ctx: u32,
    margins: Option<Seq<usize>>,
    n_ctx_min: u32,
    max_devices: usize,
    has_projector: bool,
)
    ensures
        ({
            let (load, action) = load_start(
                gpu_offload,
                devices,
                n_ctx,
                margins,
                n_ctx_min,
                max_devices,
                has_projector,
            );
            let restricted = gpu_offload && vulkan_indices(devices).len() > 0;
            &&& restricted ==> action == LoadActionView::Configure(vulkan_indices(devices))
            &&& restricted ==> load.expects(LoadEvent::Configured(Ok(())))
            &&& !restricted ==> action is CheckPath
            &&& !restricted ==> load.expects(LoadEvent::PathChecked(Ok(())))
            &&& load.n_ctx == n_ctx
            &&& load.n_ctx_min == n_ctx_min
            &&& load.margins == margins
            &&& load.max_devices == max_devices
            &&& load.has_projector == has_projector
        }),
{
}

impl ModelLoad {
    /// Starts to load a model. Where the backend can offload to a GPU, the
    /// model is restricted to the Vulkan devices, if there are any. `n_ctx` is
    /// the size of the context that is asked for.
    pub fn start(
        gpu_offload: bool,
        devices: &Vec<Device>,
        n_ctx: u32,
        fit: &FitParams,
        max_devices: usize,
        has_projector: bool,
    ) -> (started: (Self, LoadAction))
        ensures
            started.0@.margins == (match fit.margins {
                Some(margins) => Some(margins@),
                None => None,
            }),
            started.0@.max_devices == max_devices,
            started.0@.has_projector == has_projector,
            started.0@.n_ctx == n_ctx,
            started.0@.n_ctx_min == fit.n_ctx_min,
            if gpu_offload && vulkan_indices(views(devices@)).len() > 0 {
                &&& started.0@.phase == LoadPhase::Configuring
                &&& started.1@ == LoadActionView::Configure(vulkan_indices(views(devices@)))
            } else {
                &&& started.0@.phase == LoadPhase::CheckingPath
                &&& started.1@ == LoadActionView::CheckPath
            },
            (started.0@, started.1@) == load_start(
                gpu_offload,
                views(devices@),
                n_ctx,
                match fit.margins {
                    Some(margins) => Some(margins@),
                    None => None,
                },
                fit.n_ctx_min,
                max_devices,
                has_projector,
            ),
    {
        let margins = match &fit.margins {
            Some(margins) => {
                let copy = margins.clone();
                assert(copy@ =~= margins@);
                Some(copy)
            },
            None => None,
        };
        let mut load = ModelLoad {
            phase: LoadPhase::CheckingPath,
            margins,
            max_devices,
            has_projector,
            n_ctx,
            n_ctx_min: fit.n_ctx_min,
        };
        if gpu_offload {
            let indices = vulkan_devices(devices);
            if indices.len() > 0 {
                load.phase = LoadPhase::Configuring;
                return (load, LoadAction::Configure(indices));
            }
        }
        (load, LoadAction::CheckPath)
    }

    /// Takes in what came of the last action and decides what to do next.
    pub fn step(&mut self, event: LoadEvent) -> (action: LoadAction)
        requires
            old(self)@.expects(event),
        ensures
            (final(self)@, action@) == old(self)@.after(event),
    {
        match event {
            LoadEvent::Configured(Ok(_)) => {
                self.phase = LoadPhase::CheckingPath;
                LoadAction::CheckPath
            },
            LoadEvent::Configured(Err(text)) => {
                self.phase = LoadPhase::Ended;
                LoadAction::Fail(LoadError::ConfigureDevices(text))
            },
            LoadEvent::PathChecked(Ok(_)) => {
                let margins = fit_margins(self.margins.as_ref(), self.max_devices);
                self.phase = LoadPhase::Fitting;
                LoadAction::Fit { margins, n_ctx: self.n_ctx, n_ctx_min: self.n_ctx_min }
            },
            LoadEvent::PathChecked(Err(text)) => {
                self.phase = LoadPhase::Ended;
                LoadAction::Fail(LoadError::InvalidPath(text))
            },
            LoadEvent::Fitted(Ok(n_ctx)) => {
                self.n_ctx = n_ctx;
                self.phase = LoadPhase::Loading;
                LoadAction::Load
            },
            LoadEvent::Fitted(Err(FitFailure::Failure(text))) => {
                let mut error = "Failure: ".to_owned();
                error.append(text.as_str());
                self.phase = LoadPhase::Ended;
                LoadAction::Fail(LoadError::Fit(error))
            },
            LoadEvent::Fitted(Err(FitFailure::Error(text))) => {
                let mut error = "Error: ".to_owned();
                error.append(text.as_str());
                self.phase = LoadPhase::Ended;
                LoadAction::Fail(LoadError::Fit(error))
            },
            LoadEvent::Loaded(Ok(_)) => {
                if self.has_projector {
                    self.phase = LoadPhase::Projecting;
                    LoadAction::Project
                } else {
                    self.phase = LoadPhase::Ended;
                    LoadAction::Done { n_ctx: self.n_ctx }
                }
            },
            LoadEvent::Loaded(Err(text)) => {
                self.phase = LoadPhase::Ended;
                LoadAction::Fail(LoadError::ModelLoad(text))
            },
            LoadEvent::Projected(Ok(_)) => {
                self.phase = LoadPhase::Ended;
                LoadAction::Done { n_ctx: self.n_ctx }
            },
            LoadEvent::Projected(Err(text)) => {
                self.phase = LoadPhase::Ended;
                LoadAction::Fail(LoadError::MmprojInit(text))
            },
        }
    }
}

/// However loading gets to fitting, it fits with the margin of each device and
/// with the sizes of the context that were asked for.
pub proof fn law_fitting_gets_what_was_asked_for(load: ModelLoadView)
    requires
        load.phase == LoadPhase::Configuring || load.phase == LoadPhase::CheckingPath,
    ensures
        ({
            let checking = if load.phase == LoadPhase::Configuring {
                load.after(LoadEvent::Configured(Ok(()))).0
            } else {
                load
            };
            checking.after(LoadEvent::PathChecked(Ok(()))).1 == LoadActionView::Fit {
                margins: device_margins(load.margins, load.max_devices),
                n_ctx: load.n_ctx,
                n_ctx_min: load.n_ctx_min,
            }
        }),
{
}

/// A model that is loaded runs with the context that fitting chose, and its
/// projector, where it has one, is loaded after it.
pub proof fn law_loaded_models_were_fitted(load: ModelLoadView, n_ctx: u32)
    requires
        load.phase == LoadPhase::Fitting,
    ensures
        ({
            let fitted = load.after(LoadEvent::Fitted(Ok(n_ctx))).0;
            let (loaded, next) = fitted.after(LoadEvent::Loaded(Ok(())));
            &&& !load.has_projector ==> next == LoadActionView::Done { n_ctx }
            &&& load.has_projector ==> next is Project && loaded.after(
                LoadEvent::Projected(Ok(())),
            ).1 == LoadActionView::Done { n_ctx }
        }),
{
}

/// The first error ends loading.
pub proof fn law_errors_end_loading(load: ModelLoadView, event: LoadEvent)
    requires
        load.expects(event),
    ensures
        load.after(event).1 is Fail ==> load.after(event).0.phase == LoadPhase::Ended,
        load.after(event).1 is Fail <==> match event {
            LoadEvent::Configured(outcome) => outcome is Err,
            LoadEvent::PathChecked(outcome) => outcome is Err,
            LoadEvent::Fitted(outcome) => outcome is Err,
            LoadEvent::Loaded(outcome) => outcome is Err,
            LoadEvent::Projected(outcome) => outcome is Err,
        },
{
}

/// The Vulkan devices of two lists, one after the other, are those of the first
/// and then those of the second; a device is one where its backend is so named,
/// in capitals or not.
pub proof fn law_every_vulkan_device_is_listed(
    left: Seq<DeviceView>,
    right: Seq<DeviceView>,
    device: DeviceView,
)
    ensures
        vulkan_indices(left + right) == vulkan_indices(left) + vulkan_indices(right),
        lower(device.backend) == "vulkan"@ ==> vulkan_indices(seq![device]) == seq![device.index],
        lower(device.backend) != "vulkan"@ ==> vulkan_indices(seq![device]) == Seq::<usize>::empty(),
    decreases right.len(),
{
    reveal_strlit("vulkan");
    assert(lower("vulkan"@) =~= "vulkan"@);
    reveal_with_fuel(vulkan_indices, 2);
    assert(seq![device].drop_last() =~= Seq::empty());
    if right.len() == 0 {
        assert(left + right =~= left);
        assert(vulkan_indices(left) + vulkan_indices(right) =~= vulkan_indices(left));
    } else {
        assert((left + right).drop_last() =~= left + right.drop_last());
        law_every_vulkan_device_is_listed(left, right.drop_last(), device);
        assert(vulkan_indices(left + right) =~= vulkan_indices(left) + vulkan_indices(right));
    }
}

/// Every device has a margin: the one that was given for its place, and 1 GiB
/// where none was.
pub proof fn law_every_device_has_its_margin(given: Seq<usize>, max_devices: usize)
    ensures
        device_margins(Some(given), max_devices).len() == max_devices,
        device_margins(None, max_devices).len() == max_devices,
        forall|i: int|
            0 <= i < max_devices && i < given.len() ==> #[trigger] device_margins(
                Some(given),
                max_devices,
            )[i] == given[i],
        forall|i: int|
            given.len() <= i < max_devices ==> #[trigger] device_margins(Some(given), max_devices)[i]
                == 1024 * 1024 * 1024,
        forall|i: int|
            0 <= i < max_devices ==> #[trigger] device_margins(None, max_devices)[i] == 1024 * 1024
                * 1024,
{
}

/// Each step that fails is reported as just that step, with its text.
pub proof fn law_errors_say_which_step_failed(load: ModelLoadView, text: String)
    ensures
        load.after(LoadEvent::Configured(Err(text))).1 == LoadActionView::Fail(
            LoadErrorView::ConfigureDevices(text@),
        ),
        load.after(LoadEvent::PathChecked(Err(text))).1 == LoadActionView::Fail(
            LoadErrorView::InvalidPath(text@),
        ),
        load.after(LoadEvent::Fitted(Err(FitFailure::Failure(text)))).1 == LoadActionView::Fail(
            LoadErrorView::Fit("Failure: "@ + text@),
        ),
        load.after(LoadEvent::Fitted(Err(FitFailure::Error(text)))).1 == LoadActionView::Fail(
            LoadErrorView::Fit("Error: "@ + text@),
        ),
        load.after(LoadEvent::Loaded(Err(text))).1 == LoadActionView::Fail(
            LoadErrorView::ModelLoad(text@),
        ),
        load.after(LoadEvent::Projected(Err(text))).1 == LoadActionView::Fail(
            LoadErrorView::MmprojInit(text@),
        ),
{
}

/// The steps come in one order, and what was asked for stays as it was but for
/// the size of the context, which fitting chooses.
pub proof fn law_loading_goes_step_by_step(load: ModelLoadView, event: LoadEvent, n_ctx: u32)
    ensures
        load.after(LoadEvent::Configured(Ok(()))).1 is CheckPath,
        load.after(LoadEvent::Configured(Ok(()))).0.phase == LoadPhase::CheckingPath,
        load.after(LoadEvent::PathChecked(Ok(()))).0.phase == LoadPhase::Fitting,
        load.after(LoadEvent::Fitted(Ok(n_ctx))).1 is Load,
        load.after(LoadEvent::Fitted(Ok(n_ctx))).0.phase == LoadPhase::Loading,
        load.after(LoadEvent::Fitted(Ok(n_ctx))).0.n_ctx == n_ctx,
        load.after(event).0.margins == load.margins,
        load.after(event).0.max_devices == load.max_devices,
        load.after(event).0.has_projector == load.has_projector,
        load.after(event).0.n_ctx_min == load.n_ctx_min,
        !(event is Fitted) ==> load.after(event).0.n_ctx == load.n_ctx,
        load.after(event).1 is Done ==> load.after(event).0.phase == LoadPhase::Ended,
{
}

/// What a device or an action shows is what it holds.
pub proof fn law_load_actions_show_what_they_hold(device: Device, action: LoadAction)
    ensures
        device@.index == device.index,
        device@.backend == device.backend@,
        action matches LoadAction::Configure(devices) ==> action@ == LoadActionView::Configure(
            devices@,
        ),
        action is CheckPath ==> action@ is CheckPath,
        action matches LoadAction::Fit { margins, n_ctx, n_ctx_min } ==> action@ == (
        LoadActionView::Fit { margins: margins@, n_ctx, n_ctx_min }),
        action is Load ==> action@ is Load,
        action is Project ==> action@ is Project,
        action matches LoadAction::Done { n_ctx } ==> action@ == (LoadActionView::Done { n_ctx }),
        action matches LoadAction::Fail(error) ==> action@ == LoadActionView::Fail(error@),
{
}

}
