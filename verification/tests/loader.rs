use rig_llama_cpp::loader::{
    fit_margins, vulkan_devices, Device, FitFailure, LoadAction, LoadEvent, ModelLoad,
    DEFAULT_MARGIN,
};
use rig_llama_cpp::{FitParams, LoadError};

fn devices() -> Vec<Device> {
    [(0, "CPU"), (1, "Vulkan"), (2, "cuda"), (3, "VULKAN")]
        .into_iter()
        .map(|(index, backend)| Device { index, backend: backend.to_string() })
        .collect()
}

#[test]
fn vulkan_devices_are_found_in_any_case() {
    assert_eq!(vulkan_devices(&devices()), vec![1, 3]);
    assert!(vulkan_devices(&Vec::new()).is_empty());
}

#[test]
fn margins_are_resized_to_the_devices() {
    assert_eq!(DEFAULT_MARGIN, 1 << 30);
    assert_eq!(fit_margins(None, 2), vec![1 << 30, 1 << 30]);
    assert_eq!(fit_margins(Some(&vec![5]), 3), vec![5, 1 << 30, 1 << 30]);
    assert_eq!(fit_margins(Some(&vec![5, 6]), 1), vec![5]);
}

#[test]
fn model_is_loaded_step_by_step() {
    let fit = FitParams::default().with_margins(Some(vec![7])).with_n_ctx_min(512);
    let (mut load, action) = ModelLoad::start(true, &devices(), 9000, &fit, 2, true);
    assert!(matches!(action, LoadAction::Configure(indices) if indices == vec![1, 3]));
    assert!(matches!(load.step(LoadEvent::Configured(Ok(()))), LoadAction::CheckPath));
    let action = load.step(LoadEvent::PathChecked(Ok(())));
    assert!(matches!(
        action,
        LoadAction::Fit { margins, n_ctx: 9000, n_ctx_min: 512 } if margins == vec![7, 1 << 30]
    ));
    assert!(matches!(load.step(LoadEvent::Fitted(Ok(2048))), LoadAction::Load));
    assert!(matches!(load.step(LoadEvent::Loaded(Ok(()))), LoadAction::Project));
    assert!(matches!(load.step(LoadEvent::Projected(Ok(()))), LoadAction::Done { n_ctx: 2048 }));
}

#[test]
fn devices_and_projector_are_optional() {
    let fit = FitParams::default();
    let (mut load, action) = ModelLoad::start(false, &devices(), 0, &fit, 0, false);
    assert!(matches!(action, LoadAction::CheckPath));
    let action = load.step(LoadEvent::PathChecked(Ok(())));
    assert!(matches!(
        action,
        LoadAction::Fit { margins, n_ctx: 0, n_ctx_min: 4096 } if margins.is_empty()
    ));
    load.step(LoadEvent::Fitted(Ok(1)));
    assert!(matches!(load.step(LoadEvent::Loaded(Ok(()))), LoadAction::Done { n_ctx: 1 }));
    let (_, action) = ModelLoad::start(true, &Vec::new(), 0, &fit, 0, false);
    assert!(matches!(action, LoadAction::CheckPath));
}

fn failure(events: Vec<LoadEvent>) -> LoadError {
    let (mut load, _) = ModelLoad::start(true, &devices(), 1, &FitParams::default(), 1, true);
    for event in events {
        if let LoadAction::Fail(error) = load.step(event) {
            return error;
        }
    }
    panic!("expected a failure")
}

#[test]
fn load_errors_name_the_step() {
    let text = || "e".to_string();
    assert!(matches!(
        failure(vec![LoadEvent::Configured(Err(text()))]),
        LoadError::ConfigureDevices(error) if error == "e"
    ));
    assert!(matches!(
        failure(vec![LoadEvent::Configured(Ok(())), LoadEvent::PathChecked(Err(text()))]),
        LoadError::InvalidPath(error) if error == "e"
    ));
    let ready = || vec![LoadEvent::Configured(Ok(())), LoadEvent::PathChecked(Ok(()))];
    let mut events = ready();
    events.push(LoadEvent::Fitted(Err(FitFailure::Failure(text()))));
    assert!(matches!(failure(events), LoadError::Fit(error) if error == "Failure: e"));
    let mut events = ready();
    events.push(LoadEvent::Fitted(Err(FitFailure::Error(text()))));
    assert!(matches!(failure(events), LoadError::Fit(error) if error == "Error: e"));
    let mut events = ready();
    events.push(LoadEvent::Fitted(Ok(1)));
    events.push(LoadEvent::Loaded(Err(text())));
    assert!(matches!(failure(events), LoadError::ModelLoad(error) if error == "e"));
    let mut events = ready();
    events.push(LoadEvent::Fitted(Ok(1)));
    events.push(LoadEvent::Loaded(Ok(())));
    events.push(LoadEvent::Projected(Err(text())));
    assert!(matches!(failure(events), LoadError::MmprojInit(error) if error == "e"));
}
