use savant_core::error::PipelineError;
use savant_core::webserver::{
    apply_shutdown_signal, get_registered_pipelines, get_shutdown_signal, get_shutdown_token,
    get_status, init_webserver, is_shutdown_set, is_webserver_started, register_pipeline,
    set_shutdown_signal, set_shutdown_token, set_status, shutdown, shutdown_handler,
    stop_webserver, unregister_pipeline, PipelineStatus, ShutdownMode, ShutdownReply, WsData,
    DEFAULT_SHUTDOWN_SIGNAL,
};

const TOKEN: &str = "12345";

#[test]
fn the_status_is_stopped_until_it_is_set() {
    let mut data = WsData::new();
    assert_eq!(get_status(&data), PipelineStatus::Stopped);
    assert_eq!(set_status(&mut data, PipelineStatus::Running), Ok(()));
    assert_eq!(get_status(&data), PipelineStatus::Running);
    assert_eq!(set_status(&mut data, PipelineStatus::Shutdown), Ok(()));
    assert_eq!(get_status(&data), PipelineStatus::Shutdown);
    assert!(!is_shutdown_set(&data));
    assert_eq!(get_shutdown_token(&data), None);
    assert!(get_registered_pipelines(&data).is_empty());
    assert!(init_webserver(&mut data, 42));
    assert_eq!(set_status(&mut data, PipelineStatus::Running), Ok(()));
    assert_eq!(get_status(&data), PipelineStatus::Running);
    assert_eq!(data.set_status(PipelineStatus::Stopped), Ok(()));
    assert_eq!(get_status(&data), PipelineStatus::Stopped);
}

#[test]
fn the_server_is_started_once() {
    let mut data = WsData::new();
    assert!(!is_webserver_started(&data));
    assert!(init_webserver(&mut data, 1));
    assert!(!init_webserver(&mut data, 2));
    assert!(is_webserver_started(&data));
    stop_webserver(&mut data);
    assert!(is_webserver_started(&data));
    assert!(!init_webserver(&mut data, 3));
    assert_eq!(set_status(&mut data, PipelineStatus::Running), Ok(()));
}

#[test]
fn status_names_are_lower_case() {
    assert_eq!(PipelineStatus::Running.as_str(), "running");
    assert_eq!(PipelineStatus::Stopped.as_str(), "stopped");
    assert_eq!(PipelineStatus::Shutdown.as_str(), "shutdown");
}

#[test]
fn shutdown_modes_have_two_names() {
    assert_eq!(ShutdownMode::from_name("graceful"), Some(ShutdownMode::Notify));
    assert_eq!(ShutdownMode::from_name("signal"), Some(ShutdownMode::Signal));
    assert_eq!(ShutdownMode::from_name("Signal"), None);
    assert_eq!(ShutdownMode::from_name(""), None);
}

#[test]
fn the_shutdown_token_is_set_once() {
    let mut data = WsData::new();
    assert_eq!(get_shutdown_token(&data), None);
    assert!(set_shutdown_token(&mut data, TOKEN.to_string()));
    assert_eq!(get_shutdown_token(&data), Some(TOKEN.to_string()));
    assert!(set_shutdown_token(&mut data, TOKEN.to_string()));
    assert_eq!(get_shutdown_token(&data), Some(TOKEN.to_string()));
    assert!(!set_shutdown_token(&mut data, "other".to_string()));
    assert_eq!(get_shutdown_token(&data), Some(TOKEN.to_string()));
    assert!(!data.set_shutdown_token("third".to_string()));
    assert_eq!(get_shutdown_token(&data), Some(TOKEN.to_string()));
}

#[test]
fn shutdown_is_gated_by_the_token() {
    let mut data = WsData::new();
    init_webserver(&mut data, 7);
    set_status(&mut data, PipelineStatus::Running).unwrap();
    let r = shutdown_handler(&mut data, TOKEN, ShutdownMode::Notify);
    assert_eq!(r, ShutdownReply::NotSupported);
    assert_eq!(r.status_code(), 500);
    set_shutdown_token(&mut data, TOKEN.to_string());
    let r = shutdown_handler(&mut data, "wrong", ShutdownMode::Notify);
    assert_eq!(r, ShutdownReply::Unauthorized);
    assert_eq!(r.status_code(), 401);
    assert!(!is_shutdown_set(&data));
    assert_eq!(get_status(&data), PipelineStatus::Running);
    let r = shutdown_handler(&mut data, TOKEN, ShutdownMode::Notify);
    assert_eq!(r, ShutdownReply::Accepted);
    assert_eq!(r.status_code(), 200);
    assert!(is_shutdown_set(&data));
    assert_eq!(get_status(&data), PipelineStatus::Shutdown);
    let r = shutdown_handler(&mut data, TOKEN, ShutdownMode::Notify);
    assert_eq!(r, ShutdownReply::AlreadyShutDown);
    assert_eq!(r.status_code(), 500);
}

#[test]
fn shutdown_by_signal_names_the_process_and_the_signal() {
    let mut data = WsData::new();
    init_webserver(&mut data, 4321);
    set_shutdown_token(&mut data, TOKEN.to_string());
    assert_eq!(get_shutdown_signal(&data), DEFAULT_SHUTDOWN_SIGNAL);
    assert_eq!(set_shutdown_signal(&mut data, 15), Ok(()));
    let r = shutdown_handler(&mut data, TOKEN, ShutdownMode::Signal);
    assert_eq!(r, ShutdownReply::AcceptedWithSignal { pid: 4321, signal: 15 });
    assert_eq!(r.status_code(), 200);
}

#[test]
fn shutdown_without_a_server_latches_and_sets_the_status() {
    let mut data = WsData::new();
    set_shutdown_token(&mut data, TOKEN.to_string());
    let r = shutdown_handler(&mut data, TOKEN, ShutdownMode::Signal);
    assert_eq!(r, ShutdownReply::AcceptedWithSignal { pid: 0, signal: 2 });
    assert_eq!(r.status_code(), 200);
    assert!(is_shutdown_set(&data));
    assert_eq!(get_status(&data), PipelineStatus::Shutdown);
    let r = shutdown_handler(&mut data, TOKEN, ShutdownMode::Notify);
    assert_eq!(r, ShutdownReply::AlreadyShutDown);
}

#[test]
fn the_shutdown_latch_is_set_once() {
    let mut data = WsData::new();
    assert!(!is_shutdown_set(&data));
    assert_eq!(shutdown(&mut data), Ok(()));
    assert!(is_shutdown_set(&data));
    assert_eq!(shutdown(&mut data), Err(PipelineError::AlreadySet));
    assert!(is_shutdown_set(&data));
}

#[test]
fn the_shutdown_signal_is_a_signal_and_is_set_once() {
    let mut data = WsData::new();
    assert_eq!(get_shutdown_signal(&data), 2);
    assert_eq!(set_shutdown_signal(&mut data, 0), Err(PipelineError::InvalidSignal));
    assert_eq!(set_shutdown_signal(&mut data, -1), Err(PipelineError::InvalidSignal));
    assert_eq!(set_shutdown_signal(&mut data, 100_000), Err(PipelineError::InvalidSignal));
    assert_eq!(get_shutdown_signal(&data), 2);
    assert_eq!(set_shutdown_signal(&mut data, 10), Ok(()));
    assert_eq!(get_shutdown_signal(&data), 10);
    assert_eq!(set_shutdown_signal(&mut data, 12), Err(PipelineError::AlreadySet));
    assert_eq!(set_shutdown_signal(&mut data, 0), Err(PipelineError::InvalidSignal));
    assert_eq!(get_shutdown_signal(&data), 10);
    let mut other = WsData::new();
    assert_eq!(apply_shutdown_signal(&mut other, 9, false), Err(PipelineError::InvalidSignal));
    assert_eq!(apply_shutdown_signal(&mut other, 9, true), Ok(()));
    assert_eq!(apply_shutdown_signal(&mut other, 9, true), Err(PipelineError::AlreadySet));
}

#[test]
fn pipelines_are_registered_in_order_and_unregistered_by_handle() {
    let mut data = WsData::new();
    assert!(register_pipeline(&mut data, 10));
    assert!(register_pipeline(&mut data, 20));
    assert!(!register_pipeline(&mut data, 10));
    assert!(register_pipeline(&mut data, 30));
    assert_eq!(get_registered_pipelines(&data), vec![10, 20, 10, 30]);
    assert!(!unregister_pipeline(&mut data, 99));
    assert_eq!(get_registered_pipelines(&data), vec![10, 20, 10, 30]);
    assert!(unregister_pipeline(&mut data, 10));
    assert_eq!(get_registered_pipelines(&data), vec![20, 30]);
    assert!(unregister_pipeline(&mut data, 30));
    assert!(unregister_pipeline(&mut data, 20));
    assert!(get_registered_pipelines(&data).is_empty());
}

#[test]
fn errors_have_a_text() {
    assert_eq!(PipelineError::NotFound.message(), "not found");
    assert_eq!(PipelineError::ForwardOnlyViolation.message(), "forward only violation");
    assert_eq!(PipelineError::InvalidSignal.message(), "invalid signal");
}
