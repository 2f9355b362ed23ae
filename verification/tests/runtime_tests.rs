use lifec::attributes::{AttributeGraph, Value};
use lifec::cancel::{CancelError, CancelToken};
use lifec::operation::{fold_step, Operation, OperationError, PluginOutput};
use lifec::program::{host_source, log_directive, HostSource};
use lifec::web::{AppHost, Requirement, StaticFiles, Test};

#[test]
fn cancel_signal_reaches_the_listener_once() {
    let mut token = CancelToken::new();
    let mut rx = token.activate().expect("first activation hands out the listener");
    assert!(matches!(token.activate(), Err(CancelError::AlreadyActivated)));
    assert_eq!(token.cancel(), Ok(()));
    assert!(rx.try_recv().is_ok());
    assert_eq!(token.cancel(), Err(CancelError::Skip));
}

#[test]
fn cancel_without_listener_is_lost() {
    let mut token = CancelToken::new();
    let rx = token.activate().unwrap();
    drop(rx);
    assert_eq!(token.cancel(), Err(CancelError::CouldNotSend));
    assert_eq!(token.cancel(), Err(CancelError::Skip));
}

#[test]
fn cancel_before_activation_is_kept_for_the_listener() {
    let mut token = CancelToken::new();
    assert_eq!(token.cancel(), Ok(()));
    let mut rx = token.activate().unwrap();
    assert!(rx.try_recv().is_ok());
}

#[test]
fn operation_address() {
    let op: Operation<u32> = Operation::new("deploy".to_string(), None);
    assert_eq!(op.address(), "deploy");
    let tagged: Operation<u32> = Operation::new("deploy".to_string(), Some("prod".to_string()));
    assert_eq!(tagged.address(), "deploy#prod");
}

#[test]
fn operation_runs_only_when_bound() {
    let mut op: Operation<u32> = Operation::new("x".to_string(), None);
    assert!(matches!(op.start(), Err(OperationError::Unbound)));
    op.bind(7);
    assert_eq!(op.start().ok(), Some(&7));
    op.bind(8);
    assert_eq!(op.start().ok(), Some(&8));
}

#[test]
fn fold_keeps_context_when_a_call_gives_none() {
    assert_eq!(fold_step::<u32, String>(1, Ok(Some(2))), Ok(2));
    assert_eq!(fold_step::<u32, String>(1, Ok(None)), Ok(1));
    assert_eq!(fold_step::<u32, String>(1, Err("bad".to_string())), Err("bad".to_string()));
}

#[test]
fn plugin_outputs_resolve() {
    assert_eq!(PluginOutput::<u32, String>::Skip.resolve(), Ok(None));
    assert_eq!(PluginOutput::<u32, String>::Spawn(None).resolve(), Ok(None));
    assert_eq!(PluginOutput::<u32, String>::Spawn(Some(Ok(Ok(5)))).resolve(), Ok(Some(5)));
    // a task that failed passes, like a skip
    assert_eq!(PluginOutput::<u32, String>::Spawn(Some(Ok(Err("task".to_string())))).resolve(), Ok(None));
    assert_eq!(PluginOutput::<u32, String>::Spawn(Some(Err("join".to_string()))).resolve(), Err("join".to_string()));
    assert_eq!(PluginOutput::<u32, String>::Abort(Ok(())).resolve(), Ok(None));
    assert_eq!(PluginOutput::<u32, String>::Abort(Err("stop".to_string())).resolve(), Err("stop".to_string()));
}

#[test]
fn static_files_take_their_prefix_and_index() {
    let mut state = AttributeGraph::new(0);
    state.with("api_prefix".to_string(), Value::Symbol("docs".to_string()));
    state.with("index_html".to_string(), Value::TextBuffer("index.html".to_string()));
    let served = StaticFiles::create(&state, Some("/srv".to_string()));
    assert_eq!(served.work_dir, "/srv");
    assert_eq!(served.api_prefix, "docs");
    assert_eq!(served.index_html.as_deref(), Some("index.html"));
    assert_eq!(served.route_prefix(), "/docs");
    let bare = StaticFiles::create(&state, None);
    assert_eq!(bare.work_dir, "");
    assert!(bare.index_html.is_none());
    assert_eq!(StaticFiles::symbol(), "static_files");
}

#[test]
fn block_queries() {
    let host: Vec<(String, Requirement)> = AppHost::query();
    assert_eq!(
        host,
        vec![
            ("app_host".to_string(), Requirement::Required),
            ("shutdown_timeout_ms".to_string(), Requirement::Optional),
            ("tls_key".to_string(), Requirement::Optional),
            ("tls_crt".to_string(), Requirement::Optional),
        ]
    );
    let files = StaticFiles::query();
    assert_eq!(files.len(), 8);
    assert_eq!(files[4], ("static_files".to_string(), Requirement::Required));
    assert_eq!(files[5], ("api_prefix".to_string(), Requirement::Required));
    assert_eq!(files[7], ("index_html".to_string(), Requirement::Optional));
    assert_eq!(AppHost::symbol(), "app_host");
}

#[test]
fn test_objects_parse_to_an_empty_name() {
    assert_eq!(Test::from_text("anything").name, "");
}

#[test]
fn host_source_needs_exactly_one_of_path_and_url() {
    assert!(matches!(host_source(Some("a.runmd".to_string()), None), Some(HostSource::Path(p)) if p == "a.runmd"));
    assert!(matches!(host_source(None, Some("http://x".to_string())), Some(HostSource::Url(u)) if u == "http://x"));
    assert!(host_source(Some("a".to_string()), Some("b".to_string())).is_none());
    assert!(host_source(None, None).is_none());
    assert_eq!(log_directive(true), "lifec=debug");
    assert_eq!(log_directive(false), "lifec=info");
}

#[test]
fn fix_config_merges_the_previous_attempt() {
    let mut config = lifec::attributes::AttributeGraph::new(3);
    config.with("auto".to_string(), lifec::attributes::Value::Bool(false));
    config.with("tries".to_string(), lifec::attributes::Value::Int(1));
    let mut previous = lifec::attributes::AttributeGraph::new(8);
    previous.with("tries".to_string(), lifec::attributes::Value::Int(2));
    previous.with("reason".to_string(), lifec::attributes::Value::TextBuffer("timeout".to_string()));
    let merged = lifec::dispatch::fix_config(&config, Some(&previous));
    assert_eq!(merged.entity_id(), 3);
    assert_eq!(merged.attributes().len(), 3);
    assert!(matches!(merged.find_attr_value("tries"), Some(lifec::attributes::Value::Int(2))));
    assert_eq!(merged.find_text("reason"), Some("timeout".to_string()));
    assert!(merged.attributes().iter().all(|a| a.id == 3));
    let same = lifec::dispatch::fix_config(&config, None);
    assert_eq!(same.attributes().len(), 2);
    assert!(matches!(same.find_attr_value("tries"), Some(lifec::attributes::Value::Int(1))));
}
