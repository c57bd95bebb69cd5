use meetily_asr::sherpa::error::SherpaOnnxError;
use meetily_asr::sherpa::model::{
    check_engine_dir, discover_models, join, model_info, required_file_name, scan_entries, validate_model_dir,
    ModelDirProbe, ModelStatus,
};

fn probe(model_type: &str, path: &str, present: [bool; 3]) -> ModelDirProbe {
    ModelDirProbe {
        model_type: model_type.to_string(),
        path: path.to_string(),
        present,
    }
}

#[test]
fn test_discover_empty_dir() {
    let models = discover_models(true, &[]);
    assert!(models.is_empty(), "Empty dir should return empty list");
}

#[test]
fn discover_missing_models_dir_lists_nothing() {
    let models = discover_models(false, &[probe("sensevoice", "/m/sensevoice", [true, true, true])]);
    assert!(models.is_empty());
}

#[test]
fn test_validate_missing_encoder() {
    let result = validate_model_dir("/tmp/sherpa_val", true, &[false, false, true]);
    assert!(result.is_err(), "Missing encoder should error");
    match result {
        Err(SherpaOnnxError::ModelNotFound(p)) => {
            assert_eq!(p, "/tmp/sherpa_val/sensevoice-encoder-2.5-192-768.onnx")
        }
        other => panic!("expected ModelNotFound, got {:?}", other),
    }
}

#[test]
fn test_validate_complete_dir() {
    let result = validate_model_dir("/tmp/sherpa_comp", true, &[true, true, true]);
    assert!(result.is_ok(), "Complete dir should validate OK");
}

#[test]
fn validate_nonexistent_dir_names_the_dir() {
    match validate_model_dir("/tmp/nonexistent_sherpa_12345", false, &[true, true, true]) {
        Err(SherpaOnnxError::ModelNotFound(p)) => assert_eq!(p, "/tmp/nonexistent_sherpa_12345"),
        other => panic!("expected ModelNotFound, got {:?}", other),
    }
}

#[test]
fn validate_reports_first_missing_file() {
    match validate_model_dir("/m/", true, &[true, false, false]) {
        Err(SherpaOnnxError::ModelNotFound(p)) => {
            assert_eq!(p, "/m/sensevoice-decoder-2.5-192-768.onnx")
        }
        other => panic!("expected ModelNotFound, got {:?}", other),
    }
    match validate_model_dir("m", true, &[true, true, false]) {
        Err(SherpaOnnxError::ModelNotFound(p)) => assert_eq!(p, "m/tokens.txt"),
        other => panic!("expected ModelNotFound, got {:?}", other),
    }
}

#[test]
fn join_follows_path_join() {
    assert_eq!(join("/a/b", "c.txt"), "/a/b/c.txt");
    assert_eq!(join("/a/b/", "c.txt"), "/a/b/c.txt");
    assert_eq!(join("", "c.txt"), "c.txt");
    let expected = std::path::Path::new("/x/y").join("tokens.txt");
    assert_eq!(join("/x/y", "tokens.txt"), expected.to_string_lossy());
}

#[test]
fn required_files_in_order() {
    assert_eq!(required_file_name(0), "sensevoice-encoder-2.5-192-768.onnx");
    assert_eq!(required_file_name(1), "sensevoice-decoder-2.5-192-768.onnx");
    assert_eq!(required_file_name(2), "tokens.txt");
}

#[test]
fn model_info_lists_ready_and_missing() {
    let ready = model_info(&probe("sensevoice", "/m/sensevoice", [true, true, true]));
    assert_eq!(ready.name, "SherpaONNX-sensevoice");
    assert_eq!(ready.model_type, "sensevoice");
    assert_eq!(ready.path, "/m/sensevoice");
    assert!(matches!(ready.status, ModelStatus::Ready));

    let missing = model_info(&probe("other", "/m/other", [true, true, false]));
    match missing.status {
        ModelStatus::Missing { details } => {
            assert_eq!(details, "Model not found at /m/other/tokens.txt")
        }
        ModelStatus::Ready => panic!("expected Missing"),
    }
}

#[test]
fn scan_reports_valid_only_for_complete_models() {
    let models = discover_models(
        true,
        &[
            probe("sensevoice", "/m/sensevoice", [true, true, true]),
            probe("partial", "/m/partial", [false, true, true]),
        ],
    );
    assert_eq!(models.len(), 2);
    let entries = scan_entries(&models);
    assert_eq!(entries.len(), 2);
    assert_eq!(entries[0].name, "sensevoice");
    assert_eq!(entries[0].path, "/m/sensevoice");
    assert!(entries[0].valid);
    assert_eq!(entries[1].name, "partial");
    assert!(!entries[1].valid);
}

#[test]
fn status_equality_compares_details() {
    assert_eq!(ModelStatus::Ready, ModelStatus::Ready);
    assert_eq!(
        ModelStatus::Missing { details: "a".into() },
        ModelStatus::Missing { details: "a".into() }
    );
    assert_ne!(
        ModelStatus::Missing { details: "a".into() },
        ModelStatus::Missing { details: "b".into() }
    );
    assert_ne!(ModelStatus::Ready, ModelStatus::Missing { details: String::new() });
}

fn names(list: &[&str]) -> Vec<String> {
    list.iter().map(|s| s.to_string()).collect()
}

#[test]
fn test_new_with_nonexistent_dir() {
    let result = check_engine_dir("/tmp/nonexistent_sherpa_12345", false, false, &[]);
    match result {
        Err(SherpaOnnxError::ModelNotFound(_)) => {}
        _ => panic!("Expected ModelNotFound error, got {:?}", result),
    }
}

#[test]
fn test_new_with_invalid_dir_missing_tokens() {
    let result = check_engine_dir("/tmp/d", true, false, &names(&["model.int8.onnx"]));
    match result {
        Err(SherpaOnnxError::ModelNotFound(ref msg)) => {
            assert!(msg.contains("tokens.txt"), "Error should mention tokens.txt: {}", msg);
        }
        other => panic!("Expected ModelNotFound for tokens.txt, got {:?}", other),
    }
}

#[test]
fn test_new_with_invalid_dir_missing_onnx() {
    let result = check_engine_dir("/tmp/d", true, true, &names(&["tokens.txt"]));
    match result {
        Err(SherpaOnnxError::ModelNotFound(ref msg)) => {
            assert!(msg.contains(".onnx"), "Error should mention .onnx: {}", msg);
        }
        other => panic!("Expected ModelNotFound for .onnx, got {:?}", other),
    }
}

#[test]
fn engine_dir_picks_the_first_onnx_file() {
    let list = names(&[".onnx", "a.txt", "model.int8.onnx", "z.onnx", "tokens.txt"]);
    assert_eq!(check_engine_dir("/m", true, true, &list).unwrap(), 2);
}

#[test]
fn join_with_absolute_name_replaces_dir() {
    assert_eq!(join("/a/b", "/etc/x"), "/etc/x");
    let expected = std::path::Path::new("/a/b").join("/etc/x");
    assert_eq!(join("/a/b", "/etc/x"), expected.to_string_lossy());
}

#[test]
fn model_info_clones() {
    let info = model_info(&probe("s", "/m/s", [true, true, true]));
    let copy = info.clone();
    assert_eq!(copy.name, info.name);
    assert_eq!(copy.status, info.status);
}
