use meetily_asr::funasr::cmvn::{
    check_cmvn_dims, cmvn_value_error, cmvn_vector_tokens,
    parse_kaldi_cmvn as parse_kaldi_cmvn_with,
    parse_text_cmvn_vector as parse_text_cmvn_vector_with,
};
use meetily_asr::funasr::error::FunasrError;

/// The number reader the frontend loader hands to the CMVN parser.
fn read_f32(s: &str) -> Result<f32, String> {
    s.parse::<f32>().map_err(|e| e.to_string())
}

fn parse_text_cmvn_vector(data: &[u8], section_name: &str) -> Result<Vec<f32>, FunasrError> {
    parse_text_cmvn_vector_with(data, section_name, &read_f32)
}

fn parse_kaldi_cmvn(data: &[u8]) -> Result<(Vec<f32>, Vec<f32>), FunasrError> {
    parse_kaldi_cmvn_with(data, &read_f32)
}

/// Generate a valid 560-dim AddShift text line for use in tests.
fn make_addshift_line() -> String {
    let vals: Vec<String> = (0..560).map(|i| format!("{}", -0.5 - i as f32 * 0.001)).collect();
    format!("<LearnRateCoef> 0 [ {} ]", vals.join(" "))
}

/// Generate a valid 560-dim Rescale text line for use in tests.
fn make_rescale_line() -> String {
    let vals: Vec<String> = (0..560).map(|i| format!("{}", 0.1 + i as f32 * 0.0005)).collect();
    format!("<LearnRateCoef> 0 [ {} ]", vals.join(" "))
}

fn make_full_cmvn_text() -> String {
    format!(
        "<Nnet>\n<Splice> 560 560\n[ 0 ]\n<AddShift> 560 560\n{}\n<Rescale> 560 560\n{}\n</Nnet>\n",
        make_addshift_line(),
        make_rescale_line(),
    )
}

fn cmvn_message(e: FunasrError) -> String {
    e.message()
}

#[test]
fn test_parse_text_cmvn_valid() {
    let data = make_full_cmvn_text();
    let vec = parse_text_cmvn_vector(data.as_bytes(), "AddShift").unwrap();
    assert_eq!(vec.len(), 560);
    let expected_first = -0.5;
    assert!((vec[0] - expected_first).abs() < 1e-5);
    let expected_last = -0.5 - 559.0 * 0.001;
    assert!((vec[559] - expected_last).abs() < 1e-5);
}

#[test]
fn test_parse_text_cmvn_missing_section() {
    let data = b"<Nnet>\n<SomethingElse> 560 560\n<LearnRateCoef> 0 [ 1.0 2.0 ]\n</Nnet>";
    let result = parse_text_cmvn_vector(data, "AddShift");
    assert!(result.is_err());
    let err = cmvn_message(result.unwrap_err());
    assert!(err.contains("AddShift"), "error should mention AddShift: {err}");
}

#[test]
fn test_parse_text_cmvn_wrong_dim() {
    let data = b"<AddShift> 560 560\n<LearnRateCoef> 0 [ 1.0 2.0 3.0 ]\n<Rescale> 560 560\n<LearnRateCoef> 0 [ 4.0 5.0 6.0 ]\n";
    // the section reader does not check the dimension: it yields 3 values
    let vec = parse_text_cmvn_vector(data, "AddShift").unwrap();
    assert_eq!(vec.len(), 3);
}

#[test]
fn test_parse_text_cmvn_invalid_float() {
    let data = b"<AddShift> 560 560\n<LearnRateCoef> 0 [ 1.0 xyz 3.0 ]\n";
    let result = parse_text_cmvn_vector(data, "AddShift");
    assert!(result.is_err());
    let err = cmvn_message(result.unwrap_err());
    assert!(err.contains("xyz"), "error should mention 'xyz': {err}");
}

#[test]
fn test_parse_text_cmvn_non_utf8() {
    let data = vec![0xff, 0xfe, 0x00, 0x01]; // invalid UTF-8 bytes
    let result = parse_text_cmvn_vector(&data, "AddShift");
    assert!(result.is_err());
    let err = cmvn_message(result.unwrap_err());
    assert!(err.contains("UTF-8") || err.contains("valid"), "error should mention UTF-8: {err}");
}

#[test]
fn test_parse_text_cmvn_end_to_end() {
    let data = make_full_cmvn_text();
    let (means, inv_stds) = parse_kaldi_cmvn(data.as_bytes()).unwrap();
    assert_eq!(means.len(), 560);
    assert_eq!(inv_stds.len(), 560);
    let expected_means_0 = -0.5;
    assert!((means[0] - expected_means_0).abs() < 1e-5);
    let expected_inv_0 = 0.1;
    assert!((inv_stds[0] - expected_inv_0).abs() < 1e-5);
}

fn invalid_text(r: Result<Vec<String>, FunasrError>) -> String {
    match r {
        Err(FunasrError::InvalidCmvnFile(m)) => m,
        other => panic!("expected InvalidCmvnFile, got {:?}", other),
    }
}

#[test]
fn section_errors_are_exact() {
    assert_eq!(
        invalid_text(cmvn_vector_tokens(&[0xff], "AddShift")),
        "CMVN file is not valid UTF-8"
    );
    assert_eq!(
        invalid_text(cmvn_vector_tokens(b"<Other>\n", "AddShift")),
        "Missing '<AddShift>' section in CMVN file"
    );
    assert_eq!(
        invalid_text(cmvn_vector_tokens(b"  <AddShift> 560 560", "AddShift")),
        "Expected '<LearnRateCoef>' after '<AddShift>'"
    );
    assert_eq!(
        invalid_text(cmvn_vector_tokens(b"<AddShift>\n  [ 1 2 ]  \n", "AddShift")),
        "Expected '<LearnRateCoef>' after '<AddShift>', got: [ 1 2 ]"
    );
    assert_eq!(
        invalid_text(cmvn_vector_tokens(b"<AddShift>\n<LearnRateCoef> 0 ( 1 2 )\n", "AddShift")),
        "Expected bracket-format vector after '<AddShift>', got 6 tokens"
    );
    assert_eq!(
        invalid_text(cmvn_vector_tokens(b"<AddShift>\n<LearnRateCoef> 0 [\n", "AddShift")),
        "Expected bracket-format vector after '<AddShift>', got 3 tokens"
    );
}

#[test]
fn section_values_handle_crlf_and_blank_lines() {
    let data = b"<Nnet>\r\n\r\n  <Rescale> 3 3\r\n\t<LearnRateCoef> 0 [ 1.5   2.5\t3.5 ]\r\n";
    let toks = cmvn_vector_tokens(data, "Rescale").unwrap();
    assert_eq!(toks, vec!["1.5", "2.5", "3.5"]);
    // an empty vector is accepted
    let toks = cmvn_vector_tokens(b"<Rescale>\n<LearnRateCoef> 0 [ ]", "Rescale").unwrap();
    assert!(toks.is_empty());
}

#[test]
fn dims_checks_and_value_error() {
    assert!(check_cmvn_dims(560, 560).is_ok());
    match check_cmvn_dims(3, 560) {
        Err(FunasrError::InvalidCmvnFile(m)) => assert_eq!(m, "Expected CMVN means length 560, got 3"),
        other => panic!("unexpected {:?}", other),
    }
    match check_cmvn_dims(560, 7) {
        Err(FunasrError::InvalidCmvnFile(m)) => {
            assert_eq!(m, "Expected CMVN inv_stds length 560, got 7")
        }
        other => panic!("unexpected {:?}", other),
    }
    match cmvn_value_error("xyz", "AddShift", "invalid float literal") {
        FunasrError::InvalidCmvnFile(m) => assert_eq!(
            m,
            "Failed to parse float 'xyz' in '<AddShift>': invalid float literal"
        ),
        other => panic!("unexpected {:?}", other),
    }
}

#[test]
fn value_errors_name_the_value_and_section() {
    let data = b"<AddShift> 560 560\n<LearnRateCoef> 0 [ 1.0 xyz 3.0 ]\n";
    match parse_text_cmvn_vector(data, "AddShift") {
        Err(FunasrError::InvalidCmvnFile(m)) => assert_eq!(
            m,
            "Failed to parse float 'xyz' in '<AddShift>': invalid float literal"
        ),
        other => panic!("unexpected {:?}", other),
    }
}

#[test]
fn kaldi_cmvn_reports_short_vectors_and_missing_sections() {
    let data = b"<AddShift> 560 560\n<LearnRateCoef> 0 [ 1.0 2.0 3.0 ]\n<Rescale> 560 560\n<LearnRateCoef> 0 [ 4.0 5.0 6.0 ]\n";
    match parse_kaldi_cmvn(data) {
        Err(FunasrError::InvalidCmvnFile(m)) => assert_eq!(m, "Expected CMVN means length 560, got 3"),
        other => panic!("unexpected {:?}", other),
    }
    let only_means = format!("<AddShift> 560 560\n{}\n", make_addshift_line());
    match parse_kaldi_cmvn(only_means.as_bytes()) {
        Err(FunasrError::InvalidCmvnFile(m)) => {
            assert_eq!(m, "Missing '<Rescale>' section in CMVN file")
        }
        other => panic!("unexpected {:?}", other),
    }
}
