use meetily_asr::funasr::decoder::{
    argmax_by, decode, decode_logits as decode_logits_with, logits_frame_count, VOCAB_SIZE,
};
use meetily_asr::funasr::error::FunasrError;

/// The float comparison the model runner hands to the decoder.
fn logit_greater(a: &f32, b: &f32) -> bool {
    a > b
}

/// Logits to text, as the model runner does it.
fn decode_logits(logits: &[f32], token_num: i32, token_list: &[String]) -> Result<String, FunasrError> {
    decode_logits_with(logits, token_num, token_list, &logit_greater)
}

#[test]
fn test_basic_decoding() {
    let mut tokens = vec![String::new(); 8404];
    tokens[0] = "<blank>".to_string();
    tokens[1] = "<s>".to_string();
    tokens[2] = "</s>".to_string();
    tokens[3] = "我".to_string();
    tokens[4] = "是".to_string();
    tokens[5] = "谁".to_string();

    let mut logits = vec![0.0f32; 6 * 8404];
    logits[0 * 8404 + 1] = 10.0; // timestep 0 -> sos
    logits[1 * 8404 + 3] = 10.0; // timestep 1 -> 我
    logits[2 * 8404 + 4] = 10.0; // timestep 2 -> 是
    logits[3 * 8404 + 5] = 10.0; // timestep 3 -> 谁
    logits[4 * 8404 + 2] = 10.0; // timestep 4 -> eos
    logits[5 * 8404 + 0] = 10.0; // timestep 5 -> blank

    let result = decode_logits(&logits, 4, &tokens).unwrap();
    assert_eq!(result, "我是谁");
}

#[test]
fn test_empty_logits() {
    let tokens = vec!["a".to_string(); 8404];
    let result = decode_logits(&[], 0, &tokens).unwrap();
    assert_eq!(result, "");
}

#[test]
fn test_all_blank_decoding() {
    let mut tokens = vec![String::new(); 8404];
    tokens[0] = "<blank>".to_string();
    // 3 frames, uniform values -> argmax picks index 0 (blank)
    let logits = vec![1.0f32; 3 * 8404];
    let result = decode_logits(&logits, 0, &tokens).unwrap();
    assert_eq!(result, "");
}

#[test]
fn test_token_num_zero() {
    let mut tokens = vec![String::new(); 8404];
    tokens[0] = "<blank>".to_string();
    tokens[1] = "<s>".to_string();
    tokens[3] = "test".to_string();
    let mut logits = vec![0.0f32; 3 * 8404];
    logits[0 * 8404 + 1] = 5.0; // sos
    logits[1 * 8404 + 3] = 5.0; // "test"
    logits[2 * 8404 + 0] = 5.0; // blank
    let result = decode_logits(&logits, 0, &tokens).unwrap();
    assert_eq!(result, "");
}

#[test]
fn test_out_of_bounds_token_id() {
    let mut tokens = vec![String::new(); 10]; // small vocab
    tokens[0] = "<blank>".to_string();
    tokens[1] = "<s>".to_string();
    tokens[2] = "</s>".to_string();
    tokens[3] = "hello".to_string();
    let mut logits = vec![0.0f32; 3 * 8404];
    logits[0 * 8404 + 1] = 10.0; // sos
    logits[1 * 8404 + 3] = 10.0; // "hello" (in bounds)
    logits[2 * 8404 + 99] = 10.0; // 99 (out of bounds for vocab of 10)
    let result = decode_logits(&logits, 2, &tokens).unwrap();
    assert_eq!(result, "hello");
}

#[test]
fn test_invalid_logits_length() {
    let tokens = vec![String::new(); 8404];
    // 10 elements is not divisible by 8404
    let logits = vec![0.0f32; 10];
    let result = decode_logits(&logits, 0, &tokens);
    assert!(result.is_err());
    match result {
        Err(FunasrError::DecodeError(msg)) => {
            assert!(msg.contains("not divisible"));
        }
        _ => panic!("Expected DecodeError"),
    }
}

fn vocab(words: &[&str]) -> Vec<String> {
    words.iter().map(|w| w.to_string()).collect()
}

#[test]
fn frame_count_message_is_exact() {
    match logits_frame_count(10) {
        Err(FunasrError::DecodeError(msg)) => {
            assert_eq!(msg, "logits length 10 is not divisible by vocab_size 8404")
        }
        other => panic!("expected DecodeError, got {:?}", other),
    }
    assert_eq!(logits_frame_count(0).unwrap(), 0);
    assert_eq!(logits_frame_count(3 * 8404).unwrap(), 3);
}

#[test]
fn special_ids_are_ignored_and_count_is_trimmed() {
    let v = vocab(&["<blank>", "<s>", "</s>", "a", "b", "c"]);
    // regular ids: 3, 4, 5; token_num 3 keeps two of them
    assert_eq!(decode(&[1, 3, 0, 4, 2, 5], 3, &v), "ab");
    // dropping the special ids first gives the same text
    assert_eq!(decode(&[3, 4, 5], 3, &v), "ab");
    // a count larger than available keeps them all
    assert_eq!(decode(&[3, 4, 5], 100, &v), "abc");
    // a count of one or less keeps nothing
    assert_eq!(decode(&[3, 4, 5], 1, &v), "");
    assert_eq!(decode(&[3, 4, 5], -7, &v), "");
}

#[test]
fn markers_are_removed_and_text_trimmed() {
    let v = vocab(&["<blank>", "<s>", "</s>", "  x<unk>", "<blank>y ", "<s>z</s>\t"]);
    assert_eq!(decode(&[3, 4, 5], 4, &v), "xy z");
    // removal is one left-to-right pass per marker
    let w = vocab(&["", "", "", "<<s>s>"]);
    assert_eq!(decode(&[3], 2, &w), "<s>");
}

#[test]
fn argmax_takes_the_first_of_equal_maxima() {
    assert_eq!(argmax_by(&[1.0f32, 3.0, 2.0, 3.0, 0.5], &logit_greater), 1);
    assert_eq!(argmax_by(&[5.0f32, 1.0, 10.0, 3.0], &logit_greater), 2);
    assert_eq!(argmax_by(&[5.0f32, 1.0, 2.0], &logit_greater), 0);
    assert_eq!(argmax_by(&vec![1.0f32; 8404], &logit_greater), 0);
    assert_eq!(argmax_by(&[7i32], &|a: &i32, b: &i32| a > b), 0);
    let empty: [f32; 0] = [];
    assert_eq!(argmax_by(&empty, &logit_greater), 0);
    // a NaN is never greater, and nothing is greater than a NaN lead
    assert_eq!(argmax_by(&[1.0, f32::NAN, 0.5], &logit_greater), 0);
    assert_eq!(argmax_by(&[f32::NAN, 1.0, 0.5], &logit_greater), 0);
}

#[test]
fn decode_logits_frames_are_vocab_sized() {
    let mut tokens = vec![String::new(); 8404];
    tokens[7] = "x".to_string();
    let mut logits = vec![0.0f32; 2 * VOCAB_SIZE];
    logits[7] = 1.0;
    logits[VOCAB_SIZE + 7] = 1.0;
    assert_eq!(decode_logits(&logits, 3, &tokens).unwrap(), "xx");
    assert_eq!(decode_logits(&logits, 2, &tokens).unwrap(), "x");
    match decode_logits(&logits[1..], 3, &tokens) {
        Err(FunasrError::DecodeError(m)) => {
            assert_eq!(m, "logits length 16807 is not divisible by vocab_size 8404")
        }
        other => panic!("unexpected {:?}", other),
    }
}

#[test]
fn decode_logits_ties_go_to_the_lower_id() {
    let mut tokens = vec![String::new(); 8404];
    tokens[3] = "a".to_string();
    tokens[5] = "b".to_string();
    let mut logits = vec![0.0f32; 8404];
    logits[5] = 4.0;
    logits[3] = 4.0;
    assert_eq!(decode_logits(&logits, 2, &tokens).unwrap(), "a");
}
