use meetily_asr::funasr::error::FunasrError;
use meetily_asr::funasr::frontend::{
    apply_cmvn, apply_lfr, check_audio_len, fbank_frames, flatten_rows, num_fbank_frames,
    FunasrFrontend, FEAT_DIM, FRAME_LENGTH, FRAME_SHIFT, LFR_N, N_MELS,
};

fn generate_sine_wave(samples: usize, freq: f32, sample_rate: u32) -> Vec<f32> {
    (0..samples)
        .map(|i| (2.0 * std::f32::consts::PI * freq * i as f32 / sample_rate as f32).sin())
        .collect()
}

#[test]
fn test_frontend_output_shape() {
    let audio = generate_sine_wave(16000, 440.0, 16000);
    // Expected T_fbank = floor((16000 - 400) / 160) + 1 = 98
    // Expected T_lfr  = ceil(98 / 6) = 17
    let t_fbank = ((audio.len() - FRAME_LENGTH) / FRAME_SHIFT) + 1;
    let t_lfr = (t_fbank + LFR_N - 1) / LFR_N;
    assert_eq!(t_fbank, 98);
    assert_eq!(t_lfr, 17);
    assert_eq!(t_lfr * FEAT_DIM, 9520);
    assert_eq!(num_fbank_frames(audio.len()), 98);
}

#[test]
fn test_short_audio_error() {
    let err = FunasrError::AudioTooShort {
        min: FRAME_LENGTH,
        actual: 200,
    };
    assert!(err.message().contains("200"));
}

#[test]
fn test_empty_audio_error() {
    let err = FunasrError::EmptyAudio;
    assert_eq!(err.message(), "Empty audio input");
}

#[test]
fn audio_length_checks() {
    assert!(matches!(check_audio_len(0), Err(FunasrError::EmptyAudio)));
    match check_audio_len(200) {
        Err(e @ FunasrError::AudioTooShort { .. }) => {
            assert!(matches!(e, FunasrError::AudioTooShort { min: 400, actual: 200 }));
            assert_eq!(
                e.message(),
                "Audio too short: need at least 400 samples, got 200"
            );
        }
        other => panic!("expected AudioTooShort, got {:?}", other),
    }
    assert!(check_audio_len(399).is_err());
    assert!(check_audio_len(400).is_ok());
}

#[test]
fn fbank_frame_counts() {
    assert_eq!(num_fbank_frames(0), 1);
    assert_eq!(num_fbank_frames(400), 1);
    assert_eq!(num_fbank_frames(559), 1);
    assert_eq!(num_fbank_frames(560), 2);
}

#[test]
fn test_apply_lfr_empty() {
    let result = apply_lfr::<f32>(&[]);
    assert!(result.is_empty());
}

#[test]
fn test_apply_lfr_single_frame() {
    // A single fbank frame should not produce output (needs 7 frames)
    let fb = vec![vec![1.0f32; N_MELS]];
    let result = apply_lfr(&fb);
    assert!(result.is_empty());
}

#[test]
fn test_apply_lfr_output_shape() {
    // 14 fbank frames → padded = 17 frames → T_lfr = 2 (ceil(14/6)=2)
    let n_frames = 14;
    let fb: Vec<Vec<f32>> = (0..n_frames).map(|_| vec![0.5f32; N_MELS]).collect();
    let result = apply_lfr(&fb);
    assert_eq!(result.len(), 2);
    for row in &result {
        assert_eq!(row.len(), FEAT_DIM);
    }
}

#[test]
fn lfr_pads_with_the_first_frame_and_strides() {
    // frame k holds the single value k
    let fb: Vec<Vec<u32>> = (0..10).map(|k| vec![k]).collect();
    let rows = apply_lfr(&fb);
    assert_eq!(rows.len(), 2);
    assert_eq!(rows[0], vec![0, 0, 0, 0, 1, 2, 3]);
    assert_eq!(rows[1], vec![3, 4, 5, 6, 7, 8, 9]);
    assert_eq!(apply_lfr(&fb[..3]).len(), 0);
    assert_eq!(apply_lfr(&fb[..4]).len(), 1);
}

#[test]
fn flatten_lays_rows_end_to_end() {
    let rows = vec![vec![1u8, 2], vec![3, 4], vec![5, 6]];
    assert_eq!(flatten_rows(&rows), vec![1, 2, 3, 4, 5, 6]);
    assert!(flatten_rows::<u8>(&[]).is_empty());
}


fn cmvn_text(mean: f32, inv_std: f32) -> String {
    let means = vec![format!("{mean}"); 560].join(" ");
    let inv = vec![format!("{inv_std}"); 560].join(" ");
    format!(
        "<Nnet>\n<AddShift> 560 560\n<LearnRateCoef> 0 [ {means} ]\n<Rescale> 560 560\n<LearnRateCoef> 0 [ {inv} ]\n</Nnet>\n"
    )
}

fn read_f32(s: &str) -> Result<f32, String> {
    s.parse::<f32>().map_err(|e| e.to_string())
}

fn cmvn_value(v: f32, m: f32, s: f32) -> f32 {
    (v + m) * s
}

/// A stand-in for the filterbank: every energy of a frame is its first sample.
fn first_sample(frame: &[f32]) -> Result<[f32; N_MELS], FunasrError> {
    Ok([frame[0]; N_MELS])
}

#[test]
fn process_gives_feat_dim_values_per_row() {
    let frontend = FunasrFrontend::from_cmvn(cmvn_text(-1.0, 2.0).as_bytes(), &read_f32).unwrap();
    // sample i holds i, so frame t starts with t * FRAME_SHIFT
    let audio: Vec<f32> = (0..16000).map(|i| i as f32).collect();
    let (features, rows) = frontend.process(&audio, &first_sample, &cmvn_value).unwrap();
    assert_eq!(rows, 16);
    assert_eq!(features.len(), rows * FEAT_DIM);
    // row 0 stacks padded frames 0,0,0,0,1,2,3: (0 - 1) * 2 then (160 - 1) * 2
    assert_eq!(features[0], -2.0);
    assert_eq!(features[4 * N_MELS], 318.0);
    // row 1 starts at frame 3
    assert_eq!(features[FEAT_DIM], (480.0 - 1.0) * 2.0);
}

#[test]
fn process_rejects_short_audio_and_reports_frame_errors() {
    let frontend = FunasrFrontend::from_cmvn(cmvn_text(0.0, 1.0).as_bytes(), &read_f32).unwrap();
    assert!(matches!(
        frontend.process(&[], &first_sample, &cmvn_value),
        Err(FunasrError::EmptyAudio)
    ));
    assert!(matches!(
        frontend.process(&[0.0; 399], &first_sample, &cmvn_value),
        Err(FunasrError::AudioTooShort { min: 400, actual: 399 })
    ));
    let failing = |_: &[f32]| -> Result<[f32; N_MELS], FunasrError> {
        Err(FunasrError::DecodeError("FFT error: x".to_string()))
    };
    match frontend.process(&[0.0; 400], &failing, &cmvn_value) {
        Err(FunasrError::DecodeError(m)) => assert_eq!(m, "FFT error: x"),
        other => panic!("unexpected {:?}", other.map(|r| r.1)),
    }
}

#[test]
fn frontend_needs_full_cmvn_vectors() {
    let short = "<AddShift>\n<LearnRateCoef> 0 [ 1 2 ]\n<Rescale>\n<LearnRateCoef> 0 [ 3 4 ]\n";
    match FunasrFrontend::from_cmvn(short.as_bytes(), &read_f32) {
        Err(FunasrError::InvalidCmvnFile(m)) => assert_eq!(m, "Expected CMVN means length 560, got 2"),
        _ => panic!("expected InvalidCmvnFile"),
    }
}

#[test]
fn fbank_frames_step_by_frame_shift() {
    let audio: Vec<i32> = (0..720).collect();
    let frames = fbank_frames(&audio, &|f: &[i32]| -> Result<[i32; N_MELS], FunasrError> {
        Ok([f[0] + f[FRAME_LENGTH - 1]; N_MELS])
    })
    .unwrap();
    // (720 - 400) / 160 + 1 = 3 frames, starting at 0, 160 and 320
    assert_eq!(frames.len(), 3);
    assert_eq!(frames[0][0], 399);
    assert_eq!(frames[1][79], 160 + 559);
    assert_eq!(frames[2][0], 320 + 719);
}

#[test]
fn apply_cmvn_zips_as_far_as_all_reach() {
    let feats = vec![vec![1, 2, 3], vec![4, 5]];
    let out = apply_cmvn(&feats, &[10, 20, 30], &[2, 2], &|v: i32, m: i32, s: i32| (v + m) * s);
    assert_eq!(out, vec![vec![22, 44], vec![28, 50]]);
}
