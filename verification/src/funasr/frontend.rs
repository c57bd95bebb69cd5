//! The FunASR front end: audio length checks, framing into filterbank
//! frames, Low Frame Rate stacking, CMVN normalisation and flattening of
//! features, generic over the sample type.
//!
//! The floating-point arithmetic (the mel energies of one frame, the CMVN
//! formula on one value) is the caller's, handed in as functions.

use vstd::prelude::*;

use crate::funasr::cmvn::{
    accepts_cmvn_values, cmvn_file_error, cmvn_value_rejected, cmvn_vector_text, parse_kaldi_cmvn,
    parses_to,
};
use crate::funasr::error::FunasrError;
use vstd::array::array_as_slice;
use vstd::slice::{slice_subrange, slice_to_vec};

verus! {

broadcast use vstd::array::group_array_axioms;

pub const SAMPLE_RATE: u32 = 16000;

/// 25 ms at 16 kHz.
pub const FRAME_LENGTH: usize = 400;

/// 10 ms at 16 kHz.
pub const FRAME_SHIFT: usize = 160;

pub const N_MELS: usize = 80;

pub const LFR_M: usize = 7;

pub const LFR_N: usize = 6;

/// `N_MELS * LFR_M`.
pub const FEAT_DIM: usize = 560;

/// Next power of two at or above `FRAME_LENGTH`.
pub const FFT_SIZE: usize = 512;

/// Reject audio that is empty or shorter than one frame.
pub fn check_audio_len(n_samples: usize) -> (r: Result<(), FunasrError>)
    ensures
        n_samples == 0 ==> r matches Err(FunasrError::EmptyAudio),
        0 < n_samples < FRAME_LENGTH ==> (r matches Err(FunasrError::AudioTooShort { min, actual })
            && min == FRAME_LENGTH && actual == n_samples),
        n_samples >= FRAME_LENGTH ==> r is Ok,
{
    if n_samples == 0 {
        return Err(FunasrError::EmptyAudio);
    }
    if n_samples < FRAME_LENGTH {
        return Err(FunasrError::AudioTooShort { min: FRAME_LENGTH, actual: n_samples });
    }
    Ok(())
}

/// Number of filterbank frames for `n` samples.
pub open spec fn fbank_frame_count(n: nat) -> nat {
    (if n >= FRAME_LENGTH {
        (n - FRAME_LENGTH) as nat
    } else {
        0nat
    }) / (FRAME_SHIFT as nat) + 1
}

/// Number of filterbank frames for `n_samples` samples: one frame per
/// `FRAME_SHIFT` samples after the first `FRAME_LENGTH`.
pub fn num_fbank_frames(n_samples: usize) -> (n: usize)
    ensures
        n == fbank_frame_count(n_samples as nat),
{
    n_samples.saturating_sub(FRAME_LENGTH) / FRAME_SHIFT + 1
}

/// The filterbank frame that stands at position `k` of the left-padded
/// sequence: the first frame is repeated `(LFR_M - 1) / 2` times in front.
pub open spec fn padded_source(k: int) -> int {
    if k < 3 {
        0
    } else {
        k - 3
    }
}

/// Frames `start .. start + count` of the padded sequence, concatenated.
pub open spec fn stacked<T>(frames: Seq<Seq<T>>, start: int, count: nat) -> Seq<T>
    decreases count,
{
    if count == 0 {
        seq![]
    } else {
        stacked(frames, start, (count - 1) as nat) + frames[padded_source(start + count - 1)]
    }
}

/// Number of rows Low Frame Rate stacking produces from `t` frames: a row
/// starts every `LFR_N` padded frames as long as `LFR_M` frames remain.
pub open spec fn lfr_row_count(t: nat) -> nat {
    if t < 4 {
        0
    } else {
        ((t - 4) as nat / 6 + 1) as nat
    }
}

/// The views of the frames.
pub open spec fn frames_view<T>(frames: Seq<Vec<T>>) -> Seq<Seq<T>> {
    frames.map_values(|f: Vec<T>| f@)
}

/// Appends copies of the elements of `src` to `out`.
pub fn append_copies<T: Copy>(out: &mut Vec<T>, src: &[T])
    ensures
        final(out)@ == old(out)@ + src@,
{
    let mut e: usize = 0;
    while e < src.len()
        invariant
            e <= src@.len(),
            out@ == old(out)@ + src@.take(e as int),
        decreases src@.len() - e,
    {
        out.push(src[e]);
        assert(src@.take(e + 1) =~= src@.take(e as int).push(src@[e as int]));
        e += 1;
    }
    assert(src@.take(src@.len() as int) =~= src@);
}

/// Apply Low Frame Rate stacking.
///
/// Left-pads with `(LFR_M - 1)/2` copies of the first frame, then stacks every
/// `LFR_N` frames taking `LFR_M` consecutive frames per output row.
#[verifier::spinoff_prover]
pub fn apply_lfr<T: Copy>(fbank: &[Vec<T>]) -> (out: Vec<Vec<T>>)
    ensures
        out.len() == lfr_row_count(fbank@.len()),
        forall|i: int|
            0 <= i < out.len() ==> (#[trigger] out@[i])@ == stacked(
                frames_view(fbank@),
                6 * i,
                LFR_M as nat,
            ),
{
    let t = fbank.len();
    let mut output: Vec<Vec<T>> = Vec::new();
    if t == 0 {
        return output;
    }
    // Ceiling division for the nominal output length
    let t_lfr = t / LFR_N + if t % LFR_N != 0 {
        1
    } else {
        0
    };
    let ghost frames = frames_view(fbank@);
    let mut i: usize = 0;
    while i < t_lfr
        invariant_except_break
            t == fbank@.len(),
            t > 0,
            t_lfr == t / 6 + if t % 6 != 0 {
                1nat
            } else {
                0nat
            },
            i <= t_lfr,
            frames == frames_view(fbank@),
            output.len() == i,
            4 <= t ==> i <= (t - 4) / 6 + 1,
            t < 4 ==> i == 0,
            forall|r: int|
                0 <= r < output.len() ==> (#[trigger] output@[r])@ == stacked(
                    frames,
                    6 * r,
                    LFR_M as nat,
                ),
        ensures
            output.len() == lfr_row_count(t as nat),
            frames == frames_view(fbank@),
            forall|r: int|
                0 <= r < output.len() ==> (#[trigger] output@[r])@ == stacked(
                    frames,
                    6 * r,
                    LFR_M as nat,
                ),
        decreases t_lfr - i,
    {
        let start = i * LFR_N;
        if t < 4 || start > t - 4 {
            // Not enough frames for a full output row
            break;
        }
        let mut feat: Vec<T> = Vec::new();
        let mut j: usize = 0;
        while j < LFR_M
            invariant
                t == fbank@.len(),
                4 <= t,
                start + 4 <= t,
                start == 6 * i,
                j <= LFR_M,
                frames == frames_view(fbank@),
                feat@ == stacked(frames, start as int, j as nat),
            decreases LFR_M - j,
        {
            let k = start + j;
            let src = if k < 3 {
                0
            } else {
                k - 3
            };
            append_copies(&mut feat, fbank[src].as_slice());
            j += 1;
        }
        output.push(feat);
        i += 1;
    }
    output
}

/// Rows `0 .. n` concatenated.
pub open spec fn concat_rows<T>(rows: Seq<Seq<T>>, n: nat) -> Seq<T>
    decreases n,
{
    if n == 0 {
        seq![]
    } else {
        concat_rows(rows, (n - 1) as nat) + rows[n - 1]
    }
}

/// The rows laid out one after another.
pub fn flatten_rows<T: Copy>(rows: &[Vec<T>]) -> (out: Vec<T>)
    ensures
        out@ == concat_rows(frames_view(rows@), rows@.len()),
{
    let ghost v = frames_view(rows@);
    let mut out: Vec<T> = Vec::new();
    let mut i: usize = 0;
    while i < rows.len()
        invariant
            i <= rows@.len(),
            v == frames_view(rows@),
            out@ == concat_rows(v, i as nat),
        decreases rows@.len() - i,
    {
        append_copies(&mut out, rows[i].as_slice());
        i += 1;
    }
    out
}


proof fn lemma_stacked_len<T>(frames: Seq<Seq<T>>, start: int, count: nat, w: nat)
    requires
        0 <= start,
        frames.len() > 0,
        start + count <= frames.len() + 3,
        forall|k: int| 0 <= k < frames.len() ==> (#[trigger] frames[k]).len() == w,
    ensures
        stacked(frames, start, count).len() == count * w,
    decreases count,
{
    if count > 0 {
        lemma_stacked_len(frames, start, (count - 1) as nat, w);
        assert(0 <= padded_source(start + count - 1) < frames.len());
        assert(frames[padded_source(start + count - 1)].len() == w);
        assert(((count - 1) as nat) * w + w == count * w) by (nonlinear_arith)
            requires
                count > 0,
        ;
    } else {
        assert(count * w == 0) by (nonlinear_arith)
            requires
                count == 0,
        ;
    }
}

/// When every filterbank frame has `w` values, every Low Frame Rate row has
/// `LFR_M * w` values (`FEAT_DIM` for `N_MELS`-wide frames).
pub proof fn lemma_lfr_row_width<T>(frames: Seq<Seq<T>>, i: int, w: nat)
    requires
        0 <= i < lfr_row_count(frames.len()),
        forall|k: int| 0 <= k < frames.len() ==> (#[trigger] frames[k]).len() == w,
    ensures
        stacked(frames, 6 * i, LFR_M as nat).len() == LFR_M * w,
{
    lemma_stacked_len(frames, 6 * i, LFR_M as nat, w);
}

/// Rows of `d` values each flatten to `n * d` values.
pub proof fn lemma_flatten_len<T>(rows: Seq<Seq<T>>, n: nat, d: nat)
    requires
        n <= rows.len(),
        forall|k: int| 0 <= k < rows.len() ==> (#[trigger] rows[k]).len() == d,
    ensures
        concat_rows(rows, n).len() == n * d,
    decreases n,
{
    if n > 0 {
        lemma_flatten_len(rows, (n - 1) as nat, d);
        assert(rows[n - 1].len() == d);
        assert(((n - 1) as nat) * d + d == n * d) by (nonlinear_arith)
            requires
                n > 0,
        ;
    } else {
        assert(n * d == 0) by (nonlinear_arith)
            requires
                n == 0,
        ;
    }
}

/// The `r`-th block of `d` values of the flattened rows is row `r`.
pub proof fn lemma_flatten_block<T>(rows: Seq<Seq<T>>, n: nat, d: nat, r: int, e: int)
    requires
        n <= rows.len(),
        forall|k: int| 0 <= k < rows.len() ==> (#[trigger] rows[k]).len() == d,
        0 <= r < n,
        0 <= e < d,
    ensures
        r * d + e < concat_rows(rows, n).len(),
        concat_rows(rows, n)[r * d + e] == rows[r][e],
    decreases n,
{
    lemma_flatten_len(rows, n, d);
    lemma_flatten_len(rows, (n - 1) as nat, d);
    assert(((n - 1) as nat) * d + d == n * d) by (nonlinear_arith)
        requires
            n > 0,
    ;
    if r < n - 1 {
        lemma_flatten_block(rows, (n - 1) as nat, d, r, e);
        assert(r * d + e < ((n - 1) as nat) * d) by (nonlinear_arith)
            requires
                r < n - 1,
                e < d,
                0 <= r,
                0 <= e,
        ;
    } else {
        assert(r * d == ((n - 1) as nat) * d);
    }
}


/// The Low Frame Rate rows of `frames`, as `apply_lfr` produces them.
pub open spec fn lfr_rows<T>(frames: Seq<Seq<T>>) -> Seq<Seq<T>> {
    Seq::new(lfr_row_count(frames.len()), |i: int| stacked(frames, 6 * i, LFR_M as nat))
}

/// Stacking `N_MELS`-wide filterbank frames and flattening the rows gives
/// `FEAT_DIM` values per row: the model input holds `T_lfr * FEAT_DIM` values.
pub proof fn lemma_lfr_features_len<T>(frames: Seq<Seq<T>>)
    requires
        forall|k: int| 0 <= k < frames.len() ==> (#[trigger] frames[k]).len() == N_MELS,
    ensures
        concat_rows(lfr_rows(frames), lfr_row_count(frames.len())).len() == lfr_row_count(
            frames.len(),
        ) * FEAT_DIM,
{
    let rows = lfr_rows(frames);
    assert forall|k: int| 0 <= k < rows.len() implies (#[trigger] rows[k]).len() == FEAT_DIM by {
        lemma_lfr_row_width(frames, k, N_MELS as nat);
    }
    lemma_flatten_len(rows, lfr_row_count(frames.len()), FEAT_DIM as nat);
}


/// The samples of filterbank frame `t`: `FRAME_LENGTH` samples from
/// `t * FRAME_SHIFT`.
pub open spec fn frame_samples<T>(samples: Seq<T>, t: int) -> Seq<T> {
    samples.subrange(t * FRAME_SHIFT, t * FRAME_SHIFT + FRAME_LENGTH)
}

/// `mel` may turn the frame samples `frame` into `out`.
pub open spec fn mel_gives<T, F: Fn(&[T]) -> Result<[T; N_MELS], FunasrError>>(
    mel: F,
    frame: Seq<T>,
    out: Result<[T; N_MELS], FunasrError>,
) -> bool {
    exists|s: &[T]| #![trigger call_ensures(mel, (s,), out)] s@ == frame && call_ensures(mel, (s,), out)
}

/// `row` holds the energies `mel` may give for the frame samples `frame`.
pub open spec fn mel_row<T, F: Fn(&[T]) -> Result<[T; N_MELS], FunasrError>>(
    mel: F,
    frame: Seq<T>,
    row: Seq<T>,
) -> bool {
    exists|a: [T; N_MELS]| #![trigger mel_gives(mel, frame, Ok(a))] row == a@ && mel_gives(mel, frame, Ok(a))
}

/// `mel` never fails.
pub open spec fn mel_never_fails<T, F: Fn(&[T]) -> Result<[T; N_MELS], FunasrError>>(mel: F) -> bool {
    forall|s: &[T], out: Result<[T; N_MELS], FunasrError>| #[trigger] call_ensures(mel, (s,), out) ==> out is Ok
}

/// The log-mel filterbank frames of `samples`: frame `t` holds the `N_MELS`
/// energies that `mel_frame` (the caller's windowing, FFT and mel filterbank)
/// gives for the samples from `t * FRAME_SHIFT`. The first frame that fails
/// ends the computation with its error.
pub fn fbank_frames<T: Copy, F: Fn(&[T]) -> Result<[T; N_MELS], FunasrError>>(
    samples: &[T],
    mel_frame: &F,
) -> (r: Result<Vec<Vec<T>>, FunasrError>)
    requires
        samples@.len() >= FRAME_LENGTH,
        forall|s: &[T]| #[trigger] call_requires(*mel_frame, (s,)),
    ensures
        r matches Ok(frames) ==> frames@.len() == fbank_frame_count(samples@.len()) && forall|t: int|
            0 <= t < frames@.len() ==> (#[trigger] frames@[t])@.len() == N_MELS && mel_row(
                *mel_frame,
                frame_samples(samples@, t),
                frames@[t]@,
            ),
        r matches Err(e) ==> exists|t: int|
            0 <= t < fbank_frame_count(samples@.len()) && #[trigger] mel_gives(
                *mel_frame,
                frame_samples(samples@, t),
                Err(e),
            ),
        mel_never_fails(*mel_frame) ==> r is Ok,
{
    let len = samples.len();
    let n = num_fbank_frames(len);
    let mut frames: Vec<Vec<T>> = Vec::new();
    let mut t: usize = 0;
    let mut offset: usize = 0;
    while t < n
        invariant
            len == samples@.len(),
            n == fbank_frame_count(len as nat),
            len >= FRAME_LENGTH,
            t <= n,
            offset == t * FRAME_SHIFT,
            frames@.len() == t,
            forall|s: &[T]| #[trigger] call_requires(*mel_frame, (s,)),
            forall|k: int|
                0 <= k < t ==> (#[trigger] frames@[k])@.len() == N_MELS && mel_row(
                    *mel_frame,
                    frame_samples(samples@, k),
                    frames@[k]@,
                ),
        decreases n - t,
    {
        assert(offset + FRAME_LENGTH <= len) by (nonlinear_arith)
            requires
                t < n,
                n == (len - 400) / 160 + 1,
                offset == t * 160,
                len >= 400,
        ;
        let s = slice_subrange(samples, offset, offset + FRAME_LENGTH);
        assert(s@ == frame_samples(samples@, t as int));
        let res = mel_frame(s);
        assert(call_ensures(*mel_frame, (s,), res));
        match res {
            Ok(a) => {
                assert(mel_gives(*mel_frame, frame_samples(samples@, t as int), Ok(a)));
                let row = slice_to_vec(array_as_slice(&a));
                assert(row@ == a@);
                frames.push(row);
            },
            Err(e) => {
                assert(mel_gives(*mel_frame, frame_samples(samples@, t as int), Err(e)));
                return Err(e);
            },
        }
        t += 1;
        offset += FRAME_SHIFT;
    }
    Ok(frames)
}


/// The smallest of three lengths.
pub open spec fn min3(a: nat, b: nat, c: nat) -> nat {
    if a <= b && a <= c {
        a
    } else if b <= c {
        b
    } else {
        c
    }
}

/// `out` is `row` normalised with `means` and `inv_stds`: element `e` is what
/// `combine` gives for `row[e]`, `means[e]` and `inv_stds[e]`, as far as all
/// three reach.
pub open spec fn cmvn_row_of<T, C: Fn(T, T, T) -> T>(
    combine: C,
    row: Seq<T>,
    means: Seq<T>,
    inv_stds: Seq<T>,
    out: Seq<T>,
) -> bool {
    &&& out.len() == min3(row.len(), means.len(), inv_stds.len())
    &&& forall|e: int|
        0 <= e < out.len() ==> call_ensures(combine, (row[e], means[e], inv_stds[e]), #[trigger] out[e])
}

/// Apply CMVN normalisation to features: each element of each frame goes
/// through `combine` with the mean and inverse standard deviation at its
/// place (the caller's arithmetic, `(frame[i] + means[i]) * inv_stds[i]`).
pub fn apply_cmvn<T: Copy, C: Fn(T, T, T) -> T>(
    feats: &[Vec<T>],
    means: &[T],
    inv_stds: &[T],
    combine: &C,
) -> (out: Vec<Vec<T>>)
    requires
        forall|x: T, m: T, v: T| #[trigger] call_requires(*combine, (x, m, v)),
    ensures
        out@.len() == feats@.len(),
        forall|i: int|
            0 <= i < out@.len() ==> cmvn_row_of(
                *combine,
                feats@[i]@,
                means@,
                inv_stds@,
                (#[trigger] out@[i])@,
            ),
{
    let mut out: Vec<Vec<T>> = Vec::new();
    let mut i: usize = 0;
    while i < feats.len()
        invariant
            i <= feats@.len(),
            out@.len() == i,
            forall|x: T, m: T, v: T| #[trigger] call_requires(*combine, (x, m, v)),
            forall|k: int|
                0 <= k < i ==> cmvn_row_of(
                    *combine,
                    feats@[k]@,
                    means@,
                    inv_stds@,
                    (#[trigger] out@[k])@,
                ),
        decreases feats@.len() - i,
    {
        let frame = &feats[i];
        let mut row: Vec<T> = Vec::new();
        let mut e: usize = 0;
        while e < frame.len() && e < means.len() && e < inv_stds.len()
            invariant
                e <= frame@.len(),
                e <= means@.len(),
                e <= inv_stds@.len(),
                row@.len() == e,
                forall|x: T, m: T, v: T| #[trigger] call_requires(*combine, (x, m, v)),
                forall|q: int|
                    0 <= q < e ==> call_ensures(
                        *combine,
                        (frame@[q], means@[q], inv_stds@[q]),
                        #[trigger] row@[q],
                    ),
            decreases frame@.len() - e,
        {
            let v = combine(frame[e], means[e], inv_stds[e]);
            row.push(v);
            e += 1;
        }
        assert(cmvn_row_of(*combine, feats@[i as int]@, means@, inv_stds@, row@));
        out.push(row);
        i += 1;
    }
    out
}

/// `feats` is the model input for `audio`: the filterbank frames that `mel`
/// gives, stacked into Low Frame Rate rows, each row normalised through
/// `combine` with `means` and `inv_stds`, and the rows laid out one after
/// another.
pub open spec fn frontend_output<
    T,
    F: Fn(&[T]) -> Result<[T; N_MELS], FunasrError>,
    C: Fn(T, T, T) -> T,
>(mel: F, combine: C, audio: Seq<T>, means: Seq<T>, inv_stds: Seq<T>, feats: Seq<T>) -> bool {
    exists|frames: Seq<Seq<T>>, rows: Seq<Seq<T>>|
        #![trigger concat_rows(rows, lfr_row_count(frames.len()))]
        frames.len() == fbank_frame_count(audio.len()) && (forall|t: int|
            0 <= t < frames.len() ==> (#[trigger] frames[t]).len() == N_MELS && mel_row(
                mel,
                frame_samples(audio, t),
                frames[t],
            )) && rows.len() == lfr_row_count(frames.len()) && (forall|i: int|
            0 <= i < rows.len() ==> cmvn_row_of(
                combine,
                stacked(frames, 6 * i, LFR_M as nat),
                means,
                inv_stds,
                #[trigger] rows[i],
            )) && feats == concat_rows(rows, lfr_row_count(frames.len()))
}

/// Processes mono PCM audio into features for the Paraformer model, with the
/// CMVN vectors of a Kaldi CMVN file.
pub struct FunasrFrontend<T> {
    cmvn_means: Vec<T>,
    cmvn_inv_std: Vec<T>,
}

impl<T> FunasrFrontend<T> {
    #[verifier::type_invariant]
    spec fn cmvn_complete(self) -> bool {
        self.cmvn_means@.len() == FEAT_DIM && self.cmvn_inv_std@.len() == FEAT_DIM
    }
}

impl<T: Copy> FunasrFrontend<T> {
    /// The negative means (`<AddShift>`).
    pub closed spec fn means(&self) -> Seq<T> {
        self.cmvn_means@
    }

    /// The inverse standard deviations (`<Rescale>`).
    pub closed spec fn inv_stds(&self) -> Seq<T> {
        self.cmvn_inv_std@
    }

    /// Build a frontend from the bytes of a text-format Kaldi CMVN file, each
    /// value read through `parse`.
    pub fn from_cmvn<P: Fn(&str) -> Result<T, String>>(data: &[u8], parse: &P) -> (r: Result<
        Self,
        FunasrError,
    >)
        requires
            forall|s: &str| #[trigger] call_requires(*parse, (s,)),
        ensures
            r matches Err(e) ==> e is InvalidCmvnFile,
            r matches Ok(f) ==> {
                &&& f.means().len() == FEAT_DIM && f.inv_stds().len() == FEAT_DIM
                &&& cmvn_vector_text(data@, "AddShift"@) matches Ok(mv) && forall|k: int|
                    0 <= k < FEAT_DIM ==> parses_to(*parse, mv[k], Ok(#[trigger] f.means()[k]))
                &&& cmvn_vector_text(data@, "Rescale"@) matches Ok(sv) && forall|k: int|
                    0 <= k < FEAT_DIM ==> parses_to(*parse, sv[k], Ok(#[trigger] f.inv_stds()[k]))
            },
            r matches Err(FunasrError::InvalidCmvnFile(m)) ==> cmvn_file_error(data@) == Some(m@)
                || cmvn_value_rejected(*parse, data@, m@),
            accepts_cmvn_values(*parse, data@) ==> match cmvn_file_error(data@) {
                Some(msg) => r matches Err(FunasrError::InvalidCmvnFile(m)) && m@ == msg,
                None => r is Ok,
            },
    {
        let (cmvn_means, cmvn_inv_std) = parse_kaldi_cmvn(data, parse)?;
        Ok(FunasrFrontend { cmvn_means, cmvn_inv_std })
    }

    /// Process mono PCM audio into flattened LFR-CMVN features: the
    /// filterbank frames that `mel_frame` gives (the caller's scaling,
    /// windowing, FFT and mel filterbank), Low Frame Rate stacking, CMVN
    /// through `combine`, flattened. Returns the features, `FEAT_DIM` values
    /// per row, and the number of rows.
    pub fn process<F: Fn(&[T]) -> Result<[T; N_MELS], FunasrError>, C: Fn(T, T, T) -> T>(
        &self,
        audio: &[T],
        mel_frame: &F,
        combine: &C,
    ) -> (r: Result<(Vec<T>, usize), FunasrError>)
        requires
            forall|s: &[T]| #[trigger] call_requires(*mel_frame, (s,)),
            forall|x: T, m: T, v: T| #[trigger] call_requires(*combine, (x, m, v)),
        ensures
            audio@.len() == 0 ==> r matches Err(FunasrError::EmptyAudio),
            0 < audio@.len() < FRAME_LENGTH ==> (r matches Err(
                FunasrError::AudioTooShort { min, actual },
            ) && min == FRAME_LENGTH && actual == audio@.len()),
            r matches Ok((feats, n)) ==> {
                &&& n == lfr_row_count(fbank_frame_count(audio@.len()))
                &&& feats@.len() == n * FEAT_DIM
                &&& frontend_output(
                    *mel_frame,
                    *combine,
                    audio@,
                    self.means(),
                    self.inv_stds(),
                    feats@,
                )
            },
            audio@.len() >= FRAME_LENGTH ==> (r matches Err(e) ==> exists|t: int|
                0 <= t < fbank_frame_count(audio@.len()) && #[trigger] mel_gives(
                    *mel_frame,
                    frame_samples(audio@, t),
                    Err(e),
                )),
            audio@.len() >= FRAME_LENGTH && mel_never_fails(*mel_frame) ==> r is Ok,
    {
        proof {
            use_type_invariant(self);
        }
        check_audio_len(audio.len())?;
        let fbank = fbank_frames(audio, mel_frame)?;
        let lfr = apply_lfr(&fbank);
        let cmvn = apply_cmvn(&lfr, self.cmvn_means.as_slice(), self.cmvn_inv_std.as_slice(), combine);
        let feats = flatten_rows(&cmvn);
        let n = cmvn.len();
        proof {
            let frames = frames_view(fbank@);
            let rows = frames_view(cmvn@);
            assert forall|t: int| 0 <= t < frames.len() implies (#[trigger] frames[t]).len()
                == N_MELS && mel_row(*mel_frame, frame_samples(audio@, t), frames[t]) by {
                assert(frames[t] == fbank@[t]@);
            }
            assert forall|i: int| 0 <= i < rows.len() implies cmvn_row_of(
                *combine,
                stacked(frames, 6 * i, LFR_M as nat),
                self.means(),
                self.inv_stds(),
                #[trigger] rows[i],
            ) by {
                assert(rows[i] == cmvn@[i]@);
                assert(lfr@[i]@ == stacked(frames, 6 * i, LFR_M as nat));
            }
            assert forall|i: int| 0 <= i < rows.len() implies (#[trigger] rows[i]).len()
                == FEAT_DIM by {
                assert(rows[i] == cmvn@[i]@);
                assert(lfr@[i]@ == stacked(frames, 6 * i, LFR_M as nat));
                lemma_lfr_row_width(frames, i, N_MELS as nat);
                assert(cmvn_row_of(*combine, lfr@[i]@, self.means(), self.inv_stds(), rows[i]));
            }
            lemma_flatten_len(rows, n as nat, FEAT_DIM as nat);
            assert(feats@ == concat_rows(rows, lfr_row_count(frames.len())));
            assert(frontend_output(
                *mel_frame,
                *combine,
                audio@,
                self.means(),
                self.inv_stds(),
                feats@,
            ));
        }
        Ok((feats, n))
    }
}


proof fn lemma_stacked_block<T>(frames: Seq<Seq<T>>, start: int, count: nat, w: nat, j: int, e: int)
    requires
        0 <= start,
        frames.len() > 0,
        start + count <= frames.len() + 3,
        forall|k: int| 0 <= k < frames.len() ==> (#[trigger] frames[k]).len() == w,
        0 <= j < count,
        0 <= e < w,
    ensures
        j * w + e < stacked(frames, start, count).len(),
        stacked(frames, start, count)[j * w + e] == frames[padded_source(start + j)][e],
    decreases count,
{
    lemma_stacked_len(frames, start, count, w);
    lemma_stacked_len(frames, start, (count - 1) as nat, w);
    let prev = stacked(frames, start, (count - 1) as nat);
    assert(((count - 1) as nat) * w + w == count * w) by (nonlinear_arith)
        requires
            count > 0,
    ;
    if j < count - 1 {
        lemma_stacked_block(frames, start, (count - 1) as nat, w, j, e);
        assert(j * w + e < ((count - 1) as nat) * w) by (nonlinear_arith)
            requires
                0 <= j < count - 1,
                0 <= e < w,
        ;
    } else {
        assert(j * w == ((count - 1) as nat) * w);
    }
}

/// Low Frame Rate rows in closed form: with `w` values per filterbank frame,
/// row `i` holds `LFR_M * w` values, and its `j`-th block of `w` values is
/// filterbank frame `6 * i + j - 3`, or the first frame where that is
/// negative (the left padding).
pub proof fn lemma_lfr_row_blocks<T>(frames: Seq<Seq<T>>, w: nat, i: int, j: int, e: int)
    requires
        forall|k: int| 0 <= k < frames.len() ==> (#[trigger] frames[k]).len() == w,
        0 <= i < lfr_row_count(frames.len()),
        0 <= j < LFR_M,
        0 <= e < w,
    ensures
        stacked(frames, 6 * i, LFR_M as nat).len() == LFR_M * w,
        stacked(frames, 6 * i, LFR_M as nat)[j * w + e] == frames[if 6 * i + j < 3 {
            0
        } else {
            6 * i + j - 3
        }][e],
{
    assert(6 * i + 4 <= frames.len()) by (nonlinear_arith)
        requires
            0 <= i < lfr_row_count(frames.len()),
            lfr_row_count(frames.len()) == if frames.len() < 4 {
                0
            } else {
                ((frames.len() - 4) as nat / 6 + 1) as nat
            },
    ;
    lemma_stacked_len(frames, 6 * i, LFR_M as nat, w);
    lemma_stacked_block(frames, 6 * i, LFR_M as nat, w, j, e);
}

/// Row `i` is produced exactly when its `LFR_M` frames fit in the padded
/// sequence of `t + 3` frames.
pub proof fn lemma_lfr_row_count(t: nat, i: int)
    requires
        0 <= i,
    ensures
        i < lfr_row_count(t) <==> 6 * i + LFR_M <= t + 3,
{
    if t >= 4 {
        assert(i < (t - 4) as nat / 6 + 1 <==> 6 * i + 4 <= t) by (nonlinear_arith)
            requires
                t >= 4,
                0 <= i,
        ;
    }
}

} // verus!
