# meetily_asr

Speech-to-text support for the Meetily desktop app: FunASR (Paraformer)
feature layout, decoding and model files, and Sherpa-ONNX (SenseVoice) model
discovery, written in Verus.

- `src/` is the verified library.
  - `text` — Unicode white space, `trim`, substring removal, `lines`,
    `split_whitespace` and decimal rendering over characters.
  - `funasr::decoder` — logits to text: the per-frame argmax (first of equal
    maxima, under the caller's comparison), special ids dropped, the reported
    token count applied, vocabulary lookup, marker removal, trimming.
  - `funasr::frontend` — audio length checks, framing, Low Frame Rate
    stacking, CMVN normalisation and flattening into the model input, with
    the per-frame mel energies and the per-value CMVN formula supplied by the
    caller.
  - `funasr::cmvn` — the text form of Kaldi CMVN files, each value read
    through a caller's number reader.
  - `funasr::tokens` — `tokens.json` and the `token_list` of `config.yaml`.
  - `funasr::error`, `sherpa::error` — error types and their messages.
  - `sherpa::model` — validation and listing of SenseVoice model directories.
  - `providers` — ONNX Runtime execution-provider chains per GPU type.
- `app/` holds what is not verified: file and network I/O, the ONNX Runtime and
  sherpa-onnx sessions, the floating-point arithmetic (window, FFT and mel
  energies of one frame, the CMVN formula on one value, reading a CMVN value
  as `f32`, comparing two logits) and async plumbing.
- `tests/` runs the library on concrete inputs.
