//! Sherpa-ONNX model discovery and validation.
//!
//! The file system is probed by the caller; this module decides, from what
//! the probe found, whether a model directory is usable and how it is listed.

use vstd::prelude::*;

use crate::sherpa::error::{sherpa_error_text, SherpaOnnxError};
use crate::text::{occurs_at, push_chars, str_chars};

verus! {

broadcast use vstd::string::group_string_axioms;

/// Number of files a SenseVoice model directory must hold.
pub const REQUIRED_FILE_COUNT: usize = 3;

/// Status of a discovered model.
#[derive(Debug, Clone)]
pub enum ModelStatus {
    /// Model has all required files and is ready for inference.
    Ready,
    /// Model is missing some required files.
    Missing { details: String },
}

impl PartialEq for ModelStatus {
    fn eq(&self, other: &Self) -> (r: bool) {
        match (self, other) {
            (ModelStatus::Ready, ModelStatus::Ready) => true,
            (ModelStatus::Missing { details: a }, ModelStatus::Missing { details: b }) => a.eq(b),
            _ => false,
        }
    }
}

/// Two statuses are equal when both are Ready, or both are Missing with the
/// same details.
impl vstd::std_specs::cmp::PartialEqSpecImpl for ModelStatus {
    open spec fn obeys_eq_spec() -> bool {
        true
    }

    open spec fn eq_spec(&self, other: &Self) -> bool {
        match (self, other) {
            (ModelStatus::Ready, ModelStatus::Ready) => true,
            (ModelStatus::Missing { details: a }, ModelStatus::Missing { details: b }) => a@ == b@,
            _ => false,
        }
    }
}

/// Information about a discovered Sherpa-ONNX model.
#[derive(Debug, Clone)]
pub struct ModelInfo {
    /// Display name, e.g. "SherpaONNX-sensevoice"
    pub name: String,
    /// Model type identifier, e.g. "sensevoice"
    pub model_type: String,
    /// Full path to the model directory.
    pub path: String,
    /// Whether the model is ready for use.
    pub status: ModelStatus,
}

/// Entry for a discovered sherpa-onnx model, as the scan command reports it.
#[derive(Debug)]
pub struct SherpaOnnxModelEntry {
    pub name: String,
    pub path: String,
    pub valid: bool,
}

/// What a probe of one subdirectory of the models directory found.
#[derive(Debug)]
pub struct ModelDirProbe {
    /// The directory's own name.
    pub model_type: String,
    /// The directory's full path.
    pub path: String,
    /// For each required file, in order, whether it exists in the directory.
    pub present: [bool; 3],
}

/// The name of the `i`-th file a SenseVoice model directory must hold.
pub open spec fn required_file(i: int) -> Seq<char> {
    if i == 0 {
        "sensevoice-encoder-2.5-192-768.onnx"@
    } else if i == 1 {
        "sensevoice-decoder-2.5-192-768.onnx"@
    } else {
        "tokens.txt"@
    }
}

/// The name of the `i`-th file a SenseVoice model directory must hold.
pub fn required_file_name(i: usize) -> (name: &'static str)
    requires
        i < REQUIRED_FILE_COUNT,
    ensures
        name@ == required_file(i as int),
{
    if i == 0 {
        "sensevoice-encoder-2.5-192-768.onnx"
    } else if i == 1 {
        "sensevoice-decoder-2.5-192-768.onnx"
    } else {
        "tokens.txt"
    }
}

/// `Path::join` with `/` as separator: an absolute name replaces the
/// directory; a relative one is appended, with a separator unless the
/// directory is empty or already ends in one.
pub open spec fn join_path(dir: Seq<char>, name: Seq<char>) -> Seq<char> {
    if name.len() > 0 && name[0] == '/' {
        name
    } else if dir.len() == 0 || dir.last() == '/' {
        dir + name
    } else {
        dir.push('/') + name
    }
}

/// The path of `name` inside `dir`.
pub fn join(dir: &str, name: &str) -> (p: String)
    ensures
        p@ == join_path(dir@, name@),
{
    let name_cs = str_chars(name);
    if name_cs.len() > 0 && name_cs[0] == '/' {
        return String::from_str(name);
    }
    let cs = str_chars(dir);
    let mut p = String::new();
    push_chars(&mut p, cs.as_slice(), 0, cs.len());
    assert(cs@.subrange(0, cs@.len() as int) =~= cs@);
    if cs.len() > 0 && cs[cs.len() - 1] != '/' {
        p.append("/");
        assert("/"@ =~= seq!['/']) by {
            reveal_strlit("/");
        }
    }
    p.append(name);
    p
}

/// The path the validation of a model directory reports as missing, if any:
/// the directory itself, or else the first required file it lacks.
pub open spec fn missing_path(dir: Seq<char>, dir_exists: bool, present: Seq<bool>) -> Option<
    Seq<char>,
> {
    if !dir_exists {
        Some(dir)
    } else if !present[0] {
        Some(join_path(dir, required_file(0)))
    } else if !present[1] {
        Some(join_path(dir, required_file(1)))
    } else if !present[2] {
        Some(join_path(dir, required_file(2)))
    } else {
        None
    }
}

/// Validate that a model directory has all required files.
/// For SenseVoice: encoder.onnx, decoder.onnx, tokens.txt.
///
/// `dir_exists` says whether `model_dir` exists, and `present[i]` whether the
/// `i`-th required file exists inside it.
pub fn validate_model_dir(model_dir: &str, dir_exists: bool, present: &[bool; 3]) -> (r: Result<
    (),
    SherpaOnnxError,
>)
    ensures
        match missing_path(model_dir@, dir_exists, present@) {
            None => r is Ok,
            Some(p) => r matches Err(SherpaOnnxError::ModelNotFound(m)) && m@ == p,
        },
{
    if !dir_exists {
        return Err(SherpaOnnxError::ModelNotFound(String::from_str(model_dir)));
    }
    let mut i: usize = 0;
    while i < REQUIRED_FILE_COUNT
        invariant
            i <= REQUIRED_FILE_COUNT,
            dir_exists,
            present@.len() == 3,
            forall|j: int| 0 <= j < i ==> present@[j],
        decreases REQUIRED_FILE_COUNT - i,
    {
        if !present[i] {
            let name = required_file_name(i);
            let p = join(model_dir, name);
            assert(missing_path(model_dir@, dir_exists, present@) == Some(p@)) by {
                assert(!present@[i as int]);
                if i >= 1 {
                    assert(present@[0]);
                }
                if i >= 2 {
                    assert(present@[1]);
                }
            }
            return Err(SherpaOnnxError::ModelNotFound(p));
        }
        i += 1;
    }
    Ok(())
}

/// `info` lists the probed model directory `probe`.
pub open spec fn lists(info: ModelInfo, probe: ModelDirProbe) -> bool {
    &&& info.name@ == "SherpaONNX-"@ + probe.model_type@
    &&& info.model_type@ == probe.model_type@
    &&& info.path@ == probe.path@
    &&& match missing_path(probe.path@, true, probe.present@) {
        None => info.status is Ready,
        Some(p) => info.status matches ModelStatus::Missing { details } && details@
            == "Model not found at "@ + p,
    }
}

/// The listing of one probed model directory.
pub fn model_info(probe: &ModelDirProbe) -> (info: ModelInfo)
    ensures
        lists(info, *probe),
{
    let status = match validate_model_dir(probe.path.as_str(), true, &probe.present) {
        Ok(()) => ModelStatus::Ready,
        Err(e) => ModelStatus::Missing { details: e.message() },
    };
    ModelInfo {
        name: String::from_str("SherpaONNX-").concat(probe.model_type.as_str()),
        model_type: probe.model_type.clone(),
        path: probe.path.clone(),
        status,
    }
}

/// List the model directories found in the models directory. Each subdirectory
/// is listed, Ready when it holds every required file; nothing is listed when
/// the models directory does not exist.
pub fn discover_models(models_dir_exists: bool, subdirs: &[ModelDirProbe]) -> (models: Vec<
    ModelInfo,
>)
    ensures
        models.len() == (if models_dir_exists {
            subdirs@.len()
        } else {
            0
        }),
        forall|i: int| 0 <= i < models.len() ==> lists(#[trigger] models@[i], subdirs@[i]),
{
    let mut models: Vec<ModelInfo> = Vec::new();
    if !models_dir_exists {
        return models;
    }
    let mut i: usize = 0;
    while i < subdirs.len()
        invariant
            i <= subdirs@.len(),
            models.len() == i,
            forall|j: int| 0 <= j < i ==> lists(#[trigger] models@[j], subdirs@[j]),
        decreases subdirs@.len() - i,
    {
        models.push(model_info(&subdirs[i]));
        i += 1;
    }
    models
}

/// `entry` reports the listed model `info`.
pub open spec fn reports(entry: SherpaOnnxModelEntry, info: ModelInfo) -> bool {
    &&& entry.name@ == info.model_type@
    &&& entry.path@ == info.path@
    &&& entry.valid == (info.status is Ready)
}

/// The entries the scan command reports for the listed models.
pub fn scan_entries(models: &[ModelInfo]) -> (entries: Vec<SherpaOnnxModelEntry>)
    ensures
        entries.len() == models@.len(),
        forall|i: int| 0 <= i < entries.len() ==> reports(#[trigger] entries@[i], models@[i]),
{
    let mut entries: Vec<SherpaOnnxModelEntry> = Vec::new();
    let mut i: usize = 0;
    while i < models.len()
        invariant
            i <= models@.len(),
            entries.len() == i,
            forall|j: int| 0 <= j < i ==> reports(#[trigger] entries@[j], models@[j]),
        decreases models@.len() - i,
    {
        let m = &models[i];
        let valid = match m.status {
            ModelStatus::Ready => true,
            ModelStatus::Missing { .. } => false,
        };
        entries.push(
            SherpaOnnxModelEntry { name: m.model_type.clone(), path: m.path.clone(), valid },
        );
        i += 1;
    }
    entries
}

/// A listed model directory is reported valid exactly when it holds all
/// required files.
pub proof fn lemma_reported_valid_iff_complete(
    probe: ModelDirProbe,
    info: ModelInfo,
    entry: SherpaOnnxModelEntry,
)
    requires
        lists(info, probe),
        reports(entry, info),
    ensures
        entry.valid <==> (probe.present@[0] && probe.present@[1] && probe.present@[2]),
{
}

/// A model directory passes validation exactly when it exists and holds all
/// required files; otherwise the error names a path that does not exist.
pub proof fn lemma_validation_ok_iff_complete(dir: Seq<char>, dir_exists: bool, present: [bool; 3])
    ensures
        (missing_path(dir, dir_exists, present@) is None) <==> (dir_exists && present@[0]
            && present@[1] && present@[2]),
{
}


/// A file name with the extension `onnx` (a non-empty stem, then `.onnx`).
pub open spec fn is_onnx_name(n: Seq<char>) -> bool {
    n.len() > 5 && n.subrange(n.len() - 5, n.len() as int) == ".onnx"@
}

/// The first of `names`, from position `j` on, that is an ONNX model file.
pub open spec fn first_onnx_from(names: Seq<Seq<char>>, j: nat) -> Option<nat>
    decreases names.len() - j,
{
    if j >= names.len() {
        None
    } else if is_onnx_name(names[j as int]) {
        Some(j)
    } else {
        first_onnx_from(names, j + 1)
    }
}

/// What checking a recognizer's model directory gives: the position of the
/// model file to load, or the path reported as missing — the directory, its
/// `tokens.txt`, or `*.onnx` in it when it holds no ONNX file.
pub open spec fn engine_dir_result(
    dir: Seq<char>,
    dir_exists: bool,
    tokens_present: bool,
    names: Seq<Seq<char>>,
) -> Result<nat, Seq<char>> {
    if !dir_exists {
        Err(dir)
    } else if !tokens_present {
        Err(join_path(dir, "tokens.txt"@))
    } else {
        match first_onnx_from(names, 0) {
            Some(k) => Ok(k),
            None => Err(join_path(dir, "*.onnx"@)),
        }
    }
}

/// Check that a recognizer's model directory has `tokens.txt` and at least
/// one `.onnx` file, and choose the model file: the first ONNX file of
/// `file_names`, the names of the files in the directory.
pub fn check_engine_dir(
    model_dir: &str,
    dir_exists: bool,
    tokens_present: bool,
    file_names: &[String],
) -> (r: Result<usize, SherpaOnnxError>)
    ensures
        match engine_dir_result(model_dir@, dir_exists, tokens_present, string_views(file_names@)) {
            Ok(k) => r matches Ok(i) && i == k,
            Err(p) => r matches Err(SherpaOnnxError::ModelNotFound(m)) && m@ == p,
        },
{
    if !dir_exists {
        return Err(SherpaOnnxError::ModelNotFound(String::from_str(model_dir)));
    }
    if !tokens_present {
        return Err(SherpaOnnxError::ModelNotFound(join(model_dir, "tokens.txt")));
    }
    let ghost names = string_views(file_names@);
    let ext = str_chars(".onnx");
    proof {
        reveal_strlit(".onnx");
    }
    let mut j: usize = 0;
    while j < file_names.len()
        invariant
            dir_exists,
            tokens_present,
            ext@.len() == 5,
            j <= file_names@.len(),
            names == string_views(file_names@),
            ext@ == ".onnx"@,
            first_onnx_from(names, 0) == first_onnx_from(names, j as nat),
        decreases file_names@.len() - j,
    {
        let cs = str_chars(file_names[j].as_str());
        let n = cs.len();
        let hit = n > 5 && occurs_at(cs.as_slice(), n - 5, ext.as_slice());
        assert(names[j as int] == cs@);
        if hit {
            assert(is_onnx_name(names[j as int]));
            return Ok(j);
        }
        j += 1;
    }
    Err(SherpaOnnxError::ModelNotFound(join(model_dir, "*.onnx")))
}

/// The views of a list of strings.
pub open spec fn string_views(v: Seq<String>) -> Seq<Seq<char>> {
    v.map_values(|s: String| s@)
}


proof fn lemma_first_onnx_from(names: Seq<Seq<char>>, j: nat)
    ensures
        first_onnx_from(names, j) matches Some(k) ==> j <= k < names.len() && is_onnx_name(
            names[k as int],
        ) && forall|i: int| j <= i < k ==> !is_onnx_name(#[trigger] names[i]),
        first_onnx_from(names, j) is None ==> forall|i: int|
            j <= i < names.len() ==> !is_onnx_name(#[trigger] names[i]),
    decreases names.len() - j,
{
    if j < names.len() && !is_onnx_name(names[j as int]) {
        lemma_first_onnx_from(names, j + 1);
    }
}

/// For a directory that exists and holds `tokens.txt`, the check succeeds
/// exactly when one of the names is an ONNX model file, and then picks the
/// first such name; otherwise it reports `*.onnx` in the directory.
pub proof fn lemma_engine_dir_picks_first_onnx(dir: Seq<char>, names: Seq<Seq<char>>)
    ensures
        engine_dir_result(dir, true, true, names) is Ok <==> exists|k: int|
            0 <= k < names.len() && is_onnx_name(#[trigger] names[k]),
        engine_dir_result(dir, true, true, names) matches Ok(k) ==> k < names.len()
            && is_onnx_name(names[k as int]) && forall|i: int|
            0 <= i < k ==> !is_onnx_name(#[trigger] names[i]),
        engine_dir_result(dir, true, true, names) matches Err(p) ==> p == join_path(
            dir,
            "*.onnx"@,
        ),
{
    lemma_first_onnx_from(names, 0);
}

/// A missing directory is reported first, then a missing `tokens.txt`.
pub proof fn lemma_engine_dir_missing_parts(
    dir: Seq<char>,
    tokens_present: bool,
    names: Seq<Seq<char>>,
)
    ensures
        engine_dir_result(dir, false, tokens_present, names) == Err::<nat, Seq<char>>(dir),
        engine_dir_result(dir, true, false, names) == Err::<nat, Seq<char>>(
            join_path(dir, "tokens.txt"@),
        ),
{
}

} // verus!
