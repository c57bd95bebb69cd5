//! Reading the text form of a Kaldi CMVN file (`am.mvn`).
//!
//! The file holds an `<AddShift>` section (negative means) and a `<Rescale>`
//! section (inverse standard deviations). The line after a section header
//! carries the vector in the form `<LearnRateCoef> 0 [ v1 v2 ... ]`. This
//! module locates a section and yields the textual values of its vector;
//! reading them as floating-point numbers is left to the caller.

use vstd::prelude::*;

use crate::funasr::error::FunasrError;
use crate::funasr::frontend::FEAT_DIM;
use crate::text::{
    decimal, line_bounds, lines, occurs_at, push_chars, push_decimal, spans,
    spans_within, str_chars, string_of, trim, trim_bounds, trim_start, trim_start_bound, words,
    word_bounds,
};
use vstd::string::StringSliceAdditionalSpecFns;
use vstd::utf8::{decode_utf8, encode_utf8_decode_utf8, valid_utf8};

verus! {

broadcast use vstd::string::group_string_axioms;

/// `std::str::from_utf8`: the text whose UTF-8 encoding is `data`, when
/// `data` is valid UTF-8.
#[verifier::external_body]
fn utf8_text(data: &[u8]) -> (r: Option<&str>)
    ensures
        r is Some <==> valid_utf8(data@),
        r matches Some(s) ==> s.spec_bytes() == data@,
{
    std::str::from_utf8(data).ok()
}

/// The header line that opens a section, e.g. `<AddShift>`.
pub open spec fn header_for(section: Seq<char>) -> Seq<char> {
    "<"@ + section + ">"@
}

/// The first line at or after `j` whose trimmed text starts with `header`.
pub open spec fn find_header_from(ls: Seq<Seq<char>>, header: Seq<char>, j: nat) -> Option<nat>
    decreases ls.len() - j,
{
    if j >= ls.len() {
        None
    } else if header.is_prefix_of(trim(ls[j as int])) {
        Some(j)
    } else {
        find_header_from(ls, header, j + 1)
    }
}

/// The textual values of the vector of section `section` in `text`, or the
/// description of what is wrong with the file.
pub open spec fn section_values(text: Seq<char>, section: Seq<char>) -> Result<
    Seq<Seq<char>>,
    Seq<char>,
> {
    let ls = lines(text);
    let header = header_for(section);
    match find_header_from(ls, header, 0) {
        None => Err("Missing '"@ + header + "' section in CMVN file"@),
        Some(h) => if h + 1 >= ls.len() {
            Err("Expected '<LearnRateCoef>' after '"@ + header + "'"@)
        } else {
            let line = ls[h + 1 as int];
            if !"<LearnRateCoef>"@.is_prefix_of(trim_start(line)) {
                Err("Expected '<LearnRateCoef>' after '"@ + header + "', got: "@ + trim(line))
            } else {
                let w = words(line);
                if w.len() < 4 || w[2] != "["@ || w.last() != "]"@ {
                    Err(
                        "Expected bracket-format vector after '"@ + header + "', got "@ + decimal(
                            w.len(),
                        ) + " tokens"@,
                    )
                } else {
                    Ok(w.subrange(3, w.len() - 1))
                }
            }
        },
    }
}

/// What reading the vector of `section` from the file bytes `data` gives.
pub open spec fn cmvn_vector_text(data: Seq<u8>, section: Seq<char>) -> Result<
    Seq<Seq<char>>,
    Seq<char>,
> {
    if !valid_utf8(data) {
        Err("CMVN file is not valid UTF-8"@)
    } else {
        section_values(decode_utf8(data), section)
    }
}

/// The views of a list of strings.
pub open spec fn strings_view(v: Seq<String>) -> Seq<Seq<char>> {
    v.map_values(|s: String| s@)
}

/// Whether the trimmed text of `cs[from..to]` starts with `pat`.
fn trimmed_starts_with(cs: &[char], from: usize, to: usize, pat: &[char]) -> (b: bool)
    requires
        from <= to <= cs@.len(),
    ensures
        b == pat@.is_prefix_of(trim(cs@.subrange(from as int, to as int))),
{
    let (a, e) = trim_bounds(cs, from, to);
    if pat.len() > e - a {
        return false;
    }
    let b = occurs_at(cs, a, pat);
    assert(cs@.subrange(a as int, e as int).subrange(0, pat@.len() as int) =~= cs@.subrange(
        a as int,
        a + pat@.len(),
    ));
    b
}

/// Parse a single vector from a text-format Kaldi CMVN section: find the first
/// line whose trimmed text starts with `<{section_name}>`, then read the
/// `<LearnRateCoef> 0 [ ... ]` line after it. Returns the values as text.
#[verifier::spinoff_prover]
pub fn cmvn_vector_tokens(data: &[u8], section_name: &str) -> (r: Result<Vec<String>, FunasrError>)
    ensures
        match cmvn_vector_text(data@, section_name@) {
            Ok(vals) => r matches Ok(v) && strings_view(v@) == vals,
            Err(msg) => r matches Err(FunasrError::InvalidCmvnFile(m)) && m@ == msg,
        },
{
    let text = match utf8_text(data) {
        Some(t) => t,
        None => {
            return Err(FunasrError::InvalidCmvnFile(String::from_str("CMVN file is not valid UTF-8")));
        },
    };
    proof {
        encode_utf8_decode_utf8(text@);
    }
    let cs = str_chars(text);
    let mut header = String::from_str("<");
    header.append(section_name);
    header.append(">");
    let header_cs = str_chars(header.as_str());

    let lb = line_bounds(cs.as_slice());
    let ghost ls = lines(cs@);
    let ghost hdr = header_for(section_name@);
    assert(spans(cs@, lb@).len() == lb@.len());

    // Locate the header line
    let mut j: usize = 0;
    while j < lb.len()
        invariant_except_break
            j <= lb@.len(),
            spans_within(lb@, cs@.len() as int),
            spans(cs@, lb@) == ls,
            header_cs@ == hdr,
            find_header_from(ls, hdr, 0) == find_header_from(ls, hdr, j as nat),
        ensures
            j <= lb@.len(),
            spans_within(lb@, cs@.len() as int),
            spans(cs@, lb@) == ls,
            header_cs@ == hdr,
            j < lb@.len() ==> find_header_from(ls, hdr, 0) == Some(j as nat),
            j == lb@.len() ==> find_header_from(ls, hdr, 0) is None,
        decreases lb@.len() - j,
    {
        let (a, b) = lb[j];
        assert(ls[j as int] == cs@.subrange(a as int, b as int));
        if trimmed_starts_with(cs.as_slice(), a, b, header_cs.as_slice()) {
            break;
        }
        j += 1;
    }
    if j == lb.len() {
        let mut m = String::from_str("Missing '");
        m.append(header.as_str());
        m.append("' section in CMVN file");
        return Err(FunasrError::InvalidCmvnFile(m));
    }
    if j + 1 >= lb.len() {
        let mut m = String::from_str("Expected '<LearnRateCoef>' after '");
        m.append(header.as_str());
        m.append("'");
        return Err(FunasrError::InvalidCmvnFile(m));
    }
    let (va, vb) = lb[j + 1];
    assert(ls[j + 1] == cs@.subrange(va as int, vb as int));
    let coef = str_chars("<LearnRateCoef>");
    let start = trim_start_bound(cs.as_slice(), va, vb);
    let coef_ok = coef.len() <= vb - start && occurs_at(cs.as_slice(), start, coef.as_slice());
    assert(coef_ok == "<LearnRateCoef>"@.is_prefix_of(trim_start(ls[j + 1]))) by {
        if coef@.len() <= vb - start {
            assert(cs@.subrange(start as int, vb as int).subrange(0, coef@.len() as int)
                =~= cs@.subrange(start as int, start + coef@.len()));
        }
    }
    if !coef_ok {
        let mut m = String::from_str("Expected '<LearnRateCoef>' after '");
        m.append(header.as_str());
        m.append("', got: ");
        let (ta, tb) = trim_bounds(cs.as_slice(), va, vb);
        push_chars(&mut m, cs.as_slice(), ta, tb);
        return Err(FunasrError::InvalidCmvnFile(m));
    }

    // tokens layout: [0]="<LearnRateCoef>", [1]="0", [2]="[", [3..last-1]=values, [last]="]"
    let wb = word_bounds(cs.as_slice(), va, vb);
    let ghost w = words(ls[j + 1]);
    assert(spans(cs@, wb@).len() == wb@.len());
    let n = wb.len();
    let bracket_ok = if n < 4 {
        false
    } else {
        let (a2, b2) = wb[2];
        let (al, bl) = wb[n - 1];
        assert(w[2] == cs@.subrange(a2 as int, b2 as int));
        assert(w.last() == cs@.subrange(al as int, bl as int));
        let open = str_chars("[");
        let close = str_chars("]");
        let open_ok = b2 - a2 == 1 && occurs_at(cs.as_slice(), a2, open.as_slice());
        let close_ok = bl - al == 1 && occurs_at(cs.as_slice(), al, close.as_slice());
        proof {
            reveal_strlit("[");
            reveal_strlit("]");
            assert(open_ok == (w[2] == "["@)) by {
                if b2 - a2 == 1 {
                    assert(cs@.subrange(a2 as int, a2 + 1) =~= w[2]);
                } else {
                    assert(w[2].len() != "["@.len());
                }
            }
            assert(close_ok == (w.last() == "]"@)) by {
                if bl - al == 1 {
                    assert(cs@.subrange(al as int, al + 1) =~= w.last());
                } else {
                    assert(w.last().len() != "]"@.len());
                }
            }
        }
        open_ok && close_ok
    };
    if !bracket_ok {
        let mut m = String::from_str("Expected bracket-format vector after '");
        m.append(header.as_str());
        m.append("', got ");
        push_decimal(&mut m, n);
        m.append(" tokens");
        return Err(FunasrError::InvalidCmvnFile(m));
    }
    let mut values: Vec<String> = Vec::new();
    let mut k: usize = 3;
    while k < n - 1
        invariant
            4 <= n == wb@.len() == w.len(),
            3 <= k <= n - 1,
            spans_within(wb@, cs@.len() as int),
            spans(cs@, wb@) == w,
            strings_view(values@) == w.subrange(3, k as int),
        decreases n - 1 - k,
    {
        let (a, b) = wb[k];
        assert(w[k as int] == cs@.subrange(a as int, b as int));
        let s = string_of(cs.as_slice(), a, b);
        let ghost before = values@;
        values.push(s);
        assert(strings_view(values@) =~= strings_view(before).push(s@));
        assert(w.subrange(3, k + 1) =~= w.subrange(3, k as int).push(w[k as int]));
        k += 1;
    }
    Ok(values)
}

/// The error, if any, for CMVN vectors of the given lengths: both must hold
/// `FEAT_DIM` values.
pub fn check_cmvn_dims(means_len: usize, inv_stds_len: usize) -> (r: Result<(), FunasrError>)
    ensures
        means_len != FEAT_DIM ==> (r matches Err(FunasrError::InvalidCmvnFile(m)) && m@
            == "Expected CMVN means length "@ + decimal(FEAT_DIM as nat) + ", got "@ + decimal(
            means_len as nat,
        )),
        means_len == FEAT_DIM && inv_stds_len != FEAT_DIM ==> (r matches Err(
            FunasrError::InvalidCmvnFile(m),
        ) && m@ == "Expected CMVN inv_stds length "@ + decimal(FEAT_DIM as nat) + ", got "@
            + decimal(inv_stds_len as nat)),
        means_len == FEAT_DIM && inv_stds_len == FEAT_DIM ==> r is Ok,
{
    if means_len != FEAT_DIM {
        let mut m = String::from_str("Expected CMVN means length ");
        push_decimal(&mut m, FEAT_DIM);
        m.append(", got ");
        push_decimal(&mut m, means_len);
        return Err(FunasrError::InvalidCmvnFile(m));
    }
    if inv_stds_len != FEAT_DIM {
        let mut m = String::from_str("Expected CMVN inv_stds length ");
        push_decimal(&mut m, FEAT_DIM);
        m.append(", got ");
        push_decimal(&mut m, inv_stds_len);
        return Err(FunasrError::InvalidCmvnFile(m));
    }
    Ok(())
}


/// The error for a vector value of section `section_name` that is not a
/// floating-point number; `reason` says why it was rejected.
pub fn cmvn_value_error(value: &str, section_name: &str, reason: &str) -> (e: FunasrError)
    ensures
        e matches FunasrError::InvalidCmvnFile(m) && m@ == "Failed to parse float '"@ + value@
            + "' in '"@ + header_for(section_name@) + "': "@ + reason@,
{
    let mut m = String::from_str("Failed to parse float '");
    m.append(value);
    m.append("' in '<");
    m.append(section_name);
    m.append(">': ");
    m.append(reason);
    proof {
        reveal_strlit("' in '<");
        reveal_strlit("' in '");
        reveal_strlit("<");
        reveal_strlit(">': ");
        reveal_strlit(">");
        reveal_strlit("': ");
    }
    assert(m@ =~= "Failed to parse float '"@ + value@ + "' in '"@ + header_for(section_name@)
        + "': "@ + reason@);
    FunasrError::InvalidCmvnFile(m)
}


/// `parse` may turn the value text `text` into `out`.
pub open spec fn parses_to<T, P: Fn(&str) -> Result<T, String>>(
    parse: P,
    text: Seq<char>,
    out: Result<T, String>,
) -> bool {
    exists|s: &str| #![trigger call_ensures(parse, (s,), out)] s@ == text && call_ensures(parse, (s,), out)
}

/// The message for a value text of section `section` that `reason` rejects.
pub open spec fn value_error_text(value: Seq<char>, section: Seq<char>, reason: Seq<char>) -> Seq<char> {
    "Failed to parse float '"@ + value + "' in '"@ + header_for(section) + "': "@ + reason
}

/// `parse` may turn the value text `text` into some number.
pub open spec fn accepted<T, P: Fn(&str) -> Result<T, String>>(parse: P, text: Seq<char>) -> bool {
    exists|o: T| #![trigger parses_to(parse, text, Ok(o))] parses_to(parse, text, Ok(o))
}

/// Every value text of `vals` was turned into a number by `parse`.
pub open spec fn all_accepted<T, P: Fn(&str) -> Result<T, String>>(
    parse: P,
    vals: Seq<Seq<char>>,
) -> bool {
    forall|j: int| 0 <= j < vals.len() ==> #[trigger] accepted(parse, vals[j])
}

/// `msg` reports the first value text of `vals` (section `section`) that
/// `parse` rejected: every value before it was accepted.
pub open spec fn reports_first_rejected<T, P: Fn(&str) -> Result<T, String>>(
    parse: P,
    vals: Seq<Seq<char>>,
    section: Seq<char>,
    msg: Seq<char>,
) -> bool {
    exists|k: int, reason: String|
        0 <= k < vals.len() && #[trigger] parses_to(parse, vals[k], Err(reason)) && msg
            == value_error_text(vals[k], section, reason@) && all_accepted(
            parse,
            vals.take(k),
        )
}

/// `parse` accepts every value text of `vals`: whatever it returns for one of
/// them is `Ok`.
pub open spec fn accepts_all<T, P: Fn(&str) -> Result<T, String>>(
    parse: P,
    vals: Seq<Seq<char>>,
) -> bool {
    forall|k: int, s: &str, out: Result<T, String>|
        #![trigger vals[k], call_ensures(parse, (s,), out)]
        0 <= k < vals.len() && s@ == vals[k] && call_ensures(parse, (s,), out) ==> out is Ok
}

/// Read the vector of section `section_name`, each value through `parse`
/// (the caller's number reader). The first value that `parse` rejects ends
/// the reading with its message.
pub fn parse_text_cmvn_vector<T, P: Fn(&str) -> Result<T, String>>(
    data: &[u8],
    section_name: &str,
    parse: &P,
) -> (r: Result<Vec<T>, FunasrError>)
    requires
        forall|s: &str| #[trigger] call_requires(*parse, (s,)),
    ensures
        r matches Err(e) ==> e is InvalidCmvnFile,
        cmvn_vector_text(data@, section_name@) matches Err(msg) ==> (r matches Err(
            FunasrError::InvalidCmvnFile(m),
        ) && m@ == msg),
        cmvn_vector_text(data@, section_name@) matches Ok(vals) ==> (r matches Ok(v) ==> v.len()
            == vals.len() && forall|k: int|
            0 <= k < v.len() ==> parses_to(*parse, vals[k], Ok(#[trigger] v@[k]))),
        cmvn_vector_text(data@, section_name@) matches Ok(vals) ==> (r matches Err(
            FunasrError::InvalidCmvnFile(m),
        ) ==> reports_first_rejected(*parse, vals, section_name@, m@)),
        cmvn_vector_text(data@, section_name@) matches Ok(vals) && accepts_all(*parse, vals)
            ==> r is Ok,
        cmvn_vector_text(data@, section_name@) matches Ok(vals) ==> (r is Ok ==> all_accepted(
            *parse,
            vals,
        )),
{
    let toks = cmvn_vector_tokens(data, section_name)?;
    let ghost vals = strings_view(toks@);
    let mut out: Vec<T> = Vec::new();
    let mut i: usize = 0;
    while i < toks.len()
        invariant
            i <= toks@.len(),
            vals == strings_view(toks@),
            cmvn_vector_text(data@, section_name@) == Ok::<Seq<Seq<char>>, Seq<char>>(vals),
            out.len() == i,
            forall|s: &str| #[trigger] call_requires(*parse, (s,)),
            forall|k: int| 0 <= k < i ==> parses_to(*parse, vals[k], Ok(#[trigger] out@[k])),
        decreases toks@.len() - i,
    {
        let s = toks[i].as_str();
        let res = parse(s);
        assert(s@ == vals[i as int]);
        match res {
            Ok(v) => {
                assert(call_ensures(*parse, (s,), Ok::<T, String>(v)));
                let ghost before = out@;
                out.push(v);
                assert forall|k: int| 0 <= k < i + 1 implies parses_to(
                    *parse,
                    vals[k],
                    Ok(#[trigger] out@[k]),
                ) by {
                    if k < i {
                        assert(out@[k] == before[k]);
                    }
                }
            },
            Err(reason) => {
                assert(call_ensures(*parse, (s,), Err::<T, String>(reason)));
                assert(parses_to(*parse, vals[i as int], Err::<T, String>(reason)));
                assert(!accepts_all(*parse, vals));
                let e = cmvn_value_error(s, section_name, reason.as_str());
                let ghost m = e->InvalidCmvnFile_0;
                assert(m@ == value_error_text(vals[i as int], section_name@, reason@));
                assert(reports_first_rejected(*parse, vals, section_name@, m@)) by {
                    assert(0 <= i < vals.len());
                    assert(parses_to(*parse, vals[i as int], Err::<T, String>(reason)));
                    let before = vals.take(i as int);
                    assert forall|j: int| 0 <= j < before.len() implies #[trigger] accepted(
                        *parse,
                        before[j],
                    ) by {
                        assert(before[j] == vals[j]);
                        assert(parses_to(*parse, vals[j], Ok(out@[j])));
                    }
                }
                return Err(e);
            },
        }
        i += 1;
    }
    assert forall|j: int| 0 <= j < vals.len() implies #[trigger] accepted(*parse, vals[j]) by {
        assert(parses_to(*parse, vals[j], Ok(out@[j])));
    }
    Ok(out)
}

/// Both sections of the file read as text vectors of `FEAT_DIM` values.
pub open spec fn cmvn_sections_complete(data: Seq<u8>) -> bool {
    &&& match cmvn_vector_text(data, "AddShift"@) {
        Ok(mv) => mv.len() == FEAT_DIM,
        Err(_) => false,
    }
    &&& match cmvn_vector_text(data, "Rescale"@) {
        Ok(sv) => sv.len() == FEAT_DIM,
        Err(_) => false,
    }
}

/// `parse` accepts every value text of both sections, as far as they read.
pub open spec fn accepts_cmvn_values<T, P: Fn(&str) -> Result<T, String>>(
    parse: P,
    data: Seq<u8>,
) -> bool {
    &&& cmvn_vector_text(data, "AddShift"@) matches Ok(mv) ==> accepts_all(parse, mv)
    &&& cmvn_vector_text(data, "Rescale"@) matches Ok(sv) ==> accepts_all(parse, sv)
}

/// `msg` reports the first value text that `parse` rejected: one of the
/// `<AddShift>` vector, or, all of those accepted, one of the `<Rescale>`
/// vector.
pub open spec fn cmvn_value_rejected<T, P: Fn(&str) -> Result<T, String>>(
    parse: P,
    data: Seq<u8>,
    msg: Seq<char>,
) -> bool {
    match cmvn_vector_text(data, "AddShift"@) {
        Err(_) => false,
        Ok(mv) => {
            ||| reports_first_rejected(parse, mv, "AddShift"@, msg)
            ||| all_accepted(parse, mv) && match cmvn_vector_text(data, "Rescale"@) {
                Ok(sv) => reports_first_rejected(parse, sv, "Rescale"@, msg),
                Err(_) => false,
            }
        },
    }
}

/// What is wrong with the file apart from its value texts: the first of a
/// missing or malformed `<AddShift>` section, a missing or malformed
/// `<Rescale>` section, and a vector that does not hold `FEAT_DIM` values.
pub open spec fn cmvn_file_error(data: Seq<u8>) -> Option<Seq<char>> {
    match cmvn_vector_text(data, "AddShift"@) {
        Err(msg) => Some(msg),
        Ok(mv) => match cmvn_vector_text(data, "Rescale"@) {
            Err(msg) => Some(msg),
            Ok(sv) => if mv.len() != FEAT_DIM {
                Some(
                    "Expected CMVN means length "@ + decimal(FEAT_DIM as nat) + ", got "@
                        + decimal(mv.len()),
                )
            } else if sv.len() != FEAT_DIM {
                Some(
                    "Expected CMVN inv_stds length "@ + decimal(FEAT_DIM as nat) + ", got "@
                        + decimal(sv.len()),
                )
            } else {
                None
            },
        },
    }
}

/// Parse a text-format Kaldi CMVN file into (negative means, inverse
/// standard deviations), reading each value through `parse`: the
/// `<AddShift>` and `<Rescale>` vectors, each of `FEAT_DIM` values.
pub fn parse_kaldi_cmvn<T, P: Fn(&str) -> Result<T, String>>(data: &[u8], parse: &P) -> (r: Result<
    (Vec<T>, Vec<T>),
    FunasrError,
>)
    requires
        forall|s: &str| #[trigger] call_requires(*parse, (s,)),
    ensures
        r matches Err(e) ==> e is InvalidCmvnFile,
        cmvn_vector_text(data@, "AddShift"@) matches Err(msg) ==> (r matches Err(
            FunasrError::InvalidCmvnFile(m),
        ) && m@ == msg),
        r matches Ok((means, inv_stds)) ==> {
            &&& means.len() == FEAT_DIM && inv_stds.len() == FEAT_DIM
            &&& cmvn_vector_text(data@, "AddShift"@) matches Ok(mv) && forall|k: int|
                0 <= k < FEAT_DIM ==> parses_to(*parse, mv[k], Ok(#[trigger] means@[k]))
            &&& cmvn_vector_text(data@, "Rescale"@) matches Ok(sv) && forall|k: int|
                0 <= k < FEAT_DIM ==> parses_to(*parse, sv[k], Ok(#[trigger] inv_stds@[k]))
        },
        r is Ok ==> cmvn_sections_complete(data@),
        r matches Err(FunasrError::InvalidCmvnFile(m)) ==> cmvn_file_error(data@) == Some(m@)
            || cmvn_value_rejected(*parse, data@, m@),
        accepts_cmvn_values(*parse, data@) ==> match cmvn_file_error(data@) {
            Some(msg) => r matches Err(FunasrError::InvalidCmvnFile(m)) && m@ == msg,
            None => r is Ok,
        },
{
    let means = parse_text_cmvn_vector(data, "AddShift", parse)?;
    let inv_stds = parse_text_cmvn_vector(data, "Rescale", parse)?;
    check_cmvn_dims(means.len(), inv_stds.len())?;
    Ok((means, inv_stds))
}

} // verus!
