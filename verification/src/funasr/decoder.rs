//! Greedy decoding of Paraformer output into text.
//!
//! The per-frame argmax over the model's logits compares values through a
//! function of the caller (the logits are floating point); the token ids it
//! picks are turned into text here.

use vstd::prelude::*;

use crate::funasr::error::FunasrError;
use vstd::slice::slice_subrange;
use crate::text::{
    decimal, is_white, lemma_trim_ends, overlap_free, trim_end, trim_start, extend_with_str, push_decimal, remove_all, remove_all_chars, string_of, trim,
    trim_bounds,
};

verus! {

broadcast use vstd::string::group_string_axioms;

pub const BLANK_ID: usize = 0;

pub const SOS_ID: usize = 1;

pub const EOS_ID: usize = 2;

/// Number of logits per output frame.
pub const VOCAB_SIZE: usize = 8404;

/// Blank, start and end of sentence carry no text.
pub open spec fn is_special(id: usize) -> bool {
    id == BLANK_ID || id == SOS_ID || id == EOS_ID
}

/// The ids that are not special, in order.
pub open spec fn regular_tokens(ids: Seq<usize>) -> Seq<usize>
    decreases ids.len(),
{
    if ids.len() == 0 {
        seq![]
    } else if is_special(ids.last()) {
        regular_tokens(ids.drop_last())
    } else {
        regular_tokens(ids.drop_last()).push(ids.last())
    }
}

/// How many of `available` tokens are kept: the model reports one token more
/// than it produced.
pub open spec fn kept_token_count(token_num: int, available: nat) -> nat {
    let wanted: nat = if token_num - 1 < 0 {
        0
    } else {
        (token_num - 1) as nat
    };
    if wanted < available {
        wanted
    } else {
        available
    }
}

/// The concatenated vocabulary entries of `ids`; ids outside the vocabulary
/// contribute nothing.
pub open spec fn token_text(ids: Seq<usize>, vocab: Seq<Seq<char>>) -> Seq<char>
    decreases ids.len(),
{
    if ids.len() == 0 {
        seq![]
    } else if ids.last() < vocab.len() {
        token_text(ids.drop_last(), vocab) + vocab[ids.last() as int]
    } else {
        token_text(ids.drop_last(), vocab)
    }
}

/// The text with the marker substrings `<s>`, `</s>`, `<unk>` and `<blank>`
/// removed, in that order.
pub open spec fn strip_markers(s: Seq<char>) -> Seq<char> {
    remove_all(
        remove_all(
            remove_all(remove_all(s, seq!['<', 's', '>']), seq!['<', '/', 's', '>']),
            seq!['<', 'u', 'n', 'k', '>'],
        ),
        seq!['<', 'b', 'l', 'a', 'n', 'k', '>'],
    )
}

/// The views of the vocabulary entries.
pub open spec fn vocab_view(list: Seq<String>) -> Seq<Seq<char>> {
    list.map_values(|t: String| t@)
}

/// The text that the frame tokens decode to.
pub open spec fn decoded_text(frame_tokens: Seq<usize>, token_num: int, vocab: Seq<Seq<char>>) -> Seq<
    char,
> {
    let regular = regular_tokens(frame_tokens);
    let kept = regular.take(kept_token_count(token_num, regular.len()) as int);
    trim(strip_markers(token_text(kept, vocab)))
}

/// The number of frames in a flat logits buffer of `logits_len` values, each
/// frame holding `VOCAB_SIZE` logits.
pub fn logits_frame_count(logits_len: usize) -> (r: Result<usize, FunasrError>)
    ensures
        logits_len % VOCAB_SIZE == 0 ==> (r matches Ok(n) && n == logits_len / VOCAB_SIZE),
        logits_len % VOCAB_SIZE != 0 ==> (r matches Err(FunasrError::DecodeError(m)) && m@
            == "logits length "@ + decimal(logits_len as nat) + " is not divisible by vocab_size "@
            + decimal(VOCAB_SIZE as nat)),
{
    if logits_len % VOCAB_SIZE != 0 {
        let mut m = String::from_str("logits length ");
        push_decimal(&mut m, logits_len);
        m.append(" is not divisible by vocab_size ");
        push_decimal(&mut m, VOCAB_SIZE);
        return Err(FunasrError::DecodeError(m));
    }
    Ok(logits_len / VOCAB_SIZE)
}

/// Decode the per-frame argmax token ids of the model output into text.
///
/// * `frame_tokens` - the index of the largest logit of each frame.
/// * `token_num` - predicted valid token count from the model output.
/// * `token_list` - vocabulary loaded from `tokens.json`.
#[verifier::spinoff_prover]
pub fn decode(frame_tokens: &[usize], token_num: i32, token_list: &[String]) -> (text: String)
    requires
        token_num > i32::MIN,
    ensures
        text@ == decoded_text(frame_tokens@, token_num as int, vocab_view(token_list@)),
{
    // Filter special tokens
    let mut filtered: Vec<usize> = Vec::new();
    let mut i: usize = 0;
    while i < frame_tokens.len()
        invariant
            i <= frame_tokens@.len(),
            filtered@ == regular_tokens(frame_tokens@.take(i as int)),
        decreases frame_tokens@.len() - i,
    {
        let id = frame_tokens[i];
        assert(frame_tokens@.take(i + 1).drop_last() =~= frame_tokens@.take(i as int));
        if id != BLANK_ID && id != SOS_ID && id != EOS_ID {
            filtered.push(id);
        }
        i += 1;
    }
    assert(frame_tokens@.take(frame_tokens@.len() as int) =~= frame_tokens@);

    // Trim to the valid length
    let wanted: usize = if token_num - 1 < 0 {
        0
    } else {
        (token_num - 1) as usize
    };
    let kept: usize = if wanted < filtered.len() {
        wanted
    } else {
        filtered.len()
    };

    // Token lookup
    let ghost vocab = vocab_view(token_list@);
    let mut decoded: Vec<char> = Vec::new();
    let mut k: usize = 0;
    while k < kept
        invariant
            kept <= filtered@.len(),
            k <= kept,
            vocab == vocab_view(token_list@),
            decoded@ == token_text(filtered@.take(k as int), vocab),
        decreases kept - k,
    {
        let id = filtered[k];
        assert(filtered@.take(k + 1).drop_last() =~= filtered@.take(k as int));
        if id < token_list.len() {
            extend_with_str(&mut decoded, token_list[id].as_str());
        }
        k += 1;
    }

    // Remove any remaining special marker substrings
    let no_sos = remove_all_chars(decoded.as_slice(), &['<', 's', '>']);
    let no_eos = remove_all_chars(no_sos.as_slice(), &['<', '/', 's', '>']);
    let no_unk = remove_all_chars(no_eos.as_slice(), &['<', 'u', 'n', 'k', '>']);
    let cleaned = remove_all_chars(no_unk.as_slice(), &['<', 'b', 'l', 'a', 'n', 'k', '>']);

    let (a, b) = trim_bounds(cleaned.as_slice(), 0, cleaned.len());
    assert(cleaned@.subrange(0, cleaned@.len() as int) =~= cleaned@);
    string_of(cleaned.as_slice(), a, b)
}


proof fn lemma_regular_idempotent(ids: Seq<usize>)
    ensures
        regular_tokens(regular_tokens(ids)) == regular_tokens(ids),
    decreases ids.len(),
{
    if ids.len() > 0 {
        lemma_regular_idempotent(ids.drop_last());
        let r = regular_tokens(ids.drop_last());
        if !is_special(ids.last()) {
            assert(r.push(ids.last()).drop_last() =~= r);
        }
    }
}

/// Special ids (blank, start and end of sentence) have no effect on the
/// decoded text: dropping them first decodes to the same text.
pub proof fn lemma_special_tokens_ignored(frame_tokens: Seq<usize>, token_num: int, vocab: Seq<Seq<char>>)
    ensures
        decoded_text(regular_tokens(frame_tokens), token_num, vocab) == decoded_text(
            frame_tokens,
            token_num,
            vocab,
        ),
{
    lemma_regular_idempotent(frame_tokens);
}

/// A token count of one or less decodes to the empty text.
pub proof fn lemma_small_token_count_is_empty(
    frame_tokens: Seq<usize>,
    token_num: int,
    vocab: Seq<Seq<char>>,
)
    requires
        token_num <= 1,
    ensures
        decoded_text(frame_tokens, token_num, vocab) == Seq::<char>::empty(),
{
    let regular = regular_tokens(frame_tokens);
    let kept = regular.take(0);
    assert(kept =~= Seq::<usize>::empty());
    let e = Seq::<char>::empty();
    assert(token_text(kept, vocab) =~= e);
    assert(remove_all(e, seq!['<', 's', '>']) == e);
    assert(remove_all(e, seq!['<', '/', 's', '>']) == e);
    assert(remove_all(e, seq!['<', 'u', 'n', 'k', '>']) == e);
    assert(remove_all(e, seq!['<', 'b', 'l', 'a', 'n', 'k', '>']) == e);
    assert(trim_start(e) == e);
    assert(trim_end(e) == e);
}

/// The decoded text never begins or ends with white space.
pub proof fn lemma_decoded_text_is_trimmed(
    frame_tokens: Seq<usize>,
    token_num: int,
    vocab: Seq<Seq<char>>,
)
    ensures
        ({
            let t = decoded_text(frame_tokens, token_num, vocab);
            t.len() > 0 ==> !is_white(t[0]) && !is_white(t.last())
        }),
{
    let regular = regular_tokens(frame_tokens);
    let kept = regular.take(kept_token_count(token_num, regular.len()) as int);
    lemma_trim_ends(strip_markers(token_text(kept, vocab)));
}


/// One step of a left-to-right scan for the largest value of `frame`: with
/// the lead at `lead`, the value at `i` takes the lead exactly when
/// `greater(frame[i], frame[lead])` answers true.
pub open spec fn scan_step<T, G: Fn(&T, &T) -> bool>(
    greater: G,
    frame: Seq<T>,
    lead: int,
    i: int,
    next: int,
) -> bool {
    ||| next == i && call_ensures(greater, (&frame[i], &frame[lead]), true)
    ||| next == lead && call_ensures(greater, (&frame[i], &frame[lead]), false)
}

/// `leads[i]` is the lead of the scan after it has seen `frame[0..=i]`; the
/// first value leads at the start.
pub open spec fn is_scan_trace<T, G: Fn(&T, &T) -> bool>(
    greater: G,
    frame: Seq<T>,
    leads: Seq<int>,
) -> bool {
    &&& leads.len() == frame.len()
    &&& frame.len() > 0 ==> leads[0] == 0
    &&& forall|i: int|
        0 < i < frame.len() ==> scan_step(greater, frame, leads[i - 1], i, #[trigger] leads[i])
}

/// `r` is where the scan for the largest value of the non-empty `frame` ends.
pub open spec fn scan_result<T, G: Fn(&T, &T) -> bool>(greater: G, frame: Seq<T>, r: int) -> bool {
    exists|leads: Seq<int>|
        #![trigger is_scan_trace(greater, frame, leads)]
        is_scan_trace(greater, frame, leads) && leads.last() == r
}

/// The index of the largest value of `values`, the first among equals, as
/// `greater` orders them; 0 for no values.
pub fn argmax_by<T, G: Fn(&T, &T) -> bool>(values: &[T], greater: &G) -> (r: usize)
    requires
        forall|x: &T, y: &T| #[trigger] call_requires(*greater, (x, y)),
    ensures
        values@.len() == 0 ==> r == 0,
        values@.len() > 0 ==> r < values@.len() && scan_result(*greater, values@, r as int),
{
    if values.len() == 0 {
        return 0;
    }
    let mut best: usize = 0;
    let mut i: usize = 1;
    let ghost mut leads: Seq<int> = seq![0int];
    while i < values.len()
        invariant
            1 <= i <= values@.len(),
            best < i,
            forall|x: &T, y: &T| #[trigger] call_requires(*greater, (x, y)),
            leads.len() == i,
            leads[0] == 0,
            leads.last() == best,
            forall|k: int|
                0 < k < i ==> scan_step(*greater, values@, leads[k - 1], k, #[trigger] leads[k]),
        decreases values@.len() - i,
    {
        let gt = greater(&values[i], &values[best]);
        let ghost lead = best as int;
        if gt {
            best = i;
        }
        proof {
            assert(scan_step(*greater, values@, lead, i as int, best as int));
            let old_leads = leads;
            leads = leads.push(best as int);
            assert forall|k: int| 0 < k < i + 1 implies scan_step(
                *greater,
                values@,
                leads[k - 1],
                k,
                #[trigger] leads[k],
            ) by {
                if k < i {
                    assert(leads[k] == old_leads[k]);
                    assert(leads[k - 1] == old_leads[k - 1]);
                }
            }
        }
        i += 1;
    }
    assert(is_scan_trace(*greater, values@, leads));
    best
}

/// `gt` is a strict weak order: irreflexive, transitive, and with
/// incomparability transitive.
pub open spec fn is_strict_weak_order<T>(gt: spec_fn(T, T) -> bool) -> bool {
    &&& forall|a: T| !#[trigger] gt(a, a)
    &&& forall|a: T, b: T, c: T| #[trigger] gt(a, b) && #[trigger] gt(b, c) ==> gt(a, c)
    &&& forall|a: T, b: T, c: T| !#[trigger] gt(a, b) && !#[trigger] gt(b, c) ==> !gt(a, c)
}

proof fn lemma_scan_prefix<T, G: Fn(&T, &T) -> bool>(
    greater: G,
    gt: spec_fn(T, T) -> bool,
    frame: Seq<T>,
    leads: Seq<int>,
    n: int,
)
    requires
        forall|a: &T, b: &T, x: bool| #[trigger] call_ensures(greater, (a, b), x) ==> x == gt(*a, *b),
        is_strict_weak_order(gt),
        is_scan_trace(greater, frame, leads),
        0 < n <= frame.len(),
    ensures
        0 <= leads[n - 1] < n,
        forall|k: int| 0 <= k < n ==> !gt(#[trigger] frame[k], frame[leads[n - 1]]),
        forall|k: int| 0 <= k < leads[n - 1] ==> gt(frame[leads[n - 1]], #[trigger] frame[k]),
    decreases n,
{
    if n > 1 {
        lemma_scan_prefix(greater, gt, frame, leads, n - 1);
        let i = n - 1;
        let lead = leads[i - 1];
        assert(scan_step(greater, frame, lead, i, leads[i]));
        let answer = gt(frame[i], frame[lead]);
        assert(call_ensures(greater, (&frame[i], &frame[lead]), answer));
        if answer {
            assert forall|k: int| 0 <= k < i implies gt(frame[i], #[trigger] frame[k]) by {
                if !gt(frame[i], frame[k]) {
                    assert(!gt(frame[k], frame[lead]));
                }
            }
            assert forall|k: int| 0 <= k < n implies !gt(#[trigger] frame[k], frame[i]) by {
                if k < i && gt(frame[k], frame[i]) {
                    assert(gt(frame[i], frame[k]));
                    assert(gt(frame[k], frame[k]));
                }
            }
        }
    }
}

/// With a comparator that answers as a strict weak order `gt`, the scan ends
/// at the first largest value: no value is greater than it, and every value
/// before it is smaller.
pub proof fn lemma_scan_finds_first_max<T, G: Fn(&T, &T) -> bool>(
    greater: G,
    gt: spec_fn(T, T) -> bool,
    frame: Seq<T>,
    r: int,
)
    requires
        forall|a: &T, b: &T, x: bool| #[trigger] call_ensures(greater, (a, b), x) ==> x == gt(*a, *b),
        is_strict_weak_order(gt),
        frame.len() > 0,
        scan_result(greater, frame, r),
    ensures
        0 <= r < frame.len(),
        forall|k: int| 0 <= k < frame.len() ==> !gt(#[trigger] frame[k], frame[r]),
        forall|k: int| 0 <= k < r ==> gt(frame[r], #[trigger] frame[k]),
{
    let leads = choose|leads: Seq<int>| is_scan_trace(greater, frame, leads) && leads.last() == r;
    lemma_scan_prefix(greater, gt, frame, leads, frame.len() as int);
}

/// Frame `t` of a flat logits buffer.
pub open spec fn logits_frame<T>(logits: Seq<T>, t: int) -> Seq<T> {
    logits.subrange(t * VOCAB_SIZE, t * VOCAB_SIZE + VOCAB_SIZE)
}

/// `text` is what the logits decode to when each frame's token is the one a
/// scan with `greater` picks.
pub open spec fn logits_decode_to<T, G: Fn(&T, &T) -> bool>(
    greater: G,
    logits: Seq<T>,
    token_num: int,
    vocab: Seq<Seq<char>>,
    text: Seq<char>,
) -> bool {
    exists|ids: Seq<usize>|
        #![trigger decoded_text(ids, token_num, vocab)]
        ids.len() == logits.len() / (VOCAB_SIZE as nat) && (forall|t: int|
            0 <= t < ids.len() ==> scan_result(greater, logits_frame(logits, t), #[trigger] ids[t] as int))
            && text == decoded_text(ids, token_num, vocab)
}

/// Decode model output logits into text: the index of the largest logit of
/// each frame of `VOCAB_SIZE` values (as `greater` compares them) is that
/// frame's token, and the tokens decode as in `decode`.
///
/// * `logits` - flat, shape `(T, VOCAB_SIZE)`.
/// * `token_num` - predicted valid token count from the model output.
/// * `token_list` - vocabulary loaded from `tokens.json`.
pub fn decode_logits<T, G: Fn(&T, &T) -> bool>(
    logits: &[T],
    token_num: i32,
    token_list: &[String],
    greater: &G,
) -> (r: Result<String, FunasrError>)
    requires
        forall|x: &T, y: &T| #[trigger] call_requires(*greater, (x, y)),
        logits@.len() > 0 && logits@.len() % (VOCAB_SIZE as nat) == 0 ==> token_num > i32::MIN,
    ensures
        logits@.len() == 0 ==> (r matches Ok(s) && s@ == Seq::<char>::empty()),
        logits@.len() % (VOCAB_SIZE as nat) != 0 ==> (r matches Err(FunasrError::DecodeError(m)) && m@
            == "logits length "@ + decimal(logits@.len()) + " is not divisible by vocab_size "@
            + decimal(VOCAB_SIZE as nat)),
        logits@.len() > 0 && logits@.len() % (VOCAB_SIZE as nat) == 0 ==> (r matches Ok(s)
            && logits_decode_to(*greater, logits@, token_num as int, vocab_view(token_list@), s@)),
{
    if logits.len() == 0 {
        return Ok(String::new());
    }
    let len = logits.len();
    let num_frames = logits_frame_count(len)?;
    assert(num_frames * VOCAB_SIZE == len);
    let mut tokens: Vec<usize> = Vec::new();
    let mut t: usize = 0;
    let mut start: usize = 0;
    while t < num_frames
        invariant
            num_frames * VOCAB_SIZE == len,
            len == logits@.len(),
            t <= num_frames,
            start == t * VOCAB_SIZE,
            tokens@.len() == t,
            forall|x: &T, y: &T| #[trigger] call_requires(*greater, (x, y)),
            forall|k: int|
                0 <= k < t ==> scan_result(*greater, logits_frame(logits@, k), #[trigger] tokens@[k] as int),
        decreases num_frames - t,
    {
        assert(start + VOCAB_SIZE <= num_frames * VOCAB_SIZE) by (nonlinear_arith)
            requires
                t < num_frames,
                start == t * VOCAB_SIZE,
        ;
        let frame = slice_subrange(logits, start, start + VOCAB_SIZE);
        assert(frame@ == logits_frame(logits@, t as int));
        let id = argmax_by(frame, greater);
        tokens.push(id);
        t += 1;
        start += VOCAB_SIZE;
    }
    let text = decode(tokens.as_slice(), token_num, token_list);
    assert(logits_decode_to(*greater, logits@, token_num as int, vocab_view(token_list@), text@)) by {
        assert(tokens@.len() == logits@.len() / (VOCAB_SIZE as nat));
        assert(text@ == decoded_text(tokens@, token_num as int, vocab_view(token_list@)));
    }
    Ok(text)
}


/// `r` is the first largest index of `frame` under `gt`.
pub open spec fn is_first_max<T>(gt: spec_fn(T, T) -> bool, frame: Seq<T>, r: int) -> bool {
    &&& 0 <= r < frame.len()
    &&& forall|k: int| 0 <= k < frame.len() ==> !gt(#[trigger] frame[k], frame[r])
    &&& forall|k: int| 0 <= k < r ==> gt(frame[r], #[trigger] frame[k])
}

/// With a comparator that answers as a strict weak order `gt`, the text the
/// logits decode to is the decoded text of each frame's first largest logit.
pub proof fn lemma_logits_decode_first_maxima<T, G: Fn(&T, &T) -> bool>(
    greater: G,
    gt: spec_fn(T, T) -> bool,
    logits: Seq<T>,
    token_num: int,
    vocab: Seq<Seq<char>>,
    text: Seq<char>,
    ids: Seq<usize>,
)
    requires
        forall|a: &T, b: &T, x: bool| #[trigger] call_ensures(greater, (a, b), x) ==> x == gt(*a, *b),
        is_strict_weak_order(gt),
        logits.len() % (VOCAB_SIZE as nat) == 0,
        ids.len() == logits.len() / (VOCAB_SIZE as nat),
        forall|t: int| 0 <= t < ids.len() ==> is_first_max(gt, logits_frame(logits, t), #[trigger] ids[t] as int),
        logits_decode_to(greater, logits, token_num, vocab, text),
    ensures
        text == decoded_text(ids, token_num, vocab),
{
    let found = choose|found: Seq<usize>|
        found.len() == logits.len() / (VOCAB_SIZE as nat) && (forall|t: int|
            0 <= t < found.len() ==> scan_result(greater, logits_frame(logits, t), #[trigger] found[t] as int))
            && text == decoded_text(found, token_num, vocab);
    assert forall|t: int| 0 <= t < ids.len() implies found[t] == ids[t] by {
        let frame = logits_frame(logits, t);
        assert(scan_result(greater, frame, found[t] as int));
        assert(t * VOCAB_SIZE + VOCAB_SIZE <= logits.len()) by (nonlinear_arith)
            requires
                0 <= t < ids.len(),
                ids.len() == logits.len() / (VOCAB_SIZE as nat),
                logits.len() % (VOCAB_SIZE as nat) == 0,
        ;
        assert(frame.len() == VOCAB_SIZE);
        lemma_scan_finds_first_max(greater, gt, frame, found[t] as int);
        let a = found[t] as int;
        let b = ids[t] as int;
        assert(is_first_max(gt, frame, b));
        if a < b {
            assert(gt(frame[b], frame[a]));
            assert(!gt(frame[b], frame[a]));
        } else if b < a {
            assert(gt(frame[a], frame[b]));
            assert(!gt(frame[a], frame[b]));
        }
    }
    assert(found =~= ids);
}


proof fn lemma_marker_overlap_free(pat: Seq<char>)
    requires
        pat.len() > 0,
        pat[0] == '<',
        forall|k: int| 0 < k < pat.len() ==> #[trigger] pat[k] != '<',
    ensures
        overlap_free(pat),
{
    assert forall|l: int| 0 < l < pat.len() implies #[trigger] pat.take(l) != pat.skip(
        pat.len() - l,
    ) by {
        assert(pat.take(l)[0] == '<');
        assert(pat.skip(pat.len() - l)[0] == pat[pat.len() - l]);
    }
}

/// The markers `<s>`, `</s>`, `<unk>` and `<blank>` cannot overlap
/// themselves, so removing one removes each of its occurrences (see
/// `lemma_remove_all_splits`).
pub proof fn lemma_markers_overlap_free()
    ensures
        overlap_free(seq!['<', 's', '>']),
        overlap_free(seq!['<', '/', 's', '>']),
        overlap_free(seq!['<', 'u', 'n', 'k', '>']),
        overlap_free(seq!['<', 'b', 'l', 'a', 'n', 'k', '>']),
{
    let m1 = seq!['<', 's', '>'];
    assert forall|k: int| 0 < k < m1.len() implies #[trigger] m1[k] != '<' by {
        assert(m1[1] == 's' && m1[2] == '>');
    }
    lemma_marker_overlap_free(m1);
    let m2 = seq!['<', '/', 's', '>'];
    assert forall|k: int| 0 < k < m2.len() implies #[trigger] m2[k] != '<' by {
        assert(m2[1] == '/' && m2[2] == 's' && m2[3] == '>');
    }
    lemma_marker_overlap_free(m2);
    let m3 = seq!['<', 'u', 'n', 'k', '>'];
    assert forall|k: int| 0 < k < m3.len() implies #[trigger] m3[k] != '<' by {
        assert(m3[1] == 'u' && m3[2] == 'n' && m3[3] == 'k' && m3[4] == '>');
    }
    lemma_marker_overlap_free(m3);
    let m4 = seq!['<', 'b', 'l', 'a', 'n', 'k', '>'];
    assert forall|k: int| 0 < k < m4.len() implies #[trigger] m4[k] != '<' by {
        assert(m4[1] == 'b' && m4[2] == 'l' && m4[3] == 'a' && m4[4] == 'n' && m4[5] == 'k'
            && m4[6] == '>');
    }
    lemma_marker_overlap_free(m4);
}

} // verus!
