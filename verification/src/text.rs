//! Character-level text handling: Unicode white space, trimming, removal of
//! substrings, line and word splitting, and decimal rendering of integers.

use vstd::prelude::*;

verus! {

broadcast use vstd::string::group_string_axioms;

/// Unicode `White_Space`, the set that `char::is_whitespace` tests.
pub open spec fn is_white(c: char) -> bool {
    let u = c as u32;
    ||| 9 <= u <= 13
    ||| u == 32
    ||| u == 0x85
    ||| u == 0xA0
    ||| u == 0x1680
    ||| 0x2000 <= u <= 0x200A
    ||| u == 0x2028
    ||| u == 0x2029
    ||| u == 0x202F
    ||| u == 0x205F
    ||| u == 0x3000
}

/// Tests whether a character is Unicode white space.
pub fn is_white_char(c: char) -> (b: bool)
    ensures
        b == is_white(c),
{
    let u = c as u32;
    (9 <= u && u <= 13) || u == 32 || u == 0x85 || u == 0xA0 || u == 0x1680 || (0x2000 <= u
        && u <= 0x200A) || u == 0x2028 || u == 0x2029 || u == 0x202F || u == 0x205F || u == 0x3000
}

/// The text with its leading white space removed.
pub open spec fn trim_start(s: Seq<char>) -> Seq<char>
    decreases s.len(),
{
    if s.len() > 0 && is_white(s[0]) {
        trim_start(s.drop_first())
    } else {
        s
    }
}

/// The text with its trailing white space removed.
pub open spec fn trim_end(s: Seq<char>) -> Seq<char>
    decreases s.len(),
{
    if s.len() > 0 && is_white(s.last()) {
        trim_end(s.drop_last())
    } else {
        s
    }
}

/// The text with white space removed at both ends (`str::trim`).
pub open spec fn trim(s: Seq<char>) -> Seq<char> {
    trim_end(trim_start(s))
}

/// Every leftmost, non-overlapping occurrence of `pat` removed from `s`
/// (`str::replace(pat, "")` for a non-empty pattern).
pub open spec fn remove_all(s: Seq<char>, pat: Seq<char>) -> Seq<char>
    decreases s.len(),
{
    if s.len() == 0 {
        s
    } else if 0 < pat.len() <= s.len() && s.take(pat.len() as int) == pat {
        remove_all(s.skip(pat.len() as int), pat)
    } else {
        seq![s[0]] + remove_all(s.skip(1), pat)
    }
}

/// The decimal digit character for `d` (`0 <= d < 10`).
pub open spec fn digit_char(d: int) -> char {
    if d == 0 {
        '0'
    } else if d == 1 {
        '1'
    } else if d == 2 {
        '2'
    } else if d == 3 {
        '3'
    } else if d == 4 {
        '4'
    } else if d == 5 {
        '5'
    } else if d == 6 {
        '6'
    } else if d == 7 {
        '7'
    } else if d == 8 {
        '8'
    } else {
        '9'
    }
}

/// The decimal rendering of a natural number, without leading zeros.
pub open spec fn decimal(n: nat) -> Seq<char>
    decreases n,
{
    if n < 10 {
        seq![digit_char(n as int)]
    } else {
        decimal(n / 10).push(digit_char((n % 10) as int))
    }
}

/// Appends one character to a `String`.
#[verifier::external_body]
pub(crate) fn push_char(s: &mut String, c: char)
    ensures
        final(s)@ == old(s)@.push(c),
{
    s.push(c);
}

/// The characters of a string slice, in order.
pub fn str_chars(s: &str) -> (out: Vec<char>)
    ensures
        out@ == s@,
{
    let mut out: Vec<char> = Vec::new();
    for c in it: s.chars()
        invariant
            out@ == it.seq().take(it.index()),
            it.seq() == s@,
    {
        out.push(c);
    }
    out
}

/// A `String` holding the characters `cs[from..to]`.
pub fn string_of(cs: &[char], from: usize, to: usize) -> (s: String)
    requires
        from <= to <= cs@.len(),
    ensures
        s@ == cs@.subrange(from as int, to as int),
{
    let mut s = String::new();
    let mut i: usize = from;
    while i < to
        invariant
            from <= i <= to <= cs@.len(),
            s@ == cs@.subrange(from as int, i as int),
        decreases to - i,
    {
        push_char(&mut s, cs[i]);
        assert(cs@.subrange(from as int, i + 1) =~= cs@.subrange(from as int, i as int).push(cs@[i as int]));
        i += 1;
    }
    s
}

/// Appends the characters `cs[from..to]` to `s`.
pub fn push_chars(s: &mut String, cs: &[char], from: usize, to: usize)
    requires
        from <= to <= cs@.len(),
    ensures
        final(s)@ == old(s)@ + cs@.subrange(from as int, to as int),
{
    let mut i: usize = from;
    while i < to
        invariant
            from <= i <= to <= cs@.len(),
            s@ == old(s)@ + cs@.subrange(from as int, i as int),
        decreases to - i,
    {
        push_char(s, cs[i]);
        assert(cs@.subrange(from as int, i + 1) =~= cs@.subrange(from as int, i as int).push(cs@[i as int]));
        i += 1;
    }
}

fn digit(d: usize) -> (c: char)
    requires
        d < 10,
    ensures
        c == digit_char(d as int),
{
    if d == 0 {
        '0'
    } else if d == 1 {
        '1'
    } else if d == 2 {
        '2'
    } else if d == 3 {
        '3'
    } else if d == 4 {
        '4'
    } else if d == 5 {
        '5'
    } else if d == 6 {
        '6'
    } else if d == 7 {
        '7'
    } else if d == 8 {
        '8'
    } else {
        '9'
    }
}

/// Appends the decimal rendering of `n` to `s`.
pub fn push_decimal(s: &mut String, n: usize)
    ensures
        final(s)@ == old(s)@ + decimal(n as nat),
    decreases n,
{
    if n >= 10 {
        push_decimal(s, n / 10);
    }
    push_char(s, digit(n % 10));
    assert(s@ =~= old(s)@ + decimal(n as nat));
}


/// Bounds `(a, b)` such that `cs[a..b]` is `cs[from..to]` trimmed at both ends.
pub fn trim_bounds(cs: &[char], from: usize, to: usize) -> (r: (usize, usize))
    requires
        from <= to <= cs@.len(),
    ensures
        from <= r.0 <= r.1 <= to,
        cs@.subrange(r.0 as int, r.1 as int) == trim(cs@.subrange(from as int, to as int)),
{
    let mut a: usize = from;
    while a < to && is_white_char(cs[a])
        invariant
            from <= a <= to <= cs@.len(),
            trim_start(cs@.subrange(from as int, to as int)) == trim_start(
                cs@.subrange(a as int, to as int),
            ),
        decreases to - a,
    {
        assert(cs@.subrange(a as int, to as int).drop_first() =~= cs@.subrange(a + 1, to as int));
        a += 1;
    }
    let mut b: usize = to;
    while b > a && is_white_char(cs[b - 1])
        invariant
            from <= a <= b <= to <= cs@.len(),
            trim_end(cs@.subrange(a as int, to as int)) == trim_end(
                cs@.subrange(a as int, b as int),
            ),
        decreases b - a,
    {
        assert(cs@.subrange(a as int, b as int).drop_last() =~= cs@.subrange(a as int, b - 1));
        b -= 1;
    }
    (a, b)
}

/// Bound `a` such that `cs[a..to]` is `cs[from..to]` with its leading white space removed.
pub fn trim_start_bound(cs: &[char], from: usize, to: usize) -> (a: usize)
    requires
        from <= to <= cs@.len(),
    ensures
        from <= a <= to,
        cs@.subrange(a as int, to as int) == trim_start(cs@.subrange(from as int, to as int)),
{
    let mut a: usize = from;
    while a < to && is_white_char(cs[a])
        invariant
            from <= a <= to <= cs@.len(),
            trim_start(cs@.subrange(from as int, to as int)) == trim_start(
                cs@.subrange(a as int, to as int),
            ),
        decreases to - a,
    {
        assert(cs@.subrange(a as int, to as int).drop_first() =~= cs@.subrange(a + 1, to as int));
        a += 1;
    }
    a
}

/// Whether `pat` occurs in `cs` at position `i`.
pub fn occurs_at(cs: &[char], i: usize, pat: &[char]) -> (b: bool)
    requires
        i <= cs@.len(),
    ensures
        b == (pat@.len() <= cs@.len() - i && cs@.subrange(i as int, i + pat@.len()) == pat@),
{
    if pat.len() > cs.len() - i {
        return false;
    }
    let mut j: usize = 0;
    while j < pat.len()
        invariant
            i + pat.len() <= cs.len(),
            j <= pat@.len(),
            forall|k: int| 0 <= k < j ==> cs@[i + k] == pat@[k],
        decreases pat@.len() - j,
    {
        if cs[i + j] != pat[j] {
            assert(cs@.subrange(i as int, i + pat@.len())[j as int] != pat@[j as int]);
            return false;
        }
        j += 1;
    }
    assert(cs@.subrange(i as int, i + pat@.len()) =~= pat@);
    true
}

/// `cs` with every leftmost, non-overlapping occurrence of a non-empty `pat` removed.
#[verifier::spinoff_prover]
pub fn remove_all_chars(cs: &[char], pat: &[char]) -> (out: Vec<char>)
    requires
        pat@.len() > 0,
    ensures
        out@ == remove_all(cs@, pat@),
{
    let mut out: Vec<char> = Vec::new();
    let mut i: usize = 0;
    assert(cs@.skip(0) =~= cs@);
    while i < cs.len()
        invariant
            i <= cs@.len(),
            pat@.len() > 0,
            remove_all(cs@, pat@) == out@ + remove_all(cs@.skip(i as int), pat@),
        decreases cs@.len() - i,
    {
        let ghost rest = cs@.skip(i as int);
        if occurs_at(cs, i, pat) {
            assert(rest.take(pat@.len() as int) =~= cs@.subrange(i as int, i + pat@.len()));
            assert(rest.skip(pat@.len() as int) =~= cs@.skip(i + pat@.len()));
            i += pat.len();
        } else {
            assert(rest.take(pat@.len() as int) =~= cs@.subrange(i as int, i + pat@.len()) || !(
            pat@.len() <= rest.len()));
            assert(rest.skip(1) =~= cs@.skip(i + 1));
            let ghost old_out = out@;
            out.push(cs[i]);
            assert(old_out + (seq![cs@[i as int]] + remove_all(cs@.skip(i + 1), pat@)) =~= out@
                + remove_all(cs@.skip(i + 1), pat@));
            i += 1;
        }
    }
    assert(cs@.skip(i as int) =~= Seq::<char>::empty());
    assert(out@ + Seq::<char>::empty() =~= out@);
    out
}


/// A line without the carriage return of a `\r\n` ending.
pub open spec fn strip_cr(l: Seq<char>) -> Seq<char> {
    if l.len() > 0 && l.last() == '\r' {
        l.drop_last()
    } else {
        l
    }
}

/// The lines of `s` that follow the unfinished line `cur` (`str::lines`):
/// lines end at `\n` or `\r\n`, and the last line ending is optional.
pub open spec fn lines_from(s: Seq<char>, cur: Seq<char>) -> Seq<Seq<char>>
    decreases s.len(),
{
    if s.len() == 0 {
        if cur.len() > 0 {
            seq![cur]
        } else {
            seq![]
        }
    } else if s[0] == '\n' {
        seq![strip_cr(cur)] + lines_from(s.drop_first(), seq![])
    } else {
        lines_from(s.drop_first(), cur.push(s[0]))
    }
}

/// The lines of a text (`str::lines`).
pub open spec fn lines(s: Seq<char>) -> Seq<Seq<char>> {
    lines_from(s, seq![])
}

/// The white-space separated words of `s` that follow the unfinished word `cur`.
pub open spec fn words_from(s: Seq<char>, cur: Seq<char>) -> Seq<Seq<char>>
    decreases s.len(),
{
    if s.len() == 0 {
        if cur.len() > 0 {
            seq![cur]
        } else {
            seq![]
        }
    } else if is_white(s[0]) {
        (if cur.len() > 0 {
            seq![cur]
        } else {
            seq![]
        }) + words_from(s.drop_first(), seq![])
    } else {
        words_from(s.drop_first(), cur.push(s[0]))
    }
}

/// The white-space separated words of a text (`str::split_whitespace`).
pub open spec fn words(s: Seq<char>) -> Seq<Seq<char>> {
    words_from(s, seq![])
}

/// The pieces of `cs` that a list of `(start, end)` bounds designates.
pub open spec fn spans(cs: Seq<char>, b: Seq<(usize, usize)>) -> Seq<Seq<char>> {
    b.map_values(|p: (usize, usize)| cs.subrange(p.0 as int, p.1 as int))
}

/// All bounds lie within a text of length `n`.
pub open spec fn spans_within(b: Seq<(usize, usize)>, n: int) -> bool {
    forall|j: int| 0 <= j < b.len() ==> #[trigger] b[j].0 <= b[j].1 <= n
}

/// Pushing bounds that lie within the text keeps all bounds within it.
proof fn lemma_push_within(old_b: Seq<(usize, usize)>, b: Seq<(usize, usize)>, p: (usize, usize), n: int)
    requires
        spans_within(old_b, n),
        b == old_b.push(p),
        p.0 <= p.1 <= n,
    ensures
        spans_within(b, n),
{
    assert forall|j: int| 0 <= j < b.len() implies #[trigger] b[j].0 <= b[j].1 <= n by {
        if j < old_b.len() {
            assert(b[j] == old_b[j]);
        }
    }
}

/// The bounds of the lines of `cs`.
#[verifier::spinoff_prover]
pub fn line_bounds(cs: &[char]) -> (out: Vec<(usize, usize)>)
    ensures
        spans_within(out@, cs@.len() as int),
        spans(cs@, out@) == lines(cs@),
{
    let mut out: Vec<(usize, usize)> = Vec::new();
    let mut st: usize = 0;
    let mut i: usize = 0;
    assert(cs@.skip(0) =~= cs@);
    assert(cs@.subrange(0, 0) =~= Seq::<char>::empty());
    while i < cs.len()
        invariant
            st <= i <= cs@.len(),
            spans_within(out@, cs@.len() as int),
            lines(cs@) == spans(cs@, out@) + lines_from(
                cs@.skip(i as int),
                cs@.subrange(st as int, i as int),
            ),
        decreases cs@.len() - i,
    {
        let ghost rest = cs@.skip(i as int);
        let ghost cur = cs@.subrange(st as int, i as int);
        assert(rest.drop_first() =~= cs@.skip(i + 1));
        if cs[i] == '\n' {
            let end = if i > st && cs[i - 1] == '\r' {
                i - 1
            } else {
                i
            };
            assert(cs@.subrange(st as int, end as int) =~= strip_cr(cur));
            let ghost old_out = out@;
            out.push((st, end));
            proof {
                lemma_push_within(old_out, out@, (st, end), cs@.len() as int);
            }
            assert(spans(cs@, out@) =~= spans(cs@, old_out) + seq![strip_cr(cur)]);
            st = i + 1;
            assert(cs@.subrange(st as int, (i + 1) as int) =~= Seq::<char>::empty());
        } else {
            assert(cs@.subrange(st as int, i + 1) =~= cur.push(cs@[i as int]));
        }
        i += 1;
    }
    assert(cs@.skip(i as int) =~= Seq::<char>::empty());
    if st < cs.len() {
        let ghost old_out = out@;
        out.push((st, cs.len()));
        proof {
            lemma_push_within(old_out, out@, (st, cs.len()), cs@.len() as int);
        }
        assert(spans(cs@, out@) =~= spans(cs@, old_out) + seq![
            cs@.subrange(st as int, cs@.len() as int),
        ]);
    } else {
        assert(spans(cs@, out@) + Seq::<Seq<char>>::empty() =~= spans(cs@, out@));
    }
    out
}

/// The bounds of the white-space separated words of `cs[from..to]`.
#[verifier::spinoff_prover]
pub fn word_bounds(cs: &[char], from: usize, to: usize) -> (out: Vec<(usize, usize)>)
    requires
        from <= to <= cs@.len(),
    ensures
        spans_within(out@, cs@.len() as int),
        spans(cs@, out@) == words(cs@.subrange(from as int, to as int)),
{
    let ghost text = cs@.subrange(from as int, to as int);
    let mut out: Vec<(usize, usize)> = Vec::new();
    let mut st: usize = from;
    let mut i: usize = from;
    assert(text.skip(0) =~= text);
    assert(cs@.subrange(from as int, from as int) =~= Seq::<char>::empty());
    while i < to
        invariant
            from <= st <= i <= to <= cs@.len(),
            text == cs@.subrange(from as int, to as int),
            spans_within(out@, cs@.len() as int),
            words(text) == spans(cs@, out@) + words_from(
                text.skip(i - from),
                cs@.subrange(st as int, i as int),
            ),
        decreases to - i,
    {
        let ghost rest = text.skip(i - from);
        let ghost cur = cs@.subrange(st as int, i as int);
        assert(rest.drop_first() =~= text.skip(i + 1 - from));
        assert(rest[0] == cs@[i as int]);
        if is_white_char(cs[i]) {
            if st < i {
                let ghost old_out = out@;
                out.push((st, i));
                proof {
                    lemma_push_within(old_out, out@, (st, i), cs@.len() as int);
                }
                assert(spans(cs@, out@) =~= spans(cs@, old_out) + seq![cur]);
            } else {
                assert(spans(cs@, out@) + Seq::<Seq<char>>::empty() =~= spans(cs@, out@));
            }
            st = i + 1;
            assert(cs@.subrange(st as int, (i + 1) as int) =~= Seq::<char>::empty());
        } else {
            assert(cs@.subrange(st as int, i + 1) =~= cur.push(cs@[i as int]));
        }
        i += 1;
    }
    assert(text.skip(i - from) =~= Seq::<char>::empty());
    if st < to {
        let ghost old_out = out@;
        out.push((st, to));
        proof {
            lemma_push_within(old_out, out@, (st, to), cs@.len() as int);
        }
        assert(spans(cs@, out@) =~= spans(cs@, old_out) + seq![
            cs@.subrange(st as int, to as int),
        ]);
    } else {
        assert(spans(cs@, out@) + Seq::<Seq<char>>::empty() =~= spans(cs@, out@));
    }
    out
}


/// Appends the characters of `s` to `out`.
pub fn extend_with_str(out: &mut Vec<char>, s: &str)
    ensures
        final(out)@ == old(out)@ + s@,
{
    let cs = str_chars(s);
    let mut i: usize = 0;
    while i < cs.len()
        invariant
            i <= cs@.len(),
            cs@ == s@,
            out@ == old(out)@ + cs@.take(i as int),
        decreases cs@.len() - i,
    {
        out.push(cs[i]);
        assert(cs@.take(i + 1) =~= cs@.take(i as int).push(cs@[i as int]));
        i += 1;
    }
    assert(cs@.take(cs@.len() as int) =~= cs@);
}


proof fn lemma_trim_start_head(s: Seq<char>)
    ensures
        trim_start(s).len() > 0 ==> !is_white(trim_start(s)[0]),
    decreases s.len(),
{
    if s.len() > 0 && is_white(s[0]) {
        lemma_trim_start_head(s.drop_first());
    }
}

proof fn lemma_trim_end_shape(s: Seq<char>)
    ensures
        trim_end(s).len() <= s.len(),
        trim_end(s) == s.take(trim_end(s).len() as int),
        trim_end(s).len() > 0 ==> !is_white(trim_end(s).last()),
    decreases s.len(),
{
    if s.len() > 0 && is_white(s.last()) {
        lemma_trim_end_shape(s.drop_last());
        let t = trim_end(s.drop_last());
        assert(s.drop_last().take(t.len() as int) =~= s.take(t.len() as int));
    } else {
        assert(s.take(s.len() as int) =~= s);
    }
}

/// Trimmed text is empty or has no white space at either end.
pub proof fn lemma_trim_ends(s: Seq<char>)
    ensures
        trim(s).len() > 0 ==> !is_white(trim(s)[0]) && !is_white(trim(s).last()),
{
    lemma_trim_start_head(s);
    lemma_trim_end_shape(trim_start(s));
}


/// The text with white space removed at both ends (`str::trim`).
pub fn trim_text(s: &str) -> (t: String)
    ensures
        t@ == trim(s@),
{
    let cs = str_chars(s);
    let (a, b) = trim_bounds(cs.as_slice(), 0, cs.len());
    assert(cs@.subrange(0, cs@.len() as int) =~= cs@);
    string_of(cs.as_slice(), a, b)
}


proof fn lemma_trim_start_shape(s: Seq<char>)
    ensures
        trim_start(s).len() <= s.len(),
        trim_start(s) == s.skip(s.len() - trim_start(s).len()),
        forall|j: int| 0 <= j < s.len() - trim_start(s).len() ==> is_white(#[trigger] s[j]),
    decreases s.len(),
{
    if s.len() > 0 && is_white(s[0]) {
        let r = s.drop_first();
        lemma_trim_start_shape(r);
        let t = trim_start(r);
        assert(r.skip(r.len() - t.len()) =~= s.skip(s.len() - t.len()));
        assert forall|j: int| 0 <= j < s.len() - t.len() implies is_white(#[trigger] s[j]) by {
            if j > 0 {
                assert(s[j] == r[j - 1]);
            }
        }
    } else {
        assert(s.skip(0) =~= s);
    }
}

proof fn lemma_trim_end_tail(s: Seq<char>)
    ensures
        forall|j: int| trim_end(s).len() <= j < s.len() ==> is_white(#[trigger] s[j]),
    decreases s.len(),
{
    if s.len() > 0 && is_white(s.last()) {
        let r = s.drop_last();
        lemma_trim_end_tail(r);
        assert forall|j: int| trim_end(s).len() <= j < s.len() implies is_white(#[trigger] s[j]) by {
            if j < s.len() - 1 {
                assert(s[j] == r[j]);
            }
        }
    }
}

/// Trimming removes white space only: `s` is some white space, then
/// `trim(s)`, then some white space, and `trim(s)` is empty or starts and
/// ends with a character that is not white space.
pub proof fn lemma_trim_removes_only_white(s: Seq<char>)
    ensures
        exists|i: int|
            #![trigger s.subrange(i, i + trim(s).len())]
            0 <= i && i + trim(s).len() <= s.len() && s.subrange(i, i + trim(s).len()) == trim(s)
                && (forall|j: int| 0 <= j < i ==> is_white(#[trigger] s[j])) && (forall|j: int|
                i + trim(s).len() <= j < s.len() ==> is_white(#[trigger] s[j])),
        trim(s).len() > 0 ==> !is_white(trim(s)[0]) && !is_white(trim(s).last()),
{
    lemma_trim_ends(s);
    lemma_trim_start_shape(s);
    let u = trim_start(s);
    let i = s.len() - u.len();
    lemma_trim_end_shape(u);
    lemma_trim_end_tail(u);
    let t = trim(s);
    assert(t == trim_end(u));
    assert(s.subrange(i, i + t.len()) =~= t);
    assert forall|j: int| i + t.len() <= j < s.len() implies is_white(#[trigger] s[j]) by {
        assert(s[j] == u[j - i]);
    }
    assert(s.subrange(i, i + trim(s).len()) == trim(s));
}

/// `pat` cannot overlap itself: no proper prefix of it is also a suffix.
pub open spec fn overlap_free(pat: Seq<char>) -> bool {
    forall|l: int| 0 < l < pat.len() ==> #[trigger] pat.take(l) != pat.skip(pat.len() - l)
}

/// `pat` occurs in `s` at position `i`.
pub open spec fn occurs_in_at(s: Seq<char>, pat: Seq<char>, i: int) -> bool {
    0 <= i && i + pat.len() <= s.len() && s.subrange(i, i + pat.len()) == pat
}

/// A text in which a non-empty pattern does not occur is left as it is.
pub proof fn lemma_remove_all_absent(s: Seq<char>, pat: Seq<char>)
    requires
        pat.len() > 0,
        forall|i: int| !#[trigger] occurs_in_at(s, pat, i),
    ensures
        remove_all(s, pat) == s,
    decreases s.len(),
{
    if s.len() > 0 {
        if pat.len() <= s.len() {
            assert(!occurs_in_at(s, pat, 0));
            assert(s.subrange(0, pat.len() as int) =~= s.take(pat.len() as int));
        }
        let r = s.skip(1);
        assert forall|i: int| !#[trigger] occurs_in_at(r, pat, i) by {
            if occurs_in_at(r, pat, i) {
                assert(s.subrange(i + 1, i + 1 + pat.len()) =~= r.subrange(i, i + pat.len()));
                assert(occurs_in_at(s, pat, i + 1));
            }
        }
        lemma_remove_all_absent(r, pat);
        assert(seq![s[0]] + r =~= s);
    }
}

/// Removing a pattern that cannot overlap itself removes every occurrence:
/// an occurrence between `a` and `b` is dropped and the two sides are
/// treated apart.
pub proof fn lemma_remove_all_splits(a: Seq<char>, pat: Seq<char>, b: Seq<char>)
    requires
        pat.len() > 0,
        overlap_free(pat),
    ensures
        remove_all(a + pat + b, pat) == remove_all(a, pat) + remove_all(b, pat),
    decreases a.len(),
{
    let l = pat.len() as int;
    let s = a + pat + b;
    if a.len() == 0 {
        assert(s =~= pat + b);
        assert(s.take(l) =~= pat);
        assert(s.skip(l) =~= b);
        assert(remove_all(a, pat) =~= Seq::<char>::empty());
        assert(Seq::<char>::empty() + remove_all(b, pat) =~= remove_all(b, pat));
    } else if l <= a.len() && a.take(l) == pat {
        assert(s.take(l) =~= a.take(l));
        assert(s.skip(l) =~= a.skip(l) + pat + b);
        lemma_remove_all_splits(a.skip(l), pat, b);
    } else {
        if s.take(l) == pat {
            if l <= a.len() {
                assert(s.take(l) =~= a.take(l));
            } else {
                let m = l - a.len();
                assert(s.take(l) =~= a + pat.take(m));
                assert(pat.take(a.len() as int) =~= a);
                assert(pat.skip(a.len() as int) =~= pat.take(m));
                assert(pat.skip(l - m) =~= pat.skip(a.len() as int));
                assert(pat.take(m) != pat.skip(l - m));
            }
        }
        assert(s.skip(1) =~= a.skip(1) + pat + b);
        lemma_remove_all_splits(a.skip(1), pat, b);
        assert(seq![s[0]] + (remove_all(a.skip(1), pat) + remove_all(b, pat)) =~= (seq![a[0]]
            + remove_all(a.skip(1), pat)) + remove_all(b, pat));
    }
}

} // verus!
