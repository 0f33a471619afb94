//! Character-level scanning primitives shared by the line scanner and the
//! template projection engine.
//!
//! All executable helpers are specified against recursive spec functions
//! over `Seq<char>`; sentinel convention: a search that finds nothing
//! returns the length of the searched sequence.
use vstd::prelude::*;
use vstd::string::*;

verus! {

/// ASCII whitespace, the set the scanner treats as blank space.
pub open spec fn is_space_c(c: char) -> bool {
    c == ' ' || c == '\t' || c == '\n' || c == '\r' || c == '\x0b' || c == '\x0c'
}

/// Identifier characters: ASCII letters, digits and underscore.
pub open spec fn is_word_c(c: char) -> bool {
    (97 <= c as u32 && c as u32 <= 122)  // a-z
    || (65 <= c as u32 && c as u32 <= 90)  // A-Z
    || (48 <= c as u32 && c as u32 <= 57)  // 0-9
    || c == '_'
}

/// `pat` occurs in `s` starting at index `i`.
pub open spec fn sub_at(s: Seq<char>, pat: Seq<char>, i: int) -> bool {
    0 <= i && i + pat.len() <= s.len() && s.subrange(i, i + pat.len()) == pat
}

/// `pat` occurs somewhere in `s`.
pub open spec fn has_sub(s: Seq<char>, pat: Seq<char>) -> bool {
    exists|i: int| sub_at(s, pat, i)
}

/// Index of the first occurrence of `pat` in `s` at or after `i`;
/// `s.len()` when there is none.
pub open spec fn find_sub_at(s: Seq<char>, pat: Seq<char>, i: int) -> int
    decreases s.len() - i when 0 <= i <= s.len() && pat.len() >= 1
{
    if i + pat.len() > s.len() {
        s.len() as int
    } else if sub_at(s, pat, i) {
        i
    } else {
        find_sub_at(s, pat, i + 1)
    }
}

/// Index of the first occurrence of `c` in `s` at or after `i`;
/// `s.len()` when there is none.
pub open spec fn find_char_at(s: Seq<char>, c: char, i: int) -> int
    decreases s.len() - i when 0 <= i <= s.len()
{
    if i >= s.len() {
        s.len() as int
    } else if s[i] == c {
        i
    } else {
        find_char_at(s, c, i + 1)
    }
}

/// Index of the first non-whitespace character at or after `i`;
/// `s.len()` when the rest is all whitespace.
pub open spec fn skip_ws(s: Seq<char>, i: int) -> int
    decreases s.len() - i when 0 <= i <= s.len()
{
    if i >= s.len() {
        s.len() as int
    } else if is_space_c(s[i]) {
        skip_ws(s, i + 1)
    } else {
        i
    }
}

/// Index just past the run of identifier characters starting at `i`.
pub open spec fn word_end(s: Seq<char>, i: int) -> int
    decreases s.len() - i when 0 <= i <= s.len()
{
    if i >= s.len() {
        s.len() as int
    } else if is_word_c(s[i]) {
        word_end(s, i + 1)
    } else {
        i
    }
}

/// Index of the end of `s` with trailing whitespace removed, scanning
/// down from `j`.
pub open spec fn rskip_ws(s: Seq<char>, j: int) -> int
    decreases j when 0 <= j <= s.len()
{
    if j <= 0 {
        0
    } else if is_space_c(s[j - 1]) {
        rskip_ws(s, j - 1)
    } else {
        j
    }
}

/// Whether a markup tag starts at index `i` of `s`: a `<`, then at least
/// one character other than `>`, then the first following `>`.
pub open spec fn tag_at(s: Seq<char>, i: int) -> bool {
    s[i] == '<' && find_char_at(s, '>', i + 1) < s.len() && find_char_at(s, '>', i + 1) >= i + 2
}

/// `s` from index `i` on with every markup tag removed.
pub open spec fn strip_tags_at(s: Seq<char>, i: int) -> Seq<char>
    decreases s.len() - i when 0 <= i <= s.len()
{
    if i >= s.len() {
        Seq::empty()
    } else if tag_at(s, i) {
        strip_tags_at(s, find_char_at(s, '>', i + 1) + 1)
    } else {
        seq![s[i]] + strip_tags_at(s, i + 1)
    }
}

/// `s` with every markup tag removed.
pub open spec fn strip_tags(s: Seq<char>) -> Seq<char> {
    strip_tags_at(s, 0)
}

/// `s` from index `i` on with every occurrence of `pat` (leftmost first,
/// non-overlapping) replaced by `rep`.
pub open spec fn replace_all_at(s: Seq<char>, pat: Seq<char>, rep: Seq<char>, i: int) -> Seq<char>
    decreases s.len() - i when 0 <= i <= s.len() && pat.len() >= 1
{
    if i + pat.len() > s.len() {
        s.subrange(i, s.len() as int)
    } else if sub_at(s, pat, i) {
        rep + replace_all_at(s, pat, rep, i + pat.len())
    } else {
        seq![s[i]] + replace_all_at(s, pat, rep, i + 1)
    }
}

/// `s` with every occurrence of `pat` replaced by `rep`.
pub open spec fn replace_all(s: Seq<char>, pat: Seq<char>, rep: Seq<char>) -> Seq<char> {
    replace_all_at(s, pat, rep, 0)
}

/// `t` with one trailing carriage return removed, if present.
pub open spec fn strip_tail_cr(t: Seq<char>) -> Seq<char> {
    if t.len() > 0 && t[t.len() - 1] == '\r' {
        t.drop_last()
    } else {
        t
    }
}

/// The lines of `s` from index `i` on: segments split at `\n`, each with a
/// trailing `\r` removed; a final segment without a terminator is a line
/// too, kept as it stands; a trailing terminator opens no empty last line.
pub open spec fn lines_at(s: Seq<char>, i: int) -> Seq<Seq<char>>
    decreases s.len() - i when 0 <= i <= s.len() via lines_at_decreases
{
    if i >= s.len() {
        Seq::empty()
    } else {
        let e = find_char_at(s, '\n', i);
        if e >= s.len() {
            seq![s.subrange(i, s.len() as int)]
        } else {
            seq![strip_tail_cr(s.subrange(i, e))] + lines_at(s, e + 1)
        }
    }
}

#[via_fn]
proof fn lines_at_decreases(s: Seq<char>, i: int) {
    if 0 <= i < s.len() {
        lemma_find_char_props(s, '\n', i);
    }
}

/// The lines of `s`.
pub open spec fn lines_of(s: Seq<char>) -> Seq<Seq<char>> {
    lines_at(s, 0)
}

/// `s` with leading and trailing whitespace removed.
pub open spec fn trimmed(s: Seq<char>) -> Seq<char> {
    let b = skip_ws(s, 0);
    let e = rskip_ws(s, s.len() as int);
    if b <= e {
        s.subrange(b, e)
    } else {
        Seq::empty()
    }
}

pub proof fn lemma_skip_ws_props(s: Seq<char>, i: int)
    requires
        0 <= i <= s.len(),
    ensures
        i <= skip_ws(s, i) <= s.len(),
        forall|t: int| i <= t < skip_ws(s, i) ==> is_space_c(s[t]),
        skip_ws(s, i) < s.len() ==> !is_space_c(s[skip_ws(s, i)]),
    decreases s.len() - i,
{
    if i < s.len() && is_space_c(s[i]) {
        lemma_skip_ws_props(s, i + 1);
    }
}

pub proof fn lemma_rskip_ws_props(s: Seq<char>, j: int)
    requires
        0 <= j <= s.len(),
    ensures
        0 <= rskip_ws(s, j) <= j,
        forall|t: int| rskip_ws(s, j) <= t < j ==> is_space_c(s[t]),
        rskip_ws(s, j) > 0 ==> !is_space_c(s[rskip_ws(s, j) - 1]),
    decreases j,
{
    if j > 0 && is_space_c(s[j - 1]) {
        lemma_rskip_ws_props(s, j - 1);
    }
}

pub proof fn lemma_find_char_props(s: Seq<char>, c: char, i: int)
    requires
        0 <= i <= s.len(),
    ensures
        i <= find_char_at(s, c, i) <= s.len(),
        find_char_at(s, c, i) < s.len() ==> s[find_char_at(s, c, i)] == c,
        forall|t: int| i <= t < find_char_at(s, c, i) ==> s[t] != c,
    decreases s.len() - i,
{
    if i < s.len() && s[i] != c {
        lemma_find_char_props(s, c, i + 1);
    }
}

pub proof fn lemma_find_sub_props(s: Seq<char>, pat: Seq<char>, i: int)
    requires
        0 <= i <= s.len(),
        pat.len() >= 1,
    ensures
        i <= find_sub_at(s, pat, i) <= s.len(),
        find_sub_at(s, pat, i) < s.len() ==> sub_at(s, pat, find_sub_at(s, pat, i)),
        forall|j: int| i <= j < find_sub_at(s, pat, i) ==> !sub_at(s, pat, j),
    decreases s.len() - i,
{
    if i + pat.len() <= s.len() && !sub_at(s, pat, i) {
        lemma_find_sub_props(s, pat, i + 1);
    }
}

pub proof fn lemma_find_sub_first_from(s: Seq<char>, pat: Seq<char>, i: int, p: int)
    requires
        pat.len() >= 1,
        0 <= i <= p,
        sub_at(s, pat, p),
        forall|j: int| i <= j < p ==> !sub_at(s, pat, j),
    ensures
        find_sub_at(s, pat, i) == p,
    decreases p - i,
{
    if i < p {
        lemma_find_sub_first_from(s, pat, i + 1, p);
    }
}

pub proof fn lemma_strip_tags_tagless(s: Seq<char>, i: int)
    requires
        0 <= i <= s.len(),
        forall|t: int| i <= t < s.len() ==> s[t] != '<',
    ensures
        strip_tags_at(s, i) == s.subrange(i, s.len() as int),
    decreases s.len() - i,
{
    if i < s.len() {
        lemma_strip_tags_tagless(s, i + 1);
        assert(strip_tags_at(s, i) =~= s.subrange(i, s.len() as int));
    } else {
        assert(strip_tags_at(s, i) =~= s.subrange(i, s.len() as int));
    }
}

pub proof fn lemma_sub_at_in_suffix(a: Seq<char>, b: Seq<char>, pat: Seq<char>, j: int)
    requires
        sub_at(a + b, pat, j),
        j >= a.len(),
    ensures
        sub_at(b, pat, j - a.len()),
{
    assert forall|k: int| 0 <= k < pat.len() implies b.subrange(
        j - a.len(),
        j - a.len() + pat.len(),
    )[k] == pat[k] by {
        assert((a + b).subrange(j, j + pat.len())[k] == pat[k]);
    }
    assert(b.subrange(j - a.len(), j - a.len() + pat.len()) =~= pat);
}

pub proof fn lemma_word_end_run(s: Seq<char>, i: int, e: int)
    requires
        0 <= i <= e <= s.len(),
        forall|t: int| i <= t < e ==> is_word_c(s[t]),
        e < s.len() ==> !is_word_c(s[e]),
    ensures
        word_end(s, i) == e,
    decreases e - i,
{
    if i < e {
        lemma_word_end_run(s, i + 1, e);
    }
}

pub proof fn lemma_trimmed_identity(s: Seq<char>)
    requires
        s.len() > 0 ==> !is_space_c(s[0]),
        s.len() > 0 ==> !is_space_c(s[s.len() - 1]),
    ensures
        trimmed(s) == s,
{
    if s.len() > 0 {
        assert(skip_ws(s, 0) == 0);
        assert(rskip_ws(s, s.len() as int) == s.len());
        assert(trimmed(s) =~= s);
    } else {
        assert(trimmed(s) =~= s);
    }
}

pub proof fn lemma_word_end_props(s: Seq<char>, i: int)
    requires
        0 <= i <= s.len(),
    ensures
        i <= word_end(s, i) <= s.len(),
        forall|t: int| i <= t < word_end(s, i) ==> is_word_c(s[t]),
        word_end(s, i) < s.len() ==> !is_word_c(s[word_end(s, i)]),
    decreases s.len() - i,
{
    if i < s.len() && is_word_c(s[i]) {
        lemma_word_end_props(s, i + 1);
    }
}

/// Whether `c` is ASCII whitespace.
pub fn is_space(c: char) -> (b: bool)
    ensures
        b == is_space_c(c),
{
    c == ' ' || c == '\t' || c == '\n' || c == '\r' || c == '\x0b' || c == '\x0c'
}

/// Whether `c` is an identifier character.
pub fn is_word(c: char) -> (b: bool)
    ensures
        b == is_word_c(c),
{
    let u = c as u32;
    (97 <= u && u <= 122) || (65 <= u && u <= 90) || (48 <= u && u <= 57) || c == '_'
}

/// Whether `pat` occurs in `s` starting exactly at index `i`.
pub fn sub_at_exec(s: &str, i: usize, pat: &str) -> (b: bool)
    ensures
        b == sub_at(s@, pat@, i as int),
{
    let n = s.unicode_len();
    let m = pat.unicode_len();
    if i > n || m > n - i {
        return false;
    }
    let mut j: usize = 0;
    while j < m
        invariant
            i + m <= n,
            n == s@.len(),
            m == pat@.len(),
            0 <= j <= m,
            forall|t: int| 0 <= t < j ==> s@[i + t] == pat@[t],
        decreases m - j,
    {
        if s.get_char(i + j) != pat.get_char(j) {
            assert(s@.subrange(i as int, i + m) != pat@) by {
                assert(s@.subrange(i as int, i + m)[j as int] == s@[i + j]);
            }
            return false;
        }
        j += 1;
    }
    assert(s@.subrange(i as int, i + m) =~= pat@);
    true
}

/// Whether `pat` occurs somewhere in `s`.
pub fn has_sub_exec(s: &str, pat: &str) -> (b: bool)
    requires
        pat@.len() >= 1,
    ensures
        b == has_sub(s@, pat@),
{
    let n = s.unicode_len();
    let r = find_sub(s, pat, 0);
    proof {
        lemma_find_sub_props(s@, pat@, 0);
        if r < n {
            assert(sub_at(s@, pat@, r as int));
        } else {
            assert(forall|j: int| sub_at(s@, pat@, j) ==> 0 <= j < s@.len());
        }
    }
    r < n
}

/// Index of the first occurrence of `pat` in `s` at or after `from`;
/// the length of `s` when there is none.
pub fn find_sub(s: &str, pat: &str, from: usize) -> (r: usize)
    requires
        from <= s@.len(),
        pat@.len() >= 1,
    ensures
        r == find_sub_at(s@, pat@, from as int),
{
    let n = s.unicode_len();
    let m = pat.unicode_len();
    let mut i: usize = from;
    loop
        invariant
            from <= i <= n,
            n == s@.len(),
            m == pat@.len(),
            m >= 1,
            find_sub_at(s@, pat@, from as int) == find_sub_at(s@, pat@, i as int),
        decreases n - i,
    {
        if m > n - i {
            assert(find_sub_at(s@, pat@, i as int) == n);
            return n;
        }
        if sub_at_exec(s, i, pat) {
            return i;
        }
        assert(find_sub_at(s@, pat@, i as int) == find_sub_at(s@, pat@, i + 1));
        i += 1;
    }
}

/// Index of the first occurrence of `c` in `s` at or after `from`;
/// the length of `s` when there is none.
pub fn find_char(s: &str, c: char, from: usize) -> (r: usize)
    requires
        from <= s@.len(),
    ensures
        r == find_char_at(s@, c, from as int),
{
    let n = s.unicode_len();
    let mut i: usize = from;
    while i < n
        invariant
            from <= i <= n,
            n == s@.len(),
            find_char_at(s@, c, from as int) == find_char_at(s@, c, i as int),
        decreases n - i,
    {
        if s.get_char(i) == c {
            return i;
        }
        i += 1;
    }
    n
}

/// Index of the first non-whitespace character of `s` at or after `from`.
pub fn skip_ws_exec(s: &str, from: usize) -> (r: usize)
    requires
        from <= s@.len(),
    ensures
        r == skip_ws(s@, from as int),
{
    let n = s.unicode_len();
    let mut i: usize = from;
    while i < n
        invariant
            from <= i <= n,
            n == s@.len(),
            skip_ws(s@, from as int) == skip_ws(s@, i as int),
        decreases n - i,
    {
        if !is_space(s.get_char(i)) {
            return i;
        }
        i += 1;
    }
    n
}

/// Index just past the run of identifier characters of `s` starting at `from`.
pub fn word_end_exec(s: &str, from: usize) -> (r: usize)
    requires
        from <= s@.len(),
    ensures
        r == word_end(s@, from as int),
{
    let n = s.unicode_len();
    let mut i: usize = from;
    while i < n
        invariant
            from <= i <= n,
            n == s@.len(),
            word_end(s@, from as int) == word_end(s@, i as int),
        decreases n - i,
    {
        if !is_word(s.get_char(i)) {
            return i;
        }
        i += 1;
    }
    n
}

/// `s` with leading and trailing whitespace removed.
pub fn trim_exec<'a>(s: &'a str) -> (r: &'a str)
    ensures
        r@ == trimmed(s@),
{
    let n = s.unicode_len();
    let b = skip_ws_exec(s, 0);
    proof {
        lemma_skip_ws_props(s@, 0);
    }
    let mut e: usize = n;
    while e > 0 && is_space(s.get_char(e - 1))
        invariant
            0 <= e <= n,
            n == s@.len(),
            rskip_ws(s@, n as int) == rskip_ws(s@, e as int),
        decreases e,
    {
        e -= 1;
    }
    assert(rskip_ws(s@, e as int) == e);
    if b <= e {
        s.substring_char(b, e)
    } else {
        let r = s.substring_char(0, 0);
        assert(r@ =~= trimmed(s@));
        r
    }
}

/// Appends the character at index `i` of `s` to `out`.
pub fn push_char_of(out: &mut String, s: &str, i: usize)
    requires
        i < s@.len(),
        i < usize::MAX,
    ensures
        final(out)@ == old(out)@ + seq![s@[i as int]],
{
    let piece = s.substring_char(i, i + 1);
    assert(piece@ =~= seq![s@[i as int]]);
    out.append(piece);
}

/// `s` with every markup tag removed.
pub fn strip_tags_exec(s: &str) -> (r: String)
    ensures
        r@ == strip_tags(s@),
{
    let n = s.unicode_len();
    let mut out = String::new();
    let mut i: usize = 0;
    while i < n
        invariant
            0 <= i <= n,
            n == s@.len(),
            strip_tags(s@) == out@ + strip_tags_at(s@, i as int),
        decreases n - i,
    {
        if s.get_char(i) == '<' {
            let e = find_char(s, '>', i + 1);
            proof {
                lemma_find_char_props(s@, '>', i + 1);
            }
            if e < n && e >= i + 2 {
                assert(tag_at(s@, i as int));
                i = e + 1;
            } else {
                assert(!tag_at(s@, i as int));
                push_char_of(&mut out, s, i);
                assert(strip_tags(s@) =~= out@ + strip_tags_at(s@, i + 1));
                i += 1;
            }
        } else {
            push_char_of(&mut out, s, i);
            assert(strip_tags(s@) =~= out@ + strip_tags_at(s@, i + 1));
            i += 1;
        }
    }
    assert(strip_tags(s@) =~= out@);
    out
}

/// `s` with every occurrence of `pat` replaced by `rep`.
pub fn replace_all_exec(s: &str, pat: &str, rep: &str) -> (r: String)
    requires
        pat@.len() >= 1,
    ensures
        r@ == replace_all(s@, pat@, rep@),
{
    let n = s.unicode_len();
    let m = pat.unicode_len();
    let mut out = String::new();
    let mut i: usize = 0;
    loop
        invariant
            0 <= i <= n,
            n == s@.len(),
            m == pat@.len(),
            m >= 1,
            replace_all(s@, pat@, rep@) == out@ + replace_all_at(s@, pat@, rep@, i as int),
        decreases n - i,
    {
        if m > n - i {
            let rest = s.substring_char(i, n);
            out.append(rest);
            assert(replace_all(s@, pat@, rep@) =~= out@);
            return out;
        }
        if sub_at_exec(s, i, pat) {
            out.append(rep);
            assert(replace_all(s@, pat@, rep@) =~= out@ + replace_all_at(
                s@,
                pat@,
                rep@,
                i + m,
            ));
            i += m;
        } else {
            push_char_of(&mut out, s, i);
            assert(replace_all(s@, pat@, rep@) =~= out@ + replace_all_at(s@, pat@, rep@, i + 1));
            i += 1;
        }
    }
}

/// The lines of `s`, as `str::lines` yields them.
pub fn split_lines(s: &str) -> (r: Vec<String>)
    ensures
        r.deep_view() == lines_of(s@),
{
    let n = s.unicode_len();
    let mut out: Vec<String> = Vec::new();
    let mut i: usize = 0;
    while i < n
        invariant
            0 <= i <= n,
            n == s@.len(),
            lines_of(s@) == out.deep_view() + lines_at(s@, i as int),
        decreases n - i,
    {
        let e = find_char(s, '\n', i);
        proof {
            lemma_find_char_props(s@, '\n', i as int);
        }
        if e == n {
            let seg = s.substring_char(i, n);
            let owned = seg.to_owned();
            out.push(owned);
            assert(lines_of(s@) =~= out.deep_view());
            i = n;
        } else {
            let seg = if e > i && s.get_char(e - 1) == '\r' {
                s.substring_char(i, e - 1)
            } else {
                s.substring_char(i, e)
            };
            assert(seg@ == strip_tail_cr(s@.subrange(i as int, e as int)));
            let owned = seg.to_owned();
            out.push(owned);
            assert(lines_of(s@) =~= out.deep_view() + lines_at(s@, e + 1));
            i = e + 1;
        }
    }
    assert(lines_of(s@) =~= out.deep_view());
    out
}

} // verus!
