//! The construct-extraction state machine: per-line comment tracking,
//! doc-comment summary accumulation, construct matching with access
//! qualifier detection, and class-name deduplication.
use vstd::prelude::*;
use vstd::string::*;

use crate::text::find_sub;
use crate::text::find_sub_at;
use crate::text::has_sub;
use crate::text::has_sub_exec;
use crate::text::is_space_c;
use crate::text::is_word;
use crate::text::is_word_c;
use crate::text::lemma_find_sub_first_from;
use crate::text::lemma_find_sub_props;
use crate::text::lemma_skip_ws_props;
use crate::text::lemma_word_end_props;
use crate::text::lines_of;
use crate::text::skip_ws;
use crate::text::skip_ws_exec;
use crate::text::strip_tags;
use crate::text::sub_at;
use crate::text::sub_at_exec;
use crate::text::trimmed;
use crate::text::word_end;
use crate::text::word_end_exec;

verus! {

/// Access qualifiers a declaration line may start with; `Private` is the
/// default when none is present.
#[derive(Debug, PartialEq, Eq, Structural, Clone, Copy, Hash)]
pub enum AccessModifier {
    Public,
    Private,
    Protected,
    Internal,
}

/// Kinds of top-level declarations the scanner recognizes, in matching
/// priority order.
#[derive(Debug, PartialEq, Eq, Structural, Clone, Copy, Hash)]
pub enum ConstructType {
    Class,
    Struct,
    Enum,
    Interface,
}

/// The declaration keyword of a construct kind.
pub open spec fn kw_of(k: ConstructType) -> Seq<char> {
    match k {
        ConstructType::Class => "class"@,
        ConstructType::Struct => "struct"@,
        ConstructType::Enum => "enum"@,
        ConstructType::Interface => "interface"@,
    }
}

/// The keyword of an access qualifier.
pub open spec fn access_kw(m: AccessModifier) -> Seq<char> {
    match m {
        AccessModifier::Public => "public"@,
        AccessModifier::Private => "private"@,
        AccessModifier::Protected => "protected"@,
        AccessModifier::Internal => "internal"@,
    }
}

impl ConstructType {
    /// The kind's keyword, e.g. `class`.
    pub fn as_lowercase(&self) -> (r: String)
        ensures
            r@ == kw_of(*self),
    {
        match self {
            ConstructType::Class => String::from_str("class"),
            ConstructType::Struct => String::from_str("struct"),
            ConstructType::Enum => String::from_str("enum"),
            ConstructType::Interface => String::from_str("interface"),
        }
    }

    /// The kind's keyword wrapped in brackets, with `suffix` appended to
    /// the keyword, e.g. `[classes]` for suffix `es`.
    pub fn as_placeholder(&self, suffix: &str) -> (r: String)
        ensures
            r@ == "["@ + kw_of(*self) + suffix@ + "]"@,
    {
        let mut out = String::new();
        out.append("[");
        let kw = self.as_lowercase();
        out.append(kw.as_str());
        out.append(suffix);
        out.append("]");
        assert(out@ =~= "["@ + kw_of(*self) + suffix@ + "]"@);
        out
    }
}

impl AccessModifier {
    /// A regular-expression pattern that matches any access qualifier
    /// keyword at the (possibly indented) start of a line.
    pub fn variants_as_regex() -> (r: String)
        ensures
            r@ == "(?m)^\\s*(public|private|protected|internal)"@,
    {
        String::from_str("(?m)^\\s*(public|private|protected|internal)")
    }
}

/// The access qualifier of a line: the qualifier whose keyword stands
/// right after the line's leading whitespace; `Private` when none does.
pub open spec fn access_of(s: Seq<char>) -> AccessModifier {
    let b = skip_ws(s, 0);
    if sub_at(s, "public"@, b) {
        AccessModifier::Public
    } else if sub_at(s, "private"@, b) {
        AccessModifier::Private
    } else if sub_at(s, "protected"@, b) {
        AccessModifier::Protected
    } else if sub_at(s, "internal"@, b) {
        AccessModifier::Internal
    } else {
        AccessModifier::Private
    }
}

/// Extracts the access qualifier at the start of `line`, defaulting to
/// `Private` when none is present.
pub fn extract_access_modifier(line: &str) -> (r: AccessModifier)
    ensures
        r == access_of(line@),
{
    let b = skip_ws_exec(line, 0);
    if sub_at_exec(line, b, "public") {
        AccessModifier::Public
    } else if sub_at_exec(line, b, "private") {
        AccessModifier::Private
    } else if sub_at_exec(line, b, "protected") {
        AccessModifier::Protected
    } else if sub_at_exec(line, b, "internal") {
        AccessModifier::Internal
    } else {
        AccessModifier::Private
    }
}

/// The multi-line-comment flag after a line: a line with an opener sets
/// it, a closer on a line where it is set clears it.
pub open spec fn comment_state_after(s: Seq<char>, inside: bool) -> bool {
    (inside || has_sub(s, "/*"@)) && !has_sub(s, "*/"@)
}

/// A single-line comment stands before the first occurrence of `kw`.
pub open spec fn comment_before_kw(s: Seq<char>, kw: Seq<char>) -> bool {
    find_sub_at(s, kw, 0) < s.len() && find_sub_at(s, "//"@, 0) < find_sub_at(s, kw, 0)
}

/// Whether a line is suppressed from construct matching: it opens or sits
/// in a multi-line comment, is itself a line or doc comment, or has a
/// single-line comment before some construct keyword on it.
pub open spec fn suppress_line(s: Seq<char>, inside: bool) -> bool {
    ||| inside
    ||| has_sub(s, "/*"@)
    ||| sub_at(s, "//"@, skip_ws(s, 0))
    ||| comment_before_kw(s, "class"@)
    ||| comment_before_kw(s, "struct"@)
    ||| comment_before_kw(s, "enum"@)
    ||| comment_before_kw(s, "interface"@)
}

/// Decides whether `line` must be skipped as commented out, updating the
/// persistent multi-line-comment flag. A comment after a construct
/// keyword does not suppress; one before it does.
pub fn skip_due_to_comment(line: &str, inside_multiline_comment: &mut bool) -> (r: bool)
    ensures
        r == suppress_line(line@, *old(inside_multiline_comment)),
        *final(inside_multiline_comment) == comment_state_after(
            line@,
            *old(inside_multiline_comment),
        ),
{
    proof {
        reveal_strlit("/*");
        reveal_strlit("*/");
        reveal_strlit("//");
        reveal_strlit("class");
        reveal_strlit("struct");
        reveal_strlit("enum");
        reveal_strlit("interface");
    }
    let mut result = false;
    let n = line.unicode_len();

    if has_sub_exec(line, "/*") {
        *inside_multiline_comment = true;
        result = true;
    }
    if *inside_multiline_comment {
        if has_sub_exec(line, "*/") {
            *inside_multiline_comment = false;
        }
        result = true;
    }

    let b = skip_ws_exec(line, 0);
    if sub_at_exec(line, b, "//") {
        result = true;
    }

    let fc = find_sub(line, "//", 0);
    let p_class = find_sub(line, "class", 0);
    if p_class < n && fc < p_class {
        return true;
    }
    let p_struct = find_sub(line, "struct", 0);
    if p_struct < n && fc < p_struct {
        return true;
    }
    let p_enum = find_sub(line, "enum", 0);
    if p_enum < n && fc < p_enum {
        return true;
    }
    let p_interface = find_sub(line, "interface", 0);
    if p_interface < n && fc < p_interface {
        return true;
    }
    result
}

/// A declaration of `kw` starts at index `i` of `s`: `kw` stands there
/// with no identifier character right before it, and whitespace and an
/// identifier character follow it.
pub open spec fn def_at(s: Seq<char>, kw: Seq<char>, i: int) -> bool {
    &&& sub_at(s, kw, i)
    &&& (i == 0 || !is_word_c(s[i - 1]))
    &&& ({
        let b = skip_ws(s, i + kw.len());
        b > i + kw.len() && b < s.len() && is_word_c(s[b])
    })
}

/// The identifier of the declaration of `kw` starting at index `i`.
pub open spec fn def_name_at(s: Seq<char>, kw: Seq<char>, i: int) -> Seq<char> {
    let b = skip_ws(s, i + kw.len());
    s.subrange(b, word_end(s, b))
}

/// Index of the first declaration of `kw` in `s` at or after `i`;
/// `s.len()` when there is none.
pub open spec fn def_pos(s: Seq<char>, kw: Seq<char>, i: int) -> int
    decreases s.len() - i when 0 <= i <= s.len() && kw.len() >= 1
{
    if i + kw.len() > s.len() {
        s.len() as int
    } else if def_at(s, kw, i) {
        i
    } else {
        def_pos(s, kw, i + 1)
    }
}

/// `s` holds a declaration of `kw`.
pub open spec fn found_def(s: Seq<char>, kw: Seq<char>) -> bool {
    def_pos(s, kw, 0) < s.len()
}

/// The identifier of the first declaration of `kw` in `s`.
pub open spec fn def_name(s: Seq<char>, kw: Seq<char>) -> Seq<char> {
    def_name_at(s, kw, def_pos(s, kw, 0))
}

/// Extracts the identifier declared by `keyword` on `line`: at the first
/// position where `keyword` stands with no identifier character right
/// before it and is followed by whitespace and an identifier, that
/// identifier is returned.
pub fn extract_definition(line: &str, keyword: &str) -> (r: Option<String>)
    requires
        keyword@.len() >= 1,
        forall|j: int| 0 <= j < keyword@.len() ==> is_word_c(keyword@[j]),
    ensures
        match r {
            Some(name) => found_def(line@, keyword@) && name@ == def_name(line@, keyword@),
            None => !found_def(line@, keyword@),
        },
{
    let n = line.unicode_len();
    let m = keyword.unicode_len();
    let mut i: usize = 0;
    loop
        invariant
            0 <= i <= n,
            n == line@.len(),
            m == keyword@.len(),
            m >= 1,
            def_pos(line@, keyword@, 0) == def_pos(line@, keyword@, i as int),
        decreases n - i,
    {
        if m > n - i {
            assert(def_pos(line@, keyword@, i as int) == n);
            return None;
        }
        if sub_at_exec(line, i, keyword) && (i == 0 || !is_word(line.get_char(i - 1))) {
            let b = skip_ws_exec(line, i + m);
            proof {
                lemma_skip_ws_props(line@, i + m);
            }
            if b > i + m && b < n && is_word(line.get_char(b)) {
                assert(def_at(line@, keyword@, i as int));
                assert(def_pos(line@, keyword@, i as int) == i);
                let e = word_end_exec(line, b);
                proof {
                    lemma_word_end_props(line@, b as int);
                }
                let name = line.substring_char(b, e);
                return Some(name.to_owned());
            }
        }
        assert(!def_at(line@, keyword@, i as int));
        assert(def_pos(line@, keyword@, i as int) == def_pos(line@, keyword@, i + 1));
        i += 1;
    }
}

/// Whether `s` is a doc-comment line: `///` right after the leading
/// whitespace.
pub open spec fn is_doc_line(s: Seq<char>) -> bool {
    sub_at(s, "///"@, skip_ws(s, 0))
}

/// The payload of a doc-comment line: what follows the `///` marker and
/// the whitespace after it.
pub open spec fn doc_payload(s: Seq<char>) -> Seq<char> {
    s.subrange(skip_ws(s, skip_ws(s, 0) + "///"@.len()), s.len() as int)
}

/// The summary accumulator's state: whether an opening summary delimiter
/// is waiting for its closer, and the text gathered so far.
pub struct DocState {
    pub in_summary: bool,
    pub buf: Seq<char>,
}

/// One step of the summary accumulator on one line: the new state, and
/// the flattened summary if this line completed one.
pub open spec fn doc_step(st: DocState, line: Seq<char>) -> (DocState, Option<Seq<char>>) {
    if !is_doc_line(line) {
        (st, None)
    } else {
        let p = doc_payload(line);
        let has_open = has_sub(p, "<summary>"@);
        let has_close = has_sub(p, "</summary>"@);
        if has_open && has_close {
            let a = find_sub_at(p, "<summary>"@, 0) + "<summary>"@.len();
            let c = find_sub_at(p, "</summary>"@, 0);
            let inner = if a <= c {
                p.subrange(a, c)
            } else {
                Seq::empty()
            };
            (
                DocState { in_summary: st.in_summary, buf: Seq::empty() },
                Some(trimmed(strip_tags(st.buf + inner))),
            )
        } else if has_open {
            let a = find_sub_at(p, "<summary>"@, 0) + "<summary>"@.len();
            (DocState { in_summary: true, buf: st.buf + p.subrange(a, p.len() as int) }, None)
        } else if has_close {
            let c = find_sub_at(p, "</summary>"@, 0);
            (
                DocState { in_summary: false, buf: Seq::empty() },
                Some(trimmed(strip_tags(st.buf + p.subrange(0, c)))),
            )
        } else if st.in_summary {
            (
                DocState {
                    in_summary: true,
                    buf: if st.buf.len() == 0 {
                        p
                    } else {
                        st.buf + seq![' '] + p
                    },
                },
                None,
            )
        } else {
            (st, None)
        }
    }
}

/// Recognizes doc-comment lines and accumulates the text between the
/// summary delimiters, flattening a block into one string.
pub struct DocstringExtractor {
    in_summary: bool,
    summary_content: String,
}

impl View for DocstringExtractor {
    type V = DocState;

    closed spec fn view(&self) -> DocState {
        DocState { in_summary: self.in_summary, buf: self.summary_content@ }
    }
}

impl DocstringExtractor {
    /// A fresh accumulator: not inside a summary, nothing gathered.
    pub fn new() -> (r: Self)
        ensures
            r@ == (DocState { in_summary: false, buf: Seq::<char>::empty() }),
    {
        Self { in_summary: false, summary_content: String::new() }
    }

    /// Observes one line; returns the flattened, markup-stripped, trimmed
    /// summary when this line completes a summary block.
    pub fn extract_docstring(&mut self, line: &str) -> (r: Option<String>)
        ensures
            final(self)@ == doc_step(old(self)@, line@).0,
            match r {
                Some(out) => doc_step(old(self)@, line@).1 == Some(out@),
                None => doc_step(old(self)@, line@).1 is None,
            },
    {
        proof {
            reveal_strlit("///");
            reveal_strlit("<summary>");
            reveal_strlit("</summary>");
            reveal_strlit(" ");
        }
        let n = line.unicode_len();
        let b0 = skip_ws_exec(line, 0);
        if !sub_at_exec(line, b0, "///") {
            return None;
        }
        let ps = skip_ws_exec(line, b0 + 3);
        proof {
            lemma_skip_ws_props(line@, b0 + 3);
        }
        let p = line.substring_char(ps, n);
        assert(p@ == doc_payload(line@));
        let np = p.unicode_len();
        let a = find_sub(p, "<summary>", 0);
        let c = find_sub(p, "</summary>", 0);
        proof {
            lemma_find_sub_props(p@, "<summary>"@, 0);
            lemma_find_sub_props(p@, "</summary>"@, 0);
        }
        let has_open = a < np;
        let has_close = c < np;
        proof {
            if !has_open {
                assert(forall|j: int| sub_at(p@, "<summary>"@, j) ==> 0 <= j < p@.len());
            }
            if !has_close {
                assert(forall|j: int| sub_at(p@, "</summary>"@, j) ==> 0 <= j < p@.len());
            }
        }
        if has_open && has_close {
            let inner_start = a + 9;
            if inner_start <= c {
                let inner = p.substring_char(inner_start, c);
                self.summary_content.append(inner);
            }
            let stripped = crate::text::strip_tags_exec(self.summary_content.as_str());
            let cleaned = crate::text::trim_exec(stripped.as_str()).to_owned();
            self.summary_content = String::new();
            Some(cleaned)
        } else if has_open {
            self.in_summary = true;
            let tail = p.substring_char(a + 9, np);
            self.summary_content.append(tail);
            None
        } else if has_close {
            let head = p.substring_char(0, c);
            self.summary_content.append(head);
            self.in_summary = false;
            let stripped = crate::text::strip_tags_exec(self.summary_content.as_str());
            let cleaned = crate::text::trim_exec(stripped.as_str()).to_owned();
            self.summary_content = String::new();
            Some(cleaned)
        } else if self.in_summary {
            if self.summary_content.as_str().unicode_len() > 0 {
                self.summary_content.append(" ");
                self.summary_content.append(p);
                assert(self@.buf =~= old(self)@.buf + seq![' '] + p@);
            } else {
                self.summary_content.append(p);
                assert(self@.buf =~= p@);
            }
            None
        } else {
            None
        }
    }
}

/// One extracted declaration: its name, kind, access qualifier and the
/// summary captured right before it, if any.
pub struct ConstructInfo {
    pub docstring: Option<String>,
    pub access_modifier: AccessModifier,
    pub construct_type: ConstructType,
    pub name: String,
}

impl Clone for ConstructInfo {
    fn clone(&self) -> (r: Self)
        ensures
            r == *self,
    {
        ConstructInfo {
            docstring: match &self.docstring {
                Some(d) => Some(d.clone()),
                None => None,
            },
            access_modifier: self.access_modifier,
            construct_type: self.construct_type,
            name: self.name.clone(),
        }
    }
}

/// The mathematical image of a `ConstructInfo`.
pub struct ConstructInfoView {
    pub docstring: Option<Seq<char>>,
    pub access_modifier: AccessModifier,
    pub construct_type: ConstructType,
    pub name: Seq<char>,
}

impl View for ConstructInfo {
    type V = ConstructInfoView;

    open spec fn view(&self) -> ConstructInfoView {
        ConstructInfoView {
            docstring: self.docstring.deep_view(),
            access_modifier: self.access_modifier,
            construct_type: self.construct_type,
            name: self.name@,
        }
    }
}

impl DeepView for ConstructInfo {
    type V = ConstructInfoView;

    open spec fn deep_view(&self) -> ConstructInfoView {
        self.view()
    }
}

/// The construct a non-suppressed line declares, tried kind by kind in
/// priority order. A class name already seen falls through to the later
/// kinds; other kinds are never deduplicated.
pub open spec fn match_step(line: Seq<char>, seen: Seq<Seq<char>>) -> Option<
    (ConstructType, Seq<char>),
> {
    if found_def(line, "class"@) && !seen.contains(def_name(line, "class"@)) {
        Some((ConstructType::Class, def_name(line, "class"@)))
    } else if found_def(line, "struct"@) {
        Some((ConstructType::Struct, def_name(line, "struct"@)))
    } else if found_def(line, "enum"@) {
        Some((ConstructType::Enum, def_name(line, "enum"@)))
    } else if found_def(line, "interface"@) {
        Some((ConstructType::Interface, def_name(line, "interface"@)))
    } else {
        None
    }
}

/// The scanner's whole state: the comment flag, the summary accumulator,
/// the summary waiting to be attached, and the class names seen so far.
pub struct ScanState {
    pub inside_comment: bool,
    pub doc: DocState,
    pub pending: Option<Seq<char>>,
    pub seen: Seq<Seq<char>>,
}

/// Builds a `ScanState` from its parts.
pub open spec fn st_of(
    inside: bool,
    doc: DocState,
    pending: Option<Seq<char>>,
    seen: Seq<Seq<char>>,
) -> ScanState {
    ScanState { inside_comment: inside, doc: doc, pending: pending, seen: seen }
}

/// A completed summary joins the pending one, separated by one space.
pub open spec fn merge_pending(p: Option<Seq<char>>, ev: Option<Seq<char>>) -> Option<Seq<char>> {
    match ev {
        None => p,
        Some(d) => match p {
            None => Some(d),
            Some(e) => Some(e + seq![' '] + d),
        },
    }
}

/// One step of the scanner on one raw line: trim it, feed the summary
/// accumulator, drop the line if it is commented out, otherwise match a
/// construct, deduplicating class names.
pub open spec fn scan_line(st: ScanState, raw: Seq<char>) -> (ScanState, Option<
    ConstructInfoView,
>) {
    let line = trimmed(raw);
    let stepped = doc_step(st.doc, line);
    let pend = merge_pending(st.pending, stepped.1);
    let inside2 = comment_state_after(line, st.inside_comment);
    if suppress_line(line, st.inside_comment) {
        (st_of(inside2, stepped.0, pend, st.seen), None)
    } else {
        match match_step(line, st.seen) {
            None => (st_of(inside2, stepped.0, pend, st.seen), None),
            Some(hit) => (
                st_of(
                    inside2,
                    stepped.0,
                    None,
                    if hit.0 == ConstructType::Class {
                        st.seen.push(hit.1)
                    } else {
                        st.seen
                    },
                ),
                Some(
                    ConstructInfoView {
                        docstring: pend,
                        access_modifier: access_of(line),
                        construct_type: hit.0,
                        name: hit.1,
                    },
                ),
            ),
        }
    }
}

/// Folds the scanner over the lines of one file from index `i` on.
pub open spec fn scan_lines(st: ScanState, lines: Seq<Seq<char>>, i: int) -> (ScanState, Seq<
    ConstructInfoView,
>)
    decreases lines.len() - i when 0 <= i <= lines.len()
{
    if i >= lines.len() {
        (st, Seq::empty())
    } else {
        let first = scan_line(st, lines[i]);
        let rest = scan_lines(first.0, lines, i + 1);
        (
            rest.0,
            match first.1 {
                None => rest.1,
                Some(c) => seq![c] + rest.1,
            },
        )
    }
}

/// The scanner's state at the start of a file: only the seen class names
/// carry over from earlier files.
pub open spec fn fresh_file_state(seen: Seq<Seq<char>>) -> ScanState {
    ScanState {
        inside_comment: false,
        doc: DocState { in_summary: false, buf: Seq::empty() },
        pending: None,
        seen: seen,
    }
}

/// The constructs extracted from the file contents from index `i` on,
/// starting with `seen` class names.
pub open spec fn scan_files(seen: Seq<Seq<char>>, files: Seq<Seq<char>>, i: int) -> Seq<
    ConstructInfoView,
>
    decreases files.len() - i when 0 <= i <= files.len()
{
    if i >= files.len() {
        Seq::empty()
    } else {
        let r = scan_lines(fresh_file_state(seen), lines_of(files[i]), 0);
        r.1 + scan_files(r.0.seen, files, i + 1)
    }
}

/// All constructs extracted from the given file contents, in
/// first-encounter order.
pub open spec fn constructs_of(files: Seq<Seq<char>>) -> Seq<ConstructInfoView> {
    scan_files(Seq::empty(), files, 0)
}

/// Every name in `a` is in `b` too.
pub open spec fn names_subset(a: Seq<Seq<char>>, b: Seq<Seq<char>>) -> bool {
    forall|x: Seq<char>| a.contains(x) ==> b.contains(x)
}

/// Every class construct in `out` has a name that was not in `seen0` and
/// is in `seen1`.
pub open spec fn classes_fresh(
    out: Seq<ConstructInfoView>,
    seen0: Seq<Seq<char>>,
    seen1: Seq<Seq<char>>,
) -> bool {
    forall|a: int|
        0 <= a < out.len() && (#[trigger] out[a]).construct_type == ConstructType::Class
            ==> !seen0.contains(out[a].name) && seen1.contains(out[a].name)
}

/// No two class constructs in `out` share a name.
pub open spec fn distinct_class_names(out: Seq<ConstructInfoView>) -> bool {
    forall|a: int, b: int|
        0 <= a < b < out.len() && (#[trigger] out[a]).construct_type == ConstructType::Class && (
        #[trigger] out[b]).construct_type == ConstructType::Class ==> out[a].name != out[b].name
}

/// How one scan step treats the seen set: it only grows, it grows
/// exactly by the name of an emitted class construct, and such a name
/// was not in it before.
pub proof fn lemma_scan_line_seen(st: ScanState, raw: Seq<char>)
    ensures
        ({
            let r = scan_line(st, raw);
            &&& names_subset(st.seen, r.0.seen)
            &&& match r.1 {
                Some(c) => {
                    &&& c.construct_type == ConstructType::Class ==> !st.seen.contains(c.name)
                        && r.0.seen.contains(c.name)
                    &&& c.construct_type != ConstructType::Class ==> r.0.seen == st.seen
                },
                None => r.0.seen == st.seen,
            }
        }),
{
    let r = scan_line(st, raw);
    if r.0.seen != st.seen {
        let line = trimmed(raw);
        match match_step(line, st.seen) {
            Some(hit) => {
                if hit.0 == ConstructType::Class {
                    assert(r.0.seen == st.seen.push(hit.1));
                    assert(r.0.seen[st.seen.len() as int] == hit.1);
                    assert(r.0.seen.contains(hit.1));
                    assert forall|x: Seq<char>| st.seen.contains(x) implies r.0.seen.contains(
                        x,
                    ) by {
                        let w = choose|w: int| 0 <= w < st.seen.len() && st.seen[w] == x;
                        assert(r.0.seen[w] == x);
                    }
                }
            },
            None => {},
        }
    }
}

/// Folding the scanner over lines keeps the seen set growing, emits
/// class constructs only with fresh names, and never emits two class
/// constructs with one name.
pub proof fn lemma_scan_lines_classes(st: ScanState, lines: Seq<Seq<char>>, i: int)
    requires
        0 <= i <= lines.len(),
    ensures
        ({
            let r = scan_lines(st, lines, i);
            &&& names_subset(st.seen, r.0.seen)
            &&& classes_fresh(r.1, st.seen, r.0.seen)
            &&& distinct_class_names(r.1)
        }),
    decreases lines.len() - i,
{
    if i < lines.len() {
        let first = scan_line(st, lines[i]);
        let rest = scan_lines(first.0, lines, i + 1);
        lemma_scan_line_seen(st, lines[i]);
        lemma_scan_lines_classes(first.0, lines, i + 1);
        let r = scan_lines(st, lines, i);
        assert(r.0 == rest.0);
        match first.1 {
            None => {
                assert(r.1 == rest.1);
            },
            Some(c) => {
                assert(r.1 == seq![c] + rest.1);
                assert(r.1[0] == c);
                assert(forall|a: int| 1 <= a < r.1.len() ==> r.1[a] == rest.1[a - 1]);
                if c.construct_type == ConstructType::Class {
                    assert(first.0.seen.contains(c.name));
                    assert(rest.0.seen.contains(c.name));
                }
                assert(classes_fresh(r.1, st.seen, r.0.seen));
                assert(distinct_class_names(r.1));
            },
        }
    }
}

/// Folding the scanner over whole files: every extracted class construct
/// has a name not seen at the start, and no two of them share a name.
pub proof fn lemma_scan_files_classes(seen: Seq<Seq<char>>, files: Seq<Seq<char>>, i: int)
    requires
        0 <= i <= files.len(),
    ensures
        classes_fresh_weak(scan_files(seen, files, i), seen),
        distinct_class_names(scan_files(seen, files, i)),
    decreases files.len() - i,
{
    if i < files.len() {
        let r = scan_lines(fresh_file_state(seen), lines_of(files[i]), 0);
        let tail = scan_files(r.0.seen, files, i + 1);
        lemma_scan_lines_classes(fresh_file_state(seen), lines_of(files[i]), 0);
        lemma_scan_files_classes(r.0.seen, files, i + 1);
        let out = scan_files(seen, files, i);
        assert(out == r.1 + tail);
        assert(forall|a: int| 0 <= a < r.1.len() ==> out[a] == r.1[a]);
        assert(forall|a: int| r.1.len() <= a < out.len() ==> out[a] == tail[a - r.1.len()]);
        assert(classes_fresh_weak(out, seen));
        assert(distinct_class_names(out));
    }
}

/// Every class construct in `out` has a name outside `seen0`.
pub open spec fn classes_fresh_weak(out: Seq<ConstructInfoView>, seen0: Seq<Seq<char>>) -> bool {
    forall|a: int|
        0 <= a < out.len() && (#[trigger] out[a]).construct_type == ConstructType::Class
            ==> !seen0.contains(out[a].name)
}

/// Law: partial-declaration collapse. Among all constructs extracted
/// from one run, no two class constructs share a name, however often and
/// in however many files the class is declared.
pub proof fn lemma_class_names_unique(files: Seq<Seq<char>>, a: int, b: int)
    requires
        0 <= a < b < constructs_of(files).len(),
        constructs_of(files)[a].construct_type == ConstructType::Class,
        constructs_of(files)[b].construct_type == ConstructType::Class,
    ensures
        constructs_of(files)[a].name != constructs_of(files)[b].name,
{
    lemma_scan_files_classes(Seq::empty(), files, 0);
}

/// Law: no deduplication outside classes. A non-suppressed line that
/// declares a `struct` and no `class` always yields its Struct
/// construct, whatever class names were seen before.
pub proof fn lemma_struct_not_deduped(st: ScanState, raw: Seq<char>)
    requires
        !suppress_line(trimmed(raw), st.inside_comment),
        found_def(trimmed(raw), "struct"@),
        !found_def(trimmed(raw), "class"@),
    ensures
        ({
            let r = scan_line(st, raw);
            &&& r.1 is Some
            &&& r.1.unwrap().construct_type == ConstructType::Struct
            &&& r.1.unwrap().name == def_name(trimmed(raw), "struct"@)
            &&& r.0.seen == st.seen
        }),
{
}

/// A line of the shape `/// X`, with `X` not starting in whitespace, is
/// a doc-comment line whose payload is `X`.
proof fn lemma_doc_payload_at4(l: Seq<char>)
    requires
        l.len() >= 4,
        l[0] == '/',
        l[1] == '/',
        l[2] == '/',
        l[3] == ' ',
        l.len() > 4 ==> !is_space_c(l[4]),
    ensures
        is_doc_line(l),
        doc_payload(l) == l.subrange(4, l.len() as int),
{
    reveal_strlit("///");
    assert(skip_ws(l, 0) == 0);
    assert(sub_at(l, "///"@, 0)) by {
        assert(l.subrange(0, 3) =~= "///"@);
    }
    assert(skip_ws(l, 4) == 4);
    assert(skip_ws(l, 3) == 4);
}

/// The single-line summary form: `/// <summary>t</summary>` completes a
/// summary of exactly `t`, for tag-free, trimmed `t`.
#[verifier::rlimit(100)]
proof fn lemma_single_line_summary(t: Seq<char>)
    requires
        forall|j: int| 0 <= j < t.len() ==> t[j] != '<' && t[j] != '>',
        t.len() > 0 ==> !is_space_c(t[0]),
        t.len() > 0 ==> !is_space_c(t[t.len() - 1]),
    ensures
        ({
            let start = DocState { in_summary: false, buf: Seq::empty() };
            doc_step(start, "/// <summary>"@ + t + "</summary>"@).1 == Some(t)
        }),
{
    reveal_strlit("/// <summary>");
    reveal_strlit("<summary>");
    reveal_strlit("</summary>");
    let start = DocState { in_summary: false, buf: Seq::empty() };
    let open_tag = "<summary>"@;
    let close_tag = "</summary>"@;
    let l0 = "/// <summary>"@ + t + "</summary>"@;
    lemma_doc_payload_at4(l0);
    let p0 = doc_payload(l0);
    assert(p0 =~= open_tag + t + close_tag);
    assert(sub_at(p0, open_tag, 0)) by {
        assert(p0.subrange(0, 9) =~= open_tag);
    }
    let cpos = 9 + t.len() as int;
    assert(sub_at(p0, close_tag, cpos)) by {
        assert(p0.subrange(cpos, cpos + 10) =~= close_tag);
    }
    assert(find_sub_at(p0, open_tag, 0) == 0);
    assert forall|j: int| 0 <= j < cpos implies !sub_at(p0, close_tag, j) by {
        if sub_at(p0, close_tag, j) {
            if j == 0 {
                assert(p0.subrange(j, j + 10)[1] == p0[1]);
            } else {
                assert(p0.subrange(j, j + 10)[0] == p0[j]);
            }
        }
    }
    lemma_find_sub_first_from(p0, close_tag, 0, cpos);
    let inner0 = p0.subrange(0 + open_tag.len() as int, cpos);
    assert(inner0 =~= t);
    assert(start.buf + inner0 =~= t);
    crate::text::lemma_strip_tags_tagless(t, 0);
    assert(strip_tags(t) =~= t);
    crate::text::lemma_trimmed_identity(t);
}

/// The opening line `/// <summary>` enters summary mode with an empty
/// buffer.
#[verifier::rlimit(50)]
proof fn lemma_block_open(st: DocState)
    requires
        st.buf.len() == 0,
    ensures
        doc_step(st, "/// <summary>"@).0 == (DocState { in_summary: true, buf: Seq::empty() }),
        doc_step(st, "/// <summary>"@).1 is None,
{
    reveal_strlit("/// <summary>");
    reveal_strlit("<summary>");
    reveal_strlit("</summary>");
    let open_tag = "<summary>"@;
    let close_tag = "</summary>"@;
    let l1 = "/// <summary>"@;
    lemma_doc_payload_at4(l1);
    let p1 = doc_payload(l1);
    assert(p1 =~= open_tag);
    assert(sub_at(p1, open_tag, 0)) by {
        assert(p1.subrange(0, 9) =~= open_tag);
    }
    assert(!has_sub(p1, close_tag)) by {
        assert(forall|j: int| sub_at(p1, close_tag, j) ==> j + 10 <= 9);
    }
    assert(find_sub_at(p1, open_tag, 0) == 0);
    assert(st.buf + p1.subrange(0 + open_tag.len() as int, p1.len() as int) =~= Seq::<
        char,
    >::empty());
}

/// A tag-free content line `/// t` in summary mode, with an empty
/// buffer, leaves exactly `t` in the buffer.
#[verifier::rlimit(50)]
proof fn lemma_block_content(st: DocState, t: Seq<char>)
    requires
        forall|j: int| 0 <= j < t.len() ==> t[j] != '<' && t[j] != '>',
        t.len() > 0 ==> !is_space_c(t[0]),
        st.in_summary,
        st.buf.len() == 0,
    ensures
        doc_step(st, "/// "@ + t).0 == (DocState { in_summary: true, buf: t }),
        doc_step(st, "/// "@ + t).1 is None,
{
    reveal_strlit("/// ");
    reveal_strlit("<summary>");
    reveal_strlit("</summary>");
    let open_tag = "<summary>"@;
    let close_tag = "</summary>"@;
    let l2 = "/// "@ + t;
    lemma_doc_payload_at4(l2);
    let p2 = doc_payload(l2);
    assert(p2 =~= t);
    assert(!has_sub(p2, open_tag)) by {
        assert forall|j: int| !sub_at(p2, open_tag, j) by {
            if sub_at(p2, open_tag, j) {
                assert(p2.subrange(j, j + 9)[0] == p2[j]);
            }
        }
    }
    assert(!has_sub(p2, close_tag)) by {
        assert forall|j: int| !sub_at(p2, close_tag, j) by {
            if sub_at(p2, close_tag, j) {
                assert(p2.subrange(j, j + 10)[0] == p2[j]);
            }
        }
    }
}

/// The closing line `/// </summary>` completes the summary as exactly
/// the buffered tag-free, trimmed text.
#[verifier::rlimit(50)]
proof fn lemma_block_close(st: DocState, t: Seq<char>)
    requires
        forall|j: int| 0 <= j < t.len() ==> t[j] != '<' && t[j] != '>',
        t.len() > 0 ==> !is_space_c(t[0]),
        t.len() > 0 ==> !is_space_c(t[t.len() - 1]),
        st.buf == t,
    ensures
        doc_step(st, "/// </summary>"@).1 == Some(t),
{
    reveal_strlit("/// </summary>");
    reveal_strlit("<summary>");
    reveal_strlit("</summary>");
    let open_tag = "<summary>"@;
    let close_tag = "</summary>"@;
    let l3 = "/// </summary>"@;
    lemma_doc_payload_at4(l3);
    let p3 = doc_payload(l3);
    assert(p3 =~= close_tag);
    assert(sub_at(p3, close_tag, 0)) by {
        assert(p3.subrange(0, 10) =~= close_tag);
    }
    assert(!has_sub(p3, open_tag)) by {
        assert forall|j: int| !sub_at(p3, open_tag, j) by {
            if sub_at(p3, open_tag, j) {
                if j == 0 {
                    assert(p3.subrange(j, j + 9)[1] == p3[1]);
                } else {
                    assert(p3.subrange(j, j + 9)[0] == p3[j]);
                }
            }
        }
    }
    assert(find_sub_at(p3, close_tag, 0) == 0);
    assert(st.buf + p3.subrange(0, 0) =~= t);
    crate::text::lemma_strip_tags_tagless(t, 0);
    assert(strip_tags(t) =~= t);
    crate::text::lemma_trimmed_identity(t);
}

/// Law: a single-line summary and the multi-line block with the same
/// content yield the identical summary text. For tag-free, trimmed
/// content `t`, both `/// <summary>t</summary>` alone and the block
/// `/// <summary>`, `/// t`, `/// </summary>` complete a summary, and
/// both complete it as exactly `t`.
pub proof fn lemma_summary_one_line_equals_block(t: Seq<char>)
    requires
        forall|j: int| 0 <= j < t.len() ==> t[j] != '<' && t[j] != '>',
        t.len() > 0 ==> !is_space_c(t[0]),
        t.len() > 0 ==> !is_space_c(t[t.len() - 1]),
    ensures
        ({
            let start = DocState { in_summary: false, buf: Seq::empty() };
            let single = doc_step(start, "/// <summary>"@ + t + "</summary>"@);
            let first = doc_step(start, "/// <summary>"@);
            let middle = doc_step(first.0, "/// "@ + t);
            let last = doc_step(middle.0, "/// </summary>"@);
            &&& single.1 == Some(t)
            &&& last.1 == Some(t)
        }),
{
    lemma_single_line_summary(t);
    let start = DocState { in_summary: false, buf: Seq::empty() };
    lemma_block_open(start);
    let first = doc_step(start, "/// <summary>"@);
    lemma_block_content(first.0, t);
    let middle = doc_step(first.0, "/// "@ + t);
    lemma_block_close(middle.0, t);
}

proof fn lemma_def_pos_first_from(s: Seq<char>, kw: Seq<char>, i: int, p: int)
    requires
        kw.len() >= 1,
        0 <= i <= p,
        def_at(s, kw, p),
        forall|j: int| i <= j < p ==> !def_at(s, kw, j),
    ensures
        def_pos(s, kw, i) == p,
    decreases p - i,
{
    if i < p {
        lemma_def_pos_first_from(s, kw, i + 1, p);
    }
}

/// The position of the first declaration is the first position where one
/// stands.
pub proof fn lemma_def_pos_first(s: Seq<char>, kw: Seq<char>, p: int)
    requires
        kw.len() >= 1,
        0 <= p,
        def_at(s, kw, p),
        forall|j: int| 0 <= j < p ==> !def_at(s, kw, j),
    ensures
        def_pos(s, kw, 0) == p,
{
    lemma_def_pos_first_from(s, kw, 0, p);
}

/// A line made of a slash-free prefix and a tail free of comment markers
/// holds no comment marker at all.
proof fn lemma_no_comment_markers(a: Seq<char>, rest: Seq<char>)
    requires
        forall|j: int| 0 <= j < a.len() ==> a[j] != '/',
        !has_sub(rest, "//"@),
        !has_sub(rest, "/*"@),
    ensures
        !has_sub(a + rest, "//"@),
        !has_sub(a + rest, "/*"@),
{
    reveal_strlit("//");
    reveal_strlit("/*");
    let line = a + rest;
    assert forall|j: int| !sub_at(line, "//"@, j) by {
        if sub_at(line, "//"@, j) {
            assert(line.subrange(j, j + 2)[0] == line[j]);
            assert(j >= a.len());
            crate::text::lemma_sub_at_in_suffix(a, rest, "//"@, j);
        }
    }
    assert forall|j: int| !sub_at(line, "/*"@, j) by {
        if sub_at(line, "/*"@, j) {
            assert(line.subrange(j, j + 2)[0] == line[j]);
            assert(j >= a.len());
            crate::text::lemma_sub_at_in_suffix(a, rest, "/*"@, j);
        }
    }
}

/// The scanner's step on a class declaration line `<pre>class <Name><rest>`:
/// it yields exactly the one Class construct named `<Name>`, carrying the
/// pending summary and the line's access qualifier.
#[verifier::rlimit(100)]
proof fn lemma_class_line_core(st: ScanState, pre: Seq<char>, name: Seq<char>, rest: Seq<char>)
    requires
        st.inside_comment == false,
        !st.seen.contains(name),
        name.len() >= 1,
        forall|j: int| 0 <= j < name.len() ==> is_word_c(#[trigger] name[j]),
        rest.len() > 0 ==> !is_word_c(rest[0]),
        rest.len() > 0 ==> !is_space_c(rest[rest.len() - 1]),
        !has_sub(rest, "//"@),
        !has_sub(rest, "/*"@),
        pre.len() > 0 ==> pre[pre.len() - 1] == ' ',
        pre.len() > 0 ==> !is_space_c(pre[0]),
        forall|j: int| 0 <= j < pre.len() ==> pre[j] != '/',
        forall|j: int|
            0 <= j < pre.len() ==> !sub_at(pre + "class "@ + name + rest, "class"@, j),
    ensures
        ({
            let line = pre + "class "@ + name + rest;
            let r = scan_line(st, line);
            &&& r.1 == Some(
                ConstructInfoView {
                    docstring: st.pending,
                    access_modifier: access_of(line),
                    construct_type: ConstructType::Class,
                    name: name,
                },
            )
            &&& r.0.seen == st.seen.push(name)
        }),
{
    reveal_strlit("class ");
    reveal_strlit("class");
    reveal_strlit("///");
    reveal_strlit("//");
    reveal_strlit("/*");
    reveal_strlit("*/");
    let line = pre + "class "@ + name + rest;
    let off = pre.len() as int;
    assert(forall|j: int| 0 <= j < off ==> line[j] == pre[j]);
    assert(line[off] == 'c' && line[off + 1] == 'l' && line[off + 2] == 'a' && line[off + 3]
        == 's' && line[off + 4] == 's' && line[off + 5] == ' ');
    assert(forall|t: int| 0 <= t < name.len() ==> line[off + 6 + t] == name[t]);
    let roff = off + 6 + name.len() as int;
    assert(forall|t: int| 0 <= t < rest.len() ==> line[roff + t] == rest[t]);

    // The line is its own trimmed form.
    assert(!is_space_c(line[0]));
    assert(!is_space_c(name[name.len() - 1]));
    assert(!is_space_c(line[line.len() - 1]));
    crate::text::lemma_trimmed_identity(line);

    // It is no doc-comment line, so the accumulator ignores it.
    assert(skip_ws(line, 0) == 0);
    assert(!sub_at(line, "///"@, 0)) by {
        if sub_at(line, "///"@, 0) {
            assert(line.subrange(0, 3)[0] == line[0]);
        }
    }
    assert(!is_doc_line(line));
    assert(doc_step(st.doc, line).1 is None);
    assert(merge_pending(st.pending, doc_step(st.doc, line).1) == st.pending);

    // No comment marker stands anywhere on it, so it is not suppressed.
    let a = line.subrange(0, roff);
    assert(a + rest =~= line);
    assert(forall|j: int| 0 <= j < roff ==> #[trigger] line[j] != '/');
    assert(forall|j: int| 0 <= j < a.len() ==> a[j] != '/');
    lemma_no_comment_markers(a, rest);
    assert(!has_sub(line, "//"@));
    assert(!has_sub(line, "/*"@));
    lemma_find_sub_props(line, "//"@, 0);
    assert(find_sub_at(line, "//"@, 0) == line.len());
    assert(!sub_at(line, "//"@, skip_ws(line, 0)));
    assert(!suppress_line(line, st.inside_comment));

    // The declaration of `class` stands exactly at the end of `pre`.
    assert(sub_at(line, "class"@, off)) by {
        assert(line.subrange(off, off + 5) =~= "class"@);
    }
    assert(!is_space_c(name[0]));
    assert(skip_ws(line, off + 6) == off + 6);
    assert(skip_ws(line, off + 5) == off + 6);
    assert(def_at(line, "class"@, off));
    assert(forall|j: int| 0 <= j < off ==> !def_at(line, "class"@, j));
    lemma_def_pos_first(line, "class"@, off);
    assert(found_def(line, "class"@));
    crate::text::lemma_word_end_run(line, off + 6, roff);
    assert(def_name(line, "class"@) =~= name);
    assert(match_step(line, st.seen) == Some((ConstructType::Class, name)));
}

/// Law: a line `<qualifier> class <Name> ...` yields exactly one Class
/// construct named `<Name>` with that access qualifier, for any of the
/// four qualifiers, any identifier, and any comment-free tail.
pub proof fn lemma_qualified_class_line(
    st: ScanState,
    m: AccessModifier,
    name: Seq<char>,
    rest: Seq<char>,
)
    requires
        st.inside_comment == false,
        !st.seen.contains(name),
        name.len() >= 1,
        forall|j: int| 0 <= j < name.len() ==> is_word_c(#[trigger] name[j]),
        rest.len() > 0 ==> !is_word_c(rest[0]),
        rest.len() > 0 ==> !is_space_c(rest[rest.len() - 1]),
        !has_sub(rest, "//"@),
        !has_sub(rest, "/*"@),
    ensures
        ({
            let line = access_kw(m) + seq![' '] + "class "@ + name + rest;
            let r = scan_line(st, line);
            &&& r.1 == Some(
                ConstructInfoView {
                    docstring: st.pending,
                    access_modifier: m,
                    construct_type: ConstructType::Class,
                    name: name,
                },
            )
            &&& r.0.seen == st.seen.push(name)
        }),
{
    reveal_strlit("public");
    reveal_strlit("private");
    reveal_strlit("protected");
    reveal_strlit("internal");
    reveal_strlit("class");
    let pre = access_kw(m) + seq![' '];
    let line = pre + "class "@ + name + rest;
    assert(access_kw(m) + seq![' '] + "class "@ + name + rest == line);
    assert(forall|j: int| 0 <= j < pre.len() - 1 ==> pre[j] == access_kw(m)[j]);
    assert(pre[pre.len() - 1] == ' ');
    assert(forall|j: int| 0 <= j < pre.len() ==> pre[j] != '/');
    assert forall|j: int| 0 <= j < pre.len() implies !sub_at(line, "class"@, j) by {
        if sub_at(line, "class"@, j) {
            assert(line.subrange(j, j + 5)[0] == line[j]);
            assert(line.subrange(j, j + 5)[1] == line[j + 1]);
        }
    }
    lemma_class_line_core(st, pre, name, rest);
    assert(skip_ws(line, 0) == 0);
    match m {
        AccessModifier::Public => {
            assert(sub_at(line, "public"@, 0)) by {
                assert(line.subrange(0, 6) =~= "public"@);
            }
        },
        AccessModifier::Private => {
            assert(!sub_at(line, "public"@, 0)) by {
                if sub_at(line, "public"@, 0) {
                    assert(line.subrange(0, 6)[1] == line[1]);
                }
            }
            assert(sub_at(line, "private"@, 0)) by {
                assert(line.subrange(0, 7) =~= "private"@);
            }
        },
        AccessModifier::Protected => {
            assert(!sub_at(line, "public"@, 0)) by {
                if sub_at(line, "public"@, 0) {
                    assert(line.subrange(0, 6)[1] == line[1]);
                }
            }
            assert(!sub_at(line, "private"@, 0)) by {
                if sub_at(line, "private"@, 0) {
                    assert(line.subrange(0, 7)[2] == line[2]);
                }
            }
            assert(sub_at(line, "protected"@, 0)) by {
                assert(line.subrange(0, 9) =~= "protected"@);
            }
        },
        AccessModifier::Internal => {
            assert(!sub_at(line, "public"@, 0)) by {
                if sub_at(line, "public"@, 0) {
                    assert(line.subrange(0, 8)[0] == line[0]);
                }
            }
            assert(!sub_at(line, "private"@, 0)) by {
                if sub_at(line, "private"@, 0) {
                    assert(line.subrange(0, 7)[0] == line[0]);
                }
            }
            assert(!sub_at(line, "protected"@, 0)) by {
                if sub_at(line, "protected"@, 0) {
                    assert(line.subrange(0, 9)[0] == line[0]);
                }
            }
            assert(sub_at(line, "internal"@, 0)) by {
                assert(line.subrange(0, 8) =~= "internal"@);
            }
        },
    }
    assert(access_of(line) == m);
}

/// Law: the same line without a qualifier yields the Class construct
/// with the default qualifier, `Private`.
pub proof fn lemma_unqualified_class_line(st: ScanState, name: Seq<char>, rest: Seq<char>)
    requires
        st.inside_comment == false,
        !st.seen.contains(name),
        name.len() >= 1,
        forall|j: int| 0 <= j < name.len() ==> is_word_c(#[trigger] name[j]),
        rest.len() > 0 ==> !is_word_c(rest[0]),
        rest.len() > 0 ==> !is_space_c(rest[rest.len() - 1]),
        !has_sub(rest, "//"@),
        !has_sub(rest, "/*"@),
    ensures
        ({
            let line = "class "@ + name + rest;
            let r = scan_line(st, line);
            &&& r.1 == Some(
                ConstructInfoView {
                    docstring: st.pending,
                    access_modifier: AccessModifier::Private,
                    construct_type: ConstructType::Class,
                    name: name,
                },
            )
            &&& r.0.seen == st.seen.push(name)
        }),
{
    reveal_strlit("public");
    reveal_strlit("private");
    reveal_strlit("protected");
    reveal_strlit("internal");
    reveal_strlit("class ");
    let pre = Seq::<char>::empty();
    let line = "class "@ + name + rest;
    assert(pre + "class "@ + name + rest =~= line);
    assert(pre + "class "@ + name + rest == line);
    lemma_class_line_core(st, pre, name, rest);
    assert(skip_ws(line, 0) == 0);
    assert(line[0] == 'c');
    assert(!sub_at(line, "public"@, 0)) by {
        if sub_at(line, "public"@, 0) {
            assert(line.subrange(0, 6)[0] == line[0]);
        }
    }
    assert(!sub_at(line, "private"@, 0)) by {
        if sub_at(line, "private"@, 0) {
            assert(line.subrange(0, 7)[0] == line[0]);
        }
    }
    assert(!sub_at(line, "protected"@, 0)) by {
        if sub_at(line, "protected"@, 0) {
            assert(line.subrange(0, 9)[0] == line[0]);
        }
    }
    assert(!sub_at(line, "internal"@, 0)) by {
        if sub_at(line, "internal"@, 0) {
            assert(line.subrange(0, 8)[0] == line[0]);
        }
    }
    assert(access_of(line) == AccessModifier::Private);
}

/// A nonempty single line without a newline is its own one-line file.
proof fn lemma_single_line_file(line: Seq<char>)
    requires
        line.len() > 0,
        forall|j: int| 0 <= j < line.len() ==> line[j] != '\n',
        line[line.len() - 1] != '\r',
    ensures
        lines_of(line) == seq![line],
{
    crate::text::lemma_find_char_props(line, '\n', 0);
    assert(crate::text::find_char_at(line, '\n', 0) == line.len());
    assert(line.subrange(0, line.len() as int) =~= line);
    assert(lines_of(line) =~= seq![line]);
}

/// Law: a whole run over one file holding one line
/// `<qualifier> class <Name> ...` extracts exactly one construct: the
/// Class named `<Name>` with that qualifier and no summary.
pub proof fn lemma_qualified_class_extraction(
    m: AccessModifier,
    name: Seq<char>,
    rest: Seq<char>,
)
    requires
        name.len() >= 1,
        forall|j: int| 0 <= j < name.len() ==> is_word_c(#[trigger] name[j]),
        rest.len() > 0 ==> !is_word_c(rest[0]),
        rest.len() > 0 ==> !is_space_c(rest[rest.len() - 1]),
        forall|j: int| 0 <= j < rest.len() ==> rest[j] != '\n',
        !has_sub(rest, "//"@),
        !has_sub(rest, "/*"@),
    ensures
        ({
            let line = access_kw(m) + seq![' '] + "class "@ + name + rest;
            constructs_of(seq![line]) == seq![
                ConstructInfoView {
                    docstring: None,
                    access_modifier: m,
                    construct_type: ConstructType::Class,
                    name: name,
                },
            ]
        }),
{
    reveal_strlit("public");
    reveal_strlit("private");
    reveal_strlit("protected");
    reveal_strlit("internal");
    reveal_strlit("class ");
    let line = access_kw(m) + seq![' '] + "class "@ + name + rest;
    let civ = ConstructInfoView {
        docstring: None,
        access_modifier: m,
        construct_type: ConstructType::Class,
        name: name,
    };
    let st = fresh_file_state(Seq::empty());
    assert(!st.seen.contains(name));
    lemma_qualified_class_line(st, m, name, rest);
    assert(forall|j: int| 0 <= j < line.len() ==> line[j] != '\n');
    assert(line[line.len() - 1] != '\r') by {
        if rest.len() > 0 {
            assert(line[line.len() - 1] == rest[rest.len() - 1]);
        } else {
            assert(line[line.len() - 1] == name[name.len() - 1]);
        }
    }
    lemma_single_line_file(line);
    let files = seq![line];
    let lines = seq![line];
    assert(files[0] == line);
    assert(lines_of(files[0]) == lines);
    assert(st.pending is None);
    let first = scan_line(st, line);
    assert(first.1 == Some(civ));
    let rest = scan_lines(first.0, lines, 1);
    assert(rest.1 =~= Seq::<ConstructInfoView>::empty());
    assert(scan_lines(st, lines, 0).1 == seq![civ] + rest.1);
    assert(scan_lines(st, lines, 0).1 =~= seq![civ]);
    let tail = scan_files(first.0.seen, files, 1);
    assert(tail =~= Seq::<ConstructInfoView>::empty());
    assert(scan_lines(st, lines, 0).0 == rest.0);
    assert(scan_files(Seq::empty(), files, 0) == scan_lines(st, lines, 0).1 + scan_files(
        scan_lines(st, lines, 0).0.seen,
        files,
        1,
    ));
    assert(scan_files(Seq::empty(), files, 0) =~= seq![civ]);
}

/// Whether `name` is among the class names seen so far.
fn seen_contains(seen: &Vec<String>, name: &String) -> (b: bool)
    ensures
        b == seen.deep_view().contains(name@),
{
    let mut k: usize = 0;
    while k < seen.len()
        invariant
            0 <= k <= seen.len(),
            forall|t: int| 0 <= t < k ==> seen.deep_view()[t] != name@,
        decreases seen.len() - k,
    {
        if seen[k] == *name {
            assert(seen.deep_view()[k as int] == name@);
            return true;
        }
        assert(seen.deep_view()[k as int] == seen@[k as int]@);
        k += 1;
    }
    false
}

/// Matches the first construct declared on `line`, kind by kind in
/// priority order, with class-name deduplication against `seen`.
fn match_construct(line: &str, seen: &Vec<String>) -> (r: Option<(ConstructType, String)>)
    ensures
        match r {
            Some(hit) => match_step(line@, seen.deep_view()) == Some((hit.0, hit.1@)),
            None => match_step(line@, seen.deep_view()) is None,
        },
{
    proof {
        reveal_strlit("class");
        reveal_strlit("struct");
        reveal_strlit("enum");
        reveal_strlit("interface");
    }
    if let Some(name) = extract_definition(line, "class") {
        if !seen_contains(seen, &name) {
            return Some((ConstructType::Class, name));
        }
    }
    if let Some(name) = extract_definition(line, "struct") {
        return Some((ConstructType::Struct, name));
    }
    if let Some(name) = extract_definition(line, "enum") {
        return Some((ConstructType::Enum, name));
    }
    if let Some(name) = extract_definition(line, "interface") {
        return Some((ConstructType::Interface, name));
    }
    None
}

/// One exec step of the scanner on one raw line, mirroring `scan_line`.
fn scan_line_exec(
    raw: &str,
    inside: &mut bool,
    extractor: &mut DocstringExtractor,
    pending: &mut Option<String>,
    seen: &mut Vec<String>,
) -> (r: Option<ConstructInfo>)
    ensures
        ({
            let res = scan_line(
                st_of(
                    *old(inside),
                    old(extractor)@,
                    old(pending).deep_view(),
                    old(seen).deep_view(),
                ),
                raw@,
            );
            &&& *final(inside) == res.0.inside_comment
            &&& final(extractor)@ == res.0.doc
            &&& final(pending).deep_view() == res.0.pending
            &&& final(seen).deep_view() == res.0.seen
            &&& match r {
                Some(ci) => res.1 == Some(ci@),
                None => res.1 is None,
            }
        }),
{
    proof {
        reveal_strlit(" ");
    }
    let line = crate::text::trim_exec(raw);
    let ev = extractor.extract_docstring(line);
    if let Some(d) = ev {
        let prev = pending.take();
        match prev {
            Some(mut existing) => {
                existing.append(" ");
                existing.append(d.as_str());
                assert(existing@ =~= old(pending).deep_view().unwrap() + seq![' '] + d@);
                *pending = Some(existing);
            },
            None => {
                *pending = Some(d);
            },
        }
    }
    if skip_due_to_comment(line, inside) {
        return None;
    }
    let am = extract_access_modifier(line);
    match match_construct(line, seen) {
        None => None,
        Some(hit) => {
            let (kind, name) = hit;
            if kind == ConstructType::Class {
                seen.push(name.clone());
                assert(seen.deep_view() =~= old(seen).deep_view().push(name@));
            }
            let doc = pending.take();
            Some(
                ConstructInfo {
                    docstring: doc,
                    access_modifier: am,
                    construct_type: kind,
                    name: name,
                },
            )
        },
    }
}

/// Scans the given file contents, in order, and returns every extracted
/// construct in first-encounter order; a class name extracted once is
/// never extracted again, in any later file.
pub fn parse_cs_files(files: Vec<String>) -> (r: Vec<ConstructInfo>)
    ensures
        r.deep_view() == constructs_of(files.deep_view()),
{
    let mut constructs: Vec<ConstructInfo> = Vec::new();
    let mut seen: Vec<String> = Vec::new();
    assert(constructs.deep_view() =~= Seq::<ConstructInfoView>::empty());
    assert(seen.deep_view() =~= Seq::<Seq<char>>::empty());
    assert(constructs.deep_view() + scan_files(seen.deep_view(), files.deep_view(), 0)
        =~= constructs_of(files.deep_view()));
    let mut fi: usize = 0;
    while fi < files.len()
        invariant
            0 <= fi <= files.len(),
            constructs_of(files.deep_view()) == constructs.deep_view() + scan_files(
                seen.deep_view(),
                files.deep_view(),
                fi as int,
            ),
        decreases files.len() - fi,
    {
        let ghost seen0 = seen.deep_view();
        let ghost filesv = files.deep_view();
        let lines = crate::text::split_lines(files[fi].as_str());
        assert(filesv[fi as int] == files@[fi as int]@);
        assert(lines.deep_view() == lines_of(filesv[fi as int]));
        let ghost linesv = lines.deep_view();
        let mut inside = false;
        let mut extractor = DocstringExtractor::new();
        let mut pending: Option<String> = None;
        let mut li: usize = 0;
        while li < lines.len()
            invariant
                0 <= li <= lines.len(),
                linesv == lines.deep_view(),
                constructs_of(filesv) == constructs.deep_view() + scan_lines(
                    st_of(inside, extractor@, pending.deep_view(), seen.deep_view()),
                    linesv,
                    li as int,
                ).1 + scan_files(
                    scan_lines(
                        st_of(inside, extractor@, pending.deep_view(), seen.deep_view()),
                        linesv,
                        li as int,
                    ).0.seen,
                    filesv,
                    fi + 1,
                ),
            decreases lines.len() - li,
        {
            let ghost cur = st_of(inside, extractor@, pending.deep_view(), seen.deep_view());
            let ghost cs0 = constructs.deep_view();
            assert(linesv[li as int] == lines@[li as int]@);
            let item = scan_line_exec(
                lines[li].as_str(),
                &mut inside,
                &mut extractor,
                &mut pending,
                &mut seen,
            );
            proof {
                let r0 = scan_line(cur, linesv[li as int]);
                let rest = scan_lines(r0.0, linesv, li + 1);
                assert(scan_lines(cur, linesv, li as int) == (
                    rest.0,
                    match r0.1 {
                        None => rest.1,
                        Some(c) => seq![c] + rest.1,
                    },
                ));
                assert(st_of(inside, extractor@, pending.deep_view(), seen.deep_view()) == r0.0);
            }
            if let Some(ci) = item {
                constructs.push(ci);
                proof {
                    let r0 = scan_line(cur, linesv[li as int]);
                    let rest = scan_lines(r0.0, linesv, li + 1);
                    assert(constructs.deep_view() =~= cs0.push(ci@));
                    assert(cs0 + (seq![ci@] + rest.1) =~= cs0.push(ci@) + rest.1);
                }
            }
            li += 1;
        }
        assert(scan_lines(
            st_of(inside, extractor@, pending.deep_view(), seen.deep_view()),
            linesv,
            li as int,
        ).1 =~= Seq::<ConstructInfoView>::empty());
        fi += 1;
    }
    assert(scan_files(seen.deep_view(), files.deep_view(), fi as int)
        =~= Seq::<ConstructInfoView>::empty());
    assert(constructs.deep_view() =~= constructs_of(files.deep_view()));
    constructs
}

} // verus!
