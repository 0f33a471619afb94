//! The template projection engine: expands each template line that holds a
//! construct-kind placeholder into one line per extracted construct of
//! that kind, substituting name and summary tokens, and passes every
//! other line through unchanged.
use vstd::prelude::*;
use vstd::string::*;

use crate::parser::ConstructInfo;
use crate::parser::ConstructInfoView;
use crate::parser::ConstructType;
use crate::text::find_char;
use crate::text::find_char_at;
use crate::text::has_sub;
use crate::text::has_sub_exec;
use crate::text::lemma_find_char_props;
use crate::text::lines_of;
use crate::text::replace_all;
use crate::text::replace_all_exec;
use crate::text::split_lines;

verus! {

/// The tight spelling of a kind's template placeholder, e.g. `{{class}}`.
pub open spec fn ph_tight(k: ConstructType) -> Seq<char> {
    match k {
        ConstructType::Class => "{{class}}"@,
        ConstructType::Struct => "{{struct}}"@,
        ConstructType::Enum => "{{enum}}"@,
        ConstructType::Interface => "{{interface}}"@,
    }
}

/// The space-padded spelling of a kind's placeholder, e.g. `{{ class }}`.
pub open spec fn ph_spaced(k: ConstructType) -> Seq<char> {
    match k {
        ConstructType::Class => "{{ class }}"@,
        ConstructType::Struct => "{{ struct }}"@,
        ConstructType::Enum => "{{ enum }}"@,
        ConstructType::Interface => "{{ interface }}"@,
    }
}

/// A line holds kind `k`'s placeholder, in either spelling.
pub open spec fn has_placeholder(line: Seq<char>, k: ConstructType) -> bool {
    has_sub(line, ph_tight(k)) || has_sub(line, ph_spaced(k))
}

/// The first kind, in matching priority order, whose placeholder the line
/// holds; only that kind's placeholder is honored on the line.
pub open spec fn first_ph_kind(line: Seq<char>) -> Option<ConstructType> {
    if has_placeholder(line, ConstructType::Class) {
        Some(ConstructType::Class)
    } else if has_placeholder(line, ConstructType::Struct) {
        Some(ConstructType::Struct)
    } else if has_placeholder(line, ConstructType::Enum) {
        Some(ConstructType::Enum)
    } else if has_placeholder(line, ConstructType::Interface) {
        Some(ConstructType::Interface)
    } else {
        None
    }
}

/// `s` up to, and excluding, its first period.
pub open spec fn until_dot(s: Seq<char>) -> Seq<char> {
    s.subrange(0, find_char_at(s, '.', 0))
}

/// What the full-summary token is replaced with: the construct's summary,
/// or the token itself when there is none.
pub open spec fn sum_source(c: ConstructInfoView) -> Seq<char> {
    match c.docstring {
        Some(d) => d,
        None => "[summary]"@,
    }
}

/// What feeds the one-sentence-summary token: the construct's summary, or
/// the token itself when there is none.
pub open spec fn oss_source(c: ConstructInfoView) -> Seq<char> {
    match c.docstring {
        Some(d) => d,
        None => "[one_sentence_summary]"@,
    }
}

/// One output line for construct `c` on a placeholder line of kind `k`:
/// both placeholder spellings become the name, the full-summary token the
/// summary, the one-sentence token the summary up to its first period.
pub open spec fn expanded_one(line: Seq<char>, k: ConstructType, c: ConstructInfoView) -> Seq<
    char,
> {
    let named = replace_all(replace_all(line, ph_tight(k), c.name), ph_spaced(k), c.name);
    let summed = replace_all(named, "[summary]"@, sum_source(c));
    replace_all(summed, "[one_sentence_summary]"@, until_dot(oss_source(c))) + seq!['\n']
}

/// The output of one placeholder line of kind `k`: one line per construct
/// in `g`, from index `i` on; a kind with no constructs yields nothing.
pub open spec fn expand_group(
    line: Seq<char>,
    k: ConstructType,
    g: Seq<ConstructInfoView>,
    i: int,
) -> Seq<char>
    decreases g.len() - i when 0 <= i <= g.len()
{
    if i >= g.len() {
        Seq::empty()
    } else {
        expanded_one(line, k, g[i]) + expand_group(line, k, g, i + 1)
    }
}

/// The constructs of each kind, grouped; grouping keeps first-encounter
/// order within each kind.
pub struct ConstructMapView {
    pub classes: Seq<ConstructInfoView>,
    pub structs: Seq<ConstructInfoView>,
    pub enums: Seq<ConstructInfoView>,
    pub interfaces: Seq<ConstructInfoView>,
}

/// The group of kind `k` in `m`.
pub open spec fn group(m: ConstructMapView, k: ConstructType) -> Seq<ConstructInfoView> {
    match k {
        ConstructType::Class => m.classes,
        ConstructType::Struct => m.structs,
        ConstructType::Enum => m.enums,
        ConstructType::Interface => m.interfaces,
    }
}

/// The output of one template line: a placeholder line expands to one
/// line per construct of its kind, any other line passes through.
pub open spec fn projected_line(line: Seq<char>, m: ConstructMapView) -> Seq<char> {
    match first_ph_kind(line) {
        None => line + seq!['\n'],
        Some(k) => expand_group(line, k, group(m, k), 0),
    }
}

/// The concatenated output of the template lines from index `i` on.
pub open spec fn project_lines(ls: Seq<Seq<char>>, m: ConstructMapView, i: int) -> Seq<char>
    decreases ls.len() - i when 0 <= i <= ls.len()
{
    if i >= ls.len() {
        Seq::empty()
    } else {
        projected_line(ls[i], m) + project_lines(ls, m, i + 1)
    }
}

/// The whole projected document for a template and grouped constructs.
pub open spec fn projected(tpl: Seq<char>, m: ConstructMapView) -> Seq<char> {
    project_lines(lines_of(tpl), m, 0)
}

/// The subsequence of `cs` whose kind is `k`, in order.
pub open spec fn group_of(cs: Seq<ConstructInfoView>, k: ConstructType) -> Seq<ConstructInfoView>
    decreases cs.len()
{
    if cs.len() == 0 {
        Seq::empty()
    } else {
        let pre = group_of(cs.drop_last(), k);
        if cs.last().construct_type == k {
            pre.push(cs.last())
        } else {
            pre
        }
    }
}

/// The grouping of `cs` by kind.
pub open spec fn grouped(cs: Seq<ConstructInfoView>) -> ConstructMapView {
    ConstructMapView {
        classes: group_of(cs, ConstructType::Class),
        structs: group_of(cs, ConstructType::Struct),
        enums: group_of(cs, ConstructType::Enum),
        interfaces: group_of(cs, ConstructType::Interface),
    }
}

/// The extracted constructs grouped by kind, each group in
/// first-encounter order.
pub struct ConstructMap {
    classes: Vec<ConstructInfo>,
    structs: Vec<ConstructInfo>,
    enums: Vec<ConstructInfo>,
    interfaces: Vec<ConstructInfo>,
}

impl View for ConstructMap {
    type V = ConstructMapView;

    closed spec fn view(&self) -> ConstructMapView {
        ConstructMapView {
            classes: self.classes.deep_view(),
            structs: self.structs.deep_view(),
            enums: self.enums.deep_view(),
            interfaces: self.interfaces.deep_view(),
        }
    }
}

/// Groups the constructs by kind, keeping encounter order within each
/// kind's group.
pub fn categorize_constructs(constructs: Vec<ConstructInfo>) -> (m: ConstructMap)
    ensures
        m@ == grouped(constructs.deep_view()),
{
    let mut classes: Vec<ConstructInfo> = Vec::new();
    let mut structs: Vec<ConstructInfo> = Vec::new();
    let mut enums: Vec<ConstructInfo> = Vec::new();
    let mut interfaces: Vec<ConstructInfo> = Vec::new();
    let ghost csv = constructs.deep_view();
    let n = constructs.len();
    assert(csv.take(0) =~= Seq::<ConstructInfoView>::empty());
    assert(classes.deep_view() =~= group_of(csv.take(0), ConstructType::Class));
    assert(structs.deep_view() =~= group_of(csv.take(0), ConstructType::Struct));
    assert(enums.deep_view() =~= group_of(csv.take(0), ConstructType::Enum));
    assert(interfaces.deep_view() =~= group_of(csv.take(0), ConstructType::Interface));
    let mut i: usize = 0;
    while i < n
        invariant
            0 <= i <= n,
            n == constructs.len(),
            csv == constructs.deep_view(),
            classes.deep_view() == group_of(csv.take(i as int), ConstructType::Class),
            structs.deep_view() == group_of(csv.take(i as int), ConstructType::Struct),
            enums.deep_view() == group_of(csv.take(i as int), ConstructType::Enum),
            interfaces.deep_view() == group_of(csv.take(i as int), ConstructType::Interface),
        decreases n - i,
    {
        let c = constructs[i].clone();
        proof {
            assert(csv.take(i + 1).drop_last() =~= csv.take(i as int));
            assert(csv.take(i + 1).last() == csv[i as int]);
        }
        let ghost cl0 = classes.deep_view();
        let ghost st0 = structs.deep_view();
        let ghost en0 = enums.deep_view();
        let ghost in0 = interfaces.deep_view();
        match c.construct_type {
            ConstructType::Class => {
                classes.push(c);
                assert(classes.deep_view() =~= cl0.push(csv[i as int]));
            },
            ConstructType::Struct => {
                structs.push(c);
                assert(structs.deep_view() =~= st0.push(csv[i as int]));
            },
            ConstructType::Enum => {
                enums.push(c);
                assert(enums.deep_view() =~= en0.push(csv[i as int]));
            },
            ConstructType::Interface => {
                interfaces.push(c);
                assert(interfaces.deep_view() =~= in0.push(csv[i as int]));
            },
        }
        i += 1;
    }
    assert(csv.take(n as int) =~= csv);
    ConstructMap { classes, structs, enums, interfaces }
}

/// `s` up to, and excluding, its first period; all of `s` when it has
/// none.
pub fn substring_until_dot<'a>(s: &'a str) -> (r: &'a str)
    ensures
        r@ == until_dot(s@),
{
    let e = find_char(s, '.', 0);
    proof {
        lemma_find_char_props(s@, '.', 0);
    }
    s.substring_char(0, e)
}

/// The tight spelling of kind `k`'s placeholder.
fn tight_str(k: ConstructType) -> (r: &'static str)
    ensures
        r@ == ph_tight(k),
{
    match k {
        ConstructType::Class => "{{class}}",
        ConstructType::Struct => "{{struct}}",
        ConstructType::Enum => "{{enum}}",
        ConstructType::Interface => "{{interface}}",
    }
}

/// The space-padded spelling of kind `k`'s placeholder.
fn spaced_str(k: ConstructType) -> (r: &'static str)
    ensures
        r@ == ph_spaced(k),
{
    match k {
        ConstructType::Class => "{{ class }}",
        ConstructType::Struct => "{{ struct }}",
        ConstructType::Enum => "{{ enum }}",
        ConstructType::Interface => "{{ interface }}",
    }
}

/// Appends to `out` one expanded line per construct in `g`, for a
/// placeholder line of kind `k`.
fn expand_group_exec(out: &mut String, line: &str, k: ConstructType, g: &Vec<ConstructInfo>)
    ensures
        final(out)@ == old(out)@ + expand_group(line@, k, g.deep_view(), 0),
{
    proof {
        reveal_strlit("{{class}}");
        reveal_strlit("{{struct}}");
        reveal_strlit("{{enum}}");
        reveal_strlit("{{interface}}");
        reveal_strlit("{{ class }}");
        reveal_strlit("{{ struct }}");
        reveal_strlit("{{ enum }}");
        reveal_strlit("{{ interface }}");
        reveal_strlit("[summary]");
        reveal_strlit("[one_sentence_summary]");
        reveal_strlit("\n");
    }
    let ghost out0 = out@;
    let ghost gv = g.deep_view();
    let tight = tight_str(k);
    let spaced = spaced_str(k);
    let mut j: usize = 0;
    while j < g.len()
        invariant
            0 <= j <= g.len(),
            gv == g.deep_view(),
            tight@ == ph_tight(k),
            spaced@ == ph_spaced(k),
            tight@.len() >= 1,
            spaced@.len() >= 1,
            out@ + expand_group(line@, k, gv, j as int) == out0 + expand_group(line@, k, gv, 0),
        decreases g.len() - j,
    {
        proof {
            reveal_strlit("[summary]");
            reveal_strlit("[one_sentence_summary]");
            reveal_strlit("\n");
        }
        let c = &g[j];
        assert(c@ == gv[j as int]);
        let named1 = replace_all_exec(line, tight, c.name.as_str());
        let named = replace_all_exec(named1.as_str(), spaced, c.name.as_str());
        let summed = match &c.docstring {
            Some(d) => replace_all_exec(named.as_str(), "[summary]", d.as_str()),
            None => replace_all_exec(named.as_str(), "[summary]", "[summary]"),
        };
        let oss = match &c.docstring {
            Some(d) => substring_until_dot(d.as_str()),
            None => substring_until_dot("[one_sentence_summary]"),
        };
        let done = replace_all_exec(summed.as_str(), "[one_sentence_summary]", oss);
        out.append(done.as_str());
        out.append("\n");
        proof {
            assert(done@ + "\n"@ =~= expanded_one(line@, k, gv[j as int]));
            assert(expand_group(line@, k, gv, j as int) == expanded_one(line@, k, gv[j as int])
                + expand_group(line@, k, gv, j + 1));
            assert(out@ + expand_group(line@, k, gv, j + 1) =~= out0 + expand_group(
                line@,
                k,
                gv,
                0,
            ));
        }
        j += 1;
    }
    assert(out@ =~= out0 + expand_group(line@, k, gv, 0));
}

/// Expands the template: every line holding a construct-kind placeholder
/// becomes one line per construct of that kind, with the name and
/// summary tokens substituted; a placeholder line of a kind with no
/// constructs yields nothing; every other line passes through unchanged.
pub fn expand_template(template: &str, construct_map: &ConstructMap) -> (r: String)
    ensures
        r@ == projected(template@, construct_map@),
{
    proof {
        reveal_strlit("{{class}}");
        reveal_strlit("{{struct}}");
        reveal_strlit("{{enum}}");
        reveal_strlit("{{interface}}");
        reveal_strlit("{{ class }}");
        reveal_strlit("{{ struct }}");
        reveal_strlit("{{ enum }}");
        reveal_strlit("{{ interface }}");
        reveal_strlit("\n");
    }
    let lines = split_lines(template);
    let ghost lsv = lines.deep_view();
    let ghost mv = construct_map@;
    let mut out = String::new();
    assert(out@ + project_lines(lsv, mv, 0) =~= projected(template@, mv));
    let mut i: usize = 0;
    while i < lines.len()
        invariant
            0 <= i <= lines.len(),
            lsv == lines.deep_view(),
            mv == construct_map@,
            lsv == lines_of(template@),
            out@ + project_lines(lsv, mv, i as int) == projected(template@, mv),
        decreases lines.len() - i,
    {
        proof {
            reveal_strlit("{{class}}");
            reveal_strlit("{{struct}}");
            reveal_strlit("{{enum}}");
            reveal_strlit("{{interface}}");
            reveal_strlit("{{ class }}");
            reveal_strlit("{{ struct }}");
            reveal_strlit("{{ enum }}");
            reveal_strlit("{{ interface }}");
            reveal_strlit("\n");
        }
        let line = lines[i].as_str();
        assert(line@ == lsv[i as int]);
        if has_sub_exec(line, "{{class}}") || has_sub_exec(line, "{{ class }}") {
            expand_group_exec(&mut out, line, ConstructType::Class, &construct_map.classes);
        } else if has_sub_exec(line, "{{struct}}") || has_sub_exec(line, "{{ struct }}") {
            expand_group_exec(&mut out, line, ConstructType::Struct, &construct_map.structs);
        } else if has_sub_exec(line, "{{enum}}") || has_sub_exec(line, "{{ enum }}") {
            expand_group_exec(&mut out, line, ConstructType::Enum, &construct_map.enums);
        } else if has_sub_exec(line, "{{interface}}") || has_sub_exec(line, "{{ interface }}") {
            expand_group_exec(&mut out, line, ConstructType::Interface, &construct_map.interfaces);
        } else {
            let ghost o0 = out@;
            out.append(line);
            out.append("\n");
            proof {
                assert(first_ph_kind(lsv[i as int]) is None);
                assert(out@ =~= o0 + projected_line(lsv[i as int], mv));
            }
        }
        proof {
            assert(project_lines(lsv, mv, i as int) == projected_line(lsv[i as int], mv)
                + project_lines(lsv, mv, i + 1));
            assert(out@ + project_lines(lsv, mv, i + 1) =~= projected(template@, mv));
        }
        i += 1;
    }
    assert(project_lines(lsv, mv, i as int) =~= Seq::<char>::empty());
    assert(out@ =~= projected(template@, mv));
    out
}

/// The whole projected document for a template and an (ungrouped) list
/// of constructs.
pub open spec fn rendered(cs: Seq<ConstructInfoView>, tpl: Seq<char>) -> Seq<char> {
    projected(tpl, grouped(cs))
}

/// Groups the constructs and expands the template with them: the compute
/// half of documentation generation.
pub fn render_documentation(constructs: Vec<ConstructInfo>, template: &str) -> (r: String)
    ensures
        r@ == rendered(constructs.deep_view(), template@),
{
    let construct_map = categorize_constructs(constructs);
    expand_template(template, &construct_map)
}

/// The lines from index `i` on, each followed by one newline.
pub open spec fn joined_lines(ls: Seq<Seq<char>>, i: int) -> Seq<char>
    decreases ls.len() - i when 0 <= i <= ls.len()
{
    if i >= ls.len() {
        Seq::empty()
    } else {
        ls[i] + seq!['\n'] + joined_lines(ls, i + 1)
    }
}

proof fn lemma_project_lines_identity(ls: Seq<Seq<char>>, m: ConstructMapView, i: int)
    requires
        0 <= i <= ls.len(),
        forall|j: int| 0 <= j < ls.len() ==> first_ph_kind(#[trigger] ls[j]) is None,
    ensures
        project_lines(ls, m, i) == joined_lines(ls, i),
    decreases ls.len() - i,
{
    if i < ls.len() {
        assert(first_ph_kind(ls[i]) is None);
        lemma_project_lines_identity(ls, m, i + 1);
        assert(projected_line(ls[i], m) == ls[i] + seq!['\n']);
        assert(project_lines(ls, m, i) =~= joined_lines(ls, i));
    }
}

/// Law: projection is the identity on a template without placeholders.
/// When no line of the template holds any kind's placeholder, the output
/// is the template unchanged but for line-ending normalization: each of
/// its lines followed by exactly one newline, whatever constructs were
/// extracted.
pub proof fn lemma_projection_identity(tpl: Seq<char>, m: ConstructMapView)
    requires
        forall|j: int|
            0 <= j < lines_of(tpl).len() ==> first_ph_kind(#[trigger] lines_of(tpl)[j]) is None,
    ensures
        projected(tpl, m) == joined_lines(lines_of(tpl), 0),
{
    lemma_project_lines_identity(lines_of(tpl), m, 0);
}

/// Law: a placeholder line of a kind with no extracted constructs
/// produces no output at all.
pub proof fn lemma_empty_kind_line(line: Seq<char>, m: ConstructMapView, k: ConstructType)
    requires
        first_ph_kind(line) == Some(k),
        group(m, k).len() == 0,
    ensures
        projected_line(line, m) == Seq::<char>::empty(),
{
}

} // verus!
