//! Case-insensitive filtering of the palette's node names and of the sample
//! picker's list, and the palette's hint for queries that name concepts
//! rather than nodes.

use vstd::prelude::*;

use crate::schema::{Sample, SampleId, SampleKind, SampleLibrary};
use crate::text::{chars_of, contains_seq, occurs_at, occurs_at_exec};

verus! {

/// What `str::to_lowercase` gives for `s` (Unicode lowercase mapping).
pub uninterp spec fn lowercase(s: Seq<char>) -> Seq<char>;

/// `str::to_lowercase`. Claims only that the result is the (deterministic)
/// Unicode lowercase mapping of the input, named [`lowercase`]; the mapping
/// itself is not spelled out.
#[verifier::external_body]
fn to_lower(s: &str) -> (r: String)
    ensures
        r@ == lowercase(s@),
{
    s.to_lowercase()
}

/// Whether `c` has the Unicode `White_Space` property (what
/// `char::is_whitespace` tests).
pub open spec fn is_white_space(c: char) -> bool {
    let u = c as int;
    ||| 0x9 <= u <= 0xD
    ||| u == 0x20
    ||| u == 0x85
    ||| u == 0xA0
    ||| u == 0x1680
    ||| 0x2000 <= u <= 0x200A
    ||| u == 0x2028
    ||| u == 0x2029
    ||| u == 0x202F
    ||| u == 0x205F
    ||| u == 0x3000
}

/// How many white-space characters `s` starts with.
pub open spec fn leading_white(s: Seq<char>) -> nat
    decreases s.len(),
{
    if s.len() > 0 && is_white_space(s[0]) {
        1 + leading_white(s.skip(1))
    } else {
        0
    }
}

/// How many white-space characters `s` ends with.
pub open spec fn trailing_white(s: Seq<char>) -> nat
    decreases s.len(),
{
    if s.len() > 0 && is_white_space(s.last()) {
        1 + trailing_white(s.drop_last())
    } else {
        0
    }
}

/// `s` with its leading and trailing white space removed: empty when `s` is
/// white space throughout, else the stretch from the first to the last
/// character that is not white space.
pub open spec fn trimmed(s: Seq<char>) -> Seq<char> {
    if leading_white(s) == s.len() {
        Seq::empty()
    } else {
        s.subrange(leading_white(s) as int, s.len() - trailing_white(s))
    }
}

/// `str::trim`. Its documentation: the result is the input with leading
/// and trailing white space removed, white space being the Unicode
/// `White_Space` property; that is [`trimmed`].
#[verifier::external_body]
fn trim_str(s: &str) -> (r: &str)
    ensures
        r@ == trimmed(s@),
{
    s.trim()
}

/// A query as the filters compare it: trimmed, then lowercased.
pub open spec fn normalized(query: Seq<char>) -> Seq<char> {
    lowercase(trimmed(query))
}

/// Normalize a typed query: trim it, then lowercase it.
pub fn normalize_query(query: &str) -> (r: String)
    ensures
        r@ == normalized(query@),
{
    let t = trim_str(query);
    to_lower(t)
}

/// Whether `pat` occurs in `s`.
pub fn contains_chars(s: &Vec<char>, pat: &Vec<char>) -> (r: bool)
    ensures
        r == contains_seq(s@, pat@),
{
    let n = s.len();
    let m = pat.len();
    if m > n {
        assert forall|i: int| !occurs_at(s@, pat@, i) by {}
        return false;
    }
    if m == 0 {
        assert(s@.subrange(0, 0) =~= pat@);
        assert(occurs_at(s@, pat@, 0));
        return true;
    }
    let mut i: usize = 0;
    while i <= n - m
        invariant
            n == s@.len(),
            m == pat@.len(),
            1 <= m <= n,
            0 <= i <= n - m + 1,
            forall|j: int| 0 <= j < i ==> !occurs_at(s@, pat@, j),
        decreases n - m + 1 - i,
    {
        if occurs_at_exec(s, pat, i) {
            return true;
        }
        i += 1;
    }
    assert forall|j: int| !occurs_at(s@, pat@, j) by {
        if 0 <= j < i {
        }
    }
    false
}

/// Whether `pat` occurs in `s`.
fn str_contains(s: &str, pat: &str) -> (r: bool)
    ensures
        r == contains_seq(s@, pat@),
{
    let a = chars_of(s);
    let b = chars_of(pat);
    contains_chars(&a, &b)
}

/// Whether a label passes a normalized query: every label passes the empty
/// query; otherwise the query must occur in the lowercased label.
pub open spec fn spec_label_matches(needle: Seq<char>, label: Seq<char>) -> bool {
    needle.len() == 0 || contains_seq(lowercase(label), needle)
}

/// Whether `label` passes the normalized query `needle`.
pub fn label_matches(needle: &str, label: &str) -> (r: bool)
    ensures
        r == spec_label_matches(needle@, label@),
{
    if needle.is_empty() {
        return true;
    }
    let l = to_lower(label);
    str_contains(l.as_str(), needle)
}

/// The words that mark a query as being about exposed controls,
/// modulation or automation (which are not nodes).
pub open spec fn conceptual_words() -> Seq<Seq<char>> {
    seq![
        "macro"@,
        "param"@,
        "knob"@,
        "control"@,
        "expose"@,
        "automation"@,
        "envelope"@,
        "midi"@,
        "cc"@,
        "velocity"@,
        "modulat"@,
    ]
}

/// A non-empty normalized query holding one of the conceptual words.
pub open spec fn spec_is_conceptual(needle: Seq<char>) -> bool {
    needle.len() > 0 && exists|k: int|
        0 <= k < conceptual_words().len() && contains_seq(needle, #[trigger] conceptual_words()[k])
}

/// Whether the palette should explain that the normalized query names a
/// concept (controls, modulation, automation) rather than a node.
pub fn is_conceptual_query(needle: &str) -> (r: bool)
    ensures
        r == spec_is_conceptual(needle@),
{
    if needle.is_empty() {
        return false;
    }
    let ws = conceptual_words_exec();
    let ghost words = conceptual_words();
    let n = ws.len();
    let mut i: usize = 0;
    while i < n
        invariant
            n == words.len(),
            ws@.len() == n,
            forall|k: int| 0 <= k < n ==> (#[trigger] ws@[k])@ == words[k],
            words == conceptual_words(),
            needle@.len() > 0,
            0 <= i <= n,
            forall|k: int| 0 <= k < i ==> !contains_seq(needle@, #[trigger] words[k]),
        decreases n - i,
    {
        if str_contains(needle, ws[i]) {
            assert(contains_seq(needle@, conceptual_words()[i as int]));
            return true;
        }
        i += 1;
    }
    false
}

fn conceptual_words_exec() -> (ws: Vec<&'static str>)
    ensures
        ws@.len() == conceptual_words().len(),
        forall|k: int| 0 <= k < ws@.len() ==> (#[trigger] ws@[k])@ == conceptual_words()[k],
{
    let ws = vec![
        "macro",
        "param",
        "knob",
        "control",
        "expose",
        "automation",
        "envelope",
        "midi",
        "cc",
        "velocity",
        "modulat",
    ];
    assert(ws@.len() == 11);
    ws
}

/// One row of the sample picker.
#[derive(Debug, Clone)]
pub struct SampleTab {
    pub id: SampleId,
    pub name: String,
    pub kind: SampleKind,
    pub is_root: bool,
    pub is_active: bool,
}

/// Whether `tab` is the picker's row for `s`: the same id, name and kind,
/// flagged as root exactly when `s` is the library's root and as active
/// exactly when `s` is the active sample.
pub open spec fn is_tab_of(tab: SampleTab, s: Sample, root: Option<SampleId>, active: Option<SampleId>) -> bool {
    &&& tab.id == s.id
    &&& tab.name@ == s.name@
    &&& tab.kind == s.kind
    &&& tab.is_root == (root == Some(s.id))
    &&& tab.is_active == (active == Some(s.id))
}

/// The picker's rows for every sample of `lib`, in order, flagged with the
/// root and with the active sample (`None`: no sample is active).
pub fn sample_tabs(lib: &SampleLibrary, active: Option<SampleId>) -> (r: Vec<SampleTab>)
    ensures
        r@.len() == lib.samples@.len(),
        forall|i: int| 0 <= i < r@.len() ==> is_tab_of(#[trigger] r@[i], lib.samples@[i], lib.root, active),
{
    let n = lib.samples.len();
    let mut out: Vec<SampleTab> = Vec::new();
    let mut i: usize = 0;
    while i < n
        invariant
            n == lib.samples@.len(),
            0 <= i <= n,
            out@.len() == i,
            forall|k: int| 0 <= k < i ==> is_tab_of(#[trigger] out@[k], lib.samples@[k], lib.root, active),
        decreases n - i,
    {
        let s = &lib.samples[i];
        let is_root = match lib.root {
            Some(r) => r.0 == s.id.0,
            None => false,
        };
        let is_active = match active {
            Some(a) => a.0 == s.id.0,
            None => false,
        };
        out.push(SampleTab { id: s.id, name: s.name.clone(), kind: s.kind, is_root, is_active });
        i += 1;
    }
    out
}

/// The tabs of `tabs` whose name passes `needle`, in order.
pub open spec fn spec_filter_tabs(needle: Seq<char>, tabs: Seq<SampleTab>) -> Seq<SampleTab>
    decreases tabs.len(),
{
    if tabs.len() == 0 {
        seq![]
    } else {
        spec_filter_tabs(needle, tabs.drop_last()) + if spec_label_matches(
            needle,
            tabs.last().name@,
        ) {
            seq![tabs.last()]
        } else {
            seq![]
        }
    }
}

/// The sample picker's rows for a normalized filter: the tabs whose name
/// holds the filter (all tabs for an empty filter), in order.
pub fn filter_tabs(needle: &str, tabs: Vec<SampleTab>) -> (r: Vec<SampleTab>)
    ensures
        r@ == spec_filter_tabs(needle@, tabs@),
{
    let ghost all = tabs@;
    let mut out: Vec<SampleTab> = Vec::new();
    for t in it: tabs
        invariant
            it.seq() == all,
            out@ == spec_filter_tabs(needle@, all.take(it.index() as int)),
    {
        assert(all.take(it.index() + 1).drop_last() =~= all.take(it.index() as int));
        assert(all.take(it.index() + 1).last() == t);
        if label_matches(needle, t.name.as_str()) {
            out.push(t);
        }
    }
    assert(all.take(all.len() as int) =~= all);
    out
}

/// The name the picker button shows: the first active tab's name, or a dash
/// when no tab is active.
pub open spec fn spec_active_name(tabs: Seq<SampleTab>) -> Seq<char>
    decreases tabs.len(),
{
    if tabs.len() == 0 {
        "\u{2014}"@
    } else if tabs[0].is_active {
        tabs[0].name@
    } else {
        spec_active_name(tabs.drop_first())
    }
}

/// The picker button's label: the active sample's name (a dash if none).
pub fn active_name(tabs: &Vec<SampleTab>) -> (r: String)
    ensures
        r@ == spec_active_name(tabs@),
{
    let n = tabs.len();
    let mut i: usize = 0;
    assert(tabs@.skip(0) =~= tabs@);
    while i < n
        invariant
            n == tabs@.len(),
            0 <= i <= n,
            spec_active_name(tabs@) == spec_active_name(tabs@.skip(i as int)),
        decreases n - i,
    {
        assert(tabs@.skip(i as int).drop_first() =~= tabs@.skip(i + 1));
        if tabs[i].is_active {
            return tabs[i].name.clone();
        }
        i += 1;
    }
    assert(tabs@.skip(n as int).len() == 0);
    String::from_str("\u{2014}")
}

/// Whether the picker offers deleting samples: never the last one.
pub fn can_delete(tabs: &Vec<SampleTab>) -> (r: bool)
    ensures
        r == (tabs@.len() > 1),
{
    tabs.len() > 1
}

/// A non-empty normalized query passes a label exactly when it occurs, at
/// any position, in the lowercased label; the empty query passes every
/// label.
pub proof fn lemma_label_matches_anywhere(needle: Seq<char>, label: Seq<char>)
    ensures
        needle.len() == 0 ==> spec_label_matches(needle, label),
        needle.len() > 0 ==> (spec_label_matches(needle, label) <==> exists|i: int|
            0 <= i && i + needle.len() <= lowercase(label).len() && #[trigger] lowercase(
                label,
            ).subrange(i, i + needle.len()) == needle),
{
    if needle.len() > 0 {
        let l = lowercase(label);
        if spec_label_matches(needle, label) {
            let i = choose|i: int| occurs_at(l, needle, i);
            assert(l.subrange(i, i + needle.len()) == needle);
        }
        if exists|i: int|
            0 <= i && i + needle.len() <= l.len() && #[trigger] l.subrange(i, i + needle.len())
                == needle {
            let i = choose|i: int|
                0 <= i && i + needle.len() <= l.len() && #[trigger] l.subrange(i, i + needle.len())
                    == needle;
            assert(occurs_at(l, needle, i));
        }
    }
}

/// The picker keeps exactly the tabs whose lowercased name holds the
/// normalized filter somewhere (all tabs for an empty filter), in their
/// order: a tab is kept if and only if it is one of the tabs and matches.
pub proof fn lemma_filter_tabs_members(needle: Seq<char>, tabs: Seq<SampleTab>, t: SampleTab)
    ensures
        spec_filter_tabs(needle, tabs).contains(t) <==> tabs.contains(t) && (needle.len() == 0
            || exists|i: int|
            0 <= i && i + needle.len() <= lowercase(t.name@).len() && #[trigger] lowercase(
                t.name@,
            ).subrange(i, i + needle.len()) == needle),
        spec_filter_tabs(needle, tabs).len() <= tabs.len(),
    decreases tabs.len(),
{
    lemma_label_matches_anywhere(needle, t.name@);
    if tabs.len() > 0 {
        let init = tabs.drop_last();
        let last = tabs.last();
        lemma_filter_tabs_members(needle, init, t);
        let r0 = spec_filter_tabs(needle, init);
        let r = spec_filter_tabs(needle, tabs);
        assert(tabs =~= init.push(last));
        if spec_label_matches(needle, last.name@) {
            assert(r =~= r0.push(last));
        } else {
            assert(r =~= r0);
        }
        if r.contains(t) {
            let k = choose|k: int| 0 <= k < r.len() && r[k] == t;
            if k < r0.len() {
                assert(r0[k] == t);
                let j = choose|j: int| 0 <= j < init.len() && init[j] == t;
                assert(tabs[j] == t);
            } else {
                assert(t == last);
                assert(tabs[tabs.len() - 1] == t);
            }
        }
        if tabs.contains(t) && spec_label_matches(needle, t.name@) {
            let j = choose|j: int| 0 <= j < tabs.len() && tabs[j] == t;
            if j < tabs.len() - 1 {
                assert(init[j] == t);
                let k = choose|k: int| 0 <= k < r0.len() && r0[k] == t;
                assert(r[k] == t);
            } else {
                assert(r[r.len() - 1] == t);
            }
        }
    }
}

/// Whether the lowercased `name` holds `needle` at some position (every
/// name holds the empty needle).
pub open spec fn name_holds(needle: Seq<char>, name: Seq<char>) -> bool {
    needle.len() == 0 || exists|i: int|
        0 <= i && i + needle.len() <= lowercase(name).len() && #[trigger] lowercase(name).subrange(
            i,
            i + needle.len(),
        ) == needle
}

/// The test the picker applies to a tab: its name holds `needle`.
pub open spec fn tab_holds(needle: Seq<char>) -> spec_fn(SampleTab) -> bool {
    |t: SampleTab| name_holds(needle, t.name@)
}

/// The picker's rows for a filter are the tabs whose name holds it, in
/// their original order, each kept once per occurrence.
pub proof fn lemma_filter_tabs_is_order_preserving_filter(needle: Seq<char>, tabs: Seq<SampleTab>)
    ensures
        spec_filter_tabs(needle, tabs) == tabs.filter(tab_holds(needle)),
    decreases tabs.len(),
{
    let p = tab_holds(needle);
    reveal(Seq::filter);
    if tabs.len() == 0 {
        assert(spec_filter_tabs(needle, tabs) =~= tabs.filter(p));
    } else {
        let init = tabs.drop_last();
        let last = tabs.last();
        lemma_filter_tabs_is_order_preserving_filter(needle, init);
        lemma_label_matches_anywhere(needle, last.name@);
        assert(p(last) == name_holds(needle, last.name@));
        let f0 = init.filter(p);
        assert(tabs.filter(p) == if p(last) {
            f0.push(last)
        } else {
            f0
        });
        assert(spec_filter_tabs(needle, tabs) =~= tabs.filter(p));
    }
}

/// A non-empty query naming a concept (controls, modulation, automation)
/// is recognised wherever the word stands in it: macro, param, knob,
/// control, expose, automation, envelope, midi, cc, velocity, modulat(e /
/// ion); a query holding none of these words is not conceptual.
pub proof fn lemma_conceptual_words(needle: Seq<char>)
    ensures
        spec_is_conceptual(needle) <==> needle.len() > 0 && (contains_seq(needle, "macro"@)
            || contains_seq(needle, "param"@) || contains_seq(needle, "knob"@) || contains_seq(
            needle,
            "control"@,
        ) || contains_seq(needle, "expose"@) || contains_seq(needle, "automation"@)
            || contains_seq(needle, "envelope"@) || contains_seq(needle, "midi"@) || contains_seq(
            needle,
            "cc"@,
        ) || contains_seq(needle, "velocity"@) || contains_seq(needle, "modulat"@)),
{
    let w = conceptual_words();
    if needle.len() > 0 {
        if spec_is_conceptual(needle) {
            let k = choose|k: int| 0 <= k < w.len() && contains_seq(needle, #[trigger] w[k]);
            assert(0 <= k < 11);
        }
        if contains_seq(needle, "macro"@) { assert(contains_seq(needle, w[0])); }
        if contains_seq(needle, "param"@) { assert(contains_seq(needle, w[1])); }
        if contains_seq(needle, "knob"@) { assert(contains_seq(needle, w[2])); }
        if contains_seq(needle, "control"@) { assert(contains_seq(needle, w[3])); }
        if contains_seq(needle, "expose"@) { assert(contains_seq(needle, w[4])); }
        if contains_seq(needle, "automation"@) { assert(contains_seq(needle, w[5])); }
        if contains_seq(needle, "envelope"@) { assert(contains_seq(needle, w[6])); }
        if contains_seq(needle, "midi"@) { assert(contains_seq(needle, w[7])); }
        if contains_seq(needle, "cc"@) { assert(contains_seq(needle, w[8])); }
        if contains_seq(needle, "velocity"@) { assert(contains_seq(needle, w[9])); }
        if contains_seq(needle, "modulat"@) { assert(contains_seq(needle, w[10])); }
    }
}

} // verus!
