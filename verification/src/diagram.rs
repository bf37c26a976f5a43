//! Diagrams: the text-level pieces of importing drawio files (style strings,
//! shape kinds, colors, labels, element ids) and the default element style.
use vstd::prelude::*;

use crate::code_edit::fence::{copy_range, trim, trimmed};
use crate::number::{decimal, decimal_digits};
use crate::resource::first_index;
use crate::text::{chars_of, lowercase_equals, lowercase_is, push_char, string_of, to_owned};

verus! {

broadcast use vstd::string::group_string_axioms;

// ─── Element style defaults ────────────────────────────────────────────────

/// The default stroke color of an element.
pub fn default_stroke_color() -> (r: String)
    ensures
        r@ == "#1e1e1e"@,
{
    to_owned("#1e1e1e")
}

/// The default background color of an element.
pub fn default_background_color() -> (r: String)
    ensures
        r@ == "transparent"@,
{
    to_owned("transparent")
}

/// The default fill style of an element.
pub fn default_fill_style() -> (r: String)
    ensures
        r@ == "solid"@,
{
    to_owned("solid")
}

/// The default stroke style of an element.
pub fn default_stroke_style() -> (r: String)
    ensures
        r@ == "solid"@,
{
    to_owned("solid")
}

// ─── Element ids ───────────────────────────────────────────────────────────

/// The id of the `n`-th imported element.
pub open spec fn element_id(n: nat) -> Seq<char> {
    seq!['d', 'i', 'o', '-'] + decimal(n)
}

/// Advances the counter and names the next imported element after it.
pub fn eid(counter: &mut usize) -> (r: String)
    requires
        *old(counter) < usize::MAX,
    ensures
        *final(counter) == *old(counter) + 1,
        r@ == element_id(*final(counter) as nat),
{
    *counter = *counter + 1;
    let digits = decimal_digits(*counter);
    let mut r = to_owned("dio-");
    proof {
        reveal_strlit("dio-");
        assert("dio-"@ =~= seq!['d', 'i', 'o', '-']);
    }
    let mut i: usize = 0;
    while i < digits.len()
        invariant
            i <= digits@.len(),
            r@ == seq!['d', 'i', 'o', '-'] + digits@.take(i as int),
        decreases digits@.len() - i,
    {
        push_char(&mut r, digits[i]);
        i = i + 1;
        assert(r@ =~= seq!['d', 'i', 'o', '-'] + digits@.take(i as int));
    }
    assert(digits@.take(digits@.len() as int) =~= digits@);
    r
}

// ─── Style strings ─────────────────────────────────────────────────────────

/// A drawio style: settings by name. Later settings of a name override
/// earlier ones.
pub struct StyleMap {
    pub entries: Vec<(String, String)>,
}

/// The settings as character sequences.
pub open spec fn style_pairs(e: Seq<(String, String)>) -> Seq<(Seq<char>, Seq<char>)> {
    e.map_values(|p: (String, String)| (p.0@, p.1@))
}

/// The map that setting the pairs in order gives.
pub open spec fn pairs_map(s: Seq<(Seq<char>, Seq<char>)>) -> Map<Seq<char>, Seq<char>>
    decreases s.len(),
{
    if s.len() == 0 {
        Map::empty()
    } else {
        pairs_map(s.drop_last()).insert(s.last().0, s.last().1)
    }
}

impl View for StyleMap {
    type V = Map<Seq<char>, Seq<char>>;

    open spec fn view(&self) -> Map<Seq<char>, Seq<char>> {
        pairs_map(style_pairs(self.entries@))
    }
}

/// Pairs after position `i` that do not set `k` leave its setting as it
/// was after the first `i` pairs.
proof fn lemma_pairs_map_tail(s: Seq<(Seq<char>, Seq<char>)>, i: int, k: Seq<char>)
    requires
        0 <= i <= s.len(),
        forall|j: int| i <= j < s.len() ==> s[j].0 != k,
    ensures
        pairs_map(s).contains_key(k) == pairs_map(s.take(i)).contains_key(k),
        pairs_map(s).contains_key(k) ==> pairs_map(s)[k] == pairs_map(s.take(i))[k],
    decreases s.len() - i,
{
    if i < s.len() {
        lemma_pairs_map_tail(s.drop_last(), i, k);
        assert(s.drop_last().take(i) =~= s.take(i));
    } else {
        assert(s.take(i) =~= s);
    }
}

impl StyleMap {
    /// An empty style.
    pub fn new() -> (r: Self)
        ensures
            r@ == Map::<Seq<char>, Seq<char>>::empty(),
    {
        StyleMap { entries: Vec::new() }
    }

    /// Sets `k` to `v`.
    pub fn insert(&mut self, k: String, v: String)
        ensures
            final(self)@ == old(self)@.insert(k@, v@),
    {
        let ghost before = self.entries@;
        self.entries.push((k, v));
        assert(style_pairs(self.entries@).drop_last() =~= style_pairs(before));
    }

    /// The index of the last pair that sets `k`.
    fn last_index(&self, k: &str) -> (r: Option<usize>)
        ensures
            match r {
                Some(j) => j < self.entries@.len() && self@.contains_key(k@) && self@[k@]
                    == self.entries@[j as int].1@,
                None => !self@.contains_key(k@),
            },
    {
        let ghost s = style_pairs(self.entries@);
        let mut i = self.entries.len();
        while i > 0
            invariant
                i <= self.entries@.len(),
                s == style_pairs(self.entries@),
                forall|j: int| i <= j < s.len() ==> s[j].0 != k@,
            decreases i,
        {
            if crate::text::str_eq(self.entries[i - 1].0.as_str(), k) {
                proof {
                    lemma_pairs_map_tail(s, i as int, k@);
                    assert(s.take(i as int).drop_last() =~= s.take(i - 1));
                }
                return Some(i - 1);
            }
            i = i - 1;
        }
        proof {
            lemma_pairs_map_tail(s, 0, k@);
            assert(s.take(0) =~= Seq::<(Seq<char>, Seq<char>)>::empty());
        }
        None
    }

    /// Whether the style sets `k`.
    pub fn contains_key(&self, k: &str) -> (r: bool)
        ensures
            r == self@.contains_key(k@),
    {
        self.last_index(k).is_some()
    }

    /// What the style sets `k` to.
    pub fn get(&self, k: &str) -> (r: Option<&String>)
        ensures
            match r {
                Some(v) => self@.contains_key(k@) && self@[k@] == v@,
                None => !self@.contains_key(k@),
            },
    {
        match self.last_index(k) {
            Some(j) => Some(&self.entries[j].1),
            None => None,
        }
    }
}

/// One `;`-separated part of a style, already trimmed, added to the
/// settings: `k=v` sets `k` to `v` (split at the first `=`), a bare flag is
/// set to "true", an empty part adds nothing.
pub open spec fn add_part(m: Map<Seq<char>, Seq<char>>, p: Seq<char>) -> Map<Seq<char>, Seq<char>> {
    if p.len() == 0 {
        m
    } else {
        let e = first_index(p, '=', 0);
        if e < 0 {
            m.insert(p, "true"@)
        } else {
            m.insert(p.take(e), p.skip(e + 1))
        }
    }
}

pub proof fn lemma_first_index(s: Seq<char>, c: char, i: int)
    requires
        0 <= i,
    ensures
        first_index(s, c, i) == -1 || (i <= first_index(s, c, i) < s.len() && s[first_index(
            s,
            c,
            i,
        )] == c),
        forall|j: int| i <= j < (if first_index(s, c, i) < 0 {
            s.len() as int
        } else {
            first_index(s, c, i)
        }) ==> s[j] != c,
    decreases s.len() - i,
{
    if i < s.len() && s[i] != c {
        lemma_first_index(s, c, i + 1);
    }
}

/// The settings of the parts of `s` from character `pos` on, added to `m`.
pub open spec fn style_from(s: Seq<char>, pos: int, m: Map<Seq<char>, Seq<char>>) -> Map<
    Seq<char>,
    Seq<char>,
>
    decreases s.len() - pos,
{
    if pos < 0 || pos > s.len() {
        m
    } else {
        let i = first_index(s, ';', pos);
        let end = if i < 0 {
            s.len() as int
        } else {
            i
        };
        let m2 = add_part(m, trim(s.subrange(pos, end)));
        if i < 0 {
            m2
        } else {
            proof {
                lemma_first_index(s, ';', pos);
            }
            style_from(s, i + 1, m2)
        }
    }
}

/// The settings a drawio style string `"k=v;flag;k2=v2"` makes.
pub open spec fn parse_style_spec(style: Seq<char>) -> Map<Seq<char>, Seq<char>> {
    style_from(style, 0, Map::empty())
}

/// The index of the first `c` in `s` at or after `from`, if any.
fn find_from(s: &Vec<char>, from: usize, c: char) -> (r: Option<usize>)
    requires
        from <= s@.len(),
    ensures
        match r {
            Some(i) => first_index(s@, c, from as int) == i as int && i < s@.len(),
            None => first_index(s@, c, from as int) == -1,
        },
{
    let mut i = from;
    while i < s.len()
        invariant
            from <= i <= s@.len(),
            first_index(s@, c, i as int) == first_index(s@, c, from as int),
        decreases s@.len() - i,
    {
        if s[i] == c {
            return Some(i);
        }
        i = i + 1;
    }
    None
}

/// Split a drawio style string `"k=v;flag;k2=v2"` into its settings; flags
/// are set to "true".
pub fn parse_style(style: &str) -> (r: StyleMap)
    ensures
        r@ == parse_style_spec(style@),
{
    let cs = chars_of(style);
    let mut map = StyleMap::new();
    let mut pos: usize = 0;
    proof {
        reveal_strlit("true");
    }
    loop
        invariant
            cs@ == style@,
            pos <= cs@.len(),
            style_from(cs@, pos as int, map@) == parse_style_spec(style@),
        decreases cs@.len() - pos,
    {
        let found = find_from(&cs, pos, ';');
        let end = match found {
            Some(i) => i,
            None => cs.len(),
        };
        proof {
            lemma_first_index(cs@, ';', pos as int);
        }
        let raw = copy_range(&cs, pos, end);
        let part = trimmed(&raw);
        if part.len() > 0 {
            match find_from(&part, 0, '=') {
                Some(e) => {
                    let k = copy_range(&part, 0, e);
                    let v = copy_range(&part, e + 1, part.len());
                    assert(k@ =~= part@.take(e as int));
                    assert(v@ =~= part@.skip(e + 1));
                    map.insert(string_of(&k), string_of(&v));
                },
                None => {
                    map.insert(string_of(&part), to_owned("true"));
                },
            }
        }
        match found {
            Some(i) => {
                pos = i + 1;
            },
            None => {
                return map;
            },
        }
    }
}

/// The kind of shape a style draws.
pub open spec fn shape_spec(style: Map<Seq<char>, Seq<char>>) -> Seq<char> {
    if style.contains_key("ellipse"@) {
        "ellipse"@
    } else if style.contains_key("rhombus"@) {
        "diamond"@
    } else if style.contains_key("text"@) {
        "text"@
    } else {
        "rectangle"@
    }
}

/// The excalidraw element type for a drawio style.
pub fn shape_type(style: &StyleMap) -> (r: &'static str)
    ensures
        r@ == shape_spec(style@),
{
    if style.contains_key("ellipse") {
        "ellipse"
    } else if style.contains_key("rhombus") {
        "diamond"
    } else if style.contains_key("text") {
        "text"
    } else {
        "rectangle"
    }
}

/// A drawio color as excalidraw takes it: `none` (in any case) is
/// transparent, anything else stays.
pub open spec fn color_spec(c: Seq<char>) -> Seq<char> {
    if lowercase_is(c, seq!['n', 'o', 'n', 'e']) {
        "transparent"@
    } else {
        c
    }
}

/// drawio colors are `#rrggbb` or `none`.
pub fn map_color(c: &str) -> (r: String)
    ensures
        r@ == color_spec(c@),
{
    let cs = chars_of(c);
    proof {
        reveal_strlit("none");
        assert("none"@ =~= seq!['n', 'o', 'n', 'e']);
    }
    if lowercase_equals(&cs, "none") {
        to_owned("transparent")
    } else {
        to_owned(c)
    }
}

// ─── Labels ────────────────────────────────────────────────────────────────

/// Every occurrence of `pat` in `s`, left to right and not overlapping,
/// replaced by `rep` (`str::replace` with a non-empty pattern).
pub open spec fn replace_all(s: Seq<char>, pat: Seq<char>, rep: Seq<char>) -> Seq<char>
    decreases s.len(),
{
    if s.len() == 0 || pat.len() == 0 {
        s
    } else if s.len() >= pat.len() && s.take(pat.len() as int) == pat {
        rep + replace_all(s.skip(pat.len() as int), pat, rep)
    } else {
        seq![s[0]] + replace_all(s.skip(1), pat, rep)
    }
}

/// `s` without markup tags: characters from a `<` through the next `>` go
/// (`inside` says whether a tag is open at the start).
pub open spec fn strip_tags(s: Seq<char>, inside: bool) -> Seq<char>
    decreases s.len(),
{
    if s.len() == 0 {
        s
    } else if s[0] == '<' {
        strip_tags(s.skip(1), true)
    } else if s[0] == '>' {
        strip_tags(s.skip(1), false)
    } else if inside {
        strip_tags(s.skip(1), true)
    } else {
        seq![s[0]] + strip_tags(s.skip(1), false)
    }
}

/// Line breaks as drawio writes them in labels turned into newlines.
pub open spec fn breaks_to_newlines(v: Seq<char>) -> Seq<char> {
    replace_all(
        replace_all(replace_all(v, "<br>"@, "\n"@), "<br/>"@, "\n"@),
        "<br />"@,
        "\n"@,
    )
}

/// The common entities drawio emits, decoded (`&amp;` last).
pub open spec fn decode_entities(v: Seq<char>) -> Seq<char> {
    replace_all(
        replace_all(
            replace_all(
                replace_all(
                    replace_all(replace_all(v, "&lt;"@, "<"@), "&gt;"@, ">"@),
                    "&quot;"@,
                    "\""@,
                ),
                "&#39;"@,
                "'"@,
            ),
            "&nbsp;"@,
            " "@,
        ),
        "&amp;"@,
        "&"@,
    )
}

/// The plain text of a drawio label: line breaks kept, tags dropped,
/// entities decoded, white space trimmed.
pub open spec fn clean_spec(v: Seq<char>) -> Seq<char> {
    trim(decode_entities(strip_tags(breaks_to_newlines(v), false)))
}

/// Whether `s[i..]` begins with `pat`.
fn matches_at(s: &Vec<char>, i: usize, pat: &Vec<char>) -> (r: bool)
    requires
        i <= s@.len(),
    ensures
        r == (s@.skip(i as int).len() >= pat@.len() && s@.skip(i as int).take(pat@.len() as int)
            == pat@),
{
    let n = pat.len();
    let len = s.len();
    if len - i < n {
        return false;
    }
    let mut j: usize = 0;
    while j < n
        invariant
            n == pat@.len(),
            len == s@.len(),
            i + n <= len,
            j <= n,
            forall|k: int| 0 <= k < j ==> s@[i + k] == pat@[k],
        decreases n - j,
    {
        if s[i + j] != pat[j] {
            assert(s@.skip(i as int).take(n as int)[j as int] == s@[i + j]);
            return false;
        }
        j = j + 1;
    }
    assert(s@.skip(i as int).take(n as int) =~= pat@);
    true
}

/// Replaces every occurrence of `pat` in `s` by `rep`.
fn replace_chars(s: &Vec<char>, pat: &str, rep: &str) -> (r: Vec<char>)
    ensures
        r@ == replace_all(s@, pat@, rep@),
{
    let p = chars_of(pat);
    let rp = chars_of(rep);
    if p.len() == 0 {
        return copy_range(s, 0, s.len());
    }
    let mut out: Vec<char> = Vec::new();
    let mut i: usize = 0;
    assert(s@.skip(0) =~= s@);
    assert(out@ + replace_all(s@, pat@, rep@) =~= replace_all(s@, pat@, rep@));
    while i < s.len()
        invariant
            p@ == pat@,
            rp@ == rep@,
            p@.len() > 0,
            i <= s@.len(),
            out@ + replace_all(s@.skip(i as int), pat@, rep@) == replace_all(s@, pat@, rep@),
        decreases s@.len() - i,
    {
        let ghost rest = s@.skip(i as int);
        if matches_at(s, i, &p) {
            let mut k: usize = 0;
            let ghost before = out@;
            while k < rp.len()
                invariant
                    k <= rp@.len(),
                    out@ == before + rp@.take(k as int),
                decreases rp@.len() - k,
            {
                out.push(rp[k]);
                k = k + 1;
                assert(out@ =~= before + rp@.take(k as int));
            }
            assert(rp@.take(rp@.len() as int) =~= rp@);
            assert(rest.skip(p@.len() as int) =~= s@.skip(i + p@.len()));
            assert(out@ + replace_all(s@.skip(i + p@.len()), pat@, rep@) =~= before + replace_all(
                rest,
                pat@,
                rep@,
            ));
            i = i + p.len();
        } else {
            let ghost before = out@;
            out.push(s[i]);
            assert(rest.skip(1) =~= s@.skip(i + 1));
            assert(rest[0] == s@[i as int]);
            assert(out@ + replace_all(s@.skip(i + 1), pat@, rep@) =~= before + replace_all(
                rest,
                pat@,
                rep@,
            ));
            i = i + 1;
        }
    }
    assert(s@.skip(s@.len() as int) =~= Seq::<char>::empty());
    assert(out@ + Seq::<char>::empty() =~= out@);
    out
}

/// Drops markup tags.
fn strip_tag_chars(s: &Vec<char>) -> (r: Vec<char>)
    ensures
        r@ == strip_tags(s@, false),
{
    let mut out: Vec<char> = Vec::new();
    let mut in_tag = false;
    let mut i: usize = 0;
    assert(s@.skip(0) =~= s@);
    assert(out@ + strip_tags(s@, false) =~= strip_tags(s@, false));
    while i < s.len()
        invariant
            i <= s@.len(),
            out@ + strip_tags(s@.skip(i as int), in_tag) == strip_tags(s@, false),
        decreases s@.len() - i,
    {
        let ghost rest = s@.skip(i as int);
        let ghost before = out@;
        let ch = s[i];
        assert(rest[0] == ch);
        assert(rest.skip(1) =~= s@.skip(i + 1));
        if ch == '<' {
            in_tag = true;
        } else if ch == '>' {
            in_tag = false;
        } else if !in_tag {
            out.push(ch);
            assert(out@ + strip_tags(s@.skip(i + 1), false) =~= before + strip_tags(rest, false));
        }
        i = i + 1;
    }
    assert(s@.skip(s@.len() as int) =~= Seq::<char>::empty());
    assert(out@ + Seq::<char>::empty() =~= out@);
    out
}

/// Strip HTML markup and decode the common entities drawio emits in labels.
pub fn clean_value(value: &str) -> (r: String)
    ensures
        r@ == clean_spec(value@),
{
    let v = chars_of(value);
    let v = replace_chars(&v, "<br>", "\n");
    let v = replace_chars(&v, "<br/>", "\n");
    let v = replace_chars(&v, "<br />", "\n");
    let v = strip_tag_chars(&v);
    let v = replace_chars(&v, "&lt;", "<");
    let v = replace_chars(&v, "&gt;", ">");
    let v = replace_chars(&v, "&quot;", "\"");
    let v = replace_chars(&v, "&#39;", "'");
    let v = replace_chars(&v, "&nbsp;", " ");
    let v = replace_chars(&v, "&amp;", "&");
    let v = trimmed(&v);
    string_of(&v)
}


// ─── Which cells become elements ───────────────────────────────────────────

/// Why a drawio document gives no elements.
#[derive(Debug, PartialEq, Eq)]
pub enum DrawioError {
    /// No `mxCell`, but a `diagram` element: the cells are compressed.
    Compressed,
    /// No `mxCell` at all.
    NoCells,
    /// Cells, but none that converts.
    NothingConvertible,
}

/// The message shown for a drawio error.
pub open spec fn drawio_message(e: DrawioError) -> Seq<char> {
    match e {
        DrawioError::Compressed => "this drawio file looks compressed; export as uncompressed XML and retry"@,
        DrawioError::NoCells => "no mxCell elements found in drawio file"@,
        DrawioError::NothingConvertible => "drawio file contained no convertible shapes"@,
    }
}

impl DrawioError {
    /// The message shown for this error.
    pub fn message(&self) -> (r: &'static str)
        ensures
            r@ == drawio_message(*self),
    {
        match self {
            DrawioError::Compressed => "this drawio file looks compressed; export as uncompressed XML and retry",
            DrawioError::NoCells => "no mxCell elements found in drawio file",
            DrawioError::NothingConvertible => "drawio file contained no convertible shapes",
        }
    }
}

/// Whether a document with `cell_count` cells can be converted: not
/// without cells, and then compressed if it has a `diagram` element.
pub open spec fn cells_error_spec(cell_count: nat, has_diagram: bool) -> Option<DrawioError> {
    if cell_count > 0 {
        None
    } else if has_diagram {
        Some(DrawioError::Compressed)
    } else {
        Some(DrawioError::NoCells)
    }
}

/// The error for a document's cell list, if it has none to convert.
pub fn cells_error(cell_count: usize, has_diagram: bool) -> (r: Option<DrawioError>)
    ensures
        r == cells_error_spec(cell_count as nat, has_diagram),
{
    if cell_count > 0 {
        None
    } else if has_diagram {
        Some(DrawioError::Compressed)
    } else {
        Some(DrawioError::NoCells)
    }
}

/// What one drawio cell becomes.
pub enum CellPlan {
    /// Nothing.
    Skip,
    /// A text element with this text.
    Text(String),
    /// A shape of this kind, then a text element with its label, if any.
    Shape(&'static str, Option<String>),
    /// An arrow along the edge's points.
    Arrow,
}

/// What a cell plan holds.
pub enum CellPlanView {
    Skip,
    Text(Seq<char>),
    Shape(Seq<char>, Option<Seq<char>>),
    Arrow,
}

/// The view of a cell plan.
pub open spec fn cell_plan_view(p: CellPlan) -> CellPlanView {
    match p {
        CellPlan::Skip => CellPlanView::Skip,
        CellPlan::Text(t) => CellPlanView::Text(t@),
        CellPlan::Shape(k, None) => CellPlanView::Shape(k@, None),
        CellPlan::Shape(k, Some(l)) => CellPlanView::Shape(k@, Some(l@)),
        CellPlan::Arrow => CellPlanView::Arrow,
    }
}

/// What a cell becomes. A vertex (`vertex="1"`) with geometry becomes, by
/// its style, a text element (skipped when its cleaned value is empty) or
/// a shape with its cleaned value as label; an edge (`edge="1"`, checked
/// only when the cell is no vertex) with at least two points becomes an
/// arrow; anything else is skipped.
pub open spec fn cell_plan_spec(
    vertex: bool,
    edge: bool,
    has_geometry: bool,
    style: Seq<char>,
    value: Seq<char>,
    edge_points: nat,
) -> CellPlanView {
    if vertex {
        if !has_geometry {
            CellPlanView::Skip
        } else {
            let kind = shape_spec(parse_style_spec(style));
            let v = clean_spec(value);
            if kind == "text"@ {
                if v.len() == 0 {
                    CellPlanView::Skip
                } else {
                    CellPlanView::Text(v)
                }
            } else {
                CellPlanView::Shape(kind, if v.len() == 0 { None } else { Some(v) })
            }
        }
    } else if edge {
        if edge_points < 2 {
            CellPlanView::Skip
        } else {
            CellPlanView::Arrow
        }
    } else {
        CellPlanView::Skip
    }
}

/// What a cell becomes, from its `vertex` and `edge` flags, whether it has
/// geometry, its `style` and `value` attributes, and how many points its
/// edge has.
pub fn cell_plan(
    vertex: bool,
    edge: bool,
    has_geometry: bool,
    style: &str,
    value: &str,
    edge_points: usize,
) -> (r: CellPlan)
    ensures
        cell_plan_view(r) == cell_plan_spec(vertex, edge, has_geometry, style@, value@, edge_points as nat),
{
    if vertex {
        if !has_geometry {
            return CellPlan::Skip;
        }
        let kind = shape_type(&parse_style(style));
        let v = clean_value(value);
        let empty = v.as_str().unicode_len() == 0;
        proof {
            reveal_strlit("text");
        }
        if crate::text::str_eq(kind, "text") {
            if empty {
                CellPlan::Skip
            } else {
                CellPlan::Text(v)
            }
        } else if empty {
            CellPlan::Shape(kind, None)
        } else {
            CellPlan::Shape(kind, Some(v))
        }
    } else if edge {
        if edge_points < 2 {
            CellPlan::Skip
        } else {
            CellPlan::Arrow
        }
    } else {
        CellPlan::Skip
    }
}

} // verus!
