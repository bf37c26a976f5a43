//! Key combinations and the per-mode keymap.
use vstd::prelude::*;

use crate::commands::EditorCommand;
use crate::text::{lowercase, push_char, str_eq, to_lowercase};

verus! {

/// Editor mode: determines which keybindings are active.
#[derive(Clone, Copy, Debug, PartialEq, Eq, Hash, Structural)]
pub enum EditorMode {
    /// Default editing mode.
    Insert,
    /// Vim normal mode: commands, motions, operators.
    Normal,
    /// Vim visual mode: character-wise selection.
    Visual,
    /// Vim visual line mode: line-wise selection.
    VisualLine,
    /// Vim command-line mode (entered with `:`).
    Command,
}

pub open spec fn mode_label(mode: EditorMode) -> Seq<char> {
    match mode {
        EditorMode::Insert => "INSERT"@,
        EditorMode::Normal => "NORMAL"@,
        EditorMode::Visual => "VISUAL"@,
        EditorMode::VisualLine => "V-LINE"@,
        EditorMode::Command => "COMMAND"@,
    }
}

impl EditorMode {
    /// The short name shown in the mode line.
    pub fn label(&self) -> (s: &'static str)
        ensures
            s@ == mode_label(*self),
    {
        match self {
            EditorMode::Insert => "INSERT",
            EditorMode::Normal => "NORMAL",
            EditorMode::Visual => "VISUAL",
            EditorMode::VisualLine => "V-LINE",
            EditorMode::Command => "COMMAND",
        }
    }
}

/// A key combination (e.g. "ctrl-z", "shift-left", "d", "g").
#[derive(Debug)]
pub struct KeyCombo {
    pub key: String,
    pub ctrl: bool,
    pub shift: bool,
    pub alt: bool,
}

/// What a key combination holds: the key name and the three modifiers.
pub struct ComboView {
    pub key: Seq<char>,
    pub ctrl: bool,
    pub shift: bool,
    pub alt: bool,
}

impl View for KeyCombo {
    type V = ComboView;

    open spec fn view(&self) -> ComboView {
        ComboView { key: self.key@, ctrl: self.ctrl, shift: self.shift, alt: self.alt }
    }
}

impl PartialEq for KeyCombo {
    fn eq(&self, other: &Self) -> (r: bool) {
        str_eq(self.key.as_str(), other.key.as_str()) && self.ctrl == other.ctrl && self.shift
            == other.shift && self.alt == other.alt
    }
}

impl vstd::std_specs::cmp::PartialEqSpecImpl for KeyCombo {
    open spec fn obeys_eq_spec() -> bool {
        true
    }

    open spec fn eq_spec(&self, other: &Self) -> bool {
        self@ == other@
    }
}

impl Clone for KeyCombo {
    fn clone(&self) -> (r: Self)
        ensures
            r@ == self@,
    {
        KeyCombo { key: self.key.clone(), ctrl: self.ctrl, shift: self.shift, alt: self.alt }
    }
}

/// The parts of `s` between dashes, left to right (an empty part between
/// two adjacent dashes, and one part when there is no dash).
pub open spec fn split_dash(s: Seq<char>) -> Seq<Seq<char>>
    decreases s.len(),
{
    if s.len() == 0 {
        seq![Seq::<char>::empty()]
    } else if s.last() == '-' {
        split_dash(s.drop_last()).push(Seq::<char>::empty())
    } else {
        let ps = split_dash(s.drop_last());
        ps.update(ps.len() - 1, ps.last().push(s.last()))
    }
}

/// The parts joined back with dashes between them.
pub open spec fn join_dash(ps: Seq<Seq<char>>) -> Seq<char>
    decreases ps.len(),
{
    if ps.len() == 0 {
        Seq::<char>::empty()
    } else if ps.len() == 1 {
        ps[0]
    } else {
        join_dash(ps.drop_last()).push('-') + ps.last()
    }
}

/// A part names the control modifier.
pub open spec fn is_ctrl_name(p: Seq<char>) -> bool {
    lowercase(p) == "ctrl"@ || lowercase(p) == "control"@
}

/// A part names the shift modifier.
pub open spec fn is_shift_name(p: Seq<char>) -> bool {
    lowercase(p) == "shift"@
}

/// A part names the alt modifier.
pub open spec fn is_alt_name(p: Seq<char>) -> bool {
    lowercase(p) == "alt"@ || lowercase(p) == "meta"@
}

pub open spec fn is_modifier_name(p: Seq<char>) -> bool {
    is_ctrl_name(p) || is_shift_name(p) || is_alt_name(p)
}

/// Index of the part where the key name starts: the first part, before the
/// last one, that is not a modifier; the last part when all before it are.
pub open spec fn key_start(ps: Seq<Seq<char>>, i: int) -> int
    decreases ps.len() - i,
{
    if i >= ps.len() - 1 {
        ps.len() - 1
    } else if !is_modifier_name(ps[i]) {
        i
    } else {
        key_start(ps, i + 1)
    }
}

/// The key combination that a string such as "ctrl-shift-z" describes:
/// leading modifier names set their flags, and the rest, dashes included,
/// is the key name.
pub open spec fn parse_combo(s: Seq<char>) -> ComboView {
    let ps = split_dash(s);
    let k = key_start(ps, 0);
    ComboView {
        key: join_dash(ps.subrange(k, ps.len() as int)),
        ctrl: exists|j: int| 0 <= j < k && #[trigger] is_ctrl_name(ps[j]),
        shift: exists|j: int| 0 <= j < k && #[trigger] is_shift_name(ps[j]),
        alt: exists|j: int| 0 <= j < k && #[trigger] is_alt_name(ps[j]),
    }
}

proof fn lemma_split_no_dash(s: Seq<char>)
    requires
        !s.contains('-'),
    ensures
        split_dash(s) == seq![s],
    decreases s.len(),
{
    if s.len() > 0 {
        assert(!s.drop_last().contains('-')) by {
            if s.drop_last().contains('-') {
                let i = choose|i: int| 0 <= i < s.drop_last().len() && s.drop_last()[i] == '-';
                assert(s[i] == '-');
            }
        }
        lemma_split_no_dash(s.drop_last());
        assert(s.last() != '-') by {
            assert(s[s.len() - 1] == s.last());
        }
        assert(s.drop_last().push(s.last()) =~= s);
    } else {
        assert(s =~= Seq::<char>::empty());
    }
}

/// Splitting `a-b` where neither part holds a dash gives the two parts.
proof fn lemma_split_two(a: Seq<char>, b: Seq<char>)
    requires
        !a.contains('-'),
        !b.contains('-'),
    ensures
        split_dash(a + seq!['-'] + b) == seq![a, b],
    decreases b.len(),
{
    if b.len() == 0 {
        let s = a + seq!['-'];
        assert(s.drop_last() =~= a);
        assert(a + seq!['-'] + b =~= s);
        assert(s.last() == '-');
        lemma_split_no_dash(a);
        assert(b =~= Seq::<char>::empty());
        assert(seq![a].push(Seq::<char>::empty()) =~= seq![a, b]);
    } else {
        let s = a + seq!['-'] + b;
        let b0 = b.drop_last();
        assert(!b0.contains('-')) by {
            if b0.contains('-') {
                let i = choose|i: int| 0 <= i < b0.len() && b0[i] == '-';
                assert(b[i] == '-');
            }
        }
        lemma_split_two(a, b0);
        assert(s.drop_last() =~= a + seq!['-'] + b0);
        assert(s.last() == b.last());
        assert(b.last() != '-') by {
            assert(b[b.len() - 1] == b.last());
        }
        assert(b0.push(b.last()) =~= b);
        let ps = split_dash(s.drop_last());
        assert(ps == seq![a, b0]);
        assert(ps.len() - 1 == 1);
        assert(ps.last() == b0);
        assert(split_dash(s) == ps.update(ps.len() - 1, ps.last().push(s.last())));
        assert(seq![a, b0].update(1, b0.push(b.last())) =~= seq![a, b]);
    }
}

/// A key written without a dash is that key, as written, with no
/// modifier (even when it reads like a modifier name).
pub proof fn lemma_plain_key(p: Seq<char>)
    requires
        !p.contains('-'),
    ensures
        parse_combo(p) == (ComboView { key: p, ctrl: false, shift: false, alt: false }),
{
    lemma_split_no_dash(p);
    let ps = seq![p];
    assert(key_start(ps, 0) == 0);
    assert(ps.subrange(0, 1) =~= ps);
}

/// Modifier names are recognised whatever their letter case: a part that
/// lower-cases to `ctrl` or `control`, `shift`, or `alt` or `meta`, before
/// a dash-free key, sets exactly that modifier and leaves the key as it
/// was written (`Ctrl-Z` is control with the key `Z`).
pub proof fn lemma_modifier_case_ignored(m: Seq<char>, key: Seq<char>)
    requires
        !m.contains('-'),
        !key.contains('-'),
    ensures
        lowercase(m) == "ctrl"@ || lowercase(m) == "control"@ ==> parse_combo(m + seq!['-'] + key) == (
        ComboView { key, ctrl: true, shift: false, alt: false }),
        lowercase(m) == "shift"@ ==> parse_combo(m + seq!['-'] + key) == (ComboView {
            key,
            ctrl: false,
            shift: true,
            alt: false,
        }),
        lowercase(m) == "alt"@ || lowercase(m) == "meta"@ ==> parse_combo(m + seq!['-'] + key) == (
        ComboView { key, ctrl: false, shift: false, alt: true }),
{
    reveal_strlit("ctrl");
    reveal_strlit("control");
    reveal_strlit("shift");
    reveal_strlit("alt");
    reveal_strlit("meta");
    let ps = seq![m, key];
    lemma_split_two(m, key);
    let s = m + seq!['-'] + key;
    assert(split_dash(s) == ps);
    assert("ctrl"@.len() == 4 && "control"@.len() == 7 && "shift"@.len() == 5 && "alt"@.len() == 3
        && "meta"@.len() == 4);
    assert("ctrl"@ != "meta"@) by {
        assert("ctrl"@[0] != "meta"@[0]);
    }
    if is_modifier_name(m) {
        assert(key_start(ps, 1) == 1);
        assert(key_start(ps, 0) == 1);
        assert(ps.subrange(1, 2) =~= seq![key]);
        assert(join_dash(seq![key]) == key);
        let c = parse_combo(s);
        assert(c.key == key);
        if is_ctrl_name(m) {
            assert(is_ctrl_name(ps[0]));
        } else {
            assert(!c.ctrl);
        }
        if is_shift_name(m) {
            assert(is_shift_name(ps[0]));
        } else {
            assert(!c.shift);
        }
        if is_alt_name(m) {
            assert(is_alt_name(ps[0]));
        } else {
            assert(!c.alt);
        }
    }
}

proof fn lemma_split_nonempty(s: Seq<char>)
    ensures
        split_dash(s).len() >= 1,
    decreases s.len(),
{
    if s.len() > 0 {
        lemma_split_nonempty(s.drop_last());
    }
}

proof fn lemma_key_start_range(ps: Seq<Seq<char>>, i: int)
    requires
        ps.len() >= 1,
        0 <= i,
    ensures
        i <= key_start(ps, i) || key_start(ps, i) == ps.len() - 1,
        0 <= key_start(ps, i) < ps.len(),
        forall|j: int| i <= j < key_start(ps, i) ==> #[trigger] is_modifier_name(ps[j]),
        key_start(ps, i) < ps.len() - 1 ==> !is_modifier_name(ps[key_start(ps, i)]),
    decreases ps.len() - i,
{
    if i < ps.len() - 1 && is_modifier_name(ps[i]) {
        lemma_key_start_range(ps, i + 1);
    }
}

/// Splits `s` at every dash.
fn split_on_dash(s: &str) -> (parts: Vec<String>)
    ensures
        parts@.map_values(|p: String| p@) == split_dash(s@),
{
    let n = s.unicode_len();
    let mut parts: Vec<String> = Vec::new();
    let mut cur = String::new();
    let mut i: usize = 0;
    while i < n
        invariant
            n == s@.len(),
            i <= n,
            parts@.map_values(|p: String| p@).push(cur@) == split_dash(s@.take(i as int)),
        decreases n - i,
    {
        let c = s.get_char(i);
        let ghost before = parts@.map_values(|p: String| p@);
        let ghost cur0 = cur@;
        proof {
            assert(s@.take(i + 1).drop_last() =~= s@.take(i as int));
            assert(s@.take(i + 1).last() == c);
        }
        if c == '-' {
            parts.push(cur);
            cur = String::new();
            assert(parts@.map_values(|p: String| p@) =~= before.push(cur0));
        } else {
            push_char(&mut cur, c);
            assert(parts@.map_values(|p: String| p@) =~= before);
            assert(before.push(cur0).update(before.len() as int, cur0.push(c)) =~= before.push(cur@));
        }
        i = i + 1;
    }
    assert(s@.take(n as int) =~= s@);
    let ghost before = parts@.map_values(|p: String| p@);
    let ghost last = cur@;
    parts.push(cur);
    assert(parts@.map_values(|p: String| p@) =~= before.push(last));
    parts
}

/// The key name: the parts from `k` on, joined with dashes.
fn join_parts_from(parts: &Vec<String>, k: usize) -> (r: String)
    requires
        k < parts@.len(),
    ensures
        r@ == join_dash(parts@.map_values(|p: String| p@).subrange(k as int, parts@.len() as int)),
{
    let ghost ps = parts@.map_values(|p: String| p@);
    let len = parts.len();
    let mut r = parts[k].clone();
    let mut j: usize = k + 1;
    assert(ps.subrange(k as int, j as int) =~= seq![ps[k as int]]);
    while j < parts.len()
        invariant
            ps == parts@.map_values(|p: String| p@),
            k < j <= parts@.len(),
            r@ == join_dash(ps.subrange(k as int, j as int)),
        decreases parts@.len() - j,
    {
        push_char(&mut r, '-');
        r.append(parts[j].as_str());
        j = j + 1;
        assert(ps.subrange(k as int, j as int).drop_last() =~= ps.subrange(k as int, j - 1));
    }
    r
}

impl KeyCombo {
    /// Parse from a string like "ctrl-z", "shift-left", "a", "enter".
    pub fn parse(s: &str) -> (k: Self)
        ensures
            k@ == parse_combo(s@),
    {
        let parts = split_on_dash(s);
        let ghost ps = parts@.map_values(|p: String| p@);
        proof {
            lemma_split_nonempty(s@);
            lemma_key_start_range(ps, 0);
        }
        let n = parts.len();
        let mut ctrl = false;
        let mut shift = false;
        let mut alt = false;
        let mut i: usize = 0;
        while i + 1 < n
            invariant
                ps == parts@.map_values(|p: String| p@),
                ps == split_dash(s@),
                n == ps.len(),
                n >= 1,
                i < n,
                forall|j: int| 0 <= j < i ==> #[trigger] is_modifier_name(ps[j]),
                key_start(ps, 0) == key_start(ps, i as int),
                ctrl == exists|j: int| 0 <= j < i && #[trigger] is_ctrl_name(ps[j]),
                shift == exists|j: int| 0 <= j < i && #[trigger] is_shift_name(ps[j]),
                alt == exists|j: int| 0 <= j < i && #[trigger] is_alt_name(ps[j]),
            decreases n - i,
        {
            let lower = to_lowercase(parts[i].as_str());
            let l = lower.as_str();
            assert(lower@ == lowercase(ps[i as int]));
            let is_ctrl = str_eq(l, "ctrl") || str_eq(l, "control");
            let is_shift = str_eq(l, "shift");
            let is_alt = str_eq(l, "alt") || str_eq(l, "meta");
            if !is_ctrl && !is_shift && !is_alt {
                let key = join_parts_from(&parts, i);
                return KeyCombo { key, ctrl, shift, alt };
            }
            assert(is_ctrl == is_ctrl_name(ps[i as int]));
            assert(is_shift == is_shift_name(ps[i as int]));
            assert(is_alt == is_alt_name(ps[i as int]));
            if is_ctrl {
                ctrl = true;
            }
            if is_shift {
                shift = true;
            }
            if is_alt {
                alt = true;
            }
            let ghost i0 = i as int;
            i = i + 1;
            assert(ctrl == exists|j: int| 0 <= j < i && #[trigger] is_ctrl_name(ps[j])) by {
                if is_ctrl_name(ps[i0]) {
                    assert(0 <= i0 < i && is_ctrl_name(ps[i0]));
                }
            }
            assert(shift == exists|j: int| 0 <= j < i && #[trigger] is_shift_name(ps[j])) by {
                if is_shift_name(ps[i0]) {
                    assert(0 <= i0 < i && is_shift_name(ps[i0]));
                }
            }
            assert(alt == exists|j: int| 0 <= j < i && #[trigger] is_alt_name(ps[j])) by {
                if is_alt_name(ps[i0]) {
                    assert(0 <= i0 < i && is_alt_name(ps[i0]));
                }
            }
        }
        let key = join_parts_from(&parts, n - 1);
        KeyCombo { key, ctrl, shift, alt }
    }

    /// Create from keystroke event data.
    pub fn from_keystroke(key: &str, ctrl: bool, shift: bool, alt: bool) -> (k: Self)
        ensures
            k@ == (ComboView { key: key@, ctrl, shift, alt }),
    {
        KeyCombo { key: key.to_owned(), ctrl, shift, alt }
    }
}

/// A single key binding: a key combo mapped to a command in a specific mode.
#[derive(Debug)]
pub struct KeyBinding {
    pub key: KeyCombo,
    pub command: EditorCommand,
    /// Optional context guard (e.g. "in_table"). Future use.
    pub context: Option<String>,
}

/// Position of a mode in the keymap's table.
pub open spec fn mode_index(mode: EditorMode) -> int {
    match mode {
        EditorMode::Insert => 0,
        EditorMode::Normal => 1,
        EditorMode::Visual => 2,
        EditorMode::VisualLine => 3,
        EditorMode::Command => 4,
    }
}

fn mode_slot(mode: EditorMode) -> (i: usize)
    ensures
        i == mode_index(mode),
{
    match mode {
        EditorMode::Insert => 0,
        EditorMode::Normal => 1,
        EditorMode::Visual => 2,
        EditorMode::VisualLine => 3,
        EditorMode::Command => 4,
    }
}

/// A binding as the keymap sees it: its key and its command.
pub open spec fn binding_view(b: KeyBinding) -> (ComboView, EditorCommand) {
    (b.key@, b.command)
}

/// The keymap: maps modes to their key bindings.
pub struct Keymap {
    bindings: Vec<Vec<KeyBinding>>,
}

impl Keymap {
    /// One table per mode.
    pub closed spec fn wf(&self) -> bool {
        self.bindings@.len() == 5
    }

    /// The bindings of a mode, in order.
    pub closed spec fn bindings_of(&self, mode: EditorMode) -> Seq<(ComboView, EditorCommand)> {
        self.bindings@[mode_index(mode)]@.map_values(|b: KeyBinding| binding_view(b))
    }
}

/// The command of the first binding for `key` in `bs`, if any.
pub open spec fn lookup(bs: Seq<(ComboView, EditorCommand)>, key: ComboView) -> Option<EditorCommand>
    decreases bs.len(),
{
    if bs.len() == 0 {
        None
    } else if bs[0].0 == key {
        Some(bs[0].1)
    } else {
        lookup(bs.drop_first(), key)
    }
}

/// The bindings without those for `key`, in order.
pub open spec fn without_key(bs: Seq<(ComboView, EditorCommand)>, key: ComboView) -> Seq<
    (ComboView, EditorCommand),
> {
    bs.filter(key_differs(key))
}

/// The test that keeps bindings for keys other than `key`.
pub open spec fn key_differs(key: ComboView) -> spec_fn((ComboView, EditorCommand)) -> bool {
    |b: (ComboView, EditorCommand)| b.0 != key
}

proof fn lemma_lookup_skips_other_keys(xs: Seq<(ComboView, EditorCommand)>, y: (ComboView, EditorCommand), key: ComboView)
    requires
        forall|i: int| 0 <= i < xs.len() ==> #[trigger] xs[i].0 != key,
    ensures
        lookup(xs, key) is None,
        lookup(xs.push(y), key) == lookup(seq![y], key),
    decreases xs.len(),
{
    if xs.len() > 0 {
        assert(xs.push(y).drop_first() =~= xs.drop_first().push(y));
        lemma_lookup_skips_other_keys(xs.drop_first(), y, key);
    } else {
        assert(xs.push(y) =~= seq![y]);
    }
}

/// After binding a key, resolving it gives the new command.
pub proof fn lemma_resolve_after_bind(bs: Seq<(ComboView, EditorCommand)>, key: ComboView, c: EditorCommand)
    ensures
        lookup(without_key(bs, key).push((key, c)), key) == Some(c),
{
    let kept = without_key(bs, key);
    assert forall|i: int| 0 <= i < kept.len() implies #[trigger] kept[i].0 != key by {
        bs.lemma_filter_pred(key_differs(key), i);
    }
    lemma_lookup_skips_other_keys(kept, (key, c), key);
}

/// Looking up in a sequence with one more binding at the end: what the
/// first part has, or else the new binding if it is for the key.
proof fn lemma_lookup_push(xs: Seq<(ComboView, EditorCommand)>, y: (ComboView, EditorCommand), key: ComboView)
    ensures
        lookup(xs.push(y), key) == (match lookup(xs, key) {
            Some(c) => Some(c),
            None => if y.0 == key {
                Some(y.1)
            } else {
                None
            },
        }),
    decreases xs.len(),
{
    if xs.len() > 0 {
        assert(xs.push(y).drop_first() =~= xs.drop_first().push(y));
        assert(xs.push(y)[0] == xs[0]);
        lemma_lookup_push(xs.drop_first(), y, key);
    } else {
        assert(xs.push(y) =~= seq![y]);
        assert(seq![y].drop_first() =~= Seq::<(ComboView, EditorCommand)>::empty());
        assert(lookup(Seq::<(ComboView, EditorCommand)>::empty(), key) is None);
    }
}

/// Dropping the bindings of one key changes no lookup of another key.
proof fn lemma_lookup_without_other(bs: Seq<(ComboView, EditorCommand)>, key: ComboView, other: ComboView)
    requires
        other != key,
    ensures
        lookup(without_key(bs, key), other) == lookup(bs, other),
    decreases bs.len(),
{
    if bs.len() > 0 {
        let init = bs.drop_last();
        lemma_lookup_without_other(init, key, other);
        assert(init.push(bs.last()) =~= bs);
        lemma_lookup_push(init, bs.last(), other);
        let f = key_differs(key);
        assert(bs.filter(f) == if f(bs.last()) {
            init.filter(f).push(bs.last())
        } else {
            init.filter(f)
        }) by {
            reveal(Seq::filter);
            assert(bs.drop_last() == init);
        }
        if f(bs.last()) {
            lemma_lookup_push(init.filter(f), bs.last(), other);
        }
    } else {
        assert(without_key(bs, key) =~= bs);
    }
}

/// Binding a key leaves every other key's command as it was: a lookup of
/// another key in the rebound table gives what it gave before.
pub proof fn lemma_bind_keeps_other_keys(
    bs: Seq<(ComboView, EditorCommand)>,
    key: ComboView,
    c: EditorCommand,
    other: ComboView,
)
    requires
        other != key,
    ensures
        lookup(without_key(bs, key).push((key, c)), other) == lookup(bs, other),
{
    lemma_lookup_push(without_key(bs, key), (key, c), other);
    lemma_lookup_without_other(bs, key, other);
}

/// After unbinding a key, resolving it finds nothing.
pub proof fn lemma_resolve_after_unbind(bs: Seq<(ComboView, EditorCommand)>, key: ComboView)
    ensures
        lookup(without_key(bs, key), key) is None,
{
    let kept = without_key(bs, key);
    assert forall|i: int| 0 <= i < kept.len() implies #[trigger] kept[i].0 != key by {
        bs.lemma_filter_pred(key_differs(key), i);
    }
    lemma_lookup_skips_other_keys(kept, (key, EditorCommand::Undo), key);
}

/// The default Insert-mode bindings.
pub open spec fn default_insert_bindings() -> Seq<(ComboView, EditorCommand)> {
    seq![
        (parse_combo("ctrl-z"@), EditorCommand::Undo),
        (parse_combo("ctrl-shift-z"@), EditorCommand::Redo),
        (parse_combo("left"@), EditorCommand::MoveLeft),
        (parse_combo("right"@), EditorCommand::MoveRight),
        (parse_combo("up"@), EditorCommand::MoveUp),
        (parse_combo("down"@), EditorCommand::MoveDown),
        (parse_combo("home"@), EditorCommand::MoveLineStart),
        (parse_combo("end"@), EditorCommand::MoveLineEnd),
        (parse_combo("shift-left"@), EditorCommand::SelectLeft),
        (parse_combo("shift-right"@), EditorCommand::SelectRight),
        (parse_combo("backspace"@), EditorCommand::DeleteBackward),
        (parse_combo("delete"@), EditorCommand::DeleteForward),
        (parse_combo("enter"@), EditorCommand::InsertNewline),
        (parse_combo("ctrl-shift-v"@), EditorCommand::ToggleVimMode),
    ]
}

/// Helper to create a KeyBinding from a key string.
fn kb(key_str: &str, command: EditorCommand) -> (b: KeyBinding)
    ensures
        binding_view(b) == (parse_combo(key_str@), command),
        b.context is None,
{
    KeyBinding { key: KeyCombo::parse(key_str), command, context: None }
}

impl Keymap {
    pub fn new() -> (km: Self)
        ensures
            km.wf(),
            km.bindings_of(EditorMode::Insert) == default_insert_bindings(),
            forall|m: EditorMode| m != EditorMode::Insert ==> #[trigger] km.bindings_of(m).len() == 0,
    {
        let mut bindings: Vec<Vec<KeyBinding>> = Vec::new();
        bindings.push(Vec::new());
        bindings.push(Vec::new());
        bindings.push(Vec::new());
        bindings.push(Vec::new());
        bindings.push(Vec::new());
        let mut km = Keymap { bindings };
        km.load_defaults();
        km
    }

    /// Load the default keybindings for Insert mode.
    fn load_defaults(&mut self)
        requires
            old(self).wf(),
        ensures
            final(self).wf(),
            final(self).bindings_of(EditorMode::Insert) == default_insert_bindings(),
            forall|m: EditorMode| m != EditorMode::Insert ==> #[trigger] final(self).bindings_of(m)
                == old(self).bindings_of(m),
    {
        let mut insert: Vec<KeyBinding> = Vec::new();
        insert.push(kb("ctrl-z", EditorCommand::Undo));
        insert.push(kb("ctrl-shift-z", EditorCommand::Redo));
        insert.push(kb("left", EditorCommand::MoveLeft));
        insert.push(kb("right", EditorCommand::MoveRight));
        insert.push(kb("up", EditorCommand::MoveUp));
        insert.push(kb("down", EditorCommand::MoveDown));
        insert.push(kb("home", EditorCommand::MoveLineStart));
        insert.push(kb("end", EditorCommand::MoveLineEnd));
        insert.push(kb("shift-left", EditorCommand::SelectLeft));
        insert.push(kb("shift-right", EditorCommand::SelectRight));
        insert.push(kb("backspace", EditorCommand::DeleteBackward));
        insert.push(kb("delete", EditorCommand::DeleteForward));
        insert.push(kb("enter", EditorCommand::InsertNewline));
        insert.push(kb("ctrl-shift-v", EditorCommand::ToggleVimMode));
        assert(insert@.map_values(|b: KeyBinding| binding_view(b)) =~= default_insert_bindings());
        self.bindings.set(0, insert);
    }

    /// Look up a command for a key combo in a given mode: the command of the
    /// first binding for that key.
    pub fn resolve(&self, mode: EditorMode, key: &KeyCombo) -> (r: Option<EditorCommand>)
        requires
            self.wf(),
        ensures
            r == lookup(self.bindings_of(mode), key@),
    {
        let bs = &self.bindings[mode_slot(mode)];
        let ghost all = self.bindings_of(mode);
        let mut i: usize = 0;
        assert(all.skip(0) =~= all);
        while i < bs.len()
            invariant
                bs@.map_values(|b: KeyBinding| binding_view(b)) == all,
                all == self.bindings_of(mode),
                i <= bs@.len(),
                lookup(all.skip(i as int), key@) == lookup(all, key@),
            decreases bs@.len() - i,
        {
            assert(all.skip(i as int).drop_first() =~= all.skip(i + 1));
            assert(all.skip(i as int)[0] == all[i as int]);
            if bs[i].key == *key {
                return Some(bs[i].command.clone());
            }
            i = i + 1;
        }
        None
    }

    /// Add or override a binding for a mode: any binding for the same key
    /// is removed and the new one goes last.
    pub fn bind(&mut self, mode: EditorMode, key_str: &str, command: EditorCommand)
        requires
            old(self).wf(),
        ensures
            final(self).wf(),
            final(self).bindings_of(mode) == without_key(old(self).bindings_of(mode), parse_combo(key_str@)).push(
                (parse_combo(key_str@), command),
            ),
            forall|m: EditorMode| m != mode ==> #[trigger] final(self).bindings_of(m) == old(self).bindings_of(m),
    {
        let key = KeyCombo::parse(key_str);
        let slot = mode_slot(mode);
        let mut kept = self.retained(slot, &key);
        let ghost kv = kept@.map_values(|b: KeyBinding| binding_view(b));
        kept.push(KeyBinding { key, command, context: None });
        assert(kept@.map_values(|b: KeyBinding| binding_view(b)) =~= kv.push((parse_combo(key_str@), command)));
        self.bindings.set(slot, kept);
        proof {
            assert forall|m: EditorMode| m != mode implies #[trigger] self.bindings_of(m) == old(self).bindings_of(m) by {
                assert(mode_index(m) != mode_index(mode));
            }
        }
    }

    /// Remove the bindings for a key in a mode.
    pub fn unbind(&mut self, mode: EditorMode, key_str: &str)
        requires
            old(self).wf(),
        ensures
            final(self).wf(),
            final(self).bindings_of(mode) == without_key(old(self).bindings_of(mode), parse_combo(key_str@)),
            forall|m: EditorMode| m != mode ==> #[trigger] final(self).bindings_of(m) == old(self).bindings_of(m),
    {
        let key = KeyCombo::parse(key_str);
        let slot = mode_slot(mode);
        let kept = self.retained(slot, &key);
        self.bindings.set(slot, kept);
        proof {
            assert forall|m: EditorMode| m != mode implies #[trigger] self.bindings_of(m) == old(self).bindings_of(m) by {
                assert(mode_index(m) != mode_index(mode));
            }
        }
    }

    /// Copies of the bindings in table `slot` whose key differs from `key`.
    fn retained(&self, slot: usize, key: &KeyCombo) -> (kept: Vec<KeyBinding>)
        requires
            self.wf(),
            slot < 5,
        ensures
            kept@.map_values(|b: KeyBinding| binding_view(b)) == self.bindings@[slot as int]@.map_values(
                |b: KeyBinding| binding_view(b),
            ).filter(key_differs(key@)),
    {
        let bs = &self.bindings[slot];
        let ghost all = bs@.map_values(|b: KeyBinding| binding_view(b));
        let mut kept: Vec<KeyBinding> = Vec::new();
        let mut i: usize = 0;
        while i < bs.len()
            invariant
                all == bs@.map_values(|b: KeyBinding| binding_view(b)),
                i <= bs@.len(),
                kept@.map_values(|b: KeyBinding| binding_view(b)) == all.take(i as int).filter(key_differs(key@)),
            decreases bs@.len() - i,
        {
            let ghost before = kept@.map_values(|b: KeyBinding| binding_view(b));
            assert(all.take(i + 1) =~= all.take(i as int).push(all[i as int]));
            proof {
                all.take(i as int).lemma_filter_push(all[i as int], key_differs(key@));
            }
            if !(bs[i].key == *key) {
                kept.push(KeyBinding {
                    key: bs[i].key.clone(),
                    command: bs[i].command.clone(),
                    context: None,
                });
                assert(kept@.map_values(|b: KeyBinding| binding_view(b)) =~= before.push(all[i as int]));
            } else {
                assert(kept@.map_values(|b: KeyBinding| binding_view(b)) =~= before);
            }
            i = i + 1;
        }
        assert(all.take(bs@.len() as int) =~= all);
        kept
    }
}

} // verus!
