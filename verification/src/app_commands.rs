//! What the application does for a command chosen in the palette or typed
//! after `:`, before handing the rest to the focused pane.
use vstd::prelude::*;

use crate::code_edit::fence::{copy_range, trim, trimmed};
use crate::fs::{file_name, file_name_bounds};
use crate::number::{decimal, decimal_digits};
use crate::ranking::{lemma_sort_ranked_len, rank_keys, ranked_order, sort_ranked, RankKey};
use crate::text::{ascii_lower, push_char, to_ascii_lower, to_owned};
use crate::resource::starts_with;
use crate::text::{chars_of, str_eq, string_of};

verus! {

broadcast use vstd::string::group_string_axioms;

/// An application-level command.
#[derive(Debug, PartialEq, Eq)]
pub enum AppCommand {
    CommandPalette,
    FindNote,
    /// Save, then show "Written".
    Write,
    Quit,
    /// Save, then close the window.
    WriteQuit,
    VaultSwitch,
    VaultOpen,
    OpenGraph,
    NewDiagram,
    ShowBacklinks,
    ToggleSecondaryMaximize,
    CloseSecondary,
    Journal,
    TagList,
    /// The notes with a tag.
    TagNotes(String),
    Orphans,
    ContentSearch,
    ThemePicker,
    /// Rename the current note.
    Rename(String),
    /// Insert links to the notes with a tag.
    InsertLinksByTag(String),
    ToggleBacklinks,
    Attach,
    /// Remove a vault from the registry.
    VaultForget(String),
    /// Open the note at a path.
    Edit(String),
    /// Show a message (a usage hint for a command missing its argument).
    Message(String),
    /// Not an application command: the focused pane handles it.
    Pane,
}

/// What an application command holds.
pub enum AppView {
    CommandPalette,
    FindNote,
    Write,
    Quit,
    WriteQuit,
    VaultSwitch,
    VaultOpen,
    OpenGraph,
    NewDiagram,
    ShowBacklinks,
    ToggleSecondaryMaximize,
    CloseSecondary,
    Journal,
    TagList,
    TagNotes(Seq<char>),
    Orphans,
    ContentSearch,
    ThemePicker,
    Rename(Seq<char>),
    InsertLinksByTag(Seq<char>),
    ToggleBacklinks,
    Attach,
    VaultForget(Seq<char>),
    Edit(Seq<char>),
    Message(Seq<char>),
    Pane,
}

/// The view of an application command.
pub open spec fn app_view(c: AppCommand) -> AppView {
    match c {
        AppCommand::CommandPalette => AppView::CommandPalette,
        AppCommand::FindNote => AppView::FindNote,
        AppCommand::Write => AppView::Write,
        AppCommand::Quit => AppView::Quit,
        AppCommand::WriteQuit => AppView::WriteQuit,
        AppCommand::VaultSwitch => AppView::VaultSwitch,
        AppCommand::VaultOpen => AppView::VaultOpen,
        AppCommand::OpenGraph => AppView::OpenGraph,
        AppCommand::NewDiagram => AppView::NewDiagram,
        AppCommand::ShowBacklinks => AppView::ShowBacklinks,
        AppCommand::ToggleSecondaryMaximize => AppView::ToggleSecondaryMaximize,
        AppCommand::CloseSecondary => AppView::CloseSecondary,
        AppCommand::Journal => AppView::Journal,
        AppCommand::TagList => AppView::TagList,
        AppCommand::TagNotes(t) => AppView::TagNotes(t@),
        AppCommand::Orphans => AppView::Orphans,
        AppCommand::ContentSearch => AppView::ContentSearch,
        AppCommand::ThemePicker => AppView::ThemePicker,
        AppCommand::Rename(t) => AppView::Rename(t@),
        AppCommand::InsertLinksByTag(t) => AppView::InsertLinksByTag(t@),
        AppCommand::ToggleBacklinks => AppView::ToggleBacklinks,
        AppCommand::Attach => AppView::Attach,
        AppCommand::VaultForget(p) => AppView::VaultForget(p@),
        AppCommand::Edit(p) => AppView::Edit(p@),
        AppCommand::Message(m) => AppView::Message(m@),
        AppCommand::Pane => AppView::Pane,
    }
}

/// The argument typed after `p1` (or else after `p2`), trimmed; empty when
/// the input starts with neither.
pub open spec fn arg_of(raw: Seq<char>, p1: Seq<char>, p2: Seq<char>) -> Seq<char> {
    if starts_with(raw, p1) {
        trim(raw.skip(p1.len() as int))
    } else if starts_with(raw, p2) {
        trim(raw.skip(p2.len() as int))
    } else {
        Seq::empty()
    }
}

/// The application command for `cmd_id`, given the whole input line.
pub open spec fn app_command_spec(id: Seq<char>, raw: Seq<char>) -> AppView {
    if id == "command-palette"@ {
        AppView::CommandPalette
    } else if id == "find-note"@ || id == "notes"@ {
        AppView::FindNote
    } else if id == "write"@ {
        AppView::Write
    } else if id == "quit"@ {
        AppView::Quit
    } else if id == "wq"@ {
        AppView::WriteQuit
    } else if id == "vault-switch"@ {
        AppView::VaultSwitch
    } else if id == "vault-open"@ {
        AppView::VaultOpen
    } else if id == "open-graph"@ {
        AppView::OpenGraph
    } else if id == "diagram-new"@ || id == "new-diagram"@ {
        AppView::NewDiagram
    } else if id == "backlinks"@ {
        AppView::ShowBacklinks
    } else if id == "toggle-secondary-maximize"@ || id == "secondary-maximize"@ {
        AppView::ToggleSecondaryMaximize
    } else if id == "close-secondary"@ {
        AppView::CloseSecondary
    } else if id == "today"@ || id == "daily"@ || id == "journal"@ {
        AppView::Journal
    } else if id == "tags"@ {
        AppView::TagList
    } else if id == "tag"@ {
        let arg = arg_of(raw, "tag "@, "tag "@);
        if arg.len() == 0 {
            AppView::TagList
        } else {
            AppView::TagNotes(arg)
        }
    } else if id == "orphans"@ {
        AppView::Orphans
    } else if id == "search-content"@ || id == "search"@ || id == "grep"@ {
        AppView::ContentSearch
    } else if id == "theme"@ {
        AppView::ThemePicker
    } else if id == "rename"@ || id == "rn"@ {
        let arg = arg_of(raw, "rename "@, "rn "@);
        if arg.len() == 0 {
            AppView::Message("usage: :rename <new title>"@)
        } else {
            AppView::Rename(arg)
        }
    } else if id == "insert-links-by-tag"@ || id == "moc"@ {
        let arg = arg_of(raw, "insert-links-by-tag "@, "moc "@);
        if arg.len() == 0 {
            AppView::Message("usage: :moc <tag>"@)
        } else {
            AppView::InsertLinksByTag(arg)
        }
    } else if id == "toggle-backlinks"@ || id == "backlinks-panel"@ {
        AppView::ToggleBacklinks
    } else if id == "attach"@ || id == "paste-image"@ {
        AppView::Attach
    } else if id == "vault-forget"@ || id == "forget-vault"@ {
        let arg = arg_of(raw, "vault-forget "@, "forget-vault "@);
        if arg.len() == 0 {
            AppView::Message("usage: :vault-forget <path>"@)
        } else {
            AppView::VaultForget(arg)
        }
    } else if id == "edit"@ {
        let arg = arg_of(raw, "edit "@, "e "@);
        if arg.len() == 0 {
            AppView::Message("Specify a file path"@)
        } else {
            AppView::Edit(arg)
        }
    } else {
        AppView::Pane
    }
}

/// Whether the characters `v` start with those of `lit`.
fn starts_with_lit(v: &Vec<char>, lit: &str) -> (r: bool)
    ensures
        r == starts_with(v@, lit@),
{
    let n = lit.unicode_len();
    if v.len() < n {
        return false;
    }
    let mut i: usize = 0;
    while i < n
        invariant
            n == lit@.len(),
            n <= v@.len(),
            i <= n,
            forall|j: int| 0 <= j < i ==> v@[j] == lit@[j],
        decreases n - i,
    {
        if v[i] != lit.get_char(i) {
            assert(v@.take(n as int)[i as int] != lit@[i as int]);
            return false;
        }
        i = i + 1;
    }
    assert(v@.take(n as int) =~= lit@);
    true
}

/// The argument after one of two prefixes, trimmed.
fn arg_after(raw: &str, p1: &str, p2: &str) -> (r: String)
    ensures
        r@ == arg_of(raw@, p1@, p2@),
{
    let cs = chars_of(raw);
    let rest = if starts_with_lit(&cs, p1) {
        copy_range(&cs, p1.unicode_len(), cs.len())
    } else if starts_with_lit(&cs, p2) {
        copy_range(&cs, p2.unicode_len(), cs.len())
    } else {
        return String::new();
    };
    proof {
        if starts_with(raw@, p1@) {
            assert(rest@ =~= raw@.skip(p1@.len() as int));
        } else {
            assert(rest@ =~= raw@.skip(p2@.len() as int));
        }
    }
    string_of(&trimmed(&rest))
}

/// The application command for `cmd_id`; `raw_input` is the whole line
/// typed, from which arguments are taken.
pub fn app_command(cmd_id: &str, raw_input: &str) -> (r: AppCommand)
    ensures
        app_view(r) == app_command_spec(cmd_id@, raw_input@),
{
    let id = cmd_id;
    if str_eq(id, "command-palette") {
        AppCommand::CommandPalette
    } else if str_eq(id, "find-note") || str_eq(id, "notes") {
        AppCommand::FindNote
    } else if str_eq(id, "write") {
        AppCommand::Write
    } else if str_eq(id, "quit") {
        AppCommand::Quit
    } else if str_eq(id, "wq") {
        AppCommand::WriteQuit
    } else if str_eq(id, "vault-switch") {
        AppCommand::VaultSwitch
    } else if str_eq(id, "vault-open") {
        AppCommand::VaultOpen
    } else if str_eq(id, "open-graph") {
        AppCommand::OpenGraph
    } else if str_eq(id, "diagram-new") || str_eq(id, "new-diagram") {
        AppCommand::NewDiagram
    } else if str_eq(id, "backlinks") {
        AppCommand::ShowBacklinks
    } else if str_eq(id, "toggle-secondary-maximize") || str_eq(id, "secondary-maximize") {
        AppCommand::ToggleSecondaryMaximize
    } else if str_eq(id, "close-secondary") {
        AppCommand::CloseSecondary
    } else if str_eq(id, "today") || str_eq(id, "daily") || str_eq(id, "journal") {
        AppCommand::Journal
    } else if str_eq(id, "tags") {
        AppCommand::TagList
    } else if str_eq(id, "tag") {
        let arg = arg_after(raw_input, "tag ", "tag ");
        if arg.as_str().unicode_len() == 0 {
            AppCommand::TagList
        } else {
            AppCommand::TagNotes(arg)
        }
    } else if str_eq(id, "orphans") {
        AppCommand::Orphans
    } else if str_eq(id, "search-content") || str_eq(id, "search") || str_eq(id, "grep") {
        AppCommand::ContentSearch
    } else if str_eq(id, "theme") {
        AppCommand::ThemePicker
    } else if str_eq(id, "rename") || str_eq(id, "rn") {
        let arg = arg_after(raw_input, "rename ", "rn ");
        if arg.as_str().unicode_len() == 0 {
            AppCommand::Message(crate::text::to_owned("usage: :rename <new title>"))
        } else {
            AppCommand::Rename(arg)
        }
    } else if str_eq(id, "insert-links-by-tag") || str_eq(id, "moc") {
        let arg = arg_after(raw_input, "insert-links-by-tag ", "moc ");
        if arg.as_str().unicode_len() == 0 {
            AppCommand::Message(crate::text::to_owned("usage: :moc <tag>"))
        } else {
            AppCommand::InsertLinksByTag(arg)
        }
    } else if str_eq(id, "toggle-backlinks") || str_eq(id, "backlinks-panel") {
        AppCommand::ToggleBacklinks
    } else if str_eq(id, "attach") || str_eq(id, "paste-image") {
        AppCommand::Attach
    } else if str_eq(id, "vault-forget") || str_eq(id, "forget-vault") {
        let arg = arg_after(raw_input, "vault-forget ", "forget-vault ");
        if arg.as_str().unicode_len() == 0 {
            AppCommand::Message(crate::text::to_owned("usage: :vault-forget <path>"))
        } else {
            AppCommand::VaultForget(arg)
        }
    } else if str_eq(id, "edit") {
        let arg = arg_after(raw_input, "edit ", "e ");
        if arg.as_str().unicode_len() == 0 {
            AppCommand::Message(crate::text::to_owned("Specify a file path"))
        } else {
            AppCommand::Edit(arg)
        }
    } else {
        AppCommand::Pane
    }
}

// ─── Notes and attachments ─────────────────────────────────────────────────

/// The list item that links to the note `title`: `- [[title]]` and a
/// newline.
pub open spec fn link_item(title: Seq<char>) -> Seq<char> {
    seq!['-', ' ', '[', '['] + title + seq![']', ']', '\n']
}

/// The titles ranked by name (all of weight zero).
pub open spec fn title_keys(titles: Seq<String>) -> Seq<RankKey> {
    rank_keys(Seq::new(titles.len(), |i: int| 0usize), titles)
}

/// The list items linking to `titles`, concatenated from index `i` of the
/// sorted order on.
pub open spec fn link_items(titles: Seq<String>, sorted: Seq<RankKey>, i: int) -> Seq<char>
    decreases sorted.len() - i,
{
    if i < 0 || i >= sorted.len() {
        Seq::empty()
    } else {
        link_item(titles[sorted[i].2]@) + link_items(titles, sorted, i + 1)
    }
}

/// The block of links that `:moc <tag>` inserts for the notes with the
/// tag: one list item per title, titles in sorted order.
pub open spec fn links_block_spec(titles: Seq<String>) -> Seq<char> {
    link_items(titles, sort_ranked(title_keys(titles)), 0)
}

/// The list items from index `i` up to `j` of the sorted order.
pub open spec fn link_items_between(titles: Seq<String>, sorted: Seq<RankKey>, i: int, j: int) -> Seq<char>
    decreases j - i,
{
    if i >= j {
        Seq::empty()
    } else {
        link_items_between(titles, sorted, i, j - 1) + link_item(titles[sorted[j - 1].2]@)
    }
}

proof fn lemma_link_items_between(titles: Seq<String>, sorted: Seq<RankKey>, i: int, j: int)
    requires
        0 <= i <= j <= sorted.len(),
    ensures
        link_items_between(titles, sorted, i, j) + link_items(titles, sorted, j) == link_items(titles, sorted, i),
    decreases j - i,
{
    if i < j {
        lemma_link_items_between(titles, sorted, i, j - 1);
        assert(link_items(titles, sorted, j - 1) == link_item(titles[sorted[j - 1].2]@) + link_items(
            titles,
            sorted,
            j,
        ));
        assert(link_items_between(titles, sorted, i, j - 1) + link_item(titles[sorted[j - 1].2]@) + link_items(
            titles,
            sorted,
            j,
        ) =~= link_items_between(titles, sorted, i, j - 1) + (link_item(titles[sorted[j - 1].2]@) + link_items(
            titles,
            sorted,
            j,
        )));
    } else {
        assert(Seq::<char>::empty() + link_items(titles, sorted, j) =~= link_items(titles, sorted, j));
    }
}

/// The block of links to the notes titled `titles`, sorted.
pub fn links_block(titles: &Vec<String>) -> (r: String)
    ensures
        r@ == links_block_spec(titles@),
{
    let mut weights: Vec<usize> = Vec::new();
    let mut k: usize = 0;
    while k < titles.len()
        invariant
            k <= titles@.len(),
            weights@ == Seq::new(k as nat, |i: int| 0usize),
        decreases titles@.len() - k,
    {
        weights.push(0);
        k = k + 1;
        assert(weights@ =~= Seq::new(k as nat, |i: int| 0usize));
    }
    let order = ranked_order(&weights, titles);
    let ghost keys = title_keys(titles@);
    let ghost sorted = sort_ranked(keys);
    assert(rank_keys(weights@, titles@) =~= keys);
    proof {
        lemma_sort_ranked_len(keys);
    }
    let mut out: Vec<char> = Vec::new();
    let mut m: usize = 0;
    while m < order.len()
        invariant
            m <= order@.len(),
            order@.len() == titles@.len(),
            keys == title_keys(titles@),
            sorted == sort_ranked(keys),
            sorted.len() == keys.len(),
            forall|x: int| 0 <= x < order@.len() ==> #[trigger] order@[x] < titles@.len(),
            order@.map_values(|j: usize| keys[j as int]) == sorted,
            out@ == link_items_between(titles@, sorted, 0, m as int),
        decreases order@.len() - m,
    {
        let o = order[m];
        let ghost before = out@;
        out.push('-');
        out.push(' ');
        out.push('[');
        out.push('[');
        let t = chars_of(titles[o].as_str());
        let mut i: usize = 0;
        let ghost mid = out@;
        while i < t.len()
            invariant
                i <= t@.len(),
                out@ == mid + t@.take(i as int),
            decreases t@.len() - i,
        {
            out.push(t[i]);
            i = i + 1;
            assert(out@ =~= mid + t@.take(i as int));
        }
        out.push(']');
        out.push(']');
        out.push('\n');
        proof {
            assert(t@.take(i as int) =~= t@);
            assert(sorted[m as int] == keys[o as int]);
            assert(keys[o as int].2 == o as int);
            assert(out@ =~= before + link_item(titles@[o as int]@));
        }
        m = m + 1;
    }
    proof {
        lemma_link_items_between(titles@, sorted, 0, sorted.len() as int);
        assert(link_items(titles@, sorted, sorted.len() as int) =~= Seq::<char>::empty());
        assert(out@ =~= links_block_spec(titles@));
    }
    string_of(&out)
}

/// The aliases after renaming a note titled `old` to `new`: the old title
/// joins them unless it is empty, unchanged, or already among them.
pub open spec fn renamed_aliases_spec(old: Option<Seq<char>>, new: Seq<char>, aliases: Seq<Seq<char>>) -> Seq<
    Seq<char>,
> {
    match old {
        Some(o) => if o.len() > 0 && o != new && !aliases.contains(o) {
            aliases.push(o)
        } else {
            aliases
        },
        None => aliases,
    }
}

/// The aliases of a note renamed from `old` to `new`.
pub fn renamed_aliases(old: Option<&str>, new: &str, aliases: &Vec<String>) -> (r: Vec<String>)
    ensures
        r@.map_values(|a: String| a@) == renamed_aliases_spec(
            match old {
                Some(o) => Some(o@),
                None => None,
            },
            new@,
            aliases@.map_values(|a: String| a@),
        ),
{
    let ghost av = aliases@.map_values(|a: String| a@);
    let mut out: Vec<String> = Vec::new();
    let mut present = false;
    let mut i: usize = 0;
    while i < aliases.len()
        invariant
            i <= aliases@.len(),
            av == aliases@.map_values(|a: String| a@),
            out@.map_values(|a: String| a@) == av.take(i as int),
            old matches Some(o) ==> (present <==> av.take(i as int).contains(o@)),
        decreases aliases@.len() - i,
    {
        let a = to_owned(aliases[i].as_str());
        let ghost was_present = present;
        let eq_here = match old {
            Some(o) => str_eq(aliases[i].as_str(), o),
            None => false,
        };
        if eq_here {
            present = true;
        }
        let ghost before = out@;
        out.push(a);
        proof {
            assert(av[i as int] == aliases@[i as int]@);
            assert(av.take(i + 1) =~= av.take(i as int).push(av[i as int]));
            assert(out@.map_values(|a: String| a@) =~= before.map_values(|a: String| a@).push(a@));
            if old is Some {
                let o = old->0;
                if eq_here {
                    assert(av.take(i + 1)[i as int] == o@);
                } else if was_present {
                    let j = choose|j: int| 0 <= j < av.take(i as int).len() && #[trigger] av.take(i as int)[j] == o@;
                    assert(av.take(i + 1)[j] == o@);
                }
                if av.take(i + 1).contains(o@) {
                    let j = choose|j: int| 0 <= j < av.take(i + 1).len() && #[trigger] av.take(i + 1)[j] == o@;
                    if j < i {
                        assert(av.take(i as int)[j] == o@);
                    }
                }
            }
        }
        i = i + 1;
    }
    assert(av.take(i as int) =~= av);
    match old {
        Some(o) => {
            if o.unicode_len() > 0 && !str_eq(o, new) && !present {
                let ghost before = out@;
                out.push(to_owned(o));
                assert(out@.map_values(|a: String| a@) =~= before.map_values(|a: String| a@).push(o@));
            }
        },
        None => {},
    }
    out
}

/// `a` and `b` are equal ignoring ASCII case (`str::eq_ignore_ascii_case`).
pub open spec fn ascii_ci_eq(a: Seq<char>, b: Seq<char>) -> bool {
    a.len() == b.len() && forall|i: int| 0 <= i < a.len() ==> ascii_lower(#[trigger] a[i]) == ascii_lower(b[i])
}

/// The attachment a PDF link names: its file name matches, ignoring ASCII
/// case.
pub open spec fn names_attachment(path: Seq<char>, name: Seq<char>) -> bool {
    file_name(path) matches Some(n) && ascii_ci_eq(n, name)
}

/// From index `i` on, the first attachment whose file name is `name`,
/// ignoring ASCII case.
pub open spec fn find_attachment_from(paths: Seq<Seq<char>>, name: Seq<char>, i: int) -> Option<int>
    decreases paths.len() - i,
{
    if i < 0 || i >= paths.len() {
        None
    } else if names_attachment(paths[i], name) {
        Some(i)
    } else {
        find_attachment_from(paths, name, i + 1)
    }
}

/// Whether `a` equals `b` ignoring ASCII case.
fn eq_ignore_ascii_case(a: &Vec<char>, b: &Vec<char>) -> (r: bool)
    ensures
        r == ascii_ci_eq(a@, b@),
{
    if a.len() != b.len() {
        return false;
    }
    let mut i: usize = 0;
    while i < a.len()
        invariant
            a@.len() == b@.len(),
            i <= a@.len(),
            forall|j: int| 0 <= j < i ==> ascii_lower(#[trigger] a@[j]) == ascii_lower(b@[j]),
        decreases a@.len() - i,
    {
        if to_ascii_lower(a[i]) != to_ascii_lower(b[i]) {
            return false;
        }
        i = i + 1;
    }
    true
}

/// The index of the attachment (among `paths`) that a PDF link to `name`
/// opens.
pub fn find_attachment(paths: &[String], name: &str) -> (r: Option<usize>)
    ensures
        match r {
            Some(i) => find_attachment_from(crate::candidates::paths_view(paths@), name@, 0) == Some(i as int),
            None => find_attachment_from(crate::candidates::paths_view(paths@), name@, 0) is None,
        },
{
    let ghost pv = crate::candidates::paths_view(paths@);
    let n = chars_of(name);
    let mut i: usize = 0;
    while i < paths.len()
        invariant
            i <= paths@.len(),
            pv == crate::candidates::paths_view(paths@),
            n@ == name@,
            find_attachment_from(pv, name@, i as int) == find_attachment_from(pv, name@, 0),
        decreases paths@.len() - i,
    {
        let p = chars_of(paths[i].as_str());
        assert(pv[i as int] == paths@[i as int]@);
        let hit = match file_name_bounds(&p) {
            Some((s, e)) => eq_ignore_ascii_case(&copy_range(&p, s, e), &n),
            None => false,
        };
        if hit {
            return Some(i);
        }
        i = i + 1;
    }
    None
}

/// The file name of the `ix`-th new diagram: `diagram-ix.excalidraw`.
pub open spec fn diagram_name_spec(ix: nat) -> Seq<char> {
    seq!['d', 'i', 'a', 'g', 'r', 'a', 'm', '-'] + decimal(ix) + seq![
        '.',
        'e',
        'x',
        'c',
        'a',
        'l',
        'i',
        'd',
        'r',
        'a',
        'w',
    ]
}

/// The file name tried for the `ix`-th new diagram.
pub fn diagram_name(ix: usize) -> (r: String)
    ensures
        r@ == diagram_name_spec(ix as nat),
{
    let digits = decimal_digits(ix);
    let mut out: Vec<char> = vec!['d', 'i', 'a', 'g', 'r', 'a', 'm', '-'];
    let ghost base = out@;
    let mut i: usize = 0;
    while i < digits.len()
        invariant
            i <= digits@.len(),
            out@ == base + digits@.take(i as int),
        decreases digits@.len() - i,
    {
        out.push(digits[i]);
        i = i + 1;
        assert(out@ =~= base + digits@.take(i as int));
    }
    assert(digits@.take(i as int) =~= digits@);
    let ghost mid = out@;
    let tail: Vec<char> = vec!['.', 'e', 'x', 'c', 'a', 'l', 'i', 'd', 'r', 'a', 'w'];
    let mut j: usize = 0;
    while j < tail.len()
        invariant
            j <= tail@.len(),
            out@ == mid + tail@.take(j as int),
        decreases tail@.len() - j,
    {
        out.push(tail[j]);
        j = j + 1;
        assert(out@ =~= mid + tail@.take(j as int));
    }
    assert(tail@.take(j as int) =~= tail@);
    assert(out@ =~= diagram_name_spec(ix as nat));
    string_of(&out)
}

} // verus!
