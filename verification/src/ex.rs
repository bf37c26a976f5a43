//! Ex-style commands typed after `:` (`:w`, `:q`, `:set vim`, ...): what
//! each asks the editor to do.
use vstd::prelude::*;

use crate::code_edit::fence::{copy_range, trim, trimmed};
use crate::keymap::EditorMode;
use crate::resource::first_index;
use crate::text::{chars_of, str_eq, string_of, to_owned};

verus! {

broadcast use vstd::string::group_string_axioms;

/// The vim state an editor command sees.
#[derive(Clone, Copy, Debug, PartialEq, Eq)]
pub struct VimSnapshot {
    pub vim_enabled: bool,
    pub insert_active: bool,
    pub visual_active: bool,
}

/// A change an editor command asks of the window around it.
#[derive(Debug, PartialEq, Eq)]
pub enum ItemAction {
    /// Show a status message.
    SetMessage(String),
    /// Turn vim emulation on or off.
    SetVimEnabled(bool),
    /// Copy the keymap's vim flags into the editor.
    SyncVimFlags,
    /// Switch the vim mode.
    SetVimMode(EditorMode),
}

/// What an action holds.
pub enum ActionView {
    SetMessage(Seq<char>),
    SetVimEnabled(bool),
    SyncVimFlags,
    SetVimMode(EditorMode),
}

/// The view of an action.
pub open spec fn action_view(a: ItemAction) -> ActionView {
    match a {
        ItemAction::SetMessage(m) => ActionView::SetMessage(m@),
        ItemAction::SetVimEnabled(b) => ActionView::SetVimEnabled(b),
        ItemAction::SyncVimFlags => ActionView::SyncVimFlags,
        ItemAction::SetVimMode(m) => ActionView::SetVimMode(m),
    }
}

/// The views of a list of actions.
pub open spec fn actions_view(a: Seq<ItemAction>) -> Seq<ActionView> {
    a.map_values(|x: ItemAction| action_view(x))
}

/// `true` or `false`, written out.
pub open spec fn bool_text(b: bool) -> Seq<char> {
    if b {
        "true"@
    } else {
        "false"@
    }
}

/// The short name of the vim mode a snapshot is in.
pub open spec fn mode_short(v: VimSnapshot) -> Seq<char> {
    if v.visual_active {
        "VIS"@
    } else if v.insert_active {
        "INS"@
    } else {
        "NOR"@
    }
}

/// What `:set` with the given arguments answers, and the actions it asks
/// for.
pub open spec fn set_spec(args: Seq<char>, v: VimSnapshot) -> (Seq<char>, Seq<ActionView>) {
    if args.len() == 0 {
        ("vim="@ + bool_text(v.vim_enabled) + " mode="@ + mode_short(v), Seq::empty())
    } else if args == "vim"@ {
        (
            "Vim mode enabled"@,
            seq![ActionView::SetVimEnabled(true), ActionView::SyncVimFlags],
        )
    } else if args == "novim"@ {
        (
            "Vim mode disabled"@,
            seq![ActionView::SetVimEnabled(false), ActionView::SyncVimFlags],
        )
    } else if args == "number"@ || args == "nu"@ || args == "nonumber"@ || args == "nonu"@ {
        ("Line numbers not yet implemented"@, Seq::empty())
    } else if args == "wrap"@ {
        ("Soft wrap is enabled"@, Seq::empty())
    } else if args == "nowrap"@ {
        ("Soft wrap cannot be disabled yet"@, Seq::empty())
    } else {
        ("Unknown option: "@ + args, Seq::empty())
    }
}

/// Joins two strings.
fn joined2(a: &str, b: &str) -> (r: String)
    ensures
        r@ == a@ + b@,
{
    let mut r = to_owned(a);
    r.append(b);
    r
}

/// Answers `:set` with the given arguments: a status message and the
/// actions to take.
pub fn handle_set_command(args: &str, vim: &VimSnapshot) -> (r: (String, Vec<ItemAction>))
    ensures
        (r.0@, actions_view(r.1@)) == set_spec(args@, *vim),
{
    let n = args.unicode_len();
    if n == 0 {
        let mode_label = if vim.visual_active {
            "VIS"
        } else if vim.insert_active {
            "INS"
        } else {
            "NOR"
        };
        let flag = if vim.vim_enabled {
            "true"
        } else {
            "false"
        };
        let head = joined2("vim=", flag);
        let mid = joined2(head.as_str(), " mode=");
        let msg = joined2(mid.as_str(), mode_label);
        let actions: Vec<ItemAction> = Vec::new();
        assert(actions_view(actions@) =~= Seq::<ActionView>::empty());
        return (msg, actions);
    }
    if str_eq(args, "vim") {
        let actions = vec![ItemAction::SetVimEnabled(true), ItemAction::SyncVimFlags];
        assert(actions_view(actions@) =~= seq![ActionView::SetVimEnabled(true), ActionView::SyncVimFlags]);
        return (to_owned("Vim mode enabled"), actions);
    }
    if str_eq(args, "novim") {
        let actions = vec![ItemAction::SetVimEnabled(false), ItemAction::SyncVimFlags];
        assert(actions_view(actions@) =~= seq![ActionView::SetVimEnabled(false), ActionView::SyncVimFlags]);
        return (to_owned("Vim mode disabled"), actions);
    }
    let actions: Vec<ItemAction> = Vec::new();
    assert(actions_view(actions@) =~= Seq::<ActionView>::empty());
    if str_eq(args, "number") || str_eq(args, "nu") || str_eq(args, "nonumber") || str_eq(args, "nonu") {
        return (to_owned("Line numbers not yet implemented"), actions);
    }
    if str_eq(args, "wrap") {
        return (to_owned("Soft wrap is enabled"), actions);
    }
    if str_eq(args, "nowrap") {
        return (to_owned("Soft wrap cannot be disabled yet"), actions);
    }
    (joined2("Unknown option: ", args), actions)
}

/// An ex command line split into the command and its arguments: the line
/// is trimmed, the command runs up to the first space, and the arguments
/// (trimmed) follow it.
pub open spec fn ex_parts(input: Seq<char>) -> (Seq<char>, Seq<char>) {
    let t = trim(input);
    let sp = first_index(t, ' ', 0);
    if sp < 0 {
        (t, Seq::empty())
    } else {
        (t.take(sp), trim(t.skip(sp + 1)))
    }
}

/// What an ex command asks for.
#[derive(Debug, PartialEq, Eq)]
pub enum ExCommand {
    /// `:w`, `:write`: save (the status reads "Saving...").
    Save,
    /// `:q`, `:quit`.
    Quit,
    /// `:wq`, `:x`: save, then quit.
    SaveAndQuit,
    /// `:set` with its arguments.
    SetOption(String),
    /// `:noh`, `:nohlsearch`: the status reads that highlighting is cleared.
    ClearHighlight,
    /// `:e`, `:edit` with a path.
    Edit(String),
    /// `:e`, `:edit` without a path: the status asks for one.
    EditWithoutPath,
    /// `:vault`, `:vaults`, `:vault-switch`, `:switch-vault`.
    VaultSwitch,
    /// `:vault-open`, `:open-vault`.
    VaultOpen,
    /// `:notes`, `:find-note`, `:find`, `:note`.
    NoteSearch,
    /// Anything else: the status reads `E492: Not an editor command: <cmd>`.
    Unknown(String),
}

/// What an ex command holds.
pub enum ExView {
    Save,
    Quit,
    SaveAndQuit,
    SetOption(Seq<char>),
    ClearHighlight,
    Edit(Seq<char>),
    EditWithoutPath,
    VaultSwitch,
    VaultOpen,
    NoteSearch,
    Unknown(Seq<char>),
}

/// The view of an ex command.
pub open spec fn ex_view(c: ExCommand) -> ExView {
    match c {
        ExCommand::Save => ExView::Save,
        ExCommand::Quit => ExView::Quit,
        ExCommand::SaveAndQuit => ExView::SaveAndQuit,
        ExCommand::SetOption(a) => ExView::SetOption(a@),
        ExCommand::ClearHighlight => ExView::ClearHighlight,
        ExCommand::Edit(a) => ExView::Edit(a@),
        ExCommand::EditWithoutPath => ExView::EditWithoutPath,
        ExCommand::VaultSwitch => ExView::VaultSwitch,
        ExCommand::VaultOpen => ExView::VaultOpen,
        ExCommand::NoteSearch => ExView::NoteSearch,
        ExCommand::Unknown(c) => ExView::Unknown(c@),
    }
}

/// What the ex command line `input` asks for.
pub open spec fn ex_spec(input: Seq<char>) -> ExView {
    let (cmd, args) = ex_parts(input);
    if cmd == "w"@ || cmd == "write"@ {
        ExView::Save
    } else if cmd == "q"@ || cmd == "quit"@ {
        ExView::Quit
    } else if cmd == "wq"@ || cmd == "x"@ {
        ExView::SaveAndQuit
    } else if cmd == "set"@ {
        ExView::SetOption(args)
    } else if cmd == "noh"@ || cmd == "nohlsearch"@ {
        ExView::ClearHighlight
    } else if cmd == "e"@ || cmd == "edit"@ {
        if args.len() == 0 {
            ExView::EditWithoutPath
        } else {
            ExView::Edit(args)
        }
    } else if cmd == "vault"@ || cmd == "vaults"@ || cmd == "vault-switch"@ || cmd
        == "switch-vault"@ {
        ExView::VaultSwitch
    } else if cmd == "vault-open"@ || cmd == "open-vault"@ {
        ExView::VaultOpen
    } else if cmd == "notes"@ || cmd == "find-note"@ || cmd == "find"@ || cmd == "note"@ {
        ExView::NoteSearch
    } else {
        ExView::Unknown(cmd)
    }
}

/// Which command word asks for which of saving and quitting, whatever the
/// arguments and the surrounding spaces: `:w`/`:write` save only,
/// `:q`/`:quit` quit only, and `:wq`/`:x` save and then quit; no other
/// command word saves or quits.
pub proof fn lemma_save_and_quit_words(input: Seq<char>)
    ensures
        ({
            let cmd = ex_parts(input).0;
            &&& ex_spec(input) == ExView::SaveAndQuit <==> (cmd == "wq"@ || cmd == "x"@)
            &&& ex_spec(input) == ExView::Save <==> (cmd == "w"@ || cmd == "write"@)
            &&& ex_spec(input) == ExView::Quit <==> (cmd == "q"@ || cmd == "quit"@)
        }),
{
    reveal_strlit("w");
    reveal_strlit("write");
    reveal_strlit("q");
    reveal_strlit("quit");
    reveal_strlit("wq");
    reveal_strlit("x");
    let cmd = ex_parts(input).0;
    assert("w"@ != "wq"@ && "w"@ != "x"@ && "write"@ != "wq"@ && "write"@ != "x"@) by {
        assert("w"@.len() == 1 && "wq"@.len() == 2 && "write"@.len() == 5 && "x"@.len() == 1);
        assert("w"@[0] != "x"@[0]);
    }
    assert("q"@ != "wq"@ && "q"@ != "x"@ && "quit"@ != "wq"@ && "quit"@ != "x"@) by {
        assert("q"@.len() == 1 && "quit"@.len() == 4);
        assert("q"@[0] != "x"@[0]);
    }
    assert("w"@ != "q"@ && "w"@ != "quit"@ && "write"@ != "q"@ && "write"@ != "quit"@) by {
        assert("w"@[0] != "q"@[0]);
        assert("write"@[0] != "quit"@[0]);
    }
}

/// `:set` passes its arguments on as they were typed (trimmed), and
/// `:e`/`:edit` opens the path in its arguments, or asks for one when
/// there is none; no other command word sets an option or edits.
pub proof fn lemma_set_and_edit_words(input: Seq<char>)
    ensures
        ({
            let (cmd, args) = ex_parts(input);
            &&& ex_spec(input) is SetOption <==> cmd == "set"@
            &&& cmd == "set"@ ==> ex_spec(input) == ExView::SetOption(args)
            &&& (ex_spec(input) is Edit || ex_spec(input) is EditWithoutPath) <==> (cmd == "e"@ || cmd == "edit"@)
            &&& (cmd == "e"@ || cmd == "edit"@) ==> ex_spec(input) == (if args.len() == 0 {
                ExView::EditWithoutPath
            } else {
                ExView::Edit(args)
            })
        }),
{
    reveal_strlit("w");
    reveal_strlit("write");
    reveal_strlit("q");
    reveal_strlit("quit");
    reveal_strlit("wq");
    reveal_strlit("x");
    reveal_strlit("set");
    reveal_strlit("noh");
    reveal_strlit("nohlsearch");
    reveal_strlit("e");
    reveal_strlit("edit");
    assert("w"@.len() == 1 && "write"@.len() == 5 && "q"@.len() == 1 && "quit"@.len() == 4 && "wq"@.len()
        == 2 && "x"@.len() == 1 && "set"@.len() == 3 && "noh"@.len() == 3 && "nohlsearch"@.len() == 10
        && "e"@.len() == 1 && "edit"@.len() == 4);
    assert("w"@[0] == 'w' && "write"@[0] == 'w' && "q"@[0] == 'q' && "quit"@[0] == 'q' && "x"@[0] == 'x'
        && "set"@[0] == 's' && "noh"@[0] == 'n' && "e"@[0] == 'e' && "edit"@[0] == 'e');
    let cmd = ex_parts(input).0;
    if cmd == "set"@ {
        assert(cmd != "noh"@) by {
            assert(cmd[0] != "noh"@[0]);
        }
    }
    if cmd == "e"@ || cmd == "edit"@ {
        assert(cmd != "w"@ && cmd != "q"@ && cmd != "x"@) by {
            assert(cmd[0] == 'e');
        }
        assert(cmd != "write"@ && cmd != "quit"@) by {
            assert(cmd[0] == 'e');
        }
    }
}

/// Splits an ex command line into the command and its arguments.
fn split_ex(input: &str) -> (r: (String, String))
    ensures
        (r.0@, r.1@) == ex_parts(input@),
{
    let cs = chars_of(input);
    let t = trimmed(&cs);
    let mut sp: usize = 0;
    while sp < t.len() && t[sp] != ' '
        invariant
            sp <= t@.len(),
            first_index(t@, ' ', sp as int) == first_index(t@, ' ', 0),
        decreases t@.len() - sp,
    {
        sp = sp + 1;
    }
    if sp == t.len() {
        return (string_of(&t), String::new());
    }
    let cmd = copy_range(&t, 0, sp);
    let rest = copy_range(&t, sp + 1, t.len());
    let args = trimmed(&rest);
    proof {
        assert(cmd@ =~= t@.take(sp as int));
        assert(rest@ =~= t@.skip(sp + 1));
    }
    (string_of(&cmd), string_of(&args))
}

/// Reads an ex command line (`:w`, `:set vim`, ...).
pub fn parse_ex_command(input: &str) -> (r: ExCommand)
    ensures
        ex_view(r) == ex_spec(input@),
{
    let (cmd, args) = split_ex(input);
    let c = cmd.as_str();
    if str_eq(c, "w") || str_eq(c, "write") {
        ExCommand::Save
    } else if str_eq(c, "q") || str_eq(c, "quit") {
        ExCommand::Quit
    } else if str_eq(c, "wq") || str_eq(c, "x") {
        ExCommand::SaveAndQuit
    } else if str_eq(c, "set") {
        ExCommand::SetOption(args)
    } else if str_eq(c, "noh") || str_eq(c, "nohlsearch") {
        ExCommand::ClearHighlight
    } else if str_eq(c, "e") || str_eq(c, "edit") {
        if args.as_str().unicode_len() == 0 {
            ExCommand::EditWithoutPath
        } else {
            ExCommand::Edit(args)
        }
    } else if str_eq(c, "vault") || str_eq(c, "vaults") || str_eq(c, "vault-switch") || str_eq(
        c,
        "switch-vault",
    ) {
        ExCommand::VaultSwitch
    } else if str_eq(c, "vault-open") || str_eq(c, "open-vault") {
        ExCommand::VaultOpen
    } else if str_eq(c, "notes") || str_eq(c, "find-note") || str_eq(c, "find") || str_eq(c, "note") {
        ExCommand::NoteSearch
    } else {
        ExCommand::Unknown(cmd)
    }
}

/// An editor command run from the command palette: `set` answers with the
/// vim state, `toggle-vim` flips vim emulation; `None` for commands the
/// palette does not handle here.
pub open spec fn item_command_spec(cmd_id: Seq<char>, v: VimSnapshot) -> Option<Seq<ActionView>> {
    if cmd_id == "set"@ {
        Some(seq![ActionView::SetMessage(set_spec(Seq::empty(), v).0)] + set_spec(Seq::empty(), v).1)
    } else if cmd_id == "toggle-vim"@ {
        Some(seq![ActionView::SetVimEnabled(!v.vim_enabled), ActionView::SyncVimFlags])
    } else {
        None
    }
}

/// Runs an editor command from the command palette.
pub fn item_execute_command(cmd_id: &str, vim: VimSnapshot) -> (r: Option<Vec<ItemAction>>)
    ensures
        match r {
            Some(a) => item_command_spec(cmd_id@, vim) == Some(actions_view(a@)),
            None => item_command_spec(cmd_id@, vim) is None,
        },
{
    if str_eq(cmd_id, "set") {
        let (msg, set_actions) = handle_set_command("", &vim);
        proof {
            reveal_strlit("");
        }
        let mut actions = vec![ItemAction::SetMessage(msg)];
        let mut more = set_actions;
        let ghost before = actions@;
        let ghost extra = more@;
        actions.append(&mut more);
        assert(actions_view(actions@) =~= actions_view(before) + actions_view(extra));
        Some(actions)
    } else if str_eq(cmd_id, "toggle-vim") {
        let actions = vec![ItemAction::SetVimEnabled(!vim.vim_enabled), ItemAction::SyncVimFlags];
        assert(actions_view(actions@) =~= seq![
            ActionView::SetVimEnabled(!vim.vim_enabled),
            ActionView::SyncVimFlags,
        ]);
        Some(actions)
    } else {
        None
    }
}

} // verus!
