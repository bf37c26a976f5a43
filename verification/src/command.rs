//! Commands of the command palette, and the candidates it lists for them.
use vstd::prelude::*;

use crate::text::to_owned;

verus! {

broadcast use vstd::string::group_string_axioms;

/// A command that can be discovered and executed from the command palette.
#[derive(Clone, Copy, Debug)]
pub struct Command {
    /// Unique identifier used for execution dispatch.
    pub id: &'static str,
    /// Human-readable name shown in the palette.
    pub name: &'static str,
    /// Short description of what the command does.
    pub description: &'static str,
    /// Alternative names that also match (e.g. "w" for "write").
    pub aliases: &'static [&'static str],
    /// Optional keybinding hint shown in the palette.
    pub binding: Option<&'static str>,
}

/// What a command holds.
pub struct CommandInfo {
    pub id: Seq<char>,
    pub name: Seq<char>,
    pub description: Seq<char>,
    pub aliases: Seq<Seq<char>>,
    pub binding: Option<Seq<char>>,
}

impl View for Command {
    type V = CommandInfo;

    open spec fn view(&self) -> CommandInfo {
        CommandInfo {
            id: self.id@,
            name: self.name@,
            description: self.description@,
            aliases: self.aliases@.map_values(|a: &str| a@),
            binding: match self.binding {
                Some(b) => Some(b@),
                None => None,
            },
        }
    }
}

/// The views of a list of commands.
pub open spec fn commands_info(cs: Seq<Command>) -> Seq<CommandInfo> {
    cs.map_values(|c: Command| c@)
}

/// The commands available in every context, in palette order.
pub open spec fn global_command_table() -> Seq<CommandInfo> {
    seq![
        CommandInfo {
            id: "write"@,
            name: "Save"@,
            description: "Save current note to disk"@,
            aliases: seq!["w"@, "save"@],
            binding: Some(":w"@),
        },
        CommandInfo {
            id: "quit"@,
            name: "Close Secondary or Quit"@,
            description: "Close the focused secondary slot, otherwise quit"@,
            aliases: seq!["q"@, "exit"@],
            binding: Some(":q"@),
        },
        CommandInfo {
            id: "wq"@,
            name: "Save and Quit"@,
            description: "Save current note and quit"@,
            aliases: seq!["x"@],
            binding: Some(":wq"@),
        },
        CommandInfo {
            id: "vault-switch"@,
            name: "Switch Vault"@,
            description: "Switch to a recent vault"@,
            aliases: seq!["vault"@, "vaults"@, "switch-vault"@],
            binding: Some(":vault-switch"@),
        },
        CommandInfo {
            id: "vault-open"@,
            name: "Open Vault"@,
            description: "Browse filesystem to open a vault"@,
            aliases: seq!["open-vault"@],
            binding: Some(":vault-open"@),
        },
        CommandInfo {
            id: "notes"@,
            name: "Find Note"@,
            description: "Search and open a note in current vault"@,
            aliases: seq!["find-note"@, "find"@, "note"@],
            binding: Some("Ctrl+P"@),
        },
        CommandInfo {
            id: "edit"@,
            name: "Edit File"@,
            description: "Open a file by path"@,
            aliases: seq!["e"@, "open"@],
            binding: Some(":e <path>"@),
        },
        CommandInfo {
            id: "set"@,
            name: "Set Option"@,
            description: "Set an editor option"@,
            aliases: Seq::<Seq<char>>::empty(),
            binding: Some(":set <option>"@),
        },
        CommandInfo {
            id: "set-vim"@,
            name: "Enable Vim Mode"@,
            description: "Enable vim keybindings"@,
            aliases: Seq::<Seq<char>>::empty(),
            binding: None,
        },
        CommandInfo {
            id: "set-novim"@,
            name: "Disable Vim Mode"@,
            description: "Disable vim keybindings"@,
            aliases: Seq::<Seq<char>>::empty(),
            binding: None,
        },
        CommandInfo {
            id: "nohlsearch"@,
            name: "Clear Search Highlighting"@,
            description: "Remove search result highlighting"@,
            aliases: seq!["noh"@],
            binding: Some(":noh"@),
        },
        CommandInfo {
            id: "toggle-vim"@,
            name: "Toggle Vim Mode"@,
            description: "Toggle vim mode on/off"@,
            aliases: Seq::<Seq<char>>::empty(),
            binding: None,
        },
        CommandInfo {
            id: "open-graph"@,
            name: "Open Graph"@,
            description: "Open the vault graph in the secondary slot"@,
            aliases: seq!["graph"@],
            binding: None,
        },
        CommandInfo {
            id: "diagram-new"@,
            name: "New Diagram"@,
            description: "Create a new excalidraw diagram, link it, and open the editor"@,
            aliases: seq!["new-diagram"@, "diagram"@],
            binding: None,
        },
        CommandInfo {
            id: "diagram-import"@,
            name: "Import Diagram"@,
            description: "Import a .drawio or .excalidraw file into diagrams/ and link it"@,
            aliases: seq!["import-diagram"@],
            binding: Some(":diagram-import <path>"@),
        },
        CommandInfo {
            id: "toggle-secondary-maximize"@,
            name: "Toggle Secondary Maximize"@,
            description: "Toggle the secondary slot between side-by-side and full width"@,
            aliases: seq!["secondary-maximize"@, "maximize-tool"@],
            binding: None,
        },
        CommandInfo {
            id: "close-secondary"@,
            name: "Close Secondary"@,
            description: "Close the secondary slot and return focus to the editor"@,
            aliases: Seq::<Seq<char>>::empty(),
            binding: None,
        },
        CommandInfo {
            id: "backlinks"@,
            name: "Backlinks"@,
            description: "Show notes that link to the current note"@,
            aliases: seq!["bl"@, "references"@],
            binding: None,
        },
        CommandInfo {
            id: "today"@,
            name: "Today's Journal"@,
            description: "Open or create today's journal note"@,
            aliases: seq!["daily"@, "journal"@],
            binding: None,
        },
        CommandInfo {
            id: "tags"@,
            name: "Tags"@,
            description: "List all tags in the vault"@,
            aliases: Seq::<Seq<char>>::empty(),
            binding: None,
        },
        CommandInfo {
            id: "tag"@,
            name: "Tag Search"@,
            description: "Notes with a specific tag"@,
            aliases: Seq::<Seq<char>>::empty(),
            binding: None,
        },
        CommandInfo {
            id: "orphans"@,
            name: "Orphan Notes"@,
            description: "Notes with no incoming or outgoing links"@,
            aliases: Seq::<Seq<char>>::empty(),
            binding: None,
        },
        CommandInfo {
            id: "search-content"@,
            name: "Search Content"@,
            description: "Full-text search across notes"@,
            aliases: seq!["search"@, "grep"@],
            binding: Some("Ctrl+Shift+F"@),
        },
        CommandInfo {
            id: "rename"@,
            name: "Rename Note"@,
            description: "Update the current note's title (no file rename - IDs stay stable)"@,
            aliases: seq!["rn"@],
            binding: Some(":rename <title>"@),
        },
        CommandInfo {
            id: "insert-links-by-tag"@,
            name: "Insert Links by Tag"@,
            description: "Insert wikilinks to all notes with a tag (MOC helper)"@,
            aliases: seq!["moc"@],
            binding: Some(":moc <tag>"@),
        },
        CommandInfo {
            id: "vault-forget"@,
            name: "Forget Vault"@,
            description: "Remove a vault from the recent-vaults list"@,
            aliases: seq!["forget-vault"@],
            binding: Some(":vault-forget <path>"@),
        },
        CommandInfo {
            id: "toggle-backlinks"@,
            name: "Toggle Backlinks"@,
            description: "Show or hide backlinks in the secondary slot"@,
            aliases: seq!["backlinks-panel"@],
            binding: Some("Ctrl+Shift+B"@),
        },
        CommandInfo {
            id: "attach"@,
            name: "Attach from Clipboard"@,
            description: "Save clipboard image to attachments/ and insert a link"@,
            aliases: seq!["paste-image"@],
            binding: None,
        },
        CommandInfo {
            id: "theme"@,
            name: "Theme"@,
            description: "Select an application theme"@,
            aliases: seq!["themes"@, "color-scheme"@],
            binding: Some(":theme"@),
        },
    ]
}

/// Global commands available in every item context.
pub fn global_commands() -> (r: Vec<Command>)
    ensures
        commands_info(r@) == global_command_table(),
{
    let r = vec![
        Command {
            id: "write",
            name: "Save",
            description: "Save current note to disk",
            aliases: &["w", "save"],
            binding: Some(":w"),
        },
        Command {
            id: "quit",
            name: "Close Secondary or Quit",
            description: "Close the focused secondary slot, otherwise quit",
            aliases: &["q", "exit"],
            binding: Some(":q"),
        },
        Command {
            id: "wq",
            name: "Save and Quit",
            description: "Save current note and quit",
            aliases: &["x"],
            binding: Some(":wq"),
        },
        Command {
            id: "vault-switch",
            name: "Switch Vault",
            description: "Switch to a recent vault",
            aliases: &["vault", "vaults", "switch-vault"],
            binding: Some(":vault-switch"),
        },
        Command {
            id: "vault-open",
            name: "Open Vault",
            description: "Browse filesystem to open a vault",
            aliases: &["open-vault"],
            binding: Some(":vault-open"),
        },
        Command {
            id: "notes",
            name: "Find Note",
            description: "Search and open a note in current vault",
            aliases: &["find-note", "find", "note"],
            binding: Some("Ctrl+P"),
        },
        Command {
            id: "edit",
            name: "Edit File",
            description: "Open a file by path",
            aliases: &["e", "open"],
            binding: Some(":e <path>"),
        },
        Command {
            id: "set",
            name: "Set Option",
            description: "Set an editor option",
            aliases: &[],
            binding: Some(":set <option>"),
        },
        Command {
            id: "set-vim",
            name: "Enable Vim Mode",
            description: "Enable vim keybindings",
            aliases: &[],
            binding: None,
        },
        Command {
            id: "set-novim",
            name: "Disable Vim Mode",
            description: "Disable vim keybindings",
            aliases: &[],
            binding: None,
        },
        Command {
            id: "nohlsearch",
            name: "Clear Search Highlighting",
            description: "Remove search result highlighting",
            aliases: &["noh"],
            binding: Some(":noh"),
        },
        Command {
            id: "toggle-vim",
            name: "Toggle Vim Mode",
            description: "Toggle vim mode on/off",
            aliases: &[],
            binding: None,
        },
        Command {
            id: "open-graph",
            name: "Open Graph",
            description: "Open the vault graph in the secondary slot",
            aliases: &["graph"],
            binding: None,
        },
        Command {
            id: "diagram-new",
            name: "New Diagram",
            description: "Create a new excalidraw diagram, link it, and open the editor",
            aliases: &["new-diagram", "diagram"],
            binding: None,
        },
        Command {
            id: "diagram-import",
            name: "Import Diagram",
            description: "Import a .drawio or .excalidraw file into diagrams/ and link it",
            aliases: &["import-diagram"],
            binding: Some(":diagram-import <path>"),
        },
        Command {
            id: "toggle-secondary-maximize",
            name: "Toggle Secondary Maximize",
            description: "Toggle the secondary slot between side-by-side and full width",
            aliases: &["secondary-maximize", "maximize-tool"],
            binding: None,
        },
        Command {
            id: "close-secondary",
            name: "Close Secondary",
            description: "Close the secondary slot and return focus to the editor",
            aliases: &[],
            binding: None,
        },
        Command {
            id: "backlinks",
            name: "Backlinks",
            description: "Show notes that link to the current note",
            aliases: &["bl", "references"],
            binding: None,
        },
        Command {
            id: "today",
            name: "Today's Journal",
            description: "Open or create today's journal note",
            aliases: &["daily", "journal"],
            binding: None,
        },
        Command {
            id: "tags",
            name: "Tags",
            description: "List all tags in the vault",
            aliases: &[],
            binding: None,
        },
        Command {
            id: "tag",
            name: "Tag Search",
            description: "Notes with a specific tag",
            aliases: &[],
            binding: None,
        },
        Command {
            id: "orphans",
            name: "Orphan Notes",
            description: "Notes with no incoming or outgoing links",
            aliases: &[],
            binding: None,
        },
        Command {
            id: "search-content",
            name: "Search Content",
            description: "Full-text search across notes",
            aliases: &["search", "grep"],
            binding: Some("Ctrl+Shift+F"),
        },
        Command {
            id: "rename",
            name: "Rename Note",
            description: "Update the current note's title (no file rename - IDs stay stable)",
            aliases: &["rn"],
            binding: Some(":rename <title>"),
        },
        Command {
            id: "insert-links-by-tag",
            name: "Insert Links by Tag",
            description: "Insert wikilinks to all notes with a tag (MOC helper)",
            aliases: &["moc"],
            binding: Some(":moc <tag>"),
        },
        Command {
            id: "vault-forget",
            name: "Forget Vault",
            description: "Remove a vault from the recent-vaults list",
            aliases: &["forget-vault"],
            binding: Some(":vault-forget <path>"),
        },
        Command {
            id: "toggle-backlinks",
            name: "Toggle Backlinks",
            description: "Show or hide backlinks in the secondary slot",
            aliases: &["backlinks-panel"],
            binding: Some("Ctrl+Shift+B"),
        },
        Command {
            id: "attach",
            name: "Attach from Clipboard",
            description: "Save clipboard image to attachments/ and insert a link",
            aliases: &["paste-image"],
            binding: None,
        },
        Command {
            id: "theme",
            name: "Theme",
            description: "Select an application theme",
            aliases: &["themes", "color-scheme"],
            binding: Some(":theme"),
        },
    ];
    proof {
        assert(r@[0]@.aliases =~= global_command_table()[0].aliases);
        assert(r@[1]@.aliases =~= global_command_table()[1].aliases);
        assert(r@[2]@.aliases =~= global_command_table()[2].aliases);
        assert(r@[3]@.aliases =~= global_command_table()[3].aliases);
        assert(r@[4]@.aliases =~= global_command_table()[4].aliases);
        assert(r@[5]@.aliases =~= global_command_table()[5].aliases);
        assert(r@[6]@.aliases =~= global_command_table()[6].aliases);
        assert(r@[7]@.aliases =~= global_command_table()[7].aliases);
        assert(r@[8]@.aliases =~= global_command_table()[8].aliases);
        assert(r@[9]@.aliases =~= global_command_table()[9].aliases);
        assert(r@[10]@.aliases =~= global_command_table()[10].aliases);
        assert(r@[11]@.aliases =~= global_command_table()[11].aliases);
        assert(r@[12]@.aliases =~= global_command_table()[12].aliases);
        assert(r@[13]@.aliases =~= global_command_table()[13].aliases);
        assert(r@[14]@.aliases =~= global_command_table()[14].aliases);
        assert(r@[15]@.aliases =~= global_command_table()[15].aliases);
        assert(r@[16]@.aliases =~= global_command_table()[16].aliases);
        assert(r@[17]@.aliases =~= global_command_table()[17].aliases);
        assert(r@[18]@.aliases =~= global_command_table()[18].aliases);
        assert(r@[19]@.aliases =~= global_command_table()[19].aliases);
        assert(r@[20]@.aliases =~= global_command_table()[20].aliases);
        assert(r@[21]@.aliases =~= global_command_table()[21].aliases);
        assert(r@[22]@.aliases =~= global_command_table()[22].aliases);
        assert(r@[23]@.aliases =~= global_command_table()[23].aliases);
        assert(r@[24]@.aliases =~= global_command_table()[24].aliases);
        assert(r@[25]@.aliases =~= global_command_table()[25].aliases);
        assert(r@[26]@.aliases =~= global_command_table()[26].aliases);
        assert(r@[27]@.aliases =~= global_command_table()[27].aliases);
        assert(r@[28]@.aliases =~= global_command_table()[28].aliases);
    }
    assert(commands_info(r@) =~= global_command_table());
    r
}

/// An entry the command palette offers.
#[derive(Debug, PartialEq, Eq)]
pub struct Candidate {
    pub label: String,
    pub detail: Option<String>,
    pub is_action: bool,
    pub data: String,
}

/// What a candidate holds.
pub struct CandidateView {
    pub label: Seq<char>,
    pub detail: Option<Seq<char>>,
    pub is_action: bool,
    pub data: Seq<char>,
}

impl View for Candidate {
    type V = CandidateView;

    open spec fn view(&self) -> CandidateView {
        CandidateView {
            label: self.label@,
            detail: match self.detail {
                Some(d) => Some(d@),
                None => None,
            },
            is_action: self.is_action,
            data: self.data@,
        }
    }
}

/// The palette entry for a command: labelled with its name, carrying its id,
/// detailed by its description followed by `  [binding]` when it has one.
pub open spec fn candidate_of(c: CommandInfo) -> CandidateView {
    CandidateView {
        label: c.name,
        detail: Some(
            match c.binding {
                Some(b) => c.description + seq![' ', ' ', '['] + b + seq![']'],
                None => c.description,
            },
        ),
        is_action: false,
        data: c.id,
    }
}

/// The palette entry for a command.
pub fn command_to_candidate(cmd: &Command) -> (r: Candidate)
    ensures
        r@ == candidate_of(cmd@),
{
    let detail = match cmd.binding {
        Some(binding) => {
            let mut d = to_owned(cmd.description);
            proof {
                reveal_strlit("  [");
                reveal_strlit("]");
                assert("  ["@ =~= seq![' ', ' ', '[']);
                assert("]"@ =~= seq![']']);
            }
            d.append("  [");
            d.append(binding);
            d.append("]");
            d
        },
        None => to_owned(cmd.description),
    };
    Candidate { label: to_owned(cmd.name), detail: Some(detail), is_action: false, data: to_owned(cmd.id) }
}

} // verus!
