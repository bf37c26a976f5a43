//! The commands that editor, diagram and graph panes add to the command
//! palette.
use vstd::prelude::*;

use crate::command::{commands_info, Command, CommandInfo};

verus! {

/// The outline commands of a note editor, in palette order.
pub open spec fn editor_command_table() -> Seq<CommandInfo> {
    seq![
        CommandInfo {
            id: "outline-cycle-fold"@,
            name: "Outline: Toggle Fold"@,
            description: "Cycle fold state on current heading"@,
            aliases: seq!["fold"@, "toggle-fold"@],
            binding: Some("Tab"@),
        },
        CommandInfo {
            id: "outline-global-cycle"@,
            name: "Outline: Global Cycle"@,
            description: "Cycle all headings: overview → children → show all"@,
            aliases: seq!["fold-all"@, "unfold-all"@],
            binding: Some("S-Tab"@),
        },
        CommandInfo {
            id: "outline-promote"@,
            name: "Outline: Promote Heading"@,
            description: "Decrease heading level (## → #)"@,
            aliases: seq!["promote"@],
            binding: Some("M-left"@),
        },
        CommandInfo {
            id: "outline-demote"@,
            name: "Outline: Demote Heading"@,
            description: "Increase heading level (# → ##)"@,
            aliases: seq!["demote"@],
            binding: Some("M-right"@),
        },
        CommandInfo {
            id: "outline-move-up"@,
            name: "Outline: Move Subtree Up"@,
            description: "Swap heading subtree with previous sibling"@,
            aliases: Seq::empty(),
            binding: Some("M-up"@),
        },
        CommandInfo {
            id: "outline-move-down"@,
            name: "Outline: Move Subtree Down"@,
            description: "Swap heading subtree with next sibling"@,
            aliases: Seq::empty(),
            binding: Some("M-down"@),
        },
        CommandInfo {
            id: "outline-next-heading"@,
            name: "Outline: Next Heading"@,
            description: "Jump to next heading"@,
            aliases: Seq::empty(),
            binding: Some("M-n"@),
        },
        CommandInfo {
            id: "outline-prev-heading"@,
            name: "Outline: Previous Heading"@,
            description: "Jump to previous heading"@,
            aliases: Seq::empty(),
            binding: Some("M-p"@),
        },
    ]
}

/// Commands for the command palette when the editor is active.
pub fn editor_commands() -> (r: Vec<Command>)
    ensures
        commands_info(r@) == editor_command_table(),
{
    let r = vec![
        Command {
            id: "outline-cycle-fold",
            name: "Outline: Toggle Fold",
            description: "Cycle fold state on current heading",
            aliases: &["fold", "toggle-fold"],
            binding: Some("Tab"),
        },
        Command {
            id: "outline-global-cycle",
            name: "Outline: Global Cycle",
            description: "Cycle all headings: overview → children → show all",
            aliases: &["fold-all", "unfold-all"],
            binding: Some("S-Tab"),
        },
        Command {
            id: "outline-promote",
            name: "Outline: Promote Heading",
            description: "Decrease heading level (## → #)",
            aliases: &["promote"],
            binding: Some("M-left"),
        },
        Command {
            id: "outline-demote",
            name: "Outline: Demote Heading",
            description: "Increase heading level (# → ##)",
            aliases: &["demote"],
            binding: Some("M-right"),
        },
        Command {
            id: "outline-move-up",
            name: "Outline: Move Subtree Up",
            description: "Swap heading subtree with previous sibling",
            aliases: &[],
            binding: Some("M-up"),
        },
        Command {
            id: "outline-move-down",
            name: "Outline: Move Subtree Down",
            description: "Swap heading subtree with next sibling",
            aliases: &[],
            binding: Some("M-down"),
        },
        Command {
            id: "outline-next-heading",
            name: "Outline: Next Heading",
            description: "Jump to next heading",
            aliases: &[],
            binding: Some("M-n"),
        },
        Command {
            id: "outline-prev-heading",
            name: "Outline: Previous Heading",
            description: "Jump to previous heading",
            aliases: &[],
            binding: Some("M-p"),
        },
    ];
    proof {
        assert(r@[0]@.aliases =~= editor_command_table()[0].aliases);
        assert(r@[1]@.aliases =~= editor_command_table()[1].aliases);
        assert(r@[2]@.aliases =~= editor_command_table()[2].aliases);
        assert(r@[3]@.aliases =~= editor_command_table()[3].aliases);
        assert(r@[4]@.aliases =~= editor_command_table()[4].aliases);
        assert(r@[5]@.aliases =~= editor_command_table()[5].aliases);
        assert(r@[6]@.aliases =~= editor_command_table()[6].aliases);
        assert(r@[7]@.aliases =~= editor_command_table()[7].aliases);
    }
    assert(commands_info(r@) =~= editor_command_table());
    r
}

/// The commands of a diagram pane, in palette order.
pub open spec fn diagram_command_table() -> Seq<CommandInfo> {
    seq![
        CommandInfo {
            id: "diagram-zoom-in"@,
            name: "Diagram: Zoom In"@,
            description: "Zoom into the diagram"@,
            aliases: Seq::empty(),
            binding: Some("+"@),
        },
        CommandInfo {
            id: "diagram-zoom-out"@,
            name: "Diagram: Zoom Out"@,
            description: "Zoom out of the diagram"@,
            aliases: Seq::empty(),
            binding: Some("-"@),
        },
        CommandInfo {
            id: "diagram-reset-zoom"@,
            name: "Diagram: Reset Zoom"@,
            description: "Reset zoom to 100%"@,
            aliases: Seq::empty(),
            binding: Some("0"@),
        },
        CommandInfo {
            id: "diagram-center"@,
            name: "Diagram: Center"@,
            description: "Reset the diagram pan to origin"@,
            aliases: Seq::empty(),
            binding: Some("c"@),
        },
        CommandInfo {
            id: "diagram-save"@,
            name: "Diagram: Save"@,
            description: "Write the diagram to disk"@,
            aliases: Seq::empty(),
            binding: Some("s"@),
        },
        CommandInfo {
            id: "diagram-delete"@,
            name: "Diagram: Delete Selection"@,
            description: "Delete the selected elements"@,
            aliases: Seq::empty(),
            binding: Some("d"@),
        },
        CommandInfo {
            id: "diagram-tool-select"@,
            name: "Diagram: Select Tool"@,
            description: "Switch to the selection tool"@,
            aliases: Seq::empty(),
            binding: Some("v"@),
        },
        CommandInfo {
            id: "diagram-tool-rectangle"@,
            name: "Diagram: Rectangle Tool"@,
            description: "Draw rectangles"@,
            aliases: Seq::empty(),
            binding: Some("r"@),
        },
        CommandInfo {
            id: "diagram-tool-ellipse"@,
            name: "Diagram: Ellipse Tool"@,
            description: "Draw ellipses"@,
            aliases: Seq::empty(),
            binding: Some("o"@),
        },
        CommandInfo {
            id: "diagram-tool-diamond"@,
            name: "Diagram: Diamond Tool"@,
            description: "Draw diamonds"@,
            aliases: Seq::empty(),
            binding: None,
        },
        CommandInfo {
            id: "diagram-tool-arrow"@,
            name: "Diagram: Arrow Tool"@,
            description: "Draw arrows"@,
            aliases: Seq::empty(),
            binding: Some("a"@),
        },
        CommandInfo {
            id: "diagram-tool-line"@,
            name: "Diagram: Line Tool"@,
            description: "Draw lines"@,
            aliases: Seq::empty(),
            binding: Some("l"@),
        },
        CommandInfo {
            id: "diagram-tool-draw"@,
            name: "Diagram: Freedraw Tool"@,
            description: "Freehand drawing"@,
            aliases: Seq::empty(),
            binding: Some("p"@),
        },
        CommandInfo {
            id: "diagram-tool-text"@,
            name: "Diagram: Text Tool"@,
            description: "Add text"@,
            aliases: Seq::empty(),
            binding: Some("t"@),
        },
        CommandInfo {
            id: "diagram-undo"@,
            name: "Diagram: Undo"@,
            description: "Undo the last change"@,
            aliases: Seq::empty(),
            binding: Some("u"@),
        },
        CommandInfo {
            id: "diagram-redo"@,
            name: "Diagram: Redo"@,
            description: "Redo the last undone change"@,
            aliases: Seq::empty(),
            binding: None,
        },
    ]
}

/// Commands for the command palette when a diagram is active.
pub fn diagram_commands() -> (r: Vec<Command>)
    ensures
        commands_info(r@) == diagram_command_table(),
{
    let r = vec![
        Command {
            id: "diagram-zoom-in",
            name: "Diagram: Zoom In",
            description: "Zoom into the diagram",
            aliases: &[],
            binding: Some("+"),
        },
        Command {
            id: "diagram-zoom-out",
            name: "Diagram: Zoom Out",
            description: "Zoom out of the diagram",
            aliases: &[],
            binding: Some("-"),
        },
        Command {
            id: "diagram-reset-zoom",
            name: "Diagram: Reset Zoom",
            description: "Reset zoom to 100%",
            aliases: &[],
            binding: Some("0"),
        },
        Command {
            id: "diagram-center",
            name: "Diagram: Center",
            description: "Reset the diagram pan to origin",
            aliases: &[],
            binding: Some("c"),
        },
        Command {
            id: "diagram-save",
            name: "Diagram: Save",
            description: "Write the diagram to disk",
            aliases: &[],
            binding: Some("s"),
        },
        Command {
            id: "diagram-delete",
            name: "Diagram: Delete Selection",
            description: "Delete the selected elements",
            aliases: &[],
            binding: Some("d"),
        },
        Command {
            id: "diagram-tool-select",
            name: "Diagram: Select Tool",
            description: "Switch to the selection tool",
            aliases: &[],
            binding: Some("v"),
        },
        Command {
            id: "diagram-tool-rectangle",
            name: "Diagram: Rectangle Tool",
            description: "Draw rectangles",
            aliases: &[],
            binding: Some("r"),
        },
        Command {
            id: "diagram-tool-ellipse",
            name: "Diagram: Ellipse Tool",
            description: "Draw ellipses",
            aliases: &[],
            binding: Some("o"),
        },
        Command {
            id: "diagram-tool-diamond",
            name: "Diagram: Diamond Tool",
            description: "Draw diamonds",
            aliases: &[],
            binding: None,
        },
        Command {
            id: "diagram-tool-arrow",
            name: "Diagram: Arrow Tool",
            description: "Draw arrows",
            aliases: &[],
            binding: Some("a"),
        },
        Command {
            id: "diagram-tool-line",
            name: "Diagram: Line Tool",
            description: "Draw lines",
            aliases: &[],
            binding: Some("l"),
        },
        Command {
            id: "diagram-tool-draw",
            name: "Diagram: Freedraw Tool",
            description: "Freehand drawing",
            aliases: &[],
            binding: Some("p"),
        },
        Command {
            id: "diagram-tool-text",
            name: "Diagram: Text Tool",
            description: "Add text",
            aliases: &[],
            binding: Some("t"),
        },
        Command {
            id: "diagram-undo",
            name: "Diagram: Undo",
            description: "Undo the last change",
            aliases: &[],
            binding: Some("u"),
        },
        Command {
            id: "diagram-redo",
            name: "Diagram: Redo",
            description: "Redo the last undone change",
            aliases: &[],
            binding: None,
        },
    ];
    proof {
        assert(r@[0]@.aliases =~= diagram_command_table()[0].aliases);
        assert(r@[1]@.aliases =~= diagram_command_table()[1].aliases);
        assert(r@[2]@.aliases =~= diagram_command_table()[2].aliases);
        assert(r@[3]@.aliases =~= diagram_command_table()[3].aliases);
        assert(r@[4]@.aliases =~= diagram_command_table()[4].aliases);
        assert(r@[5]@.aliases =~= diagram_command_table()[5].aliases);
        assert(r@[6]@.aliases =~= diagram_command_table()[6].aliases);
        assert(r@[7]@.aliases =~= diagram_command_table()[7].aliases);
        assert(r@[8]@.aliases =~= diagram_command_table()[8].aliases);
        assert(r@[9]@.aliases =~= diagram_command_table()[9].aliases);
        assert(r@[10]@.aliases =~= diagram_command_table()[10].aliases);
        assert(r@[11]@.aliases =~= diagram_command_table()[11].aliases);
        assert(r@[12]@.aliases =~= diagram_command_table()[12].aliases);
        assert(r@[13]@.aliases =~= diagram_command_table()[13].aliases);
        assert(r@[14]@.aliases =~= diagram_command_table()[14].aliases);
        assert(r@[15]@.aliases =~= diagram_command_table()[15].aliases);
    }
    assert(commands_info(r@) =~= diagram_command_table());
    r
}

/// The commands of the graph pane, in palette order.
pub open spec fn graph_command_table() -> Seq<CommandInfo> {
    seq![
        CommandInfo {
            id: "zoom-in"@,
            name: "Graph: Zoom In"@,
            description: "Zoom into the graph"@,
            aliases: Seq::empty(),
            binding: Some("+"@),
        },
        CommandInfo {
            id: "zoom-out"@,
            name: "Graph: Zoom Out"@,
            description: "Zoom out of the graph"@,
            aliases: Seq::empty(),
            binding: Some("-"@),
        },
        CommandInfo {
            id: "reset-zoom"@,
            name: "Graph: Reset Zoom"@,
            description: "Reset zoom to 100%"@,
            aliases: Seq::empty(),
            binding: Some("0"@),
        },
        CommandInfo {
            id: "center-graph"@,
            name: "Graph: Center"@,
            description: "Center the graph view"@,
            aliases: Seq::empty(),
            binding: Some("c"@),
        },
        CommandInfo {
            id: "toggle-local-graph"@,
            name: "Graph: Toggle Local/Global"@,
            description: "Toggle between local (current note) and global graph"@,
            aliases: Seq::empty(),
            binding: Some("l"@),
        },
        CommandInfo {
            id: "close-graph"@,
            name: "Graph: Close"@,
            description: "Close the graph panel"@,
            aliases: Seq::empty(),
            binding: Some("q"@),
        },
    ]
}

/// Commands for the command palette when the graph is active.
pub fn graph_commands() -> (r: Vec<Command>)
    ensures
        commands_info(r@) == graph_command_table(),
{
    let r = vec![
        Command {
            id: "zoom-in",
            name: "Graph: Zoom In",
            description: "Zoom into the graph",
            aliases: &[],
            binding: Some("+"),
        },
        Command {
            id: "zoom-out",
            name: "Graph: Zoom Out",
            description: "Zoom out of the graph",
            aliases: &[],
            binding: Some("-"),
        },
        Command {
            id: "reset-zoom",
            name: "Graph: Reset Zoom",
            description: "Reset zoom to 100%",
            aliases: &[],
            binding: Some("0"),
        },
        Command {
            id: "center-graph",
            name: "Graph: Center",
            description: "Center the graph view",
            aliases: &[],
            binding: Some("c"),
        },
        Command {
            id: "toggle-local-graph",
            name: "Graph: Toggle Local/Global",
            description: "Toggle between local (current note) and global graph",
            aliases: &[],
            binding: Some("l"),
        },
        Command {
            id: "close-graph",
            name: "Graph: Close",
            description: "Close the graph panel",
            aliases: &[],
            binding: Some("q"),
        },
    ];
    proof {
        assert(r@[0]@.aliases =~= graph_command_table()[0].aliases);
        assert(r@[1]@.aliases =~= graph_command_table()[1].aliases);
        assert(r@[2]@.aliases =~= graph_command_table()[2].aliases);
        assert(r@[3]@.aliases =~= graph_command_table()[3].aliases);
        assert(r@[4]@.aliases =~= graph_command_table()[4].aliases);
        assert(r@[5]@.aliases =~= graph_command_table()[5].aliases);
    }
    assert(commands_info(r@) =~= graph_command_table());
    r
}

} // verus!
