//! A curated, friendly list of niri actions worth binding to gestures.
//! Anything not here is still fully supported via "Custom KDL".

use vstd::prelude::*;
use crate::kdl::{Arg, ArgV, NodeV, ErrV, render, parse_document_spec};
use crate::kdl_laws::{valid_word, valid_node, law_bare_token_is_word, law_render_parse_node_at};
use crate::model::{ActionNode, ActionNodeV, ActionValue, ActionValueV, JsonArg, strings_view, action_node};
use crate::text::{is_unicode_whitespace, owned};

verus! {

#[derive(Clone, Copy, PartialEq, Eq, Structural, Debug)]
pub enum Category {
    Windows,
    Columns,
    Workspaces,
    Monitors,
    Overview,
    Screenshots,
    System,
}

pub open spec fn category_label(c: Category) -> Seq<char> {
    match c {
        Category::Windows => "Windows"@,
        Category::Columns => "Columns"@,
        Category::Workspaces => "Workspaces"@,
        Category::Monitors => "Monitors"@,
        Category::Overview => "Overview & layout"@,
        Category::Screenshots => "Screenshots"@,
        Category::System => "System"@,
    }
}

impl Category {
    pub fn label(&self) -> (r: &'static str)
        ensures
            r@ == category_label(*self),
    {
        match self {
            Category::Windows => "Windows",
            Category::Columns => "Columns",
            Category::Workspaces => "Workspaces",
            Category::Monitors => "Monitors",
            Category::Overview => "Overview & layout",
            Category::Screenshots => "Screenshots",
            Category::System => "System",
        }
    }
}

/// What argument editor (if any) an entry needs.
#[derive(Clone, Copy, PartialEq, Eq, Debug)]
pub enum Args {
    /// No argument.
    NoArg,
    /// Size change like `+10%`, `50%`, `100` with quick presets.
    SizeChange,
    /// Workspace reference: a number (index) or a name.
    WorkspaceRef,
    /// One of a fixed set of words.
    Fixed(&'static [&'static str]),
}

#[derive(Clone, Copy, Debug)]
pub struct Entry {
    /// KDL node name; also the IPC action name.
    pub name: &'static str,
    pub label: &'static str,
    pub category: Category,
    pub args: Args,
    /// None = can be test-run via `niri msg`; otherwise why it cannot.
    pub test_note: Option<&'static str>,
}

/// The directions `switch-layout` takes.
pub const LAYOUT_DIRECTIONS: [&'static str; 2] = ["next", "prev"];

/// The catalog, in display order.
pub open spec fn catalog() -> Seq<Entry> {
    seq![
        Entry {
            name: "close-window",
            label: "Close window",
            category: Category::Windows,
            args: Args::NoArg,
            test_note: None,
        },
        Entry {
            name: "fullscreen-window",
            label: "Fullscreen on/off",
            category: Category::Windows,
            args: Args::NoArg,
            test_note: None,
        },
        Entry {
            name: "toggle-windowed-fullscreen",
            label: "Windowed fullscreen on/off",
            category: Category::Windows,
            args: Args::NoArg,
            test_note: None,
        },
        Entry {
            name: "maximize-column",
            label: "Maximize or restore the focused column",
            category: Category::Windows,
            args: Args::NoArg,
            test_note: None,
        },
        Entry {
            name: "maximize-window-to-edges",
            label: "Maximize a floating window to screen edges",
            category: Category::Windows,
            args: Args::NoArg,
            test_note: None,
        },
        Entry {
            name: "toggle-window-floating",
            label: "Float or tile the focused window",
            category: Category::Windows,
            args: Args::NoArg,
            test_note: None,
        },
        Entry {
            name: "move-window-to-floating",
            label: "Make the window floating",
            category: Category::Windows,
            args: Args::NoArg,
            test_note: None,
        },
        Entry {
            name: "move-window-to-tiling",
            label: "Make the window tiled",
            category: Category::Windows,
            args: Args::NoArg,
            test_note: None,
        },
        Entry {
            name: "swap-window-left",
            label: "Swap window with the left neighbor",
            category: Category::Windows,
            args: Args::NoArg,
            test_note: None,
        },
        Entry {
            name: "swap-window-right",
            label: "Swap window with the right neighbor",
            category: Category::Windows,
            args: Args::NoArg,
            test_note: None,
        },
        Entry {
            name: "center-window",
            label: "Center a floating window",
            category: Category::Windows,
            args: Args::NoArg,
            test_note: None,
        },
        Entry {
            name: "center-column",
            label: "Center the focused column",
            category: Category::Windows,
            args: Args::NoArg,
            test_note: None,
        },
        Entry {
            name: "focus-window-up",
            label: "Focus window above",
            category: Category::Windows,
            args: Args::NoArg,
            test_note: None,
        },
        Entry {
            name: "focus-window-down",
            label: "Focus window below",
            category: Category::Windows,
            args: Args::NoArg,
            test_note: None,
        },
        Entry {
            name: "focus-window-or-workspace-up",
            label: "Focus window above, else workspace up",
            category: Category::Windows,
            args: Args::NoArg,
            test_note: None,
        },
        Entry {
            name: "focus-window-or-workspace-down",
            label: "Focus window below, else workspace down",
            category: Category::Windows,
            args: Args::NoArg,
            test_note: None,
        },
        Entry {
            name: "focus-window-top",
            label: "Focus the top window",
            category: Category::Windows,
            args: Args::NoArg,
            test_note: None,
        },
        Entry {
            name: "focus-window-bottom",
            label: "Focus the bottom window",
            category: Category::Windows,
            args: Args::NoArg,
            test_note: None,
        },
        Entry {
            name: "focus-window-previous",
            label: "Focus the previously focused window",
            category: Category::Windows,
            args: Args::NoArg,
            test_note: None,
        },
        Entry {
            name: "set-window-width",
            label: "Set window width",
            category: Category::Windows,
            args: Args::SizeChange,
            test_note: None,
        },
        Entry {
            name: "set-window-height",
            label: "Set window height",
            category: Category::Windows,
            args: Args::SizeChange,
            test_note: None,
        },
        Entry {
            name: "focus-column-left",
            label: "Focus the column on the left",
            category: Category::Columns,
            args: Args::NoArg,
            test_note: None,
        },
        Entry {
            name: "focus-column-right",
            label: "Focus the column on the right",
            category: Category::Columns,
            args: Args::NoArg,
            test_note: None,
        },
        Entry {
            name: "focus-column-first",
            label: "Focus the first column",
            category: Category::Columns,
            args: Args::NoArg,
            test_note: None,
        },
        Entry {
            name: "focus-column-last",
            label: "Focus the last column",
            category: Category::Columns,
            args: Args::NoArg,
            test_note: None,
        },
        Entry {
            name: "focus-column-right-or-first",
            label: "Focus right, wrap to first column",
            category: Category::Columns,
            args: Args::NoArg,
            test_note: None,
        },
        Entry {
            name: "focus-column-left-or-last",
            label: "Focus left, wrap to last column",
            category: Category::Columns,
            args: Args::NoArg,
            test_note: None,
        },
        Entry {
            name: "move-column-left",
            label: "Move the column left",
            category: Category::Columns,
            args: Args::NoArg,
            test_note: None,
        },
        Entry {
            name: "move-column-right",
            label: "Move the column right",
            category: Category::Columns,
            args: Args::NoArg,
            test_note: None,
        },
        Entry {
            name: "move-column-to-first",
            label: "Move the column to the first position",
            category: Category::Columns,
            args: Args::NoArg,
            test_note: None,
        },
        Entry {
            name: "move-column-to-last",
            label: "Move the column to the last position",
            category: Category::Columns,
            args: Args::NoArg,
            test_note: None,
        },
        Entry {
            name: "consume-or-expel-window-left",
            label: "Fold into the left column, or unfold",
            category: Category::Columns,
            args: Args::NoArg,
            test_note: None,
        },
        Entry {
            name: "consume-or-expel-window-right",
            label: "Fold into the right column, or unfold",
            category: Category::Columns,
            args: Args::NoArg,
            test_note: None,
        },
        Entry {
            name: "consume-window-into-column",
            label: "Stack the window into its column",
            category: Category::Columns,
            args: Args::NoArg,
            test_note: None,
        },
        Entry {
            name: "expel-window-from-column",
            label: "Unstack the window from its column",
            category: Category::Columns,
            args: Args::NoArg,
            test_note: None,
        },
        Entry {
            name: "toggle-column-tabbed-display",
            label: "Tabs on/off in the focused column",
            category: Category::Columns,
            args: Args::NoArg,
            test_note: None,
        },
        Entry {
            name: "switch-preset-column-width",
            label: "Cycle preset column widths",
            category: Category::Columns,
            args: Args::NoArg,
            test_note: None,
        },
        Entry {
            name: "expand-column-to-available-width",
            label: "Expand column to fill free space",
            category: Category::Columns,
            args: Args::NoArg,
            test_note: None,
        },
        Entry {
            name: "set-column-width",
            label: "Set column width",
            category: Category::Columns,
            args: Args::SizeChange,
            test_note: None,
        },
        Entry {
            name: "focus-workspace-up",
            label: "Workspace above",
            category: Category::Workspaces,
            args: Args::NoArg,
            test_note: None,
        },
        Entry {
            name: "focus-workspace-down",
            label: "Workspace below",
            category: Category::Workspaces,
            args: Args::NoArg,
            test_note: None,
        },
        Entry {
            name: "focus-workspace-previous",
            label: "Previously used workspace",
            category: Category::Workspaces,
            args: Args::NoArg,
            test_note: None,
        },
        Entry {
            name: "focus-workspace",
            label: "Go to a workspace",
            category: Category::Workspaces,
            args: Args::WorkspaceRef,
            test_note: None,
        },
        Entry {
            name: "move-window-to-workspace-up",
            label: "Move window to the workspace above",
            category: Category::Workspaces,
            args: Args::NoArg,
            test_note: None,
        },
        Entry {
            name: "move-window-to-workspace-down",
            label: "Move window to the workspace below",
            category: Category::Workspaces,
            args: Args::NoArg,
            test_note: None,
        },
        Entry {
            name: "move-column-to-workspace-up",
            label: "Move column to the workspace above",
            category: Category::Workspaces,
            args: Args::NoArg,
            test_note: None,
        },
        Entry {
            name: "move-column-to-workspace-down",
            label: "Move column to the workspace below",
            category: Category::Workspaces,
            args: Args::NoArg,
            test_note: None,
        },
        Entry {
            name: "move-window-to-workspace",
            label: "Move window to a workspace",
            category: Category::Workspaces,
            args: Args::WorkspaceRef,
            test_note: None,
        },
        Entry {
            name: "move-workspace-up",
            label: "Reorder workspace up",
            category: Category::Workspaces,
            args: Args::NoArg,
            test_note: None,
        },
        Entry {
            name: "move-workspace-down",
            label: "Reorder workspace down",
            category: Category::Workspaces,
            args: Args::NoArg,
            test_note: None,
        },
        Entry {
            name: "set-workspace-name",
            label: "Name this workspace",
            category: Category::Workspaces,
            args: Args::WorkspaceRef,
            test_note: None,
        },
        Entry {
            name: "focus-monitor-left",
            label: "Focus the monitor on the left",
            category: Category::Monitors,
            args: Args::NoArg,
            test_note: None,
        },
        Entry {
            name: "focus-monitor-right",
            label: "Focus the monitor on the right",
            category: Category::Monitors,
            args: Args::NoArg,
            test_note: None,
        },
        Entry {
            name: "focus-monitor-up",
            label: "Focus the monitor above",
            category: Category::Monitors,
            args: Args::NoArg,
            test_note: None,
        },
        Entry {
            name: "focus-monitor-down",
            label: "Focus the monitor below",
            category: Category::Monitors,
            args: Args::NoArg,
            test_note: None,
        },
        Entry {
            name: "focus-monitor-previous",
            label: "Focus the previous monitor",
            category: Category::Monitors,
            args: Args::NoArg,
            test_note: None,
        },
        Entry {
            name: "focus-monitor-next",
            label: "Focus the next monitor",
            category: Category::Monitors,
            args: Args::NoArg,
            test_note: None,
        },
        Entry {
            name: "move-window-to-monitor-left",
            label: "Move window to the left monitor",
            category: Category::Monitors,
            args: Args::NoArg,
            test_note: None,
        },
        Entry {
            name: "move-window-to-monitor-right",
            label: "Move window to the right monitor",
            category: Category::Monitors,
            args: Args::NoArg,
            test_note: None,
        },
        Entry {
            name: "move-column-to-monitor-left",
            label: "Move column to the left monitor",
            category: Category::Monitors,
            args: Args::NoArg,
            test_note: None,
        },
        Entry {
            name: "move-column-to-monitor-right",
            label: "Move column to the right monitor",
            category: Category::Monitors,
            args: Args::NoArg,
            test_note: None,
        },
        Entry {
            name: "power-off-monitors",
            label: "Turn monitors off (DPMS)",
            category: Category::Monitors,
            args: Args::NoArg,
            test_note: None,
        },
        Entry {
            name: "power-on-monitors",
            label: "Turn monitors on (DPMS)",
            category: Category::Monitors,
            args: Args::NoArg,
            test_note: None,
        },
        Entry {
            name: "toggle-overview",
            label: "Open or close the overview",
            category: Category::Overview,
            args: Args::NoArg,
            test_note: None,
        },
        Entry {
            name: "open-overview",
            label: "Open the overview",
            category: Category::Overview,
            args: Args::NoArg,
            test_note: None,
        },
        Entry {
            name: "close-overview",
            label: "Close the overview",
            category: Category::Overview,
            args: Args::NoArg,
            test_note: None,
        },
        Entry {
            name: "show-hotkey-overlay",
            label: "Show the keyboard shortcuts overlay",
            category: Category::Overview,
            args: Args::NoArg,
            test_note: None,
        },
        Entry {
            name: "switch-layout",
            label: "Switch the layout",
            category: Category::Overview,
            args: Args::Fixed(&LAYOUT_DIRECTIONS),
            test_note: None,
        },
        Entry {
            name: "switch-focus-between-floating-and-tiling",
            label: "Jump between floating and tiling",
            category: Category::Overview,
            args: Args::NoArg,
            test_note: None,
        },
        Entry {
            name: "focus-floating",
            label: "Focus a floating window",
            category: Category::Overview,
            args: Args::NoArg,
            test_note: None,
        },
        Entry {
            name: "focus-tiling",
            label: "Focus a tiled window",
            category: Category::Overview,
            args: Args::NoArg,
            test_note: None,
        },
        Entry {
            name: "screenshot",
            label: "Screenshot (interactive)",
            category: Category::Screenshots,
            args: Args::NoArg,
            test_note: None,
        },
        Entry {
            name: "screenshot-screen",
            label: "Screenshot this screen",
            category: Category::Screenshots,
            args: Args::NoArg,
            test_note: None,
        },
        Entry {
            name: "screenshot-window",
            label: "Screenshot the focused window",
            category: Category::Screenshots,
            args: Args::NoArg,
            test_note: None,
        },
        Entry {
            name: "do-screen-transition",
            label: "Play a screen transition",
            category: Category::Screenshots,
            args: Args::NoArg,
            test_note: None,
        },
        Entry {
            name: "quit",
            label: "Quit niri (ends the session)",
            category: Category::System,
            args: Args::NoArg,
            test_note: Some("would exit the running niri session"),
        },
        Entry {
            name: "suspend",
            label: "Suspend the system",
            category: Category::System,
            args: Args::NoArg,
            test_note: Some("suspend has no IPC action to test with"),
        },
    ]
}

/// Every catalog entry, in display order.
pub fn entries() -> (v: Vec<Entry>)
    ensures
        v@ == catalog(),
{
    vec![
        Entry {
            name: "close-window",
            label: "Close window",
            category: Category::Windows,
            args: Args::NoArg,
            test_note: None,
        },
        Entry {
            name: "fullscreen-window",
            label: "Fullscreen on/off",
            category: Category::Windows,
            args: Args::NoArg,
            test_note: None,
        },
        Entry {
            name: "toggle-windowed-fullscreen",
            label: "Windowed fullscreen on/off",
            category: Category::Windows,
            args: Args::NoArg,
            test_note: None,
        },
        Entry {
            name: "maximize-column",
            label: "Maximize or restore the focused column",
            category: Category::Windows,
            args: Args::NoArg,
            test_note: None,
        },
        Entry {
            name: "maximize-window-to-edges",
            label: "Maximize a floating window to screen edges",
            category: Category::Windows,
            args: Args::NoArg,
            test_note: None,
        },
        Entry {
            name: "toggle-window-floating",
            label: "Float or tile the focused window",
            category: Category::Windows,
            args: Args::NoArg,
            test_note: None,
        },
        Entry {
            name: "move-window-to-floating",
            label: "Make the window floating",
            category: Category::Windows,
            args: Args::NoArg,
            test_note: None,
        },
        Entry {
            name: "move-window-to-tiling",
            label: "Make the window tiled",
            category: Category::Windows,
            args: Args::NoArg,
            test_note: None,
        },
        Entry {
            name: "swap-window-left",
            label: "Swap window with the left neighbor",
            category: Category::Windows,
            args: Args::NoArg,
            test_note: None,
        },
        Entry {
            name: "swap-window-right",
            label: "Swap window with the right neighbor",
            category: Category::Windows,
            args: Args::NoArg,
            test_note: None,
        },
        Entry {
            name: "center-window",
            label: "Center a floating window",
            category: Category::Windows,
            args: Args::NoArg,
            test_note: None,
        },
        Entry {
            name: "center-column",
            label: "Center the focused column",
            category: Category::Windows,
            args: Args::NoArg,
            test_note: None,
        },
        Entry {
            name: "focus-window-up",
            label: "Focus window above",
            category: Category::Windows,
            args: Args::NoArg,
            test_note: None,
        },
        Entry {
            name: "focus-window-down",
            label: "Focus window below",
            category: Category::Windows,
            args: Args::NoArg,
            test_note: None,
        },
        Entry {
            name: "focus-window-or-workspace-up",
            label: "Focus window above, else workspace up",
            category: Category::Windows,
            args: Args::NoArg,
            test_note: None,
        },
        Entry {
            name: "focus-window-or-workspace-down",
            label: "Focus window below, else workspace down",
            category: Category::Windows,
            args: Args::NoArg,
            test_note: None,
        },
        Entry {
            name: "focus-window-top",
            label: "Focus the top window",
            category: Category::Windows,
            args: Args::NoArg,
            test_note: None,
        },
        Entry {
            name: "focus-window-bottom",
            label: "Focus the bottom window",
            category: Category::Windows,
            args: Args::NoArg,
            test_note: None,
        },
        Entry {
            name: "focus-window-previous",
            label: "Focus the previously focused window",
            category: Category::Windows,
            args: Args::NoArg,
            test_note: None,
        },
        Entry {
            name: "set-window-width",
            label: "Set window width",
            category: Category::Windows,
            args: Args::SizeChange,
            test_note: None,
        },
        Entry {
            name: "set-window-height",
            label: "Set window height",
            category: Category::Windows,
            args: Args::SizeChange,
            test_note: None,
        },
        Entry {
            name: "focus-column-left",
            label: "Focus the column on the left",
            category: Category::Columns,
            args: Args::NoArg,
            test_note: None,
        },
        Entry {
            name: "focus-column-right",
            label: "Focus the column on the right",
            category: Category::Columns,
            args: Args::NoArg,
            test_note: None,
        },
        Entry {
            name: "focus-column-first",
            label: "Focus the first column",
            category: Category::Columns,
            args: Args::NoArg,
            test_note: None,
        },
        Entry {
            name: "focus-column-last",
            label: "Focus the last column",
            category: Category::Columns,
            args: Args::NoArg,
            test_note: None,
        },
        Entry {
            name: "focus-column-right-or-first",
            label: "Focus right, wrap to first column",
            category: Category::Columns,
            args: Args::NoArg,
            test_note: None,
        },
        Entry {
            name: "focus-column-left-or-last",
            label: "Focus left, wrap to last column",
            category: Category::Columns,
            args: Args::NoArg,
            test_note: None,
        },
        Entry {
            name: "move-column-left",
            label: "Move the column left",
            category: Category::Columns,
            args: Args::NoArg,
            test_note: None,
        },
        Entry {
            name: "move-column-right",
            label: "Move the column right",
            category: Category::Columns,
            args: Args::NoArg,
            test_note: None,
        },
        Entry {
            name: "move-column-to-first",
            label: "Move the column to the first position",
            category: Category::Columns,
            args: Args::NoArg,
            test_note: None,
        },
        Entry {
            name: "move-column-to-last",
            label: "Move the column to the last position",
            category: Category::Columns,
            args: Args::NoArg,
            test_note: None,
        },
        Entry {
            name: "consume-or-expel-window-left",
            label: "Fold into the left column, or unfold",
            category: Category::Columns,
            args: Args::NoArg,
            test_note: None,
        },
        Entry {
            name: "consume-or-expel-window-right",
            label: "Fold into the right column, or unfold",
            category: Category::Columns,
            args: Args::NoArg,
            test_note: None,
        },
        Entry {
            name: "consume-window-into-column",
            label: "Stack the window into its column",
            category: Category::Columns,
            args: Args::NoArg,
            test_note: None,
        },
        Entry {
            name: "expel-window-from-column",
            label: "Unstack the window from its column",
            category: Category::Columns,
            args: Args::NoArg,
            test_note: None,
        },
        Entry {
            name: "toggle-column-tabbed-display",
            label: "Tabs on/off in the focused column",
            category: Category::Columns,
            args: Args::NoArg,
            test_note: None,
        },
        Entry {
            name: "switch-preset-column-width",
            label: "Cycle preset column widths",
            category: Category::Columns,
            args: Args::NoArg,
            test_note: None,
        },
        Entry {
            name: "expand-column-to-available-width",
            label: "Expand column to fill free space",
            category: Category::Columns,
            args: Args::NoArg,
            test_note: None,
        },
        Entry {
            name: "set-column-width",
            label: "Set column width",
            category: Category::Columns,
            args: Args::SizeChange,
            test_note: None,
        },
        Entry {
            name: "focus-workspace-up",
            label: "Workspace above",
            category: Category::Workspaces,
            args: Args::NoArg,
            test_note: None,
        },
        Entry {
            name: "focus-workspace-down",
            label: "Workspace below",
            category: Category::Workspaces,
            args: Args::NoArg,
            test_note: None,
        },
        Entry {
            name: "focus-workspace-previous",
            label: "Previously used workspace",
            category: Category::Workspaces,
            args: Args::NoArg,
            test_note: None,
        },
        Entry {
            name: "focus-workspace",
            label: "Go to a workspace",
            category: Category::Workspaces,
            args: Args::WorkspaceRef,
            test_note: None,
        },
        Entry {
            name: "move-window-to-workspace-up",
            label: "Move window to the workspace above",
            category: Category::Workspaces,
            args: Args::NoArg,
            test_note: None,
        },
        Entry {
            name: "move-window-to-workspace-down",
            label: "Move window to the workspace below",
            category: Category::Workspaces,
            args: Args::NoArg,
            test_note: None,
        },
        Entry {
            name: "move-column-to-workspace-up",
            label: "Move column to the workspace above",
            category: Category::Workspaces,
            args: Args::NoArg,
            test_note: None,
        },
        Entry {
            name: "move-column-to-workspace-down",
            label: "Move column to the workspace below",
            category: Category::Workspaces,
            args: Args::NoArg,
            test_note: None,
        },
        Entry {
            name: "move-window-to-workspace",
            label: "Move window to a workspace",
            category: Category::Workspaces,
            args: Args::WorkspaceRef,
            test_note: None,
        },
        Entry {
            name: "move-workspace-up",
            label: "Reorder workspace up",
            category: Category::Workspaces,
            args: Args::NoArg,
            test_note: None,
        },
        Entry {
            name: "move-workspace-down",
            label: "Reorder workspace down",
            category: Category::Workspaces,
            args: Args::NoArg,
            test_note: None,
        },
        Entry {
            name: "set-workspace-name",
            label: "Name this workspace",
            category: Category::Workspaces,
            args: Args::WorkspaceRef,
            test_note: None,
        },
        Entry {
            name: "focus-monitor-left",
            label: "Focus the monitor on the left",
            category: Category::Monitors,
            args: Args::NoArg,
            test_note: None,
        },
        Entry {
            name: "focus-monitor-right",
            label: "Focus the monitor on the right",
            category: Category::Monitors,
            args: Args::NoArg,
            test_note: None,
        },
        Entry {
            name: "focus-monitor-up",
            label: "Focus the monitor above",
            category: Category::Monitors,
            args: Args::NoArg,
            test_note: None,
        },
        Entry {
            name: "focus-monitor-down",
            label: "Focus the monitor below",
            category: Category::Monitors,
            args: Args::NoArg,
            test_note: None,
        },
        Entry {
            name: "focus-monitor-previous",
            label: "Focus the previous monitor",
            category: Category::Monitors,
            args: Args::NoArg,
            test_note: None,
        },
        Entry {
            name: "focus-monitor-next",
            label: "Focus the next monitor",
            category: Category::Monitors,
            args: Args::NoArg,
            test_note: None,
        },
        Entry {
            name: "move-window-to-monitor-left",
            label: "Move window to the left monitor",
            category: Category::Monitors,
            args: Args::NoArg,
            test_note: None,
        },
        Entry {
            name: "move-window-to-monitor-right",
            label: "Move window to the right monitor",
            category: Category::Monitors,
            args: Args::NoArg,
            test_note: None,
        },
        Entry {
            name: "move-column-to-monitor-left",
            label: "Move column to the left monitor",
            category: Category::Monitors,
            args: Args::NoArg,
            test_note: None,
        },
        Entry {
            name: "move-column-to-monitor-right",
            label: "Move column to the right monitor",
            category: Category::Monitors,
            args: Args::NoArg,
            test_note: None,
        },
        Entry {
            name: "power-off-monitors",
            label: "Turn monitors off (DPMS)",
            category: Category::Monitors,
            args: Args::NoArg,
            test_note: None,
        },
        Entry {
            name: "power-on-monitors",
            label: "Turn monitors on (DPMS)",
            category: Category::Monitors,
            args: Args::NoArg,
            test_note: None,
        },
        Entry {
            name: "toggle-overview",
            label: "Open or close the overview",
            category: Category::Overview,
            args: Args::NoArg,
            test_note: None,
        },
        Entry {
            name: "open-overview",
            label: "Open the overview",
            category: Category::Overview,
            args: Args::NoArg,
            test_note: None,
        },
        Entry {
            name: "close-overview",
            label: "Close the overview",
            category: Category::Overview,
            args: Args::NoArg,
            test_note: None,
        },
        Entry {
            name: "show-hotkey-overlay",
            label: "Show the keyboard shortcuts overlay",
            category: Category::Overview,
            args: Args::NoArg,
            test_note: None,
        },
        Entry {
            name: "switch-layout",
            label: "Switch the layout",
            category: Category::Overview,
            args: Args::Fixed(&LAYOUT_DIRECTIONS),
            test_note: None,
        },
        Entry {
            name: "switch-focus-between-floating-and-tiling",
            label: "Jump between floating and tiling",
            category: Category::Overview,
            args: Args::NoArg,
            test_note: None,
        },
        Entry {
            name: "focus-floating",
            label: "Focus a floating window",
            category: Category::Overview,
            args: Args::NoArg,
            test_note: None,
        },
        Entry {
            name: "focus-tiling",
            label: "Focus a tiled window",
            category: Category::Overview,
            args: Args::NoArg,
            test_note: None,
        },
        Entry {
            name: "screenshot",
            label: "Screenshot (interactive)",
            category: Category::Screenshots,
            args: Args::NoArg,
            test_note: None,
        },
        Entry {
            name: "screenshot-screen",
            label: "Screenshot this screen",
            category: Category::Screenshots,
            args: Args::NoArg,
            test_note: None,
        },
        Entry {
            name: "screenshot-window",
            label: "Screenshot the focused window",
            category: Category::Screenshots,
            args: Args::NoArg,
            test_note: None,
        },
        Entry {
            name: "do-screen-transition",
            label: "Play a screen transition",
            category: Category::Screenshots,
            args: Args::NoArg,
            test_note: None,
        },
        Entry {
            name: "quit",
            label: "Quit niri (ends the session)",
            category: Category::System,
            args: Args::NoArg,
            test_note: Some("would exit the running niri session"),
        },
        Entry {
            name: "suspend",
            label: "Suspend the system",
            category: Category::System,
            args: Args::NoArg,
            test_note: Some("suspend has no IPC action to test with"),
        },
    ]
}

/// The character at `p`, or a space past either end.
spec fn char_at(s: Seq<char>, p: int) -> char {
    if 0 <= p < s.len() {
        s[p]
    } else {
        ' '
    }
}

/// Length, sixth character and last-but-one character: enough to tell the
/// catalog names apart.
spec fn name_key(s: Seq<char>) -> (nat, char, char) {
    (s.len(), char_at(s, 5), char_at(s, s.len() - 2))
}

/// The catalog position of the name with key `k`.
spec fn key_rank(k: (nat, char, char)) -> int {
    if k == (12nat, '-', 'o') {
        0
    } else if k == (17nat, 'c', 'o') {
        1
    } else if k == (26nat, 'e', 'e') {
        2
    } else if k == (15nat, 'i', 'm') {
        3
    } else if k == (24nat, 'i', 'e') {
        4
    } else if k == (22nat, 'e', 'n') {
        5
    } else if k == (23nat, 'w', 'n') {
        6
    } else if k == (21nat, 'w', 'n') {
        7
    } else if k == (16nat, 'w', 'f') {
        8
    } else if k == (17nat, 'w', 'h') {
        9
    } else if k == (13nat, 'r', 'o') {
        10
    } else if k == (13nat, 'r', 'm') {
        11
    } else if k == (15nat, '-', 'u') {
        12
    } else if k == (17nat, '-', 'w') {
        13
    } else if k == (28nat, '-', 'u') {
        14
    } else if k == (30nat, '-', 'w') {
        15
    } else if k == (16nat, '-', 'o') {
        16
    } else if k == (19nat, '-', 'o') {
        17
    } else if k == (21nat, '-', 'u') {
        18
    } else if k == (16nat, 'i', 't') {
        19
    } else if k == (17nat, 'i', 'h') {
        20
    } else if k == (17nat, '-', 'f') {
        21
    } else if k == (18nat, '-', 'h') {
        22
    } else if k == (18nat, '-', 's') {
        23
    } else if k == (17nat, '-', 's') {
        24
    } else if k == (27nat, '-', 's') {
        25
    } else if k == (25nat, '-', 's') {
        26
    } else if k == (16nat, 'c', 'f') {
        27
    } else if k == (17nat, 'c', 'h') {
        28
    } else if k == (20nat, 'c', 's') {
        29
    } else if k == (19nat, 'c', 's') {
        30
    } else if k == (28nat, 'm', 'f') {
        31
    } else if k == (29nat, 'm', 'h') {
        32
    } else if k == (26nat, 'm', 'm') {
        33
    } else if k == (24nat, '-', 'm') {
        34
    } else if k == (28nat, 'e', 'a') {
        35
    } else if k == (26nat, 'h', 't') {
        36
    } else if k == (32nat, 'd', 't') {
        37
    } else if k == (16nat, 'o', 't') {
        38
    } else if k == (18nat, '-', 'u') {
        39
    } else if k == (20nat, '-', 'w') {
        40
    } else if k == (24nat, '-', 'u') {
        41
    } else if k == (15nat, '-', 'c') {
        42
    } else if k == (27nat, 'w', 'u') {
        43
    } else if k == (29nat, 'w', 'w') {
        44
    } else if k == (27nat, 'c', 'u') {
        45
    } else if k == (29nat, 'c', 'w') {
        46
    } else if k == (24nat, 'w', 'c') {
        47
    } else if k == (17nat, 'w', 'u') {
        48
    } else if k == (19nat, 'w', 'w') {
        49
    } else if k == (18nat, 'o', 'm') {
        50
    } else if k == (18nat, '-', 'f') {
        51
    } else if k == (19nat, '-', 'h') {
        52
    } else if k == (16nat, '-', 'u') {
        53
    } else if k == (18nat, '-', 'w') {
        54
    } else if k == (22nat, '-', 'u') {
        55
    } else if k == (18nat, '-', 'x') {
        56
    } else if k == (27nat, 'w', 'f') {
        57
    } else if k == (28nat, 'w', 'h') {
        58
    } else if k == (27nat, 'c', 'f') {
        59
    } else if k == (28nat, 'c', 'h') {
        60
    } else if k == (18nat, '-', 'r') {
        61
    } else if k == (17nat, '-', 'r') {
        62
    } else if k == (15nat, 'e', 'e') {
        63
    } else if k == (13nat, 'o', 'e') {
        64
    } else if k == (14nat, '-', 'e') {
        65
    } else if k == (19nat, 'h', 'a') {
        66
    } else if k == (13nat, 'h', 'u') {
        67
    } else if k == (40nat, 'h', 'n') {
        68
    } else if k == (14nat, '-', 'n') {
        69
    } else if k == (12nat, '-', 'n') {
        70
    } else if k == (10nat, 'n', 'o') {
        71
    } else if k == (17nat, 'n', 'e') {
        72
    } else if k == (17nat, 'n', 'o') {
        73
    } else if k == (20nat, 'r', 'o') {
        74
    } else if k == (4nat, ' ', 'i') {
        75
    } else if k == (7nat, 'n', 'n') {
        76
    } else {
        -1
    }
}

/// What the catalog's literal names are: each a bare word the lexer reads
/// back whole, each telling its own position by its key; and every entry
/// with a fixed word list has at least one word.
#[verifier::rlimit(100)]
#[verifier::spinoff_prover]
proof fn lemma_catalog_entries()
    ensures
        forall|i: int|
            0 <= i < catalog().len() ==> valid_word(#[trigger] catalog()[i].name@) && key_rank(
                name_key(catalog()[i].name@),
            ) == i && fixed_nonempty(catalog()[i].args),
{
    reveal_strlit("close-window");
    reveal_strlit("fullscreen-window");
    reveal_strlit("toggle-windowed-fullscreen");
    reveal_strlit("maximize-column");
    reveal_strlit("maximize-window-to-edges");
    reveal_strlit("toggle-window-floating");
    reveal_strlit("move-window-to-floating");
    reveal_strlit("move-window-to-tiling");
    reveal_strlit("swap-window-left");
    reveal_strlit("swap-window-right");
    reveal_strlit("center-window");
    reveal_strlit("center-column");
    reveal_strlit("focus-window-up");
    reveal_strlit("focus-window-down");
    reveal_strlit("focus-window-or-workspace-up");
    reveal_strlit("focus-window-or-workspace-down");
    reveal_strlit("focus-window-top");
    reveal_strlit("focus-window-bottom");
    reveal_strlit("focus-window-previous");
    reveal_strlit("set-window-width");
    reveal_strlit("set-window-height");
    reveal_strlit("focus-column-left");
    reveal_strlit("focus-column-right");
    reveal_strlit("focus-column-first");
    reveal_strlit("focus-column-last");
    reveal_strlit("focus-column-right-or-first");
    reveal_strlit("focus-column-left-or-last");
    reveal_strlit("move-column-left");
    reveal_strlit("move-column-right");
    reveal_strlit("move-column-to-first");
    reveal_strlit("move-column-to-last");
    reveal_strlit("consume-or-expel-window-left");
    reveal_strlit("consume-or-expel-window-right");
    reveal_strlit("consume-window-into-column");
    reveal_strlit("expel-window-from-column");
    reveal_strlit("toggle-column-tabbed-display");
    reveal_strlit("switch-preset-column-width");
    reveal_strlit("expand-column-to-available-width");
    reveal_strlit("set-column-width");
    reveal_strlit("focus-workspace-up");
    reveal_strlit("focus-workspace-down");
    reveal_strlit("focus-workspace-previous");
    reveal_strlit("focus-workspace");
    reveal_strlit("move-window-to-workspace-up");
    reveal_strlit("move-window-to-workspace-down");
    reveal_strlit("move-column-to-workspace-up");
    reveal_strlit("move-column-to-workspace-down");
    reveal_strlit("move-window-to-workspace");
    reveal_strlit("move-workspace-up");
    reveal_strlit("move-workspace-down");
    reveal_strlit("set-workspace-name");
    reveal_strlit("focus-monitor-left");
    reveal_strlit("focus-monitor-right");
    reveal_strlit("focus-monitor-up");
    reveal_strlit("focus-monitor-down");
    reveal_strlit("focus-monitor-previous");
    reveal_strlit("focus-monitor-next");
    reveal_strlit("move-window-to-monitor-left");
    reveal_strlit("move-window-to-monitor-right");
    reveal_strlit("move-column-to-monitor-left");
    reveal_strlit("move-column-to-monitor-right");
    reveal_strlit("power-off-monitors");
    reveal_strlit("power-on-monitors");
    reveal_strlit("toggle-overview");
    reveal_strlit("open-overview");
    reveal_strlit("close-overview");
    reveal_strlit("show-hotkey-overlay");
    reveal_strlit("switch-layout");
    reveal_strlit("switch-focus-between-floating-and-tiling");
    reveal_strlit("focus-floating");
    reveal_strlit("focus-tiling");
    reveal_strlit("screenshot");
    reveal_strlit("screenshot-screen");
    reveal_strlit("screenshot-window");
    reveal_strlit("do-screen-transition");
    reveal_strlit("quit");
    reveal_strlit("suspend");
}

/// No two catalog entries share a name.
pub proof fn law_catalog_names_distinct()
    ensures
        forall|i: int, j: int|
            0 <= i < catalog().len() && 0 <= j < catalog().len() && i != j ==> #[trigger] catalog()[i].name@
                != #[trigger] catalog()[j].name@,
{
    lemma_catalog_entries();
}

/// The first entry of `es` named `name`.
pub open spec fn find_entry(es: Seq<Entry>, name: Seq<char>) -> Option<Entry>
    decreases es.len(),
{
    if es.len() == 0 {
        None
    } else if es[0].name@ == name {
        Some(es[0])
    } else {
        find_entry(es.drop_first(), name)
    }
}

proof fn lemma_find_from(k: int, i: int)
    requires
        0 <= k <= i < catalog().len(),
    ensures
        find_entry(catalog().skip(k), catalog()[i].name@) == Some(catalog()[i]),
    decreases i - k,
{
    let es = catalog().skip(k);
    assert(es[0] == catalog()[k]);
    if k < i {
        law_catalog_names_distinct();
        assert(catalog()[k].name@ != catalog()[i].name@);
        assert(es.drop_first() =~= catalog().skip(k + 1));
        lemma_find_from(k + 1, i);
    }
}

/// Looking up the name of any catalog entry finds that very entry.
pub proof fn law_find_catalog_entry(i: int)
    requires
        0 <= i < catalog().len(),
    ensures
        find_entry(catalog(), catalog()[i].name@) == Some(catalog()[i]),
{
    lemma_find_from(0, i);
    assert(catalog().skip(0) =~= catalog());
}

/// Every catalog action, with whatever argument text the user gives, is a
/// well-formed node: rendered at any indent it parses back to itself.
pub proof fn law_catalog_actions_render_back(i: int, arg: Option<Seq<char>>, k: nat)
    requires
        0 <= i < catalog().len(),
    ensures
        fixed_nonempty(catalog()[i].args),
        action_for(catalog()[i], arg) is Node,
        valid_node(action_node(action_for(catalog()[i], arg)->Node_0)),
        parse_document_spec(render(action_node(action_for(catalog()[i], arg)->Node_0), k)) == Ok::<
            Seq<NodeV>,
            ErrV,
        >(seq![action_node(action_for(catalog()[i], arg)->Node_0)]),
{
    lemma_catalog_entries();
    let e = catalog()[i];
    let t = chosen_text(e.args, arg);
    law_bare_token_is_word(t);
    let n = action_node(action_for(e, arg)->Node_0);
    assert(valid_node(n)) by {
        assert(valid_word(e.name@));
        if !(e.args is NoArg) {
            assert(n.args =~= seq![user_arg(t)]);
            assert(n.args[0] == user_arg(t));
        }
    }
    law_render_parse_node_at(n, k);
}

/// A node with a name and children only.
pub open spec fn block_of(name: Seq<char>, children: Seq<NodeV>) -> NodeV {
    NodeV { name, props: seq![], args: seq![], children }
}

/// A `gestures` block holding `action` as the `tap` action of
/// `touchscreen-swipe`.
pub open spec fn in_tap_slot(action: NodeV) -> NodeV {
    block_of("gestures"@, seq![block_of("touchscreen-swipe"@, seq![block_of("tap"@, seq![action])])])
}

/// Every catalog action, with whatever argument text the user gives, placed
/// as the `tap` action of `touchscreen-swipe` in a `gestures` block: the
/// block rendered at any indent parses back to itself, so the action is
/// found again under its own name.
pub proof fn law_catalog_action_in_gestures_block(i: int, arg: Option<Seq<char>>, k: nat)
    requires
        0 <= i < catalog().len(),
    ensures
        parse_document_spec(render(in_tap_slot(action_node(action_for(catalog()[i], arg)->Node_0)), k)) == Ok::<
            Seq<NodeV>,
            ErrV,
        >(seq![in_tap_slot(action_node(action_for(catalog()[i], arg)->Node_0))]),
        in_tap_slot(action_node(action_for(catalog()[i], arg)->Node_0)).children[0].children[0].children[0].name
            == catalog()[i].name@,
{
    law_catalog_actions_render_back(i, arg, k);
    let n = action_node(action_for(catalog()[i], arg)->Node_0);
    reveal_strlit("gestures");
    reveal_strlit("touchscreen-swipe");
    reveal_strlit("tap");
    assert(valid_word("gestures"@));
    assert(valid_word("touchscreen-swipe"@));
    assert(valid_word("tap"@));
    let tap = block_of("tap"@, seq![n]);
    let ts = block_of("touchscreen-swipe"@, seq![tap]);
    let g = in_tap_slot(n);
    assert(valid_node(tap)) by {
        assert(tap.children[0] == n);
    }
    assert(valid_node(ts)) by {
        assert(ts.children[0] == tap);
    }
    assert(valid_node(g)) by {
        assert(g.children[0] == ts);
    }
    law_render_parse_node_at(g, k);
}

/// The catalog entry for an action name.
pub fn find(name: &str) -> (r: Option<Entry>)
    ensures
        r == find_entry(catalog(), name@),
{
    let es = entries();
    assert(es@.skip(0) =~= es@);
    let mut i: usize = 0;
    while i < es.len()
        invariant
            es@ == catalog(),
            i <= es@.len(),
            find_entry(es@.skip(i as int), name@) == find_entry(catalog(), name@),
        decreases es@.len() - i,
    {
        assert(es@.skip(i as int)[0] == es@[i as int]);
        assert(es@.skip(i as int).drop_first() =~= es@.skip(i + 1));
        if crate::text::str_eq(es[i].name, name) {
            return Some(es[i]);
        }
        i = i + 1;
    }
    None
}

/// Only whitespace (what `trim().is_empty()` tests).
pub open spec fn blank(s: Seq<char>) -> bool {
    forall|i: int| 0 <= i < s.len() ==> is_unicode_whitespace(#[trigger] s[i])
}

fn is_blank(s: &str) -> (b: bool)
    ensures
        b == blank(s@),
{
    let cs = crate::text::chars_of(s);
    let mut i: usize = 0;
    while i < cs.len()
        invariant
            cs@ == s@,
            i <= cs@.len(),
            forall|j: int| 0 <= j < i ==> is_unicode_whitespace(#[trigger] cs@[j]),
        decreases cs@.len() - i,
    {
        if !crate::text::unicode_whitespace(cs[i]) {
            return false;
        }
        i = i + 1;
    }
    true
}

pub open spec fn opt_text(arg: Option<&str>) -> Option<Seq<char>> {
    match arg {
        Some(s) => Some(s@),
        None => None,
    }
}

/// The argument used when the user gave none (or only whitespace).
pub open spec fn default_arg(a: Args) -> Seq<char> {
    match a {
        Args::SizeChange => "+10%"@,
        Args::WorkspaceRef => "2"@,
        Args::Fixed(words) => words@[0]@,
        Args::NoArg => seq![],
    }
}

pub open spec fn chosen_text(a: Args, arg: Option<Seq<char>>) -> Seq<char> {
    match arg {
        Some(t) => if blank(t) { default_arg(a) } else { t },
        None => default_arg(a),
    }
}

/// User text as an argument: bare when it is a valid bare token, quoted otherwise.
pub open spec fn user_arg(t: Seq<char>) -> ArgV {
    if crate::kdl::bare_token(t) {
        ArgV::Word(t)
    } else {
        ArgV::Str(t)
    }
}

/// The action a catalog entry stands for, given the user's argument text.
pub open spec fn action_for(e: Entry, arg: Option<Seq<char>>) -> ActionValueV {
    match e.args {
        Args::NoArg => ActionValueV::Node(ActionNodeV { name: e.name@, args: seq![], props: seq![] }),
        _ => ActionValueV::Node(
            ActionNodeV { name: e.name@, args: seq![user_arg(chosen_text(e.args, arg))], props: seq![] },
        ),
    }
}

pub open spec fn fixed_nonempty(a: Args) -> bool {
    match a {
        Args::Fixed(words) => words@.len() > 0,
        _ => true,
    }
}

fn node_with_arg_text(name: &str, text: &str) -> (r: ActionValue)
    ensures
        r.view() == ActionValueV::Node(ActionNodeV { name: name@, args: seq![user_arg(text@)], props: seq![] }),
{
    let a = Arg::from_user_text(text);
    let mut args: Vec<JsonArg> = Vec::new();
    args.push(JsonArg::from(&a));
    let n = ActionNode { name: owned(name), args, props: Vec::new() };
    assert(n.view().args =~= seq![user_arg(text@)]);
    assert(n.view().props =~= seq![]);
    ActionValue::Node(Box::new(n))
}

/// Build the ActionValue for a catalog entry once its argument (if any) is
/// chosen. `arg` is raw user text; empty means default where sensible.
pub fn to_action(entry: &Entry, arg: Option<&str>) -> (r: ActionValue)
    requires
        fixed_nonempty(entry.args),
    ensures
        r.view() == action_for(*entry, opt_text(arg)),
{
    let given: Option<&str> = match arg {
        Some(s) => if is_blank(s) { None } else { Some(s) },
        None => None,
    };
    match entry.args {
        Args::NoArg => ActionValue::simple(entry.name),
        Args::SizeChange => node_with_arg_text(entry.name, match given { Some(s) => s, None => "+10%" }),
        Args::WorkspaceRef => node_with_arg_text(entry.name, match given { Some(s) => s, None => "2" }),
        Args::Fixed(words) => node_with_arg_text(entry.name, match given { Some(s) => s, None => words[0] }),
    }
}

/// The `niri msg action` words that fire an action: its name, `--` before a
/// command for `spawn`/`spawn-sh`, then each argument's text. Nothing for
/// unbound slots, raw text, `quit` and `suspend`.
pub open spec fn msg_words_of(v: ActionValueV) -> Option<Seq<Seq<char>>> {
    match v {
        ActionValueV::Node(a) => if a.name == "quit"@ || a.name == "suspend"@ {
            None
        } else {
            Some(
                seq![a.name] + (if a.name == "spawn"@ || a.name == "spawn-sh"@ { seq!["--"@] } else { seq![] })
                    + Seq::new(a.args.len(), |i: int| a.args[i].text()),
            )
        },
        _ => None,
    }
}

/// The user's own argument is what the action carries: for an entry that
/// takes an argument and any text holding a non-whitespace character, the
/// action built is the entry's node with exactly that one argument, whose
/// text is the user's text, whatever kind of argument the entry takes; it is
/// written bare exactly when it is a bare token.
pub proof fn law_to_action_keeps_user_text(e: Entry, t: Seq<char>, j: int)
    requires
        !(e.args is NoArg),
        0 <= j < t.len(),
        !is_unicode_whitespace(t[j]),
    ensures
        action_for(e, Some(t)) is Node,
        action_for(e, Some(t))->Node_0.name == e.name@,
        action_for(e, Some(t))->Node_0.props.len() == 0,
        action_for(e, Some(t))->Node_0.args.len() == 1,
        action_for(e, Some(t))->Node_0.args[0].text() == t,
        action_for(e, Some(t))->Node_0.args[0] is Word <==> crate::kdl::bare_token(t),
{
    assert(!blank(t));
}

/// The words that fire a testable action: its name, then `--` exactly for
/// `spawn` and `spawn-sh`, then the text of every one of its arguments, in
/// order, whatever the action is.
pub proof fn law_msg_words_carry_every_argument(a: ActionNodeV)
    requires
        a.name != "quit"@,
        a.name != "suspend"@,
    ensures
        msg_words_of(ActionValueV::Node(a)) is Some,
        msg_words_of(ActionValueV::Node(a))->0[0] == a.name,
        a.name == "spawn"@ || a.name == "spawn-sh"@ ==> msg_words_of(ActionValueV::Node(a))->0.len() == 2
            + a.args.len() && msg_words_of(ActionValueV::Node(a))->0[1] == "--"@ && forall|i: int|
            0 <= i < a.args.len() ==> msg_words_of(ActionValueV::Node(a))->0[2 + i] == #[trigger] a.args[i].text(),
        !(a.name == "spawn"@ || a.name == "spawn-sh"@) ==> msg_words_of(ActionValueV::Node(a))->0.len() == 1
            + a.args.len() && forall|i: int|
            0 <= i < a.args.len() ==> msg_words_of(ActionValueV::Node(a))->0[1 + i] == #[trigger] a.args[i].text(),
{
}

/// With no argument text, or only whitespace, an entry that takes an
/// argument gets its default: `+10%` for a size change, workspace `2`, the
/// first of a fixed word list. An entry that takes none is its bare name,
/// whatever text was given.
pub proof fn law_to_action_defaults(e: Entry, arg: Option<Seq<char>>)
    requires
        match arg {
            Some(t) => forall|j: int| 0 <= j < t.len() ==> is_unicode_whitespace(#[trigger] t[j]),
            None => true,
        },
    ensures
        action_for(e, arg) is Node,
        action_for(e, arg)->Node_0.name == e.name@,
        action_for(e, arg)->Node_0.props.len() == 0,
        e.args is NoArg ==> action_for(e, arg)->Node_0.args.len() == 0,
        e.args is SizeChange ==> action_for(e, arg)->Node_0.args.len() == 1 && action_for(e, arg)->Node_0.args[0].text()
            == "+10%"@,
        e.args is WorkspaceRef ==> action_for(e, arg)->Node_0.args.len() == 1 && action_for(
            e,
            arg,
        )->Node_0.args[0].text() == "2"@,
        e.args matches Args::Fixed(words) ==> action_for(e, arg)->Node_0.args.len() == 1 && action_for(
            e,
            arg,
        )->Node_0.args[0].text() == words@[0]@,
{
}

/// An entry that takes no argument ignores any text given: its action is
/// its bare name.
pub proof fn law_to_action_without_argument(e: Entry, arg: Option<Seq<char>>)
    requires
        e.args is NoArg,
    ensures
        action_for(e, arg) == ActionValueV::Node(ActionNodeV { name: e.name@, args: seq![], props: seq![] }),
{
}

/// Nothing is fired for `quit`, `suspend`, an unbound slot or raw text.
pub proof fn law_msg_words_untestable(a: ActionNodeV, raw: Seq<char>)
    ensures
        a.name == "quit"@ ==> msg_words_of(ActionValueV::Node(a)) is None,
        a.name == "suspend"@ ==> msg_words_of(ActionValueV::Node(a)) is None,
        msg_words_of(ActionValueV::Unbound) is None,
        msg_words_of(ActionValueV::Raw(raw)) is None,
{
}

/// Words for `niri msg action ...` to fire this value on the running
/// compositor. None when it can't (or shouldn't) be tested.
pub fn msg_words(value: &ActionValue) -> (r: Option<Vec<String>>)
    ensures
        match msg_words_of(value.view()) {
            Some(ws) => r is Some && strings_view(r->0@) == ws,
            None => r is None,
        },
{
    let n = match value {
        ActionValue::Node(n) => n,
        _ => {
            return None;
        },
    };
    if crate::text::str_eq(n.name.as_str(), "quit") || crate::text::str_eq(n.name.as_str(), "suspend") {
        return None;
    }
    let ghost a = n.view();
    let mut words: Vec<String> = Vec::new();
    words.push(n.name.clone());
    if crate::text::str_eq(n.name.as_str(), "spawn") || crate::text::str_eq(n.name.as_str(), "spawn-sh") {
        // clap `last = true`: everything after `--`.
        words.push(owned("--"));
    }
    let ghost head = strings_view(words@);
    assert(head =~= seq![a.name] + (if a.name == "spawn"@ || a.name == "spawn-sh"@ { seq!["--"@] } else { seq![] }));
    let mut i: usize = 0;
    while i < n.args.len()
        invariant
            a == n.view(),
            i <= n.args@.len(),
            strings_view(words@) == head + Seq::new(i as nat, |j: int| a.args[j].text()),
        decreases n.args@.len() - i,
    {
        let t = n.args[i].text();
        words.push(owned(t));
        assert(head + Seq::new((i + 1) as nat, |j: int| a.args[j].text())
            =~= (head + Seq::new(i as nat, |j: int| a.args[j].text())).push(t@));
        assert(strings_view(words@) =~= head + Seq::new((i + 1) as nat, |j: int| a.args[j].text()));
        i = i + 1;
    }
    Some(words)
}

} // verus!
