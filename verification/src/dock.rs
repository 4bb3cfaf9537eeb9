//! The workspace chrome around documents: top-bar dropdowns, dock tab
//! titles and accessibility text, and how keyboard commands are routed.

use vstd::prelude::*;

use crate::text::{decimal, push_decimal, push_str};

verus! {

/// The three dropdowns of the top bar.
#[derive(Clone, Copy, Debug, PartialEq, Eq, Structural)]
pub enum TopPanelDropdown {
    Recent,
    Filters,
    More,
}

/// Opening one dropdown closes the others; choosing the open one closes it.
/// Returns the visibility of (recent, filters, more).
pub fn dropdown_visibility(selected: TopPanelDropdown, was_open: bool) -> (shown: (bool, bool, bool))
    ensures
        shown == match selected {
            TopPanelDropdown::Recent => (!was_open, false, false),
            TopPanelDropdown::Filters => (false, !was_open, false),
            TopPanelDropdown::More => (false, false, !was_open),
        },
{
    let open = !was_open;
    match selected {
        TopPanelDropdown::Recent => (open, false, false),
        TopPanelDropdown::Filters => (false, open, false),
        TopPanelDropdown::More => (false, false, open),
    }
}

/// The open-file shortcut shown in hints (Cmd on macOS, Ctrl elsewhere).
pub fn open_file_shortcut(on_macos: bool) -> (shortcut: &'static str)
    ensures
        shortcut@ == if on_macos {
            "Cmd+O"@
        } else {
            "Ctrl+O"@
        },
{
    if on_macos {
        "Cmd+O"
    } else {
        "Ctrl+O"
    }
}

/// The document status line: the format description, followed by the status
/// when there is one; empty when no document is open.
pub fn document_status_context(format: Option<&str>, status: &str) -> (context: String)
    ensures
        context@ == match format {
            Some(f) => if status@.len() > 0 {
                f@ + " · "@ + status@
            } else {
                f@
            },
            None => Seq::<char>::empty(),
        },
{
    let mut out = String::new();
    match format {
        Some(f) => {
            push_str(&mut out, f);
            if !status.is_empty() {
                push_str(&mut out, " · ");
                push_str(&mut out, status);
            }
        },
        None => {},
    }
    out
}

/// Another frame is needed while a search runs, a loader changed or is
/// still running, or the tool server is enabled.
pub fn should_request_repaint(
    any_search: bool,
    loaders_changed: bool,
    loaders_in_flight: bool,
    mcp_enabled: bool,
) -> (repaint: bool)
    ensures
        repaint == (any_search || loaders_changed || loaders_in_flight || mcp_enabled),
{
    any_search || loaders_changed || loaders_in_flight || mcp_enabled
}

/// Identity of one Log View of a document.
#[derive(Clone, Copy, Debug, PartialEq, Eq, Hash, Structural)]
pub struct LogViewId(pub u64);

impl LogViewId {
    /// The Log View every document starts with.
    pub fn initial() -> (id: LogViewId)
        ensures
            id == LogViewId(1),
    {
        LogViewId(1)
    }
}

/// A dockable view of a document.
#[derive(Clone, Copy, Debug, PartialEq, Eq, Hash, Structural)]
pub enum ViewTab {
    Timeline,
    Log(LogViewId),
    Pinned,
    Templates,
}

/// The base name of a view.
pub open spec fn tab_name(tab: ViewTab) -> Seq<char> {
    match tab {
        ViewTab::Timeline => "Timeline"@,
        ViewTab::Log(_) => "Log"@,
        ViewTab::Pinned => "Pinned"@,
        ViewTab::Templates => "Templates"@,
    }
}

/// The base name of a view.
pub fn dock_tab_name(tab: ViewTab) -> (name: &'static str)
    ensures
        name@ == tab_name(tab),
{
    match tab {
        ViewTab::Timeline => "Timeline",
        ViewTab::Log(_) => "Log",
        ViewTab::Pinned => "Pinned",
        ViewTab::Templates => "Templates",
    }
}

/// The number shown for a Log View (1 when unknown).
pub open spec fn shown_number(display_number: Option<u64>) -> Seq<char> {
    decimal(
        match display_number {
            Some(n) => n as nat,
            None => 1,
        },
    )
}

fn push_shown_number(out: &mut String, display_number: Option<u64>)
    ensures
        final(out)@ == old(out)@ + shown_number(display_number),
{
    push_decimal(
        out,
        match display_number {
            Some(n) => n,
            None => 1,
        },
    );
}

/// The window title of a detached view: the file name and the view, with
/// Log Views numbered once there is more than one.
pub fn detached_view_title(
    file_name: &str,
    view_tab: ViewTab,
    log_view_count: usize,
    display_number: Option<u64>,
) -> (title: String)
    ensures
        title@ == file_name@ + " · "@ + match view_tab {
            ViewTab::Log(_) => if log_view_count > 1 {
                "Log View "@ + shown_number(display_number)
            } else {
                "Log View"@
            },
            _ => tab_name(view_tab),
        },
{
    let mut out = String::new();
    push_str(&mut out, file_name);
    push_str(&mut out, " · ");
    match view_tab {
        ViewTab::Log(_) => {
            if log_view_count > 1 {
                push_str(&mut out, "Log View ");
                push_shown_number(&mut out, display_number);
            } else {
                push_str(&mut out, "Log View");
            }
        },
        _ => push_str(&mut out, dock_tab_name(view_tab)),
    }
    out
}

/// The visible label of a dock tab: the view name, numbered for Log Views
/// when there is more than one.
pub open spec fn tab_label(tab: ViewTab, log_view_count: usize, display_number: Option<u64>) -> Seq<char> {
    match tab {
        ViewTab::Log(_) => if log_view_count > 1 {
            tab_name(tab) + " "@ + shown_number(display_number)
        } else {
            tab_name(tab)
        },
        _ => tab_name(tab),
    }
}

/// The dock tab title: the label padded with spaces that reserve room for
/// the tab's action buttons (wide for Log Views, narrow for Pinned and
/// Templates, none for the Timeline).
pub fn dock_tab_title(tab: ViewTab, log_view_count: usize, display_number: Option<u64>) -> (title: String)
    ensures
        title@ == tab_label(tab, log_view_count, display_number) + match tab {
            ViewTab::Log(_) => "             "@,
            ViewTab::Pinned | ViewTab::Templates => "     "@,
            ViewTab::Timeline => Seq::<char>::empty(),
        },
{
    let mut out = String::new();
    push_str(&mut out, dock_tab_name(tab));
    match tab {
        ViewTab::Log(_) => {
            if log_view_count > 1 {
                push_str(&mut out, " ");
                push_shown_number(&mut out, display_number);
            }
            push_str(&mut out, "             ");
        },
        ViewTab::Pinned | ViewTab::Templates => {
            push_str(&mut out, "     ");
        },
        ViewTab::Timeline => {
            proof {
                assert(out@ =~= tab_label(tab, log_view_count, display_number) + Seq::<char>::empty());
            }
        },
    }
    out
}

/// Screen-reader text of a dock tab: its label followed by what the tab's
/// actions do; the only Log View says that it cannot be closed.
pub fn dock_tab_accessibility_label(tab: ViewTab, log_view_count: usize, display_number: Option<u64>) -> (label: String)
    ensures
        label@ == tab_label(tab, log_view_count, display_number) + match tab {
            ViewTab::Log(_) => if log_view_count == 1 {
                " tab. Add another Log View or open this view in a separate window. The final Log View cannot be closed."@
            } else {
                " tab. Add another Log View, open this view in a separate window, or close this Log View."@
            },
            ViewTab::Pinned | ViewTab::Templates => " tab. Open this view in a separate window."@,
            ViewTab::Timeline => Seq::<char>::empty(),
        },
{
    let mut out = String::new();
    push_str(&mut out, dock_tab_name(tab));
    match tab {
        ViewTab::Log(_) => {
            if log_view_count > 1 {
                push_str(&mut out, " ");
                push_shown_number(&mut out, display_number);
            }
            if log_view_count == 1 {
                push_str(
                    &mut out,
                    " tab. Add another Log View or open this view in a separate window. The final Log View cannot be closed.",
                );
            } else {
                push_str(
                    &mut out,
                    " tab. Add another Log View, open this view in a separate window, or close this Log View.",
                );
            }
        },
        ViewTab::Pinned | ViewTab::Templates => {
            push_str(&mut out, " tab. Open this view in a separate window.");
        },
        ViewTab::Timeline => {
            proof {
                assert(out@ =~= tab_label(tab, log_view_count, display_number) + Seq::<char>::empty());
            }
        },
    }
    out
}

/// Where a dragged view can be dropped. Window, container and split values
/// are carried through unchanged.
#[derive(Clone, Copy, Debug, PartialEq, Eq)]
pub enum DockDropTarget<W, C, S> {
    MainLog,
    MainUtility,
    JoinDetached { window: W, sibling: ViewTab },
    SplitDetached { window: W, sibling: ViewTab, split: S },
    TabInsert { container: C, sibling: ViewTab, after: bool },
}

/// Whether a drop target is anchored on `tab` (so the drag would drop a
/// view onto itself).
pub fn dock_target_points_to_tab<W, C, S>(target: &DockDropTarget<W, C, S>, tab: ViewTab) -> (points: bool)
    ensures
        points == match target {
            DockDropTarget::JoinDetached { sibling, .. } => *sibling == tab,
            DockDropTarget::SplitDetached { sibling, .. } => *sibling == tab,
            DockDropTarget::TabInsert { sibling, .. } => *sibling == tab,
            _ => false,
        },
{
    match target {
        DockDropTarget::JoinDetached { sibling, .. } => *sibling == tab,
        DockDropTarget::SplitDetached { sibling, .. } => *sibling == tab,
        DockDropTarget::TabInsert { sibling, .. } => *sibling == tab,
        _ => false,
    }
}


/// Keyboard and palette commands of the application.
#[derive(Clone, Copy, Debug, PartialEq, Eq, Structural)]
pub enum AppCommand {
    Open,
    CloseTab,
    NextTab,
    PreviousTab,
    FocusFind,
    GoTo,
    NextFind,
    PreviousFind,
    ViewportStart,
    ViewportEnd,
    DocumentStart,
    DocumentEnd,
    ToggleLane,
    DeleteSelected,
    UndoDelete,
    ToggleLogFocus,
    ShowHelp,
    ShowPalette,
}

/// What a command can see of the application when it is dispatched.
#[derive(Clone, Copy, Debug)]
pub struct CommandContext {
    /// A document is still loading in the foreground.
    pub loader_active: bool,
    /// A document tab is selected.
    pub tab_selected: bool,
    /// The selected document tab exists.
    pub tab_present: bool,
    /// First and last line of the Log View's viewport, if known.
    pub viewport_first: Option<usize>,
    pub viewport_last: Option<usize>,
    /// First and last visible line of the document, if any.
    pub visible_first: Option<usize>,
    pub visible_last: Option<usize>,
    /// The selected filter lane, if any.
    pub selected_lane: Option<usize>,
    /// A pin is selected.
    pub pin_selected: bool,
    /// The focused Log View lives in a separate window.
    pub focused_view_detached: bool,
}

/// What the application does for a command.
#[derive(Clone, Copy, Debug, PartialEq, Eq, Structural)]
pub enum CommandEffect {
    OpenFileDialog,
    CancelLoader,
    CloseSelectedTab,
    CycleTabs { backward: bool },
    FocusFind,
    ShowGoto,
    FindNext,
    FindPrevious,
    SelectAndScroll(usize),
    ToggleLane,
    RequestFilterRemoval(usize),
    RemoveSelectedPin,
    UndoDelete,
    ToggleLogFocus,
    ShowHelp,
    ShowPalette,
    Nothing,
}

/// The routing table of commands: closing cancels a running load before it
/// closes a tab; tab-bound commands need a tab; the viewport commands fall
/// back to the document boundary when the viewport is unknown; deleting
/// removes the selected lane's filter before the selected pin; focus mode
/// only toggles for a Log View docked in the main window.
pub open spec fn command_effect(command: AppCommand, ctx: CommandContext) -> CommandEffect {
    match command {
        AppCommand::Open => CommandEffect::OpenFileDialog,
        AppCommand::CloseTab => if ctx.loader_active {
            CommandEffect::CancelLoader
        } else if ctx.tab_selected {
            CommandEffect::CloseSelectedTab
        } else {
            CommandEffect::Nothing
        },
        AppCommand::NextTab => CommandEffect::CycleTabs { backward: false },
        AppCommand::PreviousTab => CommandEffect::CycleTabs { backward: true },
        AppCommand::ShowHelp => CommandEffect::ShowHelp,
        AppCommand::ShowPalette => CommandEffect::ShowPalette,
        AppCommand::GoTo => if ctx.tab_selected {
            CommandEffect::ShowGoto
        } else {
            CommandEffect::Nothing
        },
        _ => if !ctx.tab_present {
            CommandEffect::Nothing
        } else {
            match command {
                AppCommand::FocusFind => CommandEffect::FocusFind,
                AppCommand::NextFind => CommandEffect::FindNext,
                AppCommand::PreviousFind => CommandEffect::FindPrevious,
                AppCommand::ViewportStart => match (if ctx.viewport_first is Some {
                    ctx.viewport_first
                } else {
                    ctx.visible_first
                }) {
                    Some(line) => CommandEffect::SelectAndScroll(line),
                    None => CommandEffect::Nothing,
                },
                AppCommand::ViewportEnd => match (if ctx.viewport_last is Some {
                    ctx.viewport_last
                } else {
                    ctx.visible_last
                }) {
                    Some(line) => CommandEffect::SelectAndScroll(line),
                    None => CommandEffect::Nothing,
                },
                AppCommand::DocumentStart => match ctx.visible_first {
                    Some(line) => CommandEffect::SelectAndScroll(line),
                    None => CommandEffect::Nothing,
                },
                AppCommand::DocumentEnd => match ctx.visible_last {
                    Some(line) => CommandEffect::SelectAndScroll(line),
                    None => CommandEffect::Nothing,
                },
                AppCommand::ToggleLane => CommandEffect::ToggleLane,
                AppCommand::DeleteSelected => match ctx.selected_lane {
                    Some(lane) => CommandEffect::RequestFilterRemoval(lane),
                    None => if ctx.pin_selected {
                        CommandEffect::RemoveSelectedPin
                    } else {
                        CommandEffect::Nothing
                    },
                },
                AppCommand::UndoDelete => CommandEffect::UndoDelete,
                AppCommand::ToggleLogFocus => if ctx.focused_view_detached {
                    CommandEffect::Nothing
                } else {
                    CommandEffect::ToggleLogFocus
                },
                _ => CommandEffect::Nothing,
            }
        },
    }
}

fn select_line(target: Option<usize>) -> (effect: CommandEffect)
    ensures
        effect == match target {
            Some(line) => CommandEffect::SelectAndScroll(line),
            None => CommandEffect::Nothing,
        },
{
    match target {
        Some(line) => CommandEffect::SelectAndScroll(line),
        None => CommandEffect::Nothing,
    }
}

/// Routes a command to what the application does (see `command_effect`).
pub fn dispatch_command(command: AppCommand, ctx: CommandContext) -> (effect: CommandEffect)
    ensures
        effect == command_effect(command, ctx),
{
    match command {
        AppCommand::Open => CommandEffect::OpenFileDialog,
        AppCommand::CloseTab => {
            if ctx.loader_active {
                CommandEffect::CancelLoader
            } else if ctx.tab_selected {
                CommandEffect::CloseSelectedTab
            } else {
                CommandEffect::Nothing
            }
        },
        AppCommand::NextTab => CommandEffect::CycleTabs { backward: false },
        AppCommand::PreviousTab => CommandEffect::CycleTabs { backward: true },
        AppCommand::ShowHelp => CommandEffect::ShowHelp,
        AppCommand::ShowPalette => CommandEffect::ShowPalette,
        AppCommand::GoTo => {
            if ctx.tab_selected {
                CommandEffect::ShowGoto
            } else {
                CommandEffect::Nothing
            }
        },
        _ => {
            if !ctx.tab_present {
                return CommandEffect::Nothing;
            }
            match command {
                AppCommand::FocusFind => CommandEffect::FocusFind,
                AppCommand::NextFind => CommandEffect::FindNext,
                AppCommand::PreviousFind => CommandEffect::FindPrevious,
                AppCommand::ViewportStart => select_line(
                    if ctx.viewport_first.is_some() {
                        ctx.viewport_first
                    } else {
                        ctx.visible_first
                    },
                ),
                AppCommand::ViewportEnd => select_line(
                    if ctx.viewport_last.is_some() {
                        ctx.viewport_last
                    } else {
                        ctx.visible_last
                    },
                ),
                AppCommand::DocumentStart => select_line(ctx.visible_first),
                AppCommand::DocumentEnd => select_line(ctx.visible_last),
                AppCommand::ToggleLane => CommandEffect::ToggleLane,
                AppCommand::DeleteSelected => match ctx.selected_lane {
                    Some(lane) => CommandEffect::RequestFilterRemoval(lane),
                    None => {
                        if ctx.pin_selected {
                            CommandEffect::RemoveSelectedPin
                        } else {
                            CommandEffect::Nothing
                        }
                    },
                },
                AppCommand::UndoDelete => CommandEffect::UndoDelete,
                AppCommand::ToggleLogFocus => {
                    if ctx.focused_view_detached {
                        CommandEffect::Nothing
                    } else {
                        CommandEffect::ToggleLogFocus
                    }
                },
                _ => CommandEffect::Nothing,
            }
        },
    }
}


/// Only a Log View can be closed, and only while another one remains.
pub fn tab_is_closeable(tab: ViewTab, log_view_count: usize) -> (closeable: bool)
    ensures
        closeable == (tab is Log && log_view_count > 1),
{
    match tab {
        ViewTab::Log(_) => log_view_count > 1,
        _ => false,
    }
}

} // verus!
