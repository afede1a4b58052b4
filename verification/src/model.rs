//! The data model: jail snapshots, entries, settings, and the dashboard's
//! mutable state.

use vstd::prelude::*;

verus! {

/// A jail setting as the control tool printed it, with its value in
/// seconds when the text was a plain number.
#[derive(Debug, Clone)]
pub struct TimeValue {
    pub raw: String,
    pub seconds: Option<u64>,
}

/// One banned address, with its resolved expiry instant when known and the
/// tool's original ban-time text otherwise.
#[derive(Debug, Clone)]
pub struct IpEntry {
    pub ip: String,
    pub end_epoch: Option<i64>,
    pub time_raw: Option<String>,
}

/// One jail's state in a snapshot.
#[derive(Debug, Clone)]
pub struct JailStatus {
    pub name: String,
    pub ips: Vec<IpEntry>,
    pub bantime: TimeValue,
    pub findtime: TimeValue,
    pub maxretry: Option<u32>,
    pub currently_banned: Option<u32>,
    pub total_banned: Option<u32>,
}

#[derive(Debug, Clone, Copy, PartialEq, Eq, Structural)]
pub enum SortMode {
    Ip,
    TimeLeft,
}

#[derive(Debug, Clone, Copy, PartialEq, Eq, Structural)]
pub enum Focus {
    Jails,
    Ips,
}

impl Default for Focus {
    fn default() -> (r: Focus)
        ensures
            r == Focus::Jails,
    {
        Focus::Jails
    }
}

/// The two stages of the destructive unban-all confirmation.
#[derive(Debug, Clone, Copy, PartialEq, Eq, Structural)]
pub enum UnbanStep {
    First,
    Final,
}

/// The modal dialog, at most one open at a time.
#[derive(Debug, Clone)]
pub enum Modal {
    UnbanIp { jail: String, ip: String },
    UnbanAll { jail: String, step: UnbanStep },
    BanIp { jail: String, input: String, error: Option<String> },
}

/// A rectangular screen region, for mapping mouse presses to list rows and
/// buttons.
#[derive(Debug, Clone, Copy, PartialEq, Eq, Structural)]
pub struct PanelRect {
    pub x: u16,
    pub y: u16,
    pub width: u16,
    pub height: u16,
}

/// A key press as the state machine reads it.
#[derive(Debug, Clone, Copy, PartialEq, Eq, Structural)]
pub enum KeyCode {
    Char(char),
    Enter,
    Esc,
    Backspace,
    Tab,
    Up,
    Down,
}

#[derive(Debug, Clone, Copy, PartialEq, Eq, Structural)]
pub struct KeyInput {
    pub code: KeyCode,
    pub ctrl: bool,
    pub shift: bool,
}

/// A side-effecting command the state machine hands its caller: run it,
/// then report the outcome back through the matching `apply` function.
#[derive(Debug, Clone)]
pub enum Command {
    Quit,
    Refresh,
    Ban { jail: String, ip: String },
    Unban { jail: String, ip: String },
    UnbanAll { jail: String },
}

/// All mutable state of the dashboard.
#[derive(Debug)]
pub struct UiState {
    pub jails: Vec<JailStatus>,
    pub jail_selected: Option<usize>,
    pub ip_selected: Option<usize>,
    pub focus: Focus,
    pub status: String,
    pub modal: Option<Modal>,
    pub search_query: String,
    pub search_mode: bool,
    pub sort_mode: SortMode,
    pub autorefresh: bool,
    pub refresh_interval_secs: u64,
    pub jail_rect: Option<PanelRect>,
    pub ip_rect: Option<PanelRect>,
    pub modal_yes_rect: Option<PanelRect>,
    pub modal_no_rect: Option<PanelRect>,
}

impl UiState {
    /// A jail is selected exactly when the snapshot has jails, the
    /// selection is in bounds, and modal and search entry are never open
    /// together.
    pub open spec fn wf(self) -> bool {
        &&& (self.jail_selected is None <==> self.jails@.len() == 0)
        &&& (self.jail_selected is Some ==> self.jail_selected->0 < self.jails@.len())
        &&& !(self.modal is Some && self.search_mode)
    }

    /// Everything but the status line agrees.
    pub open spec fn eq_except_status(self, other: UiState) -> bool {
        &&& self.jails == other.jails
        &&& self.jail_selected == other.jail_selected
        &&& self.ip_selected == other.ip_selected
        &&& self.focus == other.focus
        &&& self.modal == other.modal
        &&& self.search_query == other.search_query
        &&& self.search_mode == other.search_mode
        &&& self.sort_mode == other.sort_mode
        &&& self.autorefresh == other.autorefresh
        &&& self.refresh_interval_secs == other.refresh_interval_secs
        &&& self.jail_rect == other.jail_rect
        &&& self.ip_rect == other.ip_rect
        &&& self.modal_yes_rect == other.modal_yes_rect
        &&& self.modal_no_rect == other.modal_no_rect
    }

    /// The initial state: empty snapshot, jails panel focused, sort by
    /// address, auto-refresh off, five-second interval.
    pub fn new() -> (r: UiState)
        ensures
            r.wf(),
            r.jails@.len() == 0,
            r.jail_selected is None,
            r.ip_selected is None,
            r.focus == Focus::Jails,
            r.status@ == Seq::<char>::empty(),
            r.modal is None,
            r.search_query@ == Seq::<char>::empty(),
            !r.search_mode,
            r.sort_mode == SortMode::Ip,
            !r.autorefresh,
            r.refresh_interval_secs == 5,
            r.jail_rect is None,
            r.ip_rect is None,
            r.modal_yes_rect is None,
            r.modal_no_rect is None,
    {
        UiState {
            jails: Vec::new(),
            jail_selected: None,
            ip_selected: None,
            focus: Focus::Jails,
            status: String::new(),
            modal: None,
            search_query: String::new(),
            search_mode: false,
            sort_mode: SortMode::Ip,
            autorefresh: false,
            refresh_interval_secs: 5,
            jail_rect: None,
            ip_rect: None,
            modal_yes_rect: None,
            modal_no_rect: None,
        }
    }

    /// The selected jail's position, zero when none is recorded.
    pub fn selected_jail_index(&self) -> (r: usize)
        ensures
            r == sel_or_zero(self.jail_selected),
    {
        match self.jail_selected {
            Some(i) => i,
            None => 0,
        }
    }

    /// The selected row's position in the projection, zero when none is
    /// recorded.
    pub fn selected_ip_index(&self) -> (r: usize)
        ensures
            r == sel_or_zero(self.ip_selected),
    {
        match self.ip_selected {
            Some(i) => i,
            None => 0,
        }
    }

    /// The jail the selection points at; when the snapshot is empty (or the
    /// position is out of bounds) there is none.
    pub open spec fn has_selected_jail(self) -> bool {
        sel_or_zero(self.jail_selected) < self.jails@.len()
    }

    pub open spec fn spec_selected_jail(self) -> JailStatus
        recommends
            self.has_selected_jail(),
    {
        self.jails@[sel_or_zero(self.jail_selected) as int]
    }

    /// The selected jail, when the recorded position is in bounds.
    pub fn selected_jail(&self) -> (r: Option<&JailStatus>)
        ensures
            self.has_selected_jail() ==> (r is Some && *r->0 == self.spec_selected_jail()),
            !self.has_selected_jail() ==> r is None,
    {
        let idx = self.selected_jail_index();
        if idx < self.jails.len() {
            Some(&self.jails[idx])
        } else {
            None
        }
    }

    /// The entry the selected row points at, through the given projection
    /// of this jail's entries.
    pub fn selected_ip<'a>(&self, jail: &'a JailStatus, view: &Vec<usize>) -> (r: Option<
        &'a IpEntry,
    >)
        ensures
            ({
                let idx = sel_or_zero(self.ip_selected);
                if idx < view@.len() && view@[idx as int] < jail.ips@.len() {
                    r is Some && *r->0 == jail.ips@[view@[idx as int] as int]
                } else {
                    r is None
                }
            }),
    {
        let idx = self.selected_ip_index();
        if idx < view.len() {
            let pos = view[idx];
            if pos < jail.ips.len() {
                Some(&jail.ips[pos])
            } else {
                None
            }
        } else {
            None
        }
    }

    /// Replaces the status line and nothing else.
    pub fn set_status(&mut self, msg: &str)
        ensures
            final(self).status@ == msg@,
            final(self).eq_except_status(*old(self)),
    {
        self.status = msg.to_owned();
    }
}

impl Default for UiState {
    fn default() -> (r: UiState)
        ensures
            r.wf(),
            r.jails@.len() == 0,
            r.jail_selected is None,
            r.ip_selected is None,
            r.focus == Focus::Jails,
            r.status@ == Seq::<char>::empty(),
            r.modal is None,
            r.search_query@ == Seq::<char>::empty(),
            !r.search_mode,
            r.sort_mode == SortMode::Ip,
            !r.autorefresh,
            r.refresh_interval_secs == 5,
    {
        UiState::new()
    }
}

pub open spec fn sel_or_zero(sel: Option<usize>) -> usize {
    match sel {
        Some(i) => i,
        None => 0usize,
    }
}

/// Whether a refresh is due: auto-refresh is on and at least the interval
/// has elapsed since the last one.
pub fn refresh_due(autorefresh: bool, elapsed_secs: u64, interval_secs: u64) -> (r: bool)
    ensures
        r == (autorefresh && elapsed_secs >= interval_secs),
{
    autorefresh && elapsed_secs >= interval_secs
}

// ---------------------------------------------------------------------------
// Value copies with known contents
// ---------------------------------------------------------------------------

/// A copy of an optional string, equal to the original.
pub fn clone_opt_string(s: &Option<String>) -> (r: Option<String>)
    ensures
        r == s,
{
    match s {
        Some(t) => Some(t.clone()),
        None => None,
    }
}

/// A copy of a setting, equal to the original.
pub fn clone_time_value(tv: &TimeValue) -> (r: TimeValue)
    ensures
        r == tv,
{
    TimeValue { raw: tv.raw.clone(), seconds: tv.seconds }
}

/// A copy of an entry, equal to the original.
pub fn clone_entry(e: &IpEntry) -> (r: IpEntry)
    ensures
        r == e,
{
    IpEntry { ip: e.ip.clone(), end_epoch: e.end_epoch, time_raw: clone_opt_string(&e.time_raw) }
}

} // verus!
