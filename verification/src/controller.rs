//! The interaction state machine: every key press and mouse press maps to a
//! state change and, at most, one command for the caller to run; the
//! outcome of a command is reported back through the `apply` functions.
//!
//! The contracts speak of a ghost mirror of the state (`StateV`), with
//! every text field as its character sequence, so each transition is pinned
//! exactly.

use vstd::prelude::*;
use vstd::string::StringExecFns;
use crate::addr::{is_valid_ip_chars, is_valid_ip_spec};
use crate::model::{
    Command, Focus, IpEntry, JailStatus, KeyCode, KeyInput, Modal, PanelRect, SortMode,
    UiState, UnbanStep, sel_or_zero,
};
use crate::text::{chars_vec, dec_str, eq_chars, push_dec_u64, string_from_chars, trim_chars, trim_spec};
use crate::view::{current_ip_view, is_projection, mouse_index_spec, list_index_from_mouse, point_in_rect, point_in_rect_spec};

verus! {

// ---------------------------------------------------------------------------
// The ghost mirror of the state
// ---------------------------------------------------------------------------

/// The modal with its texts as character sequences.
#[verifier::ext_equal]
pub enum ModalV {
    UnbanIp { jail: Seq<char>, ip: Seq<char> },
    UnbanAll { jail: Seq<char>, step: UnbanStep },
    BanIp { jail: Seq<char>, input: Seq<char>, error: Option<Seq<char>> },
}

pub open spec fn modal_v(m: Modal) -> ModalV {
    match m {
        Modal::UnbanIp { jail, ip } => ModalV::UnbanIp { jail: jail@, ip: ip@ },
        Modal::UnbanAll { jail, step } => ModalV::UnbanAll { jail: jail@, step },
        Modal::BanIp { jail, input, error } => ModalV::BanIp {
            jail: jail@,
            input: input@,
            error: match error {
                Some(e) => Some(e@),
                None => None,
            },
        },
    }
}

pub open spec fn opt_modal_v(m: Option<Modal>) -> Option<ModalV> {
    match m {
        Some(x) => Some(modal_v(x)),
        None => None,
    }
}

/// A command with its texts as character sequences.
#[verifier::ext_equal]
pub enum CommandV {
    Quit,
    Refresh,
    Ban { jail: Seq<char>, ip: Seq<char> },
    Unban { jail: Seq<char>, ip: Seq<char> },
    UnbanAll { jail: Seq<char> },
}

pub open spec fn command_v(c: Command) -> CommandV {
    match c {
        Command::Quit => CommandV::Quit,
        Command::Refresh => CommandV::Refresh,
        Command::Ban { jail, ip } => CommandV::Ban { jail: jail@, ip: ip@ },
        Command::Unban { jail, ip } => CommandV::Unban { jail: jail@, ip: ip@ },
        Command::UnbanAll { jail } => CommandV::UnbanAll { jail: jail@ },
    }
}

pub open spec fn opt_command_v(c: Option<Command>) -> Option<CommandV> {
    match c {
        Some(x) => Some(command_v(x)),
        None => None,
    }
}

/// The whole state, with text fields as character sequences.
#[verifier::ext_equal]
pub struct StateV {
    pub jails: Seq<JailStatus>,
    pub jail_selected: Option<usize>,
    pub ip_selected: Option<usize>,
    pub focus: Focus,
    pub status: Seq<char>,
    pub modal: Option<ModalV>,
    pub search_query: Seq<char>,
    pub search_mode: bool,
    pub sort_mode: SortMode,
    pub autorefresh: bool,
    pub refresh_interval_secs: u64,
    pub jail_rect: Option<PanelRect>,
    pub ip_rect: Option<PanelRect>,
    pub modal_yes_rect: Option<PanelRect>,
    pub modal_no_rect: Option<PanelRect>,
}

impl UiState {
    /// The ghost mirror of this state.
    pub open spec fn v(self) -> StateV {
        StateV {
            jails: self.jails@,
            jail_selected: self.jail_selected,
            ip_selected: self.ip_selected,
            focus: self.focus,
            status: self.status@,
            modal: opt_modal_v(self.modal),
            search_query: self.search_query@,
            search_mode: self.search_mode,
            sort_mode: self.sort_mode,
            autorefresh: self.autorefresh,
            refresh_interval_secs: self.refresh_interval_secs,
            jail_rect: self.jail_rect,
            ip_rect: self.ip_rect,
            modal_yes_rect: self.modal_yes_rect,
            modal_no_rect: self.modal_no_rect,
        }
    }
}

/// The text with its last character removed; empty text stays empty.
pub open spec fn dropped_last(s: Seq<char>) -> Seq<char> {
    if s.len() == 0 {
        s
    } else {
        s.drop_last()
    }
}

/// Where a move by `delta` lands in a list of `len` rows, clamped.
pub open spec fn clamp_move(cur: int, delta: int, len: int) -> int
    recommends
        len >= 1,
{
    if cur + delta < 0 {
        0
    } else if cur + delta > len - 1 {
        len - 1
    } else {
        cur + delta
    }
}

/// The selected jail of a mirror state.
pub open spec fn v_has_jail(a: StateV) -> bool {
    sel_or_zero(a.jail_selected) < a.jails.len()
}

pub open spec fn v_jail(a: StateV) -> JailStatus
    recommends
        v_has_jail(a),
{
    a.jails[sel_or_zero(a.jail_selected) as int]
}

// ---------------------------------------------------------------------------
// Moving the selections
// ---------------------------------------------------------------------------

/// Moving the jail selection: clamped into the jail list, and the row
/// selection restarts at the top.
pub open spec fn move_jail_rel(a: StateV, delta: int, b: StateV) -> bool {
    if a.jails.len() == 0 {
        b == a
    } else {
        b == (StateV {
            jail_selected: Some(
                clamp_move(
                    sel_or_zero(a.jail_selected) as int,
                    delta,
                    a.jails.len() as int,
                ) as usize,
            ),
            ip_selected: Some(0usize),
            ..a
        })
    }
}

/// Moving the row selection: clamped into the current projection; an empty
/// projection leaves the state alone.
pub open spec fn move_ip_rel(a: StateV, delta: int, now: int, b: StateV, p: Seq<usize>) -> bool {
    if !v_has_jail(a) {
        b == a
    } else {
        &&& is_projection(v_jail(a), a.search_query, a.sort_mode, now, p)
        &&& if p.len() == 0 {
            b == a
        } else {
            b == (StateV {
                ip_selected: Some(
                    clamp_move(sel_or_zero(a.ip_selected) as int, delta, p.len() as int) as usize,
                ),
                ..a
            })
        }
    }
}

impl UiState {
    /// Moves the jail selection by `delta`, clamped; the row selection
    /// restarts at the top.
    pub fn move_jail(&mut self, delta: i32)
        requires
            old(self).wf(),
        ensures
            final(self).wf(),
            move_jail_rel(old(self).v(), delta as int, final(self).v()),
    {
        if self.jails.len() == 0 {
            return;
        }
        let len = self.jails.len();
        let cur = self.selected_jail_index();
        let target: i128 = cur as i128 + delta as i128;
        let next: usize = if target < 0 {
            0
        } else if target > (len - 1) as i128 {
            len - 1
        } else {
            target as usize
        };
        self.jail_selected = Some(next);
        self.ip_selected = Some(0);
    }

    /// Moves the row selection by `delta` within the current projection,
    /// clamped.
    pub fn move_ip(&mut self, delta: i32, now: i64)
        requires
            old(self).wf(),
        ensures
            final(self).wf(),
            exists|p: Seq<usize>| move_ip_rel(old(self).v(), delta as int, now as int, final(self).v(), p),
    {
        let jail = match self.selected_jail() {
            Some(j) => j,
            None => {
                proof {
                    let p0 = Seq::<usize>::empty();
                    assert(move_ip_rel(self.v(), delta as int, now as int, self.v(), p0));
                }
                return;
            },
        };
        let view = current_ip_view(jail, self.search_query.as_str(), self.sort_mode, now);
        let ghost p = view@;
        if view.len() == 0 {
            proof {
                assert(move_ip_rel(self.v(), delta as int, now as int, self.v(), p));
            }
            return;
        }
        let len = view.len();
        let cur = self.selected_ip_index();
        let target: i128 = cur as i128 + delta as i128;
        let next: usize = if target < 0 {
            0
        } else if target > (len - 1) as i128 {
            len - 1
        } else {
            target as usize
        };
        self.ip_selected = Some(next);
        proof {
            assert(move_ip_rel(old(self).v(), delta as int, now as int, self.v(), p));
        }
    }

    /// Re-clamps the row selection into the current projection, as the
    /// renderer does before painting: cleared when the projection is empty,
    /// moved up to the last row when it points past the end.
    pub fn normalize_selection(&mut self, now: i64)
        requires
            old(self).wf(),
        ensures
            final(self).wf(),
            !old(self).has_selected_jail() ==> *final(self) == *old(self),
            old(self).has_selected_jail() ==> exists|p: Seq<usize>|
                {
                    &&& is_projection(
                        old(self).spec_selected_jail(),
                        old(self).v().search_query,
                        old(self).sort_mode,
                        now as int,
                        p,
                    )
                    &&& final(self).v() == (StateV {
                        ip_selected: if p.len() == 0 {
                            None
                        } else if sel_or_zero(old(self).ip_selected) >= p.len() {
                            Some((p.len() - 1) as usize)
                        } else {
                            old(self).ip_selected
                        },
                        ..old(self).v()
                    })
                },
    {
        let jail = match self.selected_jail() {
            Some(j) => j,
            None => {
                return;
            },
        };
        let view = current_ip_view(jail, self.search_query.as_str(), self.sort_mode, now);
        let ghost p = view@;
        if view.len() == 0 {
            self.ip_selected = None;
        } else if self.selected_ip_index() >= view.len() {
            self.ip_selected = Some(view.len() - 1);
        }
        proof {
            assert(self.v() == (StateV {
                ip_selected: if p.len() == 0 {
                    None
                } else if sel_or_zero(old(self).ip_selected) >= p.len() {
                    Some((p.len() - 1) as usize)
                } else {
                    old(self).ip_selected
                },
                ..old(self).v()
            }));
        }
    }
}

// ---------------------------------------------------------------------------
// Reporting command outcomes
// ---------------------------------------------------------------------------

impl UiState {
    /// Installs a fresh snapshot: selections restart at the top, or clear
    /// when no jail was reported.
    pub fn apply_refresh_success(&mut self, jails: Vec<JailStatus>)
        requires
            old(self).wf(),
        ensures
            final(self).wf(),
            jails@.len() == 0 ==> final(self).v() == (StateV {
                jails: jails@,
                jail_selected: None,
                ip_selected: None,
                status: "No jails reported by fail2ban-client"@,
                ..old(self).v()
            }),
            jails@.len() > 0 ==> final(self).v() == (StateV {
                jails: jails@,
                jail_selected: Some(0usize),
                ip_selected: Some(0usize),
                status: "Refreshed"@,
                ..old(self).v()
            }),
    {
        let empty = jails.len() == 0;
        self.jails = jails;
        if empty {
            self.jail_selected = None;
            self.ip_selected = None;
            self.set_status("No jails reported by fail2ban-client");
        } else {
            self.jail_selected = Some(0);
            self.ip_selected = Some(0);
            self.set_status("Refreshed");
        }
    }

    /// Keeps the old snapshot and reports the failure on the status line.
    pub fn apply_refresh_failure(&mut self, err: &str)
        requires
            old(self).wf(),
        ensures
            final(self).wf(),
            final(self).v() == (StateV { status: "Refresh failed: "@ + err@, ..old(self).v() }),
    {
        let msg = String::from_str("Refresh failed: ").concat(err);
        self.set_status(msg.as_str());
    }
}

impl UiState {
    /// Reports a single unban's outcome: the modal closes either way; a
    /// refresh follows only on success.
    pub fn apply_unban_result(&mut self, ok: bool, err: &str) -> (refresh: bool)
        requires
            old(self).wf(),
            old(self).modal is Some,
            old(self).v().modal->0 is UnbanIp,
        ensures
            final(self).wf(),
            refresh == ok,
            ({
                let jail = old(self).v().modal->0->UnbanIp_jail;
                let ip = old(self).v().modal->0->UnbanIp_ip;
                if ok {
                    final(self).v() == (StateV {
                        modal: None,
                        status: "Unbanned "@ + ip + " from "@ + jail,
                        ..old(self).v()
                    })
                } else {
                    final(self).v() == (StateV {
                        modal: None,
                        status: "Unban failed for "@ + ip + ": "@ + err@,
                        ..old(self).v()
                    })
                }
            }),
    {
        let modal = self.modal.take();
        let (jail, ip) = match modal {
            Some(Modal::UnbanIp { jail, ip }) => (jail, ip),
            _ => {
                proof {
                    assert(false);
                }
                (String::new(), String::new())
            },
        };
        if ok {
            let msg = String::from_str("Unbanned ").concat(ip.as_str()).concat(" from ").concat(
                jail.as_str(),
            );
            self.set_status(msg.as_str());
        } else {
            let msg = String::from_str("Unban failed for ").concat(ip.as_str()).concat(
                ": ",
            ).concat(err);
            self.set_status(msg.as_str());
        }
        ok
    }

    /// Reports a ban attempt's outcome: on success the modal closes and a
    /// refresh follows; on failure it stays open with the failure inline
    /// and the typed address kept for correction.
    pub fn apply_ban_result(&mut self, ip: &str, ok: bool, err: &str) -> (refresh: bool)
        requires
            old(self).wf(),
            old(self).modal is Some,
            old(self).v().modal->0 is BanIp,
        ensures
            final(self).wf(),
            refresh == ok,
            ({
                let jail = old(self).v().modal->0->BanIp_jail;
                let input = old(self).v().modal->0->BanIp_input;
                if ok {
                    final(self).v() == (StateV {
                        modal: None,
                        status: "Banned "@ + ip@ + " in "@ + jail,
                        ..old(self).v()
                    })
                } else {
                    final(self).v() == (StateV {
                        modal: Some(ModalV::BanIp {
                            jail: jail,
                            input: input,
                            error: Some("Ban failed: "@ + err@),
                        }),
                        ..old(self).v()
                    })
                }
            }),
    {
        let modal = self.modal.take();
        let (jail, input) = match modal {
            Some(Modal::BanIp { jail, input, .. }) => (jail, input),
            _ => {
                proof {
                    assert(false);
                }
                (String::new(), String::new())
            },
        };
        if ok {
            let msg = String::from_str("Banned ").concat(ip).concat(" in ").concat(jail.as_str());
            self.set_status(msg.as_str());
            true
        } else {
            let emsg = String::from_str("Ban failed: ").concat(err);
            self.modal = Some(Modal::BanIp { jail, input, error: Some(emsg) });
            false
        }
    }

    /// Reports the bulk unban's outcome, with the count already removed; the
    /// modal closes either way, and a refresh follows only on full success.
    pub fn apply_unban_all_result(&mut self, removed: u64, err: Option<&str>) -> (refresh: bool)
        requires
            old(self).wf(),
            old(self).modal is Some,
            old(self).v().modal->0 is UnbanAll,
        ensures
            final(self).wf(),
            refresh == (err is None),
            ({
                let jail = old(self).v().modal->0->UnbanAll_jail;
                match err {
                    None => final(self).v() == (StateV {
                        modal: None,
                        status: "Unbanned "@ + dec_str(removed as nat) + " IPs from "@ + jail,
                        ..old(self).v()
                    }),
                    Some(e) => final(self).v() == (StateV {
                        modal: None,
                        status: "Unban all failed for "@ + jail + " after "@ + dec_str(
                            removed as nat,
                        ) + " unbanned: "@ + e@,
                        ..old(self).v()
                    }),
                }
            }),
    {
        let modal = self.modal.take();
        let jail = match modal {
            Some(Modal::UnbanAll { jail, .. }) => jail,
            _ => {
                proof {
                    assert(false);
                }
                String::new()
            },
        };
        let mut count_chars: Vec<char> = Vec::new();
        push_dec_u64(removed, &mut count_chars);
        let count = string_from_chars(&count_chars);
        match err {
            None => {
                let msg = String::from_str("Unbanned ").concat(count.as_str()).concat(
                    " IPs from ",
                ).concat(jail.as_str());
                self.set_status(msg.as_str());
                true
            },
            Some(e) => {
                let msg = String::from_str("Unban all failed for ").concat(jail.as_str()).concat(
                    " after ",
                ).concat(count.as_str()).concat(" unbanned: ").concat(e);
                self.set_status(msg.as_str());
                false
            },
        }
    }
}

// ---------------------------------------------------------------------------
// Bulk unban batches
// ---------------------------------------------------------------------------

/// The first jail with the given name.
pub open spec fn find_jail(jails: Seq<JailStatus>, name: Seq<char>) -> Option<int>
    decreases jails.len(),
{
    if jails.len() == 0 {
        None
    } else if jails[0].name@ == name {
        Some(0int)
    } else {
        match find_jail(jails.drop_first(), name) {
            Some(i) => Some(i + 1),
            None => None,
        }
    }
}

/// The addresses of a jail, in order.
pub open spec fn jail_addrs(j: JailStatus) -> Seq<Seq<char>> {
    j.ips@.map_values(|e: IpEntry| e.ip@)
}

/// The batches cover the addresses in order, fifty per command.
pub open spec fn batches_of(addrs: Seq<Seq<char>>, bs: Seq<Seq<Seq<char>>>) -> bool {
    &&& bs.len() == (addrs.len() + 49) / 50
    &&& forall|k: int|
        0 <= k < bs.len() ==> #[trigger] bs[k] == addrs.subrange(
            k * 50,
            if (k + 1) * 50 <= addrs.len() {
                (k + 1) * 50
            } else {
                addrs.len() as int
            },
        )
}

/// The position of the first jail with the given name.
fn find_jail_exec(jails: &Vec<JailStatus>, jv: &Vec<char>) -> (r: Option<usize>)
    ensures
        r is Some <==> find_jail(jails@, jv@) is Some,
        r is Some ==> Some(r->0 as int) == find_jail(jails@, jv@) && r->0 < jails@.len(),
{
    let n = jails.len();
    let mut idx: usize = 0;
    proof {
        assert(jails@.skip(0) =~= jails@);
    }
    while idx < n
        invariant
            0 <= idx <= n,
            n == jails@.len(),
            find_jail(jails@, jv@) == match find_jail(jails@.skip(idx as int), jv@) {
                Some(i) => Some(i + idx),
                None => None::<int>,
            },
        decreases n - idx,
    {
        proof {
            assert(jails@.skip(idx as int)[0] == jails@[idx as int]);
            assert(jails@.skip(idx as int).drop_first() =~= jails@.skip(idx as int + 1));
        }
        let nv = chars_vec(jails[idx].name.as_str());
        if eq_chars(&nv, jv) {
            return Some(idx);
        }
        idx = idx + 1;
    }
    proof {
        assert(jails@.skip(n as int) =~= Seq::<JailStatus>::empty());
    }
    None
}

/// Splits the named jail's full, unfiltered ban list into batches of fifty
/// addresses for the bulk unban commands; nothing when no jail has the
/// name.
pub fn unban_batches(state: &UiState, jail: &str) -> (r: Option<Vec<Vec<String>>>)
    ensures
        (r is Some) == (find_jail(state.jails@, jail@) is Some),
        r is Some ==> batches_of(
            jail_addrs(state.jails@[find_jail(state.jails@, jail@)->0]),
            r->0.deep_view(),
        ),
{
    let jv = chars_vec(jail);
    let idx = match find_jail_exec(&state.jails, &jv) {
        Some(i) => i,
        None => {
            return None;
        },
    };
    proof {
        assert(find_jail(state.jails@, jail@) == Some(idx as int));
    }
    let j = &state.jails[idx];
    let ghost addrs = jail_addrs(*j);
    proof {
        assert(*j == state.jails@[idx as int]);
    }
    let n = j.ips.len();
    let mut bs: Vec<Vec<String>> = Vec::new();
    let mut start: usize = 0;
    proof {
        assert(addrs.len() == n);
        assert(bs.deep_view() =~~= Seq::<Seq<Seq<char>>>::empty());
        if n == 0 {
            assert((addrs.len() + 49) / 50 == 0);
        }
    }
    while start < n
        invariant
            0 <= start <= n,
            n == j.ips@.len(),
            addrs == jail_addrs(*j),
            addrs.len() == n,
            start < n ==> start == 50 * bs.deep_view().len(),
            start == n ==> bs.deep_view().len() == (n + 49) / 50,
            forall|k: int|
                0 <= k < bs.deep_view().len() ==> #[trigger] bs.deep_view()[k] == addrs.subrange(
                    k * 50,
                    if (k + 1) * 50 <= addrs.len() {
                        (k + 1) * 50
                    } else {
                        addrs.len() as int
                    },
                ),
        decreases n - start,
    {
        let stop: usize = if n - start < 50 {
            n
        } else {
            start + 50
        };
        let mut batch: Vec<String> = Vec::new();
        let mut t: usize = start;
        while t < stop
            invariant
                start <= t <= stop <= n,
                n == j.ips@.len(),
                addrs == jail_addrs(*j),
                addrs.len() == n,
                batch.deep_view() == addrs.subrange(start as int, t as int),
            decreases stop - t,
        {
            let ghost pre = batch.deep_view();
            batch.push(j.ips[t].ip.clone());
            proof {
                assert(addrs[t as int] == j.ips@[t as int].ip@);
                assert(batch.deep_view() =~~= pre.push(addrs[t as int]));
                assert(pre.push(addrs[t as int]) =~= addrs.subrange(start as int, t + 1 as int));
            }
            t = t + 1;
        }
        let ghost pb = bs.deep_view();
        let ghost lnum = pb.len() as int;
        bs.push(batch);
        proof {
            assert(bs.deep_view() =~~= pb.push(addrs.subrange(start as int, stop as int)));
            assert(lnum * 50 == start as int);
            assert(stop as int == if (lnum + 1) * 50 <= addrs.len() {
                (lnum + 1) * 50
            } else {
                addrs.len() as int
            });
            assert(bs.deep_view()[lnum] == addrs.subrange(
                lnum * 50,
                if (lnum + 1) * 50 <= addrs.len() {
                    (lnum + 1) * 50
                } else {
                    addrs.len() as int
                },
            ));
            if stop < n {
                assert(stop == start + 50);
                assert(stop as int == 50 * bs.deep_view().len());
            } else {
                assert(50 * lnum < n as int <= 50 * lnum + 50);
                assert((n as int + 49) / 50 == lnum + 1) by (nonlinear_arith)
                    requires
                        50 * lnum < n as int <= 50 * lnum + 50,
                ;
            }
        }
        start = stop;
    }
    Some(bs)
}

// ---------------------------------------------------------------------------
// Key handling: search entry
// ---------------------------------------------------------------------------

pub open spec fn search_char_rel(a: StateV, c: char, ctrl: bool, b: StateV) -> bool {
    if ctrl {
        b == a
    } else {
        b == (StateV { search_query: a.search_query.push(c), ..a })
    }
}

/// Search-entry transitions: typing edits the query; enter commits it and
/// restarts the row selection; escape leaves entry with the typed query
/// still active as a filter.
pub open spec fn search_step_rel(a: StateV, key: KeyInput, b: StateV) -> bool {
    match key.code {
        KeyCode::Esc => b == (StateV { search_mode: false, status: "Filter canceled"@, ..a }),
        KeyCode::Enter => b == (StateV {
            search_mode: false,
            ip_selected: Some(0usize),
            status: "Filter applied"@,
            ..a
        }),
        KeyCode::Backspace => b == (StateV {
            search_query: dropped_last(a.search_query),
            ..a
        }),
        KeyCode::Char(c) => search_char_rel(a, c, key.ctrl, b),
        _ => b == a,
    }
}

/// Handles one key during search entry.
pub fn handle_search_key(state: &mut UiState, key: KeyInput)
    requires
        old(state).wf(),
        old(state).search_mode,
    ensures
        final(state).wf(),
        search_step_rel(old(state).v(), key, final(state).v()),
{
    match key.code {
        KeyCode::Esc => {
            state.search_mode = false;
            state.set_status("Filter canceled");
        },
        KeyCode::Enter => {
            state.search_mode = false;
            state.ip_selected = Some(0);
            state.set_status("Filter applied");
        },
        KeyCode::Backspace => {
            let mut v = chars_vec(state.search_query.as_str());
            v.pop();
            state.search_query = string_from_chars(&v);
        },
        KeyCode::Char(c) => {
            if !key.ctrl {
                let mut v = chars_vec(state.search_query.as_str());
                v.push(c);
                state.search_query = string_from_chars(&v);
            }
        },
        _ => {},
    }
}

// ---------------------------------------------------------------------------
// Key handling: modals
// ---------------------------------------------------------------------------

pub open spec fn is_confirm_key(key: KeyInput) -> bool {
    key.code == KeyCode::Char('y') || key.code == KeyCode::Char('Y') || key.code == KeyCode::Enter
}

pub open spec fn is_cancel_key(key: KeyInput) -> bool {
    key.code == KeyCode::Char('n') || key.code == KeyCode::Char('N') || key.code == KeyCode::Esc
}

pub open spec fn ban_modal_char_rel(
    a: StateV,
    jail: Seq<char>,
    input: Seq<char>,
    c: char,
    ctrl: bool,
    b: StateV,
) -> bool {
    if ctrl {
        b == (StateV { modal: Some(ModalV::BanIp { jail, input, error: None }), ..a })
    } else {
        b == (StateV {
            modal: Some(ModalV::BanIp { jail, input: input.push(c), error: None }),
            ..a
        })
    }
}

/// Enter validates the typed address: a valid one is handed out as a ban
/// command with the modal left open awaiting the outcome; an invalid one
/// re-opens the modal with the validation message inline.
pub open spec fn ban_modal_enter_rel(
    a: StateV,
    jail: Seq<char>,
    input: Seq<char>,
    b: StateV,
    cmd: Option<CommandV>,
) -> bool {
    if is_valid_ip_spec(trim_spec(input)) {
        b == a && cmd == Some(CommandV::Ban { jail, ip: trim_spec(input) })
    } else {
        cmd is None && b == (StateV {
            modal: Some(ModalV::BanIp { jail, input, error: Some("Invalid IP address"@) }),
            ..a
        })
    }
}

/// Ban-entry modal transitions; any editing key clears the inline message.
pub open spec fn ban_modal_rel(
    a: StateV,
    jail: Seq<char>,
    input: Seq<char>,
    key: KeyInput,
    b: StateV,
    cmd: Option<CommandV>,
) -> bool {
    match key.code {
        KeyCode::Esc => cmd is None && b == (StateV {
            modal: None,
            status: "Action canceled"@,
            ..a
        }),
        KeyCode::Backspace => cmd is None && b == (StateV {
            modal: Some(ModalV::BanIp { jail, input: dropped_last(input), error: None }),
            ..a
        }),
        KeyCode::Char(c) => cmd is None && ban_modal_char_rel(a, jail, input, c, key.ctrl, b),
        KeyCode::Enter => ban_modal_enter_rel(a, jail, input, b, cmd),
        _ => cmd is None && b == (StateV {
            modal: Some(ModalV::BanIp { jail, input, error: None }),
            ..a
        }),
    }
}

/// Single-unban confirmation: confirm hands out the unban command with the
/// modal left open awaiting the outcome; cancel closes it.
pub open spec fn unban_modal_rel(
    a: StateV,
    jail: Seq<char>,
    ip: Seq<char>,
    key: KeyInput,
    b: StateV,
    cmd: Option<CommandV>,
) -> bool {
    if is_confirm_key(key) {
        b == a && cmd == Some(CommandV::Unban { jail, ip })
    } else if is_cancel_key(key) {
        cmd is None && b == (StateV { modal: None, status: "Action canceled"@, ..a })
    } else {
        b == a && cmd is None
    }
}

pub open spec fn unban_all_confirm_rel(
    a: StateV,
    jail: Seq<char>,
    step: UnbanStep,
    b: StateV,
    cmd: Option<CommandV>,
) -> bool {
    if step == UnbanStep::First {
        cmd is None && b == (StateV {
            modal: Some(ModalV::UnbanAll { jail, step: UnbanStep::Final }),
            status: "Second confirmation required"@,
            ..a
        })
    } else {
        b == a && cmd == Some(CommandV::UnbanAll { jail })
    }
}

/// Two-step unban-all confirmation: the first confirm only arms the final
/// step; the second hands out the bulk command; cancel closes at either
/// step.
pub open spec fn unban_all_modal_rel(
    a: StateV,
    jail: Seq<char>,
    step: UnbanStep,
    key: KeyInput,
    b: StateV,
    cmd: Option<CommandV>,
) -> bool {
    if is_confirm_key(key) {
        unban_all_confirm_rel(a, jail, step, b, cmd)
    } else if is_cancel_key(key) {
        cmd is None && b == (StateV { modal: None, status: "Action canceled"@, ..a })
    } else {
        b == a && cmd is None
    }
}

/// Modal transitions, by the open modal's kind.
pub open spec fn modal_step_rel(a: StateV, key: KeyInput, b: StateV, cmd: Option<CommandV>) -> bool
    recommends
        a.modal is Some,
{
    match a.modal->0 {
        ModalV::BanIp { jail, input, error } => ban_modal_rel(a, jail, input, key, b, cmd),
        ModalV::UnbanIp { jail, ip } => unban_modal_rel(a, jail, ip, key, b, cmd),
        ModalV::UnbanAll { jail, step } => unban_all_modal_rel(a, jail, step, key, b, cmd),
    }
}

fn confirm_key(key: KeyInput) -> (r: bool)
    ensures
        r == is_confirm_key(key),
{
    key.code == KeyCode::Char('y') || key.code == KeyCode::Char('Y') || key.code == KeyCode::Enter
}

fn cancel_key(key: KeyInput) -> (r: bool)
    ensures
        r == is_cancel_key(key),
{
    key.code == KeyCode::Char('n') || key.code == KeyCode::Char('N') || key.code == KeyCode::Esc
}

/// Handles one key while a modal is open.
pub fn handle_modal_key(state: &mut UiState, key: KeyInput) -> (cmd: Option<Command>)
    requires
        old(state).wf(),
        old(state).modal is Some,
    ensures
        final(state).wf(),
        modal_step_rel(old(state).v(), key, final(state).v(), opt_command_v(cmd)),
{
    let modal = state.modal.take();
    match modal {
        Some(Modal::BanIp { jail, input, error }) => {
            match key.code {
                KeyCode::Esc => {
                    state.set_status("Action canceled");
                    None
                },
                KeyCode::Backspace => {
                    let mut v = chars_vec(input.as_str());
                    v.pop();
                    let shorter = string_from_chars(&v);
                    state.modal = Some(Modal::BanIp { jail, input: shorter, error: None });
                    None
                },
                KeyCode::Char(c) => {
                    if !key.ctrl {
                        let mut v = chars_vec(input.as_str());
                        v.push(c);
                        let longer = string_from_chars(&v);
                        state.modal = Some(Modal::BanIp { jail, input: longer, error: None });
                    } else {
                        state.modal = Some(Modal::BanIp { jail, input, error: None });
                    }
                    None
                },
                KeyCode::Enter => {
                    let iv = chars_vec(input.as_str());
                    let tv = trim_chars(&iv);
                    if is_valid_ip_chars(&tv) {
                        let ip = string_from_chars(&tv);
                        state.modal = Some(
                            Modal::BanIp { jail: jail.clone(), input, error },
                        );
                        Some(Command::Ban { jail, ip })
                    } else {
                        state.modal = Some(
                            Modal::BanIp {
                                jail,
                                input,
                                error: Some("Invalid IP address".to_owned()),
                            },
                        );
                        None
                    }
                },
                _ => {
                    state.modal = Some(Modal::BanIp { jail, input, error: None });
                    None
                },
            }
        },
        Some(Modal::UnbanIp { jail, ip }) => {
            if confirm_key(key) {
                state.modal = Some(Modal::UnbanIp { jail: jail.clone(), ip: ip.clone() });
                Some(Command::Unban { jail, ip })
            } else if cancel_key(key) {
                state.set_status("Action canceled");
                None
            } else {
                state.modal = Some(Modal::UnbanIp { jail, ip });
                None
            }
        },
        Some(Modal::UnbanAll { jail, step }) => {
            if confirm_key(key) {
                match step {
                    UnbanStep::First => {
                        state.modal = Some(
                            Modal::UnbanAll { jail, step: UnbanStep::Final },
                        );
                        state.set_status("Second confirmation required");
                        None
                    },
                    UnbanStep::Final => {
                        state.modal = Some(Modal::UnbanAll { jail: jail.clone(), step });
                        Some(Command::UnbanAll { jail })
                    },
                }
            } else if cancel_key(key) {
                state.set_status("Action canceled");
                None
            } else {
                state.modal = Some(Modal::UnbanAll { jail, step });
                None
            }
        },
        None => {
            proof {
                assert(false);
            }
            None
        },
    }
}

// ---------------------------------------------------------------------------
// Key handling: browsing
// ---------------------------------------------------------------------------

pub open spec fn flip_sort(m: SortMode) -> SortMode {
    match m {
        SortMode::Ip => SortMode::TimeLeft,
        SortMode::TimeLeft => SortMode::Ip,
    }
}

pub open spec fn flip_focus(f: Focus) -> Focus {
    match f {
        Focus::Jails => Focus::Ips,
        Focus::Ips => Focus::Jails,
    }
}

/// Opens the ban-entry modal for the selected jail.
pub open spec fn open_ban_rel(a: StateV, b: StateV) -> bool {
    if v_has_jail(a) {
        b == (StateV {
            modal: Some(ModalV::BanIp {
                jail: v_jail(a).name@,
                input: Seq::<char>::empty(),
                error: None,
            }),
            status: "Enter IP to ban"@,
            ..a
        })
    } else {
        b == a
    }
}

/// Opens the first step of the unban-all confirmation for the selected jail.
pub open spec fn open_unban_all_rel(a: StateV, b: StateV) -> bool {
    if v_has_jail(a) {
        b == (StateV {
            modal: Some(ModalV::UnbanAll { jail: v_jail(a).name@, step: UnbanStep::First }),
            ..a
        })
    } else {
        b == a
    }
}

pub open spec fn open_unban_pick(a: StateV, b: StateV, p: Seq<usize>) -> bool {
    if sel_or_zero(a.ip_selected) < p.len() {
        b == (StateV {
            modal: Some(ModalV::UnbanIp {
                jail: v_jail(a).name@,
                ip: v_jail(a).ips@[p[sel_or_zero(a.ip_selected) as int] as int].ip@,
            }),
            ..a
        })
    } else {
        b == a
    }
}

/// Opens the unban confirmation for the selected row of the current
/// projection, when one is selected.
pub open spec fn open_unban_rel(a: StateV, now: int, b: StateV, p: Seq<usize>) -> bool {
    if !v_has_jail(a) {
        b == a
    } else {
        &&& is_projection(v_jail(a), a.search_query, a.sort_mode, now, p)
        &&& open_unban_pick(a, b, p)
    }
}

/// Up/down move the selection of the focused panel.
pub open spec fn move_by(a: StateV, delta: int, now: int, b: StateV, p: Seq<usize>) -> bool {
    match a.focus {
        Focus::Jails => move_jail_rel(a, delta, b),
        Focus::Ips => move_ip_rel(a, delta, now, b, p),
    }
}

pub open spec fn enter_rel(a: StateV, now: int, b: StateV, p: Seq<usize>) -> bool {
    if a.focus == Focus::Jails {
        b == (StateV { focus: Focus::Ips, ..a })
    } else {
        open_unban_rel(a, now, b, p)
    }
}

pub open spec fn browse_char_rel(
    a: StateV,
    c: char,
    shift: bool,
    now: int,
    b: StateV,
    cmd: Option<CommandV>,
    p: Seq<usize>,
) -> bool {
    if c == 'q' || c == 'Q' {
        b == a && cmd == Some(CommandV::Quit)
    } else if c == 'r' || c == 'R' {
        b == a && cmd == Some(CommandV::Refresh)
    } else if c == 't' || c == 'T' {
        cmd is None && b == (StateV {
            autorefresh: !a.autorefresh,
            status: if a.autorefresh {
                "Auto-refresh disabled"@
            } else {
                "Auto-refresh enabled"@
            },
            ..a
        })
    } else if c == 's' || c == 'S' {
        cmd is None && b == (StateV {
            sort_mode: flip_sort(a.sort_mode),
            ip_selected: Some(0usize),
            status: "Sort mode updated"@,
            ..a
        })
    } else if c == 'b' || c == 'B' {
        cmd is None && open_ban_rel(a, b)
    } else if c == '/' {
        cmd is None && b == (StateV { search_mode: true, ..a })
    } else if c == 'x' || c == 'X' {
        cmd is None && b == (StateV {
            search_query: Seq::<char>::empty(),
            ip_selected: Some(0usize),
            status: "Filter cleared"@,
            ..a
        })
    } else if c == 'k' {
        cmd is None && move_by(a, -1, now, b, p)
    } else if c == 'j' {
        cmd is None && move_by(a, 1, now, b, p)
    } else if c == 'u' || c == 'U' {
        cmd is None && open_unban_rel(a, now, b, p)
    } else if c == 'A' || (c == 'a' && shift) {
        cmd is None && open_unban_all_rel(a, b)
    } else {
        b == a && cmd is None
    }
}

/// Browsing transitions: quit, refresh, toggles, filter entry and
/// clearing, focus switch, selection movement, and the three modal
/// openers.
pub open spec fn browse_step_rel(
    a: StateV,
    key: KeyInput,
    now: int,
    b: StateV,
    cmd: Option<CommandV>,
    p: Seq<usize>,
) -> bool {
    match key.code {
        KeyCode::Char(c) => browse_char_rel(a, c, key.shift, now, b, cmd, p),
        KeyCode::Tab => cmd is None && b == (StateV { focus: flip_focus(a.focus), ..a }),
        KeyCode::Up => cmd is None && move_by(a, -1, now, b, p),
        KeyCode::Down => cmd is None && move_by(a, 1, now, b, p),
        KeyCode::Enter => cmd is None && enter_rel(a, now, b, p),
        _ => b == a && cmd is None,
    }
}

/// One key press: the interrupt chord always quits; an open modal, then
/// active search entry, take priority over browsing keys.
pub open spec fn key_step_rel(
    a: StateV,
    key: KeyInput,
    now: int,
    b: StateV,
    cmd: Option<CommandV>,
    p: Seq<usize>,
) -> bool {
    if key.ctrl && key.code == KeyCode::Char('c') {
        b == a && cmd == Some(CommandV::Quit)
    } else if a.modal is Some {
        modal_step_rel(a, key, b, cmd)
    } else if a.search_mode {
        cmd is None && search_step_rel(a, key, b)
    } else {
        browse_step_rel(a, key, now, b, cmd, p)
    }
}

/// Opens the unban confirmation for the selected row, when one exists.
fn open_unban(state: &mut UiState, now: i64)
    requires
        old(state).wf(),
        !old(state).search_mode,
    ensures
        final(state).wf(),
        exists|p: Seq<usize>| open_unban_rel(old(state).v(), now as int, final(state).v(), p),
{
    let ghost a = old(state).v();
    let jail = match state.selected_jail() {
        Some(j) => j,
        None => {
            proof {
                let p0 = Seq::<usize>::empty();
                assert(open_unban_rel(a, now as int, state.v(), p0));
            }
            return;
        },
    };
    let view = current_ip_view(jail, state.search_query.as_str(), state.sort_mode, now);
    let ghost p = view@;
    let idx = state.selected_ip_index();
    if idx < view.len() {
        let jail_name = jail.name.clone();
        let ip = jail.ips[view[idx]].ip.clone();
        state.modal = Some(Modal::UnbanIp { jail: jail_name, ip });
        proof {
            assert(open_unban_rel(a, now as int, state.v(), p));
        }
    } else {
        proof {
            assert(open_unban_rel(a, now as int, state.v(), p));
        }
    }
}

/// Handles one key press against the clock instant `now`, yielding the
/// command the caller must run, if any.
pub fn handle_key(state: &mut UiState, key: KeyInput, now: i64) -> (cmd: Option<Command>)
    requires
        old(state).wf(),
    ensures
        final(state).wf(),
        exists|p: Seq<usize>|
            key_step_rel(
                old(state).v(),
                key,
                now as int,
                final(state).v(),
                opt_command_v(cmd),
                p,
            ),
{
    let ghost a = old(state).v();
    let ghost p0 = Seq::<usize>::empty();
    if key.ctrl && key.code == KeyCode::Char('c') {
        proof {
            assert(key_step_rel(a, key, now as int, state.v(), Some(CommandV::Quit), p0));
        }
        return Some(Command::Quit);
    }
    if state.modal.is_some() {
        let cmd = handle_modal_key(state, key);
        proof {
            assert(key_step_rel(a, key, now as int, state.v(), opt_command_v(cmd), p0));
        }
        return cmd;
    }
    if state.search_mode {
        handle_search_key(state, key);
        proof {
            assert(key_step_rel(a, key, now as int, state.v(), opt_command_v(None), p0));
        }
        return None;
    }
    match key.code {
        KeyCode::Char(c) => {
            if c == 'q' || c == 'Q' {
                proof {
                    assert(key_step_rel(a, key, now as int, state.v(), Some(CommandV::Quit), p0));
                }
                Some(Command::Quit)
            } else if c == 'r' || c == 'R' {
                proof {
                    assert(key_step_rel(
                        a,
                        key,
                        now as int,
                        state.v(),
                        Some(CommandV::Refresh),
                        p0,
                    ));
                }
                Some(Command::Refresh)
            } else if c == 't' || c == 'T' {
                let on = !state.autorefresh;
                state.autorefresh = on;
                if on {
                    state.set_status("Auto-refresh enabled");
                } else {
                    state.set_status("Auto-refresh disabled");
                }
                proof {
                    assert(key_step_rel(a, key, now as int, state.v(), opt_command_v(None), p0));
                }
                None
            } else if c == 's' || c == 'S' {
                state.sort_mode = match state.sort_mode {
                    SortMode::Ip => SortMode::TimeLeft,
                    SortMode::TimeLeft => SortMode::Ip,
                };
                state.ip_selected = Some(0);
                state.set_status("Sort mode updated");
                proof {
                    assert(key_step_rel(a, key, now as int, state.v(), opt_command_v(None), p0));
                }
                None
            } else if c == 'b' || c == 'B' {
                let name = match state.selected_jail() {
                    Some(j) => Some(j.name.clone()),
                    None => None,
                };
                match name {
                    Some(jail) => {
                        state.modal = Some(
                            Modal::BanIp { jail, input: String::new(), error: None },
                        );
                        state.set_status("Enter IP to ban");
                    },
                    None => {},
                }
                proof {
                    assert(open_ban_rel(a, state.v()));
                    assert(key_step_rel(a, key, now as int, state.v(), opt_command_v(None), p0));
                }
                None
            } else if c == '/' {
                state.search_mode = true;
                proof {
                    assert(key_step_rel(a, key, now as int, state.v(), opt_command_v(None), p0));
                }
                None
            } else if c == 'x' || c == 'X' {
                state.search_query = String::new();
                state.ip_selected = Some(0);
                state.set_status("Filter cleared");
                proof {
                    assert(key_step_rel(a, key, now as int, state.v(), opt_command_v(None), p0));
                }
                None
            } else if c == 'k' || c == 'j' {
                let delta: i32 = if c == 'k' {
                    -1
                } else {
                    1
                };
                match state.focus {
                    Focus::Jails => {
                        state.move_jail(delta);
                        proof {
                            assert(move_by(a, delta as int, now as int, state.v(), p0));
                            assert(key_step_rel(
                                a,
                                key,
                                now as int,
                                state.v(),
                                opt_command_v(None),
                                p0,
                            ));
                        }
                    },
                    Focus::Ips => {
                        state.move_ip(delta, now);
                        proof {
                            let p = choose|p: Seq<usize>|
                                move_ip_rel(a, delta as int, now as int, state.v(), p);
                            assert(key_step_rel(
                                a,
                                key,
                                now as int,
                                state.v(),
                                opt_command_v(None),
                                p,
                            ));
                        }
                    },
                }
                None
            } else if c == 'u' || c == 'U' {
                open_unban(state, now);
                proof {
                    let p = choose|p: Seq<usize>|
                        open_unban_rel(a, now as int, state.v(), p);
                    assert(key_step_rel(a, key, now as int, state.v(), opt_command_v(None), p));
                }
                None
            } else if c == 'A' || (c == 'a' && key.shift) {
                let name = match state.selected_jail() {
                    Some(j) => Some(j.name.clone()),
                    None => None,
                };
                match name {
                    Some(jail) => {
                        state.modal = Some(Modal::UnbanAll { jail, step: UnbanStep::First });
                    },
                    None => {},
                }
                proof {
                    assert(open_unban_all_rel(a, state.v()));
                    assert(key_step_rel(a, key, now as int, state.v(), opt_command_v(None), p0));
                }
                None
            } else {
                proof {
                    assert(key_step_rel(a, key, now as int, state.v(), opt_command_v(None), p0));
                }
                None
            }
        },
        KeyCode::Tab => {
            state.focus = match state.focus {
                Focus::Jails => Focus::Ips,
                Focus::Ips => Focus::Jails,
            };
            proof {
                assert(key_step_rel(a, key, now as int, state.v(), opt_command_v(None), p0));
            }
            None
        },
        KeyCode::Up | KeyCode::Down => {
            let delta: i32 = if key.code == KeyCode::Up {
                -1
            } else {
                1
            };
            match state.focus {
                Focus::Jails => {
                    state.move_jail(delta);
                    proof {
                        assert(move_by(a, delta as int, now as int, state.v(), p0));
                        assert(key_step_rel(
                            a,
                            key,
                            now as int,
                            state.v(),
                            opt_command_v(None),
                            p0,
                        ));
                    }
                },
                Focus::Ips => {
                    state.move_ip(delta, now);
                    proof {
                        let p = choose|p: Seq<usize>|
                            move_ip_rel(a, delta as int, now as int, state.v(), p);
                        assert(key_step_rel(
                            a,
                            key,
                            now as int,
                            state.v(),
                            opt_command_v(None),
                            p,
                        ));
                    }
                },
            }
            None
        },
        KeyCode::Enter => {
            match state.focus {
                Focus::Jails => {
                    state.focus = Focus::Ips;
                    proof {
                        assert(enter_rel(a, now as int, state.v(), p0));
                        assert(key_step_rel(
                            a,
                            key,
                            now as int,
                            state.v(),
                            opt_command_v(None),
                            p0,
                        ));
                    }
                },
                Focus::Ips => {
                    open_unban(state, now);
                    proof {
                        let p = choose|p: Seq<usize>|
                            open_unban_rel(a, now as int, state.v(), p);
                        assert(key_step_rel(
                            a,
                            key,
                            now as int,
                            state.v(),
                            opt_command_v(None),
                            p,
                        ));
                    }
                },
            }
            None
        },
        _ => {
            proof {
                assert(key_step_rel(a, key, now as int, state.v(), opt_command_v(None), p0));
            }
            None
        },
    }
}

// ---------------------------------------------------------------------------
// Mouse handling
// ---------------------------------------------------------------------------

pub open spec fn in_opt_rect(r: Option<PanelRect>, x: int, y: int) -> bool {
    match r {
        Some(rect) => point_in_rect_spec(x, y, rect),
        None => false,
    }
}

/// The jail row a press lands on, when the jails panel was drawn and the
/// press falls on a row.
pub open spec fn jail_hit(a: StateV, x: int, y: int) -> Option<int> {
    match a.jail_rect {
        Some(rect) => mouse_index_spec(x, y, rect, a.jails.len() as int),
        None => None,
    }
}

/// A press with a modal open goes to its two buttons: confirm and cancel
/// act as their keys; anywhere else is ignored.
pub open spec fn mouse_modal_rel(
    a: StateV,
    x: int,
    y: int,
    b: StateV,
    cmd: Option<CommandV>,
) -> bool {
    if in_opt_rect(a.modal_yes_rect, x, y) {
        modal_step_rel(a, KeyInput { code: KeyCode::Enter, ctrl: false, shift: false }, b, cmd)
    } else if in_opt_rect(a.modal_no_rect, x, y) {
        modal_step_rel(a, KeyInput { code: KeyCode::Esc, ctrl: false, shift: false }, b, cmd)
    } else {
        b == a && cmd is None
    }
}

pub open spec fn mouse_ip_row_rel(a: StateV, now: int, b: StateV, p: Seq<usize>, row: int) -> bool {
    if 0 <= row < p.len() {
        b == (StateV {
            focus: Focus::Ips,
            ip_selected: Some(row as usize),
            search_mode: false,
            modal: Some(ModalV::UnbanIp {
                jail: a.jails[a.jail_selected->0 as int].name@,
                ip: a.jails[a.jail_selected->0 as int].ips@[p[row] as int].ip@,
            }),
            ..a
        })
    } else {
        b == a
    }
}

/// A press on a row of the entries panel selects that row of the current
/// projection and immediately opens the unban confirmation for it.
pub open spec fn mouse_ip_panel_rel(
    a: StateV,
    x: int,
    y: int,
    now: int,
    b: StateV,
    cmd: Option<CommandV>,
    p: Seq<usize>,
) -> bool {
    match a.ip_rect {
        None => b == a && cmd is None,
        Some(rect) => match a.jail_selected {
            None => b == a && cmd is None,
            Some(ji) => mouse_ip_sel_rel(a, rect, x, y, now, b, cmd, p, ji as int),
        },
    }
}

pub open spec fn mouse_ip_sel_rel(
    a: StateV,
    rect: PanelRect,
    x: int,
    y: int,
    now: int,
    b: StateV,
    cmd: Option<CommandV>,
    p: Seq<usize>,
    ji: int,
) -> bool {
    if 0 <= ji < a.jails.len() {
        &&& cmd is None
        &&& is_projection(a.jails[ji], a.search_query, a.sort_mode, now, p)
        &&& match mouse_index_spec(x, y, rect, p.len() as int) {
            Some(row) => mouse_ip_row_rel(a, now, b, p, row),
            None => b == a,
        }
    } else {
        b == a && cmd is None
    }
}

/// One left press: modal buttons first; else a press on a jail row focuses
/// and selects that jail; else a press on an entry row selects it and opens
/// its unban confirmation.
pub open spec fn mouse_rel(
    a: StateV,
    x: int,
    y: int,
    now: int,
    b: StateV,
    cmd: Option<CommandV>,
    p: Seq<usize>,
) -> bool {
    if a.modal is Some {
        mouse_modal_rel(a, x, y, b, cmd)
    } else if jail_hit(a, x, y) is Some {
        cmd is None && b == (StateV {
            focus: Focus::Jails,
            jail_selected: Some(jail_hit(a, x, y)->0 as usize),
            ip_selected: Some(0usize),
            ..a
        })
    } else {
        mouse_ip_panel_rel(a, x, y, now, b, cmd, p)
    }
}

/// Handles one left mouse press at cell `(x, y)` against the clock instant
/// `now`, yielding the command the caller must run, if any.
pub fn handle_mouse_press(state: &mut UiState, x: u16, y: u16, now: i64) -> (cmd: Option<
    Command,
>)
    requires
        old(state).wf(),
    ensures
        final(state).wf(),
        exists|p: Seq<usize>|
            mouse_rel(
                old(state).v(),
                x as int,
                y as int,
                now as int,
                final(state).v(),
                opt_command_v(cmd),
                p,
            ),
{
    let ghost a = old(state).v();
    let ghost p0 = Seq::<usize>::empty();
    if state.modal.is_some() {
        let yes_hit = match state.modal_yes_rect {
            Some(rect) => point_in_rect(x, y, rect),
            None => false,
        };
        if yes_hit {
            let cmd = handle_modal_key(
                state,
                KeyInput { code: KeyCode::Enter, ctrl: false, shift: false },
            );
            proof {
                assert(mouse_rel(
                    a,
                    x as int,
                    y as int,
                    now as int,
                    state.v(),
                    opt_command_v(cmd),
                    p0,
                ));
            }
            return cmd;
        }
        let no_hit = match state.modal_no_rect {
            Some(rect) => point_in_rect(x, y, rect),
            None => false,
        };
        if no_hit {
            let cmd = handle_modal_key(
                state,
                KeyInput { code: KeyCode::Esc, ctrl: false, shift: false },
            );
            proof {
                assert(mouse_rel(
                    a,
                    x as int,
                    y as int,
                    now as int,
                    state.v(),
                    opt_command_v(cmd),
                    p0,
                ));
            }
            return cmd;
        }
        proof {
            assert(mouse_rel(
                a,
                x as int,
                y as int,
                now as int,
                state.v(),
                opt_command_v(None),
                p0,
            ));
        }
        return None;
    }
    let jhit: Option<usize> = match state.jail_rect {
        Some(rect) => list_index_from_mouse(x, y, rect, state.jails.len()),
        None => None,
    };
    match jhit {
        Some(index) => {
            state.focus = Focus::Jails;
            state.jail_selected = Some(index);
            state.ip_selected = Some(0);
            proof {
                assert(mouse_rel(
                    a,
                    x as int,
                    y as int,
                    now as int,
                    state.v(),
                    opt_command_v(None),
                    p0,
                ));
            }
            return None;
        },
        None => {},
    }
    let rect = match state.ip_rect {
        Some(rect) => rect,
        None => {
            proof {
                assert(mouse_rel(
                    a,
                    x as int,
                    y as int,
                    now as int,
                    state.v(),
                    opt_command_v(None),
                    p0,
                ));
            }
            return None;
        },
    };
    let ji = match state.jail_selected {
        Some(ji) => ji,
        None => {
            proof {
                assert(mouse_rel(
                    a,
                    x as int,
                    y as int,
                    now as int,
                    state.v(),
                    opt_command_v(None),
                    p0,
                ));
            }
            return None;
        },
    };
    let jail = &state.jails[ji];
    let view = current_ip_view(jail, state.search_query.as_str(), state.sort_mode, now);
    let ghost p = view@;
    match list_index_from_mouse(x, y, rect, view.len()) {
        Some(row) => {
            let jail_name = jail.name.clone();
            let ip = jail.ips[view[row]].ip.clone();
            state.focus = Focus::Ips;
            state.ip_selected = Some(row);
            state.search_mode = false;
            state.modal = Some(Modal::UnbanIp { jail: jail_name, ip });
            proof {
                assert(mouse_ip_row_rel(a, now as int, state.v(), p, row as int));
                assert(mouse_rel(
                    a,
                    x as int,
                    y as int,
                    now as int,
                    state.v(),
                    opt_command_v(None),
                    p,
                ));
            }
            None
        },
        None => {
            proof {
                assert(mouse_rel(
                    a,
                    x as int,
                    y as int,
                    now as int,
                    state.v(),
                    opt_command_v(None),
                    p,
                ));
            }
            None
        },
    }
}

} // verus!
