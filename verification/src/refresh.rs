//! The periodic background refresh: when a timer tick starts one, what it
//! reads, and which parts of the window a result changes. The reading
//! itself and the drawing happen around these decisions.
use vstd::prelude::*;

verus! {

/// What the refresh remembers between ticks.
#[derive(Debug, Clone, Copy, PartialEq, Eq, Structural)]
pub struct RefreshState {
    /// A refresh runs and has not reported back yet.
    pub in_progress: bool,
    /// Ticks seen so far (wrapping).
    pub tick: u32,
    /// Fingerprint of the status last shown; 0 when none.
    pub last_status_hash: u64,
    /// Fingerprint of the workspace list last shown; 0 when none.
    pub last_workspace_hash: u64,
    pub last_ahead: usize,
    pub last_behind: usize,
}

/// What a tick asks the background to do.
#[derive(Debug, Clone, Copy, PartialEq, Eq, Structural)]
pub struct RefreshStart {
    /// Scan the workspace folder too (every fourth tick).
    pub scan_workspace: bool,
    /// The fingerprint of the status on show, against which the background
    /// decides whether to read the diffs again.
    pub prev_status_hash: u64,
}

/// What the background reports.
#[derive(Debug, Clone, Copy, PartialEq, Eq, Structural)]
pub struct RefreshResult {
    /// The fingerprint of the status read; none when it could not be read.
    pub status_hash: Option<u64>,
    /// The fingerprint of the workspace list; none when it was not scanned.
    pub workspace_hash: Option<u64>,
    pub ahead: usize,
    pub behind: usize,
}

/// Which parts of the window a result redraws.
#[derive(Debug, Clone, Copy, PartialEq, Eq, Structural)]
pub struct RefreshApply {
    /// The changes list, the diff cache and the sidebar status.
    pub status: bool,
    /// The ahead and behind counters.
    pub ahead_behind: bool,
    /// The workspace list.
    pub workspace: bool,
}

impl RefreshState {
    /// Nothing shown yet, no refresh running.
    pub fn new() -> (r: RefreshState)
        ensures
            r == (RefreshState {
                in_progress: false,
                tick: 0,
                last_status_hash: 0,
                last_workspace_hash: 0,
                last_ahead: 0,
                last_behind: 0,
            }),
    {
        RefreshState {
            in_progress: false,
            tick: 0,
            last_status_hash: 0,
            last_workspace_hash: 0,
            last_ahead: 0,
            last_behind: 0,
        }
    }

    /// A timer tick. No refresh starts while the window is not active or
    /// one is still running; otherwise one starts, scanning the workspace on
    /// every fourth tick.
    pub fn on_tick(&mut self, window_active: bool) -> (r: Option<RefreshStart>)
        ensures
            !window_active || old(self).in_progress ==> r is None && *final(self) == *old(self),
            window_active && !old(self).in_progress ==> r == Some(
                RefreshStart {
                    scan_workspace: old(self).tick % 4 == 0,
                    prev_status_hash: old(self).last_status_hash,
                },
            ) && *final(self) == (RefreshState {
                in_progress: true,
                tick: if old(self).tick == u32::MAX {
                    0
                } else {
                    (old(self).tick + 1) as u32
                },
                ..*old(self)
            }),
    {
        if !window_active || self.in_progress {
            return None;
        }
        self.in_progress = true;
        let tick = self.tick;
        self.tick = tick.wrapping_add(1);
        Some(RefreshStart { scan_workspace: tick % 4 == 0, prev_status_hash: self.last_status_hash })
    }

    /// A result comes back: the refresh is over, and each part whose
    /// fingerprint or counts differ from what is shown is redrawn and
    /// remembered.
    pub fn on_result(&mut self, result: RefreshResult) -> (r: RefreshApply)
        ensures
            r.status == (result.status_hash matches Some(h) && h != old(self).last_status_hash),
            r.ahead_behind == (result.ahead != old(self).last_ahead || result.behind != old(self).last_behind),
            r.workspace == (result.workspace_hash matches Some(h) && h != old(self).last_workspace_hash),
            *final(self) == (RefreshState {
                in_progress: false,
                tick: old(self).tick,
                last_status_hash: if r.status {
                    result.status_hash->0
                } else {
                    old(self).last_status_hash
                },
                last_workspace_hash: if r.workspace {
                    result.workspace_hash->0
                } else {
                    old(self).last_workspace_hash
                },
                last_ahead: result.ahead,
                last_behind: result.behind,
            }),
    {
        self.in_progress = false;
        let status = match result.status_hash {
            Some(h) => h != self.last_status_hash,
            None => false,
        };
        if status {
            self.last_status_hash = match result.status_hash {
                Some(h) => h,
                None => self.last_status_hash,
            };
        }
        let ahead_behind = result.ahead != self.last_ahead || result.behind != self.last_behind;
        self.last_ahead = result.ahead;
        self.last_behind = result.behind;
        let workspace = match result.workspace_hash {
            Some(h) => h != self.last_workspace_hash,
            None => false,
        };
        if workspace {
            self.last_workspace_hash = match result.workspace_hash {
                Some(h) => h,
                None => self.last_workspace_hash,
            };
        }
        RefreshApply { status, ahead_behind, workspace }
    }

    /// Forgets the status on show, so that the next result redraws it.
    pub fn forget_status(&mut self)
        ensures
            *final(self) == (RefreshState { last_status_hash: 0, ..*old(self) }),
    {
        self.last_status_hash = 0;
    }

    /// Forgets the workspace list on show, so that the next scan redraws it.
    pub fn forget_workspace(&mut self)
        ensures
            *final(self) == (RefreshState { last_workspace_hash: 0, ..*old(self) }),
    {
        self.last_workspace_hash = 0;
    }
}

/// Whether the background reads the diffs again: only when the status it
/// read differs from the one on show.
pub fn reads_diffs(status_hash: u64, prev_status_hash: u64) -> (r: bool)
    ensures
        r == (status_hash != prev_status_hash),
{
    status_hash != prev_status_hash
}

} // verus!
