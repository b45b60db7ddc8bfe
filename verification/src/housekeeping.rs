//! What is done once in a while: reading the desktop again, running the rules that depend on the
//! clock, and giving up what keeps failing.

use crate::filing::{files, same_but_files, DesktopEntry};
use crate::model::Config;
use crate::rules::rules_ran;
use crate::settings::Settings;
use crate::startup::{give_up_hiding, idle_due, idle_rules_due, reads_desktop};
use crate::state::{in_use, AppState};
use crate::sync::{desktop_synced, SyncReport};
use vstd::prelude::*;

verus! {

/// What is known when the regular work is done.
pub struct Rounds {
    /// The desktop could not be read the last time.
    pub was_unavailable: bool,
    pub available_now: bool,
    /// The desktop's special items are shown in fences.
    pub special_items: bool,
    /// What is on the desktop.
    pub entries: Vec<DesktopEntry>,
    /// The desktop cannot be read.
    pub unavailable: bool,
    /// When the rules that depend on the clock ran last, and the time, in seconds.
    pub rules_ran: Option<u64>,
    pub clock: u64,
    /// The time of day that records are given, in Unix seconds.
    pub now: i64,
    /// Hiding the desktop's icons kept failing.
    pub gave_up: bool,
}

/// What the regular work has changed.
#[derive(Clone, Copy, Debug, PartialEq, Eq, Structural)]
pub struct RoundsDone {
    /// The desktop was read, and something had changed.
    pub desktop_changed: bool,
    /// The rules that depend on the clock ran.
    pub rules_ran: bool,
    /// How many items they moved.
    pub moved: usize,
    /// Hiding the icons was turned off: tell the user.
    pub hiding_off: bool,
}

/// The desktop is read again.
pub open spec fn is_read(r: Rounds) -> bool {
    r.was_unavailable && r.available_now || r.special_items
}

/// The desktop was read again, where it is due.
pub open spec fn read_step(a: AppState, b: AppState, r: Rounds, report: SyncReport) -> bool {
    if is_read(r) {
        desktop_synced(
            files(a),
            files(b),
            r.entries@,
            a.config.rules.keep_updated,
            r.now,
            report,
        ) && same_but_files(b, a)
    } else {
        b == a && report == (SyncReport { added: 0, removed: 0, updated: 0 })
    }
}

/// The rules that depend on the clock ran, where they are due, and moved `n` items.
pub open spec fn rules_step(a: AppState, b: AppState, r: Rounds, n: nat) -> bool {
    if idle_due(a.config.rules, r.unavailable, r.rules_ran, r.clock) {
        rules_ran(files(a), files(b), r.entries@, a.config.rules.list@, true, n) && same_but_files(
            b,
            a,
        )
    } else {
        b == a && n == 0
    }
}

/// Hiding the icons was turned off, where it kept failing.
pub open spec fn hiding_step(a: AppState, b: AppState, gave_up: bool) -> bool {
    b == if a.config.settings.hide_real_icons && gave_up {
        AppState {
            config: Config {
                settings: Settings { hide_real_icons: false, ..a.config.settings },
                ..a.config
            },
            ..a
        }
    } else {
        a
    }
}

/// The steps of the regular work, one after the other.
pub open spec fn rounds_made(
    a: AppState,
    read: AppState,
    ruled: AppState,
    b: AppState,
    r: Rounds,
    report: SyncReport,
    d: RoundsDone,
) -> bool {
    &&& read_step(a, read, r, report)
    &&& rules_step(read, ruled, r, d.moved as nat)
    &&& hiding_step(ruled, b, r.gave_up)
    &&& d.desktop_changed == (report.added + report.removed + report.updated > 0)
    &&& d.rules_ran == idle_due(read.config.rules, r.unavailable, r.rules_ran, r.clock)
    &&& d.hiding_off == (ruled.config.settings.hide_real_icons && r.gave_up)
}

impl AppState {
    /// Does the regular work: reads the desktop again where that is due, runs the rules that depend
    /// on the clock once an hour, and turns the hiding of icons off where it kept failing.
    #[verifier::rlimit(60)]
    #[verifier::spinoff_prover]
    pub fn housekeeping(&mut self, r: &Rounds) -> (d: RoundsDone)
        requires
            in_use(*old(self)),
        ensures
            in_use(*final(self)),
            exists|read: AppState, ruled: AppState, report: SyncReport| #[trigger]
                rounds_made(*old(self), read, ruled, *final(self), *r, report, d),
    {
        let ghost before = *self;
        let report = if reads_desktop(r.was_unavailable, r.available_now, r.special_items) {
            self.sync_desktop_at(&r.entries, r.now)
        } else {
            SyncReport { added: 0, removed: 0, updated: 0 }
        };
        let ghost read = *self;
        assert(read_step(before, read, *r, report));
        let due: bool = idle_rules_due(&self.config.rules, r.unavailable, r.rules_ran, r.clock);
        let moved: usize = if due {
            self.apply_idle_rules(&r.entries)
        } else {
            0
        };
        let ghost ruled = *self;
        assert(rules_step(read, ruled, *r, moved as nat));
        let hiding_off: bool = give_up_hiding(&mut self.config.settings, r.gave_up);
        let d = RoundsDone { desktop_changed: report.changed(), rules_ran: due, moved, hiding_off };
        assert(hiding_step(ruled, *self, r.gave_up));
        assert(rounds_made(before, read, ruled, *self, *r, report, d));
        d
    }
}

/// The desktop is read again where it can be read and could not before, and on every round where
/// its special items are shown.
pub proof fn the_desktop_is_read_when_it_is_back(r: Rounds)
    ensures
        r.special_items ==> is_read(r),
        r.was_unavailable && r.available_now ==> is_read(r),
        !r.special_items && !(r.was_unavailable && r.available_now) ==> !is_read(r),
{
}

/// A round without anything to read or to run leaves the state as it is, but for hiding icons,
/// which is turned off where it kept failing; nothing is reported that was not done.
pub proof fn a_quiet_round_changes_nothing(
    a: AppState,
    read: AppState,
    ruled: AppState,
    b: AppState,
    r: Rounds,
    report: SyncReport,
    d: RoundsDone,
)
    requires
        rounds_made(a, read, ruled, b, r, report, d),
    ensures
        !is_read(r) ==> read == a && !d.desktop_changed,
        !d.rules_ran ==> ruled == read && d.moved == 0,
        d.rules_ran ==> rules_ran(
            files(read),
            files(ruled),
            r.entries@,
            read.config.rules.list@,
            true,
            d.moved as nat,
        ),
        d.hiding_off <==> ruled.config.settings.hide_real_icons && r.gave_up,
        d.hiding_off ==> !b.config.settings.hide_real_icons && b.config.items == ruled.config.items
            && b.config.layouts == ruled.config.layouts,
        !d.hiding_off ==> b == ruled,
        d.desktop_changed <==> report.added > 0 || report.removed > 0 || report.updated > 0,
{
}

} // verus!
