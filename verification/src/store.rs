//! Where the configuration is kept: file names, the order in which files are tried on loading,
//! the order of the steps of a save, and which daily backups are kept.

use crate::model::Config;
use crate::order::{ahead, sort_order, stable_order, Keyed};
use crate::text::{
    chars_of, digit, is_digit, is_letter, letter, string_of, text_before, NameKey,
};
use crate::validate::{config_error, validate, ValidationError};
use vstd::prelude::*;

verus! {

/// The most daily backups that are kept.
pub const DAILY_BACKUPS_KEPT: usize = 7;

// ---- paths --------------------------------------------------------------------------------

/// The folder that holds the configuration.
#[derive(Debug, PartialEq, Eq)]
pub struct ConfigStore {
    pub dir: String,
}

/// A drive alone, as `C:`.
pub open spec fn is_drive(dir: Seq<char>) -> bool {
    dir.len() == 2 && is_letter(dir[0]) && dir[1] == ':'
}

/// The path of `name` in folder `dir`. What follows a drive alone is relative to its current
/// folder.
pub open spec fn joined(dir: Seq<char>, name: Seq<char>) -> Seq<char> {
    if dir.len() == 0 || dir.last() == '/' || dir.last() == '\\' || is_drive(dir) {
        dir + name
    } else {
        dir.push('/') + name
    }
}

fn join(dir: &str, name: &str) -> (r: String)
    ensures
        r@ == joined(dir@, name@),
{
    let mut out = chars_of(dir);
    let drive = out.len() == 2 && letter(out[0]) && out[1] == ':';
    if out.len() > 0 && out[out.len() - 1] != '/' && out[out.len() - 1] != '\\' && !drive {
        out.push('/');
    }
    let mut tail = chars_of(name);
    out.append(&mut tail);
    string_of(&out)
}

/// Which files of a store exist.
#[derive(Clone, Copy, Debug, PartialEq, Eq, Structural)]
pub struct SavedFiles {
    pub primary: bool,
    pub bak: bool,
    pub backups: usize,
}

impl SavedFiles {
    /// Something was saved: the primary file, the previous one, or a daily backup.
    pub open spec fn any(self) -> bool {
        self.primary || self.bak || self.backups > 0
    }

    /// Whether something was saved.
    pub fn has_saved_data(&self) -> (r: bool)
        ensures
            r == self.any(),
    {
        self.primary || self.bak || self.backups > 0
    }
}

impl ConfigStore {
    /// The store in folder `dir`.
    pub fn new(dir: String) -> (r: Self)
        ensures
            r.dir == dir,
    {
        ConfigStore { dir }
    }

    /// The store in `preferred`, or in `legacy` where only that one has saved data: data of an
    /// installation under an older name is used where it is.
    pub fn with_legacy(
        preferred: String,
        preferred_files: SavedFiles,
        legacy: String,
        legacy_files: SavedFiles,
    ) -> (r: Self)
        ensures
            r.dir == if !preferred_files.any() && legacy_files.any() {
                legacy
            } else {
                preferred
            },
    {
        if !preferred_files.has_saved_data() && legacy_files.has_saved_data() {
            ConfigStore::new(legacy)
        } else {
            ConfigStore::new(preferred)
        }
    }

    /// The folder of the store.
    pub fn dir(&self) -> (r: &str)
        ensures
            r@ == self.dir@,
    {
        self.dir.as_str()
    }

    /// The file that is read first and written last.
    pub fn primary_path(&self) -> (r: String)
        ensures
            r@ == joined(self.dir@, "config.json"@),
    {
        join(self.dir.as_str(), "config.json")
    }

    /// The previous primary file.
    pub fn bak_path(&self) -> (r: String)
        ensures
            r@ == joined(self.dir@, "config.bak"@),
    {
        join(self.dir.as_str(), "config.bak")
    }

    /// The file that a save writes before it becomes the primary one.
    pub fn tmp_path(&self) -> (r: String)
        ensures
            r@ == joined(self.dir@, "config.json.tmp"@),
    {
        join(self.dir.as_str(), "config.json.tmp")
    }

    /// The folder of the daily backups.
    pub fn backups_dir(&self) -> (r: String)
        ensures
            r@ == joined(self.dir@, "backups"@),
    {
        join(self.dir.as_str(), "backups")
    }
}

// ---- backups ------------------------------------------------------------------------------

/// The names in order of their code points: daily backups, named by their dates, oldest first.
pub open spec fn is_sorted_of(sorted: Seq<String>, names: Seq<String>) -> bool {
    &&& sorted.len() == names.len()
    &&& exists|perm: Seq<usize>| #[trigger] sorts(perm, sorted, names)
}

/// `perm` lists each of `names` once, in the order of `sorted`.
pub open spec fn sorts(perm: Seq<usize>, sorted: Seq<String>, names: Seq<String>) -> bool {
    &&& perm.len() == names.len()
    &&& perm.no_duplicates()
    &&& forall|a: int| 0 <= a < perm.len() ==> 0 <= #[trigger] perm[a] < names.len()
    &&& forall|a: int|
        0 <= a < perm.len() ==> (#[trigger] sorted[a])@ == names[perm[a] as int]@
    &&& forall|a: int, b: int|
        0 <= a < b < sorted.len() ==> !text_before((#[trigger] sorted[b])@, (#[trigger] sorted[a])@)
}

/// The names in order of their code points.
pub fn sort_names(names: &Vec<String>) -> (r: Vec<String>)
    ensures
        is_sorted_of(r@, names@),
{
    let n: usize = names.len();
    let mut keys: Vec<NameKey> = Vec::new();
    for i in 0..n
        invariant
            n == names.len(),
            keys.len() == i,
            forall|j: int| 0 <= j < i ==> (#[trigger] keys@[j]).chars@ == names@[j]@,
    {
        keys.push(NameKey { chars: chars_of(names[i].as_str()) });
    }
    let perm = sort_order(&keys);
    let mut out: Vec<String> = Vec::new();
    for a in 0..n
        invariant
            n == names.len(),
            n == keys.len(),
            stable_order(keys@, perm@),
            out.len() == a,
            forall|j: int| 0 <= j < a ==> #[trigger] out@[j] == names@[perm@[j] as int],
    {
        assert(0 <= perm@[a as int] < keys.len());
        out.push(names[perm[a]].clone());
    }
    proof {
        assert forall|a: int, b: int| 0 <= a < b < out.len() implies !text_before(
            (#[trigger] out@[b])@,
            (#[trigger] out@[a])@,
        ) by {
            assert(ahead(keys@, perm@[a] as int, perm@[b] as int));
            assert(keys@[perm@[a] as int].chars@ == out@[a]@);
            assert(keys@[perm@[b] as int].chars@ == out@[b]@);
            NameKey::ordered(
                keys@[perm@[a] as int],
                keys@[perm@[b] as int],
                keys@[perm@[a] as int],
            );
            crate::text::lemma_text_before(out@[a]@, out@[b]@, out@[a]@);
        }
        assert(sorts(perm@, out@, names@));
    }
    out
}

/// The name of a daily backup: a date, as `2024-01-31`, and `.json`.
pub open spec fn is_backup_name(name: Seq<char>) -> bool {
    let n = name.len() as int;
    &&& n >= 15
    &&& forall|i: int| 0 <= i < n - 11 ==> is_digit(#[trigger] name[i])
    &&& name[n - 11] == '-'
    &&& is_digit(name[n - 10])
    &&& is_digit(name[n - 9])
    &&& name[n - 8] == '-'
    &&& is_digit(name[n - 7])
    &&& is_digit(name[n - 6])
    &&& name.skip(n - 5) == ".json"@
}

/// The paths of the daily backups among the files of folder `dir` with these names, in their order.
pub open spec fn backups_in(dir: Seq<char>, names: Seq<String>) -> Seq<Seq<char>>
    decreases names.len(),
{
    if names.len() == 0 {
        Seq::empty()
    } else {
        let rest = backups_in(dir, names.drop_last());
        if is_backup_name(names.last()@) {
            rest.push(joined(dir, names.last()@))
        } else {
            rest
        }
    }
}

fn names_backup(name: &str) -> (r: bool)
    ensures
        r == is_backup_name(name@),
{
    let s = chars_of(name);
    let n: usize = s.len();
    if n < 15 {
        return false;
    }
    for i in 0..n - 11
        invariant
            s@ == name@,
            n == s.len(),
            n >= 15,
            forall|j: int| 0 <= j < i ==> is_digit(#[trigger] s@[j]),
    {
        if digit(s[i]).is_none() {
            return false;
        }
    }
    proof {
        reveal_strlit(".json");
        let tail = name@.skip(n - 5);
        let json = ".json"@;
        assert(tail =~= json <==> tail[0] == '.' && tail[1] == 'j' && tail[2] == 's' && tail[3]
            == 'o' && tail[4] == 'n');
    }
    s[n - 11] == '-' && digit(s[n - 10]).is_some() && digit(s[n - 9]).is_some() && s[n - 8] == '-'
        && digit(s[n - 7]).is_some() && digit(s[n - 6]).is_some() && s[n - 5] == '.' && s[n - 4]
        == 'j' && s[n - 3] == 's' && s[n - 2] == 'o' && s[n - 1] == 'n'
}

/// The texts of strings.
pub open spec fn texts_of(names: Seq<String>) -> Seq<Seq<char>> {
    Seq::new(names.len(), |i: int| names[i]@)
}

impl ConfigStore {
    /// The paths of the daily backups, given the names of the files in their folder.
    pub fn list_backups(&self, names: &Vec<String>) -> (r: Vec<String>)
        ensures
            texts_of(r@) == backups_in(joined(self.dir@, "backups"@), names@),
    {
        let dir = self.backups_dir();
        let mut out: Vec<String> = Vec::new();
        let n: usize = names.len();
        for i in 0..n
            invariant
                n == names.len(),
                dir@ == joined(self.dir@, "backups"@),
                texts_of(out@) == backups_in(dir@, names@.take(i as int)),
        {
            assert(names@.take(i + 1).drop_last() == names@.take(i as int));
            if names_backup(names[i].as_str()) {
                let ghost before = out@;
                out.push(join(dir.as_str(), names[i].as_str()));
                assert(texts_of(out@) =~= texts_of(before).push(joined(dir@, names@[i as int]@)));
            }
        }
        assert(names@.take(n as int) == names@);
        out
    }
}

/// The backups to choose from, newest first.
pub fn backup_files(names: &Vec<String>) -> (r: Vec<String>)
    ensures
        exists|sorted: Seq<String>| #[trigger]
            is_sorted_of(sorted, names@) && r@ == sorted.reverse(),
{
    let mut sorted = sort_names(names);
    let ghost all = sorted@;
    let mut out: Vec<String> = Vec::new();
    while sorted.len() > 0
        invariant
            sorted.len() + out.len() == all.len(),
            sorted@ == all.take(sorted.len() as int),
            forall|j: int| 0 <= j < out.len() ==> #[trigger] out@[j] == all[all.len() - 1 - j],
        decreases sorted.len(),
    {
        if let Some(s) = sorted.pop() {
            out.push(s);
        }
    }
    assert(out@ =~= all.reverse());
    out
}

/// How many backups of `n` are too many.
pub open spec fn excess_backups(n: int) -> int {
    if n > DAILY_BACKUPS_KEPT {
        n - DAILY_BACKUPS_KEPT
    } else {
        0
    }
}

/// The daily backups to delete: the oldest ones, so many that the newest seven stay.
pub fn expired_backups(names: &Vec<String>) -> (r: Vec<String>)
    ensures
        exists|sorted: Seq<String>| #[trigger]
            is_sorted_of(sorted, names@) && r@ == sorted.take(excess_backups(names.len() as int)),
{
    let mut sorted = sort_names(names);
    let ghost all = sorted@;
    let keep: usize = if sorted.len() > DAILY_BACKUPS_KEPT {
        sorted.len() - DAILY_BACKUPS_KEPT
    } else {
        0
    };
    sorted.truncate(keep);
    assert(sorted@ =~= all.take(excess_backups(names.len() as int)));
    sorted
}

// ---- loading ------------------------------------------------------------------------------

/// Why nothing that was saved could be used.
#[derive(Debug, PartialEq, Eq)]
pub enum FreshReason {
    FirstRun,
    CorruptPrimary { reason: String, quarantined: Option<String> },
    UnreadablePrimary { reason: String },
}

/// What loading came to.
pub enum LoadOutcome {
    /// Loaded from the primary file.
    Primary(Config),
    /// Loaded from the previous file or from a daily backup, at this path.
    Recovered(Config, String),
    /// Nothing usable: the default configuration.
    Fresh(Config, FreshReason),
}

impl LoadOutcome {
    /// The configuration that was loaded.
    pub fn into_config(self) -> (r: Config)
        ensures
            r == match self {
                LoadOutcome::Primary(c) => c,
                LoadOutcome::Recovered(c, _) => c,
                LoadOutcome::Fresh(c, _) => c,
            },
    {
        match self {
            LoadOutcome::Primary(c) => c,
            LoadOutcome::Recovered(c, _) => c,
            LoadOutcome::Fresh(c, _) => c,
        }
    }
}

/// What reading the primary file gave.
pub enum PrimaryFile {
    /// A configuration that was read and accepted.
    Accepted(Config),
    /// Text that is no acceptable configuration, and why.
    Rejected(String),
    /// There is no such file.
    Missing,
    /// The file could not be read, and why.
    Unreadable(String),
}

/// What to do once the primary file was read.
pub enum AfterPrimary {
    /// Loading is done.
    Done(LoadOutcome),
    /// Put the damaged file aside, then try the other files.
    Quarantine(String),
    /// Try the other files; the reason is why the default is used if none is usable.
    TryOthers(FreshReason),
}

/// What to do once the primary file was read: an acceptable one is used, a damaged one is put
/// aside.
pub fn after_primary(primary: PrimaryFile) -> (r: AfterPrimary)
    ensures
        match primary {
            PrimaryFile::Accepted(c) => r == AfterPrimary::Done(LoadOutcome::Primary(c)),
            PrimaryFile::Rejected(reason) => r == AfterPrimary::Quarantine(reason),
            PrimaryFile::Missing => r == AfterPrimary::TryOthers(FreshReason::FirstRun),
            PrimaryFile::Unreadable(reason) => r == AfterPrimary::TryOthers(
                FreshReason::UnreadablePrimary { reason },
            ),
        },
{
    match primary {
        PrimaryFile::Accepted(c) => AfterPrimary::Done(LoadOutcome::Primary(c)),
        PrimaryFile::Rejected(reason) => AfterPrimary::Quarantine(reason),
        PrimaryFile::Missing => AfterPrimary::TryOthers(FreshReason::FirstRun),
        PrimaryFile::Unreadable(reason) => AfterPrimary::TryOthers(
            FreshReason::UnreadablePrimary { reason },
        ),
    }
}

/// The reason to give for a damaged primary file once it was put aside, or could not be.
pub fn after_quarantine(reason: String, path: String, failure: Option<String>) -> (r: FreshReason)
    ensures
        match failure {
            None => r == (FreshReason::CorruptPrimary { reason, quarantined: Some(path) }),
            Some(f) => {
                &&& r matches FreshReason::CorruptPrimary { reason: why, quarantined: None }
                &&& why@ == reason@ + "; quarantine failed: "@ + f@
            },
        },
{
    match failure {
        None => FreshReason::CorruptPrimary { reason, quarantined: Some(path) },
        Some(f) => {
            let mut text = chars_of(reason.as_str());
            let mut middle = chars_of("; quarantine failed: ");
            let mut tail = chars_of(f.as_str());
            text.append(&mut middle);
            text.append(&mut tail);
            FreshReason::CorruptPrimary { reason: string_of(&text), quarantined: None }
        },
    }
}

/// The files to try after the primary one: the previous file, then the daily backups, newest
/// first.
pub fn fallback_order(bak: String, backups: &Vec<String>) -> (r: Vec<String>)
    ensures
        r.len() == backups.len() + 1,
        r@[0] == bak,
        exists|sorted: Seq<String>| #[trigger]
            is_sorted_of(sorted, backups@) && r@.skip(1) == sorted.reverse(),
{
    let sorted = sort_names(backups);
    let mut out: Vec<String> = Vec::new();
    out.push(bak);
    let n: usize = sorted.len();
    let mut i: usize = n;
    while i > 0
        invariant
            i <= n,
            n == sorted.len(),
            out.len() == 1 + (n - i),
            out@[0] == bak,
            forall|j: int| 1 <= j < out.len() ==> #[trigger] out@[j] == sorted@[n - j],
        decreases i,
    {
        i = i - 1;
        out.push(sorted[i].clone());
    }
    assert(out@.skip(1) =~= sorted@.reverse());
    out
}

/// A file that was tried: its path, and its configuration where it has an acceptable one.
pub struct Tried {
    pub path: String,
    pub config: Option<Config>,
}

/// The first usable file.
pub open spec fn first_usable(tried: Seq<Tried>, i: int) -> bool {
    &&& 0 <= i < tried.len()
    &&& tried[i].config is Some
    &&& forall|j: int| 0 <= j < i ==> (#[trigger] tried[j]).config is None
}

/// What loading comes to once the other files were tried: the first usable one is used, else the
/// default configuration.
pub fn recover(tried: Vec<Tried>, reason: FreshReason) -> (r: LoadOutcome)
    ensures
        match r {
            LoadOutcome::Primary(_) => false,
            LoadOutcome::Recovered(c, path) => exists|i: int| #[trigger]
                first_usable(tried@, i) && tried@[i].config == Some(c) && tried@[i].path == path,
            LoadOutcome::Fresh(c, why) => {
                &&& forall|j: int| 0 <= j < tried.len() ==> (#[trigger] tried@[j]).config is None
                &&& why == reason
                &&& call_ensures(Config::default, (), c)
            },
        },
{
    let mut tried = tried;
    let ghost all = tried@;
    let n: usize = tried.len();
    let mut i: usize = 0;
    while i < n && tried[i].config.is_none()
        invariant
            i <= n,
            n == tried.len(),
            tried@ == all,
            forall|j: int| 0 <= j < i ==> (#[trigger] all[j]).config is None,
        decreases n - i,
    {
        i = i + 1;
    }
    if i < n {
        let t = tried.swap_remove(i);
        assert(first_usable(all, i as int));
        match t.config {
            Some(c) => {
                return LoadOutcome::Recovered(c, t.path);
            },
            None => {},
        }
    }
    LoadOutcome::Fresh(Config::default(), reason)
}

/// Two digits of a number below 100.
fn push_two(out: &mut Vec<char>, n: u64)
    requires
        n < 100,
    ensures
        final(out)@ == old(out)@ + two_digits(n as int),
{
    let tens: u8 = (n / 10) as u8;
    let ones: u8 = (n % 10) as u8;
    out.push((tens + 48) as char);
    out.push((ones + 48) as char);
    assert(out@ =~= old(out)@ + two_digits(n as int));
}

pub open spec fn two_digits(n: int) -> Seq<char> {
    seq![((n / 10) + 48) as char, ((n % 10) + 48) as char]
}

/// `s` without hyphens.
pub open spec fn without_hyphens(s: Seq<char>) -> Seq<char>
    decreases s.len(),
{
    if s.len() == 0 {
        Seq::empty()
    } else {
        let rest = without_hyphens(s.drop_last());
        if s.last() != '-' {
            rest.push(s.last())
        } else {
            rest
        }
    }
}

/// The name under which a damaged file is put aside: the date without hyphens, and the time of
/// day.
pub open spec fn quarantine_text(today: Seq<char>, seconds: int) -> Seq<char> {
    let t = seconds % 86_400;
    "config.corrupt-"@ + without_hyphens(today) + seq!['-'] + two_digits(t / 3600) + two_digits(
        t / 60 % 60,
    ) + two_digits(t % 60) + ".json"@
}

/// The name under which a damaged file is put aside, on a date and at a second of the clock.
pub fn quarantine_name(today: &str, seconds: u64) -> (r: String)
    ensures
        r@ == quarantine_text(today@, seconds as int),
{
    let mut out = chars_of("config.corrupt-");
    let day = chars_of(today);
    let ghost start = out@;
    let n: usize = day.len();
    for i in 0..n
        invariant
            n == day.len(),
            out@ == start + without_hyphens(day@.take(i as int)),
    {
        assert(day@.take(i + 1).drop_last() == day@.take(i as int));
        if day[i] != '-' {
            let ghost before = without_hyphens(day@.take(i as int));
            out.push(day[i]);
            assert(out@ =~= start + before.push(day@[i as int]));
        }
    }
    assert(day@.take(n as int) == day@);
    let t: u64 = seconds % 86_400;
    out.push('-');
    push_two(&mut out, t / 3600);
    push_two(&mut out, t / 60 % 60);
    push_two(&mut out, t % 60);
    let mut tail = chars_of(".json");
    out.append(&mut tail);
    assert(out@ =~= quarantine_text(today@, seconds as int));
    string_of(&out)
}

// ---- saving -------------------------------------------------------------------------------

/// One step of a save.
#[derive(Clone, Copy, Debug, PartialEq, Eq, Structural)]
pub enum SaveStep {
    CreateFolder,
    /// Write the new configuration to the temporary file and wait until it is on the disk.
    WriteTmp,
    /// Delete the previous file. May fail.
    RemoveBak,
    /// The primary file becomes the previous one. May fail.
    PrimaryToBak,
    /// The temporary file becomes the primary one.
    TmpToPrimary,
    /// Write today's backup where there is none, and delete the oldest ones.
    DailyBackup,
}

pub open spec fn save_plan(primary_exists: bool) -> Seq<SaveStep> {
    if primary_exists {
        seq![
            SaveStep::CreateFolder,
            SaveStep::WriteTmp,
            SaveStep::RemoveBak,
            SaveStep::PrimaryToBak,
            SaveStep::TmpToPrimary,
            SaveStep::DailyBackup,
        ]
    } else {
        seq![
            SaveStep::CreateFolder,
            SaveStep::WriteTmp,
            SaveStep::TmpToPrimary,
            SaveStep::DailyBackup,
        ]
    }
}

/// The steps of a save, in order; an invalid configuration is not saved.
pub fn save_steps(cfg: &Config, primary_exists: bool) -> (r: Result<Vec<SaveStep>, ValidationError>)
    ensures
        match r {
            Ok(steps) => config_error(*cfg) is None && steps@ == save_plan(primary_exists),
            Err(e) => config_error(*cfg) == Some(e),
        },
{
    match validate(cfg) {
        Err(e) => Err(e),
        Ok(()) => {
            let mut steps: Vec<SaveStep> = Vec::new();
            steps.push(SaveStep::CreateFolder);
            steps.push(SaveStep::WriteTmp);
            if primary_exists {
                steps.push(SaveStep::RemoveBak);
                steps.push(SaveStep::PrimaryToBak);
            }
            steps.push(SaveStep::TmpToPrimary);
            steps.push(SaveStep::DailyBackup);
            assert(steps@ =~= save_plan(primary_exists));
            Ok(steps)
        },
    }
}

/// What the three files of a store hold: nothing, or one whole configuration.
pub struct Disk {
    pub primary: Option<int>,
    pub bak: Option<int>,
    pub tmp: Option<int>,
}

/// The files after a step that succeeds; `new` is the configuration being saved.
pub open spec fn step_done(d: Disk, step: SaveStep, new: int) -> Disk {
    match step {
        SaveStep::WriteTmp => Disk { tmp: Some(new), ..d },
        SaveStep::RemoveBak => Disk { bak: None, ..d },
        SaveStep::PrimaryToBak => Disk { primary: None, bak: d.primary, ..d },
        SaveStep::TmpToPrimary => Disk { primary: d.tmp, tmp: None, ..d },
        SaveStep::CreateFolder | SaveStep::DailyBackup => d,
    }
}

/// The files after the first `k` steps of a save.
pub open spec fn after_steps(d: Disk, new: int, k: int) -> Disk
    decreases k,
{
    if k <= 0 {
        d
    } else {
        step_done(after_steps(d, new, k - 1), save_plan(d.primary is Some)[k - 1], new)
    }
}

/// A save that stops after any step leaves a whole configuration that loading finds, in the
/// primary file or the previous one: the old one or the new one. A save that is not stopped
/// leaves the new one in the primary file and the old one beside it.
pub proof fn a_save_never_loses_the_configuration(d: Disk, old_config: int, new: int, k: int)
    requires
        d.primary == Some(old_config),
        0 <= k <= save_plan(true).len(),
    ensures
        ({
            let e = after_steps(d, new, k);
            e.primary == Some(old_config) || e.bak == Some(old_config)
        }),
        ({
            let e = after_steps(d, new, save_plan(true).len() as int);
            e.primary == Some(new) && e.bak == Some(old_config) && e.tmp is None
        }),
{
    reveal_with_fuel(after_steps, 7);
    assert(k == 0 || k == 1 || k == 2 || k == 3 || k == 4 || k == 5 || k == 6);
}

// ---- what the names say -----------------------------------------------------------------------

/// A name is put behind its folder with one separator, which is added where the folder ends in
/// none and is no bare drive.
pub proof fn names_go_behind_their_folder(dir: Seq<char>, name: Seq<char>)
    ensures
        dir.len() == 0 ==> joined(dir, name) == name,
        dir.len() > 0 && (dir.last() == '/' || dir.last() == '\\') ==> joined(dir, name) == dir + name,
        dir.len() > 2 && dir.last() != '/' && dir.last() != '\\' ==> joined(dir, name) == dir + "/"@
            + name,
        dir.len() == 2 && dir[1] == ':' && is_letter(dir[0]) ==> joined(dir, name) == dir + name,
{
    reveal_strlit("/");
    assert(dir.push('/') =~= dir + "/"@);
    assert(Seq::<char>::empty() + name =~= name);
    if dir.len() == 0 {
        assert(dir + name =~= name);
    }
}

/// A backup is named by a year of four digits or more, a month and a day of two, with hyphens
/// between them, and the ending.
pub proof fn backups_are_named_by_their_day(year: Seq<char>, month: Seq<char>, day: Seq<char>)
    requires
        year.len() >= 4,
        month.len() == 2,
        day.len() == 2,
    ensures
        is_backup_name(year + "-"@ + month + "-"@ + day + ".json"@) <==> (forall|i: int|
            0 <= i < year.len() ==> is_digit(#[trigger] year[i])) && is_digit(month[0]) && is_digit(
            month[1],
        ) && is_digit(day[0]) && is_digit(day[1]),
{
    reveal_strlit("-");
    reveal_strlit(".json");
    let name = year + "-"@ + month + "-"@ + day + ".json"@;
    let n = name.len() as int;
    assert(n - 11 == year.len());
    assert(name[n - 11] == '-' && name[n - 8] == '-');
    assert(name[n - 10] == month[0] && name[n - 9] == month[1]);
    assert(name[n - 7] == day[0] && name[n - 6] == day[1]);
    assert(name.skip(n - 5) =~= ".json"@);
    assert(forall|i: int| 0 <= i < year.len() ==> name[i] == year[i]);
    if is_backup_name(name) {
        assert forall|i: int| 0 <= i < year.len() implies is_digit(#[trigger] year[i]) by {
            assert(is_digit(name[i]));
        }
    }
}

/// What is too short for a backup or ends otherwise is none.
pub proof fn other_names_are_no_backups(name: Seq<char>)
    ensures
        is_backup_name(name) ==> name.len() >= 15 && name.skip(name.len() - 5) == ".json"@,
{
}

/// The backups are the files with such a name, in their order.
pub proof fn backups_keep_the_order_of_names(dir: Seq<char>, names: Seq<String>)
    ensures
        backups_in(dir, names) == names.filter(|s: String| is_backup_name(s@)).map_values(
            |s: String| joined(dir, s@),
        ),
    decreases names.len(),
{
    reveal(Seq::filter);
    let p = |s: String| is_backup_name(s@);
    let g = |s: String| joined(dir, s@);
    if names.len() > 0 {
        backups_keep_the_order_of_names(dir, names.drop_last());
        let front = names.drop_last().filter(p);
        assert(front.push(names.last()).map_values(g) =~= front.map_values(g).push(g(names.last())));
    }
}

/// Seven backups stay, or all where there are fewer.
pub proof fn seven_backups_stay(n: int)
    requires
        n >= 0,
    ensures
        n <= 7 ==> excess_backups(n) == 0,
        n > 7 ==> n - excess_backups(n) == 7,
{
}

proof fn lemma_without_hyphens(s: Seq<char>)
    ensures
        without_hyphens(s) == s.filter(|c: char| c != '-'),
    decreases s.len(),
{
    reveal(Seq::filter);
    if s.len() > 0 {
        lemma_without_hyphens(s.drop_last());
    }
}

/// A damaged file is put aside under the day without hyphens and the time of that day in hours,
/// minutes and seconds.
pub proof fn damaged_files_are_named_by_their_time(
    today: Seq<char>,
    day: int,
    h: int,
    m: int,
    s: int,
)
    requires
        0 <= h < 24,
        0 <= m < 60,
        0 <= s < 60,
    ensures
        quarantine_text(today, day * 86_400 + h * 3600 + m * 60 + s) == "config.corrupt-"@
            + today.filter(|c: char| c != '-') + "-"@ + two_digits(h) + two_digits(m) + two_digits(s)
            + ".json"@,
        two_digits(h).len() == 2,
        forall|n: int|
            0 <= n < 100 ==> (#[trigger] two_digits(n))[0] as int - '0' as int == n / 10 && two_digits(
                n,
            )[1] as int - '0' as int == n % 10,
{
    lemma_without_hyphens(today);
    reveal_strlit("-");
    assert(seq!['-'] =~= "-"@);
    let seconds = day * 86_400 + h * 3600 + m * 60 + s;
    let t = seconds % 86_400;
    assert(t == h * 3600 + m * 60 + s);
    assert(t / 3600 == h);
    assert(t / 60 == h * 60 + m);
    assert(t / 60 % 60 == m);
    assert(t % 60 == s);
}

/// A first save leaves the configuration in the primary file and nothing in the others; every save
/// makes the folder before anything else, and the daily backup last.
pub proof fn a_first_save_writes_the_primary_file(d: Disk, new: int)
    requires
        d.primary is None,
    ensures
        ({
            let e = after_steps(d, new, save_plan(false).len() as int);
            e.primary == Some(new) && e.bak == d.bak && e.tmp is None
        }),
        forall|exists_: bool| (#[trigger] save_plan(exists_))[0] is CreateFolder,
        forall|exists_: bool| (#[trigger] save_plan(exists_)).last() is DailyBackup,
{
    reveal_with_fuel(after_steps, 5);
}

/// A configuration is loaded from the primary file, else from the first of the others that is
/// usable, and only where none is from nothing; the folder of old is used where it alone has
/// anything.
pub proof fn the_first_usable_file_is_loaded(
    tried: Vec<Tried>,
    reason: FreshReason,
    r: LoadOutcome,
    i: int,
    primary: PrimaryFile,
    next: AfterPrimary,
)
    requires
        call_ensures(recover, (tried, reason), r),
        call_ensures(after_primary, (primary,), next),
        0 <= i < tried.len(),
    ensures
        tried@[i].config is Some && (forall|j: int| 0 <= j < i ==> (#[trigger] tried@[j]).config is None)
            ==> r == LoadOutcome::Recovered(tried@[i].config->0, tried@[i].path),
        (forall|j: int| 0 <= j < tried.len() ==> (#[trigger] tried@[j]).config is None) ==> r is Fresh
            && r->Fresh_1 == reason,
        primary matches PrimaryFile::Accepted(c) ==> next == AfterPrimary::Done(
            LoadOutcome::Primary(c),
        ),
        primary is Rejected <==> next is Quarantine,
        primary is Missing ==> next == AfterPrimary::TryOthers(FreshReason::FirstRun),
        primary is Unreadable ==> next is TryOthers && next->TryOthers_0 is UnreadablePrimary,
{
    if tried@[i].config is Some && (forall|j: int|
        0 <= j < i ==> (#[trigger] tried@[j]).config is None) {
        if let LoadOutcome::Recovered(c, path) = r {
            let k = choose|k: int| #[trigger]
                first_usable(tried@, k) && tried@[k].config == Some(c) && tried@[k].path == path;
            if k < i {
                assert(tried@[k].config is None);
            }
            if i < k {
                assert(tried@[i].config is None);
            }
        }
    }
    if forall|j: int| 0 <= j < tried.len() ==> (#[trigger] tried@[j]).config is None {
        if let LoadOutcome::Recovered(c, path) = r {
            let k = choose|k: int| #[trigger]
                first_usable(tried@, k) && tried@[k].config == Some(c) && tried@[k].path == path;
            assert(tried@[k].config is None);
        }
    }
}

/// The folder of old is used where it has something saved and the preferred one has nothing.
pub proof fn the_old_folder_is_used_while_it_is_the_only_one(
    preferred: String,
    preferred_files: SavedFiles,
    legacy: String,
    legacy_files: SavedFiles,
    r: ConfigStore,
)
    requires
        call_ensures(ConfigStore::with_legacy, (preferred, preferred_files, legacy, legacy_files), r),
    ensures
        preferred_files.primary || preferred_files.bak || preferred_files.backups > 0 ==> r.dir
            == preferred,
        !legacy_files.primary && !legacy_files.bak && legacy_files.backups == 0 ==> r.dir == preferred,
        !preferred_files.primary && !preferred_files.bak && preferred_files.backups == 0 && (
        legacy_files.primary || legacy_files.bak || legacy_files.backups > 0) ==> r.dir == legacy,
{
}

/// A configuration is saved where it is fine, and refused with what is wrong with it otherwise.
pub proof fn only_fine_configurations_are_saved(
    cfg: &Config,
    primary_exists: bool,
    r: Result<Vec<SaveStep>, ValidationError>,
)
    requires
        call_ensures(save_steps, (cfg, primary_exists), r),
    ensures
        r is Ok <==> config_error(*cfg) is None,
        r matches Err(e) ==> config_error(*cfg) == Some(e),
        r matches Ok(steps) ==> steps@.contains(SaveStep::WriteTmp) && steps@.contains(
            SaveStep::TmpToPrimary,
        ) && (primary_exists ==> steps@.contains(SaveStep::PrimaryToBak)),
{
    if let Ok(steps) = r {
        if primary_exists {
            assert(steps@[1] is WriteTmp && steps@[3] is PrimaryToBak && steps@[4] is TmpToPrimary);
        } else {
            assert(steps@[1] is WriteTmp && steps@[2] is TmpToPrimary);
        }
    }
}

} // verus!
