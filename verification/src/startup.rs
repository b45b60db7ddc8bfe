//! The command line, and what is done regularly.

use crate::rules::{has_idle, has_idle_cond};
use crate::model::{Rule, RuleSet};
use crate::settings::Settings;
use crate::snapshots::{trim_text, trimmed};
use crate::text::{
    chars_of, decimal, digit, is_digit, number_text, numbers_read_as_they_are_written, string_of,
};
use vstd::prelude::*;

verus! {

// ---- the command line ---------------------------------------------------------------------

/// What the command line asks for.
#[derive(Debug, PartialEq, Eq)]
pub struct Args {
    pub light: bool,
    pub dark: bool,
    pub wallpaper_override: Option<String>,
    pub portable: bool,
    pub no_hide_icons: bool,
    pub exit_after_ms: Option<u32>,
    pub dump_stats: bool,
    pub open_settings: bool,
    /// A folder to show in a portal.
    pub portal: Option<String>,
    /// A script to run the application by.
    pub test_script: Option<String>,
}

/// The argument is there.
pub open spec fn has_arg(args: Seq<String>, name: Seq<char>) -> bool {
    exists|i: int| 0 <= i < args.len() && (#[trigger] args[i])@ == name
}

/// The argument stands at `i` for the first time.
pub open spec fn arg_at(args: Seq<String>, name: Seq<char>, i: int) -> bool {
    &&& 0 <= i < args.len()
    &&& args[i]@ == name
    &&& forall|j: int| 0 <= j < i ==> (#[trigger] args[j])@ != name
}

/// What follows the first occurrence of the argument.
pub open spec fn arg_value(args: Seq<String>, name: Seq<char>) -> Option<Seq<char>> {
    if has_arg(args, name) {
        let i = choose|i: int| arg_at(args, name, i);
        if i + 1 < args.len() {
            Some(args[i + 1]@)
        } else {
            None
        }
    } else {
        None
    }
}

pub open spec fn text_of(s: Option<String>) -> Option<Seq<char>> {
    match s {
        Some(t) => Some(t@),
        None => None,
    }
}

fn find_arg(args: &Vec<String>, name: &str) -> (r: Option<usize>)
    ensures
        match r {
            Some(i) => arg_at(args@, name@, i as int),
            None => !has_arg(args@, name@),
        },
{
    let wanted = name.to_owned();
    let n: usize = args.len();
    for i in 0..n
        invariant
            n == args.len(),
            wanted@ == name@,
            forall|j: int| 0 <= j < i ==> (#[trigger] args@[j])@ != name@,
    {
        if args[i] == wanted {
            return Some(i);
        }
    }
    None
}

fn has(args: &Vec<String>, name: &str) -> (r: bool)
    ensures
        r == has_arg(args@, name@),
{
    match find_arg(args, name) {
        Some(i) => {
            assert(args@[i as int]@ == name@);
            true
        },
        None => false,
    }
}

fn value(args: &Vec<String>, name: &str) -> (r: Option<String>)
    ensures
        text_of(r) == arg_value(args@, name@),
{
    match find_arg(args, name) {
        Some(i) => {
            proof {
                assert(args@[i as int]@ == name@);
                let k = choose|k: int| arg_at(args@, name@, k);
                assert(arg_at(args@, name@, k));
                if k < i {
                    assert(args@[k]@ != name@);
                }
                if i < k {
                    assert(args@[i as int]@ != name@);
                }
            }
            if i < args.len() - 1 {
                Some(args[i + 1].clone())
            } else {
                None
            }
        },
        None => None,
    }
}

/// The digits of a number, behind a plus sign that may stand in front of them.
pub open spec fn digits_part(s: Seq<char>) -> Seq<char> {
    if s.len() > 0 && s[0] == '+' {
        s.skip(1)
    } else {
        s
    }
}

/// The number that a text stands for in decimal, where it is one of 32 bits.
pub open spec fn number_in(s: Seq<char>) -> Option<u32> {
    let d = digits_part(s);
    if d.len() > 0 && (forall|i: int| 0 <= i < d.len() ==> is_digit(#[trigger] d[i])) && decimal(d)
        <= u32::MAX {
        Some(decimal(d) as u32)
    } else {
        None
    }
}

proof fn lemma_decimal_grows(s: Seq<char>, k: int)
    requires
        0 <= k <= s.len(),
    ensures
        decimal(s.take(k)) <= decimal(s),
    decreases s.len() - k,
{
    if k == s.len() {
        assert(s.take(k) =~= s);
    } else {
        lemma_decimal_grows(s, k + 1);
        assert(s.take(k + 1).drop_last() =~= s.take(k));
    }
}

/// The number that a text stands for in decimal: digits, with a plus sign in front of them or
/// without, and no more than 32 bits.
pub fn parse_number(s: &str) -> (r: Option<u32>)
    ensures
        r == number_in(s@),
{
    let chars = chars_of(s);
    let n: usize = chars.len();
    let from: usize = if n > 0 && chars[0] == '+' {
        1
    } else {
        0
    };
    let ghost d = digits_part(s@);
    assert(d =~= s@.skip(from as int));
    if from == n {
        return None;
    }
    let mut value: u32 = 0;
    assert(d.take(0) =~= Seq::<char>::empty());
    for i in from..n
        invariant
            n == chars.len(),
            chars@ == s@,
            from <= n,
            d == s@.skip(from as int),
            d == digits_part(s@),
            value == decimal(d.take(i - from)),
            forall|j: int| 0 <= j < i - from ==> is_digit(#[trigger] d[j]),
    {
        let c: char = chars[i];
        assert(d[i - from] == c);
        let digit: u32 = match digit(c) {
            Some(v) => v as u32,
            None => {
                assert(!is_digit(d[i - from]));
                return None;
            },
        };
        proof {
            assert(d.take(i - from + 1).drop_last() =~= d.take(i - from));
            assert(d.take(i - from + 1).last() == c);
            lemma_decimal_grows(d, i - from + 1);
        }
        if value > (u32::MAX - digit) / 10 {
            assert(value * 10 + digit > u32::MAX);
            return None;
        }
        value = value * 10 + digit;
    }
    assert(d.take(n - from) =~= d);
    Some(value)
}

/// The command line, without the program's name, as what it asks for. Arguments it does not know
/// are passed over, and so is a number that is none.
pub fn parse_args(args: &Vec<String>) -> (r: Args)
    ensures
        r.light == has_arg(args@, "--light"@),
        r.dark == has_arg(args@, "--dark"@),
        text_of(r.wallpaper_override) == arg_value(args@, "--wallpaper"@),
        r.portable == has_arg(args@, "--portable"@),
        r.no_hide_icons == has_arg(args@, "--no-hide-icons"@),
        r.exit_after_ms == match arg_value(args@, "--exit-after"@) {
            Some(v) => number_in(v),
            None => None,
        },
        r.dump_stats == has_arg(args@, "--dump-stats"@),
        r.open_settings == has_arg(args@, "--open-settings"@),
        text_of(r.portal) == arg_value(args@, "--portal"@),
        text_of(r.test_script) == arg_value(args@, "--test-script"@),
{
    let exit_after_ms: Option<u32> = match value(args, "--exit-after") {
        Some(v) => parse_number(v.as_str()),
        None => None,
    };
    Args {
        light: has(args, "--light"),
        dark: has(args, "--dark"),
        wallpaper_override: value(args, "--wallpaper"),
        portable: has(args, "--portable"),
        no_hide_icons: has(args, "--no-hide-icons"),
        exit_after_ms,
        dump_stats: has(args, "--dump-stats"),
        open_settings: has(args, "--open-settings"),
        portal: value(args, "--portal"),
        test_script: value(args, "--test-script"),
    }
}

/// A light or a dark look.
#[derive(Clone, Copy, Debug, PartialEq, Eq, Structural)]
pub enum Look {
    Light,
    Dark,
}

impl Args {
    /// The look that the command line pins; light where it asks for both.
    pub fn look(&self) -> (r: Option<Look>)
        ensures
            r == if self.light {
                Some(Look::Light)
            } else if self.dark {
                Some(Look::Dark)
            } else {
                None
            },
    {
        if self.light {
            Some(Look::Light)
        } else if self.dark {
            Some(Look::Dark)
        } else {
            None
        }
    }
}

/// Whether the desktop's own icons are hidden in this run, so that its special items are shown in
/// fences.
pub fn hides_icons(settings: &Settings, no_hide_icons: bool) -> (r: bool)
    ensures
        r == (settings.hide_real_icons && !no_hide_icons),
{
    settings.hide_real_icons && !no_hide_icons
}

// ---- what is done regularly ---------------------------------------------------------------

/// The time between two runs of the rules that depend on the clock, in seconds.
pub const IDLE_RULES_SECS: u64 = 3600;

/// Whether the desktop is read again: it is back, or it has special items whose changes leave no
/// trace in a folder.
pub fn reads_desktop(unavailable: bool, available_now: bool, special_items: bool) -> (r: bool)
    ensures
        r == (unavailable && available_now || special_items),
{
    (unavailable && available_now) || special_items
}

/// Some rule depends on the clock.
pub open spec fn some_idle(list: Seq<Rule>) -> bool {
    exists|i: int| 0 <= i < list.len() && has_idle(#[trigger] list[i])
}

/// Whether some rule depends on the clock.
pub fn has_idle_rules(rules: &RuleSet) -> (r: bool)
    ensures
        r == some_idle(rules.list@),
{
    let n: usize = rules.list.len();
    for i in 0..n
        invariant
            n == rules.list.len(),
            forall|j: int| 0 <= j < i ==> !has_idle(#[trigger] rules.list@[j]),
    {
        if has_idle_cond(&rules.list[i]) {
            return true;
        }
    }
    false
}

/// The rules that depend on the clock are due: items are filed as they appear, the desktop can be
/// read, and they ran an hour ago or not yet.
pub open spec fn idle_due(rules: RuleSet, unavailable: bool, last: Option<u64>, now: u64) -> bool {
    &&& rules.keep_updated
    &&& some_idle(rules.list@)
    &&& !unavailable
    &&& last matches Some(t) ==> now - t >= IDLE_RULES_SECS
}

/// Whether the rules that depend on the clock are due. Times are in seconds.
pub fn idle_rules_due(rules: &RuleSet, unavailable: bool, last: Option<u64>, now: u64) -> (r: bool)
    ensures
        r == idle_due(*rules, unavailable, last, now),
{
    let waited: bool = match last {
        Some(t) => now >= t && now - t >= IDLE_RULES_SECS,
        None => true,
    };
    rules.keep_updated && has_idle_rules(rules) && !unavailable && waited
}

/// Turns the hiding of icons off where it kept failing. Returns whether it did.
pub fn give_up_hiding(settings: &mut Settings, gave_up: bool) -> (r: bool)
    ensures
        r == (old(settings).hide_real_icons && gave_up),
        *final(settings) == (if r {
            Settings { hide_real_icons: false, ..*old(settings) }
        } else {
            *old(settings)
        }),
{
    if settings.hide_real_icons && gave_up {
        settings.hide_real_icons = false;
        true
    } else {
        false
    }
}

// ---- the log ------------------------------------------------------------------------------

/// The name of the log: an instance with a name has one of its own.
pub open spec fn log_name(instance: Option<Seq<char>>) -> Seq<char> {
    match instance {
        Some(n) => if trimmed(n).len() > 0 {
            "pecofence."@ + trimmed(n) + ".log"@
        } else {
            "pecofence.log"@
        },
        None => "pecofence.log"@,
    }
}

/// The name of the log.
pub fn log_file_name(instance: Option<&str>) -> (r: String)
    ensures
        r@ == log_name(
            match instance {
                Some(n) => Some(n@),
                None => None,
            },
        ),
{
    if let Some(n) = instance {
        let name = trim_text(n);
        let mut chars = chars_of(name.as_str());
        if chars.len() > 0 {
            let mut out = chars_of("pecofence.");
            let mut end = chars_of(".log");
            out.append(&mut chars);
            out.append(&mut end);
            return string_of(&out);
        }
    }
    "pecofence.log".to_owned()
}

// ---- what the command line and the clock mean -----------------------------------------------

/// The value of an argument is what follows its first occurrence.
pub proof fn a_value_follows_its_name(args: Seq<String>, name: Seq<char>, i: int)
    requires
        0 <= i < args.len(),
        args[i]@ == name,
        forall|j: int| 0 <= j < i ==> (#[trigger] args[j])@ != name,
    ensures
        i + 1 < args.len() ==> arg_value(args, name) == Some(args[i + 1]@),
        i + 1 == args.len() ==> arg_value(args, name) is None,
{
    assert(arg_at(args, name, i));
    let k = choose|k: int| arg_at(args, name, k);
    assert(arg_at(args, name, k));
    if k < i {
        assert(args[k]@ != name);
    }
    if i < k {
        assert(args[i]@ != name);
    }
}

/// An argument that is not there has no value.
pub proof fn an_absent_argument_has_no_value(args: Seq<String>, name: Seq<char>)
    requires
        forall|j: int| 0 <= j < args.len() ==> (#[trigger] args[j])@ != name,
    ensures
        !has_arg(args, name),
        arg_value(args, name) is None,
{
}

/// The decimal form of a number reads as it, with or without a plus sign; a text that is too large
/// or holds anything but digits is no number.
pub proof fn numbers_are_read_in_decimal(n: nat, s: Seq<char>)
    ensures
        n <= u32::MAX ==> number_in(number_text(n)) == Some(n as u32),
        n <= u32::MAX ==> number_in("+"@ + number_text(n)) == Some(n as u32),
        n > u32::MAX ==> number_in(number_text(n)) is None,
        number_in(Seq::empty()) is None,
        (exists|i: int| 0 < i < s.len() && !('0' <= #[trigger] s[i] <= '9')) ==> number_in(s) is None,
        s.len() > 0 && s[0] != '+' && !('0' <= s[0] <= '9') ==> number_in(s) is None,
{
    numbers_read_as_they_are_written(n);
    reveal_strlit("+");
    let t = number_text(n);
    let u = "+"@ + t;
    assert('0' <= t[0] <= '9');
    assert(u.skip(1) =~= t);
    assert forall|i: int| 0 <= i < t.len() implies is_digit(#[trigger] t[i]) by {
        assert('0' <= t[i] <= '9');
    }
    assert(Seq::<char>::empty().len() == 0);
    if exists|i: int| 0 < i < s.len() && !('0' <= #[trigger] s[i] <= '9') {
        let i = choose|i: int| 0 < i < s.len() && !('0' <= #[trigger] s[i] <= '9');
        let d = digits_part(s);
        if s[0] == '+' {
            assert(d[i - 1] == s[i]);
            assert(!is_digit(d[i - 1]));
        } else {
            assert(!is_digit(d[i]));
        }
    }
    if s.len() > 0 && s[0] != '+' && !('0' <= s[0] <= '9') {
        assert(!is_digit(digits_part(s)[0]));
    }
}

/// The rules on idle days run once an hour, while rules are kept up to date, one of them has such a
/// condition and the desktop can be read.
pub proof fn idle_rules_run_once_an_hour(
    rules: RuleSet,
    unavailable: bool,
    last: Option<u64>,
    now: u64,
)
    ensures
        idle_due(rules, unavailable, last, now) <==> rules.keep_updated && !unavailable && (
        last is None || now - last->0 >= 3600) && exists|i: int, c: int|
            0 <= i < rules.list@.len() && 0 <= c < rules.list@[i].all_of@.len() && (
            #[trigger] rules.list@[i].all_of@[c]) is IdleDays,
{
    let list = rules.list@;
    if some_idle(list) {
        let i = choose|i: int| 0 <= i < list.len() && has_idle(#[trigger] list[i]);
        let c = choose|c: int|
            0 <= c < list[i].all_of@.len() && (#[trigger] list[i].all_of@[c]) is IdleDays;
        assert(list[i].all_of@[c] is IdleDays);
    }
    if exists|i: int, c: int|
        0 <= i < list.len() && 0 <= c < list[i].all_of@.len() && (#[trigger] list[i].all_of@[c]) is IdleDays {
        let (i, c) = choose|i: int, c: int|
            0 <= i < list.len() && 0 <= c < list[i].all_of@.len() && (
            #[trigger] list[i].all_of@[c]) is IdleDays;
        assert(has_idle(list[i]));
    }
}

/// The log of a named instance carries its name; that of the plain one does not.
pub proof fn logs_carry_the_name_of_their_instance(name: Seq<char>)
    ensures
        log_name(None) == "pecofence.log"@,
        trimmed(name).len() == 0 ==> log_name(Some(name)) == "pecofence.log"@,
        trimmed(name).len() > 0 ==> log_name(Some(name)) == "pecofence."@ + trimmed(name) + ".log"@,
{
}

/// Each switch of the command line asks for its own thing, and a light look goes before a dark one.
pub proof fn switches_ask_for_their_own_thing(args: &Vec<String>, r: Args, look: Option<Look>)
    requires
        call_ensures(parse_args, (args,), r),
        call_ensures(Args::look, (&r,), look),
    ensures
        r.portable <==> has_arg(args@, "--portable"@),
        r.no_hide_icons <==> has_arg(args@, "--no-hide-icons"@),
        r.open_settings <==> has_arg(args@, "--open-settings"@),
        has_arg(args@, "--light"@) ==> look == Some(Look::Light),
        !has_arg(args@, "--light"@) && has_arg(args@, "--dark"@) ==> look == Some(Look::Dark),
        !has_arg(args@, "--light"@) && !has_arg(args@, "--dark"@) ==> look is None,
        text_of(r.portal) == arg_value(args@, "--portal"@),
        text_of(r.wallpaper_override) == arg_value(args@, "--wallpaper"@),
{
}

} // verus!
