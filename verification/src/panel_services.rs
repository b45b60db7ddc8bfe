//! What the host offers panels: the theme, storage, navigation and the way to the project service.

use crate::dip::Dip;
use crate::plugin_api::{
    is_invalid, is_live, Error, ExternalTarget, LeaseState, ScopeHandle, ScopeId, Token,
    VersionedValue,
};
use crate::startup::Look;
use crate::text::{begins_with, chars_begin_with, chars_of};
use crate::transport::RouteEntry;
use vstd::prelude::*;

verus! {

// ---- the theme ----------------------------------------------------------------------------

/// A colour: red, green, blue and how opaque it is, from 0 to 1 each.
#[derive(Clone, Copy, Debug, PartialEq, Eq, Structural)]
pub struct Rgba {
    pub r: Dip,
    pub g: Dip,
    pub b: Dip,
    pub a: Dip,
}

/// The colours that panels use, by what they are for.
#[derive(Clone, Copy, Debug, PartialEq, Eq, Structural)]
pub struct ThemeTokens {
    pub high_contrast: bool,
    pub text_primary: Rgba,
    pub text_secondary: Rgba,
    pub surface_panel: Rgba,
    pub surface_subtle: Rgba,
    pub stroke: Rgba,
    pub accent: Rgba,
    pub danger: Rgba,
    pub warning: Rgba,
    pub success: Rgba,
    pub unknown: Rgba,
    pub info: Rgba,
}

/// The colours, and the number under which they were published.
#[derive(Clone, Copy, Debug, PartialEq, Eq, Structural)]
pub struct ThemeSnapshot {
    pub revision: u64,
    pub tokens: ThemeTokens,
}

pub open spec fn rgba_eq(x: Rgba, y: Rgba) -> bool {
    x.r.equals(y.r) && x.g.equals(y.g) && x.b.equals(y.b) && x.a.equals(y.a)
}

/// The two palettes have the same colours.
pub open spec fn tokens_eq(x: ThemeTokens, y: ThemeTokens) -> bool {
    &&& x.high_contrast == y.high_contrast
    &&& rgba_eq(x.text_primary, y.text_primary)
    &&& rgba_eq(x.text_secondary, y.text_secondary)
    &&& rgba_eq(x.surface_panel, y.surface_panel)
    &&& rgba_eq(x.surface_subtle, y.surface_subtle)
    &&& rgba_eq(x.stroke, y.stroke)
    &&& rgba_eq(x.accent, y.accent)
    &&& rgba_eq(x.danger, y.danger)
    &&& rgba_eq(x.warning, y.warning)
    &&& rgba_eq(x.success, y.success)
    &&& rgba_eq(x.unknown, y.unknown)
    &&& rgba_eq(x.info, y.info)
}

fn same_rgba(x: &Rgba, y: &Rgba) -> (r: bool)
    ensures
        r == rgba_eq(*x, *y),
{
    x.r.same(y.r) && x.g.same(y.g) && x.b.same(y.b) && x.a.same(y.a)
}

/// Whether two palettes have the same colours.
pub fn same_tokens(x: &ThemeTokens, y: &ThemeTokens) -> (r: bool)
    ensures
        r == tokens_eq(*x, *y),
{
    x.high_contrast == y.high_contrast
        && same_rgba(&x.text_primary, &y.text_primary)
        && same_rgba(&x.text_secondary, &y.text_secondary)
        && same_rgba(&x.surface_panel, &y.surface_panel)
        && same_rgba(&x.surface_subtle, &y.surface_subtle)
        && same_rgba(&x.stroke, &y.stroke)
        && same_rgba(&x.accent, &y.accent)
        && same_rgba(&x.danger, &y.danger)
        && same_rgba(&x.warning, &y.warning)
        && same_rgba(&x.success, &y.success)
        && same_rgba(&x.unknown, &y.unknown)
        && same_rgba(&x.info, &y.info)
}

pub open spec fn rgba(r: u32, g: u32, b: u32, a: u32) -> Rgba {
    Rgba { r: Dip { bits: r }, g: Dip { bits: g }, b: Dip { bits: b }, a: Dip { bits: a } }
}

fn make_rgba(r: u32, g: u32, b: u32, a: u32) -> (out: Rgba)
    ensures
        out == rgba(r, g, b, a),
{
    Rgba { r: Dip { bits: r }, g: Dip { bits: g }, b: Dip { bits: b }, a: Dip { bits: a } }
}

/// The palette of a look.
pub open spec fn palette(look: Look) -> ThemeTokens {
    match look {
        Look::Dark => ThemeTokens {
            high_contrast: false,
            text_primary: rgba(0x3F72_F1AA, 0x3F76_0419, 0x3F7A_E148, 0x3F80_0000),
            text_secondary: rgba(0x3F39_999A, 0x3F45_E354, 0x3F56_C8B4, 0x3F80_0000),
            surface_panel: rgba(0x3E00_0000, 0x3E18_9375, 0x3E40_8312, 0x3F80_0000),
            surface_subtle: rgba(0x3E28_F5C3, 0x3E4C_CCCD, 0x3E80_8312, 0x3F80_0000),
            stroke: rgba(0x3E48_B439, 0x3E88_B439, 0x3EA0_C49C, 0x3F80_0000),
            accent: rgba(0x3F0B_851F, 0x3F43_D70A, 0x3F80_0000, 0x3F80_0000),
            danger: rgba(0x3F79_1687, 0x3EE2_D0E5, 0x3EE2_D0E5, 0x3F80_0000),
            warning: rgba(0x3F7B_E76D, 0x3F12_B021, 0x3E70_A3D7, 0x3F80_0000),
            success: rgba(0x3E94_7AE1, 0x3F5E_F9DB, 0x3F08_72B0, 0x3F80_0000),
            unknown: rgba(0x3F39_999A, 0x3F45_E354, 0x3F56_C8B4, 0x3F80_0000),
            info: rgba(0x3F0B_851F, 0x3F43_D70A, 0x3F80_0000, 0x3F80_0000),
        },
        Look::Light => ThemeTokens {
            high_contrast: false,
            text_primary: rgba(0x3D71_A9FC, 0x3DB8_51EC, 0x3E08_3127, 0x3F80_0000),
            text_secondary: rgba(0x3E8E_5604, 0x3EAA_7EFA, 0x3ED2_F1AA, 0x3F80_0000),
            surface_panel: rgba(0x3F74_FDF4, 0x3F78_1062, 0x3F79_1687, 0x3F80_0000),
            surface_subtle: rgba(0x3F61_CAC1, 0x3F67_EF9E, 0x3F6C_0831, 0x3F80_0000),
            stroke: rgba(0x3F47_AE14, 0x3F56_C8B4, 0x3F5E_F9DB, 0x3F80_0000),
            accent: rgba(0x0000_0000, 0x3EBE_F9DB, 0x3F38_D4FE, 0x3F80_0000),
            danger: rgba(0x3F5C_ED91, 0x3E17_8D50, 0x3E17_8D50, 0x3F80_0000),
            warning: rgba(0x3F6B_020C, 0x3EB0_A3D7, 0x3D30_20C5, 0x3F80_0000),
            success: rgba(0x3DB0_20C5, 0x3F23_9581, 0x3E94_7AE1, 0x3F80_0000),
            unknown: rgba(0x3EC8_B439, 0x3EE8_F5C3, 0x3F0B_851F, 0x3F80_0000),
            info: rgba(0x0000_0000, 0x3EBE_F9DB, 0x3F38_D4FE, 0x3F80_0000),
        },
    }
}

/// The palette of a look, under a number.
pub fn theme_snapshot_for(look: Look, revision: u64) -> (r: ThemeSnapshot)
    ensures
        r == (ThemeSnapshot { revision, tokens: palette(look) }),
{
    let tokens = match look {
        Look::Dark => ThemeTokens {
            high_contrast: false,
            text_primary: make_rgba(0x3F72_F1AA, 0x3F76_0419, 0x3F7A_E148, 0x3F80_0000),
            text_secondary: make_rgba(0x3F39_999A, 0x3F45_E354, 0x3F56_C8B4, 0x3F80_0000),
            surface_panel: make_rgba(0x3E00_0000, 0x3E18_9375, 0x3E40_8312, 0x3F80_0000),
            surface_subtle: make_rgba(0x3E28_F5C3, 0x3E4C_CCCD, 0x3E80_8312, 0x3F80_0000),
            stroke: make_rgba(0x3E48_B439, 0x3E88_B439, 0x3EA0_C49C, 0x3F80_0000),
            accent: make_rgba(0x3F0B_851F, 0x3F43_D70A, 0x3F80_0000, 0x3F80_0000),
            danger: make_rgba(0x3F79_1687, 0x3EE2_D0E5, 0x3EE2_D0E5, 0x3F80_0000),
            warning: make_rgba(0x3F7B_E76D, 0x3F12_B021, 0x3E70_A3D7, 0x3F80_0000),
            success: make_rgba(0x3E94_7AE1, 0x3F5E_F9DB, 0x3F08_72B0, 0x3F80_0000),
            unknown: make_rgba(0x3F39_999A, 0x3F45_E354, 0x3F56_C8B4, 0x3F80_0000),
            info: make_rgba(0x3F0B_851F, 0x3F43_D70A, 0x3F80_0000, 0x3F80_0000),
        },
        Look::Light => ThemeTokens {
            high_contrast: false,
            text_primary: make_rgba(0x3D71_A9FC, 0x3DB8_51EC, 0x3E08_3127, 0x3F80_0000),
            text_secondary: make_rgba(0x3E8E_5604, 0x3EAA_7EFA, 0x3ED2_F1AA, 0x3F80_0000),
            surface_panel: make_rgba(0x3F74_FDF4, 0x3F78_1062, 0x3F79_1687, 0x3F80_0000),
            surface_subtle: make_rgba(0x3F61_CAC1, 0x3F67_EF9E, 0x3F6C_0831, 0x3F80_0000),
            stroke: make_rgba(0x3F47_AE14, 0x3F56_C8B4, 0x3F5E_F9DB, 0x3F80_0000),
            accent: make_rgba(0x0000_0000, 0x3EBE_F9DB, 0x3F38_D4FE, 0x3F80_0000),
            danger: make_rgba(0x3F5C_ED91, 0x3E17_8D50, 0x3E17_8D50, 0x3F80_0000),
            warning: make_rgba(0x3F6B_020C, 0x3EB0_A3D7, 0x3D30_20C5, 0x3F80_0000),
            success: make_rgba(0x3DB0_20C5, 0x3F23_9581, 0x3E94_7AE1, 0x3F80_0000),
            unknown: make_rgba(0x3EC8_B439, 0x3EE8_F5C3, 0x3F0B_851F, 0x3F80_0000),
            info: make_rgba(0x0000_0000, 0x3EBE_F9DB, 0x3F38_D4FE, 0x3F80_0000),
        },
    };
    ThemeSnapshot { revision, tokens }
}

/// The theme that panels see. Its number grows only when a colour changes.
#[derive(Clone, Copy, Debug, PartialEq, Eq, Structural)]
pub struct ThemeHost {
    pub epoch: u64,
    pub current: ThemeSnapshot,
}

/// The host once it was brought in line with a look.
pub open spec fn synced(h: ThemeHost, look: Look) -> ThemeHost {
    if tokens_eq(h.current.tokens, palette(look)) {
        h
    } else {
        let next = (h.epoch + 1) as u64;
        ThemeHost { epoch: next, current: ThemeSnapshot { revision: next, tokens: palette(look) } }
    }
}

impl ThemeHost {
    pub fn new() -> (r: Self)
        ensures
            r == (ThemeHost {
                epoch: 1,
                current: ThemeSnapshot { revision: 1, tokens: palette(Look::Dark) },
            }),
    {
        ThemeHost { epoch: 1, current: theme_snapshot_for(Look::Dark, 1) }
    }

    pub fn epoch(&self) -> (r: u64)
        ensures
            r == self.epoch,
    {
        self.epoch
    }

    pub fn snapshot(&self) -> (r: ThemeSnapshot)
        ensures
            r == self.current,
    {
        self.current
    }

    /// Brings the theme in line with a look. Nothing happens where the colours are the same.
    pub fn sync(&mut self, look: Look)
        requires
            old(self).epoch < u64::MAX,
        ensures
            *final(self) == synced(*old(self), look),
    {
        let candidate = theme_snapshot_for(look, 0);
        if !same_tokens(&self.current.tokens, &candidate.tokens) {
            let revision: u64 = self.epoch + 1;
            self.epoch = revision;
            self.current = ThemeSnapshot { revision, tokens: candidate.tokens };
        }
    }
}

/// Bringing the theme in line with the same look again changes nothing, and another look always
/// gets another number.
pub proof fn only_a_change_of_look_is_published(h: ThemeHost, look: Look, other: Look)
    requires
        h.epoch < u64::MAX - 1,
        look != other,
    ensures
        synced(synced(h, look), look) == synced(h, look),
        synced(synced(h, look), other).epoch == synced(h, look).epoch + 1,
        synced(synced(h, look), other).current.revision == synced(h, look).epoch + 1,
{
    assert(tokens_eq(palette(look), palette(look)));
    let next = synced(h, look);
    assert(rgba_eq(next.current.tokens.accent, palette(look).accent));
    assert(!rgba_eq(palette(look).accent, palette(other).accent));
}

// ---- storage ------------------------------------------------------------------------------

/// Values in memory, by key.
pub struct MemoryStorage {
    values: Vec<(String, VersionedValue)>,
    next: u64,
}

/// The model of a value.
#[verifier::ext_equal]
pub struct Stored {
    pub revision: u64,
    pub bytes: Seq<u8>,
}

pub open spec fn stored_at(vs: Seq<(Seq<char>, Stored)>, key: Seq<char>, i: int) -> bool {
    0 <= i < vs.len() && vs[i].0 == key
}

pub open spec fn is_stored(vs: Seq<(Seq<char>, Stored)>, key: Seq<char>) -> bool {
    exists|i: int| stored_at(vs, key, i)
}

/// The revision of a value; none where there is none.
pub open spec fn revision_of(vs: Seq<(Seq<char>, Stored)>, key: Seq<char>) -> Option<u64> {
    if is_stored(vs, key) {
        Some(vs[choose|i: int| stored_at(vs, key, i)].1.revision)
    } else {
        None
    }
}

/// No key is there twice.
pub open spec fn keys_ok(vs: Seq<(Seq<char>, Stored)>) -> bool {
    forall|i: int, j: int|
        0 <= i < vs.len() && 0 <= j < vs.len() && (#[trigger] vs[i]).0 == (#[trigger] vs[j]).0
            ==> i == j
}

/// The values once one was written.
pub open spec fn written(vs: Seq<(Seq<char>, Stored)>, key: Seq<char>, v: Stored) -> Seq<
    (Seq<char>, Stored),
> {
    if is_stored(vs, key) {
        Seq::new(
            vs.len(),
            |i: int|
                if vs[i].0 == key {
                    (key, v)
                } else {
                    vs[i]
                },
        )
    } else {
        vs.push((key, v))
    }
}

/// The revision that the next write of a value gets.
pub open spec fn next_revision(current: Option<u64>) -> int {
    match current {
        Some(n) => n + 1,
        None => 1,
    }
}

proof fn lemma_stored(vs: Seq<(Seq<char>, Stored)>, key: Seq<char>, i: int)
    requires
        keys_ok(vs),
        stored_at(vs, key, i),
    ensures
        is_stored(vs, key),
        revision_of(vs, key) == Some(vs[i].1.revision),
        forall|j: int| 0 <= j < vs.len() && (#[trigger] vs[j]).0 == key ==> j == i,
{
    let k = choose|k: int| stored_at(vs, key, k);
    assert(stored_at(vs, key, k));
    assert(vs[k].0 == vs[i].0);
    assert forall|j: int| 0 <= j < vs.len() && (#[trigger] vs[j]).0 == key implies j == i by {
        assert(vs[j].0 == vs[i].0);
    }
}

impl MemoryStorage {
    /// The values, in the order in which their keys came.
    pub closed spec fn stored(&self) -> Seq<(Seq<char>, Stored)> {
        Seq::new(
            self.values.len() as nat,
            |i: int|
                (
                    self.values@[i].0@,
                    Stored {
                        revision: self.values@[i].1.revision,
                        bytes: self.values@[i].1.bytes@,
                    },
                ),
        )
    }

    /// How many tokens were given out.
    pub closed spec fn given(&self) -> u64 {
        self.next
    }

    pub fn new() -> (r: Self)
        ensures
            r.stored() == Seq::<(Seq<char>, Stored)>::empty(),
            r.given() == 0,
    {
        let r = MemoryStorage { values: Vec::new(), next: 0 };
        assert(r.stored() =~= Seq::<(Seq<char>, Stored)>::empty());
        r
    }

    fn token(&mut self) -> (r: Result<Token, Error>)
        ensures
            final(self).stored() == old(self).stored(),
            old(self).given() < u64::MAX ==> final(self).given() == old(self).given() + 1 && r
                == Ok::<Token, Error>(Token(final(self).given())),
            old(self).given() == u64::MAX ==> final(self).given() == old(self).given() && r
                == Err::<Token, Error>(Error::Exhausted),
    {
        if self.next == u64::MAX {
            return Err(Error::Exhausted);
        }
        self.next = self.next + 1;
        assert(self.stored() =~= old(self).stored());
        Ok(Token(self.next))
    }

    fn find(&self, key: &str) -> (r: Option<usize>)
        ensures
            match r {
                Some(i) => stored_at(self.stored(), key@, i as int),
                None => !is_stored(self.stored(), key@),
            },
    {
        let wanted = key.to_owned();
        let n: usize = self.values.len();
        for i in 0..n
            invariant
                n == self.values.len(),
                wanted@ == key@,
                forall|j: int| 0 <= j < i ==> !#[trigger] stored_at(self.stored(), key@, j),
        {
            if self.values[i].0 == wanted {
                return Some(i);
            }
        }
        None
    }

    /// Asks for a value. Refused where the scope is closed.
    pub fn read(&mut self, scope: ScopeHandle, now: Option<LeaseState>) -> (r: Result<Token, Error>)
        ensures
            final(self).stored() == old(self).stored(),
            r == if !is_live(scope, now) {
                Err::<Token, Error>(Error::Closed)
            } else if old(self).given() == u64::MAX {
                Err(Error::Exhausted)
            } else {
                Ok(Token((old(self).given() + 1) as u64))
            },
            final(self).given() == if r is Ok {
                (old(self).given() + 1) as u64
            } else {
                old(self).given()
            },
    {
        match scope.check(now) {
            Ok(_) => self.token(),
            Err(e) => Err(e),
        }
    }

    /// Writes a value, provided that its revision is the expected one. Refused where the scope is
    /// closed, or the value was written meanwhile.
    pub fn compare_and_set(
        &mut self,
        scope: ScopeHandle,
        now: Option<LeaseState>,
        key: &str,
        expected: Option<u64>,
        bytes: Vec<u8>,
    ) -> (r: Result<Token, Error>)
        requires
            keys_ok(old(self).stored()),
        ensures
            keys_ok(final(self).stored()),
            ({
                let vs = old(self).stored();
                let current = revision_of(vs, key@);
                let fits = current == expected && next_revision(current) <= u64::MAX;
                if !is_live(scope, now) {
                    r == Err::<Token, Error>(Error::Closed) && final(self).stored() == vs
                } else if current != expected {
                    r == Err::<Token, Error>(Error::Revoked) && final(self).stored() == vs
                } else if !fits {
                    r == Err::<Token, Error>(Error::Exhausted) && final(self).stored() == vs
                } else {
                    &&& final(self).stored() == written(
                        vs,
                        key@,
                        Stored { revision: next_revision(current) as u64, bytes: bytes@ },
                    )
                    &&& r == if old(self).given() == u64::MAX {
                        Err::<Token, Error>(Error::Exhausted)
                    } else {
                        Ok(Token((old(self).given() + 1) as u64))
                    }
                }
            }),
            final(self).given() == if r is Ok {
                (old(self).given() + 1) as u64
            } else {
                old(self).given()
            },
    {
        match scope.check(now) {
            Ok(_) => {},
            Err(e) => {
                return Err(e);
            },
        }
        let ghost vs = self.stored();
        let at = self.find(key);
        let current: Option<u64> = match at {
            Some(i) => {
                proof {
                    lemma_stored(vs, key@, i as int);
                }
                Some(self.values[i].1.revision)
            },
            None => None,
        };
        let same: bool = match (current, expected) {
            (Some(a), Some(b)) => a == b,
            (None, None) => true,
            _ => false,
        };
        if !same {
            return Err(Error::Revoked);
        }
        let old_revision: u64 = match current {
            Some(n) => n,
            None => 0,
        };
        if old_revision == u64::MAX {
            return Err(Error::Exhausted);
        }
        let value = VersionedValue { revision: old_revision + 1, bytes };
        let ghost v = Stored { revision: (old_revision + 1) as u64, bytes: bytes@ };
        match at {
            Some(i) => {
                self.values[i].1 = value;
                assert(self.stored() =~= written(vs, key@, v));
            },
            None => {
                self.values.push((key.to_owned(), value));
                assert(self.stored() =~= written(vs, key@, v));
            },
        }
        proof {
            let ws = self.stored();
            assert forall|i: int, j: int|
                0 <= i < ws.len() && 0 <= j < ws.len() && (#[trigger] ws[i]).0 == (
                #[trigger] ws[j]).0 implies i == j by {
                if i < vs.len() && j < vs.len() {
                    assert(vs[i].0 == vs[j].0);
                }
                if i < vs.len() && j == vs.len() {
                    assert(stored_at(vs, key@, i));
                }
                if j < vs.len() && i == vs.len() {
                    assert(stored_at(vs, key@, j));
                }
            }
        }
        self.token()
    }
}

/// A write is seen by the next one: the same expectation does not hold twice, so no write is lost.
pub proof fn an_expectation_holds_once(
    vs: Seq<(Seq<char>, Stored)>,
    key: Seq<char>,
    v: Stored,
    expected: Option<u64>,
)
    requires
        keys_ok(vs),
        revision_of(vs, key) == expected,
        v.revision == next_revision(expected),
    ensures
        revision_of(written(vs, key, v), key) == Some(v.revision),
        revision_of(written(vs, key, v), key) != expected,
        forall|other: Seq<char>|
            other != key ==> #[trigger] revision_of(written(vs, key, v), other) == revision_of(
                vs,
                other,
            ),
{
    let ws = written(vs, key, v);
    assert forall|i: int, j: int|
        0 <= i < ws.len() && 0 <= j < ws.len() && (#[trigger] ws[i]).0 == (
        #[trigger] ws[j]).0 implies i == j by {
        if i < vs.len() && j < vs.len() {
            assert(vs[i].0 == vs[j].0);
        }
        if i < vs.len() && j == vs.len() {
            assert(stored_at(vs, key, i));
        }
        if j < vs.len() && i == vs.len() {
            assert(stored_at(vs, key, j));
        }
    }
    if is_stored(vs, key) {
        let i = choose|i: int| stored_at(vs, key, i);
        assert(stored_at(ws, key, i));
        lemma_stored(ws, key, i);
    } else {
        assert(stored_at(ws, key, vs.len() as int));
        lemma_stored(ws, key, vs.len() as int);
    }
    assert forall|other: Seq<char>| other != key implies #[trigger] revision_of(ws, other)
        == revision_of(vs, other) by {
        if is_stored(vs, other) {
            let i = choose|i: int| stored_at(vs, other, i);
            assert(stored_at(ws, other, i));
            lemma_stored(ws, other, i);
            lemma_stored(vs, other, i);
        }
        if is_stored(ws, other) {
            let i = choose|i: int| stored_at(ws, other, i);
            assert(stored_at(vs, other, i));
        }
    }
}

// ---- navigation ---------------------------------------------------------------------------

/// Whether a panel may lead to a target: its scope is open, and the address begins with
/// `https://`.
pub fn check_navigation(scope: ScopeHandle, now: Option<LeaseState>, target: &ExternalTarget) -> (r: Result<
    (),
    Error,
>)
    ensures
        !is_live(scope, now) ==> r == Err::<(), Error>(Error::Closed),
        is_live(scope, now) && begins_with(target.https_uri@, "https://"@) ==> r is Ok,
        is_live(scope, now) && !begins_with(target.https_uri@, "https://"@) ==> (r matches Err(e)
            && is_invalid(e, "only HTTPS navigation is allowed"@)),
{
    match scope.check(now) {
        Ok(_) => {},
        Err(e) => {
            return Err(e);
        },
    }
    let uri = chars_of(target.https_uri.as_str());
    let wanted = chars_of("https://");
    if chars_begin_with(&uri, &wanted) {
        Ok(())
    } else {
        Err(Error::Invalid("only HTTPS navigation is allowed".to_owned()))
    }
}

// ---- the way to the project service -------------------------------------------------------

/// How many events wait at most; the oldest goes first.
pub const EVENT_QUEUE: usize = 128;

/// The one endpoint that panels may ask.
pub open spec fn is_read_model(endpoint: Seq<char>) -> bool {
    endpoint == "spm.v2/read-model"@
}

/// An event for a panel.
#[derive(Debug, PartialEq, Eq)]
pub struct PipeEvent {
    pub to: RouteEntry,
    pub bytes: Vec<u8>,
}

/// A subscription of a panel.
#[derive(Clone, Copy, Debug, PartialEq, Eq, Structural)]
pub struct PipeCommand {
    pub token: Token,
    pub owner: ScopeId,
    pub generation: u64,
}

/// The subscriptions of panels, and the events that wait for them.
pub struct PipeState {
    pub next: u64,
    pub events: Vec<PipeEvent>,
    pub commands: Vec<PipeCommand>,
}

/// The subscriptions without one.
pub open spec fn commands_without(cs: Seq<PipeCommand>, token: Token) -> Seq<PipeCommand>
    decreases cs.len(),
{
    if cs.len() == 0 {
        cs
    } else if cs.last().token == token {
        commands_without(cs.drop_last(), token)
    } else {
        commands_without(cs.drop_last(), token).push(cs.last())
    }
}

pub open spec fn has_command(cs: Seq<PipeCommand>, token: Token) -> bool {
    exists|i: int| 0 <= i < cs.len() && (#[trigger] cs[i]).token == token
}

/// The tokens of a scope's subscriptions, in order.
pub open spec fn tokens_of(cs: Seq<PipeCommand>, owner: ScopeId, generation: u64) -> Seq<Token>
    decreases cs.len(),
{
    if cs.len() == 0 {
        Seq::empty()
    } else if cs.last().owner == owner && cs.last().generation == generation {
        tokens_of(cs.drop_last(), owner, generation).push(cs.last().token)
    } else {
        tokens_of(cs.drop_last(), owner, generation)
    }
}

impl PipeState {
    pub fn new() -> (r: Self)
        ensures
            r.next == 1,
            r.events@ == Seq::<PipeEvent>::empty(),
            r.commands@ == Seq::<PipeCommand>::empty(),
    {
        PipeState { next: 1, events: Vec::new(), commands: Vec::new() }
    }

    fn token(&mut self) -> (r: Result<Token, Error>)
        ensures
            final(self).events@ == old(self).events@,
            final(self).commands@ == old(self).commands@,
            old(self).next < u64::MAX ==> r == Ok::<Token, Error>(Token(old(self).next))
                && final(self).next == old(self).next + 1,
            old(self).next == u64::MAX ==> r == Err::<Token, Error>(Error::Exhausted)
                && final(self).next == old(self).next,
    {
        if self.next == u64::MAX {
            return Err(Error::Exhausted);
        }
        let t = Token(self.next);
        self.next = self.next + 1;
        Ok(t)
    }

    /// Adds an event. Where too many wait, the oldest is dropped.
    pub fn publish(&mut self, event: PipeEvent)
        ensures
            final(self).next == old(self).next,
            final(self).commands@ == old(self).commands@,
            final(self).events@ == (if old(self).events.len() == EVENT_QUEUE {
                old(self).events@.skip(1)
            } else {
                old(self).events@
            }).push(event),
            old(self).events.len() <= EVENT_QUEUE ==> final(self).events.len() <= EVENT_QUEUE,
    {
        if self.events.len() == EVENT_QUEUE {
            self.events.remove(0);
            assert(self.events@ =~= old(self).events@.skip(1));
        }
        self.events.push(event);
    }

    /// Takes every event that waits.
    pub fn take_events(&mut self) -> (r: Vec<PipeEvent>)
        ensures
            r@ == old(self).events@,
            final(self).events@ == Seq::<PipeEvent>::empty(),
            final(self).next == old(self).next,
            final(self).commands@ == old(self).commands@,
    {
        let mut out: Vec<PipeEvent> = Vec::new();
        std::mem::swap(&mut out, &mut self.events);
        out
    }

    /// Begins a subscription. Refused where the scope is closed, or the endpoint is another one.
    pub fn begin_subscribe(&mut self, scope: ScopeHandle, now: Option<LeaseState>, endpoint: &str) -> (r: Result<
        PipeCommand,
        Error,
    >)
        ensures
            final(self).events@ == old(self).events@,
            final(self).commands@ == old(self).commands@,
            match r {
                Ok(c) => {
                    &&& is_live(scope, now)
                    &&& c == (PipeCommand {
                        token: Token(old(self).next),
                        owner: scope.id,
                        generation: scope.generation,
                    })
                    &&& is_read_model(endpoint@)
                    &&& final(self).next == old(self).next + 1
                },
                Err(e) => {
                    &&& final(self).next == old(self).next
                    &&& if !is_live(scope, now) {
                        e == Error::Closed
                    } else if !is_read_model(endpoint@) {
                        is_invalid(e, "unsupported local endpoint"@)
                    } else {
                        e == Error::Exhausted && old(self).next == u64::MAX
                    }
                },
            },
    {
        let owner: ScopeId = match scope.check(now) {
            Ok(id) => id,
            Err(e) => {
                return Err(e);
            },
        };
        let generation: u64 = match scope.generation(now) {
            Ok(g) => g,
            Err(e) => {
                return Err(e);
            },
        };
        let wanted = "spm.v2/read-model".to_owned();
        let given = endpoint.to_owned();
        if given != wanted {
            return Err(Error::Invalid("unsupported local endpoint".to_owned()));
        }
        match self.token() {
            Ok(token) => Ok(PipeCommand { token, owner, generation }),
            Err(e) => Err(e),
        }
    }

    /// The subscription was handed on.
    pub fn end_subscribe(&mut self, command: PipeCommand)
        ensures
            final(self).commands@ == old(self).commands@.push(command),
            final(self).next == old(self).next,
            final(self).events@ == old(self).events@,
    {
        self.commands.push(command);
    }

    /// The subscriptions through which a scope sends something. Refused where the scope is closed
    /// or has none.
    pub fn senders(&self, scope: ScopeHandle, now: Option<LeaseState>) -> (r: Result<
        Vec<Token>,
        Error,
    >)
        ensures
            match r {
                Ok(ts) => is_live(scope, now) && ts@ == tokens_of(
                    self.commands@,
                    scope.id,
                    scope.generation,
                ) && ts.len() > 0,
                Err(e) => if !is_live(scope, now) {
                    e == Error::Closed
                } else {
                    e == Error::Revoked && tokens_of(
                        self.commands@,
                        scope.id,
                        scope.generation,
                    ).len() == 0
                },
            },
    {
        let owner: ScopeId = match scope.check(now) {
            Ok(id) => id,
            Err(e) => {
                return Err(e);
            },
        };
        let generation: u64 = match scope.generation(now) {
            Ok(g) => g,
            Err(e) => {
                return Err(e);
            },
        };
        let mut out: Vec<Token> = Vec::new();
        let n: usize = self.commands.len();
        let ghost cs = self.commands@;
        for i in 0..n
            invariant
                n == self.commands.len(),
                cs == self.commands@,
                out@ == tokens_of(cs.take(i as int), owner, generation),
        {
            assert(cs.take(i + 1).drop_last() =~= cs.take(i as int));
            if self.commands[i].owner == owner && self.commands[i].generation == generation {
                out.push(self.commands[i].token);
            }
        }
        assert(cs.take(n as int) =~= cs);
        if out.len() == 0 {
            return Err(Error::Revoked);
        }
        Ok(out)
    }

    /// A token for something that was sent.
    pub fn sent(&mut self) -> (r: Result<Token, Error>)
        ensures
            final(self).events@ == old(self).events@,
            final(self).commands@ == old(self).commands@,
            r is Ok <==> old(self).next < u64::MAX,
            r matches Ok(t) ==> t.0 == old(self).next && final(self).next == old(self).next + 1,
            r matches Err(e) ==> e == Error::Exhausted && final(self).next == old(self).next,
    {
        self.token()
    }

    /// Ends a subscription. Refused where there is none.
    pub fn cancel(&mut self, token: Token) -> (r: Result<(), Error>)
        ensures
            final(self).next == old(self).next,
            final(self).events@ == old(self).events@,
            final(self).commands@ == commands_without(old(self).commands@, token),
            r == if has_command(old(self).commands@, token) {
                Ok::<(), Error>(())
            } else {
                Err(Error::Revoked)
            },
    {
        let ghost cs = self.commands@;
        let mut out: Vec<PipeCommand> = Vec::new();
        let mut found = false;
        let n: usize = self.commands.len();
        for i in 0..n
            invariant
                n == self.commands.len(),
                cs == self.commands@,
                self.next == old(self).next,
                self.events@ == old(self).events@,
                out@ == commands_without(cs.take(i as int), token),
                found == exists|j: int| 0 <= j < i && (#[trigger] cs[j]).token == token,
        {
            assert(cs.take(i + 1).drop_last() =~= cs.take(i as int));
            if self.commands[i].token == token {
                found = true;
                assert(cs[i as int].token == token);
            } else {
                out.push(self.commands[i]);
            }
        }
        assert(cs.take(n as int) =~= cs);
        self.commands = out;
        if found {
            Ok(())
        } else {
            Err(Error::Revoked)
        }
    }
}

/// A command that has ended is struck off, and no other.
pub proof fn the_other_commands_stay(cs: Seq<PipeCommand>, token: Token)
    ensures
        commands_without(cs, token) == cs.filter(|c: PipeCommand| c.token != token),
    decreases cs.len(),
{
    reveal(Seq::filter);
    if cs.len() > 0 {
        the_other_commands_stay(cs.drop_last(), token);
    }
}

/// The commands of a scope are those with its number and generation, in their order.
pub proof fn commands_belong_to_their_scope(cs: Seq<PipeCommand>, owner: ScopeId, generation: u64)
    ensures
        tokens_of(cs, owner, generation) == cs.filter(
            |c: PipeCommand| c.owner == owner && c.generation == generation,
        ).map_values(|c: PipeCommand| c.token),
    decreases cs.len(),
{
    reveal(Seq::filter);
    let p = |c: PipeCommand| c.owner == owner && c.generation == generation;
    let g = |c: PipeCommand| c.token;
    if cs.len() > 0 {
        commands_belong_to_their_scope(cs.drop_last(), owner, generation);
        let front = cs.drop_last().filter(p);
        assert(front.push(cs.last()).map_values(g) =~= front.map_values(g).push(g(cs.last())));
    }
}

/// What is written under a key is what is read there, once and with its revision; the values of
/// the other keys stay.
pub proof fn a_written_value_is_read_back(
    vs: Seq<(Seq<char>, Stored)>,
    key: Seq<char>,
    v: Stored,
    other: (Seq<char>, Stored),
)
    requires
        keys_ok(vs),
        other.0 != key,
    ensures
        written(vs, key, v).contains((key, v)),
        keys_ok(written(vs, key, v)),
        forall|w: Stored| #[trigger] written(vs, key, v).contains((key, w)) ==> w == v,
        vs.contains(other) ==> written(vs, key, v).contains(other),
        written(vs, key, v).contains(other) ==> vs.contains(other),
{
    let ws = written(vs, key, v);
    if is_stored(vs, key) {
        let i = choose|i: int| stored_at(vs, key, i);
        assert(ws[i] == (key, v));
        assert forall|a: int, b: int|
            0 <= a < ws.len() && 0 <= b < ws.len() && (#[trigger] ws[a]).0 == (
            #[trigger] ws[b]).0 implies a == b by {
            assert(vs[a].0 == ws[a].0 && vs[b].0 == ws[b].0);
        }
    } else {
        assert(ws[vs.len() as int] == (key, v));
        assert forall|a: int, b: int|
            0 <= a < ws.len() && 0 <= b < ws.len() && (#[trigger] ws[a]).0 == (
            #[trigger] ws[b]).0 implies a == b by {
            if a < vs.len() && b < vs.len() {
                assert(vs[a].0 == vs[b].0);
            } else if a < vs.len() && ws[a].0 == key {
                assert(stored_at(vs, key, a));
            } else if b < vs.len() && ws[b].0 == key {
                assert(stored_at(vs, key, b));
            }
        }
    }
    if vs.contains(other) {
        assert(ws[vs.index_of(other)] == other);
    }
    if ws.contains(other) {
        assert(vs[ws.index_of(other)] == other);
    }
    assert forall|w: Stored| #[trigger] ws.contains((key, w)) implies w == v by {
        let a = ws.index_of((key, w));
        let b = ws.index_of((key, v));
        assert(ws[a].0 == ws[b].0);
    }
}

/// The first revision of a value is one, and each write gives the next.
pub proof fn revisions_count_from_one(n: u64)
    ensures
        next_revision(None) == 1,
        next_revision(Some(n)) == n + 1,
{
}

/// A value is written only by one who knows its present revision, once for each revision, and only
/// while their scope is open.
pub proof fn only_the_present_revision_can_be_replaced(
    m: &mut MemoryStorage,
    scope: ScopeHandle,
    now: Option<LeaseState>,
    key: &str,
    expected: Option<u64>,
    bytes: Vec<u8>,
    r: Result<Token, Error>,
)
    requires
        call_ensures(MemoryStorage::compare_and_set, (m, scope, now, key, expected, bytes), r),
        keys_ok(old(m).stored()),
    ensures
        now is None || !now->0.open ==> r == Err::<Token, Error>(Error::Closed),
        revision_of(old(m).stored(), key@) != expected ==> r is Err && final(m).stored() == old(
            m,
        ).stored(),
        r is Ok ==> revision_of(old(m).stored(), key@) == expected && revision_of(
            final(m).stored(),
            key@,
        ) != expected,
{
    if r is Ok {
        let vs = old(m).stored();
        let v = Stored { revision: next_revision(expected) as u64, bytes: bytes@ };
        an_expectation_holds_once(vs, key@, v, expected);
    }
}

/// In the dark look text is lighter than the panel it stands on, in the light look darker, and all
/// colours are opaque.
pub proof fn text_stands_out_in_either_look(look: Look)
    ensures
        ({
            let p = palette(look);
            let t = p.text_primary;
            let s = p.surface_panel;
            &&& look is Dark ==> t.r.bits > s.r.bits && t.g.bits > s.g.bits && t.b.bits > s.b.bits
            &&& look is Light ==> t.r.bits < s.r.bits && t.g.bits < s.g.bits && t.b.bits < s.b.bits
            &&& t.a.bits == 0x3F80_0000 && s.a.bits == 0x3F80_0000 && p.accent.a.bits == 0x3F80_0000
            &&& !p.high_contrast
        }),
{
}

/// A look is published under a new revision where any of its colours differs from the present ones,
/// and not otherwise.
pub proof fn a_new_look_has_a_new_revision(h: ThemeHost, look: Look)
    requires
        h.epoch < u64::MAX,
    ensures
        tokens_eq(h.current.tokens, palette(look)) ==> synced(h, look) == h,
        !tokens_eq(h.current.tokens, palette(look)) ==> synced(h, look).epoch == h.epoch + 1 && synced(
            h,
            look,
        ).current.revision == h.epoch + 1 && synced(h, look).current.tokens == palette(look),
        h.current.tokens.high_contrast ==> !tokens_eq(h.current.tokens, palette(look)),
        !h.current.tokens.text_primary.r.equals(palette(look).text_primary.r) ==> !tokens_eq(
            h.current.tokens,
            palette(look),
        ),
        !h.current.tokens.info.b.equals(palette(look).info.b) ==> !tokens_eq(
            h.current.tokens,
            palette(look),
        ),
{
}

} // verus!
