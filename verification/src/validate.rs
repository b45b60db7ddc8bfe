//! What a configuration must satisfy to be loaded or saved.


use crate::model::{
    fence_models, layout_models, AppearanceOverride, Config, Fence, FenceContentSpec, FenceKind,
    FenceModel, GeometryModel, Layout, LayoutModel, PanelSpec, SCHEMA_VERSION,
};
use crate::text::{chars_of, number_text, push_all, push_number, string_of};
use vstd::prelude::*;

verus! {

/// The most fences of one layout.
pub const MAX_FENCES: usize = 64;

/// The most items of a configuration.
pub const MAX_ITEMS: usize = 5000;

/// Why a configuration is refused. Fences are named by their layout and their position in it.
#[derive(Clone, Copy, Debug, PartialEq, Eq, Structural)]
pub enum ValidationError {
    /// A schema version that this program does not know.
    SchemaVersion(u32),
    TooManyItems(usize),
    TooManyFences(usize),
    /// More than one inbox in a layout.
    Inboxes(usize),
    /// A panel without provider or version, or in a fence that is not an empty virtual one.
    Panel { layout: usize, fence: usize },
    NonFiniteGeometry { layout: usize, fence: usize },
    SizeOutOfRange { layout: usize, fence: usize },
    OpacityOutOfRange { layout: usize, fence: usize },
}

/// What an error says. `title` is that of the fence, `shown` the number, or the numbers, that are
/// out of range.
pub open spec fn error_text(e: ValidationError, title: Seq<char>, shown: Seq<char>) -> Seq<char> {
    match e {
        ValidationError::SchemaVersion(n) => "unsupported schema version "@ + number_text(n as nat)
            + " (supported: "@ + number_text(SCHEMA_VERSION as nat) + ")"@,
        ValidationError::TooManyItems(n) => "too many items: "@ + number_text(n as nat),
        ValidationError::TooManyFences(n) => "too many fences: "@ + number_text(n as nat),
        ValidationError::Inboxes(n) => "layout has "@ + number_text(n as nat) + " inbox fences"@,
        ValidationError::Panel { .. } => {
            "panels require provider/version and an empty virtual fence"@
        },
        ValidationError::NonFiniteGeometry { .. } => "fence "@ + title
            + " has non-finite geometry"@,
        ValidationError::SizeOutOfRange { .. } => "fence "@ + title + " has out-of-range size "@
            + shown,
        ValidationError::OpacityOutOfRange { .. } => "fence "@ + title + " opacity "@ + shown
            + " out of range"@,
    }
}

impl ValidationError {
    /// What the error says.
    pub fn message(&self, title: &str, shown: &str) -> (r: String)
        ensures
            r@ == error_text(*self, title@, shown@),
    {
        let mut out: Vec<char> = Vec::new();
        match self {
            ValidationError::SchemaVersion(n) => {
                push_all(&mut out, "unsupported schema version ");
                push_number(&mut out, *n as u64);
                push_all(&mut out, " (supported: ");
                push_number(&mut out, SCHEMA_VERSION as u64);
                push_all(&mut out, ")");
            },
            ValidationError::TooManyItems(n) => {
                push_all(&mut out, "too many items: ");
                push_number(&mut out, *n as u64);
            },
            ValidationError::TooManyFences(n) => {
                push_all(&mut out, "too many fences: ");
                push_number(&mut out, *n as u64);
            },
            ValidationError::Inboxes(n) => {
                push_all(&mut out, "layout has ");
                push_number(&mut out, *n as u64);
                push_all(&mut out, " inbox fences");
            },
            ValidationError::Panel { .. } => {
                push_all(&mut out, "panels require provider/version and an empty virtual fence");
            },
            ValidationError::NonFiniteGeometry { .. } => {
                push_all(&mut out, "fence ");
                push_all(&mut out, title);
                push_all(&mut out, " has non-finite geometry");
            },
            ValidationError::SizeOutOfRange { .. } => {
                push_all(&mut out, "fence ");
                push_all(&mut out, title);
                push_all(&mut out, " has out-of-range size ");
                push_all(&mut out, shown);
            },
            ValidationError::OpacityOutOfRange { .. } => {
                push_all(&mut out, "fence ");
                push_all(&mut out, title);
                push_all(&mut out, " opacity ");
                push_all(&mut out, shown);
                push_all(&mut out, " out of range");
            },
        }
        assert(out@ =~= error_text(*self, title@, shown@));
        string_of(&out)
    }
}

// ---- blank text ---------------------------------------------------------------------------

/// A character of the Unicode property `White_Space`.
pub open spec fn is_space(c: char) -> bool {
    let n = c as int;
    ||| 0x9 <= n <= 0xD
    ||| n == 0x20
    ||| n == 0x85
    ||| n == 0xA0
    ||| n == 0x1680
    ||| 0x2000 <= n <= 0x200A
    ||| n == 0x2028
    ||| n == 0x2029
    ||| n == 0x202F
    ||| n == 0x205F
    ||| n == 0x3000
}

/// White space only, or nothing.
pub open spec fn blank(s: Seq<char>) -> bool {
    forall|i: int| 0 <= i < s.len() ==> is_space(#[trigger] s[i])
}

/// Whether a character is white space.
pub fn is_white(c: char) -> (r: bool)
    ensures
        r == is_space(c),
{
    let n: u32 = c as u32;
    (0x9 <= n && n <= 0xD) || n == 0x20 || n == 0x85 || n == 0xA0 || n == 0x1680 || (0x2000 <= n && n
        <= 0x200A) || n == 0x2028 || n == 0x2029 || n == 0x202F || n == 0x205F || n == 0x3000
}

/// Whether a text is white space only, or nothing.
pub fn is_blank(s: &str) -> (r: bool)
    ensures
        r == blank(s@),
{
    let chars = chars_of(s);
    let n: usize = chars.len();
    for i in 0..n
        invariant
            n == chars.len(),
            chars@ == s@,
            forall|j: int| 0 <= j < i ==> is_space(#[trigger] s@[j]),
    {
        if !is_white(chars[i]) {
            assert(!is_space(s@[i as int]));
            return false;
        }
    }
    true
}

// ---- what is refused ----------------------------------------------------------------------

/// A panel that may be saved in fence `f`.
pub open spec fn panel_ok(f: FenceModel, p: PanelSpec) -> bool {
    &&& !blank(p.provider@)
    &&& p.config_version != 0
    &&& f.kind == FenceKind::Virtual
    &&& f.items.len() == 0
}

pub open spec fn geometry_finite(g: GeometryModel) -> bool {
    g.w.finite() && g.h.finite() && g.x.finite() && g.y.finite()
}

pub open spec fn opacity_ok(a: Option<AppearanceOverride>) -> bool {
    match a {
        Some(o) => match o.opacity {
            Some(x) => x.opacity_in_range(),
            None => true,
        },
        None => true,
    }
}

/// What is wrong with a fence, the first thing checked first.
pub open spec fn fence_error(f: FenceModel, layout: int, fence: int) -> Option<ValidationError> {
    let (layout, fence) = (layout as usize, fence as usize);
    if (match f.content {
        FenceContentSpec::Panel { panel } => !panel_ok(f, panel),
        FenceContentSpec::Files { .. } => false,
    }) {
        Some(ValidationError::Panel { layout, fence })
    } else if !geometry_finite(f.geometry) {
        Some(ValidationError::NonFiniteGeometry { layout, fence })
    } else if !(f.geometry.w.side_in_range() && f.geometry.h.side_in_range()) {
        Some(ValidationError::SizeOutOfRange { layout, fence })
    } else if !opacity_ok(f.appearance) {
        Some(ValidationError::OpacityOutOfRange { layout, fence })
    } else {
        None
    }
}

/// The first thing wrong with the fences from position `k` on.
pub open spec fn fences_error(fs: Seq<FenceModel>, layout: int, k: int) -> Option<ValidationError>
    decreases fs.len() - k,
{
    if k >= fs.len() {
        None
    } else {
        match fence_error(fs[k], layout, k) {
            Some(e) => Some(e),
            None => fences_error(fs, layout, k + 1),
        }
    }
}

/// How many fences are inboxes.
pub open spec fn inboxes(fs: Seq<FenceModel>) -> nat
    decreases fs.len(),
{
    if fs.len() == 0 {
        0
    } else {
        inboxes(fs.drop_last()) + if fs.last().kind == FenceKind::Inbox {
            1nat
        } else {
            0nat
        }
    }
}

/// The first thing wrong with a layout.
pub open spec fn layout_error(l: LayoutModel, layout: int) -> Option<ValidationError> {
    if l.fences.len() > MAX_FENCES {
        Some(ValidationError::TooManyFences(l.fences.len() as usize))
    } else if inboxes(l.fences) > 1 {
        Some(ValidationError::Inboxes(inboxes(l.fences) as usize))
    } else {
        fences_error(l.fences, layout, 0)
    }
}

/// The first thing wrong with the layouts from position `k` on.
pub open spec fn layouts_error(ls: Seq<LayoutModel>, k: int) -> Option<ValidationError>
    decreases ls.len() - k,
{
    if k >= ls.len() {
        None
    } else {
        match layout_error(ls[k], k) {
            Some(e) => Some(e),
            None => layouts_error(ls, k + 1),
        }
    }
}

/// The first thing wrong with a configuration; none where it is valid.
pub open spec fn config_error(c: Config) -> Option<ValidationError> {
    if c.schema_version == 0 || c.schema_version > SCHEMA_VERSION {
        Some(ValidationError::SchemaVersion(c.schema_version))
    } else if c.items@.len() > MAX_ITEMS {
        Some(ValidationError::TooManyItems(c.items@.len() as usize))
    } else {
        layouts_error(layout_models(c.layouts@), 0)
    }
}

fn check_fence(f: &Fence, layout: usize, fence: usize) -> (r: Option<ValidationError>)
    ensures
        r == fence_error(f@, layout as int, fence as int),
{
    if let FenceContentSpec::Panel { panel } = &f.content {
        if is_blank(panel.provider.as_str()) || panel.config_version == 0 || f.kind
            != FenceKind::Virtual || !f.items.is_empty() {
            return Some(ValidationError::Panel { layout, fence });
        }
    }
    let g = &f.geometry;
    if !(g.w.is_finite() && g.h.is_finite() && g.x.is_finite() && g.y.is_finite()) {
        return Some(ValidationError::NonFiniteGeometry { layout, fence });
    }
    if !(g.w.is_side() && g.h.is_side()) {
        return Some(ValidationError::SizeOutOfRange { layout, fence });
    }
    if let Some(a) = f.appearance {
        if let Some(o) = a.opacity {
            if !o.is_opacity() {
                return Some(ValidationError::OpacityOutOfRange { layout, fence });
            }
        }
    }
    None
}

fn count_inboxes(fences: &Vec<Fence>) -> (r: usize)
    ensures
        r == inboxes(fence_models(fences@)),
{
    let ghost fs = fence_models(fences@);
    let mut count: usize = 0;
    let n: usize = fences.len();
    for i in 0..n
        invariant
            n == fences.len(),
            fs == fence_models(fences@),
            count == inboxes(fs.take(i as int)),
            count <= i,
    {
        assert(fs.take(i + 1).drop_last() == fs.take(i as int));
        assert(fs.take(i + 1).last() == fences@[i as int]@);
        if fences[i].kind == FenceKind::Inbox {
            count = count + 1;
        }
    }
    assert(fs.take(n as int) == fs);
    count
}

fn check_layout(l: &Layout, layout: usize) -> (r: Option<ValidationError>)
    ensures
        r == layout_error(l@, layout as int),
{
    if l.fences.len() > MAX_FENCES {
        return Some(ValidationError::TooManyFences(l.fences.len()));
    }
    let count: usize = count_inboxes(&l.fences);
    if count > 1 {
        return Some(ValidationError::Inboxes(count));
    }
    let n: usize = l.fences.len();
    for k in 0..n
        invariant
            n == l.fences.len(),
            l@.fences.len() == n,
            fences_error(l@.fences, layout as int, 0) == fences_error(
                l@.fences,
                layout as int,
                k as int,
            ),
            !(l@.fences.len() > MAX_FENCES),
            !(inboxes(l@.fences) > 1),
    {
        assert(l@.fences[k as int] == l.fences@[k as int]@);
        let e = check_fence(&l.fences[k], layout, k);
        if e.is_some() {
            return e;
        }
    }
    None
}

/// Checks a configuration: its schema version is known, it is not too large, no layout has two
/// inboxes, panels are complete and sizes and opacities are in range. The error is the first
/// thing that is wrong.
pub fn validate(cfg: &Config) -> (r: Result<(), ValidationError>)
    ensures
        match r {
            Ok(()) => config_error(*cfg) is None,
            Err(e) => config_error(*cfg) == Some(e),
        },
{
    if cfg.schema_version == 0 || cfg.schema_version > SCHEMA_VERSION {
        return Err(ValidationError::SchemaVersion(cfg.schema_version));
    }
    if cfg.items.len() > MAX_ITEMS {
        return Err(ValidationError::TooManyItems(cfg.items.len()));
    }
    let ghost ls = layout_models(cfg.layouts@);
    let n: usize = cfg.layouts.len();
    for k in 0..n
        invariant
            n == cfg.layouts.len(),
            ls == layout_models(cfg.layouts@),
            layouts_error(ls, 0) == layouts_error(ls, k as int),
            config_error(*cfg) == layouts_error(ls, 0),
    {
        assert(ls[k as int] == cfg.layouts@[k as int]@);
        if let Some(e) = check_layout(&cfg.layouts[k], k) {
            return Err(e);
        }
    }
    Ok(())
}

/// A configuration brought to the current schema version; nothing else changes.
pub open spec fn migrated(c: Config) -> Config {
    if c.schema_version < SCHEMA_VERSION {
        Config { schema_version: SCHEMA_VERSION, ..c }
    } else {
        c
    }
}

/// Brings a configuration to the current schema version.
pub fn migrate(cfg: Config) -> (r: Config)
    ensures
        r == migrated(cfg),
{
    let mut cfg = cfg;
    if cfg.schema_version < SCHEMA_VERSION {
        cfg.schema_version = SCHEMA_VERSION;
    }
    cfg
}

/// What a configuration that was read becomes: refused with the first thing wrong, or brought to
/// the current schema version.
pub fn accept(cfg: Config) -> (r: Result<Config, ValidationError>)
    ensures
        match r {
            Ok(c) => config_error(cfg) is None && c == migrated(cfg),
            Err(e) => config_error(cfg) == Some(e),
        },
{
    match validate(&cfg) {
        Ok(()) => Ok(migrate(cfg)),
        Err(e) => Err(e),
    }
}

// ---- laws ---------------------------------------------------------------------------------

/// A configuration that was accepted can be saved, and is accepted again unchanged.
pub proof fn accepted_configurations_stay_valid(c: Config)
    requires
        config_error(c) is None,
    ensures
        config_error(migrated(c)) is None,
        migrated(migrated(c)) == migrated(c),
{
}

proof fn lemma_fences_ok(fs: Seq<FenceModel>, layout: int, k: int)
    requires
        fences_error(fs, layout, k) is None,
        0 <= k,
    ensures
        forall|i: int| k <= i < fs.len() ==> fence_error(#[trigger] fs[i], layout, i) is None,
    decreases fs.len() - k,
{
    if k < fs.len() {
        lemma_fences_ok(fs, layout, k + 1);
    }
}

proof fn lemma_layouts_ok(ls: Seq<LayoutModel>, k: int)
    requires
        layouts_error(ls, k) is None,
        0 <= k,
    ensures
        forall|i: int| k <= i < ls.len() ==> layout_error(#[trigger] ls[i], i) is None,
    decreases ls.len() - k,
{
    if k < ls.len() {
        lemma_layouts_ok(ls, k + 1);
    }
}

/// In a valid configuration every layout has at most one inbox and not too many fences, and every
/// fence has a finite frame of a usable size.
pub proof fn valid_layouts_are_bounded(c: Config, layout: int, fence: int)
    requires
        config_error(c) is None,
        0 <= layout < c.layouts.len(),
        0 <= fence < c.layouts@[layout]@.fences.len(),
    ensures
        c.layouts@[layout]@.fences.len() <= MAX_FENCES,
        inboxes(c.layouts@[layout]@.fences) <= 1,
        geometry_finite(c.layouts@[layout]@.fences[fence].geometry),
        c.layouts@[layout]@.fences[fence].geometry.w.side_in_range(),
        c.layouts@[layout]@.fences[fence].geometry.h.side_in_range(),
{
    let ls = layout_models(c.layouts@);
    lemma_layouts_ok(ls, 0);
    assert(ls[layout] == c.layouts@[layout]@);
    assert(layout_error(ls[layout], layout) is None);
    lemma_fences_ok(ls[layout].fences, layout, 0);
    assert(fence_error(ls[layout].fences[fence], layout, fence) is None);
}

// ---- what is accepted -------------------------------------------------------------------------

/// A fence is fine where its panel, if it has one, has a provider and a version and the fence is
/// an empty virtual one, its frame is finite and of a size in range, and its opacity is in range.
pub open spec fn fence_fine(f: FenceModel) -> bool {
    &&& f.content matches FenceContentSpec::Panel { panel } ==> f.kind is Virtual && f.items.len() == 0
        && panel.config_version > 0 && exists|i: int|
        0 <= i < panel.provider@.len() && !is_space(#[trigger] panel.provider@[i])
    &&& f.geometry.x.finite() && f.geometry.y.finite() && f.geometry.w.finite()
        && f.geometry.h.finite()
    &&& f.geometry.w.side_in_range() && f.geometry.h.side_in_range()
    &&& f.appearance is Some && f.appearance->0.opacity is Some
        ==> f.appearance->0.opacity->0.opacity_in_range()
}

/// A layout is fine with at most 64 fences, of which at most one is an inbox, and all are fine.
pub open spec fn layout_fine(l: LayoutModel) -> bool {
    &&& l.fences.len() <= 64
    &&& forall|i: int, j: int|
        0 <= i < l.fences.len() && 0 <= j < l.fences.len() && (#[trigger] l.fences[i]).kind is Inbox
            && (#[trigger] l.fences[j]).kind is Inbox ==> i == j
    &&& forall|i: int| 0 <= i < l.fences.len() ==> fence_fine(#[trigger] l.fences[i])
}

proof fn lemma_fence_fine(f: FenceModel, layout: int, fence: int)
    ensures
        fence_error(f, layout, fence) is None <==> fence_fine(f),
{
    if let FenceContentSpec::Panel { panel } = f.content {
        if !blank(panel.provider@) {
            let i = choose|i: int|
                0 <= i < panel.provider@.len() && !is_space(#[trigger] panel.provider@[i]);
            assert(!is_space(panel.provider@[i]));
        }
    }
}

proof fn lemma_fences_fine(fs: Seq<FenceModel>, layout: int, k: int)
    requires
        0 <= k,
    ensures
        fences_error(fs, layout, k) is None <==> forall|i: int|
            k <= i < fs.len() ==> fence_fine(#[trigger] fs[i]),
        forall|i: int|
            #![trigger fs[i]]
            k <= i < fs.len() && !fence_fine(fs[i]) && (forall|j: int|
                k <= j < i ==> fence_fine(#[trigger] fs[j])) ==> fences_error(fs, layout, k)
                == fence_error(fs[i], layout, i),
    decreases fs.len() - k,
{
    if k < fs.len() {
        lemma_fence_fine(fs[k], layout, k);
        lemma_fences_fine(fs, layout, k + 1);
        assert forall|i: int|
            #![trigger fs[i]]
            k <= i < fs.len() && !fence_fine(fs[i]) && (forall|j: int|
                k <= j < i ==> fence_fine(#[trigger] fs[j])) implies fences_error(fs, layout, k)
            == fence_error(fs[i], layout, i) by {
            if i > k {
                assert(fence_fine(fs[k]));
            }
        }
    }
}

/// The inboxes of a layout are counted.
pub proof fn inboxes_are_counted(fs: Seq<FenceModel>)
    ensures
        inboxes(fs) == fs.filter(|f: FenceModel| f.kind is Inbox).len(),
    decreases fs.len(),
{
    reveal(Seq::filter);
    if fs.len() > 0 {
        inboxes_are_counted(fs.drop_last());
    }
}

proof fn lemma_inboxes(fs: Seq<FenceModel>)
    ensures
        inboxes(fs) == 0 <==> forall|i: int| 0 <= i < fs.len() ==> !((#[trigger] fs[i]).kind is Inbox),
        inboxes(fs) <= 1 <==> forall|i: int, j: int|
            0 <= i < fs.len() && 0 <= j < fs.len() && (#[trigger] fs[i]).kind is Inbox && (
            #[trigger] fs[j]).kind is Inbox ==> i == j,
    decreases fs.len(),
{
    if fs.len() > 0 {
        let front = fs.drop_last();
        let n = fs.len() - 1;
        lemma_inboxes(front);
        if inboxes(front) != 0 {
            let i = choose|i: int| 0 <= i < front.len() && (#[trigger] front[i]).kind is Inbox;
            assert(fs[i].kind is Inbox);
        } else {
            assert forall|i: int| 0 <= i < n implies !((#[trigger] fs[i]).kind is Inbox) by {
                assert(!(front[i].kind is Inbox));
            }
        }
        if inboxes(front) > 1 {
            let (i, j) = choose|i: int, j: int|
                0 <= i < front.len() && 0 <= j < front.len() && (#[trigger] front[i]).kind is Inbox
                    && (#[trigger] front[j]).kind is Inbox && i != j;
            assert(fs[i].kind is Inbox && fs[j].kind is Inbox);
        } else {
            assert forall|i: int, j: int|
                0 <= i < n && 0 <= j < n && (#[trigger] fs[i]).kind is Inbox && (
                #[trigger] fs[j]).kind is Inbox implies i == j by {
                assert(front[i].kind is Inbox && front[j].kind is Inbox);
            }
        }
        if fs[n].kind is Inbox && inboxes(front) > 0 {
            let i = choose|i: int| 0 <= i < front.len() && (#[trigger] front[i]).kind is Inbox;
            assert(fs[i].kind is Inbox && fs[n].kind is Inbox && i != n);
        }
    }
}

proof fn lemma_layouts_fine(ls: Seq<LayoutModel>, k: int)
    requires
        0 <= k,
    ensures
        layouts_error(ls, k) is None <==> forall|i: int|
            k <= i < ls.len() ==> layout_fine(#[trigger] ls[i]),
    decreases ls.len() - k,
{
    if k < ls.len() {
        lemma_layouts_fine(ls, k + 1);
        lemma_inboxes(ls[k].fences);
        lemma_fences_fine(ls[k].fences, k, 0);
        assert(layout_error(ls[k], k) is None <==> layout_fine(ls[k]));
    }
}

/// A configuration is accepted where its version is known, it has at most 5000 items and every
/// layout is fine, and only there.
pub proof fn only_fine_configurations_are_accepted(c: Config)
    ensures
        config_error(c) is None <==> c.schema_version == 1 && c.items@.len() <= 5000 && forall|l: int|
            0 <= l < c.layouts.len() ==> layout_fine(#[trigger] layout_models(c.layouts@)[l]),
{
    lemma_layouts_fine(layout_models(c.layouts@), 0);
}

/// A fence that is refused is the first one that is not fine, and it is named for what is wrong
/// with it: its panel before its frame, and its frame before its opacity.
pub proof fn the_first_bad_fence_is_named(fs: Seq<FenceModel>, layout: usize, k: usize)
    requires
        k < fs.len(),
        !fence_fine(fs[k as int]),
        forall|j: int| 0 <= j < k ==> fence_fine(#[trigger] fs[j]),
    ensures
        ({
            let f = fs[k as int];
            let g = f.geometry;
            match fences_error(fs, layout as int, 0) {
                Some(ValidationError::Panel { layout: l, fence }) => l == layout && fence == k
                    && f.content is Panel,
                Some(ValidationError::NonFiniteGeometry { layout: l, fence }) => l == layout && fence
                    == k && !(g.x.finite() && g.y.finite() && g.w.finite() && g.h.finite()),
                Some(ValidationError::SizeOutOfRange { layout: l, fence }) => l == layout && fence == k
                    && g.w.finite() && g.h.finite() && !(g.w.side_in_range()
                    && g.h.side_in_range()),
                Some(ValidationError::OpacityOutOfRange { layout: l, fence }) => l == layout && fence
                    == k && f.appearance is Some && f.appearance->0.opacity is Some
                    && !f.appearance->0.opacity->0.opacity_in_range(),
                _ => false,
            }
        }),
{
    lemma_fences_fine(fs, layout as int, 0);
    lemma_fence_fine(fs[k as int], layout as int, k as int);
}

/// White space is a tab, a line end of any kind, a space, and the spaces and separators of other
/// scripts; no letter, digit or punctuation mark is.
pub proof fn white_space_is_what_unicode_says(c: char)
    ensures
        is_space(c) <==> seq![
            0x9int,
            0xA,
            0xB,
            0xC,
            0xD,
            0x20,
            0x85,
            0xA0,
            0x1680,
            0x2000,
            0x2001,
            0x2002,
            0x2003,
            0x2004,
            0x2005,
            0x2006,
            0x2007,
            0x2008,
            0x2009,
            0x200A,
            0x2028,
            0x2029,
            0x202F,
            0x205F,
            0x3000,
        ].contains(c as int),
        '!' <= c <= '~' ==> !is_space(c),
{
    let s = seq![
        0x9int,
        0xA,
        0xB,
        0xC,
        0xD,
        0x20,
        0x85,
        0xA0,
        0x1680,
        0x2000,
        0x2001,
        0x2002,
        0x2003,
        0x2004,
        0x2005,
        0x2006,
        0x2007,
        0x2008,
        0x2009,
        0x200A,
        0x2028,
        0x2029,
        0x202F,
        0x205F,
        0x3000,
    ];
    let n = c as int;
    if 0x9 <= n <= 0xD {
        assert(s[n - 9] == n);
    } else if 0x2000 <= n <= 0x200A {
        assert(s[n - 0x2000 + 9] == n);
    } else {
        assert(s[5] == 0x20 && s[6] == 0x85 && s[7] == 0xA0 && s[8] == 0x1680 && s[20] == 0x2028
            && s[21] == 0x2029 && s[22] == 0x202F && s[23] == 0x205F && s[24] == 0x3000);
    }
    if s.contains(n) {
        let i = s.index_of(n);
        assert(0 <= i < 25 && s[i] == n);
    }
}

} // verus!
