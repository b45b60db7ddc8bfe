//! The user's preferences and their defaults.

use crate::dip::Dip;
use vstd::prelude::*;

verus! {

/// The one material that fences are drawn with.
#[derive(Clone, Copy, Debug, PartialEq, Eq, Structural)]
pub enum Backdrop {
    Acrylic,
}

#[derive(Clone, Copy, Debug, PartialEq, Eq, Structural)]
pub enum ThemeSetting {
    FollowWindowsMode,
    FollowAppMode,
    Light,
    Dark,
}

/// Material style, independent of light and dark.
#[derive(Clone, Copy, Debug, PartialEq, Eq, Structural)]
pub enum ThemeStyle {
    Fluent,
    LiquidGlass,
}

impl Default for ThemeStyle {
    fn default() -> (r: Self)
        ensures
            r == ThemeStyle::Fluent,
    {
        ThemeStyle::Fluent
    }
}

#[derive(Clone, Copy, Debug, PartialEq, Eq, Structural)]
pub enum ShowDesktopSetting {
    KeepVisible,
    HideWithDesktop,
}

#[derive(Clone, Copy, Debug, PartialEq, Eq, Structural)]
pub enum ZOrderSetting {
    InsertAboveHost,
    HwndBottom,
}

#[derive(Clone, Copy, Debug, PartialEq, Eq, Structural)]
pub enum QuickHideScope {
    All,
    LooseOnly,
    FencesOnly,
}

/// The hotkey that floats the fences above the current windows. Windows keeps Win+Space for the
/// input-language switcher where several keyboard layouts are installed, so it is not the default.
#[derive(Clone, Copy, Debug, PartialEq, Eq, Structural)]
pub enum PeekHotkey {
    WinSpace,
    CtrlAltSpace,
    WinShiftSpace,
}

impl Default for PeekHotkey {
    fn default() -> (r: Self)
        ensures
            r == PeekHotkey::CtrlAltSpace,
    {
        PeekHotkey::CtrlAltSpace
    }
}

#[derive(Clone, Copy, Debug, PartialEq, Eq, Structural)]
pub struct PeekSettings {
    pub enabled: bool,
    /// Dim everything behind the fences while peeking.
    pub dim: bool,
    pub hotkey: PeekHotkey,
}

impl Default for PeekSettings {
    fn default() -> (r: Self)
        ensures
            r == (PeekSettings { enabled: true, dim: true, hotkey: PeekHotkey::CtrlAltSpace }),
    {
        PeekSettings { enabled: true, dim: true, hotkey: PeekHotkey::CtrlAltSpace }
    }
}

#[derive(Debug, PartialEq, Eq)]
pub struct QuickHideSettings {
    pub enabled: bool,
    pub scope: QuickHideScope,
    pub always_show_at_startup: bool,
    pub delay_ms: u32,
    pub auto_hide_idle_sec: u32,
    pub auto_show_on_use: bool,
    pub wallpaper_engine_class_whitelist: Vec<String>,
}

impl Default for QuickHideSettings {
    fn default() -> (r: Self)
        ensures
            r.enabled,
            r.scope == QuickHideScope::All,
            r.always_show_at_startup,
            r.delay_ms == 300,
            r.auto_hide_idle_sec == 0,
            r.auto_show_on_use,
            r.wallpaper_engine_class_whitelist@ == Seq::<String>::empty(),
    {
        QuickHideSettings {
            enabled: true,
            scope: QuickHideScope::All,
            always_show_at_startup: true,
            delay_ms: 300,
            auto_hide_idle_sec: 0,
            auto_show_on_use: true,
            wallpaper_engine_class_whitelist: Vec::new(),
        }
    }
}

#[derive(Clone, Copy, Debug, PartialEq, Eq, Structural)]
pub struct RollUpSettings {
    pub double_click_title: bool,
    pub auto_on_screen_edge: bool,
    pub hover_peek: bool,
    pub hover_open_ms: u32,
    pub close_grace_ms: u32,
    /// A rolled fence expands on a title click instead of on hover.
    pub click_to_expand: bool,
    /// Draw the title only while the mouse is over the fence.
    pub title_on_hover: bool,
    /// Show the scrollbar only while the mouse is inside or right after scrolling.
    pub hide_inactive_scrollbar: bool,
}

impl Default for RollUpSettings {
    fn default() -> (r: Self)
        ensures
            r == (RollUpSettings {
                double_click_title: true,
                auto_on_screen_edge: true,
                hover_peek: true,
                hover_open_ms: 400,
                close_grace_ms: 400,
                click_to_expand: false,
                title_on_hover: false,
                hide_inactive_scrollbar: false,
            }),
    {
        RollUpSettings {
            double_click_title: true,
            auto_on_screen_edge: true,
            hover_peek: true,
            hover_open_ms: 400,
            close_grace_ms: 400,
            click_to_expand: false,
            title_on_hover: false,
            hide_inactive_scrollbar: false,
        }
    }
}

#[derive(Clone, Copy, Debug, PartialEq, Eq, Structural)]
pub struct SnappingSettings {
    pub enabled: bool,
    pub gap_px: i32,
    pub size_to_cells: bool,
    pub guide_lines: bool,
}

impl Default for SnappingSettings {
    fn default() -> (r: Self)
        ensures
            r == (SnappingSettings {
                enabled: true,
                gap_px: 8,
                size_to_cells: false,
                guide_lines: false,
            }),
    {
        SnappingSettings { enabled: true, gap_px: 8, size_to_cells: false, guide_lines: false }
    }
}

/// A colour.
#[derive(Clone, Copy, Debug, PartialEq, Eq, Structural)]
pub struct Rgb {
    pub r: u8,
    pub g: u8,
    pub b: u8,
}

/// How icons are recoloured, for every fence.
#[derive(Clone, Copy, Debug, PartialEq, Eq, Structural)]
pub struct IconSettings {
    pub tint_rgb: Option<Rgb>,
    /// How far toward the tint, from 0 to 1.
    pub tint_strength: Dip,
    /// Icons lose their colour and fade into the backdrop.
    pub chameleon: bool,
}

impl Default for IconSettings {
    fn default() -> (r: Self)
        ensures
            r.tint_rgb is None,
            r.tint_strength.bits == crate::dip::TINT_STRENGTH_BITS,
            !r.chameleon,
    {
        IconSettings {
            tint_rgb: None,
            tint_strength: Dip { bits: crate::dip::TINT_STRENGTH_BITS },
            chameleon: false,
        }
    }
}

#[derive(Debug, PartialEq, Eq)]
pub struct Settings {
    /// Tag of the interface language; empty follows the system.
    pub language: String,
    pub backdrop: Backdrop,
    pub theme: ThemeSetting,
    pub theme_style: ThemeStyle,
    pub icon_size: u32,
    pub quick_hide: QuickHideSettings,
    pub roll_up: RollUpSettings,
    pub show_desktop: ShowDesktopSetting,
    pub hide_real_icons: bool,
    pub show_real_icons_when_fences_hidden: bool,
    pub snapping: SnappingSettings,
    pub zorder: ZOrderSetting,
    pub autostart: bool,
    pub telemetry: bool,
    pub peek: PeekSettings,
    pub icons: IconSettings,
    /// The desktop folder as last seen, so that item records follow a desktop that moved.
    pub desktop_path: Option<String>,
}

impl Default for Settings {
    fn default() -> (r: Self)
        ensures
            r.language@ == Seq::<char>::empty(),
            r.backdrop == Backdrop::Acrylic,
            r.theme == ThemeSetting::FollowWindowsMode,
            r.theme_style == ThemeStyle::Fluent,
            r.icon_size == 48,
            r.show_desktop == ShowDesktopSetting::KeepVisible,
            r.hide_real_icons,
            !r.show_real_icons_when_fences_hidden,
            r.zorder == ZOrderSetting::InsertAboveHost,
            r.autostart,
            !r.telemetry,
            r.desktop_path is None,
            call_ensures(QuickHideSettings::default, (), r.quick_hide),
            call_ensures(RollUpSettings::default, (), r.roll_up),
            call_ensures(SnappingSettings::default, (), r.snapping),
            call_ensures(PeekSettings::default, (), r.peek),
            call_ensures(IconSettings::default, (), r.icons),
    {
        Settings {
            language: String::new(),
            backdrop: Backdrop::Acrylic,
            theme: ThemeSetting::FollowWindowsMode,
            theme_style: ThemeStyle::Fluent,
            icon_size: 48,
            quick_hide: QuickHideSettings::default(),
            roll_up: RollUpSettings::default(),
            show_desktop: ShowDesktopSetting::KeepVisible,
            hide_real_icons: true,
            show_real_icons_when_fences_hidden: false,
            snapping: SnappingSettings::default(),
            zorder: ZOrderSetting::InsertAboveHost,
            autostart: true,
            telemetry: false,
            peek: PeekSettings::default(),
            icons: IconSettings::default(),
            desktop_path: None,
        }
    }
}

} // verus!
