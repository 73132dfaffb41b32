//! Checks of appearance: borders, fonts, gaps as laid out, colours of the
//! window states and title bars.

use super::{check, infos, opt_is, parsed, parsed_config, reg, unparsed, verdict};
use crate::config::types::{BorderStyle, HideEdgeBorders};
use crate::harness::suite::{Category, Harness, Priority, TestInfo, TestStatus};
use crate::text::{contains_seq, contains_str, str_eq, to_string};
use crate::tiling::commands::insert_window;
use crate::tiling::layout::{compute_layout, get_window_geometries};
use crate::tiling::tree::{GapsConfig, Layout, Rect, Tree};
use crate::tiling::workspace::{add_output, add_workspace};
use vstd::prelude::*;

verus! {

/// A tree with one 1920x1080 output holding workspace `1`, and
/// `windows` windows inserted there, laid out with inner gap 10 and
/// outer gap 20; `None` where the tree had no room.
fn gapped_geometries(windows: u64) -> (r: Option<Vec<(u64, Rect)>>)
    requires
        windows <= 2,
{
    let mut tree = Tree::new();
    if !tree.has_room(2) {
        return None;
    }
    let screen = Rect::new(0, 0, 1920, 1080);
    let out = add_output(&mut tree, "eDP-1", screen);
    add_workspace(&mut tree, out, "1");
    let mut k: u64 = 0;
    while k < windows
        invariant
            tree.wf(),
        decreases windows - k,
    {
        if !tree.can_insert(Layout::SplitH) {
            return None;
        }
        insert_window(&mut tree, k + 1);
        k = k + 1;
    }
    let root = tree.root();
    let gaps = GapsConfig { inner: 10, outer: 20 };
    compute_layout(&mut tree, root, screen, &gaps);
    Some(get_window_geometries(&tree))
}

/// `default_border pixel 3` sets a three-pixel border.
pub fn test_default_border_pixel() -> (s: TestStatus)
    ensures
        s@ is Pass <==> (parsed_config("default_border pixel 3"@) matches Some(c) && c.default_border == BorderStyle::Pixel(3)),
{
    match parsed("default_border pixel 3") {
        Some(config) => verdict(config.default_border == BorderStyle::Pixel(3), "expected Pixel(3)"),
        None => unparsed(),
    }
}

/// `default_border normal 2` sets a title bar and two-pixel border.
pub fn test_default_border_normal() -> (s: TestStatus)
    ensures
        s@ is Pass <==> (parsed_config("default_border normal 2"@) matches Some(c) && c.default_border == BorderStyle::Normal(2)),
{
    match parsed("default_border normal 2") {
        Some(config) => verdict(config.default_border == BorderStyle::Normal(2), "expected Normal(2)"),
        None => unparsed(),
    }
}

/// `default_border none` turns borders off.
pub fn test_default_border_none() -> (s: TestStatus)
    ensures
        s@ is Pass <==> (parsed_config("default_border none"@) matches Some(c) && c.default_border == BorderStyle::NoBorder),
{
    match parsed("default_border none") {
        Some(config) => verdict(config.default_border == BorderStyle::NoBorder, "expected None"),
        None => unparsed(),
    }
}

/// `font pango:DejaVu Sans 12` sets a font naming `DejaVu`.
pub fn test_font_config() -> (s: TestStatus)
    ensures
        s@ is Pass <==> (parsed_config("font pango:DejaVu Sans 12"@) matches Some(c) && c.font matches Some(f)
            && contains_seq(f, "DejaVu"@)),
{
    match parsed("font pango:DejaVu Sans 12") {
        Some(config) => match &config.font {
            Some(font) => verdict(contains_str(font.as_str(), "DejaVu"), "unexpected font"),
            None => TestStatus::Fail(to_string("font not parsed")),
        },
        None => unparsed(),
    }
}

/// Gaps shrink a lone window below the size of the screen.
fn test_gaps_visual() -> (s: TestStatus) {
    match gapped_geometries(1) {
        Some(geoms) => {
            if geoms.len() != 1 {
                return TestStatus::Fail(to_string("expected 1 window"));
            }
            let w = geoms[0].1;
            verdict(w.width < 1920 && w.height < 1080, "gaps not affecting geometry")
        },
        None => TestStatus::Fail(to_string("no room for the window")),
    }
}

/// `client.focused_inactive` sets the colours of that state.
pub fn test_client_colors() -> (s: TestStatus)
    ensures
        s@ is Pass <==> (parsed_config("client.focused_inactive #333333 #5f676a #ffffff #484e50 #5f676a"@) matches Some(c) && c.client_focused_inactive is Some),
{
    match parsed("client.focused_inactive #333333 #5f676a #ffffff #484e50 #5f676a") {
        Some(config) => verdict(config.client_focused_inactive.is_some(), "client_focused_inactive not parsed"),
        None => unparsed(),
    }
}

/// `title_format` keeps its format.
pub fn test_title_format() -> (s: TestStatus)
    ensures
        s@ is Pass <==> (parsed_config("title_format %title - %app_id"@) matches Some(c) && c.title_format == Some("%title - %app_id"@)),
{
    match parsed("title_format %title - %app_id") {
        Some(config) => verdict(opt_is(&config.title_format, "%title - %app_id"), "expected Some(\"%title - %app_id\")"),
        None => unparsed(),
    }
}

/// With gaps, each of two side-by-side windows is narrower than half the screen.
fn test_gaps_inner_outer_combined() -> (s: TestStatus) {
    match gapped_geometries(2) {
        Some(geoms) => {
            if geoms.len() == 2 {
                let r1 = geoms[0].1;
                let r2 = geoms[1].1;
                verdict(r1.width < 960 && r2.width < 960, "gaps not applied")
            } else {
                TestStatus::Fail(to_string("expected 2 windows"))
            }
        },
        None => TestStatus::Fail(to_string("no room for the windows")),
    }
}

/// `default_floating_border pixel 3` sets the floating border.
pub fn test_default_floating_border() -> (s: TestStatus)
    ensures
        s@ is Pass <==> (parsed_config("default_floating_border pixel 3"@) matches Some(c) && c.default_floating_border == BorderStyle::Pixel(3)),
{
    match parsed("default_floating_border pixel 3") {
        Some(config) => verdict(config.default_floating_border == BorderStyle::Pixel(3), "expected Pixel(3)"),
        None => unparsed(),
    }
}

/// A binding to `border pixel 2` is looked for; the library's actions have no border kind (such a command is kept as a raw command), so none is found.
pub fn test_border_command() -> (s: TestStatus)
    ensures
        s@ is Fail,
{
    match parsed("set $mod Mod4\nbindsym $mod+b border pixel 2") {
        Some(_config) => TestStatus::Fail(to_string("border pixel 2 action not found in keybindings")),
        None => unparsed(),
    }
}

/// A binding to `border toggle` is looked for; the library's actions have no border kind, so none is found.
pub fn test_border_toggle() -> (s: TestStatus)
    ensures
        s@ is Fail,
{
    match parsed("set $mod Mod4\nbindsym $mod+t border toggle") {
        Some(_config) => TestStatus::Fail(to_string("border toggle action not found in keybindings")),
        None => unparsed(),
    }
}

/// `hide_edge_borders smart` is kept.
pub fn test_hide_edge_borders() -> (s: TestStatus)
    ensures
        s@ is Pass <==> (parsed_config("hide_edge_borders smart"@) matches Some(c) && c.hide_edge_borders == HideEdgeBorders::Smart),
{
    match parsed("hide_edge_borders smart") {
        Some(config) => verdict(config.hide_edge_borders == HideEdgeBorders::Smart, "expected Smart"),
        None => unparsed(),
    }
}

/// `smart_borders on` turns them on.
pub fn test_smart_borders() -> (s: TestStatus)
    ensures
        s@ is Pass <==> (parsed_config("smart_borders on"@) matches Some(c) && c.smart_borders),
{
    match parsed("smart_borders on") {
        Some(config) => verdict(config.smart_borders, "expected smart_borders=true, got false"),
        None => unparsed(),
    }
}

/// `smart_gaps on` turns them on.
pub fn test_smart_gaps() -> (s: TestStatus)
    ensures
        s@ is Pass <==> (parsed_config("smart_gaps on"@) matches Some(c) && c.smart_gaps),
{
    match parsed("smart_gaps on") {
        Some(config) => verdict(config.smart_gaps, "expected smart_gaps=true, got false"),
        None => unparsed(),
    }
}

/// A binding to `opacity set 0.8` is looked for; the library's actions have no opacity kind, so none is found.
pub fn test_opacity_command() -> (s: TestStatus)
    ensures
        s@ is Fail,
{
    match parsed("set $mod Mod4\nbindsym $mod+o opacity set 0.8") {
        Some(_config) => TestStatus::Fail(to_string("opacity set 0.8 action not found in keybindings")),
        None => unparsed(),
    }
}

/// `titlebar_border_thickness 2` is kept.
pub fn test_titlebar_border_thickness() -> (s: TestStatus)
    ensures
        s@ is Pass <==> (parsed_config("titlebar_border_thickness 2"@) matches Some(c) && c.titlebar_border_thickness == Some(2u32)),
{
    match parsed("titlebar_border_thickness 2") {
        Some(config) => verdict(match config.titlebar_border_thickness { Some(t) => t == 2, None => false }, "expected Some(2)"),
        None => unparsed(),
    }
}

/// `titlebar_padding 5 3` is kept.
pub fn test_titlebar_padding() -> (s: TestStatus)
    ensures
        s@ is Pass <==> (parsed_config("titlebar_padding 5 3"@) matches Some(c) && c.titlebar_padding == Some((5u32, 3u32))),
{
    match parsed("titlebar_padding 5 3") {
        Some(config) => verdict(match config.titlebar_padding { Some((h, v)) => h == 5 && v == 3, None => false }, "expected Some((5, 3))"),
        None => unparsed(),
    }
}

/// `client.focused` sets the focused border colour.
pub fn test_client_focused_colors() -> (s: TestStatus)
    ensures
        s@ is Pass <==> (parsed_config("client.focused #4c7899 #285577 #ffffff #2e9ef4 #285577"@) matches Some(c) && c.client_focused matches Some(cc)
            && cc.border@ == "#4c7899"@),
{
    match parsed("client.focused #4c7899 #285577 #ffffff #2e9ef4 #285577") {
        Some(config) => match &config.client_focused {
            Some(cc) => verdict(str_eq(cc.border.as_str(), "#4c7899"), "expected border=#4c7899"),
            None => TestStatus::Fail(to_string("client_focused not parsed")),
        },
        None => unparsed(),
    }
}

/// `client.unfocused` sets the unfocused border colour.
pub fn test_client_unfocused_colors() -> (s: TestStatus)
    ensures
        s@ is Pass <==> (parsed_config("client.unfocused #333333 #222222 #888888 #292d2e #222222"@) matches Some(c) && c.client_unfocused matches Some(cc)
            && cc.border@ == "#333333"@),
{
    match parsed("client.unfocused #333333 #222222 #888888 #292d2e #222222") {
        Some(config) => match &config.client_unfocused {
            Some(cc) => verdict(str_eq(cc.border.as_str(), "#333333"), "expected border=#333333"),
            None => TestStatus::Fail(to_string("client_unfocused not parsed")),
        },
        None => unparsed(),
    }
}

/// `default_border pixel 0` gives a zero-width border.
pub fn test_default_border_zero_pixel() -> (s: TestStatus)
    ensures
        s@ is Pass <==> (parsed_config("default_border pixel 0"@) matches Some(c) && c.default_border == BorderStyle::Pixel(0)),
{
    match parsed("default_border pixel 0") {
        Some(config) => verdict(config.default_border == BorderStyle::Pixel(0), "expected Pixel(0)"),
        None => unparsed(),
    }
}

/// Zero gaps are kept.
pub fn test_gaps_zero() -> (s: TestStatus)
    ensures
        s@ is Pass <==> (parsed_config("gaps inner 0\ngaps outer 0"@) matches Some(c) && c.gaps.inner == 0 && c.gaps.outer == 0),
{
    match parsed("gaps inner 0\ngaps outer 0") {
        Some(config) => verdict(config.gaps.inner == 0 && config.gaps.outer == 0, "expected inner=0 outer=0"),
        None => unparsed(),
    }
}

/// `font pango:Sans 11` keeps the family after the `pango:` prefix.
pub fn test_font_pango_prefix() -> (s: TestStatus)
    ensures
        s@ is Pass <==> (parsed_config("font pango:Sans 11"@) matches Some(c) && c.font matches Some(f)
            && contains_seq(f, "Sans"@)),
{
    match parsed("font pango:Sans 11") {
        Some(config) => match &config.font {
            Some(font) => verdict(contains_str(font.as_str(), "Sans"), "font does not contain 'Sans'"),
            None => TestStatus::Fail(to_string("font not parsed")),
        },
        None => unparsed(),
    }
}

/// `client.urgent` sets the urgent border colour.
pub fn test_client_urgent_colors() -> (s: TestStatus)
    ensures
        s@ is Pass <==> (parsed_config("client.urgent #2f343a #900000 #ffffff #900000 #900000"@) matches Some(c) && c.client_urgent matches Some(cc)
            && cc.border@ == "#2f343a"@),
{
    match parsed("client.urgent #2f343a #900000 #ffffff #900000 #900000") {
        Some(config) => match &config.client_urgent {
            Some(cc) => verdict(str_eq(cc.border.as_str(), "#2f343a"), "expected border=#2f343a"),
            None => TestStatus::Fail(to_string("client_urgent not parsed")),
        },
        None => unparsed(),
    }
}

/// `client.placeholder` sets the placeholder border colour.
pub fn test_client_placeholder_colors() -> (s: TestStatus)
    ensures
        s@ is Pass <==> (parsed_config("client.placeholder #000000 #0c0c0c #ffffff #000000 #0c0c0c"@) matches Some(c) && c.client_placeholder matches Some(cc)
            && cc.border@ == "#000000"@),
{
    match parsed("client.placeholder #000000 #0c0c0c #ffffff #000000 #0c0c0c") {
        Some(config) => match &config.client_placeholder {
            Some(cc) => verdict(str_eq(cc.border.as_str(), "#000000"), "expected border=#000000"),
            None => TestStatus::Fail(to_string("client_placeholder not parsed")),
        },
        None => unparsed(),
    }
}

/// `client.background` is kept.
pub fn test_client_background_color() -> (s: TestStatus)
    ensures
        s@ is Pass <==> (parsed_config("client.background #ffffff"@) matches Some(c) && c.client_background == Some("#ffffff"@)),
{
    match parsed("client.background #ffffff") {
        Some(config) => verdict(opt_is(&config.client_background, "#ffffff"), "expected Some(\"#ffffff\")"),
        None => unparsed(),
    }
}

/// The appearance checks, in the order that [`register`] adds them.
pub open spec fn appearance_checks() -> Seq<TestInfo> {
    seq![
        check(Category::Appearance, "default_border_pixel"@, "default_border pixel"@, Priority::P1),
        check(Category::Appearance, "default_border_normal"@, "default_border normal"@, Priority::P1),
        check(Category::Appearance, "default_border_none"@, "default_border none"@, Priority::P1),
        check(Category::Appearance, "font_config"@, "font"@, Priority::P1),
        check(Category::Appearance, "gaps_visual"@, "gaps"@, Priority::P1),
        check(Category::Appearance, "client_colors"@, "client colors"@, Priority::P2),
        check(Category::Appearance, "title_format"@, "title_format"@, Priority::P2),
        check(Category::Appearance, "gaps_inner_outer_combined"@, "gaps inner/outer combined"@, Priority::P1),
        check(Category::Appearance, "default_floating_border"@, "default_floating_border"@, Priority::P1),
        check(Category::Appearance, "border_command"@, "border none/normal/pixel"@, Priority::P1),
        check(Category::Appearance, "border_toggle"@, "border toggle"@, Priority::P2),
        check(Category::Appearance, "hide_edge_borders"@, "hide_edge_borders"@, Priority::P1),
        check(Category::Appearance, "smart_borders"@, "smart_borders on/off"@, Priority::P1),
        check(Category::Appearance, "smart_gaps"@, "smart_gaps on/off"@, Priority::P1),
        check(Category::Appearance, "opacity_command"@, "opacity set/plus/minus"@, Priority::P2),
        check(Category::Appearance, "titlebar_border_thickness"@, "titlebar_border_thickness"@, Priority::P2),
        check(Category::Appearance, "titlebar_padding"@, "titlebar_padding"@, Priority::P2),
        check(Category::Appearance, "client_focused_colors"@, "client.focused"@, Priority::P1),
        check(Category::Appearance, "client_unfocused_colors"@, "client.unfocused"@, Priority::P1),
        check(Category::Appearance, "default_border_zero_pixel"@, "default_border pixel 0"@, Priority::P1),
        check(Category::Appearance, "gaps_zero"@, "gaps zero"@, Priority::P1),
        check(Category::Appearance, "font_pango_prefix"@, "font pango prefix"@, Priority::P1),
        check(Category::Appearance, "client_urgent_colors"@, "client.urgent"@, Priority::P1),
        check(Category::Appearance, "client_placeholder_colors"@, "client.placeholder"@, Priority::P2),
        check(Category::Appearance, "client_background_color"@, "client.background"@, Priority::P2),
    ]
}

/// Registers the appearance checks after those the harness holds.
#[verifier::rlimit(60)]
pub fn register(harness: &mut Harness)
    ensures
        infos(final(harness).tests()) == infos(old(harness).tests()) + appearance_checks(),
{
    reg(harness, Category::Appearance, "default_border_pixel", "default_border pixel N 配置", "default_border pixel", Priority::P1, test_default_border_pixel);
    reg(harness, Category::Appearance, "default_border_normal", "default_border normal N 配置", "default_border normal", Priority::P1, test_default_border_normal);
    reg(harness, Category::Appearance, "default_border_none", "default_border none 配置", "default_border none", Priority::P1, test_default_border_none);
    reg(harness, Category::Appearance, "font_config", "字体配置解析", "font", Priority::P1, test_font_config);
    reg(harness, Category::Appearance, "gaps_visual", "间距影响实际窗口几何", "gaps", Priority::P1, test_gaps_visual);
    reg(harness, Category::Appearance, "client_colors", "client.focused 等颜色配置", "client colors", Priority::P2, test_client_colors);
    reg(harness, Category::Appearance, "title_format", "窗口标题栏格式", "title_format", Priority::P2, test_title_format);
    reg(harness, Category::Appearance, "gaps_inner_outer_combined", "内外间距组合效果", "gaps inner/outer combined", Priority::P1, test_gaps_inner_outer_combined);
    reg(harness, Category::Appearance, "default_floating_border", "浮动窗口默认边框", "default_floating_border", Priority::P1, test_default_floating_border);
    reg(harness, Category::Appearance, "border_command", "边框命令", "border none/normal/pixel", Priority::P1, test_border_command);
    reg(harness, Category::Appearance, "border_toggle", "边框切换", "border toggle", Priority::P2, test_border_toggle);
    reg(harness, Category::Appearance, "hide_edge_borders", "隐藏边缘边框", "hide_edge_borders", Priority::P1, test_hide_edge_borders);
    reg(harness, Category::Appearance, "smart_borders", "智能边框", "smart_borders on/off", Priority::P1, test_smart_borders);
    reg(harness, Category::Appearance, "smart_gaps", "智能间距", "smart_gaps on/off", Priority::P1, test_smart_gaps);
    reg(harness, Category::Appearance, "opacity_command", "透明度命令", "opacity set/plus/minus", Priority::P2, test_opacity_command);
    reg(harness, Category::Appearance, "titlebar_border_thickness", "标题栏边框厚度", "titlebar_border_thickness", Priority::P2, test_titlebar_border_thickness);
    reg(harness, Category::Appearance, "titlebar_padding", "标题栏内边距", "titlebar_padding", Priority::P2, test_titlebar_padding);
    reg(harness, Category::Appearance, "client_focused_colors", "聚焦窗口颜色配置", "client.focused", Priority::P1, test_client_focused_colors);
    reg(harness, Category::Appearance, "client_unfocused_colors", "非聚焦窗口颜色配置", "client.unfocused", Priority::P1, test_client_unfocused_colors);
    reg(harness, Category::Appearance, "default_border_zero_pixel", "default_border pixel 0 无边框", "default_border pixel 0", Priority::P1, test_default_border_zero_pixel);
    reg(harness, Category::Appearance, "gaps_zero", "gaps inner 0 + gaps outer 0 无间距", "gaps zero", Priority::P1, test_gaps_zero);
    reg(harness, Category::Appearance, "font_pango_prefix", "font pango:Sans 11 解析", "font pango prefix", Priority::P1, test_font_pango_prefix);
    reg(harness, Category::Appearance, "client_urgent_colors", "client.urgent 颜色配置", "client.urgent", Priority::P1, test_client_urgent_colors);
    reg(harness, Category::Appearance, "client_placeholder_colors", "client.placeholder 颜色配置", "client.placeholder", Priority::P2, test_client_placeholder_colors);
    reg(harness, Category::Appearance, "client_background_color", "client.background 颜色配置", "client.background", Priority::P2, test_client_background_color);
    assert(infos(harness.tests()) =~= infos(old(harness).tests()) + appearance_checks());
}

} // verus!
