//! Checks of outputs: their settings, several outputs in one tree, and the
//! JSON shape of the output records of the IPC protocol.

use super::{
    any, check, infos, lemma_exists_image, opt_is, parsed, parsed_config, reg, reg_fn, unparsed, verdict,
};
use crate::config::types::{OutputConfig, OutputModel};
use crate::harness::suite::{Category, Harness, Priority, TestFn, TestInfo, TestStatus};
use crate::text::{str_eq, to_string};
use crate::tiling::tree::{Rect, Tree};
use crate::tiling::workspace::{add_output, add_workspace};
use vstd::prelude::*;

verus! {

/// The output checks that read a library value back from its JSON form. The
/// JSON encoding of library types stands outside the library, so these
/// functions are handed in by whoever registers the checks.
pub struct OutputJsonChecks {
    /// An output record carries its name, scale and activity.
    pub ipc_output_info: TestFn,
    /// A rectangle has the fields `x`, `y`, `width` and `height`.
    pub ipc_rect_fields: TestFn,
    /// A mode has the fields `width`, `height` and `refresh`.
    pub ipc_mode_fields: TestFn,
}

/// Output `name` at `w` x `h`.
pub open spec fn sized(o: OutputModel, name: Seq<char>, w: u32, h: u32) -> bool {
    o.name == name && o.resolution == Some((w, h))
}

/// Output `eDP-1` with the scale written `2`.
pub open spec fn scaled_two(o: OutputModel) -> bool {
    o.name == "eDP-1"@ && o.scale == Some("2"@)
}

/// Output `eDP-1` at the origin.
pub open spec fn at_origin(o: OutputModel) -> bool {
    o.name == "eDP-1"@ && o.position == Some((0i32, 0i32))
}

/// Output `eDP-1` with a transform.
pub open spec fn transformed(o: OutputModel) -> bool {
    o.name == "eDP-1"@ && o.transform is Some
}

/// Output `eDP-1` with a refresh rate.
pub open spec fn has_refresh(o: OutputModel) -> bool {
    o.name == "eDP-1"@ && o.refresh_rate is Some
}

/// Output `name` enabled (or disabled, where `on` is false).
pub open spec fn enabled_as(o: OutputModel, name: Seq<char>, on: bool) -> bool {
    o.name == name && o.enable == Some(on)
}

/// Output `eDP-1` with power on.
pub open spec fn powered(o: OutputModel) -> bool {
    o.name == "eDP-1"@ && o.power == Some(true)
}

/// Output `eDP-1` with DPMS on.
pub open spec fn dpms_on(o: OutputModel) -> bool {
    o.name == "eDP-1"@ && o.dpms == Some(true)
}

/// Output `name` with the background `source` in mode `mode`.
pub open spec fn background(o: OutputModel, name: Seq<char>, source: Seq<char>, mode: Seq<char>) -> bool {
    &&& o.name == name
    &&& o.bg matches Some(bg) && bg.source@ == source && bg.mode@ == mode
}

/// Output `eDP-1` with the scale filter `linear`.
pub open spec fn linear_filter(o: OutputModel) -> bool {
    o.name == "eDP-1"@ && o.scale_filter == Some("linear"@)
}

/// Output `eDP-1` with adaptive sync on.
pub open spec fn adaptive(o: OutputModel) -> bool {
    o.name == "eDP-1"@ && o.adaptive_sync == Some(true)
}

/// Output `eDP-1` with RGB subpixels.
pub open spec fn rgb_subpixel(o: OutputModel) -> bool {
    o.name == "eDP-1"@ && o.subpixel == Some("rgb"@)
}

/// The output `*`.
pub open spec fn wildcard(o: OutputModel) -> bool {
    o.name == "*"@
}

/// Output `eDP-1` with a maximum render time of 5 ms.
pub open spec fn render_time_5(o: OutputModel) -> bool {
    o.name == "eDP-1"@ && o.max_render_time == Some(5i32)
}

/// Output `eDP-1` with the colour profile `srgb`.
pub open spec fn srgb(o: OutputModel) -> bool {
    o.name == "eDP-1"@ && o.color_profile == Some("srgb"@)
}

/// Output `eDP-1` that allows tearing.
pub open spec fn tearing(o: OutputModel) -> bool {
    o.name == "eDP-1"@ && o.allow_tearing == Some(true)
}

/// Whether an output has the background `source` in mode `mode`.
pub fn has_background(o: &OutputConfig, source: &str, mode: &str) -> (b: bool)
    ensures
        b == (o@.bg matches Some(bg) && bg.source@ == source@ && bg.mode@ == mode@),
{
    match &o.bg {
        Some(bg) => str_eq(bg.source.as_str(), source) && str_eq(bg.mode.as_str(), mode),
        None => false,
    }
}

/// `output eDP-1 resolution 2560x1440` sets the mode.
pub fn test_output_config_resolution() -> (s: TestStatus)
    ensures
        s@ is Pass <==> (parsed_config("output eDP-1 resolution 2560x1440"@) matches Some(c)
            && exists|i: int| 0 <= i < c.outputs.len() && sized(c.outputs[i], "eDP-1"@, 2560u32, 1440u32)),
{
    match parsed("output eDP-1 resolution 2560x1440") {
        Some(config) => {
            let pred = |x: &OutputConfig| -> (b: bool)
                ensures
                    b == sized(x@, "eDP-1"@, 2560u32, 1440u32),
                {
                    str_eq(x.name.as_str(), "eDP-1") && match x.resolution { Some((w, h)) => w == 2560 && h == 1440, None => false }
                };
            let ghost f: spec_fn(OutputConfig) -> OutputModel = |x: OutputConfig| x@;
            let ghost q: spec_fn(OutputModel) -> bool = |m: OutputModel| sized(m, "eDP-1"@, 2560u32, 1440u32);
            let found = any::<OutputConfig, OutputModel, _>(&config.outputs, pred, Ghost(f), Ghost(q));
            proof {
                lemma_exists_image(config.outputs@, config@.outputs, f, q);
            }
            verdict(found, "output resolution not parsed")
        },
        None => unparsed(),
    }
}

/// `output eDP-1 scale 2` sets the scale (kept as the text that was written).
pub fn test_output_config_scale() -> (s: TestStatus)
    ensures
        s@ is Pass <==> (parsed_config("output eDP-1 scale 2"@) matches Some(c)
            && exists|i: int| 0 <= i < c.outputs.len() && scaled_two(c.outputs[i])),
{
    match parsed("output eDP-1 scale 2") {
        Some(config) => {
            let pred = |x: &OutputConfig| -> (b: bool)
                ensures
                    b == scaled_two(x@),
                {
                    str_eq(x.name.as_str(), "eDP-1") && opt_is(&x.scale, "2")
                };
            let ghost f: spec_fn(OutputConfig) -> OutputModel = |x: OutputConfig| x@;
            let ghost q: spec_fn(OutputModel) -> bool = |m: OutputModel| scaled_two(m);
            let found = any::<OutputConfig, OutputModel, _>(&config.outputs, pred, Ghost(f), Ghost(q));
            proof {
                lemma_exists_image(config.outputs@, config@.outputs, f, q);
            }
            verdict(found, "output scale not parsed")
        },
        None => unparsed(),
    }
}

/// `output eDP-1 position 0,0` places the output.
pub fn test_output_config_position() -> (s: TestStatus)
    ensures
        s@ is Pass <==> (parsed_config("output eDP-1 position 0,0"@) matches Some(c)
            && exists|i: int| 0 <= i < c.outputs.len() && at_origin(c.outputs[i])),
{
    match parsed("output eDP-1 position 0,0") {
        Some(config) => {
            let pred = |x: &OutputConfig| -> (b: bool)
                ensures
                    b == at_origin(x@),
                {
                    str_eq(x.name.as_str(), "eDP-1") && match x.position { Some((px, py)) => px == 0 && py == 0, None => false }
                };
            let ghost f: spec_fn(OutputConfig) -> OutputModel = |x: OutputConfig| x@;
            let ghost q: spec_fn(OutputModel) -> bool = |m: OutputModel| at_origin(m);
            let found = any::<OutputConfig, OutputModel, _>(&config.outputs, pred, Ghost(f), Ghost(q));
            proof {
                lemma_exists_image(config.outputs@, config@.outputs, f, q);
            }
            verdict(found, "output position not parsed")
        },
        None => unparsed(),
    }
}

/// `output eDP-1 transform 90` sets a transform.
pub fn test_output_config_transform() -> (s: TestStatus)
    ensures
        s@ is Pass <==> (parsed_config("output eDP-1 transform 90"@) matches Some(c)
            && exists|i: int| 0 <= i < c.outputs.len() && transformed(c.outputs[i])),
{
    match parsed("output eDP-1 transform 90") {
        Some(config) => {
            let pred = |x: &OutputConfig| -> (b: bool)
                ensures
                    b == transformed(x@),
                {
                    str_eq(x.name.as_str(), "eDP-1") && x.transform.is_some()
                };
            let ghost f: spec_fn(OutputConfig) -> OutputModel = |x: OutputConfig| x@;
            let ghost q: spec_fn(OutputModel) -> bool = |m: OutputModel| transformed(m);
            let found = any::<OutputConfig, OutputModel, _>(&config.outputs, pred, Ghost(f), Ghost(q));
            proof {
                lemma_exists_image(config.outputs@, config@.outputs, f, q);
            }
            verdict(found, "output transform not parsed")
        },
        None => unparsed(),
    }
}

/// Two outputs, each with a workspace, both hang under the root.
pub fn test_multi_output_tiling() -> (s: TestStatus)
    ensures
        s@ is Pass,
{
    let mut tree = Tree::new();
    if !tree.has_room(4) {
        return TestStatus::Fail(to_string("no room for the outputs"));
    }
    let screen1 = Rect::new(0, 0, 1920, 1080);
    let screen2 = Rect::new(1920, 0, 2560, 1440);
    proof {
        tree.lemma_wf_root();
    }
    let ghost t0 = tree;
    let out1 = add_output(&mut tree, "eDP-1", screen1);
    assert(out1.0 != 0) by {
        t0.lemma_wf_root();
    }
    let ghost t1 = tree;
    proof {
        t1.lemma_wf_root();
    }
    let out2 = add_output(&mut tree, "HDMI-1", screen2);
    assert(out1 != out2);
    assert(tree.slots()[out1.0 as int] == t1.slots()[out1.0 as int]);
    let ghost t2 = tree;
    proof {
        t2.lemma_wf_root();
    }
    add_workspace(&mut tree, out1, "1");
    let ghost t3 = tree;
    proof {
        t3.lemma_wf_root();
    }
    add_workspace(&mut tree, out2, "2");
    proof {
        tree.lemma_wf_root();
    }
    let root = tree.root();
    let n = tree.children(root).len();
    if n == 2 {
        TestStatus::Pass
    } else {
        TestStatus::Fail(to_string("expected 2 outputs"))
    }
}

/// A refresh rate after `@` is kept.
pub fn test_output_refresh_rate() -> (s: TestStatus)
    ensures
        s@ is Pass <==> (parsed_config("output eDP-1 resolution 1920x1080@60"@) matches Some(c)
            && exists|i: int| 0 <= i < c.outputs.len() && has_refresh(c.outputs[i])),
{
    match parsed("output eDP-1 resolution 1920x1080@60") {
        Some(config) => {
            let pred = |x: &OutputConfig| -> (b: bool)
                ensures
                    b == has_refresh(x@),
                {
                    str_eq(x.name.as_str(), "eDP-1") && x.refresh_rate.is_some()
                };
            let ghost f: spec_fn(OutputConfig) -> OutputModel = |x: OutputConfig| x@;
            let ghost q: spec_fn(OutputModel) -> bool = |m: OutputModel| has_refresh(m);
            let found = any::<OutputConfig, OutputModel, _>(&config.outputs, pred, Ghost(f), Ghost(q));
            proof {
                lemma_exists_image(config.outputs@, config@.outputs, f, q);
            }
            verdict(found, "refresh rate not parsed")
        },
        None => unparsed(),
    }
}

/// Two `output` lines give two outputs.
pub fn test_output_multiple_configs() -> (s: TestStatus)
    ensures
        s@ is Pass <==> (parsed_config("output eDP-1 resolution 1920x1080\noutput HDMI-1 resolution 2560x1440"@) matches Some(c) && c.outputs.len() == 2),
{
    match parsed("output eDP-1 resolution 1920x1080\noutput HDMI-1 resolution 2560x1440") {
        Some(config) => verdict(config.outputs.len() == 2, "expected 2 outputs"),
        None => unparsed(),
    }
}

/// `enable` and `disable` are recorded per output.
pub fn test_output_enable_disable() -> (s: TestStatus)
    ensures
        s@ is Pass <==> (parsed_config("output eDP-1 enable\noutput HDMI-1 disable"@) matches Some(c)
            && (exists|i: int| 0 <= i < c.outputs.len() && enabled_as(c.outputs[i], "eDP-1"@, true))
            && (exists|i: int| 0 <= i < c.outputs.len() && enabled_as(c.outputs[i], "HDMI-1"@, false))),
{
    match parsed("output eDP-1 enable\noutput HDMI-1 disable") {
        Some(config) => {
            let ghost f: spec_fn(OutputConfig) -> OutputModel = |x: OutputConfig| x@;
            let pred1 = |x: &OutputConfig| -> (b: bool)
                ensures
                    b == enabled_as(x@, "eDP-1"@, true),
                {
                    str_eq(x.name.as_str(), "eDP-1") && match x.enable {
                        Some(e) => e,
                        None => false,
                    }
                };
            let ghost q1: spec_fn(OutputModel) -> bool = |m: OutputModel| enabled_as(m, "eDP-1"@, true);
            let edp_enable = any::<OutputConfig, OutputModel, _>(&config.outputs, pred1, Ghost(f), Ghost(q1));
            let pred2 = |x: &OutputConfig| -> (b: bool)
                ensures
                    b == enabled_as(x@, "HDMI-1"@, false),
                {
                    str_eq(x.name.as_str(), "HDMI-1") && match x.enable {
                        Some(e) => !e,
                        None => false,
                    }
                };
            let ghost q2: spec_fn(OutputModel) -> bool = |m: OutputModel| enabled_as(m, "HDMI-1"@, false);
            let hdmi_disable = any::<OutputConfig, OutputModel, _>(&config.outputs, pred2, Ghost(f), Ghost(q2));
            proof {
                lemma_exists_image(config.outputs@, config@.outputs, f, q1);
                lemma_exists_image(config.outputs@, config@.outputs, f, q2);
            }
            verdict(edp_enable && hdmi_disable, "enable/disable not parsed correctly")
        },
        None => unparsed(),
    }
}

/// `disable` is recorded (the toggle itself is a runtime action).
pub fn test_output_toggle() -> (s: TestStatus)
    ensures
        s@ is Pass <==> (parsed_config("output eDP-1 disable"@) matches Some(c)
            && exists|i: int| 0 <= i < c.outputs.len() && enabled_as(c.outputs[i], "eDP-1"@, false)),
{
    match parsed("output eDP-1 disable") {
        Some(config) => {
            let pred = |x: &OutputConfig| -> (b: bool)
                ensures
                    b == enabled_as(x@, "eDP-1"@, false),
                {
                    str_eq(x.name.as_str(), "eDP-1") && match x.enable { Some(e) => !e, None => false }
                };
            let ghost f: spec_fn(OutputConfig) -> OutputModel = |x: OutputConfig| x@;
            let ghost q: spec_fn(OutputModel) -> bool = |m: OutputModel| enabled_as(m, "eDP-1"@, false);
            let found = any::<OutputConfig, OutputModel, _>(&config.outputs, pred, Ghost(f), Ghost(q));
            proof {
                lemma_exists_image(config.outputs@, config@.outputs, f, q);
            }
            verdict(found, "enable field not parsed for disable")
        },
        None => unparsed(),
    }
}

/// `power on` is recorded.
pub fn test_output_power() -> (s: TestStatus)
    ensures
        s@ is Pass <==> (parsed_config("output eDP-1 power on"@) matches Some(c)
            && exists|i: int| 0 <= i < c.outputs.len() && powered(c.outputs[i])),
{
    match parsed("output eDP-1 power on") {
        Some(config) => {
            let pred = |x: &OutputConfig| -> (b: bool)
                ensures
                    b == powered(x@),
                {
                    str_eq(x.name.as_str(), "eDP-1") && match x.power { Some(e) => e, None => false }
                };
            let ghost f: spec_fn(OutputConfig) -> OutputModel = |x: OutputConfig| x@;
            let ghost q: spec_fn(OutputModel) -> bool = |m: OutputModel| powered(m);
            let found = any::<OutputConfig, OutputModel, _>(&config.outputs, pred, Ghost(f), Ghost(q));
            proof {
                lemma_exists_image(config.outputs@, config@.outputs, f, q);
            }
            verdict(found, "power not parsed correctly")
        },
        None => unparsed(),
    }
}

/// `dpms on` is recorded.
pub fn test_output_dpms() -> (s: TestStatus)
    ensures
        s@ is Pass <==> (parsed_config("output eDP-1 dpms on"@) matches Some(c)
            && exists|i: int| 0 <= i < c.outputs.len() && dpms_on(c.outputs[i])),
{
    match parsed("output eDP-1 dpms on") {
        Some(config) => {
            let pred = |x: &OutputConfig| -> (b: bool)
                ensures
                    b == dpms_on(x@),
                {
                    str_eq(x.name.as_str(), "eDP-1") && match x.dpms { Some(e) => e, None => false }
                };
            let ghost f: spec_fn(OutputConfig) -> OutputModel = |x: OutputConfig| x@;
            let ghost q: spec_fn(OutputModel) -> bool = |m: OutputModel| dpms_on(m);
            let found = any::<OutputConfig, OutputModel, _>(&config.outputs, pred, Ghost(f), Ghost(q));
            proof {
                lemma_exists_image(config.outputs@, config@.outputs, f, q);
            }
            verdict(found, "dpms not parsed correctly")
        },
        None => unparsed(),
    }
}

/// A background image and its mode are recorded.
pub fn test_output_bg_image() -> (s: TestStatus)
    ensures
        s@ is Pass <==> (parsed_config("output eDP-1 bg /path/to/image.png fill"@) matches Some(c)
            && exists|i: int| 0 <= i < c.outputs.len() && background(c.outputs[i], "eDP-1"@, "/path/to/image.png"@, "fill"@)),
{
    match parsed("output eDP-1 bg /path/to/image.png fill") {
        Some(config) => {
            let pred = |x: &OutputConfig| -> (b: bool)
                ensures
                    b == background(x@, "eDP-1"@, "/path/to/image.png"@, "fill"@),
                {
                    str_eq(x.name.as_str(), "eDP-1") && has_background(x, "/path/to/image.png", "fill")
                };
            let ghost f: spec_fn(OutputConfig) -> OutputModel = |x: OutputConfig| x@;
            let ghost q: spec_fn(OutputModel) -> bool = |m: OutputModel| background(m, "eDP-1"@, "/path/to/image.png"@, "fill"@);
            let found = any::<OutputConfig, OutputModel, _>(&config.outputs, pred, Ghost(f), Ghost(q));
            proof {
                lemma_exists_image(config.outputs@, config@.outputs, f, q);
            }
            verdict(found, "bg image not parsed correctly")
        },
        None => unparsed(),
    }
}

/// A solid background colour is recorded.
pub fn test_output_bg_solid_color() -> (s: TestStatus)
    ensures
        s@ is Pass <==> (parsed_config("output * bg #000000 solid_color"@) matches Some(c)
            && exists|i: int| 0 <= i < c.outputs.len() && background(c.outputs[i], "*"@, "#000000"@, "solid_color"@)),
{
    match parsed("output * bg #000000 solid_color") {
        Some(config) => {
            let pred = |x: &OutputConfig| -> (b: bool)
                ensures
                    b == background(x@, "*"@, "#000000"@, "solid_color"@),
                {
                    str_eq(x.name.as_str(), "*") && has_background(x, "#000000", "solid_color")
                };
            let ghost f: spec_fn(OutputConfig) -> OutputModel = |x: OutputConfig| x@;
            let ghost q: spec_fn(OutputModel) -> bool = |m: OutputModel| background(m, "*"@, "#000000"@, "solid_color"@);
            let found = any::<OutputConfig, OutputModel, _>(&config.outputs, pred, Ghost(f), Ghost(q));
            proof {
                lemma_exists_image(config.outputs@, config@.outputs, f, q);
            }
            verdict(found, "bg solid_color not parsed correctly")
        },
        None => unparsed(),
    }
}

/// `scale_filter linear` is recorded.
pub fn test_output_scale_filter() -> (s: TestStatus)
    ensures
        s@ is Pass <==> (parsed_config("output eDP-1 scale_filter linear"@) matches Some(c)
            && exists|i: int| 0 <= i < c.outputs.len() && linear_filter(c.outputs[i])),
{
    match parsed("output eDP-1 scale_filter linear") {
        Some(config) => {
            let pred = |x: &OutputConfig| -> (b: bool)
                ensures
                    b == linear_filter(x@),
                {
                    str_eq(x.name.as_str(), "eDP-1") && opt_is(&x.scale_filter, "linear")
                };
            let ghost f: spec_fn(OutputConfig) -> OutputModel = |x: OutputConfig| x@;
            let ghost q: spec_fn(OutputModel) -> bool = |m: OutputModel| linear_filter(m);
            let found = any::<OutputConfig, OutputModel, _>(&config.outputs, pred, Ghost(f), Ghost(q));
            proof {
                lemma_exists_image(config.outputs@, config@.outputs, f, q);
            }
            verdict(found, "scale_filter not parsed correctly")
        },
        None => unparsed(),
    }
}

/// `adaptive_sync on` is recorded.
pub fn test_output_adaptive_sync() -> (s: TestStatus)
    ensures
        s@ is Pass <==> (parsed_config("output eDP-1 adaptive_sync on"@) matches Some(c)
            && exists|i: int| 0 <= i < c.outputs.len() && adaptive(c.outputs[i])),
{
    match parsed("output eDP-1 adaptive_sync on") {
        Some(config) => {
            let pred = |x: &OutputConfig| -> (b: bool)
                ensures
                    b == adaptive(x@),
                {
                    str_eq(x.name.as_str(), "eDP-1") && match x.adaptive_sync { Some(e) => e, None => false }
                };
            let ghost f: spec_fn(OutputConfig) -> OutputModel = |x: OutputConfig| x@;
            let ghost q: spec_fn(OutputModel) -> bool = |m: OutputModel| adaptive(m);
            let found = any::<OutputConfig, OutputModel, _>(&config.outputs, pred, Ghost(f), Ghost(q));
            proof {
                lemma_exists_image(config.outputs@, config@.outputs, f, q);
            }
            verdict(found, "adaptive_sync not parsed correctly")
        },
        None => unparsed(),
    }
}

/// `subpixel rgb` is recorded.
pub fn test_output_subpixel() -> (s: TestStatus)
    ensures
        s@ is Pass <==> (parsed_config("output eDP-1 subpixel rgb"@) matches Some(c)
            && exists|i: int| 0 <= i < c.outputs.len() && rgb_subpixel(c.outputs[i])),
{
    match parsed("output eDP-1 subpixel rgb") {
        Some(config) => {
            let pred = |x: &OutputConfig| -> (b: bool)
                ensures
                    b == rgb_subpixel(x@),
                {
                    str_eq(x.name.as_str(), "eDP-1") && opt_is(&x.subpixel, "rgb")
                };
            let ghost f: spec_fn(OutputConfig) -> OutputModel = |x: OutputConfig| x@;
            let ghost q: spec_fn(OutputModel) -> bool = |m: OutputModel| rgb_subpixel(m);
            let found = any::<OutputConfig, OutputModel, _>(&config.outputs, pred, Ghost(f), Ghost(q));
            proof {
                lemma_exists_image(config.outputs@, config@.outputs, f, q);
            }
            verdict(found, "subpixel not parsed correctly")
        },
        None => unparsed(),
    }
}

/// The output name `*` is kept.
pub fn test_output_config_name_wildcard() -> (s: TestStatus)
    ensures
        s@ is Pass <==> (parsed_config("output * bg #000000 solid_color"@) matches Some(c)
            && exists|i: int| 0 <= i < c.outputs.len() && wildcard(c.outputs[i])),
{
    match parsed("output * bg #000000 solid_color") {
        Some(config) => {
            let pred = |x: &OutputConfig| -> (b: bool)
                ensures
                    b == wildcard(x@),
                {
                    str_eq(x.name.as_str(), "*")
                };
            let ghost f: spec_fn(OutputConfig) -> OutputModel = |x: OutputConfig| x@;
            let ghost q: spec_fn(OutputModel) -> bool = |m: OutputModel| wildcard(m);
            let found = any::<OutputConfig, OutputModel, _>(&config.outputs, pred, Ghost(f), Ghost(q));
            proof {
                lemma_exists_image(config.outputs@, config@.outputs, f, q);
            }
            verdict(found, "wildcard output '*' not parsed")
        },
        None => unparsed(),
    }
}

/// `max_render_time 5` is recorded.
pub fn test_output_max_render_time() -> (s: TestStatus)
    ensures
        s@ is Pass <==> (parsed_config("output eDP-1 max_render_time 5"@) matches Some(c)
            && exists|i: int| 0 <= i < c.outputs.len() && render_time_5(c.outputs[i])),
{
    match parsed("output eDP-1 max_render_time 5") {
        Some(config) => {
            let pred = |x: &OutputConfig| -> (b: bool)
                ensures
                    b == render_time_5(x@),
                {
                    str_eq(x.name.as_str(), "eDP-1") && match x.max_render_time { Some(t) => t == 5, None => false }
                };
            let ghost f: spec_fn(OutputConfig) -> OutputModel = |x: OutputConfig| x@;
            let ghost q: spec_fn(OutputModel) -> bool = |m: OutputModel| render_time_5(m);
            let found = any::<OutputConfig, OutputModel, _>(&config.outputs, pred, Ghost(f), Ghost(q));
            proof {
                lemma_exists_image(config.outputs@, config@.outputs, f, q);
            }
            verdict(found, "max_render_time not parsed correctly")
        },
        None => unparsed(),
    }
}

/// `color_profile srgb` is recorded.
pub fn test_output_color_profile() -> (s: TestStatus)
    ensures
        s@ is Pass <==> (parsed_config("output eDP-1 color_profile srgb"@) matches Some(c)
            && exists|i: int| 0 <= i < c.outputs.len() && srgb(c.outputs[i])),
{
    match parsed("output eDP-1 color_profile srgb") {
        Some(config) => {
            let pred = |x: &OutputConfig| -> (b: bool)
                ensures
                    b == srgb(x@),
                {
                    str_eq(x.name.as_str(), "eDP-1") && opt_is(&x.color_profile, "srgb")
                };
            let ghost f: spec_fn(OutputConfig) -> OutputModel = |x: OutputConfig| x@;
            let ghost q: spec_fn(OutputModel) -> bool = |m: OutputModel| srgb(m);
            let found = any::<OutputConfig, OutputModel, _>(&config.outputs, pred, Ghost(f), Ghost(q));
            proof {
                lemma_exists_image(config.outputs@, config@.outputs, f, q);
            }
            verdict(found, "color_profile not parsed correctly")
        },
        None => unparsed(),
    }
}

/// `allow_tearing yes` is recorded.
pub fn test_output_allow_tearing() -> (s: TestStatus)
    ensures
        s@ is Pass <==> (parsed_config("output eDP-1 allow_tearing yes"@) matches Some(c)
            && exists|i: int| 0 <= i < c.outputs.len() && tearing(c.outputs[i])),
{
    match parsed("output eDP-1 allow_tearing yes") {
        Some(config) => {
            let pred = |x: &OutputConfig| -> (b: bool)
                ensures
                    b == tearing(x@),
                {
                    str_eq(x.name.as_str(), "eDP-1") && match x.allow_tearing { Some(e) => e, None => false }
                };
            let ghost f: spec_fn(OutputConfig) -> OutputModel = |x: OutputConfig| x@;
            let ghost q: spec_fn(OutputModel) -> bool = |m: OutputModel| tearing(m);
            let found = any::<OutputConfig, OutputModel, _>(&config.outputs, pred, Ghost(f), Ghost(q));
            proof {
                lemma_exists_image(config.outputs@, config@.outputs, f, q);
            }
            verdict(found, "allow_tearing not parsed correctly")
        },
        None => unparsed(),
    }
}

/// The output checks, in the order that [`register`] adds them.
pub open spec fn output_checks() -> Seq<TestInfo> {
    seq![
        check(Category::Output, "output_config_resolution"@, "output resolution"@, Priority::P0),
        check(Category::Output, "output_config_scale"@, "output scale"@, Priority::P1),
        check(Category::Output, "output_config_position"@, "output position"@, Priority::P1),
        check(Category::Output, "output_config_transform"@, "output transform"@, Priority::P2),
        check(Category::Output, "multi_output_tiling"@, "multi-output"@, Priority::P0),
        check(Category::Output, "ipc_output_info"@, "get_outputs"@, Priority::P0),
        check(Category::Output, "output_refresh_rate"@, "output refresh rate"@, Priority::P1),
        check(Category::Output, "output_multiple_configs"@, "multiple output configs"@, Priority::P1),
        check(Category::Output, "output_enable_disable"@, "output enable/disable"@, Priority::P1),
        check(Category::Output, "output_toggle"@, "output toggle"@, Priority::P2),
        check(Category::Output, "output_power"@, "output power on/off"@, Priority::P1),
        check(Category::Output, "output_dpms"@, "output dpms on/off"@, Priority::P2),
        check(Category::Output, "output_bg_image"@, "output bg <file> <mode>"@, Priority::P1),
        check(Category::Output, "output_bg_solid_color"@, "output bg <color> solid_color"@, Priority::P1),
        check(Category::Output, "output_scale_filter"@, "output scale_filter"@, Priority::P2),
        check(Category::Output, "output_adaptive_sync"@, "output adaptive_sync"@, Priority::P2),
        check(Category::Output, "output_subpixel"@, "output subpixel"@, Priority::P2),
        check(Category::Output, "output_config_name_wildcard"@, "output * wildcard"@, Priority::P1),
        check(Category::Output, "output_ipc_rect_fields"@, "IpcRect JSON fields"@, Priority::P0),
        check(Category::Output, "output_ipc_mode_fields"@, "IpcMode JSON fields"@, Priority::P0),
        check(Category::Output, "output_max_render_time"@, "output max_render_time"@, Priority::P2),
        check(Category::Output, "output_color_profile"@, "output color_profile"@, Priority::P2),
        check(Category::Output, "output_allow_tearing"@, "output allow_tearing"@, Priority::P2),
    ]
}

/// Registers the output checks after those the harness holds.
#[verifier::rlimit(60)]
pub fn register(harness: &mut Harness, json: OutputJsonChecks)
    ensures
        infos(final(harness).tests()) == infos(old(harness).tests()) + output_checks(),
{
    reg(harness, Category::Output, "output_config_resolution", "输出分辨率配置", "output resolution", Priority::P0, test_output_config_resolution);
    reg(harness, Category::Output, "output_config_scale", "输出缩放配置", "output scale", Priority::P1, test_output_config_scale);
    reg(harness, Category::Output, "output_config_position", "输出位置配置", "output position", Priority::P1, test_output_config_position);
    reg(harness, Category::Output, "output_config_transform", "输出旋转/镜像配置", "output transform", Priority::P2, test_output_config_transform);
    reg(harness, Category::Output, "multi_output_tiling", "多输出独立平铺树", "multi-output", Priority::P0, test_multi_output_tiling);
    reg_fn(harness, Category::Output, "ipc_output_info", "IPC get_outputs 响应格式", "get_outputs", Priority::P0, json.ipc_output_info);
    reg(harness, Category::Output, "output_refresh_rate", "输出刷新率配置", "output refresh rate", Priority::P1, test_output_refresh_rate);
    reg(harness, Category::Output, "output_multiple_configs", "多输出配置解析", "multiple output configs", Priority::P1, test_output_multiple_configs);
    reg(harness, Category::Output, "output_enable_disable", "输出启用/禁用", "output enable/disable", Priority::P1, test_output_enable_disable);
    reg(harness, Category::Output, "output_toggle", "输出切换", "output toggle", Priority::P2, test_output_toggle);
    reg(harness, Category::Output, "output_power", "输出电源开关", "output power on/off", Priority::P1, test_output_power);
    reg(harness, Category::Output, "output_dpms", "输出 DPMS 开关", "output dpms on/off", Priority::P2, test_output_dpms);
    reg(harness, Category::Output, "output_bg_image", "输出背景图片", "output bg <file> <mode>", Priority::P1, test_output_bg_image);
    reg(harness, Category::Output, "output_bg_solid_color", "输出纯色背景", "output bg <color> solid_color", Priority::P1, test_output_bg_solid_color);
    reg(harness, Category::Output, "output_scale_filter", "输出缩放过滤器", "output scale_filter", Priority::P2, test_output_scale_filter);
    reg(harness, Category::Output, "output_adaptive_sync", "输出自适应同步", "output adaptive_sync", Priority::P2, test_output_adaptive_sync);
    reg(harness, Category::Output, "output_subpixel", "输出子像素渲染", "output subpixel", Priority::P2, test_output_subpixel);
    reg(harness, Category::Output, "output_config_name_wildcard", "output * 通配符配置", "output * wildcard", Priority::P1, test_output_config_name_wildcard);
    reg_fn(harness, Category::Output, "output_ipc_rect_fields", "IpcRect 序列化包含 x/y/width/height", "IpcRect JSON fields", Priority::P0, json.ipc_rect_fields);
    reg_fn(harness, Category::Output, "output_ipc_mode_fields", "IpcMode 序列化包含 width/height/refresh", "IpcMode JSON fields", Priority::P0, json.ipc_mode_fields);
    reg(harness, Category::Output, "output_max_render_time", "output max_render_time 配置", "output max_render_time", Priority::P2, test_output_max_render_time);
    reg(harness, Category::Output, "output_color_profile", "output color_profile 配置", "output color_profile", Priority::P2, test_output_color_profile);
    reg(harness, Category::Output, "output_allow_tearing", "output allow_tearing 配置", "output allow_tearing", Priority::P2, test_output_allow_tearing);
    assert(infos(harness.tests()) =~= infos(old(harness).tests()) + output_checks());
}

} // verus!
