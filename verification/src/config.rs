//! What the viewer starts with.

use vstd::prelude::*;

verus! {

/// The layout that is opened first.
pub const DEFAULT_LAYOUT_PATH: &'static str = "/Users/liuyang/Desktop/xiaoyao/gdsii/FF_SAR_ADC.gds";

/// The title of the window.
pub const WINDOW_TITLE: &'static str = "flayout-wgpu";

/// The first width of the window, in logical pixels.
pub const INITIAL_WIDTH: u32 = 1440;

/// The first height of the window, in logical pixels.
pub const INITIAL_HEIGHT: u32 = 960;

} // verus!
