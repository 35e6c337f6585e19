//! What the engine hands to and takes from the window system and the
//! renderer at the frame boundary.

use vstd::prelude::*;

verus! {

#[derive(Default, Debug, PartialEq, Eq, Clone, Copy, Structural)]
pub enum WinsysBackend {
    #[default]
    Angle,
    Gles2,
    Gl3,
    Wgpu,
}

pub struct WinsysInitInfo {
    pub requested_backend: WinsysBackend,
}

#[derive(Clone, Debug)]
pub struct WinsysUpdateInfo {
    pub title: String,
    pub res_x: u32,
    pub res_y: u32,
    pub res_changed: bool,
    pub use_fullscreen: bool,
    pub vsync: bool,
    pub mouse_locked: bool,
}

impl Default for WinsysUpdateInfo {
    /// No title, no resolution, windowed, with vsync and a free mouse.
    fn default() -> (r: Self)
        ensures
            r.title@.len() == 0,
            r.res_x == 0,
            r.res_y == 0,
            !r.res_changed,
            !r.use_fullscreen,
            r.vsync,
            !r.mouse_locked,
    {
        WinsysUpdateInfo {
            title: String::new(),
            res_x: 0,
            res_y: 0,
            res_changed: false,
            use_fullscreen: false,
            vsync: true,
            mouse_locked: false,
        }
    }
}

#[derive(Clone, Debug)]
pub struct WinsysOutput {
    pub update_info: WinsysUpdateInfo,
    pub major: u16,
    pub minor: u16,
    pub dpi: u16,
    pub backend: WinsysBackend,
    pub mouse_moved: bool,
    pub done: bool,
}

impl Default for WinsysOutput {
    fn default() -> (r: Self)
        ensures
            r.update_info.title@.len() == 0,
            r.major == 0 && r.minor == 0 && r.dpi == 0,
            r.backend == WinsysBackend::Angle,
            !r.mouse_moved,
            !r.done,
    {
        WinsysOutput {
            update_info: WinsysUpdateInfo::default(),
            major: 0,
            minor: 0,
            dpi: 0,
            backend: WinsysBackend::Angle,
            mouse_moved: false,
            done: false,
        }
    }
}

#[derive(Clone, Debug, Copy, Default, PartialEq, Eq, Structural)]
pub enum RendererShadingMode {
    #[default]
    Regular,
    Normals,
}

#[derive(Clone, Debug, Copy, PartialEq, Eq, Structural)]
pub struct RendererUpdateInfo {
    pub use_hdr: bool,
    pub use_wireframe: bool,
    pub use_light_indexed_rendering: bool,
    pub render_bounding_boxes: bool,
    pub render_bounding_spheres: bool,
    pub use_z_prepass: bool,
    pub restart_renderer: bool,
    pub shading_mode: RendererShadingMode,
}

impl RendererUpdateInfo {
    /// Every option off, regular shading.
    pub open spec fn spec_default() -> Self {
        RendererUpdateInfo {
            use_hdr: false,
            use_wireframe: false,
            use_light_indexed_rendering: false,
            render_bounding_boxes: false,
            render_bounding_spheres: false,
            use_z_prepass: false,
            restart_renderer: false,
            shading_mode: RendererShadingMode::Regular,
        }
    }
}

impl Default for RendererUpdateInfo {
    /// Every option off, regular shading.
    fn default() -> (r: Self)
        ensures
            r == RendererUpdateInfo::spec_default(),
    {
        RendererUpdateInfo {
            use_hdr: false,
            use_wireframe: false,
            use_light_indexed_rendering: false,
            render_bounding_boxes: false,
            render_bounding_spheres: false,
            use_z_prepass: false,
            restart_renderer: false,
            shading_mode: RendererShadingMode::Regular,
        }
    }
}

/// A window system as the frame loop sees it.
pub trait WinsysBaseTrait {
    /// Turns the window system's pending input into broadcasts.
    fn update_events_single_thread(&mut self);

    /// The window was closed.
    fn is_done(&self) -> bool;

    /// Applies `update_info` to the window and reports its state.
    fn update_window(&mut self, update_info: WinsysUpdateInfo) -> WinsysOutput;
}

/// A window system without a window: it applies nothing and is done at once.
pub struct DummyWinsys;

impl WinsysBaseTrait for DummyWinsys {
    fn update_events_single_thread(&mut self) {
    }

    fn is_done(&self) -> bool {
        true
    }

    fn update_window(&mut self, update_info: WinsysUpdateInfo) -> WinsysOutput {
        WinsysOutput::default()
    }
}

} // verus!
