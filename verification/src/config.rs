//! Settings and their defaults.
use vstd::prelude::*;

verus! {

/// All settings.
#[derive(Debug)]
pub struct BotConfig {
    pub capture: CaptureConfig,
    pub vision: VisionConfig,
    pub ai: AiConfig,
    pub overlay: OverlayConfig,
    pub hotkeys: HotkeyConfig,
}

/// The captured region of the screen and the capture rate.
#[derive(Debug)]
pub struct CaptureConfig {
    pub x: u32,
    pub y: u32,
    pub width: u32,
    pub height: u32,
    pub target_fps: u32,
}

/// Where the board, the hold box and the next queue lie within the captured
/// region.
#[derive(Debug)]
pub struct VisionConfig {
    pub board_x: u32,
    pub board_y: u32,
    pub cell_size: u32,
    pub hold_x: u32,
    pub hold_y: u32,
    pub next_positions: Vec<(u32, u32)>,
    pub color_tolerance: u8,
}

/// How the engine plays and how long it thinks.
#[derive(Debug)]
pub struct AiConfig {
    pub playstyle: String,
    pub max_nodes: u32,
    pub min_nodes: u32,
    pub movement_mode: String,
}

/// How the overlay looks.
#[derive(Debug)]
pub struct OverlayConfig {
    pub ghost_opacity: u8,
}

/// The virtual key codes of the hotkeys.
#[derive(Debug)]
pub struct HotkeyConfig {
    pub vk_toggle: u16,
    pub vk_pause: u16,
}

impl Default for OverlayConfig {
    fn default() -> (cfg: Self)
        ensures
            cfg.ghost_opacity == 120,
    {
        OverlayConfig { ghost_opacity: default_ghost_opacity() }
    }
}

impl Default for HotkeyConfig {
    fn default() -> (cfg: Self)
        ensures
            cfg.vk_toggle == 0x78,
            cfg.vk_pause == 0x79,
    {
        HotkeyConfig { vk_toggle: vk_toggle(), vk_pause: vk_pause() }
    }
}

/// The capture rate if none is set.
pub fn default_fps() -> (fps: u32)
    ensures
        fps == 60,
{
    60
}

/// The colour tolerance if none is set.
pub fn default_tolerance() -> (tolerance: u8)
    ensures
        tolerance == 40,
{
    40
}

/// The playstyle if none is set.
pub fn default_playstyle() -> (playstyle: String)
    ensures
        playstyle@ == "balanced"@,
{
    "balanced".to_owned()
}

/// The upper bound on searched nodes if none is set.
pub fn default_max_nodes() -> (nodes: u32)
    ensures
        nodes == 400_000,
{
    400_000
}

/// The lower bound on searched nodes if none is set.
pub fn default_min_nodes() -> (nodes: u32)
    ensures
        nodes == 0,
{
    0
}

/// The movement mode if none is set.
pub fn default_movement_mode() -> (mode: String)
    ensures
        mode@ == "hard_drop_only"@,
{
    "hard_drop_only".to_owned()
}

/// The opacity of the ghost if none is set.
pub fn default_ghost_opacity() -> (opacity: u8)
    ensures
        opacity == 120,
{
    120
}

/// The start and stop key if none is set: F9.
pub fn vk_toggle() -> (vk: u16)
    ensures
        vk == 0x78,
{
    0x78
}

/// The pause key if none is set: F10.
pub fn vk_pause() -> (vk: u16)
    ensures
        vk == 0x79,
{
    0x79
}

impl BotConfig {
    /// The top-left corner of the board on the screen.
    pub fn board_origin(&self) -> (origin: (u32, u32))
        requires
            self.capture.x + self.vision.board_x <= u32::MAX,
            self.capture.y + self.vision.board_y <= u32::MAX,
        ensures
            origin.0 == self.capture.x + self.vision.board_x,
            origin.1 == self.capture.y + self.vision.board_y,
    {
        (self.capture.x + self.vision.board_x, self.capture.y + self.vision.board_y)
    }
}

} // verus!
