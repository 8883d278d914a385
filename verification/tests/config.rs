use tetris_bot::config::{
    default_fps, default_ghost_opacity, default_max_nodes, default_min_nodes,
    default_movement_mode, default_playstyle, default_tolerance, vk_pause, vk_toggle, AiConfig,
    BotConfig, CaptureConfig, HotkeyConfig, OverlayConfig, VisionConfig,
};

#[test]
fn defaults() {
    assert_eq!(default_fps(), 60);
    assert_eq!(default_tolerance(), 40);
    assert_eq!(default_playstyle(), "balanced");
    assert_eq!(default_max_nodes(), 400_000);
    assert_eq!(default_min_nodes(), 0);
    assert_eq!(default_movement_mode(), "hard_drop_only");
    assert_eq!(default_ghost_opacity(), 120);
    assert_eq!(vk_toggle(), 0x78);
    assert_eq!(vk_pause(), 0x79);
    assert_eq!(OverlayConfig::default().ghost_opacity, 120);
    let keys = HotkeyConfig::default();
    assert_eq!((keys.vk_toggle, keys.vk_pause), (0x78, 0x79));
}

#[test]
fn the_board_lies_relative_to_the_captured_region() {
    let cfg = BotConfig {
        capture: CaptureConfig { x: 100, y: 50, width: 1920, height: 1080, target_fps: 60 },
        vision: VisionConfig {
            board_x: 733,
            board_y: 86,
            cell_size: 45,
            hold_x: 618,
            hold_y: 190,
            next_positions: vec![(1310, 218)],
            color_tolerance: 40,
        },
        ai: AiConfig {
            playstyle: "balanced".to_string(),
            max_nodes: 400_000,
            min_nodes: 0,
            movement_mode: "hard_drop_only".to_string(),
        },
        overlay: OverlayConfig::default(),
        hotkeys: HotkeyConfig::default(),
    };
    assert_eq!(cfg.board_origin(), (833, 136));
}
