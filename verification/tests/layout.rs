//! Window layouts.

use ivyterm::tmux_api::parse_layout::parse_tmux_layout;
use ivyterm::tmux_api::{LayoutFlags, Orientation, Rectangle, TmuxPane};

fn rect(width: i32, height: i32, x: i32, y: i32) -> Rectangle {
    Rectangle { x, y, width, height }
}

#[test]
fn nested_layouts_are_read() {
    let line = b"@3 a1b2,80x24,0,0{40x24,0,0,1,39x24,41,0[39x12,41,0,2,39x11,41,13,3]} a1b2,80x24,0,0,1 *Z my window";
    let sync = parse_tmux_layout(line).unwrap();
    assert_eq!(sync.tab_id, 3);
    assert_eq!(
        sync.layout,
        vec![
            TmuxPane::Container(Orientation::Horizontal, rect(80, 24, 0, 0)),
            TmuxPane::Terminal(1, rect(40, 24, 0, 0)),
            TmuxPane::Container(Orientation::Vertical, rect(39, 24, 41, 0)),
            TmuxPane::Terminal(2, rect(39, 12, 41, 0)),
            TmuxPane::Terminal(3, rect(39, 11, 41, 13)),
            TmuxPane::Return,
            TmuxPane::Return,
        ]
    );
    assert_eq!(sync.visible_layout, vec![TmuxPane::Terminal(1, rect(80, 24, 0, 0))]);
    assert!(sync.flags.contains(LayoutFlags::HasFocus));
    assert!(sync.flags.contains(LayoutFlags::IsZoomed));
    assert_eq!(sync.name.as_deref(), Some("my window"));
}

#[test]
fn flags_and_name_may_be_missing() {
    let sync = parse_tmux_layout(b"@0 b25d,80x24,0,0,0 b25d,80x24,0,0,0 ").unwrap();
    assert!(!sync.flags.contains(LayoutFlags::HasFocus));
    assert!(!sync.flags.contains(LayoutFlags::IsZoomed));
    assert_eq!(sync.name, None);
    let sync = parse_tmux_layout(b"@0 b25d,80x24,0,0,0 b25d,80x24,0,0,0  name").unwrap();
    assert_eq!(sync.name.as_deref(), Some("name"));
}

#[test]
fn malformed_layouts_are_rejected() {
    for line in [
        "",
        "3 b25d,80x24,0,0,0 b25d,80x24,0,0,0 *",
        "@x b25d,80x24,0,0,0 b25d,80x24,0,0,0 *",
        "@3 b25d,80x24,0,0,0",
        "@3 b25d,80x24,0,0,0 b25d,80x24,0,0,0",
        "@3 b25d,80x24,0,0 b25d,80x24,0,0,0 *",
        "@3 b25d,80x24,0,0{40x24,0,0,1] b25d,80x24,0,0,0 *",
        "@3 b25d,80x24,0,0{} b25d,80x24,0,0,0 *",
        "@3 b25d,80x24,0,0,0x b25d,80x24,0,0,0 *",
        "@3 b25d,99999999999x24,0,0,0 b25d,80x24,0,0,0 *",
    ] {
        assert!(parse_tmux_layout(line.as_bytes()).is_none(), "{}", line);
    }
}
