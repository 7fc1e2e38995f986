use friend_reader::document::{Document, DocumentElement, DocumentMetadata};
use friend_reader::layout::layout;
use friend_reader::presence::{ConnectedUser, Position};
use friend_reader::session::{
    classify_status, color_to_hex, is_dark, parse_hex_color, prepare_session, ui_background,
    ui_text_color, FetchStage, LoginError, LoginInfo, Rgb,
};
use friend_reader::server::{hash_password, ApiError};
use friend_reader::sync::SyncState;
use friend_reader::view::{
    clamp_peer_range, follow_step, needs_reflow, scroll_limit, FontChoice, LayoutParams,
    ScrollInput, Viewport,
};

fn peer(name: &str, start: usize) -> ConnectedUser {
    ConnectedUser {
        name: name.to_string(),
        color: "#ff0000".to_string(),
        position: Position::whole_elements(start, start),
    }
}

fn tall_layout() -> Vec<friend_reader::layout::LaidOutElement> {
    let elements = (0..10).map(|i| DocumentElement::Text { content: format!("{}", i) }).collect();
    let d = Document {
        metadata: DocumentMetadata { title: None, language: None, author: None },
        elements,
    };
    layout(&d, &vec![1000; 10], 0)
}

#[test]
fn follow_snaps_when_far() {
    assert_eq!(follow_step(0, 3000), 3000);
    assert_eq!(follow_step(5000, 0), 0);
}

#[test]
fn follow_moves_fast_then_slow() {
    assert_eq!(follow_step(0, 600), 50);
    assert_eq!(follow_step(0, 100), 20);
    assert_eq!(follow_step(100, 0), 80);
    assert_eq!(follow_step(0, 10), 10);
    assert_eq!(follow_step(0, 501), 50);
    assert_eq!(follow_step(0, 500), 20);
    assert_eq!(follow_step(0, 2000), 50);
    assert_eq!(follow_step(42, 42), 42);
}

#[test]
fn follow_tick_moves_toward_peer() {
    let l = tall_layout();
    let peers = vec![peer("ann", 3), peer("bob", 9)];
    let mut v = Viewport::new();
    v.toggle_follow(&"bob".to_string(), &"me".to_string());
    assert_eq!(v.following, Some("bob".to_string()));
    v.follow_tick(&peers, &l);
    assert_eq!(v.scroll, 9000);
    v.toggle_follow(&"ann".to_string(), &"me".to_string());
    v.follow_tick(&peers, &l);
    assert_eq!(v.scroll, 3000);
    v.scroll = 2900;
    v.follow_tick(&peers, &l);
    assert_eq!(v.scroll, 2920);
}

#[test]
fn manual_input_stops_following() {
    let l = tall_layout();
    let peers = vec![peer("ann", 5)];
    for input in [
        ScrollInput::Wheel { delta_tenths: 5 },
        ScrollInput::ArrowDown,
        ScrollInput::ArrowUp,
        ScrollInput::PageDown,
        ScrollInput::Escape,
        ScrollInput::StopFollowing,
        ScrollInput::Disconnect,
    ] {
        let mut v = Viewport::new();
        v.toggle_follow(&"ann".to_string(), &"me".to_string());
        v.follow_tick(&peers, &l);
        v.apply_input(input, 500, 10000);
        assert_eq!(v.following, None);
        let after = v.scroll;
        v.follow_tick(&peers, &l);
        v.follow_tick(&peers, &l);
        assert_eq!(v.scroll, after);
    }
}

#[test]
fn wheel_inside_deadzone_keeps_following() {
    let mut v = Viewport::new();
    v.toggle_follow(&"ann".to_string(), &"me".to_string());
    v.apply_input(ScrollInput::Wheel { delta_tenths: 1 }, 500, 1000);
    assert_eq!(v.following, Some("ann".to_string()));
}

#[test]
fn scrolling_inputs_move_viewport() {
    let mut v = Viewport::new();
    v.apply_input(ScrollInput::ArrowDown, 500, 1000);
    assert_eq!(v.scroll, 50);
    v.apply_input(ScrollInput::PageDown, 500, 1000);
    assert_eq!(v.scroll, 450);
    v.apply_input(ScrollInput::Wheel { delta_tenths: -1000 }, 500, 1000);
    assert_eq!(v.scroll, 550);
    v.apply_input(ScrollInput::Wheel { delta_tenths: -100000 }, 500, 1000);
    assert_eq!(v.scroll, 1000);
    v.apply_input(ScrollInput::Wheel { delta_tenths: 100000 }, 500, 1000);
    assert_eq!(v.scroll, 0);
    v.apply_input(ScrollInput::ArrowUp, 500, 1000);
    assert_eq!(v.scroll, 0);
}

#[test]
fn toggling_self_or_followed_peer_stops() {
    let mut v = Viewport::new();
    v.toggle_follow(&"me".to_string(), &"me".to_string());
    assert_eq!(v.following, None);
    v.toggle_follow(&"ann".to_string(), &"me".to_string());
    v.toggle_follow(&"ann".to_string(), &"me".to_string());
    assert_eq!(v.following, None);
}

#[test]
fn jump_to_checks_bounds() {
    let l = tall_layout();
    let mut v = Viewport::new();
    v.jump_to(&l, 4);
    assert_eq!(v.scroll, 4000);
    v.jump_to(&l, 40);
    assert_eq!(v.scroll, 4000);
}

#[test]
fn scroll_limit_counts_spacing_and_margin() {
    let l = tall_layout();
    assert_eq!(scroll_limit(&l, 10, 700), 10000 + 100 + 100 - 700);
    assert_eq!(scroll_limit(&l[..0].to_vec(), 10, 700), 0);
}

#[test]
fn unchanged_range_is_debounced() {
    let mut s = SyncState::new();
    let first = s.plan_tick((3, 5), 1000);
    assert_eq!(first.push, Some((3, 5)));
    assert!(first.pull);
    assert_eq!(s.plan_tick((3, 5), 1100).push, None);
    assert_eq!(s.plan_tick((3, 5), 1249).push, None);
    assert_eq!(s.plan_tick((3, 5), 1250).push, Some((3, 5)));
}

#[test]
fn changed_range_is_pushed_at_once() {
    let mut s = SyncState::new();
    s.plan_tick((3, 5), 1000);
    assert_eq!(s.plan_tick((4, 6), 1001).push, Some((4, 6)));
    assert_eq!(s.plan_tick((3, 5), 1002).push, Some((3, 5)));
}

#[test]
fn failed_pull_keeps_cached_peers() {
    let mut s = SyncState::new();
    s.finish_pull(Some(vec![peer("ann", 1)]), 1000);
    assert_eq!(s.peers.len(), 1);
    assert!(!s.should_pull(1100));
    s.finish_pull(None, 1300);
    assert_eq!(s.peers.len(), 1);
    assert_eq!(s.peers[0].name, "ann");
    assert!(s.should_pull(1300));
    s.finish_pull(Some(vec![]), 1300);
    assert!(s.peers.is_empty());
}

#[test]
fn reflow_triggers() {
    let p = LayoutParams { content_width: 600, font: FontChoice::Japanese, font_size: 18, paragraph_spacing: 10 };
    assert!(needs_reflow(None, p));
    assert!(!needs_reflow(Some(p), p));
    assert!(!needs_reflow(Some(p), LayoutParams { content_width: 601, ..p }));
    assert!(!needs_reflow(Some(p), LayoutParams { content_width: 599, ..p }));
    assert!(needs_reflow(Some(p), LayoutParams { content_width: 602, ..p }));
    assert!(needs_reflow(Some(p), LayoutParams { content_width: 598, ..p }));
    assert!(needs_reflow(Some(p), LayoutParams { font: FontChoice::English, ..p }));
    assert!(needs_reflow(Some(p), LayoutParams { font_size: 19, ..p }));
    assert!(needs_reflow(Some(p), LayoutParams { paragraph_spacing: 11, ..p }));
}

#[test]
fn peer_ranges_are_clamped() {
    assert_eq!(clamp_peer_range(2, 8, 5), Some((2, 4)));
    assert_eq!(clamp_peer_range(2, 3, 5), Some((2, 3)));
    assert_eq!(clamp_peer_range(5, 6, 5), None);
}

#[test]
fn hex_colors_parse() {
    assert_eq!(parse_hex_color("#ff8000"), Some(Rgb { r: 255, g: 128, b: 0 }));
    assert_eq!(parse_hex_color("##ABCDEF"), Some(Rgb { r: 0xab, g: 0xcd, b: 0xef }));
    assert_eq!(parse_hex_color("00ff00"), Some(Rgb { r: 0, g: 255, b: 0 }));
    assert_eq!(parse_hex_color("#+f+f+f"), Some(Rgb { r: 15, g: 15, b: 15 }));
    assert_eq!(parse_hex_color("#fff"), None);
    assert_eq!(parse_hex_color("#gg0000"), None);
    assert_eq!(parse_hex_color("#ff00000"), None);
}

#[test]
fn colors_format_as_hex() {
    assert_eq!(color_to_hex(Rgb { r: 100, g: 150, b: 255 }), "#6496ff");
    assert_eq!(color_to_hex(Rgb { r: 0, g: 10, b: 1 }), "#000a01");
}

#[test]
fn theme_follows_luminance() {
    assert!(is_dark(Rgb { r: 0, g: 0, b: 0 }));
    assert!(!is_dark(Rgb { r: 255, g: 255, b: 255 }));
    assert!(is_dark(Rgb { r: 255, g: 0, b: 0 }));
    assert!(!is_dark(Rgb { r: 0, g: 255, b: 0 }));
    assert_eq!(ui_background(Rgb { r: 0, g: 0, b: 0 }), Rgb { r: 40, g: 40, b: 40 });
    assert_eq!(ui_background(Rgb { r: 255, g: 255, b: 255 }), Rgb { r: 230, g: 230, b: 230 });
    assert_eq!(ui_text_color(Rgb { r: 10, g: 10, b: 10 }), Rgb { r: 255, g: 255, b: 255 });
    assert_eq!(ui_text_color(Rgb { r: 250, g: 250, b: 250 }), Rgb { r: 0, g: 0, b: 0 });
}

#[test]
fn login_defaults() {
    let l = LoginInfo::default();
    assert_eq!(l.server_ip, "localhost");
    assert_eq!(l.server_port, "15470");
    assert_eq!(l.display_name, "");
    assert_eq!(l.user_color, Rgb { r: 100, g: 150, b: 255 });
}

#[test]
fn session_needs_a_display_name() {
    let mut l = LoginInfo::default();
    l.display_name = "   ".to_string();
    assert_eq!(prepare_session(&l).unwrap_err(), LoginError::EmptyDisplayName);
}

#[test]
fn session_is_prepared_from_login() {
    let mut l = LoginInfo::default();
    l.display_name = "  Ann Lee \t".to_string();
    let c = prepare_session(&l).unwrap();
    assert_eq!(c.user_name, "Ann Lee");
    assert_eq!(c.server_url, "http://localhost:15470");
    assert_eq!(c.user_color, "#6496ff");
    assert_eq!(c.password_hash, None);
    l.password = "abc".to_string();
    let c = prepare_session(&l).unwrap();
    assert_eq!(
        c.password_hash.as_deref(),
        Some("ba7816bf8f01cfea414140de5dae2223b00361a396177a9cb410ff61f20015ad")
    );
    assert_eq!(c.password_hash, Some(hash_password("abc")));
}

#[test]
fn statuses_map_to_errors() {
    assert_eq!(classify_status(FetchStage::Health, 200), None);
    assert_eq!(classify_status(FetchStage::Health, 401), Some(ApiError::Connectivity));
    assert_eq!(classify_status(FetchStage::Document, 401), Some(ApiError::Authorization));
    assert_eq!(classify_status(FetchStage::Document, 404), Some(ApiError::NotFound));
    assert_eq!(classify_status(FetchStage::Positions, 500), Some(ApiError::ServerFault));
    assert_eq!(classify_status(FetchStage::Positions, 204), None);
}

#[test]
fn tick_pushes_the_visible_range() {
    let l = tall_layout();
    let mut s = SyncState::new();
    let plan = s.plan_for_view(&l, 1500, 2000, 0);
    assert_eq!(plan.push, Some((1, 3)));
    assert!(plan.pull);
    assert_eq!(s.plan_for_view(&l, 1500, 2000, 100).push, None);
    assert_eq!(s.plan_for_view(&l, 2500, 2000, 100).push, Some((2, 4)));
}
