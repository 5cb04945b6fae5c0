use luacells::codec::{decode_pattern, encode_pattern, parse_range, split_range, u16_to_string};
use luacells::engine::{step, Engine, Outcome};
use luacells::grid::Grid;
use luacells::input::{messages_for, InputEvent, Key, MouseKind};
use luacells::messages::{cycle_draw_state, set_draw_state, shift_delay, EngineError, Message};
use luacells::neighbors::neighbor_states;
use luacells::render::{normalize_cell, CellWrite, CONTROLS, CONTROLS2};
use luacells::viewport::Viewport;

fn identity_update(s: u16, _ns: Vec<u16>) -> Result<u16, String> {
    Ok(s)
}

fn two_state_display(s: u16) -> Result<String, String> {
    if s == 0 {
        Ok("  ".to_string())
    } else {
        Ok("##".to_string())
    }
}

fn grid_from(pattern: &str, rows: usize, cols: usize, states: u16) -> Grid {
    let decoded = decode_pattern(pattern).expect("pattern must decode");
    Grid::from_rows(&decoded, rows, cols, states)
}

#[test]
fn number_encoding() {
    assert_eq!(u16_to_string(0), "0");
    assert_eq!(u16_to_string(7), "7");
    assert_eq!(u16_to_string(12345), "12345");
    assert_eq!(u16_to_string(65535), "65535");
}

#[test]
fn number_parsing() {
    let s = "65535";
    assert_eq!(parse_range(s, 0, 5), Some(65535));
    assert_eq!(parse_range("65536", 0, 5), None);
    assert_eq!(parse_range("abc", 0, 3), None);
    assert_eq!(parse_range("", 0, 0), None);
    assert_eq!(parse_range("042", 0, 3), Some(42));
}

#[test]
fn splitting_ranges() {
    let s = "1,0;0,1";
    let rows = split_range(s, 0, 7, ';');
    assert_eq!(rows, vec![(0, 3), (4, 7)]);
    let cells = split_range(s, 0, 3, ',');
    assert_eq!(cells, vec![(0, 1), (2, 3)]);
    assert_eq!(split_range("", 0, 0, ';'), vec![(0, 0)]);
    assert_eq!(split_range(";;", 0, 2, ';'), vec![(0, 0), (1, 1), (2, 2)]);
}

#[test]
fn whitespace_tolerant_tokens() {
    let s = " 42\t";
    assert_eq!(parse_range(s, 0, 4), Some(42));
    assert_eq!(parse_range("   ", 0, 3), None);
    assert_eq!(parse_range("4 2", 0, 3), None);
    assert_eq!(
        decode_pattern("1, 0; 0, 1"),
        Some(vec![vec![1, 0], vec![0, 1]])
    );
    assert_eq!(decode_pattern(" 7 ;8"), Some(vec![vec![7], vec![8]]));
}

#[test]
fn pattern_decoding() {
    assert_eq!(
        decode_pattern("1,0;0,1"),
        Some(vec![vec![1, 0], vec![0, 1]])
    );
    assert_eq!(decode_pattern("12;3"), Some(vec![vec![12], vec![3]]));
    assert_eq!(decode_pattern("1,x;0"), None);
    assert_eq!(decode_pattern(""), None);
    assert_eq!(decode_pattern("70000"), None);
}

#[test]
fn pattern_round_trip_two_by_two() {
    let g = grid_from("1,0;0,1", 2, 2, 2);
    assert_eq!(g.get(0, 0), 1);
    assert_eq!(g.get(0, 1), 0);
    assert_eq!(g.get(1, 0), 0);
    assert_eq!(g.get(1, 1), 1);
    let encoded = encode_pattern(&g.snapshot());
    assert_eq!(encoded, "1,0;0,1");
}

#[test]
fn pattern_round_trip_larger() {
    let g = grid_from("3,1,4;1,5,9;2,6,5", 3, 3, 10);
    let encoded = encode_pattern(&g.snapshot());
    assert_eq!(encoded, "3,1,4;1,5,9;2,6,5");
    let again = grid_from(&encoded, 3, 3, 10);
    assert_eq!(again.snapshot(), g.snapshot());
}

#[test]
fn pattern_padding_and_truncation() {
    let g = grid_from("1", 2, 2, 2);
    assert_eq!(g.snapshot(), vec![vec![1, 0], vec![0, 0]]);
    let g = grid_from("1,1,1;1,1,1;1,1,1", 2, 2, 2);
    assert_eq!(g.snapshot(), vec![vec![1, 1], vec![1, 1]]);
}

#[test]
fn pattern_value_clamping() {
    let g = grid_from("5,0;0,5", 2, 2, 2);
    assert_eq!(g.snapshot(), vec![vec![1, 0], vec![0, 1]]);
}

#[test]
fn glyph_normalization() {
    assert_eq!(normalize_cell(""), "  ");
    assert_eq!(normalize_cell("#"), "# ");
    assert_eq!(normalize_cell("##"), "##");
    assert_eq!(normalize_cell("abc"), "ab");
}

#[test]
fn offsets_stay_normalized() {
    let mut vp = Viewport::new(5, 7);
    vp.shift_row(-3);
    assert_eq!(vp.row_offset(), 2);
    vp.shift_row(7);
    assert_eq!(vp.row_offset(), 4);
    vp.shift_col(-30000);
    let c = vp.col_offset();
    assert!(c < 7);
    vp.shift_col(30000);
    assert!(vp.col_offset() < 7);
}

#[test]
fn panning_is_periodic() {
    let mut vp = Viewport::new(5, 5);
    vp.shift_row(2);
    let start = vp.row_offset();
    for _ in 0..5 {
        vp.shift_row(3);
    }
    assert_eq!(vp.row_offset(), start);
}

#[test]
fn logical_mapping() {
    let mut vp = Viewport::new(4, 6);
    assert_eq!(vp.to_logical(1, 2), (1, 2));
    assert_eq!(vp.to_logical(5, 7), (1, 1));
    vp.shift_row(3);
    vp.shift_col(2);
    assert_eq!(vp.to_logical(0, 0), (3, 2));
    assert_eq!(vp.to_logical(1, 4), (0, 0));
}

#[test]
fn tiling_covers_the_terminal() {
    let vp = Viewport::new(3, 3);
    let term_rows: u16 = 8;
    let term_cols: u16 = 10;
    for tr in 0..term_rows {
        for cc in 0..((term_cols + 1) / 2) {
            let (gr, gc) = vp.to_logical(tr, cc);
            let positions = vp.tiled_positions(gr, gc, term_rows, term_cols);
            assert!(
                positions.contains(&(tr, 2 * cc)),
                "missing position ({}, {})",
                tr,
                2 * cc
            );
        }
    }
}

#[test]
fn tiled_positions_map_back() {
    let mut vp = Viewport::new(3, 4);
    vp.shift_row(1);
    vp.shift_col(2);
    let positions = vp.tiled_positions(2, 1, 9, 12);
    assert!(!positions.is_empty());
    for (tr, tc) in positions {
        assert!(tr < 9 && tc < 12 && tc % 2 == 0);
        assert_eq!(vp.to_logical(tr, tc / 2), (2, 1));
    }
}

#[test]
fn neighbor_order_on_torus() {
    let g = grid_from("0,1,2;3,4,5;6,7,8", 3, 3, 9);
    let ns = neighbor_states(&g, 1, 1);
    assert_eq!(ns, vec![1, 7, 5, 3, 2, 8, 0, 6]);
    let corner = neighbor_states(&g, 0, 0);
    assert_eq!(corner, vec![6, 3, 1, 2, 7, 4, 8, 5]);
}

#[test]
fn identity_step_changes_nothing() {
    let mut g = grid_from("1,0,1;0,1,0;1,0,1", 3, 3, 2);
    let before = g.snapshot();
    let diff = step(&mut g, &identity_update).expect("identity step succeeds");
    assert!(diff.is_empty());
    assert_eq!(g.snapshot(), before);
}

#[test]
fn identity_step_through_engine() {
    let g = grid_from("1,0,1;0,1,0;1,0,1", 3, 3, 2);
    let mut e = Engine::new(g, 100);
    let o = e
        .handle_message(Message::Step, 10, 20, &identity_update, &two_state_display)
        .expect("step succeeds");
    assert!(o.writes.is_empty());
    assert!(o.schedule_step_after.is_none());
    assert_eq!(e.grid.snapshot(), grid_from("1,0,1;0,1,0;1,0,1", 3, 3, 2).snapshot());
}

#[test]
fn constant_rule_changes_every_cell() {
    let mut g = Grid::new(2, 2, 2);
    let all_ones = |_s: u16, _ns: Vec<u16>| -> Result<u16, String> { Ok(1) };
    let diff = step(&mut g, &all_ones).expect("step succeeds");
    assert_eq!(diff.len(), 4);
    assert_eq!(g.snapshot(), vec![vec![1, 1], vec![1, 1]]);
    let diff2 = step(&mut g, &all_ones).expect("step succeeds");
    assert!(diff2.is_empty());
}

#[test]
fn update_errors_are_fatal() {
    let mut g = Grid::new(2, 2, 2);
    let failing = |_s: u16, _ns: Vec<u16>| -> Result<u16, String> { Err("boom".to_string()) };
    match step(&mut g, &failing) {
        Err(EngineError::UpdateFailed(m)) => assert_eq!(m, "boom"),
        _ => panic!("expected an update failure"),
    }
}

#[test]
fn out_of_range_update_is_fatal() {
    let mut g = Grid::new(2, 2, 2);
    let bad = |_s: u16, _ns: Vec<u16>| -> Result<u16, String> { Ok(5) };
    match step(&mut g, &bad) {
        Err(EngineError::StateOutOfRange(v)) => assert_eq!(v, 5),
        _ => panic!("expected an out-of-range failure"),
    }
}

#[test]
fn display_errors_are_fatal() {
    let g = Grid::new(2, 2, 2);
    let mut e = Engine::new(g, 100);
    let bad_display = |_s: u16| -> Result<String, String> { Err("bad glyph".to_string()) };
    match e.handle_message(Message::Render, 5, 10, &identity_update, &bad_display) {
        Err(EngineError::DisplayFailed(m)) => assert_eq!(m, "bad glyph"),
        _ => panic!("expected a display failure"),
    }
}

#[test]
fn draw_at_pixel_writes_draw_state() {
    let g = Grid::new(4, 4, 3);
    let mut e = Engine::new(g, 100);
    let o = e
        .handle_message(Message::SetState(2), 10, 200, &identity_update, &two_state_display)
        .expect("set state succeeds");
    assert!(o.writes.is_empty());
    assert_eq!(e.draw_state, 2);
    e.handle_message(Message::Draw(4, 2), 10, 20, &identity_update, &two_state_display)
        .expect("draw succeeds");
    assert_eq!(e.grid.get(2, 2), 2);
}

#[test]
fn erase_resets_a_cell() {
    let g = grid_from("1,1;1,1", 2, 2, 2);
    let mut e = Engine::new(g, 100);
    e.handle_message(Message::Erase(2, 1), 10, 20, &identity_update, &two_state_display)
        .expect("erase succeeds");
    assert_eq!(e.grid.get(1, 1), 0);
    assert_eq!(e.grid.get(0, 0), 1);
}

#[test]
fn draw_state_clamping() {
    assert_eq!(set_draw_state(0, 4), 1);
    assert_eq!(set_draw_state(9, 4), 3);
    assert_eq!(set_draw_state(2, 4), 2);
    assert_eq!(cycle_draw_state(1, 1, 4), 1);
    assert_eq!(cycle_draw_state(3, -1, 4), 3);
    assert_eq!(cycle_draw_state(2, -1, 4), 3);
    assert_eq!(cycle_draw_state(2, 1, 4), 1);
}

#[test]
fn randomize_stays_in_range() {
    let mut g = Grid::new(6, 6, 3);
    g.randomize();
    for row in g.snapshot() {
        for v in row {
            assert!(v < 3);
        }
    }
}

#[test]
fn grid_clear_resets_everything() {
    let g = grid_from("1,1;1,1", 2, 2, 2);
    let mut e = Engine::new(g, 100);
    e.handle_message(Message::GridClear, 10, 20, &identity_update, &two_state_display)
        .expect("clear succeeds");
    assert_eq!(e.grid.snapshot(), vec![vec![0, 0], vec![0, 0]]);
}

#[test]
fn delay_clamping() {
    assert_eq!(shift_delay(100, -20), 80);
    assert_eq!(shift_delay(10, -20), 0);
    assert_eq!(shift_delay(995, 20), 1000);
    assert_eq!(shift_delay(5000, 20), 1000);
    let g = Grid::new(2, 2, 2);
    let mut e = Engine::new(g, 100);
    e.handle_message(Message::ShiftDelay(-20), 10, 20, &identity_update, &two_state_display)
        .expect("delay adjust succeeds");
    assert_eq!(e.delay, 80);
}

#[test]
fn play_pause_enqueues_a_step() {
    let g = Grid::new(2, 2, 2);
    let mut e = Engine::new(g, 100);
    let o = e
        .handle_message(Message::PlayPause, 10, 20, &identity_update, &two_state_display)
        .expect("toggle succeeds");
    assert!(e.playing);
    assert!(o.enqueue_step);
    let o = e
        .handle_message(Message::PlayPause, 10, 20, &identity_update, &two_state_display)
        .expect("toggle succeeds");
    assert!(!e.playing);
    assert!(!o.enqueue_step);
}

#[test]
fn playing_step_schedules_the_next() {
    let g = Grid::new(2, 2, 2);
    let mut e = Engine::new(g, 70);
    e.handle_message(Message::PlayPause, 10, 20, &identity_update, &two_state_display)
        .expect("toggle succeeds");
    let o = e
        .handle_message(Message::Step, 10, 20, &identity_update, &two_state_display)
        .expect("step succeeds");
    assert_eq!(o.schedule_step_after, Some(70));
}

#[test]
fn full_render_covers_the_area() {
    let g = Grid::new(2, 2, 2);
    let mut e = Engine::new(g, 100);
    let o = e
        .handle_message(Message::Render, 2, 4, &identity_update, &two_state_display)
        .expect("render succeeds");
    assert_eq!(o.writes.len(), 2 * 2);
    for w in &o.writes {
        assert_eq!(w.text, "  ");
        assert!(w.row < 2 && w.col < 4 && w.col % 2 == 0);
    }
    assert!(o.status.is_empty());
}

#[test]
fn step_repaints_changed_cells() {
    let mut g = Grid::new(1, 1, 2);
    g.set(0, 0, 0);
    let mut e = Engine::new(g, 100);
    let all_ones = |_s: u16, _ns: Vec<u16>| -> Result<u16, String> { Ok(1) };
    let o = e
        .handle_message(Message::Step, 3, 4, &all_ones, &two_state_display)
        .expect("step succeeds");
    assert_eq!(e.grid.get(0, 0), 1);
    assert!(!o.writes.is_empty());
    for w in &o.writes {
        assert_eq!(w.text, "##");
        assert!(w.row < 3 && w.col < 4);
    }
    let expected: Vec<(u16, u16)> = vec![(0, 0), (0, 2), (1, 0), (1, 2), (2, 0), (2, 2)];
    let got: Vec<(u16, u16)> = o.writes.iter().map(|w| (w.row, w.col)).collect();
    for p in expected {
        assert!(got.contains(&p), "missing repaint at {:?}", p);
    }
}

#[test]
fn status_lines_when_wide_enough() {
    let g = Grid::new(2, 2, 4);
    let mut e = Engine::new(g, 100);
    e.handle_message(Message::SetState(3), 5, 200, &identity_update, &two_state_display)
        .expect("set state succeeds");
    let o = e
        .handle_message(Message::CycleState(1), 5, 200, &identity_update, &two_state_display)
        .expect("cycle succeeds");
    assert_eq!(e.draw_state, 2);
    assert_eq!(o.status.len(), 2);
    let first: &CellWrite = &o.status[0];
    assert_eq!((first.row, first.col), (5, 0));
    assert_eq!(first.text, format!(" {}", CONTROLS));
    let second: &CellWrite = &o.status[1];
    assert_eq!((second.row, second.col), (6, 0));
    assert_eq!(second.text, format!(" {} - {}", CONTROLS2, 2));
}

#[test]
fn exit_and_screen_clear_outcomes() {
    let g = Grid::new(2, 2, 2);
    let mut e = Engine::new(g, 100);
    let o: Outcome = e
        .handle_message(Message::Exit, 10, 20, &identity_update, &two_state_display)
        .expect("exit succeeds");
    assert!(o.exit);
    let o = e
        .handle_message(Message::ScreenClear, 10, 20, &identity_update, &two_state_display)
        .expect("clear succeeds");
    assert!(o.clear_screen && !o.exit);
}

#[test]
fn pan_messages_move_the_viewport() {
    let g = Grid::new(5, 5, 2);
    let mut e = Engine::new(g, 100);
    e.handle_message(Message::ShiftRow(-3), 10, 20, &identity_update, &two_state_display)
        .expect("pan succeeds");
    e.handle_message(Message::ShiftCol(3), 10, 20, &identity_update, &two_state_display)
        .expect("pan succeeds");
    assert_eq!(e.viewport.row_offset(), 2);
    assert_eq!(e.viewport.col_offset(), 3);
}

#[test]
fn keyboard_translation() {
    let r = messages_for(InputEvent::Key { code: Key::Char('q'), ctrl: false });
    assert!(!r.terminate);
    assert_eq!(r.messages, vec![Message::Exit]);
    let r = messages_for(InputEvent::Key { code: Key::Char('h'), ctrl: false });
    assert_eq!(r.messages, vec![Message::ShiftCol(-3), Message::Render]);
    let r = messages_for(InputEvent::Key { code: Key::Down, ctrl: false });
    assert_eq!(r.messages, vec![Message::ShiftRow(3), Message::Render]);
    let r = messages_for(InputEvent::Key { code: Key::Char(' '), ctrl: false });
    assert_eq!(r.messages, vec![Message::PlayPause]);
    let r = messages_for(InputEvent::Key { code: Key::Tab, ctrl: false });
    assert_eq!(r.messages, vec![Message::Step]);
    let r = messages_for(InputEvent::Key { code: Key::Char('5'), ctrl: false });
    assert_eq!(r.messages, vec![Message::SetState(5)]);
    let r = messages_for(InputEvent::Key { code: Key::Char('0'), ctrl: false });
    assert!(r.messages.is_empty());
    let r = messages_for(InputEvent::Key { code: Key::Char('r'), ctrl: false });
    assert_eq!(r.messages, vec![Message::Randomize, Message::Render]);
}

#[test]
fn control_c_terminates() {
    let r = messages_for(InputEvent::Key { code: Key::Char('c'), ctrl: true });
    assert!(r.terminate);
    assert!(r.messages.is_empty());
    let r = messages_for(InputEvent::Key { code: Key::Char('c'), ctrl: false });
    assert_eq!(r.messages, vec![Message::GridClear, Message::Render]);
}

#[test]
fn mouse_and_resize_translation() {
    let r = messages_for(InputEvent::Mouse { kind: MouseKind::LeftPress, column: 8, row: 3 });
    assert_eq!(r.messages, vec![Message::Draw(8, 3)]);
    let r = messages_for(InputEvent::Mouse { kind: MouseKind::RightPress, column: 1, row: 2 });
    assert_eq!(r.messages, vec![Message::Erase(1, 2)]);
    let r = messages_for(InputEvent::Mouse { kind: MouseKind::ScrollUp, column: 0, row: 0 });
    assert_eq!(r.messages, vec![Message::CycleState(1)]);
    let r = messages_for(InputEvent::Mouse { kind: MouseKind::ScrollDown, column: 0, row: 0 });
    assert_eq!(r.messages, vec![Message::CycleState(-1)]);
    let r = messages_for(InputEvent::Resize);
    assert_eq!(r.messages, vec![Message::ScreenClear, Message::Render]);
}
