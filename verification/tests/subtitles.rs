//! Font, line breaking, the subtitle model, drawing and the renderer.
use talk_with_anyone::display::{
    Display, DisplayState, AI_COLOR, MAX_HISTORY_LINES, USER_COLOR,
};
use talk_with_anyone::font::{char_widths, for_each_pixel, measured_width, text_width};
use talk_with_anyone::raster::{draw_line, fill_color, fill_rect, plot_pixels, put, raster};
use talk_with_anyone::render::{
    bar_key, paint_row, plan_row, show_volume, Paint, Rect, Renderer, Slot, Span,
};
use talk_with_anyone::wrap::{next_unit, wrap_measured, wrap_to_lines};

fn chars(s: &str) -> Vec<char> {
    s.chars().collect()
}

fn lines(d: &Display) -> Vec<&str> {
    d.history().iter().map(|l| l.text.as_str()).collect()
}

/// Lets the typewriter run until it has nothing left, and returns what it revealed.
fn type_out(d: &mut Display) -> usize {
    let mut steps = 0;
    let mut now = 1000u32;
    loop {
        let before = format!("{:?}", d);
        now += 143;
        d.tick(now);
        if before == format!("{:?}", d) {
            return steps;
        }
        steps += 1;
        assert!(steps < 10000);
    }
}

#[test]
fn widths_of_the_font() {
    assert_eq!(text_width("A"), 7);
    assert_eq!(text_width("我"), 14);
    assert_eq!(text_width(""), 0);
    assert_eq!(text_width("AI时代"), 42);
    // A character without a glyph counts with the widest.
    assert_eq!(text_width("\n"), 14);
    assert_eq!(measured_width("AI时代"), 42);
    assert_eq!(char_widths(&chars("a中 ")), vec![7, 14, 7]);
}

#[test]
fn long_texts_are_measured_in_parts() {
    let long = "a".repeat(500_003);
    assert_eq!(measured_width(&long), 7 * 500_003);
}

#[test]
fn pixels_of_the_font() {
    let row: Vec<(i32, i32)> = (0..7).map(|x| (x, 12)).collect();
    assert_eq!(for_each_pixel("_", 232), row);
    assert_eq!(for_each_pixel("-", 232), vec![(1, 7), (2, 7), (3, 7), (4, 7), (5, 7)]);
    assert_eq!(for_each_pixel("_", 3), vec![(0, 12), (1, 12), (2, 12)]);
    assert_eq!(for_each_pixel("A", 232).len(), 22);
    assert_eq!(for_each_pixel(" ", 232), vec![]);
}

#[test]
fn wrapping_by_given_widths() {
    let t = chars("abcde");
    assert_eq!(wrap_measured(&t, &[100, 100, 100, 100, 100]), vec!["ab", "cd", "e"]);
    assert_eq!(wrap_measured(&t, &[300, 1, 300, 231, 1]), vec!["a", "b", "c", "de"]);
    assert_eq!(wrap_measured(&chars("a\n\nb\n"), &[1, 1, 1, 1, 1]), vec!["a", "", "b", ""]);
    assert_eq!(wrap_measured(&[], &[]), vec![""]);
}

#[test]
fn wrapping_by_the_font() {
    let text = "中".repeat(33);
    assert_eq!(
        wrap_to_lines(&text),
        vec!["中".repeat(16), "中".repeat(16), "中".to_string()]
    );
    let text = "x".repeat(34);
    assert_eq!(wrap_to_lines(&text), vec!["x".repeat(33), "x".to_string()]);
}

#[test]
fn wrapping_keeps_the_text() {
    let text = "第一行 with some English words\n然后换行，继续很长很长的一段文字直到超过屏幕宽度为止。";
    let all: String = wrap_to_lines(text).concat();
    assert_eq!(all, text.replace('\n', ""));
    for l in wrap_to_lines(text) {
        assert!(text_width(&l) <= 232);
    }
}

#[test]
fn units_of_the_typewriter() {
    let mut rest = chars("这是AI时代，Great!");
    let mut units = Vec::new();
    while !rest.is_empty() {
        let k = next_unit(&rest);
        units.push(rest[..k].iter().collect::<String>());
        rest.drain(..k);
    }
    assert_eq!(units, vec!["这", "是", "AI", "时", "代", "，", "Great!"]);
    assert_eq!(next_unit(&chars("  hello,  world")), 10);
    assert_eq!(next_unit(&chars("   ")), 3);
    assert_eq!(next_unit(&chars(" \nx")), 2);
    assert_eq!(next_unit(&chars("")), 0);
}

#[test]
fn status_words() {
    let all = [
        (DisplayState::Idle, "IDLE", 0xffff),
        (DisplayState::Listening, "LISTEN", 0x67f4),
        (DisplayState::Playing, "PLAY", 0xff0c),
        (DisplayState::Offline, "OFFLINE", 0xf98c),
    ];
    for (s, word, color) in all {
        assert_eq!(s.as_str(), word);
        assert_eq!(s.color(), color);
    }
    assert_eq!(DisplayState::default(), DisplayState::Idle);
}

#[test]
fn volume_in_the_status_bar() {
    let mut d = Display::new();
    assert_eq!((d.volume(), d.volume_until_ms()), (80, 0));
    d.set_volume(80, 5);
    assert_eq!(d.volume_until_ms(), 0);
    d.set_volume(90, 1000);
    assert_eq!((d.volume(), d.volume_until_ms()), (90, 2500));
    d.set_volume(400, 3000);
    assert_eq!((d.volume(), d.volume_until_ms()), (100, 4500));
    d.set_volume(-3, u32::MAX);
    assert_eq!((d.volume(), d.volume_until_ms()), (0, 1499));
}

#[test]
fn a_user_line_settles_the_reply() {
    let mut d = Display::new();
    d.append_reply_delta("半句");
    d.add_user_line("你好");
    assert_eq!(lines(&d), vec!["半句", "我:你好"]);
    assert_eq!(d.history()[0].color, AI_COLOR);
    assert_eq!(d.history()[1].color, USER_COLOR);
    assert!(!d.is_typing());
}

#[test]
fn the_typewriter_keeps_its_pace() {
    let mut d = Display::new();
    d.append_reply_delta("你好");
    d.tick(142);
    assert_eq!(d.cur_line(), "");
    d.tick(143);
    assert_eq!(d.cur_line(), "你");
    d.tick(200);
    assert_eq!(d.cur_line(), "你");
    d.tick(286);
    assert_eq!(d.cur_line(), "你好");
    assert!(d.is_typing());
}

#[test]
fn a_word_that_does_not_fit_starts_a_line() {
    let mut d = Display::new();
    let words = "aaaaaaaaa ".repeat(3) + "bbbbbbbb";
    d.begin_reply_typewriter(&words);
    type_out(&mut d);
    assert_eq!(lines(&d), vec!["aaaaaaaaa ".repeat(3)]);
    assert_eq!(d.cur_line(), "bbbbbbbb");
    assert_eq!(d.cur_color(), AI_COLOR);
}

#[test]
fn a_line_break_ends_the_line_while_typing() {
    let mut d = Display::new();
    d.begin_reply_typewriter("一\n\n二");
    assert_eq!(type_out(&mut d), 4);
    assert_eq!(lines(&d), vec!["一", " "]);
    assert_eq!(d.cur_line(), "二");
}

#[test]
fn the_whole_text_completes_the_pieces() {
    let mut d = Display::new();
    d.append_reply_delta("今天");
    d.append_reply_delta("天气");
    d.tick(1000);
    d.set_reply_full_text("今天天气不错");
    type_out(&mut d);
    assert_eq!(d.cur_line(), "今天天气不错");
    assert_eq!(lines(&d), Vec::<&str>::new());
}

#[test]
fn a_different_whole_text_is_typed_anew() {
    let mut d = Display::new();
    d.append_reply_delta("旧的");
    d.set_reply_full_text("新的");
    type_out(&mut d);
    assert_eq!(lines(&d), vec!["旧的"]);
    assert_eq!(d.cur_line(), "新的");
    // Without any pieces the whole text is typed.
    let mut e = Display::new();
    e.set_reply_full_text("全文");
    type_out(&mut e);
    assert_eq!(e.cur_line(), "全文");
}

#[test]
fn empty_pieces_do_nothing() {
    let mut d = Display::new();
    d.append_reply_delta("");
    assert_eq!(format!("{:?}", d), format!("{:?}", Display::new()));
}

#[test]
fn pieces_add_up() {
    let mut a = Display::new();
    a.append_reply_delta("ab");
    a.append_reply_delta("cd");
    let mut b = Display::new();
    b.append_reply_delta("abcd");
    assert_eq!(format!("{:?}", a), format!("{:?}", b));
}

#[test]
fn settling_twice_is_settling_once() {
    let mut d = Display::new();
    d.append_reply_delta("一\n二");
    d.flush_typing();
    assert_eq!(lines(&d), vec!["一", "二"]);
    d.flush_typing();
    assert_eq!(lines(&d), vec!["一", "二"]);
}

#[test]
fn the_history_keeps_eighty_lines() {
    let mut d = Display::new();
    for i in 0..100 {
        d.add_user_line(&i.to_string());
    }
    assert_eq!(d.history().len(), MAX_HISTORY_LINES);
    assert_eq!(d.history()[0].text, "我:20");
    assert_eq!(d.history()[79].text, "我:99");
    d.begin_reply_stream();
    d.clear_chat();
    assert!(d.history().is_empty());
}

// ---------- drawing ----------

fn pixel(b: &[u8], stride: usize, x: usize, y: usize) -> u16 {
    let o = (y * stride + x) * 2;
    u16::from_be_bytes([b[o], b[o + 1]])
}

fn set_pixels(b: &[u8], stride: usize) -> Vec<(usize, usize)> {
    let mut v = Vec::new();
    for y in 0..b.len() / (stride * 2) {
        for x in 0..stride {
            if pixel(b, stride, x, y) != 0 {
                v.push((x, y));
            }
        }
    }
    v
}

#[test]
fn filling_a_band() {
    let mut b = [0u8; 7];
    fill_color(&mut b, 0x1234);
    assert_eq!(b, [0x12, 0x34, 0x12, 0x34, 0x12, 0x34, 0]);
}

#[test]
fn points_outside_are_left_out() {
    let mut b = [0u8; 24];
    for (x, y) in [(-1, 0), (0, -1), (4, 0), (0, 3)] {
        put(&mut b, 4, x, y, 0xffff);
    }
    assert_eq!(b, [0u8; 24]);
    put(&mut b, 4, 3, 2, 0xabcd);
    assert_eq!((b[22], b[23]), (0xab, 0xcd));
}

#[test]
fn rectangles() {
    let mut b = [0u8; 4 * 4 * 2];
    fill_rect(&mut b, 4, 1, 2, 2, 5, 0xffff);
    assert_eq!(set_pixels(&b, 4), vec![(1, 2), (2, 2), (1, 3), (2, 3)]);
    fill_rect(&mut b, 4, 0, 0, 0, 3, 0xffff);
    assert_eq!(set_pixels(&b, 4).len(), 4);
}

#[test]
fn lines_run_from_end_to_end() {
    let mut b = [0u8; 8 * 16 * 2];
    // The three strokes of the charging symbol.
    draw_line(&mut b, 8, 4, 3, 2, 8, 0xffe0);
    assert_eq!(set_pixels(&b, 8), vec![(4, 3), (4, 4), (3, 5), (3, 6), (2, 7), (2, 8)]);
    let mut b = [0u8; 8 * 4 * 2];
    draw_line(&mut b, 8, 6, 1, 1, 1, 1);
    assert_eq!(set_pixels(&b, 8), vec![(1, 1), (2, 1), (3, 1), (4, 1), (5, 1), (6, 1)]);
    let mut b = [0u8; 8 * 4 * 2];
    draw_line(&mut b, 8, 0, 0, 3, 3, 1);
    draw_line(&mut b, 8, 7, 2, 7, 2, 1);
    assert_eq!(set_pixels(&b, 8), vec![(0, 0), (1, 1), (2, 2), (7, 2), (3, 3)]);
    let mut b = [0u8; 8 * 4 * 2];
    draw_line(&mut b, 8, 0, 0, 4, 1, 1);
    assert_eq!(set_pixels(&b, 8), vec![(0, 0), (1, 0), (2, 0), (3, 1), (4, 1)]);
}

#[test]
fn given_pixels_are_moved_and_clipped() {
    let mut b = [0u8; 4 * 4 * 2];
    plot_pixels(&mut b, 4, &[(0, 0), (5, 1), (3, 0)], 0xffff, 1);
    assert_eq!(set_pixels(&b, 4), vec![(1, 2)]);
}

#[test]
fn text_is_drawn_two_rows_down() {
    let mut b = [0u8; 20 * 18 * 2];
    raster(&mut b, 20, "-", 0x00ff, 4);
    assert_eq!(set_pixels(&b, 20), vec![(5, 9), (6, 9), (7, 9), (8, 9), (9, 9)]);
    let mut c = [0u8; 20 * 18 * 2];
    raster(&mut c, 20, "", 0x00ff, 4);
    assert_eq!(c, [0u8; 20 * 18 * 2]);
}

fn slot(txt: &str, col: u16, caret: bool) -> Slot {
    Slot { txt: txt.to_string(), col, caret }
}

#[test]
fn rows_that_grow_are_painted_where_they_grow() {
    let whole = Span { from: 0, to: 240 };
    let a = slot("你", 1, false);
    let b = slot("你好", 1, false);
    assert_eq!(plan_row(&a, &b, 14, 28), Span { from: 18, to: 32 });
    assert_eq!(plan_row(&a, &slot("你好", 2, false), 14, 28), whole);
    assert_eq!(plan_row(&a, &slot("你好", 1, true), 14, 28), whole);
    assert_eq!(plan_row(&slot("你", 1, true), &b, 14, 28), whole);
    assert_eq!(plan_row(&slot("", 1, false), &b, 0, 28), whole);
    assert_eq!(plan_row(&slot("她", 1, false), &b, 14, 28), whole);
    assert_eq!(plan_row(&a, &b, 14, 233), whole);
    assert_eq!(plan_row(&a, &b, 28, 28), whole);
}

#[test]
fn a_narrow_row_is_part_of_the_whole_row() {
    let row = slot("你好 ok", 0x07ff, true);
    let mut whole = vec![0u8; 240 * 18 * 2];
    paint_row(&mut whole, &row, 0, 240);
    let mut narrow = vec![0xaau8; 30 * 18 * 2];
    paint_row(&mut narrow, &row, 18, 30);
    for y in 0..18 {
        for x in 0..30 {
            assert_eq!(pixel(&narrow, 30, x, y), pixel(&whole, 240, x + 18, y));
        }
    }
    // The caret stands behind the text.
    assert_eq!(pixel(&whole, 240, 4 + 49, 14), 0x47f4);
}

/// Carries out a pass and returns the rectangles that were pushed.
fn pass(r: &mut Renderer, d: &Display, now: u32, hm: Option<(u32, u32)>, ok: bool) -> Vec<Rect> {
    let mut pushed = Vec::new();
    let mut p = r.tick(d, true, now, hm);
    while let Paint::Push(rect) = p {
        assert_eq!(r.pixels().len(), rect.w as usize * rect.h as usize * 2);
        assert!(rect.x + rect.w <= 240 && rect.y + rect.h <= 240);
        pushed.push(rect);
        p = r.pushed(d, ok);
    }
    assert_eq!(p, Paint::Done);
    pushed
}

fn taken_over(d: &Display) -> Renderer {
    let mut r = Renderer::new();
    assert_eq!(r.tick(d, true, 1000, None), Paint::Done);
    assert_eq!(r.tick(d, true, 1799, None), Paint::Done);
    let mut y = 0;
    for i in 0..14 {
        let h = if i == 13 { 6 } else { 18 };
        assert_eq!(pass(&mut r, d, 1800 + i, None, true), vec![Rect { x: 0, y, w: 240, h }]);
        y += h;
    }
    r
}

#[test]
fn the_renderer_takes_over_strip_by_strip() {
    let d = Display::new();
    assert!(!Renderer::new().is_taken());
    let mut r = taken_over(&d);
    assert!(r.is_taken());
    let bar = Rect { x: 0, y: 0, w: 240, h: 22 };
    assert_eq!(pass(&mut r, &d, 3000, None, true), vec![bar]);
    assert_eq!(pass(&mut r, &d, 3001, None, true), vec![]);
    assert_eq!(pass(&mut r, &d, 3002, Some((9, 30)), true), vec![bar]);
    assert_eq!(pass(&mut r, &d, 3003, Some((9, 30)), true), vec![]);
}

#[test]
fn the_bar_number_tells_its_content() {
    let mut d = Display::new();
    assert_eq!(bar_key(&d, 3000, None), 0x7f400500);
    d.set_battery(Some(50), true);
    assert_eq!(bar_key(&d, 3000, Some((9, 30))), 0xb211d500);
    assert_eq!(bar_key(&d, 9999, Some((9, 30))), 0xb211d500);
    d.set_state(DisplayState::Offline);
    assert_eq!(bar_key(&d, 3000, Some((9, 30))), 0xb211d503);
    // Clock and battery count for nothing while the volume is shown.
    d.set_volume(30, 4000);
    assert!(show_volume(&d, 4000) && show_volume(&d, 5499) && !show_volume(&d, 5500));
    assert_eq!(bar_key(&d, 4000, Some((9, 30))), 0x1eb);
    assert_eq!(bar_key(&d, 5499, None), 0x1eb);
    assert_eq!(bar_key(&d, 5500, Some((9, 30))), 0xb211d1e3);
}

#[test]
fn the_bar_shows_the_state() {
    let mut d = Display::new();
    let mut r = taken_over(&d);
    d.set_battery(Some(50), true);
    assert_eq!(r.tick(&d, true, 3000, Some((12, 0))), Paint::Push(Rect { x: 0, y: 0, w: 240, h: 22 }));
    let idle = r.pixels().to_vec();
    assert_eq!(pixel(&idle, 240, 0, 0), 0x1202);
    // Signal bars, the first stroke of the flash, and the background between them.
    assert_eq!(pixel(&idle, 240, 190, 10), 0x07ff);
    assert_eq!(pixel(&idle, 240, 202, 14), 0x07ff);
    assert_eq!(pixel(&idle, 240, 237 - 21 - 8 + 2, 3), 0xffe0);
    assert_eq!(pixel(&idle, 240, 189, 10), 0x1202);
    assert_eq!(r.pushed(&d, true), Paint::Done);
    d.set_state(DisplayState::Offline);
    r.tick(&d, true, 3001, Some((12, 0)));
    assert_eq!(pixel(r.pixels(), 240, 190, 10), 0x630c);
    r.pushed(&d, true);
    // The volume takes the place of clock, signal and battery for a while.
    d.set_volume(30, 4000);
    r.tick(&d, true, 4000, Some((12, 0)));
    assert_eq!(pixel(r.pixels(), 240, 190, 10), 0x1202);
    r.pushed(&d, true);
    assert_eq!(r.tick(&d, true, 5499, Some((12, 0))), Paint::Done);
    assert!(matches!(r.tick(&d, true, 5500, Some((12, 0))), Paint::Push(_)));
}

#[test]
fn only_changed_rows_are_pushed_two_a_pass() {
    let mut d = Display::new();
    let mut r = taken_over(&d);
    pass(&mut r, &d, 3000, None, true);
    d.add_user_line("一");
    d.add_user_line("二");
    d.add_user_line("三");
    let row = |i: u16| Rect { x: 0, y: 24 + 18 * i, w: 240, h: 18 };
    assert_eq!(pass(&mut r, &d, 3001, None, true), vec![row(0), row(1)]);
    assert_eq!(pass(&mut r, &d, 3002, None, true), vec![row(2)]);
    assert_eq!(pass(&mut r, &d, 3003, None, true), vec![]);
    // A growing line pushes only what is new.
    d.append_reply_delta("你好");
    d.tick(4000);
    assert_eq!(pass(&mut r, &d, 4001, None, true), vec![row(3)]);
    d.tick(5000);
    assert_eq!(
        pass(&mut r, &d, 5001, None, true),
        vec![Rect { x: 18, y: 24 + 54, w: 14, h: 18 }]
    );
    // Rows that are gone are wiped.
    d.clear_chat();
    assert_eq!(pass(&mut r, &d, 6000, None, true), vec![row(0), row(1)]);
    assert_eq!(pass(&mut r, &d, 6001, None, true), vec![row(2), row(3)]);
    assert_eq!(pass(&mut r, &d, 6002, None, true), vec![]);
}

#[test]
fn a_rejected_push_is_repeated() {
    let mut d = Display::new();
    let mut r = taken_over(&d);
    pass(&mut r, &d, 3000, None, true);
    d.add_user_line("x");
    let row = Rect { x: 0, y: 24, w: 240, h: 18 };
    assert_eq!(pass(&mut r, &d, 3001, None, false), vec![row]);
    assert_eq!(pass(&mut r, &d, 3002, None, true), vec![row]);
    assert_eq!(pass(&mut r, &d, 3003, None, true), vec![]);
}

#[test]
fn the_last_lines_are_visible_with_a_caret_while_listening() {
    let mut d = Display::new();
    let mut r = taken_over(&d);
    d.set_state(DisplayState::Listening);
    // On an empty screen only the caret shows.
    assert_eq!(
        pass(&mut r, &d, 3000, None, true),
        vec![Rect { x: 0, y: 0, w: 240, h: 22 }, Rect { x: 0, y: 24, w: 240, h: 18 }]
    );
    for i in 0..13 {
        d.add_user_line(&i.to_string());
    }
    let mut n = 0;
    for t in 0..10 {
        n += pass(&mut r, &d, 3001 + t, None, true).len();
    }
    assert_eq!(n, 12);
    d.add_user_line("new");
    let mut n = 0;
    for t in 0..10 {
        n += pass(&mut r, &d, 4001 + t, None, true).len();
    }
    assert_eq!(n, 12);
}

#[test]
fn a_dead_panel_is_revived_every_two_seconds() {
    let d = Display::new();
    let mut r = Renderer::new();
    assert_eq!(r.tick(&d, false, 1999, None), Paint::Done);
    assert_eq!(r.tick(&d, false, 2000, None), Paint::Recover);
    assert_eq!(r.tick(&d, false, 3999, None), Paint::Done);
    assert_eq!(r.tick(&d, false, 4000, None), Paint::Recover);
}
