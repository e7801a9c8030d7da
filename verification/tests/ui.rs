//! The screen.
use medienzeit::balance::{Flow, Snapshot};
use medienzeit::civil::local;
use medienzeit::ui::{
    big, layout, minutes_ceil, render, Chrome, Font, Mark, Scene, Shape, HEIGHT, WIDTH,
};

#[test]
fn minutes_round_up_so_the_last_minute_stays_visible() {
    assert_eq!(minutes_ceil(0), 0);
    assert_eq!(minutes_ceil(1), 1);
    assert_eq!(minutes_ceil(59), 1);
    assert_eq!(minutes_ceil(60), 1);
    assert_eq!(minutes_ceil(61), 2);
    assert_eq!(minutes_ceil(3_600), 60);
}

#[test]
fn a_negative_balance_reads_as_zero_minutes_remaining() {
    // The magnitude is shown separately on the lockout screen; the hero never
    // needs a minus sign, which the numbers-only hero font could not render.
    assert_eq!(minutes_ceil(-1), 0);
    assert_eq!(minutes_ceil(-1_800), 0);
}

fn snap(balance_secs: i32, flow: Flow) -> Snapshot<2> {
    Snapshot {
        balance_secs,
        cap_secs: 10_800,
        docked: [true, false],
        present: [true, true],
        flow,
        night: false,
        in_grace: false,
        grace_remaining_secs: 0,
        blocked: [false, false],
        local: local(0),
    }
}

fn texts(s: &Scene) -> Vec<(Font, String, i64, i64)> {
    s.shapes
        .iter()
        .filter_map(|s| match s {
            Shape::Text(l) => Some((l.font, l.text.clone(), l.x, l.y)),
            Shape::Mark(_) => None,
        })
        .collect()
}

fn marks(s: &Scene) -> Vec<Mark> {
    s.shapes
        .iter()
        .filter_map(|s| match s {
            Shape::Text(_) => None,
            Shape::Mark(m) => Some(*m),
        })
        .collect()
}

#[test]
fn the_number_and_its_unit_are_centred_as_a_pair() {
    let s = layout(&snap(45 * 60, Flow::Filling), &Chrome::default(), 80, 40);
    assert!(!s.inverted);
    // 80 + 6 + 40 wide, so it starts 63 left of the middle.
    assert_eq!(
        texts(&s),
        vec![
            (Font::Hero, "45".to_string(), 37, 84),
            (Font::Title, "min".to_string(), 123, 84),
            (Font::Label, "Handy".to_string(), 50, 181),
            (Font::Label, "Tablet".to_string(), 150, 181),
        ]
    );
}

#[test]
fn the_measured_width_moves_the_number() {
    // The more digits, the wider the number, the further left it starts.
    let one = render(&snap(5 * 60, Flow::Filling), &Chrome::default());
    let two = render(&snap(45 * 60, Flow::Filling), &Chrome::default());
    let hours = render(&snap(100 * 60, Flow::Filling), &Chrome::default());
    let left = |s: &Scene| texts(s)[0].2;
    assert!(left(&two) < left(&one));
    assert!(left(&hours) < left(&two));
    assert_eq!(texts(&hours)[0].1, "1:40");
    assert_eq!(texts(&hours)[1].1, "h");
    // Between the two texts lie the number and the gap.
    let widths = |s: &Scene| texts(s)[1].2 - texts(s)[0].2;
    assert!(widths(&two) > widths(&one) && widths(&one) > 6);
}

#[test]
fn hours_take_over_from_sixty_minutes() {
    assert_eq!(big(0), "0");
    assert_eq!(big(59), "59");
    assert_eq!(big(60), "1:00");
    assert_eq!(big(185), "3:05");
    assert_eq!(big(99_999 * 60 + 59), "99999:59");
    assert_eq!(big(100_000 * 60 + 15), "100000:");
    assert_eq!(big(100_000 * 60 + 5), "100000:0");
    assert_eq!(big(u32::MAX), "71582788");
}

#[test]
fn the_gauge_shows_the_share_of_the_cap() {
    let s = layout(&snap(5_400, Flow::Filling), &Chrome::default(), 0, 0);
    let m = marks(&s);
    assert_eq!(m[0], Mark::Frame { x: 6, y: 100, width: 188, height: 16, corner: 3 });
    assert_eq!(m[1], Mark::Fill { x: 8, y: 102, width: 92, height: 12 });
    let full = marks(&layout(&snap(20_000, Flow::Filling), &Chrome::default(), 0, 0));
    assert_eq!(full[1], Mark::Fill { x: 8, y: 102, width: 184, height: 12 });
    let mut none = snap(600, Flow::Filling);
    none.cap_secs = 0;
    assert!(!marks(&layout(&none, &Chrome::default(), 0, 0))
        .iter()
        .any(|m| matches!(m, Mark::Fill { .. })));
}

#[test]
fn a_tick_for_what_is_put_back_and_a_cross_for_what_is_taken() {
    let m = marks(&layout(&snap(1, Flow::Filling), &Chrome::default(), 0, 0));
    assert_eq!(
        m[1..5],
        [
            Mark::Stroke { x0: 28, y0: 148, x1: 45, y1: 159, width: 7 },
            Mark::Stroke { x0: 45, y0: 159, x1: 72, y1: 130, width: 7 },
            Mark::Stroke { x0: 133, y0: 129, x1: 167, y1: 163, width: 7 },
            Mark::Stroke { x0: 167, y0: 129, x1: 133, y1: 163, width: 7 },
        ]
    );
}

#[test]
fn the_bottom_says_what_the_balance_does() {
    let last = |s: &Scene| *marks(s).last().unwrap();
    let s = layout(&snap(600, Flow::Filling), &Chrome::default(), 0, 0);
    assert_eq!(last(&s), Mark::Triangle { x0: 100, y0: 188, x1: 93, y1: 195, x2: 107, y2: 195 });
    let s = layout(&snap(600, Flow::Draining), &Chrome::default(), 0, 0);
    assert_eq!(last(&s), Mark::Stroke { x0: 6, y0: 195, x1: 193, y1: 195, width: 1 });
    let s = layout(&snap(300, Flow::Draining), &Chrome::default(), 0, 0);
    assert_eq!(last(&s), Mark::Stroke { x0: 6, y0: 195, x1: 193, y1: 195, width: 3 });
    let s = layout(&snap(600, Flow::Held), &Chrome::default(), 0, 0);
    let dashes: Vec<Mark> = marks(&s).into_iter().filter(|m| matches!(m, Mark::Stroke { width: 1, .. })).collect();
    assert_eq!(dashes.len(), 16);
    assert_eq!(dashes[0], Mark::Stroke { x0: 6, y0: 195, x1: 12, y1: 195, width: 1 });
    assert_eq!(dashes[15], Mark::Stroke { x0: 186, y0: 195, x1: 192, y1: 195, width: 1 });
}

#[test]
fn locked_out_inverts_and_says_what_to_do() {
    let s = layout(&snap(0, Flow::Draining), &Chrome::default(), 0, 0);
    assert!(s.inverted);
    assert_eq!(texts(&s)[0], (Font::Title, "ZEIT UM".to_string(), 100, 52));
    assert_eq!(texts(&s)[1], (Font::Label, "zurücklegen".to_string(), 100, 84));

    let s = layout(&snap(-61, Flow::Draining), &Chrome::default(), 0, 0);
    assert_eq!(texts(&s)[1].1, "Minus 2 Min");
    assert_eq!(texts(&s)[2], (Font::Small, "zurücklegen".to_string(), 100, 106));

    let mut back = snap(0, Flow::Filling);
    back.docked = [true, true];
    back.night = true;
    let s = layout(&back, &Chrome::default(), 0, 0);
    assert_eq!(texts(&s)[0].1, "NACHT");
    assert_eq!(texts(&s)[1].1, "lädt wieder auf");
}

#[test]
fn the_panel_is_square() {
    assert_eq!((WIDTH, HEIGHT), (200, 200));
}
