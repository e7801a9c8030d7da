//! The screen: what is drawn where on the 200x200 panel.
//!
//! A scene is a list of shapes in the order in which they are drawn; whoever owns the panel, or
//! a window on a desk, draws it.
use crate::balance::{Flow, Snapshot, WARNING_SECS};
use crate::fixed;
use crate::text;
use vstd::prelude::*;

verus! {

/// Panel geometry. The board is fixed at 200x200.
pub const WIDTH: u32 = 200;

pub const HEIGHT: u32 = 200;

/// The faces in use. The largest has numbers and the colon only.
#[derive(Debug, Clone, Copy, PartialEq, Eq, Structural)]
pub enum Font {
    Hero,
    Title,
    Label,
    Small,
}

/// How a text sits at its point.
#[derive(Debug, Clone, Copy, PartialEq, Eq, Structural)]
pub enum Anchor {
    /// Centred on the point.
    Center,
    /// On the baseline, to the right of the point.
    BaselineLeft,
}

/// A text on the screen.
#[derive(Debug, PartialEq, Eq)]
pub struct Label {
    pub font: Font,
    pub text: String,
    pub x: i64,
    pub y: i64,
    pub anchor: Anchor,
}

/// Everything on the screen that is not text.
#[derive(Debug, Clone, Copy, PartialEq, Eq, Structural)]
pub enum Mark {
    /// A line of some width.
    Stroke { x0: i32, y0: i32, x1: i32, y1: i32, width: u32 },
    /// A rectangle with rounded corners, one pixel wide, drawn inside its bounds.
    Frame { x: i32, y: i32, width: u32, height: u32, corner: u32 },
    /// A filled rectangle.
    Fill { x: i32, y: i32, width: u32, height: u32 },
    /// A filled triangle.
    Triangle { x0: i32, y0: i32, x1: i32, y1: i32, x2: i32, y2: i32 },
}

/// Something to draw.
#[derive(Debug, PartialEq, Eq)]
pub enum Shape {
    Text(Label),
    Mark(Mark),
}

/// Something to draw, its text as a sequence of characters.
pub enum Drawn {
    Text { font: Font, text: Seq<char>, x: int, y: int, anchor: Anchor },
    Mark(Mark),
}

impl Shape {
    pub open spec fn drawn(self) -> Drawn {
        match self {
            Shape::Text(l) => Drawn::Text {
                font: l.font,
                text: l.text@,
                x: l.x as int,
                y: l.y as int,
                anchor: l.anchor,
            },
            Shape::Mark(m) => Drawn::Mark(m),
        }
    }
}

/// What a list of shapes draws.
pub open spec fn all_drawn(shapes: Seq<Shape>) -> Seq<Drawn> {
    shapes.map_values(|s: Shape| s.drawn())
}

/// A screen: ink on paper, or the other way round.
pub struct Scene {
    pub inverted: bool,
    pub shapes: Vec<Shape>,
}

/// Everything the screen needs beyond the ledger snapshot.
pub struct Chrome<'a> {
    pub device_names: [&'a str; 2],
}

impl Default for Chrome<'_> {
    fn default() -> (r: Self)
        ensures
            r.device_names@[0]@ == "Handy"@,
            r.device_names@[1]@ == "Tablet"@,
    {
        Chrome { device_names: ["Handy", "Tablet"] }
    }
}

/// How many characters a text that is measured has at most.
pub const LONGEST_MEASURED: usize = 32;

/// How wide a number is in the largest face, where all its characters are in it.
pub uninterp spec fn hero_width(t: Seq<char>) -> Option<i32>;

/// How wide a text is in the title face, where all its characters are in it.
pub uninterp spec fn title_width(t: Seq<char>) -> Option<i32>;

/// `u8g2_fonts::FontRenderer::get_rendered_dimensions` in the face `logisoso62_tn`: the
/// horizontal advance of the text, or nothing where the face lacks a character. It depends on
/// the text alone. The advances add up in 32 bits, so the text has to be short.
#[verifier::external_body]
fn hero_advance(t: &str) -> (r: Option<i32>)
    requires
        t@.len() <= LONGEST_MEASURED,
    ensures
        r == hero_width(t@),
{
    u8g2_fonts::FontRenderer::new::<u8g2_fonts::fonts::u8g2_font_logisoso62_tn>()
        .get_rendered_dimensions(
            t,
            embedded_graphics::prelude::Point::zero(),
            u8g2_fonts::types::VerticalPosition::Baseline,
        )
        .ok()
        .map(|d| d.advance.x)
}

/// `u8g2_fonts::FontRenderer::get_rendered_dimensions` in the face `helvB18_tf`: the horizontal
/// advance of the text, or nothing where the face lacks a character. It depends on the text
/// alone. The advances add up in 32 bits, so the text has to be short.
#[verifier::external_body]
fn title_advance(t: &str) -> (r: Option<i32>)
    requires
        t@.len() <= LONGEST_MEASURED,
    ensures
        r == title_width(t@),
{
    u8g2_fonts::FontRenderer::new::<u8g2_fonts::fonts::u8g2_font_helvB18_tf>()
        .get_rendered_dimensions(
            t,
            embedded_graphics::prelude::Point::zero(),
            u8g2_fonts::types::VerticalPosition::Baseline,
        )
        .ok()
        .map(|d| d.advance.x)
}

/// Minutes, rounded up, so "1" shows until the time is truly gone.
pub open spec fn ceil_minutes(secs: int) -> int {
    if secs <= 0 {
        0
    } else {
        (secs + 59) / 60
    }
}

/// Minutes, rounded up, so "1" shows until the time is truly gone.
pub fn minutes_ceil(secs: i32) -> (r: u32)
    ensures
        r == ceil_minutes(secs as int),
{
    if secs <= 0 {
        return 0;
    }
    ((secs as u32) + 59) / 60
}

/// What the number on the screen is made of: hours and minutes from an hour on.
pub open spec fn big_pieces(mins: nat) -> Seq<Seq<char>> {
    if mins >= 60 {
        seq![
            text::decimal(mins / 60),
            ":"@,
            text::pad(mins % 60),
            text::decimal(mins % 60),
        ]
    } else {
        seq![text::decimal(mins)]
    }
}

/// The number on the screen, which has room for eight characters.
pub open spec fn big_text(mins: nat) -> Seq<char> {
    fixed::written(Seq::empty(), big_pieces(mins), 8)
}

/// The number reads in full, up to a hundred thousand hours: as minutes below an hour, and as
/// hours and two digits of minutes from there on.
pub proof fn the_number_reads_in_full(mins: nat)
    requires
        mins < 6_000_000,
    ensures
        big_text(mins) == if mins >= 60 {
            text::decimal(mins / 60) + ":"@ + text::two_digits(mins % 60)
        } else {
            text::decimal(mins)
        },
{
    let pieces = big_pieces(mins);
    let all = if mins >= 60 {
        text::decimal(mins / 60) + ":"@ + text::two_digits(mins % 60)
    } else {
        text::decimal(mins)
    };
    reveal_with_fuel(fixed::flat, 5);
    reveal_strlit(":");
    reveal_strlit("0");
    reveal_strlit("");
    if mins >= 60 {
        let (h, m) = (text::decimal(mins / 60), text::decimal(mins % 60));
        assert(pieces.drop_last() =~= seq![h, ":"@, text::pad(mins % 60)]);
        assert(pieces.drop_last().drop_last() =~= seq![h, ":"@]);
        assert(pieces.drop_last().drop_last().drop_last() =~= seq![h]);
        assert(text::pad(mins % 60) + m =~= text::two_digits(mins % 60));
        lemma_digits(mins / 60);
        lemma_digits(mins % 60);
        text::decimal_is_ascii(mins / 60);
        text::decimal_is_ascii(mins % 60);
    } else {
        lemma_digits(mins);
        text::decimal_is_ascii(mins);
    }
    assert(fixed::flat(pieces) =~= all);
    fixed::ascii_takes_one_byte_each(all);
    assert(fixed::byte_len(Seq::<char>::empty()) == 0);
    fixed::what_fits_is_written(Seq::empty(), pieces, 8);
    assert(Seq::<char>::empty() + all =~= all);
}

/// Numbers below a hundred have two digits, those below a hundred thousand five.
proof fn lemma_digits(n: nat)
    requires
        n < 100_000,
    ensures
        text::decimal(n).len() <= 5,
        n < 100 ==> text::decimal(n).len() <= 2,
        n < 10 ==> text::decimal(n).len() == 1,
{
    reveal_with_fuel(text::decimal, 6);
}

/// The unit behind the number.
pub open spec fn unit_text(mins: nat) -> Seq<char> {
    if mins >= 60 {
        "h"@
    } else {
        "min"@
    }
}

/// A width, zero where it is unknown.
pub open spec fn known_width(w: Option<i32>) -> int {
    match w {
        Some(w) => w as int,
        None => 0,
    }
}

/// Half of a number, rounded toward zero.
pub open spec fn half(n: int) -> int {
    if n >= 0 {
        n / 2
    } else {
        -((-n) / 2)
    }
}

/// Number and unit, centred as a pair.
pub open spec fn hero_shapes(mins: nat, num_w: int, unit_w: int) -> Seq<Drawn> {
    let left = 100 - half(num_w + 6 + unit_w);
    seq![
        Drawn::Text {
            font: Font::Hero,
            text: big_text(mins),
            x: left,
            y: 84,
            anchor: Anchor::BaselineLeft,
        },
        Drawn::Text {
            font: Font::Title,
            text: unit_text(mins),
            x: left + num_w + 6,
            y: 84,
            anchor: Anchor::BaselineLeft,
        },
    ]
}

/// A centred text.
pub open spec fn centred(font: Font, t: Seq<char>, x: int, y: int) -> Drawn {
    Drawn::Text { font, text: t, x, y, anchor: Anchor::Center }
}

/// Night, or out of balance: what is happening and what to do about it. Docking is the only
/// thing that changes the situation, so it says so.
pub open spec fn lockout_shapes(s: Snapshot<2>) -> Seq<Drawn> {
    let docked = s.docked@[0] && s.docked@[1];
    seq![
        centred(
            Font::Title,
            if s.night {
                "NACHT"@
            } else {
                "ZEIT UM"@
            },
            100,
            52,
        ),
        centred(
            Font::Label,
            if s.balance_secs < 0 {
                "Minus "@ + text::decimal(ceil_minutes(-s.balance_secs) as nat) + " Min"@
            } else if docked {
                "lädt wieder auf"@
            } else {
                "zurücklegen"@
            },
            100,
            84,
        ),
    ] + if s.balance_secs < 0 && !docked {
        seq![centred(Font::Small, "zurücklegen"@, 100, 106)]
    } else {
        Seq::empty()
    }
}

/// Balance against the cap, in pixels of the gauge.
pub open spec fn gauge_fill(s: Snapshot<2>) -> int {
    if s.cap_secs > 0 && s.balance_secs > 0 {
        (if s.balance_secs < s.cap_secs {
            s.balance_secs as int
        } else {
            s.cap_secs as int
        }) * 184 / (s.cap_secs as int)
    } else {
        0
    }
}

/// The gauge, so saving toward something is visible.
pub open spec fn gauge_shapes(s: Snapshot<2>) -> Seq<Drawn> {
    seq![Drawn::Mark(Mark::Frame { x: 6, y: 100, width: 188, height: 16, corner: 3 })] + if gauge_fill(
        s,
    ) > 0 {
        seq![
            Drawn::Mark(Mark::Fill { x: 8, y: 102, width: gauge_fill(s) as u32, height: 12 }),
        ]
    } else {
        Seq::empty()
    }
}

/// A tick around `cx`: the long arm runs up to the right.
pub open spec fn check_marks(cx: int) -> Seq<Drawn> {
    seq![
        Drawn::Mark(
            Mark::Stroke { x0: (cx - 22) as i32, y0: 148, x1: (cx - 5) as i32, y1: 159, width: 7 },
        ),
        Drawn::Mark(
            Mark::Stroke { x0: (cx - 5) as i32, y0: 159, x1: (cx + 22) as i32, y1: 130, width: 7 },
        ),
    ]
}

/// A cross around `cx`.
pub open spec fn cross_marks(cx: int) -> Seq<Drawn> {
    seq![
        Drawn::Mark(
            Mark::Stroke { x0: (cx - 17) as i32, y0: 129, x1: (cx + 17) as i32, y1: 163, width: 7 },
        ),
        Drawn::Mark(
            Mark::Stroke { x0: (cx + 17) as i32, y0: 129, x1: (cx - 17) as i32, y1: 163, width: 7 },
        ),
    ]
}

/// One device: a tick where it is put back, a cross where it is taken, and its name.
pub open spec fn dock_shapes(docked: bool, name: Seq<char>, cx: int) -> Seq<Drawn> {
    (if docked {
        check_marks(cx)
    } else {
        cross_marks(cx)
    }) + seq![centred(Font::Label, name, cx, 181)]
}

/// The bottom of the screen says what the balance is doing, wordlessly: an upward triangle for
/// filling, a dashed rule for held, a solid rule for draining, thick in the last minutes.
pub open spec fn flow_shapes(s: Snapshot<2>) -> Seq<Drawn> {
    match s.flow {
        Flow::Filling => seq![
            Drawn::Mark(Mark::Triangle { x0: 100, y0: 188, x1: 93, y1: 195, x2: 107, y2: 195 }),
        ],
        Flow::Held => Seq::new(
            16,
            |k: int|
                Drawn::Mark(
                    Mark::Stroke {
                        x0: (6 + 12 * k) as i32,
                        y0: 195,
                        x1: (12 + 12 * k) as i32,
                        y1: 195,
                        width: 1,
                    },
                ),
        ),
        Flow::Draining => seq![
            Drawn::Mark(
                Mark::Stroke {
                    x0: 6,
                    y0: 195,
                    x1: 193,
                    y1: 195,
                    width: if s.balance_secs <= WARNING_SECS {
                        3
                    } else {
                        1
                    },
                },
            ),
        ],
    }
}

/// Whether the screen is in its locked-out presentation.
pub open spec fn locked(s: Snapshot<2>) -> bool {
    s.night || s.balance_secs <= 0
}

/// Everything on the screen, given how wide the number and its unit are.
pub open spec fn scene_shapes(s: Snapshot<2>, names: Seq<Seq<char>>, num_w: int, unit_w: int) -> Seq<
    Drawn,
> {
    (if locked(s) {
        lockout_shapes(s)
    } else {
        hero_shapes(ceil_minutes(s.balance_secs as int) as nat, num_w, unit_w) + gauge_shapes(s)
    }) + dock_shapes(s.docked@[0], names[0], 50) + dock_shapes(s.docked@[1], names[1], 150)
        + flow_shapes(s)
}

fn put_text(shapes: &mut Vec<Shape>, font: Font, t: String, x: i64, y: i64, anchor: Anchor)
    ensures
        all_drawn(final(shapes)@) == all_drawn(old(shapes)@).push(
            Drawn::Text { font, text: t@, x: x as int, y: y as int, anchor },
        ),
{
    let ghost shown = Drawn::Text { font, text: t@, x: x as int, y: y as int, anchor };
    shapes.push(Shape::Text(Label { font, text: t, x, y, anchor }));
    assert(all_drawn(shapes@) =~= all_drawn(old(shapes)@).push(shown));
}

fn put_mark(shapes: &mut Vec<Shape>, m: Mark)
    ensures
        all_drawn(final(shapes)@) == all_drawn(old(shapes)@).push(Drawn::Mark(m)),
{
    shapes.push(Shape::Mark(m));
    assert(all_drawn(shapes@) =~= all_drawn(old(shapes)@).push(Drawn::Mark(m)));
}

/// The number on the screen.
pub fn big(mins: u32) -> (r: heapless::String<8>)
    ensures
        fixed::holds(r, big_text(mins as nat)),
{
    let mut out: heapless::String<8> = fixed::empty();
    if mins >= 60 {
        let hours: String = text::in_decimal((mins / 60) as u64);
        let rest: String = text::in_decimal((mins % 60) as u64);
        let pieces: [&str; 4] = [
            hours.as_str(),
            ":",
            text::padding((mins % 60) as u64),
            rest.as_str(),
        ];
        assert(text::slices(pieces@) =~= big_pieces(mins as nat));
        fixed::write(&mut out, pieces.as_slice());
    } else {
        let digits: String = text::in_decimal(mins as u64);
        let pieces: [&str; 1] = [digits.as_str()];
        assert(text::slices(pieces@) =~= big_pieces(mins as nat));
        fixed::write(&mut out, pieces.as_slice());
    }
    out
}

fn hero(shapes: &mut Vec<Shape>, mins: u32, num_w: i32, unit_w: i32)
    ensures
        all_drawn(final(shapes)@) == all_drawn(old(shapes)@) + hero_shapes(
            mins as nat,
            num_w as int,
            unit_w as int,
        ),
{
    let sum: i64 = num_w as i64 + 6 + unit_w as i64;
    let left: i64 = 100 - if sum >= 0 {
        sum / 2
    } else {
        -((-sum) / 2)
    };
    let unit: String = if mins >= 60 {
        "h".to_owned()
    } else {
        "min".to_owned()
    };
    let number: heapless::String<8> = big(mins);
    let shown: &str = fixed::read(&number);
    proof {
        fixed::holds_one_text(number, shown, big_text(mins as nat));
    }
    put_text(shapes, Font::Hero, shown.to_owned(), left, 84, Anchor::BaselineLeft);
    put_text(shapes, Font::Title, unit, left + num_w as i64 + 6, 84, Anchor::BaselineLeft);
    assert(all_drawn(shapes@) =~= all_drawn(old(shapes)@) + hero_shapes(
        mins as nat,
        num_w as int,
        unit_w as int,
    ));
}

fn lockout(shapes: &mut Vec<Shape>, s: &Snapshot<2>)
    requires
        s.balance_secs > i32::MIN,
    ensures
        all_drawn(final(shapes)@) == all_drawn(old(shapes)@) + lockout_shapes(*s),
{
    let docked: bool = s.docked[0] && s.docked[1];
    let title: String = if s.night {
        "NACHT".to_owned()
    } else {
        "ZEIT UM".to_owned()
    };
    put_text(shapes, Font::Title, title, 100, 52, Anchor::Center);
    let sub: String = if s.balance_secs < 0 {
        let mut out: String = "Minus ".to_owned();
        text::push_decimal(&mut out, minutes_ceil(-s.balance_secs) as u64);
        out.append(" Min");
        out
    } else if docked {
        "lädt wieder auf".to_owned()
    } else {
        "zurücklegen".to_owned()
    };
    put_text(shapes, Font::Label, sub, 100, 84, Anchor::Center);
    if s.balance_secs < 0 && !docked {
        put_text(shapes, Font::Small, "zurücklegen".to_owned(), 100, 106, Anchor::Center);
    }
    assert(all_drawn(shapes@) =~= all_drawn(old(shapes)@) + lockout_shapes(*s));
}

fn gauge(shapes: &mut Vec<Shape>, s: &Snapshot<2>)
    ensures
        all_drawn(final(shapes)@) == all_drawn(old(shapes)@) + gauge_shapes(*s),
{
    put_mark(shapes, Mark::Frame { x: 6, y: 100, width: WIDTH - 12, height: 16, corner: 3 });
    if s.cap_secs > 0 && s.balance_secs > 0 {
        let part: u64 = if (s.balance_secs as u64) < s.cap_secs as u64 {
            s.balance_secs as u64
        } else {
            s.cap_secs as u64
        };
        let filled: u64 = part * 184 / s.cap_secs as u64;
        proof {
            assert(part * 184 / (s.cap_secs as int) <= 184) by (nonlinear_arith)
                requires
                    0 <= part <= s.cap_secs,
                    0 < s.cap_secs,
            ;
        }
        if filled > 0 {
            put_mark(shapes, Mark::Fill { x: 8, y: 102, width: filled as u32, height: 12 });
        }
    }
    assert(all_drawn(shapes@) =~= all_drawn(old(shapes)@) + gauge_shapes(*s));
}

/// Put back. The long arm runs up to the right, which is what makes it read as a tick.
fn check(shapes: &mut Vec<Shape>, cx: i32)
    requires
        0 <= cx <= 200,
    ensures
        all_drawn(final(shapes)@) == all_drawn(old(shapes)@) + check_marks(cx as int),
{
    put_mark(shapes, Mark::Stroke { x0: cx - 22, y0: 148, x1: cx - 5, y1: 159, width: 7 });
    put_mark(shapes, Mark::Stroke { x0: cx - 5, y0: 159, x1: cx + 22, y1: 130, width: 7 });
    assert(all_drawn(shapes@) =~= all_drawn(old(shapes)@) + check_marks(cx as int));
}

/// Taken away.
fn cross(shapes: &mut Vec<Shape>, cx: i32)
    requires
        0 <= cx <= 200,
    ensures
        all_drawn(final(shapes)@) == all_drawn(old(shapes)@) + cross_marks(cx as int),
{
    put_mark(shapes, Mark::Stroke { x0: cx - 17, y0: 129, x1: cx + 17, y1: 163, width: 7 });
    put_mark(shapes, Mark::Stroke { x0: cx + 17, y0: 129, x1: cx - 17, y1: 163, width: 7 });
    assert(all_drawn(shapes@) =~= all_drawn(old(shapes)@) + cross_marks(cx as int));
}

/// Every device, side by side.
fn dock_row(shapes: &mut Vec<Shape>, s: &Snapshot<2>, chrome: &Chrome)
    ensures
        all_drawn(final(shapes)@) == all_drawn(old(shapes)@) + dock_shapes(
            s.docked@[0],
            chrome.device_names@[0]@,
            50,
        ) + dock_shapes(s.docked@[1], chrome.device_names@[1]@, 150),
{
    let mut i: usize = 0;
    let ghost before = all_drawn(shapes@);
    while i < 2
        invariant
            i <= 2,
            all_drawn(shapes@) == before + (if i >= 1 {
                dock_shapes(s.docked@[0], chrome.device_names@[0]@, 50)
            } else {
                Seq::empty()
            }) + (if i >= 2 {
                dock_shapes(s.docked@[1], chrome.device_names@[1]@, 150)
            } else {
                Seq::empty()
            }),
        decreases 2 - i,
    {
        let ghost so_far = all_drawn(shapes@);
        let name: &str = chrome.device_names[i];
        let cx: i32 = 50 + 100 * i as i32;
        if s.docked[i] {
            check(shapes, cx);
        } else {
            cross(shapes, cx);
        }
        put_text(shapes, Font::Label, name.to_owned(), cx as i64, 181, Anchor::Center);
        assert(all_drawn(shapes@) =~= so_far + dock_shapes(
            s.docked@[i as int],
            chrome.device_names@[i as int]@,
            cx as int,
        ));
        i += 1;
        assert(so_far + Seq::<Drawn>::empty() =~= so_far);
        assert(all_drawn(shapes@) =~= before + (if i >= 1 {
            dock_shapes(s.docked@[0], chrome.device_names@[0]@, 50)
        } else {
            Seq::empty()
        }) + (if i >= 2 {
            dock_shapes(s.docked@[1], chrome.device_names@[1]@, 150)
        } else {
            Seq::empty()
        }));
    }
}

fn flow_cue(shapes: &mut Vec<Shape>, s: &Snapshot<2>)
    ensures
        all_drawn(final(shapes)@) == all_drawn(old(shapes)@) + flow_shapes(*s),
{
    match s.flow {
        Flow::Filling => {
            put_mark(
                shapes,
                Mark::Triangle { x0: 100, y0: 188, x1: 93, y1: 195, x2: 107, y2: 195 },
            );
        },
        Flow::Held => {
            let ghost before = all_drawn(shapes@);
            let ghost dashes = flow_shapes(*s);
            let mut x: i32 = 6;
            let ghost mut k: int = 0;
            assert(all_drawn(shapes@) =~= before + dashes.take(0));
            while x < 193
                invariant
                    0 <= k <= 16,
                    x == 6 + 12 * k,
                    s.flow == Flow::Held,
                    dashes == flow_shapes(*s),
                    all_drawn(shapes@) == before + dashes.take(k),
                decreases 205 - x,
            {
                let end: i32 = if x + 6 < 193 {
                    x + 6
                } else {
                    193
                };
                put_mark(shapes, Mark::Stroke { x0: x, y0: 195, x1: end, y1: 195, width: 1 });
                proof {
                    assert(dashes[k] == Drawn::Mark(
                        Mark::Stroke { x0: x, y0: 195, x1: end, y1: 195, width: 1 },
                    ));
                    assert(all_drawn(shapes@) =~= before + dashes.take(k + 1));
                    k = k + 1;
                }
                x += 12;
            }
            assert(dashes.take(k) =~= dashes);
        },
        Flow::Draining => {
            let width: u32 = if s.balance_secs <= WARNING_SECS {
                3
            } else {
                1
            };
            put_mark(shapes, Mark::Stroke { x0: 6, y0: 195, x1: 193, y1: 195, width });
        },
    }
    assert(all_drawn(shapes@) =~= all_drawn(old(shapes)@) + flow_shapes(*s));
}

/// Lay the whole screen out, given how wide the number and its unit are. Locked out inverts the
/// whole screen: unmissable from across the room.
pub fn layout(s: &Snapshot<2>, chrome: &Chrome, num_w: i32, unit_w: i32) -> (r: Scene)
    requires
        s.balance_secs > i32::MIN,
    ensures
        r.inverted == locked(*s),
        all_drawn(r.shapes@) == scene_shapes(
            *s,
            seq![chrome.device_names@[0]@, chrome.device_names@[1]@],
            num_w as int,
            unit_w as int,
        ),
{
    let inverted: bool = s.night || s.exhausted();
    let mut shapes: Vec<Shape> = Vec::new();
    assert(all_drawn(shapes@) =~= Seq::<Drawn>::empty());
    if inverted {
        lockout(&mut shapes, s);
    } else {
        hero(&mut shapes, minutes_ceil(s.balance_secs), num_w, unit_w);
        gauge(&mut shapes, s);
    }
    dock_row(&mut shapes, s, chrome);
    flow_cue(&mut shapes, s);
    assert(all_drawn(shapes@) =~= scene_shapes(
        *s,
        seq![chrome.device_names@[0]@, chrome.device_names@[1]@],
        num_w as int,
        unit_w as int,
    ));
    Scene { inverted, shapes }
}

/// Draw the whole screen: the scene for a snapshot, with the number measured in its own face so
/// that it stays centred together with its unit.
pub fn render(s: &Snapshot<2>, chrome: &Chrome) -> (r: Scene)
    requires
        s.balance_secs > i32::MIN,
    ensures
        r.inverted == locked(*s),
        ({
            let mins = ceil_minutes(s.balance_secs as int) as nat;
            all_drawn(r.shapes@) == scene_shapes(
                *s,
                seq![chrome.device_names@[0]@, chrome.device_names@[1]@],
                known_width(hero_width(big_text(mins))),
                known_width(title_width(unit_text(mins))),
            )
        }),
{
    let mins: u32 = minutes_ceil(s.balance_secs);
    let number: heapless::String<8> = big(mins);
    let shown: &str = fixed::read(&number);
    proof {
        fixed::holds_one_text(number, shown, big_text(mins as nat));
        fixed::at_least_one_byte_each(shown@);
        reveal_strlit("h");
        reveal_strlit("min");
    }
    let num_w: i32 = match hero_advance(shown) {
        Some(w) => w,
        None => 0,
    };
    let unit_w: i32 = match title_advance(
        if mins >= 60 {
            "h"
        } else {
            "min"
        },
    ) {
        Some(w) => w,
        None => 0,
    };
    layout(s, chrome, num_w, unit_w)
}

/// The last minute stays visible: the number on the screen is zero only when nothing is left.
pub proof fn the_last_minute_stays_visible(secs: int)
    ensures
        ceil_minutes(secs) == 0 <==> secs <= 0,
        secs > 0 ==> (ceil_minutes(secs) - 1) * 60 < secs <= ceil_minutes(secs) * 60,
{
}

/// The gauge is never longer than its frame has room for.
pub proof fn the_gauge_stays_in_its_frame(s: Snapshot<2>)
    ensures
        0 <= gauge_fill(s) <= 184,
{
    if s.cap_secs > 0 && s.balance_secs > 0 {
        let part = if s.balance_secs < s.cap_secs {
            s.balance_secs as int
        } else {
            s.cap_secs as int
        };
        assert(0 <= part * 184 / (s.cap_secs as int) <= 184) by (nonlinear_arith)
            requires
                0 <= part <= s.cap_secs,
                0 < s.cap_secs,
        ;
    }
}

/// The screen is turned over, and says why, exactly at night and while nothing is left: the night
/// goes first. What is owed is shown in minutes, rounded up.
pub proof fn the_lockout_says_why(s: Snapshot<2>, names: Seq<Seq<char>>, num_w: int, unit_w: int)
    requires
        s.balance_secs > i32::MIN,
    ensures
        ({
            let shapes = scene_shapes(s, names, num_w, unit_w);
            let title = Drawn::Text {
                font: Font::Title,
                text: if s.night {
                    "NACHT"@
                } else {
                    "ZEIT UM"@
                },
                x: 100,
                y: 52,
                anchor: Anchor::Center,
            };
            &&& locked(s) <==> s.night || s.balance_secs <= 0
            &&& locked(s) ==> shapes[0] == title
            &&& !locked(s) ==> shapes[0] is Text && shapes[0]->font == Font::Hero
            &&& locked(s) && s.balance_secs < 0 ==> exists|owed: nat|
                {
                    &&& 60 * (owed - 1) < -s.balance_secs <= 60 * owed
                    &&& #[trigger] scene_line(shapes[1]) == "Minus "@ + text::decimal(owed)
                        + " Min"@
                }
        }),
{
    let shapes = scene_shapes(s, names, num_w, unit_w);
    if locked(s) {
        assert(shapes[0] == lockout_shapes(s)[0]);
        assert(shapes[1] == lockout_shapes(s)[1]);
        if s.balance_secs < 0 {
            let owed = ceil_minutes(-s.balance_secs) as nat;
            assert(scene_line(shapes[1]) == "Minus "@ + text::decimal(owed) + " Min"@);
        }
    } else {
        let mins = ceil_minutes(s.balance_secs as int) as nat;
        assert(shapes[0] == hero_shapes(mins, num_w, unit_w)[0]);
    }
}

/// The text of something drawn.
pub open spec fn scene_line(d: Drawn) -> Seq<char> {
    d->Text_text
}

/// The number is what is left in minutes, rounded up, and stands centred together with its unit.
pub proof fn what_is_left_stands_in_the_middle(
    s: Snapshot<2>,
    names: Seq<Seq<char>>,
    num_w: int,
    unit_w: int,
    mins: nat,
)
    requires
        !s.night,
        60 * (mins - 1) < s.balance_secs <= 60 * mins,
        mins > 0,
    ensures
        ({
            let shapes = scene_shapes(s, names, num_w, unit_w);
            let (number, unit) = (shapes[0], shapes[1]);
            &&& scene_line(number) == big_text(mins)
            &&& scene_line(unit) == if mins < 60 {
                "min"@
            } else {
                "h"@
            }
            &&& unit->x == number->x + num_w + 6
            &&& -1 <= number->x - (200 - (unit->x + unit_w)) <= 1
            &&& number->Text_y == 84 && unit->Text_y == 84
        }),
{
    let shapes = scene_shapes(s, names, num_w, unit_w);
    assert(mins == ceil_minutes(s.balance_secs as int));
    assert(shapes[0] == hero_shapes(mins, num_w, unit_w)[0]);
    assert(shapes[1] == hero_shapes(mins, num_w, unit_w)[1]);
}

/// The gauge is as full as the balance is of the cap.
pub proof fn the_gauge_is_as_full_as_the_balance(s: Snapshot<2>)
    requires
        0 < s.cap_secs,
    ensures
        0 <= s.balance_secs <= s.cap_secs ==> gauge_fill(s) * s.cap_secs <= s.balance_secs * 184 < (
        gauge_fill(s) + 1) * s.cap_secs,
        s.balance_secs > s.cap_secs ==> gauge_fill(s) == 184,
        s.balance_secs <= 0 ==> gauge_fill(s) == 0,
{
    let cap = s.cap_secs as int;
    let left = s.balance_secs as int;
    if 0 <= left <= cap {
        vstd::arithmetic::div_mod::lemma_fundamental_div_mod(left * 184, cap);
        let (q, r) = (left * 184 / cap, left * 184 % cap);
        assert(q * cap == cap * q) by (nonlinear_arith);
        assert((q + 1) * cap == cap * q + cap) by (nonlinear_arith);
        if left == cap {
            assert(q == 184) by (nonlinear_arith)
                requires
                    q == left * 184 / cap,
                    left == cap,
                    cap > 0,
            ;
        }
    }
    if left > cap {
        assert(cap * 184 / cap == 184) by (nonlinear_arith)
            requires
                cap > 0,
        ;
    }
}

/// Each device has its half of the screen, with its name, and a tick or a cross that does not
/// depend on the other device; a tick is no cross.
pub proof fn each_device_has_its_half(
    s: Snapshot<2>,
    names: Seq<Seq<char>>,
    num_w: int,
    unit_w: int,
)
    ensures
        ({
            let shapes = scene_shapes(s, names, num_w, unit_w);
            let left = dock_shapes(s.docked@[0], names[0], 50);
            let right = dock_shapes(s.docked@[1], names[1], 150);
            let n = shapes.len() - flow_shapes(s).len();
            &&& left.len() == 3 && right.len() == 3
            &&& shapes.subrange(n - 6, n - 3) == left
            &&& shapes.subrange(n - 3, n) == right
            &&& scene_line(left[2]) == names[0] && scene_line(right[2]) == names[1]
            &&& shapes.skip(n) == flow_shapes(s)
        }),
        dock_shapes(true, names[0], 50)[1] != dock_shapes(false, names[0], 50)[1],
        forall|docked: bool, i: int|
            0 <= i < 2 ==> {
                let d = #[trigger] dock_shapes(docked, names[0], 50)[i];
                let e = #[trigger] dock_shapes(docked, names[1], 150)[i];
                &&& d is Mark && d->Mark_0 is Stroke && e is Mark && e->Mark_0 is Stroke
                &&& 0 <= d->Mark_0->Stroke_x0 < 100 && 0 <= d->Mark_0->Stroke_x1 < 100
                &&& 100 <= e->Mark_0->Stroke_x0 < 200 && 100 <= e->Mark_0->Stroke_x1 < 200
            },
{
    let shapes = scene_shapes(s, names, num_w, unit_w);
    let left = dock_shapes(s.docked@[0], names[0], 50);
    let right = dock_shapes(s.docked@[1], names[1], 150);
    let n = shapes.len() - flow_shapes(s).len();
    assert(shapes.subrange(n - 6, n - 3) =~= left);
    assert(shapes.subrange(n - 3, n) =~= right);
    assert(shapes.skip(n) =~= flow_shapes(s));
    let (tick, cross) = (
        dock_shapes(true, names[0], 50)[1],
        dock_shapes(false, names[0], 50)[1],
    );
    assert(tick->Mark_0->Stroke_x0 != cross->Mark_0->Stroke_x0);
}

/// The bottom line tells the three flows apart, and the last five minutes of draining.
pub proof fn the_bottom_line_tells_the_flow(s: Snapshot<2>)
    ensures
        ({
            let drawn = flow_shapes(s);
            &&& s.flow == Flow::Filling <==> drawn.len() == 1 && drawn[0]->Mark_0 is Triangle
            &&& s.flow == Flow::Held <==> drawn.len() > 1
            &&& s.flow == Flow::Draining ==> drawn.len() == 1 && drawn[0]->Mark_0 is Stroke && (
            drawn[0]->Mark_0->Stroke_width == 3 <==> s.balance_secs <= 300)
        }),
{
}

/// A locked screen says what to do: put the devices back, or wait where they are. A debt comes first,
/// and the advice under it.
pub proof fn the_lockout_says_what_to_do(s: Snapshot<2>, names: Seq<Seq<char>>, num_w: int, unit_w: int)
    requires
        s.night || s.balance_secs <= 0,
        s.balance_secs > i32::MIN,
    ensures
        ({
            let shapes = scene_shapes(s, names, num_w, unit_w);
            let all_back = s.docked@[0] && s.docked@[1];
            &&& s.balance_secs >= 0 && all_back ==> scene_line(shapes[1]) == "lädt wieder auf"@
            &&& s.balance_secs >= 0 && !all_back ==> scene_line(shapes[1]) == "zurücklegen"@
            &&& s.balance_secs < 0 && !all_back ==> scene_line(shapes[2]) == "zurücklegen"@
                && shapes[2]->font == Font::Small
            &&& s.balance_secs < 0 && all_back ==> shapes[2] is Mark
        }),
{
    let shapes = scene_shapes(s, names, num_w, unit_w);
    let lockout = lockout_shapes(s);
    assert(shapes[1] == lockout[1]);
    if s.balance_secs < 0 && !(s.docked@[0] && s.docked@[1]) {
        assert(shapes[2] == lockout[2]);
    } else {
        assert(shapes[2] == dock_shapes(s.docked@[0], names[0], 50)[0]);
    }
}

} // verus!
