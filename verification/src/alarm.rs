//! The alarm clock radio: its clock face, tuner, volume knob and buttons, and
//! the line that says what is playing.
use vstd::prelude::*;
use vstd::slice::slice_subrange;

use crate::chars::{
    append_chars, append_str, decimal_chars, find_char, first_place, from_chars, lemma_first_place,
    lines_chars, lines_of, same_text, string_views, to_chars, trim, trim_chars, views,
};
use crate::framebuffer::Framebuffer;
use crate::graphics::{in_rect, lemma_place, opaque, span, Index, Palette, Rect, Rgba, Sprite};
use crate::hunger::two_digits;
use crate::json::{array_text, member_text, object_text};
use crate::now_playing::{command_message, quoted_all};
use crate::palette_color::{BLACK, CREAM, CRIMSON, LAVENDER, PLUM, ROSE};
use crate::paths::str_view;
use crate::scene::{shape_views, Shape, ShapeView};
use crate::text::font::BitmapFont;

verus! {

pub const DISPLAY_X: usize = 20;

pub const DISPLAY_Y: usize = 23;

pub const CLOCK_CLEAR_W: usize = 64;

pub const CLOCK_CLEAR_H: usize = 25;

/// Where the art shows an eight with all its segments, and a colon.
pub const CLOCK_EIGHT_SRC_X: usize = 35;

pub const CLOCK_EIGHT_SRC_Y: usize = 23;

pub const CLOCK_COLON_SRC_X: usize = 50;

pub const CLOCK_COLON_SRC_Y: usize = 26;

pub const TUNER_X: usize = 114;

pub const TUNER_Y: usize = 22;

pub const TUNER_W: usize = 72;

pub const TUNER_H: usize = 26;

pub const TUNER_MARK_Y: usize = 33;

pub const TUNER_MARK_SIZE: usize = 5;

pub const LABEL_ABOVE_Y: usize = 20;

pub const LABEL_BELOW_Y: usize = 34;

pub const MEDIA_BUTTON_X: usize = 173;

pub const MEDIA_BUTTON_Y: usize = 4;

pub const MEDIA_BUTTON_H: usize = 12;

pub const KNOB_X: usize = 204;

pub const KNOB_Y: usize = 33;

pub const KNOB_RADIUS: usize = 18;

pub const MAX_VOLUME: u8 = 100;

pub const TITLE_GAP: usize = 3;

/// Milliseconds between looks at the clock, the volume and the title.
pub const CLOCK_REFRESH_MILLIS: u64 = 250;

pub const VOLUME_REFRESH_MILLIS: u64 = 3000;

pub const TITLE_REFRESH_MILLIS: u64 = 1000;

/// A radio station: a short label and what the player is given.
pub struct Station {
    pub label: String,
    pub mpv_args: String,
}

pub type StationView = (Seq<char>, Seq<char>);

pub open spec fn station_views(stations: Seq<Station>) -> Seq<StationView> {
    Seq::new(stations.len(), |i: int| (stations[i].label@, stations[i].mpv_args@))
}

pub open spec fn shortened(s: Seq<char>, n: int) -> Seq<char> {
    if s.len() > n {
        s.take(n)
    } else {
        s
    }
}

/// What a line of the stations file says: a label of at most five characters,
/// a bar, and the player's arguments. Blank lines, comments and lines without
/// a label say nothing.
pub open spec fn station_of(line: Seq<char>) -> Option<StationView> {
    let text = trim(line);
    if text.len() == 0 || text[0] == '#' {
        None
    } else {
        match first_place(text, '|') {
            None => None,
            Some(i) => {
                let label = trim(text.take(i));
                if label.len() == 0 {
                    None
                } else {
                    Some((shortened(label, 5), trim(text.skip(i + 1))))
                }
            },
        }
    }
}

pub fn parse_station(line: &str) -> (r: Option<Station>)
    ensures
        match r {
            Some(station) => station_of(line@) == Some((station.label@, station.mpv_args@)),
            None => station_of(line@) is None,
        },
{
    let chars = to_chars(line);
    let text = trim_chars(&chars);
    if text.len() == 0 || text[0] == '#' {
        return None;
    }
    match find_char(text, '|') {
        None => None,
        Some(i) => {
            let head = slice_subrange(text, 0, i);
            assert(head@ =~= text@.take(i as int));
            let label = trim_chars(head);
            if label.len() == 0 {
                return None;
            }
            let rest = slice_subrange(text, i + 1, text.len());
            assert(rest@ =~= text@.skip(i + 1));
            let short = if label.len() > 5 {
                slice_subrange(label, 0, 5)
            } else {
                label
            };
            assert(short@ =~= shortened(label@, 5));
            Some(Station { label: from_chars(short), mpv_args: from_chars(trim_chars(rest)) })
        },
    }
}

/// The stations that lines name.
pub open spec fn stations_of(lines: Seq<Seq<char>>) -> Seq<StationView>
    decreases lines.len(),
{
    if lines.len() == 0 {
        Seq::empty()
    } else {
        let before = stations_of(lines.drop_last());
        match station_of(lines.last()) {
            Some(station) => before.push(station),
            None => before,
        }
    }
}

/// The stations when none are configured.
pub open spec fn preset_stations() -> Seq<StationView> {
    seq![
        ("FM"@, "--no-video --really-quiet https://somafm.com/groovesalad.pls"@),
        ("POP"@, "--no-video --really-quiet https://somafm.com/poptron.pls"@),
        ("DNB"@, "--no-video --really-quiet https://somafm.com/deepspaceone.pls"@),
        ("JAZZ"@, "--no-video --really-quiet https://somafm.com/sonicuniverse.pls"@),
        ("LPS"@, "--no-video --really-quiet https://somafm.com/lush.pls"@),
    ]
}

fn station(label: &str, mpv_args: &str) -> (r: Station)
    ensures
        r.label@ == label@,
        r.mpv_args@ == mpv_args@,
{
    Station { label: label.to_owned(), mpv_args: mpv_args.to_owned() }
}

pub fn default_stations() -> (r: Vec<Station>)
    ensures
        station_views(r@) == preset_stations(),
{
    let mut out: Vec<Station> = Vec::new();
    out.push(station("FM", "--no-video --really-quiet https://somafm.com/groovesalad.pls"));
    out.push(station("POP", "--no-video --really-quiet https://somafm.com/poptron.pls"));
    out.push(station("DNB", "--no-video --really-quiet https://somafm.com/deepspaceone.pls"));
    out.push(station("JAZZ", "--no-video --really-quiet https://somafm.com/sonicuniverse.pls"));
    out.push(station("LPS", "--no-video --really-quiet https://somafm.com/lush.pls"));
    assert(station_views(out@) =~= preset_stations());
    out
}

/// The configured stations, or the presets when the file is missing or names
/// none.
pub fn load_stations(text: Option<&str>) -> (r: Vec<Station>)
    ensures
        station_views(r@) == (match text {
            Some(text) => if stations_of(lines_of(text@)).len() > 0 {
                stations_of(lines_of(text@))
            } else {
                preset_stations()
            },
            None => preset_stations(),
        }),
        r@.len() > 0,
{
    if let Some(content) = text {
        let chars = to_chars(content);
        let lines = lines_chars(&chars);
        let mut out: Vec<Station> = Vec::new();
        let mut i: usize = 0;
        assert(station_views(out@) =~= stations_of(views(lines@).take(0)));
        while i < lines.len()
            invariant
                i <= lines@.len(),
                views(lines@) == lines_of(content@),
                station_views(out@) =~= stations_of(views(lines@).take(i as int)),
            decreases lines@.len() - i,
        {
            let line = from_chars(&lines[i]);
            assert(views(lines@).take(i + 1).drop_last() =~= views(lines@).take(i as int));
            if let Some(found) = parse_station(line.as_str()) {
                let ghost before = out@;
                out.push(found);
                assert(station_views(out@) =~= station_views(before).push(
                    (found.label@, found.mpv_args@),
                ));
            }
            i += 1;
        }
        assert(views(lines@).take(lines@.len() as int) =~= views(lines@));
        assert(station_views(out@).len() == out@.len());
        if out.len() > 0 {
            return out;
        }
    }
    let presets = default_stations();
    assert(station_views(presets@).len() == presets@.len());
    presets
}

/// The clock's text: hours of twelve or of twenty-four, and minutes; zeros
/// without a time.
pub open spec fn clock_face(clock_24h: bool, time: Option<(u8, u8)>) -> Seq<char> {
    match time {
        None => "00:00"@,
        Some((hour, minute)) => {
            let shown = if clock_24h {
                hour as int
            } else if hour % 12 == 0 {
                12
            } else {
                (hour % 12) as int
            };
            two_digits(shown) + seq![':'] + two_digits(minute as int)
        },
    }
}

fn append_number(out: &mut Vec<char>, n: u8)
    ensures
        final(out)@ == old(out)@ + two_digits(n as int),
{
    let ghost start = out@;
    if n < 10 {
        out.push('0');
    }
    let digits = decimal_chars(n as u64);
    append_chars(out, &digits);
    assert(out@ =~= start + two_digits(n as int));
}

pub fn clock_text(clock_24h: bool, time: Option<(u8, u8)>) -> (r: String)
    ensures
        r@ == clock_face(clock_24h, time),
{
    match time {
        None => "00:00".to_owned(),
        Some((hour, minute)) => {
            let shown: u8 = if clock_24h {
                hour
            } else if hour % 12 == 0 {
                12
            } else {
                hour % 12
            };
            let mut out: Vec<char> = Vec::new();
            append_number(&mut out, shown);
            out.push(':');
            append_number(&mut out, minute);
            assert(out@ =~= clock_face(clock_24h, time));
            from_chars(&out)
        },
    }
}

/// Whether a digit lights one of the seven segments: top, right upper, right
/// lower, bottom, left lower, left upper, middle.
pub open spec fn lights(digit: char, segment: int) -> bool {
    if segment == 0 {
        digit != '1' && digit != '4'
    } else if segment == 1 {
        digit != '5' && digit != '6'
    } else if segment == 2 {
        digit != '2'
    } else if segment == 3 {
        digit != '1' && digit != '4' && digit != '7'
    } else if segment == 4 {
        digit == '0' || digit == '2' || digit == '6' || digit == '8'
    } else if segment == 5 {
        digit != '1' && digit != '2' && digit != '3' && digit != '7'
    } else {
        digit != '0' && digit != '1' && digit != '7'
    }
}

/// The segments of a digit as bits, the top one lowest.
pub fn digit_mask(digit: char) -> (r: Option<u8>)
    ensures
        match r {
            Some(mask) => '0' <= digit <= '9' && forall|s: u8|
                s < 7 ==> (mask & (1u8 << s) != 0) == #[trigger] lights(digit, s as int),
            None => !('0' <= digit <= '9'),
        },
{
    let mask: u8 = match digit {
        '0' => 0b011_1111,
        '1' => 0b000_0110,
        '2' => 0b101_1011,
        '3' => 0b100_1111,
        '4' => 0b110_0110,
        '5' => 0b110_1101,
        '6' => 0b111_1101,
        '7' => 0b000_0111,
        '8' => 0b111_1111,
        '9' => 0b110_1111,
        _ => {
            return None;
        },
    };
    proof {
        lemma_mask_bits(0b011_1111, true, true, true, true, true, true, false);
        lemma_mask_bits(0b000_0110, false, true, true, false, false, false, false);
        lemma_mask_bits(0b101_1011, true, true, false, true, true, false, true);
        lemma_mask_bits(0b100_1111, true, true, true, true, false, false, true);
        lemma_mask_bits(0b110_0110, false, true, true, false, false, true, true);
        lemma_mask_bits(0b110_1101, true, false, true, true, false, true, true);
        lemma_mask_bits(0b111_1101, true, false, true, true, true, true, true);
        lemma_mask_bits(0b000_0111, true, true, true, false, false, false, false);
        lemma_mask_bits(0b111_1111, true, true, true, true, true, true, true);
        lemma_mask_bits(0b110_1111, true, true, true, true, false, true, true);
        assert forall|s: u8| s < 7 implies (mask & (1u8 << s) != 0) == #[trigger] lights(
            digit,
            s as int,
        ) by {
            assert(s == 0 || s == 1 || s == 2 || s == 3 || s == 4 || s == 5 || s == 6);
        }
    }
    Some(mask)
}

proof fn lemma_mask_bits(
    mask: u8,
    a: bool,
    b: bool,
    c: bool,
    d: bool,
    e: bool,
    f: bool,
    g: bool,
)
    requires
        mask == (if a {
            1u8
        } else {
            0
        }) + (if b {
            2u8
        } else {
            0
        }) + (if c {
            4u8
        } else {
            0
        }) + (if d {
            8u8
        } else {
            0
        }) + (if e {
            16u8
        } else {
            0
        }) + (if f {
            32u8
        } else {
            0
        }) + (if g {
            64u8
        } else {
            0
        }),
    ensures
        (mask & (1u8 << 0u8) != 0) == a,
        (mask & (1u8 << 1u8) != 0) == b,
        (mask & (1u8 << 2u8) != 0) == c,
        (mask & (1u8 << 3u8) != 0) == d,
        (mask & (1u8 << 4u8) != 0) == e,
        (mask & (1u8 << 5u8) != 0) == f,
        (mask & (1u8 << 6u8) != 0) == g,
{
    let (na, nb, nc, nd, ne, nf, ng) = (
        if a {
            1u8
        } else {
            0
        },
        if b {
            2u8
        } else {
            0
        },
        if c {
            4u8
        } else {
            0
        },
        if d {
            8u8
        } else {
            0
        },
        if e {
            16u8
        } else {
            0
        },
        if f {
            32u8
        } else {
            0
        },
        if g {
            64u8
        } else {
            0
        },
    );
    assert((mask & (1u8 << 0u8) != 0) == (na != 0) && (mask & (1u8 << 1u8) != 0) == (nb != 0) && (
    mask & (1u8 << 2u8) != 0) == (nc != 0) && (mask & (1u8 << 3u8) != 0) == (nd != 0) && (mask & (
    1u8 << 4u8) != 0) == (ne != 0) && (mask & (1u8 << 5u8) != 0) == (nf != 0) && (mask & (1u8
        << 6u8) != 0) == (ng != 0)) by (bit_vector)
        requires
            mask == na + nb + nc + nd + ne + nf + ng,
            na == 0 || na == 1,
            nb == 0 || nb == 2,
            nc == 0 || nc == 4,
            nd == 0 || nd == 8,
            ne == 0 || ne == 16,
            nf == 0 || nf == 32,
            ng == 0 || ng == 64,
    ;
}

/// Where the art shows a segment of its eight: a bar of eight by three or of
/// three by eleven.
pub open spec fn segment_area(segment: int) -> Rect {
    let x = CLOCK_EIGHT_SRC_X;
    let y = CLOCK_EIGHT_SRC_Y;
    let rect = |dx: int, dy: int, w: usize, h: usize|
        Rect { x: (x + dx) as usize, y: (y + dy) as usize, w, h };
    if segment == 0 {
        rect(2, 0, 8, 3)
    } else if segment == 1 {
        rect(9, 2, 3, 11)
    } else if segment == 2 {
        rect(9, 12, 3, 11)
    } else if segment == 3 {
        rect(2, 22, 8, 3)
    } else if segment == 4 {
        rect(0, 12, 3, 11)
    } else if segment == 5 {
        rect(0, 2, 3, 11)
    } else if segment == 6 {
        rect(2, 11, 8, 3)
    } else {
        rect(0, 0, 0, 0)
    }
}

pub fn clock_segment_rect(segment: usize) -> (r: Rect)
    ensures
        r == segment_area(segment as int),
{
    match segment {
        0 => Rect { x: CLOCK_EIGHT_SRC_X + 2, y: CLOCK_EIGHT_SRC_Y, w: 8, h: 3 },
        1 => Rect { x: CLOCK_EIGHT_SRC_X + 9, y: CLOCK_EIGHT_SRC_Y + 2, w: 3, h: 11 },
        2 => Rect { x: CLOCK_EIGHT_SRC_X + 9, y: CLOCK_EIGHT_SRC_Y + 12, w: 3, h: 11 },
        3 => Rect { x: CLOCK_EIGHT_SRC_X + 2, y: CLOCK_EIGHT_SRC_Y + 22, w: 8, h: 3 },
        4 => Rect { x: CLOCK_EIGHT_SRC_X, y: CLOCK_EIGHT_SRC_Y + 12, w: 3, h: 11 },
        5 => Rect { x: CLOCK_EIGHT_SRC_X, y: CLOCK_EIGHT_SRC_Y + 2, w: 3, h: 11 },
        6 => Rect { x: CLOCK_EIGHT_SRC_X + 2, y: CLOCK_EIGHT_SRC_Y + 11, w: 8, h: 3 },
        _ => Rect { x: CLOCK_EIGHT_SRC_X, y: CLOCK_EIGHT_SRC_Y, w: 0, h: 0 },
    }
}

/// The index of a pixel of the art that belongs to the clock's glow.
pub open spec fn glows(index: Index) -> bool {
    index == CRIMSON || index == ROSE
}

/// Art that holds the eight and the colon.
pub open spec fn clock_art(image: &Sprite) -> bool {
    image.wf() && image.width >= 54 && image.height >= 48
}

/// What a character of the clock puts at a place counted from the character's
/// own corner.
pub open spec fn glyph_stroke(image: &Sprite, ch: char, x: int, y: int) -> Option<Index> {
    let (source_x, source_y, shown) = if ch == ':' {
        (50 + x, 22 + y, 0 <= x < 4 && 4 <= y < 26)
    } else {
        (
            35 + x,
            23 + y,
            '0' <= ch <= '9' && exists|s: int|
                0 <= s < 7 && #[trigger] lights(ch, s) && in_rect(segment_area(s), 35 + x, 23 + y),
        )
    };
    if shown && glows(image.index_at(source_x, source_y)) {
        Some(image.index_at(source_x, source_y))
    } else {
        None
    }
}

pub open spec fn clock_advance(ch: char) -> int {
    if ch == ':' {
        7
    } else {
        15
    }
}

/// Where the next character of the clock goes.
pub open spec fn clock_end(text: Seq<char>) -> int
    decreases text.len(),
{
    if text.len() == 0 {
        DISPLAY_X as int
    } else {
        clock_end(text.drop_last()) + clock_advance(text.last())
    }
}

/// What the clock puts at a place.
pub open spec fn clock_stroke(image: &Sprite, text: Seq<char>, px: int, py: int) -> Option<Index>
    decreases text.len(),
{
    if text.len() == 0 {
        None
    } else {
        match glyph_stroke(
            image,
            text.last(),
            px - clock_end(text.drop_last()),
            py - DISPLAY_Y,
        ) {
            Some(index) => Some(index),
            None => clock_stroke(image, text.drop_last(), px, py),
        }
    }
}

/// A copied pixel: one of `src` that glows, moved so that `anchor` comes to
/// `dest`.
pub open spec fn copied(image: &Sprite, src: Rect, dx: int, dy: int, px: int, py: int) -> Option<
    Index,
> {
    if in_rect(src, px - dx, py - dy) && glows(image.index_at(px - dx, py - dy)) {
        Some(image.index_at(px - dx, py - dy))
    } else {
        None
    }
}

pub open spec fn stroked(
    before: &Framebuffer,
    after: &Framebuffer,
    palette: &Palette,
    stroke: spec_fn(int, int) -> Option<Index>,
) -> bool {
    &&& after.wf()
    &&& after.same_size(before)
    &&& forall|px: int, py: int|
        after.has(px, py) ==> #[trigger] after.color_at(px, py) == (match stroke(px, py) {
            Some(index) => opaque(palette.color_of(index)),
            None => before.color_at(px, py),
        })
}

/// Copies the glowing pixels of a part of the art to where `anchor` lands on
/// `dest`.
fn copy_clock_pixels(
    image: &Sprite,
    fb: &mut Framebuffer,
    src: Rect,
    anchor: (usize, usize),
    dest: (usize, usize),
    palette: &Palette,
)
    requires
        old(fb).wf(),
        image.wf(),
        palette.colors().len() > 0,
        anchor.0 <= src.x,
        anchor.1 <= src.y,
        src.x + src.w <= image.width,
        src.y + src.h <= image.height,
        dest.0 + image.width <= usize::MAX,
        dest.1 + image.height <= usize::MAX,
    ensures
        stroked(
            old(fb),
            final(fb),
            palette,
            |px: int, py: int|
                copied(image, src, dest.0 - anchor.0, dest.1 - anchor.1, px, py),
        ),
{
    let ghost start = *fb;
    let ghost dx = dest.0 - anchor.0;
    let ghost dy = dest.1 - anchor.1;
    let mut y: usize = 0;
    while y < src.h
        invariant
            y <= src.h,
            fb.wf(),
            fb.same_size(&start),
            image.wf(),
            palette.colors().len() > 0,
            anchor.0 <= src.x,
            anchor.1 <= src.y,
            src.x + src.w <= image.width,
            src.y + src.h <= image.height,
            dest.0 + image.width <= usize::MAX,
            dest.1 + image.height <= usize::MAX,
            dx == dest.0 - anchor.0,
            dy == dest.1 - anchor.1,
            forall|px: int, py: int|
                fb.has(px, py) ==> #[trigger] fb.color_at(px, py) == (match copied(
                    image,
                    Rect { x: src.x, y: src.y, w: src.w, h: y },
                    dx,
                    dy,
                    px,
                    py,
                ) {
                    Some(index) => opaque(palette.color_of(index)),
                    None => start.color_at(px, py),
                }),
        decreases src.h - y,
    {
        let ghost row = *fb;
        let mut x: usize = 0;
        while x < src.w
            invariant
                x <= src.w,
                y < src.h,
                fb.wf(),
                fb.same_size(&row),
                image.wf(),
                palette.colors().len() > 0,
                anchor.0 <= src.x,
                anchor.1 <= src.y,
                src.x + src.w <= image.width,
                src.y + src.h <= image.height,
                dest.0 + image.width <= usize::MAX,
                dest.1 + image.height <= usize::MAX,
                dx == dest.0 - anchor.0,
                dy == dest.1 - anchor.1,
                forall|px: int, py: int|
                    fb.has(px, py) ==> #[trigger] fb.color_at(px, py) == (match copied(
                        image,
                        Rect { x: src.x, y: (src.y + y) as usize, w: x, h: 1 },
                        dx,
                        dy,
                        px,
                        py,
                    ) {
                        Some(index) => opaque(palette.color_of(index)),
                        None => row.color_at(px, py),
                    }),
            decreases src.w - x,
        {
            proof {
                lemma_place(
                    image.width as int,
                    image.height as int,
                    src.x + x,
                    src.y + y,
                );
            }
            let index: Index = image.at(src.x + x, src.y + y);
            if index == CRIMSON || index == ROSE {
                let color: Rgba = Rgba::from(palette.color(index));
                fb.set_pixel(dest.0 + (src.x + x - anchor.0), dest.1 + (src.y + y - anchor.1), color);
            }
            x += 1;
        }
        y += 1;
    }
    assert(Rect { x: src.x, y: src.y, w: src.w, h: y } == src);
}

fn copy_clock_digit(
    image: &Sprite,
    fb: &mut Framebuffer,
    digit: char,
    dest: (usize, usize),
    palette: &Palette,
)
    requires
        old(fb).wf(),
        clock_art(image),
        palette.colors().len() > 0,
        digit != ':',
        dest.0 + image.width <= usize::MAX,
        dest.1 + image.height <= usize::MAX,
    ensures
        stroked(
            old(fb),
            final(fb),
            palette,
            |px: int, py: int| glyph_stroke(image, digit, px - dest.0, py - dest.1),
        ),
{
    let ghost start = *fb;
    match digit_mask(digit) {
        None => {},
        Some(mask) => {
            let mut segment: u8 = 0;
            while segment < 7
                invariant
                    segment <= 7,
                    fb.wf(),
                    fb.same_size(&start),
                    clock_art(image),
                    palette.colors().len() > 0,
                    dest.0 + image.width <= usize::MAX,
                    dest.1 + image.height <= usize::MAX,
                    forall|s: u8|
                        s < 7 ==> (mask & (1u8 << s) != 0) == #[trigger] lights(digit, s as int),
                    forall|px: int, py: int|
                        fb.has(px, py) ==> #[trigger] fb.color_at(px, py) == (if (exists|s: int|
                            0 <= s < segment && #[trigger] lights(digit, s) && in_rect(
                                segment_area(s),
                                35 + px - dest.0,
                                23 + py - dest.1,
                            )) && glows(image.index_at(35 + px - dest.0, 23 + py - dest.1)) {
                            opaque(
                                palette.color_of(
                                    image.index_at(35 + px - dest.0, 23 + py - dest.1),
                                ),
                            )
                        } else {
                            start.color_at(px, py)
                        }),
                decreases 7 - segment,
            {
                let ghost before = *fb;
                assert(lights(digit, segment as int) == (mask & (1u8 << segment) != 0));
                if mask & (1u8 << segment) != 0 {
                    let rect = clock_segment_rect(segment as usize);
                    copy_clock_pixels(
                        image,
                        fb,
                        rect,
                        (CLOCK_EIGHT_SRC_X, CLOCK_EIGHT_SRC_Y),
                        dest,
                        palette,
                    );
                    assert forall|px: int, py: int| fb.has(px, py) implies #[trigger] fb.color_at(
                        px,
                        py,
                    ) == (if (exists|s: int|
                        0 <= s < segment + 1 && #[trigger] lights(digit, s) && in_rect(
                            segment_area(s),
                            35 + px - dest.0,
                            23 + py - dest.1,
                        )) && glows(image.index_at(35 + px - dest.0, 23 + py - dest.1)) {
                        opaque(
                            palette.color_of(image.index_at(35 + px - dest.0, 23 + py - dest.1)),
                        )
                    } else {
                        start.color_at(px, py)
                    }) by {
                        let sx = 35 + px - dest.0;
                        let sy = 23 + py - dest.1;
                        assert(px - (dest.0 - 35) == sx && py - (dest.1 - 23) == sy);
                        assert(before.has(px, py));
                        assert(before.color_at(px, py) == before.color_at(px, py));
                        assert(lights(digit, segment as int));
                    }
                }
                segment += 1;
            }
            assert forall|px: int, py: int| fb.has(px, py) implies #[trigger] fb.color_at(px, py)
                == (match glyph_stroke(image, digit, px - dest.0, py - dest.1) {
                Some(index) => opaque(palette.color_of(index)),
                None => start.color_at(px, py),
            }) by {
                assert(35 + (px - dest.0) == 35 + px - dest.0);
                assert(23 + (py - dest.1) == 23 + py - dest.1);
            }
        },
    }
}

fn copy_clock_colon(
    image: &Sprite,
    fb: &mut Framebuffer,
    dest: (usize, usize),
    palette: &Palette,
)
    requires
        old(fb).wf(),
        clock_art(image),
        palette.colors().len() > 0,
        dest.0 + image.width <= usize::MAX,
        dest.1 + 4 + image.height <= usize::MAX,
    ensures
        stroked(
            old(fb),
            final(fb),
            palette,
            |px: int, py: int| glyph_stroke(image, ':', px - dest.0, py - dest.1),
        ),
{
    let ghost start = *fb;
    let src = Rect { x: CLOCK_COLON_SRC_X, y: CLOCK_COLON_SRC_Y, w: 4, h: 22 };
    copy_clock_pixels(
        image,
        fb,
        src,
        (CLOCK_COLON_SRC_X, CLOCK_COLON_SRC_Y),
        (dest.0, dest.1 + 4),
        palette,
    );
    assert forall|px: int, py: int| fb.has(px, py) implies #[trigger] fb.color_at(px, py) == (
    match glyph_stroke(image, ':', px - dest.0, py - dest.1) {
        Some(index) => opaque(palette.color_of(index)),
        None => start.color_at(px, py),
    }) by {
        assert(px - (dest.0 - 50) == 50 + (px - dest.0));
        assert(py - (dest.1 + 4 - 26) == 22 + (py - dest.1));
    }
}

/// Clears the clock's place to black and lights a text there, from the pieces
/// of the art.
pub fn draw_clock(fb: &mut Framebuffer, image: &Sprite, text: &str, palette: &Palette)
    requires
        old(fb).wf(),
        clock_art(image),
        palette.colors().len() > 0,
        text@.len() <= span(),
        image.width <= span(),
        image.height <= span(),
    ensures
        final(fb).wf(),
        final(fb).same_size(old(fb)),
        forall|px: int, py: int|
            final(fb).has(px, py) ==> #[trigger] final(fb).color_at(px, py) == (match clock_stroke(
                image,
                text@,
                px,
                py,
            ) {
                Some(index) => opaque(palette.color_of(index)),
                None => if DISPLAY_X <= px < DISPLAY_X + CLOCK_CLEAR_W && DISPLAY_Y <= py
                    < DISPLAY_Y + CLOCK_CLEAR_H {
                    opaque(palette.color_of(BLACK))
                } else {
                    old(fb).color_at(px, py)
                },
            }),
{
    let black: Rgba = Rgba::from(palette.color(BLACK));
    fb.fill_rect(DISPLAY_X, DISPLAY_Y, CLOCK_CLEAR_W, CLOCK_CLEAR_H, black);
    let ghost cleared = *fb;
    let chars = to_chars(text);
    let mut x: usize = DISPLAY_X;
    let mut i: usize = 0;
    while i < chars.len()
        invariant
            i <= chars@.len(),
            chars@ == text@,
            chars@.len() <= span(),
            x == clock_end(text@.take(i as int)),
            x <= DISPLAY_X + 15 * i,
            fb.wf(),
            fb.same_size(&cleared),
            clock_art(image),
            palette.colors().len() > 0,
            image.width <= span(),
            image.height <= span(),
            forall|px: int, py: int|
                fb.has(px, py) ==> #[trigger] fb.color_at(px, py) == (match clock_stroke(
                    image,
                    text@.take(i as int),
                    px,
                    py,
                ) {
                    Some(index) => opaque(palette.color_of(index)),
                    None => cleared.color_at(px, py),
                }),
        decreases chars@.len() - i,
    {
        let ghost before = *fb;
        let ch = chars[i];
        assert(text@.take(i + 1).drop_last() =~= text@.take(i as int));
        assert(text@.take(i + 1).last() == ch);
        if ch == ':' {
            copy_clock_colon(image, fb, (x, DISPLAY_Y), palette);
        } else {
            copy_clock_digit(image, fb, ch, (x, DISPLAY_Y), palette);
        }
        assert forall|px: int, py: int| fb.has(px, py) implies #[trigger] fb.color_at(px, py) == (
        match clock_stroke(image, text@.take(i + 1), px, py) {
            Some(index) => opaque(palette.color_of(index)),
            None => cleared.color_at(px, py),
        }) by {
            assert(before.has(px, py));
            assert(before.color_at(px, py) == before.color_at(px, py));
        }
        x = if ch == ':' {
            x + 7
        } else {
            x + 15
        };
        i += 1;
    }
    assert(text@.take(text@.len() as int) =~= text@);
}

/// The buttons above the tuner.
#[derive(Clone, Copy, Debug, PartialEq, Eq, Structural)]
pub enum MediaButton {
    PlayPause,
    Stop,
    Back,
    Forward,
}

/// The button with a number from left to right.
pub open spec fn button_number(i: int) -> MediaButton {
    if i == 0 {
        MediaButton::PlayPause
    } else if i == 1 {
        MediaButton::Stop
    } else if i == 2 {
        MediaButton::Back
    } else {
        MediaButton::Forward
    }
}

/// Whether a point is on a button: four of them, thirteen wide with one pixel
/// between.
pub open spec fn on_button(i: int, x: int, y: int) -> bool {
    0 <= i < 4 && MEDIA_BUTTON_X + i * 14 <= x < MEDIA_BUTTON_X + i * 14 + 13 && MEDIA_BUTTON_Y
        <= y < MEDIA_BUTTON_Y + MEDIA_BUTTON_H
}

pub fn media_button_at(x: usize, y: usize) -> (r: Option<MediaButton>)
    ensures
        match r {
            Some(button) => exists|i: int|
                #[trigger] on_button(i, x as int, y as int) && button == button_number(i),
            None => forall|i: int| !#[trigger] on_button(i, x as int, y as int),
        },
{
    if y < MEDIA_BUTTON_Y || y >= MEDIA_BUTTON_Y + MEDIA_BUTTON_H {
        return None;
    }
    if x < MEDIA_BUTTON_X || x >= MEDIA_BUTTON_X + 55 {
        return None;
    }
    let rel_x: usize = x - MEDIA_BUTTON_X;
    if rel_x % 14 >= 13 {
        assert forall|i: int| !#[trigger] on_button(i, x as int, y as int) by {
            if on_button(i, x as int, y as int) {
                assert(rel_x % 14 == rel_x - i * 14) by (nonlinear_arith)
                    requires
                        i * 14 <= rel_x < i * 14 + 13,
                        0 <= i < 4,
                ;
            }
        }
        return None;
    }
    let slot: usize = rel_x / 14;
    assert(on_button(slot as int, x as int, y as int));
    match slot {
        0 => Some(MediaButton::PlayPause),
        1 => Some(MediaButton::Stop),
        2 => Some(MediaButton::Back),
        _ => Some(MediaButton::Forward),
    }
}

pub fn tuner_contains(x: usize, y: usize) -> (r: bool)
    ensures
        r == (TUNER_X <= x < TUNER_X + TUNER_W && TUNER_Y <= y < TUNER_Y + TUNER_H),
{
    x >= TUNER_X && x < TUNER_X + TUNER_W && y >= TUNER_Y && y < TUNER_Y + TUNER_H
}

pub fn clock_contains(x: usize, y: usize) -> (r: bool)
    ensures
        r == (DISPLAY_X <= x < DISPLAY_X + CLOCK_CLEAR_W && DISPLAY_Y <= y < DISPLAY_Y
            + CLOCK_CLEAR_H),
{
    x >= DISPLAY_X && x < DISPLAY_X + CLOCK_CLEAR_W && y >= DISPLAY_Y && y < DISPLAY_Y
        + CLOCK_CLEAR_H
}

pub open spec fn on_knob(x: int, y: int) -> bool {
    (x - KNOB_X) * (x - KNOB_X) + (y - KNOB_Y) * (y - KNOB_Y) <= 324
}

/// Whether a point is on the round knob.
pub fn knob_contains(x: usize, y: usize) -> (r: bool)
    ensures
        r == on_knob(x as int, y as int),
{
    if x > KNOB_X + 18 || y > KNOB_Y + 18 {
        proof {
            let dx = x - KNOB_X;
            let dy = y - KNOB_Y;
            assert(dx * dx + dy * dy > 324) by (nonlinear_arith)
                requires
                    dx > 18 || dy > 18,
            ;
        }
        return false;
    }
    let dx: i32 = x as i32 - KNOB_X as i32;
    let dy: i32 = y as i32 - KNOB_Y as i32;
    assert(0 <= dx * dx <= 50000 && 0 <= dy * dy <= 50000) by (nonlinear_arith)
        requires
            -204 <= dx <= 204,
            -204 <= dy <= 204,
    ;
    dx * dx + dy * dy <= 324
}

/// Where the middle of a station's part of the tuner is.
pub open spec fn station_middle(index: int, count: int) -> int {
    TUNER_X + (index * 2 + 1) * TUNER_W / (count * 2)
}

pub fn station_center(index: usize, count: usize) -> (r: usize)
    requires
        index < count,
        count <= isize::MAX / 128,
    ensures
        r == station_middle(index as int, count as int),
        TUNER_X <= r <= TUNER_X + TUNER_W,
{
    proof {
        let n = (index * 2 + 1) * 72;
        let d = count * 2;
        assert(0 <= n / d <= 72) by (nonlinear_arith)
            requires
                n == (index * 2 + 1) * 72,
                d == count * 2,
                0 <= index < count,
        ;
    }
    TUNER_X + ((index * 2 + 1) * TUNER_W / (count * 2))
}

/// The station whose part of the tuner a column is in.
pub open spec fn station_under(x: int, count: int) -> int {
    let rel = if x < TUNER_X {
        0
    } else if x - TUNER_X > TUNER_W - 1 {
        TUNER_W - 1
    } else {
        x - TUNER_X
    };
    if count == 0 {
        0
    } else {
        rel * count / 72
    }
}

pub fn station_at(x: usize, count: usize) -> (r: usize)
    requires
        count <= isize::MAX / 128,
    ensures
        r == station_under(x as int, count as int),
        count > 0 ==> r < count,
{
    if count == 0 {
        return 0;
    }
    let rel: usize = if x < TUNER_X {
        0
    } else if x - TUNER_X > TUNER_W - 1 {
        TUNER_W - 1
    } else {
        x - TUNER_X
    };
    assert(0 <= rel * count <= 71 * (isize::MAX / 128)) by (nonlinear_arith)
        requires
            0 <= rel <= 71,
            0 <= count <= isize::MAX / 128,
    ;
    assert(0 <= (rel * count) / 72 < count) by (nonlinear_arith)
        requires
            0 <= rel <= 71,
            0 < count,
    ;
    rel * count / 72
}

/// The middle of a station's part is in that part, as long as every station
/// has at least two columns.
pub proof fn lemma_middle_is_station(index: int, count: int)
    requires
        0 <= index < count <= 36,
    ensures
        station_under(station_middle(index, count), count) == index,
{
    let n = (index * 2 + 1) * 72;
    let d = count * 2;
    let q = n / d;
    assert(q * d <= n < q * d + d) by (nonlinear_arith)
        requires
            q == n / d,
            d > 0,
    ;
    assert(q * count * 2 <= (index * 2 + 1) * 72 < q * count * 2 + count * 2) by (nonlinear_arith)
        requires
            q * d <= n < q * d + d,
            d == count * 2,
            n == (index * 2 + 1) * 72,
    ;
    let k = q * count;
    assert(index * 72 <= k < index * 72 + 72);
    assert(0 <= q <= 71) by (nonlinear_arith)
        requires
            k == q * count,
            0 <= index < count,
            index * 72 <= k < index * 72 + 72,
    ;
    assert(k / 72 == index);
}

/// Where the art shows the knob's marker.
pub open spec fn in_marker(x: int, y: int) -> bool {
    202 <= x < 206 && 40 <= y < 44
}

/// Paints the pixels that the knob's marker covers once it is moved.
fn paint_marker(
    fb: &mut Framebuffer,
    image: &Sprite,
    dx: isize,
    dy: isize,
    color: Rgba,
)
    requires
        old(fb).wf(),
        image.wf(),
        image.width >= 206,
        image.height >= 44,
        -0x100 * (span() + 1) <= dx <= 0x100 * (span() + 1),
        -0x100 * (span() + 1) <= dy <= 0x100 * (span() + 1),
    ensures
        final(fb).wf(),
        final(fb).same_size(old(fb)),
        forall|px: int, py: int|
            final(fb).has(px, py) ==> #[trigger] final(fb).color_at(px, py) == (if in_marker(
                px - dx,
                py - dy,
            ) && image.index_at(px - dx, py - dy) == LAVENDER {
                color
            } else {
                old(fb).color_at(px, py)
            }),
{
    let ghost start = *fb;
    let mut y: usize = 40;
    while y < 44
        invariant
            40 <= y <= 44,
            fb.wf(),
            fb.same_size(&start),
            image.wf(),
            image.width >= 206,
            image.height >= 44,
            -0x100 * (span() + 1) <= dx <= 0x100 * (span() + 1),
            -0x100 * (span() + 1) <= dy <= 0x100 * (span() + 1),
            forall|px: int, py: int|
                fb.has(px, py) ==> #[trigger] fb.color_at(px, py) == (if in_marker(px - dx, py - dy)
                    && py - dy < y && image.index_at(px - dx, py - dy) == LAVENDER {
                    color
                } else {
                    start.color_at(px, py)
                }),
        decreases 44 - y,
    {
        let ghost row = *fb;
        let mut x: usize = 202;
        while x < 206
            invariant
                202 <= x <= 206,
                40 <= y < 44,
                fb.wf(),
                fb.same_size(&row),
                image.wf(),
                image.width >= 206,
                image.height >= 44,
                -0x100 * (span() + 1) <= dx <= 0x100 * (span() + 1),
                -0x100 * (span() + 1) <= dy <= 0x100 * (span() + 1),
                forall|px: int, py: int|
                    fb.has(px, py) ==> #[trigger] fb.color_at(px, py) == (if in_marker(
                        px - dx,
                        py - dy,
                    ) && py - dy == y && px - dx < x && image.index_at(px - dx, py - dy)
                        == LAVENDER {
                        color
                    } else {
                        row.color_at(px, py)
                    }),
            decreases 206 - x,
        {
            proof {
                lemma_place(image.width as int, image.height as int, x as int, y as int);
            }
            if image.at(x, y) == LAVENDER {
                let dest_x: isize = x as isize + dx;
                let dest_y: isize = y as isize + dy;
                if dest_x >= 0 && dest_y >= 0 {
                    fb.set_pixel(dest_x as usize, dest_y as usize, color);
                }
            }
            x += 1;
        }
        y += 1;
    }
}

/// Moves the knob's marker from where the art has it to a corner at `left`
/// and `top`.
pub fn draw_knob(fb: &mut Framebuffer, image: &Sprite, left: isize, top: isize, palette: &Palette)
    requires
        old(fb).wf(),
        image.wf(),
        image.width >= 206,
        image.height >= 44,
        palette.colors().len() > 0,
        -span() <= left <= span(),
        -span() <= top <= span(),
    ensures
        final(fb).wf(),
        final(fb).same_size(old(fb)),
        forall|px: int, py: int|
            final(fb).has(px, py) ==> #[trigger] final(fb).color_at(px, py) == (if in_marker(
                px - left + 202,
                py - top + 40,
            ) && image.index_at(px - left + 202, py - top + 40) == LAVENDER {
                opaque(palette.color_of(LAVENDER))
            } else if in_marker(px, py) && image.index_at(px, py) == LAVENDER {
                opaque(palette.color_of(PLUM))
            } else {
                old(fb).color_at(px, py)
            }),
{
    let ghost start = *fb;
    let shadow: Rgba = Rgba::from(palette.color(PLUM));
    paint_marker(fb, image, 0, 0, shadow);
    let ghost cleared = *fb;
    let marker: Rgba = Rgba::from(palette.color(LAVENDER));
    let dx: isize = left - 202;
    let dy: isize = top - 40;
    paint_marker(fb, image, dx, dy, marker);
    assert forall|px: int, py: int| fb.has(px, py) implies #[trigger] fb.color_at(px, py) == (
    if in_marker(px - left + 202, py - top + 40) && image.index_at(px - left + 202, py - top + 40)
        == LAVENDER {
        opaque(palette.color_of(LAVENDER))
    } else if in_marker(px, py) && image.index_at(px, py) == LAVENDER {
        opaque(palette.color_of(PLUM))
    } else {
        start.color_at(px, py)
    }) by {
        assert(px - dx == px - left + 202 && py - dy == py - top + 40);
        assert(cleared.has(px, py));
        assert(cleared.color_at(px, py) == cleared.color_at(px, py));
        assert(px - 0 == px && py - 0 == py);
    }
}

/// A text cut so that it and three dots fit a width; all of it when it fits,
/// nothing when the dots alone do not.
pub open spec fn fitting(font: &BitmapFont, text: Seq<char>, room: int, n: int) -> bool {
    &&& 0 <= n <= text.len()
    &&& font.width_of(text.take(n)) <= room
    &&& n < text.len() ==> font.width_of(text.take(n + 1)) > room
}

pub open spec fn fitted(
    font: &BitmapFont,
    text: Seq<char>,
    max_width: int,
    r: Seq<char>,
) -> bool {
    if font.width_of(text) <= max_width {
        r == text
    } else if font.width_of("..."@) >= max_width {
        r.len() == 0
    } else {
        exists|n: int|
            #[trigger] fitting(font, text, max_width - font.width_of("..."@), n) && r == text.take(
                n,
            ) + "..."@
    }
}

pub fn fit_text(font: &BitmapFont, text: &str, max_width: usize) -> (r: String)
    requires
        font.wf(),
        255 * text@.len() + span() + 1 <= usize::MAX,
    ensures
        fitted(font, text@, max_width as int, r@),
{
    if font.text_width(text) <= max_width {
        return text.to_owned();
    }
    proof {
        reveal_strlit("...");
    }
    let dots: usize = font.text_width("...");
    if dots >= max_width {
        return String::new();
    }
    proof {
        font.lemma_width("..."@);
    }
    let chars = to_chars(text);
    let room: usize = max_width - dots;
    let mut out: Vec<char> = Vec::new();
    let mut width: usize = 0;
    let mut i: usize = 0;
    let mut full = false;
    assert(text@.take(0) =~= Seq::empty());
    while i < chars.len() && !full
        invariant
            font.wf(),
            255 * text@.len() + span() + 1 <= usize::MAX,
            chars@ == text@,
            i <= chars@.len(),
            out@ == text@.take(i as int),
            width == font.width_of(text@.take(i as int)),
            width <= room,
            full ==> i < chars@.len() && font.width_of(text@.take(i + 1)) > room,
        decreases chars@.len() - i + (if full { 0int } else { 1int }),
    {
        let next: usize = font.advance(chars[i]);
        proof {
            font.lemma_width(text@.take(i as int));
            assert(text@.take(i + 1).drop_last() =~= text@.take(i as int));
        }
        if width + next > room {
            full = true;
        } else {
            out.push(chars[i]);
            assert(out@ =~= text@.take(i + 1));
            width = width + next;
            i += 1;
        }
    }
    assert(fitting(font, text@, room as int, i as int));
    append_str(&mut out, "...");
    from_chars(&out)
}

/// What the machine has to do after an event.
pub enum AlarmAction {
    /// The event was for something else.
    Ignored,
    /// Only the picture changes.
    Redraw,
    /// Set the system's volume.
    SetVolume(u8),
    /// End the player that runs.
    StopPlayer,
    /// End the player, if one runs, and start another by this shell command.
    Play(String),
    /// Send the player a message.
    Send(String),
}

/// The shell command that plays with some arguments; the player listens where
/// the variable says.
pub open spec fn play_command(mpv_args: Seq<char>) -> Seq<char> {
    "exec mpv --input-terminal=no --input-ipc-server=\"$COZYUI_MPV_IPC\" "@ + mpv_args
}

/// The message for two words of a command.
pub open spec fn two_word_message(a: Seq<char>, b: Seq<char>) -> Seq<char> {
    object_text(seq![member_text("command"@, array_text(quoted_all(seq![a, b])))]).push('\n')
}

fn send_two_words(a: &str, b: &str) -> (r: AlarmAction)
    ensures
        r matches AlarmAction::Send(message) && message@ == two_word_message(a@, b@),
{
    let mut words: Vec<String> = Vec::new();
    words.push(a.to_owned());
    words.push(b.to_owned());
    assert(string_views(words@) =~= seq![a@, b@]);
    AlarmAction::Send(command_message(&words))
}

/// The radio's state. Instants are milliseconds on some clock.
pub struct Alarm {
    pub width: usize,
    pub image_height: usize,
    pub cell_h: usize,
    pub stations: Vec<Station>,
    pub station: usize,
    pub volume: u8,
    pub clock_24h: bool,
    pub dragging_knob: bool,
    pub playing: bool,
    pub last_clock_text: String,
    pub current_title: String,
    pub last_clock_check: u64,
    pub last_volume_check: u64,
    pub last_title_check: u64,
}

pub open spec fn clamped_volume(volume: int) -> int {
    if volume < 0 {
        0
    } else if volume > 100 {
        100
    } else {
        volume
    }
}

/// The volume that the pointer on the knob asks for. While the knob is
/// dragged, a jump over more than half the scale is a turn past its end.
pub open spec fn turned_to(current: int, pointed: int, dragging: bool) -> int {
    if dragging && pointed - current > 50 {
        0
    } else if dragging && pointed - current < -50 {
        100
    } else {
        clamped_volume(pointed)
    }
}

/// Dragging the knob past an end never jumps to the other half of the scale.
pub proof fn lemma_knob_never_wraps(current: int, pointed: int)
    requires
        0 <= current <= 100,
        0 <= pointed <= 100,
    ensures
        turned_to(current, pointed, true) - current <= 50 || turned_to(current, pointed, true)
            == 100,
        current - turned_to(current, pointed, true) <= 50 || turned_to(current, pointed, true)
            == 0,
        -50 <= pointed - current <= 50 ==> turned_to(current, pointed, true) == pointed,
        pointed - current > 50 ==> turned_to(current, pointed, true) <= current,
        pointed - current < -50 ==> turned_to(current, pointed, true) >= current,
{
}

pub open spec fn due(last: u64, now: u64, millis: u64) -> bool {
    now >= last && now - last >= millis
}

fn is_due(last: u64, now: u64, millis: u64) -> (r: bool)
    ensures
        r == due(last, now, millis),
{
    now >= last && now - last >= millis
}

impl Alarm {
    /// A radio has stations that its tuner can show, and a volume of at most a
    /// hundred.
    pub open spec fn wf(&self) -> bool {
        &&& self.stations@.len() <= isize::MAX / 128
        &&& self.stations@.len() > 0 ==> self.station < self.stations@.len()
        &&& self.volume <= MAX_VOLUME
        &&& self.width <= span()
        &&& self.image_height <= span()
        &&& self.cell_h <= span()
        &&& forall|i: int|
            0 <= i < self.stations@.len() ==> (#[trigger] self.stations@[i]).label@.len() <= 5
    }

    /// Everything but what a turn of the knob changes.
    pub open spec fn same_but_volume(&self, other: &Alarm) -> bool {
        &&& self.width == other.width
        &&& self.image_height == other.image_height
        &&& self.cell_h == other.cell_h
        &&& self.stations == other.stations
        &&& self.station == other.station
        &&& self.clock_24h == other.clock_24h
        &&& self.playing == other.playing
        &&& self.last_clock_text == other.last_clock_text
        &&& self.current_title == other.current_title
        &&& self.last_clock_check == other.last_clock_check
        &&& self.last_volume_check == other.last_volume_check
        &&& self.last_title_check == other.last_title_check
    }

    /// Everything but what starting or stopping the player changes.
    pub open spec fn same_but_player(&self, other: &Alarm) -> bool {
        &&& self.width == other.width
        &&& self.image_height == other.image_height
        &&& self.cell_h == other.cell_h
        &&& self.stations == other.stations
        &&& self.volume == other.volume
        &&& self.clock_24h == other.clock_24h
        &&& self.dragging_knob == other.dragging_knob
        &&& self.last_clock_text == other.last_clock_text
        &&& self.last_clock_check == other.last_clock_check
        &&& self.last_volume_check == other.last_volume_check
        &&& self.last_title_check == other.last_title_check
    }

    /// The radio as it starts.
    pub open spec fn starts(
        width: usize,
        image_height: usize,
        cell_h: usize,
        stations: Vec<Station>,
        volume: Option<u8>,
        time: Option<(u8, u8)>,
        now: u64,
        r: Self,
    ) -> bool {
        &&& r.width == width
        &&& r.image_height == image_height
        &&& r.cell_h == cell_h
        &&& r.stations == stations
        &&& r.station == 0
        &&& r.volume == (match volume {
            Some(v) => v,
            None => 50u8,
        })
        &&& !r.clock_24h
        &&& !r.dragging_knob
        &&& !r.playing
        &&& r.last_clock_text@ == clock_face(false, time)
        &&& r.current_title@.len() == 0
        &&& r.last_clock_check == now
        &&& r.last_volume_check == now
        &&& r.last_title_check == now
    }

    /// A radio that is just switched on: at the first station, with nothing
    /// playing, and at half volume when the system's is not known.
    pub fn load(
        width: usize,
        image_height: usize,
        cell_h: usize,
        stations: Vec<Station>,
        volume: Option<u8>,
        time: Option<(u8, u8)>,
        now: u64,
    ) -> (r: Self)
        requires
            stations@.len() <= isize::MAX / 128,
            volume matches Some(v) ==> v <= MAX_VOLUME,
            width <= span(),
            image_height <= span(),
            cell_h <= span(),
            forall|i: int| 0 <= i < stations@.len() ==> (#[trigger] stations@[i]).label@.len() <= 5,
        ensures
            r.wf(),
            Self::starts(width, image_height, cell_h, stations, volume, time, now, r),
    {
        Alarm {
            width,
            image_height,
            cell_h,
            stations,
            station: 0,
            volume: match volume {
                Some(v) => v,
                None => 50,
            },
            clock_24h: false,
            dragging_knob: false,
            playing: false,
            last_clock_text: clock_text(false, time),
            current_title: String::new(),
            last_clock_check: now,
            last_volume_check: now,
            last_title_check: now,
        }
    }

    pub fn height(&self) -> (r: usize)
        requires
            self.wf(),
        ensures
            r == self.image_height + TITLE_GAP + self.cell_h,
    {
        self.image_height + TITLE_GAP + self.cell_h
    }

    fn set_volume(&mut self, volume: i32) -> (r: AlarmAction)
        requires
            old(self).wf(),
        ensures
            final(self).wf(),
            final(self).same_but_volume(old(self)),
            final(self).dragging_knob == old(self).dragging_knob,
            final(self).volume == clamped_volume(volume as int),
            if old(self).volume == clamped_volume(volume as int) {
                r is Redraw
            } else {
                r == AlarmAction::SetVolume(final(self).volume)
            },
    {
        let clamped: u8 = if volume < 0 {
            0
        } else if volume > 100 {
            100
        } else {
            volume as u8
        };
        if clamped == self.volume {
            return AlarmAction::Redraw;
        }
        self.volume = clamped;
        AlarmAction::SetVolume(clamped)
    }

    /// Turns the knob to the volume that the pointer asks for.
    fn turn_knob(&mut self, pointed: i16, dragging: bool) -> (r: AlarmAction)
        requires
            old(self).wf(),
        ensures
            final(self).wf(),
            final(self).same_but_volume(old(self)),
            final(self).dragging_knob == old(self).dragging_knob,
            final(self).volume == turned_to(old(self).volume as int, pointed as int, dragging),
            if final(self).volume == old(self).volume {
                r is Redraw
            } else {
                r == AlarmAction::SetVolume(final(self).volume)
            },
    {
        let delta: i32 = pointed as i32 - self.volume as i32;
        if dragging && delta > 50 {
            self.set_volume(0)
        } else if dragging && delta < -50 {
            self.set_volume(100)
        } else {
            self.set_volume(pointed as i32)
        }
    }

    /// Whether playing the current station starts a player.
    pub open spec fn playable(&self) -> bool {
        self.station < self.stations@.len() && trim(
            self.stations@[self.station as int].mpv_args@,
        ).len() > 0
    }

    /// Ends the player, and starts one for the current station if that has
    /// anything to play. The new player counts from `player_started` on.
    pub open spec fn plays(&self, after: &Alarm, action: AlarmAction) -> bool {
        &&& after.same_but_player(self)
        &&& after.station == self.station
        &&& !after.playing
        &&& if self.playable() {
            &&& after.current_title@.len() == 0
            &&& action matches AlarmAction::Play(command)
            &&& command@ == play_command(self.stations@[self.station as int].mpv_args@)
        } else {
            self.stopped(after, action)
        }
    }

    /// Ends the player if one runs, and forgets its title with it.
    pub open spec fn stopped(&self, after: &Alarm, action: AlarmAction) -> bool {
        &&& after.same_but_player(self)
        &&& after.station == self.station
        &&& !after.playing
        &&& if self.playing {
            after.current_title@.len() == 0 && action is StopPlayer
        } else {
            after.current_title@ == self.current_title@ && action is Redraw
        }
    }

    fn stop(&mut self) -> (r: AlarmAction)
        requires
            old(self).wf(),
        ensures
            final(self).wf(),
            old(self).stopped(final(self), r),
    {
        if self.playing {
            self.playing = false;
            self.current_title = String::new();
            AlarmAction::StopPlayer
        } else {
            AlarmAction::Redraw
        }
    }

    fn play_station(&mut self) -> (r: AlarmAction)
        requires
            old(self).wf(),
        ensures
            final(self).wf(),
            old(self).plays(final(self), r),
    {
        let mut command: Option<String> = None;
        if self.station < self.stations.len() {
            let args = to_chars(self.stations[self.station].mpv_args.as_str());
            if trim_chars(&args).len() > 0 {
                let mut out: Vec<char> = Vec::new();
                append_str(
                    &mut out,
                    "exec mpv --input-terminal=no --input-ipc-server=\"$COZYUI_MPV_IPC\" ",
                );
                append_chars(&mut out, &args);
                assert(out@ =~= play_command(args@));
                command = Some(from_chars(&out));
            }
        }
        match command {
            Some(command) => {
                self.playing = false;
                self.current_title = String::new();
                AlarmAction::Play(command)
            },
            None => self.stop(),
        }
    }

    /// The player that an action asked for runs.
    pub fn player_started(&mut self)
        requires
            old(self).wf(),
        ensures
            final(self).wf(),
            final(self).same_but_player(old(self)),
            final(self).station == old(self).station,
            final(self).current_title == old(self).current_title,
            final(self).playing,
    {
        self.playing = true;
    }

    pub fn shutdown(&mut self) -> (r: AlarmAction)
        requires
            old(self).wf(),
        ensures
            final(self).wf(),
            old(self).stopped(final(self), r),
    {
        self.stop()
    }

    /// What pressing a button does: pause or play, stop, and going back or
    /// forward in what plays.
    pub open spec fn pressed(&self, button: MediaButton, after: &Alarm, action: AlarmAction) -> bool {
        match button {
            MediaButton::PlayPause => if self.playing {
                *after == *self && (action matches AlarmAction::Send(message) && message@
                    == two_word_message("cycle"@, "pause"@))
            } else {
                self.plays(after, action)
            },
            MediaButton::Stop => self.stopped(after, action),
            MediaButton::Back => *after == *self && if self.playing {
                action matches AlarmAction::Send(message) && message@ == two_word_message(
                    "playlist-prev"@,
                    "force"@,
                )
            } else {
                action is Redraw
            },
            MediaButton::Forward => *after == *self && if self.playing {
                action matches AlarmAction::Send(message) && message@ == two_word_message(
                    "playlist-next"@,
                    "force"@,
                )
            } else {
                action is Redraw
            },
        }
    }

    fn press_media_button(&mut self, button: MediaButton) -> (r: AlarmAction)
        requires
            old(self).wf(),
        ensures
            final(self).wf(),
            old(self).pressed(button, final(self), r),
    {
        match button {
            MediaButton::PlayPause => if self.playing {
                send_two_words("cycle", "pause")
            } else {
                self.play_station()
            },
            MediaButton::Stop => self.stop(),
            MediaButton::Back => if self.playing {
                send_two_words("playlist-prev", "force")
            } else {
                AlarmAction::Redraw
            },
            MediaButton::Forward => if self.playing {
                send_two_words("playlist-next", "force")
            } else {
                AlarmAction::Redraw
            },
        }
    }

    pub open spec fn on_clock(x: int, y: int) -> bool {
        DISPLAY_X <= x < DISPLAY_X + CLOCK_CLEAR_W && DISPLAY_Y <= y < DISPLAY_Y + CLOCK_CLEAR_H
    }

    pub open spec fn on_tuner(x: int, y: int) -> bool {
        TUNER_X <= x < TUNER_X + TUNER_W && TUNER_Y <= y < TUNER_Y + TUNER_H
    }

    /// The same radio with its tuner on another station.
    pub open spec fn tuned_to(&self, station: usize, after: &Alarm, action: AlarmAction) -> bool {
        let tuned = Alarm { station, ..*self };
        tuned.plays(after, action)
    }

    /// What a press at a place of the radio leads to.
    pub open spec fn click_leads_to(
        &self,
        x: i16,
        y: i16,
        pointed: i16,
        time: Option<(u8, u8)>,
        after: &Self,
        r: AlarmAction,
    ) -> bool {
        if x < 0 || y < 0 {
            *after == *self && r is Ignored
        } else if exists|i: int| #[trigger] on_button(i, x as int, y as int) {
            exists|i: int| #[trigger]
                on_button(i, x as int, y as int) && self.pressed(
                    button_number(i),
                    after,
                    r,
                )
        } else if Self::on_clock(x as int, y as int) {
            &&& r is Redraw
            &&& after.clock_24h == !self.clock_24h
            &&& after.last_clock_text@ == clock_face(!self.clock_24h, time)
            &&& *after == (Alarm {
                clock_24h: after.clock_24h,
                last_clock_text: after.last_clock_text,
                ..*self
            })
        } else if on_knob(x as int, y as int) {
            &&& after.same_but_volume(self)
            &&& after.dragging_knob
            &&& after.volume == clamped_volume(pointed as int)
            &&& if after.volume == self.volume {
                r is Redraw
            } else {
                r == AlarmAction::SetVolume(after.volume)
            }
        } else if Self::on_tuner(x as int, y as int) {
            self.tuned_to(
                station_under(x as int, self.stations@.len() as int) as usize,
                after,
                r,
            )
        } else {
            *after == *self && r is Ignored
        }
    }

    /// A click. The pointer's place on the knob comes as the volume it stands
    /// for, and the time as hour and minute.
    pub fn click(&mut self, x: i16, y: i16, pointed: i16, time: Option<(u8, u8)>) -> (r: AlarmAction)
        requires
            old(self).wf(),
        ensures
            final(self).wf(),
            old(self).click_leads_to(x, y, pointed, time, final(self), r),
    {
        if x < 0 || y < 0 {
            return AlarmAction::Ignored;
        }
        let px: usize = x as usize;
        let py: usize = y as usize;
        if let Some(button) = media_button_at(px, py) {
            return self.press_media_button(button);
        }
        if clock_contains(px, py) {
            self.clock_24h = !self.clock_24h;
            self.last_clock_text = clock_text(self.clock_24h, time);
            return AlarmAction::Redraw;
        }
        if knob_contains(px, py) {
            self.dragging_knob = true;
            return self.turn_knob(pointed, false);
        }
        if tuner_contains(px, py) {
            self.station = station_at(px, self.stations.len());
            return self.play_station();
        }
        AlarmAction::Ignored
    }

    /// The pointer's button is let go; says whether that ended a drag.
    pub fn release(&mut self) -> (r: bool)
        requires
            old(self).wf(),
        ensures
            final(self).wf(),
            *final(self) == (Alarm { dragging_knob: false, ..*old(self) }),
            r == old(self).dragging_knob,
    {
        let was_dragging = self.dragging_knob;
        self.dragging_knob = false;
        was_dragging
    }

    /// What a movement over the radio leads to.
    pub open spec fn motion_leads_to(
        &self,
        x: i16,
        y: i16,
        pointed: i16,
        after: &Self,
        r: AlarmAction,
    ) -> bool {
        if !self.dragging_knob || x < 0 || y < 0 {
            *after == *self && r is Ignored
        } else {
            &&& after.same_but_volume(self)
            &&& after.dragging_knob
            &&& after.volume == turned_to(self.volume as int, pointed as int, true)
            &&& if after.volume == self.volume {
                r is Redraw
            } else {
                r == AlarmAction::SetVolume(after.volume)
            }
        }
    }

    pub fn motion(&mut self, x: i16, y: i16, pointed: i16) -> (r: AlarmAction)
        requires
            old(self).wf(),
        ensures
            final(self).wf(),
            old(self).motion_leads_to(x, y, pointed, final(self), r),
    {
        if !self.dragging_knob || x < 0 || y < 0 {
            return AlarmAction::Ignored;
        }
        self.turn_knob(pointed, true)
    }

    /// What a turn of the wheel over the radio leads to.
    pub open spec fn scroll_leads_to(
        &self,
        x: i16,
        y: i16,
        up: bool,
        after: &Self,
        r: AlarmAction,
    ) -> bool {
        if x < 0 || y < 0 || !on_knob(x as int, y as int) {
            *after == *self && r is Ignored
        } else {
            &&& after.same_but_volume(self)
            &&& after.dragging_knob == self.dragging_knob
            &&& after.volume == clamped_volume(
                self.volume + if up {
                    5
                } else {
                    -5int
                },
            )
            &&& if after.volume == self.volume {
                r is Redraw
            } else {
                r == AlarmAction::SetVolume(after.volume)
            }
        }
    }

    /// Scrolling over the knob moves the volume by five.
    pub fn scroll(&mut self, x: i16, y: i16, up: bool) -> (r: AlarmAction)
        requires
            old(self).wf(),
        ensures
            final(self).wf(),
            old(self).scroll_leads_to(x, y, up, final(self), r),
    {
        if x < 0 || y < 0 || !knob_contains(x as usize, y as usize) {
            return AlarmAction::Ignored;
        }
        let step: i32 = if up {
            5
        } else {
            -5
        };
        self.set_volume(self.volume as i32 + step)
    }

    /// Whether the volume is to be read from the system now.
    pub fn volume_due(&self, now: u64) -> (r: bool)
        ensures
            r == (due(self.last_volume_check, now, VOLUME_REFRESH_MILLIS) && !self.dragging_knob),
    {
        is_due(self.last_volume_check, now, VOLUME_REFRESH_MILLIS) && !self.dragging_knob
    }

    /// Whether the player is to be asked for its title now.
    pub fn title_due(&self, now: u64) -> (r: bool)
        ensures
            r == (due(self.last_title_check, now, TITLE_REFRESH_MILLIS) && self.playing),
    {
        is_due(self.last_title_check, now, TITLE_REFRESH_MILLIS) && self.playing
    }

    pub open spec fn next_clock(&self, now: u64, time: Option<(u8, u8)>) -> (u64, Seq<char>) {
        if due(self.last_clock_check, now, CLOCK_REFRESH_MILLIS) {
            (now, clock_face(self.clock_24h, time))
        } else {
            (self.last_clock_check, self.last_clock_text@)
        }
    }

    pub open spec fn next_volume(&self, now: u64, volume: Option<u8>) -> (u64, u8) {
        if due(self.last_volume_check, now, VOLUME_REFRESH_MILLIS) && !self.dragging_knob {
            (
                now,
                match volume {
                    Some(v) => v,
                    None => self.volume,
                },
            )
        } else {
            (self.last_volume_check, self.volume)
        }
    }

    pub open spec fn next_title(&self, now: u64, title: Option<Seq<char>>) -> (u64, Seq<char>) {
        if due(self.last_title_check, now, TITLE_REFRESH_MILLIS) {
            (
                now,
                match title {
                    Some(title) => if self.playing {
                        title
                    } else {
                        Seq::empty()
                    },
                    None => Seq::empty(),
                },
            )
        } else {
            (self.last_title_check, self.current_title@)
        }
    }

    /// What a look at the clock, the volume and the title leads to.
    pub open spec fn update_leads_to(
        &self,
        now: u64,
        time: Option<(u8, u8)>,
        volume: Option<u8>,
        title: Option<&str>,
        after: &Self,
        r: bool,
    ) -> bool {
        &&& (after.last_clock_check, after.last_clock_text@) == self.next_clock(now, time)
        &&& (after.last_volume_check, after.volume) == self.next_volume(now, volume)
        &&& (after.last_title_check, after.current_title@) == self.next_title(
            now,
            str_view(title),
        )
        &&& *after == (Alarm {
            last_clock_check: after.last_clock_check,
            last_clock_text: after.last_clock_text,
            last_volume_check: after.last_volume_check,
            volume: after.volume,
            last_title_check: after.last_title_check,
            current_title: after.current_title,
            ..*self
        })
        &&& r == (after.last_clock_text@ != self.last_clock_text@ || after.volume
            != self.volume || after.current_title@ != self.current_title@)
    }

    /// Brings the clock, the volume and the title up to date, each when its
    /// time has come; says whether anything changed.
    pub fn update(
        &mut self,
        now: u64,
        time: Option<(u8, u8)>,
        volume: Option<u8>,
        title: Option<&str>,
    ) -> (r: bool)
        requires
            old(self).wf(),
            volume matches Some(v) ==> v <= MAX_VOLUME,
        ensures
            final(self).wf(),
            old(self).update_leads_to(now, time, volume, title, final(self), r),
    {
        let mut dirty = false;
        if is_due(self.last_clock_check, now, CLOCK_REFRESH_MILLIS) {
            self.last_clock_check = now;
            let text = clock_text(self.clock_24h, time);
            if !same_text(text.as_str(), self.last_clock_text.as_str()) {
                self.last_clock_text = text;
                dirty = true;
            }
        }
        if self.volume_due(now) {
            self.last_volume_check = now;
            if let Some(v) = volume {
                if v != self.volume {
                    self.volume = v;
                    dirty = true;
                }
            }
        }
        if is_due(self.last_title_check, now, TITLE_REFRESH_MILLIS) {
            self.last_title_check = now;
            let shown = match title {
                Some(title) => if self.playing {
                    title.to_owned()
                } else {
                    String::new()
                },
                None => String::new(),
            };
            assert(shown@ =~= old(self).next_title(now, str_view(title)).1);
            if !same_text(shown.as_str(), self.current_title.as_str()) {
                self.current_title = shown;
                dirty = true;
            }
        }
        dirty
    }

    /// The labels of the first stations, above and below the scale in turn.
    pub open spec fn labels(&self, font: &BitmapFont, n: int) -> Seq<ShapeView>
        decreases n,
    {
        if n <= 0 {
            Seq::empty()
        } else {
            let label = self.stations@[n - 1].label@;
            let center = station_middle(n - 1, self.stations@.len() as int);
            let half = font.width_of(label) / 2;
            self.labels(font, n - 1).push(
                ShapeView::Text {
                    font: 0,
                    text: label,
                    x: if center < half {
                        0
                    } else {
                        center - half
                    },
                    y: if (n - 1) % 2 == 0 {
                        LABEL_ABOVE_Y as int
                    } else {
                        LABEL_BELOW_Y as int
                    },
                    color: LAVENDER,
                },
            )
        }
    }

    /// The tuner: the stations' labels, and a mark at the one that plays, or
    /// beside the scale when none does.
    pub open spec fn tuner_view(&self, font: &BitmapFont) -> Seq<ShapeView> {
        let count = self.stations@.len() as int;
        if count == 0 {
            Seq::empty()
        } else {
            self.labels(font, count).push(
                ShapeView::Fill {
                    x: if self.playing {
                        station_middle(self.station as int, count) - 2
                    } else {
                        TUNER_X - TUNER_MARK_SIZE - 2 - 2
                    },
                    y: TUNER_MARK_Y as int,
                    w: TUNER_MARK_SIZE as int,
                    h: TUNER_MARK_SIZE as int,
                    color: ROSE,
                },
            )
        }
    }

    pub fn tuner_shapes(&self, font: &BitmapFont) -> (r: Vec<Shape>)
        requires
            self.wf(),
            font.wf(),
        ensures
            shape_views(r@) == self.tuner_view(font),
    {
        let mut out: Vec<Shape> = Vec::new();
        let count: usize = self.stations.len();
        if count == 0 {
            assert(shape_views(out@) =~= Seq::empty());
            return out;
        }
        let mut i: usize = 0;
        assert(shape_views(out@) =~= self.labels(font, 0));
        while i < count
            invariant
                i <= count,
                count == self.stations@.len(),
                self.wf(),
                font.wf(),
                shape_views(out@) =~= self.labels(font, i as int),
            decreases count - i,
        {
            let center: usize = station_center(i, count);
            let label = self.stations[i].label.as_str();
            assert(label@.len() <= 5);
            let label_w: usize = font.text_width(label);
            let half: usize = label_w / 2;
            let x: usize = if center < half {
                0
            } else {
                center - half
            };
            let ghost before = out@;
            out.push(
                Shape::Text {
                    font: 0,
                    text: label.to_owned(),
                    x: x as isize,
                    y: if i % 2 == 0 {
                        LABEL_ABOVE_Y as isize
                    } else {
                        LABEL_BELOW_Y as isize
                    },
                    color: LAVENDER,
                },
            );
            assert(shape_views(out@) =~= shape_views(before).push(out@.last()@));
            i += 1;
        }
        let marker: usize = if self.playing {
            station_center(self.station, count)
        } else {
            TUNER_X - (TUNER_MARK_SIZE + 2)
        };
        let ghost before = out@;
        out.push(
            Shape::Fill {
                x: (marker - 2) as isize,
                y: TUNER_MARK_Y as isize,
                w: TUNER_MARK_SIZE,
                h: TUNER_MARK_SIZE,
                color: ROSE,
            },
        );
        assert(shape_views(out@) =~= shape_views(before).push(out@.last()@));
        out
    }

    /// The title under the radio, cut to its width and in the middle; nothing
    /// without a title.
    pub fn title_shapes(&self, font: &BitmapFont) -> (r: Vec<Shape>)
        requires
            self.wf(),
            font.wf(),
            255 * self.current_title@.len() + span() + 1 <= usize::MAX,
        ensures
            if self.current_title@.len() == 0 {
                r@.len() == 0
            } else {
                exists|text: Seq<char>| #[trigger]
                    fitted(font, self.current_title@, self.width as int, text) && shape_views(r@)
                        == seq![
                        ShapeView::Text {
                            font: 0,
                            text,
                            x: if font.width_of(text) > self.width {
                                0
                            } else {
                                (self.width - font.width_of(text)) / 2
                            },
                            y: self.image_height + TITLE_GAP,
                            color: CREAM,
                        },
                    ]
            },
    {
        let mut out: Vec<Shape> = Vec::new();
        let title = to_chars(self.current_title.as_str());
        if title.len() == 0 {
            return out;
        }
        let text = fit_text(font, self.current_title.as_str(), self.width);
        proof {
            reveal_strlit("...");
            lemma_fitted_length(font, self.current_title@, self.width as int, text@);
        }
        let text_w: usize = font.text_width(text.as_str());
        let x: usize = if text_w > self.width {
            0
        } else {
            (self.width - text_w) / 2
        };
        let ghost shown = text@;
        out.push(
            Shape::Text {
                font: 0,
                text,
                x: x as isize,
                y: (self.image_height + TITLE_GAP) as isize,
                color: CREAM,
            },
        );
        assert(shape_views(out@) =~= seq![out@[0]@]);
        assert(fitted(font, self.current_title@, self.width as int, shown));
        out
    }
}

proof fn lemma_fitted_length(font: &BitmapFont, text: Seq<char>, max_width: int, r: Seq<char>)
    requires
        fitted(font, text, max_width, r),
    ensures
        r.len() <= text.len() + 3,
{
    reveal_strlit("...");
}

/// A cut text fits its width.
pub proof fn lemma_fitted_fits(font: &BitmapFont, text: Seq<char>, max_width: int, r: Seq<char>)
    requires
        font.wf(),
        0 <= max_width,
        fitted(font, text, max_width, r),
    ensures
        font.width_of(r) <= max_width,
{
    if font.width_of(text) > max_width && font.width_of("..."@) < max_width {
        let n = choose|n: int|
            #[trigger] fitting(font, text, max_width - font.width_of("..."@), n) && r == text.take(
                n,
            ) + "..."@;
        lemma_width_joined(font, text.take(n), "..."@);
    }
}

proof fn lemma_width_joined(font: &BitmapFont, a: Seq<char>, b: Seq<char>)
    ensures
        font.width_of(a + b) == font.width_of(a) + font.width_of(b),
    decreases b.len(),
{
    if b.len() == 0 {
        assert(a + b =~= a);
    } else {
        assert((a + b).drop_last() =~= a + b.drop_last());
        lemma_width_joined(font, a, b.drop_last());
    }
}

/// A line of the stations' file is a label and the player's arguments with a bar
/// between them. Blanks round both do not count, and of the label five characters
/// are kept. Blank lines, comments and lines without a bar or a label are none.
pub proof fn lemma_station_lines(line: Seq<char>, label: Seq<char>, args: Seq<char>)
    requires
        forall|i: int| 0 <= i < label.len() ==> #[trigger] label[i] != '|',
    ensures
        trim(line).len() == 0 ==> station_of(line) is None,
        trim(line).len() > 0 && trim(line)[0] == '#' ==> station_of(line) is None,
        (forall|i: int| 0 <= i < trim(line).len() ==> #[trigger] trim(line)[i] != '|')
            ==> station_of(line) is None,
        trim(line) == label + seq!['|'] + args && trim(line)[0] != '#' && trim(label).len() > 0
            ==> station_of(line) == Some(
            (
                trim(label).take(
                    if trim(label).len() < 5 {
                        trim(label).len() as int
                    } else {
                        5
                    },
                ),
                trim(args),
            ),
        ),
        trim(line) == label + seq!['|'] + args && trim(label).len() == 0 ==> station_of(line)
            is None,
{
    let text = trim(line);
    if forall|i: int| 0 <= i < text.len() ==> #[trigger] text[i] != '|' {
        lemma_first_place(text, '|', text.len() as int);
    }
    if text == label + seq!['|'] + args {
        let n = label.len() as int;
        assert(text[n] == '|');
        assert forall|j: int| 0 <= j < n implies #[trigger] text[j] != '|' by {
            assert(text[j] == label[j]);
        }
        lemma_first_place(text, '|', n);
        assert(text.take(n) =~= label);
        assert(text.skip(n + 1) =~= args);
        if trim(label).len() <= 5 {
            assert(trim(label).take(trim(label).len() as int) =~= trim(label));
        }
    }
}

/// The stations are those of the lines, in order.
pub proof fn lemma_stations_are(lines: Seq<Seq<char>>, line: Seq<char>)
    ensures
        stations_of(Seq::empty()).len() == 0,
        stations_of(lines.push(line)) == stations_of(lines) + (match station_of(line) {
            Some(station) => seq![station],
            None => Seq::empty(),
        }),
{
    assert(lines.push(line).drop_last() =~= lines);
    assert(stations_of(lines.push(line)) =~= stations_of(lines) + (match station_of(line) {
        Some(station) => seq![station],
        None => Seq::empty(),
    }));
}

/// The clock shows two digits of hours and of minutes with a colon between them.
/// On twelve hours midnight and noon are twelve, and the hours after noon count
/// from one again.
pub proof fn lemma_clock_face_is(clock_24h: bool, hour: u8, minute: u8)
    requires
        hour < 24,
        minute < 60,
    ensures
        ({
            let face = clock_face(clock_24h, Some((hour, minute)));
            let h = 10 * (face[0] as int - 48) + (face[1] as int - 48);
            &&& face.len() == 5
            &&& face[2] == ':'
            &&& 48 <= face[0] as int <= 57 && 48 <= face[1] as int <= 57
            &&& 48 <= face[3] as int <= 57 && 48 <= face[4] as int <= 57
            &&& 10 * (face[3] as int - 48) + (face[4] as int - 48) == minute
            &&& clock_24h ==> h == hour
            &&& !clock_24h ==> 1 <= h <= 12 && (h == hour || h == hour - 12 || h == hour + 12)
        }),
        clock_face(clock_24h, None) == "00:00"@,
{
    reveal_with_fuel(crate::chars::decimal, 3);
    let shown = if clock_24h {
        hour as int
    } else if hour % 12 == 0 {
        12
    } else {
        (hour % 12) as int
    };
    assert(crate::chars::decimal(shown as nat).len() == if shown < 10 { 1int } else { 2int });
    assert(crate::chars::decimal(minute as nat).len() == if minute < 10 { 1int } else { 2int });
}

/// The strokes that make up each digit, from the top one clockwise, with the
/// middle one last.
pub proof fn lemma_digits_have_strokes(s: int)
    requires
        0 <= s < 7,
    ensures
        lights('0', s) <==> s != 6,
        lights('1', s) <==> s == 1 || s == 2,
        lights('2', s) <==> s != 2 && s != 5,
        lights('3', s) <==> s != 4 && s != 5,
        lights('4', s) <==> s == 1 || s == 2 || s == 5 || s == 6,
        lights('5', s) <==> s != 1 && s != 4,
        lights('6', s) <==> s != 1,
        lights('7', s) <==> s < 3,
        lights('8', s),
        lights('9', s) <==> s != 4,
{
}

/// Where the strokes lie on the drawn eight: the top, the middle and the bottom one
/// below each other, the others at the sides above and below the middle.
pub proof fn lemma_strokes_lie()
    ensures
        segment_area(0) == (Rect { x: 37, y: 23, w: 8, h: 3 }),
        segment_area(6) == (Rect { x: 37, y: 34, w: 8, h: 3 }),
        segment_area(3) == (Rect { x: 37, y: 45, w: 8, h: 3 }),
        segment_area(5) == (Rect { x: 35, y: 25, w: 3, h: 11 }),
        segment_area(4) == (Rect { x: 35, y: 35, w: 3, h: 11 }),
        segment_area(1) == (Rect { x: 44, y: 25, w: 3, h: 11 }),
        segment_area(2) == (Rect { x: 44, y: 35, w: 3, h: 11 }),
{
}

/// The signs of the clock stand beside each other from the display's left edge, a
/// digit fifteen columns wide and a colon seven; each shows its own strokes there,
/// and a later one over an earlier.
pub proof fn lemma_clock_signs(image: &Sprite, text: Seq<char>, sign: char, px: int, py: int)
    ensures
        clock_end(Seq::empty()) == 20,
        clock_end(text.push(sign)) == clock_end(text) + (if sign == ':' {
            7int
        } else {
            15
        }),
        clock_stroke(image, Seq::empty(), px, py) is None,
        glyph_stroke(image, sign, px - clock_end(text), py - 23) matches Some(index)
            ==> clock_stroke(image, text.push(sign), px, py) == Some(index),
        glyph_stroke(image, sign, px - clock_end(text), py - 23) is None ==> clock_stroke(
            image,
            text.push(sign),
            px,
            py,
        ) == clock_stroke(image, text, px, py),
{
    assert(text.push(sign).drop_last() =~= text);
}

/// What is copied of the drawn eight and the drawn colon are only the pixels that
/// glow, each to its own place.
pub proof fn lemma_glyphs_are(image: &Sprite, ch: char, x: int, y: int)
    ensures
        ({
            let index = image.index_at(35 + x, 23 + y);
            '0' <= ch && ch <= '9' ==> match glyph_stroke(image, ch, x, y) {
                Some(i) => i == index && (index == 9 || index == 10) && exists|s: int|
                    0 <= s < 7 && #[trigger] lights(ch, s) && in_rect(
                        segment_area(s),
                        35 + x,
                        23 + y,
                    ),
                None => (index != 9 && index != 10) || forall|s: int|
                    0 <= s < 7 && #[trigger] lights(ch, s) ==> !in_rect(
                        segment_area(s),
                        35 + x,
                        23 + y,
                    ),
            }
        }),
        ({
            let index = image.index_at(50 + x, 22 + y);
            glyph_stroke(image, ':', x, y) == if 0 <= x < 4 && 4 <= y < 26 && (index == 9 || index
                == 10) {
                Some(index)
            } else {
                None
            }
        }),
{
}

/// The buttons stand side by side, fourteen columns apart and thirteen wide: play
/// and pause, stop, back and forward.
pub proof fn lemma_buttons_are(i: int, x: int, y: int)
    ensures
        on_button(i, x, y) <==> 0 <= i < 4 && 4 <= y < 16 && 173 + 14 * i <= x < 186 + 14 * i,
        button_number(0) is PlayPause,
        button_number(1) is Stop,
        button_number(2) is Back,
        button_number(3) is Forward,
        forall|j: int| on_button(i, x, y) && #[trigger] on_button(j, x, y) ==> i == j,
{
}

/// The knob is a disc of radius eighteen.
pub proof fn lemma_knob_is(dx: int, dy: int)
    ensures
        on_knob(204 + dx, 33 + dy) <==> dx * dx + dy * dy <= 18 * 18,
        on_knob(204 + dx, 33 + dy) == on_knob(204 - dx, 33 - dy),
{
    assert(18 * 18 == 324) by (nonlinear_arith);
    assert((-dx) * (-dx) == dx * dx) by (nonlinear_arith);
    assert((-dy) * (-dy) == dy * dy) by (nonlinear_arith);
}

/// The tuner's width is shared out evenly, from left to right; a place beside it
/// counts as its nearest.
pub proof fn lemma_tuner_is(x: int, count: int, i: int)
    requires
        0 < count,
    ensures
        114 <= x < 186 ==> (station_under(x, count) == i <==> i * 72 <= (x - 114) * count < (i + 1)
            * 72),
        x < 114 ==> station_under(x, count) == station_under(114, count),
        x > 185 ==> station_under(x, count) == station_under(185, count),
        station_under(x, 0) == 0,
        ({
            let from = (station_middle(i, count) - 114) * (2 * count);
            from <= 72 * (2 * i + 1) < from + 2 * count
        }),
{
    let a = (x - 114) * count;
    assert(a / 72 == i <==> i * 72 <= a < (i + 1) * 72);
    let top = (i * 2 + 1) * TUNER_W;
    let q = top / (count * 2);
    vstd::arithmetic::div_mod::lemma_fundamental_div_mod(top, count * 2);
    vstd::arithmetic::div_mod::lemma_mod_bound(top, count * 2);
    assert(q * (2 * count) == (count * 2) * q) by (nonlinear_arith);
    assert(top == 72 * (2 * i + 1));
}

/// A title that fits is shown whole. One that does not is cut as late as it can be,
/// and ends in dots; where not even these fit nothing is shown.
pub proof fn lemma_titles_are_cut(font: &BitmapFont, text: Seq<char>, max_width: int, r: Seq<char>)
    requires
        fitted(font, text, max_width, r),
    ensures
        font.width_of(text) <= max_width ==> r == text,
        font.width_of(text) > max_width && font.width_of("..."@) >= max_width ==> r.len() == 0,
        font.width_of(text) > max_width && font.width_of("..."@) < max_width ==> exists|n: int|
            #![trigger text.take(n)]
            0 <= n <= text.len() && r == text.take(n) + "..."@ && font.width_of(text.take(n))
                <= max_width - font.width_of("..."@) && (n < text.len() ==> font.width_of(
                text.take(n + 1),
            ) > max_width - font.width_of("..."@)),
{
    if font.width_of(text) > max_width && font.width_of("..."@) < max_width {
        let n = choose|n: int|
            #[trigger] fitting(font, text, max_width - font.width_of("..."@), n) && r == text.take(
                n,
            ) + "..."@;
        assert(r == text.take(n) + "..."@);
    }
}

/// What the player is sent and started with.
pub proof fn lemma_player_texts(a: Seq<char>, b: Seq<char>)
    ensures
        two_word_message(a, b) == "{\"command\":["@ + crate::json::json_quoted(a) + ","@
            + crate::json::json_quoted(b) + "]}\n"@,
        play_command(a) == "exec mpv --input-terminal=no --input-ipc-server=\"$COZYUI_MPV_IPC\" "@
            + a,
{
    reveal_strlit("command");
    reveal_strlit("{\"command\":[");
    reveal_strlit(",");
    reveal_strlit("]}\n");
    let (qa, qb) = (crate::json::json_quoted(a), crate::json::json_quoted(b));
    assert(quoted_all(seq![a, b]) =~= seq![qa, qb]);
    reveal_with_fuel(crate::chars::join_with, 3);
    assert(seq![qa, qb].drop_last() =~= seq![qa]);
    assert(two_word_message(a, b) =~= "{\"command\":["@ + qa + ","@ + qb + "]}\n"@);
}

/// What the buttons do. Play starts the station, or pauses what plays; stop ends
/// it and clears the title; back and forward move in what plays and do nothing
/// else.
pub proof fn lemma_buttons_do(
    alarm: &Alarm,
    after: &Alarm,
    action: AlarmAction,
    button: MediaButton,
)
    requires
        alarm.pressed(button, after, action),
    ensures
        after.station == alarm.station,
        after.volume == alarm.volume,
        after.clock_24h == alarm.clock_24h,
        button is PlayPause && alarm.playing ==> after.playing && (action matches AlarmAction::Send(
            m,
        ) && m@ == two_word_message("cycle"@, "pause"@)),
        button is PlayPause && !alarm.playing && alarm.station < alarm.stations@.len() && trim(
            alarm.stations@[alarm.station as int].mpv_args@,
        ).len() > 0 ==> (action matches AlarmAction::Play(c) && c@ == play_command(
            alarm.stations@[alarm.station as int].mpv_args@,
        ) && after.current_title@.len() == 0),
        button is Stop && alarm.playing ==> action is StopPlayer && !after.playing
            && after.current_title@.len() == 0,
        button is Stop && !alarm.playing ==> action is Redraw && !after.playing,
        button is Back && alarm.playing ==> after.playing && (action matches AlarmAction::Send(m)
            && m@ == two_word_message("playlist-prev"@, "force"@)),
        button is Forward && alarm.playing ==> after.playing && (action matches AlarmAction::Send(m)
            && m@ == two_word_message("playlist-next"@, "force"@)),
        (button is Back || button is Forward) && !alarm.playing ==> action is Redraw && !after.playing,
{
}

/// Tuning changes the station and starts it; the volume and the clock stay.
pub proof fn lemma_tuning_is(alarm: &Alarm, station: usize, after: &Alarm, action: AlarmAction)
    requires
        alarm.tuned_to(station, after, action),
    ensures
        after.station == station,
        after.volume == alarm.volume,
        after.clock_24h == alarm.clock_24h,
        after.stations == alarm.stations,
        station < alarm.stations@.len() && trim(
            alarm.stations@[station as int].mpv_args@,
        ).len() > 0 ==> (action matches AlarmAction::Play(c) && c@ == play_command(
            alarm.stations@[station as int].mpv_args@,
        )),
        station < alarm.stations@.len() && trim(
            alarm.stations@[station as int].mpv_args@,
        ).len() == 0 && alarm.playing ==> action is StopPlayer,
{
}

/// The knob's volume stays between nothing and a hundred; a turn past either end
/// stops there.
pub proof fn lemma_volume_is(current: int, pointed: int, dragging: bool)
    ensures
        0 <= turned_to(current, pointed, dragging) <= 100,
        !dragging && 0 <= pointed <= 100 ==> turned_to(current, pointed, dragging) == pointed,
        !dragging && pointed < 0 ==> turned_to(current, pointed, dragging) == 0,
        !dragging && pointed > 100 ==> turned_to(current, pointed, dragging) == 100,
        dragging && pointed > current + 50 ==> turned_to(current, pointed, dragging) == 0,
        dragging && pointed < current - 50 ==> turned_to(current, pointed, dragging) == 100,
{
}

/// The clock is read four times a second, the title every second and the volume
/// every three, but not while the knob is held. Before that everything stays.
pub proof fn lemma_refreshes_are(
    alarm: &Alarm,
    now: u64,
    time: Option<(u8, u8)>,
    volume: u8,
    title: Seq<char>,
)
    ensures
        now >= alarm.last_clock_check + 250 ==> alarm.next_clock(now, time) == (
            now,
            clock_face(alarm.clock_24h, time),
        ),
        now < alarm.last_clock_check + 250 ==> alarm.next_clock(now, time) == (
            alarm.last_clock_check,
            alarm.last_clock_text@,
        ),
        now >= alarm.last_volume_check + 3000 && !alarm.dragging_knob ==> alarm.next_volume(
            now,
            Some(volume),
        ) == (now, volume) && alarm.next_volume(now, None) == (now, alarm.volume),
        now < alarm.last_volume_check + 3000 || alarm.dragging_knob ==> alarm.next_volume(
            now,
            Some(volume),
        ) == (alarm.last_volume_check, alarm.volume),
        now >= alarm.last_title_check + 1000 && alarm.playing ==> alarm.next_title(now, Some(title))
            == (now, title),
        now >= alarm.last_title_check + 1000 && !alarm.playing ==> alarm.next_title(
            now,
            Some(title),
        ).1.len() == 0,
        now >= alarm.last_title_check + 1000 ==> alarm.next_title(now, None).1.len() == 0,
        now < alarm.last_title_check + 1000 ==> alarm.next_title(now, Some(title)) == (
            alarm.last_title_check,
            alarm.current_title@,
        ),
{
}

/// The stations' labels stand over their places, in turn above and below the
/// tuner's line; the mark stands at the station that plays, or beside the tuner.
pub proof fn lemma_tuner_picture(alarm: &Alarm, font: &BitmapFont, n: int, i: int)
    requires
        0 <= i < n <= alarm.stations@.len(),
    ensures
        alarm.labels(font, n).len() == n,
        ({
            let label = alarm.stations@[i].label@;
            let middle = station_middle(i, alarm.stations@.len() as int);
            let half = font.width_of(label) / 2;
            alarm.labels(font, n)[i] matches ShapeView::Text { font: f, text, x, y, color } && f
                == 0 && text == label && color == 0 && y == (if i % 2 == 0 {
                20int
            } else {
                34
            }) && (middle >= half ==> x + half == middle) && (middle < half ==> x == 0)
        }),
        ({
            let s = alarm.tuner_view(font);
            &&& s.len() == alarm.stations@.len() + 1
            &&& s.take(alarm.stations@.len() as int) == alarm.labels(
                font,
                alarm.stations@.len() as int,
            )
            &&& s[s.len() - 1] == (ShapeView::Fill {
                x: if alarm.playing {
                    station_middle(alarm.station as int, alarm.stations@.len() as int) - 2
                } else {
                    105
                },
                y: 33,
                w: 5,
                h: 5,
                color: 10,
            })
        }),
{
    lemma_labels_are(alarm, font, n, i);
    let count = alarm.stations@.len() as int;
    lemma_labels_are(alarm, font, count, 0);
    let s = alarm.tuner_view(font);
    assert(s.take(count) =~= alarm.labels(font, count));
}

proof fn lemma_labels_are(alarm: &Alarm, font: &BitmapFont, n: int, i: int)
    requires
        0 <= i < n <= alarm.stations@.len(),
    ensures
        alarm.labels(font, n).len() == n,
        ({
            let label = alarm.stations@[i].label@;
            let middle = station_middle(i, alarm.stations@.len() as int);
            let half = font.width_of(label) / 2;
            alarm.labels(font, n)[i] == (ShapeView::Text {
                font: 0,
                text: label,
                x: if middle < half {
                    0
                } else {
                    middle - half
                },
                y: if i % 2 == 0 {
                    20
                } else {
                    34
                },
                color: 0,
            })
        }),
    decreases n,
{
    if i < n - 1 {
        lemma_labels_are(alarm, font, n - 1, i);
    } else if n > 1 {
        lemma_labels_are(alarm, font, n - 1, 0);
    } else {
        assert(alarm.labels(font, 0).len() == 0);
    }
}

/// The clock and the tuner can be clicked where they are drawn.
pub proof fn lemma_faces_are(x: int, y: int)
    ensures
        Alarm::on_clock(x, y) <==> 20 <= x < 84 && 23 <= y < 48,
        Alarm::on_tuner(x, y) <==> 114 <= x < 186 && 22 <= y < 48,
        in_marker(x, y) <==> 202 <= x < 206 && 40 <= y < 44,
{
}

/// What a press does on the radio: a button does its own; the clock's face changes
/// between twelve and twenty-four hours; the knob is held and turned; the tuner
/// plays the station there. A press beside all of them is not the radio's.
pub proof fn lemma_radio_presses(
    alarm: &Alarm,
    x: i16,
    y: i16,
    pointed: i16,
    time: Option<(u8, u8)>,
    after: &Alarm,
    r: AlarmAction,
    i: int,
)
    requires
        alarm.click_leads_to(x, y, pointed, time, after, r),
    ensures
        x < 0 || y < 0 ==> *after == *alarm && r is Ignored,
        0 <= i < 4 && 4 <= y < 16 && 173 + 14 * i <= x < 186 + 14 * i ==> alarm.pressed(
            button_number(i),
            after,
            r,
        ),
        20 <= x < 84 && 23 <= y < 48 ==> r is Redraw && after.clock_24h == !alarm.clock_24h
            && after.last_clock_text@ == clock_face(!alarm.clock_24h, time) && after.volume
            == alarm.volume && after.station == alarm.station && after.playing == alarm.playing,
        114 <= x < 186 && 22 <= y < 48 && alarm.stations@.len() > 0 && !on_knob(
            x as int,
            y as int,
        ) ==> after.station == station_under(x as int, alarm.stations@.len() as int) as usize
            && after.volume == alarm.volume,
        x >= 0 && y >= 16 && on_knob(x as int, y as int) ==> after.dragging_knob && after.station
            == alarm.station && after.playing == alarm.playing && (0 <= pointed <= 100
            ==> after.volume == pointed) && (after.volume != alarm.volume ==> r
            == AlarmAction::SetVolume(after.volume)),
        x >= 84 && x < 114 && y >= 16 ==> *after == *alarm && r is Ignored,
{
    if 0 <= i < 4 && 4 <= y < 16 && 173 + 14 * i <= x < 186 + 14 * i {
        lemma_buttons_are(i, x as int, y as int);
        assert(on_button(i, x as int, y as int));
    }
    if y >= 16 {
        assert forall|j: int| !#[trigger] on_button(j, x as int, y as int) by {
            lemma_buttons_are(j, x as int, y as int);
        }
    }
    if 0 <= x < 173 {
        assert forall|j: int| !#[trigger] on_button(j, x as int, y as int) by {
            lemma_buttons_are(j, x as int, y as int);
        }
        assert(!on_knob(x as int, y as int)) by {
            let (dx, dy) = (x - 204, y - 33);
            assert(dx * dx > 324) by (nonlinear_arith)
                requires
                    dx < -30,
            ;
            assert(dy * dy >= 0) by (nonlinear_arith);
        }
    }
}

/// The wheel turns the volume by five, between nothing and a hundred, and only over
/// the knob; a movement turns it only while the knob is held.
pub proof fn lemma_knob_moves(
    alarm: &Alarm,
    x: i16,
    y: i16,
    up: bool,
    pointed: i16,
    after: &Alarm,
    r: AlarmAction,
)
    ensures
        alarm.scroll_leads_to(x, y, up, after, r) && alarm.volume <= 100 ==> {
            let over = x >= 0 && y >= 0 && on_knob(x as int, y as int);
            &&& !over ==> *after == *alarm && r is Ignored
            &&& over && up && alarm.volume <= 95 ==> after.volume == alarm.volume + 5
            &&& over && up && alarm.volume > 95 ==> after.volume == 100
            &&& over && !up && alarm.volume >= 5 ==> after.volume == alarm.volume - 5
            &&& over && !up && alarm.volume < 5 ==> after.volume == 0
            &&& over && after.volume != alarm.volume ==> r == AlarmAction::SetVolume(after.volume)
            &&& after.station == alarm.station
            &&& after.playing == alarm.playing
        },
        alarm.motion_leads_to(x, y, pointed, after, r) ==> {
            &&& !alarm.dragging_knob ==> *after == *alarm && r is Ignored
            &&& alarm.dragging_knob && x >= 0 && y >= 0 && 0 <= pointed <= 100 && -50 <= pointed
                - alarm.volume <= 50 ==> after.volume == pointed
            &&& after.volume != alarm.volume ==> r == AlarmAction::SetVolume(after.volume)
            &&& after.station == alarm.station
            &&& after.playing == alarm.playing
        },
{
}

/// A look at the radio changes the clock, the volume and the title alone, and says
/// exactly when one of them is another than before. Before their times have come
/// nothing changes, and while the knob is turned the volume does not.
pub proof fn lemma_looks_lead(
    before: &Alarm,
    now: u64,
    time: Option<(u8, u8)>,
    volume: Option<u8>,
    title: Option<&str>,
    after: &Alarm,
    r: bool,
)
    requires
        before.update_leads_to(now, time, volume, title, after, r),
    ensures
        after.station == before.station,
        after.stations == before.stations,
        after.playing == before.playing,
        after.clock_24h == before.clock_24h,
        after.dragging_knob == before.dragging_knob,
        !r <==> after.last_clock_text@ == before.last_clock_text@ && after.volume == before.volume
            && after.current_title@ == before.current_title@,
        before.dragging_knob ==> after.volume == before.volume,
        now < before.last_clock_check + 250 && now < before.last_volume_check + 3000 && now
            < before.last_title_check + 1000 ==> !r && after.last_clock_check
            == before.last_clock_check && after.last_volume_check == before.last_volume_check
            && after.last_title_check == before.last_title_check,
{
}

/// A radio starts at its first station with nothing playing, a clock of twelve hours,
/// and the volume of the system, or half of all where that is not known.
pub proof fn lemma_radio_starts(
    width: usize,
    image_height: usize,
    cell_h: usize,
    stations: Vec<Station>,
    volume: Option<u8>,
    time: Option<(u8, u8)>,
    now: u64,
    r: Alarm,
)
    requires
        Alarm::starts(width, image_height, cell_h, stations, volume, time, now, r),
    ensures
        r.stations == stations && r.station == 0,
        !r.playing && !r.dragging_knob && !r.clock_24h,
        volume matches Some(v) ==> r.volume == v,
        volume is None ==> r.volume == 50,
        r.last_clock_text@ == clock_face(false, time),
        r.current_title@.len() == 0,
        r.last_clock_check == now && r.last_volume_check == now && r.last_title_check == now,
        r.width == width && r.image_height == image_height && r.cell_h == cell_h,
{
}

} // verus!
