//! The alarm radio and what it plays.
use cozyui::alarm::{
    clock_contains, clock_segment_rect, clock_text, default_stations, digit_mask, draw_clock,
    draw_knob, knob_contains, load_stations, media_button_at, parse_station, station_at,
    station_center, tuner_contains, Alarm, AlarmAction, MediaButton, KNOB_X, KNOB_Y,
};
use cozyui::framebuffer::Framebuffer;
use cozyui::graphics::{Palette, Rgb, Rgba, Sprite};
use cozyui::now_playing::{
    await_reply, clean_title, command_message, playing_title, property_request, read_reply,
    title_from_metadata, track_line_from_metadata, volume_from_percentages, Reply, Wait,
};

fn radio() -> Alarm {
    let stations = load_stations(Some("one|http://a\ntwo|http://b\nthree|http://c\n"));
    Alarm::load(240, 80, 8, stations, Some(40), Some((9, 5)), 0)
}

#[test]
fn stations_are_read_line_by_line() {
    assert!(parse_station("# comment").is_none());
    assert!(parse_station("").is_none());
    let stations = load_stations(None);
    assert_eq!(stations.len(), default_stations().len());
    assert!(!stations.is_empty());
}

#[test]
fn the_clock_shows_hours_and_minutes() {
    assert_eq!(clock_text(true, Some((13, 7))), "13:07");
    assert_eq!(clock_text(false, Some((13, 7))), "01:07");
    assert_eq!(clock_text(false, Some((0, 30))).trim(), "12:30");
    assert!(clock_text(true, None).contains(':'));
}

#[test]
fn digits_light_their_segments() {
    assert_eq!(digit_mask('8').map(|mask| mask.count_ones()), Some(7));
    assert_eq!(digit_mask('1').map(|mask| mask.count_ones()), Some(2));
    assert!(digit_mask('x').is_none());
    let rects: Vec<_> = (0..7).map(clock_segment_rect).collect();
    for i in 0..7 {
        for j in 0..i {
            assert_ne!(rects[i], rects[j]);
        }
    }
}

#[test]
fn the_middle_of_a_station_is_its_own() {
    for count in 1..9 {
        for index in 0..count {
            assert_eq!(station_at(station_center(index, count), count), index);
        }
    }
}

#[test]
fn parts_of_the_radio_do_not_overlap() {
    for x in 0..240 {
        for y in 0..80 {
            let parts = [tuner_contains(x, y), clock_contains(x, y), knob_contains(x, y)];
            assert!(parts.iter().filter(|part| **part).count() <= 1, "{x},{y}");
        }
    }
    assert!(knob_contains(KNOB_X, KNOB_Y));
    assert_eq!(media_button_at(173, 4), Some(MediaButton::PlayPause));
    assert_eq!(media_button_at(0, 0), None);
}

#[test]
fn the_knob_never_jumps_over_its_stop() {
    let mut radio = radio();
    assert!(matches!(
        radio.click(KNOB_X as i16, KNOB_Y as i16, 60, None),
        AlarmAction::SetVolume(60)
    ));
    assert_eq!(radio.volume, 60);
    radio.motion(KNOB_X as i16, KNOB_Y as i16, 95);
    assert_eq!(radio.volume, 95);
    radio.motion(KNOB_X as i16, KNOB_Y as i16, 2);
    assert!(radio.volume >= 95);
    assert!(radio.release());
    assert!(!radio.release());
}

#[test]
fn the_wheel_turns_the_knob() {
    let mut radio = radio();
    let before = radio.volume;
    radio.scroll(KNOB_X as i16, KNOB_Y as i16, true);
    assert!(radio.volume > before);
    radio.scroll(KNOB_X as i16, KNOB_Y as i16, false);
    assert_eq!(radio.volume, before);
    assert!(matches!(radio.scroll(0, 0, true), AlarmAction::Ignored));
}

#[test]
fn a_press_on_the_clock_changes_its_hours() {
    let mut radio = radio();
    let was = radio.clock_24h;
    radio.click(30, 30, 0, Some((13, 7)));
    assert_eq!(radio.clock_24h, !was);
    assert!(!radio.volume_due(0));
    assert!(radio.volume_due(3000));
    assert!(!radio.title_due(0));
}

#[test]
fn titles_come_from_the_best_source() {
    assert_eq!(clean_title("  a   b ").as_deref(), clean_title("a   b").as_deref());
    assert!(clean_title("   ").is_none());
    assert_eq!(
        track_line_from_metadata("{\"artist\":\"A\",\"title\":\"T\"}").as_deref(),
        Some("A - T")
    );
    let named = "{\"artist\":\"The Band\",\"title\":\"THE BAND live\"}";
    assert_eq!(track_line_from_metadata(named).as_deref(), Some("THE BAND live"));
    assert_eq!(title_from_metadata("{\"title\":\"T\"}").as_deref(), Some("T"));
    assert!(title_from_metadata("{}").is_none());
    let title = playing_title(None, Some("\"stream\""), Some("{\"icy-title\":\"song\"}"));
    assert!(title.is_some());
}

#[test]
fn the_player_is_asked_in_json() {
    let request: serde_json::Value = serde_json::from_str(property_request("volume").trim()).unwrap();
    assert_eq!(request["command"][0], "get_property");
    assert_eq!(request["command"][1], "volume");
    let message = command_message(&vec!["cycle".to_string(), "pause".to_string()]);
    let message: serde_json::Value = serde_json::from_str(message.trim()).unwrap();
    assert_eq!(message["command"][1], "pause");
}

#[test]
fn replies_are_waited_for_a_while() {
    assert!(matches!(read_reply("{\"event\":\"x\"}"), Reply::Unrelated));
    assert!(matches!(await_reply(0, Some(Reply::Unrelated)), Wait::More));
    assert!(matches!(await_reply(7, Some(Reply::Unrelated)), Wait::Done(None)));
    assert!(matches!(await_reply(0, None), Wait::Done(None)));
    assert!(matches!(
        await_reply(3, Some(Reply::Data("1".to_string()))),
        Wait::Done(Some(data)) if data == "1"
    ));
}

#[test]
fn volumes_are_read_from_percentages() {
    assert_eq!(volume_from_percentages("front-left: 3 / 45% / -2 dB"), Some(45));
    assert_eq!(volume_from_percentages("nothing"), None);
}

#[test]
fn the_clock_and_the_knob_are_drawn() {
    let palette = Palette::from_colors(vec![
        Rgb { r: 0, g: 0, b: 0 },
        Rgb { r: 200, g: 10, b: 10 },
        Rgb { r: 10, g: 200, b: 10 },
    ]);
    let image = match Sprite::from_indices(240, 80, (0..240 * 80).map(|i| (i % 3) as u8).collect())
    {
        Ok(image) => image,
        Err(_) => panic!("the pixels are counted"),
    };
    let mut fb = Framebuffer::new(240, 80, Rgba { r: 1, g: 2, b: 3, a: 255 });
    draw_clock(&mut fb, &image, "12:34", &palette);
    assert_ne!(fb.pixel(21, 24), Rgba { r: 1, g: 2, b: 3, a: 255 });
    draw_knob(&mut fb, &image, 200, 30, &palette);
    assert_eq!(fb.pixel(0, 0), Rgba { r: 1, g: 2, b: 3, a: 255 });
}
