use softraster::color::Color;
use softraster::rect::Rect;
use softraster::video::{Point, Video};

const WHITE: Color = Color { r: 255, g: 255, b: 255, a: 255 };
const BLACK: Color = Color { r: 0, g: 0, b: 0, a: 255 };

fn snapshot(video: &Video) -> Vec<Option<Color>> {
    let mut out = Vec::new();
    for y in 0..video.height() {
        for x in 0..video.width() {
            out.push(video.get_pixel(x, y));
        }
    }
    out
}

fn lit(video: &Video, color: Color) -> Vec<(i32, i32)> {
    let mut out = Vec::new();
    for y in 0..video.height() {
        for x in 0..video.width() {
            if video.get_pixel(x, y) == Some(color) {
                out.push((x, y));
            }
        }
    }
    out
}

fn cleared(width: u32, height: u32) -> Video {
    let mut video = Video::new(width, height);
    video.clear();
    video
}

#[test]
fn new_surface_has_the_given_size_and_transparent_pixels() {
    let video = Video::new(3, 2);
    assert_eq!(video.width(), 3);
    assert_eq!(video.height(), 2);
    for y in 0..2 {
        for x in 0..3 {
            assert_eq!(video.get_pixel(x, y), Some(Color { r: 0, g: 0, b: 0, a: 0 }));
        }
    }
}

#[test]
fn new_surface_draws_white_and_clears_black() {
    let mut video = Video::new(2, 2);
    video.clear();
    video.point(&Point { x: 1, y: 1 });
    assert_eq!(video.get_pixel(0, 0), Some(BLACK));
    assert_eq!(video.get_pixel(1, 1), Some(WHITE));
}

#[test]
fn get_pixel_off_the_surface_is_none() {
    let video = Video::new(3, 2);
    assert_eq!(video.get_pixel(-1, 0), None);
    assert_eq!(video.get_pixel(0, -1), None);
    assert_eq!(video.get_pixel(3, 0), None);
    assert_eq!(video.get_pixel(0, 2), None);
    assert_eq!(video.get_pixel(i32::MAX, i32::MIN), None);
}

#[test]
fn color_constructors() {
    assert_eq!(Color::rgb(1, 2, 3), Color { r: 1, g: 2, b: 3, a: 255 });
    assert_eq!(Color::rgba(1, 2, 3, 4), Color { r: 1, g: 2, b: 3, a: 4 });
}

#[test]
fn rect_constructor() {
    assert_eq!(Rect::new(1, -2, 3, 4), Rect { x: 1, y: -2, w: 3, h: 4 });
}

#[test]
fn point_out_of_bounds_leaves_buffer_unchanged() {
    let mut video = cleared(4, 3);
    video.point(&Point { x: 2, y: 1 });
    let before = snapshot(&video);
    let outside = [
        (-1, 0),
        (0, -1),
        (4, 0),
        (0, 3),
        (4, 3),
        (-1, -1),
        (i32::MIN, 1),
        (1, i32::MAX),
        (i32::MAX, i32::MAX),
    ];
    for (x, y) in outside {
        video.point(&Point { x, y });
        assert_eq!(snapshot(&video), before);
    }
}

#[test]
fn point_in_bounds_sets_that_pixel_only() {
    let mut video = cleared(4, 3);
    video.point(&Point { x: 3, y: 2 });
    assert_eq!(lit(&video, WHITE), vec![(3, 2)]);
    video.point(&Point { x: 0, y: 0 });
    assert_eq!(lit(&video, WHITE), vec![(0, 0), (3, 2)]);
}

#[test]
fn clear_sets_every_pixel_to_the_clear_color() {
    for (w, h) in [(1u32, 1u32), (1, 7), (7, 1), (5, 4)] {
        let mut video = Video::new(w, h);
        let teal = Color::rgba(0, 128, 128, 200);
        video.line(0, 0, 4, 3);
        video.set_clear_color(teal);
        video.clear();
        for y in 0..video.height() {
            for x in 0..video.width() {
                assert_eq!(video.get_pixel(x, y), Some(teal));
            }
        }
    }
}

#[test]
fn set_draw_color_changes_what_is_drawn() {
    let mut video = cleared(3, 3);
    let red = Color::rgb(255, 0, 0);
    video.point(&Point { x: 0, y: 0 });
    video.set_draw_color(red);
    video.point(&Point { x: 1, y: 0 });
    assert_eq!(video.get_pixel(0, 0), Some(WHITE));
    assert_eq!(video.get_pixel(1, 0), Some(red));
    assert_eq!(video.get_pixel(2, 0), Some(BLACK));
}

#[test]
fn set_clear_color_does_not_touch_the_pixels() {
    let mut video = cleared(3, 3);
    let before = snapshot(&video);
    video.set_clear_color(Color::rgb(9, 9, 9));
    video.set_draw_color(Color::rgb(7, 7, 7));
    assert_eq!(snapshot(&video), before);
}

#[test]
fn points_sets_each_point_and_clips() {
    let mut video = cleared(4, 4);
    let points = [
        Point { x: 1, y: 1 },
        Point { x: 9, y: 1 },
        Point { x: 3, y: 0 },
        Point { x: 1, y: 1 },
        Point { x: -1, y: 2 },
    ];
    video.points(&points);
    assert_eq!(lit(&video, WHITE), vec![(3, 0), (1, 1)]);
}

#[test]
fn points_of_nothing_changes_nothing() {
    let mut video = cleared(4, 4);
    let before = snapshot(&video);
    video.points(&[]);
    assert_eq!(snapshot(&video), before);
}

#[test]
fn hline_covers_both_ends_in_either_order() {
    let mut video = cleared(6, 3);
    video.hline(1, 4, 2);
    assert_eq!(lit(&video, WHITE), vec![(2, 1), (3, 1), (4, 1)]);
    let mut other = cleared(6, 3);
    other.hline(1, 2, 4);
    assert_eq!(snapshot(&other), snapshot(&video));
}

#[test]
fn hline_of_one_cell_draws_it() {
    let mut video = cleared(6, 3);
    video.hline(2, 5, 5);
    assert_eq!(lit(&video, WHITE), vec![(5, 2)]);
}

#[test]
fn hline_is_clipped() {
    let mut video = cleared(4, 3);
    video.hline(0, -10, 1);
    assert_eq!(lit(&video, WHITE), vec![(0, 0), (1, 0)]);
    video.hline(2, 2, i32::MAX);
    assert_eq!(lit(&video, WHITE), vec![(0, 0), (1, 0), (2, 2), (3, 2)]);
    let before = snapshot(&video);
    video.hline(3, 0, 3);
    video.hline(-1, 0, 3);
    video.hline(1, 4, 9);
    video.hline(1, -9, -1);
    assert_eq!(snapshot(&video), before);
    video.hline(1, i32::MIN, i32::MAX);
    assert_eq!(lit(&video, WHITE).len(), 8);
}

#[test]
fn vline_covers_both_ends_in_either_order() {
    let mut video = cleared(3, 6);
    video.vline(1, 4, 2);
    assert_eq!(lit(&video, WHITE), vec![(1, 2), (1, 3), (1, 4)]);
    let mut other = cleared(3, 6);
    other.vline(1, 2, 4);
    assert_eq!(snapshot(&other), snapshot(&video));
}

#[test]
fn vline_is_clipped() {
    let mut video = cleared(3, 4);
    video.vline(0, -10, 1);
    assert_eq!(lit(&video, WHITE), vec![(0, 0), (0, 1)]);
    let before = snapshot(&video);
    video.vline(3, 0, 3);
    video.vline(-1, 0, 3);
    video.vline(1, 4, 9);
    assert_eq!(snapshot(&video), before);
    video.vline(2, i32::MAX, i32::MIN);
    assert_eq!(lit(&video, WHITE), vec![(0, 0), (2, 0), (0, 1), (2, 1), (2, 2), (2, 3)]);
}

#[test]
fn fill_rect_of_no_size_draws_nothing() {
    let mut video = cleared(10, 10);
    let before = snapshot(&video);
    video.fill_rect(&Rect { x: 5, y: 5, w: 0, h: 0 });
    assert_eq!(snapshot(&video), before);
    video.fill_rect(&Rect { x: 5, y: 5, w: 0, h: 3 });
    video.fill_rect(&Rect { x: 5, y: 5, w: 3, h: 0 });
    assert_eq!(snapshot(&video), before);
}

#[test]
fn fill_rect_of_negative_size_draws_nothing() {
    let mut video = cleared(10, 10);
    let before = snapshot(&video);
    video.fill_rect(&Rect { x: 5, y: 5, w: -2, h: 3 });
    video.fill_rect(&Rect { x: 5, y: 5, w: 3, h: -2 });
    video.fill_rect(&Rect { x: 5, y: 5, w: i32::MIN, h: i32::MIN });
    assert_eq!(snapshot(&video), before);
}

#[test]
fn fill_rect_fills_the_half_open_region() {
    let mut video = cleared(6, 5);
    video.fill_rect(&Rect { x: 1, y: 2, w: 3, h: 2 });
    assert_eq!(lit(&video, WHITE), vec![(1, 2), (2, 2), (3, 2), (1, 3), (2, 3), (3, 3)]);
}

#[test]
fn fill_rect_is_clipped() {
    let mut video = cleared(4, 4);
    video.fill_rect(&Rect { x: -5, y: -5, w: 7, h: 7 });
    assert_eq!(lit(&video, WHITE), vec![(0, 0), (1, 0), (0, 1), (1, 1)]);
    video.fill_rect(&Rect { x: 3, y: 2, w: i32::MAX, h: i32::MAX });
    assert_eq!(lit(&video, WHITE), vec![(0, 0), (1, 0), (0, 1), (1, 1), (3, 2), (3, 3)]);
    let before = snapshot(&video);
    video.fill_rect(&Rect { x: 4, y: 0, w: 5, h: 5 });
    video.fill_rect(&Rect { x: 0, y: 4, w: 5, h: 5 });
    video.fill_rect(&Rect { x: -9, y: 0, w: 9, h: 4 });
    assert_eq!(snapshot(&video), before);
    video.fill_rect(&Rect { x: i32::MIN, y: i32::MIN, w: i32::MAX, h: i32::MAX });
    assert_eq!(snapshot(&video), before);
}

#[test]
fn fill_rect_over_everything_fills_the_surface() {
    let mut video = cleared(3, 2);
    video.fill_rect(&Rect { x: -1, y: -1, w: 100, h: 100 });
    assert_eq!(lit(&video, WHITE).len(), 6);
}

#[test]
fn fill_rects_fills_each() {
    let mut video = cleared(6, 3);
    let rects = [
        Rect { x: 0, y: 0, w: 2, h: 1 },
        Rect { x: 4, y: 1, w: 5, h: 5 },
        Rect { x: 1, y: 0, w: 2, h: 1 },
        Rect { x: 3, y: 2, w: 0, h: 1 },
    ];
    video.fill_rects(&rects);
    assert_eq!(
        lit(&video, WHITE),
        vec![(0, 0), (1, 0), (2, 0), (4, 1), (5, 1), (4, 2), (5, 2)]
    );
    let before = snapshot(&video);
    video.fill_rects(&[]);
    assert_eq!(snapshot(&video), before);
}

#[test]
fn render_gives_the_pixels_as_rgba_bytes_row_by_row() {
    let mut video = Video::new(2, 2);
    video.set_draw_color(Color::rgba(1, 2, 3, 4));
    video.point(&Point { x: 1, y: 0 });
    video.set_draw_color(Color::rgba(5, 6, 7, 8));
    video.point(&Point { x: 0, y: 1 });
    let before = snapshot(&video);
    let bytes = video.render();
    assert_eq!(bytes, vec![0, 0, 0, 0, 1, 2, 3, 4, 5, 6, 7, 8, 0, 0, 0, 0]);
    assert_eq!(snapshot(&video), before);
}

#[test]
fn render_of_a_cleared_surface() {
    let mut video = Video::new(3, 1);
    video.set_clear_color(Color::rgba(10, 20, 30, 40));
    video.clear();
    assert_eq!(video.render(), vec![10, 20, 30, 40, 10, 20, 30, 40, 10, 20, 30, 40]);
}

#[test]
fn test_scene_spot_checks() {
    let red = Color::rgb(255, 0, 0);
    let green = Color::rgb(0, 255, 0);
    let blue = Color::rgb(0, 0, 255);
    let cyan = Color::rgb(0, 255, 255);
    let yellow = Color::rgb(255, 255, 0);
    let magenta = Color::rgb(255, 0, 255);
    let mut video = cleared(640, 480);
    video.test();
    assert_eq!(video.get_pixel(0, 20), Some(red));
    assert_eq!(video.get_pixel(380, 20), Some(red));
    assert_eq!(video.get_pixel(381, 20), Some(BLACK));
    assert_eq!(video.get_pixel(20, 20), Some(green));
    assert_eq!(video.get_pixel(20, 0), Some(green));
    assert_eq!(video.get_pixel(20, 380), Some(green));
    assert_eq!(video.get_pixel(20, 381), Some(BLACK));
    for i in 0..10 {
        assert_eq!(video.get_pixel((i + 1) * 20, 50), Some(blue));
    }
    assert_eq!(video.get_pixel(220, 50), Some(BLACK));
    assert_eq!(video.get_pixel(20, 60), Some(cyan));
    assert_eq!(video.get_pixel(40, 60), Some(cyan));
    assert_eq!(video.get_pixel(60, 60), Some(cyan));
    assert_eq!(video.get_pixel(80, 60), Some(BLACK));
    assert_eq!(video.get_pixel(200, 200), Some(cyan));
    assert_eq!(video.get_pixel(219, 219), Some(cyan));
    assert_eq!(video.get_pixel(200, 220), Some(yellow));
    assert_eq!(video.get_pixel(219, 239), Some(yellow));
    assert_eq!(video.get_pixel(220, 220), Some(BLACK));
    assert_eq!(video.get_pixel(221, 220), Some(yellow));
    assert_eq!(video.get_pixel(284, 220), Some(yellow));
    assert_eq!(video.get_pixel(303, 239), Some(yellow));
    assert_eq!(video.get_pixel(304, 220), Some(BLACK));
    assert_eq!(video.get_pixel(50, 0), Some(magenta));
    assert_eq!(video.get_pixel(300, 100), Some(magenta));
    assert_eq!(video.get_pixel(175, 50), Some(magenta));
    assert_eq!(video.get_pixel(49, 0), Some(BLACK));
    video.point(&Point { x: 0, y: 0 });
    assert_eq!(video.get_pixel(0, 0), Some(magenta));
}

#[test]
fn test_scene_is_clipped_on_a_small_surface() {
    let mut video = cleared(30, 30);
    video.test();
    assert_eq!(video.get_pixel(0, 20), Some(Color::rgb(255, 0, 0)));
    assert_eq!(video.get_pixel(29, 20), Some(Color::rgb(255, 0, 0)));
    assert_eq!(video.get_pixel(20, 20), Some(Color::rgb(0, 255, 0)));
    assert_eq!(video.get_pixel(20, 29), Some(Color::rgb(0, 255, 0)));
    assert_eq!(video.get_pixel(0, 0), Some(BLACK));
}
