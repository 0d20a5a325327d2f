use ratatui::layout::{Constraint, Direction, Layout, Rect};
use duplicate_finder::layout::{centered_rect, ScreenRect};

#[test]
fn centered_rect_of_full_percent_is_whole_area() {
    let r = ScreenRect { x: 0, y: 0, width: 100, height: 50 };
    assert_eq!(centered_rect(100, 100, r), r);
}

#[test]
fn centered_rect_is_in_the_middle() {
    let r = ScreenRect { x: 0, y: 0, width: 100, height: 100 };
    let c = centered_rect(60, 20, r);
    assert_eq!(c, ScreenRect { x: 20, y: 40, width: 60, height: 20 });
}

#[test]
fn centered_rect_offsets_with_the_area() {
    let r = ScreenRect { x: 10, y: 5, width: 100, height: 100 };
    let c = centered_rect(50, 30, r);
    assert_eq!(c, ScreenRect { x: 35, y: 40, width: 50, height: 30 });
}

fn round_hundredths(n: u64) -> u64 {
    (n + 50) / 100
}

fn expected_middle(vertical: bool, side: u16, middle: u16, a: ScreenRect) -> ScreenRect {
    let clamp = |s: u16, l: u16| if l > u16::MAX - s { u16::MAX - s } else { l };
    let (start, size) = if vertical { (a.y, clamp(a.y, a.height)) } else { (a.x, clamp(a.x, a.width)) };
    let first = start as u64 + round_hundredths(size as u64 * side as u64);
    let last = start as u64 + round_hundredths(size as u64 * (side as u64 + middle as u64));
    if vertical {
        ScreenRect { x: a.x, y: first as u16, width: clamp(a.x, a.width), height: (last - first) as u16 }
    } else {
        ScreenRect { x: first as u16, y: a.y, width: (last - first) as u16, height: clamp(a.y, a.height) }
    }
}

fn ratatui_middle(vertical: bool, side: u16, middle: u16, a: ScreenRect) -> ScreenRect {
    let direction = if vertical { Direction::Vertical } else { Direction::Horizontal };
    let parts = Layout::default()
        .direction(direction)
        .constraints([Constraint::Percentage(side), Constraint::Percentage(middle), Constraint::Percentage(side)])
        .split(Rect::new(a.x, a.y, a.width, a.height));
    ScreenRect { x: parts[1].x, y: parts[1].y, width: parts[1].width, height: parts[1].height }
}

#[test]
fn ratatui_middle_part_follows_the_rounding_formula() {
    for size in (0..=121u16).step_by(3) {
        for side in (0..=50u16).step_by(5) {
            for middle in (0..=(100 - 2 * side)).step_by(7) {
                for vertical in [true, false] {
                    let a = ScreenRect { x: 3, y: 7, width: size, height: size };
                    assert_eq!(
                        ratatui_middle(vertical, side, middle, a),
                        expected_middle(vertical, side, middle, a),
                        "{} {} {} {}", size, side, middle, vertical
                    );
                }
            }
        }
    }
}

#[test]
fn ratatui_middle_part_follows_the_rounding_formula_near_the_edge() {
    for side in [0u16, 20, 25, 35] {
        for middle in [0u16, 20, 30, 50, 60] {
            if 2 * side + middle > 100 {
                continue;
            }
            for vertical in [true, false] {
                let a = ScreenRect { x: u16::MAX - 40, y: u16::MAX - 30, width: 200, height: 1000 };
                assert_eq!(ratatui_middle(vertical, side, middle, a), expected_middle(vertical, side, middle, a));
                let b = ScreenRect { x: 0, y: 0, width: 5000, height: 777 };
                assert_eq!(ratatui_middle(vertical, side, middle, b), expected_middle(vertical, side, middle, b));
            }
        }
    }
}

#[test]
fn centered_rect_matches_two_middle_parts() {
    for (px, py) in [(60u16, 20u16), (50, 30), (33, 77), (0, 100), (99, 1)] {
        for size in [0u16, 1, 9, 80, 131] {
            let r = ScreenRect { x: 2, y: 4, width: size, height: size + 3 };
            let row = expected_middle(true, (100 - py) / 2, py, r);
            let expected = expected_middle(false, (100 - px) / 2, px, row);
            assert_eq!(centered_rect(px, py, r), expected);
        }
    }
}
