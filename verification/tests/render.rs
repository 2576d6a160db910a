use entropy_scan::decimal::{append_decimal, append_zero_padded, decimal_width};
use entropy_scan::image::{image_height, render_image, Shade, MAX_COLOR};
use entropy_scan::render::ReportKind;
use entropy_scan::table::{render_table, INDEX_WIDTH};

const RULE: &str =
    "--------------------------------------------------------------------------------";

/// The shade of a block of entropy `e`: red rises and blue falls with it.
fn shade(e: f64) -> Shade {
    let c = (f64::from(MAX_COLOR) / 8.0) * e;
    Shade { red: c as u8, blue: (f64::from(MAX_COLOR) - c) as u8 }
}

fn decimal(number: usize) -> String {
    let mut out = String::new();
    append_decimal(&mut out, number);
    out
}

fn zero_padded(number: usize, width: usize) -> String {
    let mut out = String::new();
    append_zero_padded(&mut out, number, width);
    out
}

#[test]
fn empty_image_path_asks_for_the_table() {
    assert_eq!(ReportKind::for_image_path(""), ReportKind::Table);
}

#[test]
fn image_path_asks_for_the_image() {
    assert_eq!(ReportKind::for_image_path("strip.ppm"), ReportKind::Image);
    assert_eq!(ReportKind::for_image_path(" "), ReportKind::Image);
}

#[test]
fn decimal_writes_numbers_as_format_does() {
    for number in [0usize, 1, 9, 10, 11, 99, 100, 255, 1000, 1_048_576, 99_999_999, usize::MAX] {
        assert_eq!(decimal(number), format!("{}", number));
        assert_eq!(decimal_width(number), format!("{}", number).len());
    }
}

#[test]
fn decimal_appends_to_what_is_there() {
    let mut out = String::from("n=");
    append_decimal(&mut out, 42);
    assert_eq!(out, "n=42");
}

#[test]
fn zero_padded_fills_to_the_width() {
    assert_eq!(zero_padded(0, 8), "00000000");
    assert_eq!(zero_padded(7, 8), "00000007");
    assert_eq!(zero_padded(12345, 8), "00012345");
    assert_eq!(zero_padded(99_999_999, 8), "99999999");
    assert_eq!(zero_padded(5, 0), "5");
    assert_eq!(zero_padded(5, 1), "5");
}

#[test]
fn zero_padded_keeps_longer_numbers_whole() {
    assert_eq!(zero_padded(100_000_000, 8), "100000000");
    assert_eq!(zero_padded(123_456_789_012, 8), "123456789012");
}

#[test]
fn zero_padded_writes_as_format_does() {
    for number in [0usize, 3, 10, 4711, 12_345_678, 99_999_999, 100_000_000, usize::MAX] {
        assert_eq!(zero_padded(number, INDEX_WIDTH), format!("{:0>8}", number));
    }
}

#[test]
fn table_of_no_blocks_is_the_header() {
    let text = render_table(&Vec::new());
    assert_eq!(text, format!("{}\nBlock       Entropy \n{}\n", RULE, RULE));
}

#[test]
fn table_has_one_line_for_each_block() {
    let cells = vec![String::from("0.000"), String::from("1.000"), String::from("7.999")];
    let text = render_table(&cells);
    let expected = format!(
        "{}\nBlock       Entropy \n{}\n00000000    0.000\n00000001    1.000\n00000002    7.999\n",
        RULE, RULE
    );
    assert_eq!(text, expected);
}

#[test]
fn table_lines_are_numbered_from_zero_upwards() {
    let values: Vec<f64> = (0..120).map(|i| f64::from(i) / 15.0).collect();
    let cells: Vec<String> = values.iter().map(|v| format!("{:.3}", v)).collect();
    let text = render_table(&cells);
    let lines: Vec<&str> = text.lines().collect();
    assert_eq!(lines.len(), 3 + 120);
    assert_eq!(lines[0], RULE);
    assert_eq!(lines[1], "Block       Entropy ");
    assert_eq!(lines[2], RULE);
    for (n, v) in values.iter().enumerate() {
        assert_eq!(lines[3 + n], format!("{:0>8}    {:.3}", n, v));
        assert_eq!(lines[3 + n][..8].parse::<usize>(), Ok(n));
    }
    assert!(text.ends_with('\n'));
}

#[test]
fn image_height_is_a_tenth_of_the_width_but_at_least_one() {
    assert_eq!(image_height(0), 1);
    assert_eq!(image_height(1), 1);
    assert_eq!(image_height(9), 1);
    assert_eq!(image_height(10), 1);
    assert_eq!(image_height(19), 1);
    assert_eq!(image_height(20), 2);
    assert_eq!(image_height(25), 2);
    assert_eq!(image_height(1000), 100);
    assert_eq!(image_height(usize::MAX), usize::MAX / 10);
}

#[test]
fn image_of_no_blocks_is_zero_wide() {
    assert_eq!(render_image(&Vec::new()), "P3\n0 1\n255\n");
}

#[test]
fn image_of_one_block_is_one_pixel() {
    let text = render_image(&vec![Shade { red: 12, blue: 243 }]);
    assert_eq!(text, "P3\n1 1\n255\n12 0 243\n");
}

#[test]
fn image_rows_hold_the_shades_in_order() {
    let shades = vec![
        Shade { red: 0, blue: 255 },
        Shade { red: 100, blue: 155 },
        Shade { red: 255, blue: 0 },
    ];
    let text = render_image(&shades);
    assert_eq!(text, "P3\n3 1\n255\n0 0 255\n100 0 155\n255 0 0\n");
}

#[test]
fn image_repeats_the_row_to_a_band() {
    let shades: Vec<Shade> =
        (0..25u8).map(|i| Shade { red: i * 10, blue: 255 - i * 10 }).collect();
    let text = render_image(&shades);
    let lines: Vec<&str> = text.lines().collect();
    assert_eq!(lines[0], "P3");
    assert_eq!(lines[1], "25 2");
    assert_eq!(lines[2], "255");
    assert_eq!(lines.len(), 3 + 25 * 2);
    for row in 0..2 {
        for (column, shade) in shades.iter().enumerate() {
            let line = lines[3 + row * 25 + column];
            assert_eq!(line, format!("{} {} {}", shade.red, 0, shade.blue));
        }
    }
    assert!(text.ends_with('\n'));
}

#[test]
fn image_has_a_line_for_each_pixel() {
    for width in [0usize, 1, 9, 10, 11, 20, 37, 100] {
        let shades = vec![Shade { red: 1, blue: 2 }; width];
        let text = render_image(&shades);
        let height = std::cmp::max(width / 10, 1);
        let lines: Vec<&str> = text.lines().collect();
        assert_eq!(lines.len(), 3 + width * height);
        assert_eq!(lines[1], format!("{} {}", width, height));
    }
}

#[test]
fn lowest_entropy_is_blue_and_highest_is_red() {
    let text = render_image(&vec![shade(0.0), shade(8.0)]);
    assert_eq!(text, "P3\n2 1\n255\n0 0 255\n255 0 0\n");
}

#[test]
fn middle_entropy_is_half_red_and_half_blue() {
    let text = render_image(&vec![shade(4.0), shade(1.0)]);
    assert_eq!(text, "P3\n2 1\n255\n127 0 127\n31 0 223\n");
}
