use ggsdk::grid::{infer_grid, parse_token, parse_u8_chars};

fn chars(s: &str) -> Vec<char> {
    s.chars().collect()
}

#[test]
fn grid_is_read_off_the_file_name() {
    assert_eq!(infer_grid("sheet_4x2.png"), (4, 2));
    assert_eq!(infer_grid("sheet.png"), (1, 1));
}

#[test]
fn grid_is_read_off_the_last_path_segment() {
    assert_eq!(infer_grid("assets/img/sheet_4x2.png"), (4, 2));
    assert_eq!(infer_grid("assets_8x8/sheet.png"), (1, 1));
    assert_eq!(infer_grid("assets_8x8/sheet_3x5.png"), (3, 5));
    assert_eq!(infer_grid("a.b/sheet_3x5"), (3, 5));
}

#[test]
fn grid_is_read_off_the_last_underscore_part() {
    assert_eq!(infer_grid("big_sheet_2x3_16x12.png"), (16, 12));
    assert_eq!(infer_grid("sheet_4x2_final.png"), (1, 1));
    assert_eq!(infer_grid("4x2.png"), (4, 2));
    assert_eq!(infer_grid("sheet_.png"), (1, 1));
}

#[test]
fn grid_numbers_must_fit_in_eight_bits() {
    assert_eq!(infer_grid("sheet_255x255.png"), (255, 255));
    assert_eq!(infer_grid("sheet_256x2.png"), (1, 1));
    assert_eq!(infer_grid("sheet_2x256.png"), (1, 1));
    assert_eq!(infer_grid("sheet_99999999999999999999999x2.png"), (1, 1));
    assert_eq!(infer_grid("sheet_0x0.png"), (0, 0));
    assert_eq!(infer_grid("sheet_007x010.png"), (7, 10));
}

#[test]
fn grid_defaults_where_the_token_is_malformed() {
    assert_eq!(infer_grid("sheet_4x.png"), (1, 1));
    assert_eq!(infer_grid("sheet_x2.png"), (1, 1));
    assert_eq!(infer_grid("sheet_x.png"), (1, 1));
    assert_eq!(infer_grid("sheet_4X2.png"), (1, 1));
    assert_eq!(infer_grid("sheet_4-2.png"), (1, 1));
    assert_eq!(infer_grid("sheet_ax2.png"), (1, 1));
    assert_eq!(infer_grid("sheet_4x2a.png"), (1, 1));
    assert_eq!(infer_grid("sheet_-4x2.png"), (1, 1));
    assert_eq!(infer_grid("sheet_4 x2.png"), (1, 1));
    assert_eq!(infer_grid(""), (1, 1));
    assert_eq!(infer_grid("/"), (1, 1));
    assert_eq!(infer_grid("."), (1, 1));
    assert_eq!(infer_grid(".."), (1, 1));
    assert_eq!(infer_grid("sheet_4x2/.."), (1, 1));
}

#[test]
fn separators_and_dot_segments_at_the_end_are_set_aside() {
    assert_eq!(infer_grid("dir_3x4/"), (3, 4));
    assert_eq!(infer_grid("dir_3x4//"), (3, 4));
    assert_eq!(infer_grid("dir_3x4/."), (3, 4));
    assert_eq!(infer_grid("a/dir_3x4.d/./"), (3, 4));
    assert_eq!(infer_grid("dir_3x4/./x"), (1, 1));
    assert_eq!(infer_grid("dir_3x4/.x"), (1, 1));
}

/// The grid as the path and text functions of std give it.
fn grid_by_std(path: &str) -> (u8, u8) {
    let stem = std::path::Path::new(path).file_stem().and_then(|stem| stem.to_str()).unwrap_or("");
    let last = stem.split('_').last().unwrap_or("");
    let mut parts = last.split('x');
    if let (Some(c), Some(r)) = (parts.next(), parts.next()) {
        if let (Ok(c), Ok(r)) = (u8::from_str_radix(c, 10), u8::from_str_radix(r, 10)) {
            return (c, r);
        }
    }
    (1, 1)
}

#[test]
fn grid_agrees_with_std_paths() {
    let pieces = ["", "a", "_", "x", ".", "/", "4", "2", "12", "256", "+", "-", "_4x2", "4x2", "..", "/.", "./", "a_1x1", ".png", "_9x9.", "x3", "3x", " "];
    let mut all = 0;
    for a in pieces {
        for b in pieces {
            for c in pieces {
                let path = format!("{}{}{}", a, b, c);
                assert_eq!(infer_grid(&path), grid_by_std(&path), "{:?}", path);
                all += 1;
            }
        }
    }
    assert_eq!(all, pieces.len() * pieces.len() * pieces.len());
}

#[test]
fn grid_token_may_go_on_behind_a_second_x() {
    assert_eq!(infer_grid("sheet_4x2x9.png"), (4, 2));
    assert_eq!(infer_grid("sheet_4x2xzz.png"), (4, 2));
    assert_eq!(infer_grid("sheet_4xx2.png"), (1, 1));
}

#[test]
fn grid_numbers_may_carry_a_plus() {
    assert_eq!(infer_grid("sheet_+4x+2.png"), (4, 2));
    assert_eq!(infer_grid("sheet_+x2.png"), (1, 1));
    assert_eq!(infer_grid("sheet_++4x2.png"), (1, 1));
}

#[test]
fn grid_is_read_off_the_stem() {
    assert_eq!(infer_grid("sheet_4x2"), (4, 2));
    assert_eq!(infer_grid("sheet_4x2.tar.gz"), (1, 1));
    assert_eq!(infer_grid("sheet_4x2."), (4, 2));
    assert_eq!(infer_grid("._4x2"), (4, 2));
    assert_eq!(infer_grid(".sheet_4x2.png"), (4, 2));
    assert_eq!(infer_grid("sh\u{e9}\u{e9}t_4x2.png"), (4, 2));
}

#[test]
fn numbers_are_parsed_as_unsigned_bytes() {
    assert_eq!(parse_u8_chars(&chars("0")), Some(0));
    assert_eq!(parse_u8_chars(&chars("42")), Some(42));
    assert_eq!(parse_u8_chars(&chars("255")), Some(255));
    assert_eq!(parse_u8_chars(&chars("+255")), Some(255));
    assert_eq!(parse_u8_chars(&chars("0000255")), Some(255));
    assert_eq!(parse_u8_chars(&chars("256")), None);
    assert_eq!(parse_u8_chars(&chars("2550")), None);
    assert_eq!(parse_u8_chars(&chars("")), None);
    assert_eq!(parse_u8_chars(&chars("+")), None);
    assert_eq!(parse_u8_chars(&chars("-1")), None);
    assert_eq!(parse_u8_chars(&chars("1 ")), None);
    assert_eq!(parse_u8_chars(&chars("\u{661}")), None);
}

#[test]
fn tokens_are_parsed_as_columns_and_rows() {
    assert_eq!(parse_token(&chars("4x2")), Some((4, 2)));
    assert_eq!(parse_token(&chars("12x34x56")), Some((12, 34)));
    assert_eq!(parse_token(&chars("42")), None);
    assert_eq!(parse_token(&chars("x")), None);
    assert_eq!(parse_token(&chars("")), None);
}

#[test]
fn numbers_parse_as_std_parses_them() {
    for text in ["0", "7", "+7", "255", "256", "", "+", "-3", "1x", "00012", "300", "99999"] {
        assert_eq!(parse_u8_chars(&chars(text)), u8::from_str_radix(text, 10).ok(), "{}", text);
    }
}
