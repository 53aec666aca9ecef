use cleoc::layout::{shown_line, side_by_side, split_lines};

/// The listing as `str::lines` and the padding of `format!` lay it out.
fn expected_listing(src: &str, result: &str) -> String {
    let src_lines: Vec<&str> = src.lines().collect();
    let result_lines: Vec<&str> = result.lines().collect();
    let max_lines = src_lines.len().max(result_lines.len());
    let line_number_width = max_lines.to_string().len();
    let left_width = 60;
    let mut out = String::new();
    out.push_str(&format!(
        "{:>width$} | {:<left_width$} | {}\n",
        "",
        "SRC",
        "RESULT",
        width = line_number_width,
        left_width = left_width
    ));
    out.push_str(&format!(
        "{:-<width$}-+-{:-<left_width$}-+-{:-<40}\n",
        "",
        "",
        "",
        width = line_number_width,
        left_width = left_width
    ));
    for i in 0..max_lines {
        let left = src_lines.get(i).unwrap_or(&"");
        let right = result_lines.get(i).unwrap_or(&"");
        let left_display = if left.len() > left_width {
            format!("{}…", &left[..left_width - 1])
        } else {
            left.to_string()
        };
        out.push_str(&format!(
            "{:>width$} | {:<left_width$} | {}\n",
            i + 1,
            left_display,
            right,
            width = line_number_width,
            left_width = left_width
        ));
    }
    out
}

#[test]
fn lines_split_like_str_lines() {
    for text in ["", "a", "a\n", "a\nb", "a\r\nb\r\n", "\n\n", "x\ry", "end\r"] {
        let got = split_lines(text);
        let want: Vec<String> = text.lines().map(|l| l.to_string()).collect();
        assert_eq!(got, want, "{:?}", text);
    }
}

#[test]
fn listing_matches_the_printed_table() {
    let cases = [
        ("fn main() {\n}\n", "void main();\n\nvoid main() {\n}\n"),
        ("a\nb", "x"),
        ("", ""),
        ("one\r\ntwo\r\n", ""),
        ("1\n2\n3\n4\n5\n6\n7\n8\n9\n10\n11\n", "r"),
    ];
    for (src, result) in cases {
        let (text, whole) = side_by_side(src, result);
        assert!(whole);
        assert_eq!(text, expected_listing(src, result), "{:?}", src);
    }
}

#[test]
fn long_lines_are_cut_and_marked() {
    let long = "x".repeat(70);
    assert_eq!(shown_line(&long), Some(format!("{}…", "x".repeat(59))));
    assert_eq!(shown_line(&"y".repeat(60)), Some("y".repeat(60)));
    let accented = format!("{}é{}", "a".repeat(57), "b".repeat(10));
    assert_eq!(shown_line(&accented), Some(format!("{}é…", "a".repeat(57))));
    let (text, whole) = side_by_side(&long, "r");
    assert!(whole);
    assert_eq!(text, expected_listing(&long, "r"));
}

#[test]
fn a_cut_inside_a_character_stops_the_listing() {
    let bad = format!("{}é{}", "a".repeat(58), "b".repeat(10));
    assert_eq!(shown_line(&bad), None);
    let src = format!("ok\n{}\nlater", bad);
    let (text, whole) = side_by_side(&src, "r");
    assert!(!whole);
    assert_eq!(text, expected_listing("ok", "r"));
}
