use tzctl::table::{display_width, Align, Table};

#[test]
fn display_width_ignores_ansi() {
    let colored = "\x1b[32mconnected\x1b[0m";
    assert_eq!(display_width(colored), "connected".len());
    assert_eq!(display_width("plain"), 5);
}

#[test]
fn widths_fit_longest_cell() {
    let mut t = Table::new(&["A", "NAME"]);
    t.row(&["1", "short"]);
    t.row(&["2", "a-longer-name"]);
    let rendered = t.render();
    for line in rendered.lines() {
        assert!(line.contains("  "));
    }
}

#[test]
fn right_align_pads_on_left() {
    let mut t = Table::new(&["N", "X"]).align(0, Align::Right);
    t.row(&["1", "a"]);
    t.row(&["100", "b"]);
    let rendered = t.render();
    let lines: Vec<&str> = rendered.lines().collect();
    assert!(lines[1].starts_with("  1"));
    assert!(lines[2].starts_with("100"));
}

#[test]
fn colored_cell_aligns_to_visible_width() {
    let mut t = Table::new(&["S", "END"]);
    t.row(&["\x1b[32mok\x1b[0m", "x"]);
    t.row(&["fail", "y"]);
    let rendered = t.render();
    let lines: Vec<&str> = rendered.lines().collect();
    let strip = |s: &str| {
        let mut out = String::new();
        let mut cs = s.chars();
        while let Some(c) = cs.next() {
            if c == '\x1b' {
                for c in cs.by_ref() {
                    if c == 'm' {
                        break;
                    }
                }
            } else {
                out.push(c);
            }
        }
        out
    };
    let a = strip(lines[1]).find('x').unwrap();
    let b = strip(lines[2]).find('y').unwrap();
    assert_eq!(a, b);
}

#[test]
fn no_trailing_whitespace() {
    let mut t = Table::new(&["A", "B"]);
    t.row(&["1", "value"]);
    t.row(&["longlong", ""]);
    for line in t.render().lines() {
        assert_eq!(line.trim_end(), line, "line has trailing whitespace: {line:?}");
    }
}

#[test]
fn header_is_styled() {
    let t = Table::new(&["NAME"]);
    assert!(t.render().contains("NAME"));
}

#[test]
fn rows_are_padded_to_column_width() {
    let mut t = Table::new(&["AB", "C"]);
    t.row(&["x", "y"]);
    let rendered = t.render();
    let lines: Vec<&str> = rendered.lines().collect();
    assert_eq!(lines.len(), 2);
    assert_eq!(lines[0], "\x1b[90mAB\x1b[39m  \x1b[90mC\x1b[39m");
    assert_eq!(lines[1], "x   y");
}
