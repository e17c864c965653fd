use soda_tui::app::App;
use soda_tui::draw::{arrange, parts_of_bands, parts_of_columns};
use soda_tui::json::{classify_tool_result_status, tool_result_text};
use soda_tui::kitty::{offset_of_bytes, random_offset, variant_index};
use soda_tui::layout::Part;
use soda_tui::markdown::{fence_language, markdown};
use soda_tui::model::{ActivityStatus, Selection, Theme};
use soda_tui::picker::{fuzzy_score, ModelRef, Picker};
use soda_tui::renderer::{Rect, Renderer};
use soda_tui::runs::Settings;
use soda_tui::style::{color, Color, Line, Span};
use soda_tui::text::{is_control_char, is_white_space, words_text};
use soda_tui::width::cell_width;
use std::time::Duration;

/// A theme with a color of its own for every role.
fn theme() -> Theme {
    Theme {
        background: "#101418".to_owned(),
        foreground: "#e6e6e6".to_owned(),
        border: "#5c6370".to_owned(),
        muted: "#7f848e".to_owned(),
        accent: "#61afef".to_owned(),
        user: "#98c379".to_owned(),
        assistant: "#c678dd".to_owned(),
        tool: "#56b6c2".to_owned(),
        error: "#e06c75".to_owned(),
        warning: "#e5c07b".to_owned(),
        success: "#8cc265".to_owned(),
        cta_foreground: "#101418".to_owned(),
        cta_background: "#d19a66".to_owned(),
        syntax_theme: "base16-ocean.dark".to_owned(),
        ascii: false,
        syntax_highlighting: true,
    }
}

const INK: Color = Color { r: 1, g: 2, b: 3 };

fn colors(lines: &[Line]) -> Vec<Color> {
    let mut all: Vec<Color> = Vec::new();
    for span in lines.iter().flat_map(|line| line.spans.iter()) {
        if let Some(color) = span.style.fg {
            if !all.contains(&color) {
                all.push(color);
            }
        }
    }
    all
}

#[test]
fn white_space_and_controls_are_those_of_unicode() {
    for code in 0..=0x10ffffu32 {
        if let Some(c) = char::from_u32(code) {
            assert_eq!(is_white_space(c), c.is_whitespace(), "{code:x}");
            assert_eq!(is_control_char(c), c.is_control(), "{code:x}");
        }
    }
    assert_eq!(words_text(" a\u{3000}b\u{85}c "), ["a", "b", "c"]);
}

#[test]
fn characters_and_strings_are_measured_in_cells() {
    assert_eq!(cell_width('a'), 1);
    assert_eq!(cell_width('漢'), 2);
    assert_eq!(cell_width('\u{301}'), 0);
    assert_eq!(cell_width('\u{7}'), 0);
    assert_eq!(Line::raw("aé漢").width(), 4);
    assert_eq!(Line::from_spans(vec![Span::raw("漢"), Span::raw("b")]).width(), 3);
}

#[test]
fn numbers_are_printed_as_they_were_read() {
    let mut numbers = vec![
        "0".to_owned(),
        "-1".to_owned(),
        "9223372036854775807".to_owned(),
        "-9223372036854775808".to_owned(),
        "18446744073709551615".to_owned(),
        "18446744073709551616".to_owned(),
        "-0.0".to_owned(),
        "-0".to_owned(),
        "1.0".to_owned(),
        "1e16".to_owned(),
        "0.1234567890123456789012345".to_owned(),
        "9007199254740993.5".to_owned(),
        "1.7976931348623157e308".to_owned(),
        "2.2250738585072014e-308".to_owned(),
        "5e-324".to_owned(),
    ];
    // Floats of every size, with all of their digits.
    let mut bits: u64 = 0x9e37_79b9_7f4a_7c15;
    for _ in 0..2000 {
        bits = bits.wrapping_mul(6364136223846793005).wrapping_add(1442695040888963407);
        let float = f64::from_bits(bits);
        if float.is_finite() {
            numbers.push(format!("{float:e}"));
        }
    }
    for number in numbers {
        let text = format!("{{\"k\":{number}}}");
        let Ok(value) = serde_json::from_str::<serde_json::Value>(&text) else {
            continue;
        };
        let printed = serde_json::to_string_pretty(&value).unwrap();
        assert_eq!(tool_result_text(&text), format!("```json\n{printed}\n```"));
    }
}

#[test]
fn json_is_read_and_written_by_its_rules() {
    assert_eq!(tool_result_text(r#"{"b":[1,2.5,null,true],"a":"x"}"#).lines().next(), Some("```json"));
    assert_eq!(
        tool_result_text(r#"{"k":[1,{"x":"y"}]}"#),
        "```json\n{\n  \"k\": [\n    1,\n    {\n      \"x\": \"y\"\n    }\n  ]\n}\n```"
    );
    assert_eq!(tool_result_text("not json"), "not json");
    assert_eq!(tool_result_text(r#"{"content":"caf\u00e9"}"#), "café");
    assert_eq!(classify_tool_result_status(r#"{"error":"x"}"#), ActivityStatus::Error);
    assert_eq!(classify_tool_result_status(r#"{"ok":"x"}"#), ActivityStatus::Success);
}

#[test]
fn code_takes_the_colors_of_its_language() {
    let code = "```rust\nfn main() { let text = \"hello\"; }\n```";
    let painted = markdown(code, &theme(), INK);
    assert!(colors(&painted).len() >= 4);
    let rows: Vec<String> = painted.iter().map(Line::text).collect();
    assert_eq!(rows[1], "fn main() { let text = \"hello\"; }");

    let mut plain = theme();
    plain.syntax_highlighting = false;
    let unpainted = markdown(code, &plain, INK);
    assert_eq!(unpainted[1].text(), rows[1]);
    assert!(colors(&unpainted[1..2]).len() <= 1);

    let unknown = markdown("```no-such-language\nlet x = 1;\n```", &theme(), INK);
    let text = markdown("```txt\nlet x = 1;\n```", &theme(), INK);
    assert_eq!(unknown[1], text[1]);
    assert_eq!(unknown[1].text(), "let x = 1;");

    let mut other = theme();
    other.syntax_theme = "InspiredGitHub".to_owned();
    assert_ne!(markdown(code, &other, INK)[1], painted[1]);
    other.syntax_theme = "no-such-palette".to_owned();
    assert_eq!(markdown(code, &other, INK)[1].text(), rows[1]);
    assert_eq!(fence_language("  ```rust"), Some("rust".to_owned()));
    assert_eq!(fence_language("plain"), None);
}

#[test]
fn letters_and_cases_are_those_of_unicode() {
    // A match behind a letter is no start of a word, one behind a dash is.
    assert_eq!(fuzzy_score("éa", "a"), Some(10 - 1));
    assert_eq!(fuzzy_score("-a", "a"), Some(18 - 1));
    let model = ModelRef { provider: "p".to_owned(), model: "ÀRBOL".to_owned() };
    let mut picker = Picker::models(&vec![], &model, &model, None);
    picker.paste("àrbol");
    assert_eq!(picker.matches.len(), 1);
}

#[test]
fn whole_seconds_turn_the_rotation() {
    assert_eq!(variant_index(Duration::from_millis(899_999), 0), 0);
    assert_eq!(variant_index(Duration::from_millis(900_000), 0), 1);
    assert_eq!(variant_index(Duration::MAX, 2), (2 + (u64::MAX / 900 % 3) as usize) % 3);
}

#[test]
fn launch_offsets_vary() {
    let mut seen = [false; 3];
    for _ in 0..200 {
        seen[random_offset()] = true;
    }
    assert_eq!(seen, [true; 3]);
    let mut bytes = [0u8; 16];
    bytes[0] = 4;
    assert_eq!(offset_of_bytes(&bytes), 1);
    bytes[1] = 1;
    assert_eq!(offset_of_bytes(&bytes), 2);
    bytes[5] = 99;
    assert_eq!(offset_of_bytes(&bytes), 2);
}

#[test]
fn colors_are_read_from_hex() {
    assert_eq!(color("#0a0B0c"), Color { r: 10, g: 11, b: 12 });
    assert_eq!(color("no color"), color("also none"));
}

/// Checks the parts of an area along the split: all lie in it, and where they
/// have room they follow each other.
fn check_parts(start: u16, cells: u16, parts: &[Part], found: &[(u16, u16)]) {
    assert_eq!(found.len(), parts.len());
    for (from, size) in found {
        assert!(start <= *from && from + size <= start + cells);
    }
    let mut fixed = 0;
    let mut least = 0;
    for part in parts {
        match part {
            Part::Length(n) => {
                fixed += n;
                least += n;
            }
            Part::Min(n) => least += n,
        }
    }
    if least <= cells {
        let mut from = start;
        for (part, got) in parts.iter().zip(found) {
            let size = match part {
                Part::Length(n) => *n,
                Part::Min(_) => cells - fixed,
            };
            assert_eq!(*got, (from, size));
            from += size;
        }
    }
}

fn rows(rects: &[Rect]) -> Vec<(u16, u16)> {
    rects.iter().map(|r| (r.y, r.height)).collect()
}

fn columns(rects: &[Rect]) -> Vec<(u16, u16)> {
    rects.iter().map(|r| (r.x, r.width)).collect()
}

#[test]
fn the_screen_is_split_into_its_parts() {
    let settings = Settings {
        workspace: "/a/rather/long/workspace".to_owned(),
        theme: theme(),
        default_agent: None,
        provider: "openai".to_owned(),
        model: "gpt-5".to_owned(),
        no_spend: "$0.0000".to_owned(),
    };
    let app = App::new(&settings, Selection::default());
    let renderer = Renderer::default();
    for (x, y) in [(0, 0), (3, 5)] {
        for width in (0..24).chain([30, 39, 40, 45, 46, 47, 48, 49, 50, 80, 81, 200]) {
            for height in (0..20).chain([24, 25, 60]) {
                let plan = renderer.plan(&app, Rect { x, y, width, height });
                let content = plan.content;
                let g = arrange(&app, &plan);
                let two = [Part::Length(1), Part::Length(1)];
                check_parts(content.y, content.height, &parts_of_bands(&plan), &rows(&g.bands));
                let band = g.bands[0];
                check_parts(band.x, band.width, &parts_of_columns(&plan), &columns(&g.columns));
                let text = g.columns[1];
                check_parts(text.y, text.height, &two, &rows(&g.metadata));
                check_parts(g.bands[3].y, g.bands[3].height, &two, &rows(&g.footer));
                let path = 24.min(g.bands[3].width / 2);
                let ends = [Part::Min(1), Part::Length(path)];
                check_parts(g.footer[1].x, g.footer[1].width, &ends, &columns(&g.ends));
                assert!(g.bands.iter().all(|b| b.x == content.x && b.width == content.width));
                assert!(g.columns.iter().all(|c| c.y == band.y && c.height == band.height));
                assert_eq!(g.dialog.len(), 4);
                assert_eq!(g.overlay.len(), 2);
                assert_eq!(g.approval.len(), 2);
            }
        }
    }
}
