use soda_tui::kitty::{
    frame_delay_ms, random_offset, render_idle, render_processing, variant_at, variant_index,
    variant_spec, KittyVariant, CANVAS_HEIGHT, ROTATION_SECONDS, VARIANT_COUNT,
};
use soda_tui::model::Theme;
use soda_tui::style::Line;
use std::time::Duration;

/// A theme with a color of its own for every role.
fn theme() -> Theme {
    Theme {
        background: "#101418".to_owned(),
        foreground: "#e6e6e6".to_owned(),
        border: "#5c6370".to_owned(),
        muted: "#7f848e".to_owned(),
        accent: "#61afef".to_owned(),
        user: "#98c379".to_owned(),
        assistant: "#c678dd".to_owned(),
        tool: "#56b6c2".to_owned(),
        error: "#e06c75".to_owned(),
        warning: "#e5c07b".to_owned(),
        success: "#8cc265".to_owned(),
        cta_foreground: "#101418".to_owned(),
        cta_background: "#d19a66".to_owned(),
        syntax_theme: "base16-ocean.dark".to_owned(),
        ascii: false,
        syntax_highlighting: true,
    }
}

const BLOB_TAIL: &str = "      ▀▀▀▀▀▀▀";
const BLOB_BODY: &str = "██▀▀███▄▄██▄▄█";

/// Exact rest-pose content. Pinned so the upward-only tail animation does
/// not silently leak into the rest frame or onto the padding row.
fn assert_idle_blob(text: &[String]) {
    assert_eq!(text[0], "");
    assert_eq!(text[1], "      /█   /█");
    assert_eq!(text[2], "    ▄████████");
    assert_eq!(text[3], BLOB_BODY);
    assert_eq!(text[4], BLOB_TAIL);
    assert_eq!(text[5], "");
    assert_eq!(text.len(), CANVAS_HEIGHT);
}

#[test]
fn variant_index_with_offset_zero_is_documented_sequence() {
    let s = ROTATION_SECONDS;
    assert_eq!(variant_index(Duration::ZERO, 0), 0);
    assert_eq!(variant_index(Duration::from_secs(s - 1), 0), 0);
    assert_eq!(variant_index(Duration::from_secs(s), 0), 1);
    assert_eq!(variant_index(Duration::from_secs(2 * s - 1), 0), 1);
    assert_eq!(variant_index(Duration::from_secs(2 * s), 0), 2);
    assert_eq!(variant_index(Duration::from_secs(3 * s), 0), 0);
}

#[test]
fn variant_index_offset_one_advances_through_the_remaining_variants() {
    let s = ROTATION_SECONDS;
    assert_eq!(variant_index(Duration::ZERO, 1), 1);
    assert_eq!(variant_index(Duration::from_secs(s - 1), 1), 1);
    assert_eq!(variant_index(Duration::from_secs(s), 1), 2);
    assert_eq!(variant_index(Duration::from_secs(2 * s - 1), 1), 2);
    assert_eq!(variant_index(Duration::from_secs(2 * s), 1), 0);
    assert_eq!(variant_index(Duration::from_secs(3 * s), 1), 1);
    assert_eq!(variant_at(Duration::ZERO, 1), KittyVariant::Cbear);
}

#[test]
fn variant_index_offset_two_starts_on_fly_girl_and_wraps() {
    let s = ROTATION_SECONDS;
    assert_eq!(variant_index(Duration::ZERO, 2), 2);
    assert_eq!(variant_index(Duration::from_secs(s), 2), 0);
    assert_eq!(variant_index(Duration::from_secs(2 * s), 2), 1);
    assert_eq!(variant_index(Duration::from_secs(3 * s), 2), 2);
    assert_eq!(variant_at(Duration::ZERO, 2), KittyVariant::FlyGirl);
}

#[test]
fn variant_index_wraps_around_every_three_steps() {
    for offset in 0..VARIANT_COUNT {
        // Three 900 s steps land back on the same variant regardless of
        // the offset, so rotation can never drift off the catalog.
        assert_eq!(
            variant_index(Duration::from_secs(3 * ROTATION_SECONDS), offset),
            offset,
        );
        // Six steps land on the same variant again.
        assert_eq!(
            variant_index(Duration::from_secs(6 * ROTATION_SECONDS), offset),
            offset,
        );
    }
}

#[test]
fn variant_index_offset_larger_than_variant_count_is_modular() {
    let s = ROTATION_SECONDS;
    // 4 % 3 == 1, 5 % 3 == 2, 6 % 3 == 0.
    assert_eq!(variant_index(Duration::ZERO, 4), 1);
    assert_eq!(variant_index(Duration::ZERO, 5), 2);
    assert_eq!(variant_index(Duration::ZERO, 6), 0);
    assert_eq!(variant_index(Duration::from_secs(s), 5), 0);
}

#[test]
fn rotation_boundaries_pin_the_documented_seconds() {
    assert_eq!(variant_index(Duration::from_secs(899), 0), 0);
    assert_eq!(variant_index(Duration::from_secs(900), 0), 1);
    assert_eq!(variant_index(Duration::from_secs(1799), 0), 1);
    assert_eq!(variant_index(Duration::from_secs(1800), 0), 2);
    assert_eq!(
        variant_at(Duration::from_secs(1800), 0),
        KittyVariant::FlyGirl
    );
}

#[test]
fn startup_variant_with_offset_zero_is_blob() {
    // Without an offset the sequence is still deterministic and starts on
    // Blob; the offset only reorders the start.
    assert_eq!(variant_at(Duration::ZERO, 0), KittyVariant::Blob);
    assert_eq!(variant_index(Duration::ZERO, 0), 0);
}

#[test]
fn random_offset_returns_values_in_the_variant_range() {
    for _ in 0..64 {
        let offset = random_offset();
        assert!(offset < VARIANT_COUNT);
    }
}

#[test]
fn blob_idle_frame_uses_the_unmodified_asset() {
    let idle = render_idle(KittyVariant::Blob, &theme());
    let text: Vec<String> = idle.iter().map(Line::text).collect();
    assert_idle_blob(&text);
}

#[test]
fn cbear_idle_frame_uses_the_unmodified_asset() {
    let idle = render_idle(KittyVariant::Cbear, &theme());
    let text: Vec<String> = idle.iter().map(Line::text).collect();
    assert_eq!(text[0], "");
    assert_eq!(text[1], " ∩ ∩   Ω");
    assert_eq!(text[2], "│¬ ¬│ //");
    assert_eq!(text[3], "│ - │//");
    assert_eq!(text[4], "v───v");
    assert_eq!(text.len(), CANVAS_HEIGHT);
}

#[test]
fn flygrl_idle_frame_uses_the_unmodified_asset() {
    let idle = render_idle(KittyVariant::FlyGirl, &theme());
    let text: Vec<String> = idle.iter().map(Line::text).collect();
    assert_eq!(text[0], "");
    assert_eq!(text[1], "        Z");
    assert_eq!(text[2], "  /\\_/\\Z");
    assert_eq!(text[3], "()(_ _)");
    assert_eq!(text[4], "()( ° )");
    assert_eq!(text[5], "(_____)");
    assert_eq!(text.len(), CANVAS_HEIGHT);
}

#[test]
fn blob_rest_frames_match_the_unmodified_asset() {
    // Every frame that is not the tail-up frame must be the rest pose.
    for frame in [0, 2, 3] {
        let pose = render_processing(KittyVariant::Blob, frame, &theme());
        let text: Vec<String> = pose.iter().map(Line::text).collect();
        assert_idle_blob(&text);
    }
}

#[test]
fn blob_processing_frame_moves_only_the_tail_segment_up() {
    // Frame 1 is the only animated frame; the tail overlays the lower
    // body cells on row 3 and row 4 empties. Row 5 (padding) stays empty
    // and the head never moves.
    let frame = render_processing(KittyVariant::Blob, 1, &theme());
    let text: Vec<String> = frame.iter().map(Line::text).collect();
    // The face and the upper body lines never change.
    assert_eq!(text[0], "");
    assert_eq!(text[1], "      /█   /█");
    assert_eq!(text[2], "    ▄████████");
    // The tail overlaid the lower body cells starting at column 6; the
    // original head (`██`) at columns 0-1 stays put.
    assert_eq!(text[3], "██▀▀██▀▀▀▀▀▀▀█");
    // Row 4 emptied because the tail rose one row.
    assert_eq!(text[4], "");
    // Row 5 (the padding row) must stay empty in every frame.
    assert_eq!(text[5], "");
}

#[test]
fn blob_processing_never_moves_the_head() {
    // The head never moves up or down in any frame; the `██` on row 3
    // columns 0-1 stays put, and row 2 columns 0-1 stay blank.
    for frame in 0..variant_spec(KittyVariant::Blob).frame_count {
        let pose = render_processing(KittyVariant::Blob, frame, &theme());
        let text: Vec<String> = pose.iter().map(Line::text).collect();
        // Row 2 columns 0-1 stay blank (no upward head movement).
        assert!(
            text[2].chars().take(2).all(|c| c == ' '),
            "frame {frame} moved the head into row 2: {:?}",
            text[2]
        );
        // Row 3 columns 0-1 stay `██` (no removed head cells).
        let head: String = text[3].chars().take(2).collect();
        assert_eq!(
            head, "██",
            "frame {frame} removed the head from row 3: {:?}",
            text[3]
        );
    }
}

#[test]
fn blob_processing_keeps_padding_row_empty() {
    for frame in 0..variant_spec(KittyVariant::Blob).frame_count {
        let pose = render_processing(KittyVariant::Blob, frame, &theme());
        let text: Vec<String> = pose.iter().map(Line::text).collect();
        assert_eq!(
            text[5], "",
            "frame {frame} left content in padding row 5: {:?}",
            text[5]
        );
    }
}

#[test]
fn cbear_processing_moves_only_the_tail_structure() {
    let frame = render_processing(KittyVariant::Cbear, 1, &theme());
    let text: Vec<String> = frame.iter().map(Line::text).collect();
    // Face and body cells stay; the Ω dropped one row.
    assert_eq!(text[1], " ∩ ∩");
    assert_eq!(text[2], "│¬ ¬│  Ω");
    assert_eq!(text[3], "│ - │ //");
    assert_eq!(text[4], "v───v//");
}

#[test]
fn cbear_rest_and_last_frame_match_the_asset() {
    for frame in [0, 2] {
        let pose = render_processing(KittyVariant::Cbear, frame, &theme());
        let idle = render_idle(KittyVariant::Cbear, &theme());
        assert_eq!(pose, idle);
    }
}

#[test]
fn flygrl_processing_moves_only_the_floating_z_up() {
    let frame = render_processing(KittyVariant::FlyGirl, 1, &theme());
    let text: Vec<String> = frame.iter().map(Line::text).collect();
    // The free Z rose into the padding row 0; row 1 is empty.
    assert_eq!(text[0], "        Z");
    assert_eq!(text[1], "");
    // The attached Z on row 2 and the body are unchanged.
    assert_eq!(text[2], "  /\\_/\\Z");
    assert_eq!(text[3], "()(_ _)");
    assert_eq!(text[4], "()( ° )");
    assert_eq!(text[5], "(_____)");
}

#[test]
fn every_variant_shares_the_same_canvas_and_alignment() {
    for variant in [KittyVariant::Blob, KittyVariant::Cbear, KittyVariant::FlyGirl] {
        let idle = render_idle(variant, &theme());
        assert_eq!(idle.len(), CANVAS_HEIGHT);
        // Row 0 is empty padding for every resting variant, so the
        // artwork always starts on the same canvas row and rotation
        // cannot jump.
        assert_eq!(idle[0].text(), "");
        for frame in 0..variant_spec(variant).frame_count {
            let lines = render_processing(variant, frame, &theme());
            // The canvas height never changes, whatever a frame animates.
            assert_eq!(lines.len(), CANVAS_HEIGHT);
            // Only Fly Girl's upward Z ever enters the padding row 0.
            if variant != KittyVariant::FlyGirl || frame % 3 != 1 {
                assert_eq!(lines[0].text(), "");
            }
        }
    }
}

#[test]
fn trailing_whitespace_is_trimmed_for_visible_width() {
    let blob = render_idle(KittyVariant::Blob, &theme());
    // The asset ends with trailing spaces on source line 3; the trimmed
    // in-memory copy omits them so the painted width is exact.
    assert_eq!(blob[4].text(), "      ▀▀▀▀▀▀▀");
    assert_eq!(
        unicode_width::UnicodeWidthStr::width(blob[4].text().as_str()),
        13
    );
    let flygrl = render_idle(KittyVariant::FlyGirl, &theme());
    assert_eq!(flygrl[2].text(), "  /\\_/\\Z");
}

#[test]
fn frame_delays_match_the_variant() {
    assert_eq!(frame_delay_ms(KittyVariant::Blob, 0), 700);
    assert_eq!(frame_delay_ms(KittyVariant::Blob, 1), 500);
    assert_eq!(frame_delay_ms(KittyVariant::Cbear, 1), 600);
    assert_eq!(frame_delay_ms(KittyVariant::FlyGirl, 2), 600);
}
