//! The ASCII command protocol: parsing, serialization, and the error
//! cases that are logged and dropped.

use chameleos::color::Rgba;
use chameleos::command::Command;
use chameleos::command::CommandError;

#[test]
fn plain_commands_parse() {
    assert_eq!(Command::deserialize(b"toggle"), Ok(Command::Toggle));
    assert_eq!(Command::deserialize(b"undo"), Ok(Command::Undo));
    assert_eq!(Command::deserialize(b"clear"), Ok(Command::Clear));
    assert_eq!(
        Command::deserialize(b"clear_and_deactivate"),
        Ok(Command::ClearAndDeactivate)
    );
    assert_eq!(Command::deserialize(b"exit"), Ok(Command::Exit));
}

#[test]
fn extra_tokens_are_ignored() {
    assert_eq!(Command::deserialize(b"toggle now"), Ok(Command::Toggle));
    assert_eq!(
        Command::deserialize(b"stroke_width 8.5 please"),
        Ok(Command::StrokeWidth { width: 8500 })
    );
}

#[test]
fn unknown_and_empty_messages_are_errors() {
    assert_eq!(Command::deserialize(b"bogus"), Err(CommandError::UnknownMessage));
    assert_eq!(Command::deserialize(b"togglex"), Err(CommandError::UnknownMessage));
    assert_eq!(Command::deserialize(b"togg"), Err(CommandError::UnknownMessage));
    assert_eq!(Command::deserialize(b""), Err(CommandError::EmptyMessage));
}

#[test]
fn widths_parse_in_thousandths() {
    assert_eq!(Command::deserialize(b"stroke_width 8"), Ok(Command::StrokeWidth { width: 8000 }));
    assert_eq!(
        Command::deserialize(b"stroke_width 8.5"),
        Ok(Command::StrokeWidth { width: 8500 })
    );
    assert_eq!(
        Command::deserialize(b"stroke_width 8.125"),
        Ok(Command::StrokeWidth { width: 8125 })
    );
    assert_eq!(
        Command::deserialize(b"stroke_width 0.05"),
        Ok(Command::StrokeWidth { width: 50 })
    );
    assert_eq!(
        Command::deserialize(b"stroke_width 12."),
        Ok(Command::StrokeWidth { width: 12000 })
    );
    assert_eq!(
        Command::deserialize(b"stroke_width 999999.999"),
        Ok(Command::StrokeWidth { width: 999999999 })
    );
    assert_eq!(
        Command::deserialize(b"stroke_width .5"),
        Ok(Command::StrokeWidth { width: 500 })
    );
    assert_eq!(
        Command::deserialize(b"stroke_width 1234567"),
        Ok(Command::StrokeWidth { width: 1234567000 })
    );
    // the largest representable width round-trips exactly
    assert_eq!(
        Command::deserialize(b"stroke_width 4294967.295"),
        Ok(Command::StrokeWidth { width: u32::MAX })
    );
}

#[test]
fn bad_widths_are_errors() {
    assert_eq!(Command::deserialize(b"stroke_width"), Err(CommandError::BadWidth));
    assert_eq!(Command::deserialize(b"stroke_width "), Err(CommandError::BadWidth));
    assert_eq!(Command::deserialize(b"stroke_width abc"), Err(CommandError::BadWidth));
    assert_eq!(Command::deserialize(b"stroke_width 8.1234"), Err(CommandError::BadWidth));
    assert_eq!(Command::deserialize(b"stroke_width 12345678"), Err(CommandError::BadWidth));
    assert_eq!(Command::deserialize(b"stroke_width ."), Err(CommandError::BadWidth));
    assert_eq!(Command::deserialize(b"stroke_width 1.2.3"), Err(CommandError::BadWidth));
    assert_eq!(Command::deserialize(b"stroke_width -1"), Err(CommandError::BadWidth));
    // a seven-digit integer part is in the grammar, but the value must
    // fit the width's range
    assert_eq!(
        Command::deserialize(b"stroke_width 4294967.296"),
        Err(CommandError::BadWidth)
    );
    assert_eq!(Command::deserialize(b"stroke_width 9999999"), Err(CommandError::BadWidth));
}

#[test]
fn colors_parse_through_the_css_parser() {
    assert_eq!(
        Command::deserialize(b"stroke_color red"),
        Ok(Command::StrokeColor { color: Rgba { r: 255, g: 0, b: 0, a: 255 } })
    );
    assert_eq!(
        Command::deserialize(b"stroke_color #00ff00"),
        Ok(Command::StrokeColor { color: Rgba { r: 0, g: 255, b: 0, a: 255 } })
    );
    assert_eq!(
        Command::deserialize(b"stroke_color #11223344"),
        Ok(Command::StrokeColor { color: Rgba { r: 0x11, g: 0x22, b: 0x33, a: 0x44 } })
    );
}

#[test]
fn bad_colors_are_errors() {
    assert_eq!(Command::deserialize(b"stroke_color"), Err(CommandError::BadColor));
    assert_eq!(Command::deserialize(b"stroke_color nope"), Err(CommandError::BadColor));
    assert_eq!(Command::deserialize(b"stroke_color #zzz"), Err(CommandError::BadColor));
}

#[test]
fn plain_commands_serialize() {
    assert_eq!(Command::Toggle.serialize(), b"toggle".to_vec());
    assert_eq!(Command::Undo.serialize(), b"undo".to_vec());
    assert_eq!(Command::Clear.serialize(), b"clear".to_vec());
    assert_eq!(
        Command::ClearAndDeactivate.serialize(),
        b"clear_and_deactivate".to_vec()
    );
    assert_eq!(Command::Exit.serialize(), b"exit".to_vec());
}

#[test]
fn widths_serialize_with_trimmed_fractions() {
    assert_eq!(
        Command::StrokeWidth { width: 8000 }.serialize(),
        b"stroke_width 8".to_vec()
    );
    assert_eq!(
        Command::StrokeWidth { width: 8500 }.serialize(),
        b"stroke_width 8.5".to_vec()
    );
    assert_eq!(
        Command::StrokeWidth { width: 8050 }.serialize(),
        b"stroke_width 8.05".to_vec()
    );
    assert_eq!(
        Command::StrokeWidth { width: 8125 }.serialize(),
        b"stroke_width 8.125".to_vec()
    );
    assert_eq!(Command::StrokeWidth { width: 50 }.serialize(), b"stroke_width 0.05".to_vec());
}

#[test]
fn colors_serialize_as_css_hex() {
    assert_eq!(
        Command::StrokeColor { color: Rgba { r: 255, g: 0, b: 0, a: 255 } }.serialize(),
        b"stroke_color #ff0000ff".to_vec()
    );
    assert_eq!(
        Command::StrokeColor { color: Rgba { r: 0x0a, g: 0xbc, b: 0xde, a: 0xf0 } }.serialize(),
        b"stroke_color #0abcdef0".to_vec()
    );
}

#[test]
fn serialized_commands_parse_back() {
    let samples = [
        Command::Toggle,
        Command::Undo,
        Command::Clear,
        Command::ClearAndDeactivate,
        Command::StrokeWidth { width: 8000 },
        Command::StrokeWidth { width: 125 },
        Command::StrokeWidth { width: 999999999 },
        Command::StrokeWidth { width: u32::MAX },
        // the color round trip runs the real CSS parser on our hex form
        Command::StrokeColor { color: Rgba { r: 1, g: 2, b: 3, a: 4 } },
        Command::StrokeColor { color: Rgba { r: 255, g: 128, b: 0, a: 255 } },
        Command::Exit,
    ];
    for c in samples {
        let bytes = c.serialize();
        assert_eq!(Command::deserialize(&bytes), Ok(c), "round trip of {:?}", c);
    }
}

#[test]
fn error_messages_match_the_log_lines() {
    assert_eq!(CommandError::EmptyMessage.message(), "received empty message");
    assert_eq!(CommandError::UnknownMessage.message(), "unknown message");
    assert_eq!(
        CommandError::BadWidth.message(),
        "received stroke width message but couldn't parse a width"
    );
    assert_eq!(
        CommandError::BadColor.message(),
        "received stroke color message but couldn't parse a color"
    );
}
