use rawstring::{
    debug_render, display_render, display_render_padded, display_width, Alignment, RawStr,
};

#[test]
fn debug_hello_world() {
    let raw = RawStr::new("Hello, world!".as_bytes());
    assert_eq!(raw.to_debug_string(), "\"Hello, world!\"");
}

#[test]
fn display_hello_world() {
    let raw = RawStr::new("Hello, world!".as_bytes());
    assert_eq!(raw.to_display_string(), "Hello, world!");
}

#[test]
fn debug_invalid_byte() {
    let raw = RawStr::new(&[0x61, 0xFF, 0x62]);
    assert_eq!(raw.to_debug_string(), "\"a\\xffb\"");
}

#[test]
fn display_invalid_byte() {
    let raw = RawStr::new(&[0x61, 0xFF, 0x62]);
    let out = raw.to_display_string();
    assert_eq!(out, "a\u{FFFD}b");
    assert_eq!(out.chars().count(), 3);
}

#[test]
fn display_center_even_padding() {
    let out = display_render_padded("ab".as_bytes(), Alignment::Center, 6, '*');
    assert_eq!(out, "**ab**");
}

#[test]
fn display_center_odd_padding_extra_right() {
    let out = display_render_padded("ab".as_bytes(), Alignment::Center, 5, '*');
    assert_eq!(out, "*ab**");
}

#[test]
fn display_one_replacement_per_invalid_run() {
    let raw = RawStr::new(&[0x61, 0xFF, 0xFF, 0x62]);
    let out = raw.to_display_string();
    assert_eq!(out, "a\u{FFFD}b");
    assert_eq!(out.chars().filter(|c| *c == '\u{FFFD}').count(), 1);
}

#[test]
fn debug_control_bytes() {
    let raw = RawStr::new(&[0x00, 0x09, 0x7F]);
    assert_eq!(raw.to_debug_string(), "\"\\0\\t\\x7f\"");
}

#[test]
fn debug_quote_backslash_and_tick() {
    assert_eq!(debug_render(b"a\"b"), "\"a\\\"b\"");
    assert_eq!(debug_render(b"a\\b"), "\"a\\\\b\"");
    assert_eq!(debug_render(b"a'b"), "\"a\\'b\"");
    assert_eq!(debug_render(b"\r\n"), "\"\\r\\n\"");
}

#[test]
fn debug_non_ascii_printable_verbatim() {
    // U+00E9 is printable, so the scalar escape leaves it as it is
    assert_eq!(debug_render("aéb".as_bytes()), "\"aéb\"");
}

#[test]
fn debug_non_ascii_control_unicode_escape() {
    // U+0080 is a control character beyond ASCII: the Unicode escape form
    assert_eq!(debug_render(&[0xC2, 0x80]), "\"\\u{80}\"");
}

#[test]
fn debug_empty() {
    assert_eq!(debug_render(b""), "\"\"");
}

#[test]
fn display_empty() {
    assert_eq!(display_render(b""), "");
    assert_eq!(display_render_padded(b"", Alignment::Left, 3, '.'), "...");
}

#[test]
fn display_round_trips_valid_utf8() {
    let text = "héllo wörld \u{1F600}";
    assert_eq!(display_render(text.as_bytes()), text);
}

#[test]
fn display_width_counts_scalars_and_runs() {
    // two scalars, one rejected run, two more scalars
    let bytes = [0x61u8, 0xC3, 0xA9, 0xFF, 0xFE, 0x62, 0x63];
    assert_eq!(display_width(&bytes), 5);
    // an astral scalar counts as one
    assert_eq!(display_width("\u{1F600}".as_bytes()), 1);
}

#[test]
fn display_truncated_tail_is_one_run() {
    // a truncated three-byte encoding at the end forms one rejected run
    let bytes = [0x61u8, 0xE2, 0x82];
    assert_eq!(display_render(&bytes), "a\u{FFFD}");
}

#[test]
fn display_runs_split_by_scalars() {
    // two rejected runs separated by a well-formed scalar
    let bytes = [0xFFu8, 0x61, 0xFF];
    assert_eq!(display_render(&bytes), "\u{FFFD}a\u{FFFD}");
}

#[test]
fn display_pad_left_right() {
    assert_eq!(display_render_padded(b"ab", Alignment::Left, 5, '.'), "ab...");
    assert_eq!(display_render_padded(b"ab", Alignment::Right, 5, '.'), "...ab");
}

#[test]
fn display_pad_width_not_reached() {
    // a render at least as wide as the request is not padded
    assert_eq!(display_render_padded(b"abcdef", Alignment::Center, 4, '.'), "abcdef");
    assert_eq!(display_render_padded(b"abcd", Alignment::Left, 4, '.'), "abcd");
}

#[test]
fn display_pad_counts_replacement_as_one() {
    // the replacement character counts as one visible unit for padding
    let out = display_render_padded(&[0x61, 0xFF, 0xFF], Alignment::Right, 4, '.');
    assert_eq!(out, "..a\u{FFFD}");
}

#[test]
fn display_pad_wide_fill_character() {
    let out = display_render_padded(b"ab", Alignment::Right, 4, 'é');
    assert_eq!(out, "ééab");
}

fn unescape(body: &str) -> Vec<u8> {
    // reads a diagnostic token body back under the documented escape grammar
    let cs: Vec<char> = body.chars().collect();
    let mut out = Vec::new();
    let mut i = 0;
    while i < cs.len() {
        if cs[i] == '\\' {
            match cs[i + 1] {
                '0' => {
                    out.push(0x00);
                    i += 2;
                }
                't' => {
                    out.push(0x09);
                    i += 2;
                }
                'r' => {
                    out.push(0x0D);
                    i += 2;
                }
                'n' => {
                    out.push(0x0A);
                    i += 2;
                }
                '\\' => {
                    out.push(0x5C);
                    i += 2;
                }
                '\'' => {
                    out.push(0x27);
                    i += 2;
                }
                '"' => {
                    out.push(0x22);
                    i += 2;
                }
                'x' => {
                    let hi = cs[i + 2].to_digit(16).unwrap() as u8;
                    let lo = cs[i + 3].to_digit(16).unwrap() as u8;
                    out.push(16 * hi + lo);
                    i += 4;
                }
                other => panic!("unexpected escape {other}"),
            }
        } else {
            out.push(cs[i] as u8);
            i += 1;
        }
    }
    out
}

#[test]
fn debug_loses_nothing() {
    let runs: [&[u8]; 6] = [
        b"",
        b"Hello, world!",
        &[0x61, 0xFF, 0x62],
        &[0x00, 0x09, 0x7F, 0x22, 0x5C, 0x27],
        &[0xFF, 0xFE, 0xC0, 0x80],
        &[0x61, 0xE2, 0x82],
    ];
    for bytes in runs {
        let token = debug_render(bytes);
        let body = &token[1..token.len() - 1];
        assert_eq!(unescape(body), bytes, "token {token}");
    }
}
