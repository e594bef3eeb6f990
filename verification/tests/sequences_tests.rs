use ansi_sgr::{
    get_markers, get_sgr_segments, parse_sgrs, read_next_sequence, CharCursor, ColorEffect,
    ColorName, Csi, Escape, Marker, Sgr, SgrEffect,
};

fn parse(s: &str) -> Option<Escape> {
    let s = s.replace("CSI ", "\u{001b} [");
    Escape::parse(&mut CharCursor::new(&s))
}

fn parse_sgr(s: &str) -> Vec<Sgr> {
    match parse(s) {
        Some(Escape::Csi(Csi::Sgr(sgr))) => sgr,
        _ => panic!("expected sgr"),
    }
}

#[test]
fn parsing() {
    assert_eq!(
        parse_sgr("CSI 32 m"),
        vec![Sgr::ColorFgName(ColorName::Green)]
    );
    assert_eq!(
        parse_sgr("CSI 32;1m"),
        vec![Sgr::ColorFgName(ColorName::Green), Sgr::Bold]
    );
}

#[test]
fn marking() {
    let markers = get_markers("Hello \u{001b} [33mWorld");
    assert_eq!(
        markers,
        vec![
            Marker::Text("Hello "),
            Marker::Sequence(Escape::Csi(Csi::Sgr(vec![Sgr::ColorFgName(
                ColorName::Yellow
            )]))),
            Marker::Text("World"),
        ]
    )
}

#[test]
fn plain_text_single_marker() {
    assert_eq!(get_markers("no escapes here"), vec![Marker::Text("no escapes here")]);
    assert_eq!(get_markers(""), Vec::<Marker>::new());
}

#[test]
fn roundtrip_markers() {
    let markers = get_markers("Hello \u{001b}[33mWorld");
    assert_eq!(
        markers,
        vec![
            Marker::Text("Hello "),
            Marker::Sequence(Escape::Csi(Csi::Sgr(vec![Sgr::ColorFgName(
                ColorName::Yellow
            )]))),
            Marker::Text("World"),
        ]
    )
}

#[test]
fn green_bold_commands() {
    let markers = get_markers("\u{001b}[32m");
    assert_eq!(
        markers,
        vec![Marker::Sequence(Escape::Csi(Csi::Sgr(vec![
            Sgr::ColorFgName(ColorName::Green)
        ])))]
    );
    let markers = get_markers("\u{001b}[32;1m");
    let expected = vec![Sgr::ColorFgName(ColorName::Green), Sgr::Bold];
    assert_eq!(
        markers,
        vec![Marker::Sequence(Escape::Csi(Csi::Sgr(expected.clone())))]
    );
    let mut effect = SgrEffect::new();
    effect.apply_sgrs(&expected);
    assert!(effect.bold);
    assert_eq!(effect.fg, ColorEffect::Name(ColorName::Green));
    assert_eq!(effect.bg, ColorEffect::Unset);
}

#[test]
fn overflow_parameter_dropped() {
    assert_eq!(get_markers("\u{001b}[9999999999999m"), Vec::<Marker>::new());
    assert_eq!(
        get_markers("\u{001b}[9999999999999mrest"),
        vec![Marker::Text("rest")]
    );
}

#[test]
fn unrecognized_sequences_dropped() {
    assert_eq!(get_markers("\u{001b}"), Vec::<Marker>::new());
    assert_eq!(get_markers("\u{001b}["), Vec::<Marker>::new());
    assert_eq!(get_markers("\u{001b}[31xtail"), vec![Marker::Text("tail")]);
    assert_eq!(
        get_markers("a\u{001b}]0;titleb"),
        vec![Marker::Text("a"), Marker::Text("]0;titleb")]
    );
}

#[test]
fn read_next_sequence_splits() {
    let (pre, esc, rest) = read_next_sequence("ab\u{001b}[1mcd");
    assert_eq!(pre, "ab");
    assert_eq!(esc, Some(Escape::Csi(Csi::Sgr(vec![Sgr::Bold]))));
    assert_eq!(rest, "cd");

    let (pre, esc, rest) = read_next_sequence("xyz");
    assert_eq!(pre, "xyz");
    assert_eq!(esc, None);
    assert_eq!(rest, "");
}

#[test]
fn implicit_reset() {
    assert_eq!(parse_sgr("CSI m"), vec![Sgr::Reset]);
}

#[test]
fn empty_parameter_fails() {
    assert_eq!(parse("CSI ;m"), None);
    assert_eq!(parse("CSI 1;;2m"), None);
}

#[test]
fn extended_color_codes() {
    assert_eq!(
        parse_sgrs(&vec![38, 5, 1]),
        vec![Sgr::ColorFgName(ColorName::Red)]
    );
    assert_eq!(
        parse_sgrs(&vec![38, 5, 9]),
        vec![Sgr::ColorFgNameBright(ColorName::Red)]
    );
    assert_eq!(parse_sgrs(&vec![38, 5, 196]), vec![Sgr::ColorFg(0xff0000)]);
    assert_eq!(parse_sgrs(&vec![48, 5, 232]), vec![Sgr::ColorBg(0x080808)]);
    assert_eq!(
        parse_sgrs(&vec![38, 2, 1, 2, 3]),
        vec![Sgr::ColorFg(0x010203)]
    );
    assert_eq!(
        parse_sgrs(&vec![48, 2, 255, 0, 128]),
        vec![Sgr::ColorBg(0xff0080)]
    );
    // too few trailing codes: the selector is skipped, the rest decodes on
    assert_eq!(parse_sgrs(&vec![38, 5]), Vec::<Sgr>::new());
    assert_eq!(parse_sgrs(&vec![38, 7, 1]), vec![Sgr::Bold]);
    // codes that are not understood decode to nothing
    assert_eq!(parse_sgrs(&vec![2, 99]), Vec::<Sgr>::new());
    assert_eq!(
        parse_sgrs(&vec![0, 1, 3, 4, 39, 49]),
        vec![
            Sgr::Reset,
            Sgr::Bold,
            Sgr::Italic,
            Sgr::Underline,
            Sgr::ColorFgDefault,
            Sgr::ColorBgDefault,
        ]
    );
}

#[test]
fn reset_restores_default() {
    let mut effect = SgrEffect::new();
    effect.apply_sgrs(&vec![
        Sgr::Bold,
        Sgr::Italic,
        Sgr::ColorFgName(ColorName::Red),
        Sgr::ColorBg(0x123456),
        Sgr::Reset,
    ]);
    assert_eq!(effect, SgrEffect::default());
}

#[test]
fn bold_twice_idempotent() {
    let mut once = SgrEffect::new();
    once.apply_sgrs(&vec![Sgr::Bold]);
    let mut twice = SgrEffect::new();
    twice.apply_sgrs(&vec![Sgr::Bold, Sgr::Bold]);
    assert_eq!(once, twice);
}

#[test]
fn cursor_operations() {
    let mut cursor = CharCursor::new("ab cd");
    assert!(cursor.peek_char('a'));
    assert!(!cursor.peek_char('b'));
    assert_eq!(cursor.read_char('b'), None);
    assert_eq!(cursor.read_char('a'), Some(()));
    assert_eq!(cursor.read(), Some('b'));
    assert_eq!(cursor.position(), 2);
    assert_eq!(cursor.get(0, 2), Some("ab"));
    assert_eq!(cursor.get(3, 5), Some("cd"));
    assert_eq!(cursor.get(3, 6), None);
    assert_eq!(cursor.remainder(), " cd");
}

#[test]
fn segments_thread_state() {
    let segments = get_sgr_segments("a\u{001b}[31mb\u{001b}[42mc");
    assert_eq!(segments.len(), 3);
    assert_eq!(segments[0].1, "a");
    assert_eq!(segments[0].0, SgrEffect::default());
    assert_eq!(segments[1].1, "b");
    assert_eq!(segments[1].0.fg, ColorEffect::Name(ColorName::Red));
    assert_eq!(segments[2].1, "c");
    assert_eq!(segments[2].0.fg, ColorEffect::Name(ColorName::Red));
    assert_eq!(segments[2].0.bg, ColorEffect::Name(ColorName::Green));
    assert_eq!(get_sgr_segments(""), Vec::<(SgrEffect, &str)>::new());
}

#[test]
fn repeated_bold_same_segments() {
    let twice = get_sgr_segments("\u{001b}[1m\u{001b}[1mX");
    let once = get_sgr_segments("\u{001b}[1mX");
    assert_eq!(twice, once);
}
