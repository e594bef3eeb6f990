use ansi_sgr::{
    ClassStyle, ColorEffect, ColorName, InlineStyle, Sgr, SgrEffect, StyleBuilder,
};

#[test]
fn default_effect_empty_style() {
    let style = SgrEffect::default().to_class_style::<InlineStyle>();
    assert_eq!(style.class, None);
    assert_eq!(style.style, None);
}

#[test]
fn inline_style_bold_red() {
    let mut effect = SgrEffect::default();
    effect.apply_sgrs(&vec![Sgr::Bold, Sgr::ColorFgName(ColorName::Red)]);
    let style = effect.to_class_style::<InlineStyle>();
    assert_eq!(style.class, None);
    assert_eq!(
        style.style,
        Some("font-weight:bold;color:#aa0000;".to_string())
    );
}

#[test]
fn inline_style_all_attributes() {
    let mut effect = SgrEffect::default();
    effect.apply_sgrs(&vec![
        Sgr::Bold,
        Sgr::Italic,
        Sgr::Underline,
        Sgr::ColorFg(0x00a1ff),
        Sgr::ColorBgNameBright(ColorName::Cyan),
    ]);
    let style = effect.to_class_style::<InlineStyle>();
    assert_eq!(style.class, None);
    assert_eq!(
        style.style,
        Some(
            "font-weight:bold;font-style:italic;text-decoration:underline;\
             color:#00a1ff;background-color:#55ffff;"
                .to_string()
        )
    );
}

#[test]
fn segment_builder_bold_run() {
    let segments = ansi_sgr::get_sgr_segments("a\u{001b}[1mb\u{001b}[0mc");
    assert_eq!(segments.len(), 3);
    let styles: Vec<ClassStyle> = segments
        .iter()
        .map(|(effect, _)| effect.to_class_style::<InlineStyle>())
        .collect();
    assert_eq!(segments[0].1, "a");
    assert_eq!(styles[0].style, None);
    assert_eq!(segments[1].1, "b");
    assert_eq!(styles[1].style, Some("font-weight:bold;".to_string()));
    assert_eq!(segments[2].1, "c");
    assert_eq!(styles[2].style, None);
}

#[test]
fn named_color_table() {
    assert_eq!(ColorName::Green.rgb(false), 0x00aa00);
    assert_eq!(ColorName::Green.rgb(true), 0x55ff55);
    assert_eq!(ColorName::Black.rgb(false), 0x000000);
    assert_eq!(ColorName::Black.rgb(true), 0x555555);
    assert_eq!(ColorName::Yellow.rgb(false), 0xaa5500);
    assert_eq!(ColorName::White.rgb(true), 0xffffff);
}

#[test]
fn class_style_push() {
    let mut cs = ClassStyle::default();
    cs.push_class("first");
    cs.push_class("second");
    assert_eq!(cs.class, Some("first second".to_string()));
    assert_eq!(cs.style, None);

    let mut cs = ClassStyle::default();
    cs.push_style("color:#000000;");
    cs.push_style("font-weight:bold;");
    assert_eq!(
        cs.style,
        Some("color:#000000;font-weight:bold;".to_string())
    );

    let mut cs = ClassStyle::default();
    cs.push_style("abc");
    cs.push_style("def");
    assert_eq!(cs.style, Some("abc;def".to_string()));
    assert_eq!(cs.class, None);
}

#[test]
fn builder_color_axes() {
    let mut builder = InlineStyle::new_builder();
    builder.fg_color(&ColorEffect::Unset);
    builder.bg_color(&ColorEffect::Unset);
    let style = builder.finish();
    assert_eq!(style.class, None);
    assert_eq!(style.style, None);

    let mut builder = InlineStyle::new_builder();
    builder.fg_color(&ColorEffect::Rgb(0x123456));
    builder.bg_color(&ColorEffect::Name(ColorName::Blue));
    let style = builder.finish();
    assert_eq!(
        style.style,
        Some("color:#123456;background-color:#0000aa;".to_string())
    );
}

#[test]
fn builder_mutators_idempotent() {
    let mut builder = InlineStyle::new_builder();
    builder.bold();
    builder.bold();
    builder.italic();
    builder.italic();
    builder.underline();
    builder.underline();
    let style = builder.finish();
    assert_eq!(
        style.style,
        Some("font-weight:bold;font-style:italic;text-decoration:underline;".to_string())
    );
    assert_eq!(style.class, None);
}
