use crate::graphic_rendition::{default_effect, spec_name_rgb, ColorEffect, SgrEffect};
use vstd::prelude::*;
use vstd::string::*;

verus! {

/// Combination of classes and inline styles.
///
/// While it is possible to use inline styles only, it is not doable with
/// just classes due to the amount of RGB colour values.
#[derive(Clone, Debug, Eq, PartialEq)]
pub struct ClassStyle {
    pub class: Option<String>,
    pub style: Option<String>,
}

/// The view of an optional string.
pub open spec fn opt_view(s: Option<String>) -> Option<Seq<char>> {
    match s {
        Some(x) => Some(x@),
        None => None,
    }
}

/// The accumulator text after appending `new`: a delimiter stands between
/// the old text and the addition when the old text is nonempty and does
/// not already end with the delimiter.
pub open spec fn spec_pushed(cur: Option<Seq<char>>, new: Seq<char>, delim: char) -> Seq<char> {
    let base = match cur {
        Some(s) => s,
        None => Seq::<char>::empty(),
    };
    if base.len() > 0 && base.last() != delim {
        base + seq![delim] + new
    } else {
        base + new
    }
}

impl Default for ClassStyle {
    fn default() -> (r: Self)
        ensures
            r.class is None,
            r.style is None,
    {
        ClassStyle { class: None, style: None }
    }
}

impl ClassStyle {
    /// Push a new class to the classes, separated from an earlier class by
    /// a space. This function doesn't validate the given string in any way.
    pub fn push_class(&mut self, new: &str)
        ensures
            opt_view(final(self).class) == Some(
                spec_pushed(opt_view(old(self).class), new@, ' '),
            ),
            final(self).style == old(self).style,
    {
        let cur: &str = match &self.class {
            Some(s) => s.as_str(),
            None => "",
        };
        let k = cur.unicode_len();
        let needs_delim = if k == 0 {
            false
        } else {
            cur.get_char(k - 1) != ' '
        };
        let mut out = cur.to_owned();
        if needs_delim {
            out.append(" ");
        }
        out.append(new);
        proof {
            reveal_strlit("");
            reveal_strlit(" ");
            assert(" "@ =~= seq![' ']);
            assert(out@ =~= spec_pushed(opt_view(self.class), new@, ' '));
        }
        self.class = Some(out);
    }

    /// Push a new property to the style, separated from an earlier
    /// property by a `;`. This function doesn't validate the given string
    /// in any way.
    pub fn push_style(&mut self, new: &str)
        ensures
            opt_view(final(self).style) == Some(
                spec_pushed(opt_view(old(self).style), new@, ';'),
            ),
            final(self).class == old(self).class,
    {
        let cur: &str = match &self.style {
            Some(s) => s.as_str(),
            None => "",
        };
        let k = cur.unicode_len();
        let needs_delim = if k == 0 {
            false
        } else {
            cur.get_char(k - 1) != ';'
        };
        let mut out = cur.to_owned();
        if needs_delim {
            out.append(";");
        }
        out.append(new);
        proof {
            reveal_strlit("");
            reveal_strlit(";");
            assert(";"@ =~= seq![';']);
            assert(out@ =~= spec_pushed(opt_view(self.style), new@, ';'));
        }
        self.style = Some(out);
    }
}

/// The abstract accumulator of a style builder: what `finish` would
/// return at this point, as mathematical values, together with which of
/// the three attributes have been applied so far.
pub struct StyleModel {
    pub class: Option<Seq<char>>,
    pub style: Option<Seq<char>>,
    pub bold: bool,
    pub italic: bool,
    pub underline: bool,
}

impl StyleModel {
    /// The accumulator with nothing applied.
    pub open spec fn empty() -> StyleModel {
        StyleModel { class: None, style: None, bold: false, italic: false, underline: false }
    }
}

/// Builder for [`ClassStyle`] values. A fresh builder holds an empty
/// accumulator, finishing returns exactly the accumulator, and every
/// mutator steps the accumulator by the builder's own transition
/// function. The attribute transitions are idempotent, and setting an
/// axis to no color leaves the accumulator unchanged.
pub trait StyleBuilder: Sized {
    /// The accumulated result, as mathematical values.
    spec fn model(&self) -> StyleModel;

    /// What applying bold does to an accumulator.
    spec fn bold_model(m: StyleModel) -> StyleModel;

    /// What applying italic does to an accumulator.
    spec fn italic_model(m: StyleModel) -> StyleModel;

    /// What applying underline does to an accumulator.
    spec fn underline_model(m: StyleModel) -> StyleModel;

    /// What setting the foreground colour does to an accumulator.
    spec fn fg_model(m: StyleModel, color: ColorEffect) -> StyleModel;

    /// What setting the background colour does to an accumulator.
    spec fn bg_model(m: StyleModel, color: ColorEffect) -> StyleModel;

    /// Make a builder with an empty accumulator.
    fn new_builder() -> (r: Self)
        ensures
            r.model() == StyleModel::empty(),
    ;

    /// Finish building and create a `ClassStyle`.
    fn finish(self) -> (r: ClassStyle)
        ensures
            opt_view(r.class) == self.model().class,
            opt_view(r.style) == self.model().style,
    ;

    /// Apply bold.
    fn bold(&mut self)
        ensures
            final(self).model() == Self::bold_model(old(self).model()),
    ;

    /// Apply italic.
    fn italic(&mut self)
        ensures
            final(self).model() == Self::italic_model(old(self).model()),
    ;

    /// Apply underline.
    fn underline(&mut self)
        ensures
            final(self).model() == Self::underline_model(old(self).model()),
    ;

    /// Set the foreground colour; no color leaves the accumulator as it
    /// was.
    fn fg_color(&mut self, color: &ColorEffect)
        ensures
            final(self).model() == Self::fg_model(old(self).model(), *color),
            *color is Unset ==> final(self).model() == old(self).model(),
    ;

    /// Set the background colour; no color leaves the accumulator as it
    /// was.
    fn bg_color(&mut self, color: &ColorEffect)
        ensures
            final(self).model() == Self::bg_model(old(self).model(), *color),
            *color is Unset ==> final(self).model() == old(self).model(),
    ;

    /// Applying bold twice yields the same accumulator as applying it
    /// once.
    proof fn bold_idempotent(m: StyleModel)
        ensures
            Self::bold_model(Self::bold_model(m)) == Self::bold_model(m),
    ;

    /// Applying italic twice yields the same accumulator as applying it
    /// once.
    proof fn italic_idempotent(m: StyleModel)
        ensures
            Self::italic_model(Self::italic_model(m)) == Self::italic_model(m),
    ;

    /// Applying underline twice yields the same accumulator as applying
    /// it once.
    proof fn underline_idempotent(m: StyleModel)
        ensures
            Self::underline_model(Self::underline_model(m)) == Self::underline_model(m),
    ;
}

/// The accumulator a builder reaches from a rendition state: the
/// attribute transitions run for the set flags, bold first, then the two
/// color transitions, foreground first.
pub open spec fn spec_class_style<B: StyleBuilder>(e: SgrEffect) -> StyleModel {
    let m0 = StyleModel::empty();
    let m1 = if e.bold {
        B::bold_model(m0)
    } else {
        m0
    };
    let m2 = if e.italic {
        B::italic_model(m1)
    } else {
        m1
    };
    let m3 = if e.underline {
        B::underline_model(m2)
    } else {
        m2
    };
    B::bg_model(B::fg_model(m3, e.fg), e.bg)
}

impl SgrEffect {
    /// Convert the rendition state into a style descriptor through the
    /// given builder: the attribute operations run only for set flags, and
    /// the color operations always, passing no color for an unset axis.
    /// The default state yields an empty descriptor through any builder.
    pub fn to_class_style<B: StyleBuilder>(&self) -> (r: ClassStyle)
        ensures
            opt_view(r.class) == spec_class_style::<B>(*self).class,
            opt_view(r.style) == spec_class_style::<B>(*self).style,
            *self == default_effect() ==> r.class is None && r.style is None,
    {
        let mut b = B::new_builder();
        if self.bold {
            b.bold();
        }
        if self.italic {
            b.italic();
        }
        if self.underline {
            b.underline();
        }
        b.fg_color(&self.fg);
        b.bg_color(&self.bg);
        b.finish()
    }
}

/// One lowercase hexadecimal digit.
pub open spec fn spec_hex_digit(n: int) -> char {
    if n == 0 {
        '0'
    } else if n == 1 {
        '1'
    } else if n == 2 {
        '2'
    } else if n == 3 {
        '3'
    } else if n == 4 {
        '4'
    } else if n == 5 {
        '5'
    } else if n == 6 {
        '6'
    } else if n == 7 {
        '7'
    } else if n == 8 {
        '8'
    } else if n == 9 {
        '9'
    } else if n == 10 {
        'a'
    } else if n == 11 {
        'b'
    } else if n == 12 {
        'c'
    } else if n == 13 {
        'd'
    } else if n == 14 {
        'e'
    } else {
        'f'
    }
}

/// The six lowercase hexadecimal digits of a 24-bit value, highest first.
pub open spec fn spec_hex6(v: int) -> Seq<char> {
    seq![
        spec_hex_digit((v / 0x100000) % 16),
        spec_hex_digit((v / 0x10000) % 16),
        spec_hex_digit((v / 0x1000) % 16),
        spec_hex_digit((v / 0x100) % 16),
        spec_hex_digit((v / 0x10) % 16),
        spec_hex_digit(v % 16),
    ]
}

fn hex_digit_str(n: u32) -> (r: &'static str)
    requires
        n < 16,
    ensures
        r@ == seq![spec_hex_digit(n as int)],
{
    proof {
        reveal_strlit("0");
        reveal_strlit("1");
        reveal_strlit("2");
        reveal_strlit("3");
        reveal_strlit("4");
        reveal_strlit("5");
        reveal_strlit("6");
        reveal_strlit("7");
        reveal_strlit("8");
        reveal_strlit("9");
        reveal_strlit("a");
        reveal_strlit("b");
        reveal_strlit("c");
        reveal_strlit("d");
        reveal_strlit("e");
        reveal_strlit("f");
    }
    let r: &'static str = if n == 0 {
        "0"
    } else if n == 1 {
        "1"
    } else if n == 2 {
        "2"
    } else if n == 3 {
        "3"
    } else if n == 4 {
        "4"
    } else if n == 5 {
        "5"
    } else if n == 6 {
        "6"
    } else if n == 7 {
        "7"
    } else if n == 8 {
        "8"
    } else if n == 9 {
        "9"
    } else if n == 10 {
        "a"
    } else if n == 11 {
        "b"
    } else if n == 12 {
        "c"
    } else if n == 13 {
        "d"
    } else if n == 14 {
        "e"
    } else {
        "f"
    };
    proof {
        assert(r@ =~= seq![spec_hex_digit(n as int)]);
    }
    r
}

fn hex6(v: u32) -> (r: String)
    requires
        v < 0x1000000,
    ensures
        r@ == spec_hex6(v as int),
{
    let mut out = String::new();
    out.append(hex_digit_str((v / 0x100000) % 16));
    out.append(hex_digit_str((v / 0x10000) % 16));
    out.append(hex_digit_str((v / 0x1000) % 16));
    out.append(hex_digit_str((v / 0x100) % 16));
    out.append(hex_digit_str((v / 0x10) % 16));
    out.append(hex_digit_str(v % 16));
    proof {
        assert(out@ =~= spec_hex6(v as int));
    }
    out
}

/// The 24-bit value an inline declaration renders for a set color effect;
/// a direct color keeps its low 24 bits.
pub open spec fn spec_effect_rgb(color: ColorEffect) -> int {
    match color {
        ColorEffect::Unset => 0,
        ColorEffect::Name(c) => spec_name_rgb(c, false) as int,
        ColorEffect::NameBright(c) => spec_name_rgb(c, true) as int,
        ColorEffect::Rgb(v) => v as int % 0x1000000,
    }
}

/// The inline declaration a set color effect renders as.
pub open spec fn spec_color_decl(color: ColorEffect, background: bool) -> Seq<char>
    recommends
        !(color is Unset),
{
    (if background {
        "background-color:#"@
    } else {
        "color:#"@
    }) + spec_hex6(spec_effect_rgb(color)) + ";"@
}

/// Style builder using only inline style attributes. Each attribute
/// declaration is pushed at most once: applying the same attribute again
/// changes nothing.
#[derive(Clone, Debug)]
pub struct InlineStyle {
    inner: ClassStyle,
    bold: bool,
    italic: bool,
    underline: bool,
}

/// The accumulator an inline builder holds.
pub closed spec fn inline_model(b: &InlineStyle) -> StyleModel {
    StyleModel {
        class: opt_view(b.inner.class),
        style: opt_view(b.inner.style),
        bold: b.bold,
        italic: b.italic,
        underline: b.underline,
    }
}

impl InlineStyle {
    fn push_color_style(&mut self, color: &ColorEffect, background: bool)
        ensures
            *color is Unset ==> *final(self) == *old(self),
            !(*color is Unset) ==> {
                &&& opt_view(final(self).inner.style) == Some(
                    spec_pushed(
                        opt_view(old(self).inner.style),
                        spec_color_decl(*color, background),
                        ';',
                    ),
                )
                &&& final(self).inner.class == old(self).inner.class
                &&& final(self).bold == old(self).bold
                &&& final(self).italic == old(self).italic
                &&& final(self).underline == old(self).underline
            },
    {
        let code: u32 = match color {
            ColorEffect::Unset => {
                return ;
            },
            ColorEffect::Name(c) => c.rgb(false),
            ColorEffect::NameBright(c) => c.rgb(true),
            ColorEffect::Rgb(c) => *c % 0x1000000,
        };
        let hex = hex6(code);
        let mut decl = if background {
            "background-color:#".to_owned()
        } else {
            "color:#".to_owned()
        };
        decl.append(hex.as_str());
        decl.append(";");
        proof {
            assert(decl@ == spec_color_decl(*color, background));
        }
        self.inner.push_style(decl.as_str());
    }
}

impl StyleBuilder for InlineStyle {
    open spec fn model(&self) -> StyleModel {
        inline_model(self)
    }

    open spec fn bold_model(m: StyleModel) -> StyleModel {
        if m.bold {
            m
        } else {
            StyleModel {
                style: Some(spec_pushed(m.style, "font-weight:bold;"@, ';')),
                bold: true,
                ..m
            }
        }
    }

    open spec fn italic_model(m: StyleModel) -> StyleModel {
        if m.italic {
            m
        } else {
            StyleModel {
                style: Some(spec_pushed(m.style, "font-style:italic;"@, ';')),
                italic: true,
                ..m
            }
        }
    }

    open spec fn underline_model(m: StyleModel) -> StyleModel {
        if m.underline {
            m
        } else {
            StyleModel {
                style: Some(spec_pushed(m.style, "text-decoration:underline;"@, ';')),
                underline: true,
                ..m
            }
        }
    }

    open spec fn fg_model(m: StyleModel, color: ColorEffect) -> StyleModel {
        if color is Unset {
            m
        } else {
            StyleModel { style: Some(spec_pushed(m.style, spec_color_decl(color, false), ';')), ..m }
        }
    }

    open spec fn bg_model(m: StyleModel, color: ColorEffect) -> StyleModel {
        if color is Unset {
            m
        } else {
            StyleModel { style: Some(spec_pushed(m.style, spec_color_decl(color, true), ';')), ..m }
        }
    }

    fn new_builder() -> (r: Self) {
        InlineStyle {
            inner: ClassStyle { class: None, style: None },
            bold: false,
            italic: false,
            underline: false,
        }
    }

    fn finish(self) -> (r: ClassStyle) {
        self.inner
    }

    fn bold(&mut self) {
        if !self.bold {
            self.inner.push_style("font-weight:bold;");
            self.bold = true;
        }
    }

    fn italic(&mut self) {
        if !self.italic {
            self.inner.push_style("font-style:italic;");
            self.italic = true;
        }
    }

    fn underline(&mut self) {
        if !self.underline {
            self.inner.push_style("text-decoration:underline;");
            self.underline = true;
        }
    }

    fn fg_color(&mut self, color: &ColorEffect) {
        self.push_color_style(color, false);
    }

    fn bg_color(&mut self, color: &ColorEffect) {
        self.push_color_style(color, true);
    }

    proof fn bold_idempotent(m: StyleModel) {
    }

    proof fn italic_idempotent(m: StyleModel) {
    }

    proof fn underline_idempotent(m: StyleModel) {
    }
}

} // verus!
