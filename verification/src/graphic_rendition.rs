use vstd::prelude::*;

verus! {

/// One of the eight standard terminal colors.
#[derive(Clone, Copy, Debug, PartialEq, Eq, Structural)]
pub enum ColorName {
    Black,
    Red,
    Green,
    Yellow,
    Blue,
    Magenta,
    Cyan,
    White,
}

/// The standard color selected by a code offset in `0..8`.
pub open spec fn spec_color_name(n: int) -> ColorName {
    if n == 0 {
        ColorName::Black
    } else if n == 1 {
        ColorName::Red
    } else if n == 2 {
        ColorName::Green
    } else if n == 3 {
        ColorName::Yellow
    } else if n == 4 {
        ColorName::Blue
    } else if n == 5 {
        ColorName::Magenta
    } else if n == 6 {
        ColorName::Cyan
    } else {
        ColorName::White
    }
}

fn color_name(n: u32) -> (r: ColorName)
    requires
        n < 8,
    ensures
        r == spec_color_name(n as int),
{
    if n == 0 {
        ColorName::Black
    } else if n == 1 {
        ColorName::Red
    } else if n == 2 {
        ColorName::Green
    } else if n == 3 {
        ColorName::Yellow
    } else if n == 4 {
        ColorName::Blue
    } else if n == 5 {
        ColorName::Magenta
    } else if n == 6 {
        ColorName::Cyan
    } else {
        ColorName::White
    }
}

/// The fixed 24-bit value a named color renders as, following the common
/// VGA palette; `bright` selects the high-intensity variant.
pub open spec fn spec_name_rgb(c: ColorName, bright: bool) -> u32 {
    if bright {
        match c {
            ColorName::Black => 0x555555u32,
            ColorName::Red => 0xff5555u32,
            ColorName::Green => 0x55ff55u32,
            ColorName::Yellow => 0xffff55u32,
            ColorName::Blue => 0x5555ffu32,
            ColorName::Magenta => 0xff55ffu32,
            ColorName::Cyan => 0x55ffffu32,
            ColorName::White => 0xffffffu32,
        }
    } else {
        match c {
            ColorName::Black => 0x000000u32,
            ColorName::Red => 0xaa0000u32,
            ColorName::Green => 0x00aa00u32,
            ColorName::Yellow => 0xaa5500u32,
            ColorName::Blue => 0x0000aau32,
            ColorName::Magenta => 0xaa00aau32,
            ColorName::Cyan => 0x00aaaau32,
            ColorName::White => 0xaaaaaau32,
        }
    }
}

impl ColorName {
    /// The 24-bit value this crate renders the color as.
    pub fn rgb(self, bright: bool) -> (r: u32)
        ensures
            r == spec_name_rgb(self, bright),
    {
        if bright {
            match self {
                ColorName::Black => 0x555555,
                ColorName::Red => 0xff5555,
                ColorName::Green => 0x55ff55,
                ColorName::Yellow => 0xffff55,
                ColorName::Blue => 0x5555ff,
                ColorName::Magenta => 0xff55ff,
                ColorName::Cyan => 0x55ffff,
                ColorName::White => 0xffffff,
            }
        } else {
            match self {
                ColorName::Black => 0x000000,
                ColorName::Red => 0xaa0000,
                ColorName::Green => 0x00aa00,
                ColorName::Yellow => 0xaa5500,
                ColorName::Blue => 0x0000aa,
                ColorName::Magenta => 0xaa00aa,
                ColorName::Cyan => 0x00aaaa,
                ColorName::White => 0xaaaaaa,
            }
        }
    }
}

/// The resolved color state of one axis (foreground or background).
#[derive(Clone, Copy, Debug, PartialEq, Eq, Structural)]
pub enum ColorEffect {
    /// No color is set; the axis shows its default.
    Unset,
    /// One of the eight standard colors.
    Name(ColorName),
    /// The high-intensity variant of a standard color.
    NameBright(ColorName),
    /// A direct 24-bit color.
    Rgb(u32),
}

/// A graphic-rendition command, decoded from SGR parameter codes.
#[derive(Clone, Copy, Debug, PartialEq, Eq, Structural)]
pub enum Sgr {
    Reset,
    Bold,
    Italic,
    Underline,
    ColorFgName(ColorName),
    ColorBgName(ColorName),
    ColorFgNameBright(ColorName),
    ColorBgNameBright(ColorName),
    ColorFg(u32),
    ColorBg(u32),
    ColorFgDefault,
    ColorBgDefault,
}

/// The intensity rendered for one 6-level component of the 256-color cube.
pub open spec fn spec_cube_level(v: int) -> int {
    if v == 0 {
        0
    } else {
        55 + 40 * v
    }
}

/// The 24-bit value rendered for a 256-color palette index in `16..=255`:
/// the 6x6x6 color cube for `16..=231`, the grayscale ramp above.
pub open spec fn spec_indexed_rgb(n: int) -> int {
    if n < 232 {
        let m = n - 16;
        spec_cube_level(m / 36) * 0x10000 + spec_cube_level((m / 6) % 6) * 0x100 + spec_cube_level(
            m % 6,
        )
    } else {
        let g = 8 + 10 * (n - 232);
        g * 0x10000 + g * 0x100 + g
    }
}

/// The color effect an 8-bit palette index in `0..=255` stands for: the
/// named colors for `0..=7`, their bright variants for `8..=15`, and a
/// direct 24-bit value above.
pub open spec fn spec_indexed_effect(n: int) -> ColorEffect {
    if n < 8 {
        ColorEffect::Name(spec_color_name(n))
    } else if n < 16 {
        ColorEffect::NameBright(spec_color_name(n - 8))
    } else {
        ColorEffect::Rgb(spec_indexed_rgb(n) as u32)
    }
}

fn cube_level(v: u32) -> (r: u32)
    requires
        v <= 5,
    ensures
        r as int == spec_cube_level(v as int),
        r <= 255,
{
    if v == 0 {
        0
    } else {
        55 + 40 * v
    }
}

fn indexed_color(n: u32) -> (r: ColorEffect)
    requires
        n <= 255,
    ensures
        r == spec_indexed_effect(n as int),
{
    if n < 8 {
        ColorEffect::Name(color_name(n))
    } else if n < 16 {
        ColorEffect::NameBright(color_name(n - 8))
    } else if n < 232 {
        let m = n - 16;
        let rv = cube_level(m / 36);
        let gv = cube_level((m / 6) % 6);
        let bv = cube_level(m % 6);
        ColorEffect::Rgb(rv * 0x10000 + gv * 0x100 + bv)
    } else {
        let g = 8 + 10 * (n - 232);
        ColorEffect::Rgb(g * 0x10000 + g * 0x100 + g)
    }
}

/// The command that sets one axis to the given color effect; `fg` picks the
/// foreground axis.
pub open spec fn spec_color_sgr(fg: bool, e: ColorEffect) -> Sgr {
    match e {
        ColorEffect::Unset => if fg {
            Sgr::ColorFgDefault
        } else {
            Sgr::ColorBgDefault
        },
        ColorEffect::Name(c) => if fg {
            Sgr::ColorFgName(c)
        } else {
            Sgr::ColorBgName(c)
        },
        ColorEffect::NameBright(c) => if fg {
            Sgr::ColorFgNameBright(c)
        } else {
            Sgr::ColorBgNameBright(c)
        },
        ColorEffect::Rgb(v) => if fg {
            Sgr::ColorFg(v)
        } else {
            Sgr::ColorBg(v)
        },
    }
}

fn color_sgr(fg: bool, e: ColorEffect) -> (r: Sgr)
    ensures
        r == spec_color_sgr(fg, e),
{
    match e {
        ColorEffect::Unset => if fg {
            Sgr::ColorFgDefault
        } else {
            Sgr::ColorBgDefault
        },
        ColorEffect::Name(c) => if fg {
            Sgr::ColorFgName(c)
        } else {
            Sgr::ColorBgName(c)
        },
        ColorEffect::NameBright(c) => if fg {
            Sgr::ColorFgNameBright(c)
        } else {
            Sgr::ColorBgNameBright(c)
        },
        ColorEffect::Rgb(v) => if fg {
            Sgr::ColorFg(v)
        } else {
            Sgr::ColorBg(v)
        },
    }
}

/// The commands decoded at the head of a code list, and how many codes they
/// consume: one for a simple command, three or five for the extended color
/// forms `38;5;n`, `48;5;n`, `38;2;r;g;b` and `48;2;r;g;b`. A code that is
/// not understood, or an extended form with too few trailing codes or an
/// unknown selector, decodes to no command and consumes one code. Color
/// components are taken modulo 256.
pub open spec fn spec_sgr_step(codes: Seq<u32>) -> (Seq<Sgr>, int)
    recommends
        codes.len() > 0,
{
    let c = codes[0];
    if c == 0 {
        (seq![Sgr::Reset], 1)
    } else if c == 1 {
        (seq![Sgr::Bold], 1)
    } else if c == 3 {
        (seq![Sgr::Italic], 1)
    } else if c == 4 {
        (seq![Sgr::Underline], 1)
    } else if 30 <= c && c <= 37 {
        (seq![Sgr::ColorFgName(spec_color_name(c - 30))], 1)
    } else if c == 39 {
        (seq![Sgr::ColorFgDefault], 1)
    } else if 40 <= c && c <= 47 {
        (seq![Sgr::ColorBgName(spec_color_name(c - 40))], 1)
    } else if c == 49 {
        (seq![Sgr::ColorBgDefault], 1)
    } else if 90 <= c && c <= 97 {
        (seq![Sgr::ColorFgNameBright(spec_color_name(c - 90))], 1)
    } else if 100 <= c && c <= 107 {
        (seq![Sgr::ColorBgNameBright(spec_color_name(c - 100))], 1)
    } else if c == 38 || c == 48 {
        if codes.len() >= 3 && codes[1] == 5 {
            (seq![spec_color_sgr(c == 38, spec_indexed_effect(codes[2] as int % 256))], 3)
        } else if codes.len() >= 5 && codes[1] == 2 {
            (
                seq![
                    spec_color_sgr(
                        c == 38,
                        ColorEffect::Rgb(
                            ((codes[2] as int % 256) * 0x10000 + (codes[3] as int % 256) * 0x100 + (
                            codes[4] as int % 256)) as u32,
                        ),
                    ),
                ],
                5,
            )
        } else {
            (Seq::<Sgr>::empty(), 1)
        }
    } else {
        (Seq::<Sgr>::empty(), 1)
    }
}

/// The ordered command list decoded from an ordered list of SGR parameter
/// codes, consuming extra codes as arguments of the extended color forms.
pub open spec fn spec_parse_sgrs(codes: Seq<u32>) -> Seq<Sgr>
    decreases codes.len(),
{
    if codes.len() == 0 {
        Seq::empty()
    } else {
        let step = spec_sgr_step(codes);
        step.0 + spec_parse_sgrs(codes.skip(step.1))
    }
}

/// Decode an ordered list of SGR parameter codes into rendition commands.
/// Codes that are not understood are skipped, never rejected.
pub fn parse_sgrs(codes: &Vec<u32>) -> (r: Vec<Sgr>)
    ensures
        r@ == spec_parse_sgrs(codes@),
{
    let mut r: Vec<Sgr> = Vec::new();
    let mut i: usize = 0;
    proof {
        assert(codes@.skip(0) =~= codes@);
        assert(Seq::<Sgr>::empty() + spec_parse_sgrs(codes@) =~= spec_parse_sgrs(codes@));
    }
    while i < codes.len()
        invariant
            i <= codes.len(),
            spec_parse_sgrs(codes@) == r@ + spec_parse_sgrs(codes@.skip(i as int)),
        decreases codes.len() - i,
    {
        let ghost pre = codes@.skip(i as int);
        let ghost r0 = r@;
        let c = codes[i];
        let mut k: usize = 1;
        if c == 0 {
            r.push(Sgr::Reset);
        } else if c == 1 {
            r.push(Sgr::Bold);
        } else if c == 3 {
            r.push(Sgr::Italic);
        } else if c == 4 {
            r.push(Sgr::Underline);
        } else if 30 <= c && c <= 37 {
            r.push(Sgr::ColorFgName(color_name(c - 30)));
        } else if c == 39 {
            r.push(Sgr::ColorFgDefault);
        } else if 40 <= c && c <= 47 {
            r.push(Sgr::ColorBgName(color_name(c - 40)));
        } else if c == 49 {
            r.push(Sgr::ColorBgDefault);
        } else if 90 <= c && c <= 97 {
            r.push(Sgr::ColorFgNameBright(color_name(c - 90)));
        } else if 100 <= c && c <= 107 {
            r.push(Sgr::ColorBgNameBright(color_name(c - 100)));
        } else if c == 38 || c == 48 {
            if codes.len() - i > 2 && codes[i + 1] == 5 {
                let e = indexed_color(codes[i + 2] % 256);
                r.push(color_sgr(c == 38, e));
                k = 3;
            } else if codes.len() - i > 4 && codes[i + 1] == 2 {
                let rv = codes[i + 2] % 256;
                let gv = codes[i + 3] % 256;
                let bv = codes[i + 4] % 256;
                r.push(color_sgr(c == 38, ColorEffect::Rgb(rv * 0x10000 + gv * 0x100 + bv)));
                k = 5;
            }
        }
        proof {
            let step = spec_sgr_step(pre);
            assert(step.1 == k as int);
            assert(r@ =~= r0 + step.0);
            assert(pre.skip(k as int) =~= codes@.skip(i as int + k as int));
            assert((r0 + step.0) + spec_parse_sgrs(pre.skip(step.1)) =~= r0 + (step.0
                + spec_parse_sgrs(pre.skip(step.1))));
        }
        i = i + k;
    }
    proof {
        assert(codes@.skip(codes@.len() as int) =~= Seq::<u32>::empty());
        assert(r@ + Seq::<Sgr>::empty() =~= r@);
    }
    r
}

/// Cumulative rendition state: the net effect of every SGR command applied
/// since the last reset.
#[derive(Clone, Copy, Debug, PartialEq, Eq, Structural)]
pub struct SgrEffect {
    pub bold: bool,
    pub italic: bool,
    pub underline: bool,
    pub fg: ColorEffect,
    pub bg: ColorEffect,
}

/// The state with no active attribute.
pub open spec fn default_effect() -> SgrEffect {
    SgrEffect {
        bold: false,
        italic: false,
        underline: false,
        fg: ColorEffect::Unset,
        bg: ColorEffect::Unset,
    }
}

impl Default for SgrEffect {
    fn default() -> (r: Self)
        ensures
            r == default_effect(),
    {
        SgrEffect {
            bold: false,
            italic: false,
            underline: false,
            fg: ColorEffect::Unset,
            bg: ColorEffect::Unset,
        }
    }
}

/// The state after folding one command into `e`: `Reset` clears every
/// field, the three attribute commands set their flag, and each color
/// command overwrites its axis.
pub open spec fn spec_apply_sgr(e: SgrEffect, cmd: Sgr) -> SgrEffect {
    match cmd {
        Sgr::Reset => default_effect(),
        Sgr::Bold => SgrEffect { bold: true, ..e },
        Sgr::Italic => SgrEffect { italic: true, ..e },
        Sgr::Underline => SgrEffect { underline: true, ..e },
        Sgr::ColorFgName(c) => SgrEffect { fg: ColorEffect::Name(c), ..e },
        Sgr::ColorBgName(c) => SgrEffect { bg: ColorEffect::Name(c), ..e },
        Sgr::ColorFgNameBright(c) => SgrEffect { fg: ColorEffect::NameBright(c), ..e },
        Sgr::ColorBgNameBright(c) => SgrEffect { bg: ColorEffect::NameBright(c), ..e },
        Sgr::ColorFg(v) => SgrEffect { fg: ColorEffect::Rgb(v), ..e },
        Sgr::ColorBg(v) => SgrEffect { bg: ColorEffect::Rgb(v), ..e },
        Sgr::ColorFgDefault => SgrEffect { fg: ColorEffect::Unset, ..e },
        Sgr::ColorBgDefault => SgrEffect { bg: ColorEffect::Unset, ..e },
    }
}

/// The state after folding a command list into `e`, in order.
pub open spec fn spec_apply_sgrs(e: SgrEffect, cmds: Seq<Sgr>) -> SgrEffect
    decreases cmds.len(),
{
    if cmds.len() == 0 {
        e
    } else {
        spec_apply_sgrs(spec_apply_sgr(e, cmds[0]), cmds.skip(1))
    }
}

impl SgrEffect {
    /// Make the state with no active attribute.
    pub fn new() -> (r: Self)
        ensures
            r == default_effect(),
    {
        SgrEffect {
            bold: false,
            italic: false,
            underline: false,
            fg: ColorEffect::Unset,
            bg: ColorEffect::Unset,
        }
    }

    /// Fold one command into the state.
    pub fn apply_sgr(&mut self, cmd: Sgr)
        ensures
            *final(self) == spec_apply_sgr(*old(self), cmd),
    {
        match cmd {
            Sgr::Reset => {
                *self = SgrEffect::new();
            },
            Sgr::Bold => {
                self.bold = true;
            },
            Sgr::Italic => {
                self.italic = true;
            },
            Sgr::Underline => {
                self.underline = true;
            },
            Sgr::ColorFgName(c) => {
                self.fg = ColorEffect::Name(c);
            },
            Sgr::ColorBgName(c) => {
                self.bg = ColorEffect::Name(c);
            },
            Sgr::ColorFgNameBright(c) => {
                self.fg = ColorEffect::NameBright(c);
            },
            Sgr::ColorBgNameBright(c) => {
                self.bg = ColorEffect::NameBright(c);
            },
            Sgr::ColorFg(v) => {
                self.fg = ColorEffect::Rgb(v);
            },
            Sgr::ColorBg(v) => {
                self.bg = ColorEffect::Rgb(v);
            },
            Sgr::ColorFgDefault => {
                self.fg = ColorEffect::Unset;
            },
            Sgr::ColorBgDefault => {
                self.bg = ColorEffect::Unset;
            },
        }
    }

    /// Fold an ordered command list into the state, first command first.
    pub fn apply_sgrs(&mut self, cmds: &Vec<Sgr>)
        ensures
            *final(self) == spec_apply_sgrs(*old(self), cmds@),
    {
        let mut i: usize = 0;
        proof {
            assert(cmds@.skip(0) =~= cmds@);
        }
        while i < cmds.len()
            invariant
                i <= cmds.len(),
                spec_apply_sgrs(*self, cmds@.skip(i as int)) == spec_apply_sgrs(
                    *old(self),
                    cmds@,
                ),
            decreases cmds.len() - i,
        {
            proof {
                assert(cmds@.skip(i as int).skip(1) =~= cmds@.skip(i as int + 1));
            }
            let c = cmds[i];
            self.apply_sgr(c);
            i = i + 1;
        }
        proof {
            assert(cmds@.skip(cmds@.len() as int) =~= Seq::<Sgr>::empty());
        }
    }
}

/// Applying `Reset` after any sequence of prior commands returns the state
/// to the default value.
pub proof fn lemma_reset_restores_default(e: SgrEffect, cmds: Seq<Sgr>)
    ensures
        spec_apply_sgrs(e, cmds.push(Sgr::Reset)) == default_effect(),
    decreases cmds.len(),
{
    let appended = cmds.push(Sgr::Reset);
    if cmds.len() == 0 {
        assert(appended[0] == Sgr::Reset);
        assert(appended.skip(1) =~= Seq::<Sgr>::empty());
        assert(spec_apply_sgrs(e, appended) == spec_apply_sgrs(default_effect(), appended.skip(1)));
    } else {
        assert(appended[0] == cmds[0]);
        assert(appended.skip(1) =~= cmds.skip(1).push(Sgr::Reset));
        lemma_reset_restores_default(spec_apply_sgr(e, cmds[0]), cmds.skip(1));
        assert(spec_apply_sgrs(e, appended) == spec_apply_sgrs(
            spec_apply_sgr(e, cmds[0]),
            appended.skip(1),
        ));
    }
}

/// Applying the same non-resetting command twice yields the same state as
/// applying it once.
pub proof fn lemma_apply_idempotent(e: SgrEffect, cmd: Sgr)
    requires
        !(cmd is Reset),
    ensures
        spec_apply_sgr(spec_apply_sgr(e, cmd), cmd) == spec_apply_sgr(e, cmd),
        spec_apply_sgrs(e, seq![cmd, cmd]) == spec_apply_sgrs(e, seq![cmd]),
{
    let twice = seq![cmd, cmd];
    let once = seq![cmd];
    assert(twice[0] == cmd && once[0] == cmd);
    assert(twice.skip(1) =~= once);
    assert(once.skip(1) =~= Seq::<Sgr>::empty());
    assert(spec_apply_sgrs(e, twice) == spec_apply_sgrs(spec_apply_sgr(e, cmd), once));
    assert(spec_apply_sgrs(spec_apply_sgr(e, cmd), once) == spec_apply_sgrs(
        spec_apply_sgr(spec_apply_sgr(e, cmd), cmd),
        Seq::<Sgr>::empty(),
    ));
}

} // verus!
