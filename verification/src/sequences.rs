use crate::cursor::CharCursor;
use crate::graphic_rendition::{parse_sgrs, spec_parse_sgrs, Sgr};
use vstd::prelude::*;
use vstd::string::*;

verus! {

/// A character skipped between the parts of an escape sequence:
/// U+0020 (space) through U+002F.
pub open spec fn is_intermediate(c: char) -> bool {
    0x20 <= c as u32 && c as u32 <= 0x2f
}

fn intermediate_char(c: char) -> (r: bool)
    ensures
        r == is_intermediate(c),
{
    let v = c as u32;
    0x20 <= v && v <= 0x2f
}

/// A character a control sequence accepts in its parameter run:
/// the digits and `:`, `;`, `<`, `=`, `>`, `?` (U+0030 through U+003F).
pub open spec fn is_param_char(c: char) -> bool {
    0x30 <= c as u32 && c as u32 <= 0x3f
}

fn param_char(c: char) -> (r: bool)
    ensures
        r == is_param_char(c),
{
    let v = c as u32;
    0x30 <= v && v <= 0x3f
}

/// A character that may close a control sequence: U+0040 through U+007E.
pub open spec fn is_final_byte(c: char) -> bool {
    0x40 <= c as u32 && c as u32 <= 0x7e
}

fn final_byte_char(c: char) -> (r: bool)
    ensures
        r == is_final_byte(c),
{
    let v = c as u32;
    0x40 <= v && v <= 0x7e
}

/// The position of the first character at or after `p` that is not an
/// intermediate character, or the end of the text.
pub open spec fn skip_space_end(t: Seq<char>, p: int) -> int
    decreases t.len() - p,
{
    if p < 0 || p >= t.len() {
        p
    } else if is_intermediate(t[p]) {
        skip_space_end(t, p + 1)
    } else {
        p
    }
}

pub proof fn lemma_skip_space_end(t: Seq<char>, p: int)
    requires
        0 <= p <= t.len(),
    ensures
        p <= skip_space_end(t, p) <= t.len(),
        forall|i: int| p <= i < skip_space_end(t, p) ==> is_intermediate(#[trigger] t[i]),
        skip_space_end(t, p) < t.len() ==> !is_intermediate(t[skip_space_end(t, p)]),
    decreases t.len() - p,
{
    if p < t.len() && is_intermediate(t[p]) {
        lemma_skip_space_end(t, p + 1);
    }
}

/// The position of the first character at or after `p` that is not a
/// parameter character, or the end of the text.
pub open spec fn params_end(t: Seq<char>, p: int) -> int
    decreases t.len() - p,
{
    if p < 0 || p >= t.len() {
        p
    } else if is_param_char(t[p]) {
        params_end(t, p + 1)
    } else {
        p
    }
}

pub proof fn lemma_params_end(t: Seq<char>, p: int)
    requires
        0 <= p <= t.len(),
    ensures
        p <= params_end(t, p) <= t.len(),
        forall|i: int| p <= i < params_end(t, p) ==> is_param_char(#[trigger] t[i]),
        params_end(t, p) < t.len() ==> !is_param_char(t[params_end(t, p)]),
    decreases t.len() - p,
{
    if p < t.len() && is_param_char(t[p]) {
        lemma_params_end(t, p + 1);
    }
}

/// The position of the first escape introducer at or after `p`, or the end
/// of the text.
pub open spec fn find_introducer(t: Seq<char>, p: int) -> int
    decreases t.len() - p,
{
    if p < 0 || p >= t.len() {
        p
    } else if t[p] == '\u{001b}' {
        p
    } else {
        find_introducer(t, p + 1)
    }
}

pub proof fn lemma_find_introducer(t: Seq<char>, p: int)
    requires
        0 <= p <= t.len(),
    ensures
        p <= find_introducer(t, p) <= t.len(),
        forall|i: int| p <= i < find_introducer(t, p) ==> #[trigger] t[i] != '\u{001b}',
        find_introducer(t, p) < t.len() ==> t[find_introducer(t, p)] == '\u{001b}',
    decreases t.len() - p,
{
    if p < t.len() && t[p] != '\u{001b}' {
        lemma_find_introducer(t, p + 1);
    }
}

/// The parameter substrings of a scanned run, split at each `;`: every `;`
/// closes the parameter before it (possibly empty) and opens a new one, so
/// the list is never empty.
pub open spec fn split_params(r: Seq<char>) -> Seq<Seq<char>>
    decreases r.len(),
{
    if r.len() == 0 {
        seq![Seq::<char>::empty()]
    } else if r.last() == ';' {
        split_params(r.drop_last()).push(Seq::<char>::empty())
    } else {
        let s = split_params(r.drop_last());
        s.update(s.len() - 1, s.last().push(r.last()))
    }
}

/// The parameter list the scanner keeps: the split parameters, with a
/// trailing empty parameter dropped.
pub open spec fn kept_params(r: Seq<char>) -> Seq<Seq<char>> {
    let all = split_params(r);
    if all.last().len() == 0 {
        all.drop_last()
    } else {
        all
    }
}

/// A decimal digit.
pub open spec fn is_digit(c: char) -> bool {
    0x30 <= c as u32 && c as u32 <= 0x39
}

pub open spec fn all_digits(s: Seq<char>) -> bool {
    forall|i: int| 0 <= i < s.len() ==> is_digit(#[trigger] s[i])
}

/// The number a run of decimal digits denotes.
pub open spec fn digits_val(s: Seq<char>) -> int
    decreases s.len(),
{
    if s.len() == 0 {
        0
    } else {
        digits_val(s.drop_last()) * 10 + (s.last() as u32 - 0x30)
    }
}

proof fn lemma_digits_val_nonneg(s: Seq<char>)
    requires
        all_digits(s),
    ensures
        digits_val(s) >= 0,
    decreases s.len(),
{
    if s.len() > 0 {
        assert(forall|i: int|
            0 <= i < s.drop_last().len() ==> is_digit(#[trigger] s.drop_last()[i]));
        lemma_digits_val_nonneg(s.drop_last());
    }
}

proof fn lemma_digits_val_prefix(s: Seq<char>, k: int)
    requires
        all_digits(s),
        0 <= k <= s.len(),
    ensures
        digits_val(s.take(k)) <= digits_val(s),
    decreases s.len() - k,
{
    if k == s.len() {
        assert(s.take(k) =~= s);
    } else {
        let a = s.take(k);
        let b = s.take(k + 1);
        assert(b.drop_last() =~= a);
        assert(b.last() == s[k]);
        assert(forall|i: int| 0 <= i < a.len() ==> is_digit(#[trigger] a[i]));
        lemma_digits_val_nonneg(a);
        assert(digits_val(b) == digits_val(a) * 10 + (s[k] as u32 - 0x30));
        assert(digits_val(a) <= digits_val(b));
        lemma_digits_val_prefix(s, k + 1);
    }
}

/// The unsigned decimal number a parameter substring denotes, if it is a
/// nonempty run of digits whose value fits in 32 bits.
pub open spec fn dec_value(s: Seq<char>) -> Option<u32> {
    if s.len() > 0 && all_digits(s) && digits_val(s) <= u32::MAX as int {
        Some(digits_val(s) as u32)
    } else {
        None
    }
}

/// Parse a parameter substring as an unsigned decimal number; fails on an
/// empty string, on any character that is not a digit, and on a value too
/// large for 32 bits.
fn parse_u32(s: &str) -> (r: Option<u32>)
    ensures
        r == dec_value(s@),
{
    let n = s.unicode_len();
    if n == 0 {
        return None;
    }
    let mut val: u32 = 0;
    let mut i: usize = 0;
    while i < n
        invariant
            n as nat == s@.len(),
            i <= n,
            all_digits(s@.take(i as int)),
            val as int == digits_val(s@.take(i as int)),
        decreases n - i,
    {
        let c = s.get_char(i);
        let v = c as u32;
        if v < 0x30 || v > 0x39 {
            proof {
                assert(!is_digit(s@[i as int]));
                assert(!all_digits(s@));
            }
            return None;
        }
        let d = v - 0x30;
        let ghost t1 = s@.take(i as int + 1);
        proof {
            assert(t1.drop_last() =~= s@.take(i as int));
            assert(t1.last() == s@[i as int]);
            assert(digits_val(t1) == digits_val(s@.take(i as int)) * 10 + d);
        }
        if val > (u32::MAX - d) / 10 {
            proof {
                let m = (u32::MAX - d) as int;
                assert(m == 10 * (m / 10) + m % 10);
                assert(digits_val(t1) > u32::MAX as int);
                if all_digits(s@) {
                    lemma_digits_val_prefix(s@, i as int + 1);
                }
            }
            return None;
        }
        proof {
            let m = (u32::MAX - d) as int;
            assert(m == 10 * (m / 10) + m % 10);
        }
        val = val * 10 + d;
        i = i + 1;
        proof {
            assert(all_digits(t1));
        }
    }
    proof {
        assert(s@.take(n as int) =~= s@);
    }
    Some(val)
}

/// Skip the run of intermediate characters under the cursor.
pub fn cursor_skip_space(cursor: &mut CharCursor)
    requires
        old(cursor).wf(),
    ensures
        final(cursor).wf(),
        final(cursor).text() == old(cursor).text(),
        final(cursor).cur() == skip_space_end(old(cursor).text(), old(cursor).cur()),
{
    let ghost t = old(cursor).text();
    let ghost p0 = old(cursor).cur();
    loop
        invariant
            cursor.wf(),
            cursor.text() == t,
            p0 <= cursor.cur() <= t.len(),
            skip_space_end(t, cursor.cur()) == skip_space_end(t, p0),
        ensures
            cursor.wf(),
            cursor.text() == t,
            cursor.cur() == skip_space_end(t, p0),
        decreases t.len() - cursor.cur(),
    {
        match cursor.peek() {
            Some(c) => {
                if intermediate_char(c) {
                    proof {
                        lemma_skip_space_step(t, cursor.cur());
                    }
                    cursor.read();
                } else {
                    break ;
                }
            },
            None => {
                break ;
            },
        }
    }
}

proof fn lemma_skip_space_step(t: Seq<char>, p: int)
    requires
        0 <= p < t.len(),
        is_intermediate(t[p]),
    ensures
        skip_space_end(t, p) == skip_space_end(t, p + 1),
{
}

proof fn lemma_params_end_step(t: Seq<char>, p: int)
    requires
        0 <= p < t.len(),
        is_param_char(t[p]),
    ensures
        params_end(t, p) == params_end(t, p + 1),
{
}

proof fn lemma_find_introducer_step(t: Seq<char>, p: int)
    requires
        0 <= p < t.len(),
        t[p] != '\u{001b}',
    ensures
        find_introducer(t, p) == find_introducer(t, p + 1),
{
}

/// An ANSI escape sequence.
#[derive(Clone, Debug, Eq, PartialEq)]
pub enum Escape {
    Csi(Csi),
}

/// A control sequence; only the SGR kind is understood.
#[derive(Clone, Debug, Eq, PartialEq)]
pub enum Csi {
    Sgr(Vec<Sgr>),
}

impl View for Csi {
    type V = Seq<Sgr>;

    open spec fn view(&self) -> Seq<Sgr> {
        match self {
            Csi::Sgr(v) => v@,
        }
    }
}

impl View for Escape {
    type V = Seq<Sgr>;

    open spec fn view(&self) -> Seq<Sgr> {
        match self {
            Escape::Csi(c) => c@,
        }
    }
}

/// The views of a parameter list.
pub open spec fn params_view(ps: Seq<&str>) -> Seq<Seq<char>> {
    ps.map_values(|p: &str| p@)
}

/// Every kept parameter denotes a number.
pub open spec fn all_params_numeric(ps: Seq<Seq<char>>) -> bool {
    forall|i: int| 0 <= i < ps.len() ==> dec_value(#[trigger] ps[i]) is Some
}

/// The numbers the kept parameters denote.
pub open spec fn param_codes(ps: Seq<Seq<char>>) -> Seq<u32> {
    ps.map_values(|p: Seq<char>| dec_value(p)->Some_0)
}

/// The code list handed to the SGR interpreter: the parameter values, or
/// the single implicit code 0 when no parameter was given.
pub open spec fn csi_codes(ps: Seq<Seq<char>>) -> Seq<u32> {
    if ps.len() == 0 {
        seq![0u32]
    } else {
        param_codes(ps)
    }
}

/// What the parameter reader yields from position `p`, paired with the
/// position after the attempt: the final byte and the kept parameter
/// substrings, or nothing when the text ends first or the would-be final
/// byte is out of range.
pub open spec fn spec_read_params(t: Seq<char>, p: int) -> (Option<(char, Seq<Seq<char>>)>, int) {
    let e = params_end(t, p);
    let q = skip_space_end(t, e);
    if q >= t.len() {
        (None, q)
    } else if !is_final_byte(t[q]) {
        (None, q + 1)
    } else {
        (Some((t[q], kept_params(t.subrange(p, e)))), q + 1)
    }
}

/// What a control-sequence parse attempt yields from position `p`, paired
/// with the position after the attempt: the command list of an SGR
/// sequence, or nothing when the sequence start is missing, the sequence
/// is cut short, the final byte is not understood, or a parameter is not
/// numeric.
pub open spec fn spec_parse_csi(t: Seq<char>, p: int) -> (Option<Seq<Sgr>>, int) {
    if p < 0 || p >= t.len() || t[p] != '[' {
        (None, p)
    } else {
        let rp = spec_read_params(t, p + 1);
        match rp.0 {
            None => (None, rp.1),
            Some(fp) => {
                if fp.0 != 'm' {
                    (None, rp.1)
                } else if !all_params_numeric(fp.1) {
                    (None, rp.1)
                } else {
                    (Some(spec_parse_sgrs(csi_codes(fp.1))), rp.1)
                }
            },
        }
    }
}

/// What an escape parse attempt yields from position `p`, paired with the
/// position after the attempt. The attempt consumes nothing when the
/// introducer is absent; after the introducer it skips intermediate
/// characters and then expects a control sequence.
pub open spec fn spec_parse_escape(t: Seq<char>, p: int) -> (Option<Seq<Sgr>>, int) {
    if p < 0 || p >= t.len() || t[p] != '\u{001b}' {
        (None, p)
    } else {
        let q = skip_space_end(t, p + 1);
        if q < t.len() && t[q] == '[' {
            spec_parse_csi(t, q)
        } else {
            (None, q)
        }
    }
}

impl Csi {
    /// True if a control sequence starts under the cursor.
    pub fn peek(cursor: &CharCursor) -> (r: bool)
        requires
            cursor.wf(),
        ensures
            r == (cursor.cur() < cursor.text().len() && cursor.text()[cursor.cur()] == '['),
    {
        cursor.peek_char('[')
    }

    /// Scan the parameter run and the final byte of a control sequence:
    /// each `;` closes a parameter, a trailing empty parameter is dropped,
    /// and one character in the final-byte range must follow.
    pub fn read_params<'a>(cursor: &mut CharCursor<'a>) -> (r: Option<(char, Vec<&'a str>)>)
        requires
            old(cursor).wf(),
        ensures
            final(cursor).wf(),
            final(cursor).text() == old(cursor).text(),
            final(cursor).cur() == spec_read_params(old(cursor).text(), old(cursor).cur()).1,
            ({
                let pr = spec_read_params(old(cursor).text(), old(cursor).cur()).0;
                match r {
                    Some(fp) => pr matches Some(sp) && sp.0 == fp.0 && sp.1 == params_view(
                        fp.1@,
                    ),
                    None => pr is None,
                }
            }),
    {
        let ghost t = old(cursor).text();
        let ghost p0 = old(cursor).cur();
        let mut start = cursor.position();
        let mut end = start;
        let mut params: Vec<&'a str> = Vec::new();
        proof {
            assert(t.subrange(p0, p0) =~= Seq::<char>::empty());
            assert(params_view(params@).push(t.subrange(p0, p0)) =~= seq![
                Seq::<char>::empty(),
            ]);
        }
        loop
            invariant
                cursor.wf(),
                cursor.text() == t,
                0 <= p0 <= start as int <= end as int,
                end as int == cursor.cur(),
                params_end(t, cursor.cur()) == params_end(t, p0),
                split_params(t.subrange(p0, end as int)) == params_view(params@).push(
                    t.subrange(start as int, end as int),
                ),
            ensures
                cursor.wf(),
                cursor.text() == t,
                p0 <= start as int <= end as int,
                end as int == cursor.cur(),
                cursor.cur() == params_end(t, p0),
                split_params(t.subrange(p0, end as int)) == params_view(params@).push(
                    t.subrange(start as int, end as int),
                ),
            decreases t.len() - cursor.cur(),
        {
            match cursor.peek() {
                None => {
                    proof {
                        assert(params_end(t, cursor.cur()) == cursor.cur());
                    }
                    break ;
                },
                Some(c) => {
                    if c == ';' {
                        proof {
                            assert(is_param_char(c));
                            lemma_params_end_step(t, cursor.cur());
                            let region = t.subrange(p0, end as int);
                            let wider = t.subrange(p0, end as int + 1);
                            assert(c == t[end as int]);
                            lemma_subrange_push(t, p0, end as int, c);
                            assert(wider == region.push(c));
                            assert(wider.drop_last() =~= region);
                            assert(split_params(wider) == split_params(region).push(
                                Seq::<char>::empty(),
                            ));
                        }
                        cursor.read();
                        match cursor.get(start, end) {
                            Some(piece) => {
                                let ghost old_params = params@;
                                params.push(piece);
                                proof {
                                    assert(params_view(params@) =~= params_view(
                                        old_params,
                                    ).push(piece@));
                                    assert(t.subrange(end as int + 1, end as int + 1)
                                        =~= Seq::<char>::empty());
                                    assert(split_params(t.subrange(p0, end as int + 1))
                                        =~= params_view(params@).push(
                                        t.subrange(end as int + 1, end as int + 1),
                                    ));
                                }
                            },
                            None => {
                                proof {
                                    assert(false);
                                }
                            },
                        }
                        start = end + 1;
                        end = start;
                    } else if param_char(c) {
                        proof {
                            lemma_params_end_step(t, cursor.cur());
                            let region = t.subrange(p0, end as int);
                            let wider = t.subrange(p0, end as int + 1);
                            let piece = t.subrange(start as int, end as int);
                            assert(c == t[end as int]);
                            lemma_subrange_push(t, p0, end as int, c);
                            assert(wider == region.push(c));
                            assert(wider.drop_last() =~= region);
                            assert(split_params(region).last() == piece);
                            assert(split_params(wider) == split_params(region).update(
                                split_params(region).len() - 1,
                                piece.push(c),
                            ));
                            assert(piece.push(c) =~= t.subrange(start as int, end as int + 1));
                            assert(split_params(wider) =~= params_view(params@).push(
                                t.subrange(start as int, end as int + 1),
                            ));
                        }
                        cursor.read();
                        end = end + 1;
                    } else {
                        proof {
                            assert(params_end(t, cursor.cur()) == cursor.cur());
                        }
                        break ;
                    }
                },
            }
        }
        let ghost e = params_end(t, p0);
        if start != end {
            match cursor.get(start, end) {
                Some(piece) => {
                    let ghost old_params = params@;
                    params.push(piece);
                    proof {
                        assert(split_params(t.subrange(p0, e)).last() == piece@);
                        assert(piece@.len() > 0);
                        assert(params_view(params@) =~= params_view(old_params).push(piece@));
                        assert(kept_params(t.subrange(p0, e)) == params_view(params@));
                    }
                },
                None => {
                    proof {
                        assert(false);
                    }
                },
            }
        } else {
            proof {
                let split = split_params(t.subrange(p0, e));
                assert(split.last() == t.subrange(start as int, end as int));
                assert(split.last().len() == 0);
                assert(split.drop_last() =~= params_view(params@));
                assert(kept_params(t.subrange(p0, e)) == params_view(params@));
            }
        }
        cursor_skip_space(cursor);
        match cursor.read() {
            None => None,
            Some(c2) => {
                if final_byte_char(c2) {
                    Some((c2, params))
                } else {
                    None
                }
            },
        }
    }

    /// Parse a control sequence under the cursor. Only the final byte `m`
    /// (SGR) yields a value; every parameter must then denote a number, an
    /// empty parameter list stands for the single code 0, and the codes
    /// are decoded into rendition commands. On failure the characters the
    /// attempt consumed stay consumed.
    pub fn parse<'a>(cursor: &mut CharCursor<'a>) -> (r: Option<Csi>)
        requires
            old(cursor).wf(),
        ensures
            final(cursor).wf(),
            final(cursor).text() == old(cursor).text(),
            final(cursor).cur() == spec_parse_csi(old(cursor).text(), old(cursor).cur()).1,
            ({
                let pr = spec_parse_csi(old(cursor).text(), old(cursor).cur()).0;
                match r {
                    Some(c) => pr == Some(c@),
                    None => pr is None,
                }
            }),
    {
        let ghost t = old(cursor).text();
        let ghost p0 = old(cursor).cur();
        match cursor.read_char('[') {
            None => {
                return None;
            },
            Some(_) => {},
        }
        let rp = Self::read_params(cursor);
        match rp {
            None => None,
            Some((method, params)) => {
                if method == 'm' {
                    let ghost views = params_view(params@);
                    let mut codes: Vec<u32> = Vec::new();
                    let mut i: usize = 0;
                    proof {
                        assert(views.take(0) =~= Seq::<Seq<char>>::empty());
                        assert(codes@ =~= param_codes(views.take(0)));
                    }
                    while i < params.len()
                        invariant
                            cursor.wf(),
                            cursor.text() == t,
                            t == old(cursor).text(),
                            p0 == old(cursor).cur(),
                            0 <= p0 < t.len(),
                            t[p0] == '[',
                            cursor.cur() == spec_read_params(t, p0 + 1).1,
                            spec_read_params(t, p0 + 1).0 matches Some(sp) && sp.0 == 'm'
                                && sp.1 == views,
                            i <= params.len(),
                            views == params_view(params@),
                            forall|j: int| 0 <= j < i ==> dec_value(#[trigger] views[j]) is Some,
                            codes@ == param_codes(views.take(i as int)),
                        decreases params.len() - i,
                    {
                        match parse_u32(params[i]) {
                            Some(v) => {
                                codes.push(v);
                                proof {
                                    assert(views[i as int] == params@[i as int]@);
                                    assert(views.take(i as int + 1).drop_last() =~= views.take(
                                        i as int,
                                    ));
                                    assert(codes@ =~= param_codes(views.take(i as int + 1)));
                                }
                            },
                            None => {
                                proof {
                                    assert(views[i as int] == params@[i as int]@);
                                    assert(!all_params_numeric(views));
                                }
                                return None;
                            },
                        }
                        i = i + 1;
                    }
                    proof {
                        assert(views.take(params@.len() as int) =~= views);
                    }
                    if codes.len() == 0 {
                        let mut implicit: Vec<u32> = Vec::new();
                        implicit.push(0);
                        proof {
                            assert(implicit@ =~= seq![0u32]);
                        }
                        let sgrs = parse_sgrs(&implicit);
                        Some(Csi::Sgr(sgrs))
                    } else {
                        let sgrs = parse_sgrs(&codes);
                        Some(Csi::Sgr(sgrs))
                    }
                } else {
                    None
                }
            },
        }
    }
}

impl Escape {
    /// Parse one escape sequence under the cursor: the introducer, any
    /// intermediate characters, then a control sequence. Nothing is
    /// consumed when the introducer is absent; on a later failure the
    /// characters the attempt consumed stay consumed.
    pub fn parse<'a>(cursor: &mut CharCursor<'a>) -> (r: Option<Escape>)
        requires
            old(cursor).wf(),
        ensures
            final(cursor).wf(),
            final(cursor).text() == old(cursor).text(),
            final(cursor).cur() == spec_parse_escape(old(cursor).text(), old(cursor).cur()).1,
            ({
                let pr = spec_parse_escape(old(cursor).text(), old(cursor).cur()).0;
                match r {
                    Some(e) => pr == Some(e@),
                    None => pr is None,
                }
            }),
    {
        match cursor.read_char('\u{001b}') {
            None => {
                return None;
            },
            Some(_) => {},
        }
        cursor_skip_space(cursor);
        if Csi::peek(cursor) {
            match Csi::parse(cursor) {
                Some(c) => Some(Escape::Csi(c)),
                None => None,
            }
        } else {
            None
        }
    }
}

proof fn lemma_subrange_push(t: Seq<char>, a: int, b: int, c: char)
    requires
        0 <= a <= b < t.len(),
        t[b] == c,
    ensures
        t.subrange(a, b + 1) == t.subrange(a, b).push(c),
{
    assert(t.subrange(a, b + 1) =~= t.subrange(a, b).push(c));
}

/// A part of a scanned string, as mathematical values: a literal text
/// span, or the command list of a parsed escape sequence.
pub enum MarkerModel {
    Text(Seq<char>),
    Sequence(Seq<Sgr>),
}

/// Parts of a string containing ANSI escape sequences.
#[derive(Clone, Debug, Eq, PartialEq)]
pub enum Marker<'a> {
    /// Raw text without any escape sequences.
    Text(&'a str),
    /// Parsed escape sequence.
    Sequence(Escape),
}

impl<'a> View for Marker<'a> {
    type V = MarkerModel;

    open spec fn view(&self) -> MarkerModel {
        match self {
            Marker::Text(s) => MarkerModel::Text(s@),
            Marker::Sequence(e) => MarkerModel::Sequence(e@),
        }
    }
}

/// The views of a marker list.
pub open spec fn markers_view<'a>(ms: Seq<Marker<'a>>) -> Seq<MarkerModel> {
    ms.map_values(|m: Marker<'a>| m@)
}

proof fn lemma_markers_view_push<'a>(ms: Seq<Marker<'a>>, m: Marker<'a>)
    ensures
        markers_view(ms.push(m)) == markers_view(ms).push(m@),
{
    assert(markers_view(ms.push(m)) =~= markers_view(ms).push(m@));
}

/// A parse attempt on a text that starts with the introducer consumes at
/// least that character, and never more than the text holds.
pub proof fn lemma_parse_escape_advances(t: Seq<char>)
    requires
        t.len() > 0,
        t[0] == '\u{001b}',
    ensures
        1 <= spec_parse_escape(t, 0).1 <= t.len(),
{
    lemma_skip_space_end(t, 1);
    let q = skip_space_end(t, 1);
    if q < t.len() && t[q] == '[' {
        lemma_params_end(t, q + 1);
        let e = params_end(t, q + 1);
        lemma_skip_space_end(t, e);
    }
}

/// The marker list a scan of `t` yields: a text marker for the (nonempty)
/// literal run before each introducer, a sequence marker for each escape
/// sequence that parses, and nothing for one that does not — the
/// characters a failed attempt consumed are dropped.
pub open spec fn spec_markers(t: Seq<char>) -> Seq<MarkerModel>
    decreases t.len(),
{
    if t.len() == 0 {
        Seq::empty()
    } else {
        let i0 = find_introducer(t, 0);
        let i = if i0 < 0 {
            0
        } else if i0 > t.len() {
            t.len() as int
        } else {
            i0
        };
        if i == t.len() {
            seq![MarkerModel::Text(t)]
        } else {
            let post = t.skip(i);
            let pr = spec_parse_escape(post, 0);
            let n = if pr.1 < 1 {
                1
            } else if pr.1 > post.len() {
                post.len() as int
            } else {
                pr.1
            };
            let pre_part = if i > 0 {
                seq![MarkerModel::Text(t.take(i))]
            } else {
                Seq::<MarkerModel>::empty()
            };
            let seq_part = match pr.0 {
                Some(g) => seq![MarkerModel::Sequence(g)],
                None => Seq::<MarkerModel>::empty(),
            };
            pre_part + seq_part + spec_markers(post.skip(n))
        }
    }
}

fn find_esc(s: &str) -> (i: usize)
    ensures
        i as int == find_introducer(s@, 0),
        i as nat <= s@.len(),
{
    let n = s.unicode_len();
    let mut i: usize = 0;
    while i < n
        invariant
            n as nat == s@.len(),
            i <= n,
            find_introducer(s@, 0) == find_introducer(s@, i as int),
        decreases n - i,
    {
        let c = s.get_char(i);
        if c == '\u{001b}' {
            proof {
                assert(find_introducer(s@, i as int) == i as int);
            }
            return i;
        }
        proof {
            lemma_find_introducer_step(s@, i as int);
        }
        i = i + 1;
    }
    proof {
        assert(find_introducer(s@, i as int) == i as int);
    }
    i
}

/// Read the next sequence in the given slice. Returns the text before the
/// first escape introducer, the parsed escape sequence, and the text after
/// the parse attempt. The escape sequence can be `None` if it is invalid;
/// the characters the failed attempt consumed are dropped. If the slice
/// holds no introducer the entire slice is returned as the first item.
pub fn read_next_sequence<'a>(s: &'a str) -> (r: (&'a str, Option<Escape>, &'a str))
    ensures
        ({
            let t = s@;
            let i = find_introducer(t, 0);
            if i >= t.len() {
                r.0@ == t && r.1 is None && r.2@ == Seq::<char>::empty()
            } else {
                let pr = spec_parse_escape(t.skip(i), 0);
                &&& r.0@ == t.take(i)
                &&& match r.1 {
                    Some(e) => pr.0 == Some(e@),
                    None => pr.0 is None,
                }
                &&& r.2@ == t.skip(i).skip(pr.1)
            }
        }),
{
    let n = s.unicode_len();
    let i = find_esc(s);
    if i == n {
        proof {
            reveal_strlit("");
            assert(""@ =~= Seq::<char>::empty());
        }
        return (s, None, "");
    }
    let pre = s.substring_char(0, i);
    let post = s.substring_char(i, n);
    let mut cursor = CharCursor::new(post);
    let esc = Escape::parse(&mut cursor);
    let rem = cursor.remainder();
    proof {
        assert(pre@ =~= s@.take(i as int));
        assert(post@ =~= s@.skip(i as int));
    }
    (pre, esc, rem)
}

/// Get all markers for the given string: a text marker for each nonempty
/// literal run, and a sequence marker for each escape sequence that
/// parses.
pub fn get_markers<'a>(s: &'a str) -> (r: Vec<Marker<'a>>)
    ensures
        markers_view(r@) == spec_markers(s@),
{
    let mut markers: Vec<Marker<'a>> = Vec::new();
    let mut rest: &'a str = s;
    proof {
        assert(markers_view(markers@) =~= Seq::<MarkerModel>::empty());
        assert(markers_view(markers@) + spec_markers(s@) =~= spec_markers(s@));
    }
    while !rest.is_empty()
        invariant
            markers_view(markers@) + spec_markers(rest@) == spec_markers(s@),
        decreases rest@.len(),
    {
        let ghost t = rest@;
        let ghost m0 = markers_view(markers@);
        let (pre, esc, post) = read_next_sequence(rest);
        let ghost i = find_introducer(t, 0);
        proof {
            lemma_find_introducer(t, 0);
            if i < t.len() {
                assert(t.skip(i)[0] == '\u{001b}');
                lemma_parse_escape_advances(t.skip(i));
            }
        }
        let ghost pre_part: Seq<MarkerModel> = if pre@.len() > 0 {
            seq![MarkerModel::Text(pre@)]
        } else {
            Seq::empty()
        };
        let ghost seq_part: Seq<MarkerModel> = if esc is Some {
            seq![MarkerModel::Sequence(esc->Some_0@)]
        } else {
            Seq::empty()
        };
        proof {
            if i >= t.len() {
                assert(spec_markers(t) == seq![MarkerModel::Text(t)]);
                assert(spec_markers(post@) == Seq::<MarkerModel>::empty());
                assert(pre_part + seq_part + spec_markers(post@) =~= spec_markers(t));
            } else {
                let pr = spec_parse_escape(t.skip(i), 0);
                assert(pre@.len() > 0 <==> i > 0);
                assert(spec_markers(t) == pre_part + seq_part + spec_markers(
                    t.skip(i).skip(pr.1),
                ));
            }
        }
        if !pre.is_empty() {
            proof {
                lemma_markers_view_push(markers@, Marker::Text(pre));
            }
            markers.push(Marker::Text(pre));
        }
        match esc {
            Some(sq) => {
                proof {
                    lemma_markers_view_push(markers@, Marker::Sequence(sq));
                }
                markers.push(Marker::Sequence(sq));
            },
            None => {},
        }
        proof {
            assert(markers_view(markers@) =~= m0 + pre_part + seq_part);
            assert((m0 + pre_part + seq_part) + spec_markers(post@) =~= m0 + (pre_part
                + seq_part + spec_markers(post@)));
            assert(markers_view(markers@) + spec_markers(post@) == spec_markers(s@));
        }
        rest = post;
    }
    proof {
        assert(spec_markers(rest@) == Seq::<MarkerModel>::empty());
        assert(markers_view(markers@) + Seq::<MarkerModel>::empty() =~= markers_view(markers@));
    }
    markers
}

/// A string without the escape introducer scans to a single text marker
/// holding the whole string, or to no marker at all when it is empty.
pub proof fn lemma_markers_plain_text(t: Seq<char>)
    requires
        forall|i: int| 0 <= i < t.len() ==> #[trigger] t[i] != '\u{001b}',
    ensures
        spec_markers(t) == if t.len() == 0 {
            Seq::<MarkerModel>::empty()
        } else {
            seq![MarkerModel::Text(t)]
        },
{
    if t.len() > 0 {
        lemma_find_introducer(t, 0);
        if find_introducer(t, 0) < t.len() {
            assert(false);
        }
    }
}

/// One covered span of a scanned string: a literal text run, or the exact
/// characters an escape-sequence parse attempt consumed, with the command
/// list when the attempt succeeded.
pub enum SpanModel {
    Text(Seq<char>),
    Attempt(Seq<char>, Option<Seq<Sgr>>),
}

/// The characters of a span.
pub open spec fn span_chars(sp: SpanModel) -> Seq<char> {
    match sp {
        SpanModel::Text(s) => s,
        SpanModel::Attempt(s, _) => s,
    }
}

/// The concatenated characters of a span list.
pub open spec fn spans_chars(sps: Seq<SpanModel>) -> Seq<char>
    decreases sps.len(),
{
    if sps.len() == 0 {
        Seq::empty()
    } else {
        span_chars(sps[0]) + spans_chars(sps.skip(1))
    }
}

/// The markers a span list yields: its text spans, and a sequence marker
/// for each attempt that parsed.
pub open spec fn spans_markers(sps: Seq<SpanModel>) -> Seq<MarkerModel>
    decreases sps.len(),
{
    if sps.len() == 0 {
        Seq::empty()
    } else {
        (match sps[0] {
            SpanModel::Text(s) => seq![MarkerModel::Text(s)],
            SpanModel::Attempt(_, Some(g)) => seq![MarkerModel::Sequence(g)],
            SpanModel::Attempt(_, None) => Seq::<MarkerModel>::empty(),
        }) + spans_markers(sps.skip(1))
    }
}

/// The spans a scan of `t` covers, in order: the literal run before each
/// introducer, then the characters of each parse attempt.
pub open spec fn spec_spans(t: Seq<char>) -> Seq<SpanModel>
    decreases t.len(),
{
    if t.len() == 0 {
        Seq::empty()
    } else {
        let i0 = find_introducer(t, 0);
        let i = if i0 < 0 {
            0
        } else if i0 > t.len() {
            t.len() as int
        } else {
            i0
        };
        if i == t.len() {
            seq![SpanModel::Text(t)]
        } else {
            let post = t.skip(i);
            let pr = spec_parse_escape(post, 0);
            let n = if pr.1 < 1 {
                1
            } else if pr.1 > post.len() {
                post.len() as int
            } else {
                pr.1
            };
            let pre_part = if i > 0 {
                seq![SpanModel::Text(t.take(i))]
            } else {
                Seq::<SpanModel>::empty()
            };
            pre_part + seq![SpanModel::Attempt(post.take(n), pr.0)] + spec_spans(post.skip(n))
        }
    }
}

proof fn lemma_spans_chars_concat(a: Seq<SpanModel>, b: Seq<SpanModel>)
    ensures
        spans_chars(a + b) == spans_chars(a) + spans_chars(b),
    decreases a.len(),
{
    if a.len() == 0 {
        assert(a + b =~= b);
        assert(spans_chars(a) + spans_chars(b) =~= spans_chars(b));
    } else {
        assert((a + b).skip(1) =~= a.skip(1) + b);
        assert((a + b)[0] == a[0]);
        lemma_spans_chars_concat(a.skip(1), b);
        assert(span_chars(a[0]) + (spans_chars(a.skip(1)) + spans_chars(b)) =~= (span_chars(
            a[0],
        ) + spans_chars(a.skip(1))) + spans_chars(b));
    }
}

proof fn lemma_spans_markers_concat(a: Seq<SpanModel>, b: Seq<SpanModel>)
    ensures
        spans_markers(a + b) == spans_markers(a) + spans_markers(b),
    decreases a.len(),
{
    if a.len() == 0 {
        assert(a + b =~= b);
        assert(spans_markers(a) + spans_markers(b) =~= spans_markers(b));
    } else {
        assert((a + b).skip(1) =~= a.skip(1) + b);
        assert((a + b)[0] == a[0]);
        lemma_spans_markers_concat(a.skip(1), b);
        let h = match a[0] {
            SpanModel::Text(s) => seq![MarkerModel::Text(s)],
            SpanModel::Attempt(_, Some(g)) => seq![MarkerModel::Sequence(g)],
            SpanModel::Attempt(_, None) => Seq::<MarkerModel>::empty(),
        };
        assert(h + (spans_markers(a.skip(1)) + spans_markers(b)) =~= (h + spans_markers(
            a.skip(1),
        )) + spans_markers(b));
    }
}

proof fn lemma_spans_chars_singleton(sp: SpanModel)
    ensures
        spans_chars(seq![sp]) == span_chars(sp),
{
    let s = seq![sp];
    assert(s.skip(1) =~= Seq::<SpanModel>::empty());
    assert(spans_chars(s.skip(1)) == Seq::<char>::empty());
    assert(s[0] == sp);
    assert(span_chars(sp) + Seq::<char>::empty() =~= span_chars(sp));
}

proof fn lemma_spans_markers_singleton(sp: SpanModel)
    ensures
        spans_markers(seq![sp]) == (match sp {
            SpanModel::Text(s) => seq![MarkerModel::Text(s)],
            SpanModel::Attempt(_, Some(g)) => seq![MarkerModel::Sequence(g)],
            SpanModel::Attempt(_, None) => Seq::<MarkerModel>::empty(),
        }),
{
    let s = seq![sp];
    assert(s.skip(1) =~= Seq::<SpanModel>::empty());
    assert(spans_markers(s.skip(1)) == Seq::<MarkerModel>::empty());
    assert(s[0] == sp);
    let h = match sp {
        SpanModel::Text(s2) => seq![MarkerModel::Text(s2)],
        SpanModel::Attempt(_, Some(g)) => seq![MarkerModel::Sequence(g)],
        SpanModel::Attempt(_, None) => Seq::<MarkerModel>::empty(),
    };
    assert(h + Seq::<MarkerModel>::empty() =~= h);
}

/// Every character of a scanned string is covered: concatenating the
/// spans — the literal text runs and the characters each escape-sequence
/// parse attempt consumed, the dropped attempts included — restores the
/// string exactly.
pub proof fn lemma_spans_cover(t: Seq<char>)
    ensures
        spans_chars(spec_spans(t)) == t,
    decreases t.len(),
{
    if t.len() == 0 {
        assert(spans_chars(spec_spans(t)) =~= t);
    } else {
        let i0 = find_introducer(t, 0);
        let i = if i0 < 0 {
            0
        } else if i0 > t.len() {
            t.len() as int
        } else {
            i0
        };
        if i == t.len() {
            lemma_spans_chars_singleton(SpanModel::Text(t));
        } else {
            let post = t.skip(i);
            let pr = spec_parse_escape(post, 0);
            let n = if pr.1 < 1 {
                1
            } else if pr.1 > post.len() {
                post.len() as int
            } else {
                pr.1
            };
            let pre_part = if i > 0 {
                seq![SpanModel::Text(t.take(i))]
            } else {
                Seq::<SpanModel>::empty()
            };
            let mid = seq![SpanModel::Attempt(post.take(n), pr.0)];
            lemma_spans_cover(post.skip(n));
            lemma_spans_chars_concat(pre_part + mid, spec_spans(post.skip(n)));
            lemma_spans_chars_concat(pre_part, mid);
            lemma_spans_chars_singleton(SpanModel::Attempt(post.take(n), pr.0));
            if i > 0 {
                lemma_spans_chars_singleton(SpanModel::Text(t.take(i)));
            } else {
                assert(spans_chars(pre_part) =~= Seq::<char>::empty());
            }
            assert(spans_chars(spec_spans(t)) =~= t);
        }
    }
}

/// The markers of a scan are exactly those its spans yield: the text
/// spans in order, and a sequence marker for each attempt that parsed.
pub proof fn lemma_spans_markers_agree(t: Seq<char>)
    ensures
        spans_markers(spec_spans(t)) == spec_markers(t),
    decreases t.len(),
{
    if t.len() == 0 {
        assert(spans_markers(spec_spans(t)) =~= spec_markers(t));
    } else {
        let i0 = find_introducer(t, 0);
        let i = if i0 < 0 {
            0
        } else if i0 > t.len() {
            t.len() as int
        } else {
            i0
        };
        if i == t.len() {
            lemma_spans_markers_singleton(SpanModel::Text(t));
        } else {
            let post = t.skip(i);
            let pr = spec_parse_escape(post, 0);
            let n = if pr.1 < 1 {
                1
            } else if pr.1 > post.len() {
                post.len() as int
            } else {
                pr.1
            };
            let pre_part = if i > 0 {
                seq![SpanModel::Text(t.take(i))]
            } else {
                Seq::<SpanModel>::empty()
            };
            let mid = seq![SpanModel::Attempt(post.take(n), pr.0)];
            lemma_spans_markers_agree(post.skip(n));
            lemma_spans_markers_concat(pre_part + mid, spec_spans(post.skip(n)));
            lemma_spans_markers_concat(pre_part, mid);
            let mid_m = match pr.0 {
                Some(g) => seq![MarkerModel::Sequence(g)],
                None => Seq::<MarkerModel>::empty(),
            };
            lemma_spans_markers_singleton(SpanModel::Attempt(post.take(n), pr.0));
            assert(spans_markers(mid) == mid_m);
            let pre_m = if i > 0 {
                seq![MarkerModel::Text(t.take(i))]
            } else {
                Seq::<MarkerModel>::empty()
            };
            if i > 0 {
                lemma_spans_markers_singleton(SpanModel::Text(t.take(i)));
            } else {
                assert(spans_markers(pre_part) =~= pre_m);
            }
            assert(spans_markers(spec_spans(t)) =~= spec_markers(t));
        }
    }
}

} // verus!
