use vstd::prelude::*;

use crate::style::{plain_style, Color, OSControl, Style};
use vstd::utf8::is_ascii_chars;

verus! {

// ---- the escape codes, as sequences of characters ----

/// The escape character that starts every code.
pub open spec fn esc() -> char {
    '\x1B'
}

/// The code that clears every attribute and colour: `ESC [ 0 m`.
pub open spec fn reset_code() -> Seq<char> {
    seq![esc(), '[', '0', 'm']
}

/// The string terminator that closes an operating-system control
/// sequence: `ESC \`.
pub open spec fn string_terminator() -> Seq<char> {
    seq![esc(), '\\']
}

/// The code that ends a hyperlink: an OSC 8 with an empty URL, then the
/// string terminator.
pub open spec fn hyperlink_reset_code() -> Seq<char> {
    seq![esc(), ']', '8', ';', ';'] + string_terminator()
}

/// The code that opens the given control sequence; its argument follows.
pub open spec fn osc_open(osc: OSControl) -> Seq<char> {
    match osc {
        OSControl::Hyperlink => seq![esc(), ']', '8', ';', ';'],
        OSControl::Title => seq![esc(), ']', '2', ';'],
        OSControl::Icon => seq![esc(), ']', 'I', ';'],
        OSControl::Cwd => seq![esc(), ']', '7', ';'],
    }
}

/// The character of a decimal digit.
pub open spec fn digit_char(d: nat) -> char {
    if d == 0 {
        '0'
    } else if d == 1 {
        '1'
    } else if d == 2 {
        '2'
    } else if d == 3 {
        '3'
    } else if d == 4 {
        '4'
    } else if d == 5 {
        '5'
    } else if d == 6 {
        '6'
    } else if d == 7 {
        '7'
    } else if d == 8 {
        '8'
    } else {
        '9'
    }
}

/// The decimal notation of a number, without leading zeros.
pub open spec fn decimal(n: nat) -> Seq<char>
    decreases n,
{
    if n < 10 {
        seq![digit_char(n)]
    } else {
        decimal(n / 10) + seq![digit_char(n % 10)]
    }
}

/// The digit that names a palette colour: black 0, red 1, green 2,
/// yellow 3, blue 4, purple and magenta 5, cyan 6, white 7.  Only named
/// colours have one.
pub open spec fn palette_digit(c: Color) -> char {
    match c {
        Color::Black | Color::DarkGray => '0',
        Color::Red | Color::LightRed => '1',
        Color::Green | Color::LightGreen => '2',
        Color::Yellow | Color::LightYellow => '3',
        Color::Blue | Color::LightBlue => '4',
        Color::Purple | Color::LightPurple | Color::Magenta | Color::LightMagenta => '5',
        Color::Cyan | Color::LightCyan => '6',
        _ => '7',
    }
}

/// Whether the colour is one of the eight bright palette colours
/// (dark grey counts as bright black, light grey as bright white).
pub open spec fn is_bright(c: Color) -> bool {
    match c {
        Color::DarkGray | Color::LightRed | Color::LightGreen | Color::LightYellow
        | Color::LightBlue | Color::LightPurple | Color::LightMagenta | Color::LightCyan
        | Color::LightGray => true,
        _ => false,
    }
}

/// The parameter that selects an indexed or RGB colour after the `38` or
/// `48` that says foreground or background.
pub open spec fn extended_colour(c: Color) -> Seq<char> {
    match c {
        Color::Fixed(n) => seq![';', '5', ';'] + decimal(n as nat),
        Color::Rgb(r, g, b) => seq![';', '2', ';'] + decimal(r as nat) + seq![';'] + decimal(
            g as nat,
        ) + seq![';'] + decimal(b as nat),
        _ => seq![],
    }
}

/// The graphic parameter that sets the foreground colour: `30`-`37` for
/// the palette, `90`-`97` for its bright half, `38;5;n` for an index,
/// `38;2;r;g;b` for RGB and `39` for the default.
#[verifier::opaque]
pub open spec fn fg_code(c: Color) -> Seq<char> {
    match c {
        Color::Fixed(_) | Color::Rgb(_, _, _) => seq!['3', '8'] + extended_colour(c),
        Color::Default => seq!['3', '9'],
        _ => if is_bright(c) {
            seq!['9', palette_digit(c)]
        } else {
            seq!['3', palette_digit(c)]
        },
    }
}

/// The graphic parameter that sets the background colour: `40`-`47`,
/// `100`-`107`, `48;5;n`, `48;2;r;g;b` and `49`.
#[verifier::opaque]
pub open spec fn bg_code(c: Color) -> Seq<char> {
    match c {
        Color::Fixed(_) | Color::Rgb(_, _, _) => seq!['4', '8'] + extended_colour(c),
        Color::Default => seq!['4', '9'],
        _ => if is_bright(c) {
            seq!['1', '0', palette_digit(c)]
        } else {
            seq!['4', palette_digit(c)]
        },
    }
}

/// A one-element list if `b` holds, else the empty list.
pub open spec fn code_if(b: bool, code: Seq<char>) -> Seq<Seq<char>> {
    if b {
        seq![code]
    } else {
        seq![]
    }
}

/// The graphic parameters of a style, in the order in which they are
/// written: bold 1, dimmed 2, italic 3, underline 4, blink 5, reverse 7,
/// hidden 8, strikethrough 9, then the background, then the foreground.
pub open spec fn sgr_params(s: Style) -> Seq<Seq<char>> {
    attr_params(s) + match s.background {
        Some(c) => seq![bg_code(c)],
        None => seq![],
    } + match s.foreground {
        Some(c) => seq![fg_code(c)],
        None => seq![],
    }
}

/// The parameters of the attributes of a style, in order.
pub open spec fn attr_params(s: Style) -> Seq<Seq<char>> {
    code_if(s.is_bold, seq!['1']) + code_if(s.is_dimmed, seq!['2']) + code_if(
        s.is_italic,
        seq!['3'],
    ) + code_if(s.is_underline, seq!['4']) + code_if(s.is_blink, seq!['5']) + code_if(
        s.is_reverse,
        seq!['7'],
    ) + code_if(s.is_hidden, seq!['8']) + code_if(s.is_strikethrough, seq!['9'])
}

/// The parts of a list, with `sep` between each two.
pub open spec fn join(parts: Seq<Seq<char>>, sep: char) -> Seq<char>
    decreases parts.len(),
{
    if parts.len() == 0 {
        seq![]
    } else if parts.len() == 1 {
        parts[0]
    } else {
        join(parts.drop_last(), sep) + seq![sep] + parts.last()
    }
}

/// The select-graphic-rendition code of a style, `ESC [ params m`, or
/// nothing where the style has no graphic parameter.
pub open spec fn sgr_code(s: Style) -> Seq<char> {
    if sgr_params(s).len() == 0 {
        seq![]
    } else {
        seq![esc(), '['] + join(sgr_params(s), ';') + seq!['m']
    }
}

/// What is written before text painted with a style: nothing for the
/// plain style; else a reset if the style asks for one, its graphic
/// code, and the opening of its control sequence.
pub open spec fn prefix_of(s: Style) -> Seq<char> {
    if s == plain_style() {
        seq![]
    } else {
        (if s.prefix_with_reset {
            reset_code()
        } else {
            seq![]
        }) + sgr_code(s) + match s.oscontrol {
            Some(osc) => osc_open(osc),
            None => seq![],
        }
    }
}

/// What is written after text painted with a style: nothing for the
/// plain style; the end of the link and a reset for a hyperlink; the
/// string terminator for another control sequence; else a reset.
pub open spec fn suffix_of(s: Style) -> Seq<char> {
    if s == plain_style() {
        seq![]
    } else {
        match s.oscontrol {
            Some(OSControl::Hyperlink) => hyperlink_reset_code() + reset_code(),
            Some(_) => string_terminator(),
            None => reset_code(),
        }
    }
}

// ---- building the codes ----

/// `String::push`: appends one character.
#[verifier::external_body]
pub(crate) fn push_char(out: &mut String, c: char)
    ensures
        final(out)@ == old(out)@.push(c),
{
    out.push(c)
}

/// Appends each of the given characters in turn.
pub(crate) fn push_chars(out: &mut String, cs: &[char])
    ensures
        final(out)@ == old(out)@ + cs@,
{
    let n = cs.len();
    let mut i: usize = 0;
    while i < n
        invariant
            n == cs@.len(),
            i <= n,
            out@ == old(out)@ + cs@.take(i as int),
        decreases n - i,
    {
        push_char(out, cs[i]);
        assert(cs@.take(i as int).push(cs@[i as int]) =~= cs@.take(i + 1));
        i = i + 1;
    }
    assert(cs@.take(n as int) =~= cs@);
}

/// The code that ends a control sequence, as a string.
pub(crate) fn string_terminator_str() -> (r: String)
    ensures
        r@ == string_terminator(),
{
    let mut r = String::new();
    push_chars(&mut r, &['\x1B', '\\']);
    assert(r@ =~= string_terminator());
    r
}

/// The reset code, as a string.
pub(crate) fn reset_str() -> (r: String)
    ensures
        r@ == reset_code(),
{
    let mut r = String::new();
    push_chars(&mut r, &['\x1B', '[', '0', 'm']);
    assert(r@ =~= reset_code());
    r
}

/// The end of a hyperlink, as a string.
pub(crate) fn hyperlink_reset_str() -> (r: String)
    ensures
        r@ == hyperlink_reset_code(),
{
    let mut r = String::new();
    push_chars(&mut r, &['\x1B', ']', '8', ';', ';', '\x1B', '\\']);
    assert(r@ =~= hyperlink_reset_code());
    r
}

fn digit(d: u8) -> (c: char)
    requires
        d < 10,
    ensures
        c == digit_char(d as nat),
{
    match d {
        0 => '0',
        1 => '1',
        2 => '2',
        3 => '3',
        4 => '4',
        5 => '5',
        6 => '6',
        7 => '7',
        8 => '8',
        _ => '9',
    }
}

/// Appends the decimal notation of `n`.
fn push_decimal(out: &mut String, n: u8)
    ensures
        final(out)@ == old(out)@ + decimal(n as nat),
{
    if n >= 100 {
        push_char(out, digit(n / 100));
        push_char(out, digit((n / 10) % 10));
        push_char(out, digit(n % 10));
        assert(decimal((n / 100) as nat) == seq![digit_char((n / 100) as nat)]);
        assert(decimal((n / 10) as nat) == decimal((n / 100) as nat) + seq![
            digit_char(((n / 10) % 10) as nat),
        ]);
        assert(decimal(n as nat) == decimal((n / 10) as nat) + seq![digit_char((n % 10) as nat)]);
    } else if n >= 10 {
        push_char(out, digit(n / 10));
        push_char(out, digit(n % 10));
        assert(decimal((n / 10) as nat) == seq![digit_char((n / 10) as nat)]);
        assert(decimal(n as nat) == decimal((n / 10) as nat) + seq![digit_char((n % 10) as nat)]);
    } else {
        push_char(out, digit(n));
    }
}

fn palette_digit_exec(c: Color) -> (d: char)
    ensures
        d == palette_digit(c),
{
    match c {
        Color::Black | Color::DarkGray => '0',
        Color::Red | Color::LightRed => '1',
        Color::Green | Color::LightGreen => '2',
        Color::Yellow | Color::LightYellow => '3',
        Color::Blue | Color::LightBlue => '4',
        Color::Purple | Color::LightPurple | Color::Magenta | Color::LightMagenta => '5',
        Color::Cyan | Color::LightCyan => '6',
        _ => '7',
    }
}

fn is_bright_exec(c: Color) -> (b: bool)
    ensures
        b == is_bright(c),
{
    match c {
        Color::DarkGray | Color::LightRed | Color::LightGreen | Color::LightYellow
        | Color::LightBlue | Color::LightPurple | Color::LightMagenta | Color::LightCyan
        | Color::LightGray => true,
        _ => false,
    }
}

fn push_extended_colour(out: &mut String, c: Color)
    ensures
        final(out)@ == old(out)@ + extended_colour(c),
{
    match c {
        Color::Fixed(n) => {
            push_chars(out, &[';', '5', ';']);
            push_decimal(out, n);
        },
        Color::Rgb(r, g, b) => {
            push_chars(out, &[';', '2', ';']);
            push_decimal(out, r);
            push_char(out, ';');
            push_decimal(out, g);
            push_char(out, ';');
            push_decimal(out, b);
        },
        _ => {},
    }
}

impl Color {
    /// The graphic parameter that sets this colour as foreground.
    pub fn foreground_code(&self) -> (r: String)
        ensures
            r@ == fg_code(*self),
    {
        let mut out = String::new();
        match *self {
            Color::Fixed(_) | Color::Rgb(_, _, _) => {
                push_chars(&mut out, &['3', '8']);
                push_extended_colour(&mut out, *self);
            },
            Color::Default => push_chars(&mut out, &['3', '9']),
            _ => {
                let d = palette_digit_exec(*self);
                if is_bright_exec(*self) {
                    push_chars(&mut out, &['9', d]);
                } else {
                    push_chars(&mut out, &['3', d]);
                }
            },
        }
        proof {
            reveal(fg_code);
        }
        assert(out@ =~= fg_code(*self));
        out
    }

    /// The graphic parameter that sets this colour as background.
    pub fn background_code(&self) -> (r: String)
        ensures
            r@ == bg_code(*self),
    {
        let mut out = String::new();
        match *self {
            Color::Fixed(_) | Color::Rgb(_, _, _) => {
                push_chars(&mut out, &['4', '8']);
                push_extended_colour(&mut out, *self);
            },
            Color::Default => push_chars(&mut out, &['4', '9']),
            _ => {
                let d = palette_digit_exec(*self);
                if is_bright_exec(*self) {
                    push_chars(&mut out, &['1', '0', d]);
                } else {
                    push_chars(&mut out, &['4', d]);
                }
            },
        }
        proof {
            reveal(bg_code);
        }
        assert(out@ =~= bg_code(*self));
        out
    }
}


/// Appending one more part to a joined list appends the separator and
/// the part, unless the list was empty.
pub proof fn lemma_join_push(parts: Seq<Seq<char>>, part: Seq<char>, sep: char)
    ensures
        join(parts.push(part), sep) == (if parts.len() == 0 {
            part
        } else {
            join(parts, sep) + seq![sep] + part
        }),
{
    assert(parts.push(part).drop_last() =~= parts);
}

fn one_char(c: char) -> (r: String)
    ensures
        r@ == seq![c],
{
    let mut r = String::new();
    push_char(&mut r, c);
    r
}

/// Appends one graphic parameter, if `cond` holds, to those written so
/// far, with a `;` before it unless it is the first.
fn push_param_if(
    out: &mut String,
    wrote: &mut bool,
    cond: bool,
    code: &str,
    Ghost(parts): Ghost<Seq<Seq<char>>>,
)
    requires
        old(out)@ == join(parts, ';'),
        *old(wrote) == (parts.len() > 0),
    ensures
        final(out)@ == join(parts + code_if(cond, code@), ';'),
        *final(wrote) == ((parts + code_if(cond, code@)).len() > 0),
{
    if cond {
        proof {
            lemma_join_push(parts, code@, ';');
            assert(parts + code_if(cond, code@) =~= parts.push(code@));
        }
        if *wrote {
            push_char(out, ';');
        }
        out.append(code);
        *wrote = true;
    } else {
        assert(parts + code_if(cond, code@) =~= parts);
    }
}

fn push_osc_open(out: &mut String, osc: OSControl)
    ensures
        final(out)@ == old(out)@ + osc_open(osc),
{
    match osc {
        OSControl::Hyperlink => push_chars(out, &['\x1B', ']', '8', ';', ';']),
        OSControl::Title => push_chars(out, &['\x1B', ']', '2', ';']),
        OSControl::Icon => push_chars(out, &['\x1B', ']', 'I', ';']),
        OSControl::Cwd => push_chars(out, &['\x1B', ']', '7', ';']),
    }
    assert(final(out)@ =~= old(out)@ + osc_open(osc));
}

/// The code that opens the given control sequence, as a string.
pub(crate) fn osc_open_str(osc: OSControl) -> (r: String)
    ensures
        r@ == osc_open(osc),
{
    let mut r = String::new();
    push_osc_open(&mut r, osc);
    assert(r@ =~= osc_open(osc));
    r
}

impl Style {
    /// The parameters of this style's attributes, joined by `;`, and
    /// whether there is any.
    fn attr_params_str(&self) -> (r: (String, bool))
        ensures
            r.0@ == join(attr_params(*self), ';'),
            r.1 == (attr_params(*self).len() > 0),
    {
        let mut out = String::new();
        let mut wrote = false;
        let ghost p0: Seq<Seq<char>> = seq![];
        assert(out@ =~= join(p0, ';'));
        push_param_if(&mut out, &mut wrote, self.is_bold, one_char('1').as_str(), Ghost(p0));
        let ghost p1 = code_if(self.is_bold, seq!['1']);
        assert(p0 + code_if(self.is_bold, seq!['1']) =~= p1);
        push_param_if(&mut out, &mut wrote, self.is_dimmed, one_char('2').as_str(), Ghost(p1));
        let ghost p2 = p1 + code_if(self.is_dimmed, seq!['2']);
        push_param_if(&mut out, &mut wrote, self.is_italic, one_char('3').as_str(), Ghost(p2));
        let ghost p3 = p2 + code_if(self.is_italic, seq!['3']);
        push_param_if(&mut out, &mut wrote, self.is_underline, one_char('4').as_str(), Ghost(p3));
        let ghost p4 = p3 + code_if(self.is_underline, seq!['4']);
        push_param_if(&mut out, &mut wrote, self.is_blink, one_char('5').as_str(), Ghost(p4));
        let ghost p5 = p4 + code_if(self.is_blink, seq!['5']);
        push_param_if(&mut out, &mut wrote, self.is_reverse, one_char('7').as_str(), Ghost(p5));
        let ghost p6 = p5 + code_if(self.is_reverse, seq!['7']);
        push_param_if(&mut out, &mut wrote, self.is_hidden, one_char('8').as_str(), Ghost(p6));
        let ghost p7 = p6 + code_if(self.is_hidden, seq!['8']);
        push_param_if(
            &mut out,
            &mut wrote,
            self.is_strikethrough,
            one_char('9').as_str(),
            Ghost(p7),
        );
        assert(p7 + code_if(self.is_strikethrough, seq!['9']) == attr_params(*self));
        (out, wrote)
    }

    /// The graphic parameters of this style, joined by `;`.
    fn sgr_params_str(&self) -> (r: String)
        ensures
            r@ == join(sgr_params(*self), ';'),
    {
        let (mut out, mut wrote) = self.attr_params_str();
        let ghost p8 = attr_params(*self);
        let ghost p9 = p8 + match self.background {
            Some(c) => seq![bg_code(c)],
            None => seq![],
        };
        match self.background {
            Some(c) => {
                push_param_if(&mut out, &mut wrote, true, c.background_code().as_str(), Ghost(p8));
                assert(p8 + code_if(true, bg_code(c)) =~= p9);
            },
            None => {
                assert(p8 =~= p9);
            },
        }
        let ghost p10 = p9 + match self.foreground {
            Some(c) => seq![fg_code(c)],
            None => seq![],
        };
        match self.foreground {
            Some(c) => {
                push_param_if(&mut out, &mut wrote, true, c.foreground_code().as_str(), Ghost(p9));
                assert(p9 + code_if(true, fg_code(c)) =~= p10);
            },
            None => {
                assert(p9 =~= p10);
            },
        }
        assert(p10 == sgr_params(*self));
        out
    }

    /// Whether this style has any graphic parameter.
    fn has_sgr(&self) -> (b: bool)
        ensures
            b == (sgr_params(*self).len() > 0),
    {
        proof {
            lemma_no_sgr_params(*self);
        }
        self.is_bold || self.is_dimmed || self.is_italic || self.is_underline || self.is_blink
            || self.is_reverse || self.is_hidden || self.is_strikethrough
            || self.background.is_some() || self.foreground.is_some()
    }

    /// The codes written before text painted with this style.
    pub fn prefix(&self) -> (r: String)
        ensures
            r@ == prefix_of(*self),
    {
        let mut out = String::new();
        if self.is_plain() {
            return out;
        }
        if self.prefix_with_reset {
            out.append(reset_str().as_str());
        }
        let params = self.sgr_params_str();
        if self.has_sgr() {
            push_chars(&mut out, &['\x1B', '[']);
            out.append(params.as_str());
            push_char(&mut out, 'm');
        }
        match self.oscontrol {
            Some(osc) => push_osc_open(&mut out, osc),
            None => {},
        }
        assert(out@ =~= prefix_of(*self));
        out
    }

    /// The codes written after text painted with this style.
    pub fn suffix(&self) -> (r: String)
        ensures
            r@ == suffix_of(*self),
    {
        let mut out = String::new();
        if self.is_plain() {
            return out;
        }
        match self.oscontrol {
            Some(OSControl::Hyperlink) => {
                out.append(hyperlink_reset_str().as_str());
                out.append(reset_str().as_str());
            },
            Some(_) => out.append(string_terminator_str().as_str()),
            None => out.append(reset_str().as_str()),
        }
        assert(out@ =~= suffix_of(*self));
        out
    }
}

// ---- laws ----

/// A style has no graphic parameter exactly when it has no attribute and
/// no colour.
pub proof fn lemma_no_sgr_params(s: Style)
    ensures
        (sgr_params(s).len() == 0) <==> (!s.is_bold && !s.is_dimmed && !s.is_italic
            && !s.is_underline && !s.is_blink && !s.is_reverse && !s.is_hidden
            && !s.is_strikethrough && s.background is None && s.foreground is None),
{
    let p1 = code_if(s.is_bold, seq!['1']);
    let p2 = p1 + code_if(s.is_dimmed, seq!['2']);
    let p3 = p2 + code_if(s.is_italic, seq!['3']);
    let p4 = p3 + code_if(s.is_underline, seq!['4']);
    let p5 = p4 + code_if(s.is_blink, seq!['5']);
    let p6 = p5 + code_if(s.is_reverse, seq!['7']);
    let p7 = p6 + code_if(s.is_hidden, seq!['8']);
    let p8 = p7 + code_if(s.is_strikethrough, seq!['9']);
    let bg: Seq<Seq<char>> = match s.background {
        Some(c) => seq![bg_code(c)],
        None => seq![],
    };
    let fg: Seq<Seq<char>> = match s.foreground {
        Some(c) => seq![fg_code(c)],
        None => seq![],
    };
    assert(sgr_params(s) == p8 + bg + fg);
    assert(p1.len() == flag(s.is_bold));
    assert(p2.len() == p1.len() + flag(s.is_dimmed));
    assert(p3.len() == p2.len() + flag(s.is_italic));
    assert(p4.len() == p3.len() + flag(s.is_underline));
    assert(p5.len() == p4.len() + flag(s.is_blink));
    assert(p6.len() == p5.len() + flag(s.is_reverse));
    assert(p7.len() == p6.len() + flag(s.is_hidden));
    assert(p8.len() == p7.len() + flag(s.is_strikethrough));
    assert(bg.len() == flag(s.background is Some));
    assert(fg.len() == flag(s.foreground is Some));
}

/// One for a set flag, zero for a clear one.
spec fn flag(b: bool) -> nat {
    if b {
        1
    } else {
        0
    }
}

/// Nothing is written before text in a style exactly when the style is
/// plain.
pub proof fn lemma_prefix_empty_iff_plain(s: Style)
    ensures
        (prefix_of(s).len() == 0) <==> (s == plain_style()),
{
    lemma_no_sgr_params(s);
    let r = if s.prefix_with_reset {
        reset_code()
    } else {
        seq![]
    };
    let o = match s.oscontrol {
        Some(osc) => osc_open(osc),
        None => seq![],
    };
    if s != plain_style() {
        assert(prefix_of(s) == r + sgr_code(s) + o);
        if s.prefix_with_reset {
            assert(r.len() == 4);
        } else if sgr_params(s).len() > 0 {
            assert(sgr_code(s).len() >= 2);
        } else if s.oscontrol is Some {
            assert(o.len() >= 4);
        } else {
            assert(s == plain_style());
        }
    }
}

/// Nothing is written after text in a style exactly when the style is
/// plain.
pub proof fn lemma_suffix_empty_iff_plain(s: Style)
    ensures
        (suffix_of(s).len() == 0) <==> (s == plain_style()),
{
}

/// Every character of `a + b` is ASCII when every character of `a` and
/// of `b` is.
proof fn lemma_ascii_concat(a: Seq<char>, b: Seq<char>)
    requires
        is_ascii_chars(a),
        is_ascii_chars(b),
    ensures
        is_ascii_chars(a + b),
{
    assert forall|i| 0 <= i < (a + b).len() implies '\0' <= #[trigger] (a + b)[i] <= '\u{7f}' by {
        if i < a.len() {
            assert((a + b)[i] == a[i]);
        } else {
            assert((a + b)[i] == b[i - a.len()]);
        }
    }
}

proof fn lemma_decimal_ascii(n: nat)
    ensures
        is_ascii_chars(decimal(n)),
    decreases n,
{
    if n >= 10 {
        lemma_decimal_ascii(n / 10);
        lemma_ascii_concat(decimal(n / 10), seq![digit_char(n % 10)]);
    }
}

proof fn lemma_join_ascii(parts: Seq<Seq<char>>, sep: char)
    requires
        forall|i: int| 0 <= i < parts.len() ==> is_ascii_chars(#[trigger] parts[i]),
        '\0' <= sep <= '\u{7f}',
    ensures
        is_ascii_chars(join(parts, sep)),
    decreases parts.len(),
{
    if parts.len() > 1 {
        let init = parts.drop_last();
        assert forall|i: int| 0 <= i < init.len() implies is_ascii_chars(#[trigger] init[i]) by {
            assert(init[i] == parts[i]);
        }
        lemma_join_ascii(init, sep);
        lemma_ascii_concat(join(init, sep), seq![sep]);
        assert(is_ascii_chars(parts[parts.len() - 1]));
        lemma_ascii_concat(join(init, sep) + seq![sep], parts.last());
    } else if parts.len() == 1 {
        assert(is_ascii_chars(parts[0]));
    }
}

proof fn lemma_colour_codes_ascii(c: Color)
    ensures
        is_ascii_chars(fg_code(c)),
        is_ascii_chars(bg_code(c)),
{
    reveal(fg_code);
    reveal(bg_code);
    match c {
        Color::Fixed(n) => {
            lemma_decimal_ascii(n as nat);
            lemma_ascii_concat(seq![';', '5', ';'], decimal(n as nat));
            lemma_ascii_concat(seq!['3', '8'], extended_colour(c));
            lemma_ascii_concat(seq!['4', '8'], extended_colour(c));
        },
        Color::Rgb(r, g, b) => {
            lemma_decimal_ascii(r as nat);
            lemma_decimal_ascii(g as nat);
            lemma_decimal_ascii(b as nat);
            let x1 = seq![';', '2', ';'] + decimal(r as nat);
            lemma_ascii_concat(seq![';', '2', ';'], decimal(r as nat));
            lemma_ascii_concat(x1, seq![';']);
            lemma_ascii_concat(x1 + seq![';'], decimal(g as nat));
            lemma_ascii_concat(x1 + seq![';'] + decimal(g as nat), seq![';']);
            lemma_ascii_concat(x1 + seq![';'] + decimal(g as nat) + seq![';'], decimal(b as nat));
            lemma_ascii_concat(seq!['3', '8'], extended_colour(c));
            lemma_ascii_concat(seq!['4', '8'], extended_colour(c));
        },
        _ => {},
    }
}

/// Every part of the list is plain ASCII.
pub open spec fn all_ascii(parts: Seq<Seq<char>>) -> bool {
    forall|i: int| 0 <= i < parts.len() ==> is_ascii_chars(#[trigger] parts[i])
}

proof fn lemma_all_ascii_concat(a: Seq<Seq<char>>, b: Seq<Seq<char>>)
    requires
        all_ascii(a),
        all_ascii(b),
    ensures
        all_ascii(a + b),
{
    assert forall|i: int| 0 <= i < (a + b).len() implies is_ascii_chars(#[trigger] (a + b)[i]) by {
        if i < a.len() {
            assert((a + b)[i] == a[i]);
        } else {
            assert((a + b)[i] == b[i - a.len()]);
        }
    }
}

proof fn lemma_sgr_params_ascii(s: Style)
    ensures
        all_ascii(sgr_params(s)),
{
    let d = seq!['1', '2', '3', '4', '5', '7', '8', '9'];
    assert forall|k: int, b: bool| 0 <= k < 8 implies #[trigger] all_ascii(code_if(b, seq![d[k]])) by {
        if b {
            assert(code_if(b, seq![d[k]])[0] == seq![d[k]]);
        }
    }
    let p1 = code_if(s.is_bold, seq!['1']);
    assert(all_ascii(code_if(s.is_bold, seq![d[0]])));
    assert(all_ascii(code_if(s.is_dimmed, seq![d[1]])));
    assert(all_ascii(code_if(s.is_italic, seq![d[2]])));
    assert(all_ascii(code_if(s.is_underline, seq![d[3]])));
    assert(all_ascii(code_if(s.is_blink, seq![d[4]])));
    assert(all_ascii(code_if(s.is_reverse, seq![d[5]])));
    assert(all_ascii(code_if(s.is_hidden, seq![d[6]])));
    assert(all_ascii(code_if(s.is_strikethrough, seq![d[7]])));
    let p2 = p1 + code_if(s.is_dimmed, seq!['2']);
    lemma_all_ascii_concat(p1, code_if(s.is_dimmed, seq!['2']));
    let p3 = p2 + code_if(s.is_italic, seq!['3']);
    lemma_all_ascii_concat(p2, code_if(s.is_italic, seq!['3']));
    let p4 = p3 + code_if(s.is_underline, seq!['4']);
    lemma_all_ascii_concat(p3, code_if(s.is_underline, seq!['4']));
    let p5 = p4 + code_if(s.is_blink, seq!['5']);
    lemma_all_ascii_concat(p4, code_if(s.is_blink, seq!['5']));
    let p6 = p5 + code_if(s.is_reverse, seq!['7']);
    lemma_all_ascii_concat(p5, code_if(s.is_reverse, seq!['7']));
    let p7 = p6 + code_if(s.is_hidden, seq!['8']);
    lemma_all_ascii_concat(p6, code_if(s.is_hidden, seq!['8']));
    let p8 = p7 + code_if(s.is_strikethrough, seq!['9']);
    lemma_all_ascii_concat(p7, code_if(s.is_strikethrough, seq!['9']));
    let bg: Seq<Seq<char>> = match s.background {
        Some(c) => seq![bg_code(c)],
        None => seq![],
    };
    let fg: Seq<Seq<char>> = match s.foreground {
        Some(c) => seq![fg_code(c)],
        None => seq![],
    };
    if let Some(c) = s.background {
        lemma_colour_codes_ascii(c);
        assert(bg[0] == bg_code(c));
    }
    if let Some(c) = s.foreground {
        lemma_colour_codes_ascii(c);
        assert(fg[0] == fg_code(c));
    }
    lemma_all_ascii_concat(p8, bg);
    lemma_all_ascii_concat(p8 + bg, fg);
    assert(sgr_params(s) == p8 + bg + fg);
}

/// Every code written before text in a style is plain ASCII.
pub proof fn lemma_prefix_ascii(s: Style)
    ensures
        is_ascii_chars(prefix_of(s)),
{
    let params = sgr_params(s);
    lemma_sgr_params_ascii(s);
    lemma_join_ascii(params, ';');
    let r = if s.prefix_with_reset {
        reset_code()
    } else {
        seq![]
    };
    let o = match s.oscontrol {
        Some(osc) => osc_open(osc),
        None => seq![],
    };
    if params.len() > 0 {
        lemma_ascii_concat(seq![esc(), '['], join(params, ';'));
        lemma_ascii_concat(seq![esc(), '['] + join(params, ';'), seq!['m']);
    }
    lemma_ascii_concat(r, sgr_code(s));
    lemma_ascii_concat(r + sgr_code(s), o);
}

/// Every code written after text in a style is plain ASCII.
pub proof fn lemma_suffix_ascii(s: Style)
    ensures
        is_ascii_chars(suffix_of(s)),
{
    lemma_ascii_concat(hyperlink_reset_code(), reset_code());
}

} // verus!
