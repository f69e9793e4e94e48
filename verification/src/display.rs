use vstd::prelude::*;

use crate::ansi::{
    osc_open_str,
    hyperlink_reset_code, hyperlink_reset_str, lemma_prefix_ascii, lemma_suffix_ascii, prefix_of,
    reset_code, reset_str, lemma_no_sgr_params, osc_open, sgr_code,
    string_terminator, string_terminator_str, suffix_of,
};
use crate::difference::{added_styles, difference, Difference};
use crate::style::{fg_style, osc_style, plain_style, Color, OSControl, Style};
use crate::write::AnyWrite;
use vstd::utf8::encode_utf8;

verus! {

/// A piece of text, of type `S` (`str` or `[u8]`), with the style to
/// write it in, and the argument of the style's control sequence (the
/// URL of a hyperlink) where there is one.
#[derive(Debug, PartialEq, Eq)]
pub struct AnsiGenericString<'a, S: ?Sized> {
    pub style: Style,
    pub string: &'a S,
    pub params: Option<&'a S>,
}

/// Styled text.
pub type AnsiString<'a> = AnsiGenericString<'a, str>;

/// Styled bytes, for text of unknown encoding.
pub type AnsiByteString<'a> = AnsiGenericString<'a, [u8]>;

/// The text `input` in `style`, with no control-sequence argument.
pub open spec fn painted<'a, S: ?Sized>(style: Style, input: &'a S) -> AnsiGenericString<'a, S> {
    AnsiGenericString { style, string: input, params: None }
}

/// The styled text `s` made a link to `url`: its style opens a hyperlink,
/// and the rest of the style and the text stay.
pub open spec fn linked<'a, S: ?Sized>(s: AnsiGenericString<'a, S>, url: &'a S) -> AnsiGenericString<
    'a,
    S,
> {
    AnsiGenericString {
        style: Style { oscontrol: Some(OSControl::Hyperlink), ..s.style },
        string: s.string,
        params: Some(url),
    }
}

impl<'a, S: ?Sized> Clone for AnsiGenericString<'a, S> {
    /// Cloning copies the style, the text and the argument.
    fn clone(&self) -> (r: AnsiGenericString<'a, S>)
        ensures
            r == *self,
    {
        AnsiGenericString { style: self.style, string: self.string, params: self.params }
    }
}

impl<'a, S: ?Sized> From<&'a S> for AnsiGenericString<'a, S> {
    /// Unstyled text.
    fn from(input: &'a S) -> (r: AnsiGenericString<'a, S>) {
        AnsiGenericString { string: input, style: Style::default(), params: None }
    }
}

impl<'a, S: ?Sized> vstd::std_specs::convert::FromSpecImpl<&'a S> for AnsiGenericString<'a, S> {
    open spec fn obeys_from_spec() -> bool {
        true
    }

    open spec fn from_spec(input: &'a S) -> AnsiGenericString<'a, S> {
        AnsiGenericString { style: plain_style(), string: input, params: None }
    }
}

impl<'a, S: ?Sized> AnsiGenericString<'a, S> {
    /// Text that sets the terminal emulator's title.
    pub fn title(title: &'a S) -> (r: AnsiGenericString<'a, S>)
        ensures
            r == (AnsiGenericString {
                style: osc_style(OSControl::Title),
                string: title,
                params: None,
            }),
    {
        AnsiGenericString { string: title, style: Style::title(), params: None }
    }

    /// A path that the terminal emulator is to show as the application's
    /// icon.
    pub fn icon(path: &'a S) -> (r: AnsiGenericString<'a, S>)
        ensures
            r == (AnsiGenericString {
                style: osc_style(OSControl::Icon),
                string: path,
                params: None,
            }),
    {
        AnsiGenericString { string: path, style: Style::icon(), params: None }
    }

    /// A path that the terminal emulator is to take as the current working
    /// directory.
    pub fn cwd(path: &'a S) -> (r: AnsiGenericString<'a, S>)
        ensures
            r == (AnsiGenericString {
                style: osc_style(OSControl::Cwd),
                string: path,
                params: None,
            }),
    {
        AnsiGenericString { string: path, style: Style::cwd(), params: None }
    }

    /// Makes the text a link to the given URL, keeping its style otherwise.
    pub fn hyperlink(&mut self, url: &'a S)
        ensures
            *final(self) == linked(*old(self), url),
    {
        self.style.hyperlink();
        self.params = Some(url);
    }

    /// The style.
    pub fn style_ref(&self) -> (r: &Style)
        ensures
            *r == self.style,
    {
        &self.style
    }

    /// The style, to change it in place.
    pub fn style_ref_mut(&mut self) -> (r: &mut Style)
        ensures
            *r == old(self).style,
            *final(self) == (AnsiGenericString {
                style: *final(r),
                string: old(self).string,
                params: old(self).params,
            }),
    {
        &mut self.style
    }

    /// The text.
    pub fn as_str(&self) -> (r: &S)
        ensures
            r == self.string,
    {
        self.string
    }
}

impl Style {
    /// Paints the given text with this style.
    pub fn paint<'a, S: ?Sized>(self, input: &'a S) -> (r: AnsiGenericString<'a, S>)
        ensures
            r == painted(self, input),
    {
        AnsiGenericString { string: input, style: self, params: None }
    }
}

impl Color {
    /// Paints the given text in this colour: the same as painting it with
    /// `self.normal()`.
    pub fn paint<'a, S: ?Sized>(self, input: &'a S) -> (r: AnsiGenericString<'a, S>)
        ensures
            r == painted(fg_style(self), input),
    {
        AnsiGenericString { string: input, style: self.normal(), params: None }
    }
}


// ---- what is written ----

/// One write to a writer: an escape code, or a piece of text.
pub enum Piece<'a, S: ?Sized> {
    Code(Seq<char>),
    Text(&'a S),
}

/// What one write puts into a writer of kind `W`.
pub open spec fn piece_units<'a, S: ?Sized, W: AnyWrite<Wstr = S>>(p: Piece<'a, S>) -> Seq<
    W::Unit,
> {
    match p {
        Piece::Code(code) => W::code_units(code),
        Piece::Text(text) => W::wstr_units(text),
    }
}

/// What a series of writes puts into a writer of kind `W`, in order.
pub open spec fn flatten<'a, S: ?Sized, W: AnyWrite<Wstr = S>>(ps: Seq<Piece<'a, S>>) -> Seq<
    W::Unit,
>
    decreases ps.len(),
{
    if ps.len() == 0 {
        Seq::empty()
    } else {
        flatten::<S, W>(ps.drop_last()) + piece_units::<S, W>(ps.last())
    }
}

/// The argument of a control sequence and the string terminator after
/// it, written where the style opens a control sequence and the text
/// carries an argument.
pub open spec fn osc_argument<'a, S: ?Sized>(
    osc: Option<OSControl>,
    params: Option<&'a S>,
) -> Seq<Piece<'a, S>> {
    match (params, osc) {
        (Some(p), Some(_)) => seq![Piece::Text(p), Piece::Code(string_terminator())],
        _ => seq![],
    }
}

/// What is written for the first of several styled texts: the prefix of
/// its style, the control sequence's argument, and the text.
pub open spec fn opening<'a, S: ?Sized>(s: AnsiGenericString<'a, S>) -> Seq<Piece<'a, S>> {
    seq![Piece::Code(prefix_of(s.style))] + osc_argument(s.style.oscontrol, s.params) + seq![
        Piece::Text(s.string),
    ]
}

/// What is written for one styled text alone: as for the first of
/// several, then the suffix of its style.
pub open spec fn single<'a, S: ?Sized>(s: AnsiGenericString<'a, S>) -> Seq<Piece<'a, S>> {
    opening(s) + seq![Piece::Code(suffix_of(s.style))]
}

/// The codes that reset the terminal between text in style `a` and text
/// in style `b`, then apply `b`: a hyperlink that ends is closed first,
/// another control sequence that ends is terminated instead of reset.
pub open spec fn reset_between(a: Style, b: Style) -> Seq<char> {
    match (a.oscontrol, b.oscontrol) {
        (Some(OSControl::Hyperlink), None) => hyperlink_reset_code() + reset_code() + prefix_of(b),
        (Some(_), None) => string_terminator() + prefix_of(b),
        _ => reset_code() + prefix_of(b),
    }
}

/// Whether `a` and `b` are links to the same address, as written by a
/// writer of kind `W`.
pub open spec fn same_link<'a, S: ?Sized, W: AnyWrite<Wstr = S>>(
    a: AnsiGenericString<'a, S>,
    b: AnsiGenericString<'a, S>,
) -> bool {
    &&& a.style.oscontrol == Some(OSControl::Hyperlink)
    &&& a.params is Some
    &&& b.params is Some
    &&& W::wstr_units(a.params.unwrap()) == W::wstr_units(b.params.unwrap())
}

/// Whether the codes written between `a` and `b` open a hyperlink: a
/// reset followed by the prefix of `b`, or added styles that hold the
/// link.
pub open spec fn opens_link(a: Style, b: Style) -> bool {
    match difference(a, b) {
        Difference::Reset => true,
        Difference::ExtraStyles(extra) => extra.oscontrol == Some(OSControl::Hyperlink),
        Difference::Empty => false,
    }
}

/// Whether the address of `b` has to be written before its text: `b` is
/// a link with an address, and either the codes before it open the link,
/// or `a` is not a link to the same address (a link that goes on from
/// `a` to the same address needs nothing more).
pub open spec fn needs_link<'a, S: ?Sized, W: AnyWrite<Wstr = S>>(
    a: AnsiGenericString<'a, S>,
    b: AnsiGenericString<'a, S>,
) -> bool {
    &&& b.style.oscontrol == Some(OSControl::Hyperlink)
    &&& b.params is Some
    &&& (opens_link(a.style, b.style) || !same_link::<S, W>(a, b))
}

/// The address of a link and the string terminator after it.
pub open spec fn link_address<'a, S: ?Sized>(b: AnsiGenericString<'a, S>) -> Seq<Piece<'a, S>> {
    seq![Piece::Text(b.params.unwrap()), Piece::Code(string_terminator())]
}

/// What is written between the text of `a` and that of `b`, and then the
/// text of `b`.  The codes: nothing if the styles are equal; a reset and
/// the prefix of `b` if `b` drops something of `a`; else only the prefix
/// of what `b` adds.  Where `b` is a link with an address, the address
/// and the string terminator follow the codes when these open the link;
/// when they do not, they are followed by the link's opening code, the
/// address and the terminator only where `a` is not a link to the same
/// address, whose link then simply goes on.
pub open spec fn transition<'a, S: ?Sized, W: AnyWrite<Wstr = S>>(
    a: AnsiGenericString<'a, S>,
    b: AnsiGenericString<'a, S>,
) -> Seq<Piece<'a, S>> {
    (match difference(a.style, b.style) {
        Difference::ExtraStyles(extra) => seq![Piece::Code(prefix_of(extra))] + (if needs_link::<
            S,
            W,
        >(a, b) {
            (if extra.oscontrol == Some(OSControl::Hyperlink) {
                seq![]
            } else {
                seq![Piece::Code(osc_open(OSControl::Hyperlink))]
            }) + link_address(b)
        } else {
            seq![]
        }),
        Difference::Reset => seq![Piece::Code(reset_between(a.style, b.style))] + (if needs_link::<
            S,
            W,
        >(a, b) {
            link_address(b)
        } else {
            seq![]
        }),
        Difference::Empty => if needs_link::<S, W>(a, b) {
            seq![Piece::Code(osc_open(OSControl::Hyperlink))] + link_address(b)
        } else {
            seq![]
        },
    }) + seq![Piece::Text(b.string)]
}

/// What is written for the first `n` of several styled texts, before
/// the closing code.
pub open spec fn pieces_upto<'a, S: ?Sized, W: AnyWrite<Wstr = S>>(
    strs: Seq<AnsiGenericString<'a, S>>,
    n: int,
) -> Seq<Piece<'a, S>>
    decreases n,
{
    if n <= 1 {
        opening(strs[0])
    } else {
        pieces_upto::<S, W>(strs, n - 1) + transition::<S, W>(strs[n - 2], strs[n - 1])
    }
}

/// What is written for several styled texts together: nothing for none;
/// else the first, each next one with what changes from the one before,
/// and the suffix of the last style unless it is plain.
pub open spec fn pieces_all<'a, S: ?Sized, W: AnyWrite<Wstr = S>>(
    strs: Seq<AnsiGenericString<'a, S>>,
) -> Seq<Piece<'a, S>> {
    if strs.len() == 0 {
        seq![]
    } else {
        pieces_upto::<S, W>(strs, strs.len() as int) + (if strs.last().style == plain_style() {
            seq![]
        } else {
            seq![Piece::Code(suffix_of(strs.last().style))]
        })
    }
}

/// What writing one styled text to a writer of kind `W` adds to it.
pub open spec fn rendered<'a, S: ?Sized, W: AnyWrite<Wstr = S>>(
    s: AnsiGenericString<'a, S>,
) -> Seq<W::Unit> {
    flatten::<S, W>(single(s))
}

/// What writing several styled texts to a writer of kind `W` adds to it.
pub open spec fn rendered_all<'a, S: ?Sized, W: AnyWrite<Wstr = S>>(
    strs: Seq<AnsiGenericString<'a, S>>,
) -> Seq<W::Unit> {
    flatten::<S, W>(pieces_all::<S, W>(strs))
}

/// The writes of two series, one after the other, put into a writer what
/// the first does and then what the second does.
pub proof fn lemma_flatten_concat<'a, S: ?Sized, W: AnyWrite<Wstr = S>>(
    a: Seq<Piece<'a, S>>,
    b: Seq<Piece<'a, S>>,
)
    ensures
        flatten::<S, W>(a + b) == flatten::<S, W>(a) + flatten::<S, W>(b),
    decreases b.len(),
{
    if b.len() == 0 {
        assert(a + b =~= a);
        assert(flatten::<S, W>(a) + flatten::<S, W>(b) =~= flatten::<S, W>(a));
    } else {
        lemma_flatten_concat::<S, W>(a, b.drop_last());
        assert((a + b).drop_last() =~= a + b.drop_last());
        assert((a + b).last() == b.last());
        assert(flatten::<S, W>(a + b) =~= flatten::<S, W>(a) + flatten::<S, W>(b));
    }
}

/// One write puts into a writer what the write does.
pub proof fn lemma_flatten_one<'a, S: ?Sized, W: AnyWrite<Wstr = S>>(p: Piece<'a, S>)
    ensures
        flatten::<S, W>(seq![p]) == piece_units::<S, W>(p),
{
    let e = Seq::<Piece<'a, S>>::empty();
    assert(seq![p].drop_last() =~= e);
    assert(seq![p].last() == p);
    assert(flatten::<S, W>(e) == Seq::<W::Unit>::empty());
    assert(flatten::<S, W>(seq![p]) == flatten::<S, W>(e) + piece_units::<S, W>(p));
    assert(flatten::<S, W>(seq![p]) =~= piece_units::<S, W>(p));
}

/// A set of styled texts, to be written one after the other with as few
/// control codes as it takes.
#[derive(Debug, Eq, PartialEq)]
pub struct AnsiGenericStrings<'a, S: ?Sized>(pub &'a [AnsiGenericString<'a, S>]);

/// A set of styled strings.
pub type AnsiStrings<'a> = AnsiGenericStrings<'a, str>;

/// A set of styled byte strings.
pub type AnsiByteStrings<'a> = AnsiGenericStrings<'a, [u8]>;

/// Collects styled strings to be written together.
#[allow(non_snake_case)]
pub fn AnsiStrings<'a>(arg: &'a [AnsiString<'a>]) -> (r: AnsiStrings<'a>)
    ensures
        r.0 == arg,
{
    AnsiGenericStrings(arg)
}

/// Collects styled byte strings to be written together.
#[allow(non_snake_case)]
pub fn AnsiByteStrings<'a>(arg: &'a [AnsiByteString<'a>]) -> (r: AnsiByteStrings<'a>)
    ensures
        r.0 == arg,
{
    AnsiGenericStrings(arg)
}

/// Writes an escape code.
fn put_code<'a, S: ?Sized, W: AnyWrite<Wstr = S>>(w: &mut W, code: &str)
    ensures
        final(w).written() == old(w).written() + flatten::<S, W>(seq![Piece::<'a, S>::Code(code@)]),
{
    w.write_code(code);
    proof {
        lemma_flatten_one::<S, W>(Piece::<'a, S>::Code(code@));
    }
}

/// Writes a piece of text.
fn put_text<'a, S: ?Sized, W: AnyWrite<Wstr = S>>(w: &mut W, text: &'a S)
    ensures
        final(w).written() == old(w).written() + flatten::<S, W>(seq![Piece::Text(text)]),
{
    w.write_str(text);
    proof {
        lemma_flatten_one::<S, W>(Piece::Text(text));
    }
}

/// Writes the argument of the style's control sequence, if both are there.
fn write_osc_argument<'a, S: ?Sized, W: AnyWrite<Wstr = S>>(
    w: &mut W,
    osc: Option<OSControl>,
    params: Option<&'a S>,
)
    ensures
        final(w).written() == old(w).written() + flatten::<S, W>(osc_argument(osc, params)),
{
    let ghost start = w.written();
    match (params, osc) {
        (Some(p), Some(_)) => {
            put_text(w, p);
            put_code::<S, W>(w, string_terminator_str().as_str());
            proof {
                let t = seq![Piece::<'a, S>::Text(p)];
                let c = seq![Piece::<'a, S>::Code(string_terminator())];
                lemma_flatten_concat::<S, W>(t, c);
                assert(t + c =~= osc_argument(osc, params));
                assert(w.written() =~= start + flatten::<S, W>(osc_argument(osc, params)));
            }
        },
        _ => {
            assert(w.written() =~= start + flatten::<S, W>(osc_argument(osc, params)));
        },
    }
}

impl<'a, S: ?Sized> AnsiGenericString<'a, S> {
    /// Writes the text with the codes of its style around it.
    pub fn write_to_any<W: AnyWrite<Wstr = S>>(&self, w: &mut W)
        ensures
            final(w).written() == old(w).written() + rendered::<S, W>(*self),
    {
        let ghost start = w.written();
        put_code::<S, W>(w, self.style.prefix().as_str());
        write_osc_argument(w, self.style.oscontrol, self.params);
        put_text(w, self.string);
        put_code::<S, W>(w, self.style.suffix().as_str());
        proof {
            let p1 = seq![Piece::<'a, S>::Code(prefix_of(self.style))];
            let p2 = osc_argument(self.style.oscontrol, self.params);
            let p3 = seq![Piece::Text(self.string)];
            let p4 = seq![Piece::<'a, S>::Code(suffix_of(self.style))];
            lemma_flatten_concat::<S, W>(p1, p2);
            lemma_flatten_concat::<S, W>(p1 + p2, p3);
            lemma_flatten_concat::<S, W>(p1 + p2 + p3, p4);
            assert(single(*self) == p1 + p2 + p3 + p4);
            assert(w.written() =~= start + rendered::<S, W>(*self));
        }
    }
}

impl<'a> AnsiGenericString<'a, str> {
    /// The text with the codes of its style around it.
    pub fn to_string(&self) -> (r: String)
        ensures
            r@ == rendered::<str, String>(*self),
    {
        let mut out = String::new();
        self.write_to_any(&mut out);
        out
    }
}

/// The codes written between text in style `a` and text in style `b`
/// where `b` drops something of `a`.
fn reset_between_str(a: &Style, b: &Style) -> (r: String)
    ensures
        r@ == reset_between(*a, *b),
{
    let mut out = String::new();
    match (a.oscontrol, b.oscontrol) {
        (Some(OSControl::Hyperlink), None) => {
            out.append(hyperlink_reset_str().as_str());
            out.append(reset_str().as_str());
        },
        (Some(_), None) => out.append(string_terminator_str().as_str()),
        _ => out.append(reset_str().as_str()),
    }
    out.append(b.prefix().as_str());
    out
}

/// Whether the address of `b` has to be written before its text, given
/// whether the codes before it open the link.
fn needs_link_exec<'a, S: ?Sized, W: AnyWrite<Wstr = S>>(
    a: &AnsiGenericString<'a, S>,
    b: &AnsiGenericString<'a, S>,
    opened: bool,
) -> (r: bool)
    requires
        opened == opens_link(a.style, b.style),
    ensures
        r == needs_link::<S, W>(*a, *b),
{
    match (b.style.oscontrol, b.params) {
        (Some(OSControl::Hyperlink), Some(bp)) => {
            if opened {
                true
            } else {
                match (a.style.oscontrol, a.params) {
                    (Some(OSControl::Hyperlink), Some(ap)) => !W::same_text(ap, bp),
                    _ => true,
                }
            }
        },
        _ => false,
    }
}

/// Writes what comes between the text of `a` and that of `b`, then the
/// text of `b`.
fn write_transition<'a, S: ?Sized, W: AnyWrite<Wstr = S>>(
    w: &mut W,
    a: &AnsiGenericString<'a, S>,
    b: &AnsiGenericString<'a, S>,
)
    ensures
        final(w).written() == old(w).written() + flatten::<S, W>(transition::<S, W>(*a, *b)),
{
    let ghost start = w.written();
    let ghost codes: Seq<Piece<'a, S>>;
    let d = Difference::between(&a.style, &b.style);
    let mut opened = false;
    match d {
        Difference::ExtraStyles(extra) => {
            put_code::<S, W>(w, extra.prefix().as_str());
            opened = match extra.oscontrol {
                Some(OSControl::Hyperlink) => true,
                _ => false,
            };
            proof {
                codes = seq![Piece::Code(prefix_of(extra))];
            }
        },
        Difference::Reset => {
            put_code::<S, W>(w, reset_between_str(&a.style, &b.style).as_str());
            opened = true;
            proof {
                codes = seq![Piece::Code(reset_between(a.style, b.style))];
            }
        },
        Difference::Empty => {
            proof {
                codes = seq![];
            }
        },
    }
    assert(w.written() =~= start + flatten::<S, W>(codes));
    let needs = needs_link_exec::<S, W>(a, b, opened);
    let ghost link: Seq<Piece<'a, S>>;
    if needs {
        let ghost before = w.written();
        let ghost opener: Seq<Piece<'a, S>>;
        if !opened {
            put_code::<S, W>(w, osc_open_str(OSControl::Hyperlink).as_str());
            proof {
                opener = seq![Piece::Code(osc_open(OSControl::Hyperlink))];
            }
        } else {
            proof {
                opener = seq![];
            }
        }
        assert(w.written() =~= before + flatten::<S, W>(opener));
        let ghost mid = w.written();
        match b.params {
            Some(p) => {
                put_text(w, p);
                put_code::<S, W>(w, string_terminator_str().as_str());
                proof {
                    let t = seq![Piece::<'a, S>::Text(p)];
                    let c = seq![Piece::<'a, S>::Code(string_terminator())];
                    lemma_flatten_concat::<S, W>(t, c);
                    assert(t + c =~= link_address(*b));
                    assert(w.written() =~= mid + flatten::<S, W>(link_address(*b)));
                }
            },
            None => {},
        }
        proof {
            link = opener + link_address(*b);
            lemma_flatten_concat::<S, W>(opener, link_address(*b));
            assert(w.written() =~= before + flatten::<S, W>(link));
        }
    } else {
        proof {
            link = seq![];
        }
        assert(w.written() =~= start + flatten::<S, W>(codes) + flatten::<S, W>(link));
    }
    proof {
        lemma_flatten_concat::<S, W>(codes, link);
        assert(w.written() =~= start + flatten::<S, W>(codes + link));
    }
    let ghost mid2 = w.written();
    put_text(w, b.string);
    proof {
        lemma_flatten_concat::<S, W>(codes + link, seq![Piece::Text(b.string)]);
        assert(transition::<S, W>(*a, *b) =~= codes + link + seq![Piece::Text(b.string)]);
        assert(w.written() =~= start + flatten::<S, W>(transition::<S, W>(*a, *b)));
    }
}

impl<'a, S: ?Sized> AnsiGenericStrings<'a, S> {
    /// Writes the texts one after the other, each with only the codes
    /// that change the style from the one before, and a closing code
    /// after the last unless its style is plain.
    pub fn write_to_any<W: AnyWrite<Wstr = S>>(&self, w: &mut W)
        ensures
            final(w).written() == old(w).written() + rendered_all::<S, W>(self.0@),
    {
        let strs = self.0;
        let n = strs.len();
        let ghost start = w.written();
        if n == 0 {
            assert(w.written() =~= start + rendered_all::<S, W>(strs@));
            return;
        }
        let first = &strs[0];
        put_code::<S, W>(w, first.style.prefix().as_str());
        write_osc_argument(w, first.style.oscontrol, first.params);
        put_text(w, first.string);
        proof {
            let p1 = seq![Piece::<'a, S>::Code(prefix_of(first.style))];
            let p2 = osc_argument(first.style.oscontrol, first.params);
            let p3 = seq![Piece::Text(first.string)];
            lemma_flatten_concat::<S, W>(p1, p2);
            lemma_flatten_concat::<S, W>(p1 + p2, p3);
            assert(pieces_upto::<S, W>(strs@, 1) == p1 + p2 + p3);
            assert(w.written() =~= start + flatten::<S, W>(pieces_upto::<S, W>(strs@, 1)));
        }
        let mut i: usize = 1;
        while i < n
            invariant
                n == strs@.len(),
                1 <= i <= n,
                w.written() == start + flatten::<S, W>(pieces_upto::<S, W>(strs@, i as int)),
            decreases n - i,
        {
            write_transition(w, &strs[i - 1], &strs[i]);
            proof {
                lemma_flatten_concat::<S, W>(
                    pieces_upto::<S, W>(strs@, i as int),
                    transition::<S, W>(strs@[i - 1], strs@[i as int]),
                );
                assert(w.written() =~= start + flatten::<S, W>(pieces_upto::<S, W>(strs@, i + 1)));
            }
            i = i + 1;
        }
        let last = &strs[n - 1];
        let ghost upto = pieces_upto::<S, W>(strs@, n as int);
        if !last.style.is_plain() {
            put_code::<S, W>(w, last.style.suffix().as_str());
            proof {
                lemma_flatten_concat::<S, W>(
                    upto,
                    seq![Piece::<'a, S>::Code(suffix_of(last.style))],
                );
            }
        } else {
            assert(upto + seq![] =~= upto);
        }
        assert(w.written() =~= start + rendered_all::<S, W>(strs@));
    }
}

impl<'a> AnsiGenericStrings<'a, str> {
    /// The texts written one after the other with the fewest codes.
    pub fn to_string(&self) -> (r: String)
        ensures
            r@ == rendered_all::<str, String>(self.0@),
    {
        let mut out = String::new();
        self.write_to_any(&mut out);
        out
    }
}

// ---- laws ----

/// The texts of the first `n` styled texts, one after the other.
pub open spec fn texts_upto<'a, S: ?Sized, W: AnyWrite<Wstr = S>>(
    strs: Seq<AnsiGenericString<'a, S>>,
    n: int,
) -> Seq<W::Unit>
    decreases n,
{
    if n <= 0 {
        Seq::empty()
    } else {
        texts_upto::<S, W>(strs, n - 1) + W::wstr_units(strs[n - 1].string)
    }
}

/// A styled text written in a set of its own is written as it is alone.
pub proof fn lemma_alone_in_set<'a, S: ?Sized, W: AnyWrite<Wstr = S>>(
    s: AnsiGenericString<'a, S>,
)
    ensures
        rendered_all::<S, W>(seq![s]) == rendered::<S, W>(s),
{
    let strs = seq![s];
    assert(strs.last() == s);
    assert(pieces_upto::<S, W>(strs, 1) == opening(s));
    let closing = seq![Piece::<'a, S>::Code(suffix_of(s.style))];
    lemma_flatten_concat::<S, W>(opening(s), closing);
    lemma_flatten_one::<S, W>(closing[0]);
    if s.style == plain_style() {
        W::lemma_empty_code();
        assert(suffix_of(s.style) =~= Seq::<char>::empty());
        assert(pieces_all::<S, W>(strs) =~= opening(s) + seq![]);
        assert(rendered::<S, W>(s) =~= flatten::<S, W>(opening(s)));
    } else {
        assert(pieces_all::<S, W>(strs) == single(s));
    }
}

/// Texts that are all plain are written as they are, one after the
/// other, with no code at all.
pub proof fn lemma_plain_texts_uncoded<'a, S: ?Sized, W: AnyWrite<Wstr = S>>(
    strs: Seq<AnsiGenericString<'a, S>>,
)
    requires
        forall|i: int| 0 <= i < strs.len() ==> (#[trigger] strs[i]).style == plain_style(),
    ensures
        rendered_all::<S, W>(strs) == texts_upto::<S, W>(strs, strs.len() as int),
{
    W::lemma_empty_code();
    if strs.len() > 0 {
        lemma_plain_upto::<S, W>(strs, strs.len() as int);
        assert(strs.last() == strs[strs.len() - 1]);
        assert(pieces_all::<S, W>(strs) =~= pieces_upto::<S, W>(strs, strs.len() as int));
    }
}

proof fn lemma_plain_upto<'a, S: ?Sized, W: AnyWrite<Wstr = S>>(
    strs: Seq<AnsiGenericString<'a, S>>,
    n: int,
)
    requires
        1 <= n <= strs.len(),
        forall|i: int| 0 <= i < strs.len() ==> (#[trigger] strs[i]).style == plain_style(),
        W::code_units(Seq::empty()) == Seq::<W::Unit>::empty(),
    ensures
        flatten::<S, W>(pieces_upto::<S, W>(strs, n)) == texts_upto::<S, W>(strs, n),
    decreases n,
{
    let s = strs[n - 1];
    assert(s.style == plain_style());
    let text = seq![Piece::Text(s.string)];
    lemma_flatten_one::<S, W>(Piece::Text(s.string));
    if n == 1 {
        let code = seq![Piece::<'a, S>::Code(prefix_of(s.style))];
        assert(prefix_of(s.style) =~= Seq::<char>::empty());
        lemma_flatten_one::<S, W>(code[0]);
        assert(osc_argument(s.style.oscontrol, s.params) =~= Seq::<Piece<'a, S>>::empty());
        assert(opening(s) =~= code + text);
        lemma_flatten_concat::<S, W>(code, text);
        assert(texts_upto::<S, W>(strs, 0) =~= Seq::<W::Unit>::empty());
        assert(flatten::<S, W>(pieces_upto::<S, W>(strs, 1)) =~= texts_upto::<S, W>(strs, 1));
    } else {
        lemma_plain_upto::<S, W>(strs, n - 1);
        assert(strs[n - 2].style == plain_style());
        assert(transition::<S, W>(strs[n - 2], strs[n - 1]) =~= text);
        lemma_flatten_concat::<S, W>(pieces_upto::<S, W>(strs, n - 1), text);
    }
}

/// Written to a byte buffer, the codes before and after text in any
/// style are one byte per character: they are plain ASCII.
pub proof fn lemma_byte_codes_are_ascii(s: Style)
    ensures
        <Vec<u8> as AnyWrite>::code_units(prefix_of(s)) == prefix_of(s).map_values(
            |c: char| c as u8,
        ),
        <Vec<u8> as AnyWrite>::code_units(suffix_of(s)) == suffix_of(s).map_values(
            |c: char| c as u8,
        ),
{
    lemma_prefix_ascii(s);
    lemma_suffix_ascii(s);
    vstd::utf8::is_ascii_chars_encode_utf8(prefix_of(s));
    vstd::utf8::is_ascii_chars_encode_utf8(suffix_of(s));
    assert(vstd::utf8::encode_utf8(prefix_of(s)) =~= prefix_of(s).map_values(|c: char| c as u8));
    assert(vstd::utf8::encode_utf8(suffix_of(s)) =~= suffix_of(s).map_values(|c: char| c as u8));
}

/// Whether a style is plain, or opens a title, icon or working-directory
/// sequence and has nothing else.
pub open spec fn is_osc_only(s: Style) -> bool {
    ||| s == plain_style()
    ||| s.oscontrol is Some && s.oscontrol != Some(OSControl::Hyperlink) && s == osc_style(
        s.oscontrol.unwrap(),
    )
}

/// Whether no code of a series of writes holds a `[`, the character that
/// follows the escape in every graphic (SGR) code and in the reset.
pub open spec fn no_sgr_codes<'a, S: ?Sized>(ps: Seq<Piece<'a, S>>) -> bool {
    forall|i: int|
        0 <= i < ps.len() ==> match #[trigger] ps[i] {
            Piece::Code(c) => !c.contains('['),
            Piece::Text(_) => true,
        }
}

proof fn lemma_no_sgr_concat<'a, S: ?Sized>(a: Seq<Piece<'a, S>>, b: Seq<Piece<'a, S>>)
    requires
        no_sgr_codes(a),
        no_sgr_codes(b),
    ensures
        no_sgr_codes(a + b),
{
    assert forall|i: int| 0 <= i < (a + b).len() implies match #[trigger] (a + b)[i] {
        Piece::Code(c) => !c.contains('['),
        Piece::Text(_) => true,
    } by {
        if i < a.len() {
            assert((a + b)[i] == a[i]);
        } else {
            assert((a + b)[i] == b[i - a.len()]);
        }
    }
}

proof fn lemma_code_without_sgr<'a, S: ?Sized>(c: Seq<char>)
    requires
        forall|i: int| 0 <= i < c.len() ==> c[i] != '[',
    ensures
        no_sgr_codes(seq![Piece::<'a, S>::Code(c)]),
{
    assert(seq![Piece::<'a, S>::Code(c)][0] == Piece::<'a, S>::Code(c));
}

/// The codes of a style that is plain or only opens a title, icon or
/// working-directory sequence hold no `[`.
proof fn lemma_osc_only_codes(s: Style)
    requires
        is_osc_only(s),
    ensures
        forall|i: int| 0 <= i < prefix_of(s).len() ==> prefix_of(s)[i] != '[',
        forall|i: int| 0 <= i < suffix_of(s).len() ==> suffix_of(s)[i] != '[',
{
    if s != plain_style() {
        lemma_no_sgr_params(s);
        let o = s.oscontrol.unwrap();
        assert(sgr_code(s) =~= Seq::<char>::empty());
        assert(prefix_of(s) =~= osc_open(o));
        assert(suffix_of(s) =~= string_terminator());
    }
}

/// Between text in styles that are plain or only open a title, icon or
/// working-directory sequence, no graphic code and no reset is written:
/// only those sequences and their terminators.
pub proof fn lemma_osc_only_no_sgr<'a, S: ?Sized, W: AnyWrite<Wstr = S>>(strs: Seq<AnsiGenericString<'a, S>>)
    requires
        forall|i: int| 0 <= i < strs.len() ==> is_osc_only((#[trigger] strs[i]).style),
    ensures
        no_sgr_codes(pieces_all::<S, W>(strs)),
{
    if strs.len() > 0 {
        lemma_osc_only_upto::<S, W>(strs, strs.len() as int);
        let last = strs[strs.len() - 1];
        assert(strs.last() == last);
        lemma_osc_only_codes(last.style);
        lemma_code_without_sgr::<S>(suffix_of(last.style));
        let closing: Seq<Piece<'a, S>> = if last.style == plain_style() {
            seq![]
        } else {
            seq![Piece::Code(suffix_of(last.style))]
        };
        lemma_no_sgr_concat(pieces_upto::<S, W>(strs, strs.len() as int), closing);
    }
}

proof fn lemma_osc_only_upto<'a, S: ?Sized, W: AnyWrite<Wstr = S>>(strs: Seq<AnsiGenericString<'a, S>>, n: int)
    requires
        1 <= n <= strs.len(),
        forall|i: int| 0 <= i < strs.len() ==> is_osc_only((#[trigger] strs[i]).style),
    ensures
        no_sgr_codes(pieces_upto::<S, W>(strs, n)),
    decreases n,
{
    let b = strs[n - 1];
    assert(is_osc_only(b.style));
    lemma_osc_only_codes(b.style);
    let text = seq![Piece::<'a, S>::Text(b.string)];
    assert(no_sgr_codes(text)) by {
        assert(text[0] == Piece::<'a, S>::Text(b.string));
    }
    if n == 1 {
        lemma_code_without_sgr::<S>(prefix_of(b.style));
        let arg = osc_argument(b.style.oscontrol, b.params);
        assert(no_sgr_codes(arg)) by {
            if arg.len() > 0 {
                assert(arg[0] is Text);
                assert(arg[1] == Piece::<'a, S>::Code(string_terminator()));
            }
        }
        lemma_no_sgr_concat(seq![Piece::<'a, S>::Code(prefix_of(b.style))], arg);
        lemma_no_sgr_concat(seq![Piece::<'a, S>::Code(prefix_of(b.style))] + arg, text);
    } else {
        lemma_osc_only_upto::<S, W>(strs, n - 1);
        let a = strs[n - 2];
        assert(is_osc_only(a.style));
        assert(!needs_link::<S, W>(a, b));
        let codes: Seq<Piece<'a, S>> = match difference(a.style, b.style) {
            Difference::ExtraStyles(extra) => seq![Piece::Code(prefix_of(extra))] + seq![],
            Difference::Reset => seq![Piece::Code(reset_between(a.style, b.style))] + seq![],
            Difference::Empty => seq![],
        };
        assert(transition::<S, W>(a, b) == codes + text);
        match difference(a.style, b.style) {
            Difference::ExtraStyles(extra) => {
                assert(extra == added_styles(a.style, b.style));
                if extra.oscontrol is Some {
                    assert(extra == osc_style(extra.oscontrol.unwrap()));
                } else {
                    assert(extra == plain_style());
                }
                assert(is_osc_only(extra));
                lemma_osc_only_codes(extra);
                lemma_code_without_sgr::<S>(prefix_of(extra));
                assert(codes =~= seq![Piece::<'a, S>::Code(prefix_of(extra))]);
            },
            Difference::Reset => {
                assert(a.style.oscontrol is Some && b.style == plain_style());
                assert(reset_between(a.style, b.style) =~= string_terminator());
                lemma_code_without_sgr::<S>(reset_between(a.style, b.style));
                assert(codes =~= seq![Piece::<'a, S>::Code(reset_between(a.style, b.style))]);
            },
            Difference::Empty => {
                assert(no_sgr_codes(codes));
            },
        }
        lemma_no_sgr_concat(codes, text);
        lemma_no_sgr_concat(pieces_upto::<S, W>(strs, n - 1), codes + text);
    }
}

/// Whether a code ends with the code that opens a hyperlink.
pub open spec fn ends_with_link_opener(c: Seq<char>) -> bool {
    let o = osc_open(OSControl::Hyperlink);
    c.len() >= o.len() && c.subrange(c.len() - o.len(), c.len() as int) == o
}

/// Whether a series of writes ends with a link to `url` around `text`:
/// a code that ends with the link's opening code, the address, the
/// string terminator, and the text.
pub open spec fn ends_with_link<'a, S: ?Sized>(
    ps: Seq<Piece<'a, S>>,
    url: &'a S,
    text: &'a S,
) -> bool {
    &&& ps.len() >= 4
    &&& ps[ps.len() - 4] matches Piece::Code(c) && ends_with_link_opener(c)
    &&& ps[ps.len() - 3] == Piece::<'a, S>::Text(url)
    &&& ps[ps.len() - 2] == Piece::<'a, S>::Code(string_terminator())
    &&& ps[ps.len() - 1] == Piece::<'a, S>::Text(text)
}

proof fn lemma_opener_at_end(x: Seq<char>)
    ensures
        ends_with_link_opener(x + osc_open(OSControl::Hyperlink)),
{
    let o = osc_open(OSControl::Hyperlink);
    assert((x + o).subrange(x.len() as int, (x + o).len() as int) =~= o);
}

/// The prefix of a hyperlink style ends with the link's opening code.
proof fn lemma_link_prefix(s: Style)
    requires
        s.oscontrol == Some(OSControl::Hyperlink),
    ensures
        prefix_of(s) == (if s.prefix_with_reset {
            reset_code()
        } else {
            seq![]
        }) + sgr_code(s) + osc_open(OSControl::Hyperlink),
        ends_with_link_opener(prefix_of(s)),
{
    let r = if s.prefix_with_reset {
        reset_code()
    } else {
        seq![]
    };
    lemma_opener_at_end(r + sgr_code(s));
}

/// The writes for the first `m` texts are the start of those for the
/// first `n`.
proof fn lemma_upto_prefix<'a, S: ?Sized, W: AnyWrite<Wstr = S>>(
    strs: Seq<AnsiGenericString<'a, S>>,
    m: int,
    n: int,
)
    requires
        1 <= m <= n <= strs.len(),
    ensures
        pieces_upto::<S, W>(strs, m).len() <= pieces_upto::<S, W>(strs, n).len(),
        pieces_upto::<S, W>(strs, m) == pieces_upto::<S, W>(strs, n).subrange(
            0,
            pieces_upto::<S, W>(strs, m).len() as int,
        ),
    decreases n - m,
{
    let pm = pieces_upto::<S, W>(strs, m);
    if m < n {
        lemma_upto_prefix::<S, W>(strs, m, n - 1);
        let pn1 = pieces_upto::<S, W>(strs, n - 1);
        let pn = pieces_upto::<S, W>(strs, n);
        assert(pn == pn1 + transition::<S, W>(strs[n - 2], strs[n - 1]));
        assert(pn.subrange(0, pm.len() as int) =~= pn1.subrange(0, pm.len() as int));
    } else {
        assert(pm =~= pm.subrange(0, pm.len() as int));
    }
}

/// The writes for the first `m` texts are the start of those for the
/// whole set.
pub proof fn lemma_upto_is_start<'a, S: ?Sized, W: AnyWrite<Wstr = S>>(
    strs: Seq<AnsiGenericString<'a, S>>,
    m: int,
)
    requires
        1 <= m <= strs.len(),
    ensures
        pieces_upto::<S, W>(strs, m) == pieces_all::<S, W>(strs).subrange(
            0,
            pieces_upto::<S, W>(strs, m).len() as int,
        ),
{
    let pm = pieces_upto::<S, W>(strs, m);
    let pn = pieces_upto::<S, W>(strs, strs.len() as int);
    let all = pieces_all::<S, W>(strs);
    lemma_upto_prefix::<S, W>(strs, m, strs.len() as int);
    assert(all.subrange(0, pm.len() as int) =~= pn.subrange(0, pm.len() as int));
}

/// Writes that end with a link still do after other writes before them.
proof fn lemma_link_after<'a, S: ?Sized>(
    before: Seq<Piece<'a, S>>,
    ps: Seq<Piece<'a, S>>,
    url: &'a S,
    text: &'a S,
)
    requires
        ends_with_link(ps, url, text),
    ensures
        ends_with_link(before + ps, url, text),
{
    let all = before + ps;
    assert(all[all.len() - 4] == ps[ps.len() - 4]);
    assert(all[all.len() - 3] == ps[ps.len() - 3]);
    assert(all[all.len() - 2] == ps[ps.len() - 2]);
    assert(all[all.len() - 1] == ps[ps.len() - 1]);
}

/// A code that ends with the link's opening code, then the address, the
/// terminator and the text, ends with a link.
proof fn lemma_code_then_link<'a, S: ?Sized>(
    codes: Seq<Piece<'a, S>>,
    c: Seq<char>,
    url: &'a S,
    text: &'a S,
)
    requires
        ends_with_link_opener(c),
    ensures
        ends_with_link(
            codes + seq![
                Piece::Code(c),
                Piece::Text(url),
                Piece::Code(string_terminator()),
                Piece::Text(text),
            ],
            url,
            text,
        ),
{
    let tail = seq![
        Piece::<'a, S>::Code(c),
        Piece::Text(url),
        Piece::Code(string_terminator()),
        Piece::Text(text),
    ];
    assert(ends_with_link(tail, url, text));
    lemma_link_after(codes, tail, url, text);
}

/// Where the address of `b` is written, what comes between `a` and `b`
/// ends with a link around the text of `b`.
#[verifier::rlimit(20)]
proof fn lemma_transition_link<'a, S: ?Sized, W: AnyWrite<Wstr = S>>(
    a: AnsiGenericString<'a, S>,
    b: AnsiGenericString<'a, S>,
    url: &'a S,
)
    requires
        b.style.oscontrol == Some(OSControl::Hyperlink),
        b.params == Some(url),
        needs_link::<S, W>(a, b),
    ensures
        ends_with_link(transition::<S, W>(a, b), url, b.string),
{
    let t = transition::<S, W>(a, b);
    let rest = seq![
        Piece::<'a, S>::Text(url),
        Piece::<'a, S>::Code(string_terminator()),
        Piece::<'a, S>::Text(b.string),
    ];
    let opener = osc_open(OSControl::Hyperlink);
    lemma_opener_at_end(Seq::<char>::empty());
    assert(Seq::<char>::empty() + opener =~= opener);
    match difference(a.style, b.style) {
        Difference::ExtraStyles(extra) => {
            if extra.oscontrol == Some(OSControl::Hyperlink) {
                lemma_link_prefix(extra);
                assert(t =~= seq![] + seq![Piece::<'a, S>::Code(prefix_of(extra))] + rest);
                lemma_code_then_link::<S>(seq![], prefix_of(extra), url, b.string);
            } else {
                assert(t =~= seq![Piece::<'a, S>::Code(prefix_of(extra))] + seq![
                    Piece::<'a, S>::Code(opener),
                ] + rest);
                lemma_code_then_link::<S>(
                    seq![Piece::<'a, S>::Code(prefix_of(extra))],
                    opener,
                    url,
                    b.string,
                );
            }
        },
        Difference::Reset => {
            let c = reset_between(a.style, b.style);
            let p = prefix_of(b.style);
            lemma_link_prefix(b.style);
            let r = if b.style.prefix_with_reset {
                reset_code()
            } else {
                seq![]
            };
            let head = c.subrange(0, c.len() - p.len());
            assert(c =~= head + p);
            assert(c =~= (head + r + sgr_code(b.style)) + opener);
            lemma_opener_at_end(head + r + sgr_code(b.style));
            assert(t =~= seq![] + seq![Piece::<'a, S>::Code(c)] + rest);
            lemma_code_then_link::<S>(seq![], c, url, b.string);
        },
        Difference::Empty => {
            assert(t =~= seq![] + seq![Piece::<'a, S>::Code(opener)] + rest);
            lemma_code_then_link::<S>(seq![], opener, url, b.string);
        },
    }
}

/// Every text that is a link with an address is written as a link to
/// that address: the writes up to its text end with the link's opening
/// code, the address, the string terminator and the text, unless the text
/// before it links to the same address and the codes between them do not
/// open a link, so that the link already open goes on over it.
pub proof fn lemma_links_written<'a, S: ?Sized, W: AnyWrite<Wstr = S>>(
    strs: Seq<AnsiGenericString<'a, S>>,
    i: int,
    url: &'a S,
)
    requires
        0 <= i < strs.len(),
        strs[i].style.oscontrol == Some(OSControl::Hyperlink),
        strs[i].params == Some(url),
        i == 0 || opens_link(strs[i - 1].style, strs[i].style) || !same_link::<S, W>(
            strs[i - 1],
            strs[i],
        ),
    ensures
        ends_with_link(pieces_upto::<S, W>(strs, i + 1), url, strs[i].string),
        pieces_upto::<S, W>(strs, i + 1) == pieces_all::<S, W>(strs).subrange(
            0,
            pieces_upto::<S, W>(strs, i + 1).len() as int,
        ),
{
    lemma_upto_is_start::<S, W>(strs, i + 1);
    let b = strs[i];
    let ps = pieces_upto::<S, W>(strs, i + 1);
    if i == 0 {
        lemma_link_prefix(b.style);
        assert(ps == opening(b));
        assert(ps =~= seq![] + seq![
            Piece::<'a, S>::Code(prefix_of(b.style)),
            Piece::<'a, S>::Text(url),
            Piece::<'a, S>::Code(string_terminator()),
            Piece::<'a, S>::Text(b.string),
        ]);
        lemma_code_then_link::<S>(seq![], prefix_of(b.style), url, b.string);
    } else {
        let a = strs[i - 1];
        assert(ps == pieces_upto::<S, W>(strs, i) + transition::<S, W>(a, b));
        lemma_transition_link::<S, W>(a, b, url);
        lemma_link_after(pieces_upto::<S, W>(strs, i), transition::<S, W>(a, b), url, b.string);
    }
}
/// Making a text a link twice is the same as making it a link to the
/// second address only: the last address wins.
pub proof fn lemma_last_link_wins<'a, S: ?Sized>(
    s: AnsiGenericString<'a, S>,
    first: &'a S,
    second: &'a S,
)
    ensures
        linked(linked(s, first), second) == linked(s, second),
{
}

/// Painting with the plain style is the same as taking the text
/// unstyled.
pub proof fn lemma_plain_paint_is_from<'a, S: ?Sized>(input: &'a S)
    ensures
        painted(plain_style(), input) == <AnsiGenericString<
            'a,
            S,
        > as vstd::std_specs::convert::FromSpec<&'a S>>::from_spec(input),
{
}

/// A text whose style opens no control sequence is written the same
/// whatever control-sequence argument it carries.
pub proof fn lemma_argument_needs_control<'a, S: ?Sized>(
    s: AnsiGenericString<'a, S>,
    params: Option<&'a S>,
)
    requires
        s.style.oscontrol is None,
    ensures
        single(s) == single(AnsiGenericString { params, ..s }),
{
    assert(osc_argument(s.style.oscontrol, s.params) =~= osc_argument(
        s.style.oscontrol,
        params,
    ));
}

// ---- byte texts and string texts ----

/// The UTF-8 encoding of two strings one after the other is the encoding
/// of the first followed by that of the second.
pub proof fn lemma_encode_concat(a: Seq<char>, b: Seq<char>)
    ensures
        encode_utf8(a + b) == encode_utf8(a) + encode_utf8(b),
    decreases a.len(),
{
    if a.len() == 0 {
        assert(a + b =~= b);
        assert(encode_utf8(a) =~= Seq::<u8>::empty());
        assert(encode_utf8(a) + encode_utf8(b) =~= encode_utf8(b));
    } else {
        lemma_encode_concat(a.drop_first(), b);
        assert((a + b).drop_first() =~= a.drop_first() + b);
        assert((a + b)[0] == a[0]);
        assert(encode_utf8(a + b) =~= encode_utf8(a) + encode_utf8(b));
    }
}

/// Whether the bytes are the UTF-8 encoding of the string.
pub open spec fn encodes(bytes: &[u8], text: &str) -> bool {
    bytes@ == encode_utf8(text@)
}

/// Whether a styled byte text is a styled string in UTF-8: the same
/// style, and the text and the control-sequence argument encoded.
pub open spec fn encodes_styled<'a>(b: AnsiByteString<'a>, t: AnsiString<'a>) -> bool {
    &&& b.style == t.style
    &&& encodes(b.string, t.string)
    &&& match (b.params, t.params) {
        (None, None) => true,
        (Some(x), Some(y)) => encodes(x, y),
        _ => false,
    }
}

/// Whether one write of bytes is one write of a string in UTF-8: the same
/// code, or an encoded text.
pub open spec fn encodes_piece<'a>(p: Piece<'a, [u8]>, q: Piece<'a, str>) -> bool {
    match (p, q) {
        (Piece::Code(c), Piece::Code(d)) => c == d,
        (Piece::Text(x), Piece::Text(y)) => encodes(x, y),
        _ => false,
    }
}

/// Whether a series of writes of bytes is, write by write, a series of
/// writes of strings in UTF-8.
pub open spec fn encodes_pieces<'a>(ps: Seq<Piece<'a, [u8]>>, qs: Seq<Piece<'a, str>>) -> bool {
    &&& ps.len() == qs.len()
    &&& forall|i: int| 0 <= i < ps.len() ==> encodes_piece(#[trigger] ps[i], qs[i])
}

proof fn lemma_encodes_concat<'a>(
    p1: Seq<Piece<'a, [u8]>>,
    q1: Seq<Piece<'a, str>>,
    p2: Seq<Piece<'a, [u8]>>,
    q2: Seq<Piece<'a, str>>,
)
    requires
        encodes_pieces(p1, q1),
        encodes_pieces(p2, q2),
    ensures
        encodes_pieces(p1 + p2, q1 + q2),
{
    assert forall|i: int| 0 <= i < (p1 + p2).len() implies encodes_piece(
        #[trigger] (p1 + p2)[i],
        (q1 + q2)[i],
    ) by {
        if i < p1.len() {
            assert((p1 + p2)[i] == p1[i] && (q1 + q2)[i] == q1[i]);
        } else {
            assert((p1 + p2)[i] == p2[i - p1.len()] && (q1 + q2)[i] == q2[i - q1.len()]);
        }
    }
}

proof fn lemma_encodes_one<'a>(p: Piece<'a, [u8]>, q: Piece<'a, str>)
    requires
        encodes_piece(p, q),
    ensures
        encodes_pieces(seq![p], seq![q]),
{
    assert(seq![p][0] == p && seq![q][0] == q);
}

/// Writes of bytes that encode writes of strings put the encoding of what
/// those put into a string into a byte buffer.
pub proof fn lemma_flatten_encodes<'a>(ps: Seq<Piece<'a, [u8]>>, qs: Seq<Piece<'a, str>>)
    requires
        encodes_pieces(ps, qs),
    ensures
        flatten::<[u8], Vec<u8>>(ps) == encode_utf8(flatten::<str, String>(qs)),
    decreases ps.len(),
{
    if ps.len() == 0 {
        assert(encode_utf8(Seq::<char>::empty()) =~= Seq::<u8>::empty());
    } else {
        let n = ps.len() - 1;
        assert forall|i: int| 0 <= i < ps.drop_last().len() implies encodes_piece(
            #[trigger] ps.drop_last()[i],
            qs.drop_last()[i],
        ) by {
            assert(ps.drop_last()[i] == ps[i] && qs.drop_last()[i] == qs[i]);
        }
        lemma_flatten_encodes(ps.drop_last(), qs.drop_last());
        assert(encodes_piece(ps[n], qs[n]));
        assert(ps.last() == ps[n] && qs.last() == qs[n]);
        lemma_encode_concat(
            flatten::<str, String>(qs.drop_last()),
            piece_units::<str, String>(qs.last()),
        );
    }
}

/// Two byte texts are the same exactly when the strings they encode are.
proof fn lemma_encoding_injective(x1: &[u8], y1: &str, x2: &[u8], y2: &str)
    requires
        encodes(x1, y1),
        encodes(x2, y2),
    ensures
        (x1@ == x2@) == (y1@ == y2@),
{
    vstd::utf8::encode_utf8_decode_utf8(y1@);
    vstd::utf8::encode_utf8_decode_utf8(y2@);
}

proof fn lemma_opening_encodes<'a>(b: AnsiByteString<'a>, t: AnsiString<'a>)
    requires
        encodes_styled(b, t),
    ensures
        encodes_pieces(opening(b), opening(t)),
{
    lemma_encodes_one(Piece::Code(prefix_of(b.style)), Piece::Code(prefix_of(t.style)));
    let pa = osc_argument(b.style.oscontrol, b.params);
    let qa = osc_argument(t.style.oscontrol, t.params);
    assert(encodes_pieces(pa, qa)) by {
        if pa.len() > 0 {
            assert(pa[0] == Piece::Text(b.params.unwrap()));
            assert(qa[0] == Piece::Text(t.params.unwrap()));
            assert(pa[1] == Piece::<'a, [u8]>::Code(string_terminator()));
            assert(qa[1] == Piece::<'a, str>::Code(string_terminator()));
        }
    }
    lemma_encodes_concat(
        seq![Piece::Code(prefix_of(b.style))],
        seq![Piece::Code(prefix_of(t.style))],
        pa,
        qa,
    );
    lemma_encodes_one(Piece::Text(b.string), Piece::Text(t.string));
    lemma_encodes_concat(
        seq![Piece::Code(prefix_of(b.style))] + pa,
        seq![Piece::Code(prefix_of(t.style))] + qa,
        seq![Piece::Text(b.string)],
        seq![Piece::Text(t.string)],
    );
}

proof fn lemma_transition_encodes<'a>(
    ab: AnsiByteString<'a>,
    bb: AnsiByteString<'a>,
    at: AnsiString<'a>,
    bt: AnsiString<'a>,
)
    requires
        encodes_styled(ab, at),
        encodes_styled(bb, bt),
    ensures
        encodes_pieces(
            transition::<[u8], Vec<u8>>(ab, bb),
            transition::<str, String>(at, bt),
        ),
{
    if ab.params is Some && bb.params is Some {
        lemma_encoding_injective(
            ab.params.unwrap(),
            at.params.unwrap(),
            bb.params.unwrap(),
            bt.params.unwrap(),
        );
    }
    assert(needs_link::<[u8], Vec<u8>>(ab, bb) == needs_link::<str, String>(at, bt));
    let needs = needs_link::<str, String>(at, bt);
    let link_b: Seq<Piece<'a, [u8]>> = if needs {
        link_address(bb)
    } else {
        seq![]
    };
    let link_t: Seq<Piece<'a, str>> = if needs {
        link_address(bt)
    } else {
        seq![]
    };
    assert(encodes_pieces(link_b, link_t)) by {
        if needs {
            assert(link_b[0] == Piece::Text(bb.params.unwrap()));
            assert(link_t[0] == Piece::Text(bt.params.unwrap()));
            assert(link_b[1] == Piece::<'a, [u8]>::Code(string_terminator()));
            assert(link_t[1] == Piece::<'a, str>::Code(string_terminator()));
        }
    }
    let opener_b: Seq<Piece<'a, [u8]>> = seq![Piece::Code(osc_open(OSControl::Hyperlink))];
    let opener_t: Seq<Piece<'a, str>> = seq![Piece::Code(osc_open(OSControl::Hyperlink))];
    lemma_encodes_one(opener_b[0], opener_t[0]);
    let codes_b: Seq<Piece<'a, [u8]>>;
    let codes_t: Seq<Piece<'a, str>>;
    match difference(ab.style, bb.style) {
        Difference::ExtraStyles(extra) => {
            let cb = seq![Piece::<'a, [u8]>::Code(prefix_of(extra))];
            let ct = seq![Piece::<'a, str>::Code(prefix_of(extra))];
            lemma_encodes_one(cb[0], ct[0]);
            if needs && extra.oscontrol != Some(OSControl::Hyperlink) {
                lemma_encodes_concat(cb, ct, opener_b, opener_t);
                lemma_encodes_concat(cb + opener_b, ct + opener_t, link_b, link_t);
                codes_b = cb + opener_b + link_b;
                codes_t = ct + opener_t + link_t;
            } else {
                lemma_encodes_concat(cb, ct, link_b, link_t);
                codes_b = cb + link_b;
                codes_t = ct + link_t;
            }
        },
        Difference::Reset => {
            let cb = seq![Piece::<'a, [u8]>::Code(reset_between(ab.style, bb.style))];
            let ct = seq![Piece::<'a, str>::Code(reset_between(at.style, bt.style))];
            lemma_encodes_one(cb[0], ct[0]);
            lemma_encodes_concat(cb, ct, link_b, link_t);
            codes_b = cb + link_b;
            codes_t = ct + link_t;
        },
        Difference::Empty => {
            if needs {
                lemma_encodes_concat(opener_b, opener_t, link_b, link_t);
                codes_b = opener_b + link_b;
                codes_t = opener_t + link_t;
            } else {
                codes_b = seq![];
                codes_t = seq![];
            }
        },
    }
    assert(transition::<[u8], Vec<u8>>(ab, bb) =~= codes_b + seq![Piece::Text(bb.string)]);
    assert(transition::<str, String>(at, bt) =~= codes_t + seq![Piece::Text(bt.string)]);
    lemma_encodes_one(Piece::Text(bb.string), Piece::Text(bt.string));
    lemma_encodes_concat(codes_b, codes_t, seq![Piece::Text(bb.string)], seq![Piece::Text(bt.string)]);
}

proof fn lemma_upto_encodes<'a>(bs: Seq<AnsiByteString<'a>>, ts: Seq<AnsiString<'a>>, n: int)
    requires
        bs.len() == ts.len(),
        forall|i: int| 0 <= i < bs.len() ==> encodes_styled(#[trigger] bs[i], ts[i]),
        1 <= n <= bs.len(),
    ensures
        encodes_pieces(pieces_upto::<[u8], Vec<u8>>(bs, n), pieces_upto::<str, String>(ts, n)),
    decreases n,
{
    if n == 1 {
        assert(encodes_styled(bs[0], ts[0]));
        lemma_opening_encodes(bs[0], ts[0]);
    } else {
        lemma_upto_encodes(bs, ts, n - 1);
        assert(encodes_styled(bs[n - 2], ts[n - 2]));
        assert(encodes_styled(bs[n - 1], ts[n - 1]));
        lemma_transition_encodes(bs[n - 2], bs[n - 1], ts[n - 2], ts[n - 1]);
        lemma_encodes_concat(
            pieces_upto::<[u8], Vec<u8>>(bs, n - 1),
            pieces_upto::<str, String>(ts, n - 1),
            transition::<[u8], Vec<u8>>(bs[n - 2], bs[n - 1]),
            transition::<str, String>(ts[n - 2], ts[n - 1]),
        );
    }
}

/// Byte texts that are strings in UTF-8, with the same styles and
/// arguments, are written as the UTF-8 encoding of what the strings are
/// written as: the same codes, between the same texts.
pub proof fn lemma_bytes_encode_strings<'a>(bs: Seq<AnsiByteString<'a>>, ts: Seq<AnsiString<'a>>)
    requires
        bs.len() == ts.len(),
        forall|i: int| 0 <= i < bs.len() ==> encodes_styled(#[trigger] bs[i], ts[i]),
    ensures
        rendered_all::<[u8], Vec<u8>>(bs) == encode_utf8(rendered_all::<str, String>(ts)),
{
    if bs.len() == 0 {
        assert(encode_utf8(Seq::<char>::empty()) =~= Seq::<u8>::empty());
    } else {
        let n = bs.len() as int;
        lemma_upto_encodes(bs, ts, n);
        assert(encodes_styled(bs[n - 1], ts[n - 1]));
        assert(bs.last() == bs[n - 1] && ts.last() == ts[n - 1]);
        let cb: Seq<Piece<'a, [u8]>> = if bs.last().style == plain_style() {
            seq![]
        } else {
            seq![Piece::Code(suffix_of(bs.last().style))]
        };
        let ct: Seq<Piece<'a, str>> = if ts.last().style == plain_style() {
            seq![]
        } else {
            seq![Piece::Code(suffix_of(ts.last().style))]
        };
        assert(encodes_pieces(cb, ct)) by {
            if cb.len() > 0 {
                assert(cb[0] == Piece::<'a, [u8]>::Code(suffix_of(bs.last().style)));
                assert(ct[0] == Piece::<'a, str>::Code(suffix_of(ts.last().style)));
            }
        }
        lemma_encodes_concat(
            pieces_upto::<[u8], Vec<u8>>(bs, n),
            pieces_upto::<str, String>(ts, n),
            cb,
            ct,
        );
        lemma_flatten_encodes(pieces_all::<[u8], Vec<u8>>(bs), pieces_all::<str, String>(ts));
    }
}

/// A styled byte text that is a styled string in UTF-8 is written as the
/// UTF-8 encoding of what the string is written as.
pub proof fn lemma_byte_text_encodes_string<'a>(b: AnsiByteString<'a>, t: AnsiString<'a>)
    requires
        encodes_styled(b, t),
    ensures
        rendered::<[u8], Vec<u8>>(b) == encode_utf8(rendered::<str, String>(t)),
{
    lemma_opening_encodes(b, t);
    lemma_encodes_one(Piece::Code(suffix_of(b.style)), Piece::Code(suffix_of(t.style)));
    lemma_encodes_concat(
        opening(b),
        opening(t),
        seq![Piece::Code(suffix_of(b.style))],
        seq![Piece::Code(suffix_of(t.style))],
    );
    lemma_flatten_encodes(single(b), single(t));
}

} // verus!
