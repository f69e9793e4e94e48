use vstd::prelude::*;

use crate::style::{plain_style, Color, Style};

verus! {

/// What has to be written to go from text in one style to text in the next.
#[derive(Clone, Copy, Debug, PartialEq, Eq, Structural)]
pub enum Difference {
    /// The next style adds these attributes, colours or control sequence
    /// to the first: writing the prefix of this style is enough.
    ExtraStyles(Style),
    /// The next style drops something of the first, which no code can
    /// take back but a full reset.
    Reset,
    /// The two styles are the same: nothing needs writing.
    Empty,
}

/// Whether `next` lacks something that `first` has: an attribute, a
/// colour, or a control sequence.
pub open spec fn loses_something(first: Style, next: Style) -> bool {
    ||| first.is_bold && !next.is_bold
    ||| first.is_dimmed && !next.is_dimmed
    ||| first.is_italic && !next.is_italic
    ||| first.is_underline && !next.is_underline
    ||| first.is_blink && !next.is_blink
    ||| first.is_reverse && !next.is_reverse
    ||| first.is_hidden && !next.is_hidden
    ||| first.is_strikethrough && !next.is_strikethrough
    ||| first.foreground is Some && next.foreground is None
    ||| first.background is Some && next.background is None
    ||| first.oscontrol is Some && next.oscontrol is None
}

/// The style that holds what `next` adds to `first`: each attribute that
/// differs, and each colour or control sequence that differs, as `next`
/// has it.
pub open spec fn added_styles(first: Style, next: Style) -> Style {
    Style {
        is_bold: first.is_bold != next.is_bold,
        is_dimmed: first.is_dimmed != next.is_dimmed,
        is_italic: first.is_italic != next.is_italic,
        is_underline: first.is_underline != next.is_underline,
        is_blink: first.is_blink != next.is_blink,
        is_reverse: first.is_reverse != next.is_reverse,
        is_hidden: first.is_hidden != next.is_hidden,
        is_strikethrough: first.is_strikethrough != next.is_strikethrough,
        foreground: if first.foreground != next.foreground {
            next.foreground
        } else {
            None
        },
        background: if first.background != next.background {
            next.background
        } else {
            None
        },
        oscontrol: if first.oscontrol != next.oscontrol {
            next.oscontrol
        } else {
            None
        },
        ..plain_style()
    }
}

/// The difference between two styles: `Empty` when they are equal,
/// `Reset` when the next loses something of the first, else the styles
/// that the next adds.
pub open spec fn difference(first: Style, next: Style) -> Difference {
    if first == next {
        Difference::Empty
    } else if loses_something(first, next) {
        Difference::Reset
    } else {
        Difference::ExtraStyles(added_styles(first, next))
    }
}

fn changed_colour(first: Option<Color>, next: Option<Color>) -> (r: Option<Color>)
    ensures
        r == (if first != next {
            next
        } else {
            None
        }),
{
    if first != next {
        next
    } else {
        None
    }
}

fn loses(first: &Style, next: &Style) -> (b: bool)
    ensures
        b == loses_something(*first, *next),
{
    (first.is_bold && !next.is_bold) || (first.is_dimmed && !next.is_dimmed) || (first.is_italic
        && !next.is_italic) || (first.is_underline && !next.is_underline) || (first.is_blink
        && !next.is_blink) || (first.is_reverse && !next.is_reverse) || (first.is_hidden
        && !next.is_hidden) || (first.is_strikethrough && !next.is_strikethrough) || (
    first.foreground.is_some() && next.foreground.is_none()) || (first.background.is_some()
        && next.background.is_none()) || (first.oscontrol.is_some() && next.oscontrol.is_none())
}

fn added(first: &Style, next: &Style) -> (s: Style)
    ensures
        s == added_styles(*first, *next),
{
    Style {
        is_bold: first.is_bold != next.is_bold,
        is_dimmed: first.is_dimmed != next.is_dimmed,
        is_italic: first.is_italic != next.is_italic,
        is_underline: first.is_underline != next.is_underline,
        is_blink: first.is_blink != next.is_blink,
        is_reverse: first.is_reverse != next.is_reverse,
        is_hidden: first.is_hidden != next.is_hidden,
        is_strikethrough: first.is_strikethrough != next.is_strikethrough,
        foreground: changed_colour(first.foreground, next.foreground),
        background: changed_colour(first.background, next.background),
        oscontrol: if first.oscontrol != next.oscontrol {
            next.oscontrol
        } else {
            None
        },
        prefix_with_reset: false,
    }
}

impl Difference {
    /// Works out what has to be written between text in `first` and text
    /// in `next`.
    pub fn between(first: &Style, next: &Style) -> (d: Difference)
        ensures
            d == difference(*first, *next),
    {
        if *first == *next {
            Difference::Empty
        } else if loses(first, next) {
            Difference::Reset
        } else {
            Difference::ExtraStyles(added(first, next))
        }
    }
}

// ---- laws ----

/// The state a terminal is left in when the codes of `added` are written
/// while it shows text in `current`: attributes can only be switched on,
/// and colours and control sequences only replaced.  Whether a style
/// asks for a reset before it is not part of that state.
pub open spec fn apply_added(current: Style, added: Style) -> Style {
    Style {
        is_bold: current.is_bold || added.is_bold,
        is_dimmed: current.is_dimmed || added.is_dimmed,
        is_italic: current.is_italic || added.is_italic,
        is_underline: current.is_underline || added.is_underline,
        is_blink: current.is_blink || added.is_blink,
        is_reverse: current.is_reverse || added.is_reverse,
        is_hidden: current.is_hidden || added.is_hidden,
        is_strikethrough: current.is_strikethrough || added.is_strikethrough,
        foreground: if added.foreground is Some {
            added.foreground
        } else {
            current.foreground
        },
        background: if added.background is Some {
            added.background
        } else {
            current.background
        },
        oscontrol: if added.oscontrol is Some {
            added.oscontrol
        } else {
            current.oscontrol
        },
        prefix_with_reset: current.prefix_with_reset,
    }
}

/// The next style with the first style's reset flag: what a terminal
/// state reached from `first` can at most be.
pub open spec fn as_reached_from(first: Style, next: Style) -> Style {
    Style { prefix_with_reset: first.prefix_with_reset, ..next }
}

/// Nothing needs writing between two styles exactly when they are equal.
pub proof fn lemma_empty_iff_equal(first: Style, next: Style)
    ensures
        (difference(first, next) == Difference::Empty) <==> (first == next),
{
}

/// When the difference is a set of extra styles, writing them on top of
/// the first style reaches the next one, and they hold nothing that the
/// first style had already: each attribute in them is off in the first
/// style and on in the next, and each colour or control sequence in them
/// is the next style's and differs from the first's.
pub proof fn lemma_extra_styles_reach_next(first: Style, next: Style)
    requires
        difference(first, next) is ExtraStyles,
    ensures
        ({
            let extra = difference(first, next)->ExtraStyles_0;
            &&& apply_added(first, extra) == as_reached_from(first, next)
            &&& extra.is_bold ==> !first.is_bold && next.is_bold
            &&& extra.is_dimmed ==> !first.is_dimmed && next.is_dimmed
            &&& extra.is_italic ==> !first.is_italic && next.is_italic
            &&& extra.is_underline ==> !first.is_underline && next.is_underline
            &&& extra.is_blink ==> !first.is_blink && next.is_blink
            &&& extra.is_reverse ==> !first.is_reverse && next.is_reverse
            &&& extra.is_hidden ==> !first.is_hidden && next.is_hidden
            &&& extra.is_strikethrough ==> !first.is_strikethrough && next.is_strikethrough
            &&& extra.foreground is Some ==> extra.foreground == next.foreground
                && first.foreground != next.foreground
            &&& extra.background is Some ==> extra.background == next.background
                && first.background != next.background
            &&& extra.oscontrol is Some ==> extra.oscontrol == next.oscontrol
                && first.oscontrol != next.oscontrol
            &&& !extra.prefix_with_reset
        }),
{
}

/// When the difference is a reset, no extra styles written on top of the
/// first style could reach the next one.
pub proof fn lemma_reset_is_needed(first: Style, next: Style, extra: Style)
    requires
        difference(first, next) == Difference::Reset,
    ensures
        apply_added(first, extra) != as_reached_from(first, next),
{
}

} // verus!
