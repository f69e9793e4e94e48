use vstd::prelude::*;

use crate::ansi::{
    hyperlink_reset_code, lemma_no_sgr_params, osc_open, prefix_of, reset_code, sgr_code,
    string_terminator, suffix_of,
};
use crate::difference::{apply_added, difference, lemma_extra_styles_reach_next, Difference};
use crate::display::{
    link_address, needs_link, opening, osc_argument, pieces_all,
    pieces_upto, reset_between, transition, AnsiGenericString, Piece,
};
use crate::style::{osc_style, plain_style, OSControl, Style};
use crate::write::AnyWrite;

verus! {

// ---- a model of the terminal ----

/// What a terminal shows text in: its attributes and colours.  Control
/// sequences and the reset flag of a style are not part of it.
pub open spec fn graphic(s: Style) -> Style {
    Style { oscontrol: None, prefix_with_reset: false, ..s }
}

/// One thing a terminal is told.
pub enum TermAction {
    /// Clear every attribute and colour.
    Reset,
    /// Apply a style: clear everything first if the style asks for a
    /// reset, then switch its attributes on and set its colours.
    Apply(Style),
    /// End a title, icon or working-directory sequence.
    EndControl,
    /// End a hyperlink.
    EndLink,
}

/// The characters that tell a terminal to do an action.
pub open spec fn action_code(a: TermAction) -> Seq<char> {
    match a {
        TermAction::Reset => reset_code(),
        TermAction::Apply(s) => prefix_of(s),
        TermAction::EndControl => string_terminator(),
        TermAction::EndLink => hyperlink_reset_code(),
    }
}

/// What the terminal shows text in after an action.
pub open spec fn act(state: Style, a: TermAction) -> Style {
    match a {
        TermAction::Reset => plain_style(),
        TermAction::Apply(s) => graphic(
            apply_added(
                if s.prefix_with_reset {
                    plain_style()
                } else {
                    state
                },
                graphic(s),
            ),
        ),
        TermAction::EndControl => state,
        TermAction::EndLink => state,
    }
}

/// The characters of a series of actions.
pub open spec fn actions_code(acts: Seq<TermAction>) -> Seq<char>
    decreases acts.len(),
{
    if acts.len() == 0 {
        seq![]
    } else {
        actions_code(acts.drop_last()) + action_code(acts.last())
    }
}

/// What the terminal shows text in after a series of actions.
pub open spec fn run(state: Style, acts: Seq<TermAction>) -> Style
    decreases acts.len(),
{
    if acts.len() == 0 {
        state
    } else {
        act(run(state, acts.drop_last()), acts.last())
    }
}

/// The escape codes of a series of writes, one after the other, without
/// the texts.
pub open spec fn codes_of<'a, S: ?Sized>(ps: Seq<Piece<'a, S>>) -> Seq<char>
    decreases ps.len(),
{
    if ps.len() == 0 {
        seq![]
    } else {
        codes_of(ps.drop_last()) + match ps.last() {
            Piece::Code(c) => c,
            Piece::Text(_) => seq![],
        }
    }
}

/// Whether the codes of a series of writes tell a terminal that shows
/// text in `from` to show it in `to`.
pub open spec fn takes<'a, S: ?Sized>(ps: Seq<Piece<'a, S>>, from: Style, to: Style) -> bool {
    exists|acts: Seq<TermAction>| actions_code(acts) == codes_of(ps) && run(from, acts) == to
}

// ---- facts about the model ----

proof fn lemma_codes_concat<'a, S: ?Sized>(p: Seq<Piece<'a, S>>, q: Seq<Piece<'a, S>>)
    ensures
        codes_of(p + q) == codes_of(p) + codes_of(q),
    decreases q.len(),
{
    if q.len() == 0 {
        assert(p + q =~= p);
        assert(codes_of(p) + codes_of(q) =~= codes_of(p));
    } else {
        lemma_codes_concat(p, q.drop_last());
        assert((p + q).drop_last() =~= p + q.drop_last());
        assert((p + q).last() == q.last());
        assert(codes_of(p + q) =~= codes_of(p) + codes_of(q));
    }
}

proof fn lemma_codes_one<'a, S: ?Sized>(p: Piece<'a, S>)
    ensures
        codes_of(seq![p]) == match p {
            Piece::Code(c) => c,
            Piece::Text(_) => Seq::<char>::empty(),
        },
{
    let e = Seq::<Piece<'a, S>>::empty();
    assert(seq![p].drop_last() =~= e);
    assert(seq![p].last() == p);
    assert(codes_of(e) == Seq::<char>::empty());
    assert(codes_of(seq![p]) == codes_of(e) + match p {
        Piece::Code(c) => c,
        Piece::Text(_) => Seq::<char>::empty(),
    });
    assert(codes_of(seq![p]) =~= match p {
        Piece::Code(c) => c,
        Piece::Text(_) => Seq::<char>::empty(),
    });
}

proof fn lemma_one_action(state: Style, a: TermAction)
    ensures
        actions_code(seq![a]) == action_code(a),
        run(state, seq![a]) == act(state, a),
{
    let e = Seq::<TermAction>::empty();
    assert(seq![a].drop_last() =~= e);
    assert(seq![a].last() == a);
    assert(actions_code(e) == Seq::<char>::empty());
    assert(run(state, e) == state);
    assert(actions_code(seq![a]) == actions_code(e) + action_code(a));
    assert(run(state, seq![a]) == act(run(state, e), a));
    assert(actions_code(seq![a]) =~= action_code(a));
}

proof fn lemma_actions_concat(state: Style, p: Seq<TermAction>, q: Seq<TermAction>)
    ensures
        actions_code(p + q) == actions_code(p) + actions_code(q),
        run(state, p + q) == run(run(state, p), q),
    decreases q.len(),
{
    if q.len() == 0 {
        assert(p + q =~= p);
        assert(actions_code(p) + actions_code(q) =~= actions_code(p));
    } else {
        lemma_actions_concat(state, p, q.drop_last());
        assert((p + q).drop_last() =~= p + q.drop_last());
        assert((p + q).last() == q.last());
        assert(actions_code(p + q) =~= actions_code(p) + actions_code(q));
    }
}

/// Two actions one after the other.
proof fn lemma_two_actions(state: Style, a: TermAction, b: TermAction)
    ensures
        actions_code(seq![a, b]) == action_code(a) + action_code(b),
        run(state, seq![a, b]) == act(act(state, a), b),
{
    lemma_one_action(state, a);
    lemma_one_action(act(state, a), b);
    lemma_actions_concat(state, seq![a], seq![b]);
    assert(seq![a] + seq![b] =~= seq![a, b]);
}

/// The prefix of the style that only opens a hyperlink is the link's
/// opening code.
proof fn lemma_link_opener_prefix()
    ensures
        prefix_of(osc_style(OSControl::Hyperlink)) == osc_open(OSControl::Hyperlink),
{
    let s = osc_style(OSControl::Hyperlink);
    lemma_no_sgr_params(s);
    assert(sgr_code(s) =~= Seq::<char>::empty());
    assert(prefix_of(s) =~= osc_open(OSControl::Hyperlink));
}

// ---- laws ----

/// Written first, a styled text's codes take a terminal showing plain
/// text to its style, and the text comes after them.
pub proof fn lemma_opening_shows_style<'a, S: ?Sized>(s: AnsiGenericString<'a, S>)
    ensures
        opening(s).last() == Piece::<'a, S>::Text(s.string),
        takes(opening(s), plain_style(), graphic(s.style)),
{
    let p1 = seq![Piece::<'a, S>::Code(prefix_of(s.style))];
    let p2 = osc_argument(s.style.oscontrol, s.params);
    let p3 = seq![Piece::Text(s.string)];
    lemma_codes_concat(p1, p2);
    lemma_codes_concat(p1 + p2, p3);
    lemma_codes_one(p1[0]);
    lemma_codes_one(p3[0]);
    assert(opening(s) == p1 + p2 + p3);
    assert((p1 + p2 + p3).last() == p3[0]);
    let apply = TermAction::Apply(s.style);
    lemma_one_action(plain_style(), apply);
    if p2.len() == 0 {
        assert(codes_of(p2) =~= Seq::<char>::empty()) by {
            assert(p2 =~= Seq::<Piece<'a, S>>::empty());
        }
        assert(codes_of(opening(s)) =~= actions_code(seq![apply]));
    } else {
        let t = seq![Piece::<'a, S>::Text(s.params.unwrap())];
        let c = seq![Piece::<'a, S>::Code(string_terminator())];
        assert(p2 =~= t + c);
        lemma_codes_concat(t, c);
        lemma_codes_one(t[0]);
        lemma_codes_one(c[0]);
        lemma_two_actions(plain_style(), apply, TermAction::EndControl);
        assert(codes_of(opening(s)) =~= actions_code(seq![apply, TermAction::EndControl]));
    }
    let acts = if p2.len() == 0 {
        seq![apply]
    } else {
        seq![apply, TermAction::EndControl]
    };
    assert(actions_code(acts) == codes_of(opening(s)) && run(plain_style(), acts) == graphic(
        s.style,
    ));
}

/// The codes of the address of a link, where it is written.
proof fn lemma_address_codes<'a, S: ?Sized, W: AnyWrite<Wstr = S>>(
    a: AnsiGenericString<'a, S>,
    b: AnsiGenericString<'a, S>,
)
    ensures
        codes_of(
            if needs_link::<S, W>(a, b) {
                link_address(b)
            } else {
                seq![]
            },
        ) == (if needs_link::<S, W>(a, b) {
            string_terminator()
        } else {
            Seq::<char>::empty()
        }),
{
    if needs_link::<S, W>(a, b) {
        let x = seq![Piece::<'a, S>::Text(b.params.unwrap())];
        let y = seq![Piece::<'a, S>::Code(string_terminator())];
        assert(link_address(b) =~= x + y);
        lemma_codes_concat(x, y);
        lemma_codes_one(x[0]);
        lemma_codes_one(y[0]);
        assert(codes_of(link_address(b)) =~= string_terminator());
    } else {
        assert(codes_of(Seq::<Piece<'a, S>>::empty()) == Seq::<char>::empty());
    }
}

/// Codes followed by the text of `b` take the terminal where the codes do,
/// and end with that text.
proof fn lemma_then_text<'a, S: ?Sized>(
    codes: Seq<Piece<'a, S>>,
    b: AnsiGenericString<'a, S>,
    acts: Seq<TermAction>,
    from: Style,
    to: Style,
)
    requires
        actions_code(acts) == codes_of(codes),
        run(from, acts) == to,
    ensures
        (codes + seq![Piece::<'a, S>::Text(b.string)]).last() == Piece::<'a, S>::Text(b.string),
        takes(codes + seq![Piece::<'a, S>::Text(b.string)], from, to),
{
    let text = seq![Piece::<'a, S>::Text(b.string)];
    lemma_codes_one(text[0]);
    lemma_codes_concat(codes, text);
    assert(codes_of(codes + text) =~= codes_of(codes));
}

#[verifier::rlimit(20)]
proof fn lemma_extra_transition<'a, S: ?Sized, W: AnyWrite<Wstr = S>>(
    a: AnsiGenericString<'a, S>,
    b: AnsiGenericString<'a, S>,
)
    requires
        difference(a.style, b.style) is ExtraStyles,
    ensures
        transition::<S, W>(a, b).last() == Piece::<'a, S>::Text(b.string),
        takes(transition::<S, W>(a, b), graphic(a.style), graphic(b.style)),
{
    let from = graphic(a.style);
    let to = graphic(b.style);
    let extra = difference(a.style, b.style)->ExtraStyles_0;
    let needs = needs_link::<S, W>(a, b);
    let addr: Seq<Piece<'a, S>> = if needs {
        link_address(b)
    } else {
        seq![]
    };
    lemma_address_codes::<S, W>(a, b);
    lemma_extra_styles_reach_next(a.style, b.style);
    let c = seq![Piece::<'a, S>::Code(prefix_of(extra))];
    lemma_codes_one(c[0]);
    let apply = TermAction::Apply(extra);
    assert(act(from, apply) == to);
    let end = TermAction::EndControl;
    if needs && extra.oscontrol != Some(OSControl::Hyperlink) {
        let opener = seq![Piece::<'a, S>::Code(osc_open(OSControl::Hyperlink))];
        lemma_codes_one(opener[0]);
        lemma_link_opener_prefix();
        let open_link = TermAction::Apply(osc_style(OSControl::Hyperlink));
        let codes = c + (opener + addr);
        lemma_codes_concat(opener, addr);
        lemma_codes_concat(c, opener + addr);
        let acts = seq![apply, open_link, end];
        lemma_two_actions(from, apply, open_link);
        lemma_actions_concat(from, seq![apply, open_link], seq![end]);
        lemma_one_action(act(act(from, apply), open_link), end);
        assert(seq![apply, open_link] + seq![end] =~= acts);
        assert(actions_code(acts) =~= codes_of(codes));
        lemma_then_text(codes, b, acts, from, to);
        assert(transition::<S, W>(a, b) =~= codes + seq![Piece::<'a, S>::Text(b.string)]);
    } else if needs {
        let codes = c + addr;
        lemma_codes_concat(c, addr);
        let acts = seq![apply, end];
        lemma_two_actions(from, apply, end);
        assert(actions_code(acts) =~= codes_of(codes));
        lemma_then_text(codes, b, acts, from, to);
        assert(transition::<S, W>(a, b) =~= codes + seq![Piece::<'a, S>::Text(b.string)]);
    } else {
        let codes = c + addr;
        lemma_codes_concat(c, addr);
        let acts = seq![apply];
        lemma_one_action(from, apply);
        assert(actions_code(acts) =~= codes_of(codes));
        lemma_then_text(codes, b, acts, from, to);
        assert(transition::<S, W>(a, b) =~= codes + seq![Piece::<'a, S>::Text(b.string)]);
    }
}

#[verifier::rlimit(20)]
proof fn lemma_reset_transition<'a, S: ?Sized, W: AnyWrite<Wstr = S>>(
    a: AnsiGenericString<'a, S>,
    b: AnsiGenericString<'a, S>,
)
    requires
        difference(a.style, b.style) is Reset,
        !(a.style.oscontrol is Some && a.style.oscontrol != Some(OSControl::Hyperlink)
            && b.style.oscontrol is None && graphic(a.style) != plain_style()),
    ensures
        transition::<S, W>(a, b).last() == Piece::<'a, S>::Text(b.string),
        takes(transition::<S, W>(a, b), graphic(a.style), graphic(b.style)),
{
    let from = graphic(a.style);
    let to = graphic(b.style);
    let needs = needs_link::<S, W>(a, b);
    let addr: Seq<Piece<'a, S>> = if needs {
        link_address(b)
    } else {
        seq![]
    };
    lemma_address_codes::<S, W>(a, b);
    let rb = reset_between(a.style, b.style);
    let c = seq![Piece::<'a, S>::Code(rb)];
    lemma_codes_one(c[0]);
    let codes = c + addr;
    lemma_codes_concat(c, addr);
    let apply = TermAction::Apply(b.style);
    let end = TermAction::EndControl;
    let head: Seq<TermAction> = match (a.style.oscontrol, b.style.oscontrol) {
        (Some(OSControl::Hyperlink), None) => seq![TermAction::EndLink, TermAction::Reset],
        (Some(_), None) => seq![TermAction::EndControl],
        _ => seq![TermAction::Reset],
    };
    match (a.style.oscontrol, b.style.oscontrol) {
        (Some(OSControl::Hyperlink), None) => {
            lemma_two_actions(from, TermAction::EndLink, TermAction::Reset);
        },
        (Some(_), None) => {
            lemma_one_action(from, TermAction::EndControl);
        },
        _ => {
            lemma_one_action(from, TermAction::Reset);
        },
    }
    let mid = run(from, head);
    assert(mid == plain_style());
    assert(actions_code(head) + prefix_of(b.style) =~= rb);
    assert(act(mid, apply) == to);
    let tail = if needs {
        seq![apply, end]
    } else {
        seq![apply]
    };
    if needs {
        lemma_two_actions(mid, apply, end);
    } else {
        lemma_one_action(mid, apply);
    }
    let acts = head + tail;
    lemma_actions_concat(from, head, tail);
    assert(actions_code(acts) =~= codes_of(codes));
    lemma_then_text(codes, b, acts, from, to);
    assert(transition::<S, W>(a, b) =~= codes + seq![Piece::<'a, S>::Text(b.string)]);
}

proof fn lemma_empty_transition<'a, S: ?Sized, W: AnyWrite<Wstr = S>>(
    a: AnsiGenericString<'a, S>,
    b: AnsiGenericString<'a, S>,
)
    requires
        difference(a.style, b.style) is Empty,
    ensures
        transition::<S, W>(a, b).last() == Piece::<'a, S>::Text(b.string),
        takes(transition::<S, W>(a, b), graphic(a.style), graphic(b.style)),
{
    let from = graphic(a.style);
    let to = graphic(b.style);
    assert(from == to);
    let needs = needs_link::<S, W>(a, b);
    lemma_address_codes::<S, W>(a, b);
    if needs {
        let addr = link_address(b);
        let opener = seq![Piece::<'a, S>::Code(osc_open(OSControl::Hyperlink))];
        lemma_codes_one(opener[0]);
        lemma_link_opener_prefix();
        let open_link = TermAction::Apply(osc_style(OSControl::Hyperlink));
        let end = TermAction::EndControl;
        let codes = opener + addr;
        lemma_codes_concat(opener, addr);
        let acts = seq![open_link, end];
        lemma_two_actions(from, open_link, end);
        assert(actions_code(acts) =~= codes_of(codes));
        lemma_then_text(codes, b, acts, from, to);
        assert(transition::<S, W>(a, b) =~= codes + seq![Piece::<'a, S>::Text(b.string)]);
    } else {
        let codes = Seq::<Piece<'a, S>>::empty();
        let acts = Seq::<TermAction>::empty();
        assert(codes_of(codes) == Seq::<char>::empty());
        assert(actions_code(acts) == Seq::<char>::empty());
        lemma_then_text(codes, b, acts, from, to);
        assert(transition::<S, W>(a, b) =~= codes + seq![Piece::<'a, S>::Text(b.string)]);
    }
}

/// Between two styled texts, what is written ends with the text of the
/// second, and its codes take a terminal showing text in the first style
/// to the second: attributes and colours that the second lacks are reset,
/// those that it adds are switched on.  The one case left out is the
/// original's own: where a title, icon or working-directory sequence with
/// attributes or colours ends and the next style has no control sequence,
/// only the sequence is terminated, and what it showed stays on.
pub proof fn lemma_transition_shows_next<'a, S: ?Sized, W: AnyWrite<Wstr = S>>(
    a: AnsiGenericString<'a, S>,
    b: AnsiGenericString<'a, S>,
)
    requires
        !leaves_control_colours(a.style, b.style),
    ensures
        transition::<S, W>(a, b).last() == Piece::<'a, S>::Text(b.string),
        takes(transition::<S, W>(a, b), graphic(a.style), graphic(b.style)),
{
    match difference(a.style, b.style) {
        Difference::ExtraStyles(_) => lemma_extra_transition::<S, W>(a, b),
        Difference::Reset => lemma_reset_transition::<S, W>(a, b),
        Difference::Empty => lemma_empty_transition::<S, W>(a, b),
    }
}

/// After the last of a set of styled texts, what is written takes the
/// terminal from the last text's style back to plain text, whatever the
/// styles before it, and holds no text.  The case left out is the
/// original's own: a last style that opens a title, icon or
/// working-directory sequence and has attributes or colours is only
/// terminated.
pub proof fn lemma_set_ends_plain<'a, S: ?Sized, W: AnyWrite<Wstr = S>>(
    strs: Seq<AnsiGenericString<'a, S>>,
)
    requires
        strs.len() > 0,
        !(strs.last().style.oscontrol is Some && strs.last().style.oscontrol != Some(
            OSControl::Hyperlink,
        ) && graphic(strs.last().style) != plain_style()),
    ensures
        ({
            let upto = pieces_upto::<S, W>(strs, strs.len() as int);
            let all = pieces_all::<S, W>(strs);
            let closing = all.subrange(upto.len() as int, all.len() as int);
            &&& upto.len() <= all.len()
            &&& all == upto + closing
            &&& forall|i: int| 0 <= i < closing.len() ==> closing[i] is Code
            &&& takes(closing, graphic(strs.last().style), plain_style())
        }),
{
    let n = strs.len() as int;
    let last = strs.last();
    let upto = pieces_upto::<S, W>(strs, n);
    let all = pieces_all::<S, W>(strs);
    let from = graphic(last.style);
    let closing: Seq<Piece<'a, S>> = if last.style == plain_style() {
        seq![]
    } else {
        seq![Piece::Code(suffix_of(last.style))]
    };
    assert(all == upto + closing);
    assert(all.subrange(upto.len() as int, all.len() as int) =~= closing);
    let acts: Seq<TermAction>;
    if last.style == plain_style() {
        acts = seq![];
        assert(closing =~= Seq::<Piece<'a, S>>::empty());
        assert(from == plain_style());
    } else {
        lemma_codes_one(closing[0]);
        match last.style.oscontrol {
            Some(OSControl::Hyperlink) => {
                acts = seq![TermAction::EndLink, TermAction::Reset];
                lemma_two_actions(from, TermAction::EndLink, TermAction::Reset);
            },
            Some(_) => {
                acts = seq![TermAction::EndControl];
                lemma_one_action(from, TermAction::EndControl);
            },
            None => {
                acts = seq![TermAction::Reset];
                lemma_one_action(from, TermAction::Reset);
            },
        }
    }
    assert(actions_code(acts) =~= codes_of(closing));
    assert(run(from, acts) == plain_style());
    assert(takes(closing, from, plain_style()));
}

/// Whether going from style `a` to style `b` only terminates a title,
/// icon or working-directory sequence of `a` that has attributes or
/// colours, which then stay on: the original writes no reset there.
pub open spec fn leaves_control_colours(a: Style, b: Style) -> bool {
    &&& difference(a, b) is Reset
    &&& a.oscontrol is Some
    &&& a.oscontrol != Some(OSControl::Hyperlink)
    &&& b.oscontrol is None
    &&& graphic(a) != plain_style()
}

/// Codes that take the terminal from `x` to `y`, then codes that take it
/// from `y` to `z`, take it from `x` to `z`.
pub proof fn lemma_takes_concat<'a, S: ?Sized>(
    p: Seq<Piece<'a, S>>,
    q: Seq<Piece<'a, S>>,
    x: Style,
    y: Style,
    z: Style,
)
    requires
        takes(p, x, y),
        takes(q, y, z),
    ensures
        takes(p + q, x, z),
{
    let ap = choose|acts: Seq<TermAction>| actions_code(acts) == codes_of(p) && run(x, acts) == y;
    let aq = choose|acts: Seq<TermAction>| actions_code(acts) == codes_of(q) && run(y, acts) == z;
    lemma_actions_concat(x, ap, aq);
    lemma_codes_concat(p, q);
    assert(actions_code(ap + aq) == codes_of(p + q) && run(x, ap + aq) == z);
}

/// In a set of styled texts, the writes up to each text end with that
/// text, and take a terminal that shows plain text to the text's style:
/// each text is shown in its own style, whatever came before it (but for
/// the original's own case `leaves_control_colours`).
pub proof fn lemma_set_shows_each<'a, S: ?Sized, W: AnyWrite<Wstr = S>>(
    strs: Seq<AnsiGenericString<'a, S>>,
    i: int,
)
    requires
        0 <= i < strs.len(),
        forall|j: int|
            1 <= j <= i ==> !leaves_control_colours(strs[j - 1].style, #[trigger] strs[j].style),
    ensures
        pieces_upto::<S, W>(strs, i + 1).last() == Piece::<'a, S>::Text(strs[i].string),
        takes(pieces_upto::<S, W>(strs, i + 1), plain_style(), graphic(strs[i].style)),
    decreases i,
{
    if i == 0 {
        lemma_opening_shows_style(strs[0]);
    } else {
        lemma_set_shows_each::<S, W>(strs, i - 1);
        assert(!leaves_control_colours(strs[i - 1].style, strs[i].style));
        lemma_transition_shows_next::<S, W>(strs[i - 1], strs[i]);
        let before = pieces_upto::<S, W>(strs, i);
        let t = transition::<S, W>(strs[i - 1], strs[i]);
        assert(pieces_upto::<S, W>(strs, i + 1) == before + t);
        lemma_takes_concat(
            before,
            t,
            plain_style(),
            graphic(strs[i - 1].style),
            graphic(strs[i].style),
        );
        assert((before + t).last() == t.last());
    }
}

/// A whole set of styled texts, written from a terminal that shows plain
/// text, leaves it showing plain text again (but for the original's own
/// cases `leaves_control_colours` and a last style that only terminates
/// a control sequence with colours).
pub proof fn lemma_set_leaves_plain<'a, S: ?Sized, W: AnyWrite<Wstr = S>>(
    strs: Seq<AnsiGenericString<'a, S>>,
)
    requires
        strs.len() > 0,
        forall|j: int|
            1 <= j < strs.len() ==> !leaves_control_colours(
                strs[j - 1].style,
                #[trigger] strs[j].style,
            ),
        !(strs.last().style.oscontrol is Some && strs.last().style.oscontrol != Some(
            OSControl::Hyperlink,
        ) && graphic(strs.last().style) != plain_style()),
    ensures
        takes(pieces_all::<S, W>(strs), plain_style(), plain_style()),
{
    let n = strs.len() as int;
    lemma_set_shows_each::<S, W>(strs, n - 1);
    lemma_set_ends_plain::<S, W>(strs);
    let upto = pieces_upto::<S, W>(strs, n);
    let all = pieces_all::<S, W>(strs);
    let closing = all.subrange(upto.len() as int, all.len() as int);
    assert(strs.last() == strs[n - 1]);
    lemma_takes_concat(upto, closing, plain_style(), graphic(strs[n - 1].style), plain_style());
}

} // verus!
