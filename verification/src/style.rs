//! Inline styles, styled text and width-aware truncation.

use vstd::prelude::*;
use vstd::string::*;
use crate::color::{ColorSpec, ansi_fg, ansi_bg};
use crate::text::{text_width, char_width, display_width_of, width_of_char, chars_of, push_char};

verus! {

/// The style that a `#[...]` directive selects.
#[derive(Debug, Clone, Copy, PartialEq, Eq, Structural)]
pub struct InlineStyle {
    pub fg: ColorSpec,
    pub bg: ColorSpec,
    pub bold: bool,
    pub dim: bool,
    pub fill: bool,
}

/// The style with no attribute and default colours.
pub open spec fn plain_style() -> InlineStyle {
    InlineStyle { fg: ColorSpec::Default, bg: ColorSpec::Default, bold: false, dim: false, fill: false }
}

impl Default for InlineStyle {
    fn default() -> (s: Self)
        ensures
            s == plain_style(),
    {
        InlineStyle {
            fg: ColorSpec::Default,
            bg: ColorSpec::Default,
            bold: false,
            dim: false,
            fill: false,
        }
    }
}

/// The escape sequences of a style: bold, dim, then the two colours.
pub open spec fn style_ansi(st: InlineStyle) -> Seq<char> {
    (if st.bold { "\x1b[1m"@ } else { Seq::empty() }) + (if st.dim { "\x1b[2m"@ } else { Seq::empty() })
        + ansi_fg(st.fg) + ansi_bg(st.bg)
}

/// Whether a style differs from the plain style.
pub open spec fn has_style(st: InlineStyle) -> bool {
    st.fg != ColorSpec::Default || st.bg != ColorSpec::Default || st.bold || st.dim || st.fill
}

impl InlineStyle {
    /// The escape sequences for this style.
    pub fn to_ansi(&self) -> (s: String)
        ensures
            s@ == style_ansi(*self),
    {
        let mut result = String::new();
        if self.bold {
            result.append("\x1b[1m");
        }
        if self.dim {
            result.append("\x1b[2m");
        }
        let fg = self.fg.to_ansi_fg();
        result.append(fg.as_str());
        let bg = self.bg.to_ansi_bg();
        result.append(bg.as_str());
        assert(result@ =~= style_ansi(*self));
        result
    }

    /// Whether any attribute or colour is set.
    pub fn has_any_style(&self) -> (b: bool)
        ensures
            b == has_style(*self),
    {
        !self.fg.is_default() || !self.bg.is_default() || self.bold || self.dim || self.fill
    }
}

/// A piece of text with one style.
#[derive(Debug)]
pub struct StyledSegment {
    pub text: String,
    pub style: InlineStyle,
}

impl Clone for StyledSegment {
    fn clone(&self) -> (r: Self)
        ensures
            r@ == self@,
    {
        StyledSegment { text: self.text.clone(), style: self.style }
    }
}

/// A segment as a value: its characters and its style.
pub type SegView = (Seq<char>, InlineStyle);

impl View for StyledSegment {
    type V = SegView;

    open spec fn view(&self) -> SegView {
        (self.text@, self.style)
    }
}

impl StyledSegment {
    /// Display width of the segment's text.
    pub fn display_width(&self) -> (w: usize)
        ensures
            w == text_width(self.text@),
    {
        display_width_of(self.text.as_str())
    }
}

/// A sequence of styled segments.
#[derive(Debug)]
pub struct StyledText {
    pub segments: Vec<StyledSegment>,
}

impl Clone for StyledText {
    fn clone(&self) -> (r: Self)
        ensures
            r@ == self@,
    {
        let mut segments: Vec<StyledSegment> = Vec::new();
        let mut i: usize = 0;
        while i < self.segments.len()
            invariant
                i <= self.segments@.len(),
                segments@.len() == i,
                forall|k: int| 0 <= k < i ==> segments@[k]@ == self.segments@[k]@,
            decreases self.segments@.len() - i,
        {
            segments.push(self.segments[i].clone());
            i = i + 1;
        }
        let r = StyledText { segments };
        assert(r@ =~= self@);
        r
    }
}

impl View for StyledText {
    type V = Seq<SegView>;

    open spec fn view(&self) -> Seq<SegView> {
        self.segments@.map_values(|s: StyledSegment| s@)
    }
}

/// Sum of the display widths of the segments.
pub open spec fn total_width(v: Seq<SegView>) -> int
    decreases v.len(),
{
    if v.len() == 0 {
        0
    } else {
        total_width(v.drop_last()) + text_width(v.last().0)
    }
}

/// The segment, if its text is not empty (`push` drops empty text).
pub open spec fn keep(seg: SegView) -> Seq<SegView> {
    if seg.0.len() > 0 {
        seq![seg]
    } else {
        Seq::empty()
    }
}

/// The escape sequences and text of the segments, each styled segment
/// preceded by a reset and its style.
pub open spec fn segments_ansi(v: Seq<SegView>) -> Seq<char>
    decreases v.len(),
{
    if v.len() == 0 {
        Seq::empty()
    } else {
        let s = v.last();
        segments_ansi(v.drop_last()) + (if has_style(s.1) {
            "\x1b[0m"@ + style_ansi(s.1)
        } else {
            Seq::empty()
        }) + s.0
    }
}

/// Whether some segment is styled.
pub open spec fn any_styled(v: Seq<SegView>) -> bool {
    exists|i: int| 0 <= i < v.len() && has_style(#[trigger] v[i].1)
}

/// The rendering of styled text: its segments, then a final reset when some
/// segment is styled.
pub open spec fn text_ansi(v: Seq<SegView>) -> Seq<char> {
    segments_ansi(v) + (if any_styled(v) { "\x1b[0m"@ } else { Seq::empty() })
}

/// The longest prefix of `t` whose characters, measured one by one, fit in
/// `room` columns (reading stops at the first character that does not fit).
pub open spec fn fit_prefix(t: Seq<char>, room: int) -> Seq<char>
    decreases t.len(),
{
    if t.len() == 0 {
        t
    } else if char_width(t[0]) > room {
        Seq::empty()
    } else {
        seq![t[0]] + fit_prefix(t.drop_first(), room - char_width(t[0]))
    }
}

/// Sum of the widths of the characters of `t`, each measured alone.
pub open spec fn chars_width(t: Seq<char>) -> int
    decreases t.len(),
{
    if t.len() == 0 {
        0
    } else {
        char_width(t[0]) + chars_width(t.drop_first())
    }
}

/// Segments cut to `remaining` columns: whole segments while they fit, then
/// the fitting prefix of the first one that does not.
pub open spec fn truncate_segs(v: Seq<SegView>, remaining: int) -> Seq<SegView>
    decreases v.len(),
{
    if v.len() == 0 || remaining == 0 {
        Seq::empty()
    } else if text_width(v[0].0) <= remaining {
        keep(v[0]) + truncate_segs(v.drop_first(), remaining - text_width(v[0].0))
    } else {
        keep((fit_prefix(v[0].0, remaining), v[0].1))
    }
}

/// Styled text cut to `max` columns; unchanged when it already fits.
pub open spec fn spec_truncate(v: Seq<SegView>, max: int) -> Seq<SegView> {
    if total_width(v) <= max {
        v
    } else {
        truncate_segs(v, max)
    }
}

proof fn lemma_total_width_prefix(v: Seq<SegView>, i: int, j: int)
    requires
        0 <= i <= j <= v.len(),
    ensures
        total_width(v.take(i)) <= total_width(v.take(j)),
    decreases j - i,
{
    if i < j {
        lemma_total_width_prefix(v, i, j - 1);
        assert(v.take(j).drop_last() =~= v.take(j - 1));
    }
}

impl StyledText {
    pub fn new() -> (t: Self)
        ensures
            t@ == Seq::<SegView>::empty(),
    {
        let t = StyledText { segments: Vec::new() };
        assert(t@ =~= Seq::<SegView>::empty());
        t
    }

    /// Appends a segment, unless its text is empty.
    pub fn push(&mut self, text: String, style: InlineStyle)
        ensures
            final(self)@ == old(self)@ + keep((text@, style)),
    {
        if !text.as_str().is_empty() {
            let ghost before = self@;
            self.segments.push(StyledSegment { text, style });
            assert(self@ =~= before + keep((text@, style)));
        } else {
            assert(self@ =~= old(self)@ + keep((text@, style)));
        }
    }

    /// The display width: the sum of the segments' widths, or `None` when
    /// that sum does not fit in `usize`.
    pub fn display_width(&self) -> (w: Option<usize>)
        ensures
            w matches Some(n) ==> n == total_width(self@),
            w is None ==> total_width(self@) > usize::MAX,
    {
        let mut sum: usize = 0;
        let mut i: usize = 0;
        assert(self@.take(0) =~= Seq::<SegView>::empty());
        while i < self.segments.len()
            invariant
                i <= self@.len(),
                self@.len() == self.segments@.len(),
                sum == total_width(self@.take(i as int)),
            decreases self@.len() - i,
        {
            let w = self.segments[i].display_width();
            assert(self@.take(i + 1).drop_last() =~= self@.take(i as int));
            assert(self@[i as int] == self.segments@[i as int]@);
            match sum.checked_add(w) {
                Some(s) => {
                    sum = s;
                },
                None => {
                    proof {
                        lemma_total_width_prefix(self@, i + 1, self@.len() as int);
                        assert(self@.take(self@.len() as int) =~= self@);
                    }
                    return None;
                },
            }
            i = i + 1;
        }
        assert(self@.take(self@.len() as int) =~= self@);
        Some(sum)
    }

    /// Renders the segments with their escape sequences.
    pub fn to_ansi(&self) -> (s: String)
        ensures
            s@ == text_ansi(self@),
    {
        let mut result = String::new();
        let mut styled = false;
        let mut i: usize = 0;
        assert(self@.take(0) =~= Seq::<SegView>::empty());
        while i < self.segments.len()
            invariant
                i <= self@.len(),
                self@.len() == self.segments@.len(),
                result@ == segments_ansi(self@.take(i as int)),
                styled == any_styled(self@.take(i as int)),
            decreases self@.len() - i,
        {
            let seg = &self.segments[i];
            assert(self@[i as int] == seg@);
            assert(self@.take(i + 1).drop_last() =~= self@.take(i as int));
            assert(self@.take(i + 1).last() == seg@);
            let ghost before = result@;
            if seg.style.has_any_style() {
                result.append("\x1b[0m");
                let st = seg.style.to_ansi();
                result.append(st.as_str());
                styled = true;
                assert(any_styled(self@.take(i + 1))) by {
                    assert(has_style(self@.take(i + 1)[i as int].1));
                }
            } else {
                assert(any_styled(self@.take(i + 1)) == any_styled(self@.take(i as int))) by {
                    if any_styled(self@.take(i + 1)) {
                        let k = choose|k: int| 0 <= k < i + 1 && has_style(#[trigger] self@.take(i + 1)[k].1);
                        assert(k != i);
                        assert(self@.take(i as int)[k] == self@.take(i + 1)[k]);
                    }
                    if any_styled(self@.take(i as int)) {
                        let k = choose|k: int| 0 <= k < i && has_style(#[trigger] self@.take(i as int)[k].1);
                        assert(self@.take(i as int)[k] == self@.take(i + 1)[k]);
                    }
                }
            }
            result.append(seg.text.as_str());
            assert(result@ =~= segments_ansi(self@.take(i + 1)));
            i = i + 1;
        }
        assert(self@.take(self@.len() as int) =~= self@);
        if styled {
            result.append("\x1b[0m");
        }
        assert(result@ =~= text_ansi(self@));
        result
    }

    /// Cuts the text to `max_width` columns (see `spec_truncate`). `None` when
    /// its width does not fit in `usize`.
    pub fn truncate(&self, max_width: usize) -> (r: Option<StyledText>)
        ensures
            r matches Some(t) ==> t@ == spec_truncate(self@, max_width as int),
            r is None <==> total_width(self@) > usize::MAX,
    {
        let total = self.display_width();
        match total {
            None => return None,
            Some(w) => {
                if w <= max_width {
                    return Some(self.clone());
                }
            },
        }
        let mut result = StyledText::new();
        let mut remaining = max_width;
        let mut i: usize = 0;
        let ghost v = self@;
        assert(v.skip(0) =~= v);
        while i < self.segments.len() && remaining > 0
            invariant
                i <= v.len(),
                v == self@,
                v.len() == self.segments@.len(),
                total_width(v) <= usize::MAX,
                total_width(v) > max_width,
                result@ + truncate_segs(v.skip(i as int), remaining as int) == truncate_segs(
                    v,
                    max_width as int,
                ),
            decreases v.len() - i,
        {
            let seg = &self.segments[i];
            assert(v[i as int] == seg@);
            assert(v.skip(i as int)[0] == seg@);
            assert(v.skip(i as int).drop_first() =~= v.skip(i + 1));
            let seg_width = seg.display_width();
            if seg_width <= remaining {
                result.push(seg.text.clone(), seg.style);
                remaining = remaining - seg_width;
                i = i + 1;
            } else {
                let cut = fit_text(seg.text.as_str(), remaining);
                assert(truncate_segs(v.skip(i as int), remaining as int) == keep(
                    (fit_prefix(seg@.0, remaining as int), seg@.1),
                ));
                result.push(cut, seg.style);
                assert(result@ =~= truncate_segs(v, max_width as int));
                return Some(result);
            }
        }
        assert(truncate_segs(v.skip(i as int), remaining as int) =~= Seq::<SegView>::empty());
        assert(result@ =~= truncate_segs(v, max_width as int));
        Some(result)
    }
}

/// The characters of `t` that fit in `room` columns (see `fit_prefix`).
pub fn fit_text(t: &str, room: usize) -> (r: String)
    ensures
        r@ == fit_prefix(t@, room as int),
{
    let v = chars_of(t);
    let mut out = String::new();
    let mut width: usize = 0;
    let mut k: usize = 0;
    assert(v@.skip(0) =~= v@);
    while k < v.len()
        invariant
            k <= v@.len(),
            v@ == t@,
            width <= room,
            out@ + fit_prefix(v@.skip(k as int), room - width) == fit_prefix(v@, room as int),
        decreases v@.len() - k,
    {
        let c = v[k];
        let cw = width_of_char(c);
        assert(v@.skip(k as int)[0] == c);
        assert(v@.skip(k as int).drop_first() =~= v@.skip(k + 1));
        if cw > room - width {
            assert(fit_prefix(v@.skip(k as int), room - width) =~= Seq::<char>::empty());
            assert(out@ =~= fit_prefix(v@, room as int));
            return out;
        }
        push_char(&mut out, c);
        width = width + cw;
        k = k + 1;
        assert(out@ + fit_prefix(v@.skip(k as int), room - width) =~= fit_prefix(v@, room as int));
    }
    assert(v@.skip(k as int) =~= Seq::<char>::empty());
    assert(out@ =~= fit_prefix(v@, room as int));
    out
}

} // verus!

verus! {

/// `n` copies of `c`.
pub open spec fn repeat_char(c: char, n: nat) -> Seq<char> {
    Seq::new(n, |_i: int| c)
}

/// Appends `n` copies of `c`.
pub fn push_repeated(s: &mut String, c: char, n: usize)
    ensures
        final(s)@ == old(s)@ + repeat_char(c, n as nat),
{
    let mut i: usize = 0;
    while i < n
        invariant
            i <= n,
            s@ == old(s)@ + repeat_char(c, i as nat),
        decreases n - i,
    {
        push_char(s, c);
        i = i + 1;
        assert(s@ =~= old(s)@ + repeat_char(c, i as nat));
    }
    assert(s@ =~= old(s)@ + repeat_char(c, n as nat));
}

/// `n` copies of `c`, as a string.
pub fn repeated(c: char, n: usize) -> (s: String)
    ensures
        s@ == repeat_char(c, n as nat),
{
    let mut s = String::new();
    push_repeated(&mut s, c, n);
    assert(s@ =~= repeat_char(c, n as nat));
    s
}

/// The characters of `t` that fit in `room` columns, measured one by one,
/// followed by `"..."` when some character does not fit.
pub open spec fn ellipsize(t: Seq<char>, room: int) -> Seq<char>
    decreases t.len(),
{
    if t.len() == 0 {
        t
    } else if char_width(t[0]) > room {
        "..."@
    } else {
        seq![t[0]] + ellipsize(t.drop_first(), room - char_width(t[0]))
    }
}

/// A text shortened to `max` columns: unchanged when it fits, only dots when
/// `max` is 3 or less, else the characters that leave room for `"..."`
/// followed by `"..."`.
pub open spec fn spec_truncate_string(s: Seq<char>, max: nat) -> Seq<char> {
    if text_width(s) <= max {
        s
    } else if max <= 3 {
        repeat_char('.', max)
    } else {
        ellipsize(s, max - 3)
    }
}

/// Shortens `s` to `max_width` columns (see `spec_truncate_string`).
pub fn truncate_string(s: &str, max_width: usize) -> (r: String)
    ensures
        r@ == spec_truncate_string(s@, max_width as nat),
{
    if display_width_of(s) <= max_width {
        return s.to_owned();
    }
    if max_width <= 3 {
        return repeated('.', max_width);
    }
    let room = max_width - 3;
    let v = chars_of(s);
    let mut out = String::new();
    let mut width: usize = 0;
    let mut k: usize = 0;
    assert(v@.skip(0) =~= v@);
    while k < v.len()
        invariant
            k <= v@.len(),
            v@ == s@,
            text_width(s@) > max_width,
            max_width > 3,
            room == max_width - 3,
            width <= room,
            out@ + ellipsize(v@.skip(k as int), room - width) == ellipsize(v@, room as int),
        decreases v@.len() - k,
    {
        let c = v[k];
        let cw = width_of_char(c);
        assert(v@.skip(k as int)[0] == c);
        assert(v@.skip(k as int).drop_first() =~= v@.skip(k + 1));
        if cw > room - width {
            assert(ellipsize(v@.skip(k as int), room - width) == "..."@);
            out.append("...");
            assert(out@ =~= ellipsize(v@, room as int));
            return out;
        }
        push_char(&mut out, c);
        width = width + cw;
        k = k + 1;
        assert(out@ + ellipsize(v@.skip(k as int), room - width) =~= ellipsize(v@, room as int));
    }
    assert(v@.skip(k as int) =~= Seq::<char>::empty());
    assert(out@ =~= ellipsize(v@, room as int));
    out
}

} // verus!

verus! {

/// The texts of the segments, one after the other.
pub open spec fn joined(v: Seq<SegView>) -> Seq<char>
    decreases v.len(),
{
    if v.len() == 0 {
        Seq::empty()
    } else {
        v[0].0 + joined(v.drop_first())
    }
}

/// Whether `a` is a prefix of `b`.
pub open spec fn prefix_of(a: Seq<char>, b: Seq<char>) -> bool {
    a.len() <= b.len() && b.take(a.len() as int) == a
}

proof fn lemma_fit_prefix_is_prefix(t: Seq<char>, room: int)
    ensures
        prefix_of(fit_prefix(t, room), t),
    decreases t.len(),
{
    if t.len() > 0 && char_width(t[0]) <= room {
        let rest = fit_prefix(t.drop_first(), room - char_width(t[0]));
        lemma_fit_prefix_is_prefix(t.drop_first(), room - char_width(t[0]));
        assert(fit_prefix(t, room) == seq![t[0]] + rest);
        assert(t.take(rest.len() + 1int) =~= seq![t[0]] + t.drop_first().take(rest.len() as int));
    } else if t.len() > 0 {
        assert(fit_prefix(t, room) == Seq::<char>::empty());
        assert(t.take(0) =~= Seq::<char>::empty());
    } else {
        assert(t.take(0) =~= t);
    }
}

proof fn lemma_prefix_extend(p: Seq<char>, a: Seq<char>, b: Seq<char>)
    requires
        prefix_of(a, b),
    ensures
        prefix_of(p + a, p + b),
{
    assert((p + b).take((p + a).len() as int) =~= p + a) by {
        assert(b.take(a.len() as int) == a);
    }
}

proof fn lemma_prefix_of_joined(a: Seq<char>, v: Seq<SegView>)
    requires
        v.len() > 0,
        prefix_of(a, v[0].0),
    ensures
        prefix_of(a, joined(v)),
{
    assert(joined(v) == v[0].0 + joined(v.drop_first()));
    assert(joined(v).take(a.len() as int) =~= v[0].0.take(a.len() as int));
}

proof fn lemma_truncate_segs_prefix(v: Seq<SegView>, rem: int)
    requires
        forall|i: int| 0 <= i < v.len() ==> (#[trigger] v[i]).0.len() > 0,
    ensures
        prefix_of(joined(truncate_segs(v, rem)), joined(v)),
        truncate_segs(v, rem).len() <= v.len(),
        forall|k: int| 0 <= k < truncate_segs(v, rem).len() ==> (#[trigger] truncate_segs(v, rem)[k]).1 == v[k].1,
        forall|k: int| 0 <= k && k + 1 < truncate_segs(v, rem).len() ==> (#[trigger] truncate_segs(v, rem)[k]) == v[k],
    decreases v.len(),
{
    let r = truncate_segs(v, rem);
    if v.len() == 0 || rem == 0 {
        assert(joined(r) =~= Seq::<char>::empty());
        assert(joined(v).take(0) =~= Seq::<char>::empty());
    } else if text_width(v[0].0) <= rem {
        let t = v.drop_first();
        assert forall|i: int| 0 <= i < t.len() implies (#[trigger] t[i]).0.len() > 0 by {
            assert(t[i] == v[i + 1]);
        }
        lemma_truncate_segs_prefix(t, rem - text_width(v[0].0));
        let rt = truncate_segs(t, rem - text_width(v[0].0));
        assert(keep(v[0]) == seq![v[0]]);
        assert(r == seq![v[0]] + rt);
        assert(r.drop_first() =~= rt);
        assert(joined(r) == v[0].0 + joined(rt));
        assert(joined(v) == v[0].0 + joined(t));
        lemma_prefix_extend(v[0].0, joined(rt), joined(t));
        assert forall|k: int| 0 <= k < r.len() implies (#[trigger] r[k]).1 == v[k].1 by {
            if k > 0 {
                assert(r[k] == rt[k - 1]);
                assert(t[k - 1] == v[k]);
            }
        }
        assert forall|k: int| 0 <= k && k + 1 < r.len() implies (#[trigger] r[k]) == v[k] by {
            if k > 0 {
                assert(r[k] == rt[k - 1]);
                assert(t[k - 1] == v[k]);
            }
        }
    } else {
        let f = fit_prefix(v[0].0, rem);
        lemma_fit_prefix_is_prefix(v[0].0, rem);
        if f.len() > 0 {
            assert(r == seq![(f, v[0].1)]);
            assert(r.drop_first() =~= Seq::<SegView>::empty());
            assert(joined(r.drop_first()) == Seq::<char>::empty());
            assert(r[0].0 == f);
            assert(joined(r) =~= f);
            lemma_prefix_of_joined(f, v);
        } else {
            assert(r =~= Seq::<SegView>::empty());
            assert(joined(r) =~= Seq::<char>::empty());
            assert(joined(v).take(0) =~= Seq::<char>::empty());
        }
    }
}

/// Cutting styled text to a width only drops text at its end: the text kept
/// is a prefix of the whole text, every kept segment keeps its style, and
/// all kept segments but the last are kept whole. Text that fits is kept
/// as it is.
pub proof fn law_truncate_keeps_prefix(v: Seq<SegView>, max: int)
    requires
        forall|i: int| 0 <= i < v.len() ==> (#[trigger] v[i]).0.len() > 0,
    ensures
        prefix_of(joined(spec_truncate(v, max)), joined(v)),
        spec_truncate(v, max).len() <= v.len(),
        forall|k: int| 0 <= k < spec_truncate(v, max).len() ==> (#[trigger] spec_truncate(v, max)[k]).1 == v[k].1,
        forall|k: int| 0 <= k && k + 1 < spec_truncate(v, max).len() ==> (#[trigger] spec_truncate(v, max)[k]) == v[k],
        total_width(v) <= max ==> spec_truncate(v, max) == v,
{
    if total_width(v) <= max {
        assert(joined(v).take(joined(v).len() as int) =~= joined(v));
    } else {
        lemma_truncate_segs_prefix(v, max);
    }
}

} // verus!
