//! Tmux-like format strings: `#[fg=..,bg=..,bold,dim,fill]` style
//! directives, `{variable}` / `#{variable}` / `{=width:variable}` variables,
//! and literal text.

use vstd::prelude::*;
use vstd::string::*;
use crate::color::{ColorSpec, spec_parse_color, parse_color_chars};
use crate::style::{InlineStyle, plain_style, StyledText, SegView, keep};
use crate::text::{
    find_char, lemma_find_char, find, slice_chars, chars_of, string_of, split_at_char,
    split_chars, trim, trimmed, has_prefix, starts_with, same_chars, parse_unsigned,
    parse_unsigned_chars, views,
};

verus! {

/// A piece of a format string.
#[derive(Debug)]
pub enum FormatToken {
    /// A style directive: `#[fg=color,bg=color,bold,dim,fill]`.
    Style(InlineStyle),
    /// A variable with an optional width: `{var}` or `{=12:var}`.
    Variable { name: String, width: Option<usize> },
    /// Plain text.
    Literal(String),
}

/// A token as a value.
pub enum TokenView {
    Style(InlineStyle),
    Variable(Seq<char>, Option<usize>),
    Literal(Seq<char>),
}

impl View for FormatToken {
    type V = TokenView;

    open spec fn view(&self) -> TokenView {
        match self {
            FormatToken::Style(st) => TokenView::Style(*st),
            FormatToken::Variable { name, width } => TokenView::Variable(name@, *width),
            FormatToken::Literal(t) => TokenView::Literal(t@),
        }
    }
}

/// A token before its content is interpreted.
pub enum RawToken {
    Style(Seq<char>),
    Var(Seq<char>),
    Lit(Seq<char>),
}

/// The characters of `t` before the first `stop`, and those after it; all
/// of `t` and nothing when `stop` does not occur.
pub open spec fn take_until(t: Seq<char>, stop: char) -> (Seq<char>, Seq<char>) {
    match find_char(t, stop) {
        Some(k) => (t.take(k), t.skip(k + 1)),
        None => (t, Seq::empty()),
    }
}

pub proof fn lemma_take_until_shorter(t: Seq<char>, stop: char)
    ensures
        take_until(t, stop).1.len() < t.len() || t.len() == 0,
{
    lemma_find_char(t, stop);
}

/// The pending literal, as a token when it is not empty.
pub open spec fn flush(lit: Seq<char>) -> Seq<RawToken> {
    if lit.len() > 0 {
        seq![RawToken::Lit(lit)]
    } else {
        Seq::empty()
    }
}

/// Splits a format string into tokens; `lit` is literal text read so far.
pub open spec fn lex(s: Seq<char>, lit: Seq<char>) -> Seq<RawToken>
    decreases s.len(),
{
    if s.len() == 0 {
        flush(lit)
    } else if s[0] == '#' && s.len() > 1 && s[1] == '[' {
        let (c, rest) = take_until(s.skip(2), ']');
        proof {
            lemma_take_until_shorter(s.skip(2), ']');
        }
        flush(lit) + seq![RawToken::Style(c)] + lex(rest, Seq::empty())
    } else if s[0] == '#' && s.len() > 1 && s[1] == '{' {
        let (c, rest) = take_until(s.skip(2), '}');
        proof {
            lemma_take_until_shorter(s.skip(2), '}');
        }
        flush(lit) + seq![RawToken::Var(c)] + lex(rest, Seq::empty())
    } else if s[0] == '{' {
        let (c, rest) = take_until(s.skip(1), '}');
        proof {
            lemma_take_until_shorter(s.skip(1), '}');
        }
        flush(lit) + seq![RawToken::Var(c)] + lex(rest, Seq::empty())
    } else {
        lex(s.drop_first(), lit.push(s[0]))
    }
}

/// The tokens of a format string, before interpretation.
pub open spec fn raw_tokens(s: Seq<char>) -> Seq<RawToken> {
    lex(s, Seq::empty())
}

// ---------------------------------------------------------------------------
// Variables
// ---------------------------------------------------------------------------

/// The variable token for the text between braces: `=W:name` gives `name`
/// with width `W` when `W` is a decimal number; anything else is a variable
/// named by the whole text, without width.
pub open spec fn variable_token(content: Seq<char>) -> TokenView {
    if content.len() > 0 && content[0] == '=' {
        let rest = content.drop_first();
        match find_char(rest, ':') {
            Some(k) => match parse_unsigned(rest.take(k), usize::MAX as nat) {
                Some(w) => TokenView::Variable(rest.skip(k + 1), Some(w as usize)),
                None => TokenView::Variable(content, None),
            },
            None => TokenView::Variable(content, None),
        }
    } else {
        TokenView::Variable(content, None)
    }
}

/// Interprets the text between the braces of a variable.
pub fn parse_variable(content: &[char]) -> (t: FormatToken)
    ensures
        t@ == variable_token(content@),
{
    if content.len() > 0 && content[0] == '=' {
        let rest = slice_chars(content, 1, content.len());
        assert(rest@ =~= content@.drop_first());
        match find(&rest, ':') {
            Some(k) => {
                proof {
                    lemma_find_char(rest@, ':');
                }
                let w = slice_chars(&rest, 0, k);
                assert(w@ =~= rest@.take(k as int));
                match parse_unsigned_chars(&w, usize::MAX) {
                    Some(width) => {
                        let name = slice_chars(&rest, k + 1, rest.len());
                        assert(name@ =~= rest@.skip(k + 1));
                        return FormatToken::Variable { name: string_of(&name), width: Some(width) };
                    },
                    None => {},
                }
            },
            None => {},
        }
    }
    FormatToken::Variable { name: string_of(content), width: None }
}

// ---------------------------------------------------------------------------
// Style directives
// ---------------------------------------------------------------------------

/// The effect of one (trimmed) part of a style directive on the style read
/// so far.
pub open spec fn apply_part(st: InlineStyle, p: Seq<char>) -> InlineStyle {
    if p.len() == 0 {
        st
    } else if has_prefix(p, "fg="@) {
        InlineStyle { fg: spec_parse_color(p.skip(3)), ..st }
    } else if has_prefix(p, "bg="@) {
        InlineStyle { bg: spec_parse_color(p.skip(3)), ..st }
    } else if p == "bold"@ {
        InlineStyle { bold: true, ..st }
    } else if p == "dim"@ {
        InlineStyle { dim: true, ..st }
    } else if p == "fill"@ {
        InlineStyle { fill: true, ..st }
    } else if p == "default"@ || p == "none"@ || p == "reset"@ {
        plain_style()
    } else {
        st
    }
}

/// The style after the given comma-separated parts, applied in order to the
/// plain style.
pub open spec fn apply_parts(parts: Seq<Seq<char>>) -> InlineStyle
    decreases parts.len(),
{
    if parts.len() == 0 {
        plain_style()
    } else {
        apply_part(apply_parts(parts.drop_last()), trim(parts.last()))
    }
}

/// The style that a directive's content selects.
pub open spec fn spec_directive(content: Seq<char>) -> InlineStyle {
    apply_parts(split_at_char(content, ','))
}

fn apply_part_exec(st: InlineStyle, p: &[char]) -> (r: InlineStyle)
    ensures
        r == apply_part(st, p@),
{
    proof {
        reveal_strlit("fg=");
        reveal_strlit("bg=");
    }
    if p.len() == 0 {
        st
    } else if starts_with(p, "fg=") {
        let rest = slice_chars(p, 3, p.len());
        assert(rest@ =~= p@.skip(3));
        InlineStyle { fg: parse_color_chars(&rest), ..st }
    } else if starts_with(p, "bg=") {
        let rest = slice_chars(p, 3, p.len());
        assert(rest@ =~= p@.skip(3));
        InlineStyle { bg: parse_color_chars(&rest), ..st }
    } else if chars_are(p, "bold") {
        InlineStyle { bold: true, ..st }
    } else if chars_are(p, "dim") {
        InlineStyle { dim: true, ..st }
    } else if chars_are(p, "fill") {
        InlineStyle { fill: true, ..st }
    } else if chars_are(p, "default") || chars_are(p, "none") || chars_are(p, "reset") {
        InlineStyle::default()
    } else {
        st
    }
}

/// Whether `p` holds exactly the characters of `w`.
pub fn chars_are(p: &[char], w: &str) -> (b: bool)
    ensures
        b == (p@ == w@),
{
    let wv = chars_of(w);
    same_chars(p, &wv)
}

/// Computes `spec_directive`.
pub fn directive_chars(content: &[char]) -> (r: InlineStyle)
    ensures
        r == spec_directive(content@),
{
    let parts = split_chars(content, ',');
    let ghost ps = split_at_char(content@, ',');
    let mut st = InlineStyle::default();
    let mut i: usize = 0;
    assert(ps.take(0) =~= Seq::<Seq<char>>::empty());
    while i < parts.len()
        invariant
            views(parts@) == ps,
            ps == split_at_char(content@, ','),
            i <= ps.len(),
            apply_parts(ps.take(i as int)) == st,
        decreases ps.len() - i,
    {
        let p = trimmed(&parts[i]);
        assert(parts@[i as int]@ == ps[i as int]);
        assert(ps.take(i + 1).drop_last() =~= ps.take(i as int));
        assert(ps.take(i + 1).last() == ps[i as int]);
        assert(apply_parts(ps.take(i + 1)) == apply_part(st, p@));
        st = apply_part_exec(st, &p);
        i = i + 1;
    }
    assert(ps.take(ps.len() as int) =~= ps);
    st
}

/// Parses a style directive's content (the text between `#[` and `]`).
pub fn parse_style_directive(content: &str) -> (st: InlineStyle)
    ensures
        st == spec_directive(content@),
{
    let v = chars_of(content);
    directive_chars(&v)
}

} // verus!

verus! {

// ---------------------------------------------------------------------------
// Whole format strings
// ---------------------------------------------------------------------------

/// The meaning of a raw token.
pub open spec fn cook(r: RawToken) -> TokenView {
    match r {
        RawToken::Style(c) => TokenView::Style(spec_directive(c)),
        RawToken::Var(c) => variable_token(c),
        RawToken::Lit(l) => TokenView::Literal(l),
    }
}

/// The tokens of the format string `s`.
pub open spec fn format_tokens(s: Seq<char>) -> Seq<TokenView> {
    raw_tokens(s).map_values(|r: RawToken| cook(r))
}

/// The views of a sequence of tokens.
pub open spec fn token_views(t: Seq<FormatToken>) -> Seq<TokenView> {
    t.map_values(|x: FormatToken| x@)
}

/// The characters from `start` up to the first `stop`, and the index just
/// after that `stop` (or the end).
fn scan_until(v: &[char], start: usize, stop: char) -> (r: (Vec<char>, usize))
    requires
        start <= v@.len(),
    ensures
        take_until(v@.skip(start as int), stop) == (r.0@, v@.skip(r.1 as int)),
        start <= r.1 <= v@.len(),
{
    let tail = slice_chars(v, start, v.len());
    assert(tail@ =~= v@.skip(start as int));
    match find(&tail, stop) {
        Some(k) => {
            proof {
                lemma_find_char(tail@, stop);
            }
            let content = slice_chars(&tail, 0, k);
            assert(content@ =~= tail@.take(k as int));
            assert(tail@.skip(k + 1) =~= v@.skip(start + k + 1));
            (content, start + k + 1)
        },
        None => {
            assert(v@.skip(v@.len() as int) =~= Seq::<char>::empty());
            (tail, v.len())
        },
    }
}

/// Reads a format string.
pub fn format_chars(v: &[char]) -> (r: Vec<FormatToken>)
    ensures
        token_views(r@) == format_tokens(v@),
{
    let ghost whole = raw_tokens(v@);
    let ghost mut raw: Seq<RawToken> = Seq::empty();
    let mut tokens: Vec<FormatToken> = Vec::new();
    let mut lit: Vec<char> = Vec::new();
    let mut i: usize = 0;
    assert(v@.skip(0) =~= v@);
    while i < v.len()
        invariant
            i <= v@.len(),
            whole == raw_tokens(v@),
            raw + lex(v@.skip(i as int), lit@) == whole,
            tokens@.len() == raw.len(),
            forall|k: int| 0 <= k < raw.len() ==> cook(#[trigger] raw[k]) == tokens@[k]@,
        decreases v@.len() - i,
    {
        let c = v[i];
        let ghost s = v@.skip(i as int);
        assert(s[0] == c);
        if c == '#' && i + 1 < v.len() && v[i + 1] == '[' {
            assert(s[1] == v@[i + 1]);
            assert(s.skip(2) =~= v@.skip(i + 2));
            let (content, next) = scan_until(v, i + 2, ']');
            let ghost before = raw;
            let ghost old_lit = lit@;
            let ghost old_tokens = tokens@;
            self::flush_literal(&mut tokens, &mut lit);
            proof {
                raw = raw + flush(old_lit);
                assert forall|k: int| 0 <= k < raw.len() implies cook(#[trigger] raw[k]) == tokens@[k]@ by {
                    if k < before.len() {
                        assert(tokens@[k] == old_tokens[k]);
                    }
                }

                raw = raw.push(RawToken::Style(content@));
            }
            let st = directive_chars(&content);
            tokens.push(FormatToken::Style(st));
            i = next;
            assert(raw + lex(v@.skip(i as int), lit@) =~= whole);
        } else if (c == '#' && i + 1 < v.len() && v[i + 1] == '{') || c == '{' {
            let start: usize = if c == '{' { i + 1 } else { i + 2 };
            proof {
                if c == '{' {
                    assert(s.skip(1) =~= v@.skip(i + 1));
                } else {
                    assert(s[1] == v@[i + 1]);
                    assert(s.skip(2) =~= v@.skip(i + 2));
                }
            }
            let (content, next) = scan_until(v, start, '}');
            let ghost before = raw;
            let ghost old_lit = lit@;
            let ghost old_tokens = tokens@;
            self::flush_literal(&mut tokens, &mut lit);
            proof {
                raw = raw + flush(old_lit);
                assert forall|k: int| 0 <= k < raw.len() implies cook(#[trigger] raw[k]) == tokens@[k]@ by {
                    if k < before.len() {
                        assert(tokens@[k] == old_tokens[k]);
                    }
                }

                raw = raw.push(RawToken::Var(content@));
            }
            tokens.push(parse_variable(&content));
            i = next;
            assert(raw + lex(v@.skip(i as int), lit@) =~= whole);
        } else {
            lit.push(c);
            assert(s.drop_first() =~= v@.skip(i + 1));
            i = i + 1;
        }
    }
    assert(v@.skip(i as int) =~= Seq::<char>::empty());
    let ghost before = raw;
    let ghost old_lit = lit@;
    let ghost old_tokens = tokens@;
    self::flush_literal(&mut tokens, &mut lit);
    proof {
        raw = raw + flush(old_lit);
        assert forall|k: int| 0 <= k < raw.len() implies cook(#[trigger] raw[k]) == tokens@[k]@ by {
            if k < before.len() {
                assert(tokens@[k] == old_tokens[k]);
            }
        }
    }
    assert(raw =~= whole);
    assert(token_views(tokens@) =~= format_tokens(v@));
    tokens
}

/// Emits the pending literal as a token, if it is not empty.
fn flush_literal(tokens: &mut Vec<FormatToken>, lit: &mut Vec<char>)
    ensures
        final(lit)@ == Seq::<char>::empty(),
        old(lit)@.len() > 0 ==> final(tokens)@.len() == old(tokens)@.len() + 1 && final(tokens)@.last()@
            == TokenView::Literal(old(lit)@) && final(tokens)@.drop_last() == old(tokens)@,
        old(lit)@.len() == 0 ==> final(tokens)@ == old(tokens)@,
{
    if lit.len() > 0 {
        let text = string_of(lit);
        tokens.push(FormatToken::Literal(text));
        assert(tokens@.drop_last() =~= old(tokens)@);
        *lit = Vec::new();
    } else {
        *lit = Vec::new();
    }
}

/// Splits a format string into tokens.
pub fn parse_tmux_format(format: &str) -> (t: Vec<FormatToken>)
    ensures
        token_views(t@) == format_tokens(format@),
{
    let v = chars_of(format);
    format_chars(&v)
}

} // verus!

verus! {

/// The styled text of a token sequence in which variables are not expanded
/// but kept as `{name}`; `cur` is the style in force.
pub open spec fn styled_tokens(toks: Seq<TokenView>, cur: InlineStyle) -> Seq<SegView>
    decreases toks.len(),
{
    if toks.len() == 0 {
        Seq::empty()
    } else {
        match toks[0] {
            TokenView::Style(st) => styled_tokens(toks.drop_first(), st),
            TokenView::Literal(l) => keep((l, cur)) + styled_tokens(toks.drop_first(), cur),
            TokenView::Variable(n, _) => keep(("{"@ + n + "}"@, cur)) + styled_tokens(
                toks.drop_first(),
                cur,
            ),
        }
    }
}

/// The styled text of a format string such as a border, with variables
/// kept as written.
pub open spec fn spec_styled_string(s: Seq<char>) -> Seq<SegView> {
    styled_tokens(format_tokens(s), plain_style())
}

/// Computes the styled text of a format string.
pub fn styled_chars(v: &[char]) -> (r: StyledText)
    ensures
        r@ == spec_styled_string(v@),
{
    let tokens = format_chars(v);
    let ghost tv = token_views(tokens@);
    let mut result = StyledText::new();
    let mut cur = InlineStyle::default();
    let mut i: usize = 0;
    assert(tv.skip(0) =~= tv);
    while i < tokens.len()
        invariant
            i <= tokens@.len(),
            tv == token_views(tokens@),
            tv == format_tokens(v@),
            result@ + styled_tokens(tv.skip(i as int), cur) == spec_styled_string(v@),
        decreases tokens@.len() - i,
    {
        assert(tv.skip(i as int)[0] == tokens@[i as int]@);
        assert(tv.skip(i as int).drop_first() =~= tv.skip(i + 1));
        match &tokens[i] {
            FormatToken::Style(st) => {
                cur = *st;
            },
            FormatToken::Literal(text) => {
                result.push(text.clone(), cur);
                assert(result@ + styled_tokens(tv.skip(i + 1), cur) =~= spec_styled_string(v@));
            },
            FormatToken::Variable { name, .. } => {
                let mut t = String::new();
                t.append("{");
                t.append(name.as_str());
                t.append("}");
                result.push(t, cur);
                assert(result@ + styled_tokens(tv.skip(i + 1), cur) =~= spec_styled_string(v@));
            },
        }
        i = i + 1;
    }
    assert(tv.skip(i as int) =~= Seq::<TokenView>::empty());
    assert(result@ =~= spec_styled_string(v@));
    result
}

/// The styled text of a format string whose variables are kept as written
/// (borders, separators, overflow markers).
pub fn parse_styled_string(s: &str) -> (t: StyledText)
    ensures
        t@ == spec_styled_string(s@),
{
    let v = chars_of(s);
    styled_chars(&v)
}

} // verus!

verus! {

proof fn lemma_lex_plain(s: Seq<char>, lit: Seq<char>)
    requires
        forall|i: int| 0 <= i < s.len() ==> s[i] != '#' && s[i] != '{',
    ensures
        lex(s, lit) == flush(lit + s),
    decreases s.len(),
{
    if s.len() == 0 {
        assert(lit + s =~= lit);
    } else {
        lemma_lex_plain(s.drop_first(), lit.push(s[0]));
        assert(lit.push(s[0]) + s.drop_first() =~= lit + s);
    }
}

/// A text without `#` and `{` is plain text: it is one literal token, and as styled text it is one unstyled segment that
/// renders as the text itself.
pub proof fn law_plain_text_renders_as_itself(s: Seq<char>)
    requires
        s.len() > 0,
        forall|i: int| 0 <= i < s.len() ==> s[i] != '#' && s[i] != '{',
    ensures
        format_tokens(s) == seq![TokenView::Literal(s)],
        spec_styled_string(s) == seq![(s, plain_style())],
        crate::style::text_ansi(spec_styled_string(s)) == s,
{
    lemma_lex_plain(s, Seq::empty());
    assert(Seq::<char>::empty() + s =~= s);
    assert(raw_tokens(s) =~= seq![RawToken::Lit(s)]);
    assert(format_tokens(s) =~= seq![TokenView::Literal(s)]);
    let toks = format_tokens(s);
    assert(toks.drop_first() =~= Seq::<TokenView>::empty());
    assert(toks[0] == TokenView::Literal(s));
    assert(keep((s, plain_style())) == seq![(s, plain_style())]);
    assert(styled_tokens(toks.drop_first(), plain_style()) == Seq::<SegView>::empty());
    assert(styled_tokens(toks, plain_style()) =~= seq![(s, plain_style())]);
    let v = seq![(s, plain_style())];
    assert(v.drop_last() =~= Seq::<SegView>::empty());
    assert(v.last() == (s, plain_style()));
    assert(!crate::style::has_style(plain_style()));
    assert(crate::style::segments_ansi(v.drop_last()) == Seq::<char>::empty());
    assert(crate::style::segments_ansi(v) =~= s);
    assert(!crate::style::any_styled(v));
}

proof fn lemma_split_tail(a: Seq<char>, b: Seq<char>, sep: char)
    requires
        forall|i: int| 0 <= i < b.len() ==> b[i] != sep,
    ensures
        split_at_char(a.push(sep) + b, sep) == split_at_char(a, sep).push(b),
    decreases b.len(),
{
    crate::text::lemma_split_nonempty(a, sep);
    if b.len() == 0 {
        assert(a.push(sep) + b =~= a.push(sep));
        assert(a.push(sep).drop_last() =~= a);
        assert(a.push(sep).last() == sep);
        assert(b =~= Seq::<char>::empty());
    } else {
        lemma_split_tail(a, b.drop_last(), sep);
        assert((a.push(sep) + b).last() == b.last());
        assert(b.last() != sep);
        assert((a.push(sep) + b).drop_last() =~= a.push(sep) + b.drop_last());
        let p = split_at_char(a.push(sep) + b.drop_last(), sep);
        assert(p.update(p.len() - 1, p.last().push(b.last())) =~= split_at_char(a, sep).push(b)) by {
            assert(b.drop_last().push(b.last()) =~= b);
        }
    }
}

/// A directive whose last part is `reset` (or `default`, or `none`) selects
/// the plain style, whatever comes before it.
pub proof fn law_reset_clears_style(content: Seq<char>, word: Seq<char>)
    requires
        word == "reset"@ || word == "default"@ || word == "none"@,
    ensures
        spec_directive(content.push(',') + word) == plain_style(),
{
    reveal_strlit("reset");
    reveal_strlit("default");
    reveal_strlit("none");
    reveal_strlit("fg=");
    reveal_strlit("bg=");
    reveal_strlit("bold");
    reveal_strlit("dim");
    reveal_strlit("fill");
    lemma_split_tail(content, word, ',');
    let parts = split_at_char(content.push(',') + word, ',');
    assert(parts.drop_last() =~= split_at_char(content, ','));
    assert(parts.last() == word);
    assert(crate::text::trim_start(word) == word);
    assert(crate::text::trim_end(word) == word);
    if has_prefix(word, "fg="@) {
        assert(word.take(3)[0] == "fg="@[0]);
    }
    if has_prefix(word, "bg="@) {
        assert(word.take(3)[0] == "bg="@[0]);
    }
}

} // verus!
