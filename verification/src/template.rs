//! Command templates: text in which `${name}` stands for a value.
//!
//! A placeholder is `${`, a name and `}`, with blanks allowed on either side
//! of the name. The name is one character that is no blank, and then every
//! character up to the first blank or `}`. Text that opens like a placeholder
//! and does not close like one is ordinary text. Placeholders are found from
//! left to right and do not overlap.

use crate::error::Failure;
use crate::substitutions::Substitutions;
use crate::text::chars_of;
use vstd::prelude::*;
use vstd::string::StrSliceExecFns;
use vstd::string::StringExecFns;

verus! {

/// A character with the Unicode property `White_Space`.
pub open spec fn is_blank(c: char) -> bool {
    ||| '\u{9}' <= c && c <= '\u{d}'
    ||| c == ' '
    ||| c == '\u{85}'
    ||| c == '\u{a0}'
    ||| c == '\u{1680}'
    ||| '\u{2000}' <= c && c <= '\u{200a}'
    ||| c == '\u{2028}'
    ||| c == '\u{2029}'
    ||| c == '\u{202f}'
    ||| c == '\u{205f}'
    ||| c == '\u{3000}'
}

/// Where a placeholder stands in a text, in characters: the whole of it is
/// `start..end`, its name `name_start..name_end`.
pub struct Span {
    pub start: int,
    pub name_start: int,
    pub name_end: int,
    pub end: int,
}

/// The first position at or after `i` that holds no blank; the length of the
/// text if there is none.
pub open spec fn skip_blanks(t: Seq<char>, i: int) -> int
    decreases t.len() - i,
{
    if 0 <= i < t.len() && is_blank(t[i]) {
        skip_blanks(t, i + 1)
    } else {
        i
    }
}

/// The first position at or after `i` that holds a blank or `}`; the length
/// of the text if there is none.
pub open spec fn name_end(t: Seq<char>, i: int) -> int
    decreases t.len() - i,
{
    if 0 <= i < t.len() && !is_blank(t[i]) && t[i] != '}' {
        name_end(t, i + 1)
    } else {
        i
    }
}

/// The placeholder that starts at position `i`, if one does.
pub open spec fn placeholder_at(t: Seq<char>, i: int) -> Option<Span> {
    if 0 <= i && i + 1 < t.len() && t[i] == '$' && t[i + 1] == '{' {
        let name_start = skip_blanks(t, i + 2);
        let name_end = name_end(t, name_start + 1);
        let close = skip_blanks(t, name_end);
        if name_start < t.len() && close < t.len() && t[close] == '}' {
            Some(Span { start: i, name_start, name_end, end: close + 1 })
        } else {
            None
        }
    } else {
        None
    }
}

/// The placeholders of `t` that start at or after `i`, from left to right.
pub open spec fn placeholders_from(t: Seq<char>, i: int) -> Seq<Span>
    decreases t.len() - i,
    via placeholders_from_decreases
{
    if i < 0 || i >= t.len() {
        Seq::empty()
    } else {
        match placeholder_at(t, i) {
            Some(span) => seq![span] + placeholders_from(t, span.end),
            None => placeholders_from(t, i + 1),
        }
    }
}

#[via_fn]
proof fn placeholders_from_decreases(t: Seq<char>, i: int) {
    if 0 <= i < t.len() {
        lemma_placeholder_bounds(t, i);
    }
}

/// The placeholders of `t`, from left to right.
pub open spec fn placeholders(t: Seq<char>) -> Seq<Span> {
    placeholders_from(t, 0)
}

/// The name that the placeholder at `span` refers to.
pub open spec fn name_at(t: Seq<char>, span: Span) -> Seq<char> {
    t.subrange(span.name_start, span.name_end)
}

/// Some placeholder of `t` refers to `name`.
pub open spec fn references(t: Seq<char>, name: Seq<char>) -> bool {
    exists|k: int| 0 <= k < placeholders(t).len() && name_at(t, #[trigger] placeholders(t)[k]) == name
}

/// The text of `t` from `from` on, with each of `spans` replaced by the value
/// of its name; `None` if one of the names has no value.
pub open spec fn rendered_from(
    t: Seq<char>,
    spans: Seq<Span>,
    from: int,
    values: Map<Seq<char>, Seq<char>>,
) -> Option<Seq<char>>
    decreases spans.len(),
{
    if spans.len() == 0 {
        Some(t.subrange(from, t.len() as int))
    } else {
        let span = spans.first();
        if !values.contains_key(name_at(t, span)) {
            None
        } else {
            match rendered_from(t, spans.drop_first(), span.end, values) {
                Some(rest) => Some(t.subrange(from, span.start) + values[name_at(t, span)] + rest),
                None => None,
            }
        }
    }
}

/// `t` with each placeholder replaced by the value of its name; `None` if a
/// placeholder refers to a name without a value.
pub open spec fn rendered(t: Seq<char>, values: Map<Seq<char>, Seq<char>>) -> Option<Seq<char>> {
    rendered_from(t, placeholders(t), 0, values)
}

/// Skipping blanks moves forward and stays within the text.
pub proof fn lemma_skip_blanks_bounds(t: Seq<char>, i: int)
    requires
        0 <= i <= t.len(),
    ensures
        i <= skip_blanks(t, i) <= t.len(),
    decreases t.len() - i,
{
    if i < t.len() && is_blank(t[i]) {
        lemma_skip_blanks_bounds(t, i + 1);
    }
}

/// A name ends at or after the position it is sought from, within the text.
pub proof fn lemma_name_end_bounds(t: Seq<char>, i: int)
    requires
        0 <= i <= t.len(),
    ensures
        i <= name_end(t, i) <= t.len(),
    decreases t.len() - i,
{
    if i < t.len() && !is_blank(t[i]) && t[i] != '}' {
        lemma_name_end_bounds(t, i + 1);
    }
}

/// A placeholder lies within the text, and its name, which is not empty,
/// lies between its braces.
pub proof fn lemma_placeholder_bounds(t: Seq<char>, i: int)
    requires
        0 <= i < t.len(),
    ensures
        match placeholder_at(t, i) {
            Some(span) => span.start == i && i + 2 <= span.name_start < span.name_end < span.end
                <= t.len(),
            None => true,
        },
{
    if i + 1 < t.len() {
        lemma_skip_blanks_bounds(t, i + 2);
        let name_start = skip_blanks(t, i + 2);
        if name_start < t.len() {
            lemma_name_end_bounds(t, name_start + 1);
            lemma_skip_blanks_bounds(t, name_end(t, name_start + 1));
        }
    }
}

/// Whether `spans` renders depends on nothing but whether each of its names
/// has a value.
pub proof fn lemma_rendered_from_has_every_name(
    t: Seq<char>,
    spans: Seq<Span>,
    from: int,
    values: Map<Seq<char>, Seq<char>>,
)
    ensures
        rendered_from(t, spans, from, values) is Some <==> forall|k: int|
            0 <= k < spans.len() ==> values.contains_key(name_at(t, #[trigger] spans[k])),
    decreases spans.len(),
{
    if spans.len() > 0 {
        let rest = spans.drop_first();
        lemma_rendered_from_has_every_name(t, rest, spans.first().end, values);
        if rendered_from(t, spans, from, values) is Some {
            assert forall|k: int| 0 <= k < spans.len() implies values.contains_key(
                name_at(t, #[trigger] spans[k]),
            ) by {
                if k > 0 {
                    assert(rest[k - 1] == spans[k]);
                }
            }
        }
        if forall|k: int| 0 <= k < spans.len() ==> values.contains_key(name_at(t, #[trigger] spans[k])) {
            assert(values.contains_key(name_at(t, spans[0])));
            assert forall|k: int| 0 <= k < rest.len() implies values.contains_key(
                name_at(t, #[trigger] rest[k]),
            ) by {
                assert(rest[k] == spans[k + 1]);
            }
        }
    }
}

/// A template renders exactly when every name that it refers to has a value:
/// one name without a value makes the rendering fail, and nothing else does.
pub proof fn lemma_renders_iff_every_name_has_a_value(t: Seq<char>, values: Map<Seq<char>, Seq<char>>)
    ensures
        rendered(t, values) is Some <==> forall|name: Seq<char>|
            references(t, name) ==> values.contains_key(name),
{
    let spans = placeholders(t);
    lemma_rendered_from_has_every_name(t, spans, 0, values);
    if forall|name: Seq<char>| references(t, name) ==> values.contains_key(name) {
        assert forall|k: int| 0 <= k < spans.len() implies values.contains_key(
            name_at(t, #[trigger] spans[k]),
        ) by {
            assert(references(t, name_at(t, spans[k])));
        }
    }
}

/// Whether `c` is a blank.
pub fn is_blank_char(c: char) -> (r: bool)
    ensures
        r == is_blank(c),
{
    ('\u{9}' <= c && c <= '\u{d}') || c == ' ' || c == '\u{85}' || c == '\u{a0}' || c == '\u{1680}'
        || ('\u{2000}' <= c && c <= '\u{200a}') || c == '\u{2028}' || c == '\u{2029}' || c
        == '\u{202f}' || c == '\u{205f}' || c == '\u{3000}'
}

/// Where a placeholder stands in a template's text.
#[derive(Debug)]
struct Placeholder {
    start: usize,
    name_start: usize,
    name_end: usize,
    end: usize,
}

impl View for Placeholder {
    type V = Span;

    closed spec fn view(&self) -> Span {
        Span {
            start: self.start as int,
            name_start: self.name_start as int,
            name_end: self.name_end as int,
            end: self.end as int,
        }
    }
}

/// The views of a sequence of placeholders.
spec fn spans_of(items: Seq<Placeholder>) -> Seq<Span> {
    Seq::new(items.len(), |k: int| items[k]@)
}

/// The spans lie within a text of `len` characters, one after the other.
spec fn well_placed(spans: Seq<Span>, len: int) -> bool {
    &&& forall|k: int|
        0 <= k < spans.len() ==> 0 <= (#[trigger] spans[k]).start <= spans[k].name_start
            <= spans[k].name_end <= spans[k].end <= len
    &&& forall|j: int, k: int|
        0 <= j < k < spans.len() ==> (#[trigger] spans[j]).end <= (#[trigger] spans[k]).start
}

#[verifier::loop_isolation(false)]
fn skip_blanks_in(text: &Vec<char>, i: usize) -> (r: usize)
    requires
        i <= text.len(),
    ensures
        r == skip_blanks(text@, i as int),
        i <= r <= text.len(),
{
    let mut r: usize = i;
    while r < text.len() && is_blank_char(text[r])
        invariant
            i <= r <= text.len(),
            skip_blanks(text@, i as int) == skip_blanks(text@, r as int),
        decreases text.len() - r,
    {
        r += 1;
    }
    r
}

#[verifier::loop_isolation(false)]
fn name_end_in(text: &Vec<char>, i: usize) -> (r: usize)
    requires
        i <= text.len(),
    ensures
        r == name_end(text@, i as int),
        i <= r <= text.len(),
{
    let mut r: usize = i;
    while r < text.len() && !is_blank_char(text[r]) && text[r] != '}'
        invariant
            i <= r <= text.len(),
            name_end(text@, i as int) == name_end(text@, r as int),
        decreases text.len() - r,
    {
        r += 1;
    }
    r
}

fn placeholder_in(text: &Vec<char>, i: usize) -> (r: Option<Placeholder>)
    requires
        i < text.len(),
    ensures
        match r {
            Some(p) => placeholder_at(text@, i as int) == Some(p@),
            None => placeholder_at(text@, i as int).is_none(),
        },
{
    if text.len() - i < 2 || text[i] != '$' || text[i + 1] != '{' {
        return None;
    }
    let name_start = skip_blanks_in(text, i + 2);
    if name_start >= text.len() {
        return None;
    }
    let name_end = name_end_in(text, name_start + 1);
    let close = skip_blanks_in(text, name_end);
    if close < text.len() && text[close] == '}' {
        Some(Placeholder { start: i, name_start, name_end, end: close + 1 })
    } else {
        None
    }
}

#[verifier::loop_isolation(false)]
fn scan(text: &Vec<char>) -> (spans: Vec<Placeholder>)
    ensures
        spans_of(spans@) == placeholders(text@),
        well_placed(spans_of(spans@), text@.len() as int),
{
    let mut spans: Vec<Placeholder> = Vec::new();
    let mut i: usize = 0;
    assert(spans_of(spans@) + placeholders_from(text@, 0) =~= placeholders(text@));
    while i < text.len()
        invariant
            i <= text.len(),
            spans_of(spans@) + placeholders_from(text@, i as int) == placeholders(text@),
            well_placed(spans_of(spans@), text@.len() as int),
            forall|k: int| 0 <= k < spans@.len() ==> (#[trigger] spans_of(spans@)[k]).end <= i,
        decreases text.len() - i,
    {
        proof {
            lemma_placeholder_bounds(text@, i as int);
        }
        let ghost before = spans_of(spans@);
        match placeholder_in(text, i) {
            Some(p) => {
                let ghost span = p@;
                let end: usize = p.end;
                spans.push(p);
                assert(spans_of(spans@) =~= before + seq![span]);
                assert(before + (seq![span] + placeholders_from(text@, span.end)) =~= (before
                    + seq![span]) + placeholders_from(text@, span.end));
                i = end;
            },
            None => {
                i += 1;
            },
        }
    }
    assert(spans_of(spans@) + Seq::<Span>::empty() =~= spans_of(spans@));
    spans
}

/// A text with its placeholders found.
#[derive(Debug)]
pub struct Template {
    source: String,
    length: usize,
    spans: Vec<Placeholder>,
}

impl View for Template {
    type V = Seq<char>;

    closed spec fn view(&self) -> Seq<char> {
        self.source@
    }
}

/// The view of a rendering or a failure.
pub open spec fn rendering(r: Result<String, Failure>) -> Option<Seq<char>> {
    match r {
        Ok(s) => Some(s@),
        Err(_) => None,
    }
}

impl Template {
    #[verifier::type_invariant]
    spec fn well_formed(&self) -> bool {
        &&& self.length == self.source@.len()
        &&& spans_of(self.spans@) == placeholders(self.source@)
        &&& well_placed(spans_of(self.spans@), self.source@.len() as int)
    }

    /// Finds the placeholders of `source`, once and for every rendering.
    pub fn new(source: &str) -> (r: Self)
        ensures
            r@ == source@,
    {
        let text = chars_of(source);
        let spans = scan(&text);
        Template { source: String::from_str(source), length: text.len(), spans }
    }

    /// The text of the template.
    pub fn source(&self) -> (r: &str)
        ensures
            r@ == self@,
    {
        self.source.as_str()
    }

    /// The text with each placeholder replaced by the value of its name.
    /// Fails with `TemplateRenderError` if a name has no value.
    #[verifier::loop_isolation(false)]
    pub fn render(&self, values: &Substitutions) -> (r: Result<String, Failure>)
        ensures
            rendering(r) == rendered(self@, values@),
            r matches Err(e) ==> e == Failure::TemplateRenderError,
    {
        proof {
            use_type_invariant(self);
        }
        let text = self.source.as_str();
        let ghost t = self.source@;
        let ghost spans = spans_of(self.spans@);
        let mut out = String::new();
        let mut last: usize = 0;
        let mut k: usize = 0;
        assert(spans.skip(0) =~= spans);
        proof {
            match rendered_from(t, spans, 0, values@) {
                Some(rest) => {
                    assert(out@ + rest =~= rest);
                },
                None => {},
            }
        }
        while k < self.spans.len()
            invariant
                k <= self.spans.len(),
                last <= self.length,
                forall|j: int| k <= j < spans.len() ==> last <= (#[trigger] spans[j]).start,
                rendered(t, values@) == match rendered_from(t, spans.skip(k as int), last as int, values@) {
                    Some(rest) => Some(out@ + rest),
                    None => None,
                },
            decreases self.spans.len() - k,
        {
            let p = &self.spans[k];
            let ghost span = spans[k as int];
            assert(span == p@);
            assert(spans.skip(k as int).first() == span);
            assert(spans.skip(k as int).drop_first() =~= spans.skip(k + 1));
            let ghost chunk = t.subrange(last as int, span.start);
            let ghost before = out@;
            out.append(text.substring_char(last, p.start));
            let name = text.substring_char(p.name_start, p.name_end);
            match values.get(name) {
                Some(v) => {
                    out.append(v.as_str());
                    proof {
                        match rendered_from(t, spans.skip(k + 1), span.end, values@) {
                            Some(rest) => {
                                assert(before + (chunk + v@ + rest) =~= before + chunk + v@ + rest);
                            },
                            None => {},
                        }
                    }
                },
                None => {
                    return Err(Failure::TemplateRenderError);
                },
            }
            last = p.end;
            k += 1;
        }
        out.append(text.substring_char(last, self.length));
        Ok(out)
    }
}

} // verus!
