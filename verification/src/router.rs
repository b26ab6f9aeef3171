//! Route patterns and the router: path templates with named segments,
//! matching request paths against them, and making paths from them.

use vstd::prelude::*;
use vstd::slice::slice_subrange;
use vstd::std_specs::cmp::PartialEqSpecImpl;
use vstd::string::{StringExecFns, StringSliceAdditionalSpecFns};
use vstd::utf8::{decode_utf8, encode_utf8, is_char_boundary, valid_utf8};
use std::rc::Rc;
use crate::httprequest::HttpRequest;
use crate::server::settings::ServerSettings;
use crate::text::{chars_of, string_of};
use percent_encoding::percent_decode;
use regex::Regex;
use crate::error::UrlGenerationError;
use crate::param::{ParamView, Params};
use crate::text::{push_char, str_eq, substring};

verus! {

/// `regex::Regex`, a compiled regular expression. It is declared so that
/// a resource can hold one; nothing is known of what is inside.
#[verifier::external_type_specification]
#[verifier::external_body]
pub struct ExRegex(Regex);

/// The pattern that a `regex::Regex` was compiled from: what its `as_str`
/// gives.
pub uninterp spec fn regex_source(re: Regex) -> Seq<char>;

/// Whether `regex::Regex::new` takes `pattern`.
pub uninterp spec fn regex_compiles(pattern: Seq<char>) -> bool;

/// What `regex::Regex::captures` finds for the regex `re` in `text`:
/// `None` where the regex matches nowhere; else, for each group of the
/// first match, the group of the whole match first, the range of bytes of
/// `text` that it spans, or `None` where it took no part in the match.
/// It is a name of the regex and not of its pattern: a regex is built
/// with options, which its pattern does not show.
pub uninterp spec fn regex_captures(re: Regex, text: Seq<char>) -> Option<
    Seq<Option<(int, int)>>,
>;

/// The names of the groups of the regex `re`, in the order of their
/// opening parentheses, the group of the whole match first: what
/// `regex::Regex::capture_names` yields.
pub uninterp spec fn regex_group_names(re: Regex) -> Seq<Option<Seq<char>>>;

/// The characters of each name of `names` that is there.
pub open spec fn names_view(names: Seq<Option<String>>) -> Seq<Option<Seq<char>>> {
    Seq::new(
        names.len(),
        |i: int|
            match names[i] {
                Some(name) => Some(name@),
                None => None,
            },
    )
}

/// Each range of `spans` that is there, as a pair of integers.
pub open spec fn spans_view(spans: Seq<Option<(usize, usize)>>) -> Seq<Option<(int, int)>> {
    Seq::new(
        spans.len(),
        |i: int|
            match spans[i] {
                Some(span) => Some((span.0 as int, span.1 as int)),
                None => None,
            },
    )
}

/// Whether every range of `spans` lies in a text of the bytes `bytes`, from
/// one character boundary to another.
pub open spec fn spans_in(spans: Seq<Option<(usize, usize)>>, bytes: Seq<u8>) -> bool {
    forall|i: int|
        0 <= i < spans.len() ==> ((#[trigger] spans[i]) matches Some(span) ==> span.0 <= span.1
            <= bytes.len() && is_char_boundary(bytes, span.0 as int) && is_char_boundary(
            bytes,
            span.1 as int,
        ))
}

/// `regex::Regex::new`, with the error dropped. The contract names the
/// outcome: the pattern is taken exactly where `regex_compiles` says so,
/// and the regex then has the pattern as its source.
#[verifier::external_body]
fn regex_new(pattern: &str) -> (r: Option<Regex>)
    ensures
        r is Some <==> regex_compiles(pattern@),
        r matches Some(re) ==> regex_source(re) == pattern@,
{
    Regex::new(pattern).ok()
}

/// `regex::Regex::is_match`: whether the regex matches somewhere in `text`,
/// which is where `captures` finds a match.
#[verifier::external_body]
fn regex_is_match(re: &Regex, text: &str) -> (r: bool)
    ensures
        r == (regex_captures(*re, text@) is Some),
{
    re.is_match(text)
}

/// `regex::Regex::captures`, with `start` and `end` of each group that
/// `Captures::iter` yields. Beside the name of the outcome the contract
/// states what the documentation of the crate promises of every match:
/// there is one entry for each group of the regex; the group of the whole
/// match is there; each range lies in `text`, from one character boundary
/// to another.
#[verifier::external_body]
fn regex_find(re: &Regex, text: &str) -> (r: Option<Vec<Option<(usize, usize)>>>)
    ensures
        match r {
            Some(spans) => regex_captures(*re, text@) == Some(spans_view(spans@))
                && spans@.len() == regex_group_names(*re).len() && spans@.len() > 0
                && spans@[0] is Some && spans_in(spans@, text.spec_bytes()),
            None => regex_captures(*re, text@) is None,
        },
{
    re.captures(text).map(|caps| caps.iter().map(|m| m.map(|m| (m.start(), m.end()))).collect())
}

/// `regex::Regex::capture_names`, each name as a string of its own. The
/// contract names the outcome and states what the documentation promises:
/// the first group is that of the whole match and has no name.
#[verifier::external_body]
fn regex_names(re: &Regex) -> (r: Vec<Option<String>>)
    ensures
        names_view(r@) == regex_group_names(*re),
        r@.len() > 0,
        r@[0] is None,
{
    re.capture_names().map(|name| name.map(str::to_owned)).collect()
}

/// Whether a character has a meaning of its own in a regex.
pub open spec fn is_meta(c: char) -> bool {
    c == '\\' || c == '.' || c == '+' || c == '*' || c == '?' || c == '(' || c == ')' || c == '|'
        || c == '[' || c == ']' || c == '{' || c == '}' || c == '^' || c == '$' || c == '#' || c
        == '&' || c == '-' || c == '~'
}

/// `text` with a backslash before each character that has a meaning of
/// its own in a regex.
pub open spec fn escaped(text: Seq<char>) -> Seq<char>
    decreases text.len(),
{
    if text.len() == 0 {
        Seq::empty()
    } else if is_meta(text.last()) {
        escaped(text.drop_last()).push('\\').push(text.last())
    } else {
        escaped(text.drop_last()).push(text.last())
    }
}

/// `regex::escape`: it puts a backslash before each of the characters
/// `\ . + * ? ( ) | [ ] { } ^ $ # & - ~` and leaves the others as they are.
#[verifier::external_body]
fn regex_escape(text: &str) -> (r: String)
    ensures
        r@ == escaped(text@),
{
    regex::escape(text)
}

/// Whether `b` is a hexadecimal digit.
pub open spec fn is_hex(b: u8) -> bool {
    (0x30 <= b && b <= 0x39) || (0x41 <= b && b <= 0x46) || (0x61 <= b && b <= 0x66)
}

/// The value of a hexadecimal digit.
pub open spec fn hex_value(b: u8) -> nat {
    if 0x30 <= b && b <= 0x39 {
        (b - 0x30) as nat
    } else if 0x41 <= b && b <= 0x46 {
        (b - 0x41 + 10) as nat
    } else {
        (b - 0x61 + 10) as nat
    }
}

/// `bytes` with each `%` that two hexadecimal digits follow replaced,
/// together with the digits, by the byte that the digits stand for.
pub open spec fn percent_decoded(bytes: Seq<u8>) -> Seq<u8>
    decreases bytes.len(),
{
    if bytes.len() == 0 {
        Seq::empty()
    } else if bytes[0] == 0x25 && bytes.len() >= 3 && is_hex(bytes[1]) && is_hex(bytes[2]) {
        seq![(hex_value(bytes[1]) * 16 + hex_value(bytes[2])) as u8] + percent_decoded(
            bytes.skip(3),
        )
    } else {
        seq![bytes[0]] + percent_decoded(bytes.skip(1))
    }
}

/// `percent_encoding::percent_decode` followed by `decode_utf8` on what it
/// yields: the text that the decoded bytes stand for, or `None` where they
/// are no UTF-8.
#[verifier::external_body]
fn percent_decode_utf8(input: &[u8]) -> (r: Option<String>)
    ensures
        r is Some <==> valid_utf8(percent_decoded(input@)),
        r matches Some(text) ==> text@ == decode_utf8(percent_decoded(input@)),
{
    percent_decode(input).decode_utf8().ok().map(|text| text.into_owned())
}

/// What kind of entry a resource is in the table of an application.
#[derive(Debug, Copy, Clone, PartialEq, Eq, Structural)]
pub enum ResourceType {
    /// A resource with handlers.
    Normal,
    /// The resource of the default handler of the application.
    Default,
    /// A resource for making URLs only.
    External,
    /// No resource.
    Unset,
}

/// A piece of a path template: literal text, or a variable segment and
/// its name.
#[derive(Debug)]
pub enum PatternElement {
    Str(String),
    Var(String),
}

/// A piece of a path template, as characters.
pub enum Element {
    Str(Seq<char>),
    Var(Seq<char>),
}

impl View for PatternElement {
    type V = Element;

    open spec fn view(&self) -> Element {
        match *self {
            PatternElement::Str(s) => Element::Str(s@),
            PatternElement::Var(s) => Element::Var(s@),
        }
    }
}

impl Clone for PatternElement {
    fn clone(&self) -> (r: PatternElement)
        ensures
            r == *self,
    {
        match self {
            PatternElement::Str(s) => PatternElement::Str(s.clone()),
            PatternElement::Var(s) => PatternElement::Var(s.clone()),
        }
    }
}

/// The pieces of `v`, as characters.
pub open spec fn elements_view(v: Seq<PatternElement>) -> Seq<Element> {
    Seq::new(v.len(), |i: int| v[i]@)
}

/// The state of the one pass over a path template.
pub struct Scan {
    /// The regex so far, with the literal text escaped.
    pub re1: Seq<char>,
    /// The literal text so far.
    pub re2: Seq<char>,
    /// The literal text since the last variable segment.
    pub el: Seq<char>,
    /// Whether the pass is inside a variable segment.
    pub in_param: bool,
    /// Whether the pass is inside the pattern of a variable segment.
    pub in_param_pattern: bool,
    /// Whether the pattern of the variable segment has just been opened.
    pub pattern_opened: bool,
    /// The name of the variable segment so far.
    pub param_name: Seq<char>,
    /// The pattern of the variable segment so far.
    pub param_pattern: Seq<char>,
    /// Whether a variable segment was met.
    pub is_dynamic: bool,
    /// The pieces so far.
    pub elems: Seq<Element>,
    /// Whether a brace was met that has no partner.
    pub failed: bool,
}

/// The state in which the pass over a template begins.
pub open spec fn scan_start(prefix: Seq<char>) -> Scan {
    Scan {
        re1: "^"@ + prefix,
        re2: prefix,
        el: Seq::empty(),
        in_param: false,
        in_param_pattern: false,
        pattern_opened: false,
        param_name: Seq::empty(),
        param_pattern: "[^/]+"@,
        is_dynamic: false,
        elems: Seq::empty(),
        failed: false,
    }
}

/// The state after character `ch` at place `index` of a template.
///
/// A slash at the very start is passed over. Outside a variable segment a
/// character goes to the regex, escaped, and to the literal text; `{` opens
/// a segment and ends the literal piece before it. Inside a segment the
/// characters make up the name; `:` opens the pattern, and one space right
/// after it is passed over; `}` closes the segment, which becomes a named
/// group in the regex, with the pattern `[^/]+` where it has none of its
/// own. A `}` outside a segment and a `{` inside one have no partner.
pub open spec fn scan_step(s: Scan, index: int, ch: char) -> Scan {
    if s.failed {
        s
    } else if index == 0 && ch == '/' {
        s
    } else if s.in_param {
        if ch == '}' {
            Scan {
                elems: s.elems.push(Element::Var(s.param_name)),
                re1: s.re1 + "(?P<"@ + s.param_name + ">"@ + s.param_pattern + ")"@,
                param_name: Seq::empty(),
                param_pattern: "[^/]+"@,
                in_param_pattern: false,
                pattern_opened: false,
                in_param: false,
                ..s
            }
        } else if ch == '{' {
            Scan { failed: true, ..s }
        } else if ch == ':' {
            Scan { in_param_pattern: true, pattern_opened: true, param_pattern: Seq::empty(), ..s }
        } else if s.in_param_pattern {
            if ch == ' ' && s.pattern_opened {
                Scan { pattern_opened: false, ..s }
            } else {
                Scan { pattern_opened: false, param_pattern: s.param_pattern.push(ch), ..s }
            }
        } else {
            Scan { param_name: s.param_name.push(ch), ..s }
        }
    } else if ch == '{' {
        Scan {
            in_param: true,
            is_dynamic: true,
            elems: s.elems.push(Element::Str(s.el)),
            el: Seq::empty(),
            ..s
        }
    } else if ch == '}' {
        Scan { failed: true, ..s }
    } else {
        Scan { re1: s.re1 + escaped(seq![ch]), re2: s.re2.push(ch), el: s.el.push(ch), ..s }
    }
}

/// The state after the pass over `pattern`.
pub open spec fn scan(pattern: Seq<char>, prefix: Seq<char>) -> Scan
    decreases pattern.len(),
{
    if pattern.len() == 0 {
        scan_start(prefix)
    } else {
        scan_step(scan(pattern.drop_last(), prefix), pattern.len() - 1, pattern.last())
    }
}

/// Whether a template has no brace.
pub open spec fn plain(pattern: Seq<char>) -> bool {
    forall|i: int| 0 <= i < pattern.len() ==> #[trigger] pattern[i] != '{' && pattern[i] != '}'
}

/// A template without the slash at its start, if it has one.
pub open spec fn unslashed(pattern: Seq<char>) -> Seq<char> {
    if pattern.len() > 0 && pattern[0] == '/' {
        pattern.skip(1)
    } else {
        pattern
    }
}

/// The pass over a template without braces only gathers the literal
/// text: the prefix, then the template without the slash at its start.
pub proof fn lemma_scan_plain(pattern: Seq<char>, prefix: Seq<char>)
    requires
        plain(pattern),
    ensures
        !scan(pattern, prefix).failed,
        !scan(pattern, prefix).in_param,
        !scan(pattern, prefix).is_dynamic,
        scan(pattern, prefix).elems == Seq::<Element>::empty(),
        scan(pattern, prefix).re2 == prefix + unslashed(pattern),
    decreases pattern.len(),
{
    if pattern.len() == 0 {
        assert(prefix + unslashed(pattern) =~= prefix);
    } else {
        let front = pattern.drop_last();
        assert forall|i: int| 0 <= i < front.len() implies #[trigger] front[i] != '{' && front[i]
            != '}' by {
            assert(front[i] == pattern[i]);
        }
        lemma_scan_plain(front, prefix);
        assert(pattern.last() == pattern[pattern.len() - 1]);
        if pattern.len() == 1 {
            if pattern.last() == '/' {
                assert(prefix + unslashed(pattern) =~= prefix + unslashed(front));
            } else {
                assert(prefix + unslashed(pattern) =~= (prefix + unslashed(front)).push(
                    pattern.last(),
                ));
            }
        } else {
            assert(front[0] == pattern[0]);
            assert(prefix + unslashed(pattern) =~= (prefix + unslashed(front)).push(
                pattern.last(),
            ));
        }
    }
}

/// A template without braces is a pattern without variable segments: the
/// path has to be the prefix followed by the template, without the slash
/// at its start.
pub proof fn lemma_static_template(pattern: Seq<char>, prefix: Seq<char>)
    requires
        plain(pattern),
    ensures
        template(pattern, prefix) == Some(
            (prefix + unslashed(pattern), Seq::<Element>::empty(), false),
        ),
{
    lemma_scan_plain(pattern, prefix);
}

/// Whether literal pieces and variable segments take turns in `elems`,
/// a literal piece first.
pub open spec fn alternating(elems: Seq<Element>) -> bool {
    forall|i: int|
        0 <= i < elems.len() ==> if i % 2 == 0 {
            #[trigger] elems[i] is Str
        } else {
            elems[i] is Var
        }
}

/// Throughout the pass over a template, literal pieces and variable
/// segments take turns, and the pass is inside a segment exactly when the
/// last piece is a literal one.
pub proof fn lemma_scan_alternates(pattern: Seq<char>, prefix: Seq<char>)
    ensures
        alternating(scan(pattern, prefix).elems),
        scan(pattern, prefix).in_param <==> scan(pattern, prefix).elems.len() % 2 == 1,
    decreases pattern.len(),
{
    if pattern.len() > 0 {
        lemma_scan_alternates(pattern.drop_last(), prefix);
        let before = scan(pattern.drop_last(), prefix);
        let after = scan(pattern, prefix);
        assert forall|i: int| 0 <= i < after.elems.len() implies if i % 2 == 0 {
            #[trigger] after.elems[i] is Str
        } else {
            after.elems[i] is Var
        } by {
            if i < before.elems.len() {
                assert(after.elems[i] == before.elems[i]);
            }
        }
    }
}

/// In the pieces of a template, literal pieces and variable segments take
/// turns: each variable segment comes after the literal piece before it,
/// which may be empty.
pub proof fn lemma_elements_alternate(pattern: Seq<char>, prefix: Seq<char>)
    requires
        template(pattern, prefix) is Some,
    ensures
        alternating((template(pattern, prefix)->0).1),
        (template(pattern, prefix)->0).1.len() % 2 == 0,
{
    lemma_scan_alternates(pattern, prefix);
}

/// What a path template comes to under a prefix: the pattern, which is an
/// anchored regex for a template with variable segments and the literal
/// path for one without; the pieces of the template; and whether it has
/// variable segments. `None` for a template with a brace that has no
/// partner.
pub open spec fn template(pattern: Seq<char>, prefix: Seq<char>) -> Option<
    (Seq<char>, Seq<Element>, bool),
> {
    let s = scan(pattern, prefix);
    if s.failed || s.in_param {
        None
    } else if s.is_dynamic {
        Some((s.re1.push('$'), s.elems, true))
    } else {
        Some((s.re2, s.elems, false))
    }
}


/// How a request path is matched against a route pattern.
#[derive(Debug)]
pub enum PatternType {
    /// The path has to be this text.
    Static(String),
    /// The path has to match this regex; with it the names of its groups.
    Dynamic(Regex, Vec<Option<String>>),
}

/// An entry of the table of resources: a compiled path template.
#[derive(Debug)]
pub struct Resource {
    pub tp: PatternType,
    pub rtp: ResourceType,
    pub name: String,
    pub pattern: String,
    pub elements: Vec<PatternElement>,
}

impl PartialEq for Resource {
    /// Resources are the same where their path templates are.
    fn eq(&self, other: &Resource) -> (r: bool) {
        str_eq(self.pattern.as_str(), other.pattern.as_str())
    }
}

impl PartialEqSpecImpl for Resource {
    open spec fn obeys_eq_spec() -> bool {
        true
    }

    open spec fn eq_spec(&self, other: &Resource) -> bool {
        self.pattern@ == other.pattern@
    }
}

/// Why a path template is no route pattern.
#[derive(Clone, Copy, Debug, PartialEq, Eq, Structural)]
pub enum PatternError {
    /// A brace of the template has no partner.
    UnmatchedBrace,
    /// The regex that the template comes to is refused.
    InvalidRegex,
}

impl Resource {
    /// Parses a path template under a prefix, in one pass from left to
    /// right. `None` for a template with a brace that has no partner.
    pub fn parse(pattern: &str, prefix: &str) -> (r: Option<(String, Vec<PatternElement>, bool)>)
        ensures
            match template(pattern@, prefix@) {
                None => r is None,
                Some(t) => r matches Some(p) && p.0@ == t.0 && elements_view(p.1@) == t.1 && p.2
                    == t.2,
            },
    {
        let mut re1 = "^".to_owned();
        re1.append(prefix);
        let mut re2 = prefix.to_owned();
        let mut el = String::new();
        let mut in_param = false;
        let mut in_param_pattern = false;
        let mut pattern_opened = false;
        let mut param_name = String::new();
        let mut param_pattern = "[^/]+".to_owned();
        let mut is_dynamic = false;
        let mut elems: Vec<PatternElement> = Vec::new();
        let mut failed = false;
        let mut at_start = true;
        proof {
            assert(pattern@.take(0) =~= Seq::<char>::empty());
            assert(elements_view(elems@) =~= Seq::<Element>::empty());
        }
        for ch in it: pattern.chars()
            invariant
                it.seq() == pattern@,
                at_start == (it.index() == 0),
                ({
                    let s = scan(pattern@.take(it.index() as int), prefix@);
                    &&& re1@ == s.re1
                    &&& re2@ == s.re2
                    &&& el@ == s.el
                    &&& in_param == s.in_param
                    &&& in_param_pattern == s.in_param_pattern
                    &&& pattern_opened == s.pattern_opened
                    &&& param_name@ == s.param_name
                    &&& param_pattern@ == s.param_pattern
                    &&& is_dynamic == s.is_dynamic
                    &&& elements_view(elems@) == s.elems
                    &&& failed == s.failed
                }),
        {
            let ghost i = it.index() as int;
            let ghost before = scan(pattern@.take(i), prefix@);
            let ghost old_elems = elems@;
            proof {
                assert(pattern@.take(i + 1).drop_last() =~= pattern@.take(i));
                assert(pattern@.take(i + 1).last() == ch);
            }
            if failed {
            } else if at_start && ch == '/' {
            } else if in_param {
                if ch == '}' {
                    elems.push(PatternElement::Var(param_name.clone()));
                    re1.append("(?P<");
                    re1.append(param_name.as_str());
                    re1.append(">");
                    re1.append(param_pattern.as_str());
                    re1.append(")");
                    param_name = String::new();
                    param_pattern = "[^/]+".to_owned();
                    in_param_pattern = false;
                    pattern_opened = false;
                    in_param = false;
                    assert(elements_view(elems@) =~= before.elems.push(
                        Element::Var(before.param_name),
                    ));
                } else if ch == '{' {
                    failed = true;
                } else if ch == ':' {
                    in_param_pattern = true;
                    pattern_opened = true;
                    param_pattern = String::new();
                } else if in_param_pattern {
                    if !(ch == ' ' && pattern_opened) {
                        push_char(&mut param_pattern, ch);
                    }
                    pattern_opened = false;
                } else {
                    push_char(&mut param_name, ch);
                }
            } else if ch == '{' {
                in_param = true;
                is_dynamic = true;
                elems.push(PatternElement::Str(el.clone()));
                el = String::new();
                assert(elements_view(elems@) =~= before.elems.push(Element::Str(before.el)));
            } else if ch == '}' {
                failed = true;
            } else {
                let mut one = String::new();
                push_char(&mut one, ch);
                assert(one@ =~= seq![ch]);
                let quoted = regex_escape(one.as_str());
                re1.append(quoted.as_str());
                push_char(&mut re2, ch);
                push_char(&mut el, ch);
            }
            proof {
                assert(elems@ == old_elems ==> elements_view(elems@) == elements_view(old_elems));
            }
            at_start = false;
        }
        proof {
            assert(pattern@.take(pattern@.len() as int) =~= pattern@);
        }
        if failed || in_param {
            None
        } else if is_dynamic {
            push_char(&mut re1, '$');
            Some((re1, elems, true))
        } else {
            Some((re2, elems, false))
        }
    }
}


/// The parameters that a match records: for each group after that of the
/// whole match, up to group `upto`, that has a name and took part in the
/// match, the name with the text of the bytes that the group spans, in the
/// order of the groups.
pub open spec fn captures_of(
    names: Seq<Option<Seq<char>>>,
    spans: Seq<Option<(int, int)>>,
    bytes: Seq<u8>,
    upto: int,
) -> Seq<ParamView>
    decreases upto,
{
    if upto <= 1 {
        Seq::empty()
    } else {
        let rest = captures_of(names, spans, bytes, upto - 1);
        let i = upto - 1;
        if i < names.len() && i < spans.len() && names[i] is Some && spans[i] is Some {
            rest.push((names[i]->0, decode_utf8(bytes.subrange((spans[i]->0).0, (spans[i]->0).1))))
        } else {
            rest
        }
    }
}

/// Params fidelity: each group after that of the whole match that has a
/// name and took part in the match is recorded under its name with the text
/// that it spans.
pub proof fn lemma_params_fidelity(
    names: Seq<Option<Seq<char>>>,
    spans: Seq<Option<(int, int)>>,
    bytes: Seq<u8>,
    upto: int,
    group: int,
)
    requires
        1 <= group < upto,
        group < names.len(),
        group < spans.len(),
        names[group] is Some,
        spans[group] is Some,
    ensures
        captures_of(names, spans, bytes, upto).contains(
            (
                names[group]->0,
                decode_utf8(bytes.subrange((spans[group]->0).0, (spans[group]->0).1)),
            ),
        ),
    decreases upto,
{
    let all = captures_of(names, spans, bytes, upto);
    let entry = (
        names[group]->0,
        decode_utf8(bytes.subrange((spans[group]->0).0, (spans[group]->0).1)),
    );
    if group == upto - 1 {
        assert(all.last() == entry);
    } else {
        lemma_params_fidelity(names, spans, bytes, upto - 1, group);
        let rest = captures_of(names, spans, bytes, upto - 1);
        let w = choose|w: int| 0 <= w < rest.len() && rest[w] == entry;
        assert(all[w] == entry);
    }
}

impl Params {
    /// Records what a match captured: for each group after that of the
    /// whole match that has a name and a span, the name with the text of
    /// `path` that the group spans.
    pub fn add_captures(
        &mut self,
        names: &Vec<Option<String>>,
        path: &str,
        spans: &Vec<Option<(usize, usize)>>,
    )
        requires
            spans_in(spans@, path.spec_bytes()),
        ensures
            final(self)@ == old(self)@ + captures_of(
                names_view(names@),
                spans_view(spans@),
                path.spec_bytes(),
                spans@.len() as int,
            ),
    {
        let ghost bytes = path.spec_bytes();
        let ghost nv = names_view(names@);
        let ghost sv = spans_view(spans@);
        let mut i: usize = 1;
        assert(old(self)@ + captures_of(nv, sv, bytes, 1) =~= old(self)@);
        if spans.len() <= 1 {
            assert(captures_of(nv, sv, bytes, spans@.len() as int) =~= Seq::<ParamView>::empty());
            return ;
        }
        while i < spans.len()
            invariant
                1 <= i <= spans@.len(),
                bytes == path.spec_bytes(),
                nv == names_view(names@),
                sv == spans_view(spans@),
                spans_in(spans@, bytes),
                self@ == old(self)@ + captures_of(nv, sv, bytes, i as int),
            decreases spans@.len() - i,
        {
            let ghost before = self@;
            if i < names.len() {
                match (&names[i], &spans[i]) {
                    (Some(name), Some(span)) => {
                        let value = substring(path, span.0, span.1);
                        self.add(name.as_str(), value);
                        assert(self@ =~= old(self)@ + captures_of(nv, sv, bytes, i + 1));
                    },
                    _ => {},
                }
            }
            i += 1;
        }
    }
}

/// The path that the pieces `els` make with `values` in the place of the
/// variable segments, one value for each in their order; `None` where the
/// values run out. Values that are left over do not count.
pub open spec fn filled(els: Seq<Element>, values: Seq<Seq<char>>) -> Option<Seq<char>>
    decreases els.len(),
{
    if els.len() == 0 {
        Some(Seq::empty())
    } else {
        match els[0] {
            Element::Str(s) => match filled(els.skip(1), values) {
                Some(rest) => Some(s + rest),
                None => None,
            },
            Element::Var(_) => if values.len() == 0 {
                None
            } else {
                match filled(els.skip(1), values.skip(1)) {
                    Some(rest) => Some(values[0] + rest),
                    None => None,
                }
            },
        }
    }
}

/// The characters of each string of `values`.
pub open spec fn texts(values: Seq<&str>) -> Seq<Seq<char>> {
    Seq::new(values.len(), |i: int| values[i]@)
}

impl Resource {
    /// The invariant of a resource: the names that it holds for the groups
    /// of its regex are those of the regex.
    pub open spec fn wf(&self) -> bool {
        self.tp matches PatternType::Dynamic(re, names) ==> names_view(names@)
            == regex_group_names(re)
    }

    /// Whether `path` matches the pattern: for a pattern without variable
    /// segments the path has to be the pattern; for one with such segments
    /// the regex has to match.
    pub open spec fn matches(&self, path: Seq<char>) -> bool {
        match self.tp {
            PatternType::Static(s) => s@ == path,
            PatternType::Dynamic(re, _) => regex_captures(re, path) is Some,
        }
    }

    /// The parameters that a match of `path` records.
    pub open spec fn captured(&self, path: Seq<char>) -> Seq<ParamView> {
        match self.tp {
            PatternType::Static(_) => Seq::empty(),
            PatternType::Dynamic(re, names) => {
                let spans = regex_captures(re, path)->0;
                captures_of(names_view(names@), spans, encode_utf8(path), spans.len() as int)
            },
        }
    }

    /// Whether a path template makes a route pattern under a prefix: its
    /// braces have their partners, and if it has variable segments the
    /// regex that it comes to is taken.
    pub open spec fn accepts(path: Seq<char>, prefix: Seq<char>) -> bool {
        template(path, prefix) matches Some(t) && (t.2 ==> regex_compiles(t.0))
    }

    /// What the resource of a template is, but for its regex.
    pub open spec fn made_of(&self, name: Seq<char>, path: Seq<char>, prefix: Seq<char>) -> bool {
        &&& self.wf()
        &&& self.name@ == name
        &&& self.pattern@ == path
        &&& self.rtp == ResourceType::Normal
        &&& template(path, prefix) matches Some(t) && elements_view(self.elements@) == t.1 && (
        match self.tp {
            PatternType::Static(s) => !t.2 && s@ == t.0,
            PatternType::Dynamic(re, _) => t.2 && regex_source(re) == t.0,
        })
    }

    /// The resource of the template `path` under the prefix `/`.
    pub fn new(name: &str, path: &str) -> (r: Resource)
        requires
            Resource::accepts(path@, "/"@),
        ensures
            r.made_of(name@, path@, "/"@),
    {
        Resource::with_prefix(name, path, "/")
    }

    /// The resource of the template `path` under the prefix `/`, or why
    /// the template makes none.
    pub fn try_new(name: &str, path: &str) -> (r: Result<Resource, PatternError>)
        ensures
            match r {
                Ok(res) => Resource::accepts(path@, "/"@) && res.made_of(name@, path@, "/"@),
                Err(PatternError::UnmatchedBrace) => template(path@, "/"@) is None,
                Err(PatternError::InvalidRegex) => template(path@, "/"@) is Some
                    && !Resource::accepts(path@, "/"@),
            },
    {
        Resource::try_with_prefix(name, path, "/")
    }

    /// A resource for making URLs only.
    pub fn external(name: &str, path: &str) -> (r: Resource)
        requires
            Resource::accepts(path@, "/"@),
        ensures
            r.rtp == ResourceType::External,
            (Resource { rtp: ResourceType::Normal, ..r }).made_of(name@, path@, "/"@),
    {
        let mut resource = Resource::with_prefix(name, path, "/");
        resource.rtp = ResourceType::External;
        resource
    }

    /// A resource for making URLs only, or why the template makes none.
    pub fn try_external(name: &str, path: &str) -> (r: Result<Resource, PatternError>)
        ensures
            match r {
                Ok(res) => Resource::accepts(path@, "/"@) && res.rtp == ResourceType::External && (
                Resource { rtp: ResourceType::Normal, ..res }).made_of(name@, path@, "/"@),
                Err(PatternError::UnmatchedBrace) => template(path@, "/"@) is None,
                Err(PatternError::InvalidRegex) => template(path@, "/"@) is Some
                    && !Resource::accepts(path@, "/"@),
            },
    {
        match Resource::check(path, "/") {
            Ok(_) => Ok(Resource::external(name, path)),
            Err(err) => Err(err),
        }
    }

    /// The entry that stands for no resource.
    pub fn unset() -> (r: Resource)
        ensures
            r.wf(),
            r.rtp == ResourceType::Unset,
            r.name@.len() == 0,
            r.pattern@.len() == 0,
            r.elements@.len() == 0,
            r.tp matches PatternType::Static(s) && s@.len() == 0,
    {
        Resource {
            tp: PatternType::Static(String::new()),
            rtp: ResourceType::Unset,
            name: String::new(),
            pattern: String::new(),
            elements: Vec::new(),
        }
    }

    /// Whether the template `path` makes a route pattern under `prefix`,
    /// or why not.
    pub fn check(path: &str, prefix: &str) -> (r: Result<(), PatternError>)
        ensures
            match r {
                Ok(_) => Resource::accepts(path@, prefix@),
                Err(PatternError::UnmatchedBrace) => template(path@, prefix@) is None,
                Err(PatternError::InvalidRegex) => template(path@, prefix@) is Some
                    && !Resource::accepts(path@, prefix@),
            },
    {
        match Resource::parse(path, prefix) {
            None => Err(PatternError::UnmatchedBrace),
            Some((pattern, _, is_dynamic)) => {
                if is_dynamic {
                    match regex_new(pattern.as_str()) {
                        Some(_) => Ok(()),
                        None => Err(PatternError::InvalidRegex),
                    }
                } else {
                    Ok(())
                }
            },
        }
    }

    /// The resource of the template `path` under `prefix`.
    pub fn with_prefix(name: &str, path: &str, prefix: &str) -> (r: Resource)
        requires
            Resource::accepts(path@, prefix@),
        ensures
            r.made_of(name@, path@, prefix@),
    {
        let (pattern, elements, is_dynamic) = match Resource::parse(path, prefix) {
            Some(parsed) => parsed,
            None => vstd::pervasive::unreached(),
        };
        let tp = if is_dynamic {
            let re = match regex_new(pattern.as_str()) {
                Some(re) => re,
                None => vstd::pervasive::unreached(),
            };
            let names = regex_names(&re);
            PatternType::Dynamic(re, names)
        } else {
            PatternType::Static(pattern)
        };
        Resource {
            tp,
            elements,
            name: name.to_owned(),
            rtp: ResourceType::Normal,
            pattern: path.to_owned(),
        }
    }

    /// The resource of the template `path` under `prefix`, or why the
    /// template makes none.
    pub fn try_with_prefix(name: &str, path: &str, prefix: &str) -> (r: Result<
        Resource,
        PatternError,
    >)
        ensures
            match r {
                Ok(res) => Resource::accepts(path@, prefix@) && res.made_of(
                    name@,
                    path@,
                    prefix@,
                ),
                Err(PatternError::UnmatchedBrace) => template(path@, prefix@) is None,
                Err(PatternError::InvalidRegex) => template(path@, prefix@) is Some
                    && !Resource::accepts(path@, prefix@),
            },
    {
        match Resource::check(path, prefix) {
            Ok(_) => Ok(Resource::with_prefix(name, path, prefix)),
            Err(err) => Err(err),
        }
    }

    /// The name of the resource.
    pub fn name(&self) -> (r: &str)
        ensures
            r@ == self.name@,
    {
        self.name.as_str()
    }

    /// The kind of the resource.
    pub fn rtype(&self) -> (r: ResourceType)
        ensures
            r == self.rtp,
    {
        self.rtp
    }

    /// The path template of the resource.
    pub fn pattern(&self) -> (r: &str)
        ensures
            r@ == self.pattern@,
    {
        self.pattern.as_str()
    }

    /// Whether `path` matches the pattern.
    pub fn is_match(&self, path: &str) -> (r: bool)
        ensures
            r == self.matches(path@),
    {
        match &self.tp {
            PatternType::Static(s) => str_eq(s.as_str(), path),
            PatternType::Dynamic(re, _) => regex_is_match(re, path),
        }
    }

    /// Whether `path` matches the pattern; on a match the parameters that
    /// it captures are recorded after those that are there.
    pub fn match_with_params(&self, path: &str, params: &mut Params) -> (r: bool)
        requires
            self.wf(),
        ensures
            r == self.matches(path@),
            r ==> final(params)@ == old(params)@ + self.captured(path@),
            !r ==> *final(params) == *old(params),
    {
        match &self.tp {
            PatternType::Static(s) => {
                assert(params@ + Seq::<ParamView>::empty() =~= params@);
                str_eq(s.as_str(), path)
            },
            PatternType::Dynamic(re, names) => {
                match regex_find(re, path) {
                    Some(spans) => {
                        params.add_captures(names, path, &spans);
                        true
                    },
                    None => false,
                }
            },
        }
    }

    /// The path that the pattern makes with `elements` in the place of
    /// its variable segments, after `prefix` and a slash unless the
    /// resource is external.
    pub fn path_with(&self, prefix: &str, elements: &[&str]) -> (r: Result<
        String,
        UrlGenerationError,
    >)
        ensures
            match filled(elements_view(self.elements@), texts(elements@)) {
                Some(path) => r matches Ok(p) && p@ == (if self.rtp != ResourceType::External {
                    prefix@ + seq!['/']
                } else {
                    Seq::<char>::empty()
                }) + path,
                None => r == Err::<String, _>(UrlGenerationError::NotEnoughElements),
            },
    {
        let ghost els = elements_view(self.elements@);
        let ghost vals = texts(elements@);
        let mut path = if !matches!(self.rtp, ResourceType::External) {
            let mut path = prefix.to_owned();
            push_char(&mut path, '/');
            assert(path@ =~= prefix@ + seq!['/']);
            path
        } else {
            String::new()
        };
        let ghost start = path@;
        let mut next: usize = 0;
        let mut i: usize = 0;
        proof {
            assert(els.skip(0) =~= els);
            assert(vals.skip(0) =~= vals);
            assert(forall|rest: Seq<char>| start + Seq::<char>::empty() + rest =~= start + rest);
        }
        let ghost mut done = Seq::<char>::empty();
        while i < self.elements.len()
            invariant
                i <= self.elements@.len(),
                next <= elements@.len(),
                els == elements_view(self.elements@),
                vals == texts(elements@),
                path@ == start + done,
                filled(els, vals) == match filled(els.skip(i as int), vals.skip(next as int)) {
                    Some(rest) => Some(done + rest),
                    None => None,
                },
            decreases self.elements@.len() - i,
        {
            let ghost rest_els = els.skip(i as int);
            let ghost rest_vals = vals.skip(next as int);
            proof {
                assert(rest_els[0] == self.elements@[i as int]@);
                assert(rest_els.skip(1) =~= els.skip(i + 1));
            }
            match &self.elements[i] {
                PatternElement::Str(s) => {
                    path.append(s.as_str());
                    proof {
                        let piece = s@;
                        assert(path@ =~= start + (done + piece));
                        match filled(els.skip(i + 1), rest_vals) {
                            Some(rest) => {
                                assert(done + (piece + rest) =~= (done + piece) + rest);
                            },
                            None => {},
                        }
                        done = done + piece;
                    }
                },
                PatternElement::Var(_) => {
                    if next < elements.len() {
                        path.append(elements[next]);
                        proof {
                            let piece = elements@[next as int]@;
                            assert(rest_vals[0] == piece);
                            assert(rest_vals.skip(1) =~= vals.skip(next + 1));
                            assert(path@ =~= start + (done + piece));
                            match filled(els.skip(i + 1), vals.skip(next + 1)) {
                                Some(rest) => {
                                    assert(done + (piece + rest) =~= (done + piece) + rest);
                                },
                                None => {},
                            }
                            done = done + piece;
                        }
                        next += 1;
                    } else {
                        assert(rest_vals.len() == 0);
                        return Err(UrlGenerationError::NotEnoughElements);
                    }
                },
            }
            i += 1;
        }
        proof {
            assert(els.skip(i as int).len() == 0);
            assert(done + Seq::<char>::empty() =~= done);
        }
        Ok(path)
    }
}


/// Whether a character is white space.
pub open spec fn is_blank(c: char) -> bool {
    c == ' ' || ('\u{9}' <= c && c <= '\u{d}') || c == '\u{85}' || c == '\u{a0}' || c
        == '\u{1680}' || ('\u{2000}' <= c && c <= '\u{200a}') || c == '\u{2028}' || c
        == '\u{2029}' || c == '\u{202f}' || c == '\u{205f}' || c == '\u{3000}'
}

/// `s` without the white space at its two ends.
pub open spec fn trim_blank(s: Seq<char>) -> Seq<char>
    decreases s.len(),
{
    if s.len() > 0 && is_blank(s[0]) {
        trim_blank(s.skip(1))
    } else if s.len() > 0 && is_blank(s.last()) {
        trim_blank(s.drop_last())
    } else {
        s
    }
}

/// `s` without the slashes at its end.
pub open spec fn trim_slashes(s: Seq<char>) -> Seq<char>
    decreases s.len(),
{
    if s.len() > 0 && s.last() == '/' {
        trim_slashes(s.drop_last())
    } else {
        s
    }
}

/// A prefix as the router takes it: without white space at its ends, and
/// then without slashes at its end.
pub open spec fn normalized(prefix: Seq<char>) -> Seq<char> {
    trim_slashes(trim_blank(prefix))
}

/// Whether a character is white space.
pub fn is_blank_char(c: char) -> (r: bool)
    ensures
        r == is_blank(c),
{
    c == ' ' || ('\u{9}' <= c && c <= '\u{d}') || c == '\u{85}' || c == '\u{a0}' || c
        == '\u{1680}' || ('\u{2000}' <= c && c <= '\u{200a}') || c == '\u{2028}' || c
        == '\u{2029}' || c == '\u{202f}' || c == '\u{205f}' || c == '\u{3000}'
}

/// Takes the white space off the ends of `prefix`, and then the slashes
/// off its end.
pub fn normalize(prefix: &str) -> (r: String)
    ensures
        r@ == normalized(prefix@),
{
    let chars = chars_of(prefix);
    let mut start: usize = 0;
    let mut end: usize = chars.len();
    assert(chars@.subrange(0, chars@.len() as int) =~= chars@);
    while start < end && is_blank_char(chars[start])
        invariant
            start <= end <= chars@.len(),
            trim_blank(chars@) == trim_blank(chars@.subrange(start as int, end as int)),
        decreases end - start,
    {
        assert(chars@.subrange(start as int, end as int).skip(1) =~= chars@.subrange(
            start + 1,
            end as int,
        ));
        start += 1;
    }
    while start < end && is_blank_char(chars[end - 1])
        invariant
            start <= end <= chars@.len(),
            start < end ==> !is_blank(chars@[start as int]),
            trim_blank(chars@) == trim_blank(chars@.subrange(start as int, end as int)),
        decreases end - start,
    {
        assert(chars@.subrange(start as int, end as int).drop_last() =~= chars@.subrange(
            start as int,
            end - 1,
        ));
        end -= 1;
    }
    while start < end && chars[end - 1] == '/'
        invariant
            start <= end <= chars@.len(),
            normalized(chars@) == trim_slashes(chars@.subrange(start as int, end as int)),
        decreases end - start,
    {
        assert(chars@.subrange(start as int, end as int).drop_last() =~= chars@.subrange(
            start as int,
            end - 1,
        ));
        end -= 1;
    }
    string_of(chars.as_slice(), start, end)
}

/// The lowest place of a pattern of `patterns` that `path` matches.
pub open spec fn first_match(patterns: Seq<Resource>, path: Seq<char>) -> Option<int> {
    if exists|i: int| 0 <= i < patterns.len() && (#[trigger] patterns[i]).matches(path) {
        Some(
            choose|i: int|
                0 <= i < patterns.len() && (#[trigger] patterns[i]).matches(path) && forall|j: int|
                    0 <= j < i ==> !(#[trigger] patterns[j]).matches(path),
        )
    } else {
        None
    }
}

/// Where one pattern matches a lowest place of a match is there, and it
/// is the only one.
pub proof fn lemma_first_match(patterns: Seq<Resource>, path: Seq<char>, i: int)
    requires
        0 <= i < patterns.len(),
        patterns[i].matches(path),
        forall|j: int| 0 <= j < i ==> !(#[trigger] patterns[j]).matches(path),
    ensures
        first_match(patterns, path) == Some(i),
{
    let k = first_match(patterns, path)->0;
    if k < i {
        assert(!patterns[k].matches(path));
    } else if i < k {
        assert(!patterns[i].matches(path));
    }
}

/// The text that the router matches against its patterns for a request
/// path of the bytes `path`: what follows the first `prefix_len` bytes, or
/// a slash where nothing follows, with the percent-escapes decoded. `None`
/// where the path is shorter than the prefix, or what is decoded is no
/// text.
pub open spec fn route_text(prefix_len: nat, path: Seq<u8>) -> Option<Seq<char>> {
    if prefix_len > path.len() {
        None
    } else {
        let rest = path.skip(prefix_len as int);
        let route = if rest.len() == 0 {
            seq![0x2fu8]
        } else {
            rest
        };
        if valid_utf8(percent_decoded(route)) {
            Some(decode_utf8(percent_decoded(route)))
        } else {
            None
        }
    }
}

/// What a router holds: its prefix, every resource it knows, which of
/// them take requests, in their order, and under which names resources are
/// found.
#[derive(Debug)]
pub struct Inner {
    pub prefix: String,
    pub prefix_len: usize,
    pub resources: Vec<Resource>,
    pub patterns: Vec<usize>,
    pub named: Vec<(String, usize, bool)>,
    pub srv: ServerSettings,
}

/// The router of an application. It is shared, not copied, when cloned.
#[derive(Debug)]
pub struct Router(pub Rc<Inner>);

/// `Rc::clone`: another handle to the same value.
#[verifier::external_body]
pub(crate) fn share<T>(shared: &Rc<T>) -> (r: Rc<T>)
    ensures
        r == *shared,
{
    Rc::clone(shared)
}

impl Clone for Router {
    fn clone(&self) -> (r: Router)
        ensures
            r == *self,
    {
        Router(share(&self.0))
    }
}

/// The place in `named` of the last entry with the name `name`.
pub open spec fn named_slot(named: Seq<(String, usize, bool)>, name: Seq<char>) -> Option<int>
    decreases named.len(),
{
    if named.len() == 0 {
        None
    } else if named.last().0@ == name {
        Some(named.len() - 1)
    } else {
        named_slot(named.drop_last(), name)
    }
}

/// A place that `named_slot` finds is a place of the table, and the entry
/// there has the name.
pub proof fn lemma_named_slot(named: Seq<(String, usize, bool)>, name: Seq<char>)
    ensures
        named_slot(named, name) matches Some(i) ==> 0 <= i < named.len() && named[i].0@ == name,
    decreases named.len(),
{
    if named.len() > 0 && named.last().0@ != name {
        lemma_named_slot(named.drop_last(), name);
    }
}

impl Router {
    /// The invariant of the router: its tables point at resources that
    /// are there, and these are well-formed; the length of the prefix is
    /// kept in bytes.
    pub open spec fn wf(&self) -> bool {
        &&& self.0.prefix_len == encode_utf8(self.0.prefix@).len()
        &&& forall|i: int|
            0 <= i < self.0.resources@.len() ==> (#[trigger] self.0.resources@[i]).wf()
        &&& forall|i: int|
            0 <= i < self.0.patterns@.len() ==> (#[trigger] self.0.patterns@[i])
                < self.0.resources@.len()
        &&& forall|i: int|
            0 <= i < self.0.named@.len() ==> (#[trigger] self.0.named@[i]).1
                < self.0.resources@.len()
    }

    /// The patterns that take requests, in their order.
    pub open spec fn patterns(&self) -> Seq<Resource> {
        Seq::new(self.0.patterns@.len(), |i: int| self.0.resources@[self.0.patterns@[i] as int])
    }

    /// The resource that is found under `name`: the last that was entered
    /// under it.
    pub open spec fn named(&self, name: Seq<char>) -> Option<Resource> {
        match named_slot(self.0.named@, name) {
            Some(i) => Some(self.0.resources@[self.0.named@[i].1 as int]),
            None => None,
        }
    }

    /// The prefix of the router.
    pub fn prefix(&self) -> (r: &str)
        ensures
            r@ == self.0.prefix@,
    {
        self.0.prefix.as_str()
    }

    /// The settings of the server.
    pub fn server_settings(&self) -> (r: &ServerSettings)
        ensures
            *r == self.0.srv,
    {
        &self.0.srv
    }

    /// The pattern at place `idx` among those that take requests.
    pub fn get_resource(&self, idx: usize) -> (r: &Resource)
        requires
            self.wf(),
            idx < self.patterns().len(),
        ensures
            *r == self.patterns()[idx as int],
    {
        &self.0.resources[self.0.patterns[idx]]
    }

    /// Whether a pattern that takes requests matches `path`, taken as it
    /// is but for an empty path, which stands for a slash. The prefix of the
    /// router plays no part.
    pub fn has_route(&self, path: &str) -> (r: bool)
        requires
            self.wf(),
        ensures
            r == (first_match(
                self.patterns(),
                if path@.len() == 0 {
                    "/"@
                } else {
                    path@
                },
            ) is Some),
    {
        let route = if path.is_empty() {
            "/"
        } else {
            path
        };
        let mut i: usize = 0;
        while i < self.0.patterns.len()
            invariant
                self.wf(),
                i <= self.0.patterns@.len(),
                route@ == (if path@.len() == 0 {
                    "/"@
                } else {
                    path@
                }),
                forall|j: int| 0 <= j < i ==> !(#[trigger] self.patterns()[j]).matches(route@),
            decreases self.0.patterns@.len() - i,
        {
            if self.get_resource(i).is_match(route) {
                proof {
                    lemma_first_match(self.patterns(), route@, i as int);
                }
                return true;
            }
            i += 1;
        }
        false
    }
}


/// The patterns of `map` that come with a handler, in their order.
pub open spec fn routed<H>(map: Seq<(Resource, Option<H>)>) -> Seq<Resource>
    decreases map.len(),
{
    if map.len() == 0 {
        Seq::empty()
    } else if map.last().1 is Some {
        routed(map.drop_last()).push(map.last().0)
    } else {
        routed(map.drop_last())
    }
}

/// The handlers of `map`, in their order.
pub open spec fn handlers_of<H>(map: Seq<(Resource, Option<H>)>) -> Seq<H>
    decreases map.len(),
{
    if map.len() == 0 {
        Seq::empty()
    } else if map.last().1 is Some {
        handlers_of(map.drop_last()).push(map.last().1->0)
    } else {
        handlers_of(map.drop_last())
    }
}

/// The last pattern of `map` that has the name `name`, which is not
/// empty.
pub open spec fn last_named<H>(map: Seq<(Resource, Option<H>)>, name: Seq<char>) -> Option<
    Resource,
>
    decreases map.len(),
{
    if map.len() == 0 {
        None
    } else if map.last().0.name@ == name && name.len() > 0 {
        Some(map.last().0)
    } else {
        last_named(map.drop_last(), name)
    }
}

/// The path that the resource `res` makes with `values` under the prefix
/// `prefix`: an external resource makes it without the prefix, any other
/// after the prefix and a slash.
pub open spec fn path_of(res: Resource, prefix: Seq<char>, values: Seq<Seq<char>>) -> Result<
    Seq<char>,
    UrlGenerationError,
> {
    match filled(elements_view(res.elements@), values) {
        Some(path) => Ok(
            (if res.rtp != ResourceType::External {
                prefix + seq!['/']
            } else {
                Seq::<char>::empty()
            }) + path,
        ),
        None => Err(UrlGenerationError::NotEnoughElements),
    }
}

impl Resource {
    /// The path that the pattern makes with `elements` in the place of
    /// its variable segments, under the prefix of `router`.
    pub fn resource_path(&self, router: &Router, elements: &[&str]) -> (r: Result<
        String,
        UrlGenerationError,
    >)
        ensures
            match path_of(*self, router.0.prefix@, texts(elements@)) {
                Ok(path) => r matches Ok(p) && p@ == path,
                Err(err) => r == Err::<String, _>(err),
            },
    {
        self.path_with(router.prefix(), elements)
    }
}

impl Router {
    /// A router for the patterns of `map` under `prefix`. A pattern with
    /// a handler takes requests; every pattern with a name is found under
    /// it, and of two with the same name the later. The handlers come back
    /// in the order of their patterns.
    pub fn new<H>(prefix: &str, settings: ServerSettings, map: Vec<(Resource, Option<H>)>) -> (r: (
        Router,
        Vec<H>,
    ))
        requires
            forall|i: int| 0 <= i < map@.len() ==> (#[trigger] map@[i]).0.wf(),
        ensures
            r.0.wf(),
            r.0.0.prefix@ == normalized(prefix@),
            r.0.0.srv == settings,
            r.0.patterns() == routed(map@),
            r.1@ == handlers_of(map@),
            forall|name: Seq<char>| #[trigger] r.0.named(name) == last_named(map@, name),
    {
        let prefix = normalize(prefix);
        let mut named: Vec<(String, usize, bool)> = Vec::new();
        let mut all: Vec<Resource> = Vec::new();
        let mut patterns: Vec<usize> = Vec::new();
        let mut resources: Vec<H> = Vec::new();
        let ghost entries = map@;
        proof {
            assert(Seq::new(0, |i: int| all@[patterns@[i] as int]) =~= routed(entries.take(0)));
        }
        for entry in it: map
            invariant
                entries == it.seq(),
                forall|i: int| 0 <= i < entries.len() ==> (#[trigger] entries[i]).0.wf(),
                all@.len() == it.index(),
                forall|i: int| 0 <= i < all@.len() ==> #[trigger] all@[i] == entries[i].0,
                forall|i: int| 0 <= i < patterns@.len() ==> (#[trigger] patterns@[i]) < all@.len(),
                forall|i: int| 0 <= i < named@.len() ==> (#[trigger] named@[i]).1 < all@.len(),
                Seq::new(patterns@.len(), |i: int| all@[patterns@[i] as int]) == routed(
                    entries.take(it.index() as int),
                ),
                resources@ == handlers_of(entries.take(it.index() as int)),
                forall|name: Seq<char>|
                    (match #[trigger] named_slot(named@, name) {
                        Some(i) => Some(all@[named@[i].1 as int]),
                        None => None,
                    }) == last_named(entries.take(it.index() as int), name),
        {
            let ghost k = it.index() as int;
            let ghost old_all = all@;
            let ghost old_named = named@;
            let ghost old_patterns = patterns@;
            let (pattern, resource) = entry;
            let at = all.len();
            proof {
                assert(entries.take(k + 1).drop_last() =~= entries.take(k));
                assert(entries.take(k + 1).last() == entries[k]);
            }
            if !pattern.name().is_empty() {
                let name = pattern.name.clone();
                named.push((name, at, resource.is_none()));
            }
            let has = resource.is_some();
            if let Some(resource) = resource {
                patterns.push(at);
                resources.push(resource);
            }
            all.push(pattern);
            proof {
                assert forall|i: int| 0 <= i < all@.len() implies #[trigger] all@[i]
                    == entries[i].0 by {
                    if i < k {
                        assert(all@[i] == old_all[i]);
                    }
                }
                let before = Seq::new(old_patterns.len(), |i: int| old_all[old_patterns[i] as int]);
                let after = Seq::new(patterns@.len(), |i: int| all@[patterns@[i] as int]);
                if has {
                    assert(after =~= before.push(pattern)) by {
                        assert forall|i: int| 0 <= i < old_patterns.len() implies after[i]
                            == before[i] by {
                            assert(patterns@[i] == old_patterns[i]);
                        }
                    }
                } else {
                    assert(after =~= before) by {
                        assert forall|i: int| 0 <= i < old_patterns.len() implies after[i]
                            == before[i] by {
                            assert(patterns@[i] == old_patterns[i]);
                        }
                    }
                }
                assert forall|name: Seq<char>|
                    (match #[trigger] named_slot(named@, name) {
                        Some(i) => Some(all@[named@[i].1 as int]),
                        None => None,
                    }) == last_named(entries.take(k + 1), name) by {
                    lemma_named_slot(old_named, name);
                    if pattern.name@.len() > 0 {
                        assert(named@.drop_last() =~= old_named);
                        if pattern.name@ != name {
                            match named_slot(old_named, name) {
                                Some(i) => {
                                    assert(named@[i] == old_named[i]);
                                    assert(all@[old_named[i].1 as int] == old_all[old_named[i].1 as int]);
                                },
                                None => {},
                            }
                        }
                    } else {
                        match named_slot(old_named, name) {
                            Some(i) => {
                                assert(all@[old_named[i].1 as int] == old_all[old_named[i].1 as int]);
                            },
                            None => {},
                        }
                    }
                }
            }
        }
        proof {
            assert(entries.take(entries.len() as int) =~= entries);
        }
        let prefix_len = prefix.as_str().as_bytes().len();
        let router = Router(
            Rc::new(
                Inner { prefix, prefix_len, resources: all, patterns, named, srv: settings },
            ),
        );
        proof {
            assert(router.patterns() =~= routed(entries));
            assert forall|name: Seq<char>| #[trigger]
                router.named(name) == last_named(entries, name) by {
                let _ = named_slot(router.0.named@, name);
            }
        }
        (router, resources)
    }

    /// Finds the pattern for a request: the first, in the order of the
    /// table, that matches what follows the prefix in the path of the
    /// request, with the percent-escapes decoded. On a match the parameters
    /// that it captures and its place are recorded in the request. No
    /// pattern is found for a path that is shorter than the prefix, nor for
    /// one that decodes to bytes that are no text.
    pub fn recognize<S>(&self, req: &mut HttpRequest<S>) -> (r: Option<usize>)
        requires
            self.wf(),
        ensures
            match r {
                Some(i) => {
                    let text = route_text(self.0.prefix_len as nat, encode_utf8(old(req).path@));
                    &&& text is Some
                    &&& first_match(self.patterns(), text->0) == Some(i as int)
                    &&& i < self.patterns().len()
                    &&& final(req).params@ == old(req).params@ + self.patterns()[i as int].captured(
                        text->0,
                    )
                    &&& *final(req) == (HttpRequest {
                        params: final(req).params,
                        resource: Some(i),
                        ..*old(req)
                    })
                },
                None => (match route_text(
                    self.0.prefix_len as nat,
                    encode_utf8(old(req).path@),
                ) {
                    Some(text) => first_match(self.patterns(), text) is None,
                    None => true,
                }) && *final(req) == *old(req),
            },
    {
        let bytes = req.path.as_str().as_bytes();
        if self.0.prefix_len > bytes.len() {
            return None;
        }
        let rest = slice_subrange(bytes, self.0.prefix_len, bytes.len());
        let slash: [u8; 1] = [0x2f];
        let route = if rest.len() == 0 {
            slash.as_slice()
        } else {
            rest
        };
        proof {
            assert(rest@ =~= bytes@.skip(self.0.prefix_len as int));
            assert(slash@ =~= seq![0x2fu8]);
        }
        let text = match percent_decode_utf8(route) {
            Some(text) => text,
            None => {
                return None;
            },
        };
        match self.find(text.as_str(), &mut req.params) {
            Some(i) => {
                req.resource = Some(i);
                Some(i)
            },
            None => None,
        }
    }

    /// Finds the first pattern, in the order of the table, that matches
    /// `text`, and records the parameters that it captures.
    pub fn find(&self, text: &str, params: &mut Params) -> (r: Option<usize>)
        requires
            self.wf(),
        ensures
            match r {
                Some(i) => first_match(self.patterns(), text@) == Some(i as int) && i
                    < self.patterns().len() && final(params)@ == old(params)@
                    + self.patterns()[i as int].captured(text@),
                None => first_match(self.patterns(), text@) is None && *final(params) == *old(params),
            },
    {
        let mut i: usize = 0;
        while i < self.0.patterns.len()
            invariant
                self.wf(),
                i <= self.0.patterns@.len(),
                *params == *old(params),
                forall|j: int| 0 <= j < i ==> !(#[trigger] self.patterns()[j]).matches(text@),
            decreases self.0.patterns@.len() - i,
        {
            let ghost before = params@;
            if self.get_resource(i).match_with_params(text, params) {
                proof {
                    lemma_first_match(self.patterns(), text@, i as int);
                }
                return Some(i);
            }
            i += 1;
        }
        None
    }

    /// The path of the resource named `name` with `elements` in the place
    /// of its variable segments.
    pub fn resource_path(&self, name: &str, elements: &[&str]) -> (r: Result<
        String,
        UrlGenerationError,
    >)
        requires
            self.wf(),
        ensures
            match self.named(name@) {
                None => r == Err::<String, _>(UrlGenerationError::ResourceNotFound),
                Some(res) => match path_of(res, self.0.prefix@, texts(elements@)) {
                    Ok(path) => r matches Ok(p) && p@ == path,
                    Err(err) => r == Err::<String, _>(err),
                },
            },
    {
        let mut i: usize = self.0.named.len();
        assert(self.0.named@.take(i as int) =~= self.0.named@);
        while i > 0
            invariant
                self.wf(),
                i <= self.0.named@.len(),
                named_slot(self.0.named@, name@) == named_slot(
                    self.0.named@.take(i as int),
                    name@,
                ),
            decreases i,
        {
            i -= 1;
            proof {
                assert(self.0.named@.take(i + 1).drop_last() =~= self.0.named@.take(i as int));
                assert(self.0.named@.take(i + 1).last() == self.0.named@[i as int]);
            }
            if str_eq(self.0.named[i].0.as_str(), name) {
                let at = self.0.named[i].1;
                return self.0.resources[at].resource_path(self, elements);
            }
        }
        Err(UrlGenerationError::ResourceNotFound)
    }
}

/// Router completeness: whatever the patterns and the path, the place
/// that is found is that of a pattern that matches, and it is the lowest
/// such place; and where none is found no pattern matches.
pub proof fn lemma_router_completeness(patterns: Seq<Resource>, path: Seq<char>)
    ensures
        match first_match(patterns, path) {
            Some(i) => 0 <= i < patterns.len() && patterns[i].matches(path) && forall|j: int|
                0 <= j < i ==> !(#[trigger] patterns[j]).matches(path),
            None => forall|j: int| 0 <= j < patterns.len() ==> !(#[trigger] patterns[j]).matches(
                path,
            ),
        },
{
    if exists|i: int| 0 <= i < patterns.len() && (#[trigger] patterns[i]).matches(path) {
        lemma_lowest_exists(patterns, path, patterns.len() as int);
    }
}

/// Among the first `upto` patterns, if one matches, one matches at a place
/// below which none does.
proof fn lemma_lowest_exists(patterns: Seq<Resource>, path: Seq<char>, upto: int)
    requires
        0 <= upto <= patterns.len(),
        exists|i: int| 0 <= i < upto && (#[trigger] patterns[i]).matches(path),
    ensures
        exists|i: int|
            0 <= i < patterns.len() && (#[trigger] patterns[i]).matches(path) && forall|j: int|
                0 <= j < i ==> !(#[trigger] patterns[j]).matches(path),
    decreases upto,
{
    let w = choose|i: int| 0 <= i < upto && (#[trigger] patterns[i]).matches(path);
    if exists|j: int| 0 <= j < w && (#[trigger] patterns[j]).matches(path) {
        lemma_lowest_exists(patterns, path, w);
    } else {
        assert(patterns[w].matches(path) && forall|j: int|
            0 <= j < w ==> !(#[trigger] patterns[j]).matches(path));
    }
}

} // verus!
