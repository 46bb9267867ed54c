use vstd::prelude::*;

use crate::addr::is_digit;
use crate::config::{contains_name, Config};
use crate::error::{ctx_matches, Error, ErrorContext};
use crate::service::{
    collect_err_matches, empty_options, missing_err_matches, prop_spans_wf, props_spans_wf,
    spec_collect, spec_finalize, spec_merge, CollectErr, OptionModel, Service, ServiceG,
    ServiceOption,
};
use crate::span::Span;
use crate::text::{range_eq_str, range_to_string, str_to_chars};

verus! {

pub open spec fn is_ws(c: char) -> bool {
    c == ' ' || c == '\t' || c == '\n' || c == '\r'
}

pub open spec fn is_inline_ws(c: char) -> bool {
    c == ' ' || c == '\t' || c == '\r'
}

pub open spec fn is_letter(c: char) -> bool {
    (65 <= c as u32 && c as u32 <= 90) || (97 <= c as u32 && c as u32 <= 122)
}

pub open spec fn is_ident_start(c: char) -> bool {
    is_letter(c) || c == '_'
}

pub open spec fn is_ident_char(c: char) -> bool {
    is_ident_start(c) || is_digit(c)
}

/// The first position at or after `i` that is outside whitespace and
/// comments; a comment runs from `#` to the end of its line.
pub open spec fn skip_ws_from(s: Seq<char>, i: int, in_comment: bool) -> int
    decreases s.len() - i,
{
    if i < 0 || i >= s.len() {
        i
    } else if in_comment {
        skip_ws_from(s, i + 1, s[i] != '\n')
    } else if is_ws(s[i]) {
        skip_ws_from(s, i + 1, false)
    } else if s[i] == '#' {
        skip_ws_from(s, i + 1, true)
    } else {
        i
    }
}

pub open spec fn skip_ws(s: Seq<char>, i: int) -> int {
    skip_ws_from(s, i, false)
}

proof fn lemma_skip_ws_bounds(s: Seq<char>, i: int, in_comment: bool)
    requires
        0 <= i <= s.len(),
    ensures
        i <= skip_ws_from(s, i, in_comment) <= s.len(),
    decreases s.len() - i,
{
    if i < s.len() {
        if in_comment {
            lemma_skip_ws_bounds(s, i + 1, s[i] != '\n');
        } else if is_ws(s[i]) {
            lemma_skip_ws_bounds(s, i + 1, false);
        } else if s[i] == '#' {
            lemma_skip_ws_bounds(s, i + 1, true);
        }
    }
}

/// The position after the maximal identifier-character run at `i`.
pub open spec fn scan_ident_end(s: Seq<char>, i: int) -> int
    decreases s.len() - i,
{
    if 0 <= i < s.len() && is_ident_char(s[i]) {
        scan_ident_end(s, i + 1)
    } else {
        i
    }
}

/// The position after the identifier written at `i`, or `i` where none
/// stands: a letter or underscore, then letters, digits and underscores.
pub open spec fn ident_end(s: Seq<char>, i: int) -> int {
    if 0 <= i < s.len() && is_ident_start(s[i]) {
        scan_ident_end(s, i)
    } else {
        i
    }
}

proof fn lemma_scan_ident_bounds(s: Seq<char>, i: int)
    requires
        0 <= i <= s.len(),
    ensures
        i <= scan_ident_end(s, i) <= s.len(),
        i <= ident_end(s, i) <= s.len(),
    decreases s.len() - i,
{
    if 0 <= i < s.len() && is_ident_char(s[i]) {
        lemma_scan_ident_bounds(s, i + 1);
    }
}

/// The first position at or after `i` not holding a space, tab or
/// carriage return.
pub open spec fn skip_inline(s: Seq<char>, i: int) -> int
    decreases s.len() - i,
{
    if 0 <= i < s.len() && is_inline_ws(s[i]) {
        skip_inline(s, i + 1)
    } else {
        i
    }
}

proof fn lemma_skip_inline_bounds(s: Seq<char>, i: int)
    requires
        0 <= i <= s.len(),
    ensures
        i <= skip_inline(s, i) <= s.len(),
    decreases s.len() - i,
{
    if 0 <= i < s.len() && is_inline_ws(s[i]) {
        lemma_skip_inline_bounds(s, i + 1);
    }
}

/// The position of the next line break at or after `i`, or the text's
/// end.
pub open spec fn skip_line(s: Seq<char>, i: int) -> int
    decreases s.len() - i,
{
    if 0 <= i < s.len() && s[i] != '\n' {
        skip_line(s, i + 1)
    } else {
        i
    }
}

proof fn lemma_skip_line_bounds(s: Seq<char>, i: int)
    requires
        0 <= i <= s.len(),
    ensures
        i <= skip_line(s, i) <= s.len(),
    decreases s.len() - i,
{
    if 0 <= i < s.len() && s[i] != '\n' {
        lemma_skip_line_bounds(s, i + 1);
    }
}

/// `j` moved back over trailing spaces, tabs and carriage returns, but
/// not past `i`.
pub open spec fn rtrim_end(s: Seq<char>, i: int, j: int) -> int
    decreases j,
{
    if i < j && 0 < j <= s.len() && is_inline_ws(s[j - 1]) {
        rtrim_end(s, i, j - 1)
    } else {
        j
    }
}

proof fn lemma_rtrim_bounds(s: Seq<char>, i: int, j: int)
    requires
        0 <= i <= j <= s.len(),
    ensures
        i <= rtrim_end(s, i, j) <= j,
    decreases j,
{
    if i < j && is_inline_ws(s[j - 1]) {
        lemma_rtrim_bounds(s, i, j - 1);
    }
}

fn skip_ws_at(v: &Vec<char>, i: usize) -> (j: usize)
    requires
        i <= v.len(),
    ensures
        j == skip_ws(v@, i as int),
        i <= j <= v.len(),
{
    let mut j = i;
    let mut com = false;
    while j < v.len() && (com || v[j] == ' ' || v[j] == '\t' || v[j] == '\n' || v[j] == '\r' || v[j]
        == '#')
        invariant
            i <= j <= v.len(),
            skip_ws_from(v@, i as int, false) == skip_ws_from(v@, j as int, com),
        decreases v.len() - j,
    {
        if com {
            com = v[j] != '\n';
        } else if v[j] == '#' {
            com = true;
        }
        j = j + 1;
    }
    j
}

fn scan_ident(v: &Vec<char>, i: usize) -> (j: usize)
    requires
        i <= v.len(),
    ensures
        j == ident_end(v@, i as int),
        i <= j <= v.len(),
{
    if !(i < v.len() && (ident_start_at(v, i))) {
        return i;
    }
    let mut j = i;
    while j < v.len() && ident_char_at(v, j)
        invariant
            i <= j <= v.len(),
            scan_ident_end(v@, i as int) == scan_ident_end(v@, j as int),
        decreases v.len() - j,
    {
        j = j + 1;
    }
    j
}

fn ident_start_at(v: &Vec<char>, i: usize) -> (r: bool)
    requires
        i < v.len(),
    ensures
        r == is_ident_start(v@[i as int]),
{
    let u = v[i] as u32;
    (65 <= u && u <= 90) || (97 <= u && u <= 122) || v[i] == '_'
}

fn ident_char_at(v: &Vec<char>, i: usize) -> (r: bool)
    requires
        i < v.len(),
    ensures
        r == is_ident_char(v@[i as int]),
{
    let u = v[i] as u32;
    (65 <= u && u <= 90) || (97 <= u && u <= 122) || v[i] == '_' || (48 <= u && u <= 57)
}

fn skip_inline_at(v: &Vec<char>, i: usize) -> (j: usize)
    requires
        i <= v.len(),
    ensures
        j == skip_inline(v@, i as int),
        i <= j <= v.len(),
{
    let mut j = i;
    while j < v.len() && (v[j] == ' ' || v[j] == '\t' || v[j] == '\r')
        invariant
            i <= j <= v.len(),
            skip_inline(v@, i as int) == skip_inline(v@, j as int),
        decreases v.len() - j,
    {
        j = j + 1;
    }
    j
}

pub(crate) fn skip_line_at(v: &Vec<char>, i: usize) -> (j: usize)
    requires
        i <= v.len(),
    ensures
        j == skip_line(v@, i as int),
        i <= j <= v.len(),
{
    let mut j = i;
    while j < v.len() && v[j] != '\n'
        invariant
            i <= j <= v.len(),
            skip_line(v@, i as int) == skip_line(v@, j as int),
        decreases v.len() - j,
    {
        j = j + 1;
    }
    j
}

fn rtrim_at(v: &Vec<char>, i: usize, j: usize) -> (r: usize)
    requires
        i <= j <= v.len(),
    ensures
        r == rtrim_end(v@, i as int, j as int),
        i <= r <= j,
{
    let mut r = j;
    while i < r && (v[r - 1] == ' ' || v[r - 1] == '\t' || v[r - 1] == '\r')
        invariant
            i <= r <= j <= v.len(),
            rtrim_end(v@, i as int, j as int) == rtrim_end(v@, i as int, r as int),
        decreases r,
    {
        r = r - 1;
    }
    r
}

/// One `name = value` line of a block, with the spans of the name and of
/// the trimmed value.
#[derive(Debug, Clone, PartialEq, Eq)]
pub struct RawProperty {
    pub name: String,
    pub name_span: Span,
    pub value: String,
    pub value_span: Span,
}

/// The mathematical reading of a `RawProperty`.
#[verifier::ext_equal]
pub struct PropG {
    pub name: Seq<char>,
    pub name_lo: int,
    pub name_hi: int,
    pub value: Seq<char>,
    pub value_lo: int,
    pub value_hi: int,
}

impl View for RawProperty {
    type V = PropG;

    open spec fn view(&self) -> PropG {
        PropG {
            name: self.name@,
            name_lo: self.name_span.lo as int,
            name_hi: self.name_span.hi as int,
            value: self.value@,
            value_lo: self.value_span.lo as int,
            value_hi: self.value_span.hi as int,
        }
    }
}

/// The readings of a whole property list.
pub open spec fn props_view(v: Seq<RawProperty>) -> Seq<PropG> {
    v.map_values(|p: RawProperty| p@)
}

/// One top-level block of the configuration text.
#[derive(Debug, Clone, PartialEq, Eq)]
pub enum RawItem {
    DefaultBlock { body: Vec<RawProperty>, span: Span },
    ServiceBlock { name: String, name_span: Span, body: Vec<RawProperty>, span: Span },
}

/// The mathematical reading of a `RawItem`.
#[verifier::ext_equal]
pub enum ItemG {
    DefaultBlock { body: Seq<PropG>, lo: int, hi: int },
    ServiceBlock { name: Seq<char>, name_lo: int, name_hi: int, body: Seq<PropG>, lo: int, hi: int },
}

impl View for RawItem {
    type V = ItemG;

    open spec fn view(&self) -> ItemG {
        match self {
            RawItem::DefaultBlock { body, span } => ItemG::DefaultBlock {
                body: props_view(body@),
                lo: span.lo as int,
                hi: span.hi as int,
            },
            RawItem::ServiceBlock { name, name_span, body, span } => ItemG::ServiceBlock {
                name: name@,
                name_lo: name_span.lo as int,
                name_hi: name_span.hi as int,
                body: props_view(body@),
                lo: span.lo as int,
                hi: span.hi as int,
            },
        }
    }
}

/// The readings of a whole item list.
pub open spec fn items_view(v: Seq<RawItem>) -> Seq<ItemG> {
    v.map_values(|it: RawItem| it@)
}

/// The property written at `i`: an identifier, an equals sign, then the
/// rest of the line with outer whitespace trimmed. On failure, the
/// position where reading stopped.
pub open spec fn spec_parse_property(s: Seq<char>, i: int) -> Result<(PropG, int), int> {
    let ne = ident_end(s, i);
    if ne == i {
        Err(i)
    } else {
        let k = skip_inline(s, ne);
        if k < s.len() && s[k] == '=' {
            let vs = skip_inline(s, k + 1);
            let ve_raw = skip_line(s, vs);
            let ve = rtrim_end(s, vs, ve_raw);
            let next = if ve_raw < s.len() {
                ve_raw + 1
            } else {
                ve_raw
            };
            Ok(
                (
                    PropG {
                        name: s.subrange(i, ne),
                        name_lo: i,
                        name_hi: ne,
                        value: s.subrange(vs, ve),
                        value_lo: vs,
                        value_hi: ve,
                    },
                    next,
                ),
            )
        } else {
            Err(k)
        }
    }
}

proof fn lemma_property_bounds(s: Seq<char>, i: int)
    requires
        0 <= i <= s.len(),
    ensures
        spec_parse_property(s, i) matches Ok(t) ==> i < t.1 <= s.len(),
        spec_parse_property(s, i) matches Err(e) ==> i <= e <= s.len(),
{
    lemma_scan_ident_bounds(s, i);
    let ne = ident_end(s, i);
    lemma_skip_inline_bounds(s, ne);
    let k = skip_inline(s, ne);
    if k < s.len() && s[k] == '=' {
        lemma_skip_inline_bounds(s, k + 1);
        let vs = skip_inline(s, k + 1);
        lemma_skip_line_bounds(s, vs);
        let ve_raw = skip_line(s, vs);
        lemma_rtrim_bounds(s, vs, ve_raw);
    }
}

/// The properties of a block body after its `{`, up to and past the
/// closing `}`; `i` stands on the first non-whitespace position.
pub open spec fn spec_parse_props(s: Seq<char>, i: int) -> Result<(Seq<PropG>, int), int>
    decreases s.len() - i,
    when 0 <= i <= s.len()
    via spec_parse_props_decreases
{
    if i >= s.len() {
        Err(i)
    } else if s[i] == '}' {
        Ok((Seq::empty(), i + 1))
    } else {
        match spec_parse_property(s, i) {
            Err(e) => Err(e),
            Ok((p, next)) => match spec_parse_props(s, skip_ws(s, next)) {
                Err(e) => Err(e),
                Ok((ps, end)) => Ok((seq![p] + ps, end)),
            },
        }
    }
}

#[via_fn]
proof fn spec_parse_props_decreases(s: Seq<char>, i: int) {
    if 0 <= i < s.len() && s[i] != '}' {
        lemma_property_bounds(s, i);
        match spec_parse_property(s, i) {
            Ok((p, next)) => {
                lemma_skip_ws_bounds(s, next, false);
            },
            Err(_) => {},
        }
    }
}

proof fn lemma_props_bounds(s: Seq<char>, i: int)
    requires
        0 <= i <= s.len(),
    ensures
        spec_parse_props(s, i) matches Ok(t) ==> i < t.1 <= s.len(),
    decreases s.len() - i,
{
    if i < s.len() && s[i] != '}' {
        lemma_property_bounds(s, i);
        match spec_parse_property(s, i) {
            Ok((p, next)) => {
                lemma_skip_ws_bounds(s, next, false);
                lemma_props_bounds(s, skip_ws(s, next));
            },
            Err(_) => {},
        }
    }
}

/// The block body written at `i`: `{`, whitespace and properties, `}`.
pub open spec fn spec_parse_body(s: Seq<char>, i: int) -> Result<(Seq<PropG>, int), int> {
    if 0 <= i < s.len() && s[i] == '{' {
        spec_parse_props(s, skip_ws(s, i + 1))
    } else {
        Err(i)
    }
}

proof fn lemma_body_bounds(s: Seq<char>, i: int)
    requires
        0 <= i <= s.len(),
    ensures
        spec_parse_body(s, i) matches Ok(t) ==> i < t.1 <= s.len(),
{
    if 0 <= i < s.len() && s[i] == '{' {
        lemma_skip_ws_bounds(s, i + 1, false);
        lemma_props_bounds(s, skip_ws(s, i + 1));
    }
}

/// The top-level items from position `i` to the end of the text; `i`
/// stands on the first non-whitespace position.
pub open spec fn spec_parse_items(s: Seq<char>, i: int) -> Result<Seq<ItemG>, int>
    decreases s.len() - i,
    when 0 <= i <= s.len()
    via spec_parse_items_decreases
{
    if i >= s.len() {
        Ok(Seq::empty())
    } else {
        let ne = ident_end(s, i);
        if ne == i {
            Err(i)
        } else if s.subrange(i, ne) == "default"@ {
            match spec_parse_body(s, skip_ws(s, ne)) {
                Err(e) => Err(e),
                Ok((props, next)) => match spec_parse_items(s, skip_ws(s, next)) {
                    Err(e) => Err(e),
                    Ok(items) => Ok(
                        seq![ItemG::DefaultBlock { body: props, lo: i, hi: next }] + items,
                    ),
                },
            }
        } else if s.subrange(i, ne) == "service"@ {
            let ns = skip_ws(s, ne);
            let nne = ident_end(s, ns);
            if nne == ns {
                Err(ns)
            } else {
                match spec_parse_body(s, skip_ws(s, nne)) {
                    Err(e) => Err(e),
                    Ok((props, next)) => match spec_parse_items(s, skip_ws(s, next)) {
                        Err(e) => Err(e),
                        Ok(items) => Ok(
                            seq![
                                ItemG::ServiceBlock {
                                    name: s.subrange(ns, nne),
                                    name_lo: ns,
                                    name_hi: nne,
                                    body: props,
                                    lo: i,
                                    hi: next,
                                },
                            ] + items,
                        ),
                    },
                }
            }
        } else {
            Err(i)
        }
    }
}

#[via_fn]
proof fn spec_parse_items_decreases(s: Seq<char>, i: int) {
    if 0 <= i < s.len() {
        lemma_scan_ident_bounds(s, i);
        let ne = ident_end(s, i);
        if ne != i {
            lemma_skip_ws_bounds(s, ne, false);
            let b1 = skip_ws(s, ne);
            lemma_body_bounds(s, b1);
            match spec_parse_body(s, b1) {
                Ok((props, next)) => {
                    lemma_skip_ws_bounds(s, next, false);
                },
                Err(_) => {},
            }
            let ns = skip_ws(s, ne);
            lemma_scan_ident_bounds(s, ns);
            let nne = ident_end(s, ns);
            lemma_skip_ws_bounds(s, nne, false);
            let b2 = skip_ws(s, nne);
            lemma_body_bounds(s, b2);
            match spec_parse_body(s, b2) {
                Ok((props, next)) => {
                    lemma_skip_ws_bounds(s, next, false);
                },
                Err(_) => {},
            }
        }
    }
}

/// The whole configuration text read as top-level items.
pub open spec fn spec_parse_file(s: Seq<char>) -> Result<Seq<ItemG>, int> {
    spec_parse_items(s, skip_ws(s, 0))
}

fn parse_property(v: &Vec<char>, i: usize) -> (r: Result<(RawProperty, usize), usize>)
    requires
        i <= v.len(),
    ensures
        match r {
            Ok(t) => {
                &&& spec_parse_property(v@, i as int) matches Ok(st)
                &&& st.0 == t.0@
                &&& st.1 == t.1 as int
                &&& i < t.1 <= v.len()
            },
            Err(e) => spec_parse_property(v@, i as int) matches Err(se) && se == e as int
                && e <= v.len(),
        },
{
    proof {
        lemma_property_bounds(v@, i as int);
    }
    let ne = scan_ident(v, i);
    if ne == i {
        return Err(i);
    }
    let k = skip_inline_at(v, ne);
    if !(k < v.len() && v[k] == '=') {
        return Err(k);
    }
    let vs = skip_inline_at(v, k + 1);
    let ve_raw = skip_line_at(v, vs);
    let ve = rtrim_at(v, vs, ve_raw);
    let next = if ve_raw < v.len() {
        ve_raw + 1
    } else {
        ve_raw
    };
    let name = range_to_string(v, i, ne);
    let value = range_to_string(v, vs, ve);
    let p = RawProperty {
        name,
        name_span: Span { lo: i, hi: ne },
        value,
        value_span: Span { lo: vs, hi: ve },
    };
    proof {
        assert(p@ =~= spec_parse_property(v@, i as int)->Ok_0.0);
    }
    Ok((p, next))
}

fn parse_body(v: &Vec<char>, i: usize) -> (r: Result<(Vec<RawProperty>, usize), usize>)
    requires
        i <= v.len(),
    ensures
        match r {
            Ok(t) => {
                &&& spec_parse_body(v@, i as int) matches Ok(st)
                &&& st.0 == props_view(t.0@)
                &&& st.1 == t.1 as int
                &&& i < t.1 <= v.len()
            },
            Err(e) => spec_parse_body(v@, i as int) matches Err(se) && se == e as int && e
                <= v.len(),
        },
{
    if !(i < v.len() && v[i] == '{') {
        return Err(i);
    }
    let mut j = skip_ws_at(v, i + 1);
    let ghost start = j as int;
    let ghost full = spec_parse_props(v@, start);
    let mut acc: Vec<RawProperty> = Vec::new();
    loop
        invariant
            i < j <= v.len(),
            full == spec_parse_props(v@, start),
            start == skip_ws(v@, i + 1),
            i < v.len() && v@[i as int] == '{',
            0 <= start <= v.len(),
            full == (match spec_parse_props(v@, j as int) {
                Ok(t) => Ok::<(Seq<PropG>, int), int>((props_view(acc@) + t.0, t.1)),
                Err(e) => Err::<(Seq<PropG>, int), int>(e),
            }),
        decreases v.len() - j,
    {
        if j >= v.len() {
            proof {
                assert(spec_parse_props(v@, j as int) == Err::<(Seq<PropG>, int), int>(j as int));
            }
            return Err(j);
        }
        if v[j] == '}' {
            proof {
                assert(props_view(acc@) + Seq::<PropG>::empty() =~= props_view(acc@));
            }
            return Ok((acc, j + 1));
        }
        match parse_property(v, j) {
            Err(e) => {
                return Err(e);
            },
            Ok((p, next)) => {
                let ghost acc_old = acc@;
                let ghost rest_old = spec_parse_props(v@, j as int);
                acc.push(p);
                j = skip_ws_at(v, next);
                proof {
                    assert(props_view(acc@) =~= props_view(acc_old) + seq![p@]);
                    match spec_parse_props(v@, j as int) {
                        Ok(t) => {
                            assert(rest_old matches Ok(rt) && rt.0 == seq![p@] + t.0 && rt.1
                                == t.1);
                            assert((props_view(acc_old) + (seq![p@] + t.0)) =~= (props_view(acc@)
                                + t.0));
                        },
                        Err(e) => {},
                    }
                }
            },
        }
    }
}

#[verifier::rlimit(30)]
fn parse_items(v: &Vec<char>) -> (r: Result<Vec<RawItem>, usize>)
    ensures
        match r {
            Ok(items) => spec_parse_file(v@) matches Ok(g) && g == items_view(items@),
            Err(e) => spec_parse_file(v@) matches Err(se) && se == e as int && e <= v.len(),
        },
{
    let mut i = skip_ws_at(v, 0);
    let ghost start = i as int;
    let ghost full = spec_parse_items(v@, start);
    let mut acc: Vec<RawItem> = Vec::new();
    loop
        invariant
            i <= v.len(),
            full == spec_parse_items(v@, start),
            full == spec_parse_file(v@),
            0 <= start <= v.len(),
            full == (match spec_parse_items(v@, i as int) {
                Ok(g) => Ok::<Seq<ItemG>, int>(items_view(acc@) + g),
                Err(e) => Err::<Seq<ItemG>, int>(e),
            }),
        decreases v.len() - i,
    {
        if i >= v.len() {
            proof {
                assert(items_view(acc@) + Seq::<ItemG>::empty() =~= items_view(acc@));
            }
            return Ok(acc);
        }
        let ghost i_old = i as int;
        let ne = scan_ident(v, i);
        if ne == i {
            return Err(i);
        }
        if range_eq_str(v, i, ne, "default") {
            let bstart = skip_ws_at(v, ne);
            match parse_body(v, bstart) {
                Err(e) => {
                    return Err(e);
                },
                Ok((props, next)) => {
                    let ghost acc_old = acc@;
                    let item = RawItem::DefaultBlock {
                        body: props,
                        span: Span { lo: i, hi: next },
                    };
                    acc.push(item);
                    i = skip_ws_at(v, next);
                    proof {
                        let g_item = ItemG::DefaultBlock {
                            body: props_view(props@),
                            lo: i_old,
                            hi: next as int,
                        };
                        assert(item@ =~~= g_item);
                        assert(items_view(acc@) =~= items_view(acc_old) + seq![g_item]);
                        match spec_parse_items(v@, i as int) {
                            Ok(g) => {
                                assert(spec_parse_items(v@, i_old) == Ok::<Seq<ItemG>, int>(
                                    seq![g_item] + g,
                                ));
                                assert(items_view(acc_old) + (seq![g_item] + g) =~= items_view(acc@)
                                    + g);
                            },
                            Err(e) => {},
                        }
                    }
                },
            }
        } else if range_eq_str(v, i, ne, "service") {
            let ns = skip_ws_at(v, ne);
            let nne = scan_ident(v, ns);
            if nne == ns {
                return Err(ns);
            }
            let bstart = skip_ws_at(v, nne);
            match parse_body(v, bstart) {
                Err(e) => {
                    return Err(e);
                },
                Ok((props, next)) => {
                    let ghost acc_old = acc@;
                    let name = range_to_string(v, ns, nne);
                    let item = RawItem::ServiceBlock {
                        name,
                        name_span: Span { lo: ns, hi: nne },
                        body: props,
                        span: Span { lo: i, hi: next },
                    };
                    acc.push(item);
                    i = skip_ws_at(v, next);
                    proof {
                        let g_item = ItemG::ServiceBlock {
                            name: v@.subrange(ns as int, nne as int),
                            name_lo: ns as int,
                            name_hi: nne as int,
                            body: props_view(props@),
                            lo: i_old,
                            hi: next as int,
                        };
                        assert(item@ =~~= g_item);
                        assert(items_view(acc@) =~= items_view(acc_old) + seq![g_item]);
                        match spec_parse_items(v@, i as int) {
                            Ok(g) => {
                                assert(spec_parse_items(v@, i_old) == Ok::<Seq<ItemG>, int>(
                                    seq![g_item] + g,
                                ));
                                assert(items_view(acc_old) + (seq![g_item] + g) =~= items_view(acc@)
                                    + g);
                            },
                            Err(e) => {},
                        }
                    }
                },
            }
        } else {
            return Err(i);
        }
    }
}

/// Spans of an item that lie inside a text of length `n`.
pub open spec fn item_wf(it: ItemG, n: int) -> bool {
    match it {
        ItemG::DefaultBlock { body, lo, hi } => {
            &&& 0 <= lo <= hi <= n
            &&& props_spans_wf(body, n)
        },
        ItemG::ServiceBlock { name, name_lo, name_hi, body, lo, hi } => {
            &&& 0 <= lo <= hi <= n
            &&& 0 <= name_lo <= name_hi <= n
            &&& props_spans_wf(body, n)
        },
    }
}

pub open spec fn items_wf(its: Seq<ItemG>, n: int) -> bool {
    forall|k: int| 0 <= k < its.len() ==> #[trigger] item_wf(its[k], n)
}

proof fn lemma_property_spans(s: Seq<char>, i: int)
    requires
        0 <= i <= s.len(),
    ensures
        spec_parse_property(s, i) matches Ok(t) ==> prop_spans_wf(t.0, s.len() as int),
{
    lemma_scan_ident_bounds(s, i);
    let ne = ident_end(s, i);
    lemma_skip_inline_bounds(s, ne);
    let k = skip_inline(s, ne);
    if k < s.len() && s[k] == '=' {
        lemma_skip_inline_bounds(s, k + 1);
        let vs = skip_inline(s, k + 1);
        lemma_skip_line_bounds(s, vs);
        let ve_raw = skip_line(s, vs);
        lemma_rtrim_bounds(s, vs, ve_raw);
    }
}

proof fn lemma_props_wf(s: Seq<char>, i: int)
    requires
        0 <= i <= s.len(),
    ensures
        spec_parse_props(s, i) matches Ok(t) ==> props_spans_wf(t.0, s.len() as int),
    decreases s.len() - i,
{
    if i < s.len() && s[i] != '}' {
        lemma_property_bounds(s, i);
        lemma_property_spans(s, i);
        match spec_parse_property(s, i) {
            Ok((p, next)) => {
                lemma_skip_ws_bounds(s, next, false);
                lemma_props_wf(s, skip_ws(s, next));
                match spec_parse_props(s, skip_ws(s, next)) {
                    Ok((ps, end)) => {
                        assert forall|k: int|
                            0 <= k < (seq![p] + ps).len() implies #[trigger] prop_spans_wf(
                            (seq![p] + ps)[k],
                            s.len() as int,
                        ) by {
                            if k > 0 {
                                assert((seq![p] + ps)[k] == ps[k - 1]);
                                assert(prop_spans_wf(ps[k - 1], s.len() as int));
                            }
                        }
                    },
                    Err(_) => {},
                }
            },
            Err(_) => {},
        }
    }
}

proof fn lemma_body_wf(s: Seq<char>, i: int)
    requires
        0 <= i <= s.len(),
    ensures
        spec_parse_body(s, i) matches Ok(t) ==> props_spans_wf(t.0, s.len() as int),
{
    if 0 <= i < s.len() && s[i] == '{' {
        lemma_skip_ws_bounds(s, i + 1, false);
        lemma_props_wf(s, skip_ws(s, i + 1));
    }
}

proof fn lemma_items_wf(s: Seq<char>, i: int)
    requires
        0 <= i <= s.len(),
    ensures
        spec_parse_items(s, i) matches Ok(items) ==> items_wf(items, s.len() as int),
    decreases s.len() - i,
{
    if 0 <= i < s.len() {
        lemma_scan_ident_bounds(s, i);
        let ne = ident_end(s, i);
        if ne != i {
            if s.subrange(i, ne) == "default"@ {
                let b1 = skip_ws(s, ne);
                lemma_skip_ws_bounds(s, ne, false);
                lemma_body_bounds(s, b1);
                lemma_body_wf(s, b1);
                match spec_parse_body(s, b1) {
                    Ok((props, next)) => {
                        lemma_skip_ws_bounds(s, next, false);
                        lemma_items_wf(s, skip_ws(s, next));
                        match spec_parse_items(s, skip_ws(s, next)) {
                            Ok(items) => {
                                let it = ItemG::DefaultBlock { body: props, lo: i, hi: next };
                                assert(item_wf(it, s.len() as int));
                                assert forall|k: int|
                                    0 <= k < (seq![it] + items).len() implies #[trigger] item_wf(
                                    (seq![it] + items)[k],
                                    s.len() as int,
                                ) by {
                                    if k > 0 {
                                        assert((seq![it] + items)[k] == items[k - 1]);
                                        assert(item_wf(items[k - 1], s.len() as int));
                                    }
                                }
                            },
                            Err(_) => {},
                        }
                    },
                    Err(_) => {},
                }
            } else if s.subrange(i, ne) == "service"@ {
                let ns = skip_ws(s, ne);
                lemma_skip_ws_bounds(s, ne, false);
                lemma_scan_ident_bounds(s, ns);
                let nne = ident_end(s, ns);
                if nne != ns {
                    let b2 = skip_ws(s, nne);
                    lemma_skip_ws_bounds(s, nne, false);
                    lemma_body_bounds(s, b2);
                    lemma_body_wf(s, b2);
                    match spec_parse_body(s, b2) {
                        Ok((props, next)) => {
                            lemma_skip_ws_bounds(s, next, false);
                            lemma_items_wf(s, skip_ws(s, next));
                            match spec_parse_items(s, skip_ws(s, next)) {
                                Ok(items) => {
                                    let it = ItemG::ServiceBlock {
                                        name: s.subrange(ns, nne),
                                        name_lo: ns,
                                        name_hi: nne,
                                        body: props,
                                        lo: i,
                                        hi: next,
                                    };
                                    assert(item_wf(it, s.len() as int));
                                    assert forall|k: int|
                                        0 <= k < (seq![it] + items).len() implies #[trigger] item_wf(
                                        (seq![it] + items)[k],
                                        s.len() as int,
                                    ) by {
                                        if k > 0 {
                                            assert((seq![it] + items)[k] == items[k - 1]);
                                            assert(item_wf(items[k - 1], s.len() as int));
                                        }
                                    }
                                },
                                Err(_) => {},
                            }
                        },
                        Err(_) => {},
                    }
                }
            }
        }
    }
}

/// Why a parsed item list still made no configuration.
pub enum BuildErr {
    /// A block body was refused.
    Collect { err: CollectErr },
    /// A second service block bears an already-used name; the span is
    /// the second block's.
    DupService { name: Seq<char>, lo: int, hi: int },
    /// A service block leaves a required option unset.
    Missing { option: Seq<char>, service: Seq<char>, lo: int, hi: int },
}

/// The default options of an item list: each default block read on its
/// own, in order, the later replacing the earlier; `m` where none
/// stands.
pub open spec fn spec_defaults(items: Seq<ItemG>, m: OptionModel) -> Result<
    OptionModel,
    CollectErr,
>
    decreases items.len(),
{
    if items.len() == 0 {
        Ok(m)
    } else {
        match items[0] {
            ItemG::DefaultBlock { body, .. } => match spec_collect(empty_options(), body) {
                Err(e) => Err(e),
                Ok(d) => spec_defaults(items.drop_first(), d),
            },
            _ => spec_defaults(items.drop_first(), m),
        }
    }
}

/// One item taken into the service list: a service block is read,
/// filled from the defaults and made final; a reused name, a refused
/// body and a missing required option each stop the build; a default
/// block changes nothing here.
pub open spec fn spec_build_step(acc: Seq<ServiceG>, defaults: OptionModel, it: ItemG) -> Result<
    Seq<ServiceG>,
    BuildErr,
> {
    match it {
        ItemG::ServiceBlock { name, name_lo, name_hi, body, lo, hi } => {
            if contains_name(acc, name) {
                Err(BuildErr::DupService { name, lo, hi })
            } else {
                match spec_collect(empty_options(), body) {
                    Err(e) => Err(BuildErr::Collect { err: e }),
                    Ok(m) => match spec_finalize(spec_merge(m, defaults), name) {
                        Err(option) => Err(BuildErr::Missing { option, service: name, lo, hi }),
                        Ok(sg) => Ok(acc.push(sg)),
                    },
                }
            }
        },
        ItemG::DefaultBlock { .. } => Ok(acc),
    }
}

/// The services of an item list, in block order, one step per item.
pub open spec fn spec_build_services(
    items: Seq<ItemG>,
    defaults: OptionModel,
    acc: Seq<ServiceG>,
) -> Result<Seq<ServiceG>, BuildErr>
    decreases items.len(),
{
    if items.len() == 0 {
        Ok(acc)
    } else {
        match spec_build_step(acc, defaults, items[0]) {
            Err(e) => Err(e),
            Ok(acc2) => spec_build_services(items.drop_first(), defaults, acc2),
        }
    }
}

/// The configuration an item list builds: the whole file's defaults
/// first, then every service block under them.
pub open spec fn spec_build(items: Seq<ItemG>) -> Result<Seq<ServiceG>, BuildErr> {
    match spec_defaults(items, empty_options()) {
        Err(e) => Err(BuildErr::Collect { err: e }),
        Ok(d) => spec_build_services(items, d, Seq::empty()),
    }
}

/// The error a stopped build is reported as.
pub open spec fn build_err_matches(e: Error, be: BuildErr, src: Seq<char>) -> bool {
    match be {
        BuildErr::Collect { err } => collect_err_matches(e, err, src),
        BuildErr::DupService { name, lo, hi } => {
            &&& e matches Error::DuplicateService { service, context }
            &&& service@ == name
            &&& ctx_matches(context, src, lo, hi, Seq::<char>::empty())
        },
        BuildErr::Missing { option, service, lo, hi } => missing_err_matches(
            e,
            option,
            service,
            lo,
            hi,
            src,
        ),
    }
}

fn duplicate_service_err(name: &String, src: &Vec<char>, span: Span) -> (e: Error)
    requires
        span.lo <= span.hi <= src.len(),
        src.len() < usize::MAX,
    ensures
        e matches Error::DuplicateService { service, context } && service@ == name@ && ctx_matches(
            context,
            src@,
            span.lo as int,
            span.hi as int,
            Seq::<char>::empty(),
        ),
{
    let context = ErrorContext::new(src, span, String::new());
    Error::DuplicateService { service: name.clone(), context }
}

/// One service block taken into the configuration, as
/// `spec_build_step` says.
fn build_service_item(
    out: &mut Config,
    v: &Vec<char>,
    name: &String,
    body: &Vec<RawProperty>,
    span: Span,
    default_options: &ServiceOption,
    Ghost(git): Ghost<ItemG>,
) -> (r: Result<(), Error>)
    requires
        git == (ItemG::ServiceBlock {
            name: name@,
            name_lo: git->ServiceBlock_name_lo,
            name_hi: git->ServiceBlock_name_hi,
            body: props_view(body@),
            lo: span.lo as int,
            hi: span.hi as int,
        }),
        item_wf(git, v@.len() as int),
        v@.len() < usize::MAX,
        old(out).wf(),
    ensures
        match spec_build_step(old(out)@, default_options@, git) {
            Ok(acc2) => r is Ok && final(out)@ == acc2 && final(out).wf(),
            Err(be) => r matches Err(e) && build_err_matches(e, be, v@) && final(out)@ == old(
                out,
            )@,
        },
{
    if out.has_service(name.as_str()) {
        return Err(duplicate_service_err(name, v, span));
    }
    let mut service_option = ServiceOption::default();
    match service_option.update_from_body(v, body) {
        Ok(()) => {},
        Err(e) => {
            return Err(e);
        },
    }
    service_option.fill_with_defaults(default_options);
    let service = match Service::from_optioned(service_option, name.as_str(), v, span) {
        Ok(s) => s,
        Err(e) => {
            return Err(e);
        },
    };
    match out.add_service(service) {
        Ok(()) => Ok(()),
        Err(e) => Err(e),
    }
}

/// Reads a whole configuration text: grammar, option typing, defaults,
/// required options and name uniqueness, as `spec_parse_file` and
/// `spec_build` say. A successful read gives the services in block
/// order, their names unique.
#[verifier::rlimit(60)]
pub fn parse_config_str(config: &str) -> (r: Result<Config, Error>)
    requires
        config@.len() < usize::MAX,
    ensures
        match spec_parse_file(config@) {
            Err(pos) => r matches Err(e) && e matches Error::Parse { context } && ctx_matches(
                context,
                config@,
                pos,
                pos,
                "unexpected input"@,
            ),
            Ok(items) => match spec_build(items) {
                Ok(svcs) => r matches Ok(c) && c@ == svcs && c.wf(),
                Err(be) => r matches Err(e) && build_err_matches(e, be, config@),
            },
        },
{
    let v = str_to_chars(config);
    let items = match parse_items(&v) {
        Ok(its) => its,
        Err(pos) => {
            let context = ErrorContext::new(
                &v,
                Span { lo: pos, hi: pos },
                "unexpected input".to_owned(),
            );
            return Err(Error::Parse { context });
        },
    };
    let ghost gitems = items_view(items@);
    proof {
        lemma_skip_ws_bounds(v@, 0, false);
        lemma_items_wf(v@, skip_ws(v@, 0));
    }
    // First pass: the whole file's default options.
    let mut default_options = ServiceOption::default();
    let mut k: usize = 0;
    proof {
        assert(gitems.skip(0) =~= gitems);
    }
    while k < items.len()
        invariant
            k <= items.len(),
            gitems == items_view(items@),
            items_wf(gitems, v@.len() as int),
            v@.len() < usize::MAX,
            v@ == config@,
            spec_parse_file(config@) == Ok::<Seq<ItemG>, int>(gitems),
            spec_defaults(gitems, empty_options()) == spec_defaults(
                gitems.skip(k as int),
                default_options@,
            ),
        decreases items.len() - k,
    {
        proof {
            assert(gitems.skip(k as int)[0] == gitems[k as int]);
            assert(gitems.skip(k as int).drop_first() =~= gitems.skip(k + 1));
            assert(item_wf(gitems[k as int], v@.len() as int));
        }
        match &items[k] {
            RawItem::DefaultBlock { body, .. } => {
                match ServiceOption::from_body(&v, body) {
                    Ok(d) => {
                        default_options = d;
                    },
                    Err(e) => {
                        return Err(e);
                    },
                }
            },
            RawItem::ServiceBlock { .. } => {},
        }
        k = k + 1;
    }
    proof {
        assert(gitems.skip(gitems.len() as int) =~= Seq::<ItemG>::empty());
    }
    // Second pass: the service blocks, under those defaults.
    let mut out = Config::new();
    let mut k2: usize = 0;
    proof {
        assert(gitems.skip(0) =~= gitems);
    }
    while k2 < items.len()
        invariant
            k2 <= items.len(),
            gitems == items_view(items@),
            items_wf(gitems, v@.len() as int),
            v@.len() < usize::MAX,
            v@ == config@,
            spec_parse_file(config@) == Ok::<Seq<ItemG>, int>(gitems),
            out.wf(),
            spec_defaults(gitems, empty_options()) == Ok::<OptionModel, CollectErr>(
                default_options@,
            ),
            spec_build_services(gitems, default_options@, Seq::empty()) == spec_build_services(
                gitems.skip(k2 as int),
                default_options@,
                out@,
            ),
        decreases items.len() - k2,
    {
        proof {
            assert(gitems.skip(k2 as int)[0] == gitems[k2 as int]);
            assert(gitems.skip(k2 as int).drop_first() =~= gitems.skip(k2 + 1));
            assert(item_wf(gitems[k2 as int], v@.len() as int));
        }
        match &items[k2] {
            RawItem::ServiceBlock { name, body, span, .. } => {
                match build_service_item(
                    &mut out,
                    &v,
                    name,
                    body,
                    *span,
                    &default_options,
                    Ghost(gitems[k2 as int]),
                ) {
                    Ok(()) => {},
                    Err(e) => {
                        return Err(e);
                    },
                }
            },
            RawItem::DefaultBlock { .. } => {},
        }
        k2 = k2 + 1;
    }
    proof {
        assert(gitems.skip(gitems.len() as int) =~= Seq::<ItemG>::empty());
    }
    Ok(out)
}

} // verus!
