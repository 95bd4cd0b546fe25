use vstd::prelude::*;

use super::function::{FunctionMap, Input, ReturnMap};

verus! {

/// How a term map computes its values from a record.
#[derive(Debug, PartialEq)]
pub enum Expression {
    RDFNodeConstant { constant: String },
    Template { template: String },
    Reference { reference: String },
    FunctionExecution {
        function_map: Box<FunctionMap>,
        return_map: Option<Box<ReturnMap>>,
        inputs: Vec<Input>,
    },
}

/// The references an expression reads directly: those of a template, or
/// the one of a reference. Constants and function executions read none.
pub open spec fn expression_references(e: Expression) -> Seq<Seq<char>> {
    match e {
        Expression::Template { template } => template_references(template@),
        Expression::Reference { reference } => seq![reference@],
        _ => Seq::empty(),
    }
}

impl Expression {
    /// The reference expressions this expression reads, in order.
    pub fn references(&self) -> (r: Vec<String>)
        ensures
            strings_view(r@) == expression_references(*self),
    {
        match self {
            Expression::RDFNodeConstant { .. } => {
                let r: Vec<String> = Vec::new();
                assert(strings_view(r@) =~= Seq::empty());
                r
            },
            Expression::Template { template } => extract_template_references(template.as_str()),
            Expression::Reference { reference } => {
                let r = vec![reference.clone()];
                assert(strings_view(r@) =~= seq![reference@]);
                r
            },
            Expression::FunctionExecution { .. } => {
                let r: Vec<String> = Vec::new();
                assert(strings_view(r@) =~= Seq::empty());
                r
            },
        }
    }
}

/// An expression standing alone, as on either side of a join condition.
#[derive(Debug, PartialEq)]
pub struct ExpressionMap {
    pub expression: Expression,
}

impl ExpressionMap {
    pub fn new(expression: Expression) -> (r: Self)
        ensures
            r.expression == expression,
    {
        ExpressionMap { expression }
    }

    pub fn get_references(&self) -> (r: Vec<String>)
        ensures
            strings_view(r@) == expression_references(self.expression),
    {
        self.expression.references()
    }
}

/// One piece of a parsed template: literal text, or a reference whose
/// value is substituted.
pub enum Segment {
    Text(String),
    Reference(String),
}

/// The mathematical form of a template segment.
pub enum Part {
    Text(Seq<char>),
    Ref(Seq<char>),
}

impl View for Segment {
    type V = Part;

    open spec fn view(&self) -> Part {
        match self {
            Segment::Text(s) => Part::Text(s@),
            Segment::Reference(s) => Part::Ref(s@),
        }
    }
}

/// The state of the template scanner between two characters.
pub struct ScanState {
    pub in_ref: bool,
    pub escaped: bool,
    pub buf: Seq<char>,
    pub parts: Seq<Part>,
}

/// `parts` with `p` appended, unless `p` holds no characters.
pub open spec fn push_part(parts: Seq<Part>, p: Part) -> Seq<Part> {
    match p {
        Part::Text(s) => if s.len() == 0 { parts } else { parts.push(p) },
        Part::Ref(s) => if s.len() == 0 { parts } else { parts.push(p) },
    }
}

/// One step of the scanner on character `i` of template `t`.
/// A backslash makes the next character literal; an unescaped `{` opens a
/// reference unless a backslash follows it; an unescaped `}` closes it.
pub open spec fn scan_step(t: Seq<char>, i: int, st: ScanState) -> ScanState {
    let c = t[i];
    if st.escaped {
        ScanState { escaped: false, buf: st.buf.push(c), ..st }
    } else if c == '\\' {
        ScanState { escaped: true, ..st }
    } else if st.in_ref {
        if c == '}' {
            ScanState {
                in_ref: false,
                escaped: false,
                buf: Seq::empty(),
                parts: push_part(st.parts, Part::Ref(st.buf)),
            }
        } else {
            ScanState { buf: st.buf.push(c), ..st }
        }
    } else if c == '{' && !(i + 1 < t.len() && t[i + 1] == '\\') {
        ScanState {
            in_ref: true,
            escaped: false,
            buf: Seq::empty(),
            parts: push_part(st.parts, Part::Text(st.buf)),
        }
    } else {
        ScanState { buf: st.buf.push(c), ..st }
    }
}

/// The scanner run from character `i` to the end of `t`.
pub open spec fn scan_from(t: Seq<char>, i: int, st: ScanState) -> ScanState
    decreases t.len() - i,
{
    if i < 0 || i >= t.len() {
        st
    } else {
        scan_from(t, i + 1, scan_step(t, i, st))
    }
}

pub open spec fn scan_start() -> ScanState {
    ScanState { in_ref: false, escaped: false, buf: Seq::empty(), parts: Seq::empty() }
}

/// The segments of template `t`: what the scanner has collected, plus the
/// text or (unclosed) reference still in its buffer at the end.
pub open spec fn template_parts(t: Seq<char>) -> Seq<Part> {
    let st = scan_from(t, 0, scan_start());
    if st.in_ref {
        push_part(st.parts, Part::Ref(st.buf))
    } else {
        push_part(st.parts, Part::Text(st.buf))
    }
}

/// The references among `parts`, in order.
pub open spec fn part_refs(parts: Seq<Part>) -> Seq<Seq<char>>
    decreases parts.len(),
{
    if parts.len() == 0 {
        Seq::empty()
    } else {
        let rest = part_refs(parts.drop_last());
        match parts.last() {
            Part::Ref(r) => rest.push(r),
            Part::Text(_) => rest,
        }
    }
}

/// The references of template `t`, left to right.
pub open spec fn template_references(t: Seq<char>) -> Seq<Seq<char>> {
    part_refs(template_parts(t))
}

pub open spec fn segments_view(v: Seq<Segment>) -> Seq<Part> {
    v.map_values(|s: Segment| s@)
}

pub open spec fn strings_view(v: Seq<String>) -> Seq<Seq<char>> {
    v.map_values(|s: String| s@)
}

fn push_segment(parts: &mut Vec<Segment>, seg: Segment)
    ensures
        segments_view(final(parts)@) == push_part(segments_view(old(parts)@), seg@),
{
    let empty = match &seg {
        Segment::Text(s) => s.unicode_len() == 0,
        Segment::Reference(s) => s.unicode_len() == 0,
    };
    if !empty {
        parts.push(seg);
        assert(segments_view(parts@) =~= segments_view(old(parts)@).push(seg@));
    }
}

/// Splits a template into literal text and references.
pub fn parse_template(template: &str) -> (r: Vec<Segment>)
    ensures
        segments_view(r@) == template_parts(template@),
{
    let t = Ghost(template@);
    let n = template.unicode_len();
    let mut in_ref = false;
    let mut escaped = false;
    let mut buf = String::new();
    let mut parts: Vec<Segment> = Vec::new();
    let mut i: usize = 0;
    assert(segments_view(parts@) =~= Seq::empty());
    while i < n
        invariant
            n == t@.len(),
            t@ == template@,
            0 <= i <= n,
            scan_from(t@, 0, scan_start()) == scan_from(
                t@,
                i as int,
                ScanState { in_ref, escaped, buf: buf@, parts: segments_view(parts@) },
            ),
        decreases n - i,
    {
        let ghost before = ScanState { in_ref, escaped, buf: buf@, parts: segments_view(parts@) };
        let c = template.get_char(i);
        let one = template.substring_char(i, i + 1);
        assert(one@ =~= seq![c]);
        if escaped {
            escaped = false;
            buf.append(one);
        } else if c == '\\' {
            escaped = true;
        } else if in_ref {
            if c == '}' {
                in_ref = false;
                let done = buf;
                buf = String::new();
                push_segment(&mut parts, Segment::Reference(done));
            } else {
                buf.append(one);
            }
        } else {
            let opens = c == '{' && !(i + 1 < n && template.get_char(i + 1) == '\\');
            if opens {
                in_ref = true;
                let done = buf;
                buf = String::new();
                push_segment(&mut parts, Segment::Text(done));
            } else {
                buf.append(one);
            }
        }
        let ghost after = scan_step(t@, i as int, before);
        assert(buf@ =~= after.buf);
        assert(ScanState { in_ref, escaped, buf: buf@, parts: segments_view(parts@) } == after);
        i = i + 1;
    }
    if in_ref {
        push_segment(&mut parts, Segment::Reference(buf));
    } else {
        push_segment(&mut parts, Segment::Text(buf));
    }
    parts
}

/// The references among parsed segments, in order.
pub fn segment_references(parts: &Vec<Segment>) -> (r: Vec<String>)
    ensures
        strings_view(r@) == part_refs(segments_view(parts@)),
{
    let mut refs: Vec<String> = Vec::new();
    let mut i: usize = 0;
    while i < parts.len()
        invariant
            0 <= i <= parts.len(),
            strings_view(refs@) == part_refs(segments_view(parts@.subrange(0, i as int))),
        decreases parts.len() - i,
    {
        assert(segments_view(parts@.subrange(0, i + 1)).drop_last()
            =~= segments_view(parts@.subrange(0, i as int)));
        match &parts[i] {
            Segment::Reference(s) => {
                refs.push(s.clone());
                assert(strings_view(refs@) =~= strings_view(refs@.drop_last()).push(s@));
            },
            Segment::Text(_) => {},
        }
        i = i + 1;
    }
    assert(parts@.subrange(0, parts.len() as int) =~= parts@);
    refs
}

/// The references of a template, left to right: every brace-delimited
/// segment, with `\{` and `\}` read as literal braces and empty captures
/// left out.
pub fn extract_template_references(template: &str) -> (r: Vec<String>)
    ensures
        strings_view(r@) == template_references(template@),
{
    let parts = parse_template(template);
    segment_references(&parts)
}

/// Whether `u` holds none of the characters the template syntax gives a
/// meaning to.
pub open spec fn plain_text(u: Seq<char>) -> bool {
    forall|k: int| 0 <= k < u.len() ==> #[trigger] u[k] != '{' && u[k] != '}' && u[k] != '\\'
}

proof fn lemma_scan_plain(t: Seq<char>, i: int, j: int, st: ScanState)
    requires
        0 <= i <= j <= t.len(),
        !st.escaped,
        forall|k: int| i <= k < j ==> #[trigger] t[k] != '{' && t[k] != '}' && t[k] != '\\',
    ensures
        scan_from(t, i, st) == scan_from(t, j, ScanState { buf: st.buf + t.subrange(i, j), ..st }),
    decreases j - i,
{
    if i < j {
        let next = ScanState { buf: st.buf.push(t[i]), ..st };
        assert(scan_step(t, i, st) == next);
        lemma_scan_plain(t, i + 1, j, next);
        assert(next.buf + t.subrange(i + 1, j) =~= st.buf + t.subrange(i, j));
    } else {
        assert(st.buf + t.subrange(i, j) =~= st.buf);
        assert(ScanState { buf: st.buf + t.subrange(i, j), ..st } == st);
    }
}

/// A brace-delimited name is a reference: `{u}` has exactly the reference
/// `u`, for any nonempty `u` free of braces and backslashes.
pub proof fn lemma_braced_name_is_reference(u: Seq<char>)
    requires
        plain_text(u),
        u.len() > 0,
    ensures
        template_references(seq!['{'] + u + seq!['}']) == seq![u],
{
    let t = seq!['{'] + u + seq!['}'];
    let n = t.len() as int;
    assert(t[0] == '{');
    assert(t[1] == u[0]);
    assert(t[n - 1] == '}');
    let s1 = ScanState { in_ref: true, escaped: false, buf: Seq::empty(), parts: Seq::empty() };
    assert(scan_step(t, 0, scan_start()) == s1);
    assert forall|k: int| 1 <= k < n - 1 implies #[trigger] t[k] != '{' && t[k] != '}' && t[k] != '\\' by {
        assert(t[k] == u[k - 1]);
    }
    lemma_scan_plain(t, 1, n - 1, s1);
    assert(t.subrange(1, n - 1) =~= u);
    assert(Seq::<char>::empty() + u =~= u);
    let s2 = ScanState { buf: u, ..s1 };
    let s3 = ScanState { in_ref: false, escaped: false, buf: Seq::empty(), parts: seq![Part::Ref(u)] };
    assert(push_part(Seq::empty(), Part::Ref(u)) =~= seq![Part::Ref(u)]);
    assert(scan_step(t, n - 1, s2) == s3);
    assert(scan_from(t, n, s3) == s3);
    assert(scan_from(t, 0, scan_start()) == s3);
    assert(template_parts(t) == seq![Part::Ref(u)]);
    assert(seq![Part::Ref(u)].drop_last() =~= Seq::<Part>::empty());
    assert(part_refs(Seq::<Part>::empty()) == Seq::<Seq<char>>::empty());
    assert(seq![Part::Ref(u)].last() == Part::Ref(u));
    assert(part_refs(seq![Part::Ref(u)]) == Seq::<Seq<char>>::empty().push(u));
    assert(Seq::<Seq<char>>::empty().push(u) =~= seq![u]);
}

/// Escaped braces are literal: `\{u\}` has no reference, for any `u` free
/// of braces and backslashes.
pub proof fn lemma_escaped_braces_are_text(u: Seq<char>)
    requires
        plain_text(u),
    ensures
        template_references(seq!['\\', '{'] + u + seq!['\\', '}']).len() == 0,
{
    let t = seq!['\\', '{'] + u + seq!['\\', '}'];
    let n = t.len() as int;
    assert(t[0] == '\\');
    assert(t[1] == '{');
    assert(t[n - 2] == '\\');
    assert(t[n - 1] == '}');
    let s1 = ScanState { escaped: true, ..scan_start() };
    assert(scan_step(t, 0, scan_start()) == s1);
    let s2 = ScanState { escaped: false, buf: seq!['{'], ..scan_start() };
    assert(Seq::<char>::empty().push('{') =~= seq!['{']);
    assert(scan_step(t, 1, s1) == s2);
    assert forall|k: int| 2 <= k < n - 2 implies #[trigger] t[k] != '{' && t[k] != '}' && t[k] != '\\' by {
        assert(t[k] == u[k - 2]);
    }
    lemma_scan_plain(t, 2, n - 2, s2);
    let b = seq!['{'] + t.subrange(2, n - 2);
    let s3 = ScanState { buf: b, ..s2 };
    let s4 = ScanState { escaped: true, ..s3 };
    assert(scan_step(t, n - 2, s3) == s4);
    let s5 = ScanState { escaped: false, buf: b.push('}'), ..s3 };
    assert(scan_step(t, n - 1, s4) == s5);
    assert(scan_from(t, n, s5) == s5);
    assert(scan_from(t, 0, scan_start()) == scan_from(t, 1, s1));
    assert(scan_from(t, 1, s1) == scan_from(t, 2, s2));
    assert(ScanState { buf: s2.buf + t.subrange(2, n - 2), ..s2 } == s3);
    assert(scan_from(t, n - 2, s3) == scan_from(t, n - 1, s4));
    assert(scan_from(t, n - 1, s4) == scan_from(t, n, s5));
    assert(scan_from(t, 0, scan_start()) == s5);
    let parts = push_part(Seq::<Part>::empty(), Part::Text(b.push('}')));
    assert(template_parts(t) == parts);
    assert(parts =~= seq![Part::Text(b.push('}'))]);
    assert(seq![Part::Text(b.push('}'))].drop_last() =~= Seq::<Part>::empty());
    assert(part_refs(Seq::<Part>::empty()) == Seq::<Seq<char>>::empty());
    assert(part_refs(parts) == part_refs(Seq::<Part>::empty()));
}

/// The template `s0{r1}s1...{rn}sn` for `pairs` = `[(r1, s1), ..., (rn, sn)]`.
pub open spec fn braced_template(s0: Seq<char>, pairs: Seq<(Seq<char>, Seq<char>)>) -> Seq<char>
    decreases pairs.len(),
{
    if pairs.len() == 0 {
        s0
    } else {
        braced_template(s0, pairs.drop_last()) + seq!['{'] + pairs.last().0 + seq!['}']
            + pairs.last().1
    }
}

/// Whether every name is nonempty and every name and text is plain.
pub open spec fn plain_pairs(s0: Seq<char>, pairs: Seq<(Seq<char>, Seq<char>)>) -> bool {
    &&& plain_text(s0)
    &&& forall|k: int|
        0 <= k < pairs.len() ==> (#[trigger] pairs[k]).0.len() > 0 && plain_text(pairs[k].0)
            && plain_text(pairs[k].1)
}

proof fn lemma_part_refs_push(parts: Seq<Part>, p: Part)
    ensures
        part_refs(push_part(parts, p)) == match p {
            Part::Ref(r) => if r.len() == 0 {
                part_refs(parts)
            } else {
                part_refs(parts).push(r)
            },
            Part::Text(_) => part_refs(parts),
        },
{
    match p {
        Part::Ref(r) => if r.len() > 0 {
            assert(parts.push(p).drop_last() =~= parts);
        },
        Part::Text(t) => if t.len() > 0 {
            assert(parts.push(p).drop_last() =~= parts);
        },
    }
}

proof fn lemma_scan_braced(
    t: Seq<char>,
    s0: Seq<char>,
    pairs: Seq<(Seq<char>, Seq<char>)>,
)
    requires
        plain_pairs(s0, pairs),
        braced_template(s0, pairs).len() <= t.len(),
        forall|i: int| 0 <= i < braced_template(s0, pairs).len() ==> t[i] == #[trigger] braced_template(s0, pairs)[i],
    ensures
        exists|parts: Seq<Part>|
            part_refs(parts) == pairs.map_values(|q: (Seq<char>, Seq<char>)| q.0) && #[trigger] scan_from(
                t,
                0,
                scan_start(),
            ) == scan_from(
                t,
                braced_template(s0, pairs).len() as int,
                ScanState {
                    in_ref: false,
                    escaped: false,
                    buf: if pairs.len() == 0 {
                        s0
                    } else {
                        pairs.last().1
                    },
                    parts,
                },
            ),
    decreases pairs.len(),
{
    if pairs.len() == 0 {
        assert forall|k: int| 0 <= k < s0.len() implies #[trigger] t[k] != '{' && t[k] != '}' && t[k] != '\\' by {
            assert(t[k] == braced_template(s0, pairs)[k]);
        }
        lemma_scan_plain(t, 0, s0.len() as int, scan_start());
        assert(Seq::<char>::empty() + t.subrange(0, s0.len() as int) =~= s0);
        assert(part_refs(Seq::<Part>::empty()) =~= pairs.map_values(|q: (Seq<char>, Seq<char>)| q.0));
        let st = ScanState { in_ref: false, escaped: false, buf: s0, parts: Seq::<Part>::empty() };
        assert(ScanState { buf: Seq::<char>::empty() + t.subrange(0, s0.len() as int), ..scan_start() } == st);
    } else {
        let init = pairs.drop_last();
        let prev = braced_template(s0, init);
        let full = braced_template(s0, pairs);
        let r = pairs.last().0;
        let x = pairs.last().1;
        let l = prev.len() as int;
        assert(full == prev + seq!['{'] + r + seq!['}'] + x);
        assert forall|k: int| 0 <= k < init.len() implies (#[trigger] init[k]).0.len() > 0 && plain_text(init[k].0)
            && plain_text(init[k].1) by {
            assert(init[k] == pairs[k]);
        }
        assert(pairs[pairs.len() - 1] == pairs.last());
        assert forall|i: int| 0 <= i < prev.len() implies t[i] == #[trigger] prev[i] by {
            assert(full[i] == prev[i]);
        }
        lemma_scan_braced(t, s0, init);
        let parts0 = choose|parts: Seq<Part>|
            part_refs(parts) == init.map_values(|q: (Seq<char>, Seq<char>)| q.0) && #[trigger] scan_from(
                t,
                0,
                scan_start(),
            ) == scan_from(
                t,
                l,
                ScanState {
                    in_ref: false,
                    escaped: false,
                    buf: if init.len() == 0 {
                        s0
                    } else {
                        init.last().1
                    },
                    parts,
                },
            );
        let buf0 = if init.len() == 0 {
            s0
        } else {
            init.last().1
        };
        let st0 = ScanState { in_ref: false, escaped: false, buf: buf0, parts: parts0 };
        assert(t[l] == full[l]);
        assert(full[l] == '{');
        assert(t[l + 1] == full[l + 1]);
        assert(full[l + 1] == r[0]);
        let parts1 = push_part(parts0, Part::Text(buf0));
        let st1 = ScanState { in_ref: true, escaped: false, buf: Seq::empty(), parts: parts1 };
        assert(scan_step(t, l, st0) == st1);
        let rs = l + 1;
        let re = l + 1 + r.len();
        assert forall|k: int| rs <= k < re implies #[trigger] t[k] != '{' && t[k] != '}' && t[k] != '\\' by {
            assert(t[k] == full[k]);
            assert(full[k] == r[k - rs]);
        }
        lemma_scan_plain(t, rs, re, st1);
        assert(Seq::<char>::empty() + t.subrange(rs, re) =~= r) by {
            assert forall|k: int| 0 <= k < r.len() implies t.subrange(rs, re)[k] == r[k] by {
                assert(t[rs + k] == full[rs + k]);
            }
        }
        let st2 = ScanState { buf: r, ..st1 };
        assert(ScanState { buf: st1.buf + t.subrange(rs, re), ..st1 } == st2);
        assert(t[re] == full[re]);
        assert(full[re] == '}');
        let parts2 = push_part(parts1, Part::Ref(r));
        let st3 = ScanState { in_ref: false, escaped: false, buf: Seq::empty(), parts: parts2 };
        assert(scan_step(t, re, st2) == st3);
        let xs = re + 1;
        let xe = full.len() as int;
        assert forall|k: int| xs <= k < xe implies #[trigger] t[k] != '{' && t[k] != '}' && t[k] != '\\' by {
            assert(t[k] == full[k]);
            assert(full[k] == x[k - xs]);
        }
        lemma_scan_plain(t, xs, xe, st3);
        assert(Seq::<char>::empty() + t.subrange(xs, xe) =~= x) by {
            assert forall|k: int| 0 <= k < x.len() implies t.subrange(xs, xe)[k] == x[k] by {
                assert(t[xs + k] == full[xs + k]);
            }
        }
        let st4 = ScanState { buf: x, ..st3 };
        assert(ScanState { buf: st3.buf + t.subrange(xs, xe), ..st3 } == st4);
        assert(scan_from(t, l, st0) == scan_from(t, l + 1, st1));
        assert(scan_from(t, re, st2) == scan_from(t, re + 1, st3));
        assert(scan_from(t, 0, scan_start()) == scan_from(t, xe, st4));
        lemma_part_refs_push(parts0, Part::Text(buf0));
        lemma_part_refs_push(parts1, Part::Ref(r));
        assert(pairs.map_values(|q: (Seq<char>, Seq<char>)| q.0) =~= init.map_values(
            |q: (Seq<char>, Seq<char>)| q.0,
        ).push(r));
        assert(part_refs(parts2) == pairs.map_values(|q: (Seq<char>, Seq<char>)| q.0));
    }
}

/// Template reference extraction keeps order and nothing else: the
/// template `s0{r1}s1...{rn}sn`, with nonempty names and names and texts
/// free of braces and backslashes, has exactly the references `r1, ..., rn`.
pub proof fn lemma_braced_template_references(s0: Seq<char>, pairs: Seq<(Seq<char>, Seq<char>)>)
    requires
        plain_pairs(s0, pairs),
    ensures
        template_references(braced_template(s0, pairs)) == pairs.map_values(
            |q: (Seq<char>, Seq<char>)| q.0,
        ),
{
    let t = braced_template(s0, pairs);
    lemma_scan_braced(t, s0, pairs);
    let buf = if pairs.len() == 0 {
        s0
    } else {
        pairs.last().1
    };
    let parts = choose|parts: Seq<Part>|
        part_refs(parts) == pairs.map_values(|q: (Seq<char>, Seq<char>)| q.0) && #[trigger] scan_from(
            t,
            0,
            scan_start(),
        ) == scan_from(t, t.len() as int, ScanState { in_ref: false, escaped: false, buf, parts });
    lemma_part_refs_push(parts, Part::Text(buf));
}

} // verus!
