use vstd::prelude::*;
use crate::approval::contains_str;
use crate::json::{
    JsonKind, JsonKindView, JsonMember, find_member, json_members_of, member, members_view,
    parse_object_members,
};
use crate::text::{
    append_range, chars_of, eq_chars, find_from, find_seq, find_sub, is_blank, lemma_find_sub_bounds,
    lemma_find_sub_shift, split_chars, split_on, string_of, trim, trim_bounds, views,
};

verus! {

pub open spec fn open_call_tag() -> Seq<char> {
    "<tool_call>"@
}

pub open spec fn close_call_tag() -> Seq<char> {
    "</tool_call>"@
}

pub open spec fn open_result_tag() -> Seq<char> {
    "<tool_result"@
}

pub open spec fn close_result_tag() -> Seq<char> {
    "</tool_result>"@
}

/// `s` with every `<tool_call>...</tool_call>` and `<tool_result ...>...</tool_result>`
/// block replaced by a line break. An opening tag that is never closed cuts
/// the text off where it stands.
pub open spec fn strip_blocks(s: Seq<char>) -> Seq<char>
    decreases s.len(),
{
    let a = find_sub(s, 0, open_call_tag());
    let b = find_sub(s, 0, open_result_tag());
    if a >= s.len() && b >= s.len() {
        s
    } else {
        let k = if a <= b {
            a
        } else {
            b
        };
        let close = if a <= b {
            close_call_tag()
        } else {
            close_result_tag()
        };
        let e = find_sub(s, k, close);
        if k < 0 || e < 0 || close.len() == 0 || e + close.len() > s.len() {
            s.subrange(0, k)
        } else {
            s.subrange(0, k) + seq!['\n'] + strip_blocks(s.subrange(e + close.len(), s.len() as int))
        }
    }
}

/// Removes tagged tool-call and tool-result blocks.
pub fn strip_tool_blocks(v: &[char]) -> (r: Vec<char>)
    ensures
        r@ == strip_blocks(v@),
{
    let oc = chars_of("<tool_call>");
    let cc = chars_of("</tool_call>");
    let orr = chars_of("<tool_result");
    let cr = chars_of("</tool_result>");
    let n = v.len();
    let mut out: Vec<char> = Vec::new();
    let mut pos: usize = 0;
    assert(v@.subrange(0, n as int) =~= v@);
    loop
        invariant_except_break
            out@ + strip_blocks(v@.subrange(pos as int, n as int)) == strip_blocks(v@),
        invariant
            pos <= n == v@.len(),
            oc@ == open_call_tag(),
            cc@ == close_call_tag(),
            orr@ == open_result_tag(),
            cr@ == close_result_tag(),
        ensures
            out@ == strip_blocks(v@),
        decreases n - pos,
    {
        let ghost rest = v@.subrange(pos as int, n as int);
        let a = find_seq(v, pos, oc.as_slice());
        let b = find_seq(v, pos, orr.as_slice());
        proof {
            lemma_find_sub_shift(v@, pos as int, pos as int, open_call_tag());
            lemma_find_sub_shift(v@, pos as int, pos as int, open_result_tag());
        }
        if a >= n && b >= n {
            append_range(&mut out, v, pos, n);
            break;
        }
        let k = if a <= b {
            a
        } else {
            b
        };
        let close = if a <= b {
            &cc
        } else {
            &cr
        };
        let e = find_seq(v, k, close.as_slice());
        proof {
            lemma_find_sub_shift(v@, pos as int, k as int, close@);
        }
        if close.len() == 0 || e >= n || close.len() > n - e {
            append_range(&mut out, v, pos, k);
            assert(rest.subrange(0, k - pos) =~= v@.subrange(pos as int, k as int));
            break;
        }
        let ghost before = out@;
        append_range(&mut out, v, pos, k);
        out.push('\n');
        let next = e + close.len();
        assert(rest.subrange(0, k - pos) =~= v@.subrange(pos as int, k as int));
        assert(rest.subrange(e - pos + close@.len(), rest.len() as int) =~= v@.subrange(
            next as int,
            n as int,
        ));
        assert(out@ =~= before + rest.subrange(0, k - pos) + seq!['\n']);
        pos = next;
    }
    out
}

/// `ls` joined with line breaks.
pub open spec fn join_lines(ls: Seq<Seq<char>>) -> Seq<char>
    decreases ls.len(),
{
    if ls.len() == 0 {
        Seq::empty()
    } else if ls.len() == 1 {
        ls[0]
    } else {
        join_lines(ls.drop_last()) + seq!['\n'] + ls.last()
    }
}

pub fn join_line_vecs(ls: &Vec<Vec<char>>) -> (r: Vec<char>)
    ensures
        r@ == join_lines(ls@.map_values(|l: Vec<char>| l@)),
{
    let ghost m = ls@.map_values(|l: Vec<char>| l@);
    let mut out: Vec<char> = Vec::new();
    let mut i: usize = 0;
    while i < ls.len()
        invariant
            m == ls@.map_values(|l: Vec<char>| l@),
            i <= ls@.len(),
            out@ == join_lines(m.subrange(0, i as int)),
        decreases ls@.len() - i,
    {
        let ghost prev = out@;
        if i > 0 {
            out.push('\n');
        }
        let line = &ls[i];
        append_range(&mut out, line.as_slice(), 0, line.len());
        assert(m.subrange(0, i + 1).drop_last() =~= m.subrange(0, i as int));
        assert(line@.subrange(0, line@.len() as int) =~= m[i as int]);
        if i == 0 {
            assert(out@ =~= m.subrange(0, 1)[0]);
        } else {
            assert(out@ =~= prev + seq!['\n'] + m[i as int]);
        }
        i = i + 1;
    }
    assert(m.subrange(0, ls@.len() as int) =~= m);
    out
}


pub open spec fn is_object(k: Option<JsonKindView>) -> bool {
    k == Some(JsonKindView::Object)
}

/// `k` is a string that names one of `tools`.
pub open spec fn names_tool(k: Option<JsonKindView>, tools: Seq<Seq<char>>) -> bool {
    match k {
        Some(JsonKindView::Str(n)) => tools.contains(n),
        _ => false,
    }
}

/// The members of a tool invocation, `{"name": <tool>, "arguments"|"parameters": {...}}`,
/// or of a result envelope, `{"result": {...}}`.
pub open spec fn tool_shape(ms: Seq<(Seq<char>, JsonKindView)>, tools: Seq<Seq<char>>) -> bool {
    (ms.len() == 2 && names_tool(member(ms, "name"@), tools) && (is_object(
        member(ms, "arguments"@),
    ) || is_object(member(ms, "parameters"@)))) || (ms.len() == 1 && is_object(
        member(ms, "result"@),
    ))
}

/// A line (trimmed) that is a bare JSON tool invocation or result envelope.
pub open spec fn is_tool_artifact(t: Seq<char>, tools: Seq<Seq<char>>) -> bool {
    t.len() > 0 && t[0] == '{' && json_members_of(t) is Some && tool_shape(
        json_members_of(t)->0,
        tools,
    )
}

/// The lines kept: tool artifacts dropped, runs of blank lines cut to one,
/// and no blank line first.
pub open spec fn clean_lines(ls: Seq<Seq<char>>, tools: Seq<Seq<char>>) -> Seq<Seq<char>>
    decreases ls.len(),
{
    if ls.len() == 0 {
        Seq::empty()
    } else {
        let p = clean_lines(ls.drop_last(), tools);
        let l = ls.last();
        if is_tool_artifact(trim(l), tools) {
            p
        } else if is_blank(l) && (p.len() == 0 || is_blank(p.last())) {
            p
        } else {
            p.push(l)
        }
    }
}

/// What the sanitizer makes of `s`: tagged blocks and bare JSON tool
/// artifacts removed, blank lines collapsed, the whole trimmed.
pub open spec fn sanitized(s: Seq<char>, tools: Seq<Seq<char>>) -> Seq<char> {
    trim(join_lines(clean_lines(split_on(strip_blocks(s), '\n'), tools)))
}

fn is_object_member(k: Option<&JsonKind>) -> (r: bool)
    ensures
        r == (k is Some && k->0@ == JsonKindView::Object),
{
    match k {
        Some(JsonKind::Object) => true,
        _ => false,
    }
}

/// Whether the object members `ms` have the shape of a tool invocation or
/// of a result envelope.
pub fn is_tool_shape(ms: &Vec<JsonMember>, tools: &Vec<String>) -> (r: bool)
    ensures
        r == tool_shape(members_view(ms@), views(tools@)),
{
    if ms.len() == 2 {
        let named = match find_member(ms, "name") {
            Some(JsonKind::Str(n)) => contains_str(tools, n.as_str()),
            _ => false,
        };
        named && (is_object_member(find_member(ms, "arguments")) || is_object_member(
            find_member(ms, "parameters"),
        ))
    } else if ms.len() == 1 {
        is_object_member(find_member(ms, "result"))
    } else {
        false
    }
}

fn tool_artifact(t: &[char], tools: &Vec<String>) -> (r: bool)
    ensures
        r == is_tool_artifact(t@, views(tools@)),
{
    if t.len() == 0 || t[0] != '{' {
        return false;
    }
    let text = string_of(t);
    match parse_object_members(text.as_str()) {
        Some(ms) => is_tool_shape(&ms, tools),
        None => false,
    }
}

fn blank(v: &[char]) -> (r: bool)
    ensures
        r == is_blank(v@),
{
    let (a, b) = trim_bounds(v);
    a == b
}

/// Strips tool-call and tool-result artifacts that leaked into `response`,
/// given the names of the registered tools.
pub fn sanitize_channel_response(response: &str, tools: &Vec<String>) -> (r: String)
    ensures
        r@ == sanitized(response@, views(tools@)),
{
    let stripped = strip_tool_blocks(chars_of(response).as_slice());
    let lines = split_chars(stripped.as_slice(), '\n');
    let ghost ls = lines@.map_values(|l: Vec<char>| l@);
    let mut kept: Vec<Vec<char>> = Vec::new();
    let mut i: usize = 0;
    while i < lines.len()
        invariant
            ls == lines@.map_values(|l: Vec<char>| l@),
            i <= lines@.len(),
            kept@.map_values(|l: Vec<char>| l@) == clean_lines(ls.subrange(0, i as int), views(tools@)),
        decreases lines@.len() - i,
    {
        let ghost prev = kept@.map_values(|l: Vec<char>| l@);
        assert(ls.subrange(0, i + 1).drop_last() =~= ls.subrange(0, i as int));
        assert(ls.subrange(0, i + 1).last() == lines@[i as int]@);
        let line = &lines[i];
        let (a, b) = trim_bounds(line.as_slice());
        let t = crate::text::slice_of(line.as_slice(), a, b);
        if tool_artifact(t.as_slice(), tools) {
        } else if a == b && (kept.len() == 0 || blank(kept[kept.len() - 1].as_slice())) {
            assert(kept.len() > 0 ==> prev.last() == kept@[kept.len() - 1]@);
        } else {
            assert(kept.len() > 0 ==> prev.last() == kept@[kept.len() - 1]@);
            kept.push(line.clone());
            assert(kept@.map_values(|l: Vec<char>| l@) =~= prev.push(line@));
        }
        i = i + 1;
    }
    assert(ls.subrange(0, lines@.len() as int) =~= ls);
    let joined = join_line_vecs(&kept);
    let (a, b) = trim_bounds(joined.as_slice());
    string_of(crate::text::slice_of(joined.as_slice(), a, b).as_slice())
}


/// `p` occurs nowhere in `s`.
pub open spec fn absent(s: Seq<char>, p: Seq<char>) -> bool {
    forall|i: int| 0 <= i && i + p.len() <= s.len() ==> #[trigger] s.subrange(i, i + p.len()) != p
}

proof fn lemma_find_sub_first(s: Seq<char>, i: int, p: Seq<char>, j: int)
    requires
        0 <= i <= j,
        p.len() > 0,
        j + p.len() <= s.len(),
        j < find_sub(s, i, p),
    ensures
        s.subrange(j, j + p.len()) != p,
    decreases j - i,
{
    if j > i {
        lemma_find_sub_first(s, i + 1, p, j);
    }
}

proof fn lemma_absent_prefix(s: Seq<char>, k: int, p: Seq<char>)
    requires
        p.len() > 0,
        0 <= k <= s.len(),
        k <= find_sub(s, 0, p),
    ensures
        absent(s.subrange(0, k), p),
{
    let t = s.subrange(0, k);
    assert forall|i: int| 0 <= i && i + p.len() <= t.len() implies #[trigger] t.subrange(
        i,
        i + p.len(),
    ) != p by {
        assert(t.subrange(i, i + p.len()) =~= s.subrange(i, i + p.len()));
        lemma_find_sub_first(s, 0, p, i);
    }
}

/// A text without the first character of `p` holds no `p`.
pub proof fn lemma_absent_without_first(s: Seq<char>, p: Seq<char>)
    requires
        p.len() > 0,
        forall|i: int| 0 <= i < s.len() ==> s[i] != p[0],
    ensures
        absent(s, p),
{
    assert forall|i: int| 0 <= i && i + p.len() <= s.len() implies #[trigger] s.subrange(
        i,
        i + p.len(),
    ) != p by {
        assert(s.subrange(i, i + p.len())[0] == s[i]);
    }
}

proof fn lemma_absent_sub(s: Seq<char>, a: int, b: int, p: Seq<char>)
    requires
        absent(s, p),
        0 <= a <= b <= s.len(),
    ensures
        absent(s.subrange(a, b), p),
{
    let t = s.subrange(a, b);
    assert forall|i: int| 0 <= i && i + p.len() <= t.len() implies #[trigger] t.subrange(
        i,
        i + p.len(),
    ) != p by {
        assert(t.subrange(i, i + p.len()) =~= s.subrange(a + i, a + i + p.len()));
    }
}

proof fn lemma_absent_join(x: Seq<char>, y: Seq<char>, p: Seq<char>)
    requires
        absent(x, p),
        absent(y, p),
        !p.contains('\n'),
    ensures
        absent(x + seq!['\n'] + y, p),
{
    let z = x + seq!['\n'] + y;
    assert forall|i: int| 0 <= i && i + p.len() <= z.len() implies #[trigger] z.subrange(
        i,
        i + p.len(),
    ) != p by {
        let w = z.subrange(i, i + p.len());
        if i + p.len() <= x.len() {
            assert(w =~= x.subrange(i, i + p.len()));
        } else if i > x.len() {
            assert(w =~= y.subrange(i - x.len() - 1, i - x.len() - 1 + p.len()));
        } else {
            assert(w[x.len() - i] == '\n');
            if w == p {
                assert(p[x.len() - i] == '\n');
            }
        }
    }
}

proof fn lemma_absent_strip(s: Seq<char>)
    ensures
        absent(strip_blocks(s), open_call_tag()),
    decreases s.len(),
{
    let p = open_call_tag();
    reveal_strlit("<tool_call>");
    assert(p.len() == 11);
    assert(!p.contains('\n')) by {
        if p.contains('\n') {
            let j = choose|j: int| 0 <= j < p.len() && p[j] == '\n';
            assert(p[j] != '\n');
        }
    }
    let a = find_sub(s, 0, p);
    let b = find_sub(s, 0, open_result_tag());
    lemma_find_sub_bounds(s, 0, p);
    lemma_find_sub_bounds(s, 0, open_result_tag());
    if a >= s.len() && b >= s.len() {
        lemma_absent_prefix(s, s.len() as int, p);
        assert(s.subrange(0, s.len() as int) =~= s);
    } else {
        let k = if a <= b {
            a
        } else {
            b
        };
        let close = if a <= b {
            close_call_tag()
        } else {
            close_result_tag()
        };
        let e = find_sub(s, k, close);
        lemma_absent_prefix(s, k, p);
        if !(k < 0 || e < 0 || close.len() == 0 || e + close.len() > s.len()) {
            let rest = s.subrange(e + close.len(), s.len() as int);
            lemma_absent_strip(rest);
            lemma_absent_join(s.subrange(0, k), strip_blocks(rest), p);
        }
    }
}

proof fn lemma_absent_split(s: Seq<char>, p: Seq<char>)
    requires
        absent(s, p),
    ensures
        forall|i: int| 0 <= i < split_on(s, '\n').len() ==> absent(#[trigger] split_on(s, '\n')[i], p),
    decreases s.len(),
{
    let k = find_from(s, 0, '\n');
    if k < 0 || k >= s.len() {
        assert(split_on(s, '\n') == seq![s]);
    } else {
        let rest = s.subrange(k + 1, s.len() as int);
        lemma_absent_sub(s, 0, k, p);
        lemma_absent_sub(s, k + 1, s.len() as int, p);
        lemma_absent_split(rest, p);
        let whole = split_on(s, '\n');
        assert(whole == seq![s.subrange(0, k)] + split_on(rest, '\n'));
        assert forall|i: int| 0 <= i < whole.len() implies absent(#[trigger] whole[i], p) by {
            if i > 0 {
                assert(whole[i] == split_on(rest, '\n')[i - 1]);
            }
        }
    }
}

proof fn lemma_absent_clean(ls: Seq<Seq<char>>, tools: Seq<Seq<char>>, p: Seq<char>)
    requires
        forall|i: int| 0 <= i < ls.len() ==> absent(#[trigger] ls[i], p),
    ensures
        forall|i: int| 0 <= i < clean_lines(ls, tools).len() ==> absent(
            #[trigger] clean_lines(ls, tools)[i],
            p,
        ),
    decreases ls.len(),
{
    if ls.len() > 0 {
        let d = ls.drop_last();
        assert forall|i: int| 0 <= i < d.len() implies absent(#[trigger] d[i], p) by {
            assert(d[i] == ls[i]);
        }
        lemma_absent_clean(d, tools, p);
        assert(absent(ls[ls.len() - 1], p));
        let c = clean_lines(d, tools);
        let r = clean_lines(ls, tools);
        assert(r == c || r == c.push(ls.last()));
        assert forall|i: int| 0 <= i < r.len() implies absent(#[trigger] r[i], p) by {
            if i < c.len() {
                assert(r[i] == c[i]);
            } else {
                assert(r[i] == ls.last());
            }
        }
    }
}

proof fn lemma_absent_join_lines(ls: Seq<Seq<char>>, p: Seq<char>)
    requires
        forall|i: int| 0 <= i < ls.len() ==> absent(#[trigger] ls[i], p),
        !p.contains('\n'),
        p.len() > 0,
    ensures
        absent(join_lines(ls), p),
    decreases ls.len(),
{
    if ls.len() == 0 {
    } else if ls.len() == 1 {
        assert(absent(ls[0], p));
    } else {
        let d = ls.drop_last();
        assert forall|i: int| 0 <= i < d.len() implies absent(#[trigger] d[i], p) by {
            assert(d[i] == ls[i]);
        }
        lemma_absent_join_lines(d, p);
        assert(absent(ls[ls.len() - 1], p));
        lemma_absent_join(join_lines(d), ls.last(), p);
    }
}

proof fn lemma_absent_trim(s: Seq<char>, p: Seq<char>)
    requires
        absent(s, p),
    ensures
        absent(crate::text::trim_start(s), p),
        absent(crate::text::trim_end(s), p),
    decreases s.len(),
{
    if s.len() > 0 {
        lemma_absent_sub(s, 1, s.len() as int, p);
        assert(s.drop_first() =~= s.subrange(1, s.len() as int));
        lemma_absent_trim(s.drop_first(), p);
        lemma_absent_sub(s, 0, s.len() - 1, p);
        assert(s.drop_last() =~= s.subrange(0, s.len() - 1));
        lemma_absent_trim(s.drop_last(), p);
    }
}

/// Whatever the reply holds, the sanitized text holds no `<tool_call>` tag:
/// each removed block leaves a line break behind, so no tag can form where
/// the text around a block meets.
pub proof fn lemma_sanitized_has_no_tool_call_tag(s: Seq<char>, tools: Seq<Seq<char>>)
    ensures
        absent(sanitized(s, tools), open_call_tag()),
{
    let p = open_call_tag();
    reveal_strlit("<tool_call>");
    assert(!p.contains('\n')) by {
        if p.contains('\n') {
            let j = choose|j: int| 0 <= j < p.len() && p[j] == '\n';
            assert(p[j] != '\n');
        }
    }
    assert(p.len() == 11);
    lemma_absent_strip(s);
    let st = strip_blocks(s);
    lemma_absent_split(st, p);
    lemma_absent_clean(split_on(st, '\n'), tools, p);
    let j = join_lines(clean_lines(split_on(st, '\n'), tools));
    lemma_absent_join_lines(clean_lines(split_on(st, '\n'), tools), p);
    lemma_absent_trim(j, p);
    lemma_absent_trim(crate::text::trim_start(j), p);
}


proof fn lemma_find_sub_at(s: Seq<char>, i: int, p: Seq<char>, k: int)
    requires
        0 <= i <= k,
        p.len() > 0,
        k + p.len() <= s.len(),
        s.subrange(k, k + p.len()) == p,
        forall|j: int| i <= j < k ==> #[trigger] s.subrange(j, j + p.len()) != p,
    ensures
        find_sub(s, i, p) == k,
    decreases k - i,
{
    if i < k {
        lemma_find_sub_at(s, i + 1, p, k);
    }
}

proof fn lemma_find_sub_none(s: Seq<char>, i: int, p: Seq<char>)
    requires
        0 <= i,
        p.len() > 0,
        forall|j: int| i <= j && j + p.len() <= s.len() ==> #[trigger] s.subrange(j, j + p.len()) != p,
    ensures
        find_sub(s, i, p) == s.len(),
    decreases s.len() - i,
{
    if i < s.len() && i + p.len() <= s.len() {
        lemma_find_sub_none(s, i + 1, p);
    }
}

proof fn lemma_find_sub_hit(s: Seq<char>, i: int, p: Seq<char>)
    requires
        0 <= i,
    ensures
        find_sub(s, i, p) < s.len() ==> find_sub(s, i, p) >= i && s.subrange(
            find_sub(s, i, p),
            find_sub(s, i, p) + p.len(),
        ) == p,
    decreases s.len() - i,
{
    if i < s.len() && i + p.len() <= s.len() && s.subrange(i, i + p.len()) != p {
        lemma_find_sub_hit(s, i + 1, p);
    }
}

/// No `p` (free of line breaks) starts in `s[lo..=hi]` when `s[lo..hi]` holds
/// none and `s[hi]` is a line break.
proof fn lemma_no_occ_segment(s: Seq<char>, lo: int, hi: int, p: Seq<char>)
    requires
        0 <= lo <= hi < s.len(),
        s[hi] == '\n',
        !p.contains('\n'),
        p.len() > 0,
        absent(s.subrange(lo, hi), p),
    ensures
        forall|j: int|
            lo <= j <= hi && j + p.len() <= s.len() ==> #[trigger] s.subrange(j, j + p.len()) != p,
{
    assert forall|j: int| lo <= j <= hi && j + p.len() <= s.len() implies #[trigger] s.subrange(
        j,
        j + p.len(),
    ) != p by {
        if j + p.len() <= hi {
            assert(s.subrange(lo, hi).subrange(j - lo, j - lo + p.len()) =~= s.subrange(
                j,
                j + p.len(),
            ));
        } else {
            assert(s.subrange(j, j + p.len())[hi - j] == '\n');
            if s.subrange(j, j + p.len()) == p {
                assert(p[hi - j] == '\n');
            }
        }
    }
}

proof fn lemma_find_from_at(s: Seq<char>, i: int, d: char, k: int)
    requires
        0 <= i <= k <= s.len(),
        k < s.len() ==> s[k] == d,
        forall|j: int| i <= j < k ==> s[j] != d,
    ensures
        find_from(s, i, d) == k,
    decreases k - i,
{
    if i < k {
        lemma_find_from_at(s, i + 1, d, k);
    }
}

/// A reply made of a prose line, a `<tool_call>` block on lines of its own,
/// and another prose line, sanitizes to the two prose lines with one blank
/// line between them: nothing of the block is left. The prose lines hold no
/// line break, no tag opening, and are neither blank nor bare JSON tool
/// artifacts; the block's body holds no closing tag.
pub proof fn lemma_block_between_prose(
    a: Seq<char>,
    j: Seq<char>,
    b: Seq<char>,
    tools: Seq<Seq<char>>,
)
    requires
        !a.contains('\n'),
        !b.contains('\n'),
        !is_blank(a),
        !is_blank(b),
        !is_tool_artifact(trim(a), tools),
        !is_tool_artifact(trim(b), tools),
        absent(a, open_call_tag()),
        absent(a, open_result_tag()),
        absent(b, open_call_tag()),
        absent(b, open_result_tag()),
        absent(j, close_call_tag()),
    ensures
        sanitized(
            a + seq!['\n'] + open_call_tag() + seq!['\n'] + j + seq!['\n'] + close_call_tag()
                + seq!['\n'] + b,
            tools,
        ) == trim(a + seq!['\n', '\n'] + b),
{
    let oc = open_call_tag();
    let orr = open_result_tag();
    let cc = close_call_tag();
    reveal_strlit("<tool_call>");
    reveal_strlit("<tool_result");
    reveal_strlit("</tool_call>");
    assert(oc.len() == 11 && orr.len() == 12 && cc.len() == 12);
    assert(!oc.contains('\n')) by {
        if oc.contains('\n') {
            let q = choose|q: int| 0 <= q < oc.len() && oc[q] == '\n';
            assert(oc[q] != '\n');
        }
    }
    assert(!orr.contains('\n')) by {
        if orr.contains('\n') {
            let q = choose|q: int| 0 <= q < orr.len() && orr[q] == '\n';
            assert(orr[q] != '\n');
        }
    }
    assert(!cc.contains('\n')) by {
        if cc.contains('\n') {
            let q = choose|q: int| 0 <= q < cc.len() && cc[q] == '\n';
            assert(cc[q] != '\n');
        }
    }
    let s = a + seq!['\n'] + oc + seq!['\n'] + j + seq!['\n'] + cc + seq!['\n'] + b;
    let la = a.len() as int;
    let lj = j.len() as int;
    let k = la + 1;
    let e = la + 14 + lj;
    let n = s.len() as int;
    assert(n == la + 27 + lj + b.len());
    // the opening tag at k
    assert(s.subrange(0, la) =~= a);
    assert(s[la] == '\n');
    assert(s.subrange(k, k + 11) =~= oc);
    lemma_no_occ_segment(s, 0, la, oc);
    lemma_find_sub_at(s, 0, oc, k);
    // no result tag before k
    lemma_no_occ_segment(s, 0, la, orr);
    lemma_find_sub_hit(s, 0, orr);
    lemma_find_sub_bounds(s, 0, orr);
    let fb = find_sub(s, 0, orr);
    assert(fb >= k);
    // the closing tag at e
    assert(s[la + 12] == '\n');
    assert(s.subrange(k, la + 12) =~= oc);
    assert(absent(oc, cc));
    lemma_no_occ_segment(s, k, la + 12, cc);
    assert(s[la + 13 + lj] == '\n');
    assert(s.subrange(la + 13, la + 13 + lj) =~= j);
    lemma_no_occ_segment(s, la + 13, la + 13 + lj, cc);
    assert(s.subrange(e, e + 12) =~= cc);
    lemma_find_sub_at(s, k, cc, e);
    // what follows the block
    let rest = s.subrange(e + 12, n);
    assert(rest =~= Seq::<char>::empty() + seq!['\n'] + b);
    lemma_absent_join(Seq::<char>::empty(), b, oc);
    lemma_absent_join(Seq::<char>::empty(), b, orr);
    lemma_find_sub_none(rest, 0, oc);
    lemma_find_sub_none(rest, 0, orr);
    assert(strip_blocks(rest) == rest);
    assert(strip_blocks(s) == s.subrange(0, k) + seq!['\n'] + strip_blocks(rest));
    let st = a + seq!['\n', '\n', '\n'] + b;
    assert(s.subrange(0, k) =~= a + seq!['\n']);
    assert(strip_blocks(s) =~= st);
    // the lines
    let r1 = seq!['\n', '\n'] + b;
    let r2 = seq!['\n'] + b;
    assert forall|q: int| 0 <= q < la implies st[q] != '\n' by {
        assert(st[q] == a[q]);
        if a[q] == '\n' {
            assert(a.contains('\n'));
        }
    }
    lemma_find_from_at(st, 0, '\n', la);
    assert(st.subrange(0, la) =~= a);
    assert(st.subrange(la + 1, st.len() as int) =~= r1);
    lemma_find_from_at(r1, 0, '\n', 0);
    assert(r1.subrange(0, 0) =~= Seq::<char>::empty());
    assert(r1.subrange(1, r1.len() as int) =~= r2);
    lemma_find_from_at(r2, 0, '\n', 0);
    assert(r2.subrange(0, 0) =~= Seq::<char>::empty());
    assert(r2.subrange(1, r2.len() as int) =~= b);
    assert forall|q: int| 0 <= q < b.len() implies b[q] != '\n' by {
        if b[q] == '\n' {
            assert(b.contains('\n'));
        }
    }
    lemma_find_from_at(b, 0, '\n', b.len() as int);
    let em = Seq::<char>::empty();
    assert(split_on(b, '\n') == seq![b]);
    assert(split_on(r2, '\n') =~= seq![em, b]);
    assert(split_on(r1, '\n') =~= seq![em, em, b]);
    let ls = seq![a, em, em, b];
    assert(split_on(st, '\n') =~= ls);
    // the kept lines
    assert(trim(em) == em);
    assert(is_blank(em));
    assert(!is_tool_artifact(em, tools));
    assert(ls.drop_last() =~= seq![a, em, em]);
    assert(seq![a, em, em].drop_last() =~= seq![a, em]);
    assert(seq![a, em].drop_last() =~= seq![a]);
    assert(seq![a].drop_last() =~= Seq::<Seq<char>>::empty());
    assert(clean_lines(Seq::<Seq<char>>::empty(), tools) == Seq::<Seq<char>>::empty());
    assert(clean_lines(seq![a], tools) =~= seq![a]);
    assert(clean_lines(seq![a, em], tools) =~= seq![a, em]);
    assert(clean_lines(seq![a, em, em], tools) =~= seq![a, em]);
    assert(clean_lines(ls, tools) =~= seq![a, em, b]);
    // joined
    assert(seq![a, em, b].drop_last() =~= seq![a, em]);
    assert(join_lines(seq![a]) == a);
    assert(join_lines(seq![a, em]) =~= a + seq!['\n']);
    assert(join_lines(seq![a, em, b]) =~= a + seq!['\n', '\n'] + b);
}

} // verus!
