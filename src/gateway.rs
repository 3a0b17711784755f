use vstd::prelude::*;
use crate::json::{
    JsonKind, JsonKindView, JsonMember, JsonParse, JsonParseView, find_member, json_members_of,
    json_parse_of, member, members_view, parse_json, parse_object_members,
};
use crate::sanitize::{
    absent, lemma_absent_without_first, lemma_sanitized_has_no_tool_call_tag, open_call_tag,
    clean_lines, is_tool_artifact, join_line_vecs, join_lines, sanitize_channel_response, sanitized, strip_blocks,
};
use crate::text::{
    chars_of, eq_chars, has_prefix, is_blank, slice_of, split_chars, split_on, starts_with,
    string_of, trim, trim_bounds, trim_chars, trim_end, views,
};

verus! {

/// One turn of the conversation transcript.
pub struct ChatMessage {
    pub role: String,
    pub content: String,
}

impl ChatMessage {
    pub open spec fn view_pair(&self) -> (Seq<char>, Seq<char>) {
        (self.role@, self.content@)
    }

    pub fn system(content: &str) -> (r: ChatMessage)
        ensures
            r.role@ == "system"@,
            r.content@ == content@,
    {
        ChatMessage { role: String::from_str("system"), content: String::from_str(content) }
    }

    pub fn user(content: &str) -> (r: ChatMessage)
        ensures
            r.role@ == "user"@,
            r.content@ == content@,
    {
        ChatMessage { role: String::from_str("user"), content: String::from_str(content) }
    }

    pub fn assistant(content: &str) -> (r: ChatMessage)
        ensures
            r.role@ == "assistant"@,
            r.content@ == content@,
    {
        ChatMessage { role: String::from_str("assistant"), content: String::from_str(content) }
    }

    pub fn tool(content: &str) -> (r: ChatMessage)
        ensures
            r.role@ == "tool"@,
            r.content@ == content@,
    {
        ChatMessage { role: String::from_str("tool"), content: String::from_str(content) }
    }
}

pub open spec fn transcript(h: Seq<ChatMessage>) -> Seq<(Seq<char>, Seq<char>)> {
    h.map_values(|m: ChatMessage| m.view_pair())
}

/// Shown in place of a reply that was nothing but malformed tool syntax.
pub const MALFORMED_TOOL_OUTPUT_NOTICE: &'static str =
    "I encountered malformed tool-call output and could not produce a safe reply. Please try again.";

/// Shown when tools ran, the model wrote nothing, and no tool output is left
/// to show.
pub const EMPTY_WS_RESPONSE_FALLBACK: &'static str =
    "Tool execution completed, but the model returned no final text response. Please ask me to summarize the result.";

/// Put before an excerpt of the latest tool output.
pub const LATEST_TOOL_OUTPUT_PREFIX: &'static str =
    "Tool execution completed, but the model returned no final text response.\n\nLatest tool output:\n";

/// Longest excerpt of tool output shown, in characters.
pub const TOOL_OUTPUT_EXCERPT_CHARS: usize = 1200;

/// The reply after sanitizing, with the notice in place of a reply that
/// sanitizing emptied.
pub open spec fn ws_sanitized(s: Seq<char>, tools: Seq<Seq<char>>) -> Seq<char> {
    let t = sanitized(s, tools);
    if t.len() == 0 && !is_blank(s) {
        MALFORMED_TOOL_OUTPUT_NOTICE@
    } else {
        t
    }
}

pub fn sanitize_ws_response(response: &str, tools: &Vec<String>) -> (r: String)
    ensures
        r@ == ws_sanitized(response@, views(tools@)),
{
    let sanitized = sanitize_channel_response(response, tools);
    let rc = chars_of(response);
    let (a, b) = trim_bounds(rc.as_slice());
    if sanitized.as_str().is_empty() && a < b {
        String::from_str(MALFORMED_TOOL_OUTPUT_NOTICE)
    } else {
        sanitized
    }
}

pub open spec fn is_result_tag_line(t: Seq<char>) -> bool {
    starts_with(t, "<tool_result"@) || t == "</tool_result>"@
}

/// The lines of a prompt-mode tool-results payload that carry output: blank
/// lines and `<tool_result ...>` / `</tool_result>` lines dropped, trailing
/// whitespace cut.
pub open spec fn prompt_kept(ls: Seq<Seq<char>>) -> Seq<Seq<char>>
    decreases ls.len(),
{
    if ls.len() == 0 {
        Seq::empty()
    } else {
        let p = prompt_kept(ls.drop_last());
        let l = ls.last();
        if is_blank(l) || is_result_tag_line(trim(l)) {
            p
        } else {
            p.push(trim_end(l))
        }
    }
}

pub open spec fn normalized_prompt(s: Seq<char>) -> Option<Seq<char>> {
    let k = prompt_kept(split_on(s, '\n'));
    if k.len() == 0 {
        None
    } else {
        Some(join_lines(k))
    }
}

/// The output lines of a prompt-mode tool-results payload, joined; `None`
/// where there are none.
pub fn normalize_prompt_tool_results(content: &str) -> (r: Option<String>)
    ensures
        r is Some == normalized_prompt(content@) is Some,
        r is Some ==> r->0@ == normalized_prompt(content@)->0,
{
    let lines = split_chars(chars_of(content).as_slice(), '\n');
    let ghost ls = lines@.map_values(|l: Vec<char>| l@);
    let open_tag = chars_of("<tool_result");
    let close_tag = chars_of("</tool_result>");
    let mut kept: Vec<Vec<char>> = Vec::new();
    let mut i: usize = 0;
    while i < lines.len()
        invariant
            ls == lines@.map_values(|l: Vec<char>| l@),
            open_tag@ == "<tool_result"@,
            close_tag@ == "</tool_result>"@,
            i <= lines@.len(),
            kept@.map_values(|l: Vec<char>| l@) == prompt_kept(ls.subrange(0, i as int)),
        decreases lines@.len() - i,
    {
        let ghost prev = kept@.map_values(|l: Vec<char>| l@);
        assert(ls.subrange(0, i + 1).drop_last() =~= ls.subrange(0, i as int));
        assert(ls.subrange(0, i + 1).last() == lines@[i as int]@);
        let line = &lines[i];
        let t = trim_chars(line.as_slice());
        if t.len() == 0 || has_prefix(t.as_slice(), open_tag.as_slice()) || eq_chars(
            t.as_slice(),
            close_tag.as_slice(),
        ) {
        } else {
            let e = trim_end_chars(line.as_slice());
            kept.push(e);
            assert(kept@.map_values(|l: Vec<char>| l@) =~= prev.push(trim_end(line@)));
        }
        i = i + 1;
    }
    assert(ls.subrange(0, lines@.len() as int) =~= ls);
    if kept.len() == 0 {
        None
    } else {
        Some(string_of(join_line_vecs(&kept).as_slice()))
    }
}

fn trim_end_chars(v: &[char]) -> (r: Vec<char>)
    ensures
        r@ == trim_end(v@),
{
    let mut j: usize = v.len();
    assert(v@.subrange(0, j as int) =~= v@);
    while j > 0 && crate::text::is_ws_char(v[j - 1])
        invariant
            j <= v@.len(),
            trim_end(v@) == trim_end(v@.subrange(0, j as int)),
        decreases j,
    {
        proof {
            crate::text::lemma_trim_end_skip(v@, j as int);
        }
        j = j - 1;
    }
    slice_of(v, 0, j)
}

/// `s` without its leading line breaks.
pub open spec fn trim_start_newlines(s: Seq<char>) -> Seq<char>
    decreases s.len(),
{
    if s.len() > 0 && s[0] == '\n' {
        trim_start_newlines(s.drop_first())
    } else {
        s
    }
}

/// The trimmed `content` string of a tool message's JSON envelope, when it
/// is not blank.
pub open spec fn envelope_text(c: Seq<char>) -> Option<Seq<char>> {
    match json_members_of(c) {
        Some(ms) => envelope_from(ms),
        None => None,
    }
}

/// The trimmed `content` string among an envelope's members, when it is not
/// blank.
pub open spec fn envelope_from(ms: Seq<(Seq<char>, JsonKindView)>) -> Option<Seq<char>> {
    match member(ms, "content"@) {
        Some(JsonKindView::Str(t)) => if trim(t).len() > 0 {
            Some(trim(t))
        } else {
            None
        },
        _ => None,
    }
}

/// The tool output that one transcript message carries, if any.
pub open spec fn message_output(role: Seq<char>, c: Seq<char>) -> Option<Seq<char>> {
    if role == "tool"@ {
        match envelope_text(c) {
            Some(t) => Some(t),
            None => if trim(c).len() > 0 {
                Some(trim(c))
            } else {
                None
            },
        }
    } else if role == "user"@ && starts_with(c, "[Tool results]"@) {
        normalized_prompt(trim_start_newlines(c.subrange("[Tool results]"@.len() as int, c.len() as int)))
    } else {
        None
    }
}

/// The most recent tool output in the transcript.
pub open spec fn latest_tool_output(h: Seq<(Seq<char>, Seq<char>)>) -> Option<Seq<char>>
    decreases h.len(),
{
    if h.len() == 0 {
        None
    } else {
        match message_output(h.last().0, h.last().1) {
            Some(x) => Some(x),
            None => latest_tool_output(h.drop_last()),
        }
    }
}

/// The trimmed `content` string among the members of a tool message's
/// envelope, when it is not blank.
pub fn envelope_content_from_members(ms: &Vec<JsonMember>) -> (r: Option<String>)
    ensures
        r is Some == envelope_from(members_view(ms@)) is Some,
        r is Some ==> r->0@ == envelope_from(members_view(ms@))->0,
{
    match find_member(ms, "content") {
        Some(JsonKind::Str(t)) => {
            let tt = trim_chars(chars_of(t.as_str()).as_slice());
            if tt.len() > 0 {
                Some(string_of(tt.as_slice()))
            } else {
                None
            }
        },
        _ => None,
    }
}

fn envelope_content(c: &str) -> (r: Option<String>)
    ensures
        r is Some == envelope_text(c@) is Some,
        r is Some ==> r->0@ == envelope_text(c@)->0,
{
    match parse_object_members(c) {
        Some(ms) => envelope_content_from_members(&ms),
        None => None,
    }
}

fn skip_newlines(v: &[char], start: usize) -> (r: usize)
    requires
        start <= v@.len(),
    ensures
        start <= r <= v@.len(),
        v@.subrange(r as int, v@.len() as int) == trim_start_newlines(
            v@.subrange(start as int, v@.len() as int),
        ),
{
    let mut i: usize = start;
    while i < v.len() && v[i] == '\n'
        invariant
            start <= i <= v@.len(),
            trim_start_newlines(v@.subrange(start as int, v@.len() as int)) == trim_start_newlines(
                v@.subrange(i as int, v@.len() as int),
            ),
        decreases v@.len() - i,
    {
        assert(v@.subrange(i as int, v@.len() as int).drop_first() =~= v@.subrange(
            i + 1,
            v@.len() as int,
        ));
        i = i + 1;
    }
    i
}

fn message_tool_output(m: &ChatMessage) -> (r: Option<String>)
    ensures
        r is Some == message_output(m.role@, m.content@) is Some,
        r is Some ==> r->0@ == message_output(m.role@, m.content@)->0,
{
    let role = chars_of(m.role.as_str());
    if eq_chars(role.as_slice(), chars_of("tool").as_slice()) {
        if let Some(t) = envelope_content(m.content.as_str()) {
            return Some(t);
        }
        let t = trim_chars(chars_of(m.content.as_str()).as_slice());
        if t.len() > 0 {
            return Some(string_of(t.as_slice()));
        }
        return None;
    }
    if eq_chars(role.as_slice(), chars_of("user").as_slice()) {
        let c = chars_of(m.content.as_str());
        let marker = chars_of("[Tool results]");
        if has_prefix(c.as_slice(), marker.as_slice()) {
            let k = skip_newlines(c.as_slice(), marker.len());
            let payload = string_of(slice_of(c.as_slice(), k, c.len()).as_slice());
            return normalize_prompt_tool_results(payload.as_str());
        }
    }
    None
}

/// The most recent tool output in `history`: a tool message's envelope
/// content (or its raw text), or a prompt-mode `[Tool results]` payload.
pub fn extract_latest_tool_output(history: &[ChatMessage]) -> (r: Option<String>)
    ensures
        r is Some == latest_tool_output(transcript(history@)) is Some,
        r is Some ==> r->0@ == latest_tool_output(transcript(history@))->0,
{
    let ghost h = transcript(history@);
    let mut i: usize = history.len();
    assert(h.subrange(0, i as int) =~= h);
    while i > 0
        invariant
            h == transcript(history@),
            i <= history@.len(),
            latest_tool_output(h) == latest_tool_output(h.subrange(0, i as int)),
        decreases i,
    {
        let ghost sub = h.subrange(0, i as int);
        assert(sub.last() == history@[i - 1].view_pair());
        assert(sub.drop_last() =~= h.subrange(0, i - 1));
        if let Some(out) = message_tool_output(&history[i - 1]) {
            return Some(out);
        }
        i = i - 1;
    }
    None
}

/// `s` cut to `max` characters, with its trailing whitespace removed and
/// `...` added, when it is longer.
pub open spec fn truncated(s: Seq<char>, max: nat) -> Seq<char> {
    if s.len() > max {
        trim_end(s.subrange(0, max as int)) + "..."@
    } else {
        s
    }
}

pub fn truncate_with_ellipsis(s: &str, max_chars: usize) -> (r: String)
    ensures
        r@ == truncated(s@, max_chars as nat),
{
    let c = chars_of(s);
    if c.len() > max_chars {
        let mut r = string_of(trim_end_chars(slice_of(c.as_slice(), 0, max_chars).as_slice()).as_slice());
        r.append("...");
        r
    } else {
        string_of(c.as_slice())
    }
}

/// The text shown for a finished turn: the sanitized reply; else an excerpt
/// of the latest tool output; else the fixed fallback.
pub open spec fn finalized(
    response: Seq<char>,
    h: Seq<(Seq<char>, Seq<char>)>,
    tools: Seq<Seq<char>>,
) -> Seq<char> {
    let s = ws_sanitized(response, tools);
    if !is_blank(s) {
        s
    } else {
        match latest_tool_output(h) {
            Some(o) => LATEST_TOOL_OUTPUT_PREFIX@ + truncated(
                trim(o),
                TOOL_OUTPUT_EXCERPT_CHARS as nat,
            ),
            None => EMPTY_WS_RESPONSE_FALLBACK@,
        }
    }
}

pub fn finalize_ws_response(response: &str, history: &[ChatMessage], tools: &Vec<String>) -> (r:
    String)
    ensures
        r@ == finalized(response@, transcript(history@), views(tools@)),
{
    let sanitized = sanitize_ws_response(response, tools);
    let sc = chars_of(sanitized.as_str());
    let (a, b) = trim_bounds(sc.as_slice());
    if a < b {
        return sanitized;
    }
    match extract_latest_tool_output(history) {
        Some(out) => {
            let t = string_of(trim_chars(chars_of(out.as_str()).as_slice()).as_slice());
            let excerpt = truncate_with_ellipsis(t.as_str(), TOOL_OUTPUT_EXCERPT_CHARS);
            let mut r = String::from_str(LATEST_TOOL_OUTPUT_PREFIX);
            r.append(excerpt.as_str());
            r
        },
        None => String::from_str(EMPTY_WS_RESPONSE_FALLBACK),
    }
}


/// With an empty reply, the text shown is the most recent tool output, trimmed
/// and cut to the excerpt length, under the fixed "Latest tool output:"
/// heading; where the transcript holds no tool output, it is the fixed
/// fallback.
pub proof fn lemma_finalize_empty_reply(h: Seq<(Seq<char>, Seq<char>)>, tools: Seq<Seq<char>>)
    ensures
        latest_tool_output(h) is Some ==> finalized(Seq::empty(), h, tools)
            == LATEST_TOOL_OUTPUT_PREFIX@ + truncated(
            trim(latest_tool_output(h)->0),
            TOOL_OUTPUT_EXCERPT_CHARS as nat,
        ),
        latest_tool_output(h) is None ==> finalized(Seq::empty(), h, tools)
            == EMPTY_WS_RESPONSE_FALLBACK@,
{
    let e = Seq::<char>::empty();
    assert(strip_blocks(e) == e);
    assert(split_on(e, '\n') == seq![e]);
    assert(seq![e].drop_last() =~= Seq::<Seq<char>>::empty());
    assert(seq![e].last() == e);
    assert(trim(e) == e);
    assert(!is_tool_artifact(e, tools));
    assert(clean_lines(Seq::<Seq<char>>::empty(), tools) == Seq::<Seq<char>>::empty());
    assert(clean_lines(seq![e], tools) =~= Seq::<Seq<char>>::empty());
    assert(sanitized(e, tools) == e);
    assert(is_blank(e));
}

/// Whatever the reply, the text that replaces it holds no `<tool_call>` tag:
/// neither the sanitized text nor the fixed notice does.
pub proof fn lemma_ws_sanitized_has_no_tool_call_tag(s: Seq<char>, tools: Seq<Seq<char>>)
    ensures
        absent(ws_sanitized(s, tools), open_call_tag()),
{
    lemma_sanitized_has_no_tool_call_tag(s, tools);
    reveal_strlit("<tool_call>");
    reveal_strlit(
        "I encountered malformed tool-call output and could not produce a safe reply. Please try again.",
    );
    let n = MALFORMED_TOOL_OUTPUT_NOTICE@;
    assert forall|i: int| 0 <= i < n.len() implies n[i] != open_call_tag()[0] by {}
    lemma_absent_without_first(n, open_call_tag());
}

/// The token of an `Authorization` header value `Bearer <token>`, trimmed;
/// `None` where it is absent or blank.
pub open spec fn header_token(h: Seq<char>) -> Option<Seq<char>> {
    let t = trim(h);
    if starts_with(t, "Bearer "@) {
        let tok = trim(t.subrange("Bearer "@.len() as int, t.len() as int));
        if tok.len() > 0 {
            Some(tok)
        } else {
            None
        }
    } else {
        None
    }
}

/// The token of the first offered subprotocol `bearer.<token>` whose token is
/// not blank.
pub open spec fn protocol_token(ps: Seq<Seq<char>>) -> Option<Seq<char>>
    decreases ps.len(),
{
    if ps.len() == 0 {
        None
    } else {
        let p = trim(ps[0]);
        if starts_with(p, "bearer."@) && trim(p.subrange("bearer."@.len() as int, p.len() as int)).len()
            > 0 {
            Some(trim(p.subrange("bearer."@.len() as int, p.len() as int)))
        } else {
            protocol_token(ps.drop_first())
        }
    }
}

/// The caller's bearer token: from the `Authorization` header when it holds
/// one, else from the offered subprotocols (comma-separated).
pub open spec fn ws_bearer_token(
    authorization: Option<Seq<char>>,
    protocols: Option<Seq<char>>,
) -> Option<Seq<char>> {
    let from_header = match authorization {
        Some(h) => header_token(h),
        None => None,
    };
    if from_header is Some {
        from_header
    } else {
        match protocols {
            Some(p) => protocol_token(split_on(p, ',')),
            None => None,
        }
    }
}

fn token_after(v: &[char], prefix: &[char]) -> (r: Option<Vec<char>>)
    ensures
        r is Some <==> (starts_with(trim(v@), prefix@) && trim(
            trim(v@).subrange(prefix@.len() as int, trim(v@).len() as int),
        ).len() > 0),
        r is Some ==> r->0@ == trim(trim(v@).subrange(prefix@.len() as int, trim(v@).len() as int)),
{
    let t = trim_chars(v);
    if !has_prefix(t.as_slice(), prefix) {
        return None;
    }
    let tok = trim_chars(slice_of(t.as_slice(), prefix.len(), t.len()).as_slice());
    if tok.len() == 0 {
        None
    } else {
        Some(tok)
    }
}

/// Reads the bearer token from the `Authorization` header value and the
/// `Sec-WebSocket-Protocol` header value; the header wins when both hold one.
pub fn extract_ws_bearer_token(authorization: Option<&str>, protocols: Option<&str>) -> (r: Option<
    String,
>)
    ensures
        r is Some == ws_bearer_token(
            match authorization {
                Some(a) => Some(a@),
                None => None,
            },
            match protocols {
                Some(p) => Some(p@),
                None => None,
            },
        ) is Some,
        r is Some ==> r->0@ == ws_bearer_token(
            match authorization {
                Some(a) => Some(a@),
                None => None,
            },
            match protocols {
                Some(p) => Some(p@),
                None => None,
            },
        )->0,
{
    if let Some(h) = authorization {
        let bearer = chars_of("Bearer ");
        if let Some(tok) = token_after(chars_of(h).as_slice(), bearer.as_slice()) {
            return Some(string_of(tok.as_slice()));
        }
    }
    let offered = match protocols {
        Some(p) => p,
        None => {
            return None;
        },
    };
    let ghost av = match authorization {
        Some(a) => Some(a@),
        None => None::<Seq<char>>,
    };
    let ps = split_chars(chars_of(offered).as_slice(), ',');
    let ghost pv = ps@.map_values(|q: Vec<char>| q@);
    assert(ws_bearer_token(av, Some(offered@)) == protocol_token(pv));
    let prefix = chars_of("bearer.");
    let mut i: usize = 0;
    assert(pv.subrange(0, pv.len() as int) =~= pv);
    while i < ps.len()
        invariant
            pv == ps@.map_values(|q: Vec<char>| q@),
            pv == split_on(offered@, ','),
            ws_bearer_token(av, Some(offered@)) == protocol_token(pv),
            av == match authorization {
                Some(a) => Some(a@),
                None => None::<Seq<char>>,
            },
            protocols == Some(offered),
            prefix@ == "bearer."@,
            i <= ps@.len(),
            protocol_token(pv) == protocol_token(pv.subrange(i as int, pv.len() as int)),
        decreases ps@.len() - i,
    {
        let ghost rest = pv.subrange(i as int, pv.len() as int);
        assert(rest[0] == ps@[i as int]@);
        if let Some(tok) = token_after(ps[i].as_slice(), prefix.as_slice()) {
            return Some(string_of(tok.as_slice()));
        }
        assert(rest.drop_first() =~= pv.subrange(i + 1, pv.len() as int));
        i = i + 1;
    }
    None
}


/// What the session does with one text frame from the client.
pub enum ClientFrame {
    /// Not JSON: answer with an error event and go on.
    InvalidJson,
    /// Not a message, or an empty one: ignore it.
    Ignored,
    /// A user message with this content.
    Message(String),
}

/// `k` is the JSON string `v`.
pub open spec fn is_str(k: Option<JsonKindView>, v: Seq<char>) -> bool {
    k == Some(JsonKindView::Str(v))
}

/// The content of a client frame `{"type":"message","content":<text>}` with
/// non-empty text, from what parsing the frame gave.
pub open spec fn frame_from(v: JsonParseView) -> Option<Seq<char>> {
    match v {
        JsonParseView::Object(ms) => if is_str(member(ms, "type"@), "message"@) {
            match member(ms, "content"@) {
                Some(JsonKindView::Str(c)) => if c.len() > 0 {
                    Some(c)
                } else {
                    None
                },
                _ => None,
            }
        } else {
            None
        },
        _ => None,
    }
}

/// The content of a message frame with the text `s`.
pub open spec fn frame_message(s: Seq<char>) -> Option<Seq<char>> {
    frame_from(json_parse_of(s))
}

/// What the session does with a frame, from what parsing it gave.
pub fn classify_parsed_frame(p: &JsonParse) -> (r: ClientFrame)
    ensures
        r is InvalidJson <==> p@ is Invalid,
        r is Message <==> frame_from(p@) is Some,
        r matches ClientFrame::Message(c) ==> c@ == frame_from(p@)->0,
{
    let ms = match p {
        JsonParse::Invalid => {
            return ClientFrame::InvalidJson;
        },
        JsonParse::NotObject => {
            return ClientFrame::Ignored;
        },
        JsonParse::Object(ms) => ms,
    };
    let is_message = match find_member(ms, "type") {
        Some(JsonKind::Str(t)) => eq_chars(chars_of(t.as_str()).as_slice(), chars_of("message").as_slice()),
        _ => false,
    };
    if !is_message {
        return ClientFrame::Ignored;
    }
    match find_member(ms, "content") {
        Some(JsonKind::Str(c)) => {
            if c.as_str().is_empty() {
                ClientFrame::Ignored
            } else {
                ClientFrame::Message(c.clone())
            }
        },
        _ => ClientFrame::Ignored,
    }
}

pub fn classify_client_frame(text: &str) -> (r: ClientFrame)
    ensures
        r is InvalidJson <==> json_parse_of(text@) is Invalid,
        r is Message <==> frame_message(text@) is Some,
        r matches ClientFrame::Message(c) ==> c@ == frame_message(text@)->0,
{
    classify_parsed_frame(&parse_json(text))
}

} // verus!
