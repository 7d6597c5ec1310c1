//! Construction of the outbound JSON request body.
//!
//! The body is rendered directly, character by character, against a
//! spec-level rendering function: the model, the messages verbatim in
//! their given order, then exactly the optional parameters that are
//! set. An unset parameter is omitted from the payload entirely — never
//! sent as null or as a default — since the endpoint distinguishes
//! "unset" from "set to a default".

use vstd::prelude::*;

use crate::text::{chars_of, string_from_chars};

verus! {

/// One chat message: a role tag and its text content. The sequence of
/// messages is the conversation history; its order is meaning-bearing
/// and is preserved verbatim in the payload.
pub struct Message {
    pub role: String,
    pub content: String,
}

/// The optional request parameters. The numeric sampling parameters are
/// carried as already-rendered JSON number text, supplied by the caller;
/// `max_tokens` is integral and rendered here.
#[derive(Default)]
pub struct ChatCompletionParams {
    pub max_tokens: Option<u32>,
    pub temperature: Option<String>,
    pub top_p: Option<String>,
    pub frequency_penalty: Option<String>,
    pub presence_penalty: Option<String>,
    pub stream: Option<bool>,
}

/// The character for one hexadecimal digit.
pub open spec fn hex_digit(n: int) -> char {
    if n == 0 {
        '0'
    } else if n == 1 {
        '1'
    } else if n == 2 {
        '2'
    } else if n == 3 {
        '3'
    } else if n == 4 {
        '4'
    } else if n == 5 {
        '5'
    } else if n == 6 {
        '6'
    } else if n == 7 {
        '7'
    } else if n == 8 {
        '8'
    } else if n == 9 {
        '9'
    } else if n == 10 {
        'a'
    } else if n == 11 {
        'b'
    } else if n == 12 {
        'c'
    } else if n == 13 {
        'd'
    } else if n == 14 {
        'e'
    } else if n == 15 {
        'f'
    } else {
        '0'
    }
}

fn hex_digit_exec(d: u32) -> (c: char)
    requires
        d < 16,
    ensures
        c == hex_digit(d as int),
{
    if d == 0 {
        '0'
    } else if d == 1 {
        '1'
    } else if d == 2 {
        '2'
    } else if d == 3 {
        '3'
    } else if d == 4 {
        '4'
    } else if d == 5 {
        '5'
    } else if d == 6 {
        '6'
    } else if d == 7 {
        '7'
    } else if d == 8 {
        '8'
    } else if d == 9 {
        '9'
    } else if d == 10 {
        'a'
    } else if d == 11 {
        'b'
    } else if d == 12 {
        'c'
    } else if d == 13 {
        'd'
    } else if d == 14 {
        'e'
    } else {
        'f'
    }
}

/// The decimal rendering of `n >= 0`, most significant digit first, no
/// leading zeros (a lone zero for zero).
pub open spec fn dec_str(n: int) -> Seq<char>
    decreases n,
{
    if n < 10 {
        seq![hex_digit(n)]
    } else {
        dec_str(n / 10) + seq![hex_digit(n % 10)]
    }
}

/// Renders `n` in decimal.
pub fn u32_to_dec(n: u32) -> (r: Vec<char>)
    ensures
        r@ == dec_str(n as int),
{
    let mut digits: Vec<char> = Vec::new();
    let mut cur = n;
    proof {
        assert(dec_str(n as int) =~= dec_str(n as int) + Seq::<char>::empty());
    }
    while cur >= 10
        invariant
            dec_str(n as int) == dec_str(cur as int) + digits@,
        decreases cur,
    {
        let ghost d0 = digits@;
        let c = hex_digit_exec(cur % 10);
        digits.insert(0, c);
        proof {
            assert(digits@ =~= seq![c] + d0);
            assert(dec_str(cur as int) == dec_str(cur as int / 10) + seq![hex_digit(
                cur as int % 10,
            )]);
            assert(dec_str((cur / 10) as int) + (seq![c] + d0) =~= (dec_str((cur / 10) as int)
                + seq![c]) + d0);
        }
        cur = cur / 10;
    }
    let ghost d0 = digits@;
    let c = hex_digit_exec(cur);
    digits.insert(0, c);
    proof {
        assert(digits@ =~= seq![c] + d0);
        assert(dec_str(cur as int) == seq![c]);
        assert(dec_str(n as int) =~= seq![c] + d0);
    }
    digits
}

/// The escape of one character inside a JSON string: quote and
/// backslash escaped, the named control escapes used where they exist,
/// other control characters written as a four-digit escape, everything
/// else kept as itself.
pub open spec fn escape_char(c: char) -> Seq<char> {
    if c == '"' {
        seq!['\\', '"']
    } else if c == '\\' {
        seq!['\\', '\\']
    } else if c == '\u{8}' {
        seq!['\\', 'b']
    } else if c == '\u{c}' {
        seq!['\\', 'f']
    } else if c == '\n' {
        seq!['\\', 'n']
    } else if c == '\r' {
        seq!['\\', 'r']
    } else if c == '\t' {
        seq!['\\', 't']
    } else if (c as u32) < 0x20 {
        seq!['\\', 'u', '0', '0', hex_digit((c as u32) as int / 16), hex_digit(
            (c as u32) as int % 16,
        )]
    } else {
        seq![c]
    }
}

/// The escape of a whole string body.
pub open spec fn escape_string(s: Seq<char>) -> Seq<char>
    decreases s.len(),
{
    if s.len() == 0 {
        Seq::<char>::empty()
    } else {
        escape_string(s.drop_last()) + escape_char(s.last())
    }
}

/// A string as it stands in the payload: quoted and escaped.
pub open spec fn quoted(s: Seq<char>) -> Seq<char> {
    seq!['"'] + escape_string(s) + seq!['"']
}

/// JSON-escapes `s` for inclusion inside a quoted string.
pub fn escape_chars(s: &Vec<char>) -> (r: Vec<char>)
    ensures
        r@ == escape_string(s@),
{
    let mut r: Vec<char> = Vec::new();
    let mut i: usize = 0;
    proof {
        assert(s@.take(0) =~= Seq::<char>::empty());
    }
    while i < s.len()
        invariant
            i <= s@.len(),
            r@ == escape_string(s@.take(i as int)),
        decreases s@.len() - i,
    {
        let c = s[i];
        let ghost r0 = r@;
        if c == '"' {
            r.push('\\');
            r.push('"');
        } else if c == '\\' {
            r.push('\\');
            r.push('\\');
        } else if c == '\u{8}' {
            r.push('\\');
            r.push('b');
        } else if c == '\u{c}' {
            r.push('\\');
            r.push('f');
        } else if c == '\n' {
            r.push('\\');
            r.push('n');
        } else if c == '\r' {
            r.push('\\');
            r.push('r');
        } else if c == '\t' {
            r.push('\\');
            r.push('t');
        } else if (c as u32) < 0x20 {
            let code = c as u32;
            r.push('\\');
            r.push('u');
            r.push('0');
            r.push('0');
            r.push(hex_digit_exec(code / 16));
            r.push(hex_digit_exec(code % 16));
        } else {
            r.push(c);
        }
        proof {
            assert(r@ =~= r0 + escape_char(s@[i as int]));
            assert(s@.take((i + 1) as int).drop_last() =~= s@.take(i as int));
            assert(s@.take((i + 1) as int).last() == s@[i as int]);
        }
        i = i + 1;
    }
    proof {
        assert(s@.take(s@.len() as int) =~= s@);
    }
    r
}

/// Renders `s` as a quoted, escaped JSON string.
pub fn quote_chars(s: &Vec<char>) -> (r: Vec<char>)
    ensures
        r@ == quoted(s@),
{
    let mut r: Vec<char> = Vec::new();
    r.push('"');
    let esc = escape_chars(s);
    r.extend_from_slice(esc.as_slice());
    r.push('"');
    proof {
        assert(r@ =~= quoted(s@));
    }
    r
}

/// The rendering of one message object.
pub open spec fn render_message(role: Seq<char>, content: Seq<char>) -> Seq<char> {
    "{\"role\":"@ + quoted(role) + ",\"content\":"@ + quoted(content) + "}"@
}

/// The messages array body, joined with commas, in the given order.
pub open spec fn render_messages(ms: Seq<Message>) -> Seq<char>
    decreases ms.len(),
{
    if ms.len() == 0 {
        Seq::<char>::empty()
    } else if ms.len() == 1 {
        render_message(ms[0].role@, ms[0].content@)
    } else {
        render_messages(ms.drop_last()) + ","@ + render_message(
            ms.last().role@,
            ms.last().content@,
        )
    }
}

/// A rendered optional field: its key and its rendered value text.
pub struct FieldView {
    pub name: Seq<char>,
    pub value: Seq<char>,
}

/// The field `max_tokens` contributes when set.
pub open spec fn opt_field_u32(name: Seq<char>, v: Option<u32>) -> Seq<FieldView> {
    match v {
        Some(n) => seq![(FieldView { name: name, value: dec_str(n as int) })],
        None => Seq::<FieldView>::empty(),
    }
}

/// A pre-rendered numeric field contributes its text verbatim when set.
pub open spec fn opt_field_text(name: Seq<char>, v: Option<String>) -> Seq<FieldView> {
    match v {
        Some(s) => seq![(FieldView { name: name, value: s@ })],
        None => Seq::<FieldView>::empty(),
    }
}

/// A boolean field contributes `true` or `false` when set.
pub open spec fn opt_field_bool(name: Seq<char>, v: Option<bool>) -> Seq<FieldView> {
    match v {
        Some(b) => seq![
            (FieldView { name: name, value: if b {
                "true"@
            } else {
                "false"@
            } }),
        ],
        None => Seq::<FieldView>::empty(),
    }
}

/// The optional fields present in `p`, in rendering order: exactly the
/// set fields, each once, each with its rendered value.
pub open spec fn opt_fields(p: ChatCompletionParams) -> Seq<FieldView> {
    opt_field_u32("max_tokens"@, p.max_tokens) + opt_field_text("temperature"@, p.temperature)
        + opt_field_text("top_p"@, p.top_p) + opt_field_text(
        "frequency_penalty"@,
        p.frequency_penalty,
    ) + opt_field_text("presence_penalty"@, p.presence_penalty) + opt_field_bool(
        "stream"@,
        p.stream,
    )
}

/// One optional field as it stands in the payload: `,"name":value`.
pub open spec fn render_field(f: FieldView) -> Seq<char> {
    ",\""@ + f.name + "\":"@ + f.value
}

/// The rendering of a run of optional fields.
pub open spec fn render_fields(fs: Seq<FieldView>) -> Seq<char>
    decreases fs.len(),
{
    if fs.len() == 0 {
        Seq::<char>::empty()
    } else {
        render_fields(fs.drop_last()) + render_field(fs.last())
    }
}

/// Rendering fields piecewise or at once is the same.
proof fn lemma_render_fields_append(a: Seq<FieldView>, b: Seq<FieldView>)
    ensures
        render_fields(a + b) == render_fields(a) + render_fields(b),
    decreases b.len(),
{
    if b.len() == 0 {
        assert(a + b =~= a);
        assert(render_fields(a) + render_fields(b) =~= render_fields(a));
    } else {
        assert((a + b).drop_last() =~= a + b.drop_last());
        assert((a + b).last() == b.last());
        lemma_render_fields_append(a, b.drop_last());
        assert(render_fields(a) + (render_fields(b.drop_last()) + render_field(b.last())) =~= (
        render_fields(a) + render_fields(b.drop_last())) + render_field(b.last()));
    }
}

/// The complete outbound JSON body for one request.
pub open spec fn render_body(model: Seq<char>, ms: Seq<Message>, p: ChatCompletionParams) -> Seq<
    char,
> {
    "{\"model\":"@ + quoted(model) + ",\"messages\":["@ + render_messages(ms) + "]"@
        + render_fields(opt_fields(p)) + "}"@
}

/// Appends all of `v` to `out`.
fn append_chars(out: &mut Vec<char>, v: &Vec<char>)
    ensures
        final(out)@ == old(out)@ + v@,
{
    out.extend_from_slice(v.as_slice());
    proof {
        assert(out@ =~= old(out)@ + v@);
    }
}

/// Appends the characters of `s` to `out`.
fn append_lit(out: &mut Vec<char>, s: &str)
    ensures
        final(out)@ == old(out)@ + s@,
{
    let cs = chars_of(s);
    out.extend_from_slice(cs.as_slice());
    proof {
        assert(out@ =~= old(out)@ + s@);
    }
}

/// Appends one rendered message object to `out`.
fn append_message(out: &mut Vec<char>, m: &Message)
    ensures
        final(out)@ == old(out)@ + render_message(m.role@, m.content@),
{
    append_lit(out, "{\"role\":");
    let rc = chars_of(m.role.as_str());
    let rq = quote_chars(&rc);
    out.extend_from_slice(rq.as_slice());
    append_lit(out, ",\"content\":");
    let cc = chars_of(m.content.as_str());
    let cq = quote_chars(&cc);
    out.extend_from_slice(cq.as_slice());
    append_lit(out, "}");
    proof {
        assert(out@ =~= old(out)@ + render_message(m.role@, m.content@));
    }
}

/// Appends `,"name":` to `out`.
fn append_key(out: &mut Vec<char>, name: &str)
    ensures
        final(out)@ == old(out)@ + ",\""@ + name@ + "\":"@,
{
    append_lit(out, ",\"");
    append_lit(out, name);
    append_lit(out, "\":");
}

/// Appends the rendering of a pre-rendered numeric field, when set.
fn append_opt_text(out: &mut Vec<char>, name: &str, v: &Option<String>)
    ensures
        final(out)@ == old(out)@ + render_fields(opt_field_text(name@, *v)),
{
    match v {
        Some(s) => {
            append_key(out, name);
            let sc = chars_of(s.as_str());
            out.extend_from_slice(sc.as_slice());
            proof {
                let f = (FieldView { name: name@, value: s@ });
                assert(seq![f].drop_last() =~= Seq::<FieldView>::empty());
                assert(render_fields(seq![f]) == render_fields(Seq::<FieldView>::empty())
                    + render_field(f));
                assert(out@ =~= old(out)@ + render_fields(opt_field_text(name@, *v)));
            }
        },
        None => {
            proof {
                assert(out@ =~= old(out)@ + render_fields(opt_field_text(name@, *v)));
            }
        },
    }
}

/// Appends the rendering of the `max_tokens` field, when set.
fn append_opt_u32(out: &mut Vec<char>, name: &str, v: &Option<u32>)
    ensures
        final(out)@ == old(out)@ + render_fields(opt_field_u32(name@, *v)),
{
    match v {
        Some(n) => {
            append_key(out, name);
            let d = u32_to_dec(*n);
            out.extend_from_slice(d.as_slice());
            proof {
                let f = (FieldView { name: name@, value: dec_str(*n as int) });
                assert(seq![f].drop_last() =~= Seq::<FieldView>::empty());
                assert(render_fields(seq![f]) == render_fields(Seq::<FieldView>::empty())
                    + render_field(f));
                assert(out@ =~= old(out)@ + render_fields(opt_field_u32(name@, *v)));
            }
        },
        None => {
            proof {
                assert(out@ =~= old(out)@ + render_fields(opt_field_u32(name@, *v)));
            }
        },
    }
}

/// Appends the rendering of a boolean field, when set.
fn append_opt_bool(out: &mut Vec<char>, name: &str, v: &Option<bool>)
    ensures
        final(out)@ == old(out)@ + render_fields(opt_field_bool(name@, *v)),
{
    match v {
        Some(b) => {
            append_key(out, name);
            if *b {
                append_lit(out, "true");
            } else {
                append_lit(out, "false");
            }
            proof {
                let f = (FieldView {
                    name: name@,
                    value: if *b {
                        "true"@
                    } else {
                        "false"@
                    },
                });
                assert(seq![f].drop_last() =~= Seq::<FieldView>::empty());
                assert(render_fields(seq![f]) == render_fields(Seq::<FieldView>::empty())
                    + render_field(f));
                assert(out@ =~= old(out)@ + render_fields(opt_field_bool(name@, *v)));
            }
        },
        None => {
            proof {
                assert(out@ =~= old(out)@ + render_fields(opt_field_bool(name@, *v)));
            }
        },
    }
}

/// Builds the outbound JSON request body: the model, every message in
/// its given order, then exactly the optional parameters that are set.
#[verifier::rlimit(60)]
pub fn build_request_body(model: &str, messages: &Vec<Message>, params: &ChatCompletionParams) -> (r:
    String)
    ensures
        r@ == render_body(model@, messages@, *params),
{
    let mut out: Vec<char> = Vec::new();
    append_lit(&mut out, "{\"model\":");
    proof {
        assert(out@ =~= "{\"model\":"@);
    }
    let mc = chars_of(model);
    let mq = quote_chars(&mc);
    append_chars(&mut out, &mq);
    append_lit(&mut out, ",\"messages\":[");
    let ghost pre = out@;
    proof {
        assert(pre == "{\"model\":"@ + quoted(model@) + ",\"messages\":["@);
        assert(messages@.take(0) =~= Seq::<Message>::empty());
        assert(pre + render_messages(messages@.take(0)) =~= pre);
    }
    let mut i: usize = 0;
    while i < messages.len()
        invariant
            i <= messages@.len(),
            out@ == pre + render_messages(messages@.take(i as int)),
        decreases messages@.len() - i,
    {
        let ghost before = out@;
        if i > 0 {
            append_lit(&mut out, ",");
        }
        append_message(&mut out, &messages[i]);
        proof {
            let tk = messages@.take((i + 1) as int);
            assert(tk.drop_last() =~= messages@.take(i as int));
            assert(tk.last() == messages@[i as int]);
            if i == 0 {
                assert(tk.len() == 1);
                assert(tk[0] == messages@[0]);
                assert(out@ =~= pre + render_messages(tk));
            } else {
                assert(tk.len() > 1);
                assert(render_messages(tk) == render_messages(messages@.take(i as int)) + ","@
                    + render_message(messages@[i as int].role@, messages@[i as int].content@));
                assert(out@ =~= pre + render_messages(tk));
            }
        }
        i = i + 1;
    }
    proof {
        assert(messages@.take(messages@.len() as int) =~= messages@);
    }
    append_lit(&mut out, "]");
    let ghost mid = out@;
    append_opt_u32(&mut out, "max_tokens", &params.max_tokens);
    append_opt_text(&mut out, "temperature", &params.temperature);
    append_opt_text(&mut out, "top_p", &params.top_p);
    append_opt_text(&mut out, "frequency_penalty", &params.frequency_penalty);
    append_opt_text(&mut out, "presence_penalty", &params.presence_penalty);
    append_opt_bool(&mut out, "stream", &params.stream);
    append_lit(&mut out, "}");
    proof {
        let a = opt_field_u32("max_tokens"@, params.max_tokens);
        let b = opt_field_text("temperature"@, params.temperature);
        let c = opt_field_text("top_p"@, params.top_p);
        let d = opt_field_text("frequency_penalty"@, params.frequency_penalty);
        let e = opt_field_text("presence_penalty"@, params.presence_penalty);
        let f = opt_field_bool("stream"@, params.stream);
        let ra = render_fields(a);
        let rb = render_fields(b);
        let rc = render_fields(c);
        let rd = render_fields(d);
        let re = render_fields(e);
        let rf = render_fields(f);
        lemma_render_fields_append(a, b);
        lemma_render_fields_append(a + b, c);
        lemma_render_fields_append(a + b + c, d);
        lemma_render_fields_append(a + b + c + d, e);
        lemma_render_fields_append(a + b + c + d + e, f);
        assert(render_fields(opt_fields(*params)) == ra + rb + rc + rd + re + rf);
        vstd::seq_lib::lemma_concat_associative(mid, ra, rb);
        vstd::seq_lib::lemma_concat_associative(mid, ra + rb, rc);
        vstd::seq_lib::lemma_concat_associative(mid, ra + rb + rc, rd);
        vstd::seq_lib::lemma_concat_associative(mid, ra + rb + rc + rd, re);
        vstd::seq_lib::lemma_concat_associative(mid, ra + rb + rc + rd + re, rf);
        assert(out@ == mid + render_fields(opt_fields(*params)) + "}"@);
        assert(out@ == render_body(model@, messages@, *params));
    }
    string_from_chars(&out)
}

/// `p` with `stream` forced on, everything else as given.
pub open spec fn with_stream_true(p: ChatCompletionParams) -> ChatCompletionParams {
    ChatCompletionParams { stream: Some(true), ..p }
}

/// Copies an optional pre-rendered value.
fn clone_opt_text(v: &Option<String>) -> (r: Option<String>)
    ensures
        r == *v,
{
    match v {
        Some(s) => Some(s.clone()),
        None => None,
    }
}

/// Builds the streaming request body: as [`build_request_body`], with
/// `stream` forced to `true` whatever the caller set, since the reply
/// must arrive as a stream.
pub fn streaming_request_body(
    model: &str,
    messages: &Vec<Message>,
    params: &ChatCompletionParams,
) -> (r: String)
    ensures
        r@ == render_body(model@, messages@, with_stream_true(*params)),
{
    let forced = ChatCompletionParams {
        max_tokens: params.max_tokens,
        temperature: clone_opt_text(&params.temperature),
        top_p: clone_opt_text(&params.top_p),
        frequency_penalty: clone_opt_text(&params.frequency_penalty),
        presence_penalty: clone_opt_text(&params.presence_penalty),
        stream: Some(true),
    };
    proof {
        assert(forced == with_stream_true(*params));
    }
    build_request_body(model, messages, &forced)
}

/// Whether some field in `fs` carries the key `name`.
pub open spec fn has_field(fs: Seq<FieldView>, name: Seq<char>) -> bool
    decreases fs.len(),
{
    if fs.len() == 0 {
        false
    } else {
        fs[0].name == name || has_field(fs.drop_first(), name)
    }
}

/// A key occurs in a concatenation exactly when it occurs in a part.
proof fn lemma_has_field_append(a: Seq<FieldView>, b: Seq<FieldView>, name: Seq<char>)
    ensures
        has_field(a + b, name) <==> (has_field(a, name) || has_field(b, name)),
    decreases a.len(),
{
    if a.len() == 0 {
        assert(a + b =~= b);
    } else {
        assert((a + b)[0] == a[0]);
        assert((a + b).drop_first() =~= a.drop_first() + b);
        lemma_has_field_append(a.drop_first(), b, name);
    }
}

/// A single field carries exactly its own key.
proof fn lemma_has_field_single(f: FieldView, name: Seq<char>)
    ensures
        has_field(seq![f], name) <==> f.name == name,
{
    assert(seq![f].drop_first() =~= Seq::<FieldView>::empty());
    assert(seq![f][0] == f);
    assert(!has_field(Seq::<FieldView>::empty(), name));
}

/// Which keys occur among the rendered optional fields of `p`: exactly
/// the keys of the set parameters.
proof fn lemma_fields_key(p: ChatCompletionParams, name: Seq<char>)
    ensures
        has_field(opt_fields(p), name) <==> ((name == "max_tokens"@ && p.max_tokens is Some) || (
        name == "temperature"@ && p.temperature is Some) || (name == "top_p"@ && p.top_p is Some)
            || (name == "frequency_penalty"@ && p.frequency_penalty is Some) || (name
            == "presence_penalty"@ && p.presence_penalty is Some) || (name == "stream"@
            && p.stream is Some)),
{
    let a = opt_field_u32("max_tokens"@, p.max_tokens);
    let b = opt_field_text("temperature"@, p.temperature);
    let c = opt_field_text("top_p"@, p.top_p);
    let d = opt_field_text("frequency_penalty"@, p.frequency_penalty);
    let e = opt_field_text("presence_penalty"@, p.presence_penalty);
    let f = opt_field_bool("stream"@, p.stream);
    lemma_has_field_append(a, b, name);
    lemma_has_field_append(a + b, c, name);
    lemma_has_field_append(a + b + c, d, name);
    lemma_has_field_append(a + b + c + d, e, name);
    lemma_has_field_append(a + b + c + d + e, f, name);
    match p.max_tokens {
        Some(n) => lemma_has_field_single(
            FieldView { name: "max_tokens"@, value: dec_str(n as int) },
            name,
        ),
        None => (),
    }
    match p.temperature {
        Some(s) => lemma_has_field_single(FieldView { name: "temperature"@, value: s@ }, name),
        None => (),
    }
    match p.top_p {
        Some(s) => lemma_has_field_single(FieldView { name: "top_p"@, value: s@ }, name),
        None => (),
    }
    match p.frequency_penalty {
        Some(s) => lemma_has_field_single(
            FieldView { name: "frequency_penalty"@, value: s@ },
            name,
        ),
        None => (),
    }
    match p.presence_penalty {
        Some(s) => lemma_has_field_single(
            FieldView { name: "presence_penalty"@, value: s@ },
            name,
        ),
        None => (),
    }
    match p.stream {
        Some(bv) => lemma_has_field_single(
            FieldView {
                name: "stream"@,
                value: if bv {
                    "true"@
                } else {
                    "false"@
                },
            },
            name,
        ),
        None => (),
    }
}

/// Whether `name` is one of the six optional parameter keys.
pub open spec fn is_param_key(name: Seq<char>) -> bool {
    name == "max_tokens"@ || name == "temperature"@ || name == "top_p"@ || name
        == "frequency_penalty"@ || name == "presence_penalty"@ || name == "stream"@
}

/// Omitted-field fidelity: a parameter's key stands among the rendered
/// optional fields exactly when that parameter is set, and no key other
/// than the six parameter keys ever appears. Building with a field
/// unset, then rendering, never produces that field's key.
pub proof fn lemma_omitted_field_fidelity(p: ChatCompletionParams)
    ensures
        has_field(opt_fields(p), "max_tokens"@) <==> p.max_tokens is Some,
        has_field(opt_fields(p), "temperature"@) <==> p.temperature is Some,
        has_field(opt_fields(p), "top_p"@) <==> p.top_p is Some,
        has_field(opt_fields(p), "frequency_penalty"@) <==> p.frequency_penalty is Some,
        has_field(opt_fields(p), "presence_penalty"@) <==> p.presence_penalty is Some,
        has_field(opt_fields(p), "stream"@) <==> p.stream is Some,
        forall|name: Seq<char>| #[trigger] has_field(opt_fields(p), name) ==> is_param_key(name),
{
    reveal_strlit("max_tokens");
    reveal_strlit("temperature");
    reveal_strlit("top_p");
    reveal_strlit("frequency_penalty");
    reveal_strlit("presence_penalty");
    reveal_strlit("stream");
    assert("max_tokens"@.len() == 10);
    assert("temperature"@.len() == 11);
    assert("top_p"@.len() == 5);
    assert("frequency_penalty"@.len() == 17);
    assert("presence_penalty"@.len() == 16);
    assert("stream"@.len() == 6);
    lemma_fields_key(p, "max_tokens"@);
    lemma_fields_key(p, "temperature"@);
    lemma_fields_key(p, "top_p"@);
    lemma_fields_key(p, "frequency_penalty"@);
    lemma_fields_key(p, "presence_penalty"@);
    lemma_fields_key(p, "stream"@);
    assert forall|name: Seq<char>| #[trigger] has_field(opt_fields(p), name) implies is_param_key(
        name,
    ) by {
        lemma_fields_key(p, name);
    }
}

} // verus!
