use vstd::prelude::*;
use vstd::string::StringSliceAdditionalSpecFns;
use crate::json::{Json, JsonV, lemma_dv_seq, lemma_dv_entries};
use crate::text::{dec_of, lower_seq, ascii_lower, u64_to_dec, push_all};
use crate::roles::{role_b_to_a, map_role_b_to_a};

verus! {

/// What one upstream candidate contributes to the outbound envelope: the
/// text of its first part, whether that part is reasoning output, the role
/// carried on its content, and its finish reason.
pub struct ChoiceInfo {
    pub text: Seq<u8>,
    pub thought: bool,
    pub role: Option<Seq<u8>>,
    pub finish: JsonV,
}

/// The first part of a candidate's content, when it is usable: a part with a
/// text field.  The reasoning flag is the part's `thought` field; the role,
/// mapped to the inbound protocol, comes from the content; the finish reason
/// is lower-cased when present and null otherwise.
pub open spec fn candidate_info(c: JsonV) -> Option<ChoiceInfo> {
    match c.get("content".spec_bytes()) {
        Option::Some(content) => match content.get("parts".spec_bytes()) {
            Option::Some(JsonV::Arr(parts)) => if parts.len() > 0 {
                match parts[0].get("text".spec_bytes()) {
                    Option::Some(JsonV::Str(t)) => Option::Some(
                        ChoiceInfo {
                            text: t,
                            thought: parts[0].get("thought".spec_bytes()) == Option::Some(
                                JsonV::Bool(true),
                            ),
                            role: match content.get("role".spec_bytes()) {
                                Option::Some(JsonV::Str(r)) => Option::Some(role_b_to_a(r)),
                                _ => Option::None,
                            },
                            finish: match c.get("finishReason".spec_bytes()) {
                                Option::Some(JsonV::Str(f)) => JsonV::Str(lower_seq(f)),
                                _ => JsonV::Null,
                            },
                        },
                    ),
                    _ => Option::None,
                }
            } else {
                Option::None
            },
            _ => Option::None,
        },
        _ => Option::None,
    }
}

/// The marker that opens a reasoning block when reasoning is rendered as
/// markdown.
pub open spec fn thought_open() -> Seq<u8> {
    "```thinking\n".spec_bytes()
}

/// The marker that closes a reasoning block, emitted exactly once on the
/// switch from reasoning back to normal content.
pub open spec fn thought_close() -> Seq<u8> {
    "\n```\n".spec_bytes()
}

/// A candidate's text as it is emitted: when reasoning is rendered as
/// markdown, entering a reasoning segment opens a block and leaving one
/// closes it; otherwise the text passes through.
pub open spec fn rendered_text(text: Seq<u8>, thought: bool, markdown: bool, prev: bool) -> Seq<
    u8,
> {
    if markdown && thought && !prev {
        thought_open() + text
    } else if markdown && !thought && prev {
        thought_close() + text
    } else {
        text
    }
}

/// One choice of the outbound envelope: the message (or delta, when
/// streaming) with its content and mapped role, the finish reason, and the
/// candidate's position.
pub open spec fn choice_obj(
    info: ChoiceInfo,
    idx: int,
    stream_mode: bool,
    markdown: bool,
    prev: bool,
) -> JsonV {
    let msg_entries = seq![
        ("content".spec_bytes(), JsonV::Str(rendered_text(info.text, info.thought, markdown, prev))),
    ] + match info.role {
        Option::Some(r) => seq![("role".spec_bytes(), JsonV::Str(r))],
        Option::None => Seq::empty(),
    };
    let key = if stream_mode {
        "delta".spec_bytes()
    } else {
        "message".spec_bytes()
    };
    JsonV::Obj(
        seq![
            (key, JsonV::Obj(msg_entries)),
            ("finish_reason".spec_bytes(), info.finish),
            ("index".spec_bytes(), JsonV::Num(dec_of(idx))),
        ],
    )
}

/// The choices contributed by the candidates from position `idx` on, and the
/// reasoning-carry flag after them.  A candidate without a usable first part
/// contributes nothing; a reasoning candidate is dropped entirely when
/// reasoning is suppressed, and then the carry flag does not move; an
/// emitted choice sets the carry flag to its reasoning flag.
pub open spec fn choices_of(
    cands: Seq<JsonV>,
    idx: int,
    stream_mode: bool,
    suppress: bool,
    markdown: bool,
    prev: bool,
) -> (Seq<JsonV>, bool)
    decreases cands.len(),
{
    if cands.len() == 0 {
        (Seq::empty(), prev)
    } else {
        match candidate_info(cands[0]) {
            Option::Some(info) => if suppress && info.thought {
                choices_of(cands.skip(1), idx + 1, stream_mode, suppress, markdown, prev)
            } else {
                let rest = choices_of(
                    cands.skip(1),
                    idx + 1,
                    stream_mode,
                    suppress,
                    markdown,
                    info.thought,
                );
                (seq![choice_obj(info, idx, stream_mode, markdown, prev)] + rest.0, rest.1)
            },
            Option::None => choices_of(
                cands.skip(1),
                idx + 1,
                stream_mode,
                suppress,
                markdown,
                prev,
            ),
        }
    }
}

/// The upstream candidates, or nothing when the response has no candidate
/// array.
pub open spec fn cands_of(body: JsonV) -> Seq<JsonV> {
    match body.get("candidates".spec_bytes()) {
        Option::Some(JsonV::Arr(cs)) => cs,
        _ => Seq::empty(),
    }
}

/// The `usage` entry copied field-for-field from the upstream usage
/// metadata, when all three counts are present.
pub open spec fn usage_entries(body: JsonV) -> Seq<(Seq<u8>, JsonV)> {
    match body.get("usageMetadata".spec_bytes()) {
        Option::Some(u) => match (
            u.get("promptTokenCount".spec_bytes()),
            u.get("candidatesTokenCount".spec_bytes()),
            u.get("totalTokenCount".spec_bytes()),
        ) {
            (Option::Some(p), Option::Some(c), Option::Some(t)) => seq![
                (
                    "usage".spec_bytes(),
                    JsonV::Obj(
                        seq![
                            ("prompt_tokens".spec_bytes(), p),
                            ("completion_tokens".spec_bytes(), c),
                            ("total_tokens".spec_bytes(), t),
                        ],
                    ),
                ),
            ],
            _ => Seq::empty(),
        },
        _ => Seq::empty(),
    }
}

/// The entries of the outbound envelope, in order: identifier, object tag,
/// creation time and model passed through verbatim, the choices, and the
/// usage counts when the upstream reported them.
pub open spec fn envelope_entries(
    body: JsonV,
    id: Seq<u8>,
    stream_mode: bool,
    choices: Seq<JsonV>,
) -> Seq<(Seq<u8>, JsonV)> {
    seq![
            ("id".spec_bytes(), JsonV::Str(id)),
            (
                "object".spec_bytes(),
                JsonV::Str(
                    if stream_mode {
                        "chat.completion.chunk".spec_bytes()
                    } else {
                        "chat.completion".spec_bytes()
                    },
                ),
            ),
            (
                "created".spec_bytes(),
                match body.get("created".spec_bytes()) {
                    Option::Some(v) => v,
                    Option::None => JsonV::Num(dec_of(0)),
                },
            ),
            (
                "model".spec_bytes(),
                match body.get("modelVersion".spec_bytes()) {
                    Option::Some(v) => v,
                    Option::None => JsonV::Str(Seq::empty()),
                },
            ),
        ("choices".spec_bytes(), JsonV::Arr(choices)),
    ] + usage_entries(body)
}

/// The whole outbound envelope for one upstream response, together with the
/// reasoning-carry flag after it.  The envelope is absent only outside
/// streaming mode, when no candidate yielded a usable choice.
pub open spec fn transcoded_response(
    body: JsonV,
    id: Seq<u8>,
    stream_mode: bool,
    suppress: bool,
    markdown: bool,
    prev: bool,
) -> (Option<JsonV>, bool) {
    let (choices, prev2) = choices_of(cands_of(body), 0, stream_mode, suppress, markdown, prev);
    let env = JsonV::Obj(envelope_entries(body, id, stream_mode, choices));
    if stream_mode || choices.len() > 0 {
        (Option::Some(env), prev2)
    } else {
        (Option::None, prev2)
    }
}

/// Relies on `uuid::Uuid::new_v4` and its hyphenated text form: a fresh
/// random identifier, 36 bytes long; nothing can be promised of its value.
#[verifier::external_body]
fn fresh_uuid_text() -> (r: Vec<u8>)
    ensures
        r@.len() == 36,
{
    uuid::Uuid::new_v4().to_string().into_bytes()
}

/// A fresh opaque completion identifier: the completion prefix followed by
/// the hexadecimal digits of a random identifier.
pub fn new_completion_id() -> (r: Vec<u8>)
    ensures
        "chatcmpl-".spec_bytes().is_prefix_of(r@),
{
    let raw = fresh_uuid_text();
    let mut out = crate::text::bytes_of("chatcmpl-");
    let ghost prefix = "chatcmpl-".spec_bytes();
    let mut i: usize = 0;
    while i < raw.len()
        invariant
            0 <= i <= raw@.len(),
            prefix == "chatcmpl-".spec_bytes(),
            prefix.is_prefix_of(out@),
        decreases raw@.len() - i,
    {
        let b = raw[i];
        if b != 45 {
            let ghost pre = out@;
            out.push(b);
            proof {
                assert(out@.take(prefix.len() as int) =~= pre.take(prefix.len() as int));
            }
        }
        i += 1;
    }
    out
}

/// A deep copy of a JSON tree.
#[verifier::loop_isolation(false)]
pub fn json_clone(j: &Json) -> (r: Json)
    ensures
        r.dv() == j.dv(),
    decreases *j,
{
    match j {
        Json::Null => Json::Null,
        Json::Bool(b) => Json::Bool(*b),
        Json::Num(t) => Json::Num(vstd::slice::slice_to_vec(t.as_slice())),
        Json::Str(t) => Json::Str(vstd::slice::slice_to_vec(t.as_slice())),
        Json::Arr(items) => {
            let mut out: Vec<Json> = Vec::new();
            let mut i: usize = 0;
            while i < items.len()
                invariant
                    0 <= i <= items@.len(),
                    out@.len() == i,
                    forall|k: int| 0 <= k < i ==> out@[k].dv() == items@[k].dv(),
                decreases items@.len() - i,
            {
                out.push(json_clone(&items[i]));
                i += 1;
            }
            proof {
                lemma_dv_seq(out@);
                lemma_dv_seq(items@);
                assert(Json::dv_seq(out@) =~= Json::dv_seq(items@));
            }
            Json::Arr(out)
        },
        Json::Obj(entries) => {
            let mut out: Vec<(Vec<u8>, Json)> = Vec::new();
            let mut i: usize = 0;
            while i < entries.len()
                invariant
                    0 <= i <= entries@.len(),
                    out@.len() == i,
                    forall|k: int|
                        0 <= k < i ==> out@[k].0@ == entries@[k].0@ && out@[k].1.dv()
                            == entries@[k].1.dv(),
                decreases entries@.len() - i,
            {
                let k = vstd::slice::slice_to_vec(entries[i].0.as_slice());
                let v = json_clone(&entries[i].1);
                out.push((k, v));
                i += 1;
            }
            proof {
                lemma_dv_entries(out@);
                lemma_dv_entries(entries@);
                assert(Json::dv_entries(out@) =~= Json::dv_entries(entries@));
            }
            Json::Obj(out)
        },
    }
}

/// One usable candidate as the executable code carries it.
struct ChoiceParts {
    text: Vec<u8>,
    thought: bool,
    role: Option<Vec<u8>>,
    finish: Json,
}

impl ChoiceParts {
    spec fn dv(self) -> ChoiceInfo {
        ChoiceInfo {
            text: self.text@,
            thought: self.thought,
            role: match self.role {
                Option::Some(r) => Option::Some(r@),
                Option::None => Option::None,
            },
            finish: self.finish.dv(),
        }
    }
}

/// Reads one candidate as `candidate_info` describes it.
fn extract_candidate(c: &Json) -> (r: Option<ChoiceParts>)
    ensures
        match r {
            Some(p) => candidate_info(c.dv()) == Some(p.dv()),
            None => candidate_info(c.dv()) is None,
        },
{
    let content = match c.get("content".as_bytes()) {
        Some(x) => x,
        None => {
            return None;
        },
    };
    let parts = match content.get("parts".as_bytes()) {
        Some(Json::Arr(parts)) => parts,
        _ => {
            return None;
        },
    };
    if parts.len() == 0 {
        proof {
            lemma_dv_seq(parts@);
        }
        return None;
    }
    proof {
        lemma_dv_seq(parts@);
    }
    let p0 = &parts[0];
    let text = match p0.get("text".as_bytes()) {
        Some(Json::Str(t)) => vstd::slice::slice_to_vec(t.as_slice()),
        _ => {
            return None;
        },
    };
    let thought = match p0.get("thought".as_bytes()) {
        Some(Json::Bool(b)) => *b,
        _ => false,
    };
    let role = match content.get("role".as_bytes()) {
        Some(Json::Str(r)) => Some(map_role_b_to_a(r.as_slice())),
        _ => None,
    };
    let finish = match c.get("finishReason".as_bytes()) {
        Some(Json::Str(f)) => Json::Str(ascii_lower(f.as_slice())),
        _ => Json::Null,
    };
    Some(ChoiceParts { text, thought, role, finish })
}

/// Builds one choice object as `choice_obj` describes it.
fn build_choice(p: ChoiceParts, idx: u64, stream_mode: bool, markdown: bool, prev: bool) -> (r:
    Json)
    ensures
        r.dv() == choice_obj(p.dv(), idx as int, stream_mode, markdown, prev),
{
    let ghost info = p.dv();
    let mut text: Vec<u8> = Vec::new();
    if markdown && p.thought && !prev {
        push_all(&mut text, "```thinking\n".as_bytes());
    } else if markdown && !p.thought && prev {
        push_all(&mut text, "\n```\n".as_bytes());
    }
    push_all(&mut text, p.text.as_slice());
    proof {
        assert(text@ == rendered_text(info.text, info.thought, markdown, prev));
    }
    let mut msg_entries: Vec<(Vec<u8>, Json)> = Vec::new();
    msg_entries.push((crate::text::bytes_of("content"), Json::Str(text)));
    match p.role {
        Some(r) => {
            msg_entries.push((crate::text::bytes_of("role"), Json::Str(r)));
        },
        None => {},
    }
    let ghost mev = msg_entries@;
    let msg = Json::Obj(msg_entries);
    let mut entries: Vec<(Vec<u8>, Json)> = Vec::new();
    let key = if stream_mode {
        crate::text::bytes_of("delta")
    } else {
        crate::text::bytes_of("message")
    };
    entries.push((key, msg));
    entries.push((crate::text::bytes_of("finish_reason"), p.finish));
    entries.push((crate::text::bytes_of("index"), Json::Num(u64_to_dec(idx))));
    let r = Json::Obj(entries);
    proof {
        lemma_dv_entries(mev);
        lemma_dv_entries(entries@);
        assert(Json::dv_entries(mev) =~= seq![
            (
                "content".spec_bytes(),
                JsonV::Str(rendered_text(info.text, info.thought, markdown, prev)),
            ),
        ] + match info.role {
            Option::Some(ro) => seq![("role".spec_bytes(), JsonV::Str(ro))],
            Option::None => Seq::empty(),
        });
        assert(Json::dv_entries(entries@) =~= seq![
            (
                if stream_mode {
                    "delta".spec_bytes()
                } else {
                    "message".spec_bytes()
                },
                msg.dv(),
            ),
            ("finish_reason".spec_bytes(), info.finish),
            ("index".spec_bytes(), JsonV::Num(dec_of(idx as int))),
        ]);
    }
    r
}

/// Builds the choices of the envelope from the upstream candidates,
/// threading the reasoning-carry flag, as `choices_of` describes.
#[verifier::rlimit(30)]
fn build_choices(
    cands: &Vec<Json>,
    stream_mode: bool,
    suppress: bool,
    markdown: bool,
    prev_thought: bool,
) -> (r: (Vec<Json>, bool))
    ensures
        ({
            let spec = choices_of(
                Json::dv_seq(cands@),
                0,
                stream_mode,
                suppress,
                markdown,
                prev_thought,
            );
            Json::dv_seq(r.0@) == spec.0 && r.1 == spec.1
        }),
{
    let ghost spec_cands = Json::dv_seq(cands@);
    proof {
        lemma_dv_seq(cands@);
        assert(spec_cands.skip(0) =~= spec_cands);
    }
    let ghost full = choices_of(spec_cands, 0, stream_mode, suppress, markdown, prev_thought);
    let mut choices: Vec<Json> = Vec::new();
    let mut cur_prev = prev_thought;
    let mut i: usize = 0;
    while i < cands.len()
        invariant
            0 <= i <= cands@.len(),
            spec_cands == Json::dv_seq(cands@),
            spec_cands.len() == cands@.len(),
            forall|k: int| 0 <= k < cands@.len() ==> spec_cands[k] == cands@[k].dv(),
            full == choices_of(spec_cands, 0, stream_mode, suppress, markdown, prev_thought),
            ({
                let rest = choices_of(
                    spec_cands.skip(i as int),
                    i as int,
                    stream_mode,
                    suppress,
                    markdown,
                    cur_prev,
                );
                full == (Json::dv_seq(choices@) + rest.0, rest.1)
            }),
        decreases cands@.len() - i,
    {
        let ghost s = spec_cands.skip(i as int);
        proof {
            assert(s[0] == spec_cands[i as int]);
            assert(s.skip(1) =~= spec_cands.skip(i as int + 1));
        }
        match extract_candidate(&cands[i]) {
            Some(p) => {
                if suppress && p.thought {
                } else {
                    let ghost pre_choices = choices@;
                    let ghost info = p.dv();
                    let ghost this_prev = cur_prev;
                    let thought = p.thought;
                    let choice = build_choice(p, i as u64, stream_mode, markdown, cur_prev);
                    choices.push(choice);
                    cur_prev = thought;
                    proof {
                        lemma_dv_seq(choices@);
                        lemma_dv_seq(pre_choices);
                        assert(Json::dv_seq(choices@) =~= Json::dv_seq(pre_choices) + seq![
                            choice_obj(info, i as int, stream_mode, markdown, this_prev),
                        ]);
                    }
                }
            },
            None => {},
        }
        i += 1;
    }
    proof {
        assert(spec_cands.skip(i as int).len() == 0);
        assert(Json::dv_seq(choices@) + Seq::<JsonV>::empty() =~= Json::dv_seq(choices@));
    }
    (choices, cur_prev)
}

/// Builds the envelope object around already-built choices, as
/// `envelope_entries` describes.
#[verifier::rlimit(30)]
fn build_envelope(body: &Json, id: &[u8], stream_mode: bool, choices: Vec<Json>) -> (r: Json)
    ensures
        r.dv() == JsonV::Obj(
            envelope_entries(body.dv(), id@, stream_mode, Json::dv_seq(choices@)),
        ),
{
    let ghost choices_v = Json::dv_seq(choices@);
    let created = match body.get("created".as_bytes()) {
        Some(v) => json_clone(v),
        None => Json::Num(u64_to_dec(0)),
    };
    let model = match body.get("modelVersion".as_bytes()) {
        Some(v) => json_clone(v),
        None => Json::Str(Vec::new()),
    };
    let mut entries: Vec<(Vec<u8>, Json)> = Vec::new();
    entries.push((crate::text::bytes_of("id"), Json::Str(vstd::slice::slice_to_vec(id))));
    let object_tag = if stream_mode {
        crate::text::bytes_of("chat.completion.chunk")
    } else {
        crate::text::bytes_of("chat.completion")
    };
    entries.push((crate::text::bytes_of("object"), Json::Str(object_tag)));
    entries.push((crate::text::bytes_of("created"), created));
    entries.push((crate::text::bytes_of("model"), model));
    entries.push((crate::text::bytes_of("choices"), Json::Arr(choices)));
    match body.get("usageMetadata".as_bytes()) {
        Some(u) => {
            match (
                u.get("promptTokenCount".as_bytes()),
                u.get("candidatesTokenCount".as_bytes()),
                u.get("totalTokenCount".as_bytes()),
            ) {
                (Some(p), Some(c), Some(t)) => {
                    let mut usage: Vec<(Vec<u8>, Json)> = Vec::new();
                    usage.push((crate::text::bytes_of("prompt_tokens"), json_clone(p)));
                    usage.push((crate::text::bytes_of("completion_tokens"), json_clone(c)));
                    usage.push((crate::text::bytes_of("total_tokens"), json_clone(t)));
                    proof {
                        lemma_dv_entries(usage@);
                        assert(Json::dv_entries(usage@) =~= seq![
                            ("prompt_tokens".spec_bytes(), p.dv()),
                            ("completion_tokens".spec_bytes(), c.dv()),
                            ("total_tokens".spec_bytes(), t.dv()),
                        ]);
                    }
                    entries.push((crate::text::bytes_of("usage"), Json::Obj(usage)));
                },
                _ => {},
            }
        },
        None => {},
    }
    let env = Json::Obj(entries);
    proof {
        lemma_dv_entries(entries@);
        assert(Json::dv_entries(entries@) =~= envelope_entries(
            body.dv(),
            id@,
            stream_mode,
            choices_v,
        ));
    }
    env
}

/// Converts one upstream response to the outbound shape, in whole-response
/// or streaming mode.  `id` is the opaque completion identifier the envelope
/// carries; `suppress` drops reasoning content; `markdown` renders reasoning
/// inside a fenced block; `prev_thought` is the reasoning-carry flag from
/// the last emitted event, and the second result is that flag after this
/// one.  The envelope is absent exactly when `transcoded_response` says so:
/// only outside streaming mode, when no candidate yielded a usable choice.
pub fn transform_google_to_openai(
    body: &Json,
    id: &[u8],
    stream_mode: bool,
    suppress: bool,
    markdown: bool,
    prev_thought: bool,
) -> (r: (Option<Json>, bool))
    ensures
        ({
            let (o, p2) = transcoded_response(
                body.dv(),
                id@,
                stream_mode,
                suppress,
                markdown,
                prev_thought,
            );
            &&& r.1 == p2
            &&& match r.0 {
                Some(j) => o == Some(j.dv()),
                None => o is None,
            }
        }),
{
    let ghost spec_cands = cands_of(body.dv());
    let empty_cands: Vec<Json> = Vec::new();
    let (choices, cur_prev) = match body.get("candidates".as_bytes()) {
        Some(Json::Arr(cands)) => build_choices(cands, stream_mode, suppress, markdown, prev_thought),
        _ => {
            proof {
                assert(spec_cands =~= Seq::<JsonV>::empty());
                assert(Json::dv_seq(empty_cands@) =~= Seq::<JsonV>::empty());
            }
            build_choices(&empty_cands, stream_mode, suppress, markdown, prev_thought)
        },
    };
    let n_choices = choices.len();
    proof {
        lemma_dv_seq(choices@);
    }
    let env = build_envelope(body, id, stream_mode, choices);
    if stream_mode || n_choices > 0 {
        (Some(env), cur_prev)
    } else {
        (None, cur_prev)
    }
}

/// In whole-response mode, a response without a candidate array yields no
/// envelope at all, never an empty success.
pub proof fn lemma_no_candidates_no_output(
    body: JsonV,
    id: Seq<u8>,
    suppress: bool,
    markdown: bool,
    prev: bool,
)
    requires
        body.get("candidates".spec_bytes()) is None || !(body.get(
            "candidates".spec_bytes(),
        ) matches Some(c) && c is Arr),
    ensures
        transcoded_response(body, id, false, suppress, markdown, prev).0 is None,
        transcoded_response(body, id, false, suppress, markdown, prev).1 == prev,
{
    assert(cands_of(body) =~= Seq::<JsonV>::empty());
}

} // verus!
