use vstd::prelude::*;
use vstd::string::StringSliceAdditionalSpecFns;
use crate::json::{Json, JsonV, lemma_dv_seq, lemma_dv_entries};
use crate::text::{bytes_of, dec_of, u64_to_dec, bytes_eq};
use crate::roles::{role_a_to_b, map_role_a_to_b};
use crate::media::{MediaKind, UploadedMediaRef};
use crate::reasoning::ThinkingConfig;

verus! {

/// One inline media payload the request carries, to be externalized before
/// the outbound request is built.
pub struct MediaRequest {
    pub kind: MediaKind,
    pub data_uri: Vec<u8>,
}

/// What one content part asks of the transcoder: a text part carries its
/// text; a media part consumes one externalized upload; anything else is
/// dropped.
pub enum PartAction {
    Text(Seq<u8>),
    Media,
    Skip,
}

/// Classifies one content part by its `type` tag.  A text part without its
/// text, a media part without its payload object, and an unknown tag are
/// all dropped.
pub open spec fn part_action(p: JsonV) -> PartAction {
    match p.get("type".spec_bytes()) {
        Option::Some(JsonV::Str(t)) => if t == "text".spec_bytes() {
            match p.get("text".spec_bytes()) {
                Option::Some(JsonV::Str(x)) => PartAction::Text(x),
                _ => PartAction::Skip,
            }
        } else if t == "image_url".spec_bytes() {
            match p.get("image_url".spec_bytes()) {
                Option::Some(_) => PartAction::Media,
                _ => PartAction::Skip,
            }
        } else if t == "input_audio".spec_bytes() {
            match p.get("input_audio".spec_bytes()) {
                Option::Some(_) => PartAction::Media,
                _ => PartAction::Skip,
            }
        } else {
            PartAction::Skip
        },
        _ => PartAction::Skip,
    }
}

/// The upload a media part asks for: an image part's data URI is the `url`
/// of its `image_url` object; an audio part's is the `data` of its
/// `input_audio` object; a missing field leaves an empty URI, which the
/// externalizer then rejects.
pub open spec fn media_req_of(p: JsonV) -> (MediaKind, Seq<u8>) {
    match p.get("type".spec_bytes()) {
        Option::Some(JsonV::Str(t)) => if t == "image_url".spec_bytes() {
            (
                MediaKind::Image,
                match p.get("image_url".spec_bytes()) {
                    Option::Some(iu) => match iu.get("url".spec_bytes()) {
                        Option::Some(JsonV::Str(u)) => u,
                        _ => Seq::empty(),
                    },
                    _ => Seq::empty(),
                },
            )
        } else {
            (
                MediaKind::Audio,
                match p.get("input_audio".spec_bytes()) {
                    Option::Some(a) => match a.get("data".spec_bytes()) {
                        Option::Some(JsonV::Str(d)) => d,
                        _ => Seq::empty(),
                    },
                    _ => Seq::empty(),
                },
            )
        },
        _ => (MediaKind::Image, Seq::empty()),
    }
}

/// The uploads that the parts of one content array ask for, in order.
pub open spec fn media_reqs_parts(ps: Seq<JsonV>) -> Seq<(MediaKind, Seq<u8>)>
    decreases ps.len(),
{
    if ps.len() == 0 {
        Seq::empty()
    } else {
        (match part_action(ps[0]) {
            PartAction::Media => seq![media_req_of(ps[0])],
            _ => Seq::empty(),
        }) + media_reqs_parts(ps.skip(1))
    }
}

/// A text part of the outbound request.
pub open spec fn text_part(t: Seq<u8>) -> JsonV {
    JsonV::Obj(seq![("text".spec_bytes(), JsonV::Str(t))])
}

/// A file-reference part of the outbound request.
pub open spec fn file_part(mime: Seq<u8>, uri: Seq<u8>) -> JsonV {
    JsonV::Obj(
        seq![
            (
                "file_data".spec_bytes(),
                JsonV::Obj(
                    seq![
                        ("mime_type".spec_bytes(), JsonV::Str(mime)),
                        ("file_uri".spec_bytes(), JsonV::Str(uri)),
                    ],
                ),
            ),
        ],
    )
}

/// The outbound parts of one content array, consuming externalized uploads
/// in order from position `k`: a text part passes through; a media part
/// takes the next upload, and is dropped when that upload failed; anything
/// else is dropped.
pub open spec fn parts_out(
    ps: Seq<JsonV>,
    ups: Seq<Option<(Seq<u8>, Seq<u8>)>>,
    k: int,
) -> (Seq<JsonV>, int)
    decreases ps.len(),
{
    if ps.len() == 0 {
        (Seq::empty(), k)
    } else {
        let (head, k1): (Seq<JsonV>, int) = match part_action(ps[0]) {
            PartAction::Text(x) => (seq![text_part(x)], k),
            PartAction::Media => (
                if 0 <= k < ups.len() {
                    match ups[k] {
                        Option::Some(mu) => seq![file_part(mu.0, mu.1)],
                        Option::None => Seq::empty(),
                    }
                } else {
                    Seq::empty()
                },
                k + 1,
            ),
            PartAction::Skip => (Seq::empty(), k),
        };
        let rest = parts_out(ps.skip(1), ups, k1);
        (head + rest.0, rest.1)
    }
}

/// A media part moves the upload cursor by one; nothing else moves it.
pub proof fn lemma_parts_cursor(ps: Seq<JsonV>, ups: Seq<Option<(Seq<u8>, Seq<u8>)>>, k: int)
    ensures
        parts_out(ps, ups, k).1 == k + media_reqs_parts(ps).len(),
    decreases ps.len(),
{
    if ps.len() > 0 {
        match part_action(ps[0]) {
            PartAction::Media => {
                lemma_parts_cursor(ps.skip(1), ups, k + 1);
            },
            _ => {
                lemma_parts_cursor(ps.skip(1), ups, k);
            },
        }
    }
}

/// A message whose content is one plain string contributes exactly one
/// part, a text part carrying that string, wherever the upload cursor
/// stands.
pub proof fn lemma_string_content_single_part(
    m: JsonV,
    t: Seq<u8>,
    ups: Seq<Option<(Seq<u8>, Seq<u8>)>>,
    k: int,
)
    requires
        m.get("content".spec_bytes()) == Some(JsonV::Str(t)),
    ensures
        msg_parts(m.get("content".spec_bytes()), ups, k).0 == seq![text_part(t)],
        msg_parts(m.get("content".spec_bytes()), ups, k).0.len() == 1,
        msg_parts(m.get("content".spec_bytes()), ups, k).1 == k,
{
}

/// A message's role, defaulting to `user`.
pub open spec fn msg_role(m: JsonV) -> Seq<u8> {
    match m.get("role".spec_bytes()) {
        Option::Some(JsonV::Str(r)) => r,
        _ => "user".spec_bytes(),
    }
}

/// The outbound parts of one message's content: a plain string is one text
/// part; an array is transcoded part by part; anything else contributes
/// nothing.
pub open spec fn msg_parts(
    content: Option<JsonV>,
    ups: Seq<Option<(Seq<u8>, Seq<u8>)>>,
    k: int,
) -> (Seq<JsonV>, int) {
    match content {
        Option::Some(JsonV::Str(t)) => (seq![text_part(t)], k),
        Option::Some(JsonV::Arr(ps)) => parts_out(ps, ups, k),
        _ => (Seq::empty(), k),
    }
}

/// The uploads one message asks for.
pub open spec fn media_reqs_msg(m: JsonV) -> Seq<(MediaKind, Seq<u8>)> {
    if msg_role(m) == "system".spec_bytes() {
        Seq::empty()
    } else {
        match m.get("content".spec_bytes()) {
            Option::Some(JsonV::Arr(ps)) => media_reqs_parts(ps),
            _ => Seq::empty(),
        }
    }
}

/// The uploads a message sequence asks for, in order.
pub open spec fn media_reqs_msgs(ms: Seq<JsonV>) -> Seq<(MediaKind, Seq<u8>)>
    decreases ms.len(),
{
    if ms.len() == 0 {
        Seq::empty()
    } else {
        media_reqs_msg(ms[0]) + media_reqs_msgs(ms.skip(1))
    }
}

/// The outbound contents: every message but the system ones, with its role
/// mapped and its content transcoded, consuming uploads in order.
pub open spec fn contents_out(
    ms: Seq<JsonV>,
    ups: Seq<Option<(Seq<u8>, Seq<u8>)>>,
    k: int,
) -> (Seq<JsonV>, int)
    decreases ms.len(),
{
    if ms.len() == 0 {
        (Seq::empty(), k)
    } else if msg_role(ms[0]) == "system".spec_bytes() {
        contents_out(ms.skip(1), ups, k)
    } else {
        let mp = msg_parts(ms[0].get("content".spec_bytes()), ups, k);
        let obj = JsonV::Obj(
            seq![
                ("role".spec_bytes(), JsonV::Str(role_a_to_b(msg_role(ms[0])))),
                ("parts".spec_bytes(), JsonV::Arr(mp.0)),
            ],
        );
        let rest = contents_out(ms.skip(1), ups, mp.1);
        (seq![obj] + rest.0, rest.1)
    }
}

/// Messages move the upload cursor by exactly what they ask for.
pub proof fn lemma_contents_cursor(ms: Seq<JsonV>, ups: Seq<Option<(Seq<u8>, Seq<u8>)>>, k: int)
    ensures
        contents_out(ms, ups, k).1 == k + media_reqs_msgs(ms).len(),
    decreases ms.len(),
{
    if ms.len() > 0 {
        if msg_role(ms[0]) == "system".spec_bytes() {
            lemma_contents_cursor(ms.skip(1), ups, k);
        } else {
            let mp = msg_parts(ms[0].get("content".spec_bytes()), ups, k);
            match ms[0].get("content".spec_bytes()) {
                Option::Some(JsonV::Arr(ps)) => {
                    lemma_parts_cursor(ps, ups, k);
                },
                _ => {},
            }
            lemma_contents_cursor(ms.skip(1), ups, mp.1);
        }
    }
}

/// The inbound messages, or nothing when the request has no message array.
pub open spec fn messages_of(body: JsonV) -> Seq<JsonV> {
    match body.get("messages".spec_bytes()) {
        Option::Some(JsonV::Arr(ms)) => ms,
        _ => Seq::empty(),
    }
}

/// Every upload the request asks for, in the order the transcoder consumes
/// them.
pub open spec fn media_requests(body: JsonV) -> Seq<(MediaKind, Seq<u8>)> {
    media_reqs_msgs(messages_of(body))
}

/// The string elements of a stop-sequence array, in order; anything else is
/// dropped.
pub open spec fn only_strs(a: Seq<JsonV>) -> Seq<JsonV>
    decreases a.len(),
{
    if a.len() == 0 {
        Seq::empty()
    } else {
        (match a[0] {
            JsonV::Str(s) => seq![JsonV::Str(s)],
            _ => Seq::empty(),
        }) + only_strs(a.skip(1))
    }
}

/// The outbound stop sequences: a single string becomes a one-element
/// array; an array keeps its string elements; anything else is empty.
pub open spec fn stops_of(body: JsonV) -> Seq<JsonV> {
    match body.get("stop".spec_bytes()) {
        Option::Some(JsonV::Arr(a)) => only_strs(a),
        Option::Some(JsonV::Str(s)) => seq![JsonV::Str(s)],
        _ => Seq::empty(),
    }
}

/// A sampling field passed through when it is a number, and the documented
/// default otherwise.
pub open spec fn num_or(v: Option<JsonV>, d: Seq<u8>) -> JsonV {
    match v {
        Option::Some(JsonV::Num(t)) => JsonV::Num(t),
        _ => JsonV::Num(d),
    }
}

/// The outbound token limit: `max_tokens`, then its alias
/// `max_completion_tokens`, then the default.
pub open spec fn max_tokens_of(body: JsonV) -> JsonV {
    match body.get("max_tokens".spec_bytes()) {
        Option::Some(v) => num_or(Some(v), dec_of(8192)),
        Option::None => num_or(body.get("max_completion_tokens".spec_bytes()), dec_of(8192)),
    }
}

/// The generation configuration: stop sequences, candidate count, token
/// limit and the sampling fields with their documented defaults, and the
/// thinking budget when reasoning is enabled with a positive budget.
#[verifier::opaque]
pub open spec fn gen_config_entries(body: JsonV, enabled: bool, budget: Option<i64>) -> Seq<
    (Seq<u8>, JsonV),
> {
    seq![
        ("stopSequences".spec_bytes(), JsonV::Arr(stops_of(body))),
        ("candidateCount".spec_bytes(), num_or(body.get("n".spec_bytes()), dec_of(1))),
        ("maxOutputTokens".spec_bytes(), max_tokens_of(body)),
        (
            "temperature".spec_bytes(),
            num_or(body.get("temperature".spec_bytes()), "1.0".spec_bytes()),
        ),
        ("topP".spec_bytes(), num_or(body.get("top_p".spec_bytes()), "1.0".spec_bytes())),
        (
            "presencePenalty".spec_bytes(),
            num_or(body.get("presence_penalty".spec_bytes()), "0.0".spec_bytes()),
        ),
        (
            "frequencyPenalty".spec_bytes(),
            num_or(body.get("frequency_penalty".spec_bytes()), "0.0".spec_bytes()),
        ),
    ] + if enabled && (budget matches Some(b) && b > 0) {
        seq![
            (
                "thinkingBudget".spec_bytes(),
                JsonV::Num(
                    dec_of(
                        match budget {
                            Option::Some(b) => b as int,
                            Option::None => 0,
                        },
                    ),
                ),
            ),
        ]
    } else {
        Seq::empty()
    }
}

/// One safety setting at the most permissive threshold.
pub open spec fn safety_obj(cat: Seq<u8>) -> JsonV {
    JsonV::Obj(
        seq![
            ("category".spec_bytes(), JsonV::Str(cat)),
            ("threshold".spec_bytes(), JsonV::Str("BLOCK_NONE".spec_bytes())),
        ],
    )
}

/// The fixed safety settings: every category the upstream knows, each fully
/// permissive — the gateway deliberately does not enforce upstream content
/// filtering.
pub open spec fn safety_settings() -> Seq<JsonV> {
    seq![
        safety_obj("HARM_CATEGORY_HARASSMENT".spec_bytes()),
        safety_obj("HARM_CATEGORY_HATE_SPEECH".spec_bytes()),
        safety_obj("HARM_CATEGORY_SEXUALLY_EXPLICIT".spec_bytes()),
        safety_obj("HARM_CATEGORY_DANGEROUS_CONTENT".spec_bytes()),
        safety_obj("HARM_CATEGORY_CIVIC_INTEGRITY".spec_bytes()),
    ]
}

/// The first message whose role field is literally `system`, if any.
pub open spec fn first_system(ms: Seq<JsonV>) -> Option<JsonV>
    decreases ms.len(),
{
    if ms.len() == 0 {
        Option::None
    } else if msg_role_field(ms[0]) == Option::Some("system".spec_bytes()) {
        Option::Some(ms[0])
    } else {
        first_system(ms.skip(1))
    }
}

/// A message's role field when it is a string.
pub open spec fn msg_role_field(m: JsonV) -> Option<Seq<u8>> {
    match m.get("role".spec_bytes()) {
        Option::Some(JsonV::Str(r)) => Option::Some(r),
        _ => Option::None,
    }
}

/// The system instruction: the first system message's content, when that
/// content is a plain string.
#[verifier::opaque]
pub open spec fn system_instruction_entries(ms: Seq<JsonV>) -> Seq<(Seq<u8>, JsonV)> {
    match first_system(ms) {
        Option::Some(m) => match m.get("content".spec_bytes()) {
            Option::Some(JsonV::Str(s)) => seq![
                (
                    "systemInstruction".spec_bytes(),
                    JsonV::Obj(
                        seq![
                            ("parts".spec_bytes(), JsonV::Arr(seq![text_part(s)])),
                            ("role".spec_bytes(), JsonV::Str("system".spec_bytes())),
                        ],
                    ),
                ),
            ],
            _ => Seq::empty(),
        },
        Option::None => Seq::empty(),
    }
}

/// The whole outbound request: the transcoded contents, the fixed safety
/// settings, the generation configuration, and the system instruction when
/// there is one.
pub open spec fn transcoded_request(
    body: JsonV,
    ups: Seq<Option<(Seq<u8>, Seq<u8>)>>,
    enabled: bool,
    budget: Option<i64>,
) -> JsonV {
    JsonV::Obj(
        seq![
            (
                "contents".spec_bytes(),
                JsonV::Arr(contents_out(messages_of(body), ups, 0).0),
            ),
            ("safetySettings".spec_bytes(), JsonV::Arr(safety_settings())),
            ("generationConfig".spec_bytes(), JsonV::Obj(gen_config_entries(body, enabled, budget))),
        ] + system_instruction_entries(messages_of(body)),
    )
}

/// The view of an upload list.
pub open spec fn ups_view(v: Seq<Option<UploadedMediaRef>>) -> Seq<Option<(Seq<u8>, Seq<u8>)>> {
    Seq::new(
        v.len(),
        |i: int|
            match v[i] {
                Option::Some(u) => Option::Some((u.mime_type@, u.uri@)),
                Option::None => Option::None,
            },
    )
}

/// The view of a collected request list.
pub open spec fn reqs_view(v: Seq<MediaRequest>) -> Seq<(MediaKind, Seq<u8>)> {
    Seq::new(v.len(), |i: int| (v[i].kind, v[i].data_uri@))
}

/// An exec mirror of `part_action`.
enum PartActionE {
    Text(Vec<u8>),
    Media,
    Skip,
}

impl PartActionE {
    spec fn dv(self) -> PartAction {
        match self {
            PartActionE::Text(t) => PartAction::Text(t@),
            PartActionE::Media => PartAction::Media,
            PartActionE::Skip => PartAction::Skip,
        }
    }
}

/// Classifies one content part, as `part_action` describes.
fn classify_part(p: &Json) -> (r: PartActionE)
    ensures
        r.dv() == part_action(p.dv()),
{
    let t = match p.get("type".as_bytes()) {
        Some(Json::Str(t)) => t,
        _ => {
            return PartActionE::Skip;
        },
    };
    if bytes_eq(t.as_slice(), "text".as_bytes()) {
        match p.get("text".as_bytes()) {
            Some(Json::Str(x)) => PartActionE::Text(vstd::slice::slice_to_vec(x.as_slice())),
            _ => PartActionE::Skip,
        }
    } else if bytes_eq(t.as_slice(), "image_url".as_bytes()) {
        match p.get("image_url".as_bytes()) {
            Some(_) => PartActionE::Media,
            _ => PartActionE::Skip,
        }
    } else if bytes_eq(t.as_slice(), "input_audio".as_bytes()) {
        match p.get("input_audio".as_bytes()) {
            Some(_) => PartActionE::Media,
            _ => PartActionE::Skip,
        }
    } else {
        PartActionE::Skip
    }
}

/// Reads the upload one media part asks for, as `media_req_of` describes.
fn read_media_req(p: &Json) -> (r: MediaRequest)
    ensures
        (r.kind, r.data_uri@) == media_req_of(p.dv()),
{
    let t = match p.get("type".as_bytes()) {
        Some(Json::Str(t)) => t,
        _ => {
            return MediaRequest { kind: MediaKind::Image, data_uri: Vec::new() };
        },
    };
    if bytes_eq(t.as_slice(), "image_url".as_bytes()) {
        let uri = match p.get("image_url".as_bytes()) {
            Some(iu) => match iu.get("url".as_bytes()) {
                Some(Json::Str(u)) => vstd::slice::slice_to_vec(u.as_slice()),
                _ => Vec::new(),
            },
            _ => Vec::new(),
        };
        MediaRequest { kind: MediaKind::Image, data_uri: uri }
    } else {
        let uri = match p.get("input_audio".as_bytes()) {
            Some(a) => match a.get("data".as_bytes()) {
                Some(Json::Str(d)) => vstd::slice::slice_to_vec(d.as_slice()),
                _ => Vec::new(),
            },
            _ => Vec::new(),
        };
        MediaRequest { kind: MediaKind::Audio, data_uri: uri }
    }
}

/// Builds one text part.
fn build_text_part(t: Vec<u8>) -> (r: Json)
    ensures
        r.dv() == text_part(t@),
{
    let ghost tv = t@;
    let mut entries: Vec<(Vec<u8>, Json)> = Vec::new();
    entries.push((bytes_of("text"), Json::Str(t)));
    let r = Json::Obj(entries);
    proof {
        lemma_dv_entries(entries@);
        assert(Json::dv_entries(entries@) =~= seq![("text".spec_bytes(), JsonV::Str(tv))]);
    }
    r
}

/// Builds one file-reference part.
fn build_file_part(u: &UploadedMediaRef) -> (r: Json)
    ensures
        r.dv() == file_part(u.mime_type@, u.uri@),
{
    let mut inner: Vec<(Vec<u8>, Json)> = Vec::new();
    inner.push((bytes_of("mime_type"), Json::Str(vstd::slice::slice_to_vec(
        u.mime_type.as_slice(),
    ))));
    inner.push((bytes_of("file_uri"), Json::Str(vstd::slice::slice_to_vec(u.uri.as_slice()))));
    let ghost iv = inner@;
    let inner_obj = Json::Obj(inner);
    let ghost inner_v = inner_obj.dv();
    let mut outer: Vec<(Vec<u8>, Json)> = Vec::new();
    outer.push((bytes_of("file_data"), inner_obj));
    let r = Json::Obj(outer);
    proof {
        lemma_dv_entries(outer@);
        lemma_dv_entries(iv);
        assert(Json::dv_entries(iv) =~= seq![
            ("mime_type".spec_bytes(), JsonV::Str(u.mime_type@)),
            ("file_uri".spec_bytes(), JsonV::Str(u.uri@)),
        ]);
        assert(Json::dv_entries(outer@) =~= seq![("file_data".spec_bytes(), inner_v)]);
    }
    r
}

/// Transcodes the parts of one content array, as `parts_out` describes.
#[verifier::rlimit(30)]
fn build_parts(ps: &Vec<Json>, uploads: &Vec<Option<UploadedMediaRef>>, k0: usize) -> (r: (
    Vec<Json>,
    usize,
))
    requires
        k0 + media_reqs_parts(Json::dv_seq(ps@)).len() <= uploads@.len(),
    ensures
        ({
            let sp = parts_out(Json::dv_seq(ps@), ups_view(uploads@), k0 as int);
            Json::dv_seq(r.0@) == sp.0 && r.1 as int == sp.1
        }),
{
    let ghost spec_ps = Json::dv_seq(ps@);
    let ghost ups = ups_view(uploads@);
    proof {
        lemma_dv_seq(ps@);
        assert(spec_ps.skip(0) =~= spec_ps);
    }
    let ghost full = parts_out(spec_ps, ups, k0 as int);
    let mut out: Vec<Json> = Vec::new();
    let mut k: usize = k0;
    let mut i: usize = 0;
    while i < ps.len()
        invariant
            0 <= i <= ps@.len(),
            spec_ps == Json::dv_seq(ps@),
            ups == ups_view(uploads@),
            spec_ps.len() == ps@.len(),
            forall|j: int| 0 <= j < ps@.len() ==> spec_ps[j] == ps@[j].dv(),
            full == parts_out(spec_ps, ups, k0 as int),
            k as int + media_reqs_parts(spec_ps.skip(i as int)).len() <= uploads@.len(),
            ({
                let rest = parts_out(spec_ps.skip(i as int), ups, k as int);
                full == (Json::dv_seq(out@) + rest.0, rest.1)
            }),
        decreases ps@.len() - i,
    {
        let ghost s = spec_ps.skip(i as int);
        proof {
            assert(s[0] == spec_ps[i as int]);
            assert(s.skip(1) =~= spec_ps.skip(i as int + 1));
        }
        match classify_part(&ps[i]) {
            PartActionE::Text(x) => {
                let ghost pre = out@;
                let part = build_text_part(x);
                out.push(part);
                proof {
                    lemma_dv_seq(out@);
                    lemma_dv_seq(pre);
                    assert(Json::dv_seq(out@) =~= Json::dv_seq(pre) + seq![part.dv()]);
                }
            },
            PartActionE::Media => {
                proof {
                    assert(media_reqs_parts(s) =~= seq![media_req_of(s[0])] + media_reqs_parts(
                        s.skip(1),
                    ));
                    assert(k < uploads@.len());
                    vstd::std_specs::vec::axiom_spec_len(uploads);
                }
                match &uploads[k] {
                    Some(u) => {
                        let ghost pre = out@;
                        let part = build_file_part(u);
                        out.push(part);
                        proof {
                            lemma_dv_seq(out@);
                            lemma_dv_seq(pre);
                            assert(Json::dv_seq(out@) =~= Json::dv_seq(pre) + seq![part.dv()]);
                            assert(ups[k as int] == Some((u.mime_type@, u.uri@)));
                        }
                    },
                    None => {
                        proof {
                            assert(ups[k as int] is None);
                            assert(Json::dv_seq(out@) + Seq::<JsonV>::empty() =~= Json::dv_seq(
                                out@,
                            ));
                        }
                    },
                }
                k = k + 1;
            },
            PartActionE::Skip => {
                proof {
                    assert(Json::dv_seq(out@) + Seq::<JsonV>::empty() =~= Json::dv_seq(out@));
                }
            },
        }
        i += 1;
    }
    proof {
        assert(spec_ps.skip(i as int).len() == 0);
        assert(Json::dv_seq(out@) + Seq::<JsonV>::empty() =~= Json::dv_seq(out@));
    }
    (out, k)
}

/// Transcodes the messages into outbound contents, as `contents_out`
/// describes.
#[verifier::rlimit(30)]
fn build_contents(ms: &Vec<Json>, uploads: &Vec<Option<UploadedMediaRef>>) -> (r: Vec<Json>)
    requires
        media_reqs_msgs(Json::dv_seq(ms@)).len() <= uploads@.len(),
    ensures
        Json::dv_seq(r@) == contents_out(Json::dv_seq(ms@), ups_view(uploads@), 0).0,
{
    let ghost spec_ms = Json::dv_seq(ms@);
    let ghost ups = ups_view(uploads@);
    proof {
        lemma_dv_seq(ms@);
        assert(spec_ms.skip(0) =~= spec_ms);
    }
    let ghost full = contents_out(spec_ms, ups, 0);
    let mut out: Vec<Json> = Vec::new();
    let mut k: usize = 0;
    let mut i: usize = 0;
    while i < ms.len()
        invariant
            0 <= i <= ms@.len(),
            spec_ms == Json::dv_seq(ms@),
            ups == ups_view(uploads@),
            spec_ms.len() == ms@.len(),
            forall|j: int| 0 <= j < ms@.len() ==> spec_ms[j] == ms@[j].dv(),
            full == contents_out(spec_ms, ups, 0),
            k as int + media_reqs_msgs(spec_ms.skip(i as int)).len() <= uploads@.len(),
            ({
                let rest = contents_out(spec_ms.skip(i as int), ups, k as int);
                full.0 == Json::dv_seq(out@) + rest.0
            }),
        decreases ms@.len() - i,
    {
        let ghost s = spec_ms.skip(i as int);
        proof {
            assert(s[0] == spec_ms[i as int]);
            assert(s.skip(1) =~= spec_ms.skip(i as int + 1));
            assert(media_reqs_msgs(s) =~= media_reqs_msg(s[0]) + media_reqs_msgs(s.skip(1)));
        }
        let m = &ms[i];
        let role = match m.get("role".as_bytes()) {
            Some(Json::Str(r)) => vstd::slice::slice_to_vec(r.as_slice()),
            _ => bytes_of("user"),
        };
        proof {
            assert(role@ == msg_role(s[0]));
        }
        if bytes_eq(role.as_slice(), "system".as_bytes()) {
            proof {
                assert(media_reqs_msg(s[0]) =~= Seq::<(MediaKind, Seq<u8>)>::empty());
            }
            i += 1;
            continue;
        }
        let ghost k_before = k as int;
        let (parts, k2) = match m.get("content".as_bytes()) {
            Some(Json::Str(t)) => {
                let mut one: Vec<Json> = Vec::new();
                one.push(build_text_part(vstd::slice::slice_to_vec(t.as_slice())));
                proof {
                    lemma_dv_seq(one@);
                    assert(Json::dv_seq(one@) =~= seq![text_part(t@)]);
                    assert(media_reqs_msg(s[0]) =~= Seq::<(MediaKind, Seq<u8>)>::empty());
                }
                (one, k)
            },
            Some(Json::Arr(ps)) => {
                proof {
                    assert(msg_role(s[0]) != "system".spec_bytes());
                    assert(media_reqs_msg(s[0]) == media_reqs_parts(Json::dv_seq(ps@)));
                    lemma_parts_cursor(Json::dv_seq(ps@), ups, k as int);
                }
                build_parts(ps, uploads, k)
            },
            _ => {
                let empty: Vec<Json> = Vec::new();
                proof {
                    assert(Json::dv_seq(empty@) =~= Seq::<JsonV>::empty());
                    assert(media_reqs_msg(s[0]) =~= Seq::<(MediaKind, Seq<u8>)>::empty());
                }
                (empty, k)
            },
        };
        k = k2;
        let ghost mp = msg_parts(s[0].get("content".spec_bytes()), ups, k_before);
        proof {
            assert(Json::dv_seq(parts@) == mp.0 && k as int == mp.1);
        }
        let mut entries: Vec<(Vec<u8>, Json)> = Vec::new();
        entries.push((bytes_of("role"), Json::Str(map_role_a_to_b(role.as_slice()))));
        let ghost parts_v = Json::dv_seq(parts@);
        entries.push((bytes_of("parts"), Json::Arr(parts)));
        let obj = Json::Obj(entries);
        let ghost pre = out@;
        out.push(obj);
        proof {
            lemma_dv_entries(entries@);
            assert(Json::dv_entries(entries@) =~= seq![
                ("role".spec_bytes(), JsonV::Str(role_a_to_b(msg_role(s[0])))),
                ("parts".spec_bytes(), JsonV::Arr(parts_v)),
            ]);
            lemma_dv_seq(out@);
            lemma_dv_seq(pre);
            assert(Json::dv_seq(out@) =~= Json::dv_seq(pre) + seq![obj.dv()]);
        }
        i += 1;
    }
    proof {
        assert(spec_ms.skip(i as int).len() == 0);
        assert(Json::dv_seq(out@) + Seq::<JsonV>::empty() =~= Json::dv_seq(out@));
    }
    out
}

/// Walks the request and lists every upload it asks for, in the order the
/// transcoder will consume them.
#[verifier::rlimit(30)]
pub fn collect_media_requests(body: &Json) -> (r: Vec<MediaRequest>)
    ensures
        reqs_view(r@) == media_requests(body.dv()),
{
    let mut out: Vec<MediaRequest> = Vec::new();
    let ms = match body.get("messages".as_bytes()) {
        Some(Json::Arr(ms)) => ms,
        _ => {
            proof {
                assert(messages_of(body.dv()) =~= Seq::<JsonV>::empty());
                assert(reqs_view(out@) =~= media_reqs_msgs(Seq::<JsonV>::empty()));
            }
            return out;
        },
    };
    let ghost spec_ms = Json::dv_seq(ms@);
    proof {
        lemma_dv_seq(ms@);
        assert(spec_ms.skip(0) =~= spec_ms);
    }
    let mut i: usize = 0;
    while i < ms.len()
        invariant
            0 <= i <= ms@.len(),
            spec_ms == Json::dv_seq(ms@),
            spec_ms.len() == ms@.len(),
            forall|j: int| 0 <= j < ms@.len() ==> spec_ms[j] == ms@[j].dv(),
            media_reqs_msgs(spec_ms) =~= reqs_view(out@) + media_reqs_msgs(
                spec_ms.skip(i as int),
            ),
        decreases ms@.len() - i,
    {
        let ghost s = spec_ms.skip(i as int);
        proof {
            assert(s[0] == spec_ms[i as int]);
            assert(s.skip(1) =~= spec_ms.skip(i as int + 1));
            assert(media_reqs_msgs(s) =~= media_reqs_msg(s[0]) + media_reqs_msgs(s.skip(1)));
        }
        let m = &ms[i];
        let role = match m.get("role".as_bytes()) {
            Some(Json::Str(r)) => vstd::slice::slice_to_vec(r.as_slice()),
            _ => bytes_of("user"),
        };
        proof {
            assert(role@ == msg_role(s[0]));
        }
        if bytes_eq(role.as_slice(), "system".as_bytes()) {
            proof {
                assert(reqs_view(out@) + Seq::<(MediaKind, Seq<u8>)>::empty() =~= reqs_view(
                    out@,
                ));
            }
            i += 1;
            continue;
        }
        match m.get("content".as_bytes()) {
            Some(Json::Arr(ps)) => {
                let ghost spec_ps = Json::dv_seq(ps@);
                proof {
                    lemma_dv_seq(ps@);
                    assert(spec_ps.skip(0) =~= spec_ps);
                }
                let ghost out_at_msg = reqs_view(out@);
                let mut pi: usize = 0;
                while pi < ps.len()
                    invariant
                        0 <= pi <= ps@.len(),
                        spec_ps == Json::dv_seq(ps@),
                        spec_ps.len() == ps@.len(),
                        forall|j: int| 0 <= j < ps@.len() ==> spec_ps[j] == ps@[j].dv(),
                        out_at_msg + media_reqs_parts(spec_ps) =~= reqs_view(out@)
                            + media_reqs_parts(spec_ps.skip(pi as int)),
                    decreases ps@.len() - pi,
                {
                    let ghost sp = spec_ps.skip(pi as int);
                    proof {
                        assert(sp[0] == spec_ps[pi as int]);
                        assert(sp.skip(1) =~= spec_ps.skip(pi as int + 1));
                        assert(media_reqs_parts(sp) =~= (match part_action(sp[0]) {
                            PartAction::Media => seq![media_req_of(sp[0])],
                            _ => Seq::empty(),
                        }) + media_reqs_parts(sp.skip(1)));
                    }
                    match classify_part(&ps[pi]) {
                        PartActionE::Media => {
                            let ghost pre = out@;
                            let req = read_media_req(&ps[pi]);
                            out.push(req);
                            proof {
                                assert(reqs_view(out@) =~= reqs_view(pre) + seq![
                                    media_req_of(sp[0]),
                                ]);
                            }
                        },
                        _ => {
                            proof {
                                assert(reqs_view(out@) + Seq::<(
                                    MediaKind,
                                    Seq<u8>,
                                )>::empty() =~= reqs_view(out@));
                            }
                        },
                    }
                    pi += 1;
                }
                proof {
                    assert(media_reqs_parts(spec_ps.skip(pi as int)) =~= Seq::<(
                        MediaKind,
                        Seq<u8>,
                    )>::empty());
                }
            },
            _ => {
                proof {
                    assert(media_reqs_msg(s[0]) =~= Seq::<(MediaKind, Seq<u8>)>::empty());
                }
            },
        }
        i += 1;
    }
    proof {
        assert(media_reqs_msgs(spec_ms.skip(i as int)) =~= Seq::<(MediaKind, Seq<u8>)>::empty());
        assert(reqs_view(out@) =~= media_reqs_msgs(spec_ms));
        assert(messages_of(body.dv()) == spec_ms);
    }
    out
}

/// A sampling field passed through when it is a number, as `num_or`
/// describes.
fn num_field(v: Option<&Json>, d: Vec<u8>) -> (r: Json)
    ensures
        r.dv() == num_or(
            match v {
                Some(j) => Some(j.dv()),
                None => None,
            },
            d@,
        ),
{
    match v {
        Some(Json::Num(t)) => Json::Num(vstd::slice::slice_to_vec(t.as_slice())),
        _ => Json::Num(d),
    }
}

/// Builds the generation configuration, as `gen_config_entries` describes.
#[verifier::rlimit(30)]
fn build_gen_config(body: &Json, thinking: &ThinkingConfig) -> (r: Json)
    ensures
        r.dv() == JsonV::Obj(gen_config_entries(body.dv(), thinking.enabled, thinking.budget)),
{
    proof {
        reveal(gen_config_entries);
    }
    let mut stops: Vec<Json> = Vec::new();
    match body.get("stop".as_bytes()) {
        Some(Json::Arr(a)) => {
            let ghost spec_a = Json::dv_seq(a@);
            proof {
                lemma_dv_seq(a@);
                assert(spec_a.skip(0) =~= spec_a);
            }
            let mut i: usize = 0;
            while i < a.len()
                invariant
                    0 <= i <= a@.len(),
                    spec_a == Json::dv_seq(a@),
                    spec_a.len() == a@.len(),
                    forall|j: int| 0 <= j < a@.len() ==> spec_a[j] == a@[j].dv(),
                    only_strs(spec_a) =~= Json::dv_seq(stops@) + only_strs(
                        spec_a.skip(i as int),
                    ),
                decreases a@.len() - i,
            {
                let ghost s = spec_a.skip(i as int);
                proof {
                    assert(s[0] == spec_a[i as int]);
                    assert(s.skip(1) =~= spec_a.skip(i as int + 1));
                }
                match &a[i] {
                    Json::Str(t) => {
                        let ghost pre = stops@;
                        stops.push(Json::Str(vstd::slice::slice_to_vec(t.as_slice())));
                        proof {
                            lemma_dv_seq(stops@);
                            lemma_dv_seq(pre);
                            assert(Json::dv_seq(stops@) =~= Json::dv_seq(pre) + seq![
                                JsonV::Str(t@),
                            ]);
                        }
                    },
                    _ => {
                        proof {
                            assert(Json::dv_seq(stops@) + Seq::<JsonV>::empty() =~= Json::dv_seq(
                                stops@,
                            ));
                        }
                    },
                }
                i += 1;
            }
            proof {
                assert(only_strs(spec_a.skip(i as int)) =~= Seq::<JsonV>::empty());
                assert(Json::dv_seq(stops@) =~= only_strs(spec_a));
            }
        },
        Some(Json::Str(t)) => {
            stops.push(Json::Str(vstd::slice::slice_to_vec(t.as_slice())));
            proof {
                lemma_dv_seq(stops@);
                assert(Json::dv_seq(stops@) =~= seq![JsonV::Str(t@)]);
            }
        },
        _ => {
            proof {
                assert(Json::dv_seq(stops@) =~= Seq::<JsonV>::empty());
            }
        },
    }
    proof {
        assert(Json::dv_seq(stops@) == stops_of(body.dv()));
    }
    let max_tokens = match body.get("max_tokens".as_bytes()) {
        Some(v) => num_field(Some(v), u64_to_dec(8192)),
        None => num_field(body.get("max_completion_tokens".as_bytes()), u64_to_dec(8192)),
    };
    let mut entries: Vec<(Vec<u8>, Json)> = Vec::new();
    let ghost stops_v = Json::dv_seq(stops@);
    entries.push((bytes_of("stopSequences"), Json::Arr(stops)));
    entries.push((bytes_of("candidateCount"), num_field(body.get("n".as_bytes()), u64_to_dec(1))));
    entries.push((bytes_of("maxOutputTokens"), max_tokens));
    entries.push((bytes_of("temperature"), num_field(
        body.get("temperature".as_bytes()),
        bytes_of("1.0"),
    )));
    entries.push((bytes_of("topP"), num_field(body.get("top_p".as_bytes()), bytes_of("1.0"))));
    entries.push((bytes_of("presencePenalty"), num_field(
        body.get("presence_penalty".as_bytes()),
        bytes_of("0.0"),
    )));
    entries.push((bytes_of("frequencyPenalty"), num_field(
        body.get("frequency_penalty".as_bytes()),
        bytes_of("0.0"),
    )));
    if thinking.enabled {
        match thinking.budget {
            Some(b) => {
                if b > 0 {
                    entries.push((bytes_of("thinkingBudget"), Json::Num(u64_to_dec(b as u64))));
                }
            },
            None => {},
        }
    }
    let r = Json::Obj(entries);
    proof {
        lemma_dv_entries(entries@);
        assert(Json::dv_entries(entries@) =~= gen_config_entries(
            body.dv(),
            thinking.enabled,
            thinking.budget,
        ));
    }
    r
}

/// Builds the fixed safety settings, as `safety_settings` describes.
fn build_safety() -> (r: Json)
    ensures
        r.dv() == JsonV::Arr(safety_settings()),
{
    let mut out: Vec<Json> = Vec::new();
    out.push(safety_one("HARM_CATEGORY_HARASSMENT"));
    out.push(safety_one("HARM_CATEGORY_HATE_SPEECH"));
    out.push(safety_one("HARM_CATEGORY_SEXUALLY_EXPLICIT"));
    out.push(safety_one("HARM_CATEGORY_DANGEROUS_CONTENT"));
    out.push(safety_one("HARM_CATEGORY_CIVIC_INTEGRITY"));
    let ghost ov = out@;
    let r = Json::Arr(out);
    proof {
        lemma_dv_seq(ov);
        assert(Json::dv_seq(ov) =~= safety_settings());
    }
    r
}

/// Builds one safety setting.
fn safety_one(cat: &str) -> (r: Json)
    ensures
        r.dv() == safety_obj(cat.spec_bytes()),
{
    let mut entries: Vec<(Vec<u8>, Json)> = Vec::new();
    entries.push((bytes_of("category"), Json::Str(bytes_of(cat))));
    entries.push((bytes_of("threshold"), Json::Str(bytes_of("BLOCK_NONE"))));
    let r = Json::Obj(entries);
    proof {
        lemma_dv_entries(entries@);
        assert(Json::dv_entries(entries@) =~= seq![
            ("category".spec_bytes(), JsonV::Str(cat.spec_bytes())),
            ("threshold".spec_bytes(), JsonV::Str("BLOCK_NONE".spec_bytes())),
        ]);
    }
    r
}

/// Finds the first message whose role is literally `system`, as
/// `first_system` describes.
fn find_first_system(ms: &Vec<Json>) -> (r: Option<usize>)
    ensures
        match r {
            Some(i) => i < ms@.len() && first_system(Json::dv_seq(ms@)) == Some(
                Json::dv_seq(ms@)[i as int],
            ),
            None => first_system(Json::dv_seq(ms@)) is None,
        },
{
    let ghost spec_ms = Json::dv_seq(ms@);
    proof {
        lemma_dv_seq(ms@);
        assert(spec_ms.skip(0) =~= spec_ms);
    }
    let mut i: usize = 0;
    while i < ms.len()
        invariant
            0 <= i <= ms@.len(),
            spec_ms == Json::dv_seq(ms@),
            spec_ms.len() == ms@.len(),
            forall|j: int| 0 <= j < ms@.len() ==> spec_ms[j] == ms@[j].dv(),
            first_system(spec_ms) == first_system(spec_ms.skip(i as int)),
        decreases ms@.len() - i,
    {
        proof {
            assert(spec_ms.skip(i as int)[0] == spec_ms[i as int]);
            assert(spec_ms.skip(i as int).skip(1) =~= spec_ms.skip(i as int + 1));
        }
        let is_sys = match ms[i].get("role".as_bytes()) {
            Some(Json::Str(r)) => bytes_eq(r.as_slice(), "system".as_bytes()),
            _ => false,
        };
        if is_sys {
            proof {
                assert(msg_role_field(spec_ms[i as int]) == Some("system".spec_bytes()));
                assert(first_system(spec_ms.skip(i as int)) == Some(spec_ms[i as int]));
            }
            return Some(i);
        }
        proof {
            assert(msg_role_field(spec_ms[i as int]) != Some("system".spec_bytes()));
        }
        i += 1;
    }
    proof {
        assert(spec_ms.skip(i as int).len() == 0);
    }
    None
}

/// Builds the system instruction entry, when the request has a system
/// message whose content is a plain string.
#[verifier::rlimit(50)]
fn build_system_instruction(body: &Json) -> (r: Option<Json>)
    ensures
        match r {
            Some(j) => system_instruction_entries(messages_of(body.dv())) == seq![
                ("systemInstruction".spec_bytes(), j.dv()),
            ],
            None => system_instruction_entries(messages_of(body.dv())) == Seq::<
                (Seq<u8>, JsonV),
            >::empty(),
        },
{
    proof {
        reveal(system_instruction_entries);
    }
    let ms = match body.get("messages".as_bytes()) {
        Some(Json::Arr(ms)) => ms,
        _ => {
            proof {
                assert(messages_of(body.dv()) =~= Seq::<JsonV>::empty());
                assert(system_instruction_entries(messages_of(body.dv())) =~= Seq::<
                    (Seq<u8>, JsonV),
                >::empty());
            }
            return None;
        },
    };
    proof {
        lemma_dv_seq(ms@);
    }
    let si_idx = match find_first_system(ms) {
        Some(i) => i,
        None => {
            proof {
                assert(system_instruction_entries(messages_of(body.dv())) =~= Seq::<
                    (Seq<u8>, JsonV),
                >::empty());
            }
            return None;
        },
    };
    let m = &ms[si_idx];
    match m.get("content".as_bytes()) {
        Some(Json::Str(st)) => {
            let mut tp: Vec<Json> = Vec::new();
            tp.push(build_text_part(vstd::slice::slice_to_vec(st.as_slice())));
            proof {
                lemma_dv_seq(tp@);
                assert(Json::dv_seq(tp@) =~= seq![text_part(st@)]);
            }
            let mut si: Vec<(Vec<u8>, Json)> = Vec::new();
            let ghost tp_v = Json::dv_seq(tp@);
            si.push((bytes_of("parts"), Json::Arr(tp)));
            si.push((bytes_of("role"), Json::Str(bytes_of("system"))));
            let ghost si_v = si@;
            let si_obj = Json::Obj(si);
            proof {
                lemma_dv_entries(si_v);
                assert(Json::dv_entries(si_v) =~= seq![
                    ("parts".spec_bytes(), JsonV::Arr(tp_v)),
                    ("role".spec_bytes(), JsonV::Str("system".spec_bytes())),
                ]);
                assert(system_instruction_entries(messages_of(body.dv())) =~= seq![
                    ("systemInstruction".spec_bytes(), si_obj.dv()),
                ]);
            }
            Some(si_obj)
        },
        _ => {
            proof {
                assert(system_instruction_entries(messages_of(body.dv())) =~= Seq::<
                    (Seq<u8>, JsonV),
                >::empty());
            }
            None
        },
    }
}

/// Converts one inbound request to the outbound shape.  `uploads` holds the
/// outcome of externalizing each media part the request asks for — as
/// `collect_media_requests` lists them and in that order, one entry per
/// request, a failed upload as `None` — and `thinking` is the resolved
/// reasoning configuration.
#[verifier::rlimit(100)]
#[verifier::spinoff_prover]
pub fn transform_openai_to_google(
    body: &Json,
    uploads: &Vec<Option<UploadedMediaRef>>,
    thinking: &ThinkingConfig,
) -> (r: Json)
    requires
        media_requests(body.dv()).len() <= uploads@.len(),
    ensures
        r.dv() == transcoded_request(
            body.dv(),
            ups_view(uploads@),
            thinking.enabled,
            thinking.budget,
        ),
{
    let empty_ms: Vec<Json> = Vec::new();
    let contents = match body.get("messages".as_bytes()) {
        Some(Json::Arr(ms)) => build_contents(ms, uploads),
        _ => {
            proof {
                assert(messages_of(body.dv()) =~= Seq::<JsonV>::empty());
                assert(Json::dv_seq(empty_ms@) =~= Seq::<JsonV>::empty());
            }
            build_contents(&empty_ms, uploads)
        },
    };
    let ghost contents_v = Json::dv_seq(contents@);
    proof {
        lemma_dv_seq(contents@);
    }
    let mut entries: Vec<(Vec<u8>, Json)> = Vec::new();
    entries.push((bytes_of("contents"), Json::Arr(contents)));
    entries.push((bytes_of("safetySettings"), build_safety()));
    entries.push((bytes_of("generationConfig"), build_gen_config(body, thinking)));
    match build_system_instruction(body) {
        Some(si_obj) => {
            entries.push((bytes_of("systemInstruction"), si_obj));
        },
        None => {},
    }
    let r = Json::Obj(entries);
    proof {
        lemma_dv_entries(entries@);
        assert(Json::dv_entries(entries@) =~= seq![
            ("contents".spec_bytes(), JsonV::Arr(contents_v)),
            ("safetySettings".spec_bytes(), JsonV::Arr(safety_settings())),
            (
                "generationConfig".spec_bytes(),
                JsonV::Obj(
                    gen_config_entries(body.dv(), thinking.enabled, thinking.budget),
                ),
            ),
        ] + system_instruction_entries(messages_of(body.dv())));
    }
    r
}

} // verus!
