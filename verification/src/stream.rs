use vstd::prelude::*;
use vstd::string::StringSliceAdditionalSpecFns;
use crate::json::{parse_json, dump_json, parsed_json, json_text};
use crate::text::{push_all, trim_ascii, trim_spec, bytes_eq, starts_with, find_sub, matches_at};
use crate::response::{transcoded_response, transform_google_to_openai};

verus! {

/// The newline byte.
pub open spec fn nl() -> u8 {
    "\n".spec_bytes()[0]
}

/// The blank-line delimiter between incremental events.
pub open spec fn delim() -> Seq<u8> {
    "\n\n".spec_bytes()
}

/// The payload prefix of an incremental event.
pub open spec fn data_prefix() -> Seq<u8> {
    "data: ".spec_bytes()
}

/// The terminal sentinel, as a trimmed event line and as the event that is
/// re-emitted verbatim.
pub open spec fn sentinel_line() -> Seq<u8> {
    "data: [DONE]".spec_bytes()
}

pub open spec fn sentinel_event() -> Seq<u8> {
    "data: [DONE]\n\n".spec_bytes()
}

/// The first complete event of `t`: the bytes before the first blank line,
/// and what follows that blank line; nothing when `t` holds no blank line.
pub open spec fn split_event(t: Seq<u8>) -> Option<(Seq<u8>, Seq<u8>)>
    decreases t.len(),
{
    if t.len() < 2 {
        Option::None
    } else if t[0] == nl() && t[1] == nl() {
        Option::Some((Seq::empty(), t.skip(2)))
    } else {
        match split_event(t.skip(1)) {
            Option::Some(fr) => Option::Some((seq![t[0]] + fr.0, fr.1)),
            Option::None => Option::None,
        }
    }
}

/// A split consumes the frame and the delimiter.
pub proof fn lemma_split_event_len(t: Seq<u8>)
    ensures
        match split_event(t) {
            Option::Some(fr) => fr.0.len() + 2 + fr.1.len() == t.len(),
            Option::None => true,
        },
    decreases t.len(),
{
    if t.len() >= 2 && !(t[0] == nl() && t[1] == nl()) {
        lemma_split_event_len(t.skip(1));
    }
}

/// All complete events of `t`, in order, and the partial trailing fragment
/// after the last blank line.
pub open spec fn frames_of(t: Seq<u8>) -> (Seq<Seq<u8>>, Seq<u8>)
    decreases t.len(),
    when split_event_decreases(t)
{
    match split_event(t) {
        Option::Some(fr) => {
            let rest = frames_of(fr.1);
            (seq![fr.0] + rest.0, rest.1)
        },
        Option::None => (Seq::empty(), t),
    }
}

/// The recursion of `frames_of` terminates: what follows a split is shorter.
pub open spec fn split_event_decreases(t: Seq<u8>) -> bool {
    match split_event(t) {
        Option::Some(fr) => fr.1.len() < t.len(),
        Option::None => true,
    }
}

/// `split_event_decreases` always holds.
pub broadcast proof fn lemma_frames_of_wf(t: Seq<u8>)
    ensures
        #[trigger] split_event_decreases(t),
{
    lemma_split_event_len(t);
}

/// What one event fragment contributes, given the carried state: once the
/// stream is done nothing more is emitted; the sentinel is re-emitted
/// verbatim and ends the stream; a fragment with the payload prefix is
/// parsed and transcoded, and an unparseable one is skipped; any other
/// fragment is skipped.
#[verifier::opaque]
pub open spec fn frame_step(
    f: Seq<u8>,
    id: Seq<u8>,
    suppress: bool,
    markdown: bool,
    prev: bool,
    done: bool,
) -> (Seq<u8>, bool, bool) {
    if done {
        (Seq::empty(), prev, true)
    } else if trim_spec(f) == sentinel_line() {
        (sentinel_event(), prev, true)
    } else if data_prefix().is_prefix_of(f) {
        match parsed_json(f.skip(data_prefix().len() as int)) {
            Option::Some(doc) => match transcoded_response(doc, id, true, suppress, markdown, prev) {
                (Option::Some(env), p2) => (data_prefix() + json_text(env) + delim(), p2, false),
                (Option::None, p2) => (Seq::empty(), p2, false),
            },
            Option::None => (Seq::empty(), prev, false),
        }
    } else {
        (Seq::empty(), prev, false)
    }
}

/// What a run of event fragments emits, threading the carried state.
pub open spec fn run_frames(
    frames: Seq<Seq<u8>>,
    id: Seq<u8>,
    suppress: bool,
    markdown: bool,
    prev: bool,
    done: bool,
) -> (Seq<u8>, bool, bool)
    decreases frames.len(),
{
    if frames.len() == 0 {
        (Seq::empty(), prev, done)
    } else {
        let head = frame_step(frames[0], id, suppress, markdown, prev, done);
        let rest = run_frames(frames.skip(1), id, suppress, markdown, head.1, head.2);
        (head.0 + rest.0, rest.1, rest.2)
    }
}

/// What one arriving chunk yields: the buffered partial fragment and the
/// chunk together are cut into complete events, each is transformed in
/// turn, and the trailing partial fragment is buffered for the next chunk.
/// The results are the emitted bytes, the new buffer, and the new carry and
/// termination flags.
pub open spec fn chunk_step(
    buffer: Seq<u8>,
    chunk: Seq<u8>,
    id: Seq<u8>,
    suppress: bool,
    markdown: bool,
    prev: bool,
    done: bool,
) -> (Seq<u8>, Seq<u8>, bool, bool) {
    let u = buffer + chunk;
    let fr = frames_of(u);
    let run = run_frames(fr.0, id, suppress, markdown, prev, done);
    (run.0, fr.1, run.1, run.2)
}

/// Appending bytes does not disturb an existing first event.
proof fn lemma_split_event_concat(t: Seq<u8>, v: Seq<u8>)
    requires
        split_event(t) is Some,
    ensures
        split_event(t + v) == Some(
            (split_event(t)->Some_0.0, split_event(t)->Some_0.1 + v),
        ),
    decreases t.len(),
{
    let u = t + v;
    assert(u.len() >= 2);
    assert(u[0] == t[0] && u[1] == t[1]);
    if t[0] == nl() && t[1] == nl() {
        assert(u.skip(2) =~= t.skip(2) + v);
    } else {
        lemma_split_event_concat(t.skip(1), v);
        assert(u.skip(1) =~= t.skip(1) + v);
        assert(seq![u[0]] + (split_event(t.skip(1))->Some_0.0) =~= seq![t[0]] + (split_event(
            t.skip(1),
        )->Some_0.0));
    }
}

/// The complete events of `t ++ v` are the complete events of `t` followed
/// by those of `t`'s remainder joined with `v`, and the remainders agree.
proof fn lemma_frames_concat(t: Seq<u8>, v: Seq<u8>)
    ensures
        frames_of(t + v).0 == frames_of(t).0 + frames_of(frames_of(t).1 + v).0,
        frames_of(t + v).1 == frames_of(frames_of(t).1 + v).1,
    decreases t.len(),
{
    broadcast use lemma_frames_of_wf;

    match split_event(t) {
        Option::None => {
            assert(frames_of(t) == (Seq::<Seq<u8>>::empty(), t));
            assert(Seq::<Seq<u8>>::empty() + frames_of(t + v).0 =~= frames_of(t + v).0);
        },
        Option::Some(fr) => {
            lemma_split_event_len(t);
            lemma_split_event_concat(t, v);
            lemma_frames_concat(fr.1, v);
            assert(frames_of(t + v).0 =~= seq![fr.0] + frames_of(fr.1 + v).0);
            assert(frames_of(t).0 == seq![fr.0] + frames_of(fr.1).0);
            assert(frames_of(t).1 == frames_of(fr.1).1);
            assert(seq![fr.0] + (frames_of(fr.1).0 + frames_of(frames_of(fr.1).1 + v).0)
                =~= (seq![fr.0] + frames_of(fr.1).0) + frames_of(frames_of(fr.1).1 + v).0);
        },
    }
}

/// Running two frame sequences in turn is running their concatenation.
proof fn lemma_run_concat(
    fs1: Seq<Seq<u8>>,
    fs2: Seq<Seq<u8>>,
    id: Seq<u8>,
    suppress: bool,
    markdown: bool,
    prev: bool,
    done: bool,
)
    ensures
        ({
            let a = run_frames(fs1, id, suppress, markdown, prev, done);
            let b = run_frames(fs2, id, suppress, markdown, a.1, a.2);
            run_frames(fs1 + fs2, id, suppress, markdown, prev, done) == (a.0 + b.0, b.1, b.2)
        }),
    decreases fs1.len(),
{
    if fs1.len() == 0 {
        assert(fs1 + fs2 =~= fs2);
        let b = run_frames(fs2, id, suppress, markdown, prev, done);
        assert(Seq::<u8>::empty() + b.0 =~= b.0);
    } else {
        let head = frame_step(fs1[0], id, suppress, markdown, prev, done);
        lemma_run_concat(fs1.skip(1), fs2, id, suppress, markdown, head.1, head.2);
        assert((fs1 + fs2).skip(1) =~= fs1.skip(1) + fs2);
        assert((fs1 + fs2)[0] == fs1[0]);
        let a1 = run_frames(fs1.skip(1), id, suppress, markdown, head.1, head.2);
        let a = run_frames(fs1, id, suppress, markdown, prev, done);
        let b = run_frames(fs2, id, suppress, markdown, a.1, a.2);
        assert(head.0 + (a1.0 + b.0) =~= (head.0 + a1.0) + b.0);
    }
}

/// Where the transport cuts the byte stream into chunks does not matter:
/// feeding any prefix of the bytes and then the rest yields the same emitted
/// events, in the same order, the same buffered remainder, and the same
/// carried state as feeding the bytes whole.  In particular a sequence of
/// concatenated well-formed events is transcoded event for event, in order,
/// wherever the chunk boundaries fall.
pub proof fn lemma_chunk_boundaries_immaterial(
    buffer: Seq<u8>,
    data: Seq<u8>,
    k: int,
    id: Seq<u8>,
    suppress: bool,
    markdown: bool,
    prev: bool,
    done: bool,
)
    requires
        0 <= k <= data.len(),
    ensures
        ({
            let whole = chunk_step(buffer, data, id, suppress, markdown, prev, done);
            let first = chunk_step(buffer, data.take(k), id, suppress, markdown, prev, done);
            let second = chunk_step(
                first.1,
                data.skip(k),
                id,
                suppress,
                markdown,
                first.2,
                first.3,
            );
            &&& whole.0 == first.0 + second.0
            &&& whole.1 == second.1
            &&& whole.2 == second.2
            &&& whole.3 == second.3
        }),
{
    broadcast use lemma_frames_of_wf;

    let u1 = buffer + data.take(k);
    let v = data.skip(k);
    assert(buffer + data =~= u1 + v);
    lemma_frames_concat(u1, v);
    let fs1 = frames_of(u1).0;
    let rem1 = frames_of(u1).1;
    let fs2 = frames_of(rem1 + v).0;
    lemma_run_concat(fs1, fs2, id, suppress, markdown, prev, done);
}

/// The state one streaming connection carries: the partial trailing
/// fragment of the last chunk, the reasoning-carry flag, whether the
/// terminal sentinel has passed, and the per-stream completion identifier
/// and rendering choices.
pub struct StreamState {
    pub buffer: Vec<u8>,
    pub prev_thought: bool,
    pub done: bool,
    pub suppress: bool,
    pub markdown: bool,
    pub id: Vec<u8>,
}

impl StreamState {
    /// A fresh stream: nothing buffered, no reasoning seen, not done.
    pub fn new(suppress: bool, markdown: bool, id: Vec<u8>) -> (r: StreamState)
        ensures
            r.buffer@ == Seq::<u8>::empty(),
            r.prev_thought == false,
            r.done == false,
            r.suppress == suppress,
            r.markdown == markdown,
            r.id == id,
    {
        StreamState { buffer: Vec::new(), prev_thought: false, done: false, suppress, markdown, id }
    }
}

/// Transforms one event fragment, as `frame_step` describes.
fn transform_frame(f: &[u8], id: &[u8], suppress: bool, markdown: bool, prev: bool) -> (r: (
    Vec<u8>,
    bool,
    bool,
))
    ensures
        (r.0@, r.1, r.2) == frame_step(f@, id@, suppress, markdown, prev, false),
{
    proof {
        reveal(frame_step);
    }
    let trimmed = trim_ascii(f);
    if bytes_eq(trimmed, "data: [DONE]".as_bytes()) {
        let out = vstd::slice::slice_to_vec("data: [DONE]\n\n".as_bytes());
        return (out, prev, true);
    }
    let prefix = "data: ".as_bytes();
    if starts_with(f, prefix) {
        let payload = vstd::slice::slice_subrange(f, prefix.len(), f.len());
        proof {
            assert(payload@ == f@.skip(data_prefix().len() as int));
        }
        match parse_json(payload) {
            Some(doc) => {
                let (env_opt, p2) = transform_google_to_openai(
                    &doc,
                    id,
                    true,
                    suppress,
                    markdown,
                    prev,
                );
                match env_opt {
                    Some(env) => {
                        let mut out: Vec<u8> = Vec::new();
                        push_all(&mut out, prefix);
                        let text = dump_json(&env);
                        push_all(&mut out, text.as_slice());
                        push_all(&mut out, "\n\n".as_bytes());
                        (out, p2, false)
                    },
                    None => (Vec::new(), p2, false),
                }
            },
            None => (Vec::new(), prev, false),
        }
    } else {
        (Vec::new(), prev, false)
    }
}

/// How a first blank line at `p` determines `split_event`.
proof fn lemma_split_event_at(t: Seq<u8>, p: int)
    requires
        0 <= p,
        p + 2 <= t.len(),
        t[p] == nl() && t[p + 1] == nl(),
        forall|j: int| 0 <= j < p ==> !(#[trigger] t[j] == nl() && t[j + 1] == nl()),
    ensures
        split_event(t) == Some((t.take(p), t.skip(p + 2))),
    decreases p,
{
    if p == 0 {
        assert(t.take(0) =~= Seq::<u8>::empty());
    } else {
        assert(t.skip(1)[p - 1] == t[p]);
        assert(t.skip(1)[p] == t[p + 1]);
        assert forall|j: int| 0 <= j < p - 1 implies !(#[trigger] t.skip(1)[j] == nl() && t.skip(
            1,
        )[j + 1] == nl()) by {
            assert(t.skip(1)[j] == t[j + 1]);
            assert(t.skip(1)[j + 1] == t[j + 2]);
            assert(!(t[j + 1] == nl() && t[j + 2] == nl()));
        }
        lemma_split_event_at(t.skip(1), p - 1);
        assert(t.skip(1).skip(p + 1) =~= t.skip(p + 2));
        assert(seq![t[0]] + t.skip(1).take(p - 1) =~= t.take(p));
        assert(!(t[0] == nl() && t[1] == nl()));
    }
}

/// Without a blank line there is no complete event.
proof fn lemma_split_event_none(t: Seq<u8>)
    requires
        forall|j: int| 0 <= j && j + 2 <= t.len() ==> !(#[trigger] t[j] == nl() && t[j + 1] == nl()),
    ensures
        split_event(t) is None,
    decreases t.len(),
{
    if t.len() >= 2 {
        assert(!(t[0] == nl() && t[1] == nl()));
        assert forall|j: int| 0 <= j && j + 2 <= t.skip(1).len() implies !(#[trigger] t.skip(
            1,
        )[j] == nl() && t.skip(1)[j + 1] == nl()) by {
            assert(t.skip(1)[j] == t[j + 1]);
            assert(t.skip(1)[j + 1] == t[j + 2]);
        }
        lemma_split_event_none(t.skip(1));
    }
}

/// The delimiter is two newlines.
proof fn lemma_delim_bytes()
    ensures
        delim().len() == 2,
        delim()[0] == nl(),
        delim()[1] == nl(),
{
    broadcast use vstd::string::is_ascii_spec_bytes;

    reveal_strlit("\n");
    reveal_strlit("\n\n");
    assert(vstd::string::is_ascii("\n"));
    assert(vstd::string::is_ascii("\n\n"));
    assert("\n".spec_bytes().len() == 1);
    assert("\n\n".spec_bytes().len() == 2);
    assert("\n\n".spec_bytes()[0] == "\n"@[0] as u8);
    assert("\n\n".spec_bytes()[1] == "\n"@[1 - 1] as u8);
}

/// Feeds one arriving chunk through the transcoder, as `chunk_step`
/// describes: the buffered partial fragment and the chunk are cut into
/// complete events at blank lines, each is transformed with the carried
/// state, and the trailing partial fragment is buffered.
#[verifier::rlimit(100)]
#[verifier::spinoff_prover]
pub fn transform_google_stream_to_openai(st: &mut StreamState, chunk: &[u8]) -> (out: Vec<u8>)
    ensures
        ({
            let cs = chunk_step(
                old(st).buffer@,
                chunk@,
                old(st).id@,
                old(st).suppress,
                old(st).markdown,
                old(st).prev_thought,
                old(st).done,
            );
            &&& out@ == cs.0
            &&& final(st).buffer@ == cs.1
            &&& final(st).prev_thought == cs.2
            &&& final(st).done == cs.3
            &&& final(st).id == old(st).id
            &&& final(st).suppress == old(st).suppress
            &&& final(st).markdown == old(st).markdown
        }),
{
    broadcast use lemma_frames_of_wf;

    let mut u: Vec<u8> = Vec::new();
    push_all(&mut u, st.buffer.as_slice());
    push_all(&mut u, chunk);
    let ghost u0 = u@;
    let ghost full = chunk_step(
        st.buffer@,
        chunk@,
        st.id@,
        st.suppress,
        st.markdown,
        st.prev_thought,
        st.done,
    );
    let mut out: Vec<u8> = Vec::new();
    let mut pos: usize = 0;
    let mut prev = st.prev_thought;
    let mut done = st.done;
    let delim_b = "\n\n".as_bytes();
    proof {
        lemma_delim_bytes();
        assert(u0.skip(0) =~= u0);
    }
    loop
        invariant
            *st == *old(st),
            0 <= pos <= u0.len(),
            u@ == u0,
            u0 == st.buffer@ + chunk@,
            delim_b@ == delim(),
            delim().len() == 2,
            delim()[0] == nl(),
            delim()[1] == nl(),
            full == chunk_step(
                st.buffer@,
                chunk@,
                st.id@,
                st.suppress,
                st.markdown,
                st.prev_thought,
                st.done,
            ),
            ({
                let fr = frames_of(u0.skip(pos as int));
                let run = run_frames(fr.0, st.id@, st.suppress, st.markdown, prev, done);
                &&& full.0 == out@ + run.0
                &&& full.1 == fr.1
                &&& full.2 == run.1
                &&& full.3 == run.2
            }),
        decreases u0.len() - pos,
    {
        let rem = vstd::slice::slice_subrange(&u, pos, u.len());
        let ghost remv = u0.skip(pos as int);
        match find_sub(rem, delim_b) {
            Some(p) => {
                proof {
                    assert(matches_at(remv, delim(), p as int));
                    assert(remv.subrange(p as int, p + 2) == delim());
                    assert(remv[p as int] == delim()[0] && remv[p + 1] == delim()[1]);
                    assert forall|j: int| 0 <= j < p implies !(#[trigger] remv[j] == nl()
                        && remv[j + 1] == nl()) by {
                        assert(!matches_at(remv, delim(), j));
                        if 0 <= j && j + 2 <= remv.len() {
                            assert(remv.subrange(j, j + 2) =~= seq![remv[j], remv[j + 1]]);
                            assert(delim() =~= seq![nl(), nl()]);
                        }
                    }
                    lemma_split_event_at(remv, p as int);
                }
                let frame = vstd::slice::slice_subrange(rem, 0, p);
                let ghost framev = remv.take(p as int);
                let ghost pre_out = out@;
                let ghost pre_prev = prev;
                let ghost pre_done = done;
                if done {
                    proof {
                        reveal(frame_step);
                        assert(frame_step(framev, st.id@, st.suppress, st.markdown, prev, true)
                            == (Seq::<u8>::empty(), prev, true));
                        assert(pre_out + Seq::<u8>::empty() =~= pre_out);
                    }
                } else {
                    let (o, p2, d2) = transform_frame(
                        frame,
                        st.id.as_slice(),
                        st.suppress,
                        st.markdown,
                        prev,
                    );
                    push_all(&mut out, o.as_slice());
                    prev = p2;
                    done = d2;
                }
                proof {
                    let fs = frame_step(
                        framev,
                        st.id@,
                        st.suppress,
                        st.markdown,
                        pre_prev,
                        pre_done,
                    );
                    assert(out@ == pre_out + fs.0);
                    let fr_old = frames_of(remv);
                    lemma_frames_of_wf(remv);
                    lemma_frames_of_wf(remv.skip(p + 2));
                    assert(fr_old.0 == seq![framev] + frames_of(remv.skip(p + 2)).0);
                    assert(fr_old.0.skip(1) =~= frames_of(remv.skip(p + 2)).0);
                    assert(fr_old.0[0] == framev);
                    assert(remv.skip(p + 2) =~= u0.skip(pos + p + 2));
                }
                pos = pos + p + 2;
            },
            None => {
                proof {
                    assert forall|j: int| 0 <= j && j + 2 <= remv.len() implies !(#[trigger]
                    remv[j] == nl() && remv[j + 1] == nl()) by {
                        assert(!matches_at(remv, delim(), j));
                        assert(remv.subrange(j, j + 2) =~= seq![remv[j], remv[j + 1]]);
                        assert(delim() =~= seq![nl(), nl()]);
                    }
                    lemma_split_event_none(remv);
                    lemma_frames_of_wf(remv);
                    assert(frames_of(remv).0 =~= Seq::<Seq<u8>>::empty());
                    assert(frames_of(remv).1 == remv);
                    assert(run_frames(
                        frames_of(remv).0,
                        st.id@,
                        st.suppress,
                        st.markdown,
                        prev,
                        done,
                    ) == (Seq::<u8>::empty(), prev, done));
                    assert(out@ + Seq::<u8>::empty() =~= out@);
                }
                st.buffer = vstd::slice::slice_to_vec(rem);
                st.prev_thought = prev;
                st.done = done;
                return out;
            },
        }
    }
}

/// Ends the stream: the bytes the remaining buffered fragment contributes,
/// processed as one final event.
pub fn finish_stream(st: &mut StreamState) -> (out: Vec<u8>)
    ensures
        ({
            let fs = frame_step(
                old(st).buffer@,
                old(st).id@,
                old(st).suppress,
                old(st).markdown,
                old(st).prev_thought,
                old(st).done,
            );
            &&& out@ == fs.0
            &&& final(st).buffer@ == Seq::<u8>::empty()
            &&& final(st).prev_thought == fs.1
            &&& final(st).done == fs.2
        }),
{
    let ghost fs = frame_step(
        st.buffer@,
        st.id@,
        st.suppress,
        st.markdown,
        st.prev_thought,
        st.done,
    );
    if st.done {
        proof {
            reveal(frame_step);
        }
        st.buffer = Vec::new();
        return Vec::new();
    }
    let (o, p2, d2) = transform_frame(
        st.buffer.as_slice(),
        st.id.as_slice(),
        st.suppress,
        st.markdown,
        st.prev_thought,
    );
    st.buffer = Vec::new();
    st.prev_thought = p2;
    st.done = d2;
    o
}

} // verus!
