//! The frame decoder: turns an arbitrarily chunked stream of text into
//! an ordered sequence of decoded events.
//!
//! The accumulated text is split on the `"data: "` marker. Every split
//! segment except the trailing one is a complete frame body and is
//! classified at once; the trailing segment is retained until further
//! input (or the end of the stream) completes it, so a frame split
//! across chunks — even one whose marker itself straddles a chunk
//! boundary — is decoded intact once the surrounding text has arrived.
//! This retention is deliberate: a decoder that split each chunk on its
//! own would silently lose a frame whose marker and body arrive apart.

use vstd::prelude::*;

use crate::text::{chars_of, copy_range, trim, trim_chars};

verus! {

/// The frame marker `"data: "`: each logical frame of the stream is
/// introduced by this six-character prefix.
pub open spec fn marker() -> Seq<char> {
    seq!['d', 'a', 't', 'a', ':', ' ']
}

/// The sentinel payload `"[DONE]"` that ends a stream.
pub open spec fn done_lit() -> Seq<char> {
    seq!['[', 'D', 'O', 'N', 'E', ']']
}

/// A marker occurrence starting at position `i` of `s`.
pub open spec fn marker_at(s: Seq<char>, i: int) -> bool {
    0 <= i && i + 6 <= s.len() && s.subrange(i, i + 6) == marker()
}

/// The position of the first marker occurrence at or after `i`, if any.
pub open spec fn first_marker_from(s: Seq<char>, i: int) -> Option<int>
    decreases s.len() - i,
{
    if i < 0 || i + 6 > s.len() {
        None
    } else if marker_at(s, i) {
        Some(i)
    } else {
        first_marker_from(s, i + 1)
    }
}

/// What the scan returns: the first marker occurrence at or after `k`,
/// or `None` when there is none.
proof fn lemma_first_marker_from_props(s: Seq<char>, k: int)
    requires
        0 <= k,
    ensures
        match first_marker_from(s, k) {
            Some(i) => k <= i && marker_at(s, i) && forall|j: int|
                k <= j < i ==> !marker_at(s, j),
            None => forall|j: int| k <= j ==> !marker_at(s, j),
        },
    decreases s.len() - k,
{
    if k + 6 > s.len() {
    } else if marker_at(s, k) {
    } else {
        lemma_first_marker_from_props(s, k + 1);
    }
}

/// Splits `s` at every marker occurrence. The result always has at
/// least one element; all elements but the last are complete frame
/// bodies, the last is the (possibly empty) text after the final marker.
pub open spec fn split_frames(s: Seq<char>) -> Seq<Seq<char>>
    decreases s.len(),
    via split_frames_decreases
{
    match first_marker_from(s, 0) {
        None => seq![s],
        Some(i) => seq![s.subrange(0, i)] + split_frames(s.subrange(i + 6, s.len() as int)),
    }
}

#[via_fn]
proof fn split_frames_decreases(s: Seq<char>) {
    lemma_first_marker_from_props(s, 0);
}

/// A split never has fewer than one segment.
proof fn lemma_split_len(s: Seq<char>)
    ensures
        split_frames(s).len() >= 1,
{
    lemma_first_marker_from_props(s, 0);
}

/// A spec-level decoded event: an incremental text delta, the
/// end-of-stream signal, or a frame that carried neither and was
/// dropped from the channel.
pub enum EventView {
    Delta(Seq<char>),
    Done,
    Ignored,
}

/// An event produced by the frame decoder.
pub enum DecodedEvent {
    /// The incremental text extracted from one frame.
    Delta(String),
    /// The frame was the `[DONE]` sentinel.
    Done,
    /// The frame parsed to no usable content; it produces no channel
    /// traffic, but is reported so that silent drops stay observable.
    Ignored,
}

impl View for DecodedEvent {
    type V = EventView;

    open spec fn view(&self) -> EventView {
        match self {
            DecodedEvent::Delta(s) => EventView::Delta(s@),
            DecodedEvent::Done => EventView::Done,
            DecodedEvent::Ignored => EventView::Ignored,
        }
    }
}

/// The views of a sequence of events.
pub open spec fn views_of(evs: Seq<DecodedEvent>) -> Seq<EventView> {
    evs.map_values(|e: DecodedEvent| e@)
}

/// The text at `choices[0].delta.content` of `s` read as a JSON
/// document: `Some` of that text when `s` parses as JSON and the field
/// is present and is a string, `None` otherwise. The value is fixed by
/// `serde_json`'s parser and depends on `s` alone; this library never
/// states what it is on a given input.
pub uninterp spec fn delta_content_of(s: Seq<char>) -> Option<Seq<char>>;

/// Relies on `serde_json::from_str` to parse one frame body and on
/// `serde_json::Value`'s indexing and `as_str` to read the nested
/// `choices[0].delta.content` field. The outcome is a function of the
/// frame text alone: `Some` of the content exactly when the text is a
/// JSON document carrying that field as a string.
#[verifier::external_body]
fn extract_delta(frame: &Vec<char>) -> (r: Option<String>)
    ensures
        match r {
            Some(s) => delta_content_of(frame@) == Some(s@),
            None => delta_content_of(frame@) is None,
        },
{
    let text: String = frame.iter().collect();
    match serde_json::from_str::<serde_json::Value>(&text) {
        Ok(v) => v["choices"][0]["delta"]["content"].as_str().map(|s| s.to_string()),
        Err(_) => None,
    }
}

/// What `String::from_utf8_lossy` decodes `b` to: the bytes read as
/// UTF-8 text, invalid sequences replaced. Fixed by the bytes alone.
pub uninterp spec fn lossy_of(b: Seq<u8>) -> Seq<char>;

/// Relies on `String::from_utf8_lossy`: the decoded text is a function
/// of the bytes alone, and empty input decodes to empty text.
#[verifier::external_body]
fn decode_lossy(b: &[u8]) -> (r: String)
    ensures
        r@ == lossy_of(b@),
        b@.len() == 0 ==> r@.len() == 0,
{
    String::from_utf8_lossy(b).into_owned()
}

/// The events one complete frame body contributes: nothing for an
/// all-whitespace body, `Done` for the sentinel, `Delta` for a frame
/// with extractable content, and `Ignored` for anything else.
pub open spec fn frame_events(body: Seq<char>) -> Seq<EventView> {
    let t = trim(body);
    if t.len() == 0 {
        Seq::<EventView>::empty()
    } else if t == done_lit() {
        seq![EventView::Done]
    } else {
        match delta_content_of(t) {
            Some(c) => seq![EventView::Delta(c)],
            None => seq![EventView::Ignored],
        }
    }
}

/// The concatenated events of a sequence of complete frame bodies.
pub open spec fn events_of(bodies: Seq<Seq<char>>) -> Seq<EventView>
    decreases bodies.len(),
{
    if bodies.len() == 0 {
        Seq::<EventView>::empty()
    } else {
        frame_events(bodies[0]) + events_of(bodies.drop_first())
    }
}

/// Decoding a run of frames decomposes frame by frame: what comes out
/// for one frame never depends on, nor halts, the frames around it.
pub proof fn lemma_events_of_append(a: Seq<Seq<char>>, b: Seq<Seq<char>>)
    ensures
        events_of(a + b) == events_of(a) + events_of(b),
    decreases a.len(),
{
    if a.len() == 0 {
        assert(a + b =~= b);
        assert(events_of(a) + events_of(b) =~= events_of(b));
    } else {
        assert((a + b).drop_first() =~= a.drop_first() + b);
        assert((a + b)[0] == a[0]);
        lemma_events_of_append(a.drop_first(), b);
        assert(frame_events(a[0]) + (events_of(a.drop_first()) + events_of(b)) =~= (frame_events(
            a[0],
        ) + events_of(a.drop_first())) + events_of(b));
    }
}

/// The events of the complete frames of `s`: every split segment except
/// the trailing, possibly partial one.
pub open spec fn decode_complete(s: Seq<char>) -> Seq<EventView> {
    events_of(split_frames(s).drop_last())
}

/// The events of all of `s`, the trailing segment included: what a
/// whole stream decodes to once no further text can arrive.
pub open spec fn decode_full(s: Seq<char>) -> Seq<EventView> {
    events_of(split_frames(s))
}

/// A marker occurrence lying within `s` is unchanged by appending `c`.
proof fn lemma_marker_at_append(s: Seq<char>, c: Seq<char>, i: int)
    requires
        0 <= i,
        i + 6 <= s.len(),
    ensures
        marker_at(s + c, i) == marker_at(s, i),
{
    assert((s + c).subrange(i, i + 6) =~= s.subrange(i, i + 6));
}

/// A first marker already found in `s` is still the first one after
/// appending `c`.
proof fn lemma_first_marker_append(s: Seq<char>, c: Seq<char>, k: int, i: int)
    requires
        0 <= k,
        first_marker_from(s, k) == Some(i),
    ensures
        first_marker_from(s + c, k) == Some(i),
    decreases s.len() - k,
{
    assert(k + 6 <= s.len());
    lemma_marker_at_append(s, c, k);
    if marker_at(s, k) {
    } else {
        lemma_first_marker_append(s, c, k + 1, i);
    }
}

/// Appending text only changes the trailing segment of the split: the
/// complete frame bodies already split off stay split off, so nothing
/// once decoded is ever revised.
pub proof fn lemma_split_append(s: Seq<char>, c: Seq<char>)
    ensures
        split_frames(s + c) == split_frames(s).drop_last() + split_frames(
            split_frames(s).last() + c,
        ),
    decreases s.len(),
{
    lemma_first_marker_from_props(s, 0);
    match first_marker_from(s, 0) {
        None => {
            assert(split_frames(s) == seq![s]);
            assert(split_frames(s).drop_last() =~= Seq::<Seq<char>>::empty());
            assert(split_frames(s).last() == s);
            assert(Seq::<Seq<char>>::empty() + split_frames(s + c) =~= split_frames(s + c));
        },
        Some(i) => {
            lemma_first_marker_append(s, c, 0, i);
            let tail = s.subrange(i + 6, s.len() as int);
            assert((s + c).subrange(0, i) =~= s.subrange(0, i));
            assert((s + c).subrange(i + 6, (s + c).len() as int) =~= tail + c);
            lemma_split_append(tail, c);
            lemma_split_len(tail);
            assert(split_frames(s) == seq![s.subrange(0, i)] + split_frames(tail));
            assert(split_frames(s).last() == split_frames(tail).last());
            assert(split_frames(s).drop_last() =~= seq![s.subrange(0, i)] + split_frames(
                tail,
            ).drop_last());
            assert(split_frames(s + c) == seq![s.subrange(0, i)] + (split_frames(
                tail,
            ).drop_last() + split_frames(split_frames(tail).last() + c)));
            assert(seq![s.subrange(0, i)] + (split_frames(tail).drop_last() + split_frames(
                split_frames(tail).last() + c,
            )) =~= (seq![s.subrange(0, i)] + split_frames(tail).drop_last()) + split_frames(
                split_frames(tail).last() + c,
            ));
        },
    }
}

/// Whether `v` is exactly the six characters of the marker, read at
/// position `i`.
fn is_marker_at_exec(v: &Vec<char>, i: usize) -> (r: bool)
    requires
        i + 6 <= v@.len(),
    ensures
        r == marker_at(v@, i as int),
{
    let _bound = v.len();
    let r = v[i] == 'd' && v[i + 1] == 'a' && v[i + 2] == 't' && v[i + 3] == 'a' && v[i + 4] == ':'
        && v[i + 5] == ' ';
    proof {
        if r {
            assert(v@.subrange(i as int, i as int + 6) =~= marker());
        } else {
            if v@.subrange(i as int, i as int + 6) == marker() {
                assert(v@[i as int] == marker()[0]);
                assert(v@[i as int + 1] == marker()[1]);
                assert(v@[i as int + 2] == marker()[2]);
                assert(v@[i as int + 3] == marker()[3]);
                assert(v@[i as int + 4] == marker()[4]);
                assert(v@[i as int + 5] == marker()[5]);
            }
        }
    }
    r
}

/// Finds the first occurrence of the marker in `v`, if any.
fn find_marker(v: &Vec<char>) -> (r: Option<usize>)
    ensures
        match r {
            Some(i) => first_marker_from(v@, 0) == Some(i as int),
            None => first_marker_from(v@, 0) is None,
        },
{
    let n = v.len();
    if n < 6 {
        proof {
            lemma_first_marker_from_props(v@, 0);
        }
        return None;
    }
    let mut i: usize = 0;
    while i <= n - 6
        invariant
            n == v@.len(),
            6 <= n,
            i <= n - 5,
            forall|j: int| 0 <= j < i ==> !marker_at(v@, j),
        decreases n - i,
    {
        if is_marker_at_exec(v, i) {
            proof {
                lemma_first_marker_from_props(v@, 0);
            }
            return Some(i);
        }
        i = i + 1;
    }
    proof {
        assert(forall|j: int| 0 <= j ==> !marker_at(v@, j));
        lemma_first_marker_from_props(v@, 0);
    }
    None
}

/// Whether `v` is exactly the sentinel payload `[DONE]`.
fn is_done_lit(v: &Vec<char>) -> (r: bool)
    ensures
        r == (v@ == done_lit()),
{
    let r = v.len() == 6 && v[0] == '[' && v[1] == 'D' && v[2] == 'O' && v[3] == 'N' && v[4] == 'E'
        && v[5] == ']';
    proof {
        if r {
            assert(v@ =~= done_lit());
        } else {
            if v@ == done_lit() {
                assert(v@.len() == 6);
                assert(v@[0] == done_lit()[0]);
                assert(v@[1] == done_lit()[1]);
                assert(v@[2] == done_lit()[2]);
                assert(v@[3] == done_lit()[3]);
                assert(v@[4] == done_lit()[4]);
                assert(v@[5] == done_lit()[5]);
            }
        }
    }
    r
}

/// Classifies the result of the content extraction: a present string is
/// an incremental delta, an absent one an ignored frame.
pub fn event_of_extraction(extracted: Option<String>) -> (e: DecodedEvent)
    ensures
        e@ == (match extracted {
            Some(s) => EventView::Delta(s@),
            None => EventView::Ignored,
        }),
{
    match extracted {
        Some(s) => DecodedEvent::Delta(s),
        None => DecodedEvent::Ignored,
    }
}

/// Classifies one complete frame body, returning the events (none or
/// one) it contributes.
fn classify_frame(seg: &Vec<char>) -> (r: Vec<DecodedEvent>)
    ensures
        views_of(r@) == frame_events(seg@),
{
    let t = trim_chars(seg);
    let mut r: Vec<DecodedEvent> = Vec::new();
    if t.len() == 0 {
        // an all-whitespace body is no event at all
    } else if is_done_lit(&t) {
        r.push(DecodedEvent::Done);
    } else {
        let e = event_of_extraction(extract_delta(&t));
        r.push(e);
    }
    proof {
        assert(views_of(r@) =~= frame_events(seg@));
    }
    r
}

/// Decodes a chunked text stream into ordered events.
///
/// Text arrives through [`FrameDecoder::push_chunk`] (raw bytes) or
/// [`FrameDecoder::push_text`]; each call returns the events of every
/// frame that call completed, in stream order. The trailing partial
/// segment is retained, never dropped, and is classified as the final
/// frame by [`FrameDecoder::finish`].
pub struct FrameDecoder {
    /// The trailing split segment: the text after the last marker seen.
    buf: Vec<char>,
    /// All text ever pushed.
    hist: Ghost<Seq<char>>,
}

impl FrameDecoder {
    /// The whole text pushed so far.
    pub closed spec fn text(&self) -> Seq<char> {
        self.hist@
    }

    /// The buffer holds exactly the trailing split segment of the text
    /// pushed so far.
    pub closed spec fn wf(&self) -> bool {
        self.buf@ == split_frames(self.hist@).last()
    }

    /// A fresh decoder that has seen no text.
    pub fn new() -> (r: FrameDecoder)
        ensures
            r.wf(),
            r.text() == Seq::<char>::empty(),
    {
        let r = FrameDecoder { buf: Vec::new(), hist: Ghost(Seq::empty()) };
        proof {
            assert(split_frames(Seq::<char>::empty()) == seq![Seq::<char>::empty()]);
        }
        r
    }

    /// Feeds one chunk of already-decoded text and returns the events
    /// of every frame this chunk completed, in stream order. Everything
    /// decoded so far extends, element for element, what was decoded
    /// before: no event is revised or reordered by later input.
    pub fn push_text(&mut self, chunk: &str) -> (events: Vec<DecodedEvent>)
        requires
            old(self).wf(),
        ensures
            final(self).wf(),
            final(self).text() == old(self).text() + chunk@,
            decode_complete(old(self).text()) + views_of(events@) == decode_complete(
                final(self).text(),
            ),
    {
        let cs = chars_of(chunk);
        self.push_chars(cs)
    }

    /// Feeds one raw network chunk: the bytes are decoded to text
    /// (lossily — invalid sequences are replaced, never fatal) and
    /// pushed like text.
    pub fn push_chunk(&mut self, chunk: &[u8]) -> (events: Vec<DecodedEvent>)
        requires
            old(self).wf(),
        ensures
            final(self).wf(),
            final(self).text() == old(self).text() + lossy_of(chunk@),
            decode_complete(old(self).text()) + views_of(events@) == decode_complete(
                final(self).text(),
            ),
    {
        let s = decode_lossy(chunk);
        self.push_text(s.as_str())
    }

    fn push_chars(&mut self, chunk: Vec<char>) -> (events: Vec<DecodedEvent>)
        requires
            old(self).wf(),
        ensures
            final(self).wf(),
            final(self).text() == old(self).text() + chunk@,
            decode_complete(old(self).text()) + views_of(events@) == decode_complete(
                final(self).text(),
            ),
    {
        let ghost old_hist = self.hist@;
        let ghost new_hist = old_hist + chunk@;
        self.buf.extend_from_slice(chunk.as_slice());
        proof {
            self.hist@ = new_hist;
            assert(self.buf@ =~= split_frames(old_hist).last() + chunk@);
            lemma_split_append(old_hist, chunk@);
        }
        let ghost b0 = self.buf@;
        proof {
            lemma_split_len(b0);
            lemma_split_len(old_hist);
            // split(new_hist) = split(old_hist).drop_last() + split(b0)
            assert(split_frames(new_hist) == split_frames(old_hist).drop_last() + split_frames(b0));
            assert(split_frames(new_hist).drop_last() =~= split_frames(old_hist).drop_last()
                + split_frames(b0).drop_last());
            lemma_events_of_append(split_frames(old_hist).drop_last(), split_frames(b0).drop_last());
            assert(split_frames(new_hist).last() == split_frames(b0).last());
        }
        let mut events: Vec<DecodedEvent> = Vec::new();
        let mut go = true;
        while go
            invariant
                self.hist@ == new_hist,
                events_of(split_frames(b0).drop_last()) =~= views_of(events@) + events_of(
                    split_frames(self.buf@).drop_last(),
                ),
                split_frames(b0).last() == split_frames(self.buf@).last(),
                !go ==> first_marker_from(self.buf@, 0) is None,
            decreases self.buf@.len() + (if go { 1int } else { 0int }),
        {
            let ghost before = self.buf@;
            match find_marker(&self.buf) {
                None => {
                    go = false;
                },
                Some(i) => {
                    proof {
                        lemma_first_marker_from_props(before, 0);
                        assert(marker_at(before, i as int));
                    }
                    let len = self.buf.len();
                    let seg = copy_range(&self.buf, 0, i);
                    let rest = copy_range(&self.buf, i + 6, len);
                    self.buf = rest;
                    proof {
                        lemma_split_len(self.buf@);
                        assert(split_frames(before) == seq![seg@] + split_frames(self.buf@));
                        assert(split_frames(before).last() == split_frames(self.buf@).last());
                        assert(split_frames(before).drop_last() =~= seq![seg@] + split_frames(
                            self.buf@,
                        ).drop_last());
                        lemma_events_of_append(seq![seg@], split_frames(self.buf@).drop_last());
                        assert(seq![seg@].drop_first() =~= Seq::<Seq<char>>::empty());
                        assert(events_of(seq![seg@]) == frame_events(seg@) + events_of(
                            Seq::<Seq<char>>::empty(),
                        ));
                        assert(frame_events(seg@) + events_of(Seq::<Seq<char>>::empty())
                            =~= frame_events(seg@));
                    }
                    let mut es = classify_frame(&seg);
                    let ghost es0 = es@;
                    let ghost evs_before = events@;
                    events.append(&mut es);
                    proof {
                        assert(views_of(events@) =~= views_of(evs_before) + views_of(es0));
                        assert(views_of(evs_before) + (frame_events(seg@) + events_of(
                            split_frames(self.buf@).drop_last(),
                        )) =~= (views_of(evs_before) + frame_events(seg@)) + events_of(
                            split_frames(self.buf@).drop_last(),
                        ));
                    }
                },
            }
        }
        proof {
            // no marker left: the buffer is a single trailing segment
            assert(split_frames(self.buf@) == seq![self.buf@]);
            assert(split_frames(self.buf@).drop_last() =~= Seq::<Seq<char>>::empty());
            assert(views_of(events@) + Seq::<EventView>::empty() =~= views_of(events@));
            assert(split_frames(self.buf@).last() == self.buf@);
        }
        events
    }

    /// Ends the stream: the retained trailing segment is classified as
    /// one final complete frame. Consumes the decoder; a stream is
    /// decoded once and never reused.
    pub fn finish(self) -> (events: Vec<DecodedEvent>)
        requires
            self.wf(),
        ensures
            decode_complete(self.text()) + views_of(events@) == decode_full(self.text()),
    {
        proof {
            lemma_split_len(self.hist@);
            let segs = split_frames(self.hist@);
            assert(segs =~= segs.drop_last() + seq![segs.last()]);
            lemma_events_of_append(segs.drop_last(), seq![segs.last()]);
            assert(seq![segs.last()].drop_first() =~= Seq::<Seq<char>>::empty());
            assert(events_of(seq![segs.last()]) == frame_events(segs.last()) + events_of(
                Seq::<Seq<char>>::empty(),
            ));
            assert(frame_events(segs.last()) + events_of(Seq::<Seq<char>>::empty()) =~= frame_events(
                segs.last(),
            ));
        }
        classify_frame(&self.buf)
    }
}

/// The concatenation of a sequence of text chunks.
pub open spec fn concat_texts(cs: Seq<Seq<char>>) -> Seq<char>
    decreases cs.len(),
{
    if cs.len() == 0 {
        Seq::<char>::empty()
    } else {
        concat_texts(cs.drop_last()) + cs.last()
    }
}

/// Decodes a whole, already-chunked stream in one call. The events are
/// a function of the concatenated text alone: where one chunk ends and
/// the next begins leaves no trace in the result.
pub fn decode_chunks(chunks: &Vec<String>) -> (events: Vec<DecodedEvent>)
    ensures
        views_of(events@) == decode_full(concat_texts(chunks.deep_view())),
{
    let mut d = FrameDecoder::new();
    let mut events: Vec<DecodedEvent> = Vec::new();
    let mut i: usize = 0;
    proof {
        assert(chunks.deep_view().take(0) =~= Seq::<Seq<char>>::empty());
    }
    while i < chunks.len()
        invariant
            i <= chunks@.len(),
            chunks.deep_view().len() == chunks@.len(),
            d.wf(),
            d.text() == concat_texts(chunks.deep_view().take(i as int)),
            views_of(events@) == decode_complete(d.text()),
        decreases chunks@.len() - i,
    {
        let mut es = d.push_text(chunks[i].as_str());
        let ghost es0 = es@;
        let ghost evs_before = events@;
        events.append(&mut es);
        proof {
            let dv = chunks.deep_view();
            assert(dv.take((i + 1) as int).drop_last() =~= dv.take(i as int));
            assert(dv[i as int] == chunks@[i as int]@);
            assert(dv.take((i + 1) as int).last() == chunks@[i as int]@);
            assert(views_of(events@) =~= views_of(evs_before) + views_of(es0));
        }
        i = i + 1;
    }
    proof {
        assert(chunks.deep_view().take(chunks@.len() as int) =~= chunks.deep_view());
    }
    let ghost evs_before = events@;
    let mut es = d.finish();
    let ghost es0 = es@;
    events.append(&mut es);
    proof {
        assert(views_of(events@) =~= views_of(evs_before) + views_of(es0));
        assert(views_of(events@) =~= decode_full(concat_texts(chunks.deep_view())));
    }
    events
}

/// However a stream is cut into chunks, the decoded events are the
/// same: they are a function of the concatenated text alone.
pub proof fn lemma_chunking_invariance(a: Seq<Seq<char>>, b: Seq<Seq<char>>)
    requires
        concat_texts(a) == concat_texts(b),
    ensures
        decode_full(concat_texts(a)) == decode_full(concat_texts(b)),
{
}

/// A frame body that is neither empty nor the sentinel and carries no
/// extractable content contributes exactly one `Ignored` event: no
/// delta, no termination signal, and — decoding being frame-by-frame
/// compositional — no effect on the frames after it.
pub proof fn lemma_malformed_frame_ignored(body: Seq<char>)
    requires
        trim(body).len() != 0,
        trim(body) != done_lit(),
        delta_content_of(trim(body)) is None,
    ensures
        frame_events(body) == seq![EventView::Ignored],
{
}

} // verus!
