//! The server's state feed, as the encoder reads it: frames that end in an
//! empty line, each with its payload in the first line that starts with
//! `data: `.

use vstd::prelude::*;

use crate::text::chars_of;

verus! {

/// The text that a run of bytes is read as, with replacement characters for what
/// is not UTF-8: what `String::from_utf8_lossy` gives.
pub uninterp spec fn lossy_text(bytes: Seq<u8>) -> Seq<char>;

/// `String::from_utf8_lossy`: reads bytes as text. Its result depends on the bytes
/// alone, and bytes that are UTF-8 are read as the text that they encode. What
/// stands in place of bytes that are not is left unsaid.
#[verifier::external_body]
fn decode_lossy(bytes: &[u8]) -> (text: String)
    ensures
        text@ == lossy_text(bytes@),
        vstd::utf8::valid_utf8(bytes@) ==> text@ == vstd::utf8::decode_utf8(bytes@),
{
    String::from_utf8_lossy(bytes).into_owned()
}

/// An empty line begins at `i`.
pub open spec fn breaks_at(text: Seq<char>, i: int) -> bool {
    0 <= i && i + 1 < text.len() && text[i] == '\n' && text[i + 1] == '\n'
}

/// The first frame ends at `i`.
pub open spec fn first_break(text: Seq<char>, i: int) -> bool {
    breaks_at(text, i) && forall|k: int| 0 <= k < i ==> !#[trigger] breaks_at(text, k)
}

/// The line that begins at `from` ends at `to`: at a line feed, or where the
/// frame ends.
pub open spec fn line_ends(frame: Seq<char>, from: int, to: int) -> bool {
    &&& from <= to <= frame.len()
    &&& to < frame.len() ==> frame[to] == '\n'
    &&& forall|k: int| from <= k < to ==> #[trigger] frame[k] != '\n'
}

/// The text of the line from `from` to `to`: a carriage return before the line
/// feed belongs to the line's end.
pub open spec fn line_text(frame: Seq<char>, from: int, to: int) -> Seq<char> {
    if to < frame.len() && from < to && frame[to - 1] == '\r' {
        frame.subrange(from, to - 1)
    } else {
        frame.subrange(from, to)
    }
}

/// The payload of a line, if it has one.
pub open spec fn payload_of(line: Seq<char>) -> Option<Seq<char>> {
    if line.len() >= 6 && line.take(6) == "data: "@ {
        Some(line.skip(6))
    } else {
        None
    }
}

/// Where the line that begins at `from` ends.
pub open spec fn line_end(frame: Seq<char>, from: int) -> int
    decreases frame.len() - from,
{
    if from >= frame.len() || frame[from] == '\n' {
        from
    } else {
        line_end(frame, from + 1)
    }
}

/// The payload of the first line at or after `from` that has one.
pub open spec fn payload_from(frame: Seq<char>, from: int) -> Option<Seq<char>>
    decreases frame.len() - from,
    when 0 <= from <= frame.len()
    via payload_from_ends
{
    if from >= frame.len() {
        None
    } else {
        let to = line_end(frame, from);
        match payload_of(line_text(frame, from, to)) {
            Some(payload) => Some(payload),
            None => if to >= frame.len() {
                None
            } else {
                payload_from(frame, to + 1)
            },
        }
    }
}

#[via_fn]
proof fn payload_from_ends(frame: Seq<char>, from: int) {
    if from < frame.len() {
        lemma_line_end(frame, from);
    }
}

proof fn lemma_line_end(frame: Seq<char>, from: int)
    requires
        0 <= from <= frame.len(),
    ensures
        line_ends(frame, from, line_end(frame, from)),
    decreases frame.len() - from,
{
    if from < frame.len() && frame[from] != '\n' {
        lemma_line_end(frame, from + 1);
    }
}

proof fn lemma_line_end_is(frame: Seq<char>, from: int, to: int)
    requires
        0 <= from,
        line_ends(frame, from, to),
    ensures
        line_end(frame, from) == to,
    decreases to - from,
{
    if from < to {
        assert(frame[from] != '\n');
        lemma_line_end_is(frame, from + 1, to);
    }
}

/// The payload of a frame.
pub fn frame_data(frame: &str) -> (payload: Option<String>)
    ensures
        match payload {
            Some(p) => payload_from(frame@, 0) == Some(p@),
            None => payload_from(frame@, 0) is None,
        },
{
    let chars = chars_of(frame);
    let len: usize = chars.len();
    let mut from: usize = 0;
    while from < len
        invariant
            chars@ == frame@,
            len == frame@.len(),
            from <= len,
            payload_from(frame@, 0) == payload_from(frame@, from as int),
        decreases len - from,
    {
        let mut to: usize = from;
        while to < len && chars[to] != '\n'
            invariant
                chars@ == frame@,
                len == frame@.len(),
                from <= to <= len,
                forall|k: int| from <= k < to ==> #[trigger] frame@[k] != '\n',
            decreases len - to,
        {
            to = to + 1;
        }
        proof {
            lemma_line_end_is(frame@, from as int, to as int);
            reveal_strlit("data: ");
        }
        let stop: usize = if to < len && from < to && chars[to - 1] == '\r' {
            to - 1
        } else {
            to
        };
        let ghost line = line_text(frame@, from as int, to as int);
        assert(line =~= frame@.subrange(from as int, stop as int));
        if stop - from >= 6 && chars[from] == 'd' && chars[from + 1] == 'a' && chars[from + 2] == 't'
            && chars[from + 3] == 'a' && chars[from + 4] == ':' && chars[from + 5] == ' ' {
            assert(line.take(6) =~= "data: "@);
            let payload = frame.substring_char(from + 6, stop).to_owned();
            assert(payload@ =~= line.skip(6));
            return Some(payload);
        }
        assert(payload_of(line) is None) by {
            if line.len() >= 6 && line.take(6) == "data: "@ {
                assert(line[0] == line.take(6)[0]);
                assert(line[1] == line.take(6)[1]);
                assert(line[2] == line.take(6)[2]);
                assert(line[3] == line.take(6)[3]);
                assert(line[4] == line.take(6)[4]);
                assert(line[5] == line.take(6)[5]);
            }
        }
        if to == len {
            return None;
        }
        from = to + 1;
    }
    None
}

/// Payloads of the complete frames in a text, and what is left over.
pub open spec fn split_frames(text: Seq<char>) -> (Seq<Seq<char>>, Seq<char>)
    decreases text.len(),
{
    if exists|i: int| first_break(text, i) {
        let i = choose|i: int| first_break(text, i);
        let (later, rest) = split_frames(text.skip(i + 2));
        (
            match payload_from(text.take(i), 0) {
                Some(payload) => seq![payload] + later,
                None => later,
            },
            rest,
        )
    } else {
        (Seq::empty(), text)
    }
}

proof fn lemma_split_at(text: Seq<char>, i: int)
    requires
        first_break(text, i),
    ensures
        ({
            let (later, rest) = split_frames(text.skip(i + 2));
            split_frames(text) == (
                match payload_from(text.take(i), 0) {
                    Some(payload) => seq![payload] + later,
                    None => later,
                },
                rest,
            )
        }),
{
    let k = choose|k: int| first_break(text, k);
    assert(first_break(text, k));
    if k < i {
        assert(!breaks_at(text, k));
    } else if i < k {
        assert(!breaks_at(text, i));
    }
}

/// The payloads as plain values.
pub open spec fn payload_views(payloads: Seq<String>) -> Seq<Seq<char>> {
    payloads.map_values(|p: String| p@)
}

/// The feed as it arrives, chunk by chunk.
pub struct FeedBuffer {
    pending: String,
}

impl FeedBuffer {
    /// What has arrived of the frame that is not complete yet.
    pub closed spec fn partial(&self) -> Seq<char> {
        self.pending@
    }

    pub fn new() -> (buffer: Self)
        ensures
            buffer.partial() == Seq::<char>::empty(),
    {
        let buffer = FeedBuffer { pending: String::new() };
        assert(buffer.partial() =~= Seq::<char>::empty());
        buffer
    }

    /// Takes a chunk, and returns the payloads of the frames that are complete.
    /// Each chunk is read as text by itself.
    pub fn push(&mut self, chunk: &[u8]) -> (payloads: Vec<String>)
        ensures
            (payload_views(payloads@), final(self).partial()) == split_frames(
                old(self).partial() + lossy_text(chunk@),
            ),
            vstd::utf8::valid_utf8(chunk@) ==> (payload_views(payloads@), final(self).partial())
                == split_frames(old(self).partial() + vstd::utf8::decode_utf8(chunk@)),
    {
        let text = decode_lossy(chunk);
        self.push_text(text.as_str())
    }

    /// Takes a piece of the feed's text, and returns the payloads of the frames that
    /// are complete.
    pub fn push_text(&mut self, text: &str) -> (payloads: Vec<String>)
        ensures
            (payload_views(payloads@), final(self).partial()) == split_frames(
                old(self).partial() + text@,
            ),
    {
        self.pending.append(text);
        let ghost all = old(self).pending@ + text@;
        assert(self.pending@ =~= all);
        let chars = chars_of(self.pending.as_str());
        let len: usize = chars.len();
        let mut payloads: Vec<String> = Vec::new();
        let mut from: usize = 0;
        let mut i: usize = 0;
        assert(all.skip(0) =~= all);
        assert(payload_views(payloads@) + split_frames(all).0 =~= split_frames(all).0);
        while i < len && len - i > 1
            invariant
                len == all.len(),
                chars@ == all,
                self.pending@ == all,
                from <= i,
                from <= len,
                i <= len,
                forall|k: int| 0 <= k < i - from ==> !#[trigger] breaks_at(
                    all.skip(from as int),
                    k,
                ),
                payload_views(payloads@) + split_frames(all.skip(from as int)).0 == split_frames(
                    all,
                ).0,
                split_frames(all.skip(from as int)).1 == split_frames(all).1,
            decreases len - i,
        {
            let ghost left = all.skip(from as int);
            assert(left[i - from] == all[i as int]);
            assert(left[i + 1 - from] == all[i + 1]);
            if chars[i] == '\n' && chars[i + 1] == '\n' {
                assert(first_break(left, i - from));
                proof {
                    lemma_split_at(left, i - from);
                    assert(left.skip(i - from + 2) =~= all.skip(i + 2));
                }
                let frame = self.pending.as_str().substring_char(from, i);
                assert(frame@ =~= left.take(i - from));
                let ghost done = payload_views(payloads@);
                match frame_data(frame) {
                    Some(payload) => {
                        let ghost p = payload@;
                        payloads.push(payload);
                        assert(payload_views(payloads@) =~= done.push(p));
                        assert(done.push(p) + split_frames(all.skip(i + 2)).0 =~= done + (seq![p]
                            + split_frames(all.skip(i + 2)).0));
                    },
                    None => {},
                }
                from = i + 2;
                i = i + 2;
            } else {
                assert(!breaks_at(left, i - from));
                i = i + 1;
            }
        }
        proof {
            let left = all.skip(from as int);
            assert forall|k: int| !first_break(left, k) by {
                if breaks_at(left, k) {
                    assert(k < i - from);
                }
            }
            assert(split_frames(left) == (Seq::<Seq<char>>::empty(), left));
            assert(payload_views(payloads@) + Seq::<Seq<char>>::empty() =~= payload_views(
                payloads@,
            ));
        }
        let rest = self.pending.as_str().substring_char(from, len).to_owned();
        assert(rest@ =~= all.skip(from as int));
        self.pending = rest;
        payloads
    }
}

/// Where the text of the feed is cut into pieces makes no difference to its
/// payloads.
pub proof fn law_pieces_do_not_matter(first: Seq<char>, second: Seq<char>)
    ensures
        ({
            let (early, rest) = split_frames(first);
            let (late, left) = split_frames(rest + second);
            split_frames(first + second) == (early + late, left)
        }),
    decreases first.len(),
{
    let all = first + second;
    if exists|i: int| first_break(first, i) {
        let i = choose|i: int| first_break(first, i);
        assert(first_break(first, i));
        assert forall|k: int| 0 <= k < i implies !#[trigger] breaks_at(all, k) by {
            assert(!breaks_at(first, k));
        }
        assert(first_break(all, i));
        lemma_split_at(first, i);
        lemma_split_at(all, i);
        assert(all.take(i) =~= first.take(i));
        assert(all.skip(i + 2) =~= first.skip(i + 2) + second);
        law_pieces_do_not_matter(first.skip(i + 2), second);
        let (early, rest) = split_frames(first.skip(i + 2));
        let (late, _) = split_frames(rest + second);
        if let Some(payload) = payload_from(first.take(i), 0) {
            assert(seq![payload] + (early + late) =~= (seq![payload] + early) + late);
        }
    } else {
        let (late, _) = split_frames(all);
        assert(Seq::<Seq<char>>::empty() + late =~= late);
    }
}

proof fn lemma_no_break_before(text: Seq<char>, i: int)
    requires
        0 <= i,
        i + 1 < text.len(),
        text[i] == '\n',
        text[i + 1] == '\n',
        forall|k: int| 0 <= k < i && #[trigger] text[k] == '\n' ==> text[k + 1] != '\n',
    ensures
        first_break(text, i),
{
}

proof fn lemma_split_nothing()
    ensures
        split_frames(Seq::<char>::empty()) == (Seq::<Seq<char>>::empty(), Seq::<char>::empty()),
{
    let none = Seq::<char>::empty();
    assert forall|i: int| !first_break(none, i) by {
        assert(!breaks_at(none, i));
    }
}

/// What is sent as the payload of a frame arrives as it was sent, once, and nothing is left
/// over.
pub proof fn law_a_frame_is_read_back(payload: Seq<char>)
    requires
        forall|i: int| 0 <= i < payload.len() ==> #[trigger] payload[i] != '\n',
    ensures
        split_frames("data: "@ + payload + "\n\n"@) == (seq![payload], Seq::<char>::empty()),
{
    reveal_strlit("data: ");
    reveal_strlit("\n\n");
    let line = "data: "@ + payload;
    let text = line + "\n\n"@;
    let i = line.len() as int;
    assert forall|k: int| 0 <= k < i implies #[trigger] text[k] != '\n' by {
        if k >= 6 {
            assert(text[k] == payload[k - 6]);
        } else {
            assert(text[k] == "data: "@[k]);
        }
    }
    lemma_no_break_before(text, i);
    lemma_split_at(text, i);
    assert(text.take(i) =~= line);
    assert(text.skip(i + 2) =~= Seq::<char>::empty());
    lemma_split_nothing();
    assert forall|k: int| 0 <= k < i implies #[trigger] line[k] != '\n' by {
        assert(text[k] == line[k]);
    }
    lemma_line_end_is(line, 0, i);
    assert(line_text(line, 0, i) =~= line);
    assert(line.take(6) =~= "data: "@);
    assert(line.skip(6) =~= payload);
    assert(payload_from(line, 0) == Some(payload));
    assert(seq![payload] + Seq::<Seq<char>>::empty() =~= seq![payload]);
}

/// A line before the payload that is no payload itself, such as an event's name, is passed
/// over.
pub proof fn law_other_lines_are_passed_over(head: Seq<char>, payload: Seq<char>)
    requires
        head.len() > 0,
        forall|i: int| 0 <= i < head.len() ==> #[trigger] head[i] != '\n',
        !(head.len() >= 6 && head.take(6) == "data: "@),
        forall|i: int| 0 <= i < payload.len() ==> #[trigger] payload[i] != '\n',
    ensures
        split_frames(head + "\n"@ + "data: "@ + payload + "\n\n"@) == (
            seq![payload],
            Seq::<char>::empty(),
        ),
{
    reveal_strlit("data: ");
    reveal_strlit("\n\n");
    reveal_strlit("\n");
    let frame = head + "\n"@ + "data: "@ + payload;
    let text = frame + "\n\n"@;
    let h = head.len() as int;
    let i = frame.len() as int;
    assert(text[h] == '\n');
    assert(text[h + 1] == 'd');
    assert forall|k: int| 0 <= k < i && k != h implies #[trigger] text[k] != '\n' by {
        if k < h {
            assert(text[k] == head[k]);
        } else if k >= h + 7 {
            assert(text[k] == payload[k - h - 7]);
        } else {
            assert(text[k] == "data: "@[k - h - 1]);
        }
    }
    lemma_no_break_before(text, i);
    lemma_split_at(text, i);
    assert(text.take(i) =~= frame);
    assert(text.skip(i + 2) =~= Seq::<char>::empty());
    lemma_split_nothing();
    assert forall|k: int| 0 <= k < i && k != h implies #[trigger] frame[k] != '\n' by {
        assert(text[k] == frame[k]);
    }
    lemma_line_end_is(frame, 0, h);
    let first = line_text(frame, 0, h);
    assert(payload_of(first) is None) by {
        assert(first =~= head || first =~= head.take(h - 1));
        if first.len() >= 6 {
            assert(first.take(6) =~= head.take(6));
        }
    }
    lemma_line_end_is(frame, h + 1, i);
    let line = "data: "@ + payload;
    assert(line_text(frame, h + 1, i) =~= line);
    assert(line.take(6) =~= "data: "@);
    assert(line.skip(6) =~= payload);
    assert(payload_from(frame, h + 1) == Some(payload));
    assert(payload_from(frame, 0) == Some(payload));
    assert(seq![payload] + Seq::<Seq<char>>::empty() =~= seq![payload]);
}

/// A frame whose end has not come is kept as it is.
pub proof fn law_an_open_frame_is_kept(text: Seq<char>)
    requires
        forall|i: int|
            0 <= i && i + 1 < text.len() && #[trigger] text[i] == '\n' ==> text[i + 1] != '\n',
    ensures
        split_frames(text) == (Seq::<Seq<char>>::empty(), text),
{
    assert forall|i: int| !first_break(text, i) by {
        if breaks_at(text, i) {
            assert(text[i] == '\n');
        }
    }
}

} // verus!
