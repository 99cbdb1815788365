use vstd::prelude::*;

verus! {

/// One stored key of a channel: the pair of corresponding points at a frame.
///
/// `P` is the point type; the store only moves points around and never
/// computes with them.
#[derive(Clone, Copy, Debug, PartialEq)]
pub struct Keypoint<P> {
    pub frame: u32,
    pub left: P,
    pub right: P,
}

/// The value of one channel at a queried frame.
#[derive(Clone, Copy, Debug, PartialEq)]
pub enum Sample<P> {
    /// The value is a stored pair, unchanged.
    Exact { left: P, right: P },
    /// The value lies `offset / span` of the way from the `from` pair to the
    /// `to` pair, with `0 < offset < span`.
    Between { from_left: P, from_right: P, to_left: P, to_right: P, offset: u32, span: u32 },
}

/// Why an authoring call was refused; the store is left as it was.
#[derive(Clone, Copy, Debug, PartialEq, Eq, Structural)]
pub enum KeyframeError {
    /// The channel index does not name an existing channel.
    OutOfRange,
    /// The channel holds no keypoint at the given frame.
    NotFound,
}

/// Frames strictly increase along the channel.
pub open spec fn sorted_frames<P>(ch: Seq<Keypoint<P>>) -> bool {
    forall|i: int, j: int| 0 <= i < j < ch.len() ==> ch[i].frame < ch[j].frame
}

pub open spec fn channel_valid<P>(ch: Seq<Keypoint<P>>) -> bool {
    ch.len() > 0 && sorted_frames(ch)
}

pub open spec fn channels_valid<P>(chs: Seq<Seq<Keypoint<P>>>) -> bool {
    forall|c: int| 0 <= c < chs.len() ==> #[trigger] channel_valid(chs[c])
}

/// The number of leading keypoints whose frame lies before `frame`: on a
/// sorted channel, the index of the first keypoint at or after `frame`.
pub open spec fn insertion_index<P>(ch: Seq<Keypoint<P>>, frame: u32) -> int
    decreases ch.len(),
{
    if ch.len() == 0 || ch[0].frame >= frame {
        0
    } else {
        1 + insertion_index(ch.drop_first(), frame)
    }
}

/// The channel holds a keypoint at `frame`.
pub open spec fn has_frame<P>(ch: Seq<Keypoint<P>>, frame: u32) -> bool {
    exists|i: int| 0 <= i < ch.len() && #[trigger] ch[i].frame == frame
}

pub open spec fn exact_of<P>(k: Keypoint<P>) -> Sample<P> {
    Sample::Exact { left: k.left, right: k.right }
}

/// The value of a non-empty channel at `frame`: a stored pair at its own
/// frame, the first pair before the first key, the last pair after the last
/// key, and otherwise the blend of the two keys around `frame`.
pub open spec fn sample_at<P>(ch: Seq<Keypoint<P>>, frame: u32) -> Sample<P> {
    let i = insertion_index(ch, frame);
    if i < ch.len() && ch[i].frame == frame {
        exact_of(ch[i])
    } else if i == 0 {
        exact_of(ch[0])
    } else if i >= ch.len() {
        exact_of(ch.last())
    } else {
        Sample::Between {
            from_left: ch[i - 1].left,
            from_right: ch[i - 1].right,
            to_left: ch[i].left,
            to_right: ch[i].right,
            offset: (frame - ch[i - 1].frame) as u32,
            span: (ch[i].frame - ch[i - 1].frame) as u32,
        }
    }
}

/// The channel after setting `key`: the keypoint at its frame is replaced,
/// or `key` is inserted where the frame order puts it.
pub open spec fn with_key<P>(ch: Seq<Keypoint<P>>, key: Keypoint<P>) -> Seq<Keypoint<P>> {
    let i = insertion_index(ch, key.frame);
    if i < ch.len() && ch[i].frame == key.frame {
        ch.update(i, key)
    } else {
        ch.insert(i, key)
    }
}

/// The channels after clearing `frame` of channel `c` (or the whole channel
/// when no frame is given); a channel left empty is removed.
pub open spec fn cleared<P>(chs: Seq<Seq<Keypoint<P>>>, frame: Option<u32>, c: int) -> Seq<
    Seq<Keypoint<P>>,
> {
    match frame {
        None => chs.remove(c),
        Some(f) => {
            let rest = chs[c].remove(insertion_index(chs[c], f));
            if rest.len() == 0 {
                chs.remove(c)
            } else {
                chs.update(c, rest)
            }
        },
    }
}

/// A channel's keys split at `i`: before it the frames lie below `frame`,
/// from it on they do not.
proof fn lemma_insertion_index_at<P>(ch: Seq<Keypoint<P>>, frame: u32, i: int)
    requires
        0 <= i <= ch.len(),
        forall|j: int| 0 <= j < i ==> #[trigger] ch[j].frame < frame,
        forall|j: int| i <= j < ch.len() ==> #[trigger] ch[j].frame >= frame,
    ensures
        insertion_index(ch, frame) == i,
    decreases ch.len(),
{
    if ch.len() > 0 && i > 0 {
        let rest = ch.drop_first();
        assert forall|j: int| 0 <= j < i - 1 implies #[trigger] rest[j].frame < frame by {
            assert(rest[j] == ch[j + 1]);
        }
        assert forall|j: int| i - 1 <= j < rest.len() implies #[trigger] rest[j].frame >= frame by {
            assert(rest[j] == ch[j + 1]);
        }
        lemma_insertion_index_at(rest, frame, i - 1);
    }
}

/// On a sorted channel the insertion index of a stored frame is its position.
proof fn lemma_insertion_index_of_key<P>(ch: Seq<Keypoint<P>>, k: int)
    requires
        sorted_frames(ch),
        0 <= k < ch.len(),
    ensures
        insertion_index(ch, ch[k].frame) == k,
{
    lemma_insertion_index_at(ch, ch[k].frame, k);
}

/// On a sorted channel the insertion index splits the frames.
proof fn lemma_insertion_index_splits<P>(ch: Seq<Keypoint<P>>, frame: u32)
    requires
        sorted_frames(ch),
    ensures
        0 <= insertion_index(ch, frame) <= ch.len(),
        forall|j: int| 0 <= j < insertion_index(ch, frame) ==> #[trigger] ch[j].frame < frame,
        forall|j: int|
            insertion_index(ch, frame) <= j < ch.len() ==> #[trigger] ch[j].frame >= frame,
    decreases ch.len(),
{
    if ch.len() > 0 && ch[0].frame < frame {
        let rest = ch.drop_first();
        assert forall|i: int, j: int| 0 <= i < j < rest.len() implies rest[i].frame
            < rest[j].frame by {
            assert(rest[i] == ch[i + 1] && rest[j] == ch[j + 1]);
        }
        lemma_insertion_index_splits(rest, frame);
        assert forall|j: int| 1 <= j < ch.len() implies ch[j] == #[trigger] rest[j - 1] by {}
        assert forall|j: int| 0 <= j < insertion_index(ch, frame) implies #[trigger] ch[j].frame
            < frame by {
            if j > 0 {
                assert(ch[j] == rest[j - 1]);
            }
        }
        assert forall|j: int| insertion_index(ch, frame) <= j < ch.len() implies #[trigger] ch[
            j].frame >= frame by {
            assert(ch[j] == rest[j - 1]);
        }
    } else if ch.len() > 0 {
        assert forall|j: int| 0 <= j < ch.len() implies #[trigger] ch[j].frame >= frame by {
            if j > 0 {
                assert(ch[0].frame < ch[j].frame);
            }
        }
    }
}

/// On a sorted channel, a frame is stored exactly where its insertion index
/// points at it.
proof fn lemma_has_frame_at_index<P>(ch: Seq<Keypoint<P>>, frame: u32)
    requires
        sorted_frames(ch),
    ensures
        has_frame(ch, frame) <==> (insertion_index(ch, frame) < ch.len() && ch[insertion_index(
            ch,
            frame,
        )].frame == frame),
{
    lemma_insertion_index_splits(ch, frame);
    if has_frame(ch, frame) {
        let k = choose|k: int| 0 <= k < ch.len() && #[trigger] ch[k].frame == frame;
        lemma_insertion_index_of_key(ch, k);
    }
    if insertion_index(ch, frame) < ch.len() && ch[insertion_index(ch, frame)].frame == frame {
        assert(ch[insertion_index(ch, frame)].frame == frame);
    }
}

/// Setting a key keeps a channel sorted and non-empty.
proof fn lemma_with_key_valid<P>(ch: Seq<Keypoint<P>>, key: Keypoint<P>)
    requires
        sorted_frames(ch),
    ensures
        channel_valid(with_key(ch, key)),
{
    lemma_insertion_index_splits(ch, key.frame);
    let i = insertion_index(ch, key.frame);
    let r = with_key(ch, key);
    if !(i < ch.len() && ch[i].frame == key.frame) {
        assert forall|a: int, b: int| 0 <= a < b < r.len() implies r[a].frame < r[b].frame by {
            if b < i {
            } else if b == i {
            } else if a < i {
                assert(r[b] == ch[b - 1]);
            } else if a == i {
                assert(r[b] == ch[b - 1]);
                assert(ch[i].frame >= key.frame);
                if b - 1 > i {
                    assert(ch[i].frame < ch[b - 1].frame);
                }
            } else {
                assert(r[a] == ch[a - 1] && r[b] == ch[b - 1]);
            }
        }
    }
}

/// Removing a key keeps a channel sorted.
proof fn lemma_remove_sorted<P>(ch: Seq<Keypoint<P>>, i: int)
    requires
        sorted_frames(ch),
        0 <= i < ch.len(),
    ensures
        sorted_frames(ch.remove(i)),
{
    let r = ch.remove(i);
    assert forall|a: int, b: int| 0 <= a < b < r.len() implies r[a].frame < r[b].frame by {
        if a < i {
            if b >= i {
                assert(r[b] == ch[b + 1]);
            }
        } else {
            assert(r[a] == ch[a + 1] && r[b] == ch[b + 1]);
        }
    }
}

/// A keyframe store: an ordered sequence of channels. The channel index is
/// the identity of a landmark in both images.
pub struct Animation<P> {
    channels: Vec<Vec<Keypoint<P>>>,
}

impl<P> View for Animation<P> {
    type V = Seq<Seq<Keypoint<P>>>;

    closed spec fn view(&self) -> Seq<Seq<Keypoint<P>>> {
        Seq::new(self.channels@.len(), |c: int| self.channels@[c]@)
    }
}

/// The first index of a sorted channel whose frame is at or after `frame`
/// (the channel's length where there is none).
fn search_frame<P>(keys: &Vec<Keypoint<P>>, frame: u32) -> (r: usize)
    requires
        sorted_frames(keys@),
    ensures
        r == insertion_index(keys@, frame),
{
    let mut lo: usize = 0;
    let mut hi: usize = keys.len();
    while lo < hi
        invariant
            lo <= hi <= keys@.len(),
            sorted_frames(keys@),
            forall|j: int| 0 <= j < lo ==> #[trigger] keys@[j].frame < frame,
            forall|j: int| hi <= j < keys@.len() ==> #[trigger] keys@[j].frame >= frame,
        decreases hi - lo,
    {
        let mid = lo + (hi - lo) / 2;
        if keys[mid].frame < frame {
            assert forall|j: int| 0 <= j < mid + 1 implies #[trigger] keys@[j].frame < frame by {
                if j < mid {
                    assert(keys@[j].frame < keys@[mid as int].frame);
                }
            }
            lo = mid + 1;
        } else {
            assert forall|j: int| mid <= j < keys@.len() implies #[trigger] keys@[j].frame
                >= frame by {
                if j > mid {
                    assert(keys@[mid as int].frame < keys@[j].frame);
                }
            }
            hi = mid;
        }
    }
    proof {
        lemma_insertion_index_at(keys@, frame, lo as int);
    }
    lo
}

impl<P: Copy> Animation<P> {
    /// Channels are non-empty and sorted by frame.
    pub open spec fn valid(&self) -> bool {
        channels_valid(self@)
    }

    pub fn new() -> (r: Self)
        ensures
            r@ == Seq::<Seq<Keypoint<P>>>::empty(),
            r.valid(),
    {
        let r = Animation { channels: Vec::new() };
        assert(r@ =~= Seq::<Seq<Keypoint<P>>>::empty());
        r
    }

    /// The index of the first keyframe of `channel` at or after `frame`.
    fn get_nearest_keyframe_idx(&self, frame: u32, channel: usize) -> (r: usize)
        requires
            self.valid(),
            channel < self@.len(),
        ensures
            r == insertion_index(self@[channel as int], frame),
    {
        proof {
            assert(channel_valid(self@[channel as int]));
        }
        search_frame(&self.channels[channel], frame)
    }

    /// The value of `channel` at `frame`, clamped to the first and last keys.
    fn interpolate_point(&self, frame: u32, channel: usize) -> (r: Sample<P>)
        requires
            self.valid(),
            channel < self@.len(),
        ensures
            r == sample_at(self@[channel as int], frame),
            r is Between ==> 0 < r->offset < r->span,
    {
        let ghost ch = self@[channel as int];
        proof {
            assert(channel_valid(ch));
            lemma_insertion_index_splits(ch, frame);
        }
        let keys = &self.channels[channel];
        assert(keys@ == ch);
        let next_idx = self.get_nearest_keyframe_idx(frame, channel);
        if next_idx < keys.len() && keys[next_idx].frame == frame {
            Sample::Exact { left: keys[next_idx].left, right: keys[next_idx].right }
        } else if next_idx == 0 {
            Sample::Exact { left: keys[0].left, right: keys[0].right }
        } else if next_idx == keys.len() {
            let last = keys.len() - 1;
            Sample::Exact { left: keys[last].left, right: keys[last].right }
        } else {
            let prev = &keys[next_idx - 1];
            let next = &keys[next_idx];
            Sample::Between {
                from_left: prev.left,
                from_right: prev.right,
                to_left: next.left,
                to_right: next.right,
                offset: frame - prev.frame,
                span: next.frame - prev.frame,
            }
        }
    }

    /// Stores the point pair `(left, right)` at `frame`.
    ///
    /// Without a channel a new channel is made at the end, holding just this
    /// key. With a channel the key at `frame` is replaced, or a key is inserted
    /// in frame order. Returns the channel's index; a channel index that names
    /// no channel is refused and nothing changes.
    pub fn set_point(&mut self, left: P, right: P, frame: u32, channel_idx: Option<usize>) -> (r:
        Result<usize, KeyframeError>)
        requires
            old(self).valid(),
        ensures
            final(self).valid(),
            match channel_idx {
                None => r == Ok::<usize, KeyframeError>(old(self)@.len() as usize) && final(self)@
                    == old(self)@.push(seq![Keypoint { frame, left, right }]),
                Some(c) => if c < old(self)@.len() {
                    r == Ok::<usize, KeyframeError>(c) && final(self)@ == old(self)@.update(
                        c as int,
                        with_key(old(self)@[c as int], Keypoint { frame, left, right }),
                    )
                } else {
                    r == Err::<usize, KeyframeError>(KeyframeError::OutOfRange) && final(self)@
                        == old(self)@
                },
            },
    {
        let key = Keypoint { frame, left, right };
        match channel_idx {
            None => {
                let new_idx = self.channels.len();
                let mut channel: Vec<Keypoint<P>> = Vec::new();
                channel.push(key);
                self.channels.push(channel);
                proof {
                    assert(self@ =~= old(self)@.push(seq![key]));
                    assert forall|c: int| 0 <= c < self@.len() implies #[trigger] channel_valid(
                        self@[c],
                    ) by {
                        if c < old(self)@.len() {
                            assert(channel_valid(old(self)@[c]));
                        }
                    }
                }
                Ok(new_idx)
            },
            Some(c) => {
                if c >= self.channels.len() {
                    return Err(KeyframeError::OutOfRange);
                }
                let ghost ch = self@[c as int];
                proof {
                    assert(channel_valid(ch));
                    lemma_with_key_valid(ch, key);
                    lemma_insertion_index_splits(ch, frame);
                }
                let i = self.get_nearest_keyframe_idx(frame, c);
                if i < self.channels[c].len() && self.channels[c][i].frame == frame {
                    self.channels[c].set(i, key);
                } else {
                    self.channels[c].insert(i, key);
                }
                proof {
                    assert(self.channels@[c as int]@ == with_key(ch, key));
                    assert(self@ =~= old(self)@.update(c as int, with_key(ch, key)));
                    assert forall|j: int| 0 <= j < self@.len() implies #[trigger] channel_valid(
                        self@[j],
                    ) by {
                        if j != c {
                            assert(channel_valid(old(self)@[j]));
                        }
                    }
                }
                Ok(c)
            },
        }
    }

    /// Removes the key at `frame` from channel `channel_idx`, or the whole
    /// channel when no frame is given. A channel left empty is removed, and
    /// the channels after it move down by one. A channel index that names no
    /// channel, or a frame the channel holds no key at, is refused and nothing
    /// changes.
    pub fn clear_point(&mut self, frame: Option<u32>, channel_idx: usize) -> (r: Result<
        (),
        KeyframeError,
    >)
        requires
            old(self).valid(),
        ensures
            final(self).valid(),
            channel_idx >= old(self)@.len() ==> r == Err::<(), KeyframeError>(
                KeyframeError::OutOfRange,
            ),
            channel_idx < old(self)@.len() && frame is Some && !has_frame(
                old(self)@[channel_idx as int],
                frame->0,
            ) ==> r == Err::<(), KeyframeError>(KeyframeError::NotFound),
            channel_idx < old(self)@.len() && (frame is None || has_frame(
                old(self)@[channel_idx as int],
                frame->0,
            )) ==> r == Ok::<(), KeyframeError>(()),
            r is Ok ==> final(self)@ == cleared(old(self)@, frame, channel_idx as int),
            r is Err ==> final(self)@ == old(self)@,
    {
        if channel_idx >= self.channels.len() {
            return Err(KeyframeError::OutOfRange);
        }
        let ghost chs = self@;
        proof {
            assert forall|j: int| 0 <= j < chs.remove(channel_idx as int).len() implies #[trigger] channel_valid(
                chs.remove(channel_idx as int)[j],
            ) by {
                if j < channel_idx {
                    assert(channel_valid(chs[j]));
                } else {
                    assert(channel_valid(chs[j + 1]));
                }
            }
        }
        match frame {
            None => {
                self.channels.remove(channel_idx);
                assert(self@ =~= chs.remove(channel_idx as int));
                Ok(())
            },
            Some(f) => {
                let ghost ch = chs[channel_idx as int];
                proof {
                    assert(channel_valid(ch));
                    lemma_has_frame_at_index(ch, f);
                }
                let i = self.get_nearest_keyframe_idx(f, channel_idx);
                if i >= self.channels[channel_idx].len() || self.channels[channel_idx][i].frame
                    != f {
                    return Err(KeyframeError::NotFound);
                }
                proof {
                    lemma_remove_sorted(ch, i as int);
                }
                self.channels[channel_idx].remove(i);
                if self.channels[channel_idx].len() == 0 {
                    self.channels.remove(channel_idx);
                    assert(self@ =~= chs.remove(channel_idx as int));
                } else {
                    assert(self@ =~= chs.update(channel_idx as int, ch.remove(i as int)));
                    assert forall|j: int| 0 <= j < self@.len() implies #[trigger] channel_valid(
                        self@[j],
                    ) by {
                        if j != channel_idx {
                            assert(channel_valid(chs[j]));
                        }
                    }
                }
                Ok(())
            },
        }
    }

    /// The value of every channel at `frame`, in channel order.
    pub fn get_points(&self, frame: u32) -> (r: Vec<Sample<P>>)
        requires
            self.valid(),
        ensures
            r@.len() == self@.len(),
            forall|c: int| 0 <= c < self@.len() ==> #[trigger] r@[c] == sample_at(self@[c], frame),
            forall|c: int|
                0 <= c < r@.len() && #[trigger] r@[c] is Between ==> 0 < r@[c]->offset
                    < r@[c]->span,
    {
        let mut points: Vec<Sample<P>> = Vec::new();
        let n = self.channels.len();
        for c in 0..n
            invariant
                n == self@.len(),
                self.valid(),
                points@.len() == c,
                forall|j: int| 0 <= j < c ==> #[trigger] points@[j] == sample_at(self@[j], frame),
                forall|j: int|
                    0 <= j < c && #[trigger] points@[j] is Between ==> 0 < points@[j]->offset
                        < points@[j]->span,
        {
            let s = self.interpolate_point(frame, c);
            points.push(s);
        }
        points
    }

    /// The number of channels.
    pub fn get_num_channels(&self) -> (r: usize)
        ensures
            r == self@.len(),
    {
        self.channels.len()
    }
}

/// At the frame of a stored key, a channel's value is that key's pair,
/// unchanged.
pub proof fn lemma_exact_at_keyframes<P: Copy>(anim: Animation<P>, c: int, k: int)
    requires
        anim.valid(),
        0 <= c < anim@.len(),
        0 <= k < anim@[c].len(),
    ensures
        sample_at(anim@[c], anim@[c][k].frame) == (Sample::Exact {
            left: anim@[c][k].left,
            right: anim@[c][k].right,
        }),
{
    assert(channel_valid(anim@[c]));
    lemma_insertion_index_of_key(anim@[c], k);
}

/// Before the first key of a channel its value is the first key's pair, and
/// after the last key it is the last key's pair, each unchanged.
pub proof fn lemma_clamped_outside_keys<P: Copy>(anim: Animation<P>, c: int, frame: u32)
    requires
        anim.valid(),
        0 <= c < anim@.len(),
    ensures
        frame < anim@[c].first().frame ==> sample_at(anim@[c], frame) == (Sample::Exact {
            left: anim@[c].first().left,
            right: anim@[c].first().right,
        }),
        frame > anim@[c].last().frame ==> sample_at(anim@[c], frame) == (Sample::Exact {
            left: anim@[c].last().left,
            right: anim@[c].last().right,
        }),
{
    let ch = anim@[c];
    assert(channel_valid(ch));
    lemma_insertion_index_splits(ch, frame);
    if frame > ch.last().frame {
        assert forall|j: int| 0 <= j < ch.len() implies #[trigger] ch[j].frame < frame by {
            if j < ch.len() - 1 {
                assert(ch[j].frame < ch[ch.len() - 1].frame);
            }
        }
        lemma_insertion_index_at(ch, frame, ch.len() as int);
    }
}

/// Between two neighbouring keys at frames `f0 < f1` with pairs `p0`, `p1`,
/// the value at `f` is `p0` at `f0`, `p1` at `f1`, and in between the blend
/// `(f - f0) / (f1 - f0)` of the way from `p0` to `p1`.
pub proof fn lemma_linear_between_keys<P: Copy>(anim: Animation<P>, c: int, k: int, frame: u32)
    requires
        anim.valid(),
        0 <= c < anim@.len(),
        0 <= k,
        k + 1 < anim@[c].len(),
        anim@[c][k].frame <= frame <= anim@[c][k + 1].frame,
    ensures
        frame == anim@[c][k].frame ==> sample_at(anim@[c], frame) == (Sample::Exact {
            left: anim@[c][k].left,
            right: anim@[c][k].right,
        }),
        frame == anim@[c][k + 1].frame ==> sample_at(anim@[c], frame) == (Sample::Exact {
            left: anim@[c][k + 1].left,
            right: anim@[c][k + 1].right,
        }),
        anim@[c][k].frame < frame < anim@[c][k + 1].frame ==> sample_at(anim@[c], frame) == (
        Sample::Between {
            from_left: anim@[c][k].left,
            from_right: anim@[c][k].right,
            to_left: anim@[c][k + 1].left,
            to_right: anim@[c][k + 1].right,
            offset: (frame - anim@[c][k].frame) as u32,
            span: (anim@[c][k + 1].frame - anim@[c][k].frame) as u32,
        }),
{
    let ch = anim@[c];
    assert(channel_valid(ch));
    if frame == ch[k].frame {
        lemma_insertion_index_of_key(ch, k);
    } else if frame == ch[k + 1].frame {
        lemma_insertion_index_of_key(ch, k + 1);
    } else {
        assert forall|j: int| 0 <= j < k + 1 implies #[trigger] ch[j].frame < frame by {
            if j < k {
                assert(ch[j].frame < ch[k].frame);
            }
        }
        assert forall|j: int| k + 1 <= j < ch.len() implies #[trigger] ch[j].frame >= frame by {
            if j > k + 1 {
                assert(ch[k + 1].frame < ch[j].frame);
            }
        }
        lemma_insertion_index_at(ch, frame, k + 1);
    }
}

/// Between two neighbouring keys the blend moves strictly forward with the
/// frame: a later frame lies further from the first key, over the same span.
pub proof fn lemma_blend_monotonic<P: Copy>(anim: Animation<P>, c: int, k: int, f: u32, g: u32)
    requires
        anim.valid(),
        0 <= c < anim@.len(),
        0 <= k,
        k + 1 < anim@[c].len(),
        anim@[c][k].frame < f < g < anim@[c][k + 1].frame,
    ensures
        sample_at(anim@[c], f) is Between,
        sample_at(anim@[c], g) is Between,
        sample_at(anim@[c], f)->offset < sample_at(anim@[c], g)->offset,
        sample_at(anim@[c], f)->span == sample_at(anim@[c], g)->span,
        0 < sample_at(anim@[c], f)->offset,
        sample_at(anim@[c], g)->offset < sample_at(anim@[c], g)->span,
{
    lemma_linear_between_keys(anim, c, k, f);
    lemma_linear_between_keys(anim, c, k, g);
}

/// Removing channel `c` of `n` keeps the other `n - 1` channels in their
/// order at indices `0..n-1`, whether the whole channel is cleared or its
/// only key is.
pub proof fn lemma_channel_compaction<P: Copy>(anim: Animation<P>, c: int)
    requires
        anim.valid(),
        0 <= c < anim@.len(),
    ensures
        cleared(anim@, None, c).len() == anim@.len() - 1,
        forall|j: int| 0 <= j < c ==> #[trigger] cleared(anim@, None, c)[j] == anim@[j],
        forall|j: int|
            c <= j < anim@.len() - 1 ==> #[trigger] cleared(anim@, None, c)[j] == anim@[j + 1],
        channels_valid(cleared(anim@, None, c)),
        anim@[c].len() == 1 ==> cleared(anim@, Some(anim@[c][0].frame), c) == cleared(
            anim@,
            None,
            c,
        ),
{
    let after = cleared(anim@, None, c);
    assert forall|j: int| 0 <= j < after.len() implies #[trigger] channel_valid(after[j]) by {
        if j < c {
            assert(channel_valid(anim@[j]));
        } else {
            assert(channel_valid(anim@[j + 1]));
        }
    }
    if anim@[c].len() == 1 {
        assert(insertion_index(anim@[c], anim@[c][0].frame) == 0);
        assert(anim@[c].remove(0).len() == 0);
    }
}

/// Setting the same key a second time changes nothing further.
pub proof fn lemma_set_point_idempotent<P>(ch: Seq<Keypoint<P>>, key: Keypoint<P>)
    requires
        sorted_frames(ch),
    ensures
        with_key(with_key(ch, key), key) == with_key(ch, key),
{
    let i = insertion_index(ch, key.frame);
    let r = with_key(ch, key);
    lemma_insertion_index_splits(ch, key.frame);
    lemma_with_key_valid(ch, key);
    assert(r[i] == key);
    lemma_insertion_index_of_key(r, i);
    assert(with_key(r, key) =~= r);
}

/// After a key is set, the channel's value at its frame is the key's pair.
pub proof fn lemma_set_then_get<P>(ch: Seq<Keypoint<P>>, key: Keypoint<P>)
    requires
        sorted_frames(ch),
    ensures
        sample_at(with_key(ch, key), key.frame) == (Sample::Exact { left: key.left, right: key.right }),
{
    let i = insertion_index(ch, key.frame);
    lemma_insertion_index_splits(ch, key.frame);
    lemma_with_key_valid(ch, key);
    assert(with_key(ch, key)[i] == key);
    lemma_insertion_index_of_key(with_key(ch, key), i);
}

} // verus!
