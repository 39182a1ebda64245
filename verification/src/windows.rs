//! The overlapping windows into which a long message is cut for embedding.

use vstd::prelude::*;
use vstd::string::*;

use crate::text::{self, chars_of, is_blank, string_of};

verus! {

/// Messages of up to this many characters are embedded whole.
pub const WINDOW: usize = 240;

/// How far the start of a window lies behind that of the one before.
pub const STRIDE: usize = 200;

/// The windows of a text of `len` characters, from `start` on.
pub open spec fn windows_from(start: int, len: int) -> Seq<(int, int)>
    decreases len - start,
{
    if start >= len {
        seq![]
    } else if start + 240 >= len {
        seq![(start, len)]
    } else {
        seq![(start, start + 240)] + windows_from(start + 200, len)
    }
}

/// The windows of a text of `len` characters.
pub open spec fn windows(len: int) -> Seq<(int, int)> {
    windows_from(0, len)
}

/// Every window starts one stride after the one before, and all but the last
/// have the full width; the last ends with the text.
pub proof fn windows_shape(start: int, len: int)
    requires
        0 <= start < len,
    ensures
        windows_from(start, len).len() > 0,
        forall|k: int|
            0 <= k < windows_from(start, len).len() ==> (#[trigger] windows_from(start, len)[k]).0
                == start + 200 * k && windows_from(start, len)[k].1 == (if k
                == windows_from(start, len).len() - 1 {
                len
            } else {
                start + 200 * k + 240
            }) && windows_from(start, len)[k].0 < windows_from(start, len)[k].1 <= len,
    decreases len - start,
{
    let w = windows_from(start, len);
    if start + 240 < len {
        let rest = windows_from(start + 200, len);
        windows_shape(start + 200, len);
        assert forall|k: int| 0 <= k < w.len() implies (#[trigger] w[k]).0 == start + 200 * k
            && w[k].1 == (if k == w.len() - 1 {
            len
        } else {
            start + 200 * k + 240
        }) && w[k].0 < w[k].1 <= len by {
            if k > 0 {
                assert(w[k] == rest[k - 1]);
            }
        }
    }
}

/// The windows leave no gap and no character twice in front of the next window:
/// each one adds characters, and together they add all of them.
pub proof fn windows_cover(len: int)
    requires
        len > 0,
    ensures
        windows(len)[0].0 == 0,
        windows(len).last().1 == len,
        forall|k: int|
            0 < k < windows(len).len() ==> windows(len)[k - 1].0 < (#[trigger] windows(len)[k]).0
                <= windows(len)[k - 1].1 < windows(len)[k].1,
{
    windows_shape(0, len);
    let w = windows(len);
    assert(w[0].0 == 0);
    assert(w[w.len() - 1].1 == len);
    assert forall|k: int| 0 < k < w.len() implies w[k - 1].0 < (#[trigger] w[k]).0 <= w[k - 1].1
        < w[k].1 by {
        assert(w[k - 1].1 == 200 * (k - 1) + 240);
        if k == w.len() - 1 {
            inner_window_ends_early(0, len, k - 1);
        }
    }
}

proof fn inner_window_ends_early(start: int, len: int, k: int)
    requires
        0 <= start < len,
        0 <= k < windows_from(start, len).len() - 1,
    ensures
        windows_from(start, len)[k].1 < len,
    decreases len - start,
{
    if start + 240 < len && k > 0 {
        inner_window_ends_early(start + 200, len, k - 1);
    }
}

pub open spec fn ranges(v: Seq<(usize, usize)>) -> Seq<(int, int)> {
    Seq::new(v.len(), |i: int| (v[i].0 as int, v[i].1 as int))
}

/// Lists the windows of a text.
pub fn window_ranges(len: usize) -> (r: Vec<(usize, usize)>)
    ensures
        ranges(r@) == windows(len as int),
{
    let mut out: Vec<(usize, usize)> = Vec::new();
    let mut start: usize = 0;
    assert(ranges(out@) + windows_from(0, len as int) =~= windows(len as int));
    while start < len
        invariant_except_break
            start <= len,
            ranges(out@) + windows_from(start as int, len as int) == windows(len as int),
        ensures
            ranges(out@) == windows(len as int),
        decreases len - start,
    {
        let ghost before = out@;
        if len - start <= WINDOW {
            out.push((start, len));
            assert(ranges(out@) =~= ranges(before) + windows_from(start as int, len as int));
            break;
        }
        out.push((start, start + WINDOW));
        proof {
            assert(ranges(out@) =~= ranges(before).push((start as int, start + 240)));
            assert(ranges(before) + windows_from(start as int, len as int) =~= ranges(out@)
                + windows_from(start + 200, len as int));
        }
        start = start + STRIDE;
    }
    assert(ranges(out@) =~= windows(len as int));
    out
}

/// The inputs that embed one message: nothing for a blank one, the whole of a
/// short one, the windows of a long one.
pub open spec fn message_inputs(content: Seq<char>) -> Seq<Seq<char>> {
    if text::blank(content) {
        seq![]
    } else if content.len() <= 240 {
        seq![content]
    } else {
        Seq::new(
            windows(content.len() as int).len(),
            |k: int|
                content.subrange(
                    windows(content.len() as int)[k].0,
                    windows(content.len() as int)[k].1,
                ),
        )
    }
}

fn push_message_inputs(content: &str, out: &mut Vec<String>)
    ensures
        text::texts(final(out)@) == text::texts(old(out)@) + message_inputs(content@),
{
    let ghost start = text::texts(out@);
    if is_blank(content) {
        assert(start + message_inputs(content@) =~= start);
        return;
    }
    let chars = chars_of(content);
    if chars.len() <= WINDOW {
        out.push(content.to_owned());
        assert(text::texts(out@) =~= start + message_inputs(content@));
        return;
    }
    let ranges = window_ranges(chars.len());
    let ghost w = windows(content@.len() as int);
    proof {
        windows_shape(0, content@.len() as int);
    }
    let mut k: usize = 0;
    assert(start + message_inputs(content@).take(0) =~= start);
    while k < ranges.len()
        invariant
            k <= ranges@.len(),
            chars@ == content@,
            w == windows(content@.len() as int),
            self::ranges(ranges@) == w,
            forall|i: int|
                0 <= i < w.len() ==> 0 <= (#[trigger] w[i]).0 < w[i].1 <= content@.len(),
            message_inputs(content@).len() == w.len(),
            forall|i: int|
                0 <= i < w.len() ==> #[trigger] message_inputs(content@)[i] == content@.subrange(
                    w[i].0,
                    w[i].1,
                ),
            text::texts(out@) == start + message_inputs(content@).take(k as int),
        decreases ranges.len() - k,
    {
        let ghost before = text::texts(out@);
        let (from, to) = ranges[k];
        assert(w[k as int] == (from as int, to as int));
        out.push(string_of(&chars, from, to));
        proof {
            let piece = message_inputs(content@)[k as int];
            assert(out@.last()@ == piece);
            assert(text::texts(out@) =~= before.push(piece));
            assert((start + message_inputs(content@).take(k as int)).push(piece) =~= start
                + message_inputs(content@).take(k + 1));
        }
        k += 1;
    }
    assert(message_inputs(content@).take(k as int) =~= message_inputs(content@));
}

/// The inputs that embed both messages of a turn.
pub fn turn_leaf_embedding_inputs(user: &str, assistant: &str) -> (r: Vec<String>)
    ensures
        text::texts(r@) == message_inputs(user@) + message_inputs(assistant@),
{
    let mut out: Vec<String> = Vec::new();
    push_message_inputs(user, &mut out);
    push_message_inputs(assistant, &mut out);
    assert(text::texts(out@) =~= message_inputs(user@) + message_inputs(assistant@));
    out
}

proof fn windows_are_short(start: int, len: int)
    ensures
        forall|k: int|
            0 <= k < windows_from(start, len).len() ==> (#[trigger] windows_from(start, len)[k]).1
                - windows_from(start, len)[k].0 <= 240,
    decreases len - start,
{
    if start < len && start + 240 < len {
        windows_are_short(start + 200, len);
        let rest = windows_from(start + 200, len);
        let w = windows_from(start, len);
        assert forall|k: int| 0 <= k < w.len() implies (#[trigger] w[k]).1 - w[k].0 <= 240 by {
            if k > 0 {
                assert(w[k] == rest[k - 1]);
            }
        }
    }
}

proof fn windows_reach(start: int, len: int, p: int)
    requires
        0 <= start <= p < len,
    ensures
        exists|k: int|
            0 <= k < windows_from(start, len).len() && (#[trigger] windows_from(start, len)[k]).0
                <= p < windows_from(start, len)[k].1,
    decreases len - start,
{
    let w = windows_from(start, len);
    if start + 240 >= len {
        assert(w[0].0 <= p < w[0].1);
    } else if p < start + 240 {
        assert(w[0] == (start, start + 240));
    } else {
        windows_reach(start + 200, len, p);
        let rest = windows_from(start + 200, len);
        let k = choose|k: int| 0 <= k < rest.len() && (#[trigger] rest[k]).0 <= p < rest[k].1;
        assert(w[k + 1] == rest[k]);
    }
}

/// A blank message is not embedded; of any other every character stands in some
/// input at its place, no input has more than 240 characters, and a message that
/// has no more is embedded whole.
pub proof fn inputs_hold_the_message(content: Seq<char>, p: int)
    requires
        0 <= p < content.len(),
    ensures
        ({
            let inputs = message_inputs(content);
            &&& inputs.len() == 0 <==> text::blank(content)
            &&& !text::blank(content) && content.len() <= 240 ==> inputs == seq![content]
            &&& forall|k: int| 0 <= k < inputs.len() ==> 0 < (#[trigger] inputs[k]).len() <= 240
            &&& !text::blank(content) ==> exists|k: int, from: int|
                #![trigger inputs[k][p - from]]
                0 <= k < inputs.len() && 0 <= from <= p && p - from < inputs[k].len()
                    && inputs[k][p - from] == content[p]
        }),
{
    let n = content.len() as int;
    let w = windows(n);
    let inputs = message_inputs(content);
    windows_shape(0, n);
    windows_are_short(0, n);
    windows_reach(0, n, p);
    if !text::blank(content) {
        if n <= 240 {
            assert(inputs[0][p - 0] == content[p]);
        } else {
            let k = choose|k: int| 0 <= k < w.len() && (#[trigger] w[k]).0 <= p < w[k].1;
            assert(inputs[k] == content.subrange(w[k].0, w[k].1));
            assert(inputs[k][p - w[k].0] == content[p]);
            assert forall|j: int| 0 <= j < inputs.len() implies 0 < (#[trigger] inputs[j]).len()
                <= 240 by {
                assert(inputs[j] == content.subrange(w[j].0, w[j].1));
            }
        }
    }
}

} // verus!
