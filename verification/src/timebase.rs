use vstd::prelude::*;

verus! {

/// The logical start index of the visible window over a buffer of
/// `buffer_len` samples, when `visible` samples fit on screen and the
/// horizontal position scrolls `offset_samples` samples back from the newest:
/// the newest `visible` samples shifted back by the offset, kept inside the
/// buffer; 0 when everything fits.
pub open spec fn window_start_spec(buffer_len: int, visible: int, offset_samples: int) -> int {
    if buffer_len <= visible {
        0
    } else {
        let start = buffer_len - visible - offset_samples;
        let clamped = if start < 0 {
            0
        } else {
            start
        };
        if clamped < buffer_len - visible {
            clamped
        } else {
            buffer_len - visible
        }
    }
}

/// Start index of the visible window (see [`window_start_spec`]).
pub fn window_start(buffer_len: usize, visible: usize, offset_samples: isize) -> (r: usize)
    requires
        buffer_len <= visible || (buffer_len <= isize::MAX && isize::MIN <= buffer_len - visible
            - offset_samples <= isize::MAX),
    ensures
        r == window_start_spec(buffer_len as int, visible as int, offset_samples as int),
        buffer_len <= visible ==> r == 0,
        buffer_len > visible ==> r == vstd::math::min(
            vstd::math::max(buffer_len - visible - offset_samples, 0),
            buffer_len - visible,
        ),
        buffer_len > visible && offset_samples == 0 ==> r + visible == buffer_len,
{
    proof {
        lemma_window_shows_newest(buffer_len as int, visible as int, offset_samples as int);
    }
    if buffer_len <= visible {
        return 0;
    }
    let end: usize = buffer_len;
    let start_signed: isize = end as isize - visible as isize - offset_samples;
    let start: usize = if start_signed > 0 {
        start_signed as usize
    } else {
        0
    };
    let limit: usize = buffer_len - visible;
    if start < limit {
        start
    } else {
        limit
    }
}

/// The visible window over a buffer of `buffer_len` samples: its start and
/// the number of samples shown, which is `visible` or what is left of the
/// buffer after the start, whichever is less.
pub fn visible_window(buffer_len: usize, visible: usize, offset_samples: isize) -> (r: (usize, usize))
    requires
        buffer_len <= visible || (buffer_len <= isize::MAX && isize::MIN <= buffer_len - visible
            - offset_samples <= isize::MAX),
    ensures
        r.0 == window_start_spec(buffer_len as int, visible as int, offset_samples as int),
        r.1 == (if visible < buffer_len - r.0 {
            visible as int
        } else {
            buffer_len - r.0
        }),
        buffer_len <= visible ==> r == (0usize, buffer_len),
        buffer_len > visible ==> r.0 == vstd::math::min(
            vstd::math::max(buffer_len - visible - offset_samples, 0),
            buffer_len - visible,
        ) && r.1 == visible,
        offset_samples == 0 ==> r.0 + r.1 == buffer_len,
{
    let start = window_start(buffer_len, visible, offset_samples);
    let rest: usize = buffer_len - start;
    let count: usize = if visible < rest {
        visible
    } else {
        rest
    };
    (start, count)
}

/// Where the window starts, in terms of the inputs: at 0 when the whole
/// buffer fits on screen; otherwise `visible` samples before the newest,
/// moved back by the scroll offset and clamped to `0..=buffer_len - visible`.
/// Without scrolling, the window ends at the newest sample.
pub proof fn lemma_window_shows_newest(buffer_len: int, visible: int, offset_samples: int)
    ensures
        buffer_len <= visible ==> window_start_spec(buffer_len, visible, offset_samples) == 0,
        buffer_len > visible ==> window_start_spec(buffer_len, visible, offset_samples)
            == vstd::math::min(
            vstd::math::max(buffer_len - visible - offset_samples, 0),
            buffer_len - visible,
        ),
        buffer_len > visible && offset_samples == 0 ==> window_start_spec(
            buffer_len,
            visible,
            offset_samples,
        ) + visible == buffer_len,
        buffer_len > visible && 0 <= offset_samples <= buffer_len - visible ==> window_start_spec(
            buffer_len,
            visible,
            offset_samples,
        ) + visible + offset_samples == buffer_len,
{
}

/// The window always lies inside the buffer and shows as many samples as fit
/// on screen or as the buffer holds, whichever is less.
pub proof fn lemma_window_inside_buffer(buffer_len: int, visible: int, offset_samples: int)
    requires
        0 <= buffer_len,
        0 <= visible,
    ensures
        ({
            let start = window_start_spec(buffer_len, visible, offset_samples);
            let count = if visible < buffer_len - start {
                visible
            } else {
                buffer_len - start
            };
            &&& 0 <= start <= buffer_len
            &&& start + count <= buffer_len
            &&& count == (if visible < buffer_len {
                visible
            } else {
                buffer_len
            })
        }),
{
}

} // verus!
