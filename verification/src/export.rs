use vstd::prelude::*;

use crate::text::push_char;

verus! {

/// Points a plot exported as Typst has room for per trace. The downsampling
/// stride is the window length divided by this (at least 1), so a trace gets
/// fewer than twice this many points (up to 999 for a window of 999 samples).
pub const TYPST_MAX_POINTS: usize = 500;

/// The stride for drawing at most about `max_points` of `count` samples:
/// `count / max_points`, but at least 1.
pub open spec fn downsample_step(count: int, max_points: int) -> int {
    if count / max_points > 1 {
        count / max_points
    } else {
        1
    }
}

/// The offsets, within a window of `count` samples, of the samples a plot
/// draws when it has room for about `max_points`: every `step`-th sample from
/// the first, where `step` is [`downsample_step`].
pub fn plot_offsets(count: usize, max_points: usize) -> (r: Vec<usize>)
    requires
        max_points > 0,
    ensures
        ({
            let step = downsample_step(count as int, max_points as int);
            &&& forall|k: int| 0 <= k < r@.len() ==> #[trigger] r@[k] == k * step
            &&& forall|k: int| 0 <= k < r@.len() ==> #[trigger] r@[k] < count
            &&& r@.len() * step >= count
        }),
        r@.len() <= count,
        r@.len() < 2 * max_points,
{
    let q: usize = count / max_points;
    let step: usize = if q > 1 {
        q
    } else {
        1
    };
    let mut r: Vec<usize> = Vec::new();
    let mut idx: usize = 0;
    proof {
        assert(r@.len() * step == 0) by (nonlinear_arith)
            requires
                r@.len() == 0,
        ;
    }
    while idx < count
        invariant
            step == downsample_step(count as int, max_points as int),
            step >= 1,
            max_points > 0,
            idx == r@.len() * step,
            r@.len() > 0 ==> (r@.len() - 1) * step < count,
            forall|k: int| 0 <= k < r@.len() ==> #[trigger] r@[k] == k * step,
            forall|k: int| 0 <= k < r@.len() ==> #[trigger] r@[k] < count,
        decreases count - idx,
    {
        r.push(idx);
        proof {
            assert(r@.len() * step == (r@.len() - 1) * step + step) by (nonlinear_arith);
        }
        if count - idx <= step {
            proof {
                assert(r@.len() * step >= count);
                assert((r@.len() - 1) * step < count);
                lemma_plot_offsets_bounded(count as int, max_points as int, r@.len() as int);
            }
            return r;
        }
        idx += step;
    }
    proof {
        lemma_plot_offsets_bounded(count as int, max_points as int, r@.len() as int);
    }
    r
}

/// The header line of a CSV export: `time`, then a comma and the label of
/// each exported channel, then a line break.
pub open spec fn csv_header_spec(labels: Seq<Seq<char>>) -> Seq<char>
    decreases labels.len(),
{
    if labels.len() == 0 {
        seq!['t', 'i', 'm', 'e', '\n']
    } else {
        csv_header_spec(labels.drop_last()).drop_last() + seq![','] + labels.last() + seq!['\n']
    }
}

/// The header line in terms of the labels: `time`, then for each label in
/// order a comma followed by the label, then a line break.
pub proof fn lemma_csv_header_layout(labels: Seq<Seq<char>>)
    ensures
        csv_header_spec(labels) == seq!['t', 'i', 'm', 'e'] + labels.map_values(
            |l: Seq<char>| seq![','] + l,
        ).flatten() + seq!['\n'],
    decreases labels.len(),
{
    let f = labels.map_values(|l: Seq<char>| seq![','] + l);
    f.lemma_flatten_and_flatten_alt_are_equivalent();
    if labels.len() == 0 {
        assert(f =~= Seq::<Seq<char>>::empty());
        assert(seq!['t', 'i', 'm', 'e'] + f.flatten() + seq!['\n'] =~= seq!['t', 'i', 'm', 'e', '\n']);
    } else {
        let p = labels.drop_last();
        let fp = p.map_values(|l: Seq<char>| seq![','] + l);
        lemma_csv_header_layout(p);
        fp.lemma_flatten_and_flatten_alt_are_equivalent();
        assert(f.drop_last() =~= fp);
        assert(f.last() == seq![','] + labels.last());
        assert(f.flatten_alt() == fp.flatten_alt() + f.last());
        let prev = seq!['t', 'i', 'm', 'e'] + fp.flatten() + seq!['\n'];
        assert(prev.drop_last() =~= seq!['t', 'i', 'm', 'e'] + fp.flatten());
        assert(csv_header_spec(labels) =~= seq!['t', 'i', 'm', 'e'] + f.flatten() + seq!['\n']);
    }
}

/// Builds the CSV header line for channels with the given labels.
pub fn csv_header(labels: &Vec<String>) -> (r: String)
    ensures
        r@ == csv_header_spec(labels@.map_values(|l: String| l@)),
        r@ == seq!['t', 'i', 'm', 'e'] + labels@.map_values(|l: String| seq![','] + l@).flatten()
            + seq!['\n'],
{
    let ghost ls = labels@.map_values(|l: String| l@);
    proof {
        reveal_strlit("time");
    }
    let mut out = String::from_str("time");
    let mut i: usize = 0;
    proof {
        assert(ls.subrange(0, 0) =~= Seq::<Seq<char>>::empty());
        assert(out@.push('\n') =~= csv_header_spec(ls.subrange(0, 0)));
    }
    while i < labels.len()
        invariant
            i <= labels@.len(),
            ls == labels@.map_values(|l: String| l@),
            out@.push('\n') == csv_header_spec(ls.subrange(0, i as int)),
        decreases labels@.len() - i,
    {
        let ghost before = out@;
        push_char(&mut out, ',');
        out.append(labels[i].as_str());
        proof {
            let s = ls.subrange(0, i + 1);
            assert(s.drop_last() =~= ls.subrange(0, i as int));
            assert(s.last() == labels@[i as int]@);
            assert(csv_header_spec(s.drop_last()).drop_last() =~= before);
            assert(out@.push('\n') =~= csv_header_spec(s));
        }
        i += 1;
    }
    push_char(&mut out, '\n');
    proof {
        assert(ls.subrange(0, labels@.len() as int) =~= ls);
        lemma_csv_header_layout(ls);
        assert(ls.map_values(|l: Seq<char>| seq![','] + l) =~= labels@.map_values(
            |l: String| seq![','] + l@,
        ));
    }
    out
}

/// Colour names for traces in a Typst export, one per channel in turn.
pub open spec fn trace_color_spec(index: int) -> Seq<char> {
    if index % 4 == 0 {
        seq!['g', 'r', 'e', 'e', 'n']
    } else if index % 4 == 1 {
        seq!['y', 'e', 'l', 'l', 'o', 'w']
    } else if index % 4 == 2 {
        seq!['c', 'y', 'a', 'n']
    } else {
        seq!['m', 'a', 'g', 'e', 'n', 't', 'a']
    }
}

/// The Typst colour name of the trace of channel `index`.
pub fn trace_color(index: usize) -> (r: String)
    ensures
        r@ == trace_color_spec(index as int),
{
    let i: usize = index % 4;
    if i == 0 {
        proof {
            reveal_strlit("green");
        }
        String::from_str("green")
    } else if i == 1 {
        proof {
            reveal_strlit("yellow");
        }
        String::from_str("yellow")
    } else if i == 2 {
        proof {
            reveal_strlit("cyan");
        }
        String::from_str("cyan")
    } else {
        proof {
            reveal_strlit("magenta");
        }
        String::from_str("magenta")
    }
}

/// A downsampled plot never draws more samples than the window holds, and
/// fewer than twice the points it has room for.
pub proof fn lemma_plot_offsets_bounded(count: int, max_points: int, len: int)
    requires
        count >= 0,
        max_points > 0,
        len >= 0,
        len * downsample_step(count, max_points) >= count,
        len == 0 || (len - 1) * downsample_step(count, max_points) < count,
    ensures
        len <= count,
        len < 2 * max_points,
{
    let step = downsample_step(count, max_points);
    if len > 0 {
        assert((len - 1) * step >= len - 1) by (nonlinear_arith)
            requires
                step >= 1,
                len >= 1,
        ;
        if step == 1 {
            assert(count / max_points <= 1);
            assert(count < 2 * max_points) by (nonlinear_arith)
                requires
                    count / max_points <= 1,
                    max_points > 0,
                    count >= 0,
            ;
        } else {
            assert(len < 2 * max_points) by (nonlinear_arith)
                requires
                    step == count / max_points,
                    step >= 2,
                    max_points > 0,
                    count >= 0,
                    (len - 1) * step < count,
            ;
        }
    }
}

} // verus!
