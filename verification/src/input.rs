use vstd::prelude::*;

use crate::text::{chars_of, push_char, string_of};

verus! {

/// The Unicode `White_Space` property, which `char::is_whitespace` and
/// `str::trim` go by.
pub open spec fn is_white_space(c: char) -> bool {
    ||| '\u{9}' <= c <= '\u{d}'
    ||| c == ' '
    ||| c == '\u{85}'
    ||| c == '\u{a0}'
    ||| c == '\u{1680}'
    ||| '\u{2000}' <= c <= '\u{200a}'
    ||| c == '\u{2028}'
    ||| c == '\u{2029}'
    ||| c == '\u{202f}'
    ||| c == '\u{205f}'
    ||| c == '\u{3000}'
}

/// `s` without its leading white space.
pub open spec fn trim_start_spec(s: Seq<char>) -> Seq<char>
    decreases s.len(),
{
    if s.len() > 0 && is_white_space(s[0]) {
        trim_start_spec(s.drop_first())
    } else {
        s
    }
}

/// `s` without its trailing white space.
pub open spec fn trim_end_spec(s: Seq<char>) -> Seq<char>
    decreases s.len(),
{
    if s.len() > 0 && is_white_space(s.last()) {
        trim_end_spec(s.drop_last())
    } else {
        s
    }
}

/// `s` without leading and trailing white space.
pub open spec fn trim_spec(s: Seq<char>) -> Seq<char> {
    trim_end_spec(trim_start_spec(s))
}

/// The pieces of `s` between commas, in order: one more than `s` has commas.
pub open spec fn split_commas(s: Seq<char>) -> Seq<Seq<char>>
    decreases s.len(),
{
    if s.len() == 0 {
        seq![Seq::<char>::empty()]
    } else {
        let parts = split_commas(s.drop_last());
        if s.last() == ',' {
            parts.push(Seq::<char>::empty())
        } else {
            parts.update(parts.len() - 1, parts.last().push(s.last()))
        }
    }
}

/// The fields of a CSV line: its comma-separated pieces, each trimmed.
pub open spec fn csv_fields(s: Seq<char>) -> Seq<Seq<char>> {
    split_commas(s).map_values(|p: Seq<char>| trim_spec(p))
}

/// The values kept by a filter-map: the contents of the `Some` entries, in order.
pub open spec fn somes<V>(s: Seq<Option<V>>) -> Seq<V>
    decreases s.len(),
{
    if s.len() == 0 {
        Seq::<V>::empty()
    } else {
        match s.last() {
            Some(v) => somes(s.drop_last()).push(v),
            None => somes(s.drop_last()),
        }
    }
}

/// `char::is_whitespace`.
pub fn is_whitespace(c: char) -> (b: bool)
    ensures
        b == is_white_space(c),
{
    ('\u{9}' <= c && c <= '\u{d}') || c == ' ' || c == '\u{85}' || c == '\u{a0}' || c
        == '\u{1680}' || ('\u{2000}' <= c && c <= '\u{200a}') || c == '\u{2028}' || c
        == '\u{2029}' || c == '\u{202f}' || c == '\u{205f}' || c == '\u{3000}'
}

proof fn lemma_trim_start_skip(s: Seq<char>, a: int)
    requires
        0 <= a <= s.len(),
        forall|k: int| 0 <= k < a ==> is_white_space(#[trigger] s[k]),
        a == s.len() || !is_white_space(s[a]),
    ensures
        trim_start_spec(s) == s.subrange(a, s.len() as int),
    decreases a,
{
    if a > 0 {
        assert forall|k: int| 0 <= k < a - 1 implies is_white_space(#[trigger] s.drop_first()[k]) by {
            assert(s.drop_first()[k] == s[k + 1]);
        }
        lemma_trim_start_skip(s.drop_first(), a - 1);
        assert(s.drop_first().subrange(a - 1, s.len() - 1) =~= s.subrange(a, s.len() as int));
    } else {
        assert(s.subrange(0, s.len() as int) =~= s);
    }
}

proof fn lemma_trim_end_take(s: Seq<char>, b: int)
    requires
        0 <= b <= s.len(),
        forall|k: int| b <= k < s.len() ==> is_white_space(#[trigger] s[k]),
        b == 0 || !is_white_space(s[b - 1]),
    ensures
        trim_end_spec(s) == s.subrange(0, b),
    decreases s.len() - b,
{
    if b < s.len() {
        assert forall|k: int| b <= k < s.len() - 1 implies is_white_space(#[trigger] s.drop_last()[k]) by {
            assert(s.drop_last()[k] == s[k]);
        }
        lemma_trim_end_take(s.drop_last(), b);
        assert(s.drop_last().subrange(0, b) =~= s.subrange(0, b));
    } else {
        assert(s.subrange(0, s.len() as int) =~= s);
    }
}

/// The range `[a, b)` of `cs[from..to]` left after trimming white space.
fn trimmed_range(cs: &Vec<char>, from: usize, to: usize) -> (r: (usize, usize))
    requires
        from <= to <= cs@.len(),
    ensures
        from <= r.0 <= r.1 <= to,
        cs@.subrange(r.0 as int, r.1 as int) == trim_spec(cs@.subrange(from as int, to as int)),
{
    let ghost s = cs@.subrange(from as int, to as int);
    let mut a: usize = from;
    while a < to && is_whitespace(cs[a])
        invariant
            from <= a <= to <= cs@.len(),
            forall|k: int| from <= k < a ==> is_white_space(#[trigger] cs@[k]),
        decreases to - a,
    {
        a += 1;
    }
    proof {
        assert forall|k: int| 0 <= k < a - from implies is_white_space(#[trigger] s[k]) by {
            assert(s[k] == cs@[from + k]);
        }
        lemma_trim_start_skip(s, a - from);
        assert(s.subrange(a - from, s.len() as int) =~= cs@.subrange(a as int, to as int));
    }
    let ghost t = cs@.subrange(a as int, to as int);
    let mut b: usize = to;
    while b > a && is_whitespace(cs[b - 1])
        invariant
            a <= b <= to <= cs@.len(),
            forall|k: int| b <= k < to ==> is_white_space(#[trigger] cs@[k]),
        decreases b,
    {
        b -= 1;
    }
    proof {
        assert forall|k: int| b - a <= k < t.len() implies is_white_space(#[trigger] t[k]) by {
            assert(t[k] == cs@[a + k]);
        }
        lemma_trim_end_take(t, b - a);
        assert(t.subrange(0, b - a) =~= cs@.subrange(a as int, b as int));
    }
    (a, b)
}

/// `s.trim()`: `s` without leading and trailing white space.
pub fn trim(s: &str) -> (r: String)
    ensures
        r@ == trim_spec(s@),
{
    let cs = chars_of(s);
    let (a, b) = trimmed_range(&cs, 0, cs.len());
    proof {
        assert(cs@.subrange(0, cs@.len() as int) =~= cs@);
    }
    string_of(&cs.as_slice()[a..b])
}

/// The fields of a CSV line: the pieces between commas, each trimmed
/// (`line.split(',').map(|s| s.trim())`). There is always at least one.
pub fn split_csv_fields(line: &str) -> (r: Vec<String>)
    ensures
        r@.len() == csv_fields(line@).len(),
        forall|k: int| 0 <= k < r@.len() ==> #[trigger] r@[k]@ == csv_fields(line@)[k],
{
    let cs = chars_of(line);
    let n: usize = cs.len();
    let mut r: Vec<String> = Vec::new();
    let mut field_start: usize = 0;
    let mut i: usize = 0;
    proof {
        assert(cs@.subrange(0, 0) =~= Seq::<char>::empty());
    }
    while i < n
        invariant
            n == cs@.len(),
            field_start <= i <= n,
            ({
                let parts = split_commas(cs@.subrange(0, i as int));
                &&& r@.len() + 1 == parts.len()
                &&& forall|k: int| 0 <= k < r@.len() ==> #[trigger] r@[k]@ == trim_spec(parts[k])
                &&& parts.last() == cs@.subrange(field_start as int, i as int)
            }),
        decreases n - i,
    {
        let ghost parts = split_commas(cs@.subrange(0, i as int));
        proof {
            assert(cs@.subrange(0, i + 1).drop_last() =~= cs@.subrange(0, i as int));
            assert(cs@.subrange(0, i + 1).last() == cs@[i as int]);
        }
        if cs[i] == ',' {
            let (a, b) = trimmed_range(&cs, field_start, i);
            let f = string_of(&cs.as_slice()[a..b]);
            r.push(f);
            field_start = i + 1;
            proof {
                let np = split_commas(cs@.subrange(0, i + 1));
                assert(np == parts.push(Seq::<char>::empty()));
                assert forall|k: int| 0 <= k < r@.len() implies #[trigger] r@[k]@ == trim_spec(
                    np[k],
                ) by {
                    if k < r@.len() - 1 {
                        assert(np[k] == parts[k]);
                    }
                }
                assert(cs@.subrange(field_start as int, i + 1) =~= Seq::<char>::empty());
            }
        } else {
            proof {
                let np = split_commas(cs@.subrange(0, i + 1));
                assert(np == parts.update(parts.len() - 1, parts.last().push(cs@[i as int])));
                assert(cs@.subrange(field_start as int, i + 1) =~= cs@.subrange(
                    field_start as int,
                    i as int,
                ).push(cs@[i as int]));
            }
        }
        i += 1;
    }
    let (a, b) = trimmed_range(&cs, field_start, n);
    let f = string_of(&cs.as_slice()[a..b]);
    r.push(f);
    proof {
        let parts = split_commas(cs@.subrange(0, n as int));
        assert(cs@.subrange(0, n as int) =~= line@);
        assert forall|k: int| 0 <= k < r@.len() implies #[trigger] r@[k]@ == csv_fields(line@)[k] by {
            assert(csv_fields(line@)[k] == trim_spec(parts[k]));
        }
    }
    r
}

/// Splits the fields of a CSV line into the timestamp field and the value
/// fields: when `has_timestamp` is set the first field is the timestamp and
/// the others are the values (so a line of one field has no values);
/// otherwise all fields are values.
pub fn frame_columns(fields: Vec<String>, has_timestamp: bool) -> (r: (Option<String>, Vec<String>))
    ensures
        has_timestamp && fields@.len() > 0 ==> r.0 == Some(fields@[0]) && r.1@ == fields@.drop_first(),
        has_timestamp && fields@.len() == 0 ==> r.0 == None::<String> && r.1@ == fields@,
        !has_timestamp ==> r.0 == None::<String> && r.1@ == fields@,
{
    if has_timestamp && fields.len() > 0 {
        let mut values = fields;
        let ts = values.remove(0);
        proof {
            assert(values@ =~= fields@.drop_first());
        }
        (Some(ts), values)
    } else {
        (None, fields)
    }
}

/// The parsed values of a frame: the values that parsed, in order, or
/// `None` when none did.
pub fn collect_values<V: Copy>(parsed: &Vec<Option<V>>) -> (r: Option<Vec<V>>)
    ensures
        match r {
            Some(v) => v@ == somes(parsed@) && v@.len() > 0,
            None => somes(parsed@).len() == 0,
        },
{
    let mut out: Vec<V> = Vec::new();
    let mut i: usize = 0;
    while i < parsed.len()
        invariant
            i <= parsed@.len(),
            out@ == somes(parsed@.subrange(0, i as int)),
        decreases parsed@.len() - i,
    {
        proof {
            assert(parsed@.subrange(0, i + 1).drop_last() =~= parsed@.subrange(0, i as int));
        }
        match parsed[i] {
            Some(v) => out.push(v),
            None => {},
        }
        i += 1;
    }
    proof {
        assert(parsed@.subrange(0, parsed@.len() as int) =~= parsed@);
    }
    if out.len() == 0 {
        None
    } else {
        Some(out)
    }
}

/// A line that carries samples: not blank and, once trimmed, not starting
/// with `#`. Returns the trimmed line.
pub fn data_line(line: &str) -> (r: Option<String>)
    ensures
        r matches Some(t) ==> t@ == trim_spec(line@),
        r is Some <==> (trim_spec(line@).len() > 0 && trim_spec(line@)[0] != '#'),
{
    let t = trim(line);
    let cs = chars_of(t.as_str());
    if cs.len() == 0 || cs[0] == '#' {
        None
    } else {
        Some(t)
    }
}

} // verus!
