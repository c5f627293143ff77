use vstd::prelude::*;
use vstd::utf8::*;

verus! {

broadcast use vstd::string::group_string_axioms;

/// `c` has the Unicode `White_Space` property, the set `char::is_whitespace`
/// and `str::trim` use.
pub open spec fn is_white_space(c: char) -> bool {
    let u = c as u32;
    ||| 0x09 <= u <= 0x0D
    ||| u == 0x20
    ||| u == 0x85
    ||| u == 0xA0
    ||| u == 0x1680
    ||| 0x2000 <= u <= 0x200A
    ||| u == 0x2028
    ||| u == 0x2029
    ||| u == 0x202F
    ||| u == 0x205F
    ||| u == 0x3000
}

/// `t` without its leading white space.
pub open spec fn trim_start(t: Seq<char>) -> Seq<char>
    decreases t.len(),
{
    if t.len() > 0 && is_white_space(t[0]) {
        trim_start(t.drop_first())
    } else {
        t
    }
}

/// `t` without its trailing white space.
pub open spec fn trim_end(t: Seq<char>) -> Seq<char>
    decreases t.len(),
{
    if t.len() > 0 && is_white_space(t.last()) {
        trim_end(t.drop_last())
    } else {
        t
    }
}

/// `t` without leading and trailing white space, as `str::trim` gives it.
pub open spec fn trim(t: Seq<char>) -> Seq<char> {
    trim_end(trim_start(t))
}

/// Every character of `w` is white space.
pub open spec fn all_white_space(w: Seq<char>) -> bool {
    forall|i: int| 0 <= i < w.len() ==> is_white_space(#[trigger] w[i])
}

proof fn lemma_trim_start_ws_prefix(w: Seq<char>, x: Seq<char>)
    requires
        all_white_space(w),
    ensures
        trim_start(w + x) == trim_start(x),
    decreases w.len(),
{
    if w.len() > 0 {
        assert((w + x).drop_first() =~= w.drop_first() + x);
        assert(is_white_space(w[0]));
        assert((w + x)[0] == w[0]);
        lemma_trim_start_ws_prefix(w.drop_first(), x);
    } else {
        assert(w + x =~= x);
    }
}

proof fn lemma_trim_end_ws_suffix(x: Seq<char>, w: Seq<char>)
    requires
        all_white_space(w),
    ensures
        trim_end(x + w) == trim_end(x),
    decreases w.len(),
{
    if w.len() > 0 {
        assert((x + w).drop_last() =~= x + w.drop_last());
        assert(is_white_space(w.last()));
        assert((x + w).last() == w.last());
        lemma_trim_end_ws_suffix(x, w.drop_last());
    } else {
        assert(x + w =~= x);
    }
}

proof fn lemma_trim_start_append(t: Seq<char>, w: Seq<char>)
    ensures
        all_white_space(t) ==> trim_start(t + w) == trim_start(w),
        !all_white_space(t) ==> trim_start(t + w) == trim_start(t) + w,
    decreases t.len(),
{
    if t.len() == 0 {
        assert(t + w =~= w);
    } else {
        assert((t + w).drop_first() =~= t.drop_first() + w);
        assert((t + w)[0] == t[0]);
        lemma_trim_start_append(t.drop_first(), w);
        if is_white_space(t[0]) {
            if all_white_space(t.drop_first()) {
                assert forall|i: int| 0 <= i < t.len() implies is_white_space(#[trigger] t[i]) by {
                    if i > 0 {
                        assert(t[i] == t.drop_first()[i - 1]);
                    }
                }
            } else {
                let i = choose|i: int|
                    0 <= i < t.drop_first().len() && !is_white_space(#[trigger] t.drop_first()[i]);
                assert(!is_white_space(t[i + 1]));
            }
        } else {
            assert(!is_white_space(t[0]));
        }
    }
}

/// Surrounding white space does not change what a text trims to.
pub proof fn law_trim_ignores_surrounding_white_space(w1: Seq<char>, t: Seq<char>, w2: Seq<char>)
    requires
        all_white_space(w1),
        all_white_space(w2),
    ensures
        trim(w1 + t + w2) == trim(t),
{
    assert(w1 + t + w2 =~= w1 + (t + w2));
    lemma_trim_start_ws_prefix(w1, t + w2);
    lemma_trim_start_append(t, w2);
    if all_white_space(t) {
        lemma_trim_start_ws_prefix(w2, Seq::<char>::empty());
        assert(w2 + Seq::<char>::empty() =~= w2);
        lemma_trim_start_ws_prefix(t, Seq::<char>::empty());
        assert(t + Seq::<char>::empty() =~= t);
    } else {
        lemma_trim_end_ws_suffix(trim_start(t), w2);
    }
}

/// Length of the first line of `t`: the number of characters before the
/// first `'\n'`, or all of them if there is none.
pub open spec fn first_line_len(t: Seq<char>) -> nat
    decreases t.len(),
{
    if t.len() == 0 || t[0] == '\n' {
        0
    } else {
        1 + first_line_len(t.drop_first())
    }
}

/// `line` without one trailing `'\r'`, if it has one.
pub open spec fn strip_cr(line: Seq<char>) -> Seq<char> {
    if line.len() > 0 && line.last() == '\r' {
        line.drop_last()
    } else {
        line
    }
}

/// The lines of `t` as `str::lines` gives them: split at each `'\n'`, one
/// `'\r'` right before a `'\n'` dropped with it, and no empty line after a
/// final `'\n'`.
pub open spec fn lines(t: Seq<char>) -> Seq<Seq<char>>
    decreases t.len(),
{
    if t.len() == 0 {
        seq![]
    } else {
        let k = first_line_len(t);
        if k >= t.len() {
            seq![t]
        } else {
            seq![strip_cr(t.take(k as int))] + lines(t.skip(k + 1 as int))
        }
    }
}

/// The characters of `s`, in order.
pub(crate) fn chars_of(s: &str) -> (v: Vec<char>)
    ensures
        v@ == s@,
{
    let mut v: Vec<char> = Vec::new();
    for c in it: s.chars()
        invariant
            v@ == it.seq().take(it.index() as int),
            it.seq() == s@,
    {
        v.push(c);
    }
    v
}

/// Whether `c` has the Unicode `White_Space` property.
pub(crate) fn char_is_white_space(c: char) -> (w: bool)
    ensures
        w == is_white_space(c),
{
    let u = c as u32;
    (0x09 <= u && u <= 0x0D) || u == 0x20 || u == 0x85 || u == 0xA0 || u == 0x1680 || (0x2000 <= u
        && u <= 0x200A) || u == 0x2028 || u == 0x2029 || u == 0x202F || u == 0x205F || u == 0x3000
}

/// Bounds of `cs[start..end]` with its leading and trailing white space cut
/// off.
pub(crate) fn trim_range(cs: &Vec<char>, start: usize, end: usize) -> (bounds: (usize, usize))
    requires
        start <= end <= cs@.len(),
    ensures
        start <= bounds.0 <= bounds.1 <= end,
        cs@.subrange(bounds.0 as int, bounds.1 as int) == trim(
            cs@.subrange(start as int, end as int),
        ),
{
    let mut lo = start;
    while lo < end && char_is_white_space(cs[lo])
        invariant
            start <= lo <= end <= cs@.len(),
            trim_start(cs@.subrange(start as int, end as int)) == trim_start(
                cs@.subrange(lo as int, end as int),
            ),
        decreases end - lo,
    {
        assert(cs@.subrange(lo as int, end as int).drop_first() =~= cs@.subrange(
            lo + 1,
            end as int,
        ));
        lo = lo + 1;
    }
    let mut hi = end;
    while hi > lo && char_is_white_space(cs[hi - 1])
        invariant
            start <= lo <= hi <= end <= cs@.len(),
            trim_start(cs@.subrange(start as int, end as int)) == cs@.subrange(
                lo as int,
                end as int,
            ),
            trim_end(cs@.subrange(lo as int, end as int)) == trim_end(
                cs@.subrange(lo as int, hi as int),
            ),
        decreases hi - lo,
    {
        assert(cs@.subrange(lo as int, hi as int).drop_last() =~= cs@.subrange(
            lo as int,
            hi - 1,
        ));
        hi = hi - 1;
    }
    (lo, hi)
}

} // verus!
