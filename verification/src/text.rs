//! Character-sequence utilities shared by the path model and the asset
//! localizer: prefix tests, substring search and literal replacement.

use vstd::prelude::*;
use vstd::string::StrSliceExecFns;
use vstd::string::StringExecFns;

verus! {

/// Relies on std's `String::push`: appends exactly one character at the end.
#[verifier::external_body]
pub fn push_char(s: &mut String, c: char)
    ensures
        final(s)@ == old(s)@.push(c),
{
    s.push(c);
}

/// `pat` occurs in `s` starting at position `i`.
pub open spec fn occurs_at(s: Seq<char>, pat: Seq<char>, i: int) -> bool {
    0 <= i && i + pat.len() <= s.len() && s.subrange(i, i + pat.len()) == pat
}

/// `s` starts with `pat`.
pub open spec fn spec_starts_with(s: Seq<char>, pat: Seq<char>) -> bool {
    occurs_at(s, pat, 0)
}

/// `pat` occurs somewhere in `s`.
pub open spec fn spec_contains(s: Seq<char>, pat: Seq<char>) -> bool {
    exists|i: int| occurs_at(s, pat, i)
}

/// Whether `pat` occurs in `s` at position `i`, decided character by character.
pub fn matches_at(s: &str, pat: &str, i: usize) -> (r: bool)
    requires
        i + pat@.len() <= s@.len(),
    ensures
        r == occurs_at(s@, pat@, i as int),
{
    let n = pat.unicode_len();
    let slen = s.unicode_len();
    let mut j: usize = 0;
    while j < n
        invariant
            n == pat@.len(),
            slen == s@.len(),
            0 <= j <= n,
            i + n <= slen,
            forall|k: int| 0 <= k < j ==> s@[i + k] == pat@[k],
        decreases n - j,
    {
        if s.get_char(i + j) != pat.get_char(j) {
            assert(s@.subrange(i as int, i + pat@.len()) != pat@) by {
                assert(s@.subrange(i as int, i + pat@.len())[j as int] == s@[i + j]);
            }
            return false;
        }
        j += 1;
    }
    assert(s@.subrange(i as int, i + pat@.len()) =~= pat@);
    true
}

/// Whether `s` starts with `pat`.
pub fn starts_with(s: &str, pat: &str) -> (r: bool)
    ensures
        r == spec_starts_with(s@, pat@),
{
    let n = pat.unicode_len();
    if n > s.unicode_len() {
        return false;
    }
    matches_at(s, pat, 0)
}

/// Whether `pat` occurs anywhere in `s`.
pub fn contains(s: &str, pat: &str) -> (r: bool)
    ensures
        r == spec_contains(s@, pat@),
{
    let n = s.unicode_len();
    let m = pat.unicode_len();
    if m > n {
        return false;
    }
    if m == 0 {
        assert(s@.subrange(0, 0) =~= pat@);
        assert(occurs_at(s@, pat@, 0));
        return true;
    }
    let mut i: usize = 0;
    while i <= n - m
        invariant
            n == s@.len(),
            m == pat@.len(),
            1 <= m <= n,
            0 <= i <= n - m + 1,
            forall|k: int| 0 <= k < i ==> !occurs_at(s@, pat@, k),
        decreases n - i,
    {
        if matches_at(s, pat, i) {
            return true;
        }
        i += 1;
    }
    assert(forall|k: int| occurs_at(s@, pat@, k) ==> 0 <= k && k + m <= n);
    false
}

/// Left-to-right, non-overlapping replacement of every occurrence of
/// `from` by `to`.
pub open spec fn spec_replace(s: Seq<char>, from: Seq<char>, to: Seq<char>) -> Seq<char>
    recommends
        from.len() > 0,
    decreases s.len(),
{
    if from.len() == 0 || s.len() < from.len() {
        s
    } else if s.subrange(0, from.len() as int) == from {
        to + spec_replace(s.skip(from.len() as int), from, to)
    } else {
        seq![s[0]] + spec_replace(s.skip(1), from, to)
    }
}

/// Replaces every occurrence of `from` in `s` by `to`, scanning left to
/// right without overlap.
pub fn replace_all(s: &str, from: &str, to: &str) -> (r: String)
    requires
        from@.len() > 0,
    ensures
        r@ == spec_replace(s@, from@, to@),
{
    let n = s.unicode_len();
    let m = from.unicode_len();
    let mut out = String::new();
    let mut i: usize = 0;
    proof {
        assert(s@.skip(0) =~= s@);
    }
    while i < n
        invariant
            n == s@.len(),
            m == from@.len(),
            m > 0,
            0 <= i <= n,
            out@ + spec_replace(s@.skip(i as int), from@, to@) == spec_replace(s@, from@, to@),
        decreases n - i,
    {
        let ghost pre = s@.skip(i as int);
        let ghost out0 = out@;
        if m <= n - i && matches_at(s, from, i) {
            proof {
                assert(pre.subrange(0, m as int) =~= s@.subrange(i as int, i + m));
                assert(pre.skip(m as int) =~= s@.skip(i + m));
            }
            out.append(to);
            proof {
                let rest = spec_replace(s@.skip(i + m), from@, to@);
                assert(out@ + rest =~= out0 + (to@ + rest));
            }
            i += m;
        } else {
            let c = s.get_char(i);
            proof {
                if pre.len() >= m {
                    assert(pre.subrange(0, m as int) =~= s@.subrange(i as int, i + m));
                    assert(pre.subrange(0, m as int) != from@);
                }
                assert(pre.skip(1) =~= s@.skip(i + 1));
            }
            push_char(&mut out, c);
            proof {
                let rest = spec_replace(s@.skip(i + 1), from@, to@);
                if pre.len() < m {
                    assert(spec_replace(pre, from@, to@) == pre);
                    assert(spec_replace(s@.skip(i + 1), from@, to@) == s@.skip(i + 1));
                    assert(pre =~= seq![s@[i as int]] + s@.skip(i + 1));
                }
                assert(out@ + rest =~= out0 + (seq![s@[i as int]] + rest));
            }
            i += 1;
        }
    }
    proof {
        assert(s@.skip(n as int) =~= Seq::<char>::empty());
        assert(out@ + spec_replace(s@.skip(n as int), from@, to@) =~= out@);
    }
    out
}

/// The characters strictly after the last `/` of `s`, or all of `s` when
/// it has no `/`.
pub open spec fn spec_after_last_slash(s: Seq<char>) -> Seq<char>
    decreases s.len(),
{
    if s.len() == 0 {
        s
    } else if s.last() == '/' {
        Seq::<char>::empty()
    } else {
        spec_after_last_slash(s.drop_last()).push(s.last())
    }
}

/// The characters after the last `/` of `s`, or `None` when `s` is empty
/// or ends in a `/`.
pub fn segment_after_last_slash(s: &str) -> (r: Option<String>)
    ensures
        match r {
            Some(t) => t@ == spec_after_last_slash(s@) && t@.len() > 0,
            None => spec_after_last_slash(s@).len() == 0,
        },
{
    let n = s.unicode_len();
    if n == 0 {
        return None;
    }
    if s.get_char(n - 1) == '/' {
        return None;
    }
    let mut b: usize = n;
    proof {
        assert(s@.take(n as int) =~= s@);
        assert(s@.subrange(n as int, n as int) =~= Seq::<char>::empty());
        assert(spec_after_last_slash(s@.take(n as int)) =~= spec_after_last_slash(
            s@.take(n as int),
        ) + s@.subrange(n as int, n as int));
    }
    while b > 0 && s.get_char(b - 1) != '/'
        invariant
            n == s@.len(),
            0 < n,
            0 <= b <= n,
            s@[n - 1] != '/',
            spec_after_last_slash(s@.take(n as int)) == spec_after_last_slash(s@.take(b as int))
                + s@.subrange(b as int, n as int),
        decreases b,
    {
        proof {
            let u = s@.take(b as int);
            assert(u.drop_last() =~= s@.take(b - 1));
            assert(spec_after_last_slash(u) =~= spec_after_last_slash(s@.take(b - 1)).push(
                s@[b - 1],
            ));
            assert(spec_after_last_slash(s@.take(b - 1)).push(s@[b - 1]) + s@.subrange(
                b as int,
                n as int,
            ) =~= spec_after_last_slash(s@.take(b - 1)) + s@.subrange(b - 1, n as int));
        }
        b -= 1;
    }
    proof {
        if b == 0 {
            assert(s@.take(0) =~= Seq::<char>::empty());
            assert(spec_after_last_slash(s@) =~= s@.subrange(0, n as int));
        } else {
            assert(s@.take(b as int).last() == '/');
            assert(spec_after_last_slash(s@.take(b as int)) =~= Seq::<char>::empty());
            assert(spec_after_last_slash(s@) =~= s@.subrange(b as int, n as int));
        }
        assert(b < n);
    }
    let seg = s.substring_char(b, n);
    Some(seg.to_owned())
}

/// The text with `ins` inserted immediately before the first occurrence
/// of `pat`, or unchanged when `pat` does not occur.
pub open spec fn spec_insert_before_first(s: Seq<char>, pat: Seq<char>, ins: Seq<char>) -> Seq<
    char,
>
    recommends
        pat.len() > 0,
    decreases s.len(),
{
    if pat.len() == 0 || s.len() < pat.len() {
        s
    } else if s.subrange(0, pat.len() as int) == pat {
        ins + s
    } else {
        seq![s[0]] + spec_insert_before_first(s.skip(1), pat, ins)
    }
}

/// Inserts `ins` immediately before the first occurrence of `pat` in
/// `s`; without an occurrence, `s` is returned unchanged.
pub fn insert_before_first(s: &str, pat: &str, ins: &str) -> (r: String)
    requires
        pat@.len() > 0,
    ensures
        r@ == spec_insert_before_first(s@, pat@, ins@),
{
    let n = s.unicode_len();
    let m = pat.unicode_len();
    let mut out = String::new();
    let mut i: usize = 0;
    proof {
        assert(s@.skip(0) =~= s@);
    }
    while i < n
        invariant
            n == s@.len(),
            m == pat@.len(),
            m > 0,
            0 <= i <= n,
            out@ + spec_insert_before_first(s@.skip(i as int), pat@, ins@)
                == spec_insert_before_first(s@, pat@, ins@),
        decreases n - i,
    {
        let ghost pre = s@.skip(i as int);
        let ghost out0 = out@;
        if m <= n - i && matches_at(s, pat, i) {
            proof {
                assert(pre.subrange(0, m as int) =~= s@.subrange(i as int, i + m));
            }
            out.append(ins);
            let rest = s.substring_char(i, n);
            out.append(rest);
            proof {
                assert(rest@ =~= pre);
                assert(out@ =~= out0 + (ins@ + pre));
            }
            return out;
        } else {
            let c = s.get_char(i);
            proof {
                if pre.len() >= m {
                    assert(pre.subrange(0, m as int) =~= s@.subrange(i as int, i + m));
                    assert(pre.subrange(0, m as int) != pat@);
                }
                assert(pre.skip(1) =~= s@.skip(i + 1));
            }
            push_char(&mut out, c);
            proof {
                let restr = spec_insert_before_first(s@.skip(i + 1), pat@, ins@);
                if pre.len() < m {
                    assert(spec_insert_before_first(pre, pat@, ins@) == pre);
                    assert(spec_insert_before_first(s@.skip(i + 1), pat@, ins@) == s@.skip(i + 1));
                    assert(pre =~= seq![s@[i as int]] + s@.skip(i + 1));
                }
                assert(out@ + restr =~= out0 + (seq![s@[i as int]] + restr));
            }
            i += 1;
        }
    }
    proof {
        assert(s@.skip(n as int) =~= Seq::<char>::empty());
        assert(out@ + spec_insert_before_first(s@.skip(n as int), pat@, ins@) =~= out@);
    }
    out
}

/// The non-empty `/`-separated segments of `s`, in order.
pub open spec fn spec_segments(s: Seq<char>) -> Seq<Seq<char>>
    decreases s.len(),
{
    if s.len() == 0 {
        Seq::<Seq<char>>::empty()
    } else if s.last() == '/' {
        spec_segments(s.drop_last())
    } else {
        let rest = spec_segments(s.drop_last());
        if s.len() >= 2 && s[s.len() - 2] != '/' {
            rest.update(rest.len() - 1, rest.last().push(s.last()))
        } else {
            rest.push(seq![s.last()])
        }
    }
}

/// A non-empty string without separators is its own single segment.
pub proof fn lemma_segments_of_slashless(s: Seq<char>)
    requires
        s.len() > 0,
        forall|i: int| 0 <= i < s.len() ==> s[i] != '/',
    ensures
        spec_segments(s) == seq![s],
    decreases s.len(),
{
    if s.len() >= 2 {
        lemma_segments_of_slashless(s.drop_last());
        let rest = spec_segments(s.drop_last());
        assert(rest == seq![s.drop_last()]);
        assert(rest.update(0, rest.last().push(s.last())) =~~= seq![s]);
    } else {
        assert(s =~= seq![s[0]]);
        assert(s.drop_last().len() == 0);
        assert(spec_segments(s.drop_last()) =~~= Seq::<Seq<char>>::empty());
        assert(spec_segments(s) =~~= seq![s]);
    }
}

/// A string that does not end in a separator splits into at least one
/// segment.
pub proof fn lemma_segments_nonempty(s: Seq<char>)
    requires
        s.len() > 0,
        s.last() != '/',
    ensures
        spec_segments(s).len() > 0,
    decreases s.len(),
{
    if s.len() >= 2 && s[s.len() - 2] != '/' {
        lemma_segments_nonempty(s.drop_last());
    }
}

/// Splits `s` into its non-empty `/`-separated segments.
pub fn split_segments(s: &str) -> (r: Vec<String>)
    ensures
        r.deep_view() == spec_segments(s@),
{
    let n = s.unicode_len();
    let mut out: Vec<String> = Vec::new();
    let mut i: usize = 0;
    proof {
        assert(s@.take(0) =~= Seq::<char>::empty());
        assert(out.deep_view() =~~= spec_segments(s@.take(0)));
    }
    while i < n
        invariant
            n == s@.len(),
            0 <= i <= n,
            out.deep_view() == spec_segments(s@.take(i as int)),
        decreases n - i,
    {
        let c = s.get_char(i);
        let ghost prefix = s@.take(i as int);
        let ghost next = s@.take(i + 1);
        proof {
            assert(next.drop_last() =~= prefix);
            assert(next.last() == s@[i as int]);
        }
        if c == '/' {
            // a separator opens no segment of its own
        } else if i > 0 && s.get_char(i - 1) != '/' {
            proof {
                assert(next[next.len() - 2] == s@[i - 1]);
                assert(prefix.last() == s@[i - 1]);
                lemma_segments_nonempty(prefix);
            }
            let mut seg = match out.pop() {
                Some(t) => t,
                None => String::new(),
            };
            push_char(&mut seg, c);
            out.push(seg);
            proof {
                assert(out.deep_view() =~~= spec_segments(next));
            }
        } else {
            let mut seg = String::new();
            push_char(&mut seg, c);
            out.push(seg);
            proof {
                assert(seg@ =~= seq![s@[i as int]]);
                assert(out.deep_view() =~~= spec_segments(next));
            }
        }
        i += 1;
    }
    proof {
        assert(s@.take(n as int) =~= s@);
    }
    out
}

} // verus!
