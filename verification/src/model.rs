//! The `Post` record and the deterministic path model: filename
//! sanitization and the relative output path of a mirrored page.

use vstd::prelude::*;
use vstd::string::StrSliceExecFns;
use vstd::string::StringExecFns;
use crate::text::push_char;
use crate::text::spec_segments;
use crate::text::split_segments;

verus! {

/// A character that may not appear in a filename.
pub open spec fn is_illegal_char(c: char) -> bool {
    c == '<' || c == '>' || c == ':' || c == '"' || c == '/' || c == '\\' || c == '|' || c == '?'
        || c == '*'
}

/// Sanitization maps every illegal character to an underscore and keeps
/// every other character unchanged.
pub open spec fn spec_sanitize(s: Seq<char>) -> Seq<char> {
    s.map_values(|c: char| if is_illegal_char(c) { '_' } else { c })
}

/// Replaces every character of `< > : " / \ | ? *` with `_`.
pub fn sanitize_filename(s: &str) -> (r: String)
    ensures
        r@ == spec_sanitize(s@),
{
    let n = s.unicode_len();
    let mut out = String::new();
    let mut i: usize = 0;
    while i < n
        invariant
            n == s@.len(),
            0 <= i <= n,
            out@ == spec_sanitize(s@.subrange(0, i as int)),
        decreases n - i,
    {
        let c = s.get_char(i);
        if c == '<' || c == '>' || c == ':' || c == '"' || c == '/' || c == '\\' || c == '|'
            || c == '?' || c == '*' {
            push_char(&mut out, '_');
        } else {
            push_char(&mut out, c);
        }
        i += 1;
        assert(out@ =~= spec_sanitize(s@.subrange(0, i as int)));
    }
    assert(s@.subrange(0, n as int) =~= s@);
    out
}

/// Sanitization never leaves an illegal character in its result.
pub proof fn lemma_sanitize_removes_illegal(s: Seq<char>)
    ensures
        forall|i: int| 0 <= i < spec_sanitize(s).len() ==> !is_illegal_char(spec_sanitize(s)[i]),
{
}

/// Sanitizing twice is the same as sanitizing once.
pub proof fn lemma_sanitize_idempotent(s: Seq<char>)
    ensures
        spec_sanitize(spec_sanitize(s)) == spec_sanitize(s),
{
    assert(spec_sanitize(spec_sanitize(s)) =~= spec_sanitize(s));
}

/// One page to mirror: its source URL, display title, and the grouping
/// metadata that determines where its HTML file is saved.
pub struct Post {
    /// Source URL of the page.
    pub url: String,
    /// Display title of the page.
    pub title: String,
    /// Top-level grouping segment.
    pub category: String,
    /// Zero or more intermediate path segments, `/`-separated.
    pub csv_subdir: String,
    /// Originating batch name, one more path segment when non-empty.
    pub csv_filename: String,
    /// Filesystem-safe form of the title.
    pub safe_title: String,
}

impl Clone for Post {
    /// Cloning a post keeps every field.
    fn clone(&self) -> (r: Self)
        ensures
            r == *self,
    {
        Post {
            url: self.url.clone(),
            title: self.title.clone(),
            category: self.category.clone(),
            csv_subdir: self.csv_subdir.clone(),
            csv_filename: self.csv_filename.clone(),
            safe_title: self.safe_title.clone(),
        }
    }
}

/// A post is well formed when its safe title is the sanitized form of its
/// title.
pub open spec fn post_wf(p: Post) -> bool {
    p.safe_title@ == spec_sanitize(p.title@)
}

/// The relative output path of a post, joined from its non-empty
/// segments only: the category when non-empty, then each non-empty
/// `/`-separated segment of the subdirectory, then the batch name when
/// non-empty, then the sanitized title with an `.html` extension. Empty
/// segments are omitted.
pub open spec fn spec_rel_save_path(p: Post) -> Seq<char> {
    opt_segment(p.category@) + spec_seg_run(spec_segments(p.csv_subdir@)) + opt_segment(
        p.csv_filename@,
    ) + p.safe_title@ + ".html"@
}

/// Each segment of `segs` followed by a `/` separator, in order.
pub open spec fn spec_seg_run(segs: Seq<Seq<char>>) -> Seq<char>
    decreases segs.len(),
{
    if segs.len() == 0 {
        Seq::<char>::empty()
    } else {
        spec_seg_run(segs.drop_last()) + segs.last() + "/"@
    }
}

/// A path segment followed by `/`, or nothing when the segment is empty.
pub open spec fn opt_segment(s: Seq<char>) -> Seq<char> {
    if s.len() == 0 {
        Seq::<char>::empty()
    } else {
        s + "/"@
    }
}

impl Post {
    /// Builds a post, deriving the sanitized title from the given title.
    pub fn new(
        url: String,
        title: String,
        category: String,
        csv_subdir: String,
        csv_filename: String,
    ) -> (r: Self)
        ensures
            r.url == url,
            r.title == title,
            r.category == category,
            r.csv_subdir == csv_subdir,
            r.csv_filename == csv_filename,
            post_wf(r),
    {
        let safe_title = sanitize_filename(title.as_str());
        Post { url, title, category, csv_subdir, csv_filename, safe_title }
    }

    /// The output path of this post relative to the output root. Empty
    /// segments are omitted.
    pub fn get_rel_save_path(&self) -> (r: String)
        ensures
            r@ == spec_rel_save_path(*self),
    {
        let mut out = String::new();
        if !self.category.as_str().is_empty() {
            out.append(self.category.as_str());
            out.append("/");
        }
        assert(out@ =~= opt_segment(self.category@));
        let ghost head = out@;
        let subs = split_segments(self.csv_subdir.as_str());
        let ghost ss = spec_segments(self.csv_subdir@);
        let mut i: usize = 0;
        proof {
            assert(out@ =~= head + spec_seg_run(ss.take(0)));
        }
        while i < subs.len()
            invariant
                subs.deep_view() == ss,
                0 <= i <= subs@.len(),
                out@ == head + spec_seg_run(ss.take(i as int)),
            decreases subs@.len() - i,
        {
            out.append(subs[i].as_str());
            out.append("/");
            proof {
                assert(subs@[i as int]@ == ss[i as int]);
                assert(ss.take(i + 1).drop_last() =~~= ss.take(i as int));
                assert(ss.take(i + 1).last() == ss[i as int]);
                assert(out@ =~= head + spec_seg_run(ss.take(i + 1)));
            }
            i += 1;
        }
        proof {
            assert(ss.take(subs@.len() as int) =~~= ss);
        }
        if !self.csv_filename.as_str().is_empty() {
            out.append(self.csv_filename.as_str());
            out.append("/");
        }
        out.append(self.safe_title.as_str());
        out.append(".html");
        assert(out@ =~= spec_rel_save_path(*self));
        out
    }
}

/// Builds a post from one input record, rejecting records whose URL or
/// title is empty; everything else becomes a post whose sanitized title
/// is derived from the given title.
pub fn post_from_record(
    url: String,
    title: String,
    category: String,
    csv_subdir: String,
    csv_filename: String,
) -> (r: Option<Post>)
    ensures
        match r {
            Some(p) => {
                &&& url@.len() > 0
                &&& title@.len() > 0
                &&& p.url == url
                &&& p.title == title
                &&& p.category == category
                &&& p.csv_subdir == csv_subdir
                &&& p.csv_filename == csv_filename
                &&& post_wf(p)
            },
            None => url@.len() == 0 || title@.len() == 0,
        },
{
    if url.as_str().is_empty() || title.as_str().is_empty() {
        None
    } else {
        Some(Post::new(url, title, category, csv_subdir, csv_filename))
    }
}

/// Two sequences that differ, wrapped in a common prefix and suffix, still
/// differ.
pub proof fn lemma_concat_inner_inj(pre: Seq<char>, m1: Seq<char>, m2: Seq<char>, suf: Seq<char>)
    requires
        m1 != m2,
    ensures
        pre + m1 + suf != pre + m2 + suf,
{
    if m1.len() == m2.len() {
        assert(exists|i: int| 0 <= i < m1.len() && m1[i] != m2[i]) by {
            if forall|i: int| 0 <= i < m1.len() ==> m1[i] == m2[i] {
                assert(m1 =~= m2);
            }
        }
        let i = choose|i: int| 0 <= i < m1.len() && m1[i] != m2[i];
        assert((pre + m1 + suf)[pre.len() + i] == m1[i]);
        assert((pre + m2 + suf)[pre.len() + i] == m2[i]);
    } else {
        assert((pre + m1 + suf).len() != (pre + m2 + suf).len());
    }
}

/// The output path is a function of the post's grouping fields and
/// sanitized title alone: two posts that agree on them get the same
/// path, wherever and whenever it is computed.
pub proof fn lemma_rel_path_deterministic(p1: Post, p2: Post)
    requires
        p1.category@ == p2.category@,
        p1.csv_subdir@ == p2.csv_subdir@,
        p1.csv_filename@ == p2.csv_filename@,
        p1.safe_title@ == p2.safe_title@,
    ensures
        spec_rel_save_path(p1) == spec_rel_save_path(p2),
{
}

/// The output path changes whenever the category alone changes.
pub proof fn lemma_rel_path_depends_on_category(p1: Post, p2: Post)
    requires
        p1.category@ != p2.category@,
        p1.csv_subdir@ == p2.csv_subdir@,
        p1.csv_filename@ == p2.csv_filename@,
        p1.safe_title@ == p2.safe_title@,
    ensures
        spec_rel_save_path(p1) != spec_rel_save_path(p2),
{
    let suf = spec_seg_run(spec_segments(p1.csv_subdir@)) + opt_segment(p1.csv_filename@)
        + p1.safe_title@ + ".html"@;
    assert(spec_rel_save_path(p1) =~= Seq::<char>::empty() + opt_segment(p1.category@) + suf);
    assert(spec_rel_save_path(p2) =~= Seq::<char>::empty() + opt_segment(p2.category@) + suf);
    lemma_opt_segment_inj(p1.category@, p2.category@);
    lemma_concat_inner_inj(
        Seq::<char>::empty(),
        opt_segment(p1.category@),
        opt_segment(p2.category@),
        suf,
    );
}

/// The output path changes whenever the subdirectory alone changes,
/// stated for subdirectories that are single plain segments: non-empty
/// and free of separators. Subdirectories that differ only in empty
/// segments, such as `a//b` against `a/b`, give the same path by
/// design, since empty segments are omitted.
pub proof fn lemma_rel_path_depends_on_subdir(p1: Post, p2: Post)
    requires
        p1.category@ == p2.category@,
        p1.csv_subdir@ != p2.csv_subdir@,
        p1.csv_subdir@.len() > 0,
        p2.csv_subdir@.len() > 0,
        forall|i: int| 0 <= i < p1.csv_subdir@.len() ==> p1.csv_subdir@[i] != '/',
        forall|i: int| 0 <= i < p2.csv_subdir@.len() ==> p2.csv_subdir@[i] != '/',
        p1.csv_filename@ == p2.csv_filename@,
        p1.safe_title@ == p2.safe_title@,
    ensures
        spec_rel_save_path(p1) != spec_rel_save_path(p2),
{
    let pre = opt_segment(p1.category@);
    let suf = opt_segment(p1.csv_filename@) + p1.safe_title@ + ".html"@;
    crate::text::lemma_segments_of_slashless(p1.csv_subdir@);
    crate::text::lemma_segments_of_slashless(p2.csv_subdir@);
    lemma_seg_run_single(p1.csv_subdir@);
    lemma_seg_run_single(p2.csv_subdir@);
    assert(spec_rel_save_path(p1) =~= pre + opt_segment(p1.csv_subdir@) + suf);
    assert(spec_rel_save_path(p2) =~= pre + opt_segment(p2.csv_subdir@) + suf);
    lemma_opt_segment_inj(p1.csv_subdir@, p2.csv_subdir@);
    lemma_concat_inner_inj(pre, opt_segment(p1.csv_subdir@), opt_segment(p2.csv_subdir@), suf);
}

/// The output path changes whenever the batch name alone changes.
pub proof fn lemma_rel_path_depends_on_filename(p1: Post, p2: Post)
    requires
        p1.category@ == p2.category@,
        p1.csv_subdir@ == p2.csv_subdir@,
        p1.csv_filename@ != p2.csv_filename@,
        p1.safe_title@ == p2.safe_title@,
    ensures
        spec_rel_save_path(p1) != spec_rel_save_path(p2),
{
    let pre = opt_segment(p1.category@) + spec_seg_run(spec_segments(p1.csv_subdir@));
    let suf = p1.safe_title@ + ".html"@;
    assert(spec_rel_save_path(p1) =~= pre + opt_segment(p1.csv_filename@) + suf);
    assert(spec_rel_save_path(p2) =~= pre + opt_segment(p2.csv_filename@) + suf);
    lemma_opt_segment_inj(p1.csv_filename@, p2.csv_filename@);
    lemma_concat_inner_inj(pre, opt_segment(p1.csv_filename@), opt_segment(p2.csv_filename@), suf);
}

/// The output path changes whenever the sanitized title alone changes.
pub proof fn lemma_rel_path_depends_on_safe_title(p1: Post, p2: Post)
    requires
        p1.category@ == p2.category@,
        p1.csv_subdir@ == p2.csv_subdir@,
        p1.csv_filename@ == p2.csv_filename@,
        p1.safe_title@ != p2.safe_title@,
    ensures
        spec_rel_save_path(p1) != spec_rel_save_path(p2),
{
    let pre = opt_segment(p1.category@) + spec_seg_run(spec_segments(p1.csv_subdir@))
        + opt_segment(p1.csv_filename@);
    assert(spec_rel_save_path(p1) =~= pre + p1.safe_title@ + ".html"@);
    assert(spec_rel_save_path(p2) =~= pre + p2.safe_title@ + ".html"@);
    lemma_concat_inner_inj(pre, p1.safe_title@, p2.safe_title@, ".html"@);
}

/// A single segment's run is the segment followed by its separator.
proof fn lemma_seg_run_single(s: Seq<char>)
    requires
        s.len() > 0,
    ensures
        spec_seg_run(seq![s]) == opt_segment(s),
{
    assert(seq![s].drop_last() =~~= Seq::<Seq<char>>::empty());
    assert(spec_seg_run(Seq::<Seq<char>>::empty()) == Seq::<char>::empty());
    assert(seq![s].last() == s);
    assert(spec_seg_run(seq![s]) =~= opt_segment(s));
}

/// Appending a separator to distinct non-empty-or-empty segments keeps them
/// distinct.
proof fn lemma_opt_segment_inj(s1: Seq<char>, s2: Seq<char>)
    requires
        s1 != s2,
    ensures
        opt_segment(s1) != opt_segment(s2),
{
    reveal_strlit("/");
    if s1.len() == 0 && s2.len() == 0 {
        assert(s1 =~= s2);
    } else if s1.len() == 0 {
        assert(opt_segment(s2).len() == s2.len() + 1);
    } else if s2.len() == 0 {
        assert(opt_segment(s1).len() == s1.len() + 1);
    } else {
        lemma_concat_inner_inj(Seq::<char>::empty(), s1, s2, "/"@);
        assert(opt_segment(s1) =~= Seq::<char>::empty() + s1 + "/"@);
        assert(opt_segment(s2) =~= Seq::<char>::empty() + s2 + "/"@);
    }
}

} // verus!
