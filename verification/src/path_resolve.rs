//! Lexical path resolution: the sandbox-enforcement core.
//!
//! A raw, attacker-controlled path string is split on `/` into segments and
//! normalized with an explicit stack: normal segments are pushed, `.` and
//! empty segments are dropped, and `..` pops the most recent segment.  A `..`
//! that finds nothing to pop would climb above the sandbox root, so the whole
//! resolution fails.  The result is a [`ResolvedPath`]: a root-relative
//! sequence of segments free of `.` and `..`.

use vstd::prelude::*;

verus! {

/// The pieces of `s` between `/` characters, in order, empty pieces kept.
/// `""` yields one empty piece, as `str::split` does.
pub open spec fn split_on_slash(s: Seq<char>) -> Seq<Seq<char>>
    decreases s.len(),
{
    if s.len() == 0 {
        seq![Seq::<char>::empty()]
    } else {
        let rest = split_on_slash(s.drop_first());
        if s[0] == '/' {
            seq![Seq::<char>::empty()] + rest
        } else {
            seq![seq![s[0]] + rest[0]] + rest.drop_first()
        }
    }
}

/// Segments that normalization drops without effect: empty and `.`.
pub open spec fn is_skip_seg(seg: Seq<char>) -> bool {
    seg.len() == 0 || seg == seq!['.']
}

/// The parent segment `..`, which pops the stack.
pub open spec fn is_parent_seg(seg: Seq<char>) -> bool {
    seg == seq!['.', '.']
}

/// A segment that survives into a resolved path.
pub open spec fn wf_seg(seg: Seq<char>) -> bool {
    seg.len() > 0 && !is_skip_seg(seg) && !is_parent_seg(seg)
}

/// A segment with no separator inside: the only kind splitting can yield.
pub open spec fn slash_free(seg: Seq<char>) -> bool {
    forall|j: int| 0 <= j < seg.len() ==> seg[j] != '/'
}

/// One step of stack-based normalization; `None` is absorbing.
pub open spec fn norm_step(acc: Option<Seq<Seq<char>>>, seg: Seq<char>) -> Option<Seq<Seq<char>>> {
    match acc {
        None => None,
        Some(stack) => {
            if is_skip_seg(seg) {
                Some(stack)
            } else if is_parent_seg(seg) {
                if stack.len() == 0 {
                    None
                } else {
                    Some(stack.drop_last())
                }
            } else {
                Some(stack.push(seg))
            }
        },
    }
}

/// The stack after normalizing the first `n` segments.
pub open spec fn normalize_prefix(segs: Seq<Seq<char>>, n: int) -> Option<Seq<Seq<char>>>
    decreases n,
{
    if n <= 0 {
        Some(Seq::<Seq<char>>::empty())
    } else {
        norm_step(normalize_prefix(segs, n - 1), segs[n - 1])
    }
}

/// The stack after normalizing every segment.
pub open spec fn normalize_segs(segs: Seq<Seq<char>>) -> Option<Seq<Seq<char>>> {
    normalize_prefix(segs, segs.len() as int)
}

/// What resolution returns on the raw string `raw`.
pub open spec fn resolve_spec(raw: Seq<char>) -> Option<Seq<Seq<char>>> {
    normalize_segs(split_on_slash(raw))
}

/// Once a prefix of the segments fails to normalize, the whole list does.
proof fn lemma_none_persists(segs: Seq<Seq<char>>, i: int, n: int)
    requires
        0 <= i <= n,
        normalize_prefix(segs, i) is None,
    ensures
        normalize_prefix(segs, n) is None,
    decreases n - i,
{
    if i < n {
        lemma_none_persists(segs, i, n - 1);
    }
}

/// The segments joined with `/` separators, without a leading slash:
/// the root-relative form of a resolved path.
pub open spec fn join_rel(segs: Seq<Seq<char>>) -> Seq<char>
    decreases segs.len(),
{
    if segs.len() == 0 {
        Seq::<char>::empty()
    } else if segs.len() == 1 {
        segs[0]
    } else {
        join_rel(segs.drop_last()) + seq!['/'] + segs.last()
    }
}

/// The absolute target path: the sandbox root, then the relative path
/// below it (the root itself when there are no segments).
pub open spec fn join_under_root(root: Seq<char>, segs: Seq<Seq<char>>) -> Seq<char> {
    if segs.len() == 0 {
        root
    } else {
        root + seq!['/'] + join_rel(segs)
    }
}

/// Splitting always yields at least one piece.
proof fn lemma_split_len_pos(s: Seq<char>)
    ensures
        split_on_slash(s).len() >= 1,
    decreases s.len(),
{
    if s.len() > 0 {
        lemma_split_len_pos(s.drop_first());
    }
}

/// No piece of a split string holds a separator.
proof fn lemma_split_pieces_slash_free(s: Seq<char>)
    ensures
        forall|i: int|
            0 <= i < split_on_slash(s).len() ==> slash_free(#[trigger] split_on_slash(s)[i]),
    decreases s.len(),
{
    if s.len() > 0 {
        lemma_split_pieces_slash_free(s.drop_first());
        lemma_split_len_pos(s.drop_first());
        let rest = split_on_slash(s.drop_first());
        if s[0] == '/' {
            assert forall|i: int| 0 <= i < split_on_slash(s).len() implies slash_free(
                #[trigger] split_on_slash(s)[i],
            ) by {
                if i > 0 {
                    assert(split_on_slash(s)[i] == rest[i - 1]);
                }
            }
        } else {
            assert forall|i: int| 0 <= i < split_on_slash(s).len() implies slash_free(
                #[trigger] split_on_slash(s)[i],
            ) by {
                if i == 0 {
                    assert(split_on_slash(s)[0] == seq![s[0]] + rest[0]);
                    assert(slash_free(rest[0]));
                    assert(forall|j: int|
                        0 <= j < (seq![s[0]] + rest[0]).len() ==> (seq![s[0]] + rest[0])[j]
                            != '/');
                } else {
                    assert(split_on_slash(s)[i] == rest.drop_first()[i - 1]);
                    assert(rest.drop_first()[i - 1] == rest[i]);
                }
            }
        }
    }
}

/// A separator-free string splits into itself alone.
proof fn lemma_split_slash_free_single(s: Seq<char>)
    requires
        slash_free(s),
    ensures
        split_on_slash(s) =~= seq![s],
    decreases s.len(),
{
    if s.len() > 0 {
        assert(slash_free(s.drop_first()));
        lemma_split_slash_free_single(s.drop_first());
        assert(seq![s[0]] + s.drop_first() =~= s);
    } else {
        assert(s =~= Seq::<char>::empty());
    }
}

/// Splitting distributes over a separator between two strings.
proof fn lemma_split_concat(x: Seq<char>, y: Seq<char>)
    ensures
        split_on_slash(x + seq!['/'] + y) == split_on_slash(x) + split_on_slash(y),
    decreases x.len(),
{
    let z = x + seq!['/'] + y;
    if x.len() == 0 {
        assert(z =~= seq!['/'] + y);
        assert(z.drop_first() =~= y);
        assert(split_on_slash(z) =~= split_on_slash(x) + split_on_slash(y));
    } else {
        lemma_split_concat(x.drop_first(), y);
        lemma_split_len_pos(x.drop_first());
        lemma_split_len_pos(x.drop_first() + seq!['/'] + y);
        assert(z[0] == x[0]);
        assert(z.drop_first() =~= x.drop_first() + seq!['/'] + y);
        let rest = split_on_slash(x.drop_first());
        let resty = split_on_slash(x.drop_first() + seq!['/'] + y);
        if x[0] == '/' {
            assert(split_on_slash(z) =~= split_on_slash(x) + split_on_slash(y));
        } else {
            assert(resty[0] == (rest + split_on_slash(y))[0]);
            assert(resty[0] == rest[0]);
            assert(resty.drop_first() =~= rest.drop_first() + split_on_slash(y));
            assert(split_on_slash(z) =~= split_on_slash(x) + split_on_slash(y));
        }
    }
}

/// Joining separator-free segments and splitting again gives them back.
proof fn lemma_split_join(segs: Seq<Seq<char>>)
    requires
        segs.len() > 0,
        forall|i: int| 0 <= i < segs.len() ==> slash_free(#[trigger] segs[i]),
    ensures
        split_on_slash(join_rel(segs)) == segs,
    decreases segs.len(),
{
    if segs.len() == 1 {
        lemma_split_slash_free_single(segs[0]);
        assert(split_on_slash(join_rel(segs)) =~= segs);
    } else {
        lemma_split_join(segs.drop_last());
        lemma_split_concat(join_rel(segs.drop_last()), segs.last());
        lemma_split_slash_free_single(segs.last());
        assert(split_on_slash(join_rel(segs)) =~= segs.drop_last() + seq![segs.last()]);
        assert(segs.drop_last() + seq![segs.last()] =~= segs);
    }
}

/// Segments that are all plain names normalize to themselves.
proof fn lemma_normalize_all_wf(segs: Seq<Seq<char>>, n: int)
    requires
        0 <= n <= segs.len(),
        forall|i: int| 0 <= i < segs.len() ==> wf_seg(#[trigger] segs[i]),
    ensures
        normalize_prefix(segs, n) == Some(segs.take(n)),
    decreases n,
{
    if n > 0 {
        lemma_normalize_all_wf(segs, n - 1);
        assert(segs.take(n - 1).push(segs[n - 1]) =~= segs.take(n));
    }
}

/// Resolution is idempotent: the relative form of a resolved path resolves
/// to that very path, unchanged.
pub proof fn lemma_resolve_idempotent(segs: Seq<Seq<char>>)
    requires
        forall|i: int| 0 <= i < segs.len() ==> wf_seg(#[trigger] segs[i]) && slash_free(segs[i]),
    ensures
        resolve_spec(join_rel(segs)) == Some(segs),
{
    if segs.len() == 0 {
        let pieces = split_on_slash(join_rel(segs));
        assert(pieces =~= seq![Seq::<char>::empty()]);
        assert(normalize_prefix(pieces, 0) == Some(Seq::<Seq<char>>::empty()));
        assert(normalize_prefix(pieces, 1) == Some(Seq::<Seq<char>>::empty()));
        assert(segs =~= Seq::<Seq<char>>::empty());
    } else {
        lemma_split_join(segs);
        lemma_normalize_all_wf(segs, segs.len() as int);
        assert(segs.take(segs.len() as int) =~= segs);
    }
}

/// A normalized, root-relative path: segments free of `.` and `..`,
/// produced only by [`resolve_nested`].
#[derive(Debug)]
pub struct ResolvedPath {
    segments: Vec<String>,
}

impl View for ResolvedPath {
    type V = Seq<Seq<char>>;

    closed spec fn view(&self) -> Seq<Seq<char>> {
        self.segments.deep_view()
    }
}

impl ResolvedPath {
    /// The invariant of a resolved path: every segment is a plain,
    /// separator-free name.
    pub open spec fn wf(&self) -> bool {
        forall|i: int| 0 <= i < self@.len() ==> wf_seg(self@[i]) && slash_free(self@[i])
    }

    /// The segments, root-most first.
    pub fn segments(&self) -> (r: &Vec<String>)
        ensures
            r.deep_view() == self@,
    {
        &self.segments
    }

    /// Whether this is the sandbox root itself.
    pub fn is_root(&self) -> (r: bool)
        ensures
            r == (self@.len() == 0),
    {
        self.segments.len() == 0
    }

    /// The root-relative path string: segments joined with `/`.
    pub fn rel_path(&self) -> (r: String)
        ensures
            r@ == join_rel(self@),
    {
        proof {
            reveal_strlit("/");
        }
        let mut out = String::new();
        let mut i: usize = 0;
        while i < self.segments.len()
            invariant
                i <= self.segments.len(),
                self@ == self.segments.deep_view(),
                out@ == join_rel(self@.take(i as int)),
            decreases self.segments.len() - i,
        {
            proof {
                reveal_strlit("/");
                assert(self@.take(i + 1).drop_last() =~= self@.take(i as int));
                assert(self@[i as int] == self.segments@[i as int]@);
            }
            if i > 0 {
                out.append("/");
            }
            out.append(self.segments[i].as_str());
            proof {
                if i == 0 {
                    assert(out@ =~= join_rel(self@.take(1)));
                }
            }
            i = i + 1;
        }
        proof {
            assert(self@.take(self@.len() as int) =~= self@);
        }
        out
    }

    /// The absolute target path under `root`, as the filesystem will see it.
    pub fn target_path(&self, root: &str) -> (r: String)
        ensures
            r@ == join_under_root(root@, self@),
    {
        let mut out: String = root.to_owned();
        if self.segments.len() > 0 {
            proof {
                reveal_strlit("/");
            }
            out.append("/");
            let rel = self.rel_path();
            out.append(rel.as_str());
        }
        out
    }
}

/// Containment: whatever was resolved, the target path under the root
/// keeps the root as a literal prefix — no resolved path escapes it.
pub proof fn lemma_target_keeps_root_prefix(root: Seq<char>, segs: Seq<Seq<char>>)
    ensures
        join_under_root(root, segs).len() >= root.len(),
        join_under_root(root, segs).subrange(0, root.len() as int) == root,
{
    if segs.len() == 0 {
        assert(join_under_root(root, segs).subrange(0, root.len() as int) =~= root);
    } else {
        assert(join_under_root(root, segs).subrange(0, root.len() as int) =~= root);
    }
}

/// How many `..` segments stand among the first `n`.
pub open spec fn parent_count(segs: Seq<Seq<char>>, n: int) -> int
    decreases n,
{
    if n <= 0 {
        0
    } else {
        parent_count(segs, n - 1) + if is_parent_seg(segs[n - 1]) {
            1int
        } else {
            0int
        }
    }
}

/// How many normal (pushed) segments stand among the first `n`.
pub open spec fn normal_count(segs: Seq<Seq<char>>, n: int) -> int
    decreases n,
{
    if n <= 0 {
        0
    } else {
        normal_count(segs, n - 1) + if wf_seg(segs[n - 1]) {
            1int
        } else {
            0int
        }
    }
}

/// The stack height after a successful prefix is the surplus of normal
/// segments over `..` segments, and a failure pinpoints a prefix where
/// the `..` segments outnumber them.
proof fn lemma_stack_height(segs: Seq<Seq<char>>, n: int)
    requires
        0 <= n <= segs.len(),
    ensures
        match normalize_prefix(segs, n) {
            Some(st) => st.len() == normal_count(segs, n) - parent_count(segs, n) && forall|j: int|
                0 <= j <= n ==> parent_count(segs, j) <= normal_count(segs, j),
            None => exists|j: int|
                0 <= j <= n && parent_count(segs, j) > normal_count(segs, j),
        },
    decreases n,
{
    if n > 0 {
        lemma_stack_height(segs, n - 1);
        let seg = segs[n - 1];
        match normalize_prefix(segs, n - 1) {
            None => {
                let j = choose|j: int|
                    0 <= j <= n - 1 && parent_count(segs, j) > normal_count(segs, j);
                assert(0 <= j <= n && parent_count(segs, j) > normal_count(segs, j));
            },
            Some(st) => {
                if is_parent_seg(seg) && st.len() == 0 {
                    assert(parent_count(segs, n) > normal_count(segs, n));
                }
            },
        }
    }
}

/// Resolution of a raw path fails exactly when some prefix of its segments
/// holds more `..` segments than normal ones: a climb above the root.
pub proof fn lemma_resolve_fails_iff_climb(raw: Seq<char>)
    ensures
        resolve_spec(raw) is None <==> exists|j: int|
            0 <= j <= split_on_slash(raw).len() && parent_count(split_on_slash(raw), j)
                > normal_count(split_on_slash(raw), j),
{
    let segs = split_on_slash(raw);
    lemma_stack_height(segs, segs.len() as int);
}

/// Every count of `..` segments is zero when no segment is `..`.
proof fn lemma_parent_count_zero(segs: Seq<Seq<char>>, n: int)
    requires
        forall|i: int| 0 <= i < n ==> !is_parent_seg(segs[i]),
    ensures
        parent_count(segs, n) == 0,
    decreases n,
{
    if n > 0 {
        lemma_parent_count_zero(segs, n - 1);
    }
}

/// A count of normal segments is never negative.
proof fn lemma_normal_count_nonneg(segs: Seq<Seq<char>>, n: int)
    ensures
        normal_count(segs, n) >= 0,
    decreases n,
{
    if n > 0 {
        lemma_normal_count_nonneg(segs, n - 1);
    }
}

/// A raw path without any `..` segment always resolves.
pub proof fn lemma_resolve_no_parent_succeeds(raw: Seq<char>)
    requires
        forall|i: int| 0 <= i < split_on_slash(raw).len() ==> !is_parent_seg(split_on_slash(raw)[i]),
    ensures
        resolve_spec(raw) is Some,
{
    let segs = split_on_slash(raw);
    lemma_stack_height(segs, segs.len() as int);
    if resolve_spec(raw) is None {
        let j = choose|j: int|
            0 <= j <= segs.len() && parent_count(segs, j) > normal_count(segs, j);
        lemma_parent_count_zero(segs, j);
        lemma_normal_count_nonneg(segs, j);
    }
}

/// Relies on `str::split` with a `'/'` pattern: the substrings between
/// `/` characters, in order, empty ones kept.
#[verifier::external_body]
fn split_slashes(s: &str) -> (r: Vec<String>)
    ensures
        r.deep_view() == split_on_slash(s@),
{
    s.split('/').map(|piece| piece.to_owned()).collect()
}

/// Normalizes the raw path `p` into a sandbox-relative path, or fails when a
/// `..` would climb above the root where walking began.
pub fn resolve_nested(p: &str) -> (r: Option<ResolvedPath>)
    ensures
        match r {
            Some(rp) => resolve_spec(p@) == Some(rp@) && rp.wf(),
            None => resolve_spec(p@) is None,
        },
{
    let pieces = split_slashes(p);
    let ghost gsegs = pieces.deep_view();
    let dot: String = ".".to_owned();
    let dotdot: String = "..".to_owned();
    proof {
        reveal_strlit(".");
        reveal_strlit("..");
        lemma_split_pieces_slash_free(p@);
    }
    let mut stack: Vec<String> = Vec::new();
    let mut i: usize = 0;
    while i < pieces.len()
        invariant
            i <= pieces.len(),
            gsegs == pieces.deep_view(),
            gsegs == split_on_slash(p@),
            dot@ == seq!['.'],
            dotdot@ == seq!['.', '.'],
            normalize_prefix(gsegs, i as int) == Some(stack.deep_view()),
            forall|k: int| 0 <= k < gsegs.len() ==> slash_free(#[trigger] gsegs[k]),
            forall|k: int|
                0 <= k < stack.deep_view().len() ==> wf_seg(#[trigger] stack.deep_view()[k])
                    && slash_free(stack.deep_view()[k]),
        decreases pieces.len() - i,
    {
        let ghost old_stack = stack.deep_view();
        let seg = &pieces[i];
        proof {
            assert(gsegs[i as int] == pieces@[i as int]@);
        }
        if seg.as_str().is_empty() || seg.eq(&dot) {
            proof {
                assert(is_skip_seg(gsegs[i as int]));
            }
        } else if seg.eq(&dotdot) {
            if stack.len() == 0 {
                proof {
                    assert(normalize_prefix(gsegs, i + 1) is None);
                    lemma_none_persists(gsegs, i + 1, gsegs.len() as int);
                }
                return None;
            }
            stack.pop();
            proof {
                assert(stack.deep_view() =~= old_stack.drop_last());
            }
        } else {
            stack.push(seg.clone());
            proof {
                assert(wf_seg(gsegs[i as int]));
                assert(stack.deep_view() =~= old_stack.push(gsegs[i as int]));
            }
        }
        i = i + 1;
    }
    proof {
        assert(normalize_segs(gsegs) == Some(stack.deep_view()));
    }
    Some(ResolvedPath { segments: stack })
}

} // verus!

