//! Pure path logic: splitting a relative path into segments, normalizing
//! `.` / `..` segments, and joining a validated path back under the root.
//!
//! All paths use `/` as the separator. The specification model splits a
//! path string into a sequence of segments; a path is accepted only when
//! its normalized segment stack stays strictly below the root.

use vstd::prelude::*;
use vstd::string::*;

verus! {

/// Segments of `s` split on `/`. Splitting never returns an empty
/// sequence: the empty string splits into one empty segment.
pub open spec fn split_path(s: Seq<char>) -> Seq<Seq<char>>
    decreases s.len(),
{
    if s.len() == 0 {
        seq![Seq::<char>::empty()]
    } else if s.last() == '/' {
        split_path(s.drop_last()).push(Seq::<char>::empty())
    } else {
        let r = split_path(s.drop_last());
        r.update(r.len() - 1, r.last().push(s.last()))
    }
}

/// Segments joined with `/` between them.
pub open spec fn join_segs(segs: Seq<Seq<char>>) -> Seq<char>
    decreases segs.len(),
{
    if segs.len() == 0 {
        Seq::<char>::empty()
    } else if segs.len() == 1 {
        segs[0]
    } else {
        join_segs(segs.drop_last()) + seq!['/'] + segs.last()
    }
}

/// A plain segment: nonempty, free of separators, and not starting with
/// `.` (which also rules out the special segments `.` and `..`).
pub open spec fn seg_plain(s: Seq<char>) -> bool {
    &&& s.len() > 0
    &&& s[0] != '.'
    &&& forall|i: int| 0 <= i < s.len() ==> s[i] != '/'
}

/// Normalization of a segment list as a stack: empty and `.` segments are
/// dropped, `..` pops the stack, and popping an empty stack means the path
/// escapes the root, which poisons the whole result.
pub open spec fn norm_stack(segs: Seq<Seq<char>>) -> Option<Seq<Seq<char>>>
    decreases segs.len(),
{
    if segs.len() == 0 {
        Some(Seq::<Seq<char>>::empty())
    } else {
        match norm_stack(segs.drop_last()) {
            None => None,
            Some(st) => {
                let sg = segs.last();
                if sg.len() == 0 || sg =~= seq!['.'] {
                    Some(st)
                } else if sg =~= seq!['.', '.'] {
                    if st.len() == 0 {
                        None
                    } else {
                        Some(st.drop_last())
                    }
                } else {
                    Some(st.push(sg))
                }
            },
        }
    }
}

/// The absolute path a request resolves to, if it resolves at all.
/// An absolute request, a request that normalizes outside the root, and a
/// request that normalizes to the root itself are all rejected.
pub open spec fn resolved_path(root: Seq<char>, req: Seq<char>) -> Option<Seq<char>> {
    if req.len() > 0 && req[0] == '/' {
        None
    } else {
        match norm_stack(split_path(req)) {
            None => None,
            Some(segs) => {
                if segs.len() == 0 {
                    None
                } else {
                    Some(root + seq!['/'] + join_segs(segs))
                }
            },
        }
    }
}

/// Character-for-character string equality, decided without any trusted
/// comparison.
pub fn str_eq(a: &str, b: &str) -> (r: bool)
    ensures
        r == (a@ == b@),
{
    let alen = a.unicode_len();
    let blen = b.unicode_len();
    if alen != blen {
        assert(a@ != b@) by {
            assert(a@.len() != b@.len());
        }
        return false;
    }
    let mut i: usize = 0;
    while i < alen
        invariant
            alen == a@.len(),
            alen == b@.len(),
            0 <= i <= alen,
            forall|j: int| 0 <= j < i ==> a@[j] == b@[j],
        decreases alen - i,
    {
        if a.get_char(i) != b.get_char(i) {
            return false;
        }
        i = i + 1;
    }
    proof {
        assert(a@ =~= b@);
    }
    true
}

/// The views of a sequence of owned strings.
pub open spec fn seg_views(v: Seq<String>) -> Seq<Seq<char>> {
    Seq::new(v.len(), |i: int| v[i]@)
}

/// Splitting always yields at least one segment.
pub proof fn lemma_split_len(s: Seq<char>)
    ensures
        split_path(s).len() >= 1,
    decreases s.len(),
{
    if s.len() > 0 {
        lemma_split_len(s.drop_last());
    }
}

/// Appending one character extends the last segment, or starts a new one.
pub proof fn lemma_split_step(s: Seq<char>, c: char)
    ensures
        c == '/' ==> split_path(s.push(c)) == split_path(s).push(Seq::<char>::empty()),
        c != '/' ==> split_path(s.push(c)) == split_path(s).update(
            split_path(s).len() - 1,
            split_path(s).last().push(c),
        ),
{
    lemma_split_len(s);
    assert(s.push(c).drop_last() =~= s);
    assert(s.push(c).last() == c);
}

/// A string without separators splits into just itself.
pub proof fn lemma_split_single(s: Seq<char>)
    requires
        forall|i: int| 0 <= i < s.len() ==> s[i] != '/',
    ensures
        split_path(s) == seq![s],
    decreases s.len(),
{
    if s.len() == 0 {
        assert(s =~= Seq::<char>::empty());
        assert(split_path(s) =~= seq![s]);
    } else {
        let d = s.drop_last();
        lemma_split_single(d);
        assert(d.push(s.last()) =~= s);
        assert(split_path(s) =~= seq![s]);
    }
}

/// Appending `/` and a separator-free segment appends one segment to the
/// split.
pub proof fn lemma_split_append(a: Seq<char>, seg: Seq<char>)
    requires
        forall|i: int| 0 <= i < seg.len() ==> seg[i] != '/',
    ensures
        split_path(a + seq!['/'] + seg) == split_path(a).push(seg),
    decreases seg.len(),
{
    lemma_split_len(a);
    if seg.len() == 0 {
        assert(a + seq!['/'] + seg =~= a.push('/'));
        lemma_split_step(a, '/');
        assert(seg =~= Seq::<char>::empty());
    } else {
        let d = seg.drop_last();
        let c = seg.last();
        lemma_split_append(a, d);
        assert(a + seq!['/'] + seg =~= (a + seq!['/'] + d).push(c));
        lemma_split_step(a + seq!['/'] + d, c);
        assert(split_path(a + seq!['/'] + d).last() == d);
        assert(d.push(c) =~= seg);
        assert(split_path(a + seq!['/'] + seg) =~= split_path(a).push(seg));
    }
}

/// Joining the segments of a split gives the path back.
pub proof fn lemma_join_split(s: Seq<char>)
    ensures
        join_segs(split_path(s)) == s,
    decreases s.len(),
{
    if s.len() == 0 {
        assert(join_segs(split_path(s)) =~= s);
    } else {
        let d = s.drop_last();
        lemma_join_split(d);
        lemma_split_len(d);
        let r = split_path(d);
        if s.last() == '/' {
            let u = r.push(Seq::<char>::empty());
            assert(u.drop_last() =~= r);
            if u.len() == 1 {
                assert(r.len() == 0);  // contradiction with lemma_split_len
            }
            assert(join_segs(u) == join_segs(r) + seq!['/'] + Seq::<char>::empty());
            assert(join_segs(u) =~= s);
        } else {
            let u = r.update(r.len() - 1, r.last().push(s.last()));
            if r.len() == 1 {
                assert(join_segs(u) == u[0]);
                assert(join_segs(r) == r[0]);
                assert(join_segs(u) =~= s);
            } else {
                let c = s.last();
                assert(u.drop_last() =~= r.drop_last());
                assert(join_segs(u) == join_segs(r.drop_last()) + seq!['/'] + r.last().push(c));
                assert(join_segs(r) == join_segs(r.drop_last()) + seq!['/'] + r.last());
                assert(join_segs(r.drop_last()) + seq!['/'] + r.last().push(c) =~= (join_segs(
                    r.drop_last(),
                ) + seq!['/'] + r.last()).push(c));
                assert(d.push(c) =~= s);
            }
        }
    }
}

/// Normalizing a list of plain segments changes nothing.
pub proof fn lemma_norm_plain(segs: Seq<Seq<char>>)
    requires
        forall|i: int| 0 <= i < segs.len() ==> seg_plain(#[trigger] segs[i]),
    ensures
        norm_stack(segs) == Some(segs),
    decreases segs.len(),
{
    if segs.len() == 0 {
        assert(norm_stack(segs) == Some(Seq::<Seq<char>>::empty()));
        assert(Seq::<Seq<char>>::empty() =~= segs);
    } else {
        let d = segs.drop_last();
        assert(forall|i: int| 0 <= i < d.len() ==> seg_plain(#[trigger] d[i]));
        lemma_norm_plain(d);
        let sg = segs.last();
        assert(seg_plain(sg));
        assert(sg.len() > 0);
        assert(sg != seq!['.']) by {
            assert(sg[0] != '.');
        }
        assert(sg != seq!['.', '.']) by {
            assert(sg[0] != '.');
        }
        assert(norm_stack(segs) == Some(d.push(sg)));
        assert(d.push(sg) =~= segs);
    }
}

/// Once a prefix of the segment list escapes, the whole list escapes.
pub proof fn lemma_norm_prefix_none(segs: Seq<Seq<char>>, k: int)
    requires
        0 <= k <= segs.len(),
        norm_stack(segs.take(k)) is None,
    ensures
        norm_stack(segs) is None,
    decreases segs.len() - k,
{
    if k == segs.len() {
        assert(segs.take(k) =~= segs);
    } else {
        assert(segs.take(k + 1).drop_last() =~= segs.take(k));
        assert(segs.take(k + 1).len() > 0);
        assert(norm_stack(segs.take(k + 1)) is None);
        lemma_norm_prefix_none(segs, k + 1);
    }
}

/// The first character of a joined list is the first character of its
/// first segment, and the join of nonempty segments is nonempty.
pub proof fn lemma_join_first(segs: Seq<Seq<char>>)
    requires
        segs.len() >= 1,
        segs[0].len() > 0,
    ensures
        join_segs(segs).len() > 0,
        join_segs(segs)[0] == segs[0][0],
    decreases segs.len(),
{
    if segs.len() > 1 {
        assert(segs.drop_last()[0] == segs[0]);
        lemma_join_first(segs.drop_last());
    }
}

/// A request that normalizes outside the root — its segments pop the
/// stack past empty — is never resolved, whatever the root.
pub proof fn lemma_escape_rejected(root: Seq<char>, req: Seq<char>)
    requires
        norm_stack(split_path(req)) is None,
    ensures
        resolved_path(root, req) is None,
{
}

/// Splits `s` into its `/`-separated segments.
pub fn split_exec(s: &str) -> (r: Vec<String>)
    ensures
        seg_views(r@) == split_path(s@),
{
    let n = s.unicode_len();
    let mut parts: Vec<String> = Vec::new();
    let mut cur: String = String::new();
    let mut i: usize = 0;
    while i < n
        invariant
            n == s@.len(),
            0 <= i <= n,
            split_path(s@.take(i as int)) == seg_views(parts@).push(cur@),
        decreases n - i,
    {
        let c = s.get_char(i);
        proof {
            assert(s@.take(i + 1).drop_last() =~= s@.take(i as int));
            lemma_split_len(s@.take(i as int));
        }
        if c == '/' {
            parts.push(cur);
            cur = String::new();
            proof {
                assert(split_path(s@.take(i + 1)) == split_path(s@.take(i as int)).push(
                    Seq::<char>::empty(),
                ));
                assert(seg_views(parts@).push(cur@) =~= split_path(s@.take(i + 1)));
            }
        } else {
            let piece = s.substring_char(i, i + 1);
            proof {
                assert(piece@ =~= seq![s@[i as int]]);
            }
            cur.append(piece);
            proof {
                let prev = split_path(s@.take(i as int));
                assert(split_path(s@.take(i + 1)) == prev.update(prev.len() - 1, prev.last().push(
                    c,
                )));
                assert(cur@ =~= prev.last().push(c));
                assert(seg_views(parts@).push(cur@) =~= split_path(s@.take(i + 1)));
            }
        }
        i = i + 1;
    }
    proof {
        assert(s@.take(n as int) =~= s@);
    }
    parts.push(cur);
    proof {
        assert(seg_views(parts@) =~= split_path(s@));
    }
    parts
}

/// Joins the root, a separator, and the given segments with `/` between
/// them.
fn join_under_root(root: &str, segs: &Vec<String>) -> (r: String)
    requires
        segs@.len() > 0,
    ensures
        r@ == root@ + seq!['/'] + join_segs(seg_views(segs@)),
{
    let mut out: String = root.to_owned();
    out.append("/");
    proof {
        reveal_strlit("/");
        assert(out@ =~= root@ + seq!['/']);
    }
    let mut j: usize = 0;
    while j < segs.len()
        invariant
            0 <= j <= segs@.len(),
            segs@.len() > 0,
            j == 0 ==> out@ == root@ + seq!['/'],
            j >= 1 ==> out@ == root@ + seq!['/'] + join_segs(seg_views(segs@).take(j as int)),
        decreases segs@.len() - j,
    {
        if j > 0 {
            out.append("/");
            proof {
                reveal_strlit("/");
            }
        }
        out.append(segs[j].as_str());
        proof {
            let vs = seg_views(segs@);
            assert(vs.take(j + 1).drop_last() =~= vs.take(j as int));
            if j == 0 {
                assert(join_segs(vs.take(1)) == vs[0]);
                assert(out@ =~= root@ + seq!['/'] + join_segs(vs.take(1)));
            } else {
                assert(join_segs(vs.take(j + 1)) == join_segs(vs.take(j as int)) + seq!['/']
                    + vs[j as int]);
                assert(out@ =~= root@ + seq!['/'] + join_segs(vs.take(j + 1)));
            }
        }
        j = j + 1;
    }
    proof {
        assert(seg_views(segs@).take(segs@.len() as int) =~= seg_views(segs@));
    }
    out
}

/// Joins `req` under `root`, normalizing `.` and `..` segments, and
/// rejects any request that is absolute, escapes the root, or normalizes
/// to the root itself. The result, when there is one, is exactly the
/// normalized path directly under the root; a request that normalizes
/// outside the root never gets one.
pub fn safe_join(root: &str, req: &str) -> (r: Option<String>)
    ensures
        r is Some <==> resolved_path(root@, req@) is Some,
        r matches Some(p) ==> Some(p@) == resolved_path(root@, req@),
{
    if req.unicode_len() > 0 && req.get_char(0) == '/' {
        return None;
    }
    let segs = split_exec(req);
    let ghost sv = split_path(req@);
    let mut stack: Vec<String> = Vec::new();
    let mut k: usize = 0;
    while k < segs.len()
        invariant
            seg_views(segs@) == sv,
            sv == split_path(req@),
            0 <= k <= segs@.len(),
            norm_stack(sv.take(k as int)) == Some(seg_views(stack@)),
        decreases segs@.len() - k,
    {
        proof {
            assert(sv.take(k + 1).drop_last() =~= sv.take(k as int));
            assert(sv.take(k + 1).last() == sv[k as int]);
            assert(sv[k as int] == segs@[k as int]@);
        }
        let sg = &segs[k];
        let len = sg.as_str().unicode_len();
        if len == 0 {
            // an empty segment (doubled or trailing separator) is dropped
        } else if len == 1 && sg.as_str().get_char(0) == '.' {
            proof {
                assert(sg@ =~= seq!['.']);
            }
        } else if len == 2 && sg.as_str().get_char(0) == '.' && sg.as_str().get_char(1) == '.' {
            proof {
                assert(sg@ =~= seq!['.', '.']);
            }
            if stack.len() == 0 {
                proof {
                    assert(seg_views(stack@).len() == 0);
                    assert(norm_stack(sv.take(k + 1)) is None);
                    lemma_norm_prefix_none(sv, k + 1);
                }
                return None;
            }
            let ghost old_stack = stack@;
            stack.pop();
            proof {
                assert(seg_views(stack@) =~= seg_views(old_stack).drop_last());
            }
        } else {
            proof {
                assert(sg@.len() > 0);
                assert(sg@ != seq!['.']) by {
                    if sg@ =~= seq!['.'] {
                        assert(sg@.len() == 1);
                    }
                }
                assert(sg@ != seq!['.', '.']) by {
                    if sg@ =~= seq!['.', '.'] {
                        assert(sg@.len() == 2);
                        assert(sg@[0] == '.' && sg@[1] == '.');
                    }
                }
            }
            let ghost old_stack = stack@;
            stack.push(sg.clone());
            proof {
                assert(seg_views(stack@) =~= seg_views(old_stack).push(sg@));
            }
        }
        k = k + 1;
    }
    proof {
        assert(sv.take(segs@.len() as int) =~= sv);
    }
    if stack.len() == 0 {
        proof {
            assert(seg_views(stack@).len() == 0);
        }
        return None;
    }
    Some(join_under_root(root, &stack))
}

/// A relative path made of plain segments resolves, and resolves to
/// itself joined directly under the root: the index never records a path
/// that the resolver would reject or reroute.
pub proof fn lemma_plain_path_resolves(root: Seq<char>, rel: Seq<char>)
    requires
        forall|i: int| 0 <= i < split_path(rel).len() ==> seg_plain(#[trigger] split_path(rel)[i]),
    ensures
        resolved_path(root, rel) == Some(root + seq!['/'] + rel),
{
    let segs = split_path(rel);
    lemma_split_len(rel);
    lemma_norm_plain(segs);
    lemma_join_split(rel);
    lemma_join_first(segs);
    assert(rel.len() > 0 && rel[0] != '/') by {
        assert(seg_plain(segs[0]));
        assert(join_segs(segs)[0] == segs[0][0]);
    }
}

} // verus!
