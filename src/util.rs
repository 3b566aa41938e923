use vstd::prelude::*;

use crate::text::chars_of;
use crate::text::string_of;

verus! {

/// The pieces of `s` between the `'/'` characters, as `str::split('/')`
/// yields them: there is always at least one, possibly empty.
pub open spec fn split_slash(s: Seq<char>) -> Seq<Seq<char>>
    decreases s.len(),
{
    if s.len() == 0 {
        seq![Seq::<char>::empty()]
    } else {
        let prev = split_slash(s.drop_last());
        if s.last() == '/' {
            prev.push(Seq::<char>::empty())
        } else {
            prev.update(prev.len() - 1, prev.last().push(s.last()))
        }
    }
}

/// [`split_slash`] yields at least one piece.
pub proof fn lemma_split_nonempty(s: Seq<char>)
    ensures
        split_slash(s).len() >= 1,
    decreases s.len(),
{
    if s.len() > 0 {
        lemma_split_nonempty(s.drop_last());
    }
}

/// The pieces joined with `'/'` between them.
pub open spec fn join_slash(segs: Seq<Seq<char>>) -> Seq<char>
    decreases segs.len(),
{
    if segs.len() == 0 {
        Seq::<char>::empty()
    } else if segs.len() == 1 {
        segs[0]
    } else {
        join_slash(segs.drop_last()) + seq!['/'] + segs.last()
    }
}

pub open spec fn is_dot(seg: Seq<char>) -> bool {
    seg == seq!['.']
}

pub open spec fn is_dot_dot(seg: Seq<char>) -> bool {
    seg == seq!['.', '.']
}

/// Reads the segments left to right: empty and `"."` segments are dropped,
/// `".."` drops the segment before it, and fails where there is none.
pub open spec fn normalize_segments(segs: Seq<Seq<char>>) -> Option<Seq<Seq<char>>>
    decreases segs.len(),
{
    if segs.len() == 0 {
        Some(Seq::<Seq<char>>::empty())
    } else {
        match normalize_segments(segs.drop_last()) {
            None => None,
            Some(kept) => {
                let seg = segs.last();
                if seg.len() == 0 || is_dot(seg) {
                    Some(kept)
                } else if is_dot_dot(seg) {
                    if kept.len() == 0 {
                        None
                    } else {
                        Some(kept.drop_last())
                    }
                } else {
                    Some(kept.push(seg))
                }
            },
        }
    }
}

/// The normal form of a `/`-separated path, or `None` where it would have to
/// start with `".."`.
pub open spec fn spec_normalize_path(s: Seq<char>) -> Option<Seq<char>> {
    match normalize_segments(split_slash(s)) {
        Some(segs) => Some(join_slash(segs)),
        None => None,
    }
}

/// One step of [`normalize_segments`] on an already kept prefix.
pub open spec fn step_segment(kept: Option<Seq<Seq<char>>>, seg: Seq<char>) -> Option<Seq<Seq<char>>> {
    match kept {
        None => None,
        Some(kept) => {
            if seg.len() == 0 || is_dot(seg) {
                Some(kept)
            } else if is_dot_dot(seg) {
                if kept.len() == 0 {
                    None
                } else {
                    Some(kept.drop_last())
                }
            } else {
                Some(kept.push(seg))
            }
        },
    }
}

proof fn lemma_normalize_step(segs: Seq<Seq<char>>, seg: Seq<char>)
    ensures
        normalize_segments(segs.push(seg)) == step_segment(normalize_segments(segs), seg),
{
    assert(segs.push(seg).drop_last() =~= segs);
}

/// The views of the segments in `v`.
pub open spec fn views(v: Seq<Vec<char>>) -> Seq<Seq<char>> {
    v.map_values(|x: Vec<char>| x@)
}

fn is_dot_exec(seg: &Vec<char>) -> (r: bool)
    ensures
        r == is_dot(seg@),
{
    if seg.len() == 1 && seg[0] == '.' {
        proof {
            assert(seg@ =~= seq!['.']);
        }
        true
    } else {
        false
    }
}

fn is_dot_dot_exec(seg: &Vec<char>) -> (r: bool)
    ensures
        r == is_dot_dot(seg@),
{
    if seg.len() == 2 && seg[0] == '.' && seg[1] == '.' {
        proof {
            assert(seg@ =~= seq!['.', '.']);
        }
        true
    } else {
        false
    }
}

/// Joins the segments with `'/'`.
fn join_segments(segs: &Vec<Vec<char>>) -> (r: Vec<char>)
    ensures
        r@ == join_slash(views(segs@)),
{
    let mut out: Vec<char> = Vec::new();
    let mut k: usize = 0;
    while k < segs.len()
        invariant
            k <= segs@.len(),
            out@ == join_slash(views(segs@).subrange(0, k as int)),
        decreases segs@.len() - k,
    {
        if k > 0 {
            out.push('/');
        }
        let seg = &segs[k];
        let mut j: usize = 0;
        let ghost at_start = out@;
        while j < seg.len()
            invariant
                j <= seg@.len(),
                out@ == at_start + seg@.subrange(0, j as int),
            decreases seg@.len() - j,
        {
            out.push(seg[j]);
            proof {
                assert(seg@.subrange(0, j + 1) =~= seg@.subrange(0, j as int).push(seg@[j as int]));
            }
            j = j + 1;
        }
        proof {
            assert(seg@.subrange(0, seg@.len() as int) =~= seg@);
            let v = views(segs@);
            assert(v.subrange(0, k + 1).drop_last() =~= v.subrange(0, k as int));
            if k == 0 {
                assert(at_start =~= Seq::<char>::empty());
                assert(out@ =~= seg@);
            } else {
                assert(at_start =~= join_slash(v.subrange(0, k as int)) + seq!['/']);
                assert(out@ =~= join_slash(v.subrange(0, k as int)) + seq!['/'] + seg@);
            }
        }
        k = k + 1;
    }
    proof {
        assert(views(segs@).subrange(0, segs@.len() as int) =~= views(segs@));
    }
    out
}

fn normalize_chars(s: &Vec<char>) -> (r: Option<Vec<char>>)
    ensures
        match r {
            Some(v) => spec_normalize_path(s@) == Some(v@),
            None => spec_normalize_path(s@) is None,
        },
{
    let mut kept: Vec<Vec<char>> = Vec::new();
    let mut failed = false;
    let mut current: Vec<char> = Vec::new();
    let mut i: usize = 0;
    while i < s.len()
        invariant
            i <= s@.len(),
            split_slash(s@.subrange(0, i as int)).len() >= 1,
            split_slash(s@.subrange(0, i as int)).last() == current@,
            normalize_segments(split_slash(s@.subrange(0, i as int)).drop_last()) == if failed {
                None
            } else {
                Some(views(kept@))
            },
        decreases s@.len() - i,
    {
        let c = s[i];
        let ghost prefix = s@.subrange(0, i as int);
        let ghost next = s@.subrange(0, i + 1);
        proof {
            lemma_split_nonempty(next);
            assert(next.drop_last() =~= prefix);
            assert(next.last() == c);
        }
        if c == '/' {
            let ghost old_kept = views(kept@);
            proof {
                assert(split_slash(next).drop_last() =~= split_slash(prefix));
                assert(split_slash(prefix) =~= split_slash(prefix).drop_last().push(current@));
                lemma_normalize_step(split_slash(prefix).drop_last(), current@);
            }
            if failed || current.len() == 0 || is_dot_exec(&current) {
            } else if is_dot_dot_exec(&current) {
                if kept.len() == 0 {
                    failed = true;
                } else {
                    kept.pop();
                    proof {
                        assert(views(kept@) =~= old_kept.drop_last());
                    }
                }
            } else {
                let seg = current;
                kept.push(seg);
                proof {
                    assert(views(kept@) =~= old_kept.push(seg@));
                }
            }
            current = Vec::new();
            proof {
                assert(split_slash(next).last() =~= Seq::<char>::empty());
            }
        } else {
            current.push(c);
            proof {
                let p = split_slash(prefix);
                assert(split_slash(next).drop_last() =~= p.drop_last());
            }
        }
        i = i + 1;
    }
    proof {
        assert(s@.subrange(0, s@.len() as int) =~= s@);
        let p = split_slash(s@);
        assert(p =~= p.drop_last().push(current@));
        lemma_normalize_step(p.drop_last(), current@);
    }
    if failed {
        return None;
    }
    let ghost old_kept = views(kept@);
    if current.len() == 0 || is_dot_exec(&current) {
    } else if is_dot_dot_exec(&current) {
        if kept.len() == 0 {
            return None;
        }
        kept.pop();
        proof {
            assert(views(kept@) =~= old_kept.drop_last());
        }
    } else {
        let seg = current;
        kept.push(seg);
        proof {
            assert(views(kept@) =~= old_kept.push(seg@));
        }
    }
    Some(join_segments(&kept))
}

/// Normalizes a `/`-separated path: no leading `/`, no double `/`, no `"."`
/// and no `".."` segment. Returns `None` where the path would have to start
/// with `".."`.
pub fn normalize_path(str: &str) -> (r: Option<String>)
    ensures
        match r {
            Some(v) => spec_normalize_path(str@) == Some(v@),
            None => spec_normalize_path(str@) is None,
        },
{
    let chars = chars_of(str);
    match normalize_chars(&chars) {
        Some(v) => Some(string_of(&v)),
        None => None,
    }
}

/// Converts a system path into a Unix path. The system separator of this
/// library is `/`, so the path comes back as it is.
pub fn sys_to_unix(path: &str) -> (r: String)
    ensures
        r@ == path@,
{
    path.to_owned()
}

/// Converts a Unix path into a system path. The system separator of this
/// library is `/`, so the path comes back as it is.
pub fn unix_to_sys(path: &str) -> (r: String)
    ensures
        r@ == path@,
{
    path.to_owned()
}

/// The path that [`join_path`] normalizes.
pub open spec fn joined(fs_path: Seq<char>, join: Seq<char>) -> Seq<char> {
    if fs_path.len() == 0 {
        join
    } else if join.len() == 0 {
        fs_path
    } else {
        fs_path + seq!['/'] + join
    }
}

/// Joins two `/`-separated paths with `/` and normalizes the result (see
/// [`normalize_path`]).
pub fn join_path(fs_path: &str, join: &str) -> (r: Option<String>)
    ensures
        match r {
            Some(v) => spec_normalize_path(joined(fs_path@, join@)) == Some(v@),
            None => spec_normalize_path(joined(fs_path@, join@)) is None,
        },
{
    let a = chars_of(fs_path);
    let b = chars_of(join);
    let mut all: Vec<char> = Vec::new();
    if a.len() == 0 {
        all = b;
    } else if b.len() == 0 {
        all = a;
    } else {
        all = a;
        all.push('/');
        let mut j: usize = 0;
        let ghost start = all@;
        while j < b.len()
            invariant
                j <= b@.len(),
                all@ == start + b@.subrange(0, j as int),
            decreases b@.len() - j,
        {
            all.push(b[j]);
            proof {
                assert(b@.subrange(0, j + 1) =~= b@.subrange(0, j as int).push(b@[j as int]));
            }
            j = j + 1;
        }
        proof {
            assert(b@.subrange(0, b@.len() as int) =~= b@);
        }
    }
    proof {
        assert(all@ =~= joined(fs_path@, join@));
    }
    match normalize_chars(&all) {
        Some(v) => Some(string_of(&v)),
        None => None,
    }
}

/// The state while reading a request: the segments kept, how many of them
/// are directories that a `".."` may still drop, and whether the leading
/// `"."` was given up for a `".."`.
pub type RequestState = (Seq<Seq<char>>, nat, bool);

/// One segment of a request.
pub open spec fn request_step(st: RequestState, seg: Seq<char>) -> RequestState {
    let (segs, depth, popped_dot) = st;
    if is_dot(seg) {
        st
    } else if is_dot_dot(seg) {
        if depth > 0 {
            (segs.drop_last(), (depth - 1) as nat, popped_dot)
        } else if !popped_dot {
            (segs.drop_last().push(seq!['.', '.']), depth, true)
        } else {
            (segs.push(seq!['.', '.']), depth, popped_dot)
        }
    } else {
        (segs.push(seg), depth + 1, popped_dot)
    }
}

/// The state after reading `segs`, starting from the single segment `"."`.
pub open spec fn request_fold(segs: Seq<Seq<char>>) -> RequestState
    decreases segs.len(),
{
    if segs.len() == 0 {
        (seq![seq!['.']], 0, false)
    } else {
        request_step(request_fold(segs.drop_last()), segs.last())
    }
}

/// The normal form of a request: it starts with a single `"."` segment, or
/// with one or more `".."` segments, and has no other `"."` or `".."`.
pub open spec fn spec_normalize_request(s: Seq<char>) -> Seq<char> {
    join_slash(request_fold(split_slash(s)).0)
}

proof fn lemma_request_fold_push(segs: Seq<Seq<char>>, seg: Seq<char>)
    ensures
        request_fold(segs.push(seg)) == request_step(request_fold(segs), seg),
{
    assert(segs.push(seg).drop_last() =~= segs);
}

/// The kept segments hold the leading `"."` until it is given up, and at
/// least as many segments as `depth`.
proof fn lemma_request_fold_shape(segs: Seq<Seq<char>>)
    ensures
        request_fold(segs).0.len() >= request_fold(segs).1 + if request_fold(segs).2 { 0int } else { 1int },
        request_fold(segs).1 <= segs.len(),
    decreases segs.len(),
{
    if segs.len() > 0 {
        lemma_request_fold_shape(segs.drop_last());
    }
}

fn step_request(kept: &mut Vec<Vec<char>>, depth: &mut usize, popped_dot: &mut bool, seg: Vec<char>)
    requires
        *old(depth) < usize::MAX,
        old(kept)@.len() >= *old(depth) + if *old(popped_dot) { 0int } else { 1int },
    ensures
        (views(final(kept)@), *final(depth) as nat, *final(popped_dot)) == request_step(
            (views(old(kept)@), *old(depth) as nat, *old(popped_dot)),
            seg@,
        ),
        *final(depth) <= *old(depth) + 1,
{
    let ghost v = views(kept@);
    if is_dot_exec(&seg) {
    } else if is_dot_dot_exec(&seg) {
        if *depth > 0 {
            *depth = *depth - 1;
            kept.pop();
            proof {
                assert(views(kept@) =~= v.drop_last());
            }
        } else {
            let ghost was_popped = *popped_dot;
            if !*popped_dot {
                *popped_dot = true;
                kept.pop();
            }
            kept.push(seg);
            proof {
                if !was_popped {
                    assert(views(kept@) =~= v.drop_last().push(seq!['.', '.']));
                } else {
                    assert(views(kept@) =~= v.push(seq!['.', '.']));
                }
            }
        }
    } else {
        kept.push(seg);
        *depth = *depth + 1;
        proof {
            assert(views(kept@) =~= v.push(seg@));
        }
    }
}

/// Normalizes a `/`-separated request: no leading `/`, no double `/`, and
/// no `"."` or `".."` segment in the middle. The result starts with a single
/// `"."` segment, or with one or more `".."` segments.
pub fn normalize_request(str: &str) -> (r: String)
    requires
        str@.len() < usize::MAX,
    ensures
        r@ == spec_normalize_request(str@),
{
    let s = chars_of(str);
    let mut dot: Vec<char> = Vec::new();
    dot.push('.');
    let mut kept: Vec<Vec<char>> = Vec::new();
    kept.push(dot);
    proof {
        assert(views(kept@) =~= seq![seq!['.']]);
    }
    let mut depth: usize = 0;
    let mut popped_dot = false;
    let mut current: Vec<char> = Vec::new();
    let mut i: usize = 0;
    while i < s.len()
        invariant
            i <= s@.len(),
            s@ == str@,
            split_slash(s@.subrange(0, i as int)).len() >= 1,
            split_slash(s@.subrange(0, i as int)).last() == current@,
            request_fold(split_slash(s@.subrange(0, i as int)).drop_last()) == (
                views(kept@),
                depth as nat,
                popped_dot,
            ),
        decreases s@.len() - i,
    {
        let c = s[i];
        let ghost prefix = s@.subrange(0, i as int);
        let ghost next = s@.subrange(0, i + 1);
        proof {
            lemma_split_nonempty(next);
            assert(next.drop_last() =~= prefix);
        }
        if c == '/' {
            proof {
                assert(split_slash(next).drop_last() =~= split_slash(prefix));
                assert(split_slash(prefix) =~= split_slash(prefix).drop_last().push(current@));
                lemma_request_fold_push(split_slash(prefix).drop_last(), current@);
                lemma_request_fold_shape(split_slash(prefix).drop_last());
                lemma_split_len(prefix);
                assert(split_slash(prefix).drop_last().len() <= i);
            }
            let seg = current;
            step_request(&mut kept, &mut depth, &mut popped_dot, seg);
            current = Vec::new();
            proof {
                assert(split_slash(next).last() =~= Seq::<char>::empty());
            }
        } else {
            current.push(c);
            proof {
                let p = split_slash(prefix);
                assert(split_slash(next).drop_last() =~= p.drop_last());
            }
        }
        i = i + 1;
    }
    proof {
        assert(s@.subrange(0, s@.len() as int) =~= s@);
        lemma_split_nonempty(s@);
        let p = split_slash(s@);
        assert(p =~= p.drop_last().push(current@));
        lemma_request_fold_push(p.drop_last(), current@);
        lemma_request_fold_shape(p.drop_last());
        lemma_split_len(s@);
    }
    let seg = current;
    step_request(&mut kept, &mut depth, &mut popped_dot, seg);
    let out = join_segments(&kept);
    string_of(&out)
}

proof fn lemma_split_len(s: Seq<char>)
    ensures
        split_slash(s).len() <= s.len() + 1,
    decreases s.len(),
{
    if s.len() > 0 {
        lemma_split_len(s.drop_last());
        lemma_split_nonempty(s.drop_last());
    }
}

} // verus!
