use vstd::prelude::*;

use crate::text::chars_of;
use crate::text::string_of;
use crate::util::is_dot;
use crate::util::join_slash;
use crate::util::lemma_split_nonempty;
use crate::util::split_slash;

verus! {

/// A segment that names something: neither empty nor `"."`.
pub open spec fn is_named(seg: Seq<char>) -> bool {
    seg.len() > 0 && !is_dot(seg)
}

/// The named segments among `segs`, in order.
pub open spec fn named_segments(segs: Seq<Seq<char>>) -> Seq<Seq<char>>
    decreases segs.len(),
{
    if segs.len() == 0 {
        Seq::<Seq<char>>::empty()
    } else if is_named(segs.last()) {
        named_segments(segs.drop_last()).push(segs.last())
    } else {
        named_segments(segs.drop_last())
    }
}

/// The components of a `/`-separated path: its named segments. A leading
/// `/` (the root) is not a component.
pub open spec fn path_components(s: Seq<char>) -> Seq<Seq<char>> {
    named_segments(split_slash(s))
}

/// `s` starts at the root.
pub open spec fn is_rooted(s: Seq<char>) -> bool {
    s.len() > 0 && s[0] == '/'
}

/// The text of a path with components `comps`, rooted or not.
pub open spec fn render(rooted: bool, comps: Seq<Seq<char>>) -> Seq<char> {
    if rooted {
        seq!['/'] + join_slash(comps)
    } else {
        join_slash(comps)
    }
}

/// The character views of `v`.
pub open spec fn string_views(v: Seq<String>) -> Seq<Seq<char>> {
    v.map_values(|s: String| s@)
}

proof fn lemma_views_push(v: Seq<String>, x: String)
    ensures
        string_views(v.push(x)) == string_views(v).push(x@),
{
    assert(string_views(v.push(x)) =~= string_views(v).push(x@));
}

/// `base` is a leading part of `comps`, component by component.
pub open spec fn has_prefix(comps: Seq<Seq<char>>, base: Seq<Seq<char>>) -> bool {
    base.len() <= comps.len() && comps.subrange(0, base.len() as int) == base
}

/// `child` is a trailing part of `comps`, component by component.
pub open spec fn has_suffix(comps: Seq<Seq<char>>, child: Seq<Seq<char>>) -> bool {
    child.len() <= comps.len() && comps.subrange(comps.len() - child.len(), comps.len() as int)
        == child
}

/// How many leading components `a` and `b` share, counting from `i`.
pub open spec fn shared_from(a: Seq<Seq<char>>, b: Seq<Seq<char>>, i: nat) -> nat
    decreases a.len() - i,
{
    if i < a.len() && i < b.len() && a[i as int] == b[i as int] {
        shared_from(a, b, i + 1)
    } else {
        i
    }
}

/// The components of a path from `from` to `to`: one `".."` for each
/// component of `from` past the shared prefix, then the rest of `to`.
pub open spec fn spec_relative_path(from: Seq<Seq<char>>, to: Seq<Seq<char>>) -> Seq<Seq<char>> {
    let k = shared_from(from, to, 0);
    Seq::new((from.len() - k) as nat, |i: int| seq!['.', '.']) + to.subrange(k as int, to.len() as int)
}

/// The last component, unless the path ends in `".."` or has none.
pub open spec fn spec_file_name(comps: Seq<Seq<char>>) -> Option<Seq<char>> {
    if comps.len() == 0 || comps.last() == seq!['.', '.'] {
        None
    } else {
        Some(comps.last())
    }
}

/// Index of the last `'.'` in `name` before `end`, if any.
pub open spec fn last_dot_before(name: Seq<char>, end: int) -> Option<int>
    decreases end,
{
    if end <= 0 {
        None
    } else if name[end - 1] == '.' {
        Some(end - 1)
    } else {
        last_dot_before(name, end - 1)
    }
}

/// What follows the last `'.'` of a file name; none where the name has no
/// `'.'` or only a leading one.
pub open spec fn spec_extension(comps: Seq<Seq<char>>) -> Option<Seq<char>> {
    match spec_file_name(comps) {
        None => None,
        Some(name) => match last_dot_before(name, name.len() as int) {
            Some(i) if i > 0 => Some(name.subrange(i + 1, name.len() as int)),
            _ => None,
        },
    }
}

proof fn lemma_named_push(segs: Seq<Seq<char>>, seg: Seq<char>)
    ensures
        named_segments(segs.push(seg)) == if is_named(seg) {
            named_segments(segs).push(seg)
        } else {
            named_segments(segs)
        },
{
    assert(segs.push(seg).drop_last() =~= segs);
}

/// The components of `s`.
pub fn parse_components(s: &str) -> (r: Vec<String>)
    ensures
        string_views(r@) == path_components(s@),
{
    let chars = chars_of(s);
    let mut out: Vec<String> = Vec::new();
    let mut current: Vec<char> = Vec::new();
    let mut i: usize = 0;
    while i < chars.len()
        invariant
            i <= chars@.len(),
            chars@ == s@,
            split_slash(chars@.subrange(0, i as int)).len() >= 1,
            split_slash(chars@.subrange(0, i as int)).last() == current@,
            named_segments(split_slash(chars@.subrange(0, i as int)).drop_last()) == string_views(
                out@,
            ),
        decreases chars@.len() - i,
    {
        let c = chars[i];
        let ghost prefix = chars@.subrange(0, i as int);
        let ghost next = chars@.subrange(0, i + 1);
        proof {
            lemma_split_nonempty(next);
            assert(next.drop_last() =~= prefix);
        }
        if c == '/' {
            let ghost before = string_views(out@);
            proof {
                assert(split_slash(next).drop_last() =~= split_slash(prefix));
                assert(split_slash(prefix) =~= split_slash(prefix).drop_last().push(current@));
                lemma_named_push(split_slash(prefix).drop_last(), current@);
            }
            if current.len() > 0 && !(current.len() == 1 && current[0] == '.') {
                let seg = string_of(&current);
                let ghost pre_out = out@;
                out.push(seg);
                proof {
                    lemma_views_push(pre_out, seg);
                    assert(current@ != seq!['.']);
                    assert(string_views(out@) =~= before.push(current@));
                }
            } else {
                proof {
                    if current@.len() == 1 {
                        assert(current@ =~= seq!['.']);
                    }
                }
            }
            current = Vec::new();
            proof {
                assert(split_slash(next).last() =~= Seq::<char>::empty());
            }
        } else {
            current.push(c);
            proof {
                let p = split_slash(prefix);
                assert(split_slash(next).drop_last() =~= p.drop_last());
            }
        }
        i = i + 1;
    }
    proof {
        assert(chars@.subrange(0, chars@.len() as int) =~= chars@);
        lemma_split_nonempty(chars@);
        let p = split_slash(chars@);
        assert(p =~= p.drop_last().push(current@));
        lemma_named_push(p.drop_last(), current@);
    }
    let ghost before = string_views(out@);
    if current.len() > 0 && !(current.len() == 1 && current[0] == '.') {
        let seg = string_of(&current);
        let ghost pre_out = out@;
        out.push(seg);
        proof {
            lemma_views_push(pre_out, seg);
            assert(current@ != seq!['.']);
            assert(string_views(out@) =~= before.push(current@));
        }
    } else {
        proof {
            if current@.len() == 1 {
                assert(current@ =~= seq!['.']);
            }
        }
    }
    out
}

/// Whether `s` starts at the root.
pub fn starts_at_root(s: &str) -> (r: bool)
    ensures
        r == is_rooted(s@),
{
    let chars = chars_of(s);
    chars.len() > 0 && chars[0] == '/'
}

/// The text of a path with components `comps`, rooted or not.
pub fn render_components(rooted: bool, comps: &Vec<String>) -> (r: String)
    ensures
        r@ == render(rooted, string_views(comps@)),
{
    let mut out: Vec<char> = Vec::new();
    if rooted {
        out.push('/');
    }
    let ghost lead = out@;
    let mut k: usize = 0;
    while k < comps.len()
        invariant
            k <= comps@.len(),
            lead == if rooted { seq!['/'] } else { Seq::<char>::empty() },
            out@ == lead + join_slash(string_views(comps@).subrange(0, k as int)),
        decreases comps@.len() - k,
    {
        let ghost before = out@;
        if k > 0 {
            out.push('/');
        }
        let seg = chars_of(comps[k].as_str());
        let ghost mid = out@;
        let mut j: usize = 0;
        while j < seg.len()
            invariant
                j <= seg@.len(),
                out@ == mid + seg@.subrange(0, j as int),
            decreases seg@.len() - j,
        {
            out.push(seg[j]);
            proof {
                assert(seg@.subrange(0, j + 1) =~= seg@.subrange(0, j as int).push(seg@[j as int]));
            }
            j = j + 1;
        }
        proof {
            assert(seg@.subrange(0, seg@.len() as int) =~= seg@);
            let v = string_views(comps@);
            assert(v[k as int] == comps@[k as int]@);
            assert(v.subrange(0, k + 1).drop_last() =~= v.subrange(0, k as int));
            if k == 0 {
                assert(out@ =~= lead + join_slash(v.subrange(0, k + 1)));
            } else {
                assert(out@ =~= lead + (join_slash(v.subrange(0, k as int)) + seq!['/'] + seg@));
                assert(out@ =~= lead + join_slash(v.subrange(0, k + 1)));
            }
        }
        k = k + 1;
    }
    proof {
        assert(string_views(comps@).subrange(0, comps@.len() as int) =~= string_views(comps@));
        assert(out@ =~= render(rooted, string_views(comps@)));
    }
    string_of(&out)
}

/// A copy of the components.
pub fn copy_components(comps: &Vec<String>) -> (r: Vec<String>)
    ensures
        string_views(r@) == string_views(comps@),
{
    let mut out: Vec<String> = Vec::new();
    let mut k: usize = 0;
    while k < comps.len()
        invariant
            k <= comps@.len(),
            string_views(out@) == string_views(comps@).subrange(0, k as int),
        decreases comps@.len() - k,
    {
        let c = comps[k].clone();
        let ghost before = out@;
        out.push(c);
        proof {
            lemma_views_push(before, c);
            assert(string_views(out@) =~= string_views(comps@).subrange(0, k + 1));
        }
        k = k + 1;
    }
    proof {
        assert(string_views(comps@).subrange(0, comps@.len() as int) =~= string_views(comps@));
    }
    out
}

/// The components of `a` followed by those of `b`.
pub fn concat_components(a: &Vec<String>, b: &Vec<String>) -> (r: Vec<String>)
    ensures
        string_views(r@) == string_views(a@) + string_views(b@),
{
    let mut out = copy_components(a);
    let mut k: usize = 0;
    while k < b.len()
        invariant
            k <= b@.len(),
            string_views(out@) == string_views(a@) + string_views(b@).subrange(0, k as int),
        decreases b@.len() - k,
    {
        let c = b[k].clone();
        let ghost before = out@;
        out.push(c);
        proof {
            lemma_views_push(before, c);
            assert(string_views(out@) =~= string_views(a@) + string_views(b@).subrange(0, k + 1));
        }
        k = k + 1;
    }
    proof {
        assert(string_views(b@).subrange(0, b@.len() as int) =~= string_views(b@));
    }
    out
}

/// The components of `comps` from `start` on.
pub fn components_from(comps: &Vec<String>, start: usize) -> (r: Vec<String>)
    requires
        start <= comps@.len(),
    ensures
        string_views(r@) == string_views(comps@).subrange(start as int, comps@.len() as int),
{
    let mut out: Vec<String> = Vec::new();
    let mut k: usize = start;
    while k < comps.len()
        invariant
            start <= k <= comps@.len(),
            string_views(out@) == string_views(comps@).subrange(start as int, k as int),
        decreases comps@.len() - k,
    {
        let c = comps[k].clone();
        let ghost before = out@;
        out.push(c);
        proof {
            lemma_views_push(before, c);
            assert(string_views(out@) =~= string_views(comps@).subrange(start as int, k + 1));
        }
        k = k + 1;
    }
    out
}

/// The components of `comps` before `end`.
pub fn components_before(comps: &Vec<String>, end: usize) -> (r: Vec<String>)
    requires
        end <= comps@.len(),
    ensures
        string_views(r@) == string_views(comps@).subrange(0, end as int),
{
    let mut out: Vec<String> = Vec::new();
    let mut k: usize = 0;
    while k < end
        invariant
            k <= end <= comps@.len(),
            string_views(out@) == string_views(comps@).subrange(0, k as int),
        decreases end - k,
    {
        let c = comps[k].clone();
        let ghost before = out@;
        out.push(c);
        proof {
            lemma_views_push(before, c);
            assert(string_views(out@) =~= string_views(comps@).subrange(0, k + 1));
        }
        k = k + 1;
    }
    out
}

/// Whether `base` is a leading part of `comps`.
pub fn components_start_with(comps: &Vec<String>, base: &Vec<String>) -> (r: bool)
    ensures
        r == has_prefix(string_views(comps@), string_views(base@)),
{
    if base.len() > comps.len() {
        return false;
    }
    let mut k: usize = 0;
    while k < base.len()
        invariant
            base@.len() <= comps@.len(),
            k <= base@.len(),
            forall|j: int| 0 <= j < k ==> comps@[j]@ == base@[j]@,
        decreases base@.len() - k,
    {
        if comps[k] != base[k] {
            proof {
                assert(string_views(comps@).subrange(0, base@.len() as int)[k as int] != string_views(
                    base@,
                )[k as int]);
            }
            return false;
        }
        k = k + 1;
    }
    proof {
        assert(string_views(comps@).subrange(0, base@.len() as int) =~= string_views(base@));
    }
    true
}

/// Whether `child` is a trailing part of `comps`.
pub fn components_end_with(comps: &Vec<String>, child: &Vec<String>) -> (r: bool)
    ensures
        r == has_suffix(string_views(comps@), string_views(child@)),
{
    if child.len() > comps.len() {
        return false;
    }
    let n = comps.len();
    let offset = n - child.len();
    let mut k: usize = 0;
    while k < child.len()
        invariant
            child@.len() <= comps@.len(),
            offset + child@.len() == comps@.len(),
            n == comps@.len(),
            k <= child@.len(),
            forall|j: int| 0 <= j < k ==> comps@[offset + j]@ == child@[j]@,
        decreases child@.len() - k,
    {
        if comps[offset + k] != child[k] {
            proof {
                let v = string_views(comps@);
                assert(v.subrange(v.len() - child@.len(), v.len() as int)[k as int] != string_views(
                    child@,
                )[k as int]);
            }
            return false;
        }
        k = k + 1;
    }
    proof {
        let v = string_views(comps@);
        assert(v.subrange(v.len() - child@.len(), v.len() as int) =~= string_views(child@));
    }
    true
}

/// The path from the components `from` to the components `to`.
pub fn relative_components(from: &Vec<String>, to: &Vec<String>) -> (r: Vec<String>)
    ensures
        string_views(r@) == spec_relative_path(string_views(from@), string_views(to@)),
{
    let ghost a = string_views(from@);
    let ghost b = string_views(to@);
    let mut k: usize = 0;
    while k < from.len() && k < to.len() && from[k] == to[k]
        invariant
            a == string_views(from@),
            b == string_views(to@),
            k <= from@.len(),
            k <= to@.len(),
            shared_from(a, b, 0) == shared_from(a, b, k as nat),
        decreases from@.len() - k,
    {
        proof {
            assert(from@[k as int]@ == to@[k as int]@);
            assert(a[k as int] == b[k as int]);
        }
        k = k + 1;
    }
    proof {
        if k < from@.len() && k < to@.len() {
            assert(from@[k as int]@ != to@[k as int]@);
            assert(a[k as int] != b[k as int]);
        }
        assert(shared_from(a, b, k as nat) == k);
    }
    let mut out: Vec<String> = Vec::new();
    let mut j: usize = k;
    while j < from.len()
        invariant
            k <= j <= from@.len(),
            string_views(out@) == Seq::new((j - k) as nat, |i: int| seq!['.', '.']),
        decreases from@.len() - j,
    {
        let up: Vec<char> = vec!['.', '.'];
        proof {
            assert(up@ =~= seq!['.', '.']);
        }
        let u = string_of(&up);
        let ghost before = out@;
        out.push(u);
        proof {
            lemma_views_push(before, u);
            assert(string_views(out@) =~= Seq::new((j + 1 - k) as nat, |i: int| seq!['.', '.']));
        }
        j = j + 1;
    }
    let rest = components_from(to, k);
    let r = concat_components(&out, &rest);
    proof {
        assert(string_views(r@) =~= spec_relative_path(a, b));
    }
    r
}

} // verus!
