//! Path reasoning over plain strings. A path is a string whose segments are
//! separated by backslash or slash characters; the first segment is the
//! volume prefix (a drive letter such as `C:` on the platforms the engine
//! targets).

use vstd::prelude::*;
use crate::text::str_to_chars;
use crate::text::chars_to_string;

verus! {

pub open spec fn is_sep(c: char) -> bool {
    c == '\\' || c == '/'
}

/// Index of the first separator at or after `i`, if any.
pub open spec fn first_sep_from(s: Seq<char>, i: int) -> Option<int>
    decreases s.len() - i,
{
    if i < 0 || i >= s.len() {
        None
    } else if is_sep(s[i]) {
        Some(i)
    } else {
        first_sep_from(s, i + 1)
    }
}

/// Index of the last separator strictly before `i`, if any.
pub open spec fn last_sep_before(s: Seq<char>, i: int) -> Option<int>
    decreases i,
{
    if i <= 0 || i > s.len() {
        None
    } else if is_sep(s[i - 1]) {
        Some(i - 1)
    } else {
        last_sep_before(s, i - 1)
    }
}

/// The leading segment of a path: everything before the first separator.
pub open spec fn spec_first_component(s: Seq<char>) -> Seq<char> {
    match first_sep_from(s, 0) {
        None => s,
        Some(i) => s.subrange(0, i),
    }
}

/// The final segment of a path: everything after the last separator.
pub open spec fn spec_last_segment(s: Seq<char>) -> Seq<char> {
    match last_sep_before(s, s.len() as int) {
        None => s,
        Some(i) => s.subrange(i + 1, s.len() as int),
    }
}

/// The path with its final segment and separator removed; empty when the
/// path has a single segment.
pub open spec fn spec_parent(s: Seq<char>) -> Seq<char> {
    match last_sep_before(s, s.len() as int) {
        None => Seq::empty(),
        Some(i) => s.subrange(0, i),
    }
}

/// Whether `pre` is a segment-boundary prefix of `p`.
pub open spec fn spec_path_starts_with(p: Seq<char>, pre: Seq<char>) -> bool {
    &&& pre.len() <= p.len()
    &&& p.subrange(0, pre.len() as int) == pre
    &&& (p.len() == pre.len() || is_sep(p[pre.len() as int]) || (pre.len() > 0 && is_sep(
        pre[pre.len() - 1],
    )))
}

/// Two paths lie on different volumes when their leading segments differ.
pub open spec fn spec_is_cross_volume(a: Seq<char>, b: Seq<char>) -> bool {
    spec_first_component(a) != spec_first_component(b)
}

/// Number of nonempty segments of the path, scanning from `i`; `in_seg`
/// records whether position `i` continues a segment.
pub open spec fn depth_from(s: Seq<char>, i: int, in_seg: bool) -> int
    decreases s.len() - i,
{
    if i < 0 || i >= s.len() {
        0
    } else if is_sep(s[i]) {
        depth_from(s, i + 1, false)
    } else if in_seg {
        depth_from(s, i + 1, true)
    } else {
        1 + depth_from(s, i + 1, true)
    }
}

/// Number of nonempty segments of the path.
pub open spec fn spec_depth(s: Seq<char>) -> int {
    depth_from(s, 0, false)
}

/// Joining a path and a relative part with a separator.
pub open spec fn spec_join(a: Seq<char>, b: Seq<char>) -> Seq<char> {
    if a.len() == 0 {
        b
    } else if is_sep(a[a.len() - 1]) {
        a + b
    } else {
        a + seq!['\\'] + b
    }
}

/// A first-separator index lies between `i` and the end of the string.
pub proof fn lemma_first_sep_from(s: Seq<char>, i: int)
    requires
        0 <= i,
    ensures
        match first_sep_from(s, i) {
            None => true,
            Some(j) => i <= j < s.len() && is_sep(s[j]),
        },
    decreases s.len() - i,
{
    if i < s.len() && !is_sep(s[i]) {
        lemma_first_sep_from(s, i + 1);
    }
}

/// A last-separator index lies strictly before `i`.
pub proof fn lemma_last_sep_before(s: Seq<char>, i: int)
    ensures
        match last_sep_before(s, i) {
            None => true,
            Some(j) => 0 <= j < i <= s.len() && is_sep(s[j]),
        },
    decreases i,
{
    if 0 < i <= s.len() && !is_sep(s[i - 1]) {
        lemma_last_sep_before(s, i - 1);
    }
}

/// Finds the first separator of `v`.
pub fn find_first_sep(v: &Vec<char>) -> (r: Option<usize>)
    ensures
        match r {
            None => first_sep_from(v@, 0) is None,
            Some(i) => first_sep_from(v@, 0) == Some(i as int),
        },
{
    let n = v.len();
    let mut i: usize = 0;
    while i < n
        invariant
            i <= n,
            n == v@.len(),
            first_sep_from(v@, 0) == first_sep_from(v@, i as int),
        decreases n - i,
    {
        let c = v[i];
        if c == '\\' || c == '/' {
            return Some(i);
        }
        i = i + 1;
    }
    None
}

/// Finds the last separator of `v`.
pub fn find_last_sep(v: &Vec<char>) -> (r: Option<usize>)
    ensures
        match r {
            None => last_sep_before(v@, v@.len() as int) is None,
            Some(i) => last_sep_before(v@, v@.len() as int) == Some(i as int),
        },
{
    let n = v.len();
    let mut i: usize = n;
    while i > 0
        invariant
            i <= n,
            n == v@.len(),
            last_sep_before(v@, n as int) == last_sep_before(v@, i as int),
        decreases i,
    {
        let c = v[i - 1];
        if c == '\\' || c == '/' {
            return Some(i - 1);
        }
        i = i - 1;
    }
    None
}

/// The leading segment of the path.
pub fn first_component(path: &str) -> (r: String)
    ensures
        r@ == spec_first_component(path@),
{
    let v = str_to_chars(path);
    proof {
        lemma_first_sep_from(path@, 0);
    }
    let end: usize = match find_first_sep(&v) {
        Some(i) => i,
        None => v.len(),
    };
    let mut out: Vec<char> = Vec::new();
    let mut i: usize = 0;
    while i < end
        invariant
            i <= end,
            end <= v@.len(),
            v@ == path@,
            out@ == path@.subrange(0, i as int),
        decreases end - i,
    {
        out.push(v[i]);
        i = i + 1;
        proof {
            assert(out@ =~= path@.subrange(0, i as int));
        }
    }
    proof {
        assert(out@ =~= spec_first_component(path@));
    }
    chars_to_string(&out)
}

/// The final segment of the path.
pub fn last_segment(path: &str) -> (r: String)
    ensures
        r@ == spec_last_segment(path@),
{
    let v = str_to_chars(path);
    proof {
        lemma_last_sep_before(path@, path@.len() as int);
    }
    let n = v.len();
    let start: usize = match find_last_sep(&v) {
        Some(i) => i + 1,
        None => 0,
    };
    let mut out: Vec<char> = Vec::new();
    let mut i: usize = start;
    while i < n
        invariant
            start <= i <= n,
            n == v@.len(),
            v@ == path@,
            out@ == path@.subrange(start as int, i as int),
        decreases n - i,
    {
        out.push(v[i]);
        i = i + 1;
        proof {
            assert(out@ =~= path@.subrange(start as int, i as int));
        }
    }
    proof {
        assert(out@ =~= spec_last_segment(path@));
    }
    chars_to_string(&out)
}

/// The parent path: everything before the last separator.
pub fn parent_path(path: &str) -> (r: String)
    ensures
        r@ == spec_parent(path@),
{
    let v = str_to_chars(path);
    proof {
        lemma_last_sep_before(path@, path@.len() as int);
    }
    let end: usize = match find_last_sep(&v) {
        Some(i) => i,
        None => 0,
    };
    let mut out: Vec<char> = Vec::new();
    let mut i: usize = 0;
    while i < end
        invariant
            i <= end,
            end <= v@.len(),
            v@ == path@,
            out@ == path@.subrange(0, i as int),
        decreases end - i,
    {
        out.push(v[i]);
        i = i + 1;
        proof {
            assert(out@ =~= path@.subrange(0, i as int));
        }
    }
    proof {
        assert(out@ =~= spec_parent(path@));
    }
    chars_to_string(&out)
}

/// Whether `pre` is a segment-boundary prefix of `p`.
pub fn path_starts_with(p: &str, pre: &str) -> (r: bool)
    ensures
        r == spec_path_starts_with(p@, pre@),
{
    let pv = str_to_chars(p);
    let prev = str_to_chars(pre);
    let np = pv.len();
    let npre = prev.len();
    if npre > np {
        return false;
    }
    let mut i: usize = 0;
    while i < npre
        invariant
            i <= npre <= np,
            np == p@.len(),
            npre == pre@.len(),
            pv@ == p@,
            prev@ == pre@,
            forall|j: int| 0 <= j < i ==> p@[j] == pre@[j],
        decreases npre - i,
    {
        if pv[i] != prev[i] {
            assert(p@.subrange(0, npre as int)[i as int] != pre@[i as int]);
            return false;
        }
        i = i + 1;
    }
    proof {
        assert(p@.subrange(0, npre as int) =~= pre@);
    }
    if np == npre {
        return true;
    }
    let c = pv[npre];
    if c == '\\' || c == '/' {
        return true;
    }
    if npre > 0 {
        let e = prev[npre - 1];
        if e == '\\' || e == '/' {
            return true;
        }
    }
    false
}

/// Whether the two paths lie on different volumes.
pub fn is_cross_volume_path(a: &str, b: &str) -> (r: bool)
    ensures
        r == spec_is_cross_volume(a@, b@),
{
    let ca = first_component(a);
    let cb = first_component(b);
    !ca.eq(&cb)
}

/// Number of nonempty segments of the path.
pub fn path_depth(path: &str) -> (r: usize)
    ensures
        r == spec_depth(path@),
{
    let v = str_to_chars(path);
    let n = v.len();
    let mut i: usize = 0;
    let mut in_seg = false;
    let mut acc: usize = 0;
    proof {
        assert(spec_depth(path@) <= v@.len()) by {
            depth_from_bound(path@, 0, false);
        }
    }
    while i < n
        invariant
            i <= n,
            n == v@.len(),
            v@ == path@,
            acc + depth_from(path@, i as int, in_seg) == spec_depth(path@),
            acc <= i,
        decreases n - i,
    {
        let c = v[i];
        if c == '\\' || c == '/' {
            in_seg = false;
        } else {
            if !in_seg {
                acc = acc + 1;
            }
            in_seg = true;
        }
        i = i + 1;
    }
    acc
}

/// A segment count never exceeds the number of characters scanned.
proof fn depth_from_bound(s: Seq<char>, i: int, in_seg: bool)
    requires
        0 <= i <= s.len(),
    ensures
        0 <= depth_from(s, i, in_seg) <= s.len() - i,
    decreases s.len() - i,
{
    if i < s.len() {
        if is_sep(s[i]) {
            depth_from_bound(s, i + 1, false);
        } else {
            depth_from_bound(s, i + 1, true);
        }
    }
}

/// Index of the last dot of a name that is strictly after its first
/// character, scanning positions below `i`.
pub open spec fn last_dot_before(s: Seq<char>, i: int) -> Option<int>
    decreases i,
{
    if i <= 1 || i > s.len() {
        None
    } else if s[i - 1] == '.' {
        Some(i - 1)
    } else {
        last_dot_before(s, i - 1)
    }
}

/// The stem of a name: everything before its extension dot.
pub open spec fn spec_stem(s: Seq<char>) -> Seq<char> {
    match last_dot_before(s, s.len() as int) {
        None => s,
        Some(i) => s.subrange(0, i),
    }
}

/// The extension of a name: everything after its last dot, when that dot is
/// not the leading character.
pub open spec fn spec_extension(s: Seq<char>) -> Option<Seq<char>> {
    match last_dot_before(s, s.len() as int) {
        None => None,
        Some(i) => Some(s.subrange(i + 1, s.len() as int)),
    }
}

/// A last-dot index lies strictly before `i` and after the first character.
pub proof fn lemma_last_dot_before(s: Seq<char>, i: int)
    ensures
        match last_dot_before(s, i) {
            None => true,
            Some(j) => 1 <= j < i <= s.len() && s[j] == '.',
        },
    decreases i,
{
    if 1 < i <= s.len() && s[i - 1] != '.' {
        lemma_last_dot_before(s, i - 1);
    }
}

/// Splits a name into its stem and extension.
pub fn stem_and_extension(name: &str) -> (r: (String, Option<String>))
    ensures
        r.0@ == spec_stem(name@),
        match r.1 {
            None => spec_extension(name@) is None,
            Some(e) => spec_extension(name@) == Some(e@),
        },
{
    let v = str_to_chars(name);
    proof {
        lemma_last_dot_before(name@, name@.len() as int);
    }
    let n = v.len();
    let mut dot: Option<usize> = None;
    let mut i: usize = n;
    while i > 1
        invariant_except_break
            dot is None,
        invariant
            i <= n,
            n == v@.len(),
            v@ == name@,
            last_dot_before(name@, n as int) == last_dot_before(name@, i as int),
        ensures
            match dot {
                None => last_dot_before(name@, n as int) is None,
                Some(j) => last_dot_before(name@, n as int) == Some(j as int),
            },
        decreases i,
    {
        if v[i - 1] == '.' {
            dot = Some(i - 1);
            break;
        }
        i = i - 1;
    }
    match dot {
        None => {
            let mut out: Vec<char> = Vec::new();
            let mut k: usize = 0;
            while k < n
                invariant
                    k <= n,
                    n == v@.len(),
                    v@ == name@,
                    out@ == name@.subrange(0, k as int),
                decreases n - k,
            {
                out.push(v[k]);
                k = k + 1;
                proof {
                    assert(out@ =~= name@.subrange(0, k as int));
                }
            }
            proof {
                assert(out@ =~= name@);
            }
            (chars_to_string(&out), None)
        },
        Some(j) => {
            let mut stem: Vec<char> = Vec::new();
            let mut k: usize = 0;
            while k < j
                invariant
                    k <= j < n,
                    n == v@.len(),
                    v@ == name@,
                    stem@ == name@.subrange(0, k as int),
                decreases j - k,
            {
                stem.push(v[k]);
                k = k + 1;
                proof {
                    assert(stem@ =~= name@.subrange(0, k as int));
                }
            }
            let mut ext: Vec<char> = Vec::new();
            let mut m: usize = j + 1;
            while m < n
                invariant
                    j + 1 <= m <= n,
                    n == v@.len(),
                    v@ == name@,
                    ext@ == name@.subrange(j + 1, m as int),
                decreases n - m,
            {
                ext.push(v[m]);
                m = m + 1;
                proof {
                    assert(ext@ =~= name@.subrange(j + 1, m as int));
                }
            }
            proof {
                assert(stem@ =~= spec_stem(name@));
                assert(ext@ =~= spec_extension(name@)->0);
            }
            (chars_to_string(&stem), Some(chars_to_string(&ext)))
        },
    }
}

/// Joins a path and a relative part.
pub fn join_path(a: &str, b: &str) -> (r: String)
    ensures
        r@ == spec_join(a@, b@),
{
    let va = str_to_chars(a);
    let vb = str_to_chars(b);
    let mut out: Vec<char> = Vec::new();
    if va.len() == 0 {
        let mut i: usize = 0;
        let n = vb.len();
        while i < n
            invariant
                i <= n,
                n == vb@.len(),
                vb@ == b@,
                out@ == b@.subrange(0, i as int),
            decreases n - i,
        {
            out.push(vb[i]);
            i = i + 1;
            proof {
                assert(out@ =~= b@.subrange(0, i as int));
            }
        }
        proof {
            assert(out@ =~= spec_join(a@, b@));
        }
        return chars_to_string(&out);
    }
    let na = va.len();
    let mut i: usize = 0;
    while i < na
        invariant
            i <= na,
            na == va@.len(),
            va@ == a@,
            out@ == a@.subrange(0, i as int),
        decreases na - i,
    {
        out.push(va[i]);
        i = i + 1;
        proof {
            assert(out@ =~= a@.subrange(0, i as int));
        }
    }
    proof {
        assert(out@ =~= a@);
    }
    let tail = va[na - 1];
    if !(tail == '\\' || tail == '/') {
        out.push('\\');
    }
    let ghost mid: Seq<char> = out@;
    let nb = vb.len();
    let mut j: usize = 0;
    while j < nb
        invariant
            j <= nb,
            nb == vb@.len(),
            vb@ == b@,
            out@ == mid + b@.subrange(0, j as int),
        decreases nb - j,
    {
        out.push(vb[j]);
        j = j + 1;
        proof {
            assert(out@ =~= mid + b@.subrange(0, j as int));
        }
    }
    proof {
        assert(out@ =~= spec_join(a@, b@));
    }
    chars_to_string(&out)
}


/// Whether the path already carries the extended-length marker.
pub open spec fn spec_is_extended(s: Seq<char>) -> bool {
    s.len() >= 4 && s[0] == '\\' && s[1] == '\\' && s[2] == '?' && s[3] == '\\'
}

/// Whether the path is a share path: two leading separators without the
/// extended marker.
pub open spec fn spec_is_share(s: Seq<char>) -> bool {
    !spec_is_extended(s) && s.len() >= 2 && s[0] == '\\' && s[1] == '\\'
}

/// The extended-length form of an absolute path: an already-marked path is
/// kept, a share path keeps its share form under the marker, and any other
/// path takes the marker in front.
pub open spec fn spec_extended_path(s: Seq<char>) -> Seq<char> {
    if spec_is_extended(s) {
        s
    } else if spec_is_share(s) {
        seq!['\\', '\\', '?', '\\', 'U', 'N', 'C', '\\'] + s.skip(2)
    } else {
        seq!['\\', '\\', '?', '\\'] + s
    }
}

/// Puts an absolute path into extended-length form, so that names past the
/// classic limit are accepted. A relative path is for the caller to resolve
/// before asking.
pub fn to_long_path(path: &str) -> (r: String)
    ensures
        r@ == spec_extended_path(path@),
{
    let v = str_to_chars(path);
    let n = v.len();
    let extended: bool = n >= 4 && v[0] == '\\' && v[1] == '\\' && v[2] == '?' && v[3] == '\\';
    if extended {
        proof {
            assert(spec_extended_path(path@) == path@);
        }
        return chars_to_string(&v);
    }
    let share: bool = n >= 2 && v[0] == '\\' && v[1] == '\\';
    let mut out: Vec<char> = Vec::new();
    out.push('\\');
    out.push('\\');
    out.push('?');
    out.push('\\');
    let mut j: usize = 0;
    if share {
        out.push('U');
        out.push('N');
        out.push('C');
        out.push('\\');
        j = 2;
    }
    let ghost head = out@;
    while j < n
        invariant
            j <= n,
            n == v@.len(),
            v@ == path@,
            share ==> j >= 2 && out@ == head + path@.subrange(2, j as int),
            !share ==> out@ == head + path@.subrange(0, j as int),
        decreases n - j,
    {
        out.push(v[j]);
        j = j + 1;
        proof {
            if share {
                assert(out@ =~= head + path@.subrange(2, j as int));
            } else {
                assert(out@ =~= head + path@.subrange(0, j as int));
            }
        }
    }
    proof {
        assert(out@ =~= spec_extended_path(path@));
    }
    chars_to_string(&out)
}

} // verus!
