//! Filesystem paths as text, with the component semantics of a Unix path.
//!
//! A path's meaning is its sequence of components: the root directory (written `/`), a
//! leading current-directory marker (written `.`), and the named components between
//! separators. Repeated separators, trailing separators and interior `.` segments do not
//! change the meaning of a path. Each component is represented by its own text, which is
//! unambiguous because a named component never contains `/` and is never `.`.
use vstd::prelude::*;

use crate::text::chars_of;

verus! {

/// A segment ends here; empty and `.` segments contribute no component.
pub open spec fn keep_segment(done: Seq<Seq<char>>, segment: Seq<char>) -> Seq<Seq<char>> {
    if segment.len() == 0 || segment == seq!['.'] {
        done
    } else {
        done.push(segment)
    }
}

/// Reading `s` from the left: the completed kept segments, and the segment being read.
pub open spec fn split_state(s: Seq<char>) -> (Seq<Seq<char>>, Seq<char>)
    decreases s.len(),
{
    if s.len() == 0 {
        (Seq::empty(), Seq::empty())
    } else {
        let prev = split_state(s.drop_last());
        if s.last() == '/' {
            (keep_segment(prev.0, prev.1), Seq::empty())
        } else {
            (prev.0, prev.1.push(s.last()))
        }
    }
}

/// The components of `s` that come from its segments.
pub open spec fn segment_components(s: Seq<char>) -> Seq<Seq<char>> {
    keep_segment(split_state(s).0, split_state(s).1)
}

pub open spec fn has_root(s: Seq<char>) -> bool {
    s.len() > 0 && s[0] == '/'
}

pub open spec fn leading_cur_dir(s: Seq<char>) -> bool {
    !has_root(s) && s.len() > 0 && s[0] == '.' && (s.len() == 1 || s[1] == '/')
}

pub open spec fn root_component() -> Seq<char> {
    seq!['/']
}

pub open spec fn cur_dir_component() -> Seq<char> {
    seq!['.']
}

/// The components of the path written `s`.
pub open spec fn components(s: Seq<char>) -> Seq<Seq<char>> {
    (if has_root(s) { seq![root_component()] } else { Seq::empty() }) + (if leading_cur_dir(s) {
        seq![cur_dir_component()]
    } else {
        Seq::empty()
    }) + segment_components(s)
}

/// Two paths are the same path when their components are equal.
pub open spec fn same_path(a: Seq<char>, b: Seq<char>) -> bool {
    components(a) == components(b)
}

/// `p` lies at or below `base`: the components of `base` begin those of `p`.
pub open spec fn path_starts_with(p: Seq<char>, base: Seq<char>) -> bool {
    components(base).is_prefix_of(components(p))
}

/// A path is absolute when it begins at the root directory.
pub open spec fn is_absolute(s: Seq<char>) -> bool {
    has_root(s)
}

/// A path has a parent unless it has no components or ends at the root directory.
pub open spec fn has_parent(s: Seq<char>) -> bool {
    components(s).len() > 0 && components(s).last() != root_component()
}

/// The components of the parent of `s`, where it has one.
pub open spec fn parent_components(s: Seq<char>) -> Seq<Seq<char>> {
    components(s).drop_last()
}

/// The filesystem root: an absolute path with no parent.
pub open spec fn is_filesystem_root(s: Seq<char>) -> bool {
    is_absolute(s) && !has_parent(s)
}

/// The number of components of a path.
pub open spec fn depth(s: Seq<char>) -> nat {
    components(s).len()
}

/// The texts held by a sequence of character vectors.
pub open spec fn texts(v: Seq<Vec<char>>) -> Seq<Seq<char>> {
    Seq::new(v.len(), |i: int| v[i]@)
}

/// One component sequence begins another.
pub open spec fn comps_prefix(base: Seq<Seq<char>>, p: Seq<Seq<char>>) -> bool {
    base.is_prefix_of(p)
}

proof fn lemma_split_state_step(s: Seq<char>, i: int)
    requires
        0 <= i < s.len(),
    ensures
        split_state(s.take(i + 1)) == (if s[i] == '/' {
            (keep_segment(split_state(s.take(i)).0, split_state(s.take(i)).1), Seq::<char>::empty())
        } else {
            (split_state(s.take(i)).0, split_state(s.take(i)).1.push(s[i]))
        }),
{
    assert(s.take(i + 1).drop_last() =~= s.take(i));
}

/// Whether two character vectors hold the same text.
pub fn chars_equal(a: &Vec<char>, b: &Vec<char>) -> (res: bool)
    ensures
        res == (a@ == b@),
{
    if a.len() != b.len() {
        assert(a@.len() != b@.len());
        return false;
    }
    let mut i: usize = 0;
    while i < a.len()
        invariant
            a.len() == b.len(),
            i <= a.len(),
            forall|j: int| 0 <= j < i ==> a@[j] == b@[j],
        decreases a.len() - i,
    {
        if a[i] != b[i] {
            return false;
        }
        i = i + 1;
    }
    assert(a@ =~= b@);
    true
}

/// The components of the path written `s`, each as its text.
pub fn path_components(s: &str) -> (res: Vec<Vec<char>>)
    ensures
        texts(res@) == components(s@),
{
    let chars = chars_of(s);
    let n = chars.len();
    let mut done: Vec<Vec<char>> = Vec::new();
    let mut current: Vec<char> = Vec::new();
    let mut i: usize = 0;
    assert(chars@.take(0) =~= Seq::<char>::empty());
    assert(texts(done@) =~= Seq::<Seq<char>>::empty());
    while i < n
        invariant
            n == chars@.len(),
            chars@ == s@,
            i <= n,
            (texts(done@), current@) == split_state(chars@.take(i as int)),
        decreases n - i,
    {
        proof {
            lemma_split_state_step(chars@, i as int);
        }
        let c = chars[i];
        if c == '/' {
            let skip = current.len() == 0 || (current.len() == 1 && current[0] == '.');
            proof {
                if current.len() == 1 && current@[0] == '.' {
                    assert(current@ =~= seq!['.']);
                }
                if current@ == seq!['.'] {
                    assert(current@.len() == 1 && current@[0] == '.');
                }
            }
            if !skip {
                let ghost before = texts(done@);
                let piece = current;
                done.push(piece);
                assert(texts(done@) =~= before.push(piece@));
            }
            current = Vec::new();
            assert(current@ =~= Seq::<char>::empty());
        } else {
            current.push(c);
        }
        i = i + 1;
    }
    assert(chars@.take(n as int) =~= chars@);
    let skip = current.len() == 0 || (current.len() == 1 && current[0] == '.');
    proof {
        if current.len() == 1 && current@[0] == '.' {
            assert(current@ =~= seq!['.']);
        }
        if current@ == seq!['.'] {
            assert(current@.len() == 1 && current@[0] == '.');
        }
    }
    if !skip {
        let ghost before = texts(done@);
        done.push(current);
        assert(texts(done@) =~= before.push(current@));
    }
    let ghost named = texts(done@);
    assert(named == segment_components(s@));
    let mut res: Vec<Vec<char>> = Vec::new();
    let rooted = n > 0 && chars[0] == '/';
    if rooted {
        let mut slash: Vec<char> = Vec::new();
        slash.push('/');
        assert(slash@ =~= root_component());
        res.push(slash);
    }
    let cur_dir = !rooted && n > 0 && chars[0] == '.' && (n == 1 || chars[1] == '/');
    if cur_dir {
        let mut dot: Vec<char> = Vec::new();
        dot.push('.');
        assert(dot@ =~= cur_dir_component());
        res.push(dot);
    }
    let ghost prefix = texts(res@);
    assert(rooted == has_root(s@));
    assert(cur_dir == leading_cur_dir(s@));
    assert(prefix =~= (if has_root(s@) { seq![root_component()] } else { Seq::empty() }) + (
    if leading_cur_dir(s@) {
        seq![cur_dir_component()]
    } else {
        Seq::empty()
    }));
    let mut j: usize = 0;
    while j < done.len()
        invariant
            j <= done.len(),
            texts(done@) == named,
            texts(res@) == prefix + named.take(j as int),
        decreases done.len() - j,
    {
        let piece = done[j].clone();
        let ghost before = texts(res@);
        res.push(piece);
        assert(texts(res@) =~= before.push(named[j as int]));
        assert(named.take(j + 1) =~= named.take(j as int).push(named[j as int]));
        j = j + 1;
    }
    assert(named.take(done.len() as int) =~= named);
    res
}

/// Whether two component sequences are equal.
pub fn components_equal(a: &Vec<Vec<char>>, b: &Vec<Vec<char>>) -> (res: bool)
    ensures
        res == (texts(a@) == texts(b@)),
{
    if a.len() != b.len() {
        assert(texts(a@).len() != texts(b@).len());
        return false;
    }
    let mut i: usize = 0;
    while i < a.len()
        invariant
            a.len() == b.len(),
            i <= a.len(),
            forall|j: int| 0 <= j < i ==> texts(a@)[j] == texts(b@)[j],
        decreases a.len() - i,
    {
        if !chars_equal(&a[i], &b[i]) {
            assert(texts(a@)[i as int] != texts(b@)[i as int]);
            return false;
        }
        i = i + 1;
    }
    assert(texts(a@) =~= texts(b@));
    true
}

/// Whether the components of `base` begin the components of `p`.
pub fn components_prefix(base: &Vec<Vec<char>>, p: &Vec<Vec<char>>) -> (res: bool)
    ensures
        res == texts(base@).is_prefix_of(texts(p@)),
{
    if base.len() > p.len() {
        assert(texts(base@).len() > texts(p@).len());
        return false;
    }
    let mut i: usize = 0;
    while i < base.len()
        invariant
            base.len() <= p.len(),
            i <= base.len(),
            forall|j: int| 0 <= j < i ==> texts(base@)[j] == texts(p@)[j],
        decreases base.len() - i,
    {
        if !chars_equal(&base[i], &p[i]) {
            assert(texts(base@)[i as int] != texts(p@)[i as int]);
            return false;
        }
        i = i + 1;
    }
    true
}

/// Whether `a` and `b` name the same path.
pub fn paths_equal(a: &str, b: &str) -> (res: bool)
    ensures
        res == same_path(a@, b@),
{
    let ca = path_components(a);
    let cb = path_components(b);
    components_equal(&ca, &cb)
}

/// Whether `p` is `base` or lies below it.
pub fn starts_with(p: &str, base: &str) -> (res: bool)
    ensures
        res == path_starts_with(p@, base@),
{
    let cp = path_components(p);
    let cb = path_components(base);
    components_prefix(&cb, &cp)
}

/// Whether `s` is the filesystem root.
pub fn filesystem_root(s: &str) -> (res: bool)
    ensures
        res == is_filesystem_root(s@),
{
    let chars = chars_of(s);
    let rooted = chars.len() > 0 && chars[0] == '/';
    if !rooted {
        return false;
    }
    let c = path_components(s);
    assert(has_root(s@));
    assert(components(s@).len() > 0);
    assert(texts(c@).len() == c@.len());
    let slash = vec!['/'];
    assert(slash@ =~= root_component());
    let last = c.len() - 1;
    chars_equal(&c[last], &slash)
}

/// No component that comes from a segment contains a separator.
pub proof fn lemma_segment_components_no_slash(s: Seq<char>)
    ensures
        forall|k: int|
            0 <= k < segment_components(s).len() ==> !(#[trigger] segment_components(s)[k]).contains(
                '/',
            ) && segment_components(s)[k].len() > 0,
{
    lemma_split_state_no_slash(s);
}

proof fn lemma_split_state_no_slash(s: Seq<char>)
    ensures
        forall|k: int|
            0 <= k < split_state(s).0.len() ==> !(#[trigger] split_state(s).0[k]).contains('/')
                && split_state(s).0[k].len() > 0,
        !split_state(s).1.contains('/'),
    decreases s.len(),
{
    if s.len() > 0 {
        lemma_split_state_no_slash(s.drop_last());
        let prev = split_state(s.drop_last());
        if s.last() != '/' {
            assert forall|j: int| 0 <= j < prev.1.push(s.last()).len() implies prev.1.push(
                s.last(),
            )[j] != '/' by {
                if j < prev.1.len() {
                    assert(!prev.1.contains('/'));
                    if prev.1[j] == '/' {
                        assert(prev.1.contains('/'));
                    }
                }
            }
        }
    }
}

/// The number of components of the path written `s`.
pub fn path_depth(s: &str) -> (res: usize)
    ensures
        res == depth(s@),
{
    path_components(s).len()
}

} // verus!

verus! {

/// Text ordered character by character, by code point; a proper prefix comes first.
pub open spec fn chars_le(a: Seq<char>, b: Seq<char>) -> bool
    decreases a.len(),
{
    if a.len() == 0 {
        true
    } else if b.len() == 0 {
        false
    } else if a[0] != b[0] {
        (a[0] as u32) < (b[0] as u32)
    } else {
        chars_le(a.drop_first(), b.drop_first())
    }
}

pub open spec fn parent_dir_component() -> Seq<char> {
    seq!['.', '.']
}

/// The root directory comes before `.`, which comes before `..`, which comes before every name.
pub open spec fn comp_rank(c: Seq<char>) -> int {
    if c == root_component() {
        0
    } else if c == cur_dir_component() {
        1
    } else if c == parent_dir_component() {
        2
    } else {
        3
    }
}

pub open spec fn comp_le(a: Seq<char>, b: Seq<char>) -> bool {
    comp_rank(a) < comp_rank(b) || (comp_rank(a) == comp_rank(b) && (comp_rank(a) < 3 || chars_le(
        a,
        b,
    )))
}

/// Component sequences ordered lexicographically.
pub open spec fn comps_le(a: Seq<Seq<char>>, b: Seq<Seq<char>>) -> bool
    decreases a.len(),
{
    if a.len() == 0 {
        true
    } else if b.len() == 0 {
        false
    } else if a[0] != b[0] {
        comp_le(a[0], b[0])
    } else {
        comps_le(a.drop_first(), b.drop_first())
    }
}

/// The order of paths: lexicographic by component.
pub open spec fn path_le(a: Seq<char>, b: Seq<char>) -> bool {
    comps_le(components(a), components(b))
}

proof fn lemma_char_code_injective(c1: char, c2: char)
    ensures
        c1 != c2 ==> (c1 as u32) != (c2 as u32),
{
}

pub proof fn lemma_chars_le_total(a: Seq<char>, b: Seq<char>)
    ensures
        chars_le(a, b) || chars_le(b, a),
        chars_le(a, b) && chars_le(b, a) ==> a == b,
    decreases a.len(),
{
    if a.len() > 0 && b.len() > 0 && a[0] == b[0] {
        lemma_chars_le_total(a.drop_first(), b.drop_first());
        if chars_le(a, b) && chars_le(b, a) {
            assert(a == seq![a[0]] + a.drop_first());
            assert(b == seq![b[0]] + b.drop_first());
        }
    }
    if a.len() == 0 && b.len() == 0 {
        assert(a =~= b);
    }
    if a.len() > 0 && b.len() > 0 && a[0] != b[0] {
        lemma_char_code_injective(a[0], b[0]);
    }
}

pub proof fn lemma_chars_le_transitive(a: Seq<char>, b: Seq<char>, c: Seq<char>)
    requires
        chars_le(a, b),
        chars_le(b, c),
    ensures
        chars_le(a, c),
    decreases a.len(),
{
    if a.len() > 0 && b.len() > 0 && c.len() > 0 && a[0] == b[0] && b[0] == c[0] {
        lemma_chars_le_transitive(a.drop_first(), b.drop_first(), c.drop_first());
    }
}

pub proof fn lemma_comp_le_total(a: Seq<char>, b: Seq<char>)
    ensures
        comp_le(a, b) || comp_le(b, a),
        comp_le(a, b) && comp_le(b, a) ==> a == b,
{
    lemma_chars_le_total(a, b);
}

pub proof fn lemma_comps_le_total(a: Seq<Seq<char>>, b: Seq<Seq<char>>)
    ensures
        comps_le(a, b) || comps_le(b, a),
    decreases a.len(),
{
    if a.len() > 0 && b.len() > 0 {
        if a[0] != b[0] {
            lemma_comp_le_total(a[0], b[0]);
        } else {
            lemma_comps_le_total(a.drop_first(), b.drop_first());
        }
    }
}

pub proof fn lemma_comps_le_transitive(a: Seq<Seq<char>>, b: Seq<Seq<char>>, c: Seq<Seq<char>>)
    requires
        comps_le(a, b),
        comps_le(b, c),
    ensures
        comps_le(a, c),
    decreases a.len(),
{
    if a.len() > 0 && b.len() > 0 && c.len() > 0 {
        lemma_comp_le_total(a[0], b[0]);
        lemma_comp_le_total(b[0], c[0]);
        lemma_comp_le_total(a[0], c[0]);
        if a[0] == b[0] && b[0] == c[0] {
            lemma_comps_le_transitive(a.drop_first(), b.drop_first(), c.drop_first());
        } else if a[0] != b[0] && b[0] != c[0] {
            if comp_rank(a[0]) == 3 && comp_rank(b[0]) == 3 && comp_rank(c[0]) == 3 {
                lemma_chars_le_transitive(a[0], b[0], c[0]);
            }
        }
    }
}

/// Component sequences ordered both ways are equal.
pub proof fn lemma_comps_le_antisymmetric(a: Seq<Seq<char>>, b: Seq<Seq<char>>)
    requires
        comps_le(a, b),
        comps_le(b, a),
    ensures
        a == b,
    decreases a.len(),
{
    if a.len() == 0 {
        if b.len() > 0 {
            assert(!comps_le(b, a));
        }
        assert(a =~= b);
    } else if b.len() == 0 {
        assert(!comps_le(a, b));
    } else if a[0] != b[0] {
        lemma_comp_le_total(a[0], b[0]);
    } else {
        lemma_comps_le_antisymmetric(a.drop_first(), b.drop_first());
        assert(a =~= seq![a[0]] + a.drop_first());
        assert(b =~= seq![b[0]] + b.drop_first());
    }
}

/// Paths are totally preordered by `path_le`.
pub proof fn lemma_path_le_preorder()
    ensures
        crate::sort::total_preorder(|a: String, b: String| path_le(a@, b@)),
{
    assert forall|a: String, b: String| path_le(a@, b@) || path_le(b@, a@) by {
        lemma_comps_le_total(components(a@), components(b@));
    }
    assert forall|a: String, b: String, c: String|
        path_le(a@, b@) && path_le(b@, c@) implies path_le(a@, c@) by {
        lemma_comps_le_transitive(components(a@), components(b@), components(c@));
    }
}

/// Whether `a` comes before `b`, or is ordered with it, in character order.
pub fn chars_le_exec(a: &Vec<char>, b: &Vec<char>) -> (res: bool)
    ensures
        res == chars_le(a@, b@),
{
    let mut i: usize = 0;
    assert(a@.skip(0) =~= a@);
    assert(b@.skip(0) =~= b@);
    while i < a.len() && i < b.len() && a[i] == b[i]
        invariant
            i <= a.len(),
            i <= b.len(),
            chars_le(a@, b@) == chars_le(a@.skip(i as int), b@.skip(i as int)),
        decreases a.len() - i,
    {
        assert(a@.skip(i as int).drop_first() =~= a@.skip(i + 1));
        assert(b@.skip(i as int).drop_first() =~= b@.skip(i + 1));
        i = i + 1;
    }
    if i == a.len() {
        return true;
    }
    if i == b.len() {
        return false;
    }
    (a[i] as u32) < (b[i] as u32)
}

fn comp_rank_exec(c: &Vec<char>) -> (res: u8)
    ensures
        res as int == comp_rank(c@),
{
    if c.len() == 1 && c[0] == '/' {
        assert(c@ =~= root_component());
        0
    } else if c.len() == 1 && c[0] == '.' {
        assert(c@ =~= cur_dir_component());
        assert(c@[0] != root_component()[0]);
        1
    } else if c.len() == 2 && c[0] == '.' && c[1] == '.' {
        assert(c@ =~= parent_dir_component());
        assert(c@.len() != root_component().len());
        assert(c@.len() != cur_dir_component().len());
        2
    } else {
        proof {
            if c@ == parent_dir_component() {
                assert(c@.len() == 2 && c@[0] == '.' && c@[1] == '.');
            }
            if c@ == root_component() {
                assert(c@.len() == 1 && c@[0] == '/');
            }
            if c@ == cur_dir_component() {
                assert(c@.len() == 1 && c@[0] == '.');
            }
        }
        3
    }
}

/// Whether path `a` is ordered at or before path `b`.
pub fn path_le_exec(a: &str, b: &str) -> (res: bool)
    ensures
        res == path_le(a@, b@),
{
    let ca = path_components(a);
    let cb = path_components(b);
    let ghost sa = texts(ca@);
    let ghost sb = texts(cb@);
    let mut i: usize = 0;
    assert(sa.skip(0) =~= sa);
    assert(sb.skip(0) =~= sb);
    while i < ca.len() && i < cb.len() && chars_equal(&ca[i], &cb[i])
        invariant
            i <= ca.len(),
            i <= cb.len(),
            sa == texts(ca@),
            sb == texts(cb@),
            comps_le(sa, sb) == comps_le(sa.skip(i as int), sb.skip(i as int)),
        decreases ca.len() - i,
    {
        assert(sa.skip(i as int).drop_first() =~= sa.skip(i + 1));
        assert(sb.skip(i as int).drop_first() =~= sb.skip(i + 1));
        assert(sa.skip(i as int)[0] == sb.skip(i as int)[0]);
        i = i + 1;
    }
    if i == ca.len() {
        return true;
    }
    if i == cb.len() {
        return false;
    }
    assert(sa.skip(i as int)[0] == sa[i as int]);
    assert(sb.skip(i as int)[0] == sb[i as int]);
    let ra = comp_rank_exec(&ca[i]);
    let rb = comp_rank_exec(&cb[i]);
    if ra != rb {
        ra < rb
    } else if ra < 3 {
        true
    } else {
        chars_le_exec(&ca[i], &cb[i])
    }
}

} // verus!
