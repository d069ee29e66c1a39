//! Paths of the file system as `/`-separated text: parent, file name, joining, prefixes, the
//! order of paths, and maps keyed by path in that order.
use vstd::prelude::*;

use crate::paths::last_slash;
use crate::text::{chars_eq, chars_of, copy_range, push_all, string_of};

verus! {

/// The end of `p[..e]` without its trailing `/` (a leading `/` stays).
pub open spec fn slashes_trimmed(p: Seq<char>, e: int) -> int
    decreases e,
{
    if e > 1 && p[e - 1] == '/' {
        slashes_trimmed(p, e - 1)
    } else {
        e
    }
}

pub open spec fn is_root_or_empty(p: Seq<char>, e: int) -> bool {
    e == 0 || (e == 1 && p[0] == '/')
}

/// The path without its last component: `a/b` gives `a`, `a` gives the empty path, `/a` gives
/// `/`; the root and the empty path have none.
pub open spec fn path_parent(p: Seq<char>) -> Option<Seq<char>> {
    let e = slashes_trimmed(p, p.len() as int);
    if is_root_or_empty(p, e) {
        None
    } else {
        match last_slash(p, e) {
            None => Some(Seq::empty()),
            Some(k) => if k == 0 {
                Some(p.subrange(0, 1))
            } else {
                Some(p.subrange(0, slashes_trimmed(p, k)))
            },
        }
    }
}

/// The last component of a path, unless it is `..` or the path is the root or empty.
pub open spec fn path_file_name(p: Seq<char>) -> Option<Seq<char>> {
    let e = slashes_trimmed(p, p.len() as int);
    if is_root_or_empty(p, e) {
        None
    } else {
        let name = match last_slash(p, e) {
            None => p.subrange(0, e),
            Some(k) => p.subrange(k + 1, e),
        };
        if name == seq!['.', '.'] {
            None
        } else {
            Some(name)
        }
    }
}

/// `rel` below `base`; an absolute `rel` stands for itself.
pub open spec fn path_join(base: Seq<char>, rel: Seq<char>) -> Seq<char> {
    if rel.len() > 0 && rel[0] == '/' {
        rel
    } else if base.len() == 0 {
        rel
    } else if base.last() == '/' {
        base + rel
    } else {
        base + seq!['/'] + rel
    }
}

/// The position after the run of `/` that starts at `i`.
pub open spec fn slashes_end(p: Seq<char>, i: int) -> int
    decreases p.len() - i,
{
    if 0 <= i < p.len() && p[i] == '/' {
        slashes_end(p, i + 1)
    } else {
        i
    }
}

/// The rest of `p` below `root`, when the components of `root` begin the components of `p`.
pub open spec fn path_strip_prefix(p: Seq<char>, root: Seq<char>) -> Option<Seq<char>> {
    let r = slashes_trimmed(root, root.len() as int);
    if r == 0 {
        Some(p)
    } else if r <= p.len() && p.subrange(0, r) == root.subrange(0, r) {
        if r == 1 && root[0] == '/' {
            Some(p.subrange(slashes_end(p, 1), p.len() as int))
        } else if r == p.len() {
            Some(Seq::empty())
        } else if p[r] == '/' {
            Some(p.subrange(slashes_end(p, r), p.len() as int))
        } else {
            None
        }
    } else {
        None
    }
}

/// Whether the components of `root` begin the components of `p`.
pub open spec fn path_starts_with(p: Seq<char>, root: Seq<char>) -> bool {
    path_strip_prefix(p, root).is_some()
}

fn trim_slashes_exec(p: &[char], e: usize) -> (r: usize)
    requires
        e <= p@.len(),
    ensures
        r == slashes_trimmed(p@, e as int),
        r <= e,
        e > 0 ==> r > 0,
{
    let mut j = e;
    while j > 1 && p[j - 1] == '/'
        invariant
            j <= e <= p@.len(),
            e > 0 ==> j > 0,
            slashes_trimmed(p@, j as int) == slashes_trimmed(p@, e as int),
        decreases j,
    {
        j = j - 1;
    }
    j
}

fn last_slash_exec(t: &[char], e: usize) -> (r: Option<usize>)
    requires
        e <= t@.len(),
    ensures
        match r {
            Some(k) => last_slash(t@, e as int) == Some(k as int) && k < e && t@[k as int] == '/',
            None => last_slash(t@, e as int).is_none(),
        },
{
    let mut j = e;
    while j > 0 && t[j - 1] != '/'
        invariant
            j <= e <= t@.len(),
            last_slash(t@, j as int) == last_slash(t@, e as int),
        decreases j,
    {
        j = j - 1;
    }
    if j == 0 {
        None
    } else {
        Some(j - 1)
    }
}

/// The parent directory of a path.
pub fn parent(path: &str) -> (r: Option<String>)
    ensures
        match r {
            Some(s) => path_parent(path@) == Some(s@) && s@.len() < path@.len(),
            None => path_parent(path@).is_none(),
        },
{
    let p = chars_of(path);
    let e = trim_slashes_exec(&p, p.len());
    if e == 0 || (e == 1 && p[0] == '/') {
        return None;
    }
    assert(e <= p@.len());
    match last_slash_exec(&p, e) {
        None => Some(String::new()),
        Some(k) => if k == 0 {
            Some(string_of(&copy_range(&p, 0, 1)))
        } else {
            let d = trim_slashes_exec(&p, k);
            Some(string_of(&copy_range(&p, 0, d)))
        },
    }
}

/// The last component of a path.
pub fn file_name(path: &str) -> (r: Option<String>)
    ensures
        match r {
            Some(s) => path_file_name(path@) == Some(s@),
            None => path_file_name(path@).is_none(),
        },
{
    let p = chars_of(path);
    let e = trim_slashes_exec(&p, p.len());
    if e == 0 || (e == 1 && p[0] == '/') {
        return None;
    }
    let name = match last_slash_exec(&p, e) {
        None => copy_range(&p, 0, e),
        Some(k) => copy_range(&p, k + 1, e),
    };
    if name.len() == 2 && name[0] == '.' && name[1] == '.' {
        assert(name@ =~= seq!['.', '.']);
        None
    } else {
        assert(name@ != seq!['.', '.']);
        Some(string_of(&name))
    }
}

/// `rel` below `base`.
pub fn join(base: &str, rel: &str) -> (r: String)
    ensures
        r@ == path_join(base@, rel@),
{
    let b = chars_of(base);
    let t = chars_of(rel);
    if t.len() > 0 && t[0] == '/' {
        return string_of(&t);
    }
    if b.len() == 0 {
        return string_of(&t);
    }
    let mut out = b.clone();
    assert(out@ == b@);
    if b[b.len() - 1] != '/' {
        out.push('/');
    }
    push_all(&mut out, &t);
    proof {
        if b@.last() == '/' {
            assert(out@ =~= b@ + t@);
        } else {
            assert(out@ =~= b@ + seq!['/'] + t@);
        }
    }
    string_of(&out)
}

fn slashes_end_exec(p: &[char], i: usize) -> (r: usize)
    requires
        i <= p@.len(),
    ensures
        r == slashes_end(p@, i as int),
        i <= r <= p@.len(),
{
    let mut j = i;
    while j < p.len() && p[j] == '/'
        invariant
            i <= j <= p@.len(),
            slashes_end(p@, j as int) == slashes_end(p@, i as int),
        decreases p.len() - j,
    {
        j = j + 1;
    }
    j
}

/// The rest of `path` below `root`.
pub fn strip_prefix(path: &str, root: &str) -> (r: Option<String>)
    ensures
        match r {
            Some(s) => path_strip_prefix(path@, root@) == Some(s@),
            None => path_strip_prefix(path@, root@).is_none(),
        },
{
    let p = chars_of(path);
    let q = chars_of(root);
    let r = trim_slashes_exec(&q, q.len());
    if r == 0 {
        return Some(string_of(&p));
    }
    if r > p.len() {
        return None;
    }
    let mut k: usize = 0;
    while k < r
        invariant
            r <= p@.len(),
            r <= q@.len(),
            p@ == path@,
            q@ == root@,
            r == slashes_trimmed(q@, q@.len() as int),
            r > 0,
            k <= r,
            forall|x: int| 0 <= x < k ==> p@[x] == q@[x],
        decreases r - k,
    {
        if p[k] != q[k] {
            assert(p@.subrange(0, r as int)[k as int] != q@.subrange(0, r as int)[k as int]);
            return None;
        }
        k = k + 1;
    }
    assert(p@.subrange(0, r as int) =~= q@.subrange(0, r as int));
    if r == 1 && q[0] == '/' {
        let s = slashes_end_exec(&p, 1);
        return Some(string_of(&copy_range(&p, s, p.len())));
    }
    if r == p.len() {
        return Some(String::new());
    }
    if p[r] == '/' {
        let s = slashes_end_exec(&p, r);
        Some(string_of(&copy_range(&p, s, p.len())))
    } else {
        None
    }
}

/// Whether the components of `root` begin the components of `path`.
pub fn starts_with_path(path: &str, root: &str) -> (r: bool)
    ensures
        r == path_starts_with(path@, root@),
{
    strip_prefix(path, root).is_some()
}

// ---------------------------------------------------------------------------------------------
// Lexical normalization
// ---------------------------------------------------------------------------------------------
/// The components kept after one more component is taken: `.` and empty components are
/// dropped; `..` removes the last kept component when that is an ordinary one, is dropped at
/// the root of an absolute path, and is kept otherwise.
pub open spec fn take_component(acc: Seq<Seq<char>>, c: Seq<char>, rooted: bool) -> Seq<Seq<char>> {
    if c.len() == 0 || c == seq!['.'] {
        acc
    } else if c == seq!['.', '.'] {
        if acc.len() > 0 && acc.last() != seq!['.', '.'] {
            acc.drop_last()
        } else if rooted {
            acc
        } else {
            acc.push(c)
        }
    } else {
        acc.push(c)
    }
}

/// The kept components of `p[i..]`, given those kept before `i` and the component `cur` that
/// is being read.
pub open spec fn lexical_scan(p: Seq<char>, i: int, acc: Seq<Seq<char>>, cur: Seq<char>, rooted: bool) -> Seq<
    Seq<char>,
>
    decreases p.len() - i,
{
    if i < 0 || i >= p.len() {
        take_component(acc, cur, rooted)
    } else if p[i] == '/' {
        lexical_scan(p, i + 1, take_component(acc, cur, rooted), Seq::empty(), rooted)
    } else {
        lexical_scan(p, i + 1, acc, cur.push(p[i]), rooted)
    }
}

/// Components joined with `/`.
pub open spec fn join_components(cs: Seq<Seq<char>>) -> Seq<char>
    decreases cs.len(),
{
    if cs.len() == 0 {
        Seq::empty()
    } else if cs.len() == 1 {
        cs[0]
    } else {
        join_components(cs.drop_last()) + seq!['/'] + cs.last()
    }
}

/// A path with `.` components removed and `..` components resolved against the components
/// before them, without consulting the file system.
pub open spec fn lexical_spec(p: Seq<char>) -> Seq<char> {
    let rooted = p.len() > 0 && p[0] == '/';
    let comps = lexical_scan(p, 0, Seq::empty(), Seq::empty(), rooted);
    if rooted {
        seq!['/'] + join_components(comps)
    } else {
        join_components(comps)
    }
}

fn take_component_exec(acc: &mut Vec<Vec<char>>, cur: Vec<char>, rooted: bool)
    ensures
        final(acc)@.map_values(|v: Vec<char>| v@) == take_component(
            old(acc)@.map_values(|v: Vec<char>| v@),
            cur@,
            rooted,
        ),
{
    let ghost before = acc@.map_values(|v: Vec<char>| v@);
    let is_dot = cur.len() == 1 && cur[0] == '.';
    let is_dot_dot = cur.len() == 2 && cur[0] == '.' && cur[1] == '.';
    proof {
        assert(is_dot == (cur@ == seq!['.'])) by {
            if cur@ == seq!['.'] {
                assert(cur@[0] == '.');
            }
            if is_dot {
                assert(cur@ =~= seq!['.']);
            }
        }
        assert(is_dot_dot == (cur@ == seq!['.', '.'])) by {
            if cur@ == seq!['.', '.'] {
                assert(cur@[0] == '.' && cur@[1] == '.');
            }
            if is_dot_dot {
                assert(cur@ =~= seq!['.', '.']);
            }
        }
    }
    if cur.len() == 0 || is_dot {
        return ;
    }
    if is_dot_dot {
        let n = acc.len();
        let last_is_parent = n > 0 && acc[n - 1].len() == 2 && acc[n - 1][0] == '.' && acc[n
            - 1][1] == '.';
        proof {
            if n > 0 {
                let l = acc@[n - 1]@;
                assert(before.last() == l);
                assert(last_is_parent == (l == seq!['.', '.'])) by {
                    if l == seq!['.', '.'] {
                        assert(l[0] == '.' && l[1] == '.');
                    }
                    if last_is_parent {
                        assert(l =~= seq!['.', '.']);
                    }
                }
            }
        }
        if n > 0 && !last_is_parent {
            acc.pop();
            proof {
                assert(acc@.map_values(|v: Vec<char>| v@) =~= before.drop_last());
            }
        } else if rooted {
        } else {
            acc.push(cur);
            proof {
                assert(acc@.map_values(|v: Vec<char>| v@) =~= before.push(seq!['.', '.']));
            }
        }
    } else {
        let ghost c = cur@;
        acc.push(cur);
        proof {
            assert(acc@.map_values(|v: Vec<char>| v@) =~= before.push(c));
        }
    }
}

/// Normalizes a path lexically: drops `.` components and resolves `..` components.
pub fn lexical_path(path: &str) -> (r: String)
    ensures
        r@ == lexical_spec(path@),
{
    let p = chars_of(path);
    let rooted = p.len() > 0 && p[0] == '/';
    let mut acc: Vec<Vec<char>> = Vec::new();
    let mut cur: Vec<char> = Vec::new();
    let mut i: usize = 0;
    proof {
        assert(acc@.map_values(|v: Vec<char>| v@) =~= Seq::<Seq<char>>::empty());
    }
    while i < p.len()
        invariant
            i <= p@.len(),
            p@ == path@,
            rooted == (p@.len() > 0 && p@[0] == '/'),
            lexical_scan(p@, i as int, acc@.map_values(|v: Vec<char>| v@), cur@, rooted)
                == lexical_scan(p@, 0, Seq::empty(), Seq::empty(), rooted),
        decreases p.len() - i,
    {
        if p[i] == '/' {
            let taken = cur;
            cur = Vec::new();
            take_component_exec(&mut acc, taken, rooted);
            proof {
                assert(cur@ =~= Seq::<char>::empty());
            }
        } else {
            cur.push(p[i]);
        }
        i = i + 1;
    }
    take_component_exec(&mut acc, cur, rooted);
    let comps = acc;
    let ghost cv = comps@.map_values(|v: Vec<char>| v@);
    let mut out: Vec<char> = Vec::new();
    if rooted {
        out.push('/');
    }
    let ghost prefix = out@;
    let mut k: usize = 0;
    while k < comps.len()
        invariant
            k <= comps@.len(),
            cv == comps@.map_values(|v: Vec<char>| v@),
            out@ == prefix + join_components(cv.subrange(0, k as int)),
        decreases comps.len() - k,
    {
        let ghost before = out@;
        if k > 0 {
            out.push('/');
        }
        push_all(&mut out, &comps[k]);
        proof {
            let sub = cv.subrange(0, k + 1);
            assert(sub.drop_last() =~= cv.subrange(0, k as int));
            assert(sub.last() == comps@[k as int]@);
            if k == 0 {
                assert(out@ =~= prefix + join_components(sub));
            } else {
                assert(out@ =~= prefix + join_components(sub));
            }
        }
        k = k + 1;
    }
    proof {
        assert(cv.subrange(0, cv.len() as int) =~= cv);
        if rooted {
            assert(prefix =~= seq!['/']);
        } else {
            assert(prefix =~= Seq::<char>::empty());
            assert(out@ =~= join_components(cv));
        }
    }
    string_of(&out)
}

// ---------------------------------------------------------------------------------------------
// The order of paths: component by component, which for paths without repeated separators is
// the order of their characters with `/` before every other character.
// ---------------------------------------------------------------------------------------------
pub open spec fn path_key(c: char) -> int {
    if c == '/' {
        -1
    } else {
        (c as u32) as int
    }
}

pub open spec fn path_lt(a: Seq<char>, b: Seq<char>) -> bool
    decreases a.len(),
{
    if a.len() == 0 {
        b.len() > 0
    } else if b.len() == 0 {
        false
    } else if path_key(a[0]) != path_key(b[0]) {
        path_key(a[0]) < path_key(b[0])
    } else {
        path_lt(a.drop_first(), b.drop_first())
    }
}

pub proof fn lemma_path_key_injective(x: char, y: char)
    ensures
        path_key(x) == path_key(y) ==> x == y,
{
    if path_key(x) == path_key(y) {
        if x == '/' || y == '/' {
        } else {
            assert(x as u32 == y as u32);
        }
    }
}

pub proof fn lemma_path_lt_irreflexive(a: Seq<char>)
    ensures
        !path_lt(a, a),
    decreases a.len(),
{
    if a.len() > 0 {
        lemma_path_lt_irreflexive(a.drop_first());
    }
}

pub proof fn lemma_path_lt_trichotomy(a: Seq<char>, b: Seq<char>)
    ensures
        a == b || path_lt(a, b) || path_lt(b, a),
        !(path_lt(a, b) && path_lt(b, a)),
    decreases a.len(),
{
    if a.len() > 0 && b.len() > 0 {
        lemma_path_key_injective(a[0], b[0]);
        lemma_path_lt_trichotomy(a.drop_first(), b.drop_first());
        if a.drop_first() == b.drop_first() && a[0] == b[0] {
            assert(a =~= seq![a[0]] + a.drop_first());
            assert(b =~= seq![b[0]] + b.drop_first());
        }
    } else if a.len() == 0 && b.len() == 0 {
        assert(a =~= b);
    }
}

pub proof fn lemma_path_lt_transitive(a: Seq<char>, b: Seq<char>, c: Seq<char>)
    requires
        path_lt(a, b),
        path_lt(b, c),
    ensures
        path_lt(a, c),
    decreases a.len(),
{
    if a.len() > 0 && b.len() > 0 && c.len() > 0 {
        if path_key(a[0]) == path_key(b[0]) && path_key(b[0]) == path_key(c[0]) {
            lemma_path_lt_transitive(a.drop_first(), b.drop_first(), c.drop_first());
        }
    }
}

pub fn path_lt_exec(a: &[char], b: &[char]) -> (r: bool)
    ensures
        r == path_lt(a@, b@),
{
    proof {
        assert(a@.subrange(0, a@.len() as int) =~= a@);
        assert(b@.subrange(0, b@.len() as int) =~= b@);
    }
    let mut i: usize = 0;
    while i < a.len() && i < b.len() && a[i] == b[i]
        invariant
            i <= a@.len(),
            i <= b@.len(),
            path_lt(a@.subrange(i as int, a@.len() as int), b@.subrange(i as int, b@.len() as int))
                == path_lt(a@, b@),
        decreases a.len() - i,
    {
        proof {
            let x = a@.subrange(i as int, a@.len() as int);
            let y = b@.subrange(i as int, b@.len() as int);
            assert(x.drop_first() =~= a@.subrange(i + 1, a@.len() as int));
            assert(y.drop_first() =~= b@.subrange(i + 1, b@.len() as int));
        }
        i = i + 1;
    }
    let ghost x = a@.subrange(i as int, a@.len() as int);
    let ghost y = b@.subrange(i as int, b@.len() as int);
    if i == a.len() {
        assert(x.len() == 0);
        assert(path_lt(x, y) == (y.len() > 0));
        i < b.len()
    } else if i == b.len() {
        assert(y.len() == 0 && x.len() > 0);
        assert(!path_lt(x, y));
        false
    } else {
        let ka: i64 = if a[i] == '/' {
            -1
        } else {
            a[i] as u32 as i64
        };
        let kb: i64 = if b[i] == '/' {
            -1
        } else {
            b[i] as u32 as i64
        };
        proof {
            lemma_path_key_injective(a@[i as int], b@[i as int]);
            assert(x[0] == a@[i as int] && y[0] == b@[i as int]);
            assert(ka == path_key(a@[i as int]));
            assert(kb == path_key(b@[i as int]));
            assert(path_lt(x, y) == (ka < kb));
        }
        ka < kb
    }
}

// ---------------------------------------------------------------------------------------------
// Maps keyed by path, kept in path order
// ---------------------------------------------------------------------------------------------
/// Entries keyed by path text, in strictly ascending path order.
pub struct PathMap<V> {
    pub entries: Vec<(String, V)>,
}

pub open spec fn keys_ascending<V>(s: Seq<(String, V)>) -> bool {
    forall|i: int, j: int| 0 <= i < j < s.len() ==> path_lt(#[trigger] s[i].0@, #[trigger] s[j].0@)
}

pub open spec fn has_key<V>(s: Seq<(String, V)>, k: Seq<char>) -> bool {
    exists|i: int| 0 <= i < s.len() && #[trigger] s[i].0@ == k
}

/// The value stored under key `k` among the entries from position `i` on.
pub open spec fn lookup_from<V>(s: Seq<(String, V)>, k: Seq<char>, i: int) -> Option<V>
    decreases s.len() - i,
{
    if i < 0 || i >= s.len() {
        None
    } else if s[i].0@ == k {
        Some(s[i].1)
    } else {
        lookup_from(s, k, i + 1)
    }
}

/// The value stored under key `k`.
pub open spec fn lookup<V>(s: Seq<(String, V)>, k: Seq<char>) -> Option<V> {
    lookup_from(s, k, 0)
}

proof fn lemma_lookup_skip<V>(s: Seq<(String, V)>, k: Seq<char>, a: int, b: int)
    requires
        0 <= a <= b <= s.len(),
        forall|j: int| a <= j < b ==> #[trigger] s[j].0@ != k,
    ensures
        lookup_from(s, k, a) == lookup_from(s, k, b),
    decreases b - a,
{
    if a < b {
        lemma_lookup_skip(s, k, a + 1, b);
    }
}

/// In a map with ascending keys, the lookup of a stored key gives its value.
proof fn lemma_lookup_at<V>(s: Seq<(String, V)>, i: int)
    requires
        keys_ascending(s),
        0 <= i < s.len(),
    ensures
        lookup(s, s[i].0@) == Some(s[i].1),
{
    let k = s[i].0@;
    assert forall|j: int| 0 <= j < i implies #[trigger] s[j].0@ != k by {
        lemma_path_lt_irreflexive(k);
        assert(path_lt(s[j].0@, s[i].0@));
    }
    lemma_lookup_skip(s, k, 0, i);
}

/// The lookup of a key that the map does not hold gives nothing.
proof fn lemma_lookup_absent<V>(s: Seq<(String, V)>, k: Seq<char>)
    requires
        !has_key(s, k),
    ensures
        lookup(s, k) is None,
{
    assert forall|j: int| 0 <= j < s.len() implies #[trigger] s[j].0@ != k by {}
    lemma_lookup_skip(s, k, 0, s.len() as int);
}

/// Two maps with ascending keys whose keys and values agree for every key other than `key`
/// give the same lookups there.
proof fn lemma_lookup_same<V>(a: Seq<(String, V)>, b: Seq<(String, V)>, k: Seq<char>)
    requires
        keys_ascending(a),
        keys_ascending(b),
        has_key(a, k) <==> has_key(b, k),
        forall|i: int, j: int|
            0 <= i < a.len() && 0 <= j < b.len() && #[trigger] a[i].0@ == k && #[trigger] b[j].0@ == k
                ==> a[i].1 == b[j].1,
    ensures
        lookup(a, k) == lookup(b, k),
{
    if has_key(a, k) {
        let i = choose|i: int| 0 <= i < a.len() && #[trigger] a[i].0@ == k;
        let j = choose|j: int| 0 <= j < b.len() && #[trigger] b[j].0@ == k;
        lemma_lookup_at(a, i);
        lemma_lookup_at(b, j);
    } else {
        lemma_lookup_absent(a, k);
        lemma_lookup_absent(b, k);
    }
}

impl<V> PathMap<V> {
    pub open spec fn wf(&self) -> bool {
        keys_ascending(self.entries@)
    }

    pub fn new() -> (m: Self)
        ensures
            m.wf(),
            m.entries@.len() == 0,
    {
        PathMap { entries: Vec::new() }
    }

    /// The position of the entry whose key is `key`.
    pub fn position(&self, key: &str) -> (r: Option<usize>)
        ensures
            match r {
                Some(i) => i < self.entries@.len() && self.entries@[i as int].0@ == key@ && forall|j: int|
                    0 <= j < i ==> #[trigger] self.entries@[j].0@ != key@,
                None => !has_key(self.entries@, key@),
            },
    {
        let k = chars_of(key);
        let mut i: usize = 0;
        while i < self.entries.len()
            invariant
                i <= self.entries@.len(),
                k@ == key@,
                forall|j: int| 0 <= j < i ==> #[trigger] self.entries@[j].0@ != key@,
            decreases self.entries.len() - i,
        {
            let c = chars_of(self.entries[i].0.as_str());
            if chars_eq(&c, &k) {
                return Some(i);
            }
            i = i + 1;
        }
        None
    }

    /// The value stored under `key`.
    pub fn get(&self, key: &str) -> (r: Option<&V>)
        ensures
            match r {
                Some(v) => exists|i: int|
                    0 <= i < self.entries@.len() && self.entries@[i].0@ == key@ && self.entries@[i].1
                        == *v,
                None => !has_key(self.entries@, key@),
            },
            match lookup(self.entries@, key@) {
                Some(v) => r matches Some(x) && *x == v,
                None => r is None,
            },
    {
        match self.position(key) {
            Some(i) => {
                proof {
                    lemma_lookup_skip(self.entries@, key@, 0, i as int);
                }
                Some(&self.entries[i].1)
            },
            None => {
                proof {
                    lemma_lookup_absent(self.entries@, key@);
                }
                None
            },
        }
    }

    /// Adds an entry whose key the map does not hold, at its place in path order.
    pub fn insert_new(&mut self, key: String, value: V) -> (idx: usize)
        requires
            old(self).wf(),
            !has_key(old(self).entries@, key@),
        ensures
            final(self).wf(),
            idx <= old(self).entries@.len(),
            final(self).entries@ == old(self).entries@.insert(idx as int, (key, value)),
    {
        let k = chars_of(key.as_str());
        let mut i: usize = 0;
        let mut stop = false;
        while !stop && i < self.entries.len()
            invariant
                i <= self.entries@.len(),
                self.entries@ == old(self).entries@,
                k@ == key@,
                forall|j: int| 0 <= j < i ==> path_lt(#[trigger] self.entries@[j].0@, key@),
                stop ==> i < self.entries@.len() && !path_lt(self.entries@[i as int].0@, key@),
            decreases self.entries.len() - i + (if stop { 0int } else { 1int }),
        {
            let c = chars_of(self.entries[i].0.as_str());
            if !path_lt_exec(&c, &k) {
                stop = true;
            } else {
                i = i + 1;
            }
        }
        let ghost before = self.entries@;
        proof {
            if i < before.len() {
                lemma_path_lt_trichotomy(before[i as int].0@, key@);
                assert(before[i as int].0@ != key@);
                assert(path_lt(key@, before[i as int].0@));
            }
        }
        self.entries.insert(i, (key, value));
        proof {
            let after = self.entries@;
            assert forall|a: int, b: int| 0 <= a < b < after.len() implies path_lt(
                #[trigger] after[a].0@,
                #[trigger] after[b].0@,
            ) by {
                if b < i {
                    assert(after[a] == before[a] && after[b] == before[b]);
                } else if b == i {
                    assert(after[a] == before[a]);
                } else if a == i {
                    assert(after[b] == before[b - 1]);
                    if b - 1 > i {
                        lemma_path_lt_transitive(key@, before[i as int].0@, before[b - 1].0@);
                    }
                } else if a < i {
                    assert(after[a] == before[a] && after[b] == before[b - 1]);
                    lemma_path_lt_transitive(before[a].0@, key@, before[i as int].0@);
                    if b - 1 > i {
                        lemma_path_lt_transitive(before[a].0@, before[i as int].0@, before[b - 1].0@);
                    }
                } else {
                    assert(after[a] == before[a - 1] && after[b] == before[b - 1]);
                }
            }
        }
        i
    }

    /// Stores `value` under `key`, replacing the value stored there before.
    pub fn set(&mut self, key: String, value: V)
        requires
            old(self).wf(),
        ensures
            final(self).wf(),
            has_key(final(self).entries@, key@),
            forall|k: Seq<char>| k != key@ ==> (has_key(final(self).entries@, k) <==> has_key(old(self).entries@, k)),
            lookup(final(self).entries@, key@) == Some(value),
            forall|k: Seq<char>|
                k != key@ ==> #[trigger] lookup(final(self).entries@, k) == lookup(old(self).entries@, k),
    {
        match self.position(key.as_str()) {
            Some(i) => {
                let ghost before = self.entries@;
                let k = self.entries[i].0.clone();
                self.entries.set(i, (k, value));
                proof {
                    assert forall|a: int, b: int| 0 <= a < b < self.entries@.len() implies path_lt(
                        #[trigger] self.entries@[a].0@,
                        #[trigger] self.entries@[b].0@,
                    ) by {
                        assert(self.entries@[a].0 == before[a].0);
                        assert(self.entries@[b].0 == before[b].0);
                    }
                    assert(self.entries@[i as int].0@ == key@);
                    assert forall|k: Seq<char>| k != key@ implies (has_key(self.entries@, k) <==> has_key(before, k)) by {
                        if has_key(before, k) {
                            let j = choose|j: int| 0 <= j < before.len() && #[trigger] before[j].0@ == k;
                            assert(self.entries@[j].0 == before[j].0);
                        }
                        if has_key(self.entries@, k) {
                            let j = choose|j: int| 0 <= j < self.entries@.len() && #[trigger] self.entries@[j].0@ == k;
                            assert(self.entries@[j].0 == before[j].0);
                        }
                    }
                    lemma_lookup_at(self.entries@, i as int);
                    assert forall|k: Seq<char>| k != key@ implies #[trigger] lookup(self.entries@, k)
                        == lookup(before, k) by {
                        assert forall|a: int, b: int|
                            0 <= a < self.entries@.len() && 0 <= b < before.len()
                                && #[trigger] self.entries@[a].0@ == k && #[trigger] before[b].0@ == k
                                implies self.entries@[a].1 == before[b].1 by {
                            assert(a != i);
                            assert(self.entries@[a] == before[a]);
                            if a != b {
                                lemma_path_lt_irreflexive(k);
                                if a < b {
                                    assert(path_lt(before[a].0@, before[b].0@));
                                } else {
                                    assert(path_lt(before[b].0@, before[a].0@));
                                }
                            }
                        }
                        lemma_lookup_same(self.entries@, before, k);
                    }
                }
            },
            None => {
                let ghost before = self.entries@;
                let ghost kv = key@;
                let ghost vv = value;
                let idx = self.insert_new(key, value);
                proof {
                    assert(self.entries@[idx as int].0@ == key@);
                    lemma_lookup_at(self.entries@, idx as int);
                    assert(self.entries@[idx as int].1 == vv);
                    assert forall|k: Seq<char>| k != key@ implies (has_key(self.entries@, k) <==> has_key(before, k)) by {
                        if has_key(before, k) {
                            let j = choose|j: int| 0 <= j < before.len() && #[trigger] before[j].0@ == k;
                            if j < idx {
                                assert(self.entries@[j] == before[j]);
                            } else {
                                assert(self.entries@[j + 1] == before[j]);
                            }
                        }
                        if has_key(self.entries@, k) {
                            let j = choose|j: int| 0 <= j < self.entries@.len() && #[trigger] self.entries@[j].0@ == k;
                            if j < idx {
                                assert(self.entries@[j] == before[j]);
                            } else if j > idx {
                                assert(self.entries@[j] == before[j - 1]);
                            }
                        }
                    }
                    assert forall|k: Seq<char>| k != kv implies #[trigger] lookup(self.entries@, k)
                        == lookup(before, k) by {
                        assert forall|a: int, b: int|
                            0 <= a < self.entries@.len() && 0 <= b < before.len()
                                && #[trigger] self.entries@[a].0@ == k && #[trigger] before[b].0@ == k
                                implies self.entries@[a].1 == before[b].1 by {
                            assert(a != idx);
                            let c = if a < idx {
                                a
                            } else {
                                a - 1
                            };
                            assert(self.entries@[a] == before[c]);
                            if c != b {
                                lemma_path_lt_irreflexive(k);
                                if c < b {
                                    assert(path_lt(before[c].0@, before[b].0@));
                                } else {
                                    assert(path_lt(before[b].0@, before[c].0@));
                                }
                            }
                        }
                        lemma_lookup_same(self.entries@, before, k);
                    }
                }
            },
        }
    }

    /// Replaces the value at position `i`, keeping its key; gives back the value it held.
    pub fn replace_at(&mut self, i: usize, value: V) -> (previous: V)
        requires
            old(self).wf(),
            i < old(self).entries@.len(),
        ensures
            final(self).wf(),
            final(self).entries@.len() == old(self).entries@.len(),
            final(self).entries@ == old(self).entries@.update(
                i as int,
                (old(self).entries@[i as int].0, value),
            ),
            previous == old(self).entries@[i as int].1,
    {
        let ghost before = self.entries@;
        let (key, previous) = self.entries.remove(i);
        self.entries.insert(i, (key, value));
        proof {
            assert(self.entries@ =~= before.update(i as int, (before[i as int].0, value)));
            assert forall|a: int, b: int| 0 <= a < b < self.entries@.len() implies path_lt(
                #[trigger] self.entries@[a].0@,
                #[trigger] self.entries@[b].0@,
            ) by {
                assert(self.entries@[a].0 == before[a].0);
                assert(self.entries@[b].0 == before[b].0);
            }
        }
        previous
    }

    /// Removes the entry stored under `key`, if any.
    pub fn remove(&mut self, key: &str)
        requires
            old(self).wf(),
        ensures
            final(self).wf(),
            !has_key(final(self).entries@, key@),
            forall|k: Seq<char>| k != key@ ==> (has_key(final(self).entries@, k) <==> has_key(old(self).entries@, k)),
            lookup(final(self).entries@, key@) is None,
            forall|k: Seq<char>|
                k != key@ ==> #[trigger] lookup(final(self).entries@, k) == lookup(old(self).entries@, k),
    {
        match self.position(key) {
            Some(i) => {
                let ghost before = self.entries@;
                self.entries.remove(i);
                proof {
                    let after = self.entries@;
                    assert forall|a: int, b: int| 0 <= a < b < after.len() implies path_lt(
                        #[trigger] after[a].0@,
                        #[trigger] after[b].0@,
                    ) by {
                        if a >= i {
                            assert(after[a] == before[a + 1] && after[b] == before[b + 1]);
                        } else if b >= i {
                            assert(after[a] == before[a] && after[b] == before[b + 1]);
                        } else {
                            assert(after[a] == before[a] && after[b] == before[b]);
                        }
                    }
                    assert forall|j: int| 0 <= j < before.len() && j != i implies #[trigger] before[j].0@ != key@ by {
                        lemma_path_lt_irreflexive(key@);
                        if j < i {
                            assert(path_lt(before[j].0@, before[i as int].0@));
                        } else {
                            assert(path_lt(before[i as int].0@, before[j].0@));
                        }
                    }
                    assert forall|j: int| 0 <= j < after.len() implies #[trigger] after[j].0@ != key@ by {
                        if j < i {
                            assert(after[j] == before[j]);
                        } else {
                            assert(after[j] == before[j + 1]);
                        }
                    }
                    assert forall|k: Seq<char>| k != key@ implies (has_key(after, k) <==> has_key(before, k)) by {
                        if has_key(before, k) {
                            let j = choose|j: int| 0 <= j < before.len() && #[trigger] before[j].0@ == k;
                            if j < i {
                                assert(after[j] == before[j]);
                            } else {
                                assert(after[j - 1] == before[j]);
                            }
                        }
                        if has_key(after, k) {
                            let j = choose|j: int| 0 <= j < after.len() && #[trigger] after[j].0@ == k;
                            if j < i {
                                assert(after[j] == before[j]);
                            } else {
                                assert(after[j] == before[j + 1]);
                            }
                        }
                    }
                    lemma_lookup_absent(after, key@);
                    assert forall|k: Seq<char>| k != key@ implies #[trigger] lookup(after, k) == lookup(
                        before,
                        k,
                    ) by {
                        assert forall|a: int, b: int|
                            0 <= a < after.len() && 0 <= b < before.len() && #[trigger] after[a].0@ == k
                                && #[trigger] before[b].0@ == k implies after[a].1 == before[b].1 by {
                            let c = if a < i {
                                a
                            } else {
                                a + 1
                            };
                            assert(after[a] == before[c]);
                            if c != b {
                                lemma_path_lt_irreflexive(k);
                                if c < b {
                                    assert(path_lt(before[c].0@, before[b].0@));
                                } else {
                                    assert(path_lt(before[b].0@, before[c].0@));
                                }
                            }
                        }
                        lemma_lookup_same(after, before, k);
                    }
                }
            },
            None => {
                proof {
                    lemma_lookup_absent(self.entries@, key@);
                }
            },
        }
    }
}

} // verus!
