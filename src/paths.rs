//! Paths as raw bytes: the `./` prefix that a walk from the current
//! directory yields, and the byte-wise order in which plans are kept.
use vstd::prelude::*;

verus! {

/// A path that begins with the current-directory component: `.` alone or `./...`.
pub open spec fn starts_with_current_dir(p: Seq<u8>) -> bool {
    p.len() >= 1 && p[0] == 0x2eu8 && (p.len() == 1 || p[1] == 0x2fu8)
}

/// The path with every leading separator and `.` component removed.
pub open spec fn skip_current(p: Seq<u8>) -> Seq<u8>
    decreases p.len(),
{
    if p.len() > 0 && (p[0] == 0x2fu8 || starts_with_current_dir(p)) {
        skip_current(p.drop_first())
    } else {
        p
    }
}

/// The path relative to the current directory: when it begins with the `.`
/// component, that component and every `.` component and separator after
/// it are removed; any other path is left as it is.
pub open spec fn stripped(p: Seq<u8>) -> Seq<u8> {
    if starts_with_current_dir(p) {
        skip_current(p.drop_first())
    } else {
        p
    }
}

/// Remove the `./` prefix from a path.
pub fn strip_current_dir(path: &[u8]) -> (r: Vec<u8>)
    ensures
        r@ == stripped(path@),
{
    let n = path.len();
    let mut start: usize = 0;
    if n >= 1 && path[0] == 0x2eu8 && (n == 1 || path[1] == 0x2fu8) {
        start = 1;
        while start < n && (path[start] == 0x2fu8 || (path[start] == 0x2eu8 && (start + 1 == n || path[start + 1] == 0x2fu8)))
            invariant
                1 <= start <= n,
                n == path@.len(),
                starts_with_current_dir(path@),
                skip_current(path@.drop_first()) == skip_current(path@.subrange(start as int, n as int)),
            decreases n - start,
        {
            let ghost rest = path@.subrange(start as int, n as int);
            assert(rest.drop_first() =~= path@.subrange(start + 1, n as int));
            start = start + 1;
        }
        let ghost rest = path@.subrange(start as int, n as int);
        assert(skip_current(rest) == rest);
    } else {
        assert(path@.subrange(0, n as int) =~= path@);
    }
    let mut r: Vec<u8> = Vec::new();
    let mut i: usize = start;
    while i < n
        invariant
            start <= i <= n,
            n == path@.len(),
            r@ =~= path@.subrange(start as int, i as int),
        decreases n - i,
    {
        r.push(path[i]);
        i = i + 1;
    }
    r
}

/// Byte-wise lexicographic order: the order of the entries of a rename plan.
pub open spec fn bytes_lt(a: Seq<u8>, b: Seq<u8>) -> bool
    decreases a.len(),
{
    if a.len() == 0 {
        b.len() > 0
    } else if b.len() == 0 {
        false
    } else if a[0] != b[0] {
        a[0] < b[0]
    } else {
        bytes_lt(a.drop_first(), b.drop_first())
    }
}

pub proof fn lemma_bytes_lt_irreflexive(a: Seq<u8>, b: Seq<u8>)
    requires
        bytes_lt(a, b),
    ensures
        !bytes_lt(b, a),
        a != b,
    decreases a.len(),
{
    if a.len() > 0 && b.len() > 0 && a[0] == b[0] {
        lemma_bytes_lt_irreflexive(a.drop_first(), b.drop_first());
    }
}

pub proof fn lemma_bytes_lt_total(a: Seq<u8>, b: Seq<u8>)
    requires
        a != b,
    ensures
        bytes_lt(a, b) || bytes_lt(b, a),
    decreases a.len(),
{
    if a.len() > 0 && b.len() > 0 && a[0] == b[0] {
        if a.drop_first() == b.drop_first() {
            assert(a =~= seq![a[0]] + a.drop_first());
            assert(b =~= seq![b[0]] + b.drop_first());
        }
        lemma_bytes_lt_total(a.drop_first(), b.drop_first());
    } else if a.len() == 0 && b.len() == 0 {
        assert(a =~= b);
    }
}

pub proof fn lemma_bytes_lt_transitive(a: Seq<u8>, b: Seq<u8>, c: Seq<u8>)
    requires
        bytes_lt(a, b),
        bytes_lt(b, c),
    ensures
        bytes_lt(a, c),
    decreases a.len(),
{
    if a.len() > 0 && b.len() > 0 && c.len() > 0 && a[0] == b[0] && b[0] == c[0] {
        lemma_bytes_lt_transitive(a.drop_first(), b.drop_first(), c.drop_first());
    }
}

/// Whether `a` comes before `b` in byte-wise order.
pub fn bytes_less(a: &Vec<u8>, b: &Vec<u8>) -> (r: bool)
    ensures
        r == bytes_lt(a@, b@),
{
    let mut i: usize = 0;
    assert(a@.skip(0) =~= a@);
    assert(b@.skip(0) =~= b@);
    while i < a.len() && i < b.len() && a[i] == b[i]
        invariant
            i <= a@.len(),
            i <= b@.len(),
            bytes_lt(a@, b@) == bytes_lt(a@.skip(i as int), b@.skip(i as int)),
        decreases a@.len() - i,
    {
        assert(a@.skip(i as int).drop_first() =~= a@.skip(i + 1));
        assert(b@.skip(i as int).drop_first() =~= b@.skip(i + 1));
        i = i + 1;
    }
    if i == a.len() {
        i < b.len()
    } else if i == b.len() {
        false
    } else {
        a[i] < b[i]
    }
}

/// Whether two paths have the same bytes.
pub fn bytes_equal(a: &Vec<u8>, b: &Vec<u8>) -> (r: bool)
    ensures
        r == (a@ == b@),
{
    let lt = bytes_less(a, b);
    let gt = bytes_less(b, a);
    proof {
        if a@ != b@ {
            lemma_bytes_lt_total(a@, b@);
        }
        if lt {
            lemma_bytes_lt_irreflexive(a@, b@);
        }
    }
    !lt && !gt
}

/// A copy of a path.
pub fn copy_bytes(v: &Vec<u8>) -> (r: Vec<u8>)
    ensures
        r@ == v@,
{
    let r = v.clone();
    assert(r@ =~= v@);
    r
}

} // verus!
