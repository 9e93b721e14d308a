//! Byte-level text utilities shared by the parser, the identifier codec and
//! the prompt machinery.  All text in the library is UTF-8 held in `Vec<u8>`.
use vstd::prelude::*;

verus! {

// ---------------------------------------------------------------------------
// Substring search
// ---------------------------------------------------------------------------
/// The needle `n` occurs in `h` starting at index `i`.
pub open spec fn match_at(h: Seq<u8>, n: Seq<u8>, i: int) -> bool {
    &&& 0 <= i
    &&& i + n.len() <= h.len()
    &&& forall|k: int| 0 <= k < n.len() ==> h[i + k] == n[k]
}

/// Index of the first occurrence of `n` in `h` at or after `i`, if any.
pub open spec fn find_from(h: Seq<u8>, n: Seq<u8>, i: int) -> Option<int>
    decreases h.len() - i,
{
    if i < 0 || i + n.len() > h.len() {
        None
    } else if match_at(h, n, i) {
        Some(i)
    } else {
        find_from(h, n, i + 1)
    }
}

/// Index of the first occurrence of `n` in `h`, if any.
pub open spec fn find_first(h: Seq<u8>, n: Seq<u8>) -> Option<int> {
    find_from(h, n, 0)
}

pub proof fn lemma_find_from_props(h: Seq<u8>, n: Seq<u8>, i: int)
    requires
        0 <= i,
    ensures
        match find_from(h, n, i) {
            Some(j) => i <= j && match_at(h, n, j) && forall|k: int|
                i <= k < j ==> !match_at(h, n, k),
            None => forall|k: int| i <= k ==> !match_at(h, n, k),
        },
    decreases h.len() - i,
{
    if i + n.len() > h.len() {
        assert forall|k: int| i <= k implies !match_at(h, n, k) by {}
    } else if match_at(h, n, i) {
    } else {
        lemma_find_from_props(h, n, i + 1);
    }
}

/// A first match characterisation: a match at `j` with none earlier pins the
/// result of `find_from`.
pub proof fn lemma_find_from_is(h: Seq<u8>, n: Seq<u8>, i: int, j: int)
    requires
        0 <= i <= j,
        match_at(h, n, j),
        forall|k: int| i <= k < j ==> !match_at(h, n, k),
    ensures
        find_from(h, n, i) == Some(j),
    decreases j - i,
{
    if i < j {
        lemma_find_from_is(h, n, i + 1, j);
    }
}

/// Extending the haystack on the right keeps an existing first match.
pub proof fn lemma_find_extend_found(h: Seq<u8>, t: Seq<u8>, n: Seq<u8>, j: int)
    requires
        find_first(h, n) == Some(j),
    ensures
        find_first(h + t, n) == Some(j),
{
    lemma_find_from_props(h, n, 0);
    assert(match_at(h + t, n, j));
    assert forall|k: int| 0 <= k < j implies !match_at(h + t, n, k) by {
        if match_at(h + t, n, k) {
            // the earlier match would lie wholly inside `h`
            assert(k + n.len() <= h.len());
            assert(match_at(h, n, k));
        }
    }
    lemma_find_from_is(h + t, n, 0, j);
}

/// When `h` holds no match, any match in `h + t` must overlap the added tail:
/// nothing starts at an index whose occurrence would fit inside `h`.
pub proof fn lemma_find_none_extend(h: Seq<u8>, t: Seq<u8>, n: Seq<u8>)
    requires
        find_first(h, n).is_none(),
    ensures
        forall|k: int| 0 <= k && k + n.len() <= h.len() ==> !match_at(h + t, n, k),
{
    lemma_find_from_props(h, n, 0);
    assert forall|k: int| 0 <= k && k + n.len() <= h.len() implies !match_at(h + t, n, k) by {
        if match_at(h + t, n, k) {
            assert(match_at(h, n, k));
        }
    }
}

/// First occurrence of `n` in `h`, or `None`.
pub fn find_sub(h: &Vec<u8>, n: &Vec<u8>) -> (r: Option<usize>)
    requires
        n@.len() > 0,
    ensures
        match r {
            Some(j) => find_first(h@, n@) == Some(j as int),
            None => find_first(h@, n@).is_none(),
        },
{
    if n.len() > h.len() {
        proof {
            lemma_find_from_props(h@, n@, 0);
        }
        return None;
    }
    let last_start: usize = h.len() - n.len();
    let mut i: usize = 0;
    while i <= last_start
        invariant
            n@.len() > 0,
            h@.len() <= usize::MAX,
            last_start + n@.len() == h@.len(),
            i <= last_start + 1,
            forall|k: int| 0 <= k < i ==> !match_at(h@, n@, k),
        decreases last_start + 1 - i,
    {
        let mut k: usize = 0;
        let mut ok: bool = true;
        while k < n.len()
            invariant
                n@.len() > 0,
                h@.len() <= usize::MAX,
                i + n@.len() <= h@.len(),
                k <= n@.len(),
                ok ==> forall|m: int| 0 <= m < k ==> h@[i + m] == n@[m],
                !ok ==> !match_at(h@, n@, i as int),
            decreases n@.len() - k,
        {
            if h[i + k] != n[k] {
                ok = false;
                k = n.len();
            } else {
                k = k + 1;
            }
        }
        if ok {
            proof {
                assert(match_at(h@, n@, i as int));
                lemma_find_from_is(h@, n@, 0, i as int);
            }
            return Some(i);
        }
        i = i + 1;
    }
    proof {
        lemma_find_from_props(h@, n@, 0);
        if find_first(h@, n@).is_some() {
            let j = find_first(h@, n@).unwrap();
            assert(match_at(h@, n@, j));
            assert(j <= last_start);
        }
    }
    None
}

// ---------------------------------------------------------------------------
// Small vector helpers
// ---------------------------------------------------------------------------
/// Copy of `v[a..b]`.
pub fn sub_bytes(v: &Vec<u8>, a: usize, b: usize) -> (r: Vec<u8>)
    requires
        a <= b <= v@.len(),
    ensures
        r@ == v@.subrange(a as int, b as int),
{
    let mut r: Vec<u8> = Vec::new();
    let mut i: usize = a;
    while i < b
        invariant
            a <= i <= b <= v@.len(),
            r@ == v@.subrange(a as int, i as int),
        decreases b - i,
    {
        r.push(v[i]);
        proof {
            assert(r@ =~= v@.subrange(a as int, i + 1));
        }
        i = i + 1;
    }
    r
}

/// Append all of `t` to `v`.
pub fn push_all(v: &mut Vec<u8>, t: &Vec<u8>)
    ensures
        final(v)@ == old(v)@ + t@,
{
    let mut i: usize = 0;
    while i < t.len()
        invariant
            i <= t@.len(),
            v@ == old(v)@ + t@.subrange(0, i as int),
        decreases t@.len() - i,
    {
        v.push(t[i]);
        proof {
            assert(v@ =~= old(v)@ + t@.subrange(0, i + 1));
        }
        i = i + 1;
    }
    proof {
        assert(v@ =~= old(v)@ + t@);
    }
}

/// Byte-for-byte equality.
pub fn eq_bytes(a: &Vec<u8>, b: &Vec<u8>) -> (r: bool)
    ensures
        r == (a@ == b@),
{
    if a.len() != b.len() {
        proof {
            assert(a@ != b@);
        }
        return false;
    }
    let mut i: usize = 0;
    while i < a.len()
        invariant
            a@.len() == b@.len(),
            i <= a@.len(),
            forall|k: int| 0 <= k < i ==> a@[k] == b@[k],
        decreases a@.len() - i,
    {
        if a[i] != b[i] {
            proof {
                assert(a@[i as int] != b@[i as int]);
            }
            return false;
        }
        i = i + 1;
    }
    proof {
        assert(a@ =~= b@);
    }
    true
}

// ---------------------------------------------------------------------------
// Trimming: ASCII whitespace, colons, full-width colons
// ---------------------------------------------------------------------------
/// ASCII whitespace, the one-byte subset of Unicode whitespace.
pub open spec fn is_ws(b: u8) -> bool {
    b == 0x20 || (0x09 <= b && b <= 0x0d)
}

pub open spec fn trim_left_if(s: Seq<u8>, p: spec_fn(u8) -> bool) -> Seq<u8>
    decreases s.len(),
{
    if s.len() > 0 && p(s[0]) {
        trim_left_if(s.subrange(1, s.len() as int), p)
    } else {
        s
    }
}

pub open spec fn trim_right_if(s: Seq<u8>, p: spec_fn(u8) -> bool) -> Seq<u8>
    decreases s.len(),
{
    if s.len() > 0 && p(s[s.len() - 1]) {
        trim_right_if(s.subrange(0, s.len() - 1), p)
    } else {
        s
    }
}

proof fn lemma_trim_left_if_at(s: Seq<u8>, p: spec_fn(u8) -> bool, j: int)
    requires
        0 <= j <= s.len(),
        forall|k: int| 0 <= k < j ==> p(s[k]),
        j < s.len() ==> !p(s[j]),
    ensures
        trim_left_if(s, p) == s.subrange(j, s.len() as int),
    decreases j,
{
    if j == 0 {
        if s.len() > 0 && p(s[0]) {
            assert(false);
        }
        assert(s.subrange(0, s.len() as int) =~= s);
    } else {
        let s1 = s.subrange(1, s.len() as int);
        lemma_trim_left_if_at(s1, p, j - 1);
        assert(s1.subrange(j - 1, s1.len() as int) =~= s.subrange(j, s.len() as int));
    }
}

proof fn lemma_trim_right_if_at(s: Seq<u8>, p: spec_fn(u8) -> bool, j: int)
    requires
        0 <= j <= s.len(),
        forall|k: int| j <= k < s.len() ==> p(s[k]),
        j > 0 ==> !p(s[j - 1]),
    ensures
        trim_right_if(s, p) == s.subrange(0, j),
    decreases s.len() - j,
{
    if j == s.len() {
        if s.len() > 0 && p(s[s.len() - 1]) {
            assert(false);
        }
        assert(s.subrange(0, s.len() as int) =~= s);
    } else {
        let s1 = s.subrange(0, s.len() - 1);
        assert(s1.subrange(0, j) =~= s.subrange(0, j));
        lemma_trim_right_if_at(s1, p, j);
    }
}

/// The byte class stripped by `trim_if_exec`: whitespace or the plain colon.
fn byte_hit(b: u8, wsp: bool) -> (r: bool)
    ensures
        wsp ==> r == is_ws(b),
        !wsp ==> r == (b == 0x3au8),
{
    if wsp {
        b == 0x20 || (0x09 <= b && b <= 0x0d)
    } else {
        b == 0x3a
    }
}

/// Drop bytes satisfying `p` from both ends, exec side.  The spec side is
/// `trim_right_if(trim_left_if(..))`; `wsp` selects whitespace, otherwise the
/// plain colon is stripped.
fn trim_if_exec(v: &Vec<u8>, wsp: bool) -> (r: Vec<u8>)
    ensures
        wsp ==> r@ == trim_right_if(trim_left_if(v@, |b: u8| is_ws(b)), |b: u8| is_ws(b)),
        !wsp ==> r@ == trim_right_if(trim_left_if(v@, |b: u8| b == 0x3au8), |b: u8| b == 0x3au8),
{
    let ghost p: spec_fn(u8) -> bool = if wsp {
        |b: u8| is_ws(b)
    } else {
        |b: u8| b == 0x3au8
    };
    let mut a: usize = 0;
    while a < v.len() && byte_hit(v[a], wsp)
        invariant
            a <= v@.len(),
            p == (if wsp {
                |b: u8| is_ws(b)
            } else {
                |b: u8| b == 0x3au8
            }),
            forall|k: int| 0 <= k < a ==> p(v@[k]),
        decreases v@.len() - a,
    {
        a = a + 1;
    }
    proof {
        lemma_trim_left_if_at(v@, p, a as int);
    }
    let ghost mid = trim_left_if(v@, p);
    let mut b: usize = v.len();
    while b > a && byte_hit(v[b - 1], wsp)
        invariant
            a <= b <= v@.len(),
            p == (if wsp {
                |b: u8| is_ws(b)
            } else {
                |b: u8| b == 0x3au8
            }),
            mid == v@.subrange(a as int, v@.len() as int),
            forall|k: int| b <= k < v@.len() ==> p(v@[k]),
        decreases b,
    {
        b = b - 1;
    }
    proof {
        assert forall|k: int| b - a <= k < mid.len() implies p(mid[k]) by {
            assert(mid[k] == v@[a + k]);
        }
        if b > a {
            assert(mid[b - a - 1] == v@[b - 1]);
        }
        lemma_trim_right_if_at(mid, p, b - a);
        assert(mid.subrange(0, b - a) =~= v@.subrange(a as int, b as int));
    }
    sub_bytes(v, a, b)
}

/// ASCII whitespace removed from both ends.
pub open spec fn trim_ws_spec(s: Seq<u8>) -> Seq<u8> {
    trim_right_if(trim_left_if(s, |b: u8| is_ws(b)), |b: u8| is_ws(b))
}

/// Trim ASCII whitespace from both ends.
pub fn trim_ascii_ws(v: &Vec<u8>) -> (r: Vec<u8>)
    ensures
        r@ == trim_ws_spec(v@),
{
    trim_if_exec(v, true)
}

/// `s` with every leading repetition of `p` removed.
pub open spec fn trim_left_pat(s: Seq<u8>, p: Seq<u8>) -> Seq<u8>
    decreases s.len(),
    when p.len() > 0
{
    if s.len() >= p.len() && s.subrange(0, p.len() as int) == p {
        trim_left_pat(s.subrange(p.len() as int, s.len() as int), p)
    } else {
        s
    }
}

/// Strip every leading repetition of `p`.
pub fn strip_prefix_repeat(v: &Vec<u8>, p: &Vec<u8>) -> (r: Vec<u8>)
    requires
        p@.len() > 0,
    ensures
        r@ == trim_left_pat(v@, p@),
{
    proof {
        assert(v@.subrange(0, v@.len() as int) =~= v@);
    }
    let mut a: usize = 0;
    loop
        invariant
            p@.len() > 0,
            a <= v@.len(),
            trim_left_pat(v@, p@) == trim_left_pat(v@.subrange(a as int, v@.len() as int), p@),
        decreases v@.len() - a,
    {
        let ghost cur = v@.subrange(a as int, v@.len() as int);
        if v.len() - a < p.len() {
            proof {
                assert(trim_left_pat(cur, p@) == cur);
            }
            return sub_bytes(v, a, v.len());
        }
        let mut k: usize = 0;
        let mut hit: bool = true;
        while k < p.len()
            invariant
                a + p@.len() <= v@.len(),
                v@.len() <= usize::MAX,
                k <= p@.len(),
                cur == v@.subrange(a as int, v@.len() as int),
                hit ==> forall|m: int| 0 <= m < k ==> v@[a + m] == p@[m],
                !hit ==> cur.subrange(0, p@.len() as int) != p@,
            decreases p@.len() - k,
        {
            if v[a + k] != p[k] {
                proof {
                    assert(cur.subrange(0, p@.len() as int)[k as int] == v@[a + k]);
                }
                hit = false;
                k = p.len();
            } else {
                k = k + 1;
            }
        }
        if hit {
            proof {
                assert(cur.subrange(0, p@.len() as int) =~= p@);
                assert(cur.subrange(p@.len() as int, cur.len() as int) =~= v@.subrange(
                    a + p@.len(),
                    v@.len() as int,
                ));
            }
            a = a + p.len();
        } else {
            proof {
                assert(trim_left_pat(cur, p@) == cur);
            }
            return sub_bytes(v, a, v.len());
        }
    }
}

/// `s` with every occurrence of the byte `b` removed.
pub open spec fn drop_byte_spec(s: Seq<u8>, b: u8) -> Seq<u8>
    decreases s.len(),
{
    if s.len() == 0 {
        Seq::<u8>::empty()
    } else if s[s.len() - 1] == b {
        drop_byte_spec(s.subrange(0, s.len() - 1), b)
    } else {
        drop_byte_spec(s.subrange(0, s.len() - 1), b).push(s[s.len() - 1])
    }
}

/// Remove every occurrence of byte `b`.
pub fn drop_byte(v: &Vec<u8>, b: u8) -> (r: Vec<u8>)
    ensures
        r@ == drop_byte_spec(v@, b),
{
    let mut out: Vec<u8> = Vec::new();
    let mut i: usize = 0;
    while i < v.len()
        invariant
            i <= v@.len(),
            out@ == drop_byte_spec(v@.subrange(0, i as int), b),
        decreases v@.len() - i,
    {
        proof {
            let nxt = v@.subrange(0, i + 1);
            assert(nxt.subrange(0, nxt.len() - 1) =~= v@.subrange(0, i as int));
            assert(nxt[nxt.len() - 1] == v@[i as int]);
        }
        if v[i] != b {
            out.push(v[i]);
        }
        i = i + 1;
    }
    proof {
        assert(v@.subrange(0, v@.len() as int) =~= v@);
    }
    out
}

pub proof fn lemma_drop_byte_concat(x: Seq<u8>, y: Seq<u8>, b: u8)
    ensures
        drop_byte_spec(x + y, b) == drop_byte_spec(x, b) + drop_byte_spec(y, b),
    decreases y.len(),
{
    if y.len() == 0 {
        assert(x + y =~= x);
        assert(drop_byte_spec(x, b) + drop_byte_spec(y, b) =~= drop_byte_spec(x, b));
    } else {
        let yp = y.subrange(0, y.len() - 1);
        lemma_drop_byte_concat(x, yp, b);
        let w = x + y;
        assert(w.subrange(0, w.len() - 1) =~= x + yp);
        assert(w[w.len() - 1] == y[y.len() - 1]);
        if y[y.len() - 1] != b {
            assert(drop_byte_spec(x, b) + drop_byte_spec(y, b) =~= (drop_byte_spec(x, b)
                + drop_byte_spec(yp, b)).push(y[y.len() - 1]));
        }
    }
}

pub proof fn lemma_drop_byte_absent(s: Seq<u8>, b: u8)
    requires
        forall|i: int| 0 <= i < s.len() ==> s[i] != b,
    ensures
        drop_byte_spec(s, b) == s,
    decreases s.len(),
{
    if s.len() > 0 {
        let pre = s.subrange(0, s.len() - 1);
        lemma_drop_byte_absent(pre, b);
        assert(pre.push(s[s.len() - 1]) =~= s);
    }
}

/// The full-width colon U+FF1A, as UTF-8.
pub open spec fn fw_colon() -> Seq<u8> {
    seq![0xefu8, 0xbcu8, 0x9au8]
}

pub open spec fn trim_left_fw(s: Seq<u8>) -> Seq<u8>
    decreases s.len(),
{
    if s.len() >= 3 && s[0] == 0xef && s[1] == 0xbc && s[2] == 0x9a {
        trim_left_fw(s.subrange(3, s.len() as int))
    } else {
        s
    }
}

pub open spec fn trim_right_fw(s: Seq<u8>) -> Seq<u8>
    decreases s.len(),
{
    if s.len() >= 3 && s[s.len() - 3] == 0xef && s[s.len() - 2] == 0xbc && s[s.len() - 1] == 0x9a {
        trim_right_fw(s.subrange(0, s.len() - 3))
    } else {
        s
    }
}

fn trim_fw_exec(v: &Vec<u8>) -> (r: Vec<u8>)
    ensures
        r@ == trim_right_fw(trim_left_fw(v@)),
{
    proof {
        assert(v@.subrange(0, v@.len() as int) =~= v@);
    }
    let mut a: usize = 0;
    while a < v.len() && v.len() - a >= 3 && v[a] == 0xef && v[a + 1] == 0xbc && v[a + 2] == 0x9a
        invariant
            a <= v@.len(),
            trim_left_fw(v@) == trim_left_fw(v@.subrange(a as int, v@.len() as int)),
        decreases v@.len() - a,
    {
        proof {
            let cur = v@.subrange(a as int, v@.len() as int);
            assert(cur.subrange(3, cur.len() as int) =~= v@.subrange(a + 3, v@.len() as int));
        }
        a = a + 3;
    }
    let ghost mid = trim_left_fw(v@);
    proof {
        let cur = v@.subrange(a as int, v@.len() as int);
        assert(mid == cur);
    }
    let mut b: usize = v.len();
    while b - a >= 3 && v[b - 3] == 0xef && v[b - 2] == 0xbc && v[b - 1] == 0x9a
        invariant
            a <= b <= v@.len(),
            mid == v@.subrange(a as int, v@.len() as int),
            trim_right_fw(mid) == trim_right_fw(v@.subrange(a as int, b as int)),
        decreases b,
    {
        proof {
            let cur = v@.subrange(a as int, b as int);
            assert(cur.subrange(0, cur.len() - 3) =~= v@.subrange(a as int, b - 3));
        }
        b = b - 3;
    }
    proof {
        let cur = v@.subrange(a as int, b as int);
        assert(trim_right_fw(cur) == cur);
    }
    sub_bytes(v, a, b)
}

/// What the protocol strips around tool names and argument bodies: outer
/// whitespace, then any run of `:` on either end, then any run of the
/// full-width colon, then whitespace again.
pub open spec fn strip_spec(s: Seq<u8>) -> Seq<u8> {
    let ws = |b: u8| is_ws(b);
    let co = |b: u8| b == 0x3au8;
    trim_right_if(
        trim_left_if(
            trim_right_fw(
                trim_left_fw(
                    trim_right_if(
                        trim_left_if(trim_right_if(trim_left_if(s, ws), ws), co),
                        co,
                    ),
                ),
            ),
            ws,
        ),
        ws,
    )
}

/// Strip whitespace and colon decoration from a protocol field.
pub fn strip_field(v: &Vec<u8>) -> (r: Vec<u8>)
    ensures
        r@ == strip_spec(v@),
{
    let s1 = trim_if_exec(v, true);
    let s2 = trim_if_exec(&s1, false);
    let s3 = trim_fw_exec(&s2);
    trim_if_exec(&s3, true)
}

// ---------------------------------------------------------------------------
// UTF-8 boundaries
// ---------------------------------------------------------------------------
/// `i` does not point into the middle of a multi-byte scalar.
pub open spec fn byte_boundary(s: Seq<u8>, i: int) -> bool {
    i <= 0 || i >= s.len() || !(0x80 <= s[i] && s[i] <= 0xbf)
}

/// Walk backward from `i` to the nearest boundary.
pub fn boundary_at_or_before(v: &Vec<u8>, i: usize) -> (r: usize)
    requires
        i <= v@.len(),
    ensures
        r <= i,
        byte_boundary(v@, r as int),
{
    let mut r: usize = i;
    while r > 0 && r < v.len() && 0x80 <= v[r] && v[r] <= 0xbf
        invariant
            r <= i <= v@.len(),
        decreases r,
    {
        r = r - 1;
    }
    r
}

// ---------------------------------------------------------------------------
// Replacement and joining
// ---------------------------------------------------------------------------
/// `h` with every occurrence of `pat` replaced by `val`, scanning left to
/// right without rescanning replaced text.
pub open spec fn replace_spec(h: Seq<u8>, pat: Seq<u8>, val: Seq<u8>) -> Seq<u8>
    decreases h.len(),
    when pat.len() > 0
    via replace_spec_dec
{
    match find_first(h, pat) {
        None => h,
        Some(i) => h.subrange(0, i) + val + replace_spec(
            h.subrange(i + pat.len(), h.len() as int),
            pat,
            val,
        ),
    }
}

#[via_fn]
proof fn replace_spec_dec(h: Seq<u8>, pat: Seq<u8>, val: Seq<u8>) {
    lemma_find_from_props(h, pat, 0);
}

/// Replace every occurrence of `pat` in `h` by `val`.
pub fn replace_all(h: &Vec<u8>, pat: &Vec<u8>, val: &Vec<u8>) -> (r: Vec<u8>)
    requires
        pat@.len() > 0,
    ensures
        r@ == replace_spec(h@, pat@, val@),
{
    let mut out: Vec<u8> = Vec::new();
    let mut rem: Vec<u8> = sub_bytes(h, 0, h.len());
    proof {
        assert(h@.subrange(0, h@.len() as int) =~= h@);
    }
    loop
        invariant
            pat@.len() > 0,
            replace_spec(h@, pat@, val@) == out@ + replace_spec(rem@, pat@, val@),
        decreases rem@.len(),
    {
        match find_sub(&rem, pat) {
            None => {
                proof {
                    assert(replace_spec(rem@, pat@, val@) == rem@);
                }
                push_all(&mut out, &rem);
                return out;
            },
            Some(i) => {
                proof {
                    lemma_find_from_props(rem@, pat@, 0);
                    assert(match_at(rem@, pat@, i as int));
                    assert(i + pat@.len() <= rem@.len());
                }
                let pre = sub_bytes(&rem, 0, i);
                let next = sub_bytes(&rem, i + pat.len(), rem.len());
                push_all(&mut out, &pre);
                push_all(&mut out, val);
                proof {
                    assert(out@ + replace_spec(next@, pat@, val@) == replace_spec(
                        h@,
                        pat@,
                        val@,
                    ));
                }
                rem = next;
            },
        }
    }
}

/// The items joined with `sep` between neighbours.
pub open spec fn join_spec(items: Seq<Seq<u8>>, sep: Seq<u8>) -> Seq<u8>
    decreases items.len(),
{
    if items.len() == 0 {
        Seq::<u8>::empty()
    } else if items.len() == 1 {
        items[0]
    } else {
        items[0] + sep + join_spec(items.subrange(1, items.len() as int), sep)
    }
}

pub proof fn lemma_join_push(items: Seq<Seq<u8>>, sep: Seq<u8>, x: Seq<u8>)
    ensures
        join_spec(items.push(x), sep) == if items.len() == 0 {
            x
        } else {
            join_spec(items, sep) + sep + x
        },
    decreases items.len(),
{
    let p = items.push(x);
    if items.len() == 0 {
        assert(p.len() == 1);
        assert(p[0] == x);
    } else {
        assert(p.len() >= 2);
        assert(p[0] == items[0]);
        assert(p.subrange(1, p.len() as int) =~= items.subrange(1, items.len() as int).push(x));
        lemma_join_push(items.subrange(1, items.len() as int), sep, x);
        if items.len() == 1 {
            assert(join_spec(items, sep) == items[0]);
        }
    }
}

/// Join byte strings with a separator.
pub fn join_bytes(items: &Vec<Vec<u8>>, sep: &Vec<u8>) -> (r: Vec<u8>)
    ensures
        r@ == join_spec(items@.map_values(|v: Vec<u8>| v@), sep@),
{
    let ghost model = items@.map_values(|v: Vec<u8>| v@);
    let mut out: Vec<u8> = Vec::new();
    let mut i: usize = 0;
    while i < items.len()
        invariant
            i <= items@.len(),
            model == items@.map_values(|v: Vec<u8>| v@),
            out@ == join_spec(model.subrange(0, i as int), sep@),
        decreases items@.len() - i,
    {
        if i > 0 {
            push_all(&mut out, sep);
        }
        push_all(&mut out, &items[i]);
        proof {
            let pre = model.subrange(0, i as int);
            lemma_join_push(pre, sep@, model[i as int]);
            assert(pre.push(model[i as int]) =~= model.subrange(0, i + 1));
        }
        i = i + 1;
    }
    proof {
        assert(model.subrange(0, model.len() as int) =~= model);
    }
    out
}

// ---------------------------------------------------------------------------
// Case, hex, character truncation
// ---------------------------------------------------------------------------
/// ASCII lower-casing of one byte.
pub open spec fn lower_byte(b: u8) -> u8 {
    if 0x41 <= b && b <= 0x5a {
        (b + 0x20) as u8
    } else {
        b
    }
}

/// ASCII lower-casing, byte for byte.  Multi-byte scalars are unchanged.
pub open spec fn lower_spec(s: Seq<u8>) -> Seq<u8> {
    s.map_values(|b: u8| lower_byte(b))
}

pub fn to_ascii_lower(v: &Vec<u8>) -> (r: Vec<u8>)
    ensures
        r@ == lower_spec(v@),
{
    let mut r: Vec<u8> = Vec::new();
    let mut i: usize = 0;
    while i < v.len()
        invariant
            i <= v@.len(),
            r@ == lower_spec(v@).subrange(0, i as int),
        decreases v@.len() - i,
    {
        let b = v[i];
        if 0x41 <= b && b <= 0x5a {
            r.push(b + 0x20);
        } else {
            r.push(b);
        }
        proof {
            assert(r@ =~= lower_spec(v@).subrange(0, i + 1));
        }
        i = i + 1;
    }
    proof {
        assert(lower_spec(v@).subrange(0, v@.len() as int) =~= lower_spec(v@));
    }
    r
}

/// The hex digit for a nibble, lower case unless `upper`.
pub open spec fn hex_digit(n: u8, upper: bool) -> u8
    recommends
        n < 16,
{
    if n < 10 {
        (0x30 + n) as u8
    } else if upper {
        (0x37 + n) as u8
    } else {
        (0x57 + n) as u8
    }
}

/// Two hex digits of one byte.
pub open spec fn hex_byte(b: u8, upper: bool) -> Seq<u8> {
    seq![hex_digit(b / 16, upper), hex_digit(b % 16, upper)]
}

pub fn push_hex_byte(out: &mut Vec<u8>, b: u8, upper: bool)
    ensures
        final(out)@ == old(out)@ + hex_byte(b, upper),
{
    let hi: u8 = b / 16;
    let lo: u8 = b % 16;
    if hi < 10 {
        out.push(0x30 + hi);
    } else if upper {
        out.push(0x37 + hi);
    } else {
        out.push(0x57 + hi);
    }
    if lo < 10 {
        out.push(0x30 + lo);
    } else if upper {
        out.push(0x37 + lo);
    } else {
        out.push(0x57 + lo);
    }
    proof {
        assert(out@ =~= old(out)@ + hex_byte(b, upper));
    }
}

/// Byte length of the scalar starting with leading byte `b`; stray
/// continuation bytes count as one byte so that truncation always advances.
pub open spec fn scalar_width(b: u8) -> int {
    if b < 0xc0 {
        1
    } else if b < 0xe0 {
        2
    } else if b < 0xf0 {
        3
    } else {
        4
    }
}

/// The first `n` characters of a UTF-8 byte string.
pub open spec fn take_chars_spec(s: Seq<u8>, n: nat) -> Seq<u8>
    decreases n,
{
    if n == 0 || s.len() == 0 {
        Seq::<u8>::empty()
    } else {
        let w = if scalar_width(s[0]) <= s.len() {
            scalar_width(s[0])
        } else {
            s.len() as int
        };
        s.subrange(0, w) + take_chars_spec(s.subrange(w, s.len() as int), (n - 1) as nat)
    }
}

/// Keep at most the first `n` characters.
pub fn take_chars(v: &Vec<u8>, n: usize) -> (r: Vec<u8>)
    ensures
        r@ == take_chars_spec(v@, n as nat),
{
    let mut out: Vec<u8> = Vec::new();
    let mut i: usize = 0;
    let mut left: usize = n;
    proof {
        assert(v@.subrange(0, v@.len() as int) =~= v@);
        assert(take_chars_spec(v@, n as nat) =~= Seq::<u8>::empty() + take_chars_spec(
            v@,
            n as nat,
        ));
    }
    while left > 0 && i < v.len()
        invariant
            i <= v@.len(),
            left <= n,
            take_chars_spec(v@, n as nat) == out@ + take_chars_spec(
                v@.subrange(i as int, v@.len() as int),
                left as nat,
            ),
        decreases left,
    {
        let b = v[i];
        let w: usize = if b < 0xc0 {
            1
        } else if b < 0xe0 {
            2
        } else if b < 0xf0 {
            3
        } else {
            4
        };
        let stop: usize = if w <= v.len() - i {
            i + w
        } else {
            v.len()
        };
        proof {
            let cur = v@.subrange(i as int, v@.len() as int);
            assert(cur[0] == v@[i as int]);
            assert(cur.subrange(0, stop - i) =~= v@.subrange(i as int, stop as int));
            assert(cur.subrange(stop - i, cur.len() as int) =~= v@.subrange(
                stop as int,
                v@.len() as int,
            ));
        }
        let piece = sub_bytes(v, i, stop);
        push_all(&mut out, &piece);
        i = stop;
        left = left - 1;
    }
    proof {
        let cur = v@.subrange(i as int, v@.len() as int);
        assert(take_chars_spec(cur, left as nat) =~= Seq::<u8>::empty());
        assert(out@ =~= out@ + take_chars_spec(cur, left as nat));
    }
    out
}

// ---------------------------------------------------------------------------
// Crossing to `String`
// ---------------------------------------------------------------------------
/// Relies on `String::from_utf8`: UTF-8 decoding is the identity on bytes
/// below 0x80, so an all-ASCII buffer decodes to the characters of the same
/// code points.
#[verifier::external_body]
pub fn ascii_to_string(v: &Vec<u8>) -> (r: String)
    requires
        forall|i: int| 0 <= i < v@.len() ==> v@[i] < 0x80,
    ensures
        r@.len() == v@.len(),
        forall|i: int| 0 <= i < v@.len() ==> r@[i] == v@[i] as char,
{
    String::from_utf8(v.clone()).unwrap_or_default()
}

/// Big-endian value of a byte string.
pub open spec fn be_value(s: Seq<u8>) -> nat
    decreases s.len(),
{
    if s.len() == 0 {
        0
    } else {
        (be_value(s.subrange(0, s.len() - 1)) * 256 + s[s.len() - 1]) as nat
    }
}


/// Copy a byte slice into a vector.
pub fn slice_to_vec(s: &[u8]) -> (r: Vec<u8>)
    ensures
        r@ == s@,
{
    let mut r: Vec<u8> = Vec::new();
    let mut i: usize = 0;
    while i < s.len()
        invariant
            i <= s@.len(),
            r@ == s@.subrange(0, i as int),
        decreases s@.len() - i,
    {
        r.push(s[i]);
        proof {
            assert(r@ =~= s@.subrange(0, i + 1));
        }
        i = i + 1;
    }
    proof {
        assert(s@.subrange(0, s@.len() as int) =~= s@);
    }
    r
}

/// Drop the byte `b` from both ends.
pub fn trim_byte(v: &Vec<u8>, b: u8) -> (r: Vec<u8>)
    ensures
        r@ == trim_right_if(trim_left_if(v@, |x: u8| x == b), |x: u8| x == b),
{
    let ghost p: spec_fn(u8) -> bool = |x: u8| x == b;
    let mut a: usize = 0;
    while a < v.len() && v[a] == b
        invariant
            a <= v@.len(),
            p == (|x: u8| x == b),
            forall|k: int| 0 <= k < a ==> p(v@[k]),
        decreases v@.len() - a,
    {
        a = a + 1;
    }
    proof {
        lemma_trim_left_if_at(v@, p, a as int);
    }
    let ghost mid = trim_left_if(v@, p);
    let mut e: usize = v.len();
    while e > a && v[e - 1] == b
        invariant
            a <= e <= v@.len(),
            p == (|x: u8| x == b),
            mid == v@.subrange(a as int, v@.len() as int),
            forall|k: int| e <= k < v@.len() ==> p(v@[k]),
        decreases e,
    {
        e = e - 1;
    }
    proof {
        assert forall|k: int| e - a <= k < mid.len() implies p(mid[k]) by {
            assert(mid[k] == v@[a + k]);
        }
        if e > a {
            assert(mid[e - a - 1] == v@[e - 1]);
        }
        lemma_trim_right_if_at(mid, p, e - a);
        assert(mid.subrange(0, e - a) =~= v@.subrange(a as int, e as int));
    }
    sub_bytes(v, a, e)
}

/// Index of the last occurrence of `n` in `h` at or below `i`.
pub open spec fn rfind_from(h: Seq<u8>, n: Seq<u8>, i: int) -> Option<int>
    decreases i + 1,
{
    if i < 0 {
        None
    } else if match_at(h, n, i) {
        Some(i)
    } else {
        rfind_from(h, n, i - 1)
    }
}

/// Index of the last occurrence of `n` in `h`.
pub open spec fn rfind_last(h: Seq<u8>, n: Seq<u8>) -> Option<int> {
    rfind_from(h, n, h.len() - n.len())
}

pub proof fn lemma_rfind_from_props(h: Seq<u8>, n: Seq<u8>, i: int)
    ensures
        match rfind_from(h, n, i) {
            Some(j) => j <= i && match_at(h, n, j) && forall|k: int|
                j < k <= i ==> !match_at(h, n, k),
            None => forall|k: int| 0 <= k <= i ==> !match_at(h, n, k),
        },
    decreases i + 1,
{
    if i >= 0 && !match_at(h, n, i) {
        lemma_rfind_from_props(h, n, i - 1);
    }
}

/// Last occurrence of `n` in `h`, or `None`.
pub fn rfind_sub(h: &Vec<u8>, n: &Vec<u8>) -> (r: Option<usize>)
    requires
        n@.len() > 0,
    ensures
        match r {
            Some(j) => rfind_last(h@, n@) == Some(j as int),
            None => rfind_last(h@, n@) is None,
        },
{
    if n.len() > h.len() {
        proof {
            lemma_rfind_from_props(h@, n@, h@.len() - n@.len());
        }
        return None;
    }
    let mut i: usize = h.len() - n.len() + 1;
    while i > 0
        invariant
            n@.len() > 0,
            h@.len() <= usize::MAX,
            i + n@.len() <= h@.len() + 1,
            rfind_from(h@, n@, h@.len() - n@.len()) == rfind_from(h@, n@, i as int - 1),
        decreases i,
    {
        let start = i - 1;
        let mut k: usize = 0;
        let mut ok: bool = true;
        while k < n.len()
            invariant
                n@.len() > 0,
                h@.len() <= usize::MAX,
                start + n@.len() <= h@.len(),
                k <= n@.len(),
                ok ==> forall|m: int| 0 <= m < k ==> h@[start + m] == n@[m],
                !ok ==> !match_at(h@, n@, start as int),
            decreases n@.len() - k,
        {
            if h[start + k] != n[k] {
                ok = false;
                k = n.len();
            } else {
                k = k + 1;
            }
        }
        if ok {
            proof {
                assert(match_at(h@, n@, start as int));
            }
            return Some(start);
        }
        i = i - 1;
    }
    proof {
        lemma_rfind_from_props(h@, n@, -1);
    }
    None
}

} // verus!
