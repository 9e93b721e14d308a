//! Content-addressed asset identifiers: a 160-bit digest rendered as 31
//! Base36 digits in five hyphen-separated groups of widths 6-6-6-6-7.
use vstd::prelude::*;
use vstd::arithmetic::power::pow;
use vstd::arithmetic::div_mod::lemma_fundamental_div_mod;
use crate::textops::be_value;

verus! {

/// Why a textual identifier was rejected.
#[derive(Clone, Copy, PartialEq, Eq, Structural, Debug)]
pub enum AssetIdError {
    /// A character is not a Base36 digit, or no digit is left at all.
    InvalidBase36,
    /// The numeric value does not fit in 160 bits.
    AssertIdOverflow,
}

/// Number of bytes in an identifier.
pub open spec fn id_len() -> int {
    20
}

/// Number of Base36 digits in the canonical text form.
pub open spec fn digit_count() -> int {
    31
}

// ---------------------------------------------------------------------------
// Digits
// ---------------------------------------------------------------------------
/// The lower-case Base36 digit for a value below 36.
pub open spec fn digit_char(d: int) -> u8
    recommends
        0 <= d < 36,
{
    if d < 10 {
        (0x30 + d) as u8
    } else {
        (0x57 + d) as u8
    }
}

/// Value of a Base36 digit byte, either case; -1 when not a digit.
pub open spec fn digit_val(b: u8) -> int {
    if 0x30 <= b && b <= 0x39 {
        b - 0x30
    } else if 0x61 <= b && b <= 0x7a {
        b - 0x57
    } else if 0x41 <= b && b <= 0x5a {
        b - 0x37
    } else {
        -1
    }
}

/// Every byte is a Base36 digit.
pub open spec fn all_b36(s: Seq<u8>) -> bool {
    forall|i: int| 0 <= i < s.len() ==> digit_val(s[i]) >= 0
}

/// Value of a Base36 digit string, most significant digit first.
pub open spec fn b36_value(s: Seq<u8>) -> nat
    decreases s.len(),
{
    if s.len() == 0 {
        0
    } else {
        (b36_value(s.subrange(0, s.len() - 1)) * 36 + digit_val(s[s.len() - 1])) as nat
    }
}

/// The `k`-digit zero-padded lower-case Base36 rendering of `v % 36^k`.
pub open spec fn b36_digits(v: nat, k: nat) -> Seq<u8>
    decreases k,
{
    if k == 0 {
        Seq::<u8>::empty()
    } else {
        b36_digits(v / 36, (k - 1) as nat).push(digit_char((v % 36) as int))
    }
}

/// Hyphen grouping of the 31 digits: 6-6-6-6-7.
pub open spec fn grouped(d: Seq<u8>) -> Seq<u8>
    recommends
        d.len() == digit_count(),
{
    d.subrange(0, 6) + seq![0x2du8] + d.subrange(6, 12) + seq![0x2du8] + d.subrange(12, 18)
        + seq![0x2du8] + d.subrange(18, 24) + seq![0x2du8] + d.subrange(24, 31)
}

/// The canonical text form of an identifier's bytes.
pub open spec fn format_spec(id: Seq<u8>) -> Seq<u8> {
    grouped(b36_digits(be_value(id), 31))
}

// ---------------------------------------------------------------------------
// Value lemmas
// ---------------------------------------------------------------------------
pub proof fn lemma_be_value_bound(s: Seq<u8>)
    ensures
        be_value(s) < pow(256, s.len() as nat),
    decreases s.len(),
{
    reveal(pow);
    if s.len() == 0 {
        assert(pow(256, 0) == 1);
    } else {
        let pre = s.subrange(0, s.len() - 1);
        lemma_be_value_bound(pre);
        let p = pow(256, pre.len() as nat);
        assert(pow(256, s.len() as nat) == 256 * p);
        assert(be_value(pre) * 256 + s[s.len() - 1] < p * 256) by (nonlinear_arith)
            requires
                be_value(pre) < p,
                s[s.len() - 1] < 256,
        ;
    }
}

pub proof fn lemma_be_value_inj(a: Seq<u8>, b: Seq<u8>)
    requires
        a.len() == b.len(),
        be_value(a) == be_value(b),
    ensures
        a =~= b,
    decreases a.len(),
{
    if a.len() > 0 {
        let pa = a.subrange(0, a.len() - 1);
        let pb = b.subrange(0, b.len() - 1);
        let va = be_value(pa) as int;
        let vb = be_value(pb) as int;
        let la = a[a.len() - 1] as int;
        let lb = b[b.len() - 1] as int;
        vstd::arithmetic::div_mod::lemma_fundamental_div_mod_converse(
            va * 256 + la,
            256,
            va,
            la,
        );
        vstd::arithmetic::div_mod::lemma_fundamental_div_mod_converse(
            vb * 256 + lb,
            256,
            vb,
            lb,
        );
        assert(la == lb);
        assert(va == vb);
        lemma_be_value_inj(pa, pb);
        assert(a =~= pa.push(a[a.len() - 1]));
        assert(b =~= pb.push(b[b.len() - 1]));
    }
}

pub proof fn lemma_b36_digits_shape(v: nat, k: nat)
    ensures
        b36_digits(v, k).len() == k,
        all_b36(b36_digits(v, k)),
        forall|i: int| 0 <= i < k ==> {
            let b = #[trigger] b36_digits(v, k)[i];
            (0x30 <= b && b <= 0x39) || (0x61 <= b && b <= 0x7a)
        },
    decreases k,
{
    if k > 0 {
        lemma_b36_digits_shape(v / 36, (k - 1) as nat);
        let d = b36_digits(v, k);
        let pre = b36_digits(v / 36, (k - 1) as nat);
        assert forall|i: int| 0 <= i < k implies {
            let b = #[trigger] d[i];
            (0x30 <= b && b <= 0x39) || (0x61 <= b && b <= 0x7a)
        } by {
            if i < k - 1 {
                assert(d[i] == pre[i]);
            } else {
                assert(d[i] == digit_char((v % 36) as int));
            }
        }
        assert forall|i: int| 0 <= i < d.len() implies digit_val(d[i]) >= 0 by {
            if i < k - 1 {
                assert(d[i] == pre[i]);
                assert(digit_val(pre[i]) >= 0);
            } else {
                assert(d[i] == digit_char((v % 36) as int));
            }
        }
    }
}

pub proof fn lemma_b36_digits_value(v: nat, k: nat)
    requires
        v < pow(36, k),
    ensures
        b36_value(b36_digits(v, k)) == v,
    decreases k,
{
    reveal(pow);
    if k == 0 {
        assert(pow(36, 0) == 1);
    } else {
        let p = pow(36, (k - 1) as nat);
        assert(pow(36, k) == 36 * p);
        assert(v / 36 < p) by (nonlinear_arith)
            requires
                v < 36 * p,
                p > 0,
        ;
        lemma_b36_digits_value(v / 36, (k - 1) as nat);
        let d = b36_digits(v, k);
        let pre = b36_digits(v / 36, (k - 1) as nat);
        lemma_b36_digits_shape(v / 36, (k - 1) as nat);
        assert(d.subrange(0, d.len() - 1) =~= pre);
        assert(d[d.len() - 1] == digit_char((v % 36) as int));
        assert(digit_val(digit_char((v % 36) as int)) == v % 36);
        lemma_fundamental_div_mod(v as int, 36);
    }
}

/// Splitting a digit string splits its value positionally.
pub proof fn lemma_b36_value_split(s: Seq<u8>, i: int)
    requires
        0 <= i <= s.len(),
        all_b36(s),
    ensures
        b36_value(s) == b36_value(s.subrange(0, i)) * pow(36, (s.len() - i) as nat) + b36_value(
            s.subrange(i, s.len() as int),
        ),
    decreases s.len() - i,
{
    reveal(pow);
    let m = s.len() - i;
    if m == 0 {
        assert(s.subrange(0, i) =~= s);
        assert(b36_value(s.subrange(i, s.len() as int)) == 0);
        assert(pow(36, 0) == 1);
    } else {
        let pre = s.subrange(0, s.len() - 1);
        assert(all_b36(pre)) by {
            assert(forall|k: int| 0 <= k < pre.len() ==> pre[k] == s[k]);
        }
        lemma_b36_value_split(pre, i);
        assert(pre.subrange(0, i) =~= s.subrange(0, i));
        let vp = b36_value(s.subrange(0, i)) as int;
        let mid = pre.subrange(i, pre.len() as int);
        let suf = s.subrange(i, s.len() as int);
        assert(suf.subrange(0, suf.len() - 1) =~= mid);
        assert(suf[suf.len() - 1] == s[s.len() - 1]);
        assert(digit_val(s[s.len() - 1]) >= 0);
        let d = digit_val(s[s.len() - 1]);
        let vm = b36_value(mid) as int;
        assert(pow(36, m as nat) == 36 * pow(36, (m - 1) as nat));
        assert((vp * pow(36, (m - 1) as nat) + vm) * 36 + d == vp * (36 * pow(
            36,
            (m - 1) as nat,
        )) + (vm * 36 + d)) by (nonlinear_arith);
    }
}

// ---------------------------------------------------------------------------
// The identifier
// ---------------------------------------------------------------------------
/// A 160-bit content digest.
#[derive(Debug)]
pub struct AssetId {
    pub bytes: Vec<u8>,
}

impl View for AssetId {
    type V = Seq<u8>;

    open spec fn view(&self) -> Seq<u8> {
        self.bytes@
    }
}

impl Clone for AssetId {
    fn clone(&self) -> (r: Self)
        ensures
            r@ == self@,
    {
        AssetId { bytes: crate::textops::sub_bytes(&self.bytes, 0, self.bytes.len()) }
    }
}

impl PartialEq for AssetId {
    fn eq(&self, other: &Self) -> (r: bool)
        ensures
            r == (self@ == other@),
    {
        crate::textops::eq_bytes(&self.bytes, &other.bytes)
    }
}

impl Eq for AssetId {

}

impl vstd::std_specs::cmp::PartialEqSpecImpl for AssetId {
    open spec fn obeys_eq_spec() -> bool {
        true
    }

    open spec fn eq_spec(&self, other: &Self) -> bool {
        self@ == other@
    }
}

/// Named digest of a byte string.  See `digest_prefix`.
pub uninterp spec fn content_digest(data: Seq<u8>) -> Seq<u8>;

/// Relies on `blake3::hash`: the digest is a function of the input bytes
/// alone; the identifier keeps the first 20 of its 32 bytes.
#[verifier::external_body]
fn digest_prefix(data: &[u8]) -> (r: Vec<u8>)
    ensures
        r@ == content_digest(data@),
        r@.len() == id_len(),
{
    blake3::hash(data).as_bytes()[0..20].to_vec()
}

impl AssetId {
    /// The identifier is exactly 20 bytes.
    pub open spec fn wf(&self) -> bool {
        self@.len() == id_len()
    }

    /// Build an identifier from explicit bytes.
    pub fn from_bytes(bytes: Vec<u8>) -> (r: AssetId)
        requires
            bytes@.len() == id_len(),
        ensures
            r@ == bytes@,
            r.wf(),
    {
        AssetId { bytes }
    }

    /// The content address of `data`: the truncated digest of its bytes.
    pub fn from_data(data: &[u8]) -> (r: AssetId)
        ensures
            r@ == content_digest(data@),
            r.wf(),
    {
        AssetId { bytes: digest_prefix(data) }
    }

    /// Raw digest bytes.
    pub fn as_bytes(&self) -> (r: &Vec<u8>)
        ensures
            r@ == self@,
    {
        &self.bytes
    }
}

// ---------------------------------------------------------------------------
// Long division of a big-endian byte string by 36
// ---------------------------------------------------------------------------
/// One step of Base36 conversion: quotient bytes and remainder digit.
fn div36(v: &Vec<u8>) -> (r: (Vec<u8>, u8))
    ensures
        r.0@.len() == v@.len(),
        r.1 < 36,
        be_value(r.0@) * 36 + r.1 == be_value(v@),
{
    let mut q: Vec<u8> = Vec::new();
    let mut rem: u8 = 0;
    let mut i: usize = 0;
    while i < v.len()
        invariant
            i <= v@.len(),
            q@.len() == i,
            rem < 36,
            be_value(q@.subrange(0, i as int)) * 36 + rem == be_value(v@.subrange(0, i as int)),
        decreases v@.len() - i,
    {
        let b = v[i];
        let acc: u32 = (rem as u32) * 256 + (b as u32);
        let qb: u32 = acc / 36;
        let nr: u32 = acc % 36;
        assert(qb < 256 && nr < 36) by (nonlinear_arith)
            requires
                acc < 36 * 256,
                qb == acc / 36,
                nr == acc % 36,
        ;
        proof {
            let qv = be_value(q@.subrange(0, i as int)) as int;
            let vv = be_value(v@.subrange(0, i as int)) as int;
            lemma_fundamental_div_mod(acc as int, 36);
            assert(v@.subrange(0, i + 1).subrange(0, i as int) =~= v@.subrange(0, i as int));
            assert(v@.subrange(0, i + 1)[i as int] == b);
            assert(q@.push(qb as u8).subrange(0, i as int) =~= q@.subrange(0, i as int));
            assert((qv * 256 + qb) * 36 + nr == vv * 256 + b) by (nonlinear_arith)
                requires
                    qv * 36 + rem == vv,
                    acc == rem * 256 + b,
                    acc == 36 * (acc as int / 36) + acc as int % 36,
                    qb == acc as int / 36,
                    nr == acc as int % 36,
            ;
        }
        q.push(qb as u8);
        rem = nr as u8;
        proof {
            assert(q@.subrange(0, i + 1) =~= q@);
        }
        i = i + 1;
    }
    proof {
        assert(v@.subrange(0, v@.len() as int) =~= v@);
        assert(q@.subrange(0, v@.len() as int) =~= q@);
    }
    (q, rem)
}

impl AssetId {
    /// The canonical text rendering: 31 lower-case Base36 digits, zero
    /// padded, in groups of 6-6-6-6-7 separated by hyphens.
    pub fn format_text(&self) -> (r: Vec<u8>)
        requires
            self.wf(),
        ensures
            r@ == format_spec(self@),
    {
        let ghost v0 = be_value(self@);
        let mut cur: Vec<u8> = crate::textops::sub_bytes(&self.bytes, 0, self.bytes.len());
        proof {
            assert(self@.subrange(0, self@.len() as int) =~= self@);
        }
        let mut ds: Vec<u8> = Vec::new();
        let mut k: usize = 0;
        proof {
            assert(b36_digits(v0, 31) + ds@ =~= b36_digits(v0, 31));
        }
        while k < 31
            invariant
                k <= 31,
                cur@.len() == id_len(),
                b36_digits(v0, 31) == b36_digits(be_value(cur@), (31 - k) as nat) + ds@,
            decreases 31 - k,
    {
            let (q, rem) = div36(&cur);
            let d: u8 = if rem < 10 {
                0x30 + rem
            } else {
                0x57 + rem
            };
            proof {
                let w = be_value(cur@);
                let m = (31 - k) as nat;
                vstd::arithmetic::div_mod::lemma_fundamental_div_mod_converse(
                    w as int,
                    36,
                    be_value(q@) as int,
                    rem as int,
                );
                assert(be_value(q@) == w / 36);
                assert(rem == w % 36);
                assert(d == digit_char((w % 36) as int));
                assert(b36_digits(w, m) == b36_digits(w / 36, (m - 1) as nat).push(d));
                assert(b36_digits(w / 36, (m - 1) as nat).push(d) + ds@ =~= b36_digits(
                    w / 36,
                    (m - 1) as nat,
                ) + ds@.insert(0, d));
            }
            cur = q;
            ds.insert(0, d);
            k = k + 1;
        }
        proof {
            assert(b36_digits(be_value(cur@), 0) + ds@ =~= ds@);
            lemma_b36_digits_shape(v0, 31);
        }
        // insert the hyphens: groups of 6, 6, 6, 6, 7
        let mut out: Vec<u8> = Vec::new();
        let g1 = crate::textops::sub_bytes(&ds, 0, 6);
        let g2 = crate::textops::sub_bytes(&ds, 6, 12);
        let g3 = crate::textops::sub_bytes(&ds, 12, 18);
        let g4 = crate::textops::sub_bytes(&ds, 18, 24);
        let g5 = crate::textops::sub_bytes(&ds, 24, 31);
        crate::textops::push_all(&mut out, &g1);
        out.push(0x2d);
        crate::textops::push_all(&mut out, &g2);
        out.push(0x2d);
        crate::textops::push_all(&mut out, &g3);
        out.push(0x2d);
        crate::textops::push_all(&mut out, &g4);
        out.push(0x2d);
        crate::textops::push_all(&mut out, &g5);
        proof {
            assert(out@ =~= grouped(ds@));
        }
        out
    }

    /// Value decomposition at the most significant byte.
    pub proof fn lemma_be_value_head(s: Seq<u8>)
        requires
            s.len() > 0,
        ensures
            be_value(s) == s[0] * pow(256, (s.len() - 1) as nat) + be_value(
                s.subrange(1, s.len() as int),
            ),
        decreases s.len(),
    {
        reveal(pow);
        if s.len() == 1 {
            assert(s.subrange(0, 0) =~= Seq::<u8>::empty());
            assert(s.subrange(1, 1) =~= Seq::<u8>::empty());
        } else {
            let pre = s.subrange(0, s.len() - 1);
            Self::lemma_be_value_head(pre);
            let tail = s.subrange(1, s.len() as int);
            assert(tail.subrange(0, tail.len() - 1) =~= pre.subrange(1, pre.len() as int));
            assert(tail[tail.len() - 1] == s[s.len() - 1]);
            let h = s[0] as int;
            let p = pow(256, (s.len() - 2) as nat);
            let vm = be_value(pre.subrange(1, pre.len() as int)) as int;
            assert((h * p + vm) * 256 + s[s.len() - 1] == h * (256 * p) + (vm * 256 + s[s.len()
                - 1])) by (nonlinear_arith);
        }
    }

    /// `format_text` as a `String` (the rendering is ASCII).
    pub fn to_base36_string(&self) -> (r: String)
        requires
            self.wf(),
        ensures
            r@.len() == format_spec(self@).len(),
            forall|i: int| 0 <= i < r@.len() ==> r@[i] == format_spec(self@)[i] as char,
    {
        let t = self.format_text();
        proof {
            lemma_b36_digits_shape(be_value(self@), 31);
            let d = b36_digits(be_value(self@), 31);
            assert(forall|i: int| 0 <= i < t@.len() ==> t@[i] < 0x80) by {
                assert(t@ == grouped(d));
            }
        }
        crate::textops::ascii_to_string(&t)
    }
}

// ---------------------------------------------------------------------------
// Parsing
// ---------------------------------------------------------------------------
/// The byte pattern `asset-` etc.; built at runtime, pinned by the spec.
fn pattern6(a: u8, b: u8, c: u8, d: u8, e: u8, f: u8) -> (r: Vec<u8>)
    ensures
        r@ == seq![a, b, c, d, e, f],
{
    let mut v: Vec<u8> = Vec::new();
    v.push(a);
    v.push(b);
    v.push(c);
    v.push(d);
    v.push(e);
    v.push(f);
    proof {
        assert(v@ =~= seq![a, b, c, d, e, f]);
    }
    v
}

/// What parsing actually reads: the input trimmed, with any leading
/// `asset-`, `asset/`, `image-`, `image/` repetitions removed, and all
/// hyphens dropped.
pub open spec fn clean_of(input: Seq<u8>) -> Seq<u8> {
    let t1 = crate::textops::trim_ws_spec(input);
    let t2 = crate::textops::trim_left_pat(t1, seq![0x61u8, 0x73u8, 0x73u8, 0x65u8, 0x74u8, 0x2du8]);
    let t3 = crate::textops::trim_left_pat(t2, seq![0x61u8, 0x73u8, 0x73u8, 0x65u8, 0x74u8, 0x2fu8]);
    let t4 = crate::textops::trim_ws_spec(t3);
    let t5 = crate::textops::trim_left_pat(t4, seq![0x69u8, 0x6du8, 0x61u8, 0x67u8, 0x65u8, 0x2du8]);
    let t6 = crate::textops::trim_left_pat(t5, seq![0x69u8, 0x6du8, 0x61u8, 0x67u8, 0x65u8, 0x2fu8]);
    crate::textops::drop_byte_spec(t6, 0x2d)
}

/// Multiply the 20-byte accumulator by 36 and add a digit, reporting whether
/// the true value left 160 bits.
fn mul36_add(acc: &mut Vec<u8>, d: u8) -> (overflow: bool)
    requires
        old(acc)@.len() == id_len(),
        d < 36,
    ensures
        final(acc)@.len() == id_len(),
        !overflow ==> be_value(final(acc)@) == be_value(old(acc)@) * 36 + d,
        overflow ==> be_value(old(acc)@) * 36 + d >= pow(256, 20),
{
    let ghost orig = old(acc)@;
    let mut c: u32 = d as u32;
    let mut i: usize = 20;
    proof {
        reveal(pow);
        assert(orig.subrange(20, 20) =~= Seq::<u8>::empty());
        assert(acc@.subrange(20, 20) =~= Seq::<u8>::empty());
    }
    while i > 0
        invariant
            i <= 20,
            orig.len() == 20,
            acc@.len() == 20,
            c < 36,
            forall|k: int| 0 <= k < i ==> acc@[k] == orig[k],
            be_value(orig.subrange(i as int, 20)) * 36 + d == c * pow(256, (20 - i) as nat)
                + be_value(acc@.subrange(i as int, 20)),
        decreases i,
    {
        let idx = i - 1;
        let t: u32 = (acc[idx] as u32) * 36 + c;
        let nb: u8 = (t % 256) as u8;
        let nc: u32 = t / 256;
        proof {
            reveal(pow);
            lemma_fundamental_div_mod(t as int, 256);
            assert(t < 9216);
            assert(nc < 36) by (nonlinear_arith)
                requires
                    t < 9216,
                    nc == t / 256,
            ;
            let oldsuf = orig.subrange(i as int, 20);
            let newsuf = acc@.subrange(i as int, 20);
            let b = orig[idx as int] as int;
            let p = pow(256, (20 - i) as nat);
            // head decompositions of both extended suffixes
            let oldsuf1 = orig.subrange(idx as int, 20);
            AssetId::lemma_be_value_head(oldsuf1);
            assert(oldsuf1.subrange(1, oldsuf1.len() as int) =~= oldsuf);
            assert(oldsuf1[0] == orig[idx as int]);
            let up = acc@.update(idx as int, nb);
            let newsuf1 = up.subrange(idx as int, 20);
            AssetId::lemma_be_value_head(newsuf1);
            assert(newsuf1.subrange(1, newsuf1.len() as int) =~= newsuf);
            assert(newsuf1[0] == nb);
            let vo = be_value(oldsuf) as int;
            let vn = be_value(newsuf) as int;
            vstd::arithmetic::power::lemma_pow_positive(256, (20 - i) as nat);
            assert((b * p + vo) * 36 + d == nc * (256 * p) + (nb * p + vn)) by (nonlinear_arith)
                requires
                    vo * 36 + d == c * p + vn,
                    t == b * 36 + c,
                    t == 256 * nc + nb,
                    p >= 0,
            ;
            assert(pow(256, (20 - idx) as nat) == 256 * p);
        }
        acc[idx] = nb;
        c = nc;
        i = idx;
    }
    proof {
        assert(orig.subrange(0, 20) =~= orig);
        assert(acc@.subrange(0, 20) =~= acc@);
    }
    if c == 0 {
        false
    } else {
        proof {
            vstd::arithmetic::power::lemma_pow_positive(256, 20);
            assert(c * pow(256, 20) >= pow(256, 20)) by (nonlinear_arith)
                requires
                    c >= 1,
                    pow(256, 20) > 0,
            ;
        }
        true
    }
}

impl AssetId {
    /// Parse the textual form.  Tolerates surrounding whitespace, a leading
    /// `asset-`/`asset/`/`image-`/`image/` tag and missing or extra hyphens;
    /// digits may be upper or lower case.  Exactly the cleaned digit string
    /// decides the outcome: empty or non-digit input is `InvalidBase36`, a
    /// value of 2^160 or more is `AssertIdOverflow`.
    pub fn parse_text(s: &[u8]) -> (r: Result<AssetId, AssetIdError>)
        ensures
            match r {
                Ok(id) => id.wf() && clean_of(s@).len() > 0 && all_b36(clean_of(s@)) && b36_value(
                    clean_of(s@),
                ) < pow(256, 20) && be_value(id@) == b36_value(clean_of(s@)),
                Err(e) => {
                    &&& (e == AssetIdError::InvalidBase36 <==> (clean_of(s@).len() == 0
                        || !all_b36(clean_of(s@))))
                    &&& (e == AssetIdError::AssertIdOverflow <==> (clean_of(s@).len() > 0
                        && all_b36(clean_of(s@)) && b36_value(clean_of(s@)) >= pow(256, 20)))
                },
            },
    {
        let mut input: Vec<u8> = Vec::new();
        let mut i: usize = 0;
        while i < s.len()
            invariant
                i <= s@.len(),
                input@ == s@.subrange(0, i as int),
            decreases s@.len() - i,
        {
            input.push(s[i]);
            proof {
                assert(input@ =~= s@.subrange(0, i + 1));
            }
            i = i + 1;
        }
        proof {
            assert(s@.subrange(0, s@.len() as int) =~= s@);
        }
        let t1 = crate::textops::trim_ascii_ws(&input);
        let t2 = crate::textops::strip_prefix_repeat(&t1, &pattern6(0x61, 0x73, 0x73, 0x65, 0x74, 0x2d));
        let t3 = crate::textops::strip_prefix_repeat(&t2, &pattern6(0x61, 0x73, 0x73, 0x65, 0x74, 0x2f));
        let t4 = crate::textops::trim_ascii_ws(&t3);
        let t5 = crate::textops::strip_prefix_repeat(&t4, &pattern6(0x69, 0x6d, 0x61, 0x67, 0x65, 0x2d));
        let t6 = crate::textops::strip_prefix_repeat(&t5, &pattern6(0x69, 0x6d, 0x61, 0x67, 0x65, 0x2f));
        let clean = crate::textops::drop_byte(&t6, 0x2d);
        proof {
            assert(clean@ == clean_of(s@));
        }
        proof {
            vstd::arithmetic::power::lemma_pow_positive(256, 20);
        }
        if clean.len() == 0 {
            return Err(AssetIdError::InvalidBase36);
        }
        // validate the digits first: a malformed string wins over overflow
        let mut j: usize = 0;
        while j < clean.len()
            invariant
                j <= clean@.len(),
                clean@ == clean_of(s@),
                clean@.len() > 0,
                pow(256, 20) > 0,
                forall|k: int| 0 <= k < j ==> digit_val(clean@[k]) >= 0,
            decreases clean@.len() - j,
        {
            let b = clean[j];
            let ok = (0x30 <= b && b <= 0x39) || (0x61 <= b && b <= 0x7a) || (0x41 <= b && b
                <= 0x5a);
            if !ok {
                proof {
                    assert(digit_val(clean@[j as int]) < 0);
                    assert(!all_b36(clean@));
                }
                return Err(AssetIdError::InvalidBase36);
            }
            j = j + 1;
        }
        // accumulate, most significant digit first
        let mut acc: Vec<u8> = Vec::new();
        let mut z: usize = 0;
        while z < 20
            invariant
                acc@.len() == z <= 20,
                forall|k: int| 0 <= k < z ==> acc@[k] == 0,
            decreases 20 - z,
        {
            acc.push(0);
            z = z + 1;
        }
        proof {
            lemma_be_value_zero(acc@);
            assert(clean@.subrange(0, 0) =~= Seq::<u8>::empty());
        }
        let mut j: usize = 0;
        while j < clean.len()
            invariant
                j <= clean@.len(),
                clean@ == clean_of(s@),
                all_b36(clean@),
                acc@.len() == id_len(),
                be_value(acc@) == b36_value(clean@.subrange(0, j as int)),
                be_value(acc@) < pow(256, 20),
            decreases clean@.len() - j,
    {
            let b = clean[j];
            let d: u8 = if 0x30 <= b && b <= 0x39 {
                b - 0x30
            } else if 0x61 <= b && b <= 0x7a {
                b - 0x57
            } else {
                b - 0x37
            };
            proof {
                assert(digit_val(b) >= 0);
                assert(d == digit_val(b));
            }
            let ghost pre = clean@.subrange(0, j as int);
            let overflow = mul36_add(&mut acc, d);
            proof {
                let nxt = clean@.subrange(0, j + 1);
                assert(nxt.subrange(0, nxt.len() - 1) =~= pre);
                assert(nxt[nxt.len() - 1] == b);
                assert(b36_value(nxt) == b36_value(pre) * 36 + digit_val(b));
            }
            if overflow {
                proof {
                    let nxt = clean@.subrange(0, j + 1);
                    assert(b36_value(nxt) >= pow(256, 20));
                    assert(all_b36(nxt)) by {
                        assert(forall|k: int| 0 <= k < nxt.len() ==> nxt[k] == clean@[k]);
                    }
                    lemma_b36_value_split(clean@, j + 1);
                    assert(clean@.subrange(0, j + 1) == nxt);
                    let rest = (clean@.len() - (j + 1)) as nat;
                    vstd::arithmetic::power::lemma_pow_positive(36, rest);
                    assert(b36_value(nxt) * pow(36, rest) >= b36_value(nxt)) by (nonlinear_arith)
                        requires
                            pow(36, rest) >= 1,
                            b36_value(nxt) >= 0,
                    ;
                }
                return Err(AssetIdError::AssertIdOverflow);
            }
            proof {
                lemma_be_value_bound(acc@);
            }
            j = j + 1;
        }
        proof {
            assert(clean@.subrange(0, clean@.len() as int) =~= clean@);
        }
        Ok(AssetId { bytes: acc })
    }
}

proof fn lemma_be_value_zero(s: Seq<u8>)
    requires
        forall|i: int| 0 <= i < s.len() ==> s[i] == 0,
    ensures
        be_value(s) == 0,
    decreases s.len(),
{
    if s.len() > 0 {
        lemma_be_value_zero(s.subrange(0, s.len() - 1));
    }
}

// ---------------------------------------------------------------------------
// The round trip
// ---------------------------------------------------------------------------
/// Cleaning the canonical rendering of an identifier gives back exactly its
/// 31 digits, whose value is the identifier's value, which fits in 160 bits.
pub proof fn lemma_clean_of_format(id: Seq<u8>)
    requires
        id.len() == id_len(),
    ensures
        clean_of(format_spec(id)) == b36_digits(be_value(id), 31),
        all_b36(clean_of(format_spec(id))),
        clean_of(format_spec(id)).len() == digit_count(),
        b36_value(clean_of(format_spec(id))) == be_value(id),
        be_value(id) < pow(256, 20),
{
    let v = be_value(id);
    let d = b36_digits(v, 31);
    let t = format_spec(id);
    lemma_b36_digits_shape(v, 31);
    assert(t == grouped(d));
    // every byte of the rendering is a digit or a hyphen; digits are never
    // whitespace, '-', '/' and never make the stripped tags match
    assert(t.len() == 35);
    assert(t[5] == d[5]);
    assert(t[0] == d[0]);
    assert(t[34] == d[30]);
    let ws = |b: u8| crate::textops::is_ws(b);
    // whitespace trim leaves it alone
    assert(crate::textops::trim_left_if(t, ws) == t) by {
        assert(!ws(t[0]));
    }
    assert(crate::textops::trim_right_if(t, ws) == t) by {
        assert(!ws(t[t.len() - 1]));
    }
    assert(crate::textops::trim_ws_spec(t) == t);
    // the four tag patterns all differ from the rendering at index 5,
    // where the rendering holds a digit and the tag a '-' or '/'
    let pa1 = seq![0x61u8, 0x73u8, 0x73u8, 0x65u8, 0x74u8, 0x2du8];
    let pa2 = seq![0x61u8, 0x73u8, 0x73u8, 0x65u8, 0x74u8, 0x2fu8];
    let pi1 = seq![0x69u8, 0x6du8, 0x61u8, 0x67u8, 0x65u8, 0x2du8];
    let pi2 = seq![0x69u8, 0x6du8, 0x61u8, 0x67u8, 0x65u8, 0x2fu8];
    assert(crate::textops::trim_left_pat(t, pa1) == t) by {
        if t.subrange(0, 6) == pa1 {
            assert(t.subrange(0, 6)[5] == t[5]);
        }
    }
    assert(crate::textops::trim_left_pat(t, pa2) == t) by {
        if t.subrange(0, 6) == pa2 {
            assert(t.subrange(0, 6)[5] == t[5]);
        }
    }
    assert(crate::textops::trim_left_pat(t, pi1) == t) by {
        if t.subrange(0, 6) == pi1 {
            assert(t.subrange(0, 6)[5] == t[5]);
        }
    }
    assert(crate::textops::trim_left_pat(t, pi2) == t) by {
        if t.subrange(0, 6) == pi2 {
            assert(t.subrange(0, 6)[5] == t[5]);
        }
    }
    // dropping hyphens recovers the digit string
    let hy = seq![0x2du8];
    let g1 = d.subrange(0, 6);
    let g2 = d.subrange(6, 12);
    let g3 = d.subrange(12, 18);
    let g4 = d.subrange(18, 24);
    let g5 = d.subrange(24, 31);
    crate::textops::lemma_drop_byte_concat(
        g1 + hy + g2 + hy + g3 + hy + g4 + hy,
        g5,
        0x2d,
    );
    crate::textops::lemma_drop_byte_concat(g1 + hy + g2 + hy + g3 + hy + g4, hy, 0x2d);
    crate::textops::lemma_drop_byte_concat(g1 + hy + g2 + hy + g3 + hy, g4, 0x2d);
    crate::textops::lemma_drop_byte_concat(g1 + hy + g2 + hy + g3, hy, 0x2d);
    crate::textops::lemma_drop_byte_concat(g1 + hy + g2 + hy, g3, 0x2d);
    crate::textops::lemma_drop_byte_concat(g1 + hy + g2, hy, 0x2d);
    crate::textops::lemma_drop_byte_concat(g1 + hy, g2, 0x2d);
    crate::textops::lemma_drop_byte_concat(g1, hy, 0x2d);
    crate::textops::lemma_drop_byte_absent(g1, 0x2d);
    crate::textops::lemma_drop_byte_absent(g2, 0x2d);
    crate::textops::lemma_drop_byte_absent(g3, 0x2d);
    crate::textops::lemma_drop_byte_absent(g4, 0x2d);
    crate::textops::lemma_drop_byte_absent(g5, 0x2d);
    assert(crate::textops::drop_byte_spec(hy, 0x2d) =~= Seq::<u8>::empty()) by {
        assert(hy.subrange(0, 0) =~= Seq::<u8>::empty());
        assert(crate::textops::drop_byte_spec(Seq::<u8>::empty(), 0x2d) =~= Seq::<u8>::empty());
        assert(hy[0] == 0x2d);
    }
    assert(crate::textops::drop_byte_spec(t, 0x2d) =~= d) by {
        assert(t == g1 + hy + g2 + hy + g3 + hy + g4 + hy + g5);
        assert(g1 + g2 + g3 + g4 + g5 =~= d);
    }
    assert(clean_of(t) == d);
    // the value round-trips because it fits under 36^31
    lemma_be_value_bound(id);
    lemma_pow_256_20_lt_pow_36_31();
    lemma_b36_digits_value(v, 31);
}

/// 2^160 < 36^31, so 31 Base36 digits carry any 160-bit value.
proof fn lemma_pow_256_20_lt_pow_36_31()
    ensures
        pow(256, 20) < pow(36, 31),
{
    reveal_with_fuel(pow, 33);
    assert(pow(256, 20) == 0x10000000000000000000000000000000000000000);
    assert(pow(36, 31) == 1759452407304813269615619081855885739163790606336);
}

/// The identifier's text form parses back to the identifier: any 20 bytes
/// whose value equals the cleaned rendering's value are the original bytes.
/// Together with the contracts of `format_text` and `parse_text` this is the
/// textual round trip.
pub proof fn lemma_asset_id_round_trip(id: Seq<u8>, out: Seq<u8>)
    requires
        id.len() == id_len(),
        out.len() == id_len(),
        be_value(out) == b36_value(clean_of(format_spec(id))),
    ensures
        out == id,
{
    lemma_clean_of_format(id);
    lemma_be_value_inj(out, id);
}

} // verus!
