//! The scripting tool's pure parts: classifying the schema argument,
//! stripping markdown fences from submitted code, the argument fallback
//! through JSON and YAML, hex previews, and the sandbox's catalogue and
//! bootstrap scripts.
use vstd::prelude::*;
use vstd::string::StringExecFns;
use crate::textops::{
    trim_ws_spec, trim_left_if, trim_right_if, lower_spec, find_first, rfind_last, match_at,
    hex_byte, join_spec,
};

verus! {

/// Faults of the scripting tool's argument handling.
#[derive(Clone, Copy, PartialEq, Eq, Structural, Debug)]
pub enum InterpError {
    /// The schema word is neither an asset nor an image selector.
    InvalidSchema,
    /// The arguments parse neither as JSON nor as YAML.
    InvalidArgs,
}

/// Which blob store a sandbox operation addresses.
#[derive(Clone, Copy, PartialEq, Eq, Structural, Debug)]
pub enum Schema {
    Asset,
    Image,
}

/// The schema words, lower-cased: `asset`, `binary`, `bin` select the
/// asset store; `image`, `img`, `svg`, `png`, `jpeg` the image store.
pub open spec fn schema_of(low: Seq<u8>) -> Option<Schema> {
    if low == seq![0x61u8, 0x73u8, 0x73u8, 0x65u8, 0x74u8] || low == seq![
        0x62u8, 0x69u8, 0x6eu8, 0x61u8, 0x72u8, 0x79u8,
    ] || low == seq![0x62u8, 0x69u8, 0x6eu8] {
        Some(Schema::Asset)
    } else if low == seq![0x69u8, 0x6du8, 0x61u8, 0x67u8, 0x65u8] || low == seq![
        0x69u8, 0x6du8, 0x67u8,
    ] || low == seq![0x73u8, 0x76u8, 0x67u8] || low == seq![0x70u8, 0x6eu8, 0x67u8] || low
        == seq![0x6au8, 0x70u8, 0x65u8, 0x67u8] {
        Some(Schema::Image)
    } else {
        None
    }
}

fn kw(which: usize) -> (r: Vec<u8>)
    requires
        which < 8,
    ensures
        which == 0 ==> r@ == seq![0x61u8, 0x73u8, 0x73u8, 0x65u8, 0x74u8],
        which == 1 ==> r@ == seq![0x62u8, 0x69u8, 0x6eu8, 0x61u8, 0x72u8, 0x79u8],
        which == 2 ==> r@ == seq![0x62u8, 0x69u8, 0x6eu8],
        which == 3 ==> r@ == seq![0x69u8, 0x6du8, 0x61u8, 0x67u8, 0x65u8],
        which == 4 ==> r@ == seq![0x69u8, 0x6du8, 0x67u8],
        which == 5 ==> r@ == seq![0x73u8, 0x76u8, 0x67u8],
        which == 6 ==> r@ == seq![0x70u8, 0x6eu8, 0x67u8],
        which == 7 ==> r@ == seq![0x6au8, 0x70u8, 0x65u8, 0x67u8],
{
    let mut v: Vec<u8> = Vec::new();
    if which == 0 {
        v.push(0x61);
        v.push(0x73);
        v.push(0x73);
        v.push(0x65);
        v.push(0x74);
        proof {
            assert(v@ =~= seq![0x61u8, 0x73u8, 0x73u8, 0x65u8, 0x74u8]);
        }
    } else if which == 1 {
        v.push(0x62);
        v.push(0x69);
        v.push(0x6e);
        v.push(0x61);
        v.push(0x72);
        v.push(0x79);
        proof {
            assert(v@ =~= seq![0x62u8, 0x69u8, 0x6eu8, 0x61u8, 0x72u8, 0x79u8]);
        }
    } else if which == 2 {
        v.push(0x62);
        v.push(0x69);
        v.push(0x6e);
        proof {
            assert(v@ =~= seq![0x62u8, 0x69u8, 0x6eu8]);
        }
    } else if which == 3 {
        v.push(0x69);
        v.push(0x6d);
        v.push(0x61);
        v.push(0x67);
        v.push(0x65);
        proof {
            assert(v@ =~= seq![0x69u8, 0x6du8, 0x61u8, 0x67u8, 0x65u8]);
        }
    } else if which == 4 {
        v.push(0x69);
        v.push(0x6d);
        v.push(0x67);
        proof {
            assert(v@ =~= seq![0x69u8, 0x6du8, 0x67u8]);
        }
    } else if which == 5 {
        v.push(0x73);
        v.push(0x76);
        v.push(0x67);
        proof {
            assert(v@ =~= seq![0x73u8, 0x76u8, 0x67u8]);
        }
    } else if which == 6 {
        v.push(0x70);
        v.push(0x6e);
        v.push(0x67);
        proof {
            assert(v@ =~= seq![0x70u8, 0x6eu8, 0x67u8]);
        }
    } else {
        v.push(0x6a);
        v.push(0x70);
        v.push(0x65);
        v.push(0x67);
        proof {
            assert(v@ =~= seq![0x6au8, 0x70u8, 0x65u8, 0x67u8]);
        }
    }
    v
}

impl Schema {
    /// Classify a schema word: trimmed, lower-cased, then matched against
    /// the selector lists.
    pub fn parse(input: &[u8]) -> (r: Result<Schema, InterpError>)
        ensures
            ({
                let low = lower_spec(trim_ws_spec(input@));
                match r {
                    Ok(s) => schema_of(low) == Some(s),
                    Err(_) => schema_of(low) is None,
                }
            }),
    {
        let v = crate::textops::slice_to_vec(input);
        let t = crate::textops::trim_ascii_ws(&v);
        let low = crate::textops::to_ascii_lower(&t);
        if crate::textops::eq_bytes(&low, &kw(0)) || crate::textops::eq_bytes(&low, &kw(1))
            || crate::textops::eq_bytes(&low, &kw(2)) {
            Ok(Schema::Asset)
        } else if crate::textops::eq_bytes(&low, &kw(3)) || crate::textops::eq_bytes(
            &low,
            &kw(4),
        ) || crate::textops::eq_bytes(&low, &kw(5)) || crate::textops::eq_bytes(&low, &kw(6))
            || crate::textops::eq_bytes(&low, &kw(7)) {
            Ok(Schema::Image)
        } else {
            Err(InterpError::InvalidSchema)
        }
    }
}

// ---------------------------------------------------------------------------
// Markdown fences
// ---------------------------------------------------------------------------
/// A byte is ASCII alphanumeric; bytes of multi-byte scalars count as
/// word-like, so a non-ASCII language tag is still taken as a tag.
pub open spec fn tag_byte(b: u8) -> bool {
    (0x30 <= b && b <= 0x39) || (0x41 <= b && b <= 0x5a) || (0x61 <= b && b <= 0x7a) || b >= 0x80
}

/// What stripping markdown fences yields: whether a ``` block was found,
/// and the code inside it.  A fenced block loses its first line when that
/// line is a bare language tag; a single-backtick span loses the backticks.
pub open spec fn fence_spec(input: Seq<u8>) -> (bool, Seq<u8>) {
    let t = trim_ws_spec(input);
    let bt3 = seq![0x60u8, 0x60u8, 0x60u8];
    if t.len() >= 3 && t.subrange(0, 3) == bt3 {
        match rfind_last(t, bt3) {
            Some(e) => if e > 3 {
                let inner = t.subrange(3, e);
                match find_first(inner, seq![0x0au8]) {
                    Some(nl) => {
                        let first = trim_ws_spec(inner.subrange(0, nl));
                        if forall|k: int| 0 <= k < first.len() ==> tag_byte(#[trigger] first[k]) {
                            (true, trim_ws_spec(inner.subrange(nl + 1, inner.len() as int)))
                        } else {
                            (true, trim_ws_spec(inner))
                        }
                    },
                    None => (true, trim_ws_spec(inner)),
                }
            } else {
                fence_spec_tick(t)
            },
            None => fence_spec_tick(t),
        }
    } else {
        fence_spec_tick(t)
    }
}

/// The single-backtick case: `` `code` `` loses its backticks; anything
/// else passes through.
pub open spec fn fence_spec_tick(t: Seq<u8>) -> (bool, Seq<u8>) {
    if t.len() > 1 && t[0] == 0x60 && t[t.len() - 1] == 0x60 {
        (
            false,
            trim_ws_spec(
                trim_right_if(trim_left_if(t, |x: u8| x == 0x60u8), |x: u8| x == 0x60u8),
            ),
        )
    } else {
        (false, t)
    }
}

/// Strip markdown fences from submitted code.
pub fn strip_markdown_fences(input: &Vec<u8>) -> (r: (bool, Vec<u8>))
    ensures
        r.0 == fence_spec(input@).0,
        r.1@ == fence_spec(input@).1,
{
    let t = crate::textops::trim_ascii_ws(input);
    let mut bt3: Vec<u8> = Vec::new();
    bt3.push(0x60);
    bt3.push(0x60);
    bt3.push(0x60);
    proof {
        assert(bt3@ =~= seq![0x60u8, 0x60u8, 0x60u8]);
    }
    if t.len() >= 3 && t[0] == 0x60 && t[1] == 0x60 && t[2] == 0x60 {
        proof {
            assert(t@.subrange(0, 3) =~= seq![0x60u8, 0x60u8, 0x60u8]);
        }
        match crate::textops::rfind_sub(&t, &bt3) {
            Some(e) => {
                if e > 3 {
                    proof {
                        crate::textops::lemma_rfind_from_props(t@, bt3@, t@.len() - 3);
                    }
                    let inner = crate::textops::sub_bytes(&t, 3, e);
                    let mut nlv: Vec<u8> = Vec::new();
                    nlv.push(0x0a);
                    proof {
                        assert(nlv@ =~= seq![0x0au8]);
                    }
                    match crate::textops::find_sub(&inner, &nlv) {
                        Some(nl) => {
                            proof {
                                crate::textops::lemma_find_from_props(inner@, nlv@, 0);
                            }
                            let firstraw = crate::textops::sub_bytes(&inner, 0, nl);
                            let first = crate::textops::trim_ascii_ws(&firstraw);
                            let mut k: usize = 0;
                            let mut all_tag: bool = true;
                            while k < first.len()
                                invariant
                                    k <= first@.len(),
                                    all_tag ==> forall|m: int|
                                        0 <= m < k ==> tag_byte(#[trigger] first@[m]),
                                    !all_tag ==> exists|m: int|
                                        0 <= m < first@.len() && !tag_byte(#[trigger] first@[m]),
                                decreases first@.len() - k,
                            {
                                let b = first[k];
                                let is_tag = (0x30 <= b && b <= 0x39) || (0x41 <= b && b <= 0x5a)
                                    || (0x61 <= b && b <= 0x7a) || b >= 0x80;
                                if !is_tag {
                                    all_tag = false;
                                    k = first.len();
                                } else {
                                    k = k + 1;
                                }
                            }
                            if all_tag {
                                let tail = crate::textops::sub_bytes(
                                    &inner,
                                    nl + 1,
                                    inner.len(),
                                );
                                return (true, crate::textops::trim_ascii_ws(&tail));
                            }
                            return (true, crate::textops::trim_ascii_ws(&inner));
                        },
                        None => {
                            return (true, crate::textops::trim_ascii_ws(&inner));
                        },
                    }
                }
                tick_case(&t)
            },
            None => tick_case(&t),
        }
    } else {
        proof {
            if t@.len() >= 3 && t@.subrange(0, 3) == seq![0x60u8, 0x60u8, 0x60u8] {
                assert(t@[0] == 0x60 && t@[1] == 0x60 && t@[2] == 0x60);
            }
        }
        tick_case(&t)
    }
}

/// The single-backtick fallback on already-trimmed input.
fn tick_case(t: &Vec<u8>) -> (r: (bool, Vec<u8>))
    ensures
        r.0 == fence_spec_tick(t@).0,
        r.1@ == fence_spec_tick(t@).1,
{
    if t.len() > 1 && t[0] == 0x60 && t[t.len() - 1] == 0x60 {
        let stripped = crate::textops::trim_byte(t, 0x60);
        (false, crate::textops::trim_ascii_ws(&stripped))
    } else {
        let c = crate::textops::sub_bytes(t, 0, t.len());
        proof {
            assert(c@ =~= t@);
        }
        (false, c)
    }
}

// ---------------------------------------------------------------------------
// Argument parsing fallback
// ---------------------------------------------------------------------------
/// The scripting tool's argument: the source code to run.
pub struct JsInterpreterArgs(pub Vec<u8>);

/// Named result of JSON string parsing; a function of the bytes alone.
pub uninterp spec fn json_string_of(s: Seq<u8>) -> Option<Seq<u8>>;

/// Relies on `serde_json::from_slice::<String>`: parses a JSON string
/// literal; the result depends on the input bytes alone.
#[verifier::external_body]
fn parse_json_string(v: &Vec<u8>) -> (r: Option<Vec<u8>>)
    ensures
        match r {
            Some(t) => json_string_of(v@) == Some(t@),
            None => json_string_of(v@) is None,
        },
{
    serde_json::from_slice::<String>(v).ok().map(|s| s.into_bytes())
}

/// Named result of YAML string parsing; a function of the bytes alone.
pub uninterp spec fn yaml_string_of(s: Seq<u8>) -> Option<Seq<u8>>;

/// Relies on `serde_yaml::from_slice::<String>`: parses a YAML scalar
/// string; the result depends on the input bytes alone.
#[verifier::external_body]
fn parse_yaml_string(v: &Vec<u8>) -> (r: Option<Vec<u8>>)
    ensures
        match r {
            Some(t) => yaml_string_of(v@) == Some(t@),
            None => yaml_string_of(v@) is None,
        },
{
    serde_yaml::from_slice::<String>(v).ok().map(|s| s.into_bytes())
}

/// Interpret a scripting-tool argument: a fenced block is taken verbatim
/// as code; otherwise the text must parse as a JSON or, failing that, a
/// YAML string holding the code.
pub fn parse_sourcecode_args(input: &Vec<u8>) -> (r: Result<JsInterpreterArgs, InterpError>)
    ensures
        ({
            let (fenced, clean) = fence_spec(input@);
            if fenced {
                r matches Ok(a) && a.0@ == clean
            } else {
                match json_string_of(clean) {
                    Some(code) => r matches Ok(a) && a.0@ == code,
                    None => match yaml_string_of(clean) {
                        Some(code) => r matches Ok(a) && a.0@ == code,
                        None => r == Err::<JsInterpreterArgs, InterpError>(
                            InterpError::InvalidArgs,
                        ),
                    },
                }
            }
        }),
{
    let (fenced, clean) = strip_markdown_fences(input);
    if fenced {
        return Ok(JsInterpreterArgs(clean));
    }
    match parse_json_string(&clean) {
        Some(code) => Ok(JsInterpreterArgs(code)),
        None => match parse_yaml_string(&clean) {
            Some(code) => Ok(JsInterpreterArgs(code)),
            None => Err(InterpError::InvalidArgs),
        },
    }
}

// ---------------------------------------------------------------------------
// Previews
// ---------------------------------------------------------------------------
/// The hex preview of a byte string: the first 32 bytes, two lower-case
/// digits each, space separated.
pub open spec fn preview_spec(s: Seq<u8>) -> Seq<u8> {
    join_spec(
        (if s.len() <= 32 {
            s
        } else {
            s.subrange(0, 32)
        }).map_values(|b: u8| hex_byte(b, false)),
        seq![0x20u8],
    )
}

/// Hex preview of the first bytes of a payload.
pub fn bytes_preview(b: &[u8]) -> (r: String)
    ensures
        r@.len() == preview_spec(b@).len(),
        forall|i: int| 0 <= i < r@.len() ==> r@[i] == preview_spec(b@)[i] as char,
{
    let v = crate::textops::slice_to_vec(b);
    let cut: usize = if v.len() <= 32 {
        v.len()
    } else {
        32
    };
    let head = crate::textops::sub_bytes(&v, 0, cut);
    proof {
        assert(head@ =~= if b@.len() <= 32 {
            b@
        } else {
            b@.subrange(0, 32)
        });
    }
    let mut items: Vec<Vec<u8>> = Vec::new();
    let mut i: usize = 0;
    while i < head.len()
        invariant
            i <= head@.len(),
            items@.map_values(|v2: Vec<u8>| v2@) =~= head@.subrange(0, i as int).map_values(
                |x: u8| hex_byte(x, false),
            ),
        decreases head@.len() - i,
    {
        let mut h: Vec<u8> = Vec::new();
        crate::textops::push_hex_byte(&mut h, head[i], false);
        let ghost items0 = items@;
        items.push(h);
        proof {
            lemma_interp_map_push(items0, |v2: Vec<u8>| v2@, h);
            assert(head@.subrange(0, i + 1) =~= head@.subrange(0, i as int).push(
                head@[i as int],
            ));
            lemma_interp_map_push(
                head@.subrange(0, i as int),
                |x: u8| hex_byte(x, false),
                head@[i as int],
            );
            assert(h@ =~= Seq::<u8>::empty() + hex_byte(head@[i as int], false));
            assert(items@.map_values(|v2: Vec<u8>| v2@) =~= head@.subrange(0, i + 1).map_values(
                |x: u8| hex_byte(x, false),
            ));
        }
        i = i + 1;
    }
    proof {
        assert(head@.subrange(0, head@.len() as int) =~= head@);
    }
    let mut sep: Vec<u8> = Vec::new();
    sep.push(0x20);
    proof {
        assert(sep@ =~= seq![0x20u8]);
    }
    let joined = crate::textops::join_bytes(&items, &sep);
    proof {
        lemma_preview_ascii(head@.map_values(|x: u8| hex_byte(x, false)));
    }
    crate::textops::ascii_to_string(&joined)
}

proof fn lemma_interp_map_push<A, B>(s: Seq<A>, f: spec_fn(A) -> B, x: A)
    ensures
        s.push(x).map_values(f) =~= s.map_values(f).push(f(x)),
{
}

/// Every byte of a joined hex preview is ASCII.
proof fn lemma_preview_ascii(items: Seq<Seq<u8>>)
    requires
        forall|i: int|
            0 <= i < items.len() ==> forall|k: int|
                0 <= k < (#[trigger] items[i]).len() ==> items[i][k] < 0x80,
    ensures
        forall|k: int|
            0 <= k < join_spec(items, seq![0x20u8]).len() ==> #[trigger] join_spec(
                items,
                seq![0x20u8],
            )[k] < 0x80,
    decreases items.len(),
{
    let sep = seq![0x20u8];
    if items.len() == 0 {
    } else if items.len() == 1 {
        assert(join_spec(items, sep) == items[0]);
    } else {
        let rest = items.subrange(1, items.len() as int);
        assert forall|i: int|
            0 <= i < rest.len() implies forall|k: int|
            0 <= k < (#[trigger] rest[i]).len() ==> rest[i][k] < 0x80 by {
            assert(rest[i] == items[i + 1]);
        }
        lemma_preview_ascii(rest);
        let j = join_spec(items, sep);
        assert(j == items[0] + sep + join_spec(rest, sep));
        assert forall|k: int| 0 <= k < j.len() implies #[trigger] j[k] < 0x80 by {
            if k < items[0].len() {
                assert(j[k] == items[0][k]);
            } else if k == items[0].len() {
                assert(j[k] == 0x20);
            } else {
                assert(j[k] == join_spec(rest, sep)[k - items[0].len() - 1]);
            }
        }
    }
}

/// Whether an omitted grid flag defaults to drawing the grid.
pub fn default_true() -> (r: bool)
    ensures
        r,
{
    true
}


// ---------------------------------------------------------------------------
// Text wrapped into an SVG panel
// ---------------------------------------------------------------------------
/// Decimal digits of a number, most significant first.
pub open spec fn dec_spec(n: nat) -> Seq<u8>
    decreases n,
{
    if n < 10 {
        seq![(0x30 + n) as u8]
    } else {
        dec_spec(n / 10).push((0x30 + n % 10) as u8)
    }
}

/// Render a number in decimal.
pub fn u64_to_dec(n: u64) -> (r: Vec<u8>)
    ensures
        r@ == dec_spec(n as nat),
    decreases n,
{
    if n < 10 {
        let mut v: Vec<u8> = Vec::new();
        v.push(0x30 + (n as u8));
        proof {
            assert(v@ =~= dec_spec(n as nat));
        }
        v
    } else {
        let mut v = u64_to_dec(n / 10);
        v.push(0x30 + ((n % 10) as u8));
        v
    }
}

/// XML escaping of text content: `&`, then `<`, then `>`.
pub open spec fn escape_xml_spec(s: Seq<u8>) -> Seq<u8> {
    let amp = seq![0x26u8];
    let e_amp = seq![0x26u8, 0x61u8, 0x6du8, 0x70u8, 0x3bu8];
    let lt = seq![0x3cu8];
    let e_lt = seq![0x26u8, 0x6cu8, 0x74u8, 0x3bu8];
    let gt = seq![0x3eu8];
    let e_gt = seq![0x26u8, 0x67u8, 0x74u8, 0x3bu8];
    crate::textops::replace_spec(
        crate::textops::replace_spec(crate::textops::replace_spec(s, amp, e_amp), lt, e_lt),
        gt,
        e_gt,
    )
}

fn escape_xml(v: &Vec<u8>) -> (r: Vec<u8>)
    ensures
        r@ == escape_xml_spec(v@),
{
    let mut amp: Vec<u8> = Vec::new();
    amp.push(0x26);
    let mut e_amp: Vec<u8> = Vec::new();
    e_amp.push(0x26);
    e_amp.push(0x61);
    e_amp.push(0x6d);
    e_amp.push(0x70);
    e_amp.push(0x3b);
    let mut lt: Vec<u8> = Vec::new();
    lt.push(0x3c);
    let mut e_lt: Vec<u8> = Vec::new();
    e_lt.push(0x26);
    e_lt.push(0x6c);
    e_lt.push(0x74);
    e_lt.push(0x3b);
    let mut gt: Vec<u8> = Vec::new();
    gt.push(0x3e);
    let mut e_gt: Vec<u8> = Vec::new();
    e_gt.push(0x26);
    e_gt.push(0x67);
    e_gt.push(0x74);
    e_gt.push(0x3b);
    proof {
        assert(amp@ =~= seq![0x26u8]);
        assert(e_amp@ =~= seq![0x26u8, 0x61u8, 0x6du8, 0x70u8, 0x3bu8]);
        assert(lt@ =~= seq![0x3cu8]);
        assert(e_lt@ =~= seq![0x26u8, 0x6cu8, 0x74u8, 0x3bu8]);
        assert(gt@ =~= seq![0x3eu8]);
        assert(e_gt@ =~= seq![0x26u8, 0x67u8, 0x74u8, 0x3bu8]);
    }
    let s1 = crate::textops::replace_all(v, &amp, &e_amp);
    let s2 = crate::textops::replace_all(&s1, &lt, &e_lt);
    crate::textops::replace_all(&s2, &gt, &e_gt)
}

/// Display width of the scalar starting at byte `b`: ASCII one column,
/// anything wider two.
pub open spec fn col_width(b: u8) -> int {
    if b < 0x80 {
        1
    } else {
        2
    }
}

/// Greedy wrapping of one paragraph: a character that would overflow the
/// column budget closes the current line and opens the next.
pub open spec fn wrap_para_acc(s: Seq<u8>, maxc: int, cur: Seq<u8>, w: int) -> Seq<Seq<u8>>
    decreases s.len(),
{
    if s.len() == 0 {
        if cur.len() > 0 {
            seq![cur]
        } else {
            Seq::empty()
        }
    } else {
        let step = if crate::textops::scalar_width(s[0]) <= s.len() {
            crate::textops::scalar_width(s[0])
        } else {
            s.len() as int
        };
        let ch = s.subrange(0, step);
        let rest = s.subrange(step, s.len() as int);
        let cw = col_width(s[0]);
        if w + cw > maxc {
            seq![cur] + wrap_para_acc(rest, maxc, ch, cw)
        } else {
            wrap_para_acc(rest, maxc, cur + ch, w + cw)
        }
    }
}

/// The paragraphs of a text: split at newlines, no trailing empty piece.
pub open spec fn lines_of(s: Seq<u8>) -> Seq<Seq<u8>>
    decreases s.len(),
    when true
    via lines_of_dec
{
    if s.len() == 0 {
        Seq::empty()
    } else {
        match find_first(s, seq![0x0au8]) {
            None => seq![s],
            Some(i) => seq![s.subrange(0, i)] + lines_of(s.subrange(i + 1, s.len() as int)),
        }
    }
}

#[via_fn]
proof fn lines_of_dec(s: Seq<u8>) {
    crate::textops::lemma_find_from_props(s, seq![0x0au8], 0);
}

/// All wrapped lines of a text.
pub open spec fn wrapped_lines(paras: Seq<Seq<u8>>, maxc: int) -> Seq<Seq<u8>>
    decreases paras.len(),
{
    if paras.len() == 0 {
        Seq::empty()
    } else {
        wrap_para_acc(paras[0], maxc, Seq::empty(), 0) + wrapped_lines(
            paras.subrange(1, paras.len() as int),
            maxc,
        )
    }
}

/// Wrap one paragraph to the column budget.
fn wrap_para(s: &Vec<u8>, maxc: u64) -> (r: Vec<Vec<u8>>)
    requires
        maxc <= u64::MAX - 2,
    ensures
        r@.map_values(|v: Vec<u8>| v@) == wrap_para_acc(s@, maxc as int, Seq::empty(), 0),
{
    let mut out: Vec<Vec<u8>> = Vec::new();
    let mut cur: Vec<u8> = Vec::new();
    let mut w: u64 = 0;
    let mut i: usize = 0;
    proof {
        assert(s@.subrange(0, s@.len() as int) =~= s@);
        assert(cur@ =~= Seq::<u8>::empty());
        assert(out@.map_values(|v: Vec<u8>| v@) =~= Seq::<Seq<u8>>::empty());
        assert(Seq::<Seq<u8>>::empty() + wrap_para_acc(s@, maxc as int, cur@, 0) =~=
            wrap_para_acc(s@, maxc as int, cur@, 0));
    }
    while i < s.len()
        invariant
            i <= s@.len(),
            w <= maxc || cur@.len() > 0,
            w <= u64::MAX - 2,
            maxc <= u64::MAX - 2,
            wrap_para_acc(s@, maxc as int, Seq::empty(), 0) == out@.map_values(
                |v: Vec<u8>| v@,
            ) + wrap_para_acc(
                s@.subrange(i as int, s@.len() as int),
                maxc as int,
                cur@,
                w as int,
            ),
        decreases s@.len() - i,
    {
        let b = s[i];
        let sw: usize = if b < 0xc0 {
            1
        } else if b < 0xe0 {
            2
        } else if b < 0xf0 {
            3
        } else {
            4
        };
        let stop: usize = if sw <= s.len() - i {
            i + sw
        } else {
            s.len()
        };
        let ch = crate::textops::sub_bytes(s, i, stop);
        let cw: u64 = if b < 0x80 {
            1
        } else {
            2
        };
        let ghost rem = s@.subrange(i as int, s@.len() as int);
        proof {
            assert(rem[0] == s@[i as int]);
            assert(rem.subrange(0, stop - i) =~= s@.subrange(i as int, stop as int));
            assert(rem.subrange(stop - i, rem.len() as int) =~= s@.subrange(
                stop as int,
                s@.len() as int,
            ));
        }
        if w + cw > maxc {
            let ghost outs0 = out@.map_values(|v: Vec<u8>| v@);
            let ghost done = out@;
            out.push(cur);
            cur = ch;
            w = cw;
            proof {
                lemma_interp_map_push(done, |v: Vec<u8>| v@, out@[out@.len() - 1]);
                assert(out@ =~= done.push(out@[out@.len() - 1]));
                assert((outs0 + seq![out@[out@.len() - 1]@]) + wrap_para_acc(
                    s@.subrange(stop as int, s@.len() as int),
                    maxc as int,
                    cur@,
                    w as int,
                ) =~= outs0 + (seq![out@[out@.len() - 1]@] + wrap_para_acc(
                    s@.subrange(stop as int, s@.len() as int),
                    maxc as int,
                    cur@,
                    w as int,
                )));
            }
        } else {
            crate::textops::push_all(&mut cur, &ch);
            w = w + cw;
        }
        i = stop;
    }
    proof {
        let rem = s@.subrange(i as int, s@.len() as int);
        assert(rem =~= Seq::<u8>::empty());
    }
    if cur.len() > 0 {
        let ghost outs0 = out@.map_values(|v: Vec<u8>| v@);
        let ghost done = out@;
        out.push(cur);
        proof {
            lemma_interp_map_push(done, |v: Vec<u8>| v@, out@[out@.len() - 1]);
            assert(out@.map_values(|v: Vec<u8>| v@) =~= outs0 + seq![out@[out@.len() - 1]@]);
        }
    } else {
        proof {
            assert(out@.map_values(|v: Vec<u8>| v@) + Seq::<Seq<u8>>::empty() =~=
                out@.map_values(|v: Vec<u8>| v@));
        }
    }
    out
}

/// Split a text into paragraphs at newlines.
fn split_lines(s: &Vec<u8>) -> (r: Vec<Vec<u8>>)
    ensures
        r@.map_values(|v: Vec<u8>| v@) == lines_of(s@),
{
    let mut out: Vec<Vec<u8>> = Vec::new();
    let mut rem = crate::textops::sub_bytes(s, 0, s.len());
    proof {
        assert(rem@ =~= s@);
        assert(out@.map_values(|v: Vec<u8>| v@) =~= Seq::<Seq<u8>>::empty());
        assert(Seq::<Seq<u8>>::empty() + lines_of(rem@) =~= lines_of(rem@));
    }
    let mut nl: Vec<u8> = Vec::new();
    nl.push(0x0a);
    proof {
        assert(nl@ =~= seq![0x0au8]);
    }
    loop
        invariant
            nl@ == seq![0x0au8],
            lines_of(s@) == out@.map_values(|v: Vec<u8>| v@) + lines_of(rem@),
        decreases rem@.len(),
    {
        if rem.len() == 0 {
            proof {
                assert(out@.map_values(|v: Vec<u8>| v@) + lines_of(rem@) =~= out@.map_values(
                    |v: Vec<u8>| v@,
                ));
            }
            return out;
        }
        match crate::textops::find_sub(&rem, &nl) {
            None => {
                let ghost done = out@;
                let piece = crate::textops::sub_bytes(&rem, 0, rem.len());
                proof {
                    assert(piece@ =~= rem@);
                }
                out.push(piece);
                proof {
                    lemma_interp_map_push(done, |v: Vec<u8>| v@, out@[out@.len() - 1]);
                    assert(out@.map_values(|v: Vec<u8>| v@) =~= done.map_values(|v: Vec<u8>| v@)
                        + seq![rem@]);
                    assert(lines_of(rem@) =~= seq![rem@]);
                }
                return out;
            },
            Some(idx) => {
                proof {
                    crate::textops::lemma_find_from_props(rem@, nl@, 0);
                }
                let piece = crate::textops::sub_bytes(&rem, 0, idx);
                let next = crate::textops::sub_bytes(&rem, idx + 1, rem.len());
                let ghost done = out@;
                out.push(piece);
                proof {
                    lemma_interp_map_push(done, |v: Vec<u8>| v@, out@[out@.len() - 1]);
                    assert((done.map_values(|v: Vec<u8>| v@) + seq![rem@.subrange(0, idx as int)])
                        + lines_of(next@) =~= done.map_values(|v: Vec<u8>| v@) + (seq![
                        rem@.subrange(0, idx as int),
                    ] + lines_of(next@)));
                }
                rem = next;
            },
        }
    }
}

/// The SVG panel holding wrapped text lines.
pub open spec fn svg_panel_spec(lines: Seq<Seq<u8>>, width: nat, height: nat) -> Seq<u8> {
    svg_header_spec(width, height) + svg_texts_spec(lines, 0) + svg_footer_spec()
}

/// `<svg width="W" height="H" viewBox="0 0 W H" ...><rect .../><g ...>`.
pub open spec fn svg_header_spec(width: nat, height: nat) -> Seq<u8> {
    seq![
        0x3cu8, 0x73u8, 0x76u8, 0x67u8, 0x20u8, 0x77u8, 0x69u8, 0x64u8, 0x74u8, 0x68u8, 0x3du8,
        0x22u8,
    ] + dec_spec(width) + seq![
        0x22u8, 0x20u8, 0x68u8, 0x65u8, 0x69u8, 0x67u8, 0x68u8, 0x74u8, 0x3du8, 0x22u8,
    ] + dec_spec(height) + seq![
        0x22u8, 0x20u8, 0x76u8, 0x69u8, 0x65u8, 0x77u8, 0x42u8, 0x6fu8, 0x78u8, 0x3du8, 0x22u8,
        0x30u8, 0x20u8, 0x30u8, 0x20u8,
    ] + dec_spec(width) + seq![0x20u8] + dec_spec(height) + seq![
        0x22u8, 0x3eu8, 0x3cu8, 0x72u8, 0x65u8, 0x63u8, 0x74u8, 0x2fu8, 0x3eu8, 0x3cu8, 0x67u8,
        0x3eu8,
    ]
}

/// One `<text x="20" y="Y">line</text>` per wrapped line.
pub open spec fn svg_texts_spec(lines: Seq<Seq<u8>>, i: int) -> Seq<u8>
    decreases lines.len() - i,
{
    if i < 0 || i >= lines.len() {
        Seq::empty()
    } else {
        seq![
            0x3cu8, 0x74u8, 0x65u8, 0x78u8, 0x74u8, 0x20u8, 0x78u8, 0x3du8, 0x22u8, 0x32u8,
            0x30u8, 0x22u8, 0x20u8, 0x79u8, 0x3du8, 0x22u8,
        ] + dec_spec((45 + 30 * i) as nat) + seq![0x22u8, 0x3eu8] + escape_xml_spec(lines[i])
            + seq![0x3cu8, 0x2fu8, 0x74u8, 0x65u8, 0x78u8, 0x74u8, 0x3eu8] + svg_texts_spec(
            lines,
            i + 1,
        )
    }
}

/// `</g></svg>`.
pub open spec fn svg_footer_spec() -> Seq<u8> {
    seq![
        0x3cu8, 0x2fu8, 0x67u8, 0x3eu8, 0x3cu8, 0x2fu8, 0x73u8, 0x76u8, 0x67u8, 0x3eu8,
    ]
}

/// Wrap text into an SVG panel of the given width: characters are laid out
/// greedily, one column for ASCII and two otherwise, into lines of height
/// thirty with a forty-unit margin.  `None` when the panel would not fit
/// the coordinate space.
#[verifier::rlimit(100)]
pub fn wrap_text_to_svg(text: &Vec<u8>, width: u32) -> (r: Option<(Vec<u8>, u32)>)
    ensures
        ({
            let maxc = (if width as int >= 40 {
                (width - 40) as int
            } else {
                0int
            }) / 12;
            let lines = wrapped_lines(lines_of(text@), maxc);
            match r {
                Some(p) => p.1 == lines.len() * 30 + 40 && p.0@ == svg_panel_spec(
                    lines,
                    width as nat,
                    p.1 as nat,
                ),
                None => lines.len() * 30 + 40 > u32::MAX,
            }
        }),
{
    let budget: u32 = if width >= 40 {
        width - 40
    } else {
        0
    };
    let maxc: u64 = (budget / 12) as u64;
    let paras = split_lines(text);
    let mut lines: Vec<Vec<u8>> = Vec::new();
    let mut i: usize = 0;
    let ghost pview = paras@.map_values(|v: Vec<u8>| v@);
    proof {
        assert(lines@.map_values(|v: Vec<u8>| v@) =~= Seq::<Seq<u8>>::empty());
        assert(pview.subrange(0, pview.len() as int) =~= pview);
        assert(Seq::<Seq<u8>>::empty() + wrapped_lines(pview, maxc as int) =~= wrapped_lines(
            pview,
            maxc as int,
        ));
    }
    while i < paras.len()
        invariant
            i <= paras@.len(),
            pview == paras@.map_values(|v: Vec<u8>| v@),
            maxc <= u64::MAX - 2,
            wrapped_lines(pview, maxc as int) == lines@.map_values(|v: Vec<u8>| v@)
                + wrapped_lines(pview.subrange(i as int, pview.len() as int), maxc as int),
        decreases paras@.len() - i,
    {
        let ghost rem = pview.subrange(i as int, pview.len() as int);
        proof {
            assert(rem[0] == pview[i as int]);
            assert(rem.subrange(1, rem.len() as int) =~= pview.subrange(
                i + 1,
                pview.len() as int,
            ));
        }
        let mut piece = wrap_para(&paras[i], maxc);
        let ghost lines0 = lines@.map_values(|v: Vec<u8>| v@);
        let ghost piecev = piece@.map_values(|v: Vec<u8>| v@);
        let mut k: usize = 0;
        let pn = piece.len();
        while k < pn
            invariant
                k + piece@.len() == pn == piecev.len(),
                forall|m: int| 0 <= m < piece@.len() ==> piece@[m]@ == piecev[k + m],
                lines@.map_values(|v: Vec<u8>| v@) =~= lines0 + piecev.subrange(0, k as int),
            decreases pn - k,
        {
            let ghost done = lines@;
            let one = piece.remove(0);
            lines.push(one);
            proof {
                lemma_interp_map_push(done, |v: Vec<u8>| v@, lines@[lines@.len() - 1]);
                assert(lines@.map_values(|v: Vec<u8>| v@) =~= lines0 + piecev.subrange(
                    0,
                    k + 1,
                ));
            }
            k = k + 1;
        }
        proof {
            assert(piecev.subrange(0, piecev.len() as int) =~= piecev);
            assert((lines0 + piecev) + wrapped_lines(
                pview.subrange(i + 1, pview.len() as int),
                maxc as int,
            ) =~= lines0 + (piecev + wrapped_lines(
                pview.subrange(i + 1, pview.len() as int),
                maxc as int,
            )));
        }
        i = i + 1;
    }
    proof {
        assert(pview.subrange(pview.len() as int, pview.len() as int) =~= Seq::<
            Seq<u8>,
        >::empty());
        assert(lines@.map_values(|v: Vec<u8>| v@) + Seq::<Seq<u8>>::empty() =~= lines@.map_values(
            |v: Vec<u8>| v@,
        ));
    }
    // the panel's height; refuse absurd inputs instead of overflowing
    if lines.len() > ((u32::MAX - 40) / 30) as usize {
        return None;
    }
    let height: u32 = (lines.len() as u32) * 30 + 40;
    // render
    let mut out: Vec<u8> = Vec::new();
    out.push(0x3c);
    out.push(0x73);
    out.push(0x76);
    out.push(0x67);
    out.push(0x20);
    out.push(0x77);
    out.push(0x69);
    out.push(0x64);
    out.push(0x74);
    out.push(0x68);
    out.push(0x3d);
    out.push(0x22);
    let wdec = u64_to_dec(width as u64);
    crate::textops::push_all(&mut out, &wdec);
    out.push(0x22);
    out.push(0x20);
    out.push(0x68);
    out.push(0x65);
    out.push(0x69);
    out.push(0x67);
    out.push(0x68);
    out.push(0x74);
    out.push(0x3d);
    out.push(0x22);
    let hdec = u64_to_dec(height as u64);
    crate::textops::push_all(&mut out, &hdec);
    out.push(0x22);
    out.push(0x20);
    out.push(0x76);
    out.push(0x69);
    out.push(0x65);
    out.push(0x77);
    out.push(0x42);
    out.push(0x6f);
    out.push(0x78);
    out.push(0x3d);
    out.push(0x22);
    out.push(0x30);
    out.push(0x20);
    out.push(0x30);
    out.push(0x20);
    crate::textops::push_all(&mut out, &wdec);
    out.push(0x20);
    crate::textops::push_all(&mut out, &hdec);
    out.push(0x22);
    out.push(0x3e);
    out.push(0x3c);
    out.push(0x72);
    out.push(0x65);
    out.push(0x63);
    out.push(0x74);
    out.push(0x2f);
    out.push(0x3e);
    out.push(0x3c);
    out.push(0x67);
    out.push(0x3e);
    let ghost lview = lines@.map_values(|v: Vec<u8>| v@);
    proof {
        assert(out@ =~= svg_header_spec(width as nat, height as nat));
        assert(out@ =~= svg_header_spec(width as nat, height as nat) + svg_texts_spec(lview, 0)
            .subrange(0, 0));
    }
    let mut j: usize = 0;
    while j < lines.len()
        invariant
            j <= lines@.len(),
            j <= ((u32::MAX - 40) / 30) as usize,
            lines@.len() <= ((u32::MAX - 40) / 30) as usize,
            lview == lines@.map_values(|v: Vec<u8>| v@),
            out@ == svg_header_spec(width as nat, height as nat) + svg_texts_upto(lview, j as int),
        decreases lines@.len() - j,
    {
        out.push(0x3c);
        out.push(0x74);
        out.push(0x65);
        out.push(0x78);
        out.push(0x74);
        out.push(0x20);
        out.push(0x78);
        out.push(0x3d);
        out.push(0x22);
        out.push(0x32);
        out.push(0x30);
        out.push(0x22);
        out.push(0x20);
        out.push(0x79);
        out.push(0x3d);
        out.push(0x22);
        let y: u64 = 45 + 30 * (j as u64);
        let ydec = u64_to_dec(y);
        crate::textops::push_all(&mut out, &ydec);
        out.push(0x22);
        out.push(0x3e);
        let esc = escape_xml(&lines[j]);
        crate::textops::push_all(&mut out, &esc);
        out.push(0x3c);
        out.push(0x2f);
        out.push(0x74);
        out.push(0x65);
        out.push(0x78);
        out.push(0x74);
        out.push(0x3e);
        proof {
            lemma_svg_texts_snoc(lview, j as int);
            assert(out@ =~= svg_header_spec(width as nat, height as nat) + svg_texts_upto(
                lview,
                j + 1,
            ));
        }
        j = j + 1;
    }
    proof {
        lemma_svg_texts_upto_full(lview);
    }
    out.push(0x3c);
    out.push(0x2f);
    out.push(0x67);
    out.push(0x3e);
    out.push(0x3c);
    out.push(0x2f);
    out.push(0x73);
    out.push(0x76);
    out.push(0x67);
    out.push(0x3e);
    proof {
        assert(out@ =~= svg_panel_spec(lview, width as nat, height as nat));
    }
    Some((out, height))
}

/// The text elements of the first `i` lines.
pub open spec fn svg_texts_upto(lines: Seq<Seq<u8>>, i: int) -> Seq<u8>
    decreases i,
{
    if i <= 0 {
        Seq::empty()
    } else {
        svg_texts_upto(lines, i - 1) + seq![
            0x3cu8, 0x74u8, 0x65u8, 0x78u8, 0x74u8, 0x20u8, 0x78u8, 0x3du8, 0x22u8, 0x32u8,
            0x30u8, 0x22u8, 0x20u8, 0x79u8, 0x3du8, 0x22u8,
        ] + dec_spec((45 + 30 * (i - 1)) as nat) + seq![0x22u8, 0x3eu8] + escape_xml_spec(
            lines[i - 1],
        ) + seq![0x3cu8, 0x2fu8, 0x74u8, 0x65u8, 0x78u8, 0x74u8, 0x3eu8]
    }
}

proof fn lemma_svg_texts_snoc(lines: Seq<Seq<u8>>, j: int)
    requires
        0 <= j < lines.len(),
    ensures
        svg_texts_upto(lines, j + 1) == svg_texts_upto(lines, j) + seq![
            0x3cu8, 0x74u8, 0x65u8, 0x78u8, 0x74u8, 0x20u8, 0x78u8, 0x3du8, 0x22u8, 0x32u8,
            0x30u8, 0x22u8, 0x20u8, 0x79u8, 0x3du8, 0x22u8,
        ] + dec_spec((45 + 30 * j) as nat) + seq![0x22u8, 0x3eu8] + escape_xml_spec(lines[j])
            + seq![0x3cu8, 0x2fu8, 0x74u8, 0x65u8, 0x78u8, 0x74u8, 0x3eu8],
{
}

/// Walking forward or peeling from the back agree on the text elements.
proof fn lemma_svg_texts_upto_full(lines: Seq<Seq<u8>>)
    ensures
        forall|i: int|
            0 <= i <= lines.len() ==> #[trigger] svg_texts_upto(lines, i) == svg_texts_spec(
                lines.subrange(0, i),
                0,
            ),
        svg_texts_upto(lines, lines.len() as int) == svg_texts_spec(lines, 0),
{
    assert forall|i: int|
        0 <= i <= lines.len() implies #[trigger] svg_texts_upto(lines, i) == svg_texts_spec(
        lines.subrange(0, i),
        0,
    ) by {
        lemma_svg_upto_eq(lines, i);
    }
    lemma_svg_upto_eq(lines, lines.len() as int);
    assert(lines.subrange(0, lines.len() as int) =~= lines);
}

proof fn lemma_svg_upto_eq(lines: Seq<Seq<u8>>, i: int)
    requires
        0 <= i <= lines.len(),
    ensures
        svg_texts_upto(lines, i) == svg_texts_spec(lines.subrange(0, i), 0),
    decreases i,
{
    if i == 0 {
        assert(svg_texts_spec(lines.subrange(0, 0), 0) =~= Seq::<u8>::empty());
    } else {
        lemma_svg_upto_eq(lines, i - 1);
        lemma_svg_spec_snoc(lines.subrange(0, i - 1), lines[i - 1], 0);
        assert(lines.subrange(0, i) =~= lines.subrange(0, i - 1).push(lines[i - 1]));
    }
}

/// Appending one line appends one text element.
proof fn lemma_svg_spec_snoc(lines: Seq<Seq<u8>>, x: Seq<u8>, i: int)
    requires
        0 <= i <= lines.len(),
    ensures
        svg_texts_spec(lines.push(x), i) == svg_texts_spec(lines, i) + seq![
            0x3cu8, 0x74u8, 0x65u8, 0x78u8, 0x74u8, 0x20u8, 0x78u8, 0x3du8, 0x22u8, 0x32u8,
            0x30u8, 0x22u8, 0x20u8, 0x79u8, 0x3du8, 0x22u8,
        ] + dec_spec((45 + 30 * lines.len()) as nat) + seq![0x22u8, 0x3eu8] + escape_xml_spec(x)
            + seq![0x3cu8, 0x2fu8, 0x74u8, 0x65u8, 0x78u8, 0x74u8, 0x3eu8],
    decreases lines.len() - i,
{
    let p = lines.push(x);
    if i == lines.len() {
        assert(p[i] == x);
        assert(svg_texts_spec(lines, i) =~= Seq::<u8>::empty());
        assert(svg_texts_spec(p, i + 1) =~= Seq::<u8>::empty());
        assert(Seq::<u8>::empty() + seq![
            0x3cu8, 0x74u8, 0x65u8, 0x78u8, 0x74u8, 0x20u8, 0x78u8, 0x3du8, 0x22u8, 0x32u8,
            0x30u8, 0x22u8, 0x20u8, 0x79u8, 0x3du8, 0x22u8,
        ] + dec_spec((45 + 30 * i) as nat) + seq![0x22u8, 0x3eu8] + escape_xml_spec(x) + seq![
            0x3cu8, 0x2fu8, 0x74u8, 0x65u8, 0x78u8, 0x74u8, 0x3eu8,
        ] =~= seq![
            0x3cu8, 0x74u8, 0x65u8, 0x78u8, 0x74u8, 0x20u8, 0x78u8, 0x3du8, 0x22u8, 0x32u8,
            0x30u8, 0x22u8, 0x20u8, 0x79u8, 0x3du8, 0x22u8,
        ] + dec_spec((45 + 30 * i) as nat) + seq![0x22u8, 0x3eu8] + escape_xml_spec(x) + seq![
            0x3cu8, 0x2fu8, 0x74u8, 0x65u8, 0x78u8, 0x74u8, 0x3eu8,
        ]);
    } else {
        lemma_svg_spec_snoc(lines, x, i + 1);
        assert(p[i] == lines[i]);
        let block = seq![
            0x3cu8, 0x74u8, 0x65u8, 0x78u8, 0x74u8, 0x20u8, 0x78u8, 0x3du8, 0x22u8, 0x32u8,
            0x30u8, 0x22u8, 0x20u8, 0x79u8, 0x3du8, 0x22u8,
        ] + dec_spec((45 + 30 * i) as nat) + seq![0x22u8, 0x3eu8] + escape_xml_spec(lines[i])
            + seq![0x3cu8, 0x2fu8, 0x74u8, 0x65u8, 0x78u8, 0x74u8, 0x3eu8];
        assert(block + (svg_texts_spec(lines, i + 1) + seq![
            0x3cu8, 0x74u8, 0x65u8, 0x78u8, 0x74u8, 0x20u8, 0x78u8, 0x3du8, 0x22u8, 0x32u8,
            0x30u8, 0x22u8, 0x20u8, 0x79u8, 0x3du8, 0x22u8,
        ] + dec_spec((45 + 30 * lines.len()) as nat) + seq![0x22u8, 0x3eu8] + escape_xml_spec(x)
            + seq![0x3cu8, 0x2fu8, 0x74u8, 0x65u8, 0x78u8, 0x74u8, 0x3eu8]) =~= (block
            + svg_texts_spec(lines, i + 1)) + seq![
            0x3cu8, 0x74u8, 0x65u8, 0x78u8, 0x74u8, 0x20u8, 0x78u8, 0x3du8, 0x22u8, 0x32u8,
            0x30u8, 0x22u8, 0x20u8, 0x79u8, 0x3du8, 0x22u8,
        ] + dec_spec((45 + 30 * lines.len()) as nat) + seq![0x22u8, 0x3eu8] + escape_xml_spec(x)
            + seq![0x3cu8, 0x2fu8, 0x74u8, 0x65u8, 0x78u8, 0x74u8, 0x3eu8]);
    }
}

} // verus!
