//! The tool registry: named tool descriptions, registration with
//! last-wins semantics, the rendered catalogue, and the system prompt
//! composed from per-language templates.  Result wrapping for dispatched
//! tools lives here too.
use vstd::prelude::*;
use crate::schema::{Message, MessageContent, Role, ToolUse};
use crate::textops::{replace_spec, join_spec, trim_ws_spec, replace_all, join_bytes};

verus! {

/// Bytes of the `### ` heading of a catalogue entry.
pub open spec fn s_head() -> Seq<u8> {
    seq![0x23u8, 0x23u8, 0x23u8, 0x20u8]
}

fn k_head() -> (r: Vec<u8>)
    ensures
        r@ == s_head(),
{
    let mut v: Vec<u8> = Vec::new();
    v.push(0x23);
    v.push(0x23);
    v.push(0x23);
    v.push(0x20);
    proof {
        assert(v@ =~= s_head());
    }
    v
}

/// Bytes of the `: ` separator.
pub open spec fn s_colon_space() -> Seq<u8> {
    seq![0x3au8, 0x20u8]
}

fn k_colon_space() -> (r: Vec<u8>)
    ensures
        r@ == s_colon_space(),
{
    let mut v: Vec<u8> = Vec::new();
    v.push(0x3a);
    v.push(0x20);
    proof {
        assert(v@ =~= s_colon_space());
    }
    v
}

/// Bytes of a blank line.
pub open spec fn s_nl2() -> Seq<u8> {
    seq![0x0au8, 0x0au8]
}

fn k_nl2() -> (r: Vec<u8>)
    ensures
        r@ == s_nl2(),
{
    let mut v: Vec<u8> = Vec::new();
    v.push(0x0a);
    v.push(0x0a);
    proof {
        assert(v@ =~= s_nl2());
    }
    v
}

/// Bytes of the parameters label of a catalogue entry.
pub open spec fn s_sep_params() -> Seq<u8> {
    seq![0x20u8, 0xe8u8, 0xbeu8, 0x93u8, 0xe5u8, 0x85u8, 0xa5u8, 0xe5u8, 0x8fu8, 0x82u8, 0xe6u8, 0x95u8, 0xb0u8, 0xefu8, 0xbcu8, 0x9au8]
}

fn k_sep_params() -> (r: Vec<u8>)
    ensures
        r@ == s_sep_params(),
{
    let mut v: Vec<u8> = Vec::new();
    v.push(0x20);
    v.push(0xe8);
    v.push(0xbe);
    v.push(0x93);
    v.push(0xe5);
    v.push(0x85);
    v.push(0xa5);
    v.push(0xe5);
    v.push(0x8f);
    v.push(0x82);
    v.push(0xe6);
    v.push(0x95);
    v.push(0xb0);
    v.push(0xef);
    v.push(0xbc);
    v.push(0x9a);
    proof {
        assert(v@ =~= s_sep_params());
    }
    v
}

/// Bytes of the format-notes label of a catalogue entry.
pub open spec fn s_sep_notes() -> Seq<u8> {
    seq![0x20u8, 0xe5u8, 0x85u8, 0xb6u8, 0xe4u8, 0xbbu8, 0x96u8, 0xe8u8, 0xafu8, 0xb4u8, 0xe6u8, 0x98u8, 0x8eu8, 0xefu8, 0xbcu8, 0x9au8]
}

fn k_sep_notes() -> (r: Vec<u8>)
    ensures
        r@ == s_sep_notes(),
{
    let mut v: Vec<u8> = Vec::new();
    v.push(0x20);
    v.push(0xe5);
    v.push(0x85);
    v.push(0xb6);
    v.push(0xe4);
    v.push(0xbb);
    v.push(0x96);
    v.push(0xe8);
    v.push(0xaf);
    v.push(0xb4);
    v.push(0xe6);
    v.push(0x98);
    v.push(0x8e);
    v.push(0xef);
    v.push(0xbc);
    v.push(0x9a);
    proof {
        assert(v@ =~= s_sep_notes());
    }
    v
}

/// Bytes of the head of a tool-failure text.
pub open spec fn s_fail_head() -> Seq<u8> {
    seq![0xe5u8, 0xb7u8, 0xa5u8, 0xe5u8, 0x85u8, 0xb7u8, 0x20u8, 0x27u8]
}

fn k_fail_head() -> (r: Vec<u8>)
    ensures
        r@ == s_fail_head(),
{
    let mut v: Vec<u8> = Vec::new();
    v.push(0xe5);
    v.push(0xb7);
    v.push(0xa5);
    v.push(0xe5);
    v.push(0x85);
    v.push(0xb7);
    v.push(0x20);
    v.push(0x27);
    proof {
        assert(v@ =~= s_fail_head());
    }
    v
}

/// Bytes of the tail of a tool-failure text, before the error.
pub open spec fn s_fail_tail() -> Seq<u8> {
    seq![0x27u8, 0x20u8, 0xe6u8, 0x89u8, 0xa7u8, 0xe8u8, 0xa1u8, 0x8cu8, 0xe5u8, 0xa4u8, 0xb1u8, 0xe8u8, 0xb4u8, 0xa5u8, 0xefu8, 0xbcu8, 0x9au8]
}

fn k_fail_tail() -> (r: Vec<u8>)
    ensures
        r@ == s_fail_tail(),
{
    let mut v: Vec<u8> = Vec::new();
    v.push(0x27);
    v.push(0x20);
    v.push(0xe6);
    v.push(0x89);
    v.push(0xa7);
    v.push(0xe8);
    v.push(0xa1);
    v.push(0x8c);
    v.push(0xe5);
    v.push(0xa4);
    v.push(0xb1);
    v.push(0xe8);
    v.push(0xb4);
    v.push(0xa5);
    v.push(0xef);
    v.push(0xbc);
    v.push(0x9a);
    proof {
        assert(v@ =~= s_fail_tail());
    }
    v
}

/// Bytes of the head of an unknown-tool text.
pub open spec fn s_unknown_head() -> Seq<u8> {
    seq![0xe9u8, 0x94u8, 0x99u8, 0xe8u8, 0xafu8, 0xafu8, 0xefu8, 0xbcu8, 0x9au8, 0xe6u8, 0x9cu8, 0xaau8, 0xe6u8, 0x89u8, 0xbeu8, 0xe5u8, 0x88u8, 0xb0u8, 0xe5u8, 0x90u8, 0x8du8, 0xe4u8, 0xb8u8, 0xbau8, 0x20u8, 0x27u8]
}

fn k_unknown_head() -> (r: Vec<u8>)
    ensures
        r@ == s_unknown_head(),
{
    let mut v: Vec<u8> = Vec::new();
    v.push(0xe9);
    v.push(0x94);
    v.push(0x99);
    v.push(0xe8);
    v.push(0xaf);
    v.push(0xaf);
    v.push(0xef);
    v.push(0xbc);
    v.push(0x9a);
    v.push(0xe6);
    v.push(0x9c);
    v.push(0xaa);
    v.push(0xe6);
    v.push(0x89);
    v.push(0xbe);
    v.push(0xe5);
    v.push(0x88);
    v.push(0xb0);
    v.push(0xe5);
    v.push(0x90);
    v.push(0x8d);
    v.push(0xe4);
    v.push(0xb8);
    v.push(0xba);
    v.push(0x20);
    v.push(0x27);
    proof {
        assert(v@ =~= s_unknown_head());
    }
    v
}

/// Bytes of the tail of an unknown-tool text.
pub open spec fn s_unknown_tail() -> Seq<u8> {
    seq![0x27u8, 0x20u8, 0xe7u8, 0x9au8, 0x84u8, 0xe5u8, 0xb7u8, 0xa5u8, 0xe5u8, 0x85u8, 0xb7u8, 0xe3u8, 0x80u8, 0x82u8]
}

fn k_unknown_tail() -> (r: Vec<u8>)
    ensures
        r@ == s_unknown_tail(),
{
    let mut v: Vec<u8> = Vec::new();
    v.push(0x27);
    v.push(0x20);
    v.push(0xe7);
    v.push(0x9a);
    v.push(0x84);
    v.push(0xe5);
    v.push(0xb7);
    v.push(0xa5);
    v.push(0xe5);
    v.push(0x85);
    v.push(0xb7);
    v.push(0xe3);
    v.push(0x80);
    v.push(0x82);
    proof {
        assert(v@ =~= s_unknown_tail());
    }
    v
}

/// Bytes of the tool-catalogue placeholder.
pub open spec fn s_ph_tool_descs() -> Seq<u8> {
    seq![0x7bu8, 0x74u8, 0x6fu8, 0x6fu8, 0x6cu8, 0x5fu8, 0x64u8, 0x65u8, 0x73u8, 0x63u8, 0x73u8, 0x7du8]
}

fn k_ph_tool_descs() -> (r: Vec<u8>)
    ensures
        r@ == s_ph_tool_descs(),
{
    let mut v: Vec<u8> = Vec::new();
    v.push(0x7b);
    v.push(0x74);
    v.push(0x6f);
    v.push(0x6f);
    v.push(0x6c);
    v.push(0x5f);
    v.push(0x64);
    v.push(0x65);
    v.push(0x73);
    v.push(0x63);
    v.push(0x73);
    v.push(0x7d);
    proof {
        assert(v@ =~= s_ph_tool_descs());
    }
    v
}

/// Bytes of the tool-names placeholder.
pub open spec fn s_ph_tool_names() -> Seq<u8> {
    seq![0x7bu8, 0x74u8, 0x6fu8, 0x6fu8, 0x6cu8, 0x5fu8, 0x6eu8, 0x61u8, 0x6du8, 0x65u8, 0x73u8, 0x7du8]
}

fn k_ph_tool_names() -> (r: Vec<u8>)
    ensures
        r@ == s_ph_tool_names(),
{
    let mut v: Vec<u8> = Vec::new();
    v.push(0x7b);
    v.push(0x74);
    v.push(0x6f);
    v.push(0x6f);
    v.push(0x6c);
    v.push(0x5f);
    v.push(0x6e);
    v.push(0x61);
    v.push(0x6d);
    v.push(0x65);
    v.push(0x73);
    v.push(0x7d);
    proof {
        assert(v@ =~= s_ph_tool_names());
    }
    v
}

/// Bytes of the opening-marker placeholder.
pub open spec fn s_ph_fn_name() -> Seq<u8> {
    seq![0x7bu8, 0x46u8, 0x4eu8, 0x5fu8, 0x4eu8, 0x41u8, 0x4du8, 0x45u8, 0x7du8]
}

fn k_ph_fn_name() -> (r: Vec<u8>)
    ensures
        r@ == s_ph_fn_name(),
{
    let mut v: Vec<u8> = Vec::new();
    v.push(0x7b);
    v.push(0x46);
    v.push(0x4e);
    v.push(0x5f);
    v.push(0x4e);
    v.push(0x41);
    v.push(0x4d);
    v.push(0x45);
    v.push(0x7d);
    proof {
        assert(v@ =~= s_ph_fn_name());
    }
    v
}

/// Bytes of the argument-marker placeholder.
pub open spec fn s_ph_fn_args() -> Seq<u8> {
    seq![0x7bu8, 0x46u8, 0x4eu8, 0x5fu8, 0x41u8, 0x52u8, 0x47u8, 0x53u8, 0x7du8]
}

fn k_ph_fn_args() -> (r: Vec<u8>)
    ensures
        r@ == s_ph_fn_args(),
{
    let mut v: Vec<u8> = Vec::new();
    v.push(0x7b);
    v.push(0x46);
    v.push(0x4e);
    v.push(0x5f);
    v.push(0x41);
    v.push(0x52);
    v.push(0x47);
    v.push(0x53);
    v.push(0x7d);
    proof {
        assert(v@ =~= s_ph_fn_args());
    }
    v
}

/// Bytes of the result-marker placeholder.
pub open spec fn s_ph_fn_result() -> Seq<u8> {
    seq![0x7bu8, 0x46u8, 0x4eu8, 0x5fu8, 0x52u8, 0x45u8, 0x53u8, 0x55u8, 0x4cu8, 0x54u8, 0x7du8]
}

fn k_ph_fn_result() -> (r: Vec<u8>)
    ensures
        r@ == s_ph_fn_result(),
{
    let mut v: Vec<u8> = Vec::new();
    v.push(0x7b);
    v.push(0x46);
    v.push(0x4e);
    v.push(0x5f);
    v.push(0x52);
    v.push(0x45);
    v.push(0x53);
    v.push(0x55);
    v.push(0x4c);
    v.push(0x54);
    v.push(0x7d);
    proof {
        assert(v@ =~= s_ph_fn_result());
    }
    v
}

/// Bytes of the closing-marker placeholder.
pub open spec fn s_ph_fn_exit() -> Seq<u8> {
    seq![0x7bu8, 0x46u8, 0x4eu8, 0x5fu8, 0x45u8, 0x58u8, 0x49u8, 0x54u8, 0x7du8]
}

fn k_ph_fn_exit() -> (r: Vec<u8>)
    ensures
        r@ == s_ph_fn_exit(),
{
    let mut v: Vec<u8> = Vec::new();
    v.push(0x7b);
    v.push(0x46);
    v.push(0x4e);
    v.push(0x5f);
    v.push(0x45);
    v.push(0x58);
    v.push(0x49);
    v.push(0x54);
    v.push(0x7d);
    proof {
        assert(v@ =~= s_ph_fn_exit());
    }
    v
}

/// Bytes of the date placeholder.
pub open spec fn s_ph_date() -> Seq<u8> {
    seq![0x7bu8, 0x43u8, 0x55u8, 0x52u8, 0x52u8, 0x45u8, 0x4eu8, 0x54u8, 0x5fu8, 0x44u8, 0x41u8, 0x54u8, 0x45u8, 0x7du8]
}

fn k_ph_date() -> (r: Vec<u8>)
    ensures
        r@ == s_ph_date(),
{
    let mut v: Vec<u8> = Vec::new();
    v.push(0x7b);
    v.push(0x43);
    v.push(0x55);
    v.push(0x52);
    v.push(0x52);
    v.push(0x45);
    v.push(0x4e);
    v.push(0x54);
    v.push(0x5f);
    v.push(0x44);
    v.push(0x41);
    v.push(0x54);
    v.push(0x45);
    v.push(0x7d);
    proof {
        assert(v@ =~= s_ph_date());
    }
    v
}

/// Bytes of the literal backslash-n joiner the prompt uses.
pub open spec fn s_lit_bsn() -> Seq<u8> {
    seq![0x5cu8, 0x6eu8]
}

fn k_lit_bsn() -> (r: Vec<u8>)
    ensures
        r@ == s_lit_bsn(),
{
    let mut v: Vec<u8> = Vec::new();
    v.push(0x5c);
    v.push(0x6e);
    proof {
        assert(v@ =~= s_lit_bsn());
    }
    v
}

/// Bytes of a comma.
pub open spec fn s_comma() -> Seq<u8> {
    seq![0x2cu8]
}

fn k_comma() -> (r: Vec<u8>)
    ensures
        r@ == s_comma(),
{
    let mut v: Vec<u8> = Vec::new();
    v.push(0x2c);
    proof {
        assert(v@ =~= s_comma());
    }
    v
}

/// Bytes of the joiner between a custom prefix and the core prompt.
pub open spec fn s_custom_joiner() -> Seq<u8> {
    seq![0x0au8, 0x0au8, 0x2du8, 0x2du8, 0x2du8, 0x20u8, 0x53u8, 0x79u8, 0x73u8, 0x74u8, 0x65u8, 0x6du8, 0x20u8, 0x43u8, 0x61u8, 0x70u8, 0x61u8, 0x62u8, 0x69u8, 0x6cu8, 0x69u8, 0x74u8, 0x69u8, 0x65u8, 0x73u8, 0x20u8, 0x2du8, 0x2du8, 0x2du8, 0x0au8]
}

fn k_custom_joiner() -> (r: Vec<u8>)
    ensures
        r@ == s_custom_joiner(),
{
    let mut v: Vec<u8> = Vec::new();
    v.push(0x0a);
    v.push(0x0a);
    v.push(0x2d);
    v.push(0x2d);
    v.push(0x2d);
    v.push(0x20);
    v.push(0x53);
    v.push(0x79);
    v.push(0x73);
    v.push(0x74);
    v.push(0x65);
    v.push(0x6d);
    v.push(0x20);
    v.push(0x43);
    v.push(0x61);
    v.push(0x70);
    v.push(0x61);
    v.push(0x62);
    v.push(0x69);
    v.push(0x6c);
    v.push(0x69);
    v.push(0x74);
    v.push(0x69);
    v.push(0x65);
    v.push(0x73);
    v.push(0x20);
    v.push(0x2d);
    v.push(0x2d);
    v.push(0x2d);
    v.push(0x0a);
    proof {
        assert(v@ =~= s_custom_joiner());
    }
    v
}

/// How a tool presents itself: to the model, to people, and how its
/// arguments are formatted.  The parameter schema travels as JSON text.
pub struct ToolDescription {
    pub name_for_model: Vec<u8>,
    pub name_for_human: Vec<u8>,
    pub description_for_model: Vec<u8>,
    pub parameters: Vec<u8>,
    pub args_format: Vec<u8>,
}

/// The mathematical shape of a description.
pub ghost struct DescView {
    pub name_for_model: Seq<u8>,
    pub name_for_human: Seq<u8>,
    pub description_for_model: Seq<u8>,
    pub parameters: Seq<u8>,
    pub args_format: Seq<u8>,
}

impl View for ToolDescription {
    type V = DescView;

    open spec fn view(&self) -> DescView {
        DescView {
            name_for_model: self.name_for_model@,
            name_for_human: self.name_for_human@,
            description_for_model: self.description_for_model@,
            parameters: self.parameters@,
            args_format: self.args_format@,
        }
    }
}

impl Clone for ToolDescription {
    fn clone(&self) -> (r: Self)
        ensures
            r@ == self@,
    {
        let r = ToolDescription {
            name_for_model: crate::textops::sub_bytes(
                &self.name_for_model,
                0,
                self.name_for_model.len(),
            ),
            name_for_human: crate::textops::sub_bytes(
                &self.name_for_human,
                0,
                self.name_for_human.len(),
            ),
            description_for_model: crate::textops::sub_bytes(
                &self.description_for_model,
                0,
                self.description_for_model.len(),
            ),
            parameters: crate::textops::sub_bytes(&self.parameters, 0, self.parameters.len()),
            args_format: crate::textops::sub_bytes(&self.args_format, 0, self.args_format.len()),
        };
        proof {
            assert(r.name_for_model@ =~= self.name_for_model@);
            assert(r.name_for_human@ =~= self.name_for_human@);
            assert(r.description_for_model@ =~= self.description_for_model@);
            assert(r.parameters@ =~= self.parameters@);
            assert(r.args_format@ =~= self.args_format@);
        }
        r
    }
}

/// The one-entry catalogue text of a description: heading, model name,
/// description, parameter schema and format notes, outer whitespace
/// trimmed.
pub open spec fn desc_render_spec(d: DescView) -> Seq<u8> {
    trim_ws_spec(
        s_head() + d.name_for_human + seq![0x0au8] + d.name_for_model + s_colon_space()
            + d.description_for_model + s_sep_params() + d.parameters + s_sep_notes()
            + d.args_format + s_nl2(),
    )
}

/// Render one catalogue entry.
pub fn render_description(d: &ToolDescription) -> (r: Vec<u8>)
    ensures
        r@ == desc_render_spec(d@),
{
    let mut out = k_head();
    crate::textops::push_all(&mut out, &d.name_for_human);
    out.push(0x0a);
    crate::textops::push_all(&mut out, &d.name_for_model);
    let cs = k_colon_space();
    crate::textops::push_all(&mut out, &cs);
    crate::textops::push_all(&mut out, &d.description_for_model);
    let sp = k_sep_params();
    crate::textops::push_all(&mut out, &sp);
    crate::textops::push_all(&mut out, &d.parameters);
    let sn = k_sep_notes();
    crate::textops::push_all(&mut out, &sn);
    crate::textops::push_all(&mut out, &d.args_format);
    out.push(0x0a);
    out.push(0x0a);
    proof {
        assert(out@ =~= s_head() + d@.name_for_human + seq![0x0au8] + d@.name_for_model
            + s_colon_space() + d@.description_for_model + s_sep_params() + d@.parameters
            + s_sep_notes() + d@.args_format + s_nl2());
    }
    crate::textops::trim_ascii_ws(&out)
}

// ---------------------------------------------------------------------------
// The registry
// ---------------------------------------------------------------------------
/// Index of the tool named `name`, scanning from `i`.
pub open spec fn tidx_from(s: Seq<(Vec<u8>, ToolDescription)>, name: Seq<u8>, i: int) -> Option<
    int,
>
    decreases s.len() - i,
{
    if i < 0 || i >= s.len() {
        None
    } else if s[i].0@ == name {
        Some(i)
    } else {
        tidx_from(s, name, i + 1)
    }
}

pub open spec fn tidx(s: Seq<(Vec<u8>, ToolDescription)>, name: Seq<u8>) -> Option<int> {
    tidx_from(s, name, 0)
}

pub proof fn lemma_tidx_props(s: Seq<(Vec<u8>, ToolDescription)>, name: Seq<u8>, i: int)
    requires
        0 <= i,
    ensures
        match tidx_from(s, name, i) {
            Some(j) => i <= j < s.len() && s[j].0@ == name && forall|k: int|
                i <= k < j ==> s[k].0@ != name,
            None => forall|k: int| i <= k < s.len() ==> s[k].0@ != name,
        },
    decreases s.len() - i,
{
    if 0 <= i < s.len() && s[i].0@ != name {
        lemma_tidx_props(s, name, i + 1);
    }
}

/// The registered tools: name to description, immutable once the process
/// is up.
pub struct ToolSet {
    pub tools: Vec<(Vec<u8>, ToolDescription)>,
}

/// The builder the process assembles its registry with.
pub struct ToolSetBuilder {
    pub tools: Vec<(Vec<u8>, ToolDescription)>,
}

impl ToolSetBuilder {
    /// An empty builder.
    pub fn new() -> (r: ToolSetBuilder)
        ensures
            r.wf(),
            r.tools@.len() == 0,
    {
        ToolSetBuilder { tools: Vec::new() }
    }

    /// Names are unique.
    pub open spec fn wf(&self) -> bool {
        forall|i: int, j: int|
            0 <= i < j < self.tools@.len() ==> self.tools@[i].0@ != self.tools@[j].0@
    }

    /// Register a tool; a repeated name overwrites the earlier entry.
    pub fn add_tool(self, name: Vec<u8>, d: ToolDescription) -> (r: ToolSetBuilder)
        requires
            self.wf(),
        ensures
            r.wf(),
            tidx(r.tools@, name@) matches Some(i) && r.tools@[i].1@ == d@,
            forall|k: Seq<u8>|
                k != name@ ==> (match #[trigger] tidx(r.tools@, k) {
                    None => tidx(self.tools@, k) is None,
                    Some(i) => tidx(self.tools@, k) matches Some(j) && r.tools@[i].1@
                        == self.tools@[j].1@,
                }),
    {
        let mut b = self;
        let ghost olds = b.tools@;
        let n = b.tools.len();
        let mut i: usize = 0;
        while i < n
            invariant
                n == b.tools@.len(),
                b.tools@ == olds,
                olds == self.tools@,
                self.wf(),
                i <= n,
                tidx_from(olds, name@, 0) == tidx_from(olds, name@, i as int),
            decreases n - i,
        {
            if crate::textops::eq_bytes(&b.tools[i].0, &name) {
                proof {
                    lemma_tidx_props(olds, name@, 0);
                }
                b.tools[i] = (name, d);
                proof {
                    lemma_tidx_props(b.tools@, name@, 0);
                    assert forall|k: Seq<u8>|
                        #[trigger] tidx(b.tools@, k) == tidx(olds, k) by {
                        lemma_tidx_same_names(b.tools@, olds, k, 0);
                    }
                    assert forall|k: Seq<u8>|
                        k != name@ implies (match #[trigger] tidx(b.tools@, k) {
                        None => tidx(olds, k) is None,
                        Some(ii) => tidx(olds, k) matches Some(j) && b.tools@[ii].1@
                            == olds[j].1@,
                    }) by {
                        lemma_tidx_props(olds, k, 0);
                        lemma_tidx_props(b.tools@, k, 0);
                    }
                    assert forall|ii: int, j: int|
                        0 <= ii < j < b.tools@.len() implies b.tools@[ii].0@
                        != b.tools@[j].0@ by {
                        assert(olds[ii].0@ == b.tools@[ii].0@);
                        assert(olds[j].0@ == b.tools@[j].0@);
                    }
                }
                return b;
            }
            i = i + 1;
        }
        proof {
            lemma_tidx_props(olds, name@, 0);
        }
        let e = (name, d);
        b.tools.push(e);
        proof {
            lemma_tidx_push(olds, e, e.0@, 0);
            assert(b.tools@[olds.len() as int] == e);
            assert forall|k: Seq<u8>|
                k != e.0@ implies (match #[trigger] tidx(b.tools@, k) {
                None => tidx(olds, k) is None,
                Some(ii) => tidx(olds, k) matches Some(j) && b.tools@[ii].1@ == olds[j].1@,
            }) by {
                lemma_tidx_push(olds, e, k, 0);
                lemma_tidx_props(olds, k, 0);
                lemma_tidx_props(b.tools@, k, 0);
            }
            assert forall|ii: int, j: int|
                0 <= ii < j < b.tools@.len() implies b.tools@[ii].0@ != b.tools@[j].0@ by {
                if j == olds.len() {
                    assert(b.tools@[ii] == olds[ii]);
                }
            }
        }
        b
    }

    /// Seal the registry.
    pub fn build(self) -> (r: ToolSet)
        ensures
            r.tools@ == self.tools@,
    {
        ToolSet { tools: self.tools }
    }
}

proof fn lemma_tidx_same_names(
    s: Seq<(Vec<u8>, ToolDescription)>,
    t: Seq<(Vec<u8>, ToolDescription)>,
    name: Seq<u8>,
    i: int,
)
    requires
        s.len() == t.len(),
        forall|k: int| 0 <= k < s.len() ==> s[k].0@ == t[k].0@,
    ensures
        tidx_from(s, name, i) == tidx_from(t, name, i),
    decreases s.len() - i,
{
    if 0 <= i < s.len() {
        lemma_tidx_same_names(s, t, name, i + 1);
    }
}

proof fn lemma_tidx_push(
    s: Seq<(Vec<u8>, ToolDescription)>,
    e: (Vec<u8>, ToolDescription),
    name: Seq<u8>,
    i: int,
)
    requires
        0 <= i,
    ensures
        tidx_from(s, name, i) matches Some(j) ==> tidx_from(s.push(e), name, i) == Some(j),
        tidx_from(s, name, i) is None && name == e.0@ && i <= s.len() ==> tidx_from(
            s.push(e),
            name,
            i,
        ) == Some(s.len() as int),
        tidx_from(s, name, i) is None && name != e.0@ ==> tidx_from(s.push(e), name, i) is None,
    decreases s.len() - i,
{
    if i < s.len() {
        lemma_tidx_push(s, e, name, i + 1);
    } else {
        assert(s.push(e)[s.len() as int] == e);
        if i == s.len() {
            assert(tidx_from(s.push(e), name, i + 1) is None);
        } else {
            assert(i >= s.push(e).len());
        }
    }
}

proof fn lemma_reg_map_push<A, B>(s: Seq<A>, f: spec_fn(A) -> B, x: A)
    ensures
        s.push(x).map_values(f) =~= s.map_values(f).push(f(x)),
{
}

/// The joined names of the registered tools, in registration order.
pub open spec fn names_joined_spec(s: Seq<(Vec<u8>, ToolDescription)>) -> Seq<u8> {
    join_spec(s.map_values(|t: (Vec<u8>, ToolDescription)| t.0@), s_comma())
}

/// The joined catalogue entries, in registration order.
pub open spec fn descs_joined_spec(s: Seq<(Vec<u8>, ToolDescription)>) -> Seq<u8> {
    join_spec(s.map_values(|t: (Vec<u8>, ToolDescription)| desc_render_spec(t.1@)), s_nl2())
}

impl ToolSet {
    /// Begin building a registry.
    pub fn builder() -> (r: ToolSetBuilder)
        ensures
            r.wf(),
            r.tools@.len() == 0,
    {
        ToolSetBuilder::new()
    }

    /// The registered descriptions, in registration order.
    pub fn list_tools(&self) -> (r: Vec<ToolDescription>)
        ensures
            r@.len() == self.tools@.len(),
            forall|i: int| 0 <= i < r@.len() ==> (#[trigger] r@[i])@ == self.tools@[i].1@,
    {
        let mut r: Vec<ToolDescription> = Vec::new();
        let mut i: usize = 0;
        while i < self.tools.len()
            invariant
                i <= self.tools@.len(),
                r@.len() == i,
                forall|k: int| 0 <= k < i ==> (#[trigger] r@[k])@ == self.tools@[k].1@,
            decreases self.tools@.len() - i,
        {
            r.push(self.tools[i].1.clone());
            i = i + 1;
        }
        r
    }

    /// Look a tool up by name.
    pub fn find_tool(&self, name: &Vec<u8>) -> (r: Option<&ToolDescription>)
        ensures
            match r {
                Some(d) => tidx(self.tools@, name@) matches Some(i) && d@ == self.tools@[i].1@,
                None => tidx(self.tools@, name@) is None,
            },
    {
        let mut i: usize = 0;
        while i < self.tools.len()
            invariant
                i <= self.tools@.len(),
                tidx_from(self.tools@, name@, 0) == tidx_from(self.tools@, name@, i as int),
            decreases self.tools@.len() - i,
        {
            if crate::textops::eq_bytes(&self.tools[i].0, name) {
                proof {
                    lemma_tidx_props(self.tools@, name@, 0);
                }
                return Some(&self.tools[i].1);
            }
            i = i + 1;
        }
        None
    }

    /// The tool names joined with commas, for the prompt templates.
    pub fn names_joined(&self) -> (r: Vec<u8>)
        ensures
            r@ == names_joined_spec(self.tools@),
    {
        let mut items: Vec<Vec<u8>> = Vec::new();
        let mut i: usize = 0;
        while i < self.tools.len()
            invariant
                i <= self.tools@.len(),
                items@.map_values(|v: Vec<u8>| v@) =~= self.tools@.subrange(0, i as int)
                    .map_values(|t: (Vec<u8>, ToolDescription)| t.0@),
            decreases self.tools@.len() - i,
        {
            let nm = crate::textops::sub_bytes(&self.tools[i].0, 0, self.tools[i].0.len());
            proof {
                assert(nm@ =~= self.tools@[i as int].0@);
            }
            let ghost items0 = items@;
            items.push(nm);
            proof {
                lemma_reg_map_push(items0, |v: Vec<u8>| v@, nm);
                assert(self.tools@.subrange(0, i + 1) =~= self.tools@.subrange(0, i as int).push(
                    self.tools@[i as int],
                ));
                lemma_reg_map_push(
                    self.tools@.subrange(0, i as int),
                    |t: (Vec<u8>, ToolDescription)| t.0@,
                    self.tools@[i as int],
                );
                assert(items@.map_values(|v: Vec<u8>| v@) =~= self.tools@.subrange(0, i + 1)
                    .map_values(|t: (Vec<u8>, ToolDescription)| t.0@));
            }
            i = i + 1;
        }
        proof {
            assert(self.tools@.subrange(0, self.tools@.len() as int) =~= self.tools@);
        }
        let sep = k_comma();
        join_bytes(&items, &sep)
    }

    /// The catalogue entries joined with blank lines, for the prompt.
    pub fn descs_joined(&self) -> (r: Vec<u8>)
        ensures
            r@ == descs_joined_spec(self.tools@),
    {
        let mut items: Vec<Vec<u8>> = Vec::new();
        let mut i: usize = 0;
        while i < self.tools.len()
            invariant
                i <= self.tools@.len(),
                items@.map_values(|v: Vec<u8>| v@) =~= self.tools@.subrange(0, i as int)
                    .map_values(|t: (Vec<u8>, ToolDescription)| desc_render_spec(t.1@)),
            decreases self.tools@.len() - i,
        {
            let rd = render_description(&self.tools[i].1);
            let ghost items0 = items@;
            items.push(rd);
            proof {
                lemma_reg_map_push(items0, |v: Vec<u8>| v@, rd);
                assert(self.tools@.subrange(0, i + 1) =~= self.tools@.subrange(0, i as int).push(
                    self.tools@[i as int],
                ));
                lemma_reg_map_push(
                    self.tools@.subrange(0, i as int),
                    |t: (Vec<u8>, ToolDescription)| desc_render_spec(t.1@),
                    self.tools@[i as int],
                );
                assert(items@.map_values(|v: Vec<u8>| v@) =~= self.tools@.subrange(0, i + 1)
                    .map_values(|t: (Vec<u8>, ToolDescription)| desc_render_spec(t.1@)));
            }
            i = i + 1;
        }
        proof {
            assert(self.tools@.subrange(0, self.tools@.len() as int) =~= self.tools@);
        }
        let sep = k_nl2();
        join_bytes(&items, &sep)
    }
}

// ---------------------------------------------------------------------------
// The system prompt
// ---------------------------------------------------------------------------
/// The per-language prompt templates: the assistant persona, the catalogue
/// introduction, and one invocation-instruction block per calling mode.
pub struct SystemPromptTemplates {
    pub assistant_desc_template: Vec<u8>,
    pub tool_info_template: Vec<u8>,
    pub parallel_call_template: Vec<u8>,
    pub single_call_template: Vec<u8>,
}

/// The composed core system prompt: persona with the date filled in, the
/// catalogue introduction with the entries filled in, and the selected
/// calling-mode block with names and markers filled in, joined as the
/// templates expect.
pub open spec fn prompt_spec(
    assistant_t: Seq<u8>,
    tool_info_t: Seq<u8>,
    call_t: Seq<u8>,
    date: Seq<u8>,
    descs: Seq<u8>,
    names: Seq<u8>,
) -> Seq<u8> {
    let assistant = replace_spec(assistant_t, s_ph_date(), date);
    let tool_info = replace_spec(tool_info_t, s_ph_tool_descs(), descs);
    let fmt = replace_spec(
        replace_spec(
            replace_spec(
                replace_spec(
                    replace_spec(call_t, s_ph_tool_names(), names),
                    s_ph_fn_name(),
                    crate::parser::w_name(),
                ),
                s_ph_fn_args(),
                crate::parser::w_args(),
            ),
            s_ph_fn_result(),
            crate::parser::w_result(),
        ),
        s_ph_fn_exit(),
        crate::parser::w_exit(),
    );
    assistant + s_lit_bsn() + tool_info + s_lit_bsn() + s_lit_bsn() + fmt
}

impl ToolSet {
    /// Compose the core system prompt from the templates, today's date and
    /// the registered tools.  `parallel` selects the invocation block.
    pub fn system_prompt(
        &self,
        templates: &SystemPromptTemplates,
        date: &Vec<u8>,
        parallel: bool,
    ) -> (r: Vec<u8>)
        ensures
            r@ == prompt_spec(
                templates.assistant_desc_template@,
                templates.tool_info_template@,
                if parallel {
                    templates.parallel_call_template@
                } else {
                    templates.single_call_template@
                },
                date@,
                descs_joined_spec(self.tools@),
                names_joined_spec(self.tools@),
            ),
    {
        let descs = self.descs_joined();
        let names = self.names_joined();
        let assistant = replace_all(&templates.assistant_desc_template, &k_ph_date(), date);
        let tool_info = replace_all(&templates.tool_info_template, &k_ph_tool_descs(), &descs);
        let call_t = if parallel {
            &templates.parallel_call_template
        } else {
            &templates.single_call_template
        };
        let f1 = replace_all(call_t, &k_ph_tool_names(), &names);
        let f2 = replace_all(&f1, &k_ph_fn_name(), &crate::parser::marker_bytes(0));
        let f3 = replace_all(&f2, &k_ph_fn_args(), &crate::parser::marker_bytes(1));
        let f4 = replace_all(&f3, &k_ph_fn_result(), &crate::parser::marker_bytes(2));
        let fmt = replace_all(&f4, &k_ph_fn_exit(), &crate::parser::marker_bytes(3));
        let mut out = assistant;
        let bsn = k_lit_bsn();
        crate::textops::push_all(&mut out, &bsn);
        crate::textops::push_all(&mut out, &tool_info);
        crate::textops::push_all(&mut out, &bsn);
        crate::textops::push_all(&mut out, &bsn);
        crate::textops::push_all(&mut out, &fmt);
        out
    }
}

/// The whole prompt: an optional non-blank custom prefix stands before the
/// core, joined by the capabilities divider; otherwise the core alone.
pub fn compose_final_prompt(custom: Option<&Vec<u8>>, core: Vec<u8>) -> (r: Vec<u8>)
    ensures
        match custom {
            Some(c) => if trim_ws_spec(c@).len() > 0 {
                r@ == c@ + s_custom_joiner() + core@
            } else {
                r@ == core@
            },
            None => r@ == core@,
        },
{
    match custom {
        None => core,
        Some(c) => {
            let trimmed = crate::textops::trim_ascii_ws(c);
            if trimmed.len() > 0 {
                let mut out = crate::textops::sub_bytes(c, 0, c.len());
                proof {
                    assert(out@ =~= c@);
                }
                let j = k_custom_joiner();
                crate::textops::push_all(&mut out, &j);
                crate::textops::push_all(&mut out, &core);
                out
            } else {
                core
            }
        },
    }
}

// ---------------------------------------------------------------------------
// Wrapping dispatched results
// ---------------------------------------------------------------------------
/// The failure text shown to the model when a tool's handler errs.
pub open spec fn fail_text_spec(name: Seq<u8>, err: Seq<u8>) -> Seq<u8> {
    s_fail_head() + name + s_fail_tail() + err
}

/// The text shown to the model when no tool has the requested name.
pub open spec fn unknown_text_spec(name: Seq<u8>) -> Seq<u8> {
    s_unknown_head() + name + s_unknown_tail()
}

/// How a dispatched tool call came back.
pub enum ToolOutcome {
    /// The handler returned content.
    Output(Vec<MessageContent>),
    /// The handler failed with an error text.
    Failure(Vec<u8>),
    /// No tool of that name is registered.
    Unknown,
}

/// Wrap a dispatch outcome as the tools message answering `tu`: handler
/// output verbatim, a failure or an unknown tool as a single text part.
/// The batch never aborts on one failure.
pub fn wrap_tool_result(tu: &ToolUse, outcome: ToolOutcome, msg_id: u128) -> (r: Message)
    ensures
        r.id == msg_id,
        r.owner == Role::Tools(tu.use_id),
        r.reasoning@.len() == 0,
        r.tool_use@.len() == 0,
        match outcome {
            ToolOutcome::Output(v) => r.content == v,
            ToolOutcome::Failure(e) => r.content@.len() == 1 && (r.content@[0] matches
                MessageContent::Text(t) && t@ == fail_text_spec(tu@.name, e@)),
            ToolOutcome::Unknown => r.content@.len() == 1 && (r.content@[0] matches
                MessageContent::Text(t) && t@ == unknown_text_spec(tu@.name)),
        },
{
    let content: Vec<MessageContent> = match outcome {
        ToolOutcome::Output(v) => v,
        ToolOutcome::Failure(e) => {
            let mut t = k_fail_head();
            crate::textops::push_all(&mut t, &tu.function_name);
            let ft = k_fail_tail();
            crate::textops::push_all(&mut t, &ft);
            crate::textops::push_all(&mut t, &e);
            let mut c: Vec<MessageContent> = Vec::new();
            c.push(MessageContent::Text(t));
            c
        },
        ToolOutcome::Unknown => {
            let mut t = k_unknown_head();
            crate::textops::push_all(&mut t, &tu.function_name);
            let ut = k_unknown_tail();
            crate::textops::push_all(&mut t, &ut);
            let mut c: Vec<MessageContent> = Vec::new();
            c.push(MessageContent::Text(t));
            c
        },
    };
    Message {
        id: msg_id,
        owner: Role::Tools(tu.use_id),
        content,
        reasoning: Vec::new(),
        tool_use: Vec::new(),
    }
}

// ---------------------------------------------------------------------------
// Tool kinds
// ---------------------------------------------------------------------------
/// The selectable built-in tools.
#[derive(Clone, Copy, PartialEq, Eq, Structural, Debug)]
pub enum ToolKind {
    ZoomIn,
    ImageMemo,
    DrawBbox,
    JsInterpreter,
    Curl,
}

impl ToolKind {
    /// The configuration name of the kind.
    pub fn text(&self) -> (r: &'static str)
        ensures
            *self == ToolKind::ZoomIn ==> r@ == "zoom_in"@,
            *self == ToolKind::ImageMemo ==> r@ == "image_memo"@,
            *self == ToolKind::DrawBbox ==> r@ == "draw_bbox"@,
            *self == ToolKind::JsInterpreter ==> r@ == "js_interpreter"@,
            *self == ToolKind::Curl ==> r@ == "curl"@,
    {
        match self {
            ToolKind::ZoomIn => "zoom_in",
            ToolKind::ImageMemo => "image_memo",
            ToolKind::DrawBbox => "draw_bbox",
            ToolKind::JsInterpreter => "js_interpreter",
            ToolKind::Curl => "curl",
        }
    }

    /// Every kind's configuration name, comma separated, in declaration
    /// order.
    pub fn default_tools_str() -> (r: String)
        ensures
            r@ == "zoom_in,image_memo,draw_bbox,js_interpreter,curl"@,
    {
        String::from_str("zoom_in,image_memo,draw_bbox,js_interpreter,curl")
    }
}

} // verus!
