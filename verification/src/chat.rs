//! The chat loop's decision steps: assembling the assistant turn from the
//! parsed stream, pairing tool results with their calls in call order, and
//! planning truncation with its blob releases.  The surrounding driver,
//! which awaits the model and the tools, performs exactly what these
//! functions decide.
use vstd::prelude::*;
use crate::schema::{
    Message, MessageContent, Role, ToolUse, BlobRef, StoreSel, ChatEntry, refs_of_message,
    collect_refs,
};

verus! {

/// Token counts reported by the upstream stream's final frame.
#[derive(Clone, Copy, PartialEq, Eq, Structural, Debug)]
pub struct UsageCounts {
    pub prompt_tokens: u64,
    pub completion_tokens: u64,
    pub total_tokens: u64,
}

/// What the orchestrator emits to its client while a request runs.
pub enum ChatEvent {
    /// Native or reclassified reasoning text.
    ReasoningDelta(Vec<u8>),
    /// Raw tool-call protocol bytes, for display only.
    ToolDelta(Vec<u8>),
    /// A completed call was parsed out of the stream.
    ToolCall(ToolUse),
    /// A tool finished; its output as a message.
    ToolResult { tool_use: ToolUse, result: Message },
    /// User-facing answer text.
    ContentDelta(Vec<u8>),
    /// The request is complete.
    StreamEnd,
    /// Token usage passthrough.
    Usage(UsageCounts),
    /// The request failed; the loop ends, history keeps what was appended.
    Error(Vec<u8>),
}

/// Relies on `uuid::Uuid::new_v4` / `as_u128`: a random identifier; nothing
/// is promised of the value.
#[verifier::external_body]
pub fn random_id128() -> u128 {
    uuid::Uuid::new_v4().as_u128()
}

/// Relies on `uuid::Uuid::now_v7` / `as_u128`: an identifier whose byte
/// order follows creation time; nothing is promised of the value.
#[verifier::external_body]
pub fn time_ordered_id128() -> u128 {
    uuid::Uuid::now_v7().as_u128()
}

/// Turn the parser's (name, args) pairs into tool uses with fresh ids.
pub fn mint_tool_uses(calls: Vec<(Vec<u8>, Vec<u8>)>) -> (r: Vec<ToolUse>)
    ensures
        r@.len() == calls@.len(),
        forall|i: int|
            0 <= i < r@.len() ==> (#[trigger] r@[i])@.name == calls@[i].0@ && r@[i]@.args
                == calls@[i].1@,
{
    let mut r: Vec<ToolUse> = Vec::new();
    let mut i: usize = 0;
    let n = calls.len();
    let mut rest = calls;
    while i < n
        invariant
            i + rest@.len() == n == calls@.len(),
            r@.len() == i,
            forall|k: int| 0 <= k < rest@.len() ==> rest@[k] == calls@[i + k],
            forall|k: int|
                0 <= k < i ==> (#[trigger] r@[k])@.name == calls@[k].0@ && r@[k]@.args
                    == calls@[k].1@,
        decreases n - i,
    {
        let (name, args) = rest.remove(0);
        r.push(ToolUse { use_id: random_id128(), function_name: name, args });
        i = i + 1;
    }
    r
}

/// Build the assistant message of a finished turn: the accumulated native
/// thinking becomes its reasoning, the accumulated pre-call text its
/// content, and the parsed calls its tool uses.
pub fn build_assistant_message(
    id: u128,
    thinking: Vec<u8>,
    content: Vec<u8>,
    calls: Vec<ToolUse>,
) -> (r: Message)
    ensures
        r.id == id,
        r.owner == Role::Assistant,
        r.tool_use@ == calls@,
        thinking@.len() == 0 ==> r.reasoning@.len() == 0,
        thinking@.len() > 0 ==> r.reasoning@.len() == 1 && (r.reasoning@[0] matches
            MessageContent::Text(t) && t@ == thinking@),
        content@.len() == 0 ==> r.content@.len() == 0,
        content@.len() > 0 ==> r.content@.len() == 1 && (r.content@[0] matches
            MessageContent::Text(t) && t@ == content@),
{
    let mut reasoning: Vec<MessageContent> = Vec::new();
    if thinking.len() > 0 {
        reasoning.push(MessageContent::Text(thinking));
    }
    let mut body: Vec<MessageContent> = Vec::new();
    if content.len() > 0 {
        body.push(MessageContent::Text(content));
    }
    Message { id, owner: Role::Assistant, content: body, reasoning, tool_use: calls }
}

/// Pair each tool result with its call, in the order the assistant emitted
/// the calls — never in completion order.
pub fn pair_tool_results(calls: Vec<ToolUse>, results: Vec<Message>) -> (r: Vec<
    (ToolUse, Message),
>)
    requires
        calls@.len() == results@.len(),
    ensures
        r@.len() == calls@.len(),
        forall|i: int|
            0 <= i < r@.len() ==> (#[trigger] r@[i]).0@ == calls@[i]@ && r@[i].1 == results@[i],
{
    let mut r: Vec<(ToolUse, Message)> = Vec::new();
    let n = calls.len();
    let mut cs = calls;
    let mut ms = results;
    let mut i: usize = 0;
    while i < n
        invariant
            i + cs@.len() == n == calls@.len(),
            i + ms@.len() == n == results@.len(),
            r@.len() == i,
            forall|k: int| 0 <= k < cs@.len() ==> cs@[k] == calls@[i + k],
            forall|k: int| 0 <= k < ms@.len() ==> ms@[k] == results@[i + k],
            forall|k: int|
                0 <= k < i ==> (#[trigger] r@[k]).0@ == calls@[k]@ && r@[k].1 == results@[k],
        decreases n - i,
    {
        let c = cs.remove(0);
        let m = ms.remove(0);
        r.push((c, m));
        i = i + 1;
    }
    r
}

// ---------------------------------------------------------------------------
// Truncation and its releases
// ---------------------------------------------------------------------------
/// First index of the message with the given id.
pub open spec fn midx_from(s: Seq<Message>, id: u128, i: int) -> Option<int>
    decreases s.len() - i,
{
    if i < 0 || i >= s.len() {
        None
    } else if s[i].id == id {
        Some(i)
    } else {
        midx_from(s, id, i + 1)
    }
}

pub open spec fn midx(s: Seq<Message>, id: u128) -> Option<int> {
    midx_from(s, id, 0)
}

/// The blob references of the messages from `from` on, one entry per
/// occurrence, in order.
pub open spec fn refs_of_tail(s: Seq<Message>, from: int) -> Seq<(StoreSel, Seq<u8>)>
    decreases s.len() - from,
{
    if from < 0 || from >= s.len() {
        Seq::empty()
    } else {
        refs_of_message(s[from]) + refs_of_tail(s, from + 1)
    }
}

/// A decided truncation: how much of the log to keep, and exactly which
/// blob references the discarded tail held — each to be released once.
pub struct TruncatePlan {
    pub keep_count: usize,
    pub released: Vec<BlobRef>,
}

fn collect_tail_refs(entry: &ChatEntry, from: usize) -> (r: Vec<BlobRef>)
    requires
        from <= entry.messages@.len(),
    ensures
        r@.map_values(|b: BlobRef| (b.store, b.id@)) == refs_of_tail(
            entry.messages@,
            from as int,
        ),
{
    let mut out: Vec<BlobRef> = Vec::new();
    let mut j: usize = from;
    proof {
        assert(out@.map_values(|b: BlobRef| (b.store, b.id@)) =~= Seq::<
            (StoreSel, Seq<u8>),
        >::empty());
    }
    while j < entry.messages.len()
        invariant
            from <= j <= entry.messages@.len(),
            refs_of_tail(entry.messages@, from as int) == out@.map_values(
                |b: BlobRef| (b.store, b.id@),
            ) + refs_of_tail(entry.messages@, j as int),
        decreases entry.messages@.len() - j,
    {
        let ghost pre = out@.map_values(|b: BlobRef| (b.store, b.id@));
        collect_refs(&entry.messages[j], &mut out);
        proof {
            assert(out@.map_values(|b: BlobRef| (b.store, b.id@)) == pre + refs_of_message(
                entry.messages@[j as int],
            ));
            assert(pre + (refs_of_message(entry.messages@[j as int]) + refs_of_tail(
                entry.messages@,
                j + 1,
            )) =~= (pre + refs_of_message(entry.messages@[j as int])) + refs_of_tail(
                entry.messages@,
                j + 1,
            ));
        }
        j = j + 1;
    }
    proof {
        assert(refs_of_tail(entry.messages@, entry.messages@.len() as int) =~= Seq::<
            (StoreSel, Seq<u8>),
        >::empty());
        assert(out@.map_values(|b: BlobRef| (b.store, b.id@)) + Seq::<
            (StoreSel, Seq<u8>),
        >::empty() =~= out@.map_values(|b: BlobRef| (b.store, b.id@)));
    }
    out
}

/// The release list of a whole-chat deletion: every blob reference of
/// every message, one entry per occurrence, in order.
pub fn plan_delete(entry: &ChatEntry) -> (r: Vec<BlobRef>)
    ensures
        r@.map_values(|b: BlobRef| (b.store, b.id@)) == refs_of_tail(entry.messages@, 0),
{
    collect_tail_refs(entry, 0)
}

/// Decide a regenerate-at-message truncation.  The target is kept exactly
/// when the user wrote it; everything after the kept prefix is discarded
/// and its blob references are listed for release, one entry per
/// occurrence.  `None` when the target is not in the log.
pub fn plan_truncate(entry: &ChatEntry, target_id: u128) -> (r: Option<TruncatePlan>)
    ensures
        match r {
            None => midx(entry.messages@, target_id) is None,
            Some(p) => {
                &&& midx(entry.messages@, target_id) matches Some(i) && p.keep_count as int == (
                if entry.messages@[i].owner == Role::User {
                    i + 1
                } else {
                    i
                })
                &&& p.keep_count <= entry.messages@.len()
                &&& p.released@.map_values(|b: BlobRef| (b.store, b.id@)) == refs_of_tail(
                    entry.messages@,
                    p.keep_count as int,
                )
            },
        },
{
    let n = entry.messages.len();
    let mut i: usize = 0;
    while i < n
        invariant
            n == entry.messages@.len(),
            i <= n,
            midx_from(entry.messages@, target_id, 0) == midx_from(
                entry.messages@,
                target_id,
                i as int,
            ),
        decreases n - i,
    {
        if entry.messages[i].id == target_id {
            let keep: usize = if matches!(entry.messages[i].owner, Role::User) {
                i + 1
            } else {
                i
            };
            let released = collect_tail_refs(entry, keep);
            return Some(TruncatePlan { keep_count: keep, released });
        }
        i = i + 1;
    }
    None
}

/// How an edit request resolves.
pub enum EditDecision {
    /// The target message is not in the log.
    NotFound,
    /// The target is not a user message; the edit is refused.
    NotUser,
    /// Keep the log up to and including the target, release the tail's
    /// references, and replace the target's content.
    Apply(TruncatePlan),
}

/// Decide an edit-and-regenerate: the edited message must be the user's;
/// everything strictly after it is discarded, its blob references listed
/// for release.
pub fn plan_edit(entry: &ChatEntry, target_id: u128) -> (r: EditDecision)
    ensures
        match r {
            EditDecision::NotFound => midx(entry.messages@, target_id) is None,
            EditDecision::NotUser => midx(entry.messages@, target_id) matches Some(i)
                && entry.messages@[i].owner != Role::User,
            EditDecision::Apply(p) => {
                &&& midx(entry.messages@, target_id) matches Some(i) && entry.messages@[i].owner
                    == Role::User && p.keep_count as int == i + 1
                &&& p.keep_count <= entry.messages@.len()
                &&& p.released@.map_values(|b: BlobRef| (b.store, b.id@)) == refs_of_tail(
                    entry.messages@,
                    p.keep_count as int,
                )
            },
        },
{
    let n = entry.messages.len();
    let mut i: usize = 0;
    while i < n
        invariant
            n == entry.messages@.len(),
            i <= n,
            midx_from(entry.messages@, target_id, 0) == midx_from(
                entry.messages@,
                target_id,
                i as int,
            ),
        decreases n - i,
    {
        if entry.messages[i].id == target_id {
            if !matches!(entry.messages[i].owner, Role::User) {
                return EditDecision::NotUser;
            }
            let keep: usize = i + 1;
            let released = collect_tail_refs(entry, keep);
            return EditDecision::Apply(TruncatePlan { keep_count: keep, released });
        }
        i = i + 1;
    }
    EditDecision::NotFound
}

/// Cut the log to the decided prefix.
pub fn apply_truncate(entry: &mut ChatEntry, keep: usize)
    requires
        keep <= old(entry).messages@.len(),
    ensures
        final(entry).messages@ == old(entry).messages@.subrange(0, keep as int),
        final(entry).id == old(entry).id,
        final(entry).created_at == old(entry).created_at,
        final(entry).summary@ == old(entry).summary@,
{
    entry.messages.truncate(keep);
}

/// Replace the content of the message at `i`, keeping everything else of
/// it and of the log.
pub fn apply_edit(entry: &mut ChatEntry, i: usize, new_content: Vec<MessageContent>)
    requires
        i < old(entry).messages@.len(),
    ensures
        final(entry).messages@.len() == old(entry).messages@.len(),
        forall|k: int|
            0 <= k < old(entry).messages@.len() && k != i ==> final(entry).messages@[k] == old(
                entry,
            ).messages@[k],
        ({
            let m = final(entry).messages@[i as int];
            let o = old(entry).messages@[i as int];
            m.id == o.id && m.owner == o.owner && m.content == new_content && m.reasoning
                == o.reasoning && m.tool_use == o.tool_use
        }),
        final(entry).id == old(entry).id,
        final(entry).created_at == old(entry).created_at,
        final(entry).summary@ == old(entry).summary@,
{
    let m = entry.messages.remove(i);
    let m2 = Message {
        id: m.id,
        owner: m.owner,
        content: new_content,
        reasoning: m.reasoning,
        tool_use: m.tool_use,
    };
    entry.messages.insert(i, m2);
    proof {
        assert forall|k: int|
            0 <= k < old(entry).messages@.len() && k != i implies entry.messages@[k] == old(
            entry,
        ).messages@[k] by {
            if k < i {
            } else {
                assert(entry.messages@[k] == old(entry).messages@.remove(i as int).insert(
                    i as int,
                    m2,
                )[k]);
            }
        }
    }
}

// ---------------------------------------------------------------------------
// Rendering a turn for the upstream model
// ---------------------------------------------------------------------------
/// The synthetic text block standing for one tool use in an assistant
/// message sent back upstream.
pub open spec fn tool_block_spec(name: Seq<u8>, args: Seq<u8>) -> Seq<u8> {
    seq![0x0au8] + crate::parser::w_name() + seq![0x3au8, 0x20u8] + name + seq![0x0au8]
        + crate::parser::w_args() + seq![0x3au8, 0x20u8] + args + seq![0x0au8]
}

/// Render the `FN_NAME: name` / `FN_ARGS: args` block of one tool use.
pub fn render_tool_use_block(name: &Vec<u8>, args: &Vec<u8>) -> (r: Vec<u8>)
    ensures
        r@ == tool_block_spec(name@, args@),
{
    let mut out: Vec<u8> = Vec::new();
    out.push(0x0a);
    let w0 = crate::parser::marker_bytes(0);
    crate::textops::push_all(&mut out, &w0);
    out.push(0x3a);
    out.push(0x20);
    crate::textops::push_all(&mut out, name);
    out.push(0x0a);
    let w1 = crate::parser::marker_bytes(1);
    crate::textops::push_all(&mut out, &w1);
    out.push(0x3a);
    out.push(0x20);
    crate::textops::push_all(&mut out, args);
    out.push(0x0a);
    proof {
        assert(out@ =~= tool_block_spec(name@, args@));
    }
    out
}

/// The prefix of a tool message sent upstream: `FN_RESULT: `.
pub fn render_result_prefix() -> (r: Vec<u8>)
    ensures
        r@ == crate::parser::w_result() + seq![0x3au8, 0x20u8],
{
    let mut out = crate::parser::marker_bytes(2);
    out.push(0x3a);
    out.push(0x20);
    proof {
        assert(out@ =~= crate::parser::w_result() + seq![0x3au8, 0x20u8]);
    }
    out
}

/// The suffix of a tool message sent upstream: newline, `FN_EXIT`, newline.
pub fn render_result_suffix() -> (r: Vec<u8>)
    ensures
        r@ == seq![0x0au8] + crate::parser::w_exit() + seq![0x0au8],
{
    let mut out: Vec<u8> = Vec::new();
    out.push(0x0a);
    let w3 = crate::parser::marker_bytes(3);
    crate::textops::push_all(&mut out, &w3);
    out.push(0x0a);
    proof {
        assert(out@ =~= seq![0x0au8] + crate::parser::w_exit() + seq![0x0au8]);
    }
    out
}


// ---------------------------------------------------------------------------
// Prompt language
// ---------------------------------------------------------------------------
/// The languages the prompt templates exist for.
#[derive(Clone, Copy, PartialEq, Eq, Structural, Debug)]
pub enum LangSel {
    Chinese,
    English,
    Korean,
    Japanese,
    Other,
}

/// Named result of language detection; a function of the text alone.
pub uninterp spec fn lang_of(s: Seq<u8>) -> Option<LangSel>;

/// Relies on `whatlang::detect_lang`: a deterministic trigram heuristic
/// over the text alone.  Languages outside the template set come back as
/// `Other`.
#[verifier::external_body]
pub fn detect_language(text: &Vec<u8>) -> (r: Option<LangSel>)
    ensures
        r == lang_of(text@),
{
    let s = String::from_utf8_lossy(text);
    whatlang::detect_lang(&s).map(|l| match l {
        whatlang::Lang::Cmn => LangSel::Chinese,
        whatlang::Lang::Eng => LangSel::English,
        whatlang::Lang::Kor => LangSel::Korean,
        whatlang::Lang::Jpn => LangSel::Japanese,
        _ => LangSel::Other,
    })
}

/// The prompt language of a turn: the configured one if any, else the
/// detected one, else Chinese.
pub fn choose_lang(configured: Option<LangSel>, detected: Option<LangSel>) -> (r: LangSel)
    ensures
        r == (match configured {
            Some(l) => l,
            None => match detected {
                Some(l) => l,
                None => LangSel::Chinese,
            },
        }),
{
    match configured {
        Some(l) => l,
        None => match detected {
            Some(l) => l,
            None => LangSel::Chinese,
        },
    }
}

/// The text parts of a message's content, concatenated.
pub open spec fn text_parts(content: Seq<MessageContent>) -> Seq<u8>
    decreases content.len(),
{
    if content.len() == 0 {
        Seq::<u8>::empty()
    } else {
        text_parts(content.subrange(0, content.len() - 1)) + (match content[content.len() - 1] {
            MessageContent::Text(t) => t@,
            _ => Seq::<u8>::empty(),
        })
    }
}

/// The concatenated text of the last user message that has any, from which
/// the turn's language is detected.
pub open spec fn last_user_text_spec(msgs: Seq<Message>, i: int) -> Option<Seq<u8>>
    decreases i + 1,
{
    if i < 0 {
        None
    } else if msgs[i].owner == Role::User && text_parts(msgs[i].content@).len() > 0 {
        Some(text_parts(msgs[i].content@))
    } else {
        last_user_text_spec(msgs, i - 1)
    }
}

/// Concatenate the text parts of a content list.
pub fn collect_text_parts(content: &Vec<MessageContent>) -> (r: Vec<u8>)
    ensures
        r@ == text_parts(content@),
{
    let mut out: Vec<u8> = Vec::new();
    let mut i: usize = 0;
    while i < content.len()
        invariant
            i <= content@.len(),
            out@ == text_parts(content@.subrange(0, i as int)),
        decreases content@.len() - i,
    {
        proof {
            let nxt = content@.subrange(0, i + 1);
            assert(nxt.subrange(0, nxt.len() - 1) =~= content@.subrange(0, i as int));
            assert(nxt[nxt.len() - 1] == content@[i as int]);
        }
        match &content[i] {
            MessageContent::Text(t) => {
                crate::textops::push_all(&mut out, t);
            },
            _ => {
                proof {
                    assert(out@ + Seq::<u8>::empty() =~= out@);
                }
            },
        }
        i = i + 1;
    }
    proof {
        assert(content@.subrange(0, content@.len() as int) =~= content@);
    }
    out
}

/// Find the newest user message with text, for language detection.
pub fn last_user_text(entry: &ChatEntry) -> (r: Option<Vec<u8>>)
    ensures
        match r {
            Some(v) => last_user_text_spec(entry.messages@, entry.messages@.len() - 1) == Some(
                v@,
            ),
            None => last_user_text_spec(entry.messages@, entry.messages@.len() - 1) is None,
        },
{
    let mut i: usize = entry.messages.len();
    while i > 0
        invariant
            i <= entry.messages@.len(),
            last_user_text_spec(entry.messages@, entry.messages@.len() - 1)
                == last_user_text_spec(entry.messages@, i as int - 1),
        decreases i,
    {
        let m = &entry.messages[i - 1];
        if matches!(m.owner, Role::User) {
            let t = collect_text_parts(&m.content);
            if t.len() > 0 {
                return Some(t);
            }
        }
        i = i - 1;
    }
    None
}

} // verus!
