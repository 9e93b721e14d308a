//! The conversation data model: message content, messages, chat entries and
//! their bookkeeping.  All text travels as UTF-8 bytes.
use vstd::prelude::*;
use crate::asset_id::AssetId;
use crate::textops::take_chars_spec;

verus! {

broadcast use vstd::seq_lib::group_seq_properties;

/// Which blob store a reference lives in.
#[derive(Clone, Copy, PartialEq, Eq, Structural, Debug)]
pub enum StoreSel {
    Image,
    Asset,
}

/// Who wrote a message.  A tools message carries the id of the tool use it
/// answers.
#[derive(Clone, Copy, PartialEq, Eq, Structural, Debug)]
pub enum Role {
    System,
    User,
    Assistant,
    Tools(u128),
}

/// A parsed intent to invoke a tool.
pub struct ToolUse {
    pub use_id: u128,
    pub function_name: Vec<u8>,
    pub args: Vec<u8>,
}

/// The mathematical shape of a tool use.
pub ghost struct ToolUseView {
    pub use_id: u128,
    pub name: Seq<u8>,
    pub args: Seq<u8>,
}

impl View for ToolUse {
    type V = ToolUseView;

    open spec fn view(&self) -> ToolUseView {
        ToolUseView { use_id: self.use_id, name: self.function_name@, args: self.args@ }
    }
}

impl Clone for ToolUse {
    fn clone(&self) -> (r: Self)
        ensures
            r@ == self@,
    {
        let r = ToolUse {
            use_id: self.use_id,
            function_name: crate::textops::sub_bytes(
                &self.function_name,
                0,
                self.function_name.len(),
            ),
            args: crate::textops::sub_bytes(&self.args, 0, self.args.len()),
        };
        proof {
            assert(r.function_name@ =~= self.function_name@);
            assert(r.args@ =~= self.args@);
        }
        r
    }
}

/// One part of a message body.
pub enum MessageContent {
    /// Plain text.
    Text(Vec<u8>),
    /// A stored image, by id, with a label.
    ImageRef(AssetId, Vec<u8>),
    /// An in-memory image copy; only appears in transient payloads.
    ImageBin(Vec<u8>, AssetId, Vec<u8>),
    /// A stored binary asset, by id, with a label.
    AssetRef(AssetId, Vec<u8>),
}

/// One message of a conversation.
pub struct Message {
    pub id: u128,
    pub owner: Role,
    pub content: Vec<MessageContent>,
    pub reasoning: Vec<MessageContent>,
    pub tool_use: Vec<ToolUse>,
}

/// A stored conversation.
pub struct ChatEntry {
    pub id: u128,
    pub created_at: u64,
    pub summary: Vec<u8>,
    pub messages: Vec<Message>,
}

/// The listing projection of a conversation: no message bodies.
pub struct ChatMeta {
    pub id: u128,
    pub created_at: u64,
    pub summary: Vec<u8>,
}

impl ChatEntry {
    /// A fresh, empty conversation.
    pub fn new(id: u128, created_at: u64) -> (r: ChatEntry)
        ensures
            r.id == id,
            r.created_at == created_at,
            r.summary@ == Seq::<u8>::empty(),
            r.messages@ == Seq::<Message>::empty(),
    {
        let r = ChatEntry { id, created_at, summary: Vec::new(), messages: Vec::new() };
        r
    }

    /// The listing projection.
    pub fn meta(&self) -> (r: ChatMeta)
        ensures
            r.id == self.id,
            r.created_at == self.created_at,
            r.summary@ == self.summary@,
    {
        ChatMeta {
            id: self.id,
            created_at: self.created_at,
            summary: crate::textops::sub_bytes(&self.summary, 0, self.summary.len()),
        }
    }
}

// ---------------------------------------------------------------------------
// Summaries
// ---------------------------------------------------------------------------
/// How one content part reads in a chat summary.
pub open spec fn part_summary(c: MessageContent) -> Seq<u8> {
    match c {
        MessageContent::Text(t) => t@,
        MessageContent::ImageRef(_, _) => seq![0x5bu8, 0x49u8, 0x4du8, 0x47u8, 0x5du8],
        MessageContent::ImageBin(_, _, _) => seq![0x5bu8, 0x49u8, 0x4du8, 0x47u8, 0x5du8],
        MessageContent::AssetRef(_, _) => seq![0x5bu8, 0x42u8, 0x49u8, 0x4eu8, 0x5du8],
    }
}

/// The concatenated rendering of all parts.
pub open spec fn parts_text(content: Seq<MessageContent>) -> Seq<u8>
    decreases content.len(),
{
    if content.len() == 0 {
        Seq::<u8>::empty()
    } else {
        parts_text(content.subrange(0, content.len() - 1)) + part_summary(
            content[content.len() - 1],
        )
    }
}

/// A chat summary: the rendering of the first user message, cut to 64
/// characters.
pub open spec fn summary_of(content: Seq<MessageContent>) -> Seq<u8> {
    take_chars_spec(parts_text(content), 64)
}

/// Render the summary of a message's content.
pub fn render_summary(content: &Vec<MessageContent>) -> (r: Vec<u8>)
    ensures
        r@ == summary_of(content@),
{
    let mut text: Vec<u8> = Vec::new();
    let mut i: usize = 0;
    while i < content.len()
        invariant
            i <= content@.len(),
            text@ == parts_text(content@.subrange(0, i as int)),
        decreases content@.len() - i,
    {
        proof {
            let nxt = content@.subrange(0, i + 1);
            assert(nxt.subrange(0, nxt.len() - 1) =~= content@.subrange(0, i as int));
            assert(nxt[nxt.len() - 1] == content@[i as int]);
        }
        match &content[i] {
            MessageContent::Text(t) => {
                crate::textops::push_all(&mut text, t);
            },
            MessageContent::ImageRef(_, _) => {
                text.push(0x5b);
                text.push(0x49);
                text.push(0x4d);
                text.push(0x47);
                text.push(0x5d);
                proof {
                    assert(text@ =~= parts_text(content@.subrange(0, i + 1)));
                }
            },
            MessageContent::ImageBin(_, _, _) => {
                text.push(0x5b);
                text.push(0x49);
                text.push(0x4d);
                text.push(0x47);
                text.push(0x5d);
                proof {
                    assert(text@ =~= parts_text(content@.subrange(0, i + 1)));
                }
            },
            MessageContent::AssetRef(_, _) => {
                text.push(0x5b);
                text.push(0x42);
                text.push(0x49);
                text.push(0x4e);
                text.push(0x5d);
                proof {
                    assert(text@ =~= parts_text(content@.subrange(0, i + 1)));
                }
            },
        }
        i = i + 1;
    }
    proof {
        assert(content@.subrange(0, content@.len() as int) =~= content@);
    }
    crate::textops::take_chars(&text, 64)
}

// ---------------------------------------------------------------------------
// Appending
// ---------------------------------------------------------------------------
/// Append one message to a conversation.  The summary is written once, from
/// the first user message into an entry whose summary is still empty, and
/// never changed afterwards.
pub fn append_message_entry(entry: &mut ChatEntry, msg: Message)
    ensures
        final(entry).id == old(entry).id,
        final(entry).created_at == old(entry).created_at,
        final(entry).messages@ == old(entry).messages@.push(msg),
        final(entry).summary@ == if old(entry).summary@.len() == 0 && msg.owner == Role::User {
            summary_of(msg.content@)
        } else {
            old(entry).summary@
        },
{
    if entry.summary.len() == 0 && matches!(msg.owner, Role::User) {
        entry.summary = render_summary(&msg.content);
    }
    entry.messages.push(msg);
}

/// Appending two messages, in whichever order the race resolved, loses
/// nothing: the log keeps its prefix, grows by exactly two, and holds both
/// messages; the two outcomes agree as multisets.
pub proof fn lemma_append_both(base: Seq<Message>, a: Message, b: Message)
    ensures
        base.push(a).push(b).to_multiset() =~= base.push(b).push(a).to_multiset(),
        base.push(a).push(b).len() == base.len() + 2,
        base.push(a).push(b).contains(a),
        base.push(a).push(b).contains(b),
        forall|i: int| 0 <= i < base.len() ==> base.push(a).push(b)[i] == base[i],
{
    broadcast use vstd::seq_lib::group_to_multiset_ensures;

    assert(base.push(a).push(b).to_multiset() =~= base.to_multiset().insert(a).insert(b));
    assert(base.push(b).push(a).to_multiset() =~= base.to_multiset().insert(b).insert(a));
    assert(base.to_multiset().insert(a).insert(b) =~= base.to_multiset().insert(b).insert(a));
    assert(base.push(a).push(b)[base.len() as int] == a);
    assert(base.push(a).push(b)[base.len() as int + 1] == b);
}

// ---------------------------------------------------------------------------
// Blob references
// ---------------------------------------------------------------------------
/// A blob reference held by a message: which store, which id.
pub struct BlobRef {
    pub store: StoreSel,
    pub id: AssetId,
}

/// The references of one content part: images (stored or inline) point into
/// the image store, assets into the asset store, text holds none.
pub open spec fn refs_of_content(c: MessageContent) -> Seq<(StoreSel, Seq<u8>)> {
    match c {
        MessageContent::Text(_) => Seq::empty(),
        MessageContent::ImageRef(id, _) => seq![(StoreSel::Image, id@)],
        MessageContent::ImageBin(_, id, _) => seq![(StoreSel::Image, id@)],
        MessageContent::AssetRef(id, _) => seq![(StoreSel::Asset, id@)],
    }
}

/// All references of a message's content, in order of occurrence.
pub open spec fn refs_of_message(m: Message) -> Seq<(StoreSel, Seq<u8>)>
    decreases m.content@.len(),
{
    refs_of_contents(m.content@)
}

pub open spec fn refs_of_contents(content: Seq<MessageContent>) -> Seq<(StoreSel, Seq<u8>)>
    decreases content.len(),
{
    if content.len() == 0 {
        Seq::empty()
    } else {
        refs_of_contents(content.subrange(0, content.len() - 1)) + refs_of_content(
            content[content.len() - 1],
        )
    }
}

proof fn lemma_map_push<A, B>(s: Seq<A>, f: spec_fn(A) -> B, x: A)
    ensures
        s.push(x).map_values(f) =~= s.map_values(f).push(f(x)),
{
}

/// Collect the blob references of a message, one per occurrence.
pub fn collect_refs(msg: &Message, out: &mut Vec<BlobRef>)
    ensures
        final(out)@.len() == old(out)@.len() + refs_of_message(*msg).len(),
        final(out)@.map_values(|r: BlobRef| (r.store, r.id@)) == old(out)@.map_values(
            |r: BlobRef| (r.store, r.id@),
        ) + refs_of_message(*msg),
{
    let ghost pre = out@.map_values(|r: BlobRef| (r.store, r.id@));
    let mut i: usize = 0;
    while i < msg.content.len()
        invariant
            i <= msg.content@.len(),
            pre == old(out)@.map_values(|r: BlobRef| (r.store, r.id@)),
            out@.len() == old(out)@.len() + refs_of_contents(msg.content@.subrange(0, i as int)).len(),
            out@.map_values(|r: BlobRef| (r.store, r.id@)) == pre + refs_of_contents(
                msg.content@.subrange(0, i as int),
            ),
        decreases msg.content@.len() - i,
    {
        proof {
            let nxt = msg.content@.subrange(0, i + 1);
            assert(nxt.subrange(0, nxt.len() - 1) =~= msg.content@.subrange(0, i as int));
            assert(nxt[nxt.len() - 1] == msg.content@[i as int]);
        }
        let ghost before = out@;
        match &msg.content[i] {
            MessageContent::Text(_) => {
                proof {
                    assert(refs_of_contents(msg.content@.subrange(0, i + 1)) =~= refs_of_contents(
                        msg.content@.subrange(0, i as int),
                    ));
                }
            },
            MessageContent::ImageRef(id, _) => {
                out.push(BlobRef { store: StoreSel::Image, id: id.clone() });
            },
            MessageContent::ImageBin(_, id, _) => {
                out.push(BlobRef { store: StoreSel::Image, id: id.clone() });
            },
            MessageContent::AssetRef(id, _) => {
                out.push(BlobRef { store: StoreSel::Asset, id: id.clone() });
            },
        }
        proof {
            let f = |r: BlobRef| (r.store, r.id@);
            if out@.len() > before.len() {
                lemma_map_push(before, f, out@[out@.len() - 1]);
                assert(out@ =~= before.push(out@[out@.len() - 1]));
            }
            assert(out@.map_values(f) =~= pre + refs_of_contents(
                msg.content@.subrange(0, i + 1),
            ));
        }
        i = i + 1;
    }
    proof {
        assert(msg.content@.subrange(0, msg.content@.len() as int) =~= msg.content@);
    }
}

} // verus!
