//! The streaming protocol parser and the chat-loop planning steps.
use chat_ui::asset_id::AssetId;
use chat_ui::chat::{
    apply_edit, apply_truncate, pair_tool_results, plan_edit, plan_truncate, EditDecision,
};
use chat_ui::mux::RequestTable;
use chat_ui::parser::{marker_bytes, StreamParser};
use chat_ui::schema::{
    append_message_entry, render_summary, ChatEntry, Message, MessageContent, Role, StoreSel,
    ToolUse,
};

fn msg(id: u128, owner: Role, content: Vec<MessageContent>) -> Message {
    Message {
        id,
        owner,
        content,
        reasoning: vec![],
        tool_use: vec![],
    }
}

fn stream_s2() -> Vec<u8> {
    let mut s = b"Let me check. ".to_vec();
    s.extend_from_slice(&marker_bytes(0));
    s.extend_from_slice(b"zoom");
    s.extend_from_slice(&marker_bytes(1));
    s.extend_from_slice(b"{\"img_idx\":\"X\",\"bbox_list\":[{\"bbox_2d\":[0,0,500,500]}]}");
    s.extend_from_slice(&marker_bytes(3));
    s
}

#[test]
fn plain_stream_is_all_content() {
    let mut p = StreamParser::new();
    p.push_chunk(&b" pong".to_vec());
    p.finish();
    assert_eq!(p.content, b" pong".to_vec());
    assert!(p.reasoning.is_empty());
    assert!(p.calls.is_empty());
}

#[test]
fn single_tool_call_parses() {
    let mut p = StreamParser::new();
    p.push_chunk(&stream_s2());
    p.finish();
    assert_eq!(p.content, b"Let me check. ".to_vec());
    assert_eq!(p.calls.len(), 1);
    assert_eq!(p.calls[0].0, b"zoom".to_vec());
    assert_eq!(
        p.calls[0].1,
        b"{\"img_idx\":\"X\",\"bbox_list\":[{\"bbox_2d\":[0,0,500,500]}]}".to_vec()
    );
}

#[test]
fn chunking_does_not_change_the_outcome() {
    // the same stream fed whole and byte by byte gives identical results
    let bytes = stream_s2();
    let mut whole = StreamParser::new();
    whole.push_chunk(&bytes);
    whole.finish();
    let mut tiny = StreamParser::new();
    for b in &bytes {
        tiny.push_chunk(&vec![*b]);
    }
    tiny.finish();
    assert_eq!(whole.content, tiny.content);
    assert_eq!(whole.reasoning, tiny.reasoning);
    assert_eq!(whole.calls, tiny.calls);
}

#[test]
fn two_calls_round_trip_in_order() {
    let mut s = b"pre ".to_vec();
    for (name, args) in [("alpha", " : {\"a\":1} "), ("beta", ": go")] {
        s.extend_from_slice(&marker_bytes(0));
        s.extend_from_slice(name.as_bytes());
        s.extend_from_slice(&marker_bytes(1));
        s.extend_from_slice(args.as_bytes());
        s.extend_from_slice(&marker_bytes(3));
    }
    s.extend_from_slice(b" trailing thought");
    let mut p = StreamParser::new();
    p.push_chunk(&s);
    p.finish();
    assert_eq!(p.calls.len(), 2);
    // names and argument bodies come back stripped of whitespace and colons
    assert_eq!(p.calls[0].0, b"alpha".to_vec());
    assert_eq!(p.calls[0].1, b"{\"a\":1}".to_vec());
    assert_eq!(p.calls[1].0, b"beta".to_vec());
    assert_eq!(p.calls[1].1, b"go".to_vec());
    assert_eq!(p.content, b"pre ".to_vec());
    // text after the first call marker is reasoning, not content
    assert_eq!(p.reasoning, b" trailing thought".to_vec());
}

#[test]
fn name_reused_when_next_marker_opens_directly() {
    // FN_NAME as the args terminator opens the next call's name
    let mut s = Vec::new();
    s.extend_from_slice(&marker_bytes(0));
    s.extend_from_slice(b"first");
    s.extend_from_slice(&marker_bytes(1));
    s.extend_from_slice(b"a1");
    s.extend_from_slice(&marker_bytes(0));
    s.extend_from_slice(b"second");
    s.extend_from_slice(&marker_bytes(1));
    s.extend_from_slice(b"a2");
    s.extend_from_slice(&marker_bytes(3));
    let mut p = StreamParser::new();
    p.push_chunk(&s);
    p.finish();
    assert_eq!(p.calls.len(), 2);
    assert_eq!(p.calls[0].0, b"first".to_vec());
    assert_eq!(p.calls[0].1, b"a1".to_vec());
    assert_eq!(p.calls[1].0, b"second".to_vec());
    assert_eq!(p.calls[1].1, b"a2".to_vec());
}

#[test]
fn trailing_args_complete_at_end_of_stream() {
    let mut s = Vec::new();
    s.extend_from_slice(&marker_bytes(0));
    s.extend_from_slice(b"tail");
    s.extend_from_slice(&marker_bytes(1));
    s.extend_from_slice(b" : last-args");
    let mut p = StreamParser::new();
    p.push_chunk(&s);
    p.finish();
    assert_eq!(p.calls.len(), 1);
    assert_eq!(p.calls[0].0, b"tail".to_vec());
    assert_eq!(p.calls[0].1, b"last-args".to_vec());
}

#[test]
fn summary_takes_first_user_message_only() {
    let mut entry = ChatEntry::new(7, 0);
    let first = msg(
        1,
        Role::User,
        vec![
            MessageContent::Text(b"hello".to_vec()),
            MessageContent::ImageRef(AssetId::from_data(b"i"), b"pic".to_vec()),
            MessageContent::AssetRef(AssetId::from_data(b"a"), b"file".to_vec()),
        ],
    );
    append_message_entry(&mut entry, first);
    assert_eq!(entry.summary, b"hello[IMG][BIN]".to_vec());
    // a later user message never rewrites the summary
    append_message_entry(&mut entry, msg(2, Role::User, vec![MessageContent::Text(b"x".to_vec())]));
    assert_eq!(entry.summary, b"hello[IMG][BIN]".to_vec());
    assert_eq!(entry.messages.len(), 2);
}

#[test]
fn summary_is_cut_to_sixty_four_characters() {
    let long = vec![MessageContent::Text(vec![b'a'; 100])];
    let s = render_summary(&long);
    assert_eq!(s.len(), 64);
}

#[test]
fn edit_truncates_and_releases_the_tail() {
    // chat [User A, Assistant A1, User B, Assistant B1]; edit at A
    let img = AssetId::from_data(b"shared image");
    let mut entry = ChatEntry::new(9, 0);
    append_message_entry(
        &mut entry,
        msg(1, Role::User, vec![MessageContent::Text(b"A".to_vec())]),
    );
    append_message_entry(
        &mut entry,
        msg(
            2,
            Role::Assistant,
            vec![MessageContent::ImageRef(img.clone(), b"one".to_vec())],
        ),
    );
    append_message_entry(
        &mut entry,
        msg(3, Role::User, vec![MessageContent::Text(b"B".to_vec())]),
    );
    append_message_entry(
        &mut entry,
        msg(
            4,
            Role::Assistant,
            vec![MessageContent::ImageRef(img.clone(), b"two".to_vec())],
        ),
    );
    let plan = match plan_edit(&entry, 1) {
        EditDecision::Apply(p) => p,
        _ => panic!("edit of a user message applies"),
    };
    assert_eq!(plan.keep_count, 1);
    // the discarded tail held the image twice: released exactly twice
    assert_eq!(plan.released.len(), 2);
    for r in &plan.released {
        assert!(matches!(r.store, StoreSel::Image));
        assert!(r.id == img);
    }
    apply_truncate(&mut entry, plan.keep_count);
    apply_edit(&mut entry, 0, vec![MessageContent::Text(b"A'".to_vec())]);
    assert_eq!(entry.messages.len(), 1);
    assert!(matches!(entry.messages[0].owner, Role::User));
    assert!(
        matches!(&entry.messages[0].content[0], MessageContent::Text(t) if t == &b"A'".to_vec())
    );
    // editing an assistant message is refused
    assert!(matches!(plan_edit(&entry, 99), EditDecision::NotFound));
}

#[test]
fn delete_cascade_releases_every_reference() {
    // upload once, reference twice: count 3; the cascade releases twice,
    // the upload's own count remains
    let mut store = chat_ui::blob::MemBlobStore::new();
    let bytes = b"uploaded image".to_vec();
    let img = store.save(&bytes);
    store.retain(&img);
    store.retain(&img);
    let mut entry = ChatEntry::new(3, 0);
    append_message_entry(
        &mut entry,
        msg(1, Role::User, vec![MessageContent::ImageRef(img.clone(), vec![])]),
    );
    append_message_entry(
        &mut entry,
        msg(2, Role::User, vec![MessageContent::ImageRef(img.clone(), vec![])]),
    );
    let released = chat_ui::chat::plan_delete(&entry);
    assert_eq!(released.len(), 2);
    for r in &released {
        assert!(!store.release(&r.id));
    }
    // one count left from the original upload; releasing it erases the data
    assert!(store.release(&img));
    assert!(store.get(&img).is_none());
}

#[test]
fn regenerate_keeps_the_target_only_when_user_wrote_it() {
    let mut entry = ChatEntry::new(9, 0);
    append_message_entry(&mut entry, msg(1, Role::User, vec![]));
    append_message_entry(&mut entry, msg(2, Role::Assistant, vec![]));
    let at_user = plan_truncate(&entry, 1).unwrap();
    assert_eq!(at_user.keep_count, 1);
    let at_assistant = plan_truncate(&entry, 2).unwrap();
    assert_eq!(at_assistant.keep_count, 1);
    assert!(plan_truncate(&entry, 5).is_none());
}

#[test]
fn tool_results_keep_call_order() {
    let calls = vec![
        ToolUse { use_id: 1, function_name: b"a".to_vec(), args: b"1".to_vec() },
        ToolUse { use_id: 2, function_name: b"b".to_vec(), args: b"2".to_vec() },
    ];
    let results = vec![
        msg(10, Role::Tools(1), vec![]),
        msg(11, Role::Tools(2), vec![]),
    ];
    let paired = pair_tool_results(calls, results);
    assert_eq!(paired.len(), 2);
    assert_eq!(paired[0].0.use_id, 1);
    assert_eq!(paired[0].1.id, 10);
    assert_eq!(paired[1].0.use_id, 2);
    assert_eq!(paired[1].1.id, 11);
}

#[test]
fn no_delivery_after_abort() {
    let mut table = RequestTable::new();
    table.start(42);
    table.start(7);
    assert!(table.should_deliver(42));
    table.remove_id(42);
    assert!(!table.should_deliver(42));
    assert!(table.should_deliver(7));
    // removing again stays quiet
    table.remove_id(42);
    assert!(!table.should_deliver(42));
}
