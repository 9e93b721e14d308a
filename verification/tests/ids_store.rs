//! Identifier codec and storage behaviour, exercised end to end.
use chat_ui::asset_id::{AssetId, AssetIdError};
use chat_ui::blob::{
    rc_from_be_bytes, rc_to_be_bytes, release_decision, retain_decision, save_decision,
    BlobStorageError, MemBlobStore, ReleaseAction, SaveAction,
};
use chat_ui::session::{MemSessionStore, SessionStoreError};

#[test]
fn content_addressing_dedups() {
    // saving the same bytes twice yields the same id and one copy
    let mut store = MemBlobStore::new();
    let data = b"the quick brown fox".to_vec();
    let a = store.save(&data);
    let b = store.save(&data);
    assert!(a == b);
    let got = store.get(&a).expect("stored");
    assert_eq!(got, data);
    // a different payload gets a different id
    let other = store.save(&b"something else".to_vec());
    assert!(!(other == a));
}

#[test]
fn refcount_integrity_over_ops() {
    // save + 2 retains = count 3: three releases to reach physical deletion
    let mut store = MemBlobStore::new();
    let data = b"payload".to_vec();
    let id = store.save(&data);
    store.retain(&id);
    store.retain(&id);
    assert!(!store.release(&id));
    assert!(!store.release(&id));
    assert!(store.release(&id));
    assert!(store.get(&id).is_none());
    // releasing an absent id does nothing and reports no deletion
    assert!(!store.release(&id));
}

#[test]
fn peek_returns_prefix_and_total() {
    let mut store = MemBlobStore::new();
    let data = b"0123456789".to_vec();
    let id = store.save(&data);
    let (head, total) = store.peek(&id, 4).expect("stored");
    assert_eq!(head, b"0123".to_vec());
    assert_eq!(total, 10);
    let (all, total2) = store.peek(&id, 99).expect("stored");
    assert_eq!(all, data);
    assert_eq!(total2, 10);
}

#[test]
fn asset_id_round_trip() {
    let id = AssetId::from_data(b"hello world");
    let text = id.format_text();
    assert_eq!(text.len(), 35);
    // four hyphens at the fixed offsets: groups of 6-6-6-6-7
    for (i, b) in text.iter().enumerate() {
        if i == 6 || i == 13 || i == 20 || i == 27 {
            assert_eq!(*b, b'-');
        } else {
            assert!(b.is_ascii_digit() || b.is_ascii_lowercase());
        }
    }
    let back = AssetId::parse_text(&text).expect("canonical form parses");
    assert!(back == id);
    // the string form matches the byte form
    let s = id.to_base36_string();
    assert_eq!(s.as_bytes(), &text[..]);
}

#[test]
fn asset_id_parse_tolerates_decoration() {
    let id = AssetId::from_data(b"tolerant");
    let text = String::from_utf8(id.format_text()).unwrap();
    let plain: String = text.chars().filter(|c| *c != '-').collect();
    let upper = plain.to_uppercase();
    for form in [
        format!("asset-{}", text),
        format!("image-{}", text),
        format!("asset/{}", plain),
        format!("  {}  ", text),
        upper,
    ] {
        let back = AssetId::parse_text(form.as_bytes()).expect("tolerated form parses");
        assert!(back == id);
    }
}

#[test]
fn asset_id_parse_rejects_bad_input() {
    assert_eq!(
        AssetId::parse_text(b"not/base36!!"),
        Err(AssetIdError::InvalidBase36)
    );
    assert_eq!(AssetId::parse_text(b""), Err(AssetIdError::InvalidBase36));
    // 32 z digits exceed 160 bits
    assert_eq!(
        AssetId::parse_text(&[b'z'; 32]),
        Err(AssetIdError::AssertIdOverflow)
    );
}

#[test]
fn refcount_row_codec() {
    let row = rc_to_be_bytes(5);
    assert_eq!(row, vec![0, 0, 0, 0, 0, 0, 0, 5]);
    assert_eq!(rc_from_be_bytes(&row), Ok(5));
    let big = rc_to_be_bytes(u64::MAX);
    assert_eq!(rc_from_be_bytes(&big), Ok(u64::MAX));
    assert_eq!(
        rc_from_be_bytes(&vec![1, 2, 3]),
        Err(BlobStorageError::InvalidRefCountData)
    );
}

#[test]
fn backend_decisions() {
    assert!(matches!(save_decision(None), SaveAction::Insert));
    assert!(matches!(save_decision(Some(4)), SaveAction::Bump(5)));
    assert!(matches!(release_decision(None), ReleaseAction::Ignore));
    assert!(matches!(release_decision(Some(1)), ReleaseAction::Erase));
    assert!(matches!(
        release_decision(Some(3)),
        ReleaseAction::Decrement(2)
    ));
    assert_eq!(retain_decision(None), 1);
    assert_eq!(retain_decision(Some(7)), 8);
}

#[test]
fn session_store_rows() {
    let mut s = MemSessionStore::new();
    s.append(1, b"meta1".to_vec(), b"data1".to_vec()).unwrap();
    s.append(2, b"meta2".to_vec(), b"data2".to_vec()).unwrap();
    assert_eq!(
        s.append(1, b"x".to_vec(), b"y".to_vec()),
        Err(SessionStoreError::UuidCollision)
    );
    assert_eq!(s.get_meta(1), Some(b"meta1".to_vec()));
    assert_eq!(s.get_data(2), Some(b"data2".to_vec()));
    // newest first
    let all = s.list(None, None);
    assert_eq!(all.len(), 2);
    assert_eq!(all[0].0, 2);
    assert_eq!(all[1].0, 1);
    // pagination
    let page = s.list(Some(1), Some(1));
    assert_eq!(page.len(), 1);
    assert_eq!(page[0].0, 1);
    // update overwrites both rows
    s.update(1, b"m".to_vec(), b"d".to_vec());
    assert_eq!(s.get_data(1), Some(b"d".to_vec()));
    // delete hands the payload back
    assert_eq!(s.delete(1), Some(b"d".to_vec()));
    assert_eq!(s.get_meta(1), None);
    assert_eq!(s.delete(1), None);
}
